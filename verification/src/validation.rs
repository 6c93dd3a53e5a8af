//! Text sanitization helpers for safe display.

use vstd::prelude::*;

verus! {

/// Characters that sanitization keeps: everything except the null byte,
/// control characters other than tab, newline and carriage return, and
/// the delete character.
pub open spec fn keep_char(c: char) -> bool {
    let u = c as u32;
    !(u == 0 || (1 <= u && u <= 8) || u == 11 || u == 12 || (14 <= u && u <= 31) || u == 127)
}

/// Removes null bytes and control characters, keeping newlines and tabs.
#[verifier::loop_isolation(false)]
pub fn sanitize_text(text: &str) -> (r: String)
    ensures
        r@ == text@.filter(|c: char| keep_char(c)),
{
    let ghost pred = |c: char| keep_char(c);
    let n = text.unicode_len();
    let mut result = String::new();
    let mut i: usize = 0;
    while i < n
        invariant
            n == text@.len(),
            0 <= i <= n,
            result@ == text@.take(i as int).filter(pred),
        decreases n - i,
    {
        let c = text.get_char(i);
        let u = c as u32;
        proof {
            assert(text@.take(i as int + 1) =~= text@.take(i as int).push(text@[i as int]));
            text@.take(i as int).lemma_filter_push(text@[i as int], pred);
        }
        if !(u == 0 || (1 <= u && u <= 8) || u == 11 || u == 12 || (14 <= u && u <= 31) || u
            == 127) {
            let piece = text.substring_char(i, i + 1);
            proof {
                assert(piece@ =~= seq![text@[i as int]]);
                assert(result@ + piece@ =~= result@.push(text@[i as int]));
            }
            result.append(piece);
        }
        i += 1;
    }
    proof {
        assert(text@.take(n as int) =~= text@);
    }
    result
}

/// The expansion of one character under entity escaping.
pub open spec fn escape_char(c: char) -> Seq<char> {
    if c == '&' {
        "&amp;"@
    } else if c == '<' {
        "&lt;"@
    } else if c == '>' {
        "&gt;"@
    } else if c == '"' {
        "&quot;"@
    } else if c == '\'' {
        "&#x27;"@
    } else if c == '/' {
        "&#x2F;"@
    } else if c == '`' {
        "&#x60;"@
    } else if c == '=' {
        "&#x3D;"@
    } else {
        seq![c]
    }
}

/// A string with every character entity-escaped.
pub open spec fn escaped(s: Seq<char>) -> Seq<char>
    decreases s.len(),
{
    if s.len() == 0 {
        Seq::empty()
    } else {
        escaped(s.drop_last()) + escape_char(s.last())
    }
}

/// Escapes markup-significant characters as entities.
#[verifier::loop_isolation(false)]
pub fn escape_html(text: &str) -> (r: String)
    ensures
        r@ == escaped(text@),
{
    let n = text.unicode_len();
    let mut result = String::new();
    let mut i: usize = 0;
    while i < n
        invariant
            n == text@.len(),
            0 <= i <= n,
            result@ == escaped(text@.take(i as int)),
        decreases n - i,
    {
        let c = text.get_char(i);
        proof {
            assert(text@.take(i as int + 1).drop_last() =~= text@.take(i as int));
            assert(text@.take(i as int + 1).last() == text@[i as int]);
        }
        if c == '&' {
            result.append("&amp;");
        } else if c == '<' {
            result.append("&lt;");
        } else if c == '>' {
            result.append("&gt;");
        } else if c == '"' {
            result.append("&quot;");
        } else if c == '\'' {
            result.append("&#x27;");
        } else if c == '/' {
            result.append("&#x2F;");
        } else if c == '`' {
            result.append("&#x60;");
        } else if c == '=' {
            result.append("&#x3D;");
        } else {
            let piece = text.substring_char(i, i + 1);
            proof {
                assert(piece@ =~= seq![text@[i as int]]);
            }
            result.append(piece);
        }
        i += 1;
    }
    proof {
        assert(text@.take(n as int) =~= text@);
    }
    result
}

/// One step of the tag-stripping scan: `<` opens a tag, `>` closes it,
/// and characters outside tags are kept.
pub open spec fn strip_step(acc: (Seq<char>, bool), c: char) -> (Seq<char>, bool) {
    if c == '<' {
        (acc.0, true)
    } else if c == '>' {
        (acc.0, false)
    } else if !acc.1 {
        (acc.0.push(c), acc.1)
    } else {
        acc
    }
}

/// The kept text and the in-tag state after scanning a string.
pub open spec fn stripped(s: Seq<char>) -> (Seq<char>, bool)
    decreases s.len(),
{
    if s.len() == 0 {
        (Seq::empty(), false)
    } else {
        strip_step(stripped(s.drop_last()), s.last())
    }
}

/// Removes angle-bracketed tags, keeping the text between them.
#[verifier::loop_isolation(false)]
pub fn strip_html_tags(html: &str) -> (r: String)
    ensures
        r@ == stripped(html@).0,
{
    let n = html.unicode_len();
    let mut result = String::new();
    let mut in_tag = false;
    let mut i: usize = 0;
    while i < n
        invariant
            n == html@.len(),
            0 <= i <= n,
            (result@, in_tag) == stripped(html@.take(i as int)),
        decreases n - i,
    {
        let c = html.get_char(i);
        proof {
            assert(html@.take(i as int + 1).drop_last() =~= html@.take(i as int));
            assert(html@.take(i as int + 1).last() == html@[i as int]);
        }
        if c == '<' {
            in_tag = true;
        } else if c == '>' {
            in_tag = false;
        } else if !in_tag {
            let piece = html.substring_char(i, i + 1);
            proof {
                assert(piece@ =~= seq![html@[i as int]]);
                assert(result@ + piece@ =~= result@.push(html@[i as int]));
            }
            result.append(piece);
        }
        i += 1;
    }
    proof {
        assert(html@.take(n as int) =~= html@);
    }
    result
}

} // verus!
