//! Profile metadata parsing.
//!
//! A profile event carries its metadata as a JSON document.  The JSON
//! reading itself goes through `serde_json` behind trusted wrappers; the
//! field-fallback rules — a missing name falls back to the display name
//! and vice versa, everything else to empty — are verified here.

use vstd::prelude::*;

use crate::types::UserProfile;

verus! {

/// Whether a string is a well-formed JSON document.
pub uninterp spec fn json_doc_ok(doc: Seq<char>) -> bool;

/// The string value a JSON document holds under a top-level key: `None`
/// when the document does not parse, the key is absent, or its value is
/// not a string.
pub uninterp spec fn json_string_field(doc: Seq<char>, key: Seq<char>) -> Option<Seq<char>>;

/// Relies on `serde_json::from_str::<Value>`: whether a string parses as
/// JSON is a function of the string alone.
#[verifier::external_body]
fn json_is_valid(doc: &str) -> (r: bool)
    ensures
        r == json_doc_ok(doc@),
{
    serde_json::from_str::<serde_json::Value>(doc).is_ok()
}

/// Relies on `serde_json::from_str::<Value>`, `Value::get` and
/// `Value::as_str`: the string value under a key is a function of the
/// document and the key alone.
#[verifier::external_body]
fn json_str_field(doc: &str, key: &str) -> (r: Option<String>)
    ensures
        (match r {
            Some(v) => json_string_field(doc@, key@) == Some(v@),
            None => json_string_field(doc@, key@) is None,
        }),
{
    serde_json::from_str::<serde_json::Value>(doc)
        .ok()
        .and_then(|v| v.get(key).and_then(|f| f.as_str()).map(|s| s.to_string()))
}

/// The string field under `key`, or the fallback.
pub open spec fn spec_field_or(doc: Seq<char>, key: Seq<char>, fallback: Seq<char>) -> Seq<char> {
    match json_string_field(doc, key) {
        Some(v) => v,
        None => fallback,
    }
}

/// The string field under `key`, or under `alt`, or empty: the fallback
/// rule for the two name fields.
pub open spec fn spec_field_or_alt(doc: Seq<char>, key: Seq<char>, alt: Seq<char>) -> Seq<char> {
    spec_field_or(doc, key, spec_field_or(doc, alt, Seq::empty()))
}

/// Reads one string field with a plain empty fallback.
fn field_or_empty(doc: &str, key: &str) -> (r: String)
    ensures
        r@ == spec_field_or(doc@, key@, Seq::<char>::empty()),
{
    match json_str_field(doc, key) {
        Some(v) => v,
        None => String::new(),
    }
}

/// Parses the JSON content of a profile event into a profile record.
/// Returns `None` exactly when the content is not well-formed JSON.  The
/// name falls back to the display name and the display name to the name;
/// every other field falls back to empty.  The pubkey is taken from the
/// event, not the content.
pub fn parse_profile_content(content: &str, pubkey_hex: &str) -> (r: Option<UserProfile>)
    ensures
        r is Some <==> json_doc_ok(content@),
        (match r {
            Some(p) => {
                &&& p.name@ == spec_field_or_alt(content@, "name"@, "display_name"@)
                &&& p.display_name@ == spec_field_or_alt(content@, "display_name"@, "name"@)
                &&& p.about@ == spec_field_or(content@, "about"@, Seq::<char>::empty())
                &&& p.picture@ == spec_field_or(content@, "picture"@, Seq::<char>::empty())
                &&& p.banner@ == spec_field_or(content@, "banner"@, Seq::<char>::empty())
                &&& p.nip05@ == spec_field_or(content@, "nip05"@, Seq::<char>::empty())
                &&& p.lud16@ == spec_field_or(content@, "lud16"@, Seq::<char>::empty())
                &&& p.website@ == spec_field_or(content@, "website"@, Seq::<char>::empty())
                &&& p.birthday@ == spec_field_or(content@, "birthday"@, Seq::<char>::empty())
                &&& p.pubkey@ == pubkey_hex@
            },
            None => true,
        }),
{
    if !json_is_valid(content) {
        return None;
    }
    let name: String = match json_str_field(content, "name") {
        Some(v) => v,
        None => field_or_empty(content, "display_name"),
    };
    let display_name: String = match json_str_field(content, "display_name") {
        Some(v) => v,
        None => field_or_empty(content, "name"),
    };
    Some(
        UserProfile {
            name,
            display_name,
            about: field_or_empty(content, "about"),
            picture: field_or_empty(content, "picture"),
            banner: field_or_empty(content, "banner"),
            nip05: field_or_empty(content, "nip05"),
            lud16: field_or_empty(content, "lud16"),
            website: field_or_empty(content, "website"),
            birthday: field_or_empty(content, "birthday"),
            pubkey: pubkey_hex.to_owned(),
        },
    )
}

} // verus!
