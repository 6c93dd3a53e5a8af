//! Relay URL validation and proximity-based relay selection.
//!
//! URLs are checked through the `url` crate's parser behind a trusted
//! wrapper.  The relay table carries coordinates in integer
//! micro-degrees; the caller computes each node's distance from the
//! viewer and this module ranks nodes by priority tier first and
//! distance second.

use vstd::multiset::Multiset;
use vstd::prelude::*;

use crate::config::RelayConfig;

verus! {

/// What the `url` crate's parser extracts from a string: `None` when the
/// string is not an absolute URL, otherwise the scheme and, if the URL
/// has one, the host.
pub uninterp spec fn parsed_url_parts(s: Seq<char>) -> Option<(Seq<char>, Option<Seq<char>>)>;

/// Relies on `url::Url::parse`, `Url::scheme` and `Url::host_str`: the
/// parse succeeds exactly on absolute URLs, and scheme and host are
/// functions of the input string alone.
#[verifier::external_body]
fn parse_url_parts(url: &str) -> (r: Option<(String, Option<String>)>)
    ensures
        (match r {
            Some(p) => parsed_url_parts(url@) == Some(
                (
                    p.0@,
                    match p.1 {
                        Some(h) => Some(h@),
                        None => None::<Seq<char>>,
                    },
                ),
            ),
            None => parsed_url_parts(url@) is None,
        }),
{
    match url::Url::parse(url) {
        Ok(u) => Some((u.scheme().to_string(), u.host_str().map(|h| h.to_string()))),
        Err(_) => None,
    }
}

/// A valid relay URL: it parses, its scheme is `wss`, it has a host, the
/// host is not a hidden-service address, and local hosts pass only when
/// allowed.
pub open spec fn spec_is_valid_relay_url(s: Seq<char>, allow_localhost: bool) -> bool {
    match parsed_url_parts(s) {
        Some(p) => {
            let scheme = p.0;
            match p.1 {
                Some(h) => scheme == "wss"@ && !(h.len() >= 6 && h.subrange(
                    h.len() - 6,
                    h.len() as int,
                ) == ".onion"@) && !((h == "localhost"@ || h == "127.0.0.1"@)
                    && !allow_localhost),
                None => false,
            }
        },
        None => false,
    }
}

/// Validates a relay URL.
pub fn is_valid_relay_url(url: &str, allow_localhost: bool) -> (r: bool)
    ensures
        r == spec_is_valid_relay_url(url@, allow_localhost),
{
    let parts = parse_url_parts(url);
    let p = match parts {
        Some(p) => p,
        None => {
            return false;
        },
    };
    if !(p.0 == "wss".to_owned()) {
        return false;
    }
    let h = match p.1 {
        Some(h) => h,
        None => {
            return false;
        },
    };
    let hlen = h.as_str().unicode_len();
    if hlen >= 6 {
        let tail: String = h.as_str().substring_char(hlen - 6, hlen).to_owned();
        if tail == ".onion".to_owned() {
            return false;
        }
    }
    if (h == "localhost".to_owned() || h == "127.0.0.1".to_owned()) && !allow_localhost {
        return false;
    }
    true
}

/// Filters a relay list down to the valid entries; if none is valid, the
/// configured default relay stands in.
#[verifier::loop_isolation(false)]
pub fn filter_valid_relays(relays: &Vec<String>, config: &RelayConfig) -> (r: Vec<String>)
    ensures
        ({
            let valid = relays@.filter(
                |s: String| spec_is_valid_relay_url(s@, false),
            );
            if valid.len() == 0 {
                r@.len() == 1 && r@[0]@ == config.default_relay@
            } else {
                r@ == valid
            }
        }),
{
    let ghost pred = |s: String| spec_is_valid_relay_url(s@, false);
    let n = relays.len();
    let mut valid: Vec<String> = Vec::new();
    let mut i: usize = 0;
    while i < n
        invariant
            0 <= i <= n,
            valid@ == relays@.take(i as int).filter(pred),
        decreases n - i,
    {
        proof {
            assert(relays@.take(i as int + 1) =~= relays@.take(i as int).push(
                relays@[i as int],
            ));
            relays@.take(i as int).lemma_filter_push(relays@[i as int], pred);
        }
        if is_valid_relay_url(relays[i].as_str(), false) {
            let ghost oldv = valid@;
            valid.push(relays[i].clone());
            proof {
                assert(valid@ =~= oldv.push(relays@[i as int]));
            }
        }
        i += 1;
    }
    proof {
        assert(relays@.take(n as int) =~= relays@);
    }
    if valid.is_empty() {
        let mut fallback: Vec<String> = Vec::new();
        fallback.push(config.default_relay.clone());
        fallback
    } else {
        valid
    }
}

/// The relay list views after folding in one fallback: appended unless
/// already present.
pub open spec fn spec_dedup_push(acc: Seq<Seq<char>>, s: Seq<char>) -> Seq<Seq<char>> {
    if acc.contains(s) {
        acc
    } else {
        acc.push(s)
    }
}

/// The full relay list views: the default relay followed by each fallback
/// not already present.
pub open spec fn spec_relay_views(default: Seq<char>, fallbacks: Seq<String>) -> Seq<Seq<char>>
    decreases fallbacks.len(),
{
    if fallbacks.len() == 0 {
        seq![default]
    } else {
        spec_dedup_push(spec_relay_views(default, fallbacks.drop_last()), fallbacks.last()@)
    }
}

/// Tests whether a vector of strings holds a given string.
#[verifier::loop_isolation(false)]
fn vec_contains_str(v: &Vec<String>, s: &String) -> (r: bool)
    ensures
        r == v@.map_values(|x: String| x@).contains(s@),
{
    let n = v.len();
    let mut i: usize = 0;
    while i < n
        invariant
            0 <= i <= n,
            forall|j: int| 0 <= j < i ==> (#[trigger] v@[j])@ != s@,
        decreases n - i,
    {
        if v[i] == *s {
            proof {
                assert(v@.map_values(|x: String| x@)[i as int] == s@);
            }
            return true;
        }
        i += 1;
    }
    proof {
        let mapped = v@.map_values(|x: String| x@);
        assert forall|j: int| 0 <= j < mapped.len() implies #[trigger] mapped[j] != s@ by {
            assert(mapped[j] == v@[j]@);
        }
        assert(!mapped.contains(s@));
    }
    false
}

/// Builds the full relay list: the primary relay plus the fallbacks,
/// deduplicated, in configuration order.
#[verifier::loop_isolation(false)]
pub fn build_relay_list(config: &RelayConfig) -> (r: Vec<String>)
    ensures
        r@.map_values(|x: String| x@) == spec_relay_views(
            config.default_relay@,
            config.fallback_relays@,
        ),
{
    let mut relays: Vec<String> = Vec::new();
    relays.push(config.default_relay.clone());
    proof {
        assert(relays@.map_values(|x: String| x@) =~= spec_relay_views(
            config.default_relay@,
            config.fallback_relays@.take(0),
        ));
    }
    let n = config.fallback_relays.len();
    let mut i: usize = 0;
    while i < n
        invariant
            0 <= i <= n,
            relays@.map_values(|x: String| x@) == spec_relay_views(
                config.default_relay@,
                config.fallback_relays@.take(i as int),
            ),
        decreases n - i,
    {
        let fb = &config.fallback_relays[i];
        proof {
            assert(config.fallback_relays@.take(i as int + 1).drop_last()
                =~= config.fallback_relays@.take(i as int));
            assert(config.fallback_relays@.take(i as int + 1).last()
                == config.fallback_relays@[i as int]);
        }
        if !vec_contains_str(&relays, fb) {
            let ghost oldv = relays@;
            relays.push(fb.clone());
            proof {
                assert(relays@.map_values(|x: String| x@) =~= oldv.map_values(
                    |x: String| x@,
                ).push(fb@));
            }
        }
        i += 1;
    }
    proof {
        assert(config.fallback_relays@.take(n as int) =~= config.fallback_relays@);
    }
    relays
}

/// The abstract value of a relay node.
pub ghost struct GpsRelayV {
    pub url: Seq<char>,
    pub lat: i64,
    pub lon: i64,
    pub name: Seq<char>,
    pub region: Seq<char>,
    pub priority: u32,
}

/// A relay node with coordinates in integer micro-degrees.
pub struct GpsRelay {
    pub url: String,
    /// Latitude in micro-degrees.
    pub lat: i64,
    /// Longitude in micro-degrees.
    pub lon: i64,
    pub name: String,
    pub region: String,
    /// Priority tier; a lower tier always outranks a higher one.
    pub priority: u32,
}

impl View for GpsRelay {
    type V = GpsRelayV;

    open spec fn view(&self) -> GpsRelayV {
        GpsRelayV {
            url: self.url@,
            lat: self.lat,
            lon: self.lon,
            name: self.name@,
            region: self.region@,
            priority: self.priority,
        }
    }
}

impl GpsRelay {
    /// Copies the node.
    pub fn clone_relay(&self) -> (r: GpsRelay)
        ensures
            r@ == self@,
    {
        GpsRelay {
            url: self.url.clone(),
            lat: self.lat,
            lon: self.lon,
            name: self.name.clone(),
            region: self.region.clone(),
            priority: self.priority,
        }
    }
}

/// Appends one relay entry to the table.
fn push_relay(
    v: &mut Vec<GpsRelay>,
    url: &str,
    lat: i64,
    lon: i64,
    name: &str,
    region: &str,
    priority: u32,
)
    ensures
        final(v)@.len() == old(v)@.len() + 1,
        forall|i: int| 0 <= i < old(v)@.len() ==> final(v)@[i] == old(v)@[i],
        final(v)@.last()@ == (GpsRelayV {
            url: url@,
            lat: lat,
            lon: lon,
            name: name@,
            region: region@,
            priority: priority,
        }),
{
    v.push(
        GpsRelay {
            url: url.to_owned(),
            lat,
            lon,
            name: name.to_owned(),
            region: region.to_owned(),
            priority,
        },
    );
}

/// The built-in relay table with coordinates in micro-degrees.
pub fn gps_relay_database() -> (r: Vec<GpsRelay>)
    ensures
        r@.len() == 36,
        r@[0]@.url == "wss://yabu.me"@,
        r@[0]@.priority == 1,
{
    let mut v: Vec<GpsRelay> = Vec::new();
    push_relay(&mut v, "wss://yabu.me", 35609200, 139730000, "やぶみ", "JP", 1);
    push_relay(&mut v, "wss://relay.nostr.wirednet.jp", 34706000, 135493000, "WiredNet JP", "JP", 1);
    push_relay(&mut v, "wss://r.kojira.io", 35676200, 139650300, "Kojira", "JP", 1);
    push_relay(&mut v, "wss://relay.origin.land", 35667300, 139751000, "Origin Land", "JP", 2);
    push_relay(&mut v, "wss://v-relay.d02.vrtmrz.net", 34693700, 135502000, "vrtmrz", "JP", 2);
    push_relay(&mut v, "wss://relay.0xchat.com", 1352080, 103820000, "0xchat", "SG", 1);
    push_relay(&mut v, "wss://nostr-01.yakihonne.com", 1295240, 103790000, "Yakihonne", "SG", 2);
    push_relay(&mut v, "wss://nostr.dler.com", 25050100, 121565000, "dler", "TW", 2);
    push_relay(&mut v, "wss://relay.islandbitcoin.com", 12849800, 77654500, "Island Bitcoin", "IN", 2);
    push_relay(&mut v, "wss://nostr.jerrynya.fun", 31230400, 121474000, "jerrynya", "CN", 2);
    push_relay(&mut v, "wss://relay.damus.io", 43653200, -79383200, "Damus", "NA", 1);
    push_relay(&mut v, "wss://relay.primal.net", 43653200, -79383200, "Primal", "NA", 1);
    push_relay(&mut v, "wss://relay.wellorder.net", 45520100, -122990000, "Wellorder", "NA", 2);
    push_relay(&mut v, "wss://relay.illuminodes.com", 47606100, -122333000, "Illuminodes", "NA", 2);
    push_relay(&mut v, "wss://relay.fundstr.me", 42360100, -71058900, "Fundstr", "NA", 2);
    push_relay(&mut v, "wss://nostrelites.org", 41878100, -87629800, "Nostrelites", "NA", 2);
    push_relay(&mut v, "wss://relay.westernbtc.com", 44540100, -123368000, "Western BTC", "NA", 2);
    push_relay(&mut v, "wss://cyberspace.nostr1.com", 40705700, -74013600, "Cyberspace", "NA", 2);
    push_relay(&mut v, "wss://fanfares.nostr1.com", 40712800, -74006000, "Fanfares", "NA", 2);
    push_relay(&mut v, "wss://nos.lol", 50475400, 12368300, "nos.lol", "EU", 1);
    push_relay(&mut v, "wss://relay.snort.social", 53349800, -6260310, "Snort", "EU", 1);
    push_relay(&mut v, "wss://nostr.wine", 48856600, 2352220, "nostr.wine", "EU", 1);
    push_relay(&mut v, "wss://relay.nostr.band", 52520000, 13405000, "nostr.band", "EU", 1);
    push_relay(&mut v, "wss://nostr.bond", 50110900, 8682130, "nostr.bond", "EU", 2);
    push_relay(&mut v, "wss://relay.thebluepulse.com", 49452100, 11076700, "Blue Pulse", "EU", 2);
    push_relay(&mut v, "wss://relay.lumina.rocks", 49029100, 8356950, "Lumina", "EU", 2);
    push_relay(&mut v, "wss://relay.dwadziesciajeden.pl", 52229700, 21012200, "dwadziesciajeden", "EU", 2);
    push_relay(&mut v, "wss://relay.angor.io", 48104600, 11600200, "Angor", "EU", 2);
    push_relay(&mut v, "wss://relay.malxte.de", 52520000, 13405000, "malxte", "EU", 2);
    push_relay(&mut v, "wss://purplerelay.com", 50110900, 8682130, "Purple Relay", "EU", 2);
    push_relay(&mut v, "wss://nostr.mom", 50475400, 12368300, "nostr.mom", "EU", 2);
    push_relay(&mut v, "wss://relay.nostrhub.fr", 48104500, 11600400, "NostrHub FR", "EU", 2);
    push_relay(&mut v, "wss://wot.dergigi.com", 64147600, -21939200, "Gigi WoT", "EU", 2);
    push_relay(&mut v, "wss://lightning.red", 53349800, -6260310, "Lightning Red", "EU", 2);
    push_relay(&mut v, "wss://relay.nostr.bg", 42697700, 23321900, "nostr.bg", "Global", 1);
    push_relay(&mut v, "wss://nostr.mutinywallet.com", 37774900, -122419400, "Mutiny", "Global", 2);
    v
}

/// Ascending order on relay entries: priority tier first, then distance.
pub open spec fn relay_key_le(a: (GpsRelayV, u64), b: (GpsRelayV, u64)) -> bool {
    a.0.priority < b.0.priority || (a.0.priority == b.0.priority && a.1 <= b.1)
}

/// The abstract values of a vector of relay-distance pairs.
pub open spec fn rv_of(s: Seq<(GpsRelay, u64)>) -> Seq<(GpsRelayV, u64)> {
    s.map_values(|p: (GpsRelay, u64)| (p.0@, p.1))
}

/// Non-decreasing by priority, then distance.
pub open spec fn sorted_by_priority_distance(s: Seq<(GpsRelayV, u64)>) -> bool {
    forall|i: int, j: int| 0 <= i <= j < s.len() ==> relay_key_le(s[i], s[j])
}

/// Compares two relay entries.
fn relay_le(a: &(GpsRelay, u64), b: &(GpsRelay, u64)) -> (r: bool)
    ensures
        r == relay_key_le((a.0@, a.1), (b.0@, b.1)),
{
    a.0.priority < b.0.priority || (a.0.priority == b.0.priority && a.1 <= b.1)
}

proof fn lemma_rv_remove(s: Seq<(GpsRelay, u64)>, i: int)
    requires
        0 <= i < s.len(),
    ensures
        rv_of(s.remove(i)) =~= rv_of(s).remove(i),
{
}

proof fn lemma_rv_insert(s: Seq<(GpsRelay, u64)>, i: int, x: (GpsRelay, u64))
    requires
        0 <= i <= s.len(),
    ensures
        rv_of(s.insert(i, x)) =~= rv_of(s).insert(i, (x.0@, x.1)),
{
}

/// Removing an element of a multiset and putting it back changes nothing.
proof fn lemma_relay_multiset_remove_insert(m: Multiset<(GpsRelayV, u64)>, a: (GpsRelayV, u64))
    requires
        m.count(a) > 0,
    ensures
        m.remove(a).insert(a) =~= m,
{
}

/// Sorts relay-distance pairs by priority tier, then distance, keeping
/// the same entries.
#[verifier::loop_isolation(false)]
fn sort_relays(v: &mut Vec<(GpsRelay, u64)>)
    ensures
        final(v)@.len() == old(v)@.len(),
        rv_of(final(v)@).to_multiset() == rv_of(old(v)@).to_multiset(),
        sorted_by_priority_distance(rv_of(final(v)@)),
{
    let ghost orig = v@;
    let n = v.len();
    if n <= 1 {
        return;
    }
    let mut i: usize = 1;
    while i < n
        invariant
            n == v@.len(),
            1 <= i <= n,
            rv_of(v@).to_multiset() == rv_of(orig).to_multiset(),
            forall|p: int, q: int|
                0 <= p <= q < i ==> relay_key_le(rv_of(v@)[p], rv_of(v@)[q]),
        decreases n - i,
    {
        let ghost before = v@;
        let x = v.remove(i);
        let ghost mid = v@;
        let ghost xv = (x.0@, x.1);
        let mut j: usize = i;
        while j > 0 && !relay_le(&v[j - 1], &x)
            invariant
                v@ == mid,
                mid.len() == n - 1,
                0 <= j <= i,
                i < n,
                forall|m: int| j <= m < i ==> !relay_key_le(rv_of(mid)[m], xv),
            decreases j,
        {
            j -= 1;
        }
        v.insert(j, x);
        proof {
            broadcast use vstd::seq_lib::group_to_multiset_ensures;

            lemma_rv_remove(before, i as int);
            lemma_rv_insert(mid, j as int, x);
            vstd::seq_lib::to_multiset_insert(rv_of(mid), j as int, xv);
            assert(rv_of(before).to_multiset().count(rv_of(before)[i as int]) > 0);
            lemma_relay_multiset_remove_insert(rv_of(before).to_multiset(), xv);
            assert(rv_of(v@).to_multiset() =~= rv_of(before).to_multiset());

            let newv = rv_of(v@);
            let midv = rv_of(mid);
            let beforev = rv_of(before);
            assert(newv =~= midv.insert(j as int, xv));
            midv.insert_ensures(j as int, xv);
            assert(forall|m: int| 0 <= m < i ==> midv[m] == beforev[m]);
            assert(forall|m: int| 0 <= m < j ==> newv[m] == midv[m]);
            assert(forall|m: int| j < m < i + 1 ==> newv[m] == midv[m - 1]);
            assert(newv[j as int] == xv);
            assert forall|p: int, q: int| 0 <= p <= q < i + 1 implies relay_key_le(
                newv[p],
                newv[q],
            ) by {
                if q < j {
                    assert(newv[p] == beforev[p] && newv[q] == beforev[q]);
                    assert(relay_key_le(beforev[p], beforev[q]));
                } else if p < j && q == j {
                    assert(newv[p] == beforev[p] && newv[q] == xv);
                    assert(relay_key_le(beforev[p], beforev[j - 1]));
                    assert(relay_key_le(midv[j - 1], xv));
                } else if p < j && q > j {
                    assert(newv[p] == beforev[p] && newv[q] == midv[q - 1]);
                    assert(relay_key_le(beforev[p], beforev[j - 1]));
                    assert(relay_key_le(midv[j - 1], xv));
                    assert(!relay_key_le(midv[q - 1], xv));
                } else if p == j && q == j {
                } else if p == j && q > j {
                    assert(newv[p] == xv && newv[q] == midv[q - 1]);
                    assert(!relay_key_le(midv[q - 1], xv));
                } else {
                    assert(p > j && q > j);
                    assert(newv[p] == beforev[p - 1] && newv[q] == beforev[q - 1]);
                    assert(relay_key_le(beforev[p - 1], beforev[q - 1]));
                }
            }
        }
        i += 1;
    }
}

/// Ranks relay nodes, each paired with its distance from the viewer, by
/// priority tier first and distance second, and returns the best `count`:
/// the result is sorted, holds `count` entries or all of them if there
/// are fewer, comes from the input, and no entry left out ranks ahead of
/// an entry returned.
#[verifier::loop_isolation(false)]
pub fn find_nearest_relays(scored: Vec<(GpsRelay, u64)>, count: usize) -> (r: Vec<(GpsRelay, u64)>)
    ensures
        r@.len() == (if scored@.len() <= count {
            scored@.len() as int
        } else {
            count as int
        }),
        sorted_by_priority_distance(rv_of(r@)),
        forall|e: (GpsRelayV, u64)|
            #![trigger rv_of(r@).to_multiset().count(e)]
            rv_of(r@).to_multiset().count(e) <= rv_of(scored@).to_multiset().count(e),
        forall|i: int, e: (GpsRelayV, u64)|
            #![trigger rv_of(r@)[i], rv_of(r@).to_multiset().count(e)]
            0 <= i < r@.len() && rv_of(scored@).to_multiset().count(e) > rv_of(
                r@,
            ).to_multiset().count(e) ==> relay_key_le(rv_of(r@)[i], e),
{
    let mut sorted = scored;
    sort_relays(&mut sorted);
    let ghost fullv = rv_of(sorted@);
    sorted.truncate(count);
    proof {
        broadcast use vstd::seq_lib::group_to_multiset_ensures;

        if count <= fullv.len() {
            assert(rv_of(sorted@) =~= fullv.take(count as int));
        } else {
            assert(rv_of(sorted@) =~= fullv);
            assert(fullv.take(fullv.len() as int) =~= fullv);
        }
        let c: int = if count <= fullv.len() {
            count as int
        } else {
            fullv.len() as int
        };
        let takev = fullv.take(c);
        let skipv = fullv.skip(c);
        assert(fullv =~= takev + skipv);
        vstd::seq_lib::lemma_multiset_commutative(takev, skipv);
        assert(rv_of(sorted@) == takev);
        assert forall|i: int, e: (GpsRelayV, u64)|
            #![trigger takev[i], takev.to_multiset().count(e)]
            0 <= i < takev.len() && fullv.to_multiset().count(e) > takev.to_multiset().count(
                e,
            ) implies relay_key_le(takev[i], e) by {
            assert(skipv.to_multiset().count(e) > 0);
            assert(skipv.contains(e));
            let w = choose|w: int| 0 <= w < skipv.len() && skipv[w] == e;
            assert(fullv[c + w] == e);
            assert(takev[i] == fullv[i]);
            assert(relay_key_le(fullv[i], fullv[c + w]));
        }
    }
    sorted
}

} // verus!
