//! Data model of the feed ranker.
//!
//! Candidate posts, engagement counts, social-graph snapshots and scored
//! results.  Fractional quantities (scores, multipliers, mix ratios) are
//! fixed-point numbers in milli-units: `1000` stands for a multiplier of
//! one.

use vstd::prelude::*;

use crate::collections::{StrMap, StringSet};
use crate::fixed::spec_add_sat;

verus! {

/// Engagement counts for a single event.
#[derive(Clone, Copy, PartialEq, Eq, Structural)]
pub struct EngagementData {
    pub likes: u64,
    pub reposts: u64,
    pub replies: u64,
    pub zaps: u64,
    pub quotes: u64,
}

impl Default for EngagementData {
    /// All counts start at zero.
    fn default() -> (r: EngagementData)
        ensures
            r.likes == 0 && r.reposts == 0 && r.replies == 0 && r.zaps == 0 && r.quotes == 0,
    {
        EngagementData { likes: 0, reposts: 0, replies: 0, zaps: 0, quotes: 0 }
    }
}

/// Parsed user profile metadata.
#[derive(Clone)]
pub struct UserProfile {
    pub name: String,
    pub display_name: String,
    pub about: String,
    pub picture: String,
    pub banner: String,
    pub nip05: String,
    pub lud16: String,
    pub website: String,
    pub birthday: String,
    pub pubkey: String,
}

impl Default for UserProfile {
    /// Every field starts empty.
    fn default() -> (r: UserProfile)
        ensures
            r.name@ == Seq::<char>::empty(),
            r.display_name@ == Seq::<char>::empty(),
            r.about@ == Seq::<char>::empty(),
            r.picture@ == Seq::<char>::empty(),
            r.banner@ == Seq::<char>::empty(),
            r.nip05@ == Seq::<char>::empty(),
            r.lud16@ == Seq::<char>::empty(),
            r.website@ == Seq::<char>::empty(),
            r.birthday@ == Seq::<char>::empty(),
            r.pubkey@ == Seq::<char>::empty(),
    {
        UserProfile {
            name: String::new(),
            display_name: String::new(),
            about: String::new(),
            picture: String::new(),
            banner: String::new(),
            nip05: String::new(),
            lud16: String::new(),
            website: String::new(),
            birthday: String::new(),
            pubkey: String::new(),
        }
    }
}

/// Per-author statistics.
#[derive(Clone, Copy, PartialEq, Eq, Structural)]
pub struct AuthorStats {
    pub follower_count: u64,
}

impl Default for AuthorStats {
    /// An unknown author has no recorded followers.
    fn default() -> (r: AuthorStats)
        ensures
            r.follower_count == 0,
    {
        AuthorStats { follower_count: 0 }
    }
}

/// The count a per-author counter holds after one more engagement,
/// saturating at the maximum.
pub open spec fn bumped_count(m: Map<Seq<char>, u64>, k: Seq<char>) -> u64 {
    spec_add_sat(if m.contains_key(k) { m[k] } else { 0 }, 1)
}

/// The viewer's accumulated engagement history, per author.
#[derive(Clone)]
pub struct EngagementHistory {
    pub liked_authors: StrMap<u64>,
    pub reposted_authors: StrMap<u64>,
    pub replied_authors: StrMap<u64>,
}

impl Default for EngagementHistory {
    /// History starts empty.
    fn default() -> (r: EngagementHistory)
        ensures
            r.liked_authors@ == Map::<Seq<char>, u64>::empty(),
            r.reposted_authors@ == Map::<Seq<char>, u64>::empty(),
            r.replied_authors@ == Map::<Seq<char>, u64>::empty(),
    {
        EngagementHistory {
            liked_authors: StrMap::new(),
            reposted_authors: StrMap::new(),
            replied_authors: StrMap::new(),
        }
    }
}

impl EngagementHistory {
    /// Records one engagement action for an author.  A `"like"`, `"repost"`
    /// or `"reply"` bumps the matching counter; any other action is ignored.
    pub fn record_engagement(&mut self, action: &str, author_pubkey: &str)
        ensures
            final(self).liked_authors@ == if action@ == "like"@ {
                old(self).liked_authors@.insert(
                    author_pubkey@,
                    bumped_count(old(self).liked_authors@, author_pubkey@),
                )
            } else {
                old(self).liked_authors@
            },
            final(self).reposted_authors@ == if action@ == "repost"@ {
                old(self).reposted_authors@.insert(
                    author_pubkey@,
                    bumped_count(old(self).reposted_authors@, author_pubkey@),
                )
            } else {
                old(self).reposted_authors@
            },
            final(self).replied_authors@ == if action@ == "reply"@ {
                old(self).replied_authors@.insert(
                    author_pubkey@,
                    bumped_count(old(self).replied_authors@, author_pubkey@),
                )
            } else {
                old(self).replied_authors@
            },
    {
        proof {
            reveal_strlit("like");
            reveal_strlit("repost");
            reveal_strlit("reply");
            assert("like"@.len() == 4);
            assert("repost"@.len() == 6);
            assert("reply"@.len() == 5);
        }
        let act: String = action.to_owned();
        if act == "like".to_owned() {
            let current = match self.liked_authors.get(author_pubkey) {
                Some(v) => *v,
                None => 0,
            };
            self.liked_authors.insert(author_pubkey.to_owned(), current.saturating_add(1));
        } else if act == "repost".to_owned() {
            let current = match self.reposted_authors.get(author_pubkey) {
                Some(v) => *v,
                None => 0,
            };
            self.reposted_authors.insert(author_pubkey.to_owned(), current.saturating_add(1));
        } else if act == "reply".to_owned() {
            let current = match self.replied_authors.get(author_pubkey) {
                Some(v) => *v,
                None => 0,
            };
            self.replied_authors.insert(author_pubkey.to_owned(), current.saturating_add(1));
        }
    }
}

/// Feed category mix targets, in milli-units of the whole feed.
#[derive(Clone, Copy, PartialEq, Eq, Structural)]
pub struct FeedMixRatio {
    /// Friends-of-friends discovery share.
    pub second_degree: u64,
    /// High-engagement out-of-network share.
    pub out_of_network: u64,
    /// Direct-follow share.
    pub first_degree: u64,
}

impl Default for FeedMixRatio {
    /// Half discovery, three tenths viral, one fifth direct follows.
    fn default() -> (r: FeedMixRatio)
        ensures
            r.second_degree == 500 && r.out_of_network == 300 && r.first_degree == 200,
    {
        FeedMixRatio { second_degree: 500, out_of_network: 300, first_degree: 200 }
    }
}

/// The abstract value of a scored post.
pub ghost struct ScoredPostV {
    pub event_id: Seq<char>,
    pub pubkey: Seq<char>,
    pub score: u64,
    pub created_at: u64,
}

/// A post with its relevance score in milli-units, the ranker's output unit.
pub struct ScoredPost {
    pub event_id: String,
    pub pubkey: String,
    pub score: u64,
    pub created_at: u64,
}

impl View for ScoredPost {
    type V = ScoredPostV;

    open spec fn view(&self) -> ScoredPostV {
        ScoredPostV {
            event_id: self.event_id@,
            pubkey: self.pubkey@,
            score: self.score,
            created_at: self.created_at,
        }
    }
}

impl ScoredPost {
    /// Copies the post.
    pub fn clone_post(&self) -> (r: ScoredPost)
        ensures
            r@ == self@,
    {
        ScoredPost {
            event_id: self.event_id.clone(),
            pubkey: self.pubkey.clone(),
            score: self.score,
            created_at: self.created_at,
        }
    }
}

/// Social context for recommendation scoring.
pub struct SocialContext {
    pub follow_list: StringSet,
    pub second_degree_follows: StringSet,
    pub followers: StringSet,
    pub engagement_history: EngagementHistory,
    pub profiles: StrMap<UserProfile>,
    pub muted_pubkeys: StringSet,
    pub user_geohash: Option<String>,
    pub author_stats: StrMap<AuthorStats>,
}

impl Default for SocialContext {
    /// An empty context: no follows, no history, no profiles.
    fn default() -> (r: SocialContext)
        ensures
            r.follow_list@ == Set::<Seq<char>>::empty(),
            r.second_degree_follows@ == Set::<Seq<char>>::empty(),
            r.followers@ == Set::<Seq<char>>::empty(),
            r.muted_pubkeys@ == Set::<Seq<char>>::empty(),
            r.profiles@ == Map::<Seq<char>, UserProfile>::empty(),
            r.author_stats@ == Map::<Seq<char>, AuthorStats>::empty(),
            r.user_geohash is None,
            r.engagement_history.liked_authors@ == Map::<Seq<char>, u64>::empty(),
            r.engagement_history.reposted_authors@ == Map::<Seq<char>, u64>::empty(),
            r.engagement_history.replied_authors@ == Map::<Seq<char>, u64>::empty(),
    {
        SocialContext {
            follow_list: StringSet::new(),
            second_degree_follows: StringSet::new(),
            followers: StringSet::new(),
            engagement_history: EngagementHistory::default(),
            profiles: StrMap::new(),
            muted_pubkeys: StringSet::new(),
            user_geohash: None,
            author_stats: StrMap::new(),
        }
    }
}

/// Badge definition metadata.
#[derive(Clone)]
pub struct BadgeDefinition {
    pub id: String,
    pub name: String,
    pub description: String,
    pub image: String,
    pub thumbnails: Vec<String>,
}

/// A badge awarded to a user.
#[derive(Clone)]
pub struct BadgeAward {
    pub badge_id: String,
    pub award_event_id: String,
    pub award_pubkey: String,
}

/// A community label attached to an event.
#[derive(Clone)]
pub struct BirdwatchLabel {
    pub event_id: String,
    pub author: String,
    pub context_type: String,
    pub content: String,
    pub timestamp: u64,
}

/// Result of a timeline fetch.
#[derive(Clone)]
pub struct TimelineResult {
    pub event_ids: Vec<String>,
    pub has_more: bool,
}

/// Connection statistics.
#[derive(Clone, Copy)]
pub struct ConnectionStats {
    pub connected_relays: usize,
    pub total_relays: usize,
    pub pending_subscriptions: usize,
}

/// Per-relay information.
#[derive(Clone)]
pub struct RelayInfo {
    pub url: String,
    pub status: String,
    pub connected: bool,
}

/// The character for one decimal digit.
pub open spec fn digit_char(d: int) -> char {
    if d == 0 {
        '0'
    } else if d == 1 {
        '1'
    } else if d == 2 {
        '2'
    } else if d == 3 {
        '3'
    } else if d == 4 {
        '4'
    } else if d == 5 {
        '5'
    } else if d == 6 {
        '6'
    } else if d == 7 {
        '7'
    } else if d == 8 {
        '8'
    } else {
        '9'
    }
}

/// The decimal representation of a non-negative number.
pub open spec fn dec_digits(n: int) -> Seq<char>
    decreases n,
{
    if n < 10 {
        seq![digit_char(n)]
    } else {
        dec_digits(n / 10) + seq![digit_char(n % 10)]
    }
}

/// One decimal digit as a string slice.
fn digit_str(d: u64) -> (r: &'static str)
    requires
        d < 10,
    ensures
        r@ == seq![digit_char(d as int)],
{
    proof {
        reveal_strlit("0");
        reveal_strlit("1");
        reveal_strlit("2");
        reveal_strlit("3");
        reveal_strlit("4");
        reveal_strlit("5");
        reveal_strlit("6");
        reveal_strlit("7");
        reveal_strlit("8");
        reveal_strlit("9");
    }
    let r: &'static str = if d == 0 {
        "0"
    } else if d == 1 {
        "1"
    } else if d == 2 {
        "2"
    } else if d == 3 {
        "3"
    } else if d == 4 {
        "4"
    } else if d == 5 {
        "5"
    } else if d == 6 {
        "6"
    } else if d == 7 {
        "7"
    } else if d == 8 {
        "8"
    } else {
        "9"
    };
    proof {
        assert(r@ =~= seq![digit_char(d as int)]);
    }
    r
}

/// Renders a number in decimal.
fn u64_to_string(n: u64) -> (r: String)
    ensures
        r@ == dec_digits(n as int),
    decreases n,
{
    if n < 10 {
        let d = digit_str(n);
        let r: String = d.to_owned();
        proof {
            assert(r@ =~= dec_digits(n as int));
        }
        r
    } else {
        let mut r = u64_to_string(n / 10);
        r.append(digit_str(n % 10));
        r
    }
}

/// The rendered age of a timestamp: "just now" under a minute, then
/// minutes, hours or days, and past a week an approximate month-day date
/// computed from 365-day years and 30-day months.
pub open spec fn spec_format_timestamp_ja(timestamp: u64, now: u64) -> Seq<char> {
    let diff: int = if now >= timestamp {
        now - timestamp
    } else {
        0
    };
    if diff < 60 {
        "たった今"@
    } else if diff < 3600 {
        dec_digits(diff / 60) + "分"@
    } else if diff < 86400 {
        dec_digits(diff / 3600) + "時間"@
    } else if diff < 604800 {
        dec_digits(diff / 86400) + "日"@
    } else {
        let days_since_epoch = timestamp / 86400;
        let day_of_year = days_since_epoch % 365;
        let month = day_of_year / 30 + 1;
        let day = day_of_year % 30 + 1;
        let month_c: int = if month < 12 {
            month
        } else {
            12
        };
        let day_c: int = if day < 31 {
            day
        } else {
            31
        };
        dec_digits(month_c) + "月"@ + dec_digits(day_c) + "日"@
    }
}

/// Renders a timestamp's age for display, given the current time in
/// seconds.
pub fn format_timestamp_ja(timestamp: u64, now: u64) -> (r: String)
    ensures
        r@ == spec_format_timestamp_ja(timestamp, now),
{
    let diff: u64 = now.saturating_sub(timestamp);
    if diff < 60 {
        "たった今".to_owned()
    } else if diff < 3600 {
        let mut r = u64_to_string(diff / 60);
        r.append("分");
        r
    } else if diff < 86400 {
        let mut r = u64_to_string(diff / 3600);
        r.append("時間");
        r
    } else if diff < 604800 {
        let mut r = u64_to_string(diff / 86400);
        r.append("日");
        r
    } else {
        let days_since_epoch = timestamp / 86400;
        let day_of_year = days_since_epoch % 365;
        let month = day_of_year / 30 + 1;
        let day = day_of_year % 30 + 1;
        let month_c: u64 = if month < 12 {
            month
        } else {
            12
        };
        let day_c: u64 = if day < 31 {
            day
        } else {
            31
        };
        let mut r = u64_to_string(month_c);
        r.append("月");
        r.append(u64_to_string(day_c).as_str());
        r.append("日");
        r
    }
}

} // verus!
