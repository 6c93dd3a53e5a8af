//! Engagement counting.
//!
//! The network layer gathers, for a batch of events, the target event id
//! of every reaction, repost, reply and zap receipt it saw.  This module
//! turns those target lists into per-event engagement counts.

use vstd::prelude::*;

use crate::collections::StrMap;
use crate::types::EngagementData;

verus! {

/// How many entries of a target list name the given event id.
pub open spec fn count_targets(targets: Seq<String>, id: Seq<char>) -> int
    decreases targets.len(),
{
    if targets.len() == 0 {
        0
    } else {
        count_targets(targets.drop_last(), id) + if targets.last()@ == id {
            1int
        } else {
            0int
        }
    }
}

/// A target list never counts more entries than it has.
proof fn lemma_count_targets_bound(targets: Seq<String>, id: Seq<char>)
    ensures
        0 <= count_targets(targets, id) <= targets.len(),
    decreases targets.len(),
{
    if targets.len() > 0 {
        lemma_count_targets_bound(targets.drop_last(), id);
    }
}

/// Counts how many entries of a target list name the given event id.
#[verifier::loop_isolation(false)]
fn count_matches(targets: &Vec<String>, id: &String) -> (r: u64)
    ensures
        r == count_targets(targets@, id@),
{
    let n = targets.len();
    let mut c: u64 = 0;
    let mut i: usize = 0;
    while i < n
        invariant
            0 <= i <= n,
            c == count_targets(targets@.take(i as int), id@),
            c <= i,
        decreases n - i,
    {
        proof {
            assert(targets@.take(i as int + 1).drop_last() =~= targets@.take(i as int));
            assert(targets@.take(i as int + 1).last() == targets@[i as int]);
        }
        if targets[i] == *id {
            c += 1;
        }
        i += 1;
    }
    proof {
        assert(targets@.take(n as int) =~= targets@);
    }
    c
}

/// The engagement record an event id earns from the four target lists.
pub open spec fn spec_engagement_of(
    likes: Seq<String>,
    reposts: Seq<String>,
    replies: Seq<String>,
    zaps: Seq<String>,
    id: Seq<char>,
) -> EngagementData {
    EngagementData {
        likes: count_targets(likes, id) as u64,
        reposts: count_targets(reposts, id) as u64,
        replies: count_targets(replies, id) as u64,
        zaps: count_targets(zaps, id) as u64,
        quotes: 0,
    }
}

/// Builds the engagement table for a batch of events: each requested
/// event id is mapped to the number of times it is named in the like,
/// repost, reply and zap target lists; nothing else enters the table.
#[verifier::loop_isolation(false)]
pub fn accumulate_engagement(
    event_ids: &Vec<String>,
    like_targets: &Vec<String>,
    repost_targets: &Vec<String>,
    reply_targets: &Vec<String>,
    zap_targets: &Vec<String>,
) -> (r: StrMap<EngagementData>)
    ensures
        forall|i: int|
            0 <= i < event_ids@.len() ==> r@.contains_key((#[trigger] event_ids@[i])@)
                && r@[event_ids@[i]@] == spec_engagement_of(
                like_targets@,
                repost_targets@,
                reply_targets@,
                zap_targets@,
                event_ids@[i]@,
            ),
        forall|s: Seq<char>|
            r@.contains_key(s) ==> exists|i: int|
                0 <= i < event_ids@.len() && (#[trigger] event_ids@[i])@ == s,
{
    let mut r: StrMap<EngagementData> = StrMap::new();
    let n = event_ids.len();
    let mut i: usize = 0;
    while i < n
        invariant
            0 <= i <= n,
            forall|j: int|
                0 <= j < i ==> r@.contains_key((#[trigger] event_ids@[j])@)
                    && r@[event_ids@[j]@] == spec_engagement_of(
                    like_targets@,
                    repost_targets@,
                    reply_targets@,
                    zap_targets@,
                    event_ids@[j]@,
                ),
            forall|s: Seq<char>|
                r@.contains_key(s) ==> exists|j: int|
                    0 <= j < i && (#[trigger] event_ids@[j])@ == s,
        decreases n - i,
    {
        let id = &event_ids[i];
        proof {
            lemma_count_targets_bound(like_targets@, id@);
            lemma_count_targets_bound(repost_targets@, id@);
            lemma_count_targets_bound(reply_targets@, id@);
            lemma_count_targets_bound(zap_targets@, id@);
        }
        let data = EngagementData {
            likes: count_matches(like_targets, id),
            reposts: count_matches(repost_targets, id),
            replies: count_matches(reply_targets, id),
            zaps: count_matches(zap_targets, id),
            quotes: 0,
        };
        r.insert(id.clone(), data);
        i += 1;
    }
    r
}

} // verus!
