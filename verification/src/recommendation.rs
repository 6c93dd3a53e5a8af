//! Feed ranking engine.
//!
//! The relevance score of a candidate post is the product of six
//! independent multipliers — engagement, social boost, author quality,
//! geographic boost, personalization modifier and time decay — each a
//! fixed-point number in milli-units.  Candidates the viewer muted or
//! marked not-interested are dropped before scoring.

use vstd::arithmetic::div_mod::{lemma_div_by_multiple, lemma_div_is_ordered};
use vstd::multiset::Multiset;
use vstd::prelude::*;

use crate::collections::{StrMap, StringSet};
use crate::config::{
    EngagementWeights, RecommendationConfig, SocialBoostConfig, TimeDecayConfig,
};
use crate::fixed::{
    add_sat, halved_milli, lemma_halved_milli_range, lemma_halved_milli_zero_stays, log10_floor,
    mul_milli, mul_sat, spec_add_sat, spec_log10_floor, spec_mul_milli, spec_mul_sat,
};
use crate::types::{EngagementData, EngagementHistory, ScoredPost, ScoredPostV, UserProfile};

verus! {

/// The count a per-author counter map holds for a key, zero if absent.
pub open spec fn count_of(m: Map<Seq<char>, u64>, k: Seq<char>) -> u64 {
    if m.contains_key(k) {
        m[k]
    } else {
        0
    }
}

/// The immutable context a scoring pass reads: social sets, history,
/// profiles, personalization, the viewer location and the current time.
pub ghost struct ScoreCtx {
    pub follow_list: Set<Seq<char>>,
    pub second_degree_follows: Set<Seq<char>>,
    pub followers: Set<Seq<char>>,
    pub liked_authors: Map<Seq<char>, u64>,
    pub reposted_authors: Map<Seq<char>, u64>,
    pub replied_authors: Map<Seq<char>, u64>,
    pub profiles: Map<Seq<char>, UserProfile>,
    pub muted_pubkeys: Set<Seq<char>>,
    pub not_interested_posts: Set<Seq<char>>,
    pub author_scores: Map<Seq<char>, u64>,
    pub user_geohash: Option<Seq<char>>,
    pub now: u64,
}

/// Engagement score in milli-units: the weighted, saturating sum of the
/// reaction counts plus a base of one, so even a silent post scores.
pub open spec fn spec_engagement_score(w: EngagementWeights, d: EngagementData) -> u64 {
    spec_add_sat(
        spec_add_sat(
            spec_add_sat(
                spec_add_sat(
                    spec_add_sat(spec_mul_sat(d.zaps, w.zap), spec_mul_sat(d.replies, w.reply)),
                    spec_mul_sat(d.reposts, w.repost),
                ),
                spec_mul_sat(d.likes, w.like),
            ),
            spec_mul_sat(d.quotes, w.quote),
        ),
        1000,
    )
}

/// The personalization intensity multiplier: likes count once, reposts
/// twice, replies three times; ten or more earns the high-engagement
/// boost, five or more one and a half.
pub open spec fn spec_engagement_boost(sb: SocialBoostConfig, ctx: ScoreCtx, author: Seq<char>) -> u64 {
    let total = count_of(ctx.liked_authors, author) + 2 * count_of(ctx.reposted_authors, author)
        + 3 * count_of(ctx.replied_authors, author);
    if total >= 10 {
        sb.high_engagement_author
    } else if total >= 5 {
        1500
    } else {
        1000
    }
}

/// Social boost: the network-position multiplier — mutual follow, first
/// degree, second degree or unknown, in that precedence — times the
/// personalization intensity.
pub open spec fn spec_social_boost(sb: SocialBoostConfig, ctx: ScoreCtx, author: Seq<char>) -> u64 {
    let eb = spec_engagement_boost(sb, ctx, author);
    if ctx.follow_list.contains(author) {
        if ctx.followers.contains(author) {
            spec_mul_milli(sb.mutual_follow, eb)
        } else {
            spec_mul_milli(sb.first_degree, eb)
        }
    } else if ctx.second_degree_follows.contains(author) {
        spec_mul_milli(sb.second_degree, eb)
    } else {
        spec_mul_milli(sb.unknown, eb)
    }
}

/// Author quality: neutral, raised three tenths for a verified identifier,
/// and by a follower-count credibility factor of one tenth per decimal
/// order of magnitude, capped at one and a half.
pub open spec fn spec_author_quality(verified: bool, follower_count: u64) -> u64 {
    let base: u64 = if verified {
        1300
    } else {
        1000
    };
    if follower_count > 0 {
        let boost = 1000 + 100 * spec_log10_floor(follower_count);
        let capped: u64 = if boost > 1500 {
            1500
        } else {
            boost as u64
        };
        spec_mul_milli(base, capped)
    } else {
        base
    }
}

/// Whether a profile map holds a verified identifier for an author.
pub open spec fn spec_profile_verified(profiles: Map<Seq<char>, UserProfile>, author: Seq<char>) -> bool {
    profiles.contains_key(author) && profiles[author].nip05@.len() > 0
}

/// The length of the longest common prefix of two character sequences.
pub open spec fn spec_common_prefix(a: Seq<char>, b: Seq<char>) -> int
    decreases a.len(),
{
    if a.len() == 0 || b.len() == 0 || a[0] != b[0] {
        0
    } else {
        1 + spec_common_prefix(a.drop_first(), b.drop_first())
    }
}

/// Geographic proximity boost from the shared leading prefix of two
/// location strings; either side missing is neutral.
pub open spec fn spec_geohash_boost(user: Option<Seq<char>>, author: Option<Seq<char>>) -> u64 {
    match (user, author) {
        (Some(u), Some(a)) => {
            let common = spec_common_prefix(u, a);
            if common >= 5 {
                2000
            } else if common >= 3 {
                1500
            } else if common >= 2 {
                1200
            } else {
                1000
            }
        },
        _ => 1000,
    }
}

/// Time-decay multiplier in milli-units.  Posts under an hour old get the
/// freshness boost, posts beyond the maximum age the floor; in between the
/// value is halved once per whole half-life and interpolated linearly
/// within the current one.
pub open spec fn spec_time_decay(td: TimeDecayConfig, created_at: u64, now: u64) -> u64
    recommends
        td.half_life_hours > 0,
{
    let age_s: int = if now >= created_at {
        now - created_at
    } else {
        0
    };
    if age_s < 3600 {
        td.freshness_boost
    } else if age_s * 1000 > td.max_age_hours * 3600 {
        td.min_score
    } else {
        let age_ms = age_s * 1000;
        let half_ms = td.half_life_hours * 3600;
        let k = age_ms / half_ms;
        let rem = age_ms % half_ms;
        let base = halved_milli(k);
        ((base * (2 * half_ms - rem)) / (2 * half_ms)) as u64
    }
}

/// The full score of a post: `None` when the post is excluded (muted
/// author, not-interested id, or a score that rounded to zero), otherwise
/// the product of the six multipliers.
pub open spec fn spec_score_post(
    cfg: RecommendationConfig,
    ctx: ScoreCtx,
    event_id: Seq<char>,
    author: Seq<char>,
    created_at: u64,
    engagement: EngagementData,
    follower_count: u64,
) -> Option<u64> {
    if ctx.not_interested_posts.contains(event_id) || ctx.muted_pubkeys.contains(author) {
        None
    } else {
        let e = spec_engagement_score(cfg.engagement_weights, engagement);
        let s = spec_social_boost(cfg.social_boost, ctx, author);
        let q = spec_author_quality(spec_profile_verified(ctx.profiles, author), follower_count);
        let g = spec_geohash_boost(ctx.user_geohash, None);
        let m = if ctx.author_scores.contains_key(author) {
            ctx.author_scores[author]
        } else {
            1000
        };
        let t = spec_time_decay(cfg.time_decay, created_at, ctx.now);
        let score = spec_mul_milli(
            spec_mul_milli(spec_mul_milli(spec_mul_milli(spec_mul_milli(e, s), q), g), m),
            t,
        );
        if score > 0 {
            Some(score)
        } else {
            None
        }
    }
}

/// An engagement record with all counts zero, used where a candidate has
/// no recorded engagement.
pub open spec fn zero_engagement() -> EngagementData {
    EngagementData { likes: 0, reposts: 0, replies: 0, zaps: 0, quotes: 0 }
}

/// The scored view of one candidate `(event_id, pubkey, created_at)`
/// triple, `None` when the candidate is excluded or scores zero.
pub open spec fn spec_scored_of(
    cfg: RecommendationConfig,
    ctx: ScoreCtx,
    engagements: Map<Seq<char>, EngagementData>,
    author_stats: Map<Seq<char>, u64>,
    post: (String, String, u64),
) -> Option<ScoredPostV> {
    let eid = post.0@;
    let pk = post.1@;
    let eng = if engagements.contains_key(eid) {
        engagements[eid]
    } else {
        zero_engagement()
    };
    match spec_score_post(cfg, ctx, eid, pk, post.2, eng, count_of(author_stats, pk)) {
        Some(score) => Some(
            ScoredPostV { event_id: eid, pubkey: pk, score: score, created_at: post.2 },
        ),
        None => None,
    }
}

/// All surviving scored candidates, in input order.
pub open spec fn spec_survivors(
    cfg: RecommendationConfig,
    ctx: ScoreCtx,
    engagements: Map<Seq<char>, EngagementData>,
    author_stats: Map<Seq<char>, u64>,
    posts: Seq<(String, String, u64)>,
) -> Seq<ScoredPostV> {
    posts.filter_map(
        |post: (String, String, u64)| spec_scored_of(cfg, ctx, engagements, author_stats, post),
    )
}

/// What `rank_feed` promises of its output `out`, given the candidate
/// pool and the scoring context: the feed is sorted by score highest
/// first, holds `limit` entries or every survivor if there are fewer,
/// every entry is a surviving scored candidate, no event id repeats, no
/// muted or not-interested candidate appears, and when every survivor
/// fits under the limit the feed holds exactly the survivors.
pub open spec fn spec_feed_ok(
    cfg: RecommendationConfig,
    ctx: ScoreCtx,
    engagements: Map<Seq<char>, EngagementData>,
    author_stats: Map<Seq<char>, u64>,
    posts: Seq<(String, String, u64)>,
    limit: usize,
    out: Seq<ScoredPostV>,
) -> bool {
    let surv = spec_survivors(cfg, ctx, engagements, author_stats, posts);
    &&& sorted_desc(out)
    &&& out.len() == (if surv.len() <= limit {
        surv.len() as int
    } else {
        limit as int
    })
    &&& (forall|k: int| 0 <= k < out.len() ==> surv.contains(#[trigger] out[k]))
    &&& (forall|k: int, l: int|
        0 <= k < l < out.len() ==> out[k].event_id != out[l].event_id)
    &&& (forall|k: int|
        0 <= k < out.len() ==> !ctx.not_interested_posts.contains(#[trigger] out[k].event_id)
            && !ctx.muted_pubkeys.contains(out[k].pubkey) && out[k].score > 0)
    &&& (surv.len() <= limit ==> out.to_multiset() == surv.to_multiset())
    &&& ({
        let q2 = spec_quota(
            surv.filter(cat_second_pred(ctx)).len() as int,
            limit as int,
            cfg.feed_mix.second_degree,
        );
        let q0 = spec_quota(
            surv.filter(cat_out_pred(ctx)).len() as int,
            limit as int,
            cfg.feed_mix.out_of_network,
        );
        let q1 = spec_quota(
            surv.filter(cat_first_pred(ctx)).len() as int,
            limit as int,
            cfg.feed_mix.first_degree,
        );
        q2 + q0 + q1 <= limit ==> out.filter(cat_second_pred(ctx)).len() >= q2 && out.filter(
            cat_out_pred(ctx),
        ).len() >= q0 && out.filter(cat_first_pred(ctx)).len() >= q1
    })
}

/// The second-degree category: the author is in the viewer's
/// second-degree network.
pub open spec fn cat_second_pred(ctx: ScoreCtx) -> spec_fn(ScoredPostV) -> bool {
    |p: ScoredPostV| ctx.second_degree_follows.contains(p.pubkey)
}

/// The first-degree category: a direct follow not counted as second
/// degree.
pub open spec fn cat_first_pred(ctx: ScoreCtx) -> spec_fn(ScoredPostV) -> bool {
    |p: ScoredPostV|
        !ctx.second_degree_follows.contains(p.pubkey) && ctx.follow_list.contains(p.pubkey)
}

/// The out-of-network category: neither second degree nor a direct
/// follow.
pub open spec fn cat_out_pred(ctx: ScoreCtx) -> spec_fn(ScoredPostV) -> bool {
    |p: ScoredPostV|
        !ctx.second_degree_follows.contains(p.pubkey) && !ctx.follow_list.contains(p.pubkey)
}

/// Every element a filter keeps is an element of the source, and a
/// filter of a duplicate-free sequence stays duplicate-free.
proof fn lemma_filter_props<A>(s: Seq<A>, pred: spec_fn(A) -> bool)
    ensures
        forall|i: int| 0 <= i < s.filter(pred).len() ==> s.contains(#[trigger] s.filter(pred)[i]),
        s.no_duplicates() ==> s.filter(pred).no_duplicates(),
    decreases s.len(),
{
    reveal(Seq::filter);
    if s.len() > 0 {
        let rest = s.drop_last();
        lemma_filter_props(rest, pred);
        assert(forall|i: int| 0 <= i < rest.len() ==> rest[i] == s[i]);
        assert forall|i: int|
            0 <= i < s.filter(pred).len() implies s.contains(#[trigger] s.filter(pred)[i]) by {
            if pred(s.last()) {
                if i < s.filter(pred).len() - 1 {
                    assert(s.filter(pred)[i] == rest.filter(pred)[i]);
                    assert(rest.contains(rest.filter(pred)[i]));
                    let w = choose|w: int| 0 <= w < rest.len() && rest[w] == rest.filter(pred)[i];
                    assert(s[w] == s.filter(pred)[i]);
                } else {
                    assert(s.filter(pred)[i] == s.last());
                    assert(s[s.len() - 1] == s.last());
                }
            } else {
                assert(s.filter(pred)[i] == rest.filter(pred)[i]);
                assert(rest.contains(rest.filter(pred)[i]));
                let w = choose|w: int| 0 <= w < rest.len() && rest[w] == rest.filter(pred)[i];
                assert(s[w] == s.filter(pred)[i]);
            }
        }
        if s.no_duplicates() {
            assert(rest.no_duplicates());
            if pred(s.last()) {
                assert(!rest.contains(s.last()));
                assert(!rest.filter(pred).contains(s.last())) by {
                    if rest.filter(pred).contains(s.last()) {
                        let w = choose|w: int|
                            0 <= w < rest.filter(pred).len() && rest.filter(pred)[w] == s.last();
                        assert(rest.contains(rest.filter(pred)[w]));
                    }
                }
                assert(s.filter(pred) == rest.filter(pred).push(s.last()));
            }
        }
    }
}

/// A duplicate-free sequence whose elements all occur in another sequence
/// is no longer than it.
proof fn lemma_nodup_subseq_len<A>(w: Seq<A>, u: Seq<A>)
    requires
        w.no_duplicates(),
        forall|k: int| 0 <= k < w.len() ==> u.contains(#[trigger] w[k]),
    ensures
        w.len() <= u.len(),
{
    broadcast use vstd::seq_lib::seq_to_set_is_finite;
    broadcast use vstd::set::group_set_axioms;

    w.unique_seq_to_set();
    u.lemma_cardinality_of_set();
    assert forall|a: A| w.to_set().contains(a) implies u.to_set().contains(a) by {
        let k = choose|k: int| 0 <= k < w.len() && w[k] == a;
        assert(u.contains(w[k]));
    }
    vstd::set_lib::lemma_len_subset(w.to_set(), u.to_set());
}

/// A finite set cannot properly contain a subset of the same size.
proof fn lemma_subset_same_len_eq<A>(s1: Set<A>, s2: Set<A>)
    requires
        s2.finite(),
        s1.subset_of(s2),
        s1.len() == s2.len(),
    ensures
        s1 =~= s2,
{
    broadcast use vstd::set::group_set_axioms;

    if exists|x: A| s2.contains(x) && !s1.contains(x) {
        let x = choose|x: A| s2.contains(x) && !s1.contains(x);
        assert(s1.subset_of(s2.remove(x)));
        vstd::set_lib::lemma_len_subset(s1, s2.remove(x));
        assert(s2.remove(x).len() == s2.len() - 1);
    }
}

/// Two duplicate-free sequences over the same element set carry the same
/// multiset.
proof fn lemma_nodup_same_set_multiset<A>(w: Seq<A>, u: Seq<A>)
    requires
        w.no_duplicates(),
        u.no_duplicates(),
        w.to_set() == u.to_set(),
    ensures
        w.to_multiset() == u.to_multiset(),
{
    broadcast use vstd::seq_lib::group_to_multiset_ensures;
    broadcast use vstd::set::group_set_axioms;

    w.lemma_multiset_has_no_duplicates();
    u.lemma_multiset_has_no_duplicates();
    assert forall|a: A| true implies w.to_multiset().count(a) == u.to_multiset().count(a) by {
        assert(w.contains(a) <==> w.to_set().contains(a));
        assert(u.contains(a) <==> u.to_set().contains(a));
        if w.contains(a) {
            assert(w.to_multiset().count(a) > 0);
            assert(u.to_multiset().count(a) > 0);
        } else {
            assert(w.to_multiset().count(a) == 0);
            assert(u.to_multiset().count(a) == 0);
        }
    }
    assert(w.to_multiset() =~= u.to_multiset());
}

/// A duplicate-free sequence, all of whose elements lie in a
/// duplicate-free sequence of the same length, carries the same multiset.
proof fn lemma_nodup_subseq_same_len_multiset<A>(w: Seq<A>, u: Seq<A>)
    requires
        w.no_duplicates(),
        u.no_duplicates(),
        forall|k: int| 0 <= k < w.len() ==> u.contains(#[trigger] w[k]),
        w.len() == u.len(),
    ensures
        w.to_multiset() == u.to_multiset(),
{
    broadcast use vstd::seq_lib::seq_to_set_is_finite;
    broadcast use vstd::set::group_set_axioms;

    w.unique_seq_to_set();
    u.unique_seq_to_set();
    assert forall|a: A| w.to_set().contains(a) implies u.to_set().contains(a) by {
        let k = choose|k: int| 0 <= k < w.len() && w[k] == a;
        assert(u.contains(w[k]));
    }
    lemma_subset_same_len_eq(w.to_set(), u.to_set());
    lemma_nodup_same_set_multiset(w, u);
}

/// A duplicate-free selection whose elements all occur in `u` and all
/// satisfy `f` cannot outnumber what `u`'s filter under `f` keeps.
proof fn lemma_filter_count_at_least(
    w: Seq<ScoredPostV>,
    u: Seq<ScoredPostV>,
    f: spec_fn(ScoredPostV) -> bool,
)
    requires
        w.no_duplicates(),
        forall|k: int| 0 <= k < w.len() ==> u.contains(#[trigger] w[k]) && f(w[k]),
    ensures
        u.filter(f).len() >= w.len(),
{
    broadcast use vstd::seq_lib::group_filter_ensures;

    assert forall|k: int| 0 <= k < w.len() implies u.filter(f).contains(#[trigger] w[k]) by {
        let i = choose|i: int| 0 <= i < u.len() && u[i] == w[k];
        assert(f(u[i]));
        assert(u.filter(f).contains(u[i]));
    }
    lemma_nodup_subseq_len(w, u.filter(f));
}

/// Two duplicate-free sequences with the same multiset keep the same
/// number of elements under any filter.
proof fn lemma_nodup_multiset_filter_len(
    a: Seq<ScoredPostV>,
    b: Seq<ScoredPostV>,
    f: spec_fn(ScoredPostV) -> bool,
)
    requires
        a.no_duplicates(),
        b.no_duplicates(),
        a.to_multiset() == b.to_multiset(),
    ensures
        a.filter(f).len() == b.filter(f).len(),
{
    broadcast use vstd::seq_lib::group_to_multiset_ensures;
    broadcast use vstd::seq_lib::group_filter_ensures;

    lemma_filter_props(a, f);
    lemma_filter_props(b, f);
    assert forall|k: int|
        0 <= k < a.filter(f).len() implies b.contains(#[trigger] a.filter(f)[k]) && f(
        a.filter(f)[k],
    ) by {
        assert(a.contains(a.filter(f)[k]));
        assert(a.to_multiset().count(a.filter(f)[k]) > 0);
        assert(b.to_multiset().count(a.filter(f)[k]) > 0);
    }
    lemma_filter_count_at_least(a.filter(f), b, f);
    assert forall|k: int|
        0 <= k < b.filter(f).len() implies a.contains(#[trigger] b.filter(f)[k]) && f(
        b.filter(f)[k],
    ) by {
        assert(b.contains(b.filter(f)[k]));
        assert(b.to_multiset().count(b.filter(f)[k]) > 0);
        assert(a.to_multiset().count(b.filter(f)[k]) > 0);
    }
    lemma_filter_count_at_least(b.filter(f), a, f);
}

/// In the survivor list, event ids are unique, every entry's id stems
/// from the candidate list, and no entry is muted, not-interested or
/// zero-scored.
proof fn lemma_survivors_props(
    cfg: RecommendationConfig,
    ctx: ScoreCtx,
    engagements: Map<Seq<char>, EngagementData>,
    author_stats: Map<Seq<char>, u64>,
    posts: Seq<(String, String, u64)>,
)
    requires
        forall|i: int, j: int|
            0 <= i < j < posts.len() ==> posts[i].0@ != posts[j].0@,
    ensures
        ({
            let surv = spec_survivors(cfg, ctx, engagements, author_stats, posts);
            &&& (forall|k: int|
                0 <= k < surv.len() ==> exists|i: int|
                    0 <= i < posts.len() && (#[trigger] surv[k]).event_id == posts[i].0@)
            &&& (forall|k: int, l: int|
                0 <= k < l < surv.len() ==> surv[k].event_id != surv[l].event_id)
            &&& surv.no_duplicates()
            &&& (forall|k: int|
                0 <= k < surv.len() ==> !ctx.not_interested_posts.contains(
                    (#[trigger] surv[k]).event_id,
                ) && !ctx.muted_pubkeys.contains(surv[k].pubkey) && surv[k].score > 0)
        }),
    decreases posts.len(),
{
    reveal(Seq::filter_map);
    let surv = spec_survivors(cfg, ctx, engagements, author_stats, posts);
    if posts.len() > 0 {
        let rest = posts.drop_last();
        let rsurv = spec_survivors(cfg, ctx, engagements, author_stats, rest);
        assert(forall|i: int| 0 <= i < rest.len() ==> rest[i] == posts[i]);
        lemma_survivors_props(cfg, ctx, engagements, author_stats, rest);
        match spec_scored_of(cfg, ctx, engagements, author_stats, posts.last()) {
            Some(sp) => {
                assert(surv == rsurv + seq![sp]);
                assert(forall|k: int| 0 <= k < rsurv.len() ==> surv[k] == rsurv[k]);
                assert(surv[surv.len() - 1] == sp);
                assert(sp.event_id == posts[posts.len() - 1].0@);
                assert forall|k: int, l: int|
                    0 <= k < l < surv.len() implies surv[k].event_id != surv[l].event_id by {
                    if l < surv.len() - 1 {
                    } else {
                        let i = choose|i: int|
                            0 <= i < rest.len() && rsurv[k].event_id == rest[i].0@;
                        assert(posts[i].0@ != posts[posts.len() - 1].0@);
                    }
                }
            },
            None => {
                assert(surv == rsurv);
            },
        }
    }
}

/// Recording an element's id in the id set keeps the id set equal to the
/// set of ids present in the selection.
proof fn lemma_ids_invariant_push(ids: Set<Seq<char>>, oldv: Seq<ScoredPostV>, x: ScoredPostV)
    requires
        forall|s: Seq<char>|
            ids.contains(s) <==> exists|w: int|
                0 <= w < oldv.len() && (#[trigger] oldv[w]).event_id == s,
    ensures
        forall|s: Seq<char>|
            ids.insert(x.event_id).contains(s) <==> exists|w: int|
                0 <= w < oldv.push(x).len() && (#[trigger] oldv.push(x)[w]).event_id == s,
{
    broadcast use vstd::set::group_set_axioms;

    let newv = oldv.push(x);
    assert forall|s: Seq<char>|
        ids.insert(x.event_id).contains(s) implies exists|w: int|
            0 <= w < newv.len() && (#[trigger] newv[w]).event_id == s by {
        if s == x.event_id {
            assert(newv[oldv.len() as int].event_id == s);
        } else {
            let w = choose|w: int| 0 <= w < oldv.len() && oldv[w].event_id == s;
            assert(newv[w].event_id == s);
        }
    }
    assert forall|s: Seq<char>|
        (exists|w: int| 0 <= w < newv.len() && (#[trigger] newv[w]).event_id == s) implies ids
            .insert(x.event_id).contains(s) by {
        let w = choose|w: int| 0 <= w < newv.len() && newv[w].event_id == s;
        if w < oldv.len() {
            assert(oldv[w].event_id == s);
        } else {
            assert(s == x.event_id);
        }
    }
}

/// Two survivors with the same event id are the same survivor.
proof fn lemma_same_id_same_survivor(survv: Seq<ScoredPostV>, x: ScoredPostV, y: ScoredPostV)
    requires
        forall|k: int, l: int|
            0 <= k < l < survv.len() ==> survv[k].event_id != survv[l].event_id,
        survv.contains(x),
        survv.contains(y),
        x.event_id == y.event_id,
    ensures
        x == y,
{
    let k = choose|k: int| 0 <= k < survv.len() && survv[k] == x;
    let l = choose|l: int| 0 <= l < survv.len() && survv[l] == y;
    if k < l {
        assert(survv[k].event_id != survv[l].event_id);
    } else if l < k {
        assert(survv[l].event_id != survv[k].event_id);
    }
}

/// The quota-phase selection — quota-sized prefixes of the three sorted,
/// predicate-disjoint categories, concatenated — is duplicate-free and
/// drawn from the survivors.
proof fn lemma_quota_phase_props(
    survv: Seq<ScoredPostV>,
    f2: spec_fn(ScoredPostV) -> bool,
    f0: spec_fn(ScoredPostV) -> bool,
    f1: spec_fn(ScoredPostV) -> bool,
    c2: Seq<ScoredPostV>,
    c0: Seq<ScoredPostV>,
    c1: Seq<ScoredPostV>,
    t2: int,
    t0: int,
    t1: int,
    r0: Seq<ScoredPostV>,
)
    requires
        forall|x: ScoredPostV| !(#[trigger] f2(x) && #[trigger] f0(x)),
        forall|x: ScoredPostV| !(#[trigger] f2(x) && #[trigger] f1(x)),
        forall|x: ScoredPostV| !(#[trigger] f0(x) && #[trigger] f1(x)),
        c2.no_duplicates(),
        c0.no_duplicates(),
        c1.no_duplicates(),
        forall|k: int| 0 <= k < c2.len() ==> survv.contains(#[trigger] c2[k]) && f2(c2[k]),
        forall|k: int| 0 <= k < c0.len() ==> survv.contains(#[trigger] c0[k]) && f0(c0[k]),
        forall|k: int| 0 <= k < c1.len() ==> survv.contains(#[trigger] c1[k]) && f1(c1[k]),
        0 <= t2 <= c2.len(),
        0 <= t0 <= c0.len(),
        0 <= t1 <= c1.len(),
        r0 == c2.take(t2) + c0.take(t0) + c1.take(t1),
    ensures
        r0.no_duplicates(),
        forall|k: int| 0 <= k < r0.len() ==> survv.contains(#[trigger] r0[k]),
{
    let p2 = c2.take(t2);
    let p0 = c0.take(t0);
    let p1 = c1.take(t1);
    assert(p2.no_duplicates());
    assert(p0.no_duplicates());
    assert(p1.no_duplicates());
    vstd::seq_lib::lemma_no_dup_in_concat(p2, p0);
    assert(forall|k: int|
        0 <= k < (p2 + p0).len() ==> survv.contains(#[trigger] (p2 + p0)[k]));
    assert forall|i: int, j: int|
        0 <= i < (p2 + p0).len() && 0 <= j < p1.len() implies (p2 + p0)[i] != p1[j] by {
        if i < p2.len() {
            assert(f2((p2 + p0)[i]));
        } else {
            assert(f0((p2 + p0)[i]));
        }
        assert(f1(p1[j]));
    }
    vstd::seq_lib::lemma_no_dup_in_concat(p2 + p0, p1);
    assert(r0 =~= (p2 + p0) + p1);
}

/// The final ordering step: sorting the filled feed and truncating it to
/// the limit yields a sorted, duplicate-free feed of the promised length,
/// drawn from the survivors, and equal to the survivors as a multiset
/// when they all fit.
proof fn lemma_rank_feed_final(
    survv: Seq<ScoredPostV>,
    filled: Seq<ScoredPostV>,
    sortedr: Seq<ScoredPostV>,
    outv: Seq<ScoredPostV>,
    limit: usize,
)
    requires
        survv.no_duplicates(),
        forall|k: int, l: int|
            0 <= k < l < survv.len() ==> survv[k].event_id != survv[l].event_id,
        filled.no_duplicates(),
        forall|k: int| 0 <= k < filled.len() ==> survv.contains(#[trigger] filled[k]),
        filled.len() <= survv.len(),
        filled.len() < limit ==> survv.len() <= filled.len(),
        sortedr.to_multiset() == filled.to_multiset(),
        sorted_desc(sortedr),
        limit <= sortedr.len() ==> outv == sortedr.subrange(0, limit as int),
        limit > sortedr.len() ==> outv == sortedr,
    ensures
        sorted_desc(outv),
        outv.len() == (if survv.len() <= limit {
            survv.len() as int
        } else {
            limit as int
        }),
        forall|k: int| 0 <= k < outv.len() ==> survv.contains(#[trigger] outv[k]),
        forall|k: int, l: int| 0 <= k < l < outv.len() ==> outv[k].event_id != outv[l].event_id,
        survv.len() <= limit ==> outv.to_multiset() == survv.to_multiset(),
{
    broadcast use vstd::seq_lib::group_to_multiset_ensures;

    filled.lemma_multiset_has_no_duplicates();
    assert(forall|x: ScoredPostV|
        sortedr.to_multiset().contains(x) ==> sortedr.to_multiset().count(x) == 1);
    sortedr.lemma_multiset_has_no_duplicates_conv();
    assert(sortedr.to_multiset().len() == sortedr.len());
    assert(filled.to_multiset().len() == filled.len());
    assert(sortedr.len() == filled.len());
    assert forall|k: int| 0 <= k < sortedr.len() implies survv.contains(
        #[trigger] sortedr[k],
    ) by {
        assert(sortedr.contains(sortedr[k]));
        assert(sortedr.to_multiset().count(sortedr[k]) > 0);
        assert(filled.to_multiset().count(sortedr[k]) > 0);
        assert(filled.contains(sortedr[k]));
        let w = choose|w: int| 0 <= w < filled.len() && filled[w] == sortedr[k];
        assert(survv.contains(filled[w]));
    }
    if limit <= sortedr.len() {
        assert(outv == sortedr.subrange(0, limit as int));
        assert(forall|k: int| 0 <= k < outv.len() ==> outv[k] == sortedr[k]);
        assert(survv.len() >= limit);
        if survv.len() <= limit {
            assert(survv.len() == limit);
            assert(filled.len() == survv.len());
            lemma_nodup_subseq_same_len_multiset(filled, survv);
            assert(outv =~= sortedr);
        }
    } else {
        assert(outv == sortedr);
        assert(filled.len() < limit);
        assert(filled.len() == survv.len());
        lemma_nodup_subseq_same_len_multiset(filled, survv);
        assert(survv.len() <= limit);
    }
    assert forall|k: int, l: int| 0 <= k < l < outv.len() implies outv[k].event_id
        != outv[l].event_id by {
        assert(outv[k] == sortedr[k] && outv[l] == sortedr[l]);
        if outv[k].event_id == outv[l].event_id {
            lemma_same_id_same_survivor(survv, sortedr[k], sortedr[l]);
        }
    }
}

/// Stateless recommendation engine.  All mutable user state is passed into
/// each call, so the engine itself stays pure.
pub struct RecommendationEngine {
    pub config: RecommendationConfig,
}

impl RecommendationEngine {
    /// Creates an engine with the given tuning.
    pub fn new(config: RecommendationConfig) -> (r: RecommendationEngine)
        ensures
            r.config == config,
    {
        RecommendationEngine { config }
    }

    /// Time-decay factor for a post created at `created_at`, as of `now`
    /// (both in seconds).
    pub fn time_decay(&self, created_at: u64, now: u64) -> (r: u64)
        requires
            self.config.time_decay.half_life_hours > 0,
        ensures
            r == spec_time_decay(self.config.time_decay, created_at, now),
    {
        let td = self.config.time_decay;
        let age_s: u64 = now.saturating_sub(created_at);
        if age_s < 3600 {
            return td.freshness_boost;
        }
        let age_ms: u128 = (age_s as u128) * 1000;
        let max_ms: u128 = (td.max_age_hours as u128) * 3600;
        if age_ms > max_ms {
            return td.min_score;
        }
        let half_ms: u128 = (td.half_life_hours as u128) * 3600;
        let k: u128 = age_ms / half_ms;
        let rem: u128 = age_ms % half_ms;
        let mut base: u64 = 1000;
        let mut i: u128 = 0;
        while i < k && base > 0
            invariant
                0 <= i <= k,
                base == halved_milli(i as int),
            decreases k - i,
        {
            base = base / 2;
            i += 1;
        }
        proof {
            if i < k {
                lemma_halved_milli_zero_stays(i as int, k as int);
            }
            lemma_halved_milli_range(k as int);
            assert(base == halved_milli(k as int));
        }
        let span: u128 = 2 * half_ms;
        proof {
            assert(base <= 1000);
            assert((base as int) * ((span - rem) as int) <= 1000 * (span as int))
                by (nonlinear_arith)
                requires
                    base <= 1000,
                    0 <= (span - rem) as int <= span as int,
            ;
        }
        let num: u128 = (base as u128) * (span - rem);
        proof {
            assert(span as int > 0);
            assert((base as int) * ((span - rem) as int) <= (base as int) * (span as int))
                by (nonlinear_arith)
                requires
                    0 <= base,
                    0 <= (span - rem) as int <= span as int,
            ;
            lemma_div_is_ordered(
                (base as int) * ((span - rem) as int),
                (base as int) * (span as int),
                span as int,
            );
            lemma_div_by_multiple(base as int, span as int);
            assert((num as int) / (span as int) <= base);
        }
        let val: u128 = num / span;
        val as u64
    }

    /// Engagement score of a post from its reaction counts.
    pub fn engagement_score(&self, data: &EngagementData) -> (r: u64)
        ensures
            r == spec_engagement_score(self.config.engagement_weights, *data),
    {
        let w = self.config.engagement_weights;
        add_sat(
            add_sat(
                add_sat(
                    add_sat(
                        add_sat(mul_sat(data.zaps, w.zap), mul_sat(data.replies, w.reply)),
                        mul_sat(data.reposts, w.repost),
                    ),
                    mul_sat(data.likes, w.like),
                ),
                mul_sat(data.quotes, w.quote),
            ),
            1000,
        )
    }

    /// Social boost for an author from network position and the viewer's
    /// engagement history.
    pub fn social_boost(
        &self,
        author_pubkey: &str,
        follow_list: &StringSet,
        second_degree: &StringSet,
        followers: &StringSet,
        engagement_history: &EngagementHistory,
    ) -> (r: u64)
        ensures
            r == spec_social_boost(
                self.config.social_boost,
                (ScoreCtx {
                    follow_list: follow_list@,
                    second_degree_follows: second_degree@,
                    followers: followers@,
                    liked_authors: engagement_history.liked_authors@,
                    reposted_authors: engagement_history.reposted_authors@,
                    replied_authors: engagement_history.replied_authors@,
                    profiles: Map::<Seq<char>, UserProfile>::empty(),
                    muted_pubkeys: Set::<Seq<char>>::empty(),
                    not_interested_posts: Set::<Seq<char>>::empty(),
                    author_scores: Map::<Seq<char>, u64>::empty(),
                    user_geohash: None,
                    now: 0,
                }),
                author_pubkey@,
            ),
    {
        let sb = self.config.social_boost;
        let liked: u64 = match engagement_history.liked_authors.get(author_pubkey) {
            Some(v) => *v,
            None => 0,
        };
        let reposted: u64 = match engagement_history.reposted_authors.get(author_pubkey) {
            Some(v) => *v,
            None => 0,
        };
        let replied: u64 = match engagement_history.replied_authors.get(author_pubkey) {
            Some(v) => *v,
            None => 0,
        };
        let total: u128 = (liked as u128) + 2 * (reposted as u128) + 3 * (replied as u128);
        let engagement_boost: u64 = if total >= 10 {
            sb.high_engagement_author
        } else if total >= 5 {
            1500
        } else {
            1000
        };
        if follow_list.contains(author_pubkey) {
            if followers.contains(author_pubkey) {
                return mul_milli(sb.mutual_follow, engagement_boost);
            }
            return mul_milli(sb.first_degree, engagement_boost);
        }
        if second_degree.contains(author_pubkey) {
            return mul_milli(sb.second_degree, engagement_boost);
        }
        mul_milli(sb.unknown, engagement_boost)
    }

    /// Author quality from the profile's verified identifier and the
    /// follower count.
    pub fn author_quality(&self, profile: Option<&UserProfile>, follower_count: u64) -> (r: u64)
        ensures
            r == spec_author_quality(
                match profile {
                    Some(p) => p.nip05@.len() > 0,
                    None => false,
                },
                follower_count,
            ),
    {
        let verified: bool = match profile {
            Some(p) => p.nip05.as_str().unicode_len() > 0,
            None => false,
        };
        let base: u64 = if verified {
            1300
        } else {
            1000
        };
        if follower_count > 0 {
            let capped: u64 = if follower_count >= 100000 {
                proof {
                    assert(crate::fixed::pow10(5) == 100000) by {
                        reveal_with_fuel(crate::fixed::pow10, 6);
                    }
                    crate::fixed::lemma_log10_floor_ge(follower_count, 5);
                }
                1500
            } else {
                proof {
                    assert(crate::fixed::pow10(5) == 100000) by {
                        reveal_with_fuel(crate::fixed::pow10, 6);
                    }
                    crate::fixed::lemma_log10_floor_lt(follower_count, 5);
                    crate::fixed::lemma_log10_floor_nonneg(follower_count);
                }
                let lg = log10_floor(follower_count);
                let boost = 1000 + 100 * lg;
                if boost > 1500 {
                    1500
                } else {
                    boost
                }
            };
            mul_milli(base, capped)
        } else {
            base
        }
    }

    /// Full recommendation score for a single post, `None` when the post
    /// is excluded: its id marked not-interested, its author muted, or a
    /// score that rounded down to zero.
    pub fn score_post(
        &self,
        event_id: &str,
        author_pubkey: &str,
        created_at: u64,
        engagement: &EngagementData,
        follow_list: &StringSet,
        second_degree_follows: &StringSet,
        followers: &StringSet,
        engagement_history: &EngagementHistory,
        profiles: &StrMap<UserProfile>,
        muted_pubkeys: &StringSet,
        not_interested_posts: &StringSet,
        author_scores: &StrMap<u64>,
        user_geohash: Option<&str>,
        follower_count: u64,
        now: u64,
    ) -> (r: Option<u64>)
        requires
            self.config.time_decay.half_life_hours > 0,
        ensures
            r == spec_score_post(
                self.config,
                (ScoreCtx {
                    follow_list: follow_list@,
                    second_degree_follows: second_degree_follows@,
                    followers: followers@,
                    liked_authors: engagement_history.liked_authors@,
                    reposted_authors: engagement_history.reposted_authors@,
                    replied_authors: engagement_history.replied_authors@,
                    profiles: profiles@,
                    muted_pubkeys: muted_pubkeys@,
                    not_interested_posts: not_interested_posts@,
                    author_scores: author_scores@,
                    user_geohash: match user_geohash {
                        Some(g) => Some(g@),
                        None => None,
                    },
                    now: now,
                }),
                event_id@,
                author_pubkey@,
                created_at,
                *engagement,
                follower_count,
            ),
    {
        if not_interested_posts.contains(event_id) || muted_pubkeys.contains(author_pubkey) {
            return None;
        }
        let eng_score = self.engagement_score(engagement);
        let social = self.social_boost(
            author_pubkey,
            follow_list,
            second_degree_follows,
            followers,
            engagement_history,
        );
        let profile = profiles.get(author_pubkey);
        let quality = self.author_quality(profile, follower_count);
        let geo = Self::geohash_boost(user_geohash, None);
        let author_modifier: u64 = match author_scores.get(author_pubkey) {
            Some(v) => *v,
            None => 1000,
        };
        let time = self.time_decay(created_at, now);
        let final_score = mul_milli(
            mul_milli(mul_milli(mul_milli(mul_milli(eng_score, social), quality), geo), author_modifier),
            time,
        );
        if final_score > 0 {
            Some(final_score)
        } else {
            None
        }
    }

    /// Scores a batch of candidate posts, partitions the survivors into
    /// discovery categories, applies the mix quotas, fills any shortfall
    /// from the best remaining candidates, and returns the feed sorted by
    /// score, highest first, truncated to `limit`.
    #[verifier::loop_isolation(false)]
    #[verifier::rlimit(60)]
    pub fn rank_feed(
        &self,
        posts: &Vec<(String, String, u64)>,
        engagements: &StrMap<EngagementData>,
        follow_list: &StringSet,
        second_degree_follows: &StringSet,
        followers: &StringSet,
        engagement_history: &EngagementHistory,
        profiles: &StrMap<UserProfile>,
        muted_pubkeys: &StringSet,
        not_interested_posts: &StringSet,
        author_scores: &StrMap<u64>,
        user_geohash: Option<&str>,
        author_stats: &StrMap<u64>,
        limit: usize,
        now: u64,
    ) -> (result: Vec<ScoredPost>)
        requires
            self.config.time_decay.half_life_hours > 0,
            forall|i: int, j: int| 0 <= i < j < posts@.len() ==> posts@[i].0@ != posts@[j].0@,
        ensures
            spec_feed_ok(
                self.config,
                (ScoreCtx {
                    follow_list: follow_list@,
                    second_degree_follows: second_degree_follows@,
                    followers: followers@,
                    liked_authors: engagement_history.liked_authors@,
                    reposted_authors: engagement_history.reposted_authors@,
                    replied_authors: engagement_history.replied_authors@,
                    profiles: profiles@,
                    muted_pubkeys: muted_pubkeys@,
                    not_interested_posts: not_interested_posts@,
                    author_scores: author_scores@,
                    user_geohash: match user_geohash {
                        Some(g) => Some(g@),
                        None => None,
                    },
                    now: now,
                }),
                engagements@,
                author_stats@,
                posts@,
                limit,
                vs_of(result@),
            ),
    {
        let ghost ctx = ScoreCtx {
            follow_list: follow_list@,
            second_degree_follows: second_degree_follows@,
            followers: followers@,
            liked_authors: engagement_history.liked_authors@,
            reposted_authors: engagement_history.reposted_authors@,
            replied_authors: engagement_history.replied_authors@,
            profiles: profiles@,
            muted_pubkeys: muted_pubkeys@,
            not_interested_posts: not_interested_posts@,
            author_scores: author_scores@,
            user_geohash: match user_geohash {
                Some(g) => Some(g@),
                None => None,
            },
            now: now,
        };
        let ghost fm = |post: (String, String, u64)|
            spec_scored_of(self.config, ctx, engagements@, author_stats@, post);
        let ghost survv = spec_survivors(self.config, ctx, engagements@, author_stats@, posts@);

        // Score all candidates, dropping excluded ones.
        let mut scored: Vec<ScoredPost> = Vec::new();
        let n = posts.len();
        let mut idx: usize = 0;
        while idx < n
            invariant
                0 <= idx <= n,
                vs_of(scored@) == posts@.take(idx as int).filter_map(fm),
            decreases n - idx,
        {
            let post = &posts[idx];
            let eng: EngagementData = match engagements.get(post.0.as_str()) {
                Some(e) => *e,
                None => EngagementData::default(),
            };
            let fc: u64 = match author_stats.get(post.1.as_str()) {
                Some(v) => *v,
                None => 0,
            };
            let r = self.score_post(
                post.0.as_str(),
                post.1.as_str(),
                post.2,
                &eng,
                follow_list,
                second_degree_follows,
                followers,
                engagement_history,
                profiles,
                muted_pubkeys,
                not_interested_posts,
                author_scores,
                user_geohash,
                fc,
                now,
            );
            proof {
                posts@.lemma_filter_map_take_succ(fm, idx as int);
            }
            match r {
                Some(score) => {
                    let sp = ScoredPost {
                        event_id: post.0.clone(),
                        pubkey: post.1.clone(),
                        score,
                        created_at: post.2,
                    };
                    proof {
                        assert(fm(posts@[idx as int]) == Some(sp@));
                        lemma_vs_push(scored@, sp);
                        assert(vs_of(scored@).push(sp@) =~= vs_of(scored@) + seq![sp@]);
                    }
                    scored.push(sp);
                },
                None => {
                    proof {
                        assert(fm(posts@[idx as int]) is None);
                    }
                },
            }
            idx += 1;
        }
        proof {
            assert(posts@.take(n as int) =~= posts@);
            assert(vs_of(scored@) == survv);
        }

        // Partition the survivors into the three discovery categories.
        let ghost f2 = cat_second_pred(ctx);
        let ghost f1 = cat_first_pred(ctx);
        let ghost f0 = cat_out_pred(ctx);
        let mut cat_2nd: Vec<ScoredPost> = Vec::new();
        let mut cat_out: Vec<ScoredPost> = Vec::new();
        let mut cat_1st: Vec<ScoredPost> = Vec::new();
        let m = scored.len();
        let mut k: usize = 0;
        while k < m
            invariant
                0 <= k <= m,
                vs_of(cat_2nd@) == survv.take(k as int).filter(f2),
                vs_of(cat_out@) == survv.take(k as int).filter(f0),
                vs_of(cat_1st@) == survv.take(k as int).filter(f1),
            decreases m - k,
        {
            let sp = &scored[k];
            proof {
                assert(survv.take(k as int + 1) =~= survv.take(k as int).push(survv[k as int]));
                survv.take(k as int).lemma_filter_push(survv[k as int], f2);
                survv.take(k as int).lemma_filter_push(survv[k as int], f0);
                survv.take(k as int).lemma_filter_push(survv[k as int], f1);
            }
            if second_degree_follows.contains(sp.pubkey.as_str()) {
                let c = sp.clone_post();
                proof {
                    lemma_vs_push(cat_2nd@, c);
                }
                cat_2nd.push(c);
            } else if follow_list.contains(sp.pubkey.as_str()) {
                let c = sp.clone_post();
                proof {
                    lemma_vs_push(cat_1st@, c);
                }
                cat_1st.push(c);
            } else {
                let c = sp.clone_post();
                proof {
                    lemma_vs_push(cat_out@, c);
                }
                cat_out.push(c);
            }
            k += 1;
        }
        proof {
            assert(survv.take(m as int) =~= survv);
        }

        // Sort each category by score, highest first.
        sort_posts_desc(&mut cat_2nd);
        sort_posts_desc(&mut cat_out);
        sort_posts_desc(&mut cat_1st);
        let ghost c2 = vs_of(cat_2nd@);
        let ghost c0 = vs_of(cat_out@);
        let ghost c1 = vs_of(cat_1st@);
        proof {
            lemma_survivors_props(self.config, ctx, engagements@, author_stats@, posts@);
            lemma_sorted_cat_props(survv, f2, c2);
            lemma_sorted_cat_props(survv, f0, c0);
            lemma_sorted_cat_props(survv, f1, c1);
        }

        // Quotas per category.
        let mix = self.config.feed_mix;
        let target_2nd = quota(cat_2nd.len(), limit, mix.second_degree);
        let target_out = quota(cat_out.len(), limit, mix.out_of_network);
        let target_1st = quota(cat_1st.len(), limit, mix.first_degree);

        // Select the top quota entries of each category, in fixed order.
        let mut result: Vec<ScoredPost> = Vec::new();
        let mut result_ids = StringSet::new();
        let mut t: usize = 0;
        while t < target_2nd
            invariant
                0 <= t <= target_2nd,
                vs_of(result@) == c2.take(t as int),
                forall|s: Seq<char>|
                    result_ids@.contains(s) <==> exists|w: int|
                        0 <= w < vs_of(result@).len() && (#[trigger] vs_of(result@)[w]).event_id
                            == s,
            decreases target_2nd - t,
        {
            let sp = &cat_2nd[t];
            let ghost oldseq = result@;
            let ghost old_ids = result_ids@;
            let c = sp.clone_post();
            result_ids.insert(sp.event_id.clone());
            result.push(c);
            proof {
                lemma_vs_push(oldseq, c);
                assert(c2.take(t as int + 1) =~= c2.take(t as int).push(c2[t as int]));
                lemma_ids_invariant_push(old_ids, vs_of(oldseq), c@);
            }
            t += 1;
        }
        let mut t: usize = 0;
        while t < target_out
            invariant
                0 <= t <= target_out,
                vs_of(result@) == c2.take(target_2nd as int) + c0.take(t as int),
                forall|s: Seq<char>|
                    result_ids@.contains(s) <==> exists|w: int|
                        0 <= w < vs_of(result@).len() && (#[trigger] vs_of(result@)[w]).event_id
                            == s,
            decreases target_out - t,
        {
            let sp = &cat_out[t];
            let ghost oldseq = result@;
            let ghost old_ids = result_ids@;
            let c = sp.clone_post();
            result_ids.insert(sp.event_id.clone());
            result.push(c);
            proof {
                lemma_vs_push(oldseq, c);
                assert(c0.take(t as int + 1) =~= c0.take(t as int).push(c0[t as int]));
                assert(vs_of(oldseq).push(c0[t as int]) =~= c2.take(target_2nd as int) + c0.take(
                    t as int + 1,
                ));
                lemma_ids_invariant_push(old_ids, vs_of(oldseq), c@);
            }
            t += 1;
        }
        let mut t: usize = 0;
        while t < target_1st
            invariant
                0 <= t <= target_1st,
                vs_of(result@) == c2.take(target_2nd as int) + c0.take(target_out as int)
                    + c1.take(t as int),
                forall|s: Seq<char>|
                    result_ids@.contains(s) <==> exists|w: int|
                        0 <= w < vs_of(result@).len() && (#[trigger] vs_of(result@)[w]).event_id
                            == s,
            decreases target_1st - t,
        {
            let sp = &cat_1st[t];
            let ghost oldseq = result@;
            let ghost old_ids = result_ids@;
            let c = sp.clone_post();
            result_ids.insert(sp.event_id.clone());
            result.push(c);
            proof {
                lemma_vs_push(oldseq, c);
                assert(c1.take(t as int + 1) =~= c1.take(t as int).push(c1[t as int]));
                assert(vs_of(oldseq).push(c1[t as int]) =~= c2.take(target_2nd as int) + c0.take(
                    target_out as int,
                ) + c1.take(t as int + 1));
                lemma_ids_invariant_push(old_ids, vs_of(oldseq), c@);
            }
            t += 1;
        }

        let ghost r0 = vs_of(result@);
        proof {
            lemma_quota_phase_props(
                survv,
                f2,
                f0,
                f1,
                c2,
                c0,
                c1,
                target_2nd as int,
                target_out as int,
                target_1st as int,
                r0,
            );
        }

        // Fill remaining slots from the best unselected candidates.
        if result.len() < limit {
            sort_posts_desc(&mut scored);
            let ghost sortedv = vs_of(scored@);
            proof {
                broadcast use vstd::seq_lib::group_to_multiset_ensures;

                survv.lemma_multiset_has_no_duplicates();
                assert(forall|x: ScoredPostV|
                    sortedv.to_multiset().contains(x) ==> sortedv.to_multiset().count(x) == 1);
                sortedv.lemma_multiset_has_no_duplicates_conv();
                assert forall|w: int| 0 <= w < sortedv.len() implies survv.contains(
                    #[trigger] sortedv[w],
                ) by {
                    assert(sortedv.contains(sortedv[w]));
                    assert(sortedv.to_multiset().count(sortedv[w]) > 0);
                    assert(survv.to_multiset().count(sortedv[w]) > 0);
                }
                assert forall|j: int| 0 <= j < survv.len() implies sortedv.contains(
                    #[trigger] survv[j],
                ) by {
                    assert(survv.contains(survv[j]));
                    assert(survv.to_multiset().count(survv[j]) > 0);
                    assert(sortedv.to_multiset().count(survv[j]) > 0);
                }
            }
            let sn = scored.len();
            let mut w: usize = 0;
            while w < sn && result.len() < limit
                invariant
                    0 <= w <= sn,
                    vs_of(result@).len() <= limit,
                    vs_of(result@).len() >= r0.len(),
                    vs_of(result@).take(r0.len() as int) == r0,
                    vs_of(result@).no_duplicates(),
                    forall|k2: int|
                        0 <= k2 < vs_of(result@).len() ==> survv.contains(
                            #[trigger] vs_of(result@)[k2],
                        ),
                    forall|s: Seq<char>|
                        result_ids@.contains(s) <==> exists|w2: int|
                            0 <= w2 < vs_of(result@).len() && (#[trigger] vs_of(
                                result@,
                            )[w2]).event_id == s,
                    forall|m2: int|
                        0 <= m2 < w ==> result_ids@.contains(
                            (#[trigger] sortedv[m2]).event_id,
                        ),
                decreases sn - w,
            {
                let sp = &scored[w];
                if !result_ids.contains(sp.event_id.as_str()) {
                    let ghost oldseq = result@;
                    let ghost old_ids = result_ids@;
                    let c = sp.clone_post();
                    result_ids.insert(sp.event_id.clone());
                    result.push(c);
                    proof {
                        lemma_vs_push(oldseq, c);
                        assert(vs_of(result@).take(r0.len() as int) =~= vs_of(oldseq).take(
                            r0.len() as int,
                        ));
                        assert(survv.contains(sortedv[w as int]));
                        assert forall|k2: int|
                            0 <= k2 < vs_of(oldseq).len() implies vs_of(oldseq)[k2]
                            != sortedv[w as int] by {
                            if vs_of(oldseq)[k2] == sortedv[w as int] {
                                assert(old_ids.contains(sortedv[w as int].event_id));
                            }
                        }
                        lemma_ids_invariant_push(old_ids, vs_of(oldseq), c@);
                    }
                }
                w += 1;
            }
        }

        proof {
            assert(vs_of(result@).len() >= r0.len());
            assert(vs_of(result@).take(r0.len() as int) =~= r0);
            assert(vs_of(result@).len() <= limit || vs_of(result@).len() == r0.len());
        }

        // Either the feed is full, or every survivor is already in it.
        proof {
            if vs_of(result@).len() < limit {
                assert forall|j: int| 0 <= j < survv.len() implies vs_of(result@).contains(
                    #[trigger] survv[j],
                ) by {
                    let rv = vs_of(result@);
                    assert(result_ids@.contains(survv[j].event_id));
                    let w2 = choose|w2: int|
                        0 <= w2 < rv.len() && rv[w2].event_id == survv[j].event_id;
                    assert(survv.contains(rv[w2]));
                    lemma_same_id_same_survivor(survv, rv[w2], survv[j]);
                    assert(rv[w2] == survv[j]);
                }
                lemma_nodup_subseq_len(survv, vs_of(result@));
            }
            lemma_nodup_subseq_len(vs_of(result@), survv);
        }
        let ghost filled = vs_of(result@);

        // Final ordering: sort the whole feed by score and truncate.
        sort_posts_desc(&mut result);
        let ghost sortedr = vs_of(result@);
        result.truncate(limit);
        proof {
            if limit <= sortedr.len() {
                assert(vs_of(result@) =~= sortedr.subrange(0, limit as int));
            } else {
                assert(vs_of(result@) =~= sortedr);
            }
            lemma_rank_feed_final(survv, filled, sortedr, vs_of(result@), limit);

            // Category representation: when the three quotas fit under the
            // limit, each category keeps at least its quota in the feed.
            let q2i = spec_quota(survv.filter(f2).len() as int, limit as int, mix.second_degree);
            let q0i = spec_quota(survv.filter(f0).len() as int, limit as int, mix.out_of_network);
            let q1i = spec_quota(survv.filter(f1).len() as int, limit as int, mix.first_degree);
            if q2i + q0i + q1i <= limit {
                assert(target_2nd == q2i && target_out == q0i && target_1st == q1i);
                assert(r0.len() == target_2nd + target_out + target_1st);
                assert(filled.len() <= limit);
                let w2 = c2.take(target_2nd as int);
                let w0 = c0.take(target_out as int);
                let w1 = c1.take(target_1st as int);
                assert(w2.no_duplicates() && w0.no_duplicates() && w1.no_duplicates());
                assert forall|k: int|
                    0 <= k < w2.len() implies filled.contains(#[trigger] w2[k]) && f2(w2[k]) by {
                    assert(r0[k] == w2[k]);
                    assert(filled.take(r0.len() as int)[k] == filled[k]);
                    assert(filled[k] == w2[k]);
                    assert(f2(c2[k]));
                }
                lemma_filter_count_at_least(w2, filled, f2);
                assert forall|k: int|
                    0 <= k < w0.len() implies filled.contains(#[trigger] w0[k]) && f0(w0[k]) by {
                    let m = target_2nd + k;
                    assert(r0[m] == w0[k]);
                    assert(filled.take(r0.len() as int)[m] == filled[m]);
                    assert(filled[m] == w0[k]);
                    assert(f0(c0[k]));
                }
                lemma_filter_count_at_least(w0, filled, f0);
                assert forall|k: int|
                    0 <= k < w1.len() implies filled.contains(#[trigger] w1[k]) && f1(w1[k]) by {
                    let m = target_2nd + target_out + k;
                    assert(r0[m] == w1[k]);
                    assert(filled.take(r0.len() as int)[m] == filled[m]);
                    assert(filled[m] == w1[k]);
                    assert(f1(c1[k]));
                }
                lemma_filter_count_at_least(w1, filled, f1);

                broadcast use vstd::seq_lib::group_to_multiset_ensures;

                filled.lemma_multiset_has_no_duplicates();
                assert(forall|x: ScoredPostV|
                    sortedr.to_multiset().contains(x) ==> sortedr.to_multiset().count(x) == 1);
                sortedr.lemma_multiset_has_no_duplicates_conv();
                assert(sortedr.to_multiset().len() == sortedr.len());
                assert(filled.to_multiset().len() == filled.len());
                assert(vs_of(result@) =~= sortedr);
                lemma_nodup_multiset_filter_len(sortedr, filled, f2);
                lemma_nodup_multiset_filter_len(sortedr, filled, f0);
                lemma_nodup_multiset_filter_len(sortedr, filled, f1);
            }
        }
        result
    }

    /// Extracts the second-degree network from follow lists: the pubkeys
    /// followed by the viewer's follows but not by the viewer.
    #[verifier::loop_isolation(false)]
    pub fn extract_2nd_degree_network(
        my_follows: &StringSet,
        follows_of_follows: &Vec<(String, Vec<String>)>,
    ) -> (r: StringSet)
        ensures
            forall|s: Seq<char>|
                r@.contains(s) <==> spec_second_degree_member(
                    my_follows@,
                    follows_of_follows@,
                    s,
                ),
    {
        let ghost my = my_follows@;
        let ghost fof = follows_of_follows@;
        let mut second = StringSet::new();
        let fl = follows_of_follows.len();
        let mut i: usize = 0;
        while i < fl
            invariant
                0 <= i <= fl,
                second@ == sd_prefix(my, fof, i as int),
            decreases fl - i,
        {
            let entry = &follows_of_follows[i];
            if my_follows.contains(entry.0.as_str()) {
                let il = entry.1.len();
                let mut j: usize = 0;
                while j < il
                    invariant
                        0 <= j <= il,
                        second@ == sd_prefix(my, fof, i as int).union(
                            sd_entry_prefix(my, fof[i as int], j as int),
                        ),
                    decreases il - j,
                {
                    let pk = &entry.1[j];
                    let ghost old_set = second@;
                    if !my_follows.contains(pk.as_str()) {
                        second.insert(pk.clone());
                        proof {
                            broadcast use vstd::set::group_set_axioms;

                            assert(sd_entry_prefix(my, fof[i as int], j as int + 1)
                                =~= sd_entry_prefix(my, fof[i as int], j as int).insert(pk@));
                            assert(second@ =~= sd_prefix(my, fof, i as int).union(
                                sd_entry_prefix(my, fof[i as int], j as int + 1),
                            ));
                        }
                    } else {
                        proof {
                            assert(sd_entry_prefix(my, fof[i as int], j as int + 1)
                                == sd_entry_prefix(my, fof[i as int], j as int));
                        }
                    }
                    j += 1;
                }
                proof {
                    assert(second@ == sd_prefix(my, fof, i as int + 1));
                }
            } else {
                proof {
                    broadcast use vstd::set::group_set_axioms;

                    lemma_sd_entry_skip(my, fof[i as int], fof[i as int].1@.len() as int);
                    assert(second@ =~= sd_prefix(my, fof, i as int + 1));
                }
            }
            i += 1;
        }
        proof {
            lemma_sd_prefix_member(my, fof, fl as int);
            assert forall|s: Seq<char>|
                second@.contains(s) <==> spec_second_degree_member(my, fof, s) by {
                if spec_second_degree_member(my, fof, s) {
                    let (a, b) = choose|a: int, b: int| sd_hit(my, fof, a, b, s);
                    assert(a < fl && sd_hit(my, fof, a, b, s));
                }
                if second@.contains(s) {
                    let (a, b) = choose|a: int, b: int|
                        a < fl && #[trigger] sd_hit(my, fof, a, b, s);
                    assert(sd_hit(my, fof, a, b, s));
                }
            }
        }
        second
    }

    /// Geographic proximity boost from the shared leading prefix of the
    /// viewer's and the author's location strings.
    pub fn geohash_boost(user_geohash: Option<&str>, author_geohash: Option<&str>) -> (r: u64)
        ensures
            r == spec_geohash_boost(
                match user_geohash {
                    Some(u) => Some(u@),
                    None => None,
                },
                match author_geohash {
                    Some(a) => Some(a@),
                    None => None,
                },
            ),
    {
        let (u, a) = match (user_geohash, author_geohash) {
            (Some(u), Some(a)) => (u, a),
            _ => {
                return 1000;
            },
        };
        let ulen = u.unicode_len();
        let alen = a.unicode_len();
        let mut i: usize = 0;
        let mut mismatch: bool = false;
        while i < ulen && i < alen && i < 5 && !mismatch
            invariant
                ulen == u@.len(),
                alen == a@.len(),
                0 <= i <= 5,
                i <= ulen,
                i <= alen,
                forall|j: int| 0 <= j < i ==> u@[j] == a@[j],
                mismatch ==> i < ulen && i < alen && u@[i as int] != a@[i as int],
            decreases 5 - i, (if mismatch { 0int } else { 1int }),
        {
            if u.get_char(i) != a.get_char(i) {
                mismatch = true;
            } else {
                i += 1;
            }
        }
        proof {
            if mismatch {
                lemma_common_prefix_stops(u@, a@, i as int);
            } else if i == 5 {
                lemma_common_prefix_at_least(u@, a@, 5);
            } else {
                lemma_common_prefix_stops(u@, a@, i as int);
            }
        }
        if i >= 5 {
            2000
        } else if i >= 3 {
            1500
        } else if i >= 2 {
            1200
        } else {
            1000
        }
    }
}

/// The abstract values of a vector of scored posts.
pub open spec fn vs_of(s: Seq<ScoredPost>) -> Seq<ScoredPostV> {
    s.map_values(|p: ScoredPost| p@)
}

/// Non-increasing by score.
pub open spec fn sorted_desc(s: Seq<ScoredPostV>) -> bool {
    forall|i: int, j: int| 0 <= i <= j < s.len() ==> s[i].score >= s[j].score
}

proof fn lemma_vs_remove(s: Seq<ScoredPost>, i: int)
    requires
        0 <= i < s.len(),
    ensures
        vs_of(s.remove(i)) =~= vs_of(s).remove(i),
{
}

proof fn lemma_vs_insert(s: Seq<ScoredPost>, i: int, x: ScoredPost)
    requires
        0 <= i <= s.len(),
    ensures
        vs_of(s.insert(i, x)) =~= vs_of(s).insert(i, x@),
{
}

/// Removing an element of a multiset and putting it back changes nothing.
proof fn lemma_multiset_remove_insert<A>(m: Multiset<A>, a: A)
    requires
        m.count(a) > 0,
    ensures
        m.remove(a).insert(a) =~= m,
{
}

/// Sorts a vector of scored posts by score, highest first, keeping the
/// same posts.
fn sort_posts_desc(v: &mut Vec<ScoredPost>)
    ensures
        final(v)@.len() == old(v)@.len(),
        vs_of(final(v)@).to_multiset() == vs_of(old(v)@).to_multiset(),
        sorted_desc(vs_of(final(v)@)),
{
    let ghost orig = v@;
    let n = v.len();
    if n <= 1 {
        return;
    }
    let mut i: usize = 1;
    while i < n
        invariant
            n == v@.len(),
            1 <= i <= n,
            vs_of(v@).to_multiset() == vs_of(orig).to_multiset(),
            forall|p: int, q: int|
                0 <= p <= q < i ==> vs_of(v@)[p].score >= vs_of(v@)[q].score,
        decreases n - i,
    {
        let ghost before = v@;
        let x = v.remove(i);
        let ghost mid = v@;
        let mut j: usize = i;
        while j > 0 && v[j - 1].score < x.score
            invariant
                v@ == mid,
                mid.len() == n - 1,
                0 <= j <= i,
                i < n,
                forall|m: int| j <= m < i ==> vs_of(mid)[m].score < x@.score,
            decreases j,
        {
            j -= 1;
        }
        v.insert(j, x);
        proof {
            broadcast use vstd::seq_lib::group_to_multiset_ensures;

            lemma_vs_remove(before, i as int);
            lemma_vs_insert(mid, j as int, x);
            vstd::seq_lib::to_multiset_insert(vs_of(mid), j as int, x@);
            assert(vs_of(before).to_multiset().count(vs_of(before)[i as int]) > 0);
            lemma_multiset_remove_insert(vs_of(before).to_multiset(), x@);
            assert(vs_of(v@).to_multiset() =~= vs_of(before).to_multiset());

            let newv = vs_of(v@);
            let midv = vs_of(mid);
            assert(newv =~= midv.insert(j as int, x@));
            midv.insert_ensures(j as int, x@);
            let beforev = vs_of(before);
            assert(forall|m: int| 0 <= m < i ==> midv[m] == beforev[m]);
            assert(forall|m: int| 0 <= m < j ==> newv[m] == midv[m]);
            assert(forall|m: int| j < m < i + 1 ==> newv[m] == midv[m - 1]);
            assert(newv[j as int] == x@);
            assert forall|p: int, q: int| 0 <= p <= q < i + 1 implies newv[p].score
                >= newv[q].score by {
                if q < j {
                    assert(newv[p] == beforev[p] && newv[q] == beforev[q]);
                    assert(beforev[p].score >= beforev[q].score);
                } else if p < j && q == j {
                    assert(newv[p] == beforev[p] && newv[q] == x@);
                    assert(beforev[p].score >= beforev[j - 1].score);
                    assert(midv[j - 1].score >= x@.score);
                } else if p < j && q > j {
                    assert(newv[p] == beforev[p] && newv[q] == midv[q - 1]);
                    assert(beforev[p].score >= beforev[j - 1].score);
                    assert(midv[j - 1].score >= x@.score);
                    assert(midv[q - 1].score < x@.score);
                } else if p == j && q == j {
                } else if p == j && q > j {
                    assert(newv[p] == x@ && newv[q] == midv[q - 1]);
                    assert(midv[q - 1].score < x@.score);
                } else {
                    assert(p > j && q > j);
                    assert(newv[p] == beforev[p - 1] && newv[q] == beforev[q - 1]);
                    assert(beforev[p - 1].score >= beforev[q - 1].score);
                }
            }
        }
        i += 1;
    }
}

proof fn lemma_vs_push(s: Seq<ScoredPost>, x: ScoredPost)
    ensures
        vs_of(s.push(x)) =~= vs_of(s).push(x@),
{
}

/// A per-category quota: the category size or the limit's share under the
/// mix ratio, whichever is smaller.
pub open spec fn spec_quota(cat_len: int, limit: int, ratio: u64) -> int {
    let share = (limit * ratio) / 1000;
    if cat_len <= share {
        cat_len
    } else {
        share
    }
}

/// Computes a category quota.
fn quota(cat_len: usize, limit: usize, ratio: u64) -> (r: usize)
    ensures
        r == spec_quota(cat_len as int, limit as int, ratio),
        r <= cat_len,
{
    proof {
        crate::fixed::lemma_u64_product_fits(limit as u64, ratio);
    }
    let share: u128 = (limit as u128) * (ratio as u128) / 1000;
    if (cat_len as u128) <= share {
        cat_len
    } else {
        share as usize
    }
}

/// What a sorted category satisfies: duplicate-free, drawn from the
/// survivors, every element satisfying the category predicate, and as
/// long as the unsorted category.
proof fn lemma_sorted_cat_props(
    survv: Seq<ScoredPostV>,
    f: spec_fn(ScoredPostV) -> bool,
    c: Seq<ScoredPostV>,
)
    requires
        survv.no_duplicates(),
        c.to_multiset() == survv.filter(f).to_multiset(),
    ensures
        c.no_duplicates(),
        forall|k: int| 0 <= k < c.len() ==> survv.contains(#[trigger] c[k]) && f(c[k]),
        c.len() == survv.filter(f).len(),
{
    broadcast use vstd::seq_lib::group_to_multiset_ensures;

    lemma_filter_props(survv, f);
    let filt = survv.filter(f);
    filt.lemma_multiset_has_no_duplicates();
    assert(forall|x: ScoredPostV|
        c.to_multiset().contains(x) ==> c.to_multiset().count(x) == 1);
    c.lemma_multiset_has_no_duplicates_conv();
    assert(c.to_multiset().len() == c.len());
    assert(filt.to_multiset().len() == filt.len());
    assert forall|k: int| 0 <= k < c.len() implies survv.contains(#[trigger] c[k]) && f(
        c[k],
    ) by {
        assert(c.contains(c[k]));
        assert(c.to_multiset().count(c[k]) > 0);
        assert(filt.to_multiset().count(c[k]) > 0);
        assert(filt.contains(c[k]));
        let w = choose|w: int| 0 <= w < filt.len() && filt[w] == c[k];
        broadcast use vstd::seq_lib::group_filter_ensures;

        assert(f(filt[w]));
        assert(survv.contains(filt[w]));
    }
}

/// Whether entry `a`, position `b` of the follow lists witnesses `s` as a
/// second-degree follow candidate: the entry belongs to a direct follow
/// and holds `s` at that position.
pub open spec fn sd_hit(
    my: Set<Seq<char>>,
    fof: Seq<(String, Vec<String>)>,
    a: int,
    b: int,
    s: Seq<char>,
) -> bool {
    0 <= a < fof.len() && my.contains(fof[a].0@) && 0 <= b < fof[a].1@.len() && fof[a].1@[b]@ == s
}

/// Membership in the second-degree network: someone a direct follow
/// follows, who is not a direct follow themselves.
pub open spec fn spec_second_degree_member(
    my: Set<Seq<char>>,
    fof: Seq<(String, Vec<String>)>,
    s: Seq<char>,
) -> bool {
    !my.contains(s) && exists|a: int, b: int| sd_hit(my, fof, a, b, s)
}

/// The second-degree candidates contributed by the first `j` entries of
/// one follow list.
pub open spec fn sd_entry_prefix(
    my: Set<Seq<char>>,
    entry: (String, Vec<String>),
    j: int,
) -> Set<Seq<char>>
    decreases j,
{
    if j <= 0 {
        Set::empty()
    } else {
        let prev = sd_entry_prefix(my, entry, j - 1);
        if my.contains(entry.0@) && !my.contains(entry.1@[j - 1]@) {
            prev.insert(entry.1@[j - 1]@)
        } else {
            prev
        }
    }
}

/// The second-degree candidates contributed by the first `i` follow
/// lists.
pub open spec fn sd_prefix(
    my: Set<Seq<char>>,
    fof: Seq<(String, Vec<String>)>,
    i: int,
) -> Set<Seq<char>>
    decreases i,
{
    if i <= 0 {
        Set::empty()
    } else {
        sd_prefix(my, fof, i - 1).union(
            sd_entry_prefix(my, fof[i - 1], fof[i - 1].1@.len() as int),
        )
    }
}

/// A follow list whose owner is not a direct follow contributes nothing.
proof fn lemma_sd_entry_skip(my: Set<Seq<char>>, entry: (String, Vec<String>), j: int)
    requires
        !my.contains(entry.0@),
    ensures
        sd_entry_prefix(my, entry, j) =~= Set::<Seq<char>>::empty(),
    decreases j,
{
    if j > 0 {
        lemma_sd_entry_skip(my, entry, j - 1);
    }
}

/// What one follow-list prefix contributes, element by element.
proof fn lemma_sd_entry_member(my: Set<Seq<char>>, entry: (String, Vec<String>), j: int)
    requires
        0 <= j <= entry.1@.len(),
    ensures
        forall|s: Seq<char>|
            #![trigger sd_entry_prefix(my, entry, j).contains(s)]
            sd_entry_prefix(my, entry, j).contains(s) <==> (my.contains(entry.0@)
                && !my.contains(s) && exists|b: int|
                0 <= b < j && (#[trigger] entry.1@[b])@ == s),
    decreases j,
{
    broadcast use vstd::set::group_set_axioms;

    if j > 0 {
        lemma_sd_entry_member(my, entry, j - 1);
        assert forall|s: Seq<char>|
            #![trigger sd_entry_prefix(my, entry, j).contains(s)]
            true implies (sd_entry_prefix(my, entry, j).contains(s) <==> (my.contains(entry.0@)
                && !my.contains(s) && exists|b: int|
                0 <= b < j && (#[trigger] entry.1@[b])@ == s)) by {
            assert(sd_entry_prefix(my, entry, j - 1).contains(s) <==> (my.contains(entry.0@)
                && !my.contains(s) && exists|b: int|
                0 <= b < j - 1 && (#[trigger] entry.1@[b])@ == s));
            if sd_entry_prefix(my, entry, j).contains(s) {
                if my.contains(entry.0@) && !my.contains(entry.1@[j - 1]@) && s == entry.1@[j
                    - 1]@ {
                    assert(0 <= j - 1 < j && (entry.1@[j - 1])@ == s);
                } else {
                    assert(sd_entry_prefix(my, entry, j - 1).contains(s));
                    let b = choose|b: int| 0 <= b < j - 1 && (#[trigger] entry.1@[b])@ == s;
                    assert(0 <= b < j && (entry.1@[b])@ == s);
                }
            }
            if my.contains(entry.0@) && !my.contains(s) && (exists|b: int|
                0 <= b < j && (#[trigger] entry.1@[b])@ == s) {
                let b = choose|b: int| 0 <= b < j && (#[trigger] entry.1@[b])@ == s;
                if b == j - 1 {
                    assert(sd_entry_prefix(my, entry, j).contains(s));
                } else {
                    assert(0 <= b < j - 1 && (entry.1@[b])@ == s);
                    assert(sd_entry_prefix(my, entry, j - 1).contains(s));
                }
            }
        }
    }
}

/// What the first `i` follow lists contribute, element by element.
proof fn lemma_sd_prefix_member(my: Set<Seq<char>>, fof: Seq<(String, Vec<String>)>, i: int)
    requires
        0 <= i <= fof.len(),
    ensures
        forall|s: Seq<char>|
            #![trigger sd_prefix(my, fof, i).contains(s)]
            sd_prefix(my, fof, i).contains(s) <==> (!my.contains(s) && exists|a: int, b: int|
                a < i && #[trigger] sd_hit(my, fof, a, b, s)),
    decreases i,
{
    broadcast use vstd::set::group_set_axioms;

    if i > 0 {
        lemma_sd_prefix_member(my, fof, i - 1);
        lemma_sd_entry_member(my, fof[i - 1], fof[i - 1].1@.len() as int);
        assert forall|s: Seq<char>|
            #![trigger sd_prefix(my, fof, i).contains(s)]
            true implies (sd_prefix(my, fof, i).contains(s) <==> (!my.contains(s) && exists|
            a: int,
            b: int,
        |
            a < i && #[trigger] sd_hit(my, fof, a, b, s))) by {
            assert(sd_prefix(my, fof, i - 1).contains(s) <==> (!my.contains(s) && exists|
                a: int,
                b: int,
            |
                a < i - 1 && #[trigger] sd_hit(my, fof, a, b, s)));
            let entry = fof[i - 1];
            assert(sd_entry_prefix(my, entry, entry.1@.len() as int).contains(s) <==> (
            my.contains(entry.0@) && !my.contains(s) && exists|b: int|
                0 <= b < entry.1@.len() && (#[trigger] entry.1@[b])@ == s));
            if sd_prefix(my, fof, i).contains(s) {
                if sd_prefix(my, fof, i - 1).contains(s) {
                    let (a, b) = choose|a: int, b: int|
                        a < i - 1 && #[trigger] sd_hit(my, fof, a, b, s);
                    assert(a < i && sd_hit(my, fof, a, b, s));
                } else {
                    assert(sd_entry_prefix(my, entry, entry.1@.len() as int).contains(s));
                    let b = choose|b: int|
                        0 <= b < entry.1@.len() && (#[trigger] entry.1@[b])@ == s;
                    assert(sd_hit(my, fof, i - 1, b, s));
                    assert(i - 1 < i && sd_hit(my, fof, i - 1, b, s));
                }
            }
            if !my.contains(s) && (exists|a: int, b: int|
                a < i && #[trigger] sd_hit(my, fof, a, b, s)) {
                let (a, b) = choose|a: int, b: int| a < i && #[trigger] sd_hit(my, fof, a, b, s);
                if a < i - 1 {
                    assert(sd_prefix(my, fof, i - 1).contains(s));
                } else {
                    assert(a == i - 1);
                    assert(my.contains(entry.0@) && 0 <= b < entry.1@.len() && (entry.1@[b])@
                        == s);
                    assert(sd_entry_prefix(my, entry, entry.1@.len() as int).contains(s));
                }
            }
        }
    }
}

/// If the first `i` characters agree and position `i` is a mismatch or an
/// end, the common prefix has length exactly `i`.
proof fn lemma_common_prefix_stops(a: Seq<char>, b: Seq<char>, i: int)
    requires
        0 <= i <= a.len(),
        0 <= i <= b.len(),
        forall|j: int| 0 <= j < i ==> a[j] == b[j],
        i == a.len() || i == b.len() || a[i] != b[i],
    ensures
        spec_common_prefix(a, b) == i,
    decreases i,
{
    if i == 0 {
    } else {
        lemma_common_prefix_stops(a.drop_first(), b.drop_first(), i - 1);
    }
}

/// The common prefix length is never negative.
proof fn lemma_common_prefix_nonneg(a: Seq<char>, b: Seq<char>)
    ensures
        spec_common_prefix(a, b) >= 0,
    decreases a.len(),
{
    if a.len() > 0 && b.len() > 0 && a[0] == b[0] {
        lemma_common_prefix_nonneg(a.drop_first(), b.drop_first());
    }
}

/// If the first `i` characters agree, the common prefix is at least `i`.
proof fn lemma_common_prefix_at_least(a: Seq<char>, b: Seq<char>, i: int)
    requires
        0 <= i <= a.len(),
        0 <= i <= b.len(),
        forall|j: int| 0 <= j < i ==> a[j] == b[j],
    ensures
        spec_common_prefix(a, b) >= i,
    decreases i,
{
    if i > 0 {
        assert(a[0] == b[0]);
        assert forall|j: int| 0 <= j < i - 1 implies a.drop_first()[j] == b.drop_first()[j] by {
            assert(a.drop_first()[j] == a[j + 1]);
            assert(b.drop_first()[j] == b[j + 1]);
        }
        lemma_common_prefix_at_least(a.drop_first(), b.drop_first(), i - 1);
        assert(spec_common_prefix(a, b) == 1 + spec_common_prefix(a.drop_first(), b.drop_first()));
    } else {
        lemma_common_prefix_nonneg(a, b);
    }
}

} // verus!
