// Tests for the scoring calculators and the feed mixer.  Scores and
// multipliers are fixed-point values in thousandths: 1000 is 1.0.

use nurunuru_core::{
    EngagementData, EngagementHistory, RecommendationConfig, RecommendationEngine, ScoredPost,
    StrMap, StringSet, UserProfile,
};

fn make_engine() -> RecommendationEngine {
    RecommendationEngine::new(RecommendationConfig::default())
}

#[test]
fn test_engagement_score_base() {
    let engine = make_engine();
    let data = EngagementData::default();
    // 1.0 in thousandths
    assert_eq!(engine.engagement_score(&data), 1000);
}

#[test]
fn test_engagement_score_weighted() {
    let engine = make_engine();
    let data = EngagementData { likes: 10, zaps: 1, replies: 2, reposts: 1, quotes: 0 };
    // 10*5 + 1*100 + 2*30 + 1*25 + 1 = 236, in thousandths
    assert_eq!(engine.engagement_score(&data), 236_000);
}

#[test]
fn test_geohash_boost_exact() {
    assert_eq!(
        RecommendationEngine::geohash_boost(Some("xn76u"), Some("xn76u")),
        2000
    );
}

#[test]
fn test_geohash_boost_region() {
    assert_eq!(
        RecommendationEngine::geohash_boost(Some("xn76u"), Some("xn7ab")),
        1500
    );
}

#[test]
fn test_geohash_boost_none() {
    assert_eq!(RecommendationEngine::geohash_boost(None, Some("xn76u")), 1000);
}

#[test]
fn test_geohash_boost_country_and_short() {
    assert_eq!(
        RecommendationEngine::geohash_boost(Some("xn76u"), Some("xnabc")),
        1200
    );
    assert_eq!(
        RecommendationEngine::geohash_boost(Some("xn76u"), Some("xa76u")),
        1000
    );
}

#[test]
fn test_muted_post_filtered() {
    let engine = make_engine();
    let mut muted = StringSet::new();
    muted.insert("bad_author".to_string());

    let result = engine.score_post(
        "event1",
        "bad_author",
        0,
        &EngagementData::default(),
        &StringSet::new(),
        &StringSet::new(),
        &StringSet::new(),
        &EngagementHistory::default(),
        &StrMap::<UserProfile>::new(),
        &muted,
        &StringSet::new(),
        &StrMap::<u64>::new(),
        None,
        0,
        0,
    );
    assert!(result.is_none());
}

#[test]
fn test_not_interested_post_filtered() {
    let engine = make_engine();
    let mut not_interested = StringSet::new();
    not_interested.insert("event1".to_string());

    let result = engine.score_post(
        "event1",
        "author",
        0,
        &EngagementData::default(),
        &StringSet::new(),
        &StringSet::new(),
        &StringSet::new(),
        &EngagementHistory::default(),
        &StrMap::<UserProfile>::new(),
        &StringSet::new(),
        &not_interested,
        &StrMap::<u64>::new(),
        None,
        0,
        0,
    );
    assert!(result.is_none());
}

#[test]
fn test_2nd_degree_extraction() {
    let mut my_follows = StringSet::new();
    my_follows.insert("alice".to_string());
    my_follows.insert("bob".to_string());

    let mut fof: Vec<(String, Vec<String>)> = Vec::new();
    fof.push((
        "alice".to_string(),
        vec!["charlie".to_string(), "bob".to_string()],
    ));
    fof.push((
        "bob".to_string(),
        vec!["charlie".to_string(), "dave".to_string()],
    ));

    let result = RecommendationEngine::extract_2nd_degree_network(&my_follows, &fof);
    assert!(result.contains("charlie"));
    assert!(result.contains("dave"));
    assert!(!result.contains("alice"));
    assert!(!result.contains("bob"));
}

#[test]
fn test_time_decay_freshness() {
    let engine = make_engine();
    let now: u64 = 1_700_000_000;
    // half an hour old: the freshness boost, 1.5 in thousandths
    assert_eq!(engine.time_decay(now - 1800, now), 1500);
}

#[test]
fn test_time_decay_beyond_max_age() {
    let engine = make_engine();
    let now: u64 = 1_700_000_000;
    // fifty hours old with a 48-hour cutoff: the floor, 0.1 in thousandths
    assert_eq!(engine.time_decay(now - 50 * 3600, now), 100);
}

#[test]
fn test_time_decay_half_life() {
    let engine = make_engine();
    let now: u64 = 1_700_000_000;
    // one half-life (six hours): 0.5; two: 0.25
    assert_eq!(engine.time_decay(now - 6 * 3600, now), 500);
    assert_eq!(engine.time_decay(now - 12 * 3600, now), 250);
}

#[test]
fn test_social_boost_network_positions() {
    let engine = make_engine();
    let mut follows = StringSet::new();
    follows.insert("f".to_string());
    follows.insert("m".to_string());
    let mut followers = StringSet::new();
    followers.insert("m".to_string());
    let mut second = StringSet::new();
    second.insert("s".to_string());
    let hist = EngagementHistory::default();

    // mutual follow 2.5, first degree 0.5, second degree 3.0, unknown 1.0
    assert_eq!(engine.social_boost("m", &follows, &second, &followers, &hist), 2500);
    assert_eq!(engine.social_boost("f", &follows, &second, &followers, &hist), 500);
    assert_eq!(engine.social_boost("s", &follows, &second, &followers, &hist), 3000);
    assert_eq!(engine.social_boost("x", &follows, &second, &followers, &hist), 1000);
}

#[test]
fn test_social_boost_engagement_thresholds() {
    let engine = make_engine();
    let follows = StringSet::new();
    let followers = StringSet::new();
    let second = StringSet::new();

    // 2 likes + 1 repost = 4 engagement points: neutral
    let mut hist = EngagementHistory::default();
    hist.record_engagement("like", "a");
    hist.record_engagement("like", "a");
    hist.record_engagement("repost", "a");
    assert_eq!(engine.social_boost("a", &follows, &second, &followers, &hist), 1000);

    // one more like: 5 points earns 1.5
    hist.record_engagement("like", "a");
    assert_eq!(engine.social_boost("a", &follows, &second, &followers, &hist), 1500);

    // 1 like + 3 replies = 10 points: the high-engagement boost 2.0
    let mut hist2 = EngagementHistory::default();
    hist2.record_engagement("like", "b");
    hist2.record_engagement("reply", "b");
    hist2.record_engagement("reply", "b");
    hist2.record_engagement("reply", "b");
    assert_eq!(engine.social_boost("b", &follows, &second, &followers, &hist2), 2000);
}

#[test]
fn test_author_quality() {
    let engine = make_engine();
    // no profile, no followers: neutral
    assert_eq!(engine.author_quality(None, 0), 1000);
    // verified identifier: 1.3
    let mut p = UserProfile::default();
    p.nip05 = "alice@example.com".to_string();
    assert_eq!(engine.author_quality(Some(&p), 0), 1300);
    // a hundred followers: 1 + 2 * 0.1 = 1.2
    assert_eq!(engine.author_quality(None, 100), 1200);
    // a hundred thousand followers caps the credibility factor at 1.5
    assert_eq!(engine.author_quality(None, 100_000), 1500);
    // verified and capped: 1.3 * 1.5 = 1.95
    assert_eq!(engine.author_quality(Some(&p), 100_000), 1950);
}

fn post(id: &str, author: &str, created_at: u64) -> (String, String, u64) {
    (id.to_string(), author.to_string(), created_at)
}

#[allow(clippy::too_many_arguments)]
fn rank(
    engine: &RecommendationEngine,
    posts: &Vec<(String, String, u64)>,
    engagements: &StrMap<EngagementData>,
    follows: &StringSet,
    second: &StringSet,
    muted: &StringSet,
    not_interested: &StringSet,
    limit: usize,
    now: u64,
) -> Vec<ScoredPost> {
    engine.rank_feed(
        posts,
        engagements,
        follows,
        second,
        &StringSet::new(),
        &EngagementHistory::default(),
        &StrMap::<UserProfile>::new(),
        muted,
        not_interested,
        &StrMap::<u64>::new(),
        None,
        &StrMap::<u64>::new(),
        limit,
        now,
    )
}

#[test]
fn test_rank_feed_excludes_muted_and_not_interested() {
    let engine = make_engine();
    let now: u64 = 1_700_000_000;
    let posts = vec![
        post("e1", "good", now),
        post("e2", "bad", now),
        post("e3", "good", now),
    ];
    let mut muted = StringSet::new();
    muted.insert("bad".to_string());
    let mut not_interested = StringSet::new();
    not_interested.insert("e3".to_string());

    let result = rank(
        &engine,
        &posts,
        &StrMap::new(),
        &StringSet::new(),
        &StringSet::new(),
        &muted,
        &not_interested,
        10,
        now,
    );
    assert_eq!(result.len(), 1);
    assert_eq!(result[0].event_id, "e1");
}

#[test]
fn test_rank_feed_limit_and_no_duplicates() {
    let engine = make_engine();
    let now: u64 = 1_700_000_000;
    let mut posts = Vec::new();
    let mut engagements = StrMap::new();
    for i in 0..20u64 {
        let id = format!("e{}", i);
        posts.push(post(&id, &format!("a{}", i), now));
        engagements.insert(
            id,
            EngagementData { likes: i, reposts: 0, replies: 0, zaps: 0, quotes: 0 },
        );
    }
    let result = rank(
        &engine,
        &posts,
        &engagements,
        &StringSet::new(),
        &StringSet::new(),
        &StringSet::new(),
        &StringSet::new(),
        7,
        now,
    );
    assert_eq!(result.len(), 7);
    for i in 0..result.len() {
        for j in (i + 1)..result.len() {
            assert_ne!(result[i].event_id, result[j].event_id);
        }
    }
}

#[test]
fn test_rank_feed_sorted_by_score() {
    let engine = make_engine();
    let now: u64 = 1_700_000_000;
    let mut posts = Vec::new();
    let mut engagements = StrMap::new();
    for i in 0..12u64 {
        let id = format!("e{}", i);
        posts.push(post(&id, &format!("a{}", i), now));
        engagements.insert(
            id,
            EngagementData {
                likes: (i * 7) % 12,
                reposts: 0,
                replies: 0,
                zaps: 0,
                quotes: 0,
            },
        );
    }
    let result = rank(
        &engine,
        &posts,
        &engagements,
        &StringSet::new(),
        &StringSet::new(),
        &StringSet::new(),
        &StringSet::new(),
        12,
        now,
    );
    assert_eq!(result.len(), 12);
    for w in result.windows(2) {
        assert!(w[0].score >= w[1].score);
    }
}

#[test]
fn test_rank_feed_quota_and_fill() {
    // limit 10, ratios (0.5, 0.3, 0.2); category sizes: second-degree 3,
    // out-of-network 10, first-degree 1.  Quotas come to (3, 3, 1); the
    // remaining 3 slots fill with the best unselected candidates, which
    // are all out-of-network here.
    let engine = make_engine();
    let now: u64 = 1_700_000_000;
    let mut posts = Vec::new();
    let mut engagements = StrMap::new();
    let mut second = StringSet::new();
    let mut follows = StringSet::new();

    for i in 0..3u64 {
        let id = format!("s{}", i);
        let author = format!("sa{}", i);
        second.insert(author.clone());
        posts.push(post(&id, &author, now));
        engagements.insert(
            id,
            EngagementData { likes: i + 1, reposts: 0, replies: 0, zaps: 0, quotes: 0 },
        );
    }
    for i in 0..10u64 {
        let id = format!("o{}", i);
        posts.push(post(&id, &format!("oa{}", i), now));
        engagements.insert(
            id,
            EngagementData { likes: 10 + i, reposts: 0, replies: 0, zaps: 0, quotes: 0 },
        );
    }
    follows.insert("fa0".to_string());
    posts.push(post("f0", "fa0", now));
    engagements.insert(
        "f0".to_string(),
        EngagementData { likes: 1, reposts: 0, replies: 0, zaps: 0, quotes: 0 },
    );

    let result = rank(
        &engine,
        &posts,
        &engagements,
        &follows,
        &second,
        &StringSet::new(),
        &StringSet::new(),
        10,
        now,
    );
    assert_eq!(result.len(), 10);
    let ids: Vec<&str> = result.iter().map(|p| p.event_id.as_str()).collect();
    // quota picks: all three second-degree posts, the top three
    // out-of-network posts, the single first-degree post
    for want in ["s0", "s1", "s2", "o9", "o8", "o7", "f0"] {
        assert!(ids.contains(&want), "missing quota pick {}", want);
    }
    // fill: the next best unselected candidates are o6, o5, o4
    for want in ["o6", "o5", "o4"] {
        assert!(ids.contains(&want), "missing fill pick {}", want);
    }
    for absent in ["o0", "o1", "o2", "o3"] {
        assert!(!ids.contains(&absent), "unexpected pick {}", absent);
    }
    for w in result.windows(2) {
        assert!(w[0].score >= w[1].score);
    }
}

#[test]
fn test_rank_feed_empty_and_zero_limit() {
    let engine = make_engine();
    let now: u64 = 1_700_000_000;
    let empty = rank(
        &engine,
        &Vec::new(),
        &StrMap::new(),
        &StringSet::new(),
        &StringSet::new(),
        &StringSet::new(),
        &StringSet::new(),
        10,
        now,
    );
    assert!(empty.is_empty());

    let posts = vec![post("e1", "a1", now)];
    let zero = rank(
        &engine,
        &posts,
        &StrMap::new(),
        &StringSet::new(),
        &StringSet::new(),
        &StringSet::new(),
        &StringSet::new(),
        0,
        now,
    );
    assert!(zero.is_empty());
}

#[test]
fn test_record_engagement_counts() {
    let mut hist = EngagementHistory::default();
    hist.record_engagement("like", "a");
    hist.record_engagement("like", "a");
    hist.record_engagement("repost", "a");
    hist.record_engagement("reply", "b");
    hist.record_engagement("bookmark", "a");
    assert_eq!(hist.liked_authors.get("a").copied(), Some(2));
    assert_eq!(hist.reposted_authors.get("a").copied(), Some(1));
    assert_eq!(hist.replied_authors.get("a").copied(), None);
    assert_eq!(hist.replied_authors.get("b").copied(), Some(1));
}
