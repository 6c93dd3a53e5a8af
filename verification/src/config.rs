//! Engine configuration.
//!
//! Every tunable is an explicit value passed into the calls that use it, so
//! ranking runs are reproducible.  Fractional tunables are fixed-point
//! numbers: multipliers, weights and mix ratios in milli-units (`1000` is a
//! multiplier of one), decay times in milli-hours, delays in milliseconds
//! and cache lifetimes in seconds.

use vstd::prelude::*;

use crate::types::FeedMixRatio;

verus! {

/// Full configuration for the engine.
#[derive(Clone)]
pub struct NuruNuruConfig {
    pub relay: RelayConfig,
    pub cache: CacheConfig,
    pub recommendation: RecommendationConfig,
    pub db_path: String,
}

impl Default for NuruNuruConfig {
    /// Default relay, cache and recommendation settings with a local
    /// database directory.
    fn default() -> (r: NuruNuruConfig)
        ensures
            r.recommendation == RecommendationConfig::spec_default(),
            r.db_path@ == "./nurunuru-db"@,
    {
        NuruNuruConfig {
            relay: RelayConfig::default(),
            cache: CacheConfig::default(),
            recommendation: RecommendationConfig::default(),
            db_path: "./nurunuru-db".to_owned(),
        }
    }
}

/// Relay connection settings.  Timeouts are in milliseconds.
#[derive(Clone)]
pub struct RelayConfig {
    /// Primary relay URL.
    pub default_relay: String,
    /// Fallback relays when the primary fails.
    pub fallback_relays: Vec<String>,
    /// Full-text search relay.
    pub search_relay: String,
    /// Maximum concurrent requests across all relays.
    pub max_concurrent_requests: usize,
    /// Request timeout in milliseconds.
    pub request_timeout: u64,
    /// End-of-stored-events timeout in milliseconds.
    pub eose_timeout: u64,
    /// Retry configuration.
    pub retry: RetryConfig,
}

impl Default for RelayConfig {
    /// The stock relay set and fifteen-second timeouts.
    fn default() -> (r: RelayConfig)
        ensures
            r.default_relay@ == "wss://yabu.me"@,
            r.fallback_relays@.len() == 3,
            r.fallback_relays@[0]@ == "wss://relay-jp.nostr.wirednet.jp"@,
            r.fallback_relays@[1]@ == "wss://r.kojira.io"@,
            r.fallback_relays@[2]@ == "wss://relay.damus.io"@,
            r.search_relay@ == "wss://search.nos.today"@,
            r.max_concurrent_requests == 4,
            r.request_timeout == 15000,
            r.eose_timeout == 15000,
            r.retry == RetryConfig::spec_default(),
    {
        let mut fallback_relays: Vec<String> = Vec::new();
        fallback_relays.push("wss://relay-jp.nostr.wirednet.jp".to_owned());
        fallback_relays.push("wss://r.kojira.io".to_owned());
        fallback_relays.push("wss://relay.damus.io".to_owned());
        RelayConfig {
            default_relay: "wss://yabu.me".to_owned(),
            fallback_relays,
            search_relay: "wss://search.nos.today".to_owned(),
            max_concurrent_requests: 4,
            request_timeout: 15000,
            eose_timeout: 15000,
            retry: RetryConfig::default(),
        }
    }
}

/// Retry and backoff settings.  Delays are in milliseconds, the jitter
/// fraction in milli-units.
#[derive(Clone, Copy, PartialEq, Eq, Structural)]
pub struct RetryConfig {
    pub max_attempts: u32,
    pub base_delay: u64,
    pub max_delay: u64,
    pub jitter: u64,
}

impl RetryConfig {
    /// The default retry settings: three attempts, half-second base delay,
    /// ten-second cap, three-tenths jitter.
    pub open spec fn spec_default() -> RetryConfig {
        RetryConfig { max_attempts: 3, base_delay: 500, max_delay: 10000, jitter: 300 }
    }
}

impl Default for RetryConfig {
    fn default() -> (r: RetryConfig)
        ensures
            r == RetryConfig::spec_default(),
    {
        RetryConfig { max_attempts: 3, base_delay: 500, max_delay: 10000, jitter: 300 }
    }
}

/// Cache lifetime configuration, in seconds.
#[derive(Clone, Copy, PartialEq, Eq, Structural)]
pub struct CacheConfig {
    pub profile_ttl: u64,
    pub mute_list_ttl: u64,
    pub follow_list_ttl: u64,
    pub emoji_ttl: u64,
    pub timeline_ttl: u64,
    pub nip05_ttl: u64,
    pub relay_info_ttl: u64,
    /// Maximum profiles held in the hot in-memory cache.
    pub max_hot_profiles: usize,
    /// Maximum timeline entries held in the hot cache.
    pub max_hot_timeline: usize,
}

impl CacheConfig {
    /// The default cache lifetimes.
    pub open spec fn spec_default() -> CacheConfig {
        CacheConfig {
            profile_ttl: 300,
            mute_list_ttl: 600,
            follow_list_ttl: 600,
            emoji_ttl: 1800,
            timeline_ttl: 30,
            nip05_ttl: 300,
            relay_info_ttl: 3600,
            max_hot_profiles: 500,
            max_hot_timeline: 100,
        }
    }
}

impl Default for CacheConfig {
    fn default() -> (r: CacheConfig)
        ensures
            r == CacheConfig::spec_default(),
    {
        CacheConfig {
            profile_ttl: 300,
            mute_list_ttl: 600,
            follow_list_ttl: 600,
            emoji_ttl: 1800,
            timeline_ttl: 30,
            nip05_ttl: 300,
            relay_info_ttl: 3600,
            max_hot_profiles: 500,
            max_hot_timeline: 100,
        }
    }
}

/// Recommendation tuning parameters.
#[derive(Clone, Copy, PartialEq, Eq, Structural)]
pub struct RecommendationConfig {
    pub engagement_weights: EngagementWeights,
    pub social_boost: SocialBoostConfig,
    pub time_decay: TimeDecayConfig,
    pub feed_mix: FeedMixRatio,
}

impl RecommendationConfig {
    /// The default tuning: stock weights, boosts, decay and mix.
    pub open spec fn spec_default() -> RecommendationConfig {
        RecommendationConfig {
            engagement_weights: EngagementWeights::spec_default(),
            social_boost: SocialBoostConfig::spec_default(),
            time_decay: TimeDecayConfig::spec_default(),
            feed_mix: FeedMixRatio { second_degree: 500, out_of_network: 300, first_degree: 200 },
        }
    }
}

impl Default for RecommendationConfig {
    fn default() -> (r: RecommendationConfig)
        ensures
            r == RecommendationConfig::spec_default(),
    {
        RecommendationConfig {
            engagement_weights: EngagementWeights::default(),
            social_boost: SocialBoostConfig::default(),
            time_decay: TimeDecayConfig::default(),
            feed_mix: FeedMixRatio::default(),
        }
    }
}

/// Engagement weights in milli-units: how much one reaction of each kind
/// contributes to the engagement score.
#[derive(Clone, Copy, PartialEq, Eq, Structural)]
pub struct EngagementWeights {
    pub zap: u64,
    pub reply: u64,
    pub repost: u64,
    pub like: u64,
    pub quote: u64,
    /// Reserved: not referenced by the current scoring formula.
    pub bookmark: u64,
}

impl EngagementWeights {
    /// The default weights: a zap counts one hundred units, a reply thirty,
    /// a repost twenty-five, a like five, a quote thirty-five.
    pub open spec fn spec_default() -> EngagementWeights {
        EngagementWeights {
            zap: 100000,
            reply: 30000,
            repost: 25000,
            like: 5000,
            quote: 35000,
            bookmark: 15000,
        }
    }
}

impl Default for EngagementWeights {
    fn default() -> (r: EngagementWeights)
        ensures
            r == EngagementWeights::spec_default(),
    {
        EngagementWeights {
            zap: 100000,
            reply: 30000,
            repost: 25000,
            like: 5000,
            quote: 35000,
            bookmark: 15000,
        }
    }
}

/// Social boost multipliers in milli-units.
#[derive(Clone, Copy, PartialEq, Eq, Structural)]
pub struct SocialBoostConfig {
    pub second_degree: u64,
    pub mutual_follow: u64,
    pub high_engagement_author: u64,
    pub first_degree: u64,
    pub unknown: u64,
}

impl SocialBoostConfig {
    /// The default boosts.  Direct follows are deliberately down-weighted
    /// below neutral to favor discovery content.
    pub open spec fn spec_default() -> SocialBoostConfig {
        SocialBoostConfig {
            second_degree: 3000,
            mutual_follow: 2500,
            high_engagement_author: 2000,
            first_degree: 500,
            unknown: 1000,
        }
    }
}

impl Default for SocialBoostConfig {
    fn default() -> (r: SocialBoostConfig)
        ensures
            r == SocialBoostConfig::spec_default(),
    {
        SocialBoostConfig {
            second_degree: 3000,
            mutual_follow: 2500,
            high_engagement_author: 2000,
            first_degree: 500,
            unknown: 1000,
        }
    }
}

/// Time decay parameters.  Ages are in milli-hours, multipliers in
/// milli-units.
#[derive(Clone, Copy, PartialEq, Eq, Structural)]
pub struct TimeDecayConfig {
    /// Milli-hours until a score halves.
    pub half_life_hours: u64,
    /// Age in milli-hours beyond which posts score the minimum.
    pub max_age_hours: u64,
    /// Boost multiplier for posts under one hour old.
    pub freshness_boost: u64,
    /// Multiplier for posts older than the maximum age.
    pub min_score: u64,
}

impl TimeDecayConfig {
    /// The default decay: six-hour half-life, two-day cutoff, one-and-a-half
    /// freshness boost, one-tenth floor.
    pub open spec fn spec_default() -> TimeDecayConfig {
        TimeDecayConfig {
            half_life_hours: 6000,
            max_age_hours: 48000,
            freshness_boost: 1500,
            min_score: 100,
        }
    }
}

impl Default for TimeDecayConfig {
    fn default() -> (r: TimeDecayConfig)
        ensures
            r == TimeDecayConfig::spec_default(),
    {
        TimeDecayConfig {
            half_life_hours: 6000,
            max_age_hours: 48000,
            freshness_boost: 1500,
            min_score: 100,
        }
    }
}

} // verus!
