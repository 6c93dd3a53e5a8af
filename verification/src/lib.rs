//! Feed ranking and relay selection engine for a decentralized social client.
//!
//! The library scores candidate posts from engagement, social-graph,
//! author-quality, geographic, personalization and freshness signals,
//! mixes the scored candidates across discovery categories into a bounded,
//! score-ordered feed, and ranks relay nodes by priority and distance.
//!
//! All multipliers and scores are fixed-point numbers held in thousandths
//! (milli-units), so that every computation is exact integer arithmetic.

pub mod collections;
pub mod config;
pub mod engagement;
pub mod fixed;
pub mod profile;
pub mod recommendation;
pub mod relay;
pub mod types;
pub mod validation;

pub use collections::{StrMap, StringSet};
pub use config::{
    CacheConfig, EngagementWeights, NuruNuruConfig, RecommendationConfig, RelayConfig, RetryConfig,
    SocialBoostConfig, TimeDecayConfig,
};
pub use engagement::accumulate_engagement;
pub use fixed::{add_sat, mul_milli, mul_sat};
pub use profile::parse_profile_content;
pub use recommendation::RecommendationEngine;
pub use relay::{
    build_relay_list, filter_valid_relays, find_nearest_relays, gps_relay_database,
    is_valid_relay_url, GpsRelay,
};
pub use types::{
    format_timestamp_ja, AuthorStats, BadgeAward, BadgeDefinition, BirdwatchLabel,
    ConnectionStats, EngagementData, EngagementHistory, FeedMixRatio, RelayInfo, ScoredPost,
    SocialContext, TimelineResult, UserProfile,
};
pub use validation::{escape_html, sanitize_text, strip_html_tags};
