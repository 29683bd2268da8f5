//! The recognised configuration options.

use crate::json::Decimal;
use vstd::prelude::*;

verus! {

/// Where the HTTP surface listens.
#[derive(Debug, Clone)]
pub struct HttpConfig {
    pub address: String,
    pub port: String,
}

/// The identity of this buyer-side participant on the network.
#[derive(Debug, Clone)]
pub struct Bap {
    pub id: String,
    pub caller_uri: String,
    pub bap_uri: String,
    pub domain: String,
    pub version: String,
    pub ttl: String,
}

/// The identity of this participant in its seller-side role for profiles.
#[derive(Debug, Clone)]
pub struct Bpp {
    pub id: String,
    pub caller_uri: String,
    pub catalog_name: String,
}

#[derive(Debug, Clone)]
pub struct RedisConfig {
    pub url: String,
}

#[derive(Debug, Clone)]
pub struct DbConfig {
    pub url: String,
}

/// Lifetimes of the entries in the transient store, in seconds.
#[derive(Debug, Clone)]
pub struct CacheConfig {
    pub result_ttl_secs: u64,
    pub txn_ttl_secs: u64,
    pub throttle_secs: u64,
}

/// The period of a recurring job, in seconds.
#[derive(Debug, Clone)]
pub struct JobSchedule {
    pub seconds: u64,
}

/// The embedding provider.
#[derive(Debug, Clone)]
pub struct GcpConfig {
    pub project_id: String,
    pub model: String,
    pub auth_token: String,
}

/// One field that contributes to an embedding text, and how often.
#[derive(Debug, Clone)]
pub struct FieldWeight {
    pub path: String,
    pub weight: usize,
    pub label: Option<String>,
    pub is_array: bool,
}

#[derive(Debug, Clone)]
pub struct EmbeddingWeights {
    pub job: Vec<FieldWeight>,
    pub profile: Vec<FieldWeight>,
}

/// How a scoring rule compares a profile with a job.
#[derive(Debug, Clone, Copy, PartialEq, Eq, Structural)]
pub enum MatchMode {
    /// By the meaning of the text: the field goes into the embedding.
    Embed,
    /// By number: the profile's value against the job's bounds.
    Manual,
}

/// One rule of the scoring field map.
#[derive(Debug, Clone)]
pub struct MetaDataMatch {
    pub name: String,
    pub profile_path: String,
    pub job_path: String,
    pub job_path_min: Option<String>,
    pub job_path_max: Option<String>,
    pub weight: Option<usize>,
    pub is_array: bool,
    pub match_mode: MatchMode,
    /// The factor applied on a mismatch.
    pub penalty: Decimal,
    /// The factor applied on a match within bounds.
    pub bonus: Option<Decimal>,
}

/// Whether notifications go out weekly or monthly.
#[derive(Debug, Clone, Copy, PartialEq, Eq, Structural)]
pub enum ScheduleType {
    Weekly,
    Monthly,
}

/// When notifications go out.
#[derive(Debug, Clone)]
pub struct NotificationSchedule {
    pub schedule_type: ScheduleType,
    pub weekday: Option<u8>,
    pub day: Option<u8>,
    pub hour: u8,
    pub minute: u8,
    pub seconds: u8,
}

/// The notification job.
#[derive(Debug, Clone)]
pub struct NotificationConfig {
    pub min_score: i16,
    pub batch: usize,
    pub schedule: NotificationSchedule,
}

/// The match-score job.
#[derive(Debug, Clone)]
pub struct MatchScoreConfig {
    pub source: String,
    pub batch: usize,
}

#[derive(Debug, Clone)]
pub struct CronConfig {
    pub fetch_jobs: JobSchedule,
    pub fetch_profiles: JobSchedule,
    pub compute_match_scores: MatchScoreConfig,
    pub notification: NotificationConfig,
}

#[derive(Debug, Clone)]
pub struct BackendServiceConfig {
    pub base_url: String,
    pub api_key: String,
}

/// The downstream notifier.
#[derive(Debug, Clone)]
pub struct NotificationServiceConfig {
    pub base_url: String,
    pub content_sid: String,
    pub ns_key_id: String,
    pub ns_secret: String,
}

#[derive(Debug, Clone)]
pub struct ServicesConfig {
    pub seeker: BackendServiceConfig,
    pub notification: NotificationServiceConfig,
}

#[derive(Debug, Clone)]
pub struct AuthConfig {
    pub x_api_key: String,
}

#[derive(Debug, Clone)]
pub struct AppConfig {
    pub debug: bool,
    pub bap: Bap,
    pub bpp: Bpp,
    pub http: HttpConfig,
    pub redis: RedisConfig,
    pub db: DbConfig,
    pub cache: CacheConfig,
    pub cron: CronConfig,
    pub gcp: GcpConfig,
    pub match_score_path: String,
    pub metadata_match: Vec<MetaDataMatch>,
    pub services: ServicesConfig,
    pub auth: AuthConfig,
}

impl CacheConfig {
    /// The lifetimes in use where none are configured.
    pub fn standard() -> (out: CacheConfig)
        ensures
            out.result_ttl_secs == 300,
            out.txn_ttl_secs == 300,
            out.throttle_secs == 60,
    {
        CacheConfig { result_ttl_secs: 300, txn_ttl_secs: 300, throttle_secs: 60 }
    }
}

} // verus!
