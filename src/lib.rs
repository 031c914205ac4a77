//! Routing and affinity engine of a failover reverse proxy for AI coding
//! assistants: a time-to-live affinity store, provider resolution, the
//! per-request failover state machine and the header rules of one forwarding
//! attempt.
pub mod affinity;
pub mod digest;
pub mod forward;
pub mod netaddr;
pub mod provider;
pub mod registry;
pub mod routing;
pub mod text;

pub use affinity::{CacheAffinity, CacheAffinityManager};
pub use digest::hash_string;
pub use provider::{
    default_enabled, PlatformConfig, PlatformConfigList, Provider, ProviderConfig, ProviderConfigError,
    ProviderMapConfig,
};
pub use registry::{flatten_providers, provider_id, provider_label, providers_for_kind, ResolvedProvider};
pub use routing::{extract_user_id, request_model, RouteAction, RouteError, RouteSession};
