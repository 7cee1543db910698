//! Configuration of an HAProxy load balancer from instance metadata.
//!
//! Metadata values say which services to offer, and how. The library reads them, renders the
//! configuration files that they ask for, and decides what to do with the files and with the
//! HAProxy service. Running programs and reading and writing files is left to the caller.

pub mod configure;
pub mod designation;
pub mod format;
pub mod laws;
pub mod limits;
pub mod metadata;
pub mod number;
pub mod portmap;
pub mod render;
pub mod service;
pub mod supervision;
pub mod text;

pub use configure::{
    acl_files, candidate_files, configure_step, format_acl, metrics_config, plan_cert_symlink,
    stale_files, validation_report, ConfigFile, ConfigureAction, ConfigureEvent, Metadata,
    SymlinkPlan,
};
pub use designation::{
    parse_and_validate_port, parse_health_check_params, parse_service_parts, parse_service_type,
    HealthCheckParams, ServiceError,
};
pub use limits::{
    CERT_NAME_KEY, DEFAULT_METRICS_PORT, DEFAULT_TIMEOUT_CLIENT, DEFAULT_TIMEOUT_CONNECT,
    DEFAULT_TIMEOUT_QUEUE, DEFAULT_TIMEOUT_SERVER, FULL_CHAIN_PEM_PATH, HAPROXY_BINARY,
    LOADBALANCER_KEY, MAX_BACKENDS_HIGH, MAX_BACKENDS_LOW, MAX_PORT, MAX_RS_KEY, MDATA_GET_PATH,
    METRICS_ACL_KEY, METRICS_PORT_KEY, MIN_PORT, PORTMAP_KEY, REAL_CONFIG_DIR, SYSLOG_KEY,
    TIMEOUTS_KEY,
};
pub use metadata::{
    is_loadbalancer_enabled, metadata_value, parse_max_rs, parse_syslog_endpoint, parse_timeouts,
    timeouts_document, MetadataReply, TimeoutConfig, TimeoutOverrides,
};
pub use portmap::{parse_services, RejectedService};
pub use render::{DefaultsConfig, GlobalConfig, MetricsConfig, Portmap, RenderError};
pub use service::{Service, ServiceType, UnknownServiceType};
pub use supervision::{
    failure_counts, haproxy_action, restart_action, EnsureError, HaproxyAction, InstanceStatus, RestartAction,
    SmfState,
};
