//! Limits, names and paths.

use vstd::prelude::*;

verus! {

/// The least port that a service may use.
pub const MIN_PORT: u16 = 1;

/// The greatest port that a service may use.
pub const MAX_PORT: u16 = 65534;

/// The port for metrics, where none is asked for.
pub const DEFAULT_METRICS_PORT: u16 = 8405;

/// The least number of backend servers to make room for.
pub const MAX_BACKENDS_LOW: usize = 32;

/// The greatest number of backend servers to make room for.
pub const MAX_BACKENDS_HIGH: usize = 1024;

/// The metadata key of the port map.
pub const PORTMAP_KEY: &'static str = "cloud.tritoncompute:portmap";

/// The metadata key of the number of backend servers.
pub const MAX_RS_KEY: &'static str = "cloud.tritoncompute:max_rs";

/// The metadata key of the addresses that may read metrics.
pub const METRICS_ACL_KEY: &'static str = "cloud.tritoncompute:metrics_acl";

/// The metadata key of the port for metrics.
pub const METRICS_PORT_KEY: &'static str = "cloud.tritoncompute:metrics_port";

/// The metadata key of the certificate name.
pub const CERT_NAME_KEY: &'static str = "cloud.tritoncompute:certificate_name";

/// The metadata key of the flag that makes an instance a load balancer.
pub const LOADBALANCER_KEY: &'static str = "cloud.tritoncompute:loadbalancer";

/// The metadata key of the syslog endpoint.
pub const SYSLOG_KEY: &'static str = "cloud.tritoncompute:syslog";

/// The metadata key of the timeouts.
pub const TIMEOUTS_KEY: &'static str = "cloud.tritoncompute:timeouts";

/// The certificate chain that TLS front ends show.
pub const FULL_CHAIN_PEM_PATH: &'static str = "/opt/triton/tls/default/fullchain.pem";

/// The directory of the live HAProxy configuration.
pub const REAL_CONFIG_DIR: &'static str = "/opt/local/etc/haproxy.cfg";

/// The HAProxy program.
pub const HAPROXY_BINARY: &'static str = "/opt/local/sbin/haproxy";

/// The program that reads metadata.
pub const MDATA_GET_PATH: &'static str = "/usr/sbin/mdata-get";

/// Milliseconds in the queue for a connection slot, where nothing else is asked for.
pub const DEFAULT_TIMEOUT_QUEUE: u32 = 0;

/// Milliseconds for a connection to a backend server, where nothing else is asked for.
pub const DEFAULT_TIMEOUT_CONNECT: u32 = 2000;

/// Milliseconds of client inactivity, where nothing else is asked for.
pub const DEFAULT_TIMEOUT_CLIENT: u32 = 55000;

/// Milliseconds for a server's response, where nothing else is asked for.
pub const DEFAULT_TIMEOUT_SERVER: u32 = 120000;

} // verus!
