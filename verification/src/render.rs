//! The text of the HAProxy configuration files.

use crate::limits::FULL_CHAIN_PEM_PATH;
use crate::metadata::TimeoutConfig;
use crate::number;
use crate::portmap;
use crate::service;
use crate::service::{Service, ServiceType, ServiceView};
use vstd::prelude::*;

verus! {

/// A failure to render. Rendering into memory always succeeds, so callers never see one.
#[derive(Debug)]
pub struct RenderError;

/// The lines that every configuration file starts with.
pub open spec fn banner() -> Seq<char> {
    "#                                                  #\n# ## DO NOT EDIT. THIS FILE WILL BE OVERWRITTEN ## #\n#                                                  #\n"@
}

/// The banner as a text to write behind.
fn start_file() -> (out: String)
    ensures
        out@ == banner(),
{
    "#                                                  #\n# ## DO NOT EDIT. THIS FILE WILL BE OVERWRITTEN ## #\n#                                                  #\n".to_owned()
}

/// The services to offer, and the number of backend servers to make room for in each.
pub struct Portmap {
    pub services: Vec<Service>,
    pub max_backends: usize,
}

/// The end of a `bind` line: clients of a TLS service are shown the certificate chain.
pub open spec fn bind_options(t: ServiceType) -> Seq<char> {
    if service::has_frontend_tls(t) {
        " ssl crt "@ + FULL_CHAIN_PEM_PATH@
    } else {
        Seq::empty()
    }
}

/// The lines that tie a client to a backend server, in a layer 7 service.
pub open spec fn cookie_lines(s: ServiceView) -> Seq<char> {
    if service::is_layer4(s.service_type) {
        Seq::empty()
    } else {
        "\tcookie CLOUD-TRITONCOMPUTE-RS insert indirect nocache dynamic\n\tdynamic-cookie-key "@
            + service::cookie_key(s) + "\n"@
    }
}

/// The lines that make a health check ask for a path.
pub open spec fn check_lines(endpoint: Option<Seq<char>>) -> Seq<char> {
    match endpoint {
        Some(path) => "\toption httpchk GET "@ + path + "\n\thttp-check expect status 200\n"@,
        None => Seq::empty(),
    }
}

/// How the backend servers are spoken to, on a `server-template` line.
pub open spec fn backend_options(t: ServiceType) -> Seq<char> {
    match t {
        ServiceType::Https =>
            " ssl verify required ca-file /opt/local/share/mozilla-rootcerts/cacert.pem"@,
        ServiceType::HttpsInsecure => " ssl verify none"@,
        ServiceType::TcpProxyV2 => " send-proxy-v2"@,
        _ => Seq::empty(),
    }
}

/// `label` and a number, where there is one.
pub open spec fn numbered(label: Seq<char>, n: Option<u16>) -> Seq<char> {
    match n {
        Some(n) => label + number::decimal(n as nat),
        None => Seq::empty(),
    }
}

/// The front end and the back end of service `s`, the one at position `i`.
pub open spec fn service_text(i: nat, s: ServiceView, max_backends: nat) -> Seq<char> {
    "\nfrontend fe"@ + number::decimal(i) + "\n\tmode "@ + service::protocol_name(
        service::mode_of(s.service_type),
    ) + "\n\tbind *:"@ + number::decimal(s.listen_port as nat) + bind_options(s.service_type)
        + "\n\tdefault_backend be"@ + number::decimal(i) + "\n\nbackend be"@ + number::decimal(i)
        + "\n\tmode "@ + service::protocol_name(service::mode_of(s.service_type)) + "\n"@
        + cookie_lines(s) + check_lines(s.http_check_endpoint) + "\tserver-template rs "@
        + number::decimal(max_backends) + " "@ + s.backend_name + service::port_suffix(
        s.backend_port,
    ) + backend_options(s.service_type) + " check"@ + numbered(" port "@, s.check_port) + numbered(
        " rise "@,
        s.check_rise,
    ) + numbered(" fall "@, s.check_fall) + " resolvers system init-addr none\n"@
}

/// The front ends and back ends of `services`, numbered from zero.
pub open spec fn services_text(services: Seq<ServiceView>, max_backends: nat) -> Seq<char>
    decreases services.len(),
{
    if services.len() == 0 {
        Seq::empty()
    } else {
        services_text(services.drop_last(), max_backends) + service_text(
            (services.len() - 1) as nat,
            services.last(),
            max_backends,
        )
    }
}

/// The file that offers `services`, with room for `max_backends` backend servers in each.
pub open spec fn portmap_text(services: Seq<ServiceView>, max_backends: nat) -> Seq<char> {
    banner() + services_text(services, max_backends)
}

fn render_bind_options(s: &Service) -> (out: String)
    ensures
        out@ == bind_options(s.service_type),
{
    if s.frontend_ssl() {
        let mut out = " ssl crt ".to_owned();
        out.append(FULL_CHAIN_PEM_PATH);
        out
    } else {
        String::new()
    }
}

fn render_cookie_lines(s: &Service) -> (out: String)
    ensures
        out@ == cookie_lines(s@),
{
    if s.use_sticky_session() {
        let mut out = "\tcookie CLOUD-TRITONCOMPUTE-RS insert indirect nocache dynamic\n\tdynamic-cookie-key ".to_owned();
        out.append(s.dynamic_cookie_key().as_str());
        out.append("\n");
        out
    } else {
        String::new()
    }
}

fn render_check_lines(s: &Service) -> (out: String)
    ensures
        out@ == check_lines(s@.http_check_endpoint),
{
    if s.http_check() {
        let mut out = "\toption httpchk GET ".to_owned();
        out.append(s.http_check_endpoint().as_str());
        out.append("\n\thttp-check expect status 200\n");
        out
    } else {
        String::new()
    }
}

fn render_backend_options(s: &Service) -> (out: &'static str)
    ensures
        out@ == backend_options(s.service_type),
{
    if s.backend_ssl_verify() {
        " ssl verify required ca-file /opt/local/share/mozilla-rootcerts/cacert.pem"
    } else if s.backend_ssl() {
        " ssl verify none"
    } else if s.sends_proxy_v2() {
        " send-proxy-v2"
    } else {
        proof {
            reveal_strlit("");
        }
        assert(""@ =~= Seq::<char>::empty());
        ""
    }
}

fn render_numbered(label: &str, n: Option<u16>) -> (out: String)
    ensures
        out@ == numbered(label@, n),
{
    match n {
        Some(n) => {
            let mut out = label.to_owned();
            number::push_decimal(&mut out, n as u64);
            out
        },
        None => String::new(),
    }
}

fn render_service(i: usize, s: &Service, max_backends: usize) -> (out: String)
    ensures
        out@ == service_text(i as nat, s@, max_backends as nat),
{
    let mut out = "\nfrontend fe".to_owned();
    number::push_decimal(&mut out, i as u64);
    out.append("\n\tmode ");
    out.append(s.service_type.mode().as_str());
    out.append("\n\tbind *:");
    number::push_decimal(&mut out, s.listen_port as u64);
    out.append(render_bind_options(s).as_str());
    out.append("\n\tdefault_backend be");
    number::push_decimal(&mut out, i as u64);
    out.append("\n\nbackend be");
    number::push_decimal(&mut out, i as u64);
    out.append("\n\tmode ");
    out.append(s.service_type.mode().as_str());
    out.append("\n");
    out.append(render_cookie_lines(s).as_str());
    out.append(render_check_lines(s).as_str());
    out.append("\tserver-template rs ");
    number::push_decimal(&mut out, max_backends as u64);
    out.append(" ");
    out.append(s.backend_name.as_str());
    out.append(s.backend_port_str().as_str());
    out.append(render_backend_options(s));
    out.append(" check");
    out.append(render_numbered(" port ", s.check_port).as_str());
    out.append(render_numbered(" rise ", s.check_rise).as_str());
    out.append(render_numbered(" fall ", s.check_fall).as_str());
    out.append(" resolvers system init-addr none\n");
    out
}

impl Portmap {
    /// The file that offers these services.
    pub open spec fn file_text(self) -> Seq<char> {
        portmap_text(portmap::service_views(self.services@), self.max_backends as nat)
    }

    /// The file that offers these services.
    pub fn render(&self) -> (r: Result<String, RenderError>)
        ensures
            r matches Ok(out) && out@ == self.file_text(),
    {
        let mut out = start_file();
        let n: usize = self.services.len();
        let ghost all = portmap::service_views(self.services@);
        let mut i: usize = 0;
        assert(out@ =~= banner() + services_text(all.take(0), self.max_backends as nat));
        while i < n
            invariant
                n == self.services@.len(),
                i <= n,
                all == portmap::service_views(self.services@),
                out@ == banner() + services_text(all.take(i as int), self.max_backends as nat),
            decreases n - i,
        {
            let block = render_service(i, &self.services[i], self.max_backends);
            out.append(block.as_str());
            assert(all.take(i + 1).drop_last() == all.take(i as int));
            assert(out@ =~= banner() + services_text(all.take(i + 1), self.max_backends as nat));
            i += 1;
        }
        assert(all.take(n as int) == all);
        Ok(out)
    }
}

/// The front end that serves metrics.
pub struct MetricsConfig {
    pub metrics_port: u16,
}

/// The file that serves metrics on `port`, to the addresses in the ACL file only.
pub open spec fn metrics_text(port: u16) -> Seq<char> {
    banner() + "frontend __cloud_tritoncompute__metrics\n  bind *:"@ + number::decimal(port as nat)
        + "\n  mode http\n  http-request deny if !{ src -f 210-metrics_acl.txt }\n  http-request use-service prometheus-exporter if { path /metrics }\n  no log\n"@
}

impl MetricsConfig {
    /// The file that serves metrics.
    pub open spec fn file_text(self) -> Seq<char> {
        metrics_text(self.metrics_port)
    }

    /// The file that serves metrics.
    pub fn render(&self) -> (r: Result<String, RenderError>)
        ensures
            r matches Ok(out) && out@ == self.file_text(),
    {
        let mut out = start_file();
        out.append("frontend __cloud_tritoncompute__metrics\n  bind *:");
        number::push_decimal(&mut out, self.metrics_port as u64);
        out.append(
            "\n  mode http\n  http-request deny if !{ src -f 210-metrics_acl.txt }\n  http-request use-service prometheus-exporter if { path /metrics }\n  no log\n",
        );
        Ok(out)
    }
}

/// The global section: where to log.
pub struct GlobalConfig {
    pub syslog_endpoint: Option<String>,
}

/// The file of the global section. Logs go to the local syslog and, with the host name in them, to
/// the endpoint where there is one.
pub open spec fn global_text(endpoint: Option<Seq<char>>) -> Seq<char> {
    match endpoint {
        Some(endpoint) => banner() + "global\n\tlog 127.0.0.1 len 4096 local0\n"@ + "\tlog "@
            + endpoint + " len 4096 local0\n\tlog-send-hostname\n"@,
        None => banner() + "global\n\tlog 127.0.0.1 len 4096 local0\n"@,
    }
}

impl GlobalConfig {
    /// The file of the global section.
    pub open spec fn file_text(self) -> Seq<char> {
        global_text(service::optional_text(self.syslog_endpoint))
    }

    /// The file of the global section.
    pub fn render(&self) -> (r: Result<String, RenderError>)
        ensures
            r matches Ok(out) && out@ == self.file_text(),
    {
        let mut out = start_file();
        out.append("global\n\tlog 127.0.0.1 len 4096 local0\n");
        match &self.syslog_endpoint {
            Some(endpoint) => {
                out.append("\tlog ");
                out.append(endpoint.as_str());
                out.append(" len 4096 local0\n\tlog-send-hostname\n");
            },
            None => {},
        }
        Ok(out)
    }
}

/// The defaults section: that layer 7 services tell their backend servers who the client is, in
/// an `X-Forwarded-For` header, and the timeouts.
pub struct DefaultsConfig {
    pub timeouts: TimeoutConfig,
}

impl DefaultsConfig {
    /// The file of the defaults section.
    pub open spec fn file_text(self) -> Seq<char> {
        banner() + "defaults\n\toption forwardfor\n\ttimeout queue   "@ + number::decimal(
            self.timeouts.queue as nat,
        ) + "\n\ttimeout connect "@ + number::decimal(self.timeouts.connect as nat)
            + "\n\ttimeout client  "@ + number::decimal(self.timeouts.client as nat)
            + "\n\ttimeout server  "@ + number::decimal(self.timeouts.server as nat) + "\n"@
    }

    /// The file of the defaults section.
    pub fn render(&self) -> (r: Result<String, RenderError>)
        ensures
            r matches Ok(out) && out@ == self.file_text(),
    {
        let mut out = start_file();
        out.append("defaults\n\toption forwardfor\n\ttimeout queue   ");
        number::push_decimal(&mut out, self.timeouts.queue as u64);
        out.append("\n\ttimeout connect ");
        number::push_decimal(&mut out, self.timeouts.connect as u64);
        out.append("\n\ttimeout client  ");
        number::push_decimal(&mut out, self.timeouts.client as u64);
        out.append("\n\ttimeout server  ");
        number::push_decimal(&mut out, self.timeouts.server as u64);
        out.append("\n");
        Ok(out)
    }
}

/// Services that are added behind others leave the text of those as it is.
pub proof fn added_services_leave_the_others(
    a: Seq<ServiceView>,
    b: Seq<ServiceView>,
    max_backends: nat,
)
    ensures
        portmap_text(a, max_backends).is_prefix_of(portmap_text(a + b, max_backends)),
    decreases b.len(),
{
    let whole = portmap_text(a + b, max_backends);
    let first = portmap_text(a, max_backends);
    if b.len() == 0 {
        assert(a + b =~= a);
        assert(whole.subrange(0, first.len() as int) =~= first);
    } else {
        added_services_leave_the_others(a, b.drop_last(), max_backends);
        assert((a + b).drop_last() =~= a + b.drop_last());
        let shorter = portmap_text(a + b.drop_last(), max_backends);
        let added = service_text((a.len() + b.len() - 1) as nat, b.last(), max_backends);
        assert((a + b).last() == b.last());
        assert(whole =~= shorter + added);
        assert(first =~= shorter.subrange(0, first.len() as int));
        assert(first =~= whole.subrange(0, first.len() as int));
    }
}

} // verus!
