//! Services that the load balancer offers.

use crate::number;
use crate::text::same_text;
use std::hash::{DefaultHasher, Hasher};
use vstd::prelude::*;

verus! {

/// How a service speaks to its clients and to its backend servers.
#[derive(Clone, Copy, Debug, PartialEq, Eq, Structural, Hash)]
pub enum ServiceType {
    /// Layer 7; no TLS on either side.
    Http,
    /// Layer 7; TLS on both sides, and the backend certificate is verified.
    Https,
    /// Layer 7; TLS on both sides, and the backend certificate is not verified.
    HttpsInsecure,
    /// Layer 7; TLS towards clients only.
    HttpsHttp,
    /// Layer 4.
    Tcp,
    /// Layer 4, with PROXY protocol v2 headers towards the backend.
    TcpProxyV2,
}

/// A text that names no service type.
#[derive(Clone, Copy, Debug, PartialEq, Eq)]
pub struct UnknownServiceType;

/// The name of a service type, as it stands in a service designation.
pub open spec fn protocol_name(t: ServiceType) -> Seq<char> {
    match t {
        ServiceType::Http => "http"@,
        ServiceType::Https => "https"@,
        ServiceType::HttpsInsecure => "https+insecure"@,
        ServiceType::HttpsHttp => "https-http"@,
        ServiceType::Tcp => "tcp"@,
        ServiceType::TcpProxyV2 => "tcp-proxy-v2"@,
    }
}

/// The service type that `name` names.
pub open spec fn protocol_named(name: Seq<char>) -> Option<ServiceType> {
    if name == protocol_name(ServiceType::Http) {
        Some(ServiceType::Http)
    } else if name == protocol_name(ServiceType::Https) {
        Some(ServiceType::Https)
    } else if name == protocol_name(ServiceType::HttpsInsecure) {
        Some(ServiceType::HttpsInsecure)
    } else if name == protocol_name(ServiceType::HttpsHttp) {
        Some(ServiceType::HttpsHttp)
    } else if name == protocol_name(ServiceType::Tcp) {
        Some(ServiceType::Tcp)
    } else if name == protocol_name(ServiceType::TcpProxyV2) {
        Some(ServiceType::TcpProxyV2)
    } else {
        None
    }
}

/// A layer 4 service type.
pub open spec fn is_layer4(t: ServiceType) -> bool {
    t == ServiceType::Tcp || t == ServiceType::TcpProxyV2
}

/// The proxy mode of a service type: `Tcp` at layer 4, `Http` at layer 7.
pub open spec fn mode_of(t: ServiceType) -> ServiceType {
    if is_layer4(t) {
        ServiceType::Tcp
    } else {
        ServiceType::Http
    }
}

/// A service type whose clients speak TLS.
pub open spec fn has_frontend_tls(t: ServiceType) -> bool {
    t == ServiceType::Https || t == ServiceType::HttpsInsecure || t == ServiceType::HttpsHttp
}

/// A service type whose backend is spoken to in TLS.
pub open spec fn has_backend_tls(t: ServiceType) -> bool {
    t == ServiceType::Https || t == ServiceType::HttpsInsecure
}

impl ServiceType {
    /// The proxy mode to configure for this service type.
    pub fn mode(&self) -> (m: &ServiceType)
        ensures
            *m == mode_of(*self),
    {
        match self {
            ServiceType::Tcp | ServiceType::TcpProxyV2 => &ServiceType::Tcp,
            ServiceType::Http
            | ServiceType::Https
            | ServiceType::HttpsInsecure
            | ServiceType::HttpsHttp => &ServiceType::Http,
        }
    }

    /// The name of this service type.
    pub fn as_str(&self) -> (name: &'static str)
        ensures
            name@ == protocol_name(*self),
    {
        match self {
            ServiceType::Http => "http",
            ServiceType::Https => "https",
            ServiceType::HttpsInsecure => "https+insecure",
            ServiceType::HttpsHttp => "https-http",
            ServiceType::Tcp => "tcp",
            ServiceType::TcpProxyV2 => "tcp-proxy-v2",
        }
    }

    /// The name of this service type.
    pub fn to_string(&self) -> (name: String)
        ensures
            name@ == protocol_name(*self),
    {
        self.as_str().to_owned()
    }

    /// The service type named `s`. Names are in small letters.
    pub fn from_str(s: &str) -> (r: Result<ServiceType, UnknownServiceType>)
        ensures
            r == (match protocol_named(s@) {
                Some(t) => Ok(t),
                None => Err(UnknownServiceType),
            }),
    {
        if same_text(s, "http") {
            Ok(ServiceType::Http)
        } else if same_text(s, "https") {
            Ok(ServiceType::Https)
        } else if same_text(s, "https+insecure") {
            Ok(ServiceType::HttpsInsecure)
        } else if same_text(s, "https-http") {
            Ok(ServiceType::HttpsHttp)
        } else if same_text(s, "tcp") {
            Ok(ServiceType::Tcp)
        } else if same_text(s, "tcp-proxy-v2") {
            Ok(ServiceType::TcpProxyV2)
        } else {
            Err(UnknownServiceType)
        }
    }
}

impl std::str::FromStr for ServiceType {
    type Err = UnknownServiceType;

    fn from_str(s: &str) -> (r: Result<ServiceType, UnknownServiceType>)
        ensures
            r == (match protocol_named(s@) {
                Some(t) => Ok(t),
                None => Err(UnknownServiceType),
            }),
    {
        ServiceType::from_str(s)
    }
}

impl Default for ServiceType {
    fn default() -> (t: ServiceType)
        ensures
            t == ServiceType::Http,
    {
        ServiceType::Http
    }
}

/// One entry of the port map: a port to listen on, and the backend servers behind it.
#[derive(Debug, PartialEq, Eq, Hash)]
pub struct Service {
    pub service_type: ServiceType,
    /// The front end port.
    pub listen_port: u16,
    /// The DNS name of the backend servers.
    pub backend_name: String,
    /// The port of the backend servers; without it, SRV records give the port.
    pub backend_port: Option<u16>,
    /// The path that an HTTP health check asks for.
    pub http_check_endpoint: Option<String>,
    /// The port for health checks, where it is not the backend port.
    pub check_port: Option<u16>,
    /// Successful checks in a row that mark a server as healthy.
    pub check_rise: Option<u16>,
    /// Failed checks in a row that mark a server as unhealthy.
    pub check_fall: Option<u16>,
}

/// What a [`Service`] says.
#[verifier::ext_equal]
pub struct ServiceView {
    pub service_type: ServiceType,
    pub listen_port: u16,
    pub backend_name: Seq<char>,
    pub backend_port: Option<u16>,
    pub http_check_endpoint: Option<Seq<char>>,
    pub check_port: Option<u16>,
    pub check_rise: Option<u16>,
    pub check_fall: Option<u16>,
}

/// The characters of a text that may be missing.
pub open spec fn optional_text(t: Option<String>) -> Option<Seq<char>> {
    match t {
        Some(s) => Some(s@),
        None => None,
    }
}

impl View for Service {
    type V = ServiceView;

    open spec fn view(&self) -> ServiceView {
        ServiceView {
            service_type: self.service_type,
            listen_port: self.listen_port,
            backend_name: self.backend_name@,
            backend_port: self.backend_port,
            http_check_endpoint: optional_text(self.http_check_endpoint),
            check_port: self.check_port,
            check_rise: self.check_rise,
            check_fall: self.check_fall,
        }
    }
}

impl Default for Service {
    fn default() -> (s: Service)
        ensures
            s@ == (ServiceView {
                service_type: ServiceType::Http,
                listen_port: 0,
                backend_name: Seq::empty(),
                backend_port: None,
                http_check_endpoint: None,
                check_port: None,
                check_rise: None,
                check_fall: None,
            }),
    {
        Service {
            service_type: ServiceType::Http,
            listen_port: 0,
            backend_name: String::new(),
            backend_port: None,
            http_check_endpoint: None,
            check_port: None,
            check_rise: None,
            check_fall: None,
        }
    }
}

/// A backend port as it stands behind a backend name: a colon and the number, or nothing.
pub open spec fn port_suffix(port: Option<u16>) -> Seq<char> {
    match port {
        Some(p) => seq![':'] + number::decimal(p as nat),
        None => Seq::empty(),
    }
}

/// The bytes of a variant's number, as hashing an enum hands them to a hasher: as many as a machine
/// word has, low byte first.
pub open spec fn variant_bytes(variant: u8) -> Seq<u8> {
    if usize::BITS == 64 {
        seq![variant, 0u8, 0u8, 0u8, 0u8, 0u8, 0u8, 0u8]
    } else {
        seq![variant, 0u8, 0u8, 0u8]
    }
}

/// The bytes of `n`, low byte first.
pub open spec fn u16_bytes(n: u16) -> Seq<u8> {
    seq![(n % 256) as u8, (n / 256) as u8]
}

/// The place of a service type among the variants.
pub open spec fn type_variant(t: ServiceType) -> u8 {
    match t {
        ServiceType::Http => 0,
        ServiceType::Https => 1,
        ServiceType::HttpsInsecure => 2,
        ServiceType::HttpsHttp => 3,
        ServiceType::Tcp => 4,
        ServiceType::TcpProxyV2 => 5,
    }
}

/// What hashing a text hands to a hasher: its UTF-8 bytes, and a byte that ends them.
pub open spec fn text_writes(s: Seq<char>) -> Seq<Seq<u8>> {
    seq![vstd::utf8::encode_utf8(s), seq![0xffu8]]
}

/// What hashing an optional number hands to a hasher.
pub open spec fn optional_u16_writes(n: Option<u16>) -> Seq<Seq<u8>> {
    match n {
        None => seq![variant_bytes(0)],
        Some(n) => seq![variant_bytes(1), u16_bytes(n)],
    }
}

/// What hashing an optional text hands to a hasher.
pub open spec fn optional_text_writes(t: Option<Seq<char>>) -> Seq<Seq<u8>> {
    match t {
        None => seq![variant_bytes(0)],
        Some(t) => seq![variant_bytes(1)] + text_writes(t),
    }
}

/// What hashing a service hands to a hasher: its fields in order, laid out as on a little-endian
/// machine.
pub open spec fn service_writes(s: ServiceView) -> Seq<Seq<u8>> {
    seq![variant_bytes(type_variant(s.service_type)), u16_bytes(s.listen_port)] + text_writes(
        s.backend_name,
    ) + optional_u16_writes(s.backend_port) + optional_text_writes(s.http_check_endpoint)
        + optional_u16_writes(s.check_port) + optional_u16_writes(s.check_rise)
        + optional_u16_writes(s.check_fall)
}

/// The key that `dynamic_cookie_key` gives: the hash of the service, in hexadecimal.
pub open spec fn cookie_key(s: ServiceView) -> Seq<char> {
    number::hexadecimal(
        <DefaultHasher as vstd::std_specs::hash::DefaultHasherAdditionalSpecFns>::spec_finish(
            service_writes(s),
        ) as nat,
    )
}

fn hash_variant(hasher: &mut DefaultHasher, variant: u8)
    ensures
        final(hasher)@ == old(hasher)@.push(variant_bytes(variant)),
{
    if usize::BITS == 64 {
        let bytes: [u8; 8] = [variant, 0, 0, 0, 0, 0, 0, 0];
        assert(bytes@ =~= variant_bytes(variant));
        hasher.write(&bytes);
    } else {
        let bytes: [u8; 4] = [variant, 0, 0, 0];
        assert(bytes@ =~= variant_bytes(variant));
        hasher.write(&bytes);
    }
}

fn hash_u16(hasher: &mut DefaultHasher, n: u16)
    ensures
        final(hasher)@ == old(hasher)@.push(u16_bytes(n)),
{
    let bytes: [u8; 2] = [(n % 256) as u8, (n / 256) as u8];
    assert(bytes@ =~= u16_bytes(n));
    hasher.write(&bytes);
}

fn hash_text(hasher: &mut DefaultHasher, s: &str)
    ensures
        final(hasher)@ == old(hasher)@ + text_writes(s@),
{
    hasher.write(s.as_bytes());
    let end: [u8; 1] = [0xff];
    assert(end@ =~= seq![0xffu8]);
    hasher.write(&end);
    assert(hasher@ =~= old(hasher)@ + text_writes(s@));
}

fn hash_optional_u16(hasher: &mut DefaultHasher, n: Option<u16>)
    ensures
        final(hasher)@ == old(hasher)@ + optional_u16_writes(n),
{
    match n {
        None => hash_variant(hasher, 0),
        Some(n) => {
            hash_variant(hasher, 1);
            hash_u16(hasher, n);
        },
    }
    assert(hasher@ =~= old(hasher)@ + optional_u16_writes(n));
}

fn hash_optional_text(hasher: &mut DefaultHasher, t: &Option<String>)
    ensures
        final(hasher)@ == old(hasher)@ + optional_text_writes(optional_text(*t)),
{
    match t {
        None => hash_variant(hasher, 0),
        Some(s) => {
            hash_variant(hasher, 1);
            hash_text(hasher, s.as_str());
        },
    }
    assert(hasher@ =~= old(hasher)@ + optional_text_writes(optional_text(*t)));
}

impl Service {
    /// The backend port as it stands behind the backend name; empty where there is none.
    pub fn backend_port_str(&self) -> (r: String)
        ensures
            r@ == port_suffix(self.backend_port),
    {
        let mut r = String::new();
        match self.backend_port {
            Some(port) => {
                r.push(':');
                number::push_decimal(&mut r, port as u64);
                assert(r@ =~= port_suffix(self.backend_port));
            },
            None => {},
        }
        r
    }

    /// Whether clients stay with one backend server: at layer 7.
    pub fn use_sticky_session(&self) -> (b: bool)
        ensures
            b == !is_layer4(self.service_type),
    {
        matches!(
            self.service_type,
            ServiceType::Http | ServiceType::Https | ServiceType::HttpsInsecure
                | ServiceType::HttpsHttp
        )
    }

    /// Whether clients speak TLS to this service.
    pub fn frontend_ssl(&self) -> (b: bool)
        ensures
            b == has_frontend_tls(self.service_type),
    {
        matches!(
            self.service_type,
            ServiceType::Https | ServiceType::HttpsInsecure | ServiceType::HttpsHttp
        )
    }

    /// Whether this service speaks TLS to its backend.
    pub fn backend_ssl(&self) -> (b: bool)
        ensures
            b == has_backend_tls(self.service_type),
    {
        matches!(self.service_type, ServiceType::Https | ServiceType::HttpsInsecure)
    }

    /// Whether the certificate of the backend is verified.
    pub fn backend_ssl_verify(&self) -> (b: bool)
        ensures
            b == (self.service_type == ServiceType::Https),
    {
        matches!(self.service_type, ServiceType::Https)
    }

    /// Whether the backend is sent PROXY protocol v2 headers.
    pub fn sends_proxy_v2(&self) -> (b: bool)
        ensures
            b == (self.service_type == ServiceType::TcpProxyV2),
    {
        matches!(self.service_type, ServiceType::TcpProxyV2)
    }

    /// A key for the cookies that tie a client to a backend server. It is the hash of the
    /// service, and so the same for services that say the same.
    pub fn dynamic_cookie_key(&self) -> (key: String)
        ensures
            key@ == cookie_key(self@),
    {
        let mut hasher = DefaultHasher::new();
        let variant: u8 = match self.service_type {
            ServiceType::Http => 0,
            ServiceType::Https => 1,
            ServiceType::HttpsInsecure => 2,
            ServiceType::HttpsHttp => 3,
            ServiceType::Tcp => 4,
            ServiceType::TcpProxyV2 => 5,
        };
        hash_variant(&mut hasher, variant);
        hash_u16(&mut hasher, self.listen_port);
        hash_text(&mut hasher, self.backend_name.as_str());
        hash_optional_u16(&mut hasher, self.backend_port);
        hash_optional_text(&mut hasher, &self.http_check_endpoint);
        hash_optional_u16(&mut hasher, self.check_port);
        hash_optional_u16(&mut hasher, self.check_rise);
        hash_optional_u16(&mut hasher, self.check_fall);
        assert(hasher@ =~= service_writes(self@));
        let mut key = String::new();
        number::push_numeral(&mut key, hasher.finish(), 16);
        assert(key@ =~= cookie_key(self@));
        key
    }

    /// Whether the service is checked over HTTP.
    pub fn http_check(&self) -> (b: bool)
        ensures
            b == (self.http_check_endpoint is Some),
    {
        self.http_check_endpoint.is_some()
    }

    /// The path that the health check asks for; empty where there is no such check.
    pub fn http_check_endpoint(&self) -> (r: String)
        ensures
            r@ == (match self@.http_check_endpoint {
                Some(endpoint) => endpoint,
                None => Seq::<char>::empty(),
            }),
    {
        match &self.http_check_endpoint {
            Some(endpoint) => endpoint.clone(),
            None => String::new(),
        }
    }
}

/// A service type is found by its name, and by no other.
pub proof fn protocol_names_are_unique(t: ServiceType, name: Seq<char>)
    ensures
        protocol_named(protocol_name(t)) == Some(t),
        protocol_named(name) == Some(t) <==> name == protocol_name(t),
{
    reveal_strlit("http");
    reveal_strlit("https");
    reveal_strlit("https+insecure");
    reveal_strlit("https-http");
    reveal_strlit("tcp");
    reveal_strlit("tcp-proxy-v2");
    // No two names are of the same length.
    assert("http"@.len() == 4 && "https"@.len() == 5 && "https+insecure"@.len() == 14);
    assert("https-http"@.len() == 10 && "tcp"@.len() == 3 && "tcp-proxy-v2"@.len() == 12);
}

/// The mode of a mode is itself, and it is one of the two that HAProxy knows.
pub proof fn mode_is_http_or_tcp(t: ServiceType)
    ensures
        mode_of(t) == ServiceType::Http || mode_of(t) == ServiceType::Tcp,
        mode_of(mode_of(t)) == mode_of(t),
{
}

/// TLS is spoken at layer 7 only, and to the backend only where clients speak it too.
pub proof fn tls_needs_layer7(t: ServiceType)
    ensures
        has_backend_tls(t) ==> has_frontend_tls(t),
        has_frontend_tls(t) ==> !is_layer4(t),
{
}

/// A cookie key is one to sixteen hexadecimal digits, with small letters.
pub proof fn cookie_key_is_hexadecimal(s: ServiceView)
    ensures
        1 <= cookie_key(s).len() <= 16,
        forall|i: int|
            0 <= i < cookie_key(s).len() ==> number::is_hex_digit(#[trigger] cookie_key(s)[i]),
{
    number::hexadecimal_of_64_bits(
        <DefaultHasher as vstd::std_specs::hash::DefaultHasherAdditionalSpecFns>::spec_finish(
            service_writes(s),
        ),
    );
}

/// A character that the names of service types are made of.
pub open spec fn is_name_char(c: char) -> bool {
    'a' <= c <= 'z' && c != 'k' || c == '+' || c == '-' || c == '2'
}

/// What the names of service types are made of.
pub proof fn lemma_name_chars(t: ServiceType)
    ensures
        forall|i: int|
            0 <= i < protocol_name(t).len() ==> is_name_char(#[trigger] protocol_name(t)[i]),
{
    reveal_strlit("http");
    reveal_strlit("https");
    reveal_strlit("https+insecure");
    reveal_strlit("https-http");
    reveal_strlit("tcp");
    reveal_strlit("tcp-proxy-v2");
    assert(protocol_name(t).len() <= 14);
}

/// A text that names a service type holds no other characters.
pub proof fn lemma_named_chars(name: Seq<char>)
    ensures
        protocol_named(name) is Some ==> forall|i: int|
            0 <= i < name.len() ==> is_name_char(#[trigger] name[i]),
{
    if let Some(t) = protocol_named(name) {
        protocol_names_are_unique(t, name);
        lemma_name_chars(t);
    }
}

} // verus!
