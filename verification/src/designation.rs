//! Service designations: `<type>://<listen port>:<backend name>[:<backend port>][{<checks>}]`.

use crate::limits::{MAX_PORT, MIN_PORT};
use crate::number;
use crate::service;
use crate::service::{Service, ServiceType, ServiceView};
use crate::text;
use vstd::prelude::*;

verus! {

/// Why a text is not a service designation.
#[derive(Debug, PartialEq, Eq)]
pub enum ServiceError {
    /// There is no `://`.
    MissingScheme,
    /// What stands before `://` names no service type.
    UnsupportedProtocol(String),
    /// There is no colon between a listen port and a backend name.
    MissingParts,
    /// The port of this kind is not a number that fits 16 bits.
    InvalidPort { kind: String, text: String },
    /// The port of this kind is a number, but none that may be used.
    PortOutOfRange { kind: String, text: String },
    /// A health check parameter without a colon.
    InvalidParameter(String),
    /// A health check whose path is empty.
    EmptyEndpoint,
    /// A `rise` that is not a number that fits 16 bits.
    InvalidRise(String),
    /// A `fall` that is not a number that fits 16 bits.
    InvalidFall(String),
    /// A health check parameter of no known name.
    UnknownParameter(String),
}

/// What a [`ServiceError`] says.
#[verifier::ext_equal]
pub enum ServiceFault {
    MissingScheme,
    UnsupportedProtocol(Seq<char>),
    MissingParts,
    InvalidPort { kind: Seq<char>, text: Seq<char> },
    PortOutOfRange { kind: Seq<char>, text: Seq<char> },
    InvalidParameter(Seq<char>),
    EmptyEndpoint,
    InvalidRise(Seq<char>),
    InvalidFall(Seq<char>),
    UnknownParameter(Seq<char>),
}

impl View for ServiceError {
    type V = ServiceFault;

    open spec fn view(&self) -> ServiceFault {
        match self {
            ServiceError::MissingScheme => ServiceFault::MissingScheme,
            ServiceError::UnsupportedProtocol(p) => ServiceFault::UnsupportedProtocol(p@),
            ServiceError::MissingParts => ServiceFault::MissingParts,
            ServiceError::InvalidPort { kind, text } => ServiceFault::InvalidPort {
                kind: kind@,
                text: text@,
            },
            ServiceError::PortOutOfRange { kind, text } => ServiceFault::PortOutOfRange {
                kind: kind@,
                text: text@,
            },
            ServiceError::InvalidParameter(p) => ServiceFault::InvalidParameter(p@),
            ServiceError::EmptyEndpoint => ServiceFault::EmptyEndpoint,
            ServiceError::InvalidRise(v) => ServiceFault::InvalidRise(v@),
            ServiceError::InvalidFall(v) => ServiceFault::InvalidFall(v@),
            ServiceError::UnknownParameter(k) => ServiceFault::UnknownParameter(k@),
        }
    }
}

impl ServiceFault {
    /// The fault in words.
    pub open spec fn message(self) -> Seq<char> {
        match self {
            ServiceFault::MissingScheme => "Invalid service designation format, missing '://'"@,
            ServiceFault::UnsupportedProtocol(p) => "Unsupported protocol: "@ + p,
            ServiceFault::MissingParts =>
                "Invalid service designation format, expecting at least <listen port>:<backend name>"@,
            ServiceFault::InvalidPort { kind, text } => "Invalid "@ + kind + " port: "@ + text,
            ServiceFault::PortOutOfRange { kind, text } => kind + " port out of valid range ("@
                + number::decimal(MIN_PORT as nat) + "-"@ + number::decimal(MAX_PORT as nat) + "): "@ + text,
            ServiceFault::InvalidParameter(p) => "Invalid health check parameter format: "@ + p,
            ServiceFault::EmptyEndpoint => "Health check endpoint cannot be empty"@,
            ServiceFault::InvalidRise(v) => "Invalid rise value: "@ + v,
            ServiceFault::InvalidFall(v) => "Invalid fall value: "@ + v,
            ServiceFault::UnknownParameter(k) => "Unknown health check parameter: "@ + k,
        }
    }
}

/// `head` with `tail` behind it.
fn joined(head: &str, tail: &str) -> (r: String)
    ensures
        r@ == head@ + tail@,
{
    let mut r = head.to_owned();
    r.append(tail);
    r
}

impl ServiceError {
    /// The error in words.
    pub fn to_string(&self) -> (message: String)
        ensures
            message@ == self@.message(),
    {
        match self {
            ServiceError::MissingScheme => {
                "Invalid service designation format, missing '://'".to_owned()
            },
            ServiceError::UnsupportedProtocol(p) => joined("Unsupported protocol: ", p.as_str()),
            ServiceError::MissingParts => {
                "Invalid service designation format, expecting at least <listen port>:<backend name>".to_owned()
            },
            ServiceError::InvalidPort { kind, text } => {
                let mut r = joined("Invalid ", kind.as_str());
                r.append(" port: ");
                r.append(text.as_str());
                r
            },
            ServiceError::PortOutOfRange { kind, text } => {
                let mut r = joined(kind.as_str(), " port out of valid range (");
                number::push_decimal(&mut r, MIN_PORT as u64);
                r.append("-");
                number::push_decimal(&mut r, MAX_PORT as u64);
                r.append("): ");
                r.append(text.as_str());
                r
            },
            ServiceError::InvalidParameter(p) => {
                joined("Invalid health check parameter format: ", p.as_str())
            },
            ServiceError::EmptyEndpoint => "Health check endpoint cannot be empty".to_owned(),
            ServiceError::InvalidRise(v) => joined("Invalid rise value: ", v.as_str()),
            ServiceError::InvalidFall(v) => joined("Invalid fall value: ", v.as_str()),
            ServiceError::UnknownParameter(k) => {
                joined("Unknown health check parameter: ", k.as_str())
            },
        }
    }
}

/// What Unicode's lowercase mapping makes of a text that is not all ASCII.
pub uninterp spec fn unicode_lowercase(s: Seq<char>) -> Seq<char>;

/// `str::to_lowercase`, which maps a text by the Unicode character database. Of ASCII, that maps
/// the capital letters to the small ones and leaves the rest. What it makes of any other text is
/// left to a name, but for this: beyond ASCII only the Kelvin sign has a small letter in ASCII,
/// which is `k`, so that a text that becomes all ASCII has a `k` in it.
#[verifier::external_body]
fn to_lowercase(s: &str) -> (r: String)
    ensures
        vstd::utf8::is_ascii_chars(s@) ==> r@ == text::ascii_lowercase(s@),
        !vstd::utf8::is_ascii_chars(s@) ==> r@ == unicode_lowercase(s@),
        !vstd::utf8::is_ascii_chars(s@) && vstd::utf8::is_ascii_chars(r@) ==> r@.contains('k'),
{
    s.to_lowercase()
}

/// The service type that `s` starts with, in small or capital letters, and what stands behind
/// `://`.
pub open spec fn type_part(s: Seq<char>) -> Result<(ServiceType, Seq<char>), ServiceFault> {
    match text::cut_text(s, "://"@) {
        None => Err(ServiceFault::MissingScheme),
        Some((protocol, rest)) => match service::protocol_named(
            text::ascii_lowercase(protocol),
        ) {
            None => Err(ServiceFault::UnsupportedProtocol(protocol)),
            Some(t) => Ok((t, rest)),
        },
    }
}

/// A text beyond ASCII names no service type, in whatever letters.
proof fn lemma_no_name_beyond_ascii(protocol: Seq<char>, lower: Seq<char>)
    requires
        !vstd::utf8::is_ascii_chars(protocol),
        vstd::utf8::is_ascii_chars(lower) ==> lower.contains('k'),
    ensures
        service::protocol_named(lower) is None,
        service::protocol_named(text::ascii_lowercase(protocol)) is None,
{
    service::lemma_named_chars(lower);
    service::lemma_named_chars(text::ascii_lowercase(protocol));
    let i = choose|i: int| 0 <= i < protocol.len() && !('\0' <= #[trigger] protocol[i] <= '\x7f');
    assert(text::ascii_lowercase(protocol)[i] == protocol[i]);
}

/// The service type that `s` starts with, in small or capital letters, and what stands behind
/// `://`.
pub fn parse_service_type(s: &str) -> (r: Result<(ServiceType, &str), ServiceError>)
    ensures
        match r {
            Ok((t, rest)) => type_part(s@) == Ok::<_, ServiceFault>((t, rest@)),
            Err(e) => type_part(s@) == Err::<(ServiceType, Seq<char>), _>(e@),
        },
{
    match text::cut_at_text(s, "://") {
        None => Err(ServiceError::MissingScheme),
        Some((protocol, rest)) => {
            let name = to_lowercase(protocol);
            proof {
                if !vstd::utf8::is_ascii_chars(protocol@) {
                    lemma_no_name_beyond_ascii(protocol@, name@);
                }
            }
            match ServiceType::from_str(name.as_str()) {
                Ok(t) => Ok((t, rest)),
                Err(_) => Err(ServiceError::UnsupportedProtocol(protocol.to_owned())),
            }
        },
    }
}

/// The port that `text` writes, where it is one that may be used.
pub open spec fn port_value(text: Seq<char>, kind: Seq<char>) -> Result<u16, ServiceFault> {
    match number::unsigned(text, u16::MAX as nat) {
        None => Err(ServiceFault::InvalidPort { kind, text }),
        Some(n) => if MIN_PORT <= n <= MAX_PORT {
            Ok(n as u16)
        } else {
            Err(ServiceFault::PortOutOfRange { kind, text })
        },
    }
}

/// The port that `port_str` writes, from `MIN_PORT` to `MAX_PORT`. An error names `port_type`.
pub fn parse_and_validate_port(port_str: &str, port_type: &str) -> (r: Result<u16, ServiceError>)
    ensures
        match r {
            Ok(port) => port_value(port_str@, port_type@) == Ok::<_, ServiceFault>(port),
            Err(e) => port_value(port_str@, port_type@) == Err::<u16, _>(e@),
        },
{
    match number::parse_unsigned(port_str, u16::MAX as u64) {
        None => Err(
            ServiceError::InvalidPort { kind: port_type.to_owned(), text: port_str.to_owned() },
        ),
        Some(n) => {
            let port: u16 = n as u16;
            if MIN_PORT <= port && port <= MAX_PORT {
                Ok(port)
            } else {
                Err(
                    ServiceError::PortOutOfRange {
                        kind: port_type.to_owned(),
                        text: port_str.to_owned(),
                    },
                )
            }
        },
    }
}

/// The listen port, the backend name and the backend port that `s` gives, parted by colons.
pub open spec fn address_part(s: Seq<char>) -> Result<
    (u16, Seq<char>, Option<u16>),
    ServiceFault,
> {
    match text::cut(s, ':') {
        None => Err(ServiceFault::MissingParts),
        Some((listen, rest)) => match port_value(listen, "listen"@) {
            Err(e) => Err(e),
            Ok(listen_port) => match text::cut(rest, ':') {
                None => Ok((listen_port, rest, None)),
                Some((name, backend)) => match port_value(backend, "backend"@) {
                    Err(e) => Err(e),
                    Ok(backend_port) => Ok((listen_port, name, Some(backend_port))),
                },
            },
        },
    }
}

/// The listen port, the backend name and, where there is one, the backend port that `s` gives.
pub fn parse_service_parts(s: &str) -> (r: Result<(u16, String, Option<u16>), ServiceError>)
    ensures
        match r {
            Ok((listen_port, name, backend_port)) => address_part(s@) == Ok::<_, ServiceFault>(
                (listen_port, name@, backend_port),
            ),
            Err(e) => address_part(s@) == Err::<(u16, Seq<char>, Option<u16>), _>(e@),
        },
{
    match text::cut_at(s, ':') {
        None => Err(ServiceError::MissingParts),
        Some((listen, rest)) => match parse_and_validate_port(listen, "listen") {
            Err(e) => Err(e),
            Ok(listen_port) => match text::cut_at(rest, ':') {
                None => Ok((listen_port, rest.to_owned(), None)),
                Some((name, backend)) => match parse_and_validate_port(backend, "backend") {
                    Err(e) => Err(e),
                    Ok(backend_port) => Ok((listen_port, name.to_owned(), Some(backend_port))),
                },
            },
        },
    }
}

/// The endpoint, the port, the rise and the fall of a health check, each where it is given.
pub type HealthCheckParams = (Option<String>, Option<u16>, Option<u16>, Option<u16>);

/// What a [`HealthCheckParams`] says.
#[verifier::ext_equal]
pub struct HealthCheck {
    pub endpoint: Option<Seq<char>>,
    pub port: Option<u16>,
    pub rise: Option<u16>,
    pub fall: Option<u16>,
}

/// A health check of which nothing is given.
pub open spec fn no_health_check() -> HealthCheck {
    HealthCheck { endpoint: None, port: None, rise: None, fall: None }
}

/// What `params` says.
pub open spec fn health_check_of(params: HealthCheckParams) -> HealthCheck {
    HealthCheck {
        endpoint: service::optional_text(params.0),
        port: params.1,
        rise: params.2,
        fall: params.3,
    }
}

/// One parameter of a health check.
enum Parameter {
    Check(String),
    Port(u16),
    Rise(u16),
    Fall(u16),
}

/// What one parameter of a health check says.
#[verifier::ext_equal]
pub enum ParameterView {
    Check(Seq<char>),
    Port(u16),
    Rise(u16),
    Fall(u16),
}

impl View for Parameter {
    type V = ParameterView;

    closed spec fn view(&self) -> ParameterView {
        match self {
            Parameter::Check(endpoint) => ParameterView::Check(endpoint@),
            Parameter::Port(n) => ParameterView::Port(*n),
            Parameter::Rise(n) => ParameterView::Rise(*n),
            Parameter::Fall(n) => ParameterView::Fall(*n),
        }
    }
}

/// The parameter that `key` and `value` give.
pub open spec fn parameter_of(key: Seq<char>, value: Seq<char>) -> Result<
    ParameterView,
    ServiceFault,
> {
    if key == "check"@ {
        if value.len() == 0 {
            Err(ServiceFault::EmptyEndpoint)
        } else {
            Ok(ParameterView::Check(value))
        }
    } else if key == "port"@ {
        match port_value(value, "health check"@) {
            Ok(n) => Ok(ParameterView::Port(n)),
            Err(e) => Err(e),
        }
    } else if key == "rise"@ {
        match number::unsigned(value, u16::MAX as nat) {
            Some(n) => Ok(ParameterView::Rise(n as u16)),
            None => Err(ServiceFault::InvalidRise(value)),
        }
    } else if key == "fall"@ {
        match number::unsigned(value, u16::MAX as nat) {
            Some(n) => Ok(ParameterView::Fall(n as u16)),
            None => Err(ServiceFault::InvalidFall(value)),
        }
    } else {
        Err(ServiceFault::UnknownParameter(key))
    }
}

/// The parameter that `pair` gives: a key, a colon and a value, with white space round either.
pub open spec fn parameter(pair: Seq<char>) -> Result<ParameterView, ServiceFault> {
    match text::cut(pair, ':') {
        None => Err(ServiceFault::InvalidParameter(pair)),
        Some((key, value)) => parameter_of(text::trim(key), text::trim(value)),
    }
}

/// `h` with `p` set.
pub open spec fn with_parameter(h: HealthCheck, p: ParameterView) -> HealthCheck {
    match p {
        ParameterView::Check(endpoint) => HealthCheck { endpoint: Some(endpoint), ..h },
        ParameterView::Port(n) => HealthCheck { port: Some(n), ..h },
        ParameterView::Rise(n) => HealthCheck { rise: Some(n), ..h },
        ParameterView::Fall(n) => HealthCheck { fall: Some(n), ..h },
    }
}

/// The health check that `pairs` give, set one after the other; or the first fault among them.
pub open spec fn health_check_from(pairs: Seq<Seq<char>>) -> Result<HealthCheck, ServiceFault>
    decreases pairs.len(),
{
    if pairs.len() == 0 {
        Ok(no_health_check())
    } else {
        match health_check_from(pairs.drop_last()) {
            Err(e) => Err(e),
            Ok(h) => match parameter(pairs.last()) {
                Err(e) => Err(e),
                Ok(p) => Ok(with_parameter(h, p)),
            },
        }
    }
}

/// `s` without the braces at its ends.
pub open spec fn unbraced(s: Seq<char>) -> Seq<char> {
    text::strip_trailing(text::strip_leading(s, '{'), '}')
}

/// Two braces with nothing but white space between them.
pub open spec fn is_empty_block(s: Seq<char>) -> bool {
    &&& s.len() >= 2
    &&& s.first() == '{'
    &&& s.last() == '}'
    &&& text::trim(s.subrange(1, s.len() - 1)).len() == 0
}

/// The health check that `s` gives: parameters parted by commas, in braces. Between the braces
/// there may be none.
pub open spec fn health_check(s: Seq<char>) -> Result<HealthCheck, ServiceFault> {
    if is_empty_block(s) {
        Ok(no_health_check())
    } else {
        health_check_from(text::split(unbraced(s), ','))
    }
}

/// The parameter that `pair` gives.
fn parse_parameter(pair: &str) -> (r: Result<Parameter, ServiceError>)
    ensures
        match r {
            Ok(p) => parameter(pair@) == Ok::<_, ServiceFault>(p@),
            Err(e) => parameter(pair@) == Err::<ParameterView, _>(e@),
        },
{
    match text::cut_at(pair, ':') {
        None => Err(ServiceError::InvalidParameter(pair.to_owned())),
        Some((before, behind)) => {
            let key = text::trimmed(before);
            let value = text::trimmed(behind);
            if text::same_text(key, "check") {
                if value.is_empty() {
                    Err(ServiceError::EmptyEndpoint)
                } else {
                    Ok(Parameter::Check(value.to_owned()))
                }
            } else if text::same_text(key, "port") {
                match parse_and_validate_port(value, "health check") {
                    Ok(n) => Ok(Parameter::Port(n)),
                    Err(e) => Err(e),
                }
            } else if text::same_text(key, "rise") {
                match number::parse_unsigned(value, u16::MAX as u64) {
                    Some(n) => Ok(Parameter::Rise(n as u16)),
                    None => Err(ServiceError::InvalidRise(value.to_owned())),
                }
            } else if text::same_text(key, "fall") {
                match number::parse_unsigned(value, u16::MAX as u64) {
                    Some(n) => Ok(Parameter::Fall(n as u16)),
                    None => Err(ServiceError::InvalidFall(value.to_owned())),
                }
            } else {
                Err(ServiceError::UnknownParameter(key.to_owned()))
            }
        },
    }
}

/// A fault among the first pairs is the fault of them all.
proof fn lemma_first_fault(pairs: Seq<Seq<char>>, k: int)
    requires
        0 <= k <= pairs.len(),
        health_check_from(pairs.take(k)) is Err,
    ensures
        health_check_from(pairs) == health_check_from(pairs.take(k)),
    decreases pairs.len() - k,
{
    if k < pairs.len() {
        assert(pairs.take(k + 1).drop_last() == pairs.take(k));
        lemma_first_fault(pairs, k + 1);
    } else {
        assert(pairs.take(k) == pairs);
    }
}

/// Whether `s` is two braces with nothing but white space between them.
fn empty_block(s: &str) -> (b: bool)
    ensures
        b == is_empty_block(s@),
{
    let n: usize = s.unicode_len();
    if n < 2 || s.get_char(0) != '{' || s.get_char(n - 1) != '}' {
        return false;
    }
    text::trimmed(s.substring_char(1, n - 1)).is_empty()
}

/// The health check that `s` gives, such as `{check:/healthz,port:32150,rise:30,fall:1}`.
///
/// Each of the parameters may be left out, all of them too, and they may come in any order. Of a
/// parameter that comes more than once, the last counts.
pub fn parse_health_check_params(s: &str) -> (r: Result<HealthCheckParams, ServiceError>)
    ensures
        match r {
            Ok(params) => health_check(s@) == Ok::<_, ServiceFault>(health_check_of(params)),
            Err(e) => health_check(s@) == Err::<HealthCheck, _>(e@),
        },
{
    if empty_block(s) {
        return Ok((None, None, None, None));
    }
    let inner = text::without_trailing(text::without_leading(s, '{'), '}');
    let pairs = text::split_at(inner, ',');
    let ghost all = text::split(unbraced(s@), ',');
    let mut endpoint: Option<String> = None;
    let mut port: Option<u16> = None;
    let mut rise: Option<u16> = None;
    let mut fall: Option<u16> = None;
    let n: usize = pairs.len();
    let mut i: usize = 0;
    while i < n
        invariant
            n == pairs@.len(),
            i <= n,
            !is_empty_block(s@),
            all == text::split(unbraced(s@), ','),
            all == text::views(pairs@),
            health_check_from(all.take(i as int)) == Ok::<_, ServiceFault>(
                health_check_of((endpoint, port, rise, fall)),
            ),
        decreases n - i,
    {
        assert(all.take(i + 1).drop_last() == all.take(i as int));
        assert(all.take(i + 1).last() == pairs@[i as int]@);
        match parse_parameter(pairs[i]) {
            Err(e) => {
                proof {
                    lemma_first_fault(all, i + 1);
                }
                return Err(e);
            },
            Ok(Parameter::Check(value)) => {
                endpoint = Some(value);
            },
            Ok(Parameter::Port(value)) => {
                port = Some(value);
            },
            Ok(Parameter::Rise(value)) => {
                rise = Some(value);
            },
            Ok(Parameter::Fall(value)) => {
                fall = Some(value);
            },
        }
        i += 1;
    }
    assert(all.take(n as int) == all);
    Ok((endpoint, port, rise, fall))
}

/// What stands before the first opening brace of `s`, and what stands from there on.
pub open spec fn checks_apart(s: Seq<char>) -> (Seq<char>, Option<Seq<char>>) {
    match text::index_of(s, '{') {
        Some(i) => (s.take(i), Some(s.skip(i))),
        None => (s, None),
    }
}

/// The service that `s` designates.
pub open spec fn designated(s: Seq<char>) -> Result<ServiceView, ServiceFault> {
    match type_part(s) {
        Err(e) => Err(e),
        Ok((service_type, rest)) => {
            let (address, checks) = checks_apart(rest);
            match address_part(address) {
                Err(e) => Err(e),
                Ok((listen_port, backend_name, backend_port)) => match (match checks {
                    Some(h) => health_check(h),
                    None => Ok(no_health_check()),
                }) {
                    Err(e) => Err(e),
                    Ok(h) => Ok(
                        ServiceView {
                            service_type,
                            listen_port,
                            backend_name,
                            backend_port,
                            http_check_endpoint: h.endpoint,
                            check_port: h.port,
                            check_rise: h.rise,
                            check_fall: h.fall,
                        },
                    ),
                },
            }
        },
    }
}

impl Service {
    /// The service that `s` designates, such as
    /// `https://443:api.example.com:8443{check:/status,port:9000}`.
    pub fn from_str(s: &str) -> (r: Result<Service, ServiceError>)
        ensures
            match r {
                Ok(service) => designated(s@) == Ok::<_, ServiceFault>(service@),
                Err(e) => designated(s@) == Err::<ServiceView, _>(e@),
            },
    {
        let (service_type, rest) = match parse_service_type(s) {
            Ok(parts) => parts,
            Err(e) => {
                return Err(e);
            },
        };
        let n: usize = rest.unicode_len();
        let (address, checks): (&str, Option<&str>) = match text::find_char(rest, '{') {
            Some(i) => {
                assert(rest@.subrange(0, i as int) == rest@.take(i as int));
                assert(rest@.subrange(i as int, n as int) == rest@.skip(i as int));
                (rest.substring_char(0, i), Some(rest.substring_char(i, n)))
            },
            None => (rest, None),
        };
        let (listen_port, backend_name, backend_port) = match parse_service_parts(address) {
            Ok(parts) => parts,
            Err(e) => {
                return Err(e);
            },
        };
        let (http_check_endpoint, check_port, check_rise, check_fall) = match checks {
            Some(h) => match parse_health_check_params(h) {
                Ok(params) => params,
                Err(e) => {
                    return Err(e);
                },
            },
            None => (None, None, None, None),
        };
        Ok(
            Service {
                service_type,
                listen_port,
                backend_name,
                backend_port,
                http_check_endpoint,
                check_port,
                check_rise,
                check_fall,
            },
        )
    }
}

impl std::str::FromStr for Service {
    type Err = ServiceError;

    fn from_str(s: &str) -> (r: Result<Service, ServiceError>)
        ensures
            match r {
                Ok(service) => designated(s@) == Ok::<_, ServiceFault>(service@),
                Err(e) => designated(s@) == Err::<ServiceView, _>(e@),
            },
    {
        Service::from_str(s)
    }
}

} // verus!
