//! What the library promises, said of texts, numbers and values themselves.

use crate::configure;
use crate::configure::{ConfigFile, ConfigFileView, Metadata};
use crate::designation;
use crate::designation::{
    HealthCheck, HealthCheckParams, ParameterView, ServiceError, ServiceFault,
};
use crate::metadata;
use crate::metadata::{MetadataReply, TimeoutConfig, TimeoutOverrides};
use crate::number;
use crate::portmap;
use crate::portmap::{RejectedService, RejectedView};
use crate::render;
use crate::render::{DefaultsConfig, GlobalConfig, MetricsConfig, Portmap};
use crate::service;
use crate::service::{Service, ServiceType, ServiceView};
use crate::supervision;
use crate::supervision::{
    EnsureError, HaproxyAction, HaproxyActionView, InstanceStatus, SmfState,
};
use crate::text;
use vstd::prelude::*;

verus! {

/// Trimming takes from both ends what is white space, and as much of it as there is.
pub proof fn trimming_stops_at_what_is_not_white_space(
    before: Seq<char>,
    s: Seq<char>,
    behind: Seq<char>,
)
    requires
        forall|i: int| 0 <= i < before.len() ==> text::is_white_space(#[trigger] before[i]),
        forall|i: int| 0 <= i < behind.len() ==> text::is_white_space(#[trigger] behind[i]),
        s.len() > 0 ==> !text::is_white_space(s.first()) && !text::is_white_space(s.last()),
    ensures
        text::trim(before + s + behind) == s,
{
    text::trim_ignores_padding(before, s, behind);
    text::trim_leaves_trimmed(s);
}

/// A text is cut at the first place where a character stands, and only there.
pub proof fn a_cut_is_at_the_first_place(s: Seq<char>, c: char)
    ensures
        match text::cut(s, c) {
            Some((a, b)) => s == a + seq![c] + b && !a.contains(c),
            None => !s.contains(c),
        },
{
    text::lemma_index_of(s, c);
    if let Some(i) = text::index_of(s, c) {
        let a = s.take(i);
        assert forall|j: int| 0 <= j < a.len() implies a[j] != c by {
            assert(a[j] == s[j]);
        }
        assert(s =~= a + seq![c] + s.skip(i + 1));
    }
}

/// A text is cut at the first place where another text stands, and only there.
pub proof fn a_text_is_cut_at_the_first_place(s: Seq<char>, pat: Seq<char>)
    ensures
        match text::cut_text(s, pat) {
            Some((a, b)) => {
                &&& s == a + pat + b
                &&& forall|i: int| 0 <= i < a.len() ==> !pat.is_prefix_of(#[trigger] s.skip(i))
            },
            None => forall|i: int| 0 <= i <= s.len() ==> !pat.is_prefix_of(#[trigger] s.skip(i)),
        },
{
    text::lemma_index_of_text(s, pat);
    lemma_first_text(s, pat);
    if let Some(i) = text::index_of_text(s, pat) {
        assert(s =~= s.take(i) + s.subrange(i, i + pat.len()) + s.skip(i + pat.len()));
    }
}

proof fn lemma_first_text(s: Seq<char>, pat: Seq<char>)
    ensures
        match text::index_of_text(s, pat) {
            Some(i) => forall|j: int|
                0 <= j < i ==> !pat.is_prefix_of(#[trigger] s.skip(j)),
            None => forall|j: int| 0 <= j <= s.len() ==> !pat.is_prefix_of(#[trigger] s.skip(j)),
        },
    decreases s.len(),
{
    assert(s.skip(0) =~= s);
    if !pat.is_prefix_of(s) && s.len() > 0 {
        let rest = s.drop_first();
        lemma_first_text(rest, pat);
        text::lemma_index_of_text(rest, pat);
        assert forall|j: int| 0 < j <= s.len() implies #[trigger] s.skip(j) == rest.skip(j - 1) by {
            assert(s.skip(j) =~= rest.skip(j - 1));
        }
    }
}

/// ASCII capital letters have the small letters that stand 32 places behind them, and other
/// characters stay.
pub proof fn small_letters_stand_behind_capitals(s: Seq<char>, i: int)
    requires
        0 <= i < s.len(),
    ensures
        text::ascii_lowercase(s).len() == s.len(),
        text::ascii_lowercase(s)[i] as int == if 'A' <= s[i] && s[i] <= 'Z' {
            s[i] as int + 32
        } else {
            s[i] as int
        },
{
}

/// A number grows a digit as it is multiplied by ten, and one digit stands for what is below ten.
pub proof fn decimals_grow_by_digits(n: nat, d: nat)
    requires
        d < 10,
    ensures
        number::decimal(d) == seq![('0' as int + d) as char],
        n > 0 ==> number::decimal(10 * n + d) == number::decimal(n).push(
            ('0' as int + d) as char,
        ),
{
    assert((10 * n + d) / 10 == n && (10 * n + d) % 10 == d);
}

/// A number grows a hexadecimal digit as it is multiplied by sixteen.
pub proof fn hexadecimals_grow_by_digits(n: nat, d: nat)
    requires
        d < 16,
    ensures
        ({
            let digit = if d < 10 {
                ('0' as int + d) as char
            } else {
                ('a' as int + d - 10) as char
            };
            &&& number::hexadecimal(d) == seq![digit]
            &&& n > 0 ==> number::hexadecimal(16 * n + d) == number::hexadecimal(n).push(digit)
        }),
{
    assert((16 * n + d) / 16 == n && (16 * n + d) % 16 == d);
}

/// A zero before the digits of a number does not matter.
pub proof fn leading_zeros_do_not_matter(s: Seq<char>, max: nat)
    requires
        s.len() > 0,
        forall|i: int| 0 <= i < s.len() ==> '0' <= #[trigger] s[i] && s[i] <= '9',
    ensures
        number::unsigned(seq!['0'] + s, max) == number::unsigned(s, max),
{
    let whole = seq!['0'] + s;
    assert('0' <= s[0]);
    lemma_zero_adds_nothing(s);
    assert forall|i: int| 0 <= i < whole.len() implies number::is_digit(#[trigger] whole[i]) by {
        if i > 0 {
            assert(whole[i] == s[i - 1]);
        }
    }
    assert(forall|i: int| 0 <= i < s.len() ==> number::is_digit(#[trigger] s[i]));
}

proof fn lemma_zero_adds_nothing(s: Seq<char>)
    ensures
        number::decimal_value(seq!['0'] + s) == number::decimal_value(s),
    decreases s.len(),
{
    let whole = seq!['0'] + s;
    if s.len() == 0 {
        assert(whole.drop_last() =~= Seq::empty());
        assert(number::decimal_value(Seq::<char>::empty()) == 0);
    } else {
        lemma_zero_adds_nothing(s.drop_last());
        assert(whole.drop_last() =~= seq!['0'] + s.drop_last());
    }
}

/// A plus sign before a number does not matter.
pub proof fn a_plus_sign_does_not_matter(s: Seq<char>, max: nat)
    requires
        s.len() > 0 ==> s.first() != '+',
    ensures
        number::unsigned(seq!['+'] + s, max) == number::unsigned(s, max),
{
    assert((seq!['+'] + s).drop_first() =~= s);
}

/// A number is read from decimal digits only, of which there is at least one.
pub proof fn numbers_are_digits(s: Seq<char>, max: nat)
    requires
        number::unsigned(s, max) is Some,
    ensures
        s.len() > 0,
        forall|i: int|
            0 <= i < s.len() ==> ('0' <= #[trigger] s[i] && s[i] <= '9') || (i == 0 && s[i] == '+'
                && s.len() > 1),
        number::unsigned(s, max)->0 <= max,
{
    let digits = number::without_sign(s);
    assert forall|i: int| 0 <= i < s.len() implies ('0' <= #[trigger] s[i] && s[i] <= '9') || (i
        == 0 && s[i] == '+' && s.len() > 1) by {
        if s.first() == '+' {
            if i > 0 {
                assert(digits[i - 1] == s[i]);
                assert(number::is_digit(digits[i - 1]));
            }
        } else {
            assert(number::is_digit(digits[i]));
        }
    }
}

/// A port is the number that is written, from 1 to 65534; a number of 16 bits beyond that is out
/// of range, and all else is no port. A fault names the port and the text.
pub proof fn ports_are_what_is_written(s: Seq<char>, kind: Seq<char>)
    ensures
        designation::port_value(s, kind) == (match number::unsigned(s, 65535) {
            None => Err(ServiceFault::InvalidPort { kind, text: s }),
            Some(n) => if n == 0 || n == 65535 {
                Err(ServiceFault::PortOutOfRange { kind, text: s })
            } else {
                Ok(n as u16)
            },
        }),
{
}

/// Each port from 1 to 65534 is read from its decimal writing, with zeros before it or without.
pub proof fn usable_ports_read_back(p: u16, kind: Seq<char>)
    requires
        1 <= p <= 65534,
    ensures
        designation::port_value(number::decimal(p as nat), kind) == Ok::<_, ServiceFault>(p),
        designation::port_value(seq!['0'] + number::decimal(p as nat), kind) == Ok::<
            _,
            ServiceFault,
        >(p),
{
    number::decimal_reads_back(p as nat, u16::MAX as nat);
    number::lemma_decimal(p as nat);
    assert forall|i: int| 0 <= i < number::decimal(p as nat).len() implies '0'
        <= #[trigger] number::decimal(p as nat)[i] && number::decimal(p as nat)[i] <= '9' by {
        assert(number::is_digit(number::decimal(p as nat)[i]));
    }
    leading_zeros_do_not_matter(number::decimal(p as nat), u16::MAX as nat);
}

/// White space round the key and round the value of a parameter does not matter.
pub proof fn padding_of_parameters_does_not_matter(
    a: Seq<char>,
    key: Seq<char>,
    b: Seq<char>,
    c: Seq<char>,
    value: Seq<char>,
    d: Seq<char>,
)
    requires
        forall|i: int| 0 <= i < a.len() ==> text::is_white_space(#[trigger] a[i]),
        forall|i: int| 0 <= i < b.len() ==> text::is_white_space(#[trigger] b[i]),
        forall|i: int| 0 <= i < c.len() ==> text::is_white_space(#[trigger] c[i]),
        forall|i: int| 0 <= i < d.len() ==> text::is_white_space(#[trigger] d[i]),
        !key.contains(':'),
    ensures
        designation::parameter(a + key + b + seq![':'] + (c + value + d)) == designation::parameter(
            key + seq![':'] + value,
        ),
{
    let padded = a + key + b;
    assert forall|i: int| 0 <= i < padded.len() implies padded[i] != ':' by {
        if i < a.len() {
            assert(padded[i] == a[i]);
        } else if i < a.len() + key.len() {
            assert(padded[i] == key[i - a.len()]);
            assert(key.contains(key[i - a.len()]));
        } else {
            assert(padded[i] == b[i - a.len() - key.len()]);
        }
    }
    text::lemma_cut(padded, ':', c + value + d);
    text::lemma_cut(key, ':', value);
    text::trim_ignores_padding(a, key, b);
    text::trim_ignores_padding(c, value, d);
}

/// A parameter without a colon is none, and one of an unknown name is refused by that name.
pub proof fn parameters_need_a_colon_and_a_known_name(key: Seq<char>, value: Seq<char>)
    requires
        !key.contains(':'),
    ensures
        designation::parameter(key) == Err::<ParameterView, _>(ServiceFault::InvalidParameter(key)),
        text::trim(key) != "check"@ && text::trim(key) != "port"@ && text::trim(key) != "rise"@
            && text::trim(key) != "fall"@ ==> designation::parameter(key + seq![':'] + value)
            == Err::<ParameterView, _>(ServiceFault::UnknownParameter(text::trim(key))),
{
    text::lemma_no_cut(key, ':');
    text::lemma_cut(key, ':', value);
}

/// A parameter of a known name is what its value writes.
pub proof fn parameters_are_what_is_written(value: Seq<char>)
    ensures
        designation::parameter("check:"@ + value) == (if text::trim(value).len() == 0 {
            Err(ServiceFault::EmptyEndpoint)
        } else {
            Ok(ParameterView::Check(text::trim(value)))
        }),
        designation::parameter("port:"@ + value) == (match designation::port_value(
            text::trim(value),
            "health check"@,
        ) {
            Ok(n) => Ok(ParameterView::Port(n)),
            Err(e) => Err(e),
        }),
        designation::parameter("rise:"@ + value) == (match number::unsigned(
            text::trim(value),
            65535,
        ) {
            Some(n) => Ok(ParameterView::Rise(n as u16)),
            None => Err(ServiceFault::InvalidRise(text::trim(value))),
        }),
        designation::parameter("fall:"@ + value) == (match number::unsigned(
            text::trim(value),
            65535,
        ) {
            Some(n) => Ok(ParameterView::Fall(n as u16)),
            None => Err(ServiceFault::InvalidFall(text::trim(value))),
        }),
{
    reveal_strlit("check");
    reveal_strlit("port");
    reveal_strlit("rise");
    reveal_strlit("fall");
    reveal_strlit("check:");
    reveal_strlit("port:");
    reveal_strlit("rise:");
    reveal_strlit("fall:");
    assert("check:"@ + value =~= "check"@ + seq![':'] + value);
    assert("port:"@ + value =~= "port"@ + seq![':'] + value);
    assert("rise:"@ + value =~= "rise"@ + seq![':'] + value);
    assert("fall:"@ + value =~= "fall"@ + seq![':'] + value);
    text::lemma_cut("check"@, ':', value);
    text::lemma_cut("port"@, ':', value);
    text::lemma_cut("rise"@, ':', value);
    text::lemma_cut("fall"@, ':', value);
    text::trim_leaves_trimmed("check"@);
    text::trim_leaves_trimmed("port"@);
    text::trim_leaves_trimmed("rise"@);
    text::trim_leaves_trimmed("fall"@);
    assert("check"@[0] == 'c' && "port"@[0] == 'p' && "rise"@[0] == 'r' && "fall"@[0] == 'f');
}

/// One more parameter sets what it is for and leaves the rest; a fault is that of the first faulty
/// one.
pub proof fn each_parameter_sets_its_own(pairs: Seq<Seq<char>>, pair: Seq<char>)
    ensures
        designation::health_check_from(Seq::empty()) == Ok::<_, ServiceFault>(
            HealthCheck { endpoint: None, port: None, rise: None, fall: None },
        ),
        designation::health_check_from(pairs.push(pair)) == (match designation::health_check_from(
            pairs,
        ) {
            Err(e) => Err(e),
            Ok(h) => match designation::parameter(pair) {
                Err(e) => Err(e),
                Ok(ParameterView::Check(x)) => Ok(
                    HealthCheck { endpoint: Some(x), port: h.port, rise: h.rise, fall: h.fall },
                ),
                Ok(ParameterView::Port(x)) => Ok(
                    HealthCheck { endpoint: h.endpoint, port: Some(x), rise: h.rise, fall: h.fall },
                ),
                Ok(ParameterView::Rise(x)) => Ok(
                    HealthCheck { endpoint: h.endpoint, port: h.port, rise: Some(x), fall: h.fall },
                ),
                Ok(ParameterView::Fall(x)) => Ok(
                    HealthCheck { endpoint: h.endpoint, port: h.port, rise: h.rise, fall: Some(x) },
                ),
            },
        }),
{
    assert(pairs.push(pair).drop_last() =~= pairs);
}

/// Braces at the ends of a health check do not matter, however many there are, and the parameters
/// between them are parted by commas; two braces with nothing between them give none.
pub proof fn health_checks_stand_between_braces(
    opening: Seq<char>,
    s: Seq<char>,
    closing: Seq<char>,
)
    requires
        forall|i: int| 0 <= i < opening.len() ==> #[trigger] opening[i] == '{',
        forall|i: int| 0 <= i < closing.len() ==> #[trigger] closing[i] == '}',
        s.len() > 0 ==> s.first() != '{' && s.last() != '}',
    ensures
        text::trim(s).len() == 0 && opening.len() == 1 && closing.len() == 1
            ==> designation::health_check(opening + s + closing) == Ok::<_, ServiceFault>(
            HealthCheck { endpoint: None, port: None, rise: None, fall: None },
        ),
        text::trim(s).len() > 0 || opening.len() != 1 || closing.len() != 1
            ==> designation::health_check(opening + s + closing) == designation::health_check_from(
            text::split(s, ','),
        ),
{
    let whole = opening + s + closing;
    lemma_strip_leading(opening, s + closing);
    lemma_strip_trailing(s, closing);
    assert(whole =~= opening + (s + closing));
    if s.len() == 0 {
        assert(s =~= Seq::empty());
        assert(s + closing =~= closing);
    } else {
        assert((s + closing).first() == s.first());
    }
    assert(designation::unbraced(whole) == s);
    if opening.len() == 1 && closing.len() == 1 {
        assert(whole.subrange(1, whole.len() - 1) =~= s);
        assert(whole.first() == opening[0] && whole.last() == closing[0]);
    } else if designation::is_empty_block(whole) {
        let inner = whole.subrange(1, whole.len() - 1);
        let from = text::trim_takes_white_space_only(inner);
        assert(forall|i: int| 0 <= i < inner.len() ==> text::is_white_space(#[trigger] inner[i]));
        if opening.len() > 1 {
            if whole.len() > 2 {
                assert(inner[0] == opening[1]);
            } else {
                assert(whole.last() == opening[1]);
            }
        } else if opening.len() == 0 {
            if s.len() > 0 {
                assert(whole.first() == s.first());
            } else {
                assert(whole.first() == closing[0]);
            }
        } else if closing.len() == 0 {
            if s.len() > 0 {
                assert(whole.last() == s.last());
            }
        } else {
            assert(inner[inner.len() - 1] == closing[closing.len() - 2]);
        }
        assert(false);
    }
}

proof fn lemma_strip_leading(opening: Seq<char>, s: Seq<char>)
    requires
        forall|i: int| 0 <= i < opening.len() ==> #[trigger] opening[i] == '{',
        s.len() > 0 ==> s.first() != '{',
    ensures
        text::strip_leading(opening + s, '{') == s,
    decreases opening.len(),
{
    let whole = opening + s;
    if opening.len() == 0 {
        assert(whole =~= s);
    } else {
        assert(whole.first() == opening[0]);
        assert(whole.drop_first() =~= opening.drop_first() + s);
        lemma_strip_leading(opening.drop_first(), s);
    }
}

proof fn lemma_strip_trailing(s: Seq<char>, closing: Seq<char>)
    requires
        forall|i: int| 0 <= i < closing.len() ==> #[trigger] closing[i] == '}',
        s.len() > 0 ==> s.last() != '}',
    ensures
        text::strip_trailing(s + closing, '}') == s,
    decreases closing.len(),
{
    let whole = s + closing;
    if closing.len() == 0 {
        assert(whole =~= s);
    } else {
        assert(whole.last() == closing[closing.len() - 1]);
        assert(whole.drop_last() =~= s + closing.drop_last());
        lemma_strip_trailing(s, closing.drop_last());
    }
}

/// A designation has a protocol before `://`, which is one of six in small or capital letters and
/// decides the type of the service.
pub proof fn the_protocol_decides_the_type(s: Seq<char>)
    ensures
        match text::cut_text(s, "://"@) {
            None => designation::designated(s) == Err::<ServiceView, _>(
                ServiceFault::MissingScheme,
            ),
            Some((protocol, _)) => {
                let lower = text::ascii_lowercase(protocol);
                &&& lower != "http"@ && lower != "https"@ && lower != "https+insecure"@ && lower
                    != "https-http"@ && lower != "tcp"@ && lower != "tcp-proxy-v2"@
                    ==> designation::designated(s) == Err::<ServiceView, _>(
                    ServiceFault::UnsupportedProtocol(protocol),
                )
                &&& designation::designated(s) matches Ok(v) ==> lower == (match v.service_type {
                    ServiceType::Http => "http"@,
                    ServiceType::Https => "https"@,
                    ServiceType::HttpsInsecure => "https+insecure"@,
                    ServiceType::HttpsHttp => "https-http"@,
                    ServiceType::Tcp => "tcp"@,
                    ServiceType::TcpProxyV2 => "tcp-proxy-v2"@,
                })
            },
        },
{
}

/// What is read of a designation whose parts are these: each part for itself, and of the faults
/// that of the first faulty part.
pub proof fn designations_are_read_part_by_part(
    protocol: Seq<char>,
    t: ServiceType,
    listen: Seq<char>,
    name: Seq<char>,
    backend: Option<Seq<char>>,
    checks: Seq<char>,
)
    requires
        text::ascii_lowercase(protocol) == (match t {
            ServiceType::Http => "http"@,
            ServiceType::Https => "https"@,
            ServiceType::HttpsInsecure => "https+insecure"@,
            ServiceType::HttpsHttp => "https-http"@,
            ServiceType::Tcp => "tcp"@,
            ServiceType::TcpProxyV2 => "tcp-proxy-v2"@,
        }),
        !listen.contains(':') && !listen.contains('{'),
        !name.contains(':') && !name.contains('{'),
        backend matches Some(b) ==> !b.contains('{'),
        checks.len() > 0 ==> checks.first() == '{',
    ensures
        designation::designated(
            protocol + "://"@ + (listen + seq![':'] + (match backend {
                Some(b) => name + seq![':'] + b,
                None => name,
            }) + checks),
        ) == (match designation::port_value(listen, "listen"@) {
            Err(e) => Err(e),
            Ok(listen_port) => match (match backend {
                None => Ok(None),
                Some(b) => match designation::port_value(b, "backend"@) {
                    Ok(p) => Ok(Some(p)),
                    Err(e) => Err(e),
                },
            }) {
                Err(e) => Err(e),
                Ok(backend_port) => match (if checks.len() == 0 {
                    Ok(HealthCheck { endpoint: None, port: None, rise: None, fall: None })
                } else {
                    designation::health_check(checks)
                }) {
                    Err(e) => Err(e),
                    Ok(h) => Ok(
                        ServiceView {
                            service_type: t,
                            listen_port,
                            backend_name: name,
                            backend_port,
                            http_check_endpoint: h.endpoint,
                            check_port: h.port,
                            check_rise: h.rise,
                            check_fall: h.fall,
                        },
                    ),
                },
            },
        }),
{
    let behind = match backend {
        Some(b) => name + seq![':'] + b,
        None => name,
    };
    let address = listen + seq![':'] + behind;
    let rest = address + checks;
    lemma_scheme(protocol, t, rest);
    assert forall|i: int| 0 <= i < address.len() implies address[i] != '{' by {
        let k = i - listen.len() - 1;
        if i < listen.len() {
            assert(listen.contains(listen[i]));
        } else if k >= 0 {
            assert(address[i] == behind[k]);
            if k < name.len() {
                assert(name.contains(name[k]));
            } else if k > name.len() {
                let b = backend->0;
                assert(behind[k] == b[k - name.len() - 1]);
                assert(b.contains(b[k - name.len() - 1]));
            }
        }
    }
    lemma_apart(address, checks);
    text::lemma_cut(listen, ':', behind);
    match backend {
        None => {
            text::lemma_no_cut(name, ':');
        },
        Some(b) => {
            text::lemma_cut(name, ':', b);
        },
    }
}

/// A designation whose address has no colon lacks a part.
pub proof fn addresses_need_a_colon(
    protocol: Seq<char>,
    t: ServiceType,
    address: Seq<char>,
    checks: Seq<char>,
)
    requires
        text::ascii_lowercase(protocol) == (match t {
            ServiceType::Http => "http"@,
            ServiceType::Https => "https"@,
            ServiceType::HttpsInsecure => "https+insecure"@,
            ServiceType::HttpsHttp => "https-http"@,
            ServiceType::Tcp => "tcp"@,
            ServiceType::TcpProxyV2 => "tcp-proxy-v2"@,
        }),
        !address.contains(':') && !address.contains('{'),
        checks.len() > 0 ==> checks.first() == '{',
    ensures
        designation::designated(protocol + "://"@ + (address + checks)) == Err::<ServiceView, _>(
            ServiceFault::MissingParts,
        ),
{
    lemma_scheme(protocol, t, address + checks);
    lemma_apart(address, checks);
    text::lemma_no_cut(address, ':');
}

/// What stands before and behind `://`, behind a protocol.
proof fn lemma_scheme(protocol: Seq<char>, t: ServiceType, rest: Seq<char>)
    requires
        text::ascii_lowercase(protocol) == service::protocol_name(t),
    ensures
        designation::type_part(protocol + "://"@ + rest) == Ok::<_, ServiceFault>((t, rest)),
{
    let lower = text::ascii_lowercase(protocol);
    service::lemma_name_chars(t);
    service::protocol_names_are_unique(t, lower);
    assert forall|i: int| 0 <= i < protocol.len() implies protocol[i] != ':' by {
        assert(service::is_name_char(lower[i]));
        assert(lower[i] == text::ascii_lower(protocol[i]));
    }
    reveal_strlit("://");
    assert("://"@.first() == ':');
    text::lemma_cut_text(protocol, "://"@, rest);
}

/// A health check starts at the first opening brace.
proof fn lemma_apart(address: Seq<char>, checks: Seq<char>)
    requires
        !address.contains('{'),
        checks.len() > 0 ==> checks.first() == '{',
    ensures
        designation::checks_apart(address + checks) == (address, if checks.len() == 0 {
            None
        } else {
            Some(checks)
        }),
{
    let rest = address + checks;
    if checks.len() == 0 {
        assert(rest =~= address);
        text::lemma_no_cut(address, '{');
    } else {
        assert(rest =~= address + seq!['{'] + checks.drop_first());
        text::lemma_cut(address, '{', checks.drop_first());
        assert(rest.take(address.len() as int) =~= address);
        assert(rest.skip(address.len() as int) =~= checks);
    }
}

/// What a fault is in words: what is wrong, and the text that it is about.
pub proof fn faults_are_told_in_words(a: Seq<char>, kind: Seq<char>)
    ensures
        ServiceFault::MissingScheme.message()
            == "Invalid service designation format, missing '://'"@,
        ServiceFault::UnsupportedProtocol(a).message() == "Unsupported protocol: "@ + a,
        ServiceFault::MissingParts.message()
            == "Invalid service designation format, expecting at least <listen port>:<backend name>"@,
        (ServiceFault::InvalidPort { kind, text: a }).message() == "Invalid "@ + kind + " port: "@
            + a,
        (ServiceFault::PortOutOfRange { kind, text: a }).message() == kind
            + " port out of valid range ("@ + number::decimal(1) + "-"@ + number::decimal(65534)
            + "): "@ + a,
        ServiceFault::InvalidParameter(a).message() == "Invalid health check parameter format: "@
            + a,
        ServiceFault::EmptyEndpoint.message() == "Health check endpoint cannot be empty"@,
        ServiceFault::InvalidRise(a).message() == "Invalid rise value: "@ + a,
        ServiceFault::InvalidFall(a).message() == "Invalid fall value: "@ + a,
        ServiceFault::UnknownParameter(a).message() == "Unknown health check parameter: "@ + a,
{
}

/// Braces are open where the last brace opens.
pub proof fn the_last_brace_decides(s: Seq<char>)
    ensures
        portmap::in_braces(s) <==> exists|i: int|
            0 <= i < s.len() && #[trigger] s[i] == '{' && (forall|j: int|
                i < j < s.len() ==> #[trigger] s[j] != '}'),
    decreases s.len(),
{
    if s.len() > 0 {
        let front = s.drop_last();
        let last = s.len() - 1;
        the_last_brace_decides(front);
        if s.last() == '{' {
            assert(s[last] == '{');
        } else if s.last() == '}' {
            assert(s[last] == '}');
        } else if portmap::in_braces(front) {
            let i = choose|i: int|
                0 <= i < front.len() && #[trigger] front[i] == '{' && (forall|j: int|
                    i < j < front.len() ==> #[trigger] front[j] != '}');
            assert(s[i] == '{');
            assert forall|j: int| i < j < s.len() implies #[trigger] s[j] != '}' by {
                if j < last {
                    assert(front[j] != '}');
                }
            }
        } else if exists|i: int|
            0 <= i < s.len() && #[trigger] s[i] == '{' && (forall|j: int|
                i < j < s.len() ==> #[trigger] s[j] != '}') {
            let i = choose|i: int|
                0 <= i < s.len() && #[trigger] s[i] == '{' && (forall|j: int|
                    i < j < s.len() ==> #[trigger] s[j] != '}');
            assert(front[i] == '{');
            assert forall|j: int| i < j < front.len() implies #[trigger] front[j] != '}' by {
                assert(s[j] != '}');
            }
        }
    }
}

/// A comma, a space or a newline outside braces parts a port map in two.
pub proof fn commas_spaces_and_newlines_part_entries(a: Seq<char>, c: char, b: Seq<char>)
    requires
        c == ',' || c == ' ' || c == '\n',
        !portmap::in_braces(a),
    ensures
        portmap::entries(a + seq![c] + b) == portmap::entries(a) + portmap::entries(b),
{
    portmap::delimiters_part_port_maps(a, c, b);
}

/// Where no comma, space or newline stands outside braces there is one entry, which is the text
/// without the white space round it; of a blank text there is none.
pub proof fn what_is_not_parted_is_one_entry(s: Seq<char>)
    requires
        forall|i: int|
            0 <= i < s.len() && (#[trigger] s[i] == ',' || s[i] == ' ' || s[i] == '\n')
                ==> portmap::in_braces(s.take(i)),
    ensures
        text::trim(s).len() > 0 ==> portmap::entries(s) == seq![text::trim(s)],
        text::trim(s).len() == 0 ==> portmap::entries(s).len() == 0,
{
    assert(portmap::is_unparted(s));
    if text::trim(s).len() > 0 {
        portmap::unparted_text_is_one_entry(s);
    } else {
        portmap::lemma_one_segment(s);
        assert(seq![s].drop_last() =~= Seq::<Seq<char>>::empty());
        assert(portmap::entries_of(Seq::<Seq<char>>::empty()) =~= Seq::<Seq<char>>::empty());
    }
}

/// One more entry adds the service that it designates, or itself with the fault in words.
pub proof fn each_entry_is_accepted_or_refused(list: Seq<Seq<char>>, entry: Seq<char>)
    ensures
        portmap::accepted(Seq::empty()).len() == 0 && portmap::refused(Seq::empty()).len() == 0,
        match designation::designated(entry) {
            Ok(v) => {
                &&& portmap::accepted(list.push(entry)) == portmap::accepted(list).push(v)
                &&& portmap::refused(list.push(entry)) == portmap::refused(list)
            },
            Err(fault) => {
                &&& portmap::accepted(list.push(entry)) == portmap::accepted(list)
                &&& portmap::refused(list.push(entry)) == portmap::refused(list).push(
                    RejectedView { string: entry, errors: seq![fault.message()] },
                )
            },
        },
{
    assert(list.push(entry).drop_last() =~= list);
}

/// The view of a service shows each of its fields.
pub proof fn views_of_services_are_complete(s: Service)
    ensures
        s@.service_type == s.service_type,
        s@.listen_port == s.listen_port,
        s@.backend_name == s.backend_name@,
        s@.backend_port == s.backend_port,
        s@.http_check_endpoint == (match s.http_check_endpoint {
            Some(x) => Some(x@),
            None => None,
        }),
        s@.check_port == s.check_port,
        s@.check_rise == s.check_rise,
        s@.check_fall == s.check_fall,
{
}

/// The views of refused entries and of files show what they hold, and those of lists show each
/// member in its place.
pub proof fn views_of_lists_are_complete(
    services: Seq<Service>,
    refused: Seq<RejectedService>,
    files: Seq<ConfigFile>,
    i: int,
)
    ensures
        portmap::service_views(services).len() == services.len(),
        portmap::rejected_views(refused).len() == refused.len(),
        configure::file_views(files).len() == files.len(),
        0 <= i < services.len() ==> portmap::service_views(services)[i] == services[i]@,
        0 <= i < refused.len() ==> {
            let view = portmap::rejected_views(refused)[i];
            &&& view.string == refused[i].string@
            &&& view.errors.len() == refused[i].errors@.len()
            &&& forall|j: int|
                0 <= j < view.errors.len() ==> #[trigger] view.errors[j] == refused[i].errors@[j]@
        },
        0 <= i < files.len() ==> {
            let view = configure::file_views(files)[i];
            view.name == files[i].name@ && view.contents == files[i].contents@
        },
{
}

/// The view of an error says which it is, and of what.
pub proof fn views_of_errors_are_complete(e: ServiceError)
    ensures
        match e {
            ServiceError::MissingScheme => e@ == ServiceFault::MissingScheme,
            ServiceError::UnsupportedProtocol(x) => e@ == ServiceFault::UnsupportedProtocol(x@),
            ServiceError::MissingParts => e@ == ServiceFault::MissingParts,
            ServiceError::InvalidPort { kind, text } => e@ == (ServiceFault::InvalidPort {
                kind: kind@,
                text: text@,
            }),
            ServiceError::PortOutOfRange { kind, text } => e@ == (ServiceFault::PortOutOfRange {
                kind: kind@,
                text: text@,
            }),
            ServiceError::InvalidParameter(x) => e@ == ServiceFault::InvalidParameter(x@),
            ServiceError::EmptyEndpoint => e@ == ServiceFault::EmptyEndpoint,
            ServiceError::InvalidRise(x) => e@ == ServiceFault::InvalidRise(x@),
            ServiceError::InvalidFall(x) => e@ == ServiceFault::InvalidFall(x@),
            ServiceError::UnknownParameter(x) => e@ == ServiceFault::UnknownParameter(x@),
        },
{
}

/// What a type of service is: its name, its mode and where it speaks TLS.
pub proof fn types_are_what_they_are_named(t: ServiceType)
    ensures
        service::protocol_name(t) == (match t {
            ServiceType::Http => "http"@,
            ServiceType::Https => "https"@,
            ServiceType::HttpsInsecure => "https+insecure"@,
            ServiceType::HttpsHttp => "https-http"@,
            ServiceType::Tcp => "tcp"@,
            ServiceType::TcpProxyV2 => "tcp-proxy-v2"@,
        }),
        service::mode_of(t) == (match t {
            ServiceType::Tcp => ServiceType::Tcp,
            ServiceType::TcpProxyV2 => ServiceType::Tcp,
            _ => ServiceType::Http,
        }),
        service::is_layer4(t) <==> t is Tcp || t is TcpProxyV2,
        service::has_frontend_tls(t) <==> t is Https || t is HttpsInsecure || t is HttpsHttp,
        service::has_backend_tls(t) <==> t is Https || t is HttpsInsecure,
{
}

/// A type of service is found by its own name, and by no other text.
pub proof fn types_are_found_by_name(name: Seq<char>)
    ensures
        match service::protocol_named(name) {
            Some(t) => name == service::protocol_name(t),
            None => forall|t: ServiceType| name != #[trigger] service::protocol_name(t),
        },
        forall|t: ServiceType|
            name == #[trigger] service::protocol_name(t) ==> service::protocol_named(name) == Some(
                t,
            ),
{
    assert forall|t: ServiceType| name == #[trigger] service::protocol_name(t) implies
        service::protocol_named(name) == Some(t) by {
        service::protocol_names_are_unique(t, name);
    }
    if let Some(t) = service::protocol_named(name) {
        service::protocol_names_are_unique(t, name);
    }
}

/// A backend port is written behind a colon, and nothing where there is none.
pub proof fn backend_ports_stand_behind_a_colon(p: u16)
    ensures
        service::port_suffix(Some(p)) == seq![':'] + number::decimal(p as nat),
        service::port_suffix(None).len() == 0,
{
}

/// What hashing hands on of a machine word, low byte first.
pub open spec fn word(n: u8) -> Seq<u8> {
    seq![n] + Seq::new(((usize::BITS / 8) - 1) as nat, |i: int| 0u8)
}

/// What hashing hands on of an optional number.
pub open spec fn number_or_none(n: Option<u16>) -> Seq<Seq<u8>> {
    match n {
        None => seq![word(0)],
        Some(n) => seq![word(1), seq![(n % 256) as u8, (n / 256) as u8]],
    }
}

/// A cookie key is the hexadecimal hash of the fields in order, each handed on whole.
pub proof fn cookie_keys_hash_every_field(s: ServiceView)
    ensures
        service::cookie_key(s) == number::hexadecimal(
            <std::hash::DefaultHasher as vstd::std_specs::hash::DefaultHasherAdditionalSpecFns>::spec_finish(
                seq![
                    word(
                        match s.service_type {
                            ServiceType::Http => 0,
                            ServiceType::Https => 1,
                            ServiceType::HttpsInsecure => 2,
                            ServiceType::HttpsHttp => 3,
                            ServiceType::Tcp => 4,
                            ServiceType::TcpProxyV2 => 5,
                        },
                    ),
                    seq![(s.listen_port % 256) as u8, (s.listen_port / 256) as u8],
                    vstd::utf8::encode_utf8(s.backend_name),
                    seq![0xffu8],
                ] + number_or_none(s.backend_port) + (match s.http_check_endpoint {
                    None => seq![word(0)],
                    Some(x) => seq![word(1), vstd::utf8::encode_utf8(x), seq![0xffu8]],
                }) + number_or_none(s.check_port) + number_or_none(s.check_rise) + number_or_none(
                    s.check_fall,
                ),
            ) as nat,
        ),
{
    assert forall|n: u8| #[trigger] word(n) == service::variant_bytes(n) by {
        assert(word(n) =~= service::variant_bytes(n));
    }
    assert(number_or_none(s.backend_port) =~= service::optional_u16_writes(s.backend_port));
    assert(number_or_none(s.check_port) =~= service::optional_u16_writes(s.check_port));
    assert(number_or_none(s.check_rise) =~= service::optional_u16_writes(s.check_rise));
    assert(number_or_none(s.check_fall) =~= service::optional_u16_writes(s.check_fall));
    let endpoint = match s.http_check_endpoint {
        None => seq![word(0)],
        Some(x) => seq![word(1), vstd::utf8::encode_utf8(x), seq![0xffu8]],
    };
    assert(endpoint =~= service::optional_text_writes(s.http_check_endpoint));
    let head = seq![
        word(service::type_variant(s.service_type)),
        seq![(s.listen_port % 256) as u8, (s.listen_port / 256) as u8],
        vstd::utf8::encode_utf8(s.backend_name),
        seq![0xffu8],
    ];
    assert(head =~= seq![
        service::variant_bytes(service::type_variant(s.service_type)),
        service::u16_bytes(s.listen_port),
    ] + service::text_writes(s.backend_name));
}

/// It does not matter which of two stretches is put to its neighbour first.
proof fn lemma_add<A>(a: Seq<A>, b: Seq<A>, c: Seq<A>)
    ensures
        a + b + c == a + (b + c),
{
    assert(a + b + c =~= a + (b + c));
}

/// Services that differ hand different bytes to the hash that makes their cookie keys.
pub proof fn different_services_hash_different_bytes(a: ServiceView, b: ServiceView)
    requires
        service::service_writes(a) == service::service_writes(b),
    ensures
        a == b,
{
    lemma_writes(a);
    lemma_writes(b);
    let w = service::service_writes(a);
    assert(w[0] == service::variant_bytes(service::type_variant(a.service_type)));
    assert(w[0] == service::variant_bytes(service::type_variant(b.service_type)));
    assert(w[0][0] == service::type_variant(a.service_type));
    assert(w[0][0] == service::type_variant(b.service_type));
    lemma_u16_bytes(a.listen_port, b.listen_port);
    lemma_encoding(a.backend_name, b.backend_name);
    lemma_u16_first(
        a.backend_port,
        b.backend_port,
        fields_from_endpoint(a),
        fields_from_endpoint(b),
    );
    lemma_text_first(
        a.http_check_endpoint,
        b.http_check_endpoint,
        fields_from_check_port(a),
        fields_from_check_port(b),
    );
    lemma_u16_first(
        a.check_port,
        b.check_port,
        service::optional_u16_writes(a.check_rise) + service::optional_u16_writes(a.check_fall),
        service::optional_u16_writes(b.check_rise) + service::optional_u16_writes(b.check_fall),
    );
    lemma_u16_first(
        a.check_rise,
        b.check_rise,
        service::optional_u16_writes(a.check_fall),
        service::optional_u16_writes(b.check_fall),
    );
    let none = Seq::<Seq<u8>>::empty();
    assert(service::optional_u16_writes(a.check_fall) + none =~= service::optional_u16_writes(
        b.check_fall,
    ) + none);
    lemma_u16_first(a.check_fall, b.check_fall, none, none);
}

spec fn fields_from_check_port(s: ServiceView) -> Seq<Seq<u8>> {
    service::optional_u16_writes(s.check_port) + (service::optional_u16_writes(s.check_rise)
        + service::optional_u16_writes(s.check_fall))
}

spec fn fields_from_endpoint(s: ServiceView) -> Seq<Seq<u8>> {
    service::optional_text_writes(s.http_check_endpoint) + fields_from_check_port(s)
}

/// What is handed to the hash of a service, field by field.
proof fn lemma_writes(s: ServiceView)
    ensures
        ({
            let w = service::service_writes(s);
            &&& w.len() > 4
            &&& w[0] == service::variant_bytes(service::type_variant(s.service_type))
            &&& w[1] == service::u16_bytes(s.listen_port)
            &&& w[2] == vstd::utf8::encode_utf8(s.backend_name)
            &&& w.skip(4) == service::optional_u16_writes(s.backend_port) + fields_from_endpoint(s)
        }),
{
    let head = seq![
        service::variant_bytes(service::type_variant(s.service_type)),
        service::u16_bytes(s.listen_port),
    ] + service::text_writes(s.backend_name);
    let b = service::optional_u16_writes(s.backend_port);
    let e = service::optional_text_writes(s.http_check_endpoint);
    let p = service::optional_u16_writes(s.check_port);
    let r = service::optional_u16_writes(s.check_rise);
    let f = service::optional_u16_writes(s.check_fall);
    lemma_add(head + b + e + p, r, f);
    lemma_add(head + b + e, p, r + f);
    lemma_add(head + b, e, p + (r + f));
    lemma_add(head, b, e + (p + (r + f)));
    let w = service::service_writes(s);
    assert(w == head + (b + fields_from_endpoint(s)));
    assert(head.len() == 4);
    assert(w.skip(4) =~= b + fields_from_endpoint(s));
}

proof fn lemma_u16_bytes(a: u16, b: u16)
    requires
        service::u16_bytes(a) == service::u16_bytes(b),
    ensures
        a == b,
{
    assert(service::u16_bytes(a)[0] == service::u16_bytes(b)[0]);
    assert(service::u16_bytes(a)[1] == service::u16_bytes(b)[1]);
    assert(a % 256 == b % 256 && a / 256 == b / 256);
}

proof fn lemma_encoding(a: Seq<char>, b: Seq<char>)
    requires
        vstd::utf8::encode_utf8(a) == vstd::utf8::encode_utf8(b),
    ensures
        a == b,
{
    vstd::utf8::encode_utf8_decode_utf8(a);
    vstd::utf8::encode_utf8_decode_utf8(b);
}

proof fn lemma_u16_first(a: Option<u16>, b: Option<u16>, x: Seq<Seq<u8>>, y: Seq<Seq<u8>>)
    requires
        service::optional_u16_writes(a) + x == service::optional_u16_writes(b) + y,
    ensures
        a == b,
        x == y,
{
    let wa = service::optional_u16_writes(a);
    let wb = service::optional_u16_writes(b);
    let w = wa + x;
    assert(w[0] == wa[0] && w[0] == wb[0]);
    assert(w[0][0] == if a is Some { 1u8 } else { 0u8 });
    assert(w[0][0] == if b is Some { 1u8 } else { 0u8 });
    if a is Some {
        assert(w[1] == service::u16_bytes(a->0) && w[1] == service::u16_bytes(b->0));
        lemma_u16_bytes(a->0, b->0);
    }
    assert(x =~= w.skip(wa.len() as int));
    assert(y =~= w.skip(wb.len() as int));
}

proof fn lemma_text_first(
    a: Option<Seq<char>>,
    b: Option<Seq<char>>,
    x: Seq<Seq<u8>>,
    y: Seq<Seq<u8>>,
)
    requires
        service::optional_text_writes(a) + x == service::optional_text_writes(b) + y,
    ensures
        a == b,
        x == y,
{
    let wa = service::optional_text_writes(a);
    let wb = service::optional_text_writes(b);
    let w = wa + x;
    assert(w[0] == wa[0] && w[0] == wb[0]);
    assert(w[0][0] == if a is Some { 1u8 } else { 0u8 });
    assert(w[0][0] == if b is Some { 1u8 } else { 0u8 });
    if a is Some {
        assert(w[1] == vstd::utf8::encode_utf8(a->0) && w[1] == vstd::utf8::encode_utf8(b->0));
        lemma_encoding(a->0, b->0);
    }
    assert(x =~= w.skip(wa.len() as int));
    assert(y =~= w.skip(wb.len() as int));
}

/// A label and a number where there is one, and nothing where there is none.
pub open spec fn labelled(label: Seq<char>, n: Option<u16>) -> Seq<char> {
    match n {
        Some(n) => label + number::decimal(n as nat),
        None => Seq::empty(),
    }
}

/// Each service has a front end of its number, which listens on its port, shows the certificate
/// chain where clients speak TLS, and hands on to the back end of the same number.
pub proof fn front_ends_listen_and_hand_on(i: nat, s: ServiceView, max_backends: nat)
    ensures
        ({
            let mode = match s.service_type {
                ServiceType::Tcp => "tcp"@,
                ServiceType::TcpProxyV2 => "tcp"@,
                _ => "http"@,
            };
            let certificate = match s.service_type {
                ServiceType::Https => " ssl crt "@ + "/opt/triton/tls/default/fullchain.pem"@,
                ServiceType::HttpsInsecure => " ssl crt "@
                    + "/opt/triton/tls/default/fullchain.pem"@,
                ServiceType::HttpsHttp => " ssl crt "@ + "/opt/triton/tls/default/fullchain.pem"@,
                _ => Seq::empty(),
            };
            ("\nfrontend fe"@ + number::decimal(i) + "\n\tmode "@ + mode + "\n\tbind *:"@
                + number::decimal(s.listen_port as nat) + certificate + "\n\tdefault_backend be"@
                + number::decimal(i) + "\n\nbackend be"@ + number::decimal(i) + "\n\tmode "@ + mode
                + "\n"@).is_prefix_of(render::service_text(i, s, max_backends))
        }),
{
    let whole = render::service_text(i, s, max_backends);
    let (front, middle, line) = lemma_block(i, s, max_backends);
    assert(whole.subrange(0, front.len() as int) =~= front);
}

/// Each service, of whatever type, has a line for its servers, which is its last: how many there
/// may be, where they are found, how they are spoken to, and how they are checked, with the port,
/// the rise and the fall that are given.
pub proof fn servers_are_checked_as_asked(i: nat, s: ServiceView, max_backends: nat)
    ensures
        ("\tserver-template rs "@ + number::decimal(max_backends) + " "@ + s.backend_name + (
        match s.backend_port {
            Some(p) => seq![':'] + number::decimal(p as nat),
            None => Seq::empty(),
        }) + (match s.service_type {
            ServiceType::Https =>
                " ssl verify required ca-file /opt/local/share/mozilla-rootcerts/cacert.pem"@,
            ServiceType::HttpsInsecure => " ssl verify none"@,
            ServiceType::TcpProxyV2 => " send-proxy-v2"@,
            _ => Seq::empty(),
        }) + " check"@ + labelled(" port "@, s.check_port) + labelled(" rise "@, s.check_rise)
            + labelled(" fall "@, s.check_fall)
            + " resolvers system init-addr none\n"@).is_suffix_of(
            render::service_text(i, s, max_backends),
        ),
{
    let whole = render::service_text(i, s, max_backends);
    let (front, middle, line) = lemma_block(i, s, max_backends);
    assert(whole.subrange(whole.len() - line.len(), whole.len() as int) =~= line);
}

/// How the servers of a service are checked can be read from its block: services that agree in
/// their type, backend name and backend port and are rendered alike have the same check port, rise
/// and fall.
pub proof fn different_checks_are_rendered_differently(
    i: nat,
    a: ServiceView,
    b: ServiceView,
    max_backends: nat,
)
    requires
        a.service_type == b.service_type,
        a.backend_name == b.backend_name,
        a.backend_port == b.backend_port,
        !a.backend_name.contains('\t'),
        render::service_text(i, a, max_backends) == render::service_text(i, b, max_backends),
    ensures
        a.check_port == b.check_port,
        a.check_rise == b.check_rise,
        a.check_fall == b.check_fall,
{
    let whole = render::service_text(i, a, max_backends);
    let (front_a, middle_a, line_a) = lemma_block(i, a, max_backends);
    let (front_b, middle_b, line_b) = lemma_block(i, b, max_backends);
    let start = "\tserver-template rs "@ + number::decimal(max_backends) + " "@ + a.backend_name
        + service::port_suffix(a.backend_port) + render::backend_options(a.service_type)
        + " check"@;
    lemma_line(start, a);
    lemma_line(start, b);
    assert(line_a == start + checks_of(a));
    assert(line_b == start + checks_of(b));
    lemma_no_tab_in_start(a, max_backends);
    lemma_no_tab_in_checks(a);
    lemma_no_tab_in_checks(b);
    lemma_same_last_line(front_a + middle_a, start, checks_of(a), front_b + middle_b, checks_of(b));
    lemma_checks_read_back(a, b);
}

/// The end of the line for the servers of a service.
spec fn checks_of(s: ServiceView) -> Seq<char> {
    labelled(" port "@, s.check_port) + (labelled(" rise "@, s.check_rise) + (labelled(
        " fall "@,
        s.check_fall,
    ) + " resolvers system init-addr none\n"@))
}

proof fn lemma_line(start: Seq<char>, s: ServiceView)
    ensures
        start + render::numbered(" port "@, s.check_port) + render::numbered(
            " rise "@,
            s.check_rise,
        ) + render::numbered(" fall "@, s.check_fall) + " resolvers system init-addr none\n"@
            == start + checks_of(s),
{
    let p = labelled(" port "@, s.check_port);
    let r = labelled(" rise "@, s.check_rise);
    let f = labelled(" fall "@, s.check_fall);
    let end = " resolvers system init-addr none\n"@;
    lemma_add(start + p + r, f, end);
    lemma_add(start + p, r, f + end);
    lemma_add(start, p, r + (f + end));
}

/// A text that holds no tab from position `from` on.
spec fn no_tab_from(s: Seq<char>, from: int) -> bool {
    forall|i: int| from <= i < s.len() ==> #[trigger] s[i] != '\t'
}

proof fn lemma_no_tab_behind(a: Seq<char>, b: Seq<char>, from: int)
    requires
        0 <= from <= a.len(),
        no_tab_from(a, from),
        no_tab_from(b, 0),
    ensures
        no_tab_from(a + b, from),
{
    assert forall|i: int| from <= i < (a + b).len() implies #[trigger] (a + b)[i] != '\t' by {
        if i < a.len() {
            assert(a[i] != '\t');
        } else {
            assert(b[i - a.len()] != '\t');
        }
    }
}

proof fn lemma_no_tab_in_decimal(n: nat)
    ensures
        no_tab_from(number::decimal(n), 0),
{
    number::lemma_decimal(n);
    assert forall|i: int| 0 <= i < number::decimal(n).len() implies #[trigger] number::decimal(n)[i]
        != '\t' by {
        assert(number::is_digit(number::decimal(n)[i]));
    }
}

proof fn lemma_no_tab_in_start(s: ServiceView, max_backends: nat)
    requires
        !s.backend_name.contains('\t'),
    ensures
        ({
            let start = "\tserver-template rs "@ + number::decimal(max_backends) + " "@
                + s.backend_name + service::port_suffix(s.backend_port) + render::backend_options(
                s.service_type,
            ) + " check"@;
            start.len() > 0 && start[0] == '\t' && no_tab_from(start, 1)
        }),
{
    reveal_strlit("\tserver-template rs ");
    reveal_strlit(" ");
    reveal_strlit(" check");
    reveal_strlit(" ssl verify required ca-file /opt/local/share/mozilla-rootcerts/cacert.pem");
    reveal_strlit(" ssl verify none");
    reveal_strlit(" send-proxy-v2");
    let options = render::backend_options(s.service_type);
    assert(no_tab_from(options, 0));
    let suffix = service::port_suffix(s.backend_port);
    if let Some(p) = s.backend_port {
        lemma_no_tab_in_decimal(p as nat);
        assert(no_tab_from(seq![':'], 0));
        lemma_no_tab_behind(seq![':'], number::decimal(p as nat), 0);
    }
    assert(no_tab_from(suffix, 0));
    assert forall|i: int| 0 <= i < s.backend_name.len() implies #[trigger] s.backend_name[i]
        != '\t' by {
        assert(s.backend_name.contains(s.backend_name[i]));
    }
    lemma_no_tab_in_decimal(max_backends);
    let l1 = "\tserver-template rs "@;
    let l2 = l1 + number::decimal(max_backends);
    let l3 = l2 + " "@;
    let l4 = l3 + s.backend_name;
    let l5 = l4 + suffix;
    let l6 = l5 + options;
    assert(l1[0] == '\t' && no_tab_from(l1, 1));
    lemma_no_tab_behind(l1, number::decimal(max_backends), 1);
    lemma_no_tab_behind(l2, " "@, 1);
    lemma_no_tab_behind(l3, s.backend_name, 1);
    lemma_no_tab_behind(l4, suffix, 1);
    lemma_no_tab_behind(l5, options, 1);
    lemma_no_tab_behind(l6, " check"@, 1);
    assert((l6 + " check"@)[0] == l1[0]);
}

proof fn lemma_no_tab_in_label(label: Seq<char>, n: Option<u16>)
    requires
        no_tab_from(label, 0),
    ensures
        no_tab_from(labelled(label, n), 0),
{
    if let Some(n) = n {
        lemma_no_tab_in_decimal(n as nat);
        lemma_no_tab_behind(label, number::decimal(n as nat), 0);
    }
}

proof fn lemma_no_tab_in_checks(s: ServiceView)
    ensures
        no_tab_from(checks_of(s), 0),
{
    reveal_strlit(" port ");
    reveal_strlit(" rise ");
    reveal_strlit(" fall ");
    reveal_strlit(" resolvers system init-addr none\n");
    let end = " resolvers system init-addr none\n"@;
    let f = labelled(" fall "@, s.check_fall);
    let r = labelled(" rise "@, s.check_rise);
    lemma_no_tab_in_label(" port "@, s.check_port);
    lemma_no_tab_in_label(" rise "@, s.check_rise);
    lemma_no_tab_in_label(" fall "@, s.check_fall);
    lemma_no_tab_behind(f, end, 0);
    lemma_no_tab_behind(r, f + end, 0);
    lemma_no_tab_behind(labelled(" port "@, s.check_port), r + (f + end), 0);
}

/// What stands from the last tab on is the same in one text.
proof fn lemma_same_last_line(
    x: Seq<char>,
    start: Seq<char>,
    a: Seq<char>,
    y: Seq<char>,
    b: Seq<char>,
)
    requires
        x + (start + a) == y + (start + b),
        start.len() > 0,
        start[0] == '\t',
        no_tab_from(start, 1),
        no_tab_from(a, 0),
        no_tab_from(b, 0),
    ensures
        a == b,
{
    let whole = x + (start + a);
    lemma_no_tab_behind(start, a, 1);
    lemma_no_tab_behind(start, b, 1);
    let la = start + a;
    let lb = start + b;
    assert(whole.len() == x.len() + la.len() && whole.len() == y.len() + lb.len());
    assert(whole[x.len() as int] == la[0] && la[0] == start[0]);
    assert((y + lb)[y.len() as int] == lb[0] && lb[0] == start[0]);
    if x.len() < y.len() {
        assert((x + la)[y.len() as int] == la[y.len() - x.len()]);
        assert(la[y.len() - x.len()] == '\t');
    } else if y.len() < x.len() {
        assert((y + lb)[x.len() as int] == lb[x.len() - y.len()]);
        assert(lb[x.len() - y.len()] == '\t');
    }
    assert(a =~= whole.skip((x.len() + start.len()) as int));
    assert(b =~= whole.skip((y.len() + start.len()) as int));
}

/// A labelled number is read back from before a space.
proof fn lemma_label_reads_back(
    label: Seq<char>,
    n: Option<u16>,
    x: Seq<char>,
    m: Option<u16>,
    y: Seq<char>,
)
    requires
        labelled(label, n) + x == labelled(label, m) + y,
        x.len() > 0 && x.first() == ' ' && y.len() > 0 && y.first() == ' ',
        !label.is_prefix_of(x) && !label.is_prefix_of(y),
    ensures
        n == m,
        x == y,
{
    if n is None && m is None {
        assert(labelled(label, n) + x =~= x);
        assert(labelled(label, m) + y =~= y);
    } else if n is None {
        assert(labelled(label, n) + x =~= x);
        assert(x.subrange(0, label.len() as int) =~= label);
    } else if m is None {
        assert(labelled(label, m) + y =~= y);
        assert(y.subrange(0, label.len() as int) =~= label);
    } else {
        let dn = number::decimal(n->0 as nat);
        let dm = number::decimal(m->0 as nat);
        let whole = label + dn + x;
        assert(whole.skip(label.len() as int) =~= dn + x);
        assert(whole.skip(label.len() as int) =~= dm + y);
        lemma_no_space_in_decimal(n->0 as nat);
        lemma_no_space_in_decimal(m->0 as nat);
        assert(dn + x =~= dn + seq![' '] + x.drop_first());
        assert(dm + y =~= dm + seq![' '] + y.drop_first());
        text::lemma_cut(dn, ' ', x.drop_first());
        text::lemma_cut(dm, ' ', y.drop_first());
        assert(x =~= seq![' '] + x.drop_first());
        assert(y =~= seq![' '] + y.drop_first());
        number::lemma_decimal(n->0 as nat);
        number::lemma_decimal(m->0 as nat);
    }
}

proof fn lemma_no_space_in_decimal(n: nat)
    ensures
        !number::decimal(n).contains(' '),
{
    number::lemma_decimal(n);
    assert forall|i: int| 0 <= i < number::decimal(n).len() implies number::decimal(n)[i]
        != ' ' by {
        assert(number::is_digit(number::decimal(n)[i]));
    }
}

/// What a text starts with, where a label and a number may stand before another text.
proof fn lemma_label_starts(label: Seq<char>, n: Option<u16>, x: Seq<char>)
    requires
        label.len() == 6,
        x.len() >= 3,
    ensures
        ({
            let whole = labelled(label, n) + x;
            &&& whole.len() >= 3
            &&& n is Some ==> whole[0] == label[0] && whole[1] == label[1] && whole[2] == label[2]
            &&& n is None ==> whole == x
        }),
{
    let whole = labelled(label, n) + x;
    if n is None {
        assert(whole =~= x);
    }
}

proof fn lemma_not_prefix(label: Seq<char>, x: Seq<char>)
    requires
        label.len() == 6,
        x.len() >= 3,
        x[1] != label[1] || x[2] != label[2],
    ensures
        !label.is_prefix_of(x),
{
    if label.is_prefix_of(x) {
        assert(x.subrange(0, 6)[1] == label[1]);
        assert(x.subrange(0, 6)[2] == label[2]);
    }
}

proof fn lemma_checks_read_back(a: ServiceView, b: ServiceView)
    requires
        checks_of(a) == checks_of(b),
    ensures
        a.check_port == b.check_port,
        a.check_rise == b.check_rise,
        a.check_fall == b.check_fall,
{
    let end = " resolvers system init-addr none\n"@;
    reveal_strlit(" port ");
    reveal_strlit(" rise ");
    reveal_strlit(" fall ");
    reveal_strlit(" resolvers system init-addr none\n");
    assert(" port "@[0] == ' ' && " port "@[1] == 'p' && " port "@[2] == 'o');
    assert(" rise "@[0] == ' ' && " rise "@[1] == 'r' && " rise "@[2] == 'i');
    assert(" fall "@[0] == ' ' && " fall "@[1] == 'f' && " fall "@[2] == 'a');
    assert(end[0] == ' ' && end[1] == 'r' && end[2] == 'e');
    let fa = labelled(" fall "@, a.check_fall) + end;
    let fb = labelled(" fall "@, b.check_fall) + end;
    let ra = labelled(" rise "@, a.check_rise) + fa;
    let rb = labelled(" rise "@, b.check_rise) + fb;
    lemma_label_starts(" fall "@, a.check_fall, end);
    lemma_label_starts(" fall "@, b.check_fall, end);
    lemma_label_starts(" rise "@, a.check_rise, fa);
    lemma_label_starts(" rise "@, b.check_rise, fb);
    lemma_not_prefix(" port "@, ra);
    lemma_not_prefix(" port "@, rb);
    lemma_label_reads_back(" port "@, a.check_port, ra, b.check_port, rb);
    lemma_not_prefix(" rise "@, fa);
    lemma_not_prefix(" rise "@, fb);
    lemma_label_reads_back(" rise "@, a.check_rise, fa, b.check_rise, fb);
    lemma_not_prefix(" fall "@, end);
    lemma_label_reads_back(" fall "@, a.check_fall, end, b.check_fall, end);
}

/// Between the lines that all services have stand those for cookies, at layer 7, with the key of
/// the service, and those for a health check over HTTP, where there is an endpoint; and no others.
pub proof fn cookies_and_endpoints_stand_between(i: nat, s: ServiceView, max_backends: nat) -> (r: (
    Seq<char>,
    Seq<char>,
))
    ensures
        ({
            let (front, line) = r;
            let cookie = if s.service_type is Tcp || s.service_type is TcpProxyV2 {
                Seq::empty()
            } else {
                "\tcookie CLOUD-TRITONCOMPUTE-RS insert indirect nocache dynamic\n\tdynamic-cookie-key "@
                    + service::cookie_key(s) + "\n"@
            };
            let check = match s.http_check_endpoint {
                Some(x) => "\toption httpchk GET "@ + x + "\n\thttp-check expect status 200\n"@,
                None => Seq::empty(),
            };
            let mode = match s.service_type {
                ServiceType::Tcp => "tcp"@,
                ServiceType::TcpProxyV2 => "tcp"@,
                _ => "http"@,
            };
            &&& render::service_text(i, s, max_backends) == front + (cookie + check) + line
            &&& ("\n\tmode "@ + mode + "\n"@).is_suffix_of(front)
            &&& ("\tserver-template rs "@ + number::decimal(max_backends) + " "@).is_prefix_of(line)
        }),
{
    let (front, middle, line) = lemma_block(i, s, max_backends);
    let mode = match s.service_type {
        ServiceType::Tcp => "tcp"@,
        ServiceType::TcpProxyV2 => "tcp"@,
        _ => "http"@,
    };
    lemma_front_ends_in_mode(
        "\nfrontend fe"@ + number::decimal(i) + "\n\tmode "@ + mode + "\n\tbind *:"@
            + number::decimal(s.listen_port as nat) + render::bind_options(s.service_type)
            + "\n\tdefault_backend be"@ + number::decimal(i) + "\n\nbackend be"@ + number::decimal(i),
        "\n\tmode "@,
        mode,
        "\n"@,
    );
    let start = "\tserver-template rs "@ + number::decimal(max_backends) + " "@;
    let l4 = start + s.backend_name;
    let l5 = l4 + service::port_suffix(s.backend_port);
    let l6 = l5 + render::backend_options(s.service_type);
    let l7 = l6 + " check"@;
    let l8 = l7 + render::numbered(" port "@, s.check_port);
    let l9 = l8 + render::numbered(" rise "@, s.check_rise);
    let l10 = l9 + render::numbered(" fall "@, s.check_fall);
    lemma_still_prefix(start, start, s.backend_name);
    lemma_still_prefix(start, l4, service::port_suffix(s.backend_port));
    lemma_still_prefix(start, l5, render::backend_options(s.service_type));
    lemma_still_prefix(start, l6, " check"@);
    lemma_still_prefix(start, l7, render::numbered(" port "@, s.check_port));
    lemma_still_prefix(start, l8, render::numbered(" rise "@, s.check_rise));
    lemma_still_prefix(start, l9, render::numbered(" fall "@, s.check_fall));
    lemma_still_prefix(start, l10, " resolvers system init-addr none\n"@);
    (front, line)
}

/// What a text ends in, where three stretches stand behind it.
proof fn lemma_front_ends_in_mode(a: Seq<char>, b: Seq<char>, c: Seq<char>, d: Seq<char>)
    ensures
        (b + c + d).is_suffix_of(a + b + c + d),
{
    let whole = a + b + c + d;
    let end = b + c + d;
    assert(whole.subrange(whole.len() - end.len(), whole.len() as int) =~= end);
}

/// A text starts with what it started with before another stood behind it.
proof fn lemma_still_prefix(start: Seq<char>, s: Seq<char>, more: Seq<char>)
    requires
        start == s || start.is_prefix_of(s),
    ensures
        start.is_prefix_of(s + more),
{
    if start == s {
        assert(s.subrange(0, s.len() as int) =~= s);
    }
    assert((s + more).subrange(0, start.len() as int) =~= s.subrange(0, start.len() as int));
}

/// The block of a service in three stretches.
proof fn lemma_block(i: nat, s: ServiceView, max_backends: nat) -> (r: (
    Seq<char>,
    Seq<char>,
    Seq<char>,
))
    ensures
        r.0 == "\nfrontend fe"@ + number::decimal(i) + "\n\tmode "@ + service::protocol_name(
            service::mode_of(s.service_type),
        ) + "\n\tbind *:"@ + number::decimal(s.listen_port as nat) + render::bind_options(
            s.service_type,
        ) + "\n\tdefault_backend be"@ + number::decimal(i) + "\n\nbackend be"@ + number::decimal(i)
            + "\n\tmode "@ + service::protocol_name(service::mode_of(s.service_type)) + "\n"@,
        r.1 == render::cookie_lines(s) + render::check_lines(s.http_check_endpoint),
        r.2 == "\tserver-template rs "@ + number::decimal(max_backends) + " "@ + s.backend_name
            + service::port_suffix(s.backend_port) + render::backend_options(s.service_type)
            + " check"@ + render::numbered(" port "@, s.check_port) + render::numbered(
            " rise "@,
            s.check_rise,
        ) + render::numbered(" fall "@, s.check_fall) + " resolvers system init-addr none\n"@,
        render::service_text(i, s, max_backends) == r.0 + r.1 + r.2,
{
    let front = "\nfrontend fe"@ + number::decimal(i) + "\n\tmode "@ + service::protocol_name(
        service::mode_of(s.service_type),
    ) + "\n\tbind *:"@ + number::decimal(s.listen_port as nat) + render::bind_options(
        s.service_type,
    ) + "\n\tdefault_backend be"@ + number::decimal(i) + "\n\nbackend be"@ + number::decimal(i)
        + "\n\tmode "@ + service::protocol_name(service::mode_of(s.service_type)) + "\n"@;
    let middle = render::cookie_lines(s) + render::check_lines(s.http_check_endpoint);
    let line = "\tserver-template rs "@ + number::decimal(max_backends) + " "@ + s.backend_name
        + service::port_suffix(s.backend_port) + render::backend_options(s.service_type)
        + " check"@ + render::numbered(" port "@, s.check_port) + render::numbered(
        " rise "@,
        s.check_rise,
    ) + render::numbered(" fall "@, s.check_fall) + " resolvers system init-addr none\n"@;
    let x = front + middle;
    lemma_add(front, render::cookie_lines(s), render::check_lines(s.http_check_endpoint));
    let l1 = "\tserver-template rs "@;
    let l2 = l1 + number::decimal(max_backends);
    lemma_add(x, l1, number::decimal(max_backends));
    let l3 = l2 + " "@;
    lemma_add(x, l2, " "@);
    let l4 = l3 + s.backend_name;
    lemma_add(x, l3, s.backend_name);
    let l5 = l4 + service::port_suffix(s.backend_port);
    lemma_add(x, l4, service::port_suffix(s.backend_port));
    let l6 = l5 + render::backend_options(s.service_type);
    lemma_add(x, l5, render::backend_options(s.service_type));
    let l7 = l6 + " check"@;
    lemma_add(x, l6, " check"@);
    let l8 = l7 + render::numbered(" port "@, s.check_port);
    lemma_add(x, l7, render::numbered(" port "@, s.check_port));
    let l9 = l8 + render::numbered(" rise "@, s.check_rise);
    lemma_add(x, l8, render::numbered(" rise "@, s.check_rise));
    let l10 = l9 + render::numbered(" fall "@, s.check_fall);
    lemma_add(x, l9, render::numbered(" fall "@, s.check_fall));
    lemma_add(x, l10, " resolvers system init-addr none\n"@);
    (front, middle, line)
}

/// One more service adds its block, with the next number, and leaves the rest.
pub proof fn each_service_adds_its_block(
    services: Seq<ServiceView>,
    s: ServiceView,
    max_backends: nat,
)
    ensures
        render::portmap_text(Seq::empty(), max_backends) == render::banner(),
        render::portmap_text(services.push(s), max_backends) == render::portmap_text(
            services,
            max_backends,
        ) + render::service_text(services.len(), s, max_backends),
{
    assert(services.push(s).drop_last() =~= services);
    assert(render::portmap_text(Seq::empty(), max_backends) =~= render::banner());
    assert(render::portmap_text(services.push(s), max_backends) =~= render::portmap_text(
        services,
        max_backends,
    ) + render::service_text(services.len(), s, max_backends));
}

/// Logs go to the local syslog; an endpoint adds a line that sends them there too, and one that
/// puts the host name into them.
pub proof fn an_endpoint_is_logged_to(endpoint: Seq<char>)
    ensures
        render::global_text(None) == render::banner()
            + "global\n\tlog 127.0.0.1 len 4096 local0\n"@,
        render::global_text(Some(endpoint)) == render::global_text(None) + ("\tlog "@ + endpoint
            + " len 4096 local0\n\tlog-send-hostname\n"@),
{
    assert(render::global_text(Some(endpoint)) =~= render::global_text(None) + ("\tlog "@
        + endpoint + " len 4096 local0\n\tlog-send-hostname\n"@));
}

/// Metrics are served on the port that is configured, to the addresses in the ACL file.
pub proof fn metrics_are_served_on_their_port(port: u16)
    ensures
        render::metrics_text(port) == render::banner()
            + "frontend __cloud_tritoncompute__metrics\n  bind *:"@ + number::decimal(port as nat)
            + "\n  mode http\n  http-request deny if !{ src -f 210-metrics_acl.txt }\n  http-request use-service prometheus-exporter if { path /metrics }\n  no log\n"@,
{
}

/// Each timeout is written on a line of its own.
pub proof fn timeouts_are_written(t: TimeoutConfig)
    ensures
        (DefaultsConfig { timeouts: t }).file_text() == render::banner()
            + "defaults\n\toption forwardfor\n\ttimeout queue   "@ + number::decimal(t.queue as nat)
            + "\n\ttimeout connect "@ + number::decimal(t.connect as nat) + "\n\ttimeout client  "@
            + number::decimal(t.client as nat) + "\n\ttimeout server  "@ + number::decimal(
            t.server as nat,
        ) + "\n"@,
{
}

/// A timeout that is set is used, whatever it is, and one that is not set is its default.
pub proof fn timeouts_that_are_set_are_used(overrides: TimeoutOverrides, n: u32)
    ensures
        overrides.queue == Some(n) ==> metadata::overridden(overrides).queue == n,
        overrides.connect == Some(n) ==> metadata::overridden(overrides).connect == n,
        overrides.client == Some(n) ==> metadata::overridden(overrides).client == n,
        overrides.server == Some(n) ==> metadata::overridden(overrides).server == n,
        overrides.queue is None ==> metadata::overridden(overrides).queue == 0,
        overrides.connect is None ==> metadata::overridden(overrides).connect == 2000,
        overrides.client is None ==> metadata::overridden(overrides).client == 55000,
        overrides.server is None ==> metadata::overridden(overrides).server == 120000,
        metadata::default_timeouts() == metadata::overridden(
            TimeoutOverrides { queue: None, connect: None, client: None, server: None },
        ),
{
}

/// A blank value, and one whose document cannot be read, asks for the default timeouts; any other
/// asks for what its document sets.
pub proof fn timeouts_come_from_the_document(input: Seq<char>, overrides: TimeoutOverrides)
    ensures
        metadata::timeouts_for(input, None) == metadata::default_timeouts(),
        text::trim(input).len() == 0 ==> metadata::timeouts_for(input, Some(overrides))
            == metadata::default_timeouts(),
        text::trim(input).len() > 0 ==> metadata::timeouts_for(input, Some(overrides))
            == metadata::overridden(overrides),
{
}

/// A value stands for a document unless it is blank; white space round it does not matter, and
/// braces round it may be left out.
pub proof fn documents_stand_for_values(before: Seq<char>, t: Seq<char>, behind: Seq<char>)
    requires
        forall|i: int| 0 <= i < before.len() ==> text::is_white_space(#[trigger] before[i]),
        forall|i: int| 0 <= i < behind.len() ==> text::is_white_space(#[trigger] behind[i]),
        t.len() > 0 ==> !text::is_white_space(t.first()) && !text::is_white_space(t.last()),
    ensures
        t.len() == 0 ==> metadata::document_for(before + t + behind) is None,
        t.len() > 0 && t.first() == '{' ==> metadata::document_for(before + t + behind) == Some(t),
        t.len() > 0 && t.first() != '{' ==> metadata::document_for(before + t + behind) == Some(
            seq!['{'] + t + seq!['}'],
        ),
{
    trimming_stops_at_what_is_not_white_space(before, t, behind);
}

/// A syslog endpoint is the value without white space round it, and none where it is blank.
pub proof fn endpoints_are_what_is_written(before: Seq<char>, t: Seq<char>, behind: Seq<char>)
    requires
        forall|i: int| 0 <= i < before.len() ==> text::is_white_space(#[trigger] before[i]),
        forall|i: int| 0 <= i < behind.len() ==> text::is_white_space(#[trigger] behind[i]),
        t.len() > 0 ==> !text::is_white_space(t.first()) && !text::is_white_space(t.last()),
    ensures
        metadata::endpoint_for(before + t + behind) == (if t.len() == 0 {
            None
        } else {
            Some(t)
        }),
{
    trimming_stops_at_what_is_not_white_space(before, t, behind);
}

/// A metadata value is the text that was written, without white space round it, where the key was
/// found, and empty where it was not or could not be asked for.
pub proof fn metadata_values_are_what_is_written(
    stdout: Vec<u8>,
    before: Seq<char>,
    t: Seq<char>,
    behind: Seq<char>,
)
    requires
        stdout@ == vstd::utf8::encode_utf8(before + t + behind),
        forall|i: int| 0 <= i < before.len() ==> text::is_white_space(#[trigger] before[i]),
        forall|i: int| 0 <= i < behind.len() ==> text::is_white_space(#[trigger] behind[i]),
        t.len() > 0 ==> !text::is_white_space(t.first()) && !text::is_white_space(t.last()),
    ensures
        metadata::value_of(MetadataReply::Ended { success: true, stdout }) == t,
        metadata::value_of(MetadataReply::Ended { success: false, stdout }).len() == 0,
        metadata::value_of(MetadataReply::NotRun).len() == 0,
{
    utf8_is_read_as_written(before + t + behind);
    trimming_stops_at_what_is_not_white_space(before, t, behind);
}

/// A report shows what was written to either output.
pub proof fn reports_show_both_outputs(a: Seq<char>, b: Seq<char>)
    ensures
        configure::report_text(vstd::utf8::encode_utf8(a), vstd::utf8::encode_utf8(b))
            == "stdout: "@ + a + "\nstderr: "@ + b,
{
    utf8_is_read_as_written(a);
    utf8_is_read_as_written(b);
}

/// A document that starts with a brace is left as it is, and any other is put in braces.
pub proof fn documents_are_put_in_braces(t: Seq<char>)
    ensures
        metadata::in_braces(seq!['{'] + t) == seq!['{'] + t,
        t.len() == 0 || t.first() != '{' ==> metadata::in_braces(t) == seq!['{'] + t + seq!['}'],
{
}

/// From 32 to 1024 backend servers are granted as asked for; fewer are 32 and more are 1024. What
/// is no number asks for 32.
pub proof fn backends_are_granted_as_asked(input: Seq<char>, n: nat)
    requires
        number::unsigned(text::trim(input), usize::MAX as nat) == Some(n),
    ensures
        32 <= n <= 1024 ==> metadata::max_backends(input) == n,
        n < 32 ==> metadata::max_backends(input) == 32,
        n > 1024 ==> metadata::max_backends(input) == 1024,
{
}

/// Where no number is asked for, there is room for 32 backend servers.
pub proof fn no_number_asks_for_the_least(input: Seq<char>)
    requires
        number::unsigned(text::trim(input), usize::MAX as nat) is None,
    ensures
        metadata::max_backends(input) == 32,
{
}

/// The flag is set by the four letters of `true`, each small or capital, with white space round
/// them or not, and by nothing else.
pub proof fn the_flag_is_set_by_true(input: Seq<char>)
    ensures
        metadata::says_true(input) <==> {
            let t = text::trim(input);
            &&& t.len() == 4
            &&& t[0] == 't' || t[0] == 'T'
            &&& t[1] == 'r' || t[1] == 'R'
            &&& t[2] == 'u' || t[2] == 'U'
            &&& t[3] == 'e' || t[3] == 'E'
        },
{
    reveal_strlit("true");
    let t = text::trim(input);
    let lower = text::ascii_lowercase(t);
    assert("true"@.len() == 4);
    if t.len() == 4 {
        assert(lower[0] == text::ascii_lower(t[0]) && lower[1] == text::ascii_lower(t[1]));
        assert(lower[2] == text::ascii_lower(t[2]) && lower[3] == text::ascii_lower(t[3]));
        assert("true"@[0] == 't' && "true"@[1] == 'r' && "true"@[2] == 'u' && "true"@[3] == 'e');
        if lower[0] == 't' && lower[1] == 'r' && lower[2] == 'u' && lower[3] == 'e' {
            assert(lower =~= "true"@);
        }
    } else {
        assert(lower.len() == t.len());
    }
}

/// Bytes that are the UTF-8 of a text are read as that text.
pub proof fn utf8_is_read_as_written(s: Seq<char>)
    ensures
        metadata::lossy_text(vstd::utf8::encode_utf8(s)) == s,
{
    vstd::utf8::encode_utf8_valid_utf8(s);
    vstd::utf8::encode_utf8_decode_utf8(s);
}

/// Commas and spaces part the addresses of an ACL, each of which stands on a line, and however many
/// of them stand side by side, no line is empty.
pub proof fn commas_and_spaces_part_addresses(a: Seq<char>, c: char, b: Seq<char>)
    requires
        c == ',' || c == ' ',
    ensures
        configure::acl_text(a + seq![c] + b) == (if configure::acl_text(a).len() == 0 {
            configure::acl_text(b)
        } else if configure::acl_text(b).len() == 0 {
            configure::acl_text(a)
        } else {
            configure::acl_text(a) + seq!['\n'] + configure::acl_text(b)
        }),
{
    configure::lemma_parted(a, c, b);
    lemma_lines_concat(configure::acl_parts(a), configure::acl_parts(b));
}

proof fn lemma_lines_concat(a: Seq<Seq<char>>, b: Seq<Seq<char>>)
    ensures
        configure::lines_of(a + b) == (if configure::lines_of(a).len() == 0 {
            configure::lines_of(b)
        } else if configure::lines_of(b).len() == 0 {
            configure::lines_of(a)
        } else {
            configure::lines_of(a) + seq!['\n'] + configure::lines_of(b)
        }),
    decreases b.len(),
{
    if b.len() == 0 {
        assert(a + b =~= a);
        if configure::lines_of(a).len() == 0 {
            assert(configure::lines_of(a) =~= configure::lines_of(b));
        }
    } else {
        let front = b.drop_last();
        lemma_lines_concat(a, front);
        assert((a + b).drop_last() =~= a + front);
        assert((a + b).last() == b.last());
        let x = configure::lines_of(a);
        let y = configure::lines_of(front);
        if x.len() > 0 && y.len() > 0 && b.last().len() > 0 {
            assert((x + seq!['\n'] + y).push('\n') + b.last() =~= x + seq!['\n'] + (y.push('\n')
                + b.last()));
        } else if x.len() > 0 && b.last().len() > 0 {
            assert(x.push('\n') + b.last() =~= x + seq!['\n'] + b.last());
        }
    }
}

/// A text without commas and spaces is one address, and stands as it is.
pub proof fn an_address_stands_as_it_is(s: Seq<char>)
    requires
        !s.contains(',') && !s.contains(' '),
    ensures
        configure::acl_text(s) == s,
{
    assert forall|i: int| 0 <= i < s.len() implies !configure::is_acl_separator(
        #[trigger] s[i],
    ) by {
        assert(s.contains(s[i]));
    }
    configure::lemma_one_part(s);
    configure::lemma_one_line(s);
}

/// Metrics are served on the port that is asked for, where it may be used, and else on 8405.
pub proof fn metrics_ports_are_as_asked(s: Seq<char>, p: u16)
    ensures
        1 <= p <= 65534 ==> configure::metrics_port(number::decimal(p as nat)) == p,
        number::unsigned(s, 65535) == Some(p as nat) && 1 <= p <= 65534 ==> configure::metrics_port(
            s,
        ) == p,
        (number::unsigned(s, 65535) matches Some(n) ==> n == 0 || n == 65535)
            ==> configure::metrics_port(s) == 8405,
{
    if 1 <= p <= 65534 {
        usable_ports_read_back(p, "metrics"@);
    }
}

/// Each value of the metadata reaches the file that it is for.
pub proof fn metadata_reaches_its_files(m: Metadata, resolver: Seq<char>)
    ensures
        ({
            let files = configure::candidate(m, resolver);
            let endpoint = text::trim(m.syslog@);
            &&& files.len() >= 4
            &&& files[0].name == "000-global.cfg"@
            &&& endpoint.len() == 0 ==> files[0].contents == render::global_text(None)
            &&& endpoint.len() > 0 ==> files[0].contents == render::global_text(None) + ("\tlog "@
                + endpoint + " len 4096 local0\n\tlog-send-hostname\n"@)
            &&& files[1].name == "001-defaults.cfg"@
            &&& files[1].contents == (DefaultsConfig { timeouts: m.timeouts }).file_text()
            &&& files[2] == (ConfigFileView { name: "002-resolver.cfg"@, contents: resolver })
            &&& files[3].name == "100-services.cfg"@
            &&& files[3].contents == render::portmap_text(
                portmap::accepted(portmap::entries(m.portmap@)),
                metadata::max_backends(m.max_rs@),
            )
        }),
{
    let basic = configure::basic_files(m, resolver);
    lemma_behind(basic, configure::metrics_files(m.metrics_acl@, m.metrics_port@));
    assert(basic[0].contents == configure::global_text(m.syslog@));
    assert(basic[1].name == "001-defaults.cfg"@);
    assert(basic[2].name == "002-resolver.cfg"@);
    assert(basic[3].contents == configure::services_text(m.portmap@, m.max_rs@));
    an_endpoint_is_logged_to(text::trim(m.syslog@));
}

/// Metrics are configured where an address may read them, by a file with the addresses and one with
/// the front end, and else not at all.
pub proof fn metrics_are_configured_where_there_is_an_address(m: Metadata, resolver: Seq<char>)
    ensures
        ({
            let files = configure::candidate(m, resolver);
            let addresses = configure::acl_text(m.metrics_acl@);
            &&& addresses.len() == 0 ==> files.len() == 4
            &&& addresses.len() > 0 ==> {
                &&& files.len() == 6
                &&& files[4] == (ConfigFileView {
                    name: "210-metrics_acl.txt"@,
                    contents: addresses,
                })
                &&& files[5] == (ConfigFileView {
                    name: "200-metrics.cfg"@,
                    contents: render::metrics_text(configure::metrics_port(m.metrics_port@)),
                })
            }
        }),
{
    let metrics = configure::metrics_files(m.metrics_acl@, m.metrics_port@);
    lemma_metrics_come_last(m, resolver);
    metrics_are_served_by_two_files(m.metrics_acl@, m.metrics_port@);
    if configure::acl_text(m.metrics_acl@).len() > 0 {
        assert(configure::candidate(m, resolver)[4] == metrics[0]);
        assert(configure::candidate(m, resolver)[5] == metrics[1]);
    }
}

/// The files that serve metrics stand behind the other four.
proof fn lemma_metrics_come_last(m: Metadata, resolver: Seq<char>)
    ensures
        ({
            let files = configure::candidate(m, resolver);
            let metrics = configure::metrics_files(m.metrics_acl@, m.metrics_port@);
            &&& files.len() == 4 + metrics.len()
            &&& forall|i: int| 0 <= i < metrics.len() ==> files[4 + i] == #[trigger] metrics[i]
        }),
{
    lemma_behind(
        configure::basic_files(m, resolver),
        configure::metrics_files(m.metrics_acl@, m.metrics_port@),
    );
}

/// The members of a list that stands behind another.
proof fn lemma_behind(a: Seq<ConfigFileView>, b: Seq<ConfigFileView>)
    ensures
        (a + b).len() == a.len() + b.len(),
        forall|i: int| 0 <= i < a.len() ==> (a + b)[i] == #[trigger] a[i],
        forall|i: int| 0 <= i < b.len() ==> (a + b)[a.len() + i] == #[trigger] b[i],
{
}

/// Metrics are served by two files where an address may read them, whatever the port, and else by
/// none.
pub proof fn metrics_are_served_by_two_files(acl: Seq<char>, port: Seq<char>)
    ensures
        ({
            let files = configure::metrics_files(acl, port);
            let addresses = configure::acl_text(acl);
            &&& addresses.len() == 0 ==> files.len() == 0
            &&& addresses.len() > 0 ==> files == seq![
                ConfigFileView { name: "210-metrics_acl.txt"@, contents: addresses },
                ConfigFileView {
                    name: "200-metrics.cfg"@,
                    contents: render::metrics_text(configure::metrics_port(port)),
                },
            ]
        }),
{
}

/// Candidates whose metadata names different syslog endpoints differ in the global section.
pub proof fn different_endpoints_make_different_candidates(
    a: Metadata,
    b: Metadata,
    resolver: Seq<char>,
)
    requires
        configure::candidate(a, resolver)[0] == configure::candidate(b, resolver)[0],
    ensures
        text::trim(a.syslog@) == text::trim(b.syslog@),
{
    metadata_reaches_its_files(a, resolver);
    metadata_reaches_its_files(b, resolver);
    lemma_one_endpoint(
        render::global_text(None),
        text::trim(a.syslog@),
        text::trim(b.syslog@),
        " len 4096 local0\n\tlog-send-hostname\n"@,
    );
}

/// Where a stretch stands among others.
proof fn lemma_between(a: Seq<char>, b: Seq<char>, x: Seq<char>, c: Seq<char>)
    ensures
        (a + (b + x + c)).subrange(
            (a.len() + b.len()) as int,
            (a.len() + b.len() + x.len()) as int,
        ) == x,
{
    assert((a + (b + x + c)).subrange(
        (a.len() + b.len()) as int,
        (a.len() + b.len() + x.len()) as int,
    ) =~= x);
}

/// Lines behind `start` that are the same name the same endpoint, or none.
proof fn lemma_one_endpoint(start: Seq<char>, x: Seq<char>, y: Seq<char>, tail: Seq<char>)
    requires
        ({
            let with_x = if x.len() == 0 {
                start
            } else {
                start + ("\tlog "@ + x + tail)
            };
            let with_y = if y.len() == 0 {
                start
            } else {
                start + ("\tlog "@ + y + tail)
            };
            with_x == with_y
        }),
    ensures
        x == y,
{
    let head = "\tlog "@;
    if x.len() > 0 && y.len() > 0 {
        let whole = start + (head + x + tail);
        let other = start + (head + y + tail);
        assert(whole.len() == start.len() + head.len() + x.len() + tail.len());
        assert(other.len() == start.len() + head.len() + y.len() + tail.len());
        lemma_between(start, head, x, tail);
        lemma_between(start, head, y, tail);
        assert(whole == other);
        assert(x.len() == y.len());
    } else if x.len() > 0 {
        assert((start + (head + x + tail)).len() > start.len());
    } else if y.len() > 0 {
        assert((start + (head + y + tail)).len() > start.len());
    } else {
        assert(x =~= y);
    }
}

/// The stale files are those of the live names that no kept file has, in order.
pub proof fn stale_files_are_those_not_kept(live: Seq<Seq<char>>, kept: Seq<Seq<char>>)
    requires
        live.len() <= usize::MAX,
    ensures
        ({
            let stale = configure::stale_positions(live, kept);
            &&& forall|i: int|
                0 <= i < live.len() ==> (stale.contains(i as usize) <==> !kept.contains(
                    #[trigger] live[i],
                ))
            &&& forall|k: int| 0 <= k < stale.len() ==> #[trigger] stale[k] < live.len()
            &&& forall|j: int, k: int| 0 <= j < k < stale.len() ==> stale[j] < stale[k]
        }),
    decreases live.len(),
{
    if live.len() > 0 {
        let front = live.drop_last();
        let last = live.len() - 1;
        stale_files_are_those_not_kept(front, kept);
        let before = configure::stale_positions(front, kept);
        let stale = configure::stale_positions(live, kept);
        assert forall|i: int| 0 <= i < live.len() implies (stale.contains(i as usize)
            <==> !kept.contains(#[trigger] live[i])) by {
            if i < last {
                assert(front[i] == live[i]);
                if before.contains(i as usize) {
                    let k = choose|k: int| 0 <= k < before.len() && before[k] == i as usize;
                    assert(stale[k] == i as usize);
                }
                if stale.contains(i as usize) {
                    let k = choose|k: int| 0 <= k < stale.len() && stale[k] == i as usize;
                    if k < before.len() {
                        assert(before[k] == i as usize);
                    }
                }
            } else {
                if kept.contains(live[i]) {
                    if before.contains(i as usize) {
                        let k = choose|k: int| 0 <= k < before.len() && before[k] == i as usize;
                        assert(before[k] < front.len());
                    }
                } else {
                    assert(stale[before.len() as int] == i as usize);
                }
            }
        }
    }
}

/// What is done about the HAProxy service in each state, and by which arguments it is told of a
/// change.
pub proof fn each_state_has_its_action(state: SmfState, contract_id: Option<usize>, changed: bool)
    ensures
        supervision::action_for(InstanceStatus { state, contract_id }, changed) == (match state {
            SmfState::Disabled => Ok(HaproxyActionView::Enable),
            SmfState::Maintenance => Ok(HaproxyActionView::Clear),
            SmfState::Online => match (changed, contract_id) {
                (false, _) => Ok(HaproxyActionView::Leave),
                (true, None) => Ok(HaproxyActionView::Restart),
                (true, Some(id)) => Ok(
                    HaproxyActionView::Reload(
                        seq!["-USR2"@, "-c"@, number::decimal(id as nat), "haproxy"@],
                    ),
                ),
            },
            _ => Err(EnsureError::NonActionable(state)),
        }),
        EnsureError::NotFound.message() == "HAProxy service not found"@,
        EnsureError::NonActionable(state).message() == "HAProxy non-actionable state: "@ + (
        match state {
            SmfState::Disabled => "Disabled"@,
            SmfState::Degraded => "Degraded"@,
            SmfState::Maintenance => "Maintenance"@,
            SmfState::Offline => "Offline"@,
            SmfState::Online => "Online"@,
            SmfState::Legacy => "Legacy"@,
            SmfState::Uninitialized => "Uninitialized"@,
        }),
{
}

/// The view of a health check shows each of its parameters.
pub proof fn views_of_health_checks_are_complete(params: HealthCheckParams)
    ensures
        designation::health_check_of(params) == (HealthCheck {
            endpoint: match params.0 {
                Some(x) => Some(x@),
                None => None,
            },
            port: params.1,
            rise: params.2,
            fall: params.3,
        }),
{
}

/// The view of an action says which it is, and shows each argument in its place.
pub proof fn views_of_actions_are_complete(action: HaproxyAction)
    ensures
        match action {
            HaproxyAction::Enable => action@ is Enable,
            HaproxyAction::Clear => action@ is Clear,
            HaproxyAction::Restart => action@ is Restart,
            HaproxyAction::Leave => action@ is Leave,
            HaproxyAction::Reload(arguments) => {
                &&& action@ is Reload
                &&& action@->Reload_0.len() == arguments@.len()
                &&& forall|i: int|
                    0 <= i < arguments@.len() ==> #[trigger] action@->Reload_0[i] == arguments@[i]@
            },
        },
{
}

/// Texts of lists stand each in its place.
pub proof fn texts_of_lists_are_complete(names: Seq<String>, parts: Seq<&str>, i: int)
    ensures
        configure::texts(names).len() == names.len(),
        0 <= i < names.len() ==> configure::texts(names)[i] == names[i]@,
        text::views(parts).len() == parts.len(),
        0 <= i < parts.len() ==> text::views(parts)[i] == parts[i]@,
{
}

/// What is rendered is what was configured.
pub proof fn files_are_rendered_as_configured(
    global: GlobalConfig,
    metrics: MetricsConfig,
    services: Portmap,
)
    ensures
        global.file_text() == render::global_text(
            match global.syslog_endpoint {
                Some(x) => Some(x@),
                None => None,
            },
        ),
        metrics.file_text() == render::metrics_text(metrics.metrics_port),
        services.file_text() == render::portmap_text(
            services.services@.map_values(|s: Service| s@),
            services.max_backends as nat,
        ),
{
    assert(portmap::service_views(services.services@) =~= services.services@.map_values(
        |s: Service| s@,
    ));
}

/// Bytes that are not all UTF-8 are repaired.
pub proof fn what_is_not_utf8_is_repaired(bytes: Seq<u8>)
    requires
        !vstd::utf8::valid_utf8(bytes),
    ensures
        metadata::lossy_text(bytes) == metadata::repaired_utf8(bytes),
{
}

} // verus!
