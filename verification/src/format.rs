//! How designations and port maps are written, that reading gives back what was written, and what
//! holds of whatever is read.

use crate::designation;
use crate::designation::{HealthCheck, ParameterView, ServiceFault};
use crate::limits::{MAX_PORT, MIN_PORT};
use crate::number;
use crate::portmap;
use crate::service;
use crate::service::{ServiceType, ServiceView};
use crate::text;
use vstd::prelude::*;

verus! {

/// A port that a service may use.
pub open spec fn is_usable(port: u16) -> bool {
    MIN_PORT <= port <= MAX_PORT
}

/// Each port that is given may be used.
pub open spec fn is_usable_if_given(port: Option<u16>) -> bool {
    port matches Some(p) ==> is_usable(p)
}

/// The key of a parameter.
pub open spec fn parameter_key(p: ParameterView) -> Seq<char> {
    match p {
        ParameterView::Check(_) => "check"@,
        ParameterView::Port(_) => "port"@,
        ParameterView::Rise(_) => "rise"@,
        ParameterView::Fall(_) => "fall"@,
    }
}

/// The value of a parameter.
pub open spec fn parameter_value(p: ParameterView) -> Seq<char> {
    match p {
        ParameterView::Check(endpoint) => endpoint,
        ParameterView::Port(n) => number::decimal(n as nat),
        ParameterView::Rise(n) => number::decimal(n as nat),
        ParameterView::Fall(n) => number::decimal(n as nat),
    }
}

/// A parameter in writing.
pub open spec fn parameter_text(p: ParameterView) -> Seq<char> {
    parameter_key(p) + seq![':'] + parameter_value(p)
}

/// A parameter that can be written: an endpoint holds no comma and is neither empty nor padded,
/// and a port is one that may be used.
pub open spec fn is_writable(p: ParameterView) -> bool {
    match p {
        ParameterView::Check(endpoint) => {
            &&& endpoint.len() > 0
            &&& text::is_trimmed(endpoint)
            &&& !endpoint.contains(',')
        },
        ParameterView::Port(n) => is_usable(n),
        _ => true,
    }
}

/// What the keys are made of.
proof fn lemma_keys()
    ensures
        "check"@ == seq!['c', 'h', 'e', 'c', 'k'],
        "port"@ == seq!['p', 'o', 'r', 't'],
        "rise"@ == seq!['r', 'i', 's', 'e'],
        "fall"@ == seq!['f', 'a', 'l', 'l'],
{
    reveal_strlit("check");
    reveal_strlit("port");
    reveal_strlit("rise");
    reveal_strlit("fall");
    assert("check"@ =~= seq!['c', 'h', 'e', 'c', 'k']);
    assert("port"@ =~= seq!['p', 'o', 'r', 't']);
    assert("rise"@ =~= seq!['r', 'i', 's', 'e']);
    assert("fall"@ =~= seq!['f', 'a', 'l', 'l']);
}

/// What a key holds none of, and what a written number holds none of.
proof fn lemma_plain(p: ParameterView)
    requires
        is_writable(p),
    ensures
        parameter_key(p).len() > 0,
        !parameter_key(p).contains(':'),
        !parameter_text(p).contains(','),
        text::is_trimmed(parameter_key(p)),
        text::is_trimmed(parameter_value(p)),
        parameter_text(p).first() != '{',
        !text::is_white_space(parameter_text(p).first()),
        p is Check || parameter_text(p).last() != '}',
        p is Check ==> parameter_text(p).last() == p->Check_0.last(),
{
    lemma_keys();
    let key = parameter_key(p);
    let value = parameter_value(p);
    let whole = parameter_text(p);
    if let ParameterView::Check(endpoint) = p {
        assert(whole.last() == endpoint.last());
    } else {
        let n: nat = match p {
            ParameterView::Port(n) => n as nat,
            ParameterView::Rise(n) => n as nat,
            ParameterView::Fall(n) => n as nat,
            _ => 0,
        };
        number::lemma_decimal(n);
        assert(number::is_digit(value[0]) && number::is_digit(value[value.len() - 1]));
        assert(whole.last() == value.last());
        assert forall|i: int| 0 <= i < value.len() implies value[i] != ',' by {
            assert(number::is_digit(value[i]));
        }
    }
    assert forall|i: int| 0 <= i < whole.len() implies whole[i] != ',' by {
        if i > key.len() {
            assert(whole[i] == value[i - key.len() - 1]);
            assert(value.contains(value[i - key.len() - 1]));
        }
    }
    assert(whole.first() == key.first());
}

/// Reading a parameter gives back what was written.
pub proof fn parameter_reads_back(p: ParameterView)
    requires
        is_writable(p),
    ensures
        designation::parameter(parameter_text(p)) == Ok::<_, ServiceFault>(p),
{
    lemma_keys();
    lemma_plain(p);
    text::lemma_cut(parameter_key(p), ':', parameter_value(p));
    text::trim_leaves_trimmed(parameter_key(p));
    text::trim_leaves_trimmed(parameter_value(p));
    assert("port"@[0] == 'p' && "rise"@[0] == 'r' && "fall"@[0] == 'f' && "check"@[0] == 'c');
    match p {
        ParameterView::Check(_) => {},
        ParameterView::Port(n) => {
            number::decimal_reads_back(n as nat, u16::MAX as nat);
        },
        ParameterView::Rise(n) => {
            number::decimal_reads_back(n as nat, u16::MAX as nat);
        },
        ParameterView::Fall(n) => {
            number::decimal_reads_back(n as nat, u16::MAX as nat);
        },
    }
}

/// Parameters in writing, parted by commas.
pub open spec fn parameters_text(ps: Seq<ParameterView>) -> Seq<char>
    decreases ps.len(),
{
    if ps.len() == 0 {
        Seq::empty()
    } else if ps.len() == 1 {
        parameter_text(ps[0])
    } else {
        parameters_text(ps.drop_last()) + seq![','] + parameter_text(ps.last())
    }
}

/// A health check in writing.
pub open spec fn checks_text(ps: Seq<ParameterView>) -> Seq<char> {
    seq!['{'] + parameters_text(ps) + seq!['}']
}

/// The health check that sets `ps`, one after the other.
pub open spec fn set_all(ps: Seq<ParameterView>) -> HealthCheck
    decreases ps.len(),
{
    if ps.len() == 0 {
        designation::no_health_check()
    } else {
        designation::with_parameter(set_all(ps.drop_last()), ps.last())
    }
}

/// Parameters that can be written between braces: each can be written, and the last of them, where
/// there is one, does not itself end in a closing brace.
pub open spec fn are_writable(ps: Seq<ParameterView>) -> bool {
    &&& forall|i: int| 0 <= i < ps.len() ==> is_writable(#[trigger] ps[i])
    &&& ps.len() > 0 ==> (ps.last() matches ParameterView::Check(endpoint) ==> endpoint.last()
        != '}')
}

/// Each parameter in writing.
pub open spec fn each_text(ps: Seq<ParameterView>) -> Seq<Seq<char>> {
    ps.map_values(|p: ParameterView| parameter_text(p))
}

/// Writing parameters and splitting at commas gives each of them.
proof fn lemma_split_parameters(ps: Seq<ParameterView>)
    requires
        ps.len() > 0,
        forall|i: int| 0 <= i < ps.len() ==> is_writable(#[trigger] ps[i]),
    ensures
        text::split(parameters_text(ps), ',') == each_text(ps),
        parameters_text(ps).len() > 0,
        parameters_text(ps).first() != '{',
        !text::is_white_space(parameters_text(ps).first()),
        parameters_text(ps).last() == parameter_text(ps.last()).last(),
    decreases ps.len(),
{
    lemma_plain(ps.last());
    text::lemma_split_whole(parameter_text(ps.last()), ',');
    if ps.len() == 1 {
        assert(each_text(ps) =~= seq![parameter_text(ps[0])]);
    } else {
        let front = ps.drop_last();
        lemma_split_parameters(front);
        text::lemma_split_concat(parameters_text(front), ',', parameter_text(ps.last()));
        assert(each_text(ps) =~= each_text(front) + seq![parameter_text(ps.last())]);
        assert(parameters_text(ps).first() == parameters_text(front).first());
        assert(parameters_text(ps).last() == parameter_text(ps.last()).last());
    }
}

/// Setting what was written is setting the parameters.
proof fn lemma_set_each(ps: Seq<ParameterView>)
    requires
        forall|i: int| 0 <= i < ps.len() ==> is_writable(#[trigger] ps[i]),
    ensures
        designation::health_check_from(each_text(ps)) == Ok::<_, ServiceFault>(set_all(ps)),
    decreases ps.len(),
{
    if ps.len() > 0 {
        lemma_set_each(ps.drop_last());
        assert(each_text(ps).drop_last() =~= each_text(ps.drop_last()));
        parameter_reads_back(ps.last());
    }
}

/// One brace is taken from either end of a text that has one there.
proof fn lemma_unbraced(s: Seq<char>)
    requires
        s.len() > 0,
        s.first() != '{',
        s.last() != '}',
    ensures
        designation::unbraced(seq!['{'] + s + seq!['}']) == s,
{
    reveal_with_fuel(text::strip_leading, 2);
    reveal_with_fuel(text::strip_trailing, 2);
    let whole = seq!['{'] + s + seq!['}'];
    assert(whole.drop_first() =~= s + seq!['}']);
    assert((s + seq!['}']).first() == s.first());
    assert((s + seq!['}']).drop_last() =~= s);
    assert(text::strip_leading(whole, '{') == s + seq!['}']);
}

/// Reading a health check gives back the parameters that were written, whichever they are and in
/// whatever order they come.
pub proof fn health_check_reads_back(ps: Seq<ParameterView>)
    requires
        are_writable(ps),
    ensures
        designation::health_check(checks_text(ps)) == Ok::<_, ServiceFault>(set_all(ps)),
{
    let inner = parameters_text(ps);
    if ps.len() > 0 {
        lemma_plain(ps.last());
        lemma_split_parameters(ps);
        lemma_set_each(ps);
        let from = text::trim_takes_white_space_only(inner);
        assert(inner[0] == inner.first());
        assert(text::trim(inner).len() > 0);
        lemma_unbraced(inner);
    }
    assert(checks_text(ps).subrange(1, checks_text(ps).len() - 1) =~= inner);
}

/// Each parameter of a health check may be left out: braces with nothing but white space between
/// them are a health check of which nothing is given.
pub proof fn blank_health_check_sets_nothing(padding: Seq<char>)
    requires
        forall|i: int| 0 <= i < padding.len() ==> text::is_white_space(#[trigger] padding[i]),
    ensures
        designation::health_check(seq!['{'] + padding + seq!['}']) == Ok::<_, ServiceFault>(
            designation::no_health_check(),
        ),
{
    let whole = seq!['{'] + padding + seq!['}'];
    assert(whole.subrange(1, whole.len() - 1) =~= padding);
    text::trim_ignores_padding(padding, Seq::empty(), Seq::empty());
    assert(padding + Seq::empty() + Seq::empty() =~= padding);
}

/// A designation in writing: the protocol, the listen port, the backend name, the backend port
/// where there is one, and the health check, which may be empty.
pub open spec fn designation_text(
    protocol: Seq<char>,
    listen_port: u16,
    backend_name: Seq<char>,
    backend_port: Option<u16>,
    checks: Seq<char>,
) -> Seq<char> {
    protocol + "://"@ + (number::decimal(listen_port as nat) + seq![':'] + (backend_name
        + service::port_suffix(backend_port)) + checks)
}

/// A written number holds digits only.
proof fn lemma_digits_only(n: nat, c: char)
    requires
        !number::is_digit(c),
    ensures
        !number::decimal(n).contains(c),
{
    number::lemma_decimal(n);
    assert forall|i: int| 0 <= i < number::decimal(n).len() implies number::decimal(n)[i] != c by {
        assert(number::is_digit(number::decimal(n)[i]));
    }
}

/// A text that names a service type in small or capital letters holds neither a colon nor an
/// opening brace.
proof fn lemma_protocol(protocol: Seq<char>, t: ServiceType)
    requires
        text::ascii_lowercase(protocol) == service::protocol_name(t),
    ensures
        !protocol.contains(':'),
        !protocol.contains('{'),
{
    let lower = text::ascii_lowercase(protocol);
    service::lemma_name_chars(t);
    assert forall|i: int| 0 <= i < protocol.len() implies protocol[i] != ':' && protocol[i]
        != '{' by {
        assert(service::is_name_char(lower[i]));
        assert(lower[i] == text::ascii_lower(protocol[i]));
    }
}

/// A designation reads as what it is made of: the protocol in small or capital letters, the ports,
/// the backend name, and whatever the health check reads as.
pub proof fn designation_reads_as_written(
    protocol: Seq<char>,
    t: ServiceType,
    listen_port: u16,
    backend_name: Seq<char>,
    backend_port: Option<u16>,
    checks: Seq<char>,
)
    requires
        text::ascii_lowercase(protocol) == service::protocol_name(t),
        is_usable(listen_port),
        is_usable_if_given(backend_port),
        !backend_name.contains(':'),
        !backend_name.contains('{'),
        checks.len() > 0 ==> checks.first() == '{',
    ensures
        designation::designated(
            designation_text(protocol, listen_port, backend_name, backend_port, checks),
        ) == (match (if checks.len() == 0 {
            Ok(designation::no_health_check())
        } else {
            designation::health_check(checks)
        }) {
            Ok(h) => Ok(
                ServiceView {
                    service_type: t,
                    listen_port,
                    backend_name,
                    backend_port,
                    http_check_endpoint: h.endpoint,
                    check_port: h.port,
                    check_rise: h.rise,
                    check_fall: h.fall,
                },
            ),
            Err(e) => Err::<ServiceView, _>(e),
        }),
{
    let port_text = number::decimal(listen_port as nat);
    let suffix = service::port_suffix(backend_port);
    let address = port_text + seq![':'] + (backend_name + suffix);
    let rest = address + checks;
    let whole = designation_text(protocol, listen_port, backend_name, backend_port, checks);

    // The protocol.
    lemma_protocol(protocol, t);
    service::protocol_names_are_unique(t, service::protocol_name(t));
    reveal_strlit("://");
    assert("://"@.first() == ':');
    text::lemma_cut_text(protocol, "://"@, rest);
    assert(whole == protocol + "://"@ + rest);
    assert(designation::type_part(whole) == Ok::<_, ServiceFault>((t, rest)));

    // The health check.
    lemma_digits_only(listen_port as nat, '{');
    lemma_digits_only(listen_port as nat, ':');
    if let Some(port) = backend_port {
        lemma_digits_only(port as nat, '{');
    }
    assert forall|i: int| 0 <= i < address.len() implies address[i] != '{' by {
        let k = i - port_text.len() - 1;
        if i < port_text.len() {
            assert(port_text.contains(port_text[i]));
        } else if 0 <= k < backend_name.len() {
            assert(address[i] == backend_name[k]);
            assert(backend_name.contains(backend_name[k]));
        } else if k > backend_name.len() {
            let digits = number::decimal(backend_port->0 as nat);
            assert(address[i] == digits[k - backend_name.len() - 1]);
            assert(digits.contains(digits[k - backend_name.len() - 1]));
        }
    }
    if checks.len() == 0 {
        assert(rest =~= address);
        text::lemma_no_cut(address, '{');
    } else {
        assert(checks =~= seq!['{'] + checks.drop_first());
        assert(rest =~= address + seq!['{'] + checks.drop_first());
        text::lemma_cut(address, '{', checks.drop_first());
        assert(rest.take(address.len() as int) =~= address);
        assert(rest.skip(address.len() as int) =~= checks);
    }

    // The address.
    text::lemma_cut(port_text, ':', backend_name + suffix);
    number::decimal_reads_back(listen_port as nat, u16::MAX as nat);
    match backend_port {
        None => {
            assert(backend_name + suffix =~= backend_name);
            text::lemma_no_cut(backend_name, ':');
        },
        Some(port) => {
            let digits = number::decimal(port as nat);
            assert(backend_name + suffix =~= backend_name + seq![':'] + digits);
            text::lemma_cut(backend_name, ':', digits);
            number::decimal_reads_back(port as nat, u16::MAX as nat);
        },
    }
    assert(designation::address_part(address) == Ok::<_, ServiceFault>(
        (listen_port, backend_name, backend_port),
    ));
}

/// The parameters that make a service's health check.
pub open spec fn parameters_of(s: ServiceView) -> Seq<ParameterView> {
    let ps = Seq::<ParameterView>::empty();
    let ps = match s.http_check_endpoint {
        Some(endpoint) => ps.push(ParameterView::Check(endpoint)),
        None => ps,
    };
    let ps = match s.check_port {
        Some(n) => ps.push(ParameterView::Port(n)),
        None => ps,
    };
    let ps = match s.check_rise {
        Some(n) => ps.push(ParameterView::Rise(n)),
        None => ps,
    };
    match s.check_fall {
        Some(n) => ps.push(ParameterView::Fall(n)),
        None => ps,
    }
}

/// A service in writing.
pub open spec fn service_designation(s: ServiceView) -> Seq<char> {
    let ps = parameters_of(s);
    designation_text(
        service::protocol_name(s.service_type),
        s.listen_port,
        s.backend_name,
        s.backend_port,
        if ps.len() == 0 {
            Seq::empty()
        } else {
            checks_text(ps)
        },
    )
}

/// A service that can be written: its ports may be used, its backend name holds neither a colon
/// nor an opening brace, and its health check can be written.
pub open spec fn has_designation(s: ServiceView) -> bool {
    &&& is_usable(s.listen_port)
    &&& is_usable_if_given(s.backend_port)
    &&& !s.backend_name.contains(':')
    &&& !s.backend_name.contains('{')
    &&& are_writable(parameters_of(s))
}

/// The name of a service type is in small letters.
proof fn lemma_name_is_lowercase(t: ServiceType)
    ensures
        text::ascii_lowercase(service::protocol_name(t)) == service::protocol_name(t),
{
    let name = service::protocol_name(t);
    service::lemma_name_chars(t);
    assert(text::ascii_lowercase(name) =~= name);
}

/// Setting the parameters of a service makes its health check.
proof fn lemma_parameters_of(s: ServiceView)
    ensures
        set_all(parameters_of(s)) == (HealthCheck {
            endpoint: s.http_check_endpoint,
            port: s.check_port,
            rise: s.check_rise,
            fall: s.check_fall,
        }),
{
    reveal_with_fuel(set_all, 5);
    let p0 = Seq::<ParameterView>::empty();
    let p1 = match s.http_check_endpoint {
        Some(endpoint) => p0.push(ParameterView::Check(endpoint)),
        None => p0,
    };
    let p2 = match s.check_port {
        Some(n) => p1.push(ParameterView::Port(n)),
        None => p1,
    };
    let p3 = match s.check_rise {
        Some(n) => p2.push(ParameterView::Rise(n)),
        None => p2,
    };
    let p4 = parameters_of(s);
    if s.http_check_endpoint is Some {
        assert(p1.drop_last() =~= p0);
    }
    if s.check_port is Some {
        assert(p2.drop_last() =~= p1);
    }
    if s.check_rise is Some {
        assert(p3.drop_last() =~= p2);
    }
    if s.check_fall is Some {
        assert(p4.drop_last() =~= p3);
    }
    assert(set_all(p0) == designation::no_health_check());
    assert(set_all(p1).endpoint == s.http_check_endpoint);
    assert(set_all(p2).port == s.check_port);
    assert(set_all(p3).rise == s.check_rise);
    assert(set_all(p4).fall == s.check_fall);
}

/// Reading a designation gives back the service that was written.
pub proof fn service_reads_back(s: ServiceView)
    requires
        has_designation(s),
    ensures
        designation::designated(service_designation(s)) == Ok::<_, ServiceFault>(s),
{
    let ps = parameters_of(s);
    let checks = if ps.len() == 0 {
        Seq::empty()
    } else {
        checks_text(ps)
    };
    lemma_name_is_lowercase(s.service_type);
    lemma_parameters_of(s);
    if ps.len() > 0 {
        health_check_reads_back(ps);
    }
    designation_reads_as_written(
        service::protocol_name(s.service_type),
        s.service_type,
        s.listen_port,
        s.backend_name,
        s.backend_port,
        checks,
    );
}

/// Two parameters of one name.
pub open spec fn same_kind(p: ParameterView, q: ParameterView) -> bool {
    parameter_key(p) == parameter_key(q)
}

/// A health check in which `p` is set.
pub open spec fn has_set(h: HealthCheck, p: ParameterView) -> bool {
    designation::with_parameter(h, p) == h
}

/// The pair at `i` gives a parameter, and it is `p`.
pub open spec fn gives(pairs: Seq<Seq<char>>, i: int, p: ParameterView) -> bool {
    0 <= i < pairs.len() && designation::parameter(pairs[i]) == Ok::<_, ServiceFault>(p)
}

/// What tells the names of parameters apart.
proof fn lemma_kinds(p: ParameterView, q: ParameterView)
    ensures
        same_kind(p, q) == (match (p, q) {
            (ParameterView::Check(_), ParameterView::Check(_)) => true,
            (ParameterView::Port(_), ParameterView::Port(_)) => true,
            (ParameterView::Rise(_), ParameterView::Rise(_)) => true,
            (ParameterView::Fall(_), ParameterView::Fall(_)) => true,
            _ => false,
        }),
{
    lemma_keys();
    assert("port"@[0] == 'p' && "rise"@[0] == 'r' && "fall"@[0] == 'f' && "check"@[0] == 'c');
}

/// A health check is read where each of its pairs gives a parameter, and nowhere else.
pub proof fn health_check_needs_parameters(pairs: Seq<Seq<char>>)
    ensures
        designation::health_check_from(pairs) is Ok <==> forall|i: int|
            0 <= i < pairs.len() ==> designation::parameter(#[trigger] pairs[i]) is Ok,
    decreases pairs.len(),
{
    if pairs.len() > 0 {
        let front = pairs.drop_last();
        health_check_needs_parameters(front);
        assert(forall|i: int| 0 <= i < front.len() ==> #[trigger] front[i] == pairs[i]);
        assert(forall|i: int| 0 <= i < front.len() ==> #[trigger] pairs[i] == front[i]);
        assert(pairs[pairs.len() - 1] == pairs.last());
    }
}

/// Where a parameter is given more than once, the last one counts.
pub proof fn last_parameter_counts(pairs: Seq<Seq<char>>, i: int, p: ParameterView)
    requires
        designation::health_check_from(pairs) is Ok,
        gives(pairs, i, p),
        forall|j: int, q: ParameterView|
            i < j < pairs.len() && #[trigger] gives(pairs, j, q) ==> !same_kind(p, q),
    ensures
        has_set(designation::health_check_from(pairs)->Ok_0, p),
    decreases pairs.len(),
{
    let front = pairs.drop_last();
    let last = pairs.len() - 1;
    if i < last {
        let q = designation::parameter(pairs.last())->Ok_0;
        assert(gives(pairs, last, q));
        assert(gives(front, i, p));
        assert forall|j: int, r: ParameterView|
            i < j < front.len() && #[trigger] gives(front, j, r) implies !same_kind(p, r) by {
            assert(gives(pairs, j, r));
        }
        last_parameter_counts(front, i, p);
        lemma_kinds(p, q);
    }
}

/// A parameter that no pair gives is not set.
pub proof fn absent_parameter_is_unset(pairs: Seq<Seq<char>>, p: ParameterView)
    requires
        designation::health_check_from(pairs) is Ok,
        forall|j: int, q: ParameterView| #[trigger] gives(pairs, j, q) ==> !same_kind(p, q),
    ensures
        ({
            let h = designation::health_check_from(pairs)->Ok_0;
            match p {
                ParameterView::Check(_) => h.endpoint is None,
                ParameterView::Port(_) => h.port is None,
                ParameterView::Rise(_) => h.rise is None,
                ParameterView::Fall(_) => h.fall is None,
            }
        }),
    decreases pairs.len(),
{
    if pairs.len() > 0 {
        let front = pairs.drop_last();
        let q = designation::parameter(pairs.last())->Ok_0;
        assert(gives(pairs, pairs.len() - 1, q));
        assert forall|j: int, r: ParameterView| #[trigger] gives(front, j, r) implies !same_kind(
            p,
            r,
        ) by {
            assert(gives(pairs, j, r));
        }
        absent_parameter_is_unset(front, p);
        lemma_kinds(p, q);
    }
}

/// Pairs of which no two give a parameter of one name.
pub open spec fn are_distinct(pairs: Seq<Seq<char>>) -> bool {
    forall|i: int, j: int, p: ParameterView, q: ParameterView|
        i < j && #[trigger] gives(pairs, i, p) && #[trigger] gives(pairs, j, q) ==> !same_kind(
            p,
            q,
        )
}

/// What one list of distinct parameters sets, each list of the same parameters sets.
proof fn lemma_same_setting(a: Seq<Seq<char>>, b: Seq<Seq<char>>, i: int, p: ParameterView)
    requires
        designation::health_check_from(a) is Ok,
        designation::health_check_from(b) is Ok,
        are_distinct(a),
        are_distinct(b),
        gives(a, i, p),
        b.contains(a[i]),
    ensures
        has_set(designation::health_check_from(a)->Ok_0, p),
        has_set(designation::health_check_from(b)->Ok_0, p),
{
    last_parameter_counts(a, i, p);
    let j = choose|j: int| 0 <= j < b.len() && b[j] == a[i];
    assert(gives(b, j, p));
    last_parameter_counts(b, j, p);
}

/// What no pair of one list sets, no list of the same pairs sets.
proof fn lemma_same_absence(a: Seq<Seq<char>>, b: Seq<Seq<char>>, p: ParameterView)
    requires
        forall|x: Seq<char>| a.contains(x) <==> b.contains(x),
        forall|j: int, q: ParameterView| #[trigger] gives(a, j, q) ==> !same_kind(p, q),
    ensures
        forall|j: int, q: ParameterView| #[trigger] gives(b, j, q) ==> !same_kind(p, q),
{
    assert forall|j: int, q: ParameterView| #[trigger] gives(b, j, q) implies !same_kind(p, q) by {
        assert(b.contains(b[j]));
        let i = choose|i: int| 0 <= i < a.len() && a[i] == b[j];
        assert(gives(a, i, q));
    }
}

/// Parameters may come in any order: two lists of the same pairs, none of which gives the same
/// parameter as another, make one health check.
pub proof fn parameters_come_in_any_order(a: Seq<Seq<char>>, b: Seq<Seq<char>>)
    requires
        forall|x: Seq<char>| a.contains(x) <==> b.contains(x),
        designation::health_check_from(a) is Ok,
        are_distinct(a),
        are_distinct(b),
    ensures
        designation::health_check_from(a) == designation::health_check_from(b),
{
    health_check_needs_parameters(a);
    assert forall|i: int| 0 <= i < b.len() implies designation::parameter(
        #[trigger] b[i],
    ) is Ok by {
        assert(b.contains(b[i]));
        let j = choose|j: int| 0 <= j < a.len() && a[j] == b[i];
        assert(designation::parameter(a[j]) is Ok);
    }
    health_check_needs_parameters(b);
    let h = designation::health_check_from(a)->Ok_0;
    let g = designation::health_check_from(b)->Ok_0;
    lemma_same_field(a, b, ParameterView::Check(Seq::empty()));
    lemma_same_field(a, b, ParameterView::Port(0));
    lemma_same_field(a, b, ParameterView::Rise(0));
    lemma_same_field(a, b, ParameterView::Fall(0));
    assert(h == g);
}

/// Two lists of the same pairs, each of distinct parameters, agree on the parameter of the name
/// that `p` has.
proof fn lemma_same_field(a: Seq<Seq<char>>, b: Seq<Seq<char>>, p: ParameterView)
    requires
        forall|x: Seq<char>| a.contains(x) <==> b.contains(x),
        designation::health_check_from(a) is Ok,
        designation::health_check_from(b) is Ok,
        are_distinct(a),
        are_distinct(b),
    ensures
        ({
            let h = designation::health_check_from(a)->Ok_0;
            let g = designation::health_check_from(b)->Ok_0;
            match p {
                ParameterView::Check(_) => h.endpoint == g.endpoint,
                ParameterView::Port(_) => h.port == g.port,
                ParameterView::Rise(_) => h.rise == g.rise,
                ParameterView::Fall(_) => h.fall == g.fall,
            }
        }),
{
    if exists|i: int, q: ParameterView| #[trigger] gives(a, i, q) && same_kind(p, q) {
        let (i, q) = choose|i: int, q: ParameterView| #[trigger]
            gives(a, i, q) && same_kind(p, q);
        assert(a.contains(a[i]));
        lemma_same_setting(a, b, i, q);
        lemma_kinds(p, q);
    } else {
        lemma_same_absence(a, b, p);
        absent_parameter_is_unset(a, p);
        absent_parameter_is_unset(b, p);
    }
}

/// A health check that is read has a port that may be used, or none.
proof fn lemma_check_port(pairs: Seq<Seq<char>>)
    ensures
        designation::health_check_from(pairs) matches Ok(h) ==> is_usable_if_given(h.port),
    decreases pairs.len(),
{
    if pairs.len() > 0 {
        lemma_check_port(pairs.drop_last());
    }
}

/// The ports of a service that is read may be used, each of them.
pub proof fn designated_ports_are_usable(s: Seq<char>)
    ensures
        designation::designated(s) matches Ok(v) ==> {
            &&& is_usable(v.listen_port)
            &&& is_usable_if_given(v.backend_port)
            &&& is_usable_if_given(v.check_port)
        },
{
    assert forall|checks: Seq<char>| true implies (#[trigger] designation::health_check(
        checks,
    ) matches Ok(h) ==> is_usable_if_given(h.port)) by {
        lemma_check_port(text::split(designation::unbraced(checks), ','));
    }
}

/// Services in writing, with `delimiter` between them.
pub open spec fn port_map_text(services: Seq<ServiceView>, delimiter: char) -> Seq<char>
    decreases services.len(),
{
    if services.len() == 0 {
        Seq::empty()
    } else if services.len() == 1 {
        service_designation(services[0])
    } else {
        service_designation(services[0]) + seq![delimiter] + port_map_text(
            services.drop_first(),
            delimiter,
        )
    }
}

/// A service that can be an entry of a port map: it has a designation, without white space round
/// it and with delimiters in braces only.
pub open spec fn has_entry(s: ServiceView) -> bool {
    &&& has_designation(s)
    &&& text::is_trimmed(service_designation(s))
    &&& portmap::is_unparted(service_designation(s))
}

/// A text without an opening brace leaves no brace open.
proof fn lemma_no_open_brace(s: Seq<char>)
    requires
        !s.contains('{'),
    ensures
        !portmap::in_braces(s),
    decreases s.len(),
{
    if s.len() > 0 {
        let front = s.drop_last();
        assert forall|i: int| 0 <= i < front.len() implies front[i] != '{' by {
            assert(s.contains(s[i]));
        }
        lemma_no_open_brace(front);
        assert(s.contains(s[s.len() - 1]));
    }
}

/// A designation is not empty, and leaves no brace open.
proof fn lemma_designation_is_closed(s: ServiceView)
    requires
        has_designation(s),
    ensures
        service_designation(s).len() > 0,
        !portmap::in_braces(service_designation(s)),
{
    let whole = service_designation(s);
    let ps = parameters_of(s);
    reveal_strlit("://");
    assert("://"@.len() == 3);
    assert(whole.len() >= 3);
    if ps.len() > 0 {
        assert(whole.last() == '}');
    } else {
        let name = service::protocol_name(s.service_type);
        let port_text = number::decimal(s.listen_port as nat);
        let suffix = service::port_suffix(s.backend_port);
        let address = port_text + seq![':'] + (s.backend_name + suffix);
        lemma_name_is_lowercase(s.service_type);
        lemma_protocol(name, s.service_type);
        lemma_digits_only(s.listen_port as nat, '{');
        if let Some(port) = s.backend_port {
            lemma_digits_only(port as nat, '{');
        }
        assert(whole =~= name + "://"@ + address);
        assert forall|i: int| 0 <= i < suffix.len() implies suffix[i] != '{' by {
            if i > 0 {
                let digits = number::decimal(s.backend_port->0 as nat);
                assert(suffix[i] == digits[i - 1]);
                assert(digits.contains(digits[i - 1]));
            }
        }
        assert forall|i: int| 0 <= i < whole.len() implies whole[i] != '{' by {
            let k = i - name.len() - 3;
            let j = k - port_text.len() - 1;
            if i < name.len() {
                assert(name.contains(name[i]));
            } else if k >= 0 {
                assert(whole[i] == address[k]);
                if k < port_text.len() {
                    assert(port_text.contains(port_text[k]));
                } else if 0 <= j < s.backend_name.len() {
                    assert(address[k] == s.backend_name[j]);
                    assert(s.backend_name.contains(s.backend_name[j]));
                } else if j >= s.backend_name.len() {
                    assert(address[k] == suffix[j - s.backend_name.len()]);
                }
            }
        }
        lemma_no_open_brace(whole);
    }
}

/// A service in writing is an entry, which designates it.
proof fn lemma_entry_reads_back(s: ServiceView)
    requires
        has_entry(s),
    ensures
        portmap::accepted(portmap::entries(service_designation(s))) == seq![s],
        portmap::refused(portmap::entries(service_designation(s))).len() == 0,
{
    let entry = service_designation(s);
    lemma_designation_is_closed(s);
    text::trim_leaves_trimmed(entry);
    portmap::unparted_text_is_one_entry(entry);
    service_reads_back(s);
    let list = seq![entry];
    assert(list.drop_last() =~= Seq::<Seq<char>>::empty());
    reveal_with_fuel(portmap::accepted, 2);
    reveal_with_fuel(portmap::refused, 2);
    assert(portmap::accepted(list) =~= seq![s]);
}

/// Reading a port map gives back the services that were written, in order, and refuses nothing,
/// whichever delimiter stands between them.
pub proof fn port_map_reads_back(services: Seq<ServiceView>, delimiter: char)
    requires
        portmap::is_delimiter(delimiter),
        forall|i: int| 0 <= i < services.len() ==> has_entry(#[trigger] services[i]),
    ensures
        portmap::accepted(portmap::entries(port_map_text(services, delimiter))) == services,
        portmap::refused(portmap::entries(port_map_text(services, delimiter))).len() == 0,
    decreases services.len(),
{
    let whole = port_map_text(services, delimiter);
    if services.len() == 0 {
        reveal_with_fuel(portmap::entries_of, 2);
        let parts = portmap::segments(whole);
        assert(parts.drop_last() =~= Seq::<Seq<char>>::empty());
        assert(text::trim(parts.last()).len() == 0);
        assert(portmap::entries(whole).len() == 0);
        assert(portmap::accepted(portmap::entries(whole)) =~= services);
    } else {
        lemma_entry_reads_back(services[0]);
        if services.len() == 1 {
            assert(seq![services[0]] =~= services);
        } else {
            let rest = services.drop_first();
            assert forall|i: int| 0 <= i < rest.len() implies has_entry(#[trigger] rest[i]) by {
                assert(rest[i] == services[i + 1]);
            }
            port_map_reads_back(rest, delimiter);
            lemma_designation_is_closed(services[0]);
            portmap::delimiters_part_port_maps(
                service_designation(services[0]),
                delimiter,
                port_map_text(rest, delimiter),
            );
            assert(seq![services[0]] + rest =~= services);
        }
    }
}

/// A stretch of a text in which `c` does not stand holds no `c`.
proof fn lemma_stretch(s: Seq<char>, from: int, to: int, c: char)
    requires
        0 <= from <= to <= s.len(),
        forall|i: int| from <= i < to ==> #[trigger] s[i] != c,
    ensures
        !s.subrange(from, to).contains(c),
{
    assert forall|i: int| 0 <= i < to - from implies s.subrange(from, to)[i] != c by {
        assert(s.subrange(from, to)[i] == s[from + i]);
    }
}

/// An endpoint that a pair without a comma gives can be written.
proof fn lemma_endpoint(pair: Seq<char>, endpoint: Seq<char>)
    requires
        !pair.contains(','),
        designation::parameter(pair) == Ok::<_, ServiceFault>(ParameterView::Check(endpoint)),
    ensures
        is_writable(ParameterView::Check(endpoint)),
{
    text::lemma_index_of(pair, ':');
    let i = text::index_of(pair, ':')->0;
    let value = pair.skip(i + 1);
    let from = text::trim_takes_white_space_only(value);
    assert forall|k: int| from <= k < from + endpoint.len() implies #[trigger] value[k] != ',' by {
        assert(value[k] == pair[i + 1 + k]);
        assert(pair.contains(pair[i + 1 + k]));
    }
    lemma_stretch(value, from, (from + endpoint.len()) as int, ',');
}

/// The endpoint of a health check can be written.
proof fn lemma_read_endpoint(pairs: Seq<Seq<char>>)
    requires
        forall|i: int| 0 <= i < pairs.len() ==> !(#[trigger] pairs[i]).contains(','),
    ensures
        designation::health_check_from(pairs) matches Ok(h) ==> (h.endpoint matches Some(
            endpoint,
        ) ==> is_writable(ParameterView::Check(endpoint))),
    decreases pairs.len(),
{
    if pairs.len() > 0 {
        let front = pairs.drop_last();
        assert forall|i: int| 0 <= i < front.len() implies !(#[trigger] front[i]).contains(',') by {
            assert(!pairs[i].contains(','));
        }
        lemma_read_endpoint(front);
        assert(!pairs[pairs.len() - 1].contains(','));
        if let Ok(ParameterView::Check(endpoint)) = designation::parameter(pairs.last()) {
            lemma_endpoint(pairs.last(), endpoint);
        }
    }
}

/// The backend name of an address holds no colon, and no brace where the address holds none.
proof fn lemma_read_name(address: Seq<char>)
    requires
        !address.contains('{'),
    ensures
        designation::address_part(address) matches Ok((_, name, _)) ==> !name.contains(':')
            && !name.contains('{'),
{
    text::lemma_index_of(address, ':');
    if let Some(i) = text::index_of(address, ':') {
        let rest = address.skip(i + 1);
        assert forall|k: int| 0 <= k < rest.len() implies #[trigger] rest[k] != '{' by {
            assert(rest[k] == address[i + 1 + k]);
            assert(address.contains(address[i + 1 + k]));
        }
        text::lemma_index_of(rest, ':');
        match text::index_of(rest, ':') {
            None => {
                lemma_stretch(rest, 0, rest.len() as int, '{');
                assert(rest.subrange(0, rest.len() as int) =~= rest);
            },
            Some(j) => {
                lemma_stretch(rest, 0, j, '{');
                lemma_stretch(rest, 0, j, ':');
                assert(rest.subrange(0, j) =~= rest.take(j));
            },
        }
    }
}

/// A service that is read can be written, and reading it again gives the same service, unless it
/// ends in an endpoint that itself ends in a closing brace.
pub proof fn reading_is_stable(s: Seq<char>, v: ServiceView)
    requires
        designation::designated(s) == Ok::<_, ServiceFault>(v),
        parameters_of(v).len() > 0 ==> (parameters_of(v).last() matches ParameterView::Check(
            endpoint,
        ) ==> endpoint.last() != '}'),
    ensures
        has_designation(v),
        designation::designated(service_designation(v)) == Ok::<_, ServiceFault>(v),
{
    designated_ports_are_usable(s);
    let rest = designation::type_part(s)->Ok_0.1;
    text::lemma_index_of(rest, '{');
    match text::index_of(rest, '{') {
        None => {
            lemma_read_name(rest);
        },
        Some(i) => {
            lemma_stretch(rest, 0, i, '{');
            assert(rest.subrange(0, i) =~= rest.take(i));
            lemma_read_name(rest.take(i));
            let pairs = text::split(designation::unbraced(rest.skip(i)), ',');
            text::lemma_split_parts(designation::unbraced(rest.skip(i)), ',');
            lemma_read_endpoint(pairs);
        },
    }
    service_reads_back(v);
}

/// The backend name of an address is a stretch of it.
proof fn lemma_name_is_a_stretch(address: Seq<char>, name: Seq<char>) -> (from: int)
    requires
        designation::address_part(address) matches Ok((_, n, _)) && n == name,
    ensures
        0 <= from <= from + name.len() <= address.len(),
        name == address.subrange(from, from + name.len()),
{
    text::lemma_index_of(address, ':');
    let from = text::index_of(address, ':')->0 + 1;
    let rest = address.skip(from);
    text::lemma_index_of(rest, ':');
    assert(name =~= address.subrange(from, from + name.len()));
    from
}

/// The backend name of a service that a port map designates holds no delimiter.
pub proof fn backend_names_hold_no_delimiter(s: Seq<char>, k: int, v: ServiceView)
    requires
        0 <= k < portmap::entries(s).len(),
        designation::designated(portmap::entries(s)[k]) == Ok::<_, ServiceFault>(v),
    ensures
        forall|j: int|
            0 <= j < v.backend_name.len() ==> !portmap::is_delimiter(#[trigger] v.backend_name[j]),
{
    let entry = portmap::entries(s)[k];
    portmap::entries_are_unparted(s);
    reveal_strlit("://");
    text::lemma_index_of_text(entry, "://"@);
    let start = text::index_of_text(entry, "://"@)->0;
    let (protocol, rest) = text::cut_text(entry, "://"@)->0;
    let lower = text::ascii_lowercase(protocol);
    service::protocol_names_are_unique(v.service_type, lower);
    lemma_protocol(protocol, v.service_type);
    let address = designation::checks_apart(rest).0;
    text::lemma_index_of(rest, '{');
    let from = lemma_name_is_a_stretch(address, v.backend_name);
    assert forall|j: int| 0 <= j < v.backend_name.len() implies !portmap::is_delimiter(
        #[trigger] v.backend_name[j],
    ) by {
        let at = start + 3 + from + j;
        assert(address[from + j] == v.backend_name[j]);
        assert(rest[from + j] == address[from + j]);
        assert(entry[at] == rest[from + j]);
        let before = entry.take(at);
        assert forall|i: int| 0 <= i < before.len() implies before[i] != '{' by {
            if i < start {
                assert(before[i] == protocol[i]);
                assert(protocol.contains(protocol[i]));
            } else if i < start + 3 {
                assert(before[i] == entry.subrange(start, start + 3)[i - start]);
            } else {
                assert(before[i] == rest[i - start - 3]);
                if text::index_of(rest, '{') is None {
                    assert(rest.contains(rest[i - start - 3]));
                }
            }
        }
        lemma_no_open_brace(before);
    }
}

} // verus!
