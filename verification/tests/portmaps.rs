use moirai::{parse_services, Portmap, Service, ServiceType};
use std::hash::{DefaultHasher, Hash, Hasher};

#[test]
fn delimiters_in_braces_part_nothing() {
    let (services, rejected) =
        parse_services("http://80:web.example.com:8080{check:/a b, port:8081}, tcp://3306:db");
    assert!(rejected.is_empty());
    assert_eq!(services.len(), 2);
    assert_eq!(services[0].http_check_endpoint, Some("/a b".to_string()));
    assert_eq!(services[0].check_port, Some(8081));
    assert_eq!(services[1].backend_name, "db");
}

#[test]
fn entries_are_parted_by_commas_spaces_and_newlines() {
    let (services, rejected) = parse_services("\n tcp://1:a,tcp://2:b tcp://3:c\ntcp://4:d\t,,");
    assert!(rejected.is_empty());
    let ports: Vec<u16> = services.iter().map(|s| s.listen_port).collect();
    assert_eq!(ports, [1, 2, 3, 4]);
    assert_eq!(services[3].backend_name, "d");
}

#[test]
fn a_blank_port_map_has_no_entries() {
    for input in ["", " ", ",", " \t\n, \u{a0}"] {
        let (services, rejected) = parse_services(input);
        assert!(services.is_empty());
        assert!(rejected.is_empty());
    }
}

#[test]
fn every_entry_is_taken_or_refused_in_order() {
    let (services, rejected) = parse_services("x,tcp://1:a,http://0:b,tcp://2:c{x");
    assert_eq!(services.len(), 1);
    assert_eq!(services[0].listen_port, 1);
    assert_eq!(rejected.len(), 3);
    assert_eq!(rejected[0].string, "x");
    assert_eq!(
        rejected[0].errors,
        ["Invalid service designation format, missing '://'"]
    );
    assert_eq!(rejected[1].string, "http://0:b");
    assert_eq!(
        rejected[1].errors,
        ["listen port out of valid range (1-65534): 0"]
    );
    assert_eq!(rejected[2].string, "tcp://2:c{x");
    assert_eq!(
        rejected[2].errors,
        ["Invalid health check parameter format: x"]
    );
}

#[test]
fn a_port_map_reads_as_its_parts_do() {
    let (a, b) = ("tcp://1:a,oops", "http://2:b{check:/,rise:1} tcp://3:c");
    let (mut services, mut rejected) = parse_services(a);
    let (more_services, more_rejected) = parse_services(b);
    services.extend(more_services);
    rejected.extend(more_rejected);
    let (all_services, all_rejected) = parse_services(&format!("{a},{b}"));
    assert_eq!(all_services, services);
    let strings: Vec<_> = rejected.iter().map(|r| r.string.as_str()).collect();
    let all_strings: Vec<_> = all_rejected.iter().map(|r| r.string.as_str()).collect();
    assert_eq!(all_strings, strings);
}

#[test]
fn an_empty_health_check_is_accepted() {
    let (services, rejected) = parse_services("tcp://1:a{},http://2:b:3{ , },tcp://4:c{ }");
    assert_eq!(services.len(), 2);
    assert_eq!(services[0], Service::from_str("tcp://1:a").unwrap());
    assert_eq!(services[1], Service::from_str("tcp://4:c").unwrap());
    assert_eq!(rejected.len(), 1);
    assert_eq!(rejected[0].string, "http://2:b:3{ , }");
}

#[test]
fn backend_names_hold_no_delimiter() {
    let (services, _) = parse_services("tcp://1:a b:2,http://3:c\n:4{check:/ x},tcp://5:d,e");
    assert!(!services.is_empty());
    for service in services {
        assert!(!service.backend_name.contains([',', ' ', '\n']));
    }
}

#[test]
fn an_open_brace_holds_what_follows_together() {
    let (services, rejected) = parse_services("tcp://1:a{check:/x tcp://2:b");
    assert!(rejected.is_empty());
    assert_eq!(services.len(), 1);
    assert_eq!(
        services[0].http_check_endpoint,
        Some("/x tcp://2:b".to_string())
    );
}

#[test]
fn white_space_is_that_of_unicode() {
    for c in '\0'..=char::MAX {
        assert_eq!(moirai::text::white_space(c), c.is_whitespace(), "{c:?}");
    }
}

#[test]
fn trimming_takes_white_space_from_both_ends() {
    for s in ["", " ", "a", " a b\t", "\u{3000}x\u{2028}", "\u{200b}x"] {
        assert_eq!(moirai::text::trimmed(s), s.trim());
    }
}

fn services_of_all_shapes() -> Vec<Service> {
    let (mut services, rejected) = parse_services(
        "http://80:web,https://443:w\u{e9}b:8443{check:/,port:1,rise:2,fall:3},\
         https+insecure://444:x{rise:65535},https-http://445:,tcp://1:a:2,tcp-proxy-v2://3:b",
    );
    assert!(rejected.is_empty());
    services.push(Service::default());
    services
}

#[test]
fn a_cookie_key_is_the_hash_of_the_service() {
    for service in services_of_all_shapes() {
        let mut hasher = DefaultHasher::new();
        service.hash(&mut hasher);
        assert_eq!(
            service.dynamic_cookie_key(),
            format!("{:x}", hasher.finish())
        );
    }
}

#[test]
fn a_cookie_key_is_hexadecimal() {
    for service in services_of_all_shapes() {
        let key = service.dynamic_cookie_key();
        assert!((1..=16).contains(&key.len()));
        assert!(key
            .chars()
            .all(|c| c.is_ascii_digit() || ('a'..='f').contains(&c)));
    }
}

#[test]
fn cookie_keys_tell_services_apart() {
    let services = services_of_all_shapes();
    for (i, a) in services.iter().enumerate() {
        for b in &services[i + 1..] {
            assert_ne!(a.dynamic_cookie_key(), b.dynamic_cookie_key());
        }
    }
}

#[test]
fn a_default_service_is_plain_http_on_no_port() {
    let service = Service::default();
    assert_eq!(service.service_type, ServiceType::Http);
    assert_eq!(service.listen_port, 0);
    assert_eq!(service.backend_name, "");
    assert_eq!(service.backend_port, None);
    assert_eq!(service.backend_port_str(), "");
    assert!(!service.http_check());
    assert_eq!(service.http_check_endpoint(), "");
}

#[test]
fn ports_and_endpoints_are_given_as_text() {
    let service = Service::from_str("http://80:web:8080{check:/status}").unwrap();
    assert_eq!(service.backend_port_str(), ":8080");
    assert!(service.http_check());
    assert_eq!(service.http_check_endpoint(), "/status");
}

#[test]
fn modes_are_http_and_tcp() {
    assert_eq!(ServiceType::TcpProxyV2.mode(), &ServiceType::Tcp);
    assert_eq!(ServiceType::Tcp.mode(), &ServiceType::Tcp);
    assert_eq!(ServiceType::HttpsHttp.mode(), &ServiceType::Http);
    assert_eq!(ServiceType::HttpsInsecure.mode(), &ServiceType::Http);
}

#[test]
fn added_services_leave_the_text_of_the_others() {
    let render = |input: &str| {
        let (services, _) = parse_services(input);
        let portmap = Portmap {
            services,
            max_backends: 64,
        };
        portmap.render().unwrap()
    };
    let first = render("tcp://1:a:2,http://3:b{check:/,rise:4}");
    let both = render("tcp://1:a:2,http://3:b{check:/,rise:4},tcp-proxy-v2://5:c");
    assert!(both.starts_with(&first));
    assert_eq!(
        &both[first.len()..],
        "\nfrontend fe2\n\tmode tcp\n\tbind *:5\n\tdefault_backend be2\n\nbackend be2\n\tmode tcp\n\
         \tserver-template rs 64 c send-proxy-v2 check resolvers system init-addr none\n"
    );
    assert!(first.contains("\toption httpchk GET /\n\thttp-check expect status 200\n"));
    assert!(first.contains(" check rise 4 resolvers"));
}
