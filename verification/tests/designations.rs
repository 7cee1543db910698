use moirai::{
    parse_and_validate_port, parse_health_check_params, parse_service_parts, parse_service_type,
    Service, ServiceError, ServiceType,
};

fn fault(s: &str) -> ServiceError {
    Service::from_str(s).expect_err("Should designate no service")
}

#[test]
fn a_designation_without_a_scheme_is_refused() {
    let e = fault("80:web.example.com");
    assert_eq!(e, ServiceError::MissingScheme);
    assert_eq!(
        e.to_string(),
        "Invalid service designation format, missing '://'"
    );
}

#[test]
fn an_unknown_protocol_is_refused_as_it_was_written() {
    let e = fault("FTP://21:files.example.com");
    assert_eq!(e, ServiceError::UnsupportedProtocol("FTP".to_string()));
    assert_eq!(e.to_string(), "Unsupported protocol: FTP");
}

#[test]
fn a_protocol_outside_ascii_is_refused() {
    // The long s is no small letter s.
    let e = fault("HTTP\u{17f}://443:web.example.com");
    assert_eq!(
        e.to_string(),
        "Unsupported protocol: HTTP\u{17f}".to_string()
    );
}

#[test]
fn a_designation_without_a_backend_is_refused() {
    let e = fault("http://80");
    assert_eq!(e, ServiceError::MissingParts);
    assert_eq!(
        e.to_string(),
        "Invalid service designation format, expecting at least <listen port>:<backend name>"
    );
}

#[test]
fn ports_that_are_no_numbers_are_refused() {
    assert_eq!(
        fault("http://eighty:web.example.com").to_string(),
        "Invalid listen port: eighty"
    );
    assert_eq!(
        fault("http://80:web.example.com:65536").to_string(),
        "Invalid backend port: 65536"
    );
    assert_eq!(
        fault("http://80:web.example.com:").to_string(),
        "Invalid backend port: "
    );
    assert_eq!(
        fault("http://80:web.example.com:8080{port:x}").to_string(),
        "Invalid health check port: x"
    );
}

#[test]
fn ports_out_of_range_are_refused() {
    assert_eq!(
        fault("http://0:web.example.com").to_string(),
        "listen port out of valid range (1-65534): 0"
    );
    assert_eq!(
        fault("http://80:web.example.com:65535").to_string(),
        "backend port out of valid range (1-65534): 65535"
    );
    assert_eq!(
        fault("http://80:web.example.com{port:0}").to_string(),
        "health check port out of valid range (1-65534): 0"
    );
}

#[test]
fn faulty_health_checks_are_refused() {
    assert_eq!(
        fault("http://80:web.example.com{check}").to_string(),
        "Invalid health check parameter format: check"
    );
    assert_eq!(
        fault("http://80:web.example.com{,}").to_string(),
        "Invalid health check parameter format: "
    );
    assert_eq!(
        fault("http://80:web.example.com{check: }").to_string(),
        "Health check endpoint cannot be empty"
    );
    assert_eq!(
        fault("http://80:web.example.com{rise:-1}").to_string(),
        "Invalid rise value: -1"
    );
    assert_eq!(
        fault("http://80:web.example.com{fall:65536}").to_string(),
        "Invalid fall value: 65536"
    );
    assert_eq!(
        fault("http://80:web.example.com{ speed :9}").to_string(),
        "Unknown health check parameter: speed"
    );
}

#[test]
fn the_first_fault_is_reported() {
    assert_eq!(
        fault("http://0:web.example.com:0{check}").to_string(),
        "listen port out of valid range (1-65534): 0"
    );
    assert_eq!(
        fault("http://80:web.example.com{rise:x,fall:y}").to_string(),
        "Invalid rise value: x"
    );
}

#[test]
fn a_service_type_is_read_in_any_case() {
    let (t, rest) = parse_service_type("HTTPS+Insecure://443:a://b").unwrap();
    assert_eq!(t, ServiceType::HttpsInsecure);
    assert_eq!(rest, "443:a://b");
}

#[test]
fn every_service_type_reads_back() {
    let all = [
        ServiceType::Http,
        ServiceType::Https,
        ServiceType::HttpsInsecure,
        ServiceType::HttpsHttp,
        ServiceType::Tcp,
        ServiceType::TcpProxyV2,
    ];
    for t in all {
        assert_eq!(ServiceType::from_str(t.as_str()).unwrap(), t);
        assert_eq!(t.to_string(), t.as_str());
    }
    assert!(ServiceType::from_str("HTTP").is_err());
    assert!(ServiceType::from_str("").is_err());
}

#[test]
fn an_address_is_read_in_parts() {
    assert_eq!(
        parse_service_parts("80:web.example.com").unwrap(),
        (80, "web.example.com".to_string(), None)
    );
    assert_eq!(
        parse_service_parts("1::65534").unwrap(),
        (1, String::new(), Some(65534))
    );
    assert_eq!(
        parse_service_parts("80:a:1:2").unwrap_err().to_string(),
        "Invalid backend port: 1:2"
    );
}

#[test]
fn ports_are_read_as_numbers() {
    assert_eq!(parse_and_validate_port("1", "listen").unwrap(), 1);
    assert_eq!(parse_and_validate_port("65534", "listen").unwrap(), 65534);
    assert_eq!(parse_and_validate_port("+80", "listen").unwrap(), 80);
    assert_eq!(parse_and_validate_port("00080", "listen").unwrap(), 80);
    for text in ["", "+", "-80", " 80", "80 ", "0x50", "8o", "99999999999999999999999"] {
        assert!(text.parse::<u16>().is_err());
        assert_eq!(
            parse_and_validate_port(text, "listen").unwrap_err(),
            ServiceError::InvalidPort {
                kind: "listen".to_string(),
                text: text.to_string(),
            }
        );
    }
    assert_eq!(
        parse_and_validate_port("65535", "listen").unwrap_err(),
        ServiceError::PortOutOfRange {
            kind: "listen".to_string(),
            text: "65535".to_string(),
        }
    );
}

#[test]
fn every_port_is_read_as_the_number_it_is() {
    for n in 0..=70000u32 {
        let text = n.to_string();
        let expected = text.parse::<u16>().ok().filter(|p| (1..=65534).contains(p));
        assert_eq!(parse_and_validate_port(&text, "listen").ok(), expected);
    }
}

#[test]
fn health_check_parameters_come_in_any_order() {
    let one = parse_health_check_params("{check:/healthz,port:32150,rise:30,fall:1}").unwrap();
    let other = parse_health_check_params("{fall:1,rise:30,port:32150,check:/healthz}").unwrap();
    assert_eq!(one, other);
    assert_eq!(
        one,
        (Some("/healthz".to_string()), Some(32150), Some(30), Some(1))
    );
}

#[test]
fn all_health_check_parameters_may_be_left_out() {
    for text in ["{}", "{ }", "{ \t\u{a0}}"] {
        assert_eq!(
            parse_health_check_params(text).unwrap(),
            (None, None, None, None)
        );
    }
    assert_eq!(
        Service::from_str("http://80:web.example.com:8080{}").unwrap(),
        Service::from_str("http://80:web.example.com:8080").unwrap()
    );
}

#[test]
fn only_two_braces_make_an_empty_block() {
    for text in ["", " ", "{", "}", "{{", "{{}}", "{}}", "{{}", "{,}", "{ { } }"] {
        assert!(parse_health_check_params(text).is_err(), "{text}");
    }
    assert_eq!(
        fault("http://80:web{").to_string(),
        "Invalid health check parameter format: "
    );
}

#[test]
fn services_and_their_types_are_parsed_from_text() {
    let text = "https://443:api.example.com:8443{check:/status,port:9000}";
    assert_eq!(
        text.parse::<Service>().unwrap(),
        Service::from_str(text).unwrap()
    );
    assert_eq!(
        "https://443".parse::<Service>(),
        Err(ServiceError::MissingParts)
    );
    assert_eq!("tcp".parse::<ServiceType>().unwrap(), ServiceType::Tcp);
    assert!("TCP".parse::<ServiceType>().is_err());
}

#[test]
fn no_small_letter_of_a_name_stands_for_one_beyond_ascii() {
    for c in '\u{80}'..=char::MAX {
        let lower = c.to_string().to_lowercase();
        assert!(!lower.is_ascii() || (c == '\u{212a}' && lower == "k"));
        for protocol in [format!("{c}"), format!("http{c}"), format!("{c}tcp")] {
            assert_eq!(
                parse_service_type(&format!("{protocol}://80:a")),
                Err(ServiceError::UnsupportedProtocol(protocol))
            );
        }
    }
}

#[test]
fn the_last_of_a_repeated_parameter_counts() {
    assert_eq!(
        parse_health_check_params("{rise:1,check:/a,rise:2,check:/b}").unwrap(),
        (Some("/b".to_string()), None, Some(2), None)
    );
}

#[test]
fn white_space_round_keys_and_values_does_not_matter() {
    assert_eq!(
        parse_health_check_params("{ check : /a b , port : 9000\t}").unwrap(),
        (Some("/a b".to_string()), Some(9000), None, None)
    );
}

#[test]
fn braces_are_taken_from_the_ends_only() {
    assert_eq!(
        parse_health_check_params("{{check:/a}b}}").unwrap().0,
        Some("/a}b".to_string())
    );
    assert_eq!(
        parse_health_check_params("rise:0").unwrap(),
        (None, None, Some(0), None)
    );
}

#[test]
fn an_endpoint_keeps_its_colons() {
    let service = Service::from_str("http://80:a.example.com{check:/x:y}").unwrap();
    assert_eq!(service.http_check_endpoint, Some("/x:y".to_string()));
    assert_eq!(service.backend_name, "a.example.com");
    assert_eq!(service.backend_port, None);
}

#[test]
fn a_designation_reads_back() {
    let service =
        Service::from_str("TCP-Proxy-V2://3306:db.example.com:3307{fall:9,check:/ping}").unwrap();
    assert_eq!(
        service,
        Service {
            service_type: ServiceType::TcpProxyV2,
            listen_port: 3306,
            backend_name: "db.example.com".to_string(),
            backend_port: Some(3307),
            http_check_endpoint: Some("/ping".to_string()),
            check_port: None,
            check_rise: None,
            check_fall: Some(9),
        }
    );
}

#[test]
fn reading_twice_is_reading_once() {
    let once = Service::from_str("Http://+080:a.example.com:8080{rise:3, check: /x}").unwrap();
    let written = "http://80:a.example.com:8080{check:/x,rise:3}";
    assert_eq!(Service::from_str(written).unwrap(), once);
}
