use moirai::{parse_health_check_params, parse_services, Service, ServiceType};

#[test]
fn test_parse_services() {
    let test_data = "tcp://12345:service_name.svc.account_uuid.datacenter.cns.domain.zone:23456,https://443:tlswebthing.svc.account_uuid.datacenter.cns.domain.zone:5443,tcp://80:webthing.svc.account_uuid.datacenter.cns.domain.zone:31799";

    // Parse the test data into a vector of services
    let (services, rejected) = parse_services(test_data);

    // Verify there are no rejected services
    assert_eq!(rejected.len(), 0);

    // Verify the number of services parsed
    assert_eq!(services.len(), 3);

    // Verify the first service
    assert_eq!(services[0].service_type.to_string(), "tcp");
    assert_eq!(services[0].listen_port, 12345);
    assert_eq!(
        services[0].backend_name,
        "service_name.svc.account_uuid.datacenter.cns.domain.zone"
    );
    assert_eq!(services[0].backend_port, Some(23456));

    // Verify the second service
    assert_eq!(services[1].service_type.to_string(), "https");
    assert_eq!(services[1].listen_port, 443);
    assert_eq!(
        services[1].backend_name,
        "tlswebthing.svc.account_uuid.datacenter.cns.domain.zone"
    );
    assert_eq!(services[1].backend_port, Some(5443));

    // Verify the third service
    assert_eq!(services[2].service_type.to_string(), "tcp");
    assert_eq!(services[2].listen_port, 80);
    assert_eq!(
        services[2].backend_name,
        "webthing.svc.account_uuid.datacenter.cns.domain.zone"
    );
    assert_eq!(services[2].backend_port, Some(31799));
}

#[test]
fn test_parse_services_with_invalid() {
    let test_data = "tcp://12345:service_name.svc.account_uuid.datacenter.cns.domain.zone:23456,invalid://443:something,tcp://99999:invalid_port";

    // Parse the test data into a vector of services
    let (services, rejected) = parse_services(test_data);

    // Verify valid and rejected service counts
    assert_eq!(services.len(), 1);
    assert_eq!(rejected.len(), 2);

    // Verify rejected services contain appropriate errors
    assert!(rejected[0].errors[0].contains("Unsupported protocol"));

    // Debug print the actual error message for the second rejected service
    println!("Invalid port error message: {}", rejected[1].errors[0]);
    assert!(
        rejected[1].errors[0].contains("Invalid")
            || rejected[1].errors[0].contains("valid range")
    );
}

#[test]
fn test_error_handling() {
    // Test with a service with invalid port
    let test_data = "tcp://0:too_small_port:12345";
    let (services, rejected) = parse_services(test_data);

    assert_eq!(services.len(), 0);
    assert_eq!(rejected.len(), 1);

    // Debug print the actual error message
    println!("Too small port error message: {}", rejected[0].errors[0]);
    assert!(
        rejected[0].errors[0].contains("valid range")
            || rejected[0].errors[0].contains("out of")
    );

    // Test with multiple errors
    let test_data = "invalid://123:backend,tcp://99999:too_big_port";
    let (services, rejected) = parse_services(test_data);

    assert_eq!(services.len(), 0);
    assert_eq!(rejected.len(), 2);
    assert!(rejected[0].errors[0].contains("Unsupported protocol"));

    // Debug print the actual error message for the second rejected service
    println!("Too big port error message: {}", rejected[1].errors[0]);
    assert!(
        rejected[1].errors[0].contains("Invalid")
            || rejected[1].errors[0].contains("valid range")
    );
}

#[test]
fn test_parse_case_insensitive_protocol() {
    // Test parsing case-insensitive protocol strings
    let test_data = "TcP://22:ssh.service.com:2222,HttP://80:web.service.com:8080,hTTps://443:secure.service.com:8443";

    // Parse the test data into a vector of services
    let (services, rejected) = parse_services(test_data);

    // Verify there are no rejected services and 3 valid ones
    assert_eq!(rejected.len(), 0);
    assert_eq!(services.len(), 3);

    // Verify protocol normalization
    assert_eq!(services[0].service_type.to_string(), "tcp");
    assert_eq!(services[1].service_type.to_string(), "http");
    assert_eq!(services[2].service_type.to_string(), "https");
}

#[test]
fn test_parse_health_check_params() {
    // Test full parameters
    let result = parse_health_check_params("{check:/healthz,port:32150,rise:30,fall:1}");
    assert!(result.is_ok());
    let (check, port, rise, fall) = result.unwrap();
    assert_eq!(check, Some("/healthz".to_string()));
    assert_eq!(port, Some(32150));
    assert_eq!(rise, Some(30));
    assert_eq!(fall, Some(1));

    // Test partial parameters
    let result = parse_health_check_params("{check:/health,port:8080}");
    assert!(result.is_ok());
    let (check, port, rise, fall) = result.unwrap();
    assert_eq!(check, Some("/health".to_string()));
    assert_eq!(port, Some(8080));
    assert_eq!(rise, None);
    assert_eq!(fall, None);

    // Test only check endpoint
    let result = parse_health_check_params("{check:/}");
    assert!(result.is_ok());
    let (check, port, rise, fall) = result.unwrap();
    assert_eq!(check, Some("/".to_string()));
    assert_eq!(port, None);
    assert_eq!(rise, None);
    assert_eq!(fall, None);

    // Test invalid format
    let result = parse_health_check_params("{check}");
    assert!(result.is_err());

    // Test unknown parameter
    let result = parse_health_check_params("{check:/health,unknown:value}");
    assert!(result.is_err());
}

#[test]
fn test_service_parsing_with_health_checks() {
    // HTTP service with health check
    let service =
        Service::from_str("http://80:backend.example.com:8080{check:/status,port:8081}");
    assert!(service.is_ok());
    let service = service.unwrap();
    assert_eq!(service.service_type, ServiceType::Http);
    assert_eq!(service.listen_port, 80);
    assert_eq!(service.backend_name, "backend.example.com");
    assert_eq!(service.backend_port, Some(8080));
    assert_eq!(service.http_check_endpoint, Some("/status".to_string()));
    assert_eq!(service.check_port, Some(8081));

    // TCP service with health check on different port
    let service = Service::from_str(
        "tcp://3306:db.example.com:3306{check:/ping,port:9000,rise:2,fall:3}",
    );
    assert!(service.is_ok());
    let service = service.unwrap();
    assert_eq!(service.service_type, ServiceType::Tcp);
    assert_eq!(service.check_rise, Some(2));
    assert_eq!(service.check_fall, Some(3));

    // Service without health check (backward compatibility)
    let service = Service::from_str("https-http://443:api.example.com:8443");
    assert!(service.is_ok());
    let service = service.unwrap();
    assert_eq!(service.http_check_endpoint, None);
    assert_eq!(service.check_port, None);
}

#[test]
fn test_service_type_ssl_methods() {
    // Test the new SSL-related helper methods
    let http_service = Service {
        service_type: ServiceType::Http,
        ..Default::default()
    };
    let https_service = Service {
        service_type: ServiceType::Https,
        ..Default::default()
    };
    let https_insecure_service = Service {
        service_type: ServiceType::HttpsInsecure,
        ..Default::default()
    };
    let https_http_service = Service {
        service_type: ServiceType::HttpsHttp,
        ..Default::default()
    };
    let tcp_service = Service {
        service_type: ServiceType::Tcp,
        ..Default::default()
    };
    let tcp_proxy_v2_service = Service {
        service_type: ServiceType::TcpProxyV2,
        ..Default::default()
    };

    // Test frontend_ssl()
    assert!(!http_service.frontend_ssl());
    assert!(https_service.frontend_ssl());
    assert!(https_insecure_service.frontend_ssl());
    assert!(https_http_service.frontend_ssl());
    assert!(!tcp_service.frontend_ssl());
    assert!(!tcp_proxy_v2_service.frontend_ssl());

    // Test backend_ssl()
    assert!(!http_service.backend_ssl());
    assert!(https_service.backend_ssl());
    assert!(https_insecure_service.backend_ssl());
    assert!(!https_http_service.backend_ssl());
    assert!(!tcp_service.backend_ssl());
    assert!(!tcp_proxy_v2_service.backend_ssl());

    // Test backend_ssl_verify()
    assert!(!http_service.backend_ssl_verify());
    assert!(https_service.backend_ssl_verify());
    assert!(!https_insecure_service.backend_ssl_verify());
    assert!(!https_http_service.backend_ssl_verify());
    assert!(!tcp_service.backend_ssl_verify());
    assert!(!tcp_proxy_v2_service.backend_ssl_verify());

    // Test use_sticky_session()
    assert!(http_service.use_sticky_session());
    assert!(https_service.use_sticky_session());
    assert!(https_insecure_service.use_sticky_session());
    assert!(https_http_service.use_sticky_session());
    assert!(!tcp_service.use_sticky_session());
    assert!(!tcp_proxy_v2_service.use_sticky_session());

    // Test sends_proxy_v2()
    assert!(!http_service.sends_proxy_v2());
    assert!(!https_service.sends_proxy_v2());
    assert!(!https_insecure_service.sends_proxy_v2());
    assert!(!https_http_service.sends_proxy_v2());
    assert!(!tcp_service.sends_proxy_v2());
    assert!(tcp_proxy_v2_service.sends_proxy_v2());
}

#[test]
fn test_parse_https_insecure_service() {
    // Test parsing the new https+insecure service type
    let service = Service::from_str("https+insecure://443:backend.example.com:8443");
    assert!(service.is_ok());
    let service = service.unwrap();
    assert_eq!(service.service_type, ServiceType::HttpsInsecure);
    assert_eq!(service.listen_port, 443);
    assert_eq!(service.backend_name, "backend.example.com");
    assert_eq!(service.backend_port, Some(8443));

    // Test that it serializes correctly
    assert_eq!(service.service_type.to_string(), "https+insecure");
}

#[test]
fn test_parse_tcp_proxy_v2_service() {
    // Test parsing the new tcp-proxy-v2 service type
    let service = Service::from_str("tcp-proxy-v2://3306:db.backend.com:3306");
    assert!(service.is_ok());
    let service = service.unwrap();
    assert_eq!(service.service_type, ServiceType::TcpProxyV2);
    assert_eq!(service.listen_port, 3306);
    assert_eq!(service.backend_name, "db.backend.com");
    assert_eq!(service.backend_port, Some(3306));

    // Test that it serializes correctly
    assert_eq!(service.service_type.to_string(), "tcp-proxy-v2");

    // Test that helper methods work correctly
    assert!(service.sends_proxy_v2());
    assert!(!service.use_sticky_session());
    assert!(!service.frontend_ssl());
    assert!(!service.backend_ssl());
}
