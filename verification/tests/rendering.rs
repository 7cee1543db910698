use moirai::{
    parse_services, DefaultsConfig, GlobalConfig, MetricsConfig, Portmap, Service, ServiceType,
    TimeoutConfig, DEFAULT_METRICS_PORT, MAX_BACKENDS_HIGH, MAX_BACKENDS_LOW,
};

#[test]
fn test_portmap_rendering() {
    let test_data = "tcp://12345:service_name.svc.account_uuid.datacenter.cns.domain.zone:23456,https+insecure://443:tlswebthing.svc.account_uuid.datacenter.cns.domain.zone:5443,tcp://80:webthing.svc.account_uuid.datacenter.cns.domain.zone:31799";
    let (services, _) = parse_services(test_data);

    // Get the dynamic cookie key for the HTTPS service (index 1)
    let https_cookie_key = services[1].dynamic_cookie_key();

    // Create a Portmap with the parsed services
    let portmap = Portmap {
        services,
        max_backends: MAX_BACKENDS_LOW,
    };

    // Render the template with the parsed services
    let rendered = portmap.render().expect("Failed to render template");

    // Check that the rendered template is exactly what we expect
    let expected = format!(
        r#"#                                                  #
# ## DO NOT EDIT. THIS FILE WILL BE OVERWRITTEN ## #
#                                                  #

frontend fe0
	mode tcp
	bind *:12345
	default_backend be0

backend be0
	mode tcp
	server-template rs 32 service_name.svc.account_uuid.datacenter.cns.domain.zone:23456 check resolvers system init-addr none

frontend fe1
	mode http
	bind *:443 ssl crt /opt/triton/tls/default/fullchain.pem
	default_backend be1

backend be1
	mode http
	cookie CLOUD-TRITONCOMPUTE-RS insert indirect nocache dynamic
	dynamic-cookie-key {}
	server-template rs 32 tlswebthing.svc.account_uuid.datacenter.cns.domain.zone:5443 ssl verify none check resolvers system init-addr none

frontend fe2
	mode tcp
	bind *:80
	default_backend be2

backend be2
	mode tcp
	server-template rs 32 webthing.svc.account_uuid.datacenter.cns.domain.zone:31799 check resolvers system init-addr none
"#,
        https_cookie_key
    );
    assert_eq!(rendered, expected)
}

#[test]
fn test_portmap_rendering_with_https_http() {
    // Create a test service with HTTPS-HTTP protocol (TLS termination)
    let services = vec![Service {
        service_type: ServiceType::HttpsHttp,
        listen_port: 443,
        backend_name: "some-app.svc.account_uuid.datacenter.cns.domain.zone".to_string(),
        backend_port: Some(8080),
        ..Default::default()
    }];

    // Get the dynamic cookie key for this service
    let cookie_key = services[0].dynamic_cookie_key();

    // Create a Portmap with the parsed services
    let portmap = Portmap {
        services,
        max_backends: MAX_BACKENDS_LOW,
    };

    // Render the template with the parsed services
    let rendered = portmap.render().expect("Failed to render template");

    // Check that the rendered template includes SSL configuration
    let expected = format!(
        r#"#                                                  #
# ## DO NOT EDIT. THIS FILE WILL BE OVERWRITTEN ## #
#                                                  #

frontend fe0
	mode http
	bind *:443 ssl crt /opt/triton/tls/default/fullchain.pem
	default_backend be0

backend be0
	mode http
	cookie CLOUD-TRITONCOMPUTE-RS insert indirect nocache dynamic
	dynamic-cookie-key {}
	server-template rs 32 some-app.svc.account_uuid.datacenter.cns.domain.zone:8080 check resolvers system init-addr none
"#,
        cookie_key
    );
    assert_eq!(rendered, expected)
}

#[test]
fn test_portmap_rendering_with_https() {
    // Create a test service with HTTPS protocol on both sides with certificate verification
    let services = vec![Service {
        service_type: ServiceType::Https,
        listen_port: 443,
        backend_name: "secure-app.svc.account_uuid.datacenter.cns.domain.zone".to_string(),
        backend_port: Some(8443),
        ..Default::default()
    }];

    // Get the dynamic cookie key for this service
    let cookie_key = services[0].dynamic_cookie_key();

    // Create a Portmap with the parsed services
    let portmap = Portmap {
        services,
        max_backends: MAX_BACKENDS_LOW,
    };

    // Render the template with the parsed services
    let rendered = portmap.render().expect("Failed to render template");

    // Check that the rendered template includes SSL configuration with certificate verification
    let expected = format!(
        r#"#                                                  #
# ## DO NOT EDIT. THIS FILE WILL BE OVERWRITTEN ## #
#                                                  #

frontend fe0
	mode http
	bind *:443 ssl crt /opt/triton/tls/default/fullchain.pem
	default_backend be0

backend be0
	mode http
	cookie CLOUD-TRITONCOMPUTE-RS insert indirect nocache dynamic
	dynamic-cookie-key {}
	server-template rs 32 secure-app.svc.account_uuid.datacenter.cns.domain.zone:8443 ssl verify required ca-file /opt/local/share/mozilla-rootcerts/cacert.pem check resolvers system init-addr none
"#,
        cookie_key
    );
    assert_eq!(rendered, expected)
}

#[test]
fn test_portmap_rendering_with_http() {
    // Create a test service with HTTP protocol
    let services = vec![Service {
        service_type: ServiceType::Http,
        listen_port: 80,
        backend_name: "web-app.svc.account_uuid.datacenter.cns.domain.zone".to_string(),
        backend_port: Some(8080),
        ..Default::default()
    }];

    // Get the dynamic cookie key for this service
    let cookie_key = services[0].dynamic_cookie_key();

    // Create a Portmap with the parsed services
    let portmap = Portmap {
        services,
        max_backends: MAX_BACKENDS_LOW,
    };

    // Render the template with the parsed services
    let rendered = portmap.render().expect("Failed to render template");

    // Check that the rendered template includes sticky session but no SSL
    let expected = format!(
        r#"#                                                  #
# ## DO NOT EDIT. THIS FILE WILL BE OVERWRITTEN ## #
#                                                  #

frontend fe0
	mode http
	bind *:80
	default_backend be0

backend be0
	mode http
	cookie CLOUD-TRITONCOMPUTE-RS insert indirect nocache dynamic
	dynamic-cookie-key {}
	server-template rs 32 web-app.svc.account_uuid.datacenter.cns.domain.zone:8080 check resolvers system init-addr none
"#,
        cookie_key
    );
    assert_eq!(rendered, expected)
}

#[test]
fn test_portmap_rendering_with_none() {
    // Create a test service with None backend_port
    let services = vec![Service {
        service_type: ServiceType::Tcp,
        listen_port: 636,
        backend_name: "my-backend.svc.my-login.us-west-1.cns.example.com".to_string(),
        backend_port: None,
        ..Default::default()
    }];

    // Create a Portmap with the parsed services
    let portmap = Portmap {
        services,
        max_backends: MAX_BACKENDS_HIGH,
    };

    // Render the template with the parsed services
    let rendered = portmap.render().expect("Failed to render template");

    // Check that the rendered template correctly handles None values
    let expected = format!(
        r#"#                                                  #
# ## DO NOT EDIT. THIS FILE WILL BE OVERWRITTEN ## #
#                                                  #

frontend fe0
	mode tcp
	bind *:636
	default_backend be0

backend be0
	mode tcp
	server-template rs {0} my-backend.svc.my-login.us-west-1.cns.example.com check resolvers system init-addr none
"#,
        MAX_BACKENDS_HIGH
    );
    assert_eq!(rendered, expected)
}

#[test]
fn test_metrics_config_rendering() {
    // Test metrics config without SSL
    let metrics_config = MetricsConfig {
        metrics_port: DEFAULT_METRICS_PORT,
    };
    let rendered = metrics_config
        .render()
        .expect("Failed to render metrics config");
    let expected = r#"#                                                  #
# ## DO NOT EDIT. THIS FILE WILL BE OVERWRITTEN ## #
#                                                  #
frontend __cloud_tritoncompute__metrics
  bind *:8405
  mode http
  http-request deny if !{ src -f 210-metrics_acl.txt }
  http-request use-service prometheus-exporter if { path /metrics }
  no log
"#;
    assert_eq!(rendered, expected);
}

#[test]
fn test_metrics_config_rendering_custom_port() {
    // Test metrics config with custom port
    let metrics_config = MetricsConfig { metrics_port: 9090 };
    let rendered = metrics_config
        .render()
        .expect("Failed to render metrics config");
    let expected = r#"#                                                  #
# ## DO NOT EDIT. THIS FILE WILL BE OVERWRITTEN ## #
#                                                  #
frontend __cloud_tritoncompute__metrics
  bind *:9090
  mode http
  http-request deny if !{ src -f 210-metrics_acl.txt }
  http-request use-service prometheus-exporter if { path /metrics }
  no log
"#;
    assert_eq!(rendered, expected);
}

#[test]
fn test_global_config_rendering_with_syslog() {
    // Test global config with syslog endpoint
    let global_config = GlobalConfig {
        syslog_endpoint: Some("10.11.28.101:30514".to_string()),
    };
    let rendered = global_config
        .render()
        .expect("Failed to render global config");

    // Check that the rendered template includes syslog configuration
    assert!(rendered.contains("log 127.0.0.1 len 4096 local0"));
    assert!(rendered.contains("log 10.11.28.101:30514 len 4096 local0"));
    assert!(rendered.contains("log-send-hostname"));
}

#[test]
fn test_global_config_rendering_with_hostname_syslog() {
    // Test global config with hostname syslog endpoint
    let global_config = GlobalConfig {
        syslog_endpoint: Some("syslog.example.com:514".to_string()),
    };
    let rendered = global_config
        .render()
        .expect("Failed to render global config");

    // Check that the rendered template includes syslog configuration with hostname
    assert!(rendered.contains("log 127.0.0.1 len 4096 local0"));
    assert!(rendered.contains("log syslog.example.com:514 len 4096 local0"));
    assert!(rendered.contains("log-send-hostname"));
}

#[test]
fn test_global_config_rendering_without_syslog() {
    // Test global config without syslog endpoint
    let global_config = GlobalConfig {
        syslog_endpoint: None,
    };
    let rendered = global_config
        .render()
        .expect("Failed to render global config");

    // Check that the rendered template does not include additional syslog configuration
    assert!(rendered.contains("log 127.0.0.1 len 4096 local0"));
    assert!(!rendered.contains("log-send-hostname"));
    // Should only have one log line
    let log_count = rendered.matches("log ").count();
    assert_eq!(log_count, 1);
}

#[test]
fn test_portmap_healthcheck_rendering() {
    let test_data =
        "tcp://12345:service_name.svc.account_uuid.datacenter.cns.domain.zone:23456{check:/healthz,port:32150,rise:30,fall:1}";
    let (services, rejected) = parse_services(test_data);

    assert_eq!(rejected.len(), 0, "Should have no rejected services");
    assert_eq!(services.len(), 1, "Should have parsed one service");

    // Create a Portmap with the parsed services
    let portmap = Portmap {
        services,
        max_backends: MAX_BACKENDS_LOW,
    };

    // Render the template with the parsed services
    let rendered = portmap.render().expect("Failed to render template");

    // Check that the rendered template is exactly what we expect
    let expected = r#"#                                                  #
# ## DO NOT EDIT. THIS FILE WILL BE OVERWRITTEN ## #
#                                                  #

frontend fe0
	mode tcp
	bind *:12345
	default_backend be0

backend be0
	mode tcp
	option httpchk GET /healthz
	http-check expect status 200
	server-template rs 32 service_name.svc.account_uuid.datacenter.cns.domain.zone:23456 check port 32150 rise 30 fall 1 resolvers system init-addr none
"#;
    assert_eq!(rendered, expected)
}

#[test]
fn test_portmap_rendering_with_https_insecure() {
    // Create a test service with HTTPS+insecure protocol (HTTPS both ends, no verification)
    let services = vec![Service {
        service_type: ServiceType::HttpsInsecure,
        listen_port: 443,
        backend_name: "insecure-app.svc.account_uuid.datacenter.cns.domain.zone".to_string(),
        backend_port: Some(8443),
        ..Default::default()
    }];

    // Get the dynamic cookie key for this service
    let cookie_key = services[0].dynamic_cookie_key();

    // Create a Portmap with the parsed services
    let portmap = Portmap {
        services,
        max_backends: MAX_BACKENDS_LOW,
    };

    // Render the template with the parsed services
    let rendered = portmap.render().expect("Failed to render template");

    // Check that the rendered template includes SSL configuration with verify none
    let expected = format!(
        r#"#                                                  #
# ## DO NOT EDIT. THIS FILE WILL BE OVERWRITTEN ## #
#                                                  #

frontend fe0
	mode http
	bind *:443 ssl crt /opt/triton/tls/default/fullchain.pem
	default_backend be0

backend be0
	mode http
	cookie CLOUD-TRITONCOMPUTE-RS insert indirect nocache dynamic
	dynamic-cookie-key {}
	server-template rs 32 insecure-app.svc.account_uuid.datacenter.cns.domain.zone:8443 ssl verify none check resolvers system init-addr none
"#,
        cookie_key
    );
    assert_eq!(rendered, expected)
}

#[test]
fn test_portmap_rendering_with_tcp_proxy_v2() {
    // Create a test service with TCP PROXY v2 protocol
    let services = vec![Service {
        service_type: ServiceType::TcpProxyV2,
        listen_port: 3306,
        backend_name: "db.backend.com".to_string(),
        backend_port: Some(3306),
        ..Default::default()
    }];

    // Create a Portmap with the service
    let portmap = Portmap {
        services,
        max_backends: MAX_BACKENDS_LOW,
    };

    // Render the template
    let rendered = portmap.render().expect("Failed to render template");

    // Check that the rendered template includes send-proxy-v2
    let expected = r#"#                                                  #
# ## DO NOT EDIT. THIS FILE WILL BE OVERWRITTEN ## #
#                                                  #

frontend fe0
	mode tcp
	bind *:3306
	default_backend be0

backend be0
	mode tcp
	server-template rs 32 db.backend.com:3306 send-proxy-v2 check resolvers system init-addr none
"#;
    assert_eq!(rendered, expected)
}

#[test]
fn test_defaults_config_rendering() {
    // Test with default timeouts
    let defaults_config = DefaultsConfig {
        timeouts: TimeoutConfig::default(),
    };
    let rendered = defaults_config
        .render()
        .expect("Failed to render defaults config");

    // Check that the rendered template includes default timeout values
    assert!(rendered.contains("timeout queue   0"));
    assert!(rendered.contains("timeout connect 2000"));
    assert!(rendered.contains("timeout client  55000"));
    assert!(rendered.contains("timeout server  120000"));
}

#[test]
fn test_defaults_config_rendering_custom_timeouts() {
    // Test with custom timeouts
    let defaults_config = DefaultsConfig {
        timeouts: TimeoutConfig {
            queue: 100,
            connect: 5000,
            client: 60000,
            server: 180000,
        },
    };
    let rendered = defaults_config
        .render()
        .expect("Failed to render defaults config");

    // Check that the rendered template includes custom timeout values
    assert!(rendered.contains("timeout queue   100"));
    assert!(rendered.contains("timeout connect 5000"));
    assert!(rendered.contains("timeout client  60000"));
    assert!(rendered.contains("timeout server  180000"));
}
