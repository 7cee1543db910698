use moirai::{
    is_loadbalancer_enabled, parse_max_rs, parse_syslog_endpoint, TimeoutConfig, TimeoutOverrides,
    DEFAULT_TIMEOUT_CLIENT, DEFAULT_TIMEOUT_CONNECT, DEFAULT_TIMEOUT_QUEUE, DEFAULT_TIMEOUT_SERVER,
    MAX_BACKENDS_HIGH, MAX_BACKENDS_LOW,
};
use std::collections::HashMap;

/// The timeouts that `input` asks for, with the document read by a JSON5 parser.
fn parse_timeouts(input: &str) -> TimeoutConfig {
    let document = moirai::timeouts_document(input)
        .and_then(|text| json5::from_str::<HashMap<String, u32>>(&text).ok())
        .map(|set| TimeoutOverrides {
            queue: set.get("queue").copied(),
            connect: set.get("connect").copied(),
            client: set.get("client").copied(),
            server: set.get("server").copied(),
        });
    moirai::parse_timeouts(input, document)
}

#[test]
fn test_is_loadbalancer_enabled() {
    // Test with exact match
    assert!(
        is_loadbalancer_enabled("true"),
        "Should be enabled for 'true'"
    );

    // Test with case variations
    assert!(
        is_loadbalancer_enabled("TRUE"),
        "Should be enabled for 'TRUE'"
    );
    assert!(
        is_loadbalancer_enabled("True"),
        "Should be enabled for 'True'"
    );
    assert!(
        is_loadbalancer_enabled("tRuE"),
        "Should be enabled for 'tRuE'"
    );

    // Test with whitespace
    assert!(
        is_loadbalancer_enabled(" true "),
        "Should be enabled with whitespace"
    );

    // Test with false values
    assert!(
        !is_loadbalancer_enabled("false"),
        "Should not be enabled for 'false'"
    );
    assert!(
        !is_loadbalancer_enabled(""),
        "Should not be enabled for empty string"
    );
    assert!(
        !is_loadbalancer_enabled("1"),
        "Should not be enabled for '1'"
    );
    assert!(
        !is_loadbalancer_enabled("yes"),
        "Should not be enabled for 'yes'"
    );
}

#[test]
fn test_parse_max_rs() {
    // Test with empty string - should use the default (MAX_BACKENDS_LOW)
    assert_eq!(parse_max_rs(""), MAX_BACKENDS_LOW);

    // Test with non-numeric value - should use the default
    assert_eq!(parse_max_rs("not a number"), MAX_BACKENDS_LOW);

    // Test with value below the minimum - should be capped at MIN
    assert_eq!(parse_max_rs("10"), MAX_BACKENDS_LOW);

    // Test with value within range
    assert_eq!(parse_max_rs("128"), 128);

    // Test with value above the maximum - should be capped at MAX
    assert_eq!(parse_max_rs("2048"), MAX_BACKENDS_HIGH);
}

#[test]
fn test_parse_syslog_endpoint() {
    // Test with empty string - should return None
    assert_eq!(parse_syslog_endpoint(""), None);

    // Test with whitespace only - should return None
    assert_eq!(parse_syslog_endpoint("   "), None);

    // Test with valid IPv4 addresses and ports
    assert_eq!(
        parse_syslog_endpoint("10.11.28.101:30514"),
        Some("10.11.28.101:30514".to_string())
    );
    assert_eq!(
        parse_syslog_endpoint("192.168.1.1:514"),
        Some("192.168.1.1:514".to_string())
    );
    assert_eq!(
        parse_syslog_endpoint("127.0.0.1:1234"),
        Some("127.0.0.1:1234".to_string())
    );

    // Test with valid IPv6 addresses and ports
    assert_eq!(
        parse_syslog_endpoint("[2001:db8::1]:514"),
        Some("[2001:db8::1]:514".to_string())
    );
    assert_eq!(
        parse_syslog_endpoint("[::1]:30514"),
        Some("[::1]:30514".to_string())
    );

    // Test with whitespace around valid input
    assert_eq!(
        parse_syslog_endpoint("  10.11.28.101:30514  "),
        Some("10.11.28.101:30514".to_string())
    );

    // Test with hostnames - now accepted
    assert_eq!(
        parse_syslog_endpoint("syslog.example.com:514"),
        Some("syslog.example.com:514".to_string())
    );
    assert_eq!(
        parse_syslog_endpoint("logs.internal.company.net:30514"),
        Some("logs.internal.company.net:30514".to_string())
    );

    // Test with any format - we trust the input
    assert_eq!(
        parse_syslog_endpoint("10.11.28.101"),
        Some("10.11.28.101".to_string())
    );
    assert_eq!(
        parse_syslog_endpoint("my-syslog-server:8514"),
        Some("my-syslog-server:8514".to_string())
    );
}

#[test]
fn test_parse_timeouts_empty() {
    // Empty string should return defaults
    let config = parse_timeouts("");
    assert_eq!(config, TimeoutConfig::default());

    // Whitespace only should return defaults
    let config = parse_timeouts("   ");
    assert_eq!(config, TimeoutConfig::default());

    // Empty braces should return defaults
    let config = parse_timeouts("{}");
    assert_eq!(config, TimeoutConfig::default());
}

#[test]
fn test_parse_timeouts_full() {
    // Test with all timeout values specified
    let config = parse_timeouts("{queue:100,connect:5000,client:60000,server:180000}");
    assert_eq!(config.queue, 100);
    assert_eq!(config.connect, 5000);
    assert_eq!(config.client, 60000);
    assert_eq!(config.server, 180000);
}

#[test]
fn test_parse_timeouts_partial() {
    // Test with only some values specified - others should use defaults
    let config = parse_timeouts("{connect:5000,server:180000}");
    assert_eq!(config.queue, DEFAULT_TIMEOUT_QUEUE);
    assert_eq!(config.connect, 5000);
    assert_eq!(config.client, DEFAULT_TIMEOUT_CLIENT);
    assert_eq!(config.server, 180000);
}

#[test]
fn test_parse_timeouts_single() {
    // Test with single timeout override
    let config = parse_timeouts("{server:300000}");
    assert_eq!(config.queue, DEFAULT_TIMEOUT_QUEUE);
    assert_eq!(config.connect, DEFAULT_TIMEOUT_CONNECT);
    assert_eq!(config.client, DEFAULT_TIMEOUT_CLIENT);
    assert_eq!(config.server, 300000);
}

#[test]
fn test_parse_timeouts_with_whitespace() {
    // Test with whitespace around values
    let config = parse_timeouts("{ queue : 50 , connect : 3000 }");
    assert_eq!(config.queue, 50);
    assert_eq!(config.connect, 3000);
    assert_eq!(config.client, DEFAULT_TIMEOUT_CLIENT);
    assert_eq!(config.server, DEFAULT_TIMEOUT_SERVER);
}

#[test]
fn test_parse_timeouts_without_braces() {
    // Test without braces (should still work)
    let config = parse_timeouts("queue:100,connect:5000");
    assert_eq!(config.queue, 100);
    assert_eq!(config.connect, 5000);
}

#[test]
fn test_parse_timeouts_invalid_values() {
    // Invalid values cause entire parse to fail, returning defaults
    let config = parse_timeouts("{queue:abc,connect:5000}");
    assert_eq!(config.queue, DEFAULT_TIMEOUT_QUEUE);
    assert_eq!(config.connect, DEFAULT_TIMEOUT_CONNECT);
    assert_eq!(config.client, DEFAULT_TIMEOUT_CLIENT);
    assert_eq!(config.server, DEFAULT_TIMEOUT_SERVER);
}

#[test]
fn test_parse_timeouts_unknown_keys() {
    // Unknown keys should be ignored
    let config = parse_timeouts("{unknown:123,connect:5000}");
    assert_eq!(config.connect, 5000);
    // Default values for others
    assert_eq!(config.queue, DEFAULT_TIMEOUT_QUEUE);
}

#[test]
fn test_timeout_config_default() {
    let config = TimeoutConfig::default();
    assert_eq!(config.queue, DEFAULT_TIMEOUT_QUEUE);
    assert_eq!(config.connect, DEFAULT_TIMEOUT_CONNECT);
    assert_eq!(config.client, DEFAULT_TIMEOUT_CLIENT);
    assert_eq!(config.server, DEFAULT_TIMEOUT_SERVER);
}
