use moirai::{
    acl_files, candidate_files, configure_step, failure_counts, format_acl, haproxy_action,
    is_loadbalancer_enabled, metadata_value, metrics_config, parse_max_rs, parse_timeouts, plan_cert_symlink,
    restart_action, stale_files, timeouts_document, validation_report, ConfigureAction,
    ConfigureEvent, DefaultsConfig, EnsureError, GlobalConfig, HaproxyAction, InstanceStatus,
    Metadata, MetadataReply, RestartAction, SmfState, SymlinkPlan, TimeoutConfig, TimeoutOverrides,
    DEFAULT_METRICS_PORT,
};
use std::collections::BTreeMap;

const BANNER: &str = "#                                                  #\n\
                      # ## DO NOT EDIT. THIS FILE WILL BE OVERWRITTEN ## #\n\
                      #                                                  #\n";

fn metadata(portmap: &str, acl: &str) -> Metadata {
    Metadata {
        syslog: String::new(),
        timeouts: TimeoutConfig::default(),
        portmap: portmap.to_string(),
        max_rs: "40".to_string(),
        metrics_acl: acl.to_string(),
        metrics_port: "9100".to_string(),
    }
}

#[test]
fn an_acl_stands_one_address_on_a_line() {
    assert_eq!(
        format_acl("10.0.0.1, 192.168.0.0/16 ,,fd00::1"),
        "10.0.0.1\n192.168.0.0/16\nfd00::1"
    );
    assert_eq!(format_acl(""), "");
    assert_eq!(format_acl(" ,, "), "");
    assert_eq!(format_acl("10.0.0.1"), "10.0.0.1");
    assert_eq!(format_acl("a,b c"), format_acl("a b,c"));
}

#[test]
fn formatting_an_acl_twice_is_formatting_it_once() {
    let once = format_acl("a, b c,");
    assert_eq!(format_acl(&once), once);
}

#[test]
fn metrics_fall_back_to_the_default_port() {
    assert_eq!(metrics_config("9100").metrics_port, 9100);
    for text in ["", "0", "65535", "none", " 9100"] {
        assert_eq!(metrics_config(text).metrics_port, DEFAULT_METRICS_PORT);
    }
}

#[test]
fn a_candidate_without_metrics_has_four_files() {
    let files = candidate_files(&metadata("tcp://1:a:2,oops", " ,"), "resolvers system\n");
    let names: Vec<_> = files.iter().map(|f| f.name.as_str()).collect();
    assert_eq!(
        names,
        [
            "000-global.cfg",
            "001-defaults.cfg",
            "002-resolver.cfg",
            "100-services.cfg"
        ]
    );
    assert_eq!(
        files[0].contents,
        format!("{BANNER}global\n\tlog 127.0.0.1 len 4096 local0\n")
    );
    assert_eq!(files[2].contents, "resolvers system\n");
    assert_eq!(
        files[3].contents,
        format!(
            "{BANNER}\nfrontend fe0\n\tmode tcp\n\tbind *:1\n\tdefault_backend be0\n\n\
             backend be0\n\tmode tcp\n\tserver-template rs 40 a:2 check resolvers system \
             init-addr none\n"
        )
    );
}

#[test]
fn a_candidate_with_metrics_has_six_files() {
    let files = candidate_files(&metadata("", "10.0.0.1"), "");
    assert_eq!(files.len(), 6);
    assert_eq!(files[3].contents, BANNER);
    assert_eq!(files[4].name, "210-metrics_acl.txt");
    assert_eq!(files[4].contents, "10.0.0.1");
    assert_eq!(files[5].name, "200-metrics.cfg");
    assert!(files[5].contents.contains("\n  bind *:9100\n"));
}

#[test]
fn the_files_of_a_candidate_have_distinct_names() {
    let files = candidate_files(&metadata("", "10.0.0.1"), "");
    let mut names: Vec<_> = files.iter().map(|f| f.name.clone()).collect();
    names.sort();
    names.dedup();
    assert_eq!(names.len(), files.len());
}

#[test]
fn metrics_are_served_where_an_address_may_read_them() {
    assert!(acl_files("", "9100").is_empty());
    assert!(acl_files(", ,", "9100").is_empty());
    let files = acl_files("10.0.0.1 10.0.0.2", "no port");
    assert_eq!(files.len(), 2);
    assert_eq!(files[0].contents, "10.0.0.1\n10.0.0.2");
    assert!(files[1].contents.contains("\n  bind *:8405\n"));
}

#[test]
fn sections_are_rendered_in_full() {
    let global = GlobalConfig {
        syslog_endpoint: Some("10.0.0.9:514".to_string()),
    };
    assert_eq!(
        global.render().unwrap(),
        format!(
            "{BANNER}global\n\tlog 127.0.0.1 len 4096 local0\n\
             \tlog 10.0.0.9:514 len 4096 local0\n\tlog-send-hostname\n"
        )
    );
    let defaults = DefaultsConfig {
        timeouts: TimeoutConfig {
            queue: 1,
            connect: 20,
            client: 300,
            server: u32::MAX,
        },
    };
    assert_eq!(
        defaults.render().unwrap(),
        format!(
            "{BANNER}defaults\n\toption forwardfor\n\ttimeout queue   1\n\ttimeout connect 20\n\
             \ttimeout client  300\n\ttimeout server  4294967295\n"
        )
    );
}

#[test]
fn a_candidate_goes_live_where_it_differs_and_is_valid() {
    let compared = |identical| configure_step(ConfigureEvent::Compared { identical });
    let validated = |valid| configure_step(ConfigureEvent::Validated { valid });
    assert_eq!(compared(true), ConfigureAction::Unchanged);
    assert_eq!(compared(false), ConfigureAction::Validate);
    assert_eq!(validated(true), ConfigureAction::Apply);
    assert_eq!(validated(false), ConfigureAction::Reject);
}

fn strings(names: &[&str]) -> Vec<String> {
    names.iter().map(|n| n.to_string()).collect()
}

#[test]
fn stale_files_are_those_that_the_candidate_lacks() {
    let live = strings(&["a", "b", "c", "d"]);
    assert_eq!(stale_files(&live, &strings(&["c", "a", "x"])), [1, 3]);
    assert_eq!(stale_files(&live, &live), [] as [usize; 0]);
    assert_eq!(stale_files(&live, &Vec::new()), [0, 1, 2, 3]);
    assert_eq!(stale_files(&Vec::new(), &live), [] as [usize; 0]);
}

#[test]
fn going_live_leaves_the_candidate_only() {
    let files = candidate_files(&metadata("tcp://1:a", ""), "r");
    let mut live: BTreeMap<String, String> = BTreeMap::new();
    live.insert("200-metrics.cfg".to_string(), "old".to_string());
    live.insert("000-global.cfg".to_string(), "old".to_string());
    for file in &files {
        live.insert(file.name.clone(), file.contents.clone());
    }
    let names: Vec<String> = live.keys().cloned().collect();
    let candidate: Vec<String> = files.iter().map(|f| f.name.clone()).collect();
    for i in stale_files(&names, &candidate) {
        live.remove(&names[i]);
    }
    let fresh: BTreeMap<String, String> = files
        .iter()
        .map(|f| (f.name.clone(), f.contents.clone()))
        .collect();
    assert_eq!(live, fresh);
}

#[test]
fn a_report_holds_both_outputs() {
    let stdout = b"caf\xc3\xa9".to_vec();
    let stderr = b"bad \xff byte".to_vec();
    assert_eq!(
        validation_report(&stdout, &stderr),
        "stdout: caf\u{e9}\nstderr: bad \u{fffd} byte"
    );
}

#[test]
fn a_metadata_value_is_what_was_written_without_padding() {
    let ended = |success, stdout: &[u8]| {
        metadata_value(&MetadataReply::Ended {
            success,
            stdout: stdout.to_vec(),
        })
    };
    assert_eq!(ended(true, b" tcp://1:a \n"), "tcp://1:a");
    assert_eq!(ended(true, b"\xe2\x80\x83x\xfe\n"), "x\u{fffd}");
    assert_eq!(ended(true, b""), "");
    assert_eq!(ended(false, b"No metadata"), "");
    assert_eq!(metadata_value(&MetadataReply::NotRun), "");
}

#[test]
fn the_number_of_backends_is_kept_in_range() {
    for (input, expected) in [
        ("31", 32),
        ("32", 32),
        ("33", 33),
        ("1024", 1024),
        ("1025", 1024),
        ("0", 32),
        ("-1", 32),
        ("+64", 64),
        ("18446744073709551615", 1024),
        ("18446744073709551616", 32),
    ] {
        assert_eq!(parse_max_rs(input), expected);
        assert_eq!(parse_max_rs(&format!(" \t{input}\n")), expected);
    }
}

#[test]
fn padding_and_case_of_the_flag_do_not_matter() {
    assert!(is_loadbalancer_enabled("\u{2003}tRUE\r\n"));
    assert!(!is_loadbalancer_enabled("t rue"));
    assert!(!is_loadbalancer_enabled("truer"));
}

#[test]
fn braces_round_a_timeouts_document_may_be_left_out() {
    assert_eq!(timeouts_document(" \n"), None);
    assert_eq!(
        timeouts_document(" queue:1 "),
        Some("{queue:1}".to_string())
    );
    assert_eq!(
        timeouts_document("\t{queue:1}"),
        Some("{queue:1}".to_string())
    );
}

#[test]
fn a_document_sets_timeouts_one_by_one() {
    let none = TimeoutOverrides {
        queue: None,
        connect: None,
        client: None,
        server: None,
    };
    let connect = TimeoutOverrides {
        connect: Some(7),
        ..none
    };
    assert_eq!(parse_timeouts("{}", Some(none)), TimeoutConfig::default());
    assert_eq!(
        parse_timeouts("connect:7", Some(connect)),
        TimeoutConfig {
            connect: 7,
            ..TimeoutConfig::default()
        }
    );
    assert_eq!(parse_timeouts("???", None), TimeoutConfig::default());
    assert_eq!(parse_timeouts(" ", Some(connect)), TimeoutConfig::default());
}

#[test]
fn a_link_is_made_where_nothing_is() {
    assert_eq!(plan_cert_symlink(true, false, Some(true)), SymlinkPlan::Keep);
    assert_eq!(
        plan_cert_symlink(false, true, Some(false)),
        SymlinkPlan::Keep
    );
    assert_eq!(
        plan_cert_symlink(false, false, Some(false)),
        SymlinkPlan::Link {
            create_parent: true
        }
    );
    assert_eq!(
        plan_cert_symlink(false, false, Some(true)),
        SymlinkPlan::Link {
            create_parent: false
        }
    );
    assert_eq!(
        plan_cert_symlink(false, false, None),
        SymlinkPlan::Link {
            create_parent: false
        }
    );
}

#[test]
fn a_service_is_restarted_where_it_is_online() {
    assert_eq!(restart_action(&vec![]), RestartAction::NotFound);
    assert_eq!(
        restart_action(&vec![SmfState::Online, SmfState::Offline]),
        RestartAction::Restart
    );
    assert_eq!(
        restart_action(&vec![SmfState::Offline, SmfState::Online]),
        RestartAction::Skip
    );
}

#[test]
fn haproxy_is_brought_online() {
    let act = |state, contract_id, changed| {
        haproxy_action(&vec![InstanceStatus { state, contract_id }], changed)
    };
    assert_eq!(
        act(SmfState::Disabled, None, false),
        Ok(HaproxyAction::Enable)
    );
    assert_eq!(
        act(SmfState::Maintenance, Some(1), true),
        Ok(HaproxyAction::Clear)
    );
    assert_eq!(
        act(SmfState::Online, Some(1), false),
        Ok(HaproxyAction::Leave)
    );
    assert_eq!(
        act(SmfState::Online, None, true),
        Ok(HaproxyAction::Restart)
    );
    assert_eq!(
        act(SmfState::Online, Some(4711), true),
        Ok(HaproxyAction::Reload(strings(&[
            "-USR2", "-c", "4711", "haproxy"
        ])))
    );
}

#[test]
fn a_failure_counts_where_the_service_is_not_running() {
    assert!(failure_counts(&HaproxyAction::Enable));
    assert!(failure_counts(&HaproxyAction::Clear));
    assert!(!failure_counts(&HaproxyAction::Reload(Vec::new())));
    assert!(!failure_counts(&HaproxyAction::Restart));
    assert!(!failure_counts(&HaproxyAction::Leave));
}

#[test]
fn haproxy_is_left_to_an_operator_in_other_states() {
    let e = haproxy_action(&vec![], true).unwrap_err();
    assert_eq!(e, EnsureError::NotFound);
    assert_eq!(e.to_string(), "HAProxy service not found");
    for (state, name) in [
        (SmfState::Degraded, "Degraded"),
        (SmfState::Offline, "Offline"),
        (SmfState::Legacy, "Legacy"),
        (SmfState::Uninitialized, "Uninitialized"),
    ] {
        let status = InstanceStatus {
            state,
            contract_id: Some(1),
        };
        let e = haproxy_action(&vec![status], false).unwrap_err();
        assert_eq!(e, EnsureError::NonActionable(state));
        assert_eq!(
            e.to_string(),
            format!("HAProxy non-actionable state: {name}")
        );
    }
}
