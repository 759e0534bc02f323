use std::collections::HashSet;

use quic_lab::config::{
    clean_domain_line, default_burst, default_concurrency, default_port,
    default_requests_per_second, effective_concurrency, normalize_root, ConnectionConfig,
    RootConfig,
};
use quic_lab::decimal::{dec_str_exec, fmt_ms_nanos, parse_ms_nanos};
use quic_lab::json::Json;
use quic_lab::probe::{
    build_request_headers, check_terminal, classify_outcome, extract_status, is_retryable,
    meta_record_bytes, parse_mpath_algo, ClientContext, H3Action, H3Event, H3Machine,
    MultipathAlgorithm, Orchestrator, Phase, ProbeEvent, ProbeStep, TerminalError, Verdict,
};
use quic_lab::recorder::{path_for_key, record_line, write_sharded, Recorder};
use quic_lab::report::fmt_hms;
use quic_lab::resolver::{resolve_peer, resolve_targets, PeerAddr, ResolveError};
use quic_lab::rotate::{next_index_from_names, RotatingWriter};
use quic_lab::throttle::RateLimit;
use quic_lab::types::{family_label, BasicStats, IpVersion, ProbeOutcome};

fn b(s: &str) -> Vec<u8> {
    s.as_bytes().to_vec()
}

#[test]
fn defaults_match_the_documented_values() {
    assert_eq!(default_concurrency(), 0);
    assert_eq!(default_requests_per_second(), 200);
    assert_eq!(default_burst(), 200);
    assert_eq!(default_port(), 443);
    let c = ConnectionConfig::default();
    assert_eq!(c.port, 443);
    assert_eq!(c.path, "/");
    assert_eq!(c.alpn, vec!["h3".to_string()]);
    assert!(c.verify_peer);
    assert!(!c.enable_multipath);
    assert_eq!(c.multipath_algorithm, "minrtt");
    assert!(matches!(c.ip_version, IpVersion::Auto));
}

#[test]
fn empty_profile_list_gets_the_default_profile() {
    let root = RootConfig::default();
    assert!(root.connection_config.is_empty());
    let root = normalize_root(root);
    assert_eq!(root.connection_config.len(), 1);
    assert_eq!(root.connection_config[0].port, 443);
}

#[test]
fn zero_concurrency_means_cpu_count() {
    assert_eq!(effective_concurrency(0, 8), 8);
    assert_eq!(effective_concurrency(0, 1), 1);
    // even a machine reporting no processors yields one worker
    assert_eq!(effective_concurrency(0, 0), 1);
    assert_eq!(effective_concurrency(4, 8), 4);
}

#[test]
fn domain_lines_skip_blanks_and_comments() {
    assert_eq!(clean_domain_line(&b("  example.com  # a note")), Some(b("example.com")));
    assert_eq!(clean_domain_line(&b("example.com")), Some(b("example.com")));
    assert_eq!(clean_domain_line(&b("   # only a comment")), None);
    assert_eq!(clean_domain_line(&b("")), None);
    assert_eq!(clean_domain_line(&b(" \t\r")), None);
    assert_eq!(clean_domain_line(&b("#x")), None);
}

#[test]
fn zero_rate_disables_throttling() {
    let rl = RateLimit::per_second(0, 7);
    assert!(rl.limiter.is_none());
    assert_eq!(rl.rps, 0);
    // a disabled limiter never blocks
    for _ in 0..100 {
        assert!(rl.try_acquire());
    }
}

#[test]
fn burst_is_clamped_to_at_least_one() {
    let rl = RateLimit::per_second(5, 0);
    assert!(rl.limiter.is_some());
    assert_eq!(rl.burst, 1);
    let rl = RateLimit::per_second(5, 9);
    assert_eq!(rl.burst, 9);
}

#[test]
fn limiter_grants_at_most_the_burst_at_once() {
    // rps 5 with burst 5: a tight loop gets at most the burst, plus at most
    // one refill that may slip in while the loop runs
    let rl = RateLimit::per_second(5, 5);
    let mut granted = 0;
    for _ in 0..600 {
        if rl.try_acquire() {
            granted += 1;
        }
    }
    assert!(granted >= 1);
    assert!(granted <= 6);
}

#[test]
fn orchestrator_single_profile_success() {
    let mut o = Orchestrator::new(1);
    assert_eq!(o.phase, Phase::Resolving);
    let a = o.step(&ProbeEvent::Resolved { n_addrs: 1 });
    assert_eq!(a, ProbeStep::RunAttempt { profile: 0, addr: 0 });
    let a = o.step(&ProbeEvent::AttemptDone { retryable: false });
    assert_eq!(a, ProbeStep::Done);
    assert_eq!(o.phase, Phase::Finished);
}

#[test]
fn orchestrator_family_fallback_then_stop() {
    // two resolved addresses: a retryable failure tries the second family,
    // and the first non-retryable outcome stops everything
    let mut o = Orchestrator::new(3);
    let a = o.step(&ProbeEvent::Resolved { n_addrs: 2 });
    assert_eq!(a, ProbeStep::RunAttempt { profile: 0, addr: 0 });
    let a = o.step(&ProbeEvent::AttemptDone { retryable: true });
    assert_eq!(a, ProbeStep::RunAttempt { profile: 0, addr: 1 });
    let a = o.step(&ProbeEvent::AttemptDone { retryable: false });
    assert_eq!(a, ProbeStep::Done);
    assert_eq!(o.phase, Phase::Finished);
}

#[test]
fn orchestrator_profile_chain_in_order() {
    // first profile exhausted retryably, second succeeds
    let mut o = Orchestrator::new(2);
    let a = o.step(&ProbeEvent::Resolved { n_addrs: 1 });
    assert_eq!(a, ProbeStep::RunAttempt { profile: 0, addr: 0 });
    let a = o.step(&ProbeEvent::AttemptDone { retryable: true });
    assert_eq!(a, ProbeStep::NextProfile);
    assert_eq!(o.profile_idx, 1);
    let a = o.step(&ProbeEvent::Resolved { n_addrs: 1 });
    assert_eq!(a, ProbeStep::RunAttempt { profile: 1, addr: 0 });
    let a = o.step(&ProbeEvent::AttemptDone { retryable: false });
    assert_eq!(a, ProbeStep::Done);
}

#[test]
fn orchestrator_exhaustion_and_resolve_failure_finish() {
    let mut o = Orchestrator::new(1);
    let a = o.step(&ProbeEvent::Resolved { n_addrs: 1 });
    assert_eq!(a, ProbeStep::RunAttempt { profile: 0, addr: 0 });
    let a = o.step(&ProbeEvent::AttemptDone { retryable: true });
    assert_eq!(a, ProbeStep::Done);
    let mut o = Orchestrator::new(1);
    let a = o.step(&ProbeEvent::ResolveFailed);
    assert_eq!(a, ProbeStep::Done);
}

#[test]
fn h3_machine_reads_status_and_closes() {
    let mut m = H3Machine::new();
    m.on_request_sent();
    assert!(m.attempted);
    let ev = H3Event::Headers {
        headers: vec![(b(":status"), b("200")), (b("server"), b("x"))],
        fin: true,
    };
    let a = m.on_h3_event(&ev);
    assert_eq!(a, H3Action::CloseOk);
    assert_eq!(m.status, Some(200));
    assert!(m.done);
    assert!(!m.app_error);
}

#[test]
fn h3_machine_drains_and_finishes() {
    let mut m = H3Machine::new();
    let a = m.on_h3_event(&H3Event::Data);
    assert_eq!(a, H3Action::DrainBody);
    let a = m.on_h3_event(&H3Event::GoAway);
    assert_eq!(a, H3Action::Ignore);
    let a = m.on_h3_event(&H3Event::Finished);
    assert_eq!(a, H3Action::CloseOk);
    assert!(m.done);
}

#[test]
fn summary_record_is_emitted_once() {
    let mut m = H3Machine::new();
    let rec = m.on_conn_closed(
        "example.com".to_string(),
        "203.0.113.7:443".to_string(),
        Some("h3".to_string()),
        true,
        None,
        None,
        false,
        Some(BasicStats {
            bytes_sent: 1,
            bytes_recv: 2,
            bytes_lost: 0,
            packets_sent: 3,
            packets_recv: 4,
            packets_lost: 0,
        }),
    );
    let rec = rec.expect("first close emits the record");
    assert_eq!(rec.host, "example.com");
    assert!(rec.handshake_ok);
    // a second close of the same connection emits nothing
    let again = m.on_conn_closed(
        "example.com".to_string(),
        "203.0.113.7:443".to_string(),
        None,
        true,
        None,
        None,
        false,
        None,
    );
    assert!(again.is_none());
    let bytes = meta_record_bytes(&rec);
    let v: serde_json::Value = serde_json::from_slice(&bytes).unwrap();
    assert_eq!(v.get("host").unwrap(), "example.com");
    assert_eq!(v.get("alpn").unwrap(), "h3");
    assert_eq!(v.get("handshake_ok").unwrap(), true);
    assert_eq!(
        v.get("stats").unwrap().get("packets_recv").unwrap().as_u64(),
        Some(4)
    );
}

#[test]
fn status_extraction_takes_the_first_readable_value() {
    let hs = vec![
        (b("x"), b("1")),
        (b(":status"), b("abc")),
        (b(":status"), b("204")),
        (b(":status"), b("500")),
    ];
    assert_eq!(extract_status(&hs), Some(204));
    assert_eq!(extract_status(&Vec::new()), None);
    let hs = vec![(b(":status"), b("99999"))];
    assert_eq!(extract_status(&hs), None);
}

#[test]
fn request_headers_form_the_probe_get() {
    let hs = build_request_headers(&b("example.com"), &b("/"), &b("ua/1"));
    assert_eq!(hs.len(), 6);
    assert_eq!(hs[0], (b(":method"), b("GET")));
    assert_eq!(hs[2], (b(":authority"), b("example.com")));
    assert_eq!(hs[5], (b("accept"), b("*/*")));
}

#[test]
fn retry_classification_follows_the_taxonomy() {
    assert!(is_retryable(TerminalError::ConnectionRefused));
    assert!(is_retryable(TerminalError::HostUnreachable));
    assert!(is_retryable(TerminalError::HandshakeTimeout));
    assert!(is_retryable(TerminalError::OverallTimeout));
    assert!(!is_retryable(TerminalError::ApplicationError));
    assert!(!is_retryable(TerminalError::TransportError));
    assert!(!classify_outcome(true, None).retryable);
    assert!(classify_outcome(false, None).retryable);
    assert!(!classify_outcome(true, Some(TerminalError::TransportError)).retryable);
    assert!(classify_outcome(true, Some(TerminalError::OverallTimeout)).retryable);
    assert!(!ProbeOutcome::success().retryable);
    assert!(ProbeOutcome::retryable_fail().retryable);
    assert!(!ProbeOutcome::nonretryable_fail().retryable);
}

#[test]
fn terminal_checks_follow_their_order() {
    assert_eq!(check_terminal(true, false, 0, 10, 20), Verdict::Done);
    assert_eq!(check_terminal(false, false, 10, 10, 20), Verdict::HandshakeTimeout);
    assert_eq!(check_terminal(false, true, 10, 10, 20), Verdict::Continue);
    assert_eq!(check_terminal(false, true, 20, 10, 20), Verdict::OverallTimeout);
    assert_eq!(check_terminal(false, false, 5, 10, 20), Verdict::Continue);
}

#[test]
fn client_context_carries_the_finish_flag() {
    let mut c = ClientContext::new();
    assert!(!c.finish());
    c.set_finish(true);
    assert!(c.finish());
}

#[test]
fn multipath_algorithm_names_parse() {
    assert_eq!(parse_mpath_algo("minrtt"), Some(MultipathAlgorithm::MinRtt));
    assert_eq!(parse_mpath_algo("min-rtt"), Some(MultipathAlgorithm::MinRtt));
    assert_eq!(parse_mpath_algo("dup"), Some(MultipathAlgorithm::Redundant));
    assert_eq!(parse_mpath_algo("rr"), Some(MultipathAlgorithm::RoundRobin));
    assert_eq!(parse_mpath_algo("fastest"), None);
}

#[test]
fn resolver_honours_family_preference() {
    let addrs = vec![
        PeerAddr { is_v6: true, text: "[2001:db8::7]:443".to_string() },
        PeerAddr { is_v6: false, text: "203.0.113.7:443".to_string() },
    ];
    let t = resolve_targets(&addrs, IpVersion::Auto).unwrap();
    assert_eq!(t.len(), 1);
    assert!(matches!(t[0].0, IpVersion::Ipv6));
    let t = resolve_targets(&addrs, IpVersion::Ipv4).unwrap();
    assert_eq!(t[0].1.text, "203.0.113.7:443");
    let t = resolve_targets(&addrs, IpVersion::Both).unwrap();
    assert_eq!(t.len(), 2);
    assert!(matches!(t[0].0, IpVersion::Ipv4));
    assert!(matches!(t[1].0, IpVersion::Ipv6));
    let none: Vec<PeerAddr> = Vec::new();
    assert!(matches!(resolve_targets(&none, IpVersion::Auto), Err(ResolveError::NoAddress)));
    let v6_only = vec![PeerAddr { is_v6: true, text: "[::1]:443".to_string() }];
    assert!(matches!(resolve_peer(&v6_only, IpVersion::Ipv4), Err(ResolveError::NoAddress)));
    assert_eq!(family_label(IpVersion::Ipv4), "IPv4");
}

#[test]
fn sharded_paths_never_collide() {
    // ten thousand distinct keys land at ten thousand distinct paths
    let mut seen: HashSet<Vec<u8>> = HashSet::new();
    for i in 0..10_000u32 {
        let key = b(&format!("trace-{i}"));
        let path = path_for_key(&key);
        assert!(seen.insert(path));
    }
    assert_eq!(seen.len(), 10_000);
}

#[test]
fn sharded_path_shape_and_write_agree() {
    let key = b("abc");
    let path = path_for_key(&key);
    // FNV-1a 64 of "abc" is 0xe71fa2190541574b: shards e7 and 1f
    assert_eq!(path, b("recorder_files/e7/1f/abc.json"));
    let (wpath, bytes) = write_sharded(&key, &Json::Bool(true));
    assert_eq!(wpath, path);
    assert_eq!(bytes, b("true"));
}

#[test]
fn streaming_recorder_writes_one_line_per_record() {
    let line = record_line(&b("k1"), &Json::Num(b("7")));
    assert_eq!(line, b("{\"key\":\"k1\",\"value\":7}\n"));
    let mut r = Recorder::new(1 << 20, true);
    let eff = r.write_for_key(&b("k1"), &Json::Num(b("7")));
    assert!(eff.write.appended);
    assert_eq!(r.active_path(), b("recorder_files/quic-lab-recorder.jsonl"));
    let mut off = Recorder::new(1 << 20, false);
    let eff = off.write_for_key(&b("k1"), &Json::Null);
    assert!(!eff.write.appended);
}

#[test]
fn millisecond_times_round_trip_through_nanoseconds() {
    assert_eq!(parse_ms_nanos(&b("1.5")), Some(1_500_000));
    assert_eq!(parse_ms_nanos(&b("0.000001")), Some(1));
    assert_eq!(parse_ms_nanos(&b("12")), Some(12_000_000));
    assert_eq!(parse_ms_nanos(&b("abc")), None);
    assert_eq!(parse_ms_nanos(&b("")), None);
    assert_eq!(parse_ms_nanos(&b("1.")), None);
    assert_eq!(fmt_ms_nanos(2_000_001), b("2.000001"));
    assert_eq!(fmt_ms_nanos(2_000_000), b("2"));
    assert_eq!(fmt_ms_nanos(0), b("0"));
    assert_eq!(dec_str_exec(0), b("0"));
    assert_eq!(dec_str_exec(9_876_543_210), b("9876543210"));
}

#[test]
fn durations_format_as_clock_readings() {
    assert_eq!(fmt_hms(0), b("00:00"));
    assert_eq!(fmt_hms(61), b("01:01"));
    assert_eq!(fmt_hms(3_661), b("01:01:01"));
    assert_eq!(fmt_hms(7_200), b("02:00:00"));
}

#[test]
fn config_survives_a_serialise_round_trip() {
    // parse a config, re-serialise it, parse again: the settings agree
    let text = "[scheduler]\nconcurrency = 4\nrequests_per_second = 9\nburst = 3\n\n[delay]\ninter_attempt_delay_ms = 50\n";
    let v: toml::Value = toml::from_str(text).unwrap();
    let again: toml::Value = toml::from_str(&toml::to_string(&v).unwrap()).unwrap();
    fn scheduler_of(v: &toml::Value) -> quic_lab::config::SchedulerConfig {
        let s = v.get("scheduler").unwrap();
        quic_lab::config::SchedulerConfig {
            concurrency: s.get("concurrency").unwrap().as_integer().unwrap() as usize,
            requests_per_second: s.get("requests_per_second").unwrap().as_integer().unwrap()
                as u32,
            burst: s.get("burst").unwrap().as_integer().unwrap() as u32,
        }
    }
    let a = scheduler_of(&v);
    let b2 = scheduler_of(&again);
    assert_eq!(a.concurrency, b2.concurrency);
    assert_eq!(a.requests_per_second, b2.requests_per_second);
    assert_eq!(a.burst, b2.burst);
    let d1 = v.get("delay").unwrap().get("inter_attempt_delay_ms").unwrap().as_integer();
    let d2 = again.get("delay").unwrap().get("inter_attempt_delay_ms").unwrap().as_integer();
    assert_eq!(d1, d2);
}

#[test]
fn long_fractions_truncate_and_exponents_are_unreadable() {
    // fraction digits past the sixth are truncated to the nanosecond grid
    assert_eq!(parse_ms_nanos(&b("1.0000001")), Some(1_000_000));
    assert_eq!(parse_ms_nanos(&b("0.12345678")), Some(123_456));
    assert_eq!(parse_ms_nanos(&b("2.1234567890")), Some(2_123_456));
    // a non-digit anywhere in the fraction still rejects the numeral
    assert_eq!(parse_ms_nanos(&b("1.2345678x9")), None);
    // exponent notation stays outside the readable grammar
    assert_eq!(parse_ms_nanos(&b("1.5e-5")), None);
    assert_eq!(parse_ms_nanos(&b("1e3")), None);
}

#[test]
fn rotation_index_resumes_from_directory_names() {
    let base = b("quic-lab.sqlog");
    let names = vec![
        b("quic-lab.sqlog.3"),
        b("quic-lab.sqlog.12"),
        b("quic-lab.sqlog"),
        b("quic-lab.sqlog.x"),
        b("other.file.7"),
    ];
    assert_eq!(next_index_from_names(&names, &base), 13);
    assert_eq!(next_index_from_names(&Vec::new(), &base), 1);
    let huge = vec![b("quic-lab.sqlog.99999999999999999999999999")];
    // a suffix past u64 is no rotation index, as the original's parse agreed
    assert_eq!(next_index_from_names(&huge, &base), 1);
}

#[test]
fn resumed_writer_continues_where_the_file_stood() {
    // an earlier run left 50 bytes and files up to suffix 12
    let mut w = RotatingWriter::resume(100, Vec::new(), 13, 50);
    assert_eq!(w.size, 50);
    assert_eq!(w.next_index, 13);
    let eff = w.write(&b("0123456789"));
    assert!(eff.rotated_to.is_none());
    assert_eq!(w.size, 60);
    let eff = w.write(&vec![7u8; 60]);
    assert_eq!(eff.rotated_to, Some(13));
    assert_eq!(w.next_index, 14);
}
