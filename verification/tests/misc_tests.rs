use pingx::addr::IpAddress;
use pingx::client::{
    classify_datagram, http_ping_result, http_status_is_success, icmp_wait_result,
    probe_ident_key, tcp_ping_result, AwaitedReply, TcpOutcome,
};
use pingx::config::{get_config_dir, Config, ConfigManager};
use pingx::dispatch::{DispatchTable, ProbeKey, ProbeLifecycle};
use pingx::geoip::{
    database_is_fresh, file_name_of, get_brief_name, is_zip_magic, zip_entry_is_database,
};
use pingx::happy::{interleave_addrs, plan_selection, RaceAction, RaceState, SelectionPlan};
use pingx::stats::ProbeStatus;

#[test]
fn test_config_defaults() {
    let config = Config::default();
    assert!(config.token.is_none());
    assert!(config.ipv4_db.is_none());
    assert!(config.ipv6_db.is_none());
}

#[test]
fn test_get_config_dir() {
    let dir = get_config_dir();
    assert!(dir.is_ok());
    let path = dir.unwrap();
    assert!(path.ends_with(".config/pingx"));
}

#[test]
fn test_config_manager_parent_dir() {
    let m = ConfigManager::from_parts(
        "/home/someone/.config/pingx/config.toml".to_string(),
        Config::default(),
    );
    assert_eq!(m.get_config_dir(), "/home/someone/.config/pingx");
}

#[test]
fn test_get_brief_name() {
    assert_eq!(get_brief_name("US"), Some("United States"));
    assert_eq!(get_brief_name("KR"), Some("South Korea"));
    assert_eq!(get_brief_name("XX"), None);
}

#[test]
fn test_zip_helpers() {
    assert!(zip_entry_is_database("nested/deep/Target.Bin"));
    assert!(zip_entry_is_database("DATA.BIN"));
    assert!(!zip_entry_is_database("nested/DATA.TXT"));
    assert_eq!(file_name_of("nested/deep/Target.Bin"), "Target.Bin");
    assert_eq!(file_name_of("flat.bin"), "flat.bin");
    assert!(is_zip_magic(0x50, 0x4B));
    assert!(!is_zip_magic(0x3C, 0x21));
    assert!(database_is_fresh(21599));
    assert!(!database_is_fresh(21600));
}

#[test]
fn test_interleave_addrs() {
    let v4_1 = IpAddress::v4_from_octets(127, 0, 0, 1);
    let v6_1 = IpAddress::v6_from_segments(&[0, 0, 0, 0, 0, 0, 0, 1]);
    let v6_2 = IpAddress::v6_from_segments(&[0, 0, 0, 0, 0, 0, 0, 2]);
    let input = vec![v4_1, v6_1, v6_2];
    let output = interleave_addrs(input);
    assert_eq!(output, vec![v6_1, v4_1, v6_2]);
}

#[test]
fn test_interleave_all_v4_unchanged() {
    let a = IpAddress::v4_from_octets(10, 0, 0, 1);
    let b = IpAddress::v4_from_octets(10, 0, 0, 2);
    let c = IpAddress::v4_from_octets(10, 0, 0, 3);
    assert_eq!(interleave_addrs(vec![a, b, c]), vec![a, b, c]);
}

#[test]
fn test_selection_single_address_wins_unprobed() {
    let a = IpAddress::v4_from_octets(127, 0, 0, 1);
    match plan_selection(vec![a]) {
        SelectionPlan::Single(w) => assert_eq!(w, a),
        other => panic!("expected single, got {:?}", sel_name(&other)),
    }
    assert!(matches!(plan_selection(Vec::new()), SelectionPlan::Empty));
}

fn sel_name(p: &SelectionPlan) -> &'static str {
    match p {
        SelectionPlan::Empty => "empty",
        SelectionPlan::Single(_) => "single",
        SelectionPlan::Race(_) => "race",
    }
}

#[test]
fn test_race_second_address_wins_while_first_pends() {
    let a0 = IpAddress::v4_from_octets(10, 0, 0, 1);
    let a1 = IpAddress::v4_from_octets(10, 0, 0, 2);
    // attempt on a0 starts at once; the timer fires and starts a1;
    // a1 succeeds while a0 is still pending
    let mut race = RaceState::new(vec![a0, a1], 0);
    match race.on_timer(50_000_000) {
        RaceAction::Start { index, delay_ns } => {
            assert_eq!(index, 1);
            assert_eq!(delay_ns, 50_000_000);
        }
        _ => panic!("expected a start"),
    }
    match race.on_success(1) {
        RaceAction::Finish(w) => assert_eq!(w, a1),
        _ => panic!("expected a finish"),
    }
    assert_eq!(race.winner, Some(a1));
    assert_eq!(race.pending, 2);
}

#[test]
fn test_race_failure_paths() {
    let a0 = IpAddress::v4_from_octets(10, 0, 0, 1);
    let a1 = IpAddress::v4_from_octets(10, 0, 0, 2);
    let mut race = RaceState::new(vec![a0, a1], 0);
    // an instant failure before the minimum delay only re-arms the timer
    match race.on_failure(1_000_000) {
        RaceAction::ArmTimer { delay_ns } => assert_eq!(delay_ns, 9_000_000),
        _ => panic!("expected a re-arm"),
    }
    // the timer fires: the second attempt starts
    assert!(matches!(race.on_timer(10_000_000), RaceAction::Start { index: 1, .. }));
    // its failure after the minimum delay, with nothing left, ends the race
    match race.on_failure(25_000_000) {
        RaceAction::Fail => {}
        _ => panic!("expected the race to fail"),
    }
    assert!(race.failed);
}

#[test]
fn test_probe_ident_key_modes() {
    assert_eq!(probe_ident_key(true, 77), None);
    assert_eq!(probe_ident_key(false, 77), Some(77));
}

#[test]
fn test_classify_raw_v4_datagram() {
    // a raw IPv4 socket delivers the IP header: 20 octets with the
    // version nibble 4 and the TTL at offset 8, then the ICMP reply
    let mut data = vec![0u8; 20];
    data[0] = 0x45;
    data[8] = 57;
    data.extend_from_slice(&[0, 0, 0, 0, 0, 5, 0, 9, 0xAA, 0xBB]);
    let (packet, ttl) = classify_datagram(&data, false, None).unwrap();
    assert_eq!(packet.message_type, 0);
    assert_eq!(packet.identifier, 5);
    assert_eq!(packet.sequence, 9);
    assert_eq!(packet.payload, vec![0xAA, 0xBB]);
    assert_eq!(ttl, Some(57));
}

#[test]
fn test_classify_prefers_ancillary_ttl() {
    let mut data = vec![0u8; 20];
    data[0] = 0x45;
    data[8] = 57;
    data.extend_from_slice(&[0, 0, 0, 0, 0, 5, 0, 9]);
    let (_, ttl) = classify_datagram(&data, false, Some(61)).unwrap();
    assert_eq!(ttl, Some(61));
}

#[test]
fn test_classify_v6_reply() {
    let data = [129u8, 0, 0, 0, 0, 3, 0, 4];
    let (packet, ttl) = classify_datagram(&data, true, Some(64)).unwrap();
    assert_eq!(packet.message_type, 129);
    assert_eq!(packet.identifier, 3);
    assert_eq!(packet.sequence, 4);
    assert_eq!(ttl, Some(64));
}

#[test]
fn test_classify_rejects_requests_and_short_input() {
    // an Echo Request is not a reply
    let data = [8u8, 0, 0, 0, 0, 3, 0, 4];
    assert!(classify_datagram(&data, false, None).is_none());
    assert!(classify_datagram(&[0u8, 0, 0], false, None).is_none());
}

#[test]
fn test_icmp_wait_outcomes() {
    let addr = IpAddress::V4(1);
    // a reply in time: the round-trip time is exactly the receive
    // instant minus the pre-send instant, and within the timeout
    let r = icmp_wait_result(
        "t".to_string(),
        addr,
        1,
        56,
        1_000,
        1_000_000_000,
        AwaitedReply::Received { recv_ns: 401_000, ttl: Some(64) },
    );
    assert!(matches!(r.status, ProbeStatus::Success));
    assert_eq!(r.rtt, 400_000);
    assert_eq!(r.ttl, Some(64));
    assert_eq!(r.bytes, 56);

    // a reply after the timeout reads as a timeout
    let r = icmp_wait_result(
        "t".to_string(),
        addr,
        1,
        56,
        0,
        100,
        AwaitedReply::Received { recv_ns: 500, ttl: None },
    );
    assert!(matches!(r.status, ProbeStatus::Timeout));

    let r = icmp_wait_result("t".to_string(), addr, 2, 56, 0, 100, AwaitedReply::TimedOut);
    assert!(matches!(r.status, ProbeStatus::Timeout));
    assert_eq!(r.rtt, 0);
}

#[test]
fn test_tcp_outcomes() {
    let addr = IpAddress::V4(1);
    let r = tcp_ping_result(
        "t".to_string(),
        addr,
        1,
        TcpOutcome::Connected { rtt_ns: 5_000_000 },
        String::new(),
    );
    assert!(matches!(r.status, ProbeStatus::Success));
    assert_eq!(r.rtt, 5_000_000);

    let r = tcp_ping_result(
        "t".to_string(),
        addr,
        2,
        TcpOutcome::Failed,
        "connection refused".to_string(),
    );
    match r.status {
        ProbeStatus::Error(m) => assert_eq!(m, "connection refused"),
        _ => panic!("expected an error"),
    }

    let r = tcp_ping_result("t".to_string(), addr, 3, TcpOutcome::TimedOut, String::new());
    assert!(matches!(r.status, ProbeStatus::Timeout));
}

#[test]
fn test_http_outcomes() {
    assert!(http_status_is_success(200));
    assert!(http_status_is_success(301));
    assert!(!http_status_is_success(404));
    assert!(!http_status_is_success(500));

    let addr = IpAddress::V4(1);
    let r = http_ping_result("t".to_string(), addr, 1, 200, 0, 7_000_000, String::new());
    assert!(matches!(r.status, ProbeStatus::Success));
    assert_eq!(r.rtt, 7_000_000);

    let r = http_ping_result(
        "t".to_string(),
        addr,
        2,
        404,
        0,
        3_000_000,
        "HTTP 404".to_string(),
    );
    match r.status {
        ProbeStatus::Error(m) => assert_eq!(m, "HTTP 404"),
        _ => panic!("expected an error"),
    }
}

#[test]
fn test_dispatch_table_lifecycle() {
    let mut life = ProbeLifecycle::new();
    let k1 = ProbeKey { peer: IpAddress::V4(1), ident: Some(7), seq: 1 };
    let k2 = ProbeKey { peer: IpAddress::V4(1), ident: Some(7), seq: 2 };
    life.begin_probe(k1, 101);
    life.begin_probe(k2, 102);
    assert_eq!(life.table.entries.len(), 2);
    assert_eq!(life.in_flight, 2);

    // a reply is matched: the entry leaves, the probe is still in flight
    assert_eq!(life.dispatch_reply(&k1), Some(101));
    assert_eq!(life.table.entries.len(), 1);
    assert_eq!(life.in_flight, 2);
    // ... until its outcome is delivered
    assert_eq!(life.complete_probe(&k1), None);
    assert_eq!(life.in_flight, 1);

    // a timeout cleans its own entry up as it resolves
    assert_eq!(life.complete_probe(&k2), Some(102));
    assert_eq!(life.in_flight, 0);
    assert_eq!(life.table.entries.len(), 0);
}

#[test]
fn test_dispatch_table_miss_is_dropped() {
    let mut table = DispatchTable::new();
    let k = ProbeKey { peer: IpAddress::V6(5), ident: None, seq: 3 };
    assert_eq!(table.remove(&k), None);
    table.insert(k, 9);
    let other = ProbeKey { peer: IpAddress::V6(5), ident: None, seq: 4 };
    assert_eq!(table.remove(&other), None);
    assert_eq!(table.remove(&k), Some(9));
    assert_eq!(table.remove(&k), None);
}
