use pingx::addr::IpAddress;
use pingx::sched::{LoopAction, Scheduler, TickAction};
use pingx::stats::{PingResult, ProbeStatus};

fn result_for(target: &str, seq: u64, status: ProbeStatus, rtt: u64) -> PingResult {
    PingResult {
        target: target.to_string(),
        target_addr: IpAddress::V4(0x7F00_0001),
        seq,
        bytes: 56,
        ttl: Some(64),
        rtt,
        status,
    }
}

#[test]
fn test_count_three_all_received() {
    // three probes at a short interval, every reply arriving: the
    // summary counts three transmitted, three received, no loss
    let mut s = Scheduler::new(Some(3), 100_000_000);
    s.add_target("127.0.0.1".to_string(), IpAddress::V4(0x7F00_0001), 0);
    for round in 1..=3u64 {
        assert_eq!(s.on_tick(), TickAction::Send(round));
        s.record_dispatched(1);
        let a = s.on_result(&result_for("127.0.0.1", round, ProbeStatus::Success, 1_000_000));
        assert_eq!(a, LoopAction::Continue);
    }
    // the next tick finds the count satisfied and begins draining
    match s.on_tick() {
        TickAction::Drain(delay) => assert_eq!(delay, 200_000_000),
        other => panic!("expected drain, got {:?}", other),
    }
    let st = &s.stats[0];
    assert_eq!(st.transmitted, 3);
    assert_eq!(st.received, 3);
    assert_eq!(st.loss_percent(), 0);
    let su = st.summary().unwrap();
    assert_eq!(su.min, 1_000_000);
    assert_eq!(su.max, 1_000_000);
}

#[test]
fn test_count_two_all_timeout() {
    // two probes into a discard address: two timeouts, total loss
    let mut s = Scheduler::new(Some(2), 500_000_000);
    s.add_target("192.0.2.1".to_string(), IpAddress::V4(0xC000_0201), 0);
    for round in 1..=2u64 {
        assert_eq!(s.on_tick(), TickAction::Send(round));
        s.record_dispatched(1);
        s.on_result(&result_for("192.0.2.1", round, ProbeStatus::Timeout, 0));
    }
    let st = &s.stats[0];
    assert_eq!(st.transmitted, 2);
    assert_eq!(st.received, 0);
    assert_eq!(st.loss_percent(), 100);
    assert!(st.summary().is_none());
}

#[test]
fn test_two_targets_keep_input_order() {
    // two targets, one round: each gets its result, and the summary
    // blocks stand in target input order
    let mut s = Scheduler::new(Some(1), 1_000_000_000);
    s.add_target("a".to_string(), IpAddress::V4(1), 0);
    s.add_target("b".to_string(), IpAddress::V4(2), 0);
    assert_eq!(s.on_tick(), TickAction::Send(1));
    s.record_dispatched(2);
    s.on_result(&result_for("b", 1, ProbeStatus::Success, 2_000_000));
    s.on_result(&result_for("a", 1, ProbeStatus::Success, 3_000_000));
    assert_eq!(s.stats.len(), 2);
    assert_eq!(s.stats[0].target, "a");
    assert_eq!(s.stats[1].target, "b");
    assert_eq!(s.stats[0].transmitted, 1);
    assert_eq!(s.stats[1].transmitted, 1);
    assert!(s.stats[0].summary().is_some());
    assert!(s.stats[1].summary().is_some());
}

#[test]
fn test_deadline_terminates_without_count() {
    // a deadline ends the session though no count limit was set
    let mut s = Scheduler::new(None, 1_000_000_000);
    s.add_target("127.0.0.1".to_string(), IpAddress::V4(0x7F00_0001), 0);
    assert_eq!(s.on_tick(), TickAction::Send(1));
    s.record_dispatched(1);
    assert_eq!(s.on_deadline(), LoopAction::Terminate);
    assert!(s.terminated);
}

#[test]
fn test_drain_ends_when_last_result_arrives() {
    let mut s = Scheduler::new(Some(1), 1_000_000_000);
    s.add_target("x".to_string(), IpAddress::V4(9), 0);
    assert_eq!(s.on_tick(), TickAction::Send(1));
    s.record_dispatched(1);
    // count satisfied: draining begins while one probe is in flight
    assert!(matches!(s.on_tick(), TickAction::Drain(_)));
    // the straggler's arrival ends the session
    let a = s.on_result(&result_for("x", 1, ProbeStatus::Success, 5_000_000));
    assert_eq!(a, LoopAction::Terminate);
    assert!(s.terminated);
}

#[test]
fn test_interrupt_terminates() {
    let mut s = Scheduler::new(Some(100), 1_000_000_000);
    s.add_target("y".to_string(), IpAddress::V4(3), 0);
    assert_eq!(s.on_interrupt(), LoopAction::Terminate);
    assert!(s.terminated);
}

#[test]
fn test_error_counts_as_transmitted_only() {
    let mut s = Scheduler::new(Some(2), 1_000_000_000);
    s.add_target("z".to_string(), IpAddress::V4(4), 0);
    assert_eq!(s.on_tick(), TickAction::Send(1));
    s.record_dispatched(1);
    s.on_result(&result_for("z", 1, ProbeStatus::Error("connection refused".to_string()), 0));
    assert_eq!(s.stats[0].transmitted, 1);
    assert_eq!(s.stats[0].received, 0);
    assert_eq!(s.stats[0].loss_percent(), 100);
}
