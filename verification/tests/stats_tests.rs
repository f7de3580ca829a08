use pingx::addr::IpAddress;
use pingx::stats::{PingResult, PingStats, ProbeStatus};

fn success(rtt: u64) -> PingResult {
    PingResult {
        target: "t".to_string(),
        target_addr: IpAddress::V4(1),
        seq: 1,
        bytes: 56,
        ttl: None,
        rtt,
        status: ProbeStatus::Success,
    }
}

fn timeout() -> PingResult {
    PingResult {
        target: "t".to_string(),
        target_addr: IpAddress::V4(1),
        seq: 1,
        bytes: 0,
        ttl: None,
        rtt: 0,
        status: ProbeStatus::Timeout,
    }
}

#[test]
fn test_update_counts() {
    let mut st = PingStats::new("t".to_string(), IpAddress::V4(1), 0);
    st.update(&success(10));
    st.update(&timeout());
    st.update(&success(30));
    assert_eq!(st.transmitted, 3);
    assert_eq!(st.received, 2);
    assert_eq!(st.rtts, vec![10, 30]);
}

#[test]
fn test_summary_exact_values() {
    let mut st = PingStats::new("t".to_string(), IpAddress::V4(1), 0);
    st.update(&success(1_000));
    st.update(&success(3_000));
    let su = st.summary().unwrap();
    assert_eq!(su.min, 1_000);
    assert_eq!(su.max, 3_000);
    assert_eq!(su.avg, 2_000);
    // both samples sit 1000 away from the mean
    assert_eq!(su.mdev, 1_000);
}

#[test]
fn test_summary_single_sample() {
    let mut st = PingStats::new("t".to_string(), IpAddress::V4(1), 0);
    st.update(&success(7_500));
    let su = st.summary().unwrap();
    assert_eq!(su.min, 7_500);
    assert_eq!(su.max, 7_500);
    assert_eq!(su.avg, 7_500);
    assert_eq!(su.mdev, 0);
}

#[test]
fn test_summary_none_without_reply() {
    let mut st = PingStats::new("t".to_string(), IpAddress::V4(1), 0);
    st.update(&timeout());
    assert!(st.summary().is_none());
}

#[test]
fn test_loss_percent_values() {
    let mut st = PingStats::new("t".to_string(), IpAddress::V4(1), 0);
    assert_eq!(st.loss_percent(), 0);
    st.update(&success(1));
    st.update(&success(1));
    st.update(&success(1));
    st.update(&timeout());
    // 1 of 4 lost
    assert_eq!(st.loss_percent(), 25);
    let mut all_lost = PingStats::new("u".to_string(), IpAddress::V4(1), 0);
    all_lost.update(&timeout());
    all_lost.update(&timeout());
    assert_eq!(all_lost.loss_percent(), 100);
}
