use hoip_net::congestion_detection::CongestionState;
use hoip_net::k_policy::{KPolicy, KPolicySDMI, KPolicySDMIExponentialBackoff, KPolicySDSI, K_MAX, K_MIN};

#[test]
fn sdmi_jumps_up_and_steps_down() {
    let mut p = KPolicySDMI;
    assert_eq!(p.select_k(CongestionState::NotSure, 3), None);
    assert_eq!(p.select_k(CongestionState::Congested, 1), Some(K_MAX));
    assert_eq!(p.select_k(CongestionState::NotCongested, 3), Some(2));
    assert_eq!(p.select_k(CongestionState::NotCongested, K_MIN), Some(K_MIN));
}

#[test]
fn sdsi_steps_both_ways() {
    let mut p = KPolicySDSI;
    assert_eq!(p.select_k(CongestionState::NotSure, 2), None);
    assert_eq!(p.select_k(CongestionState::Congested, 2), Some(3));
    assert_eq!(p.select_k(CongestionState::Congested, K_MAX), Some(K_MAX));
    assert_eq!(p.select_k(CongestionState::NotCongested, 2), Some(1));
    assert_eq!(p.select_k(CongestionState::NotCongested, 1), Some(1));
}

#[test]
fn exponential_backoff_counts_calls() {
    let mut p = KPolicySDMIExponentialBackoff::new(5);
    // 0 calls against min(5, 1.5^0 = 1)
    assert!(!p.backoff());
    assert_eq!(p.select_k(CongestionState::NotSure, 3), None);
    assert!(!p.backoff());
    assert_eq!(p.select_k(CongestionState::NotSure, 3), None);
    assert!(p.backoff());
    assert_eq!(p.select_k(CongestionState::Congested, 2), Some(K_MAX));
    assert!(!p.backoff());
    assert_eq!(p.select_k(CongestionState::NotCongested, 4), Some(3));
    assert_eq!(p.select_k(CongestionState::NotCongested, 1), Some(1));
}

#[test]
fn exponential_backoff_capped_by_max() {
    let mut p = KPolicySDMIExponentialBackoff::new(0);
    assert!(!p.backoff());
    p.select_k(CongestionState::NotSure, 3);
    assert!(p.backoff());
}
