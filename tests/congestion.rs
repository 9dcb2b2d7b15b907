use hoip_net::congestion_detection::{Biaz, CongestionDetector, CongestionState, Trend, Window, ZigZag};
use hoip_net::network_analyzer::NetworkAnalyzer;

#[test]
fn zig_zag_compares_with_mean_plus_deviation() {
    let mut d = ZigZag::new();
    assert_eq!(d.is_congested(10, 5_000, 4_999, 0), CongestionState::Congested);
    assert_eq!(d.is_congested(10, 5_000, 5_000, 0), CongestionState::NotCongested);
    assert_eq!(d.is_congested(0, 0, -1_000, 0), CongestionState::Congested);
}

#[test]
fn biaz_is_never_sure() {
    let mut d = Biaz::new();
    assert_eq!(d.is_congested(100, 0, 0, 0), CongestionState::NotSure);
}

#[test]
fn trend_decays_and_rises() {
    let mut d = Trend::default();
    // index 0.9 after a rise
    assert_eq!(d.is_congested(5, 0, 0, 0), CongestionState::Congested);
    // 0.9 * 0.1 = 0.09 without one
    assert_eq!(d.is_congested(5, 0, 0, 5), CongestionState::NotCongested);
    // 0.009 + 0.9
    assert_eq!(d.is_congested(6, 0, 0, 5), CongestionState::Congested);
}

#[test]
fn trend_with_small_gamma_needs_several_rises() {
    let mut d = Trend::new(300_000, 400_000);
    assert_eq!(d.is_congested(2, 0, 0, 1), CongestionState::NotCongested); // 0.3
    assert_eq!(d.is_congested(3, 0, 0, 2), CongestionState::Congested); // 0.21 + 0.3
}

#[test]
fn window_congested_after_more_than_n_above_mean() {
    let mut d = Window::new(2);
    // 10 us against a mean of 5 us
    assert_eq!(d.is_congested(10, 5_000, 0, 0), CongestionState::NotSure);
    assert_eq!(d.is_congested(10, 5_000, 0, 0), CongestionState::NotCongested);
    assert_eq!(d.is_congested(10, 5_000, 0, 0), CongestionState::Congested);
    // the window was emptied: the run starts again
    assert_eq!(d.is_congested(10, 5_000, 0, 0), CongestionState::NotSure);
    assert_eq!(d.is_congested(10, 5_000, 0, 0), CongestionState::NotCongested);
    assert_eq!(d.is_congested(10, 5_000, 0, 0), CongestionState::Congested);
}

#[test]
fn window_run_breaks_below_mean() {
    let mut d = Window::new(2);
    assert_eq!(d.is_congested(10, 5_000, 0, 0), CongestionState::NotSure);
    assert_eq!(d.is_congested(10, 5_000, 0, 0), CongestionState::NotCongested);
    // at the mean: not above, the run ends
    assert_eq!(d.is_congested(10, 10_000, 0, 0), CongestionState::NotCongested);
    assert_eq!(d.is_congested(10, 5_000, 0, 0), CongestionState::NotCongested);
    assert_eq!(d.is_congested(10, 5_000, 0, 0), CongestionState::NotCongested);
    assert_eq!(d.is_congested(10, 5_000, 0, 0), CongestionState::Congested);
}

#[test]
fn window_not_sure_outside_band() {
    let mut d = Window::default();
    for _ in 0..8 {
        d.is_congested(100, 1_000_000, 0, 0);
    }
    // with 110 written the mean is 101.25: band [91, 111]
    assert_eq!(d.is_congested(110, 1_000_000, 0, 0), CongestionState::NotCongested);
    // with 150 written the mean is 107.5: band [96, 118]
    assert_eq!(d.is_congested(150, 1_000_000, 0, 0), CongestionState::NotSure);
}

#[test]
fn window_of_one() {
    let mut d = Window::new(1);
    assert_eq!(d.is_congested(7, 0, 0, 0), CongestionState::NotCongested);
    assert_eq!(d.is_congested(7, 0, 0, 0), CongestionState::Congested);
}

#[test]
fn analyzer_feeds_the_detector() {
    // w = 0.1: mean 10 us, deviation 0.8 + 0.2 * 90 = 18.8 us; 100 > 28.8
    let mut a = NetworkAnalyzer::new(ZigZag::new(), 100_000);
    assert_eq!(a.state(), CongestionState::NotSure);
    a.update_state(100);
    assert_eq!(a.state(), CongestionState::Congested);
}

#[test]
fn analyzer_with_zero_weight_keeps_mean() {
    // w = 0: mean stays 0, deviation is 1 us
    let mut a = NetworkAnalyzer::new(ZigZag::new(), 0);
    a.update_state(1);
    assert_eq!(a.state(), CongestionState::NotCongested);
    a.update_state(2);
    assert_eq!(a.state(), CongestionState::Congested);
}
