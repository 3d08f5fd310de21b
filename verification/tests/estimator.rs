use framestitch::rate::estimate_rate;
use framestitch::rate::rate_or_default;
use framestitch::rate::render_rate;
use framestitch::rate::default_rate;
use framestitch::rate::Rate;
use framestitch::timestamp::resolve_timestamp;

#[test]
fn no_frames_cannot_estimate() {
    let ts: Vec<Option<u64>> = vec![];
    assert_eq!(estimate_rate(&ts), None);
}

#[test]
fn one_frame_cannot_estimate() {
    let ts = vec![Some(1_000_000_000u64)];
    assert_eq!(estimate_rate(&ts), None);
}

#[test]
fn failed_estimate_falls_back_to_default_24() {
    let rate = rate_or_default(None);
    assert_eq!(rate, Rate { num: 24, den: 1 });
    assert_eq!(render_rate(&rate), "24");
}

#[test]
fn default_rate_is_24() {
    assert_eq!(default_rate(), Rate { num: 24, den: 1 });
}

#[test]
fn constant_one_second_delta_gives_rate_one() {
    let ts = vec![Some(0u64), Some(1_000_000_000u64), Some(2_000_000_000u64)];
    let est = estimate_rate(&ts);
    // two intervals spanning two seconds: exactly 1 frame per second
    assert_eq!(
        est,
        Some(Rate { num: 2_000_000_000, den: 2_000_000_000 })
    );
    assert_eq!(render_rate(&est.unwrap()), "1");
}

#[test]
fn constant_half_second_delta_gives_rate_two() {
    let ts = vec![Some(500_000_000u64), Some(1_000_000_000u64), Some(1_500_000_000u64)];
    let est = estimate_rate(&ts).unwrap();
    // 2 intervals over 1 second: 2 fps
    assert_eq!(est, Rate { num: 2_000_000_000, den: 1_000_000_000 });
    assert_eq!(render_rate(&est), "2");
}

#[test]
fn identical_timestamps_fall_back_to_default() {
    let ts = vec![Some(7u64), Some(7u64)];
    let est = estimate_rate(&ts);
    assert_eq!(est, None);
    let rate = rate_or_default(est);
    assert_eq!(render_rate(&rate), "24");
}

#[test]
fn decreasing_timestamps_fall_back_to_default() {
    let ts = vec![Some(10_000_000_000u64), Some(5_000_000_000u64)];
    assert_eq!(estimate_rate(&ts), None);
}

#[test]
fn missing_timestamp_fails_whole_estimation() {
    let ts = vec![Some(0u64), None, Some(2_000_000_000u64)];
    assert_eq!(estimate_rate(&ts), None);
    let ts2 = vec![None, Some(1_000_000_000u64)];
    assert_eq!(estimate_rate(&ts2), None);
}

#[test]
fn uneven_deltas_use_the_mean() {
    // deltas of 1s and 3s: mean 2s, rate 0.5
    let ts = vec![Some(0u64), Some(1_000_000_000u64), Some(4_000_000_000u64)];
    let est = estimate_rate(&ts).unwrap();
    assert_eq!(est, Rate { num: 2_000_000_000, den: 4_000_000_000 });
    assert_eq!(render_rate(&est), "0.500");
}

#[test]
fn fractional_rate_renders_with_three_digits() {
    let rate = Rate { num: 1_000_000_000, den: 3_000_000_000 };
    assert_eq!(render_rate(&rate), "0.333");
}

#[test]
fn creation_time_is_preferred() {
    assert_eq!(resolve_timestamp(Some(5), Some(9)), Some(5));
}

#[test]
fn modification_time_is_the_fallback() {
    assert_eq!(resolve_timestamp(None, Some(9)), Some(9));
}

#[test]
fn no_time_resolves_to_nothing() {
    assert_eq!(resolve_timestamp(None, None), None);
}
