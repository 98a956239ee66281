use std::collections::VecDeque;

use nocturned::brightness::{
    AmbientLevelFilter,
    advance_backlight, clamp_brightness, is_display_sleeping, median_of_samples,
    minimum_auto_backlight, normalize_stock_ambient_level, sanitize_config, smooth_backlight_step,
    validate_brightness, BrightnessConfig, BrightnessError, DisplaySleepState,
    BRIGHTNESS_BRIGHTEST, BRIGHTNESS_DIMMEST, DEFAULT_BRIGHTNESS, SMOOTHING_SAMPLES,
};

#[test]
fn default_brightness_uses_current_logical_range() {
    assert_eq!(BrightnessConfig::default().brightness, DEFAULT_BRIGHTNESS);
    assert_eq!(clamp_brightness(DEFAULT_BRIGHTNESS), DEFAULT_BRIGHTNESS);
}

#[test]
fn clamps_logical_brightness() {
    assert_eq!(clamp_brightness(200), BRIGHTNESS_DIMMEST);
    assert_eq!(clamp_brightness(BRIGHTNESS_BRIGHTEST), BRIGHTNESS_BRIGHTEST);
    assert_eq!(
        sanitize_config(BrightnessConfig { auto: false, brightness: 255 }),
        BrightnessConfig { auto: false, brightness: BRIGHTNESS_DIMMEST }
    );
    assert!(BrightnessConfig::default().auto);
}

#[test]
fn manual_brightness_must_be_in_range() {
    assert_eq!(validate_brightness(0), Ok(0));
    assert_eq!(validate_brightness(160), Ok(160));
    assert_eq!(validate_brightness(161), Err(BrightnessError::OutOfRange));
}

#[test]
fn waits_for_a_full_window_and_maps_the_median_to_a_target() {
    let mut samples = VecDeque::new();
    for _ in 0..SMOOTHING_SAMPLES - 1 {
        samples.push_back(1500);
    }
    assert_eq!(median_of_samples(&samples), None);

    samples.push_back(1500);
    assert_eq!(median_of_samples(&samples), Some(1500));
    assert_eq!(minimum_auto_backlight(0), 0);
    assert_eq!(minimum_auto_backlight(8), 8);
    assert_eq!(minimum_auto_backlight(160), 16);
}

#[test]
fn median_window_rejects_single_sample_outliers() {
    let samples = VecDeque::from([0, 100, 100, 100, 100, 100, 100, 100, 100, 100, 1000]);
    assert_eq!(median_of_samples(&samples), Some(100));
}

#[test]
fn median_of_an_unsorted_window() {
    let samples = VecDeque::from([9, 3, 7, 1, 11, 5, 2, 10, 4, 8, 6]);
    assert_eq!(median_of_samples(&samples), Some(6));
    let twelve = VecDeque::from([12, 1, 11, 2, 10, 3, 9, 4, 8, 5, 7, 6]);
    assert_eq!(median_of_samples(&twelve), Some(7));
}

#[test]
fn stock_levels_normalize_to_percent() {
    assert_eq!(normalize_stock_ambient_level(235), 92);
    assert_eq!(normalize_stock_ambient_level(50), 19);
    assert_eq!(normalize_stock_ambient_level(255), 100);
    assert_eq!(normalize_stock_ambient_level(10_000), 100);
}

#[test]
fn backlight_steps_land_on_the_target_and_respect_the_floor() {
    assert_eq!(advance_backlight(16, 160, 3, 160), 19);
    assert_eq!(advance_backlight(159, 160, 3, 160), 160);
    assert_eq!(advance_backlight(160, 16, -3, 160), 157);
    assert_eq!(advance_backlight(0, 160, 3, 160), 16);
    assert_eq!(advance_backlight(5, 16, 1, 160), 16);
    assert_eq!(advance_backlight(160, 160, 3, 160), 160);
}

/// The fresh step of a transition: 2% of the distance, rounded, at least 1,
/// toward the target (the display curve's floating-point rule).
fn fresh_step(current: u32, target: u32) -> i64 {
    if current == target {
        return 0;
    }
    let diff = target as i64 - current as i64;
    let step = ((diff.unsigned_abs() as f32 * 0.02f32).round() as i64).max(1);
    if diff > 0 { step } else { -step }
}

#[test]
fn restores_nocturnes_small_fixed_transition_steps() {
    let (next, step) = smooth_backlight_step(16, 160, None, 0, fresh_step(16, 160), 160);
    assert_eq!(step, 3);
    assert_eq!(next, 19);

    let (next, step) = smooth_backlight_step(next, 160, Some(160), step, fresh_step(next, 160), 160);
    assert_eq!(step, 3);
    assert_eq!(next, 22);

    let (next, step) = smooth_backlight_step(159, 160, Some(160), step, fresh_step(159, 160), 160);
    assert_eq!(step, 3);
    assert_eq!(next, 160);

    assert_eq!(smooth_backlight_step(160, 160, Some(160), step, fresh_step(160, 160), 160), (160, 0));
    assert_eq!(smooth_backlight_step(160, 16, Some(160), 3, fresh_step(160, 16), 160), (157, -3));
    assert_eq!(smooth_backlight_step(0, 160, None, 0, fresh_step(0, 160), 160), (16, 3));
    assert_eq!(smooth_backlight_step(5, 16, None, 0, fresh_step(5, 16), 160), (16, 1));
}

#[test]
fn sleeping_keeps_the_first_saved_settings_until_woken() {
    let mut state = DisplaySleepState::new();
    assert!(!is_display_sleeping(&state));
    let stored = BrightnessConfig { auto: false, brightness: 40 };
    assert_eq!(state.config_or(stored), stored);

    let first = BrightnessConfig { auto: true, brightness: 90 };
    assert_eq!(state.enter(first), first);
    assert!(is_display_sleeping(&state));
    let second = BrightnessConfig { auto: false, brightness: 10 };
    assert_eq!(state.enter(second), first);
    assert_eq!(state.config_or(stored), first);

    state.clear();
    assert!(!is_display_sleeping(&state));
    assert_eq!(state.config_or(stored), stored);
}

#[test]
fn ambient_event_filter_median_filters_and_repeats_current_value() {
    let mut filter = AmbientLevelFilter::new();
    for value in [1, 1, 1, 1, 1, 1000, 1, 1, 1, 1, 1] {
        if let Some(median) = filter.push_sample(value) {
            assert_eq!(median, 1);
            // below the stock curve's range a reading is the darkest level
            filter.set_target_level(235);
        }
    }

    let mut emitted = Vec::new();
    for _ in 0..50 {
        let fresh = match filter.step_span() {
            Some((current, target)) => fresh_step(current, target),
            None => 0,
        };
        if let Some(event) = filter.tick(fresh) {
            emitted.push(event);
        }
    }

    assert_eq!(emitted.len(), 2);
    assert!(emitted.iter().all(|event| event.0 == 1));
    assert!(emitted.iter().all(|event| event.1 == 92));
}

#[test]
fn ambient_filter_waits_for_a_target_and_steps_toward_it() {
    let mut filter = AmbientLevelFilter::new();
    assert_eq!(filter.tick(3), None);
    assert_eq!(filter.step_span(), None);
    filter.set_target_level(100);
    assert_eq!(filter.tick(0), None);
    assert_eq!(filter.step_span(), Some((100, 100)));
    filter.set_target_level(110);
    assert_eq!(filter.step_span(), Some((100, 110)));
    filter.tick(4);
    assert_eq!(filter.step_span(), Some((104, 110)));
}
