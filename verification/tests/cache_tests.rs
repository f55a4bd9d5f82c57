use majiix_backend::cache::get_cache_key;
use majiix_backend::cache::get_max_age_from_controller;

#[test]
fn init_key_formula() {
    assert_eq!(get_cache_key("cam1", "video", true), "cam1/video/init");
    assert_eq!(get_cache_key("a", "audio", true), "a/audio/init");
}

#[test]
fn non_init_key_repeats_asset() {
    assert_eq!(get_cache_key("cam1", "video", false), "cam1/video/cam1");
}

#[test]
fn key_derivation_is_idempotent() {
    let first = get_cache_key("room/att", "audio", true);
    let second = get_cache_key("room/att", "audio", true);
    assert_eq!(first, second);
}

#[test]
fn max_age_directive_value() {
    assert_eq!(get_max_age_from_controller("max-age=42", 7), 42);
}

#[test]
fn max_age_missing_directive_falls_back() {
    assert_eq!(get_max_age_from_controller("no-directive", 7), 7);
    assert_eq!(get_max_age_from_controller("", 7), 7);
}

#[test]
fn max_age_non_numeric_falls_back() {
    assert_eq!(get_max_age_from_controller("max-age=abc", 7), 7);
}

#[test]
fn max_age_directive_without_digits_is_skipped() {
    // The first occurrence has no digit after it; the later one counts.
    assert_eq!(get_max_age_from_controller("max-age=x,max-age=9", 7), 9);
}

#[test]
fn max_age_takes_first_usable_directive() {
    assert_eq!(get_max_age_from_controller("max-age=10,max-age=20", 7), 10);
}

#[test]
fn max_age_directive_inside_longer_text() {
    assert_eq!(get_max_age_from_controller("public, max-age=3600, immutable", 7), 3600);
}

#[test]
fn max_age_overflowing_digits_fall_back() {
    assert_eq!(get_max_age_from_controller("max-age=99999999999999999999", 7), 7);
}

#[test]
fn max_age_exact_u64_bounds() {
    assert_eq!(
        get_max_age_from_controller("max-age=18446744073709551615", 7),
        u64::MAX
    );
    assert_eq!(get_max_age_from_controller("max-age=18446744073709551616", 7), 7);
}
