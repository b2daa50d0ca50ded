use statusline::settings::{parse_limit, CompactLimit, DEFAULT_COMPACT_WINDOW};

#[test]
fn explicit_value_is_used() {
    assert_eq!(
        parse_limit(r#"{"autoCompactWindow": 350000}"#),
        CompactLimit::Configured(350_000)
    );
}

#[test]
fn absent_key_leaves_the_window_unconfigured() {
    assert_eq!(parse_limit(r#"{"model": "opus"}"#), CompactLimit::Default);
}

#[test]
fn present_but_invalid_value_degrades_loudly() {
    for raw in [
        r#"{"autoCompactWindow": "350000"}"#,
        r#"{"autoCompactWindow": null}"#,
        r#"{"autoCompactWindow": -1}"#,
        r#"{"autoCompactWindow": 350000.5}"#,
        r#"{"autoCompactWindow": 0}"#,
        r#"{"autoCompactWindow": {}}"#,
    ] {
        assert_eq!(parse_limit(raw), CompactLimit::Unavailable, "raw: {raw}");
    }
}

#[test]
fn corrupt_json_degrades_loudly() {
    assert_eq!(parse_limit("{not json"), CompactLimit::Unavailable);
}

#[test]
fn unconfigured_million_token_ceiling_is_its_own_window() {
    assert_eq!(
        CompactLimit::Default.denominator(Some(1_000_000)),
        Some(1_000_000)
    );
}

#[test]
fn unconfigured_small_ceiling_takes_the_documented_default() {
    assert_eq!(
        CompactLimit::Default.denominator(Some(200_000)),
        Some(DEFAULT_COMPACT_WINDOW)
    );
    assert_eq!(
        CompactLimit::Default.denominator(Some(500_000)),
        Some(DEFAULT_COMPACT_WINDOW)
    );
}

#[test]
fn unconfigured_ceiling_below_the_default_clamps_to_the_ceiling() {
    assert_eq!(
        CompactLimit::Default.denominator(Some(120_000)),
        Some(120_000)
    );
}

#[test]
fn missing_ceiling_has_no_verified_denominator() {
    assert_eq!(CompactLimit::Default.denominator(None), None);
}

#[test]
fn configured_value_is_clamped_to_the_ceiling() {
    assert_eq!(
        CompactLimit::Configured(1_000_000).denominator(Some(200_000)),
        Some(200_000)
    );
    assert_eq!(
        CompactLimit::Configured(350_000).denominator(Some(1_000_000)),
        Some(350_000)
    );
    assert_eq!(CompactLimit::Configured(350_000).denominator(None), None);
}

#[test]
fn broken_config_measures_against_the_ceiling() {
    assert_eq!(
        CompactLimit::Unavailable.denominator(Some(1_000_000)),
        Some(1_000_000)
    );
    assert_eq!(CompactLimit::Unavailable.denominator(None), None);
}

// ---- further cases ------------------------------------------------------

#[test]
fn denominator_never_exceeds_the_ceiling() {
    for limit in [
        CompactLimit::Configured(5),
        CompactLimit::Configured(u64::MAX),
        CompactLimit::Default,
        CompactLimit::Unavailable,
    ] {
        for g in [1, 150_000, 200_001, 999_999, 1_000_000, u64::MAX] {
            let d = limit.denominator(Some(g)).unwrap();
            assert!(d <= g, "{limit:?} {g}");
        }
    }
}

#[test]
fn large_and_nested_settings_parse() {
    assert_eq!(
        parse_limit(r#"{"statusLine": {"type": "command"}, "autoCompactWindow": 18446744073709551615}"#),
        CompactLimit::Configured(u64::MAX)
    );
    assert_eq!(
        parse_limit(r#"{"autoCompactWindow": 18446744073709551616}"#),
        CompactLimit::Unavailable
    );
    assert_eq!(parse_limit("[]"), CompactLimit::Default);
    assert_eq!(parse_limit(""), CompactLimit::Unavailable);
}
