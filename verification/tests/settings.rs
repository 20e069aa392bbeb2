use pathtracer::settings::{
    longest_digit_run, read_settings, reading, settings_from, whole_i32, Setting, Settings,
    SettingsError, MAX_DIGITS,
};

const SCENE: &str = r#"{
    "camera": {
        "type": "perspective",
        "lookfrom": "0 0 0",
        "width": 400,
        "height": 225,
        "samples": 100,
        "max_depth": 50
    },
    "width": 1
}"#;

#[test]
fn settings_of_a_scene_file() {
    assert_eq!(
        read_settings(SCENE),
        Ok(Settings { width: 400, height: 225, samples: 100, max_depth: 50 })
    );
}

#[test]
fn text_that_is_no_json() {
    assert_eq!(read_settings("{ camera: "), Err(SettingsError::NotJson));
    assert_eq!(read_settings(""), Err(SettingsError::NotJson));
}

#[test]
fn scene_file_without_camera() {
    assert_eq!(read_settings("{}"), Err(SettingsError::Missing(Setting::Width)));
    assert_eq!(read_settings("[1, 2]"), Err(SettingsError::Missing(Setting::Width)));
    assert_eq!(
        read_settings(r#"{"width": 1, "height": 1, "samples": 1, "max_depth": 1}"#),
        Err(SettingsError::Missing(Setting::Width))
    );
}

#[test]
fn first_missing_setting_is_named() {
    assert_eq!(
        read_settings(r#"{"camera": {"width": 4, "samples": 1}}"#),
        Err(SettingsError::Missing(Setting::Height))
    );
    assert_eq!(
        read_settings(r#"{"camera": {"width": 4, "height": 3, "max_depth": 1}}"#),
        Err(SettingsError::Missing(Setting::Samples))
    );
    assert_eq!(
        read_settings(r#"{"camera": {"width": 4, "height": 3, "samples": 1}}"#),
        Err(SettingsError::Missing(Setting::MaxDepth))
    );
}

#[test]
fn setting_that_is_no_whole_number() {
    assert_eq!(
        read_settings(r#"{"camera": {"width": "4", "height": 3, "samples": 1, "max_depth": 1}}"#),
        Err(SettingsError::Missing(Setting::Width))
    );
    assert_eq!(
        read_settings(r#"{"camera": {"width": 4, "height": 3.5, "samples": 1, "max_depth": 1}}"#),
        Err(SettingsError::Missing(Setting::Height))
    );
    assert_eq!(
        read_settings(
            r#"{"camera": {"width": 4, "height": 3, "samples": 3000000000, "max_depth": 1}}"#
        ),
        Err(SettingsError::Missing(Setting::Samples))
    );
}

#[test]
fn negative_settings_are_read() {
    assert_eq!(
        read_settings(r#"{"camera": {"width": -4, "height": 3, "samples": 0, "max_depth": -1}}"#),
        Ok(Settings { width: -4, height: 3, samples: 0, max_depth: -1 })
    );
}

#[test]
fn reading_of_one_setting() {
    assert_eq!(reading(Some(Some(7)), Setting::Samples), Ok(7));
    assert_eq!(reading(Some(None), Setting::Samples), Err(SettingsError::Missing(Setting::Samples)));
    assert_eq!(reading(None, Setting::Samples), Err(SettingsError::NotJson));
}

#[test]
fn settings_from_four_readings() {
    assert_eq!(
        settings_from(Some(Some(1)), Some(Some(2)), Some(Some(3)), Some(Some(4))),
        Ok(Settings { width: 1, height: 2, samples: 3, max_depth: 4 })
    );
    assert_eq!(
        settings_from(Some(Some(1)), Some(None), None, Some(None)),
        Err(SettingsError::Missing(Setting::Height))
    );
    assert_eq!(
        settings_from(Some(Some(1)), Some(Some(2)), None, Some(None)),
        Err(SettingsError::NotJson)
    );
    assert_eq!(
        settings_from(Some(Some(1)), Some(Some(2)), Some(Some(3)), Some(None)),
        Err(SettingsError::Missing(Setting::MaxDepth))
    );
}

#[test]
fn whole_numbers_in_the_range_of_i32() {
    assert_eq!(whole_i32(true, 0, 0), Some(0));
    assert_eq!(whole_i32(false, 0, 0), Some(0));
    assert_eq!(whole_i32(true, 400, 0), Some(400));
    assert_eq!(whole_i32(false, 400, 0), Some(-400));
    assert_eq!(whole_i32(true, 2147483647, 0), Some(i32::MAX));
    assert_eq!(whole_i32(false, 2147483648, 0), Some(i32::MIN));
}

#[test]
fn numbers_out_of_range_or_with_an_exponent() {
    assert_eq!(whole_i32(true, 2147483648, 0), None);
    assert_eq!(whole_i32(false, 2147483649, 0), None);
    assert_eq!(whole_i32(true, 1 << 63, 0), None);
    assert_eq!(whole_i32(false, 1 << 63, 0), None);
    assert_eq!(whole_i32(true, u64::MAX, 0), None);
    assert_eq!(whole_i32(false, u64::MAX, 0), None);
    assert_eq!(whole_i32(true, 35, -1), None);
    assert_eq!(whole_i32(true, 4, 2), None);
}

#[test]
fn ends_of_the_range_are_read() {
    assert_eq!(
        read_settings(
            r#"{"camera": {"width": 2147483647, "height": -2147483648, "samples": 1, "max_depth": 1}}"#
        ),
        Ok(Settings { width: i32::MAX, height: i32::MIN, samples: 1, max_depth: 1 })
    );
    assert_eq!(
        read_settings(r#"{"camera": {"width": 2147483648, "height": 1, "samples": 1, "max_depth": 1}}"#),
        Err(SettingsError::Missing(Setting::Width))
    );
    assert_eq!(
        read_settings(r#"{"camera": {"width": 1, "height": -2147483649, "samples": 1, "max_depth": 1}}"#),
        Err(SettingsError::Missing(Setting::Height))
    );
}

#[test]
fn numbers_at_the_ends_of_64_bits_are_missing() {
    assert_eq!(
        read_settings(r#"{"camera":{"width":-9223372036854775808}}"#),
        Err(SettingsError::Missing(Setting::Width))
    );
    assert_eq!(
        read_settings(r#"{"camera":{"width":9223372036854775808}}"#),
        Err(SettingsError::Missing(Setting::Width))
    );
    assert_eq!(
        read_settings(r#"{"camera":{"width":18446744073709551615}}"#),
        Err(SettingsError::Missing(Setting::Width))
    );
    assert_eq!(
        read_settings(r#"{"camera":{"width":-18446744073709551615}}"#),
        Err(SettingsError::Missing(Setting::Width))
    );
    assert_eq!(
        read_settings(r#"{"camera":{"width":123456789012345678901234567890}}"#),
        Err(SettingsError::Missing(Setting::Width))
    );
}

#[test]
fn longest_run_of_digits() {
    assert_eq!(longest_digit_run(b""), 0);
    assert_eq!(longest_digit_run(b"abc"), 0);
    assert_eq!(longest_digit_run(b"7"), 1);
    assert_eq!(longest_digit_run(b"12.345e6789"), 4);
    assert_eq!(longest_digit_run(b"0123456789"), 10);
    assert_eq!(longest_digit_run(b"/0:"), 1);
    assert_eq!(longest_digit_run(b"12a345b6"), 3);
    assert_eq!(longest_digit_run("1\u{e9}23".as_bytes()), 2);
}

#[test]
fn fraction_at_the_limit_is_parsed() {
    assert_eq!(MAX_DIGITS, 32767);
    let text = format!(r#"{{"camera": {{"width": 0.{}}}}}"#, "0".repeat(MAX_DIGITS));
    assert_eq!(longest_digit_run(text.as_bytes()), MAX_DIGITS);
    assert_eq!(read_settings(&text), Err(SettingsError::Missing(Setting::Width)));
    let text = format!(
        r#"{{"camera": {{"width": 4, "height": 3, "samples": 1, "max_depth": 2, "x": 1.{}}}}}"#,
        "0".repeat(MAX_DIGITS)
    );
    assert_eq!(
        read_settings(&text),
        Ok(Settings { width: 4, height: 3, samples: 1, max_depth: 2 })
    );
}

#[test]
fn text_with_too_many_digits_in_a_row_is_refused() {
    let text = format!(r#"{{"camera": {{"width": 0.{}}}}}"#, "0".repeat(MAX_DIGITS + 1));
    assert_eq!(read_settings(&text), Err(SettingsError::LongNumber));
    let text = format!(
        r#"{{"camera": {{"width": 4, "height": 3, "samples": 1, "max_depth": 2}}, "x": 0.{}}}"#,
        "0".repeat(40000)
    );
    assert_eq!(read_settings(&text), Err(SettingsError::LongNumber));
    // digits inside a string count as well
    let text = format!(
        r#"{{"camera": {{"width": 4, "height": 3, "samples": 1, "max_depth": 2}}, "x": "{}"}}"#,
        "7".repeat(40000)
    );
    assert_eq!(read_settings(&text), Err(SettingsError::LongNumber));
    // a text that is no JSON is refused for its digits first
    assert_eq!(read_settings(&"1".repeat(MAX_DIGITS + 1)), Err(SettingsError::LongNumber));
}
