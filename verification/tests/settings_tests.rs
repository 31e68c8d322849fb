use image_sieve::settings::{
    convert_sensitivity_to_u32, convert_timestamp_difference, convert_u32_to_sensitivity, Settings,
};

#[test]
fn helpers() {
    assert_eq!(convert_timestamp_difference("5"), Some(5));
    assert_eq!(convert_timestamp_difference("x"), None);

    assert_eq!(convert_sensitivity_to_u32("Very low"), 20);
    assert_eq!(convert_sensitivity_to_u32("Very high"), 10);
    assert_eq!(
        convert_sensitivity_to_u32("Something"),
        convert_sensitivity_to_u32("Medium")
    );

    assert_eq!(convert_u32_to_sensitivity(20), "Very low");
    assert_eq!(convert_u32_to_sensitivity(40), "Very low");
    assert_eq!(convert_u32_to_sensitivity(10), "Very high");
    assert_eq!(convert_u32_to_sensitivity(0), "Very high");
    assert_eq!(convert_u32_to_sensitivity(11), "High");
}

#[test]
fn parse_thresholds() {
    assert_eq!(convert_timestamp_difference("-12"), Some(-12));
    assert_eq!(convert_timestamp_difference("+7"), Some(7));
    assert_eq!(convert_timestamp_difference(""), None);
    assert_eq!(convert_timestamp_difference("-"), None);
    assert_eq!(convert_timestamp_difference("12a"), None);
    assert_eq!(
        convert_timestamp_difference("9223372036854775807"),
        Some(i64::MAX)
    );
    assert_eq!(
        convert_timestamp_difference("-9223372036854775808"),
        Some(i64::MIN)
    );
    assert_eq!(convert_timestamp_difference("9223372036854775808"), None);
    assert_eq!(convert_timestamp_difference("99999999999999999999999"), None);
}

#[test]
fn default_settings() {
    let settings = Settings::new();
    assert_eq!(settings.source_directory, "");
    assert_eq!(settings.target_directory, "");
    assert!(settings.use_timestamps);
    assert_eq!(settings.timestamp_max_diff, 5);
    assert!(!settings.use_hash);
    assert_eq!(settings.hash_max_diff, 14);
    assert_eq!(settings.dark_mode, "Automatic");
}
