use bad_north_save::serializer::config::{SerializerConfig, SerializerMode};

#[test]
fn test_default_config() {
    let config = SerializerConfig::default();
    assert_eq!(config.mode, SerializerMode::FlexibleStrings);
    assert!(!config.verbose_diagnostics);
    assert!(config.allow_missing_metadata);
    assert!(!config.log_record_summary);
}

#[test]
fn test_modifier_config() {
    let config = SerializerConfig::default_for_modifier();
    assert_eq!(config.mode, SerializerMode::FlexibleStrings);
    assert!(config.verbose_diagnostics);
    assert!(config.allow_missing_metadata);
    assert!(config.log_record_summary);
}

#[test]
fn test_strict_config() {
    let config = SerializerConfig::strict();
    assert_eq!(config.mode, SerializerMode::Strict);
    assert!(!config.verbose_diagnostics);
    assert!(!config.allow_missing_metadata);
    assert!(!config.log_record_summary);
}

#[test]
fn test_config_builder() {
    let config = SerializerConfig::default()
        .with_mode(SerializerMode::Strict)
        .with_verbose_diagnostics(true);

    assert_eq!(config.mode, SerializerMode::Strict);
    assert!(config.verbose_diagnostics);
}

#[test]
fn verbose_and_adaptive_presets() {
    let v = SerializerConfig::verbose();
    assert_eq!(v.mode, SerializerMode::FlexibleStrings);
    assert!(v.verbose_diagnostics && v.allow_missing_metadata && v.log_record_summary);
    let a = SerializerConfig::adaptive();
    assert_eq!(a.mode, SerializerMode::Adaptive);
    assert!(!a.verbose_diagnostics && a.allow_missing_metadata && !a.log_record_summary);
}

#[test]
fn builders_change_only_their_field() {
    let c = SerializerConfig::strict()
        .with_allow_missing_metadata(true)
        .with_log_record_summary(true);
    assert_eq!(c.mode, SerializerMode::Strict);
    assert!(!c.verbose_diagnostics);
    assert!(c.allow_missing_metadata);
    assert!(c.log_record_summary);
}

#[test]
fn config_display_text() {
    let c = SerializerConfig::default();
    assert_eq!(
        c.display_text(),
        "SerializerConfig { mode: FlexibleStrings, verbose: false, allow_missing: true, summary: false }"
    );
    assert_eq!(SerializerMode::Strict.display_text(), "Strict");
    assert_eq!(SerializerMode::Adaptive.display_text(), "Adaptive");
}
