use bad_north_save::serializer::string_patcher::{
    calculate_size_delta, calculate_string_record_size, detect_change_type, StringChangeType,
    StringPatchInfo,
};

#[test]
fn test_calculate_string_record_size() {
    let s = "test";
    assert_eq!(calculate_string_record_size(s), 5);

    let s = "a".repeat(128);
    assert_eq!(calculate_string_record_size(&s), 130);
}

#[test]
fn test_string_patch_info() {
    let patch = StringPatchInfo::new(
        100,
        "Hero_Class_Infantry".to_string(),
        "Hero_Class_Archer".to_string(),
    );

    assert_eq!(patch.record_id, 100);
    assert_eq!(patch.change_type, StringChangeType::Shortened);
    assert!(patch.size_delta < 0);
}

#[test]
fn test_detect_change_type() {
    assert_eq!(detect_change_type("hello", "hello"), StringChangeType::Unchanged);
    assert_eq!(detect_change_type("hello", "hi"), StringChangeType::Shortened);
    assert_eq!(detect_change_type("hi", "hello"), StringChangeType::Lengthened);
}

#[test]
fn test_size_delta_calculation() {
    let delta = calculate_size_delta("Infantry", "Archer");
    assert!(delta < 0);
}

#[test]
fn record_size_prefix_boundaries() {
    assert_eq!(calculate_string_record_size(""), 1);
    assert_eq!(calculate_string_record_size(&"a".repeat(127)), 128);
    assert_eq!(calculate_string_record_size(&"a".repeat(0x3FFF)), 0x3FFF + 2);
    assert_eq!(calculate_string_record_size(&"a".repeat(0x4000)), 0x4000 + 3);
    // multi-byte characters count by their UTF-8 bytes
    assert_eq!(calculate_string_record_size("é"), 3);
}

#[test]
fn modified_when_same_size_and_delta_signs() {
    assert_eq!(detect_change_type("abc", "xyz"), StringChangeType::Modified);
    assert_eq!(calculate_size_delta("abc", "xyz"), 0);
    assert_eq!(calculate_size_delta("hi", "hello"), 3);
    assert_eq!(calculate_size_delta("hello", "hi"), -3);
}

#[test]
fn diagnostic_messages() {
    let p = StringPatchInfo::new(7, "abc".to_string(), "abc".to_string());
    assert_eq!(p.diagnostic_message(), "  • Record 7: No change ('abc', 4 bytes)");
    let p = StringPatchInfo::new(7, "hello".to_string(), "hi".to_string());
    assert_eq!(
        p.diagnostic_message(),
        "  • Record 7: Shortened 'hello' (6 bytes) → 'hi' (3 bytes), Δ=-3 bytes"
    );
    let p = StringPatchInfo::new(7, "hi".to_string(), "hello".to_string());
    assert_eq!(
        p.diagnostic_message(),
        "  • Record 7: Lengthened 'hi' (3 bytes) → 'hello' (6 bytes), Δ=+3 bytes"
    );
    let p = StringPatchInfo::new(7, "abc".to_string(), "xyz".to_string());
    assert_eq!(
        p.diagnostic_message(),
        "  • Record 7: Modified 'abc' → 'xyz' (same size, 4 bytes)"
    );
}
