use chimera::binary_patch::{BinaryPatchConfig, BinaryPatcher, PatchPattern};

#[test]
fn test_pattern_matching() {
    // The replacement is longer than the original; under the equal-length
    // invariant the patcher refuses it, leaving the data untouched.
    let mut data = b"webdriver test".to_vec();
    let pattern = PatchPattern {
        original: b"webdriver".to_vec(),
        replacement: b"__chimera__".to_vec(),
        description: "Test pattern".to_string(),
    };

    let patcher = BinaryPatcher::new(BinaryPatchConfig::default());
    let replacements = patcher.apply_pattern(&mut data, &pattern).unwrap();

    assert_eq!(replacements, 0);
    assert_ne!(data, b"__chimera__ test".to_vec());
    assert_eq!(data, b"webdriver test".to_vec());
}

#[test]
fn equal_length_pattern_is_applied() {
    let mut data = b"xxHeadlessyyHeadlesszz".to_vec();
    let pattern = PatchPattern {
        original: b"Headless".to_vec(),
        replacement: b"Standard".to_vec(),
        description: "swap".to_string(),
    };
    let patcher = BinaryPatcher::new(BinaryPatchConfig::default());
    let before = data.len();
    let replacements = patcher.apply_pattern(&mut data, &pattern).unwrap();
    assert_eq!(replacements, 2);
    assert_eq!(data, b"xxStandardyyStandardzz".to_vec());
    assert_eq!(data.len(), before);
}

#[test]
fn patch_never_changes_size() {
    let mut data = b"webdriver and Headless and CDP and AutomationControlled".to_vec();
    let before = data.len();
    let patcher = BinaryPatcher::new(BinaryPatchConfig::default());
    let total = patcher.patch_bytes(&mut data).unwrap();
    assert_eq!(data.len(), before);
    // only the two equal-length patterns apply; the others are skipped
    assert_eq!(total, 2);
    assert_eq!(
        data,
        b"webdriver and Standard and PRO and AutomationControlled".to_vec()
    );
}

#[test]
fn all_patterns_declares_the_known_set() {
    let ps = PatchPattern::all_patterns();
    assert_eq!(ps.len(), 4);
    assert_eq!(ps[0].original, b"webdriver".to_vec());
    assert_eq!(ps[0].replacement, b"__chimera_internal__".to_vec());
    assert_eq!(ps[1].original, b"Headless".to_vec());
    assert_eq!(ps[1].replacement, b"Standard".to_vec());
    assert_eq!(ps[2].original, b"CDP".to_vec());
    assert_eq!(ps[2].replacement, b"PRO".to_vec());
    assert_eq!(ps[3].original, b"AutomationControlled".to_vec());
    assert_eq!(ps[3].replacement, b"UserControlled".to_vec());
}

#[test]
fn verify_reports_remaining_markers() {
    let patcher = BinaryPatcher::new(BinaryPatchConfig::default());
    let dirty = b"contains Headless still".to_vec();
    assert!(!patcher.verify_bytes(&dirty));
    let clean = b"contains Standard now".to_vec();
    assert!(patcher.verify_bytes(&clean));
}
