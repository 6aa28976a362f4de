use jitstreamer_eb::version::version_ok;

fn accepted(text: &str) -> bool {
    version_ok(&text.as_bytes().to_vec(), &vec![0, 2, 0])
}

#[test]
fn matching_version_is_accepted() {
    assert!(accepted("0.2.0"));
}

#[test]
fn newer_patch_and_minor_are_accepted() {
    assert!(accepted("0.2.5"));
    assert!(accepted("0.3.0"));
}

#[test]
fn older_minor_is_rejected() {
    assert!(!accepted("0.1.9"));
}

#[test]
fn each_component_is_compared_on_its_own() {
    // The check compares component by component, so a larger major does not
    // excuse a smaller minor.
    assert!(!accepted("1.0.0"));
}

#[test]
fn missing_components_count_as_zero() {
    assert!(accepted("0.2"));
    assert!(!accepted("0"));
    assert!(!accepted(""));
}

#[test]
fn extra_components_are_ignored() {
    assert!(accepted("0.2.0.9"));
}

#[test]
fn unreadable_components_count_as_zero() {
    assert!(!accepted("0.two.0"));
    assert!(!accepted("garbage"));
    assert!(!accepted("0.-2.0"));
    assert!(!accepted("0.2 .0"));
}

#[test]
fn leading_plus_and_zeros_parse_like_the_standard_library() {
    assert!(accepted("0.+2.0"));
    assert!(accepted("0.02.0"));
}

#[test]
fn overflowing_components_count_as_zero() {
    assert!(!accepted("0.256.0"));
    assert!(accepted("0.255.0"));
}

#[test]
fn empty_requirement_accepts_anything() {
    assert!(version_ok(&b"whatever".to_vec(), &Vec::new()));
}
