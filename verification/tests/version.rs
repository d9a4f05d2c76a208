use xemanh::version::is_newer_version;

#[test]
fn newer_versions_compare_part_by_part() {
    assert!(is_newer_version("1.2.0", "1.1.9"));
    assert!(is_newer_version("1.10.0", "1.9.9"));
    assert!(is_newer_version("2", "1.99"));
    assert!(!is_newer_version("1.1.9", "1.2.0"));
    assert!(is_newer_version("2.0.0-1", "2.0.0"));
}

#[test]
fn missing_parts_count_as_zero() {
    assert!(!is_newer_version("1.0", "1"));
    assert!(!is_newer_version("1", "1.0.0"));
    assert!(is_newer_version("1.0.1", "1"));
    assert!(!is_newer_version("1", "1.0.1"));
}

#[test]
fn unparsable_versions_are_never_newer() {
    assert!(!is_newer_version("v2.0", "1.0"));
    assert!(!is_newer_version("", "1.0"));
    assert!(!is_newer_version("2..0", "1.0"));
    assert!(!is_newer_version("2.0", "abc"));
    assert!(!is_newer_version("2.0-beta", "1.0"));
    assert!(!is_newer_version("18446744073709551616", "1"));
    assert!(!is_newer_version("-2", "1"));
}

#[test]
fn numbers_parse_as_rust_does() {
    assert!(is_newer_version("+2", "1"));
    assert!(is_newer_version("18446744073709551615", "18446744073709551614"));
    assert!(!is_newer_version("007", "7"));
    assert!(!is_newer_version("+", "0"));
}

#[test]
fn no_version_is_newer_than_itself() {
    for v in ["1.2.3", "0", "10.0-3", "x"] {
        assert!(!is_newer_version(v, v));
    }
}

#[test]
fn newer_is_asymmetric_and_transitive() {
    let vs = ["0.9", "1.0", "1.0.1", "1.2", "2.0-1", "2.0.1"];
    for a in vs {
        for b in vs {
            if is_newer_version(a, b) {
                assert!(!is_newer_version(b, a));
            }
            for c in vs {
                if is_newer_version(a, b) && is_newer_version(b, c) {
                    assert!(is_newer_version(a, c));
                }
            }
        }
    }
}
