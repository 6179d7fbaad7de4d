use castscreen::version::is_newer_version;

#[test]
fn test_version_comparison() {
    assert!(is_newer_version("0.2.0", "v0.2.1"));
    assert!(is_newer_version("0.2.0", "0.3.0"));
    assert!(is_newer_version("0.2.0", "1.0.0"));
    assert!(is_newer_version("0.2.0", "v0.2.0.1"));
    assert!(is_newer_version("0.2", "0.2.1"));
    assert!(is_newer_version("0.2.0.0", "v0.2.0.1"));

    assert!(!is_newer_version("0.2.0", "v0.2.0"));
    assert!(!is_newer_version("0.2.0", "0.2"));
    assert!(!is_newer_version("0.2.0", "v0.2.0.0"));
    assert!(!is_newer_version("0.2.1", "0.2.0"));
    assert!(!is_newer_version("1.0.0", "0.9.9"));
}

#[test]
fn newer_is_strict_in_both_directions() {
    let pairs = [("0.2.0", "0.2.1"), ("1.0", "1.0.0"), ("v2", "1.9.9"), ("", "0.0.1")];
    for (a, b) in pairs {
        assert!(!(is_newer_version(a, b) && is_newer_version(b, a)));
        assert!(!is_newer_version(a, a));
    }
}

#[test]
fn version_text_is_trimmed_and_prefixed_loosely() {
    assert!(is_newer_version("  V0.1 ", " v0.2\n"));
    assert!(is_newer_version("0.2.0", "0.10.0"));
    // Components with no leading digits are skipped: "x" does not count.
    assert!(!is_newer_version("1.2", "1.x.2"));
    assert!(is_newer_version("1.2", "1.3beta"));
    // A component too large for 32 bits is skipped too.
    assert!(!is_newer_version("1.0", "1.99999999999"));
}

#[test]
fn newer_is_transitive_across_padding_and_prefixes() {
    let chain = ["0.2", "v0.2.0.1", " 0.2.1 ", "V0.10", "1"];
    for i in 0..chain.len() {
        for j in i + 1..chain.len() {
            assert!(is_newer_version(chain[i], chain[j]));
            assert!(!is_newer_version(chain[j], chain[i]));
        }
    }
}
