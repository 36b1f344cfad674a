use invar::release::ReleaseManager;
use invar::version::{
    eq_ignore_ascii_case, Platform, ReleaseArtifact, ReproducibleBuildConfig, SemanticVersion,
};

#[test]
fn test_semver_parse() {
    let v = SemanticVersion::parse("1.2.3").unwrap();
    assert_eq!(v.major, 1);
    assert_eq!(v.minor, 2);
    assert_eq!(v.patch, 3);
}

#[test]
fn test_semver_parse_invalid() {
    assert!(SemanticVersion::parse("1.2").is_err());
    assert!(SemanticVersion::parse("1.2.a").is_err());
}

#[test]
fn test_semver_display() {
    let v = SemanticVersion::new(0, 1, 0);
    assert_eq!(v.to_string(), "0.1.0");
}

#[test]
fn test_semver_bump() {
    let mut v = SemanticVersion::new(0, 1, 0);
    v.bump_patch();
    assert_eq!(v, SemanticVersion::new(0, 1, 1));

    v.bump_minor();
    assert_eq!(v, SemanticVersion::new(0, 2, 0));

    v.bump_major();
    assert_eq!(v, SemanticVersion::new(1, 0, 0));
}

#[test]
fn test_semver_compatibility() {
    let v1 = SemanticVersion::new(1, 2, 3);
    let v2 = SemanticVersion::new(1, 2, 0);
    let v3 = SemanticVersion::new(0, 5, 0);

    assert!(v1.is_compatible_with(v2)); // 1.2.3 >= 1.2.0
    assert!(!v2.is_compatible_with(v1)); // 1.2.0 < 1.2.3
    assert!(!v3.is_compatible_with(v1)); // 0.5.0 < 1.0.0
}

#[test]
fn test_release_artifact_filename() {
    let artifact = ReleaseArtifact::new(
        SemanticVersion::new(0, 1, 0),
        "linux-x86_64".to_string(),
        "abc123".to_string(),
        true,
    );
    assert_eq!(artifact.filename(), "invar-0.1.0-linux-x86_64");
}

#[test]
fn test_release_artifact_verify_checksum() {
    let artifact = ReleaseArtifact::new(
        SemanticVersion::new(0, 1, 0),
        "linux-x86_64".to_string(),
        "ABC123".to_string(),
        true,
    );
    assert!(artifact.verify_checksum("abc123")); // Case-insensitive
    assert!(!artifact.verify_checksum("xyz789"));
}

#[test]
fn test_platform_target_triples() {
    assert_eq!(Platform::LinuxX86_64.target_triple(), "x86_64-unknown-linux-gnu");
    assert_eq!(Platform::MacOSAarch64.target_triple(), "aarch64-apple-darwin");
    assert_eq!(Platform::WindowsX86_64.target_triple(), "x86_64-pc-windows-msvc");
}

#[test]
fn test_platform_all() {
    assert_eq!(Platform::all().len(), 5);
}

#[test]
fn test_manifest_generation() {
    let artifacts = vec![
        ReleaseArtifact::new(
            SemanticVersion::new(0, 1, 0),
            "linux-x86_64".to_string(),
            "abc123".to_string(),
            true,
        ),
        ReleaseArtifact::new(
            SemanticVersion::new(0, 1, 0),
            "darwin-aarch64".to_string(),
            "def456".to_string(),
            true,
        ),
    ];

    let manager = ReleaseManager::new(std::path::PathBuf::from("/tmp"));
    let manifest = manager.generate_manifest(SemanticVersion::new(0, 1, 0), &artifacts);

    assert!(manifest.contains("Invar Release 0.1.0"));
    assert!(manifest.contains("linux-x86_64"));
    assert!(manifest.contains("darwin-aarch64"));
    assert!(manifest.contains("Installation"));
}

#[test]
fn the_manifest_is_written_in_full() {
    let artifacts = vec![ReleaseArtifact::new(
        SemanticVersion::new(1, 20, 3),
        "linux-x86_64".to_string(),
        "abc123".to_string(),
        false,
    )];
    let manager = ReleaseManager::new(std::path::PathBuf::from("/work"));
    assert_eq!(manager.release_dir, std::path::PathBuf::from("/work").join("releases"));
    assert_eq!(
        manager.generate_manifest(SemanticVersion::new(2, 0, 0), &artifacts),
        "# Invar Release 2.0.0\n\n## Artifacts\n\n- invar-1.20.3-linux-x86_64 (abc123)\n\n## \
         Installation\n\n```bash\n# Extract the appropriate archive for your platform:\ntar xzf \
         invar-VERSION-PLATFORM.tar.gz\nsudo mv invar /usr/local/bin/\n```\n\n## \
         Verification\n\nVerify the checksum (replace CHECKSUM):\n```bash\nsha256sum -c \
         invar-CHECKSUM.txt\n```\n"
    );
    assert!(manager
        .generate_manifest(SemanticVersion::new(2, 0, 0), &[])
        .starts_with("# Invar Release 2.0.0\n\n## Artifacts\n\n\n## Installation\n"));
}

#[test]
fn readiness_asks_for_the_lock_file_first() {
    assert_eq!(ReleaseManager::release_readiness(true, true), Ok(()));
    assert_eq!(
        ReleaseManager::release_readiness(false, false),
        Err("Cargo.lock not committed (required for reproducible builds)".to_string())
    );
    assert_eq!(
        ReleaseManager::release_readiness(true, false),
        Err("Cargo.toml not found in workspace root".to_string())
    );
}

#[test]
fn checksum_verdict_names_both_sides() {
    assert_eq!(ReleaseManager::checksum_verdict("ABCdef", "abcDEF"), Ok(()));
    assert_eq!(
        ReleaseManager::checksum_verdict("abc", "abd"),
        Err("Checksum mismatch: expected abc, got abd".to_string())
    );
}

#[test]
fn versions_are_read_strictly() {
    let ok = |s: &str, a, b, c| {
        assert_eq!(SemanticVersion::parse(s), Ok(SemanticVersion::new(a, b, c)), "{}", s)
    };
    ok("0.0.0", 0, 0, 0);
    ok("01.002.0003", 1, 2, 3);
    ok("+1.+2.+3", 1, 2, 3);
    ok("4294967295.0.4294967295", u32::MAX, 0, u32::MAX);
    let bad = |s: &str, m: &str| assert_eq!(SemanticVersion::parse(s), Err(m.to_string()), "{}", s);
    let format = "Invalid version format, expected MAJOR.MINOR.PATCH";
    bad("", format);
    bad("1", format);
    bad("1.2", format);
    bad("1.2.3.4", format);
    bad("1..2.3", format);
    bad("..", "Major version must be a number");
    bad("a.b.c", "Major version must be a number");
    bad("4294967296.0.0", "Major version must be a number");
    bad("-1.0.0", "Major version must be a number");
    bad(" 1.0.0", "Major version must be a number");
    bad("+.0.0", "Major version must be a number");
    bad("1.x.y", "Minor version must be a number");
    bad("1. 2.3", "Minor version must be a number");
    bad("1.99999999999999999999.3", "Minor version must be a number");
    bad("1.2.", "Patch version must be a number");
    bad("1.2.3 ", "Patch version must be a number");
    bad("1.2.3-rc1", "Patch version must be a number");
    bad("1.2.٣", "Patch version must be a number");
}

#[test]
fn compatibility_is_the_order_of_versions() {
    let v = SemanticVersion::new;
    assert!(v(1, 0, 0).is_compatible_with(v(1, 0, 0)));
    assert!(v(2, 0, 0).is_compatible_with(v(1, 9, 9)));
    assert!(!v(1, 9, 9).is_compatible_with(v(2, 0, 0)));
    assert!(v(1, 3, 0).is_compatible_with(v(1, 2, 9)));
    assert!(!v(1, 2, 9).is_compatible_with(v(1, 3, 0)));
    assert!(!v(1, 2, 2).is_compatible_with(v(1, 2, 3)));
    assert!(v(1, 2, 3) > v(1, 2, 2));
}

#[test]
fn checksums_are_compared_without_regard_to_ascii_case() {
    assert!(eq_ignore_ascii_case("", ""));
    assert!(eq_ignore_ascii_case("AbC09z", "aBc09Z"));
    assert!(!eq_ignore_ascii_case("abc", "abcd"));
    assert!(!eq_ignore_ascii_case("a@", "a`"));
    assert!(!eq_ignore_ascii_case("[", "{"));
    assert!(!eq_ignore_ascii_case("é", "É"));
    assert!(eq_ignore_ascii_case("É", "É"));
}

#[test]
fn artifacts_and_platforms_are_written_out() {
    let artifact = ReleaseArtifact::new(
        SemanticVersion::new(10, 0, 7),
        "darwin-aarch64".to_string(),
        "f00d".to_string(),
        true,
    );
    assert_eq!(artifact.to_string(), "invar 10.0.7 (darwin-aarch64) [f00d]");
    let all = Platform::all();
    let suffixes: Vec<&str> = all.iter().map(|p| p.artifact_suffix()).collect();
    assert_eq!(
        suffixes,
        vec!["linux-x86_64", "linux-aarch64", "darwin-x86_64", "darwin-aarch64", "windows-x86_64"]
    );
    assert_eq!(Platform::LinuxAarch64.target_triple(), "aarch64-unknown-linux-gnu");
    assert_eq!(Platform::MacOSX86_64.target_triple(), "x86_64-apple-darwin");
    assert_eq!(Platform::WindowsX86_64.to_string(), "windows-x86_64");
}

#[test]
fn the_build_environment_must_match() {
    let config = ReproducibleBuildConfig::default_release();
    assert!(config.lto && config.opt_level == 3 && !config.strip);
    assert_eq!(config.rust_version, "1.70.0");
    assert_eq!(config.verify_environment("1.70.0"), Ok(()));
    assert_eq!(
        config.verify_environment("1.71.0"),
        Err("Rust version mismatch: expected 1.70.0, got 1.71.0".to_string())
    );
}
