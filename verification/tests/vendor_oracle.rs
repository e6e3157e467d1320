use roast::jvm::vendor::oracle::{
    build_urls, extract_latest_versions, map_release, meta_from_name, replace_with_latest_version,
};
use roast::jvm::vendor::AnchorElement;

#[test]
fn test_meta_from_name() {
    for (actual, expected) in [
        (
            "jdk-17.0.7_linux-aarch64_bin.tar.gz",
            ("aarch64", "tar.gz", "linux", "17.0.7"),
        ),
        ("jdk-21_macos-aarch64_bin.tar.gz", ("aarch64", "tar.gz", "macos", "21")),
        ("jdk-23_windows-x64_bin.zip", ("x64", "zip", "windows", "23")),
    ] {
        let meta = meta_from_name(actual).unwrap();
        assert_eq!(meta.arch, expected.0);
        assert_eq!(meta.ext, expected.1);
        assert_eq!(meta.os, expected.2);
        assert_eq!(meta.version, expected.3);
    }

    for invalid_name in [
        "graalvm-jdk-21_linux-aarch64_bin.tar.gz", // Unexpected graalvm prefix
        "jdk-21.0.4_linux_bin.tar.gz",             // Missing architecture
        "jdk-21.0.4_linux-aarch64.tar.gz",         // Missing '_bin' in name
        "jdk-21.0.4_linux-aarch64_bin.unknown",    // Unsupported extension
        "jdk-21.0.4_unknown-aarch64_bin.tar.gz",   // Unsupported OS
        "jdk-21.0.4_linux-unknown_bin.tar.gz",     // Unsupported architecture
    ] {
        assert!(
            meta_from_name(invalid_name).is_err(),
            "Expected an error for invalid file name: {invalid_name}",
        );
    }
}

#[test]
fn test_replace_with_latest_version() {
    for (actual, expected) in [
        (
            "https://download.oracle.com/java/24/latest/jdk-24_linux-aarch64_bin.tar.gz",
            "https://download.oracle.com/java/24/latest/jdk-24.0.1_linux-aarch64_bin.tar.gz",
        ),
        (
            "https://download.oracle.com/java/21/latest/jdk-21_linux-aarch64_bin.tar.gz",
            "https://download.oracle.com/java/21/latest/jdk-21.0.7_linux-aarch64_bin.tar.gz",
        ),
    ] {
        let mut anchor = AnchorElement {
            href: actual.to_string(),
            name: actual.to_string(),
        };
        let latest_versions = vec!["21.0.7".to_string(), "24.0.1".to_string()];
        replace_with_latest_version(&mut anchor, &latest_versions);
        assert_eq!(anchor.name, expected);
    }
}

#[test]
fn test_extract_latest_versions() {
    let html = r#"
        <html>
            <body>
                <h3 id="java24">Java SE Development Kit 24.0.1 downloads</h3>
                <h3 id="java21">Java SE Development Kit 21.0.7 downloads</h3>
            </body>
        </html>
    "#;
    let versions = extract_latest_versions(html);
    assert_ne!(versions.len(), 0);
    assert!(versions.contains(&"21.0.7".to_string()));
    assert!(versions.contains(&"24.0.1".to_string()));
}

#[test]
fn replace_with_latest_version_no_matching_major() {
    let url = "https://download.oracle.com/java/25/latest/jdk-25_linux-x64_bin.tar.gz";
    let mut anchor = AnchorElement {
        href: url.to_string(),
        name: url.to_string(),
    };
    let latest_versions = vec!["21.0.7".to_string()];
    replace_with_latest_version(&mut anchor, &latest_versions);
    assert_eq!(anchor.name, url);
}

#[test]
fn replace_with_latest_version_ignores_plain_links() {
    let url = "https://download.oracle.com/java/21/archive/jdk-21_linux-x64_bin.tar.gz";
    let mut anchor = AnchorElement {
        href: url.to_string(),
        name: url.to_string(),
    };
    let latest_versions = vec!["21.0.7".to_string()];
    replace_with_latest_version(&mut anchor, &latest_versions);
    assert_eq!(anchor.name, url);
}

#[test]
fn oracle_map_release_builds_full_record() {
    let anchor = AnchorElement {
        href: "https://download.oracle.com/java/17/jdk-17.0.7_linux-x64_bin.tar.gz".to_string(),
        name: "https://download.oracle.com/java/17/jdk-17.0.7_linux-x64_bin.tar.gz".to_string(),
    };
    let sha = Some("abc123  jdk-17.0.7_linux-x64_bin.tar.gz\n".to_string());
    let record = map_release(&anchor, &sha).unwrap();
    assert_eq!(record.vendor, "oracle");
    assert_eq!(record.filename, "jdk-17.0.7_linux-x64_bin.tar.gz");
    assert_eq!(record.os, "linux");
    assert_eq!(record.architecture, "x86_64");
    assert_eq!(record.version, "17.0.7");
    assert_eq!(record.java_version, "17.0.7");
    assert_eq!(record.file_type, "tar.gz");
    assert_eq!(record.image_type, "jdk");
    assert_eq!(record.jvm_impl, "hotspot");
    assert_eq!(record.release_type, "ga");
    assert_eq!(record.checksum, Some("sha256:abc123".to_string()));
    assert_eq!(
        record.checksum_url,
        Some(
            "https://download.oracle.com/java/17/jdk-17.0.7_linux-x64_bin.tar.gz.sha256"
                .to_string()
        )
    );
    assert_eq!(
        record.url,
        "https://download.oracle.com/java/17/jdk-17.0.7_linux-x64_bin.tar.gz"
    );
    assert!(record.features.is_none());
    assert!(record.size.is_none());
}

#[test]
fn map_release_without_checksum_text() {
    let anchor = AnchorElement {
        href: "https://example.invalid/jdk-21_macos-aarch64_bin.dmg".to_string(),
        name: "https://example.invalid/jdk-21_macos-aarch64_bin.dmg".to_string(),
    };
    let record = map_release(&anchor, &None).unwrap();
    assert!(record.checksum.is_none());
    assert!(record.checksum_url.is_none());
    assert_eq!(record.os, "macosx");
    assert_eq!(record.architecture, "aarch64");
}

#[test]
fn map_release_rejects_unparseable_name() {
    let anchor = AnchorElement {
        href: "https://example.invalid/graalvm-jdk-21_linux-x64_bin.tar.gz".to_string(),
        name: "https://example.invalid/graalvm-jdk-21_linux-x64_bin.tar.gz".to_string(),
    };
    assert!(map_release(&anchor, &None).is_err());
}

#[test]
fn build_urls_lists_the_fixed_pages() {
    let urls = build_urls();
    assert_eq!(urls.len(), 8);
    assert_eq!(urls[0], "https://www.oracle.com/java/technologies/downloads/");
    assert_eq!(
        urls[1],
        "https://www.oracle.com/java/technologies/javase/jdk17-archive-downloads.html"
    );
    assert_eq!(
        urls[7],
        "https://www.oracle.com/java/technologies/javase/jdk23-archive-downloads.html"
    );
}
