use roast::jvm::vendor::liberica_nik::{extract, map_release, meta_from_name, Release};

fn release(filename: &str) -> Release {
    Release {
        architecture: "arm64".to_string(),
        bundle_type: "core".to_string(),
        download_url: format!("https://download.bell-sw.com/vm/{filename}"),
        filename: filename.to_string(),
        ga: true,
        os: "Linux".to_string(),
        package_type: "tar.gz".to_string(),
        sha1: "0123abcd".to_string(),
        size: 12345,
        version: "21.3.1".to_string(),
    }
}

#[test]
fn test_meta_from_name_liberica() {
    for (actual, expected) in [
        (
            "bellsoft-liberica-vm-openjdk17.0.6+10-22.3.1+1-macos-aarch64.zip",
            ("aarch64", "zip", "17.0.6+10", "macos", "22.3.1+1"),
        ),
        (
            "bellsoft-liberica-vm-openjdk24.0.1+11-24.2.1+3-linux-amd64.tar.gz",
            ("amd64", "tar.gz", "24.0.1+11", "linux", "24.2.1+3"),
        ),
        (
            "bellsoft-liberica-vm-core-openjdk11-21.3.1-linux-aarch64-musl.tar.gz",
            ("aarch64", "tar.gz", "11", "linux", "21.3.1"),
        ),
        (
            "bellsoft-liberica-vm-openjdk17.0.5+8-22.3.0+1-ea-macos-amd64.zip",
            ("amd64", "zip", "17.0.5+8", "macos", "22.3.0+1"),
        ),
    ] {
        let meta = meta_from_name(actual).unwrap();
        assert_eq!(meta.arch, expected.0);
        assert_eq!(meta.ext, expected.1);
        assert_eq!(meta.java_version, expected.2);
        assert_eq!(meta.os, expected.3);
        assert_eq!(meta.version, expected.4);
    }
}

#[test]
fn meta_from_name_rejects_malformed_names() {
    for invalid in [
        "bellsoft-liberica-vm-openjdk17.0.6+10-22.3.1+1-macos.zip", // missing a component
        "liberica-vm-openjdk17-21.3.1-linux-amd64.zip",             // wrong prefix
        "bellsoft-liberica-vm-openjdk17-21.3.1-linux-amd64.unknown", // unsupported extension
        "bellsoft-liberica-vm-openjdk17-21.3.1-linux-amd64",        // no extension at all
    ] {
        assert!(
            meta_from_name(invalid).is_err(),
            "Expected an error for invalid file name: {invalid}",
        );
    }
}

#[test]
fn liberica_map_release_builds_full_record() {
    let rel = release("bellsoft-liberica-vm-core-openjdk11-21.3.1-linux-aarch64-musl.tar.gz");
    let record = map_release(&rel).unwrap();
    assert_eq!(record.vendor, "liberica-nik");
    assert_eq!(record.architecture, "aarch64");
    assert_eq!(record.os, "linux");
    assert_eq!(record.java_version, "11");
    assert_eq!(record.version, "21.3.1");
    assert_eq!(record.jvm_impl, "graalvm");
    assert_eq!(record.image_type, "jdk");
    assert_eq!(record.release_type, "ga");
    assert_eq!(record.file_type, "tar.gz");
    assert_eq!(record.checksum, Some("sha1:0123abcd".to_string()));
    assert!(record.checksum_url.is_none());
    assert_eq!(record.features, Some(vec!["musl".to_string()]));
    assert_eq!(record.size, Some(12345));
    assert_eq!(
        record.url,
        "https://download.bell-sw.com/vm/bellsoft-liberica-vm-core-openjdk11-21.3.1-linux-aarch64-musl.tar.gz"
    );
}

#[test]
fn map_release_without_musl_has_no_features() {
    let rel = release("bellsoft-liberica-vm-core-openjdk11-21.3.1-linux-aarch64.tar.gz");
    let record = map_release(&rel).unwrap();
    assert!(record.features.is_none());
}

#[test]
fn map_release_early_access_channel() {
    let mut rel = release("bellsoft-liberica-vm-core-openjdk17.0.5+8-22.3.0+1-ea-macos-amd64.zip");
    rel.ga = false;
    rel.os = "macOS".to_string();
    let record = map_release(&rel).unwrap();
    assert_eq!(record.release_type, "ea");
    assert_eq!(record.os, "macosx");
    assert_eq!(record.architecture, "x86_64");
}

#[test]
fn extract_keeps_only_parseable_core_bundles() {
    let releases = vec![
        release("bellsoft-liberica-vm-core-openjdk11-21.3.1-linux-aarch64-musl.tar.gz"),
        release("bellsoft-liberica-vm-core-openjdk11-21.3.1-src.tar.gz"), // source bundle
        release("bellsoft-liberica-vm-openjdk11-21.3.1-linux-amd64.tar.gz"), // not core
        release("bellsoft-liberica-vm-core-openjdk-nonsense"),            // unparseable
    ];
    let records = extract(&releases);
    assert_eq!(records.len(), 1);
    assert_eq!(records[0].architecture, "aarch64");
    assert_eq!(records[0].features, Some(vec!["musl".to_string()]));
}
