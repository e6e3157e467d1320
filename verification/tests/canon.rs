use roast::jvm::vendor::{normalize_architecture, normalize_os, normalize_version};

#[test]
fn normalize_os_maps_known_spellings() {
    assert_eq!(normalize_os("macos"), "macosx");
    assert_eq!(normalize_os("osx"), "macosx");
    assert_eq!(normalize_os("darwin"), "macosx");
    assert_eq!(normalize_os("win"), "windows");
    assert_eq!(normalize_os("linux"), "linux");
    assert_eq!(normalize_os("linux-musl"), "alpine-linux");
}

#[test]
fn normalize_os_is_case_insensitive() {
    assert_eq!(normalize_os("Linux"), "linux");
    assert_eq!(normalize_os("MacOS"), "macosx");
    assert_eq!(normalize_os("WINDOWS"), "windows");
}

#[test]
fn normalize_os_passes_unknown_tokens_through() {
    assert_eq!(normalize_os("plan9"), "plan9");
    assert_eq!(normalize_os(""), "");
}

#[test]
fn normalize_architecture_maps_known_spellings() {
    assert_eq!(normalize_architecture("amd64"), "x86_64");
    assert_eq!(normalize_architecture("x64"), "x86_64");
    assert_eq!(normalize_architecture("arm64"), "aarch64");
    assert_eq!(normalize_architecture("armv7"), "arm32");
    assert_eq!(normalize_architecture("i586"), "x86");
    assert_eq!(normalize_architecture("ppc64le"), "ppc64le");
    assert_eq!(normalize_architecture("vax"), "vax");
}

#[test]
fn normalize_version_unifies_separators() {
    assert_eq!(normalize_version("17.0.7"), "17.0.7");
    assert_eq!(normalize_version("17.0.7_8"), "17.0.7+8");
    assert_eq!(normalize_version("22.3.0-1"), "22.3.0+1");
    assert_eq!(normalize_version("1_2-3"), "1+2+3");
}

#[test]
fn normalization_is_idempotent_on_samples() {
    for raw in ["macos", "Linux", "plan9", "linux-musl", ""] {
        let once = normalize_os(raw);
        assert_eq!(normalize_os(&once), once);
    }
    for raw in ["amd64", "ARM64", "vax", "x86-64"] {
        let once = normalize_architecture(raw);
        assert_eq!(normalize_architecture(&once), once);
    }
    for raw in ["17.0.7_8", "22.3.0-1", "9"] {
        let once = normalize_version(raw);
        assert_eq!(normalize_version(&once), once);
    }
}
