//! Extractor for the Liberica Native Image Kit release API.
//!
//! Artifact names follow the convention
//! `bellsoft-liberica-vm[-core|-full]-openjdk<java>-<version>[-ea]-<os>-<arch>[-musl].<ext>`:
//! after the fixed prefix and the optional variant marker, the name splits
//! at dashes into the bundled runtime version, the vendor version, an
//! optional early-access marker, the operating system and the architecture,
//! with an optional libc marker folded into the last segment and an archive
//! extension after the first dot of that segment.

use vstd::prelude::*;

use crate::jvm::vendor::{canon_arch, canon_os, canon_version, normalize_architecture, normalize_os, normalize_version};
use crate::jvm::{JvmData, JvmDataView, ParseFailure};
use crate::text::{
    contains_sub, find_char, first_of, is_substring, lemma_first_of, match_lit, split_on,
    split_str, str_eq,
};

verus! {

/// Parts read out of one artifact file name, still in the vendor's raw
/// spelling.
pub struct FileNameMeta {
    pub arch: String,
    pub ext: String,
    pub java_version: String,
    pub os: String,
    pub version: String,
}

/// The same parts as plain sequences, for specifications.
pub struct NameParts {
    pub arch: Seq<char>,
    pub ext: Seq<char>,
    pub java_version: Seq<char>,
    pub os: Seq<char>,
    pub version: Seq<char>,
}

/// Archive extensions the convention admits.
pub open spec fn lib_ext_ok(e: Seq<char>) -> bool {
    e == "apk"@ || e == "deb"@ || e == "dmg"@ || e == "msi"@ || e == "pkg"@ || e == "rpm"@ || e
        == "tar.gz"@ || e == "zip"@
}

/// The name after the fixed prefix and the optional variant marker, when
/// the name carries them.
pub open spec fn strip_prefix(s: Seq<char>) -> Option<Seq<char>> {
    if s.len() >= 33 && s.subrange(0, 33) == "bellsoft-liberica-vm-core-openjdk"@ {
        Some(s.skip(33))
    } else if s.len() >= 33 && s.subrange(0, 33) == "bellsoft-liberica-vm-full-openjdk"@ {
        Some(s.skip(33))
    } else if s.len() >= 28 && s.subrange(0, 28) == "bellsoft-liberica-vm-openjdk"@ {
        Some(s.skip(28))
    } else {
        None
    }
}

/// Splits the last dash segment at its first dot into the token before it
/// and the extension after it.
pub open spec fn dot_split(tail: Seq<char>) -> Option<(Seq<char>, Seq<char>)> {
    let i = first_of(tail, '.');
    if 0 <= i < tail.len() {
        Some((tail.subrange(0, i), tail.skip(i + 1)))
    } else {
        None
    }
}

/// Assembles the parts out of the dash segments once the shape of the
/// segment list is known: `tail` is the last segment, holding the
/// architecture (or the libc marker, which `musl_arch` carries instead)
/// and the extension.
pub open spec fn finish(
    java: Seq<char>,
    version: Seq<char>,
    os: Seq<char>,
    musl_arch: Option<Seq<char>>,
    tail: Seq<char>,
) -> Option<NameParts> {
    match dot_split(tail) {
        Some((head, e)) => if !lib_ext_ok(e) {
            None
        } else {
            match musl_arch {
                Some(a) => if head == "musl"@ {
                    Some(NameParts { arch: a, ext: e, java_version: java, os, version })
                } else {
                    None
                },
                None => Some(NameParts { arch: head, ext: e, java_version: java, os, version }),
            }
        },
        None => None,
    }
}

/// The naming convention: what one artifact name parses to, if anything.
pub open spec fn lib_parse(s: Seq<char>) -> Option<NameParts> {
    match strip_prefix(s) {
        Some(rest) => {
            let parts = split_on(rest, '-');
            if parts.len() == 4 {
                finish(parts[0], parts[1], parts[2], None, parts[3])
            } else if parts.len() == 5 && parts[2] == "ea"@ {
                finish(parts[0], parts[1], parts[3], None, parts[4])
            } else if parts.len() == 5 {
                finish(parts[0], parts[1], parts[2], Some(parts[3]), parts[4])
            } else if parts.len() == 6 && parts[2] == "ea"@ {
                finish(parts[0], parts[1], parts[3], Some(parts[4]), parts[5])
            } else {
                None
            }
        },
        None => None,
    }
}

/// Checks the last dash segment and builds the result.
#[verifier::loop_isolation(false)]
fn finish_exec(
    java: String,
    version: String,
    os: String,
    musl_arch: Option<String>,
    tail: String,
    failing: &str,
) -> (r: Result<FileNameMeta, ParseFailure>)
    ensures
        match r {
            Ok(m) => finish(
                java@,
                version@,
                os@,
                match musl_arch {
                    Some(a) => Some(a@),
                    None => None,
                },
                tail@,
            ) == Some(
                NameParts {
                    arch: m.arch@,
                    ext: m.ext@,
                    java_version: m.java_version@,
                    os: m.os@,
                    version: m.version@,
                },
            ),
            Err(e) => finish(
                java@,
                version@,
                os@,
                match musl_arch {
                    Some(a) => Some(a@),
                    None => None,
                },
                tail@,
            ) is None && e.name@ == failing@,
        },
{
    proof {
        lemma_first_of(tail@, '.');
    }
    let tn = tail.unicode_len();
    let dot = match find_char(tail.as_str(), 0, '.') {
        Some(i) => i,
        None => {
            return Err(ParseFailure { name: failing.to_owned() });
        },
    };
    proof {
        assert(first_of(tail@, '.') == dot as int);
    }
    let head = tail.as_str().substring_char(0, dot).to_owned();
    let ext = tail.as_str().substring_char(dot + 1, tn).to_owned();
    proof {
        assert(head@ == tail@.subrange(0, dot as int));
        assert(ext@ =~= tail@.skip(dot as int + 1));
    }
    let ext_good = str_eq(ext.as_str(), "apk") || str_eq(ext.as_str(), "deb") || str_eq(
        ext.as_str(),
        "dmg",
    ) || str_eq(ext.as_str(), "msi") || str_eq(ext.as_str(), "pkg") || str_eq(ext.as_str(), "rpm")
        || str_eq(ext.as_str(), "tar.gz") || str_eq(ext.as_str(), "zip");
    if !ext_good {
        return Err(ParseFailure { name: failing.to_owned() });
    }
    match musl_arch {
        Some(a) => {
            if str_eq(head.as_str(), "musl") {
                Ok(FileNameMeta { arch: a, ext, java_version: java, os, version })
            } else {
                Err(ParseFailure { name: failing.to_owned() })
            }
        },
        None => Ok(FileNameMeta { arch: head, ext, java_version: java, os, version }),
    }
}

/// Parses one artifact file name against the naming convention.  The call
/// succeeds exactly when the name matches the convention, and then returns
/// the five components; otherwise the name is reported back unchanged.
pub fn meta_from_name(name: &str) -> (r: Result<FileNameMeta, ParseFailure>)
    ensures
        match r {
            Ok(m) => lib_parse(name@) == Some(
                NameParts {
                    arch: m.arch@,
                    ext: m.ext@,
                    java_version: m.java_version@,
                    os: m.os@,
                    version: m.version@,
                },
            ),
            Err(e) => lib_parse(name@) is None && e.name@ == name@,
        },
        r is Ok <==> lib_parse(name@) is Some,
{
    let ghost s = name@;
    let n = name.unicode_len();
    proof {
        reveal_strlit("bellsoft-liberica-vm-core-openjdk");
        reveal_strlit("bellsoft-liberica-vm-full-openjdk");
        reveal_strlit("bellsoft-liberica-vm-openjdk");
        assert("bellsoft-liberica-vm-core-openjdk"@.len() == 33);
        assert("bellsoft-liberica-vm-full-openjdk"@.len() == 33);
        assert("bellsoft-liberica-vm-openjdk"@.len() == 28);
    }
    let rest_start: usize = if match_lit(name, 0, "bellsoft-liberica-vm-core-openjdk") {
        33
    } else if match_lit(name, 0, "bellsoft-liberica-vm-full-openjdk") {
        33
    } else if match_lit(name, 0, "bellsoft-liberica-vm-openjdk") {
        28
    } else {
        proof {
            assert(strip_prefix(s) is None);
        }
        return Err(ParseFailure { name: name.to_owned() });
    };
    let ghost rest = strip_prefix(s).unwrap();
    proof {
        assert(rest =~= s.skip(rest_start as int));
    }
    let rest_str = name.substring_char(rest_start, n);
    proof {
        assert(rest_str@ =~= s.skip(rest_start as int));
    }
    let parts = split_str(rest_str, '-');
    proof {
        assert(parts.deep_view() == split_on(rest, '-'));
    }
    let ghost pv = parts.deep_view();
    if parts.len() == 4 {
        let java = parts[0].clone();
        let version = parts[1].clone();
        let os = parts[2].clone();
        let tail = parts[3].clone();
        finish_exec(java, version, os, None, tail, name)
    } else if parts.len() == 5 {
        if str_eq(parts[2].as_str(), "ea") {
            let java = parts[0].clone();
            let version = parts[1].clone();
            let os = parts[3].clone();
            let tail = parts[4].clone();
            finish_exec(java, version, os, None, tail, name)
        } else {
            let java = parts[0].clone();
            let version = parts[1].clone();
            let os = parts[2].clone();
            let arch = parts[3].clone();
            let tail = parts[4].clone();
            finish_exec(java, version, os, Some(arch), tail, name)
        }
    } else if parts.len() == 6 {
        if str_eq(parts[2].as_str(), "ea") {
            let java = parts[0].clone();
            let version = parts[1].clone();
            let os = parts[3].clone();
            let arch = parts[4].clone();
            let tail = parts[5].clone();
            finish_exec(java, version, os, Some(arch), tail, name)
        } else {
            Err(ParseFailure { name: name.to_owned() })
        }
    } else {
        Err(ParseFailure { name: name.to_owned() })
    }
}

/// One release entry as the vendor's API reports it, already decoded into
/// plain values.
pub struct Release {
    pub architecture: String,
    pub bundle_type: String,
    pub download_url: String,
    pub filename: String,
    pub ga: bool,
    pub os: String,
    pub package_type: String,
    pub sha1: String,
    pub size: u64,
    pub version: String,
}

/// Which entries this source keeps: source bundles are dropped, and only
/// the core bundles are crawled.
pub open spec fn lib_keep(rel: Release) -> bool {
    !is_substring(rel.filename@, "-src"@) && is_substring(rel.filename@, "-core-"@)
}

/// The record one kept entry yields, when its file name parses.
pub open spec fn lib_record(rel: Release) -> Option<JvmDataView> {
    match lib_parse(rel.filename@) {
        Some(p) => Some(
            JvmDataView {
                architecture: canon_arch(p.arch),
                checksum: Some("sha1:"@ + rel.sha1@),
                checksum_url: None,
                features: if is_substring(rel.filename@, "-musl"@) {
                    Some(seq!["musl"@])
                } else {
                    None
                },
                file_type: rel.package_type@,
                filename: rel.filename@,
                image_type: "jdk"@,
                java_version: canon_version(p.java_version),
                jvm_impl: "graalvm"@,
                os: canon_os(rel.os@),
                release_type: if rel.ga {
                    "ga"@
                } else {
                    "ea"@
                },
                size: Some(rel.size as i32),
                url: rel.download_url@,
                vendor: "liberica-nik"@,
                version: canon_version(p.version),
            },
        ),
        None => None,
    }
}

/// Decides whether one entry is kept at all.
pub fn keep_release(rel: &Release) -> (r: bool)
    ensures
        r == lib_keep(*rel),
{
    !contains_sub(rel.filename.as_str(), "-src") && contains_sub(rel.filename.as_str(), "-core-")
}

/// Builds one canonical record from one API entry.  The call fails exactly
/// when the entry's file name does not match the naming convention.
pub fn map_release(release: &Release) -> (r: Result<JvmData, ParseFailure>)
    ensures
        match r {
            Ok(d) => lib_record(*release) == Some(d@) && crate::jvm::features_wf(d@),
            Err(e) => lib_record(*release) is None && e.name@ == release.filename@,
        },
        r is Ok <==> lib_record(*release) is Some,
{
    let meta = match meta_from_name(release.filename.as_str()) {
        Ok(m) => m,
        Err(e) => {
            return Err(e);
        },
    };
    let features: Option<Vec<String>> = if contains_sub(release.filename.as_str(), "-musl") {
        Some(vec![String::from_str("musl")])
    } else {
        None
    };
    let size: i32 = #[verifier::truncate] (release.size as i32);
    let release_type = if release.ga {
        String::from_str("ga")
    } else {
        String::from_str("ea")
    };
    let d = JvmData {
        architecture: normalize_architecture(meta.arch.as_str()),
        checksum: Some(String::from_str("sha1:").concat(release.sha1.as_str())),
        checksum_url: None,
        features,
        file_type: release.package_type.clone(),
        filename: release.filename.clone(),
        image_type: String::from_str("jdk"),
        java_version: normalize_version(meta.java_version.as_str()),
        jvm_impl: String::from_str("graalvm"),
        os: normalize_os(release.os.as_str()),
        release_type,
        size: Some(size),
        url: release.download_url.clone(),
        vendor: String::from_str("liberica-nik"),
        version: normalize_version(meta.version.as_str()),
    };
    proof {
        if is_substring(release.filename@, "-musl"@) {
            assert(crate::jvm::features_view(d.features) == Some(seq!["musl"@])) by {
                assert(d.features.unwrap().deep_view() =~= seq!["musl"@]);
            }
            assert(seq!["musl"@][0] == crate::text::lower_seq("musl"@)) by {
                reveal_strlit("musl");
                assert(crate::text::lower_seq("musl"@) =~= "musl"@);
            }
        }
        assert(lib_record(*release) == Some(d@)) by {
            assert(lib_record(*release).unwrap() =~= d@);
        }
    }
    Ok(d)
}

/// What a whole listing of API entries yields: each kept, parseable entry
/// contributes its record, in listing order.
pub open spec fn lib_extract(rs: Seq<Release>) -> Seq<JvmDataView>
    decreases rs.len(),
{
    if rs.len() == 0 {
        Seq::empty()
    } else {
        lib_extract(rs.drop_last()) + (if lib_keep(rs.last()) {
            match lib_record(rs.last()) {
                Some(v) => seq![v],
                None => Seq::<JvmDataView>::empty(),
            }
        } else {
            Seq::<JvmDataView>::empty()
        })
    }
}

/// Turns a whole API listing into records, keeping only core bundles and
/// dropping entries whose names fail to parse.
#[verifier::loop_isolation(false)]
pub fn extract(releases: &Vec<Release>) -> (out: Vec<JvmData>)
    ensures
        out@.map_values(|d: JvmData| d@) == lib_extract(releases@),
{
    let mut out: Vec<JvmData> = Vec::new();
    let n = releases.len();
    let mut i: usize = 0;
    proof {
        assert(releases@.take(0) =~= Seq::<Release>::empty());
        assert(out@.map_values(|d: JvmData| d@) =~= lib_extract(releases@.take(0)));
    }
    while i < n
        invariant
            i <= n,
            out@.map_values(|d: JvmData| d@) == lib_extract(releases@.take(i as int)),
        decreases n - i,
    {
        let ghost prefix = releases@.take(i as int);
        proof {
            assert(releases@.take(i as int + 1).drop_last() =~= prefix);
            assert(releases@.take(i as int + 1).last() == releases@[i as int]);
        }
        if keep_release(&releases[i]) {
            match map_release(&releases[i]) {
                Ok(d) => {
                    let ghost old_map = out@.map_values(|x: JvmData| x@);
                    let ghost dv = d@;
                    out.push(d);
                    proof {
                        assert(out@.map_values(|x: JvmData| x@) =~= old_map.push(dv));
                        assert(old_map.push(dv) =~= lib_extract(releases@.take(i as int + 1)));
                    }
                },
                Err(_) => {
                    proof {
                        assert(lib_extract(releases@.take(i as int + 1)) =~= lib_extract(prefix));
                    }
                },
            }
        } else {
            proof {
                assert(lib_extract(releases@.take(i as int + 1)) =~= lib_extract(prefix));
            }
        }
        i = i + 1;
    }
    proof {
        assert(releases@.take(n as int) =~= releases@);
    }
    out
}

} // verus!
