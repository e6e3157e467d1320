//! Canonicalization tables shared by all source extractors, and the fixed
//! registry of known sources.
//!
//! Each table is a total function over raw vendor tokens: a recognized
//! spelling (matched without regard to ASCII case) is mapped to the one
//! canonical form, and an unrecognized token passes through unchanged, so
//! that a missing table entry degrades precision without failing a record.

use vstd::prelude::*;

use crate::text::{eq_ignore_case, lower_seq, push_char};

pub mod liberica_nik;
pub mod oracle;

verus! {

/// View of one discovered download link.
#[verifier::ext_equal]
pub struct AnchorView {
    pub href: Seq<char>,
    pub name: Seq<char>,
}

/// One download link discovered in a vendor's release listing: the link
/// target and the text naming the artifact.
pub struct AnchorElement {
    pub href: String,
    pub name: String,
}

impl View for AnchorElement {
    type V = AnchorView;

    open spec fn view(&self) -> AnchorView {
        AnchorView { href: self.href@, name: self.name@ }
    }
}

/// True when an `href="` attribute opens at position `i` of the document.
pub open spec fn anchor_starts(s: Seq<char>, i: int) -> bool {
    i + 6 <= s.len() && s.subrange(i, i + 6) == "href=\""@
}

/// The left-to-right scan for download links: at every `href="` attribute
/// with a closing quote, a tag end and a following text node, the link
/// target is paired with that text; the scan resumes after the closing
/// quote, and ends early when an opened attribute never closes.
pub open spec fn scan_anchors(s: Seq<char>, i: int, acc: Seq<AnchorView>) -> Seq<AnchorView>
    decreases s.len() - i,
{
    if i < 0 || i >= s.len() {
        acc
    } else if !anchor_starts(s, i) {
        scan_anchors(s, i + 1, acc)
    } else {
        let close = crate::text::first_from(s, i + 6, '"');
        if close >= s.len() {
            acc
        } else {
            let tag_end = crate::text::first_from(s, close, '>');
            if tag_end >= s.len() {
                acc
            } else {
                let text_end = crate::text::first_from(s, tag_end + 1, '<');
                if text_end >= s.len() {
                    acc
                } else {
                    let a = AnchorView {
                        href: s.subrange(i + 6, close),
                        name: s.subrange(tag_end + 1, text_end),
                    };
                    let next = if i < close + 1 <= s.len() {
                        close + 1
                    } else {
                        i + 1
                    };
                    scan_anchors(s, next, acc.push(a))
                }
            }
        }
    }
}

/// Scans a release page for download links: the left-to-right scan for
/// `href="..."` attributes, pairing each link target with the text that
/// follows the enclosing tag.  The result is exactly what the scan yields,
/// and every href and every name in it occurs in the document.
#[verifier::loop_isolation(false)]
#[verifier::rlimit(100)]
pub fn anchors_from_doc(doc: &str) -> (r: Vec<AnchorElement>)
    ensures
        r@.map_values(|a: AnchorElement| a@) == scan_anchors(doc@, 0, Seq::empty()),
        forall|k: int| 0 <= k < r@.len() ==> crate::text::is_substring(
            doc@,
            (#[trigger] r@[k]).href@,
        ) && crate::text::is_substring(doc@, r@[k].name@),
{
    let ghost s = doc@;
    let n = doc.unicode_len();
    let mut out: Vec<AnchorElement> = Vec::new();
    let mut i: usize = 0;
    proof {
        reveal_strlit("href=\"");
        assert("href=\""@.len() == 6);
        assert(out@.map_values(|a: AnchorElement| a@) =~= Seq::<AnchorView>::empty());
    }
    while i < n
        invariant
            i <= n,
            scan_anchors(s, 0, Seq::empty()) == scan_anchors(
                s,
                i as int,
                out@.map_values(|a: AnchorElement| a@),
            ),
            forall|k: int| 0 <= k < out@.len() ==> crate::text::is_substring(
                doc@,
                (#[trigger] out@[k]).href@,
            ) && crate::text::is_substring(doc@, out@[k].name@),
        decreases n - i,
    {
        let ghost acc = out@.map_values(|a: AnchorElement| a@);
        if !crate::text::match_lit(doc, i, "href=\"") {
            proof {
                assert(!anchor_starts(s, i as int));
            }
            i = i + 1;
            continue ;
        }
        let start = i + 6;
        let close = match crate::text::find_char(doc, start, '"') {
            Some(e) => {
                proof {
                    crate::text::lemma_first_from_pin(s, start as int, e as int, '"');
                }
                e
            },
            None => {
                proof {
                    crate::text::lemma_first_from_pin(s, start as int, s.len() as int, '"');
                    assert(scan_anchors(s, i as int, acc) == acc);
                }
                return out;
            },
        };
        let href = doc.substring_char(start, close).to_owned();
        let tag_end = match crate::text::find_char(doc, close, '>') {
            Some(g) => {
                proof {
                    crate::text::lemma_first_from_pin(s, close as int, g as int, '>');
                }
                g
            },
            None => {
                proof {
                    crate::text::lemma_first_from_pin(s, close as int, s.len() as int, '>');
                    assert(scan_anchors(s, i as int, acc) == acc);
                }
                return out;
            },
        };
        let text_end = match crate::text::find_char(doc, tag_end + 1, '<') {
            Some(h) => {
                proof {
                    crate::text::lemma_first_from_pin(s, tag_end as int + 1, h as int, '<');
                }
                h
            },
            None => {
                proof {
                    crate::text::lemma_first_from_pin(s, tag_end as int + 1, s.len() as int, '<');
                    assert(scan_anchors(s, i as int, acc) == acc);
                }
                return out;
            },
        };
        let name = doc.substring_char(tag_end + 1, text_end).to_owned();
        proof {
            assert(doc@.subrange(start as int, start as int + href@.len()) == href@);
            assert(doc@.subrange(tag_end as int + 1, tag_end as int + 1 + name@.len()) == name@);
        }
        let ghost pushed = AnchorView { href: href@, name: name@ };
        out.push(AnchorElement { href, name });
        proof {
            assert(out@.map_values(|a: AnchorElement| a@) =~= acc.push(pushed));
            assert(scan_anchors(s, i as int, acc) == scan_anchors(
                s,
                close as int + 1,
                acc.push(pushed),
            ));
        }
        i = close + 1;
    }
    proof {
        assert(scan_anchors(s, n as int, out@.map_values(|a: AnchorElement| a@)) == out@.map_values(
            |a: AnchorElement| a@,
        ));
    }
    out
}

/// The names of the registered sources, in registry order.
pub open spec fn registry() -> Seq<Seq<char>> {
    seq!["liberica-nik"@, "oracle"@]
}

/// The fixed registry of known sources, constructed once per run.
pub fn vendor_names() -> (r: Vec<String>)
    ensures
        r.deep_view() == registry(),
{
    let mut v: Vec<String> = Vec::new();
    v.push(String::from_str("liberica-nik"));
    v.push(String::from_str("oracle"));
    proof {
        assert(v.deep_view() =~= registry());
    }
    v
}

/// True when `s` is a spelling of `key`, compared without ASCII case.
pub open spec fn folds_to(s: Seq<char>, key: Seq<char>) -> bool {
    lower_seq(s) == lower_seq(key)
}

/// Canonical operating-system identifier for a raw token.
pub open spec fn canon_os(s: Seq<char>) -> Seq<char> {
    if folds_to(s, "linux"@) {
        "linux"@
    } else if folds_to(s, "linux-musl"@) || folds_to(s, "alpine-linux"@) {
        "alpine-linux"@
    } else if folds_to(s, "mac"@) || folds_to(s, "macos"@) || folds_to(s, "macosx"@)
        || folds_to(s, "osx"@) || folds_to(s, "darwin"@) {
        "macosx"@
    } else if folds_to(s, "win"@) || folds_to(s, "windows"@) {
        "windows"@
    } else if folds_to(s, "aix"@) {
        "aix"@
    } else if folds_to(s, "solaris"@) {
        "solaris"@
    } else {
        s
    }
}

/// Canonical CPU-architecture identifier for a raw token.
pub open spec fn canon_arch(s: Seq<char>) -> Seq<char> {
    if folds_to(s, "x86_64"@) || folds_to(s, "amd64"@) || folds_to(s, "x64"@)
        || folds_to(s, "x86-64"@) {
        "x86_64"@
    } else if folds_to(s, "aarch64"@) || folds_to(s, "arm64"@) {
        "aarch64"@
    } else if folds_to(s, "arm32"@) || folds_to(s, "arm"@) || folds_to(s, "aarch32"@)
        || folds_to(s, "armv7"@) || folds_to(s, "armv7l"@) || folds_to(s, "armhf"@) {
        "arm32"@
    } else if folds_to(s, "x86"@) || folds_to(s, "i386"@) || folds_to(s, "i586"@)
        || folds_to(s, "i686"@) || folds_to(s, "x86_32"@) || folds_to(s, "x86-32"@)
        || folds_to(s, "x32"@) {
        "x86"@
    } else if folds_to(s, "ppc64le"@) {
        "ppc64le"@
    } else if folds_to(s, "ppc64"@) {
        "ppc64"@
    } else if folds_to(s, "s390x"@) {
        "s390x"@
    } else if folds_to(s, "riscv64"@) {
        "riscv64"@
    } else if folds_to(s, "sparcv9"@) {
        "sparcv9"@
    } else {
        s
    }
}

/// Canonical separator for one version character: the build-metadata
/// delimiters `_` and `-` are unified to `+`, everything else is kept.
pub open spec fn canon_version_char(c: char) -> char {
    if c == '_' || c == '-' {
        '+'
    } else {
        c
    }
}

/// Canonical version string: the same version with one separator scheme.
pub open spec fn canon_version(s: Seq<char>) -> Seq<char> {
    s.map_values(|c: char| canon_version_char(c))
}

/// Canonicalization of operating-system tokens is idempotent: running the
/// table on an already-canonical value is a no-op.
pub proof fn lemma_canon_os_idempotent(s: Seq<char>)
    ensures
        canon_os(canon_os(s)) == canon_os(s),
{
    reveal_strlit("linux");
    reveal_strlit("linux-musl");
    reveal_strlit("alpine-linux");
    reveal_strlit("mac");
    reveal_strlit("macos");
    reveal_strlit("macosx");
    reveal_strlit("osx");
    reveal_strlit("darwin");
    reveal_strlit("win");
    reveal_strlit("windows");
    reveal_strlit("aix");
    reveal_strlit("solaris");
    assert(lower_seq("linux"@).len() == 5);
    assert(lower_seq("linux-musl"@).len() == 10);
    assert(lower_seq("alpine-linux"@).len() == 12);
    assert(lower_seq("mac"@).len() == 3);
    assert(lower_seq("macos"@).len() == 5);
    assert(lower_seq("macosx"@).len() == 6);
    assert(lower_seq("osx"@).len() == 3);
    assert(lower_seq("darwin"@).len() == 6);
    assert(lower_seq("win"@).len() == 3);
    assert(lower_seq("windows"@).len() == 7);
    assert(lower_seq("aix"@).len() == 3);
    assert(lower_seq("solaris"@).len() == 7);
    assert(lower_seq("aix"@)[0] == 'a');
    assert(lower_seq("mac"@)[0] == 'm');
    assert(lower_seq("osx"@)[0] == 'o');
    assert(lower_seq("win"@)[0] == 'w');
    assert(lower_seq("solaris"@)[0] == 's');
    assert(lower_seq("windows"@)[0] == 'w');
    assert(!folds_to("alpine-linux"@, "linux"@));
    assert(!folds_to("alpine-linux"@, "linux-musl"@));
    assert(canon_os("linux"@) == "linux"@);
    assert(canon_os("alpine-linux"@) == "alpine-linux"@);
    assert(!folds_to("macosx"@, "linux"@));
    assert(!folds_to("macosx"@, "linux-musl"@));
    assert(!folds_to("macosx"@, "alpine-linux"@));
    assert(canon_os("macosx"@) == "macosx"@);
    assert(canon_os("windows"@) == "windows"@);
    assert(canon_os("aix"@) == "aix"@);
    assert(canon_os("solaris"@) == "solaris"@);
}

/// Canonicalization of architecture tokens is idempotent.
pub proof fn lemma_canon_arch_idempotent(s: Seq<char>)
    ensures
        canon_arch(canon_arch(s)) == canon_arch(s),
{
    reveal_strlit("x86_64");
    reveal_strlit("amd64");
    reveal_strlit("x64");
    reveal_strlit("x86-64");
    reveal_strlit("aarch64");
    reveal_strlit("arm64");
    reveal_strlit("arm32");
    reveal_strlit("arm");
    reveal_strlit("aarch32");
    reveal_strlit("armv7");
    reveal_strlit("armv7l");
    reveal_strlit("armhf");
    reveal_strlit("x86");
    reveal_strlit("i386");
    reveal_strlit("i586");
    reveal_strlit("i686");
    reveal_strlit("x86_32");
    reveal_strlit("x86-32");
    reveal_strlit("x32");
    reveal_strlit("ppc64le");
    reveal_strlit("ppc64");
    reveal_strlit("s390x");
    reveal_strlit("riscv64");
    reveal_strlit("sparcv9");
    assert(lower_seq("x86_64"@).len() == 6);
    assert(lower_seq("amd64"@).len() == 5);
    assert(lower_seq("x64"@).len() == 3);
    assert(lower_seq("x86-64"@).len() == 6);
    assert(lower_seq("aarch64"@).len() == 7);
    assert(lower_seq("arm64"@).len() == 5);
    assert(lower_seq("arm32"@).len() == 5);
    assert(lower_seq("arm"@).len() == 3);
    assert(lower_seq("aarch32"@).len() == 7);
    assert(lower_seq("armv7"@).len() == 5);
    assert(lower_seq("armv7l"@).len() == 6);
    assert(lower_seq("armhf"@).len() == 5);
    assert(lower_seq("x86"@).len() == 3);
    assert(lower_seq("i386"@).len() == 4);
    assert(lower_seq("i586"@).len() == 4);
    assert(lower_seq("i686"@).len() == 4);
    assert(lower_seq("x86_32"@).len() == 6);
    assert(lower_seq("x86-32"@).len() == 6);
    assert(lower_seq("x32"@).len() == 3);
    assert(lower_seq("ppc64le"@).len() == 7);
    assert(lower_seq("ppc64"@).len() == 5);
    assert(lower_seq("s390x"@).len() == 5);
    assert(lower_seq("riscv64"@).len() == 7);
    assert(lower_seq("sparcv9"@).len() == 7);
    assert(lower_seq("arm32"@)[1] == 'r');
    assert(lower_seq("amd64"@)[1] == 'm');
    assert(lower_seq("arm32"@)[3] == '3');
    assert(lower_seq("arm64"@)[3] == '6');
    assert(lower_seq("x86"@)[1] == '8');
    assert(lower_seq("x64"@)[1] == '6');
    assert(lower_seq("x86"@)[0] == 'x');
    assert(lower_seq("arm"@)[0] == 'a');
    assert(lower_seq("ppc64le"@)[0] == 'p');
    assert(lower_seq("aarch64"@)[0] == 'a');
    assert(lower_seq("aarch32"@)[0] == 'a');
    assert(lower_seq("ppc64"@)[0] == 'p');
    assert(lower_seq("armv7"@)[0] == 'a');
    assert(lower_seq("armhf"@)[0] == 'a');
    assert(lower_seq("s390x"@)[0] == 's');
    assert(lower_seq("riscv64"@)[0] == 'r');
    assert(lower_seq("sparcv9"@)[0] == 's');
    assert(canon_arch("x86_64"@) == "x86_64"@);
    assert(!folds_to("aarch64"@, "x86_64"@));
    assert(!folds_to("aarch64"@, "amd64"@));
    assert(!folds_to("aarch64"@, "x64"@));
    assert(!folds_to("aarch64"@, "x86-64"@));
    assert(canon_arch("aarch64"@) == "aarch64"@);
    assert(!folds_to("arm32"@, "x86_64"@));
    assert(!folds_to("arm32"@, "amd64"@));
    assert(!folds_to("arm32"@, "x64"@));
    assert(!folds_to("arm32"@, "x86-64"@));
    assert(!folds_to("arm32"@, "aarch64"@));
    assert(!folds_to("arm32"@, "arm64"@));
    assert(canon_arch("arm32"@) == "arm32"@);
    assert(!folds_to("x86"@, "x86_64"@));
    assert(!folds_to("x86"@, "amd64"@));
    assert(!folds_to("x86"@, "x64"@));
    assert(!folds_to("x86"@, "x86-64"@));
    assert(!folds_to("x86"@, "aarch64"@));
    assert(!folds_to("x86"@, "arm64"@));
    assert(!folds_to("x86"@, "arm32"@));
    assert(!folds_to("x86"@, "arm"@));
    assert(!folds_to("x86"@, "aarch32"@));
    assert(!folds_to("x86"@, "armv7"@));
    assert(!folds_to("x86"@, "armv7l"@));
    assert(!folds_to("x86"@, "armhf"@));
    assert(canon_arch("x86"@) == "x86"@);
    assert(!folds_to("ppc64le"@, "x86_64"@));
    assert(!folds_to("ppc64le"@, "amd64"@));
    assert(!folds_to("ppc64le"@, "x64"@));
    assert(!folds_to("ppc64le"@, "x86-64"@));
    assert(!folds_to("ppc64le"@, "aarch64"@));
    assert(!folds_to("ppc64le"@, "arm64"@));
    assert(!folds_to("ppc64le"@, "arm32"@));
    assert(!folds_to("ppc64le"@, "arm"@));
    assert(!folds_to("ppc64le"@, "aarch32"@));
    assert(!folds_to("ppc64le"@, "armv7"@));
    assert(!folds_to("ppc64le"@, "armv7l"@));
    assert(!folds_to("ppc64le"@, "armhf"@));
    assert(!folds_to("ppc64le"@, "x86"@));
    assert(!folds_to("ppc64le"@, "i386"@));
    assert(!folds_to("ppc64le"@, "i586"@));
    assert(!folds_to("ppc64le"@, "i686"@));
    assert(!folds_to("ppc64le"@, "x86_32"@));
    assert(!folds_to("ppc64le"@, "x86-32"@));
    assert(!folds_to("ppc64le"@, "x32"@));
    assert(canon_arch("ppc64le"@) == "ppc64le"@);
    assert(!folds_to("ppc64"@, "x86_64"@));
    assert(!folds_to("ppc64"@, "amd64"@));
    assert(!folds_to("ppc64"@, "x64"@));
    assert(!folds_to("ppc64"@, "x86-64"@));
    assert(!folds_to("ppc64"@, "aarch64"@));
    assert(!folds_to("ppc64"@, "arm64"@));
    assert(!folds_to("ppc64"@, "arm32"@));
    assert(!folds_to("ppc64"@, "arm"@));
    assert(!folds_to("ppc64"@, "aarch32"@));
    assert(!folds_to("ppc64"@, "armv7"@));
    assert(!folds_to("ppc64"@, "armv7l"@));
    assert(!folds_to("ppc64"@, "armhf"@));
    assert(!folds_to("ppc64"@, "x86"@));
    assert(!folds_to("ppc64"@, "i386"@));
    assert(!folds_to("ppc64"@, "i586"@));
    assert(!folds_to("ppc64"@, "i686"@));
    assert(!folds_to("ppc64"@, "x86_32"@));
    assert(!folds_to("ppc64"@, "x86-32"@));
    assert(!folds_to("ppc64"@, "x32"@));
    assert(!folds_to("ppc64"@, "ppc64le"@));
    assert(canon_arch("ppc64"@) == "ppc64"@);
    assert(!folds_to("s390x"@, "x86_64"@));
    assert(!folds_to("s390x"@, "amd64"@));
    assert(!folds_to("s390x"@, "x64"@));
    assert(!folds_to("s390x"@, "x86-64"@));
    assert(!folds_to("s390x"@, "aarch64"@));
    assert(!folds_to("s390x"@, "arm64"@));
    assert(!folds_to("s390x"@, "arm32"@));
    assert(!folds_to("s390x"@, "arm"@));
    assert(!folds_to("s390x"@, "aarch32"@));
    assert(!folds_to("s390x"@, "armv7"@));
    assert(!folds_to("s390x"@, "armv7l"@));
    assert(!folds_to("s390x"@, "armhf"@));
    assert(!folds_to("s390x"@, "x86"@));
    assert(!folds_to("s390x"@, "i386"@));
    assert(!folds_to("s390x"@, "i586"@));
    assert(!folds_to("s390x"@, "i686"@));
    assert(!folds_to("s390x"@, "x86_32"@));
    assert(!folds_to("s390x"@, "x86-32"@));
    assert(!folds_to("s390x"@, "x32"@));
    assert(!folds_to("s390x"@, "ppc64le"@));
    assert(!folds_to("s390x"@, "ppc64"@));
    assert(canon_arch("s390x"@) == "s390x"@);
    assert(!folds_to("riscv64"@, "x86_64"@));
    assert(!folds_to("riscv64"@, "amd64"@));
    assert(!folds_to("riscv64"@, "x64"@));
    assert(!folds_to("riscv64"@, "x86-64"@));
    assert(!folds_to("riscv64"@, "aarch64"@));
    assert(!folds_to("riscv64"@, "arm64"@));
    assert(!folds_to("riscv64"@, "arm32"@));
    assert(!folds_to("riscv64"@, "arm"@));
    assert(!folds_to("riscv64"@, "aarch32"@));
    assert(!folds_to("riscv64"@, "armv7"@));
    assert(!folds_to("riscv64"@, "armv7l"@));
    assert(!folds_to("riscv64"@, "armhf"@));
    assert(!folds_to("riscv64"@, "x86"@));
    assert(!folds_to("riscv64"@, "i386"@));
    assert(!folds_to("riscv64"@, "i586"@));
    assert(!folds_to("riscv64"@, "i686"@));
    assert(!folds_to("riscv64"@, "x86_32"@));
    assert(!folds_to("riscv64"@, "x86-32"@));
    assert(!folds_to("riscv64"@, "x32"@));
    assert(!folds_to("riscv64"@, "ppc64le"@));
    assert(!folds_to("riscv64"@, "ppc64"@));
    assert(!folds_to("riscv64"@, "s390x"@));
    assert(canon_arch("riscv64"@) == "riscv64"@);
    assert(!folds_to("sparcv9"@, "x86_64"@));
    assert(!folds_to("sparcv9"@, "amd64"@));
    assert(!folds_to("sparcv9"@, "x64"@));
    assert(!folds_to("sparcv9"@, "x86-64"@));
    assert(!folds_to("sparcv9"@, "aarch64"@));
    assert(!folds_to("sparcv9"@, "arm64"@));
    assert(!folds_to("sparcv9"@, "arm32"@));
    assert(!folds_to("sparcv9"@, "arm"@));
    assert(!folds_to("sparcv9"@, "aarch32"@));
    assert(!folds_to("sparcv9"@, "armv7"@));
    assert(!folds_to("sparcv9"@, "armv7l"@));
    assert(!folds_to("sparcv9"@, "armhf"@));
    assert(!folds_to("sparcv9"@, "x86"@));
    assert(!folds_to("sparcv9"@, "i386"@));
    assert(!folds_to("sparcv9"@, "i586"@));
    assert(!folds_to("sparcv9"@, "i686"@));
    assert(!folds_to("sparcv9"@, "x86_32"@));
    assert(!folds_to("sparcv9"@, "x86-32"@));
    assert(!folds_to("sparcv9"@, "x32"@));
    assert(!folds_to("sparcv9"@, "ppc64le"@));
    assert(!folds_to("sparcv9"@, "ppc64"@));
    assert(!folds_to("sparcv9"@, "s390x"@));
    assert(!folds_to("sparcv9"@, "riscv64"@));
    assert(canon_arch("sparcv9"@) == "sparcv9"@);
}

/// Canonicalization of version strings is idempotent: once the separators
/// are unified, rewriting again changes nothing.
pub proof fn lemma_canon_version_idempotent(s: Seq<char>)
    ensures
        canon_version(canon_version(s)) == canon_version(s),
{
    assert(canon_version(canon_version(s)) =~= canon_version(s));
}

/// Maps a raw operating-system token to its canonical identifier.
pub fn normalize_os(raw: &str) -> (r: String)
    ensures
        r@ == canon_os(raw@),
{
    if eq_ignore_case(raw, "linux") {
        String::from_str("linux")
    } else if eq_ignore_case(raw, "linux-musl") || eq_ignore_case(raw, "alpine-linux") {
        String::from_str("alpine-linux")
    } else if eq_ignore_case(raw, "mac") || eq_ignore_case(raw, "macos")
        || eq_ignore_case(raw, "macosx") || eq_ignore_case(raw, "osx")
        || eq_ignore_case(raw, "darwin") {
        String::from_str("macosx")
    } else if eq_ignore_case(raw, "win") || eq_ignore_case(raw, "windows") {
        String::from_str("windows")
    } else if eq_ignore_case(raw, "aix") {
        String::from_str("aix")
    } else if eq_ignore_case(raw, "solaris") {
        String::from_str("solaris")
    } else {
        raw.to_owned()
    }
}

/// Maps a raw CPU-architecture token to its canonical identifier.
pub fn normalize_architecture(raw: &str) -> (r: String)
    ensures
        r@ == canon_arch(raw@),
{
    if eq_ignore_case(raw, "x86_64") || eq_ignore_case(raw, "amd64")
        || eq_ignore_case(raw, "x64") || eq_ignore_case(raw, "x86-64") {
        String::from_str("x86_64")
    } else if eq_ignore_case(raw, "aarch64") || eq_ignore_case(raw, "arm64") {
        String::from_str("aarch64")
    } else if eq_ignore_case(raw, "arm32") || eq_ignore_case(raw, "arm")
        || eq_ignore_case(raw, "aarch32") || eq_ignore_case(raw, "armv7")
        || eq_ignore_case(raw, "armv7l") || eq_ignore_case(raw, "armhf") {
        String::from_str("arm32")
    } else if eq_ignore_case(raw, "x86") || eq_ignore_case(raw, "i386")
        || eq_ignore_case(raw, "i586") || eq_ignore_case(raw, "i686")
        || eq_ignore_case(raw, "x86_32") || eq_ignore_case(raw, "x86-32")
        || eq_ignore_case(raw, "x32") {
        String::from_str("x86")
    } else if eq_ignore_case(raw, "ppc64le") {
        String::from_str("ppc64le")
    } else if eq_ignore_case(raw, "ppc64") {
        String::from_str("ppc64")
    } else if eq_ignore_case(raw, "s390x") {
        String::from_str("s390x")
    } else if eq_ignore_case(raw, "riscv64") {
        String::from_str("riscv64")
    } else if eq_ignore_case(raw, "sparcv9") {
        String::from_str("sparcv9")
    } else {
        raw.to_owned()
    }
}

/// Rewrites a raw version string into the canonical separator scheme.
pub fn normalize_version(raw: &str) -> (r: String)
    ensures
        r@ == canon_version(raw@),
{
    let n = raw.unicode_len();
    let mut out = String::new();
    let mut i: usize = 0;
    while i < n
        invariant
            n == raw@.len(),
            i <= n,
            out@ == canon_version(raw@.subrange(0, i as int)),
        decreases n - i,
    {
        let c = raw.get_char(i);
        let d = if c == '_' || c == '-' {
            '+'
        } else {
            c
        };
        push_char(&mut out, d);
        proof {
            assert(canon_version(raw@.subrange(0, i as int + 1)) =~= canon_version(
                raw@.subrange(0, i as int),
            ).push(canon_version_char(raw@[i as int])));
        }
        i = i + 1;
    }
    proof {
        assert(raw@.subrange(0, n as int) =~= raw@);
    }
    out
}

} // verus!
