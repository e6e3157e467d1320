//! Extractor for the Oracle JDK download pages.
//!
//! Artifact names follow the convention
//! `jdk-<version>_<os>-<arch>_bin.<ext>`: a version of at least two
//! characters drawn from digits, `+` and `.`; an operating-system token out
//! of a fixed set; an architecture token out of a fixed set; and an archive
//! extension out of a fixed set.  A name that does not decompose this way is
//! a recoverable parse failure, never a half-filled record.

use vstd::prelude::*;

use crate::jvm::vendor::{
    canon_arch, canon_os, canon_version, normalize_architecture, normalize_os, normalize_version,
    AnchorElement,
};
use crate::jvm::{JvmData, JvmDataView, ParseFailure};
use crate::text::{
    contains_sub, find_char, first_of, first_token, first_token_str, is_substring, lemma_first_of,
    match_lit, replace_all, replace_all_str, split_on, split_str, str_eq,
};

verus! {

/// Characters allowed inside the version component.
pub open spec fn is_version_char(c: char) -> bool {
    ('0' <= c && c <= '9') || c == '+' || c == '.'
}

/// A well-formed version component: at least two version characters.
pub open spec fn version_ok(v: Seq<char>) -> bool {
    v.len() as int >= 2 && forall|i: int| 0 <= i < v.len() as int ==> is_version_char(#[trigger] v[i])
}

/// Operating-system tokens the convention admits.
pub open spec fn os_ok(os: Seq<char>) -> bool {
    os == "linux"@ || os == "macos"@ || os == "windows"@
}

/// Architecture tokens the convention admits.
pub open spec fn arch_ok(a: Seq<char>) -> bool {
    a == "x64"@ || a == "aarch64"@
}

/// Archive extensions the convention admits.
pub open spec fn ext_ok(e: Seq<char>) -> bool {
    e == "dep"@ || e == "dmg"@ || e == "exe"@ || e == "msi"@ || e == "rpm"@ || e == "tar.gz"@
        || e == "zip"@
}

/// The naming convention itself: `s` splits into the four components with
/// the fixed delimiters in between.
pub open spec fn name_decomp(s: Seq<char>, v: Seq<char>, os: Seq<char>, a: Seq<char>, e: Seq<char>) -> bool {
    &&& s == "jdk-"@ + v + seq!['_'] + os + seq!['-'] + a + "_bin."@ + e
    &&& version_ok(v)
    &&& os_ok(os)
    &&& arch_ok(a)
    &&& ext_ok(e)
}

/// True when `s` matches the convention with some choice of components.
pub open spec fn is_release_name(s: Seq<char>) -> bool {
    exists|v: Seq<char>, os: Seq<char>, a: Seq<char>, e: Seq<char>| name_decomp(s, v, os, a, e)
}

/// Every decomposition fixes the components' positions inside the name;
/// this is what makes the convention unambiguous.
proof fn lemma_decomp_positions(s: Seq<char>, v: Seq<char>, os: Seq<char>, a: Seq<char>, e: Seq<char>)
    requires
        name_decomp(s, v, os, a, e),
    ensures
        s.len() as int == 11 + v.len() as int + os.len() as int + a.len() as int + e.len() as int,
        forall|j: int| 0 <= j < 4 ==> s[j] == "jdk-"@[j] && s[j] != '_',
        forall|j: int| 4 <= j < 4 + v.len() as int ==> s[j] == v[j - 4] && is_version_char(s[j]) && s[j]
            != '_',
        s[4 + v.len() as int] == '_',
        s.subrange(5 + v.len() as int, 5 + v.len() as int + os.len() as int) == os,
        forall|j: int| 5 + v.len() as int <= j < 5 + v.len() as int + os.len() as int ==> s[j] != '-',
        s[5 + v.len() as int + os.len() as int] == '-',
        s.subrange(6 + v.len() as int + os.len() as int, 6 + v.len() as int + os.len() as int + a.len() as int) == a,
        forall|j: int|
            6 + v.len() as int + os.len() as int <= j < 6 + v.len() as int + os.len() as int + a.len() as int ==> s[j] != '_',
        s[6 + v.len() as int + os.len() as int + a.len() as int] == '_',
        s.subrange(
            6 + v.len() as int + os.len() as int + a.len() as int,
            11 + v.len() as int + os.len() as int + a.len() as int,
        ) == "_bin."@,
        s.subrange(11 + v.len() as int + os.len() as int + a.len() as int, s.len() as int) == e,
{
    reveal_strlit("jdk-");
    reveal_strlit("_bin.");
    reveal_strlit("linux");
    reveal_strlit("macos");
    reveal_strlit("windows");
    reveal_strlit("x64");
    reveal_strlit("aarch64");
    assert("jdk-"@.len() as int == 4);
    assert("_bin."@.len() as int == 5);
    let t = "jdk-"@ + v + seq!['_'] + os + seq!['-'] + a + "_bin."@ + e;
    assert(s.len() as int == 11 + v.len() as int + os.len() as int + a.len() as int + e.len() as int);
    assert forall|j: int| 0 <= j < 4 implies s[j] == "jdk-"@[j] && s[j] != '_' by {
        assert(s[j] == t[j]);
    }
    assert forall|j: int| 4 <= j < 4 + v.len() as int implies s[j] == v[j - 4] && is_version_char(s[j])
        && s[j] != '_' by {
        assert(s[j] == t[j]);
        assert(t[j] == v[j - 4]);
    }
    assert(s[4 + v.len() as int] == '_') by {
        assert(t[4 + v.len() as int] == '_');
    }
    assert(s.subrange(5 + v.len() as int, 5 + v.len() as int + os.len() as int) =~= os) by {
        assert forall|j: int| 0 <= j < os.len() as int implies s[5 + v.len() as int + j] == os[j] by {
            assert(t[5 + v.len() as int + j] == os[j]);
        }
    }
    assert forall|j: int| 5 + v.len() as int <= j < 5 + v.len() as int + os.len() as int implies s[j] != '-' by {
        assert(s[j] == os[j - 5 - v.len() as int]);
        assert(forall|i: int| 0 <= i < os.len() as int ==> os[i] != '-');
    }
    assert(s[5 + v.len() as int + os.len() as int] == '-') by {
        assert(t[5 + v.len() as int + os.len() as int] == '-');
    }
    assert(s.subrange(6 + v.len() as int + os.len() as int, 6 + v.len() as int + os.len() as int + a.len() as int) =~= a) by {
        assert forall|j: int| 0 <= j < a.len() as int implies s[6 + v.len() as int + os.len() as int + j] == a[j] by {
            assert(t[6 + v.len() as int + os.len() as int + j] == a[j]);
        }
    }
    assert forall|j: int| 6 + v.len() as int + os.len() as int <= j < 6 + v.len() as int + os.len() as int + a.len() as int implies s[j]
        != '_' by {
        assert(s[j] == a[j - 6 - v.len() as int - os.len() as int]);
        assert(forall|i: int| 0 <= i < a.len() as int ==> a[i] != '_');
    }
    assert(s.subrange(
        6 + v.len() as int + os.len() as int + a.len() as int,
        11 + v.len() as int + os.len() as int + a.len() as int,
    ) =~= "_bin."@) by {
        assert forall|j: int| 0 <= j < 5 implies s[6 + v.len() as int + os.len() as int + a.len() as int + j]
            == "_bin."@[j] by {
            assert(t[6 + v.len() as int + os.len() as int + a.len() as int + j] == "_bin."@[j]);
        }
    }
    assert(s[6 + v.len() as int + os.len() as int + a.len() as int] == '_');
    assert(s.subrange(11 + v.len() as int + os.len() as int + a.len() as int, s.len() as int) =~= e) by {
        assert forall|j: int| 0 <= j < e.len() as int implies s[11 + v.len() as int + os.len() as int + a.len() as int + j]
            == e[j] by {
            assert(t[11 + v.len() as int + os.len() as int + a.len() as int + j] == e[j]);
        }
    }
}

/// Parts read out of one artifact file name, still in the vendor's raw
/// spelling.
pub struct FileNameMeta {
    pub arch: String,
    pub ext: String,
    pub os: String,
    pub version: String,
}

/// Parses one artifact file name against the naming convention.  The call
/// succeeds exactly when the name matches the convention, and then returns
/// the four components; otherwise the name is reported back unchanged.
#[verifier::loop_isolation(false)]
#[verifier::rlimit(80)]
pub fn meta_from_name(name: &str) -> (r: Result<FileNameMeta, ParseFailure>)
    ensures
        match r {
            Ok(m) => name_decomp(name@, m.version@, m.os@, m.arch@, m.ext@),
            Err(e) => !is_release_name(name@) && e.name@ == name@,
        },
        r is Ok <==> is_release_name(name@),
{
    let ghost s = name@;
    let n = name.unicode_len();
    proof {
        reveal_strlit("jdk-");
        reveal_strlit("_bin.");
        assert("jdk-"@.len() == 4);
        assert("_bin."@.len() == 5);
    }
    if !match_lit(name, 0, "jdk-") {
        proof {
            reveal_strlit("jdk-");
            if is_release_name(s) {
                let (v, os, a, e) = choose|v: Seq<char>, os: Seq<char>, a: Seq<char>, e: Seq<char>|
                    name_decomp(s, v, os, a, e);
                lemma_decomp_positions(s, v, os, a, e);
                assert(s.subrange(0, 4) =~= "jdk-"@);
            }
        }
        return Err(ParseFailure { name: name.to_owned() });
    }
    let p1_opt = find_char(name, 4, '_');
    if p1_opt.is_none() {
        proof {
            if is_release_name(s) {
                let (v, os, a, e) = choose|v: Seq<char>, os: Seq<char>, a: Seq<char>, e: Seq<char>|
                    name_decomp(s, v, os, a, e);
                lemma_decomp_positions(s, v, os, a, e);
                assert(s[4 + v.len() as int] == '_');
            }
        }
        return Err(ParseFailure { name: name.to_owned() });
    }
    let p1 = p1_opt.unwrap();
    if p1 < 6 {
        proof {
            if is_release_name(s) {
                let (v, os, a, e) = choose|v: Seq<char>, os: Seq<char>, a: Seq<char>, e: Seq<char>|
                    name_decomp(s, v, os, a, e);
                lemma_decomp_positions(s, v, os, a, e);
                assert(p1 as int == 4 + v.len() as int);
            }
        }
        return Err(ParseFailure { name: name.to_owned() });
    }
    let mut i: usize = 4;
    while i < p1
        invariant
            4 <= i <= p1,
            forall|j: int| 4 <= j < i ==> is_version_char(s[j]),
        decreases p1 - i,
    {
        let c = name.get_char(i);
        if !(('0' <= c && c <= '9') || c == '+' || c == '.') {
            proof {
                if is_release_name(s) {
                    let (v, os, a, e) = choose|
                        v: Seq<char>,
                        os: Seq<char>,
                        a: Seq<char>,
                        e: Seq<char>,
                    | name_decomp(s, v, os, a, e);
                    lemma_decomp_positions(s, v, os, a, e);
                    assert(p1 as int == 4 + v.len() as int);
                    assert(is_version_char(s[i as int]));
                }
            }
            return Err(ParseFailure { name: name.to_owned() });
        }
        i = i + 1;
    }
    let q_opt = find_char(name, p1 + 1, '-');
    if q_opt.is_none() {
        proof {
            if is_release_name(s) {
                let (v, os, a, e) = choose|v: Seq<char>, os: Seq<char>, a: Seq<char>, e: Seq<char>|
                    name_decomp(s, v, os, a, e);
                lemma_decomp_positions(s, v, os, a, e);
                assert(p1 as int == 4 + v.len() as int);
                assert(s[5 + v.len() as int + os.len() as int] == '-');
            }
        }
        return Err(ParseFailure { name: name.to_owned() });
    }
    let q = q_opt.unwrap();
    let os_str = name.substring_char(p1 + 1, q);
    let os_good = crate::text::str_eq(os_str, "linux") || crate::text::str_eq(os_str, "macos")
        || crate::text::str_eq(os_str, "windows");
    if !os_good {
        proof {
            if is_release_name(s) {
                let (v, os, a, e) = choose|v: Seq<char>, os: Seq<char>, a: Seq<char>, e: Seq<char>|
                    name_decomp(s, v, os, a, e);
                lemma_decomp_positions(s, v, os, a, e);
                assert(p1 as int == 4 + v.len() as int);
                assert(q as int == 5 + v.len() as int + os.len() as int);
                assert(os_str@ == os);
            }
        }
        return Err(ParseFailure { name: name.to_owned() });
    }
    let p2_opt = find_char(name, q + 1, '_');
    if p2_opt.is_none() {
        proof {
            if is_release_name(s) {
                let (v, os, a, e) = choose|v: Seq<char>, os: Seq<char>, a: Seq<char>, e: Seq<char>|
                    name_decomp(s, v, os, a, e);
                lemma_decomp_positions(s, v, os, a, e);
                assert(p1 as int == 4 + v.len() as int);
                assert(q as int == 5 + v.len() as int + os.len() as int);
                assert(s[6 + v.len() as int + os.len() as int + a.len() as int] == '_');
            }
        }
        return Err(ParseFailure { name: name.to_owned() });
    }
    let p2 = p2_opt.unwrap();
    let arch_str = name.substring_char(q + 1, p2);
    let arch_good = crate::text::str_eq(arch_str, "x64") || crate::text::str_eq(
        arch_str,
        "aarch64",
    );
    if !arch_good {
        proof {
            if is_release_name(s) {
                let (v, os, a, e) = choose|v: Seq<char>, os: Seq<char>, a: Seq<char>, e: Seq<char>|
                    name_decomp(s, v, os, a, e);
                lemma_decomp_positions(s, v, os, a, e);
                assert(p1 as int == 4 + v.len() as int);
                assert(q as int == 5 + v.len() as int + os.len() as int);
                assert(p2 as int == 6 + v.len() as int + os.len() as int + a.len() as int);
                assert(arch_str@ == a);
            }
        }
        return Err(ParseFailure { name: name.to_owned() });
    }
    if !match_lit(name, p2, "_bin.") {
        proof {
            reveal_strlit("_bin.");
            if is_release_name(s) {
                let (v, os, a, e) = choose|v: Seq<char>, os: Seq<char>, a: Seq<char>, e: Seq<char>|
                    name_decomp(s, v, os, a, e);
                lemma_decomp_positions(s, v, os, a, e);
                assert(p1 as int == 4 + v.len() as int);
                assert(q as int == 5 + v.len() as int + os.len() as int);
                assert(p2 as int == 6 + v.len() as int + os.len() as int + a.len() as int);
                assert(p2 as int + 5 <= s.len() as int);
            }
        }
        return Err(ParseFailure { name: name.to_owned() });
    }
    proof {
        reveal_strlit("_bin.");
    }
    let ext_str = name.substring_char(p2 + 5, n);
    let ext_good = crate::text::str_eq(ext_str, "dep") || crate::text::str_eq(ext_str, "dmg")
        || crate::text::str_eq(ext_str, "exe") || crate::text::str_eq(ext_str, "msi")
        || crate::text::str_eq(ext_str, "rpm") || crate::text::str_eq(ext_str, "tar.gz")
        || crate::text::str_eq(ext_str, "zip");
    if !ext_good {
        proof {
            if is_release_name(s) {
                let (v, os, a, e) = choose|v: Seq<char>, os: Seq<char>, a: Seq<char>, e: Seq<char>|
                    name_decomp(s, v, os, a, e);
                lemma_decomp_positions(s, v, os, a, e);
                assert(p1 as int == 4 + v.len() as int);
                assert(q as int == 5 + v.len() as int + os.len() as int);
                assert(p2 as int == 6 + v.len() as int + os.len() as int + a.len() as int);
                assert(ext_str@ == e);
            }
        }
        return Err(ParseFailure { name: name.to_owned() });
    }
    let version = name.substring_char(4, p1).to_owned();
    let os_s = os_str.to_owned();
    let arch_s = arch_str.to_owned();
    let ext_s = ext_str.to_owned();
    proof {
        let v = s.subrange(4, p1 as int);
        let os_g = s.subrange(p1 as int + 1, q as int);
        let a_g = s.subrange(q as int + 1, p2 as int);
        let e_g = s.subrange(p2 as int + 5, n as int);
        let t = "jdk-"@ + v + seq!['_'] + os_g + seq!['-'] + a_g + "_bin."@ + e_g;
        reveal_strlit("jdk-");
        assert forall|ix: int| 0 <= ix < s.len() as int implies t[ix] == s[ix] by {
            if ix < 4 {
                assert(t[ix] == "jdk-"@[ix]);
                assert(s.subrange(0, 4)[ix] == s[ix]);
            } else if ix < p1 as int {
                assert(t[ix] == v[ix - 4]);
            } else if ix == p1 as int {
                assert(t[ix] == '_');
            } else if ix < q as int {
                assert(t[ix] == os_g[ix - p1 - 1]);
            } else if ix == q as int {
                assert(t[ix] == '-');
            } else if ix < p2 as int {
                assert(t[ix] == a_g[ix - q - 1]);
            } else if ix < p2 as int + 5 {
                assert(t[ix] == "_bin."@[ix - p2]);
                assert(s.subrange(p2 as int, p2 as int + 5)[ix - p2] == s[ix]);
            } else {
                assert(t[ix] == e_g[ix - p2 - 5]);
            }
        }
        assert(s =~= t);
        assert(version_ok(v));
        assert(name_decomp(s, v, os_g, a_g, e_g));
    }
    Ok(
        FileNameMeta {
            arch: arch_s,
            ext: ext_s,
            os: os_s,
            version,
        },
    )
}

/// A decimal digit.
pub open spec fn is_digit(c: char) -> bool {
    '0' <= c && c <= '9'
}

/// A non-empty run of decimal digits.
pub open spec fn digits_ok(s: Seq<char>) -> bool {
    s.len() > 0 && forall|i: int| 0 <= i < s.len() ==> is_digit(#[trigger] s[i])
}

/// A dotted numeric triple, as release headings spell a version.
pub open spec fn triple_decomp(t: Seq<char>, a: Seq<char>, b: Seq<char>, c: Seq<char>) -> bool {
    t == a + seq!['.'] + b + seq!['.'] + c && digits_ok(a) && digits_ok(b) && digits_ok(c)
}

/// True when `t` is a dotted numeric triple.
pub open spec fn version_triple(t: Seq<char>) -> bool {
    exists|a: Seq<char>, b: Seq<char>, c: Seq<char>| triple_decomp(t, a, b, c)
}

/// The end of the run of digits starting at `from`: the first position at
/// or after `from` that is past the end or holds a non-digit.
pub open spec fn run_end(s: Seq<char>, from: int) -> int
    decreases s.len() - from,
{
    if from < 0 || from >= s.len() {
        from
    } else if !is_digit(s[from]) {
        from
    } else {
        run_end(s, from + 1)
    }
}

/// What `run_end` returns, pinned by the run's boundaries.
proof fn lemma_run_end_pin(s: Seq<char>, from: int, e: int)
    requires
        0 <= from <= e <= s.len(),
        forall|j: int| from <= j < e ==> is_digit(#[trigger] s[j]),
        e < s.len() ==> !is_digit(s[e]),
    ensures
        run_end(s, from) == e,
    decreases e - from,
{
    if from < e {
        lemma_run_end_pin(s, from + 1, e);
    }
}

/// The end of the dotted numeric triple starting at `i`, when the text
/// holds one there: a non-empty digit run, a dot, a non-empty digit run, a
/// dot, and a non-empty digit run.
pub open spec fn triple_at(s: Seq<char>, i: int) -> Option<int> {
    let e1 = run_end(s, i);
    if e1 == i || e1 >= s.len() || s[e1] != '.' {
        None
    } else {
        let e2 = run_end(s, e1 + 1);
        if e2 == e1 + 1 || e2 >= s.len() || s[e2] != '.' {
            None
        } else {
            let e3 = run_end(s, e2 + 1);
            if e3 == e2 + 1 {
                None
            } else {
                Some(e3)
            }
        }
    }
}

/// The left-to-right scan for dotted numeric triples: at each position a
/// triple is taken whole and kept unless already seen, and the scan resumes
/// after it; positions that start no triple are stepped over.
pub open spec fn scan_versions(s: Seq<char>, i: int, acc: Seq<Seq<char>>) -> Seq<Seq<char>>
    decreases s.len() - i,
{
    if i < 0 || i >= s.len() {
        acc
    } else {
        match triple_at(s, i) {
            Some(e3) => {
                let next = if i < e3 <= s.len() {
                    e3
                } else {
                    i + 1
                };
                let t = s.subrange(i, next);
                if acc.contains(t) {
                    scan_versions(s, next, acc)
                } else {
                    scan_versions(s, next, acc.push(t))
                }
            },
            None => scan_versions(s, i + 1, acc),
        }
    }
}

/// Scans a release page's text for the version numbers its headings name:
/// the left-to-right scan for dotted numeric triples, each kept once in
/// first-occurrence order.  The whole page is scanned, a superset of the
/// release headings; every result is a dotted numeric triple that occurs
/// in the text, and every triple the scan meets is in the result.
#[verifier::loop_isolation(false)]
#[verifier::rlimit(100)]
pub fn extract_latest_versions(text: &str) -> (r: Vec<String>)
    ensures
        r.deep_view() == scan_versions(text@, 0, Seq::empty()),
        forall|k: int| 0 <= k < r.deep_view().len() ==> version_triple(#[trigger] r.deep_view()[k])
            && is_substring(text@, r.deep_view()[k]),
        forall|k: int, l: int| 0 <= k < l < r.deep_view().len() ==> r.deep_view()[k]
            != r.deep_view()[l],
{
    let n = text.unicode_len();
    let mut out: Vec<String> = Vec::new();
    let mut i: usize = 0;
    proof {
        assert(out.deep_view() =~= Seq::<Seq<char>>::empty());
    }
    while i < n
        invariant
            i <= n,
            scan_versions(text@, 0, Seq::empty()) == scan_versions(
                text@,
                i as int,
                out.deep_view(),
            ),
            forall|k: int| 0 <= k < out.deep_view().len() ==> version_triple(
                #[trigger] out.deep_view()[k],
            ) && is_substring(text@, out.deep_view()[k]),
            forall|k: int, l: int| 0 <= k < l < out.deep_view().len() ==> out.deep_view()[k]
                != out.deep_view()[l],
        decreases n - i,
    {
        let ghost s = text@;
        if !digit_at(text, i) {
            proof {
                assert(run_end(s, i as int) == i as int);
                assert(triple_at(s, i as int) is None);
            }
            i = i + 1;
            continue ;
        }
        let e1 = digit_run_end(text, i);
        proof {
            lemma_run_end_pin(s, i as int, e1 as int);
            assert(e1 > i);
        }
        if e1 >= n || text.get_char(e1) != '.' {
            proof {
                assert(triple_at(s, i as int) is None);
            }
            i = i + 1;
            continue ;
        }
        let e2 = digit_run_end(text, e1 + 1);
        proof {
            lemma_run_end_pin(s, e1 as int + 1, e2 as int);
        }
        if e2 == e1 + 1 || e2 >= n || text.get_char(e2) != '.' {
            proof {
                assert(triple_at(s, i as int) is None);
            }
            i = i + 1;
            continue ;
        }
        let e3 = digit_run_end(text, e2 + 1);
        proof {
            lemma_run_end_pin(s, e2 as int + 1, e3 as int);
        }
        if e3 == e2 + 1 {
            proof {
                assert(triple_at(s, i as int) is None);
            }
            i = i + 1;
            continue ;
        }
        proof {
            assert(triple_at(s, i as int) == Some(e3 as int));
        }
        let token = text.substring_char(i, e3).to_owned();
        proof {
            let a = s.subrange(i as int, e1 as int);
            let b = s.subrange(e1 as int + 1, e2 as int);
            let c = s.subrange(e2 as int + 1, e3 as int);
            assert(token@ =~= a + seq!['.'] + b + seq!['.'] + c);
            assert(triple_decomp(token@, a, b, c));
            assert(s.subrange(i as int, i as int + token@.len()) == token@);
        }
        if !crate::text::contains_str(&out, token.as_str()) {
            let ghost old_out = out.deep_view();
            out.push(token);
            proof {
                assert(out.deep_view() =~= old_out.push(token@));
                assert(scan_versions(s, i as int, old_out) == scan_versions(
                    s,
                    e3 as int,
                    out.deep_view(),
                ));
            }
        } else {
            proof {
                assert(scan_versions(s, i as int, out.deep_view()) == scan_versions(
                    s,
                    e3 as int,
                    out.deep_view(),
                ));
            }
        }
        i = e3;
    }
    proof {
        assert(scan_versions(text@, n as int, out.deep_view()) == out.deep_view());
    }
    out
}

/// Whether the character at `i` is a digit; positions past the end are not.
fn digit_at(s: &str, i: usize) -> (r: bool)
    ensures
        r == (i < s@.len() && is_digit(s@[i as int])),
{
    if i >= s.unicode_len() {
        return false;
    }
    let c = s.get_char(i);
    '0' <= c && c <= '9'
}

/// The end of the digit run starting at `from`: the first position at or
/// after `from` that is past the end or holds a non-digit.
#[verifier::loop_isolation(false)]
fn digit_run_end(s: &str, from: usize) -> (r: usize)
    requires
        from <= s@.len(),
    ensures
        from <= r <= s@.len(),
        forall|j: int| from <= j < r ==> is_digit(#[trigger] s@[j]),
        r < s@.len() ==> !is_digit(s@[r as int]),
{
    let n = s.unicode_len();
    let mut i: usize = from;
    while i < n && digit_at(s, i)
        invariant
            from <= i <= n,
            forall|j: int| from <= j < i ==> is_digit(#[trigger] s@[j]),
        decreases n - i,
    {
        i = i + 1;
    }
    i
}

/// The fixed download pages this source crawls: the current downloads page
/// and the archive page of each maintained major line.
pub open spec fn crawl_urls() -> Seq<Seq<char>> {
    seq![
        "https://www.oracle.com/java/technologies/downloads/"@,
        "https://www.oracle.com/java/technologies/javase/jdk17-archive-downloads.html"@,
        "https://www.oracle.com/java/technologies/javase/jdk18-archive-downloads.html"@,
        "https://www.oracle.com/java/technologies/javase/jdk19-archive-downloads.html"@,
        "https://www.oracle.com/java/technologies/javase/jdk20-archive-downloads.html"@,
        "https://www.oracle.com/java/technologies/javase/jdk21-archive-downloads.html"@,
        "https://www.oracle.com/java/technologies/javase/jdk22-archive-downloads.html"@,
        "https://www.oracle.com/java/technologies/javase/jdk23-archive-downloads.html"@,
    ]
}

/// Builds the list of pages to crawl.
pub fn build_urls() -> (r: Vec<String>)
    ensures
        r.deep_view() == crawl_urls(),
{
    let mut urls: Vec<String> = Vec::new();
    urls.push(String::from_str("https://www.oracle.com/java/technologies/downloads/"));
    urls.push(
        String::from_str("https://www.oracle.com/java/technologies/javase/jdk17-archive-downloads.html"),
    );
    urls.push(
        String::from_str("https://www.oracle.com/java/technologies/javase/jdk18-archive-downloads.html"),
    );
    urls.push(
        String::from_str("https://www.oracle.com/java/technologies/javase/jdk19-archive-downloads.html"),
    );
    urls.push(
        String::from_str("https://www.oracle.com/java/technologies/javase/jdk20-archive-downloads.html"),
    );
    urls.push(
        String::from_str("https://www.oracle.com/java/technologies/javase/jdk21-archive-downloads.html"),
    );
    urls.push(
        String::from_str("https://www.oracle.com/java/technologies/javase/jdk22-archive-downloads.html"),
    );
    urls.push(
        String::from_str("https://www.oracle.com/java/technologies/javase/jdk23-archive-downloads.html"),
    );
    proof {
        assert(urls.deep_view() =~= crawl_urls());
    }
    urls
}

/// Whether a link target names a downloadable artifact: the listing keeps
/// only links ending in one of the artifact extensions.
pub fn is_artifact_link(href: &str) -> (r: bool)
    ensures
        r == (crate::text::ends_with(href@, ".dep"@) || crate::text::ends_with(href@, ".dmg"@)
            || crate::text::ends_with(href@, ".exe"@) || crate::text::ends_with(href@, ".msi"@)
            || crate::text::ends_with(href@, ".rpm"@) || crate::text::ends_with(href@, ".tar.gz"@)
            || crate::text::ends_with(href@, ".zip"@)),
{
    crate::text::ends_with_str(href, ".dep") || crate::text::ends_with_str(href, ".dmg")
        || crate::text::ends_with_str(href, ".exe") || crate::text::ends_with_str(href, ".msi")
        || crate::text::ends_with_str(href, ".rpm") || crate::text::ends_with_str(href, ".tar.gz")
        || crate::text::ends_with_str(href, ".zip")
}

/// Whether an anchor belongs to this source at all: artifacts of the
/// unrelated product bundled at the same endpoint are silently excluded.
pub fn keep_anchor(a: &AnchorElement) -> (r: bool)
    ensures
        r == !is_substring(a.href@, "graalvm-"@),
{
    !contains_sub(a.href.as_str(), "graalvm-")
}

/// Major line of a version string: the prefix before the first dot, or
/// the whole string when it has no dot.
pub open spec fn major_of(v: Seq<char>) -> Seq<char> {
    v.subrange(0, first_of(v, '.'))
}

/// The first listed version whose major line occurs in `name`.
pub open spec fn first_match(name: Seq<char>, versions: Seq<Seq<char>>) -> Option<Seq<char>>
    decreases versions.len(),
{
    if versions.len() == 0 {
        None
    } else if is_substring(name, major_of(versions[0])) {
        Some(versions[0])
    } else {
        first_match(name, versions.skip(1))
    }
}

/// What alias resolution does to an artifact name: a latest-alias link is
/// rewritten to embed the first authoritative version of its major line,
/// and is left unchanged when no listed version matches; any other link is
/// left alone.
pub open spec fn resolved_name(name: Seq<char>, href: Seq<char>, versions: Seq<Seq<char>>) -> Seq<
    char,
> {
    if is_substring(href, "/latest/"@) {
        match first_match(name, versions) {
            Some(v) => replace_all(
                name,
                "jdk-"@ + major_of(v) + seq!['_'],
                "jdk-"@ + v + seq!['_'],
            ),
            None => name,
        }
    } else {
        name
    }
}

/// Resolves a latest-alias artifact name against the authoritative version
/// listing discovered on the same page.
#[verifier::loop_isolation(false)]
pub fn replace_with_latest_version(anchor: &mut AnchorElement, latest_versions: &Vec<String>)
    ensures
        final(anchor).href == old(anchor).href,
        final(anchor).name@ == resolved_name(
            old(anchor).name@,
            old(anchor).href@,
            latest_versions.deep_view(),
        ),
{
    let ghost name0 = anchor.name@;
    let ghost vs = latest_versions.deep_view();
    if !contains_sub(anchor.href.as_str(), "/latest/") {
        return;
    }
    let n = latest_versions.len();
    let mut k: usize = 0;
    proof {
        assert(vs.skip(0) =~= vs);
    }
    while k < n
        invariant
            k <= n,
            anchor.href == old(anchor).href,
            anchor.name == old(anchor).name,
            first_match(name0, vs) == first_match(name0, vs.skip(k as int)),
        decreases n - k,
    {
        let v = &latest_versions[k];
        let major: String = match find_char(v.as_str(), 0, '.') {
            Some(i) => v.as_str().substring_char(0, i).to_owned(),
            None => v.clone(),
        };
        proof {
            lemma_first_of(v@, '.');
            assert(vs.skip(k as int)[0] == vs[k as int]);
            assert(vs[k as int] == v@);
            assert(v@.subrange(0, v@.len() as int) =~= v@);
            assert(major@ == major_of(v@));
        }
        if contains_sub(anchor.name.as_str(), major.as_str()) {
            let pat = String::from_str("jdk-").concat(major.as_str()).concat("_");
            let rep = String::from_str("jdk-").concat(v.as_str()).concat("_");
            proof {
                reveal_strlit("jdk-");
                reveal_strlit("_");
                assert("jdk-"@.len() == 4);
                assert("_"@ =~= seq!['_']);
                assert(pat@ =~= "jdk-"@ + major_of(v@) + seq!['_']);
                assert(rep@ =~= "jdk-"@ + v@ + seq!['_']);
                assert(first_match(name0, vs) == Some(v@));
            }
            let resolved = replace_all_str(anchor.name.as_str(), pat.as_str(), rep.as_str());
            anchor.name = resolved;
            return;
        }
        proof {
            assert(vs.skip(k as int).skip(1) =~= vs.skip(k as int + 1));
        }
        k = k + 1;
    }
    proof {
        assert(vs.skip(n as int) =~= Seq::<Seq<char>>::empty());
    }
}

/// The artifact file name inside an anchor: the part after the last slash.
pub open spec fn last_segment(s: Seq<char>) -> Seq<char> {
    split_on(s, '/').last()
}

/// The record an Oracle anchor yields, given the name's decomposition and
/// the text of the sibling digest file, when one could be fetched.  When
/// the best-effort digest fetch failed, both integrity fields are absent.
pub open spec fn oracle_view(
    href: Seq<char>,
    name: Seq<char>,
    sha: Option<Seq<char>>,
    v: Seq<char>,
    os: Seq<char>,
    a: Seq<char>,
    e: Seq<char>,
) -> JvmDataView {
    JvmDataView {
        architecture: canon_arch(a),
        checksum: match sha {
            Some(text) => match first_token(text) {
                Some(t) => Some("sha256:"@ + t),
                None => None,
            },
            None => None,
        },
        checksum_url: match sha {
            Some(_) => Some(href + ".sha256"@),
            None => None,
        },
        features: None,
        file_type: e,
        filename: name,
        image_type: "jdk"@,
        java_version: canon_version(v),
        jvm_impl: "hotspot"@,
        os: canon_os(os),
        release_type: "ga"@,
        size: None,
        url: href,
        vendor: "oracle"@,
        version: canon_version(v),
    }
}

/// Builds one canonical record from one discovered anchor.  `sha_text` is
/// the body of the sibling `.sha256` file when its best-effort fetch
/// succeeded; the record is emitted either way, with both integrity
/// fields absent when the fetch failed.  The call fails exactly when the
/// anchor's file name does not match the naming convention.
pub fn map_release(a: &AnchorElement, sha_text: &Option<String>) -> (r: Result<
    JvmData,
    ParseFailure,
>)
    ensures
        match r {
            Ok(d) => exists|v: Seq<char>, os: Seq<char>, ar: Seq<char>, e: Seq<char>|
                name_decomp(last_segment(a.name@), v, os, ar, e) && d@ == oracle_view(
                    a.href@,
                    last_segment(a.name@),
                    crate::jvm::opt_view(*sha_text),
                    v,
                    os,
                    ar,
                    e,
                ) && crate::jvm::features_wf(d@),
            Err(_) => !is_release_name(last_segment(a.name@)),
        },
        r is Ok <==> is_release_name(last_segment(a.name@)),
{
    let parts = split_str(a.name.as_str(), '/');
    proof {
        assert(parts.deep_view().len() > 0);
    }
    let name_s: String = parts[parts.len() - 1].clone();
    proof {
        assert(name_s@ == parts.deep_view().last());
    }
    let meta = match meta_from_name(name_s.as_str()) {
        Ok(m) => m,
        Err(e) => {
            return Err(e);
        },
    };
    let checksum_url: Option<String> = match sha_text {
        Some(_) => Some(a.href.clone().concat(".sha256")),
        None => None,
    };
    let checksum: Option<String> = match sha_text {
        Some(t) => match first_token_str(t.as_str()) {
            Some(tok) => Some(String::from_str("sha256:").concat(tok.as_str())),
            None => None,
        },
        None => None,
    };
    let d = JvmData {
        architecture: normalize_architecture(meta.arch.as_str()),
        checksum,
        checksum_url,
        features: None,
        file_type: meta.ext,
        filename: name_s,
        image_type: String::from_str("jdk"),
        java_version: normalize_version(meta.version.as_str()),
        jvm_impl: String::from_str("hotspot"),
        os: normalize_os(meta.os.as_str()),
        release_type: String::from_str("ga"),
        size: None,
        url: a.href.clone(),
        vendor: String::from_str("oracle"),
        version: normalize_version(meta.version.as_str()),
    };
    proof {
        assert(d@ =~= oracle_view(
            a.href@,
            last_segment(a.name@),
            crate::jvm::opt_view(*sha_text),
            meta.version@,
            meta.os@,
            meta.arch@,
            meta.ext@,
        ));
    }
    Ok(d)
}

} // verus!
