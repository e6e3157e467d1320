//! Small verified building blocks for working with strings: case folding,
//! character search, prefix and substring tests.  The extractors and the
//! canonicalization tables are written on top of these.

use vstd::prelude::*;

verus! {

/// True when `c` is an ASCII upper-case letter.
pub open spec fn is_upper(c: char) -> bool {
    'A' <= c && c <= 'Z'
}

/// ASCII case folding of one character; everything else is left alone.
pub open spec fn lower_char(c: char) -> char {
    if is_upper(c) {
        ((c as u8) + 32) as char
    } else {
        c
    }
}

/// ASCII case folding of a whole character sequence.
pub open spec fn lower_seq(s: Seq<char>) -> Seq<char> {
    s.map_values(|c: char| lower_char(c))
}

/// ASCII case folding of one character.
pub fn lower_char_exec(c: char) -> (r: char)
    ensures
        r == lower_char(c),
{
    if 'A' <= c && c <= 'Z' {
        ((c as u8) + 32) as char
    } else {
        c
    }
}

/// Case-insensitive (ASCII) equality of two strings.
pub fn eq_ignore_case(a: &str, b: &str) -> (r: bool)
    ensures
        r == (lower_seq(a@) == lower_seq(b@)),
{
    let a_len = a.unicode_len();
    let b_len = b.unicode_len();
    if a_len != b_len {
        assert(lower_seq(a@).len() != lower_seq(b@).len());
        return false;
    }
    let mut i: usize = 0;
    while i < a_len
        invariant
            a_len == a@.len(),
            b_len == b@.len(),
            a_len == b_len,
            i <= a_len,
            forall|j: int| 0 <= j < i ==> lower_char(a@[j]) == lower_char(b@[j]),
        decreases a_len - i,
    {
        let ca = a.get_char(i);
        let cb = b.get_char(i);
        if lower_char_exec(ca) != lower_char_exec(cb) {
            assert(lower_seq(a@)[i as int] != lower_seq(b@)[i as int]);
            return false;
        }
        i = i + 1;
    }
    assert(lower_seq(a@) =~= lower_seq(b@));
    true
}

/// First occurrence of `c` in `s` at or after `from`, if any.
#[verifier::loop_isolation(false)]
pub fn find_char(s: &str, from: usize, c: char) -> (r: Option<usize>)
    requires
        from <= s@.len(),
    ensures
        match r {
            Some(i) => from <= i < s@.len() && s@[i as int] == c && forall|j: int|
                from <= j < i ==> s@[j] != c,
            None => forall|j: int| from <= j < s@.len() ==> s@[j] != c,
        },
{
    let n = s.unicode_len();
    let mut i: usize = from;
    while i < n
        invariant
            from <= i <= n,
            forall|j: int| from <= j < i ==> s@[j] != c,
        decreases n - i,
    {
        if s.get_char(i) == c {
            return Some(i);
        }
        i = i + 1;
    }
    None
}

/// True when the literal `lit` stands in `s` exactly at position `at`.
#[verifier::loop_isolation(false)]
pub fn match_lit(s: &str, at: usize, lit: &str) -> (r: bool)
    requires
        at <= s@.len(),
    ensures
        r == (at + lit@.len() <= s@.len() && s@.subrange(
            at as int,
            at as int + lit@.len(),
        ) == lit@),
{
    let n = s.unicode_len();
    let m = lit.unicode_len();
    if m > n - at {
        return false;
    }
    let mut i: usize = 0;
    while i < m
        invariant
            i <= m,
            forall|j: int| 0 <= j < i ==> s@[at + j] == lit@[j],
        decreases m - i,
    {
        if s.get_char(at + i) != lit.get_char(i) {
            assert(s@.subrange(at as int, at as int + lit@.len())[i as int] != lit@[i as int]);
            return false;
        }
        i = i + 1;
    }
    assert(s@.subrange(at as int, at as int + lit@.len()) =~= lit@);
    true
}

/// Index of the first occurrence of `c` in `s`, or `s.len()` when `c` does
/// not occur.
pub open spec fn first_of(s: Seq<char>, c: char) -> int
    decreases s.len(),
{
    if s.len() == 0 {
        0
    } else if s[0] == c {
        0
    } else {
        1 + first_of(s.skip(1), c)
    }
}

/// What `first_of` returns: the least index holding `c`, or the length.
pub proof fn lemma_first_of(s: Seq<char>, c: char)
    ensures
        0 <= first_of(s, c) <= s.len(),
        first_of(s, c) < s.len() ==> s[first_of(s, c)] == c,
        forall|j: int| 0 <= j < first_of(s, c) ==> s[j] != c,
    decreases s.len(),
{
    if s.len() > 0 && s[0] != c {
        lemma_first_of(s.skip(1), c);
        assert forall|j: int| 0 <= j < first_of(s, c) implies s[j] != c by {
            if j > 0 {
                assert(s.skip(1)[j - 1] != c);
            }
        }
    }
}

/// Index of the first occurrence of `c` at or after `from`, or the length
/// when `c` does not occur there.
pub open spec fn first_from(s: Seq<char>, from: int, c: char) -> int
    decreases s.len() - from,
{
    if from < 0 || from >= s.len() {
        s.len() as int
    } else if s[from] == c {
        from
    } else {
        first_from(s, from + 1, c)
    }
}

/// What `first_from` returns, pinned by the occurrence's boundaries.
pub proof fn lemma_first_from_pin(s: Seq<char>, from: int, e: int, c: char)
    requires
        0 <= from <= e <= s.len(),
        forall|j: int| from <= j < e ==> s[j] != c,
        e < s.len() ==> s[e] == c,
    ensures
        first_from(s, from, c) == e,
    decreases e - from,
{
    if from < e {
        lemma_first_from_pin(s, from + 1, e, c);
    }
}

/// The segments of `s` between occurrences of the separator `c`; always at
/// least one segment, and one more per occurrence of `c`.
pub open spec fn split_on(s: Seq<char>, c: char) -> Seq<Seq<char>>
    decreases s.len(),
{
    let i = first_of(s, c);
    if 0 <= i < s.len() {
        seq![s.subrange(0, i)] + split_on(s.skip(i + 1), c)
    } else {
        seq![s]
    }
}

/// Splits `s` at every occurrence of `c`.
#[verifier::loop_isolation(false)]
pub fn split_str(s: &str, c: char) -> (r: Vec<String>)
    ensures
        r.deep_view() == split_on(s@, c),
{
    let n = s.unicode_len();
    let mut parts: Vec<String> = Vec::new();
    let mut pos: usize = 0;
    proof {
        assert(s@.skip(0) =~= s@);
        assert(parts.deep_view() =~= Seq::<Seq<char>>::empty());
        assert(parts.deep_view() + split_on(s@, c) =~= split_on(s@, c));
    }
    loop
        invariant
            pos <= n,
            n == s@.len(),
            split_on(s@, c) == parts.deep_view() + split_on(s@.skip(pos as int), c),
        decreases n - pos,
    {
        let ghost u = s@.skip(pos as int);
        proof {
            lemma_first_of(u, c);
        }
        match find_char(s, pos, c) {
            Some(i) => {
                proof {
                    assert forall|j: int| 0 <= j < i - pos implies u[j] != c by {
                        assert(u[j] == s@[pos + j]);
                    }
                    assert(u[i - pos] == c);
                    assert(first_of(u, c) == i - pos);
                    assert(u.subrange(0, i - pos) =~= s@.subrange(pos as int, i as int));
                    assert(u.skip(i - pos + 1) =~= s@.skip(i as int + 1));
                    assert(split_on(u, c) == seq![s@.subrange(pos as int, i as int)] + split_on(
                        s@.skip(i as int + 1),
                        c,
                    ));
                }
                let seg = s.substring_char(pos, i).to_owned();
                let ghost old_parts = parts.deep_view();
                parts.push(seg);
                proof {
                    assert(parts.deep_view() =~= old_parts.push(seg@));
                    assert(parts.deep_view() + split_on(s@.skip(i as int + 1), c) =~= old_parts
                        + split_on(u, c));
                }
                pos = i + 1;
            },
            None => {
                proof {
                    assert forall|j: int| 0 <= j < u.len() implies u[j] != c by {
                        assert(u[j] == s@[pos + j]);
                    }
                    assert(first_of(u, c) == u.len());
                    assert(split_on(u, c) == seq![u]);
                    assert(u =~= s@.subrange(pos as int, n as int));
                }
                let seg = s.substring_char(pos, n).to_owned();
                let ghost old_parts = parts.deep_view();
                parts.push(seg);
                proof {
                    assert(parts.deep_view() =~= old_parts.push(seg@));
                    assert(parts.deep_view() =~= old_parts + split_on(u, c));
                }
                return parts;
            },
        }
    }
}

/// True when `sub` occurs somewhere inside `s`.
pub open spec fn is_substring(s: Seq<char>, sub: Seq<char>) -> bool {
    exists|i: int| 0 <= i && i + sub.len() <= s.len() && #[trigger] s.subrange(i, i + sub.len())
        == sub
}

/// Substring test.
#[verifier::loop_isolation(false)]
pub fn contains_sub(s: &str, sub: &str) -> (r: bool)
    ensures
        r == is_substring(s@, sub@),
{
    let n = s.unicode_len();
    let m = sub.unicode_len();
    if m > n {
        return false;
    }
    if m == 0 {
        proof {
            assert(s@.subrange(0, 0 + sub@.len() as int) =~= sub@);
            assert(is_substring(s@, sub@));
        }
        return true;
    }
    let mut i: usize = 0;
    while i <= n - m
        invariant
            i <= n - m + 1,
            1 <= m <= n,
            forall|k: int| 0 <= k < i ==> #[trigger] s@.subrange(k, k + sub@.len()) != sub@,
        decreases n - m + 1 - i,
    {
        if match_lit(s, i, sub) {
            return true;
        }
        i = i + 1;
    }
    false
}

/// `s` with every occurrence of `pat` replaced by `rep`, scanning left to
/// right without overlap; the empty pattern replaces nothing.
pub open spec fn replace_all(s: Seq<char>, pat: Seq<char>, rep: Seq<char>) -> Seq<char>
    decreases s.len(),
{
    if pat.len() == 0 {
        s
    } else if s.len() < pat.len() {
        s
    } else if s.take(pat.len() as int) == pat {
        rep + replace_all(s.skip(pat.len() as int), pat, rep)
    } else {
        s.take(1) + replace_all(s.skip(1), pat, rep)
    }
}

/// Replaces every occurrence of `pat` in `s` by `rep`.
#[verifier::loop_isolation(false)]
pub fn replace_all_str(s: &str, pat: &str, rep: &str) -> (r: String)
    requires
        pat@.len() > 0,
    ensures
        r@ == replace_all(s@, pat@, rep@),
{
    let n = s.unicode_len();
    let m = pat.unicode_len();
    let mut out = String::new();
    let mut i: usize = 0;
    proof {
        assert(s@.skip(0) =~= s@);
    }
    while i < n
        invariant
            i <= n,
            replace_all(s@, pat@, rep@) == out@ + replace_all(s@.skip(i as int), pat@, rep@),
        decreases n - i,
    {
        let ghost u = s@.skip(i as int);
        if match_lit(s, i, pat) {
            proof {
                assert(u.take(m as int) =~= s@.subrange(i as int, i as int + m));
                assert(u.skip(m as int) =~= s@.skip(i as int + m));
                assert(replace_all(u, pat@, rep@) == rep@ + replace_all(
                    s@.skip(i as int + m),
                    pat@,
                    rep@,
                ));
            }
            let ghost old_out = out@;
            out.append(rep);
            i = i + m;
            proof {
                assert(out@ + replace_all(s@.skip(i as int), pat@, rep@) =~= old_out
                    + replace_all(u, pat@, rep@));
            }
        } else {
            let c = s.get_char(i);
            proof {
                if u.len() >= m {
                    assert(u.take(m as int) =~= s@.subrange(i as int, i as int + m));
                    assert(u.take(m as int) != pat@);
                    assert(replace_all(u, pat@, rep@) == u.take(1) + replace_all(
                        u.skip(1),
                        pat@,
                        rep@,
                    ));
                } else {
                    assert(replace_all(u, pat@, rep@) == u);
                    assert(replace_all(u.skip(1), pat@, rep@) == u.skip(1));
                    assert(u =~= u.take(1) + u.skip(1));
                }
                assert(u.take(1) =~= seq![s@[i as int]]);
                assert(u.skip(1) =~= s@.skip(i as int + 1));
            }
            let ghost old_out = out@;
            push_char(&mut out, c);
            i = i + 1;
            proof {
                assert(out@ + replace_all(s@.skip(i as int), pat@, rep@) =~= old_out
                    + replace_all(u, pat@, rep@));
            }
        }
    }
    proof {
        assert(s@.skip(n as int) =~= Seq::<char>::empty());
        assert(replace_all(Seq::<char>::empty(), pat@, rep@) == Seq::<char>::empty());
        assert(out@ + Seq::<char>::empty() =~= out@);
    }
    out
}

/// True when `s` ends with `suffix`.
pub open spec fn ends_with(s: Seq<char>, suffix: Seq<char>) -> bool {
    s.len() >= suffix.len() && s.subrange(s.len() - suffix.len(), s.len() as int) == suffix
}

/// Suffix test.
pub fn ends_with_str(s: &str, suffix: &str) -> (r: bool)
    ensures
        r == ends_with(s@, suffix@),
{
    let n = s.unicode_len();
    let m = suffix.unicode_len();
    if m > n {
        return false;
    }
    match_lit(s, n - m, suffix)
}

/// ASCII whitespace.
pub open spec fn is_space(c: char) -> bool {
    c == ' ' || c == '\t' || c == '\n' || c == '\r'
}

/// Index of the first whitespace character, or the length when none.
pub open spec fn first_space(s: Seq<char>) -> int
    decreases s.len(),
{
    if s.len() == 0 {
        0
    } else if is_space(s[0]) {
        0
    } else {
        1 + first_space(s.skip(1))
    }
}

/// What `first_space` returns: the least whitespace index, or the length.
pub proof fn lemma_first_space(s: Seq<char>)
    ensures
        0 <= first_space(s) <= s.len(),
        first_space(s) < s.len() ==> is_space(s[first_space(s)]),
        forall|j: int| 0 <= j < first_space(s) ==> !is_space(s[j]),
    decreases s.len(),
{
    if s.len() > 0 && !is_space(s[0]) {
        lemma_first_space(s.skip(1));
        assert forall|j: int| 0 <= j < first_space(s) implies !is_space(s[j]) by {
            if j > 0 {
                assert(!is_space(s.skip(1)[j - 1]));
            }
        }
    }
}

/// The first whitespace-delimited token of `s`, if there is one.
pub open spec fn first_token(s: Seq<char>) -> Option<Seq<char>>
    decreases s.len(),
{
    if s.len() == 0 {
        None
    } else if is_space(s[0]) {
        first_token(s.skip(1))
    } else {
        Some(s.subrange(0, first_space(s)))
    }
}

/// ASCII whitespace test.
pub fn is_space_exec(c: char) -> (r: bool)
    ensures
        r == is_space(c),
{
    c == ' ' || c == '\t' || c == '\n' || c == '\r'
}

/// Extracts the first whitespace-delimited token of `s`.
#[verifier::loop_isolation(false)]
pub fn first_token_str(s: &str) -> (r: Option<String>)
    ensures
        match r {
            Some(t) => first_token(s@) == Some(t@),
            None => first_token(s@) is None,
        },
{
    let n = s.unicode_len();
    let mut i: usize = 0;
    proof {
        assert(s@.skip(0) =~= s@);
    }
    while i < n && is_space_exec(s.get_char(i))
        invariant
            i <= n,
            first_token(s@) == first_token(s@.skip(i as int)),
        decreases n - i,
    {
        proof {
            assert(s@.skip(i as int)[0] == s@[i as int]);
            assert(s@.skip(i as int).skip(1) =~= s@.skip(i as int + 1));
        }
        i = i + 1;
    }
    if i == n {
        proof {
            assert(s@.skip(n as int) =~= Seq::<char>::empty());
        }
        return None;
    }
    let ghost u = s@.skip(i as int);
    proof {
        lemma_first_space(u);
        assert(u[0] == s@[i as int]);
    }
    let mut j: usize = i;
    while j < n && !is_space_exec(s.get_char(j))
        invariant
            i <= j <= n,
            forall|k: int| i <= k < j ==> !is_space(s@[k]),
        decreases n - j,
    {
        j = j + 1;
    }
    proof {
        assert forall|k: int| 0 <= k < j - i implies !is_space(u[k]) by {
            assert(u[k] == s@[i + k]);
        }
        if (j as int) < n as int {
            assert(u[j - i] == s@[j as int]);
        }
        assert(first_space(u) == j - i);
        assert(u.subrange(0, j - i) =~= s@.subrange(i as int, j as int));
    }
    Some(s.substring_char(i, j).to_owned())
}

/// Membership of a string among a list of strings, by value.
#[verifier::loop_isolation(false)]
pub fn contains_str(v: &Vec<String>, s: &str) -> (r: bool)
    ensures
        r == v.deep_view().contains(s@),
{
    let n = v.len();
    let mut i: usize = 0;
    while i < n
        invariant
            i <= n,
            forall|k: int| 0 <= k < i ==> v.deep_view()[k] != s@,
        decreases n - i,
    {
        if str_eq(v[i].as_str(), s) {
            assert(v.deep_view()[i as int] == s@);
            return true;
        }
        i = i + 1;
    }
    false
}

/// Relies on std's `String::push`: appends the given character to the end
/// of the string.
#[verifier::external_body]
pub fn push_char(s: &mut String, c: char)
    ensures
        final(s)@ == old(s)@.push(c),
{
    s.push(c)
}

/// Plain equality of two string slices.
pub fn str_eq(a: &str, b: &str) -> (r: bool)
    ensures
        r == (a@ == b@),
{
    let x = a.to_owned();
    let y = b.to_owned();
    x == y
}

} // verus!
