//! Character-level text utilities shared by the decoder and the path logic,
//! and the few trusted bridges to `std` string operations that vstd leaves
//! unspecified.

use vstd::prelude::*;

verus! {

/// Relies on String::from_utf8: succeeds exactly on valid UTF-8 input and
/// returns its decoding.
#[verifier::external_body]
pub(crate) fn utf8_to_string(bytes: &[u8]) -> (r: Option<String>)
    ensures
        match r {
            Some(s) => vstd::utf8::valid_utf8(bytes@) && s@ == vstd::utf8::decode_utf8(bytes@),
            None => !vstd::utf8::valid_utf8(bytes@),
        },
{
    String::from_utf8(bytes.to_vec()).ok()
}

/// Relies on String::push: appends exactly one character.
#[verifier::external_body]
pub(crate) fn push_char(s: &mut String, c: char)
    ensures
        final(s)@ == old(s)@.push(c),
{
    s.push(c);
}

/// Relies on char::from_u32: `Some` exactly for valid scalar values, and the
/// returned character has the given value.
#[verifier::external_body]
pub(crate) fn char_from_u32(v: u32) -> (r: Option<char>)
    ensures
        match r {
            Some(c) => (c as u32) == v && !(0xD800 <= v <= 0xDFFF) && v <= 0x10FFFF,
            None => (0xD800 <= v <= 0xDFFF) || v > 0x10FFFF,
        },
{
    char::from_u32(v)
}

/// What str::to_lowercase returns; a function of the characters alone.
pub uninterp spec fn lower_of(s: Seq<char>) -> Seq<char>;

/// Relies on str::to_lowercase: the result depends on the characters alone,
/// and an empty string stays empty.
#[verifier::external_body]
pub(crate) fn lowercase(s: &str) -> (r: String)
    ensures
        r@ == lower_of(s@),
        s@.len() == 0 ==> r@.len() == 0,
{
    s.to_lowercase()
}

/// The characters of `s` as a vector.
pub fn chars_of(s: &str) -> (r: Vec<char>)
    ensures
        r@ == s@,
{
    let n = s.unicode_len();
    let mut v: Vec<char> = Vec::new();
    let mut i: usize = 0;
    while i < n
        invariant
            n == s@.len(),
            i <= n,
            v@ =~= s@.subrange(0, i as int),
        decreases n - i,
    {
        v.push(s.get_char(i));
        i = i + 1;
    }
    assert(v@ =~= s@);
    v
}

/// A string holding exactly the characters of `v`.
pub fn string_from_chars(v: &[char]) -> (r: String)
    ensures
        r@ == v@,
{
    let mut s = String::new();
    let mut i: usize = 0;
    while i < v.len()
        invariant
            i <= v@.len(),
            s@ =~= v@.subrange(0, i as int),
        decreases v@.len() - i,
    {
        push_char(&mut s, *vstd::slice::slice_index_get(v, i));
        i = i + 1;
    }
    assert(s@ =~= v@);
    s
}

/// True when the two strings hold the same characters.
pub fn str_eq(a: &str, b: &str) -> (r: bool)
    ensures
        r == (a@ == b@),
{
    let na = a.unicode_len();
    let nb = b.unicode_len();
    if na != nb {
        assert(a@ != b@);
        return false;
    }
    let mut i: usize = 0;
    while i < na
        invariant
            na == a@.len(),
            na == b@.len(),
            i <= na,
            forall|j: int| 0 <= j < i ==> a@[j] == b@[j],
        decreases na - i,
    {
        if a.get_char(i) != b.get_char(i) {
            return false;
        }
        i = i + 1;
    }
    assert(a@ =~= b@);
    true
}

/// True when the character vector holds exactly the characters of `s`.
pub fn chars_eq_str(v: &[char], s: &str) -> (r: bool)
    ensures
        r == (v@ == s@),
{
    let n = s.unicode_len();
    if v.len() != n {
        assert(v@ != s@);
        return false;
    }
    let mut i: usize = 0;
    while i < n
        invariant
            n == s@.len(),
            n == v@.len(),
            i <= n,
            forall|j: int| 0 <= j < i ==> v@[j] == s@[j],
        decreases n - i,
    {
        if *vstd::slice::slice_index_get(v, i) != s.get_char(i) {
            return false;
        }
        i = i + 1;
    }
    assert(v@ =~= s@);
    true
}

/// True when `pat` occurs in `s` at position `i`.
pub open spec fn occurs_at(s: Seq<char>, pat: Seq<char>, i: int) -> bool {
    0 <= i && i + pat.len() <= s.len() && s.subrange(i, i + pat.len()) == pat
}

/// The first position at or after `i` where `pat` occurs in `s`, if any.
pub open spec fn find_sub_from(s: Seq<char>, pat: Seq<char>, i: int) -> Option<int>
    decreases s.len() - i,
{
    if i < 0 || i + pat.len() > s.len() {
        None
    } else if pat.len() == 0 {
        Some(i)
    } else if occurs_at(s, pat, i) {
        Some(i)
    } else {
        find_sub_from(s, pat, i + 1)
    }
}

pub proof fn lemma_find_sub_from(s: Seq<char>, pat: Seq<char>, i: int)
    requires
        0 <= i,
    ensures
        match find_sub_from(s, pat, i) {
            Some(j) => i <= j && occurs_at(s, pat, j) && (forall|q: int|
                i <= q < j ==> !occurs_at(s, pat, q)),
            None => forall|q: int| i <= q ==> !occurs_at(s, pat, q),
        },
    decreases s.len() - i,
{
    if i + pat.len() > s.len() {
        assert forall|q: int| i <= q implies !occurs_at(s, pat, q) by {}
    } else if pat.len() == 0 {
        assert(s.subrange(i, i) =~= pat);
    } else if occurs_at(s, pat, i) {
    } else {
        lemma_find_sub_from(s, pat, i + 1);
    }
}

/// Searching the suffix `s.skip(d)` finds the same occurrences, shifted.
pub proof fn lemma_find_sub_shift(s: Seq<char>, pat: Seq<char>, d: int, i: int)
    requires
        0 <= d <= s.len(),
        d <= i,
    ensures
        find_sub_from(s, pat, i) == match find_sub_from(s.skip(d), pat, i - d) {
            Some(j) => Some(j + d),
            None => None::<int>,
        },
    decreases s.len() - i,
{
    let t = s.skip(d);
    if i + pat.len() > s.len() {
    } else {
        assert(occurs_at(s, pat, i) == occurs_at(t, pat, i - d)) by {
            if 0 <= i && i + pat.len() <= s.len() {
                assert(s.subrange(i, i + pat.len()) =~= t.subrange(i - d, i - d + pat.len()));
            }
        }
        if pat.len() == 0 {
        } else if !occurs_at(s, pat, i) {
            lemma_find_sub_shift(s, pat, d, i + 1);
        }
    }
}

/// True when `pat` stands at position `i` of `s`.
pub fn occurs_at_exec(s: &[char], pat: &[char], i: usize) -> (r: bool)
    requires
        i + pat@.len() <= s@.len(),
    ensures
        r == occurs_at(s@, pat@, i as int),
{
    let n = s.len();
    let m = pat.len();
    let mut k: usize = 0;
    while k < m
        invariant
            k <= m,
            m == pat@.len(),
            n == s@.len(),
            i + m <= s@.len(),
            forall|q: int| 0 <= q < k ==> s@[i + q] == pat@[q],
        decreases m - k,
    {
        if *vstd::slice::slice_index_get(s, i + k) != *vstd::slice::slice_index_get(pat, k) {
            assert(s@.subrange(i as int, i + m) != pat@) by {
                assert(s@.subrange(i as int, i + m)[k as int] == s@[i + k]);
            }
            return false;
        }
        k = k + 1;
    }
    assert(s@.subrange(i as int, i + m) =~= pat@);
    true
}

/// The first occurrence of `pat` in `s` at or after `from`, if any.
pub fn find_sub_exec(s: &[char], pat: &[char], from: usize) -> (r: Option<usize>)
    requires
        from <= s@.len(),
    ensures
        match r {
            Some(j) => find_sub_from(s@, pat@, from as int) == Some(j as int) && from <= j
                && j + pat@.len() <= s@.len(),
            None => find_sub_from(s@, pat@, from as int) is None,
        },
{
    let n = s.len();
    let m = pat.len();
    if m > n - from {
        return None;
    }
    if m == 0 {
        proof {
            assert(s@.subrange(from as int, from as int) =~= pat@);
        }
        return Some(from);
    }
    let mut i = from;
    while i <= n - m
        invariant
            from <= i,
            i + m <= n + 1,
            1 <= m <= n,
            n == s@.len(),
            m == pat@.len(),
            find_sub_from(s@, pat@, from as int) == find_sub_from(s@, pat@, i as int),
        decreases n - i,
    {
        if occurs_at_exec(s, pat, i) {
            return Some(i);
        }
        i = i + 1;
    }
    None
}

/// The Unicode white-space characters, as `str::trim` removes them.
pub open spec fn is_space(c: char) -> bool {
    c == ' ' || c == '\t' || c == '\n' || c == '\r' || c == '\u{0b}' || c == '\u{0c}'
        || c == '\u{85}' || c == '\u{a0}' || c == '\u{1680}'
        || ('\u{2000}' <= c && c <= '\u{200a}')
        || c == '\u{2028}' || c == '\u{2029}' || c == '\u{202f}' || c == '\u{205f}'
        || c == '\u{3000}'
}

/// Executable test for [`is_space`].
pub fn is_space_char(c: char) -> (r: bool)
    ensures
        r == is_space(c),
{
    c == ' ' || c == '\t' || c == '\n' || c == '\r' || c == '\u{0b}' || c == '\u{0c}'
        || c == '\u{85}' || c == '\u{a0}' || c == '\u{1680}'
        || ('\u{2000}' <= c && c <= '\u{200a}')
        || c == '\u{2028}' || c == '\u{2029}' || c == '\u{202f}' || c == '\u{205f}'
        || c == '\u{3000}'
}

/// Number of leading white-space characters of `s`.
pub open spec fn leading_spaces(s: Seq<char>) -> int
    decreases s.len(),
{
    if s.len() == 0 || !is_space(s[0]) {
        0
    } else {
        1 + leading_spaces(s.skip(1))
    }
}

/// Number of trailing white-space characters of `s`.
pub open spec fn trailing_spaces(s: Seq<char>) -> int
    decreases s.len(),
{
    if s.len() == 0 || !is_space(s[s.len() - 1]) {
        0
    } else {
        1 + trailing_spaces(s.take(s.len() - 1))
    }
}

/// `s` with white space removed from both ends, as `str::trim` leaves it.
pub open spec fn trim_spaces(s: Seq<char>) -> Seq<char> {
    let l = leading_spaces(s);
    if l == s.len() {
        Seq::empty()
    } else {
        s.subrange(l, s.len() - trailing_spaces(s))
    }
}

pub proof fn lemma_leading_spaces(s: Seq<char>)
    ensures
        0 <= leading_spaces(s) <= s.len(),
        forall|j: int| 0 <= j < leading_spaces(s) ==> is_space(s[j]),
        leading_spaces(s) < s.len() ==> !is_space(s[leading_spaces(s)]),
    decreases s.len(),
{
    if s.len() == 0 || !is_space(s[0]) {
    } else {
        lemma_leading_spaces(s.skip(1));
        assert forall|j: int| 0 <= j < leading_spaces(s) implies is_space(s[j]) by {
            if j > 0 {
                assert(is_space(s.skip(1)[j - 1]));
            }
        }
    }
}

pub proof fn lemma_trailing_spaces(s: Seq<char>)
    ensures
        0 <= trailing_spaces(s) <= s.len(),
        forall|j: int| s.len() - trailing_spaces(s) <= j < s.len() ==> is_space(s[j]),
        trailing_spaces(s) < s.len() ==> !is_space(s[s.len() - trailing_spaces(s) - 1]),
    decreases s.len(),
{
    if s.len() == 0 || !is_space(s[s.len() - 1]) {
    } else {
        lemma_trailing_spaces(s.take(s.len() - 1));
        assert forall|j: int| s.len() - trailing_spaces(s) <= j < s.len() implies is_space(s[j]) by {
            if j < s.len() - 1 {
                assert(is_space(s.take(s.len() - 1)[j]));
            }
        }
    }
}

/// The trimmed span of `v`: characters with leading and trailing white space
/// removed.
pub fn trim_chars(v: &[char]) -> (r: Vec<char>)
    ensures
        r@ == trim_spaces(v@),
{
    proof {
        lemma_leading_spaces(v@);
        lemma_trailing_spaces(v@);
    }
    let n = v.len();
    let mut lo: usize = 0;
    while lo < n && is_space_char(*vstd::slice::slice_index_get(v, lo))
        invariant
            n == v@.len(),
            lo <= n,
            forall|j: int| 0 <= j < lo ==> is_space(v@[j]),
            lo <= leading_spaces(v@),
        decreases n - lo,
    {
        proof {
            lemma_leading_spaces(v@);
            if lo + 1 > leading_spaces(v@) {
                assert(!is_space(v@[leading_spaces(v@)]));
            }
        }
        lo = lo + 1;
    }
    if lo == n {
        proof {
            assert(leading_spaces(v@) == n as int);
        }
        return Vec::new();
    }
    assert(lo == leading_spaces(v@)) by {
        if lo < leading_spaces(v@) {
            assert(is_space(v@[lo as int]));
        }
    }
    let mut hi: usize = n;
    while hi > lo && is_space_char(*vstd::slice::slice_index_get(v, hi - 1))
        invariant
            n == v@.len(),
            lo < n,
            lo <= hi <= n,
            !is_space(v@[lo as int]),
            forall|j: int| hi <= j < n ==> is_space(v@[j]),
            n - hi <= trailing_spaces(v@),
        decreases hi,
    {
        proof {
            lemma_trailing_spaces(v@);
            if n - hi + 1 > trailing_spaces(v@) {
                assert(!is_space(v@[n - trailing_spaces(v@) - 1]));
            }
        }
        hi = hi - 1;
    }
    assert(n - hi == trailing_spaces(v@)) by {
        if n - hi < trailing_spaces(v@) {
            assert(is_space(v@[hi - 1]));
        }
    }
    let out = vstd::slice::slice_to_vec(&v[lo..hi]);
    assert(out@ =~= trim_spaces(v@));
    out
}

} // verus!
