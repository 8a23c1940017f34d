//! Character-level string helpers used throughout the library, and the
//! standard-library text functions the library relies on.
use vstd::prelude::*;

verus! {

// ---------------------------------------------------------------------------
// Trusted standard-library text functions
// ---------------------------------------------------------------------------

/// `String::push` appends one character to the end of the string.
pub assume_specification[ String::push ](s: &mut String, ch: char)
    ensures
        final(s)@ == old(s)@.push(ch),
;

/// What `char::is_alphanumeric` answers for a character (Unicode Alphabetic
/// or Numeric).
pub uninterp spec fn unicode_alphanumeric(c: char) -> bool;

/// What `char::is_whitespace` answers for a character (Unicode White_Space).
pub uninterp spec fn unicode_whitespace(c: char) -> bool;

/// What `str::to_lowercase` returns for a string (Unicode lowercase mapping,
/// which may change the length).
pub uninterp spec fn unicode_lowercase(s: Seq<char>) -> Seq<char>;

/// An ASCII character.
pub open spec fn is_ascii_char(c: char) -> bool {
    (c as u32) < 128
}

/// Every character is ASCII.
pub open spec fn all_ascii(s: Seq<char>) -> bool {
    forall|i: int| 0 <= i < s.len() ==> is_ascii_char(#[trigger] s[i])
}

/// An ASCII letter or digit.
pub open spec fn ascii_alnum(c: char) -> bool {
    ('a' <= c && c <= 'z') || ('A' <= c && c <= 'Z') || ('0' <= c && c <= '9')
}

/// The lowercase of an ASCII character: `A`..`Z` become `a`..`z`, every
/// other character stays.
pub open spec fn ascii_lower_char(c: char) -> char {
    if 'A' <= c && c <= 'Z' { ((c as u32) + 32) as char } else { c }
}

/// The lowercase of an ASCII text, character by character.
pub open spec fn ascii_lower(s: Seq<char>) -> Seq<char> {
    s.map_values(|c: char| ascii_lower_char(c))
}

/// Calls `char::is_alphanumeric`; its answer is `unicode_alphanumeric(c)`.
/// Of the ASCII characters exactly the letters (Unicode Alphabetic) and the
/// digits (Unicode Numeric) are alphanumeric.
#[verifier::external_body]
pub(crate) fn is_alphanumeric(c: char) -> (r: bool)
    ensures
        r == unicode_alphanumeric(c),
        is_ascii_char(c) ==> r == ascii_alnum(c),
{
    c.is_alphanumeric()
}

/// Calls `char::is_whitespace`; its answer is `unicode_whitespace(c)`.
#[verifier::external_body]
pub(crate) fn is_whitespace(c: char) -> (r: bool)
    ensures
        r == unicode_whitespace(c),
{
    c.is_whitespace()
}

/// Calls `str::to_lowercase`; its result is `unicode_lowercase(s)`. On an
/// ASCII text the Unicode lowercase mapping turns `A`..`Z` into `a`..`z`
/// and leaves every other character as it is.
#[verifier::external_body]
pub(crate) fn to_lowercase(s: &str) -> (r: String)
    ensures
        r@ == unicode_lowercase(s@),
        all_ascii(s@) ==> r@ == ascii_lower(s@),
{
    s.to_lowercase()
}

/// True when every character of `d` is an ASCII decimal digit and `d` is not empty.
pub open spec fn all_digits(d: Seq<char>) -> bool {
    &&& d.len() > 0
    &&& forall|i: int| 0 <= i < d.len() ==> '0' <= #[trigger] d[i] <= '9'
}

/// The value of a string of ASCII decimal digits.
pub open spec fn digits_value(d: Seq<char>) -> int
    decreases d.len(),
{
    if d.len() == 0 {
        0
    } else {
        digits_value(d.drop_last()) * 10 + (d.last() as int - '0' as int)
    }
}

/// The integer that Rust's decimal `from_str` for an integer type accepts:
/// an optional `+` (or, for a signed type, `-`) followed by one or more ASCII
/// digits, and nothing else.
pub open spec fn signed_decimal(s: Seq<char>, signed: bool) -> Option<int> {
    if s.len() > 0 && s[0] == '+' && all_digits(s.drop_first()) {
        Some(digits_value(s.drop_first()))
    } else if signed && s.len() > 0 && s[0] == '-' && all_digits(s.drop_first()) {
        Some(-digits_value(s.drop_first()))
    } else if all_digits(s) {
        Some(digits_value(s))
    } else {
        None
    }
}

/// `signed_decimal`, kept only when the value lies in `lo..=hi`.
pub open spec fn parse_in_range(s: Seq<char>, signed: bool, lo: int, hi: int) -> Option<int> {
    match signed_decimal(s, signed) {
        Some(v) => if lo <= v <= hi { Some(v) } else { None },
        None => None,
    }
}

/// Calls `str::parse::<i64>`: `Some` exactly for an optional sign followed by
/// decimal digits whose value fits in an `i64`.
#[verifier::external_body]
pub(crate) fn parse_i64(s: &str) -> (r: Option<i64>)
    ensures
        r matches Some(v) ==> parse_in_range(s@, true, i64::MIN as int, i64::MAX as int) == Some(v as int),
        r is None ==> parse_in_range(s@, true, i64::MIN as int, i64::MAX as int) is None,
{
    s.parse::<i64>().ok()
}

/// Calls `str::parse::<i32>`: `Some` exactly for an optional sign followed by
/// decimal digits whose value fits in an `i32`.
#[verifier::external_body]
pub(crate) fn parse_i32(s: &str) -> (r: Option<i32>)
    ensures
        r matches Some(v) ==> parse_in_range(s@, true, i32::MIN as int, i32::MAX as int) == Some(v as int),
        r is None ==> parse_in_range(s@, true, i32::MIN as int, i32::MAX as int) is None,
{
    s.parse::<i32>().ok()
}

/// Calls `str::parse::<u16>`: `Some` exactly for an optional `+` followed by
/// decimal digits whose value fits in a `u16`.
#[verifier::external_body]
pub(crate) fn parse_u16(s: &str) -> (r: Option<u16>)
    ensures
        r matches Some(v) ==> parse_in_range(s@, false, 0, u16::MAX as int) == Some(v as int),
        r is None ==> parse_in_range(s@, false, 0, u16::MAX as int) is None,
{
    s.parse::<u16>().ok()
}

/// Calls `str::parse::<u32>`: `Some` exactly for an optional `+` followed by
/// decimal digits whose value fits in a `u32`.
#[verifier::external_body]
pub(crate) fn parse_u32(s: &str) -> (r: Option<u32>)
    ensures
        r matches Some(v) ==> parse_in_range(s@, false, 0, u32::MAX as int) == Some(v as int),
        r is None ==> parse_in_range(s@, false, 0, u32::MAX as int) is None,
{
    s.parse::<u32>().ok()
}

/// Calls `str::parse::<u64>`: `Some` exactly for an optional `+` followed by
/// decimal digits whose value fits in a `u64`.
#[verifier::external_body]
pub(crate) fn parse_u64(s: &str) -> (r: Option<u64>)
    ensures
        r matches Some(v) ==> parse_in_range(s@, false, 0, u64::MAX as int) == Some(v as int),
        r is None ==> parse_in_range(s@, false, 0, u64::MAX as int) is None,
{
    s.parse::<u64>().ok()
}

/// The ASCII digit for `d` (`0 <= d < 10`).
pub open spec fn digit_char(d: nat) -> char {
    if d == 0 { '0' } else if d == 1 { '1' } else if d == 2 { '2' } else if d == 3 { '3' }
    else if d == 4 { '4' } else if d == 5 { '5' } else if d == 6 { '6' } else if d == 7 { '7' }
    else if d == 8 { '8' } else { '9' }
}

/// The decimal rendering of a natural number, without leading zeros.
pub open spec fn decimal(n: nat) -> Seq<char>
    decreases n,
{
    if n < 10 {
        seq![digit_char(n)]
    } else {
        decimal(n / 10).push(digit_char(n % 10))
    }
}

/// Calls `u64::to_string`, whose `Display` output is the plain decimal rendering.
#[verifier::external_body]
pub(crate) fn u64_text(n: u64) -> (r: String)
    ensures
        r@ == decimal(n as nat),
{
    n.to_string()
}

// ---------------------------------------------------------------------------
// Verified helpers
// ---------------------------------------------------------------------------

/// The characters of `s`, in order.
pub fn chars_of(s: &str) -> (v: Vec<char>)
    ensures
        v@ == s@,
{
    let mut v: Vec<char> = Vec::new();
    for c in it: s.chars()
        invariant
            v@ == it.seq().take(it.index()),
            it.seq() == s@,
    {
        v.push(c);
    }
    v
}

/// The string made of the characters `v[from..to]`.
pub fn string_of_range(v: &Vec<char>, from: usize, to: usize) -> (r: String)
    requires
        from <= to <= v.len(),
    ensures
        r@ == v@.subrange(from as int, to as int),
{
    let mut r = String::new();
    let mut i = from;
    while i < to
        invariant
            from <= i <= to <= v.len(),
            r@ == v@.subrange(from as int, i as int),
        decreases to - i,
    {
        r.push(v[i]);
        i = i + 1;
    }
    r
}

/// The string made of all characters of `v`.
pub fn string_of(v: &Vec<char>) -> (r: String)
    ensures
        r@ == v@,
{
    let r = string_of_range(v, 0, v.len());
    assert(v@.subrange(0, v.len() as int) =~= v@);
    r
}

/// An owned copy of `s`.
pub fn owned(s: &str) -> (r: String)
    ensures
        r@ == s@,
{
    let mut r = String::new();
    r.append(s);
    r
}

/// `a` followed by `b`.
pub fn concat2(a: &str, b: &str) -> (r: String)
    ensures
        r@ == a@ + b@,
{
    let mut r = owned(a);
    r.append(b);
    r
}

/// Whether two strings hold the same characters.
pub fn same_text(a: &str, b: &str) -> (r: bool)
    ensures
        r == (a@ == b@),
{
    let x = owned(a);
    let y = owned(b);
    x == y
}

/// `s` ends with `suffix`.
pub open spec fn ends_with(s: Seq<char>, suffix: Seq<char>) -> bool {
    suffix.len() <= s.len() && s.subrange(s.len() - suffix.len(), s.len() as int) == suffix
}

/// Whether `v` ends with `suffix`.
pub fn vec_ends_with(v: &Vec<char>, suffix: &Vec<char>) -> (r: bool)
    ensures
        r == ends_with(v@, suffix@),
{
    if suffix.len() > v.len() {
        return false;
    }
    let off = v.len() - suffix.len();
    let mut i: usize = 0;
    while i < suffix.len()
        invariant
            off + suffix.len() == v.len(),
            i <= suffix.len(),
            forall|j: int| 0 <= j < i ==> v@[off + j] == suffix@[j],
        decreases suffix.len() - i,
    {
        if v[off + i] != suffix[i] {
            assert(v@.subrange(off as int, v.len() as int)[i as int] != suffix@[i as int]);
            return false;
        }
        i = i + 1;
    }
    assert(v@.subrange(off as int, v.len() as int) =~= suffix@);
    true
}

/// `needle` occurs in `hay` at position `i`.
pub open spec fn occurs_at(hay: Seq<char>, needle: Seq<char>, i: int) -> bool {
    0 <= i && i + needle.len() <= hay.len() && hay.subrange(i, i + needle.len()) == needle
}

/// `i` is the first position at or after `from` where `needle` occurs in `hay`.
pub open spec fn first_occurrence_at(hay: Seq<char>, needle: Seq<char>, from: int, i: int) -> bool {
    &&& from <= i
    &&& occurs_at(hay, needle, i)
    &&& forall|j: int| from <= j < i ==> !occurs_at(hay, needle, j)
}

/// `needle` does not occur in `hay` at or after `from`.
pub open spec fn no_occurrence_from(hay: Seq<char>, needle: Seq<char>, from: int) -> bool {
    forall|j: int| from <= j ==> !occurs_at(hay, needle, j)
}

/// Whether `needle` occurs in `hay` at position `i`.
pub fn matches_at(hay: &Vec<char>, needle: &Vec<char>, i: usize) -> (r: bool)
    ensures
        r == occurs_at(hay@, needle@, i as int),
{
    if i > hay.len() || needle.len() > hay.len() - i {
        return false;
    }
    let mut k: usize = 0;
    while k < needle.len()
        invariant
            i + needle.len() <= hay.len(),
            k <= needle.len(),
            forall|j: int| 0 <= j < k ==> hay@[i + j] == needle@[j],
        decreases needle.len() - k,
    {
        if hay[i + k] != needle[k] {
            assert(hay@.subrange(i as int, i + needle.len())[k as int] != needle@[k as int]);
            return false;
        }
        k = k + 1;
    }
    assert(hay@.subrange(i as int, i + needle.len()) =~= needle@);
    true
}

/// The first position at or after `from` where `needle` occurs in `hay`.
pub fn find_from(hay: &Vec<char>, needle: &Vec<char>, from: usize) -> (r: Option<usize>)
    ensures
        match r {
            Some(i) => first_occurrence_at(hay@, needle@, from as int, i as int),
            None => no_occurrence_from(hay@, needle@, from as int),
        },
{
    if from > hay.len() {
        return None;
    }
    let mut i = from;
    while i < hay.len()
        invariant
            from <= i <= hay.len(),
            forall|j: int| from <= j < i ==> !occurs_at(hay@, needle@, j),
        decreases hay.len() - i,
    {
        if matches_at(hay, needle, i) {
            return Some(i);
        }
        i = i + 1;
    }
    if matches_at(hay, needle, i) {
        return Some(i);
    }
    None
}

/// The first position at or after `from` where `needle` occurs in `hay`.
pub open spec fn find_first(hay: Seq<char>, needle: Seq<char>, from: int) -> Option<int> {
    if exists|i: int| from <= i && #[trigger] occurs_at(hay, needle, i) {
        Some(choose|i: int| first_occurrence_at(hay, needle, from, i))
    } else {
        None
    }
}

proof fn lemma_first_occurrence_exists(hay: Seq<char>, needle: Seq<char>, from: int, k: int)
    requires
        from <= k,
        forall|j: int| from <= j < k ==> !occurs_at(hay, needle, j),
        exists|i: int| k <= i && #[trigger] occurs_at(hay, needle, i),
    ensures
        exists|i: int| first_occurrence_at(hay, needle, from, i),
    decreases hay.len() - k,
{
    let w = choose|i: int| k <= i && #[trigger] occurs_at(hay, needle, i);
    if occurs_at(hay, needle, k) {
        assert(first_occurrence_at(hay, needle, from, k));
    } else {
        assert(w > k);
        assert(k < hay.len());
        lemma_first_occurrence_exists(hay, needle, from, k + 1);
    }
}

/// `find_first` is the first occurrence, and there is none when it is `None`.
pub proof fn lemma_find_first(hay: Seq<char>, needle: Seq<char>, from: int)
    ensures
        match find_first(hay, needle, from) {
            Some(i) => first_occurrence_at(hay, needle, from, i),
            None => no_occurrence_from(hay, needle, from),
        },
{
    if exists|i: int| from <= i && #[trigger] occurs_at(hay, needle, i) {
        lemma_first_occurrence_exists(hay, needle, from, from);
    }
}

/// The first occurrence is unique.
pub proof fn lemma_find_first_is(hay: Seq<char>, needle: Seq<char>, from: int, i: int)
    requires
        first_occurrence_at(hay, needle, from, i),
    ensures
        find_first(hay, needle, from) == Some(i),
{
    lemma_find_first(hay, needle, from);
    let c = find_first(hay, needle, from).unwrap();
    if c < i {
        assert(!occurs_at(hay, needle, c));
    }
    if c > i {
        assert(!occurs_at(hay, needle, i));
    }
}

/// The first position at or after `from` where `needle` occurs in `hay`
/// (see `find_first`).
pub fn find(hay: &Vec<char>, needle: &Vec<char>, from: usize) -> (r: Option<usize>)
    ensures
        match r {
            Some(i) => find_first(hay@, needle@, from as int) == Some(i as int),
            None => find_first(hay@, needle@, from as int) is None,
        },
{
    let r = find_from(hay, needle, from);
    proof {
        match r {
            Some(i) => lemma_find_first_is(hay@, needle@, from as int, i as int),
            None => {
                lemma_find_first(hay@, needle@, from as int);
                if find_first(hay@, needle@, from as int) is Some {
                    let c = find_first(hay@, needle@, from as int).unwrap();
                    assert(!occurs_at(hay@, needle@, c));
                }
            },
        }
    }
    r
}

} // verus!
