//! Character-level helpers shared by the scanner, the upsert engine and the
//! renderer: character classes, whitespace trimming, decimal rendering and
//! small `Vec<char>` utilities.

use vstd::prelude::*;

verus! {

// ---------------------------------------------------------------------------
// Character classes
// ---------------------------------------------------------------------------

/// A character that may appear inside an identifier in the configuration
/// language: ASCII letters, digits, `_` and `-`.
pub open spec fn spec_is_identifier_char(c: char) -> bool {
    ||| 'a' <= c && c <= 'z'
    ||| 'A' <= c && c <= 'Z'
    ||| '0' <= c && c <= '9'
    ||| c == '_'
    ||| c == '-'
}

/// Decides whether `c` can be part of an identifier.
pub fn is_identifier_char(c: char) -> (r: bool)
    ensures
        r == spec_is_identifier_char(c),
{
    ('a' <= c && c <= 'z') || ('A' <= c && c <= 'Z') || ('0' <= c && c <= '9') || c == '_' || c
        == '-'
}

/// ASCII whitespace: space, tab, newline, carriage return and form feed.
pub open spec fn spec_is_ascii_space(c: char) -> bool {
    c == ' ' || c == '\t' || c == '\n' || c == '\r' || c == '\u{c}'
}

pub fn is_ascii_space(c: char) -> (r: bool)
    ensures
        r == spec_is_ascii_space(c),
{
    c == ' ' || c == '\t' || c == '\n' || c == '\r' || c == '\u{c}'
}

/// Unicode whitespace, the set used when trimming names.
pub open spec fn spec_is_space(c: char) -> bool {
    ||| ('\u{9}' <= c && c <= '\u{d}')
    ||| c == ' '
    ||| c == '\u{85}'
    ||| c == '\u{a0}'
    ||| c == '\u{1680}'
    ||| ('\u{2000}' <= c && c <= '\u{200a}')
    ||| c == '\u{2028}'
    ||| c == '\u{2029}'
    ||| c == '\u{202f}'
    ||| c == '\u{205f}'
    ||| c == '\u{3000}'
}

pub fn is_space(c: char) -> (r: bool)
    ensures
        r == spec_is_space(c),
{
    ('\u{9}' <= c && c <= '\u{d}') || c == ' ' || c == '\u{85}' || c == '\u{a0}' || c == '\u{1680}'
        || ('\u{2000}' <= c && c <= '\u{200a}') || c == '\u{2028}' || c == '\u{2029}' || c
        == '\u{202f}' || c == '\u{205f}' || c == '\u{3000}'
}

// ---------------------------------------------------------------------------
// Trimming
// ---------------------------------------------------------------------------

/// Index of the first non-whitespace character at or after `i`.
pub open spec fn spec_trim_lo(s: Seq<char>, i: int) -> int
    decreases s.len() - i,
    when 0 <= i <= s.len()
{
    if i < s.len() && spec_is_space(s[i]) {
        spec_trim_lo(s, i + 1)
    } else {
        i
    }
}

/// Index one past the last non-whitespace character strictly before `j`.
pub open spec fn spec_trim_hi(s: Seq<char>, j: int) -> int
    decreases j,
    when 0 <= j <= s.len()
{
    if j > 0 && spec_is_space(s[j - 1]) {
        spec_trim_hi(s, j - 1)
    } else {
        j
    }
}

/// `s` with leading and trailing whitespace removed, as `str::trim` does.
pub open spec fn spec_trim(s: Seq<char>) -> Seq<char> {
    let lo = spec_trim_lo(s, 0);
    let hi = spec_trim_hi(s, s.len() as int);
    if lo <= hi {
        s.subrange(lo, hi)
    } else {
        Seq::empty()
    }
}

pub proof fn lemma_trim_lo_bounds(s: Seq<char>, i: int)
    requires
        0 <= i <= s.len(),
    ensures
        i <= spec_trim_lo(s, i) <= s.len(),
        spec_trim_lo(s, i) < s.len() ==> !spec_is_space(s[spec_trim_lo(s, i)]),
        forall|k: int| i <= k < spec_trim_lo(s, i) ==> spec_is_space(s[k]),
    decreases s.len() - i,
{
    if i < s.len() && spec_is_space(s[i]) {
        lemma_trim_lo_bounds(s, i + 1);
    }
}

pub proof fn lemma_trim_hi_bounds(s: Seq<char>, j: int)
    requires
        0 <= j <= s.len(),
    ensures
        0 <= spec_trim_hi(s, j) <= j,
        spec_trim_hi(s, j) > 0 ==> !spec_is_space(s[spec_trim_hi(s, j) - 1]),
        forall|k: int| spec_trim_hi(s, j) <= k < j ==> spec_is_space(s[k]),
    decreases j,
{
    if j > 0 && spec_is_space(s[j - 1]) {
        lemma_trim_hi_bounds(s, j - 1);
    }
}

/// A copy of `v` with leading and trailing whitespace removed.
pub fn trim_chars(v: &Vec<char>) -> (r: Vec<char>)
    ensures
        r@ == spec_trim(v@),
{
    let len: usize = v.len();
    let mut lo: usize = 0;
    while lo < len && is_space(v[lo])
        invariant
            0 <= lo <= len,
            len == v.len(),
            spec_trim_lo(v@, 0) == spec_trim_lo(v@, lo as int),
        decreases len - lo,
    {
        lo = lo + 1;
    }
    assert(spec_trim_lo(v@, 0) == lo as int);
    let mut hi: usize = len;
    while hi > 0 && is_space(v[hi - 1])
        invariant
            0 <= hi <= len,
            len == v.len(),
            spec_trim_hi(v@, len as int) == spec_trim_hi(v@, hi as int),
        decreases hi,
    {
        hi = hi - 1;
    }
    assert(spec_trim_hi(v@, len as int) == hi as int);
    if lo <= hi {
        subvec(v, lo, hi)
    } else {
        let r: Vec<char> = Vec::new();
        r
    }
}

/// Whether `v` trims to the empty sequence, i.e. holds only whitespace.
pub fn trimmed_is_empty(v: &Vec<char>) -> (r: bool)
    ensures
        r == (spec_trim(v@).len() == 0),
{
    let mut i: usize = 0;
    let len: usize = v.len();
    while i < len && is_space(v[i])
        invariant
            0 <= i <= len,
            len == v.len(),
            spec_trim_lo(v@, 0) == spec_trim_lo(v@, i as int),
        decreases len - i,
    {
        i = i + 1;
    }
    assert(spec_trim_lo(v@, 0) == i as int);
    proof {
        lemma_trim_lo_bounds(v@, 0);
        lemma_trim_hi_bounds(v@, v@.len() as int);
        if i < len {
            // a non-whitespace character survives the trim
            assert(spec_trim_hi(v@, v@.len() as int) > i as int) by {
                if spec_trim_hi(v@, v@.len() as int) <= i as int {
                    assert(spec_is_space(v@[i as int]));
                }
            }
        }
    }
    i == len
}

// ---------------------------------------------------------------------------
// Decimal rendering
// ---------------------------------------------------------------------------

/// The character for a single decimal digit.
pub open spec fn spec_digit_char(d: int) -> char {
    if d == 0 {
        '0'
    } else if d == 1 {
        '1'
    } else if d == 2 {
        '2'
    } else if d == 3 {
        '3'
    } else if d == 4 {
        '4'
    } else if d == 5 {
        '5'
    } else if d == 6 {
        '6'
    } else if d == 7 {
        '7'
    } else if d == 8 {
        '8'
    } else {
        '9'
    }
}

/// Decimal rendering of a non-negative integer, without sign or padding.
pub open spec fn spec_udec(n: int) -> Seq<char>
    decreases n,
    when n >= 0
{
    if n < 10 {
        seq![spec_digit_char(n)]
    } else {
        spec_udec(n / 10).push(spec_digit_char(n % 10))
    }
}

pub proof fn lemma_udec_digits(n: int)
    requires
        n >= 0,
    ensures
        spec_udec(n).len() >= 1,
        forall|k: int|
            0 <= k < spec_udec(n).len() ==> '0' <= #[trigger] spec_udec(n)[k] && spec_udec(n)[k]
                <= '9',
    decreases n,
{
    if n >= 10 {
        lemma_udec_digits(n / 10);
        assert(forall|k: int|
            0 <= k < spec_udec(n / 10).len() ==> spec_udec(n)[k] == spec_udec(n / 10)[k]);
    }
}

pub proof fn lemma_udec_injective(a: int, b: int)
    requires
        a >= 0,
        b >= 0,
        spec_udec(a) == spec_udec(b),
    ensures
        a == b,
    decreases a,
{
    lemma_udec_digits(a);
    lemma_udec_digits(b);
    if a < 10 && b < 10 {
        assert(spec_udec(a)[0] == spec_digit_char(a));
        assert(spec_udec(b)[0] == spec_digit_char(b));
    } else if a < 10 {
        assert(spec_udec(b).len() == spec_udec(b / 10).len() + 1);
        assert(spec_udec(a).len() == 1);
    } else if b < 10 {
        assert(spec_udec(a).len() == spec_udec(a / 10).len() + 1);
        assert(spec_udec(b).len() == 1);
    } else {
        let ua = spec_udec(a);
        let ub = spec_udec(b);
        assert(ua == spec_udec(a / 10).push(spec_digit_char(a % 10)));
        assert(ub == spec_udec(b / 10).push(spec_digit_char(b % 10)));
        assert(ua.last() == spec_digit_char(a % 10));
        assert(ub.last() == spec_digit_char(b % 10));
        assert(a % 10 == b % 10);
        assert(spec_udec(a / 10) =~= ua.drop_last());
        assert(spec_udec(b / 10) =~= ub.drop_last());
        lemma_udec_injective(a / 10, b / 10);
    }
}

/// Decimal rendering of a signed integer.
pub open spec fn spec_idec(n: int) -> Seq<char> {
    if n < 0 {
        seq!['-'] + spec_udec(-n)
    } else {
        spec_udec(n)
    }
}

/// Rendering of `c` hundredths as a signed decimal with exactly two
/// places after the point.
pub open spec fn spec_centi(c: int) -> Seq<char> {
    let mag = if c < 0 {
        -c
    } else {
        c
    };
    let sign: Seq<char> = if c < 0 {
        seq!['-']
    } else {
        Seq::empty()
    };
    sign + spec_udec(mag / 100) + seq!['.', spec_digit_char((mag % 100) / 10), spec_digit_char(
        mag % 10,
    )]
}

fn digit_char(d: u64) -> (r: char)
    requires
        d < 10,
    ensures
        r == spec_digit_char(d as int),
{
    if d == 0 {
        '0'
    } else if d == 1 {
        '1'
    } else if d == 2 {
        '2'
    } else if d == 3 {
        '3'
    } else if d == 4 {
        '4'
    } else if d == 5 {
        '5'
    } else if d == 6 {
        '6'
    } else if d == 7 {
        '7'
    } else if d == 8 {
        '8'
    } else {
        '9'
    }
}

/// Appends the decimal rendering of `n` to `out`.
pub fn push_u64_dec(out: &mut Vec<char>, n: u64)
    ensures
        final(out)@ == old(out)@ + spec_udec(n as int),
    decreases n,
{
    if n < 10 {
        out.push(digit_char(n));
    } else {
        push_u64_dec(out, n / 10);
        out.push(digit_char(n % 10));
    }
}

/// Appends the decimal rendering of a signed `n` to `out`.
pub fn push_i64_dec(out: &mut Vec<char>, n: i64)
    ensures
        final(out)@ == old(out)@ + spec_idec(n as int),
{
    if n < 0 {
        out.push('-');
        let wide: i128 = -(n as i128);
        let mag: u64 = wide as u64;
        assert(mag as int == -(n as int));
        push_u64_dec(out, mag);
        assert(out@ == old(out)@ + spec_idec(n as int));
    } else {
        push_u64_dec(out, n as u64);
    }
}

/// Appends the two-decimal rendering of `c` hundredths to `out`.
pub fn push_centi(out: &mut Vec<char>, c: i64)
    ensures
        final(out)@ == old(out)@ + spec_centi(c as int),
{
    let mag: u64 = if c >= 0 {
        c as u64
    } else {
        let wide: i128 = -(c as i128);
        wide as u64
    };
    assert(mag as int == if c < 0 {
        -(c as int)
    } else {
        c as int
    });
    if c < 0 {
        out.push('-');
    }
    push_u64_dec(out, mag / 100);
    out.push('.');
    out.push(digit_char((mag % 100) / 10));
    out.push(digit_char(mag % 10));
    assert(out@ =~= old(out)@ + spec_centi(c as int));
}

// ---------------------------------------------------------------------------
// Vec<char> utilities
// ---------------------------------------------------------------------------

/// The characters of `v` in the half-open range `[from, to)`.
pub fn subvec(v: &Vec<char>, from: usize, to: usize) -> (r: Vec<char>)
    requires
        from <= to <= v.len(),
    ensures
        r@ == v@.subrange(from as int, to as int),
{
    let mut r: Vec<char> = Vec::new();
    let mut i: usize = from;
    while i < to
        invariant
            from <= i <= to <= v.len(),
            r@ == v@.subrange(from as int, i as int),
        decreases to - i,
    {
        r.push(v[i]);
        i = i + 1;
        assert(r@ =~= v@.subrange(from as int, i as int));
    }
    r
}

/// Appends all of `src` to `out`.
pub fn push_all(out: &mut Vec<char>, src: &Vec<char>)
    ensures
        final(out)@ == old(out)@ + src@,
{
    let mut i: usize = 0;
    while i < src.len()
        invariant
            0 <= i <= src.len(),
            out@ == old(out)@ + src@.subrange(0, i as int),
        decreases src.len() - i,
    {
        out.push(src[i]);
        i = i + 1;
        assert(out@ =~= old(out)@ + src@.subrange(0, i as int));
    }
    assert(out@ =~= old(out)@ + src@);
}

/// Appends the characters of `src` in `[from, to)` to `out`.
pub fn push_range(out: &mut Vec<char>, src: &Vec<char>, from: usize, to: usize)
    requires
        from <= to <= src.len(),
    ensures
        final(out)@ == old(out)@ + src@.subrange(from as int, to as int),
{
    let mut i: usize = from;
    while i < to
        invariant
            from <= i <= to <= src.len(),
            out@ == old(out)@ + src@.subrange(from as int, i as int),
        decreases to - i,
    {
        out.push(src[i]);
        i = i + 1;
        assert(out@ =~= old(out)@ + src@.subrange(from as int, i as int));
    }
}

/// Appends the characters of the string slice `s` to `out`.
pub fn push_str_chars(out: &mut Vec<char>, s: &str)
    ensures
        final(out)@ == old(out)@ + s@,
{
    let n: usize = s.unicode_len();
    let mut i: usize = 0;
    while i < n
        invariant
            0 <= i <= n,
            n == s@.len(),
            out@ == old(out)@ + s@.subrange(0, i as int),
        decreases n - i,
    {
        let c = s.get_char(i);
        out.push(c);
        i = i + 1;
        assert(out@ =~= old(out)@ + s@.subrange(0, i as int));
    }
    assert(out@ =~= old(out)@ + s@);
}

/// The characters of a string slice, in order.
pub fn str_to_chars(s: &str) -> (r: Vec<char>)
    ensures
        r@ == s@,
{
    let mut r: Vec<char> = Vec::new();
    push_str_chars(&mut r, s);
    r
}

/// Whether two character vectors hold the same characters.
pub fn char_vecs_equal(a: &Vec<char>, b: &Vec<char>) -> (r: bool)
    ensures
        r == (a@ == b@),
{
    if a.len() != b.len() {
        assert(a@ != b@);
        return false;
    }
    let mut i: usize = 0;
    while i < a.len()
        invariant
            0 <= i <= a.len(),
            a.len() == b.len(),
            forall|k: int| 0 <= k < i ==> a@[k] == b@[k],
        decreases a.len() - i,
    {
        if a[i] != b[i] {
            return false;
        }
        i = i + 1;
    }
    assert(a@ =~= b@);
    true
}

/// Whether the characters of `v` are exactly those of the string slice `s`.
pub fn chars_eq_str(v: &Vec<char>, s: &str) -> (r: bool)
    ensures
        r == (v@ == s@),
{
    let n: usize = s.unicode_len();
    if v.len() != n {
        assert(v@ != s@);
        return false;
    }
    let mut i: usize = 0;
    while i < n
        invariant
            0 <= i <= n,
            n == s@.len(),
            n == v.len(),
            forall|k: int| 0 <= k < i ==> v@[k] == s@[k],
        decreases n - i,
    {
        if v[i] != s.get_char(i) {
            return false;
        }
        i = i + 1;
    }
    assert(v@ =~= s@);
    true
}

/// Builds an owned `String` from a character vector.
///
/// Relies on `core::iter::Iterator::collect` for `String`, which concatenates
/// exactly the characters the iterator yields, in order.
#[verifier::external_body]
pub fn chars_to_string(v: &Vec<char>) -> (s: String)
    ensures
        s@ == v@,
{
    v.iter().collect()
}

} // verus!
