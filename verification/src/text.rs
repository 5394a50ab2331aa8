//! Character-level text primitives with their specifications: white space,
//! trimming, splitting, joining and decimal numbers.
//!
//! Text is handled as a `Vec<char>` together with half-open index ranges into
//! it; the specifications speak of the corresponding `Seq<char>` values.

use vstd::prelude::*;

verus! {

/// `String::push` appends one character.
pub assume_specification[ String::push ](s: &mut String, ch: char)
    ensures
        final(s)@ == old(s)@.push(ch),
;

/// `String::push_str` appends the characters of a string slice.
pub assume_specification[ String::push_str ](s: &mut String, string: &str)
    ensures
        final(s)@ == old(s)@ + string@,
;

/// Unicode `White_Space`: the characters for which `char::is_whitespace` holds.
pub open spec fn is_ws(c: char) -> bool {
    ||| ('\u{9}' <= c && c <= '\u{d}')
    ||| c == ' '
    ||| c == '\u{85}'
    ||| c == '\u{a0}'
    ||| c == '\u{1680}'
    ||| ('\u{2000}' <= c && c <= '\u{200a}')
    ||| c == '\u{2028}'
    ||| c == '\u{2029}'
    ||| c == '\u{202f}'
    ||| c == '\u{205f}'
    ||| c == '\u{3000}'
}

/// `s` with its leading white space removed.
pub open spec fn trim_start(s: Seq<char>) -> Seq<char>
    decreases s.len(),
{
    if s.len() > 0 && is_ws(s[0]) {
        trim_start(s.drop_first())
    } else {
        s
    }
}

/// `s` with its trailing white space removed.
pub open spec fn trim_end(s: Seq<char>) -> Seq<char>
    decreases s.len(),
{
    if s.len() > 0 && is_ws(s.last()) {
        trim_end(s.drop_last())
    } else {
        s
    }
}

/// `s` with leading and trailing white space removed (`str::trim`).
pub open spec fn trim(s: Seq<char>) -> Seq<char> {
    trim_end(trim_start(s))
}

/// The white-space separated words of `s` (`str::split_whitespace`), read
/// left to right: a character that is not white space either extends the
/// word that the previous character belongs to or starts a new one.
pub open spec fn words(s: Seq<char>) -> Seq<Seq<char>>
    decreases s.len(),
{
    if s.len() == 0 {
        Seq::empty()
    } else {
        let prev = words(s.drop_last());
        let c = s.last();
        if is_ws(c) {
            prev
        } else if s.len() >= 2 && !is_ws(s[s.len() - 2]) {
            prev.update(prev.len() - 1, prev.last().push(c))
        } else {
            prev.push(seq![c])
        }
    }
}

/// The character sequences of a sequence of strings.
pub open spec fn views(s: Seq<String>) -> Seq<Seq<char>> {
    s.map_values(|t: String| t@)
}

/// Each piece trimmed.
pub open spec fn trim_each(s: Seq<Seq<char>>) -> Seq<Seq<char>> {
    s.map_values(|t: Seq<char>| trim(t))
}

/// The pieces of `s` between occurrences of `d` (`str::split` with a
/// character pattern), empty pieces included; there is always at least one.
pub open spec fn split_on(s: Seq<char>, d: char) -> Seq<Seq<char>>
    decreases s.len(),
{
    if s.len() == 0 {
        seq![Seq::empty()]
    } else {
        let prev = split_on(s.drop_last(), d);
        if s.last() == d {
            prev.push(Seq::empty())
        } else {
            prev.update(prev.len() - 1, prev.last().push(s.last()))
        }
    }
}

/// The parts concatenated with `sep` between neighbours (`[String]::join`).
pub open spec fn join(parts: Seq<Seq<char>>, sep: Seq<char>) -> Seq<char>
    decreases parts.len(),
{
    if parts.len() == 0 {
        Seq::empty()
    } else if parts.len() == 1 {
        parts[0]
    } else {
        join(parts.drop_last(), sep) + sep + parts.last()
    }
}

/// The character of a decimal digit.
pub open spec fn digit_char(d: nat) -> char {
    (d + 48) as char
}

/// Whether `c` is one of `0`..`9`.
pub open spec fn is_digit(c: char) -> bool {
    '0' <= c && c <= '9'
}

/// The decimal rendering of `n` without leading zeros (`Display` of an
/// unsigned integer).
pub open spec fn decimal(n: nat) -> Seq<char>
    decreases n,
{
    if n < 10 {
        seq![digit_char(n)]
    } else {
        decimal(n / 10).push(digit_char(n % 10))
    }
}

/// The value of a string of decimal digits.
pub open spec fn digits_value(s: Seq<char>) -> nat
    decreases s.len(),
{
    if s.len() == 0 {
        0
    } else {
        digits_value(s.drop_last()) * 10 + ((s.last() as int - 48) as nat)
    }
}

/// The digits part of an unsigned number: `s` without one leading `+`.
pub open spec fn unsigned_digits(s: Seq<char>) -> Seq<char> {
    if s.len() > 0 && s[0] == '+' {
        s.drop_first()
    } else {
        s
    }
}

/// Whether every character of `s` is a decimal digit.
pub open spec fn all_digits(s: Seq<char>) -> bool {
    forall|i: int| 0 <= i < s.len() ==> is_digit(#[trigger] s[i])
}

/// Unsigned decimal parsing as `FromStr` does it for unsigned integers whose
/// largest value is `max`: an optional `+`, then one or more digits whose
/// value is at most `max`.
pub open spec fn parse_unsigned(s: Seq<char>, max: nat) -> Option<nat> {
    let d = unsigned_digits(s);
    if d.len() > 0 && all_digits(d) && digits_value(d) <= max {
        Some(digits_value(d))
    } else {
        None
    }
}

/// `s` without one leading `+` or `-`.
pub open spec fn unsigned_part(s: Seq<char>) -> Seq<char> {
    if s.len() > 0 && (s[0] == '+' || s[0] == '-') {
        s.drop_first()
    } else {
        s
    }
}

/// Whether `c` marks an exponent.
pub open spec fn is_exp_mark(c: char) -> bool {
    c == 'e' || c == 'E'
}

/// Whether `m` is a decimal mantissa: digits and at most one `.`, with at
/// least one digit.
pub open spec fn valid_mantissa(m: Seq<char>) -> bool {
    &&& forall|i: int| 0 <= i < m.len() ==> is_digit(#[trigger] m[i]) || m[i] == '.'
    &&& forall|i: int, j: int|
        0 <= i < m.len() && 0 <= j < m.len() && #[trigger] m[i] == '.' && #[trigger] m[j] == '.'
            ==> i == j
    &&& exists|i: int| 0 <= i < m.len() && is_digit(#[trigger] m[i])
}

/// Whether `x` is an exponent: an optional sign, then one or more digits.
pub open spec fn valid_exponent(x: Seq<char>) -> bool {
    unsigned_part(x).len() > 0 && all_digits(unsigned_part(x))
}

/// Whether `b` is a decimal number: a mantissa, then optionally `e` or `E`
/// and an exponent.
pub open spec fn valid_decimal(b: Seq<char>) -> bool {
    ||| valid_mantissa(b)
    ||| exists|i: int|
        0 <= i < b.len() && is_exp_mark(#[trigger] b[i]) && valid_mantissa(b.take(i))
            && valid_exponent(b.skip(i + 1))
}

/// Whether `s` is text that `FromStr` reads as a binary64 number: an
/// optional sign, then `inf`, `infinity` or `nan` in any letter case, or a
/// decimal number.
pub open spec fn valid_float_text(s: Seq<char>) -> bool {
    let b = unsigned_part(s);
    ||| eq_ignore_ascii_case(b, "inf"@)
    ||| eq_ignore_ascii_case(b, "infinity"@)
    ||| eq_ignore_ascii_case(b, "nan"@)
    ||| valid_decimal(b)
}

/// Whether `a` and `b` are equal when ASCII letters are compared without
/// regard to case (`str::eq_ignore_ascii_case`).
pub open spec fn eq_ignore_ascii_case(a: Seq<char>, b: Seq<char>) -> bool {
    a.len() == b.len() && forall|i: int|
        0 <= i < a.len() ==> ascii_lower(#[trigger] a[i]) == ascii_lower(b[i])
}

/// The ASCII lower-case form of `c` (`char::to_ascii_lowercase`).
pub open spec fn ascii_lower(c: char) -> char {
    if 'A' <= c && c <= 'Z' {
        ((c as int) + 32) as char
    } else {
        c
    }
}

/// Whether `c` is white space in the sense of `char::is_whitespace`.
pub fn is_whitespace(c: char) -> (b: bool)
    ensures
        b == is_ws(c),
{
    ('\u{9}' <= c && c <= '\u{d}') || c == ' ' || c == '\u{85}' || c == '\u{a0}' || c
        == '\u{1680}' || ('\u{2000}' <= c && c <= '\u{200a}') || c == '\u{2028}' || c
        == '\u{2029}' || c == '\u{202f}' || c == '\u{205f}' || c == '\u{3000}'
}

/// The characters of `s`, in order.
pub fn chars_of(s: &str) -> (v: Vec<char>)
    ensures
        v@ == s@,
{
    let mut v: Vec<char> = Vec::new();
    for c in it: s.chars()
        invariant
            it.seq() == s@,
            v@ == s@.take(it.index() as int),
    {
        v.push(c);
    }
    v
}

/// A `String` holding `v[lo..hi]`.
pub fn string_of(v: &Vec<char>, lo: usize, hi: usize) -> (s: String)
    requires
        lo <= hi <= v.len(),
    ensures
        s@ == v@.subrange(lo as int, hi as int),
{
    let mut s = String::new();
    let mut i = lo;
    while i < hi
        invariant
            lo <= i <= hi <= v.len(),
            s@ == v@.subrange(lo as int, i as int),
        decreases hi - i,
    {
        s.push(v[i]);
        assert(v@.subrange(lo as int, i + 1) =~= v@.subrange(lo as int, i as int).push(v@[i as int]));
        i += 1;
    }
    s
}

/// Whether `v[lo..hi]` is exactly the characters of `lit`.
pub fn range_equals(v: &Vec<char>, lo: usize, hi: usize, lit: &str) -> (b: bool)
    requires
        lo <= hi <= v.len(),
    ensures
        b == (v@.subrange(lo as int, hi as int) == lit@),
{
    let w = chars_of(lit);
    if hi - lo != w.len() {
        return false;
    }
    let mut i: usize = 0;
    while i < w.len()
        invariant
            hi - lo == w.len(),
            lo <= hi <= v.len(),
            w@ == lit@,
            i <= w.len(),
            forall|k: int| 0 <= k < i ==> v@[lo + k] == w@[k],
        decreases w.len() - i,
    {
        if v[lo + i] != w[i] {
            assert(v@.subrange(lo as int, hi as int)[i as int] != lit@[i as int]);
            return false;
        }
        i += 1;
    }
    assert(v@.subrange(lo as int, hi as int) =~= lit@);
    true
}

/// The bounds of `v[lo..hi]` once leading and trailing white space is cut off.
pub fn trim_range(v: &Vec<char>, lo: usize, hi: usize) -> (r: (usize, usize))
    requires
        lo <= hi <= v.len(),
    ensures
        lo <= r.0 <= r.1 <= hi,
        v@.subrange(r.0 as int, r.1 as int) == trim(v@.subrange(lo as int, hi as int)),
        r.0 < r.1 ==> !is_ws(v@[r.0 as int]) && !is_ws(v@[r.1 - 1]),
{
    let mut a = lo;
    while a < hi && is_whitespace(v[a])
        invariant
            lo <= a <= hi <= v.len(),
            trim_start(v@.subrange(lo as int, hi as int)) == trim_start(
                v@.subrange(a as int, hi as int),
            ),
        decreases hi - a,
    {
        assert(v@.subrange(a as int, hi as int).drop_first() =~= v@.subrange(a + 1, hi as int));
        a += 1;
    }
    assert(trim_start(v@.subrange(a as int, hi as int)) == v@.subrange(a as int, hi as int));
    let mut b = hi;
    while b > a && is_whitespace(v[b - 1])
        invariant
            lo <= a <= b <= hi <= v.len(),
            a < hi ==> !is_ws(v@[a as int]),
            trim(v@.subrange(lo as int, hi as int)) == trim_end(v@.subrange(a as int, b as int)),
        decreases b - a,
    {
        assert(v@.subrange(a as int, b as int).drop_last() =~= v@.subrange(a as int, b - 1));
        b -= 1;
    }
    (a, b)
}

/// The end of `v[lo..hi]` once trailing white space is cut off.
pub fn trim_end_range(v: &Vec<char>, lo: usize, hi: usize) -> (r: usize)
    requires
        lo <= hi <= v.len(),
    ensures
        lo <= r <= hi,
        v@.subrange(lo as int, r as int) == trim_end(v@.subrange(lo as int, hi as int)),
{
    let mut b = hi;
    while b > lo && is_whitespace(v[b - 1])
        invariant
            lo <= b <= hi <= v.len(),
            trim_end(v@.subrange(lo as int, hi as int)) == trim_end(v@.subrange(lo as int, b as int)),
        decreases b - lo,
    {
        assert(v@.subrange(lo as int, b as int).drop_last() =~= v@.subrange(lo as int, b - 1));
        b -= 1;
    }
    b
}

/// `s` with leading and trailing white space removed.
pub fn trim_str(s: &str) -> (t: String)
    ensures
        t@ == trim(s@),
{
    let v = chars_of(s);
    let (a, b) = trim_range(&v, 0, v.len());
    assert(v@.subrange(0, v.len() as int) =~= v@);
    string_of(&v, a, b)
}

/// Whether the ranges in `r` are the pieces `pieces` of `v`.
pub open spec fn ranges_hold(v: Seq<char>, r: Seq<(usize, usize)>, pieces: Seq<Seq<char>>) -> bool {
    &&& r.len() == pieces.len()
    &&& forall|k: int|
        0 <= k < r.len() ==> {
            &&& (#[trigger] r[k]).0 <= r[k].1 <= v.len()
            &&& v.subrange(r[k].0 as int, r[k].1 as int) == pieces[k]
        }
}

/// The ranges of the white-space separated words of `v`.
pub fn word_ranges(v: &Vec<char>) -> (r: Vec<(usize, usize)>)
    ensures
        ranges_hold(v@, r@, words(v@)),
        forall|k: int| 0 <= k < r.len() ==> (#[trigger] r@[k]).0 < r@[k].1,
{
    let mut r: Vec<(usize, usize)> = Vec::new();
    let mut i: usize = 0;
    while i < v.len()
        invariant
            i <= v.len(),
            ranges_hold(v@, r@, words(v@.take(i as int))),
            forall|k: int| 0 <= k < r.len() ==> (#[trigger] r@[k]).0 < r@[k].1 <= i,
            i > 0 && !is_ws(v@[i - 1]) ==> r.len() > 0 && r@[r.len() - 1].1 == i,
        decreases v.len() - i,
    {
        let ghost prev = words(v@.take(i as int));
        assert(v@.take(i + 1).drop_last() =~= v@.take(i as int));
        assert(v@.take(i + 1).last() == v@[i as int]);
        let c = v[i];
        if is_whitespace(c) {
        } else if i > 0 && !is_whitespace(v[i - 1]) {
            let last = r.pop().unwrap();
            let a = last.0;
            assert(v@.subrange(a as int, i + 1) =~= v@.subrange(a as int, i as int).push(c));
            r.push((a, i + 1));
        } else {
            assert(v@.subrange(i as int, i + 1) =~= seq![c]);
            r.push((i, i + 1));
        }
        i += 1;
    }
    assert(v@.take(v.len() as int) =~= v@);
    r
}

/// The ranges of the pieces of `v[lo..hi]` between occurrences of `d`.
pub fn split_ranges(v: &Vec<char>, lo: usize, hi: usize, d: char) -> (r: Vec<(usize, usize)>)
    requires
        lo <= hi <= v.len(),
    ensures
        ranges_hold(v@, r@, split_on(v@.subrange(lo as int, hi as int), d)),
        forall|k: int| 0 <= k < r.len() ==> lo <= (#[trigger] r@[k]).0,
        forall|k: int, j: int|
            0 <= k < r.len() && (#[trigger] r@[k]).0 <= j < r@[k].1 ==> #[trigger] v@[j] != d,
        r.len() >= 1,
{
    let mut r: Vec<(usize, usize)> = Vec::new();
    r.push((lo, lo));
    assert(v@.subrange(lo as int, lo as int) =~= Seq::<char>::empty());
    let mut i = lo;
    while i < hi
        invariant
            lo <= i <= hi <= v.len(),
            r.len() >= 1,
            ranges_hold(v@, r@, split_on(v@.subrange(lo as int, i as int), d)),
            forall|k: int| 0 <= k < r.len() ==> lo <= (#[trigger] r@[k]).0 <= r@[k].1 <= i,
            forall|k: int, j: int|
                0 <= k < r.len() && (#[trigger] r@[k]).0 <= j < r@[k].1 ==> #[trigger] v@[j] != d,
            r@[r.len() - 1].1 == i,
        decreases hi - i,
    {
        assert(v@.subrange(lo as int, i + 1).drop_last() =~= v@.subrange(lo as int, i as int));
        let c = v[i];
        if c == d {
            assert(v@.subrange(i + 1, i + 1) =~= Seq::<char>::empty());
            r.push((i + 1, i + 1));
        } else {
            let last = r.pop().unwrap();
            let a = last.0;
            assert(v@.subrange(a as int, i + 1) =~= v@.subrange(a as int, i as int).push(c));
            r.push((a, i + 1));
        }
        i += 1;
    }
    r
}

/// Appends the decimal rendering of `n` to `out`.
pub fn push_decimal(out: &mut String, n: u64)
    ensures
        final(out)@ == old(out)@ + decimal(n as nat),
    decreases n,
{
    if n >= 10 {
        push_decimal(out, n / 10);
    }
    let d = (n % 10) as u8;
    let c = (48u8 + d) as char;
    assert(c == digit_char((n % 10) as nat));
    out.push(c);
    assert(decimal(n as nat) == if n < 10 {
        seq![digit_char(n as nat)]
    } else {
        decimal((n / 10) as nat).push(digit_char((n % 10) as nat))
    });
}

/// Parses `v[lo..hi]` as an unsigned decimal number of at most `max`.
pub fn parse_unsigned_range(v: &Vec<char>, lo: usize, hi: usize, max: u64) -> (r: Option<u64>)
    requires
        lo <= hi <= v.len(),
    ensures
        match parse_unsigned(v@.subrange(lo as int, hi as int), max as nat) {
            Some(n) => r == Some(n as u64),
            None => r is None,
        },
{
    let ghost s = v@.subrange(lo as int, hi as int);
    let mut start = lo;
    if lo < hi && v[lo] == '+' {
        start = lo + 1;
    }
    assert(v@.subrange(start as int, hi as int) =~= unsigned_digits(s));
    if start == hi {
        return None;
    }
    let cap: u128 = max as u128 + 1;
    let mut acc: u128 = 0;
    let mut i = start;
    while i < hi
        invariant
            lo <= start < hi <= v.len(),
            start <= i <= hi,
            cap == max + 1,
            s == v@.subrange(lo as int, hi as int),
            v@.subrange(start as int, hi as int) == unsigned_digits(s),
            forall|k: int| start <= k < i ==> is_digit(#[trigger] v@[k]),
            acc == if digits_value(v@.subrange(start as int, i as int)) < cap {
                digits_value(v@.subrange(start as int, i as int))
            } else {
                cap as nat
            },
        decreases hi - i,
    {
        let c = v[i];
        if !('0' <= c && c <= '9') {
            let ghost dd = v@.subrange(start as int, hi as int);
            assert(dd[i - start] == v@[i as int]);
            assert(!is_digit(dd[i - start]));
            return None;
        }
        let ghost pre = v@.subrange(start as int, i as int);
        assert(v@.subrange(start as int, i + 1).drop_last() =~= pre);
        let d = (c as u32 - 48) as u128;
        acc = acc * 10 + d;
        if acc > cap {
            acc = cap;
        }
        i += 1;
    }
    assert forall|k: int|
        0 <= k < v@.subrange(start as int, hi as int).len() implies is_digit(
        #[trigger] v@.subrange(start as int, hi as int)[k],
    ) by {
        assert(v@.subrange(start as int, hi as int)[k] == v@[start + k]);
    }
    if acc <= max as u128 {
        Some(acc as u64)
    } else {
        None
    }
}

/// Whether `v[lo..hi]` is a decimal mantissa.
pub fn mantissa_range(v: &Vec<char>, lo: usize, hi: usize) -> (b: bool)
    requires
        lo <= hi <= v.len(),
    ensures
        b == valid_mantissa(v@.subrange(lo as int, hi as int)),
{
    let ghost m = v@.subrange(lo as int, hi as int);
    let mut dot: Option<usize> = None;
    let mut digit = false;
    let mut i = lo;
    while i < hi
        invariant
            lo <= i <= hi <= v.len(),
            m == v@.subrange(lo as int, hi as int),
            forall|k: int| lo <= k < i ==> is_digit(#[trigger] v@[k]) || v@[k] == '.',
            match dot {
                Some(d) => lo <= d < i && v@[d as int] == '.' && forall|k: int|
                    lo <= k < i && #[trigger] v@[k] == '.' ==> k == d,
                None => forall|k: int| lo <= k < i ==> #[trigger] v@[k] != '.',
            },
            digit == exists|k: int| lo <= k < i && is_digit(#[trigger] v@[k]),
        decreases hi - i,
    {
        let c = v[i];
        if c == '.' {
            if dot.is_some() {
                let d = dot.unwrap();
                assert(m[d - lo] == '.' && m[i - lo] == '.');
                return false;
            }
            dot = Some(i);
        } else if '0' <= c && c <= '9' {
            digit = true;
        } else {
            assert(!(is_digit(m[i - lo]) || m[i - lo] == '.'));
            return false;
        }
        i += 1;
    }
    assert forall|k: int| 0 <= k < m.len() implies is_digit(#[trigger] m[k]) || m[k] == '.' by {
        assert(m[k] == v@[lo + k]);
    }
    assert forall|a: int, c: int|
        0 <= a < m.len() && 0 <= c < m.len() && #[trigger] m[a] == '.' && #[trigger] m[c] == '.'
        implies a == c by {
        assert(m[a] == v@[lo + a]);
        assert(m[c] == v@[lo + c]);
    }
    if digit {
        let ghost k = choose|k: int| lo <= k < hi && is_digit(#[trigger] v@[k]);
        assert(m[k - lo] == v@[k]);
    } else {
        assert forall|k: int| 0 <= k < m.len() implies !is_digit(#[trigger] m[k]) by {
            assert(m[k] == v@[lo + k]);
        }
    }
    digit
}

/// Whether `v[lo..hi]` is an exponent: an optional sign, then digits.
pub fn exponent_range(v: &Vec<char>, lo: usize, hi: usize) -> (b: bool)
    requires
        lo <= hi <= v.len(),
    ensures
        b == valid_exponent(v@.subrange(lo as int, hi as int)),
{
    let ghost x = v@.subrange(lo as int, hi as int);
    let mut start = lo;
    if lo < hi && (v[lo] == '+' || v[lo] == '-') {
        start = lo + 1;
    }
    assert(v@.subrange(start as int, hi as int) =~= unsigned_part(x));
    if start == hi {
        return false;
    }
    let mut i = start;
    while i < hi
        invariant
            lo <= start <= i <= hi <= v.len(),
            x == v@.subrange(lo as int, hi as int),
            v@.subrange(start as int, hi as int) == unsigned_part(x),
            forall|k: int| start <= k < i ==> is_digit(#[trigger] v@[k]),
        decreases hi - i,
    {
        if !('0' <= v[i] && v[i] <= '9') {
            assert(unsigned_part(x)[i - start] == v@[i as int]);
            return false;
        }
        i += 1;
    }
    assert forall|k: int| 0 <= k < unsigned_part(x).len() implies is_digit(
        #[trigger] unsigned_part(x)[k],
    ) by {
        assert(unsigned_part(x)[k] == v@[start + k]);
    }
    true
}

/// Whether `v[lo..hi]` is text that `FromStr` reads as a binary64 number.
pub fn float_text_range(v: &Vec<char>, lo: usize, hi: usize) -> (r: bool)
    requires
        lo <= hi <= v.len(),
    ensures
        r == valid_float_text(v@.subrange(lo as int, hi as int)),
{
    let ghost s = v@.subrange(lo as int, hi as int);
    let mut start = lo;
    if lo < hi && (v[lo] == '+' || v[lo] == '-') {
        start = lo + 1;
    }
    let ghost b = v@.subrange(start as int, hi as int);
    assert(b =~= unsigned_part(s));
    if range_eq_ignore_ascii_case(v, start, hi, "inf") || range_eq_ignore_ascii_case(
        v,
        start,
        hi,
        "infinity",
    ) || range_eq_ignore_ascii_case(v, start, hi, "nan") {
        return true;
    }
    let mut i = start;
    while i < hi && !(v[i] == 'e' || v[i] == 'E')
        invariant
            start <= i <= hi <= v.len(),
            forall|k: int| start <= k < i ==> !is_exp_mark(#[trigger] v@[k]),
        decreases hi - i,
    {
        i += 1;
    }
    if i == hi {
        assert forall|k: int| 0 <= k < b.len() implies !is_exp_mark(#[trigger] b[k]) by {
            assert(b[k] == v@[start + k]);
        }
        return mantissa_range(v, start, hi);
    }
    let e = i - start;
    assert(b[e as int] == v@[i as int]);
    assert(!valid_mantissa(b)) by {
        assert(!(is_digit(b[e as int]) || b[e as int] == '.'));
    }
    let m = mantissa_range(v, start, i);
    let x = exponent_range(v, i + 1, hi);
    assert(b.take(e as int) =~= v@.subrange(start as int, i as int));
    assert(b.skip(e + 1) =~= v@.subrange(i + 1, hi as int));
    if m && x {
        return true;
    }
    assert forall|j: int|
        0 <= j < b.len() && is_exp_mark(#[trigger] b[j]) implies !(valid_mantissa(b.take(j))
        && valid_exponent(b.skip(j + 1))) by {
        if j < e {
            assert(b[j] == v@[start + j]);
        } else if j > e {
            assert(b.take(j)[e as int] == b[e as int]);
        }
    }
    false
}

/// Whether `v[lo..hi]` equals `lit` when ASCII letters are compared without
/// regard to case.
pub fn range_eq_ignore_ascii_case(v: &Vec<char>, lo: usize, hi: usize, lit: &str) -> (b: bool)
    requires
        lo <= hi <= v.len(),
    ensures
        b == eq_ignore_ascii_case(v@.subrange(lo as int, hi as int), lit@),
{
    let w = chars_of(lit);
    if hi - lo != w.len() {
        return false;
    }
    let mut i: usize = 0;
    while i < w.len()
        invariant
            hi - lo == w.len(),
            lo <= hi <= v.len(),
            w@ == lit@,
            i <= w.len(),
            forall|k: int| 0 <= k < i ==> ascii_lower(v@[lo + k]) == ascii_lower(w@[k]),
        decreases w.len() - i,
    {
        if to_ascii_lower(v[lo + i]) != to_ascii_lower(w[i]) {
            assert(v@.subrange(lo as int, hi as int)[i as int] == v@[lo + i]);
            return false;
        }
        i += 1;
    }
    assert forall|k: int| 0 <= k < w.len() implies ascii_lower(
        #[trigger] v@.subrange(lo as int, hi as int)[k],
    ) == ascii_lower(lit@[k]) by {
        assert(v@.subrange(lo as int, hi as int)[k] == v@[lo + k]);
    }
    true
}

/// The ASCII lower-case form of `c`.
pub fn to_ascii_lower(c: char) -> (r: char)
    ensures
        r == ascii_lower(c),
{
    if 'A' <= c && c <= 'Z' {
        ((c as u8) + 32) as char
    } else {
        c
    }
}

/// Whether `s` holds no white space.
pub open spec fn no_ws(s: Seq<char>) -> bool {
    forall|i: int| 0 <= i < s.len() ==> !is_ws(#[trigger] s[i])
}

/// Text that neither starts nor ends with white space is its own trim.
pub proof fn lemma_trim_edges(s: Seq<char>)
    requires
        s.len() > 0 ==> !is_ws(s[0]) && !is_ws(s.last()),
    ensures
        trim(s) == s,
{
}

/// Text without white space is its own trim.
pub proof fn lemma_trim_no_ws(s: Seq<char>)
    requires
        no_ws(s),
    ensures
        trim(s) == s,
{
    if s.len() > 0 {
        assert(!is_ws(s[0]));
        assert(!is_ws(s.last()));
    }
}

/// A non-empty text without white space is a single word.
pub proof fn lemma_words_single(s: Seq<char>)
    requires
        s.len() > 0,
        no_ws(s),
    ensures
        words(s) == seq![s],
    decreases s.len(),
{
    let p = s.drop_last();
    assert(!is_ws(s.last()));
    if p.len() == 0 {
        assert(words(p) =~= Seq::<Seq<char>>::empty());
        assert(s =~= seq![s.last()]);
    } else {
        assert(no_ws(p));
        lemma_words_single(p);
        assert(!is_ws(s[s.len() - 2]));
        assert(p.push(s.last()) =~= s);
        assert(words(s) =~= seq![s]);
    }
}

/// A white-space character separates the words before it from those after it.
pub proof fn lemma_words_split(x: Seq<char>, c: char, y: Seq<char>)
    requires
        is_ws(c),
    ensures
        words(x.push(c) + y) == words(x) + words(y),
    decreases y.len(),
{
    let s = x.push(c) + y;
    if y.len() == 0 {
        assert(s =~= x.push(c));
        assert(s.drop_last() =~= x);
        assert(words(x) + words(y) =~= words(x));
    } else {
        let yp = y.drop_last();
        lemma_words_split(x, c, yp);
        assert(s.drop_last() =~= x.push(c) + yp);
        assert(s.last() == y.last());
        if y.len() >= 2 {
            assert(s[s.len() - 2] == y[y.len() - 2]);
        } else {
            assert(s[s.len() - 2] == c);
            assert(yp =~= Seq::<char>::empty());
        }
        let a = words(x);
        let b = words(yp);
        if !is_ws(y.last()) && y.len() >= 2 && !is_ws(y[y.len() - 2]) {
            lemma_words_end(yp);
            assert((a + b).update((a + b).len() - 1, (a + b).last().push(y.last())) =~= a
                + b.update(b.len() - 1, b.last().push(y.last())));
        } else if !is_ws(y.last()) {
            assert((a + b).push(seq![y.last()]) =~= a + b.push(seq![y.last()]));
        }
    }
}

/// Text that ends in a character that is not white space has a word.
pub proof fn lemma_words_end(s: Seq<char>)
    requires
        s.len() > 0,
        !is_ws(s.last()),
    ensures
        words(s).len() > 0,
    decreases s.len(),
{
    if s.len() >= 2 && !is_ws(s[s.len() - 2]) {
        assert(s.drop_last().last() == s[s.len() - 2]);
        lemma_words_end(s.drop_last());
    }
}

/// Splitting always gives at least one piece.
pub proof fn lemma_split_len(s: Seq<char>, d: char)
    ensures
        split_on(s, d).len() >= 1,
    decreases s.len(),
{
    if s.len() > 0 {
        lemma_split_len(s.drop_last(), d);
    }
}

/// Text without the separator is a single piece.
pub proof fn lemma_split_single(s: Seq<char>, d: char)
    requires
        !s.contains(d),
    ensures
        split_on(s, d) == seq![s],
    decreases s.len(),
{
    if s.len() > 0 {
        let p = s.drop_last();
        assert(!p.contains(d)) by {
            if p.contains(d) {
                let k = choose|k: int| 0 <= k < p.len() && p[k] == d;
                assert(s[k] == d);
            }
        }
        lemma_split_single(p, d);
        assert(s.last() != d) by {
            assert(s[s.len() - 1] == s.last());
        }
        assert(p.push(s.last()) =~= s);
        assert(split_on(s, d) =~= seq![s]);
    } else {
        assert(s =~= Seq::<char>::empty());
        assert(split_on(s, d) =~= seq![s]);
    }
}

/// A separator splits the pieces before it from those after it.
pub proof fn lemma_split_concat(x: Seq<char>, d: char, y: Seq<char>)
    ensures
        split_on(x.push(d) + y, d) == split_on(x, d) + split_on(y, d),
    decreases y.len(),
{
    let s = x.push(d) + y;
    if y.len() == 0 {
        assert(s =~= x.push(d));
        assert(s.drop_last() =~= x);
        assert(split_on(x, d).push(Seq::empty()) =~= split_on(x, d) + split_on(y, d));
    } else {
        let yp = y.drop_last();
        lemma_split_concat(x, d, yp);
        assert(s.drop_last() =~= x.push(d) + yp);
        assert(s.last() == y.last());
        let a = split_on(x, d);
        let b = split_on(yp, d);
        lemma_split_len(yp, d);
        if y.last() == d {
            assert((a + b).push(Seq::empty()) =~= a + b.push(Seq::empty()));
        } else {
            assert((a + b).update((a + b).len() - 1, (a + b).last().push(y.last())) =~= a
                + b.update(b.len() - 1, b.last().push(y.last())));
        }
    }
}

/// Splitting what was joined gives back the parts, when no part holds the
/// separator.
pub proof fn lemma_split_join(parts: Seq<Seq<char>>, d: char)
    requires
        parts.len() >= 1,
        forall|i: int| 0 <= i < parts.len() ==> !(#[trigger] parts[i]).contains(d),
    ensures
        split_on(join(parts, seq![d]), d) == parts,
    decreases parts.len(),
{
    if parts.len() == 1 {
        lemma_split_single(parts[0], d);
        assert(parts =~= seq![parts[0]]);
    } else {
        let p = parts.drop_last();
        lemma_split_join(p, d);
        assert(join(parts, seq![d]) =~= join(p, seq![d]).push(d) + parts.last());
        lemma_split_concat(join(p, seq![d]), d, parts.last());
        assert(!parts[parts.len() - 1].contains(d));
        lemma_split_single(parts.last(), d);
        assert(p + seq![parts.last()] =~= parts);
    }
}

/// Joining parts without white space, with a separator without white space,
/// gives text without white space.
pub proof fn lemma_join_no_ws(parts: Seq<Seq<char>>, sep: Seq<char>)
    requires
        no_ws(sep),
        forall|i: int| 0 <= i < parts.len() ==> no_ws(#[trigger] parts[i]),
    ensures
        no_ws(join(parts, sep)),
    decreases parts.len(),
{
    if parts.len() >= 2 {
        let p = parts.drop_last();
        lemma_join_no_ws(p, sep);
        assert(no_ws(parts[parts.len() - 1]));
        let j = join(p, sep) + sep + parts.last();
        assert forall|i: int| 0 <= i < j.len() implies !is_ws(#[trigger] j[i]) by {
            if i < join(p, sep).len() {
            } else if i < join(p, sep).len() + sep.len() {
                assert(j[i] == sep[i - join(p, sep).len()]);
            } else {
                assert(j[i] == parts.last()[i - join(p, sep).len() - sep.len()]);
            }
        }
    } else if parts.len() == 1 {
        assert(no_ws(parts[0]));
    }
}

/// A decimal rendering is a non-empty run of digits whose value is the number.
pub proof fn lemma_decimal(n: nat)
    ensures
        decimal(n).len() > 0,
        all_digits(decimal(n)),
        digits_value(decimal(n)) == n,
    decreases n,
{
    if n < 10 {
        assert(digits_value(decimal(n).drop_last()) == 0) by {
            assert(decimal(n).drop_last() =~= Seq::<char>::empty());
        }
    } else {
        lemma_decimal(n / 10);
        assert(decimal(n).drop_last() =~= decimal(n / 10));
        assert(n == (n / 10) * 10 + n % 10) by (nonlinear_arith);
        let d = decimal(n);
        assert forall|i: int| 0 <= i < d.len() implies is_digit(#[trigger] d[i]) by {
            if i < d.len() - 1 {
                assert(d[i] == decimal(n / 10)[i]);
            }
        }
    }
}

/// Decimal parsing reads back a decimal rendering.
pub proof fn lemma_parse_decimal(n: nat, max: nat)
    requires
        n <= max,
    ensures
        parse_unsigned(decimal(n), max) == Some(n),
{
    lemma_decimal(n);
    assert(is_digit(decimal(n)[0]));
    assert(unsigned_digits(decimal(n)) == decimal(n));
}

} // verus!
