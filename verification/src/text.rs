//! Byte-level text handling: white space, trimming, searching and decimal
//! numbers. Text is UTF-8; everything here is stated on its bytes.

use vstd::prelude::*;
use vstd::slice::slice_subrange;
use vstd::string::*;

verus! {

/// The bytes of a text that holds ASCII characters only.
pub open spec fn ascii(s: Seq<char>) -> Seq<u8> {
    Seq::new(s.len(), |i: int| s[i] as u8)
}

/// The bytes of a string. Those of an ASCII string are its characters.
pub fn bytes_of<'a>(s: &'a str) -> (r: &'a [u8])
    ensures
        r@ == s.spec_bytes(),
        is_ascii(s) ==> r@ == ascii(s@),
{
    proof {
        is_ascii_spec_bytes(s);
    }
    s.as_bytes()
}

/// ASCII white space: tab, line feed, form feed, carriage return and space.
pub open spec fn is_ascii_space(b: u8) -> bool {
    b == 9 || b == 10 || b == 12 || b == 13 || b == 32
}

/// Tells whether a byte is ASCII white space.
pub fn ascii_space(b: u8) -> (r: bool)
    ensures
        r == is_ascii_space(b),
{
    b == 9 || b == 10 || b == 12 || b == 13 || b == 32
}

/// The width in bytes of the white-space character whose encoding starts at
/// `i`, or 0 where none starts there. White space is every character with the
/// Unicode property White_Space: U+0009 to U+000D, U+0020, U+0085, U+00A0,
/// U+1680, U+2000 to U+200A, U+2028, U+2029, U+202F, U+205F and U+3000.
pub open spec fn space_width(s: Seq<u8>, i: int) -> int {
    if !(0 <= i < s.len()) {
        0
    } else if (9 <= s[i] <= 13) || s[i] == 32 {
        1
    } else if i + 1 < s.len() && s[i] == 0xC2 && (s[i + 1] == 0x85 || s[i + 1] == 0xA0) {
        2
    } else if i + 2 < s.len() && s[i] == 0xE1 && s[i + 1] == 0x9A && s[i + 2] == 0x80 {
        3
    } else if i + 2 < s.len() && s[i] == 0xE2 && s[i + 1] == 0x80 && ((0x80 <= s[i + 2] <= 0x8A)
        || s[i + 2] == 0xA8 || s[i + 2] == 0xA9 || s[i + 2] == 0xAF) {
        3
    } else if i + 2 < s.len() && s[i] == 0xE2 && s[i + 1] == 0x81 && s[i + 2] == 0x9F {
        3
    } else if i + 2 < s.len() && s[i] == 0xE3 && s[i + 1] == 0x80 && s[i + 2] == 0x80 {
        3
    } else {
        0
    }
}

/// The width of the white-space character that starts at `i`, or 0.
pub fn space_width_at(s: &[u8], i: usize) -> (w: usize)
    ensures
        w == space_width(s@, i as int),
        i + w <= s.len() || w == 0,
{
    let n = s.len();
    if i >= n {
        return 0;
    }
    let b0 = s[i];
    if (9 <= b0 && b0 <= 13) || b0 == 32 {
        return 1;
    }
    if n - i >= 2 && b0 == 0xC2 && (s[i + 1] == 0x85 || s[i + 1] == 0xA0) {
        return 2;
    }
    if n - i >= 3 {
        let b1 = s[i + 1];
        let b2 = s[i + 2];
        if b0 == 0xE1 && b1 == 0x9A && b2 == 0x80 {
            return 3;
        }
        if b0 == 0xE2 && b1 == 0x80 && ((0x80 <= b2 && b2 <= 0x8A) || b2 == 0xA8 || b2 == 0xA9
            || b2 == 0xAF) {
            return 3;
        }
        if b0 == 0xE2 && b1 == 0x81 && b2 == 0x9F {
            return 3;
        }
        if b0 == 0xE3 && b1 == 0x80 && b2 == 0x80 {
            return 3;
        }
    }
    0
}

/// The width of the white-space character that ends just before `j` and
/// starts at or after `lo`, or 0 where there is none.
pub open spec fn space_width_before(s: Seq<u8>, lo: int, j: int) -> int {
    if lo <= j - 1 && j <= s.len() && space_width(s, j - 1) == 1 {
        1
    } else if lo <= j - 2 && j <= s.len() && space_width(s, j - 2) == 2 {
        2
    } else if lo <= j - 3 && j <= s.len() && space_width(s, j - 3) == 3 {
        3
    } else {
        0
    }
}

/// The first position at or after `i` at which no white space starts.
pub open spec fn ink_start(s: Seq<u8>, i: int) -> int
    decreases s.len() - i,
{
    if space_width(s, i) > 0 {
        ink_start(s, i + space_width(s, i))
    } else {
        i
    }
}

/// The last position at or before `j` before which no white space ends; white
/// space is looked for from `lo` on.
pub open spec fn ink_end(s: Seq<u8>, lo: int, j: int) -> int
    decreases j - lo,
{
    if space_width_before(s, lo, j) > 0 {
        ink_end(s, lo, j - space_width_before(s, lo, j))
    } else {
        j
    }
}

/// A text without the white space at its two ends.
pub open spec fn trimmed(s: Seq<u8>) -> Seq<u8> {
    let a = ink_start(s, 0);
    let b = ink_end(s, a, s.len() as int);
    s.subrange(a, b)
}

/// Where the leading white space of a text ends: between 0 and its length.
pub proof fn lemma_ink_start_bounds(s: Seq<u8>, i: int)
    requires
        0 <= i <= s.len(),
    ensures
        i <= ink_start(s, i) <= s.len(),
    decreases s.len() - i,
{
    if space_width(s, i) > 0 {
        lemma_ink_start_bounds(s, i + space_width(s, i));
    }
}

/// Where the trailing white space of a text starts: between `lo` and `j`.
pub proof fn lemma_ink_end_bounds(s: Seq<u8>, lo: int, j: int)
    requires
        0 <= lo <= j <= s.len(),
    ensures
        lo <= ink_end(s, lo, j) <= j,
    decreases j - lo,
{
    if space_width_before(s, lo, j) > 0 {
        lemma_ink_end_bounds(s, lo, j - space_width_before(s, lo, j));
    }
}

/// Skips the white space that starts at `i`.
pub fn skip_space(s: &[u8], i: usize) -> (j: usize)
    requires
        i <= s.len(),
    ensures
        j == ink_start(s@, i as int),
        i <= j <= s.len(),
{
    let n = s.len();
    let mut a: usize = i;
    loop
        invariant
            n == s.len(),
            i <= a <= n,
            ink_start(s@, a as int) == ink_start(s@, i as int),
        ensures
            i <= a <= n,
            ink_start(s@, i as int) == a,
        decreases n - a,
    {
        let w = space_width_at(s, a);
        if w == 0 {
            break ;
        }
        a = a + w;
    }
    a
}

/// The first position at or after `i` at which white space starts, or the
/// end of the text.
pub open spec fn field_end(s: Seq<u8>, i: int) -> int
    decreases s.len() - i,
{
    if 0 <= i < s.len() && space_width(s, i) == 0 {
        field_end(s, i + 1)
    } else {
        i
    }
}

/// Skips the bytes from `i` on up to the next white space.
pub fn skip_field(s: &[u8], i: usize) -> (j: usize)
    requires
        i <= s.len(),
    ensures
        j == field_end(s@, i as int),
        i <= j <= s.len(),
{
    let n = s.len();
    let mut a: usize = i;
    while a < n && space_width_at(s, a) == 0
        invariant
            n == s.len(),
            i <= a <= n,
            field_end(s@, a as int) == field_end(s@, i as int),
        decreases n - a,
    {
        a += 1;
    }
    a
}

/// Removes the white space at both ends of a text.
pub fn trim<'a>(s: &'a [u8]) -> (r: &'a [u8])
    ensures
        r@ == trimmed(s@),
{
    let n = s.len();
    let a: usize = skip_space(s, 0);
    let mut b: usize = n;
    loop
        invariant
            n == s.len(),
            a <= b <= n,
            ink_end(s@, a as int, b as int) == ink_end(s@, a as int, n as int),
        ensures
            a <= b <= n,
            ink_end(s@, a as int, n as int) == b,
        decreases b - a,
    {
        let mut w: usize = 0;
        if b - a >= 1 && space_width_at(s, b - 1) == 1 {
            w = 1;
        } else if b - a >= 2 && space_width_at(s, b - 2) == 2 {
            w = 2;
        } else if b - a >= 3 && space_width_at(s, b - 3) == 3 {
            w = 3;
        }
        assert(w == space_width_before(s@, a as int, b as int));
        if w == 0 {
            break ;
        }
        b = b - w;
    }
    slice_subrange(s, a, b)
}

/// Whether `needle` stands in `hay` at position `i`.
pub open spec fn occurs_at(hay: Seq<u8>, needle: Seq<u8>, i: int) -> bool {
    &&& 0 <= i
    &&& i + needle.len() <= hay.len()
    &&& hay.subrange(i, i + needle.len()) == needle
}

/// Whether `needle` stands somewhere in `hay`.
pub open spec fn occurs(hay: Seq<u8>, needle: Seq<u8>) -> bool {
    exists|i: int| occurs_at(hay, needle, i)
}

/// Whether `i` is the first position at which `needle` stands in `hay`.
pub open spec fn first_occurrence(hay: Seq<u8>, needle: Seq<u8>, i: int) -> bool {
    &&& occurs_at(hay, needle, i)
    &&& forall|j: int| 0 <= j < i ==> !occurs_at(hay, needle, j)
}

/// Tells whether `needle` stands in `hay` at position `i`.
pub fn matches_at(hay: &[u8], needle: &[u8], i: usize) -> (r: bool)
    ensures
        r == occurs_at(hay@, needle@, i as int),
{
    let n = hay.len();
    let m = needle.len();
    if i > n || m > n - i {
        return false;
    }
    let mut k: usize = 0;
    while k < m
        invariant
            n == hay.len(),
            m == needle.len(),
            i + m <= n,
            k <= m,
            forall|t: int| 0 <= t < k ==> hay@[i + t] == needle@[t],
        decreases m - k,
    {
        if hay[i + k] != needle[k] {
            assert(hay@.subrange(i as int, i + m)[k as int] != needle@[k as int]);
            return false;
        }
        k += 1;
    }
    assert(hay@.subrange(i as int, i + m) =~= needle@);
    true
}

/// Finds the first place at which `needle` stands in `hay`.
pub fn find(hay: &[u8], needle: &[u8]) -> (r: Option<usize>)
    ensures
        match r {
            Some(i) => first_occurrence(hay@, needle@, i as int),
            None => !occurs(hay@, needle@),
        },
{
    let n = hay.len();
    let m = needle.len();
    if m > n {
        return None;
    }
    if m == 0 {
        assert(hay@.subrange(0, 0) =~= needle@);
        return Some(0);
    }
    let mut i: usize = 0;
    while i <= n - m
        invariant
            n == hay.len(),
            m == needle.len(),
            0 < m <= n,
            i <= n - m + 1,
            forall|j: int| 0 <= j < i ==> !occurs_at(hay@, needle@, j),
        decreases n - m + 1 - i,
    {
        if matches_at(hay, needle, i) {
            return Some(i);
        }
        i += 1;
    }
    None
}

/// Tells whether `needle` stands somewhere in `hay`.
pub fn contains(hay: &[u8], needle: &[u8]) -> (r: bool)
    ensures
        r == occurs(hay@, needle@),
{
    find(hay, needle).is_some()
}

/// Tells whether two texts are the same.
pub fn same_bytes(a: &[u8], b: &[u8]) -> (r: bool)
    ensures
        r == (a@ == b@),
{
    assert(a@.subrange(0, a@.len() as int) =~= a@);
    a.len() == b.len() && matches_at(a, b, 0)
}

/// The byte `0`.
pub const ZERO: u8 = 0x30;

/// The byte `+`.
pub const PLUS: u8 = 0x2B;

/// The byte `-`.
pub const MINUS: u8 = 0x2D;

/// Whether a byte is a decimal digit.
pub open spec fn is_digit(b: u8) -> bool {
    0x30 <= b <= 0x39
}

/// Whether a text holds decimal digits only.
pub open spec fn all_digits(s: Seq<u8>) -> bool {
    forall|i: int| 0 <= i < s.len() ==> is_digit(#[trigger] s[i])
}

/// The number that a run of decimal digits denotes.
pub open spec fn digits_value(s: Seq<u8>) -> int
    decreases s.len(),
{
    if s.len() == 0 {
        0
    } else {
        10 * digits_value(s.drop_last()) + (s.last() - 0x30)
    }
}

/// The integer that a text denotes: an optional sign, then at least one
/// digit and nothing else. A text of another shape denotes none.
pub open spec fn integer_value(s: Seq<u8>) -> Option<int> {
    let signed = s.len() > 0 && (s[0] == PLUS || s[0] == MINUS);
    let digits = if signed {
        s.skip(1)
    } else {
        s
    };
    if digits.len() == 0 || !all_digits(digits) {
        None
    } else if signed && s[0] == MINUS {
        Some(-digits_value(digits))
    } else {
        Some(digits_value(digits))
    }
}

/// The integer that a text denotes where it fits in 32 bits with a sign.
pub open spec fn i32_value(s: Seq<u8>) -> Option<int> {
    match integer_value(s) {
        Some(v) => if -0x8000_0000 <= v <= 0x7FFF_FFFF {
            Some(v)
        } else {
            None
        },
        None => None,
    }
}

/// A run of digits denotes no negative number.
pub proof fn lemma_digits_value_nonnegative(s: Seq<u8>)
    requires
        all_digits(s),
    ensures
        0 <= digits_value(s),
    decreases s.len(),
{
    if s.len() > 0 {
        assert forall|i: int| 0 <= i < s.drop_last().len() implies is_digit(
            #[trigger] s.drop_last()[i],
        ) by {
            assert(s.drop_last()[i] == s[i]);
        }
        lemma_digits_value_nonnegative(s.drop_last());
        assert(is_digit(s[s.len() - 1]));
    }
}

/// A run of digits denotes no less than any of its prefixes.
pub proof fn lemma_digits_value_grows(s: Seq<u8>, k: int)
    requires
        all_digits(s),
        0 <= k <= s.len(),
    ensures
        0 <= digits_value(s.take(k)) <= digits_value(s),
    decreases s.len() - k,
{
    assert forall|i: int| 0 <= i < s.take(k).len() implies is_digit(#[trigger] s.take(k)[i]) by {
        assert(s.take(k)[i] == s[i]);
    }
    lemma_digits_value_nonnegative(s.take(k));
    if k < s.len() {
        lemma_digits_value_grows(s, k + 1);
        assert(s.take(k + 1).drop_last() =~= s.take(k));
        assert(s.take(k + 1).last() == s[k]);
        assert(is_digit(s[k]));
    } else {
        assert(s.take(k) =~= s);
    }
}

/// Reads a text as a 32-bit integer: an optional sign and decimal digits.
pub fn parse_i32(s: &[u8]) -> (r: Option<i32>)
    ensures
        match r {
            Some(v) => i32_value(s@) == Some(v as int),
            None => i32_value(s@) is None,
        },
{
    let n = s.len();
    if n == 0 {
        return None;
    }
    let negative = s[0] == MINUS;
    let start: usize = if s[0] == PLUS || s[0] == MINUS {
        1
    } else {
        0
    };
    if start == n {
        return None;
    }
    let ghost d = s@.skip(start as int);
    proof {
        assert(s@.skip(0) =~= s@);
    }
    let mut acc: i64 = 0;
    let mut i: usize = start;
    while i < n
        invariant
            n == s.len(),
            start <= i <= n,
            n > 0,
            start <= 1,
            (start == 1) == (s@[0] == PLUS || s@[0] == MINUS),
            d == s@.skip(start as int),
            d == if start == 1 {
                s@.skip(1)
            } else {
                s@
            },
            all_digits(d.take(i - start)),
            acc == digits_value(d.take(i - start)),
            0 <= acc <= 0x8000_0000,
        decreases n - i,
    {
        let b = s[i];
        if b < ZERO || b > 0x39 {
            proof {
                assert(!is_digit(d[i - start]));
                assert(!all_digits(d));
                assert(integer_value(s@) is None);
            }
            return None;
        }
        let next: i64 = acc * 10 + (b - ZERO) as i64;
        proof {
            assert(d.take(i + 1 - start).drop_last() =~= d.take(i - start));
            assert(d.take(i + 1 - start).last() == b);
            assert(digits_value(d.take(i + 1 - start)) == next);
            assert forall|k: int| 0 <= k < i + 1 - start implies is_digit(
                #[trigger] d.take(i + 1 - start)[k],
            ) by {
                if k < i - start {
                    assert(d.take(i + 1 - start)[k] == d.take(i - start)[k]);
                }
            }
        }
        if next > 0x8000_0000 {
            proof {
                if all_digits(d) {
                    lemma_digits_value_grows(d, i + 1 - start);
                    assert(digits_value(d) > 0x8000_0000);
                }
                assert(i32_value(s@) is None);
            }
            return None;
        }
        acc = next;
        i += 1;
    }
    proof {
        assert(d.take(n - start) =~= d);
    }
    if negative {
        Some((-acc) as i32)
    } else if acc > 0x7FFF_FFFF {
        None
    } else {
        Some(acc as i32)
    }
}

/// A number in decimal digits, without sign or leading zeros.
pub open spec fn decimal_text(n: nat) -> Seq<u8>
    decreases n,
{
    if n < 10 {
        seq![(0x30 + n) as u8]
    } else {
        decimal_text(n / 10).push((0x30 + n % 10) as u8)
    }
}

/// Appends a number in decimal digits.
pub fn push_decimal(out: &mut Vec<u8>, n: u64)
    ensures
        final(out)@ == old(out)@ + decimal_text(n as nat),
    decreases n,
{
    if n >= 10 {
        push_decimal(out, n / 10);
    }
    out.push(ZERO + (n % 10) as u8);
    proof {
        assert(out@ =~= old(out)@ + decimal_text(n as nat));
    }
}

/// The decimal digits of a number denote that number.
pub proof fn lemma_decimal_round_trip(n: nat)
    ensures
        decimal_text(n).len() > 0,
        all_digits(decimal_text(n)),
        digits_value(decimal_text(n)) == n,
        integer_value(decimal_text(n)) == Some(n as int),
    decreases n,
{
    let t = decimal_text(n);
    if n >= 10 {
        lemma_decimal_round_trip(n / 10);
        assert(t.drop_last() =~= decimal_text(n / 10));
        assert(t.last() == 0x30 + n % 10);
        assert forall|i: int| 0 <= i < t.len() implies is_digit(#[trigger] t[i]) by {
            if i < t.len() - 1 {
                assert(t[i] == decimal_text(n / 10)[i]);
            }
        }
        assert(t[0] == decimal_text(n / 10)[0]);
    } else {
        assert(t.drop_last() =~= Seq::<u8>::empty());
        assert(t.last() == 0x30 + n);
        assert(t[0] == 0x30 + n);
    }
    assert(is_digit(t[0]));
    assert(digits_value(t) == 10 * digits_value(t.drop_last()) + (t.last() - 0x30));
    assert(digits_value(t) == n);
}

/// Appends a text to a buffer.
pub fn append(out: &mut Vec<u8>, s: &[u8])
    ensures
        final(out)@ == old(out)@ + s@,
{
    let n = s.len();
    let mut i: usize = 0;
    proof {
        assert(out@ =~= old(out)@ + s@.take(0));
    }
    while i < n
        invariant
            n == s.len(),
            i <= n,
            out@ == old(out)@ + s@.take(i as int),
        decreases n - i,
    {
        out.push(s[i]);
        i += 1;
        proof {
            assert(out@ =~= old(out)@ + s@.take(i as int));
        }
    }
    proof {
        assert(s@.take(n as int) =~= s@);
    }
}

/// A buffer that holds the bytes of a string.
pub fn to_bytes(s: &str) -> (r: Vec<u8>)
    ensures
        r@ == s.spec_bytes(),
        is_ascii(s) ==> r@ == ascii(s@),
{
    let mut out: Vec<u8> = Vec::new();
    let bytes = bytes_of(s);
    append(&mut out, bytes);
    proof {
        assert(out@ =~= bytes@);
    }
    out
}

/// The first place at which a text stands in another is the only one that
/// nothing comes before.
pub proof fn lemma_first_occurrence_unique(hay: Seq<u8>, needle: Seq<u8>, p: int, q: int)
    requires
        first_occurrence(hay, needle, p),
        first_occurrence(hay, needle, q),
    ensures
        p == q,
{
}

} // verus!
