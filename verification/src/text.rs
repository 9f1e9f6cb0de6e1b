use vstd::prelude::*;
use vstd::utf8::*;

verus! {

broadcast use vstd::string::axiom_spec_iter;

/// What `String::from_utf8_lossy` makes of `bytes`: their UTF-8 decoding,
/// with each invalid sequence replaced by U+FFFD.
pub uninterp spec fn lossy_text(bytes: Seq<u8>) -> Seq<char>;

/// Calls `String::from_utf8_lossy`. Claimed: the result is a function of
/// the bytes alone, and for valid UTF-8 it is exactly their decoding (as
/// std documents). What it makes of invalid input is left unsaid.
#[verifier::external_body]
pub(crate) fn text_from_bytes_lossy(bytes: &[u8]) -> (s: String)
    ensures
        s@ == lossy_text(bytes@),
        valid_utf8(bytes@) ==> s@ == decode_utf8(bytes@),
{
    String::from_utf8_lossy(bytes).into_owned()
}

/// Calls `String::push`. Claimed: the character is appended.
#[verifier::external_body]
pub(crate) fn push_char(s: &mut String, c: char)
    ensures
        final(s)@ == old(s)@.push(c),
{
    s.push(c)
}

/// True when `a` and `b` hold the same characters.
pub fn same_text(a: &str, b: &str) -> (r: bool)
    ensures
        r == (a@ == b@),
{
    let x = a.as_bytes();
    let y = b.as_bytes();
    proof {
        encode_utf8_decode_utf8(a@);
        encode_utf8_decode_utf8(b@);
    }
    if x.len() != y.len() {
        return false;
    }
    let mut i: usize = 0;
    while i < x.len()
        invariant
            x.len() == y.len(),
            x@ == encode_utf8(a@),
            y@ == encode_utf8(b@),
            decode_utf8(x@) == a@,
            decode_utf8(y@) == b@,
            i <= x.len(),
            forall|j: int| 0 <= j < i ==> x@[j] == y@[j],
        decreases x.len() - i,
    {
        if x[i] != y[i] {
            return false;
        }
        i += 1;
    }
    assert(x@ =~= y@);
    true
}

/// The UTF-8 bytes of `s` as a vector.
pub fn text_bytes(s: &str) -> (r: Vec<u8>)
    ensures
        r@ == encode_utf8(s@),
        decode_utf8(r@) == s@,
        valid_utf8(r@),
{
    proof {
        encode_utf8_decode_utf8(s@);
        encode_utf8_valid_utf8(s@);
    }
    let b = s.as_bytes();
    let mut r: Vec<u8> = Vec::new();
    r.extend_from_slice(b);
    assert(r@ =~= b@);
    r
}


/// `before`, the decimal digits of `n`, then `after`: the text of an error
/// message that names a number.
pub(crate) fn number_message(before: &str, n: u8, after: &str) -> (r: String)
    ensures
        r@ == before@ + crate::anvil::decimal(n as nat) + after@,
{
    let mut s = String::new();
    crate::workshop::push_text(&mut s, before);
    let digits = crate::workshop::decimal_usize(n as usize);
    crate::workshop::push_text(&mut s, digits.as_str());
    crate::workshop::push_text(&mut s, after);
    s
}


/// Whether `b` is an ASCII decimal digit.
pub open spec fn is_digit(b: u8) -> bool {
    48 <= b <= 57
}

/// The number that a run of ASCII digits spells.
pub open spec fn digits_value(s: Seq<u8>) -> int
    decreases s.len(),
{
    if s.len() == 0 {
        0
    } else {
        digits_value(s.drop_last()) * 10 + (s.last() - 48)
    }
}

/// What `i32::from_str` accepts: an optional `+` or `-`, then one or more
/// ASCII digits, whose value fits in an `i32`.
pub open spec fn all_digits(s: Seq<u8>) -> bool {
    forall|i: int| 0 <= i < s.len() ==> is_digit(#[trigger] s[i])
}

/// `s` without a leading sign.
pub open spec fn unsigned_part(s: Seq<u8>) -> Seq<u8> {
    if s.len() > 0 && (s[0] == 45 || s[0] == 43) {
        s.drop_first()
    } else {
        s
    }
}

pub open spec fn spec_parse_i32(s: Seq<u8>) -> Option<i32> {
    let neg = s.len() > 0 && s[0] == 45;
    let digits = unsigned_part(s);
    if digits.len() == 0 || !all_digits(digits) {
        None
    } else {
        let v = if neg { -digits_value(digits) } else { digits_value(digits) };
        if i32::MIN <= v <= i32::MAX {
            Some(v as i32)
        } else {
            None
        }
    }
}

proof fn lemma_digits_value_grows(s: Seq<u8>, i: int)
    requires
        0 <= i <= s.len(),
        all_digits(s),
    ensures
        digits_value(s) >= digits_value(s.take(i)) >= 0,
    decreases s.len() - i,
{
    if i < s.len() {
        lemma_digits_value_grows(s, i + 1);
        assert(s.take(i + 1).drop_last() =~= s.take(i));
        lemma_digits_nonneg(s.take(i));
    } else {
        assert(s.take(i) =~= s);
        lemma_digits_nonneg(s);
    }
}

proof fn lemma_digits_nonneg(s: Seq<u8>)
    requires
        all_digits(s),
    ensures
        digits_value(s) >= 0,
    decreases s.len(),
{
    if s.len() > 0 {
        lemma_digits_nonneg(s.drop_last());
    }
}

/// Parses a decimal `i32` as `i32::from_str` does, from ASCII bytes.
pub fn parse_i32(s: &[u8]) -> (r: Option<i32>)
    ensures
        r == spec_parse_i32(s@),
{
    let n = s.len();
    if n == 0 {
        return None;
    }
    let neg = s[0] == 45;
    let signed = s[0] == 45 || s[0] == 43;
    let start: usize = if signed { 1 } else { 0 };
    let ghost digits = unsigned_part(s@);
    assert(digits =~= s@.subrange(start as int, n as int));
    if start == n {
        return None;
    }
    let mut acc: i64 = 0;
    let mut i = start;
    while i < n
        invariant
            start <= i <= n,
            n == s@.len(),
            1 <= n,
            digits == s@.subrange(start as int, n as int),
            signed == (s@[0] == 45 || s@[0] == 43),
            neg == (s@[0] == 45),
            start == (if signed { 1usize } else { 0usize }),
            digits == unsigned_part(s@),
            forall|j: int| start <= j < i ==> is_digit(s@[j]),
            0 <= acc <= 0x8000_0000,
            acc == digits_value(digits.take(i - start)),
        decreases n - i,
    {
        let b = s[i];
        if b < 48 || b > 57 {
            assert(!is_digit(digits[i - start]));
            assert(spec_parse_i32(s@) is None);
            return None;
        }
        let next = acc * 10 + (b - 48) as i64;
        proof {
            assert(digits.take(i - start + 1).drop_last() =~= digits.take(i - start));
            assert(digits.take(i - start + 1).last() == b);
        }
        if next > 0x8000_0000 {
            proof {
                if all_digits(digits) {
                    lemma_digits_value_grows(digits, i - start + 1);
                    assert(digits_value(digits) > 0x8000_0000);
                }
                assert(spec_parse_i32(s@) is None);
            }
            return None;
        }
        acc = next;
        i += 1;
    }
    assert(digits.take(i - start) =~= digits);
    let v: i64 = if neg { -acc } else { acc };
    if v < -0x8000_0000 || v > 0x7FFF_FFFF {
        return None;
    }
    Some(v as i32)
}

/// The pieces of `s` between occurrences of `sep`, as index ranges.
pub open spec fn split_ranges(s: Seq<u8>, sep: u8) -> Seq<(int, int)>
    decreases s.len(),
{
    if s.len() == 0 {
        seq![(0int, 0int)]
    } else {
        let prev = split_ranges(s.drop_last(), sep);
        if s.last() == sep {
            prev.push((s.len() as int, s.len() as int))
        } else {
            prev.update(prev.len() - 1, (prev.last().0, s.len() as int))
        }
    }
}

proof fn lemma_split_ranges(s: Seq<u8>, sep: u8)
    ensures
        split_ranges(s, sep).len() >= 1,
        split_ranges(s, sep).last().1 == s.len(),
        forall|k: int|
            0 <= k < split_ranges(s, sep).len() ==> 0 <= #[trigger] split_ranges(s, sep)[k].0
                <= split_ranges(s, sep)[k].1 <= s.len(),
    decreases s.len(),
{
    if s.len() > 0 {
        lemma_split_ranges(s.drop_last(), sep);
    }
}

/// Splits `s` at every `sep` byte, as `str::split` does with an ASCII
/// separator: the ranges of the pieces, in order.
pub fn split_at_byte(s: &[u8], sep: u8) -> (r: Vec<(usize, usize)>)
    ensures
        r@.len() == split_ranges(s@, sep).len(),
        forall|k: int|
            0 <= k < r@.len() ==> (#[trigger] r@[k]).0 as int == split_ranges(s@, sep)[k].0
                && r@[k].1 as int == split_ranges(s@, sep)[k].1,
        forall|k: int| 0 <= k < r@.len() ==> (#[trigger] r@[k]).0 <= r@[k].1 <= s@.len(),
{
    let mut r: Vec<(usize, usize)> = Vec::new();
    r.push((0, 0));
    let mut i: usize = 0;
    while i < s.len()
        invariant
            i <= s@.len(),
            r@.len() == split_ranges(s@.take(i as int), sep).len(),
            r@.len() >= 1,
            forall|k: int|
                0 <= k < r@.len() ==> (#[trigger] r@[k]).0 as int == split_ranges(
                    s@.take(i as int),
                    sep,
                )[k].0 && r@[k].1 as int == split_ranges(s@.take(i as int), sep)[k].1,
            forall|k: int| 0 <= k < r@.len() ==> (#[trigger] r@[k]).0 <= r@[k].1 <= i,
        decreases s@.len() - i,
    {
        proof {
            assert(s@.take(i + 1).drop_last() =~= s@.take(i as int));
            assert(s@.take(i + 1).last() == s@[i as int]);
            lemma_split_ranges(s@.take(i as int), sep);
        }
        if s[i] == sep {
            r.push((i + 1, i + 1));
        } else {
            let last = r.len() - 1;
            let st = r[last].0;
            r.set(last, (st, i + 1));
        }
        i += 1;
    }
    assert(s@.take(i as int) =~= s@);
    r
}

/// The UTF-16 code units of one character.
pub open spec fn utf16_of(c: char) -> Seq<u16> {
    let v = c as u32;
    if v < 0x10000 {
        seq![v as u16]
    } else {
        let w = (v - 0x10000) as u32;
        seq![(0xD800 + (w >> 10u32)) as u16, (0xDC00 + (w & 0x3FF)) as u16]
    }
}

/// The UTF-16 code units of a string, as `str::encode_utf16` gives them.
pub open spec fn utf16_units(s: Seq<char>) -> Seq<u16>
    decreases s.len(),
{
    if s.len() == 0 { Seq::empty() } else { utf16_units(s.drop_last()) + utf16_of(s.last()) }
}

/// The UTF-16 code units of `name`.
pub fn encode_utf16(name: &str) -> (r: Vec<u16>)
    ensures r@ == utf16_units(name@),
{
    let mut out: Vec<u16> = Vec::new();
    for c in it: name.chars()
        invariant
            it.seq() == name@,
            out@ == utf16_units(name@.take(it.index() as int)),
    {
        let ghost k = it.index();
        assert(name@.take(k + 1).drop_last() =~= name@.take(k as int));
        proof { vstd::utf8::char_is_scalar(c); }
        let v = c as u32;
        if v < 0x10000 {
            out.push(v as u16);
        } else {
            let w = v - 0x10000;
            assert((w >> 10u32) < 0x400 && (w & 0x3FF) < 0x400) by (bit_vector) requires w < 0x100000;
            out.push((0xD800 + (w >> 10)) as u16);
            out.push((0xDC00 + (w & 0x3FF)) as u16);
        }
        assert(out@ =~= utf16_units(name@.take(k + 1)));
    }
    assert(name@.take(name@.len() as int) =~= name@);
    out
}

} // verus!
