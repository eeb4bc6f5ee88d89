//! Conversions between strings and character vectors, string comparison, and
//! the sixteen-digit binary rendering of a word.

use vstd::prelude::*;
use vstd::std_specs::iter::IteratorSpec;
use vstd::string::*;

verus! {

/// `String::push` of the standard library: the string afterwards is the string
/// before with `ch` appended as its last character.
pub assume_specification[ String::push ](s: &mut String, ch: char)
    ensures
        final(s)@ == old(s)@.push(ch),
;

/// The view of an optional string: the characters it holds, if any.
pub open spec fn opt_view(field: Option<String>) -> Option<Seq<char>> {
    match field {
        Some(s) => Some(s@),
        None => None,
    }
}

/// The characters of `s`, in order.
pub fn chars_of(s: &str) -> (v: Vec<char>)
    ensures
        v@ == s@,
{
    broadcast use group_string_axioms;

    let mut v: Vec<char> = Vec::new();
    let mut it = s.chars();
    loop
        invariant
            v@ + it.remaining() == s@,
            it.decrease() is Some,
        decreases it.decrease()->0,
    {
        let ghost before = it.remaining();
        match it.next() {
            Some(c) => {
                v.push(c);
                assert(v@ + it.remaining() =~= s@) by {
                    assert(before =~= seq![c] + it.remaining());
                }
            },
            None => {
                assert(v@ =~= s@);
                return v;
            },
        }
    }
}

/// A copy of `v`.
pub fn copy_chars(v: &Vec<char>) -> (copy: Vec<char>)
    ensures
        copy@ == v@,
{
    let mut copy: Vec<char> = Vec::new();
    let mut i: usize = 0;
    while i < v.len()
        invariant
            i <= v.len(),
            copy@ == v@.subrange(0, i as int),
        decreases v.len() - i,
    {
        copy.push(v[i]);
        i += 1;
        assert(copy@ =~= v@.subrange(0, i as int));
    }
    assert(v@.subrange(0, v.len() as int) =~= v@);
    copy
}

/// The string made of the characters `v[from..to]`.
pub fn text_of(v: &Vec<char>, from: usize, to: usize) -> (s: String)
    requires
        from <= to <= v.len(),
    ensures
        s@ == v@.subrange(from as int, to as int),
{
    let mut s = String::new();
    let mut i: usize = from;
    while i < to
        invariant
            from <= i <= to <= v.len(),
            s@ == v@.subrange(from as int, i as int),
        decreases to - i,
    {
        s.push(v[i]);
        i += 1;
        assert(s@ =~= v@.subrange(from as int, i as int));
    }
    s
}

/// Whether two strings hold the same characters.
pub fn text_eq(a: &str, b: &str) -> (same: bool)
    ensures
        same == (a@ == b@),
{
    let n = a.unicode_len();
    if n != b.unicode_len() {
        return false;
    }
    let mut i: usize = 0;
    while i < n
        invariant
            i <= n,
            n == a@.len(),
            n == b@.len(),
            forall|j: int| 0 <= j < i ==> a@[j] == b@[j],
        decreases n - i,
    {
        if a.get_char(i) != b.get_char(i) {
            return false;
        }
        i += 1;
    }
    assert(a@ =~= b@);
    true
}

/// The binary digit of `n` at position `i`, counted from the most significant
/// of sixteen: `'1'` or `'0'`.
pub open spec fn bit_char(n: u16, i: int) -> char {
    if (n as int / pow2(15 - i)) % 2 == 1 {
        '1'
    } else {
        '0'
    }
}

/// Two to the power `e`; 1 for a negative `e`.
pub open spec fn pow2(e: int) -> int
    decreases e,
{
    if e <= 0 {
        1
    } else {
        2 * pow2(e - 1)
    }
}

/// The sixteen binary digits of `n`, most significant first.
pub open spec fn bits16(n: u16) -> Seq<char> {
    Seq::new(16, |i: int| bit_char(n, i))
}

/// Renders `n` as sixteen binary digits, most significant first, padded with
/// zeros.
pub fn binary16(n: u16) -> (s: String)
    ensures
        s@ == bits16(n),
        s@.len() == 16,
{
    let mut s = String::new();
    let mut i: u32 = 0;
    let mut weight: u32 = 32768;
    assert(pow2(15) == 32768) by {
        reveal_with_fuel(pow2, 17);
    }
    while i < 16
        invariant
            i <= 16,
            s@.len() == i,
            i < 16 ==> weight as int == pow2(15 - i as int) && weight >= 1,
            forall|j: int| 0 <= j < i ==> s@[j] == bit_char(n, j),
        decreases 16 - i,
    {
        let digit: u32 = (n as u32 / weight) % 2;
        if digit == 1 {
            s.push('1');
        } else {
            s.push('0');
        }
        assert(pow2(15 - i as int) >= 1) by {
            reveal_with_fuel(pow2, 17);
        }
        i += 1;
        weight = weight / 2;
    }
    assert(s@ =~= bits16(n));
    s
}

/// Whether `c` is one of the decimal digits `0` to `9`.
pub open spec fn is_digit(c: char) -> bool {
    48 <= c as u32 <= 57
}

/// The number that the decimal digits `d` denote; 0 for none.
pub open spec fn decimal_value(d: Seq<char>) -> nat
    decreases d.len(),
{
    if d.len() == 0 {
        0
    } else {
        (10 * decimal_value(d.drop_last()) + (d.last() as u32 - 48)) as nat
    }
}

/// The digits of a numeral: `s` without a leading `+`.
pub open spec fn digits_of(s: Seq<char>) -> Seq<char> {
    if s.len() > 0 && s[0] == '+' {
        s.subrange(1, s.len() as int)
    } else {
        s
    }
}

/// The number that `s` denotes, if it is a numeral that fits sixteen bits: an
/// optional `+`, then one or more decimal digits and nothing else, with a
/// value of at most 65535.
pub open spec fn numeral(s: Seq<char>) -> Option<u16> {
    let d = digits_of(s);
    if d.len() > 0 && (forall|i: int| 0 <= i < d.len() ==> is_digit(#[trigger] d[i]))
        && decimal_value(d) <= 65535 {
        Some(decimal_value(d) as u16)
    } else {
        None
    }
}

/// Digits that are added to a numeral never make it smaller.
pub proof fn decimal_value_grows(d: Seq<char>, i: int)
    requires
        0 <= i <= d.len(),
        forall|j: int| 0 <= j < d.len() ==> is_digit(#[trigger] d[j]),
    ensures
        decimal_value(d.subrange(0, i)) <= decimal_value(d),
    decreases d.len(),
{
    if i == d.len() {
        assert(d.subrange(0, i) =~= d);
    } else {
        assert(d.drop_last().subrange(0, i) =~= d.subrange(0, i));
        decimal_value_grows(d.drop_last(), i);
    }
}

/// Reads `s` as a numeral that fits sixteen bits.
pub fn parse_numeral(s: &str) -> (number: Option<u16>)
    ensures
        number == numeral(s@),
{
    let v = chars_of(s);
    let start: usize = if v.len() > 0 && v[0] == '+' {
        1
    } else {
        0
    };
    let ghost d = digits_of(s@);
    assert(d =~= v@.subrange(start as int, v.len() as int));
    if start >= v.len() {
        return None;
    }
    let mut value: u32 = 0;
    let mut i: usize = start;
    while i < v.len()
        invariant
            start <= i <= v.len(),
            d == v@.subrange(start as int, v.len() as int),
            d == digits_of(s@),
            value <= 65535,
            value == decimal_value(d.subrange(0, i - start)),
            forall|j: int| 0 <= j < i - start ==> is_digit(#[trigger] d[j]),
        decreases v.len() - i,
    {
        let c: u32 = v[i] as u32;
        if c < 48 || c > 57 {
            assert(!is_digit(d[i - start]));
            return None;
        }
        assert(d.subrange(0, i + 1 - start).drop_last() =~= d.subrange(0, i - start));
        value = 10 * value + (c - 48);
        i += 1;
        if value > 65535 {
            proof {
                if forall|j: int| 0 <= j < d.len() ==> is_digit(#[trigger] d[j]) {
                    decimal_value_grows(d, i - start);
                }
            }
            return None;
        }
    }
    assert(d.subrange(0, i - start) =~= d);
    Some(value as u16)
}

} // verus!
