//! Characters, decimal digits and fixed-width decimal numbers.
//!
//! Every text this library reads or writes is modelled as a `Seq<char>`, the
//! view of a `&str` or a `String`.

use vstd::prelude::*;

verus! {

/// Appends one character to a string. This is `String::push`, of which the
/// contract states what its documentation says: the character is added at
/// the end and nothing else changes.
#[verifier::external_body]
pub(crate) fn push_char(s: &mut String, c: char)
    ensures
        final(s)@ == old(s)@.push(c),
{
    s.push(c)
}

/// The characters of `s`, in order.
pub fn chars_of(s: &str) -> (v: Vec<char>)
    ensures
        v@ == s@,
{
    let mut v: Vec<char> = Vec::new();
    let mut it = s.chars();
    for c in iter: it
        invariant
            v@ == iter.seq().take(iter.index() as int),
    {
        v.push(c);
    }
    v
}

/// The string that holds the characters `v[from..to]`, in order.
pub fn string_of_range(v: &Vec<char>, from: usize, to: usize) -> (s: String)
    requires
        from <= to <= v.len(),
    ensures
        s@ == v@.subrange(from as int, to as int),
{
    let mut s = String::new();
    let mut i: usize = from;
    while i < to
        invariant
            from <= i <= to <= v.len(),
            s@ == v@.subrange(from as int, i as int),
        decreases to - i,
    {
        push_char(&mut s, v[i]);
        i = i + 1;
    }
    s
}

/// The string that holds the characters of `v`, in order.
pub fn string_of(v: &Vec<char>) -> (s: String)
    ensures
        s@ == v@,
{
    let s = string_of_range(v, 0, v.len());
    assert(v@.subrange(0, v.len() as int) == v@);
    s
}

/// `c` is one of the ten ASCII decimal digits.
pub open spec fn is_digit(c: char) -> bool {
    '0' <= c && c <= '9'
}

/// The value of the decimal digit `c`.
pub open spec fn digit_of(c: char) -> int {
    c as int - '0' as int
}

/// The decimal digit whose value is `d`.
pub open spec fn digit_char(d: int) -> char {
    (d + '0' as int) as char
}

/// Every character of `s` is a decimal digit.
pub open spec fn all_digits(s: Seq<char>) -> bool {
    forall|i: int| 0 <= i < s.len() ==> is_digit(#[trigger] s[i])
}

/// The number that the digit string `s` writes in base ten.
pub open spec fn number(s: Seq<char>) -> int
    decreases s.len(),
{
    if s.len() == 0 {
        0
    } else {
        number(s.drop_last()) * 10 + digit_of(s.last())
    }
}

/// `n` written in base ten with exactly `width` digits, padded with zeros on
/// the left; the digits above `width` are dropped.
pub open spec fn decimal(n: int, width: nat) -> Seq<char>
    decreases width,
{
    if width == 0 {
        Seq::empty()
    } else {
        decimal(n / 10, (width - 1) as nat).push(digit_char(n % 10))
    }
}

/// Ten to the power `k`.
pub open spec fn pow10(k: nat) -> int
    decreases k,
{
    if k == 0 {
        1
    } else {
        10 * pow10((k - 1) as nat)
    }
}

/// Powers of ten are positive and grow with the exponent.
pub proof fn lemma_pow10_grows(a: nat, b: nat)
    requires
        a <= b,
    ensures
        0 < pow10(a) <= pow10(b),
    decreases b,
{
    if b == 0 {
    } else if a == b {
        lemma_pow10_grows((a - 1) as nat, (b - 1) as nat);
    } else {
        lemma_pow10_grows(a, (b - 1) as nat);
    }
}

/// A fixed-width decimal has the width asked for and holds digits only.
pub proof fn lemma_decimal_shape(n: int, width: nat)
    requires
        0 <= n,
    ensures
        decimal(n, width).len() == width,
        all_digits(decimal(n, width)),
    decreases width,
{
    if width > 0 {
        lemma_decimal_shape(n / 10, (width - 1) as nat);
    }
}

/// Reading back a fixed-width decimal gives the number that was written,
/// provided it fits in the width.
pub proof fn lemma_number_of_decimal(n: int, width: nat)
    requires
        0 <= n < pow10(width),
    ensures
        number(decimal(n, width)) == n,
    decreases width,
{
    if width > 0 {
        let rest = decimal(n / 10, (width - 1) as nat);
        lemma_number_of_decimal(n / 10, (width - 1) as nat);
        assert(decimal(n, width).drop_last() == rest);
    }
}

/// A string of `k` digits writes a number below ten to the `k`.
pub proof fn lemma_number_bound(s: Seq<char>)
    requires
        all_digits(s),
    ensures
        0 <= number(s) < pow10(s.len()),
    decreases s.len(),
{
    if s.len() > 0 {
        lemma_number_bound(s.drop_last());
    }
}

/// The value of a decimal digit, or `None` for any other character.
pub fn digit_value(c: char) -> (r: Option<u8>)
    ensures
        r is Some <==> is_digit(c),
        r matches Some(d) ==> d as int == digit_of(c) && d < 10,
{
    if c >= '0' && c <= '9' {
        let d: u8 = ((c as u32) - ('0' as u32)) as u8;
        Some(d)
    } else {
        None
    }
}

/// The decimal digit whose value is `d`.
pub fn char_of_digit(d: u8) -> (c: char)
    requires
        d < 10,
    ensures
        c == digit_char(d as int),
        is_digit(c),
        digit_of(c) == d,
{
    let c: char = (48u8 + d) as char;
    c
}

/// Appends `n` in base ten with exactly `width` digits, zero-padded.
pub fn append_decimal(out: &mut String, n: u32, width: usize)
    ensures
        final(out)@ == old(out)@ + decimal(n as int, width as nat),
    decreases width,
{
    if width > 0 {
        append_decimal(out, n / 10, width - 1);
        push_char(out, char_of_digit((n % 10) as u8));
        assert(final(out)@ == old(out)@ + decimal(n as int, width as nat));
    } else {
        assert(old(out)@ + decimal(n as int, 0) == old(out)@);
    }
}

/// Reads the `width` characters of `v` that start at `from` as a decimal
/// number. The result is `None` exactly when one of them is no digit.
pub fn read_decimal(v: &Vec<char>, from: usize, width: usize) -> (r: Option<u32>)
    requires
        from + width <= v.len(),
        width <= 9,
    ensures
        r is Some <==> all_digits(v@.subrange(from as int, from + width)),
        r matches Some(n) ==> n as int == number(v@.subrange(from as int, from + width)),
{
    let mut acc: u32 = 0;
    let mut i: usize = 0;
    while i < width
        invariant
            i <= width <= 9,
            from + width <= v.len(),
            all_digits(v@.subrange(from as int, from + i)),
            acc as int == number(v@.subrange(from as int, from + i)),
        decreases width - i,
    {
        let ghost before = v@.subrange(from as int, from + i);
        let ghost after = v@.subrange(from as int, from + i + 1);
        assert(after.drop_last() == before);
        assert(after.last() == v@[from + i]);
        match digit_value(v[from + i]) {
            Some(d) => {
                proof {
                    lemma_number_bound(before);
                    lemma_pow10_grows(i as nat, 8);
                    reveal_with_fuel(pow10, 9);
                }
                acc = acc * 10 + d as u32;
                assert forall|j: int| 0 <= j < after.len() implies is_digit(
                    #[trigger] after[j],
                ) by {
                    if j < i {
                        assert(after[j] == before[j]);
                    }
                }
            },
            None => {
                let ghost whole = v@.subrange(from as int, from + width);
                assert(whole[i as int] == v@[from + i]);
                return None;
            },
        }
        i = i + 1;
    }
    Some(acc)
}

} // verus!
