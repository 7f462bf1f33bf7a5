//! Integer parsing as `str::parse` does it for Rust's integer types:
//! an optional sign, then one or more ASCII digits, within the type's range.

use vstd::prelude::*;

use crate::text::{digit_char, int_text, nat_digits};

verus! {

pub open spec fn is_digit(c: char) -> bool {
    '0' <= c && c <= '9'
}

pub open spec fn digit_value(c: char) -> int {
    c as int - '0' as int
}

/// The value of a string of decimal digits.
pub open spec fn decimal_value(d: Seq<char>) -> int
    decreases d.len(),
{
    if d.len() == 0 {
        0
    } else {
        decimal_value(d.drop_last()) * 10 + digit_value(d.last())
    }
}

pub open spec fn all_digits(d: Seq<char>) -> bool {
    forall|k: int| 0 <= k < d.len() ==> is_digit(#[trigger] d[k])
}

/// The digits after an optional leading `+`.
pub open spec fn unsigned_digits(s: Seq<char>) -> Seq<char> {
    if s.len() > 0 && s[0] == '+' {
        s.drop_first()
    } else {
        s
    }
}

/// `str::parse` for an unsigned integer type whose largest value is `max`.
pub open spec fn parse_unsigned(s: Seq<char>, max: int) -> Option<int> {
    let d = unsigned_digits(s);
    if d.len() > 0 && all_digits(d) && decimal_value(d) <= max {
        Some(decimal_value(d))
    } else {
        None
    }
}

/// `str::parse` for a signed integer type with range `min..=max`.
pub open spec fn parse_signed(s: Seq<char>, min: int, max: int) -> Option<int> {
    if s.len() > 0 && s[0] == '-' {
        let d = s.drop_first();
        if d.len() > 0 && all_digits(d) && -decimal_value(d) >= min {
            Some(-decimal_value(d))
        } else {
            None
        }
    } else {
        let d = unsigned_digits(s);
        if d.len() > 0 && all_digits(d) && decimal_value(d) <= max {
            Some(decimal_value(d))
        } else {
            None
        }
    }
}

proof fn lemma_decimal_nonneg(d: Seq<char>)
    requires
        all_digits(d),
    ensures
        decimal_value(d) >= 0,
    decreases d.len(),
{
    if d.len() > 0 {
        assert(is_digit(d[d.len() - 1]));
        lemma_decimal_nonneg(d.drop_last());
    }
}

proof fn lemma_decimal_monotone(d: Seq<char>, i: int)
    requires
        all_digits(d),
        0 <= i <= d.len(),
    ensures
        decimal_value(d.take(i)) <= decimal_value(d),
    decreases d.len() - i,
{
    if i < d.len() {
        assert(d.drop_last().take(i) =~= d.take(i));
        lemma_decimal_monotone(d.drop_last(), i);
        lemma_decimal_nonneg(d.drop_last());
        assert(is_digit(d[d.len() - 1]));
    } else {
        assert(d.take(i) =~= d);
    }
}

/// The value of `d[from..]` when it is all digits and at most `max`.
fn digits_value(d: &Vec<char>, from: usize, max: u64) -> (r: Option<u64>)
    requires
        from <= d@.len(),
        max >= 9,
    ensures
        ({
            let t = d@.skip(from as int);
            match r {
                Some(v) => t.len() > 0 && all_digits(t) && decimal_value(t) <= max && v == decimal_value(t),
                None => !(t.len() > 0 && all_digits(t) && decimal_value(t) <= max),
            }
        }),
{
    let ghost t = d@.skip(from as int);
    if from == d.len() {
        return None;
    }
    let mut acc: u64 = 0;
    let mut i: usize = from;
    while i < d.len()
        invariant
            from <= i <= d@.len(),
            t == d@.skip(from as int),
            all_digits(t.take(i - from)),
            acc == decimal_value(t.take(i - from)),
            acc <= max,
            max >= 9,
        decreases d.len() - i,
    {
        let c = d[i];
        assert(t[i - from] == c);
        if !('0' <= c && c <= '9') {
            assert(!all_digits(t));
            return None;
        }
        let dv = (c as u32 - '0' as u32) as u64;
        assert(dv <= 9);
        assert(dv == digit_value(c));
        assert(t.take(i - from + 1).drop_last() =~= t.take(i - from));
        assert(all_digits(t.take(i - from + 1)));
        if acc > (max - dv) / 10 {
            proof {
                assert(decimal_value(t.take(i - from + 1)) == acc * 10 + dv);
                assert(acc * 10 + dv > max) by (nonlinear_arith)
                    requires acc > (max - dv) / 10, dv <= 9, dv <= max || acc * 10 + dv > max;
                if all_digits(t) {
                    lemma_decimal_monotone(t, i - from + 1);
                }
            }
            return None;
        }
        assert(acc * 10 + dv <= max) by (nonlinear_arith)
            requires acc <= (max - dv) / 10, dv <= 9, dv <= max;
        acc = acc * 10 + dv;
        i = i + 1;
    }
    assert(t.take(i - from) =~= t);
    Some(acc)
}

/// `s.parse::<u64>()`, as an option.
pub fn parse_u64(s: &Vec<char>) -> (r: Option<u64>)
    ensures
        r is Some == parse_unsigned(s@, u64::MAX as int) is Some,
        r matches Some(x) ==> parse_unsigned(s@, u64::MAX as int) == Some(x as int),
{
    let from: usize = if s.len() > 0 && s[0] == '+' { 1 } else { 0 };
    assert(s@.skip(from as int) =~= unsigned_digits(s@));
    digits_value(s, from, u64::MAX)
}

/// `s.parse::<u32>()`, as an option.
pub fn parse_u32(s: &Vec<char>) -> (r: Option<u32>)
    ensures
        r is Some == parse_unsigned(s@, u32::MAX as int) is Some,
        r matches Some(x) ==> parse_unsigned(s@, u32::MAX as int) == Some(x as int),
{
    let from: usize = if s.len() > 0 && s[0] == '+' { 1 } else { 0 };
    assert(s@.skip(from as int) =~= unsigned_digits(s@));
    match digits_value(s, from, u32::MAX as u64) {
        Some(v) => Some(v as u32),
        None => None,
    }
}

/// `s.parse::<i32>()`, as an option.
pub fn parse_i32(s: &Vec<char>) -> (r: Option<i32>)
    ensures
        r is Some == parse_signed(s@, i32::MIN as int, i32::MAX as int) is Some,
        r matches Some(x) ==> parse_signed(s@, i32::MIN as int, i32::MAX as int) == Some(x as int),
{
    if s.len() > 0 && s[0] == '-' {
        assert(s@.skip(1) =~= s@.drop_first());
        match digits_value(s, 1, 2147483648u64) {
            Some(v) => Some((0 - (v as i64)) as i32),
            None => None,
        }
    } else {
        let from: usize = if s.len() > 0 && s[0] == '+' { 1 } else { 0 };
        assert(s@.skip(from as int) =~= unsigned_digits(s@));
        match digits_value(s, from, i32::MAX as u64) {
            Some(v) => Some(v as i32),
            None => None,
        }
    }
}

/// The digits of `n` are decimal digits, at least one, and read back as `n`.
pub proof fn lemma_nat_digits(n: nat)
    ensures
        nat_digits(n).len() > 0,
        all_digits(nat_digits(n)),
        decimal_value(nat_digits(n)) == n,
    decreases n,
{
    let d = nat_digits(n);
    if n < 10 {
        assert(d.drop_last() =~= Seq::<char>::empty());
        assert(decimal_value(Seq::<char>::empty()) == 0);
        assert(d.last() == digit_char(n as int));
        assert(digit_value(digit_char(n as int)) == n);
        assert(decimal_value(d) == decimal_value(d.drop_last()) * 10 + digit_value(d.last()));
    } else {
        lemma_nat_digits(n / 10);
        assert(d.drop_last() =~= nat_digits(n / 10));
        assert(d.last() == digit_char((n % 10) as int));
        assert(digit_value(digit_char((n % 10) as int)) == n % 10);
        assert(decimal_value(d) == decimal_value(d.drop_last()) * 10 + digit_value(d.last()));
        assert((n / 10) * 10 + n % 10 == n);
        assert forall|k: int| 0 <= k < d.len() implies is_digit(#[trigger] d[k]) by {
            if k < d.len() - 1 {
                assert(d[k] == nat_digits(n / 10)[k]);
            }
        }
    }
}

/// `str::parse` reads back what `Display` writes for an unsigned integer.
pub proof fn lemma_parse_nat_digits(n: nat, max: int)
    requires
        n <= max,
    ensures
        parse_unsigned(nat_digits(n), max) == Some(n as int),
{
    lemma_nat_digits(n);
    assert(is_digit(nat_digits(n)[0]));
}

/// `str::parse` reads back what `Display` writes for a signed integer.
pub proof fn lemma_parse_int_text(i: int, min: int, max: int)
    requires
        min <= i <= max,
    ensures
        parse_signed(int_text(i), min, max) == Some(i),
{
    if i < 0 {
        let n = (-i) as nat;
        lemma_nat_digits(n);
        assert(int_text(i).drop_first() =~= nat_digits(n));
    } else {
        lemma_nat_digits(i as nat);
        assert(is_digit(nat_digits(i as nat)[0]));
    }
}

pub open spec fn is_hex_digit(c: char) -> bool {
    ('0' <= c && c <= '9') || ('a' <= c && c <= 'f') || ('A' <= c && c <= 'F')
}

pub open spec fn hex_digit_value(c: char) -> int {
    if '0' <= c && c <= '9' {
        c as int - 48
    } else if 'a' <= c && c <= 'f' {
        c as int - 87
    } else {
        c as int - 55
    }
}

/// The value of a string of hexadecimal digits.
pub open spec fn hex_value(d: Seq<char>) -> int
    decreases d.len(),
{
    if d.len() == 0 {
        0
    } else {
        hex_value(d.drop_last()) * 16 + hex_digit_value(d.last())
    }
}

pub open spec fn all_hex(d: Seq<char>) -> bool {
    forall|k: int| 0 <= k < d.len() ==> is_hex_digit(#[trigger] d[k])
}

/// `from_str_radix(s, 16)` for an unsigned integer type whose largest value is `max`.
pub open spec fn parse_hex(s: Seq<char>, max: int) -> Option<int> {
    let d = unsigned_digits(s);
    if d.len() > 0 && all_hex(d) && hex_value(d) <= max {
        Some(hex_value(d))
    } else {
        None
    }
}

proof fn lemma_hex_nonneg(d: Seq<char>)
    requires
        all_hex(d),
    ensures
        hex_value(d) >= 0,
    decreases d.len(),
{
    if d.len() > 0 {
        assert(is_hex_digit(d[d.len() - 1]));
        lemma_hex_nonneg(d.drop_last());
    }
}

proof fn lemma_hex_monotone(d: Seq<char>, i: int)
    requires
        all_hex(d),
        0 <= i <= d.len(),
    ensures
        hex_value(d.take(i)) <= hex_value(d),
    decreases d.len() - i,
{
    if i < d.len() {
        assert(d.drop_last().take(i) =~= d.take(i));
        lemma_hex_monotone(d.drop_last(), i);
        lemma_hex_nonneg(d.drop_last());
        assert(is_hex_digit(d[d.len() - 1]));
    } else {
        assert(d.take(i) =~= d);
    }
}

/// `u32::from_str_radix(s, 16)`, as an option.
pub fn parse_hex_u32(s: &Vec<char>) -> (r: Option<u32>)
    ensures
        r is Some == parse_hex(s@, u32::MAX as int) is Some,
        r matches Some(x) ==> parse_hex(s@, u32::MAX as int) == Some(x as int),
{
    let from: usize = if s.len() > 0 && s[0] == '+' { 1 } else { 0 };
    let ghost t = s@.skip(from as int);
    assert(t =~= unsigned_digits(s@));
    if from == s.len() {
        return None;
    }
    let max: u64 = 0xFFFF_FFFF;
    let mut acc: u64 = 0;
    let mut i: usize = from;
    while i < s.len()
        invariant
            from <= i <= s@.len(),
            t == s@.skip(from as int),
            t == unsigned_digits(s@),
            all_hex(t.take(i - from)),
            acc == hex_value(t.take(i - from)),
            acc <= max,
            max == 0xFFFF_FFFF,
        decreases s.len() - i,
    {
        let c = s[i];
        assert(t[i - from] == c);
        let dv: u64 = if '0' <= c && c <= '9' {
            (c as u32 - 48) as u64
        } else if 'a' <= c && c <= 'f' {
            (c as u32 - 87) as u64
        } else if 'A' <= c && c <= 'F' {
            (c as u32 - 55) as u64
        } else {
            assert(!all_hex(t));
            return None;
        };
        assert(dv <= 15);
        assert(dv == hex_digit_value(c));
        assert(t.take(i - from + 1).drop_last() =~= t.take(i - from));
        assert(all_hex(t.take(i - from + 1)));
        if acc > (max - dv) / 16 {
            proof {
                assert(hex_value(t.take(i - from + 1)) == acc * 16 + dv);
                assert(acc * 16 + dv > max) by (nonlinear_arith)
                    requires acc > (max - dv) / 16, dv <= 15, max == 0xFFFF_FFFF;
                if all_hex(t) {
                    lemma_hex_monotone(t, i - from + 1);
                }
            }
            return None;
        }
        assert(acc * 16 + dv <= max) by (nonlinear_arith)
            requires acc <= (max - dv) / 16, dv <= 15, max == 0xFFFF_FFFF;
        acc = acc * 16 + dv;
        i = i + 1;
    }
    assert(t.take(i - from) =~= t);
    Some(acc as u32)
}

} // verus!
