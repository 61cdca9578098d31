//! Decimal numerals: digits, the numbers they write, and the numerals of
//! numbers.

use vstd::prelude::*;
use crate::text::chars_of;

verus! {

/// Whether `c` is one of `0` to `9`.
pub open spec fn is_digit(c: char) -> bool {
    '0' <= c && c <= '9'
}

/// The number that the digit `c` stands for.
pub open spec fn digit_value(c: char) -> nat {
    (c as u32 - 48) as nat
}

/// The digit that stands for `d`, for `d` below ten.
pub open spec fn digit_char(d: nat) -> char {
    ((d + 48) as u8) as char
}

/// Whether `s` is a number: a non-empty run of decimal digits.
pub open spec fn is_number(s: Seq<char>) -> bool {
    s.len() > 0 && forall|i: int| 0 <= i < s.len() ==> is_digit(#[trigger] s[i])
}

/// The number written by the digits `s`, most significant first.
pub open spec fn decimal_value(s: Seq<char>) -> nat
    decreases s.len(),
{
    if s.len() == 0 {
        0
    } else {
        10 * decimal_value(s.drop_last()) + digit_value(s.last())
    }
}

/// The decimal numeral of `n`, without leading zeros.
pub open spec fn decimal(n: nat) -> Seq<char>
    decreases n,
{
    if n < 10 {
        seq![digit_char(n)]
    } else {
        decimal(n / 10).push(digit_char(n % 10))
    }
}

/// The digit for `d`.
pub fn digit(d: u8) -> (c: char)
    requires
        d < 10,
    ensures
        c == digit_char(d as nat),
        is_digit(c),
        digit_value(c) == d,
{
    (d + 48) as char
}

/// The number that the digit `c` stands for.
pub fn value_of(c: char) -> (d: u8)
    requires
        is_digit(c),
    ensures
        d == digit_value(c),
        d < 10,
{
    (c as u32 - 48) as u8
}

/// Whether `s` is a non-empty run of decimal digits.
pub fn all_digits(s: &Vec<char>) -> (r: bool)
    ensures
        r == is_number(s@),
{
    if s.len() == 0 {
        return false;
    }
    let mut i: usize = 0;
    while i < s.len()
        invariant
            i <= s.len(),
            forall|j: int| 0 <= j < i ==> is_digit(#[trigger] s@[j]),
        decreases s.len() - i,
    {
        let c = s[i];
        if !('0' <= c && c <= '9') {
            return false;
        }
        i += 1;
    }
    true
}

/// A numeral of `n` digits is below `10^n`; stated for the lengths in use.
proof fn lemma_value_bound(s: Seq<char>)
    requires
        forall|i: int| 0 <= i < s.len() ==> is_digit(#[trigger] s[i]),
        s.len() <= 9,
    ensures
        s.len() == 0 ==> decimal_value(s) == 0,
        s.len() == 1 ==> decimal_value(s) < 10,
        s.len() == 2 ==> decimal_value(s) < 100,
        s.len() == 3 ==> decimal_value(s) < 1_000,
        s.len() == 4 ==> decimal_value(s) < 10_000,
        s.len() == 5 ==> decimal_value(s) < 100_000,
        s.len() == 6 ==> decimal_value(s) < 1_000_000,
        s.len() == 7 ==> decimal_value(s) < 10_000_000,
        s.len() == 8 ==> decimal_value(s) < 100_000_000,
        s.len() == 9 ==> decimal_value(s) < 1_000_000_000,
    decreases s.len(),
{
    if s.len() > 0 {
        lemma_value_bound(s.drop_last());
    }
}

/// The number written by the digits of `s`, for at most nine digits.
pub fn small_value(s: &Vec<char>) -> (v: u64)
    requires
        forall|i: int| 0 <= i < s.len() ==> is_digit(#[trigger] s@[i]),
        s.len() <= 9,
    ensures
        v == decimal_value(s@),
        v < 1_000_000_000,
{
    let mut v: u64 = 0;
    let mut i: usize = 0;
    while i < s.len()
        invariant
            i <= s.len() <= 9,
            forall|j: int| 0 <= j < s.len() ==> is_digit(#[trigger] s@[j]),
            v == decimal_value(s@.take(i as int)),
            v < 1_000_000_000,
        decreases s.len() - i,
    {
        let d = value_of(s[i]);
        proof {
            let t = s@.take(i + 1);
            assert(t.drop_last() =~= s@.take(i as int));
            assert(t.last() == s@[i as int]);
            lemma_value_bound(s@.take(i as int));
            lemma_value_bound(t);
        }
        v = v * 10 + d as u64;
        i += 1;
    }
    proof {
        assert(s@.take(s.len() as int) =~= s@);
    }
    v
}

/// The decimal numeral of `n`.
pub fn decimal_digits(n: u64) -> (r: Vec<char>)
    ensures
        r@ == decimal(n as nat),
        r.len() >= 1,
    decreases n,
{
    if n < 10 {
        let mut out: Vec<char> = Vec::new();
        out.push(digit(n as u8));
        assert(out@ =~= seq![digit_char(n as nat)]);
        out
    } else {
        let mut out = decimal_digits(n / 10);
        out.push(digit((n % 10) as u8));
        out
    }
}

/// A run of zeros writes the number zero.
pub proof fn lemma_zeros(s: Seq<char>)
    requires
        forall|i: int| 0 <= i < s.len() ==> #[trigger] s[i] == '0',
    ensures
        decimal_value(s) == 0,
    decreases s.len(),
{
    if s.len() > 0 {
        lemma_zeros(s.drop_last());
    }
}

/// The digits of a numeral's prefix write no more than the numeral.
pub proof fn lemma_prefix_value(s: Seq<char>, i: int)
    requires
        forall|j: int| 0 <= j < s.len() ==> is_digit(#[trigger] s[j]),
        0 <= i <= s.len(),
    ensures
        decimal_value(s.take(i)) <= decimal_value(s),
    decreases s.len(),
{
    if i < s.len() {
        lemma_prefix_value(s.drop_last(), i);
        assert(s.drop_last().take(i) =~= s.take(i));
    } else {
        assert(s.take(i) =~= s);
    }
}

/// The number that the characters of `s` from `from` on write, where they
/// are a number of at most `limit`.
pub fn bounded_value(s: &Vec<char>, from: usize, limit: u64) -> (r: Option<u64>)
    requires
        from <= s.len(),
    ensures
        r is Some <==> is_number(s@.skip(from as int)) && decimal_value(s@.skip(from as int))
            <= limit,
        r matches Some(v) ==> v == decimal_value(s@.skip(from as int)),
{
    let ghost body = s@.skip(from as int);
    if from == s.len() {
        return None;
    }
    let mut acc: u64 = 0;
    let mut i: usize = from;
    proof {
        assert(body.take(0).len() == 0);
    }
    while i < s.len()
        invariant
            from <= i <= s.len(),
            body == s@.skip(from as int),
            forall|j: int| 0 <= j < i - from ==> is_digit(#[trigger] body[j]),
            acc == decimal_value(body.take(i - from)),
            acc <= limit,
        decreases s.len() - i,
    {
        let c = s[i];
        if !('0' <= c && c <= '9') {
            assert(!is_digit(body[i - from]));
            return None;
        }
        let d = value_of(c);
        let ghost next = body.take(i - from + 1);
        proof {
            assert(next.drop_last() =~= body.take(i - from));
            assert(next.last() == c);
        }
        let wide: u128 = acc as u128 * 10 + d as u128;
        if wide > limit as u128 {
            proof {
                if is_number(body) {
                    lemma_prefix_value(body, i - from + 1);
                }
            }
            return None;
        }
        acc = wide as u64;
        i += 1;
    }
    proof {
        assert(body.take(s.len() - from) =~= body);
    }
    Some(acc)
}

/// The integer that `s` writes: a run of digits, which a single `+` or `-`
/// may precede. `None` where `s` is no such numeral.
pub open spec fn integer_of(s: Seq<char>) -> Option<int> {
    if s.len() > 0 && (s[0] == '+' || s[0] == '-') {
        if !is_number(s.skip(1)) {
            None
        } else if s[0] == '-' {
            Some(-(decimal_value(s.skip(1)) as int))
        } else {
            Some(decimal_value(s.skip(1)) as int)
        }
    } else if is_number(s) {
        Some(decimal_value(s) as int)
    } else {
        None
    }
}

/// The integer that `s` writes, where it fits in 32 bits with a sign.
pub open spec fn i32_of(s: Seq<char>) -> Option<int> {
    match integer_of(s) {
        Some(v) => if -0x8000_0000 <= v <= 0x7fff_ffff {
            Some(v)
        } else {
            None
        },
        None => None,
    }
}

/// The count that `s` writes: a run of digits, which a single `+` may
/// precede, of a number that fits in a `usize`.
pub open spec fn usize_of(s: Seq<char>) -> Option<int> {
    if s.len() > 0 && s[0] == '-' {
        None
    } else {
        match integer_of(s) {
            Some(v) => if v <= usize::MAX {
                Some(v)
            } else {
                None
            },
            None => None,
        }
    }
}

/// Reads a 32-bit integer with an optional sign.
pub fn parse_i32(text: &str) -> (r: Option<i32>)
    ensures
        match r {
            Some(v) => i32_of(text@) == Some(v as int),
            None => i32_of(text@) is None,
        },
{
    let s = chars_of(text);
    if s.len() > 0 && s[0] == '-' {
        match bounded_value(&s, 1, 0x8000_0000) {
            Some(v) => Some((0 - v as i64) as i32),
            None => None,
        }
    } else if s.len() > 0 && s[0] == '+' {
        match bounded_value(&s, 1, 0x7fff_ffff) {
            Some(v) => Some(v as i32),
            None => None,
        }
    } else {
        proof {
            assert(s@.skip(0) =~= s@);
        }
        match bounded_value(&s, 0, 0x7fff_ffff) {
            Some(v) => Some(v as i32),
            None => None,
        }
    }
}

/// Reads a count with an optional `+`.
pub fn parse_usize(text: &str) -> (r: Option<usize>)
    ensures
        match r {
            Some(v) => usize_of(text@) == Some(v as int),
            None => usize_of(text@) is None,
        },
{
    let s = chars_of(text);
    let from: usize = if s.len() > 0 && s[0] == '+' { 1 } else { 0 };
    proof {
        assert(s@.skip(0) =~= s@);
        if s.len() > 0 && s[0] == '-' {
            assert(!is_digit(s@[0]));
        }
    }
    match bounded_value(&s, from, usize::MAX as u64) {
        Some(v) => Some(v as usize),
        None => None,
    }
}

} // verus!
