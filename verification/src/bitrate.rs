//! Display form of a bitrate given as a string of decimal digits.
//!
//! The unit is chosen by the number of digits, not by the magnitude: four to
//! six digits are shown in `kb/s`, seven to nine in `mb/s`, anything else in
//! `bps`. The scaled value is written with three decimals and then cut to its
//! first five characters.

use vstd::prelude::*;
use vstd::arithmetic::power2::*;
use crate::numeral::{
    all_digits, decimal, decimal_digits, decimal_value, digit, digit_char, digit_value, is_digit,
    is_number, lemma_zeros, small_value,
};
use crate::text::{chars_of, string_of};

verus! {

/// `whole` and `thousandths` (below one thousand) written with a decimal
/// point and exactly three decimals.
pub open spec fn fixed3(whole: nat, thousandths: nat) -> Seq<char> {
    decimal(whole) + seq![
        '.',
        digit_char(thousandths / 100),
        digit_char(thousandths / 10 % 10),
        digit_char(thousandths % 10),
    ]
}

/// The first five characters of `s`, or all of `s` where it has fewer.
pub open spec fn clip5(s: Seq<char>) -> Seq<char> {
    if s.len() > 5 {
        s.take(5)
    } else {
        s
    }
}

/// Where the binary64 number nearest to a quotient lies.
pub enum Side {
    /// The quotient is a binary64 number.
    Exact,
    /// The nearest binary64 number is smaller than the quotient.
    Below,
    /// The nearest binary64 number is larger than the quotient.
    Above,
}

/// Whether `e` scales `num / den` into the range of a 53-bit significand.
pub open spec fn scales(num: nat, den: nat, e: nat) -> bool {
    pow2(52) * den <= num * pow2(e) < pow2(53) * den
}

/// Where the binary64 number nearest to `num / den` lies (ties go to the
/// even significand), for a quotient of at least `2^-52`.
pub open spec fn nearest_binary64(num: nat, den: nat) -> Side {
    let e = choose|e: nat| scales(num, den, e);
    let m = num * pow2(e) / den;
    let rest = num * pow2(e) % den;
    if rest == 0 {
        Side::Exact
    } else if 2 * rest > den || (2 * rest == den && m % 2 == 1) {
        Side::Above
    } else {
        Side::Below
    }
}

/// The thousandths shown for `v` millionths: `v / 10^6` is rounded to the
/// nearest binary64 number, and that number to the nearest thousandth, a tie
/// going to the even one. Only where `v` lies halfway between two thousandths
/// does the first rounding decide.
pub open spec fn mega_thousandths(v: nat) -> nat {
    let k = v / 1000;
    let r = v % 1000;
    if r < 500 {
        k
    } else if r > 500 {
        k + 1
    } else {
        match nearest_binary64(v, 1_000_000) {
            Side::Below => k,
            Side::Above => k + 1,
            Side::Exact => if k % 2 == 0 { k } else { k + 1 },
        }
    }
}

/// The display form of the bitrate `s`: empty where `s` is no number.
pub open spec fn bitrate_display(s: Seq<char>) -> Seq<char> {
    if !is_number(s) {
        Seq::empty()
    } else {
        let v = decimal_value(s);
        if 4 <= s.len() <= 6 {
            clip5(fixed3(v / 1000, v % 1000)) + " kb/s"@
        } else if 7 <= s.len() <= 9 {
            let t = mega_thousandths(v);
            clip5(fixed3(t / 1000, t % 1000)) + " mb/s"@
        } else {
            clip5(fixed3(v, 0)) + " bps"@
        }
    }
}

/// Appends a decimal point and the three decimals of `thousandths`.
fn push_decimals(out: &mut Vec<char>, thousandths: u64)
    requires
        thousandths < 1000,
    ensures
        final(out)@ == old(out)@ + seq![
            '.',
            digit_char(thousandths as nat / 100),
            digit_char(thousandths as nat / 10 % 10),
            digit_char(thousandths as nat % 10),
        ],
{
    out.push('.');
    out.push(digit((thousandths / 100) as u8));
    out.push(digit((thousandths / 10 % 10) as u8));
    out.push(digit((thousandths % 10) as u8));
    assert(out@ =~= old(out)@ + seq![
        '.',
        digit_char(thousandths as nat / 100),
        digit_char(thousandths as nat / 10 % 10),
        digit_char(thousandths as nat % 10),
    ]);
}

/// The first five characters of `v`, followed by `suffix`.
fn clip_with_suffix(v: &Vec<char>, suffix: &str) -> (r: String)
    ensures
        r@ == clip5(v@) + suffix@,
{
    let end: usize = if v.len() > 5 { 5 } else { v.len() };
    let mut out = string_of(v, 0, end);
    proof {
        assert(v@.subrange(0, end as int) =~= clip5(v@));
    }
    out.append(suffix);
    out
}

/// At most one exponent scales a quotient into the 53-bit range.
proof fn lemma_scale_unique(num: nat, den: nat, e1: nat, e2: nat)
    requires
        scales(num, den, e1),
        scales(num, den, e2),
    ensures
        e1 == e2,
{
    if e1 < e2 {
        lemma_doubles(num, den, e1, e2);
    } else if e2 < e1 {
        lemma_doubles(num, den, e2, e1);
    }
}

/// Past an exponent that scales into the range, every larger one overshoots.
proof fn lemma_doubles(num: nat, den: nat, lo: nat, hi: nat)
    requires
        lo < hi,
        scales(num, den, lo),
    ensures
        num * pow2(hi) >= pow2(53) * den,
{
    let d = (hi - lo) as nat;
    lemma_pow2_adds(lo, d);
    lemma_pow2_unfold(d);
    lemma_pow2_pos((d - 1) as nat);
    lemma_pow2_unfold(53);
    let a = num * pow2(lo);
    let g = pow2((d - 1) as nat);
    assert(pow2(hi) == pow2(lo) * (2 * g));
    assert(num * pow2(hi) == a * (2 * g)) by (nonlinear_arith)
        requires
            pow2(hi) == pow2(lo) * (2 * g),
            a == num * pow2(lo),
    ;
    assert(a * (2 * g) >= 2 * a) by (nonlinear_arith)
        requires
            g >= 1,
            a >= 0,
    ;
    assert(pow2(53) * den == 2 * (pow2(52) * den)) by (nonlinear_arith)
        requires
            pow2(53) == 2 * pow2(52),
    ;
}

/// Where the binary64 number nearest to `num / den` lies.
fn quotient_side(num: u64, den: u64) -> (r: Side)
    requires
        0 < num < 1_000_000_000,
        0 < den <= 1_000_000,
    ensures
        r == nearest_binary64(num as nat, den as nat),
{
    let floor: u128 = 4503599627370496u128 * (den as u128);
    let mut x: u128 = num as u128;
    let ghost mut e: nat = 0;
    proof {
        lemma2_to64();
        lemma2_to64_rest();
    }
    while x < floor
        invariant
            x == num * pow2(e),
            floor == pow2(52) * den,
            floor <= 4503599627370496u128 * 1_000_000,
            0 < x < 2 * floor,
        decreases 2 * floor - x,
    {
        proof {
            lemma_pow2_unfold(e + 1);
            assert(num * pow2(e + 1) == 2 * (num * pow2(e))) by (nonlinear_arith)
                requires
                    pow2(e + 1) == 2 * pow2(e),
            ;
        }
        x = x * 2;
        proof {
            e = e + 1;
        }
    }
    let m: u128 = x / (den as u128);
    let rest: u128 = x % (den as u128);
    proof {
        lemma_pow2_unfold(53);
        assert(pow2(53) * den == 2 * (pow2(52) * den)) by (nonlinear_arith)
            requires
                pow2(53) == 2 * pow2(52),
        ;
        assert(scales(num as nat, den as nat, e));
        let c = choose|c: nat| scales(num as nat, den as nat, c);
        lemma_scale_unique(num as nat, den as nat, e, c);
    }
    if rest == 0 {
        Side::Exact
    } else if 2 * rest > den as u128 || (2 * rest == den as u128 && m % 2 == 1) {
        Side::Above
    } else {
        Side::Below
    }
}

/// The thousandths shown for `v` millionths.
pub fn round_millionths(v: u64) -> (t: u64)
    requires
        v < 1_000_000_000,
    ensures
        t == mega_thousandths(v as nat),
        t <= 1_000_000,
{
    let k = v / 1000;
    let r = v % 1000;
    if r < 500 {
        k
    } else if r > 500 {
        k + 1
    } else {
        match quotient_side(v, 1_000_000) {
            Side::Below => k,
            Side::Above => k + 1,
            Side::Exact => if k % 2 == 0 { k } else { k + 1 },
        }
    }
}

/// The numeral of the number that `s` writes is `s` without its `z` leading
/// zeros, or `0` where nothing is left.
proof fn lemma_numeral(s: Seq<char>, z: int)
    requires
        forall|i: int| 0 <= i < s.len() ==> is_digit(#[trigger] s[i]),
        0 <= z <= s.len(),
        forall|i: int| 0 <= i < z ==> #[trigger] s[i] == '0',
        z < s.len() ==> s[z] != '0',
    ensures
        decimal(decimal_value(s)) == if z == s.len() {
            seq!['0']
        } else {
            s.skip(z)
        },
    decreases s.len(),
{
    if z == s.len() {
        lemma_zeros(s);
    } else {
        let p = s.drop_last();
        let c = s.last();
        assert(is_digit(c));
        assert(digit_char(digit_value(c)) == c);
        if z == p.len() {
            lemma_zeros(p);
            assert(s.skip(z) =~= seq![c]);
        } else {
            lemma_numeral(p, z);
            assert(p.skip(z)[0] == p[z]);
            assert(decimal_value(p) >= 10 || decimal(decimal_value(p)) == seq![
                digit_char(decimal_value(p)),
            ]);
            assert(decimal_value(p) != 0);
            assert(s.skip(z) =~= p.skip(z).push(c));
        }
    }
}

/// The display form of a bitrate.
///
/// A bitrate is a non-empty run of decimal digits; for anything else the
/// result is empty. The number of digits picks the unit: four to six give
/// `kb/s` (the value over one thousand), seven to nine `mb/s` (the value over
/// one million), any other count `bps`. The scaled value is written with three
/// decimals, cut to its first five characters, and followed by a space and
/// the unit. The digits are taken exactly, whatever their number; only the
/// third decimal of a value in `mb/s` that lies halfway between two
/// thousandths goes by the binary64 number nearest to the quotient.
pub fn format_bitrate(input: String) -> (r: String)
    ensures
        r@ == bitrate_display(input@),
{
    let s = chars_of(input.as_str());
    if !all_digits(&s) {
        return String::new();
    }
    let n = s.len();
    if 4 <= n && n <= 6 {
        let v = small_value(&s);
        let mut out = decimal_digits(v / 1000);
        push_decimals(&mut out, v % 1000);
        clip_with_suffix(&out, " kb/s")
    } else if 7 <= n && n <= 9 {
        let t = round_millionths(small_value(&s));
        let mut out = decimal_digits(t / 1000);
        push_decimals(&mut out, t % 1000);
        clip_with_suffix(&out, " mb/s")
    } else {
        let mut z: usize = 0;
        while z < n && s[z] == '0'
            invariant
                z <= n == s.len(),
                forall|i: int| 0 <= i < z ==> #[trigger] s@[i] == '0',
            decreases n - z,
        {
            z += 1;
        }
        let mut out: Vec<char> = Vec::new();
        if z == n {
            out.push('0');
            assert(out@ =~= seq!['0']);
        } else {
            let mut i: usize = z;
            while i < n
                invariant
                    z <= i <= n == s.len(),
                    out@ == s@.subrange(z as int, i as int),
                decreases n - i,
            {
                out.push(s[i]);
                i += 1;
            }
            assert(out@ =~= s@.skip(z as int));
        }
        proof {
            lemma_numeral(s@, z as int);
        }
        push_decimals(&mut out, 0);
        clip_with_suffix(&out, " bps")
    }
}

/// The thousandths shown are among the nearest: they differ from the
/// value by at most half a thousandth.
pub proof fn lemma_round_is_nearest(v: nat)
    ensures
        1000 * mega_thousandths(v) - 500 <= v <= 1000 * mega_thousandths(v) + 500,
{
}

} // verus!
