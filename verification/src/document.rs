//! Access to a metadata document in JSON, through the `json` crate.
//!
//! A parsed value is opaque here. What the crate's accessors return for it is
//! named by the spec functions below, and the functions of this module are
//! the only way to it.
//!
//! The parser counts the exponent of a number in sixteen bits. A scan of the
//! text, which follows the parser through strings and numbers, tells
//! beforehand whether that count would run out.

use vstd::prelude::*;
use crate::numeral::{digit_value, is_digit, value_of};
use crate::text::chars_of;

verus! {

/// Below this mantissa the parser takes a further digit without a check.
pub const FAST_MANTISSA: u64 = 576460752303423500;

/// The least exponent that the parser can count to.
pub const MIN_EXPONENT: i32 = -32768;

/// The greatest exponent that the parser can count to.
pub const MAX_EXPONENT: i32 = 32767;

/// Where in a JSON text a scan stands.
#[derive(Clone, Copy, Debug, PartialEq, Eq)]
pub enum Place {
    /// Outside a string and outside a number.
    Outside,
    /// In the digits of a number before its point.
    Whole,
    /// In the digits of a number behind its point.
    Fraction,
    /// Behind the `e` of a number.
    Exponent,
    /// In a string.
    Text,
    /// In a string, behind a backslash.
    Escape,
}

/// What a scan of a JSON text knows after some of its characters: where it
/// stands, the mantissa and the exponent that the parser has counted for the
/// number it is in, and whether the parser's exponent has run out.
#[derive(Clone, Copy, Debug, PartialEq, Eq)]
pub struct Scan {
    pub place: Place,
    pub mantissa: u64,
    pub exponent: i32,
    pub refused: bool,
}

/// The scan before the first character.
pub open spec fn scan_start() -> Scan {
    Scan { place: Place::Outside, mantissa: 0, exponent: 0, refused: false }
}

/// Whether the mantissa can take the digit `d` as the parser counts: it
/// does where the mantissa is small, or where ten times it and `d` still fit.
pub open spec fn mantissa_takes(mantissa: u64, d: nat) -> bool {
    mantissa < FAST_MANTISSA || mantissa * 10 + d <= u64::MAX
}

/// The scan after a digit `d` before the point: the mantissa takes it, or
/// else the exponent counts it.
pub open spec fn whole_digit(s: Scan, d: nat) -> Scan {
    if mantissa_takes(s.mantissa, d) {
        Scan { mantissa: (s.mantissa * 10 + d) as u64, ..s }
    } else if s.exponent < MAX_EXPONENT {
        Scan { exponent: (s.exponent + 1) as i32, ..s }
    } else {
        s
    }
}

/// The scan after a digit `d` behind the point: where the mantissa takes
/// it, the exponent goes down by one, and is refused where it cannot.
pub open spec fn fraction_digit(s: Scan, d: nat) -> Scan {
    if !mantissa_takes(s.mantissa, d) {
        s
    } else if s.exponent > MIN_EXPONENT {
        Scan { mantissa: (s.mantissa * 10 + d) as u64, exponent: (s.exponent - 1) as i32, ..s }
    } else {
        Scan { refused: true, ..s }
    }
}

/// The scan after one more character `c`.
///
/// A string runs from a quote to the next quote that no backslash precedes.
/// Outside strings a run of digits begins a number, a point behind it begins
/// the fraction, and an `e` behind either the exponent; any other character
/// ends the number.
pub open spec fn scan_step(s: Scan, c: char) -> Scan {
    if s.refused {
        s
    } else if s.place == Place::Escape {
        Scan { place: Place::Text, ..s }
    } else if s.place == Place::Text {
        if c == '\\' {
            Scan { place: Place::Escape, ..s }
        } else if c == '"' {
            Scan { place: Place::Outside, ..s }
        } else {
            s
        }
    } else if c == '"' {
        Scan { place: Place::Text, ..s }
    } else if is_digit(c) {
        if s.place == Place::Outside {
            Scan { place: Place::Whole, mantissa: digit_value(c) as u64, exponent: 0, ..s }
        } else if s.place == Place::Whole {
            whole_digit(s, digit_value(c))
        } else if s.place == Place::Fraction {
            fraction_digit(s, digit_value(c))
        } else {
            s
        }
    } else if c == '.' && s.place == Place::Whole {
        Scan { place: Place::Fraction, ..s }
    } else if (c == 'e' || c == 'E') && (s.place == Place::Whole || s.place == Place::Fraction) {
        Scan { place: Place::Exponent, ..s }
    } else {
        Scan { place: Place::Outside, ..s }
    }
}

/// The scan after all of `text`.
pub open spec fn scan(text: Seq<char>) -> Scan
    decreases text.len(),
{
    if text.len() == 0 {
        scan_start()
    } else {
        scan_step(scan(text.drop_last()), text.last())
    }
}

/// Whether the parser can take `text`: no fraction outside a string has so
/// many digits that count that the parser's exponent would run out.
pub open spec fn parser_takes(text: Seq<char>) -> bool {
    !scan(text).refused
}

/// The exponent goes down by at most one for each character, so the parser
/// can take every text of at most 32768 characters.
pub proof fn lemma_short_text_is_taken(text: Seq<char>)
    requires
        text.len() <= 32768,
    ensures
        parser_takes(text),
        scan(text).exponent >= -text.len(),
    decreases text.len(),
{
    if text.len() > 0 {
        lemma_short_text_is_taken(text.drop_last());
    }
}

/// What stands in a string does not count: from a scan that stands in a
/// string and has not been refused, no character leads to a refusal.
pub proof fn lemma_strings_are_taken(s: Scan, c: char)
    requires
        !s.refused,
        s.place == Place::Text || s.place == Place::Escape,
    ensures
        !scan_step(s, c).refused,
        scan_step(s, c).mantissa == s.mantissa,
        scan_step(s, c).exponent == s.exponent,
{
}

/// The scan after one more character.
pub fn step(s: Scan, c: char) -> (r: Scan)
    ensures
        r == scan_step(s, c),
{
    if s.refused {
        return s;
    }
    match s.place {
        Place::Escape => Scan { place: Place::Text, ..s },
        Place::Text => {
            if c == '\\' {
                Scan { place: Place::Escape, ..s }
            } else if c == '"' {
                Scan { place: Place::Outside, ..s }
            } else {
                s
            }
        },
        _ => {
            if c == '"' {
                Scan { place: Place::Text, ..s }
            } else if '0' <= c && c <= '9' {
                let d = value_of(c) as u64;
                let takes = s.mantissa < FAST_MANTISSA || (s.mantissa <= u64::MAX / 10
                    && s.mantissa * 10 <= u64::MAX - d);
                match s.place {
                    Place::Outside => Scan { place: Place::Whole, mantissa: d, exponent: 0, ..s },
                    Place::Whole => {
                        if takes {
                            Scan { mantissa: s.mantissa * 10 + d, ..s }
                        } else if s.exponent < MAX_EXPONENT {
                            Scan { exponent: s.exponent + 1, ..s }
                        } else {
                            s
                        }
                    },
                    Place::Fraction => {
                        if !takes {
                            s
                        } else if s.exponent > MIN_EXPONENT {
                            Scan { mantissa: s.mantissa * 10 + d, exponent: s.exponent - 1, ..s }
                        } else {
                            Scan { refused: true, ..s }
                        }
                    },
                    _ => s,
                }
            } else if c == '.' && matches!(s.place, Place::Whole) {
                Scan { place: Place::Fraction, ..s }
            } else if (c == 'e' || c == 'E') && matches!(s.place, Place::Whole | Place::Fraction) {
                Scan { place: Place::Exponent, ..s }
            } else {
                Scan { place: Place::Outside, ..s }
            }
        },
    }
}

/// Whether the parser can take `text`.
pub fn can_be_parsed(text: &str) -> (r: bool)
    ensures
        r == parser_takes(text@),
{
    let chars = chars_of(text);
    let mut s = Scan { place: Place::Outside, mantissa: 0, exponent: 0, refused: false };
    let mut i: usize = 0;
    assert(chars@.take(0) =~= Seq::empty());
    while i < chars.len()
        invariant
            i <= chars.len(),
            chars@ == text@,
            s == scan(chars@.take(i as int)),
        decreases chars.len() - i,
    {
        proof {
            let next = chars@.take(i + 1);
            assert(next.drop_last() =~= chars@.take(i as int));
            assert(next.last() == chars@[i as int]);
        }
        s = step(s, chars[i]);
        i += 1;
    }
    assert(chars@.take(chars.len() as int) =~= chars@);
    !s.refused
}

/// Declares `json::JsonValue`, a parsed JSON value, as an opaque type.
#[verifier::external_type_specification]
#[verifier::external_body]
pub struct ExJsonValue(json::JsonValue);

/// Declares `json::Error`, the parser's error, as an opaque type.
#[verifier::external_type_specification]
#[verifier::external_body]
pub struct ExJsonError(json::Error);

/// What `json::parse` makes of `text`: the value, or `None` where it rejects
/// the text.
pub uninterp spec fn json_parsed(text: Seq<char>) -> Option<json::JsonValue>;

/// What indexing `v` with the key `key` gives.
pub uninterp spec fn json_member(v: json::JsonValue, key: Seq<char>) -> json::JsonValue;

/// The members that `JsonValue::members` walks for `v`, in its order.
pub uninterp spec fn json_members(v: json::JsonValue) -> Seq<json::JsonValue>;

/// What `JsonValue::as_str` gives for `v`.
pub uninterp spec fn json_str(v: json::JsonValue) -> Option<Seq<char>>;

/// What `v` displays as.
pub uninterp spec fn json_text(v: json::JsonValue) -> Seq<char>;

/// Parses a JSON text.
///
/// Trusted: stands for `json::parse`, a function of the text alone that
/// returns the parsed value or an error. Nothing more is claimed of it than
/// that its outcome goes by the name [`json_parsed`]. The parser counts a
/// number's exponent in sixteen bits and takes one off for each digit of a
/// fraction that its mantissa takes, without a guard: a text on which that
/// count would run out is kept from it. Digits in a string are not counted,
/// and the digits before the point are guarded by the parser itself.
#[verifier::external_body]
pub(crate) fn parse_text(text: &str) -> (r: Result<json::JsonValue, json::Error>)
    requires
        parser_takes(text@),
    ensures
        match r {
            Ok(v) => json_parsed(text@) == Some(v),
            Err(_) => json_parsed(text@) is None,
        },
{
    json::parse(text)
}

/// The value under `key`.
///
/// Trusted: stands for `JsonValue`'s `Index<&str>`, which returns the entry
/// of an object under that key, and a null value for a missing key or for a
/// value that is no object. The result goes by the name [`json_member`].
#[verifier::external_body]
pub(crate) fn member<'a>(v: &'a json::JsonValue, key: &str) -> (r: &'a json::JsonValue)
    ensures
        *r == json_member(*v, key@),
{
    &v[key]
}

/// The members of an array, in order.
///
/// Trusted: stands for `JsonValue::members`, which walks the members of an
/// array in order and nothing for any other value. The members go by the
/// name [`json_members`].
#[verifier::external_body]
pub(crate) fn members<'a>(v: &'a json::JsonValue) -> (r: Vec<&'a json::JsonValue>)
    ensures
        r@.len() == json_members(*v).len(),
        forall|i: int| 0 <= i < r@.len() ==> *#[trigger] r@[i] == json_members(*v)[i],
{
    v.members().collect()
}

/// The string that a string value holds.
///
/// Trusted: stands for `JsonValue::as_str`, which returns the string of a
/// string value and `None` for any other value. The result goes by the name
/// [`json_str`].
#[verifier::external_body]
pub(crate) fn as_text<'a>(v: &'a json::JsonValue) -> (r: Option<&'a str>)
    ensures
        match r {
            Some(s) => json_str(*v) == Some(s@),
            None => json_str(*v) is None,
        },
{
    v.as_str()
}

/// The value as displayed.
///
/// Trusted: stands for `to_string` on a `JsonValue`, that is its `Display`:
/// the bare characters of a string value, and the JSON text of any other
/// (`null` for a null value). The result goes by the name [`json_text`].
#[verifier::external_body]
pub(crate) fn display(v: &json::JsonValue) -> (r: String)
    ensures
        r@ == json_text(*v),
{
    v.to_string()
}

/// The string under `key`, where a string stands there.
pub open spec fn json_field_str(v: json::JsonValue, key: Seq<char>) -> Option<Seq<char>> {
    json_str(json_member(v, key))
}

/// What stands under `key`, as displayed.
pub open spec fn json_field_text(v: json::JsonValue, key: Seq<char>) -> Seq<char> {
    json_text(json_member(v, key))
}

/// The text of an optional string.
pub open spec fn opt_text(o: Option<&str>) -> Option<Seq<char>> {
    match o {
        Some(s) => Some(s@),
        None => None,
    }
}

/// The string under `key`, where a string stands there.
pub fn field_str<'a>(v: &'a json::JsonValue, key: &str) -> (r: Option<&'a str>)
    ensures
        opt_text(r) == json_field_str(*v, key@),
{
    as_text(member(v, key))
}

/// What stands under `key`, as displayed.
pub fn field_text(v: &json::JsonValue, key: &str) -> (r: String)
    ensures
        r@ == json_field_text(*v, key@),
{
    display(member(v, key))
}

} // verus!
