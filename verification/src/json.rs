//! Reading output snapshots from a JSON document: an array of records, each
//! with identifying fields, enablement, modes and optional layout data.
//!
//! The document is parsed into a `serde_json::Value` behind trusted
//! wrappers; everything the records hold is then extracted, checked and
//! converted to plain values by verified code. The parse outcome is named
//! (`json_doc_of`): a ghost document model (`JsonV`) ties what the wrappers
//! hand out to the bytes that were parsed, so the extraction's contracts
//! state exactly which documents are accepted and what they yield. Refresh
//! rates and scales are decimal numbers in the document and are read into
//! hundredths, rounding half away from zero at the third decimal.

use vstd::prelude::*;
use crate::errors::GenerateError;
use crate::render::{
    generate_profile_from_outputs,
    spec_is_render_error_for,
    spec_render_profile,
};
use crate::snapshot::{
    spec_snaps_view,
    spec_sort_by_name,
    ModeSnapshot,
    OutputSnapshot,
    PositionSnapshot,
    SnapView,
};
use crate::text::{spec_idec, spec_trim, spec_udec, str_to_chars};

verus! {

#[verifier::external_type_specification]
#[verifier::external_body]
pub struct ExValue(serde_json::Value);

#[verifier::external_type_specification]
#[verifier::external_body]
pub struct ExNumber(serde_json::Number);

/// A mathematical JSON document, shaped as serde_json stores one: numbers
/// are non-negative integers, negative integers, or — for floats — the
/// shortest decimal text that reads back to the same value.
pub ghost enum JsonV {
    Null,
    Bool { b: bool },
    UInt { u: u64 },
    Int { i: i64 },
    Num { text: Seq<char> },
    Str { s: Seq<char> },
    Arr { elems: Seq<JsonV> },
    Obj { fields: Map<Seq<char>, JsonV> },
}

/// What parsing a byte sequence as JSON yields: the document, or nothing
/// when the bytes are not a valid document. A function of the bytes alone.
pub uninterp spec fn json_doc_of(raw: Seq<u8>) -> Option<JsonV>;

/// The document a parsed `serde_json::Value` holds.
pub uninterp spec fn json_value_of(v: serde_json::Value) -> JsonV;

/// The number a `serde_json::Number` holds, as one of the three number
/// forms of the document model.
pub uninterp spec fn json_number_of(n: serde_json::Number) -> JsonV;

/// Relies on serde_json::from_slice: parses bytes into a JSON document — a
/// function of the bytes alone — or describes why they are not valid JSON.
#[verifier::external_body]
fn json_from_slice(raw: &[u8]) -> (r: Result<serde_json::Value, String>)
    ensures
        match r {
            Ok(v) => json_doc_of(raw@) == Some(json_value_of(v)),
            Err(e) => json_doc_of(raw@) is None,
        },
{
    match serde_json::from_slice::<serde_json::Value>(raw) {
        Ok(v) => Ok(v),
        Err(e) => Err(e.to_string()),
    }
}

/// Relies on serde_json::Value::as_array and Vec::len: the number of
/// elements when the value is an array, nothing otherwise.
#[verifier::external_body]
fn json_array_len(v: &serde_json::Value) -> (r: Option<usize>)
    ensures
        match r {
            Some(n) => json_value_of(*v) matches JsonV::Arr { elems } && n as nat == elems.len(),
            None => !(json_value_of(*v) is Arr),
        },
{
    match v.as_array() {
        Some(a) => Some(a.len()),
        None => None,
    }
}

/// Relies on serde_json::Value::get with an index: the element of an
/// array, nothing for a position past its end or for a non-array.
#[verifier::external_body]
fn json_array_get<'a>(v: &'a serde_json::Value, i: usize) -> (r: Option<&'a serde_json::Value>)
    ensures
        match r {
            Some(el) => json_value_of(*v) matches JsonV::Arr { elems } && (i as int) < elems.len()
                && json_value_of(*el) == elems[i as int],
            None => json_value_of(*v) matches JsonV::Arr { elems } ==> i >= elems.len(),
        },
{
    v.get(i)
}

/// Relies on serde_json::Value::get with a key: the field of an object,
/// nothing for an absent key or a non-object.
#[verifier::external_body]
fn json_get_field<'a>(v: &'a serde_json::Value, key: &str) -> (r: Option<&'a serde_json::Value>)
    ensures
        match r {
            Some(el) => json_value_of(*v) matches JsonV::Obj { fields } && fields.dom().contains(
                key@,
            ) && json_value_of(*el) == fields[key@],
            None => json_value_of(*v) matches JsonV::Obj { fields } ==> !fields.dom().contains(
                key@,
            ),
        },
{
    v.get(key)
}

/// Relies on serde_json::Value::as_str: the owned text of a JSON string.
#[verifier::external_body]
fn json_as_string(v: &serde_json::Value) -> (r: Option<String>)
    ensures
        match r {
            Some(s) => json_value_of(*v) == (JsonV::Str { s: s@ }),
            None => !(json_value_of(*v) is Str),
        },
{
    match v.as_str() {
        Some(s) => Some(s.to_owned()),
        None => None,
    }
}

/// Relies on serde_json::Value::as_bool.
#[verifier::external_body]
fn json_as_bool(v: &serde_json::Value) -> (r: Option<bool>)
    ensures
        match r {
            Some(b) => json_value_of(*v) == (JsonV::Bool { b }),
            None => !(json_value_of(*v) is Bool),
        },
{
    v.as_bool()
}

/// Relies on serde_json::Value::as_i64: integral numbers that fit `i64`.
#[verifier::external_body]
fn json_as_i64(v: &serde_json::Value) -> (r: Option<i64>)
    ensures
        match r {
            Some(x) => (json_value_of(*v) matches JsonV::UInt { u } && x as int == u as int) || (
            json_value_of(*v) matches JsonV::Int { i } && x == i),
            None => match json_value_of(*v) {
                JsonV::UInt { u } => u > 0x7fff_ffff_ffff_ffff,
                JsonV::Int { i } => false,
                _ => true,
            },
        },
{
    v.as_i64()
}

/// Relies on serde_json::Value::as_u64: non-negative integral numbers.
#[verifier::external_body]
fn json_as_u64(v: &serde_json::Value) -> (r: Option<u64>)
    ensures
        match r {
            Some(u) => json_value_of(*v) == (JsonV::UInt { u }),
            None => !(json_value_of(*v) is UInt),
        },
{
    v.as_u64()
}

/// Relies on serde_json::Value::is_null.
#[verifier::external_body]
fn json_is_null(v: &serde_json::Value) -> (r: bool)
    ensures
        r == (json_value_of(*v) is Null),
{
    v.is_null()
}

/// Relies on serde_json::Value::as_number: the number a numeric value
/// holds.
#[verifier::external_body]
fn json_as_number<'a>(v: &'a serde_json::Value) -> (r: Option<&'a serde_json::Number>)
    ensures
        match r {
            Some(n) => {
                &&& json_number_of(*n) == json_value_of(*v)
                &&& (json_value_of(*v) is UInt || json_value_of(*v) is Int || json_value_of(*v)
                    is Num)
            },
            None => !(json_value_of(*v) is UInt) && !(json_value_of(*v) is Int) && !(json_value_of(
                *v,
            ) is Num),
        },
{
    v.as_number()
}

/// Relies on serde_json::Number's display form: integers as plain decimal
/// digits (a leading minus for negative ones), finite floats as the
/// shortest decimal text that reads back to the same value.
#[verifier::external_body]
fn json_number_text(n: &serde_json::Number) -> (r: String)
    ensures
        match json_number_of(*n) {
            JsonV::UInt { u } => r@ == crate::text::spec_udec(u as int),
            JsonV::Int { i } => r@ == crate::text::spec_idec(i as int),
            JsonV::Num { text } => r@ == text,
            _ => r@ == r@,
        },
{
    n.to_string()
}

// ---------------------------------------------------------------------------
// Decimal text to hundredths
// ---------------------------------------------------------------------------

pub open spec fn spec_is_digit(c: char) -> bool {
    '0' <= c && c <= '9'
}

pub open spec fn spec_digit_val(c: char) -> int {
    c as int - 48
}

/// The value of the digits in `[i, j)` read as a decimal numeral.
pub open spec fn spec_digits_val(s: Seq<char>, i: int, j: int) -> int
    decreases j - i,
    when 0 <= i <= j <= s.len()
{
    if j <= i {
        0
    } else {
        spec_digits_val(s, i, j - 1) * 10 + spec_digit_val(s[j - 1])
    }
}

pub open spec fn spec_all_digits(s: Seq<char>, i: int, j: int) -> bool {
    forall|k: int| i <= k < j ==> spec_is_digit(s[k])
}

/// The position of the first `.` at or after `i`, or the length.
pub open spec fn spec_dot_pos(s: Seq<char>, i: int) -> int
    decreases s.len() - i,
    when 0 <= i <= s.len()
{
    if i >= s.len() {
        s.len() as int
    } else if s[i] == '.' {
        i
    } else {
        spec_dot_pos(s, i + 1)
    }
}

pub open spec fn spec_pow10(k: nat) -> int
    decreases k,
{
    if k == 0 {
        1
    } else {
        10 * spec_pow10((k - 1) as nat)
    }
}

/// Reading a plain decimal numeral (an optional sign, digits, an optional
/// dot and more digits — no exponent) into hundredths, rounding half away
/// from zero at the third decimal; numerals with over fifteen integer
/// digits are not read.
pub open spec fn spec_parse_centi(s: Seq<char>) -> Option<int> {
    let neg = s.len() > 0 && s[0] == '-';
    let p: int = if neg {
        1
    } else {
        0
    };
    let dot = spec_dot_pos(s, p);
    if p >= dot || !spec_all_digits(s, p, dot) || dot - p > 15 {
        None
    } else {
        let ip = spec_digits_val(s, p, dot);
        if dot == s.len() {
            Some(
                if neg {
                    -(ip * 100)
                } else {
                    ip * 100
                },
            )
        } else if dot + 1 >= s.len() || !spec_all_digits(s, dot + 1, s.len() as int) {
            None
        } else {
            let f1 = spec_digit_val(s[dot + 1]);
            let f2 = if dot + 2 < s.len() {
                spec_digit_val(s[dot + 2])
            } else {
                0
            };
            let f3 = if dot + 3 < s.len() {
                spec_digit_val(s[dot + 3])
            } else {
                0
            };
            let mag = ip * 100 + f1 * 10 + f2 + (if f3 >= 5 {
                1int
            } else {
                0int
            });
            Some(
                if neg {
                    -mag
                } else {
                    mag
                },
            )
        }
    }
}

proof fn lemma_digits_val_bound(s: Seq<char>, i: int, j: int)
    requires
        0 <= i <= j <= s.len(),
        spec_all_digits(s, i, j),
    ensures
        0 <= spec_digits_val(s, i, j) < spec_pow10((j - i) as nat),
    decreases j - i,
{
    if j > i {
        lemma_digits_val_bound(s, i, j - 1);
        assert(spec_is_digit(s[j - 1]));
        assert(0 <= spec_digit_val(s[j - 1]) <= 9);
    }
}

/// Reads a plain decimal numeral into hundredths.
pub fn parse_centi_chars(v: &Vec<char>) -> (r: Option<i64>)
    ensures
        match spec_parse_centi(v@) {
            Some(c) => r matches Some(x) && x as int == c,
            None => r is None,
        },
{
    let ghost s = v@;
    let len: usize = v.len();
    let neg = len > 0 && v[0] == '-';
    let p: usize = if neg {
        1
    } else {
        0
    };
    let mut dot: usize = p;
    while dot < len && v[dot] != '.'
        invariant
            p <= dot <= len,
            len == v.len(),
            s == v@,
            spec_dot_pos(s, p as int) == spec_dot_pos(s, dot as int),
        decreases len - dot,
    {
        proof {
            assert(spec_dot_pos(s, dot as int) == spec_dot_pos(s, dot as int + 1));
        }
        dot = dot + 1;
    }
    assert(spec_dot_pos(s, p as int) == dot as int);
    if dot == p || dot - p > 15 {
        return None;
    }
    proof {
        reveal_with_fuel(spec_pow10, 17);
    }
    let mut i: usize = p;
    let mut ip: i64 = 0;
    while i < dot
        invariant
            p <= i <= dot <= len,
            p < dot,
            dot - p <= 15,
            len == v.len(),
            s == v@,
            p as int == (if s.len() > 0 && s[0] == '-' {
                1int
            } else {
                0int
            }),
            spec_dot_pos(s, p as int) == dot as int,
            spec_all_digits(s, p as int, i as int),
            ip as int == spec_digits_val(s, p as int, i as int),
            0 <= ip,
            (ip as int) < spec_pow10((i - p) as nat),
            spec_pow10(15) == 1000000000000000,
        decreases dot - i,
    {
        let c = v[i];
        if !('0' <= c && c <= '9') {
            proof {
                assert(!spec_all_digits(s, p as int, dot as int)) by {
                    if spec_all_digits(s, p as int, dot as int) {
                        assert(spec_is_digit(s[i as int]));
                    }
                }
            }
            return None;
        }
        let d: i64 = (c as u32 - 48) as i64;
        proof {
            lemma_digits_val_bound(s, p as int, i as int);
            assert(spec_pow10((i - p) as nat) <= spec_pow10(14)) by {
                lemma_pow10_le((i - p) as nat, 14);
            }
        }
        ip = ip * 10 + d;
        i = i + 1;
        assert(spec_digits_val(s, p as int, i as int) == spec_digits_val(
            s,
            p as int,
            i as int - 1,
        ) * 10 + spec_digit_val(s[i as int - 1]));
    }
    if dot == len {
        let mag: i64 = ip * 100;
        proof {
            lemma_pow10_le((dot - p) as nat, 15);
        }
        if neg {
            return Some(-mag);
        }
        return Some(mag);
    }
    // fractional digits
    let fstart: usize = dot + 1;
    if fstart >= len {
        return None;
    }
    let mut k: usize = fstart;
    while k < len
        invariant
            fstart <= k <= len,
            len == v.len(),
            s == v@,
            p as int == (if s.len() > 0 && s[0] == '-' {
                1int
            } else {
                0int
            }),
            spec_dot_pos(s, p as int) == dot as int,
            p < dot,
            dot - p <= 15,
            spec_all_digits(s, p as int, dot as int),
            fstart == dot + 1,
            fstart < len,
            spec_all_digits(s, fstart as int, k as int),
        decreases len - k,
    {
        let c = v[k];
        if !('0' <= c && c <= '9') {
            proof {
                assert(!spec_all_digits(s, fstart as int, len as int)) by {
                    if spec_all_digits(s, fstart as int, len as int) {
                        assert(spec_is_digit(s[k as int]));
                    }
                }
            }
            return None;
        }
        k = k + 1;
    }
    proof {
        lemma_pow10_le((dot - p) as nat, 15);
    }
    let f1: i64 = (v[fstart] as u32 - 48) as i64;
    let f2: i64 = if fstart + 1 < len {
        (v[fstart + 1] as u32 - 48) as i64
    } else {
        0
    };
    let f3: i64 = if fstart + 2 < len {
        (v[fstart + 2] as u32 - 48) as i64
    } else {
        0
    };
    assert(0 <= f1 <= 9 && 0 <= f2 <= 9);
    let mut mag: i64 = ip * 100 + f1 * 10 + f2;
    if f3 >= 5 {
        mag = mag + 1;
    }
    if neg {
        Some(-mag)
    } else {
        Some(mag)
    }
}

proof fn lemma_pow10_pos(k: nat)
    ensures
        spec_pow10(k) >= 1,
    decreases k,
{
    if k > 0 {
        lemma_pow10_pos((k - 1) as nat);
    }
}

proof fn lemma_pow10_le(a: nat, b: nat)
    requires
        a <= b,
    ensures
        spec_pow10(a) <= spec_pow10(b),
        spec_pow10(a) >= 1,
    decreases b,
{
    lemma_pow10_pos(a);
    if a < b {
        lemma_pow10_le(a, (b - 1) as nat);
        assert(spec_pow10(b) == 10 * spec_pow10((b - 1) as nat));
        lemma_pow10_pos((b - 1) as nat);
    }
}

// ---------------------------------------------------------------------------
// What the records of a document mean
// ---------------------------------------------------------------------------

/// The field of a record, when the record is an object carrying the key.
pub open spec fn spec_field(doc: JsonV, key: Seq<char>) -> Option<JsonV> {
    match doc {
        JsonV::Obj { fields } => if fields.dom().contains(key) {
            Some(fields[key])
        } else {
            None
        },
        _ => None,
    }
}

/// The integer a document value holds, when it is integral and fits `i64`.
pub open spec fn spec_doc_i64(doc: JsonV) -> Option<int> {
    match doc {
        JsonV::UInt { u } => if u <= 0x7fff_ffff_ffff_ffff {
            Some(u as int)
        } else {
            None
        },
        JsonV::Int { i } => Some(i as int),
        _ => None,
    }
}

/// The decimal text a number value displays as.
pub open spec fn spec_number_display(doc: JsonV) -> Seq<char> {
    match doc {
        JsonV::UInt { u } => spec_udec(u as int),
        JsonV::Int { i } => spec_idec(i as int),
        JsonV::Num { text } => text,
        _ => Seq::empty(),
    }
}

/// Reading a numeric value into hundredths: it must be a number whose
/// decimal text reads as a plain numeral.
pub open spec fn spec_value_centi(doc: JsonV) -> Result<int, Seq<char>> {
    if !(doc is UInt || doc is Int || doc is Num) {
        Err("a numeric field does not hold a number"@)
    } else {
        match spec_parse_centi(spec_number_display(doc)) {
            Some(c) => Ok(c),
            None => Err("a numeric field holds an unsupported value"@),
        }
    }
}

/// A required string field.
pub open spec fn spec_req_string(
    doc: JsonV,
    key: Seq<char>,
    missing: Seq<char>,
    wrong: Seq<char>,
) -> Result<Seq<char>, Seq<char>> {
    match spec_field(doc, key) {
        None => Err(missing),
        Some(x) => match x {
            JsonV::Str { s } => Ok(s),
            _ => Err(wrong),
        },
    }
}

/// A string field that defaults to empty when absent.
pub open spec fn spec_default_string(doc: JsonV, key: Seq<char>, wrong: Seq<char>) -> Result<
    Seq<char>,
    Seq<char>,
> {
    match spec_field(doc, key) {
        None => Ok(Seq::empty()),
        Some(x) => match x {
            JsonV::Str { s } => Ok(s),
            _ => Err(wrong),
        },
    }
}

/// A string field that may be absent or null.
pub open spec fn spec_opt_string(doc: JsonV, key: Seq<char>, wrong: Seq<char>) -> Result<
    Option<Seq<char>>,
    Seq<char>,
> {
    match spec_field(doc, key) {
        None => Ok(None),
        Some(x) => if x is Null {
            Ok(None)
        } else {
            match x {
                JsonV::Str { s } => Ok(Some(s)),
                _ => Err(wrong),
            }
        },
    }
}

/// A required boolean field.
pub open spec fn spec_req_bool(
    doc: JsonV,
    key: Seq<char>,
    missing: Seq<char>,
    wrong: Seq<char>,
) -> Result<bool, Seq<char>> {
    match spec_field(doc, key) {
        None => Err(missing),
        Some(x) => match x {
            JsonV::Bool { b } => Ok(b),
            _ => Err(wrong),
        },
    }
}

/// The validated mode a mode record holds, or why it is rejected.
pub open spec fn spec_mode_of(doc: JsonV) -> Result<ModeSnapshot, Seq<char>> {
    match spec_field(doc, "width"@) {
        None => Err("mode record is missing field `width`"@),
        Some(wv) => match wv {
            JsonV::UInt { u: w } => if w > 0xffff_ffff {
                Err("mode field `width` is out of range"@)
            } else {
                match spec_field(doc, "height"@) {
                    None => Err("mode record is missing field `height`"@),
                    Some(hv) => match hv {
                        JsonV::UInt { u: h } => if h > 0xffff_ffff {
                            Err("mode field `height` is out of range"@)
                        } else {
                            match spec_field(doc, "refresh"@) {
                                None => Err("mode record is missing field `refresh`"@),
                                Some(rv) => match spec_value_centi(rv) {
                                    Err(d) => Err(d),
                                    Ok(c) => match spec_req_bool(
                                        doc,
                                        "preferred"@,
                                        "mode record is missing field `preferred`"@,
                                        "mode field `preferred` must be a boolean"@,
                                    ) {
                                        Err(d) => Err(d),
                                        Ok(preferred) => match spec_req_bool(
                                            doc,
                                            "current"@,
                                            "mode record is missing field `current`"@,
                                            "mode field `current` must be a boolean"@,
                                        ) {
                                            Err(d) => Err(d),
                                            Ok(current) => Ok(
                                                ModeSnapshot {
                                                    width: w as u32,
                                                    height: h as u32,
                                                    refresh_centihz: c as i64,
                                                    preferred,
                                                    current,
                                                },
                                            ),
                                        },
                                    },
                                },
                            }
                        },
                        _ => Err("mode field `height` must be an unsigned integer"@),
                    },
                }
            },
            _ => Err("mode field `width` must be an unsigned integer"@),
        },
    }
}

/// The validated position a position record holds, or why it is rejected.
pub open spec fn spec_position_of(doc: JsonV) -> Result<PositionSnapshot, Seq<char>> {
    match spec_field(doc, "x"@) {
        None => Err("position record is missing field `x`"@),
        Some(xv) => match spec_doc_i64(xv) {
            None => Err("position field `x` must be an integer"@),
            Some(x) => if x < -0x8000_0000 || x > 0x7fff_ffff {
                Err("position field `x` is out of range"@)
            } else {
                match spec_field(doc, "y"@) {
                    None => Err("position record is missing field `y`"@),
                    Some(yv) => match spec_doc_i64(yv) {
                        None => Err("position field `y` must be an integer"@),
                        Some(y) => if y < -0x8000_0000 || y > 0x7fff_ffff {
                            Err("position field `y` is out of range"@)
                        } else {
                            Ok(PositionSnapshot { x: x as i32, y: y as i32 })
                        },
                    },
                }
            },
        },
    }
}

/// The validated modes of the records from `k` on, or the first rejection.
pub open spec fn spec_modes_of(elems: Seq<JsonV>, k: int) -> Result<Seq<ModeSnapshot>, Seq<char>>
    decreases elems.len() - k,
    when 0 <= k <= elems.len()
{
    if k >= elems.len() {
        Ok(Seq::empty())
    } else {
        match spec_mode_of(elems[k]) {
            Err(d) => Err(d),
            Ok(m) => match spec_modes_of(elems, k + 1) {
                Ok(rest) => Ok(seq![m] + rest),
                Err(d) => Err(d),
            },
        }
    }
}

/// A `modes` value: it must be an array of valid mode records.
pub open spec fn spec_modes_value(x: JsonV) -> Result<Seq<ModeSnapshot>, Seq<char>> {
    match x {
        JsonV::Arr { elems } => spec_modes_of(elems, 0),
        _ => Err("output field `modes` must be an array"@),
    }
}

/// The `modes` field: absent reads as no modes; present it must be an
/// array of valid mode records.
pub open spec fn spec_modes_field(doc: JsonV) -> Result<Seq<ModeSnapshot>, Seq<char>> {
    match spec_field(doc, "modes"@) {
        None => Ok(Seq::empty()),
        Some(x) => spec_modes_value(x),
    }
}

/// The `position` field: absent or null reads as nothing.
pub open spec fn spec_position_field(doc: JsonV) -> Result<Option<PositionSnapshot>, Seq<char>> {
    match spec_field(doc, "position"@) {
        None => Ok(None),
        Some(x) => if x is Null {
            Ok(None)
        } else {
            match spec_position_of(x) {
                Ok(p) => Ok(Some(p)),
                Err(d) => Err(d),
            }
        },
    }
}

/// The `scale` field: absent or null reads as nothing.
pub open spec fn spec_scale_field(doc: JsonV) -> Result<Option<i64>, Seq<char>> {
    match spec_field(doc, "scale"@) {
        None => Ok(None),
        Some(x) => if x is Null {
            Ok(None)
        } else {
            match spec_value_centi(x) {
                Ok(c) => Ok(Some(c as i64)),
                Err(d) => Err(d),
            }
        },
    }
}

/// The validated snapshot an output record holds, or why it is rejected;
/// the fields are examined in a fixed order and the first issue wins.
pub open spec fn spec_snapshot_of(doc: JsonV) -> Result<SnapView, Seq<char>> {
    match spec_req_string(
        doc,
        "name"@,
        "output record is missing field `name`"@,
        "output field `name` must be a string"@,
    ) {
        Err(d) => Err(d),
        Ok(name) => match spec_default_string(doc, "make"@, "output field `make` must be a string"@) {
            Err(d) => Err(d),
            Ok(make) => match spec_default_string(
                doc,
                "model"@,
                "output field `model` must be a string"@,
            ) {
                Err(d) => Err(d),
                Ok(model) => match spec_opt_string(
                    doc,
                    "serial"@,
                    "output field `serial` must be a string or null"@,
                ) {
                    Err(d) => Err(d),
                    Ok(serial) => match spec_req_bool(
                        doc,
                        "enabled"@,
                        "output record is missing field `enabled`"@,
                        "output field `enabled` must be a boolean"@,
                    ) {
                        Err(d) => Err(d),
                        Ok(enabled) => match spec_modes_field(doc) {
                            Err(d) => Err(d),
                            Ok(modes) => match spec_position_field(doc) {
                                Err(d) => Err(d),
                                Ok(position) => match spec_scale_field(doc) {
                                    Err(d) => Err(d),
                                    Ok(scale_centi) => match spec_opt_string(
                                        doc,
                                        "transform"@,
                                        "output field `transform` must be a string or null"@,
                                    ) {
                                        Err(d) => Err(d),
                                        Ok(transform) => Ok(
                                            SnapView {
                                                name,
                                                make,
                                                model,
                                                serial,
                                                enabled,
                                                modes,
                                                position,
                                                scale_centi,
                                                transform,
                                            },
                                        ),
                                    },
                                },
                            },
                        },
                    },
                },
            },
        },
    }
}

/// The snapshots of the records from `i` on, or the first rejection.
pub open spec fn spec_records_of(elems: Seq<JsonV>, i: int) -> Result<Seq<SnapView>, Seq<char>>
    decreases elems.len() - i,
    when 0 <= i <= elems.len()
{
    if i >= elems.len() {
        Ok(Seq::empty())
    } else {
        match spec_snapshot_of(elems[i]) {
            Err(d) => Err(d),
            Ok(sv) => match spec_records_of(elems, i + 1) {
                Ok(rest) => Ok(seq![sv] + rest),
                Err(d) => Err(d),
            },
        }
    }
}

/// What the whole output-state document describes: an array of output
/// records, each validated, or why the document is rejected.
pub open spec fn spec_outputs_of(doc: JsonV) -> Result<Seq<SnapView>, Seq<char>> {
    match doc {
        JsonV::Arr { elems } => spec_records_of(elems, 0),
        _ => Err("expected a JSON array of output records"@),
    }
}

// ---------------------------------------------------------------------------
// Record extraction
// ---------------------------------------------------------------------------

fn parse_json_detail(detail: &str) -> (r: GenerateError)
    ensures
        r matches GenerateError::ParseJson { details } && details@ == detail@,
{
    GenerateError::ParseJson { details: detail.to_owned() }
}

/// Reads the number held by `v` into hundredths.
fn value_centi(v: &serde_json::Value) -> (r: Result<i64, GenerateError>)
    ensures
        match spec_value_centi(json_value_of(*v)) {
            Ok(c) => r matches Ok(x) && x as int == c,
            Err(d) => r matches Err(GenerateError::ParseJson { details }) && details@ == d,
        },
{
    match json_as_number(v) {
        Some(n) => {
            let text = json_number_text(n);
            let chars = str_to_chars(text.as_str());
            assert(chars@ == spec_number_display(json_value_of(*v)));
            match parse_centi_chars(&chars) {
                Some(c) => Ok(c),
                None => Err(parse_json_detail("a numeric field holds an unsupported value")),
            }
        },
        None => Err(parse_json_detail("a numeric field does not hold a number")),
    }
}

/// Reads one mode record: width, height, refresh, preferred and current.
fn mode_from_value(v: &serde_json::Value) -> (r: Result<ModeSnapshot, GenerateError>)
    ensures
        match spec_mode_of(json_value_of(*v)) {
            Ok(m) => r matches Ok(x) && x == m,
            Err(d) => r matches Err(GenerateError::ParseJson { details }) && details@ == d,
        },
{
    let width_u64 = match json_get_field(v, "width") {
        Some(x) => match json_as_u64(x) {
            Some(w) => w,
            None => {
                return Err(parse_json_detail("mode field `width` must be an unsigned integer"));
            },
        },
        None => {
            return Err(parse_json_detail("mode record is missing field `width`"));
        },
    };
    if width_u64 > 0xffff_ffff {
        return Err(parse_json_detail("mode field `width` is out of range"));
    }
    let height_u64 = match json_get_field(v, "height") {
        Some(x) => match json_as_u64(x) {
            Some(h) => h,
            None => {
                return Err(parse_json_detail("mode field `height` must be an unsigned integer"));
            },
        },
        None => {
            return Err(parse_json_detail("mode record is missing field `height`"));
        },
    };
    if height_u64 > 0xffff_ffff {
        return Err(parse_json_detail("mode field `height` is out of range"));
    }
    let refresh_centihz = match json_get_field(v, "refresh") {
        Some(x) => match value_centi(x) {
            Ok(c) => c,
            Err(e) => {
                return Err(e);
            },
        },
        None => {
            return Err(parse_json_detail("mode record is missing field `refresh`"));
        },
    };
    let preferred = match json_get_field(v, "preferred") {
        Some(x) => match json_as_bool(x) {
            Some(b) => b,
            None => {
                return Err(parse_json_detail("mode field `preferred` must be a boolean"));
            },
        },
        None => {
            return Err(parse_json_detail("mode record is missing field `preferred`"));
        },
    };
    let current = match json_get_field(v, "current") {
        Some(x) => match json_as_bool(x) {
            Some(b) => b,
            None => {
                return Err(parse_json_detail("mode field `current` must be a boolean"));
            },
        },
        None => {
            return Err(parse_json_detail("mode record is missing field `current`"));
        },
    };
    Ok(
        ModeSnapshot {
            width: width_u64 as u32,
            height: height_u64 as u32,
            refresh_centihz,
            preferred,
            current,
        },
    )
}

/// Reads a position record: integral `x` and `y`.
fn position_from_value(v: &serde_json::Value) -> (r: Result<PositionSnapshot, GenerateError>)
    ensures
        match spec_position_of(json_value_of(*v)) {
            Ok(p) => r matches Ok(x) && x == p,
            Err(d) => r matches Err(GenerateError::ParseJson { details }) && details@ == d,
        },
{
    let x_i64 = match json_get_field(v, "x") {
        Some(x) => match json_as_i64(x) {
            Some(n) => n,
            None => {
                return Err(parse_json_detail("position field `x` must be an integer"));
            },
        },
        None => {
            return Err(parse_json_detail("position record is missing field `x`"));
        },
    };
    if x_i64 < -0x8000_0000 || x_i64 > 0x7fff_ffff {
        return Err(parse_json_detail("position field `x` is out of range"));
    }
    let y_i64 = match json_get_field(v, "y") {
        Some(x) => match json_as_i64(x) {
            Some(n) => n,
            None => {
                return Err(parse_json_detail("position field `y` must be an integer"));
            },
        },
        None => {
            return Err(parse_json_detail("position record is missing field `y`"));
        },
    };
    if y_i64 < -0x8000_0000 || y_i64 > 0x7fff_ffff {
        return Err(parse_json_detail("position field `y` is out of range"));
    }
    Ok(PositionSnapshot { x: x_i64 as i32, y: y_i64 as i32 })
}

/// Reads a string field that may be absent or null.
fn optional_string_field(v: &serde_json::Value, key: &str, what: &str) -> (r: Result<
    Option<String>,
    GenerateError,
>)
    ensures
        match spec_opt_string(json_value_of(*v), key@, what@) {
            Ok(os) => r matches Ok(ro) && (match ro {
                Some(t) => os matches Some(sv) && t@ == sv,
                None => os is None,
            }),
            Err(d) => r matches Err(GenerateError::ParseJson { details }) && details@ == d,
        },
{
    match json_get_field(v, key) {
        None => Ok(None),
        Some(x) => {
            if json_is_null(x) {
                Ok(None)
            } else {
                match json_as_string(x) {
                    Some(s) => Ok(Some(s)),
                    None => Err(parse_json_detail(what)),
                }
            }
        },
    }
}

/// Reads a `modes` array: each element one valid mode record.
fn modes_from_array(x: &serde_json::Value) -> (r: Result<Vec<ModeSnapshot>, GenerateError>)
    ensures
        match spec_modes_value(json_value_of(*x)) {
            Ok(ms) => r matches Ok(out) && out@ == ms,
            Err(d) => r matches Err(GenerateError::ParseJson { details }) && details@ == d,
        },
{
    let n = match json_array_len(x) {
        Some(n) => n,
        None => {
            return Err(parse_json_detail("output field `modes` must be an array"));
        },
    };
    let ghost elems = json_value_of(*x)->Arr_elems;
    let mut modes: Vec<ModeSnapshot> = Vec::new();
    let mut i: usize = 0;
    while i < n
        invariant
            0 <= i <= n,
            json_value_of(*x) == (JsonV::Arr { elems }),
            n as nat == elems.len(),
            spec_modes_of(elems, i as int) matches Ok(rest) ==> (spec_modes_of(elems, 0)
                matches Ok(whole) && whole == modes@ + rest),
            spec_modes_of(elems, i as int) matches Err(d) ==> spec_modes_of(elems, 0)
                == spec_modes_of(elems, i as int),
        decreases n - i,
    {
        let ghost oi = i as int;
        match json_array_get(x, i) {
            Some(el) => {
                assert(json_value_of(*el) == elems[oi]);
                match mode_from_value(el) {
                    Ok(m) => {
                        modes.push(m);
                    },
                    Err(e) => {
                        proof {
                            assert(spec_modes_of(elems, oi) is Err);
                        }
                        return Err(e);
                    },
                }
            },
            None => {
                proof {
                    assert(false);
                }
                return Err(parse_json_detail("output field `modes` must be an array"));
            },
        }
        i = i + 1;
        proof {
            match spec_modes_of(elems, i as int) {
                Ok(rest) => {
                    assert(spec_modes_of(elems, oi) matches Ok(w) && w == seq![
                        spec_mode_of(elems[oi])->Ok_0,
                    ] + rest);
                    match spec_modes_of(elems, 0) {
                        Ok(whole) => {
                            assert(whole =~= modes@ + rest);
                        },
                        Err(_) => {},
                    }
                },
                Err(_) => {},
            }
        }
    }
    proof {
        assert(spec_modes_of(elems, n as int) == Ok::<Seq<ModeSnapshot>, Seq<char>>(Seq::empty()));
        match spec_modes_of(elems, 0) {
            Ok(whole) => {
                assert(whole =~= modes@);
            },
            Err(_) => {
                assert(false);
            },
        }
    }
    Ok(modes)
}

/// Reads one output record.
fn snapshot_from_value(v: &serde_json::Value) -> (r: Result<OutputSnapshot, GenerateError>)
    ensures
        match spec_snapshot_of(json_value_of(*v)) {
            Ok(sv) => r matches Ok(o) && o@ == sv,
            Err(d) => r matches Err(GenerateError::ParseJson { details }) && details@ == d,
        },
{
    let ghost doc = json_value_of(*v);
    let name = match json_get_field(v, "name") {
        Some(x) => match json_as_string(x) {
            Some(s) => s,
            None => {
                return Err(parse_json_detail("output field `name` must be a string"));
            },
        },
        None => {
            return Err(parse_json_detail("output record is missing field `name`"));
        },
    };
    let make = match json_get_field(v, "make") {
        None => String::new(),
        Some(x) => match json_as_string(x) {
            Some(s) => s,
            None => {
                return Err(parse_json_detail("output field `make` must be a string"));
            },
        },
    };
    let model = match json_get_field(v, "model") {
        None => String::new(),
        Some(x) => match json_as_string(x) {
            Some(s) => s,
            None => {
                return Err(parse_json_detail("output field `model` must be a string"));
            },
        },
    };
    let serial = match optional_string_field(v, "serial", "output field `serial` must be a string or null") {
        Ok(s) => s,
        Err(e) => {
            return Err(e);
        },
    };
    let enabled = match json_get_field(v, "enabled") {
        Some(x) => match json_as_bool(x) {
            Some(b) => b,
            None => {
                return Err(parse_json_detail("output field `enabled` must be a boolean"));
            },
        },
        None => {
            return Err(parse_json_detail("output record is missing field `enabled`"));
        },
    };
    let modes: Vec<ModeSnapshot> = match json_get_field(v, "modes") {
        None => Vec::new(),
        Some(x) => match modes_from_array(x) {
            Ok(m) => m,
            Err(e) => {
                return Err(e);
            },
        },
    };
    assert(spec_modes_field(doc) == Ok::<Seq<ModeSnapshot>, Seq<char>>(modes@));
    let position = match json_get_field(v, "position") {
        None => None,
        Some(x) => {
            if json_is_null(x) {
                None
            } else {
                match position_from_value(x) {
                    Ok(p) => Some(p),
                    Err(e) => {
                        return Err(e);
                    },
                }
            }
        },
    };
    let scale_centi = match json_get_field(v, "scale") {
        None => None,
        Some(x) => {
            if json_is_null(x) {
                None
            } else {
                match value_centi(x) {
                    Ok(c) => Some(c),
                    Err(e) => {
                        return Err(e);
                    },
                }
            }
        },
    };
    let transform = match optional_string_field(
        v,
        "transform",
        "output field `transform` must be a string or null",
    ) {
        Ok(t) => t,
        Err(e) => {
            return Err(e);
        },
    };
    let out = OutputSnapshot {
        name,
        make,
        model,
        serial,
        enabled,
        modes,
        position,
        scale_centi,
        transform,
    };
    proof {
        assert(out@ == spec_snapshot_of(doc)->Ok_0);
    }
    Ok(out)
}

/// Reads the whole output-state document: a JSON array of output records.
/// The parse outcome is a function of the bytes; the document either reads
/// as a sequence of validated snapshots, exactly as returned, or the first
/// issue is reported as a `ParseJson` error.
pub fn collect_outputs_from_json(raw_json: &[u8]) -> (r: Result<Vec<OutputSnapshot>, GenerateError>)
    ensures
        match json_doc_of(raw_json@) {
            None => r matches Err(GenerateError::ParseJson { details }),
            Some(doc) => match spec_outputs_of(doc) {
                Ok(svs) => r matches Ok(outs) && spec_snaps_view(outs@) == svs,
                Err(d) => r matches Err(GenerateError::ParseJson { details }) && details@ == d,
            },
        },
{
    let document = match json_from_slice(raw_json) {
        Ok(v) => v,
        Err(details) => {
            return Err(GenerateError::ParseJson { details });
        },
    };
    let ghost doc = json_value_of(document);
    let n = match json_array_len(&document) {
        Some(n) => n,
        None => {
            return Err(parse_json_detail("expected a JSON array of output records"));
        },
    };
    let ghost elems = doc->Arr_elems;
    let mut outputs: Vec<OutputSnapshot> = Vec::new();
    let mut i: usize = 0;
    while i < n
        invariant
            0 <= i <= n,
            doc == json_value_of(document),
            doc == (JsonV::Arr { elems }),
            n as nat == elems.len(),
            json_doc_of(raw_json@) == Some(doc),
            spec_records_of(elems, i as int) matches Ok(rest) ==> (spec_records_of(elems, 0)
                matches Ok(whole) && whole == spec_snaps_view(outputs@) + rest),
            spec_records_of(elems, i as int) matches Err(d) ==> spec_records_of(elems, 0)
                == spec_records_of(elems, i as int),
        decreases n - i,
    {
        let ghost oi = i as int;
        match json_array_get(&document, i) {
            Some(el) => {
                assert(json_value_of(*el) == elems[oi]);
                match snapshot_from_value(el) {
                    Ok(o) => {
                        let ghost old_outputs = outputs@;
                        outputs.push(o);
                        proof {
                            assert(spec_snaps_view(outputs@) =~= spec_snaps_view(old_outputs).push(
                                o@,
                            ));
                        }
                    },
                    Err(e) => {
                        proof {
                            assert(spec_records_of(elems, oi) is Err);
                        }
                        return Err(e);
                    },
                }
            },
            None => {
                proof {
                    assert(false);
                }
                return Err(parse_json_detail("expected a JSON array of output records"));
            },
        }
        i = i + 1;
        proof {
            match spec_records_of(elems, i as int) {
                Ok(rest) => {
                    assert(spec_records_of(elems, oi) matches Ok(w) && w == seq![
                        spec_snapshot_of(elems[oi])->Ok_0,
                    ] + rest);
                    match spec_records_of(elems, 0) {
                        Ok(whole) => {
                            assert(whole =~= spec_snaps_view(outputs@) + rest);
                        },
                        Err(_) => {},
                    }
                },
                Err(_) => {},
            }
        }
    }
    proof {
        assert(spec_records_of(elems, n as int) == Ok::<Seq<SnapView>, Seq<char>>(Seq::empty()));
        match spec_records_of(elems, 0) {
            Ok(whole) => {
                assert(whole =~= spec_snaps_view(outputs@));
            },
            Err(_) => {
                assert(false);
            },
        }
    }
    Ok(outputs)
}

/// Renders the profile block named `profile_name` for the output records
/// of a JSON document: the result is exactly the rendering, in ascending
/// name order, of the snapshots the document describes, or the first
/// failure — an unreadable document, a blank name, or an enabled output
/// lacking required data.
pub fn generate_profile_from_slice(profile_name: &str, raw_json: &[u8]) -> (r: Result<
    String,
    GenerateError,
>)
    ensures
        match json_doc_of(raw_json@) {
            None => r matches Err(GenerateError::ParseJson { details }),
            Some(doc) => match spec_outputs_of(doc) {
                Err(d) => r matches Err(GenerateError::ParseJson { details }) && details@ == d,
                Ok(svs) => {
                    &&& spec_trim(profile_name@).len() == 0 ==> (r matches Err(
                        GenerateError::EmptyProfileName,
                    ))
                    &&& spec_trim(profile_name@).len() > 0 ==> (match spec_render_profile(
                        profile_name@,
                        spec_sort_by_name(svs),
                    ) {
                        Ok(t) => r matches Ok(out) && out@ == t,
                        Err(e) => r matches Err(err) && spec_is_render_error_for(err, e),
                    })
                },
            },
        },
{
    let outputs = match collect_outputs_from_json(raw_json) {
        Ok(o) => o,
        Err(e) => {
            return Err(e);
        },
    };
    generate_profile_from_outputs(profile_name, outputs.as_slice())
}

} // verus!
