//! A verified parser for the claims object of an identity token: a JSON
//! object whose known fields are `iss`, `sub` and `nonce` (strings), `exp`
//! (an integer) and `aud` (an array of strings); unknown fields of any JSON
//! shape are skipped. Each executable function mirrors a specification
//! function exactly, so the validator's contract pins the whole grammar.

use crate::hex::{hex_val, is_hex_digit};
use vstd::prelude::*;

verus! {

/// JSON insignificant whitespace.
pub open spec fn is_json_ws(b: u8) -> bool {
    b == 0x20 || b == 0x09 || b == 0x0a || b == 0x0d
}

/// ASCII decimal digit.
pub open spec fn is_digit(b: u8) -> bool {
    0x30 <= b && b <= 0x39
}

/// First index at or past `i` holding something other than whitespace.
pub open spec fn spec_skip_ws(s: Seq<u8>, i: int) -> int
    decreases s.len() - i,
{
    if 0 <= i < s.len() && is_json_ws(s[i]) {
        spec_skip_ws(s, i + 1)
    } else {
        i
    }
}

/// Advance past whitespace.
pub fn skip_ws(s: &Vec<u8>, i: usize) -> (r: usize)
    requires
        i <= s@.len(),
    ensures
        r == spec_skip_ws(s@, i as int),
        i <= r <= s@.len(),
{
    let mut j: usize = i;
    while j < s.len() && (s[j] == 0x20 || s[j] == 0x09 || s[j] == 0x0a || s[j] == 0x0d)
        invariant
            i <= j <= s@.len(),
            spec_skip_ws(s@, i as int) == spec_skip_ws(s@, j as int),
        decreases s@.len() - j,
    {
        j = j + 1;
    }
    j
}

/// The UTF-8 encoding of one scalar value.
pub open spec fn spec_utf8_enc(v: u32) -> Seq<u8> {
    if v < 0x80 {
        seq![v as u8]
    } else if v < 0x800 {
        seq![(0xC0u32 | (v >> 6)) as u8, (0x80u32 | (v & 0x3F)) as u8]
    } else if v < 0x10000 {
        seq![
            (0xE0u32 | (v >> 12)) as u8,
            (0x80u32 | ((v >> 6) & 0x3F)) as u8,
            (0x80u32 | (v & 0x3F)) as u8,
        ]
    } else {
        seq![
            (0xF0u32 | (v >> 18)) as u8,
            (0x80u32 | ((v >> 12) & 0x3F)) as u8,
            (0x80u32 | ((v >> 6) & 0x3F)) as u8,
            (0x80u32 | (v & 0x3F)) as u8,
        ]
    }
}

/// Append the UTF-8 encoding of one scalar value.
pub fn push_utf8(out: &mut Vec<u8>, v: u32)
    ensures
        final(out)@ == old(out)@ + spec_utf8_enc(v),
{
    let ghost prev = out@;
    if v < 0x80 {
        out.push(v as u8);
    } else if v < 0x800 {
        out.push((0xC0u32 | (v >> 6)) as u8);
        out.push((0x80u32 | (v & 0x3F)) as u8);
    } else if v < 0x10000 {
        out.push((0xE0u32 | (v >> 12)) as u8);
        out.push((0x80u32 | ((v >> 6) & 0x3F)) as u8);
        out.push((0x80u32 | (v & 0x3F)) as u8);
    } else {
        out.push((0xF0u32 | (v >> 18)) as u8);
        out.push((0x80u32 | ((v >> 12) & 0x3F)) as u8);
        out.push((0x80u32 | ((v >> 6) & 0x3F)) as u8);
        out.push((0x80u32 | (v & 0x3F)) as u8);
    }
    proof {
        assert(out@ =~= prev + spec_utf8_enc(v));
    }
}

/// Four hexadecimal digits starting at `i`, as a value below 0x10000.
pub open spec fn spec_hex4(s: Seq<u8>, i: int) -> Option<u32> {
    if i + 4 <= s.len() && is_hex_digit(s[i]) && is_hex_digit(s[i + 1]) && is_hex_digit(s[i + 2])
        && is_hex_digit(s[i + 3]) {
        Some(
            ((hex_val(s[i]) as u32) << 12) | ((hex_val(s[i + 1]) as u32) << 8) | ((hex_val(
                s[i + 2],
            ) as u32) << 4) | (hex_val(s[i + 3]) as u32),
        )
    } else {
        None
    }
}

/// The byte of a single-character escape, if the character is one.
pub open spec fn spec_simple_escape(b: u8) -> Option<u8> {
    if b == 0x22 {
        Some(0x22u8)
    } else if b == 0x5c {
        Some(0x5cu8)
    } else if b == 0x2f {
        Some(0x2fu8)
    } else if b == 0x62 {
        Some(0x08u8)
    } else if b == 0x66 {
        Some(0x0cu8)
    } else if b == 0x6e {
        Some(0x0au8)
    } else if b == 0x72 {
        Some(0x0du8)
    } else if b == 0x74 {
        Some(0x09u8)
    } else {
        None
    }
}

/// Rest of a string literal from `i` (past the opening quote), with `acc`
/// holding what was read so far: the unescaped bytes and the index past the
/// closing quote.
pub open spec fn spec_string_body(s: Seq<u8>, i: int, acc: Seq<u8>) -> Option<(Seq<u8>, int)>
    decreases s.len() - i,
{
    if i < 0 || i >= s.len() {
        None
    } else if s[i] == 0x22 {
        Some((acc, i + 1))
    } else if s[i] == 0x5c {
        if i + 1 >= s.len() {
            None
        } else if spec_simple_escape(s[i + 1]) is Some {
            spec_string_body(s, i + 2, acc.push(spec_simple_escape(s[i + 1])->0))
        } else if s[i + 1] == 0x75 {
            match spec_hex4(s, i + 2) {
                None => None,
                Some(v) => if 0xD800 <= v && v <= 0xDBFF {
                    if i + 12 <= s.len() && s[i + 6] == 0x5c && s[i + 7] == 0x75 {
                        match spec_hex4(s, i + 8) {
                            None => None,
                            Some(w) => if 0xDC00 <= w && w <= 0xDFFF {
                                spec_string_body(
                                    s,
                                    i + 12,
                                    acc + spec_utf8_enc(
                                        (0x10000 + (v - 0xD800) * 0x400 + (w - 0xDC00)) as u32,
                                    ),
                                )
                            } else {
                                None
                            },
                        }
                    } else {
                        None
                    }
                } else if 0xDC00 <= v && v <= 0xDFFF {
                    None
                } else {
                    spec_string_body(s, i + 6, acc + spec_utf8_enc(v))
                },
            }
        } else {
            None
        }
    } else if s[i] < 0x20 {
        None
    } else {
        spec_string_body(s, i + 1, acc.push(s[i]))
    }
}

/// A string literal starting at `i`: its unescaped bytes and the index past
/// the closing quote.
pub open spec fn spec_parse_string(s: Seq<u8>, i: int) -> Option<(Seq<u8>, int)> {
    if 0 <= i < s.len() && s[i] == 0x22 {
        spec_string_body(s, i + 1, Seq::empty())
    } else {
        None
    }
}

/// A parsed string ends past where it starts and within the input.
pub proof fn lemma_string_body_bounds(s: Seq<u8>, i: int, acc: Seq<u8>)
    ensures
        spec_string_body(s, i, acc) matches Some(p) ==> i < p.1 <= s.len(),
    decreases s.len() - i,
{
    if 0 <= i < s.len() {
        if s[i] == 0x22 {
        } else if s[i] == 0x5c {
            if i + 1 < s.len() {
                if spec_simple_escape(s[i + 1]) is Some {
                    lemma_string_body_bounds(s, i + 2, acc.push(spec_simple_escape(s[i + 1])->0));
                } else if s[i + 1] == 0x75 {
                    match spec_hex4(s, i + 2) {
                        None => {},
                        Some(v) => {
                            if 0xD800 <= v && v <= 0xDBFF {
                                if i + 12 <= s.len() && s[i + 6] == 0x5c && s[i + 7] == 0x75 {
                                    match spec_hex4(s, i + 8) {
                                        None => {},
                                        Some(w) => {
                                            if 0xDC00 <= w && w <= 0xDFFF {
                                                lemma_string_body_bounds(
                                                    s,
                                                    i + 12,
                                                    acc + spec_utf8_enc(
                                                        (0x10000 + (v - 0xD800) * 0x400 + (w
                                                            - 0xDC00)) as u32,
                                                    ),
                                                );
                                            }
                                        },
                                    }
                                }
                            } else if !(0xDC00 <= v && v <= 0xDFFF) {
                                lemma_string_body_bounds(s, i + 6, acc + spec_utf8_enc(v));
                            }
                        },
                    }
                }
            }
        } else if s[i] >= 0x20 {
            lemma_string_body_bounds(s, i + 1, acc.push(s[i]));
        }
    }
}

/// Read a string literal starting at `i`.
pub fn parse_string(s: &Vec<u8>, i: usize) -> (r: Option<(Vec<u8>, usize)>)
    requires
        i <= s@.len(),
    ensures
        match r {
            Some(p) => spec_parse_string(s@, i as int) == Some((p.0@, p.1 as int)) && i < p.1
                <= s@.len(),
            None => spec_parse_string(s@, i as int) is None,
        },
{
    proof {
        lemma_string_body_bounds(s@, i as int + 1, Seq::empty());
    }
    if !(i < s.len() && s[i] == 0x22) {
        return None;
    }
    let mut out: Vec<u8> = Vec::new();
    let mut j: usize = i + 1;
    proof {
        assert(Seq::<u8>::empty() + out@ =~= out@);
    }
    loop
        invariant_except_break
            i + 1 <= j <= s@.len(),
            spec_string_body(s@, i as int + 1, Seq::empty()) == spec_string_body(
                s@,
                j as int,
                out@,
            ),
        ensures
            spec_string_body(s@, i as int + 1, Seq::<u8>::empty()) == Some((out@, j as int)),
            i < j <= s@.len(),
        decreases s@.len() - j,
    {
        if j >= s.len() {
            proof {
                assert(spec_string_body(s@, j as int, out@) is None);
            }
            return None;
        }
        let b = s[j];
        if b == 0x22 {
            j = j + 1;
            proof {
                lemma_string_body_bounds(s@, i as int + 1, Seq::empty());
            }
            break;
        } else if b == 0x5c {
            if j + 1 >= s.len() {
                return None;
            }
            let e = s[j + 1];
            let esc: Option<u8> = if e == 0x22 {
                Some(0x22)
            } else if e == 0x5c {
                Some(0x5c)
            } else if e == 0x2f {
                Some(0x2f)
            } else if e == 0x62 {
                Some(0x08)
            } else if e == 0x66 {
                Some(0x0c)
            } else if e == 0x6e {
                Some(0x0a)
            } else if e == 0x72 {
                Some(0x0d)
            } else if e == 0x74 {
                Some(0x09)
            } else {
                None
            };
            proof {
                assert(esc == spec_simple_escape(e));
            }
            match esc {
                Some(raw) => {
                    out.push(raw);
                    j = j + 2;
                },
                None => {
                    if e != 0x75 {
                        return None;
                    }
                    let v = match hex4(s, j + 2) {
                        Some(v) => v,
                        None => {
                            return None;
                        },
                    };
                    if 0xD800 <= v && v <= 0xDBFF {
                        if !(s.len() - j >= 12 && s[j + 6] == 0x5c && s[j + 7] == 0x75) {
                            return None;
                        }
                        let w = match hex4(s, j + 8) {
                            Some(w) => w,
                            None => {
                                return None;
                            },
                        };
                        if !(0xDC00 <= w && w <= 0xDFFF) {
                            return None;
                        }
                        push_utf8(&mut out, 0x10000 + (v - 0xD800) * 0x400 + (w - 0xDC00));
                        j = j + 12;
                    } else if 0xDC00 <= v && v <= 0xDFFF {
                        return None;
                    } else {
                        push_utf8(&mut out, v);
                        j = j + 6;
                    }
                },
            }
        } else if b < 0x20 {
            return None;
        } else {
            out.push(b);
            j = j + 1;
        }
    }
    Some((out, j))
}

/// Read four hexadecimal digits starting at `i`.
pub fn hex4(s: &Vec<u8>, i: usize) -> (r: Option<u32>)
    ensures
        r == spec_hex4(s@, i as int),
{
    if s.len() < 4 || i > s.len() - 4 {
        return None;
    }
    let b0 = s[i];
    let b1 = s[i + 1];
    let b2 = s[i + 2];
    let b3 = s[i + 3];
    let d0 = hex_digit_val(b0);
    let d1 = hex_digit_val(b1);
    let d2 = hex_digit_val(b2);
    let d3 = hex_digit_val(b3);
    match (d0, d1, d2, d3) {
        (Some(a), Some(b), Some(c), Some(d)) => Some(
            ((a as u32) << 12) | ((b as u32) << 8) | ((c as u32) << 4) | (d as u32),
        ),
        _ => None,
    }
}

/// Numeric value of one hexadecimal digit byte, if it is one.
pub fn hex_digit_val(b: u8) -> (r: Option<u8>)
    ensures
        r is Some <==> is_hex_digit(b),
        r matches Some(v) ==> v == hex_val(b),
{
    if 0x30 <= b && b <= 0x39 {
        Some(b - 0x30)
    } else if 0x61 <= b && b <= 0x66 {
        Some(b - 0x61 + 10)
    } else if 0x41 <= b && b <= 0x46 {
        Some(b - 0x41 + 10)
    } else {
        None
    }
}

/// `j`, but never below `lo`.
pub open spec fn at_least(j: int, lo: int) -> int {
    if j < lo {
        lo
    } else {
        j
    }
}

/// Whitespace skipped and clamped: never before `lo` nor past the end.
pub open spec fn spec_ws_from(s: Seq<u8>, lo: int) -> int {
    let w = spec_skip_ws(s, lo);
    if w < lo {
        lo
    } else if w > s.len() {
        s.len() as int
    } else {
        w
    }
}

/// Digits read onto a non-positive accumulator: the value when every digit
/// fits an `i64`, with the index past the digits; `None` past the range.
pub open spec fn spec_int_digits(s: Seq<u8>, i: int, acc: i64) -> Option<(i64, int)>
    recommends
        acc <= 0,
    decreases s.len() - i,
{
    if 0 <= i < s.len() && is_digit(s[i]) {
        let d = (s[i] - 0x30) as int;
        if acc * 10 - d < i64::MIN {
            None
        } else {
            spec_int_digits(s, i + 1, (acc * 10 - d) as i64)
        }
    } else {
        Some((acc, i))
    }
}

/// An integer literal at `i` in JSON number syntax, rejected when a leading
/// zero, a fraction, an exponent or an `i64` overflow shows up: exactly the
/// numbers an integer claim accepts.
pub open spec fn spec_parse_int(s: Seq<u8>, i: int) -> Option<(i64, int)> {
    let neg = 0 <= i < s.len() && s[i] == 0x2d;
    let j = if neg {
        i + 1
    } else {
        i
    };
    if !(0 <= j < s.len() && is_digit(s[j])) {
        None
    } else if s[j] == 0x30 && j + 1 < s.len() && is_digit(s[j + 1]) {
        None
    } else {
        match spec_int_digits(s, j, 0) {
            None => None,
            Some((acc, end)) => {
                if end < s.len() && (s[end] == 0x2e || s[end] == 0x65 || s[end] == 0x45) {
                    None
                } else if neg {
                    Some((acc, end))
                } else if acc == i64::MIN {
                    None
                } else {
                    Some(((0 - acc) as i64, end))
                }
            },
        }
    }
}

/// Reading digits never moves backwards nor past the end, and keeps the
/// accumulator non-positive.
pub proof fn lemma_int_digits_bounds(s: Seq<u8>, i: int, acc: i64)
    requires
        0 <= i <= s.len(),
        acc <= 0,
    ensures
        spec_int_digits(s, i, acc) matches Some(p) ==> i <= p.1 <= s.len() && p.0 <= 0,
    decreases s.len() - i,
{
    if i < s.len() && is_digit(s[i]) {
        let d = (s[i] - 0x30) as int;
        if !(acc * 10 - d < i64::MIN) {
            lemma_int_digits_bounds(s, i + 1, (acc * 10 - d) as i64);
        }
    }
}

/// Skipping digits never moves backwards nor past the end.
pub proof fn lemma_skip_digits_bounds(s: Seq<u8>, i: int)
    requires
        0 <= i <= s.len(),
    ensures
        i <= spec_skip_digits(s, i) <= s.len(),
    decreases s.len() - i,
{
    if i < s.len() && is_digit(s[i]) {
        lemma_skip_digits_bounds(s, i + 1);
    }
}

/// Read digits onto a non-positive accumulator.
pub fn int_digits(s: &Vec<u8>, i: usize) -> (r: Option<(i64, usize)>)
    requires
        i <= s@.len(),
    ensures
        match r {
            Some(p) => spec_int_digits(s@, i as int, 0) == Some((p.0, p.1 as int)) && i <= p.1
                <= s@.len() && p.0 <= 0,
            None => spec_int_digits(s@, i as int, 0) is None,
        },
{
    let mut acc: i64 = 0;
    let mut j: usize = i;
    loop
        invariant_except_break
            i <= j <= s@.len(),
            acc <= 0,
            spec_int_digits(s@, i as int, 0) == spec_int_digits(s@, j as int, acc),
        ensures
            i <= j <= s@.len(),
            acc <= 0,
            spec_int_digits(s@, i as int, 0) == Some((acc, j as int)),
        decreases s@.len() - j,
    {
        if !(j < s.len() && 0x30 <= s[j] && s[j] <= 0x39) {
            break;
        }
        let d: i64 = (s[j] - 0x30) as i64;
        let t: i128 = acc as i128 * 10 - d as i128;
        if t < i64::MIN as i128 {
            return None;
        }
        acc = t as i64;
        j = j + 1;
    }
    Some((acc, j))
}

/// Read an integer literal at `i`.
pub fn parse_int(s: &Vec<u8>, i: usize) -> (r: Option<(i64, usize)>)
    requires
        i <= s@.len(),
    ensures
        match r {
            Some(p) => spec_parse_int(s@, i as int) == Some((p.0, p.1 as int)) && i < p.1
                <= s@.len(),
            None => spec_parse_int(s@, i as int) is None,
        },
{
    let neg = i < s.len() && s[i] == 0x2d;
    let j0: usize = if neg {
        i + 1
    } else {
        i
    };
    if !(j0 < s.len() && 0x30 <= s[j0] && s[j0] <= 0x39) {
        return None;
    }
    if s[j0] == 0x30 && j0 + 1 < s.len() && 0x30 <= s[j0 + 1] && s[j0 + 1] <= 0x39 {
        return None;
    }
    let (acc, end) = match int_digits(s, j0) {
        Some(p) => p,
        None => {
            return None;
        },
    };
    proof {
        let d = (s@[j0 as int] - 0x30) as int;
        assert(is_digit(s@[j0 as int]));
        assert(spec_int_digits(s@, j0 as int, 0) == spec_int_digits(
            s@,
            j0 as int + 1,
            (0 - d) as i64,
        ));
        lemma_int_digits_bounds(s@, j0 as int + 1, (0 - d) as i64);
        assert(end > j0);
    }
    if end < s.len() && (s[end] == 0x2e || s[end] == 0x65 || s[end] == 0x45) {
        return None;
    }
    if neg {
        Some((acc, end))
    } else if acc == i64::MIN {
        return None;
    } else {
        Some((0 - acc, end))
    }
}

/// First index at or past `i` that holds no digit.
pub open spec fn spec_skip_digits(s: Seq<u8>, i: int) -> int
    decreases s.len() - i,
{
    if 0 <= i < s.len() && is_digit(s[i]) {
        spec_skip_digits(s, i + 1)
    } else {
        i
    }
}

/// Advance past digits.
pub fn skip_digits(s: &Vec<u8>, i: usize) -> (r: usize)
    requires
        i <= s@.len(),
    ensures
        r == spec_skip_digits(s@, i as int),
        i <= r <= s@.len(),
{
    let mut j: usize = i;
    while j < s.len() && 0x30 <= s[j] && s[j] <= 0x39
        invariant
            i <= j <= s@.len(),
            spec_skip_digits(s@, i as int) == spec_skip_digits(s@, j as int),
        decreases s@.len() - j,
    {
        j = j + 1;
    }
    j
}

/// Extent of a number literal at `i`, by the full JSON grammar: optional
/// sign, integer part, optional fraction and exponent. Only its end matters:
/// numbers inside unknown fields are skipped, never evaluated, so no
/// floating-point value is ever formed.
pub open spec fn spec_skip_number(s: Seq<u8>, i: int) -> Option<int> {
    let j = if 0 <= i < s.len() && s[i] == 0x2d {
        i + 1
    } else {
        i
    };
    if !(0 <= j < s.len() && is_digit(s[j])) {
        None
    } else if s[j] == 0x30 && j + 1 < s.len() && is_digit(s[j + 1]) {
        None
    } else {
        let k = spec_skip_digits(s, j);
        let k1 = if k < s.len() && s[k] == 0x2e {
            if k + 1 < s.len() && is_digit(s[k + 1]) {
                spec_skip_digits(s, k + 1)
            } else {
                -1
            }
        } else {
            k
        };
        if k1 < 0 {
            None
        } else {
            let k2 = if k1 < s.len() && (s[k1] == 0x65 || s[k1] == 0x45) {
                let k15 = if k1 + 1 < s.len() && (s[k1 + 1] == 0x2b || s[k1 + 1] == 0x2d) {
                    k1 + 2
                } else {
                    k1 + 1
                };
                if k15 < s.len() && is_digit(s[k15]) {
                    spec_skip_digits(s, k15)
                } else {
                    -1
                }
            } else {
                k1
            };
            if k2 < 0 {
                None
            } else {
                Some(k2)
            }
        }
    }
}

/// Advance past a number literal at `i`.
pub fn skip_number(s: &Vec<u8>, i: usize) -> (r: Option<usize>)
    requires
        i <= s@.len(),
    ensures
        match r {
            Some(j) => spec_skip_number(s@, i as int) == Some(j as int) && i < j <= s@.len(),
            None => spec_skip_number(s@, i as int) is None,
        },
{
    let j: usize = if i < s.len() && s[i] == 0x2d {
        i + 1
    } else {
        i
    };
    if !(j < s.len() && 0x30 <= s[j] && s[j] <= 0x39) {
        return None;
    }
    if s[j] == 0x30 && j + 1 < s.len() && 0x30 <= s[j + 1] && s[j + 1] <= 0x39 {
        return None;
    }
    let k = skip_digits(s, j);
    proof {
        assert(is_digit(s@[j as int]));
        assert(spec_skip_digits(s@, j as int) == spec_skip_digits(s@, j as int + 1));
        lemma_skip_digits_bounds(s@, j as int + 1);
        assert(k > j);
    }
    let k1: usize = if k < s.len() && s[k] == 0x2e {
        if k + 1 < s.len() && 0x30 <= s[k + 1] && s[k + 1] <= 0x39 {
            skip_digits(s, k + 1)
        } else {
            return None;
        }
    } else {
        k
    };
    let k2: usize = if k1 < s.len() && (s[k1] == 0x65 || s[k1] == 0x45) {
        let k15: usize = if k1 + 1 < s.len() && (s[k1 + 1] == 0x2b || s[k1 + 1] == 0x2d) {
            k1 + 2
        } else {
            k1 + 1
        };
        if k15 < s.len() && 0x30 <= s[k15] && s[k15] <= 0x39 {
            skip_digits(s, k15)
        } else {
            return None;
        }
    } else {
        k1
    };
    Some(k2)
}

/// End of the JSON value of whatever shape starting at `i`, or `None` when
/// no value stands there.
pub open spec fn spec_skip_value(s: Seq<u8>, i: int) -> Option<int>
    decreases s.len() - i, 0int,
{
    if !(0 <= i < s.len()) {
        None
    } else if s[i] == 0x22 {
        match spec_parse_string(s, i) {
            Some(p) => Some(p.1),
            None => None,
        }
    } else if s[i] == 0x7b {
        let w = spec_ws_from(s, i + 1);
        if w < s.len() && s[w] == 0x7d {
            Some(w + 1)
        } else {
            spec_skip_members(s, w)
        }
    } else if s[i] == 0x5b {
        let w = spec_ws_from(s, i + 1);
        if w < s.len() && s[w] == 0x5d {
            Some(w + 1)
        } else {
            spec_skip_items(s, w)
        }
    } else if s[i] == 0x74 {
        if i + 4 <= s.len() && s[i + 1] == 0x72 && s[i + 2] == 0x75 && s[i + 3] == 0x65 {
            Some(i + 4)
        } else {
            None
        }
    } else if s[i] == 0x66 {
        if i + 5 <= s.len() && s[i + 1] == 0x61 && s[i + 2] == 0x6c && s[i + 3] == 0x73 && s[i + 4]
            == 0x65 {
            Some(i + 5)
        } else {
            None
        }
    } else if s[i] == 0x6e {
        if i + 4 <= s.len() && s[i + 1] == 0x75 && s[i + 2] == 0x6c && s[i + 3] == 0x6c {
            Some(i + 4)
        } else {
            None
        }
    } else if s[i] == 0x2d || is_digit(s[i]) {
        spec_skip_number(s, i)
    } else {
        None
    }
}

/// End of an array's items from the first item at `i` to past the closing
/// bracket.
pub open spec fn spec_skip_items(s: Seq<u8>, i: int) -> Option<int>
    decreases s.len() - i, 1int,
{
    if !(0 <= i < s.len()) {
        None
    } else {
        match spec_skip_value(s, i) {
            None => None,
            Some(e) => {
                let e1 = at_least(e, i + 1);
                let w = spec_ws_from(s, e1);
                if w < s.len() && s[w] == 0x2c {
                    spec_skip_items(s, spec_ws_from(s, w + 1))
                } else if w < s.len() && s[w] == 0x5d {
                    Some(w + 1)
                } else {
                    None
                }
            },
        }
    }
}

/// End of an object's members from the first key at `i` to past the closing
/// brace.
pub open spec fn spec_skip_members(s: Seq<u8>, i: int) -> Option<int>
    decreases s.len() - i, 1int,
{
    if !(0 <= i < s.len()) {
        None
    } else {
        match spec_parse_string(s, i) {
            None => None,
            Some((_k, e)) => {
                let e1 = at_least(e, i + 1);
                let w = spec_ws_from(s, e1);
                if !(w < s.len() && s[w] == 0x3a) {
                    None
                } else {
                    let x = spec_ws_from(s, w + 1);
                    match spec_skip_value(s, x) {
                        None => None,
                        Some(e2) => {
                            let e3 = at_least(e2, x + 1);
                            let w2 = spec_ws_from(s, e3);
                            if w2 < s.len() && s[w2] == 0x2c {
                                spec_skip_members(s, spec_ws_from(s, w2 + 1))
                            } else if w2 < s.len() && s[w2] == 0x7d {
                                Some(w2 + 1)
                            } else {
                                None
                            }
                        },
                    }
                }
            },
        }
    }
}

/// Advance past the JSON value starting at `i`.
pub fn skip_value(s: &Vec<u8>, i: usize) -> (r: Option<usize>)
    requires
        i <= s@.len(),
    ensures
        match r {
            Some(j) => spec_skip_value(s@, i as int) == Some(j as int) && i < j <= s@.len(),
            None => spec_skip_value(s@, i as int) is None,
        },
    decreases s@.len() - i, 0int,
{
    if !(i < s.len()) {
        return None;
    }
    let b = s[i];
    if b == 0x22 {
        match parse_string(s, i) {
            Some(p) => Some(p.1),
            None => None,
        }
    } else if b == 0x7b {
        let w = skip_ws(s, i + 1);
        proof {
            assert(spec_ws_from(s@, i as int + 1) == w as int);
        }
        if w < s.len() && s[w] == 0x7d {
            Some(w + 1)
        } else {
            skip_members(s, w)
        }
    } else if b == 0x5b {
        let w = skip_ws(s, i + 1);
        proof {
            assert(spec_ws_from(s@, i as int + 1) == w as int);
        }
        if w < s.len() && s[w] == 0x5d {
            Some(w + 1)
        } else {
            skip_items(s, w)
        }
    } else if b == 0x74 {
        if s.len() - i >= 4 && s[i + 1] == 0x72 && s[i + 2] == 0x75 && s[i + 3] == 0x65 {
            Some(i + 4)
        } else {
            None
        }
    } else if b == 0x66 {
        if s.len() - i >= 5 && s[i + 1] == 0x61 && s[i + 2] == 0x6c && s[i + 3] == 0x73 && s[i + 4]
            == 0x65 {
            Some(i + 5)
        } else {
            None
        }
    } else if b == 0x6e {
        if s.len() - i >= 4 && s[i + 1] == 0x75 && s[i + 2] == 0x6c && s[i + 3] == 0x6c {
            Some(i + 4)
        } else {
            None
        }
    } else if b == 0x2d || (0x30 <= b && b <= 0x39) {
        skip_number(s, i)
    } else {
        None
    }
}

/// Advance past an array's items, from its first item to past the closing
/// bracket.
pub fn skip_items(s: &Vec<u8>, i: usize) -> (r: Option<usize>)
    requires
        i <= s@.len(),
    ensures
        match r {
            Some(j) => spec_skip_items(s@, i as int) == Some(j as int) && i < j <= s@.len(),
            None => spec_skip_items(s@, i as int) is None,
        },
    decreases s@.len() - i, 1int,
{
    let mut j: usize = i;
    loop
        invariant
            i <= j <= s@.len(),
            spec_skip_items(s@, i as int) == spec_skip_items(s@, j as int),
        decreases s@.len() - j,
    {
        if !(j < s.len()) {
            return None;
        }
        let e = match skip_value(s, j) {
            Some(e) => e,
            None => {
                return None;
            },
        };
        let w = skip_ws(s, e);
        proof {
            assert(at_least(e as int, j as int + 1) == e as int);
            assert(spec_ws_from(s@, e as int) == w as int);
        }
        if w < s.len() && s[w] == 0x2c {
            let x = skip_ws(s, w + 1);
            proof {
                assert(spec_ws_from(s@, w as int + 1) == x as int);
            }
            j = x;
        } else if w < s.len() && s[w] == 0x5d {
            return Some(w + 1);
        } else {
            return None;
        }
    }
}

/// Advance past an object's members, from its first key to past the closing
/// brace.
pub fn skip_members(s: &Vec<u8>, i: usize) -> (r: Option<usize>)
    requires
        i <= s@.len(),
    ensures
        match r {
            Some(j) => spec_skip_members(s@, i as int) == Some(j as int) && i < j <= s@.len(),
            None => spec_skip_members(s@, i as int) is None,
        },
    decreases s@.len() - i, 1int,
{
    let mut j: usize = i;
    loop
        invariant
            i <= j <= s@.len(),
            spec_skip_members(s@, i as int) == spec_skip_members(s@, j as int),
        decreases s@.len() - j,
    {
        if !(j < s.len()) {
            return None;
        }
        let e = match parse_string(s, j) {
            Some(p) => p.1,
            None => {
                return None;
            },
        };
        let w = skip_ws(s, e);
        proof {
            assert(at_least(e as int, j as int + 1) == e as int);
            assert(spec_ws_from(s@, e as int) == w as int);
        }
        if !(w < s.len() && s[w] == 0x3a) {
            return None;
        }
        let x = skip_ws(s, w + 1);
        proof {
            assert(spec_ws_from(s@, w as int + 1) == x as int);
        }
        let e2 = match skip_value(s, x) {
            Some(e2) => e2,
            None => {
                return None;
            },
        };
        let w2 = skip_ws(s, e2);
        proof {
            assert(at_least(e2 as int, x as int + 1) == e2 as int);
            assert(spec_ws_from(s@, e2 as int) == w2 as int);
        }
        if w2 < s.len() && s[w2] == 0x2c {
            let x2 = skip_ws(s, w2 + 1);
            proof {
                assert(spec_ws_from(s@, w2 as int + 1) == x2 as int);
            }
            j = x2;
        } else if w2 < s.len() && s[w2] == 0x7d {
            return Some(w2 + 1);
        } else {
            return None;
        }
    }
}

/// The bytes of the key `iss`.
pub open spec fn key_iss() -> Seq<u8> {
    seq![0x69u8, 0x73u8, 0x73u8]
}

/// The bytes of the key `sub`.
pub open spec fn key_sub() -> Seq<u8> {
    seq![0x73u8, 0x75u8, 0x62u8]
}

/// The bytes of the key `aud`.
pub open spec fn key_aud() -> Seq<u8> {
    seq![0x61u8, 0x75u8, 0x64u8]
}

/// The bytes of the key `exp`.
pub open spec fn key_exp() -> Seq<u8> {
    seq![0x65u8, 0x78u8, 0x70u8]
}

/// The bytes of the key `nonce`.
pub open spec fn key_nonce() -> Seq<u8> {
    seq![0x6eu8, 0x6fu8, 0x6eu8, 0x63u8, 0x65u8]
}

/// The claims a token must carry, each string as its UTF-8 bytes.
pub struct SpecClaims {
    /// Issuer.
    pub iss: Seq<u8>,
    /// Subject.
    pub sub: Seq<u8>,
    /// Audience entries.
    pub aud: Seq<Seq<u8>>,
    /// Expiry instant, epoch seconds.
    pub exp: i64,
    /// Replay-binding value.
    pub nonce: Seq<u8>,
}

/// Claims gathered so far while walking the object's members.
pub struct PartialClaims {
    /// Issuer, once seen.
    pub iss: Option<Seq<u8>>,
    /// Subject, once seen.
    pub sub: Option<Seq<u8>>,
    /// Audience, once seen.
    pub aud: Option<Seq<Seq<u8>>>,
    /// Expiry, once seen.
    pub exp: Option<i64>,
    /// Nonce, once seen.
    pub nonce: Option<Seq<u8>>,
}

/// No claim seen yet.
pub open spec fn empty_partial() -> PartialClaims {
    PartialClaims { iss: None, sub: None, aud: None, exp: None, nonce: None }
}

/// Audience items from the first string at `i`, with `acc` holding what was
/// read: the strings and the index past the closing bracket.
pub open spec fn spec_aud_items(s: Seq<u8>, i: int, acc: Seq<Seq<u8>>) -> Option<
    (Seq<Seq<u8>>, int),
>
    decreases s.len() - i,
{
    if !(0 <= i < s.len()) {
        None
    } else {
        match spec_parse_string(s, i) {
            None => None,
            Some((v, e0)) => {
                let e = at_least(e0, i + 1);
                let w = spec_ws_from(s, e);
                if w < s.len() && s[w] == 0x2c {
                    spec_aud_items(s, spec_ws_from(s, w + 1), acc.push(v))
                } else if w < s.len() && s[w] == 0x5d {
                    Some((acc.push(v), w + 1))
                } else {
                    None
                }
            },
        }
    }
}

/// An array of strings starting at `i`: the strings and the index past the
/// closing bracket.
pub open spec fn spec_parse_aud(s: Seq<u8>, i: int) -> Option<(Seq<Seq<u8>>, int)> {
    if 0 <= i < s.len() && s[i] == 0x5b {
        let w = spec_ws_from(s, i + 1);
        if w < s.len() && s[w] == 0x5d {
            Some((Seq::empty(), w + 1))
        } else {
            spec_aud_items(s, w, Seq::empty())
        }
    } else {
        None
    }
}

/// One member at `i` on top of the claims in `c`: the updated claims and
/// the clamped index past the member's value. A known key seen twice, or
/// carrying a value of the wrong shape, fails; an unknown key's value is
/// skipped whatever its shape.
pub open spec fn spec_member_step(s: Seq<u8>, i: int, c: PartialClaims) -> Option<
    (PartialClaims, int),
> {
    match spec_parse_string(s, i) {
        None => None,
        Some((k, e0)) => {
            let e = at_least(e0, i + 1);
            let w = spec_ws_from(s, e);
            if !(w < s.len() && s[w] == 0x3a) {
                None
            } else {
                let x = spec_ws_from(s, w + 1);
                let step: Option<(PartialClaims, int)> = if k == key_iss() {
                    if c.iss is Some {
                        None
                    } else {
                        match spec_parse_string(s, x) {
                            None => None,
                            Some((v, e2)) => Some((PartialClaims { iss: Some(v), ..c }, e2)),
                        }
                    }
                } else if k == key_sub() {
                    if c.sub is Some {
                        None
                    } else {
                        match spec_parse_string(s, x) {
                            None => None,
                            Some((v, e2)) => Some((PartialClaims { sub: Some(v), ..c }, e2)),
                        }
                    }
                } else if k == key_nonce() {
                    if c.nonce is Some {
                        None
                    } else {
                        match spec_parse_string(s, x) {
                            None => None,
                            Some((v, e2)) => Some((PartialClaims { nonce: Some(v), ..c }, e2)),
                        }
                    }
                } else if k == key_exp() {
                    if c.exp is Some {
                        None
                    } else {
                        match spec_parse_int(s, x) {
                            None => None,
                            Some((v, e2)) => Some((PartialClaims { exp: Some(v), ..c }, e2)),
                        }
                    }
                } else if k == key_aud() {
                    if c.aud is Some {
                        None
                    } else {
                        match spec_parse_aud(s, x) {
                            None => None,
                            Some((v, e2)) => Some((PartialClaims { aud: Some(v), ..c }, e2)),
                        }
                    }
                } else {
                    match spec_skip_value(s, x) {
                        None => None,
                        Some(e2) => Some((c, e2)),
                    }
                };
                match step {
                    None => None,
                    Some((c2, e2raw)) => Some((c2, at_least(e2raw, x + 1))),
                }
            }
        },
    }
}

/// The object's members from the first key at `i`, on top of the claims in
/// `c`: the gathered claims and the index past the closing brace.
pub open spec fn spec_members(s: Seq<u8>, i: int, c: PartialClaims) -> Option<(PartialClaims, int)>
    decreases s.len() - i,
{
    if !(0 <= i < s.len()) {
        None
    } else {
        match spec_member_step(s, i, c) {
            None => None,
            Some((c2, e2raw)) => {
                let e2 = at_least(e2raw, i + 1);
                let w2 = spec_ws_from(s, e2);
                if w2 < s.len() && s[w2] == 0x2c {
                    spec_members(s, spec_ws_from(s, w2 + 1), c2)
                } else if w2 < s.len() && s[w2] == 0x7d {
                    Some((c2, w2 + 1))
                } else {
                    None
                }
            },
        }
    }
}

/// After the object: only whitespace may remain, and every known claim must
/// have been seen.
pub open spec fn spec_finish(s: Seq<u8>, c: PartialClaims, e: int) -> Option<SpecClaims> {
    let f = spec_ws_from(s, at_least(e, 0));
    if f != s.len() {
        None
    } else {
        match (c.iss, c.sub, c.aud, c.exp, c.nonce) {
            (Some(iss), Some(sub), Some(aud), Some(exp), Some(nonce)) => Some(
                SpecClaims { iss, sub, aud, exp, nonce },
            ),
            _ => None,
        }
    }
}

/// The whole payload as a claims object: whitespace, one object holding all
/// of `iss`, `sub`, `aud`, `exp` and `nonce` exactly once plus arbitrary
/// unknown members, whitespace, end of input.
pub open spec fn spec_parse_claims(s: Seq<u8>) -> Option<SpecClaims> {
    let w = spec_ws_from(s, 0);
    if w < s.len() && s[w] == 0x7b {
        let x = spec_ws_from(s, w + 1);
        let m: Option<(PartialClaims, int)> = if x < s.len() && s[x] == 0x7d {
            Some((empty_partial(), x + 1))
        } else {
            spec_members(s, x, empty_partial())
        };
        match m {
            None => None,
            Some((c, e)) => spec_finish(s, c, e),
        }
    } else {
        None
    }
}

/// The claims of a token, as executable values.
pub struct RawClaims {
    /// Issuer bytes.
    pub iss: Vec<u8>,
    /// Subject bytes.
    pub sub: Vec<u8>,
    /// Audience entries.
    pub aud: Vec<Vec<u8>>,
    /// Expiry instant, epoch seconds.
    pub exp: i64,
    /// Nonce bytes.
    pub nonce: Vec<u8>,
}

/// The byte sequences a vector of byte vectors holds.
pub open spec fn aud_view(v: Seq<Vec<u8>>) -> Seq<Seq<u8>> {
    Seq::new(v.len(), |k: int| v[k]@)
}

/// The specification-level value of parsed claims.
pub open spec fn raw_claims_view(rc: RawClaims) -> SpecClaims {
    SpecClaims { iss: rc.iss@, sub: rc.sub@, aud: aud_view(rc.aud@), exp: rc.exp, nonce: rc.nonce@ }
}

/// The specification-level value of the claims gathered so far.
pub open spec fn partial_of(
    iss: Option<Vec<u8>>,
    sub: Option<Vec<u8>>,
    aud: Option<Vec<Vec<u8>>>,
    exp: Option<i64>,
    nonce: Option<Vec<u8>>,
) -> PartialClaims {
    PartialClaims {
        iss: match iss {
            Some(v) => Some(v@),
            None => None,
        },
        sub: match sub {
            Some(v) => Some(v@),
            None => None,
        },
        aud: match aud {
            Some(v) => Some(aud_view(v@)),
            None => None,
        },
        exp: exp,
        nonce: match nonce {
            Some(v) => Some(v@),
            None => None,
        },
    }
}

/// Does `k` hold exactly these three bytes?
pub fn is_key3(k: &Vec<u8>, a: u8, b: u8, c: u8) -> (r: bool)
    ensures
        r == (k@ == seq![a, b, c]),
{
    let r = k.len() == 3 && k[0] == a && k[1] == b && k[2] == c;
    proof {
        if r {
            assert(k@ =~= seq![a, b, c]);
        } else {
            if k@ == seq![a, b, c] {
                assert(k@.len() == 3);
                assert(k@[0] == a && k@[1] == b && k@[2] == c);
            }
        }
    }
    r
}

/// Does `k` hold exactly these five bytes?
pub fn is_key5(k: &Vec<u8>, a: u8, b: u8, c: u8, d: u8, e: u8) -> (r: bool)
    ensures
        r == (k@ == seq![a, b, c, d, e]),
{
    let r = k.len() == 5 && k[0] == a && k[1] == b && k[2] == c && k[3] == d && k[4] == e;
    proof {
        if r {
            assert(k@ =~= seq![a, b, c, d, e]);
        } else {
            if k@ == seq![a, b, c, d, e] {
                assert(k@.len() == 5);
                assert(k@[0] == a && k@[1] == b && k@[2] == c && k@[3] == d && k@[4] == e);
            }
        }
    }
    r
}

/// Read an array of strings starting at `i`.
pub fn parse_aud(s: &Vec<u8>, i: usize) -> (r: Option<(Vec<Vec<u8>>, usize)>)
    requires
        i <= s@.len(),
    ensures
        match r {
            Some(p) => spec_parse_aud(s@, i as int) == Some((aud_view(p.0@), p.1 as int)) && i
                < p.1 <= s@.len(),
            None => spec_parse_aud(s@, i as int) is None,
        },
{
    if !(i < s.len() && s[i] == 0x5b) {
        return None;
    }
    let w0 = skip_ws(s, i + 1);
    proof {
        assert(spec_ws_from(s@, i as int + 1) == w0 as int);
    }
    let mut out: Vec<Vec<u8>> = Vec::new();
    proof {
        assert(aud_view(out@) =~= Seq::<Seq<u8>>::empty());
    }
    if w0 < s.len() && s[w0] == 0x5d {
        proof {
            assert(aud_view(out@) =~= Seq::<Seq<u8>>::empty());
        }
        return Some((out, w0 + 1));
    }
    let mut j: usize = w0;
    loop
        invariant
            i < s@.len(),
            s@[i as int] == 0x5b,
            w0 == spec_ws_from(s@, i as int + 1),
            !(w0 < s@.len() && s@[w0 as int] == 0x5d),
            i < j <= s@.len(),
            spec_parse_aud(s@, i as int) == spec_aud_items(s@, j as int, aud_view(out@)),
        decreases s@.len() - j,
    {
        if !(j < s.len()) {
            return None;
        }
        let (v, e) = match parse_string(s, j) {
            Some(p) => p,
            None => {
                return None;
            },
        };
        let w = skip_ws(s, e);
        proof {
            assert(at_least(e as int, j as int + 1) == e as int);
            assert(spec_ws_from(s@, e as int) == w as int);
        }
        if w < s.len() && s[w] == 0x2c {
            let x = skip_ws(s, w + 1);
            proof {
                assert(spec_ws_from(s@, w as int + 1) == x as int);
                assert(aud_view(out@.push(v)) =~= aud_view(out@).push(v@));
            }
            out.push(v);
            j = x;
        } else if w < s.len() && s[w] == 0x5d {
            proof {
                assert(aud_view(out@.push(v)) =~= aud_view(out@).push(v@));
            }
            out.push(v);
            return Some((out, w + 1));
        } else {
            return None;
        }
    }
}

/// Read one member at `j` on top of the claims gathered so far, handing the
/// claims state through; the last component is the index past the member's
/// value, or `None` when the member is malformed.
pub fn member_step(
    s: &Vec<u8>,
    j: usize,
    iss: Option<Vec<u8>>,
    sub: Option<Vec<u8>>,
    aud: Option<Vec<Vec<u8>>>,
    exp: Option<i64>,
    nonce: Option<Vec<u8>>,
) -> (r: (Option<Vec<u8>>, Option<Vec<u8>>, Option<Vec<Vec<u8>>>, Option<i64>, Option<Vec<u8>>, Option<
    usize,
>))
    requires
        j <= s@.len(),
    ensures
        match r.5 {
            Some(e2) => spec_member_step(s@, j as int, partial_of(iss, sub, aud, exp, nonce))
                == Some((partial_of(r.0, r.1, r.2, r.3, r.4), e2 as int)) && j < e2 <= s@.len(),
            None => spec_member_step(s@, j as int, partial_of(iss, sub, aud, exp, nonce)) is None,
        },
{
    let mut iss = iss;
    let mut sub = sub;
    let mut aud = aud;
    let mut exp = exp;
    let mut nonce = nonce;
    let (k, e0) = match parse_string(s, j) {
        Some(p) => p,
        None => {
            return (iss, sub, aud, exp, nonce, None);
        },
    };
    let w = skip_ws(s, e0);
    proof {
        assert(at_least(e0 as int, j as int + 1) == e0 as int);
        assert(spec_ws_from(s@, e0 as int) == w as int);
    }
    if !(w < s.len() && s[w] == 0x3a) {
        return (iss, sub, aud, exp, nonce, None);
    }
    let x = skip_ws(s, w + 1);
    proof {
        assert(spec_ws_from(s@, w as int + 1) == x as int);
    }
    let e2: usize;
    if is_key3(&k, 0x69, 0x73, 0x73) {
        if iss.is_some() {
            return (iss, sub, aud, exp, nonce, None);
        }
        let (v, e) = match parse_string(s, x) {
            Some(p) => p,
            None => {
                return (iss, sub, aud, exp, nonce, None);
            },
        };
        iss = Some(v);
        e2 = e;
    } else if is_key3(&k, 0x73, 0x75, 0x62) {
        if sub.is_some() {
            return (iss, sub, aud, exp, nonce, None);
        }
        let (v, e) = match parse_string(s, x) {
            Some(p) => p,
            None => {
                return (iss, sub, aud, exp, nonce, None);
            },
        };
        sub = Some(v);
        e2 = e;
    } else if is_key5(&k, 0x6e, 0x6f, 0x6e, 0x63, 0x65) {
        if nonce.is_some() {
            return (iss, sub, aud, exp, nonce, None);
        }
        let (v, e) = match parse_string(s, x) {
            Some(p) => p,
            None => {
                return (iss, sub, aud, exp, nonce, None);
            },
        };
        nonce = Some(v);
        e2 = e;
    } else if is_key3(&k, 0x65, 0x78, 0x70) {
        if exp.is_some() {
            return (iss, sub, aud, exp, nonce, None);
        }
        let (v, e) = match parse_int(s, x) {
            Some(p) => p,
            None => {
                return (iss, sub, aud, exp, nonce, None);
            },
        };
        exp = Some(v);
        e2 = e;
    } else if is_key3(&k, 0x61, 0x75, 0x64) {
        if aud.is_some() {
            return (iss, sub, aud, exp, nonce, None);
        }
        let (v, e) = match parse_aud(s, x) {
            Some(p) => p,
            None => {
                return (iss, sub, aud, exp, nonce, None);
            },
        };
        aud = Some(v);
        e2 = e;
    } else {
        e2 = match skip_value(s, x) {
            Some(e) => e,
            None => {
                return (iss, sub, aud, exp, nonce, None);
            },
        };
    }
    proof {
        assert(at_least(e2 as int, x as int + 1) == e2 as int);
    }
    (iss, sub, aud, exp, nonce, Some(e2))
}

/// Parse a whole payload as a claims object.
#[verifier::rlimit(100)]
#[verifier::spinoff_prover]
pub fn parse_claims(s: &Vec<u8>) -> (r: Option<RawClaims>)
    ensures
        match r {
            Some(rc) => spec_parse_claims(s@) == Some(raw_claims_view(rc)),
            None => spec_parse_claims(s@) is None,
        },
{
    let w0 = skip_ws(s, 0);
    proof {
        assert(spec_ws_from(s@, 0) == w0 as int);
    }
    if !(w0 < s.len() && s[w0] == 0x7b) {
        return None;
    }
    let x0 = skip_ws(s, w0 + 1);
    proof {
        assert(spec_ws_from(s@, w0 as int + 1) == x0 as int);
    }
    let mut iss: Option<Vec<u8>> = None;
    let mut sub: Option<Vec<u8>> = None;
    let mut aud: Option<Vec<Vec<u8>>> = None;
    let mut exp: Option<i64> = None;
    let mut nonce: Option<Vec<u8>> = None;
    let mut end: usize = 0;
    let mut ok = true;
    if x0 < s.len() && s[x0] == 0x7d {
        end = x0 + 1;
    } else {
        let mut j: usize = x0;
        loop
            invariant_except_break
                ok,
                x0 <= j <= s@.len(),
                spec_members(s@, x0 as int, empty_partial()) == spec_members(
                    s@,
                    j as int,
                    partial_of(iss, sub, aud, exp, nonce),
                ),
            ensures
                ok ==> spec_members(s@, x0 as int, empty_partial()) == Some(
                    (partial_of(iss, sub, aud, exp, nonce), end as int),
                ) && end <= s@.len(),
                !ok ==> spec_members(s@, x0 as int, empty_partial()) is None,
            decreases s@.len() - j,
        {
            if !(j < s.len()) {
                ok = false;
                break;
            }
            let step = member_step(s, j, iss, sub, aud, exp, nonce);
            iss = step.0;
            sub = step.1;
            aud = step.2;
            exp = step.3;
            nonce = step.4;
            match step.5 {
                Some(e2) => {
                    let w2 = skip_ws(s, e2);
                    proof {
                        assert(at_least(e2 as int, j as int + 1) == e2 as int);
                        assert(spec_ws_from(s@, e2 as int) == w2 as int);
                    }
                    if w2 < s.len() && s[w2] == 0x2c {
                        let x2 = skip_ws(s, w2 + 1);
                        proof {
                            assert(spec_ws_from(s@, w2 as int + 1) == x2 as int);
                        }
                        j = x2;
                    } else if w2 < s.len() && s[w2] == 0x7d {
                        end = w2 + 1;
                        break;
                    } else {
                        ok = false;
                        break;
                    }
                },
                None => {
                    ok = false;
                    break;
                },
            }
        }
    }
    if !ok {
        return None;
    }
    let f = skip_ws(s, end);
    proof {
        assert(at_least(end as int, 0) == end as int);
        assert(spec_ws_from(s@, end as int) == f as int);
    }
    if f != s.len() {
        return None;
    }
    match (iss, sub, aud, exp, nonce) {
        (Some(iss_v), Some(sub_v), Some(aud_v), Some(exp_v), Some(nonce_v)) => {
            let rc = RawClaims { iss: iss_v, sub: sub_v, aud: aud_v, exp: exp_v, nonce: nonce_v };
            Some(rc)
        },
        _ => None,
    }
}

} // verus!
