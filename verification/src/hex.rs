//! Hexadecimal encoding and decoding of byte strings, as used for account
//! addresses and signatures.

use vstd::prelude::*;
use vstd::string::StringSliceAdditionalSpecFns;

verus! {

/// Why a hexadecimal string could not be decoded.
#[derive(Debug, Clone, Copy, PartialEq, Eq, Structural)]
pub enum HexError {
    /// A byte that is not a hexadecimal digit, as it stands in the input.
    InvalidCharacter(u8),
    /// The input (after an optional `0x` prefix) has odd length.
    InvalidStringLength(usize),
}

/// Is `b` the ASCII code of a hexadecimal digit?
pub open spec fn is_hex_digit(b: u8) -> bool {
    (0x30 <= b && b <= 0x39) || (0x61 <= b && b <= 0x66) || (0x41 <= b && b <= 0x46)
}

/// Numeric value of a hexadecimal digit.
pub open spec fn hex_val(b: u8) -> u8
    recommends
        is_hex_digit(b),
{
    if 0x30 <= b && b <= 0x39 {
        (b - 0x30) as u8
    } else if 0x61 <= b && b <= 0x66 {
        (b - 0x61 + 10) as u8
    } else {
        (b - 0x41 + 10) as u8
    }
}

/// Drop a leading `0x` or `0X`, if present.
pub open spec fn strip_hex_prefix(s: Seq<u8>) -> Seq<u8> {
    if s.len() >= 2 && s[0] == 0x30 && (s[1] == 0x78 || s[1] == 0x58) {
        s.skip(2)
    } else {
        s
    }
}

/// Decode an even-length digit string two digits at a time; the error carries
/// the first byte, in reading order, that is not a digit.
pub open spec fn hex_pairs(s: Seq<u8>) -> Result<Seq<u8>, HexError>
    recommends
        s.len() % 2 == 0,
    decreases s.len(),
{
    if s.len() < 2 {
        Ok(Seq::empty())
    } else if !is_hex_digit(s[0]) {
        Err(HexError::InvalidCharacter(s[0]))
    } else if !is_hex_digit(s[1]) {
        Err(HexError::InvalidCharacter(s[1]))
    } else {
        match hex_pairs(s.skip(2)) {
            Ok(rest) => Ok(seq![(hex_val(s[0]) * 16 + hex_val(s[1])) as u8] + rest),
            Err(e) => Err(e),
        }
    }
}

/// What decoding a hexadecimal byte string yields: the bytes it denotes, or
/// the first reason it is malformed.
pub open spec fn spec_hex_decode(s: Seq<u8>) -> Result<Seq<u8>, HexError> {
    let t = strip_hex_prefix(s);
    if t.len() % 2 != 0 {
        Err(HexError::InvalidStringLength(t.len() as usize))
    } else {
        hex_pairs(t)
    }
}

/// Decode a hexadecimal string (optionally `0x`-prefixed, digits of either
/// case) into the bytes it denotes.
pub fn hex_decode(s: &str) -> (r: Result<Vec<u8>, HexError>)
    ensures
        match r {
            Ok(v) => spec_hex_decode(s.spec_bytes()) == Ok::<Seq<u8>, HexError>(v@),
            Err(e) => spec_hex_decode(s.spec_bytes()) == Err::<Seq<u8>, HexError>(e),
        },
{
    let b = s.as_bytes();
    let t: &[u8] = if b.len() >= 2 && b[0] == 0x30 && (b[1] == 0x78 || b[1] == 0x58) {
        &b[2..b.len()]
    } else {
        b
    };
    proof {
        assert(t@ =~= strip_hex_prefix(s.spec_bytes()));
    }
    if t.len() % 2 != 0 {
        return Err(HexError::InvalidStringLength(t.len()));
    }
    let mut out: Vec<u8> = Vec::new();
    let mut i: usize = 0;
    proof {
        assert(t@.skip(0) =~= t@);
    }
    while i < t.len()
        invariant
            i % 2 == 0,
            i <= t@.len(),
            t@.len() % 2 == 0,
            t@ == strip_hex_prefix(s.spec_bytes()),
            hex_pairs(t@) == match hex_pairs(t@.skip(i as int)) {
                Ok(rest) => Ok::<Seq<u8>, HexError>(out@ + rest),
                Err(e) => Err::<Seq<u8>, HexError>(e),
            },
        decreases t@.len() - i,
    {
        proof {
            assert(i + 2 <= t@.len()) by {
                assert(i < t@.len());
                assert(i % 2 == 0 && t@.len() % 2 == 0);
                assert(i != t@.len() - 1) by {
                    if i == t@.len() - 1 {
                        assert((i + 1) % 2 == 1);
                    }
                };
            };
        }
        let hi = t[i];
        let lo = t[i + 1];
        let ghost suf = t@.skip(i as int);
        proof {
            assert(suf.len() >= 2);
            assert(suf[0] == t@[i as int]);
            assert(suf[1] == t@[i as int + 1]);
        }
        if !((0x30 <= hi && hi <= 0x39) || (0x61 <= hi && hi <= 0x66) || (0x41 <= hi && hi
            <= 0x46)) {
            proof {
                assert(!is_hex_digit(suf[0]));
                assert(hex_pairs(suf) == Err::<Seq<u8>, HexError>(HexError::InvalidCharacter(hi)));
            }
            return Err(HexError::InvalidCharacter(hi));
        }
        if !((0x30 <= lo && lo <= 0x39) || (0x61 <= lo && lo <= 0x66) || (0x41 <= lo && lo
            <= 0x46)) {
            proof {
                assert(is_hex_digit(suf[0]) && !is_hex_digit(suf[1]));
                assert(hex_pairs(suf) == Err::<Seq<u8>, HexError>(HexError::InvalidCharacter(lo)));
            }
            return Err(HexError::InvalidCharacter(lo));
        }
        let hv: u8 = if 0x30 <= hi && hi <= 0x39 {
            hi - 0x30
        } else if 0x61 <= hi && hi <= 0x66 {
            hi - 0x61 + 10
        } else {
            hi - 0x41 + 10
        };
        let lv: u8 = if 0x30 <= lo && lo <= 0x39 {
            lo - 0x30
        } else if 0x61 <= lo && lo <= 0x66 {
            lo - 0x61 + 10
        } else {
            lo - 0x41 + 10
        };
        proof {
            assert(hv == hex_val(suf[0]) && lv == hex_val(suf[1]));
        }
        let ghost prev_out = out@;
        out.push(hv * 16 + lv);
        proof {
            assert(suf.skip(2) =~= t@.skip(i as int + 2));
            assert(hex_pairs(suf) == match hex_pairs(suf.skip(2)) {
                Ok(rest) => Ok::<Seq<u8>, HexError>(seq![(hex_val(suf[0]) * 16 + hex_val(suf[1])) as u8] + rest),
                Err(e) => Err::<Seq<u8>, HexError>(e),
            });
            if hex_pairs(t@.skip(i as int + 2)) is Ok {
                let rest = hex_pairs(t@.skip(i as int + 2))->Ok_0;
                assert(prev_out + (seq![(hex_val(suf[0]) * 16 + hex_val(suf[1])) as u8] + rest)
                    =~= out@ + rest);
            }
        }
        i = i + 2;
    }
    proof {
        assert(t@.skip(i as int) =~= Seq::<u8>::empty());
        assert(hex_pairs(t@.skip(i as int)) == Ok::<Seq<u8>, HexError>(Seq::empty()));
        assert(out@ + Seq::<u8>::empty() =~= out@);
    }
    Ok(out)
}

/// ASCII code of the lower-case hexadecimal digit for a value below 16.
pub open spec fn hex_char_code(v: u8) -> u8
    recommends
        v < 16,
{
    if v < 10 {
        (v + 0x30) as u8
    } else {
        (v + 0x57) as u8
    }
}

/// Lower-case, unprefixed hexadecimal rendering of a byte string: two digits
/// for each byte, high digit first.
pub open spec fn spec_to_lower_hex(data: Seq<u8>) -> Seq<char>
    decreases data.len(),
{
    if data.len() == 0 {
        Seq::empty()
    } else {
        seq![
            hex_char_code((data.first() / 16) as u8) as char,
            hex_char_code((data.first() % 16) as u8) as char,
        ] + spec_to_lower_hex(data.drop_first())
    }
}

/// Render bytes as a lower-case hexadecimal string without a prefix.
pub fn to_lower_hex(bytes: &[u8]) -> (r: String)
    ensures
        r@ == spec_to_lower_hex(bytes@),
        r@.len() == 2 * bytes@.len(),
{
    proof {
        lemma_to_lower_hex_len(bytes@);
    }
    let mut r = String::new();
    let mut i: usize = 0;
    proof {
        assert(bytes@.skip(0) =~= bytes@);
    }
    while i < bytes.len()
        invariant
            i <= bytes@.len(),
            spec_to_lower_hex(bytes@) =~= r@ + spec_to_lower_hex(bytes@.skip(i as int)),
            r@.len() == 2 * i,
        decreases bytes@.len() - i,
    {
        let b = bytes[i];
        let hi: u8 = b / 16;
        let lo: u8 = b % 16;
        let hc: u8 = if hi < 10 {
            hi + 0x30
        } else {
            hi + 0x57
        };
        let lc: u8 = if lo < 10 {
            lo + 0x30
        } else {
            lo + 0x57
        };
        crate::text::push_char(&mut r, hc as char);
        crate::text::push_char(&mut r, lc as char);
        proof {
            let suf = bytes@.skip(i as int);
            assert(suf.first() == bytes@[i as int]);
            assert(suf.drop_first() =~= bytes@.skip(i as int + 1));
        }
        i = i + 1;
    }
    proof {
        assert(bytes@.skip(i as int) =~= Seq::<u8>::empty());
        assert(r@ + Seq::<char>::empty() =~= r@);
    }
    r
}

/// The hexadecimal rendering of a byte string has twice its length.
pub proof fn lemma_to_lower_hex_len(data: Seq<u8>)
    ensures
        spec_to_lower_hex(data).len() == 2 * data.len(),
    decreases data.len(),
{
    if data.len() > 0 {
        lemma_to_lower_hex_len(data.drop_first());
    }
}

/// Every character the hexadecimal rendering emits is an ASCII digit.
pub proof fn lemma_to_lower_hex_ascii(data: Seq<u8>)
    ensures
        vstd::utf8::is_ascii_chars(spec_to_lower_hex(data)),
        forall|i: int|
            0 <= i < spec_to_lower_hex(data).len() ==> is_hex_digit(
                #[trigger] spec_to_lower_hex(data)[i] as u8,
            ),
    decreases data.len(),
{
    if data.len() > 0 {
        lemma_to_lower_hex_ascii(data.drop_first());
        let s = spec_to_lower_hex(data);
        let rest = spec_to_lower_hex(data.drop_first());
        assert forall|i: int| 0 <= i < s.len() implies (#[trigger] s[i] as u32) < 128 && is_hex_digit(
            s[i] as u8,
        ) by {
            if i >= 2 {
                assert(s[i] == rest[i - 2]);
                assert(vstd::utf8::is_ascii_chars(rest));
                assert((rest[i - 2] as u32) < 128);
            }
        };
    }
}

/// Encoding then decoding is the identity: the lower-case hexadecimal
/// rendering of any byte string decodes back to exactly those bytes.
pub proof fn lemma_hex_round_trip(data: Seq<u8>)
    ensures
        spec_hex_decode(vstd::utf8::encode_utf8(spec_to_lower_hex(data))) == Ok::<
            Seq<u8>,
            HexError,
        >(data),
{
    let chars = spec_to_lower_hex(data);
    lemma_to_lower_hex_ascii(data);
    vstd::utf8::is_ascii_chars_encode_utf8(chars);
    lemma_to_lower_hex_len(data);
    let bytes = vstd::utf8::encode_utf8(chars);
    assert(strip_hex_prefix(bytes) == bytes) by {
        if bytes.len() >= 2 {
            assert(bytes[1] == chars[1] as u8);
            assert(is_hex_digit(chars[1] as u8));
        }
    };
    lemma_hex_pairs_of_rendering(data);
    assert(hex_pairs(bytes) == Ok::<Seq<u8>, HexError>(data));
}

/// Pair decoding inverts the rendering, byte for byte.
pub proof fn lemma_hex_pairs_of_rendering(data: Seq<u8>)
    ensures
        hex_pairs(vstd::utf8::encode_utf8(spec_to_lower_hex(data))) == Ok::<Seq<u8>, HexError>(
            data,
        ),
    decreases data.len(),
{
    let chars = spec_to_lower_hex(data);
    lemma_to_lower_hex_ascii(data);
    vstd::utf8::is_ascii_chars_encode_utf8(chars);
    lemma_to_lower_hex_len(data);
    let bytes = vstd::utf8::encode_utf8(chars);
    if data.len() == 0 {
        assert(bytes.len() == 0);
        assert(hex_pairs(bytes) == Ok::<Seq<u8>, HexError>(Seq::empty()));
        assert(data =~= Seq::<u8>::empty());
    } else {
        let rest = data.drop_first();
        lemma_hex_pairs_of_rendering(rest);
        let rest_chars = spec_to_lower_hex(rest);
        lemma_to_lower_hex_ascii(rest);
        vstd::utf8::is_ascii_chars_encode_utf8(rest_chars);
        lemma_to_lower_hex_len(rest);
        let rest_bytes = vstd::utf8::encode_utf8(rest_chars);
        assert(bytes.skip(2) =~= rest_bytes);
        assert(bytes[0] == chars[0] as u8 && bytes[1] == chars[1] as u8);
        assert(chars[0] == hex_char_code((data.first() / 16) as u8) as char);
        assert(chars[1] == hex_char_code((data.first() % 16) as u8) as char);
        assert(hex_val(bytes[0]) == data.first() / 16 && hex_val(bytes[1]) == data.first() % 16);
        assert(hex_val(bytes[0]) * 16 + hex_val(bytes[1]) == data.first());
        assert(seq![data.first()] + rest =~= data);
    }
}

} // verus!
