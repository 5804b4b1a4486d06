//! Small text-building helpers shared by the challenge builder and the
//! token codec: decimal rendering and character-level string construction.

use vstd::prelude::*;

verus! {

/// Decimal digits of `n` as ASCII bytes, most significant first.
pub open spec fn dec_digits(n: nat) -> Seq<u8>
    decreases n,
{
    if n < 10 {
        seq![(n + 0x30) as u8]
    } else {
        dec_digits(n / 10).push(((n % 10) + 0x30) as u8)
    }
}

/// Decimal rendering of a signed value: a minus sign ahead of the digits of
/// its magnitude.
pub open spec fn dec_digits_signed(n: int) -> Seq<u8> {
    if n < 0 {
        seq![0x2du8] + dec_digits((-n) as nat)
    } else {
        dec_digits(n as nat)
    }
}

/// Render `n` in decimal, as ASCII bytes.
pub fn format_decimal(n: u64) -> (r: Vec<u8>)
    ensures
        r@ == dec_digits(n as nat),
{
    let mut rev: Vec<u8> = Vec::new();
    let mut k: u64 = n;
    loop
        invariant_except_break
            rev@.len() == 0 ==> k == n,
            rev@.len() > 0 ==> k > 0,
            dec_digits(n as nat) == if rev@.len() == 0 {
                dec_digits(k as nat)
            } else {
                dec_digits(k as nat) + rev@.reverse()
            },
        ensures
            dec_digits(n as nat) == rev@.reverse(),
        decreases k,
    {
        let d: u8 = (k % 10) as u8 + 0x30;
        let ghost prev = rev@;
        let ghost kk = k as nat;
        rev.push(d);
        proof {
            assert(rev@.reverse() =~= seq![d] + prev.reverse());
            if prev.len() == 0 {
                assert(seq![d] + prev.reverse() =~= seq![d]);
            }
            if kk >= 10 {
                assert(dec_digits(kk) == dec_digits(kk / 10).push(d));
                assert(dec_digits(kk / 10).push(d) =~= dec_digits(kk / 10) + seq![d]);
                if prev.len() > 0 {
                    assert(dec_digits(kk / 10) + seq![d] + prev.reverse() =~= dec_digits(kk / 10)
                        + (seq![d] + prev.reverse()));
                }
            } else {
                assert(dec_digits(kk) =~= seq![d]);
                if prev.len() > 0 {
                    assert(seq![d] + prev.reverse() =~= dec_digits(kk) + prev.reverse());
                }
            }
        }
        k = k / 10;
        if k == 0 {
            break;
        }
    }
    let mut r: Vec<u8> = Vec::new();
    let mut i: usize = rev.len();
    while i > 0
        invariant
            i <= rev@.len(),
            r@ == rev@.subrange(i as int, rev@.len() as int).reverse(),
        decreases i,
    {
        i = i - 1;
        r.push(rev[i]);
        proof {
            assert(r@ =~= rev@.subrange(i as int, rev@.len() as int).reverse());
        }
    }
    proof {
        assert(rev@.subrange(0, rev@.len() as int) =~= rev@);
    }
    r
}

/// Render a signed value in decimal, as ASCII bytes.
pub fn format_decimal_signed(n: i64) -> (r: Vec<u8>)
    ensures
        r@ == dec_digits_signed(n as int),
{
    if n >= 0 {
        format_decimal(n as u64)
    } else {
        let mag: u64 = ((-(n + 1)) as u64) + 1;
        let digits = format_decimal(mag);
        let mut r: Vec<u8> = Vec::new();
        r.push(0x2d);
        let mut i: usize = 0;
        while i < digits.len()
            invariant
                i <= digits@.len(),
                r@ == seq![0x2du8] + digits@.subrange(0, i as int),
            decreases digits@.len() - i,
        {
            r.push(digits[i]);
            i = i + 1;
            proof {
                assert(r@ =~= seq![0x2du8] + digits@.subrange(0, i as int));
            }
        }
        proof {
            assert(digits@.subrange(0, digits@.len() as int) =~= digits@);
        }
        r
    }
}

/// Relies on `String::push`: appends one character to the string.
#[verifier::external_body]
pub fn push_char(s: &mut String, c: char)
    ensures
        final(s)@ == old(s)@.push(c),
{
    s.push(c);
}

/// Relies on `std::str::from_utf8`, owning its result: succeeds exactly on
/// valid UTF-8 input and returns the text that input encodes.
#[verifier::external_body]
pub fn string_from_utf8(v: &[u8]) -> (r: Option<String>)
    ensures
        match r {
            Some(s) => vstd::utf8::valid_utf8(v@) && vstd::utf8::encode_utf8(s@) == v@,
            None => !vstd::utf8::valid_utf8(v@),
        },
{
    match core::str::from_utf8(v) {
        Ok(s) => Some(s.to_owned()),
        Err(_) => None,
    }
}

/// What lower-casing yields for a character sequence; a function of the
/// characters alone.
pub uninterp spec fn spec_lowercase(s: Seq<char>) -> Seq<char>;

/// Relies on `str::to_lowercase`: the result depends on the characters
/// alone.
#[verifier::external_body]
pub fn lowercase(s: &str) -> (r: String)
    ensures
        r@ == spec_lowercase(s@),
{
    s.to_lowercase()
}

} // verus!
