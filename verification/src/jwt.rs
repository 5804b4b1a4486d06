//! Identity tokens: URL-safe base64, claims serialization, and the two
//! signing modes, symmetric and asymmetric. Only the signing calls are
//! trusted; framing and serialization are verified.

use crate::error::ApiError;
use crate::text::{dec_digits_signed, format_decimal_signed, push_char};
use vstd::prelude::*;
use vstd::string::{StrSliceExecFns, StringExecFns, StringSliceAdditionalSpecFns};
use vstd::utf8::{encode_utf8, is_ascii_chars};

verus! {

/// Decoded identity-token claims.
pub struct Claims {
    /// Issuer URL.
    pub iss: String,
    /// Subject: the lower-case wallet address.
    pub sub: String,
    /// Audience: the client ids the token is meant for.
    pub aud: Vec<String>,
    /// Expiry instant, epoch seconds.
    pub exp: i64,
    /// The replay-binding value supplied at authentication.
    pub nonce: String,
}

/// Character of the URL-safe base64 alphabet for a value below 64.
pub open spec fn b64_char(v: u8) -> char {
    if v < 26 {
        ((v + 0x41) as u8) as char
    } else if v < 52 {
        ((v - 26 + 0x61) as u8) as char
    } else if v < 62 {
        ((v - 52 + 0x30) as u8) as char
    } else if v == 62 {
        '-'
    } else {
        '_'
    }
}

/// URL-safe, unpadded base64 of a byte string.
pub open spec fn spec_base64url(b: Seq<u8>) -> Seq<char>
    decreases b.len(),
{
    if b.len() == 0 {
        Seq::empty()
    } else if b.len() == 1 {
        seq![b64_char(b[0] >> 2), b64_char((b[0] & 3) << 4)]
    } else if b.len() == 2 {
        seq![
            b64_char(b[0] >> 2),
            b64_char(((b[0] & 3) << 4) | (b[1] >> 4)),
            b64_char((b[1] & 0xf) << 2),
        ]
    } else {
        seq![
            b64_char(b[0] >> 2),
            b64_char(((b[0] & 3) << 4) | (b[1] >> 4)),
            b64_char(((b[1] & 0xf) << 2) | (b[2] >> 6)),
            b64_char(b[2] & 0x3f),
        ] + spec_base64url(b.skip(3))
    }
}

/// The alphabet character for a value below 64.
pub fn b64_char_of(v: u8) -> (c: char)
    ensures
        c == b64_char(v),
{
    if v < 26 {
        (v + 0x41) as char
    } else if v < 52 {
        (v - 26 + 0x61) as char
    } else if v < 62 {
        (v - 52 + 0x30) as char
    } else if v == 62 {
        '-'
    } else {
        '_'
    }
}

/// Append the URL-safe, unpadded base64 rendering of `b`.
pub fn base64url_encode_into(out: &mut String, b: &[u8])
    ensures
        final(out)@ == old(out)@ + spec_base64url(b@),
{
    let mut i: usize = 0;
    proof {
        assert(b@.skip(0) =~= b@);
        assert(old(out)@ + Seq::<char>::empty() =~= old(out)@);
    }
    while b.len() - i >= 3
        invariant
            i <= b@.len(),
            old(out)@ + spec_base64url(b@) == out@ + spec_base64url(b@.skip(i as int)),
        decreases b@.len() - i,
    {
        let ghost suf = b@.skip(i as int);
        let b0 = b[i];
        let b1 = b[i + 1];
        let b2 = b[i + 2];
        proof {
            assert(suf[0] == b0 && suf[1] == b1 && suf[2] == b2);
            assert(suf.skip(3) =~= b@.skip(i as int + 3));
        }
        push_char(out, b64_char_of(b0 >> 2));
        push_char(out, b64_char_of(((b0 & 3) << 4) | (b1 >> 4)));
        push_char(out, b64_char_of(((b1 & 0xf) << 2) | (b2 >> 6)));
        push_char(out, b64_char_of(b2 & 0x3f));
        i = i + 3;
    }
    if b.len() - i == 1 {
        let ghost suf = b@.skip(i as int);
        let b0 = b[i];
        proof {
            assert(suf[0] == b0);
            assert(suf.len() == 1);
        }
        push_char(out, b64_char_of(b0 >> 2));
        push_char(out, b64_char_of((b0 & 3) << 4));
    } else if b.len() - i == 2 {
        let ghost suf = b@.skip(i as int);
        let b0 = b[i];
        let b1 = b[i + 1];
        proof {
            assert(suf[0] == b0 && suf[1] == b1);
            assert(suf.len() == 2);
        }
        push_char(out, b64_char_of(b0 >> 2));
        push_char(out, b64_char_of(((b0 & 3) << 4) | (b1 >> 4)));
        push_char(out, b64_char_of((b1 & 0xf) << 2));
    } else {
        proof {
            assert(b@.skip(i as int).len() == 0);
        }
    }
    proof {
        assert(out@ =~= old(out)@ + spec_base64url(b@));
    }
}

/// URL-safe, unpadded base64 of a byte string, as a fresh string.
pub fn base64url_encode(b: &[u8]) -> (r: String)
    ensures
        r@ == spec_base64url(b@),
{
    let mut out = String::new();
    base64url_encode_into(&mut out, b);
    proof {
        assert(Seq::<char>::empty() + spec_base64url(b@) =~= spec_base64url(b@));
    }
    out
}

/// Value of a URL-safe base64 alphabet byte, if it is one.
pub open spec fn b64_val(b: u8) -> Option<u8> {
    if 0x41 <= b && b <= 0x5a {
        Some((b - 0x41) as u8)
    } else if 0x61 <= b && b <= 0x7a {
        Some((b - 0x61 + 26) as u8)
    } else if 0x30 <= b && b <= 0x39 {
        Some((b - 0x30 + 52) as u8)
    } else if b == 0x2d {
        Some(62u8)
    } else if b == 0x5f {
        Some(63u8)
    } else {
        None
    }
}

/// Decode URL-safe, unpadded, canonical base64: the bytes it denotes, or
/// `None` for a foreign character, a lone trailing character, or trailing
/// bits that are not zero.
pub open spec fn spec_base64url_decode(s: Seq<u8>) -> Option<Seq<u8>>
    decreases s.len(),
{
    if s.len() == 0 {
        Some(Seq::empty())
    } else if s.len() == 1 {
        None
    } else if s.len() == 2 {
        match (b64_val(s[0]), b64_val(s[1])) {
            (Some(v0), Some(v1)) => if v1 & 0xf == 0 {
                Some(seq![(v0 << 2) | (v1 >> 4)])
            } else {
                None
            },
            _ => None,
        }
    } else if s.len() == 3 {
        match (b64_val(s[0]), b64_val(s[1]), b64_val(s[2])) {
            (Some(v0), Some(v1), Some(v2)) => if v2 & 3 == 0 {
                Some(seq![(v0 << 2) | (v1 >> 4), ((v1 & 0xf) << 4) | (v2 >> 2)])
            } else {
                None
            },
            _ => None,
        }
    } else {
        match (b64_val(s[0]), b64_val(s[1]), b64_val(s[2]), b64_val(s[3])) {
            (Some(v0), Some(v1), Some(v2), Some(v3)) => match spec_base64url_decode(s.skip(4)) {
                Some(rest) => Some(
                    seq![
                        (v0 << 2) | (v1 >> 4),
                        ((v1 & 0xf) << 4) | (v2 >> 2),
                        ((v2 & 3) << 6) | v3,
                    ] + rest,
                ),
                None => None,
            },
            _ => None,
        }
    }
}

/// Value of an alphabet byte.
pub fn b64_val_of(b: u8) -> (r: Option<u8>)
    ensures
        r == b64_val(b),
{
    if 0x41 <= b && b <= 0x5a {
        Some(b - 0x41)
    } else if 0x61 <= b && b <= 0x7a {
        Some(b - 0x61 + 26)
    } else if 0x30 <= b && b <= 0x39 {
        Some(b - 0x30 + 52)
    } else if b == 0x2d {
        Some(62)
    } else if b == 0x5f {
        Some(63)
    } else {
        None
    }
}

/// Decode URL-safe, unpadded base64.
pub fn base64url_decode(s: &[u8]) -> (r: Option<Vec<u8>>)
    ensures
        match r {
            Some(v) => spec_base64url_decode(s@) == Some(v@),
            None => spec_base64url_decode(s@) is None,
        },
{
    let mut out: Vec<u8> = Vec::new();
    let mut i: usize = 0;
    proof {
        assert(s@.skip(0) =~= s@);
    }
    while s.len() - i >= 4
        invariant
            i <= s@.len(),
            spec_base64url_decode(s@) == match spec_base64url_decode(s@.skip(i as int)) {
                Some(rest) => Some(out@ + rest),
                None => None::<Seq<u8>>,
            },
        decreases s@.len() - i,
    {
        let ghost suf = s@.skip(i as int);
        proof {
            assert(suf[0] == s@[i as int] && suf[1] == s@[i as int + 1] && suf[2] == s@[i as int
                + 2] && suf[3] == s@[i as int + 3]);
            assert(suf.skip(4) =~= s@.skip(i as int + 4));
        }
        let v0 = match b64_val_of(s[i]) {
            Some(v) => v,
            None => {
                return None;
            },
        };
        let v1 = match b64_val_of(s[i + 1]) {
            Some(v) => v,
            None => {
                return None;
            },
        };
        let v2 = match b64_val_of(s[i + 2]) {
            Some(v) => v,
            None => {
                return None;
            },
        };
        let v3 = match b64_val_of(s[i + 3]) {
            Some(v) => v,
            None => {
                return None;
            },
        };
        let ghost prev = out@;
        out.push((v0 << 2) | (v1 >> 4));
        out.push(((v1 & 0xf) << 4) | (v2 >> 2));
        out.push(((v2 & 3) << 6) | v3);
        proof {
            if spec_base64url_decode(s@.skip(i as int + 4)) is Some {
                let rest = spec_base64url_decode(s@.skip(i as int + 4))->Some_0;
                assert(prev + (seq![
                    ((v0 << 2) | (v1 >> 4)) as u8,
                    (((v1 & 0xf) << 4) | (v2 >> 2)) as u8,
                    (((v2 & 3) << 6) | v3) as u8,
                ] + rest) =~= out@ + rest);
            }
        }
        i = i + 4;
    }
    let rem = s.len() - i;
    if rem == 1 {
        proof {
            assert(s@.skip(i as int).len() == 1);
        }
        return None;
    }
    if rem == 2 {
        let ghost suf = s@.skip(i as int);
        proof {
            assert(suf[0] == s@[i as int] && suf[1] == s@[i as int + 1]);
            assert(suf.len() == 2);
        }
        let v0 = match b64_val_of(s[i]) {
            Some(v) => v,
            None => {
                return None;
            },
        };
        let v1 = match b64_val_of(s[i + 1]) {
            Some(v) => v,
            None => {
                return None;
            },
        };
        if v1 & 0xf != 0 {
            return None;
        }
        let ghost prev = out@;
        out.push((v0 << 2) | (v1 >> 4));
        proof {
            assert(prev + seq![((v0 << 2) | (v1 >> 4)) as u8] =~= out@);
        }
        return Some(out);
    }
    if rem == 3 {
        let ghost suf = s@.skip(i as int);
        proof {
            assert(suf[0] == s@[i as int] && suf[1] == s@[i as int + 1] && suf[2] == s@[i as int
                + 2]);
            assert(suf.len() == 3);
        }
        let v0 = match b64_val_of(s[i]) {
            Some(v) => v,
            None => {
                return None;
            },
        };
        let v1 = match b64_val_of(s[i + 1]) {
            Some(v) => v,
            None => {
                return None;
            },
        };
        let v2 = match b64_val_of(s[i + 2]) {
            Some(v) => v,
            None => {
                return None;
            },
        };
        if v2 & 3 != 0 {
            return None;
        }
        let ghost prev = out@;
        out.push((v0 << 2) | (v1 >> 4));
        out.push(((v1 & 0xf) << 4) | (v2 >> 2));
        proof {
            assert(prev + seq![((v0 << 2) | (v1 >> 4)) as u8, (((v1 & 0xf) << 4) | (v2 >> 2)) as u8]
                =~= out@);
        }
        return Some(out);
    }
    proof {
        assert(s@.skip(i as int).len() == 0);
        assert(out@ + Seq::<u8>::empty() =~= out@);
    }
    Some(out)
}

/// What one character contributes to a serialized JSON string: itself, or
/// its escape.
pub open spec fn spec_escape_char(c: char) -> Seq<char> {
    if c == '"' {
        seq!['\\', '"']
    } else if c == '\\' {
        seq!['\\', '\\']
    } else if (c as u32) < 0x20 {
        seq![
            '\\',
            'u',
            '0',
            '0',
            crate::hex::hex_char_code(((c as u32) / 16) as u8) as char,
            crate::hex::hex_char_code(((c as u32) % 16) as u8) as char,
        ]
    } else {
        seq![c]
    }
}

/// A character sequence serialized into a JSON string literal's body.
pub open spec fn spec_escape(s: Seq<char>) -> Seq<char>
    decreases s.len(),
{
    if s.len() == 0 {
        Seq::empty()
    } else {
        spec_escape(s.drop_last()) + spec_escape_char(s.last())
    }
}

/// Append `s` in JSON string-literal form.
pub fn escape_into(out: &mut String, s: &str)
    ensures
        final(out)@ == old(out)@ + spec_escape(s@),
{
    let n = s.unicode_len();
    let mut i: usize = 0;
    proof {
        assert(s@.take(0) =~= Seq::<char>::empty());
        assert(old(out)@ + spec_escape(s@.take(0)) =~= old(out)@);
    }
    while i < n
        invariant
            i <= s@.len(),
            n == s@.len(),
            out@ == old(out)@ + spec_escape(s@.take(i as int)),
        decreases s@.len() - i,
    {
        let c = s.get_char(i);
        proof {
            assert(s@.take(i as int + 1).drop_last() =~= s@.take(i as int));
            assert(s@.take(i as int + 1).last() == s@[i as int]);
        }
        let code: u32 = c as u32;
        if c == '"' {
            push_char(out, '\\');
            push_char(out, '"');
        } else if c == '\\' {
            push_char(out, '\\');
            push_char(out, '\\');
        } else if code < 0x20 {
            push_char(out, '\\');
            push_char(out, 'u');
            push_char(out, '0');
            push_char(out, '0');
            let hi: u8 = (code / 16) as u8;
            let lo: u8 = (code % 16) as u8;
            push_char(
                out,
                if hi < 10 {
                    (hi + 0x30) as char
                } else {
                    (hi + 0x57) as char
                },
            );
            push_char(
                out,
                if lo < 10 {
                    (lo + 0x30) as char
                } else {
                    (lo + 0x57) as char
                },
            );
        } else {
            push_char(out, c);
        }
        proof {
            assert(out@ =~= old(out)@ + spec_escape(s@.take(i as int + 1)));
        }
        i = i + 1;
    }
    proof {
        assert(s@.take(n as int) =~= s@);
    }
}

/// Decimal rendering of a signed value, as characters.
pub open spec fn spec_dec_chars(n: int) -> Seq<char> {
    dec_digits_signed(n).map_values(|b: u8| b as char)
}

/// Append the decimal rendering of `n`.
pub fn push_decimal(out: &mut String, n: i64)
    ensures
        final(out)@ == old(out)@ + spec_dec_chars(n as int),
{
    let digits = format_decimal_signed(n);
    let mut i: usize = 0;
    proof {
        assert(digits@.take(0).map_values(|b: u8| b as char) =~= Seq::<char>::empty());
        assert(old(out)@ + Seq::<char>::empty() =~= old(out)@);
    }
    while i < digits.len()
        invariant
            i <= digits@.len(),
            digits@ == dec_digits_signed(n as int),
            out@ == old(out)@ + digits@.take(i as int).map_values(|b: u8| b as char),
        decreases digits@.len() - i,
    {
        push_char(out, digits[i] as char);
        proof {
            assert(digits@.take(i as int + 1).map_values(|b: u8| b as char) =~= digits@.take(
                i as int,
            ).map_values(|b: u8| b as char).push(digits@[i as int] as char));
        }
        i = i + 1;
    }
    proof {
        assert(digits@.take(digits@.len() as int) =~= digits@);
        assert(digits@.map_values(|b: u8| b as char) == spec_dec_chars(n as int));
    }
}

/// The serialized claims object of an identity token.
pub open spec fn spec_token_payload(
    iss: Seq<char>,
    sub: Seq<char>,
    aud: Seq<char>,
    exp: int,
    iat: int,
    nonce: Seq<char>,
) -> Seq<char> {
    "{\"iss\":\""@ + spec_escape(iss) + "\",\"sub\":\""@ + spec_escape(sub) + "\",\"aud\":[\""@
        + spec_escape(aud) + "\"],\"exp\":"@ + spec_dec_chars(exp) + ",\"iat\":"@ + spec_dec_chars(
        iat,
    ) + ",\"nonce\":\""@ + spec_escape(nonce) + "\"}"@
}

/// Serialize the claims object.
pub fn render_payload(iss: &str, sub: &str, aud: &str, exp: i64, iat: i64, nonce: &str) -> (r:
    String)
    ensures
        r@ == spec_token_payload(iss@, sub@, aud@, exp as int, iat as int, nonce@),
{
    let mut out = String::new();
    out.append("{\"iss\":\"");
    escape_into(&mut out, iss);
    out.append("\",\"sub\":\"");
    escape_into(&mut out, sub);
    out.append("\",\"aud\":[\"");
    escape_into(&mut out, aud);
    out.append("\"],\"exp\":");
    push_decimal(&mut out, exp);
    out.append(",\"iat\":");
    push_decimal(&mut out, iat);
    out.append(",\"nonce\":\"");
    escape_into(&mut out, nonce);
    out.append("\"}");
    proof {
        assert(out@ =~= spec_token_payload(iss@, sub@, aud@, exp as int, iat as int, nonce@));
    }
    out
}

/// The signature part of a symmetrically signed token: URL-safe base64 of
/// the HMAC-SHA256 of the signing input under the key; a function of both
/// alone.
pub uninterp spec fn spec_hs256_sig(message: Seq<u8>, key: Seq<u8>) -> Seq<char>;

/// Relies on jsonwebtoken's `crypto::sign` with `Algorithm::HS256` and
/// `EncodingKey::from_secret`: it always succeeds, returns the base64 text
/// of the HMAC (ASCII), and depends on message and key alone.
#[verifier::external_body]
pub fn hs256_sign(message: &[u8], secret: &[u8]) -> (r: String)
    ensures
        r@ == spec_hs256_sig(message@, secret@),
        is_ascii_chars(r@),
{
    match jsonwebtoken::crypto::sign(
        message,
        &jsonwebtoken::EncodingKey::from_secret(secret),
        jsonwebtoken::Algorithm::HS256,
    ) {
        Ok(sig) => sig,
        Err(_) => String::new(),
    }
}

/// Relies on jsonwebtoken's `crypto::verify` with `Algorithm::HS256` and
/// `DecodingKey::from_secret`: it re-signs the message and reports whether
/// the given signature text equals the computed one.
#[verifier::external_body]
pub fn hs256_verify(sig: &str, message: &[u8], secret: &[u8]) -> (r: bool)
    ensures
        r == (sig@ == spec_hs256_sig(message@, secret@)),
{
    match jsonwebtoken::crypto::verify(
        sig,
        message,
        &jsonwebtoken::DecodingKey::from_secret(secret),
        jsonwebtoken::Algorithm::HS256,
    ) {
        Ok(equal) => equal,
        Err(_) => false,
    }
}

/// The signature part of an asymmetrically signed token, when the key
/// material admits one: URL-safe base64 of the RSA-PKCS#1-v1.5-SHA256
/// signature, a deterministic function of signing input and key.
pub uninterp spec fn spec_rs256_sig(message: Seq<u8>, pem: Seq<u8>) -> Option<Seq<char>>;

/// Relies on jsonwebtoken's `EncodingKey::from_rsa_pem` and `crypto::sign`
/// with `Algorithm::RS256`: a success is the base64 text (ASCII) of the
/// deterministic PKCS#1 v1.5 signature of the message under the key.
#[verifier::external_body]
pub fn rs256_sign(message: &[u8], pem: &[u8]) -> (r: Result<String, ()>)
    ensures
        r matches Ok(sig) ==> spec_rs256_sig(message@, pem@) == Some(sig@) && is_ascii_chars(sig@),
{
    let key = match jsonwebtoken::EncodingKey::from_rsa_pem(pem) {
        Ok(key) => key,
        Err(_) => return Err(()),
    };
    match jsonwebtoken::crypto::sign(message, &key, jsonwebtoken::Algorithm::RS256) {
        Ok(sig) => Ok(sig),
        Err(_) => Err(()),
    }
}

/// The serialized header of a symmetrically signed token.
pub open spec fn spec_header_hs256() -> Seq<char> {
    "{\"alg\":\"HS256\",\"typ\":\"JWT\"}"@
}

/// The serialized header of an asymmetrically signed token.
pub open spec fn spec_header_rs256() -> Seq<char> {
    "{\"alg\":\"RS256\",\"typ\":\"JWT\"}"@
}

/// The signing input of an identity token: base64 header, a dot, base64
/// claims, with the subject already lower-cased by the caller.
pub open spec fn spec_signing_input(
    iss: Seq<char>,
    sub: Seq<char>,
    aud: Seq<char>,
    exp: int,
    iat: int,
    nonce: Seq<char>,
    rsa: bool,
) -> Seq<char> {
    spec_base64url(
        encode_utf8(
            if rsa {
                spec_header_rs256()
            } else {
                spec_header_hs256()
            },
        ),
    ) + "."@ + spec_base64url(encode_utf8(spec_token_payload(iss, sub, aud, exp, iat, nonce)))
}

/// Build and sign an identity token for a fixed issue instant: claims `iss`,
/// `sub` (the lower-cased wallet address), `aud` = [client id], `exp` =
/// `iat + token_expiration` (clamped at the ends of the range), `iat`,
/// `nonce`; signed symmetrically with `secret`, or asymmetrically when an
/// RSA key is configured. A failure of the key material is the server fault
/// `ApiError::SigningError`.
pub fn issue_id_token_at(
    wallet_address: &str,
    base_url: &str,
    secret: &[u8],
    rsa_key: Option<&[u8]>,
    nonce: &str,
    client_id: &str,
    iat: i64,
    token_expiration: i64,
) -> (r: Result<String, ApiError>)
    ensures
        ({
            let sub = crate::text::spec_lowercase(wallet_address@);
            let exp = crate::store::spec_sat_add(iat, token_expiration);
            let input = spec_signing_input(
                base_url@,
                sub,
                client_id@,
                exp as int,
                iat as int,
                nonce@,
                rsa_key is Some,
            );
            match rsa_key {
                None => r matches Ok(t) && t@ == input + "."@ + spec_hs256_sig(
                    encode_utf8(input),
                    secret@,
                ),
                Some(pem) => match r {
                    Ok(t) => spec_rs256_sig(encode_utf8(input), pem@) is Some && t@ == input + "."@
                        + spec_rs256_sig(encode_utf8(input), pem@)->Some_0,
                    Err(e) => e == ApiError::SigningError,
                },
            }
        }),
{
    let sub = crate::text::lowercase(wallet_address);
    let exp = crate::store::sat_add(iat, token_expiration);
    let payload = render_payload(base_url, sub.as_str(), client_id, exp, iat, nonce);
    let mut input = String::new();
    match rsa_key {
        None => {
            base64url_encode_into(&mut input, "{\"alg\":\"HS256\",\"typ\":\"JWT\"}".as_bytes());
        },
        Some(_) => {
            base64url_encode_into(&mut input, "{\"alg\":\"RS256\",\"typ\":\"JWT\"}".as_bytes());
        },
    }
    input.append(".");
    base64url_encode_into(&mut input, payload.as_str().as_bytes());
    let sig = match rsa_key {
        None => hs256_sign(input.as_str().as_bytes(), secret),
        Some(pem) => match rs256_sign(input.as_str().as_bytes(), pem) {
            Ok(sig) => sig,
            Err(_) => {
                return Err(ApiError::SigningError);
            },
        },
    };
    let mut token = input;
    token.append(".");
    token.append(sig.as_str());
    Ok(token)
}

/// Build and sign an identity token issued now.
pub fn issue_id_token(
    wallet_address: &str,
    base_url: &str,
    secret: &[u8],
    rsa_key: Option<&[u8]>,
    nonce: &str,
    client_id: &str,
    token_expiration: i64,
) -> (r: Result<String, ApiError>)
    ensures
        r is Err ==> r->Err_0 == ApiError::SigningError && rsa_key is Some,
{
    let now = crate::store::now_timestamp();
    issue_id_token_at(
        wallet_address,
        base_url,
        secret,
        rsa_key,
        nonce,
        client_id,
        now,
        token_expiration,
    )
}

/// The alphabet is ASCII and decoding a character inverts encoding it.
pub proof fn lemma_b64_char_inverse(v: u8)
    requires
        v < 64,
    ensures
        (b64_char(v) as u32) < 128,
        b64_val(b64_char(v) as u8) == Some(v),
{
}

/// Every character the base64 rendering emits is ASCII.
pub proof fn lemma_base64url_ascii(b: Seq<u8>)
    ensures
        is_ascii_chars(spec_base64url(b)),
    decreases b.len(),
{
    let s = spec_base64url(b);
    if b.len() == 0 {
    } else if b.len() <= 2 {
        let b0 = b[0];
        assert((b0 >> 2) < 64 && ((b0 & 3) << 4) < 64) by (bit_vector);
        assert forall|i: int| 0 <= i < s.len() implies (#[trigger] s[i] as u32) < 128 by {
            lemma_b64_char_inverse(b0 >> 2);
            lemma_b64_char_inverse((b0 & 3) << 4);
            if b.len() == 2 {
                let b1 = b[1];
                assert((((b1 & 0xf) << 2)) < 64 && ((((b0 & 3) << 4) | (b1 >> 4))) < 64)
                    by (bit_vector);
                lemma_b64_char_inverse(((b0 & 3) << 4) | (b1 >> 4));
                lemma_b64_char_inverse((b1 & 0xf) << 2);
            }
        };
    } else {
        lemma_base64url_ascii(b.skip(3));
        let rest = spec_base64url(b.skip(3));
        let b0 = b[0];
        let b1 = b[1];
        let b2 = b[2];
        assert((b0 >> 2) < 64 && (((b0 & 3) << 4) | (b1 >> 4)) < 64 && (((b1 & 0xf) << 2) | (b2
            >> 6)) < 64 && (b2 & 0x3f) < 64) by (bit_vector);
        assert forall|i: int| 0 <= i < s.len() implies (#[trigger] s[i] as u32) < 128 by {
            lemma_b64_char_inverse(b0 >> 2);
            lemma_b64_char_inverse(((b0 & 3) << 4) | (b1 >> 4));
            lemma_b64_char_inverse(((b1 & 0xf) << 2) | (b2 >> 6));
            lemma_b64_char_inverse(b2 & 0x3f);
            if i >= 4 {
                assert(s[i] == rest[i - 4]);
                assert(is_ascii_chars(rest));
                assert((rest[i - 4] as u32) < 128);
            }
        };
    }
}

/// Encoding then decoding is the identity: the unpadded base64 rendering of
/// any byte string decodes back to exactly those bytes.
pub proof fn lemma_base64url_round_trip(b: Seq<u8>)
    ensures
        spec_base64url_decode(encode_utf8(spec_base64url(b))) == Some(b),
    decreases b.len(),
{
    let chars = spec_base64url(b);
    lemma_base64url_ascii(b);
    vstd::utf8::is_ascii_chars_encode_utf8(chars);
    let bytes = encode_utf8(chars);
    if b.len() == 0 {
        assert(bytes.len() == 0);
        assert(b =~= Seq::<u8>::empty());
    } else if b.len() == 1 {
        let b0 = b[0];
        assert((b0 >> 2) < 64 && ((b0 & 3) << 4) < 64) by (bit_vector);
        lemma_b64_char_inverse(b0 >> 2);
        lemma_b64_char_inverse((b0 & 3) << 4);
        assert(bytes.len() == 2);
        assert(b64_val(bytes[0]) == Some(b0 >> 2));
        assert(b64_val(bytes[1]) == Some((b0 & 3) << 4));
        assert((((b0 & 3) << 4) & 0xf) == 0 && (((b0 >> 2) << 2) | (((b0 & 3) << 4) >> 4)) == b0)
            by (bit_vector);
        assert(spec_base64url_decode(bytes) == Some(seq![b0]));
        assert(seq![b0] =~= b);
    } else if b.len() == 2 {
        let b0 = b[0];
        let b1 = b[1];
        assert((b0 >> 2) < 64 && (((b0 & 3) << 4) | (b1 >> 4)) < 64 && ((b1 & 0xf) << 2) < 64)
            by (bit_vector);
        lemma_b64_char_inverse(b0 >> 2);
        lemma_b64_char_inverse(((b0 & 3) << 4) | (b1 >> 4));
        lemma_b64_char_inverse((b1 & 0xf) << 2);
        assert(bytes.len() == 3);
        assert((((b1 & 0xf) << 2) & 3) == 0 && (((b0 >> 2) << 2) | ((((b0 & 3) << 4) | (b1 >> 4))
            >> 4)) == b0 && ((((((b0 & 3) << 4) | (b1 >> 4)) & 0xf) << 4) | (((b1 & 0xf) << 2)
            >> 2)) == b1) by (bit_vector);
        assert(spec_base64url_decode(bytes) == Some(seq![b0, b1]));
        assert(seq![b0, b1] =~= b);
    } else {
        let b0 = b[0];
        let b1 = b[1];
        let b2 = b[2];
        lemma_base64url_round_trip(b.skip(3));
        let rest_chars = spec_base64url(b.skip(3));
        lemma_base64url_ascii(b.skip(3));
        vstd::utf8::is_ascii_chars_encode_utf8(rest_chars);
        assert((b0 >> 2) < 64 && (((b0 & 3) << 4) | (b1 >> 4)) < 64 && (((b1 & 0xf) << 2) | (b2
            >> 6)) < 64 && (b2 & 0x3f) < 64) by (bit_vector);
        lemma_b64_char_inverse(b0 >> 2);
        lemma_b64_char_inverse(((b0 & 3) << 4) | (b1 >> 4));
        lemma_b64_char_inverse(((b1 & 0xf) << 2) | (b2 >> 6));
        lemma_b64_char_inverse(b2 & 0x3f);
        assert(bytes.len() == chars.len());
        assert(bytes.skip(4) =~= encode_utf8(rest_chars));
        assert(bytes.len() >= 4);
        assert((((b0 >> 2) << 2) | ((((b0 & 3) << 4) | (b1 >> 4)) >> 4)) == b0 && ((((((b0 & 3)
            << 4) | (b1 >> 4)) & 0xf) << 4) | (((((b1 & 0xf) << 2) | (b2 >> 6))) >> 2)) == b1 && ((((((b1
            & 0xf) << 2) | (b2 >> 6)) & 3) << 6) | (b2 & 0x3f)) == b2) by (bit_vector);
        assert(spec_base64url_decode(bytes) == Some(seq![b0, b1, b2] + b.skip(3)));
        assert(seq![b0, b1, b2] + b.skip(3) =~= b);
    }
}

} // verus!
