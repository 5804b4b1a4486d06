//! Independent token validation: decode a compact signed token, verify its
//! signature against the shared secret, check expiry and the caller's nonce,
//! and hand the claims back. Stateless; the clock enters only as a value.

use crate::auth::Config;
use crate::json::{parse_claims, spec_parse_claims, RawClaims, SpecClaims};
use crate::jwt::{base64url_decode, hs256_verify, spec_base64url_decode, spec_hs256_sig, Claims};
use crate::text::string_from_utf8;
use crate::wallet::bytes_eq;
use vstd::prelude::*;
use vstd::string::{StrSliceExecFns, StringExecFns, StringSliceAdditionalSpecFns};
use vstd::utf8::{encode_utf8, is_ascii_chars, valid_utf8};

verus! {

/// Index of the last `.` in `s`, or -1 when there is none.
pub open spec fn spec_last_dot(s: Seq<char>) -> int
    decreases s.len(),
{
    if s.len() == 0 {
        -1
    } else if s.last() == '.' {
        s.len() - 1
    } else {
        spec_last_dot(s.drop_last())
    }
}

/// The last-dot index lies below the length, and marks a dot when it is not
/// negative.
pub proof fn lemma_last_dot(s: Seq<char>)
    ensures
        -1 <= spec_last_dot(s) < s.len(),
        spec_last_dot(s) >= 0 ==> s[spec_last_dot(s)] == '.',
    decreases s.len(),
{
    if s.len() > 0 && s.last() != '.' {
        lemma_last_dot(s.drop_last());
    }
}

/// Find the last `.` in a string.
pub fn last_dot(s: &str) -> (r: Option<usize>)
    ensures
        match r {
            Some(i) => spec_last_dot(s@) == i as int && i < s@.len(),
            None => spec_last_dot(s@) == -1,
        },
{
    proof {
        lemma_last_dot(s@);
    }
    let n = s.unicode_len();
    let mut i: usize = n;
    proof {
        assert(s@.take(n as int) =~= s@);
    }
    while i > 0
        invariant
            i <= s@.len(),
            n == s@.len(),
            spec_last_dot(s@) == spec_last_dot(s@.take(i as int)),
        decreases i,
    {
        proof {
            assert(s@.take(i as int).last() == s@[i as int - 1]);
            assert(s@.take(i as int).drop_last() =~= s@.take(i as int - 1));
        }
        if s.get_char(i - 1) == '.' {
            proof {
                lemma_last_dot(s@);
            }
            return Some(i - 1);
        }
        i = i - 1;
    }
    proof {
        assert(s@.take(0) =~= Seq::<char>::empty());
    }
    None
}

/// Do executable claims carry exactly the specification-level claims?
pub open spec fn claims_correspond(cl: Claims, c: SpecClaims) -> bool {
    &&& encode_utf8(cl.iss@) == c.iss
    &&& encode_utf8(cl.sub@) == c.sub
    &&& cl.aud@.len() == c.aud.len()
    &&& forall|k: int| 0 <= k < c.aud.len() ==> encode_utf8((#[trigger] cl.aud@[k])@) == c.aud[k]
    &&& cl.exp == c.exp
    &&& encode_utf8(cl.nonce@) == c.nonce
}

/// The exact outcome of validating `token` against `secret` and
/// `expected_nonce` at instant `now`: the claims when the token is an ASCII
/// compact token whose signature is the HMAC of its signing input under
/// `secret`, whose payload is a well-formed claims object of valid UTF-8
/// texts, not yet expired, and whose nonce equals the expected one; `None`
/// otherwise, with no reason disclosed.
pub open spec fn spec_validate(
    token: Seq<char>,
    secret: Seq<u8>,
    expected_nonce: Seq<char>,
    now: i64,
) -> Option<SpecClaims> {
    if !is_ascii_chars(token) {
        None
    } else {
        let p2 = spec_last_dot(token);
        if p2 < 0 {
            None
        } else {
            let msg = token.take(p2);
            let sig = token.skip(p2 + 1);
            let p1 = spec_last_dot(msg);
            if p1 < 0 {
                None
            } else if sig != spec_hs256_sig(encode_utf8(msg), secret) {
                None
            } else {
                let payload_b64 = msg.skip(p1 + 1);
                match spec_base64url_decode(encode_utf8(payload_b64)) {
                    None => None,
                    Some(payload) => match spec_parse_claims(payload) {
                        None => None,
                        Some(c) => if c.exp <= now {
                            None
                        } else if c.nonce != encode_utf8(expected_nonce) {
                            None
                        } else if valid_utf8(c.iss) && valid_utf8(c.sub) && valid_utf8(c.nonce)
                            && (forall|k: int|
                            0 <= k < c.aud.len() ==> valid_utf8(#[trigger] c.aud[k])) {
                            Some(c)
                        } else {
                            None
                        },
                    },
                }
            }
        }
    }
}

/// Turn raw audience entries into strings; `None` when any entry is not
/// valid UTF-8.
pub fn convert_aud(raw: &Vec<Vec<u8>>) -> (r: Option<Vec<String>>)
    ensures
        match r {
            Some(v) => v@.len() == raw@.len() && (forall|m: int|
                0 <= m < raw@.len() ==> valid_utf8((#[trigger] raw@[m])@)) && (forall|m: int|
                0 <= m < raw@.len() ==> encode_utf8((#[trigger] v@[m])@) == raw@[m]@),
            None => !(forall|m: int| 0 <= m < raw@.len() ==> valid_utf8((#[trigger] raw@[m])@)),
        },
{
    let mut out: Vec<String> = Vec::new();
    let mut k: usize = 0;
    while k < raw.len()
        invariant
            k <= raw@.len(),
            out@.len() == k,
            forall|m: int| 0 <= m < k ==> valid_utf8((#[trigger] raw@[m])@),
            forall|m: int| 0 <= m < k ==> encode_utf8((#[trigger] out@[m])@) == raw@[m]@,
        decreases raw@.len() - k,
    {
        let item: &Vec<u8> = &raw[k];
        proof {
            assert(item@ == raw@[k as int]@);
        }
        let entry = match string_from_utf8(item.as_slice()) {
            Some(s) => s,
            None => {
                return None;
            },
        };
        proof {
            assert(valid_utf8(raw@[k as int]@));
            assert(encode_utf8(entry@) == raw@[k as int]@);
        }
        let ghost prev = out@;
        let ghost entry_view = entry@;
        out.push(entry);
        proof {
            assert(out@[k as int]@ == entry_view);
            assert forall|m: int|
                0 <= m < out@.len() implies encode_utf8((#[trigger] out@[m])@) == raw@[m]@ by {
                if m < k as int {
                    assert(out@[m] == prev[m]);
                    assert(encode_utf8(prev[m]@) == raw@[m]@);
                } else {
                    assert(out@[m]@ == entry_view);
                }
            };
        }
        k = k + 1;
    }
    Some(out)
}

/// Validate a token against the shared secret and the caller's nonce at a
/// fixed instant.
#[verifier::rlimit(100)]
#[verifier::spinoff_prover]
pub fn validate_token_at(secret: &[u8], token: &str, nonce: &str, now: i64) -> (r: Result<
    Claims,
    (),
>)
    ensures
        match spec_validate(token@, secret@, nonce@, now) {
            Some(c) => r matches Ok(cl) && claims_correspond(cl, c),
            None => r == Err::<Claims, ()>(()),
        },
{
    if !token.is_ascii() {
        return Err(());
    }
    let n = token.unicode_len();
    let p2 = match last_dot(token) {
        Some(p) => p,
        None => {
            return Err(());
        },
    };
    let msg = token.substring_ascii(0, p2);
    let sig = token.substring_ascii(p2 + 1, n);
    proof {
        assert(msg@ =~= token@.take(p2 as int));
        assert(sig@ =~= token@.skip(p2 as int + 1));
    }
    let p1 = match last_dot(msg) {
        Some(p) => p,
        None => {
            return Err(());
        },
    };
    if !hs256_verify(sig, msg.as_bytes(), secret) {
        return Err(());
    }
    let payload_b64 = msg.substring_ascii(p1 + 1, p2);
    proof {
        assert(msg@.len() == p2 as int);
        assert(payload_b64@ =~= msg@.skip(p1 as int + 1));
    }
    let payload = match base64url_decode(payload_b64.as_bytes()) {
        Some(v) => v,
        None => {
            return Err(());
        },
    };
    let rc = match parse_claims(&payload) {
        Some(rc) => rc,
        None => {
            return Err(());
        },
    };
    let ghost c = spec_parse_claims(payload@)->Some_0;
    let RawClaims { iss: iss_raw, sub: sub_raw, aud: aud_raw, exp: exp_val, nonce: nonce_raw } = rc;
    if exp_val <= now {
        return Err(());
    }
    if !bytes_eq(nonce_raw.as_slice(), nonce.as_bytes()) {
        return Err(());
    }
    let iss = match string_from_utf8(iss_raw.as_slice()) {
        Some(s) => s,
        None => {
            return Err(());
        },
    };
    let sub = match string_from_utf8(sub_raw.as_slice()) {
        Some(s) => s,
        None => {
            return Err(());
        },
    };
    let nonce_text = match string_from_utf8(nonce_raw.as_slice()) {
        Some(s) => s,
        None => {
            return Err(());
        },
    };
    let aud = match convert_aud(&aud_raw) {
        Some(v) => v,
        None => {
            proof {
                if forall|k2: int| 0 <= k2 < c.aud.len() ==> valid_utf8(#[trigger] c.aud[k2]) {
                    assert forall|m: int|
                        0 <= m < aud_raw@.len() implies valid_utf8((#[trigger] aud_raw@[m])@) by {
                        assert(c.aud[m] == aud_raw@[m]@);
                        assert(valid_utf8(c.aud[m]));
                    };
                }
            }
            return Err(());
        },
    };
    proof {
        assert forall|k2: int| 0 <= k2 < c.aud.len() implies valid_utf8(#[trigger] c.aud[k2]) by {
            assert(c.aud[k2] == aud_raw@[k2]@);
            assert(valid_utf8(aud_raw@[k2]@));
        };
        assert forall|k2: int|
            0 <= k2 < c.aud.len() implies encode_utf8((#[trigger] aud@[k2])@) == c.aud[k2] by {
            assert(c.aud[k2] == aud_raw@[k2]@);
            assert(encode_utf8(aud@[k2]@) == aud_raw@[k2]@);
        };
    }
    let cl = Claims { iss, sub, aud, exp: exp_val, nonce: nonce_text };
    Ok(cl)
}

/// Validate a token against the configured shared secret and the caller's
/// nonce, by the ambient clock. Whatever the clock read, a token that comes
/// back carries exactly the expected nonce.
pub fn validate_token_response(config: &Config, token: &str, nonce: &str) -> (r: Result<
    Claims,
    (),
>)
    ensures
        r matches Ok(cl) ==> encode_utf8(cl.nonce@) == encode_utf8(nonce@),
{
    let now = crate::store::now_timestamp();
    let secret = config.client_secret.as_str().as_bytes();
    validate_token_at(secret, token, nonce, now)
}

/// Nonce binding: a token accepted for one nonce carries exactly that nonce,
/// and the same token is rejected for every other expected nonce.
pub proof fn lemma_nonce_binding(
    token: Seq<char>,
    secret: Seq<u8>,
    n1: Seq<char>,
    n2: Seq<char>,
    now: i64,
)
    requires
        spec_validate(token, secret, n1, now) is Some,
        encode_utf8(n2) != encode_utf8(n1),
    ensures
        spec_validate(token, secret, n1, now)->Some_0.nonce == encode_utf8(n1),
        spec_validate(token, secret, n2, now) is None,
{
}

} // verus!
