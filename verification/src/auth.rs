//! The four public operations of the service: request a challenge, complete
//! authentication, rotate a refresh token, and the request/response shapes
//! they exchange.

use crate::error::ApiError;
use crate::jwt::{issue_id_token_at, spec_hs256_sig, spec_signing_input};
use crate::store::{now_timestamp, spec_first_candidate, spec_sat_add, Db, RefreshToken};
use crate::text::{lowercase, spec_lowercase};
use crate::wallet::{spec_challenge, spec_verify_address, Wallet};
use vstd::prelude::*;
use vstd::utf8::encode_utf8;

verus! {

/// A challenge handed to the wallet owner.
#[derive(Debug)]
pub struct Challenge {
    /// The document to sign.
    pub challenge: String,
}

/// A request naming the wallet to authenticate.
#[derive(Debug)]
pub struct WalletAddress {
    /// Account identifier as the caller supplies it.
    pub address: String,
}

/// A completed challenge: the address, the signature over the challenge, and
/// the client's replay-binding value.
#[derive(Debug)]
pub struct WalletSignature {
    /// Account identifier as the caller supplies it.
    pub address: String,
    /// Hexadecimal recoverable signature over the stored challenge.
    pub signature: String,
    /// Client-supplied value echoed into the issued token's claims.
    pub nonce: String,
}

/// The pair a successful authentication or refresh returns.
#[derive(Debug)]
pub struct JwtToken {
    /// Signed identity token.
    pub token: String,
    /// Opaque single-use refresh token.
    pub refresh_token: String,
}

/// A validation request: the token and the nonce the caller expects in it.
#[derive(Debug)]
pub struct TokenRequest {
    /// The compact signed token.
    pub token: String,
    /// The expected replay-binding value.
    pub nonce: String,
}

/// Immutable configuration values, constructed once at process start and
/// passed explicitly.
pub struct Config {
    /// Issuer URL written into the `iss` claim.
    pub issuer_url: String,
    /// Client id written into the `aud` claim.
    pub client_id: String,
    /// Shared secret for the symmetric signing mode.
    pub client_secret: String,
    /// Private key material (PEM) selecting the asymmetric signing mode.
    pub rsa_key: Option<Vec<u8>>,
    /// Identity-token lifetime, seconds.
    pub token_timeout: i64,
    /// Refresh-token lifetime, seconds.
    pub refresh_token_timeout: i64,
}

/// Start authentication: normalize the address, return the stored wallet's
/// challenge, or create, persist once and return a fresh wallet's challenge.
/// Repeated calls for one address return one challenge.
pub fn web3auth_start(db: &mut Db, address: &str) -> (r: Challenge)
    ensures
        ({
            let addr = spec_lowercase(address@);
            let ix = crate::store::spec_first_wallet(old(db).wallets@, addr);
            if ix < old(db).wallets@.len() {
                &&& r.challenge@ == old(db).wallets@[ix].challenge_message@
                &&& final(db).wallets@ == old(db).wallets@
                &&& final(db).tokens@ == old(db).tokens@
            } else {
                &&& r.challenge@ == spec_challenge(addr, crate::spec_challenge_template())
                &&& final(db).tokens@ == old(db).tokens@
                &&& final(db).wallets@.len() == old(db).wallets@.len() + 1
                &&& final(db).wallets@.take(old(db).wallets@.len() as int) == old(db).wallets@
                &&& ({
                    let w = final(db).wallets@.last();
                    &&& w.address@ == addr
                    &&& w.challenge_message@ == spec_challenge(
                        addr,
                        crate::spec_challenge_template(),
                    )
                    &&& w.id == Some(old(db).next_wallet_id)
                    &&& w.challenge_signature is None
                    &&& w.validation_timestamp is None
                })
            }
        }),
{
    let addr = lowercase(address);
    match db.find_by_address(addr.as_str()) {
        Some(wallet) => Challenge { challenge: wallet.challenge_message },
        None => {
            let wallet = Wallet::new(addr);
            let challenge = wallet.challenge_message.clone();
            db.save_wallet(wallet);
            proof {
                assert(final(db).wallets@.take(old(db).wallets@.len() as int) =~= old(
                    db,
                ).wallets@);
            }
            Challenge { challenge }
        },
    }
}

/// Complete authentication: verify the signature against the stored
/// challenge; on success record it, persist, and mint an identity token and
/// a refresh token.
pub fn web3auth_end(db: &mut Db, config: &Config, signature: &WalletSignature) -> (r: Result<
    JwtToken,
    ApiError,
>)
    ensures
        ({
            let addr = spec_lowercase(signature.address@);
            let ix = crate::store::spec_first_wallet(old(db).wallets@, addr);
            if ix >= old(db).wallets@.len() {
                &&& r == Err::<JwtToken, ApiError>(ApiError::WalletNotFound)
                &&& final(db).wallets@ == old(db).wallets@
                &&& final(db).tokens@ == old(db).tokens@
            } else {
                let w = old(db).wallets@[ix];
                if spec_verify_address(w.address@, w.challenge_message@, signature.signature@)
                    != Ok::<bool, crate::error::Web3Error>(true) {
                    &&& r == Err::<JwtToken, ApiError>(ApiError::SignatureIncorrect)
                    &&& final(db).wallets@ == old(db).wallets@
                    &&& final(db).tokens@ == old(db).tokens@
                } else {
                    match r {
                        Ok(t) => {
                            &&& final(db).tokens@.len() == old(db).tokens@.len() + 1
                            &&& final(db).tokens@.take(old(db).tokens@.len() as int) == old(
                                db,
                            ).tokens@
                            &&& ({
                                let rt = final(db).tokens@.last();
                                &&& rt.token@ == t.refresh_token@
                                &&& rt.token@.len() == 24
                                &&& rt.used_at is None
                                &&& !rt.blacklisted
                            })
                            &&& (w.id is Some ==> final(db).wallets@.len() == old(
                                db,
                            ).wallets@.len())
                            &&& (w.id matches Some(wid) ==> ({
                                let ix2 = crate::store::spec_first_wallet_id(
                                    old(db).wallets@,
                                    wid,
                                );
                                ix2 < old(db).wallets@.len() ==> ({
                                    let fw = final(db).wallets@[ix2];
                                    &&& fw.challenge_signature matches Some(s) && s@
                                        == signature.signature@
                                    &&& fw.validation_timestamp is Some
                                    &&& fw.address == w.address
                                    &&& fw.challenge_message == w.challenge_message
                                })
                            }))
                            &&& (config.rsa_key is None ==> exists|iat: i64|
                                t.token@ == #[trigger] spec_hs_token(
                                    config.issuer_url@,
                                    spec_lowercase(addr),
                                    config.client_id@,
                                    iat,
                                    config.token_timeout,
                                    signature.nonce@,
                                    encode_utf8(config.client_secret@),
                                ))
                        },
                        Err(e) => e == ApiError::SigningError && config.rsa_key is Some,
                    }
                }
            }
        }),
{
    let addr = lowercase(&signature.address);
    let found = db.find_by_address(addr.as_str());
    match found {
        None => Err(ApiError::WalletNotFound),
        Some(wallet) => {
            let verdict = wallet.verify_address(
                wallet.challenge_message.as_str(),
                signature.signature.as_str(),
            );
            match verdict {
                Ok(true) => {
                    let now = now_timestamp();
                    let rsa: Option<&[u8]> = match &config.rsa_key {
                        Some(pem) => Some(pem.as_slice()),
                        None => None,
                    };
                    let id_token = match issue_id_token_at(
                        addr.as_str(),
                        config.issuer_url.as_str(),
                        config.client_secret.as_str().as_bytes(),
                        rsa,
                        signature.nonce.as_str(),
                        config.client_id.as_str(),
                        now,
                        config.token_timeout,
                    ) {
                        Ok(t) => t,
                        Err(e) => {
                            return Err(e);
                        },
                    };
                    let mut wallet = wallet;
                    let ghost w_id = wallet.id;
                    wallet.set_signature(signature.signature.as_str());
                    let wallet_id = db.save_wallet(wallet);
                    proof {
                        if w_id is Some {
                            crate::store::lemma_first_wallet_id(old(db).wallets@, w_id->0);
                            assert(db.wallets@.len() == old(db).wallets@.len());
                        }
                    }
                    let refresh_token = RefreshToken::new(
                        wallet_id,
                        config.refresh_token_timeout,
                    );
                    let token_string = refresh_token.token.clone();
                    db.save_refresh_token(refresh_token);
                    proof {
                        assert(final(db).tokens@.take(old(db).tokens@.len() as int) =~= old(
                            db,
                        ).tokens@);
                        if config.rsa_key is None {
                            assert(id_token@ == spec_hs_token(
                                config.issuer_url@,
                                spec_lowercase(addr@),
                                config.client_id@,
                                now,
                                config.token_timeout,
                                signature.nonce@,
                                encode_utf8(config.client_secret@),
                            ));
                        }
                    }
                    Ok(JwtToken { token: id_token, refresh_token: token_string })
                },
                _ => Err(ApiError::SignatureIncorrect),
            }
        },
    }
}

/// The full text of a symmetrically signed identity token for these claims.
pub open spec fn spec_hs_token(
    iss: Seq<char>,
    sub: Seq<char>,
    aud: Seq<char>,
    iat: i64,
    timeout: i64,
    nonce: Seq<char>,
    secret: Seq<u8>,
) -> Seq<char> {
    let input = spec_signing_input(
        iss,
        sub,
        aud,
        spec_sat_add(iat, timeout) as int,
        iat as int,
        nonce,
        false,
    );
    input + "."@ + spec_hs256_sig(encode_utf8(input), secret)
}

/// Rotate a refresh token: redeem the presented token (marking every record
/// carrying it as used, whether or not a new token is issued), then mint a
/// fresh identity token without a nonce and a fresh refresh token for the
/// same wallet.
pub fn refresh(db: &mut Db, config: &Config, refresh_token: &str) -> (r: Result<
    JwtToken,
    ApiError,
>)
    ensures
        r matches Err(e) ==> (e == ApiError::TokenNotFound || e == ApiError::WalletNotFound || e
            == ApiError::SigningError),
        spec_first_candidate(old(db).tokens@, refresh_token@) == old(db).tokens@.len() ==> r
            == Err::<JwtToken, ApiError>(ApiError::TokenNotFound) && final(db).tokens@ == old(
            db,
        ).tokens@,
        r == Err::<JwtToken, ApiError>(ApiError::TokenNotFound) ==> final(db).wallets@ == old(
            db,
        ).wallets@,
        r matches Ok(t) ==> ({
            &&& final(db).tokens@.len() == old(db).tokens@.len() + 1
            &&& ({
                let rt = final(db).tokens@.last();
                &&& rt.token@ == t.refresh_token@
                &&& rt.token@.len() == 24
                &&& rt.used_at is None
                &&& !rt.blacklisted
            })
            &&& forall|j: int|
                0 <= j < final(db).tokens@.len() - 1 ==> ((#[trigger] final(db).tokens@[j]).token@
                    == refresh_token@ ==> final(db).tokens@[j].used_at is Some)
            &&& ({
                let ix = spec_first_candidate(old(db).tokens@, refresh_token@);
                let wid = old(db).tokens@[ix].wallet_id;
                let wix = crate::store::spec_first_wallet_id(old(db).wallets@, wid);
                &&& ix < old(db).tokens@.len()
                &&& wix < old(db).wallets@.len()
                &&& (config.rsa_key is None ==> exists|iat: i64|
                    t.token@ == #[trigger] spec_hs_token(
                        config.issuer_url@,
                        spec_lowercase(old(db).wallets@[wix].address@),
                        config.client_id@,
                        iat,
                        config.token_timeout,
                        ""@,
                        encode_utf8(config.client_secret@),
                    ))
            })
        }),
{
    let now = now_timestamp();
    let found = db.find_refresh_token(refresh_token, now);
    match found {
        None => Err(ApiError::TokenNotFound),
        Some(old_token) => {
            proof {
                crate::store::lemma_first_candidate(old(db).tokens@, refresh_token@);
                assert(spec_first_candidate(old(db).tokens@, refresh_token@) < old(
                    db,
                ).tokens@.len());
            }
            let ghost toks0 = db.tokens@;
            db.set_used(refresh_token, now);
            let ghost toks1 = db.tokens@;
            let wallet = match db.find_by_id(old_token.wallet_id) {
                Some(wallet) => wallet,
                None => {
                    return Err(ApiError::WalletNotFound);
                },
            };
            let rsa: Option<&[u8]> = match &config.rsa_key {
                Some(pem) => Some(pem.as_slice()),
                None => None,
            };
            let id_token = match issue_id_token_at(
                wallet.address.as_str(),
                config.issuer_url.as_str(),
                config.client_secret.as_str().as_bytes(),
                rsa,
                "",
                config.client_id.as_str(),
                now,
                config.token_timeout,
            ) {
                Ok(t) => t,
                Err(e) => {
                    return Err(e);
                },
            };
            let new_token = RefreshToken::new(old_token.wallet_id, config.refresh_token_timeout);
            let token_string = new_token.token.clone();
            db.save_refresh_token(new_token);
            proof {
                assert forall|j: int|
                    0 <= j < db.tokens@.len() - 1 implies ((#[trigger] db.tokens@[j]).token@
                    == refresh_token@ ==> db.tokens@[j].used_at is Some) by {
                    assert(db.tokens@[j] == toks1[j]);
                    if toks0[j].token@ == refresh_token@ {
                        assert(toks1[j].used_at is Some);
                    } else {
                        assert(toks1[j] == toks0[j]);
                    }
                };
                if config.rsa_key is None {
                    assert(id_token@ == spec_hs_token(
                        config.issuer_url@,
                        spec_lowercase(wallet.address@),
                        config.client_id@,
                        now,
                        config.token_timeout,
                        ""@,
                        encode_utf8(config.client_secret@),
                    ));
                }
            }
            Ok(JwtToken { token: id_token, refresh_token: token_string })
        },
    }
}

/// Start-authentication idempotence: once a wallet for an address is stored,
/// a later lookup for that address finds exactly that record, so a repeated
/// start returns the same challenge until the record changes.
pub proof fn lemma_start_idempotent(ws0: Seq<Wallet>, w: Wallet, addr: Seq<char>)
    requires
        crate::store::spec_first_wallet(ws0, addr) == ws0.len(),
        w.address@ == addr,
    ensures
        crate::store::spec_first_wallet(ws0.push(w), addr) == ws0.len(),
        ws0.push(w)[crate::store::spec_first_wallet(ws0.push(w), addr)] == w,
{
    crate::store::lemma_first_wallet(ws0, addr);
    assert forall|j: int| 0 <= j < ws0.len() implies (#[trigger] ws0.push(w)[j]).address@
        != addr by {
        assert(ws0.push(w)[j] == ws0[j]);
    };
    crate::store::lemma_first_wallet_bound(ws0.push(w), addr, ws0.len() as int);
}

} // verus!
