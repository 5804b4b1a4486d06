//! Refresh-token records, the in-memory repository both record kinds live
//! in, and the token state machine: a token moves from active to used, or
//! from active to blacklisted, and neither move can be undone.

use crate::wallet::Wallet;
use vstd::prelude::*;
use vstd::string::StringExecFns;

verus! {

/// Relies on chrono's `Utc::now().timestamp()`: seconds since the epoch, as
/// the clock reads them at the call.
#[verifier::external_body]
pub fn now_timestamp() -> (r: i64) {
    chrono::Utc::now().timestamp()
}

/// Is `c` an ASCII alphanumeric character?
pub open spec fn is_alnum_char(c: char) -> bool {
    ('0' <= c && c <= '9') || ('a' <= c && c <= 'z') || ('A' <= c && c <= 'Z')
}

/// Relies on rand's `thread_rng` sampling the `Alphanumeric` distribution:
/// exactly `n` characters, each drawn from a-z, A-Z and 0-9.
#[verifier::external_body]
pub fn gen_alphanumeric(n: usize) -> (r: String)
    ensures
        r@.len() == n,
        forall|i: int| 0 <= i < r@.len() ==> is_alnum_char(#[trigger] r@[i]),
{
    rand::Rng::sample_iter(rand::thread_rng(), &rand::distributions::Alphanumeric).take(n).map(
        char::from,
    ).collect()
}

/// A single-use, rotating credential tied to a wallet.
pub struct RefreshToken {
    /// Surrogate key, assigned on first save.
    pub id: Option<i64>,
    /// The owning wallet's surrogate key.
    pub wallet_id: i64,
    /// Random opaque value the client presents.
    pub token: String,
    /// Absolute expiry instant, epoch seconds.
    pub expires_at: i64,
    /// Set exactly once, when the token is redeemed.
    pub used_at: Option<i64>,
    /// Set by explicit revocation, independent of use and expiry.
    pub blacklisted: bool,
}

impl Clone for RefreshToken {
    /// An exact copy, field for field.
    fn clone(&self) -> (r: Self)
        ensures
            r == *self,
    {
        RefreshToken {
            id: self.id,
            wallet_id: self.wallet_id,
            token: self.token.clone(),
            expires_at: self.expires_at,
            used_at: self.used_at,
            blacklisted: self.blacklisted,
        }
    }
}

/// `now + ttl`, clamped at the ends of the representable range.
pub open spec fn spec_sat_add(now: i64, ttl: i64) -> i64 {
    if now + ttl > i64::MAX {
        i64::MAX
    } else if now + ttl < i64::MIN {
        i64::MIN
    } else {
        (now + ttl) as i64
    }
}

/// `now + ttl`, clamped at the ends of the representable range.
pub fn sat_add(now: i64, ttl: i64) -> (r: i64)
    ensures
        r == spec_sat_add(now, ttl),
{
    if ttl >= 0 {
        if now <= i64::MAX - ttl {
            now + ttl
        } else {
            i64::MAX
        }
    } else {
        if now >= i64::MIN - ttl {
            now + ttl
        } else {
            i64::MIN
        }
    }
}

impl RefreshToken {
    /// A token is valid for redemption at `now` iff it is not blacklisted,
    /// never used, and not expired: `now < expires_at`.
    pub open spec fn spec_redeemable(self, now: i64) -> bool {
        !self.blacklisted && self.used_at is None && now < self.expires_at
    }

    /// The deterministic core of issuance: a fresh, unsaved record for
    /// `wallet_id` carrying `token`, expiring `expires_in` seconds past `now`.
    pub fn new_at(wallet_id: i64, token: String, now: i64, expires_in: i64) -> (r: Self)
        ensures
            r.id is None,
            r.wallet_id == wallet_id,
            r.token == token,
            r.expires_at == spec_sat_add(now, expires_in),
            r.used_at is None,
            !r.blacklisted,
    {
        let expires_at: i64 = sat_add(now, expires_in);
        RefreshToken { id: None, wallet_id, token, expires_at, used_at: None, blacklisted: false }
    }

    /// Issue a fresh token for `wallet_id`: a 24-character random
    /// alphanumeric value that expires `expires_in` seconds from now.
    pub fn new(wallet_id: i64, expires_in: i64) -> (r: Self)
        ensures
            r.id is None,
            r.wallet_id == wallet_id,
            r.token@.len() == 24,
            forall|i: int| 0 <= i < r.token@.len() ==> is_alnum_char(#[trigger] r.token@[i]),
            r.used_at is None,
            !r.blacklisted,
    {
        let now = now_timestamp();
        Self::new_at(wallet_id, gen_alphanumeric(24), now, expires_in)
    }

    /// Is the token past its expiry instant at `now`? At the instant itself
    /// it no longer admits redemption.
    pub fn is_expired_at(&self, now: i64) -> (r: bool)
        ensures
            r == (self.expires_at <= now),
    {
        self.expires_at <= now
    }

    /// Is the token past its expiry instant, by the ambient clock?
    pub fn is_expired(&self) -> bool {
        let now = now_timestamp();
        self.is_expired_at(now)
    }
}

/// Does `t` match a presented token string and still await its single use?
pub open spec fn spec_candidate(t: RefreshToken, tok: Seq<char>) -> bool {
    t.token@ == tok && !t.blacklisted && t.used_at is None
}

/// Index of the first redemption candidate for `tok`, or the length when
/// there is none.
pub open spec fn spec_first_candidate(ts: Seq<RefreshToken>, tok: Seq<char>) -> int
    decreases ts.len(),
{
    if ts.len() == 0 {
        0
    } else if spec_candidate(ts[0], tok) {
        0
    } else {
        1 + spec_first_candidate(ts.drop_first(), tok)
    }
}

/// The first candidate index lies in `[0, len]`, marks a candidate when it
/// is below the length, and nothing before it is a candidate.
pub proof fn lemma_first_candidate(ts: Seq<RefreshToken>, tok: Seq<char>)
    ensures
        0 <= spec_first_candidate(ts, tok) <= ts.len(),
        spec_first_candidate(ts, tok) < ts.len() ==> spec_candidate(
            ts[spec_first_candidate(ts, tok)],
            tok,
        ),
        forall|j: int|
            0 <= j < spec_first_candidate(ts, tok) ==> !spec_candidate(#[trigger] ts[j], tok),
    decreases ts.len(),
{
    if ts.len() > 0 && !spec_candidate(ts[0], tok) {
        lemma_first_candidate(ts.drop_first(), tok);
        assert forall|j: int| 0 <= j < spec_first_candidate(ts, tok) implies !spec_candidate(
            #[trigger] ts[j],
            tok,
        ) by {
            if j > 0 {
                assert(ts.drop_first()[j - 1] == ts[j]);
            }
        };
    }
}

/// The repository the core works against: every operation re-reads current
/// state, so redemption races are single-record races.
pub struct Db {
    /// Wallet records, in insertion order.
    pub wallets: Vec<Wallet>,
    /// Refresh-token records, in insertion order.
    pub tokens: Vec<RefreshToken>,
    /// Next wallet surrogate key.
    pub next_wallet_id: i64,
    /// Next refresh-token surrogate key.
    pub next_token_id: i64,
}

/// Index of the first wallet whose address equals `addr`, or the length.
pub open spec fn spec_first_wallet(ws: Seq<Wallet>, addr: Seq<char>) -> int
    decreases ws.len(),
{
    if ws.len() == 0 {
        0
    } else if ws[0].address@ == addr {
        0
    } else {
        1 + spec_first_wallet(ws.drop_first(), addr)
    }
}

/// The first wallet index lies in `[0, len]`, marks a match when below the
/// length, and nothing before it matches.
pub proof fn lemma_first_wallet(ws: Seq<Wallet>, addr: Seq<char>)
    ensures
        0 <= spec_first_wallet(ws, addr) <= ws.len(),
        spec_first_wallet(ws, addr) < ws.len() ==> ws[spec_first_wallet(ws, addr)].address@
            == addr,
        forall|j: int| 0 <= j < spec_first_wallet(ws, addr) ==> (#[trigger] ws[j]).address@ != addr,
    decreases ws.len(),
{
    if ws.len() > 0 && ws[0].address@ != addr {
        lemma_first_wallet(ws.drop_first(), addr);
        assert forall|j: int| 0 <= j < spec_first_wallet(ws, addr) implies (#[trigger] ws[j]).address@
            != addr by {
            if j > 0 {
                assert(ws.drop_first()[j - 1] == ws[j]);
            }
        };
    }
}

/// Index of the first wallet whose key is `Some(id)`, or the length.
pub open spec fn spec_first_wallet_id(ws: Seq<Wallet>, id: i64) -> int
    decreases ws.len(),
{
    if ws.len() == 0 {
        0
    } else if ws[0].id == Some(id) {
        0
    } else {
        1 + spec_first_wallet_id(ws.drop_first(), id)
    }
}

/// The first wallet-by-key index lies in `[0, len]`, marks a match when
/// below the length, and nothing before it matches.
pub proof fn lemma_first_wallet_id(ws: Seq<Wallet>, id: i64)
    ensures
        0 <= spec_first_wallet_id(ws, id) <= ws.len(),
        spec_first_wallet_id(ws, id) < ws.len() ==> ws[spec_first_wallet_id(ws, id)].id == Some(
            id,
        ),
        forall|j: int| 0 <= j < spec_first_wallet_id(ws, id) ==> (#[trigger] ws[j]).id != Some(id),
    decreases ws.len(),
{
    if ws.len() > 0 && ws[0].id != Some(id) {
        lemma_first_wallet_id(ws.drop_first(), id);
        assert forall|j: int| 0 <= j < spec_first_wallet_id(ws, id) implies (#[trigger] ws[j]).id
            != Some(id) by {
            if j > 0 {
                assert(ws.drop_first()[j - 1] == ws[j]);
            }
        };
    }
}

impl Db {
    /// An empty repository.
    pub fn new() -> (r: Self)
        ensures
            r.wallets@.len() == 0,
            r.tokens@.len() == 0,
            r.next_wallet_id == 1,
            r.next_token_id == 1,
    {
        Db { wallets: Vec::new(), tokens: Vec::new(), next_wallet_id: 1, next_token_id: 1 }
    }

    /// Look a wallet up by its exact address; the first match, as a copy.
    pub fn find_by_address(&self, address: &str) -> (r: Option<Wallet>)
        ensures
            ({
                let ix = spec_first_wallet(self.wallets@, address@);
                if ix < self.wallets@.len() {
                    r == Some(self.wallets@[ix])
                } else {
                    r is None
                }
            }),
    {
        proof {
            lemma_first_wallet(self.wallets@, address@);
        }
        let key = String::from_str(address);
        let mut i: usize = 0;
        while i < self.wallets.len()
            invariant
                i <= self.wallets@.len(),
                key@ == address@,
                forall|j: int| 0 <= j < i ==> (#[trigger] self.wallets@[j]).address@ != address@,
                spec_first_wallet(self.wallets@, address@) >= i,
            decreases self.wallets@.len() - i,
        {
            if self.wallets[i].address == key {
                proof {
                    lemma_first_wallet_bound(self.wallets@, address@, i as int);
                }
                return Some(self.wallets[i].clone());
            }
            proof {
                lemma_first_wallet_step(self.wallets@, address@, i as int);
            }
            i = i + 1;
        }
        None
    }

    /// Look a wallet up by its surrogate key; the first match, as a copy.
    pub fn find_by_id(&self, id: i64) -> (r: Option<Wallet>)
        ensures
            ({
                let ix = spec_first_wallet_id(self.wallets@, id);
                if ix < self.wallets@.len() {
                    r == Some(self.wallets@[ix])
                } else {
                    r is None
                }
            }),
    {
        proof {
            lemma_first_wallet_id(self.wallets@, id);
        }
        let mut i: usize = 0;
        while i < self.wallets.len()
            invariant
                i <= self.wallets@.len(),
                forall|j: int| 0 <= j < i ==> (#[trigger] self.wallets@[j]).id != Some(id),
                spec_first_wallet_id(self.wallets@, id) >= i,
            decreases self.wallets@.len() - i,
        {
            let matches = match self.wallets[i].id {
                Some(v) => v == id,
                None => false,
            };
            if matches {
                proof {
                    lemma_first_wallet_id_bound(self.wallets@, id, i as int);
                }
                return Some(self.wallets[i].clone());
            }
            proof {
                lemma_first_wallet_id_step(self.wallets@, id, i as int);
            }
            i = i + 1;
        }
        None
    }

    /// Persist a wallet: a record without a key gets the next one and is
    /// appended; a record with a key replaces the first record carrying it.
    /// Returns the record's key.
    pub fn save_wallet(&mut self, w: Wallet) -> (id: i64)
        ensures
            final(self).tokens@ == old(self).tokens@,
            final(self).next_token_id == old(self).next_token_id,
            match w.id {
                None => {
                    &&& id == old(self).next_wallet_id
                    &&& final(self).wallets@ == old(self).wallets@.push(
                        Wallet { id: Some(id), ..w },
                    )
                    &&& final(self).next_wallet_id == spec_sat_add(old(self).next_wallet_id, 1)
                },
                Some(key) => {
                    &&& id == key
                    &&& final(self).next_wallet_id == old(self).next_wallet_id
                    &&& ({
                        let ix = spec_first_wallet_id(old(self).wallets@, key);
                        if ix < old(self).wallets@.len() {
                            final(self).wallets@ == old(self).wallets@.update(ix, w)
                        } else {
                            final(self).wallets@ == old(self).wallets@
                        }
                    })
                },
            },
    {
        match w.id {
            None => {
                let id = self.next_wallet_id;
                let mut w = w;
                w.id = Some(id);
                self.wallets.push(w);
                if self.next_wallet_id < i64::MAX {
                    self.next_wallet_id = self.next_wallet_id + 1;
                }
                id
            },
            Some(key) => {
                proof {
                    lemma_first_wallet_id(self.wallets@, key);
                }
                let mut i: usize = 0;
                while i < self.wallets.len()
                    invariant
                        w.id == Some(key),
                        i <= self.wallets@.len(),
                        self.wallets@ == old(self).wallets@,
                        self.tokens@ == old(self).tokens@,
                        self.next_wallet_id == old(self).next_wallet_id,
                        self.next_token_id == old(self).next_token_id,
                        forall|j: int| 0 <= j < i ==> (#[trigger] self.wallets@[j]).id != Some(key),
                        spec_first_wallet_id(self.wallets@, key) >= i,
                    decreases self.wallets@.len() - i,
                {
                    let matches = match self.wallets[i].id {
                        Some(v) => v == key,
                        None => false,
                    };
                    if matches {
                        proof {
                            lemma_first_wallet_id_bound(self.wallets@, key, i as int);
                            assert(spec_first_wallet_id(old(self).wallets@, key) == i as int);
                        }
                        self.wallets[i] = w.clone();
                        return key;
                    }
                    proof {
                        lemma_first_wallet_id_step(self.wallets@, key, i as int);
                    }
                    i = i + 1;
                }
                key
            },
        }
    }
}

/// If everything before `i` fails to match and `ws[i]` matches, `i` is the
/// first wallet-by-address index.
pub proof fn lemma_first_wallet_bound(ws: Seq<Wallet>, addr: Seq<char>, i: int)
    requires
        0 <= i < ws.len(),
        ws[i].address@ == addr,
        forall|j: int| 0 <= j < i ==> (#[trigger] ws[j]).address@ != addr,
    ensures
        spec_first_wallet(ws, addr) == i,
    decreases i,
{
    if i > 0 {
        assert(ws.drop_first()[i - 1] == ws[i]);
        assert forall|j: int| 0 <= j < i - 1 implies (#[trigger] ws.drop_first()[j]).address@
            != addr by {
            assert(ws.drop_first()[j] == ws[j + 1]);
        };
        lemma_first_wallet_bound(ws.drop_first(), addr, i - 1);
    }
}

/// If nothing up to and including `i` matches, the first wallet-by-address
/// index lies beyond `i`.
pub proof fn lemma_first_wallet_step(ws: Seq<Wallet>, addr: Seq<char>, i: int)
    requires
        0 <= i < ws.len(),
        forall|j: int| 0 <= j <= i ==> (#[trigger] ws[j]).address@ != addr,
    ensures
        spec_first_wallet(ws, addr) >= i + 1,
    decreases i,
{
    if i > 0 {
        assert forall|j: int| 0 <= j <= i - 1 implies (#[trigger] ws.drop_first()[j]).address@
            != addr by {
            assert(ws.drop_first()[j] == ws[j + 1]);
        };
        lemma_first_wallet_step(ws.drop_first(), addr, i - 1);
    } else {
        lemma_first_wallet(ws.drop_first(), addr);
    }
}

/// If everything before `i` fails to match and `ws[i]` matches, `i` is the
/// first wallet-by-key index.
pub proof fn lemma_first_wallet_id_bound(ws: Seq<Wallet>, id: i64, i: int)
    requires
        0 <= i < ws.len(),
        ws[i].id == Some(id),
        forall|j: int| 0 <= j < i ==> (#[trigger] ws[j]).id != Some(id),
    ensures
        spec_first_wallet_id(ws, id) == i,
    decreases i,
{
    if i > 0 {
        assert(ws.drop_first()[i - 1] == ws[i]);
        assert forall|j: int| 0 <= j < i - 1 implies (#[trigger] ws.drop_first()[j]).id != Some(
            id,
        ) by {
            assert(ws.drop_first()[j] == ws[j + 1]);
        };
        lemma_first_wallet_id_bound(ws.drop_first(), id, i - 1);
    }
}

/// If nothing up to and including `i` matches, the first wallet-by-key index
/// lies beyond `i`.
pub proof fn lemma_first_wallet_id_step(ws: Seq<Wallet>, id: i64, i: int)
    requires
        0 <= i < ws.len(),
        forall|j: int| 0 <= j <= i ==> (#[trigger] ws[j]).id != Some(id),
    ensures
        spec_first_wallet_id(ws, id) >= i + 1,
    decreases i,
{
    if i > 0 {
        assert forall|j: int| 0 <= j <= i - 1 implies (#[trigger] ws.drop_first()[j]).id != Some(
            id,
        ) by {
            assert(ws.drop_first()[j] == ws[j + 1]);
        };
        lemma_first_wallet_id_step(ws.drop_first(), id, i - 1);
    } else {
        lemma_first_wallet_id(ws.drop_first(), id);
    }
}

/// Index of the first token whose key is `Some(id)`, or the length.
pub open spec fn spec_first_token_id(ts: Seq<RefreshToken>, id: i64) -> int
    decreases ts.len(),
{
    if ts.len() == 0 {
        0
    } else if ts[0].id == Some(id) {
        0
    } else {
        1 + spec_first_token_id(ts.drop_first(), id)
    }
}

/// The first token-by-key index lies in `[0, len]`, marks a match when
/// below the length, and nothing before it matches.
pub proof fn lemma_first_token_id(ts: Seq<RefreshToken>, id: i64)
    ensures
        0 <= spec_first_token_id(ts, id) <= ts.len(),
        spec_first_token_id(ts, id) < ts.len() ==> ts[spec_first_token_id(ts, id)].id == Some(id),
        forall|j: int| 0 <= j < spec_first_token_id(ts, id) ==> (#[trigger] ts[j]).id != Some(id),
    decreases ts.len(),
{
    if ts.len() > 0 && ts[0].id != Some(id) {
        lemma_first_token_id(ts.drop_first(), id);
        assert forall|j: int| 0 <= j < spec_first_token_id(ts, id) implies (#[trigger] ts[j]).id
            != Some(id) by {
            if j > 0 {
                assert(ts.drop_first()[j - 1] == ts[j]);
            }
        };
    }
}

/// If everything before `i` fails to match and `ts[i]` matches, `i` is the
/// first token-by-key index.
pub proof fn lemma_first_token_id_bound(ts: Seq<RefreshToken>, id: i64, i: int)
    requires
        0 <= i < ts.len(),
        ts[i].id == Some(id),
        forall|j: int| 0 <= j < i ==> (#[trigger] ts[j]).id != Some(id),
    ensures
        spec_first_token_id(ts, id) == i,
    decreases i,
{
    if i > 0 {
        assert(ts.drop_first()[i - 1] == ts[i]);
        assert forall|j: int| 0 <= j < i - 1 implies (#[trigger] ts.drop_first()[j]).id != Some(
            id,
        ) by {
            assert(ts.drop_first()[j] == ts[j + 1]);
        };
        lemma_first_token_id_bound(ts.drop_first(), id, i - 1);
    }
}

/// If nothing up to and including `i` matches, the first token-by-key index
/// lies beyond `i`.
pub proof fn lemma_first_token_id_step(ts: Seq<RefreshToken>, id: i64, i: int)
    requires
        0 <= i < ts.len(),
        forall|j: int| 0 <= j <= i ==> (#[trigger] ts[j]).id != Some(id),
    ensures
        spec_first_token_id(ts, id) >= i + 1,
    decreases i,
{
    if i > 0 {
        assert forall|j: int| 0 <= j <= i - 1 implies (#[trigger] ts.drop_first()[j]).id != Some(
            id,
        ) by {
            assert(ts.drop_first()[j] == ts[j + 1]);
        };
        lemma_first_token_id_step(ts.drop_first(), id, i - 1);
    } else {
        lemma_first_token_id(ts.drop_first(), id);
    }
}

/// If everything before `i` is no candidate and `ts[i]` is one, `i` is the
/// first candidate index.
pub proof fn lemma_first_candidate_bound(ts: Seq<RefreshToken>, tok: Seq<char>, i: int)
    requires
        0 <= i < ts.len(),
        spec_candidate(ts[i], tok),
        forall|j: int| 0 <= j < i ==> !spec_candidate(#[trigger] ts[j], tok),
    ensures
        spec_first_candidate(ts, tok) == i,
    decreases i,
{
    if i > 0 {
        assert(ts.drop_first()[i - 1] == ts[i]);
        assert forall|j: int| 0 <= j < i - 1 implies !spec_candidate(
            #[trigger] ts.drop_first()[j],
            tok,
        ) by {
            assert(ts.drop_first()[j] == ts[j + 1]);
        };
        lemma_first_candidate_bound(ts.drop_first(), tok, i - 1);
    }
}

/// If nothing up to and including `i` is a candidate, the first candidate
/// index lies beyond `i`.
pub proof fn lemma_first_candidate_step(ts: Seq<RefreshToken>, tok: Seq<char>, i: int)
    requires
        0 <= i < ts.len(),
        forall|j: int| 0 <= j <= i ==> !spec_candidate(#[trigger] ts[j], tok),
    ensures
        spec_first_candidate(ts, tok) >= i + 1,
    decreases i,
{
    if i > 0 {
        assert forall|j: int| 0 <= j <= i - 1 implies !spec_candidate(
            #[trigger] ts.drop_first()[j],
            tok,
        ) by {
            assert(ts.drop_first()[j] == ts[j + 1]);
        };
        lemma_first_candidate_step(ts.drop_first(), tok, i - 1);
    } else {
        lemma_first_candidate(ts.drop_first(), tok);
    }
}

/// A sequence without a candidate for `tok` has its first candidate index at
/// the length.
pub proof fn lemma_no_candidate(ts: Seq<RefreshToken>, tok: Seq<char>)
    requires
        forall|j: int| 0 <= j < ts.len() ==> !spec_candidate(#[trigger] ts[j], tok),
    ensures
        spec_first_candidate(ts, tok) == ts.len(),
    decreases ts.len(),
{
    if ts.len() > 0 {
        assert forall|j: int| 0 <= j < ts.drop_first().len() implies !spec_candidate(
            #[trigger] ts.drop_first()[j],
            tok,
        ) by {
            assert(ts.drop_first()[j] == ts[j + 1]);
        };
        lemma_no_candidate(ts.drop_first(), tok);
    }
}

impl Db {
    /// Persist a refresh token: a record without a key gets the next one and
    /// is appended; a record with a key replaces the first record carrying
    /// it. Returns the record's key.
    pub fn save_refresh_token(&mut self, t: RefreshToken) -> (id: i64)
        ensures
            final(self).wallets@ == old(self).wallets@,
            final(self).next_wallet_id == old(self).next_wallet_id,
            match t.id {
                None => {
                    &&& id == old(self).next_token_id
                    &&& final(self).tokens@ == old(self).tokens@.push(
                        RefreshToken { id: Some(id), ..t },
                    )
                    &&& final(self).next_token_id == spec_sat_add(old(self).next_token_id, 1)
                },
                Some(key) => {
                    &&& id == key
                    &&& final(self).next_token_id == old(self).next_token_id
                    &&& ({
                        let ix = spec_first_token_id(old(self).tokens@, key);
                        if ix < old(self).tokens@.len() {
                            final(self).tokens@ == old(self).tokens@.update(ix, t)
                        } else {
                            final(self).tokens@ == old(self).tokens@
                        }
                    })
                },
            },
    {
        match t.id {
            None => {
                let id = self.next_token_id;
                let mut t = t;
                t.id = Some(id);
                self.tokens.push(t);
                if self.next_token_id < i64::MAX {
                    self.next_token_id = self.next_token_id + 1;
                }
                id
            },
            Some(key) => {
                proof {
                    lemma_first_token_id(self.tokens@, key);
                }
                let mut i: usize = 0;
                while i < self.tokens.len()
                    invariant
                        t.id == Some(key),
                        i <= self.tokens@.len(),
                        self.tokens@ == old(self).tokens@,
                        self.wallets@ == old(self).wallets@,
                        self.next_wallet_id == old(self).next_wallet_id,
                        self.next_token_id == old(self).next_token_id,
                        forall|j: int| 0 <= j < i ==> (#[trigger] self.tokens@[j]).id != Some(key),
                        spec_first_token_id(self.tokens@, key) >= i,
                    decreases self.tokens@.len() - i,
                {
                    let matches_key = match self.tokens[i].id {
                        Some(v) => v == key,
                        None => false,
                    };
                    if matches_key {
                        proof {
                            lemma_first_token_id_bound(self.tokens@, key, i as int);
                        }
                        self.tokens[i] = t.clone();
                        return key;
                    }
                    proof {
                        lemma_first_token_id_step(self.tokens@, key, i as int);
                    }
                    i = i + 1;
                }
                key
            },
        }
    }

    /// Look up a token presented for redemption: the first record matching
    /// the string that is neither blacklisted nor used. A match already past
    /// its expiry is deleted and never returned.
    pub fn find_refresh_token(&mut self, token: &str, now: i64) -> (r: Option<RefreshToken>)
        ensures
            final(self).wallets@ == old(self).wallets@,
            final(self).next_wallet_id == old(self).next_wallet_id,
            final(self).next_token_id == old(self).next_token_id,
            ({
                let ix = spec_first_candidate(old(self).tokens@, token@);
                if ix == old(self).tokens@.len() {
                    &&& r is None
                    &&& final(self).tokens@ == old(self).tokens@
                } else if old(self).tokens@[ix].expires_at <= now {
                    &&& r is None
                    &&& final(self).tokens@ == old(self).tokens@.remove(ix)
                } else {
                    &&& r == Some(old(self).tokens@[ix])
                    &&& final(self).tokens@ == old(self).tokens@
                }
            }),
    {
        proof {
            lemma_first_candidate(self.tokens@, token@);
        }
        let key = String::from_str(token);
        let mut i: usize = 0;
        while i < self.tokens.len()
            invariant
                key@ == token@,
                i <= self.tokens@.len(),
                self.tokens@ == old(self).tokens@,
                self.wallets@ == old(self).wallets@,
                self.next_wallet_id == old(self).next_wallet_id,
                self.next_token_id == old(self).next_token_id,
                forall|j: int| 0 <= j < i ==> !spec_candidate(#[trigger] self.tokens@[j], token@),
                spec_first_candidate(self.tokens@, token@) >= i,
            decreases self.tokens@.len() - i,
        {
            let cand = self.tokens[i].token == key && !self.tokens[i].blacklisted
                && self.tokens[i].used_at.is_none();
            if cand {
                proof {
                    lemma_first_candidate_bound(self.tokens@, token@, i as int);
                }
                if self.tokens[i].is_expired_at(now) {
                    self.tokens.remove(i);
                    return None;
                }
                return Some(self.tokens[i].clone());
            }
            proof {
                lemma_first_candidate_step(self.tokens@, token@, i as int);
            }
            i = i + 1;
        }
        None
    }

    /// Mark every record carrying this token string as used at `now`; used
    /// tokens stay used, so redemption is single-use.
    pub fn set_used(&mut self, token: &str, now: i64)
        ensures
            final(self).wallets@ == old(self).wallets@,
            final(self).next_wallet_id == old(self).next_wallet_id,
            final(self).next_token_id == old(self).next_token_id,
            final(self).tokens@.len() == old(self).tokens@.len(),
            forall|j: int|
                0 <= j < old(self).tokens@.len() ==> final(self).tokens@[j] == (
                if (#[trigger] old(self).tokens@[j]).token@ == token@ {
                    RefreshToken { used_at: Some(now), ..old(self).tokens@[j] }
                } else {
                    old(self).tokens@[j]
                }),
    {
        let key = String::from_str(token);
        let mut i: usize = 0;
        while i < self.tokens.len()
            invariant
                key@ == token@,
                i <= self.tokens@.len(),
                self.tokens@.len() == old(self).tokens@.len(),
                self.wallets@ == old(self).wallets@,
                self.next_wallet_id == old(self).next_wallet_id,
                self.next_token_id == old(self).next_token_id,
                forall|j: int|
                    0 <= j < i ==> self.tokens@[j] == (
                    if (#[trigger] old(self).tokens@[j]).token@ == token@ {
                        RefreshToken { used_at: Some(now), ..old(self).tokens@[j] }
                    } else {
                        old(self).tokens@[j]
                    }),
                forall|j: int|
                    i <= j < old(self).tokens@.len() ==> (#[trigger] self.tokens@[j]) == old(
                    self,
                ).tokens@[j],
            decreases self.tokens@.len() - i,
        {
            if self.tokens[i].token == key {
                let mut t = self.tokens[i].clone();
                t.used_at = Some(now);
                self.tokens[i] = t;
            }
            i = i + 1;
        }
    }

    /// Blacklist every record carrying this token string, whatever its use
    /// or expiry state; blacklisted tokens stay blacklisted.
    pub fn blacklist(&mut self, token: &str)
        ensures
            final(self).wallets@ == old(self).wallets@,
            final(self).next_wallet_id == old(self).next_wallet_id,
            final(self).next_token_id == old(self).next_token_id,
            final(self).tokens@.len() == old(self).tokens@.len(),
            forall|j: int|
                0 <= j < old(self).tokens@.len() ==> final(self).tokens@[j] == (
                if (#[trigger] old(self).tokens@[j]).token@ == token@ {
                    RefreshToken { blacklisted: true, ..old(self).tokens@[j] }
                } else {
                    old(self).tokens@[j]
                }),
    {
        let key = String::from_str(token);
        let mut i: usize = 0;
        while i < self.tokens.len()
            invariant
                key@ == token@,
                i <= self.tokens@.len(),
                self.tokens@.len() == old(self).tokens@.len(),
                self.wallets@ == old(self).wallets@,
                self.next_wallet_id == old(self).next_wallet_id,
                self.next_token_id == old(self).next_token_id,
                forall|j: int|
                    0 <= j < i ==> self.tokens@[j] == (
                    if (#[trigger] old(self).tokens@[j]).token@ == token@ {
                        RefreshToken { blacklisted: true, ..old(self).tokens@[j] }
                    } else {
                        old(self).tokens@[j]
                    }),
                forall|j: int|
                    i <= j < old(self).tokens@.len() ==> (#[trigger] self.tokens@[j]) == old(
                    self,
                ).tokens@[j],
            decreases self.tokens@.len() - i,
        {
            if self.tokens[i].token == key {
                let mut t = self.tokens[i].clone();
                t.blacklisted = true;
                self.tokens[i] = t;
            }
            i = i + 1;
        }
    }
}

/// Refresh single-use: once every record carrying a token string is marked
/// used, a lookup of that string finds no redemption candidate, whatever the
/// clock then reads; redeeming the same token a second time must fail.
pub proof fn lemma_refresh_single_use(
    ts: Seq<RefreshToken>,
    ts_used: Seq<RefreshToken>,
    tok: Seq<char>,
    now: i64,
)
    requires
        ts_used.len() == ts.len(),
        forall|j: int|
            0 <= j < ts.len() ==> ts_used[j] == (
            if (#[trigger] ts[j]).token@ == tok {
                RefreshToken { used_at: Some(now), ..ts[j] }
            } else {
                ts[j]
            }),
    ensures
        spec_first_candidate(ts_used, tok) == ts_used.len(),
{
    assert forall|j: int| 0 <= j < ts_used.len() implies !spec_candidate(
        #[trigger] ts_used[j],
        tok,
    ) by {
        if ts[j].token@ == tok {
            assert(ts_used[j].used_at is Some);
        } else {
            assert(ts_used[j].token@ != tok);
        }
    };
    lemma_no_candidate(ts_used, tok);
}

/// Blacklist independence: once every record carrying a token string is
/// blacklisted, a lookup of that string finds no redemption candidate, even
/// though no `used_at` mark was touched.
pub proof fn lemma_blacklist_blocks(
    ts: Seq<RefreshToken>,
    ts_bl: Seq<RefreshToken>,
    tok: Seq<char>,
)
    requires
        ts_bl.len() == ts.len(),
        forall|j: int|
            0 <= j < ts.len() ==> ts_bl[j] == (
            if (#[trigger] ts[j]).token@ == tok {
                RefreshToken { blacklisted: true, ..ts[j] }
            } else {
                ts[j]
            }),
    ensures
        spec_first_candidate(ts_bl, tok) == ts_bl.len(),
        forall|j: int| 0 <= j < ts.len() ==> (#[trigger] ts_bl[j]).used_at == ts[j].used_at,
{
    assert forall|j: int| 0 <= j < ts_bl.len() implies !spec_candidate(
        #[trigger] ts_bl[j],
        tok,
    ) by {
        if ts[j].token@ == tok {
            assert(ts_bl[j].blacklisted);
        } else {
            assert(ts_bl[j].token@ != tok);
        }
    };
    lemma_no_candidate(ts_bl, tok);
}


} // verus!
