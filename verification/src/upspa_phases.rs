//! The phases of an account: setup, registration, secret update, password update.
use vstd::prelude::*;
use vstd::string::StringSliceAdditionalSpecFns;

use crate::aead::{self, opened, sealed, Blob, CtBlob};
use crate::bytes::{self, cat2, cat3, push_bytes, u64_le, u64_of_le};
use crate::field::{after_draws, lemma_drawn_len, share_vals, shares_of};
use crate::group::Group;
use crate::hash::{self, blake3_hash};
use crate::interpolation::eval;
use crate::keys::{self, ed25519_public, ed25519_sign, ed25519_verify, Signature, SigningKey};
use crate::provider::{
    csp_layout, csp_layout_reads_back, csp_message, csp_plaintext, csp_write_message,
    hash_suid_shared, hash_vinfo, master_layout, master_layout_reads_back, master_message,
    master_plaintext, master_update_message, parse_master_plaintext, suid_of, uid_hash, vinfo_of,
    CspState, LoginServer, MasterRecord, MasterState, PhaseError, Provider, ProviderState,
    CIPHERID_PT_LEN, CIPHERSP_PT_LEN,
};
use crate::quorum::{quorum, quorum_size, valid_threshold, validate_threshold};
use crate::ristretto::{order, ristretto_mul, Point};
use crate::rng::{Rng, RngState};
use crate::store::Store;
use crate::toprf::{self, finalized, key_poly, password_point, scalar_drawn};
use crate::upspa_abd::{
    accepts, acks, as_ints, good_places, lemma_online_except, online, password_key, stored, System,
    SystemState, Write, WriteState,
};

verus! {

/// What a phase returns and leaves behind.
pub struct Outcome {
    pub result: Result<Seq<u8>, PhaseError>,
    pub state: SystemState,
    pub rng: RngState,
}

/// A result with its bytes taken as a sequence.
pub open spec fn viewed(r: Result<[u8; 32], PhaseError>) -> Result<Seq<u8>, PhaseError> {
    match r {
        Ok(b) => Ok(b@),
        Err(e) => Err(e),
    }
}

/// The signing key in a master state.
pub open spec fn ssk_in(pt: Seq<u8>) -> Seq<u8> {
    pt.subrange(0, 32)
}

/// The secret for account identifiers in a master state.
pub open spec fn rsp_in(pt: Seq<u8>) -> Seq<u8> {
    pt.subrange(32, 64)
}

/// The key for login secrets in a master state.
pub open spec fn fk_in(pt: Seq<u8>) -> Seq<u8> {
    pt.subrange(64, 96)
}

/// The counter in a master state.
pub open spec fn ctrid_in(pt: Seq<u8>) -> u64 {
    u64_of_le(pt.subrange(96, 104))
}

/// The next counter; the largest one is followed by zero.
pub open spec fn next_counter(ctr: u64) -> u64 {
    if ctr == u64::MAX {
        0
    } else {
        (ctr + 1) as u64
    }
}

impl SystemState {
    /// The account identifier that a master state gives.
    pub open spec fn suid_in(self, pt: Seq<u8>) -> Seq<u8> {
        suid_of(rsp_in(pt), self.lsj)
    }

    /// The encrypted login secret drawn from `rng` and given the counter `ctr`.
    pub open spec fn fresh_csp(self, pt: Seq<u8>, ctr: u64, rng: RngState) -> Blob {
        sealed(
            fk_in(pt),
            self.ciphersp_aad,
            csp_layout(rng.bytes(32), ctr),
            rng.skip(32).bytes(24),
        )
    }

    /// The user's signature on a login secret.
    pub open spec fn csp_sig(self, pt: Seq<u8>, blob: Blob, ctr: u64) -> Seq<u8> {
        ed25519_sign(ssk_in(pt), csp_message(self.suid_in(pt), blob, ctr))
    }

    /// The first write of a login secret.
    pub open spec fn register_write(self, pt: Seq<u8>, rng: RngState) -> WriteState {
        let blob = self.fresh_csp(pt, 0, rng);
        WriteState::Register {
            suid: self.suid_in(pt),
            ciphersp: blob,
            ctr: 0,
            sig: self.csp_sig(pt, blob, 0),
        }
    }

    /// Registration: the unlocked master state gives the identifier and the keys, a
    /// fresh login secret goes to a quorum, and its verification value to the login
    /// server, which must not have one yet.
    pub open spec fn registration(self, rng: RngState) -> Outcome {
        let rng1 = self.unlock_rng(rng);
        match self.unlocked(self.password, self.pwd_point, rng) {
            Err(e) => Outcome { result: Err(e), state: self, rng: rng1 },
            Ok(pt) => {
                let w = self.register_write(pt, rng1);
                let after = self.after_write(w);
                let rng2 = rng1.skip(32).skip(24);
                let vinfo = vinfo_of(rng1.bytes(32), self.lsj);
                match self.write_result(w) {
                    Err(e) => Outcome { result: Err(e), state: after, rng: rng2 },
                    Ok(n) => if self.login is Some {
                        Outcome {
                            result: Err(PhaseError::LoginServerRejected),
                            state: after,
                            rng: rng2,
                        }
                    } else {
                        let done = SystemState { login: Some(vinfo), ..after };
                        Outcome {
                            result: Ok(
                                blake3_hash(
                                    "upspa/abd/registration/result/v1".spec_bytes()
                                        + self.suid_in(pt) + vinfo + w->Register_sig + u64_le(
                                        n as u64,
                                    ) + u64_le(done.online_count() as u64),
                                ),
                            ),
                            state: done,
                            rng: rng2,
                        }
                    },
                }
            },
        }
    }

    /// The newest login secret among the first `k` of the given providers, or the
    /// first failure to read one.
    pub open spec fn newest_secret(
        self,
        suid: Seq<u8>,
        fk: Seq<u8>,
        idx: Seq<int>,
        k: int,
    ) -> Result<Option<(u64, Seq<u8>)>, PhaseError>
        decreases k,
    {
        if k <= 0 {
            Ok(None)
        } else {
            match self.newest_secret(suid, fk, idx, k - 1) {
                Err(e) => Err(e),
                Ok(best) => {
                    let db = self.providers[idx[k - 1]].csp_db;
                    if !db.dom().contains(suid) {
                        Err(PhaseError::MissingCipherSp)
                    } else {
                        match opened(fk, self.ciphersp_aad, db[suid].ciphersp) {
                            None => Err(PhaseError::DecryptFailed),
                            Some(pt) => {
                                let ctr = u64_of_le(pt.subrange(32, 40));
                                match best {
                                    Some((held, _)) if ctr < held => Ok(best),
                                    _ => Ok(Some((ctr, pt.subrange(0, 32)))),
                                }
                            },
                        }
                    }
                },
            }
        }
    }

    /// A later write of a login secret.
    pub open spec fn update_write(self, pt: Seq<u8>, ctr: u64, rng: RngState) -> WriteState {
        let blob = self.fresh_csp(pt, ctr, rng);
        WriteState::Update {
            suid: self.suid_in(pt),
            ciphersp: blob,
            ctr,
            sig: self.csp_sig(pt, blob, ctr),
        }
    }

    /// The newest login secret that `tsp` online providers hold.
    pub open spec fn secret_read(self, pt: Seq<u8>) -> Result<Option<(u64, Seq<u8>)>, PhaseError> {
        self.newest_secret(
            self.suid_in(pt),
            fk_in(pt),
            self.chosen(self.tsp),
            self.chosen(self.tsp).len() as int,
        )
    }

    /// Secret update: the newest login secret of `tsp` online providers is replaced, at a
    /// quorum and at the login server, by a fresh one with the next counter.
    pub open spec fn secret_update(self, rng: RngState) -> Outcome {
        let rng1 = self.unlock_rng(rng);
        match self.unlocked(self.password, self.pwd_point, rng) {
            Err(e) => Outcome { result: Err(e), state: self, rng: rng1 },
            Ok(pt) => match self.secret_read(pt) {
                Err(e) => Outcome { result: Err(e), state: self, rng: rng1 },
                Ok(None) => Outcome {
                    result: Err(PhaseError::MissingCipherSp),
                    state: self,
                    rng: rng1,
                },
                Ok(Some((old_ctr, old_rlsj))) => {
                    let new_ctr = next_counter(old_ctr);
                    let w = self.update_write(pt, new_ctr, rng1);
                    let after = self.after_write(w);
                    let rng2 = rng1.skip(32).skip(24);
                    let old_vinfo = vinfo_of(old_rlsj, self.lsj);
                    let new_vinfo = vinfo_of(rng1.bytes(32), self.lsj);
                    match self.write_result(w) {
                        Err(e) => Outcome { result: Err(e), state: after, rng: rng2 },
                        Ok(n) => if self.login != Some(old_vinfo) {
                            Outcome {
                                result: Err(PhaseError::LoginServerRejected),
                                state: after,
                                rng: rng2,
                            }
                        } else {
                            Outcome {
                                result: Ok(
                                    blake3_hash(
                                        "upspa/abd/secret_update/result/v1".spec_bytes()
                                            + self.suid_in(pt) + u64_le(old_ctr) + u64_le(new_ctr)
                                            + new_vinfo + w->Update_sig + u64_le(n as u64),
                                    ),
                                ),
                                state: SystemState { login: Some(new_vinfo), ..after },
                                rng: rng2,
                            }
                        },
                    }
                },
            },
        }
    }

    /// The master state re-encrypted under a key, with the next counter.
    pub open spec fn rekeyed(self, pt: Seq<u8>, key: Seq<u8>, rng: RngState) -> Blob {
        sealed(
            key,
            self.cipherid_aad,
            master_layout(ssk_in(pt), rsp_in(pt), fk_in(pt), next_counter(ctrid_in(pt))),
            rng.bytes(24),
        )
    }

    /// The write of a re-encrypted master state.
    pub open spec fn master_write(self, pt: Seq<u8>, blob: Blob) -> WriteState {
        let ctrid = next_counter(ctrid_in(pt));
        WriteState::Master {
            cipherid: blob,
            ctrid,
            sig: ed25519_sign(ssk_in(pt), master_message(self.uid, blob, ctrid)),
        }
    }

    /// The write that a password update makes: the master state under the key of the
    /// new password. The generator is left as given.
    pub open spec fn password_update_write(
        self,
        rng: RngState,
    ) -> (Result<WriteState, PhaseError>, RngState) {
        let rng1 = self.unlock_rng(rng);
        match self.unlocked(self.password, self.pwd_point, rng) {
            Err(e) => (Err(e), rng1),
            Ok(pt) => {
                let key = self.derived_key(
                    self.new_password,
                    self.new_pwd_point,
                    scalar_drawn(rng1),
                );
                let rng2 = rng1.skip(64);
                (Ok(self.master_write(pt, self.rekeyed(pt, key, rng2))), rng2.skip(24))
            },
        }
    }

    /// Password update: the master state, under the key of the new password and with the
    /// next counter, goes to a quorum.
    pub open spec fn password_update(self, rng: RngState) -> Outcome {
        match self.password_update_write(rng) {
            (Err(e), rng1) => Outcome { result: Err(e), state: self, rng: rng1 },
            (Ok(w), rng1) => Outcome {
                result: match self.write_result(w) {
                    Err(e) => Err(e),
                    Ok(n) => Ok(
                        blake3_hash(
                            "upspa/abd/password_update/result/v1".spec_bytes() + u64_le(
                                w->Master_ctrid,
                            ) + w->Master_sig + u64_le(n as u64),
                        ),
                    ),
                },
                state: self.after_write(w),
                rng: rng1,
            },
        }
    }

    /// The providers hold shares of one secret and know the user's key, a quorum can be
    /// formed, and every master state opens under the key of the password and holds
    /// the user's signing key.
    pub open spec fn sound(self, c: Seq<int>) -> bool {
        &&& self.shared_by(c)
        &&& 0 < self.tsp <= self.qsp
        &&& forall|i: int|
            0 <= i < self.providers.len() ==> {
                &&& (#[trigger] self.providers[i]).svk == ed25519_public(self.user_ssk)
                &&& opened(
                    password_key(self.password, self.pwd_point, c),
                    self.cipherid_aad,
                    self.providers[i].master.cipherid,
                ) matches Some(pt) && pt.len() == CIPHERID_PT_LEN && ssk_in(pt) == self.user_ssk
            }
    }

    /// What the first provider's master state holds under the key of the password.
    pub open spec fn master_text(self, c: Seq<int>) -> Seq<u8> {
        opened(
            password_key(self.password, self.pwd_point, c),
            self.cipherid_aad,
            self.providers[0].master.cipherid,
        )->Some_0
    }

    /// All master states hold the same under the key of the password.
    pub open spec fn one_master(self, c: Seq<int>) -> bool {
        forall|i: int|
            0 <= i < self.providers.len() ==> opened(
                password_key(self.password, self.pwd_point, c),
                self.cipherid_aad,
                (#[trigger] self.providers[i]).master.cipherid,
            ) == Some(self.master_text(c))
    }

    /// No provider holds a login secret.
    pub open spec fn unregistered(self) -> bool {
        &&& self.login is None
        &&& forall|i: int|
            0 <= i < self.providers.len() ==> (#[trigger] self.providers[i]).csp_db == Map::<
                Seq<u8>,
                CspState,
            >::empty()
    }

    /// The providers at the given places hold the login secret `rlsj` with the counter
    /// `ctr`, and the login server its verification value.
    pub open spec fn quorum_holds_secret(
        self,
        idx: Seq<int>,
        pt: Seq<u8>,
        rlsj: Seq<u8>,
        ctr: u64,
    ) -> bool {
        &&& self.login == Some(vinfo_of(rlsj, self.lsj))
        &&& rlsj.len() == 32
        &&& idx.len() == self.qsp
        &&& forall|j: int|
            0 <= j < idx.len() ==> {
                let p = self.providers[#[trigger] idx[j]];
                &&& p.has_active(self.suid_in(pt))
                &&& p.csp_db[self.suid_in(pt)].ctr == ctr
                &&& opened(
                    fk_in(pt),
                    self.ciphersp_aad,
                    p.csp_db[self.suid_in(pt)].ciphersp,
                ) == Some(csp_layout(rlsj, ctr))
            }
    }

    /// The providers at the given places hold, under the key `key`, the secrets of the
    /// master state `pt` with the counter `ctrid`.
    pub open spec fn quorum_holds_master(
        self,
        idx: Seq<int>,
        key: Seq<u8>,
        pt: Seq<u8>,
        ctrid: u64,
    ) -> bool {
        &&& idx.len() == self.qsp
        &&& forall|j: int|
            0 <= j < idx.len() ==> {
                let p = self.providers[#[trigger] idx[j]];
                &&& p.master.ctrid == ctrid
                &&& opened(key, self.cipherid_aad, p.master.cipherid) == Some(
                    master_layout(ssk_in(pt), rsp_in(pt), fk_in(pt), ctrid),
                )
            }
    }

    /// Every provider holds the login secret `rlsj` with the counter `ctr`, and the login
    /// server its verification value.
    pub open spec fn all_hold_secret(self, pt: Seq<u8>, rlsj: Seq<u8>, ctr: u64) -> bool {
        &&& self.login == Some(vinfo_of(rlsj, self.lsj))
        &&& rlsj.len() == 32
        &&& forall|i: int|
            0 <= i < self.providers.len() ==> {
                let p = #[trigger] self.providers[i];
                &&& p.has_active(self.suid_in(pt))
                &&& p.csp_db[self.suid_in(pt)].ctr == ctr
                &&& opened(
                    fk_in(pt),
                    self.ciphersp_aad,
                    p.csp_db[self.suid_in(pt)].ciphersp,
                ) == Some(csp_layout(rlsj, ctr))
            }
    }

    /// All providers hold a master state whose counter is the encrypted one and not the
    /// largest.
    pub open spec fn counters_agree(self, c: Seq<int>) -> bool {
        forall|i: int, j: int|
            0 <= i < self.providers.len() && 0 <= j < self.providers.len() ==> {
                let a = (#[trigger] self.providers[i]).master;
                let b = (#[trigger] self.providers[j]).master;
                &&& opened(
                    password_key(self.password, self.pwd_point, c),
                    self.cipherid_aad,
                    a.cipherid,
                ) matches Some(pt) && b.ctrid == ctrid_in(pt)
                &&& b.ctrid < u64::MAX
            }
    }
}

/// At most `k` of `k` providers accept, and `k` only where each does.
pub proof fn lemma_acks(
    ps: Seq<ProviderState>,
    idx: Seq<int>,
    uid: Seq<u8>,
    w: WriteState,
    k: int,
)
    requires
        0 <= k <= idx.len(),
    ensures
        acks(ps, idx, uid, w, k) <= k,
        acks(ps, idx, uid, w, k) == k <==> forall|j: int|
            0 <= j < k ==> accepts(ps[#[trigger] idx[j]], uid, w),
    decreases k,
{
    if k > 0 {
        lemma_acks(ps, idx, uid, w, k - 1);
        if acks(ps, idx, uid, w, k) == k {
            assert forall|j: int| 0 <= j < k implies accepts(ps[#[trigger] idx[j]], uid, w) by {
                if j < k - 1 {
                    assert(accepts(ps[idx[j]], uid, w));
                }
            }
        } else {
            if accepts(ps[idx[k - 1]], uid, w) {
                let j = choose|j: int| 0 <= j < k - 1 && !accepts(ps[#[trigger] idx[j]], uid, w);
                assert(!accepts(ps[idx[j]], uid, w));
            } else {
                assert(!accepts(ps[idx[k - 1]], uid, w));
            }
        }
    }
}

/// A write succeeds exactly where a quorum is online and each member of the chosen
/// quorum accepts; then each member holds what was written.
pub proof fn write_succeeds_iff_quorum_accepts(s: SystemState, w: WriteState)
    ensures
        s.write_result(w) is Ok <==> online(s.providers).len() >= s.qsp && forall|j: int|
            0 <= j < s.qsp ==> accepts(s.providers[#[trigger] s.chosen(s.qsp)[j]], s.uid, w),
        s.write_result(w) is Ok ==> s.write_result(w) == Ok::<usize, PhaseError>(s.qsp)
            && forall|j: int|
            0 <= j < s.qsp ==> s.after_write(w).providers[#[trigger] s.chosen(s.qsp)[j]] == stored(
                s.providers[s.chosen(s.qsp)[j]],
                w,
            ),
{
    lemma_online_except(s.providers, -1);
    let idx = s.chosen(s.qsp);
    if online(s.providers).len() >= s.qsp {
        assert(idx.len() == s.qsp);
        assert(good_places(s.providers, -1, idx));
        lemma_acks(s.providers, idx, s.uid, w, idx.len() as int);
        if s.write_result(w) is Ok {
            assert forall|j: int| 0 <= j < s.qsp implies s.after_write(w).providers[#[trigger] idx[j]]
                == stored(s.providers[idx[j]], w) by {
                assert(idx.contains(idx[j]));
                assert(accepts(s.providers[idx[j]], s.uid, w));
            }
        }
    }
}

/// A write changes no provider outside the chosen quorum, and at a member only what an
/// accepted write stores.
pub proof fn writes_stay_in_the_quorum(s: SystemState, w: WriteState, i: int)
    requires
        0 <= i < s.providers.len(),
    ensures
        s.after_write(w).providers.len() == s.providers.len(),
        !s.chosen(s.qsp).contains(i) ==> s.after_write(w).providers[i] == s.providers[i],
        s.after_write(w).providers[i] == s.providers[i] || s.after_write(w).providers[i] == stored(
            s.providers[i],
            w,
        ),
        !s.providers[i].online ==> s.after_write(w).providers[i] == s.providers[i],
{
    lemma_online_except(s.providers, -1);
    let idx = s.chosen(s.qsp);
    if online(s.providers).len() >= s.qsp && idx.contains(i) {
        let j = idx.index_of(i);
        assert(online(s.providers)[j] == i);
    }
}

/// A sound account opens under the key of its password.
proof fn lemma_sound_unlocks(s: SystemState, c: Seq<int>, rng: RngState)
    requires
        s.sound(c),
        online(s.providers).len() >= s.qsp,
        s.derived_key(s.password, s.pwd_point, scalar_drawn(rng)) == password_key(
            s.password,
            s.pwd_point,
            c,
        ),
    ensures
        s.unlocked(s.password, s.pwd_point, rng) matches Ok(pt) && pt.len() == CIPHERID_PT_LEN
            && ssk_in(pt) == s.user_ssk && opened(
            password_key(s.password, s.pwd_point, c),
            s.cipherid_aad,
            s.providers[online(s.providers)[0]].master.cipherid,
        ) == Some(pt),
{
    lemma_online_except(s.providers, -1);
    let coord = s.providers[online(s.providers)[0]];
    assert(coord.svk == ed25519_public(s.user_ssk));
}

/// Where every provider holds one login secret, it is what is read.
proof fn lemma_reads_held_secret(
    s: SystemState,
    pt: Seq<u8>,
    rlsj: Seq<u8>,
    ctr: u64,
    idx: Seq<int>,
    k: int,
)
    requires
        s.all_hold_secret(pt, rlsj, ctr),
        good_places(s.providers, -1, idx),
        0 <= k <= idx.len(),
    ensures
        s.newest_secret(s.suid_in(pt), fk_in(pt), idx, k) == if k == 0 {
            Ok::<Option<(u64, Seq<u8>)>, PhaseError>(None)
        } else {
            Ok(Some((ctr, rlsj)))
        },
    decreases k,
{
    if k > 0 {
        lemma_reads_held_secret(s, pt, rlsj, ctr, idx, k - 1);
        csp_layout_reads_back(rlsj, ctr);
        let p = s.providers[idx[k - 1]];
        assert(p.has_active(s.suid_in(pt)));
    }
}

/// The account that `System::new` sets up.
pub open spec fn fresh_system(nsp: usize, tsp: usize, seed: Seq<u8>) -> SystemState {
    let rng0 = RngState::start(seed);
    let poly = key_poly(tsp as nat, rng0);
    let rng1 = after_draws(rng0.skip(64), (tsp - 1) as nat);
    let ssk = rng1.bytes(32);
    let rsp = rng1.skip(32).bytes(32);
    let fk = rng1.skip(32).skip(32).bytes(32);
    let nonce = rng1.skip(32).skip(32).skip(32).bytes(24);
    let uid = "user123".spec_bytes();
    let password = "benchmark password".spec_bytes();
    let new_password = "new benchmark password".spec_bytes();
    let point = password_point(password);
    let aad = uid + "|cipherid|abd".spec_bytes();
    let key = finalized(password, ristretto_mul(point, scalar_drawn(rng0)));
    let master = MasterState {
        cipherid: sealed(key, aad, master_layout(ssk, rsp, fk, 0), nonce),
        ctrid: 0,
    };
    SystemState {
        nsp,
        tsp,
        qsp: quorum(nsp as nat, tsp as nat) as usize,
        uid,
        lsj: "LS1".spec_bytes(),
        password,
        new_password,
        pwd_point: point,
        new_pwd_point: password_point(new_password),
        user_ssk: ssk,
        cipherid_aad: aad,
        ciphersp_aad: uid + "|ciphersp|abd".spec_bytes(),
        providers: Seq::new(
            nsp as nat,
            |i: int|
                ProviderState {
                    id: (i + 1) as u32,
                    online: true,
                    share: (eval(poly, i + 1) % (order() as int)) as nat,
                    svk: ed25519_public(ssk),
                    master,
                    csp_db: Map::empty(),
                },
        ),
        login: None,
    }
}

proof fn lemma_constant_term(c: Seq<int>)
    requires
        c.len() > 0,
        0 <= c[0] < order(),
    ensures
        eval(c, 0) % (order() as int) == c[0],
{
    let tail = eval(c.drop_first(), 0);
    assert(0 * tail == 0);
    vstd::arithmetic::div_mod::lemma_small_mod(c[0] as nat, order());
}

impl System {
    /// Sets up an account with `nsp` providers, any `tsp` of which help to open it. All
    /// of it is a function of the parameters and the seed.
    pub fn new(nsp: usize, tsp: usize, seed: [u8; 32]) -> (r: System)
        requires
            valid_threshold(nsp as nat, tsp as nat),
            nsp + tsp < usize::MAX,
        ensures
            r@ == fresh_system(nsp, tsp, seed@),
            r@.unregistered(),
            nsp <= u32::MAX ==> r@.sound(key_poly(tsp as nat, RngState::start(seed@)))
                && r@.one_master(key_poly(tsp as nat, RngState::start(seed@)))
                && r@.counters_agree(key_poly(tsp as nat, RngState::start(seed@))),
    {
        validate_threshold(nsp, tsp);
        let qsp = quorum_size(nsp, tsp);
        let mut rng = Rng::from_seed(seed);
        let ghost rng0 = rng@;
        let ghost poly = key_poly(tsp as nat, rng0);

        let uid = bytes::copy_bytes("user123".as_bytes());
        let lsj = bytes::copy_bytes("LS1".as_bytes());
        let password = bytes::copy_bytes("benchmark password".as_bytes());
        let new_password = bytes::copy_bytes("new benchmark password".as_bytes());
        let pwd_point = toprf::hash_to_point(password.as_slice());
        let new_pwd_point = toprf::hash_to_point(new_password.as_slice());

        let (master_sk, shares) = toprf::toprf_gen(nsp, tsp, &mut rng);
        let y: Point = pwd_point.scale(master_sk);
        let state_key = toprf::oprf_finalize(password.as_slice(), &y);

        let ssk: SigningKey = rng.take_array::<32>();
        let svk = keys::ed25519_public_key(&ssk);
        let rsp = rng.take_array::<32>();
        let fk = rng.take_array::<32>();
        let cipherid_pt = master_plaintext(&ssk, &rsp, &fk, 0);
        let cipherid_aad = cat2(uid.as_slice(), "|cipherid|abd".as_bytes());
        let ciphersp_aad = cat2(uid.as_slice(), "|ciphersp|abd".as_bytes());
        let cipherid = aead::xchacha_encrypt_detached(
            &state_key,
            cipherid_aad.as_slice(),
            &cipherid_pt,
            &mut rng,
        );
        let master = MasterRecord { cipherid, ctrid: 0 };

        let ghost want = fresh_system(nsp, tsp, seed@);
        let ghost sv = share_vals(shares@);
        assert(sv.len() == nsp);
        let mut providers: Vec<Provider> = Vec::with_capacity(nsp);
        let mut i: usize = 0;
        while i < shares.len()
            invariant
                i <= shares@.len(),
                shares@.len() == nsp,
                sv == share_vals(shares@),
                sv == shares_of(poly, nsp as nat, order()),
                want.providers.len() == nsp,
                forall|k: int|
                    0 <= k < nsp ==> #[trigger] want.providers[k] == (ProviderState {
                        id: (k + 1) as u32,
                        online: true,
                        share: (eval(poly, k + 1) % (order() as int)) as nat,
                        svk: svk@,
                        master: master@,
                        csp_db: Map::empty(),
                    }),
                providers@.len() == i,
                forall|k: int| 0 <= k < i ==> (#[trigger] providers@[k])@ == want.providers[k],
            decreases shares@.len() - i,
        {
            let (id, share) = shares[i];
            let p = Provider { id, online: true, share, svk, master, csp_db: Store::new() };
            proof {
                assert(sv[i as int] == (id, share@));
                assert(p@.csp_db =~= Map::<Seq<u8>, CspState>::empty());
                assert(p@ =~= want.providers[i as int]);
            }
            providers.push(p);
            i = i + 1;
        }
        let r = System {
            nsp,
            tsp,
            qsp,
            uid,
            lsj,
            password,
            new_password,
            pwd_point,
            new_pwd_point,
            user_ssk: ssk,
            cipherid_aad,
            ciphersp_aad,
            providers,
            login_server: LoginServer::new(),
        };
        proof {
            assert(r@.providers =~= want.providers);
            assert(r@ =~= want);
            if nsp <= u32::MAX {
                lemma_constant_term(poly);
                master_layout_reads_back(ssk@, rsp@, fk@, 0);
                assert(state_key@ == password_key(r@.password, r@.pwd_point, poly));
                assert(poly.len() == tsp) by {
                    lemma_drawn_len(rng0.skip(64), (tsp - 1) as nat, order());
                }
            }
        }
        r
    }

    /// Registers a login secret with a quorum.
    pub fn qwrite_csp_register(
        &mut self,
        suid: [u8; 32],
        ciphersp: CtBlob<CIPHERSP_PT_LEN>,
        ctr: u64,
        sig: &Signature,
    ) -> (r: Result<usize, PhaseError>)
        ensures
            r == old(self)@.write_result(
                WriteState::Register { suid: suid@, ciphersp: ciphersp@, ctr, sig: sig@ },
            ),
            final(self)@ == old(self)@.after_write(
                WriteState::Register { suid: suid@, ciphersp: ciphersp@, ctr, sig: sig@ },
            ),
    {
        self.qwrite(&Write::Register { suid, ciphersp, ctr, sig: *sig })
    }

    /// Replaces a login secret at a quorum.
    pub fn qwrite_csp_update(
        &mut self,
        suid: [u8; 32],
        ciphersp: CtBlob<CIPHERSP_PT_LEN>,
        ctr: u64,
        sig: &Signature,
    ) -> (r: Result<usize, PhaseError>)
        ensures
            r == old(self)@.write_result(
                WriteState::Update { suid: suid@, ciphersp: ciphersp@, ctr, sig: sig@ },
            ),
            final(self)@ == old(self)@.after_write(
                WriteState::Update { suid: suid@, ciphersp: ciphersp@, ctr, sig: sig@ },
            ),
    {
        self.qwrite(&Write::Update { suid, ciphersp, ctr, sig: *sig })
    }

    /// Replaces the master state at a quorum.
    pub fn qwrite_master(
        &mut self,
        newcipherid: CtBlob<CIPHERID_PT_LEN>,
        ctrid: u64,
        sig: &Signature,
    ) -> (r: Result<usize, PhaseError>)
        ensures
            r == old(self)@.write_result(
                WriteState::Master { cipherid: newcipherid@, ctrid, sig: sig@ },
            ),
            final(self)@ == old(self)@.after_write(
                WriteState::Master { cipherid: newcipherid@, ctrid, sig: sig@ },
            ),
    {
        self.qwrite(&Write::Master { cipherid: newcipherid, ctrid, sig: *sig })
    }

    /// Registers the user with the login server. On an account without registrations and
    /// with a quorum online it succeeds, and each member of the quorum then holds the
    /// login secret whose verification value the login server has.
    pub fn phase_registration(&mut self, rng: &mut Rng) -> (r: Result<[u8; 32], PhaseError>)
        ensures
            viewed(r) == old(self)@.registration(old(rng)@).result,
            final(self)@ == old(self)@.registration(old(rng)@).state,
            final(rng)@ == old(self)@.registration(old(rng)@).rng,
            r is Ok ==> (old(self)@.unlocked(
                old(self)@.password,
                old(self)@.pwd_point,
                old(rng)@,
            ) matches Ok(pt) && final(self)@.quorum_holds_secret(
                old(self)@.chosen(old(self)@.qsp),
                pt,
                old(self)@.unlock_rng(old(rng)@).bytes(32),
                0,
            )),
            forall|c: Seq<int>| #[trigger]
                old(self)@.sound(c) && old(self)@.unregistered() && online(
                    old(self)@.providers,
                ).len() >= old(self)@.qsp && scalar_drawn(old(rng)@) != 0 ==> r is Ok,
            forall|c: Seq<int>| #[trigger]
                old(self)@.sound(c) && old(self)@.one_master(c) && online(
                    old(self)@.providers,
                ).len() >= old(self)@.qsp && scalar_drawn(old(rng)@) != 0 ==> old(self)@.unlocked(
                    old(self)@.password,
                    old(self)@.pwd_point,
                    old(rng)@,
                ) == Ok::<Seq<u8>, PhaseError>(old(self)@.master_text(c)),
    {
        let _hashed_uid = uid_hash(self.uid.as_slice());
        let ghost s0 = self@;
        let ghost r0 = rng@;
        let unlocked = self.unlock(self.password.as_slice(), &self.pwd_point, rng);
        proof {
            assert forall|c: Seq<int>| #[trigger]
                s0.sound(c) && online(s0.providers).len() >= s0.qsp && scalar_drawn(r0)
                    != 0 implies unlocked matches Ok(pt) && ssk_in(pt@) == s0.user_ssk && (
            s0.one_master(c) ==> pt@ == s0.master_text(c)) by {
                assert(s0.shared_by(c));
                lemma_sound_unlocks(s0, c, r0);
                lemma_online_except(s0.providers, -1);
                assert(0 <= online(s0.providers)[0] < s0.providers.len());
            }
        }
        let pt = match unlocked {
            Ok(pt) => pt,
            Err(e) => {
                return Err(e);
            },
        };
        let (ssk, rsp, fk, _ctrid) = parse_master_plaintext(&pt);
        let suid = hash_suid_shared(&rsp, self.lsj.as_slice());
        let ghost rng1 = rng@;

        let rlsj = rng.take_array::<32>();
        let csp_pt = csp_plaintext(&rlsj, 0);
        let ciphersp = aead::xchacha_encrypt_detached(
            &fk,
            self.ciphersp_aad.as_slice(),
            &csp_pt,
            rng,
        );
        let vinfo = hash_vinfo(&rlsj, self.lsj.as_slice());
        let sig = keys::sign(&ssk, csp_write_message(&suid, &ciphersp, 0).as_slice());
        let ghost w = s0.register_write(pt@, rng1);
        assert(w == WriteState::Register { suid: suid@, ciphersp: ciphersp@, ctr: 0, sig: sig@ });
        proof {
            write_succeeds_iff_quorum_accepts(s0, w);
            lemma_online_except(s0.providers, -1);
            assert forall|c: Seq<int>| #[trigger]
                s0.sound(c) && s0.unregistered() && online(s0.providers).len() >= s0.qsp
                    && scalar_drawn(r0) != 0 implies s0.write_result(w) is Ok by {
                let idx = s0.chosen(s0.qsp);
                assert forall|j: int| 0 <= j < s0.qsp implies accepts(
                    s0.providers[#[trigger] idx[j]],
                    s0.uid,
                    w,
                ) by {
                    assert(online(s0.providers)[j] == idx[j]);
                    let p = s0.providers[idx[j]];
                    assert(p.svk == ed25519_public(s0.user_ssk));
                }
            }
        }
        let acks = match self.qwrite_csp_register(suid, ciphersp, 0, &sig) {
            Ok(n) => n,
            Err(e) => {
                return Err(e);
            },
        };
        if !self.login_server.register(vinfo) {
            return Err(PhaseError::LoginServerRejected);
        }
        let online_now = self.online_count();
        let mut m: Vec<u8> = cat3("upspa/abd/registration/result/v1".as_bytes(), &suid, &vinfo);
        push_bytes(&mut m, &sig);
        push_bytes(&mut m, &bytes::u64_to_le(acks as u64));
        push_bytes(&mut m, &bytes::u64_to_le(online_now as u64));
        Ok(hash::digest(m.as_slice()))
    }
}

impl System {
    /// Reads the newest login secret of `tsp` online providers.
    fn read_secret(&self, suid: &[u8; 32], fk: &[u8; 32]) -> (r: Result<
        Option<(u64, [u8; 32])>,
        PhaseError,
    >)
        requires
            online(self@.providers).len() >= self@.tsp,
        ensures
            ({
                let idx = self@.chosen(self@.tsp);
                let want = self@.newest_secret(suid@, fk@, idx, idx.len() as int);
                match r {
                    Ok(None) => want == Ok::<Option<(u64, Seq<u8>)>, PhaseError>(None),
                    Ok(Some((ctr, rlsj))) => want == Ok::<Option<(u64, Seq<u8>)>, PhaseError>(
                        Some((ctr, rlsj@)),
                    ),
                    Err(e) => want == Err::<Option<(u64, Seq<u8>)>, PhaseError>(e),
                }
            }),
    {
        let indices = match self.select_online_indices(self.tsp) {
            Ok(v) => v,
            Err(e) => {
                return Err(e);
            },
        };
        let ghost idx = as_ints(indices@);
        let mut best: Option<(u64, [u8; 32])> = None;
        let mut j: usize = 0;
        while j < indices.len()
            invariant
                j <= indices@.len(),
                idx == as_ints(indices@),
                idx == self@.chosen(self@.tsp),
                good_places(self@.providers, -1, idx),
                self@.newest_secret(suid@, fk@, idx, j as int) == Ok::<
                    Option<(u64, Seq<u8>)>,
                    PhaseError,
                >(
                    match best {
                        None => None,
                        Some((ctr, rlsj)) => Some((ctr, rlsj@)),
                    },
                ),
            decreases indices@.len() - j,
        {
            let i = indices[j];
            proof {
                assert(idx[j as int] == i);
                assert(self@.providers[i as int] == self.providers@[i as int]@);
                lemma_newest_failure(self@, suid@, fk@, idx, j + 1, idx.len() as int);
            }
            let rec = match self.providers[i].csp(suid) {
                Some(rec) => rec,
                None => {
                    return Err(PhaseError::MissingCipherSp);
                },
            };
            let pt = match aead::xchacha_decrypt_detached(
                fk,
                self.ciphersp_aad.as_slice(),
                &rec.ciphersp,
            ) {
                Ok(pt) => pt,
                Err(_) => {
                    return Err(PhaseError::DecryptFailed);
                },
            };
            let rlsj = bytes::piece::<32>(&pt, 0);
            let ctr_bytes = bytes::piece::<8>(&pt, 32);
            let ctr = bytes::u64_from_le(&ctr_bytes);
            let newer = match best {
                None => true,
                Some((held, _)) => ctr >= held,
            };
            if newer {
                best = Some((ctr, rlsj));
            }
            j = j + 1;
        }
        Ok(best)
    }

    /// Replaces the login secret. Where every provider holds one secret and a quorum is
    /// online it succeeds, and each member of the quorum then holds the new secret with
    /// the next counter.
    pub fn phase_secret_update(&mut self, rng: &mut Rng) -> (r: Result<[u8; 32], PhaseError>)
        ensures
            viewed(r) == old(self)@.secret_update(old(rng)@).result,
            final(self)@ == old(self)@.secret_update(old(rng)@).state,
            final(rng)@ == old(self)@.secret_update(old(rng)@).rng,
            r is Ok ==> (old(self)@.unlocked(
                old(self)@.password,
                old(self)@.pwd_point,
                old(rng)@,
            ) matches Ok(pt) && old(self)@.secret_read(pt) matches Ok(Some((ctr, _)))
                && final(self)@.quorum_holds_secret(
                old(self)@.chosen(old(self)@.qsp),
                pt,
                old(self)@.unlock_rng(old(rng)@).bytes(32),
                next_counter(ctr),
            )),
            forall|c: Seq<int>, pt: Seq<u8>, rlsj: Seq<u8>, ctr: u64|
                #![trigger old(self)@.sound(c), old(self)@.all_hold_secret(pt, rlsj, ctr)]
                old(self)@.sound(c) && old(self)@.unlocked(
                    old(self)@.password,
                    old(self)@.pwd_point,
                    old(rng)@,
                ) == Ok::<Seq<u8>, PhaseError>(pt) && old(self)@.all_hold_secret(pt, rlsj, ctr)
                    && ctr < u64::MAX && online(old(self)@.providers).len() >= old(self)@.qsp
                    && scalar_drawn(old(rng)@) != 0 ==> r is Ok,
            forall|c: Seq<int>, rlsj: Seq<u8>, ctr: u64|
                #![trigger
                    old(self)@.one_master(c),
                    old(self)@.all_hold_secret(old(self)@.master_text(c), rlsj, ctr)]
                old(self)@.sound(c) && old(self)@.one_master(c) && old(self)@.all_hold_secret(
                    old(self)@.master_text(c),
                    rlsj,
                    ctr,
                ) && ctr < u64::MAX && online(old(self)@.providers).len() >= old(self)@.qsp
                    && scalar_drawn(old(rng)@) != 0 ==> r is Ok,
    {
        let _hashed_uid = uid_hash(self.uid.as_slice());
        let ghost s0 = self@;
        let ghost r0 = rng@;
        let unlocked = self.unlock(self.password.as_slice(), &self.pwd_point, rng);
        proof {
            assert forall|c: Seq<int>| #[trigger]
                s0.sound(c) && online(s0.providers).len() >= s0.qsp && scalar_drawn(r0)
                    != 0 implies unlocked matches Ok(pt) && ssk_in(pt@) == s0.user_ssk && (
            s0.one_master(c) ==> pt@ == s0.master_text(c)) by {
                assert(s0.shared_by(c));
                lemma_sound_unlocks(s0, c, r0);
                lemma_online_except(s0.providers, -1);
                assert(0 <= online(s0.providers)[0] < s0.providers.len());
            }
        }
        let pt = match unlocked {
            Ok(pt) => pt,
            Err(e) => {
                return Err(e);
            },
        };
        let (ssk, rsp, fk, _ctrid) = parse_master_plaintext(&pt);
        let suid = hash_suid_shared(&rsp, self.lsj.as_slice());
        let ghost rng1 = rng@;
        proof {
            lemma_online_except(s0.providers, -1);
            assert forall|rlsj: Seq<u8>, ctr: u64| #[trigger]
                s0.all_hold_secret(pt@, rlsj, ctr) && s0.tsp > 0 implies s0.secret_read(pt@)
                == Ok::<Option<(u64, Seq<u8>)>, PhaseError>(Some((ctr, rlsj))) by {
                let idx = s0.chosen(s0.tsp);
                lemma_reads_held_secret(s0, pt@, rlsj, ctr, idx, idx.len() as int);
            }
        }
        let (old_ctr, old_rlsj) = match self.read_secret(&suid, &fk) {
            Err(e) => {
                return Err(e);
            },
            Ok(None) => {
                return Err(PhaseError::MissingCipherSp);
            },
            Ok(Some(found)) => found,
        };
        let old_vinfo = hash_vinfo(&old_rlsj, self.lsj.as_slice());
        let new_rlsj = rng.take_array::<32>();
        let new_ctr: u64 = old_ctr.wrapping_add(1);
        let csp_pt = csp_plaintext(&new_rlsj, new_ctr);
        let new_ciphersp = aead::xchacha_encrypt_detached(
            &fk,
            self.ciphersp_aad.as_slice(),
            &csp_pt,
            rng,
        );
        let new_vinfo = hash_vinfo(&new_rlsj, self.lsj.as_slice());
        let sig = keys::sign(&ssk, csp_write_message(&suid, &new_ciphersp, new_ctr).as_slice());
        let ghost w = s0.update_write(pt@, new_ctr, rng1);
        assert(w == WriteState::Update {
            suid: suid@,
            ciphersp: new_ciphersp@,
            ctr: new_ctr,
            sig: sig@,
        });
        proof {
            write_succeeds_iff_quorum_accepts(s0, w);
            assert forall|c: Seq<int>, rlsj: Seq<u8>, ctr: u64|
                #![trigger s0.sound(c), s0.all_hold_secret(pt@, rlsj, ctr)]
                s0.sound(c) && s0.all_hold_secret(pt@, rlsj, ctr) && ctr < u64::MAX && online(
                    s0.providers,
                ).len() >= s0.qsp && scalar_drawn(r0) != 0 implies s0.write_result(w) is Ok by {
                let idx = s0.chosen(s0.qsp);
                assert forall|j: int| 0 <= j < s0.qsp implies accepts(
                    s0.providers[#[trigger] idx[j]],
                    s0.uid,
                    w,
                ) by {
                    assert(online(s0.providers)[j] == idx[j]);
                    let p = s0.providers[idx[j]];
                    assert(p.svk == ed25519_public(s0.user_ssk));
                    assert(p.has_active(s0.suid_in(pt@)));
                }
            }
        }
        let acks = match self.qwrite_csp_update(suid, new_ciphersp, new_ctr, &sig) {
            Ok(n) => n,
            Err(e) => {
                return Err(e);
            },
        };
        if !self.login_server.update(old_vinfo, new_vinfo) {
            return Err(PhaseError::LoginServerRejected);
        }
        let mut m: Vec<u8> = cat3(
            "upspa/abd/secret_update/result/v1".as_bytes(),
            &suid,
            &bytes::u64_to_le(old_ctr),
        );
        push_bytes(&mut m, &bytes::u64_to_le(new_ctr));
        push_bytes(&mut m, &new_vinfo);
        push_bytes(&mut m, &sig);
        push_bytes(&mut m, &bytes::u64_to_le(acks as u64));
        Ok(hash::digest(m.as_slice()))
    }

    /// The master state under the key of the new password, with the next counter and the
    /// user's signature. It opens under that key and gives back the same secrets.
    pub fn make_valid_master_update_payload(&self, rng: &mut Rng) -> (r: Result<
        (CtBlob<CIPHERID_PT_LEN>, u64, Signature),
        PhaseError,
    >)
        ensures
            match r {
                Ok((blob, ctrid, sig)) => {
                    &&& self@.password_update_write(old(rng)@).0 == Ok::<WriteState, PhaseError>(
                        WriteState::Master { cipherid: blob@, ctrid, sig: sig@ },
                    )
                    &&& self@.unlocked(
                        self@.password,
                        self@.pwd_point,
                        old(rng)@,
                    ) matches Ok(pt) && opened(
                        self@.derived_key(
                            self@.new_password,
                            self@.new_pwd_point,
                            scalar_drawn(old(rng)@.skip(64)),
                        ),
                        self@.cipherid_aad,
                        blob@,
                    ) == Some(master_layout(ssk_in(pt), rsp_in(pt), fk_in(pt), ctrid))
                        && ed25519_verify(
                        ed25519_public(ssk_in(pt)),
                        master_message(self@.uid, blob@, ctrid),
                        sig@,
                    )
                },
                Err(e) => self@.password_update_write(old(rng)@).0 == Err::<
                    WriteState,
                    PhaseError,
                >(e),
            },
            final(rng)@ == self@.password_update_write(old(rng)@).1,
            forall|c: Seq<int>| #[trigger]
                self@.sound(c) && online(self@.providers).len() >= self@.qsp && scalar_drawn(
                    old(rng)@,
                ) != 0 ==> r is Ok && (self@.unlocked(
                    self@.password,
                    self@.pwd_point,
                    old(rng)@,
                ) matches Ok(pt) && ssk_in(pt) == self@.user_ssk && opened(
                    password_key(self@.password, self@.pwd_point, c),
                    self@.cipherid_aad,
                    self@.providers[online(self@.providers)[0]].master.cipherid,
                ) == Some(pt)),
    {
        let ghost s0 = self@;
        let ghost r0 = rng@;
        let unlocked = self.unlock(self.password.as_slice(), &self.pwd_point, rng);
        proof {
            assert forall|c: Seq<int>| #[trigger]
                s0.sound(c) && online(s0.providers).len() >= s0.qsp && scalar_drawn(r0)
                    != 0 implies unlocked matches Ok(pt) && ssk_in(pt@) == s0.user_ssk && opened(
                password_key(s0.password, s0.pwd_point, c),
                s0.cipherid_aad,
                s0.providers[online(s0.providers)[0]].master.cipherid,
            ) == Some(pt@) by {
                assert(s0.shared_by(c));
                lemma_sound_unlocks(s0, c, r0);
            }
        }
        let pt = match unlocked {
            Ok(pt) => pt,
            Err(e) => {
                return Err(e);
            },
        };
        let (ssk, rsp, fk, ctrid) = parse_master_plaintext(&pt);
        let new_state_key = match self.toprf_eval_with_point(
            self.new_password.as_slice(),
            &self.new_pwd_point,
            rng,
        ) {
            Ok(k) => k,
            Err(e) => {
                return Err(e);
            },
        };
        let new_ctrid: u64 = ctrid.wrapping_add(1);
        let new_pt = master_plaintext(&ssk, &rsp, &fk, new_ctrid);
        let newcipherid = aead::xchacha_encrypt_detached(
            &new_state_key,
            self.cipherid_aad.as_slice(),
            &new_pt,
            rng,
        );
        let msg = master_update_message(self.uid.as_slice(), &newcipherid, new_ctrid);
        let sig = keys::sign(&ssk, msg.as_slice());
        Ok((newcipherid, new_ctrid, sig))
    }

    /// Moves the master state from the key of the password to that of the new one. Where
    /// all providers hold one master state and a quorum is online it succeeds, and
    /// each member of the quorum then holds the same secrets under the new key with
    /// the next counter.
    pub fn phase_password_update(&mut self, rng: &mut Rng) -> (r: Result<[u8; 32], PhaseError>)
        ensures
            viewed(r) == old(self)@.password_update(old(rng)@).result,
            final(self)@ == old(self)@.password_update(old(rng)@).state,
            final(rng)@ == old(self)@.password_update(old(rng)@).rng,
            r is Ok ==> (old(self)@.unlocked(
                old(self)@.password,
                old(self)@.pwd_point,
                old(rng)@,
            ) matches Ok(pt) && final(self)@.quorum_holds_master(
                old(self)@.chosen(old(self)@.qsp),
                old(self)@.derived_key(
                    old(self)@.new_password,
                    old(self)@.new_pwd_point,
                    scalar_drawn(old(rng)@.skip(64)),
                ),
                pt,
                next_counter(ctrid_in(pt)),
            )),
            forall|c: Seq<int>| #[trigger]
                old(self)@.sound(c) && old(self)@.counters_agree(c) && online(
                    old(self)@.providers,
                ).len() >= old(self)@.qsp && scalar_drawn(old(rng)@) != 0 ==> r is Ok,
    {
        let _hashed_uid = uid_hash(self.uid.as_slice());
        let ghost s0 = self@;
        let ghost r0 = rng@;
        let payload = self.make_valid_master_update_payload(rng);
        let (newcipherid, new_ctrid, sig) = match payload {
            Ok(p) => p,
            Err(e) => {
                return Err(e);
            },
        };
        let ghost w = WriteState::Master {
            cipherid: newcipherid@,
            ctrid: new_ctrid,
            sig: sig@,
        };
        proof {
            write_succeeds_iff_quorum_accepts(s0, w);
            lemma_online_except(s0.providers, -1);
            assert forall|c: Seq<int>| #[trigger]
                s0.sound(c) && s0.counters_agree(c) && online(s0.providers).len() >= s0.qsp
                    && scalar_drawn(r0) != 0 implies s0.write_result(w) is Ok by {
                let idx = s0.chosen(s0.qsp);
                let coord = s0.providers[online(s0.providers)[0]];
                assert forall|j: int| 0 <= j < s0.qsp implies accepts(
                    s0.providers[#[trigger] idx[j]],
                    s0.uid,
                    w,
                ) by {
                    assert(online(s0.providers)[j] == idx[j]);
                    let p = s0.providers[idx[j]];
                    assert(p.svk == ed25519_public(s0.user_ssk));
                    assert(coord.master == coord.master && p.master == p.master);
                }
            }
        }
        let acks = match self.qwrite_master(newcipherid, new_ctrid, &sig) {
            Ok(n) => n,
            Err(e) => {
                return Err(e);
            },
        };
        let mut m: Vec<u8> = cat3(
            "upspa/abd/password_update/result/v1".as_bytes(),
            &bytes::u64_to_le(new_ctrid),
            &sig,
        );
        push_bytes(&mut m, &bytes::u64_to_le(acks as u64));
        Ok(hash::digest(m.as_slice()))
    }
}

/// A failure among the first `k` providers is the result for all of them.
proof fn lemma_newest_failure(
    s: SystemState,
    suid: Seq<u8>,
    fk: Seq<u8>,
    idx: Seq<int>,
    k: int,
    n: int,
)
    requires
        0 <= k <= n,
    ensures
        s.newest_secret(suid, fk, idx, k) matches Err(e) ==> s.newest_secret(suid, fk, idx, n)
            == Err::<Option<(u64, Seq<u8>)>, PhaseError>(e),
    decreases n - k,
{
    if k < n {
        lemma_newest_failure(s, suid, fk, idx, k + 1, n);
    }
}

} // verus!
