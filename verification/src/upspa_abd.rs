//! Password-based state held by storage providers, written and recovered by quorums.
use vstd::prelude::*;

use crate::aead::{self, opened, Blob, CtBlob};
use crate::bytes;
use crate::field::{distinct, lagrange_coeffs_at_zero, vals, weights};
use crate::group::{are_multiples, encs, lemma_recovery, values_at, Group};
use crate::interpolation::eval;
use crate::keys::{Signature, SigningKey};
use crate::provider::{
    active_record, LoginServer, MasterState, PhaseError, Provider, ProviderState, CIPHERID_PT_LEN,
    CIPHERSP_PT_LEN,
};
use crate::ristretto::{order, ristretto_mul, Point, Scalar};
use crate::rng::{Rng, RngState};
use crate::toprf::{self, finalized, password_point, scalar_drawn, unblinded_key};

verus! {

/// A user's account with all providers and one login server.
#[derive(Clone)]
pub struct System {
    pub nsp: usize,
    pub tsp: usize,
    pub qsp: usize,
    pub uid: Vec<u8>,
    pub lsj: Vec<u8>,
    pub password: Vec<u8>,
    pub new_password: Vec<u8>,
    pub pwd_point: Point,
    pub new_pwd_point: Point,
    pub user_ssk: SigningKey,
    pub cipherid_aad: Vec<u8>,
    pub ciphersp_aad: Vec<u8>,
    pub providers: Vec<Provider>,
    pub login_server: LoginServer,
}

/// What an account holds.
#[verifier::ext_equal]
pub struct SystemState {
    pub nsp: usize,
    pub tsp: usize,
    pub qsp: usize,
    pub uid: Seq<u8>,
    pub lsj: Seq<u8>,
    pub password: Seq<u8>,
    pub new_password: Seq<u8>,
    pub pwd_point: Seq<u8>,
    pub new_pwd_point: Seq<u8>,
    pub user_ssk: Seq<u8>,
    pub cipherid_aad: Seq<u8>,
    pub ciphersp_aad: Seq<u8>,
    pub providers: Seq<ProviderState>,
    pub login: Option<Seq<u8>>,
}

/// What the providers of a list hold.
pub open spec fn states(ps: Seq<Provider>) -> Seq<ProviderState> {
    Seq::new(ps.len(), |i: int| ps[i]@)
}

impl View for System {
    type V = SystemState;

    open spec fn view(&self) -> SystemState {
        SystemState {
            nsp: self.nsp,
            tsp: self.tsp,
            qsp: self.qsp,
            uid: self.uid@,
            lsj: self.lsj@,
            password: self.password@,
            new_password: self.new_password@,
            pwd_point: self.pwd_point@,
            new_pwd_point: self.new_pwd_point@,
            user_ssk: self.user_ssk@,
            cipherid_aad: self.cipherid_aad@,
            ciphersp_aad: self.ciphersp_aad@,
            providers: states(self.providers@),
            login: self.login_server@,
        }
    }
}

/// The places of the online providers in ascending order, without `skip`.
pub open spec fn online_except(ps: Seq<ProviderState>, skip: int) -> Seq<int>
    decreases ps.len(),
{
    if ps.len() == 0 {
        Seq::empty()
    } else {
        let before = online_except(ps.drop_last(), skip);
        let i = ps.len() - 1;
        if ps.last().online && i != skip {
            before.push(i)
        } else {
            before
        }
    }
}

/// The places of all online providers.
pub open spec fn online(ps: Seq<ProviderState>) -> Seq<int> {
    online_except(ps, -1)
}

/// The first `needed` of some places, or all where there are fewer.
pub open spec fn first_of(idx: Seq<int>, needed: nat) -> Seq<int> {
    if needed <= idx.len() {
        idx.take(needed as int)
    } else {
        idx
    }
}

/// Ascending places of online providers, none of them `skip`.
pub open spec fn good_places(ps: Seq<ProviderState>, skip: int, idx: Seq<int>) -> bool {
    &&& forall|j: int|
        0 <= j < idx.len() ==> {
            &&& 0 <= #[trigger] idx[j] < ps.len()
            &&& ps[idx[j]].online
            &&& idx[j] != skip
        }
    &&& forall|j: int, k: int| 0 <= j < k < idx.len() ==> #[trigger] idx[j] < #[trigger] idx[k]
}

/// The listed places are exactly those of the online providers.
pub proof fn lemma_online_except(ps: Seq<ProviderState>, skip: int)
    ensures
        good_places(ps, skip, online_except(ps, skip)),
        online_except(ps, skip).len() <= ps.len(),
        forall|i: int|
            0 <= i < ps.len() && (#[trigger] ps[i]).online && i != skip ==> online_except(
                ps,
                skip,
            ).contains(i),
    decreases ps.len(),
{
    if ps.len() > 0 {
        let qs = ps.drop_last();
        lemma_online_except(qs, skip);
        let before = online_except(qs, skip);
        let idx = online_except(ps, skip);
        assert forall|j: int| 0 <= j < idx.len() implies {
            &&& 0 <= #[trigger] idx[j] < ps.len()
            &&& ps[idx[j]].online
            &&& idx[j] != skip
        } by {
            if j < before.len() {
                assert(idx[j] == before[j]);
                assert(qs[before[j]] == ps[before[j]]);
            }
        }
        assert forall|j: int, k: int| 0 <= j < k < idx.len() implies #[trigger] idx[j]
            < #[trigger] idx[k] by {
            assert(idx[j] == before[j]);
            if k < before.len() {
                assert(idx[k] == before[k]);
            }
        }
        assert forall|i: int|
            0 <= i < ps.len() && (#[trigger] ps[i]).online && i != skip implies idx.contains(
            i,
        ) by {
            if i < qs.len() {
                assert(qs[i] == ps[i]);
                let j = before.index_of(i);
                assert(idx[j] == i);
            } else {
                assert(idx.last() == i);
            }
        }
    }
}

/// A request to write to a provider.
pub enum Write {
    Register { suid: [u8; 32], ciphersp: CtBlob<CIPHERSP_PT_LEN>, ctr: u64, sig: Signature },
    Update { suid: [u8; 32], ciphersp: CtBlob<CIPHERSP_PT_LEN>, ctr: u64, sig: Signature },
    Master { cipherid: CtBlob<CIPHERID_PT_LEN>, ctrid: u64, sig: Signature },
}

/// What a request to write says.
pub enum WriteState {
    Register { suid: Seq<u8>, ciphersp: Blob, ctr: u64, sig: Seq<u8> },
    Update { suid: Seq<u8>, ciphersp: Blob, ctr: u64, sig: Seq<u8> },
    Master { cipherid: Blob, ctrid: u64, sig: Seq<u8> },
}

impl View for Write {
    type V = WriteState;

    open spec fn view(&self) -> WriteState {
        match *self {
            Write::Register { suid, ciphersp, ctr, sig } => WriteState::Register {
                suid: suid@,
                ciphersp: ciphersp@,
                ctr,
                sig: sig@,
            },
            Write::Update { suid, ciphersp, ctr, sig } => WriteState::Update {
                suid: suid@,
                ciphersp: ciphersp@,
                ctr,
                sig: sig@,
            },
            Write::Master { cipherid, ctrid, sig } => WriteState::Master {
                cipherid: cipherid@,
                ctrid,
                sig: sig@,
            },
        }
    }
}

/// Whether a provider accepts a write for the user `uid`.
pub open spec fn accepts(p: ProviderState, uid: Seq<u8>, w: WriteState) -> bool {
    match w {
        WriteState::Register { suid, ciphersp, ctr, sig } => p.accepts_register(
            suid,
            ciphersp,
            ctr,
            sig,
        ),
        WriteState::Update { suid, ciphersp, ctr, sig } => p.accepts_update(
            suid,
            ciphersp,
            ctr,
            sig,
        ),
        WriteState::Master { cipherid, ctrid, sig } => p.accepts_master(uid, cipherid, ctrid, sig),
    }
}

/// What a provider holds after an accepted write.
pub open spec fn stored(p: ProviderState, w: WriteState) -> ProviderState {
    match w {
        WriteState::Register { suid, ciphersp, ctr, sig } => p.with_csp(
            suid,
            active_record(ciphersp, ctr, sig),
        ),
        WriteState::Update { suid, ciphersp, ctr, sig } => p.with_csp(
            suid,
            active_record(ciphersp, ctr, sig),
        ),
        WriteState::Master { cipherid, ctrid, sig } => ProviderState {
            master: MasterState { cipherid, ctrid },
            ..p
        },
    }
}

/// What a provider holds after being asked to write.
pub open spec fn asked(p: ProviderState, uid: Seq<u8>, w: WriteState) -> ProviderState {
    if accepts(p, uid, w) {
        stored(p, w)
    } else {
        p
    }
}

/// What the providers hold after those at the places `idx` were asked to write.
pub open spec fn all_asked(
    ps: Seq<ProviderState>,
    idx: Seq<int>,
    uid: Seq<u8>,
    w: WriteState,
) -> Seq<ProviderState> {
    Seq::new(
        ps.len(),
        |i: int|
            if idx.contains(i) {
                asked(ps[i], uid, w)
            } else {
                ps[i]
            },
    )
}

/// How many of the first `k` asked providers accept.
pub open spec fn acks(
    ps: Seq<ProviderState>,
    idx: Seq<int>,
    uid: Seq<u8>,
    w: WriteState,
    k: int,
) -> nat
    decreases k,
{
    if k <= 0 {
        0
    } else {
        acks(ps, idx, uid, w, k - 1) + (if accepts(ps[idx[k - 1]], uid, w) {
            1nat
        } else {
            0nat
        })
    }
}

impl SystemState {
    /// The providers that a step with `needed` participants uses.
    pub open spec fn chosen(self, needed: usize) -> Seq<int> {
        first_of(online(self.providers), needed as nat)
    }

    /// The number of online providers.
    pub open spec fn online_count(self) -> usize {
        online(self.providers).len() as usize
    }

    /// The error of a step for which too few providers are online.
    pub open spec fn too_few(self, needed: usize) -> PhaseError {
        PhaseError::NotEnoughOnline { online: self.online_count(), needed }
    }

    /// What the providers hold after a quorum was asked to write.
    pub open spec fn after_write(self, w: WriteState) -> SystemState {
        if online(self.providers).len() < self.qsp {
            self
        } else {
            SystemState {
                providers: all_asked(self.providers, self.chosen(self.qsp), self.uid, w),
                ..self
            }
        }
    }

    /// The number of providers of the quorum that accept a write.
    pub open spec fn write_acks(self, w: WriteState) -> usize {
        acks(
            self.providers,
            self.chosen(self.qsp),
            self.uid,
            w,
            self.chosen(self.qsp).len() as int,
        ) as usize
    }

    /// The result of a write: the whole quorum must accept.
    pub open spec fn write_result(self, w: WriteState) -> Result<usize, PhaseError> {
        if online(self.providers).len() < self.qsp {
            Err(self.too_few(self.qsp))
        } else if self.write_acks(w) >= self.qsp {
            Ok(self.write_acks(w))
        } else {
            Err(PhaseError::QuorumFailed { acks: self.write_acks(w), qsp: self.qsp })
        }
    }
}

impl Provider {
    /// Asks the provider to write.
    fn accept(&mut self, uid: &[u8], w: &Write) -> (r: bool)
        ensures
            r == accepts(old(self)@, uid@, w@),
            final(self)@ == asked(old(self)@, uid@, w@),
    {
        match w {
            Write::Register { suid, ciphersp, ctr, sig } => self.accept_csp_register(
                *suid,
                *ciphersp,
                *ctr,
                sig,
            ),
            Write::Update { suid, ciphersp, ctr, sig } => self.accept_csp_update(
                *suid,
                *ciphersp,
                *ctr,
                sig,
            ),
            Write::Master { cipherid, ctrid, sig } => self.accept_master_update(
                uid,
                *cipherid,
                *ctrid,
                sig,
            ),
        }
    }
}

/// Places as mathematical integers.
pub open spec fn as_ints(v: Seq<usize>) -> Seq<int> {
    Seq::new(v.len(), |i: int| v[i] as int)
}

impl System {
    /// The places of the first `needed` online providers, leaving out `skip`.
    pub(crate) fn places(&self, needed: usize, skip: Option<usize>) -> (r: Vec<usize>)
        ensures
            as_ints(r@) == first_of(
                online_except(
                    self@.providers,
                    match skip {
                        Some(i) => i as int,
                        None => -1,
                    },
                ),
                needed as nat,
            ),
    {
        let ghost left_out = match skip {
            Some(i) => i as int,
            None => -1,
        };
        let ghost ps = self@.providers;
        let mut r: Vec<usize> = Vec::new();
        let mut i: usize = 0;
        assert(as_ints(r@) =~= first_of(online_except(ps.take(0), left_out), needed as nat));
        while i < self.providers.len()
            invariant
                i <= self.providers@.len(),
                ps == self@.providers,
                left_out == (match skip {
                    Some(i) => i as int,
                    None => -1,
                }),
                as_ints(r@) == first_of(
                    online_except(ps.take(i as int), left_out),
                    needed as nat,
                ),
            decreases self.providers@.len() - i,
        {
            let ghost before = r@;
            let wanted = match skip {
                Some(k) => k != i,
                None => true,
            };
            if r.len() < needed && wanted && self.providers[i].online {
                r.push(i);
            }
            proof {
                assert(ps.take(i + 1).drop_last() =~= ps.take(i as int));
                assert(ps.take(i + 1).last() == ps[i as int]);
                assert(ps[i as int].online == self.providers@[i as int].online);
                let all = online_except(ps.take(i as int), left_out);
                assert(as_ints(before).len() == before.len());
                if r@.len() > before.len() {
                    assert(as_ints(r@) =~= as_ints(before).push(i as int));
                    assert(as_ints(before) =~= all);
                } else {
                    assert(r@ == before);
                }
                assert(as_ints(r@) =~= first_of(
                    online_except(ps.take(i + 1), left_out),
                    needed as nat,
                ));
            }
            i = i + 1;
        }
        assert(ps.take(i as int) =~= ps);
        r
    }

    /// How many providers are online.
    pub fn online_count(&self) -> (r: usize)
        ensures
            r == online(self@.providers).len(),
            r == self@.online_count(),
    {
        let n: usize = self.providers.len();
        let r = self.places(n, None);
        proof {
            lemma_online_except(self@.providers, -1);
            assert(as_ints(r@).len() == r@.len());
        }
        r.len()
    }

    /// The place of the first online provider.
    pub fn coordinator_index(&self) -> (r: Option<usize>)
        ensures
            match r {
                Some(i) => online(self@.providers).len() > 0 && online(self@.providers)[0] == i && i
                    < self@.providers.len(),
                None => online(self@.providers).len() == 0,
            },
    {
        let first = self.places(1, None);
        proof {
            lemma_online_except(self@.providers, -1);
            assert(as_ints(first@).len() == first@.len());
            if first@.len() > 0 {
                assert(as_ints(first@)[0] == first@[0]);
            }
        }
        if first.len() > 0 {
            Some(first[0])
        } else {
            None
        }
    }

    /// The places of the first `needed` online providers.
    pub(crate) fn select_online_indices(&self, needed: usize) -> (r: Result<Vec<usize>, PhaseError>)
        ensures
            match r {
                Ok(v) => {
                    &&& online(self@.providers).len() >= needed
                    &&& as_ints(v@) == self@.chosen(needed)
                    &&& v@.len() == needed
                    &&& good_places(self@.providers, -1, as_ints(v@))
                },
                Err(e) => online(self@.providers).len() < needed && e == self@.too_few(needed),
            },
    {
        let online_now = self.online_count();
        if online_now < needed {
            return Err(PhaseError::NotEnoughOnline { online: online_now, needed });
        }
        let v = self.places(needed, None);
        proof {
            lemma_online_except(self@.providers, -1);
            assert(as_ints(v@).len() == v@.len());
        }
        Ok(v)
    }

    /// Asks a quorum of the online providers to write.
    pub(crate) fn qwrite(&mut self, w: &Write) -> (r: Result<usize, PhaseError>)
        ensures
            r == old(self)@.write_result(w@),
            final(self)@ == old(self)@.after_write(w@),
    {
        let indices = match self.select_online_indices(self.qsp) {
            Ok(v) => v,
            Err(e) => {
                return Err(e);
            },
        };
        let uid = bytes::copy_bytes(self.uid.as_slice());
        let ghost before = self@;
        let ghost idx = as_ints(indices@);
        let mut count: usize = 0;
        let mut j: usize = 0;
        assert(self@.providers =~= all_asked(before.providers, idx.take(0), uid@, w@));
        while j < indices.len()
            invariant
                j <= indices@.len(),
                idx == as_ints(indices@),
                good_places(before.providers, -1, idx),
                before.uid == uid@,
                self@ == (SystemState {
                    providers: all_asked(before.providers, idx.take(j as int), uid@, w@),
                    ..before
                }),
                count == acks(before.providers, idx, uid@, w@, j as int),
                count <= j,
            decreases indices@.len() - j,
        {
            let i = indices[j];
            let ghost mid = self@.providers;
            proof {
                assert(idx[j as int] == i);
                assert(mid.len() == before.providers.len());
                assert(mid.len() == self.providers@.len());
                assert(!idx.take(j as int).contains(i as int));
                assert(mid[i as int] == before.providers[i as int]);
                assert(self.providers@[i as int]@ == mid[i as int]);
            }
            let ok = self.providers[i].accept(uid.as_slice(), w);
            proof {
                let now = self@.providers;
                assert(now =~= mid.update(i as int, asked(mid[i as int], uid@, w@)));
                let t = idx.take(j + 1);
                assert(t[j as int] == i);
                assert forall|k: int| 0 <= k < now.len() implies now[k] == all_asked(
                    before.providers,
                    t,
                    uid@,
                    w@,
                )[k] by {
                    if k != i {
                        if idx.take(j as int).contains(k) {
                            let q = idx.take(j as int).index_of(k);
                            assert(t[q] == k);
                        }
                        if t.contains(k) {
                            let q = t.index_of(k);
                            assert(idx.take(j as int)[q] == k);
                        }
                    }
                }
                assert(now =~= all_asked(before.providers, t, uid@, w@));
            }
            if ok {
                count = count + 1;
            }
            j = j + 1;
        }
        assert(idx.take(j as int) =~= idx);
        assert(self@ =~= before.after_write(w@));
        if count >= self.qsp {
            Ok(count)
        } else {
            Err(PhaseError::QuorumFailed { acks: count, qsp: self.qsp })
        }
    }
}

impl SystemState {
    /// The identifiers of the providers at the given places.
    pub open spec fn ids_at(self, idx: Seq<int>) -> Seq<u32> {
        Seq::new(idx.len(), |j: int| self.providers[idx[j]].id)
    }

    /// The answers of the providers at the given places to a blinded password.
    pub open spec fn partials_at(self, idx: Seq<int>, blinded: Seq<u8>) -> Seq<Seq<u8>> {
        Seq::new(idx.len(), |j: int| ristretto_mul(blinded, self.providers[idx[j]].share))
    }

    /// The key that the first `tsp` online providers help to derive from a password.
    pub open spec fn derived_key(
        self,
        password: Seq<u8>,
        point: Seq<u8>,
        blind: nat,
    ) -> Seq<u8> {
        let idx = self.chosen(self.tsp);
        unblinded_key(
            password,
            blind,
            self.partials_at(idx, ristretto_mul(point, blind)),
            weights(self.ids_at(idx), order()),
        )
    }

    /// The providers hold the values of the polynomial `c` at their distinct
    /// identifiers, and `tsp` values determine it.
    pub open spec fn shared_by(self, c: Seq<int>) -> bool {
        &&& c.len() == self.tsp
        &&& forall|i: int|
            0 <= i < self.providers.len() ==> (#[trigger] self.providers[i]).share == eval(
                c,
                self.providers[i].id as int,
            ) % (order() as int)
        &&& forall|i: int, j: int|
            0 <= i < j < self.providers.len() ==> (#[trigger] self.providers[i]).id != (
            #[trigger] self.providers[j]).id
    }

    /// The plaintext of the coordinator's master state, or the first failure on the way:
    /// no provider online, too few for the password function, or a ciphertext that does
    /// not open.
    pub open spec fn unlocked(
        self,
        password: Seq<u8>,
        point: Seq<u8>,
        rng: RngState,
    ) -> Result<Seq<u8>, PhaseError> {
        if online(self.providers).len() == 0 {
            Err(PhaseError::NoCoordinator)
        } else if online(self.providers).len() < self.tsp {
            Err(self.too_few(self.tsp))
        } else {
            let coord = self.providers[online(self.providers)[0]];
            match opened(
                self.derived_key(password, point, scalar_drawn(rng)),
                self.cipherid_aad,
                coord.master.cipherid,
            ) {
                Some(pt) => Ok(pt),
                None => Err(PhaseError::DecryptFailed),
            }
        }
    }

    /// The generator after an attempt to unlock the master state.
    pub open spec fn unlock_rng(self, rng: RngState) -> RngState {
        if online(self.providers).len() == 0 || online(self.providers).len() < self.tsp {
            rng
        } else {
            rng.skip(64)
        }
    }
}

/// The key of a password under a shared secret.
pub open spec fn password_key(password: Seq<u8>, point: Seq<u8>, c: Seq<int>) -> Seq<u8> {
    finalized(password, ristretto_mul(point, (eval(c, 0) % (order() as int)) as nat))
}

impl System {
    /// Evaluates the password function with the first `tsp` online providers. Whatever
    /// the nonzero blinding factor and whichever providers answer, shares of one secret
    /// give one key.
    pub(crate) fn toprf_eval_with_point(
        &self,
        password: &[u8],
        password_point: &Point,
        rng: &mut Rng,
    ) -> (r: Result<[u8; 32], PhaseError>)
        ensures
            match r {
                Ok(key) => {
                    &&& online(self@.providers).len() >= self@.tsp
                    &&& key@ == self@.derived_key(
                        password@,
                        password_point@,
                        scalar_drawn(old(rng)@),
                    )
                    &&& final(rng)@ == old(rng)@.skip(64)
                    &&& forall|c: Seq<int>| #[trigger]
                        self@.shared_by(c) && scalar_drawn(old(rng)@) != 0 ==> key@
                            == password_key(password@, password_point@, c)
                },
                Err(e) => {
                    &&& online(self@.providers).len() < self@.tsp
                    &&& e == self@.too_few(self@.tsp)
                    &&& final(rng)@ == old(rng)@
                },
            },
    {
        let indices = match self.select_online_indices(self.tsp) {
            Ok(v) => v,
            Err(e) => {
                return Err(e);
            },
        };
        let blind = toprf::random_scalar(rng);
        let blinded: Point = password_point.scale(blind);
        let ghost idx = as_ints(indices@);
        let mut ids: Vec<u32> = Vec::new();
        let mut partials: Vec<Point> = Vec::new();
        let mut j: usize = 0;
        while j < indices.len()
            invariant
                j <= indices@.len(),
                idx == as_ints(indices@),
                good_places(self@.providers, -1, idx),
                ids@.len() == j,
                partials@.len() == j,
                forall|k: int| 0 <= k < j ==> ids@[k] == self@.providers[idx[k]].id,
                forall|k: int|
                    0 <= k < j ==> (#[trigger] partials@[k])@ == ristretto_mul(
                        blinded@,
                        self@.providers[idx[k]].share,
                    ),
            decreases indices@.len() - j,
        {
            let i = indices[j];
            assert(idx[j as int] == i);
            assert(self@.providers[i as int] == self.providers@[i as int]@);
            ids.push(self.providers[i].id);
            partials.push(self.providers[i].toprf_eval(&blinded));
            j = j + 1;
        }
        assert(ids@ =~= self@.ids_at(idx));
        assert(encs(partials@) =~= self@.partials_at(idx, blinded@));
        let lambdas: Vec<Scalar> = lagrange_coeffs_at_zero::<Scalar>(ids.as_slice());
        assert(vals(lambdas@).len() == ids@.len());
        let key = toprf::toprf_client_eval_from_partials(
            password,
            blind,
            partials.as_slice(),
            lambdas.as_slice(),
        );
        proof {
            assert forall|c: Seq<int>| #[trigger]
                self@.shared_by(c) && blind@ != 0 implies key@ == password_key(
                password@,
                password_point@,
                c,
            ) by {
                lemma_shared_ids(self@, idx);
                lemma_recovery(vals(lambdas@), ids@, c, order());
                let ys = values_at(c, ids@, order());
                let k = (eval(c, 0) % (order() as int)) as nat;
                assert(encs(partials@).len() == ys.len());
                assert forall|q: int| 0 <= q < ys.len() implies 0 <= ys[q] < order()
                    && #[trigger] encs(partials@)[q] == ristretto_mul(blinded@, ys[q] as nat) by {
                    assert(self@.providers[idx[q]].share == ys[q]);
                }
                assert(are_multiples::<Point>(encs(partials@), blinded@, ys));
                assert(Point::mul_of(blinded@, k) == ristretto_mul(
                    password_point@,
                    (blind@ * k) % order(),
                ));
            }
        }
        Ok(key)
    }

    /// Opens the coordinator's master state with the key of a password.
    pub(crate) fn unlock(
        &self,
        password: &[u8],
        password_point: &Point,
        rng: &mut Rng,
    ) -> (r: Result<[u8; CIPHERID_PT_LEN], PhaseError>)
        ensures
            match r {
                Ok(pt) => self@.unlocked(password@, password_point@, old(rng)@)
                    == Ok::<Seq<u8>, PhaseError>(pt@),
                Err(e) => self@.unlocked(password@, password_point@, old(rng)@)
                    == Err::<Seq<u8>, PhaseError>(e),
            },
            final(rng)@ == self@.unlock_rng(old(rng)@),
            forall|c: Seq<int>| #[trigger]
                self@.shared_by(c) && 0 < self@.tsp <= online(self@.providers).len()
                    && scalar_drawn(old(rng)@) != 0 ==> self@.derived_key(
                    password@,
                    password_point@,
                    scalar_drawn(old(rng)@),
                ) == password_key(password@, password_point@, c),
    {
        let coord = match self.coordinator_index() {
            Some(i) => i,
            None => {
                return Err(PhaseError::NoCoordinator);
            },
        };
        let state_key = match self.toprf_eval_with_point(password, password_point, rng) {
            Ok(k) => k,
            Err(e) => {
                return Err(e);
            },
        };
        let master = self.providers[coord].master;
        assert(self@.providers[coord as int].master == master@);
        match aead::xchacha_decrypt_detached(
            &state_key,
            self.cipherid_aad.as_slice(),
            &master.cipherid,
        ) {
            Ok(pt) => Ok(pt),
            Err(_) => Err(PhaseError::DecryptFailed),
        }
    }
}

proof fn lemma_shared_ids(s: SystemState, idx: Seq<int>)
    requires
        good_places(s.providers, -1, idx),
        forall|i: int, j: int|
            0 <= i < j < s.providers.len() ==> (#[trigger] s.providers[i]).id != (
            #[trigger] s.providers[j]).id,
    ensures
        distinct(s.ids_at(idx)),
{
    let ids = s.ids_at(idx);
    assert forall|i: int, j: int| 0 <= i < j < ids.len() implies ids[i] != ids[j] by {
        assert(idx[i] < idx[j]);
        assert(s.providers[idx[i]].id != s.providers[idx[j]].id);
    }
}

} // verus!
