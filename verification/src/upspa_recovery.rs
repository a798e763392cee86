//! Availability of providers, synchronisation, recovery, and bare quorum operations.
use vstd::prelude::*;
use vstd::set_lib::*;
use vstd::string::StringSliceAdditionalSpecFns;

use crate::aead::{self, opened, sealed, Blob, CtBlob};
use crate::interpolation::eval;
use crate::keys::{self, ed25519_public, ed25519_sign, ed25519_verify, Signature};
use crate::provider::{
    active_record, counted_digest, csp_layout, csp_message, csp_plaintext, csp_verified,
    csp_write_message, digest_with_count, verify_csp_record, CspRecord, CspState, MasterRecord,
    MasterState, PhaseError, ProviderState, CIPHERID_PT_LEN, CIPHERSP_PT_LEN,
};
use crate::quorum::{quorum, quorums_intersect, valid_threshold};
use crate::ristretto::order;
use crate::rng::{Rng, RngState};
use crate::toprf::scalar_drawn;
use crate::upspa_abd::{
    as_ints, first_of, good_places, lemma_online_except, online, online_except, password_key,
    System, SystemState, WriteState,
};
use crate::upspa_phases::{fk_in, ssk_in, viewed};

verus! {

/// Whether the place `i` is among `count` places from `offset` on, counted round `n`.
pub open spec fn in_window(i: int, offset: int, count: int, n: int) -> bool {
    exists|j: int| 0 <= j < count && #[trigger] ((offset + j) % n) == i
}

/// The providers with those in a window offline and all others online.
pub open spec fn rotated(
    ps: Seq<ProviderState>,
    offset: int,
    count: int,
) -> Seq<ProviderState> {
    Seq::new(
        ps.len(),
        |i: int|
            ProviderState { online: !in_window(i, offset, count, ps.len() as int), ..ps[i] },
    )
}

/// All providers, online.
pub open spec fn all_online(ps: Seq<ProviderState>) -> Seq<ProviderState> {
    Seq::new(ps.len(), |i: int| ProviderState { online: true, ..ps[i] })
}

proof fn lemma_all_online_count(ps: Seq<ProviderState>)
    requires
        forall|i: int| 0 <= i < ps.len() ==> (#[trigger] ps[i]).online,
    ensures
        online(ps).len() == ps.len(),
    decreases ps.len(),
{
    if ps.len() > 0 {
        lemma_all_online_count(ps.drop_last());
    }
}

proof fn lemma_offline_count(ps: Seq<ProviderState>, i: int, p: ProviderState)
    requires
        0 <= i < ps.len(),
        ps[i].online,
        !p.online,
    ensures
        online(ps.update(i, p)).len() == online(ps).len() - 1,
    decreases ps.len(),
{
    let qs = ps.update(i, p);
    if i == ps.len() - 1 {
        assert(qs.drop_last() =~= ps.drop_last());
    } else {
        lemma_offline_count(ps.drop_last(), i, p);
        assert(qs.drop_last() =~= ps.drop_last().update(i, p));
        assert(qs.last() == ps.last());
    }
}

/// Fewer than `n` steps from one place do not come back to it.
proof fn lemma_window_distinct(offset: int, j: int, k: int, n: int)
    requires
        0 <= j < k < n,
        offset >= 0,
    ensures
        (offset + j) % n != (offset + k) % n,
{
    let a = offset + j;
    let b = offset + k;
    vstd::arithmetic::div_mod::lemma_fundamental_div_mod(a, n);
    vstd::arithmetic::div_mod::lemma_fundamental_div_mod(b, n);
    if a % n == b % n {
        let d = b / n - a / n;
        assert(b - a == n * d) by (nonlinear_arith)
            requires
                a == n * (a / n) + a % n,
                b == n * (b / n) + b % n,
                a % n == b % n,
                d == b / n - a / n,
        ;
        assert(false) by (nonlinear_arith)
            requires
                b - a == n * d,
                0 < b - a < n,
        ;
    }
}

impl System {
    /// Brings all providers online.
    fn bring_all_online(&mut self)
        ensures
            final(self)@ == (SystemState {
                providers: all_online(old(self)@.providers),
                ..old(self)@
            }),
    {
        let ghost before = self@;
        let mut i: usize = 0;
        while i < self.providers.len()
            invariant
                i <= self.providers@.len(),
                self.providers@.len() == before.providers.len(),
                self@ == (SystemState { providers: self@.providers, ..before }),
                forall|k: int|
                    0 <= k < i ==> #[trigger] self@.providers[k] == (ProviderState {
                        online: true,
                        ..before.providers[k]
                    }),
                forall|k: int|
                    i <= k < self.providers@.len() ==> #[trigger] self@.providers[k]
                        == before.providers[k],
            decreases self.providers@.len() - i,
        {
            let ghost mid = self@.providers;
            assert(mid[i as int] == self.providers@[i as int]@);
            self.providers[i].online = true;
            assert(self@.providers =~= mid.update(
                i as int,
                ProviderState { online: true, ..mid[i as int] },
            ));
            i = i + 1;
        }
        assert(self@.providers =~= all_online(before.providers));
    }

    /// Takes `unavailable` providers offline, from place `offset` on and round to the
    /// first, and brings all others online.
    pub fn set_rotating_unavailable(&mut self, unavailable: usize, offset: usize)
        requires
            old(self)@.nsp == old(self)@.providers.len(),
            offset + unavailable <= usize::MAX,
        ensures
            final(self)@ == (SystemState {
                providers: rotated(
                    old(self)@.providers,
                    offset as int,
                    if unavailable <= old(self)@.nsp {
                        unavailable as int
                    } else {
                        old(self)@.nsp as int
                    },
                ),
                ..old(self)@
            }),
            online(final(self)@.providers).len() == if unavailable <= old(self)@.nsp {
                old(self)@.nsp - unavailable
            } else {
                0
            },
    {
        let ghost before = self@;
        let n = self.nsp;
        self.bring_all_online();
        let count: usize = if unavailable <= n {
            unavailable
        } else {
            n
        };
        proof {
            lemma_all_online_count(self@.providers);
            assert(self@.providers =~= rotated(before.providers, offset as int, 0));
        }
        let mut j: usize = 0;
        while j < count
            invariant
                j <= count,
                count <= n,
                count <= unavailable,
                offset + unavailable <= usize::MAX,
                n == before.providers.len(),
                self@ == (SystemState {
                    providers: rotated(before.providers, offset as int, j as int),
                    ..before
                }),
                online(self@.providers).len() == n - j,
            decreases count - j,
        {
            let idx: usize = (offset + j) % n;
            let ghost mid = self@.providers;
            proof {
                assert(mid.len() == self.providers@.len());
                assert(mid[idx as int] == self.providers@[idx as int]@);
                assert(!in_window(idx as int, offset as int, j as int, n as int)) by {
                    if in_window(idx as int, offset as int, j as int, n as int) {
                        let k = choose|k: int|
                            0 <= k < j && #[trigger] ((offset as int + k) % (n as int)) == idx;
                        lemma_window_distinct(offset as int, k, j as int, n as int);
                    }
                }
                assert(mid[idx as int].online);
            }
            self.providers[idx].online = false;
            proof {
                let off = ProviderState { online: false, ..mid[idx as int] };
                assert(self@.providers =~= mid.update(idx as int, off));
                lemma_offline_count(mid, idx as int, off);
                let want = rotated(before.providers, offset as int, j + 1);
                assert forall|i: int| 0 <= i < n implies self@.providers[i] == want[i] by {
                    if i == idx {
                        assert((offset as int + j as int) % (n as int) == i);
                        assert(in_window(i, offset as int, j + 1, n as int));
                    } else {
                        if in_window(i, offset as int, j + 1, n as int) {
                            let k = choose|k: int|
                                0 <= k < j + 1 && #[trigger] ((offset as int + k) % (n as int))
                                    == i;
                            assert(k < j);
                            assert(in_window(i, offset as int, j as int, n as int));
                        }
                        if in_window(i, offset as int, j as int, n as int) {
                            let k = choose|k: int|
                                0 <= k < j && #[trigger] ((offset as int + k) % (n as int)) == i;
                            assert(in_window(i, offset as int, j + 1, n as int));
                        }
                    }
                }
                assert(self@.providers =~= want);
            }
            j = j + 1;
        }
    }
}

/// The newest master state among `own` and those of the first `k` listed providers;
/// of equal counters the earlier counts.
pub open spec fn newest_master(
    ps: Seq<ProviderState>,
    own: MasterState,
    idx: Seq<int>,
    k: int,
) -> MasterState
    decreases k,
{
    if k <= 0 {
        own
    } else {
        let best = newest_master(ps, own, idx, k - 1);
        if ps[idx[k - 1]].master.ctrid > best.ctrid {
            ps[idx[k - 1]].master
        } else {
            best
        }
    }
}

/// The newest verified login secret among `own` and those of the first `k` listed
/// providers; of equal counters the earlier counts.
pub open spec fn newest_csp(
    ps: Seq<ProviderState>,
    svk: Seq<u8>,
    suid: Seq<u8>,
    own: Option<CspState>,
    idx: Seq<int>,
    k: int,
) -> Option<CspState>
    decreases k,
{
    if k <= 0 {
        own
    } else {
        let best = newest_csp(ps, svk, suid, own, idx, k - 1);
        let db = ps[idx[k - 1]].csp_db;
        if db.dom().contains(suid) && csp_verified(svk, suid, db[suid]) && (match best {
            None => true,
            Some(b) => db[suid].ctr > b.ctr,
        }) {
            Some(db[suid])
        } else {
            best
        }
    }
}

/// The record under `suid` if it verifies.
pub open spec fn own_csp(p: ProviderState, suid: Seq<u8>) -> Option<CspState> {
    if p.csp_db.dom().contains(suid) && csp_verified(p.svk, suid, p.csp_db[suid]) {
        Some(p.csp_db[suid])
    } else {
        None
    }
}

impl SystemState {
    /// The quorum that a recovery of the provider at place `i` reads from.
    pub open spec fn recovery_quorum(self, i: int) -> Seq<int> {
        first_of(online_except(self.providers, i), self.qsp as nat)
    }

    /// A quorum of other providers is online.
    pub open spec fn can_recover(self, i: int) -> bool {
        online_except(self.providers, i).len() >= self.qsp
    }

    /// The error of a recovery for which no quorum is online.
    pub open spec fn recovery_error(self, i: int) -> PhaseError {
        PhaseError::NotEnoughOnline {
            online: online_except(self.providers, i).len() as usize,
            needed: self.qsp,
        }
    }

    /// The account after the master state of the provider at place `i` was recovered.
    pub open spec fn master_recovered(self, i: int) -> SystemState {
        let p = self.providers[i];
        let idx = self.recovery_quorum(i);
        let best = newest_master(self.providers, p.master, idx, idx.len() as int);
        SystemState {
            providers: self.providers.update(
                i,
                ProviderState { master: best, online: true, ..p },
            ),
            ..self
        }
    }

    /// The account after a login secret of the provider at place `i` was recovered.
    pub open spec fn csp_recovered(self, i: int, suid: Seq<u8>) -> SystemState {
        let p = self.providers[i];
        let idx = self.recovery_quorum(i);
        let found = newest_csp(
            self.providers,
            p.svk,
            suid,
            own_csp(p, suid),
            idx,
            idx.len() as int,
        );
        let q = match found {
            Some(rec) => p.with_csp(suid, rec),
            None => p,
        };
        SystemState {
            providers: self.providers.update(i, ProviderState { online: true, ..q }),
            ..self
        }
    }
}

/// The newest master state is one of those considered, and none is newer.
pub proof fn newest_master_is_newest(
    ps: Seq<ProviderState>,
    own: MasterState,
    idx: Seq<int>,
    k: int,
)
    requires
        0 <= k <= idx.len(),
    ensures
        newest_master(ps, own, idx, k).ctrid >= own.ctrid,
        forall|j: int|
            0 <= j < k ==> newest_master(ps, own, idx, k).ctrid >= ps[#[trigger] idx[j]].master.ctrid,
        newest_master(ps, own, idx, k) == own || exists|j: int|
            0 <= j < k && newest_master(ps, own, idx, k) == ps[#[trigger] idx[j]].master,
    decreases k,
{
    if k > 0 {
        newest_master_is_newest(ps, own, idx, k - 1);
        if newest_master(ps, own, idx, k) != newest_master(ps, own, idx, k - 1) {
            assert(newest_master(ps, own, idx, k) == ps[idx[k - 1]].master);
        } else if newest_master(ps, own, idx, k) != own {
            let j = choose|j: int|
                0 <= j < k - 1 && newest_master(ps, own, idx, k - 1) == ps[#[trigger] idx[j]].master;
            assert(newest_master(ps, own, idx, k) == ps[idx[j]].master);
        }
    }
}

/// The recovered login secret verifies, and no verified one considered is newer.
pub proof fn newest_csp_is_newest(
    ps: Seq<ProviderState>,
    svk: Seq<u8>,
    suid: Seq<u8>,
    own: Option<CspState>,
    idx: Seq<int>,
    k: int,
)
    requires
        0 <= k <= idx.len(),
        own matches Some(rec) ==> csp_verified(svk, suid, rec),
    ensures
        newest_csp(ps, svk, suid, own, idx, k) matches Some(rec) ==> csp_verified(svk, suid, rec),
        own matches Some(o) ==> (newest_csp(ps, svk, suid, own, idx, k) matches Some(rec) && rec.ctr
            >= o.ctr),
        forall|j: int|
            0 <= j < k && ps[#[trigger] idx[j]].csp_db.dom().contains(suid) && csp_verified(
                svk,
                suid,
                ps[idx[j]].csp_db[suid],
            ) ==> (newest_csp(ps, svk, suid, own, idx, k) matches Some(rec) && rec.ctr
                >= ps[idx[j]].csp_db[suid].ctr),
    decreases k,
{
    if k > 0 {
        newest_csp_is_newest(ps, svk, suid, own, idx, k - 1);
    }
}

/// Distinct places of a recovery quorum as a set.
proof fn lemma_quorum_set(s: SystemState, i: int)
    requires
        s.can_recover(i),
        s.nsp == s.providers.len(),
    ensures
        s.recovery_quorum(i).to_set().len() == s.qsp,
        s.recovery_quorum(i).to_set().subset_of(set_int_range(0, s.nsp as int)),
        s.recovery_quorum(i).len() == s.qsp,
{
    lemma_online_except(s.providers, i);
    let idx = s.recovery_quorum(i);
    assert forall|a: int, b: int| 0 <= a < idx.len() && 0 <= b < idx.len() && a != b implies idx[a]
        != idx[b] by {
        let all = online_except(s.providers, i);
        assert(idx[a] == all[a] && idx[b] == all[b]);
    }
    idx.unique_seq_to_set();
    assert forall|x: int| idx.to_set().contains(x) implies set_int_range(
        0,
        s.nsp as int,
    ).contains(x) by {
        let j = idx.index_of(x);
        assert(online_except(s.providers, i)[j] == x);
    }
}

/// A recovery sees every login secret that a quorum of providers holds: if the providers
/// of some quorum hold verified records with counters of at least `ctr`, the recovered
/// provider holds one with a counter of at least `ctr`.
pub proof fn recovery_sees_quorum_secret(
    s: SystemState,
    i: int,
    suid: Seq<u8>,
    holders: Set<int>,
    ctr: u64,
)
    requires
        s.nsp == s.providers.len(),
        valid_threshold(s.nsp as nat, s.tsp as nat),
        s.qsp == quorum(s.nsp as nat, s.tsp as nat),
        0 <= i < s.nsp,
        s.can_recover(i),
        holders.subset_of(set_int_range(0, s.nsp as int)),
        holders.len() >= s.qsp,
        forall|h: int| #[trigger]
            holders.contains(h) ==> s.providers[h].csp_db.dom().contains(suid) && csp_verified(
                s.providers[i].svk,
                suid,
                s.providers[h].csp_db[suid],
            ) && s.providers[h].csp_db[suid].ctr >= ctr,
    ensures
        s.csp_recovered(i, suid).providers[i].csp_db.dom().contains(suid),
        s.csp_recovered(i, suid).providers[i].csp_db[suid].ctr >= ctr,
        csp_verified(
            s.providers[i].svk,
            suid,
            s.csp_recovered(i, suid).providers[i].csp_db[suid],
        ),
{
    let idx = s.recovery_quorum(i);
    let p = s.providers[i];
    lemma_quorum_set(s, i);
    quorums_intersect(s.nsp as nat, s.tsp as nat, holders, idx.to_set());
    let both = holders.intersect(idx.to_set());
    assert(both.len() > 0);
    let h = both.choose();
    assert(both.contains(h));
    let j = idx.index_of(h);
    newest_csp_is_newest(s.providers, p.svk, suid, own_csp(p, suid), idx, idx.len() as int);
    assert(idx[j] == h);
}

/// A recovery sees every master state that a quorum of providers holds.
pub proof fn recovery_sees_quorum_master(s: SystemState, i: int, holders: Set<int>, ctrid: u64)
    requires
        s.nsp == s.providers.len(),
        valid_threshold(s.nsp as nat, s.tsp as nat),
        s.qsp == quorum(s.nsp as nat, s.tsp as nat),
        0 <= i < s.nsp,
        s.can_recover(i),
        holders.subset_of(set_int_range(0, s.nsp as int)),
        holders.len() >= s.qsp,
        forall|h: int| #[trigger]
            holders.contains(h) ==> s.providers[h].master.ctrid >= ctrid,
    ensures
        s.master_recovered(i).providers[i].master.ctrid >= ctrid,
        s.master_recovered(i).providers[i].master.ctrid >= s.providers[i].master.ctrid,
{
    let idx = s.recovery_quorum(i);
    lemma_quorum_set(s, i);
    quorums_intersect(s.nsp as nat, s.tsp as nat, holders, idx.to_set());
    let both = holders.intersect(idx.to_set());
    assert(both.len() > 0);
    let h = both.choose();
    assert(both.contains(h));
    let j = idx.index_of(h);
    newest_master_is_newest(s.providers, s.providers[i].master, idx, idx.len() as int);
    assert(idx[j] == h);
}

impl System {
    /// The quorum for a recovery, or the error where too few other providers are online.
    fn select_recovery_quorum(&self, recover_idx: usize) -> (r: Result<Vec<usize>, PhaseError>)
        ensures
            match r {
                Ok(v) => {
                    &&& self@.can_recover(recover_idx as int)
                    &&& as_ints(v@) == self@.recovery_quorum(recover_idx as int)
                    &&& v@.len() == self@.qsp
                    &&& good_places(self@.providers, recover_idx as int, as_ints(v@))
                },
                Err(e) => {
                    &&& !self@.can_recover(recover_idx as int)
                    &&& e == self@.recovery_error(recover_idx as int)
                },
            },
    {
        let active = self.places(self.qsp, Some(recover_idx));
        proof {
            lemma_online_except(self@.providers, recover_idx as int);
            assert(as_ints(active@).len() == active@.len());
        }
        if active.len() < self.qsp {
            Err(PhaseError::NotEnoughOnline { online: active.len(), needed: self.qsp })
        } else {
            Ok(active)
        }
    }

    /// Brings the provider at place `recover_idx` online with the newest master state of
    /// its own and of a quorum of the others.
    pub fn recover_master_for_provider(&mut self, recover_idx: usize) -> (r: Result<
        usize,
        PhaseError,
    >)
        requires
            recover_idx < old(self)@.providers.len() || !old(self)@.can_recover(
                recover_idx as int,
            ),
        ensures
            old(self)@.can_recover(recover_idx as int) ==> r == Ok::<usize, PhaseError>(
                old(self)@.qsp,
            ) && final(self)@ == old(self)@.master_recovered(recover_idx as int),
            !old(self)@.can_recover(recover_idx as int) ==> r == Err::<usize, PhaseError>(
                old(self)@.recovery_error(recover_idx as int),
            ) && final(self)@ == old(self)@,
    {
        let active = match self.select_recovery_quorum(recover_idx) {
            Ok(v) => v,
            Err(e) => {
                return Err(e);
            },
        };
        let ghost s0 = self@;
        let ghost idx = as_ints(active@);
        assert(s0.providers[recover_idx as int] == self.providers@[recover_idx as int]@);
        let mut best: MasterRecord = self.providers[recover_idx].master;
        let ghost own = best@;
        let mut j: usize = 0;
        while j < active.len()
            invariant
                j <= active@.len(),
                idx == as_ints(active@),
                s0 == self@,
                good_places(s0.providers, recover_idx as int, idx),
                best@ == newest_master(s0.providers, own, idx, j as int),
            decreases active@.len() - j,
        {
            let i = active[j];
            assert(idx[j as int] == i);
            assert(s0.providers[i as int] == self.providers@[i as int]@);
            let candidate = self.providers[i].master;
            if candidate.ctrid > best.ctrid {
                best = candidate;
            }
            j = j + 1;
        }
        self.providers[recover_idx].master = best;
        self.providers[recover_idx].online = true;
        proof {
            assert(self@.providers =~= s0.master_recovered(recover_idx as int).providers);
            assert(self@ =~= s0.master_recovered(recover_idx as int));
        }
        Ok(active.len())
    }

    /// Brings the provider at place `recover_idx` online with the newest verified login
    /// secret under `suid` of its own and of a quorum of the others.
    pub fn recover_csp_for_provider(&mut self, recover_idx: usize, suid: [u8; 32]) -> (r: Result<
        usize,
        PhaseError,
    >)
        requires
            recover_idx < old(self)@.providers.len() || !old(self)@.can_recover(
                recover_idx as int,
            ),
        ensures
            old(self)@.can_recover(recover_idx as int) ==> r == Ok::<usize, PhaseError>(
                old(self)@.qsp,
            ) && final(self)@ == old(self)@.csp_recovered(recover_idx as int, suid@),
            !old(self)@.can_recover(recover_idx as int) ==> r == Err::<usize, PhaseError>(
                old(self)@.recovery_error(recover_idx as int),
            ) && final(self)@ == old(self)@,
    {
        let active = match self.select_recovery_quorum(recover_idx) {
            Ok(v) => v,
            Err(e) => {
                return Err(e);
            },
        };
        let ghost s0 = self@;
        let ghost idx = as_ints(active@);
        let ghost p0 = s0.providers[recover_idx as int];
        assert(p0 == self.providers@[recover_idx as int]@);
        let svk = self.providers[recover_idx].svk;
        let mut best: Option<CspRecord> = match self.providers[recover_idx].csp(&suid) {
            Some(rec) => if verify_csp_record(&svk, &suid, &rec) {
                Some(rec)
            } else {
                None
            },
            None => None,
        };
        let ghost own = own_csp(p0, suid@);
        let mut j: usize = 0;
        while j < active.len()
            invariant
                j <= active@.len(),
                idx == as_ints(active@),
                s0 == self@,
                svk@ == p0.svk,
                good_places(s0.providers, recover_idx as int, idx),
                (match best {
                    Some(rec) => Some(rec@),
                    None => None,
                }) == newest_csp(s0.providers, p0.svk, suid@, own, idx, j as int),
            decreases active@.len() - j,
        {
            let i = active[j];
            assert(idx[j as int] == i);
            assert(s0.providers[i as int] == self.providers@[i as int]@);
            if let Some(candidate) = self.providers[i].csp(&suid) {
                let newer = match best {
                    None => true,
                    Some(held) => candidate.ctr > held.ctr,
                };
                if verify_csp_record(&svk, &suid, &candidate) && newer {
                    best = Some(candidate);
                }
            }
            j = j + 1;
        }
        if let Some(rec) = best {
            self.providers[recover_idx].put_csp(suid, rec);
        }
        self.providers[recover_idx].online = true;
        proof {
            assert(self@.providers =~= s0.csp_recovered(recover_idx as int, suid@).providers);
            assert(self@ =~= s0.csp_recovered(recover_idx as int, suid@));
        }
        Ok(active.len())
    }
}

/// The record under `suid` at place `i` is in use, no record in use has a larger counter,
/// and none at a later place has the same.
pub open spec fn is_latest_csp(ps: Seq<ProviderState>, i: int, suid: Seq<u8>) -> bool {
    &&& 0 <= i < ps.len()
    &&& ps[i].has_active(suid)
    &&& forall|k: int, x: Seq<u8>|
        0 <= k < ps.len() && #[trigger] ps[k].has_active(x) ==> {
            &&& ps[k].csp_db[x].ctr <= ps[i].csp_db[suid].ctr
            &&& ps[k].csp_db[x].ctr == ps[i].csp_db[suid].ctr ==> k <= i
        }
}

/// Some record is in use.
pub open spec fn any_active(ps: Seq<ProviderState>) -> bool {
    exists|k: int, x: Seq<u8>| 0 <= k < ps.len() && #[trigger] ps[k].has_active(x)
}

/// The providers, each with the given record put in.
pub open spec fn all_with_csp(
    ps: Seq<ProviderState>,
    suid: Seq<u8>,
    rec: CspState,
) -> Seq<ProviderState> {
    Seq::new(ps.len(), |k: int| ps[k].with_csp(suid, rec))
}

/// `after` is `before` with a newest record in use copied to every provider. Among
/// records of one provider with equal counters any may be the one.
pub open spec fn csp_synced(before: SystemState, after: SystemState) -> bool {
    if any_active(before.providers) {
        exists|i: int, suid: Seq<u8>| #[trigger]
            is_latest_csp(before.providers, i, suid) && after == (SystemState {
                providers: all_with_csp(
                    before.providers,
                    suid,
                    before.providers[i].csp_db[suid],
                ),
                ..before
            })
    } else {
        after == before
    }
}

/// The account with the same contents, whichever providers are online.
pub open spec fn same_but_online(a: SystemState, b: SystemState) -> bool {
    &&& a.providers.len() == b.providers.len()
    &&& b == (SystemState { providers: b.providers, ..a })
    &&& forall|i: int|
        0 <= i < a.providers.len() ==> #[trigger] b.providers[i] == (ProviderState {
            online: b.providers[i].online,
            ..a.providers[i]
        })
}

/// Which providers are online changes nothing of what they hold.
pub proof fn availability_changes_nothing_held(a: SystemState, b: SystemState, c: Seq<int>)
    requires
        same_but_online(a, b),
    ensures
        b.sound(c) <==> a.sound(c),
        a.providers.len() > 0 ==> b.master_text(c) == a.master_text(c) && (b.one_master(c)
            <==> a.one_master(c)),
        b.unregistered() <==> a.unregistered(),
        forall|pt: Seq<u8>, rlsj: Seq<u8>, ctr: u64| #[trigger]
            b.all_hold_secret(pt, rlsj, ctr) <==> a.all_hold_secret(pt, rlsj, ctr),
{
    let (n, x, y) = (a.providers.len() as int, a.providers, b.providers);
    assert forall|i: int| 0 <= i < n implies (#[trigger] x[i]) == (ProviderState {
        online: x[i].online,
        ..y[i]
    }) by {
        assert(y[i].master == x[i].master);
    }
    lemma_same_holdings(a, b, c);
    lemma_same_holdings(b, a, c);
}

/// `after` is the account `before` with the login secret `rlsj` registered: every provider
/// holds it, the login server has its verification value, and the master states are those
/// of before.
pub open spec fn registered_everywhere(
    before: SystemState,
    c: Seq<int>,
    rlsj: Seq<u8>,
    after: SystemState,
) -> bool {
    &&& after.sound(c)
    &&& after.one_master(c)
    &&& after.master_text(c) == before.master_text(c)
    &&& after.all_hold_secret(before.master_text(c), rlsj, 0)
}

proof fn lemma_same_holdings(a: SystemState, b: SystemState, c: Seq<int>)
    requires
        same_but_online(a, b),
    ensures
        a.sound(c) ==> b.sound(c),
        a.providers.len() > 0 ==> b.master_text(c) == a.master_text(c),
        a.one_master(c) ==> b.one_master(c),
        a.unregistered() ==> b.unregistered(),
        forall|pt: Seq<u8>, rlsj: Seq<u8>, ctr: u64| #[trigger]
            a.all_hold_secret(pt, rlsj, ctr) ==> b.all_hold_secret(pt, rlsj, ctr),
{
    let (x, y) = (a.providers, b.providers);
    let n = x.len() as int;
    if n > 0 {
        assert(y[0].master == x[0].master);
    }
    assert forall|i: int| 0 <= i < n implies {
        &&& (#[trigger] y[i]).master == x[i].master
        &&& y[i].svk == x[i].svk
        &&& y[i].share == x[i].share
        &&& y[i].id == x[i].id
        &&& y[i].csp_db == x[i].csp_db
    } by {
    }
    if a.sound(c) {
        assert forall|i: int| 0 <= i < n implies {
            &&& (#[trigger] y[i]).share == eval(c, y[i].id as int) % (order() as int)
            &&& y[i].svk == ed25519_public(b.user_ssk)
        } by {
            assert(x[i].svk == ed25519_public(a.user_ssk));
        }
        assert forall|i: int, j: int| 0 <= i < j < n implies (#[trigger] y[i]).id != (
        #[trigger] y[j]).id by {
            assert(x[i].id != x[j].id);
        }
        assert(b.shared_by(c));
        assert forall|i: int| 0 <= i < n implies opened(
            password_key(b.password, b.pwd_point, c),
            b.cipherid_aad,
            (#[trigger] y[i]).master.cipherid,
        ) matches Some(pt) && pt.len() == CIPHERID_PT_LEN && ssk_in(pt) == b.user_ssk by {
            assert(x[i].svk == ed25519_public(a.user_ssk));
        }
    }
    if a.one_master(c) {
        assert forall|i: int| 0 <= i < n implies opened(
            password_key(b.password, b.pwd_point, c),
            b.cipherid_aad,
            (#[trigger] y[i]).master.cipherid,
        ) == Some(b.master_text(c)) by {
            assert(x[i].master == y[i].master);
        }
    }
    if a.unregistered() {
        assert forall|i: int| 0 <= i < n implies (#[trigger] y[i]).csp_db == Map::<
            Seq<u8>,
            CspState,
        >::empty() by {
            assert(x[i].csp_db == Map::<Seq<u8>, CspState>::empty());
        }
    }
    assert forall|pt: Seq<u8>, rlsj: Seq<u8>, ctr: u64| #[trigger]
        a.all_hold_secret(pt, rlsj, ctr) implies b.all_hold_secret(pt, rlsj, ctr) by {
        assert forall|i: int| 0 <= i < n implies {
            let p = #[trigger] y[i];
            &&& p.has_active(b.suid_in(pt))
            &&& p.csp_db[b.suid_in(pt)].ctr == ctr
            &&& opened(fk_in(pt), b.ciphersp_aad, p.csp_db[b.suid_in(pt)].ciphersp) == Some(
                csp_layout(rlsj, ctr),
            )
        } by {
            assert(x[i].has_active(a.suid_in(pt)));
        }
    }
}

proof fn lemma_registered_everywhere(s: SystemState, c: Seq<int>, rng: RngState, after: SystemState)
    requires
        s.sound(c),
        s.one_master(c),
        s.unregistered(),
        online(s.providers).len() >= s.qsp,
        s.unlocked(s.password, s.pwd_point, rng) == Ok::<Seq<u8>, PhaseError>(s.master_text(c)),
        s.registration(rng).result is Ok,
        s.registration(rng).state.quorum_holds_secret(
            s.chosen(s.qsp),
            s.master_text(c),
            s.unlock_rng(rng).bytes(32),
            0,
        ),
        csp_synced(s.registration(rng).state, after),
    ensures
        registered_everywhere(s, c, rng.skip(64).bytes(32), after),
{
    let pt = s.master_text(c);
    let mid = s.registration(rng).state;
    let rlsj = rng.skip(64).bytes(32);
    let suid = s.suid_in(pt);
    let idx = s.chosen(s.qsp);
    let w = s.register_write(pt, s.unlock_rng(rng));
    let (x, y) = (s.providers, mid.providers);
    let n = x.len() as int;
    lemma_online_except(x, -1);
    assert(s.unlock_rng(rng) == rng.skip(64));
    assert forall|i: int, u: Seq<u8>| 0 <= i < n && #[trigger] y[i].has_active(u) implies u == suid
        && y[i].csp_db[u].ctr == 0 && opened(fk_in(pt), s.ciphersp_aad, y[i].csp_db[u].ciphersp)
        == Some(csp_layout(rlsj, 0)) by {
        assert(x[i].csp_db == Map::<Seq<u8>, CspState>::empty());
        assert(idx.contains(i));
        let j = idx.index_of(i);
        assert(idx[j] == i);
        assert(y[idx[j]].has_active(suid));
    }
    assert(idx[0] == online(x)[0]);
    assert(y[idx[0]].has_active(suid));
    let (i, u) = choose|i: int, u: Seq<u8>| #[trigger]
        is_latest_csp(y, i, u) && after == (SystemState {
            providers: all_with_csp(y, u, y[i].csp_db[u]),
            ..mid
        });
    assert(y[i].has_active(u));
    let z = after.providers;
    assert forall|k: int| 0 <= k < n implies {
        &&& (#[trigger] z[k]).master == x[k].master
        &&& z[k].svk == x[k].svk
        &&& z[k].share == x[k].share
        &&& z[k].id == x[k].id
        &&& z[k].csp_db == y[k].csp_db.insert(suid, y[i].csp_db[suid])
    } by {
        assert(y[k].master == x[k].master);
    }
    let bare = SystemState {
        providers: Seq::new(x.len(), |k: int| ProviderState { csp_db: z[k].csp_db, ..x[k] }),
        login: after.login,
        ..s
    };
    assert(same_but_online(bare, after)) by {
        assert forall|k: int| 0 <= k < n implies #[trigger] z[k] == (ProviderState {
            online: z[k].online,
            ..bare.providers[k]
        }) by {
            assert(z[k].master == x[k].master);
        }
    }
    assert(bare.sound(c)) by {
        assert forall|k: int| 0 <= k < n implies {
            &&& (#[trigger] bare.providers[k]).svk == ed25519_public(bare.user_ssk)
            &&& bare.providers[k].master == x[k].master
        } by {
            assert(x[k].svk == ed25519_public(s.user_ssk));
        }
        assert(bare.shared_by(c));
    }
    assert(bare.master_text(c) == pt);
    assert(bare.one_master(c));
    assert(bare.all_hold_secret(pt, rlsj, 0)) by {
        assert forall|k: int| 0 <= k < n implies {
            let p = #[trigger] bare.providers[k];
            &&& p.has_active(bare.suid_in(pt))
            &&& p.csp_db[bare.suid_in(pt)].ctr == 0
            &&& opened(fk_in(pt), bare.ciphersp_aad, p.csp_db[bare.suid_in(pt)].ciphersp) == Some(
                csp_layout(rlsj, 0),
            )
        } by {
            assert(z[k].csp_db == y[k].csp_db.insert(suid, y[i].csp_db[suid]));
        }
    }
    availability_changes_nothing_held(bare, after, c);
}

/// The last of the first `k` places whose master counter is largest.
pub open spec fn latest_master_place(ps: Seq<ProviderState>, k: int) -> int
    decreases k,
{
    if k <= 1 {
        0
    } else {
        let best = latest_master_place(ps, k - 1);
        if ps[k - 1].master.ctrid >= ps[best].master.ctrid {
            k - 1
        } else {
            best
        }
    }
}

/// Nothing is newer than the latest master state.
pub proof fn latest_master_is_latest(ps: Seq<ProviderState>, k: int)
    requires
        1 <= k <= ps.len(),
    ensures
        0 <= latest_master_place(ps, k) < k,
        forall|j: int|
            0 <= j < k ==> (#[trigger] ps[j]).master.ctrid <= ps[latest_master_place(
                ps,
                k,
            )].master.ctrid,
    decreases k,
{
    if k > 1 {
        latest_master_is_latest(ps, k - 1);
    }
}

impl SystemState {
    /// The account with the latest master state at every provider.
    pub open spec fn master_synced(self) -> SystemState {
        let best = self.providers[latest_master_place(
            self.providers,
            self.providers.len() as int,
        )].master;
        SystemState {
            providers: Seq::new(
                self.providers.len(),
                |k: int| ProviderState { master: best, ..self.providers[k] },
            ),
            ..self
        }
    }

    /// A login secret under a random key.
    pub open spec fn synthetic_blob(self, rng: RngState, ctr: u64) -> Blob {
        sealed(
            rng.bytes(32),
            self.ciphersp_aad,
            csp_layout(rng.skip(32).bytes(32), ctr),
            rng.skip(32).skip(32).bytes(24),
        )
    }

    /// The signature of the user on a write of a login secret.
    pub open spec fn signed_csp(self, suid: Seq<u8>, blob: Blob, ctr: u64) -> Seq<u8> {
        ed25519_sign(self.user_ssk, csp_message(suid, blob, ctr))
    }

    /// The account with a synthetic login secret at every provider.
    pub open spec fn with_synthetic(self, rng: RngState, ctr: u64) -> SystemState {
        let suid = rng.bytes(32);
        let blob = self.synthetic_blob(rng.skip(32), ctr);
        SystemState {
            providers: all_with_csp(
                self.providers,
                suid,
                active_record(blob, ctr, self.signed_csp(suid, blob, ctr)),
            ),
            ..self
        }
    }

    /// The write of a synthetic login secret under `suid`.
    pub open spec fn synthetic_update(self, suid: Seq<u8>, rng: RngState) -> WriteState {
        let blob = self.synthetic_blob(rng, 1);
        WriteState::Update { suid, ciphersp: blob, ctr: 1, sig: self.signed_csp(suid, blob, 1) }
    }

    /// The first write of a synthetic login secret.
    pub open spec fn synthetic_register(self, rng: RngState) -> WriteState {
        let suid = rng.bytes(32);
        let blob = self.synthetic_blob(rng.skip(32), 0);
        WriteState::Register { suid, ciphersp: blob, ctr: 0, sig: self.signed_csp(suid, blob, 0) }
    }

    /// A place that comes first among those with login secrets holds one under `suid`.
    pub open spec fn first_holds(self, suid: Seq<u8>) -> bool {
        exists|i: int| #[trigger] self.first_holds_at(i, suid)
    }

    /// The place `i` comes first among those with login secrets and holds one under
    /// `suid`.
    pub open spec fn first_holds_at(self, i: int, suid: Seq<u8>) -> bool {
        &&& 0 <= i < self.providers.len()
        &&& self.providers[i].csp_db.dom().contains(suid)
        &&& forall|k: int|
            0 <= k < i ==> (#[trigger] self.providers[k]).csp_db == Map::<
                Seq<u8>,
                CspState,
            >::empty()
    }
}

/// The generator after a synthetic login secret was drawn.
pub open spec fn after_synthetic(rng: RngState) -> RngState {
    rng.skip(32).skip(32).skip(24)
}

/// The digest of a bare quorum operation, where the write succeeded.
pub open spec fn overhead_result(
    tag: Seq<u8>,
    body: Seq<u8>,
    written: Result<usize, PhaseError>,
) -> Result<Seq<u8>, PhaseError> {
    match written {
        Ok(n) => Ok(counted_digest(tag, body, n)),
        Err(e) => Err(e),
    }
}

impl System {
    /// Puts a record in at every provider.
    fn put_csp_everywhere(&mut self, suid: [u8; 32], rec: CspRecord)
        ensures
            final(self)@ == (SystemState {
                providers: all_with_csp(old(self)@.providers, suid@, rec@),
                ..old(self)@
            }),
    {
        let ghost before = self@;
        let mut i: usize = 0;
        while i < self.providers.len()
            invariant
                i <= self.providers@.len(),
                self.providers@.len() == before.providers.len(),
                self@ == (SystemState { providers: self@.providers, ..before }),
                forall|k: int|
                    0 <= k < i ==> #[trigger] self@.providers[k] == before.providers[k].with_csp(
                        suid@,
                        rec@,
                    ),
                forall|k: int|
                    i <= k < self.providers@.len() ==> #[trigger] self@.providers[k]
                        == before.providers[k],
            decreases self.providers@.len() - i,
        {
            let ghost mid = self@.providers;
            assert(mid[i as int] == self.providers@[i as int]@);
            self.providers[i].put_csp(suid, rec);
            assert(self@.providers =~= mid.update(
                i as int,
                mid[i as int].with_csp(suid@, rec@),
            ));
            i = i + 1;
        }
        assert(self@.providers =~= all_with_csp(before.providers, suid@, rec@));
    }

    /// Copies a newest login secret in use to every provider.
    pub fn force_sync_latest_csp_to_all(&mut self)
        ensures
            csp_synced(old(self)@, final(self)@),
    {
        let ghost s0 = self@;
        let ghost ps = self@.providers;
        let ghost mut place: int = 0;
        let mut latest: Option<([u8; 32], CspRecord)> = None;
        let mut i: usize = 0;
        while i < self.providers.len()
            invariant
                i <= self.providers@.len(),
                s0 == self@,
                ps == s0.providers,
                match latest {
                    Some((suid, rec)) => {
                        &&& 0 <= place < i
                        &&& ps[place].has_active(suid@)
                        &&& ps[place].csp_db[suid@] == rec@
                        &&& forall|k: int, x: Seq<u8>|
                            0 <= k < i && #[trigger] ps[k].has_active(x) ==> {
                                &&& ps[k].csp_db[x].ctr <= rec.ctr
                                &&& ps[k].csp_db[x].ctr == rec.ctr ==> k <= place
                            }
                    },
                    None => forall|k: int, x: Seq<u8>|
                        0 <= k < i ==> !#[trigger] ps[k].has_active(x),
                },
            decreases self.providers@.len() - i,
        {
            let db = &self.providers[i].csp_db;
            assert(ps[i as int] == self.providers@[i as int]@);
            let mut j: usize = 0;
            while j < db.len()
                invariant
                    j <= db.keys().len(),
                    i < self.providers@.len(),
                    s0 == self@,
                    ps == s0.providers,
                    *db == self.providers@[i as int].csp_db,
                    ps[i as int] == self.providers@[i as int]@,
                    match latest {
                        Some((suid, rec)) => {
                            &&& 0 <= place <= i
                            &&& ps[place].has_active(suid@)
                            &&& ps[place].csp_db[suid@] == rec@
                            &&& forall|k: int, x: Seq<u8>|
                                0 <= k < i && #[trigger] ps[k].has_active(x) ==> {
                                    &&& ps[k].csp_db[x].ctr <= rec.ctr
                                    &&& ps[k].csp_db[x].ctr == rec.ctr ==> k <= place
                                }
                            &&& forall|q: int|
                                0 <= q < j && ps[i as int].has_active(
                                    (#[trigger] db.keys()[q])@,
                                ) ==> {
                                    &&& ps[i as int].csp_db[db.keys()[q]@].ctr <= rec.ctr
                                    &&& ps[i as int].csp_db[db.keys()[q]@].ctr == rec.ctr ==> place
                                        == i
                                }
                        },
                        None => {
                            &&& forall|k: int, x: Seq<u8>|
                                0 <= k < i ==> !#[trigger] ps[k].has_active(x)
                            &&& forall|q: int|
                                0 <= q < j ==> !ps[i as int].has_active(
                                    (#[trigger] db.keys()[q])@,
                                )
                        },
                    },
                decreases db.keys().len() - j,
            {
                let key = db.key_at(j);
                if let Some(rec) = db.get(&key) {
                    let newer = match latest {
                        None => true,
                        Some((_, held)) => rec.ctr >= held.ctr,
                    };
                    assert(ps[i as int].csp_db[key@] == rec@);
                    if rec.active && newer {
                        latest = Some((key, *rec));
                        proof {
                            place = i as int;
                        }
                    }
                }
                j = j + 1;
            }
            proof {
                assert forall|x: Seq<u8>| #[trigger] ps[i as int].has_active(x) implies exists|
                    q: int,
                |
                    0 <= q < j && (#[trigger] db.keys()[q])@ == x by {
                    let q = db.lemma_listed(x);
                    assert(db.keys()[q]@ == x);
                }
            }
            i = i + 1;
        }
        if let Some((suid, rec)) = latest {
            proof {
                assert(is_latest_csp(ps, place, suid@));
                assert(any_active(ps));
            }
            self.put_csp_everywhere(suid, rec);
        } else {
            assert(!any_active(ps));
        }
    }

    /// Copies the latest master state to every provider.
    pub fn force_sync_latest_master_to_all(&mut self)
        ensures
            final(self)@ == if old(self)@.providers.len() == 0 {
                old(self)@
            } else {
                old(self)@.master_synced()
            },
    {
        let ghost s0 = self@;
        let ghost ps = self@.providers;
        let n: usize = self.providers.len();
        if n == 0 {
            return;
        }
        let mut best: usize = 0;
        let mut i: usize = 1;
        while i < n
            invariant
                1 <= i <= n,
                n == ps.len(),
                ps == self@.providers,
                s0 == self@,
                best < i,
                best == latest_master_place(ps, i as int),
            decreases n - i,
        {
            assert(ps[i as int] == self.providers@[i as int]@);
            assert(ps[best as int] == self.providers@[best as int]@);
            if self.providers[i].master.ctrid >= self.providers[best].master.ctrid {
                best = i;
            }
            i = i + 1;
        }
        assert(ps[best as int] == self.providers@[best as int]@);
        let master = self.providers[best].master;
        let mut k: usize = 0;
        while k < n
            invariant
                k <= n,
                n == ps.len(),
                ps == s0.providers,
                self.providers@.len() == n,
                self@ == (SystemState { providers: self@.providers, ..s0 }),
                forall|q: int|
                    0 <= q < k ==> #[trigger] self@.providers[q] == (ProviderState {
                        master: master@,
                        ..ps[q]
                    }),
                forall|q: int| k <= q < n ==> #[trigger] self@.providers[q] == ps[q],
            decreases n - k,
        {
            let ghost mid = self@.providers;
            assert(mid[k as int] == self.providers@[k as int]@);
            self.providers[k].master = master;
            assert(self@.providers =~= mid.update(
                k as int,
                ProviderState { master: master@, ..mid[k as int] },
            ));
            k = k + 1;
        }
        assert(self@ =~= s0.master_synced());
    }

    /// An account identifier under which the first provider with login secrets holds one.
    pub fn any_suid(&self) -> (r: Option<[u8; 32]>)
        ensures
            match r {
                Some(suid) => self@.first_holds(suid@),
                None => forall|i: int|
                    0 <= i < self@.providers.len() ==> (#[trigger] self@.providers[i]).csp_db
                        == Map::<Seq<u8>, CspState>::empty(),
            },
    {
        let mut i: usize = 0;
        while i < self.providers.len()
            invariant
                i <= self.providers@.len(),
                forall|k: int|
                    0 <= k < i ==> (#[trigger] self@.providers[k]).csp_db == Map::<
                        Seq<u8>,
                        CspState,
                    >::empty(),
            decreases self.providers@.len() - i,
        {
            let db = &self.providers[i].csp_db;
            assert(self@.providers[i as int] == self.providers@[i as int]@);
            if db.len() > 0 {
                let key = db.key_at(0);
                assert(self@.first_holds_at(i as int, key@));
                return Some(key);
            }
            proof {
                db.lemma_no_keys();
                assert(self@.providers[i as int].csp_db =~= Map::<Seq<u8>, CspState>::empty());
            }
            i = i + 1;
        }
        None
    }

    /// Brings all providers online, registers, and copies the login secret to every one. On an
    /// account without registrations, whose master states agree, that succeeds: every
    /// provider then holds the one login secret.
    pub fn force_registered_all(&mut self, rng: &mut Rng) -> (r: Result<[u8; 32], PhaseError>)
        ensures
            ({
                let awake = SystemState {
                    providers: all_online(old(self)@.providers),
                    ..old(self)@
                };
                let registered = awake.registration(old(rng)@);
                &&& viewed(r) == registered.result
                &&& final(rng)@ == registered.rng
                &&& r is Ok ==> csp_synced(registered.state, final(self)@)
                &&& r is Err ==> final(self)@ == registered.state
            }),
            forall|c: Seq<int>| #[trigger]
                old(self)@.sound(c) && old(self)@.one_master(c) && old(self)@.unregistered()
                    && old(self)@.qsp <= old(self)@.providers.len() && scalar_drawn(old(rng)@)
                    != 0 ==> r is Ok && registered_everywhere(
                    old(self)@,
                    c,
                    old(rng)@.skip(64).bytes(32),
                    final(self)@,
                ),
    {
        let ghost s0 = self@;
        self.bring_all_online();
        let ghost awake = self@;
        proof {
            lemma_all_online_count(awake.providers);
            assert forall|c: Seq<int>| #[trigger]
                s0.sound(c) && s0.qsp <= s0.providers.len() implies awake.sound(c) && (
            s0.one_master(c) ==> awake.one_master(c) && awake.master_text(c) == s0.master_text(
                c,
            )) by {
                availability_changes_nothing_held(s0, awake, c);
            }
        }
        match self.phase_registration(rng) {
            Ok(digest) => {
                let ghost registered = self@;
                self.force_sync_latest_csp_to_all();
                proof {
                    assert forall|c: Seq<int>| #[trigger]
                        s0.sound(c) && s0.one_master(c) && s0.unregistered() && s0.qsp
                            <= s0.providers.len() && scalar_drawn(old(rng)@)
                            != 0 implies registered_everywhere(
                        s0,
                        c,
                        old(rng)@.skip(64).bytes(32),
                        self@,
                    ) by {
                        assert(awake.sound(c));
                        assert(awake.unregistered());
                        lemma_registered_everywhere(awake, c, old(rng)@, self@);
                    }
                }
                Ok(digest)
            },
            Err(e) => Err(e),
        }
    }

    /// Signs a write of a login secret with the user's key.
    pub fn sign_csp_write(
        &self,
        suid: &[u8; 32],
        ciphersp: &CtBlob<CIPHERSP_PT_LEN>,
        ctr: u64,
    ) -> (r: Signature)
        ensures
            r@ == self@.signed_csp(suid@, ciphersp@, ctr),
            ed25519_verify(
                ed25519_public(self@.user_ssk),
                csp_message(suid@, ciphersp@, ctr),
                r@,
            ),
    {
        keys::sign(&self.user_ssk, csp_write_message(suid, ciphersp, ctr).as_slice())
    }

    fn synthetic_csp_blob(&self, rng: &mut Rng, ctr: u64) -> (r: (CtBlob<CIPHERSP_PT_LEN>, u64))
        ensures
            r.0@ == self@.synthetic_blob(old(rng)@, ctr),
            r.1 == ctr,
            final(rng)@ == after_synthetic(old(rng)@),
    {
        let fk = rng.take_array::<32>();
        let rlsj = rng.take_array::<32>();
        let pt = csp_plaintext(&rlsj, ctr);
        let blob = aead::xchacha_encrypt_detached(&fk, self.ciphersp_aad.as_slice(), &pt, rng);
        (blob, ctr)
    }

    /// A random account identifier and a login secret under a random key.
    pub fn make_synthetic_csp_payload(&self, rng: &mut Rng, ctr: u64) -> (r: (
        [u8; 32],
        CtBlob<CIPHERSP_PT_LEN>,
        u64,
    ))
        ensures
            r.0@ == old(rng)@.bytes(32),
            r.1@ == self@.synthetic_blob(old(rng)@.skip(32), ctr),
            r.2 == ctr,
            final(rng)@ == after_synthetic(old(rng)@.skip(32)),
    {
        let suid = rng.take_array::<32>();
        let (blob, ctr) = self.synthetic_csp_blob(rng, ctr);
        (suid, blob, ctr)
    }

    /// Registers a synthetic login secret with a quorum.
    pub fn quorum_overhead_csp_register(&mut self, rng: &mut Rng) -> (r: Result<
        [u8; 32],
        PhaseError,
    >)
        ensures
            viewed(r) == overhead_result(
                "qover/csp/register".spec_bytes(),
                old(rng)@.bytes(32),
                old(self)@.write_result(old(self)@.synthetic_register(old(rng)@)),
            ),
            final(self)@ == old(self)@.after_write(old(self)@.synthetic_register(old(rng)@)),
            final(rng)@ == after_synthetic(old(rng)@.skip(32)),
    {
        let (suid, blob, ctr) = self.make_synthetic_csp_payload(rng, 0);
        let sig = self.sign_csp_write(&suid, &blob, ctr);
        match self.qwrite_csp_register(suid, blob, ctr, &sig) {
            Ok(acks) => Ok(digest_with_count("qover/csp/register".as_bytes(), &suid, acks)),
            Err(e) => Err(e),
        }
    }

    /// Puts a synthetic login secret in at every provider.
    pub fn install_synthetic_csp_all(&mut self, rng: &mut Rng, ctr: u64)
        ensures
            final(self)@ == old(self)@.with_synthetic(old(rng)@, ctr),
            final(rng)@ == after_synthetic(old(rng)@.skip(32)),
    {
        let (suid, blob, ctr) = self.make_synthetic_csp_payload(rng, ctr);
        let sig = self.sign_csp_write(&suid, &blob, ctr);
        self.put_csp_everywhere(suid, CspRecord { ciphersp: blob, ctr, active: true, sig });
    }

    /// Installs a synthetic login secret everywhere and replaces one that the first
    /// provider holds at a quorum.
    pub fn quorum_overhead_csp_update(&mut self, rng: &mut Rng) -> (r: Result<
        [u8; 32],
        PhaseError,
    >)
        requires
            old(self)@.providers.len() > 0,
        ensures
            ({
                let ready = old(self)@.with_synthetic(old(rng)@, 0);
                let rng1 = after_synthetic(old(rng)@.skip(32));
                &&& final(rng)@ == after_synthetic(rng1)
                &&& exists|suid: Seq<u8>| #[trigger]
                    ready.first_holds(suid) && viewed(r) == overhead_result(
                        "qover/csp/update".spec_bytes(),
                        suid,
                        ready.write_result(ready.synthetic_update(suid, rng1)),
                    ) && final(self)@ == ready.after_write(ready.synthetic_update(suid, rng1))
            }),
    {
        let ghost s0 = self@;
        let ghost r0 = rng@;
        self.install_synthetic_csp_all(rng, 0);
        let ghost ready = self@;
        let suid = match self.any_suid() {
            Some(suid) => suid,
            None => {
                proof {
                    assert(ready.providers[0].csp_db.dom().contains(r0.bytes(32)));
                    assert(false);
                }
                vstd::pervasive::unreached()
            },
        };
        let (blob, ctr) = self.synthetic_csp_blob(rng, 1);
        let sig = self.sign_csp_write(&suid, &blob, ctr);
        assert(ready.first_holds(suid@));
        match self.qwrite_csp_update(suid, blob, ctr, &sig) {
            Ok(acks) => Ok(digest_with_count("qover/csp/update".as_bytes(), &suid, acks)),
            Err(e) => Err(e),
        }
    }

    /// Moves the master state to the key of the new password at a quorum.
    pub fn quorum_overhead_master_update(&mut self, rng: &mut Rng) -> (r: Result<
        [u8; 32],
        PhaseError,
    >)
        ensures
            match old(self)@.password_update_write(old(rng)@).0 {
                Ok(w) => {
                    &&& viewed(r) == overhead_result(
                        "qover/master/update".spec_bytes(),
                        w->Master_sig,
                        old(self)@.write_result(w),
                    )
                    &&& final(self)@ == old(self)@.after_write(w)
                },
                Err(e) => r == Err::<[u8; 32], PhaseError>(e) && final(self)@ == old(self)@,
            },
            final(rng)@ == old(self)@.password_update_write(old(rng)@).1,
    {
        let (newcipherid, new_ctrid, sig) = match self.make_valid_master_update_payload(rng) {
            Ok(p) => p,
            Err(e) => {
                return Err(e);
            },
        };
        match self.qwrite_master(newcipherid, new_ctrid, &sig) {
            Ok(acks) => Ok(digest_with_count("qover/master/update".as_bytes(), &sig, acks)),
            Err(e) => Err(e),
        }
    }
}

} // verus!
