//! The accounts, phases and bare quorum operations that the quorum engine measures.
use vstd::prelude::*;
use vstd::string::StringSliceAdditionalSpecFns;

use crate::aead::{opened, CtBlob};
use crate::bytes::u64_le;
use crate::hash::blake3_hash;
use crate::keys::{ed25519_public, ed25519_verify, Signature};
use crate::net_phases::Op;
use crate::provider::{
    master_message, seed_for, PhaseError, ProviderState, CIPHERID_PT_LEN, CIPHERSP_PT_LEN,
};
use crate::quorum::{quorum, valid_threshold};
use crate::rng::{Rng, RngState};
use crate::toprf::scalar_drawn;
use crate::upspa_abd::{
    accepts, lemma_online_except, online, online_except, password_key, System, SystemState,
    WriteState,
};
use crate::upspa_phases::{
    ctrid_in, fresh_system, viewed, write_succeeds_iff_quorum_accepts, Outcome,
};
use crate::upspa_recovery::{
    after_synthetic, all_online, availability_changes_nothing_held, csp_synced, rotated,
};

verus! {

/// What a phase returns and leaves behind.
pub open spec fn phase_outcome(s: SystemState, op: Op, rng: RngState) -> Outcome {
    match op {
        Op::Reg => s.registration(rng),
        Op::SecUpd => s.secret_update(rng),
        Op::PwdUpd => s.password_update(rng),
    }
}

/// Runs a phase.
pub fn run_phase(sys: &mut System, op: Op, rng: &mut Rng) -> (r: Result<[u8; 32], PhaseError>)
    ensures
        viewed(r) == phase_outcome(old(sys)@, op, old(rng)@).result,
        final(sys)@ == phase_outcome(old(sys)@, op, old(rng)@).state,
        final(rng)@ == phase_outcome(old(sys)@, op, old(rng)@).rng,
{
    match op {
        Op::Reg => sys.phase_registration(rng),
        Op::SecUpd => sys.phase_secret_update(rng),
        Op::PwdUpd => sys.phase_password_update(rng),
    }
}

/// The seed for one iteration of an experiment.
pub open spec fn seed(tag: Seq<u8>, nsp: usize, tsp: usize, iter: u64) -> Seq<u8> {
    blake3_hash(tag + u64_le(nsp as u64) + u64_le(tsp as u64) + u64_le(iter))
}

/// The account that an iteration of an experiment starts from.
pub open spec fn system_at(nsp: usize, tsp: usize, iter: u64) -> SystemState {
    fresh_system(nsp, tsp, seed("bench/upspa-abd/system".spec_bytes(), nsp, tsp, iter))
}

/// The registration before a secret update.
pub open spec fn pre_registration(nsp: usize, tsp: usize, iter: u64) -> Outcome {
    let fresh = system_at(nsp, tsp, iter);
    let awake = SystemState { providers: all_online(fresh.providers), ..fresh };
    awake.registration(
        RngState::start(seed("bench/upspa-abd/pre-register".spec_bytes(), nsp, tsp, iter)),
    )
}

/// The account that a phase is measured on: a fresh one, with a login secret at every
/// provider where the phase is to replace one.
pub fn make_system_for_op(op: Op, nsp: usize, tsp: usize, iter: u64) -> (r: Result<
    System,
    PhaseError,
>)
    requires
        valid_threshold(nsp as nat, tsp as nat),
        nsp + tsp < usize::MAX,
    ensures
        op != Op::SecUpd ==> (r matches Ok(s) && s@ == system_at(nsp, tsp, iter)),
        op == Op::SecUpd ==> match r {
            Ok(s) => pre_registration(nsp, tsp, iter).result is Ok && csp_synced(
                pre_registration(nsp, tsp, iter).state,
                s@,
            ),
            Err(e) => pre_registration(nsp, tsp, iter).result == Err::<Seq<u8>, PhaseError>(e),
        },
{
    let mut sys = System::new(
        nsp,
        tsp,
        seed_for("bench/upspa-abd/system".as_bytes(), nsp, tsp, iter),
    );
    if op == Op::SecUpd {
        let mut rng = Rng::from_seed(
            seed_for("bench/upspa-abd/pre-register".as_bytes(), nsp, tsp, iter),
        );
        match sys.force_registered_all(&mut rng) {
            Ok(_) => {},
            Err(e) => {
                return Err(e);
            },
        }
    }
    Ok(sys)
}

/// What comes after an attempt that may fail.
#[derive(Clone, Copy, Debug, PartialEq, Eq, Structural)]
pub enum Next {
    Record,
    Retry,
    GiveUp,
}

/// How often a failing iteration is attempted.
pub const MAX_ATTEMPTS: usize = 256;

/// Decides what comes after an attempt, given how many failed before it.
pub fn after_attempt(succeeded: bool, failed: usize) -> (r: Next)
    requires
        failed < MAX_ATTEMPTS,
    ensures
        r == if succeeded {
            Next::Record
        } else if failed + 1 >= MAX_ATTEMPTS {
            Next::GiveUp
        } else {
            Next::Retry
        },
{
    if succeeded {
        Next::Record
    } else if failed + 1 >= MAX_ATTEMPTS {
        Next::GiveUp
    } else {
        Next::Retry
    }
}

/// A write that is ready to be made. A write of a login secret is signed when it is made.
#[derive(Clone, Copy, Debug)]
pub enum Pending {
    Register { suid: [u8; 32], blob: CtBlob<CIPHERSP_PT_LEN>, ctr: u64 },
    Update { suid: [u8; 32], blob: CtBlob<CIPHERSP_PT_LEN>, ctr: u64 },
    Master { blob: CtBlob<CIPHERID_PT_LEN>, ctrid: u64, sig: Signature },
}

/// An account with a write that is ready to be made.
pub struct Overhead {
    pub sys: System,
    pub pending: Pending,
}

/// The account that an iteration starts from.
pub open spec fn overhead_start(nsp: usize, tsp: usize, iter: u64) -> SystemState {
    fresh_system(nsp, tsp, seed("bench/upspa-abd/quorum-total/system".spec_bytes(), nsp, tsp, iter))
}

/// The generator of an iteration, at its beginning.
pub open spec fn overhead_rng(nsp: usize, tsp: usize, iter: u64) -> RngState {
    RngState::start(seed("bench/upspa-abd/quorum-total/rng".spec_bytes(), nsp, tsp, iter))
}

/// The account with some providers unavailable, from place `iter` on.
pub open spec fn with_unavailable(s: SystemState, unavailable: usize, iter: usize) -> SystemState {
    let count = if unavailable <= s.nsp {
        unavailable as int
    } else {
        s.nsp as int
    };
    SystemState { providers: rotated(s.providers, iter as int, count), ..s }
}

/// The account that the write is made on: before an update every provider holds a login secret.
pub open spec fn overhead_state(
    op: Op,
    nsp: usize,
    tsp: usize,
    unavailable: usize,
    iter: usize,
) -> SystemState {
    let s = overhead_start(nsp, tsp, iter as u64);
    let rng = overhead_rng(nsp, tsp, iter as u64);
    match op {
        Op::SecUpd => with_unavailable(s.with_synthetic(rng, 0), unavailable, iter),
        _ => with_unavailable(s, unavailable, iter),
    }
}

/// The write that a phase makes, or why there is none.
pub open spec fn overhead_write(
    op: Op,
    nsp: usize,
    tsp: usize,
    unavailable: usize,
    iter: usize,
) -> Result<WriteState, PhaseError> {
    let s = overhead_state(op, nsp, tsp, unavailable, iter);
    let rng = overhead_rng(nsp, tsp, iter as u64);
    match op {
        Op::Reg => Ok(s.synthetic_register(rng)),
        Op::SecUpd => Ok(
            s.synthetic_update(rng.bytes(32), after_synthetic(rng.skip(32)).skip(32)),
        ),
        Op::PwdUpd => s.password_update_write(rng).0,
    }
}

/// The provider at place `i` comes back.
pub open spec fn brought_back(s: SystemState, i: int) -> SystemState {
    SystemState {
        providers: s.providers.update(i, ProviderState { online: true, ..s.providers[i] }),
        ..s
    }
}

/// Without an offline provider, as many are online as are online besides it once it is back.
pub proof fn back_online_counts(ps: Seq<ProviderState>, i: int, p: ProviderState)
    requires
        0 <= i < ps.len(),
        !ps[i].online,
    ensures
        online_except(ps.update(i, p), i) == online(ps),
    decreases ps.len(),
{
    let qs = ps.update(i, p);
    if i == ps.len() - 1 {
        assert(qs.drop_last() =~= ps.drop_last());
        lemma_skip_absent(ps.drop_last(), i);
    } else {
        assert(qs.drop_last() =~= ps.drop_last().update(i, p));
        assert(qs.last() == ps.last());
        back_online_counts(ps.drop_last(), i, p);
    }
}

proof fn lemma_skip_absent(ps: Seq<ProviderState>, i: int)
    requires
        i >= ps.len(),
    ensures
        online_except(ps, i) == online(ps),
    decreases ps.len(),
{
    if ps.len() > 0 {
        lemma_skip_absent(ps.drop_last(), i);
    }
}

/// Which provider is recovered after the write: one that missed it, where any did.
pub fn stale_provider(nsp: usize, unavailable: usize, iter: usize) -> (r: Option<usize>)
    requires
        nsp > 0,
    ensures
        r == if unavailable > 0 {
            Some((iter % nsp) as usize)
        } else {
            None
        },
        r matches Some(i) ==> i < nsp,
{
    if unavailable > 0 {
        Some(iter % nsp)
    } else {
        None
    }
}

/// The provider that is recovered is one that missed the write.
pub proof fn stale_provider_is_offline(s: SystemState, unavailable: usize, iter: usize)
    requires
        s.nsp == s.providers.len(),
        s.nsp > 0,
        unavailable > 0,
    ensures
        !with_unavailable(s, unavailable, iter).providers[iter as int % s.nsp as int].online,
{
    let n = s.nsp as int;
    let i = iter as int % n;
    vstd::arithmetic::div_mod::lemma_mod_bound(iter as int, n);
    assert((iter as int + 0) % n == i);
}

impl Overhead {
    /// The write that is made.
    pub open spec fn write_made(self) -> WriteState {
        match self.pending {
            Pending::Register { suid, blob, ctr } => WriteState::Register {
                suid: suid@,
                ciphersp: blob@,
                ctr,
                sig: self.sys@.signed_csp(suid@, blob@, ctr),
            },
            Pending::Update { suid, blob, ctr } => WriteState::Update {
                suid: suid@,
                ciphersp: blob@,
                ctr,
                sig: self.sys@.signed_csp(suid@, blob@, ctr),
            },
            Pending::Master { blob, ctrid, sig } => WriteState::Master {
                cipherid: blob@,
                ctrid,
                sig: sig@,
            },
        }
    }

    /// The account after the recovery of the provider at place `i`.
    pub open spec fn recovered(self, i: int) -> SystemState {
        match self.pending {
            Pending::Register { suid, .. } => self.sys@.csp_recovered(i, suid@),
            Pending::Update { suid, .. } => self.sys@.csp_recovered(i, suid@),
            Pending::Master { .. } => self.sys@.master_recovered(i),
        }
    }

    /// Every provider knows the user's key and would take the write.
    pub open spec fn writable(self) -> bool {
        let s = self.sys@;
        forall|i: int|
            0 <= i < s.providers.len() ==> {
                let p = #[trigger] s.providers[i];
                match self.pending {
                    Pending::Register { suid, ctr, .. } => p.svk == ed25519_public(s.user_ssk)
                        && ctr == 0 && !p.has_active(suid@),
                    Pending::Update { suid, ctr, .. } => p.svk == ed25519_public(s.user_ssk)
                        && p.has_active(suid@) && ctr > p.csp_db[suid@].ctr,
                    Pending::Master { blob, ctrid, sig } => ctrid > p.master.ctrid
                        && ed25519_verify(p.svk, master_message(s.uid, blob@, ctrid), sig@),
                }
            }
    }

    /// What is ready is the write of a phase in an iteration, on the account of that iteration.
    pub open spec fn ready_for(
        self,
        op: Op,
        nsp: usize,
        tsp: usize,
        unavailable: usize,
        iter: usize,
    ) -> bool {
        &&& self.sys@ == overhead_state(op, nsp, tsp, unavailable, iter)
        &&& overhead_write(op, nsp, tsp, unavailable, iter) == Ok::<WriteState, PhaseError>(
            self.write_made(),
        )
        &&& online(self.sys@.providers).len() == if unavailable <= nsp {
            nsp - unavailable
        } else {
            0
        }
    }

    fn prepare_register(
        nsp: usize,
        tsp: usize,
        unavailable: usize,
        iter: usize,
        sys: System,
        rng: Rng,
    ) -> (r: Overhead)
        requires
            iter + unavailable <= usize::MAX,
            sys@ == overhead_start(nsp, tsp, iter as u64),
            rng@ == overhead_rng(nsp, tsp, iter as u64),
        ensures
            r.ready_for(Op::Reg, nsp, tsp, unavailable, iter),
            r.writable(),
    {
        let mut sys = sys;
        let mut rng = rng;
        sys.set_rotating_unavailable(unavailable, iter);
        let (suid, blob, ctr) = sys.make_synthetic_csp_payload(&mut rng, 0);
        Overhead { sys, pending: Pending::Register { suid, blob, ctr } }
    }

    fn prepare_update(
        nsp: usize,
        tsp: usize,
        unavailable: usize,
        iter: usize,
        sys: System,
        rng: Rng,
    ) -> (r: Overhead)
        requires
            nsp > 0,
            iter + unavailable <= usize::MAX,
            sys@ == overhead_start(nsp, tsp, iter as u64),
            rng@ == overhead_rng(nsp, tsp, iter as u64),
        ensures
            r.ready_for(Op::SecUpd, nsp, tsp, unavailable, iter),
            r.writable(),
    {
        let mut sys = sys;
        let mut rng = rng;
        let ghost r0 = rng@;
        sys.install_synthetic_csp_all(&mut rng, 0);
        let ghost ready = sys@;
        let suid = match sys.any_suid() {
            Some(suid) => suid,
            None => {
                proof {
                    assert(ready.providers[0].csp_db.dom().contains(r0.bytes(32)));
                    assert(false);
                }
                vstd::pervasive::unreached()
            },
        };
        proof {
            let i = choose|i: int| #[trigger] ready.first_holds_at(i, suid@);
            assert(ready.providers[i].csp_db.dom().contains(suid@));
            assert(suid@ == r0.bytes(32));
        }
        sys.set_rotating_unavailable(unavailable, iter);
        let (_, blob, ctr) = sys.make_synthetic_csp_payload(&mut rng, 1);
        Overhead { sys, pending: Pending::Update { suid, blob, ctr } }
    }

    fn prepare_master(
        nsp: usize,
        tsp: usize,
        unavailable: usize,
        iter: usize,
        sys: System,
        rng: Rng,
    ) -> (r: Result<Overhead, PhaseError>)
        requires
            iter + unavailable <= usize::MAX,
            sys@ == overhead_start(nsp, tsp, iter as u64),
            rng@ == overhead_rng(nsp, tsp, iter as u64),
        ensures
            match r {
                Ok(o) => o.ready_for(Op::PwdUpd, nsp, tsp, unavailable, iter),
                Err(e) => overhead_write(Op::PwdUpd, nsp, tsp, unavailable, iter) == Err::<
                    WriteState,
                    PhaseError,
                >(e),
            },
            forall|c: Seq<int>| #[trigger]
                sys@.sound(c) && sys@.one_master(c) && sys@.counters_agree(c) && unavailable
                    + sys@.qsp <= nsp && scalar_drawn(rng@) != 0 ==> (r matches Ok(o)
                    && o.writable()),
    {
        let ghost s0 = sys@;
        let ghost r0 = rng@;
        let mut sys = sys;
        let mut rng = rng;
        sys.set_rotating_unavailable(unavailable, iter);
        let ghost s1 = sys@;
        let made = sys.make_valid_master_update_payload(&mut rng);
        proof {
            assert forall|c: Seq<int>| #[trigger]
                s0.sound(c) && s0.one_master(c) && s0.counters_agree(c) && unavailable + s0.qsp
                    <= nsp && scalar_drawn(r0) != 0 implies s1.sound(c) && (made matches Ok((
                blob,
                ctrid,
                sig,
            )) && forall|i: int|
                0 <= i < s1.providers.len() ==> ctrid > (#[trigger] s1.providers[i]).master.ctrid
                    && ed25519_verify(
                    s1.providers[i].svk,
                    master_message(s1.uid, blob@, ctrid),
                    sig@,
                )) by {
                availability_changes_nothing_held(s0, s1, c);
                assert(s1.sound(c));
                lemma_online_except(s1.providers, -1);
                let k = online(s1.providers)[0];
                assert(0 <= k < s1.providers.len());
                assert forall|i: int| 0 <= i < s1.providers.len() implies (
                #[trigger] s1.providers[i]).svk == ed25519_public(s1.user_ssk)
                    && s1.providers[i].master == s0.providers[i].master by {
                }
                assert forall|i: int| 0 <= i < s1.providers.len() implies (
                #[trigger] s1.providers[i]).master.ctrid < u64::MAX && (opened(
                    password_key(s1.password, s1.pwd_point, c),
                    s1.cipherid_aad,
                    s1.providers[k].master.cipherid,
                ) matches Some(pt) && s1.providers[i].master.ctrid == ctrid_in(pt)) by {
                    assert(s0.providers[k].master == s1.providers[k].master);
                    assert(s0.providers[i].master == s1.providers[i].master);
                }
            }
        }
        match made {
            Ok((blob, ctrid, sig)) => {
                Ok(Overhead { sys, pending: Pending::Master { blob, ctrid, sig } })
            },
            Err(e) => Err(e),
        }
    }

    /// Makes the account of an iteration and the write of a phase. There is none where the
    /// password does not open the account. Every provider would take the write; for a
    /// password update that needs a quorum online and a nonzero blinding factor.
    pub fn prepare(op: Op, nsp: usize, tsp: usize, unavailable: usize, iter: usize) -> (r: Result<
        Overhead,
        PhaseError,
    >)
        requires
            valid_threshold(nsp as nat, tsp as nat),
            nsp + tsp < usize::MAX,
            iter + unavailable <= usize::MAX,
        ensures
            match r {
                Ok(o) => o.ready_for(op, nsp, tsp, unavailable, iter),
                Err(e) => overhead_write(op, nsp, tsp, unavailable, iter) == Err::<
                    WriteState,
                    PhaseError,
                >(e),
            },
            op != Op::PwdUpd ==> (r matches Ok(o) && o.writable()),
            op == Op::PwdUpd && nsp <= u32::MAX && unavailable + quorum(nsp as nat, tsp as nat)
                <= nsp && scalar_drawn(overhead_rng(nsp, tsp, iter as u64)) != 0 ==> (
            r matches Ok(o) && o.writable()),
    {
        let sys = System::new(
            nsp,
            tsp,
            seed_for("bench/upspa-abd/quorum-total/system".as_bytes(), nsp, tsp, iter as u64),
        );
        let rng = Rng::from_seed(
            seed_for("bench/upspa-abd/quorum-total/rng".as_bytes(), nsp, tsp, iter as u64),
        );
        assert(sys@.qsp == quorum(nsp as nat, tsp as nat));
        match op {
            Op::Reg => Ok(Overhead::prepare_register(nsp, tsp, unavailable, iter, sys, rng)),
            Op::SecUpd => Ok(Overhead::prepare_update(nsp, tsp, unavailable, iter, sys, rng)),
            Op::PwdUpd => Overhead::prepare_master(nsp, tsp, unavailable, iter, sys, rng),
        }
    }

    /// Signs the write where it is not signed yet, and makes it with a quorum. It succeeds
    /// where a quorum is online and every provider would take it.
    pub fn write(&mut self) -> (r: Result<usize, PhaseError>)
        ensures
            r == old(self).sys@.write_result(old(self).write_made()),
            final(self).sys@ == old(self).sys@.after_write(old(self).write_made()),
            final(self).pending == old(self).pending,
            old(self).writable() && online(old(self).sys@.providers).len() >= old(self).sys@.qsp
                ==> r == Ok::<usize, PhaseError>(old(self).sys@.qsp),
    {
        let ghost s0 = self.sys@;
        let ghost w = self.write_made();
        proof {
            write_succeeds_iff_quorum_accepts(s0, w);
        }
        let ghost idx = s0.chosen(s0.qsp);
        proof {
            lemma_online_except(s0.providers, -1);
        }
        match self.pending {
            Pending::Register { suid, blob, ctr } => {
                let sig = self.sys.sign_csp_write(&suid, &blob, ctr);
                assert(self.writable() && online(s0.providers).len() >= s0.qsp ==> forall|j: int|
                    0 <= j < s0.qsp ==> accepts(s0.providers[#[trigger] idx[j]], s0.uid, w));
                self.sys.qwrite_csp_register(suid, blob, ctr, &sig)
            },
            Pending::Update { suid, blob, ctr } => {
                let sig = self.sys.sign_csp_write(&suid, &blob, ctr);
                assert(self.writable() && online(s0.providers).len() >= s0.qsp ==> forall|j: int|
                    0 <= j < s0.qsp ==> accepts(s0.providers[#[trigger] idx[j]], s0.uid, w));
                self.sys.qwrite_csp_update(suid, blob, ctr, &sig)
            },
            Pending::Master { blob, ctrid, sig } => {
                assert(self.writable() && online(s0.providers).len() >= s0.qsp ==> forall|j: int|
                    0 <= j < s0.qsp ==> accepts(s0.providers[#[trigger] idx[j]], s0.uid, w));
                self.sys.qwrite_master(blob, ctrid, &sig)
            },
        }
    }

    /// Brings a provider back online. Where it was offline, it can be recovered exactly where
    /// a quorum is online without it.
    pub fn bring_back(&mut self, i: usize)
        requires
            i < old(self).sys@.providers.len(),
        ensures
            final(self).sys@ == brought_back(old(self).sys@, i as int),
            final(self).pending == old(self).pending,
            !old(self).sys@.providers[i as int].online ==> (final(self).sys@.can_recover(i as int)
                <==> online(old(self).sys@.providers).len() >= old(self).sys@.qsp),
    {
        let ghost ps = self.sys@.providers;
        assert(ps[i as int] == self.sys.providers@[i as int]@);
        self.sys.providers[i].online = true;
        proof {
            let p = ProviderState { online: true, ..ps[i as int] };
            assert(self.sys@.providers =~= ps.update(i as int, p));
            if !ps[i as int].online {
                back_online_counts(ps, i as int, p);
            }
        }
    }

    /// Recovers what the phase writes, at a provider that missed the write.
    pub fn recover(&mut self, i: usize) -> (r: Result<usize, PhaseError>)
        requires
            i < old(self).sys@.providers.len(),
        ensures
            final(self).pending == old(self).pending,
            old(self).sys@.can_recover(i as int) ==> r == Ok::<usize, PhaseError>(
                old(self).sys@.qsp,
            ) && final(self).sys@ == old(self).recovered(i as int),
            !old(self).sys@.can_recover(i as int) ==> r == Err::<usize, PhaseError>(
                old(self).sys@.recovery_error(i as int),
            ) && final(self).sys@ == old(self).sys@,
    {
        match self.pending {
            Pending::Register { suid, .. } => self.sys.recover_csp_for_provider(i, suid),
            Pending::Update { suid, .. } => self.sys.recover_csp_for_provider(i, suid),
            Pending::Master { .. } => self.sys.recover_master_for_provider(i),
        }
    }
}

} // verus!
