//! What the quorum measurements start from and write: the fresh account system, the seeds, the
//! synthetic records, and what bringing every provider up to date leaves.
use vstd::prelude::*;
use vstd::string::StringSliceAdditionalSpecFns;

use crate::aead::sealed;
use crate::bytes::{u64_le, u64_of_le};
use crate::field::after_draws;
use crate::hash::blake3_hash;
use crate::interpolation::eval;
use crate::keys::{ed25519_public, ed25519_sign};
use crate::net_phases::Op;
use crate::provider::{counted_digest, CspState, PhaseError, ProviderState};
use crate::quorum_bench::{
    brought_back, overhead_rng, overhead_start, overhead_state, overhead_write, phase_outcome,
    pre_registration, seed, system_at, with_unavailable, Overhead, Pending,
};
use crate::ristretto::{order, ristretto_mul};
use crate::rng::RngState;
use crate::toprf::{key_poly, password_point, scalar_drawn};
use crate::upspa_abd::{accepts, online_except, SystemState, WriteState};
use crate::upspa_law::signs_under;
use crate::upspa_phases::fresh_system;
use crate::upspa_recovery::{
    any_active, csp_synced, is_latest_csp, latest_master_place, overhead_result,
};

verus! {

/// A fresh system has one provider for each number from one on, all online and without login
/// secrets, with shares of one key that the first draw gives. All hold the same master state,
/// with the counter zero, sealed under the key of the password.
pub proof fn fresh_systems_have_their_parts(nsp: usize, tsp: usize, s: Seq<u8>, i: int)
    requires
        0 <= i < nsp,
        nsp < u32::MAX,
        tsp >= 1,
    ensures
        ({
            let sys = fresh_system(nsp, tsp, s);
            let rng = RngState::start(s);
            let poly = key_poly(tsp as nat, rng);
            let after = after_draws(rng.skip(64), (tsp - 1) as nat);
            let p = sys.providers[i];
            let uid = "user123".spec_bytes();
            &&& sys.nsp == nsp
            &&& sys.tsp == tsp
            &&& sys.providers.len() == nsp
            &&& sys.uid == uid
            &&& sys.lsj == "LS1".spec_bytes()
            &&& sys.password == "benchmark password".spec_bytes()
            &&& sys.new_password == "new benchmark password".spec_bytes()
            &&& sys.pwd_point == password_point("benchmark password".spec_bytes())
            &&& sys.new_pwd_point == password_point("new benchmark password".spec_bytes())
            &&& sys.user_ssk == after.bytes(32)
            &&& sys.cipherid_aad == uid + "|cipherid|abd".spec_bytes()
            &&& sys.ciphersp_aad == uid + "|ciphersp|abd".spec_bytes()
            &&& sys.login is None
            &&& p.id == i + 1
            &&& p.online
            &&& p.share == eval(poly, i + 1) % (order() as int)
            &&& p.svk == ed25519_public(after.bytes(32))
            &&& p.csp_db == Map::<Seq<u8>, CspState>::empty()
            &&& p.master.ctrid == 0
            &&& p.master == sys.providers[0].master
            &&& p.master.cipherid == sealed(
                blake3_hash(
                    "upspa/toprf/finalize/v1".spec_bytes() + (sys.password + ristretto_mul(
                        sys.pwd_point,
                        scalar_drawn(rng),
                    )),
                ),
                sys.cipherid_aad,
                after.bytes(32) + after.skip(32).bytes(32) + after.skip(32).skip(32).bytes(32)
                    + u64_le(0),
                after.skip(32).skip(32).skip(32).bytes(24),
            )
        }),
{
}

/// Bringing every provider up to date gives all of them one master state that some provider
/// held, and whose counter no provider exceeds; nothing else changes.
pub proof fn synced_master_is_newest(s: SystemState, i: int, k: int)
    requires
        0 <= i < s.providers.len(),
        0 <= k < s.providers.len(),
    ensures
        s.master_synced().providers.len() == s.providers.len(),
        s.master_synced().providers[i].master == s.master_synced().providers[k].master,
        s.master_synced().providers[i].master.ctrid >= s.providers[k].master.ctrid,
        exists|h: int|
            0 <= h < s.providers.len() && s.master_synced().providers[i].master
                == #[trigger] s.providers[h].master,
        s.master_synced().providers[i] == (ProviderState {
            master: s.master_synced().providers[i].master,
            ..s.providers[i]
        }),
        s.master_synced() == (SystemState { providers: s.master_synced().providers, ..s }),
{
    let n = s.providers.len() as int;
    lemma_latest_master(s.providers, n, k);
    let best = latest_master_place(s.providers, n);
    assert(s.master_synced().providers[i].master == s.providers[best].master);
}

proof fn lemma_latest_master(ps: Seq<ProviderState>, n: int, k: int)
    requires
        0 <= k < n <= ps.len(),
    ensures
        0 <= latest_master_place(ps, n) < n,
        ps[latest_master_place(ps, n)].master.ctrid >= ps[k].master.ctrid,
    decreases n,
{
    if n > 1 {
        if k < n - 1 {
            lemma_latest_master(ps, n - 1, k);
        } else {
            lemma_latest_master(ps, n - 1, 0);
        }
    }
}

/// Bringing every provider up to date gives all of them, under one account, the active record
/// that one provider held with a counter that no active record exceeds. Their other records
/// and all else stay. Without an active record nothing changes.
pub proof fn synced_secret_is_newest(before: SystemState, after: SystemState)
    requires
        csp_synced(before, after),
    ensures
        any_active(before.providers) ==> exists|i: int, suid: Seq<u8>|
            0 <= i < before.providers.len() && #[trigger] before.providers[i].has_active(suid) && (
            forall|k: int, x: Seq<u8>|
                0 <= k < before.providers.len() && #[trigger] before.providers[k].has_active(x)
                    ==> before.providers[k].csp_db[x].ctr <= before.providers[i].csp_db[suid].ctr)
                && after.providers.len() == before.providers.len() && (forall|k: int|
                0 <= k < before.providers.len() ==> #[trigger] after.providers[k] == (
                ProviderState {
                    csp_db: before.providers[k].csp_db.insert(
                        suid,
                        before.providers[i].csp_db[suid],
                    ),
                    ..before.providers[k]
                })),
        !any_active(before.providers) ==> after == before,
        after == (SystemState { providers: after.providers, ..before }),
{
    if any_active(before.providers) {
        let (i, suid) = choose|i: int, suid: Seq<u8>| #[trigger]
            is_latest_csp(before.providers, i, suid) && after == (SystemState {
                providers: crate::upspa_recovery::all_with_csp(
                    before.providers,
                    suid,
                    before.providers[i].csp_db[suid],
                ),
                ..before
            });
        assert(before.providers[i].has_active(suid));
    }
}

/// The seeds of the measurements cover the tag, both numbers of providers and the iteration.
pub proof fn bench_seeds_cover_their_numbers(tag: Seq<u8>, nsp: usize, tsp: usize, iter: u64)
    ensures
        exists|text: Seq<u8>|
            seed(tag, nsp, tsp, iter) == #[trigger] blake3_hash(text) && text.len() == tag.len()
                + 24 && text.take(tag.len() as int) == tag && u64_of_le(
                text.subrange(tag.len() as int, tag.len() as int + 8),
            ) == nsp as u64 && u64_of_le(text.subrange(tag.len() as int + 8, tag.len() as int + 16))
                == tsp as u64 && u64_of_le(text.subrange(tag.len() as int + 16, tag.len() as int + 24)) == iter,
        system_at(nsp, tsp, iter) == fresh_system(
            nsp,
            tsp,
            seed("bench/upspa-abd/system".spec_bytes(), nsp, tsp, iter),
        ),
        overhead_start(nsp, tsp, iter) == fresh_system(
            nsp,
            tsp,
            seed("bench/upspa-abd/quorum-total/system".spec_bytes(), nsp, tsp, iter),
        ),
        overhead_rng(nsp, tsp, iter) == RngState::start(
            seed("bench/upspa-abd/quorum-total/rng".spec_bytes(), nsp, tsp, iter),
        ),
{
    vstd::bytes::lemma_auto_spec_u64_to_from_le_bytes();
    let (a, b, c) = (u64_le(nsp as u64), u64_le(tsp as u64), u64_le(iter));
    let text = tag + a + b + c;
    let t = tag.len() as int;
    assert(text.take(t) =~= tag);
    assert(text.subrange(t, t + 8) =~= a);
    assert(text.subrange(t + 8, t + 16) =~= b);
    assert(text.subrange(t + 16, t + 24) =~= c);
    assert(seed(tag, nsp, tsp, iter) == blake3_hash(text));
}

/// Each phase that is measured is the operation asked for, and the account of one that updates
/// is registered before with every provider online.
pub proof fn measured_phases_are_those_asked(s: SystemState, rng: RngState, nsp: usize, tsp: usize, iter: u64, i: int)
    requires
        0 <= i < nsp,
    ensures
        phase_outcome(s, Op::Reg, rng) == s.registration(rng),
        phase_outcome(s, Op::SecUpd, rng) == s.secret_update(rng),
        phase_outcome(s, Op::PwdUpd, rng) == s.password_update(rng),
        exists|awake: SystemState|
            pre_registration(nsp, tsp, iter) == #[trigger] awake.registration(
                RngState::start(
                    seed("bench/upspa-abd/pre-register".spec_bytes(), nsp, tsp, iter),
                ),
            ) && awake == (SystemState { providers: awake.providers, ..system_at(nsp, tsp, iter) })
                && awake.providers.len() == nsp && awake.providers[i] == (ProviderState {
                online: true,
                ..system_at(nsp, tsp, iter).providers[i]
            }),
{
    let fresh = system_at(nsp, tsp, iter);
    let awake = SystemState {
        providers: crate::upspa_recovery::all_online(fresh.providers),
        ..fresh
    };
    assert(pre_registration(nsp, tsp, iter) == awake.registration(
        RngState::start(seed("bench/upspa-abd/pre-register".spec_bytes(), nsp, tsp, iter)),
    ));
}

/// Every provider that has no active record of the drawn account takes a synthetic
/// registration. It then holds, with the counter zero, a sealed fresh secret.
pub proof fn synthetic_registration_is_taken(s: SystemState, rng: RngState, p: ProviderState)
    requires
        signs_under(s.user_ssk, p.svk),
        !p.has_active(rng.bytes(32)),
    ensures
        accepts(p, s.uid, s.synthetic_register(rng)),
        crate::upspa_abd::stored(p, s.synthetic_register(rng)).csp_db[rng.bytes(32)].ctr == 0,
        crate::upspa_abd::stored(p, s.synthetic_register(rng)).csp_db[rng.bytes(32)].ciphersp
            == sealed(
            rng.skip(32).bytes(32),
            s.ciphersp_aad,
            rng.skip(32).skip(32).bytes(32) + u64_le(0),
            rng.skip(32).skip(32).skip(32).bytes(24),
        ),
        crate::upspa_abd::stored(p, s.synthetic_register(rng)).has_active(rng.bytes(32)),
{
}

/// A synthetic update is taken by every provider of a system that holds the synthetic record
/// before it, since its counter is one and that of the record is zero.
pub proof fn synthetic_update_is_taken(s: SystemState, rng: RngState, again: RngState, i: int)
    requires
        0 <= i < s.providers.len(),
        signs_under(s.user_ssk, s.providers[i].svk),
    ensures
        ({
            let t = s.with_synthetic(rng, 0);
            let p = t.providers[i];
            let suid = rng.bytes(32);
            let w = t.synthetic_update(suid, again);
            &&& p == (ProviderState { csp_db: p.csp_db, ..s.providers[i] })
            &&& t == (SystemState { providers: t.providers, ..s })
            &&& p.csp_db == s.providers[i].csp_db.insert(suid, p.csp_db[suid])
            &&& p.has_active(suid)
            &&& p.csp_db[suid].ctr == 0
            &&& p.csp_db[suid].sig == ed25519_sign(
                s.user_ssk,
                suid + p.csp_db[suid].ciphersp.nonce + p.csp_db[suid].ciphersp.ct
                    + p.csp_db[suid].ciphersp.tag + u64_le(0),
            )
            &&& p.csp_db[suid].ciphersp == sealed(
                rng.skip(32).bytes(32),
                s.ciphersp_aad,
                rng.skip(32).skip(32).bytes(32) + u64_le(0),
                rng.skip(32).skip(32).skip(32).bytes(24),
            )
            &&& accepts(p, s.uid, w)
            &&& crate::upspa_abd::stored(p, w).csp_db[suid].ctr == 1
            &&& crate::upspa_abd::stored(p, w).csp_db[suid].ciphersp == sealed(
                again.bytes(32),
                s.ciphersp_aad,
                again.skip(32).bytes(32) + u64_le(1),
                again.skip(32).skip(32).bytes(24),
            )
        }),
{
    assert(s.with_synthetic(rng, 0).providers[i].svk == s.providers[i].svk);
}

/// The bare quorum write of each operation is of its own kind. A secret update is for the
/// account whose record was planted in every provider, and all start from the same system with
/// the asked number of providers offline.
pub proof fn overhead_writes_are_for_their_operation(
    nsp: usize,
    tsp: usize,
    unavailable: usize,
    iter: usize,
)
    ensures
        overhead_write(Op::Reg, nsp, tsp, unavailable, iter) matches Ok(w) && (w matches
            WriteState::Register { suid, ctr, .. } && suid == overhead_rng(
            nsp,
            tsp,
            iter as u64,
        ).bytes(32) && ctr == 0),
        overhead_write(Op::SecUpd, nsp, tsp, unavailable, iter) matches Ok(w) && (w matches
            WriteState::Update { suid, ctr, .. } && suid == overhead_rng(
            nsp,
            tsp,
            iter as u64,
        ).bytes(32) && ctr == 1),
        overhead_write(Op::PwdUpd, nsp, tsp, unavailable, iter) == overhead_state(
            Op::PwdUpd,
            nsp,
            tsp,
            unavailable,
            iter,
        ).password_update_write(overhead_rng(nsp, tsp, iter as u64)).0,
        overhead_state(Op::Reg, nsp, tsp, unavailable, iter) == with_unavailable(
            overhead_start(nsp, tsp, iter as u64),
            unavailable,
            iter,
        ),
        overhead_state(Op::PwdUpd, nsp, tsp, unavailable, iter) == with_unavailable(
            overhead_start(nsp, tsp, iter as u64),
            unavailable,
            iter,
        ),
        overhead_state(Op::SecUpd, nsp, tsp, unavailable, iter) == with_unavailable(
            overhead_start(nsp, tsp, iter as u64).with_synthetic(
                overhead_rng(nsp, tsp, iter as u64),
                0,
            ),
            unavailable,
            iter,
        ),
{
}

/// A provider is offline for an iteration exactly where its place, counted round from the
/// iteration's number, is below the number asked for; what it holds stays.
pub proof fn unavailable_providers_rotate(s: SystemState, unavailable: usize, iter: usize, i: int)
    requires
        0 <= i < s.providers.len(),
        s.nsp == s.providers.len(),
    ensures
        ({
            let t = with_unavailable(s, unavailable, iter);
            &&& t.providers.len() == s.providers.len()
            &&& t == (SystemState { providers: t.providers, ..s })
            &&& t.providers[i] == (ProviderState {
                online: t.providers[i].online,
                ..s.providers[i]
            })
            &&& !t.providers[i].online <==> (i - iter) % (s.nsp as int) < unavailable
        }),
{
    let count = if unavailable <= s.nsp {
        unavailable as int
    } else {
        s.nsp as int
    };
    crate::upspa_law::rotation_changes_availability_only(s.providers, iter as int, count, i);
    vstd::arithmetic::div_mod::lemma_mod_bound(i - iter, s.nsp as int);
}

/// Bringing a provider back puts it online and changes nothing else.
pub proof fn bringing_back_changes_one_provider(s: SystemState, i: int, k: int)
    requires
        0 <= i < s.providers.len(),
        0 <= k < s.providers.len(),
    ensures
        brought_back(s, i).providers[k] == if k == i {
            ProviderState { online: true, ..s.providers[i] }
        } else {
            s.providers[k]
        },
        brought_back(s, i) == (SystemState { providers: brought_back(s, i).providers, ..s }),
        brought_back(s, i).providers.len() == s.providers.len(),
{
}

/// A write is reported by the hash of its tag, its content and the number of providers that
/// took it; a write that failed by its error.
pub proof fn writes_are_reported_with_their_count(
    tag: Seq<u8>,
    body: Seq<u8>,
    n: usize,
    e: PhaseError,
)
    ensures
        counted_digest(tag, body, n) == blake3_hash(tag + body + u64_le(n as u64)),
        overhead_result(tag, body, Ok(n)) == Ok::<Seq<u8>, PhaseError>(
            blake3_hash(tag + body + u64_le(n as u64)),
        ),
        overhead_result(tag, body, Err(e)) == Err::<Seq<u8>, PhaseError>(e),
{
}

/// A prepared write of a login secret is signed by the user over the account, the ciphertext
/// and the counter; one of the master state is made as it was signed.
pub proof fn prepared_writes_are_signed(o: Overhead)
    ensures
        match o.pending {
            Pending::Register { suid, blob, ctr } => o.write_made() == (WriteState::Register {
                suid: suid@,
                ciphersp: blob@,
                ctr,
                sig: ed25519_sign(
                    o.sys@.user_ssk,
                    suid@ + blob@.nonce + blob@.ct + blob@.tag + u64_le(ctr),
                ),
            }),
            Pending::Update { suid, blob, ctr } => o.write_made() == (WriteState::Update {
                suid: suid@,
                ciphersp: blob@,
                ctr,
                sig: ed25519_sign(
                    o.sys@.user_ssk,
                    suid@ + blob@.nonce + blob@.ct + blob@.tag + u64_le(ctr),
                ),
            }),
            Pending::Master { blob, ctrid, sig } => o.write_made() == (WriteState::Master {
                cipherid: blob@,
                ctrid,
                sig: sig@,
            }),
        },
{
}

/// A provider recovers what was written: the record of the account written, or the master
/// state.
pub proof fn recovery_is_of_what_was_written(o: Overhead, i: int)
    ensures
        match o.pending {
            Pending::Register { suid, .. } => o.recovered(i) == o.sys@.csp_recovered(i, suid@),
            Pending::Update { suid, .. } => o.recovered(i) == o.sys@.csp_recovered(i, suid@),
            Pending::Master { .. } => o.recovered(i) == o.sys@.master_recovered(i),
        },
        o.sys@.recovery_error(i) matches PhaseError::NotEnoughOnline { online, needed } && needed
            == o.sys@.qsp && online == online_except(o.sys@.providers, i).len() as usize,
{
}

/// Every provider of an account that is ready takes the prepared write, where the user's
/// signatures verify.
pub proof fn ready_writes_are_taken(o: Overhead, i: int)
    requires
        o.writable(),
        0 <= i < o.sys@.providers.len(),
        signs_under(o.sys@.user_ssk, ed25519_public(o.sys@.user_ssk)),
    ensures
        accepts(o.sys@.providers[i], o.sys@.uid, o.write_made()),
{
}

/// Where a quorum holds a secret, the login server knows it, and each member of the quorum
/// holds it encrypted with the counter.
pub proof fn quorums_hold_the_secret(
    s: SystemState,
    idx: Seq<int>,
    pt: Seq<u8>,
    secret: Seq<u8>,
    ctr: u64,
    j: int,
)
    requires
        s.quorum_holds_secret(idx, pt, secret, ctr),
        0 <= j < idx.len(),
    ensures
        idx.len() == s.qsp,
        s.login == Some(crate::upspa_law::login_value(s, secret)),
        ({
            let rec = s.providers[idx[j]].csp_db[crate::upspa_law::account(s, pt)];
            &&& s.providers[idx[j]].csp_db.dom().contains(crate::upspa_law::account(s, pt))
            &&& rec.active
            &&& rec.ctr == ctr
            &&& crate::aead::opened(pt.subrange(64, 96), s.ciphersp_aad, rec.ciphersp) == Some(
                secret + u64_le(ctr),
            )
        }),
{
    assert(s.providers[idx[j]].has_active(crate::upspa_law::account(s, pt)));
}

/// Where a quorum holds a master state, each member holds it under the key, with the counter.
pub proof fn quorums_hold_the_master(
    s: SystemState,
    idx: Seq<int>,
    key: Seq<u8>,
    pt: Seq<u8>,
    ctrid: u64,
    j: int,
)
    requires
        s.quorum_holds_master(idx, key, pt, ctrid),
        0 <= j < idx.len(),
    ensures
        idx.len() == s.qsp,
        s.providers[idx[j]].master.ctrid == ctrid,
        crate::aead::opened(key, s.cipherid_aad, s.providers[idx[j]].master.cipherid) == Some(
            pt.subrange(0, 32) + pt.subrange(32, 64) + pt.subrange(64, 96) + u64_le(ctrid),
        ),
{
}

} // verus!
