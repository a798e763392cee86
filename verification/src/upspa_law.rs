//! What the quorum scheme is for: which secret is read, what a write leaves where, what a
//! signature covers, and what a recovery brings back.
use vstd::prelude::*;
use vstd::string::StringSliceAdditionalSpecFns;

use crate::aead::{opened, sealed, Blob};
use crate::bytes::{u64_le, u64_of_le};
use crate::hash::blake3_hash;
use crate::interpolation::eval;
use crate::keys::{ed25519_sign, ed25519_verify};
use crate::provider::{
    csp_layout_reads_back, csp_message, master_layout_reads_back, master_message, suid_of,
    vinfo_of, CspState, MasterState, PhaseError, ProviderState,
};
use crate::ristretto::{order, ristretto_from_uniform, ristretto_mul};
use crate::rng::RngState;
use crate::toprf::{password_point, scalar_drawn};
use crate::upspa_abd::{
    accepts, acks, asked, lemma_online_except, online, online_except, password_key, stored,
    SystemState, WriteState,
};
use crate::upspa_phases::write_succeeds_iff_quorum_accepts;
use crate::upspa_recovery::{
    in_window, newest_csp, newest_csp_is_newest, newest_master_is_newest, own_csp, rotated,
};

verus! {

/// What the provider at place `i` holds under an account, opened with the key `fk`.
pub open spec fn held(s: SystemState, suid: Seq<u8>, fk: Seq<u8>, i: int) -> Option<Seq<u8>> {
    if s.providers[i].csp_db.dom().contains(suid) {
        opened(fk, s.ciphersp_aad, s.providers[i].csp_db[suid].ciphersp)
    } else {
        None
    }
}

/// The counter behind a login secret.
pub open spec fn counter_in(pt: Seq<u8>) -> u64 {
    u64_of_le(pt.subrange(32, 40))
}

/// The secret that is read has the largest counter among the records of the providers read,
/// and it stands in one of these records. Of several with that counter the last is read.
pub proof fn read_secret_is_newest(
    s: SystemState,
    suid: Seq<u8>,
    fk: Seq<u8>,
    idx: Seq<int>,
    k: int,
    ctr: u64,
    secret: Seq<u8>,
)
    requires
        0 <= k <= idx.len(),
        s.newest_secret(suid, fk, idx, k) == Ok::<Option<(u64, Seq<u8>)>, PhaseError>(
            Some((ctr, secret)),
        ),
    ensures
        forall|j: int|
            0 <= j < k ==> (held(s, suid, fk, #[trigger] idx[j]) matches Some(pt) && counter_in(pt)
                <= ctr),
        exists|j: int|
            0 <= j < k && (held(s, suid, fk, #[trigger] idx[j]) matches Some(pt) && counter_in(pt)
                == ctr && pt.subrange(0, 32) == secret) && forall|i: int|
                j < i < k ==> counter_in(held(s, suid, fk, #[trigger] idx[i])->Some_0) < ctr,
    decreases k,
{
    let before = s.newest_secret(suid, fk, idx, k - 1);
    assert(before is Ok);
    let pt = held(s, suid, fk, idx[k - 1])->Some_0;
    assert(held(s, suid, fk, idx[k - 1]) is Some);
    match before->Ok_0 {
        Some((c, old)) => {
            read_secret_is_newest(s, suid, fk, idx, k - 1, c, old);
            if counter_in(pt) < c {
                let j = choose|j: int|
                    0 <= j < k - 1 && (held(s, suid, fk, #[trigger] idx[j]) matches Some(pt)
                        && counter_in(pt) == c && pt.subrange(0, 32) == old) && forall|i: int|
                        j < i < k - 1 ==> counter_in(
                            held(s, suid, fk, #[trigger] idx[i])->Some_0,
                        ) < c;
                assert(held(s, suid, fk, idx[j]) is Some);
            } else {
                assert(counter_in(pt) == ctr && pt.subrange(0, 32) == secret);
                assert(held(s, suid, fk, idx[k - 1]) is Some);
            }
        },
        None => {
            lemma_none_read(s, suid, fk, idx, k - 1);
            assert(held(s, suid, fk, idx[k - 1]) is Some);
        },
    }
}

proof fn lemma_none_read(s: SystemState, suid: Seq<u8>, fk: Seq<u8>, idx: Seq<int>, k: int)
    ensures
        s.newest_secret(suid, fk, idx, k) == Ok::<Option<(u64, Seq<u8>)>, PhaseError>(None) ==> k
            <= 0,
    decreases k,
{
    if k > 0 {
        lemma_none_read(s, suid, fk, idx, k - 1);
    }
}

/// A read succeeds exactly where every provider read holds a record that opens. Else the first
/// that does not decides the error: one without a record, or one that does not open.
pub proof fn read_fails_at_first_bad_record(
    s: SystemState,
    suid: Seq<u8>,
    fk: Seq<u8>,
    idx: Seq<int>,
    k: int,
)
    requires
        0 <= k <= idx.len(),
    ensures
        match s.newest_secret(suid, fk, idx, k) {
            Ok(found) => (found is Some <==> k > 0) && forall|j: int|
                0 <= j < k ==> held(s, suid, fk, #[trigger] idx[j]) is Some,
            Err(e) => exists|j: int|
                0 <= j < k && held(s, suid, fk, #[trigger] idx[j]) is None && e == (
                if s.providers[idx[j]].csp_db.dom().contains(suid) {
                    PhaseError::DecryptFailed
                } else {
                    PhaseError::MissingCipherSp
                }) && forall|i: int| 0 <= i < j ==> held(s, suid, fk, #[trigger] idx[i]) is Some,
        },
    decreases k,
{
    if k > 0 {
        read_fails_at_first_bad_record(s, suid, fk, idx, k - 1);
        let h = held(s, suid, fk, idx[k - 1]);
        match s.newest_secret(suid, fk, idx, k - 1) {
            Ok(_) => {
                if h is None {
                    assert(held(s, suid, fk, idx[k - 1]) is None);
                }
            },
            Err(_) => {},
        }
    }
}

/// Every signature of the holder of `ssk` verifies under `svk`.
pub open spec fn signs_under(ssk: Seq<u8>, svk: Seq<u8>) -> bool {
    forall|m: Seq<u8>| #[trigger] ed25519_verify(svk, m, ed25519_sign(ssk, m))
}

/// The account identifier that the opened master state `pt` gives for the login server.
pub open spec fn account(s: SystemState, pt: Seq<u8>) -> Seq<u8> {
    blake3_hash("upspa/abd/suid/shared/v1".spec_bytes() + (pt.subrange(32, 64) + s.lsj))
}

/// The verification value of a login secret.
pub open spec fn login_value(s: SystemState, secret: Seq<u8>) -> Seq<u8> {
    blake3_hash("upspa/vinfo/v1".spec_bytes() + (secret + s.lsj))
}

/// A secret update replaces the newest secret of the `tsp` providers read. It succeeds though
/// some of them are stale, as long as the newest counter that was read is not below that of
/// any member of the quorum and the login server knows that secret. Then every member of the
/// quorum holds a fresh secret with the next counter, encrypted and signed, the login server
/// its verification value, and nothing else changes.
#[verifier::rlimit(60)]
pub proof fn secret_update_succeeds_with_stale_providers(
    s: SystemState,
    rng: RngState,
    pt: Seq<u8>,
    ctr: u64,
    secret: Seq<u8>,
)
    requires
        0 < s.tsp <= s.qsp <= online(s.providers).len(),
        s.unlocked(s.password, s.pwd_point, rng) == Ok::<Seq<u8>, PhaseError>(pt),
        forall|j: int|
            0 <= j < s.tsp ==> (held(
                s,
                account(s, pt),
                pt.subrange(64, 96),
                #[trigger] online(s.providers)[j],
            ) matches Some(x) && counter_in(x) <= ctr && (counter_in(x) == ctr ==> x.subrange(0, 32)
                == secret)),
        exists|j: int|
            0 <= j < s.tsp && counter_in(
                held(
                    s,
                    account(s, pt),
                    pt.subrange(64, 96),
                    #[trigger] online(s.providers)[j],
                )->Some_0,
            ) == ctr,
        ctr < u64::MAX,
        s.login == Some(login_value(s, secret)),
        forall|j: int|
            0 <= j < s.qsp ==> {
                let p = s.providers[#[trigger] online(s.providers)[j]];
                &&& p.csp_db.dom().contains(account(s, pt))
                &&& p.csp_db[account(s, pt)].active
                &&& p.csp_db[account(s, pt)].ctr <= ctr
                &&& signs_under(pt.subrange(0, 32), p.svk)
            },
    ensures
        ({
            let suid = account(s, pt);
            let fresh = rng.skip(64).bytes(32);
            let blob = sealed(
                pt.subrange(64, 96),
                s.ciphersp_aad,
                fresh + u64_le((ctr + 1) as u64),
                rng.skip(64).skip(32).bytes(24),
            );
            let sig = ed25519_sign(
                pt.subrange(0, 32),
                suid + blob.nonce + blob.ct + blob.tag + u64_le((ctr + 1) as u64),
            );
            let out = s.secret_update(rng);
            &&& out.result == Ok::<Seq<u8>, PhaseError>(
                blake3_hash(
                    "upspa/abd/secret_update/result/v1".spec_bytes() + suid + u64_le(ctr) + u64_le(
                        (ctr + 1) as u64,
                    ) + login_value(s, fresh) + sig + u64_le(s.qsp as u64),
                ),
            )
            &&& out.state.login == Some(login_value(s, fresh))
            &&& out.rng == rng.skip(64).skip(32).skip(24)
            &&& out.state == (SystemState {
                providers: out.state.providers,
                login: out.state.login,
                ..s
            })
            &&& out.state.providers.len() == s.providers.len()
            &&& forall|j: int|
                0 <= j < s.qsp ==> out.state.providers[#[trigger] online(s.providers)[j]] == (
                ProviderState {
                    csp_db: s.providers[online(s.providers)[j]].csp_db.insert(
                        suid,
                        CspState { ciphersp: blob, ctr: (ctr + 1) as u64, active: true, sig },
                    ),
                    ..s.providers[online(s.providers)[j]]
                })
            &&& forall|i: int|
                0 <= i < s.providers.len() && !online(s.providers).take(s.qsp as int).contains(i)
                    ==> #[trigger] out.state.providers[i] == s.providers[i]
        }),
{
    let on = online(s.providers);
    let suid = account(s, pt);
    let fk = pt.subrange(64, 96);
    let idx = s.chosen(s.tsp);
    lemma_online_except(s.providers, -1);
    assert(idx == on.take(s.tsp as int));
    assert forall|j: int| 0 <= j < idx.len() implies held(s, suid, fk, #[trigger] idx[j])
        == held(s, suid, fk, on[j]) by {
    }
    read_fails_at_first_bad_record(s, suid, fk, idx, idx.len() as int);
    let read = s.newest_secret(suid, fk, idx, idx.len() as int);
    assert(read is Ok);
    let (c, x) = read->Ok_0->Some_0;
    read_secret_is_newest(s, suid, fk, idx, idx.len() as int, c, x);
    let j = choose|j: int|
        0 <= j < s.tsp && counter_in(held(s, suid, fk, #[trigger] on[j])->Some_0) == ctr;
    assert(idx[j] == on[j]);
    let i = choose|i: int|
        0 <= i < idx.len() && (held(s, suid, fk, #[trigger] idx[i]) matches Some(y) && counter_in(y)
            == c && y.subrange(0, 32) == x);
    assert(idx[i] == on[i]);
    assert(c == ctr && x == secret);
    let rng1 = s.unlock_rng(rng);
    let w = s.update_write(pt, (ctr + 1) as u64, rng1);
    write_succeeds_iff_quorum_accepts(s, w);
    let q = s.chosen(s.qsp);
    assert(q == on.take(s.qsp as int));
    assert forall|j: int| 0 <= j < s.qsp implies accepts(
        s.providers[#[trigger] q[j]],
        s.uid,
        w,
    ) by {
        assert(q[j] == on[j]);
    }
    let out = s.secret_update(rng);
    assert forall|j: int| 0 <= j < s.qsp implies out.state.providers[#[trigger] on[j]] == stored(
        s.providers[on[j]],
        w,
    ) by {
        assert(q[j] == on[j]);
    }
}

/// A registration on an account whose quorum holds no secret in use succeeds. Then every member
/// of the quorum holds a fresh secret with counter zero, encrypted and signed, the login server
/// its verification value, and nothing else changes.
pub proof fn registration_stores_first_secret(s: SystemState, rng: RngState, pt: Seq<u8>)
    requires
        0 < s.tsp <= s.qsp <= online(s.providers).len(),
        s.unlocked(s.password, s.pwd_point, rng) == Ok::<Seq<u8>, PhaseError>(pt),
        s.login is None,
        forall|j: int|
            0 <= j < s.qsp ==> {
                let p = s.providers[#[trigger] online(s.providers)[j]];
                &&& p.csp_db.dom().contains(account(s, pt)) ==> !p.csp_db[account(s, pt)].active
                &&& signs_under(pt.subrange(0, 32), p.svk)
            },
    ensures
        ({
            let suid = account(s, pt);
            let fresh = rng.skip(64).bytes(32);
            let blob = sealed(
                pt.subrange(64, 96),
                s.ciphersp_aad,
                fresh + u64_le(0),
                rng.skip(64).skip(32).bytes(24),
            );
            let sig = ed25519_sign(
                pt.subrange(0, 32),
                suid + blob.nonce + blob.ct + blob.tag + u64_le(0),
            );
            let out = s.registration(rng);
            &&& out.result == Ok::<Seq<u8>, PhaseError>(
                blake3_hash(
                    "upspa/abd/registration/result/v1".spec_bytes() + suid + login_value(s, fresh)
                        + sig + u64_le(s.qsp as u64) + u64_le(
                        online(out.state.providers).len() as usize as u64,
                    ),
                ),
            )
            &&& out.state.login == Some(login_value(s, fresh))
            &&& out.rng == rng.skip(64).skip(32).skip(24)
            &&& out.state == (SystemState {
                providers: out.state.providers,
                login: out.state.login,
                ..s
            })
            &&& out.state.providers.len() == s.providers.len()
            &&& forall|j: int|
                0 <= j < s.qsp ==> out.state.providers[#[trigger] online(s.providers)[j]] == (
                ProviderState {
                    csp_db: s.providers[online(s.providers)[j]].csp_db.insert(
                        suid,
                        CspState { ciphersp: blob, ctr: 0, active: true, sig },
                    ),
                    ..s.providers[online(s.providers)[j]]
                })
            &&& forall|i: int|
                0 <= i < s.providers.len() && !online(s.providers).take(s.qsp as int).contains(i)
                    ==> #[trigger] out.state.providers[i] == s.providers[i]
        }),
{
    let on = online(s.providers);
    lemma_online_except(s.providers, -1);
    let rng1 = s.unlock_rng(rng);
    let w = s.register_write(pt, rng1);
    write_succeeds_iff_quorum_accepts(s, w);
    let q = s.chosen(s.qsp);
    assert(q == on.take(s.qsp as int));
    assert forall|j: int| 0 <= j < s.qsp implies accepts(
        s.providers[#[trigger] q[j]],
        s.uid,
        w,
    ) by {
        assert(q[j] == on[j]);
    }
    let out = s.registration(rng);
    assert forall|j: int| 0 <= j < s.qsp implies out.state.providers[#[trigger] on[j]] == stored(
        s.providers[on[j]],
        w,
    ) by {
        assert(q[j] == on[j]);
    }
}

/// A second registration is refused: by the quorum where it holds a secret in use, and by the
/// login server where it has a verification value. Such a login server keeps it.
pub proof fn registration_is_refused_twice(s: SystemState, rng: RngState)
    requires
        s.login is Some,
    ensures
        s.registration(rng).result is Err,
        s.registration(rng).state.login == s.login,
{
}

/// A password update writes to a quorum the same three secrets with the next counter, under the
/// key that the providers give for the new password, and signed; nothing else changes.
pub proof fn password_update_moves_master(s: SystemState, rng: RngState, pt: Seq<u8>)
    requires
        0 < s.tsp <= s.qsp <= online(s.providers).len(),
        s.unlocked(s.password, s.pwd_point, rng) == Ok::<Seq<u8>, PhaseError>(pt),
        u64_of_le(pt.subrange(96, 104)) < u64::MAX,
        forall|j: int|
            0 <= j < s.qsp ==> {
                let p = s.providers[#[trigger] online(s.providers)[j]];
                &&& p.master.ctrid <= u64_of_le(pt.subrange(96, 104))
                &&& signs_under(pt.subrange(0, 32), p.svk)
            },
    ensures
        ({
            let next = (u64_of_le(pt.subrange(96, 104)) + 1) as u64;
            let key = s.derived_key(
                s.new_password,
                s.new_pwd_point,
                scalar_drawn(rng.skip(64)),
            );
            let blob = sealed(
                key,
                s.cipherid_aad,
                pt.subrange(0, 32) + pt.subrange(32, 64) + pt.subrange(64, 96) + u64_le(next),
                rng.skip(64).skip(64).bytes(24),
            );
            let sig = ed25519_sign(
                pt.subrange(0, 32),
                s.uid + blob.nonce + blob.ct + blob.tag + u64_le(next),
            );
            let out = s.password_update(rng);
            &&& out.result == Ok::<Seq<u8>, PhaseError>(
                blake3_hash(
                    "upspa/abd/password_update/result/v1".spec_bytes() + u64_le(next) + sig
                        + u64_le(s.qsp as u64),
                ),
            )
            &&& out.rng == rng.skip(64).skip(64).skip(24)
            &&& out.state == (SystemState { providers: out.state.providers, ..s })
            &&& out.state.providers.len() == s.providers.len()
            &&& forall|j: int|
                0 <= j < s.qsp ==> out.state.providers[#[trigger] online(s.providers)[j]] == (
                ProviderState {
                    master: MasterState { cipherid: blob, ctrid: next },
                    ..s.providers[online(s.providers)[j]]
                })
            &&& forall|i: int|
                0 <= i < s.providers.len() && !online(s.providers).take(s.qsp as int).contains(i)
                    ==> #[trigger] out.state.providers[i] == s.providers[i]
        }),
{
    let on = online(s.providers);
    lemma_online_except(s.providers, -1);
    let w = s.password_update_write(rng).0->Ok_0;
    write_succeeds_iff_quorum_accepts(s, w);
    let q = s.chosen(s.qsp);
    assert(q == on.take(s.qsp as int));
    assert forall|j: int| 0 <= j < s.qsp implies accepts(
        s.providers[#[trigger] q[j]],
        s.uid,
        w,
    ) by {
        assert(q[j] == on[j]);
    }
    let out = s.password_update(rng);
    assert forall|j: int| 0 <= j < s.qsp implies out.state.providers[#[trigger] on[j]] == stored(
        s.providers[on[j]],
        w,
    ) by {
        assert(q[j] == on[j]);
    }
}

/// No phase begins without enough providers: without any there is no coordinator, and with
/// fewer than `tsp` the password gives no key. The account is then as it was.
pub proof fn phases_need_providers(s: SystemState, rng: RngState)
    requires
        s.tsp > 0,
        online(s.providers).len() < s.tsp,
    ensures
        ({
            let e = if online(s.providers).len() == 0 {
                PhaseError::NoCoordinator
            } else {
                PhaseError::NotEnoughOnline {
                    online: online(s.providers).len() as usize,
                    needed: s.tsp,
                }
            };
            &&& s.registration(rng).result == Err::<Seq<u8>, PhaseError>(e)
            &&& s.secret_update(rng).result == Err::<Seq<u8>, PhaseError>(e)
            &&& s.password_update(rng).result == Err::<Seq<u8>, PhaseError>(e)
            &&& s.registration(rng).state == s
            &&& s.secret_update(rng).state == s
            &&& s.password_update(rng).state == s
        }),
{
}

/// The master state that is opened is that of the first provider online.
pub proof fn first_online_is_opened(s: SystemState, password: Seq<u8>, point: Seq<u8>, rng: RngState, i: int)
    requires
        0 <= i < s.providers.len(),
        s.providers[i].online,
        forall|k: int| 0 <= k < i ==> !(#[trigger] s.providers[k]).online,
        online(s.providers).len() >= s.tsp,
    ensures
        s.unlocked(password, point, rng) == match opened(
            s.derived_key(password, point, scalar_drawn(rng)),
            s.cipherid_aad,
            s.providers[i].master.cipherid,
        ) {
            Some(pt) => Ok::<Seq<u8>, PhaseError>(pt),
            None => Err(PhaseError::DecryptFailed),
        },
{
    lemma_online_except(s.providers, -1);
    let on = online(s.providers);
    assert(on.contains(i));
    let j = on.index_of(i);
    assert(on[0] <= on[j]);
    assert(s.providers[on[0]].online);
}

/// The providers of a step are the first ones online: as many as are needed, each online, and
/// every provider online before one of them is among them.
pub proof fn first_online_are_chosen(s: SystemState, needed: usize, i: int)
    requires
        needed <= online(s.providers).len(),
        0 <= i < s.providers.len(),
    ensures
        s.chosen(needed).len() == needed,
        s.chosen(needed).contains(i) ==> s.providers[i].online,
        forall|k: int|
            0 <= k < i && s.chosen(needed).contains(i) && (#[trigger] s.providers[k]).online
                ==> s.chosen(needed).contains(k),
        forall|a: int, b: int|
            0 <= a < b < needed ==> #[trigger] s.chosen(needed)[a] < #[trigger] s.chosen(needed)[b],
{
    lemma_online_except(s.providers, -1);
    let on = online(s.providers);
    let q = s.chosen(needed);
    if q.contains(i) {
        let j = q.index_of(i);
        assert(on[j] == i);
        assert forall|k: int| 0 <= k < i && (#[trigger] s.providers[k]).online implies q.contains(
            k,
        ) by {
            let m = on.index_of(k);
            if m >= j {
                assert(m > j ==> on[j] < on[m]);
            }
            assert(q[m] == k);
        }
    }
    assert forall|a: int, b: int| 0 <= a < b < needed implies #[trigger] q[a] < #[trigger] q[b] by {
        assert(on[a] < on[b]);
    }
}

/// A first write is taken with counter zero, with a signature over the account, the whole
/// ciphertext and the counter, and where no record is in use. It then stands under the
/// account, in use, and nothing else changes.
pub proof fn first_write_is_taken(
    p: ProviderState,
    uid: Seq<u8>,
    suid: Seq<u8>,
    blob: Blob,
    ctr: u64,
    sig: Seq<u8>,
)
    ensures
        ({
            let w = WriteState::Register { suid, ciphersp: blob, ctr, sig };
            let taken = ctr == 0 && ed25519_verify(
                p.svk,
                suid + blob.nonce + blob.ct + blob.tag + u64_le(0),
                sig,
            ) && !(p.csp_db.dom().contains(suid) && p.csp_db[suid].active);
            &&& accepts(p, uid, w) == taken
            &&& asked(p, uid, w) == if taken {
                ProviderState {
                    csp_db: p.csp_db.insert(
                        suid,
                        CspState { ciphersp: blob, ctr: 0, active: true, sig },
                    ),
                    ..p
                }
            } else {
                p
            }
        }),
{
}

/// A later write is taken with such a signature and a counter above that of the record in use.
/// It then stands under the account, in use, and nothing else changes.
pub proof fn later_write_is_taken(
    p: ProviderState,
    uid: Seq<u8>,
    suid: Seq<u8>,
    blob: Blob,
    ctr: u64,
    sig: Seq<u8>,
)
    ensures
        ({
            let w = WriteState::Update { suid, ciphersp: blob, ctr, sig };
            let taken = p.csp_db.dom().contains(suid) && p.csp_db[suid].active
                && p.csp_db[suid].ctr < ctr && ed25519_verify(
                p.svk,
                suid + blob.nonce + blob.ct + blob.tag + u64_le(ctr),
                sig,
            );
            &&& accepts(p, uid, w) == taken
            &&& asked(p, uid, w) == if taken {
                ProviderState {
                    csp_db: p.csp_db.insert(
                        suid,
                        CspState { ciphersp: blob, ctr, active: true, sig },
                    ),
                    ..p
                }
            } else {
                p
            }
        }),
{
}

/// A master state is taken with a counter above the stored one and a signature over the user,
/// the whole ciphertext and the counter. It then replaces the stored one, and nothing else
/// changes.
pub proof fn master_write_is_taken(
    p: ProviderState,
    uid: Seq<u8>,
    blob: Blob,
    ctrid: u64,
    sig: Seq<u8>,
)
    ensures
        ({
            let w = WriteState::Master { cipherid: blob, ctrid, sig };
            let taken = p.master.ctrid < ctrid && ed25519_verify(
                p.svk,
                uid + blob.nonce + blob.ct + blob.tag + u64_le(ctrid),
                sig,
            );
            &&& accepts(p, uid, w) == taken
            &&& asked(p, uid, w) == if taken {
                ProviderState { master: MasterState { cipherid: blob, ctrid }, ..p }
            } else {
                p
            }
        }),
{
}

/// A write that was taken is not taken again.
pub proof fn writes_are_taken_once(p: ProviderState, uid: Seq<u8>, w: WriteState)
    requires
        accepts(p, uid, w),
    ensures
        !accepts(asked(p, uid, w), uid, w),
{
}

/// Each part of what the user signs for a login secret can be read back from it, so signed
/// writes that differ in anything are different messages.
pub proof fn signed_secret_holds_its_parts(suid: Seq<u8>, blob: Blob, ctr: u64)
    requires
        suid.len() == 32,
        blob.nonce.len() == 24,
        blob.ct.len() == 40,
        blob.tag.len() == 16,
    ensures
        ({
            let m = csp_message(suid, blob, ctr);
            &&& m.len() == 120
            &&& m.subrange(0, 32) == suid
            &&& m.subrange(32, 56) == blob.nonce
            &&& m.subrange(56, 96) == blob.ct
            &&& m.subrange(96, 112) == blob.tag
            &&& u64_of_le(m.subrange(112, 120)) == ctr
        }),
{
    vstd::bytes::lemma_auto_spec_u64_to_from_le_bytes();
    let m = csp_message(suid, blob, ctr);
    assert(u64_le(ctr).len() == 8);
    assert(m.subrange(0, 32) =~= suid);
    assert(m.subrange(32, 56) =~= blob.nonce);
    assert(m.subrange(56, 96) =~= blob.ct);
    assert(m.subrange(96, 112) =~= blob.tag);
    assert(m.subrange(112, 120) =~= u64_le(ctr));
}

/// Each part of what the user signs for a master state can be read back from it.
pub proof fn signed_master_holds_its_parts(uid: Seq<u8>, blob: Blob, ctrid: u64)
    requires
        blob.nonce.len() == 24,
        blob.ct.len() == 104,
        blob.tag.len() == 16,
    ensures
        ({
            let m = master_message(uid, blob, ctrid);
            let k = uid.len() as int;
            &&& m.len() == k + 152
            &&& m.subrange(0, k) == uid
            &&& m.subrange(k, k + 24) == blob.nonce
            &&& m.subrange(k + 24, k + 128) == blob.ct
            &&& m.subrange(k + 128, k + 144) == blob.tag
            &&& u64_of_le(m.subrange(k + 144, k + 152)) == ctrid
        }),
{
    vstd::bytes::lemma_auto_spec_u64_to_from_le_bytes();
    let m = master_message(uid, blob, ctrid);
    let k = uid.len() as int;
    assert(u64_le(ctrid).len() == 8);
    assert(m.subrange(0, k) =~= uid);
    assert(m.subrange(k, k + 24) =~= blob.nonce);
    assert(m.subrange(k + 24, k + 128) =~= blob.ct);
    assert(m.subrange(k + 128, k + 144) =~= blob.tag);
    assert(m.subrange(k + 144, k + 152) =~= u64_le(ctrid));
}

/// Account identifiers and verification values are hashes, each under its own tag, of the
/// whole secret and the whole name of the login server.
pub proof fn identifiers_cover_their_inputs(secret: Seq<u8>, lsj: Seq<u8>)
    ensures
        suid_of(secret, lsj) == blake3_hash(
            "upspa/abd/suid/shared/v1".spec_bytes() + (secret + lsj),
        ),
        vinfo_of(secret, lsj) == blake3_hash("upspa/vinfo/v1".spec_bytes() + (secret + lsj)),
{
}

/// The key of a password is the hash, under its own tag, of the whole password and the point
/// of the password times the shared secret.
pub proof fn password_keys_cover_their_inputs(password: Seq<u8>, point: Seq<u8>, c: Seq<int>)
    ensures
        password_point(password) == ristretto_from_uniform(
            crate::hash::blake3_wide("upspa/toprf/hash_to_point/v1".spec_bytes() + password),
        ),
        password_key(password, point, c) == blake3_hash(
            "upspa/toprf/finalize/v1".spec_bytes() + (password + ristretto_mul(
                point,
                (eval(c, 0) % (order() as int)) as nat,
            )),
        ),
{
}

/// The number that a failed write reports is how many of the asked providers took it.
pub proof fn acks_count_takers(
    ps: Seq<ProviderState>,
    idx: Seq<int>,
    uid: Seq<u8>,
    w: WriteState,
    k: int,
)
    requires
        0 <= k <= idx.len(),
    ensures
        Set::new(|j: int| 0 <= j < k && accepts(ps[idx[j]], uid, w)).finite(),
        acks(ps, idx, uid, w, k) == Set::new(
            |j: int| 0 <= j < k && accepts(ps[idx[j]], uid, w),
        ).len(),
    decreases k,
{
    let now = Set::new(|j: int| 0 <= j < k && accepts(ps[idx[j]], uid, w));
    if k > 0 {
        let before = Set::new(|j: int| 0 <= j < k - 1 && accepts(ps[idx[j]], uid, w));
        acks_count_takers(ps, idx, uid, w, k - 1);
        if accepts(ps[idx[k - 1]], uid, w) {
            assert(now =~= before.insert(k - 1));
        } else {
            assert(now =~= before);
        }
    } else {
        assert(now =~= Set::empty());
    }
}

/// A write fails where too few providers are online, with how many are, and else where a
/// member of the quorum does not take it, with how many did; the members that took it keep it.
pub proof fn failed_writes_report(s: SystemState, w: WriteState)
    ensures
        online(s.providers).len() < s.qsp ==> s.write_result(w) == Err::<usize, PhaseError>(
            PhaseError::NotEnoughOnline {
                online: online(s.providers).len() as usize,
                needed: s.qsp,
            },
        ) && s.after_write(w) == s,
        online(s.providers).len() >= s.qsp && s.write_result(w) is Err ==> s.write_result(w)
            == Err::<usize, PhaseError>(
            PhaseError::QuorumFailed {
                acks: Set::new(
                    |j: int|
                        0 <= j < s.qsp && accepts(s.providers[online(s.providers)[j]], s.uid, w),
                ).len() as usize,
                qsp: s.qsp,
            },
        ),
        online(s.providers).len() >= s.qsp ==> forall|j: int|
            0 <= j < s.qsp ==> s.after_write(w).providers[#[trigger] online(s.providers)[j]]
                == asked(s.providers[online(s.providers)[j]], s.uid, w),
{
    lemma_online_except(s.providers, -1);
    let on = online(s.providers);
    let q = s.chosen(s.qsp);
    if on.len() >= s.qsp {
        acks_count_takers(s.providers, q, s.uid, w, q.len() as int);
        assert(Set::new(|j: int| 0 <= j < q.len() && accepts(s.providers[q[j]], s.uid, w))
            =~= Set::new(|j: int| 0 <= j < s.qsp && accepts(s.providers[on[j]], s.uid, w)));
        assert forall|j: int| 0 <= j < s.qsp implies s.after_write(w).providers[#[trigger] on[j]]
            == asked(s.providers[on[j]], s.uid, w) by {
            assert(q[j] == on[j]);
            assert(q.contains(on[j]));
        }
    }
}

/// A login secret counts in a recovery if it is in use and the user signed it.
pub open spec fn counts(svk: Seq<u8>, suid: Seq<u8>, rec: CspState) -> bool {
    rec.active && ed25519_verify(
        svk,
        suid + rec.ciphersp.nonce + rec.ciphersp.ct + rec.ciphersp.tag + u64_le(rec.ctr),
        rec.sig,
    )
}

/// A recovered provider is online and holds the newest secret that counts, of its own and of
/// the first `qsp` other providers online; where none counts its records stay. Its key, share
/// and master state stay, and so do the other providers.
pub proof fn recovered_secret_is_newest(s: SystemState, i: int, suid: Seq<u8>)
    requires
        0 <= i < s.providers.len(),
        online_except(s.providers, i).len() >= s.qsp,
    ensures
        ({
            let from = online_except(s.providers, i).take(s.qsp as int);
            let p = s.providers[i];
            let q = s.csp_recovered(i, suid).providers[i];
            &&& q == (ProviderState { online: true, csp_db: q.csp_db, ..p })
            &&& forall|k: int|
                0 <= k < s.providers.len() && k != i ==> s.csp_recovered(
                    i,
                    suid,
                ).providers[k] == #[trigger] s.providers[k]
            &&& forall|j: int|
                0 <= j < from.len() && s.providers[#[trigger] from[j]].csp_db.dom().contains(suid)
                    && counts(p.svk, suid, s.providers[from[j]].csp_db[suid])
                    ==> q.csp_db.dom().contains(suid) && counts(p.svk, suid, q.csp_db[suid])
                    && q.csp_db[suid].ctr >= s.providers[from[j]].csp_db[suid].ctr
            &&& p.csp_db.dom().contains(suid) && counts(p.svk, suid, p.csp_db[suid])
                ==> q.csp_db.dom().contains(suid) && counts(p.svk, suid, q.csp_db[suid])
                && q.csp_db[suid].ctr >= p.csp_db[suid].ctr
            &&& q.csp_db == p.csp_db || (q.csp_db == p.csp_db.insert(suid, q.csp_db[suid]) && counts(
                p.svk,
                suid,
                q.csp_db[suid],
            ) && exists|j: int|
                0 <= j < from.len() && s.providers[#[trigger] from[j]].csp_db.dom().contains(suid)
                    && s.providers[from[j]].csp_db[suid] == q.csp_db[suid])
        }),
{
    let idx = s.recovery_quorum(i);
    let p = s.providers[i];
    let k = idx.len() as int;
    newest_csp_is_newest(s.providers, p.svk, suid, own_csp(p, suid), idx, k);
    lemma_newest_csp_source(s.providers, p.svk, suid, own_csp(p, suid), idx, k);
    let found = newest_csp(s.providers, p.svk, suid, own_csp(p, suid), idx, k);
    if found is Some && found == own_csp(p, suid) {
        assert(p.csp_db.insert(suid, found->Some_0) =~= p.csp_db);
    }
}

proof fn lemma_newest_csp_source(
    ps: Seq<ProviderState>,
    svk: Seq<u8>,
    suid: Seq<u8>,
    own: Option<CspState>,
    idx: Seq<int>,
    k: int,
)
    requires
        0 <= k <= idx.len(),
    ensures
        newest_csp(ps, svk, suid, own, idx, k) == own || exists|j: int|
            0 <= j < k && ps[#[trigger] idx[j]].csp_db.dom().contains(suid) && newest_csp(
                ps,
                svk,
                suid,
                own,
                idx,
                k,
            ) == Some(ps[idx[j]].csp_db[suid]),
    decreases k,
{
    if k > 0 {
        lemma_newest_csp_source(ps, svk, suid, own, idx, k - 1);
        let before = newest_csp(ps, svk, suid, own, idx, k - 1);
        let now = newest_csp(ps, svk, suid, own, idx, k);
        if now != before {
            assert(ps[idx[k - 1]].csp_db.dom().contains(suid));
        } else if before != own {
            let j = choose|j: int|
                0 <= j < k - 1 && ps[#[trigger] idx[j]].csp_db.dom().contains(suid) && before
                    == Some(ps[idx[j]].csp_db[suid]);
            assert(ps[idx[j]].csp_db.dom().contains(suid));
        }
    }
}

/// A recovered provider is online and holds the newest master state, of its own and of the
/// first `qsp` other providers online; its key, share and records stay, and so do the other
/// providers.
pub proof fn recovered_master_is_newest(s: SystemState, i: int)
    requires
        0 <= i < s.providers.len(),
        online_except(s.providers, i).len() >= s.qsp,
    ensures
        ({
            let from = online_except(s.providers, i).take(s.qsp as int);
            let p = s.providers[i];
            let q = s.master_recovered(i).providers[i];
            &&& q == (ProviderState { online: true, master: q.master, ..p })
            &&& forall|k: int|
                0 <= k < s.providers.len() && k != i ==> s.master_recovered(i).providers[k]
                    == #[trigger] s.providers[k]
            &&& q.master.ctrid >= p.master.ctrid
            &&& forall|j: int|
                0 <= j < from.len() ==> q.master.ctrid >= s.providers[#[trigger] from[j]].master.ctrid
            &&& q.master == p.master || exists|j: int|
                0 <= j < from.len() && q.master == s.providers[#[trigger] from[j]].master
        }),
{
    let idx = s.recovery_quorum(i);
    newest_master_is_newest(s.providers, s.providers[i].master, idx, idx.len() as int);
}

/// A provider recovers from others: it is not among those it reads from, and all of them are
/// online.
pub proof fn recovery_reads_others(s: SystemState, i: int, k: int)
    requires
        0 <= k < s.providers.len(),
    ensures
        online_except(s.providers, i).contains(k) <==> s.providers[k].online && k != i,
{
    lemma_online_except(s.providers, i);
    let on = online_except(s.providers, i);
    if on.contains(k) {
        let j = on.index_of(k);
        assert(on[j] == k);
    }
}

/// Rotation takes a window of places offline, counted round from its first place, brings all
/// others online, and changes nothing that a provider holds.
pub proof fn rotation_changes_availability_only(
    ps: Seq<ProviderState>,
    offset: int,
    count: int,
    i: int,
)
    requires
        0 <= offset,
        0 <= count <= ps.len(),
        0 <= i < ps.len(),
    ensures
        rotated(ps, offset, count).len() == ps.len(),
        rotated(ps, offset, count)[i] == (ProviderState {
            online: rotated(ps, offset, count)[i].online,
            ..ps[i]
        }),
        !rotated(ps, offset, count)[i].online <==> (i - offset) % (ps.len() as int) < count,
{
    let n = ps.len() as int;
    let d = (i - offset) % n;
    vstd::arithmetic::div_mod::lemma_mod_bound(i - offset, n);
    vstd::arithmetic::div_mod::lemma_small_mod(i as nat, n as nat);
    vstd::arithmetic::div_mod::lemma_add_mod_noop_right(offset, i - offset, n);
    assert((offset + d) % n == i);
    if d < count {
        assert(in_window(i, offset, count, n));
    }
    if in_window(i, offset, count, n) {
        let j = choose|j: int| 0 <= j < count && #[trigger] ((offset + j) % n) == i;
        vstd::arithmetic::div_mod::lemma_sub_mod_noop(offset + j, offset, n);
        vstd::arithmetic::div_mod::lemma_sub_mod_noop(i, offset, n);
        vstd::arithmetic::div_mod::lemma_small_mod(j as nat, n as nat);
        assert((offset + j) - offset == j);
        assert(j == d);
    }
}

/// What a phase reads of an opened master state or login secret is what was laid out in it.
pub proof fn layouts_hold_their_parts(
    ssk: Seq<u8>,
    rsp: Seq<u8>,
    fk: Seq<u8>,
    ctrid: u64,
    secret: Seq<u8>,
    ctr: u64,
)
    requires
        ssk.len() == 32,
        rsp.len() == 32,
        fk.len() == 32,
        secret.len() == 32,
    ensures
        ({
            let pt = crate::provider::master_layout(ssk, rsp, fk, ctrid);
            &&& pt == ssk + rsp + fk + u64_le(ctrid)
            &&& crate::upspa_phases::ssk_in(pt) == ssk
            &&& crate::upspa_phases::rsp_in(pt) == rsp
            &&& crate::upspa_phases::fk_in(pt) == fk
            &&& crate::upspa_phases::ctrid_in(pt) == ctrid
        }),
        crate::provider::csp_layout(secret, ctr) == secret + u64_le(ctr),
        crate::provider::csp_layout(secret, ctr).subrange(0, 32) == secret,
        counter_in(crate::provider::csp_layout(secret, ctr)) == ctr,
{
    master_layout_reads_back(ssk, rsp, fk, ctrid);
    csp_layout_reads_back(secret, ctr);
}

} // verus!
