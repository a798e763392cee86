//! What a phase of the quorum scheme leaves behind when it fails, and why it fails: nothing
//! before the write, and afterwards what the write left, without a change at the login server.
use vstd::prelude::*;

use crate::bytes::u64_le;
use crate::keys::ed25519_sign;
use crate::provider::PhaseError;
use crate::rng::RngState;
use crate::upspa_abd::{SystemState, WriteState};
use crate::upspa_law::{account, login_value};
use crate::upspa_phases::next_counter;

verus! {

/// A counter goes up by one, and starts again at zero behind the greatest.
pub proof fn counters_go_up_by_one(ctr: u64)
    ensures
        next_counter(ctr) as int == (ctr + 1) % 0x1_0000_0000_0000_0000,
{
}

/// A phase that cannot unlock the account fails with that error and changes nothing; it has
/// drawn a blinding factor where enough providers were online.
pub proof fn locked_accounts_stay_as_they_are(s: SystemState, rng: RngState, e: PhaseError)
    requires
        s.unlocked(s.password, s.pwd_point, rng) == Err::<Seq<u8>, PhaseError>(e),
    ensures
        s.registration(rng).result == Err::<Seq<u8>, PhaseError>(e),
        s.registration(rng).state == s,
        s.secret_update(rng).result == Err::<Seq<u8>, PhaseError>(e),
        s.secret_update(rng).state == s,
        s.password_update(rng).result == Err::<Seq<u8>, PhaseError>(e),
        s.password_update(rng).state == s,
        e == PhaseError::DecryptFailed ==> s.registration(rng).rng == rng.skip(64)
            && s.secret_update(rng).rng == rng.skip(64) && s.password_update(rng).rng == rng.skip(
            64,
        ),
        e != PhaseError::DecryptFailed ==> s.registration(rng).rng == rng && s.secret_update(
            rng,
        ).rng == rng && s.password_update(rng).rng == rng,
{
}

/// A registration that unlocked the account writes a record with the counter zero. Whatever
/// comes of it, the providers hold what that write left. It succeeds exactly where the write
/// reached its quorum and the login server knew no secret; only then does the login server learn
/// one, and otherwise the error says which of the two failed.
pub proof fn failed_registrations_keep_what_was_written(s: SystemState, rng: RngState, pt: Seq<u8>)
    requires
        s.unlocked(s.password, s.pwd_point, rng) == Ok::<Seq<u8>, PhaseError>(pt),
    ensures
        ({
            let blob = crate::aead::sealed(
                pt.subrange(64, 96),
                s.ciphersp_aad,
                rng.skip(64).bytes(32) + u64_le(0),
                rng.skip(64).skip(32).bytes(24),
            );
            let w = WriteState::Register {
                suid: account(s, pt),
                ciphersp: blob,
                ctr: 0,
                sig: ed25519_sign(
                    pt.subrange(0, 32),
                    account(s, pt) + blob.nonce + blob.ct + blob.tag + u64_le(0),
                ),
            };
            let out = s.registration(rng);
            &&& out.state.providers == s.after_write(w).providers
            &&& out.state == (SystemState {
                providers: out.state.providers,
                login: out.state.login,
                ..s
            })
            &&& out.result is Ok <==> s.write_result(w) is Ok && s.login is None
            &&& out.result is Ok ==> out.state.login == Some(
                login_value(s, rng.skip(64).bytes(32)),
            )
            &&& out.result is Err ==> out.state.login == s.login
            &&& s.write_result(w) matches Err(e) ==> out.result == Err::<Seq<u8>, PhaseError>(e)
            &&& s.write_result(w) is Ok && s.login is Some ==> out.result == Err::<
                Seq<u8>,
                PhaseError,
            >(PhaseError::LoginServerRejected)
            &&& out.rng == rng.skip(64).skip(32).skip(24)
        }),
{
    assert(s.unlock_rng(rng) == rng.skip(64));
}

/// A secret update that unlocked the account but could not read a secret changes nothing. One
/// that read a secret writes a fresh one with the next counter; whatever comes of it, the
/// providers hold what that write left. It succeeds exactly where the write reached its quorum
/// and the login server knew the secret read; only then does the login server learn the fresh
/// one, and otherwise the error says which of the two failed.
pub proof fn failed_secret_updates_keep_what_was_written(
    s: SystemState,
    rng: RngState,
    pt: Seq<u8>,
)
    requires
        s.unlocked(s.password, s.pwd_point, rng) == Ok::<Seq<u8>, PhaseError>(pt),
    ensures
        ({
            let out = s.secret_update(rng);
            match s.secret_read(pt) {
                Err(e) => out.result == Err::<Seq<u8>, PhaseError>(e) && out.state == s && out.rng
                    == rng.skip(64),
                Ok(None) => out.result == Err::<Seq<u8>, PhaseError>(PhaseError::MissingCipherSp)
                    && out.state == s && out.rng == rng.skip(64),
                Ok(Some((ctr, secret))) => {
                    let next = if ctr < u64::MAX {
                        (ctr + 1) as u64
                    } else {
                        0
                    };
                    let blob = crate::aead::sealed(
                        pt.subrange(64, 96),
                        s.ciphersp_aad,
                        rng.skip(64).bytes(32) + u64_le(next),
                        rng.skip(64).skip(32).bytes(24),
                    );
                    let w = WriteState::Update {
                        suid: account(s, pt),
                        ciphersp: blob,
                        ctr: next,
                        sig: ed25519_sign(
                            pt.subrange(0, 32),
                            account(s, pt) + blob.nonce + blob.ct + blob.tag + u64_le(next),
                        ),
                    };
                    &&& out.state.providers == s.after_write(w).providers
                    &&& out.state == (SystemState {
                        providers: out.state.providers,
                        login: out.state.login,
                        ..s
                    })
                    &&& out.result is Ok <==> s.write_result(w) is Ok && s.login == Some(
                        login_value(s, secret),
                    )
                    &&& out.result is Ok ==> out.state.login == Some(
                        login_value(s, rng.skip(64).bytes(32)),
                    )
                    &&& out.result is Err ==> out.state.login == s.login
                    &&& s.write_result(w) matches Err(e) ==> out.result == Err::<
                        Seq<u8>,
                        PhaseError,
                    >(e)
                    &&& s.write_result(w) is Ok && s.login != Some(login_value(s, secret))
                        ==> out.result == Err::<Seq<u8>, PhaseError>(
                        PhaseError::LoginServerRejected,
                    )
                    &&& out.rng == rng.skip(64).skip(32).skip(24)
                },
            }
        }),
{
    assert(s.unlock_rng(rng) == rng.skip(64));
}

/// A password update that unlocked the account writes the master state with the next counter
/// under the key of the new password. Whatever comes of it, the providers hold what that write
/// left, and the login server stays; it succeeds exactly where the write reached its quorum.
pub proof fn failed_password_updates_keep_what_was_written(
    s: SystemState,
    rng: RngState,
    pt: Seq<u8>,
)
    requires
        s.unlocked(s.password, s.pwd_point, rng) == Ok::<Seq<u8>, PhaseError>(pt),
    ensures
        ({
            let ctr = crate::bytes::u64_of_le(pt.subrange(96, 104));
            let next = if ctr < u64::MAX {
                (ctr + 1) as u64
            } else {
                0
            };
            let blob = crate::aead::sealed(
                s.derived_key(
                    s.new_password,
                    s.new_pwd_point,
                    crate::toprf::scalar_drawn(rng.skip(64)),
                ),
                s.cipherid_aad,
                pt.subrange(0, 32) + pt.subrange(32, 64) + pt.subrange(64, 96) + u64_le(next),
                rng.skip(64).skip(64).bytes(24),
            );
            let w = WriteState::Master {
                cipherid: blob,
                ctrid: next,
                sig: ed25519_sign(
                    pt.subrange(0, 32),
                    s.uid + blob.nonce + blob.ct + blob.tag + u64_le(next),
                ),
            };
            let out = s.password_update(rng);
            &&& out.state == s.after_write(w)
            &&& out.state.login == s.login
            &&& out.result is Ok <==> s.write_result(w) is Ok
            &&& s.write_result(w) matches Err(e) ==> out.result == Err::<Seq<u8>, PhaseError>(e)
            &&& out.rng == rng.skip(64).skip(64).skip(24)
        }),
{
    assert(s.unlock_rng(rng) == rng.skip(64));
}

} // verus!
