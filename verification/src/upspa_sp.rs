//! A storage provider that takes password updates in order of their time stamps.
use vstd::prelude::*;
use vstd::string::StringSliceAdditionalSpecFns;

use crate::aead::{self, Blob, CtBlob};
use crate::bytes::{self, le_nat, u64_of_le};
use crate::group::Group;
use crate::hash::{self, tagged};
use crate::keys::{self, ed25519_key_valid, ed25519_verify, Signature, VerifyingKey};
use crate::ristretto::{order, ristretto_mul, ristretto_valid, Point, Scalar};
use crate::store::Store;

verus! {

/// The length of the master state: a signing key and two secrets.
pub const CIPHERID_PT_LEN: usize = 96;

/// The length of a login secret with its counter.
pub const CIPHERSP_PT_LEN: usize = 40;

pub const RISTRETTO_BYTES: usize = 32;

pub const NET_UPSPA_SETUP_REQ_BYTES: usize = 32 + 32 + 136 + 32 + 4;

pub const NET_UPSPA_SETUP_RESP_BYTES: usize = 1;

pub const NET_UPSPA_TOPRF_REQ_BYTES: usize = 32 + RISTRETTO_BYTES;

pub const NET_UPSPA_TOPRF_RESP_BYTES: usize = RISTRETTO_BYTES;

pub const NET_UPSPA_GET_CSP_REQ_BYTES: usize = 32;

pub const NET_UPSPA_GET_CSP_RESP_BYTES: usize = aead::NONCE_LEN + CIPHERSP_PT_LEN + aead::TAG_LEN;

pub const NET_UPSPA_PUT_CSP_REQ_BYTES: usize = 32 + NET_UPSPA_GET_CSP_RESP_BYTES;

pub const NET_UPSPA_PUT_CSP_RESP_BYTES: usize = 1;

/// The length of a password update: ciphertext, share, time stamp and provider number.
pub const PWDUPD_MSG_BYTES: usize = aead::NONCE_LEN + CIPHERID_PT_LEN + aead::TAG_LEN + 32 + 8 + 4;

pub const NET_UPSPA_PWDUPD_REQ_BYTES: usize = 32 + PWDUPD_MSG_BYTES + 64;

pub const NET_UPSPA_PWDUPD_RESP_BYTES: usize = 1;

/// A storage provider.
#[derive(Clone)]
pub struct UpSpaProvider {
    pub sp_id: u32,
    pub share: Scalar,
    pub sig_pk: VerifyingKey,
    pub ciphersp_db: Store<CtBlob<CIPHERSP_PT_LEN>>,
    pub last_cipherid: CtBlob<CIPHERID_PT_LEN>,
    pub last_pwdupd_ts: u64,
}

/// What a provider holds.
#[verifier::ext_equal]
pub struct UpSpaProviderState {
    pub sp_id: u32,
    pub share: nat,
    pub sig_pk: Seq<u8>,
    pub ciphersp_db: Map<Seq<u8>, Blob>,
    pub last_cipherid: Blob,
    pub last_pwdupd_ts: u64,
}

impl View for UpSpaProvider {
    type V = UpSpaProviderState;

    open spec fn view(&self) -> UpSpaProviderState {
        UpSpaProviderState {
            sp_id: self.sp_id,
            share: self.share@,
            sig_pk: self.sig_pk@,
            ciphersp_db: self.ciphersp_db@.map_values(|b: CtBlob<CIPHERSP_PT_LEN>| b@),
            last_cipherid: self.last_cipherid@,
            last_pwdupd_ts: self.last_pwdupd_ts,
        }
    }
}

/// The time stamp of a password update.
pub open spec fn update_ts(msg: Seq<u8>) -> u64 {
    u64_of_le(msg.subrange(168, 176))
}

impl UpSpaProviderState {
    /// A provider without login secrets that has seen no password update.
    pub open spec fn initial(
        sp_id: u32,
        share: nat,
        sig_pk: Seq<u8>,
        cipherid: Blob,
    ) -> UpSpaProviderState {
        UpSpaProviderState {
            sp_id,
            share,
            sig_pk,
            ciphersp_db: Map::empty(),
            last_cipherid: cipherid,
            last_pwdupd_ts: 0,
        }
    }

    /// An update is long enough, not older than the last one, and signed.
    pub open spec fn accepts_update(self, msg: Seq<u8>, sig: Seq<u8>) -> bool {
        &&& msg.len() >= PWDUPD_MSG_BYTES
        &&& update_ts(msg) >= self.last_pwdupd_ts
        &&& ed25519_verify(self.sig_pk, msg, sig)
    }

    /// The provider after an accepted update: the new master state, the new share and the
    /// time stamp.
    pub open spec fn updated(self, msg: Seq<u8>) -> UpSpaProviderState {
        UpSpaProviderState {
            last_cipherid: Blob {
                nonce: msg.subrange(0, 24),
                ct: msg.subrange(24, 120),
                tag: msg.subrange(120, 136),
            },
            share: le_nat(msg.subrange(136, 168)) % order(),
            last_pwdupd_ts: update_ts(msg),
            ..self
        }
    }
}

impl UpSpaProvider {
    /// A provider with the user's verifying key and first master state.
    pub fn new(
        sp_id: u32,
        share: Scalar,
        sig_pk_bytes: [u8; 32],
        initial_cipherid: CtBlob<CIPHERID_PT_LEN>,
    ) -> (r: UpSpaProvider)
        requires
            ed25519_key_valid(sig_pk_bytes@),
        ensures
            r@ == UpSpaProviderState::initial(sp_id, share@, sig_pk_bytes@, initial_cipherid@),
    {
        let r = UpSpaProvider {
            sp_id,
            share,
            sig_pk: sig_pk_bytes,
            ciphersp_db: Store::new(),
            last_cipherid: initial_cipherid,
            last_pwdupd_ts: 0,
        };
        assert(r@.ciphersp_db =~= Map::<Seq<u8>, Blob>::empty());
        r
    }

    /// A provider with the user's verifying key and first master state, if the bytes are
    /// a verifying key.
    pub fn try_new(
        sp_id: u32,
        share: Scalar,
        sig_pk_bytes: [u8; 32],
        initial_cipherid: CtBlob<CIPHERID_PT_LEN>,
    ) -> (r: Option<UpSpaProvider>)
        ensures
            r is Some <==> ed25519_key_valid(sig_pk_bytes@),
            r matches Some(p) ==> p@ == UpSpaProviderState::initial(
                sp_id,
                share@,
                sig_pk_bytes@,
                initial_cipherid@,
            ),
    {
        if keys::verifying_key_is_valid(&sig_pk_bytes) {
            Some(UpSpaProvider::new(sp_id, share, sig_pk_bytes, initial_cipherid))
        } else {
            None
        }
    }

    /// The provider's part of the password function for the encoded point.
    pub fn toprf_send_eval(&self, blinded_bytes: &[u8; 32]) -> (r: [u8; 32])
        requires
            ristretto_valid(blinded_bytes@),
        ensures
            r@ == ristretto_mul(blinded_bytes@, self@.share),
    {
        match Point::decompress(blinded_bytes) {
            Some(blinded) => blinded.scale(self.share).compress(),
            None => vstd::pervasive::unreached(),
        }
    }

    /// The provider's part of the password function, if the bytes encode a point.
    pub fn try_toprf_send_eval(&self, blinded_bytes: &[u8; 32]) -> (r: Option<[u8; 32]>)
        ensures
            r is Some <==> ristretto_valid(blinded_bytes@),
            r matches Some(b) ==> b@ == ristretto_mul(blinded_bytes@, self@.share),
    {
        match Point::decompress(blinded_bytes) {
            Some(_) => Some(self.toprf_send_eval(blinded_bytes)),
            None => None,
        }
    }

    /// The login secret under `suid`.
    pub fn get_ciphersp(&self, suid: &[u8; 32]) -> (r: Option<CtBlob<CIPHERSP_PT_LEN>>)
        ensures
            r is Some <==> self@.ciphersp_db.dom().contains(suid@),
            r matches Some(b) ==> b@ == self@.ciphersp_db[suid@],
    {
        match self.ciphersp_db.get(suid) {
            Some(b) => Some(*b),
            None => None,
        }
    }

    /// Puts a login secret under `suid`.
    pub fn put_ciphersp(&mut self, suid: [u8; 32], blob: CtBlob<CIPHERSP_PT_LEN>)
        ensures
            final(self)@ == (UpSpaProviderState {
                ciphersp_db: old(self)@.ciphersp_db.insert(suid@, blob@),
                ..old(self)@
            }),
    {
        let ghost before = self@;
        self.ciphersp_db.insert(suid, blob);
        assert(self@.ciphersp_db =~= before.ciphersp_db.insert(suid@, blob@));
    }

    /// Takes a signed password update that is not older than the last one. A refused
    /// update changes nothing.
    pub fn apply_password_update(&mut self, msg: &[u8], sig: &Signature) -> (r: bool)
        ensures
            r == old(self)@.accepts_update(msg@, sig@),
            final(self)@ == if r {
                old(self)@.updated(msg@)
            } else {
                old(self)@
            },
            final(self)@.last_pwdupd_ts >= old(self)@.last_pwdupd_ts,
    {
        if msg.len() < PWDUPD_MSG_BYTES {
            return false;
        }
        let ts_bytes = bytes::piece::<8>(msg, 168);
        let ts = bytes::u64_from_le(&ts_bytes);
        if ts < self.last_pwdupd_ts {
            return false;
        }
        if !keys::verify(&self.sig_pk, msg, sig) {
            return false;
        }
        let nonce = bytes::piece::<24>(msg, 0);
        let ct = bytes::piece::<CIPHERID_PT_LEN>(msg, 24);
        let tag = bytes::piece::<16>(msg, 120);
        self.last_cipherid = CtBlob { nonce, ct, tag };
        let share_bytes = bytes::piece::<32>(msg, 136);
        self.share = Scalar::from_bytes_mod_order(share_bytes);
        self.last_pwdupd_ts = ts;
        true
    }
}

/// The canonical encoding of a point.
pub fn compress_point(p: &Point) -> (r: [u8; 32])
    ensures
        r@ == p@,
{
    p.compress()
}

/// Hashes a user name.
pub fn uid_hash(uid: &[u8]) -> (r: [u8; 32])
    ensures
        r@ == tagged("uptspa/uid_hash/v1".spec_bytes(), uid@),
{
    hash::hash_tagged("uptspa/uid_hash/v1", uid)
}

/// What a provider stores under one account, it gives back, and other accounts are
/// untouched.
pub proof fn stored_secret_reads_back(
    p: UpSpaProviderState,
    suid: Seq<u8>,
    other: Seq<u8>,
    blob: Blob,
)
    ensures
        p.ciphersp_db.insert(suid, blob)[suid] == blob,
        other != suid ==> (p.ciphersp_db.insert(suid, blob).dom().contains(other)
            <==> p.ciphersp_db.dom().contains(other)),
        other != suid && p.ciphersp_db.dom().contains(other) ==> p.ciphersp_db.insert(
            suid,
            blob,
        )[other] == p.ciphersp_db[other],
{
}

/// An accepted update cannot be followed by an older one.
pub proof fn older_updates_are_refused(
    p: UpSpaProviderState,
    msg: Seq<u8>,
    sig: Seq<u8>,
    later: Seq<u8>,
    later_sig: Seq<u8>,
)
    requires
        p.accepts_update(msg, sig),
        later.len() >= PWDUPD_MSG_BYTES,
        update_ts(later) < update_ts(msg),
    ensures
        !p.updated(msg).accepts_update(later, later_sig),
{
}

/// After an accepted update the held master state is the first 136 bytes of the message, the
/// share the number in the next 32, and the time stamp that in the eight after them. The
/// provider's number, the user's key and the login secrets stay.
pub proof fn accepted_update_is_held(p: UpSpaProviderState, msg: Seq<u8>, sig: Seq<u8>)
    requires
        p.accepts_update(msg, sig),
    ensures
        ({
            let q = p.updated(msg);
            &&& q.last_cipherid.nonce + q.last_cipherid.ct + q.last_cipherid.tag == msg.take(136)
            &&& q.last_cipherid.nonce.len() == 24
            &&& q.last_cipherid.ct.len() == 96
            &&& q.last_cipherid.tag.len() == 16
            &&& q.share == le_nat(msg.subrange(136, 168)) % order()
            &&& q.last_pwdupd_ts == u64_of_le(msg.subrange(168, 176))
            &&& q.last_pwdupd_ts >= p.last_pwdupd_ts
            &&& q.sp_id == p.sp_id
            &&& q.sig_pk == p.sig_pk
            &&& q.ciphersp_db == p.ciphersp_db
        }),
{
    let q = p.updated(msg);
    assert(q.last_cipherid.nonce + q.last_cipherid.ct + q.last_cipherid.tag =~= msg.take(136));
}

/// Two accepted updates that leave the same master state, share and time stamp agree in all
/// that they carry for them.
pub proof fn updates_are_told_apart(p: UpSpaProviderState, a: Seq<u8>, b: Seq<u8>)
    requires
        a.len() >= 180,
        b.len() >= 180,
        p.updated(a) == p.updated(b),
    ensures
        a.take(136) == b.take(136),
        u64_of_le(a.subrange(168, 176)) == u64_of_le(b.subrange(168, 176)),
        le_nat(a.subrange(136, 168)) % order() == le_nat(b.subrange(136, 168)) % order(),
{
    let (x, y) = (p.updated(a).last_cipherid, p.updated(b).last_cipherid);
    assert(x.nonce + x.ct + x.tag =~= a.take(136));
    assert(y.nonce + y.ct + y.tag =~= b.take(136));
}

/// An update is taken exactly where it has room for a master state, a share, a time stamp and a
/// number, is not older than the last one, and the user signed all of it.
pub proof fn update_is_taken(p: UpSpaProviderState, msg: Seq<u8>, sig: Seq<u8>)
    ensures
        p.accepts_update(msg, sig) <==> msg.len() >= 24 + 96 + 16 + 32 + 8 + 4 && u64_of_le(
            msg.subrange(168, 176),
        ) >= p.last_pwdupd_ts && ed25519_verify(p.sig_pk, msg, sig),
{
}

/// A new provider holds what it was made with, no login secrets, and takes an update with any
/// time stamp.
pub proof fn new_provider_takes_first_update(
    sp_id: u32,
    share: nat,
    sig_pk: Seq<u8>,
    cipherid: Blob,
    msg: Seq<u8>,
    sig: Seq<u8>,
)
    requires
        msg.len() >= 180,
        ed25519_verify(sig_pk, msg, sig),
    ensures
        ({
            let p = UpSpaProviderState::initial(sp_id, share, sig_pk, cipherid);
            &&& p.accepts_update(msg, sig)
            &&& p.sp_id == sp_id
            &&& p.share == share
            &&& p.sig_pk == sig_pk
            &&& p.last_cipherid == cipherid
            &&& forall|suid: Seq<u8>| !#[trigger] p.ciphersp_db.dom().contains(suid)
        }),
{
}

} // verus!
