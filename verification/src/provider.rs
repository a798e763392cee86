//! What a storage provider and a login server hold, and which writes they accept.
use vstd::prelude::*;
use vstd::string::StringSliceAdditionalSpecFns;

use crate::aead::{self, Blob, CtBlob};
use crate::bytes::{self, cat2, cat3, push_bytes, u64_le, u64_of_le};
use crate::group::Group;
use crate::hash::{self, blake3_hash, tagged};
use crate::keys::{self, ed25519_verify, Signature, SigningKey, VerifyingKey};
use crate::ristretto::{ristretto_mul, Point, Scalar};
use crate::store::Store;
use crate::text::{append, copy_text, number_text, numeral};

verus! {

pub const CIPHERID_PT_LEN: usize = 32 + 32 + 32 + 8;

pub const CIPHERSP_PT_LEN: usize = 32 + 8;

pub const CIPHERID_BLOB_BYTES: usize = aead::NONCE_LEN + CIPHERID_PT_LEN + aead::TAG_LEN;

pub const CIPHERSP_BLOB_BYTES: usize = aead::NONCE_LEN + CIPHERSP_PT_LEN + aead::TAG_LEN;

pub const MSG_UID_BYTES: usize = 32;

pub const MSG_STATUS_BYTES: usize = 1;

pub const MSG_TOPRF_REQ_BYTES: usize = 32 + 32;

pub const MSG_TOPRF_RESP_BYTES: usize = 32;

pub const MSG_CIPHERID_REQ_BYTES: usize = 32;

pub const MSG_CIPHERID_RESP_BYTES: usize = CIPHERID_BLOB_BYTES;

pub const MSG_CIPHERSP_REQ_BYTES: usize = 32;

pub const MSG_CIPHERSP_RESP_BYTES: usize = CIPHERSP_BLOB_BYTES;

pub const MSG_CIPHERSP_WRITE_REQ_BYTES: usize = 32 + 64 + CIPHERSP_BLOB_BYTES + 8;

pub const MSG_MASTER_WRITE_REQ_BYTES: usize = 32 + 64 + CIPHERID_BLOB_BYTES + 8;

pub const MSG_LS_REGISTER_REQ_BYTES: usize = 32 + 32;

pub const MSG_LS_UPDATE_REQ_BYTES: usize = 32 + 32 + 32;

/// The encrypted master state and its counter.
#[derive(Clone, Copy)]
pub struct MasterRecord {
    pub cipherid: CtBlob<CIPHERID_PT_LEN>,
    pub ctrid: u64,
}

/// What a master record holds.
#[verifier::ext_equal]
pub struct MasterState {
    pub cipherid: Blob,
    pub ctrid: u64,
}

impl View for MasterRecord {
    type V = MasterState;

    open spec fn view(&self) -> MasterState {
        MasterState { cipherid: self.cipherid@, ctrid: self.ctrid }
    }
}

/// An encrypted login secret with its counter and the user's signature.
#[derive(Clone, Copy)]
pub struct CspRecord {
    pub ciphersp: CtBlob<CIPHERSP_PT_LEN>,
    pub ctr: u64,
    pub active: bool,
    pub sig: Signature,
}

/// What a login secret record holds.
#[verifier::ext_equal]
pub struct CspState {
    pub ciphersp: Blob,
    pub ctr: u64,
    pub active: bool,
    pub sig: Seq<u8>,
}

impl View for CspRecord {
    type V = CspState;

    open spec fn view(&self) -> CspState {
        CspState {
            ciphersp: self.ciphersp@,
            ctr: self.ctr,
            active: self.active,
            sig: self.sig@,
        }
    }
}

/// A storage provider.
#[derive(Clone)]
pub struct Provider {
    pub id: u32,
    pub online: bool,
    pub share: Scalar,
    pub svk: VerifyingKey,
    pub master: MasterRecord,
    pub csp_db: Store<CspRecord>,
}

/// What a provider holds.
#[verifier::ext_equal]
pub struct ProviderState {
    pub id: u32,
    pub online: bool,
    pub share: nat,
    pub svk: Seq<u8>,
    pub master: MasterState,
    pub csp_db: Map<Seq<u8>, CspState>,
}

impl View for Provider {
    type V = ProviderState;

    open spec fn view(&self) -> ProviderState {
        ProviderState {
            id: self.id,
            online: self.online,
            share: self.share@,
            svk: self.svk@,
            master: self.master@,
            csp_db: self.csp_db@.map_values(|r: CspRecord| r@),
        }
    }
}

/// The bytes that the user signs to write a login secret.
pub open spec fn csp_message(suid: Seq<u8>, blob: Blob, ctr: u64) -> Seq<u8> {
    suid + blob.nonce + blob.ct + blob.tag + u64_le(ctr)
}

/// The bytes that the user signs to replace the master state.
pub open spec fn master_message(uid: Seq<u8>, blob: Blob, ctrid: u64) -> Seq<u8> {
    uid + blob.nonce + blob.ct + blob.tag + u64_le(ctrid)
}

impl ProviderState {
    /// The provider with the record of a login secret put in.
    pub open spec fn with_csp(self, suid: Seq<u8>, rec: CspState) -> ProviderState {
        ProviderState { csp_db: self.csp_db.insert(suid, rec), ..self }
    }

    /// Whether a record under `suid` is in use.
    pub open spec fn has_active(self, suid: Seq<u8>) -> bool {
        self.csp_db.dom().contains(suid) && self.csp_db[suid].active
    }

    /// Whether the signature holds for a write of a login secret.
    pub open spec fn csp_signed(self, suid: Seq<u8>, blob: Blob, ctr: u64, sig: Seq<u8>) -> bool {
        ed25519_verify(self.svk, csp_message(suid, blob, ctr), sig)
    }

    /// A first write: counter zero, a good signature, and no record in use.
    pub open spec fn accepts_register(
        self,
        suid: Seq<u8>,
        blob: Blob,
        ctr: u64,
        sig: Seq<u8>,
    ) -> bool {
        ctr == 0 && self.csp_signed(suid, blob, ctr, sig) && !self.has_active(suid)
    }

    /// A later write: a good signature and a counter above the one in use.
    pub open spec fn accepts_update(
        self,
        suid: Seq<u8>,
        blob: Blob,
        ctr: u64,
        sig: Seq<u8>,
    ) -> bool {
        self.csp_signed(suid, blob, ctr, sig) && self.has_active(suid) && ctr
            > self.csp_db[suid].ctr
    }

    /// A new master state: a counter above the stored one and a good signature.
    pub open spec fn accepts_master(
        self,
        uid: Seq<u8>,
        blob: Blob,
        ctrid: u64,
        sig: Seq<u8>,
    ) -> bool {
        ctrid > self.master.ctrid && ed25519_verify(
            self.svk,
            master_message(uid, blob, ctrid),
            sig,
        )
    }
}

/// The record that a write of a login secret leaves.
pub open spec fn active_record(blob: Blob, ctr: u64, sig: Seq<u8>) -> CspState {
    CspState { ciphersp: blob, ctr, active: true, sig }
}

pub(crate) fn csp_write_message(suid: &[u8; 32], blob: &CtBlob<CIPHERSP_PT_LEN>, ctr: u64) -> (r: Vec<u8>)
    ensures
        r@ == csp_message(suid@, blob@, ctr),
{
    let mut msg: Vec<u8> = bytes::copy_bytes(suid);
    push_bytes(&mut msg, &blob.nonce);
    push_bytes(&mut msg, &blob.ct);
    push_bytes(&mut msg, &blob.tag);
    push_bytes(&mut msg, &bytes::u64_to_le(ctr));
    msg
}

pub(crate) fn master_update_message(uid: &[u8], blob: &CtBlob<CIPHERID_PT_LEN>, ctrid: u64) -> (r: Vec<u8>)
    ensures
        r@ == master_message(uid@, blob@, ctrid),
{
    let mut msg: Vec<u8> = bytes::copy_bytes(uid);
    push_bytes(&mut msg, &blob.nonce);
    push_bytes(&mut msg, &blob.ct);
    push_bytes(&mut msg, &blob.tag);
    push_bytes(&mut msg, &bytes::u64_to_le(ctrid));
    msg
}

impl Provider {
    /// The provider's part of the password function.
    pub(crate) fn toprf_eval(&self, blinded: &Point) -> (r: Point)
        ensures
            r@ == ristretto_mul(blinded@, self@.share),
    {
        blinded.scale(self.share)
    }

    /// Replaces the record under `suid`.
    pub(crate) fn put_csp(&mut self, suid: [u8; 32], rec: CspRecord)
        ensures
            final(self)@ == old(self)@.with_csp(suid@, rec@),
    {
        let ghost before = self@;
        self.csp_db.insert(suid, rec);
        assert(self@ =~= before.with_csp(suid@, rec@)) by {
            assert(self@.csp_db =~= before.csp_db.insert(suid@, rec@));
        }
    }

    /// The record under `suid`.
    pub(crate) fn csp(&self, suid: &[u8; 32]) -> (r: Option<CspRecord>)
        ensures
            r is Some <==> self@.csp_db.dom().contains(suid@),
            r matches Some(rec) ==> rec@ == self@.csp_db[suid@],
    {
        match self.csp_db.get(suid) {
            Some(rec) => Some(*rec),
            None => None,
        }
    }

    /// Stores a first login secret under `suid`, if it is acceptable.
    pub fn accept_csp_register(
        &mut self,
        suid: [u8; 32],
        ciphersp: CtBlob<CIPHERSP_PT_LEN>,
        ctr: u64,
        sig: &Signature,
    ) -> (r: bool)
        ensures
            r == old(self)@.accepts_register(suid@, ciphersp@, ctr, sig@),
            final(self)@ == if r {
                old(self)@.with_csp(suid@, active_record(ciphersp@, ctr, sig@))
            } else {
                old(self)@
            },
    {
        if ctr != 0 {
            return false;
        }
        let msg = csp_write_message(&suid, &ciphersp, ctr);
        if !keys::verify(&self.svk, msg.as_slice(), sig) {
            return false;
        }
        match self.csp(&suid) {
            Some(rec) if rec.active => false,
            _ => {
                self.put_csp(suid, CspRecord { ciphersp, ctr, active: true, sig: *sig });
                true
            },
        }
    }

    /// Stores a later login secret under `suid`, if it is acceptable.
    pub fn accept_csp_update(
        &mut self,
        suid: [u8; 32],
        ciphersp: CtBlob<CIPHERSP_PT_LEN>,
        ctr: u64,
        sig: &Signature,
    ) -> (r: bool)
        ensures
            r == old(self)@.accepts_update(suid@, ciphersp@, ctr, sig@),
            final(self)@ == if r {
                old(self)@.with_csp(suid@, active_record(ciphersp@, ctr, sig@))
            } else {
                old(self)@
            },
    {
        let msg = csp_write_message(&suid, &ciphersp, ctr);
        if !keys::verify(&self.svk, msg.as_slice(), sig) {
            return false;
        }
        match self.csp(&suid) {
            Some(rec) => {
                if rec.active && ctr > rec.ctr {
                    self.put_csp(suid, CspRecord { ciphersp, ctr, active: true, sig: *sig });
                    true
                } else {
                    false
                }
            },
            None => false,
        }
    }

    /// Replaces the master state, if the new one is acceptable.
    pub fn accept_master_update(
        &mut self,
        uid: &[u8],
        newcipherid: CtBlob<CIPHERID_PT_LEN>,
        ctrid: u64,
        sig: &Signature,
    ) -> (r: bool)
        ensures
            r == old(self)@.accepts_master(uid@, newcipherid@, ctrid, sig@),
            final(self)@ == if r {
                ProviderState {
                    master: MasterState { cipherid: newcipherid@, ctrid },
                    ..old(self)@
                }
            } else {
                old(self)@
            },
    {
        if ctrid <= self.master.ctrid {
            return false;
        }
        let msg = master_update_message(uid, &newcipherid, ctrid);
        if !keys::verify(&self.svk, msg.as_slice(), sig) {
            return false;
        }
        self.master = MasterRecord { cipherid: newcipherid, ctrid };
        true
    }
}

/// Counters of login secrets in use never go down, and a record in use stays in use:
/// what a provider accepts replaces a record only by one with a larger counter.
pub proof fn accepted_writes_raise_counters(
    p: ProviderState,
    suid: Seq<u8>,
    other: Seq<u8>,
    blob: Blob,
    ctr: u64,
    sig: Seq<u8>,
)
    requires
        p.accepts_register(suid, blob, ctr, sig) || p.accepts_update(suid, blob, ctr, sig),
        p.has_active(other),
    ensures
        p.with_csp(suid, active_record(blob, ctr, sig)).has_active(other),
        p.with_csp(suid, active_record(blob, ctr, sig)).csp_db[other].ctr >= p.csp_db[other].ctr,
        other == suid ==> p.with_csp(suid, active_record(blob, ctr, sig)).csp_db[other].ctr
            > p.csp_db[other].ctr,
        other != suid ==> p.with_csp(suid, active_record(blob, ctr, sig)).csp_db[other]
            == p.csp_db[other],
{
}

/// The server that a user logs in to.
#[derive(Clone, Copy)]
pub struct LoginServer {
    pub vinfo: Option<[u8; 32]>,
}

impl View for LoginServer {
    type V = Option<Seq<u8>>;

    open spec fn view(&self) -> Option<Seq<u8>> {
        match self.vinfo {
            Some(v) => Some(v@),
            None => None,
        }
    }
}

impl LoginServer {
    /// A server without a registration.
    pub fn new() -> (r: LoginServer)
        ensures
            r@ is None,
    {
        LoginServer { vinfo: None }
    }

    /// Stores the first verification value; a second one is refused.
    pub fn register(&mut self, vinfo: [u8; 32]) -> (r: bool)
        ensures
            r == (old(self)@ is None),
            final(self)@ == if r {
                Some(vinfo@)
            } else {
                old(self)@
            },
    {
        if self.vinfo.is_some() {
            false
        } else {
            self.vinfo = Some(vinfo);
            true
        }
    }

    /// Replaces the verification value by someone who knows the present one.
    pub fn update(&mut self, old_vinfo: [u8; 32], new_vinfo: [u8; 32]) -> (r: bool)
        ensures
            r == (old(self)@ == Some(old_vinfo@)),
            final(self)@ == if r {
                Some(new_vinfo@)
            } else {
                old(self)@
            },
    {
        match self.vinfo {
            Some(v) => {
                if bytes::same_bytes(&v, &old_vinfo) {
                    self.vinfo = Some(new_vinfo);
                    true
                } else {
                    false
                }
            },
            None => false,
        }
    }
}

/// Why a phase did not complete.
#[derive(Clone, Copy, Debug, PartialEq, Eq, Structural)]
pub enum PhaseError {
    NotEnoughOnline { online: usize, needed: usize },
    NoCoordinator,
    MissingCipherSp,
    QuorumFailed { acks: usize, qsp: usize },
    LoginServerRejected,
    DecryptFailed,
}

/// The message for a failed phase.
pub open spec fn phase_text(e: PhaseError) -> Seq<char> {
    match e {
        PhaseError::NotEnoughOnline { online, needed } => "not enough online providers: online="@
            + numeral(online as nat) + ", needed="@ + numeral(needed as nat),
        PhaseError::NoCoordinator => "no online coordinator available"@,
        PhaseError::MissingCipherSp => "not enough ciphersp candidates"@,
        PhaseError::QuorumFailed { acks, qsp } => "quorum write failed: acks="@ + numeral(
            acks as nat,
        ) + ", qsp="@ + numeral(qsp as nat),
        PhaseError::LoginServerRejected => "login server rejected the update"@,
        PhaseError::DecryptFailed => "authenticated decryption failed"@,
    }
}

impl PhaseError {
    /// The message for the error.
    pub fn message(&self) -> (r: String)
        ensures
            r@ == phase_text(*self),
    {
        match *self {
            PhaseError::NotEnoughOnline { online, needed } => {
                let mut r = copy_text("not enough online providers: online=");
                append(&mut r, number_text(online as u128).as_str());
                append(&mut r, ", needed=");
                append(&mut r, number_text(needed as u128).as_str());
                r
            },
            PhaseError::NoCoordinator => copy_text("no online coordinator available"),
            PhaseError::MissingCipherSp => copy_text("not enough ciphersp candidates"),
            PhaseError::QuorumFailed { acks, qsp } => {
                let mut r = copy_text("quorum write failed: acks=");
                append(&mut r, number_text(acks as u128).as_str());
                append(&mut r, ", qsp=");
                append(&mut r, number_text(qsp as u128).as_str());
                r
            },
            PhaseError::LoginServerRejected => copy_text("login server rejected the update"),
            PhaseError::DecryptFailed => copy_text("authenticated decryption failed"),
        }
    }
}

/// The account identifier shared by all providers.
pub open spec fn suid_of(rsp: Seq<u8>, lsj: Seq<u8>) -> Seq<u8> {
    tagged("upspa/abd/suid/shared/v1".spec_bytes(), rsp + lsj)
}

/// Derives the account identifier from the user's secret and the server's name.
pub fn hash_suid_shared(rsp: &[u8; 32], lsj: &[u8]) -> (r: [u8; 32])
    ensures
        r@ == suid_of(rsp@, lsj@),
{
    hash::hash_tagged("upspa/abd/suid/shared/v1", cat2(rsp, lsj).as_slice())
}

/// Hashes a user name.
pub fn uid_hash(uid: &[u8]) -> (r: [u8; 32])
    ensures
        r@ == tagged("upspa/abd/uid/v1".spec_bytes(), uid@),
{
    hash::hash_tagged("upspa/abd/uid/v1", uid)
}

/// The verification value that a login server stores.
pub open spec fn vinfo_of(rlsj: Seq<u8>, lsj: Seq<u8>) -> Seq<u8> {
    tagged("upspa/vinfo/v1".spec_bytes(), rlsj + lsj)
}

/// Derives the verification value from a login secret and the server's name.
pub fn hash_vinfo(rlsj: &[u8; 32], lsj: &[u8]) -> (r: [u8; 32])
    ensures
        r@ == vinfo_of(rlsj@, lsj@),
{
    hash::hash_tagged("upspa/vinfo/v1", cat2(rlsj, lsj).as_slice())
}

/// The layout of the master state.
pub open spec fn master_layout(ssk: Seq<u8>, rsp: Seq<u8>, fk: Seq<u8>, ctrid: u64) -> Seq<u8> {
    ssk + rsp + fk + u64_le(ctrid)
}

/// The layout of a login secret.
pub open spec fn csp_layout(rlsj: Seq<u8>, ctr: u64) -> Seq<u8> {
    rlsj + u64_le(ctr)
}

pub(crate) fn master_plaintext(ssk: &SigningKey, rsp: &[u8; 32], fk: &[u8; 32], ctrid: u64) -> (r: [u8;
    CIPHERID_PT_LEN])
    ensures
        r@ == master_layout(ssk@, rsp@, fk@, ctrid),
{
    let mut pt: Vec<u8> = cat3(ssk, rsp, fk);
    push_bytes(&mut pt, &bytes::u64_to_le(ctrid));
    bytes::to_array::<CIPHERID_PT_LEN>(pt.as_slice())
}

/// The four fields of the master state.
pub(crate) fn parse_master_plaintext(pt: &[u8; CIPHERID_PT_LEN]) -> (r: (SigningKey, [u8; 32], [u8; 32], u64))
    ensures
        r.0@ == pt@.subrange(0, 32),
        r.1@ == pt@.subrange(32, 64),
        r.2@ == pt@.subrange(64, 96),
        r.3 == u64_of_le(pt@.subrange(96, 104)),
{
    let ssk = bytes::piece::<32>(pt, 0);
    let rsp = bytes::piece::<32>(pt, 32);
    let fk = bytes::piece::<32>(pt, 64);
    let ctrid_bytes = bytes::piece::<8>(pt, 96);
    (ssk, rsp, fk, bytes::u64_from_le(&ctrid_bytes))
}

pub(crate) fn csp_plaintext(rlsj: &[u8; 32], ctr: u64) -> (r: [u8; CIPHERSP_PT_LEN])
    ensures
        r@ == csp_layout(rlsj@, ctr),
{
    let pt: Vec<u8> = cat2(rlsj, &bytes::u64_to_le(ctr));
    bytes::to_array::<CIPHERSP_PT_LEN>(pt.as_slice())
}

/// Reading the fields of a laid-out master state gives back what was written.
pub proof fn master_layout_reads_back(ssk: Seq<u8>, rsp: Seq<u8>, fk: Seq<u8>, ctrid: u64)
    requires
        ssk.len() == 32,
        rsp.len() == 32,
        fk.len() == 32,
    ensures
        master_layout(ssk, rsp, fk, ctrid).len() == CIPHERID_PT_LEN,
        master_layout(ssk, rsp, fk, ctrid).subrange(0, 32) == ssk,
        master_layout(ssk, rsp, fk, ctrid).subrange(32, 64) == rsp,
        master_layout(ssk, rsp, fk, ctrid).subrange(64, 96) == fk,
        u64_of_le(master_layout(ssk, rsp, fk, ctrid).subrange(96, 104)) == ctrid,
{
    vstd::bytes::lemma_auto_spec_u64_to_from_le_bytes();
    let m = master_layout(ssk, rsp, fk, ctrid);
    assert(u64_le(ctrid).len() == 8);
    assert(m.subrange(0, 32) =~= ssk);
    assert(m.subrange(32, 64) =~= rsp);
    assert(m.subrange(64, 96) =~= fk);
    assert(m.subrange(96, 104) =~= u64_le(ctrid));
}

/// Reading the fields of a laid-out login secret gives back what was written.
pub proof fn csp_layout_reads_back(rlsj: Seq<u8>, ctr: u64)
    requires
        rlsj.len() == 32,
    ensures
        csp_layout(rlsj, ctr).len() == CIPHERSP_PT_LEN,
        csp_layout(rlsj, ctr).subrange(0, 32) == rlsj,
        u64_of_le(csp_layout(rlsj, ctr).subrange(32, 40)) == ctr,
{
    vstd::bytes::lemma_auto_spec_u64_to_from_le_bytes();
    let m = csp_layout(rlsj, ctr);
    assert(u64_le(ctr).len() == 8);
    assert(m.subrange(0, 32) =~= rlsj);
    assert(m.subrange(32, 40) =~= u64_le(ctr));
}

/// Whether a record is in use and signed by the holder of `svk`.
pub open spec fn csp_verified(svk: Seq<u8>, suid: Seq<u8>, rec: CspState) -> bool {
    rec.active && ed25519_verify(svk, csp_message(suid, rec.ciphersp, rec.ctr), rec.sig)
}

pub(crate) fn verify_csp_record(svk: &VerifyingKey, suid: &[u8; 32], rec: &CspRecord) -> (r: bool)
    ensures
        r == csp_verified(svk@, suid@, rec@),
{
    if !rec.active {
        return false;
    }
    let msg = csp_write_message(suid, &rec.ciphersp, rec.ctr);
    keys::verify(svk, msg.as_slice(), &rec.sig)
}

/// The seed for an experiment with the given parameters.
pub fn seed_for(tag: &[u8], nsp: usize, tsp: usize, iter: u64) -> (r: [u8; 32])
    ensures
        r@ == blake3_hash(tag@ + u64_le(nsp as u64) + u64_le(tsp as u64) + u64_le(iter)),
{
    let m = bytes::cat4(
        tag,
        &bytes::u64_to_le(nsp as u64),
        &bytes::u64_to_le(tsp as u64),
        &bytes::u64_to_le(iter),
    );
    hash::digest(m.as_slice())
}

/// The hash of a tag, some bytes and a count.
pub open spec fn counted_digest(tag: Seq<u8>, body: Seq<u8>, count: usize) -> Seq<u8> {
    blake3_hash(tag + body + u64_le(count as u64))
}

pub(crate) fn digest_with_count(tag: &[u8], body: &[u8], count: usize) -> (r: [u8; 32])
    ensures
        r@ == counted_digest(tag@, body@, count),
{
    let m = cat3(tag, body, &bytes::u64_to_le(count as u64));
    hash::digest(m.as_slice())
}

} // verus!
