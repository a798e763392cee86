//! Single sign-on with augmented passwords: setup, registration, authentication.
use vstd::prelude::*;
use vstd::string::StringSliceAdditionalSpecFns;

use crate::aead;
use crate::bls::{g1_mul, g2_of, order, Scalar, G1, G2};
use crate::bytes::{self, le_nat};
use crate::crypto_augsso::{
    hash_g1_and_bytes_to_32, hash_to_g1, hashed_g1, nonzero_drawn, pke_kg, pke_secret,
    random_scalar_nonzero,
};
use crate::field::{after_draws, shamir_share, share_vals, shares_of, sharing_poly, Field};
use crate::group::Group;
use crate::hash::blake3_hash;
use crate::keys::x25519_public;
use crate::rng::{Rng, RngState};
use crate::store::Store;

verus! {

pub const UID_LEN: usize = 32;

pub const X_LEN: usize = 32;

pub const PLD_LEN: usize = X_LEN + UID_LEN;

pub const BPW_LEN: usize = 48;

pub const SIGMA_LEN: usize = 48;

pub const CH_LEN: usize = 32;

pub const EK_LEN: usize = 32;

pub const PKE_PT_LEN: usize = CH_LEN + EK_LEN;

pub const CTCH_PT_LEN: usize = CH_LEN;

pub const CTTKN_PT_LEN: usize = 48 + PLD_LEN;

pub const CTCH_LEN: usize = aead::NONCE_LEN + CTCH_PT_LEN + aead::TAG_LEN;

pub const CTTKN_LEN: usize = aead::NONCE_LEN + CTTKN_PT_LEN + aead::TAG_LEN;

pub const CTRES_LEN: usize = 32 + aead::NONCE_LEN + PKE_PT_LEN + aead::TAG_LEN;

/// The identifier of a client.
#[derive(Clone, Copy, Debug, PartialEq, Eq, Hash)]
pub struct ClientId(pub [u8; UID_LEN]);

/// The parameters of a deployment.
#[derive(Clone, Copy, Debug, PartialEq, Eq, Structural)]
pub struct PublicParams {
    pub n: usize,
    pub t: usize,
    pub cnt: u64,
    pub caf: u64,
}

/// Identifiers with the encodings of group elements.
pub open spec fn keyed<G: Group>(s: Seq<(u32, G)>) -> Seq<(u32, Seq<u8>)> {
    Seq::new(s.len(), |i: int| (s[i].0, s[i].1.enc()))
}

/// The public keys of shares.
pub open spec fn public_shares(shares: Seq<(u32, nat)>) -> Seq<(u32, Seq<u8>)> {
    Seq::new(shares.len(), |i: int| (shares[i].0, g2_of(shares[i].1)))
}

fn publish_shares(shares: &Vec<(u32, Scalar)>) -> (r: Vec<(u32, G2)>)
    ensures
        keyed(r@) == public_shares(share_vals(shares@)),
{
    let mut r: Vec<(u32, G2)> = Vec::with_capacity(shares.len());
    let mut i: usize = 0;
    while i < shares.len()
        invariant
            i <= shares@.len(),
            r@.len() == i,
            forall|k: int|
                0 <= k < i ==> (#[trigger] r@[k]).0 == shares@[k].0 && r@[k].1@ == g2_of(
                    shares@[k].1@,
                ),
        decreases shares@.len() - i,
    {
        let (id, s) = shares[i];
        r.push((id, G2::generator_times(s)));
        i = i + 1;
    }
    assert(keyed(r@) =~= public_shares(share_vals(shares@)));
    r
}

/// The keys of a deployment.
#[derive(Clone, Debug)]
pub struct SetupOut {
    pub pp: PublicParams,
    pub gamma: Scalar,
    pub phi: Scalar,
    pub gamma_shares: Vec<(u32, Scalar)>,
    pub phi_shares: Vec<(u32, Scalar)>,
    pub gamma_pub_shares: Vec<(u32, G2)>,
    pub phi_pub_shares: Vec<(u32, G2)>,
    pub gamma_pk: G2,
    pub phi_pk: G2,
}

/// The scalar that the next 64 bytes of a stream give.
pub open spec fn scalar_drawn(rng: RngState) -> nat {
    le_nat(rng.bytes(64)) % order()
}

/// The polynomial by which the token key is shared.
pub open spec fn gamma_poly(t: nat, rng: RngState) -> Seq<int> {
    sharing_poly(scalar_drawn(rng), t, rng.skip(64).skip(64), order())
}

/// The polynomial by which the second key is shared.
pub open spec fn phi_poly(t: nat, rng: RngState) -> Seq<int> {
    sharing_poly(
        scalar_drawn(rng.skip(64)),
        t,
        after_draws(rng.skip(64).skip(64), (t - 1) as nat),
        order(),
    )
}

/// The generator after a setup.
pub open spec fn after_setup(t: nat, rng: RngState) -> RngState {
    after_draws(after_draws(rng.skip(64).skip(64), (t - 1) as nat), (t - 1) as nat)
}

/// Draws the keys of a deployment with `n` servers, any `t` of which can issue tokens.
pub fn setup(n: usize, t: usize, rng: &mut Rng) -> (r: SetupOut)
    requires
        1 <= t <= n,
    ensures
        r.pp == (PublicParams { n, t, cnt: u64::MAX / 2, caf: u64::MAX / 2 }),
        r.gamma@ == scalar_drawn(old(rng)@),
        r.phi@ == scalar_drawn(old(rng)@.skip(64)),
        share_vals(r.gamma_shares@) == shares_of(
            gamma_poly(t as nat, old(rng)@),
            n as nat,
            order(),
        ),
        share_vals(r.phi_shares@) == shares_of(phi_poly(t as nat, old(rng)@), n as nat, order()),
        keyed(r.gamma_pub_shares@) == public_shares(share_vals(r.gamma_shares@)),
        keyed(r.phi_pub_shares@) == public_shares(share_vals(r.phi_shares@)),
        r.gamma_pk@ == g2_of(r.gamma@),
        r.phi_pk@ == g2_of(r.phi@),
        final(rng)@ == after_setup(t as nat, old(rng)@),
{
    let pp = PublicParams { n, t, cnt: u64::MAX / 2, caf: u64::MAX / 2 };
    let gamma: Scalar = Scalar::random(rng);
    let phi: Scalar = Scalar::random(rng);
    let gamma_shares = shamir_share(gamma, n, t, rng);
    let phi_shares = shamir_share(phi, n, t, rng);
    let gamma_pub_shares = publish_shares(&gamma_shares);
    let phi_pub_shares = publish_shares(&phi_shares);
    let gamma_pk = G2::generator_times(gamma);
    let phi_pk = G2::generator_times(phi);
    SetupOut {
        pp,
        gamma,
        phi,
        gamma_shares,
        phi_shares,
        gamma_pub_shares,
        phi_pub_shares,
        gamma_pk,
        phi_pk,
    }
}

/// What a client sends to one server at registration.
#[derive(Clone, Copy, Debug)]
pub struct RegistrationMsg {
    pub server_id: u32,
    pub sk_i: Scalar,
    pub rpk: [u8; 32],
}

/// What a client keeps and sends at registration.
#[derive(Clone, Debug)]
pub struct RegistrationClientOut {
    pub sk: Scalar,
    pub rpk: [u8; 32],
    pub rsk: [u8; 32],
    pub msgs: Vec<RegistrationMsg>,
}

/// A registration with the public keys of the shares.
#[derive(Clone, Debug)]
pub struct RegistrationOut {
    pub sk: Scalar,
    pub rpk: [u8; 32],
    pub rsk: [u8; 32],
    pub msgs: Vec<RegistrationMsg>,
    pub pk_shares: Vec<(u32, G2)>,
}

/// The group element that a password is hashed to.
pub open spec fn password_g1(pw: Seq<u8>) -> Seq<u8> {
    hashed_g1("augsso/H_pw/v1".spec_bytes(), pw)
}

/// The hash that the password function gives for a password.
pub open spec fn hardened(sigma: Seq<u8>, pw: Seq<u8>) -> Seq<u8> {
    blake3_hash("augsso/hpw/v1".spec_bytes() + sigma + pw)
}

/// The secret key that a client derives from the value of the password function.
pub open spec fn client_secret(sigma: Seq<u8>, pw: Seq<u8>) -> Seq<u8> {
    pke_secret(hardened(sigma, pw))
}

/// The shares in registration messages.
pub open spec fn message_shares(msgs: Seq<RegistrationMsg>) -> Seq<(u32, nat)> {
    Seq::new(msgs.len(), |i: int| (msgs[i].server_id, msgs[i].sk_i@))
}

/// The polynomial by which a client's key `sk` is shared.
pub open spec fn client_poly(sk: nat, t: nat, rng: RngState) -> Seq<int> {
    sharing_poly(sk, t, rng, order())
}

/// Draws a client's key, shares it, and derives the key pair that its password opens.
/// There is no key where the generator yields only zeros.
pub fn registration_client(n: usize, t: usize, pw: &[u8], rng: &mut Rng) -> (r: Option<
    RegistrationClientOut,
>)
    requires
        1 <= t <= n,
    ensures
        match r {
            Some(out) => {
                &&& nonzero_drawn(old(rng)@).0 == Some(out.sk@)
                &&& out.sk@ != 0
                &&& out.rsk@ == client_secret(g1_mul(password_g1(pw@), out.sk@), pw@)
                &&& out.rpk@ == x25519_public(out.rsk@)
                &&& message_shares(out.msgs@) == shares_of(
                    client_poly(out.sk@, t as nat, nonzero_drawn(old(rng)@).1),
                    n as nat,
                    order(),
                )
                &&& forall|i: int| 0 <= i < n ==> (#[trigger] out.msgs@[i]).rpk == out.rpk
                &&& final(rng)@ == after_draws(nonzero_drawn(old(rng)@).1, (t - 1) as nat)
            },
            None => nonzero_drawn(old(rng)@).0 is None && final(rng)@ == nonzero_drawn(
                old(rng)@,
            ).1,
        },
{
    let sk: Scalar = match random_scalar_nonzero(rng) {
        Some(s) => s,
        None => {
            return None;
        },
    };
    let h_pw = hash_to_g1("augsso/H_pw/v1".as_bytes(), pw);
    let sk_hpw: G1 = h_pw.scale(sk);
    let hpw = hash_g1_and_bytes_to_32("augsso/hpw/v1".as_bytes(), &sk_hpw, pw);
    let kp = pke_kg(&hpw);
    let shares = shamir_share(sk, n, t, rng);
    let ghost sv = share_vals(shares@);
    assert(sv.len() == n);
    let mut msgs: Vec<RegistrationMsg> = Vec::with_capacity(n);
    let mut i: usize = 0;
    while i < shares.len()
        invariant
            i <= shares@.len(),
            msgs@.len() == i,
            forall|k: int|
                0 <= k < i ==> (#[trigger] msgs@[k]).server_id == shares@[k].0 && msgs@[k].sk_i
                    == shares@[k].1 && msgs@[k].rpk == kp.pk,
        decreases shares@.len() - i,
    {
        let (server_id, sk_i) = shares[i];
        msgs.push(RegistrationMsg { server_id, sk_i, rpk: kp.pk });
        i = i + 1;
    }
    assert(message_shares(msgs@) =~= sv);
    Some(RegistrationClientOut { sk, rpk: kp.pk, rsk: kp.sk, msgs })
}

/// Registers a client and publishes the keys of its shares.
pub fn registration(n: usize, t: usize, pw: &[u8], rng: &mut Rng) -> (r: Option<RegistrationOut>)
    requires
        1 <= t <= n,
    ensures
        match r {
            Some(out) => {
                &&& nonzero_drawn(old(rng)@).0 == Some(out.sk@)
                &&& out.sk@ != 0
                &&& out.rsk@ == client_secret(g1_mul(password_g1(pw@), out.sk@), pw@)
                &&& out.rpk@ == x25519_public(out.rsk@)
                &&& message_shares(out.msgs@) == shares_of(
                    client_poly(out.sk@, t as nat, nonzero_drawn(old(rng)@).1),
                    n as nat,
                    order(),
                )
                &&& forall|i: int| 0 <= i < n ==> (#[trigger] out.msgs@[i]).rpk == out.rpk
                &&& keyed(out.pk_shares@) == public_shares(message_shares(out.msgs@))
                &&& final(rng)@ == after_draws(nonzero_drawn(old(rng)@).1, (t - 1) as nat)
            },
            None => nonzero_drawn(old(rng)@).0 is None && final(rng)@ == nonzero_drawn(
                old(rng)@,
            ).1,
        },
{
    let reg = match registration_client(n, t, pw, rng) {
        Some(reg) => reg,
        None => {
            return None;
        },
    };
    let mut pk_shares: Vec<(u32, G2)> = Vec::with_capacity(n);
    let mut i: usize = 0;
    while i < reg.msgs.len()
        invariant
            i <= reg.msgs@.len(),
            pk_shares@.len() == i,
            forall|k: int|
                0 <= k < i ==> (#[trigger] pk_shares@[k]).0 == reg.msgs@[k].server_id
                    && pk_shares@[k].1@ == g2_of(reg.msgs@[k].sk_i@),
        decreases reg.msgs@.len() - i,
    {
        let msg = reg.msgs[i];
        pk_shares.push((msg.server_id, G2::generator_times(msg.sk_i)));
        i = i + 1;
    }
    assert(keyed(pk_shares@) =~= public_shares(message_shares(reg.msgs@)));
    Some(RegistrationOut { sk: reg.sk, rpk: reg.rpk, rsk: reg.rsk, msgs: reg.msgs, pk_shares })
}

/// What a server keeps of a client.
#[derive(Clone, Copy, Debug)]
pub struct ServerRecord {
    pub sk_i: Scalar,
    pub rpk: [u8; 32],
    pub pk_i: G2,
}

/// What a record holds.
#[verifier::ext_equal]
pub struct RecordState {
    pub sk_i: nat,
    pub rpk: Seq<u8>,
    pub pk_i: Seq<u8>,
}

impl View for ServerRecord {
    type V = RecordState;

    open spec fn view(&self) -> RecordState {
        RecordState { sk_i: self.sk_i@, rpk: self.rpk@, pk_i: self.pk_i@ }
    }
}

/// An identity server.
#[derive(Clone, Debug)]
pub struct AugSsoServer {
    pub id: u32,
    pub gamma_i: Scalar,
    pub phi_i: Scalar,
    pub gamma_pub_i: G2,
    pub phi_pub_i: G2,
    pub pp: PublicParams,
    pub records: Store<ServerRecord>,
}

/// What a server holds.
#[verifier::ext_equal]
pub struct ServerState {
    pub id: u32,
    pub gamma_i: nat,
    pub phi_i: nat,
    pub gamma_pub_i: Seq<u8>,
    pub phi_pub_i: Seq<u8>,
    pub pp: PublicParams,
    pub records: Map<Seq<u8>, RecordState>,
}

impl View for AugSsoServer {
    type V = ServerState;

    open spec fn view(&self) -> ServerState {
        ServerState {
            id: self.id,
            gamma_i: self.gamma_i@,
            phi_i: self.phi_i@,
            gamma_pub_i: self.gamma_pub_i@,
            phi_pub_i: self.phi_pub_i@,
            pp: self.pp,
            records: self.records@.map_values(|r: ServerRecord| r@),
        }
    }
}

/// The record that a registration message leaves.
pub open spec fn record_of(msg: RegistrationMsg) -> RecordState {
    RecordState { sk_i: msg.sk_i@, rpk: msg.rpk@, pk_i: g2_of(msg.sk_i@) }
}

impl AugSsoServer {
    /// A server without clients.
    pub fn new(
        id: u32,
        gamma_i: Scalar,
        phi_i: Scalar,
        gamma_pub_i: G2,
        phi_pub_i: G2,
        pp: PublicParams,
    ) -> (r: AugSsoServer)
        ensures
            r@ == (ServerState {
                id,
                gamma_i: gamma_i@,
                phi_i: phi_i@,
                gamma_pub_i: gamma_pub_i@,
                phi_pub_i: phi_pub_i@,
                pp,
                records: Map::empty(),
            }),
    {
        let r = AugSsoServer {
            id,
            gamma_i,
            phi_i,
            gamma_pub_i,
            phi_pub_i,
            pp,
            records: Store::new(),
        };
        assert(r@.records =~= Map::<Seq<u8>, RecordState>::empty());
        r
    }

    /// A copy of the server.
    pub fn copy(&self) -> (r: AugSsoServer)
        ensures
            r@ == self@,
    {
        AugSsoServer {
            id: self.id,
            gamma_i: self.gamma_i,
            phi_i: self.phi_i,
            gamma_pub_i: self.gamma_pub_i,
            phi_pub_i: self.phi_pub_i,
            pp: self.pp,
            records: self.records.copy(),
        }
    }

    /// Stores a client's registration.
    pub fn store(&mut self, c: ClientId, msg: &RegistrationMsg)
        requires
            old(self)@.id == msg.server_id,
        ensures
            final(self)@ == (ServerState {
                records: old(self)@.records.insert(c.0@, record_of(*msg)),
                ..old(self)@
            }),
    {
        let ghost before = self@;
        let pk_i = G2::generator_times(msg.sk_i);
        self.records.insert(c.0, ServerRecord { sk_i: msg.sk_i, rpk: msg.rpk, pk_i });
        assert(self@.records =~= before.records.insert(c.0@, record_of(*msg)));
    }

    /// Whether a client is registered.
    pub fn has_record(&self, c: ClientId) -> (r: bool)
        ensures
            r == self@.records.dom().contains(c.0@),
    {
        self.records.contains_key(&c.0)
    }

    /// What the server keeps of a client.
    pub fn get_record(&self, c: ClientId) -> (r: Option<&ServerRecord>)
        ensures
            r is Some <==> self@.records.dom().contains(c.0@),
            r matches Some(rec) ==> rec@ == self@.records[c.0@],
    {
        self.records.get(&c.0)
    }
}

} // verus!
