//! An SSH agent whose key is shared among the servers of the RSA-based scheme.
use vstd::arithmetic::power::pow;
use vstd::prelude::*;
use vstd::string::StringSliceAdditionalSpecFns;

use crate::bignum::{be_bytes, be_nat, bytes_needed, Nat};
use crate::bytes::{self, push_bytes, same_bytes};
use crate::paper_agent::{client_seed, make_client_seed};
use crate::paper_protocol::{
    encoded, pad, padded, reports, sign_message, Failure, Fixture,
};
use crate::rng::{Rng, RngState};
use crate::shoup::{
    emsa_pkcs1_v1_5_sha256, shoup_verify, CryptoError, ShoupPublicKey, ShoupSetup,
};
use crate::text::copy_text;
use crate::wire::{
    be32, field, field_at, field_from, field_reads_back, of_be32, put_bytes, put_u32, read_u32,
    WireError,
};

verus! {

/// The agent refuses.
pub const SSH_AGENT_FAILURE: u8 = 5;

/// The client asks for the keys.
pub const SSH_AGENTC_REQUEST_IDENTITIES: u8 = 11;

/// The agent lists its keys.
pub const SSH_AGENT_IDENTITIES_ANSWER: u8 = 12;

/// The client asks for a signature.
pub const SSH_AGENTC_SIGN_REQUEST: u8 = 13;

/// The agent has signed.
pub const SSH_AGENT_SIGN_RESPONSE: u8 = 14;

/// The flag for signatures with SHA-256.
pub const SSH_AGENT_RSA_SHA2_256: u32 = 2;

/// A number with a leading zero where its first bit is set.
pub open spec fn mpint_bytes(n: nat) -> Seq<u8> {
    let b = be_bytes(n);
    if b[0] >= 128 {
        seq![0u8] + b
    } else {
        b
    }
}

/// Encodes a number with a leading zero where its first bit is set.
pub fn mpint(value: &Nat) -> (r: Vec<u8>)
    ensures
        r@ == mpint_bytes(value@),
        be_nat(r@) == value@,
{
    let b = value.to_bytes_be();
    proof {
        crate::bignum::lemma_be_nat_of_be_bytes(value@);
    }
    if b[0] >= 128 {
        let mut r: Vec<u8> = Vec::with_capacity(b.len());
        r.push(0);
        push_bytes(&mut r, b.as_slice());
        proof {
            assert(r@ =~= seq![0u8] + b@);
            crate::bignum::lemma_be_nat_leading_zeros(seq![0u8], b@);
        }
        r
    } else {
        b
    }
}

/// The public key in the form that SSH uses.
pub open spec fn key_bytes(pk: ShoupPublicKey) -> Seq<u8> {
    field("ssh-rsa".spec_bytes()) + field(mpint_bytes(pk.e@)) + field(mpint_bytes(pk.n@))
}

/// Encodes the public key in the form that SSH uses.
pub fn public_key_blob(setup: &ShoupSetup) -> (r: Vec<u8>)
    ensures
        r@ == key_bytes(setup.public),
{
    let mut blob: Vec<u8> = Vec::new();
    put_bytes(&mut blob, "ssh-rsa".as_bytes());
    put_bytes(&mut blob, mpint(&setup.public.e).as_slice());
    put_bytes(&mut blob, mpint(&setup.public.n).as_slice());
    assert(blob@ =~= key_bytes(setup.public));
    blob
}

/// What signing data yields where the result is verified, or which step fails. With it comes
/// the generator as the step leaves it.
pub open spec fn exact_outcome(fx: Fixture, data: Seq<u8>, rng: RngState) -> (
    Result<int, Failure>,
    RngState,
) {
    let pk = fx.ttg.public;
    match fx.signing_outcome(data, fx.password@, rng) {
        (Err(f), rng1) => (Err(f), rng1),
        (Ok(y), rng1) => if pow(y, pk.e@) % (pk.n@ as int) == encoded(pk.n@, data) {
            (Ok(y), rng1)
        } else {
            (Err(Failure::InvalidRepresentative), rng1)
        },
    }
}

/// Signs data with the first `t` servers and verifies the signature. Where the servers hold
/// the key of the password and shares of a proper setup, that succeeds.
pub fn threshold_sign_exact(fx: &Fixture, data: &[u8], rng: &mut Rng) -> (r: Result<
    Nat,
    CryptoError,
>)
    requires
        fx.usable(),
    ensures
        match r {
            Ok(y) => exact_outcome(*fx, data@, old(rng)@).0 == Ok::<int, Failure>(y@ as int) && pow(
                y@ as int,
                fx.ttg.public.e@,
            ) % (fx.ttg.public.n@ as int) == encoded(fx.ttg.public.n@, data@),
            Err(e) => exact_outcome(*fx, data@, old(rng)@).0 matches Err(f) && reports(e, f),
        },
        final(rng)@ == exact_outcome(*fx, data@, old(rng)@).1,
        forall|ck: Seq<int>, n_servers: nat, p: nat, q: nat, c: Seq<int>| #[trigger]
            fx.holds_password(ck, fx.password@) && #[trigger] fx.signs_by(n_servers, p, q, c)
                ==> fx.verifies_or_unblinded(data@, p, q, r),
{
    let signature = match sign_message(fx, data, fx.password.as_slice(), rng) {
        Ok(y) => y,
        Err(e) => {
            return Err(e);
        },
    };
    let rep = match emsa_pkcs1_v1_5_sha256(data, fx.ttg.public.n.byte_len()) {
        Ok(rep) => rep,
        Err(e) => {
            return Err(e);
        },
    };
    if !shoup_verify(&fx.ttg.public, &rep, &signature) {
        return Err(CryptoError::InvalidRepresentative);
    }
    Ok(signature)
}

/// What a packet asks of the agent.
#[derive(Clone, Debug)]
pub enum SshRequest {
    /// To answer at once.
    Answer(Vec<u8>),
    /// To sign data.
    Sign(Vec<u8>),
    /// Nothing that can be read.
    Broken(WireError),
}

/// What a packet asks of the agent.
pub enum Asked {
    Answer(Seq<u8>),
    Sign(Seq<u8>),
    Broken(WireError),
}

impl View for SshRequest {
    type V = Asked;

    open spec fn view(&self) -> Asked {
        match *self {
            SshRequest::Answer(v) => Asked::Answer(v@),
            SshRequest::Sign(v) => Asked::Sign(v@),
            SshRequest::Broken(e) => Asked::Broken(e),
        }
    }
}

/// The answer of a refusal.
pub open spec fn failure() -> Seq<u8> {
    seq![SSH_AGENT_FAILURE]
}

/// The answer that lists the one key.
pub open spec fn identities(key: Seq<u8>) -> Seq<u8> {
    seq![SSH_AGENT_IDENTITIES_ANSWER] + be32(1) + field(key) + field(
        "PAS-TA-U Shoup RSA-2048".spec_bytes(),
    )
}

/// What a packet asks of an agent with a key. A signature is asked for with the agent's own
/// key and the flag for SHA-256, and nothing else is signed.
pub open spec fn asked(key: Seq<u8>, packet: Seq<u8>) -> Asked {
    if packet.len() == 0 {
        Asked::Answer(failure())
    } else if packet[0] == SSH_AGENTC_REQUEST_IDENTITIES {
        Asked::Answer(identities(key))
    } else if packet[0] == SSH_AGENTC_SIGN_REQUEST {
        match field_at(packet, 1) {
            Err(e) => Asked::Broken(e),
            Ok((k, p)) => match field_at(packet, p) {
                Err(e) => Asked::Broken(e),
                Ok((data, q)) => if packet.len() - q != 4 || k != key {
                    Asked::Answer(failure())
                } else if of_be32(packet.subrange(q, q + 4)) != SSH_AGENT_RSA_SHA2_256 {
                    Asked::Answer(failure())
                } else {
                    Asked::Sign(data)
                },
            },
        }
    } else {
        Asked::Answer(failure())
    }
}

/// The packet that asks for a signature of data with a key.
pub open spec fn sign_request(key: Seq<u8>, data: Seq<u8>) -> Seq<u8> {
    seq![SSH_AGENTC_SIGN_REQUEST] + field(key) + field(data) + be32(SSH_AGENT_RSA_SHA2_256 as nat)
}

/// The agent signs exactly the data of a request with its key.
pub proof fn sign_requests_are_understood(key: Seq<u8>, data: Seq<u8>)
    requires
        key.len() <= u32::MAX,
        data.len() <= u32::MAX,
    ensures
        asked(key, sign_request(key, data)) == Asked::Sign(data),
{
    let head = seq![SSH_AGENTC_SIGN_REQUEST];
    let flags = be32(SSH_AGENT_RSA_SHA2_256 as nat);
    let packet = sign_request(key, data);
    assert(packet[0] == SSH_AGENTC_SIGN_REQUEST);
    field_reads_back(head, key, field(data) + flags);
    assert(head + field(key) + (field(data) + flags) =~= packet);
    field_reads_back(head + field(key), data, flags);
    crate::wire::be32_reads_back(SSH_AGENT_RSA_SHA2_256 as nat);
    let q = packet.len() - 4;
    assert(packet.subrange(q, q + 4) =~= flags);
}

/// The answer with a signature, filled up to the length of the modulus.
pub open spec fn signed_answer(sig: nat, modulus_bytes: nat) -> Seq<u8> {
    seq![SSH_AGENT_SIGN_RESPONSE] + field(
        field("rsa-sha2-256".spec_bytes()) + field(padded(sig, modulus_bytes)),
    )
}

/// An agent with its measurements.
pub struct SshAgent {
    pub fx: Fixture,
    pub key_blob: Vec<u8>,
    pub rng: Rng,
    pub warmup: usize,
    pub samples: usize,
    pub sign_count: u64,
    pub durations: Vec<u128>,
}

/// A signature is measured after the warmup, until there are enough measurements.
pub open spec fn measured(count: nat, warmup: nat, taken: nat, samples: nat) -> bool {
    count > warmup && taken < samples
}

impl SshAgent {
    /// An agent for a deployment that has signed nothing.
    pub fn new(fx: Fixture, warmup: usize, samples: usize) -> (r: SshAgent)
        ensures
            r.fx == fx,
            r.key_blob@ == key_bytes(fx.ttg.public),
            r.rng@ == RngState::start(
                client_seed(fx.n as u64, fx.t as u64, "sshagent".spec_bytes()),
            ),
            r.warmup == warmup,
            r.samples == samples,
            r.sign_count == 0,
            r.durations@.len() == 0,
    {
        let key_blob = public_key_blob(&fx.ttg);
        proof {
            reveal_strlit("sshagent");
            vstd::string::is_ascii_spec_bytes("sshagent");
        }
        let tag = bytes::to_array::<8>("sshagent".as_bytes());
        let seed = make_client_seed(fx.n as u64, fx.t as u64, &tag);
        SshAgent {
            fx,
            key_blob,
            rng: Rng::from_seed(seed),
            warmup,
            samples,
            sign_count: 0,
            durations: Vec::new(),
        }
    }

    /// Finds out what a packet asks for.
    pub fn request(&self, packet: &[u8]) -> (r: SshRequest)
        ensures
            r@ == asked(self.key_blob@, packet@),
    {
        if packet.len() > 0 && packet[0] == SSH_AGENTC_REQUEST_IDENTITIES {
            let mut answer: Vec<u8> = Vec::new();
            answer.push(SSH_AGENT_IDENTITIES_ANSWER);
            put_u32(&mut answer, 1);
            put_bytes(&mut answer, self.key_blob.as_slice());
            put_bytes(&mut answer, "PAS-TA-U Shoup RSA-2048".as_bytes());
            assert(answer@ =~= identities(self.key_blob@));
            return SshRequest::Answer(answer);
        }
        let mut refusal: Vec<u8> = Vec::new();
        refusal.push(SSH_AGENT_FAILURE);
        assert(refusal@ =~= failure());
        if packet.len() == 0 || packet[0] != SSH_AGENTC_SIGN_REQUEST {
            return SshRequest::Answer(refusal);
        }
        let (key, p) = match field_from(packet, 1) {
            Ok(v) => v,
            Err(e) => {
                return SshRequest::Broken(e);
            },
        };
        let (data, q) = match field_from(packet, p) {
            Ok(v) => v,
            Err(e) => {
                return SshRequest::Broken(e);
            },
        };
        if packet.len() - q != 4 || !same_bytes(key.as_slice(), self.key_blob.as_slice()) {
            return SshRequest::Answer(refusal);
        }
        if read_u32(packet, q) != SSH_AGENT_RSA_SHA2_256 {
            return SshRequest::Answer(refusal);
        }
        SshRequest::Sign(data)
    }

    /// Signs data.
    pub fn sign(&mut self, data: &[u8]) -> (r: Result<Nat, CryptoError>)
        requires
            old(self).fx.usable(),
        ensures
            match r {
                Ok(y) => exact_outcome(old(self).fx, data@, old(self).rng@).0 == Ok::<int, Failure>(
                    y@ as int,
                ) && pow(y@ as int, old(self).fx.ttg.public.e@) % (
                old(self).fx.ttg.public.n@ as int) == encoded(old(self).fx.ttg.public.n@, data@),
                Err(e) => exact_outcome(old(self).fx, data@, old(self).rng@).0 matches Err(f)
                    && reports(e, f),
            },
            final(self).rng@ == exact_outcome(old(self).fx, data@, old(self).rng@).1,
            *final(self) == (SshAgent { rng: final(self).rng, ..*old(self) }),
    {
        threshold_sign_exact(&self.fx, data, &mut self.rng)
    }

    /// Takes in how long a signature took, and says whether there are now enough
    /// measurements.
    pub fn record(&mut self, elapsed: u128) -> (r: bool)
        requires
            old(self).sign_count < u64::MAX,
        ensures
            ({
                let takes = measured(
                    (old(self).sign_count + 1) as nat,
                    old(self).warmup as nat,
                    old(self).durations@.len(),
                    old(self).samples as nat,
                );
                &&& final(self).durations@ == if takes {
                    old(self).durations@.push(elapsed)
                } else {
                    old(self).durations@
                }
                &&& r == (takes && old(self).durations@.len() + 1 == old(self).samples)
            }),
            *final(self) == (SshAgent {
                sign_count: (old(self).sign_count + 1) as u64,
                durations: final(self).durations,
                ..*old(self)
            }),
    {
        self.sign_count = self.sign_count + 1;
        if self.sign_count as u128 > self.warmup as u128 && self.durations.len() < self.samples {
            self.durations.push(elapsed);
            self.durations.len() == self.samples
        } else {
            false
        }
    }

    /// The answer with a signature.
    pub fn signature_answer(&self, signature: &Nat) -> (r: Vec<u8>)
        ensures
            r@ == signed_answer(signature@, bytes_needed(self.fx.ttg.public.n@)),
    {
        let raw = pad(signature, self.fx.ttg.public.n.byte_len());
        let mut blob: Vec<u8> = Vec::new();
        put_bytes(&mut blob, "rsa-sha2-256".as_bytes());
        put_bytes(&mut blob, raw.as_slice());
        assert(blob@ =~= field("rsa-sha2-256".spec_bytes()) + field(raw@));
        let mut answer: Vec<u8> = Vec::new();
        answer.push(SSH_AGENT_SIGN_RESPONSE);
        put_bytes(&mut answer, blob.as_slice());
        assert(answer@ =~= signed_answer(signature@, bytes_needed(self.fx.ttg.public.n@)));
        answer
    }
}

/// The message for a packet that cannot be read.
pub open spec fn packet_text(e: WireError) -> Seq<char> {
    match e {
        WireError::MissingLength => "missing string length"@,
        _ => "short string"@,
    }
}

/// The message for a packet that cannot be read.
pub fn say_packet(e: WireError) -> (r: String)
    ensures
        r@ == packet_text(e),
{
    match e {
        WireError::MissingLength => copy_text("missing string length"),
        _ => copy_text("short string"),
    }
}

/// After as many signatures as the warmup and the samples together there are exactly as many
/// measurements as asked for, whatever signatures follow.
pub proof fn measurements_fill_up(warmup: nat, samples: nat, count: nat)
    ensures
        taken_after(warmup, samples, count) == if count <= warmup {
            0
        } else if count - warmup <= samples {
            (count - warmup) as nat
        } else {
            samples
        },
    decreases count,
{
    if count > 0 {
        measurements_fill_up(warmup, samples, (count - 1) as nat);
    }
}

/// How many measurements there are after a number of signatures.
pub open spec fn taken_after(warmup: nat, samples: nat, count: nat) -> nat
    decreases count,
{
    if count == 0 {
        0
    } else {
        let before = taken_after(warmup, samples, (count - 1) as nat);
        if measured(count, warmup, before, samples) {
            before + 1
        } else {
            before
        }
    }
}

} // verus!
