//! A server of the RSA-based scheme behind a connection: from a request to its reply.
use vstd::arithmetic::power::pow;
use vstd::prelude::*;

use crate::bignum::{be_bytes, be_nat, bytes_needed, Nat};
use crate::bytes::{self, u64_le};
use crate::modp_toprf::toprf_eval;
use crate::paper_hash::{aes128_ofb_apply, ofb_applied};
use crate::paper_protocol::{
    after_change, chunk, encrypted_partial, opened_change, pad, representative, signed_message,
    takes_change, Fixture, Server, ServerState, TokenResponse,
};
use crate::rng::{Rng, RngState};
use crate::shoup::{
    emsa_pkcs1_v1_5_sha256, partial_value, shoup_part_eval, shoup_verify, ShoupPublicKey,
};
use crate::text::copy_text;
use crate::wire::{
    copy_range, encode_token_response, field_at, field_from, token_response_bytes, wire_text,
    WireError,
};

verus! {

/// The request for a value of the password function.
pub const CMD_TOPRF: u8 = 1;

/// The request for a partial token.
pub const CMD_TOKEN: u8 = 2;

/// The request to change the key.
pub const CMD_UPDATE: u8 = 3;

/// The request to go back to the first key.
pub const CMD_RESET: u8 = 4;

/// The request to stop.
pub const CMD_SHUTDOWN: u8 = 5;

/// Why a server does not answer.
#[derive(Clone, Copy, Debug, PartialEq, Eq, Structural)]
pub enum AgentError {
    Empty,
    Wire(WireError),
    TrailingToken,
    TrailingUpdate,
    Representative,
    Unknown,
}

/// The message for a request that is not answered.
pub open spec fn agent_text(e: AgentError) -> Seq<char> {
    match e {
        AgentError::Empty => "empty command"@,
        AgentError::Wire(w) => wire_text(w),
        AgentError::TrailingToken => "trailing token request data"@,
        AgentError::TrailingUpdate => "trailing update data"@,
        AgentError::Representative => "invalid RSA representative"@,
        AgentError::Unknown => "unknown command"@,
    }
}

impl AgentError {
    /// The message for a request that is not answered.
    pub fn message(self) -> (r: String)
        ensures
            r@ == agent_text(self),
    {
        match self {
            AgentError::Empty => copy_text("empty command"),
            AgentError::Wire(w) => w.message(),
            AgentError::TrailingToken => copy_text("trailing token request data"),
            AgentError::TrailingUpdate => copy_text("trailing update data"),
            AgentError::Representative => copy_text("invalid RSA representative"),
            AgentError::Unknown => copy_text("unknown command"),
        }
    }
}

/// A reply, and whether the server stops after it.
#[derive(Debug)]
pub struct Reply {
    pub bytes: Vec<u8>,
    pub stop: bool,
}

/// What a request leads to: the reply or the error, and the server and generator after it.
pub struct Answer {
    pub reply: Result<(Seq<u8>, bool), AgentError>,
    pub server: ServerState,
    pub rng: RngState,
}

/// A server behind a connection.
pub struct PaperAgent {
    pub fx: Fixture,
    pub place: usize,
    pub server: Server,
    pub rng: Rng,
}

/// A reply of one byte that says whether a request was taken.
pub open spec fn status(ok: bool) -> Seq<u8> {
    seq![
        if ok {
            1u8
        } else {
            0u8
        },
    ]
}

/// The payload of a request for a partial token.
pub open spec fn token_payload(frame: Seq<u8>) -> Seq<u8> {
    field_at(frame, (field_at(frame, 1)->Ok_0).1)->Ok_0.0
}

/// The encrypted part of a response opens under the key of its server to the partial
/// signature.
pub open spec fn opens_partial(pk: ShoupPublicKey, srv: ServerState, rep: nat, iv: Seq<u8>) -> bool {
    be_nat(ofb_applied(srv.h_i, iv, encrypted_partial(pk, srv, rep, iv))) == partial_value(
        rep,
        pk.delta@,
        srv.ttg,
        pk.n@,
    )
}

impl PaperAgent {
    /// The deployment is usable, and the server is one of it.
    pub open spec fn usable(self) -> bool {
        &&& self.fx.usable()
        &&& self.place < self.fx.servers@.len()
        &&& self.place < self.fx.n <= u32::MAX
        &&& self.fx.n * 80 <= usize::MAX
    }

    /// The reply to a request for a partial token.
    pub open spec fn token_answer(self, frame: Seq<u8>) -> Answer {
        let pk = self.fx.ttg.public;
        let stay = |e: AgentError| Answer { reply: Err(e), server: self.server@, rng: self.rng@ };
        match field_at(frame, 1) {
            Err(e) => stay(AgentError::Wire(e)),
            Ok((enc, p)) => match field_at(frame, p) {
                Err(e) => stay(AgentError::Wire(e)),
                Ok((payload, q)) => if q != frame.len() {
                    stay(AgentError::TrailingToken)
                } else if bytes_needed(pk.n@) < 62 {
                    stay(AgentError::Representative)
                } else {
                    let rep = representative(pk.n@, payload, self.fx.client_id@);
                    let iv = self.rng@.bytes(16);
                    let z = pow(be_nat(enc) as int, self.server@.top) % (
                    self.fx.top.params.modulus@ as int);
                    Answer {
                        reply: Ok(
                            (
                                token_response_bytes(
                                    (self.place + 1) as u32,
                                    z as nat,
                                    encrypted_partial(pk, self.server@, rep, iv),
                                    iv,
                                ),
                                false,
                            ),
                        ),
                        server: self.server@,
                        rng: self.rng@.skip(16),
                    }
                },
            },
        }
    }

    /// A signed body is for this server: the signature holds, the body has a part for every
    /// server, and the server's own part opens under its key.
    pub open spec fn takes_body(self, sig: nat, body: Seq<u8>) -> bool {
        let pk = self.fx.ttg.public;
        &&& pow(sig as int, pk.e@) % (pk.n@ as int) == representative(
            pk.n@,
            body,
            self.fx.client_id@,
        )
        &&& body.len() == self.fx.n * 80
        &&& takes_change(self.server@, body, self.place as int)
    }

    /// The reply to a request to change the key.
    pub open spec fn update_answer(self, frame: Seq<u8>) -> Answer {
        let stay = |e: AgentError| Answer { reply: Err(e), server: self.server@, rng: self.rng@ };
        match field_at(frame, 1) {
            Err(e) => stay(AgentError::Wire(e)),
            Ok((sig, p)) => match field_at(frame, p) {
                Err(e) => stay(AgentError::Wire(e)),
                Ok((body, q)) => if q != frame.len() {
                    stay(AgentError::TrailingUpdate)
                } else if bytes_needed(self.fx.ttg.public.n@) < 62 {
                    stay(AgentError::Representative)
                } else {
                    let ok = self.takes_body(be_nat(sig), body);
                    Answer {
                        reply: Ok((status(ok), false)),
                        server: if ok {
                            after_change(self.server@, body, self.place as int)
                        } else {
                            self.server@
                        },
                        rng: self.rng@,
                    }
                },
            },
        }
    }

    /// What a request leads to.
    pub open spec fn answer(self, frame: Seq<u8>) -> Answer {
        let stay = |r: Result<(Seq<u8>, bool), AgentError>|
            Answer { reply: r, server: self.server@, rng: self.rng@ };
        if frame.len() == 0 {
            stay(Err(AgentError::Empty))
        } else if frame[0] == CMD_TOPRF {
            let enc = be_nat(frame.skip(1)) as int;
            let z = pow(enc, self.server@.top) % (self.fx.top.params.modulus@ as int);
            stay(Ok((be_bytes(z as nat), false)))
        } else if frame[0] == CMD_TOKEN {
            self.token_answer(frame)
        } else if frame[0] == CMD_UPDATE {
            self.update_answer(frame)
        } else if frame[0] == CMD_RESET {
            Answer {
                reply: Ok((status(true), false)),
                server: self.fx.servers@[self.place as int]@,
                rng: self.rng@,
            }
        } else if frame[0] == CMD_SHUTDOWN {
            stay(Ok((status(true), true)))
        } else {
            stay(Err(AgentError::Unknown))
        }
    }

    /// The server at a place of a deployment, with a generator of its own.
    pub fn new(fx: Fixture, place: usize) -> (r: PaperAgent)
        requires
            fx.usable(),
            place < fx.servers@.len(),
            place < fx.n <= u32::MAX,
            fx.n * 80 <= usize::MAX,
        ensures
            r.usable(),
            r.fx == fx,
            r.place == place,
            r.server@ == fx.servers@[place as int]@,
            r.rng@ == RngState::start(
                server_seed((place + 1) as u64, fx.n as u64, fx.t as u64),
            ),
    {
        let server = fx.servers[place].copy();
        let seed = make_server_seed((place + 1) as u64, fx.n as u64, fx.t as u64);
        PaperAgent { fx, place, server, rng: Rng::from_seed(seed) }
    }

    fn token_reply(&mut self, frame: &[u8]) -> (r: Result<Reply, AgentError>)
        requires
            old(self).usable(),
            frame@.len() >= 1,
        ensures
            shows(r, old(self).token_answer(frame@).reply),
            r is Ok ==>
                opens_partial(
                    old(self).fx.ttg.public,
                    old(self).server@,
                    representative(
                        old(self).fx.ttg.public.n@,
                        token_payload(frame@),
                        old(self).fx.client_id@,
                    ),
                    old(self).rng@.bytes(16),
                ),
            final(self).server@ == old(self).token_answer(frame@).server,
            final(self).rng@ == old(self).token_answer(frame@).rng,
            final(self).fx == old(self).fx,
            final(self).place == old(self).place,
    {
        let (enc, p) = match field_from(frame, 1) {
            Ok(v) => v,
            Err(e) => {
                return Err(AgentError::Wire(e));
            },
        };
        let (payload, q) = match field_from(frame, p) {
            Ok(v) => v,
            Err(e) => {
                return Err(AgentError::Wire(e));
            },
        };
        if q != frame.len() {
            return Err(AgentError::TrailingToken);
        }
        let encoded = Nat::from_bytes_be(enc.as_slice());
        let message = signed_message(payload.as_slice(), self.fx.client_id.as_slice());
        let modulus_bytes = self.fx.ttg.public.n.byte_len();
        let rep = match emsa_pkcs1_v1_5_sha256(message.as_slice(), modulus_bytes) {
            Ok(rep) => rep,
            Err(_) => {
                return Err(AgentError::Representative);
            },
        };
        let z_i = toprf_eval(&self.fx.top.params, &self.server.top_share, &encoded);
        let partial = shoup_part_eval(&self.fx.ttg.public, &self.server.ttg_share, &rep);
        let mut encrypted_partial = pad(&partial.value, modulus_bytes);
        let iv = self.rng.take_array::<16>();
        aes128_ofb_apply(&self.server.h_i, &iv, encrypted_partial.as_mut_slice());
        let bytes = encode_token_response(
            &TokenResponse { id: (self.place + 1) as u32, z_i, encrypted_partial, iv },
        );
        Ok(Reply { bytes, stop: false })
    }

    fn update_reply(&mut self, frame: &[u8]) -> (r: Result<Reply, AgentError>)
        requires
            old(self).usable(),
            frame@.len() >= 1,
        ensures
            shows(r, old(self).update_answer(frame@).reply),
            final(self).server@ == old(self).update_answer(frame@).server,
            final(self).rng@ == old(self).update_answer(frame@).rng,
            final(self).fx == old(self).fx,
            final(self).place == old(self).place,
    {
        let ghost srv = self.server@;
        let (sig, p) = match field_from(frame, 1) {
            Ok(v) => v,
            Err(e) => {
                return Err(AgentError::Wire(e));
            },
        };
        let (body, q) = match field_from(frame, p) {
            Ok(v) => v,
            Err(e) => {
                return Err(AgentError::Wire(e));
            },
        };
        if q != frame.len() {
            return Err(AgentError::TrailingUpdate);
        }
        let signature = Nat::from_bytes_be(sig.as_slice());
        let message = signed_message(body.as_slice(), self.fx.client_id.as_slice());
        let rep = match emsa_pkcs1_v1_5_sha256(
            message.as_slice(),
            self.fx.ttg.public.n.byte_len(),
        ) {
            Ok(rep) => rep,
            Err(_) => {
                return Err(AgentError::Representative);
            },
        };
        let ok = if shoup_verify(&self.fx.ttg.public, &rep, &signature) && body.len() == self.fx.n
            * 80 {
            proof {
                assert(self.place * 80 + 80 <= self.fx.n * 80) by (nonlinear_arith)
                    requires
                        self.place < self.fx.n,
                ;
            }
            let off: usize = self.place * 80;
            let iv = bytes::piece::<16>(body.as_slice(), off);
            let ct = bytes::piece::<64>(body.as_slice(), off + 16);
            let mut plain = bytes::copy_bytes(&ct);
            aes128_ofb_apply(&self.server.h_i, &iv, plain.as_mut_slice());
            proof {
                let part = chunk(body@, self.place as int);
                assert(part.subrange(0, 16) =~= iv@);
                assert(part.subrange(16, 80) =~= ct@);
                assert(plain@ == opened_change(srv.h_i, part));
            }
            let own = bytes::piece::<32>(plain.as_slice(), 0);
            if bytes::same_bytes(&own, &self.server.h_i) {
                self.server.h_i = bytes::piece::<32>(plain.as_slice(), 32);
                true
            } else {
                false
            }
        } else {
            false
        };
        proof {
            if ok {
                assert(self.server@ =~= after_change(srv, body@, self.place as int));
            }
        }
        Ok(status_reply(ok))
    }

    /// Answers a request. An encrypted partial signature opens under the server's key.
    pub fn handle(&mut self, frame: &[u8]) -> (r: Result<Reply, AgentError>)
        requires
            old(self).usable(),
        ensures
            shows(r, old(self).answer(frame@).reply),
            r is Ok && frame@[0] == CMD_TOKEN ==>
                opens_partial(
                    old(self).fx.ttg.public,
                    old(self).server@,
                    representative(
                        old(self).fx.ttg.public.n@,
                        token_payload(frame@),
                        old(self).fx.client_id@,
                    ),
                    old(self).rng@.bytes(16),
                ),
            final(self).server@ == old(self).answer(frame@).server,
            final(self).rng@ == old(self).answer(frame@).rng,
            final(self).fx == old(self).fx,
            final(self).place == old(self).place,
    {
        if frame.len() == 0 {
            return Err(AgentError::Empty);
        }
        let command = frame[0];
        if command == CMD_TOPRF {
            let body = copy_range(frame, 1, frame.len());
            assert(body@ =~= frame@.skip(1));
            let encoded = Nat::from_bytes_be(body.as_slice());
            let z = toprf_eval(&self.fx.top.params, &self.server.top_share, &encoded);
            Ok(Reply { bytes: z.to_bytes_be(), stop: false })
        } else if command == CMD_TOKEN {
            self.token_reply(frame)
        } else if command == CMD_UPDATE {
            self.update_reply(frame)
        } else if command == CMD_RESET {
            self.server = self.fx.servers[self.place].copy();
            Ok(status_reply(true))
        } else if command == CMD_SHUTDOWN {
            Ok(Reply { bytes: status_bytes(true), stop: true })
        } else {
            Err(AgentError::Unknown)
        }
    }
}

/// A result shows the reply or the error.
pub open spec fn shows(r: Result<Reply, AgentError>, want: Result<(Seq<u8>, bool), AgentError>) -> bool {
    match r {
        Ok(v) => want == Ok::<(Seq<u8>, bool), AgentError>((v.bytes@, v.stop)),
        Err(e) => want == Err::<(Seq<u8>, bool), AgentError>(e),
    }
}

/// The byte that says whether a request was taken.
pub fn status_bytes(ok: bool) -> (r: Vec<u8>)
    ensures
        r@ == status(ok),
{
    let mut v: Vec<u8> = Vec::new();
    if ok {
        v.push(1);
    } else {
        v.push(0);
    }
    assert(v@ =~= status(ok));
    v
}

fn status_reply(ok: bool) -> (r: Reply)
    ensures
        r.bytes@ == status(ok),
        !r.stop,
{
    Reply { bytes: status_bytes(ok), stop: false }
}

/// Eight zeros.
pub open spec fn no_tag() -> Seq<u8> {
    Seq::new(8, |i: int| 0u8)
}

/// The seed of the generator of a server: its number, the number of servers and the
/// threshold, and zeros.
pub open spec fn server_seed(id: u64, n: u64, t: u64) -> Seq<u8> {
    u64_le(id) + u64_le(n) + u64_le(t) + no_tag()
}

/// Makes the seed of the generator of a server.
pub fn make_server_seed(id: u64, n: u64, t: u64) -> (r: [u8; 32])
    ensures
        r@ == server_seed(id, n, t),
{
    let zeros: [u8; 8] = [0u8; 8];
    assert(zeros@ =~= no_tag());
    let v = bytes::cat4(
        &bytes::u64_to_le(id),
        &bytes::u64_to_le(n),
        &bytes::u64_to_le(t),
        &zeros,
    );
    bytes::to_array::<32>(v.as_slice())
}

/// The seed of the generator of a client: the number of servers, the threshold, a tag and
/// zeros.
pub open spec fn client_seed(n: u64, t: u64, tag: Seq<u8>) -> Seq<u8> {
    u64_le(n) + u64_le(t) + tag + no_tag()
}

/// Makes the seed of the generator of a client.
pub fn make_client_seed(n: u64, t: u64, tag: &[u8; 8]) -> (r: [u8; 32])
    ensures
        r@ == client_seed(n, t, tag@),
{
    let zeros: [u8; 8] = [0u8; 8];
    assert(zeros@ =~= no_tag());
    let v = bytes::cat4(&bytes::u64_to_le(n), &bytes::u64_to_le(t), tag, &zeros);
    bytes::to_array::<32>(v.as_slice())
}

/// A server that took a change of keys goes back to its first key when it is told to, and
/// answers as it did at first.
pub proof fn reset_undoes_changes(a: PaperAgent, b: PaperAgent, frame: Seq<u8>)
    requires
        frame == seq![CMD_RESET],
        b.fx == a.fx,
        b.place == a.place,
        a.server@ == a.fx.servers@[a.place as int]@,
    ensures
        b.answer(frame).reply == Ok::<(Seq<u8>, bool), AgentError>((status(true), false)),
        b.answer(frame).server == a.server@,
{
    assert(frame[0] == CMD_RESET);
}

/// No request but a reset and an accepted update changes the keys of a server.
pub proof fn keys_change_only_by_update(a: PaperAgent, frame: Seq<u8>)
    requires
        a.answer(frame).server != a.server@,
    ensures
        frame.len() > 0,
        frame[0] == CMD_UPDATE || frame[0] == CMD_RESET,
        frame[0] == CMD_UPDATE ==> a.answer(frame).reply == Ok::<(Seq<u8>, bool), AgentError>(
            (status(true), false),
        ),
{
}

} // verus!
