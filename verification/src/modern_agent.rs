//! A server of the pairing-based scheme behind a connection, and a client of such servers.
use vstd::prelude::*;

use crate::bytes::{self, push_bytes};
use crate::crypto_pastau::{TtgToken, TtgVk, TTG_TOKEN_LEN};
use crate::field::{lagrange_coeffs_at_zero, vals, weights};
use crate::group::encs;
use crate::paper_agent::{make_server_seed, server_seed, status, status_bytes, Reply};
use crate::paper_client::frames;
use crate::pastau::{
    answers, respond, respond_toprf_only, respond_var_payload, response, responses, token_message,
    useful_response, ClientId, PastauServer, Response, ServerResponse, ServerState,
};
use crate::pastau_update::{after_update, password_update_handle, takes_update};
use crate::ristretto::{order, ristretto_mul, ristretto_valid, Point, Scalar};
use crate::rng::{Rng, RngState};
use crate::text::copy_text;
use crate::toprf::{toprf_client_eval_from_partials, unblinded_key};
use crate::wire::{
    copy_range, decode_response, encode_response, response_bytes, response_in, response_reads_back,
    WireError, RESPONSE_LEN,
};

verus! {

/// The request for a value of the password function.
pub const CMD_TOPRF: u8 = 1;

/// The request for a partial token on a short payload.
pub const CMD_TOKEN: u8 = 2;

/// The request for a partial token on any payload.
pub const CMD_TOKEN_VAR: u8 = 3;

/// The request to change the key.
pub const CMD_UPDATE: u8 = 4;

/// The request to go back to the first key.
pub const CMD_RESET: u8 = 5;

/// The request to stop.
pub const CMD_SHUTDOWN: u8 = 6;

/// Why a server does not answer.
#[derive(Clone, Copy, Debug, PartialEq, Eq, Structural)]
pub enum ModernError {
    Empty,
    BadToprf,
    ToprfFailed,
    BadToken,
    TokenFailed,
    BadVar,
    VarFailed,
    BadUpdate,
    Unknown,
}

/// The message for a request that is not answered.
pub open spec fn modern_text(e: ModernError) -> Seq<char> {
    match e {
        ModernError::Empty => "empty command"@,
        ModernError::BadToprf => "bad TOPRF request"@,
        ModernError::ToprfFailed => "TOPRF response failed"@,
        ModernError::BadToken => "bad token request"@,
        ModernError::TokenFailed => "token response failed"@,
        ModernError::BadVar => "bad variable token request"@,
        ModernError::VarFailed => "variable token response failed"@,
        ModernError::BadUpdate => "bad update request"@,
        ModernError::Unknown => "unknown command"@,
    }
}

impl ModernError {
    /// The message for a request that is not answered.
    pub fn message(self) -> (r: String)
        ensures
            r@ == modern_text(self),
    {
        match self {
            ModernError::Empty => copy_text("empty command"),
            ModernError::BadToprf => copy_text("bad TOPRF request"),
            ModernError::ToprfFailed => copy_text("TOPRF response failed"),
            ModernError::BadToken => copy_text("bad token request"),
            ModernError::TokenFailed => copy_text("token response failed"),
            ModernError::BadVar => copy_text("bad variable token request"),
            ModernError::VarFailed => copy_text("variable token response failed"),
            ModernError::BadUpdate => copy_text("bad update request"),
            ModernError::Unknown => copy_text("unknown command"),
        }
    }
}

/// What a request leads to: the reply or the error, and the server and generator after it.
pub struct ModernAnswer {
    pub reply: Result<(Seq<u8>, bool), ModernError>,
    pub server: ServerState,
    pub rng: RngState,
}

/// A server behind a connection.
pub struct ModernAgent {
    pub c: ClientId,
    pub vk: TtgVk,
    pub template: PastauServer,
    pub server: PastauServer,
    pub rng: Rng,
}

/// A result shows the reply or the error.
pub open spec fn shows(
    r: Result<Reply, ModernError>,
    want: Result<(Seq<u8>, bool), ModernError>,
) -> bool {
    match r {
        Ok(v) => want == Ok::<(Seq<u8>, bool), ModernError>((v.bytes@, v.stop)),
        Err(e) => want == Err::<(Seq<u8>, bool), ModernError>(e),
    }
}

impl ModernAgent {
    /// The reply to a request for a partial token on a payload; `failed` says that the
    /// server cannot answer.
    pub open spec fn token_answer(
        self,
        req: Seq<u8>,
        payload: Seq<u8>,
        failed: ModernError,
    ) -> ModernAnswer {
        if answers(self.server@, self.c.0@, req) {
            ModernAnswer {
                reply: Ok(
                    (
                        response_bytes(
                            response(
                                self.server@,
                                self.c.0@,
                                token_message(payload, self.c.0@),
                                req,
                                self.rng@.bytes(24),
                            ),
                        ),
                        false,
                    ),
                ),
                server: self.server@,
                rng: self.rng@.skip(24),
            }
        } else {
            ModernAnswer { reply: Err(failed), server: self.server@, rng: self.rng@ }
        }
    }

    /// What a request leads to.
    pub open spec fn answer(self, frame: Seq<u8>) -> ModernAnswer {
        let stay = |r: Result<(Seq<u8>, bool), ModernError>|
            ModernAnswer { reply: r, server: self.server@, rng: self.rng@ };
        if frame.len() == 0 {
            stay(Err(ModernError::Empty))
        } else if frame[0] == CMD_TOPRF {
            if frame.len() != 33 {
                stay(Err(ModernError::BadToprf))
            } else if !answers(self.server@, self.c.0@, frame.subrange(1, 33)) {
                stay(Err(ModernError::ToprfFailed))
            } else {
                stay(
                    Ok(
                        (
                            ristretto_mul(
                                frame.subrange(1, 33),
                                self.server@.records[self.c.0@].k_i,
                            ),
                            false,
                        ),
                    ),
                )
            }
        } else if frame[0] == CMD_TOKEN {
            if frame.len() != 65 {
                stay(Err(ModernError::BadToken))
            } else {
                self.token_answer(
                    frame.subrange(1, 33),
                    frame.subrange(33, 65),
                    ModernError::TokenFailed,
                )
            }
        } else if frame[0] == CMD_TOKEN_VAR {
            if frame.len() < 33 {
                stay(Err(ModernError::BadVar))
            } else {
                self.token_answer(
                    frame.subrange(1, 33),
                    frame.subrange(33, frame.len() as int),
                    ModernError::VarFailed,
                )
            }
        } else if frame[0] == CMD_UPDATE {
            if frame.len() < 1 + TTG_TOKEN_LEN {
                stay(Err(ModernError::BadUpdate))
            } else {
                let tk = frame.subrange(1, 49);
                let pld = frame.subrange(49, frame.len() as int);
                let ok = takes_update(self.server@, self.vk@, pld, tk);
                ModernAnswer {
                    reply: Ok((status(ok), false)),
                    server: if ok {
                        after_update(self.server@, pld)
                    } else {
                        self.server@
                    },
                    rng: self.rng@,
                }
            }
        } else if frame[0] == CMD_RESET {
            ModernAnswer {
                reply: Ok((status(true), false)),
                server: self.template@,
                rng: self.rng@,
            }
        } else if frame[0] == CMD_SHUTDOWN {
            stay(Ok((status(true), true)))
        } else {
            stay(Err(ModernError::Unknown))
        }
    }

    /// A server with a generator of its own.
    pub fn new(
        c: ClientId,
        vk: TtgVk,
        template: PastauServer,
        id: u64,
        n: u64,
        t: u64,
    ) -> (r: ModernAgent)
        ensures
            r.c == c,
            r.vk == vk,
            r.template == template,
            r.server@ == template@,
            r.rng@ == RngState::start(server_seed(id, n, t)),
    {
        let server = template.copy();
        let seed = make_server_seed(id, n, t);
        ModernAgent { c, vk, template, server, rng: Rng::from_seed(seed) }
    }

    /// Answers a request. A client with the server's key can make use of a partial token.
    #[verifier::rlimit(40)]
    pub fn handle(&mut self, frame: &[u8]) -> (r: Result<Reply, ModernError>)
        ensures
            shows(r, old(self).answer(frame@).reply),
            final(self).server@ == old(self).answer(frame@).server,
            final(self).rng@ == old(self).answer(frame@).rng,
            final(self).c == old(self).c,
            final(self).vk == old(self).vk,
            final(self).template == old(self).template,
            (frame@.len() > 0 && (frame@[0] == CMD_TOKEN || frame@[0] == CMD_TOKEN_VAR))
                ==> (r matches Ok(v) ==> v.bytes@.len() == RESPONSE_LEN && useful_response(
                response_in(v.bytes@),
                old(self).server@,
                old(self).c.0@,
                token_message(frame@.subrange(33, frame@.len() as int), old(self).c.0@),
            )),
    {
        if frame.len() == 0 {
            return Err(ModernError::Empty);
        }
        let command = frame[0];
        if command == CMD_TOPRF {
            if frame.len() != 33 {
                return Err(ModernError::BadToprf);
            }
            let req = bytes::piece::<32>(frame, 1);
            match respond_toprf_only(&self.server, self.c, &req) {
                Some(z) => Ok(Reply { bytes: bytes::copy_bytes(&z), stop: false }),
                None => Err(ModernError::ToprfFailed),
            }
        } else if command == CMD_TOKEN {
            if frame.len() != 65 {
                return Err(ModernError::BadToken);
            }
            let req = bytes::piece::<32>(frame, 1);
            let x = bytes::piece::<32>(frame, 33);
            match respond(&self.server, self.c, x, &req, &mut self.rng) {
                Some(resp) => {
                    proof {
                        response_reads_back(resp@);
                    }
                    Ok(Reply { bytes: encode_response(&resp), stop: false })
                },
                None => Err(ModernError::TokenFailed),
            }
        } else if command == CMD_TOKEN_VAR {
            if frame.len() < 33 {
                return Err(ModernError::BadVar);
            }
            let req = bytes::piece::<32>(frame, 1);
            let payload = copy_range(frame, 33, frame.len());
            match respond_var_payload(
                &self.server,
                self.c,
                payload.as_slice(),
                &req,
                &mut self.rng,
            ) {
                Some(resp) => {
                    proof {
                        response_reads_back(resp@);
                    }
                    Ok(Reply { bytes: encode_response(&resp), stop: false })
                },
                None => Err(ModernError::VarFailed),
            }
        } else if command == CMD_UPDATE {
            if frame.len() < 1 + TTG_TOKEN_LEN {
                return Err(ModernError::BadUpdate);
            }
            let token: TtgToken = bytes::piece::<48>(frame, 1);
            let pld = copy_range(frame, 49, frame.len());
            let ok = password_update_handle(&mut self.server, &self.vk, pld.as_slice(), &token);
            Ok(Reply { bytes: status_bytes(ok), stop: false })
        } else if command == CMD_RESET {
            self.server = self.template.copy();
            Ok(Reply { bytes: status_bytes(true), stop: false })
        } else if command == CMD_SHUTDOWN {
            Ok(Reply { bytes: status_bytes(true), stop: true })
        } else {
            Err(ModernError::Unknown)
        }
    }
}

/// A command with a blinded password and a payload.
pub open spec fn request_bytes(command: u8, req: Seq<u8>, payload: Seq<u8>) -> Seq<u8> {
    seq![command] + req + payload
}

/// Makes a command with a blinded password and a payload.
pub fn request_frame(command: u8, req: &[u8; 32], payload: &[u8]) -> (r: Vec<u8>)
    ensures
        r@ == request_bytes(command, req@, payload@),
{
    let mut r: Vec<u8> = Vec::new();
    r.push(command);
    push_bytes(&mut r, req);
    push_bytes(&mut r, payload);
    assert(r@ =~= request_bytes(command, req@, payload@));
    r
}

/// Makes the command that changes keys.
pub fn update_frame(token: &TtgToken, pld: &[u8]) -> (r: Vec<u8>)
    ensures
        r@ == seq![CMD_UPDATE] + token@ + pld@,
{
    let mut r: Vec<u8> = Vec::new();
    r.push(CMD_UPDATE);
    push_bytes(&mut r, token);
    push_bytes(&mut r, pld);
    assert(r@ =~= seq![CMD_UPDATE] + token@ + pld@);
    r
}

/// The responses in replies.
pub open spec fn responses_in(replies: Seq<Seq<u8>>) -> Seq<Response> {
    Seq::new(replies.len(), |i: int| response_in(replies[i]))
}

/// Reads the responses in replies, which must all have the length of a response.
pub fn read_responses(replies: &Vec<Vec<u8>>) -> (r: Result<Vec<ServerResponse>, WireError>)
    ensures
        match r {
            Ok(v) => {
                &&& forall|i: int|
                    0 <= i < replies@.len() ==> (#[trigger] replies@[i])@.len() == RESPONSE_LEN
                &&& responses(v@) == responses_in(frames(replies@))
            },
            Err(e) => {
                &&& e == WireError::BadLength
                &&& exists|i: int|
                    0 <= i < replies@.len() && (#[trigger] replies@[i])@.len() != RESPONSE_LEN
            },
        },
{
    let mut v: Vec<ServerResponse> = Vec::new();
    let mut k: usize = 0;
    while k < replies.len()
        invariant
            k <= replies@.len(),
            v@.len() == k,
            forall|i: int| 0 <= i < k ==> (#[trigger] replies@[i])@.len() == RESPONSE_LEN,
            forall|i: int| 0 <= i < k ==> (#[trigger] v@[i])@ == response_in(replies@[i]@),
        decreases replies@.len() - k,
    {
        match decode_response(replies[k].as_slice()) {
            Ok(resp) => {
                v.push(resp);
            },
            Err(e) => {
                assert(replies@[k as int]@.len() != RESPONSE_LEN);
                return Err(e);
            },
        }
        k = k + 1;
    }
    assert(responses(v@) =~= responses_in(frames(replies@)));
    Ok(v)
}

/// Why the replies give no value of the password function.
#[derive(Clone, Copy, Debug, PartialEq, Eq, Structural)]
pub enum RoundFault {
    BadReply,
    InvalidPoint,
}

/// The message for replies that give no value.
pub open spec fn round_text(e: RoundFault) -> Seq<char> {
    match e {
        RoundFault::BadReply => "bad TOPRF reply"@,
        RoundFault::InvalidPoint => "invalid TOPRF point"@,
    }
}

impl RoundFault {
    /// The message for replies that give no value.
    pub fn message(self) -> (r: String)
        ensures
            r@ == round_text(self),
    {
        match self {
            RoundFault::BadReply => copy_text("bad TOPRF reply"),
            RoundFault::InvalidPoint => copy_text("invalid TOPRF point"),
        }
    }
}

/// What is wrong with the first reply from place `k` on that is not a group element.
pub open spec fn reply_fault(replies: Seq<Seq<u8>>, k: int) -> Option<RoundFault>
    decreases replies.len() - k,
{
    if k >= replies.len() {
        None
    } else if replies[k].len() != 32 {
        Some(RoundFault::BadReply)
    } else if !ristretto_valid(replies[k]) {
        Some(RoundFault::InvalidPoint)
    } else {
        reply_fault(replies, k + 1)
    }
}

/// The value of the password function that the replies of the servers in `t_set` give.
pub fn finish_round(password: &[u8], rho: Scalar, t_set: &[u32], replies: &Vec<Vec<u8>>) -> (r:
    Result<[u8; 32], RoundFault>)
    requires
        replies@.len() == t_set@.len(),
    ensures
        match r {
            Ok(h) => reply_fault(frames(replies@), 0) is None && h@ == unblinded_key(
                password@,
                rho@,
                frames(replies@),
                weights(t_set@, order()),
            ),
            Err(e) => reply_fault(frames(replies@), 0) == Some(e),
        },
{
    let ghost g = frames(replies@);
    let mut points: Vec<Point> = Vec::new();
    let mut k: usize = 0;
    while k < replies.len()
        invariant
            k <= replies@.len(),
            g == frames(replies@),
            points@.len() == k,
            reply_fault(g, k as int) == reply_fault(g, 0),
            forall|i: int| 0 <= i < k ==> (#[trigger] points@[i])@ == g[i],
        decreases replies@.len() - k,
    {
        assert(g[k as int] == replies@[k as int]@);
        if replies[k].len() != 32 {
            return Err(RoundFault::BadReply);
        }
        let b = bytes::to_array::<32>(replies[k].as_slice());
        match Point::decompress(&b) {
            Some(p) => {
                points.push(p);
            },
            None => {
                return Err(RoundFault::InvalidPoint);
            },
        }
        k = k + 1;
    }
    let lambdas: Vec<Scalar> = lagrange_coeffs_at_zero::<Scalar>(t_set);
    proof {
        assert(vals(lambdas@).len() == t_set@.len());
        assert(encs(points@) =~= g) by {
            assert forall|i: int| 0 <= i < g.len() implies #[trigger] encs(points@)[i] == g[i] by {
                assert(points@[i]@ == g[i]);
            }
        }
    }
    Ok(toprf_client_eval_from_partials(password, rho, points.as_slice(), lambdas.as_slice()))
}

/// The server's reply to the client's request for a token is a response that the client reads
/// as the server made it.
pub proof fn token_requests_are_understood(a: ModernAgent, req: Seq<u8>, payload: Seq<u8>)
    requires
        req.len() == 32,
    ensures
        a.answer(request_bytes(CMD_TOKEN_VAR, req, payload)) == a.token_answer(
            req,
            payload,
            ModernError::VarFailed,
        ),
        payload.len() == 32 ==> a.answer(request_bytes(CMD_TOKEN, req, payload)) == a.token_answer(
            req,
            payload,
            ModernError::TokenFailed,
        ),
{
    let v = request_bytes(CMD_TOKEN_VAR, req, payload);
    let f = request_bytes(CMD_TOKEN, req, payload);
    assert(v[0] == CMD_TOKEN_VAR);
    assert(f[0] == CMD_TOKEN);
    assert(v.subrange(1, 33) =~= req);
    assert(f.subrange(1, 33) =~= req);
    assert(v.subrange(33, v.len() as int) =~= payload);
    if payload.len() == 32 {
        assert(f.subrange(33, 65) =~= payload);
    }
}

/// A server takes the client's update exactly if it would take its message and token, and a
/// reset brings the first keys back.
pub proof fn updates_are_understood(a: ModernAgent, tk: Seq<u8>, pld: Seq<u8>)
    requires
        tk.len() == 48,
    ensures
        ({
            let got = a.answer(seq![CMD_UPDATE] + tk + pld);
            let ok = takes_update(a.server@, a.vk@, pld, tk);
            &&& got.reply == Ok::<(Seq<u8>, bool), ModernError>((status(ok), false))
            &&& got.server == if ok {
                after_update(a.server@, pld)
            } else {
                a.server@
            }
        }),
        a.answer(seq![CMD_RESET]).server == a.template@,
{
    let f = seq![CMD_UPDATE] + tk + pld;
    assert(f[0] == CMD_UPDATE);
    assert(f.subrange(1, 49) =~= tk);
    assert(f.subrange(49, f.len() as int) =~= pld);
    assert(seq![CMD_RESET][0] == CMD_RESET);
}

} // verus!
