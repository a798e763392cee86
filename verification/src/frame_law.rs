//! What stands in the frames: lengths, fields, responses, commands and keys, byte for byte; and
//! what the hashes and the signed blocks of the RSA-based scheme cover.
use vstd::arithmetic::power::pow;
use vstd::prelude::*;
use vstd::string::StringSliceAdditionalSpecFns;

use crate::bignum::{be_bytes, be_nat, bytes_needed, lemma_be_nat_of_be_bytes};
use crate::bytes::{u64_le, u64_of_le};
use crate::cli::{arg_place, arg_value, lines, samples_in};
use crate::decimal::decimal;
use crate::modern_agent::{reply_fault, ModernAgent, ModernError, RoundFault};
use crate::modp_toprf::{password_element, value_hash, ToprfParams};
use crate::paper_agent::{client_seed, server_seed, status, AgentError, PaperAgent};
use crate::paper_hash::{aes128_ofb_mask, ofb_applied, server_key, sha256, sha512};
use crate::paper_protocol::{
    after_change, after_ivs, encrypted_partial, message, padded, representative, takes_change,
    update_body, ServerState,
};
use crate::pastau::Response;
use crate::ristretto::{ristretto_mul, ristretto_valid};
use crate::rng::RngState;
use crate::shoup::{partial_value, signature_block, ShoupPublicKey};
use crate::ssh_agent::{asked, key_bytes, measured, mpint_bytes, sign_request, signed_answer, Asked};
use crate::text::{parsed, split, trim};
use crate::wire::{
    be32, be32_reads_back, field, field_at, field_reads_back, of_be32, response_bytes, response_in,
    token_response_bytes, token_response_in, WireError,
};

verus! {

/// A number of 32 bits is written with its most significant byte first.
pub proof fn lengths_are_big_endian(a: u8, b: u8, c: u8, d: u8)
    ensures
        ({
            let x = (a * 0x100_0000 + b * 0x1_0000 + c * 0x100 + d) as nat;
            &&& be32(x) == seq![a, b, c, d]
            &&& of_be32(seq![a, b, c, d]) == x
        }),
{
    let x = (a * 0x100_0000 + b * 0x1_0000 + c * 0x100 + d) as nat;
    assert(x / 0x100_0000 == a);
    assert(x / 0x1_0000 == a * 256 + b);
    assert(x / 256 == a * 0x1_0000 + b * 256 + c);
    assert(be32(x) =~= seq![a, b, c, d]);
}

/// A field is the length of its bytes in four bytes, and then the bytes.
pub proof fn fields_start_with_their_length(b: Seq<u8>)
    requires
        b.len() <= u32::MAX,
    ensures
        field(b).len() == 4 + b.len(),
        of_be32(field(b).subrange(0, 4)) == b.len(),
        field(b).subrange(4, 4 + b.len() as int) == b,
{
    be32_reads_back(b.len());
    assert(field(b).subrange(0, 4) =~= be32(b.len()));
    assert(field(b).subrange(4, 4 + b.len() as int) =~= b);
}

/// A response with a point is 124 bytes: the server's number, the point, and the nonce,
/// ciphertext and tag of the partial token.
pub proof fn responses_have_their_layout(v: Response)
    requires
        v.z_i.len() == 32,
        v.ctxt_i.nonce.len() == 24,
        v.ctxt_i.ct.len() == 48,
        v.ctxt_i.tag.len() == 16,
    ensures
        ({
            let s = response_bytes(v);
            &&& s.len() == 124
            &&& of_be32(s.subrange(0, 4)) == v.server_id
            &&& s.subrange(4, 36) == v.z_i
            &&& s.subrange(36, 60) == v.ctxt_i.nonce
            &&& s.subrange(60, 108) == v.ctxt_i.ct
            &&& s.subrange(108, 124) == v.ctxt_i.tag
            &&& response_in(s) == v
        }),
{
    let s = response_bytes(v);
    be32_reads_back(v.server_id as nat);
    assert(s.subrange(0, 4) =~= be32(v.server_id as nat));
    assert(s.subrange(4, 36) =~= v.z_i);
    assert(s.subrange(36, 60) =~= v.ctxt_i.nonce);
    assert(s.subrange(60, 108) =~= v.ctxt_i.ct);
    assert(s.subrange(108, 124) =~= v.ctxt_i.tag);
}

/// A response with a number is the server's number, the number as a field, the encrypted part
/// as a field, and the initialization vector of sixteen bytes.
pub proof fn token_responses_have_their_layout(id: u32, z: nat, part: Seq<u8>, iv: Seq<u8>)
    requires
        iv.len() == 16,
        be_bytes(z).len() <= u32::MAX,
        part.len() <= u32::MAX,
    ensures
        ({
            let s = token_response_bytes(id, z, part, iv);
            let k = be_bytes(z).len() as int;
            &&& s.len() == 4 + 4 + k + 4 + part.len() + 16
            &&& of_be32(s.subrange(0, 4)) == id
            &&& of_be32(s.subrange(4, 8)) == k
            &&& be_nat(s.subrange(8, 8 + k)) == z
            &&& of_be32(s.subrange(8 + k, 12 + k)) == part.len()
            &&& s.subrange(12 + k, 12 + k + part.len() as int) == part
            &&& s.subrange(s.len() - 16, s.len() as int) == iv
        }),
{
    let s = token_response_bytes(id, z, part, iv);
    let k = be_bytes(z).len() as int;
    be32_reads_back(id as nat);
    be32_reads_back(be_bytes(z).len());
    be32_reads_back(part.len());
    lemma_be_nat_of_be_bytes(z);
    assert(s.subrange(0, 4) =~= be32(id as nat));
    assert(s.subrange(4, 8) =~= be32(be_bytes(z).len()));
    assert(s.subrange(8, 8 + k) =~= be_bytes(z));
    assert(s.subrange(8 + k, 12 + k) =~= be32(part.len()));
    assert(s.subrange(12 + k, 12 + k + part.len() as int) =~= part);
    assert(s.subrange(s.len() - 16, s.len() as int) =~= iv);
}

/// A server of the RSA-based scheme answers a blinded password of the first command with its
/// power, and stays as it is. The commands for reset and shutdown are taken, and only shutdown
/// stops the server; an empty frame and other commands are refused.
pub proof fn paper_commands_are_answered(a: PaperAgent, enc: Seq<u8>, other: u8)
    requires
        other == 0 || other > 5,
    ensures
        ({
            let got = a.answer(seq![1u8] + enc);
            &&& got.reply == Ok::<(Seq<u8>, bool), AgentError>(
                (
                    be_bytes(
                        (pow(be_nat(enc) as int, a.server@.top) % (
                        a.fx.top.params.modulus@ as int)) as nat,
                    ),
                    false,
                ),
            )
            &&& got.server == a.server@
            &&& got.rng == a.rng@
        }),
        a.answer(seq![4u8]).server == a.fx.servers@[a.place as int]@,
        a.answer(seq![4u8]).reply == Ok::<(Seq<u8>, bool), AgentError>((seq![1u8], false)),
        a.answer(seq![5u8]).reply == Ok::<(Seq<u8>, bool), AgentError>((seq![1u8], true)),
        a.answer(seq![5u8]).server == a.server@,
        a.answer(seq![4u8]).rng == a.rng@,
        a.answer(seq![5u8]).rng == a.rng@,
        a.answer(Seq::empty()).rng == a.rng@,
        a.answer(Seq::empty()).server == a.server@,
        a.answer(seq![other] + enc).rng == a.rng@,
        a.answer(Seq::empty()).reply == Err::<(Seq<u8>, bool), AgentError>(AgentError::Empty),
        a.answer(seq![other] + enc).reply == Err::<(Seq<u8>, bool), AgentError>(
            AgentError::Unknown,
        ),
        a.answer(seq![other] + enc).server == a.server@,
        status(true) == seq![1u8],
        status(false) == seq![0u8],
{
    let f = seq![1u8] + enc;
    assert(f[0] == 1);
    assert(f.skip(1) =~= enc);
    assert(seq![4u8][0] == 4);
    assert(seq![5u8][0] == 5);
    assert((seq![other] + enc)[0] == other);
}

/// A server of the RSA-based scheme answers a request for a partial token with its number, the
/// power of the blinded password, its partial signature of the payload and client under its
/// key with a fresh vector, and that vector.
pub proof fn paper_token_requests_are_answered(a: PaperAgent, enc: Seq<u8>, payload: Seq<u8>)
    requires
        enc.len() <= u32::MAX,
        payload.len() <= u32::MAX,
        bytes_needed(a.fx.ttg.public.n@) >= 62,
    ensures
        ({
            let pk = a.fx.ttg.public;
            let iv = a.rng@.bytes(16);
            let rep = be_nat(
                signature_block(payload + a.fx.client_id@, bytes_needed(pk.n@)),
            );
            let part = (pow(rep as int, 2 * pk.delta@ * a.server@.ttg) % (pk.n@ as int)) as nat;
            let got = a.answer(seq![2u8] + field(enc) + field(payload));
            &&& got.reply == Ok::<(Seq<u8>, bool), AgentError>(
                (
                    token_response_bytes(
                        (a.place + 1) as u32,
                        (pow(be_nat(enc) as int, a.server@.top) % (
                        a.fx.top.params.modulus@ as int)) as nat,
                        ofb_applied(a.server@.h_i, iv, padded(part, bytes_needed(pk.n@))),
                        iv,
                    ),
                    false,
                ),
            )
            &&& got.server == a.server@
            &&& got.rng == a.rng@.skip(16)
        }),
{
    let head = seq![2u8];
    let f = head + field(enc) + field(payload);
    assert(f[0] == 2);
    field_reads_back(head, enc, field(payload));
    field_reads_back(head + field(enc), payload, Seq::empty());
    assert(f + Seq::<u8>::empty() =~= f);
}

/// A server of the RSA-based scheme takes a change exactly where the signature is that of the
/// body and client, the body has 80 bytes for every server, and what stands at the server's
/// place opens under its key to that key and a new one. It then holds the new key.
pub proof fn paper_updates_are_answered(a: PaperAgent, sig: Seq<u8>, body: Seq<u8>)
    requires
        sig.len() <= u32::MAX,
        body.len() <= u32::MAX,
        bytes_needed(a.fx.ttg.public.n@) >= 62,
        a.place < a.fx.n,
    ensures
        ({
            let pk = a.fx.ttg.public;
            let at = a.place as int * 80;
            let pt = ofb_applied(
                a.server@.h_i,
                body.subrange(at, at + 16),
                body.subrange(at + 16, at + 80),
            );
            let ok = pow(be_nat(sig) as int, pk.e@) % (pk.n@ as int) == be_nat(
                signature_block(body + a.fx.client_id@, bytes_needed(pk.n@)),
            ) && body.len() == a.fx.n * 80 && pt.subrange(0, 32) == a.server@.h_i;
            let got = a.answer(seq![3u8] + field(sig) + field(body));
            &&& got.reply == Ok::<(Seq<u8>, bool), AgentError>(
                (
                    seq![
                        if ok {
                            1u8
                        } else {
                            0u8
                        },
                    ],
                    false,
                ),
            )
            &&& got.rng == a.rng@
            &&& got.server == if ok {
                ServerState { h_i: pt.subrange(32, 64), ..a.server@ }
            } else {
                a.server@
            }
        }),
{
    let head = seq![3u8];
    let f = head + field(sig) + field(body);
    assert(f[0] == 3);
    field_reads_back(head, sig, field(body));
    field_reads_back(head + field(sig), body, Seq::empty());
    assert(f + Seq::<u8>::empty() =~= f);
    let at = a.place as int * 80;
    if body.len() == a.fx.n * 80 {
        assert(at + 80 <= a.fx.n * 80);
        let ch = body.subrange(at, at + 80);
        assert(ch.subrange(0, 16) =~= body.subrange(at, at + 16));
        assert(ch.subrange(16, 80) =~= body.subrange(at + 16, at + 80));
    }
}

/// A server of the RSA-based scheme refuses requests with a broken field, with bytes behind the
/// two fields, or under a modulus too short to sign for, and stays as it is.
pub proof fn paper_broken_requests_are_refused(
    a: PaperAgent,
    x: Seq<u8>,
    y: Seq<u8>,
    rest: Seq<u8>,
    broken: Seq<u8>,
    command: u8,
)
    requires
        x.len() <= u32::MAX,
        y.len() <= u32::MAX,
        command == 2 || command == 3,
    ensures
        ({
            let got = a.answer(seq![command] + field(x) + field(y) + rest);
            let refused = rest.len() > 0 || bytes_needed(a.fx.ttg.public.n@) < 62;
            &&& rest.len() > 0 ==> got.reply == Err::<(Seq<u8>, bool), AgentError>(
                if command == 2 {
                    AgentError::TrailingToken
                } else {
                    AgentError::TrailingUpdate
                },
            )
            &&& rest.len() == 0 && bytes_needed(a.fx.ttg.public.n@) < 62 ==> got.reply == Err::<
                (Seq<u8>, bool),
                AgentError,
            >(AgentError::Representative)
            &&& refused ==> got.server == a.server@
            &&& refused ==> got.rng == a.rng@
        }),
        field_at(seq![command] + broken, 1) matches Err(e) ==> a.answer(
            seq![command] + broken,
        ).reply == Err::<(Seq<u8>, bool), AgentError>(AgentError::Wire(e)) && a.answer(
            seq![command] + broken,
        ).server == a.server@ && a.answer(seq![command] + broken).rng == a.rng@,
{
    let head = seq![command];
    let f = head + field(x) + field(y) + rest;
    assert(f[0] == command);
    field_reads_back(head, x, field(y) + rest);
    assert(head + field(x) + (field(y) + rest) =~= f);
    field_reads_back(head + field(x), y, rest);
    assert((seq![command] + broken)[0] == command);
}

/// A server of the other scheme answers a blinded password of the first command with its
/// multiple by the share for the client, where it is a point; other lengths are refused.
pub proof fn modern_commands_are_answered(a: ModernAgent, req: Seq<u8>, other: u8)
    requires
        req.len() == 32,
        other == 0 || other > 6,
    ensures
        a.server@.records.dom().contains(a.c.0@) && ristretto_valid(req) ==> a.answer(
            seq![1u8] + req,
        ).reply == Ok::<(Seq<u8>, bool), ModernError>(
            (ristretto_mul(req, a.server@.records[a.c.0@].k_i), false),
        ),
        !(a.server@.records.dom().contains(a.c.0@) && ristretto_valid(req)) ==> a.answer(
            seq![1u8] + req,
        ).reply == Err::<(Seq<u8>, bool), ModernError>(ModernError::ToprfFailed),
        a.answer(seq![1u8] + req).server == a.server@,
        a.answer(seq![1u8] + req).rng == a.rng@,
        a.answer(seq![5u8]).rng == a.rng@,
        a.answer(seq![6u8]).rng == a.rng@,
        a.answer(seq![other] + req).rng == a.rng@,
        a.answer(Seq::empty()).rng == a.rng@,
        a.answer(Seq::empty()).server == a.server@,
        a.answer(seq![3u8] + req.drop_last()).reply == Err::<(Seq<u8>, bool), ModernError>(
            ModernError::BadVar,
        ),
        a.answer(seq![1u8] + req.drop_last()).reply == Err::<(Seq<u8>, bool), ModernError>(
            ModernError::BadToprf,
        ),
        a.answer(seq![1u8] + req + seq![other]).reply == Err::<(Seq<u8>, bool), ModernError>(
            ModernError::BadToprf,
        ),
        a.answer(seq![1u8]).reply == Err::<(Seq<u8>, bool), ModernError>(ModernError::BadToprf),
        a.answer(seq![5u8]).server == a.template@,
        a.answer(seq![5u8]).reply == Ok::<(Seq<u8>, bool), ModernError>((seq![1u8], false)),
        a.answer(seq![6u8]).reply == Ok::<(Seq<u8>, bool), ModernError>((seq![1u8], true)),
        a.answer(seq![6u8]).server == a.server@,
        a.answer(Seq::empty()).reply == Err::<(Seq<u8>, bool), ModernError>(ModernError::Empty),
        a.answer(seq![other] + req).reply == Err::<(Seq<u8>, bool), ModernError>(
            ModernError::Unknown,
        ),
        a.answer(seq![other] + req).server == a.server@,
{
    let f = seq![1u8] + req;
    assert(f[0] == 1);
    assert(f.subrange(1, 33) =~= req);
    assert(seq![1u8][0] == 1);
    assert(seq![5u8][0] == 5);
    assert(seq![6u8][0] == 6);
    assert((seq![3u8] + req.drop_last())[0] == 3);
    assert((seq![1u8] + req.drop_last())[0] == 1);
    assert((seq![1u8] + req + seq![other])[0] == 1);
    assert((seq![other] + req)[0] == other);
}

/// A server of the other scheme answers a request for a partial token on a payload of 32 bytes
/// or, under the next command, of any length: its number, the multiple of the blinded password,
/// and its part of the token on the payload and client, sealed under its key with a fresh nonce.
/// Where it does not know the client or the request holds no point, it says so and stays.
pub proof fn modern_token_requests_are_answered(
    a: ModernAgent,
    req: Seq<u8>,
    payload: Seq<u8>,
)
    requires
        req.len() == 32,
    ensures
        ({
            let srv = a.server@;
            let rec = srv.records[a.c.0@];
            let good = srv.records.dom().contains(a.c.0@) && ristretto_valid(req);
            let b = crate::aead::sealed(
                rec.h_i,
                Seq::empty(),
                crate::bls::g1_mul(
                    crate::crypto_pastau::token_base(payload + a.c.0@),
                    srv.ttg_share,
                ),
                a.rng@.bytes(24),
            );
            let reply = be32(srv.id as nat) + ristretto_mul(req, rec.k_i) + b.nonce + b.ct + b.tag;
            let var = a.answer(seq![3u8] + req + payload);
            let fixed = a.answer(seq![2u8] + req + payload);
            &&& good ==> var.reply == Ok::<(Seq<u8>, bool), ModernError>((reply, false))
            &&& good ==> var.rng == a.rng@.skip(24)
            &&& !good ==> var.reply == Err::<(Seq<u8>, bool), ModernError>(ModernError::VarFailed)
            &&& !good ==> var.rng == a.rng@
            &&& var.server == srv
            &&& payload.len() == 32 && good ==> fixed.reply == Ok::<(Seq<u8>, bool), ModernError>(
                (reply, false),
            )
            &&& payload.len() == 32 && good ==> fixed.rng == a.rng@.skip(24)
            &&& payload.len() == 32 && !good ==> fixed.reply == Err::<(Seq<u8>, bool), ModernError>(
                ModernError::TokenFailed,
            )
            &&& payload.len() != 32 ==> fixed.reply == Err::<(Seq<u8>, bool), ModernError>(
                ModernError::BadToken,
            )
            &&& fixed.server == srv
        }),
{
    let f = seq![3u8] + req + payload;
    assert(f[0] == 3);
    assert(f.subrange(1, 33) =~= req);
    assert(f.subrange(33, f.len() as int) =~= payload);
    let g = seq![2u8] + req + payload;
    assert(g[0] == 2);
    assert(g.subrange(1, 33) =~= req);
    assert(g.subrange(33, g.len() as int) =~= payload);
}

/// A server of the other scheme hands an update with its token of 48 bytes to its rule for
/// updates: it says whether it took it, and holds what that rule leaves.
pub proof fn modern_updates_are_answered(a: ModernAgent, tk: Seq<u8>, pld: Seq<u8>, short: Seq<u8>)
    requires
        tk.len() == 48,
        short.len() < 48,
    ensures
        ({
            let ok = crate::pastau_update::takes_update(a.server@, a.vk@, pld, tk);
            let got = a.answer(seq![4u8] + tk + pld);
            &&& got.reply == Ok::<(Seq<u8>, bool), ModernError>(
                (
                    seq![
                        if ok {
                            1u8
                        } else {
                            0u8
                        },
                    ],
                    false,
                ),
            )
            &&& got.server == if ok {
                crate::pastau_update::after_update(a.server@, pld)
            } else {
                a.server@
            }
            &&& got.rng == a.rng@
            &&& a.answer(seq![4u8] + short).reply == Err::<(Seq<u8>, bool), ModernError>(
                ModernError::BadUpdate,
            )
            &&& a.answer(seq![4u8] + short).server == a.server@
        }),
{
    let f = seq![4u8] + tk + pld;
    assert(f[0] == 4);
    assert(f.subrange(1, 49) =~= tk);
    assert(f.subrange(49, f.len() as int) =~= pld);
    assert((seq![4u8] + short)[0] == 4);
}

/// A request of the other scheme is its command, the blinded password and the payload.
pub proof fn modern_requests_have_their_layout(command: u8, req: Seq<u8>, payload: Seq<u8>)
    ensures
        crate::modern_agent::request_bytes(command, req, payload) == seq![command] + req + payload,
{
}

/// A frame without four bytes for a length, or with fewer bytes than the length says, is
/// refused; otherwise the field is the bytes behind the length.
pub proof fn short_fields_are_refused(s: Seq<u8>, from: int)
    requires
        0 <= from <= s.len(),
    ensures
        s.len() < from + 4 ==> field_at(s, from) == Err::<(Seq<u8>, int), WireError>(
            WireError::MissingLength,
        ),
        s.len() >= from + 4 ==> ({
            let n = of_be32(s.subrange(from, from + 4)) as int;
            &&& s.len() < from + 4 + n ==> field_at(s, from) == Err::<(Seq<u8>, int), WireError>(
                WireError::ShortField,
            )
            &&& s.len() >= from + 4 + n ==> field_at(s, from) == Ok::<(Seq<u8>, int), WireError>(
                (s.subrange(from + 4, from + 4 + n), from + 4 + n),
            )
        }),
{
}

/// A token response is refused where it is too short for the server's number, a field is broken,
/// or not sixteen bytes are left for the vector; otherwise it reads back as it was written.
pub proof fn token_responses_are_read(
    id: u32,
    z: nat,
    part: Seq<u8>,
    iv: Seq<u8>,
    s: Seq<u8>,
)
    requires
        be_bytes(z).len() <= u32::MAX,
        part.len() <= u32::MAX,
    ensures
        s.len() < 4 ==> token_response_in(s) == Err::<(u32, nat, Seq<u8>, Seq<u8>), WireError>(
            WireError::ShortResponse,
        ),
        iv.len() == 16 ==> token_response_in(token_response_bytes(id, z, part, iv)) == Ok::<
            (u32, nat, Seq<u8>, Seq<u8>),
            WireError,
        >((id, z, part, iv)),
        iv.len() != 16 ==> token_response_in(token_response_bytes(id, z, part, iv)) == Err::<
            (u32, nat, Seq<u8>, Seq<u8>),
            WireError,
        >(WireError::BadIv),
{
    let head = be32(id as nat);
    let f = token_response_bytes(id, z, part, iv);
    be32_reads_back(id as nat);
    lemma_be_nat_of_be_bytes(z);
    field_reads_back(head, be_bytes(z), field(part) + iv);
    assert(head + field(be_bytes(z)) + (field(part) + iv) =~= f);
    field_reads_back(head + field(be_bytes(z)), part, iv);
    assert(head + field(be_bytes(z)) + field(part) + iv =~= f);
    assert(f.subrange(0, 4) =~= head);
    if iv.len() == 16 {
        assert(f.subrange(f.len() - 16, f.len() as int) =~= iv);
    }
}

/// Replies to the first command are refused at the first that is not 32 bytes or no point.
pub proof fn replies_are_refused_at_the_first_bad(replies: Seq<Seq<u8>>, k: int)
    requires
        0 <= k <= replies.len(),
    ensures
        match reply_fault(replies, k) {
            None => forall|i: int|
                k <= i < replies.len() ==> (#[trigger] replies[i]).len() == 32 && ristretto_valid(
                    replies[i],
                ),
            Some(e) => exists|i: int|
                k <= i < replies.len() && (if (#[trigger] replies[i]).len() != 32 {
                    e == RoundFault::BadReply
                } else {
                    !ristretto_valid(replies[i]) && e == RoundFault::InvalidPoint
                }) && forall|j: int|
                    k <= j < i ==> (#[trigger] replies[j]).len() == 32 && ristretto_valid(
                        replies[j],
                    ),
        },
    decreases replies.len() - k,
{
    if k < replies.len() {
        replies_are_refused_at_the_first_bad(replies, k + 1);
        if replies[k].len() != 32 || !ristretto_valid(replies[k]) {
            assert(replies[k].len() == replies[k].len());
        } else if reply_fault(replies, k + 1) is Some {
            let e = reply_fault(replies, k + 1)->Some_0;
            let i = choose|i: int|
                k + 1 <= i < replies.len() && (if (#[trigger] replies[i]).len() != 32 {
                    e == RoundFault::BadReply
                } else {
                    !ristretto_valid(replies[i]) && e == RoundFault::InvalidPoint
                }) && forall|j: int|
                    k + 1 <= j < i ==> (#[trigger] replies[j]).len() == 32 && ristretto_valid(
                        replies[j],
                    );
            assert(replies[i].len() == replies[i].len());
        }
    }
}

/// The password function of the RSA-based scheme hashes the whole password into the group, and
/// its value with the whole password; a server's key covers the value and its number.
pub proof fn paper_hashes_cover_their_inputs(
    params: ToprfParams,
    password: Seq<u8>,
    y: nat,
    h: Seq<u8>,
    id: u32,
)
    ensures
        password_element(params, password) == pow(
            params.generator@ as int,
            be_nat(sha512(password)) % params.order@,
        ) % (params.modulus@ as int),
        value_hash(password, y as int) == sha256(password + be_bytes(y)),
        server_key(h, id) == sha256(h + decimal(id as nat)),
{
}

/// Servers of different numbers have different hash inputs for their keys.
pub proof fn server_numbers_are_told_apart(h: Seq<u8>, a: nat, b: nat)
    requires
        a != b,
    ensures
        h + decimal(a) != h + decimal(b),
{
    let (x, y) = (h + decimal(a), h + decimal(b));
    if x == y {
        assert(x.skip(h.len() as int) =~= decimal(a));
        assert(y.skip(h.len() as int) =~= decimal(b));
        lemma_decimal(a);
        lemma_decimal(b);
    }
}

/// The number that ASCII digits stand for.
pub open spec fn ascii_value(s: Seq<u8>) -> int
    decreases s.len(),
{
    if s.len() == 0 {
        0
    } else {
        ascii_value(s.drop_last()) * 10 + (s.last() - 48)
    }
}

proof fn lemma_decimal(n: nat)
    ensures
        ascii_value(decimal(n)) == n,
    decreases n,
{
    let s = decimal(n);
    if n < 10 {
        reveal_with_fuel(ascii_value, 2);
        assert(s.drop_last().len() == 0);
    } else {
        lemma_decimal(n / 10);
        assert(s.drop_last() =~= decimal(n / 10));
    }
}

/// A signed block is two bytes, as much filling as the length leaves, a zero, the prefix of the
/// digest and the digest of the whole message; what is signed for a payload covers the payload
/// and the client.
pub proof fn signed_blocks_have_their_layout(
    payload: Seq<u8>,
    client: Seq<u8>,
    n: nat,
    i: int,
)
    requires
        bytes_needed(n) >= 62,
        sha256(payload + client).len() == 32,
        2 <= i < bytes_needed(n) - 52,
    ensures
        ({
            let len = bytes_needed(n) as int;
            let b = signature_block(payload + client, bytes_needed(n));
            &&& b.len() == len
            &&& b[0] == 0
            &&& b[1] == 1
            &&& b[i] == 255
            &&& b[len - 52] == 0
            &&& b.subrange(len - 51, len - 32) == seq![
                0x30u8, 0x31, 0x30, 0x0d, 0x06, 0x09, 0x60, 0x86, 0x48, 0x01, 0x65, 0x03, 0x04,
                0x02, 0x01, 0x05, 0x00, 0x04, 0x20,
            ]
            &&& b.subrange(len - 32, len) == sha256(payload + client)
            &&& representative(n, payload, client) == be_nat(b)
            &&& message(payload, client) == payload + client
        }),
{
    let len = bytes_needed(n) as int;
    let b = signature_block(payload + client, bytes_needed(n));
    assert(b.subrange(len - 51, len - 32) =~= seq![
        0x30u8, 0x31, 0x30, 0x0d, 0x06, 0x09, 0x60, 0x86, 0x48, 0x01, 0x65, 0x03, 0x04, 0x02,
        0x01, 0x05, 0x00, 0x04, 0x20,
    ]);
    assert(b.subrange(len - 32, len) =~= sha256(payload + client));
}

/// A partial signature is the representative raised to twice the factorial times the share, and
/// travels under the server's key, filled up to the length of the modulus.
pub proof fn partial_signatures_travel_encrypted(
    pk: ShoupPublicKey,
    srv: ServerState,
    rep: nat,
    iv: Seq<u8>,
    v: nat,
    len: nat,
    i: int,
)
    ensures
        partial_value(rep, pk.delta@, srv.ttg, pk.n@) == (pow(
            rep as int,
            2 * pk.delta@ * srv.ttg,
        ) % (pk.n@ as int)) as nat,
        encrypted_partial(pk, srv, rep, iv) == ofb_applied(
            srv.h_i,
            iv,
            padded((pow(rep as int, 2 * pk.delta@ * srv.ttg) % (pk.n@ as int)) as nat, bytes_needed(pk.n@)),
        ),
        be_bytes(v).len() <= len ==> padded(v, len).len() == len,
        be_bytes(v).len() <= len && 0 <= i < len - be_bytes(v).len() ==> padded(v, len)[i] == 0,
        be_bytes(v).len() <= len ==> padded(v, len).skip(len - be_bytes(v).len()) == be_bytes(v),
        be_bytes(v).len() > len ==> padded(v, len) == be_bytes(v),
{
    if be_bytes(v).len() <= len {
        assert(padded(v, len).skip(len - be_bytes(v).len()) =~= be_bytes(v));
    }
}

/// Encryption of the RSA-based scheme adds to each byte the keystream byte at its place under
/// the first sixteen bytes of the key.
pub proof fn keystream_is_added(key: Seq<u8>, iv: Seq<u8>, data: Seq<u8>, i: int)
    requires
        0 <= i < data.len(),
    ensures
        ofb_applied(key, iv, data).len() == data.len(),
        ofb_applied(key, iv, data)[i] == data[i] ^ aes128_ofb_mask(
            key.subrange(0, 16),
            iv,
            i as nat,
        ),
{
}

/// A server of the RSA-based scheme changes its key, and nothing else, where its part of the
/// body opens to its own key; and the part for each server stands at 80 times its place.
pub proof fn key_changes_replace_one_key(
    srv: ServerState,
    body: Seq<u8>,
    i: int,
    old: Seq<u8>,
    new: Seq<u8>,
)
    requires
        0 <= i,
        (i + 1) * 80 <= body.len(),
        old.len() == 32,
        new.len() == 32,
        ofb_applied(
            srv.h_i,
            body.subrange(i * 80, i * 80 + 16),
            body.subrange(i * 80 + 16, i * 80 + 80),
        ) == old + new,
    ensures
        takes_change(srv, body, i) <==> old == srv.h_i,
        after_change(srv, body, i) == if old == srv.h_i {
            ServerState { h_i: new, ..srv }
        } else {
            srv
        },
{
    let ch = body.subrange(i * 80, i * 80 + 80);
    assert(ch.subrange(0, 16) =~= body.subrange(i * 80, i * 80 + 16));
    assert(ch.subrange(16, 80) =~= body.subrange(i * 80 + 16, i * 80 + 80));
    assert((old + new).subrange(0, 32) =~= old);
    assert((old + new).subrange(32, 64) =~= new);
}

/// One more server adds 80 bytes to the body of an update: a fresh vector, and under the
/// server's old key the old key and the new one.
pub proof fn key_changes_have_their_layout(h_old: Seq<u8>, h_new: Seq<u8>, n: nat, rng: RngState)
    ensures
        ({
            let id = (n + 1) as u32;
            let old = sha256(h_old + decimal(id as nat));
            let new = sha256(h_new + decimal(id as nat));
            let iv = after_ivs(rng, n).bytes(16);
            &&& update_body(h_old, h_new, n + 1, rng) == update_body(h_old, h_new, n, rng) + (iv
                + ofb_applied(old, iv, old + new))
            &&& update_body(h_old, h_new, 0, rng) == Seq::<u8>::empty()
            &&& after_ivs(rng, n + 1) == after_ivs(rng, n).skip(16)
        }),
{
}

/// The public key of the SSH agent is the name of its kind, the exponent and the modulus, each
/// as a field; a number has a leading zero where its first bit is set.
pub proof fn ssh_keys_have_their_layout(pk: ShoupPublicKey, n: nat)
    ensures
        key_bytes(pk) == field("ssh-rsa".spec_bytes()) + field(mpint_bytes(pk.e@)) + field(
            mpint_bytes(pk.n@),
        ),
        be_bytes(n)[0] >= 128 ==> mpint_bytes(n) == seq![0u8] + be_bytes(n),
        be_bytes(n)[0] < 128 ==> mpint_bytes(n) == be_bytes(n),
        mpint_bytes(n).len() > 0 && mpint_bytes(n)[0] < 128,
        be_nat(mpint_bytes(n)) == n,
{
    lemma_be_nat_of_be_bytes(n);
    crate::bignum::lemma_be_nat_leading_zeros(seq![0u8], be_bytes(n));
}

/// The SSH agent lists its one key, signs only with that key and the flag two, and refuses
/// everything else with the byte five.
pub proof fn ssh_requests_are_answered(
    key: Seq<u8>,
    other: Seq<u8>,
    data: Seq<u8>,
    flags: u32,
    rest: Seq<u8>,
    command: u8,
)
    requires
        key.len() <= u32::MAX,
        other.len() <= u32::MAX,
        data.len() <= u32::MAX,
        command != 11,
        command != 13,
    ensures
        asked(key, seq![11u8] + rest) == Asked::Answer(
            seq![12u8] + be32(1) + field(key) + field("PAS-TA-U Shoup RSA-2048".spec_bytes()),
        ),
        asked(key, Seq::empty()) == Asked::Answer(seq![5u8]),
        asked(key, seq![command] + rest) == Asked::Answer(seq![5u8]),
        asked(key, seq![13u8] + field(other) + field(data) + be32(flags as nat)) == if other == key
            && flags == 2 {
            Asked::Sign(data)
        } else {
            Asked::Answer(seq![5u8])
        },
        sign_request(key, data) == seq![13u8] + field(key) + field(data) + be32(2),
{
    assert((seq![11u8] + rest)[0] == 11);
    assert((seq![command] + rest)[0] == command);
    let head = seq![13u8];
    let tail = be32(flags as nat);
    let packet = head + field(other) + field(data) + tail;
    assert(packet[0] == 13);
    field_reads_back(head, other, field(data) + tail);
    assert(head + field(other) + (field(data) + tail) =~= packet);
    field_reads_back(head + field(other), data, tail);
    be32_reads_back(flags as nat);
    let q = packet.len() - 4;
    assert(packet.subrange(q, q + 4) =~= tail);
}

/// The answer with a signature is the byte fourteen and, as one field, the name of its kind and
/// the signature filled up to the length of the modulus.
pub proof fn ssh_signatures_have_their_layout(sig: nat, len: nat)
    ensures
        signed_answer(sig, len) == seq![14u8] + field(
            field("rsa-sha2-256".spec_bytes()) + field(padded(sig, len)),
        ),
{
}

/// Measurements of the SSH agent are taken after the warmup and until there are enough.
pub proof fn ssh_measurements_follow_warmup(count: nat, warmup: nat, taken: nat, samples: nat)
    ensures
        measured(count, warmup, taken, samples) <==> warmup < count && taken < samples,
{
}

/// The seeds of servers and clients hold their numbers, eight bytes each.
pub proof fn seeds_hold_their_numbers(id: u64, n: u64, t: u64, tag: Seq<u8>)
    requires
        tag.len() == 8,
    ensures
        server_seed(id, n, t).len() == 32,
        u64_of_le(server_seed(id, n, t).subrange(0, 8)) == id,
        u64_of_le(server_seed(id, n, t).subrange(8, 16)) == n,
        u64_of_le(server_seed(id, n, t).subrange(16, 24)) == t,
        client_seed(n, t, tag).len() == 32,
        u64_of_le(client_seed(n, t, tag).subrange(0, 8)) == n,
        u64_of_le(client_seed(n, t, tag).subrange(8, 16)) == t,
        client_seed(n, t, tag).subrange(16, 24) == tag,
        forall|i: int|
            24 <= i < 32 ==> #[trigger] server_seed(id, n, t)[i] == 0 && client_seed(n, t, tag)[i]
                == 0,
{
    vstd::bytes::lemma_auto_spec_u64_to_from_le_bytes();
    let s = server_seed(id, n, t);
    let c = client_seed(n, t, tag);
    assert(s.subrange(0, 8) =~= u64_le(id));
    assert(s.subrange(8, 16) =~= u64_le(n));
    assert(s.subrange(16, 24) =~= u64_le(t));
    assert(c.subrange(0, 8) =~= u64_le(n));
    assert(c.subrange(8, 16) =~= u64_le(t));
    assert(c.subrange(16, 24) =~= tag);
}

/// The value of an argument is what stands behind its first occurrence.
pub proof fn first_argument_counts(args: Seq<Seq<char>>, name: Seq<char>, i: int)
    requires
        0 <= i,
    ensures
        match arg_place(args, name, i) {
            Some(p) => i <= p < args.len() - 1 && args[p] == name && forall|k: int|
                i <= k < p ==> #[trigger] args[k] != name,
            None => forall|k: int| i <= k < args.len() - 1 ==> #[trigger] args[k] != name,
        },
        arg_place(args, name, 0) matches Some(p) ==> arg_value(args, name) == Some(args[p + 1]),
        arg_place(args, name, 0) is None ==> arg_value(args, name) is None,
    decreases args.len() - i,
{
    if i + 1 < args.len() && args[i] != name {
        first_argument_counts(args, name, i + 1);
    }
}

/// A file of samples gives one number for each of its lines, in order, and is refused at the
/// first line that is none. An empty end of the file is no line.
pub proof fn samples_are_read_by_line(v: Seq<Seq<char>>, k: int, s: Seq<char>)
    requires
        0 <= k <= v.len(),
    ensures
        match samples_in(v, k) {
            Ok(x) => x.len() == k && forall|i: int|
                0 <= i < k ==> parsed(trim(#[trigger] v[i]), u128::MAX as nat) == Some(x[i]),
            Err(p) => 0 <= p < k && parsed(trim(v[p]), u128::MAX as nat) is None && forall|i: int|
                0 <= i < p ==> parsed(trim(#[trigger] v[i]), u128::MAX as nat) is Some,
        },
        lines(s) == if split(s, '\n').last().len() == 0 {
            split(s, '\n').drop_last()
        } else {
            split(s, '\n')
        },
    decreases k,
{
    crate::text_law::split_parts_join_to_text(s, '\n');
    if k > 0 {
        samples_are_read_by_line(v, k - 1, s);
        if samples_in(v, k - 1) is Ok && samples_in(v, k) is Ok {
            let x = samples_in(v, k)->Ok_0;
            let y = samples_in(v, k - 1)->Ok_0;
            assert forall|i: int| 0 <= i < k implies parsed(trim(#[trigger] v[i]), u128::MAX as nat)
                == Some(x[i]) by {
                if i < k - 1 {
                    assert(x[i] == y[i]);
                }
            }
        }
    }
}

} // verus!
