//! A client of the RSA-based scheme whose servers are behind connections: its requests, and
//! what it makes of the replies.
use vstd::arithmetic::power::pow;
use vstd::prelude::*;

use crate::augsso_fixture::{first_ids, make_first_ids};
use crate::bignum::{be_bytes, be_nat, bytes_needed, lemma_be_nat_of_be_bytes, Nat};
use crate::bytes::push_bytes;
use crate::modp_toprf::{toprf_combine, unblinded_value, value_hash, weights_exist};
use crate::modp_toprf::ToprfParams;
use crate::paper_agent::{
    opens_partial, status, AgentError, PaperAgent, CMD_TOKEN, CMD_TOPRF, CMD_UPDATE,
};
use crate::paper_hash::{aes128_ofb_apply, derive_hi, ofb_applied, server_key};
use crate::paper_math::{clears, clears_denominators, invertible, nat_vals};
use crate::paper_protocol::{
    encrypted_partial, representative, signed_message, Fixture, ServerState, TokenResponse,
};
use crate::shoup::{
    combined_signature, emsa_pkcs1_v1_5_sha256, partial_ids, partial_nums, partial_value,
    shoup_combine, CryptoError, ShoupPartial, ShoupPublicKey,
};
use crate::wire::{
    decode_token_response, field, field_at, field_reads_back, put_bytes, token_response_bytes,
    token_response_in, token_response_reads_back, WireError,
};

verus! {

/// The request for a value of the password function.
pub fn toprf_frame(enc: &Nat) -> (r: Vec<u8>)
    ensures
        r@ == seq![CMD_TOPRF] + be_bytes(enc@),
{
    let mut r: Vec<u8> = Vec::new();
    r.push(CMD_TOPRF);
    push_bytes(&mut r, enc.to_bytes_be().as_slice());
    assert(r@ =~= seq![CMD_TOPRF] + be_bytes(enc@));
    r
}

/// A command with two fields.
pub open spec fn two_fields(command: u8, a: Seq<u8>, b: Seq<u8>) -> Seq<u8> {
    seq![command] + field(a) + field(b)
}

fn make_two_fields(command: u8, a: &[u8], b: &[u8]) -> (r: Vec<u8>)
    ensures
        r@ == two_fields(command, a@, b@),
{
    let mut r: Vec<u8> = Vec::new();
    r.push(command);
    put_bytes(&mut r, a);
    put_bytes(&mut r, b);
    assert(r@ =~= two_fields(command, a@, b@));
    r
}

/// The request for a partial token.
pub fn token_frame(enc: &Nat, payload: &[u8]) -> (r: Vec<u8>)
    ensures
        r@ == two_fields(CMD_TOKEN, be_bytes(enc@), payload@),
{
    make_two_fields(CMD_TOKEN, enc.to_bytes_be().as_slice(), payload)
}

/// The request to change the key.
pub fn update_frame(sig: &Nat, body: &[u8]) -> (r: Vec<u8>)
    ensures
        r@ == two_fields(CMD_UPDATE, be_bytes(sig@), body@),
{
    make_two_fields(CMD_UPDATE, sig.to_bytes_be().as_slice(), body)
}

/// Byte strings as sequences.
pub open spec fn frames(v: Seq<Vec<u8>>) -> Seq<Seq<u8>> {
    Seq::new(v.len(), |i: int| v[i]@)
}

/// Whether every server took a request.
pub fn all_took(acks: &Vec<Vec<u8>>) -> (r: bool)
    ensures
        r == forall|i: int| 0 <= i < acks@.len() ==> (#[trigger] acks@[i])@ == status(true),
{
    let mut i: usize = 0;
    while i < acks.len()
        invariant
            i <= acks@.len(),
            forall|k: int| 0 <= k < i ==> (#[trigger] acks@[k])@ == status(true),
        decreases acks@.len() - i,
    {
        let a = &acks[i];
        let ok = a.len() == 1 && a[0] == 1;
        assert(ok == (a@ == status(true))) by {
            if ok {
                assert(a@ =~= status(true));
            }
        }
        if !ok {
            return false;
        }
        i = i + 1;
    }
    true
}

/// The numbers in replies.
pub open spec fn reply_values(replies: Seq<Seq<u8>>) -> Seq<int> {
    Seq::new(replies.len(), |i: int| be_nat(replies[i]) as int)
}

/// The value of the password function that the replies of the first servers give.
pub fn finish_round(params: &ToprfParams, password: &[u8], rho: &Nat, replies: &Vec<Vec<u8>>) -> (r:
    Result<[u8; 32], CryptoError>)
    requires
        params.usable(),
        params.order@ >= u32::MAX,
        replies@.len() <= u32::MAX,
    ensures
        ({
            let ids = first_ids(replies@.len());
            let fine = weights_exist(ids, params.order@ as int) && invertible(
                rho@ as int,
                params.order@ as int,
            );
            match r {
                Ok(h) => fine && h@ == value_hash(
                    password@,
                    unblinded_value(
                        *params,
                        rho@ as int,
                        ids,
                        reply_values(frames(replies@)),
                    ),
                ),
                Err(e) => e is NoInverse && !fine,
            }
        }),
{
    let ids = make_first_ids(replies.len());
    let mut values: Vec<Nat> = Vec::with_capacity(replies.len());
    let mut k: usize = 0;
    while k < replies.len()
        invariant
            k <= replies@.len(),
            values@.len() == k,
            forall|i: int| 0 <= i < k ==> (#[trigger] values@[i])@ == be_nat(replies@[i]@),
        decreases replies@.len() - k,
    {
        values.push(Nat::from_bytes_be(replies[k].as_slice()));
        k = k + 1;
    }
    assert(nat_vals(values@) =~= reply_values(frames(replies@)));
    toprf_combine(params, password, rho, ids.as_slice(), values.as_slice())
}

/// Why no token came out of the replies.
#[derive(Clone, Copy, Debug, PartialEq, Eq, Structural)]
pub enum TokenFault {
    /// A reply could not be read.
    Wire(WireError),
    /// An inverse does not exist.
    NoInverse,
    /// The modulus is too short for the encoding of a message.
    Representative,
    /// The servers that replied cannot be combined.
    Denominators,
}

/// What the readable replies say: servers, values, encrypted parts and vectors.
pub struct Replies {
    pub ids: Seq<u32>,
    pub values: Seq<int>,
    pub parts: Seq<Seq<u8>>,
    pub ivs: Seq<Seq<u8>>,
}

/// What the first `k` replies say, or why the first that cannot be read cannot.
pub open spec fn read_replies(replies: Seq<Seq<u8>>, k: int) -> Result<Replies, WireError>
    decreases k,
{
    if k <= 0 {
        Ok(
            Replies {
                ids: Seq::empty(),
                values: Seq::empty(),
                parts: Seq::empty(),
                ivs: Seq::empty(),
            },
        )
    } else {
        match read_replies(replies, k - 1) {
            Err(e) => Err(e),
            Ok(v) => match token_response_in(replies[k - 1]) {
                Err(e) => Err(e),
                Ok((id, z, part, iv)) => Ok(
                    Replies {
                        ids: v.ids.push(id),
                        values: v.values.push(z as int),
                        parts: v.parts.push(part),
                        ivs: v.ivs.push(iv),
                    },
                ),
            },
        }
    }
}

/// The partial signatures as they open under the function value `h`.
pub open spec fn opened_partials(v: Replies, h: Seq<u8>) -> Seq<int> {
    Seq::new(
        v.ids.len(),
        |i: int| be_nat(ofb_applied(server_key(h, v.ids[i]), v.ivs[i], v.parts[i])) as int,
    )
}

/// The factorial clears the denominators of all servers.
pub open spec fn all_clear(delta: int, ids: Seq<u32>) -> bool {
    forall|i: int| 0 <= i < ids.len() ==> clears(delta, #[trigger] ids[i], ids)
}

/// The token that replies give, or why they give none.
pub open spec fn token_from(
    fx: Fixture,
    password: Seq<u8>,
    payload: Seq<u8>,
    rho: int,
    replies: Seq<Seq<u8>>,
) -> Result<int, TokenFault> {
    let pk = fx.ttg.public;
    let q = fx.top.params.order@ as int;
    match read_replies(replies, replies.len() as int) {
        Err(e) => Err(TokenFault::Wire(e)),
        Ok(v) => if !weights_exist(v.ids, q) || !invertible(rho, q) {
            Err(TokenFault::NoInverse)
        } else if bytes_needed(pk.n@) < 62 {
            Err(TokenFault::Representative)
        } else if !all_clear(pk.delta@ as int, v.ids) {
            Err(TokenFault::Denominators)
        } else {
            let h = value_hash(
                password,
                unblinded_value(fx.top.params, rho, v.ids, v.values),
            );
            match combined_signature(
                pk.n@ as int,
                pk.e@ as int,
                pk.delta@ as int,
                representative(pk.n@, payload, fx.client_id@) as int,
                v.ids,
                opened_partials(v, h),
            ) {
                None => Err(TokenFault::NoInverse),
                Some(y) => Ok(y),
            }
        },
    }
}

proof fn lemma_reply_error(replies: Seq<Seq<u8>>, k: int, n: int)
    requires
        0 <= k <= n,
    ensures
        read_replies(replies, k) matches Err(e) ==> read_replies(replies, n) == Err::<
            Replies,
            WireError,
        >(e),
    decreases n - k,
{
    if k < n {
        lemma_reply_error(replies, k + 1, n);
    }
}

/// Makes a token of replies.
#[verifier::rlimit(40)]
pub fn finish_token(
    fx: &Fixture,
    password: &[u8],
    payload: &[u8],
    rho: &Nat,
    replies: &Vec<Vec<u8>>,
) -> (r: Result<Nat, TokenFault>)
    requires
        fx.usable(),
    ensures
        match r {
            Ok(y) => token_from(*fx, password@, payload@, rho@ as int, frames(replies@)) == Ok::<
                int,
                TokenFault,
            >(y@ as int),
            Err(e) => token_from(*fx, password@, payload@, rho@ as int, frames(replies@)) == Err::<
                int,
                TokenFault,
            >(e),
        },
{
    let ghost g = frames(replies@);
    let pk = &fx.ttg.public;
    let mut responses: Vec<TokenResponse> = Vec::new();
    let mut ids: Vec<u32> = Vec::new();
    let mut values: Vec<Nat> = Vec::new();
    let mut k: usize = 0;
    let ghost mut read = read_replies(g, 0)->Ok_0;
    proof {
        assert(ids@ =~= read.ids);
        assert(nat_vals(values@) =~= read.values);
    }
    while k < replies.len()
        invariant
            k <= replies@.len(),
            g == frames(replies@),
            read_replies(g, k as int) == Ok::<Replies, WireError>(read),
            ids@ == read.ids,
            nat_vals(values@) == read.values,
            responses@.len() == k,
            read.ids.len() == k,
            read.parts.len() == k,
            read.ivs.len() == k,
            forall|i: int|
                0 <= i < k ==> (#[trigger] responses@[i]).id == read.ids[i]
                    && responses@[i].encrypted_partial@ == read.parts[i] && responses@[i].iv@
                    == read.ivs[i],
        decreases replies@.len() - k,
    {
        assert(g[k as int] == replies@[k as int]@);
        proof {
            lemma_reply_error(g, k + 1, g.len() as int);
        }
        let resp = match decode_token_response(replies[k].as_slice()) {
            Ok(resp) => resp,
            Err(e) => {
                return Err(TokenFault::Wire(e));
            },
        };
        let ghost vals = nat_vals(values@);
        ids.push(resp.id);
        values.push(resp.z_i.copy());
        proof {
            assert(nat_vals(values@) =~= vals.push(resp.z_i@ as int));
            read = read_replies(g, k + 1)->Ok_0;
        }
        responses.push(resp);
        k = k + 1;
    }
    let h = match toprf_combine(
        &fx.top.params,
        password,
        rho,
        ids.as_slice(),
        values.as_slice(),
    ) {
        Ok(h) => h,
        Err(_) => {
            return Err(TokenFault::NoInverse);
        },
    };
    let message = signed_message(payload, fx.client_id.as_slice());
    let rep = match emsa_pkcs1_v1_5_sha256(message.as_slice(), pk.n.byte_len()) {
        Ok(rep) => rep,
        Err(_) => {
            return Err(TokenFault::Representative);
        },
    };
    let mut i: usize = 0;
    while i < ids.len()
        invariant
            i <= ids@.len(),
            ids@ == read.ids,
            g == frames(replies@),
            *pk == fx.ttg.public,
            read_replies(g, g.len() as int) == Ok::<Replies, WireError>(read),
            weights_exist(read.ids, fx.top.params.order@ as int),
            invertible(rho@ as int, fx.top.params.order@ as int),
            bytes_needed(pk.n@) >= 62,
            forall|j: int| 0 <= j < i ==> clears(pk.delta@ as int, #[trigger] ids@[j], ids@),
        decreases ids@.len() - i,
    {
        if !clears_denominators(&pk.delta, ids[i], ids.as_slice()) {
            assert(!clears(pk.delta@ as int, ids@[i as int], ids@));
            return Err(TokenFault::Denominators);
        }
        i = i + 1;
    }
    let ghost nums = opened_partials(read, h@);
    let mut partials: Vec<ShoupPartial> = Vec::with_capacity(responses.len());
    let mut j: usize = 0;
    while j < responses.len()
        invariant
            j <= responses@.len(),
            responses@.len() == read.ids.len(),
            read.parts.len() == read.ids.len(),
            read.ivs.len() == read.ids.len(),
            nums == opened_partials(read, h@),
            partials@.len() == j,
            forall|q: int|
                0 <= q < responses@.len() ==> (#[trigger] responses@[q]).id == read.ids[q]
                    && responses@[q].encrypted_partial@ == read.parts[q] && responses@[q].iv@
                    == read.ivs[q],
            forall|q: int|
                0 <= q < j ==> (#[trigger] partials@[q]).id == read.ids[q] && partials@[q].value@
                    == nums[q],
        decreases responses@.len() - j,
    {
        let id = responses[j].id;
        let h_i = derive_hi(&h, id);
        let mut data = crate::bytes::copy_bytes(responses[j].encrypted_partial.as_slice());
        aes128_ofb_apply(&h_i, &responses[j].iv, data.as_mut_slice());
        partials.push(ShoupPartial { id, value: Nat::from_bytes_be(data.as_slice()) });
        j = j + 1;
    }
    proof {
        assert(partial_ids(partials@) =~= ids@);
        assert(partial_nums(partials@) =~= nums);
        assert forall|q: int| 0 <= q < partials@.len() implies clears(
            pk.delta@ as int,
            (#[trigger] partials@[q]).id,
            partial_ids(partials@),
        ) by {
            assert(clears(pk.delta@ as int, ids@[q], ids@));
        }
        assert(all_clear(pk.delta@ as int, read.ids));
    }
    match shoup_combine(pk, &rep, partials.as_slice()) {
        Ok(y) => Ok(y),
        Err(_) => Err(TokenFault::NoInverse),
    }
}

/// A server understands the two fields of a command.
pub proof fn two_fields_read_back(command: u8, a: Seq<u8>, b: Seq<u8>)
    requires
        a.len() <= u32::MAX,
        b.len() <= u32::MAX,
    ensures
        ({
            let frame = two_fields(command, a, b);
            &&& frame[0] == command
            &&& field_at(frame, 1) == Ok::<(Seq<u8>, int), WireError>((a, 5 + a.len() as int))
            &&& field_at(frame, 5 + a.len() as int) == Ok::<(Seq<u8>, int), WireError>(
                (b, frame.len() as int),
            )
        }),
{
    let head = seq![command];
    let frame = two_fields(command, a, b);
    field_reads_back(head, a, field(b));
    assert(head + field(a) + field(b) =~= frame);
    field_reads_back(head + field(a), b, Seq::empty());
    assert(head + field(a) + field(b) + Seq::<u8>::empty() =~= frame);
}

/// A server asked for a partial token answers with its value for the blinded password and
/// its encrypted partial signature.
pub proof fn servers_answer_token_requests(a: PaperAgent, enc: nat, payload: Seq<u8>)
    requires
        be_bytes(enc).len() <= u32::MAX,
        payload.len() <= u32::MAX,
        bytes_needed(a.fx.ttg.public.n@) >= 62,
    ensures
        ({
            let iv = a.rng@.bytes(16);
            let pk = a.fx.ttg.public;
            let z = pow(enc as int, a.server@.top) % (a.fx.top.params.modulus@ as int);
            let rep = representative(pk.n@, payload, a.fx.client_id@);
            a.answer(two_fields(CMD_TOKEN, be_bytes(enc), payload)).reply == Ok::<
                (Seq<u8>, bool),
                AgentError,
            >(
                (
                    token_response_bytes(
                        (a.place + 1) as u32,
                        z as nat,
                        encrypted_partial(pk, a.server@, rep, iv),
                        iv,
                    ),
                    false,
                ),
            )
        }),
{
    two_fields_read_back(CMD_TOKEN, be_bytes(enc), payload);
    lemma_be_nat_of_be_bytes(enc);
}

/// A server takes an update exactly if its body is signed, has a part for every server, and
/// the server's own part holds the server's key; it then has the new key of that part.
pub proof fn servers_take_signed_updates(a: PaperAgent, sig: nat, body: Seq<u8>)
    requires
        be_bytes(sig).len() <= u32::MAX,
        body.len() <= u32::MAX,
        bytes_needed(a.fx.ttg.public.n@) >= 62,
    ensures
        ({
            let got = a.answer(two_fields(CMD_UPDATE, be_bytes(sig), body));
            &&& got.reply == Ok::<(Seq<u8>, bool), AgentError>(
                (status(a.takes_body(sig, body)), false),
            )
            &&& a.takes_body(sig, body) ==> got.server == crate::paper_protocol::after_change(
                a.server@,
                body,
                a.place as int,
            )
            &&& !a.takes_body(sig, body) ==> got.server == a.server@
        }),
{
    two_fields_read_back(CMD_UPDATE, be_bytes(sig), body);
    lemma_be_nat_of_be_bytes(sig);
}

/// Reply `k` comes from the server with the number `k + 1` and state `srv`.
pub open spec fn honest_reply(
    pk: ShoupPublicKey,
    srv: ServerState,
    rep: nat,
    k: int,
    z: nat,
    iv: Seq<u8>,
    reply: Seq<u8>,
) -> bool {
    &&& reply == token_response_bytes(
        (k + 1) as u32,
        z,
        encrypted_partial(pk, srv, rep, iv),
        iv,
    )
    &&& iv.len() == 16
    &&& be_bytes(z).len() <= u32::MAX
    &&& encrypted_partial(pk, srv, rep, iv).len() <= u32::MAX
    &&& opens_partial(pk, srv, rep, iv)
}

/// From the replies of the first servers, whose keys are those of the function value, the
/// client reads their values and opens exactly their partial signatures.
pub proof fn honest_replies_open(
    pk: ShoupPublicKey,
    servers: Seq<ServerState>,
    rep: nat,
    zs: Seq<nat>,
    ivs: Seq<Seq<u8>>,
    replies: Seq<Seq<u8>>,
    h: Seq<u8>,
    n: int,
)
    requires
        0 <= n <= servers.len(),
        n <= u32::MAX,
        zs.len() == servers.len(),
        ivs.len() == servers.len(),
        replies.len() == servers.len(),
        forall|k: int|
            0 <= k < n ==> honest_reply(
                pk,
                #[trigger] servers[k],
                rep,
                k,
                zs[k],
                ivs[k],
                replies[k],
            ) && servers[k].h_i == server_key(h, (k + 1) as u32),
    ensures
        read_replies(replies, n) matches Ok(v) && {
            &&& v.ids == first_ids(n as nat)
            &&& v.values == Seq::new(n as nat, |k: int| zs[k] as int)
            &&& v.parts.len() == n
            &&& v.ivs.len() == n
            &&& opened_partials(v, h) == Seq::new(
                n as nat,
                |k: int| partial_value(rep, pk.delta@, servers[k].ttg, pk.n@) as int,
            )
        },
    decreases n,
{
    if n == 0 {
        let v = read_replies(replies, 0)->Ok_0;
        assert(v.ids =~= first_ids(0));
        assert(v.values =~= Seq::new(0, |k: int| zs[k] as int));
        assert(opened_partials(v, h) =~= Seq::new(
            0,
            |k: int| partial_value(rep, pk.delta@, servers[k].ttg, pk.n@) as int,
        ));
    } else {
        honest_replies_open(pk, servers, rep, zs, ivs, replies, h, n - 1);
        let before = read_replies(replies, n - 1)->Ok_0;
        let srv = servers[n - 1];
        let part = encrypted_partial(pk, srv, rep, ivs[n - 1]);
        token_response_reads_back(n as u32, zs[n - 1], part, ivs[n - 1]);
        let v = read_replies(replies, n)->Ok_0;
        assert(v.ids =~= first_ids(n as nat));
        assert(v.values =~= Seq::new(n as nat, |k: int| zs[k] as int));
        let want = Seq::new(
            n as nat,
            |k: int| partial_value(rep, pk.delta@, servers[k].ttg, pk.n@) as int,
        );
        assert forall|k: int| 0 <= k < n implies #[trigger] opened_partials(v, h)[k] == want[k] by {
            if k < n - 1 {
                assert(opened_partials(before, h)[k] == want[k]);
                assert(v.ids[k] == before.ids[k]);
                assert(v.parts[k] == before.parts[k]);
                assert(v.ivs[k] == before.ivs[k]);
            } else {
                assert(v.parts[k] == part);
                assert(v.ivs[k] == ivs[k]);
            }
        }
        assert(opened_partials(v, h) =~= want);
    }
}

} // verus!
