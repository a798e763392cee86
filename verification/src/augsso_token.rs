//! The second round of an authentication: partial tokens and their combination.
use vstd::prelude::*;
use vstd::string::StringSliceAdditionalSpecFns;

use crate::aead::{self, opened, sealed, Blob, CtBlob};
use crate::augsso::{
    keyed, AugSsoServer, ServerState, CTCH_PT_LEN, CTTKN_PT_LEN, PLD_LEN,
};
use crate::augsso_auth::{
    key_ids, key_of, no_aad, ClientPhase1Out, ClientState, ServerSession,
};
use crate::bls::{
    g1_from_bytes, g1_mul, g1_to_bytes, g1_valid, g2_of, order, pairing_check_sig, signature_holds,
    G1, G2,
};
use crate::bytes::{self, cat2};
use crate::crypto_augsso::{combine_g1_at_zero, hash_to_g1, hashed_g1};
use crate::field::distinct;
use crate::group::{combined_at_zero, encs, on_polynomial, Group};
use crate::ids::{
    find_id, find_last_id, last_place_of, lemma_sorted, place_of, same_ids, sort_ids, sorted,
};
use crate::interpolation::eval;
use crate::rng::Rng;

verus! {

/// The group element that a payload is hashed to.
pub open spec fn payload_g1(pld: Seq<u8>) -> Seq<u8> {
    hashed_g1("augsso/H_pld/v1".spec_bytes(), pld)
}

/// A server's encrypted partial token.
#[derive(Clone, Copy, Debug)]
pub struct ServerResponse2 {
    pub server_id: u32,
    pub ct_tkn: CtBlob<CTTKN_PT_LEN>,
}

/// What a second response holds.
#[verifier::ext_equal]
pub struct Response2 {
    pub server_id: u32,
    pub ct_tkn: Blob,
}

impl View for ServerResponse2 {
    type V = Response2;

    open spec fn view(&self) -> Response2 {
        Response2 { server_id: self.server_id, ct_tkn: self.ct_tkn@ }
    }
}

/// The plaintext of a second response: the partial token and the payload.
pub open spec fn token_plain(srv: ServerState, pld: Seq<u8>) -> Seq<u8> {
    g1_mul(payload_g1(pld), srv.gamma_i) + pld
}

/// The second response with a nonce from `rng`.
pub fn respond2(
    srv: &AugSsoServer,
    sess: &ServerSession,
    ct_ch: &CtBlob<CTCH_PT_LEN>,
    rng: &mut Rng,
) -> (r: Option<ServerResponse2>)
    ensures
        r is Some <==> opened(sess.ek@, no_aad(), ct_ch@) == Some(sess.ch@),
        r matches Some(resp) ==> resp@ == (Response2 {
            server_id: srv@.id,
            ct_tkn: sealed(
                sess.ek@,
                no_aad(),
                token_plain(srv@, sess.pld@),
                old(rng)@.bytes(24),
            ),
        }),
        final(rng)@ == old(rng)@.skip(24),
{
    let nonce = rng.take_array::<24>();
    respond2_with_nonce(srv, sess, ct_ch, &nonce)
}

/// The second response with the given nonce. It comes exactly where the client returned
/// the challenge, and the client can open it.
pub fn respond2_with_nonce(
    srv: &AugSsoServer,
    sess: &ServerSession,
    ct_ch: &CtBlob<CTCH_PT_LEN>,
    nonce: &[u8; 24],
) -> (r: Option<ServerResponse2>)
    ensures
        r is Some <==> opened(sess.ek@, no_aad(), ct_ch@) == Some(sess.ch@),
        r matches Some(resp) ==> {
            &&& resp@ == (Response2 {
                server_id: srv@.id,
                ct_tkn: sealed(sess.ek@, no_aad(), token_plain(srv@, sess.pld@), nonce@),
            })
            &&& opened(sess.ek@, no_aad(), resp@.ct_tkn) == Some(token_plain(srv@, sess.pld@))
            &&& g1_valid(g1_mul(payload_g1(sess.pld@), srv@.gamma_i))
            &&& g1_valid(payload_g1(sess.pld@))
            &&& g1_mul(payload_g1(sess.pld@), srv@.gamma_i).len() == 48
        },
{
    let aad: [u8; 0] = [];
    assert(aad@ =~= no_aad());
    let ch_recv = match aead::xchacha_decrypt_detached(&sess.ek, &aad, ct_ch) {
        Ok(ch) => ch,
        Err(_) => {
            return None;
        },
    };
    if !bytes::same_bytes(&ch_recv, &sess.ch) {
        return None;
    }
    let h_pld = hash_to_g1("augsso/H_pld/v1".as_bytes(), &sess.pld);
    let tkn_i: G1 = h_pld.scale(srv.gamma_i);
    let tkn_bytes = g1_to_bytes(&tkn_i);
    let both = cat2(&tkn_bytes, &sess.pld);
    let pt = bytes::to_array::<CTTKN_PT_LEN>(both.as_slice());
    let blob = aead::xchacha_encrypt_detached_with_nonce(&sess.ek, &aad, &pt, nonce);
    Some(ServerResponse2 { server_id: srv.id, ct_tkn: blob })
}

/// A token for a payload.
#[derive(Clone, Copy, Debug)]
pub struct Token {
    pub pld: [u8; PLD_LEN],
    pub tkn: [u8; 48],
}

/// What a list of second responses holds.
pub open spec fn responses2(s: Seq<ServerResponse2>) -> Seq<Response2> {
    Seq::new(s.len(), |i: int| s[i]@)
}

/// The servers of a list of second responses.
pub open spec fn responders2(s: Seq<Response2>) -> Seq<u32> {
    Seq::new(s.len(), |i: int| s[i].server_id)
}

/// The second response of the server `sid`.
pub open spec fn response2_of(s: Seq<Response2>, sid: u32) -> Response2 {
    s[place_of(responders2(s), sid)->Some_0]
}

/// Session keys by server.
pub open spec fn session_keys(ek: Seq<(u32, [u8; 32])>) -> Seq<(u32, Seq<u8>)> {
    Seq::new(ek.len(), |i: int| (ek[i].0, ek[i].1@))
}

/// The session key kept last for the server `sid`.
pub open spec fn session_key_of(eks: Seq<(u32, Seq<u8>)>, sid: u32) -> Seq<u8> {
    eks[last_place_of(key_ids(eks), sid)->Some_0].1
}

/// The plaintext of the second response of the server `sid`.
pub open spec fn opened_token(
    s: Seq<Response2>,
    eks: Seq<(u32, Seq<u8>)>,
    sid: u32,
) -> Option<Seq<u8>> {
    opened(session_key_of(eks, sid), no_aad(), response2_of(s, sid).ct_tkn)
}

/// The partial token of the server `sid`.
pub open spec fn partial_token(
    s: Seq<Response2>,
    eks: Seq<(u32, Seq<u8>)>,
    sid: u32,
) -> Seq<u8> {
    opened_token(s, eks, sid)->Some_0.subrange(0, 48)
}

/// A second response opens under the session key, is for the payload, and holds a
/// partial token that verifies under the server's key.
pub open spec fn token_checks(
    s: Seq<Response2>,
    eks: Seq<(u32, Seq<u8>)>,
    pks: Seq<(u32, Seq<u8>)>,
    pld: Seq<u8>,
    sid: u32,
) -> bool {
    &&& last_place_of(key_ids(eks), sid) is Some
    &&& opened_token(s, eks, sid) matches Some(pt) && pt.subrange(48, 112) == pld
    &&& g1_valid(partial_token(s, eks, sid))
    &&& place_of(key_ids(pks), sid) is Some
    &&& signature_holds(payload_g1(pld), partial_token(s, eks, sid), key_of(pks, sid))
}

/// The partial tokens in the order of the servers.
pub open spec fn partial_tokens(
    s: Seq<Response2>,
    eks: Seq<(u32, Seq<u8>)>,
    ts: Seq<u32>,
) -> Seq<Seq<u8>> {
    Seq::new(ts.len(), |k: int| partial_token(s, eks, ts[k]))
}

/// The responses come from exactly the servers asked, and each partial token checks.
pub open spec fn finalize_accepts(
    t_set: Seq<u32>,
    pld: Seq<u8>,
    s: Seq<Response2>,
    eks: Seq<(u32, Seq<u8>)>,
    pks: Seq<(u32, Seq<u8>)>,
) -> bool {
    let ts = sorted(t_set);
    &&& s.len() == t_set.len()
    &&& sorted(responders2(s)) == ts
    &&& forall|k: int| 0 <= k < ts.len() ==> token_checks(s, eks, pks, pld, #[trigger] ts[k])
}

/// The responses hold the partial tokens of servers that share, on the polynomial `c`,
/// the key for tokens.
pub open spec fn honest_tokens(
    t_set: Seq<u32>,
    pld: Seq<u8>,
    s: Seq<Response2>,
    eks: Seq<(u32, Seq<u8>)>,
    pks: Seq<(u32, Seq<u8>)>,
    c: Seq<int>,
) -> bool {
    let ts = sorted(t_set);
    &&& s.len() == t_set.len()
    &&& sorted(responders2(s)) == ts
    &&& distinct(ts)
    &&& c.len() <= ts.len()
    &&& g1_valid(payload_g1(pld))
    &&& forall|k: int|
        0 <= k < ts.len() ==> {
            let a = (eval(c, ts[k] as int) % (order() as int)) as nat;
            let tkn = g1_mul(payload_g1(pld), a);
            &&& last_place_of(key_ids(eks), #[trigger] ts[k]) is Some
            &&& opened_token(s, eks, ts[k]) == Some(tkn + pld)
            &&& tkn.len() == 48
            &&& g1_valid(tkn)
            &&& place_of(key_ids(pks), ts[k]) is Some
            &&& key_of(pks, ts[k]) == g2_of(a)
        }
}

/// Checks the second responses and combines the partial tokens. Partial tokens from
/// enough servers that share one key give the token of that key.
#[verifier::rlimit(40)]
#[verifier::loop_isolation(false)]
pub fn client_finalize(
    st: &ClientState,
    phase1: &ClientPhase1Out,
    resps2: &[ServerResponse2],
    gamma_pub_shares: &[(u32, G2)],
) -> (r: Option<Token>)
    ensures
        r is Some <==> finalize_accepts(
            st.t_set@,
            st.pld@,
            responses2(resps2@),
            session_keys(phase1.ek@),
            keyed(gamma_pub_shares@),
        ),
        r matches Some(tok) ==> tok.pld == st.pld && tok.tkn@ == combined_at_zero::<G1>(
            sorted(st.t_set@),
            partial_tokens(
                responses2(resps2@),
                session_keys(phase1.ek@),
                sorted(st.t_set@),
            ),
        ) && g1_valid(tok.tkn@),
        forall|c: Seq<int>| #[trigger]
            honest_tokens(
                st.t_set@,
                st.pld@,
                responses2(resps2@),
                session_keys(phase1.ek@),
                keyed(gamma_pub_shares@),
                c,
            ) ==> (r matches Some(tok) && tok.tkn@ == g1_mul(
                payload_g1(st.pld@),
                (eval(c, 0) % (order() as int)) as nat,
            )),
{
    let ghost s = responses2(resps2@);
    let ghost eks = session_keys(phase1.ek@);
    let ghost pks = keyed(gamma_pub_shares@);
    if resps2.len() != st.t_set.len() {
        return None;
    }
    let mut ids: Vec<u32> = Vec::with_capacity(resps2.len());
    let mut i: usize = 0;
    while i < resps2.len()
        invariant
            i <= resps2@.len(),
            ids@.len() == i,
            forall|k: int| 0 <= k < i ==> ids@[k] == resps2@[k].server_id,
        decreases resps2@.len() - i,
    {
        ids.push(resps2[i].server_id);
        i = i + 1;
    }
    assert(ids@ =~= responders2(s));
    let ids_sorted = sort_ids(ids.as_slice());
    let ts = sort_ids(st.t_set.as_slice());
    if !same_ids(ids_sorted.as_slice(), ts.as_slice()) {
        return None;
    }
    proof {
        lemma_sorted(ids@);
        assert forall|k: int| 0 <= k < ts@.len() implies ids@.contains(#[trigger] ts@[k]) by {
            assert(sorted(ids@).contains(ts@[k]));
        }
    }
    let mut ek_ids: Vec<u32> = Vec::with_capacity(phase1.ek.len());
    let mut e: usize = 0;
    while e < phase1.ek.len()
        invariant
            e <= phase1.ek@.len(),
            ek_ids@.len() == e,
            forall|k: int| 0 <= k < e ==> ek_ids@[k] == phase1.ek@[k].0,
        decreases phase1.ek@.len() - e,
    {
        ek_ids.push(phase1.ek[e].0);
        e = e + 1;
    }
    assert(ek_ids@ =~= key_ids(eks));
    let mut pk_ids: Vec<u32> = Vec::with_capacity(gamma_pub_shares.len());
    let mut g: usize = 0;
    while g < gamma_pub_shares.len()
        invariant
            g <= gamma_pub_shares@.len(),
            pk_ids@.len() == g,
            forall|k: int| 0 <= k < g ==> pk_ids@[k] == gamma_pub_shares@[k].0,
        decreases gamma_pub_shares@.len() - g,
    {
        pk_ids.push(gamma_pub_shares[g].0);
        g = g + 1;
    }
    assert(pk_ids@ =~= key_ids(pks));
    let aad: [u8; 0] = [];
    assert(aad@ =~= no_aad());
    let h_pld = hash_to_g1("augsso/H_pld/v1".as_bytes(), &st.pld);
    let mut partials: Vec<G1> = Vec::with_capacity(ts.len());
    let mut k: usize = 0;
    while k < ts.len()
        invariant
            k <= ts@.len(),
            partials@.len() == k,
            forall|q: int|
                0 <= q < k ==> token_checks(s, eks, pks, st.pld@, #[trigger] ts@[q])
                    && partials@[q]@ == partial_token(s, eks, ts@[q]),
        decreases ts@.len() - k,
    {
        let sid = ts[k];
        let ghost gk = ts@[k as int];
        assert(ids@.contains(ts@[k as int]));
        let at = match find_id(ids.as_slice(), sid) {
            Some(at) => at,
            None => {
                return None;
            },
        };
        assert(s[at as int] == resps2@[at as int]@);
        assert(response2_of(s, gk) == s[at as int]);
        let ek_at = match find_last_id(ek_ids.as_slice(), sid) {
            Some(at) => at,
            None => {
                assert(!token_checks(s, eks, pks, st.pld@, ts@[k as int]));
                return None;
            },
        };
        assert(eks[ek_at as int] == (phase1.ek@[ek_at as int].0, phase1.ek@[ek_at as int].1@));
        let pt = match aead::xchacha_decrypt_detached(
            &phase1.ek[ek_at].1,
            &aad,
            &resps2[at].ct_tkn,
        ) {
            Ok(pt) => pt,
            Err(_) => {
                assert(!token_checks(s, eks, pks, st.pld@, ts@[k as int]));
                return None;
            },
        };
        assert(opened_token(s, eks, gk) == Some(pt@));
        let tkn_bytes = bytes::piece::<48>(&pt, 0);
        let pld_bytes = bytes::piece::<PLD_LEN>(&pt, 48);
        proof {
            assert forall|c: Seq<int>| #[trigger]
                honest_tokens(st.t_set@, st.pld@, s, eks, pks, c) implies pt@.subrange(48, 112)
                == st.pld@ && tkn_bytes@ == g1_mul(
                payload_g1(st.pld@),
                (eval(c, gk as int) % (order() as int)) as nat,
            ) by {
                let tkn = g1_mul(
                    payload_g1(st.pld@),
                    (eval(c, ts@[k as int] as int) % (order() as int)) as nat,
                );
                assert(pt@ == tkn + st.pld@);
                assert(pt@.subrange(0, 48) =~= tkn);
                assert(pt@.subrange(48, 112) =~= st.pld@);
            }
        }
        if !bytes::same_bytes(&pld_bytes, &st.pld) {
            assert(!token_checks(s, eks, pks, st.pld@, ts@[k as int]));
            return None;
        }
        let tkn_i: G1 = match g1_from_bytes(&tkn_bytes) {
            Some(p) => p,
            None => {
                assert(!token_checks(s, eks, pks, st.pld@, ts@[k as int]));
                return None;
            },
        };
        let pk_at = match find_id(pk_ids.as_slice(), sid) {
            Some(at) => at,
            None => {
                assert(!token_checks(s, eks, pks, st.pld@, ts@[k as int]));
                return None;
            },
        };
        assert(pks[pk_at as int] == (
            gamma_pub_shares@[pk_at as int].0,
            gamma_pub_shares@[pk_at as int].1@,
        ));
        if !pairing_check_sig(&h_pld, &tkn_i, &gamma_pub_shares[pk_at].1) {
            assert(!token_checks(s, eks, pks, st.pld@, ts@[k as int]));
            proof {
                assert forall|c: Seq<int>| !#[trigger]
                    honest_tokens(st.t_set@, st.pld@, s, eks, pks, c) by {
                    if honest_tokens(st.t_set@, st.pld@, s, eks, pks, c) {
                        let a = (eval(c, gk as int) % (order() as int)) as nat;
                        assert(key_of(pks, ts@[k as int]) == g2_of(a));
                        assert(tkn_i@ == g1_mul(h_pld@, a));
                    }
                }
            }
            return None;
        }
        partials.push(tkn_i);
        k = k + 1;
    }
    assert(encs(partials@) =~= partial_tokens(s, eks, ts@));
    assert(encs(partials@).len() == partials@.len());
    let tkn: G1 = combine_g1_at_zero(ts.as_slice(), partials.as_slice());
    proof {
        assert forall|c: Seq<int>| #[trigger]
            honest_tokens(st.t_set@, st.pld@, s, eks, pks, c) implies tkn@ == g1_mul(
            payload_g1(st.pld@),
            (eval(c, 0) % (order() as int)) as nat,
        ) by {
            let h = payload_g1(st.pld@);
            assert forall|q: int| 0 <= q < ts@.len() implies #[trigger] encs(partials@)[q]
                == g1_mul(h, (eval(c, ts@[q] as int) % (order() as int)) as nat) by {
                let t = g1_mul(h, (eval(c, ts@[q] as int) % (order() as int)) as nat);
                assert(opened_token(s, eks, ts@[q]) == Some(t + st.pld@));
                assert((t + st.pld@).subrange(0, 48) =~= t);
            }
            assert(on_polynomial::<G1>(encs(partials@), h, ts@, c));
            assert(tkn@ == G1::mul_of(h, (eval(c, 0) % (order() as int)) as nat));
        }
    }
    let tkn_bytes = g1_to_bytes(&tkn);
    Some(Token { pld: st.pld, tkn: tkn_bytes })
}

/// Verifies a token under the deployment's public key. The multiple of the hashed payload
/// by the secret key verifies.
pub fn verify_token(gamma_pk: &G2, token: &Token) -> (r: bool)
    ensures
        r == (g1_valid(token.tkn@) && signature_holds(
            payload_g1(token.pld@),
            token.tkn@,
            gamma_pk@,
        )),
        forall|a: nat|
            a < order() && g1_valid(token.tkn@) && token.tkn@ == #[trigger] g1_mul(
                payload_g1(token.pld@),
                a,
            ) && gamma_pk@ == g2_of(a) ==> r,
{
    let h_pld = hash_to_g1("augsso/H_pld/v1".as_bytes(), &token.pld);
    match g1_from_bytes(&token.tkn) {
        Some(sig) => pairing_check_sig(&h_pld, &sig, gamma_pk),
        None => false,
    }
}

} // verus!
