//! Token generation and password update of the RSA-based scheme.
use vstd::arithmetic::power::pow;
use vstd::prelude::*;
use vstd::string::StringSliceAdditionalSpecFns;

use crate::augsso_fixture::{first_ids, make_first_ids};
use crate::bignum::{be_bytes, be_nat, bytes_needed, lemma_be_nat_leading_zeros, Int, Nat};
use crate::bytes::{self, cat2, push_bytes};
use crate::modp_toprf::{
    blinding_drawn, group_order, password_element, toprf_combine, toprf_encode, toprf_eval,
    toprf_setup, unblinded_value, value_hash, weights_exist, ToprfParams, ToprfSetup, ToprfShare,
    MODP14_PRIME,
};
use crate::paper_hash::{aes128_ofb_apply, derive_hi, ofb_applied, server_key};
use crate::number_theory::{divides, is_prime};
use crate::paper_math::{clears, clears_denominators, invertible, nat_vals};
use crate::paper_law::{
    only_own_signature_verifies, own_signature_verifies, password_key, registration_holds_password,
    right_password_signature_is_fixed, servers_give_password_key,
};
use crate::rng::{Rng, RngState};
use crate::shoup::{
    after_below, combined_signature, drawn_below, emsa_pkcs1_v1_5_sha256, partial_ids,
    partial_nums, partial_value, shoup_combine, shoup_part_eval, shoup_verify, signature_block,
    CryptoError, ShoupPartial, ShoupPublicKey, ShoupSetup, ShoupShare,
};

verus! {

/// A server.
#[derive(Debug)]
pub struct Server {
    pub id: u32,
    pub top_share: ToprfShare,
    pub ttg_share: ShoupShare,
    pub h_i: [u8; 32],
}

/// What a server holds.
#[verifier::ext_equal]
pub struct ServerState {
    pub id: u32,
    pub top_id: u32,
    pub top: nat,
    pub ttg_id: u32,
    pub ttg: nat,
    pub h_i: Seq<u8>,
}

impl View for Server {
    type V = ServerState;

    open spec fn view(&self) -> ServerState {
        ServerState {
            id: self.id,
            top_id: self.top_share.id,
            top: self.top_share.value@,
            ttg_id: self.ttg_share.id,
            ttg: self.ttg_share.s_i@,
            h_i: self.h_i@,
        }
    }
}

impl Server {
    /// A copy of the server.
    pub fn copy(&self) -> (r: Server)
        ensures
            r@ == self@,
    {
        Server {
            id: self.id,
            top_share: self.top_share.copy(),
            ttg_share: self.ttg_share.copy(),
            h_i: self.h_i,
        }
    }
}

/// What a list of servers holds.
pub open spec fn states(s: Seq<Server>) -> Seq<ServerState> {
    Seq::new(s.len(), |i: int| s[i]@)
}

/// A deployment with one client.
#[derive(Debug)]
pub struct Fixture {
    pub n: usize,
    pub t: usize,
    pub password: Vec<u8>,
    pub new_password: Vec<u8>,
    pub client_id: Vec<u8>,
    pub payload: Vec<u8>,
    pub top: ToprfSetup,
    pub ttg: ShoupSetup,
    pub servers: Vec<Server>,
}

/// A server's response to a request for a token.
#[derive(Debug)]
pub struct TokenResponse {
    pub id: u32,
    pub z_i: Nat,
    pub encrypted_partial: Vec<u8>,
    pub iv: [u8; 16],
}

/// Which step of a protocol run failed.
pub enum Failure {
    InvalidThreshold,
    NoBlinding,
    InvalidRepresentative,
    NoInverse,
}

/// The error says which step failed.
pub open spec fn reports(e: CryptoError, f: Failure) -> bool {
    match f {
        Failure::InvalidThreshold => e is InvalidThreshold,
        Failure::NoBlinding => e is NoBlinding,
        Failure::InvalidRepresentative => e is InvalidRepresentative,
        Failure::NoInverse => e is NoInverse,
    }
}

/// The blinded password.
pub open spec fn blinded(params: ToprfParams, password: Seq<u8>, rho: nat) -> int {
    pow(password_element(params, password), rho) % (params.modulus@ as int)
}

/// The partial values of the first `t` servers for a blinded password.
pub open spec fn values_of(
    params: ToprfParams,
    tops: Seq<nat>,
    enc: int,
    t: nat,
) -> Seq<int> {
    Seq::new(t, |k: int| pow(enc, tops[k]) % (params.modulus@ as int))
}

/// The value of the password function with the first `t` servers, where it exists.
pub open spec fn function_value(
    params: ToprfParams,
    tops: Seq<nat>,
    t: nat,
    password: Seq<u8>,
    rho: nat,
) -> Option<Seq<u8>> {
    let q = params.order@ as int;
    if weights_exist(first_ids(t), q) && invertible(rho as int, q) {
        Some(
            value_hash(
                password,
                unblinded_value(
                    params,
                    rho as int,
                    first_ids(t),
                    values_of(params, tops, blinded(params, password, rho), t),
                ),
            ),
        )
    } else {
        None
    }
}

/// The shares of the password function in a list of servers.
pub open spec fn tops(s: Seq<ServerState>) -> Seq<nat> {
    Seq::new(s.len(), |i: int| s[i].top)
}

/// The shares of a setup.
pub open spec fn setup_tops(s: Seq<ToprfShare>) -> Seq<nat> {
    Seq::new(s.len(), |i: int| s[i].value@)
}

/// Evaluates the password function with the first `t` shares.
fn evaluate(
    params: &ToprfParams,
    shares: &Vec<ToprfShare>,
    t: usize,
    password: &[u8],
    enc: &Nat,
    rho: &Nat,
) -> (r: Result<[u8; 32], CryptoError>)
    requires
        params.usable(),
        params.order@ >= u32::MAX,
        t <= shares@.len(),
        t <= u32::MAX,
        enc@ == blinded(*params, password@, rho@),
    ensures
        match r {
            Ok(h) => function_value(
                *params,
                setup_tops(shares@),
                t as nat,
                password@,
                rho@,
            ) == Some(h@),
            Err(e) => function_value(
                *params,
                setup_tops(shares@),
                t as nat,
                password@,
                rho@,
            ) is None && e is NoInverse,
        },
{
    let ids = make_first_ids(t);
    let ghost want = values_of(*params, setup_tops(shares@), enc@ as int, t as nat);
    let mut zs: Vec<Nat> = Vec::with_capacity(t);
    let mut k: usize = 0;
    while k < t
        invariant
            k <= t,
            t <= shares@.len(),
            params.usable(),
            want == values_of(*params, setup_tops(shares@), enc@ as int, t as nat),
            zs@.len() == k,
            forall|q: int| 0 <= q < k ==> (#[trigger] zs@[q])@ == want[q],
        decreases t - k,
    {
        zs.push(toprf_eval(params, &shares[k], enc));
        k = k + 1;
    }
    assert(nat_vals(zs@) =~= want);
    toprf_combine(params, password, rho, ids.as_slice(), zs.as_slice())
}

impl Fixture {
    /// The deployment is as the registration of its client leaves it: `n` servers share a key
    /// of the password function that the generator gave, any `t` of them can evaluate it, and
    /// each has its signing share and its key for the password.
    pub open spec fn registered(self, n: nat, t: nat, rng: RngState) -> bool {
        let q = self.top.params.order@;
        let rng1 = after_below(rng, t, q);
        &&& self.n == n
        &&& self.t == t
        &&& self.top.shared_by(n, drawn_below(rng, t, q))
        &&& self.top.params.usable()
        &&& self.top.params.modulus@ == be_nat(MODP14_PRIME@)
        &&& self.top.params.order@ == group_order()
        &&& self.top.params.generator@ == 4
        &&& self.top.params.order@ > u32::MAX
        &&& blinding_drawn(rng1, q).0 matches Some(rho) && function_value(
            self.top.params,
            setup_tops(self.top.shares@),
            t,
            self.password@,
            rho,
        ) matches Some(h) && self.servers@.len() == n && forall|i: int|
            0 <= i < n ==> (#[trigger] self.servers@[i])@ == (ServerState {
                id: (i + 1) as u32,
                top_id: (i + 1) as u32,
                top: self.top.shares@[i].value@,
                ttg_id: self.ttg.shares@[i].id,
                ttg: self.ttg.shares@[i].s_i@,
                h_i: server_key(h, (i + 1) as u32),
            })
    }
}

/// Sets up a deployment on a given signature setup and registers a client with it.
pub fn setup_fixture_with_ttg(n: usize, t: usize, ttg: ShoupSetup, rng: &mut Rng) -> (r: Result<
    Fixture,
    CryptoError,
>)
    requires
        n <= u32::MAX,
        1 <= t <= n ==> n <= ttg.shares@.len(),
    ensures
        ({
            let q = group_order();
            let rng1 = after_below(old(rng)@, t as nat, q);
            let (rho, rng2) = blinding_drawn(rng1, q);
            if t == 0 || t > n {
                &&& r matches Err(e) && e is InvalidThreshold
                &&& final(rng)@ == old(rng)@
            } else if rho is None {
                &&& r matches Err(e) && e is NoBlinding
                &&& final(rng)@ == rng2
            } else {
                &&& final(rng)@ == rng2
                &&& if weights_exist(first_ids(t as nat), q as int) && invertible(
                    rho->Some_0 as int,
                    q as int,
                ) {
                    r is Ok
                } else {
                    r matches Err(e) && e is NoInverse
                }
            }
        }),
        r matches Ok(fx) ==> {
            &&& fx.registered(n as nat, t as nat, old(rng)@)
            &&& fx.password@ == "correct horse battery staple".spec_bytes()
            &&& fx.new_password@ == "new correct horse battery staple".spec_bytes()
            &&& fx.client_id@ == "user@example".spec_bytes()
            &&& fx.payload@ == "ssh-challenge-payload".spec_bytes()
            &&& fx.ttg == ttg
            &&& is_prime(be_nat(MODP14_PRIME@) as int) && is_prime(group_order() as int)
                ==> fx.holds_password(
                drawn_below(old(rng)@, t as nat, group_order()),
                fx.password@,
            )
        },
{
    let password = bytes::copy_bytes("correct horse battery staple".as_bytes());
    let new_password = bytes::copy_bytes("new correct horse battery staple".as_bytes());
    let client_id = bytes::copy_bytes("user@example".as_bytes());
    let payload = bytes::copy_bytes("ssh-challenge-payload".as_bytes());
    let top = match toprf_setup(n, t, rng) {
        Ok(top) => top,
        Err(e) => {
            return Err(e);
        },
    };
    let (enc, rho) = match toprf_encode(&top.params, password.as_slice(), rng) {
        Some(v) => v,
        None => {
            return Err(CryptoError::NoBlinding);
        },
    };
    let h = match evaluate(&top.params, &top.shares, t, password.as_slice(), &enc, &rho) {
        Ok(h) => h,
        Err(e) => {
            return Err(e);
        },
    };
    let mut servers: Vec<Server> = Vec::with_capacity(n);
    let mut i: usize = 0;
    while i < n
        invariant
            i <= n,
            n <= u32::MAX,
            n == top.shares@.len(),
            n <= ttg.shares@.len(),
            servers@.len() == i,
            forall|k: int|
                0 <= k < i ==> (#[trigger] servers@[k])@ == (ServerState {
                    id: (k + 1) as u32,
                    top_id: top.shares@[k].id,
                    top: top.shares@[k].value@,
                    ttg_id: ttg.shares@[k].id,
                    ttg: ttg.shares@[k].s_i@,
                    h_i: server_key(h@, (k + 1) as u32),
                }),
        decreases n - i,
    {
        let id = (i + 1) as u32;
        servers.push(
            Server {
                id,
                top_share: top.shares[i].copy(),
                ttg_share: ttg.shares[i].copy(),
                h_i: derive_hi(&h, id),
            },
        );
        i = i + 1;
    }
    let fx = Fixture { n, t, password, new_password, client_id, payload, top, ttg, servers };
    proof {
        if is_prime(be_nat(MODP14_PRIME@) as int) && is_prime(group_order() as int) {
            registration_holds_password(fx, n as nat, t as nat, old(rng)@);
        }
    }
    Ok(fx)
}

/// The bytes that a token signs.
pub open spec fn message(payload: Seq<u8>, client_id: Seq<u8>) -> Seq<u8> {
    payload + client_id
}

/// The bytes that a token signs.
pub fn signed_message(payload: &[u8], client_id: &[u8]) -> (r: Vec<u8>)
    ensures
        r@ == message(payload@, client_id@),
{
    cat2(payload, client_id)
}

/// The number that a signature of a message signs.
pub open spec fn encoded(n: nat, msg: Seq<u8>) -> nat {
    be_nat(signature_block(msg, bytes_needed(n)))
}

/// The number that a token for a payload signs.
pub open spec fn representative(n: nat, payload: Seq<u8>, client_id: Seq<u8>) -> nat {
    encoded(n, message(payload, client_id))
}

/// The encoding of a number, filled up with leading zeros to a length.
pub open spec fn padded(v: nat, len: nat) -> Seq<u8> {
    let b = be_bytes(v);
    if b.len() < len {
        Seq::new((len - b.len()) as nat, |i: int| 0u8) + b
    } else {
        b
    }
}

/// Encodes a number, filled up with leading zeros to a length.
pub fn pad(v: &Nat, len: usize) -> (r: Vec<u8>)
    ensures
        r@ == padded(v@, len as nat),
        be_nat(r@) == v@,
{
    let b = v.to_bytes_be();
    if b.len() >= len {
        return b;
    }
    let zeros: usize = len - b.len();
    let mut r: Vec<u8> = Vec::with_capacity(len);
    let mut k: usize = 0;
    assert(r@ =~= Seq::new(0, |i: int| 0u8));
    while k < zeros
        invariant
            k <= zeros,
            r@ == Seq::new(k as nat, |i: int| 0u8),
        decreases zeros - k,
    {
        r.push(0);
        assert(r@ =~= Seq::new((k + 1) as nat, |i: int| 0u8));
        k = k + 1;
    }
    push_bytes(&mut r, b.as_slice());
    proof {
        lemma_be_nat_leading_zeros(Seq::new(zeros as nat, |i: int| 0u8), b@);
    }
    r
}

/// The generator after `k` initialization vectors.
pub open spec fn after_ivs(rng: RngState, k: nat) -> RngState
    decreases k,
{
    if k == 0 {
        rng
    } else {
        after_ivs(rng, (k - 1) as nat).skip(16)
    }
}

/// The encrypted partial signature of a server.
pub open spec fn encrypted_partial(
    pk: ShoupPublicKey,
    srv: ServerState,
    rep: nat,
    iv: Seq<u8>,
) -> Seq<u8> {
    ofb_applied(
        srv.h_i,
        iv,
        padded(partial_value(rep, pk.delta@, srv.ttg, pk.n@), bytes_needed(pk.n@)),
    )
}

/// The partial signatures as the client decrypts them under the function value `h`.
pub open spec fn decrypted_partials(
    pk: ShoupPublicKey,
    servers: Seq<ServerState>,
    rep: nat,
    h: Seq<u8>,
    t: nat,
    rng: RngState,
) -> Seq<int> {
    Seq::new(
        t,
        |k: int|
            {
                let iv = after_ivs(rng, k as nat).bytes(16);
                be_nat(
                    ofb_applied(
                        server_key(h, (k + 1) as u32),
                        iv,
                        encrypted_partial(pk, servers[k], rep, iv),
                    ),
                ) as int
            },
    )
}

impl Fixture {
    /// The numbers of the deployment are usable: enough servers, a group, a modulus and an
    /// exponent, and a factorial that clears the denominators of the first `t` servers.
    pub open spec fn usable(self) -> bool {
        &&& self.t <= self.servers@.len()
        &&& self.t <= u32::MAX
        &&& self.top.params.usable()
        &&& self.top.params.order@ >= u32::MAX
        &&& self.ttg.public.n@ > 0
        &&& self.ttg.public.e@ > 0
        &&& forall|k: int|
            0 <= k < self.t ==> clears(
                self.ttg.public.delta@ as int,
                #[trigger] first_ids(self.t as nat)[k],
                first_ids(self.t as nat),
            )
    }

    /// What signing a message yields, or which step fails: blinding, encoding of the message,
    /// the password function, or the combination of signatures. With it comes the
    /// generator as the step leaves it.
    pub open spec fn signing_outcome(
        self,
        msg: Seq<u8>,
        password: Seq<u8>,
        rng: RngState,
    ) -> (Result<int, Failure>, RngState) {
        let pk = self.ttg.public;
        let (rho, rng1) = blinding_drawn(rng, self.top.params.order@);
        let t = self.t as nat;
        let servers = states(self.servers@);
        let rep = encoded(pk.n@, msg);
        let rng2 = after_ivs(rng1, t);
        match rho {
            None => (Err(Failure::NoBlinding), rng1),
            Some(rho) => if bytes_needed(pk.n@) < 62 {
                (Err(Failure::InvalidRepresentative), rng1)
            } else {
                match function_value(self.top.params, tops(servers), t, password, rho) {
                    None => (Err(Failure::NoInverse), rng2),
                    Some(h) => match combined_signature(
                        pk.n@ as int,
                        pk.e@ as int,
                        pk.delta@ as int,
                        rep as int,
                        first_ids(t),
                        decrypted_partials(pk, servers, rep, h, t, rng1),
                    ) {
                        None => (Err(Failure::NoInverse), rng2),
                        Some(y) => (Ok(y), rng2),
                    },
                }
            },
        }
    }

    /// What token generation yields, or which step fails.
    pub open spec fn token_outcome(
        self,
        payload: Seq<u8>,
        password: Seq<u8>,
        rng: RngState,
    ) -> (Result<int, Failure>, RngState) {
        self.signing_outcome(message(payload, self.client_id@), password, rng)
    }

    /// The result is what the servers' own partial signatures combine to, or says that they
    /// do not combine, that no blinding factor was drawn or that the modulus is too short.
    pub open spec fn signed_by_password(self, msg: Seq<u8>, r: Result<Nat, CryptoError>) -> bool {
        match r {
            Ok(y) => self.own_signature_on(msg) == Some(y@ as int),
            Err(e) => {
                ||| e is NoInverse && self.own_signature_on(msg) is None
                ||| e is NoBlinding
                ||| e is InvalidRepresentative && bytes_needed(self.ttg.public.n@) < 62
            },
        }
    }

    /// What the partial signatures combine to as a client decrypts them that has the function
    /// value `h`, whether or not the servers' keys are those of `h`.
    pub open spec fn signature_under(self, msg: Seq<u8>, h: Seq<u8>, rng: RngState) -> Option<int> {
        let pk = self.ttg.public;
        let t = self.t as nat;
        let rep = encoded(pk.n@, msg);
        combined_signature(
            pk.n@ as int,
            pk.e@ as int,
            pk.delta@ as int,
            rep as int,
            first_ids(t),
            decrypted_partials(pk, states(self.servers@), rep, h, t, rng),
        )
    }

    /// The result is what the partial signatures combine to under the function value `h`, or
    /// says that they do not combine, that no blinding factor was drawn or that the modulus is
    /// too short.
    pub open spec fn signed_under(
        self,
        msg: Seq<u8>,
        h: Seq<u8>,
        rng: RngState,
        r: Result<Nat, CryptoError>,
    ) -> bool {
        let (rho, rng1) = blinding_drawn(rng, self.top.params.order@);
        if rho is None {
            r matches Err(e) && e is NoBlinding
        } else if bytes_needed(self.ttg.public.n@) < 62 {
            r matches Err(e) && e is InvalidRepresentative
        } else {
            match r {
                Ok(y) => self.signature_under(msg, h, rng1) == Some(y@ as int),
                Err(e) => e is NoInverse && self.signature_under(msg, h, rng1) is None,
            }
        }
    }

    /// For a message whose number neither `p` nor `q` divides, a resulting signature verifies
    /// exactly where it is the one of the servers' own partial signatures.
    pub open spec fn verifies_only_as_own(
        self,
        msg: Seq<u8>,
        p: nat,
        q: nat,
        r: Result<Nat, CryptoError>,
    ) -> bool {
        let pk = self.ttg.public;
        let rep = encoded(pk.n@, msg);
        !divides(p as int, rep as int) && !divides(q as int, rep as int) ==> (r matches Ok(y) ==> ((
        pow(y@ as int, pk.e@) % (pk.n@ as int) == rep) <==> self.own_signature_on(msg) == Some(
            y@ as int,
        )))
    }

    /// For a modulus that is long enough, and a message whose number neither `p` nor `q`
    /// divides, the result is a signature that verifies, or no blinding factor was drawn.
    pub open spec fn verifies_or_unblinded(
        self,
        msg: Seq<u8>,
        p: nat,
        q: nat,
        r: Result<Nat, CryptoError>,
    ) -> bool {
        let pk = self.ttg.public;
        let rep = encoded(pk.n@, msg);
        bytes_needed(pk.n@) >= 62 && !divides(p as int, rep as int) && !divides(
            q as int,
            rep as int,
        ) ==> match r {
            Ok(y) => pow(y@ as int, pk.e@) % (pk.n@ as int) == rep,
            Err(e) => e is NoBlinding,
        }
    }

    /// The partial signatures that the first `t` servers make for a message.
    pub open spec fn own_partials_on(self, msg: Seq<u8>) -> Seq<int> {
        let pk = self.ttg.public;
        let rep = encoded(pk.n@, msg);
        Seq::new(
            self.t as nat,
            |k: int| partial_value(rep, pk.delta@, self.servers@[k]@.ttg, pk.n@) as int,
        )
    }

    /// Each of the first `t` servers holds the key that the function value `h` gives it.
    pub open spec fn keys_are(self, h: Seq<u8>) -> bool {
        forall|k: int|
            0 <= k < self.t ==> (#[trigger] self.servers@[k])@.h_i == server_key(h, (k + 1) as u32)
    }
}

impl Fixture {
    /// Whether the numbers of the deployment are usable.
    pub fn is_usable(&self) -> (r: bool)
        ensures
            r == self.usable(),
    {
        if self.t > self.servers.len() || self.t as u128 > u32::MAX as u128
            || self.top.params.modulus.is_zero() || self.top.params.order.is_zero()
            || self.ttg.public.n.is_zero() || self.ttg.public.e.is_zero() {
            return false;
        }
        let spare = Int::from_nat(&self.top.params.order).minus(&Int::from_u64(u32::MAX as u64));
        if spare.is_negative() {
            return false;
        }
        let ids = make_first_ids(self.t);
        let mut k: usize = 0;
        while k < self.t
            invariant
                k <= self.t,
                ids@ == first_ids(self.t as nat),
                ids@.len() == self.t,
                forall|q: int|
                    0 <= q < k ==> clears(
                        self.ttg.public.delta@ as int,
                        #[trigger] first_ids(self.t as nat)[q],
                        first_ids(self.t as nat),
                    ),
            decreases self.t - k,
        {
            if !clears_denominators(&self.ttg.public.delta, ids[k], ids.as_slice()) {
                assert(!clears(
                    self.ttg.public.delta@ as int,
                    first_ids(self.t as nat)[k as int],
                    first_ids(self.t as nat),
                ));
                return false;
            }
            k = k + 1;
        }
        true
    }
}

/// Signs a message with the first `t` servers. A blinding factor lies below the order of the
/// group, and a block that can be encoded is as long as the modulus.
#[verifier::rlimit(60)]
#[verifier::loop_isolation(false)]
fn sign_with_servers(fx: &Fixture, msg: &[u8], password: &[u8], rng: &mut Rng) -> (r: Result<
    Nat,
    CryptoError,
>)
    requires
        fx.usable(),
    ensures
        match r {
            Ok(y) => fx.signing_outcome(msg@, password@, old(rng)@).0 == Ok::<int, Failure>(
                y@ as int,
            ) && y@ < fx.ttg.public.n@,
            Err(e) => fx.signing_outcome(msg@, password@, old(rng)@).0 matches Err(f) && reports(
                e,
                f,
            ),
        },
        final(rng)@ == fx.signing_outcome(msg@, password@, old(rng)@).1,
        blinding_drawn(old(rng)@, fx.top.params.order@).0 matches Some(rho) ==> {
            &&& 0 < rho < fx.top.params.order@
            &&& bytes_needed(fx.ttg.public.n@) >= 62 ==> signature_block(
                msg@,
                bytes_needed(fx.ttg.public.n@),
            ).len() == bytes_needed(fx.ttg.public.n@)
        },
{
    let ghost servers = states(fx.servers@);
    let ghost t = fx.t as nat;
    let ghost r0 = rng@;
    let pk = &fx.ttg.public;
    let ids = make_first_ids(fx.t);
    let (enc, rho) = match toprf_encode(&fx.top.params, password, rng) {
        Some(v) => v,
        None => {
            return Err(CryptoError::NoBlinding);
        },
    };
    let ghost rng1 = rng@;
    let modulus_bytes = pk.n.byte_len();
    let em = match emsa_pkcs1_v1_5_sha256(msg, modulus_bytes) {
        Ok(em) => em,
        Err(e) => {
            return Err(e);
        },
    };
    let mut responses: Vec<TokenResponse> = Vec::with_capacity(fx.t);
    let mut zs: Vec<Nat> = Vec::with_capacity(fx.t);
    let mut k: usize = 0;
    while k < fx.t
        invariant
            k <= fx.t,
            responses@.len() == k,
            zs@.len() == k,
            rng@ == after_ivs(rng1, k as nat),
            forall|q: int|
                0 <= q < k ==> (#[trigger] zs@[q])@ == pow(enc@ as int, servers[q].top) % (
                fx.top.params.modulus@ as int),
            forall|q: int|
                0 <= q < k ==> {
                    &&& (#[trigger] responses@[q]).id == (q + 1) as u32
                    &&& responses@[q].iv@ == after_ivs(rng1, q as nat).bytes(16)
                    &&& responses@[q].encrypted_partial@ == encrypted_partial(
                        *pk,
                        servers[q],
                        em@,
                        responses@[q].iv@,
                    )
                },
        decreases fx.t - k,
    {
        let srv = &fx.servers[k];
        assert(servers[k as int] == srv@);
        let z_i = toprf_eval(&fx.top.params, &srv.top_share, &enc);
        zs.push(z_i.copy());
        let partial = shoup_part_eval(pk, &srv.ttg_share, &em);
        let mut data = pad(&partial.value, modulus_bytes);
        let iv = rng.take_array::<16>();
        aes128_ofb_apply(&srv.h_i, &iv, data.as_mut_slice());
        responses.push(TokenResponse { id: (k + 1) as u32, z_i, encrypted_partial: data, iv });
        k = k + 1;
    }
    let ghost want = values_of(fx.top.params, tops(servers), enc@ as int, t);
    assert(nat_vals(zs@) =~= want) by {
        assert forall|q: int| 0 <= q < t implies #[trigger] nat_vals(zs@)[q] == want[q] by {
            assert(zs@[q]@ == pow(enc@ as int, servers[q].top) % (
            fx.top.params.modulus@ as int));
        }
    }
    let h = match toprf_combine(
        &fx.top.params,
        password,
        &rho,
        ids.as_slice(),
        zs.as_slice(),
    ) {
        Ok(h) => h,
        Err(e) => {
            return Err(e);
        },
    };
    let ghost nums = decrypted_partials(*pk, servers, em@, h@, t, rng1);
    let mut partials: Vec<ShoupPartial> = Vec::with_capacity(fx.t);
    let mut j: usize = 0;
    while j < responses.len()
        invariant
            j <= responses@.len(),
            partials@.len() == j,
            forall|q: int|
                0 <= q < j ==> (#[trigger] partials@[q]).id == (q + 1) as u32
                    && partials@[q].value@ == nums[q],
        decreases responses@.len() - j,
    {
        let id = responses[j].id;
        let hi = derive_hi(&h, id);
        let mut data = bytes::copy_bytes(responses[j].encrypted_partial.as_slice());
        aes128_ofb_apply(&hi, &responses[j].iv, data.as_mut_slice());
        partials.push(ShoupPartial { id, value: Nat::from_bytes_be(data.as_slice()) });
        j = j + 1;
    }
    proof {
        assert(partial_ids(partials@) =~= first_ids(t)) by {
            assert forall|q: int| 0 <= q < t implies #[trigger] partial_ids(partials@)[q]
                == first_ids(t)[q] by {
                assert(partials@[q].id == (q + 1) as u32);
            }
        }
        assert(partial_nums(partials@) =~= nums) by {
            assert forall|q: int| 0 <= q < t implies #[trigger] partial_nums(partials@)[q]
                == nums[q] by {
                assert(partials@[q].value@ == nums[q]);
            }
        }
        assert forall|q: int| 0 <= q < partials@.len() implies clears(
            pk.delta@ as int,
            (#[trigger] partials@[q]).id,
            partial_ids(partials@),
        ) by {
            assert(clears(pk.delta@ as int, first_ids(t)[q], first_ids(t)));
        }
    }
    shoup_combine(pk, &em, partials.as_slice())
}

/// Signs a message with the first `t` servers. Where the servers hold the key of the password,
/// the signature is that of their own partial signatures, whatever the generator yields; and
/// where they hold shares of a proper setup, it verifies. With any other password it is what
/// the wrongly decrypted partial signatures combine to, and verifies only where that is the
/// same signature.
pub fn sign_message(fx: &Fixture, msg: &[u8], password: &[u8], rng: &mut Rng) -> (r: Result<
    Nat,
    CryptoError,
>)
    requires
        fx.usable(),
    ensures
        match r {
            Ok(y) => fx.signing_outcome(msg@, password@, old(rng)@).0 == Ok::<int, Failure>(
                y@ as int,
            ) && y@ < fx.ttg.public.n@,
            Err(e) => fx.signing_outcome(msg@, password@, old(rng)@).0 matches Err(f) && reports(
                e,
                f,
            ),
        },
        final(rng)@ == fx.signing_outcome(msg@, password@, old(rng)@).1,
        forall|ck: Seq<int>| #[trigger]
            fx.holds_password(ck, password@) ==> fx.signed_by_password(msg@, r),
        forall|ck: Seq<int>| #[trigger]
            fx.evaluates(ck) ==> fx.signed_under(
                msg@,
                password_key(fx.top.params, ck, password@),
                old(rng)@,
                r,
            ),
        forall|n_servers: nat, p: nat, q: nat, c: Seq<int>| #[trigger]
            fx.signs_by(n_servers, p, q, c) ==> fx.verifies_only_as_own(msg@, p, q, r),
        forall|ck: Seq<int>, n_servers: nat, p: nat, q: nat, c: Seq<int>| #[trigger]
            fx.holds_password(ck, password@) && #[trigger] fx.signs_by(n_servers, p, q, c)
                ==> fx.verifies_or_unblinded(msg@, p, q, r),
{
    let ghost r0 = rng@;
    let r = sign_with_servers(fx, msg, password, rng);
    proof {
        let (rho, _) = blinding_drawn(r0, fx.top.params.order@);
        assert forall|ck: Seq<int>| #[trigger] fx.holds_password(ck, password@) implies
            fx.signed_by_password(msg@, r) by {
            if rho is Some && bytes_needed(fx.ttg.public.n@) >= 62 {
                right_password_signature_is_fixed(*fx, ck, msg@, password@, r0);
            }
        }
        assert forall|ck: Seq<int>| #[trigger] fx.evaluates(ck) implies fx.signed_under(
            msg@,
            password_key(fx.top.params, ck, password@),
            r0,
            r,
        ) by {
            if rho is Some {
                servers_give_password_key(*fx, ck, password@, rho->Some_0);
            }
        }
        assert forall|n_servers: nat, p: nat, q: nat, c: Seq<int>| #[trigger]
            fx.signs_by(n_servers, p, q, c) implies fx.verifies_only_as_own(msg@, p, q, r) by {
            let rep = encoded(fx.ttg.public.n@, msg@) as int;
            if r is Ok && !divides(p as int, rep) && !divides(q as int, rep) {
                only_own_signature_verifies(*fx, n_servers, p, q, c, msg@, r->Ok_0@);
            }
        }
        assert forall|ck: Seq<int>, n_servers: nat, p: nat, q: nat, c: Seq<int>| #[trigger]
            fx.holds_password(ck, password@) && #[trigger] fx.signs_by(
                n_servers,
                p,
                q,
                c,
            ) implies fx.verifies_or_unblinded(msg@, p, q, r) by {
            let rep = encoded(fx.ttg.public.n@, msg@) as int;
            if rho is Some && bytes_needed(fx.ttg.public.n@) >= 62 && !divides(p as int, rep)
                && !divides(q as int, rep) {
                right_password_signature_is_fixed(*fx, ck, msg@, password@, r0);
                own_signature_verifies(*fx, n_servers, p, q, c, msg@);
            }
        }
    }
    r
}

/// Generates a token for a payload with the first `t` servers. Where the servers hold the key
/// of the password, the token is that of their own partial signatures, whatever the generator
/// yields; and where they hold shares of a proper setup, it verifies. With any other password
/// it is what the wrongly decrypted partial signatures combine to, and verifies only where
/// that is the same token.
pub fn token_generation(fx: &Fixture, payload: &[u8], password: &[u8], rng: &mut Rng) -> (r: Result<
    Nat,
    CryptoError,
>)
    requires
        fx.usable(),
    ensures
        match r {
            Ok(y) => fx.token_outcome(payload@, password@, old(rng)@).0 == Ok::<int, Failure>(
                y@ as int,
            ) && y@ < fx.ttg.public.n@,
            Err(e) => fx.token_outcome(payload@, password@, old(rng)@).0 matches Err(f) && reports(
                e,
                f,
            ),
        },
        final(rng)@ == fx.token_outcome(payload@, password@, old(rng)@).1,
        forall|ck: Seq<int>| #[trigger]
            fx.holds_password(ck, password@) ==> fx.signed_by_password(
                message(payload@, fx.client_id@),
                r,
            ),
        forall|ck: Seq<int>| #[trigger]
            fx.evaluates(ck) ==> fx.signed_under(
                message(payload@, fx.client_id@),
                password_key(fx.top.params, ck, password@),
                old(rng)@,
                r,
            ),
        forall|n_servers: nat, p: nat, q: nat, c: Seq<int>| #[trigger]
            fx.signs_by(n_servers, p, q, c) ==> fx.verifies_only_as_own(
                message(payload@, fx.client_id@),
                p,
                q,
                r,
            ),
        forall|ck: Seq<int>, n_servers: nat, p: nat, q: nat, c: Seq<int>| #[trigger]
            fx.holds_password(ck, password@) && #[trigger] fx.signs_by(n_servers, p, q, c)
                ==> fx.verifies_or_unblinded(message(payload@, fx.client_id@), p, q, r),
{
    let msg = signed_message(payload, fx.client_id.as_slice());
    sign_message(fx, msg.as_slice(), password, rng)
}

/// Verifies a token for a payload.
pub fn verify_token(fx: &Fixture, payload: &[u8], sig: &Nat) -> (r: Result<bool, CryptoError>)
    requires
        fx.ttg.public.n@ > 0,
    ensures
        match r {
            Ok(ok) => bytes_needed(fx.ttg.public.n@) >= 62 && ok == (pow(
                sig@ as int,
                fx.ttg.public.e@,
            ) % (fx.ttg.public.n@ as int) == representative(
                fx.ttg.public.n@,
                payload@,
                fx.client_id@,
            )),
            Err(e) => bytes_needed(fx.ttg.public.n@) < 62 && e is InvalidRepresentative,
        },
{
    let msg = signed_message(payload, fx.client_id.as_slice());
    let em = match emsa_pkcs1_v1_5_sha256(msg.as_slice(), fx.ttg.public.n.byte_len()) {
        Ok(em) => em,
        Err(e) => {
            return Err(e);
        },
    };
    Ok(shoup_verify(&fx.ttg.public, &em, sig))
}

/// What a password update did: the length of the signed body, and how many servers took
/// the change.
#[derive(Clone, Copy, Debug, PartialEq, Eq, Structural)]
pub struct PasswordUpdateResult {
    pub payload_len: usize,
    pub updated: usize,
}

/// The encrypted old and new keys of a server, behind their initialization vector.
pub open spec fn key_change(h_old: Seq<u8>, h_new: Seq<u8>, i: int, rng: RngState) -> Seq<u8> {
    let id = (i + 1) as u32;
    let iv = after_ivs(rng, i as nat).bytes(16);
    iv + ofb_applied(server_key(h_old, id), iv, server_key(h_old, id) + server_key(h_new, id))
}

/// The encrypted keys of the first `n` servers, one after the other.
pub open spec fn update_body(h_old: Seq<u8>, h_new: Seq<u8>, n: nat, rng: RngState) -> Seq<u8>
    decreases n,
{
    if n == 0 {
        Seq::empty()
    } else {
        update_body(h_old, h_new, (n - 1) as nat, rng) + key_change(h_old, h_new, n - 1, rng)
    }
}

/// The bytes of the server at place `i` in a body.
pub open spec fn chunk(body: Seq<u8>, i: int) -> Seq<u8> {
    body.subrange(i * 80, i * 80 + 80)
}

/// What a server decrypts of its part of a body.
pub open spec fn opened_change(h_i: Seq<u8>, part: Seq<u8>) -> Seq<u8> {
    ofb_applied(h_i, part.subrange(0, 16), part.subrange(16, 80))
}

/// A server finds its own key in its part of a body.
pub open spec fn takes_change(srv: ServerState, body: Seq<u8>, i: int) -> bool {
    opened_change(srv.h_i, chunk(body, i)).subrange(0, 32) == srv.h_i
}

/// The server after its part of a body.
pub open spec fn after_change(srv: ServerState, body: Seq<u8>, i: int) -> ServerState {
    if takes_change(srv, body, i) {
        ServerState { h_i: opened_change(srv.h_i, chunk(body, i)).subrange(32, 64), ..srv }
    } else {
        srv
    }
}

/// How many of the first `k` servers take the change.
pub open spec fn takers(servers: Seq<ServerState>, body: Seq<u8>, k: int) -> nat
    decreases k,
{
    if k <= 0 {
        0
    } else {
        takers(servers, body, k - 1) + (if takes_change(servers[k - 1], body, k - 1) {
            1nat
        } else {
            0nat
        })
    }
}

impl Fixture {
    /// The signed body of a password update, or which step before the signing fails. With
    /// it comes the generator as the step leaves it.
    pub open spec fn update_plan(self, rng: RngState) -> (Result<Seq<u8>, Failure>, RngState) {
        let params = self.top.params;
        let t = self.t as nat;
        let all = tops(states(self.servers@));
        let (rho1, rng1) = blinding_drawn(rng, params.order@);
        match rho1 {
            None => (Err(Failure::NoBlinding), rng1),
            Some(rho1) => match function_value(params, all, t, self.password@, rho1) {
                None => (Err(Failure::NoInverse), rng1),
                Some(h_old) => {
                    let (rho2, rng2) = blinding_drawn(rng1, params.order@);
                    match rho2 {
                        None => (Err(Failure::NoBlinding), rng2),
                        Some(rho2) => match function_value(
                            params,
                            all,
                            t,
                            self.new_password@,
                            rho2,
                        ) {
                            None => (Err(Failure::NoInverse), rng2),
                            Some(h_new) => (
                                Ok(update_body(h_old, h_new, self.n as nat, rng2)),
                                after_ivs(rng2, self.n as nat),
                            ),
                        },
                    }
                },
            },
        }
    }

    /// For a modulus that is long enough, and a body whose number neither `p` nor `q`
    /// divides, the change was made, or no blinding factor was drawn.
    pub open spec fn changes_or_unblinded(
        self,
        rng: RngState,
        p: nat,
        q: nat,
        r: Result<PasswordUpdateResult, CryptoError>,
    ) -> bool {
        let n = self.ttg.public.n@;
        bytes_needed(n) >= 62 && (self.update_plan(rng).0 matches Ok(body) && !divides(
            p as int,
            representative(n, body, self.client_id@) as int,
        ) && !divides(q as int, representative(n, body, self.client_id@) as int)) ==> match r {
            Ok(_) => true,
            Err(e) => e is NoBlinding,
        }
    }

    /// The body of a password update whose token was made and verified, or which step
    /// fails.
    pub open spec fn update_outcome(self, rng: RngState) -> (Result<Seq<u8>, Failure>, RngState) {
        match self.update_plan(rng) {
            (Err(f), rng1) => (Err(f), rng1),
            (Ok(body), rng1) => match self.token_outcome(body, self.password@, rng1) {
                (Err(f), rng2) => (Err(f), rng2),
                (Ok(y), rng2) => if pow(y, self.ttg.public.e@) % (self.ttg.public.n@ as int)
                    == representative(self.ttg.public.n@, body, self.client_id@) {
                    (Ok(body), rng2)
                } else {
                    (Err(Failure::InvalidRepresentative), rng2)
                },
            },
        }
    }
}

/// Evaluates the password function with the servers of a fixture.
fn evaluate_with_servers(fx: &Fixture, password: &[u8], enc: &Nat, rho: &Nat) -> (r: Result<
    [u8; 32],
    CryptoError,
>)
    requires
        fx.usable(),
        enc@ == blinded(fx.top.params, password@, rho@),
    ensures
        match r {
            Ok(h) => function_value(
                fx.top.params,
                tops(states(fx.servers@)),
                fx.t as nat,
                password@,
                rho@,
            ) == Some(h@),
            Err(e) => function_value(
                fx.top.params,
                tops(states(fx.servers@)),
                fx.t as nat,
                password@,
                rho@,
            ) is None && e is NoInverse,
        },
{
    let ghost all = tops(states(fx.servers@));
    let mut shares: Vec<ToprfShare> = Vec::with_capacity(fx.servers.len());
    let mut k: usize = 0;
    while k < fx.servers.len()
        invariant
            k <= fx.servers@.len(),
            all == tops(states(fx.servers@)),
            shares@.len() == k,
            forall|q: int| 0 <= q < k ==> (#[trigger] shares@[q]).value@ == all[q],
        decreases fx.servers@.len() - k,
    {
        assert(states(fx.servers@)[k as int] == fx.servers@[k as int]@);
        shares.push(fx.servers[k].top_share.copy());
        k = k + 1;
    }
    assert(setup_tops(shares@) =~= all);
    evaluate(&fx.top.params, &shares, fx.t, password, enc, rho)
}

/// Encrypts the old and new keys of the servers. Each server can open its own.
pub fn build_body(h_old: &[u8; 32], h_new: &[u8; 32], n: usize, rng: &mut Rng) -> (r: Vec<u8>)
    requires
        n <= u32::MAX,
    ensures
        r@ == update_body(h_old@, h_new@, n as nat, old(rng)@),
        r@.len() == n * 80,
        final(rng)@ == after_ivs(old(rng)@, n as nat),
        forall|i: int|
            0 <= i < n ==> {
                let part = #[trigger] key_change(h_old@, h_new@, i, old(rng)@);
                let id = (i + 1) as u32;
                &&& part.len() == 80
                &&& opened_change(server_key(h_old@, id), part) == server_key(h_old@, id)
                    + server_key(h_new@, id)
                &&& server_key(h_old@, id).len() == 32
                &&& server_key(h_new@, id).len() == 32
            },
{
    let ghost r0 = rng@;
    let mut body: Vec<u8> = Vec::new();
    let mut i: usize = 0;
    while i < n
        invariant
            i <= n,
            n <= u32::MAX,
            body@ == update_body(h_old@, h_new@, i as nat, r0),
            body@.len() == i * 80,
            rng@ == after_ivs(r0, i as nat),
            forall|k: int|
                0 <= k < i ==> {
                    let part = #[trigger] key_change(h_old@, h_new@, k, r0);
                    let id = (k + 1) as u32;
                    &&& part.len() == 80
                    &&& opened_change(server_key(h_old@, id), part) == server_key(h_old@, id)
                        + server_key(h_new@, id)
                    &&& server_key(h_old@, id).len() == 32
                    &&& server_key(h_new@, id).len() == 32
                },
        decreases n - i,
    {
        let id = (i + 1) as u32;
        let old_key = derive_hi(h_old, id);
        let new_key = derive_hi(h_new, id);
        let mut pt = cat2(&old_key, &new_key);
        let iv = rng.take_array::<16>();
        let ghost plain = pt@;
        aes128_ofb_apply(&old_key, &iv, pt.as_mut_slice());
        let ghost part = key_change(h_old@, h_new@, i as int, r0);
        proof {
            assert(part =~= iv@ + pt@);
            assert(part.subrange(0, 16) =~= iv@);
            assert(part.subrange(16, 80) =~= pt@);
        }
        push_bytes(&mut body, &iv);
        push_bytes(&mut body, pt.as_slice());
        assert(body@ =~= update_body(h_old@, h_new@, (i + 1) as nat, r0));
        i = i + 1;
    }
    body
}

proof fn lemma_body_chunk(h_old: Seq<u8>, h_new: Seq<u8>, n: nat, rng: RngState, i: int)
    requires
        0 <= i < n,
        forall|k: int|
            0 <= k < n ==> (#[trigger] key_change(h_old, h_new, k, rng)).len() == 80,
    ensures
        update_body(h_old, h_new, n, rng).len() == n * 80,
        chunk(update_body(h_old, h_new, n, rng), i) == key_change(h_old, h_new, i, rng),
    decreases n,
{
    let m = (n - 1) as nat;
    let front = update_body(h_old, h_new, m, rng);
    let whole = update_body(h_old, h_new, n, rng);
    assert(key_change(h_old, h_new, m as int, rng).len() == 80);
    if m == 0 {
        assert(front.len() == 0);
    } else {
        if i < m {
            lemma_body_chunk(h_old, h_new, m, rng, i);
        } else {
            lemma_body_chunk(h_old, h_new, m, rng, 0);
        }
    }
    assert(front.len() == m * 80);
    if i < m {
        assert(i * 80 + 80 <= m * 80) by (nonlinear_arith)
            requires
                i < m,
        ;
        assert(chunk(whole, i) =~= chunk(front, i));
    } else {
        assert(chunk(whole, i) =~= key_change(h_old, h_new, i, rng));
    }
}

/// Changes the password at all servers. Where every server holds the key of the old password,
/// every server takes the change and then holds the key of the new one. The blinding factors
/// lie below the order of the group.
#[verifier::rlimit(80)]
fn change_at_servers(fx: &mut Fixture, rng: &mut Rng) -> (r: Result<
    PasswordUpdateResult,
    CryptoError,
>)
    requires
        old(fx).usable(),
        old(fx).servers@.len() <= old(fx).n <= u32::MAX,
    ensures
        match r {
            Ok(res) => {
                &&& old(fx).update_outcome(old(rng)@).0 matches Ok(body) && res.payload_len
                    == body.len() && res.updated == takers(
                    states(old(fx).servers@),
                    body,
                    old(fx).servers@.len() as int,
                ) && final(fx).servers@.len() == old(fx).servers@.len() && forall|i: int|
                    0 <= i < old(fx).servers@.len() ==> (#[trigger] final(fx).servers@[i])@
                        == after_change(old(fx).servers@[i]@, body, i)
                &&& final(fx).password@ == old(fx).new_password@
                &&& res.payload_len == old(fx).n * 80
            },
            Err(e) => {
                &&& old(fx).update_outcome(old(rng)@).0 matches Err(f) && reports(e, f)
                &&& *final(fx) == *old(fx)
            },
        },
        *final(fx) == (Fixture {
            servers: final(fx).servers,
            password: final(fx).password,
            ..*old(fx)
        }),
        final(rng)@ == old(fx).update_outcome(old(rng)@).1,
        r matches Ok(res) ==> forall|h: Seq<u8>|
            (function_value(
                old(fx).top.params,
                tops(states(old(fx).servers@)),
                old(fx).t as nat,
                old(fx).password@,
                blinding_drawn(old(rng)@, old(fx).top.params.order@).0->Some_0,
            ) == Some(h) && #[trigger] old(fx).all_keys_are(h)) ==> {
                &&& res.updated == old(fx).servers@.len()
                &&& exists|h_new: Seq<u8>| #[trigger] final(fx).all_keys_are(h_new) && function_value(
                    old(fx).top.params,
                    tops(states(old(fx).servers@)),
                    old(fx).t as nat,
                    old(fx).new_password@,
                    blinding_drawn(
                        blinding_drawn(old(rng)@, old(fx).top.params.order@).1,
                        old(fx).top.params.order@,
                    ).0->Some_0,
                ) == Some(h_new)
            },
        blinding_drawn(old(rng)@, old(fx).top.params.order@).0 matches Some(rho) ==> 0 < rho
            < old(fx).top.params.order@,
        r is Ok ==> {
            let rng1 = blinding_drawn(old(rng)@, old(fx).top.params.order@).1;
            blinding_drawn(rng1, old(fx).top.params.order@).0 matches Some(rho) && 0 < rho
                < old(fx).top.params.order@
        },
        forall|ck: Seq<int>, n_servers: nat, p: nat, q: nat, c: Seq<int>| #[trigger]
            old(fx).holds_password(ck, old(fx).password@) && #[trigger] old(fx).signs_by(
                n_servers,
                p,
                q,
                c,
            ) ==> old(fx).changes_or_unblinded(old(rng)@, p, q, r),
{
    let ghost fx0 = *fx;
    let ghost ss = states(fx.servers@);
    let (e1, r1) = match toprf_encode(&fx.top.params, fx.password.as_slice(), rng) {
        Some(v) => v,
        None => {
            return Err(CryptoError::NoBlinding);
        },
    };
    let h_old = match evaluate_with_servers(&*fx, fx.password.as_slice(), &e1, &r1) {
        Ok(h) => h,
        Err(e) => {
            return Err(e);
        },
    };
    let (e2, r2) = match toprf_encode(&fx.top.params, fx.new_password.as_slice(), rng) {
        Some(v) => v,
        None => {
            return Err(CryptoError::NoBlinding);
        },
    };
    let h_new = match evaluate_with_servers(&*fx, fx.new_password.as_slice(), &e2, &r2) {
        Ok(h) => h,
        Err(e) => {
            return Err(e);
        },
    };
    let ghost rng2 = rng@;
    let body = build_body(&h_old, &h_new, fx.n, rng);
    assert(fx.update_plan(old(rng)@) == (Ok::<Seq<u8>, Failure>(body@), rng@));
    let sig = match token_generation(&*fx, body.as_slice(), fx.password.as_slice(), rng) {
        Ok(sig) => sig,
        Err(e) => {
            return Err(e);
        },
    };
    match verify_token(&*fx, body.as_slice(), &sig) {
        Ok(true) => {},
        Ok(false) => {
            return Err(CryptoError::InvalidRepresentative);
        },
        Err(e) => {
            return Err(e);
        },
    }
    let mut updated: usize = 0;
    let mut i: usize = 0;
    while i < fx.servers.len()
        invariant
            i <= fx.servers@.len(),
            fx.servers@.len() == ss.len(),
            ss.len() <= fx0.n,
            body@.len() == fx0.n * 80,
            *fx == (Fixture { servers: fx.servers, ..fx0 }),
            updated == takers(ss, body@, i as int),
            updated <= i,
            forall|k: int|
                0 <= k < i ==> (#[trigger] fx.servers@[k])@ == after_change(ss[k], body@, k),
            forall|k: int| i <= k < ss.len() ==> (#[trigger] fx.servers@[k])@ == ss[k],
        decreases fx.servers@.len() - i,
    {
        let ghost mid = fx.servers@;
        proof {
            assert(mid[i as int]@ == ss[i as int]);
            assert(i * 80 + 80 <= fx0.n * 80) by (nonlinear_arith)
                requires
                    i < fx0.n,
            ;
            assert(body.len() == body@.len());
        }
        let off: usize = i * 80;
        let iv = bytes::piece::<16>(body.as_slice(), off);
        let ct = bytes::piece::<64>(body.as_slice(), off + 16);
        let mut pt = bytes::copy_bytes(&ct);
        aes128_ofb_apply(&fx.servers[i].h_i, &iv, pt.as_mut_slice());
        proof {
            let part = chunk(body@, i as int);
            assert(part.subrange(0, 16) =~= iv@);
            assert(part.subrange(16, 80) =~= ct@);
            assert(pt@ == opened_change(ss[i as int].h_i, part));
        }
        let own = bytes::piece::<32>(pt.as_slice(), 0);
        if bytes::same_bytes(&own, &fx.servers[i].h_i) {
            let new_key = bytes::piece::<32>(pt.as_slice(), 32);
            fx.servers[i].h_i = new_key;
            updated = updated + 1;
        }
        proof {
            assert forall|k: int| 0 <= k < ss.len() && k != i implies fx.servers@[k] == mid[k] by {
            }
            assert(fx.servers@[i as int]@ =~= after_change(ss[i as int], body@, i as int));
        }
        i = i + 1;
    }
    fx.password = bytes::copy_bytes(fx.new_password.as_slice());
    proof {
        if fx0.all_keys_are(h_old@) {
            assert forall|k: int| 0 <= k < ss.len() implies takes_change(ss[k], body@, k)
                && (#[trigger] fx.servers@[k])@.h_i == server_key(h_new@, (k + 1) as u32) by {
                lemma_body_chunk(h_old@, h_new@, fx0.n as nat, rng2, k);
                let id = (k + 1) as u32;
                let part = key_change(h_old@, h_new@, k, rng2);
                assert(fx0.servers@[k]@.h_i == server_key(h_old@, id));
                let both = server_key(h_old@, id) + server_key(h_new@, id);
                assert(both.subrange(0, 32) =~= server_key(h_old@, id));
                assert(both.subrange(32, 64) =~= server_key(h_new@, id));
            }
            assert(fx.all_keys_are(h_new@));
            assert forall|k: int| 0 <= k < ss.len() implies takes_change(
                #[trigger] ss[k],
                body@,
                k,
            ) by {
                assert(fx.servers@[k]@.h_i == server_key(h_new@, (k + 1) as u32));
            }
            lemma_all_takers(ss, body@, ss.len() as int);
        }
    }
    Ok(PasswordUpdateResult { payload_len: body.len(), updated })
}

/// Changes the password at all servers. A failure leaves the fixture as it was. Where every
/// server holds the key of the old password, every server takes the change and then holds
/// the key of the new one; and where the servers hold shares of a proper setup, the change
/// succeeds.
pub fn password_update(fx: &mut Fixture, rng: &mut Rng) -> (r: Result<
    PasswordUpdateResult,
    CryptoError,
>)
    requires
        old(fx).usable(),
        old(fx).servers@.len() <= old(fx).n <= u32::MAX,
    ensures
        match r {
            Ok(res) => {
                &&& old(fx).update_outcome(old(rng)@).0 matches Ok(body) && res.payload_len
                    == body.len() && res.updated == takers(
                    states(old(fx).servers@),
                    body,
                    old(fx).servers@.len() as int,
                ) && final(fx).servers@.len() == old(fx).servers@.len() && forall|i: int|
                    0 <= i < old(fx).servers@.len() ==> (#[trigger] final(fx).servers@[i])@
                        == after_change(old(fx).servers@[i]@, body, i)
                &&& final(fx).password@ == old(fx).new_password@
                &&& res.payload_len == old(fx).n * 80
            },
            Err(e) => {
                &&& old(fx).update_outcome(old(rng)@).0 matches Err(f) && reports(e, f)
                &&& *final(fx) == *old(fx)
            },
        },
        *final(fx) == (Fixture {
            servers: final(fx).servers,
            password: final(fx).password,
            ..*old(fx)
        }),
        final(rng)@ == old(fx).update_outcome(old(rng)@).1,
        r matches Ok(res) ==> forall|h: Seq<u8>|
            (function_value(
                old(fx).top.params,
                tops(states(old(fx).servers@)),
                old(fx).t as nat,
                old(fx).password@,
                blinding_drawn(old(rng)@, old(fx).top.params.order@).0->Some_0,
            ) == Some(h) && #[trigger] old(fx).all_keys_are(h)) ==> {
                &&& res.updated == old(fx).servers@.len()
                &&& exists|h_new: Seq<u8>| #[trigger] final(fx).all_keys_are(h_new) && function_value(
                    old(fx).top.params,
                    tops(states(old(fx).servers@)),
                    old(fx).t as nat,
                    old(fx).new_password@,
                    blinding_drawn(
                        blinding_drawn(old(rng)@, old(fx).top.params.order@).1,
                        old(fx).top.params.order@,
                    ).0->Some_0,
                ) == Some(h_new)
            },
        forall|ck: Seq<int>| #[trigger]
            old(fx).holds_password(ck, old(fx).password@) ==> (r matches Ok(res) ==> res.updated
                == old(fx).servers@.len() && final(fx).holds_password(ck, final(fx).password@)),
        forall|ck: Seq<int>, n_servers: nat, p: nat, q: nat, c: Seq<int>| #[trigger]
            old(fx).holds_password(ck, old(fx).password@) && #[trigger] old(fx).signs_by(
                n_servers,
                p,
                q,
                c,
            ) ==> old(fx).changes_or_unblinded(old(rng)@, p, q, r) && final(fx).signs_by(
                n_servers,
                p,
                q,
                c,
            ),
{
    let ghost fx0 = *fx;
    let ghost r0 = rng@;
    let r = change_at_servers(fx, rng);
    proof {
        assert forall|i: int| 0 <= i < fx0.servers@.len() implies (#[trigger] fx.servers@[i])@
            == (ServerState { h_i: fx.servers@[i]@.h_i, ..fx0.servers@[i]@ }) by {
        }
        if r is Ok {
            assert forall|ck: Seq<int>| #[trigger]
                fx0.holds_password(ck, fx0.password@) implies r->Ok_0.updated
                == fx0.servers@.len() && fx.holds_password(ck, fx.password@) by {
                let order = fx0.top.params.order@;
                let (rho1, rng1) = blinding_drawn(r0, order);
                let (rho2, _) = blinding_drawn(rng1, order);
                servers_give_password_key(fx0, ck, fx0.password@, rho1->Some_0);
                servers_give_password_key(fx0, ck, fx0.new_password@, rho2->Some_0);
                assert(fx0.all_keys_are(password_key(fx0.top.params, ck, fx0.password@)));
                assert(fx.evaluates(ck));
            }
        }
    }
    r
}

proof fn lemma_all_takers(servers: Seq<ServerState>, body: Seq<u8>, k: int)
    requires
        0 <= k <= servers.len(),
        forall|i: int| 0 <= i < servers.len() ==> takes_change(#[trigger] servers[i], body, i),
    ensures
        takers(servers, body, k) == k,
    decreases k,
{
    if k > 0 {
        lemma_all_takers(servers, body, k - 1);
        assert(takes_change(servers[k - 1], body, k - 1));
    }
}

impl Fixture {
    /// Every server holds the key that the function value `h` gives it.
    pub open spec fn all_keys_are(self, h: Seq<u8>) -> bool {
        forall|k: int|
            0 <= k < self.servers@.len() ==> (#[trigger] self.servers@[k])@.h_i == server_key(
                h,
                (k + 1) as u32,
            )
    }
}

} // verus!
