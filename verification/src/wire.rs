//! Fields with a length in front, and the responses that are built of them.
use vstd::prelude::*;
use vstd::slice::slice_subrange;

use crate::aead::{Blob, CtBlob, NONCE_LEN, TAG_LEN};
use crate::bignum::{be_bytes, be_nat, lemma_be_nat_of_be_bytes, Nat};
use crate::bytes::{self, push_bytes};
use crate::crypto_pastau::TTG_TOKEN_LEN;
use crate::paper_protocol::TokenResponse;
use crate::pastau::{Response, ServerResponse};
use crate::text::copy_text;

verus! {

/// The low 32 bits of a number, most significant byte first.
pub open spec fn be32(x: nat) -> Seq<u8> {
    seq![
        ((x / 0x100_0000) % 256) as u8,
        ((x / 0x1_0000) % 256) as u8,
        ((x / 256) % 256) as u8,
        (x % 256) as u8,
    ]
}

/// The number in four bytes, most significant byte first.
pub open spec fn of_be32(s: Seq<u8>) -> nat {
    (s[0] * 0x100_0000 + s[1] * 0x1_0000 + s[2] * 256 + s[3]) as nat
}

/// A number of 32 bits is read back.
pub proof fn be32_reads_back(x: nat)
    requires
        x <= u32::MAX,
    ensures
        of_be32(be32(x)) == x,
        be32(x).len() == 4,
{
    let a = x / 0x100_0000;
    let b = x / 0x1_0000;
    let c = x / 256;
    assert(a == b / 256);
    assert(b == c / 256);
    assert(a < 256);
}

/// Appends the low 32 bits of a number.
pub fn put_u32(out: &mut Vec<u8>, x: usize)
    ensures
        final(out)@ == old(out)@ + be32(x as nat),
{
    let ghost before = out@;
    out.push(((x / 0x100_0000) % 256) as u8);
    out.push(((x / 0x1_0000) % 256) as u8);
    out.push(((x / 256) % 256) as u8);
    out.push((x % 256) as u8);
    assert(out@ =~= before + be32(x as nat));
}

/// Reads a number of 32 bits.
pub fn read_u32(s: &[u8], from: usize) -> (r: u32)
    requires
        from + 4 <= s@.len(),
    ensures
        r == of_be32(s@.subrange(from as int, from + 4)),
{
    let ghost p = s@.subrange(from as int, from + 4);
    assert(p[0] == s@[from as int] && p[1] == s@[from + 1] && p[2] == s@[from + 2] && p[3]
        == s@[from + 3]);
    s[from] as u32 * 0x100_0000 + s[from + 1] as u32 * 0x1_0000 + s[from + 2] as u32 * 256 + s[from
        + 3] as u32
}

/// Why bytes could not be read.
#[derive(Clone, Copy, Debug, PartialEq, Eq, Structural)]
pub enum WireError {
    MissingLength,
    ShortField,
    ShortResponse,
    BadIv,
    BadLength,
}

/// The message for bytes that could not be read.
pub open spec fn wire_text(e: WireError) -> Seq<char> {
    match e {
        WireError::MissingLength => "missing length"@,
        WireError::ShortField => "short field"@,
        WireError::ShortResponse => "short token response"@,
        WireError::BadIv => "bad IV length"@,
        WireError::BadLength => "bad token response length"@,
    }
}

impl WireError {
    /// The message for bytes that could not be read.
    pub fn message(self) -> (r: String)
        ensures
            r@ == wire_text(self),
    {
        match self {
            WireError::MissingLength => copy_text("missing length"),
            WireError::ShortField => copy_text("short field"),
            WireError::ShortResponse => copy_text("short token response"),
            WireError::BadIv => copy_text("bad IV length"),
            WireError::BadLength => copy_text("bad token response length"),
        }
    }
}

/// Bytes behind their length.
pub open spec fn field(b: Seq<u8>) -> Seq<u8> {
    be32(b.len()) + b
}

/// Appends bytes behind their length.
pub fn put_bytes(out: &mut Vec<u8>, b: &[u8])
    ensures
        final(out)@ == old(out)@ + field(b@),
{
    let ghost before = out@;
    put_u32(out, b.len());
    push_bytes(out, b);
    assert(out@ =~= before + field(b@));
}

/// The bytes of the field at a place, and the place after it.
pub open spec fn field_at(s: Seq<u8>, from: int) -> Result<(Seq<u8>, int), WireError> {
    if s.len() - from < 4 {
        Err(WireError::MissingLength)
    } else {
        let len = of_be32(s.subrange(from, from + 4));
        if s.len() - (from + 4) < len {
            Err(WireError::ShortField)
        } else {
            Ok((s.subrange(from + 4, from + 4 + len), from + 4 + len))
        }
    }
}

/// The bytes of the field in front, and what is left of the input: all of it where the length
/// is missing, and what follows the length where the field is short.
pub open spec fn field_taken(s: Seq<u8>) -> (Result<Seq<u8>, WireError>, Seq<u8>) {
    if s.len() < 4 {
        (Err(WireError::MissingLength), s)
    } else {
        let len = of_be32(s.take(4));
        if s.len() - 4 < len {
            (Err(WireError::ShortField), s.skip(4))
        } else {
            (Ok(s.subrange(4, 4 + len as int)), s.skip(4 + len as int))
        }
    }
}

/// Takes the bytes of the field in front of the input.
pub fn take_bytes<'a>(input: &mut &'a [u8]) -> (r: Result<&'a [u8], WireError>)
    ensures
        match r {
            Ok(v) => field_taken((*old(input))@).0 == Ok::<Seq<u8>, WireError>(v@),
            Err(e) => field_taken((*old(input))@).0 == Err::<Seq<u8>, WireError>(e),
        },
        (*final(input))@ == field_taken((*old(input))@).1,
{
    let s: &'a [u8] = *input;
    if s.len() < 4 {
        return Err(WireError::MissingLength);
    }
    let len: usize = read_u32(s, 0) as usize;
    assert(s@.subrange(0, 4) =~= s@.take(4));
    let rest = slice_subrange(s, 4, s.len());
    assert(rest@ =~= s@.skip(4));
    *input = rest;
    if rest.len() < len {
        return Err(WireError::ShortField);
    }
    let value = slice_subrange(rest, 0, len);
    assert(value@ =~= s@.subrange(4, 4 + len as int));
    let left = slice_subrange(rest, len, rest.len());
    assert(left@ =~= s@.skip(4 + len as int));
    *input = left;
    Ok(value)
}

/// A field is taken back as it was put, and the input then stands behind it.
pub proof fn put_field_is_taken(b: Seq<u8>, rest: Seq<u8>)
    requires
        b.len() <= u32::MAX,
    ensures
        field_taken(field(b) + rest) == (Ok::<Seq<u8>, WireError>(b), rest),
{
    let s = field(b) + rest;
    be32_reads_back(b.len());
    assert(s.take(4) =~= be32(b.len()));
    assert(s.subrange(4, 4 + b.len() as int) =~= b);
    assert(s.skip(4 + b.len() as int) =~= rest);
}

/// Reads the bytes of the field at a place.
pub fn field_from(s: &[u8], from: usize) -> (r: Result<(Vec<u8>, usize), WireError>)
    requires
        from <= s@.len(),
    ensures
        match r {
            Ok((v, next)) => field_at(s@, from as int) == Ok::<(Seq<u8>, int), WireError>(
                (v@, next as int),
            ) && next <= s@.len(),
            Err(e) => field_at(s@, from as int) == Err::<(Seq<u8>, int), WireError>(e),
        },
{
    let mut input = slice_subrange(s, from, s.len());
    let ghost rest = s@.subrange(from as int, s@.len() as int);
    proof {
        if rest.len() >= 4 {
            assert(rest.take(4) =~= s@.subrange(from as int, from + 4));
        }
    }
    match take_bytes(&mut input) {
        Ok(v) => {
            let r = bytes::copy_bytes(v);
            assert(r@ =~= field_at(s@, from as int)->Ok_0.0);
            Ok((r, s.len() - input.len()))
        },
        Err(e) => Err(e),
    }
}

/// A copy of the bytes between two places.
pub fn copy_range(s: &[u8], from: usize, to: usize) -> (r: Vec<u8>)
    requires
        from <= to <= s@.len(),
    ensures
        r@ == s@.subrange(from as int, to as int),
{
    let mut v: Vec<u8> = Vec::with_capacity(to - from);
    let mut i: usize = from;
    assert(v@ =~= s@.subrange(from as int, from as int));
    while i < to
        invariant
            from <= i <= to <= s@.len(),
            v@ == s@.subrange(from as int, i as int),
        decreases to - i,
    {
        v.push(s[i]);
        assert(v@ =~= s@.subrange(from as int, i + 1));
        i = i + 1;
    }
    v
}

/// A field is read back, whatever stands before and behind it.
pub proof fn field_reads_back(head: Seq<u8>, b: Seq<u8>, tail: Seq<u8>)
    requires
        b.len() <= u32::MAX,
    ensures
        field_at(head + field(b) + tail, head.len() as int) == Ok::<(Seq<u8>, int), WireError>(
            (b, head.len() + field(b).len() as int),
        ),
        field(b).len() == b.len() + 4,
{
    let s = head + field(b) + tail;
    let from = head.len() as int;
    be32_reads_back(b.len());
    assert(s.subrange(from, from + 4) =~= be32(b.len()));
    assert(s.subrange(from + 4, from + 4 + b.len()) =~= b);
}

/// The bytes of a response with a number and an encrypted part.
pub open spec fn token_response_bytes(id: u32, z: nat, part: Seq<u8>, iv: Seq<u8>) -> Seq<u8> {
    be32(id as nat) + field(be_bytes(z)) + field(part) + iv
}

/// What the bytes of a response hold: the server, the number, the encrypted part and its
/// initialization vector.
pub open spec fn token_response_in(s: Seq<u8>) -> Result<(u32, nat, Seq<u8>, Seq<u8>), WireError> {
    if s.len() < 4 {
        Err(WireError::ShortResponse)
    } else {
        match field_at(s, 4) {
            Err(e) => Err(e),
            Ok((z, p)) => match field_at(s, p) {
                Err(e) => Err(e),
                Ok((part, q)) => if s.len() - q != 16 {
                    Err(WireError::BadIv)
                } else {
                    Ok(
                        (
                            of_be32(s.subrange(0, 4)) as u32,
                            be_nat(z),
                            part,
                            s.subrange(q, q + 16),
                        ),
                    )
                },
            },
        }
    }
}

/// Writes a response.
pub fn encode_token_response(resp: &TokenResponse) -> (r: Vec<u8>)
    ensures
        r@ == token_response_bytes(resp.id, resp.z_i@, resp.encrypted_partial@, resp.iv@),
{
    let mut out: Vec<u8> = Vec::new();
    put_u32(&mut out, resp.id as usize);
    put_bytes(&mut out, resp.z_i.to_bytes_be().as_slice());
    put_bytes(&mut out, resp.encrypted_partial.as_slice());
    push_bytes(&mut out, &resp.iv);
    assert(out@ =~= token_response_bytes(
        resp.id,
        resp.z_i@,
        resp.encrypted_partial@,
        resp.iv@,
    ));
    out
}

/// Reads a response.
pub fn decode_token_response(s: &[u8]) -> (r: Result<TokenResponse, WireError>)
    ensures
        match r {
            Ok(t) => token_response_in(s@) == Ok::<(u32, nat, Seq<u8>, Seq<u8>), WireError>(
                (t.id, t.z_i@, t.encrypted_partial@, t.iv@),
            ),
            Err(e) => token_response_in(s@) == Err::<(u32, nat, Seq<u8>, Seq<u8>), WireError>(e),
        },
{
    if s.len() < 4 {
        return Err(WireError::ShortResponse);
    }
    let id = read_u32(s, 0);
    let (z, p) = match field_from(s, 4) {
        Ok(v) => v,
        Err(e) => {
            return Err(e);
        },
    };
    let (encrypted_partial, q) = match field_from(s, p) {
        Ok(v) => v,
        Err(e) => {
            return Err(e);
        },
    };
    if s.len() - q != 16 {
        return Err(WireError::BadIv);
    }
    let iv = bytes::piece::<16>(s, q);
    Ok(TokenResponse { id, z_i: Nat::from_bytes_be(z.as_slice()), encrypted_partial, iv })
}

/// A response is read back as it was written.
pub proof fn token_response_reads_back(id: u32, z: nat, part: Seq<u8>, iv: Seq<u8>)
    requires
        be_bytes(z).len() <= u32::MAX,
        part.len() <= u32::MAX,
        iv.len() == 16,
    ensures
        token_response_in(token_response_bytes(id, z, part, iv)) == Ok::<
            (u32, nat, Seq<u8>, Seq<u8>),
            WireError,
        >((id, z, part, iv)),
{
    let s = token_response_bytes(id, z, part, iv);
    let head = be32(id as nat);
    let zf = field(be_bytes(z));
    let pf = field(part);
    be32_reads_back(id as nat);
    assert(s.subrange(0, 4) =~= head);
    field_reads_back(head, be_bytes(z), pf + iv);
    assert(head + zf + (pf + iv) =~= s);
    field_reads_back(head + zf, part, iv);
    assert(head + zf + pf + iv =~= s);
    lemma_be_nat_of_be_bytes(z);
    let q = 4 + zf.len() as int + pf.len() as int;
    assert(s.subrange(q, q + 16) =~= iv);
}

/// The length of a response with a point and an encrypted partial token.
pub const RESPONSE_LEN: usize = 4 + 32 + NONCE_LEN + TTG_TOKEN_LEN + TAG_LEN;

/// The bytes of a response with a point and an encrypted partial token.
pub open spec fn response_bytes(v: Response) -> Seq<u8> {
    be32(v.server_id as nat) + v.z_i + v.ctxt_i.nonce + v.ctxt_i.ct + v.ctxt_i.tag
}

/// What the bytes of such a response hold.
pub open spec fn response_in(s: Seq<u8>) -> Response {
    Response {
        server_id: of_be32(s.subrange(0, 4)) as u32,
        z_i: s.subrange(4, 36),
        ctxt_i: Blob { nonce: s.subrange(36, 60), ct: s.subrange(60, 108), tag: s.subrange(108, 124)
        },
    }
}

/// Writes a response.
pub fn encode_response(resp: &ServerResponse) -> (r: Vec<u8>)
    ensures
        r@ == response_bytes(resp@),
{
    let mut out: Vec<u8> = Vec::with_capacity(RESPONSE_LEN);
    put_u32(&mut out, resp.server_id as usize);
    push_bytes(&mut out, &resp.z_i);
    push_bytes(&mut out, &resp.ctxt_i.nonce);
    push_bytes(&mut out, &resp.ctxt_i.ct);
    push_bytes(&mut out, &resp.ctxt_i.tag);
    assert(out@ =~= response_bytes(resp@));
    out
}

/// Reads a response, which has a fixed length.
pub fn decode_response(s: &[u8]) -> (r: Result<ServerResponse, WireError>)
    ensures
        match r {
            Ok(v) => s@.len() == RESPONSE_LEN && v@ == response_in(s@),
            Err(e) => s@.len() != RESPONSE_LEN && e == WireError::BadLength,
        },
{
    if s.len() != RESPONSE_LEN {
        return Err(WireError::BadLength);
    }
    let r = ServerResponse {
        server_id: read_u32(s, 0),
        z_i: bytes::piece::<32>(s, 4),
        ctxt_i: CtBlob {
            nonce: bytes::piece::<24>(s, 36),
            ct: bytes::piece::<48>(s, 60),
            tag: bytes::piece::<16>(s, 108),
        },
    };
    assert(r@ =~= response_in(s@));
    Ok(r)
}

/// A response is read back as it was written, from the length that is asked for.
pub proof fn response_reads_back(v: Response)
    requires
        v.z_i.len() == 32,
        v.ctxt_i.nonce.len() == NONCE_LEN,
        v.ctxt_i.ct.len() == TTG_TOKEN_LEN,
        v.ctxt_i.tag.len() == TAG_LEN,
    ensures
        response_bytes(v).len() == RESPONSE_LEN,
        response_in(response_bytes(v)) == v,
{
    let s = response_bytes(v);
    be32_reads_back(v.server_id as nat);
    assert(s.subrange(0, 4) =~= be32(v.server_id as nat));
    assert(s.subrange(4, 36) =~= v.z_i);
    assert(s.subrange(36, 60) =~= v.ctxt_i.nonce);
    assert(s.subrange(60, 108) =~= v.ctxt_i.ct);
    assert(s.subrange(108, 124) =~= v.ctxt_i.tag);
    assert(response_in(s) =~= v);
}

} // verus!
