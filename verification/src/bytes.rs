//! Byte strings: encodings of numbers, concatenation, fixed-size pieces.
use vstd::prelude::*;

verus! {

/// The number that `s` encodes in base 256, least significant byte first.
pub open spec fn le_nat(s: Seq<u8>) -> nat
    decreases s.len(),
{
    if s.len() == 0 {
        0
    } else {
        s[0] as nat + 256 * le_nat(s.drop_first())
    }
}

/// The `len` least significant base-256 digits of `n`, least significant first.
pub open spec fn le_bytes(n: nat, len: nat) -> Seq<u8>
    decreases len,
{
    if len == 0 {
        Seq::empty()
    } else {
        seq![(n % 256) as u8] + le_bytes(n / 256, (len - 1) as nat)
    }
}

/// Decoding is undone by encoding at the same length.
pub proof fn lemma_le_bytes_of_le_nat(s: Seq<u8>)
    ensures
        le_bytes(le_nat(s), s.len()) == s,
    decreases s.len(),
{
    if s.len() > 0 {
        let t = s.drop_first();
        lemma_le_bytes_of_le_nat(t);
        let n = le_nat(s);
        assert(n == s[0] as nat + 256 * le_nat(t));
        assert(n % 256 == s[0] as nat && n / 256 == le_nat(t)) by (nonlinear_arith)
            requires
                n == s[0] as nat + 256 * le_nat(t),
                0 <= s[0] as nat,
                (s[0] as nat) < 256,
        ;
        assert(le_bytes(n, s.len()) =~= s);
    } else {
        assert(le_bytes(le_nat(s), 0) =~= s);
    }
}

/// Encodings of one length are determined by the number they encode.
pub proof fn lemma_le_nat_injective(a: Seq<u8>, b: Seq<u8>)
    requires
        a.len() == b.len(),
        le_nat(a) == le_nat(b),
    ensures
        a == b,
{
    lemma_le_bytes_of_le_nat(a);
    lemma_le_bytes_of_le_nat(b);
}

/// The slice as an array of its length.
pub fn to_array<const N: usize>(s: &[u8]) -> (r: [u8; N])
    requires
        s@.len() == N,
    ensures
        r@ == s@,
{
    let mut r: [u8; N] = [0u8; N];
    let mut i: usize = 0;
    while i < N
        invariant
            i <= N,
            s@.len() == N,
            forall|j: int| 0 <= j < i ==> r@[j] == s@[j],
        decreases N - i,
    {
        r[i] = s[i];
        i = i + 1;
    }
    assert(r@ =~= s@);
    r
}

/// The bytes from `from` on, `N` of them.
pub fn piece<const N: usize>(s: &[u8], from: usize) -> (r: [u8; N])
    requires
        from + N <= s@.len(),
    ensures
        r@ == s@.subrange(from as int, from + N),
{
    assert(s.len() == s@.len());
    to_array::<N>(&s[from..from + N])
}

/// Whether two byte strings are equal.
pub fn same_bytes(a: &[u8], b: &[u8]) -> (r: bool)
    ensures
        r == (a@ == b@),
{
    if a.len() != b.len() {
        return false;
    }
    let mut i: usize = 0;
    while i < a.len()
        invariant
            i <= a@.len(),
            a@.len() == b@.len(),
            forall|j: int| 0 <= j < i ==> a@[j] == b@[j],
        decreases a@.len() - i,
    {
        if a[i] != b[i] {
            return false;
        }
        i = i + 1;
    }
    assert(a@ =~= b@);
    true
}

/// A copy of the slice.
pub fn copy_bytes(s: &[u8]) -> (r: Vec<u8>)
    ensures
        r@ == s@,
{
    let mut r: Vec<u8> = Vec::with_capacity(s.len());
    push_bytes(&mut r, s);
    assert(r@ =~= s@);
    r
}

/// Appends `s` to `out`.
pub fn push_bytes(out: &mut Vec<u8>, s: &[u8])
    ensures
        final(out)@ == old(out)@ + s@,
{
    out.extend_from_slice(s);
    assert(out@ =~= old(out)@ + s@);
}

/// Two byte strings, one after the other.
pub fn cat2(a: &[u8], b: &[u8]) -> (r: Vec<u8>)
    ensures
        r@ == a@ + b@,
{
    let mut r: Vec<u8> = copy_bytes(a);
    push_bytes(&mut r, b);
    r
}

/// Three byte strings, one after the other.
pub fn cat3(a: &[u8], b: &[u8], c: &[u8]) -> (r: Vec<u8>)
    ensures
        r@ == a@ + b@ + c@,
{
    let mut r: Vec<u8> = cat2(a, b);
    push_bytes(&mut r, c);
    r
}

/// Four byte strings, one after the other.
pub fn cat4(a: &[u8], b: &[u8], c: &[u8], d: &[u8]) -> (r: Vec<u8>)
    ensures
        r@ == a@ + b@ + c@ + d@,
{
    let mut r: Vec<u8> = cat3(a, b, c);
    push_bytes(&mut r, d);
    r
}

/// The bytes of several strings, one string after the other.
pub open spec fn joined(parts: Seq<&[u8]>) -> Seq<u8>
    decreases parts.len(),
{
    if parts.len() == 0 {
        Seq::empty()
    } else {
        joined(parts.drop_last()) + parts.last()@
    }
}

/// Concatenates `parts` behind `head`.
pub fn join_after(head: &[u8], parts: &[&[u8]]) -> (r: Vec<u8>)
    ensures
        r@ == head@ + joined(parts@),
{
    let mut r: Vec<u8> = copy_bytes(head);
    let mut i: usize = 0;
    assert(r@ =~= head@ + joined(parts@.subrange(0, 0)));
    while i < parts.len()
        invariant
            i <= parts@.len(),
            r@ == head@ + joined(parts@.subrange(0, i as int)),
        decreases parts@.len() - i,
    {
        push_bytes(&mut r, parts[i]);
        proof {
            let before = parts@.subrange(0, i as int);
            let after = parts@.subrange(0, i + 1);
            assert(after.drop_last() =~= before);
            assert(head@ + (joined(before) + parts@[i as int]@) =~= head@ + joined(before)
                + parts@[i as int]@);
        }
        i = i + 1;
    }
    assert(parts@.subrange(0, i as int) =~= parts@);
    r
}

/// The little-endian bytes of a 64-bit number.
pub open spec fn u64_le(x: u64) -> Seq<u8> {
    vstd::bytes::spec_u64_to_le_bytes(x)
}

/// The little-endian bytes of a 32-bit number.
pub open spec fn u32_le(x: u32) -> Seq<u8> {
    vstd::bytes::spec_u32_to_le_bytes(x)
}

/// The 64-bit number with the given little-endian bytes.
pub open spec fn u64_of_le(s: Seq<u8>) -> u64 {
    vstd::bytes::spec_u64_from_le_bytes(s)
}

/// Encodes a 64-bit number, least significant byte first.
pub fn u64_to_le(x: u64) -> (r: [u8; 8])
    ensures
        r@ == u64_le(x),
        u64_of_le(r@) == x,
{
    proof {
        vstd::bytes::lemma_auto_spec_u64_to_from_le_bytes();
    }
    let v: Vec<u8> = vstd::bytes::u64_to_le_bytes(x);
    to_array::<8>(v.as_slice())
}

/// Encodes a 32-bit number, least significant byte first.
pub fn u32_to_le(x: u32) -> (r: [u8; 4])
    ensures
        r@ == u32_le(x),
{
    proof {
        vstd::bytes::lemma_auto_spec_u32_to_from_le_bytes();
    }
    let v: Vec<u8> = vstd::bytes::u32_to_le_bytes(x);
    to_array::<4>(v.as_slice())
}

/// Decodes a 64-bit number, least significant byte first.
pub fn u64_from_le(s: &[u8]) -> (r: u64)
    requires
        s@.len() == 8,
    ensures
        r == u64_of_le(s@),
{
    vstd::bytes::u64_from_le_bytes(s)
}

} // verus!
