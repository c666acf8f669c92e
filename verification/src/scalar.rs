use vstd::prelude::*;
use vstd::bytes::*;
use vstd::slice::slice_index_get;
use crate::Endian;

verus! {

// ---------------------------------------------------------------------------
// Wire byte sequences of the primitive scalars.
//
// `Native` is treated as little-endian on the wire, so only `Big` reverses
// the byte order.
// ---------------------------------------------------------------------------

/// Wire bytes of an 8-bit scalar (independent of the byte order).
pub open spec fn spec_u8_bytes(v: u8, e: Endian) -> Seq<u8> {
    seq![v]
}

/// Wire bytes of a 16-bit scalar under the given byte order.
pub open spec fn spec_u16_bytes(v: u16, e: Endian) -> Seq<u8> {
    if e is Big {
        spec_u16_to_le_bytes(v).reverse()
    } else {
        spec_u16_to_le_bytes(v)
    }
}

/// Wire bytes of a 32-bit scalar under the given byte order.
pub open spec fn spec_u32_bytes(v: u32, e: Endian) -> Seq<u8> {
    if e is Big {
        spec_u32_to_le_bytes(v).reverse()
    } else {
        spec_u32_to_le_bytes(v)
    }
}

/// Wire bytes of a 64-bit scalar under the given byte order.
pub open spec fn spec_u64_bytes(v: u64, e: Endian) -> Seq<u8> {
    if e is Big {
        spec_u64_to_le_bytes(v).reverse()
    } else {
        spec_u64_to_le_bytes(v)
    }
}

/// The 8-bit scalar read back from its wire byte.
pub open spec fn spec_u8_of_bytes(s: Seq<u8>, e: Endian) -> u8
    recommends
        s.len() == 1,
{
    s[0]
}

/// The 16-bit scalar read back from its wire bytes.
pub open spec fn spec_u16_of_bytes(s: Seq<u8>, e: Endian) -> u16
    recommends
        s.len() == 2,
{
    if e is Big {
        spec_u16_from_le_bytes(s.reverse())
    } else {
        spec_u16_from_le_bytes(s)
    }
}

/// The 32-bit scalar read back from its wire bytes.
pub open spec fn spec_u32_of_bytes(s: Seq<u8>, e: Endian) -> u32
    recommends
        s.len() == 4,
{
    if e is Big {
        spec_u32_from_le_bytes(s.reverse())
    } else {
        spec_u32_from_le_bytes(s)
    }
}

/// The 64-bit scalar read back from its wire bytes.
pub open spec fn spec_u64_of_bytes(s: Seq<u8>, e: Endian) -> u64
    recommends
        s.len() == 8,
{
    if e is Big {
        spec_u64_from_le_bytes(s.reverse())
    } else {
        spec_u64_from_le_bytes(s)
    }
}

// ---------------------------------------------------------------------------
// Reversal facts.
// ---------------------------------------------------------------------------

/// Reversing a byte sequence twice gives back the sequence.
pub proof fn lemma_reverse_reverse(s: Seq<u8>)
    ensures
        s.reverse().reverse() == s,
{
    assert(s.reverse().reverse() =~= s);
}

/// Encoding under `Big` yields exactly the little-endian bytes reversed,
/// and `Native` encodes as `Little` does.
pub proof fn lemma_endian_bytes(v16: u16, v32: u32, v64: u64)
    ensures
        spec_u16_bytes(v16, Endian::Big) == spec_u16_bytes(v16, Endian::Little).reverse(),
        spec_u32_bytes(v32, Endian::Big) == spec_u32_bytes(v32, Endian::Little).reverse(),
        spec_u64_bytes(v64, Endian::Big) == spec_u64_bytes(v64, Endian::Little).reverse(),
        spec_u16_bytes(v16, Endian::Native) == spec_u16_bytes(v16, Endian::Little),
        spec_u32_bytes(v32, Endian::Native) == spec_u32_bytes(v32, Endian::Little),
        spec_u64_bytes(v64, Endian::Native) == spec_u64_bytes(v64, Endian::Little),
{
}

// ---------------------------------------------------------------------------
// Roundtrip lemmas: reading back the wire bytes of a scalar gives the scalar.
// ---------------------------------------------------------------------------

/// Length and roundtrip facts for the 16-bit codec.
pub proof fn lemma_u16_roundtrip(v: u16, e: Endian)
    ensures
        spec_u16_bytes(v, e).len() == 2,
        spec_u16_of_bytes(spec_u16_bytes(v, e), e) == v,
{
    lemma_auto_spec_u16_to_from_le_bytes();
    if e is Big {
        lemma_reverse_reverse(spec_u16_to_le_bytes(v));
    }
}

/// Length and roundtrip facts for the 32-bit codec.
pub proof fn lemma_u32_roundtrip(v: u32, e: Endian)
    ensures
        spec_u32_bytes(v, e).len() == 4,
        spec_u32_of_bytes(spec_u32_bytes(v, e), e) == v,
{
    lemma_auto_spec_u32_to_from_le_bytes();
    if e is Big {
        lemma_reverse_reverse(spec_u32_to_le_bytes(v));
    }
}

/// Length and roundtrip facts for the 64-bit codec.
pub proof fn lemma_u64_roundtrip(v: u64, e: Endian)
    ensures
        spec_u64_bytes(v, e).len() == 8,
        spec_u64_of_bytes(spec_u64_bytes(v, e), e) == v,
{
    lemma_auto_spec_u64_to_from_le_bytes();
    if e is Big {
        lemma_reverse_reverse(spec_u64_to_le_bytes(v));
    }
}

// ---------------------------------------------------------------------------
// Sequences of scalars: the bytes of a whole element sequence, and the
// element sequence read back from bytes.
// ---------------------------------------------------------------------------

/// Wire bytes of a sequence of 16-bit scalars, back to back.
pub open spec fn spec_u16_seq_bytes(vs: Seq<u16>, e: Endian) -> Seq<u8>
    decreases vs.len(),
{
    if vs.len() == 0 {
        Seq::empty()
    } else {
        spec_u16_seq_bytes(vs.drop_last(), e) + spec_u16_bytes(vs.last(), e)
    }
}

/// Wire bytes of a sequence of 32-bit scalars, back to back.
pub open spec fn spec_u32_seq_bytes(vs: Seq<u32>, e: Endian) -> Seq<u8>
    decreases vs.len(),
{
    if vs.len() == 0 {
        Seq::empty()
    } else {
        spec_u32_seq_bytes(vs.drop_last(), e) + spec_u32_bytes(vs.last(), e)
    }
}

/// A sequence of 16-bit scalars takes two bytes per element.
pub proof fn lemma_u16_seq_bytes_len(vs: Seq<u16>, e: Endian)
    ensures
        spec_u16_seq_bytes(vs, e).len() == 2 * vs.len(),
    decreases vs.len(),
{
    if vs.len() > 0 {
        lemma_u16_seq_bytes_len(vs.drop_last(), e);
        lemma_u16_roundtrip(vs.last(), e);
    }
}

/// A sequence of 32-bit scalars takes four bytes per element.
pub proof fn lemma_u32_seq_bytes_len(vs: Seq<u32>, e: Endian)
    ensures
        spec_u32_seq_bytes(vs, e).len() == 4 * vs.len(),
    decreases vs.len(),
{
    if vs.len() > 0 {
        lemma_u32_seq_bytes_len(vs.drop_last(), e);
        lemma_u32_roundtrip(vs.last(), e);
    }
}

/// The 16-bit scalars read back from a run of two-byte groups.
pub open spec fn spec_u16_seq_of_bytes(s: Seq<u8>, e: Endian) -> Seq<u16>
    recommends
        s.len() % 2 == 0,
{
    Seq::new((s.len() / 2) as nat, |k: int| spec_u16_of_bytes(s.subrange(2 * k, 2 * k + 2), e))
}

/// The 32-bit scalars read back from a run of four-byte groups.
pub open spec fn spec_u32_seq_of_bytes(s: Seq<u8>, e: Endian) -> Seq<u32>
    recommends
        s.len() % 4 == 0,
{
    Seq::new((s.len() / 4) as nat, |k: int| spec_u32_of_bytes(s.subrange(4 * k, 4 * k + 4), e))
}

/// The bytes of the `k`-th element in a run of 16-bit scalars.
pub proof fn lemma_u16_seq_extract(vs: Seq<u16>, e: Endian, k: int)
    requires
        0 <= k < vs.len(),
    ensures
        spec_u16_seq_bytes(vs, e).subrange(2 * k, 2 * k + 2) == spec_u16_bytes(vs[k], e),
    decreases vs.len(),
{
    lemma_u16_seq_bytes_len(vs, e);
    lemma_u16_seq_bytes_len(vs.drop_last(), e);
    lemma_u16_roundtrip(vs.last(), e);
    if k == vs.len() - 1 {
        assert(spec_u16_seq_bytes(vs, e).subrange(2 * k, 2 * k + 2) =~= spec_u16_bytes(
            vs.last(),
            e,
        ));
    } else {
        lemma_u16_seq_extract(vs.drop_last(), e, k);
        assert(spec_u16_seq_bytes(vs, e).subrange(2 * k, 2 * k + 2) =~= spec_u16_seq_bytes(
            vs.drop_last(),
            e,
        ).subrange(2 * k, 2 * k + 2));
    }
}

/// The bytes of the `k`-th element in a run of 32-bit scalars.
pub proof fn lemma_u32_seq_extract(vs: Seq<u32>, e: Endian, k: int)
    requires
        0 <= k < vs.len(),
    ensures
        spec_u32_seq_bytes(vs, e).subrange(4 * k, 4 * k + 4) == spec_u32_bytes(vs[k], e),
    decreases vs.len(),
{
    lemma_u32_seq_bytes_len(vs, e);
    lemma_u32_seq_bytes_len(vs.drop_last(), e);
    lemma_u32_roundtrip(vs.last(), e);
    if k == vs.len() - 1 {
        assert(spec_u32_seq_bytes(vs, e).subrange(4 * k, 4 * k + 4) =~= spec_u32_bytes(
            vs.last(),
            e,
        ));
    } else {
        lemma_u32_seq_extract(vs.drop_last(), e, k);
        assert(spec_u32_seq_bytes(vs, e).subrange(4 * k, 4 * k + 4) =~= spec_u32_seq_bytes(
            vs.drop_last(),
            e,
        ).subrange(4 * k, 4 * k + 4));
    }
}

/// Reading back the bytes of a 16-bit scalar run gives the run.
pub proof fn lemma_u16_seq_roundtrip(vs: Seq<u16>, e: Endian)
    ensures
        spec_u16_seq_of_bytes(spec_u16_seq_bytes(vs, e), e) == vs,
{
    lemma_u16_seq_bytes_len(vs, e);
    let s = spec_u16_seq_bytes(vs, e);
    assert forall|k: int| 0 <= k < vs.len() implies spec_u16_seq_of_bytes(s, e)[k] == vs[k] by {
        lemma_u16_seq_extract(vs, e, k);
        lemma_u16_roundtrip(vs[k], e);
    }
    assert(spec_u16_seq_of_bytes(s, e) =~= vs);
}

/// Reading back the bytes of a 32-bit scalar run gives the run.
pub proof fn lemma_u32_seq_roundtrip(vs: Seq<u32>, e: Endian)
    ensures
        spec_u32_seq_of_bytes(spec_u32_seq_bytes(vs, e), e) == vs,
{
    lemma_u32_seq_bytes_len(vs, e);
    let s = spec_u32_seq_bytes(vs, e);
    assert forall|k: int| 0 <= k < vs.len() implies spec_u32_seq_of_bytes(s, e)[k] == vs[k] by {
        lemma_u32_seq_extract(vs, e, k);
        lemma_u32_roundtrip(vs[k], e);
    }
    assert(spec_u32_seq_of_bytes(s, e) =~= vs);
}

// ---------------------------------------------------------------------------
// Executable helpers.
// ---------------------------------------------------------------------------

/// Appends every byte of `s` to `out`, in order.
pub fn push_bytes(out: &mut Vec<u8>, s: &[u8])
    ensures
        final(out)@ == old(out)@ + s@,
{
    let n = s.len();
    let mut i: usize = 0;
    while i < n
        invariant
            i <= n,
            n == s@.len(),
            out@ == old(out)@ + s@.subrange(0, i as int),
        decreases n - i,
    {
        out.push(*slice_index_get(s, i));
        proof {
            assert(out@ =~= old(out)@ + s@.subrange(0, i + 1));
        }
        i = i + 1;
    }
    proof {
        assert(s@.subrange(0, n as int) =~= s@);
    }
}

/// Returns the bytes of `s` in reverse order.
pub fn reverse_bytes(s: &[u8]) -> (r: Vec<u8>)
    ensures
        r@ == s@.reverse(),
{
    let n = s.len();
    let mut out: Vec<u8> = Vec::new();
    let mut i: usize = 0;
    while i < n
        invariant
            i <= n,
            n == s@.len(),
            out@.len() == i,
            forall|j: int| 0 <= j < i ==> out@[j] == s@[n - 1 - j],
        decreases n - i,
    {
        out.push(*slice_index_get(s, n - 1 - i));
        i = i + 1;
    }
    proof {
        assert(out@ =~= s@.reverse());
    }
    out
}

// ---------------------------------------------------------------------------
// Executable scalar encoders: append the wire bytes of one scalar.
// ---------------------------------------------------------------------------

/// Appends the wire byte of an 8-bit scalar.
pub fn push_u8(out: &mut Vec<u8>, v: u8, e: Endian)
    ensures
        final(out)@ == old(out)@ + spec_u8_bytes(v, e),
{
    out.push(v);
    proof {
        assert(out@ =~= old(out)@ + spec_u8_bytes(v, e));
    }
}

/// Appends the wire bytes of a 16-bit scalar under the given byte order.
pub fn push_u16(out: &mut Vec<u8>, v: u16, e: Endian)
    ensures
        final(out)@ == old(out)@ + spec_u16_bytes(v, e),
{
    let b = u16_to_le_bytes(v);
    match e {
        Endian::Big => {
            let mut r = reverse_bytes(b.as_slice());
            out.append(&mut r);
        },
        _ => {
            let mut b = b;
            out.append(&mut b);
        },
    }
}

/// Appends the wire bytes of a 32-bit scalar under the given byte order.
pub fn push_u32(out: &mut Vec<u8>, v: u32, e: Endian)
    ensures
        final(out)@ == old(out)@ + spec_u32_bytes(v, e),
{
    let b = u32_to_le_bytes(v);
    match e {
        Endian::Big => {
            let mut r = reverse_bytes(b.as_slice());
            out.append(&mut r);
        },
        _ => {
            let mut b = b;
            out.append(&mut b);
        },
    }
}

/// Appends the wire bytes of a 64-bit scalar under the given byte order.
pub fn push_u64(out: &mut Vec<u8>, v: u64, e: Endian)
    ensures
        final(out)@ == old(out)@ + spec_u64_bytes(v, e),
{
    let b = u64_to_le_bytes(v);
    match e {
        Endian::Big => {
            let mut r = reverse_bytes(b.as_slice());
            out.append(&mut r);
        },
        _ => {
            let mut b = b;
            out.append(&mut b);
        },
    }
}

// ---------------------------------------------------------------------------
// Executable scalar decoders: read one scalar back from its wire bytes.
// ---------------------------------------------------------------------------

/// Reads an 8-bit scalar from its wire byte.
pub fn read_u8(bytes: &[u8], e: Endian) -> (r: u8)
    requires
        bytes@.len() == 1,
    ensures
        r == spec_u8_of_bytes(bytes@, e),
{
    *slice_index_get(bytes, 0)
}

/// Reads a 16-bit scalar from its wire bytes under the given byte order.
pub fn read_u16(bytes: &[u8], e: Endian) -> (r: u16)
    requires
        bytes@.len() == 2,
    ensures
        r == spec_u16_of_bytes(bytes@, e),
{
    match e {
        Endian::Big => {
            let t = reverse_bytes(bytes);
            u16_from_le_bytes(t.as_slice())
        },
        _ => u16_from_le_bytes(bytes),
    }
}

/// Reads a 32-bit scalar from its wire bytes under the given byte order.
pub fn read_u32(bytes: &[u8], e: Endian) -> (r: u32)
    requires
        bytes@.len() == 4,
    ensures
        r == spec_u32_of_bytes(bytes@, e),
{
    match e {
        Endian::Big => {
            let t = reverse_bytes(bytes);
            u32_from_le_bytes(t.as_slice())
        },
        _ => u32_from_le_bytes(bytes),
    }
}

/// Reads a 64-bit scalar from its wire bytes under the given byte order.
pub fn read_u64(bytes: &[u8], e: Endian) -> (r: u64)
    requires
        bytes@.len() == 8,
    ensures
        r == spec_u64_of_bytes(bytes@, e),
{
    match e {
        Endian::Big => {
            let t = reverse_bytes(bytes);
            u64_from_le_bytes(t.as_slice())
        },
        _ => u64_from_le_bytes(bytes),
    }
}

} // verus!
