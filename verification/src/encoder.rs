use vstd::prelude::*;
use vstd::bytes::*;
use crate::{CodecError, Config};
use crate::scalar::push_bytes;

verus! {

// ---------------------------------------------------------------------------
// Payload model.
//
// A payload is four regions in order:
//   header   -- total length and offset-table offset, as little-endian u32s,
//   fixed    -- the fixed region bytes, verbatim,
//   index    -- one little-endian u32 per variable segment, holding the
//               absolute payload offset at which the segment begins,
//   data     -- the variable segments' bytes, verbatim.
//
// The header and the index are little-endian whatever byte order the field
// data uses, so the structure of a payload can always be decoded.
// ---------------------------------------------------------------------------

/// Sum of the first `k` entries of a segment-length sequence.
pub open spec fn sum_prefix(lengths: Seq<u32>, k: int) -> int
    decreases k,
{
    if k <= 0 {
        0
    } else {
        sum_prefix(lengths, k - 1) + lengths[k - 1]
    }
}

/// Prefix sums of segment lengths never decrease.
pub proof fn lemma_sum_prefix_mono(lengths: Seq<u32>, j: int, k: int)
    requires
        0 <= j <= k,
    ensures
        0 <= sum_prefix(lengths, j) <= sum_prefix(lengths, k),
    decreases k,
{
    if k > 0 {
        if j == k {
            lemma_sum_prefix_mono(lengths, j - 1, k - 1);
        } else {
            lemma_sum_prefix_mono(lengths, j, k - 1);
        }
    }
}

/// A prefix sum only depends on the entries before its cut-off.
pub proof fn lemma_sum_prefix_agree(a: Seq<u32>, b: Seq<u32>, k: int)
    requires
        forall|i: int| 0 <= i < k ==> a[i] == b[i],
    ensures
        sum_prefix(a, k) == sum_prefix(b, k),
    decreases k,
{
    if k > 0 {
        lemma_sum_prefix_agree(a, b, k - 1);
    }
}

/// Byte offset at which the offset table begins: right after the header and
/// the fixed region.
pub open spec fn spec_var_index_offset(fixed: Seq<u8>) -> int {
    8 + fixed.len() as int
}

/// Byte offset at which the data region begins.
pub open spec fn spec_data_start(fixed: Seq<u8>, lengths: Seq<u32>) -> int {
    8 + fixed.len() as int + 4 * lengths.len() as int
}

/// Total byte length of the payload, header included.
pub open spec fn spec_total_len(fixed: Seq<u8>, lengths: Seq<u32>, data: Seq<u8>) -> int {
    spec_data_start(fixed, lengths) + data.len()
}

/// Absolute payload offset of the `k`-th variable segment.
pub open spec fn spec_entry(fixed: Seq<u8>, lengths: Seq<u32>, k: int) -> int {
    spec_data_start(fixed, lengths) + sum_prefix(lengths, k)
}

/// Bytes of the offset table: the first `k` entries, each a little-endian u32.
pub open spec fn index_bytes(fixed: Seq<u8>, lengths: Seq<u32>, k: int) -> Seq<u8>
    decreases k,
{
    if k <= 0 {
        Seq::empty()
    } else {
        index_bytes(fixed, lengths, k - 1)
            + spec_u32_to_le_bytes(spec_entry(fixed, lengths, k - 1) as u32)
    }
}

/// The offset table for `k` segments takes `4 * k` bytes.
pub proof fn lemma_index_bytes_len(fixed: Seq<u8>, lengths: Seq<u32>, k: int)
    requires
        k >= 0,
    ensures
        index_bytes(fixed, lengths, k).len() == 4 * k,
    decreases k,
{
    if k > 0 {
        lemma_index_bytes_len(fixed, lengths, k - 1);
        lemma_auto_spec_u32_to_from_le_bytes();
    }
}

/// The complete payload assembled from an encoder's three segments.
pub open spec fn spec_payload(fixed: Seq<u8>, lengths: Seq<u32>, data: Seq<u8>) -> Seq<u8> {
    spec_u32_to_le_bytes(spec_total_len(fixed, lengths, data) as u32)
        + spec_u32_to_le_bytes(spec_var_index_offset(fixed) as u32) + fixed
        + index_bytes(fixed, lengths, lengths.len() as int) + data
}

/// When assembling a payload succeeds: the total length and every offset
/// written into the table must fit in a u32.
pub open spec fn spec_finalize_ok(fixed: Seq<u8>, lengths: Seq<u32>, data: Seq<u8>) -> bool {
    &&& spec_total_len(fixed, lengths, data) <= u32::MAX
    &&& spec_entry(fixed, lengths, lengths.len() as int) <= u32::MAX
}

/// A payload's first header word is its own length.
pub proof fn lemma_payload_len(fixed: Seq<u8>, lengths: Seq<u32>, data: Seq<u8>)
    ensures
        spec_payload(fixed, lengths, data).len() == spec_total_len(fixed, lengths, data),
{
    lemma_index_bytes_len(fixed, lengths, lengths.len() as int);
    lemma_auto_spec_u32_to_from_le_bytes();
}

// ---------------------------------------------------------------------------
// The encoder.
// ---------------------------------------------------------------------------

/// Append-only accumulator for one payload.
///
/// Fields are pushed in declared order: fixed bytes into `fixed`, and for
/// each variable segment one length into `var_length` and the segment's bytes
/// into `data`.  [`Encoder::finalize`] assembles the four payload regions.
#[derive(Debug)]
pub struct Encoder {
    /// Construction parameters; `config.endian` governs scalar byte order.
    pub config: Config,
    /// Bytes of the fixed region.
    pub fixed: Vec<u8>,
    /// Byte length of each variable segment, in order.
    pub var_length: Vec<u32>,
    /// Bytes of the data region.
    pub data: Vec<u8>,
}

impl Encoder {
    /// An encoder is consistent when its recorded segment lengths add up to
    /// the data region it has accumulated.
    pub open spec fn wf(self) -> bool {
        sum_prefix(self.var_length@, self.var_length@.len() as int) == self.data@.len()
    }

    /// Creates an encoder with the given configuration and empty regions.
    pub fn new(config: Config) -> (r: Self)
        ensures
            r.config == config,
            r.fixed@ == Seq::<u8>::empty(),
            r.var_length@ == Seq::<u32>::empty(),
            r.data@ == Seq::<u8>::empty(),
            r.wf(),
    {
        Encoder { config, fixed: Vec::new(), var_length: Vec::new(), data: Vec::new() }
    }

    /// Returns the construction parameters (for nested encoders).
    pub fn config(&self) -> (r: &Config)
        ensures
            *r == self.config,
    {
        &self.config
    }

    /// Assembles the payload into `out`: header, fixed region, offset table,
    /// data region.  Fails, writing nothing, exactly when the total length or
    /// an offset-table entry would not fit in a u32.
    pub fn finalize(self, out: &mut Vec<u8>) -> (r: Result<(), CodecError>)
        ensures
            r is Ok <==> spec_finalize_ok(self.fixed@, self.var_length@, self.data@),
            r is Ok ==> final(out)@ == old(out)@ + spec_payload(
                self.fixed@,
                self.var_length@,
                self.data@,
            ),
            r is Err ==> final(out)@ == old(out)@,
    {
        let Encoder { config: _, fixed, var_length, data } = self;
        let ghost gl = var_length@;
        let ghost n_ghost = gl.len() as int;
        let u32_max: u64 = 0xffff_ffff;

        let fixed_len: u64 = fixed.len() as u64;
        let n: usize = var_length.len();
        let data_len: u64 = data.len() as u64;
        if fixed_len > u32_max - 8 {
            proof {
                lemma_sum_prefix_mono(gl, 0, n_ghost);
            }
            return Err(CodecError::InvalidLength);
        }
        let var_index_offset: u64 = 8 + fixed_len;
        if n as u64 > (u32_max - var_index_offset) / 4 {
            proof {
                lemma_sum_prefix_mono(gl, 0, n_ghost);
            }
            return Err(CodecError::InvalidLength);
        }
        let data_start: u64 = var_index_offset + 4 * (n as u64);
        if data_len > u32_max - data_start {
            proof {
                lemma_sum_prefix_mono(gl, 0, n_ghost);
            }
            return Err(CodecError::InvalidLength);
        }
        let total_len: u64 = data_start + data_len;

        // Build the offset table first: an entry that overflows must leave
        // `out` untouched.
        let mut index: Vec<u8> = Vec::new();
        let mut offset: u64 = data_start;
        let mut k: usize = 0;
        while k < n
            invariant
                k <= n,
                n == gl.len(),
                gl == var_length@,
                offset == spec_entry(fixed@, gl, k as int),
                offset <= u32_max,
                u32_max == 0xffff_ffff,
                data_start == spec_data_start(fixed@, gl),
                index@ == index_bytes(fixed@, gl, k as int),
                fixed@ == self.fixed@,
                gl == self.var_length@,
                data@ == self.data@,
            decreases n - k,
        {
            let entry = offset as u32;
            let b = u32_to_le_bytes(entry);
            push_bytes(&mut index, b.as_slice());
            proof {
                assert(index@ =~= index_bytes(fixed@, gl, k as int + 1));
            }
            let len_k = var_length[k];
            if len_k as u64 > u32_max - offset {
                proof {
                    assert(sum_prefix(gl, k as int + 1) == sum_prefix(gl, k as int) + gl[k as int]);
                    lemma_sum_prefix_mono(gl, k + 1, n as int);
                }
                return Err(CodecError::InvalidLength);
            }
            offset = offset + len_k as u64;
            k = k + 1;
        }

        let total_b = u32_to_le_bytes(total_len as u32);
        push_bytes(out, total_b.as_slice());
        let vio_b = u32_to_le_bytes(var_index_offset as u32);
        push_bytes(out, vio_b.as_slice());
        push_bytes(out, fixed.as_slice());
        push_bytes(out, index.as_slice());
        push_bytes(out, data.as_slice());
        proof {
            assert(out@ =~= old(out)@ + spec_payload(fixed@, gl, data@));
        }
        Ok(())
    }

    /// Writes the four magic bytes and the version byte from the
    /// configuration, then the payload as [`Encoder::finalize`] does.  If the
    /// payload itself cannot be assembled, the magic and version bytes remain
    /// written.
    pub fn finalize_with_magic_version(self, out: &mut Vec<u8>) -> (r: Result<(), CodecError>)
        ensures
            r is Ok <==> spec_finalize_ok(self.fixed@, self.var_length@, self.data@),
            r is Ok ==> final(out)@ == old(out)@ + self.config.magic@ + seq![self.config.version]
                + spec_payload(self.fixed@, self.var_length@, self.data@),
            r is Err ==> final(out)@ == old(out)@ + self.config.magic@ + seq![self.config.version],
    {
        push_bytes(out, self.config.magic.as_slice());
        out.push(self.config.version);
        proof {
            assert(out@ =~= old(out)@ + self.config.magic@ + seq![self.config.version]);
        }
        self.finalize(out)
    }
}

} // verus!
