use vstd::prelude::*;
use vstd::slice::slice_subrange;
use crate::codec::CodecError;
use crate::decoder::{
    spec_buf_fixed, spec_buf_segment, spec_buf_segment_ok, spec_buf_var_count, Decoder,
};
use crate::scalar::{
    read_u16, read_u32, read_u64, read_u8, spec_u16_of_bytes, spec_u16_seq_of_bytes,
    spec_u32_of_bytes, spec_u32_seq_of_bytes, spec_u64_of_bytes, spec_u8_of_bytes,
};
use crate::Endian;

verus! {

/// Two decoders that describe the same payload and differ at most in their
/// cursors.
pub open spec fn spec_same_stream<'a>(a: Decoder<'a>, b: Decoder<'a>) -> bool {
    &&& a.buf@ == b.buf@
    &&& a.total_len == b.total_len
    &&& a.var_idx_offset == b.var_idx_offset
    &&& a.data_offset == b.data_offset
    &&& a.endian == b.endian
}

// ---------------------------------------------------------------------------
// Fixed-region field decoding.
// ---------------------------------------------------------------------------

/// Decodes one 8-bit scalar from the fixed region.
pub fn decode_fixed_value_u8(d: &mut Decoder) -> (r: Result<u8, CodecError>)
    requires
        old(d).wf(),
    ensures
        final(d).wf(),
        spec_same_stream(*final(d), *old(d)),
        final(d).var_cursor == old(d).var_cursor,
        r is Ok <==> old(d).fixed_cursor + 1 <= old(d).var_idx_offset - 8,
        r matches Ok(v) ==> v == spec_u8_of_bytes(
            spec_buf_fixed(old(d).buf@).subrange(
                old(d).fixed_cursor as int,
                old(d).fixed_cursor + 1,
            ),
            old(d).endian,
        ) && final(d).fixed_cursor == old(d).fixed_cursor + 1,
        r is Err ==> final(d).fixed_cursor == old(d).fixed_cursor,
{
    let bytes = match d.next_fixed_bytes(1) {
        Ok(b) => b,
        Err(e) => {
            return Err(e);
        },
    };
    Ok(read_u8(bytes, d.endian))
}

/// Decodes one 16-bit scalar from the fixed region.
pub fn decode_fixed_value_u16(d: &mut Decoder) -> (r: Result<u16, CodecError>)
    requires
        old(d).wf(),
    ensures
        final(d).wf(),
        spec_same_stream(*final(d), *old(d)),
        final(d).var_cursor == old(d).var_cursor,
        r is Ok <==> old(d).fixed_cursor + 2 <= old(d).var_idx_offset - 8,
        r matches Ok(v) ==> v == spec_u16_of_bytes(
            spec_buf_fixed(old(d).buf@).subrange(
                old(d).fixed_cursor as int,
                old(d).fixed_cursor + 2,
            ),
            old(d).endian,
        ) && final(d).fixed_cursor == old(d).fixed_cursor + 2,
        r is Err ==> final(d).fixed_cursor == old(d).fixed_cursor,
{
    let bytes = match d.next_fixed_bytes(2) {
        Ok(b) => b,
        Err(e) => {
            return Err(e);
        },
    };
    Ok(read_u16(bytes, d.endian))
}

/// Decodes one 32-bit scalar from the fixed region.
pub fn decode_fixed_value_u32(d: &mut Decoder) -> (r: Result<u32, CodecError>)
    requires
        old(d).wf(),
    ensures
        final(d).wf(),
        spec_same_stream(*final(d), *old(d)),
        final(d).var_cursor == old(d).var_cursor,
        r is Ok <==> old(d).fixed_cursor + 4 <= old(d).var_idx_offset - 8,
        r matches Ok(v) ==> v == spec_u32_of_bytes(
            spec_buf_fixed(old(d).buf@).subrange(
                old(d).fixed_cursor as int,
                old(d).fixed_cursor + 4,
            ),
            old(d).endian,
        ) && final(d).fixed_cursor == old(d).fixed_cursor + 4,
        r is Err ==> final(d).fixed_cursor == old(d).fixed_cursor,
{
    let bytes = match d.next_fixed_bytes(4) {
        Ok(b) => b,
        Err(e) => {
            return Err(e);
        },
    };
    Ok(read_u32(bytes, d.endian))
}

/// Decodes one 64-bit scalar from the fixed region.
pub fn decode_fixed_value_u64(d: &mut Decoder) -> (r: Result<u64, CodecError>)
    requires
        old(d).wf(),
    ensures
        final(d).wf(),
        spec_same_stream(*final(d), *old(d)),
        final(d).var_cursor == old(d).var_cursor,
        r is Ok <==> old(d).fixed_cursor + 8 <= old(d).var_idx_offset - 8,
        r matches Ok(v) ==> v == spec_u64_of_bytes(
            spec_buf_fixed(old(d).buf@).subrange(
                old(d).fixed_cursor as int,
                old(d).fixed_cursor + 8,
            ),
            old(d).endian,
        ) && final(d).fixed_cursor == old(d).fixed_cursor + 8,
        r is Err ==> final(d).fixed_cursor == old(d).fixed_cursor,
{
    let bytes = match d.next_fixed_bytes(8) {
        Ok(b) => b,
        Err(e) => {
            return Err(e);
        },
    };
    Ok(read_u64(bytes, d.endian))
}

/// Decodes one signed 8-bit scalar from the fixed region.
pub fn decode_fixed_value_i8(d: &mut Decoder) -> (r: Result<i8, CodecError>)
    requires
        old(d).wf(),
    ensures
        final(d).wf(),
        spec_same_stream(*final(d), *old(d)),
        final(d).var_cursor == old(d).var_cursor,
        r is Ok <==> old(d).fixed_cursor + 1 <= old(d).var_idx_offset - 8,
        r matches Ok(v) ==> v == spec_u8_of_bytes(
            spec_buf_fixed(old(d).buf@).subrange(
                old(d).fixed_cursor as int,
                old(d).fixed_cursor + 1,
            ),
            old(d).endian,
        ) as i8 && final(d).fixed_cursor == old(d).fixed_cursor + 1,
        r is Err ==> final(d).fixed_cursor == old(d).fixed_cursor,
{
    let v = match decode_fixed_value_u8(d) {
        Ok(v) => v,
        Err(e) => {
            return Err(e);
        },
    };
    Ok(v as i8)
}

/// Decodes one signed 16-bit scalar from the fixed region.
pub fn decode_fixed_value_i16(d: &mut Decoder) -> (r: Result<i16, CodecError>)
    requires
        old(d).wf(),
    ensures
        final(d).wf(),
        spec_same_stream(*final(d), *old(d)),
        final(d).var_cursor == old(d).var_cursor,
        r is Ok <==> old(d).fixed_cursor + 2 <= old(d).var_idx_offset - 8,
        r matches Ok(v) ==> v == spec_u16_of_bytes(
            spec_buf_fixed(old(d).buf@).subrange(
                old(d).fixed_cursor as int,
                old(d).fixed_cursor + 2,
            ),
            old(d).endian,
        ) as i16 && final(d).fixed_cursor == old(d).fixed_cursor + 2,
        r is Err ==> final(d).fixed_cursor == old(d).fixed_cursor,
{
    let v = match decode_fixed_value_u16(d) {
        Ok(v) => v,
        Err(e) => {
            return Err(e);
        },
    };
    Ok(v as i16)
}

/// Decodes one signed 32-bit scalar from the fixed region.
pub fn decode_fixed_value_i32(d: &mut Decoder) -> (r: Result<i32, CodecError>)
    requires
        old(d).wf(),
    ensures
        final(d).wf(),
        spec_same_stream(*final(d), *old(d)),
        final(d).var_cursor == old(d).var_cursor,
        r is Ok <==> old(d).fixed_cursor + 4 <= old(d).var_idx_offset - 8,
        r matches Ok(v) ==> v == spec_u32_of_bytes(
            spec_buf_fixed(old(d).buf@).subrange(
                old(d).fixed_cursor as int,
                old(d).fixed_cursor + 4,
            ),
            old(d).endian,
        ) as i32 && final(d).fixed_cursor == old(d).fixed_cursor + 4,
        r is Err ==> final(d).fixed_cursor == old(d).fixed_cursor,
{
    let v = match decode_fixed_value_u32(d) {
        Ok(v) => v,
        Err(e) => {
            return Err(e);
        },
    };
    Ok(v as i32)
}

/// Decodes one signed 64-bit scalar from the fixed region.
pub fn decode_fixed_value_i64(d: &mut Decoder) -> (r: Result<i64, CodecError>)
    requires
        old(d).wf(),
    ensures
        final(d).wf(),
        spec_same_stream(*final(d), *old(d)),
        final(d).var_cursor == old(d).var_cursor,
        r is Ok <==> old(d).fixed_cursor + 8 <= old(d).var_idx_offset - 8,
        r matches Ok(v) ==> v == spec_u64_of_bytes(
            spec_buf_fixed(old(d).buf@).subrange(
                old(d).fixed_cursor as int,
                old(d).fixed_cursor + 8,
            ),
            old(d).endian,
        ) as i64 && final(d).fixed_cursor == old(d).fixed_cursor + 8,
        r is Err ==> final(d).fixed_cursor == old(d).fixed_cursor,
{
    let v = match decode_fixed_value_u64(d) {
        Ok(v) => v,
        Err(e) => {
            return Err(e);
        },
    };
    Ok(v as i64)
}

/// Decodes a two-element array of 16-bit scalars from the fixed region.
pub fn decode_fixed_array_u16_2(d: &mut Decoder) -> (r: Result<[u16; 2], CodecError>)
    requires
        old(d).wf(),
    ensures
        final(d).wf(),
        spec_same_stream(*final(d), *old(d)),
        final(d).var_cursor == old(d).var_cursor,
        r is Ok <==> old(d).fixed_cursor + 4 <= old(d).var_idx_offset - 8,
        r matches Ok(v) ==> {
            &&& v@[0] == spec_u16_of_bytes(
                spec_buf_fixed(old(d).buf@).subrange(
                    old(d).fixed_cursor as int,
                    old(d).fixed_cursor + 2,
                ),
                old(d).endian,
            )
            &&& v@[1] == spec_u16_of_bytes(
                spec_buf_fixed(old(d).buf@).subrange(
                    old(d).fixed_cursor + 2,
                    old(d).fixed_cursor + 4,
                ),
                old(d).endian,
            )
            &&& final(d).fixed_cursor == old(d).fixed_cursor + 4
        },
        r is Err ==> final(d).fixed_cursor == old(d).fixed_cursor,
{
    let bytes = match d.next_fixed_bytes(4) {
        Ok(b) => b,
        Err(e) => {
            return Err(e);
        },
    };
    let a = read_u16(slice_subrange(bytes, 0, 2), d.endian);
    let b = read_u16(slice_subrange(bytes, 2, 4), d.endian);
    proof {
        assert(bytes@.subrange(0, 2) =~= spec_buf_fixed(old(d).buf@).subrange(
            old(d).fixed_cursor as int,
            old(d).fixed_cursor + 2,
        ));
        assert(bytes@.subrange(2, 4) =~= spec_buf_fixed(old(d).buf@).subrange(
            old(d).fixed_cursor + 2,
            old(d).fixed_cursor + 4,
        ));
    }
    Ok([a, b])
}

// ---------------------------------------------------------------------------
// Element-run decoding over raw bytes.
// ---------------------------------------------------------------------------

/// Reinterprets a byte run as 16-bit scalars.  Fails exactly when the length
/// is not a multiple of two.
pub fn decode_fixed_slice_u16(bytes: &[u8], e: Endian) -> (r: Result<Vec<u16>, CodecError>)
    ensures
        r is Ok <==> bytes@.len() % 2 == 0,
        r matches Ok(v) ==> v@ == spec_u16_seq_of_bytes(bytes@, e),
{
    let len = bytes.len();
    if len % 2 != 0 {
        return Err(CodecError::InvalidLength);
    }
    let n = len / 2;
    let mut out: Vec<u16> = Vec::new();
    let mut k: usize = 0;
    while k < n
        invariant
            k <= n,
            len == bytes@.len(),
            2 * n <= len,
            n == bytes@.len() / 2,
            bytes@.len() % 2 == 0,
            out@.len() == k,
            forall|j: int|
                0 <= j < k ==> out@[j] == spec_u16_of_bytes(
                    bytes@.subrange(2 * j, 2 * j + 2),
                    e,
                ),
        decreases n - k,
    {
        let b = slice_subrange(bytes, 2 * k, 2 * k + 2);
        out.push(read_u16(b, e));
        k = k + 1;
    }
    proof {
        assert(out@ =~= spec_u16_seq_of_bytes(bytes@, e));
    }
    Ok(out)
}

/// Reinterprets a byte run as 32-bit scalars.  Fails exactly when the length
/// is not a multiple of four.
pub fn decode_fixed_slice_u32(bytes: &[u8], e: Endian) -> (r: Result<Vec<u32>, CodecError>)
    ensures
        r is Ok <==> bytes@.len() % 4 == 0,
        r matches Ok(v) ==> v@ == spec_u32_seq_of_bytes(bytes@, e),
{
    let len = bytes.len();
    if len % 4 != 0 {
        return Err(CodecError::InvalidLength);
    }
    let n = len / 4;
    let mut out: Vec<u32> = Vec::new();
    let mut k: usize = 0;
    while k < n
        invariant
            k <= n,
            len == bytes@.len(),
            4 * n <= len,
            n == bytes@.len() / 4,
            bytes@.len() % 4 == 0,
            out@.len() == k,
            forall|j: int|
                0 <= j < k ==> out@[j] == spec_u32_of_bytes(
                    bytes@.subrange(4 * j, 4 * j + 4),
                    e,
                ),
        decreases n - k,
    {
        let b = slice_subrange(bytes, 4 * k, 4 * k + 4);
        out.push(read_u32(b, e));
        k = k + 1;
    }
    proof {
        assert(out@ =~= spec_u32_seq_of_bytes(bytes@, e));
    }
    Ok(out)
}

/// Hands a byte run back unchanged: byte segments are borrowed, not copied.
pub fn decode_fixed_slice_u8_ref<'a>(bytes: &'a [u8]) -> (r: Result<&'a [u8], CodecError>)
    ensures
        r is Ok,
        r matches Ok(s) ==> s@ == bytes@,
{
    Ok(bytes)
}

// ---------------------------------------------------------------------------
// Variable-field decoding.
// ---------------------------------------------------------------------------

/// Decodes a var1 byte field: the next variable segment, borrowed.
pub fn decode_bytes_field<'a>(d: &mut Decoder<'a>) -> (r: Result<&'a [u8], CodecError>)
    requires
        old(d).wf(),
    ensures
        final(d).wf(),
        spec_same_stream(*final(d), *old(d)),
        final(d).fixed_cursor == old(d).fixed_cursor,
        r is Ok <==> old(d).var_cursor < spec_buf_var_count(old(d).buf@) && spec_buf_segment_ok(
            old(d).buf@,
            old(d).var_cursor as int,
        ),
        r matches Ok(s) ==> s@ == spec_buf_segment(old(d).buf@, old(d).var_cursor as int)
            && final(d).var_cursor == old(d).var_cursor + 1,
{
    d.next_var()
}

/// Decodes a var1 field of 16-bit elements: the next variable segment,
/// reinterpreted as scalars.
pub fn decode_vec_u16_field(d: &mut Decoder) -> (r: Result<Vec<u16>, CodecError>)
    requires
        old(d).wf(),
    ensures
        final(d).wf(),
        spec_same_stream(*final(d), *old(d)),
        final(d).fixed_cursor == old(d).fixed_cursor,
        r is Ok <==> old(d).var_cursor < spec_buf_var_count(old(d).buf@) && spec_buf_segment_ok(
            old(d).buf@,
            old(d).var_cursor as int,
        ) && spec_buf_segment(old(d).buf@, old(d).var_cursor as int).len() % 2 == 0,
        r matches Ok(v) ==> v@ == spec_u16_seq_of_bytes(
            spec_buf_segment(old(d).buf@, old(d).var_cursor as int),
            old(d).endian,
        ) && final(d).var_cursor == old(d).var_cursor + 1,
{
    let bytes = match d.next_var() {
        Ok(s) => s,
        Err(e) => {
            return Err(e);
        },
    };
    decode_fixed_slice_u16(bytes, d.endian)
}

/// Decodes a var1 field of 32-bit elements: the next variable segment,
/// reinterpreted as scalars.
pub fn decode_vec_u32_field(d: &mut Decoder) -> (r: Result<Vec<u32>, CodecError>)
    requires
        old(d).wf(),
    ensures
        final(d).wf(),
        spec_same_stream(*final(d), *old(d)),
        final(d).fixed_cursor == old(d).fixed_cursor,
        r is Ok <==> old(d).var_cursor < spec_buf_var_count(old(d).buf@) && spec_buf_segment_ok(
            old(d).buf@,
            old(d).var_cursor as int,
        ) && spec_buf_segment(old(d).buf@, old(d).var_cursor as int).len() % 4 == 0,
        r matches Ok(v) ==> v@ == spec_u32_seq_of_bytes(
            spec_buf_segment(old(d).buf@, old(d).var_cursor as int),
            old(d).endian,
        ) && final(d).var_cursor == old(d).var_cursor + 1,
{
    let bytes = match d.next_var() {
        Ok(s) => s,
        Err(e) => {
            return Err(e);
        },
    };
    decode_fixed_slice_u32(bytes, d.endian)
}

/// Decodes a var2 byte field: every remaining variable segment, borrowed.
/// Refused at once when the field is not flagged as the last variable field.
pub fn decode_var2_bytes_field<'a>(d: &mut Decoder<'a>, is_last_var: bool) -> (r: Result<
    Vec<&'a [u8]>,
    CodecError,
>)
    requires
        old(d).wf(),
    ensures
        final(d).wf(),
        spec_same_stream(*final(d), *old(d)),
        final(d).fixed_cursor == old(d).fixed_cursor,
        !is_last_var ==> r is Err && final(d).var_cursor == old(d).var_cursor,
        is_last_var ==> (r is Ok <==> forall|k: int|
            old(d).var_cursor <= k < spec_buf_var_count(old(d).buf@) ==> spec_buf_segment_ok(
                old(d).buf@,
                k,
            )),
        r matches Ok(v) ==> {
            &&& v@.len() == spec_buf_var_count(old(d).buf@) - old(d).var_cursor
            &&& forall|j: int|
                0 <= j < v@.len() ==> (#[trigger] v@[j])@ == spec_buf_segment(
                    old(d).buf@,
                    old(d).var_cursor + j,
                )
            &&& final(d).var_cursor == spec_buf_var_count(old(d).buf@)
        },
{
    if !is_last_var {
        return Err(CodecError::InvalidLength);
    }
    let count = d.var_count();
    let mut out: Vec<&'a [u8]> = Vec::new();
    while d.var_cursor < count
        invariant
            is_last_var,
            d.wf(),
            spec_same_stream(*d, *old(d)),
            d.fixed_cursor == old(d).fixed_cursor,
            count == spec_buf_var_count(old(d).buf@),
            old(d).var_cursor <= d.var_cursor <= count,
            out@.len() == d.var_cursor - old(d).var_cursor,
            forall|j: int|
                0 <= j < out@.len() ==> (#[trigger] out@[j])@ == spec_buf_segment(
                    old(d).buf@,
                    old(d).var_cursor + j,
                ),
            forall|k: int| old(d).var_cursor <= k < d.var_cursor ==> spec_buf_segment_ok(
                old(d).buf@,
                k,
            ),
        decreases count - d.var_cursor,
    {
        let s = match d.next_var() {
            Ok(s) => s,
            Err(e) => {
                return Err(e);
            },
        };
        out.push(s);
    }
    Ok(out)
}

/// Decodes a var2 field of 16-bit element segments: every remaining variable
/// segment, each reinterpreted as scalars.  Refused at once when the field
/// is not flagged as the last variable field.
pub fn decode_var2_vec_u16_field(d: &mut Decoder, is_last_var: bool) -> (r: Result<
    Vec<Vec<u16>>,
    CodecError,
>)
    requires
        old(d).wf(),
    ensures
        final(d).wf(),
        spec_same_stream(*final(d), *old(d)),
        final(d).fixed_cursor == old(d).fixed_cursor,
        !is_last_var ==> r is Err && final(d).var_cursor == old(d).var_cursor,
        is_last_var ==> (r is Ok <==> forall|k: int|
            old(d).var_cursor <= k < spec_buf_var_count(old(d).buf@)
                ==> #[trigger] spec_buf_segment_ok(old(d).buf@, k) && spec_buf_segment(
                old(d).buf@,
                k,
            ).len() % 2 == 0),
        r matches Ok(v) ==> {
            &&& v@.len() == spec_buf_var_count(old(d).buf@) - old(d).var_cursor
            &&& forall|j: int|
                0 <= j < v@.len() ==> (#[trigger] v@[j])@ == spec_u16_seq_of_bytes(
                    spec_buf_segment(old(d).buf@, old(d).var_cursor + j),
                    old(d).endian,
                )
            &&& final(d).var_cursor == spec_buf_var_count(old(d).buf@)
        },
{
    if !is_last_var {
        return Err(CodecError::InvalidLength);
    }
    let count = d.var_count();
    let mut out: Vec<Vec<u16>> = Vec::new();
    while d.var_cursor < count
        invariant
            is_last_var,
            d.wf(),
            spec_same_stream(*d, *old(d)),
            d.fixed_cursor == old(d).fixed_cursor,
            count == spec_buf_var_count(old(d).buf@),
            old(d).var_cursor <= d.var_cursor <= count,
            out@.len() == d.var_cursor - old(d).var_cursor,
            forall|j: int|
                0 <= j < out@.len() ==> (#[trigger] out@[j])@ == spec_u16_seq_of_bytes(
                    spec_buf_segment(old(d).buf@, old(d).var_cursor + j),
                    old(d).endian,
                ),
            forall|k: int|
                old(d).var_cursor <= k < d.var_cursor ==> #[trigger] spec_buf_segment_ok(
                    old(d).buf@,
                    k,
                ) && spec_buf_segment(old(d).buf@, k).len() % 2 == 0,
        decreases count - d.var_cursor,
    {
        let v = match decode_vec_u16_field(d) {
            Ok(v) => v,
            Err(e) => {
                return Err(e);
            },
        };
        out.push(v);
    }
    Ok(out)
}

} // verus!
