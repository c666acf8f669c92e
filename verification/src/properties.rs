use vstd::prelude::*;
use vstd::bytes::*;
use crate::decoder::{
    spec_buf_data_offset, spec_buf_entry, spec_buf_fixed, spec_buf_segment, spec_buf_segment_end,
    spec_buf_segment_ok, spec_buf_total, spec_buf_var_count, spec_buf_vio, spec_header_ok,
};
use crate::encoder::{
    index_bytes, lemma_index_bytes_len, lemma_payload_len, lemma_sum_prefix_mono, spec_data_start,
    spec_entry, spec_finalize_ok, spec_payload, spec_total_len, spec_var_index_offset, sum_prefix,
};

verus! {

/// Extracting the `k`-th entry of the offset table gives the little-endian
/// bytes of the `k`-th segment offset.
pub proof fn lemma_index_bytes_entry(fixed: Seq<u8>, lengths: Seq<u32>, n: int, k: int)
    requires
        0 <= k < n,
    ensures
        index_bytes(fixed, lengths, n).subrange(4 * k, 4 * k + 4) == spec_u32_to_le_bytes(
            spec_entry(fixed, lengths, k) as u32,
        ),
    decreases n,
{
    lemma_auto_spec_u32_to_from_le_bytes();
    lemma_index_bytes_len(fixed, lengths, n - 1);
    let prev = index_bytes(fixed, lengths, n - 1);
    let e = spec_u32_to_le_bytes(spec_entry(fixed, lengths, n - 1) as u32);
    if k == n - 1 {
        assert(index_bytes(fixed, lengths, n).subrange(4 * k, 4 * k + 4) =~= e);
    } else {
        lemma_index_bytes_entry(fixed, lengths, n - 1, k);
        assert(index_bytes(fixed, lengths, n).subrange(4 * k, 4 * k + 4) =~= prev.subrange(
            4 * k,
            4 * k + 4,
        ));
    }
}

/// The central structure theorem: a payload assembled from consistent
/// encoder segments parses back to exactly those segments.
///
/// The header validates; the parsed offsets are the assembled ones; the
/// fixed region reads back verbatim; there is one offset-table entry per
/// recorded segment length; and the `k`-th variable segment spans exactly
/// the `k`-th slice of the data region.
pub proof fn lemma_payload_parses(fixed: Seq<u8>, lengths: Seq<u32>, data: Seq<u8>)
    requires
        spec_finalize_ok(fixed, lengths, data),
        sum_prefix(lengths, lengths.len() as int) == data.len(),
    ensures
        spec_header_ok(spec_payload(fixed, lengths, data)),
        spec_buf_total(spec_payload(fixed, lengths, data)) == spec_total_len(
            fixed,
            lengths,
            data,
        ),
        spec_buf_vio(spec_payload(fixed, lengths, data)) == spec_var_index_offset(fixed),
        spec_buf_data_offset(spec_payload(fixed, lengths, data)) == spec_data_start(
            fixed,
            lengths,
        ),
        spec_buf_var_count(spec_payload(fixed, lengths, data)) == lengths.len(),
        spec_buf_fixed(spec_payload(fixed, lengths, data)) == fixed,
        forall|k: int|
            0 <= k < lengths.len() ==> spec_buf_entry(spec_payload(fixed, lengths, data), k)
                == spec_entry(fixed, lengths, k),
        forall|k: int|
            0 <= k < lengths.len() ==> spec_buf_segment_ok(spec_payload(fixed, lengths, data), k),
        forall|k: int|
            0 <= k < lengths.len() ==> spec_buf_segment(spec_payload(fixed, lengths, data), k)
                == data.subrange(sum_prefix(lengths, k), sum_prefix(lengths, k + 1)),
{
    let p = spec_payload(fixed, lengths, data);
    let n = lengths.len() as int;
    let total = spec_total_len(fixed, lengths, data);
    let vio = spec_var_index_offset(fixed);
    let ds = spec_data_start(fixed, lengths);
    lemma_auto_spec_u32_to_from_le_bytes();
    lemma_index_bytes_len(fixed, lengths, n);
    lemma_payload_len(fixed, lengths, data);
    lemma_sum_prefix_mono(lengths, 0, n);

    assert(p.subrange(0, 4) =~= spec_u32_to_le_bytes(total as u32));
    assert(p.subrange(4, 8) =~= spec_u32_to_le_bytes(vio as u32));
    assert(spec_buf_total(p) == total);
    assert(spec_buf_vio(p) == vio);
    assert(p.subrange(8, vio) =~= fixed);

    assert forall|k: int| 0 <= k < n implies spec_buf_entry(p, k) == spec_entry(
        fixed,
        lengths,
        k,
    ) by {
        lemma_index_bytes_entry(fixed, lengths, n, k);
        lemma_sum_prefix_mono(lengths, 0, k);
        lemma_sum_prefix_mono(lengths, k, n);
        assert(p.subrange(vio + 4 * k, vio + 4 * k + 4) =~= index_bytes(
            fixed,
            lengths,
            n,
        ).subrange(4 * k, 4 * k + 4));
    }

    if total == vio {
        assert(n == 0);
        assert(spec_buf_data_offset(p) == ds);
    } else {
        assert(n >= 1);
        assert(spec_buf_entry(p, 0) == spec_entry(fixed, lengths, 0));
        assert(spec_buf_data_offset(p) == ds);
    }
    assert(spec_buf_var_count(p) == (4 * n) / 4 == n);
    assert(spec_header_ok(p));

    assert forall|k: int| 0 <= k < n implies spec_buf_segment_ok(p, k) && spec_buf_segment(p, k)
        == data.subrange(sum_prefix(lengths, k), sum_prefix(lengths, k + 1)) by {
        lemma_sum_prefix_mono(lengths, 0, k);
        lemma_sum_prefix_mono(lengths, k, k + 1);
        lemma_sum_prefix_mono(lengths, k + 1, n);
        let start = sum_prefix(lengths, k);
        let end = sum_prefix(lengths, k + 1);
        assert(spec_buf_segment_end(p, k) == ds + end);
        assert(spec_buf_segment_ok(p, k));
        assert(p.subrange(ds + start, ds + end) =~= data.subrange(start, end));
    }
}

/// Header consistency: in every assembled payload the header and region
/// offsets are ordered `8 <= var_index_offset <= data_offset <= total_len`,
/// and the claimed total length is the payload's own length.
pub proof fn lemma_header_consistency(fixed: Seq<u8>, lengths: Seq<u32>, data: Seq<u8>)
    requires
        spec_finalize_ok(fixed, lengths, data),
        sum_prefix(lengths, lengths.len() as int) == data.len(),
    ensures
        ({
            let p = spec_payload(fixed, lengths, data);
            &&& 8 <= spec_buf_vio(p)
            &&& spec_buf_vio(p) <= spec_buf_data_offset(p)
            &&& spec_buf_data_offset(p) <= spec_buf_total(p)
            &&& spec_buf_total(p) == p.len()
        }),
{
    lemma_payload_parses(fixed, lengths, data);
    lemma_payload_len(fixed, lengths, data);
}

/// Monotone index: in every assembled payload the offset-table entries are
/// non-decreasing and all lie between the data offset and the total length.
pub proof fn lemma_monotone_index(fixed: Seq<u8>, lengths: Seq<u32>, data: Seq<u8>)
    requires
        spec_finalize_ok(fixed, lengths, data),
        sum_prefix(lengths, lengths.len() as int) == data.len(),
    ensures
        forall|j: int, k: int|
            0 <= j <= k < lengths.len() ==> spec_buf_entry(spec_payload(fixed, lengths, data), j)
                <= spec_buf_entry(spec_payload(fixed, lengths, data), k),
        forall|k: int|
            0 <= k < lengths.len() ==> spec_buf_data_offset(spec_payload(fixed, lengths, data))
                <= #[trigger] spec_buf_entry(spec_payload(fixed, lengths, data), k)
                <= spec_buf_total(spec_payload(fixed, lengths, data)),
{
    let p = spec_payload(fixed, lengths, data);
    let n = lengths.len() as int;
    lemma_payload_parses(fixed, lengths, data);
    assert forall|j: int, k: int| 0 <= j <= k < n implies spec_buf_entry(p, j) <= spec_buf_entry(
        p,
        k,
    ) by {
        assert(spec_buf_entry(p, j) == spec_entry(fixed, lengths, j));
        assert(spec_buf_entry(p, k) == spec_entry(fixed, lengths, k));
        lemma_sum_prefix_mono(lengths, j, k);
    }
    assert forall|k: int| 0 <= k < n implies spec_buf_data_offset(p)
        <= #[trigger] spec_buf_entry(p, k) <= spec_buf_total(p) by {
        assert(spec_buf_entry(p, k) == spec_entry(fixed, lengths, k));
        lemma_sum_prefix_mono(lengths, 0, k);
        lemma_sum_prefix_mono(lengths, k, n);
    }
}

/// The structural regions of a payload do not depend on the byte order of
/// the field data: two payloads whose segments have the same shape carry
/// byte-identical headers and offset tables, little-endian in both.
pub proof fn lemma_structure_endian_independent(
    fixed1: Seq<u8>,
    data1: Seq<u8>,
    fixed2: Seq<u8>,
    data2: Seq<u8>,
    lengths: Seq<u32>,
)
    requires
        fixed1.len() == fixed2.len(),
        data1.len() == data2.len(),
    ensures
        spec_payload(fixed1, lengths, data1).subrange(0, 8) == spec_payload(
            fixed2,
            lengths,
            data2,
        ).subrange(0, 8),
        spec_payload(fixed1, lengths, data1).subrange(
            spec_var_index_offset(fixed1),
            spec_data_start(fixed1, lengths),
        ) == spec_payload(fixed2, lengths, data2).subrange(
            spec_var_index_offset(fixed2),
            spec_data_start(fixed2, lengths),
        ),
{
    let p1 = spec_payload(fixed1, lengths, data1);
    let p2 = spec_payload(fixed2, lengths, data2);
    let n = lengths.len() as int;
    let vio = spec_var_index_offset(fixed1);
    let ds = spec_data_start(fixed1, lengths);
    lemma_auto_spec_u32_to_from_le_bytes();
    lemma_index_bytes_len(fixed1, lengths, n);
    lemma_index_bytes_len(fixed2, lengths, n);
    lemma_payload_len(fixed1, lengths, data1);
    lemma_payload_len(fixed2, lengths, data2);
    assert(index_bytes(fixed1, lengths, n) =~= index_bytes(fixed2, lengths, n)) by {
        lemma_index_bytes_equal_shape(fixed1, fixed2, lengths, n);
    }
    assert(p1.subrange(0, 8) =~= p2.subrange(0, 8));
    assert(p1.subrange(vio, ds) =~= index_bytes(fixed1, lengths, n));
    assert(p2.subrange(vio, ds) =~= index_bytes(fixed2, lengths, n));
}

/// Offset tables depend only on the shape of the segments, not their bytes.
proof fn lemma_index_bytes_equal_shape(
    fixed1: Seq<u8>,
    fixed2: Seq<u8>,
    lengths: Seq<u32>,
    k: int,
)
    requires
        fixed1.len() == fixed2.len(),
    ensures
        index_bytes(fixed1, lengths, k) == index_bytes(fixed2, lengths, k),
    decreases k,
{
    if k > 0 {
        lemma_index_bytes_equal_shape(fixed1, fixed2, lengths, k - 1);
    }
}

} // verus!
