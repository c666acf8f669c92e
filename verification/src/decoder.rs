use vstd::prelude::*;
use vstd::bytes::*;
use vstd::slice::slice_subrange;
use crate::{CodecError, Endian};

verus! {

// ---------------------------------------------------------------------------
// Parsing model: what the bytes of a payload mean.
//
// The header and the offset table are little-endian regardless of the byte
// order chosen for field data.
// ---------------------------------------------------------------------------

/// The little-endian u32 stored at byte offset `i` of the buffer.
pub open spec fn spec_le32_at(buf: Seq<u8>, i: int) -> int
    recommends
        0 <= i,
        i + 4 <= buf.len(),
{
    spec_u32_from_le_bytes(buf.subrange(i, i + 4)) as int
}

/// The payload's total length, as claimed by its first header word.
pub open spec fn spec_buf_total(buf: Seq<u8>) -> int {
    spec_le32_at(buf, 0)
}

/// The offset of the offset table, as claimed by the second header word.
pub open spec fn spec_buf_vio(buf: Seq<u8>) -> int {
    spec_le32_at(buf, 4)
}

/// The offset of the data region: the first offset-table entry when one
/// exists, and the end of the offset table's (empty) space otherwise.
pub open spec fn spec_buf_data_offset(buf: Seq<u8>) -> int {
    if spec_buf_total(buf) == spec_buf_vio(buf) {
        spec_buf_vio(buf)
    } else {
        spec_le32_at(buf, spec_buf_vio(buf))
    }
}

/// Every structural condition a buffer must meet for decoding to begin.
pub open spec fn spec_header_ok(buf: Seq<u8>) -> bool {
    let total = spec_buf_total(buf);
    let vio = spec_buf_vio(buf);
    let doff = spec_buf_data_offset(buf);
    &&& buf.len() >= 8
    &&& total <= buf.len()
    &&& 8 <= vio
    &&& vio <= total
    &&& (total != vio ==> vio + 4 <= buf.len())
    &&& vio <= doff
    &&& doff <= total
    &&& (total > vio ==> doff != vio)
    &&& (doff - vio) % 4 == 0
}

/// The number of offset-table entries described by the buffer.
pub open spec fn spec_buf_var_count(buf: Seq<u8>) -> int {
    (spec_buf_data_offset(buf) - spec_buf_vio(buf)) / 4
}

/// The bytes of the fixed region.
pub open spec fn spec_buf_fixed(buf: Seq<u8>) -> Seq<u8> {
    buf.subrange(8, spec_buf_vio(buf))
}

/// The value of the `k`-th offset-table entry.
pub open spec fn spec_buf_entry(buf: Seq<u8>, k: int) -> int {
    spec_le32_at(buf, spec_buf_vio(buf) + 4 * k)
}

/// Where the `k`-th variable segment ends: at the next entry, or at the end
/// of the payload for the last segment.
pub open spec fn spec_buf_segment_end(buf: Seq<u8>, k: int) -> int {
    if k + 1 < spec_buf_var_count(buf) {
        spec_buf_entry(buf, k + 1)
    } else {
        spec_buf_total(buf)
    }
}

/// Whether the `k`-th segment's claimed span lies inside the data region.
pub open spec fn spec_buf_segment_ok(buf: Seq<u8>, k: int) -> bool {
    let start = spec_buf_entry(buf, k);
    let end = spec_buf_segment_end(buf, k);
    &&& spec_buf_data_offset(buf) <= start
    &&& start <= end
    &&& end <= spec_buf_total(buf)
}

/// The bytes of the `k`-th variable segment.
pub open spec fn spec_buf_segment(buf: Seq<u8>, k: int) -> Seq<u8> {
    buf.subrange(spec_buf_entry(buf, k), spec_buf_segment_end(buf, k))
}

// ---------------------------------------------------------------------------
// The decoder.
// ---------------------------------------------------------------------------

/// Cursor-based reader over one payload.
///
/// Construction validates the header; afterwards `next_fixed_bytes` steps
/// through the fixed region and `next_var` steps through the variable
/// segments, both handing back slices borrowed from the input buffer.
#[derive(Debug, Clone, Copy)]
pub struct Decoder<'a> {
    /// The buffer holding the payload, borrowed for the decoder's lifetime.
    pub buf: &'a [u8],
    /// Total payload length, from the header.
    pub total_len: u32,
    /// Offset of the offset table, from the header.
    pub var_idx_offset: u32,
    /// Offset of the data region.
    pub data_offset: u32,
    /// Cursor into the fixed region, relative to the region's start.
    pub fixed_cursor: u32,
    /// Cursor into the offset table: index of the next unread entry.
    pub var_cursor: u32,
    /// Byte order for the field data (not for the header or offset table).
    pub endian: Endian,
}

impl<'a> Decoder<'a> {
    /// A decoder is consistent when its parsed fields match its buffer and
    /// its cursors lie within their regions.
    pub open spec fn wf(self) -> bool {
        &&& spec_header_ok(self.buf@)
        &&& self.total_len == spec_buf_total(self.buf@)
        &&& self.var_idx_offset == spec_buf_vio(self.buf@)
        &&& self.data_offset == spec_buf_data_offset(self.buf@)
        &&& self.fixed_cursor <= self.var_idx_offset - 8
        &&& self.var_cursor <= spec_buf_var_count(self.buf@)
    }

    /// Parses and validates the header of `buf`, yielding a decoder that
    /// reads field data as little-endian.
    pub fn new(buf: &'a [u8]) -> (r: Result<Self, CodecError>)
        ensures
            r is Ok <==> spec_header_ok(buf@),
            r matches Ok(d) ==> d.wf() && d.buf@ == buf@ && d.endian == Endian::Little
                && d.fixed_cursor == 0 && d.var_cursor == 0,
    {
        Self::with_endian(buf, Endian::Little)
    }

    /// Parses and validates the header of `buf`.
    ///
    /// Succeeds exactly when the buffer holds at least the eight header
    /// bytes, the claimed total length fits in the buffer, the two region
    /// offsets are ordered `8 <= var_index_offset <= data_offset <=
    /// total_len`, the offset table's size is a multiple of four, and a
    /// non-empty tail implies at least one table entry.
    pub fn with_endian(buf: &'a [u8], endian: Endian) -> (r: Result<Self, CodecError>)
        ensures
            r is Ok <==> spec_header_ok(buf@),
            r matches Ok(d) ==> d.wf() && d.buf@ == buf@ && d.endian == endian
                && d.fixed_cursor == 0 && d.var_cursor == 0
                && d.total_len == spec_buf_total(buf@)
                && d.var_idx_offset == spec_buf_vio(buf@)
                && d.data_offset == spec_buf_data_offset(buf@),
    {
        let buf_len: usize = buf.len();
        if buf_len < 8 {
            return Err(CodecError::InvalidLength);
        }
        let total_len = u32_from_le_bytes(slice_subrange(buf, 0, 4));
        let var_idx_offset = u32_from_le_bytes(slice_subrange(buf, 4, 8));
        if total_len as u64 > buf_len as u64 {
            return Err(CodecError::InvalidLength);
        }
        if var_idx_offset < 8 {
            return Err(CodecError::InvalidLength);
        }
        if var_idx_offset > total_len {
            return Err(CodecError::InvalidLength);
        }

        let data_offset: u32 = if total_len == var_idx_offset {
            var_idx_offset
        } else {
            if var_idx_offset as u64 + 4 > buf_len as u64 {
                return Err(CodecError::InvalidLength);
            }
            let start = var_idx_offset as usize;
            u32_from_le_bytes(slice_subrange(buf, start, start + 4))
        };

        if data_offset < var_idx_offset {
            return Err(CodecError::InvalidLength);
        }
        if data_offset > total_len {
            return Err(CodecError::InvalidLength);
        }
        if total_len > var_idx_offset && data_offset == var_idx_offset {
            return Err(CodecError::InvalidLength);
        }
        if (data_offset - var_idx_offset) % 4 != 0 {
            return Err(CodecError::InvalidLength);
        }

        Ok(Decoder {
            buf,
            total_len,
            var_idx_offset,
            data_offset,
            fixed_cursor: 0,
            var_cursor: 0,
            endian,
        })
    }

    /// A decoder that reads field data as little-endian.
    pub fn little(buf: &'a [u8]) -> (r: Result<Self, CodecError>)
        ensures
            r is Ok <==> spec_header_ok(buf@),
            r matches Ok(d) ==> d.wf() && d.buf@ == buf@ && d.endian == Endian::Little
                && d.fixed_cursor == 0 && d.var_cursor == 0,
    {
        Self::with_endian(buf, Endian::Little)
    }

    /// A decoder that reads field data as big-endian.
    pub fn big(buf: &'a [u8]) -> (r: Result<Self, CodecError>)
        ensures
            r is Ok <==> spec_header_ok(buf@),
            r matches Ok(d) ==> d.wf() && d.buf@ == buf@ && d.endian == Endian::Big
                && d.fixed_cursor == 0 && d.var_cursor == 0,
    {
        Self::with_endian(buf, Endian::Big)
    }

    /// A decoder that reads field data in the host's byte order.
    pub fn native(buf: &'a [u8]) -> (r: Result<Self, CodecError>)
        ensures
            r is Ok <==> spec_header_ok(buf@),
            r matches Ok(d) ==> d.wf() && d.buf@ == buf@ && d.endian == Endian::Native
                && d.fixed_cursor == 0 && d.var_cursor == 0,
    {
        Self::with_endian(buf, Endian::Native)
    }

    /// The number of offset-table entries in the payload.
    pub fn var_count(&self) -> (r: u32)
        requires
            self.wf(),
        ensures
            r == spec_buf_var_count(self.buf@),
    {
        (self.data_offset - self.var_idx_offset) / 4
    }

    /// Reads the next `len` bytes of the fixed region, advancing the fixed
    /// cursor.  Fails, changing nothing, exactly when fewer than `len` bytes
    /// remain in the region.
    pub fn next_fixed_bytes(&mut self, len: u32) -> (r: Result<&'a [u8], CodecError>)
        requires
            old(self).wf(),
        ensures
            final(self).wf(),
            final(self).buf == old(self).buf,
            final(self).total_len == old(self).total_len,
            final(self).var_idx_offset == old(self).var_idx_offset,
            final(self).data_offset == old(self).data_offset,
            final(self).var_cursor == old(self).var_cursor,
            final(self).endian == old(self).endian,
            r is Ok <==> old(self).fixed_cursor + len <= old(self).var_idx_offset - 8,
            r matches Ok(s) ==> {
                &&& s@ == spec_buf_fixed(old(self).buf@).subrange(
                    old(self).fixed_cursor as int,
                    old(self).fixed_cursor + len,
                )
                &&& final(self).fixed_cursor == old(self).fixed_cursor + len
            },
            r is Err ==> final(self).fixed_cursor == old(self).fixed_cursor,
    {
        let fixed_len = self.var_idx_offset - 8;
        let remaining = fixed_len - self.fixed_cursor;
        if len > remaining {
            return Err(CodecError::InvalidLength);
        }
        let start = (self.fixed_cursor + 8) as usize;
        let end = start + len as usize;
        let s = slice_subrange(self.buf, start, end);
        self.fixed_cursor = self.fixed_cursor + len;
        proof {
            assert(s@ =~= spec_buf_fixed(old(self).buf@).subrange(
                old(self).fixed_cursor as int,
                old(self).fixed_cursor + len,
            ));
        }
        Ok(s)
    }

    /// Reads the offset-table entry with the given index.
    fn read_entry(&self, entry_idx: u32) -> (r: Result<u32, CodecError>)
        requires
            self.wf(),
        ensures
            r is Ok <==> entry_idx < spec_buf_var_count(self.buf@),
            r matches Ok(v) ==> v == spec_buf_entry(self.buf@, entry_idx as int),
    {
        let offset_in_entries = entry_idx as u64 * 4;
        let var_entry_abs = self.var_idx_offset as u64 + offset_in_entries;
        let var_entry_end_abs = var_entry_abs + 4;
        if var_entry_end_abs > self.data_offset as u64 {
            return Err(CodecError::InvalidLength);
        }
        let start = var_entry_abs as usize;
        let end = var_entry_end_abs as usize;
        let v = u32_from_le_bytes(slice_subrange(self.buf, start, end));
        Ok(v)
    }

    /// Returns the index of the next unread offset-table entry and advances
    /// the entry cursor.  Fails, changing nothing, when every entry has been
    /// read.
    pub fn next_var_index(&mut self) -> (r: Result<u32, CodecError>)
        requires
            old(self).wf(),
        ensures
            final(self).wf(),
            final(self).buf == old(self).buf,
            final(self).total_len == old(self).total_len,
            final(self).var_idx_offset == old(self).var_idx_offset,
            final(self).data_offset == old(self).data_offset,
            final(self).fixed_cursor == old(self).fixed_cursor,
            final(self).endian == old(self).endian,
            r is Ok <==> old(self).var_cursor < spec_buf_var_count(old(self).buf@),
            r matches Ok(i) ==> i == old(self).var_cursor && final(self).var_cursor
                == old(self).var_cursor + 1,
            r is Err ==> final(self).var_cursor == old(self).var_cursor,
    {
        let count = self.var_count();
        if self.var_cursor >= count {
            return Err(CodecError::InvalidLength);
        }
        let idx = self.var_cursor;
        self.var_cursor = self.var_cursor + 1;
        Ok(idx)
    }

    /// Reads the next variable segment, advancing the entry cursor.
    ///
    /// The segment starts at the cursor's offset-table entry and ends at the
    /// next entry, or at the end of the payload for the last entry.  Fails
    /// when every entry has been read (cursor unchanged), or when the
    /// segment's claimed span leaves the data region (cursor advanced).
    pub fn next_var(&mut self) -> (r: Result<&'a [u8], CodecError>)
        requires
            old(self).wf(),
        ensures
            final(self).wf(),
            final(self).buf == old(self).buf,
            final(self).total_len == old(self).total_len,
            final(self).var_idx_offset == old(self).var_idx_offset,
            final(self).data_offset == old(self).data_offset,
            final(self).fixed_cursor == old(self).fixed_cursor,
            final(self).endian == old(self).endian,
            r is Ok <==> old(self).var_cursor < spec_buf_var_count(old(self).buf@)
                && spec_buf_segment_ok(old(self).buf@, old(self).var_cursor as int),
            r matches Ok(s) ==> {
                &&& s@ == spec_buf_segment(old(self).buf@, old(self).var_cursor as int)
                &&& final(self).var_cursor == old(self).var_cursor + 1
            },
            r is Err && old(self).var_cursor >= spec_buf_var_count(old(self).buf@)
                ==> final(self).var_cursor == old(self).var_cursor,
            r is Err && old(self).var_cursor < spec_buf_var_count(old(self).buf@)
                ==> final(self).var_cursor == old(self).var_cursor + 1,
    {
        let idx = match self.next_var_index() {
            Ok(i) => i,
            Err(e) => {
                return Err(e);
            },
        };
        let count = self.var_count();

        let start_abs = match self.read_entry(idx) {
            Ok(v) => v,
            Err(e) => {
                return Err(e);
            },
        };
        let end_abs = if idx + 1 < count {
            match self.read_entry(idx + 1) {
                Ok(v) => v,
                Err(e) => {
                    return Err(e);
                },
            }
        } else {
            self.total_len
        };

        if start_abs < self.data_offset || end_abs < start_abs || end_abs > self.total_len {
            return Err(CodecError::InvalidLength);
        }

        let s = slice_subrange(self.buf, start_abs as usize, end_abs as usize);
        Ok(s)
    }
}

} // verus!
