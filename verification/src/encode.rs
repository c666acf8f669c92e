use vstd::prelude::*;
use crate::encoder::{lemma_sum_prefix_agree, sum_prefix, Encoder};
use crate::scalar::{
    lemma_u16_seq_bytes_len, lemma_u32_seq_bytes_len, push_bytes, push_u16, push_u32, push_u64,
    push_u8, spec_u16_bytes, spec_u16_seq_bytes, spec_u32_bytes, spec_u32_seq_bytes,
    spec_u64_bytes, spec_u8_bytes,
};
use crate::Endian;

verus! {

/// Encodes a single field into an encoder.
///
/// Each field contributes bytes to the fixed region, or one or more segment
/// lengths together with their data bytes.  The `is_last_var` flag enforces
/// the placement rule: a var2 field (one that contributes several segments)
/// may only be pushed as the last variable field.
pub trait Encode {
    /// Bytes this field contributes to the fixed region.
    spec fn spec_fixed_contrib(&self, e: Endian) -> Seq<u8>;

    /// Segment lengths this field contributes, in order.
    spec fn spec_lengths_contrib(&self) -> Seq<u32>;

    /// Bytes this field contributes to the data region.
    spec fn spec_data_contrib(&self, e: Endian) -> Seq<u8>;

    /// Whether this field may be pushed under the given last-variable flag:
    /// false for a var2 field not in last position, and for a field whose
    /// segment length would not fit in a u32.
    spec fn spec_can_encode(&self, is_last_var: bool) -> bool;

    /// Appends this field's contribution to the encoder, marking whether it
    /// is the last variable-length field.
    fn encode_field(&self, is_last_var: bool, enc: &mut Encoder)
        requires
            self.spec_can_encode(is_last_var),
        ensures
            final(enc).config == old(enc).config,
            final(enc).fixed@ == old(enc).fixed@ + self.spec_fixed_contrib(old(enc).config.endian),
            final(enc).var_length@ == old(enc).var_length@ + self.spec_lengths_contrib(),
            final(enc).data@ == old(enc).data@ + self.spec_data_contrib(old(enc).config.endian),
            sum_prefix(self.spec_lengths_contrib(), self.spec_lengths_contrib().len() as int)
                == self.spec_data_contrib(old(enc).config.endian).len(),
    ;
}

// ---------------------------------------------------------------------------
// Fixed scalars.
// ---------------------------------------------------------------------------

impl Encode for u8 {
    open spec fn spec_fixed_contrib(&self, e: Endian) -> Seq<u8> {
        spec_u8_bytes(*self, e)
    }

    open spec fn spec_lengths_contrib(&self) -> Seq<u32> {
        Seq::empty()
    }

    open spec fn spec_data_contrib(&self, e: Endian) -> Seq<u8> {
        Seq::empty()
    }

    open spec fn spec_can_encode(&self, is_last_var: bool) -> bool {
        true
    }

    fn encode_field(&self, is_last_var: bool, enc: &mut Encoder) {
        let e = enc.config.endian;
        push_u8(&mut enc.fixed, *self, e);
        proof {
            assert(enc.var_length@ =~= old(enc).var_length@ + Seq::<u32>::empty());
            assert(enc.data@ =~= old(enc).data@ + Seq::<u8>::empty());
        }
    }
}

impl Encode for u16 {
    open spec fn spec_fixed_contrib(&self, e: Endian) -> Seq<u8> {
        spec_u16_bytes(*self, e)
    }

    open spec fn spec_lengths_contrib(&self) -> Seq<u32> {
        Seq::empty()
    }

    open spec fn spec_data_contrib(&self, e: Endian) -> Seq<u8> {
        Seq::empty()
    }

    open spec fn spec_can_encode(&self, is_last_var: bool) -> bool {
        true
    }

    fn encode_field(&self, is_last_var: bool, enc: &mut Encoder) {
        let e = enc.config.endian;
        push_u16(&mut enc.fixed, *self, e);
        proof {
            assert(enc.var_length@ =~= old(enc).var_length@ + Seq::<u32>::empty());
            assert(enc.data@ =~= old(enc).data@ + Seq::<u8>::empty());
        }
    }
}

impl Encode for u32 {
    open spec fn spec_fixed_contrib(&self, e: Endian) -> Seq<u8> {
        spec_u32_bytes(*self, e)
    }

    open spec fn spec_lengths_contrib(&self) -> Seq<u32> {
        Seq::empty()
    }

    open spec fn spec_data_contrib(&self, e: Endian) -> Seq<u8> {
        Seq::empty()
    }

    open spec fn spec_can_encode(&self, is_last_var: bool) -> bool {
        true
    }

    fn encode_field(&self, is_last_var: bool, enc: &mut Encoder) {
        let e = enc.config.endian;
        push_u32(&mut enc.fixed, *self, e);
        proof {
            assert(enc.var_length@ =~= old(enc).var_length@ + Seq::<u32>::empty());
            assert(enc.data@ =~= old(enc).data@ + Seq::<u8>::empty());
        }
    }
}

impl Encode for u64 {
    open spec fn spec_fixed_contrib(&self, e: Endian) -> Seq<u8> {
        spec_u64_bytes(*self, e)
    }

    open spec fn spec_lengths_contrib(&self) -> Seq<u32> {
        Seq::empty()
    }

    open spec fn spec_data_contrib(&self, e: Endian) -> Seq<u8> {
        Seq::empty()
    }

    open spec fn spec_can_encode(&self, is_last_var: bool) -> bool {
        true
    }

    fn encode_field(&self, is_last_var: bool, enc: &mut Encoder) {
        let e = enc.config.endian;
        push_u64(&mut enc.fixed, *self, e);
        proof {
            assert(enc.var_length@ =~= old(enc).var_length@ + Seq::<u32>::empty());
            assert(enc.data@ =~= old(enc).data@ + Seq::<u8>::empty());
        }
    }
}

impl Encode for i8 {
    open spec fn spec_fixed_contrib(&self, e: Endian) -> Seq<u8> {
        spec_u8_bytes(*self as u8, e)
    }

    open spec fn spec_lengths_contrib(&self) -> Seq<u32> {
        Seq::empty()
    }

    open spec fn spec_data_contrib(&self, e: Endian) -> Seq<u8> {
        Seq::empty()
    }

    open spec fn spec_can_encode(&self, is_last_var: bool) -> bool {
        true
    }

    fn encode_field(&self, is_last_var: bool, enc: &mut Encoder) {
        let e = enc.config.endian;
        push_u8(&mut enc.fixed, *self as u8, e);
        proof {
            assert(enc.var_length@ =~= old(enc).var_length@ + Seq::<u32>::empty());
            assert(enc.data@ =~= old(enc).data@ + Seq::<u8>::empty());
        }
    }
}

impl Encode for i16 {
    open spec fn spec_fixed_contrib(&self, e: Endian) -> Seq<u8> {
        spec_u16_bytes(*self as u16, e)
    }

    open spec fn spec_lengths_contrib(&self) -> Seq<u32> {
        Seq::empty()
    }

    open spec fn spec_data_contrib(&self, e: Endian) -> Seq<u8> {
        Seq::empty()
    }

    open spec fn spec_can_encode(&self, is_last_var: bool) -> bool {
        true
    }

    fn encode_field(&self, is_last_var: bool, enc: &mut Encoder) {
        let e = enc.config.endian;
        push_u16(&mut enc.fixed, *self as u16, e);
        proof {
            assert(enc.var_length@ =~= old(enc).var_length@ + Seq::<u32>::empty());
            assert(enc.data@ =~= old(enc).data@ + Seq::<u8>::empty());
        }
    }
}

impl Encode for i32 {
    open spec fn spec_fixed_contrib(&self, e: Endian) -> Seq<u8> {
        spec_u32_bytes(*self as u32, e)
    }

    open spec fn spec_lengths_contrib(&self) -> Seq<u32> {
        Seq::empty()
    }

    open spec fn spec_data_contrib(&self, e: Endian) -> Seq<u8> {
        Seq::empty()
    }

    open spec fn spec_can_encode(&self, is_last_var: bool) -> bool {
        true
    }

    fn encode_field(&self, is_last_var: bool, enc: &mut Encoder) {
        let e = enc.config.endian;
        push_u32(&mut enc.fixed, *self as u32, e);
        proof {
            assert(enc.var_length@ =~= old(enc).var_length@ + Seq::<u32>::empty());
            assert(enc.data@ =~= old(enc).data@ + Seq::<u8>::empty());
        }
    }
}

impl Encode for i64 {
    open spec fn spec_fixed_contrib(&self, e: Endian) -> Seq<u8> {
        spec_u64_bytes(*self as u64, e)
    }

    open spec fn spec_lengths_contrib(&self) -> Seq<u32> {
        Seq::empty()
    }

    open spec fn spec_data_contrib(&self, e: Endian) -> Seq<u8> {
        Seq::empty()
    }

    open spec fn spec_can_encode(&self, is_last_var: bool) -> bool {
        true
    }

    fn encode_field(&self, is_last_var: bool, enc: &mut Encoder) {
        let e = enc.config.endian;
        push_u64(&mut enc.fixed, *self as u64, e);
        proof {
            assert(enc.var_length@ =~= old(enc).var_length@ + Seq::<u32>::empty());
            assert(enc.data@ =~= old(enc).data@ + Seq::<u8>::empty());
        }
    }
}

// ---------------------------------------------------------------------------
// Fixed arrays.
// ---------------------------------------------------------------------------

impl Encode for [u16; 2] {
    open spec fn spec_fixed_contrib(&self, e: Endian) -> Seq<u8> {
        spec_u16_bytes(self@[0], e) + spec_u16_bytes(self@[1], e)
    }

    open spec fn spec_lengths_contrib(&self) -> Seq<u32> {
        Seq::empty()
    }

    open spec fn spec_data_contrib(&self, e: Endian) -> Seq<u8> {
        Seq::empty()
    }

    open spec fn spec_can_encode(&self, is_last_var: bool) -> bool {
        true
    }

    fn encode_field(&self, is_last_var: bool, enc: &mut Encoder) {
        let e = enc.config.endian;
        push_u16(&mut enc.fixed, self[0], e);
        push_u16(&mut enc.fixed, self[1], e);
        proof {
            assert(enc.fixed@ =~= old(enc).fixed@ + (spec_u16_bytes(self@[0], e) + spec_u16_bytes(
                self@[1],
                e,
            )));
            assert(enc.var_length@ =~= old(enc).var_length@ + Seq::<u32>::empty());
            assert(enc.data@ =~= old(enc).data@ + Seq::<u8>::empty());
        }
    }
}

// ---------------------------------------------------------------------------
// Variable fields with one segment (var1).
// ---------------------------------------------------------------------------

impl Encode for Vec<u8> {
    open spec fn spec_fixed_contrib(&self, e: Endian) -> Seq<u8> {
        Seq::empty()
    }

    open spec fn spec_lengths_contrib(&self) -> Seq<u32> {
        seq![self@.len() as u32]
    }

    open spec fn spec_data_contrib(&self, e: Endian) -> Seq<u8> {
        self@
    }

    open spec fn spec_can_encode(&self, is_last_var: bool) -> bool {
        self@.len() <= u32::MAX
    }

    fn encode_field(&self, is_last_var: bool, enc: &mut Encoder) {
        push_bytes(&mut enc.data, self.as_slice());
        let len = self.len() as u32;
        enc.var_length.push(len);
        proof {
            assert(enc.fixed@ =~= old(enc).fixed@ + Seq::<u8>::empty());
            assert(enc.var_length@ =~= old(enc).var_length@ + seq![self@.len() as u32]);
            assert(sum_prefix(seq![self@.len() as u32], 0) == 0);
            assert(sum_prefix(seq![self@.len() as u32], 1) == self@.len());
        }
    }
}

impl Encode for Vec<u16> {
    open spec fn spec_fixed_contrib(&self, e: Endian) -> Seq<u8> {
        Seq::empty()
    }

    open spec fn spec_lengths_contrib(&self) -> Seq<u32> {
        seq![(2 * self@.len()) as u32]
    }

    open spec fn spec_data_contrib(&self, e: Endian) -> Seq<u8> {
        spec_u16_seq_bytes(self@, e)
    }

    open spec fn spec_can_encode(&self, is_last_var: bool) -> bool {
        2 * self@.len() <= u32::MAX
    }

    fn encode_field(&self, is_last_var: bool, enc: &mut Encoder) {
        let e = enc.config.endian;
        let n = self.len();
        let mut i: usize = 0;
        let mut length: u32 = 0;
        while i < n
            invariant
                i <= n,
                n == self@.len(),
                2 * n <= u32::MAX,
                e == enc.config.endian,
                length == 2 * i,
                enc.config == old(enc).config,
                enc.fixed@ == old(enc).fixed@,
                enc.var_length@ == old(enc).var_length@,
                enc.data@ == old(enc).data@ + spec_u16_seq_bytes(self@.take(i as int), e),
            decreases n - i,
        {
            push_u16(&mut enc.data, self[i], e);
            proof {
                assert(self@.take(i as int + 1).drop_last() =~= self@.take(i as int));
                assert(enc.data@ =~= old(enc).data@ + spec_u16_seq_bytes(
                    self@.take(i as int + 1),
                    e,
                ));
            }
            length = length + 2;
            i = i + 1;
        }
        enc.var_length.push(length);
        proof {
            assert(self@.take(n as int) =~= self@);
            assert(enc.fixed@ =~= old(enc).fixed@ + Seq::<u8>::empty());
            assert(enc.var_length@ =~= old(enc).var_length@ + seq![(2 * self@.len()) as u32]);
            lemma_u16_seq_bytes_len(self@, e);
            assert(sum_prefix(seq![(2 * self@.len()) as u32], 0) == 0);
            assert(sum_prefix(seq![(2 * self@.len()) as u32], 1) == 2 * self@.len());
        }
    }
}

impl Encode for Vec<u32> {
    open spec fn spec_fixed_contrib(&self, e: Endian) -> Seq<u8> {
        Seq::empty()
    }

    open spec fn spec_lengths_contrib(&self) -> Seq<u32> {
        seq![(4 * self@.len()) as u32]
    }

    open spec fn spec_data_contrib(&self, e: Endian) -> Seq<u8> {
        spec_u32_seq_bytes(self@, e)
    }

    open spec fn spec_can_encode(&self, is_last_var: bool) -> bool {
        4 * self@.len() <= u32::MAX
    }

    fn encode_field(&self, is_last_var: bool, enc: &mut Encoder) {
        let e = enc.config.endian;
        let n = self.len();
        let mut i: usize = 0;
        let mut length: u32 = 0;
        while i < n
            invariant
                i <= n,
                n == self@.len(),
                4 * n <= u32::MAX,
                e == enc.config.endian,
                length == 4 * i,
                enc.config == old(enc).config,
                enc.fixed@ == old(enc).fixed@,
                enc.var_length@ == old(enc).var_length@,
                enc.data@ == old(enc).data@ + spec_u32_seq_bytes(self@.take(i as int), e),
            decreases n - i,
        {
            push_u32(&mut enc.data, self[i], e);
            proof {
                assert(self@.take(i as int + 1).drop_last() =~= self@.take(i as int));
                assert(enc.data@ =~= old(enc).data@ + spec_u32_seq_bytes(
                    self@.take(i as int + 1),
                    e,
                ));
            }
            length = length + 4;
            i = i + 1;
        }
        enc.var_length.push(length);
        proof {
            assert(self@.take(n as int) =~= self@);
            assert(enc.fixed@ =~= old(enc).fixed@ + Seq::<u8>::empty());
            assert(enc.var_length@ =~= old(enc).var_length@ + seq![(4 * self@.len()) as u32]);
            lemma_u32_seq_bytes_len(self@, e);
            assert(sum_prefix(seq![(4 * self@.len()) as u32], 0) == 0);
            assert(sum_prefix(seq![(4 * self@.len()) as u32], 1) == 4 * self@.len());
        }
    }
}

// ---------------------------------------------------------------------------
// Variable fields with one segment per inner sequence (var2).
// ---------------------------------------------------------------------------

/// Segment lengths of a var2 field of byte segments.
pub open spec fn spec_var2_u8_lengths(vss: Seq<Vec<u8>>) -> Seq<u32> {
    Seq::new(vss.len(), |i: int| vss[i]@.len() as u32)
}

/// Data bytes of a var2 field of byte segments.
pub open spec fn spec_var2_u8_data(vss: Seq<Vec<u8>>) -> Seq<u8>
    decreases vss.len(),
{
    if vss.len() == 0 {
        Seq::empty()
    } else {
        spec_var2_u8_data(vss.drop_last()) + vss.last()@
    }
}

/// Segment lengths of a var2 field of 16-bit element segments.
pub open spec fn spec_var2_u16_lengths(vss: Seq<Vec<u16>>) -> Seq<u32> {
    Seq::new(vss.len(), |i: int| (2 * vss[i]@.len()) as u32)
}

/// Data bytes of a var2 field of 16-bit element segments.
pub open spec fn spec_var2_u16_data(vss: Seq<Vec<u16>>, e: Endian) -> Seq<u8>
    decreases vss.len(),
{
    if vss.len() == 0 {
        Seq::empty()
    } else {
        spec_var2_u16_data(vss.drop_last(), e) + spec_u16_seq_bytes(vss.last()@, e)
    }
}

/// The recorded lengths of a var2 byte field add up to its data bytes.
pub proof fn lemma_var2_u8_shape(vss: Seq<Vec<u8>>)
    requires
        forall|i: int| 0 <= i < vss.len() ==> (#[trigger] vss[i])@.len() <= u32::MAX,
    ensures
        sum_prefix(spec_var2_u8_lengths(vss), vss.len() as int) == spec_var2_u8_data(vss).len(),
    decreases vss.len(),
{
    if vss.len() > 0 {
        let prev = vss.drop_last();
        lemma_var2_u8_shape(prev);
        lemma_sum_prefix_agree(
            spec_var2_u8_lengths(vss),
            spec_var2_u8_lengths(prev),
            prev.len() as int,
        );
    }
}

/// The recorded lengths of a var2 16-bit field add up to its data bytes.
pub proof fn lemma_var2_u16_shape(vss: Seq<Vec<u16>>, e: Endian)
    requires
        forall|i: int| 0 <= i < vss.len() ==> 2 * (#[trigger] vss[i])@.len() <= u32::MAX,
    ensures
        sum_prefix(spec_var2_u16_lengths(vss), vss.len() as int) == spec_var2_u16_data(
            vss,
            e,
        ).len(),
    decreases vss.len(),
{
    if vss.len() > 0 {
        let prev = vss.drop_last();
        lemma_var2_u16_shape(prev, e);
        lemma_u16_seq_bytes_len(vss.last()@, e);
        lemma_sum_prefix_agree(
            spec_var2_u16_lengths(vss),
            spec_var2_u16_lengths(prev),
            prev.len() as int,
        );
    }
}

impl Encode for Vec<Vec<u8>> {
    open spec fn spec_fixed_contrib(&self, e: Endian) -> Seq<u8> {
        Seq::empty()
    }

    open spec fn spec_lengths_contrib(&self) -> Seq<u32> {
        spec_var2_u8_lengths(self@)
    }

    open spec fn spec_data_contrib(&self, e: Endian) -> Seq<u8> {
        spec_var2_u8_data(self@)
    }

    open spec fn spec_can_encode(&self, is_last_var: bool) -> bool {
        &&& is_last_var
        &&& forall|i: int| 0 <= i < self@.len() ==> (#[trigger] self@[i])@.len() <= u32::MAX
    }

    fn encode_field(&self, is_last_var: bool, enc: &mut Encoder) {
        let n = self.len();
        let mut i: usize = 0;
        while i < n
            invariant
                i <= n,
                n == self@.len(),
                forall|j: int| 0 <= j < n ==> (#[trigger] self@[j])@.len() <= u32::MAX,
                enc.config == old(enc).config,
                enc.fixed@ == old(enc).fixed@,
                enc.var_length@ == old(enc).var_length@ + spec_var2_u8_lengths(
                    self@.take(i as int),
                ),
                enc.data@ == old(enc).data@ + spec_var2_u8_data(self@.take(i as int)),
            decreases n - i,
        {
            let inner: &Vec<u8> = &self[i];
            inner.encode_field(true, enc);
            proof {
                assert(self@.take(i as int + 1).drop_last() =~= self@.take(i as int));
                assert(spec_var2_u8_lengths(self@.take(i as int + 1)) =~= spec_var2_u8_lengths(
                    self@.take(i as int),
                ) + seq![self@[i as int]@.len() as u32]);
                assert(enc.var_length@ =~= old(enc).var_length@ + spec_var2_u8_lengths(
                    self@.take(i as int + 1),
                ));
                assert(enc.data@ =~= old(enc).data@ + spec_var2_u8_data(self@.take(i as int + 1)));
            }
            i = i + 1;
        }
        proof {
            assert(self@.take(n as int) =~= self@);
            assert(enc.fixed@ =~= old(enc).fixed@ + Seq::<u8>::empty());
            lemma_var2_u8_shape(self@);
            assert(spec_var2_u8_lengths(self@).len() == self@.len());
        }
    }
}

impl Encode for Vec<Vec<u16>> {
    open spec fn spec_fixed_contrib(&self, e: Endian) -> Seq<u8> {
        Seq::empty()
    }

    open spec fn spec_lengths_contrib(&self) -> Seq<u32> {
        spec_var2_u16_lengths(self@)
    }

    open spec fn spec_data_contrib(&self, e: Endian) -> Seq<u8> {
        spec_var2_u16_data(self@, e)
    }

    open spec fn spec_can_encode(&self, is_last_var: bool) -> bool {
        &&& is_last_var
        &&& forall|i: int| 0 <= i < self@.len() ==> 2 * (#[trigger] self@[i])@.len() <= u32::MAX
    }

    fn encode_field(&self, is_last_var: bool, enc: &mut Encoder) {
        let ghost e = enc.config.endian;
        let n = self.len();
        let mut i: usize = 0;
        while i < n
            invariant
                i <= n,
                n == self@.len(),
                e == enc.config.endian,
                forall|j: int| 0 <= j < n ==> 2 * (#[trigger] self@[j])@.len() <= u32::MAX,
                enc.config == old(enc).config,
                enc.fixed@ == old(enc).fixed@,
                enc.var_length@ == old(enc).var_length@ + spec_var2_u16_lengths(
                    self@.take(i as int),
                ),
                enc.data@ == old(enc).data@ + spec_var2_u16_data(self@.take(i as int), e),
            decreases n - i,
        {
            let inner: &Vec<u16> = &self[i];
            inner.encode_field(true, enc);
            proof {
                assert(self@.take(i as int + 1).drop_last() =~= self@.take(i as int));
                assert(spec_var2_u16_lengths(self@.take(i as int + 1)) =~= spec_var2_u16_lengths(
                    self@.take(i as int),
                ) + seq![(2 * self@[i as int]@.len()) as u32]);
                assert(enc.var_length@ =~= old(enc).var_length@ + spec_var2_u16_lengths(
                    self@.take(i as int + 1),
                ));
                assert(enc.data@ =~= old(enc).data@ + spec_var2_u16_data(
                    self@.take(i as int + 1),
                    e,
                ));
            }
            i = i + 1;
        }
        proof {
            assert(self@.take(n as int) =~= self@);
            assert(enc.fixed@ =~= old(enc).fixed@ + Seq::<u8>::empty());
            lemma_var2_u16_shape(self@, e);
            assert(spec_var2_u16_lengths(self@).len() == self@.len());
        }
    }
}

} // verus!
