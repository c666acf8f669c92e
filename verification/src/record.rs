use vstd::prelude::*;
use crate::codec::CodecError;
use crate::config::Config;
use crate::properties::lemma_payload_parses;
use crate::decoder::{
    spec_buf_fixed, spec_buf_segment, spec_buf_segment_ok, spec_buf_var_count, spec_buf_vio,
    spec_header_ok, Decoder,
};
use crate::encoder::{
    lemma_sum_prefix_agree, spec_finalize_ok, spec_payload, sum_prefix, Encoder,
};
use crate::scalar::push_bytes;
use crate::Endian;

verus! {

// ---------------------------------------------------------------------------
// Field taxonomy and the derivation rules.
//
// A record declaration is an ordered list of field types.  Each field type
// is classified as fixed (a compile-time byte width), var1 (one variable
// segment) or var2 (one segment per inner sequence), and the placement rule
// is enforced: a var2 field must be the record's last field.  A nested
// record is one var1 segment holding the record's own payload; its own
// field list is checked when that record is itself derived.
// ---------------------------------------------------------------------------

/// The three field kinds of the wire format.
#[derive(Debug, Clone, Copy, PartialEq, Eq, Structural)]
pub enum FieldKind {
    /// Known byte width; lives in the fixed region.
    Fixed,
    /// One variable segment: one offset-table entry plus data bytes.
    Var1,
    /// One variable segment per inner sequence; must be the last field.
    Var2,
}

/// Structural description of a declared field type.
#[derive(Debug)]
pub enum FieldTy {
    /// A primitive integer scalar of the given byte width.
    Scalar(u32),
    /// A fixed-size array with the given element type and length.
    Array(Box<FieldTy>, usize),
    /// An ordered sequence of elements (variable length).
    Vector(Box<FieldTy>),
    /// A nested serializable record, encoded as one var1 segment.
    Record(Vec<FieldTy>),
}

/// Whether a field type has a compile-time byte width.
pub open spec fn spec_is_fixed_ty(t: FieldTy) -> bool
    decreases t,
{
    match t {
        FieldTy::Scalar(_) => true,
        FieldTy::Array(el, _) => spec_is_fixed_ty(*el),
        FieldTy::Vector(_) => false,
        FieldTy::Record(_) => false,
    }
}

/// The classification of a field type, or `None` when the type cannot be
/// serialized: a sequence nested more than twice, a sequence of records, or
/// an array of variable elements.
pub open spec fn spec_kind_of(t: FieldTy) -> Option<FieldKind> {
    match t {
        FieldTy::Scalar(_) => Some(FieldKind::Fixed),
        FieldTy::Array(el, _) => if spec_is_fixed_ty(*el) {
            Some(FieldKind::Fixed)
        } else {
            None
        },
        FieldTy::Vector(el) => if spec_is_fixed_ty(*el) {
            Some(FieldKind::Var1)
        } else {
            match *el {
                FieldTy::Vector(el2) => if spec_is_fixed_ty(*el2) {
                    Some(FieldKind::Var2)
                } else {
                    None
                },
                _ => None,
            }
        },
        FieldTy::Record(_) => Some(FieldKind::Var1),
    }
}

/// Whether a field type is variable-length (var1 or var2).
pub open spec fn spec_is_var_ty(t: FieldTy) -> bool {
    spec_kind_of(t) == Some(FieldKind::Var1) || spec_kind_of(t) == Some(FieldKind::Var2)
}

/// The placement rule on a record's field list: every field classifiable,
/// and a var2 field only in last position.
pub open spec fn spec_fields_ok(fields: Seq<FieldTy>) -> bool {
    &&& forall|i: int| 0 <= i < fields.len() ==> spec_kind_of(#[trigger] fields[i]) is Some
    &&& forall|i: int|
        0 <= i < fields.len() && spec_kind_of(#[trigger] fields[i]) == Some(FieldKind::Var2)
            ==> i == fields.len() - 1
}

/// Index of the last variable field among the first `k`, or `-1` if none.
pub open spec fn spec_last_var_before(fields: Seq<FieldTy>, k: int) -> int
    decreases k,
{
    if k <= 0 {
        -1
    } else if spec_is_var_ty(fields[k - 1]) {
        k - 1
    } else {
        spec_last_var_before(fields, k - 1)
    }
}

/// The field that carries the last-variable flag: the last variable field,
/// or the last field when no field is variable.
pub open spec fn spec_flag_index(fields: Seq<FieldTy>) -> int {
    let lv = spec_last_var_before(fields, fields.len() as int);
    if lv >= 0 {
        lv
    } else {
        fields.len() - 1
    }
}

/// Rejecting a misplaced var2 field is forced by the placement rule: a
/// record with a var2 field anywhere but last is never derivable.
pub proof fn lemma_derivation_rejects_misplaced_var2(fields: Seq<FieldTy>, i: int)
    requires
        0 <= i < fields.len(),
        spec_kind_of(fields[i]) == Some(FieldKind::Var2),
        i != fields.len() - 1,
    ensures
        !spec_fields_ok(fields),
{
}

/// Classifies one field type.
pub fn kind_of(t: &FieldTy) -> (r: Option<FieldKind>)
    ensures
        r == spec_kind_of(*t),
{
    match t {
        FieldTy::Scalar(_) => Some(FieldKind::Fixed),
        FieldTy::Array(el, _) => if is_fixed_ty(el) {
            Some(FieldKind::Fixed)
        } else {
            None
        },
        FieldTy::Vector(el) => if is_fixed_ty(el) {
            Some(FieldKind::Var1)
        } else {
            match &**el {
                FieldTy::Vector(el2) => if is_fixed_ty(el2) {
                    Some(FieldKind::Var2)
                } else {
                    None
                },
                _ => None,
            }
        },
        FieldTy::Record(_) => Some(FieldKind::Var1),
    }
}

/// Whether a field type has a compile-time byte width.
pub fn is_fixed_ty(t: &FieldTy) -> (r: bool)
    ensures
        r == spec_is_fixed_ty(*t),
    decreases *t,
{
    match t {
        FieldTy::Scalar(_) => true,
        FieldTy::Array(el, _) => is_fixed_ty(el),
        FieldTy::Vector(_) => false,
        FieldTy::Record(_) => false,
    }
}

/// The derivation walk over a record's declared fields.
///
/// Returns one flag per field, true exactly for the field that is pushed
/// with the last-variable flag.  Fails exactly when some field cannot be
/// classified or a var2 field is not the record's last field.
pub fn collect_field_flags(fields: &Vec<FieldTy>) -> (r: Result<Vec<bool>, CodecError>)
    ensures
        r is Ok <==> spec_fields_ok(fields@),
        r matches Ok(flags) ==> {
            &&& flags@.len() == fields@.len()
            &&& forall|i: int|
                0 <= i < flags@.len() ==> flags@[i] == (i == spec_flag_index(fields@))
        },
{
    let n = fields.len();
    let mut i: usize = 0;
    while i < n
        invariant
            i <= n,
            n == fields@.len(),
            forall|j: int| 0 <= j < i ==> spec_kind_of(#[trigger] fields@[j]) is Some,
            forall|j: int|
                0 <= j < i && spec_kind_of(#[trigger] fields@[j]) == Some(FieldKind::Var2) ==> j
                    == n - 1,
        decreases n - i,
    {
        match kind_of(&fields[i]) {
            None => {
                return Err(CodecError::InvalidLength);
            },
            Some(k) => {
                if k == FieldKind::Var2 && i + 1 != n {
                    return Err(CodecError::InvalidLength);
                }
            },
        }
        i = i + 1;
    }

    let mut last_var: Option<usize> = None;
    let mut i: usize = 0;
    while i < n
        invariant
            i <= n,
            n == fields@.len(),
            match last_var {
                Some(v) => v < n && spec_last_var_before(fields@, i as int) == v,
                None => spec_last_var_before(fields@, i as int) == -1,
            },
        decreases n - i,
    {
        match kind_of(&fields[i]) {
            Some(FieldKind::Var1) | Some(FieldKind::Var2) => {
                last_var = Some(i);
            },
            _ => {},
        }
        i = i + 1;
    }

    let flag_index: usize = match last_var {
        Some(v) => v,
        None => if n == 0 {
            0
        } else {
            n - 1
        },
    };
    let mut flags: Vec<bool> = Vec::new();
    let mut i: usize = 0;
    while i < n
        invariant
            i <= n,
            n == fields@.len(),
            n > 0 ==> flag_index == spec_flag_index(fields@),
            flags@.len() == i,
            forall|j: int| 0 <= j < i ==> flags@[j] == (j == spec_flag_index(fields@)),
        decreases n - i,
    {
        flags.push(i == flag_index);
        i = i + 1;
    }
    Ok(flags)
}

// ---------------------------------------------------------------------------
// Concatenation of a family of sequences.
// ---------------------------------------------------------------------------

/// The concatenation of a sequence of sequences, in order.
pub open spec fn cat<A>(ss: Seq<Seq<A>>) -> Seq<A>
    decreases ss.len(),
{
    if ss.len() == 0 {
        Seq::empty()
    } else {
        cat(ss.drop_last()) + ss.last()
    }
}

/// Extending a family by one member appends that member's elements.
pub proof fn lemma_cat_step<A>(ss: Seq<Seq<A>>, i: int)
    requires
        0 <= i < ss.len(),
    ensures
        cat(ss.take(i + 1)) == cat(ss.take(i)) + ss[i],
{
    assert(ss.take(i + 1).drop_last() =~= ss.take(i));
    assert(ss.take(i + 1).last() == ss[i]);
}

/// A family's prefix never concatenates to more elements than the family.
pub proof fn lemma_cat_prefix_le<A>(ss: Seq<Seq<A>>, i: int)
    requires
        0 <= i <= ss.len(),
    ensures
        cat(ss.take(i)).len() <= cat(ss).len(),
        i == ss.len() ==> cat(ss.take(i)) == cat(ss),
    decreases ss.len() - i,
{
    if i == ss.len() {
        assert(ss.take(i) =~= ss);
    } else {
        lemma_cat_step(ss, i);
        lemma_cat_prefix_le(ss, i + 1);
    }
}

/// Extracting the `i`-th member's elements out of the concatenation.
pub proof fn lemma_cat_extract<A>(ss: Seq<Seq<A>>, i: int)
    requires
        0 <= i < ss.len(),
    ensures
        cat(ss.take(i)).len() + ss[i].len() <= cat(ss).len(),
        cat(ss).subrange(
            cat(ss.take(i)).len() as int,
            cat(ss.take(i)).len() + ss[i].len() as int,
        ) == ss[i],
    decreases ss.len(),
{
    lemma_cat_step(ss, i);
    lemma_cat_prefix_le(ss, i + 1);
    if i == ss.len() - 1 {
        assert(ss.take(i) =~= ss.drop_last());
        assert(cat(ss).subrange(
            cat(ss.take(i)).len() as int,
            cat(ss.take(i)).len() + ss[i].len() as int,
        ) =~= ss[i]);
    } else {
        let prev = ss.drop_last();
        lemma_cat_extract(prev, i);
        assert(prev.take(i) =~= ss.take(i));
        assert(prev[i] == ss[i]);
        lemma_cat_prefix_le(prev, i + 1);
        assert(prev.take(i + 1) =~= ss.take(i + 1));
        assert(cat(ss).subrange(
            cat(ss.take(i)).len() as int,
            cat(ss.take(i)).len() + ss[i].len() as int,
        ) =~= cat(prev).subrange(
            cat(prev.take(i)).len() as int,
            cat(prev.take(i)).len() + prev[i].len() as int,
        ));
    }
}

// ---------------------------------------------------------------------------
// Field values: the runtime form of one field's contribution.
// ---------------------------------------------------------------------------

/// One field's value, with fixed bytes already scalar-encoded and variable
/// segments as raw byte runs.
#[derive(Debug, PartialEq, Eq)]
pub enum FieldValue {
    /// A fixed field: its wire bytes.
    Fixed(Vec<u8>),
    /// A var1 field: its single segment's bytes.
    Var1(Vec<u8>),
    /// A var2 field: one byte run per segment.
    Var2(Vec<Vec<u8>>),
}

/// The mathematical form of one field value.
#[verifier::ext_equal]
pub enum FieldVal {
    /// A fixed field: its wire bytes.
    Fixed(Seq<u8>),
    /// A var1 field: its single segment's bytes.
    Var1(Seq<u8>),
    /// A var2 field: one byte run per segment.
    Var2(Seq<Seq<u8>>),
}

impl View for FieldValue {
    type V = FieldVal;

    open spec fn view(&self) -> FieldVal {
        match self {
            FieldValue::Fixed(b) => FieldVal::Fixed(b@),
            FieldValue::Var1(b) => FieldVal::Var1(b@),
            FieldValue::Var2(ss) => FieldVal::Var2(Seq::new(ss@.len(), |i: int| ss@[i]@)),
        }
    }
}

/// The mathematical form of a whole field list.
pub open spec fn spec_vals_view(fields: Seq<FieldValue>) -> Seq<FieldVal> {
    fields.map_values(|f: FieldValue| f@)
}

/// Bytes a field value contributes to the fixed region.
pub open spec fn spec_val_fixed(v: FieldVal) -> Seq<u8> {
    match v {
        FieldVal::Fixed(b) => b,
        _ => Seq::empty(),
    }
}

/// Segment lengths a field value contributes.
pub open spec fn spec_val_lengths(v: FieldVal) -> Seq<u32> {
    match v {
        FieldVal::Fixed(_) => Seq::empty(),
        FieldVal::Var1(b) => seq![b.len() as u32],
        FieldVal::Var2(ss) => Seq::new(ss.len(), |i: int| ss[i].len() as u32),
    }
}

/// Bytes a field value contributes to the data region.
pub open spec fn spec_val_data(v: FieldVal) -> Seq<u8> {
    match v {
        FieldVal::Fixed(_) => Seq::empty(),
        FieldVal::Var1(b) => b,
        FieldVal::Var2(ss) => cat(ss),
    }
}

/// Whether every segment of a var2 byte-run family fits the u32 bookkeeping.
pub open spec fn spec_segs_fit(ss: Seq<Seq<u8>>) -> bool {
    forall|i: int| 0 <= i < ss.len() ==> (#[trigger] ss[i]).len() <= u32::MAX
}

/// Whether every piece of a field value fits the u32 bookkeeping.
pub open spec fn spec_val_fits(v: FieldVal) -> bool {
    match v {
        FieldVal::Fixed(b) => b.len() <= u32::MAX,
        FieldVal::Var1(b) => b.len() <= u32::MAX,
        FieldVal::Var2(ss) => spec_segs_fit(ss),
    }
}

/// Whether a field value may be pushed under the given last-variable flag.
pub open spec fn spec_val_ok(v: FieldVal, is_last_var: bool) -> bool {
    &&& spec_val_fits(v)
    &&& (v is Var2 ==> is_last_var)
}

/// The per-field fixed contributions of a field list.
pub open spec fn spec_fix_parts(vals: Seq<FieldVal>) -> Seq<Seq<u8>> {
    vals.map_values(|v: FieldVal| spec_val_fixed(v))
}

/// The per-field length contributions of a field list.
pub open spec fn spec_len_parts(vals: Seq<FieldVal>) -> Seq<Seq<u32>> {
    vals.map_values(|v: FieldVal| spec_val_lengths(v))
}

/// The per-field data contributions of a field list.
pub open spec fn spec_data_parts(vals: Seq<FieldVal>) -> Seq<Seq<u8>> {
    vals.map_values(|v: FieldVal| spec_val_data(v))
}

/// The fixed region of a whole field list.
pub open spec fn spec_record_fixed(vals: Seq<FieldVal>) -> Seq<u8> {
    cat(spec_fix_parts(vals))
}

/// The segment lengths of a whole field list.
pub open spec fn spec_record_lengths(vals: Seq<FieldVal>) -> Seq<u32> {
    cat(spec_len_parts(vals))
}

/// The data region of a whole field list.
pub open spec fn spec_record_data(vals: Seq<FieldVal>) -> Seq<u8> {
    cat(spec_data_parts(vals))
}

/// The payload of a whole field list.
pub open spec fn spec_record_payload(vals: Seq<FieldVal>) -> Seq<u8> {
    spec_payload(spec_record_fixed(vals), spec_record_lengths(vals), spec_record_data(vals))
}

/// The inner segment lengths of a var2 value add up to its data bytes.
pub proof fn lemma_var2_lengths_sum(ss: Seq<Seq<u8>>)
    requires
        forall|i: int| 0 <= i < ss.len() ==> (#[trigger] ss[i]).len() <= u32::MAX,
    ensures
        sum_prefix(Seq::new(ss.len(), |i: int| ss[i].len() as u32), ss.len() as int) == cat(
            ss,
        ).len(),
    decreases ss.len(),
{
    if ss.len() > 0 {
        let prev = ss.drop_last();
        lemma_var2_lengths_sum(prev);
        lemma_sum_prefix_agree(
            Seq::new(ss.len(), |i: int| ss[i].len() as u32),
            Seq::new(prev.len(), |i: int| prev[i].len() as u32),
            prev.len() as int,
        );
    }
}

/// Concatenating two length runs adds their sums.
pub proof fn lemma_sum_prefix_split(a: Seq<u32>, b: Seq<u32>, k: int)
    requires
        0 <= k <= b.len(),
    ensures
        sum_prefix(a + b, a.len() + k) == sum_prefix(a, a.len() as int) + sum_prefix(b, k),
    decreases k,
{
    if k == 0 {
        lemma_sum_prefix_agree(a + b, a, a.len() as int);
    } else {
        lemma_sum_prefix_split(a, b, k - 1);
        assert((a + b)[a.len() + k - 1] == b[k - 1]);
    }
}

/// The recorded lengths of a consistent field list add up to its data.
pub proof fn lemma_record_shape(vals: Seq<FieldVal>)
    requires
        forall|i: int| 0 <= i < vals.len() ==> spec_val_fits(#[trigger] vals[i]),
    ensures
        sum_prefix(spec_record_lengths(vals), spec_record_lengths(vals).len() as int)
            == spec_record_data(vals).len(),
    decreases vals.len(),
{
    if vals.len() > 0 {
        let prev = vals.drop_last();
        let v = vals.last();
        lemma_record_shape(prev);
        assert(spec_len_parts(prev) =~= spec_len_parts(vals).drop_last());
        assert(spec_data_parts(prev) =~= spec_data_parts(vals).drop_last());
        let la = spec_record_lengths(prev);
        let lb = spec_val_lengths(v);
        assert(spec_record_lengths(vals) == la + lb);
        assert(spec_record_data(vals) == spec_record_data(prev) + spec_val_data(v));
        lemma_sum_prefix_split(la, lb, lb.len() as int);
        match v {
            FieldVal::Fixed(_) => {
                assert(sum_prefix(lb, 0) == 0);
            },
            FieldVal::Var1(b) => {
                assert(sum_prefix(lb, 0) == 0);
                assert(sum_prefix(lb, 1) == b.len());
            },
            FieldVal::Var2(ss) => {
                lemma_var2_lengths_sum(ss);
            },
        }
    }
}

// ---------------------------------------------------------------------------
// The runtime engine: pushing field values and assembling a record payload.
// ---------------------------------------------------------------------------

/// Index of the last variable field value among the first `k`, or `-1`.
pub open spec fn spec_vals_last_var_before(vals: Seq<FieldVal>, k: int) -> int
    decreases k,
{
    if k <= 0 {
        -1
    } else if !(vals[k - 1] is Fixed) {
        k - 1
    } else {
        spec_vals_last_var_before(vals, k - 1)
    }
}

/// The field value that carries the last-variable flag.
pub open spec fn spec_vals_flag_index(vals: Seq<FieldVal>) -> int {
    let lv = spec_vals_last_var_before(vals, vals.len() as int);
    if lv >= 0 {
        lv
    } else {
        vals.len() - 1
    }
}

/// When a whole field list can be encoded: every field accepts its flag and
/// the assembled payload fits the u32 header.
pub open spec fn spec_record_encodable(vals: Seq<FieldVal>) -> bool {
    &&& forall|i: int|
        0 <= i < vals.len() ==> spec_val_ok(#[trigger] vals[i], i == spec_vals_flag_index(vals))
    &&& spec_finalize_ok(
        spec_record_fixed(vals),
        spec_record_lengths(vals),
        spec_record_data(vals),
    )
}

/// Pushes one field value into the encoder, marking whether it is the last
/// variable field.  Fails, changing nothing, exactly when a segment's length
/// does not fit in a u32 or a var2 value is pushed without the flag.
pub fn push_field_value(enc: &mut Encoder, v: &FieldValue, is_last_var: bool) -> (r: Result<
    (),
    CodecError,
>)
    ensures
        r is Ok <==> spec_val_ok(v@, is_last_var),
        r is Ok ==> {
            &&& final(enc).config == old(enc).config
            &&& final(enc).fixed@ == old(enc).fixed@ + spec_val_fixed(v@)
            &&& final(enc).var_length@ == old(enc).var_length@ + spec_val_lengths(v@)
            &&& final(enc).data@ == old(enc).data@ + spec_val_data(v@)
        },
        r is Err ==> *final(enc) == *old(enc),
{
    match v {
        FieldValue::Fixed(b) => {
            if b.len() as u64 > 0xffff_ffff {
                return Err(CodecError::InvalidLength);
            }
            push_bytes(&mut enc.fixed, b.as_slice());
            proof {
                assert(enc.var_length@ =~= old(enc).var_length@ + spec_val_lengths(v@));
                assert(enc.data@ =~= old(enc).data@ + spec_val_data(v@));
            }
            Ok(())
        },
        FieldValue::Var1(b) => {
            if b.len() as u64 > 0xffff_ffff {
                return Err(CodecError::InvalidLength);
            }
            push_bytes(&mut enc.data, b.as_slice());
            let len = b.len() as u32;
            enc.var_length.push(len);
            proof {
                assert(enc.fixed@ =~= old(enc).fixed@ + spec_val_fixed(v@));
                assert(enc.var_length@ =~= old(enc).var_length@ + spec_val_lengths(v@));
            }
            Ok(())
        },
        FieldValue::Var2(ss) => {
            if !is_last_var {
                return Err(CodecError::InvalidLength);
            }
            let n = ss.len();
            let ghost gss = Seq::new(ss@.len(), |i: int| ss@[i]@);
            let mut i: usize = 0;
            while i < n
                invariant
                    i <= n,
                    n == ss@.len(),
                    gss == Seq::new(ss@.len(), |j: int| ss@[j]@),
                    v@ == FieldVal::Var2(gss),
                    forall|j: int| 0 <= j < i ==> (#[trigger] gss[j]).len() <= u32::MAX,
                decreases n - i,
            {
                if ss[i].len() as u64 > 0xffff_ffff {
                    proof {
                        assert(!spec_segs_fit(gss)) by {
                            if spec_segs_fit(gss) {
                                assert(gss[i as int].len() <= u32::MAX);
                            }
                        }
                    }
                    return Err(CodecError::InvalidLength);
                }
                i = i + 1;
            }
            let mut i: usize = 0;
            while i < n
                invariant
                    i <= n,
                    n == ss@.len(),
                    gss == Seq::new(ss@.len(), |j: int| ss@[j]@),
                    v@ == FieldVal::Var2(gss),
                    forall|j: int| 0 <= j < n ==> (#[trigger] gss[j]).len() <= u32::MAX,
                    enc.config == old(enc).config,
                    enc.fixed@ == old(enc).fixed@,
                    enc.var_length@ == old(enc).var_length@ + Seq::new(
                        i as nat,
                        |j: int| gss[j].len() as u32,
                    ),
                    enc.data@ == old(enc).data@ + cat(gss.take(i as int)),
                decreases n - i,
            {
                push_bytes(&mut enc.data, ss[i].as_slice());
                let len = ss[i].len() as u32;
                enc.var_length.push(len);
                proof {
                    lemma_cat_step(gss, i as int);
                    assert(enc.data@ =~= old(enc).data@ + cat(gss.take(i as int + 1)));
                    assert(enc.var_length@ =~= old(enc).var_length@ + Seq::new(
                        i as nat + 1,
                        |j: int| gss[j].len() as u32,
                    ));
                }
                i = i + 1;
            }
            proof {
                assert(gss.take(n as int) =~= gss);
                assert(spec_val_lengths(v@) =~= Seq::new(n as nat, |j: int| gss[j].len() as u32));
                assert(enc.fixed@ =~= old(enc).fixed@ + spec_val_fixed(v@));
            }
            Ok(())
        },
    }
}

/// Assembles the payload of a whole field list: walks the fields in order,
/// pushing each with the last-variable flag computed as the derivation does,
/// and finalizes the encoder.  Fails exactly when some field does not accept
/// its flag or the payload does not fit the u32 header.
pub fn encode_record(fields: &Vec<FieldValue>, config: Config) -> (r: Result<Vec<u8>, CodecError>)
    ensures
        r is Ok <==> spec_record_encodable(spec_vals_view(fields@)),
        r matches Ok(out) ==> out@ == spec_record_payload(spec_vals_view(fields@)),
{
    let ghost vals = spec_vals_view(fields@);
    let n = fields.len();

    let mut last_var: Option<usize> = None;
    let mut i: usize = 0;
    while i < n
        invariant
            i <= n,
            n == fields@.len(),
            vals == spec_vals_view(fields@),
            vals.len() == n,
            match last_var {
                Some(lv) => lv < n && spec_vals_last_var_before(vals, i as int) == lv,
                None => spec_vals_last_var_before(vals, i as int) == -1,
            },
        decreases n - i,
    {
        match &fields[i] {
            FieldValue::Fixed(_) => {},
            _ => {
                last_var = Some(i);
            },
        }
        i = i + 1;
    }
    let flag_index: usize = match last_var {
        Some(v) => v,
        None => if n == 0 {
            0
        } else {
            n - 1
        },
    };

    let mut enc = Encoder::new(config);
    let mut i: usize = 0;
    while i < n
        invariant
            i <= n,
            n == fields@.len(),
            vals == spec_vals_view(fields@),
            vals.len() == n,
            n > 0 ==> flag_index == spec_vals_flag_index(vals),
            forall|j: int| 0 <= j < i ==> spec_val_ok(#[trigger] vals[j], j == spec_vals_flag_index(vals)),
            enc.config == config,
            enc.fixed@ == cat(spec_fix_parts(vals).take(i as int)),
            enc.var_length@ == cat(spec_len_parts(vals).take(i as int)),
            enc.data@ == cat(spec_data_parts(vals).take(i as int)),
        decreases n - i,
    {
        let pr = push_field_value(&mut enc, &fields[i], i == flag_index);
        match pr {
            Ok(()) => {},
            Err(e) => {
                proof {
                    assert(vals[i as int] == fields@[i as int]@);
                    assert(!spec_val_ok(vals[i as int], i as int == spec_vals_flag_index(vals)));
                }
                return Err(e);
            },
        }
        proof {
            lemma_cat_step(spec_fix_parts(vals), i as int);
            lemma_cat_step(spec_len_parts(vals), i as int);
            lemma_cat_step(spec_data_parts(vals), i as int);
            assert(enc.fixed@ =~= cat(spec_fix_parts(vals).take(i as int + 1)));
            assert(enc.var_length@ =~= cat(spec_len_parts(vals).take(i as int + 1)));
            assert(enc.data@ =~= cat(spec_data_parts(vals).take(i as int + 1)));
        }
        i = i + 1;
    }
    proof {
        assert(spec_fix_parts(vals).take(n as int) =~= spec_fix_parts(vals));
        assert(spec_len_parts(vals).take(n as int) =~= spec_len_parts(vals));
        assert(spec_data_parts(vals).take(n as int) =~= spec_data_parts(vals));
    }
    let mut out: Vec<u8> = Vec::new();
    match enc.finalize(&mut out) {
        Ok(()) => Ok(out),
        Err(e) => Err(e),
    }
}

// ---------------------------------------------------------------------------
// Decoding a record: field shapes drive the walk over a payload.
// ---------------------------------------------------------------------------

/// Shape of one field, as the decode walk needs it: a fixed byte width, one
/// segment, or the segment tail.
#[derive(Debug, Clone, Copy, PartialEq, Eq, Structural)]
pub enum FieldMeta {
    /// A fixed field of the given byte width.
    Fixed(u32),
    /// A var1 field: one variable segment.
    Var1,
    /// A var2 field: every remaining variable segment.
    Var2,
}

/// The shape of a field value.
pub open spec fn spec_meta_of_val(v: FieldVal) -> FieldMeta {
    match v {
        FieldVal::Fixed(b) => FieldMeta::Fixed(b.len() as u32),
        FieldVal::Var1(_) => FieldMeta::Var1,
        FieldVal::Var2(_) => FieldMeta::Var2,
    }
}

/// The shapes of a whole field list.
pub open spec fn spec_metas_of_vals(vals: Seq<FieldVal>) -> Seq<FieldMeta> {
    vals.map_values(|v: FieldVal| spec_meta_of_val(v))
}

/// Byte width a field shape takes in the fixed region.
pub open spec fn spec_meta_width(m: FieldMeta) -> int {
    match m {
        FieldMeta::Fixed(w) => w as int,
        _ => 0,
    }
}

/// Bytes of the fixed region consumed before field `k`.
pub open spec fn spec_wpre(metas: Seq<FieldMeta>, k: int) -> int
    decreases k,
{
    if k <= 0 {
        0
    } else {
        spec_wpre(metas, k - 1) + spec_meta_width(metas[k - 1])
    }
}

/// Variable segments consumed before field `k` (a var2 shape is the tail
/// and stands last among the variable fields).
pub open spec fn spec_vpre(metas: Seq<FieldMeta>, k: int) -> int
    decreases k,
{
    if k <= 0 {
        0
    } else {
        spec_vpre(metas, k - 1) + (if metas[k - 1] is Var1 {
            1int
        } else {
            0int
        })
    }
}

/// Index of the last variable shape among the first `k`, or `-1`.
pub open spec fn spec_metas_last_var_before(metas: Seq<FieldMeta>, k: int) -> int
    decreases k,
{
    if k <= 0 {
        -1
    } else if !(metas[k - 1] is Fixed) {
        k - 1
    } else {
        spec_metas_last_var_before(metas, k - 1)
    }
}

/// The field shape that carries the last-variable flag.
pub open spec fn spec_metas_flag_index(metas: Seq<FieldMeta>) -> int {
    let lv = spec_metas_last_var_before(metas, metas.len() as int);
    if lv >= 0 {
        lv
    } else {
        metas.len() - 1
    }
}

/// No variable shape stands after the last variable shape.
pub proof fn lemma_metas_last_var_max(metas: Seq<FieldMeta>, k: int, j: int)
    requires
        spec_metas_last_var_before(metas, k) < j < k,
    ensures
        metas[j] is Fixed,
    decreases k,
{
    if j < k - 1 {
        lemma_metas_last_var_max(metas, k - 1, j);
    }
}

/// Whether every variable segment from `from` on lies inside the data
/// region.
pub open spec fn spec_tail_segments_ok(buf: Seq<u8>, from: int) -> bool {
    forall|k: int| from <= k < spec_buf_var_count(buf) ==> spec_buf_segment_ok(buf, k)
}

/// Whether field `i` can be decoded once its predecessors have been.
pub open spec fn spec_field_decodable(buf: Seq<u8>, metas: Seq<FieldMeta>, i: int) -> bool {
    match metas[i] {
        FieldMeta::Fixed(w) => spec_wpre(metas, i) + w <= spec_buf_vio(buf) - 8,
        FieldMeta::Var1 => spec_vpre(metas, i) < spec_buf_var_count(buf) && spec_buf_segment_ok(
            buf,
            spec_vpre(metas, i),
        ),
        FieldMeta::Var2 => i == spec_metas_flag_index(metas) && spec_vpre(metas, i)
            <= spec_buf_var_count(buf) && spec_tail_segments_ok(buf, spec_vpre(metas, i)),
    }
}

/// When a whole record can be decoded from a buffer.
pub open spec fn spec_record_decodable(buf: Seq<u8>, metas: Seq<FieldMeta>) -> bool {
    &&& spec_header_ok(buf)
    &&& forall|i: int| 0 <= i < metas.len() ==> #[trigger] spec_field_decodable(buf, metas, i)
}

/// The value of field `i` as decoded from the buffer.
pub open spec fn spec_decoded_field(buf: Seq<u8>, metas: Seq<FieldMeta>, i: int) -> FieldVal {
    match metas[i] {
        FieldMeta::Fixed(w) => FieldVal::Fixed(
            spec_buf_fixed(buf).subrange(spec_wpre(metas, i), spec_wpre(metas, i) + w),
        ),
        FieldMeta::Var1 => FieldVal::Var1(spec_buf_segment(buf, spec_vpre(metas, i))),
        FieldMeta::Var2 => FieldVal::Var2(
            Seq::new(
                (spec_buf_var_count(buf) - spec_vpre(metas, i)) as nat,
                |j: int| spec_buf_segment(buf, spec_vpre(metas, i) + j),
            ),
        ),
    }
}

/// Decodes a whole record: validates the buffer's header and reads one
/// field value per shape, in declared order, with the last-variable flag
/// computed as the derivation does.  Fails exactly when the header does not
/// validate or some field cannot be read.
pub fn decode_record(buf: &[u8], metas: &Vec<FieldMeta>) -> (r: Result<Vec<FieldValue>, CodecError>)
    ensures
        r is Ok <==> spec_record_decodable(buf@, metas@),
        r matches Ok(vals) ==> spec_vals_view(vals@) == Seq::new(
            metas@.len(),
            |i: int| spec_decoded_field(buf@, metas@, i),
        ),
{
    let n = metas.len();

    let mut last_var: Option<usize> = None;
    let mut i: usize = 0;
    while i < n
        invariant
            i <= n,
            n == metas@.len(),
            match last_var {
                Some(lv) => lv < n && spec_metas_last_var_before(metas@, i as int) == lv,
                None => spec_metas_last_var_before(metas@, i as int) == -1,
            },
        decreases n - i,
    {
        match metas[i] {
            FieldMeta::Fixed(_) => {},
            _ => {
                last_var = Some(i);
            },
        }
        i = i + 1;
    }
    let flag_index: usize = match last_var {
        Some(v) => v,
        None => if n == 0 {
            0
        } else {
            n - 1
        },
    };

    let mut d = match Decoder::new(buf) {
        Ok(d) => d,
        Err(e) => {
            return Err(e);
        },
    };
    let count = d.var_count();
    let mut out: Vec<FieldValue> = Vec::new();
    let ghost mut var2_done = false;
    let mut i: usize = 0;
    while i < n
        invariant
            i <= n,
            n == metas@.len(),
            n > 0 ==> flag_index == spec_metas_flag_index(metas@),
            d.wf(),
            d.buf@ == buf@,
            d.endian == Endian::Little,
            count == spec_buf_var_count(buf@),
            d.fixed_cursor == spec_wpre(metas@, i as int),
            !var2_done ==> d.var_cursor == spec_vpre(metas@, i as int),
            var2_done ==> d.var_cursor == count && (forall|j: int|
                i <= j < n ==> metas@[j] is Fixed),
            forall|j: int| 0 <= j < i ==> #[trigger] spec_field_decodable(buf@, metas@, j),
            out@.len() == i,
            forall|j: int|
                0 <= j < i ==> (#[trigger] out@[j])@ == spec_decoded_field(buf@, metas@, j),
        decreases n - i,
    {
        let m = metas[i];
        match m {
            FieldMeta::Fixed(w) => {
                let b = match d.next_fixed_bytes(w) {
                    Ok(b) => b,
                    Err(e) => {
                        proof {
                            assert(!spec_field_decodable(buf@, metas@, i as int));
                        }
                        return Err(e);
                    },
                };
                out.push(FieldValue::Fixed(vstd::slice::slice_to_vec(b)));
            },
            FieldMeta::Var1 => {
                let s = match d.next_var() {
                    Ok(s) => s,
                    Err(e) => {
                        proof {
                            assert(!spec_field_decodable(buf@, metas@, i as int));
                        }
                        return Err(e);
                    },
                };
                out.push(FieldValue::Var1(vstd::slice::slice_to_vec(s)));
            },
            FieldMeta::Var2 => {
                if i != flag_index {
                    proof {
                        assert(!spec_field_decodable(buf@, metas@, i as int));
                    }
                    return Err(CodecError::InvalidLength);
                }
                proof {
                    if var2_done {
                        assert(metas@[i as int] is Fixed);
                    }
                }
                let ghost from = d.var_cursor as int;
                let mut segs: Vec<Vec<u8>> = Vec::new();
                while d.var_cursor < count
                    invariant
                        i < n,
                        n == metas@.len(),
                        d.wf(),
                        d.buf@ == buf@,
                        d.endian == Endian::Little,
                        d.fixed_cursor == spec_wpre(metas@, i as int),
                        count == spec_buf_var_count(buf@),
                        from == spec_vpre(metas@, i as int),
                        metas@[i as int] is Var2,
                        from <= d.var_cursor <= count,
                        segs@.len() == d.var_cursor - from,
                        forall|j: int|
                            0 <= j < segs@.len() ==> (#[trigger] segs@[j])@ == spec_buf_segment(
                                buf@,
                                from + j,
                            ),
                        forall|k: int| from <= k < d.var_cursor ==> spec_buf_segment_ok(buf@, k),
                    decreases count - d.var_cursor,
                {
                    let ghost cur = d.var_cursor as int;
                    let s = match d.next_var() {
                        Ok(s) => s,
                        Err(e) => {
                            proof {
                                assert(!spec_buf_segment_ok(buf@, cur));
                                assert(!spec_tail_segments_ok(buf@, from)) by {
                                    if spec_tail_segments_ok(buf@, from) {
                                        assert(spec_buf_segment_ok(buf@, cur));
                                    }
                                }
                                assert(!spec_field_decodable(buf@, metas@, i as int));
                            }
                            return Err(e);
                        },
                    };
                    segs.push(vstd::slice::slice_to_vec(s));
                }
                out.push(FieldValue::Var2(segs));
                proof {
                    var2_done = true;
                    assert(spec_metas_last_var_before(metas@, n as int) == i as int);
                    assert forall|j: int| i as int + 1 <= j < n implies metas@[j] is Fixed by {
                        lemma_metas_last_var_max(metas@, n as int, j);
                    }
                    assert((out@[i as int])@ =~= spec_decoded_field(buf@, metas@, i as int));
                }
            },
        }
        proof {
            if !(metas@[i as int] is Var2) {
                assert(out@[i as int] == out@.last());
            }
        }
        i = i + 1;
    }
    proof {
        assert(spec_vals_view(out@) =~= Seq::new(
            metas@.len(),
            |i: int| spec_decoded_field(buf@, metas@, i),
        ));
    }
    Ok(out)
}

// ---------------------------------------------------------------------------
// The roundtrip laws: decoding an assembled record payload gives back the
// field values.
// ---------------------------------------------------------------------------

/// A family whose members are all empty from `i` on concatenates to its
/// prefix.
proof fn lemma_cat_prefix_all<A>(ss: Seq<Seq<A>>, i: int)
    requires
        0 <= i <= ss.len(),
        forall|j: int| i <= j < ss.len() ==> (#[trigger] ss[j]).len() == 0,
    ensures
        cat(ss).len() == cat(ss.take(i)).len(),
    decreases ss.len() - i,
{
    if i < ss.len() {
        lemma_cat_step(ss, i);
        lemma_cat_prefix_all(ss, i + 1);
    } else {
        assert(ss.take(i) =~= ss);
    }
}

/// The field shapes agree with the field values on which fields are
/// variable, so both sides compute the same last-variable index.
proof fn lemma_flags_agree(vals: Seq<FieldVal>, k: int)
    requires
        0 <= k <= vals.len(),
    ensures
        spec_metas_last_var_before(spec_metas_of_vals(vals), k) == spec_vals_last_var_before(
            vals,
            k,
        ),
    decreases k,
{
    if k > 0 {
        lemma_flags_agree(vals, k - 1);
    }
}

/// A variable field at `i` pushes the last-variable index to `i` at least.
proof fn lemma_vals_lvb_ge(vals: Seq<FieldVal>, k: int, i: int)
    requires
        0 <= i < k <= vals.len(),
        !(vals[i] is Fixed),
    ensures
        spec_vals_last_var_before(vals, k) >= i,
    decreases k,
{
    if i < k - 1 && vals[k - 1] is Fixed {
        lemma_vals_lvb_ge(vals, k - 1, i);
    }
}

/// In an encodable field list, no var2 field stands before a variable
/// field: the one var2 field allowed is the last variable field.
proof fn lemma_no_var2_before(vals: Seq<FieldVal>, i: int)
    requires
        spec_record_encodable(vals),
        0 <= i < vals.len(),
        !(vals[i] is Fixed),
    ensures
        forall|j: int| 0 <= j < i ==> !((#[trigger] vals[j]) is Var2),
{
    let flag = spec_vals_flag_index(vals);
    lemma_vals_lvb_ge(vals, vals.len() as int, i);
    assert forall|j: int| 0 <= j < i implies !((#[trigger] vals[j]) is Var2) by {
        if vals[j] is Var2 {
            assert(spec_val_ok(vals[j], j == flag));
        }
    }
}

/// Walking the first `k` fields lines the decode-side prefixes up with the
/// encode-side concatenations: the fixed widths, segments and data bytes
/// consumed so far.
proof fn lemma_walk_prefixes(vals: Seq<FieldVal>, k: int)
    requires
        0 <= k <= vals.len(),
        forall|i: int| 0 <= i < vals.len() ==> spec_val_fits(#[trigger] vals[i]),
    ensures
        spec_wpre(spec_metas_of_vals(vals), k) == cat(spec_fix_parts(vals).take(k)).len(),
        (forall|i: int| 0 <= i < k ==> !((#[trigger] vals[i]) is Var2)) ==> {
            &&& spec_vpre(spec_metas_of_vals(vals), k) == cat(spec_len_parts(vals).take(k)).len()
            &&& sum_prefix(
                spec_record_lengths(vals),
                spec_vpre(spec_metas_of_vals(vals), k),
            ) == cat(spec_data_parts(vals).take(k)).len()
        },
    decreases k,
{
    let metas = spec_metas_of_vals(vals);
    let lengths = spec_record_lengths(vals);
    let fixmap = spec_fix_parts(vals);
    let lenmap = spec_len_parts(vals);
    let datamap = spec_data_parts(vals);
    if k > 0 {
        lemma_walk_prefixes(vals, k - 1);
        lemma_cat_step(fixmap, k - 1);
        lemma_cat_step(lenmap, k - 1);
        lemma_cat_step(datamap, k - 1);
        let v = vals[k - 1];
        assert(metas[k - 1] == spec_meta_of_val(v));
        if forall|i: int| 0 <= i < k ==> !((#[trigger] vals[i]) is Var2) {
            let vp = spec_vpre(metas, k - 1);
            match v {
                FieldVal::Fixed(_) => {
                    assert(lenmap[k - 1].len() == 0);
                    assert(datamap[k - 1].len() == 0);
                },
                FieldVal::Var1(b) => {
                    lemma_cat_extract(lenmap, k - 1);
                    assert(lenmap[k - 1] == seq![b.len() as u32]);
                    assert(lengths.subrange(vp, vp + 1) == seq![b.len() as u32]);
                    assert(lengths[vp] == lengths.subrange(vp, vp + 1)[0]);
                    assert(sum_prefix(lengths, vp + 1) == sum_prefix(lengths, vp) + lengths[vp]);
                },
                FieldVal::Var2(_) => {
                    assert(!(vals[k - 1] is Var2));
                },
            }
        }
    } else {
        assert(fixmap.take(0) =~= Seq::<Seq<u8>>::empty());
        assert(lenmap.take(0) =~= Seq::<Seq<u32>>::empty());
        assert(datamap.take(0) =~= Seq::<Seq<u8>>::empty());
    }
}

/// The flat length run sums, across the first `j` inner runs of the var2
/// tail at field `i`, to the data bytes of the fields before `i` plus the
/// inner bytes so far.
proof fn lemma_var2_sum(vals: Seq<FieldVal>, ss: Seq<Seq<u8>>, i: int, j: int)
    requires
        spec_record_encodable(vals),
        0 <= i < vals.len(),
        vals[i] == FieldVal::Var2(ss),
        forall|t: int| 0 <= t < i ==> !((#[trigger] vals[t]) is Var2),
        0 <= j <= ss.len(),
    ensures
        sum_prefix(
            spec_record_lengths(vals),
            spec_vpre(spec_metas_of_vals(vals), i) + j,
        ) == cat(spec_data_parts(vals).take(i)).len() + cat(ss.take(j)).len(),
    decreases j,
{
    let metas = spec_metas_of_vals(vals);
    let n = vals.len() as int;
    let lengths = spec_record_lengths(vals);
    let lenmap = spec_len_parts(vals);
    let vp = spec_vpre(metas, i);

    assert forall|t: int| 0 <= t < n implies spec_val_fits(#[trigger] vals[t]) by {
        assert(spec_val_ok(vals[t], t == spec_vals_flag_index(vals)));
    }
    lemma_walk_prefixes(vals, i);
    lemma_cat_extract(lenmap, i);
    assert(lenmap[i] == Seq::new(ss.len(), |t: int| ss[t].len() as u32));
    assert(vp == cat(lenmap.take(i)).len());
    assert(lengths.subrange(vp, vp + ss.len() as int) == lenmap[i]);
    if j == 0 {
        assert(ss.take(0) =~= Seq::<Seq<u8>>::empty());
    } else {
        lemma_var2_sum(vals, ss, i, j - 1);
        lemma_cat_step(ss, j - 1);
        assert(lengths[vp + j - 1] == lengths.subrange(vp, vp + ss.len() as int)[j - 1]);
        assert(lengths[vp + j - 1] == ss[j - 1].len() as u32);
        assert(spec_val_fits(vals[i]));
        assert(spec_segs_fit(ss));
        assert(ss[j - 1].len() <= u32::MAX);
        assert(sum_prefix(lengths, vp + j) == sum_prefix(lengths, vp + j - 1) + lengths[vp + j
            - 1]);
    }
}

/// Roundtrip: decoding the payload assembled from any encodable field list
/// gives back exactly those field values.
///
/// Together with the contracts of `encode_record` and `decode_record`, this
/// says that for every value satisfying the placement rule, what was
/// encoded is what decodes: fixed bytes, single segments and segment tails
/// alike.
pub proof fn lemma_record_roundtrip(vals: Seq<FieldVal>)
    requires
        spec_record_encodable(vals),
    ensures
        spec_record_decodable(spec_record_payload(vals), spec_metas_of_vals(vals)),
        Seq::new(
            vals.len(),
            |i: int| spec_decoded_field(spec_record_payload(vals), spec_metas_of_vals(vals), i),
        ) == vals,
{
    let metas = spec_metas_of_vals(vals);
    let n = vals.len() as int;
    let fixed = spec_record_fixed(vals);
    let lengths = spec_record_lengths(vals);
    let data = spec_record_data(vals);
    let p = spec_record_payload(vals);
    let fixmap = spec_fix_parts(vals);
    let lenmap = spec_len_parts(vals);
    let datamap = spec_data_parts(vals);
    let flag = spec_vals_flag_index(vals);

    assert forall|i: int| 0 <= i < n implies spec_val_fits(#[trigger] vals[i]) by {
        assert(spec_val_ok(vals[i], i == flag));
    }
    lemma_record_shape(vals);
    lemma_payload_parses(fixed, lengths, data);
    lemma_flags_agree(vals, n);
    assert(spec_metas_flag_index(metas) == flag);

    assert forall|i: int|
        #![trigger spec_field_decodable(p, metas, i)]
        #![trigger spec_decoded_field(p, metas, i)]
        0 <= i < n implies spec_field_decodable(p, metas, i) && spec_decoded_field(p, metas, i)
        == vals[i] by {
        lemma_walk_prefixes(vals, i);
        lemma_cat_extract(fixmap, i);
        lemma_cat_extract(lenmap, i);
        lemma_cat_extract(datamap, i);
        assert(metas[i] == spec_meta_of_val(vals[i]));
        match vals[i] {
            FieldVal::Fixed(b) => {
                assert(fixmap[i] == b);
                assert(spec_wpre(metas, i) == cat(fixmap.take(i)).len());
                assert(spec_wpre(metas, i) + b.len() <= fixed.len());
                assert(spec_buf_vio(p) == 8 + fixed.len());
                assert(spec_field_decodable(p, metas, i));
                assert(spec_buf_fixed(p) == fixed);
                assert(spec_meta_width(metas[i]) == b.len());
                assert(spec_buf_fixed(p).subrange(
                    spec_wpre(metas, i),
                    spec_wpre(metas, i) + b.len() as int,
                ) == b);
                assert(spec_decoded_field(p, metas, i) == vals[i]);
            },
            FieldVal::Var1(b) => {
                lemma_no_var2_before(vals, i);
                let vp = spec_vpre(metas, i);
                assert(vp == cat(lenmap.take(i)).len());
                assert(lenmap[i] == seq![b.len() as u32]);
                assert(vp + 1 <= lengths.len());
                assert(spec_buf_var_count(p) == lengths.len());
                assert(spec_buf_segment_ok(p, vp));
                assert(spec_field_decodable(p, metas, i));
                assert(lengths.subrange(vp, vp + 1) == seq![b.len() as u32]);
                assert(lengths[vp] == lengths.subrange(vp, vp + 1)[0]);
                assert(sum_prefix(lengths, vp) == cat(datamap.take(i)).len());
                assert(sum_prefix(lengths, vp + 1) == sum_prefix(lengths, vp) + lengths[vp]);
                assert(spec_buf_segment(p, vp) == data.subrange(
                    sum_prefix(lengths, vp),
                    sum_prefix(lengths, vp + 1),
                ));
                assert(datamap[i] == b);
                assert(data.subrange(
                    cat(datamap.take(i)).len() as int,
                    cat(datamap.take(i)).len() + b.len() as int,
                ) == b);
                assert(spec_decoded_field(p, metas, i) == vals[i]);
            },
            FieldVal::Var2(ss) => {
                assert(spec_val_ok(vals[i], i == flag));
                assert(i == flag);
                lemma_no_var2_before(vals, i);
                let vp = spec_vpre(metas, i);
                assert(vp == cat(lenmap.take(i)).len());
                assert(lenmap[i] == Seq::new(ss.len(), |t: int| ss[t].len() as u32));
                assert(vp + ss.len() <= lengths.len());
                assert(spec_buf_var_count(p) == lengths.len());
                assert forall|j: int| i + 1 <= j < n implies (#[trigger] lenmap[j]).len()
                    == 0 by {
                    lemma_metas_last_var_max(metas, n, j);
                    assert(metas[j] is Fixed);
                    assert(metas[j] == spec_meta_of_val(vals[j]));
                    assert(vals[j] is Fixed);
                }
                lemma_cat_prefix_all(lenmap, i + 1);
                lemma_cat_step(lenmap, i);
                assert(lengths.len() == vp + ss.len());
                assert(spec_tail_segments_ok(p, vp));
                assert(spec_field_decodable(p, metas, i));

                let dec = Seq::new(
                    (spec_buf_var_count(p) - vp) as nat,
                    |j: int| spec_buf_segment(p, vp + j),
                );
                assert forall|j: int| 0 <= j < ss.len() implies dec[j] == ss[j] by {
                    lemma_var2_seg(vals, ss, i, j);
                }
                assert(dec =~= ss);
                assert(spec_decoded_field(p, metas, i) =~= vals[i]);
            },
        }
    }
    assert(Seq::new(vals.len(), |i: int| spec_decoded_field(p, metas, i)) =~= vals);
}

/// Within the var2 tail at field `i`, payload segment `vpre(i) + j` is the
/// `j`-th inner byte run.
proof fn lemma_var2_seg(vals: Seq<FieldVal>, ss: Seq<Seq<u8>>, i: int, j: int)
    requires
        spec_record_encodable(vals),
        0 <= i < vals.len(),
        vals[i] == FieldVal::Var2(ss),
        forall|t: int| 0 <= t < i ==> !((#[trigger] vals[t]) is Var2),
        0 <= j < ss.len(),
        spec_vpre(spec_metas_of_vals(vals), i) + ss.len() == spec_record_lengths(vals).len(),
    ensures
        spec_buf_segment(
            spec_record_payload(vals),
            spec_vpre(spec_metas_of_vals(vals), i) + j,
        ) == ss[j],
{
    let metas = spec_metas_of_vals(vals);
    let n = vals.len() as int;
    let fixed = spec_record_fixed(vals);
    let lengths = spec_record_lengths(vals);
    let data = spec_record_data(vals);
    let p = spec_record_payload(vals);
    let datamap = spec_data_parts(vals);
    let vp = spec_vpre(metas, i);
    let dp = cat(datamap.take(i)).len() as int;

    assert forall|t: int| 0 <= t < n implies spec_val_fits(#[trigger] vals[t]) by {
        assert(spec_val_ok(vals[t], t == spec_vals_flag_index(vals)));
    }
    lemma_record_shape(vals);
    lemma_payload_parses(fixed, lengths, data);
    lemma_walk_prefixes(vals, i);
    lemma_cat_extract(datamap, i);
    assert(0 <= vp + j < lengths.len());
    assert(datamap[i] == cat(ss));
    assert(data.subrange(dp, dp + cat(ss).len() as int) == cat(ss));

    lemma_var2_sum(vals, ss, i, j);
    lemma_var2_sum(vals, ss, i, j + 1);
    lemma_cat_step(ss, j);
    lemma_cat_extract(ss, j);
    let a = cat(ss.take(j)).len() as int;
    assert(sum_prefix(lengths, vp + j) == dp + a);
    assert(sum_prefix(lengths, vp + j + 1) == dp + a + ss[j].len());
    assert(spec_buf_segment(p, vp + j) == data.subrange(
        sum_prefix(lengths, vp + j),
        sum_prefix(lengths, vp + j + 1),
    ));
    assert(cat(ss).subrange(a, a + ss[j].len() as int) == ss[j]);
    assert(data.subrange(dp + a, dp + a + ss[j].len() as int) =~= cat(ss).subrange(
        a,
        a + ss[j].len() as int,
    ));
}

/// Roundtrip for records of only fixed fields: the special case of
/// `lemma_record_roundtrip` where no field is variable.
pub proof fn lemma_record_roundtrip_fixed_only(vals: Seq<FieldVal>)
    requires
        forall|i: int| 0 <= i < vals.len() ==> (#[trigger] vals[i]) is Fixed,
        spec_record_encodable(vals),
    ensures
        spec_record_decodable(spec_record_payload(vals), spec_metas_of_vals(vals)),
        Seq::new(
            vals.len(),
            |i: int| spec_decoded_field(spec_record_payload(vals), spec_metas_of_vals(vals), i),
        ) == vals,
{
    lemma_record_roundtrip(vals);
}

/// The field shapes of a list of field values: what `decode_record` needs
/// to read back what `encode_record` wrote.
pub fn field_metas(fields: &Vec<FieldValue>) -> (r: Vec<FieldMeta>)
    ensures
        r@ == spec_metas_of_vals(spec_vals_view(fields@)),
{
    let ghost vals = spec_vals_view(fields@);
    let n = fields.len();
    let mut out: Vec<FieldMeta> = Vec::new();
    let mut i: usize = 0;
    while i < n
        invariant
            i <= n,
            n == fields@.len(),
            vals == spec_vals_view(fields@),
            out@.len() == i,
            forall|j: int| 0 <= j < i ==> out@[j] == spec_meta_of_val(#[trigger] vals[j]),
        decreases n - i,
    {
        let m = match &fields[i] {
            FieldValue::Fixed(b) => FieldMeta::Fixed(b.len() as u32),
            FieldValue::Var1(_) => FieldMeta::Var1,
            FieldValue::Var2(_) => FieldMeta::Var2,
        };
        out.push(m);
        i = i + 1;
    }
    proof {
        assert(out@ =~= spec_metas_of_vals(vals));
    }
    out
}


} // verus!
