//! The `repr(C)` layout of a struct's fields: offsets, padding, size and
//! alignment, as `#[bitflate]` previews them.
use vstd::prelude::*;
use crate::align::{align_up_host, lemma_mask_round_up, lemma_small_power_of_two, spec_align_up};
use crate::attrs::{bits_override, parse_bits_override, spec_bits_override};
use crate::attrs::stripped;
use crate::model::{FieldDesc, TypeDesc, spec_path_is_ident};
use crate::text::str_eq;
use crate::widths::{
    bit_width_of_type, bits_to_bytes, layout_of_type, spec_bit_width_of_type, spec_bits_to_bytes,
    spec_layout_of_type,
};

verus! {

/// A run of bytes in memory order.
#[derive(Clone, Copy)]
pub enum Slot {
    /// Bytes that no field occupies.
    Padding { start: usize, len: usize },
    /// The bytes of field `index`; `bits` is its width when the field uses
    /// fewer bits than its bytes hold.
    Field { index: usize, start: usize, size: usize, bits: Option<usize> },
    /// Field `index`, whose layout cannot be read off its type.
    Unsupported { index: usize },
}

/// The layout of a struct's fields, as planned.
pub struct LayoutPlan {
    /// Padding and fields, in memory order; with a trailing padding slot up to
    /// `size` when every field is supported.
    pub slots: Vec<Slot>,
    /// The byte after the last field.
    pub cursor: usize,
    /// The struct's alignment: the largest field alignment, at least 1.
    pub align: usize,
    /// Bytes occupied by fields.
    pub used: usize,
    /// Whether every field's layout is known.
    pub supported: bool,
    /// The struct's size: `cursor` rounded up to `align` (0 when not supported).
    pub size: usize,
    /// Per field: `Some(offset)` when the generated code asserts that exact
    /// offset, `None` when it only names the field.
    pub offsets: Vec<Option<usize>>,
}

/// The mathematical content of a `LayoutPlan`.
pub struct PlanView {
    pub slots: Seq<Slot>,
    pub cursor: nat,
    pub align: nat,
    pub used: nat,
    pub supported: bool,
    pub size: nat,
    pub offsets: Seq<Option<usize>>,
}

impl View for LayoutPlan {
    type V = PlanView;

    open spec fn view(&self) -> PlanView {
        PlanView {
            slots: self.slots@,
            cursor: self.cursor as nat,
            align: self.align as nat,
            used: self.used as nat,
            supported: self.supported,
            size: self.size as nat,
            offsets: self.offsets@,
        }
    }
}

/// The type is the plain path `bool`.
pub open spec fn is_bool_path(ty: TypeDesc) -> bool {
    match ty {
        TypeDesc::Path { qself, leading_colon, segments } => spec_path_is_ident(leading_colon, segments@, "bool"@),
        _ => false,
    }
}

/// `(size, align)` of a field: that of its type, else the storage bytes of its
/// `#[bits(N)]` width.
pub open spec fn field_layout(f: FieldDesc) -> Option<(usize, usize)> {
    match spec_layout_of_type(f.ty) {
        Some(l) => Some(l),
        None => match spec_bits_override(f.attrs@) {
            Some(b) => Some((spec_bits_to_bytes(b), spec_bits_to_bytes(b))),
            None => None,
        },
    }
}

/// The number of bits a field uses: its `#[bits(N)]`, else its type's width,
/// else 1 for a plain `bool`.
pub open spec fn field_type_bits(f: FieldDesc) -> Option<usize> {
    match spec_bits_override(f.attrs@) {
        Some(b) => Some(b),
        None => match spec_bit_width_of_type(f.ty) {
            Some(b) => Some(b),
            None => if is_bool_path(f.ty) {
                Some(1usize)
            } else {
                None
            },
        },
    }
}

/// The field's width when it uses fewer bits than its `size` bytes hold.
pub open spec fn partial_bits(f: FieldDesc, size: usize) -> Option<usize> {
    match field_type_bits(f) {
        Some(b) => if b < size * 8 {
            Some(b)
        } else {
            None
        },
        None => None,
    }
}

/// The layout before any field.
pub open spec fn empty_plan() -> PlanView {
    PlanView {
        slots: Seq::empty(),
        cursor: 0,
        align: 1,
        used: 0,
        supported: true,
        size: 0,
        offsets: Seq::empty(),
    }
}

/// Where a field of alignment `falign` starts after the plan `p`.
pub open spec fn field_offset(p: PlanView, falign: usize) -> nat {
    spec_align_up(p.cursor as usize, falign) as nat
}

/// Lays out field `f`, the `index`-th, after the plan `p`: padding up to its
/// alignment, then its bytes.
pub open spec fn plan_step(p: PlanView, f: FieldDesc, index: nat) -> PlanView {
    match field_layout(f) {
        Some((size, falign)) => {
            let off = field_offset(p, falign);
            let padded = if off > p.cursor {
                p.slots.push(Slot::Padding { start: p.cursor as usize, len: (off - p.cursor) as usize })
            } else {
                p.slots
            };
            PlanView {
                slots: padded.push(
                    Slot::Field { index: index as usize, start: off as usize, size, bits: partial_bits(f, size) },
                ),
                cursor: off + size as nat,
                align: if falign > p.align { falign as nat } else { p.align },
                used: p.used + size as nat,
                supported: p.supported,
                size: 0,
                offsets: p.offsets.push(if p.supported { Some(off as usize) } else { None }),
            }
        },
        None => PlanView {
            slots: p.slots.push(Slot::Unsupported { index: index as usize }),
            cursor: p.cursor,
            align: p.align,
            used: p.used,
            supported: false,
            size: 0,
            offsets: p.offsets.push(None),
        },
    }
}

/// The layout of the fields, before rounding the size up.
pub open spec fn plan_fields(fields: Seq<FieldDesc>) -> PlanView
    decreases fields.len(),
{
    if fields.len() == 0 {
        empty_plan()
    } else {
        plan_step(plan_fields(fields.drop_last()), fields.last(), (fields.len() - 1) as nat)
    }
}

/// The size of the struct: the end of its last field rounded up to its alignment.
pub open spec fn struct_size(p: PlanView) -> nat {
    spec_align_up(p.cursor as usize, p.align as usize) as nat
}

/// The complete layout: when every field is supported, the size rounded up to
/// the alignment, with trailing padding up to it.
pub open spec fn spec_plan_layout(fields: Seq<FieldDesc>) -> PlanView {
    let p = plan_fields(fields);
    if p.supported {
        let size = struct_size(p);
        PlanView {
            slots: if size > p.cursor {
                p.slots.push(Slot::Padding { start: p.cursor as usize, len: (size - p.cursor) as usize })
            } else {
                p.slots
            },
            size: size,
            ..p
        }
    } else {
        p
    }
}

/// Laying out `f` after `p` keeps every offset, bit position and total within
/// `usize`.
pub open spec fn step_fits(p: PlanView, f: FieldDesc) -> bool {
    match field_layout(f) {
        Some((size, falign)) => {
            let off = field_offset(p, falign);
            &&& falign > 1 ==> p.cursor + falign - 1 <= usize::MAX
            &&& field_type_bits(f) is Some ==> size * 8 <= usize::MAX
            &&& off * 8 <= usize::MAX
            &&& partial_bits(f, size) matches Some(b) ==> 1 <= off * 8 + b <= usize::MAX
            &&& off + size <= usize::MAX
            &&& p.used + size <= usize::MAX
        },
        None => true,
    }
}

/// Every field's layout step fits in `usize`.
pub open spec fn fields_fit(fields: Seq<FieldDesc>) -> bool
    decreases fields.len(),
{
    if fields.len() == 0 {
        true
    } else {
        fields_fit(fields.drop_last()) && step_fits(plan_fields(fields.drop_last()), fields.last())
    }
}

/// The layout's arithmetic, the size and the size in bits included, stays
/// within `usize`.
pub open spec fn layout_fits(fields: Seq<FieldDesc>) -> bool {
    let p = plan_fields(fields);
    &&& fields_fit(fields)
    &&& p.supported ==> {
        &&& p.align > 1 ==> p.cursor + p.align - 1 <= usize::MAX
        &&& struct_size(p) * 8 <= usize::MAX
    }
}

/// Whether `ty` is the plain path `bool`.
fn is_bool_type(ty: &TypeDesc) -> (res: bool)
    ensures
        res == is_bool_path(*ty),
{
    match ty {
        TypeDesc::Path { qself, leading_colon, segments } => {
            !*leading_colon && segments.len() == 1 && !segments[0].has_args && str_eq(segments[0].ident.as_str(), "bool")
        },
        _ => false,
    }
}

proof fn lemma_plan_bounds(fields: Seq<FieldDesc>)
    requires
        fields_fit(fields),
    ensures
        plan_fields(fields).cursor <= usize::MAX,
        plan_fields(fields).used <= usize::MAX,
        1 <= plan_fields(fields).align <= usize::MAX,
        plan_fields(fields).offsets.len() == fields.len(),
    decreases fields.len(),
{
    if fields.len() > 0 {
        lemma_plan_bounds(fields.drop_last());
        lemma_field_align_small(fields.last());
    }
}

/// A field's alignment is 1, 2, 4, 8 or 16.
pub proof fn lemma_field_align_small(f: FieldDesc)
    ensures
        field_layout(f) matches Some((s, a)) ==> (a == 1 || a == 2 || a == 4 || a == 8 || a == 16),
{
    lemma_type_align_small(f.ty);
}

/// A type's alignment is 1, 2, 4, 8 or 16.
pub proof fn lemma_type_align_small(ty: TypeDesc)
    ensures
        spec_layout_of_type(ty) matches Some((s, a)) ==> (a == 1 || a == 2 || a == 4 || a == 8 || a == 16),
    decreases ty,
{
    match ty {
        TypeDesc::Array { elem, len } => {
            lemma_type_align_small(*elem);
        },
        _ => {},
    }
}

/// Lays out the fields in declaration order under `repr(C)` rules, removing
/// their `#[bits(..)]` attributes.
pub fn plan_layout(fields: &mut Vec<FieldDesc>) -> (plan: LayoutPlan)
    requires
        layout_fits(old(fields)@),
    ensures
        plan@ == spec_plan_layout(old(fields)@),
        final(fields)@.len() == old(fields)@.len(),
        forall|j: int| 0 <= j < old(fields)@.len() ==> stripped(final(fields)@[j], #[trigger] old(fields)@[j]),
{
    let ghost old_fs = fields@;
    let n = fields.len();
    let mut plan = LayoutPlan {
        slots: Vec::new(),
        cursor: 0,
        align: 1,
        used: 0,
        supported: true,
        size: 0,
        offsets: Vec::new(),
    };
    let mut i: usize = 0;
    proof {
        assert(old_fs.take(0) =~= Seq::<FieldDesc>::empty());
        assert(plan@ =~= empty_plan());
    }
    while i < n
        invariant
            n == old_fs.len(),
            fields@.len() == n,
            i <= n,
            layout_fits(old_fs),
            plan@ == plan_fields(old_fs.take(i as int)),
            forall|j: int| 0 <= j < i ==> stripped(#[trigger] fields@[j], old_fs[j]),
            forall|j: int| i <= j < n ==> #[trigger] fields@[j] == old_fs[j],
        decreases n - i,
    {
        let ghost pre = old_fs.take(i as int);
        let ghost cur = old_fs.take(i + 1);
        proof {
            assert(cur.drop_last() =~= pre);
            assert(cur.last() == old_fs[i as int]);
            lemma_fits_prefix(old_fs, i + 1);
            lemma_plan_bounds(pre);
            lemma_field_align_small(old_fs[i as int]);
        }
        let hint = parse_bits_override(&mut fields[i].attrs);
        assert(stripped(fields@[i as int], old_fs[i as int]));
        let f = &fields[i];
        let layout = match layout_of_type(&f.ty) {
            Some(l) => Some(l),
            None => match hint {
                Some(b) => {
                    let size = bits_to_bytes(b);
                    Some((size, size))
                },
                None => None,
            },
        };
        let type_bits = match hint {
            Some(b) => Some(b),
            None => match bit_width_of_type(&f.ty) {
                Some(b) => Some(b),
                None => if is_bool_type(&f.ty) {
                    Some(1)
                } else {
                    None
                },
            },
        };
        assert(layout == field_layout(old_fs[i as int]));
        assert(type_bits == field_type_bits(old_fs[i as int]));
        match layout {
            Some((field_size, field_align)) => {
                let aligned = align_up_host(plan.cursor, field_align);
                if aligned > plan.cursor {
                    plan.slots.push(Slot::Padding { start: plan.cursor, len: aligned - plan.cursor });
                }
                let bits = match type_bits {
                    Some(b) => if b < field_size * 8 {
                        Some(b)
                    } else {
                        None
                    },
                    None => None,
                };
                plan.slots.push(Slot::Field { index: i, start: aligned, size: field_size, bits });
                if plan.supported {
                    plan.offsets.push(Some(aligned));
                } else {
                    plan.offsets.push(None);
                }
                plan.cursor = aligned + field_size;
                plan.used = plan.used + field_size;
                if field_align > plan.align {
                    plan.align = field_align;
                }
            },
            None => {
                plan.supported = false;
                plan.slots.push(Slot::Unsupported { index: i });
                plan.offsets.push(None);
            },
        }
        proof {
            assert(plan@ =~= plan_fields(cur));
        }
        i = i + 1;
    }
    proof {
        assert(old_fs.take(n as int) =~= old_fs);
        lemma_plan_bounds(old_fs);
    }
    if plan.supported {
        let size = align_up_host(plan.cursor, plan.align);
        if size > plan.cursor {
            plan.slots.push(Slot::Padding { start: plan.cursor, len: size - plan.cursor });
        }
        plan.size = size;
    }
    proof {
        assert(plan@ =~= spec_plan_layout(old_fs));
    }
    plan
}

proof fn lemma_fits_prefix(fields: Seq<FieldDesc>, i: int)
    requires
        0 <= i <= fields.len(),
        fields_fit(fields),
    ensures
        fields_fit(fields.take(i)),
    decreases fields.len() - i,
{
    if i == fields.len() {
        assert(fields.take(i) =~= fields);
    } else {
        lemma_fits_prefix(fields, i + 1);
        assert(fields.take(i + 1).drop_last() =~= fields.take(i));
    }
}

/// Bytes that a slot covers.
pub open spec fn slot_len(s: Slot) -> nat {
    match s {
        Slot::Padding { start, len } => len as nat,
        Slot::Field { index, start, size, bits } => size as nat,
        Slot::Unsupported { index } => 0,
    }
}

/// The byte at which a slot starts.
pub open spec fn slot_start(s: Slot) -> nat {
    match s {
        Slot::Padding { start, len } => start as nat,
        Slot::Field { index, start, size, bits } => start as nat,
        Slot::Unsupported { index } => 0,
    }
}

/// Bytes that the slots cover together.
pub open spec fn slots_total(slots: Seq<Slot>) -> nat
    decreases slots.len(),
{
    if slots.len() == 0 {
        0
    } else {
        slots_total(slots.drop_last()) + slot_len(slots.last())
    }
}

/// Bytes of padding among the slots.
pub open spec fn padding_total(slots: Seq<Slot>) -> nat
    decreases slots.len(),
{
    if slots.len() == 0 {
        0
    } else {
        padding_total(slots.drop_last()) + match slots.last() {
            Slot::Padding { start, len } => len as nat,
            _ => 0,
        }
    }
}

/// A field slot lies at a multiple of its field's alignment, with its
/// field's size.
pub open spec fn field_slot_aligned(fields: Seq<FieldDesc>, s: Slot) -> bool {
    s matches Slot::Field { index, start, size, bits } ==> {
        &&& index < fields.len()
        &&& field_layout(fields[index as int]) matches Some((fsize, falign)) && fsize == size && start % falign == 0
    }
}

/// The slots follow each other without gap or overlap from byte 0.
pub open spec fn slots_tile(slots: Seq<Slot>) -> bool {
    forall|k: int| 0 <= k < slots.len() ==> !(#[trigger] slots[k] is Unsupported)
        && slot_start(slots[k]) == slots_total(slots.take(k))
}

/// The field `index` sits in some field slot at the offset that `offset`
/// records for it.
pub open spec fn offset_recorded(slots: Seq<Slot>, index: int, offset: Option<usize>) -> bool {
    exists|k: int| 0 <= k < slots.len() && (#[trigger] slots[k] matches Slot::Field { index: fi, start, size, bits }
        && fi == index && offset == Some(start))
}

/// A slot names one of `n` fields, covers at least one byte when it is
/// padding, and its byte and bit positions fit in `usize`.
pub open spec fn slot_fits(s: Slot, n: nat) -> bool {
    match s {
        Slot::Padding { start, len } => len >= 1 && start + len <= usize::MAX,
        Slot::Field { index, start, size, bits } => {
            &&& index < n
            &&& start * 8 <= usize::MAX
            &&& start + size <= usize::MAX
            &&& bits matches Some(b) ==> 1 <= start * 8 + b <= usize::MAX
        },
        Slot::Unsupported { index } => index < n,
    }
}

/// The laws that every prefix of the fields keeps.
pub open spec fn plan_laws(fields: Seq<FieldDesc>, p: PlanView) -> bool {
    &&& p.align == 1 || p.align == 2 || p.align == 4 || p.align == 8 || p.align == 16
    &&& p.offsets.len() == fields.len()
    &&& forall|k: int| 0 <= k < p.slots.len() ==> field_slot_aligned(fields, #[trigger] p.slots[k])
    &&& forall|k: int| 0 <= k < p.slots.len() ==> slot_fits(#[trigger] p.slots[k], fields.len())
    &&& p.supported ==> {
        &&& slots_tile(p.slots)
        &&& slots_total(p.slots) == p.cursor
        &&& p.used + padding_total(p.slots) == p.cursor
        &&& forall|i: int| 0 <= i < fields.len() ==> offset_recorded(p.slots, i, #[trigger] p.offsets[i])
    }
}

proof fn lemma_step_aligned(fields: Seq<FieldDesc>)
    requires
        fields.len() > 0,
        fields.len() <= usize::MAX,
        fields_fit(fields),
        plan_laws(fields.drop_last(), plan_fields(fields.drop_last())),
        plan_fields(fields.drop_last()).cursor <= usize::MAX,
    ensures
        forall|k: int| 0 <= k < plan_fields(fields).slots.len() ==> field_slot_aligned(fields, #[trigger] plan_fields(fields).slots[k]),
        forall|k: int| 0 <= k < plan_fields(fields).slots.len() ==> slot_fits(#[trigger] plan_fields(fields).slots[k], fields.len()),
{
    let pre = fields.drop_last();
    let f = fields.last();
    let i = fields.len() - 1;
    let p = plan_fields(pre);
    let q = plan_fields(fields);
    lemma_field_align_small(f);
    assert(f == fields[i]);
    assert forall|k: int| 0 <= k < p.slots.len() implies field_slot_aligned(fields, #[trigger] p.slots[k]) by {
        assert(field_slot_aligned(pre, p.slots[k]));
        if let Slot::Field { index, start, size, bits } = p.slots[k] {
            assert(pre[index as int] == fields[index as int]);
        }
    }
    match field_layout(f) {
        Some((size, falign)) => {
            lemma_small_power_of_two(falign);
            if falign > 1 {
                lemma_mask_round_up(p.cursor as usize, falign);
            }
            let off = field_offset(p, falign);
            assert(off % (falign as nat) == 0);
            let padded = if off > p.cursor {
                p.slots.push(Slot::Padding { start: p.cursor as usize, len: (off - p.cursor) as usize })
            } else {
                p.slots
            };
            assert(q.slots == padded.push(Slot::Field { index: i as usize, start: off as usize, size, bits: partial_bits(f, size) }));
            assert forall|k: int| 0 <= k < q.slots.len() implies field_slot_aligned(fields, #[trigger] q.slots[k]) by {
                if k < p.slots.len() {
                    assert(q.slots[k] == p.slots[k]);
                }
            }
            assert forall|k: int| 0 <= k < q.slots.len() implies slot_fits(#[trigger] q.slots[k], fields.len()) by {
                if k < p.slots.len() {
                    assert(q.slots[k] == p.slots[k]);
                    assert(slot_fits(p.slots[k], pre.len()));
                }
            }
        },
        None => {
            assert forall|k: int| 0 <= k < q.slots.len() implies field_slot_aligned(fields, #[trigger] q.slots[k]) by {
                if k < p.slots.len() {
                    assert(q.slots[k] == p.slots[k]);
                }
            }
            assert forall|k: int| 0 <= k < q.slots.len() implies slot_fits(#[trigger] q.slots[k], fields.len()) by {
                if k < p.slots.len() {
                    assert(q.slots[k] == p.slots[k]);
                    assert(slot_fits(p.slots[k], pre.len()));
                }
            }
        },
    }
}

#[verifier::rlimit(30)]
proof fn lemma_step_tiles(fields: Seq<FieldDesc>)
    requires
        fields.len() > 0,
        fields.len() <= usize::MAX,
        fields_fit(fields),
        plan_laws(fields.drop_last(), plan_fields(fields.drop_last())),
        plan_fields(fields.drop_last()).cursor <= usize::MAX,
        plan_fields(fields).supported,
    ensures
        ({
            let q = plan_fields(fields);
            &&& slots_tile(q.slots)
            &&& slots_total(q.slots) == q.cursor
            &&& q.used + padding_total(q.slots) == q.cursor
            &&& forall|j: int| 0 <= j < fields.len() ==> offset_recorded(q.slots, j, #[trigger] q.offsets[j])
        }),
{
    let pre = fields.drop_last();
    let f = fields.last();
    let i = fields.len() - 1;
    let p = plan_fields(pre);
    let q = plan_fields(fields);
    lemma_field_align_small(f);
    let (size, falign) = field_layout(f)->0;
    lemma_small_power_of_two(falign);
    if falign > 1 {
        lemma_mask_round_up(p.cursor as usize, falign);
    }
    let off = field_offset(p, falign);
    let padded = if off > p.cursor {
        p.slots.push(Slot::Padding { start: p.cursor as usize, len: (off - p.cursor) as usize })
    } else {
        p.slots
    };
    assert(q.slots == padded.push(Slot::Field { index: i as usize, start: off as usize, size, bits: partial_bits(f, size) }));
    if off > p.cursor {
        assert(padded.drop_last() =~= p.slots);
    }
    assert(slots_total(padded) == off);
    assert(padding_total(padded) + p.cursor == padding_total(p.slots) + off);
    assert(q.slots.drop_last() =~= padded);
    assert forall|k: int| 0 <= k < q.slots.len() implies !(#[trigger] q.slots[k] is Unsupported)
        && slot_start(q.slots[k]) == slots_total(q.slots.take(k)) by {
        if k < p.slots.len() {
            assert(q.slots[k] == p.slots[k]);
            assert(q.slots.take(k) =~= p.slots.take(k));
        } else if k == q.slots.len() - 1 {
            assert(q.slots.take(k) =~= padded);
        } else {
            assert(q.slots.take(k) =~= p.slots);
        }
    }
    assert forall|j: int| 0 <= j < fields.len() implies offset_recorded(q.slots, j, #[trigger] q.offsets[j]) by {
        if j < pre.len() {
            assert(q.offsets[j] == p.offsets[j]);
            assert(offset_recorded(p.slots, j, p.offsets[j]));
            let k = choose|k: int| 0 <= k < p.slots.len() && (#[trigger] p.slots[k] matches Slot::Field { index: fi, start, size, bits }
                && fi == j && p.offsets[j] == Some(start));
            assert(q.slots[k] == p.slots[k]);
        } else {
            let k = q.slots.len() - 1;
            assert(q.slots[k] == Slot::Field { index: i as usize, start: off as usize, size, bits: partial_bits(f, size) });
            assert(q.offsets[j] == Some(off as usize));
        }
    }
}

proof fn lemma_plan_fields_laws(fields: Seq<FieldDesc>)
    requires
        fields_fit(fields),
        fields.len() <= usize::MAX,
    ensures
        plan_laws(fields, plan_fields(fields)),
    decreases fields.len(),
{
    if fields.len() > 0 {
        let pre = fields.drop_last();
        lemma_plan_fields_laws(pre);
        lemma_plan_bounds(pre);
        lemma_plan_bounds(fields);
        lemma_field_align_small(fields.last());
        lemma_step_aligned(fields);
        if plan_fields(fields).supported {
            lemma_step_tiles(fields);
        }
    }
}

/// Law: in the planned layout every field starts at a multiple of its
/// alignment and occupies its size; when every field's layout is known, the
/// padding and field slots follow each other from byte 0 without gap or
/// overlap up to the struct's size, which is the end of the last field rounded
/// up to the struct's alignment; fields and padding together make up the
/// size; and each field's asserted offset is where its slot starts.
pub proof fn law_layout_is_repr_c(fields: Seq<FieldDesc>)
    requires
        layout_fits(fields),
        fields.len() <= usize::MAX,
    ensures
        ({
            let p = spec_plan_layout(fields);
            &&& forall|k: int| 0 <= k < p.slots.len() ==> field_slot_aligned(fields, #[trigger] p.slots[k])
            &&& forall|k: int| 0 <= k < p.slots.len() ==> slot_fits(#[trigger] p.slots[k], fields.len())
            &&& p.supported ==> {
                &&& slots_tile(p.slots)
                &&& slots_total(p.slots) == p.size
                &&& p.used + padding_total(p.slots) == p.size
                &&& p.size % p.align == 0
                &&& p.cursor <= p.size < p.cursor + p.align
                &&& forall|i: int| 0 <= i < fields.len() ==> offset_recorded(p.slots, i, #[trigger] p.offsets[i])
            }
        }),
{
    lemma_plan_fields_laws(fields);
    lemma_plan_bounds(fields);
    let q = plan_fields(fields);
    let p = spec_plan_layout(fields);
    if q.supported {
        lemma_small_power_of_two(q.align as usize);
        if q.align > 1 {
            lemma_mask_round_up(q.cursor as usize, q.align as usize);
        }
        let size = struct_size(q);
        if size > q.cursor {
            assert(p.slots.drop_last() =~= q.slots);
            assert forall|k: int| 0 <= k < p.slots.len() implies !(#[trigger] p.slots[k] is Unsupported)
                && slot_start(p.slots[k]) == slots_total(p.slots.take(k)) by {
                if k < q.slots.len() {
                    assert(p.slots[k] == q.slots[k]);
                    assert(p.slots.take(k) =~= q.slots.take(k));
                } else {
                    assert(p.slots.take(k) =~= q.slots);
                }
            }
            assert forall|i: int| 0 <= i < fields.len() implies offset_recorded(p.slots, i, #[trigger] p.offsets[i]) by {
                assert(offset_recorded(q.slots, i, q.offsets[i]));
                let k = choose|k: int| 0 <= k < q.slots.len() && (#[trigger] q.slots[k] matches Slot::Field { index: fi, start, size, bits }
                    && fi == i && q.offsets[i] == Some(start));
                assert(p.slots[k] == q.slots[k]);
            }
            assert forall|k: int| 0 <= k < p.slots.len() implies field_slot_aligned(fields, #[trigger] p.slots[k]) by {
                if k < q.slots.len() {
                    assert(p.slots[k] == q.slots[k]);
                }
            }
            assert forall|k: int| 0 <= k < p.slots.len() implies slot_fits(#[trigger] p.slots[k], fields.len()) by {
                if k < q.slots.len() {
                    assert(p.slots[k] == q.slots[k]);
                }
            }
        }
    }
}

/// Field `f`'s `(size, align)` and the bits it uses, without changing it.
fn field_facts(f: &FieldDesc) -> (res: (Option<(usize, usize)>, Option<usize>))
    ensures
        res.0 == field_layout(*f),
        res.1 == field_type_bits(*f),
{
    let hint = bits_override(f.attrs.as_slice());
    let layout = match layout_of_type(&f.ty) {
        Some(l) => Some(l),
        None => match hint {
            Some(b) => {
                let size = bits_to_bytes(b);
                Some((size, size))
            },
            None => None,
        },
    };
    let type_bits = match hint {
        Some(b) => Some(b),
        None => match bit_width_of_type(&f.ty) {
            Some(b) => Some(b),
            None => if is_bool_type(&f.ty) {
                Some(1)
            } else {
                None
            },
        },
    };
    (layout, type_bits)
}

/// Whether laying out the fields keeps all arithmetic within `usize`, so that
/// `plan_layout` may be called on them.
pub fn check_layout_fits(fields: &Vec<FieldDesc>) -> (ok: bool)
    ensures
        ok == layout_fits(fields@),
{
    let n = fields.len();
    let mut cursor: usize = 0;
    let mut align: usize = 1;
    let mut used: usize = 0;
    let mut supported = true;
    let mut i: usize = 0;
    assert(fields@.take(0) =~= Seq::<FieldDesc>::empty());
    while i < n
        invariant
            n == fields@.len(),
            i <= n,
            fields_fit(fields@.take(i as int)),
            cursor == plan_fields(fields@.take(i as int)).cursor,
            align == plan_fields(fields@.take(i as int)).align,
            used == plan_fields(fields@.take(i as int)).used,
            supported == plan_fields(fields@.take(i as int)).supported,
        decreases n - i,
    {
        let ghost pre = fields@.take(i as int);
        let ghost cur = fields@.take(i + 1);
        proof {
            assert(cur.drop_last() =~= pre);
            assert(cur.last() == fields@[i as int]);
            lemma_field_align_small(fields@[i as int]);
        }
        let (layout, type_bits) = field_facts(&fields[i]);
        match layout {
            Some((size, falign)) => {
                if falign > 1 && cursor > usize::MAX - (falign - 1) {
                    proof { lemma_fits_prefix_contra(fields@, i + 1); }
                    return false;
                }
                let off = align_up_host(cursor, falign);
                let size_bits_ok = match type_bits {
                    Some(_) => size <= usize::MAX / 8,
                    None => true,
                };
                if !size_bits_ok || off > usize::MAX / 8 {
                    proof { lemma_fits_prefix_contra(fields@, i + 1); }
                    return false;
                }
                let bits = match type_bits {
                    Some(b) => if b < size * 8 { Some(b) } else { None },
                    None => None,
                };
                let bits_ok = match bits {
                    Some(b) => b <= usize::MAX - off * 8 && 1 <= off * 8 + b,
                    None => true,
                };
                if !bits_ok || size > usize::MAX - off || size > usize::MAX - used {
                    proof { lemma_fits_prefix_contra(fields@, i + 1); }
                    return false;
                }
                cursor = off + size;
                used = used + size;
                if falign > align {
                    align = falign;
                }
            },
            None => {
                supported = false;
            },
        }
        i = i + 1;
    }
    assert(fields@.take(n as int) =~= fields@);
    if supported {
        if align > 1 && cursor > usize::MAX - (align - 1) {
            return false;
        }
        let size = align_up_host(cursor, align);
        size <= usize::MAX / 8
    } else {
        true
    }
}

proof fn lemma_fits_prefix_contra(fields: Seq<FieldDesc>, i: int)
    requires
        0 <= i <= fields.len(),
        !fields_fit(fields.take(i)),
    ensures
        !layout_fits(fields),
{
    if fields_fit(fields) {
        lemma_fits_prefix(fields, i);
    }
}

/// Law: a field keeps the layout of its type: when the type has a known
/// `(size, align)`, the field's slot has that size and starts at a multiple of
/// that alignment, whatever `#[bits(N)]` the field carries; `#[bits(N)]` gives
/// the storage bytes of `N` only to a field whose type has no known layout.
pub proof fn law_type_layout_wins_over_bits(fields: Seq<FieldDesc>)
    requires
        layout_fits(fields),
        fields.len() <= usize::MAX,
    ensures
        forall|k: int| 0 <= k < spec_plan_layout(fields).slots.len() ==> {
            let slot = #[trigger] spec_plan_layout(fields).slots[k];
            slot matches Slot::Field { index, start, size, bits } ==> {
                &&& index < fields.len()
                &&& spec_layout_of_type(fields[index as int].ty) matches Some((s, a)) ==> size == s && start % a == 0
                &&& spec_layout_of_type(fields[index as int].ty) is None ==> {
                    &&& spec_bits_override(fields[index as int].attrs@) is Some
                    &&& size == spec_bits_to_bytes(spec_bits_override(fields[index as int].attrs@)->0)
                }
            }
        },
{
    law_layout_is_repr_c(fields);
    let p = spec_plan_layout(fields);
    assert forall|k: int| 0 <= k < p.slots.len() implies {
        let slot = #[trigger] p.slots[k];
        slot matches Slot::Field { index, start, size, bits } ==> {
            &&& index < fields.len()
            &&& spec_layout_of_type(fields[index as int].ty) matches Some((s, a)) ==> size == s && start % a == 0
            &&& spec_layout_of_type(fields[index as int].ty) is None ==> {
                &&& spec_bits_override(fields[index as int].attrs@) is Some
                &&& size == spec_bits_to_bytes(spec_bits_override(fields[index as int].attrs@)->0)
            }
        }
    } by {
        assert(field_slot_aligned(fields, p.slots[k]));
    }
}

} // verus!
