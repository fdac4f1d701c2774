//! `#[bitflate]`: the layout preview of a `repr(C)` struct and the offsets
//! that the generated code checks.
use vstd::prelude::*;
use crate::attrs::{has_repr_c, spec_has_repr_c};
use crate::attrs::stripped;
use crate::digits::{decimal, push_decimal, usize_to_string};
use crate::layout::{
    LayoutPlan, PlanView, Slot, layout_fits, law_layout_is_repr_c, plan_layout, slot_fits,
    slots_tile, slots_total, spec_plan_layout,
};
use crate::lines::{rejoin_lines, rejoin_lines_string};
use crate::model::{FieldDesc, FieldsDesc, StructDesc};
use crate::text::{
    join_lines, make_preview_doc, pad_left, pad_right, preview_doc, push_line, push_padded_left,
    push_padded_right, push_str, spec_truncate_name, truncate_name,
};
use crate::digits::push_char;

verus! {

/// Each field's identifier and type text: all that the preview prints of it.
pub open spec fn field_names(fields: Seq<FieldDesc>) -> Seq<(Seq<char>, Seq<char>)> {
    fields.map_values(|f: FieldDesc| (f.ident@, f.ty_text@))
}

/// `n - 1`, or 0 for 0.
pub open spec fn saturating_pred(n: nat) -> nat {
    if n == 0 {
        0
    } else {
        (n - 1) as nat
    }
}

/// `[a..,b]` with both numbers right-aligned to `w` characters.
pub open spec fn range_text(a: nat, b: nat, w: nat) -> Seq<char> {
    "["@ + pad_left(decimal(a), w) + "..,"@ + pad_left(decimal(b), w) + "]"@
}

/// A field's name cut to 16 characters, followed by its type cut to 12 when
/// that is not empty.
pub open spec fn name_part(names: (Seq<char>, Seq<char>)) -> Seq<char> {
    let name = spec_truncate_name(names.0, 16);
    let ty = spec_truncate_name(names.1, 12);
    if ty.len() == 0 {
        name
    } else {
        name + ": "@ + ty
    }
}

/// The layout-map line of padding from `start`, `len` bytes long.
pub open spec fn padding_row(start: nat, len: nat, w: nat, bw: nat) -> Seq<char> {
    "- "@ + range_text(start, (start + len - 1) as nat, w) + " "@ + pad_right("<padding/free>"@, 20) + " "@
        + pad_left(decimal(len), bw) + " bytes"@
}

/// The bit range of a field at byte `start` that uses `bits` bits, when it
/// uses fewer than its bytes hold.
pub open spec fn bits_suffix(start: nat, bits: Option<usize>, w: nat) -> Seq<char> {
    match bits {
        Some(b) => "  "@ + range_text(start * 8, (start * 8 + b - 1) as nat, w + 2),
        None => Seq::<char>::empty(),
    }
}

/// The layout-map line of a field at `start`, `size` bytes long, using `bits`
/// of them when that is fewer.
pub open spec fn field_row(names: (Seq<char>, Seq<char>), start: nat, size: nat, bits: Option<usize>, w: nat, bw: nat) -> Seq<char> {
    "- "@ + range_text(start, start + saturating_pred(size), w) + " "@ + pad_right(name_part(names), 20) + " "@
        + pad_left(decimal(size), bw) + " bytes"@ + bits_suffix(start, bits, w)
}

/// The layout-map line of a field whose layout is unknown.
pub open spec fn unsupported_row(name: Seq<char>) -> Seq<char> {
    "- "@ + pad_right(spec_truncate_name(name, 16), 16) + " <layout preview unavailable>"@
}

/// The layout-map line of a slot; numbers are right-aligned to `w` (byte
/// positions) and `bw` (byte counts) characters.
pub open spec fn slot_row(s: Slot, names: Seq<(Seq<char>, Seq<char>)>, w: nat, bw: nat) -> Seq<char> {
    match s {
        Slot::Padding { start, len } => padding_row(start as nat, len as nat, w, bw),
        Slot::Field { index, start, size, bits } => field_row(names[index as int], start as nat, size as nat, bits, w, bw),
        Slot::Unsupported { index } => unsupported_row(names[index as int].0),
    }
}

/// The layout-map lines of the slots, each ended by `\n`.
pub open spec fn rows_text(slots: Seq<Slot>, names: Seq<(Seq<char>, Seq<char>)>, w: nat, bw: nat) -> Seq<char>
    decreases slots.len(),
{
    if slots.len() == 0 {
        Seq::empty()
    } else {
        rows_text(slots.drop_last(), names, w, bw) + slot_row(slots.last(), names, w, bw) + seq!['\n']
    }
}

/// What the byte map prints after a byte's index for a byte of slot `s`: the
/// owner, `*` when the field leaves bits free, and the field's type.
pub open spec fn byte_tail(s: Slot, names: Seq<(Seq<char>, Seq<char>)>) -> Seq<char> {
    match s {
        Slot::Field { index, start, size, bits } => {
            let ty = names[index as int].1;
            names[index as int].0 + (if bits is Some { "*"@ } else { Seq::<char>::empty() }) + (if ty.len() == 0 {
                Seq::<char>::empty()
            } else {
                ": "@ + ty
            })
        },
        _ => "<padding>"@,
    }
}

/// The byte-map lines of `count` bytes from byte `base`.
pub open spec fn byte_block(base: nat, count: nat, tail: Seq<char>) -> Seq<char>
    decreases count,
{
    if count == 0 {
        Seq::empty()
    } else {
        byte_block(base, (count - 1) as nat, tail) + decimal((base + count - 1) as nat) + ": "@ + tail + seq!['\n']
    }
}

/// Bytes that a slot covers in the byte map.
pub open spec fn slot_bytes(s: Slot) -> nat {
    match s {
        Slot::Padding { start, len } => len as nat,
        Slot::Field { index, start, size, bits } => size as nat,
        Slot::Unsupported { index } => 0,
    }
}

/// The byte map: one line per byte of the slots, in memory order.
pub open spec fn byte_map_text(slots: Seq<Slot>, names: Seq<(Seq<char>, Seq<char>)>) -> Seq<char>
    decreases slots.len(),
{
    if slots.len() == 0 {
        Seq::empty()
    } else {
        byte_map_text(slots.drop_last(), names) + byte_block(
            slots_total(slots.drop_last()),
            slot_bytes(slots.last()),
            byte_tail(slots.last(), names),
        )
    }
}

/// Characters needed for the largest byte position: the digits of
/// `size - 1`, at least one.
pub open spec fn index_width(size: nat) -> nat {
    let l = decimal(saturating_pred(size)).len();
    if l < 1 {
        1
    } else {
        l
    }
}

/// The full layout text of a struct whose fields all have a known layout.
pub open spec fn layout_text(name: Seq<char>, names: Seq<(Seq<char>, Seq<char>)>, p: PlanView) -> Seq<char> {
    let free: nat = if p.size >= p.used { (p.size - p.used) as nat } else { 0 };
    let w = index_width(p.size);
    let bw = decimal(p.size).len();
    "Layout for "@ + name + " (repr(C))\n"@
        + "size: "@ + decimal(p.size) + " bytes ("@ + decimal(p.size * 8) + " bits), align: "@ + decimal(p.align) + " bytes\n"@
        + "used: "@ + decimal(p.used) + " bytes, padding/free: "@ + decimal(free) + " bytes\n\n"@
        + "Layout map (in memory order):\n"@
        + rows_text(p.slots, names, w, bw)
        + "\nByte map:\n"@
        + byte_map_text(p.slots, names)
        + "* = Free Bits\n"@
}

/// The layout-map lines of the slots whose field has no known layout.
pub open spec fn unsupported_rows(slots: Seq<Slot>, names: Seq<(Seq<char>, Seq<char>)>) -> Seq<Seq<char>>
    decreases slots.len(),
{
    if slots.len() == 0 {
        Seq::empty()
    } else if slots.last() is Unsupported {
        unsupported_rows(slots.drop_last(), names).push(slot_row(slots.last(), names, 0, 0))
    } else {
        unsupported_rows(slots.drop_last(), names)
    }
}

/// The preview lines of a struct with a field of unknown layout.
pub open spec fn fallback_lines(name: Seq<char>, names: Seq<(Seq<char>, Seq<char>)>, p: PlanView) -> Seq<Seq<char>> {
    seq![
        "Layout for "@ + name + " (repr(C))"@,
        "preview: unsupported field type for static visualization"@,
        "hint: add #[bits(N)] on nested/packed fields to provide width"@,
        Seq::<char>::empty(),
        "Layout map:"@,
    ] + unsupported_rows(p.slots, names)
}

/// The preview text of a struct: its layout text split into lines and joined
/// again when every field's layout is known, else the fallback lines.
pub open spec fn preview_text(name: Seq<char>, names: Seq<(Seq<char>, Seq<char>)>, p: PlanView) -> Seq<char> {
    if p.supported {
        rejoin_lines(layout_text(name, names, p))
    } else {
        join_lines(fallback_lines(name, names, p))
    }
}

/// The doc comment that `#[bitflate]` attaches to a struct with these fields.
pub open spec fn bitflate_doc(name: Seq<char>, fields: Seq<FieldDesc>) -> Seq<char> {
    preview_doc("bitflate preview"@, preview_text(name, field_names(fields), spec_plan_layout(fields)))
}

/// Appends `[a..,b]` with both numbers right-aligned to `w` characters.
fn push_range(out: &mut String, a: usize, b: usize, w: usize)
    ensures
        final(out)@ == old(out)@ + range_text(a as nat, b as nat, w as nat),
{
    let ghost start = out@;
    push_str(out, "[");
    let sa = usize_to_string(a);
    push_padded_left(out, sa.as_str(), w);
    push_str(out, "..,");
    let sb = usize_to_string(b);
    push_padded_left(out, sb.as_str(), w);
    push_str(out, "]");
    assert(out@ =~= start + range_text(a as nat, b as nat, w as nat));
}

/// The name part of a field's layout-map line.
fn make_name_part(f: &FieldDesc) -> (res: String)
    ensures
        res@ == name_part((f.ident@, f.ty_text@)),
{
    let mut name = truncate_name(f.ident.as_str(), 16);
    let ty = truncate_name(f.ty_text.as_str(), 12);
    if ty.as_str().unicode_len() == 0 {
        name
    } else {
        push_str(&mut name, ": ");
        push_str(&mut name, ty.as_str());
        name
    }
}

/// Appends the layout-map line of a padding slot.
#[verifier::spinoff_prover]
fn push_padding_row(out: &mut String, start: usize, len: usize, w: usize, bw: usize)
    requires
        len >= 1,
        start + len <= usize::MAX,
    ensures
        final(out)@ == old(out)@ + padding_row(start as nat, len as nat, w as nat, bw as nat),
{
    let ghost start_text = out@;
    push_str(out, "- ");
    push_range(out, start, start + len - 1, w);
    push_str(out, " ");
    push_padded_right(out, "<padding/free>", 20);
    push_str(out, " ");
    let sl = usize_to_string(len);
    push_padded_left(out, sl.as_str(), bw);
    push_str(out, " bytes");
    assert(out@ =~= start_text + padding_row(start as nat, len as nat, w as nat, bw as nat));
}

/// Appends the bit range of a field that uses fewer bits than its bytes hold.
fn push_bits_suffix(out: &mut String, start: usize, bits: Option<usize>, w: usize)
    requires
        start * 8 <= usize::MAX,
        bits matches Some(b) ==> 1 <= start * 8 + b <= usize::MAX,
        w + 2 <= usize::MAX,
    ensures
        final(out)@ == old(out)@ + bits_suffix(start as nat, bits, w as nat),
{
    let ghost start_text = out@;
    match bits {
        Some(b) => {
            let bit_start = start * 8;
            push_str(out, "  ");
            push_range(out, bit_start, bit_start + b - 1, w + 2);
        },
        None => {},
    }
    assert(out@ =~= start_text + bits_suffix(start as nat, bits, w as nat));
}

/// Appends the layout-map line of a field slot.
#[verifier::spinoff_prover]
#[verifier::rlimit(50)]
fn push_field_row(out: &mut String, f: &FieldDesc, start: usize, size: usize, bits: Option<usize>, w: usize, bw: usize)
    requires
        start * 8 <= usize::MAX,
        start + size <= usize::MAX,
        bits matches Some(b) ==> 1 <= start * 8 + b <= usize::MAX,
        w + 2 <= usize::MAX,
    ensures
        final(out)@ == old(out)@ + field_row((f.ident@, f.ty_text@), start as nat, size as nat, bits, w as nat, bw as nat),
{
    let ghost start_text = out@;
    let end = if size == 0 { start } else { start + (size - 1) };
    push_str(out, "- ");
    push_range(out, start, end, w);
    push_str(out, " ");
    let part = make_name_part(f);
    push_padded_right(out, part.as_str(), 20);
    push_str(out, " ");
    let ss = usize_to_string(size);
    push_padded_left(out, ss.as_str(), bw);
    push_str(out, " bytes");
    assert(out@ =~= start_text + "- "@ + range_text(start as nat, (start + saturating_pred(size as nat)) as nat, w as nat)
        + " "@ + pad_right(name_part((f.ident@, f.ty_text@)), 20) + " "@ + pad_left(decimal(size as nat), bw as nat)
        + " bytes"@);
    let ghost mid = out@;
    push_bits_suffix(out, start, bits, w);
    assert(out@ =~= start_text + field_row((f.ident@, f.ty_text@), start as nat, size as nat, bits, w as nat, bw as nat));
}

/// Appends the layout-map line of a field whose layout is unknown.
fn push_unsupported_row(out: &mut String, f: &FieldDesc)
    ensures
        final(out)@ == old(out)@ + unsupported_row(f.ident@),
{
    let ghost start_text = out@;
    push_str(out, "- ");
    let name = truncate_name(f.ident.as_str(), 16);
    push_padded_right(out, name.as_str(), 16);
    push_str(out, " <layout preview unavailable>");
    assert(out@ =~= start_text + unsupported_row(f.ident@));
}

/// Appends the layout-map line of a slot.
fn push_slot_row(out: &mut String, s: &Slot, fields: &Vec<FieldDesc>, w: usize, bw: usize)
    requires
        slot_fits(*s, fields@.len()),
        w + 2 <= usize::MAX,
    ensures
        final(out)@ == old(out)@ + slot_row(*s, field_names(fields@), w as nat, bw as nat),
{
    let ghost names = field_names(fields@);
    match s {
        Slot::Padding { start, len } => {
            push_padding_row(out, *start, *len, w, bw);
        },
        Slot::Field { index, start, size, bits } => {
            let f = &fields[*index];
            assert(names[*index as int] == (f.ident@, f.ty_text@));
            push_field_row(out, f, *start, *size, *bits, w, bw);
        },
        Slot::Unsupported { index } => {
            let f = &fields[*index];
            assert(names[*index as int] == (f.ident@, f.ty_text@));
            push_unsupported_row(out, f);
        },
    }
}

/// What the byte map prints after the index of each byte of a slot.
fn make_byte_tail(s: &Slot, fields: &Vec<FieldDesc>) -> (res: String)
    requires
        slot_fits(*s, fields@.len()),
    ensures
        res@ == byte_tail(*s, field_names(fields@)),
{
    match s {
        Slot::Field { index, start, size, bits } => {
            let f = &fields[*index];
            assert(field_names(fields@)[*index as int] == (f.ident@, f.ty_text@));
            let mut tail = String::from_str(f.ident.as_str());
            if bits.is_some() {
                push_str(&mut tail, "*");
            }
            if f.ty_text.as_str().unicode_len() != 0 {
                push_str(&mut tail, ": ");
                push_str(&mut tail, f.ty_text.as_str());
            }
            proof {
                reveal_strlit("");
                assert(tail@ =~= byte_tail(*s, field_names(fields@)));
            }
            tail
        },
        _ => String::from_str("<padding>"),
    }
}

/// Appends the byte-map lines of `count` bytes from byte `base`.
fn push_byte_block(out: &mut String, base: usize, count: usize, tail: &str)
    requires
        base + count <= usize::MAX,
    ensures
        final(out)@ == old(out)@ + byte_block(base as nat, count as nat, tail@),
{
    let ghost start_text = out@;
    let mut k: usize = 0;
    while k < count
        invariant
            k <= count,
            base + count <= usize::MAX,
            out@ == start_text + byte_block(base as nat, k as nat, tail@),
        decreases count - k,
    {
        push_decimal(out, base + k);
        push_str(out, ": ");
        push_str(out, tail);
        push_char(out, '\n');
        k = k + 1;
        assert(out@ =~= start_text + byte_block(base as nat, k as nat, tail@));
    }
}

/// The full layout text of a struct whose fields all have a known layout.
fn render_layout_text(name: &str, fields: &Vec<FieldDesc>, plan: &LayoutPlan) -> (res: String)
    requires
        plan.supported,
        forall|k: int| 0 <= k < plan.slots@.len() ==> slot_fits(#[trigger] plan.slots@[k], fields@.len()),
        slots_tile(plan.slots@),
        slots_total(plan.slots@) == plan.size,
        plan.size * 8 <= usize::MAX,
    ensures
        res@ == layout_text(name@, field_names(fields@), plan@),
{
    let ghost names = field_names(fields@);
    let size = plan.size;
    let free = if size >= plan.used { size - plan.used } else { 0 };
    let max_index = if size == 0 { 0 } else { size - 1 };
    let mut w = usize_to_string(max_index).as_str().unicode_len();
    if w < 1 {
        w = 1;
    }
    let bw = usize_to_string(size).as_str().unicode_len();
    assert(w == index_width(size as nat));
    proof {
        crate::digits::lemma_decimal_len(max_index as nat);
    }
    let mut out = String::from_str("Layout for ");
    push_str(&mut out, name);
    push_str(&mut out, " (repr(C))\n");
    push_str(&mut out, "size: ");
    push_decimal(&mut out, size);
    push_str(&mut out, " bytes (");
    push_decimal(&mut out, size * 8);
    push_str(&mut out, " bits), align: ");
    push_decimal(&mut out, plan.align);
    push_str(&mut out, " bytes\n");
    push_str(&mut out, "used: ");
    push_decimal(&mut out, plan.used);
    push_str(&mut out, " bytes, padding/free: ");
    push_decimal(&mut out, free);
    push_str(&mut out, " bytes\n\n");
    push_str(&mut out, "Layout map (in memory order):\n");
    let ghost head = out@;
    let slots = &plan.slots;
    let n = slots.len();
    let mut k: usize = 0;
    while k < n
        invariant
            n == slots@.len(),
            k <= n,
            w + 2 <= usize::MAX,
            forall|j: int| 0 <= j < slots@.len() ==> slot_fits(#[trigger] slots@[j], fields@.len()),
            names == field_names(fields@),
            out@ == head + rows_text(slots@.take(k as int), names, w as nat, bw as nat),
        decreases n - k,
    {
        assert(slots@.take(k + 1).drop_last() =~= slots@.take(k as int));
        assert(slots@.take(k + 1).last() == slots@[k as int]);
        let ghost before = out@;
        push_slot_row(&mut out, &slots[k], fields, w, bw);
        push_char(&mut out, '\n');
        assert(out@ =~= head + rows_text(slots@.take(k + 1), names, w as nat, bw as nat));
        k = k + 1;
    }
    assert(slots@.take(n as int) =~= slots@);
    push_str(&mut out, "\nByte map:\n");
    let ghost head2 = out@;
    let mut base: usize = 0;
    let mut k: usize = 0;
    while k < n
        invariant
            n == slots@.len(),
            k <= n,
            forall|j: int| 0 <= j < slots@.len() ==> slot_fits(#[trigger] slots@[j], fields@.len()),
            slots_tile(slots@),
            base == slots_total(slots@.take(k as int)),
            names == field_names(fields@),
            out@ == head2 + byte_map_text(slots@.take(k as int), names),
        decreases n - k,
    {
        let ghost pre = slots@.take(k as int);
        assert(slots@.take(k + 1).drop_last() =~= pre);
        assert(slots@.take(k + 1).last() == slots@[k as int]);
        let s = &slots[k];
        assert(slot_fits(*s, fields@.len()));
        assert(!(*s is Unsupported) && crate::layout::slot_start(*s) == base);
        let count = match s {
            Slot::Padding { start, len } => *len,
            Slot::Field { index, start, size, bits } => *size,
            Slot::Unsupported { index } => 0,
        };
        let tail = make_byte_tail(s, fields);
        push_byte_block(&mut out, base, count, tail.as_str());
        assert(count == slot_bytes(*s));
        assert(out@ =~= head2 + byte_map_text(slots@.take(k + 1), names));
        assert(base + count == slots_total(slots@.take(k + 1)));
        base = base + count;
        k = k + 1;
    }
    assert(slots@.take(n as int) =~= slots@);
    push_str(&mut out, "* = Free Bits\n");
    proof {
        let free_n: nat = if plan@.size >= plan@.used { (plan@.size - plan@.used) as nat } else { 0 };
        assert(free == free_n);
        assert(out@ =~= layout_text(name@, names, plan@));
    }
    out
}

/// The preview lines of a struct with a field of unknown layout, joined.
fn render_fallback(name: &str, fields: &Vec<FieldDesc>, plan: &LayoutPlan) -> (res: String)
    requires
        forall|k: int| 0 <= k < plan.slots@.len() ==> slot_fits(#[trigger] plan.slots@[k], fields@.len()),
    ensures
        res@ == join_lines(fallback_lines(name@, field_names(fields@), plan@)),
{
    let ghost names = field_names(fields@);
    let mut out = String::from_str("Layout for ");
    push_str(&mut out, name);
    push_str(&mut out, " (repr(C))");
    push_line(&mut out, "preview: unsupported field type for static visualization");
    push_line(&mut out, "hint: add #[bits(N)] on nested/packed fields to provide width");
    push_line(&mut out, "");
    push_line(&mut out, "Layout map:");
    let ghost header = seq![
        "Layout for "@ + name@ + " (repr(C))"@,
        "preview: unsupported field type for static visualization"@,
        "hint: add #[bits(N)] on nested/packed fields to provide width"@,
        Seq::<char>::empty(),
        "Layout map:"@,
    ];
    proof {
        reveal_strlit("");
        let h1 = seq![header[0]];
        let h2 = seq![header[0], header[1]];
        let h3 = seq![header[0], header[1], header[2]];
        let h4 = seq![header[0], header[1], header[2], header[3]];
        assert(h2.drop_last() =~= h1);
        assert(h3.drop_last() =~= h2);
        assert(h4.drop_last() =~= h3);
        assert(header.drop_last() =~= h4);
        assert(join_lines(h1) == header[0]);
        assert(join_lines(h2) == header[0] + seq!['\n'] + header[1]);
        assert(join_lines(h3) == join_lines(h2) + seq!['\n'] + header[2]);
        assert(join_lines(h4) == join_lines(h3) + seq!['\n'] + header[3]);
        assert(out@ =~= join_lines(header));
    }
    let ghost head = out@;
    let slots = &plan.slots;
    let n = slots.len();
    let mut k: usize = 0;
    while k < n
        invariant
            n == slots@.len(),
            k <= n,
            forall|j: int| 0 <= j < slots@.len() ==> slot_fits(#[trigger] slots@[j], fields@.len()),
            names == field_names(fields@),
            out@ == head + crate::bits::lines_suffix(unsupported_rows(slots@.take(k as int), names)),
        decreases n - k,
    {
        let ghost pre = slots@.take(k as int);
        let ghost cur = slots@.take(k + 1);
        assert(cur.drop_last() =~= pre);
        assert(cur.last() == slots@[k as int]);
        let s = &slots[k];
        match s {
            Slot::Unsupported { index } => {
                let mut line = String::new();
                push_slot_row(&mut line, s, fields, 0, 0);
                proof {
                    assert(line@ =~= slot_row(*s, names, 0, 0));
                    assert(unsupported_rows(cur, names).drop_last() =~= unsupported_rows(pre, names));
                }
                push_line(&mut out, line.as_str());
            },
            _ => {},
        }
        k = k + 1;
    }
    proof {
        assert(slots@.take(n as int) =~= slots@);
        crate::bits::lemma_join_append(header, unsupported_rows(slots@, names));
    }
    out
}

/// Why `#[bitflate]` refuses an item.
pub enum BitflateError {
    HasArguments,
    MissingReprC,
    NotNamedStruct,
}

impl BitflateError {
    /// The compile error's message.
    pub fn message(&self) -> (s: &'static str)
        ensures
            s@ == (match self {
                BitflateError::HasArguments => "#[bitflate] does not accept arguments"@,
                BitflateError::MissingReprC => "#[bitflate] requires #[repr(C)] on the struct"@,
                BitflateError::NotNamedStruct => "#[bitflate] only supports structs with named fields"@,
            }),
    {
        match self {
            BitflateError::HasArguments => "#[bitflate] does not accept arguments",
            BitflateError::MissingReprC => "#[bitflate] requires #[repr(C)] on the struct",
            BitflateError::NotNamedStruct => "#[bitflate] only supports structs with named fields",
        }
    }
}

/// What a `#[bitflate]` struct is expanded with: the preview doc comment and,
/// per field, the offset that the generated code asserts (`None`: it only
/// names the field).
pub struct BitflateExpansion {
    pub doc: String,
    pub offsets: Vec<Option<usize>>,
}

/// Plans `#[bitflate]` on a struct: it must be `repr(C)` with named fields.
/// The fields are laid out in order under `repr(C)` rules and previewed; each
/// field's `#[bits(..)]` attributes are removed.
pub fn expand_bitflate(item: &mut StructDesc) -> (res: Result<BitflateExpansion, BitflateError>)
    requires
        spec_has_repr_c(old(item).attrs@) ==> (old(item).fields matches FieldsDesc::Named(fs) ==> layout_fits(fs@)),
    ensures
        final(item).ident == old(item).ident,
        final(item).attrs == old(item).attrs,
        !spec_has_repr_c(old(item).attrs@) ==> (res matches Err(BitflateError::MissingReprC) && *final(item) == *old(item)),
        spec_has_repr_c(old(item).attrs@) && !(old(item).fields is Named) ==> (res matches Err(BitflateError::NotNamedStruct)
            && *final(item) == *old(item)),
        spec_has_repr_c(old(item).attrs@) ==> (old(item).fields matches FieldsDesc::Named(old_fs) ==> {
            &&& final(item).fields matches FieldsDesc::Named(fs) && fs@.len() == old_fs@.len()
                && forall|j: int| 0 <= j < old_fs@.len() ==> stripped(fs@[j], #[trigger] old_fs@[j])
            &&& res matches Ok(e) && e.doc@ == bitflate_doc(old(item).ident@, old_fs@)
                && e.offsets@ == spec_plan_layout(old_fs@).offsets
        }),
{
    if !has_repr_c(item.attrs.as_slice()) {
        return Err(BitflateError::MissingReprC);
    }
    let fields = match &mut item.fields {
        FieldsDesc::Named(fs) => fs,
        _ => return Err(BitflateError::NotNamedStruct),
    };
    let ghost old_fs = fields@;
    let nf = fields.len();
    assert(old_fs.len() == nf);
    let plan = plan_layout(fields);
    proof {
        law_layout_is_repr_c(old_fs);
        assert(field_names(fields@) =~= field_names(old_fs));
    }
    let text = if plan.supported {
        let layout = render_layout_text(item.ident.as_str(), fields, &plan);
        rejoin_lines_string(layout.as_str())
    } else {
        render_fallback(item.ident.as_str(), fields, &plan)
    };
    let doc = make_preview_doc("bitflate preview", text.as_str());
    Ok(BitflateExpansion { doc, offsets: plan.offsets })
}

/// `#[bitflate]`: refused with arguments; otherwise as `expand_bitflate`.
pub fn bitflate(args_empty: bool, item: &mut StructDesc) -> (res: Result<BitflateExpansion, BitflateError>)
    requires
        args_empty && spec_has_repr_c(old(item).attrs@) ==> (old(item).fields matches FieldsDesc::Named(fs) ==> layout_fits(fs@)),
    ensures
        !args_empty ==> (res matches Err(BitflateError::HasArguments) && *final(item) == *old(item)),
        final(item).ident == old(item).ident,
        final(item).attrs == old(item).attrs,
        args_empty && !spec_has_repr_c(old(item).attrs@) ==> (res matches Err(BitflateError::MissingReprC) && *final(item) == *old(item)),
        args_empty && spec_has_repr_c(old(item).attrs@) && !(old(item).fields is Named) ==> (res matches Err(BitflateError::NotNamedStruct)
            && *final(item) == *old(item)),
        args_empty && spec_has_repr_c(old(item).attrs@) ==> (old(item).fields matches FieldsDesc::Named(old_fs) ==> {
            &&& final(item).fields matches FieldsDesc::Named(fs) && fs@.len() == old_fs@.len()
                && forall|j: int| 0 <= j < old_fs@.len() ==> stripped(fs@[j], #[trigger] old_fs@[j])
            &&& res matches Ok(e) && e.doc@ == bitflate_doc(old(item).ident@, old_fs@)
                && e.offsets@ == spec_plan_layout(old_fs@).offsets
        }),
{
    if !args_empty {
        return Err(BitflateError::HasArguments);
    }
    expand_bitflate(item)
}

} // verus!
