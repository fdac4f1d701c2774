//! `#[bitflate_bits(N)]` and `#[bitflate_enum(N)]`: the bit-range preview of a
//! packed struct and the discriminant preview of a packed enum.
use vstd::prelude::*;
use crate::attrs::{has_derive, parse_bits_override, spec_bits_override, spec_has_derive, stripped};
use crate::digits::{decimal, parse_usize, push_decimal, spec_parse_usize};
use crate::model::{EnumDesc, FieldDesc, FieldsDesc, StructDesc, VariantDesc};
use crate::text::{
    join_lines, make_preview_doc, preview_doc, push_line, push_str, spec_truncate_name,
    truncate_name,
};
use crate::widths::{bit_width_of_type, parse_expr_usize, spec_bit_width_of_type, spec_expr_usize};

verus! {

/// The width of a packed field: its `#[bits(N)]`, else the width of its type.
pub open spec fn field_bits(f: FieldDesc) -> Option<usize> {
    match spec_bits_override(f.attrs@) {
        Some(b) => Some(b),
        None => spec_bit_width_of_type(f.ty),
    }
}

/// The index of the first field whose width is unknown.
pub open spec fn first_unknown_width(fields: Seq<FieldDesc>) -> Option<int>
    decreases fields.len(),
{
    if fields.len() == 0 {
        None
    } else {
        match first_unknown_width(fields.drop_last()) {
            Some(k) => Some(k),
            None => if field_bits(fields.last()) is None {
                Some(fields.len() - 1)
            } else {
                None
            },
        }
    }
}

/// The bit at which the field after `fields` starts: the sum of their widths.
pub open spec fn packed_cursor(fields: Seq<FieldDesc>) -> nat
    decreases fields.len(),
{
    if fields.len() == 0 {
        0
    } else {
        packed_cursor(fields.drop_last()) + match field_bits(fields.last()) {
            Some(b) => b as nat,
            None => 0,
        }
    }
}

/// The packed preview's arithmetic stays within `usize`, up to the first field
/// of unknown width: each field ends at a bit `start + bits - 1` that is at
/// least 0 and at most `usize::MAX - 1`.
pub open spec fn packed_fits(fields: Seq<FieldDesc>) -> bool
    decreases fields.len(),
{
    if fields.len() == 0 {
        true
    } else {
        &&& packed_fits(fields.drop_last())
        &&& (first_unknown_width(fields.drop_last()) is None && field_bits(fields.last()) is Some)
            ==> 1 <= packed_cursor(fields.drop_last()) + field_bits(fields.last())->0 <= usize::MAX
    }
}

/// The preview line of a packed field: bit range, name (cut to 16), type (cut
/// to 12) and width.
pub open spec fn packed_row(f: FieldDesc, start: nat, bits: nat) -> Seq<char> {
    "- ["@ + decimal(start) + "..,"@ + decimal((start + bits - 1) as nat) + "] "@
        + spec_truncate_name(f.ident@, 16) + ": "@ + spec_truncate_name(f.ty_text@, 12) + " "@
        + decimal(bits) + " bits"@
}

/// The preview lines of the packed fields, in order.
pub open spec fn packed_rows(fields: Seq<FieldDesc>) -> Seq<Seq<char>>
    decreases fields.len(),
{
    if fields.len() == 0 {
        Seq::empty()
    } else {
        packed_rows(fields.drop_last()).push(
            packed_row(fields.last(), packed_cursor(fields.drop_last()), field_bits(fields.last())->0 as nat),
        )
    }
}

/// The lines of a packed struct's preview.
pub open spec fn packed_preview_lines(name: Seq<char>, total_bits: nat, fields: Seq<FieldDesc>) -> Seq<Seq<char>> {
    seq![
        "Bit layout for "@ + name + " (packed)"@,
        "declared bits: "@ + decimal(total_bits),
        Seq::<char>::empty(),
        "Fields:"@,
    ] + packed_rows(fields)
}

/// The doc comment that `#[bitflate_bits]` attaches to a packed struct.
pub open spec fn packed_preview_doc(name: Seq<char>, total_bits: nat, fields: Seq<FieldDesc>) -> Seq<char> {
    preview_doc("bitflate bits preview"@, join_lines(packed_preview_lines(name, total_bits, fields)))
}

/// Why `#[bitflate_bits]` or `#[bitflate_enum]` refuses an item.
pub enum BitsError {
    /// The declared width is not a `usize`.
    InvalidWidth,
    /// The struct does not have named fields.
    NotNamedStruct,
    /// The field at this index has no `#[bits(N)]` and a type of unknown width.
    UnknownFieldWidth(usize),
}

impl BitsError {
    /// The compile error's message.
    pub fn message(&self) -> (s: &'static str)
        ensures
            s@ == (match self {
                BitsError::InvalidWidth => "expected usize bit width"@,
                BitsError::NotNamedStruct => "#[bitflate_bits] only supports named structs"@,
                BitsError::UnknownFieldWidth(_) => "unknown bit width for this field type; add #[bits(N)] on the field"@,
            }),
    {
        match self {
            BitsError::InvalidWidth => "expected usize bit width",
            BitsError::NotNamedStruct => "#[bitflate_bits] only supports named structs",
            BitsError::UnknownFieldWidth(_) => "unknown bit width for this field type; add #[bits(N)] on the field",
        }
    }
}

/// What a packed struct or enum is expanded with: the preview doc comment and
/// the declared width that the generated code checks.
pub struct BitsExpansion {
    pub doc: String,
    pub total_bits: usize,
}

/// Plans `#[bitflate_bits(N)]` on a struct: `total_digits` are the base-10
/// digits of `N`. Each field is read at the width of its `#[bits(N)]`, else of
/// its type, and laid out from bit 0 in order; the preview lists each field's
/// bit range. Every field's `#[bits(..)]` attributes are removed, up to the
/// first field of unknown width.
pub fn bitflate_bits(total_digits: &str, item: &mut StructDesc) -> (res: Result<BitsExpansion, BitsError>)
    requires
        spec_parse_usize(total_digits@) is Some ==> (old(item).fields matches FieldsDesc::Named(fs) ==> packed_fits(fs@)),
    ensures
        final(item).ident == old(item).ident,
        final(item).attrs == old(item).attrs,
        spec_parse_usize(total_digits@) is None ==> (res matches Err(BitsError::InvalidWidth) && *final(item) == *old(item)),
        spec_parse_usize(total_digits@) is Some && !(old(item).fields is Named) ==> (res matches Err(BitsError::NotNamedStruct)
            && *final(item) == *old(item)),
        spec_parse_usize(total_digits@) is Some ==> (old(item).fields matches FieldsDesc::Named(old_fs) ==> {
            &&& final(item).fields matches FieldsDesc::Named(fs) && fs@.len() == old_fs@.len()
            &&& first_unknown_width(old_fs@) matches Some(k) ==> {
                &&& res matches Err(BitsError::UnknownFieldWidth(kk)) && kk == k
                &&& forall|j: int| 0 <= j < old_fs@.len() ==> if j <= k {
                    stripped(final(item).fields->Named_0@[j], #[trigger] old_fs@[j])
                } else {
                    final(item).fields->Named_0@[j] == old_fs@[j]
                }
            }
            &&& first_unknown_width(old_fs@) is None ==> {
                &&& res matches Ok(e) && e.total_bits == spec_parse_usize(total_digits@)->0
                    && e.doc@ == packed_preview_doc(old(item).ident@, e.total_bits as nat, old_fs@)
                &&& forall|j: int| 0 <= j < old_fs@.len()
                    ==> stripped(final(item).fields->Named_0@[j], #[trigger] old_fs@[j])
            }
        }),
{
    let total_bits = match parse_usize(total_digits) {
        Some(v) => v,
        None => return Err(BitsError::InvalidWidth),
    };
    let ghost old_item = *item;
    let mut text = String::from_str("Bit layout for ");
    push_str(&mut text, item.ident.as_str());
    push_str(&mut text, " (packed)");
    push_line(&mut text, "declared bits: ");
    push_decimal(&mut text, total_bits);
    push_line(&mut text, "");
    push_line(&mut text, "Fields:");
    let ghost header = seq![
        "Bit layout for "@ + item.ident@ + " (packed)"@,
        "declared bits: "@ + decimal(total_bits as nat),
        Seq::<char>::empty(),
        "Fields:"@,
    ];
    proof {
        reveal_strlit("");
        let h1 = seq![header[0]];
        let h2 = seq![header[0], header[1]];
        let h3 = seq![header[0], header[1], header[2]];
        assert(h2.drop_last() =~= h1);
        assert(h3.drop_last() =~= h2);
        assert(header.drop_last() =~= h3);
        assert(join_lines(h1) == header[0]);
        assert(join_lines(h2) == header[0] + seq!['\n'] + header[1]);
        assert(join_lines(h3) == join_lines(h2) + seq!['\n'] + header[2]);
        assert(text@ =~= join_lines(header));
    }
    let fields = match &mut item.fields {
        FieldsDesc::Named(fs) => fs,
        _ => return Err(BitsError::NotNamedStruct),
    };
    let ghost old_fs = *fields;
    let ghost before = text@;
    match push_packed_rows(&mut text, fields) {
        Ok(()) => {
            proof {
                lemma_join_append(header, packed_rows(old_fs@));
            }
            let doc = make_preview_doc("bitflate bits preview", text.as_str());
            Ok(BitsExpansion { doc, total_bits })
        },
        Err(k) => Err(BitsError::UnknownFieldWidth(k)),
    }
}

/// Each line preceded by `\n`, concatenated: what appending lines to a
/// joined text adds.
pub open spec fn lines_suffix(lines: Seq<Seq<char>>) -> Seq<char>
    decreases lines.len(),
{
    if lines.len() == 0 {
        Seq::empty()
    } else {
        lines_suffix(lines.drop_last()) + seq!['\n'] + lines.last()
    }
}

/// Joining a nonempty head with more lines appends each of them after a `\n`.
pub proof fn lemma_join_append(head: Seq<Seq<char>>, more: Seq<Seq<char>>)
    requires
        head.len() >= 1,
    ensures
        join_lines(head + more) == join_lines(head) + lines_suffix(more),
    decreases more.len(),
{
    if more.len() == 0 {
        assert(head + more =~= head);
        assert(join_lines(head) + lines_suffix(more) =~= join_lines(head));
    } else {
        lemma_join_append(head, more.drop_last());
        assert((head + more).drop_last() =~= head + more.drop_last());
        assert((head + more).last() == more.last());
        assert(join_lines(head + more) =~= join_lines(head) + lines_suffix(more));
    }
}

/// Appends the preview line of each packed field and strips its `#[bits(..)]`
/// attributes; stops at the first field of unknown width and returns its index.
#[verifier::loop_isolation(false)]
fn push_packed_rows(text: &mut String, fields: &mut Vec<FieldDesc>) -> (res: Result<(), usize>)
    requires
        packed_fits(old(fields)@),
    ensures
        final(fields)@.len() == old(fields)@.len(),
        first_unknown_width(old(fields)@) matches Some(k) ==> {
            &&& res matches Err(kk) && kk == k
            &&& forall|j: int| 0 <= j < old(fields)@.len() ==> if j <= k {
                stripped(final(fields)@[j], #[trigger] old(fields)@[j])
            } else {
                final(fields)@[j] == old(fields)@[j]
            }
        },
        first_unknown_width(old(fields)@) is None ==> {
            &&& res is Ok
            &&& final(text)@ == old(text)@ + lines_suffix(packed_rows(old(fields)@))
            &&& forall|j: int| 0 <= j < old(fields)@.len() ==> stripped(final(fields)@[j], #[trigger] old(fields)@[j])
        },
{
    let ghost old_fs = *fields;
    let ghost start_text = text@;
    let n = fields.len();
    let mut cursor: usize = 0;
    let mut i: usize = 0;
    while i < n
        invariant
            n == old_fs@.len(),
            fields@.len() == n,
            i <= n,
            packed_fits(old_fs@),
            first_unknown_width(old_fs@.take(i as int)) is None,
            cursor == packed_cursor(old_fs@.take(i as int)),
            text@ == start_text + lines_suffix(packed_rows(old_fs@.take(i as int))),
            forall|j: int| 0 <= j < i ==> stripped(#[trigger] fields@[j], old_fs@[j]),
            forall|j: int| i <= j < n ==> #[trigger] fields@[j] == old_fs@[j],
        decreases n - i,
    {
        let ghost pre = old_fs@.take(i as int);
        let ghost cur = old_fs@.take(i + 1);
        assert(cur.drop_last() =~= pre);
        assert(cur.last() == old_fs@[i as int]);
        let bits_override = parse_bits_override(&mut fields[i].attrs);
        assert(fields@.len() == n);
        assert(stripped(fields@[i as int], old_fs@[i as int]));
        assert(forall|j: int| i < j < n ==> #[trigger] fields@[j] == old_fs@[j]);
        let f = &fields[i];
        let bits = match bits_override {
            Some(b) => Some(b),
            None => bit_width_of_type(&f.ty),
        };
        let bits = match bits {
            Some(v) => v,
            None => {
                proof {
                    assert(first_unknown_width(cur) == Some(i as int));
                    lemma_first_unknown_extends(old_fs@, i + 1);
                }
                return Err(i);
            },
        };
        proof {
            assert(field_bits(old_fs@[i as int]) == Some(bits));
            assert(first_unknown_width(cur) is None);
            lemma_packed_fits_prefix(old_fs@, i + 1);
        }
        let start = cursor;
        let end = cursor + bits - 1;
        let name_str = truncate_name(f.ident.as_str(), 16);
        let ty_str = truncate_name(f.ty_text.as_str(), 12);
        let mut line = String::from_str("- [");
        push_decimal(&mut line, start);
        push_str(&mut line, "..,");
        push_decimal(&mut line, end);
        push_str(&mut line, "] ");
        push_str(&mut line, name_str.as_str());
        push_str(&mut line, ": ");
        push_str(&mut line, ty_str.as_str());
        push_str(&mut line, " ");
        push_decimal(&mut line, bits);
        push_str(&mut line, " bits");
        proof {
            assert(line@ =~= packed_row(old_fs@[i as int], start as nat, bits as nat));
        }
        push_line(text, line.as_str());
        proof {
            assert(packed_rows(cur) == packed_rows(pre).push(line@));
            assert(packed_rows(cur).drop_last() =~= packed_rows(pre));
            assert(lines_suffix(packed_rows(cur)) =~= lines_suffix(packed_rows(pre)) + seq!['\n'] + line@);
        }
        cursor = cursor + bits;
        i = i + 1;
    }
    proof {
        assert(old_fs@.take(n as int) =~= old_fs@);
    }
    Ok(())
}

proof fn lemma_packed_fits_prefix(fields: Seq<FieldDesc>, i: int)
    requires
        0 <= i <= fields.len(),
        packed_fits(fields),
    ensures
        packed_fits(fields.take(i)),
    decreases fields.len() - i,
{
    if i == fields.len() {
        assert(fields.take(i) =~= fields);
    } else {
        lemma_packed_fits_prefix(fields, i + 1);
        assert(fields.take(i + 1).drop_last() =~= fields.take(i));
    }
}

proof fn lemma_first_unknown_extends(fields: Seq<FieldDesc>, i: int)
    requires
        0 <= i <= fields.len(),
        first_unknown_width(fields.take(i)) is Some,
    ensures
        first_unknown_width(fields) == first_unknown_width(fields.take(i)),
    decreases fields.len() - i,
{
    if i == fields.len() {
        assert(fields.take(i) =~= fields);
    } else {
        assert(fields.take(i + 1).drop_last() =~= fields.take(i));
        lemma_first_unknown_extends(fields, i + 1);
    }
}

/// `n + 1`, or `n` at `usize::MAX`.
pub open spec fn saturating_succ(n: usize) -> usize {
    if n == usize::MAX {
        n
    } else {
        (n + 1) as usize
    }
}

/// The discriminant that the variant after `variants` gets implicitly: one
/// past the last literal or implicit discriminant, saturating at `usize::MAX`;
/// a discriminant that is not a `usize` literal does not change it.
pub open spec fn next_discriminant(variants: Seq<VariantDesc>) -> usize
    decreases variants.len(),
{
    if variants.len() == 0 {
        0
    } else {
        let next = next_discriminant(variants.drop_last());
        match variants.last().discriminant {
            Some(e) => match spec_expr_usize(e) {
                Some(v) => saturating_succ(v),
                None => next,
            },
            None => saturating_succ(next),
        }
    }
}

/// How the preview shows a variant's discriminant, given the next implicit one.
pub open spec fn discriminant_text(v: VariantDesc, next: usize) -> Seq<char> {
    match v.discriminant {
        Some(e) => match spec_expr_usize(e) {
            Some(x) => decimal(x as nat),
            None => "?"@,
        },
        None => decimal(next as nat),
    }
}

/// The preview lines of the variants, in order.
pub open spec fn variant_rows(variants: Seq<VariantDesc>) -> Seq<Seq<char>>
    decreases variants.len(),
{
    if variants.len() == 0 {
        Seq::empty()
    } else {
        variant_rows(variants.drop_last()).push(
            "- "@ + variants.last().ident@ + " = "@ + discriminant_text(
                variants.last(),
                next_discriminant(variants.drop_last()),
            ),
        )
    }
}

/// The lines of a packed enum's preview.
pub open spec fn enum_preview_lines(name: Seq<char>, total_bits: nat, variants: Seq<VariantDesc>) -> Seq<Seq<char>> {
    seq!["Enum layout for "@ + name + " ("@ + decimal(total_bits) + " bits)"@, Seq::<char>::empty(), "Variants:"@]
        + variant_rows(variants)
}

/// The doc comment that `#[bitflate_enum]` attaches to a packed enum.
pub open spec fn enum_preview_doc(name: Seq<char>, total_bits: nat, variants: Seq<VariantDesc>) -> Seq<char> {
    preview_doc("bitflate enum preview"@, join_lines(enum_preview_lines(name, total_bits, variants)))
}

/// What a packed enum is expanded with: the preview, the declared width, and
/// whether `FromBits` must be derived because neither `FromBits` nor
/// `TryFromBits` is.
pub struct EnumExpansion {
    pub doc: String,
    pub total_bits: usize,
    pub add_from_bits: bool,
}

/// Plans `#[bitflate_enum(N)]` on an enum: `total_digits` are the base-10
/// digits of `N`. The preview lists each variant with its discriminant,
/// counting implicit ones up from the previous literal one.
pub fn bitflate_enum(total_digits: &str, item: &EnumDesc) -> (res: Result<EnumExpansion, BitsError>)
    ensures
        spec_parse_usize(total_digits@) is None ==> res matches Err(BitsError::InvalidWidth),
        spec_parse_usize(total_digits@) matches Some(total) ==> (res matches Ok(e) && {
            &&& e.total_bits == total
            &&& e.add_from_bits == !(spec_has_derive(item.attrs@, "FromBits"@) || spec_has_derive(item.attrs@, "TryFromBits"@))
            &&& e.doc@ == enum_preview_doc(item.ident@, total as nat, item.variants@)
        }),
{
    let total_bits = match parse_usize(total_digits) {
        Some(v) => v,
        None => return Err(BitsError::InvalidWidth),
    };
    let has_from_bits = has_derive(item.attrs.as_slice(), "FromBits") || has_derive(item.attrs.as_slice(), "TryFromBits");
    let mut text = String::from_str("Enum layout for ");
    push_str(&mut text, item.ident.as_str());
    push_str(&mut text, " (");
    push_decimal(&mut text, total_bits);
    push_str(&mut text, " bits)");
    push_line(&mut text, "");
    push_line(&mut text, "Variants:");
    let ghost header = seq!["Enum layout for "@ + item.ident@ + " ("@ + decimal(total_bits as nat) + " bits)"@, Seq::<char>::empty(), "Variants:"@];
    proof {
        reveal_strlit("");
        let h1 = seq![header[0]];
        let h2 = seq![header[0], header[1]];
        assert(h2.drop_last() =~= h1);
        assert(header.drop_last() =~= h2);
        assert(join_lines(h1) == header[0]);
        assert(join_lines(h2) == header[0] + seq!['\n'] + header[1]);
        assert(text@ =~= join_lines(header));
    }
    let ghost start_text = text@;
    let variants = &item.variants;
    let n = variants.len();
    let mut next: usize = 0;
    let mut i: usize = 0;
    while i < n
        invariant
            n == variants@.len(),
            i <= n,
            next == next_discriminant(variants@.take(i as int)),
            text@ == start_text + lines_suffix(variant_rows(variants@.take(i as int))),
        decreases n - i,
    {
        let ghost pre = variants@.take(i as int);
        let ghost cur = variants@.take(i + 1);
        assert(cur.drop_last() =~= pre);
        assert(cur.last() == variants@[i as int]);
        let v = &variants[i];
        let mut line = String::from_str("- ");
        push_str(&mut line, v.ident.as_str());
        push_str(&mut line, " = ");
        match &v.discriminant {
            Some(expr) => match parse_expr_usize(expr) {
                Some(x) => {
                    next = if x == usize::MAX { x } else { x + 1 };
                    push_decimal(&mut line, x);
                },
                None => {
                    push_str(&mut line, "?");
                },
            },
            None => {
                let current = next;
                next = if next == usize::MAX { next } else { next + 1 };
                push_decimal(&mut line, current);
            },
        }
        proof {
            assert(line@ =~= variant_rows(cur).last());
            assert(variant_rows(cur).drop_last() =~= variant_rows(pre));
        }
        push_line(&mut text, line.as_str());
        i = i + 1;
    }
    proof {
        assert(variants@.take(n as int) =~= variants@);
        lemma_join_append(header, variant_rows(variants@));
    }
    let doc = make_preview_doc("bitflate enum preview", text.as_str());
    Ok(EnumExpansion { doc, total_bits, add_from_bits: !has_from_bits })
}

proof fn lemma_packed_fits_contra(fields: Seq<FieldDesc>, i: int)
    requires
        0 <= i <= fields.len(),
        !packed_fits(fields.take(i)),
    ensures
        !packed_fits(fields),
{
    if packed_fits(fields) {
        lemma_packed_fits_prefix(fields, i);
    }
}

/// Whether the packed preview's bit positions stay within `usize`, so that
/// `bitflate_bits` may be called on these fields.
pub fn check_packed_fits(fields: &Vec<FieldDesc>) -> (ok: bool)
    ensures
        ok == packed_fits(fields@),
{
    let n = fields.len();
    let mut cursor: usize = 0;
    let mut i: usize = 0;
    assert(fields@.take(0) =~= Seq::<FieldDesc>::empty());
    while i < n
        invariant
            n == fields@.len(),
            i <= n,
            packed_fits(fields@.take(i as int)),
            first_unknown_width(fields@.take(i as int)) is None,
            cursor == packed_cursor(fields@.take(i as int)),
        decreases n - i,
    {
        let ghost pre = fields@.take(i as int);
        let ghost cur = fields@.take(i + 1);
        assert(cur.drop_last() =~= pre);
        assert(cur.last() == fields@[i as int]);
        let f = &fields[i];
        let bits = match crate::attrs::bits_override(f.attrs.as_slice()) {
            Some(b) => Some(b),
            None => bit_width_of_type(&f.ty),
        };
        match bits {
            Some(b) => {
                if b > usize::MAX - cursor || cursor + b < 1 {
                    proof { lemma_packed_fits_contra(fields@, i + 1); }
                    return false;
                }
                cursor = cursor + b;
            },
            None => {
                proof {
                    assert(first_unknown_width(cur) is Some);
                    lemma_packed_fits_tail(fields@, i + 1);
                }
                return true;
            },
        }
        i = i + 1;
    }
    assert(fields@.take(n as int) =~= fields@);
    true
}

/// Past the first field of unknown width, the packed preview checks nothing.
proof fn lemma_packed_fits_tail(fields: Seq<FieldDesc>, i: int)
    requires
        0 <= i <= fields.len(),
        packed_fits(fields.take(i)),
        first_unknown_width(fields.take(i)) is Some,
    ensures
        packed_fits(fields),
    decreases fields.len() - i,
{
    if i == fields.len() {
        assert(fields.take(i) =~= fields);
    } else {
        assert(fields.take(i + 1).drop_last() =~= fields.take(i));
        lemma_packed_fits_tail(fields, i + 1);
    }
}

/// Law: variants without explicit discriminants are numbered from 0 in
/// order: the k-th is shown with discriminant k, and the next implicit one is
/// the number of variants.
pub proof fn law_implicit_discriminants_count_from_zero(variants: Seq<VariantDesc>)
    requires
        variants.len() <= usize::MAX,
        forall|i: int| 0 <= i < variants.len() ==> (#[trigger] variants[i]).discriminant is None,
    ensures
        next_discriminant(variants) == variants.len(),
        variant_rows(variants).len() == variants.len(),
        forall|k: int| 0 <= k < variants.len() ==> #[trigger] variant_rows(variants)[k]
            == "- "@ + variants[k].ident@ + " = "@ + decimal(k as nat),
    decreases variants.len(),
{
    if variants.len() > 0 {
        let pre = variants.drop_last();
        assert forall|i: int| 0 <= i < pre.len() implies (#[trigger] pre[i]).discriminant is None by {
            assert(pre[i] == variants[i]);
        }
        law_implicit_discriminants_count_from_zero(pre);
        assert(variants.last() == variants[variants.len() - 1]);
        assert forall|k: int| 0 <= k < variants.len() implies #[trigger] variant_rows(variants)[k]
            == "- "@ + variants[k].ident@ + " = "@ + decimal(k as nat) by {
            if k < pre.len() {
                assert(variant_rows(variants)[k] == variant_rows(pre)[k]);
                assert(pre[k] == variants[k]);
            }
        }
    }
}

} // verus!
