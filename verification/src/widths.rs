//! Sizes, alignments and bit widths of field types.
use vstd::prelude::*;
use crate::digits::{decimal, parse_usize, spec_parse_usize};
use crate::model::{ExprDesc, Segment, TypeDesc};
use crate::text::str_eq;

verus! {

/// `(size, align)` in bytes of a primitive type named by `id`.
pub open spec fn spec_primitive_layout(id: Seq<char>) -> Option<(usize, usize)> {
    if id == "u8"@ || id == "i8"@ || id == "bool"@ {
        Some((1usize, 1usize))
    } else if id == "u16"@ || id == "i16"@ {
        Some((2usize, 2usize))
    } else if id == "u32"@ || id == "i32"@ || id == "f32"@ || id == "char"@ {
        Some((4usize, 4usize))
    } else if id == "u64"@ || id == "i64"@ || id == "f64"@ {
        Some((8usize, 8usize))
    } else if id == "u128"@ || id == "i128"@ {
        Some((16usize, 16usize))
    } else {
        None
    }
}

/// Width in bits of a primitive type named by `id`.
pub open spec fn spec_primitive_bits(id: Seq<char>) -> Option<usize> {
    if id == "bool"@ {
        Some(1usize)
    } else if id == "u8"@ || id == "i8"@ {
        Some(8usize)
    } else if id == "u16"@ || id == "i16"@ {
        Some(16usize)
    } else if id == "u32"@ || id == "i32"@ || id == "f32"@ || id == "char"@ {
        Some(32usize)
    } else if id == "u64"@ || id == "i64"@ || id == "f64"@ {
        Some(64usize)
    } else if id == "u128"@ || id == "i128"@ {
        Some(128usize)
    } else {
        None
    }
}

/// The width of an arbitrary-width integer name such as `u3` or `i100`: `u` or
/// `i`, then a decimal width from 1 to 128.
pub open spec fn spec_arbitrary_int_bits(id: Seq<char>) -> Option<usize> {
    if id.len() >= 2 && (id[0] == 'u' || id[0] == 'i') {
        match spec_parse_usize(id.drop_first()) {
            Some(b) => if 1 <= b <= 128 { Some(b) } else { None },
            None => None,
        }
    } else {
        None
    }
}

/// Bytes of the smallest of 1, 2, 4, 8 and 16 bytes that holds `bits` bits
/// (16 for anything wider).
pub open spec fn spec_bits_to_bytes(bits: usize) -> usize {
    if bits <= 8 {
        1
    } else if bits <= 16 {
        2
    } else if bits <= 32 {
        4
    } else if bits <= 64 {
        8
    } else {
        16
    }
}

/// `(size, align)` of a type: primitives by their table, arbitrary-width
/// integers by the storage bytes of their width, arrays of such types with a
/// literal length whose total size fits in a `usize`; nothing else.
pub open spec fn spec_layout_of_type(ty: TypeDesc) -> Option<(usize, usize)>
    decreases ty,
{
    match ty {
        TypeDesc::Path { qself, leading_colon, segments } => {
            if qself || segments@.len() == 0 {
                None
            } else {
                let seg = segments@.last();
                if seg.has_args {
                    None
                } else {
                    match spec_primitive_layout(seg.ident@) {
                        Some(l) => Some(l),
                        None => match spec_arbitrary_int_bits(seg.ident@) {
                            Some(b) => Some((spec_bits_to_bytes(b), spec_bits_to_bytes(b))),
                            None => None,
                        },
                    }
                }
            }
        },
        TypeDesc::Array { elem, len } => match spec_layout_of_type(*elem) {
            Some((size, align)) => match len {
                ExprDesc::IntLit(d) => match spec_parse_usize(d@) {
                    Some(n) => if size * n <= usize::MAX {
                        Some(((size * n) as usize, align))
                    } else {
                        None
                    },
                    None => None,
                },
                ExprDesc::Other => None,
            },
            None => None,
        },
        TypeDesc::Other => None,
    }
}

/// Width in bits of a type: primitives by their table, arbitrary-width
/// integers by their width, arrays of such types with a literal length whose
/// total width fits in a `usize`; nothing else.
pub open spec fn spec_bit_width_of_type(ty: TypeDesc) -> Option<usize>
    decreases ty,
{
    match ty {
        TypeDesc::Path { qself, leading_colon, segments } => {
            if qself || segments@.len() == 0 {
                None
            } else {
                let seg = segments@.last();
                if seg.has_args {
                    None
                } else {
                    match spec_primitive_bits(seg.ident@) {
                        Some(b) => Some(b),
                        None => spec_arbitrary_int_bits(seg.ident@),
                    }
                }
            }
        },
        TypeDesc::Array { elem, len } => match spec_bit_width_of_type(*elem) {
            Some(bits) => match len {
                ExprDesc::IntLit(d) => match spec_parse_usize(d@) {
                    Some(n) => if bits * n <= usize::MAX {
                        Some((bits * n) as usize)
                    } else {
                        None
                    },
                    None => None,
                },
                ExprDesc::Other => None,
            },
            None => None,
        },
        TypeDesc::Other => None,
    }
}

/// The value of an expression that is an integer literal fitting in a `usize`.
pub open spec fn spec_expr_usize(expr: ExprDesc) -> Option<usize> {
    match expr {
        ExprDesc::IntLit(d) => spec_parse_usize(d@),
        ExprDesc::Other => None,
    }
}

/// Bytes needed to store `bits` bits, rounded up to 1, 2, 4, 8 or 16.
pub fn bits_to_bytes(bits: usize) -> (bytes: usize)
    ensures
        bytes == spec_bits_to_bytes(bits),
        bits <= 128 ==> bits <= bytes * 8,
        bytes > 1 ==> bits > bytes * 4,
{
    if bits <= 8 {
        1
    } else if bits <= 16 {
        2
    } else if bits <= 32 {
        4
    } else if bits <= 64 {
        8
    } else {
        16
    }
}

/// `(size, align)` of a primitive type named `id`.
pub fn primitive_layout(id: &str) -> (res: Option<(usize, usize)>)
    ensures
        res == spec_primitive_layout(id@),
{
    if str_eq(id, "u8") || str_eq(id, "i8") || str_eq(id, "bool") {
        Some((1, 1))
    } else if str_eq(id, "u16") || str_eq(id, "i16") {
        Some((2, 2))
    } else if str_eq(id, "u32") || str_eq(id, "i32") || str_eq(id, "f32") || str_eq(id, "char") {
        Some((4, 4))
    } else if str_eq(id, "u64") || str_eq(id, "i64") || str_eq(id, "f64") {
        Some((8, 8))
    } else if str_eq(id, "u128") || str_eq(id, "i128") {
        Some((16, 16))
    } else {
        None
    }
}

/// Width in bits of a primitive type named `id`.
pub fn primitive_bits(id: &str) -> (res: Option<usize>)
    ensures
        res == spec_primitive_bits(id@),
{
    if str_eq(id, "bool") {
        Some(1)
    } else if str_eq(id, "u8") || str_eq(id, "i8") {
        Some(8)
    } else if str_eq(id, "u16") || str_eq(id, "i16") {
        Some(16)
    } else if str_eq(id, "u32") || str_eq(id, "i32") || str_eq(id, "f32") || str_eq(id, "char") {
        Some(32)
    } else if str_eq(id, "u64") || str_eq(id, "i64") || str_eq(id, "f64") {
        Some(64)
    } else if str_eq(id, "u128") || str_eq(id, "i128") {
        Some(128)
    } else {
        None
    }
}

/// The width named by an arbitrary-width integer identifier such as `u3`.
pub fn parse_arbitrary_int_bits(ident: &str) -> (res: Option<usize>)
    ensures
        res == spec_arbitrary_int_bits(ident@),
        res matches Some(b) ==> 1 <= b <= 128,
{
    let n = ident.unicode_len();
    if n < 2 {
        return None;
    }
    let sign = ident.get_char(0);
    if sign != 'u' && sign != 'i' {
        return None;
    }
    let digits = ident.substring_char(1, n);
    assert(digits@ =~= ident@.drop_first());
    match parse_usize(digits) {
        Some(bits) => if 1 <= bits && bits <= 128 {
            Some(bits)
        } else {
            None
        },
        None => None,
    }
}

/// The last segment of a path type without qualified self, if it has one.
fn last_plain_segment(qself: bool, segments: &Vec<Segment>) -> (res: Option<&Segment>)
    ensures
        res == (if qself || segments@.len() == 0 { None } else { Some(&segments@.last()) }),
{
    if qself || segments.len() == 0 {
        None
    } else {
        Some(&segments[segments.len() - 1])
    }
}

/// `(size, align)` of a field type, when it can be read off the type alone.
pub fn layout_of_type(ty: &TypeDesc) -> (res: Option<(usize, usize)>)
    ensures
        res == spec_layout_of_type(*ty),
    decreases ty, 0nat,
{
    match ty {
        TypeDesc::Path { qself, leading_colon, segments } => {
            let seg = match last_plain_segment(*qself, segments) {
                Some(seg) => seg,
                None => return None,
            };
            if seg.has_args {
                return None;
            }
            let ident = seg.ident.as_str();
            match primitive_layout(ident) {
                Some(l) => Some(l),
                None => match parse_arbitrary_int_bits(ident) {
                    Some(bits) => {
                        let size = bits_to_bytes(bits);
                        Some((size, size))
                    },
                    None => None,
                },
            }
        },
        TypeDesc::Array { elem, len } => layout_of_array(elem, len),
        TypeDesc::Other => None,
    }
}

/// `(size, align)` of the array type `[elem; len]`.
pub fn layout_of_array(elem: &Box<TypeDesc>, len: &ExprDesc) -> (res: Option<(usize, usize)>)
    ensures
        res == spec_layout_of_type(TypeDesc::Array { elem: *elem, len: *len }),
    decreases **elem, 1nat,
{
    let (elem_size, elem_align) = match layout_of_type(&**elem) {
        Some(l) => l,
        None => return None,
    };
    let digits = match len {
        ExprDesc::IntLit(d) => d,
        ExprDesc::Other => return None,
    };
    let n = match parse_lit_usize(digits.as_str()) {
        Ok(n) => n,
        Err(_) => return None,
    };
    match elem_size.checked_mul(n) {
        Some(size) => Some((size, elem_align)),
        None => None,
    }
}

/// The error of an integer literal that is not a `usize`.
pub struct InvalidUsizeLiteral;

impl InvalidUsizeLiteral {
    /// The message that the error carries.
    pub fn message(&self) -> (s: &'static str)
        ensures
            s@ == "invalid usize literal"@,
    {
        "invalid usize literal"
    }
}

/// The value of an integer literal given by its base-10 digits.
pub fn parse_lit_usize(digits: &str) -> (res: Result<usize, InvalidUsizeLiteral>)
    ensures
        res matches Ok(n) ==> spec_parse_usize(digits@) == Some(n),
        res is Err <==> spec_parse_usize(digits@) is None,
{
    match parse_usize(digits) {
        Some(n) => Ok(n),
        None => Err(InvalidUsizeLiteral),
    }
}

/// The value of an expression that is an integer literal fitting in a `usize`.
pub fn parse_expr_usize(expr: &ExprDesc) -> (res: Option<usize>)
    ensures
        res == spec_expr_usize(*expr),
{
    match expr {
        ExprDesc::IntLit(d) => parse_usize(d.as_str()),
        ExprDesc::Other => None,
    }
}

/// Width in bits of a field type, when it can be read off the type alone.
pub fn bit_width_of_type(ty: &TypeDesc) -> (res: Option<usize>)
    ensures
        res == spec_bit_width_of_type(*ty),
    decreases ty,
{
    match ty {
        TypeDesc::Path { qself, leading_colon, segments } => {
            let seg = match last_plain_segment(*qself, segments) {
                Some(seg) => seg,
                None => return None,
            };
            if seg.has_args {
                return None;
            }
            let ident = seg.ident.as_str();
            match primitive_bits(ident) {
                Some(b) => Some(b),
                None => parse_arbitrary_int_bits(ident),
            }
        },
        TypeDesc::Array { elem, len } => {
            let elem_bits = match bit_width_of_type(&**elem) {
                Some(b) => b,
                None => return None,
            };
            let digits = match len {
                ExprDesc::IntLit(d) => d,
                ExprDesc::Other => return None,
            };
            let n = match parse_usize(digits.as_str()) {
                Some(n) => n,
                None => return None,
            };
            elem_bits.checked_mul(n)
        },
        TypeDesc::Other => None,
    }
}

/// Law: an arbitrary-width integer name made of `u` or `i` and the decimal
/// text of a width from 1 to 128 names that width.
pub proof fn law_arbitrary_int_name_roundtrip(sign: char, bits: usize)
    requires
        sign == 'u' || sign == 'i',
        1 <= bits <= 128,
    ensures
        spec_arbitrary_int_bits(seq![sign] + decimal(bits as nat)) == Some(bits),
{
    crate::digits::law_parse_decimal_roundtrip(bits);
    crate::digits::lemma_decimal_len(bits as nat);
    let id = seq![sign] + decimal(bits as nat);
    assert(id.drop_first() =~= decimal(bits as nat));
    assert(id[0] == sign);
}

/// The characters of the primitive type names.
proof fn lemma_primitive_names()
    ensures
        "bool"@ == seq!['b', 'o', 'o', 'l'],
        "char"@ == seq!['c', 'h', 'a', 'r'],
        "u8"@ == seq!['u', '8'],
        "i8"@ == seq!['i', '8'],
        "u16"@ == seq!['u', '1', '6'],
        "i16"@ == seq!['i', '1', '6'],
        "u32"@ == seq!['u', '3', '2'],
        "i32"@ == seq!['i', '3', '2'],
        "f32"@ == seq!['f', '3', '2'],
        "u64"@ == seq!['u', '6', '4'],
        "i64"@ == seq!['i', '6', '4'],
        "f64"@ == seq!['f', '6', '4'],
        "u128"@ == seq!['u', '1', '2', '8'],
        "i128"@ == seq!['i', '1', '2', '8'],
{
    reveal_strlit("bool");
    reveal_strlit("char");
    reveal_strlit("u8");
    reveal_strlit("i8");
    reveal_strlit("u16");
    reveal_strlit("i16");
    reveal_strlit("u32");
    reveal_strlit("i32");
    reveal_strlit("f32");
    reveal_strlit("u64");
    reveal_strlit("i64");
    reveal_strlit("f64");
    reveal_strlit("u128");
    reveal_strlit("i128");
    assert("bool"@ =~= seq!['b', 'o', 'o', 'l']);
    assert("char"@ =~= seq!['c', 'h', 'a', 'r']);
    assert("u8"@ =~= seq!['u', '8']);
    assert("i8"@ =~= seq!['i', '8']);
    assert("u16"@ =~= seq!['u', '1', '6']);
    assert("i16"@ =~= seq!['i', '1', '6']);
    assert("u32"@ =~= seq!['u', '3', '2']);
    assert("i32"@ =~= seq!['i', '3', '2']);
    assert("f32"@ =~= seq!['f', '3', '2']);
    assert("u64"@ =~= seq!['u', '6', '4']);
    assert("i64"@ =~= seq!['i', '6', '4']);
    assert("f64"@ =~= seq!['f', '6', '4']);
    assert("u128"@ =~= seq!['u', '1', '2', '8']);
    assert("i128"@ =~= seq!['i', '1', '2', '8']);
}

/// The decimal texts of the primitive integer widths.
proof fn lemma_width_digits()
    ensures
        decimal(8) == seq!['8'],
        decimal(16) == seq!['1', '6'],
        decimal(32) == seq!['3', '2'],
        decimal(64) == seq!['6', '4'],
        decimal(128) == seq!['1', '2', '8'],
{
    assert(decimal(1) == seq!['1']);
    assert(decimal(3) == seq!['3']);
    assert(decimal(6) == seq!['6']);
    assert(decimal(8) == seq!['8']);
    assert(decimal(12) =~= seq!['1', '2']);
    assert(decimal(16) =~= seq!['1', '6']);
    assert(decimal(32) =~= seq!['3', '2']);
    assert(decimal(64) =~= seq!['6', '4']);
    assert(decimal(128) =~= seq!['1', '2', '8']);
}

/// Law: a primitive type other than `bool` uses every bit of its bytes and is
/// aligned to its size: its bit width is 8 times its byte size, and the types
/// that have a width are exactly those that have a layout.
pub proof fn law_primitive_bits_fill_bytes(id: Seq<char>)
    ensures
        spec_primitive_layout(id) is Some <==> spec_primitive_bits(id) is Some,
        spec_primitive_layout(id) is Some && id != "bool"@ ==> {
            let (s, a) = spec_primitive_layout(id)->0;
            &&& spec_primitive_bits(id) == Some((s * 8) as usize)
            &&& a == s
        },
{
    lemma_primitive_names();
}

/// Law: a primitive integer named `u<N>` or `i<N>` has the width `N` that
/// its name spells, the width that reading the name as an arbitrary-width
/// integer gives; its size and alignment are the storage bytes of that width.
pub proof fn law_primitive_int_widths_match_names(id: Seq<char>)
    ensures
        spec_primitive_bits(id) is Some && spec_arbitrary_int_bits(id) is Some ==> {
            &&& spec_primitive_bits(id) == spec_arbitrary_int_bits(id)
            &&& spec_primitive_layout(id) == Some((
                spec_bits_to_bytes(spec_arbitrary_int_bits(id)->0),
                spec_bits_to_bytes(spec_arbitrary_int_bits(id)->0),
            ))
        },
{
    lemma_primitive_names();
    lemma_width_digits();
    if spec_primitive_bits(id) is Some && spec_arbitrary_int_bits(id) is Some {
        let sign = id[0];
        if id == "u8"@ || id == "i8"@ {
            law_arbitrary_int_name_roundtrip(sign, 8);
            assert(id =~= seq![sign] + decimal(8));
        } else if id == "u16"@ || id == "i16"@ {
            law_arbitrary_int_name_roundtrip(sign, 16);
            assert(id =~= seq![sign] + decimal(16));
        } else if id == "u32"@ || id == "i32"@ {
            law_arbitrary_int_name_roundtrip(sign, 32);
            assert(id =~= seq![sign] + decimal(32));
        } else if id == "u64"@ || id == "i64"@ {
            law_arbitrary_int_name_roundtrip(sign, 64);
            assert(id =~= seq![sign] + decimal(64));
        } else if id == "u128"@ || id == "i128"@ {
            law_arbitrary_int_name_roundtrip(sign, 128);
            assert(id =~= seq![sign] + decimal(128));
        }
    }
}

/// Law: a floating-point type `f<N>` has the same size, alignment and width
/// as the integers `u<N>` and `i<N>`.
pub proof fn law_float_matches_int(digits: Seq<char>)
    ensures
        spec_primitive_layout(seq!['f'] + digits) is Some ==> {
            &&& spec_primitive_layout(seq!['f'] + digits) == spec_primitive_layout(seq!['u'] + digits)
            &&& spec_primitive_layout(seq!['f'] + digits) == spec_primitive_layout(seq!['i'] + digits)
            &&& spec_primitive_bits(seq!['f'] + digits) == spec_primitive_bits(seq!['u'] + digits)
            &&& spec_primitive_bits(seq!['f'] + digits) == spec_primitive_bits(seq!['i'] + digits)
        },
{
    lemma_primitive_names();
    let f = seq!['f'] + digits;
    if f == "f32"@ {
        assert(digits =~= f.drop_first());
        assert(seq!['u'] + digits =~= "u32"@);
        assert(seq!['i'] + digits =~= "i32"@);
    } else if f == "f64"@ {
        assert(digits =~= f.drop_first());
        assert(seq!['u'] + digits =~= "u64"@);
        assert(seq!['i'] + digits =~= "i64"@);
    } else if spec_primitive_layout(f) is Some {
        assert(f[0] == 'f');
    }
}

} // verus!
