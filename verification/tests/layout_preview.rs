use bitflate_rs::attrs::{
    collect_derive_idents, has_attr, has_derive, has_repr_c, parse_bits_override,
};
use bitflate_rs::bitflate::{bitflate, expand_bitflate, BitflateError};
use bitflate_rs::layout::{plan_layout, Slot};
use bitflate_rs::model::{
    AttrDesc, ExprDesc, FieldDesc, FieldsDesc, MetaDesc, Segment, StructDesc, TypeDesc,
};
use bitflate_rs::widths::{bit_width_of_type, layout_of_type, parse_expr_usize};

fn path_ty(name: &str) -> TypeDesc {
    TypeDesc::Path {
        qself: false,
        leading_colon: false,
        segments: vec![Segment { ident: name.to_string(), has_args: false }],
    }
}

fn array_ty(elem: TypeDesc, len: &str) -> TypeDesc {
    TypeDesc::Array { elem: Box::new(elem), len: ExprDesc::IntLit(len.to_string()) }
}

fn field(name: &str, ty: &str) -> FieldDesc {
    FieldDesc { ident: name.to_string(), ty: path_ty(ty), ty_text: ty.to_string(), attrs: vec![] }
}

fn plain_attr(name: &str) -> AttrDesc {
    AttrDesc { ident: Some(name.to_string()), derive_paths: None, metas: None, int_arg: None }
}

fn repr_attr(items: &[&str]) -> AttrDesc {
    AttrDesc {
        ident: Some("repr".to_string()),
        derive_paths: Some(items.iter().map(|s| Some(s.to_string())).collect()),
        metas: Some(items.iter().map(|s| MetaDesc::Path(Some(s.to_string()))).collect()),
        int_arg: None,
    }
}

fn bits_attr(n: &str) -> AttrDesc {
    AttrDesc { ident: Some("bits".to_string()), derive_paths: None, metas: None, int_arg: Some(n.to_string()) }
}

fn derive_attr(names: &[&str]) -> AttrDesc {
    AttrDesc {
        ident: Some("derive".to_string()),
        derive_paths: Some(names.iter().map(|s| Some(s.to_string())).collect()),
        metas: Some(names.iter().map(|s| MetaDesc::Path(Some(s.to_string()))).collect()),
        int_arg: None,
    }
}

fn demo() -> StructDesc {
    StructDesc {
        ident: "Demo".to_string(),
        attrs: vec![repr_attr(&["C"])],
        fields: FieldsDesc::Named(vec![field("a", "u8"), field("b", "u32"), field("c", "u8")]),
    }
}

fn row(start: usize, end: usize, name: &str, bytes: usize, w: usize, bw: usize) -> String {
    format!("- [{:>w$}..,{:>w$}] {:<20} {:>bw$} bytes", start, end, name, bytes, w = w, bw = bw)
}

#[test]
fn type_layouts_and_widths() {
    assert_eq!(layout_of_type(&path_ty("u8")), Some((1, 1)));
    assert_eq!(layout_of_type(&path_ty("bool")), Some((1, 1)));
    assert_eq!(layout_of_type(&path_ty("char")), Some((4, 4)));
    assert_eq!(layout_of_type(&path_ty("f64")), Some((8, 8)));
    assert_eq!(layout_of_type(&path_ty("i128")), Some((16, 16)));
    assert_eq!(layout_of_type(&path_ty("u3")), Some((1, 1)));
    assert_eq!(layout_of_type(&path_ty("u17")), Some((4, 4)));
    assert_eq!(layout_of_type(&path_ty("usize")), None);
    assert_eq!(layout_of_type(&array_ty(path_ty("u16"), "3")), Some((6, 2)));
    assert_eq!(layout_of_type(&array_ty(array_ty(path_ty("u32"), "2"), "4")), Some((32, 4)));
    assert_eq!(layout_of_type(&array_ty(path_ty("u8"), "x")), None);
    assert_eq!(
        layout_of_type(&TypeDesc::Array { elem: Box::new(path_ty("u8")), len: ExprDesc::Other }),
        None
    );
    let generic = TypeDesc::Path {
        qself: false,
        leading_colon: false,
        segments: vec![Segment { ident: "Vec".to_string(), has_args: true }],
    };
    assert_eq!(layout_of_type(&generic), None);
    let qualified = TypeDesc::Path {
        qself: true,
        leading_colon: false,
        segments: vec![Segment { ident: "u8".to_string(), has_args: false }],
    };
    assert_eq!(layout_of_type(&qualified), None);
    assert_eq!(layout_of_type(&TypeDesc::Other), None);

    assert_eq!(bit_width_of_type(&path_ty("bool")), Some(1));
    assert_eq!(bit_width_of_type(&path_ty("i16")), Some(16));
    assert_eq!(bit_width_of_type(&path_ty("u5")), Some(5));
    assert_eq!(bit_width_of_type(&array_ty(path_ty("u4"), "3")), Some(12));
    assert_eq!(bit_width_of_type(&path_ty("SmallBits")), None);
    let huge = array_ty(path_ty("u128"), &usize::MAX.to_string());
    assert_eq!(bit_width_of_type(&huge), None);
    assert_eq!(layout_of_type(&huge), None);

    assert_eq!(parse_expr_usize(&ExprDesc::IntLit("5".to_string())), Some(5));
    assert_eq!(parse_expr_usize(&ExprDesc::Other), None);
}

#[test]
fn attribute_queries() {
    let attrs = vec![plain_attr("doc"), repr_attr(&["C", "packed"]), derive_attr(&["Clone", "Copy"])];
    assert!(has_repr_c(&attrs));
    assert!(!has_repr_c(&[repr_attr(&["u8"])]));
    assert!(!has_repr_c(&[derive_attr(&["C"])]));
    assert!(has_derive(&attrs, "Copy"));
    assert!(!has_derive(&attrs, "Debug"));
    assert!(has_attr(&attrs, "doc"));
    assert!(!has_attr(&attrs, "bitflate"));
    let mut ids = collect_derive_idents(&attrs);
    ids.sort();
    assert_eq!(ids, vec!["Clone".to_string(), "Copy".to_string()]);
}

#[test]
fn bits_override_takes_last_and_is_consumed() {
    let mut attrs = vec![bits_attr("3"), plain_attr("doc"), bits_attr("x"), bits_attr("7"), bits_attr("y")];
    assert_eq!(parse_bits_override(&mut attrs), Some(7));
    assert_eq!(attrs.len(), 1);
    assert_eq!(attrs[0].ident.as_deref(), Some("doc"));
    assert_eq!(parse_bits_override(&mut attrs), None);
    assert_eq!(attrs.len(), 1);
}

#[test]
fn demo_layout_has_padding_and_size_12() {
    let mut fields = vec![field("a", "u8"), field("b", "u32"), field("c", "u8")];
    let plan = plan_layout(&mut fields);
    assert!(plan.supported);
    assert_eq!(plan.size, 12);
    assert_eq!(plan.align, 4);
    assert_eq!(plan.used, 6);
    assert_eq!(plan.cursor, 9);
    assert_eq!(plan.offsets, vec![Some(0), Some(4), Some(8)]);
    let mut next = 0;
    for slot in &plan.slots {
        let (start, len) = match slot {
            Slot::Padding { start, len } => (*start, *len),
            Slot::Field { start, size, .. } => (*start, *size),
            Slot::Unsupported { .. } => panic!("no unsupported field"),
        };
        assert_eq!(start, next);
        next = start + len;
    }
    assert_eq!(next, plan.size);
}

#[test]
fn demo_preview_doc() {
    let mut item = demo();
    let e = expand_bitflate(&mut item).ok().unwrap();
    assert_eq!(e.offsets, vec![Some(0), Some(4), Some(8)]);
    let mut lines = vec![
        "Layout for Demo (repr(C))".to_string(),
        "size: 12 bytes (96 bits), align: 4 bytes".to_string(),
        "used: 6 bytes, padding/free: 6 bytes".to_string(),
        String::new(),
        "Layout map (in memory order):".to_string(),
        row(0, 0, "a: u8", 1, 2, 2),
        row(1, 3, "<padding/free>", 3, 2, 2),
        row(4, 7, "b: u32", 4, 2, 2),
        row(8, 8, "c: u8", 1, 2, 2),
        row(9, 11, "<padding/free>", 3, 2, 2),
        String::new(),
        "Byte map:".to_string(),
        "0: a: u8".to_string(),
    ];
    for i in 1..4 {
        lines.push(format!("{}: <padding>", i));
    }
    for i in 4..8 {
        lines.push(format!("{}: b: u32", i));
    }
    lines.push("8: c: u8".to_string());
    for i in 9..12 {
        lines.push(format!("{}: <padding>", i));
    }
    lines.push("* = Free Bits".to_string());
    let expected = format!("bitflate preview\n\n```text\n{}\n```", lines.join("\n"));
    assert_eq!(e.doc, expected);
}

#[test]
fn bits_hint_marks_free_bits() {
    let mut nibble = field("nibble", "u8");
    nibble.attrs.push(bits_attr("4"));
    let mut item = StructDesc {
        ident: "P".to_string(),
        attrs: vec![repr_attr(&["C"])],
        fields: FieldsDesc::Named(vec![field("a", "u16"), nibble, field("flag", "bool")]),
    };
    let e = expand_bitflate(&mut item).ok().unwrap();
    assert_eq!(e.offsets, vec![Some(0), Some(2), Some(3)]);
    match &item.fields {
        FieldsDesc::Named(fs) => assert!(fs[1].attrs.is_empty()),
        _ => panic!("fields stay named"),
    }
    let nibble_row = format!("{}  [{:>3}..,{:>3}]", row(2, 2, "nibble: u8", 1, 1, 1), 16, 19);
    let flag_row = format!("{}  [{:>3}..,{:>3}]", row(3, 3, "flag: bool", 1, 1, 1), 24, 24);
    assert!(e.doc.contains(&nibble_row));
    assert!(e.doc.contains(&flag_row));
    assert!(e.doc.contains("\n2: nibble*: u8\n"));
    assert!(e.doc.contains("\n3: flag*: bool\n"));
    assert!(e.doc.contains("size: 4 bytes (32 bits), align: 2 bytes"));
}

#[test]
fn bits_hint_gives_layout_to_unknown_type() {
    let mut packed = field("packed", "InputProfile");
    packed.attrs.push(bits_attr("32"));
    let mut item = StructDesc {
        ident: "ProfileBlob".to_string(),
        attrs: vec![repr_attr(&["C"])],
        fields: FieldsDesc::Named(vec![field("magic", "u16"), field("version", "u8"), packed, field("checksum", "u16")]),
    };
    let e = expand_bitflate(&mut item).ok().unwrap();
    assert_eq!(e.offsets, vec![Some(0), Some(2), Some(4), Some(8)]);
    assert!(e.doc.contains("size: 12 bytes (96 bits), align: 4 bytes"));
    assert!(e.doc.contains(&row(4, 7, "packed: InputProfile", 4, 2, 2)));
}

#[test]
fn unknown_field_layout_falls_back() {
    let mut item = StructDesc {
        ident: "Odd".to_string(),
        attrs: vec![repr_attr(&["C"])],
        fields: FieldsDesc::Named(vec![
            field("a", "u8"),
            FieldDesc { ident: "r".to_string(), ty: TypeDesc::Other, ty_text: "& u8".to_string(), attrs: vec![] },
            field("b", "u32"),
        ]),
    };
    let e = expand_bitflate(&mut item).ok().unwrap();
    assert_eq!(e.offsets, vec![Some(0), None, None]);
    let lines = [
        "Layout for Odd (repr(C))".to_string(),
        "preview: unsupported field type for static visualization".to_string(),
        "hint: add #[bits(N)] on nested/packed fields to provide width".to_string(),
        String::new(),
        "Layout map:".to_string(),
        format!("- {:<16} <layout preview unavailable>", "r"),
    ];
    let expected = format!("bitflate preview\n\n```text\n{}\n```", lines.join("\n"));
    assert_eq!(e.doc, expected);
}

#[test]
fn bitflate_refusals() {
    let mut item = demo();
    assert!(matches!(bitflate(false, &mut item), Err(BitflateError::HasArguments)));
    assert_eq!(BitflateError::HasArguments.message(), "#[bitflate] does not accept arguments");
    let mut no_repr = StructDesc { ident: "S".to_string(), attrs: vec![], fields: FieldsDesc::Named(vec![]) };
    let err = bitflate(true, &mut no_repr).err().unwrap();
    assert!(matches!(err, BitflateError::MissingReprC));
    assert_eq!(err.message(), "#[bitflate] requires #[repr(C)] on the struct");
    let mut tuple = StructDesc { ident: "T".to_string(), attrs: vec![repr_attr(&["C"])], fields: FieldsDesc::Unnamed };
    let err = bitflate(true, &mut tuple).err().unwrap();
    assert!(matches!(err, BitflateError::NotNamedStruct));
    assert_eq!(err.message(), "#[bitflate] only supports structs with named fields");
}

#[test]
fn empty_struct_layout() {
    let mut item = StructDesc { ident: "E".to_string(), attrs: vec![repr_attr(&["C"])], fields: FieldsDesc::Named(vec![]) };
    let e = bitflate(true, &mut item).ok().unwrap();
    let lines = [
        "Layout for E (repr(C))",
        "size: 0 bytes (0 bits), align: 1 bytes",
        "used: 0 bytes, padding/free: 0 bytes",
        "",
        "Layout map (in memory order):",
        "",
        "Byte map:",
        "* = Free Bits",
    ];
    let expected = format!("bitflate preview\n\n```text\n{}\n```", lines.join("\n"));
    assert_eq!(e.doc, expected);
}

#[test]
fn overflow_checks_before_planning() {
    let fields = vec![field("a", "u8"), field("b", "u32")];
    assert!(bitflate_rs::layout::check_layout_fits(&fields));
    let huge = FieldDesc {
        ident: "big".to_string(),
        ty: array_ty(path_ty("u8"), &(usize::MAX / 4).to_string()),
        ty_text: "[u8; N]".to_string(),
        attrs: vec![],
    };
    assert!(!bitflate_rs::layout::check_layout_fits(&vec![huge]));
    let mut zero_bits = field("z", "u8");
    zero_bits.attrs.push(bits_attr("0"));
    assert!(!bitflate_rs::layout::check_layout_fits(&vec![zero_bits]));
    let mut later_zero = field("z", "u8");
    later_zero.attrs.push(bits_attr("0"));
    assert!(bitflate_rs::layout::check_layout_fits(&vec![field("a", "u8"), later_zero]));

    assert!(bitflate_rs::bits::check_packed_fits(&vec![field("a", "u3"), field("b", "u5")]));
    let mut first_zero = field("a", "u3");
    first_zero.attrs.push(bits_attr("0"));
    assert!(!bitflate_rs::bits::check_packed_fits(&vec![first_zero]));
    assert!(bitflate_rs::bits::check_packed_fits(&vec![field("m", "Mode"), field("x", "u3")]));
}

#[test]
fn layout_mentions_padding() {
    let mut item = demo();
    let e = expand_bitflate(&mut item).ok().unwrap();
    assert!(e.doc.contains("<padding/free>"));
    assert!(e.doc.contains("padding/free: 6 bytes"));
}
