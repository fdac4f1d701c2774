use bitflate_rs::bits::{bitflate_bits, bitflate_enum, BitsError};
use bitflate_rs::model::{
    AttrDesc, EnumDesc, ExprDesc, FieldDesc, FieldsDesc, MetaDesc, Segment, StructDesc, TypeDesc,
    VariantDesc,
};
use bitflate_rs::pod::{add_missing_derives, bitflate_crate_path, podflate, FoundCrate, PodflateError};

fn field(name: &str, ty: &str) -> FieldDesc {
    FieldDesc {
        ident: name.to_string(),
        ty: TypeDesc::Path {
            qself: false,
            leading_colon: false,
            segments: vec![Segment { ident: ty.to_string(), has_args: false }],
        },
        ty_text: ty.to_string(),
        attrs: vec![],
    }
}

fn bits_attr(n: &str) -> AttrDesc {
    AttrDesc { ident: Some("bits".to_string()), derive_paths: None, metas: None, int_arg: Some(n.to_string()) }
}

fn plain_attr(name: &str) -> AttrDesc {
    AttrDesc { ident: Some(name.to_string()), derive_paths: None, metas: None, int_arg: None }
}

fn derive_attr(names: &[&str]) -> AttrDesc {
    AttrDesc {
        ident: Some("derive".to_string()),
        derive_paths: Some(names.iter().map(|s| Some(s.to_string())).collect()),
        metas: Some(names.iter().map(|s| MetaDesc::Path(Some(s.to_string()))).collect()),
        int_arg: None,
    }
}

fn packed(name: &str, fields: Vec<FieldDesc>) -> StructDesc {
    StructDesc { ident: name.to_string(), attrs: vec![derive_attr(&["FromBits"])], fields: FieldsDesc::Named(fields) }
}

fn doc(title: &str, lines: &[String]) -> String {
    format!("{}\n\n```text\n{}\n```", title, lines.join("\n"))
}

#[test]
fn packed_preview_of_small_bits() {
    let mut item = packed("SmallBits", vec![field("lo", "u3"), field("hi", "u5")]);
    let e = bitflate_bits("8", &mut item).ok().unwrap();
    assert_eq!(e.total_bits, 8);
    let lines = vec![
        "Bit layout for SmallBits (packed)".to_string(),
        "declared bits: 8".to_string(),
        String::new(),
        "Fields:".to_string(),
        "- [0..,2] lo: u3 3 bits".to_string(),
        "- [3..,7] hi: u5 5 bits".to_string(),
    ];
    assert_eq!(e.doc, doc("bitflate bits preview", &lines));
}

#[test]
fn bitflate_bits_supports_nested_and_arbitrary_widths() {
    let mut payload = field("payload", "SmallBits");
    payload.attrs.push(bits_attr("8"));
    let mut item = packed("NestedBits", vec![field("kind", "u4"), payload, field("flags", "u4")]);
    let e = bitflate_bits("16", &mut item).ok().unwrap();
    assert!(e.doc.contains("- [0..,3] kind: u4 4 bits\n"));
    assert!(e.doc.contains("- [4..,11] payload: SmallBits 8 bits\n"));
    assert!(e.doc.contains("- [12..,15] flags: u4 4 bits\n"));
    match &item.fields {
        FieldsDesc::Named(fs) => assert!(fs[1].attrs.is_empty()),
        _ => panic!("fields stay named"),
    }
}

#[test]
fn packed_refusals() {
    let mut item = packed("S", vec![field("a", "u3")]);
    let err = bitflate_bits("abc", &mut item).err().unwrap();
    assert!(matches!(err, BitsError::InvalidWidth));
    assert_eq!(err.message(), "expected usize bit width");
    let mut tuple = StructDesc { ident: "T".to_string(), attrs: vec![], fields: FieldsDesc::Unnamed };
    let err = bitflate_bits("8", &mut tuple).err().unwrap();
    assert!(matches!(err, BitsError::NotNamedStruct));
    assert_eq!(err.message(), "#[bitflate_bits] only supports named structs");
    let mut unknown = packed("U", vec![field("a", "u3"), field("mode", "InputMode"), field("b", "u2")]);
    let err = bitflate_bits("8", &mut unknown).err().unwrap();
    assert!(matches!(err, BitsError::UnknownFieldWidth(1)));
    assert_eq!(err.message(), "unknown bit width for this field type; add #[bits(N)] on the field");
}

fn variant(name: &str, disc: Option<ExprDesc>) -> VariantDesc {
    VariantDesc { ident: name.to_string(), discriminant: disc }
}

fn lit(d: &str) -> Option<ExprDesc> {
    Some(ExprDesc::IntLit(d.to_string()))
}

#[test]
fn enum_preview_counts_discriminants() {
    let item = EnumDesc {
        ident: "ActionKind".to_string(),
        attrs: vec![],
        variants: vec![
            variant("None", lit("0")),
            variant("Tap", None),
            variant("Hold", lit("5")),
            variant("Combo", None),
            variant("Weird", Some(ExprDesc::Other)),
            variant("After", None),
        ],
    };
    let e = bitflate_enum("3", &item).ok().unwrap();
    assert_eq!(e.total_bits, 3);
    assert!(e.add_from_bits);
    let lines = vec![
        "Enum layout for ActionKind (3 bits)".to_string(),
        String::new(),
        "Variants:".to_string(),
        "- None = 0".to_string(),
        "- Tap = 1".to_string(),
        "- Hold = 5".to_string(),
        "- Combo = 6".to_string(),
        "- Weird = ?".to_string(),
        "- After = 7".to_string(),
    ];
    assert_eq!(e.doc, doc("bitflate enum preview", &lines));
}

#[test]
fn enum_keeps_existing_from_bits() {
    let item = EnumDesc {
        ident: "K".to_string(),
        attrs: vec![derive_attr(&["TryFromBits", "Debug"])],
        variants: vec![],
    };
    let e = bitflate_enum("2", &item).ok().unwrap();
    assert!(!e.add_from_bits);
    let bad = bitflate_enum("-2", &item).err().unwrap();
    assert!(matches!(bad, BitsError::InvalidWidth));
}

#[test]
fn enum_discriminant_saturates() {
    let max = usize::MAX.to_string();
    let item = EnumDesc {
        ident: "M".to_string(),
        attrs: vec![],
        variants: vec![variant("A", lit(&max)), variant("B", None), variant("C", None)],
    };
    let e = bitflate_enum("64", &item).ok().unwrap();
    assert!(e.doc.contains(&format!("- B = {}\n- C = {}", max, max)));
}

#[test]
fn podflate_plans_missing_pieces() {
    let item = StructDesc {
        ident: "PodHeader".to_string(),
        attrs: vec![],
        fields: FieldsDesc::Named(vec![field("magic", "u32"), field("count", "u16"), field("flags", "u16")]),
    };
    let plan = podflate(true, &item, ":: bitflate_rs").ok().unwrap();
    assert!(plan.add_repr_c);
    assert!(plan.add_bitflate);
    assert_eq!(
        plan.derives,
        vec![
            "Copy".to_string(),
            "Clone".to_string(),
            ":: bitflate_rs::bytemuck::Zeroable".to_string(),
            ":: bitflate_rs::bytemuck::Pod".to_string(),
        ]
    );
}

#[test]
fn podflate_keeps_what_is_there() {
    let item = StructDesc {
        ident: "P".to_string(),
        attrs: vec![plain_attr("repr"), derive_attr(&["Clone", "Pod"]), plain_attr("bitflate")],
        fields: FieldsDesc::Named(vec![]),
    };
    let plan = podflate(true, &item, "::x").ok().unwrap();
    assert!(!plan.add_repr_c);
    assert!(!plan.add_bitflate);
    assert_eq!(plan.derives, vec!["Copy".to_string(), "::x::bytemuck::Zeroable".to_string()]);
    let none = add_missing_derives(&[derive_attr(&["Copy", "Clone", "Zeroable", "Pod"])], &["Copy", "Pod"], "::x");
    assert!(none.is_empty());
}

#[test]
fn podflate_refusals() {
    let item = StructDesc { ident: "P".to_string(), attrs: vec![], fields: FieldsDesc::Named(vec![]) };
    let err = podflate(false, &item, "::x").err().unwrap();
    assert!(matches!(err, PodflateError::HasArguments));
    assert_eq!(err.message(), "#[podflate] does not accept arguments");
    let unit = StructDesc { ident: "U".to_string(), attrs: vec![], fields: FieldsDesc::Unit };
    let err = podflate(true, &unit, "::x").err().unwrap();
    assert!(matches!(err, PodflateError::NotNamedStruct));
    assert_eq!(err.message(), "#[podflate] only supports named structs");
}

#[test]
fn crate_path_names() {
    assert_eq!(bitflate_crate_path(&FoundCrate::Name("bf".to_string())), "bf");
    assert_eq!(bitflate_crate_path(&FoundCrate::Itself), "bitflate_rs");
    assert_eq!(bitflate_crate_path(&FoundCrate::NotFound), "bitflate_rs");
}

#[test]
fn nested_enum_bitfield_layout_and_size_are_checked() {
    let names = ["None", "Tap", "Hold", "Combo", "Dash", "Glide", "Counter", "Burst"];
    let action_kind = EnumDesc {
        ident: "ActionKind".to_string(),
        attrs: vec![],
        variants: names.iter().enumerate().map(|(i, n)| variant(n, lit(&i.to_string()))).collect(),
    };
    let e = bitflate_enum("3", &action_kind).ok().unwrap();
    assert_eq!(e.total_bits, 3);
    assert!(e.doc.contains("- Burst = 7\n```"));

    let mut kind = field("kind", "ActionKind");
    kind.attrs.push(bits_attr("3"));
    let mut nested = field("nested", "NestedBits");
    nested.attrs.push(bits_attr("16"));
    let mut packet = packed("ComplexPacket", vec![kind, field("level", "u5"), nested]);
    let e = bitflate_bits("24", &mut packet).ok().unwrap();
    assert_eq!(e.total_bits, 24);
    assert!(e.doc.contains("- [0..,2] kind: ActionKind 3 bits\n"));
    assert!(e.doc.contains("- [3..,7] level: u5 5 bits\n"));
    assert!(e.doc.contains("- [8..,23] nested: NestedBits 16 bits\n```"));
}

#[test]
fn podflate_generates_pod_and_layout() {
    let item = StructDesc {
        ident: "PodHeader".to_string(),
        attrs: vec![],
        fields: FieldsDesc::Named(vec![field("magic", "u32"), field("count", "u16"), field("flags", "u16")]),
    };
    let plan = podflate(true, &item, ":: bitflate_rs").ok().unwrap();
    assert!(plan.add_repr_c && plan.add_bitflate);
    let mut with_repr = StructDesc {
        ident: item.ident.clone(),
        attrs: vec![AttrDesc {
            ident: Some("repr".to_string()),
            derive_paths: Some(vec![Some("C".to_string())]),
            metas: Some(vec![MetaDesc::Path(Some("C".to_string()))]),
            int_arg: None,
        }],
        fields: item.fields,
    };
    let e = bitflate_rs::bitflate::bitflate(true, &mut with_repr).ok().unwrap();
    assert_eq!(e.offsets, vec![Some(0), Some(4), Some(6)]);
    assert!(e.doc.contains("size: 8 bytes (64 bits), align: 4 bytes"));
}
