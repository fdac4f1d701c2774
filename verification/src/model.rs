//! The parts of a Rust item that the layout logic reads, as plain values.
//!
//! A macro front end fills these from the parsed syntax tree; the library
//! never sees tokens.
use vstd::prelude::*;

verus! {

/// One segment of a path: its identifier and whether it carries generic or
/// parenthesized arguments.
pub struct Segment {
    pub ident: String,
    pub has_args: bool,
}

/// An expression, as far as the logic looks into it: an integer literal (by its
/// base-10 digits, suffix and underscores removed) or anything else.
pub enum ExprDesc {
    IntLit(String),
    Other,
}

/// A field type, as far as the logic looks into it.
pub enum TypeDesc {
    /// `path`, `::path` or `<Q as T>::path`.
    Path { qself: bool, leading_colon: bool, segments: Vec<Segment> },
    /// `[elem; len]`.
    Array { elem: Box<TypeDesc>, len: ExprDesc },
    /// Any other type (references, tuples, slices, ...).
    Other,
}

/// One item of a `#[name(...)]`-style meta list such as the body of `repr(...)`.
pub enum MetaDesc {
    /// A bare path; `Some(ident)` when the path is a single plain identifier.
    Path(Option<String>),
    /// `name(...)` or `name = value`.
    Other,
}

/// An attribute on an item or a field.
pub struct AttrDesc {
    /// The attribute's path, when it is a single plain identifier.
    pub ident: Option<String>,
    /// Its arguments read as a comma-separated list of paths, each by the
    /// identifier of its last segment (`None` for a path without segments);
    /// `None` when the arguments are not such a list.
    pub derive_paths: Option<Vec<Option<String>>>,
    /// Its arguments read as a comma-separated list of metas; `None` when they
    /// are not such a list.
    pub metas: Option<Vec<MetaDesc>>,
    /// The base-10 digits of its arguments read as one integer literal; `None`
    /// when they are not one.
    pub int_arg: Option<String>,
}

/// A named field: identifier, type, the type's token text and attributes.
pub struct FieldDesc {
    pub ident: String,
    pub ty: TypeDesc,
    pub ty_text: String,
    pub attrs: Vec<AttrDesc>,
}

/// The shape of a struct's fields.
pub enum FieldsDesc {
    Named(Vec<FieldDesc>),
    Unnamed,
    Unit,
}

/// A struct item.
pub struct StructDesc {
    pub ident: String,
    pub attrs: Vec<AttrDesc>,
    pub fields: FieldsDesc,
}

/// An enum variant with its explicit discriminant, if any.
pub struct VariantDesc {
    pub ident: String,
    pub discriminant: Option<ExprDesc>,
}

/// An enum item.
pub struct EnumDesc {
    pub ident: String,
    pub attrs: Vec<AttrDesc>,
    pub variants: Vec<VariantDesc>,
}

/// Whether a path given by its leading colon and segments is the single plain
/// identifier `name`.
pub open spec fn spec_path_is_ident(leading_colon: bool, segments: Seq<Segment>, name: Seq<char>) -> bool {
    &&& !leading_colon
    &&& segments.len() == 1
    &&& !segments[0].has_args
    &&& segments[0].ident@ == name
}

} // verus!
