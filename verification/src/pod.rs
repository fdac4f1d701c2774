//! `#[podflate]`: what to add to a struct so that it is a `repr(C)`,
//! `bytemuck::Pod` + `Zeroable` struct previewed by `#[bitflate]`.
use vstd::prelude::*;
use crate::attrs::{collect_derive_idents, has_attr, spec_has_attr, spec_has_derive};
use crate::model::{FieldsDesc, StructDesc};
use crate::text::{push_str, str_eq};

verus! {

/// How the `bitflate-rs` crate is known to the crate that uses the macro.
pub enum FoundCrate {
    /// Under this name (a dependency, possibly renamed).
    Name(String),
    /// It is the crate being compiled.
    Itself,
    /// It could not be looked up.
    NotFound,
}

/// The identifier under which generated code names the `bitflate-rs` crate.
pub open spec fn spec_crate_ident(found: FoundCrate) -> Seq<char> {
    match found {
        FoundCrate::Name(name) => name@,
        _ => "bitflate_rs"@,
    }
}

/// The identifier of the `bitflate-rs` crate for paths in generated code:
/// the dependency's name when it is one, else `bitflate_rs`.
pub fn bitflate_crate_path(found: &FoundCrate) -> (res: String)
    ensures
        res@ == spec_crate_ident(*found),
{
    match found {
        FoundCrate::Name(name) => String::from_str(name.as_str()),
        _ => String::from_str("bitflate_rs"),
    }
}

/// The text of the derive path for `name`: the `bytemuck` traits are named
/// through the crate path, the std ones bare.
pub open spec fn derive_text(name: Seq<char>, crate_path: Seq<char>) -> Seq<char> {
    if name == "Zeroable"@ || name == "Pod"@ {
        crate_path + "::bytemuck::"@ + name
    } else {
        name
    }
}

/// The derive paths, as text, of the wanted traits that no derive attribute
/// lists yet, in the order wanted.
pub open spec fn missing_derives(attrs: Seq<crate::model::AttrDesc>, wanted: Seq<&str>, crate_path: Seq<char>) -> Seq<Seq<char>>
    decreases wanted.len(),
{
    if wanted.len() == 0 {
        Seq::empty()
    } else {
        let rest = missing_derives(attrs, wanted.drop_last(), crate_path);
        if spec_has_derive(attrs, wanted.last()@) {
            rest
        } else {
            rest.push(derive_text(wanted.last()@, crate_path))
        }
    }
}

fn contains_str(v: &Vec<String>, s: &str) -> (res: bool)
    ensures
        res == exists|k: int| 0 <= k < v@.len() && #[trigger] v@[k]@ == s@,
{
    let mut i: usize = 0;
    while i < v.len()
        invariant
            i <= v@.len(),
            forall|k: int| 0 <= k < i ==> #[trigger] v@[k]@ != s@,
        decreases v@.len() - i,
    {
        if str_eq(v[i].as_str(), s) {
            return true;
        }
        i = i + 1;
    }
    false
}

/// The derive paths, as text, of the wanted traits that are not derived yet;
/// `Zeroable` and `Pod` are named through `crate_path`.
pub fn add_missing_derives(attrs: &[crate::model::AttrDesc], wanted: &[&str], crate_path: &str) -> (res: Vec<String>)
    ensures
        res@.len() == missing_derives(attrs@, wanted@, crate_path@).len(),
        forall|k: int| 0 <= k < res@.len() ==> #[trigger] res@[k]@ == missing_derives(attrs@, wanted@, crate_path@)[k],
{
    let existing = collect_derive_idents(attrs);
    let mut out: Vec<String> = Vec::new();
    let mut i: usize = 0;
    while i < wanted.len()
        invariant
            i <= wanted@.len(),
            forall|k: int| 0 <= k < existing@.len() ==> spec_has_derive(attrs@, #[trigger] existing@[k]@),
            forall|id: Seq<char>| spec_has_derive(attrs@, id) ==> exists|k: int|
                0 <= k < existing@.len() && #[trigger] existing@[k]@ == id,
            out@.len() == missing_derives(attrs@, wanted@.take(i as int), crate_path@).len(),
            forall|k: int| 0 <= k < out@.len() ==> #[trigger] out@[k]@ == missing_derives(attrs@, wanted@.take(i as int), crate_path@)[k],
        decreases wanted@.len() - i,
    {
        let want = wanted[i];
        assert(wanted@.take(i + 1).drop_last() =~= wanted@.take(i as int));
        assert(wanted@.take(i + 1).last() == want);
        let present = contains_str(&existing, want);
        assert(present == spec_has_derive(attrs@, want@));
        if !present {
            let mut text = String::new();
            if str_eq(want, "Zeroable") || str_eq(want, "Pod") {
                push_str(&mut text, crate_path);
                push_str(&mut text, "::bytemuck::");
            }
            push_str(&mut text, want);
            proof {
                assert(text@ =~= derive_text(want@, crate_path@));
            }
            out.push(text);
        }
        i = i + 1;
    }
    assert(wanted@.take(wanted@.len() as int) =~= wanted@);
    out
}

/// Why `#[podflate]` refuses an item.
pub enum PodflateError {
    HasArguments,
    NotNamedStruct,
}

impl PodflateError {
    /// The compile error's message.
    pub fn message(&self) -> (s: &'static str)
        ensures
            s@ == (match self {
                PodflateError::HasArguments => "#[podflate] does not accept arguments"@,
                PodflateError::NotNamedStruct => "#[podflate] only supports named structs"@,
            }),
    {
        match self {
            PodflateError::HasArguments => "#[podflate] does not accept arguments",
            PodflateError::NotNamedStruct => "#[podflate] only supports named structs",
        }
    }
}

/// What `#[podflate]` adds to a struct, in this order: `#[repr(C)]`, one
/// `#[derive(..)]` of the missing traits, `#[bitflate]`.
pub struct PodflatePlan {
    pub add_repr_c: bool,
    pub derives: Vec<String>,
    pub add_bitflate: bool,
}

/// Plans `#[podflate]` on a struct: refused when the attribute has arguments
/// or the struct has no named fields; otherwise `repr(C)` is added when no
/// `repr` is present, the missing ones of `Copy`, `Clone`, `Zeroable`, `Pod`
/// are derived, and `#[bitflate]` is added when absent.
pub fn podflate(args_empty: bool, item: &StructDesc, crate_path: &str) -> (res: Result<PodflatePlan, PodflateError>)
    ensures
        !args_empty ==> res matches Err(PodflateError::HasArguments),
        args_empty && !(item.fields is Named) ==> res matches Err(PodflateError::NotNamedStruct),
        args_empty && item.fields is Named ==> (res matches Ok(plan) && {
            &&& plan.add_repr_c == !spec_has_attr(item.attrs@, "repr"@)
            &&& plan.add_bitflate == !spec_has_attr(item.attrs@, "bitflate"@)
            &&& plan.derives@.len() == missing_derives(item.attrs@, seq!["Copy", "Clone", "Zeroable", "Pod"], crate_path@).len()
            &&& forall|k: int| 0 <= k < plan.derives@.len() ==> #[trigger] plan.derives@[k]@
                == missing_derives(item.attrs@, seq!["Copy", "Clone", "Zeroable", "Pod"], crate_path@)[k]
        }),
{
    if !args_empty {
        return Err(PodflateError::HasArguments);
    }
    match &item.fields {
        FieldsDesc::Named(_) => {},
        _ => return Err(PodflateError::NotNamedStruct),
    }
    let add_repr_c = !has_attr(item.attrs.as_slice(), "repr");
    let wanted: [&str; 4] = ["Copy", "Clone", "Zeroable", "Pod"];
    let derives = add_missing_derives(item.attrs.as_slice(), wanted.as_slice(), crate_path);
    assert(wanted@ =~= seq!["Copy", "Clone", "Zeroable", "Pod"]);
    let add_bitflate = !has_attr(item.attrs.as_slice(), "bitflate");
    Ok(PodflatePlan { add_repr_c, derives, add_bitflate })
}

} // verus!
