//! Reading attributes: `#[derive(..)]`, `#[repr(..)]` and `#[bits(N)]`.
use vstd::prelude::*;
use crate::digits::{parse_usize, spec_parse_usize};
use crate::model::{AttrDesc, FieldDesc, MetaDesc};
use crate::text::{push_str, str_eq};

verus! {

/// The attribute's path is the single identifier `name`.
pub open spec fn attr_is(a: AttrDesc, name: Seq<char>) -> bool {
    a.ident matches Some(id) && id@ == name
}

/// Some attribute's path is the single identifier `name`.
pub open spec fn spec_has_attr(attrs: Seq<AttrDesc>, name: Seq<char>) -> bool {
    exists|i: int| 0 <= i < attrs.len() && attr_is(#[trigger] attrs[i], name)
}

/// The derive attribute `a` lists a path whose last segment is `id`.
pub open spec fn derive_lists(a: AttrDesc, id: Seq<char>) -> bool {
    &&& attr_is(a, "derive"@)
    &&& a.derive_paths matches Some(paths) && exists|j: int|
        0 <= j < paths.len() && (#[trigger] paths[j] matches Some(seg) && seg@ == id)
}

/// Some `#[derive(..)]` among `attrs` lists a path ending in `id`.
pub open spec fn spec_has_derive(attrs: Seq<AttrDesc>, id: Seq<char>) -> bool {
    exists|i: int| 0 <= i < attrs.len() && derive_lists(#[trigger] attrs[i], id)
}

/// The meta is the bare identifier `C`.
pub open spec fn meta_is_c(m: MetaDesc) -> bool {
    m matches MetaDesc::Path(Some(id)) && id@ == "C"@
}

/// The attribute is a `#[repr(..)]` whose list holds a bare `C`.
pub open spec fn repr_lists_c(a: AttrDesc) -> bool {
    &&& attr_is(a, "repr"@)
    &&& match a.metas {
        Some(ms) => exists|j: int| 0 <= j < ms@.len() && meta_is_c(#[trigger] ms@[j]),
        None => false,
    }
}

/// Some `#[repr(..)]` among `attrs` lists `C`.
pub open spec fn spec_has_repr_c(attrs: Seq<AttrDesc>) -> bool {
    exists|i: int| 0 <= i < attrs.len() && repr_lists_c(#[trigger] attrs[i])
}

/// The width that a `#[bits(N)]` attribute gives, when its argument is a
/// `usize` literal.
pub open spec fn bits_value(a: AttrDesc) -> Option<usize> {
    match a.int_arg {
        Some(d) => spec_parse_usize(d@),
        None => None,
    }
}

/// The width of the last `#[bits(N)]` among `attrs` that gives one.
pub open spec fn spec_bits_override(attrs: Seq<AttrDesc>) -> Option<usize>
    decreases attrs.len(),
{
    if attrs.len() == 0 {
        None
    } else if attr_is(attrs.last(), "bits"@) && bits_value(attrs.last()) is Some {
        bits_value(attrs.last())
    } else {
        spec_bits_override(attrs.drop_last())
    }
}

/// `attrs` without its `#[bits(..)]` attributes, in order.
pub open spec fn without_bits(attrs: Seq<AttrDesc>) -> Seq<AttrDesc>
    decreases attrs.len(),
{
    if attrs.len() == 0 {
        attrs
    } else if attr_is(attrs.last(), "bits"@) {
        without_bits(attrs.drop_last())
    } else {
        without_bits(attrs.drop_last()).push(attrs.last())
    }
}

/// The field after the call: its `#[bits(..)]` attributes removed, all else kept.
pub open spec fn stripped(new: FieldDesc, old: FieldDesc) -> bool {
    &&& new.attrs@ == without_bits(old.attrs@)
    &&& new.ident == old.ident
    &&& new.ty == old.ty
    &&& new.ty_text == old.ty_text
}

/// Whether `a`'s path is the single identifier `name`.
pub fn attr_named(a: &AttrDesc, name: &str) -> (res: bool)
    ensures
        res == attr_is(*a, name@),
{
    match &a.ident {
        Some(id) => str_eq(id.as_str(), name),
        None => false,
    }
}

/// Whether some attribute's path is the single identifier `name`.
pub fn has_attr(attrs: &[AttrDesc], name: &str) -> (res: bool)
    ensures
        res == spec_has_attr(attrs@, name@),
{
    let mut i: usize = 0;
    while i < attrs.len()
        invariant
            i <= attrs@.len(),
            forall|k: int| 0 <= k < i ==> !attr_is(#[trigger] attrs@[k], name@),
        decreases attrs@.len() - i,
    {
        if attr_named(&attrs[i], name) {
            return true;
        }
        i = i + 1;
    }
    false
}

/// Whether the derive attribute `a` lists a path ending in `target`.
fn derive_attr_lists(a: &AttrDesc, target: &str) -> (res: bool)
    ensures
        res == derive_lists(*a, target@),
{
    if !attr_named(a, "derive") {
        return false;
    }
    let paths = match &a.derive_paths {
        Some(p) => p,
        None => return false,
    };
    let mut j: usize = 0;
    while j < paths.len()
        invariant
            attr_is(*a, "derive"@),
            a.derive_paths == Some(*paths),
            j <= paths@.len(),
            forall|k: int| 0 <= k < j ==> !(#[trigger] paths@[k] matches Some(seg) && seg@ == target@),
        decreases paths@.len() - j,
    {
        match &paths[j] {
            Some(seg) => if str_eq(seg.as_str(), target) {
                assert(paths@[j as int] matches Some(sg) && sg@ == target@);
                return true;
            },
            None => {},
        }
        j = j + 1;
    }
    false
}

/// Whether some `#[derive(..)]` lists a path whose last segment is `target`.
pub fn has_derive(attrs: &[AttrDesc], target: &str) -> (res: bool)
    ensures
        res == spec_has_derive(attrs@, target@),
{
    let mut i: usize = 0;
    while i < attrs.len()
        invariant
            i <= attrs@.len(),
            forall|k: int| 0 <= k < i ==> !derive_lists(#[trigger] attrs@[k], target@),
        decreases attrs@.len() - i,
    {
        if derive_attr_lists(&attrs[i], target) {
            return true;
        }
        i = i + 1;
    }
    false
}

/// Whether some `#[repr(..)]` lists a bare `C`.
pub fn has_repr_c(attrs: &[AttrDesc]) -> (res: bool)
    ensures
        res == spec_has_repr_c(attrs@),
{
    let mut i: usize = 0;
    while i < attrs.len()
        invariant
            i <= attrs@.len(),
            forall|k: int| 0 <= k < i ==> !repr_lists_c(#[trigger] attrs@[k]),
        decreases attrs@.len() - i,
    {
        let a = &attrs[i];
        if attr_named(a, "repr") {
            match &a.metas {
                Some(ms) => {
                    let mut j: usize = 0;
                    while j < ms.len()
                        invariant
                            i < attrs@.len(),
                            a == attrs@[i as int],
                            attr_is(*a, "repr"@),
                            a.metas == Some(*ms),
                            j <= ms@.len(),
                            forall|k: int| 0 <= k < j ==> !meta_is_c(#[trigger] ms@[k]),
                        decreases ms@.len() - j,
                    {
                        match &ms[j] {
                            MetaDesc::Path(Some(id)) => if str_eq(id.as_str(), "C") {
                                assert(meta_is_c(ms@[j as int]));
                                assert(attrs@[i as int].metas == Some(*ms));
                                assert(attrs@[i as int].metas.unwrap()@[j as int] == ms@[j as int]);
                                assert(repr_lists_c(attrs@[i as int]));
                                return true;
                            },
                            _ => {},
                        }
                        j = j + 1;
                    }
                },
                None => {},
            }
        }
        i = i + 1;
    }
    false
}

/// The width that the last `#[bits(N)]` with a `usize` literal gives,
/// leaving the attributes as they are.
pub fn bits_override(attrs: &[AttrDesc]) -> (res: Option<usize>)
    ensures
        res == spec_bits_override(attrs@),
{
    let mut parsed: Option<usize> = None;
    let mut i: usize = 0;
    while i < attrs.len()
        invariant
            i <= attrs@.len(),
            parsed == spec_bits_override(attrs@.take(i as int)),
        decreases attrs@.len() - i,
    {
        assert(attrs@.take(i + 1).drop_last() =~= attrs@.take(i as int));
        assert(attrs@.take(i + 1).last() == attrs@[i as int]);
        let a = &attrs[i];
        if attr_named(a, "bits") {
            let here = match &a.int_arg {
                Some(d) => parse_usize(d.as_str()),
                None => None,
            };
            if here.is_some() {
                parsed = here;
            }
        }
        i = i + 1;
    }
    assert(attrs@.take(attrs@.len() as int) =~= attrs@);
    parsed
}

/// Removes every `#[bits(..)]` attribute and returns the width that the last
/// one with a `usize` literal argument gives.
pub fn parse_bits_override(attrs: &mut Vec<AttrDesc>) -> (res: Option<usize>)
    ensures
        res == spec_bits_override(old(attrs)@),
        final(attrs)@ == without_bits(old(attrs)@),
{
    let ghost orig = attrs@;
    let mut parsed: Option<usize> = None;
    let mut i: usize = 0;
    let mut j: usize = 0;
    let n = attrs.len();
    while j < n
        invariant
            n == orig.len(),
            j <= orig.len(),
            i <= j,
            i == without_bits(orig.take(j as int)).len(),
            attrs@ == without_bits(orig.take(j as int)) + orig.subrange(j as int, orig.len() as int),
            parsed == spec_bits_override(orig.take(j as int)),
        decreases orig.len() - j,
    {
        assert(orig.take(j + 1).drop_last() =~= orig.take(j as int));
        assert(orig.take(j + 1).last() == orig[j as int]);
        assert(attrs@[i as int] == orig[j as int]);
        if attr_named(&attrs[i], "bits") {
            let here = match &attrs[i].int_arg {
                Some(d) => parse_usize(d.as_str()),
                None => None,
            };
            if here.is_some() {
                parsed = here;
            }
            attrs.remove(i);
            proof {
                assert(attrs@ =~= without_bits(orig.take(j + 1)) + orig.subrange(j + 1, orig.len() as int));
            }
        } else {
            i = i + 1;
            proof {
                assert(attrs@ =~= without_bits(orig.take(j + 1)) + orig.subrange(j + 1, orig.len() as int));
            }
        }
        j = j + 1;
    }
    assert(orig.take(orig.len() as int) =~= orig);
    assert(attrs@ =~= without_bits(orig));
    parsed
}

/// Every identifier that some `#[derive(..)]` lists as the last segment of a path.
pub fn collect_derive_idents(attrs: &[AttrDesc]) -> (res: Vec<String>)
    ensures
        forall|k: int| 0 <= k < res@.len() ==> spec_has_derive(attrs@, #[trigger] res@[k]@),
        forall|id: Seq<char>| spec_has_derive(attrs@, id) ==> exists|k: int|
            0 <= k < res@.len() && #[trigger] res@[k]@ == id,
{
    let mut out: Vec<String> = Vec::new();
    let mut i: usize = 0;
    while i < attrs.len()
        invariant
            i <= attrs@.len(),
            forall|k: int| 0 <= k < out@.len() ==> spec_has_derive(attrs@, #[trigger] out@[k]@),
            forall|id: Seq<char>, m: int| 0 <= m < i && #[trigger] derive_lists(attrs@[m], id)
                ==> exists|k: int| 0 <= k < out@.len() && #[trigger] out@[k]@ == id,
        decreases attrs@.len() - i,
    {
        let a = &attrs[i];
        if attr_named(a, "derive") {
            match &a.derive_paths {
                Some(paths) => {
                    let ghost before = out@;
                    let mut j: usize = 0;
                    while j < paths.len()
                        invariant
                            i < attrs@.len(),
                            a == attrs@[i as int],
                            attr_is(*a, "derive"@),
                            a.derive_paths == Some(*paths),
                            j <= paths@.len(),
                            forall|k: int| 0 <= k < out@.len() ==> spec_has_derive(attrs@, #[trigger] out@[k]@),
                            forall|k: int| 0 <= k < before.len() ==> out@[k] == before[k],
                            before.len() <= out@.len(),
                            forall|m: int| 0 <= m < j ==> (#[trigger] paths@[m] matches Some(seg) ==> exists|k: int|
                                0 <= k < out@.len() && #[trigger] out@[k]@ == seg@),
                        decreases paths@.len() - j,
                    {
                        match &paths[j] {
                            Some(seg) => {
                                let mut copy = String::new();
                                push_str(&mut copy, seg.as_str());
                                proof {
                                    assert(copy@ =~= seg@);
                                    assert(paths@[j as int] matches Some(sg) && sg@ == seg@);
                                    assert(derive_lists(attrs@[i as int], seg@));
                                }
                                let ghost old_out = out@;
                                out.push(copy);
                                proof {
                                    assert(out@[out@.len() - 1]@ == seg@);
                                    assert forall|m: int| 0 <= m <= j implies (#[trigger] paths@[m] matches Some(sg) ==> exists|k: int|
                                        0 <= k < out@.len() && #[trigger] out@[k]@ == sg@) by {
                                        if m < j {
                                            if let Some(sg) = paths@[m] {
                                                let k = choose|k: int| 0 <= k < old_out.len() && #[trigger] old_out[k]@ == sg@;
                                                assert(out@[k] == old_out[k]);
                                            }
                                        } else {
                                            assert(out@[out@.len() - 1]@ == seg@);
                                        }
                                    }
                                }
                            },
                            None => {},
                        }
                        j = j + 1;
                    }
                    proof {
                        assert forall|id: Seq<char>| derive_lists(attrs@[i as int], id) implies exists|k: int|
                            0 <= k < out@.len() && #[trigger] out@[k]@ == id by {
                            let jj = choose|jj: int| 0 <= jj < paths@.len() && (#[trigger] paths@[jj] matches Some(seg) && seg@ == id);
                            assert(paths@[jj] matches Some(seg));
                        }
                    }
                },
                None => {},
            }
        }
        i = i + 1;
    }
    proof {
        assert forall|id: Seq<char>| spec_has_derive(attrs@, id) implies exists|k: int|
            0 <= k < out@.len() && #[trigger] out@[k]@ == id by {
            let m = choose|m: int| 0 <= m < attrs@.len() && derive_lists(#[trigger] attrs@[m], id);
            assert(0 <= m < i && derive_lists(attrs@[m], id));
        }
    }
    out
}

/// Law: `parse_bits_override` consumes the `#[bits(..)]` attributes: on what
/// it leaves, a second call finds no width and removes nothing.
pub proof fn law_bits_override_consumed(attrs: Seq<AttrDesc>)
    ensures
        spec_bits_override(without_bits(attrs)) is None,
        without_bits(without_bits(attrs)) == without_bits(attrs),
    decreases attrs.len(),
{
    if attrs.len() > 0 {
        law_bits_override_consumed(attrs.drop_last());
        let w = without_bits(attrs.drop_last());
        if !attr_is(attrs.last(), "bits"@) {
            assert(w.push(attrs.last()).drop_last() =~= w);
        }
    }
}

/// Law: every `#[derive(..)]` attribute counts: a trait derived by some
/// attribute of `b` is still found when other attributes stand before or
/// after `b`.
pub proof fn law_derive_found_among_other_attrs(a: Seq<AttrDesc>, b: Seq<AttrDesc>, id: Seq<char>)
    ensures
        spec_has_derive(b, id) ==> spec_has_derive(a + b, id) && spec_has_derive(b + a, id),
        spec_has_derive(a + b, id) <==> spec_has_derive(a, id) || spec_has_derive(b, id),
{
    if spec_has_derive(b, id) {
        let i = choose|i: int| 0 <= i < b.len() && derive_lists(#[trigger] b[i], id);
        assert((a + b)[a.len() + i] == b[i]);
        assert((b + a)[i] == b[i]);
    }
    if spec_has_derive(a, id) {
        let i = choose|i: int| 0 <= i < a.len() && derive_lists(#[trigger] a[i], id);
        assert((a + b)[i] == a[i]);
    }
    if spec_has_derive(a + b, id) {
        let i = choose|i: int| 0 <= i < (a + b).len() && derive_lists(#[trigger] (a + b)[i], id);
        if i < a.len() {
            assert((a + b)[i] == a[i]);
        } else {
            assert((a + b)[i] == b[i - a.len()]);
        }
    }
}

} // verus!
