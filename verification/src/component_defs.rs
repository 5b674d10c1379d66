//! The component definitions the server knows: each component's
//! attributes, which of them are required, and whether it is
//! referenceable.

use vstd::prelude::*;
use crate::sorting::{sort_strs, str_order, str_views};
use crate::text::same_str;

verus! {

/// An attribute of a component definition: its name, whether it is
/// required, and whether it holds a comma-separated list.
#[derive(Debug, Clone, PartialEq, Eq)]
pub struct AttributeDef {
    pub name: String,
    pub required: bool,
    pub list: bool,
}

/// A component definition: its name, its attributes (each name once),
/// whether its instances can be referenced and verified, and a
/// description.
#[derive(Debug, Clone, PartialEq, Eq)]
pub struct ComponentDef {
    pub name: String,
    pub attributes: Vec<AttributeDef>,
    pub referenceable: bool,
    pub verifiable: bool,
    pub description: Option<String>,
}

/// The first definition named `name`.
pub open spec fn def_named(defs: Seq<ComponentDef>, name: Seq<char>) -> Option<ComponentDef>
    decreases defs.len(),
{
    if defs.len() == 0 {
        None
    } else if defs[0].name@ == name {
        Some(defs[0])
    } else {
        def_named(defs.drop_first(), name)
    }
}

/// The definition named `name`, if any.
pub fn find_component_def<'a>(defs: &'a [ComponentDef], name: &str) -> (r: Option<&'a ComponentDef>)
    ensures
        match def_named(defs@, name@) {
            Some(d) => r == Some(&d),
            None => r is None,
        },
{
    let mut i: usize = 0;
    proof {
        assert(defs@.skip(0) =~= defs@);
    }
    while i < defs.len()
        invariant
            0 <= i <= defs@.len(),
            def_named(defs@, name@) == def_named(defs@.skip(i as int), name@),
        decreases defs@.len() - i,
    {
        proof {
            assert(defs@.skip(i as int)[0] == defs@[i as int]);
            assert(defs@.skip(i as int).drop_first() =~= defs@.skip(i + 1));
        }
        if same_str(defs[i].name.as_str(), name) {
            return Some(&defs[i]);
        }
        i = i + 1;
    }
    None
}

/// The names of the required attributes, in definition order.
pub open spec fn required_names(attrs: Seq<AttributeDef>) -> Seq<Seq<char>>
    decreases attrs.len(),
{
    if attrs.len() == 0 {
        Seq::empty()
    } else if attrs.last().required {
        required_names(attrs.drop_last()).push(attrs.last().name@)
    } else {
        required_names(attrs.drop_last())
    }
}

/// The names of the required attributes of `def`, in `str` order.
pub open spec fn sorted_required(def: ComponentDef) -> Seq<Seq<char>> {
    required_names(def.attributes@).sort_by(str_order())
}

/// The names of the required attributes of `def`, sorted.
pub fn sorted_required_names(def: &ComponentDef) -> (r: Vec<&str>)
    ensures
        str_views(r@) == sorted_required(*def),
{
    let mut names: Vec<&str> = Vec::new();
    let mut i: usize = 0;
    while i < def.attributes.len()
        invariant
            0 <= i <= def.attributes@.len(),
            str_views(names@) == required_names(def.attributes@.take(i as int)),
        decreases def.attributes@.len() - i,
    {
        proof {
            assert(def.attributes@.take(i + 1).drop_last() =~= def.attributes@.take(i as int));
            assert(def.attributes@.take(i + 1).last() == def.attributes@[i as int]);
        }
        if def.attributes[i].required {
            let ghost before = names@;
            names.push(def.attributes[i].name.as_str());
            proof {
                assert(str_views(names@) =~= str_views(before).push(def.attributes@[i as int].name@));
            }
        }
        i = i + 1;
    }
    proof {
        assert(def.attributes@.take(def.attributes@.len() as int) =~= def.attributes@);
    }
    sort_strs(names)
}

} // verus!
