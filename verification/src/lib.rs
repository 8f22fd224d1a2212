//! A small component-based templating engine.
//!
//! Named templates ("components") written in an HTML-like markup are parsed
//! into a tree and rendered to text given variable bindings, with nested
//! component composition, caller-supplied slot content, and an optional
//! per-element transform hook.

use vstd::prelude::*;

pub mod ast;
pub mod model;
pub mod parse_spec;
pub mod render_spec;
pub mod rendering;
pub(crate) mod chars;
pub mod parsing;

verus! {

use crate::ast::Dom;
use crate::model::{SpecComp, SpecRegistry};
use crate::parse_spec::SpecErr;

/// A registry entry: raw source, mid-parse, or a finished tree.
pub enum LazyDom {
    Unparsed(String),
    Parsed(Dom),
}

impl View for LazyDom {
    type V = SpecComp;

    open spec fn view(&self) -> SpecComp {
        match self {
            LazyDom::Unparsed(s) => SpecComp::Unparsed(s@),
            LazyDom::Parsed(d) => SpecComp::Parsed(d@),
        }
    }
}

pub type ComponentsCache = Vec<(String, LazyDom)>;

pub open spec fn cache_view(s: Seq<(String, LazyDom)>) -> SpecRegistry
    decreases s.len(),
{
    if s.len() == 0 {
        Map::empty()
    } else {
        cache_view(s.subrange(0, s.len() - 1)).insert(s[s.len() - 1].0@, s[s.len() - 1].1@)
    }
}

/// An engine instance: the component registry.
pub struct VelInstance {
    pub components: ComponentsCache,
}

impl View for VelInstance {
    type V = SpecRegistry;

    open spec fn view(&self) -> SpecRegistry {
        cache_view(self.components@)
    }
}

impl VelInstance {
    /// Builds an instance whose registry holds each given component as
    /// unparsed source; a name given twice keeps its latest source.
    pub fn new(components: Vec<(String, String)>) -> (r: Self)
        ensures
            r@ == spec_register(Map::<Seq<char>, SpecComp>::empty(), components@),
    {
        let mut r = VelInstance { components: Vec::new() };
        proof {
            assert(r@ =~= Map::<Seq<char>, SpecComp>::empty());
        }
        r.extend(components);
        r
    }

    /// Adds each given component as unparsed source, overwriting any
    /// existing entry of the same name, parsed or not.
    pub fn extend(&mut self, components: Vec<(String, String)>)
        ensures
            final(self)@ == spec_register(old(self)@, components@),
    {
        let ghost reg0 = self@;
        let ghost comps = components@;
        let n = components.len();
        for i in 0..n
            invariant
                n == comps.len(),
                components@ == comps,
                self@ == spec_register(reg0, comps.subrange(0, i as int)),
        {
            let ghost before = self.components@;
            let name = components[i].0.clone();
            let source = components[i].1.clone();
            self.components.push((name, LazyDom::Unparsed(source)));
            proof {
                lemma_cache_view_push(before, self.components@[before.len() as int]);
                assert(comps.subrange(0, i + 1).subrange(0, i as int) =~= comps.subrange(
                    0,
                    i as int,
                ));
                assert(self@ == spec_register(reg0, comps.subrange(0, i + 1)));
            }
        }
        proof {
            assert(comps.subrange(0, comps.len() as int) =~= comps);
        }
    }
}

/// The structured failures of parsing and rendering.
#[derive(Debug, Clone, PartialEq, Eq)]
pub enum VelError {
    UnknownComponent(String),
    UnclosedTag(String),
    MismatchedClose { expected: String, found: String },
    SelfNestingWithoutClose(String),
    RecursionLimitExceeded { component: String, parent: Option<String> },
}

impl View for VelError {
    type V = SpecErr;

    open spec fn view(&self) -> SpecErr {
        match self {
            VelError::UnknownComponent(n) => SpecErr::UnknownComponent(n@),
            VelError::UnclosedTag(n) => SpecErr::UnclosedTag(n@),
            VelError::MismatchedClose { expected, found } => SpecErr::MismatchedClose {
                expected: expected@,
                found: found@,
            },
            VelError::SelfNestingWithoutClose(n) => SpecErr::SelfNestingWithoutClose(n@),
            VelError::RecursionLimitExceeded { component, parent } => {
                SpecErr::RecursionLimitExceeded {
                    component: component@,
                    parent: match parent {
                        Some(p) => Some(p@),
                        None => None,
                    },
                }
            },
        }
    }
}

/// The registry a component cache stands for is always finite.
pub proof fn lemma_cache_view_finite(s: Seq<(String, LazyDom)>)
    ensures
        cache_view(s).dom().finite(),
    decreases s.len(),
{
    broadcast use vstd::set::group_set_axioms;

    if s.len() > 0 {
        lemma_cache_view_finite(s.subrange(0, s.len() - 1));
    }
}

/// Finds the entry a name stands for: the latest entry of that name.
pub(crate) fn cache_find(components: &ComponentsCache, name: &str) -> (r: Option<usize>)
    ensures
        match r {
            Some(idx) => idx < components@.len() && components@[idx as int].0@ == name@
                && cache_view(components@).contains_key(name@) && cache_view(components@)[name@]
                == components@[idx as int].1@,
            None => !cache_view(components@).contains_key(name@),
        },
{
    let ghost s = components@;
    let mut idx: usize = components.len();
    proof {
        assert(s.subrange(0, s.len() as int) =~= s);
    }
    while idx > 0
        invariant
            idx <= s.len(),
            s == components@,
            cache_view(s).contains_key(name@) == cache_view(s.subrange(0, idx as int)).contains_key(
                name@,
            ),
            cache_view(s).contains_key(name@) ==> cache_view(s)[name@] == cache_view(
                s.subrange(0, idx as int),
            )[name@],
        decreases idx,
    {
        idx = idx - 1;
        proof {
            let pre = s.subrange(0, idx + 1);
            assert(pre[pre.len() - 1] == s[idx as int]);
            assert(pre.subrange(0, pre.len() - 1) =~= s.subrange(0, idx as int));
        }
        if crate::chars::str_eq(components[idx].0.as_str(), name) {
            return Some(idx);
        }
    }
    proof {
        assert(s.subrange(0, 0) =~= Seq::<(String, LazyDom)>::empty());
    }
    None
}

/// Records an entry, overwriting any earlier entry of the same name.
pub(crate) fn cache_set(components: &mut ComponentsCache, name: String, entry: LazyDom)
    ensures
        cache_view(final(components)@) == cache_view(old(components)@).insert(name@, entry@),
{
    let ghost pre = components@;
    let ghost e = entry@;
    components.push((name, entry));
    proof {
        lemma_cache_view_push(pre, components@[pre.len() as int]);
    }
}

pub proof fn lemma_cache_view_push(s: Seq<(String, LazyDom)>, p: (String, LazyDom))
    ensures
        cache_view(s.push(p)) == cache_view(s).insert(p.0@, p.1@),
{
    let t = s.push(p);
    assert(t.subrange(0, t.len() - 1) =~= s);
    assert(t[t.len() - 1] == p);
}

/// What registering a list of sources does to the registry: each pair in
/// order becomes an Unparsed entry, overwriting any earlier entry.
pub open spec fn spec_register(reg: SpecRegistry, comps: Seq<(String, String)>) -> SpecRegistry
    decreases comps.len(),
{
    if comps.len() == 0 {
        reg
    } else {
        spec_register(reg, comps.subrange(0, comps.len() - 1)).insert(
            comps[comps.len() - 1].0@,
            SpecComp::Unparsed(comps[comps.len() - 1].1@),
        )
    }
}

} // verus!
