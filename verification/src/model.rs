//! The mathematical model of the template trees.
//!
//! Every executable type of the crate has a view into these ghost types;
//! all contracts are stated over them.

use vstd::prelude::*;

use crate::ast::{AttributeValues, Element};

verus! {

/// One piece of an attribute value: a literal run or a `{name}` variable.
pub enum SpecAttrPart {
    Lit(Seq<char>),
    Var(Seq<char>),
}

/// Attributes in source order; keys are unique.
pub type SpecAttrs = Seq<(Seq<char>, Seq<SpecAttrPart>)>;

#[verifier::ext_equal]
pub struct SpecDoc {
    pub name: Seq<char>,
    pub attrs: SpecAttrs,
    pub slots: Seq<(Seq<char>, Seq<SpecElem>)>,
    pub children: Seq<SpecElem>,
}

#[verifier::ext_equal]
pub struct SpecNode {
    pub name: Seq<char>,
    pub attrs: SpecAttrs,
    pub children: Seq<SpecElem>,
}

#[verifier::ext_equal]
pub struct SpecSlot {
    pub key: Seq<char>,
    pub attrs: SpecAttrs,
    pub children: Seq<SpecElem>,
}

#[verifier::ext_equal]
pub struct SpecVoid {
    pub name: Seq<char>,
    pub attrs: SpecAttrs,
}

#[verifier::ext_equal]
pub enum SpecElem {
    Doc(SpecDoc),
    Node(SpecNode),
    Slot(SpecSlot),
    Text(Seq<char>),
    Var(Seq<char>),
    Void(SpecVoid),
}

/// The state of one registry entry: raw source or a finished tree.
#[verifier::ext_equal]
pub enum SpecComp {
    Unparsed(Seq<char>),
    Parsed(SpecDoc),
}

/// The component registry: name to entry state.
pub type SpecRegistry = Map<Seq<char>, SpecComp>;

pub open spec fn parts_view(s: Seq<AttributeValues>) -> Seq<SpecAttrPart> {
    s.map_values(|a: AttributeValues| a@)
}

pub open spec fn attrs_view(s: Seq<(String, Vec<AttributeValues>)>) -> SpecAttrs {
    s.map_values(|kv: (String, Vec<AttributeValues>)| (kv.0@, parts_view(kv.1@)))
}

pub open spec fn elem_view(el: Element) -> SpecElem
    decreases el,
{
    match el {
        Element::Document(d) => SpecElem::Doc(
            SpecDoc {
                name: d.name@,
                attrs: attrs_view(d.attributes@),
                slots: slots_view(d.slot_content@),
                children: elems_view(d.children@),
            },
        ),
        Element::Node(n) => SpecElem::Node(
            SpecNode {
                name: n.name@,
                attrs: attrs_view(n.attributes@),
                children: elems_view(n.children@),
            },
        ),
        Element::Slot(s) => SpecElem::Slot(
            SpecSlot {
                key: s.name@,
                attrs: attrs_view(s.attributes@),
                children: elems_view(s.children@),
            },
        ),
        Element::Text(t) => SpecElem::Text(t.value@),
        Element::Variable(v) => SpecElem::Var(v.name@),
        Element::Void(v) => SpecElem::Void(
            SpecVoid { name: v.name@, attrs: attrs_view(v.attributes@) },
        ),
    }
}

pub open spec fn elems_view(s: Seq<Element>) -> Seq<SpecElem>
    decreases s,
{
    if s.len() == 0 {
        Seq::empty()
    } else {
        elems_view(s.subrange(0, s.len() - 1)).push(elem_view(s[s.len() - 1]))
    }
}

pub open spec fn slots_view(s: Seq<(String, Vec<Element>)>) -> Seq<(Seq<char>, Seq<SpecElem>)>
    decreases s,
{
    if s.len() == 0 {
        Seq::empty()
    } else {
        slots_view(s.subrange(0, s.len() - 1)).push(
            (s[s.len() - 1].0@, elems_view(s[s.len() - 1].1@)),
        )
    }
}

/// Looks a key up in an association sequence; the latest entry wins.
pub open spec fn assoc_get<T>(s: Seq<(Seq<char>, T)>, key: Seq<char>) -> Option<T>
    decreases s.len(),
{
    if s.len() == 0 {
        None
    } else if s[s.len() - 1].0 == key {
        Some(s[s.len() - 1].1)
    } else {
        assoc_get(s.subrange(0, s.len() - 1), key)
    }
}

/// A view lemma: `elems_view` maps each element in place.
pub proof fn lemma_elems_view_len(s: Seq<Element>)
    ensures
        elems_view(s).len() == s.len(),
        forall|i: int| 0 <= i < s.len() ==> elems_view(s)[i] == elem_view(s[i]),
    decreases s,
{
    if s.len() > 0 {
        lemma_elems_view_len(s.subrange(0, s.len() - 1));
        assert(forall|i: int|
            0 <= i < s.len() - 1 ==> s.subrange(0, s.len() - 1)[i] == s[i]);
    }
}

/// A view lemma: `elems_view` distributes over push.
pub proof fn lemma_elems_view_push(s: Seq<Element>, el: Element)
    ensures
        elems_view(s.push(el)) == elems_view(s).push(elem_view(el)),
{
    let t = s.push(el);
    assert(t.subrange(0, t.len() - 1) =~= s);
    assert(t[t.len() - 1] == el);
}

} // verus!
