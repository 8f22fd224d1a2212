use vstd::prelude::*;

use crate::model::{
    attrs_view, elems_view, slots_view, SpecAttrPart, SpecDoc, SpecElem, SpecNode, SpecSlot,
    SpecVoid,
};

verus! {

/// A literal run of text, stored exactly as it appeared in the source
/// (after escape processing).
pub struct Text {
    pub value: String,
}

/// A `{name}` variable reference, resolved against the bindings at render
/// time; unresolved variables are re-emitted as `{name}`.
pub struct Variable {
    pub name: String,
}

/// One piece of an attribute value: attribute values are ordered sequences
/// of literal and variable pieces, concatenated at render time.
pub enum AttributeValues {
    Text(Text),
    Variable(Variable),
}

/// An element's attributes: an association list in source order whose keys
/// are unique (last write wins at parse time).
pub type Attributes = Vec<(String, Vec<AttributeValues>)>;

/// The root of a component's expansion, and also the call-site record of a
/// component reference: its `slot_content` is the caller-supplied overlay,
/// keyed by slot key, and its `children` are the referenced component's
/// children as known when the reference was parsed (empty for a
/// self-closing reference; the renderer always re-reads the registry).
pub struct Document {
    pub name: String,
    pub attributes: Attributes,
    pub slot_content: Vec<(String, Vec<Element>)>,
    pub children: Vec<Element>,
}

/// A generic tag with children.
pub struct Node {
    pub name: String,
    pub attributes: Attributes,
    pub children: Vec<Element>,
}

/// A slot placeholder; `name` is the slot key and `children` the fallback
/// content used when no caller content matches the key.
pub struct Slot {
    pub name: String,
    pub attributes: Attributes,
    pub children: Vec<Element>,
}

/// A void tag: no children, no closing tag.
pub struct Void {
    pub name: String,
    pub attributes: Attributes,
}

/// The tagged union of everything that can stand in a parsed tree.
pub enum Element {
    Document(Document),
    Node(Node),
    Slot(Slot),
    Text(Text),
    Variable(Variable),
    Void(Void),
}

/// A parsed component: the Document at the root of its tree.
pub struct Dom {
    pub tree: Document,
}

impl Dom {
    pub fn new(root: Document) -> (r: Self)
        ensures
            r.tree == root,
    {
        Dom { tree: root }
    }
}

impl Document {
    pub fn new(name: String) -> (r: Self)
        ensures
            r@ == (SpecDoc {
                name: name@,
                attrs: Seq::empty(),
                slots: Seq::empty(),
                children: Seq::empty(),
            }),
    {
        let r = Self { name, attributes: Vec::new(), slot_content: Vec::new(), children: Vec::new() };
        proof {
            assert(r@.attrs =~= Seq::<(Seq<char>, Seq<SpecAttrPart>)>::empty());
            assert(r@.slots =~= Seq::<(Seq<char>, Seq<SpecElem>)>::empty());
            assert(r@.children =~= Seq::<SpecElem>::empty());
        }
        r
    }
}

impl Element {
    /// A structural copy: the same tree, rebuilt leaf by leaf.
    pub fn duplicate(&self) -> (r: Element)
        ensures
            r@ == self@,
        decreases self,
    {
        match self {
            Element::Document(d) => Element::Document(
                Document {
                    name: d.name.clone(),
                    attributes: dup_attrs(&d.attributes),
                    slot_content: dup_slots(&d.slot_content),
                    children: dup_elems(&d.children),
                },
            ),
            Element::Node(n) => Element::Node(
                Node {
                    name: n.name.clone(),
                    attributes: dup_attrs(&n.attributes),
                    children: dup_elems(&n.children),
                },
            ),
            Element::Slot(s) => Element::Slot(
                Slot {
                    name: s.name.clone(),
                    attributes: dup_attrs(&s.attributes),
                    children: dup_elems(&s.children),
                },
            ),
            Element::Text(t) => Element::Text(Text { value: t.value.clone() }),
            Element::Variable(v) => Element::Variable(Variable { name: v.name.clone() }),
            Element::Void(v) => Element::Void(
                Void { name: v.name.clone(), attributes: dup_attrs(&v.attributes) },
            ),
        }
    }
}

/// A copy of an attribute list, with the same view.
pub fn dup_attrs(attrs: &Attributes) -> (r: Attributes)
    ensures
        attrs_view(r@) == attrs_view(attrs@),
{
    let mut out: Attributes = Vec::new();
    let mut i: usize = 0;
    while i < attrs.len()
        invariant
            i <= attrs.len(),
            out@.len() == i,
            attrs_view(out@) == attrs_view(attrs@.subrange(0, i as int)),
        decreases attrs.len() - i,
    {
        let key = attrs[i].0.clone();
        let mut parts: Vec<AttributeValues> = Vec::new();
        let mut m: usize = 0;
        while m < attrs[i].1.len()
            invariant
                m <= attrs@[i as int].1.len(),
                i < attrs.len(),
                parts@ == attrs@[i as int].1@.subrange(0, m as int),
            decreases attrs@[i as int].1.len() - m,
        {
            let av = match &attrs[i].1[m] {
                AttributeValues::Text(t) => AttributeValues::Text(
                    Text { value: t.value.clone() },
                ),
                AttributeValues::Variable(v) => AttributeValues::Variable(
                    Variable { name: v.name.clone() },
                ),
            };
            proof {
                assert(av == attrs@[i as int].1@[m as int]);
            }
            parts.push(av);
            m = m + 1;
            proof {
                assert(parts@ =~= attrs@[i as int].1@.subrange(0, m as int));
            }
        }
        proof {
            assert(parts@ =~= attrs@[i as int].1@);
        }
        let ghost pre = out@;
        out.push((key, parts));
        i = i + 1;
        proof {
            let sub = attrs@.subrange(0, i as int);
            let presub = attrs@.subrange(0, i - 1);
            assert forall|m: int| 0 <= m < i implies attrs_view(out@)[m] == attrs_view(
                sub,
            )[m] by {
                assert(sub[m] == attrs@[m]);
                if m < i - 1 {
                    assert(out@[m] == pre[m]);
                    assert(presub[m] == attrs@[m]);
                    assert(attrs_view(pre)[m] == attrs_view(presub)[m]);
                } else {
                    assert(out@[m].1@ == attrs@[m].1@);
                    assert(out@[m].0@ == attrs@[m].0@);
                }
            }
            assert(attrs_view(out@) =~= attrs_view(sub));
        }
    }
    proof {
        assert(attrs@.subrange(0, attrs@.len() as int) =~= attrs@);
    }
    out
}

/// A structural copy of an element list, with the same view.
pub fn dup_elems(v: &Vec<Element>) -> (r: Vec<Element>)
    ensures
        r@.len() == v@.len(),
        elems_view(r@) == elems_view(v@),
        forall|i: int| 0 <= i < v@.len() ==> (#[trigger] r@[i])@ == v@[i]@,
    decreases v,
{
    let mut out: Vec<Element> = Vec::new();
    let mut i: usize = 0;
    while i < v.len()
        invariant
            i <= v.len(),
            out@.len() == i,
            elems_view(out@) == elems_view(v@.subrange(0, i as int)),
            forall|m: int| 0 <= m < i ==> (#[trigger] out@[m])@ == v@[m]@,
        decreases v@.len() - i,
    {
        let e = v[i].duplicate();
        let ghost pre = out@;
        out.push(e);
        i = i + 1;
        proof {
            crate::model::lemma_elems_view_push(pre, e);
            let sub = v@.subrange(0, i as int);
            assert(sub.subrange(0, sub.len() - 1) =~= v@.subrange(0, i - 1));
            assert(sub[sub.len() - 1] == v@[i - 1]);
            assert(elems_view(out@) == elems_view(v@.subrange(0, i as int)));
        }
    }
    proof {
        assert(v@.subrange(0, v@.len() as int) =~= v@);
    }
    out
}

/// A structural copy of a slot overlay, with the same view.
pub fn dup_slots(sc: &Vec<(String, Vec<Element>)>) -> (r: Vec<(String, Vec<Element>)>)
    ensures
        slots_view(r@) == slots_view(sc@),
    decreases sc,
{
    let mut out: Vec<(String, Vec<Element>)> = Vec::new();
    let mut i: usize = 0;
    while i < sc.len()
        invariant
            i <= sc.len(),
            out@.len() == i,
            slots_view(out@) == slots_view(sc@.subrange(0, i as int)),
        decreases sc@.len() - i,
    {
        let key = sc[i].0.clone();
        let els = dup_elems(&sc[i].1);
        let ghost pre = out@;
        out.push((key, els));
        i = i + 1;
        proof {
            let t = out@;
            assert(t.subrange(0, t.len() - 1) =~= pre);
            let sub = sc@.subrange(0, i as int);
            assert(sub.subrange(0, sub.len() - 1) =~= sc@.subrange(0, i - 1));
            assert(sub[sub.len() - 1] == sc@[i - 1]);
            assert(slots_view(out@) == slots_view(sc@.subrange(0, i as int)));
        }
    }
    proof {
        assert(sc@.subrange(0, sc@.len() as int) =~= sc@);
    }
    out
}

impl View for Text {
    type V = Seq<char>;

    open spec fn view(&self) -> Seq<char> {
        self.value@
    }
}

impl View for Variable {
    type V = Seq<char>;

    open spec fn view(&self) -> Seq<char> {
        self.name@
    }
}

impl View for AttributeValues {
    type V = SpecAttrPart;

    open spec fn view(&self) -> SpecAttrPart {
        match self {
            AttributeValues::Text(t) => SpecAttrPart::Lit(t.value@),
            AttributeValues::Variable(v) => SpecAttrPart::Var(v.name@),
        }
    }
}

impl View for Document {
    type V = SpecDoc;

    open spec fn view(&self) -> SpecDoc {
        SpecDoc {
            name: self.name@,
            attrs: attrs_view(self.attributes@),
            slots: slots_view(self.slot_content@),
            children: elems_view(self.children@),
        }
    }
}

impl View for Node {
    type V = SpecNode;

    open spec fn view(&self) -> SpecNode {
        SpecNode {
            name: self.name@,
            attrs: attrs_view(self.attributes@),
            children: elems_view(self.children@),
        }
    }
}

impl View for Slot {
    type V = SpecSlot;

    open spec fn view(&self) -> SpecSlot {
        SpecSlot {
            key: self.name@,
            attrs: attrs_view(self.attributes@),
            children: elems_view(self.children@),
        }
    }
}

impl View for Void {
    type V = SpecVoid;

    open spec fn view(&self) -> SpecVoid {
        SpecVoid { name: self.name@, attrs: attrs_view(self.attributes@) }
    }
}

impl View for Element {
    type V = SpecElem;

    open spec fn view(&self) -> SpecElem {
        crate::model::elem_view(*self)
    }
}

impl View for Dom {
    type V = SpecDoc;

    open spec fn view(&self) -> SpecDoc {
        self.tree@
    }
}

} // verus!
