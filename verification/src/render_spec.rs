//! Rendering, specified: walking a parsed tree with bindings, a recursion
//! budget, and a transform hook.

use vstd::prelude::*;

use crate::model::{
    assoc_get, SpecAttrs, SpecComp, SpecDoc, SpecElem, SpecRegistry,
};
use crate::parse_spec::{sp_parse, SpecErr};

verus! {

/// Variable bindings: name to replacement text.
pub type SpecBinds = Map<Seq<char>, Seq<char>>;

/// The per-element transform hook. The renderer runs `apply` once per
/// Node and Void element of the parsed tree, before serialization; `None`
/// omits the element and its whole subtree from the output.
///
/// `spec_apply` is the hook's mathematical meaning, and every
/// implementation proves that `apply` computes it; the renderer's
/// contract is stated over `spec_apply`.
pub trait Transform {
    spec fn spec_apply(&self, element: SpecElem) -> Option<SpecElem>;

    fn apply(&self, element: &crate::ast::Element) -> (r: Option<crate::ast::Element>)
        ensures
            match r {
                Some(el) => self.spec_apply(element@) == Some(el@),
                None => self.spec_apply(element@) is None,
            },
    ;
}

/// What a variable renders to: its binding, or its own `{name}` form when
/// unbound.
pub open spec fn sp_var_text(binds: SpecBinds, name: Seq<char>) -> Seq<char> {
    if binds.contains_key(name) {
        binds[name]
    } else {
        seq!['{'] + name + seq!['}']
    }
}

/// An attribute value rendered: its pieces concatenated, variables
/// substituted, unresolved ones passed through.
pub open spec fn sp_attr_text(parts: Seq<crate::model::SpecAttrPart>, binds: SpecBinds) -> Seq<
    char,
>
    decreases parts.len(),
{
    if parts.len() == 0 {
        Seq::empty()
    } else {
        sp_attr_text(parts.subrange(0, parts.len() - 1), binds) + (match parts[parts.len() - 1] {
            crate::model::SpecAttrPart::Lit(t) => t,
            crate::model::SpecAttrPart::Var(n) => sp_var_text(binds, n),
        })
    }
}

/// An attribute list serialized: ` key="value"` for each attribute, in
/// source order.
pub open spec fn sp_attrs_text(attrs: SpecAttrs, binds: SpecBinds) -> Seq<char>
    decreases attrs.len(),
{
    if attrs.len() == 0 {
        Seq::empty()
    } else {
        sp_attrs_text(attrs.subrange(0, attrs.len() - 1), binds) + seq![' ']
            + attrs[attrs.len() - 1].0 + seq!['=', '"'] + sp_attr_text(
            attrs[attrs.len() - 1].1,
            binds,
        ) + seq!['"']
    }
}

/// Bindings augmented by a reference's usage-site attributes: each
/// attribute's rendered value is bound under its key, later keys winning.
pub open spec fn sp_bind_attrs(binds: SpecBinds, attrs: SpecAttrs) -> SpecBinds
    decreases attrs.len(),
{
    if attrs.len() == 0 {
        binds
    } else {
        sp_bind_attrs(binds, attrs.subrange(0, attrs.len() - 1)).insert(
            attrs[attrs.len() - 1].0,
            sp_attr_text(attrs[attrs.len() - 1].1, binds),
        )
    }
}

/// What rendering a component reference's registry entry produces: the
/// children of its parsed tree, rendered under the call site's slot
/// overlay. An entry that is missing, or still raw at this point, fails
/// as unknown.
pub open spec fn sp_render_component<T: Transform>(
    reg: SpecRegistry,
    name: Seq<char>,
    binds: SpecBinds,
    overlay: Seq<(Seq<char>, Seq<SpecElem>)>,
    b: nat,
    t: &T,
) -> Result<Seq<char>, SpecErr>
    decreases b, overlay.len(), 1int, Seq::<SpecElem>::empty(),
{
    if !reg.contains_key(name) {
        Err(SpecErr::UnknownComponent(name))
    } else {
        match reg[name] {
            SpecComp::Unparsed(_) => Err(SpecErr::UnknownComponent(name)),
            SpecComp::Parsed(doc) => sp_render_elems(
                reg,
                doc.children,
                name,
                binds,
                overlay,
                b,
                t,
            ),
        }
    }
}

/// Renders a list of elements in order, concatenating; the first failure
/// aborts.
pub open spec fn sp_render_elems<T: Transform>(
    reg: SpecRegistry,
    els: Seq<SpecElem>,
    cur: Seq<char>,
    binds: SpecBinds,
    overlay: Seq<(Seq<char>, Seq<SpecElem>)>,
    b: nat,
    t: &T,
) -> Result<Seq<char>, SpecErr>
    decreases b, overlay.len(), 0int, els,
{
    if els.len() == 0 {
        Ok(Seq::empty())
    } else {
        match sp_render_elems(reg, els.subrange(0, els.len() - 1), cur, binds, overlay, b, t) {
            Err(e) => Err(e),
            Ok(s1) => match sp_render_el(reg, els[els.len() - 1], cur, binds, overlay, b, t) {
                Err(e) => Err(e),
                Ok(s2) => Ok(s1 + s2),
            },
        }
    }
}

/// Renders one element:
/// - Text contributes its literal value, a Variable its binding (or its
///   own `{name}` form when unbound);
/// - a Slot placeholder renders the overlay content filed under its key,
///   with a fresh empty overlay, or its fallback children;
/// - a component reference decrements the budget and renders the
///   referenced registry entry under the bindings augmented by its
///   usage-site attributes, with its own overlay; a spent budget is a
///   recursion-limit failure naming the reference and its parent;
/// - a Node or Void runs the hook: nothing omits the subtree; a returned
///   Node or Void supplies the serialized name and attributes (children
///   are always the parsed ones); returned Text or Variable render as
///   such; anything else renders as nothing.
pub open spec fn sp_render_el<T: Transform>(
    reg: SpecRegistry,
    el: SpecElem,
    cur: Seq<char>,
    binds: SpecBinds,
    overlay: Seq<(Seq<char>, Seq<SpecElem>)>,
    b: nat,
    t: &T,
) -> Result<Seq<char>, SpecErr>
    decreases b, overlay.len(), 0int, el,
{
    match el {
        SpecElem::Text(s) => Ok(s),
        SpecElem::Var(n) => Ok(sp_var_text(binds, n)),
        SpecElem::Slot(sl) => match assoc_get(overlay, sl.key) {
            Some(els) => {
                proof {
                    if overlay.len() == 0 {
                        assert(assoc_get(overlay, sl.key) is None);
                    }
                }
                sp_render_elems(reg, els, cur, binds, overlay.subrange(0, 0), b, t)
            },
            None => sp_render_elems(reg, sl.children, cur, binds, overlay, b, t),
        },
        SpecElem::Doc(d) => {
            if b == 0 {
                Err(SpecErr::RecursionLimitExceeded { component: d.name, parent: Some(cur) })
            } else {
                sp_render_component(
                    reg,
                    d.name,
                    sp_bind_attrs(binds, d.attrs),
                    d.slots,
                    (b - 1) as nat,
                    t,
                )
            }
        },
        SpecElem::Node(n) => match t.spec_apply(el) {
            None => Ok(Seq::empty()),
            Some(e2) => match e2 {
                SpecElem::Node(n2) => match sp_render_elems(
                    reg,
                    n.children,
                    cur,
                    binds,
                    overlay,
                    b,
                    t,
                ) {
                    Err(e) => Err(e),
                    Ok(kids) => Ok(
                        seq!['<'] + n2.name + sp_attrs_text(n2.attrs, binds) + seq!['>'] + kids
                            + seq!['<', '/'] + n2.name + seq!['>'],
                    ),
                },
                SpecElem::Void(v2) => Ok(
                    seq!['<'] + v2.name + sp_attrs_text(v2.attrs, binds) + seq!['/', '>'],
                ),
                SpecElem::Text(s) => Ok(s),
                SpecElem::Var(nm) => Ok(sp_var_text(binds, nm)),
                _ => Ok(Seq::empty()),
            },
        },
        SpecElem::Void(_) => match t.spec_apply(el) {
            None => Ok(Seq::empty()),
            Some(e2) => match e2 {
                SpecElem::Void(v2) => Ok(
                    seq!['<'] + v2.name + sp_attrs_text(v2.attrs, binds) + seq!['/', '>'],
                ),
                SpecElem::Node(n2) => Ok(
                    seq!['<'] + n2.name + sp_attrs_text(n2.attrs, binds) + seq!['>'] + seq![
                        '<',
                        '/',
                    ] + n2.name + seq!['>'],
                ),
                SpecElem::Text(s) => Ok(s),
                SpecElem::Var(nm) => Ok(sp_var_text(binds, nm)),
                _ => Ok(Seq::empty()),
            },
        },
    }
}

/// The component names referenced anywhere in these elements: direct
/// references, references inside slot overlays, and references inside
/// slot fallbacks.
pub open spec fn sp_doc_refs(els: Seq<SpecElem>) -> Seq<Seq<char>>
    decreases els,
{
    if els.len() == 0 {
        Seq::empty()
    } else {
        sp_doc_refs(els.subrange(0, els.len() - 1)) + sp_el_refs(els[els.len() - 1])
    }
}

pub open spec fn sp_el_refs(el: SpecElem) -> Seq<Seq<char>>
    decreases el,
{
    match el {
        SpecElem::Doc(d) => seq![d.name] + sp_slots_refs(d.slots),
        SpecElem::Node(n) => sp_doc_refs(n.children),
        SpecElem::Slot(sl) => sp_doc_refs(sl.children),
        SpecElem::Text(_) => Seq::empty(),
        SpecElem::Var(_) => Seq::empty(),
        SpecElem::Void(_) => Seq::empty(),
    }
}

pub open spec fn sp_slots_refs(slots: Seq<(Seq<char>, Seq<SpecElem>)>) -> Seq<Seq<char>>
    decreases slots,
{
    if slots.len() == 0 {
        Seq::empty()
    } else {
        sp_slots_refs(slots.subrange(0, slots.len() - 1)) + sp_doc_refs(
            slots[slots.len() - 1].1,
        )
    }
}

/// Makes a component and everything it references renderable: parses it,
/// then every component its tree references, down to the recursion
/// budget; a spent budget is the same recursion-limit failure rendering
/// would reach.
pub open spec fn sp_ensure(reg: SpecRegistry, name: Seq<char>, b: nat) -> (
    SpecRegistry,
    Option<SpecErr>,
)
    decreases b, 1int, 0int,
{
    let (reg1, e) = sp_parse(reg, name);
    match e {
        Some(err) => (reg1, Some(err)),
        None => {
            if !reg1.contains_key(name) {
                (reg1, Some(SpecErr::UnknownComponent(name)))
            } else {
                match reg1[name] {
                    SpecComp::Unparsed(_) => (reg1, Some(SpecErr::UnknownComponent(name))),
                    SpecComp::Parsed(doc) => sp_ensure_list(
                        reg1,
                        sp_doc_refs(doc.children),
                        name,
                        b,
                    ),
                }
            }
        },
    }
}

pub open spec fn sp_ensure_list(
    reg: SpecRegistry,
    refs: Seq<Seq<char>>,
    parent: Seq<char>,
    b: nat,
) -> (SpecRegistry, Option<SpecErr>)
    decreases b, 0int, refs.len(),
{
    if refs.len() == 0 {
        (reg, None)
    } else if b == 0 {
        (reg, Some(SpecErr::RecursionLimitExceeded { component: refs[0], parent: Some(parent) }))
    } else {
        let (reg1, e) = sp_ensure(reg, refs[0], (b - 1) as nat);
        match e {
            Some(err) => (reg1, Some(err)),
            None => sp_ensure_list(reg1, refs.subrange(1, refs.len() as int), parent, b),
        }
    }
}

/// What `render` does, whole: make the component renderable, then walk
/// its tree with the bindings, an empty overlay, and the budget.
pub open spec fn sp_render_full<T: Transform>(
    reg: SpecRegistry,
    name: Seq<char>,
    binds: SpecBinds,
    b: nat,
    t: &T,
) -> (SpecRegistry, Result<Seq<char>, SpecErr>) {
    let (reg1, e) = sp_ensure(reg, name, b);
    match e {
        Some(err) => (reg1, Err(err)),
        None => (
            reg1,
            sp_render_component(reg1, name, binds, Seq::<(Seq<char>, Seq<SpecElem>)>::empty(), b, t),
        ),
    }
}

/// What registering a binding list means: each pair in order, later
/// pairs winning.
pub open spec fn binds_view(s: Seq<(String, String)>) -> SpecBinds
    decreases s.len(),
{
    if s.len() == 0 {
        Map::empty()
    } else {
        binds_view(s.subrange(0, s.len() - 1)).insert(s[s.len() - 1].0@, s[s.len() - 1].1@)
    }
}

} // verus!
