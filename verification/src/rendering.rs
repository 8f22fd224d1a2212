//! The executable renderer: walks a parsed tree with bindings, a
//! recursion budget, and a transform hook, proved to produce exactly what
//! the rendering specification says.

use vstd::prelude::*;

use crate::ast::{Element};
use crate::chars::{chars_to_string, str_eq, str_to_chars};
use crate::model::{assoc_get, attrs_view, elems_view, slots_view, SpecElem};
use crate::parse_spec::SpecErr;
use crate::render_spec::{
    binds_view, sp_attr_text, sp_attrs_text, sp_bind_attrs, sp_doc_refs, sp_el_refs, sp_ensure,
    sp_ensure_list, sp_render_component, sp_render_el, sp_render_elems, sp_render_full,
    sp_slots_refs, sp_var_text, SpecBinds, Transform,
};
use crate::{cache_view, ComponentsCache, LazyDom, VelError, VelInstance};

verus! {

/// The recursion budget a plain `render` call runs with.
pub const DEFAULT_RECURSION_LIMIT: usize = 64;

pub open spec fn names_view(s: Seq<String>) -> Seq<Seq<char>> {
    s.map_values(|n: String| n@)
}

/// Finds a binding: the latest pair of that name.
fn binds_find(binds: &Vec<(String, String)>, name: &str) -> (r: Option<usize>)
    ensures
        match r {
            Some(idx) => idx < binds@.len() && binds_view(binds@).contains_key(name@)
                && binds_view(binds@)[name@] == binds@[idx as int].1@,
            None => !binds_view(binds@).contains_key(name@),
        },
{
    let ghost s = binds@;
    let mut idx: usize = binds.len();
    proof {
        assert(s.subrange(0, s.len() as int) =~= s);
    }
    while idx > 0
        invariant
            idx <= s.len(),
            s == binds@,
            binds_view(s).contains_key(name@) == binds_view(
                s.subrange(0, idx as int),
            ).contains_key(name@),
            binds_view(s).contains_key(name@) ==> binds_view(s)[name@] == binds_view(
                s.subrange(0, idx as int),
            )[name@],
        decreases idx,
    {
        idx = idx - 1;
        proof {
            let pre = s.subrange(0, idx + 1);
            assert(pre[pre.len() - 1] == s[idx as int]);
            assert(pre.subrange(0, pre.len() - 1) =~= s.subrange(0, idx as int));
        }
        if str_eq(binds[idx].0.as_str(), name) {
            return Some(idx);
        }
    }
    proof {
        assert(s.subrange(0, 0) =~= Seq::<(String, String)>::empty());
    }
    None
}

/// What a variable renders to, executably.
fn var_text(binds: &Vec<(String, String)>, name: &str) -> (r: Vec<char>)
    ensures
        r@ == sp_var_text(binds_view(binds@), name@),
{
    match binds_find(binds, name) {
        Some(idx) => str_to_chars(binds[idx].1.as_str()),
        None => {
            let mut out: Vec<char> = Vec::new();
            out.push('{');
            let mut nc = str_to_chars(name);
            out.append(&mut nc);
            out.push('}');
            proof {
                assert(out@ =~= seq!['{'] + name@ + seq!['}']);
            }
            out
        },
    }
}

/// An attribute value rendered, executably.
fn attr_text(parts: &Vec<crate::ast::AttributeValues>, binds: &Vec<(String, String)>) -> (r: Vec<
    char,
>)
    ensures
        r@ == sp_attr_text(crate::model::parts_view(parts@), binds_view(binds@)),
{
    let ghost pv = crate::model::parts_view(parts@);
    let mut out: Vec<char> = Vec::new();
    let mut i: usize = 0;
    proof {
        assert(out@ =~= sp_attr_text(pv.subrange(0, 0), binds_view(binds@)));
    }
    while i < parts.len()
        invariant
            i <= parts.len(),
            pv == crate::model::parts_view(parts@),
            out@ == sp_attr_text(pv.subrange(0, i as int), binds_view(binds@)),
        decreases parts.len() - i,
    {
        let mut piece: Vec<char> = match &parts[i] {
            crate::ast::AttributeValues::Text(t) => str_to_chars(t.value.as_str()),
            crate::ast::AttributeValues::Variable(v) => var_text(binds, v.name.as_str()),
        };
        out.append(&mut piece);
        i = i + 1;
        proof {
            let sub = pv.subrange(0, i as int);
            assert(sub.subrange(0, sub.len() - 1) =~= pv.subrange(0, i - 1));
            assert(sub[sub.len() - 1] == pv[i - 1]);
            assert(out@ =~= sp_attr_text(sub, binds_view(binds@)));
        }
    }
    proof {
        assert(pv.subrange(0, pv.len() as int) =~= pv);
    }
    out
}

/// An attribute list serialized, executably.
fn attrs_text(attrs: &crate::ast::Attributes, binds: &Vec<(String, String)>) -> (r: Vec<char>)
    ensures
        r@ == sp_attrs_text(attrs_view(attrs@), binds_view(binds@)),
{
    let ghost av = attrs_view(attrs@);
    let mut out: Vec<char> = Vec::new();
    let mut i: usize = 0;
    proof {
        assert(out@ =~= sp_attrs_text(av.subrange(0, 0), binds_view(binds@)));
    }
    while i < attrs.len()
        invariant
            i <= attrs.len(),
            av == attrs_view(attrs@),
            av.len() == attrs@.len(),
            out@ == sp_attrs_text(av.subrange(0, i as int), binds_view(binds@)),
        decreases attrs.len() - i,
    {
        out.push(' ');
        let mut kc = str_to_chars(attrs[i].0.as_str());
        out.append(&mut kc);
        out.push('=');
        out.push('"');
        let mut vc = attr_text(&attrs[i].1, binds);
        out.append(&mut vc);
        out.push('"');
        i = i + 1;
        proof {
            let sub = av.subrange(0, i as int);
            assert(sub.subrange(0, sub.len() - 1) =~= av.subrange(0, i - 1));
            assert(sub[sub.len() - 1] == av[i - 1]);
            assert(av[i - 1].0 == attrs@[i - 1].0@);
            assert(av[i - 1].1 == crate::model::parts_view(attrs@[i - 1].1@));
            assert(out@ =~= sp_attrs_text(sub, binds_view(binds@)));
        }
    }
    proof {
        assert(av.subrange(0, av.len() as int) =~= av);
    }
    out
}

/// Two binding lists with the same names and values mean the same map.
pub proof fn lemma_binds_view_equiv(s1: Seq<(String, String)>, s2: Seq<(String, String)>)
    requires
        s1.len() == s2.len(),
        forall|i: int|
            0 <= i < s1.len() ==> (#[trigger] s1[i]).0@ == s2[i].0@ && s1[i].1@ == s2[i].1@,
    ensures
        binds_view(s1) == binds_view(s2),
    decreases s1.len(),
{
    if s1.len() > 0 {
        let p1 = s1.subrange(0, s1.len() - 1);
        let p2 = s2.subrange(0, s2.len() - 1);
        lemma_binds_view_equiv(p1, p2);
        assert(binds_view(s1) =~= binds_view(s2));
    }
}

/// A copy of a binding list, with the same view.
fn dup_binds(binds: &Vec<(String, String)>) -> (r: Vec<(String, String)>)
    ensures
        r@.len() == binds@.len(),
        forall|i: int|
            0 <= i < binds@.len() ==> (#[trigger] r@[i]).0@ == binds@[i].0@ && r@[i].1@
                == binds@[i].1@,
        binds_view(r@) == binds_view(binds@),
{
    let mut out: Vec<(String, String)> = Vec::new();
    let mut i: usize = 0;
    while i < binds.len()
        invariant
            i <= binds.len(),
            out@.len() == i,
            forall|m: int|
                0 <= m < i ==> (#[trigger] out@[m]).0@ == binds@[m].0@ && out@[m].1@
                    == binds@[m].1@,
            binds_view(out@) == binds_view(binds@.subrange(0, i as int)),
        decreases binds.len() - i,
    {
        out.push((binds[i].0.clone(), binds[i].1.clone()));
        i = i + 1;
        proof {
            let sub = binds@.subrange(0, i as int);
            lemma_binds_view_equiv(out@, sub);
        }
    }
    proof {
        assert(binds@.subrange(0, binds@.len() as int) =~= binds@);
    }
    out
}

/// Bindings augmented by a reference's usage-site attributes.
fn bind_attrs(binds: &Vec<(String, String)>, attrs: &crate::ast::Attributes) -> (r: Vec<
    (String, String),
>)
    ensures
        binds_view(r@) == sp_bind_attrs(binds_view(binds@), attrs_view(attrs@)),
{
    let ghost av = attrs_view(attrs@);
    let ghost bv = binds_view(binds@);
    let mut out = dup_binds(binds);
    let mut i: usize = 0;
    proof {
        assert(binds_view(out@) =~= sp_bind_attrs(bv, av.subrange(0, 0)));
    }
    while i < attrs.len()
        invariant
            i <= attrs.len(),
            av == attrs_view(attrs@),
            bv == binds_view(binds@),
            av.len() == attrs@.len(),
            binds_view(out@) == sp_bind_attrs(bv, av.subrange(0, i as int)),
        decreases attrs.len() - i,
    {
        let key = attrs[i].0.clone();
        let val = chars_to_string(&attr_text(&attrs[i].1, binds));
        let ghost pre = out@;
        out.push((key, val));
        i = i + 1;
        proof {
            assert(out@.subrange(0, out@.len() - 1) =~= pre);
            let sub = av.subrange(0, i as int);
            assert(sub.subrange(0, sub.len() - 1) =~= av.subrange(0, i - 1));
            assert(sub[sub.len() - 1] == av[i - 1]);
            assert(av[i - 1].0 == attrs@[i - 1].0@);
            assert(av[i - 1].1 == crate::model::parts_view(attrs@[i - 1].1@));
            assert(binds_view(out@) =~= sp_bind_attrs(bv, sub));
        }
    }
    proof {
        assert(av.subrange(0, av.len() as int) =~= av);
    }
    out
}

/// Collects the component names an element references, in order.
fn collect_el_refs(el: &Element, out: &mut Vec<String>)
    ensures
        names_view(final(out)@) == names_view(old(out)@) + sp_el_refs(el@),
    decreases el,
{
    match el {
        Element::Document(d) => {
            let ghost pre = names_view(out@);
            out.push(d.name.clone());
            proof {
                assert(names_view(out@) =~= pre.push(d.name@));
            }
            collect_slots_refs(&d.slot_content, out);
            proof {
                assert(names_view(out@) =~= names_view(old(out)@) + sp_el_refs(el@));
            }
        },
        Element::Node(n) => {
            collect_els_refs(&n.children, out);
        },
        Element::Slot(sl) => {
            collect_els_refs(&sl.children, out);
        },
        Element::Text(_) => {
            proof {
                assert(names_view(out@) =~= names_view(old(out)@) + sp_el_refs(el@));
            }
        },
        Element::Variable(_) => {
            proof {
                assert(names_view(out@) =~= names_view(old(out)@) + sp_el_refs(el@));
            }
        },
        Element::Void(_) => {
            proof {
                assert(names_view(out@) =~= names_view(old(out)@) + sp_el_refs(el@));
            }
        },
    }
}

/// Collects the component names referenced inside a slot overlay.
fn collect_slots_refs(sc: &Vec<(String, Vec<Element>)>, out: &mut Vec<String>)
    ensures
        names_view(final(out)@) == names_view(old(out)@) + sp_slots_refs(slots_view(sc@)),
    decreases sc,
{
    let ghost pre = names_view(old(out)@);
    let mut i: usize = 0;
    proof {
        crate::parsing::lemma_slots_view_index(sc@);
        assert(pre + sp_slots_refs(slots_view(sc@).subrange(0, 0)) =~= pre);
    }
    while i < sc.len()
        invariant
            i <= sc.len(),
            slots_view(sc@).len() == sc@.len(),
            forall|m: int|
                0 <= m < sc@.len() ==> slots_view(sc@)[m] == ((#[trigger] sc@[m]).0@, elems_view(
                    sc@[m].1@,
                )),
            names_view(out@) == pre + sp_slots_refs(slots_view(sc@).subrange(0, i as int)),
        decreases sc@.len() - i,
    {
        collect_els_refs(&sc[i].1, out);
        i = i + 1;
        proof {
            let sv = slots_view(sc@);
            let sub = sv.subrange(0, i as int);
            assert(sub.subrange(0, sub.len() - 1) =~= sv.subrange(0, i - 1));
            assert(sub[sub.len() - 1] == sv[i - 1]);
            assert(names_view(out@) =~= pre + sp_slots_refs(sub));
        }
    }
    proof {
        let sv = slots_view(sc@);
        assert(sv.subrange(0, sv.len() as int) =~= sv);
    }
}

/// Collects the component names a list of elements references.
fn collect_els_refs(els: &Vec<Element>, out: &mut Vec<String>)
    ensures
        names_view(final(out)@) == names_view(old(out)@) + sp_doc_refs(elems_view(els@)),
    decreases els,
{
    let ghost pre = names_view(old(out)@);
    let mut i: usize = 0;
    proof {
        crate::model::lemma_elems_view_len(els@);
        assert(pre + sp_doc_refs(elems_view(els@).subrange(0, 0)) =~= pre);
    }
    while i < els.len()
        invariant
            i <= els.len(),
            elems_view(els@).len() == els@.len(),
            forall|m: int|
                0 <= m < els@.len() ==> elems_view(els@)[m] == crate::model::elem_view(
                    #[trigger] els@[m],
                ),
            names_view(out@) == pre + sp_doc_refs(elems_view(els@).subrange(0, i as int)),
        decreases els@.len() - i,
    {
        collect_el_refs(&els[i], out);
        i = i + 1;
        proof {
            let ev = elems_view(els@);
            let sub = ev.subrange(0, i as int);
            assert(sub.subrange(0, sub.len() - 1) =~= ev.subrange(0, i - 1));
            assert(sub[sub.len() - 1] == ev[i - 1]);
            assert(names_view(out@) =~= pre + sp_doc_refs(sub));
        }
    }
    proof {
        let ev = elems_view(els@);
        assert(ev.subrange(0, ev.len() as int) =~= ev);
    }
}

/// Makes a component and everything it references renderable: parses it,
/// then every component its tree references, down to the recursion
/// budget.
fn ensure_parsed(components: &mut ComponentsCache, name: &str, b: usize) -> (r: Result<
    (),
    VelError,
>)
    ensures
        ({
            let out = sp_ensure(cache_view(old(components)@), name@, b as nat);
            &&& cache_view(final(components)@) == out.0
            &&& match r {
                Ok(()) => out.1 is None,
                Err(err) => out.1 == Some(err@),
            }
        }),
    decreases b,
{
    let ghost reg0 = cache_view(components@);
    match crate::parsing::parse(name, components) {
        Err(e) => {
            return Err(e);
        },
        Ok(()) => {},
    }
    let ghost reg1 = cache_view(components@);
    let found = crate::cache_find(components, name);
    let refs: Vec<String>;
    match found {
        None => {
            return Err(
                VelError::UnknownComponent(chars_to_string(&str_to_chars(name))),
            );
        },
        Some(idx) => {
            match &components[idx].1 {
                LazyDom::Unparsed(_) => {
                    return Err(
                        VelError::UnknownComponent(chars_to_string(&str_to_chars(name))),
                    );
                },
                LazyDom::Parsed(dom) => {
                    let mut acc: Vec<String> = Vec::new();
                    collect_els_refs(&dom.tree.children, &mut acc);
                    proof {
                        assert(names_view(Seq::<String>::empty()) =~= Seq::<Seq<char>>::empty());
                        assert(names_view(acc@) =~= sp_doc_refs(
                            reg1[name@]->Parsed_0.children,
                        ));
                    }
                    refs = acc;
                },
            }
        },
    }
    let ghost refs_v = names_view(refs@);
    let mut i: usize = 0;
    proof {
        assert(refs_v.subrange(0, refs_v.len() as int) =~= refs_v);
        assert(sp_ensure(reg0, name@, b as nat) == sp_ensure_list(reg1, refs_v, name@, b as nat));
    }
    while i < refs.len()
        invariant
            i <= refs.len(),
            refs_v == names_view(refs@),
            refs_v.len() == refs@.len(),
            sp_ensure(cache_view(old(components)@), name@, b as nat) == sp_ensure_list(
                reg1,
                refs_v,
                name@,
                b as nat,
            ),
            sp_ensure_list(reg1, refs_v, name@, b as nat) == sp_ensure_list(
                cache_view(components@),
                refs_v.subrange(i as int, refs_v.len() as int),
                name@,
                b as nat,
            ),
        decreases refs.len() - i,
    {
        let ghost tail = refs_v.subrange(i as int, refs_v.len() as int);
        proof {
            assert(tail[0] == refs_v[i as int]);
            assert(tail.subrange(1, tail.len() as int) =~= refs_v.subrange(
                i + 1,
                refs_v.len() as int,
            ));
            assert(refs_v[i as int] == refs@[i as int]@);
        }
        if b == 0 {
            let component = refs[i].clone();
            let parent = chars_to_string(&str_to_chars(name));
            return Err(VelError::RecursionLimitExceeded { component, parent: Some(parent) });
        }
        match ensure_parsed(components, refs[i].as_str(), b - 1) {
            Err(e) => {
                return Err(e);
            },
            Ok(()) => {},
        }
        i = i + 1;
    }
    proof {
        assert(refs_v.subrange(refs_v.len() as int, refs_v.len() as int) =~= Seq::<
            Seq<char>,
        >::empty());
    }
    Ok(())
}

/// An earlier failure decides the whole list.
pub proof fn lemma_render_elems_err<T: Transform>(
    reg: crate::model::SpecRegistry,
    els: Seq<SpecElem>,
    cur: Seq<char>,
    binds: SpecBinds,
    overlay: Seq<(Seq<char>, Seq<SpecElem>)>,
    b: nat,
    t: &T,
    i: int,
)
    requires
        0 <= i <= els.len(),
        sp_render_elems(reg, els.subrange(0, i), cur, binds, overlay, b, t) is Err,
    ensures
        sp_render_elems(reg, els, cur, binds, overlay, b, t) == sp_render_elems(
            reg,
            els.subrange(0, i),
            cur,
            binds,
            overlay,
            b,
            t,
        ),
    decreases els.len() - i,
{
    if i < els.len() {
        assert(els.subrange(0, i + 1).subrange(0, i) =~= els.subrange(0, i));
        assert(els.subrange(0, i + 1)[i] == els[i]);
        lemma_render_elems_err(reg, els, cur, binds, overlay, b, t, i + 1);
    } else {
        assert(els.subrange(0, els.len() as int) =~= els);
    }
}

/// Finds the overlay entry a slot key matches: the latest entry.
fn slot_find(overlay: &Vec<(String, Vec<Element>)>, key: &str) -> (r: Option<usize>)
    ensures
        match r {
            Some(idx) => idx < overlay@.len() && assoc_get(slots_view(overlay@), key@) == Some(
                elems_view(overlay@[idx as int].1@),
            ),
            None => assoc_get(slots_view(overlay@), key@) is None,
        },
{
    let ghost sv = slots_view(overlay@);
    proof {
        crate::parsing::lemma_slots_view_index(overlay@);
        assert(sv.subrange(0, sv.len() as int) =~= sv);
    }
    let mut idx: usize = overlay.len();
    while idx > 0
        invariant
            idx <= overlay@.len(),
            sv == slots_view(overlay@),
            sv.len() == overlay@.len(),
            forall|m: int|
                0 <= m < overlay@.len() ==> sv[m] == ((#[trigger] overlay@[m]).0@, elems_view(
                    overlay@[m].1@,
                )),
            assoc_get(sv, key@) == assoc_get(sv.subrange(0, idx as int), key@),
        decreases idx,
    {
        idx = idx - 1;
        proof {
            let pre = sv.subrange(0, idx + 1);
            assert(pre[pre.len() - 1] == sv[idx as int]);
            assert(pre.subrange(0, pre.len() - 1) =~= sv.subrange(0, idx as int));
        }
        if str_eq(overlay[idx].0.as_str(), key) {
            return Some(idx);
        }
    }
    proof {
        assert(sv.subrange(0, 0) =~= Seq::<(Seq<char>, Seq<SpecElem>)>::empty());
    }
    None
}

/// Renders a list of elements in order, concatenating; the first failure
/// aborts.
#[verifier::rlimit(100)]
fn render_elems<T: Transform>(
    components: &ComponentsCache,
    els: &Vec<Element>,
    cur: &str,
    binds: &Vec<(String, String)>,
    overlay: &Vec<(String, Vec<Element>)>,
    b: usize,
    t: &T,
) -> (r: Result<Vec<char>, VelError>)
    ensures
        ({
            let spec = sp_render_elems(
                cache_view(components@),
                elems_view(els@),
                cur@,
                binds_view(binds@),
                slots_view(overlay@),
                b as nat,
                t,
            );
            match r {
                Ok(v) => spec == Ok::<Seq<char>, SpecErr>(v@),
                Err(e) => spec == Err::<Seq<char>, SpecErr>(e@),
            }
        }),
    decreases b, overlay@.len(), 0int, els,
{
    let ghost ev = elems_view(els@);
    let mut out: Vec<char> = Vec::new();
    let mut i: usize = 0;
    proof {
        crate::model::lemma_elems_view_len(els@);
        assert(ev.subrange(0, 0) =~= Seq::<SpecElem>::empty());
    }
    while i < els.len()
        invariant
            i <= els.len(),
            ev == elems_view(els@),
            ev.len() == els@.len(),
            forall|m: int|
                0 <= m < els@.len() ==> ev[m] == crate::model::elem_view(#[trigger] els@[m]),
            sp_render_elems(
                cache_view(components@),
                ev.subrange(0, i as int),
                cur@,
                binds_view(binds@),
                slots_view(overlay@),
                b as nat,
                t,
            ) == Ok::<Seq<char>, SpecErr>(out@),
        decreases els@.len() - i,
    {
        proof {
            assert(decreases_to!(els => els@[i as int]));
        }
        let sub = render_el(components, &els[i], cur, binds, overlay, b, t);
        match sub {
            Err(e) => {
                proof {
                    assert(ev.subrange(0, i + 1).subrange(0, i as int) =~= ev.subrange(
                        0,
                        i as int,
                    ));
                    assert(ev.subrange(0, i + 1)[i as int] == ev[i as int]);
                    lemma_render_elems_err(
                        cache_view(components@),
                        ev,
                        cur@,
                        binds_view(binds@),
                        slots_view(overlay@),
                        b as nat,
                        t,
                        i + 1,
                    );
                }
                return Err(e);
            },
            Ok(mut v) => {
                out.append(&mut v);
                i = i + 1;
                proof {
                    assert(ev.subrange(0, i as int).subrange(0, i - 1) =~= ev.subrange(
                        0,
                        i - 1,
                    ));
                    assert(ev.subrange(0, i as int)[i - 1] == ev[i - 1]);
                }
            },
        }
    }
    proof {
        assert(ev.subrange(0, ev.len() as int) =~= ev);
    }
    Ok(out)
}

/// Renders one element, as the rendering specification says.
#[verifier::rlimit(100)]
fn render_el<T: Transform>(
    components: &ComponentsCache,
    el: &Element,
    cur: &str,
    binds: &Vec<(String, String)>,
    overlay: &Vec<(String, Vec<Element>)>,
    b: usize,
    t: &T,
) -> (r: Result<Vec<char>, VelError>)
    ensures
        ({
            let spec = sp_render_el(
                cache_view(components@),
                el@,
                cur@,
                binds_view(binds@),
                slots_view(overlay@),
                b as nat,
                t,
            );
            match r {
                Ok(v) => spec == Ok::<Seq<char>, SpecErr>(v@),
                Err(e) => spec == Err::<Seq<char>, SpecErr>(e@),
            }
        }),
    decreases b, overlay@.len(), 0int, el,
{
    match el {
        Element::Text(tx) => Ok(str_to_chars(tx.value.as_str())),
        Element::Variable(v) => Ok(var_text(binds, v.name.as_str())),
        Element::Slot(sl) => {
            match slot_find(overlay, sl.name.as_str()) {
                Some(idx) => {
                    let empty_overlay: Vec<(String, Vec<Element>)> = Vec::new();
                    proof {
                        assert(slots_view(empty_overlay@) =~= slots_view(overlay@).subrange(
                            0,
                            0,
                        ));
                        assert(overlay@.len() > 0);
                    }
                    render_elems(components, &overlay[idx].1, cur, binds, &empty_overlay, b, t)
                },
                None => {
                    proof {
                        assert(decreases_to!(el => el->Slot_0));
                        assert(decreases_to!(el->Slot_0 => el->Slot_0.children));
                    }
                    render_elems(components, &sl.children, cur, binds, overlay, b, t)
                },
            }
        },
        Element::Document(d) => {
            if b == 0 {
                let parent = chars_to_string(&str_to_chars(cur));
                return Err(
                    VelError::RecursionLimitExceeded {
                        component: d.name.clone(),
                        parent: Some(parent),
                    },
                );
            }
            let binds2 = bind_attrs(binds, &d.attributes);
            match crate::cache_find(components, d.name.as_str()) {
                None => Err(VelError::UnknownComponent(d.name.clone())),
                Some(idx) => {
                    match &components[idx].1 {
                        LazyDom::Unparsed(_) => Err(VelError::UnknownComponent(d.name.clone())),
                        LazyDom::Parsed(dom) => {
                            let sub = render_elems(
                                components,
                                &dom.tree.children,
                                d.name.as_str(),
                                &binds2,
                                &d.slot_content,
                                b - 1,
                                t,
                            );
                            sub
                        },
                    }
                },
            }
        },
        Element::Node(n) => {
            match t.apply(el) {
                None => Ok(Vec::new()),
                Some(e2) => {
                    match e2 {
                        Element::Node(n2) => {
                            proof {
                                assert(decreases_to!(el => el->Node_0));
                                assert(decreases_to!(el->Node_0 => el->Node_0.children));
                            }
                            match render_elems(components, &n.children, cur, binds, overlay, b, t) {
                                Err(e) => Err(e),
                                Ok(kids) => {
                                    let mut out: Vec<char> = Vec::new();
                                    out.push('<');
                                    let mut nm = str_to_chars(n2.name.as_str());
                                    out.append(&mut nm);
                                    let mut at = attrs_text(&n2.attributes, binds);
                                    out.append(&mut at);
                                    out.push('>');
                                    let mut kv = kids;
                                    out.append(&mut kv);
                                    out.push('<');
                                    out.push('/');
                                    let mut nm2 = str_to_chars(n2.name.as_str());
                                    out.append(&mut nm2);
                                    out.push('>');
                                    proof {
                                        assert(out@ =~= seq!['<'] + n2.name@ + sp_attrs_text(
                                            attrs_view(n2.attributes@),
                                            binds_view(binds@),
                                        ) + seq!['>'] + elems_render_ok(
                                            cache_view(components@),
                                            elems_view(n.children@),
                                            cur@,
                                            binds_view(binds@),
                                            slots_view(overlay@),
                                            b as nat,
                                            t,
                                        ) + seq!['<', '/'] + n2.name@ + seq!['>']);
                                    }
                                    Ok(out)
                                },
                            }
                        },
                        Element::Void(v2) => {
                            let mut out: Vec<char> = Vec::new();
                            out.push('<');
                            let mut nm = str_to_chars(v2.name.as_str());
                            out.append(&mut nm);
                            let mut at = attrs_text(&v2.attributes, binds);
                            out.append(&mut at);
                            out.push('/');
                            out.push('>');
                            proof {
                                assert(out@ =~= seq!['<'] + v2.name@ + sp_attrs_text(
                                    attrs_view(v2.attributes@),
                                    binds_view(binds@),
                                ) + seq!['/', '>']);
                            }
                            Ok(out)
                        },
                        Element::Text(tx2) => Ok(str_to_chars(tx2.value.as_str())),
                        Element::Variable(v2) => Ok(var_text(binds, v2.name.as_str())),
                        _ => Ok(Vec::new()),
                    }
                },
            }
        },
        Element::Void(_) => {
            match t.apply(el) {
                None => Ok(Vec::new()),
                Some(e2) => {
                    match e2 {
                        Element::Void(v2) => {
                            let mut out: Vec<char> = Vec::new();
                            out.push('<');
                            let mut nm = str_to_chars(v2.name.as_str());
                            out.append(&mut nm);
                            let mut at = attrs_text(&v2.attributes, binds);
                            out.append(&mut at);
                            out.push('/');
                            out.push('>');
                            proof {
                                assert(out@ =~= seq!['<'] + v2.name@ + sp_attrs_text(
                                    attrs_view(v2.attributes@),
                                    binds_view(binds@),
                                ) + seq!['/', '>']);
                            }
                            Ok(out)
                        },
                        Element::Node(n2) => {
                            let mut out: Vec<char> = Vec::new();
                            out.push('<');
                            let mut nm = str_to_chars(n2.name.as_str());
                            out.append(&mut nm);
                            let mut at = attrs_text(&n2.attributes, binds);
                            out.append(&mut at);
                            out.push('>');
                            out.push('<');
                            out.push('/');
                            let mut nm2 = str_to_chars(n2.name.as_str());
                            out.append(&mut nm2);
                            out.push('>');
                            proof {
                                assert(out@ =~= seq!['<'] + n2.name@ + sp_attrs_text(
                                    attrs_view(n2.attributes@),
                                    binds_view(binds@),
                                ) + seq!['>'] + seq!['<', '/'] + n2.name@ + seq!['>']);
                            }
                            Ok(out)
                        },
                        Element::Text(tx2) => Ok(str_to_chars(tx2.value.as_str())),
                        Element::Variable(v2) => Ok(var_text(binds, v2.name.as_str())),
                        _ => Ok(Vec::new()),
                    }
                },
            }
        },
    }
}

/// The text a successful list render produces.
pub open spec fn elems_render_ok<T: Transform>(
    reg: crate::model::SpecRegistry,
    els: Seq<SpecElem>,
    cur: Seq<char>,
    binds: SpecBinds,
    overlay: Seq<(Seq<char>, Seq<SpecElem>)>,
    b: nat,
    t: &T,
) -> Seq<char> {
    sp_render_elems(reg, els, cur, binds, overlay, b, t)->Ok_0
}

/// The transform that keeps every element unchanged: rendering with it
/// is plain rendering.
pub struct KeepAll {}

impl Transform for KeepAll {
    open spec fn spec_apply(&self, element: SpecElem) -> Option<SpecElem> {
        Some(element)
    }

    fn apply(&self, element: &Element) -> (r: Option<Element>) {
        Some(element.duplicate())
    }
}

/// The transform that removes every element of one tag name, and its
/// whole subtree, keeping everything else.
pub struct DropNamed {
    pub name: String,
}

impl DropNamed {
    pub fn new(name: String) -> (r: Self)
        ensures
            r.name@ == name@,
    {
        DropNamed { name }
    }
}

pub open spec fn spec_elem_name(element: SpecElem) -> Seq<char> {
    match element {
        SpecElem::Doc(d) => d.name,
        SpecElem::Node(n) => n.name,
        SpecElem::Slot(sl) => sl.key,
        SpecElem::Text(_) => Seq::empty(),
        SpecElem::Var(v) => v,
        SpecElem::Void(v) => v.name,
    }
}

impl Transform for DropNamed {
    open spec fn spec_apply(&self, element: SpecElem) -> Option<SpecElem> {
        if spec_elem_name(element) == self.name@ {
            None
        } else {
            Some(element)
        }
    }

    fn apply(&self, element: &Element) -> (r: Option<Element>) {
        let ename: &str = match element {
            Element::Document(d) => d.name.as_str(),
            Element::Node(n) => n.name.as_str(),
            Element::Slot(sl) => sl.name.as_str(),
            Element::Text(_) => "",
            Element::Variable(v) => v.name.as_str(),
            Element::Void(v) => v.name.as_str(),
        };
        proof {
            reveal_strlit("");
            assert(ename@ == spec_elem_name(element@));
        }
        if str_eq(ename, self.name.as_str()) {
            None
        } else {
            Some(element.duplicate())
        }
    }
}

impl VelInstance {
    /// Ensures a component is parsed: a no-op when it already is.
    pub fn parse(&mut self, component: String) -> (r: Result<(), VelError>)
        ensures
            ({
                let out = crate::parse_spec::sp_parse(old(self)@, component@);
                &&& final(self)@ == out.0
                &&& match r {
                    Ok(()) => out.1 is None,
                    Err(err) => out.1 == Some(err@),
                }
            }),
    {
        crate::parsing::parse(component.as_str(), &mut self.components)
    }

    /// Renders a component under the given bindings and transform hook,
    /// with an explicit recursion budget.
    pub fn render_with_limit<T: Transform>(
        &mut self,
        component: String,
        inputs: Vec<(String, String)>,
        rendering_callback: &T,
        limit: usize,
    ) -> (r: Result<String, VelError>)
        ensures
            ({
                let out = sp_render_full(
                    old(self)@,
                    component@,
                    binds_view(inputs@),
                    limit as nat,
                    rendering_callback,
                );
                &&& final(self)@ == out.0
                &&& match r {
                    Ok(text) => out.1 == Ok::<Seq<char>, SpecErr>(text@),
                    Err(err) => out.1 == Err::<Seq<char>, SpecErr>(err@),
                }
            }),
    {
        match ensure_parsed(&mut self.components, component.as_str(), limit) {
            Err(e) => Err(e),
            Ok(()) => {
                let empty_overlay: Vec<(String, Vec<Element>)> = Vec::new();
                proof {
                    assert(slots_view(empty_overlay@) =~= Seq::<
                        (Seq<char>, Seq<SpecElem>),
                    >::empty());
                }
                match crate::cache_find(&self.components, component.as_str()) {
                    None => Err(VelError::UnknownComponent(component)),
                    Some(idx) => {
                        match &self.components[idx].1 {
                            LazyDom::Unparsed(_) => Err(VelError::UnknownComponent(component)),
                            LazyDom::Parsed(dom) => {
                                match render_elems(
                                    &self.components,
                                    &dom.tree.children,
                                    component.as_str(),
                                    &inputs,
                                    &empty_overlay,
                                    limit,
                                    rendering_callback,
                                ) {
                                    Err(e) => Err(e),
                                    Ok(v) => Ok(chars_to_string(&v)),
                                }
                            },
                        }
                    },
                }
            },
        }
    }

    /// Renders a component under the given bindings and transform hook,
    /// with the default recursion budget.
    pub fn render<T: Transform>(
        &mut self,
        component: String,
        inputs: Vec<(String, String)>,
        rendering_callback: &T,
    ) -> (r: Result<String, VelError>)
        ensures
            ({
                let out = sp_render_full(
                    old(self)@,
                    component@,
                    binds_view(inputs@),
                    DEFAULT_RECURSION_LIMIT as nat,
                    rendering_callback,
                );
                &&& final(self)@ == out.0
                &&& match r {
                    Ok(text) => out.1 == Ok::<Seq<char>, SpecErr>(text@),
                    Err(err) => out.1 == Err::<Seq<char>, SpecErr>(err@),
                }
            }),
    {
        self.render_with_limit(component, inputs, rendering_callback, DEFAULT_RECURSION_LIMIT)
    }
}

/// An element printed back in source-like form: variables as `{name}`,
/// attributes with unresolved variables kept, a slot placeholder with its
/// key as a `name` attribute. A call-site Document prints its name tag
/// and children; its slot overlay is not part of the printed form.
pub open spec fn sp_serialise_el(el: SpecElem) -> Seq<char>
    decreases el,
{
    match el {
        SpecElem::Text(tx) => tx,
        SpecElem::Var(n) => seq!['{'] + n + seq!['}'],
        SpecElem::Slot(sl) => seq!['<', 'S', 'l', 'o', 't'] + seq![' ', 'n', 'a', 'm', 'e', '=', '"']
            + sl.key + seq!['"'] + sp_attrs_text(sl.attrs, Map::empty()) + seq!['>']
            + sp_serialise_els(sl.children) + seq!['<', '/', 'S', 'l', 'o', 't', '>'],
        SpecElem::Doc(d) => seq!['<'] + d.name + sp_attrs_text(d.attrs, Map::empty()) + seq!['>']
            + sp_serialise_els(d.children) + seq!['<', '/'] + d.name + seq!['>'],
        SpecElem::Node(n) => seq!['<'] + n.name + sp_attrs_text(n.attrs, Map::empty()) + seq!['>']
            + sp_serialise_els(n.children) + seq!['<', '/'] + n.name + seq!['>'],
        SpecElem::Void(v) => seq!['<'] + v.name + sp_attrs_text(v.attrs, Map::empty()) + seq![
            '/',
            '>',
        ],
    }
}

pub open spec fn sp_serialise_els(els: Seq<SpecElem>) -> Seq<char>
    decreases els,
{
    if els.len() == 0 {
        Seq::empty()
    } else {
        sp_serialise_els(els.subrange(0, els.len() - 1)) + sp_serialise_el(els[els.len() - 1])
    }
}

fn serialise_els(els: &Vec<Element>) -> (r: Vec<char>)
    ensures
        r@ == sp_serialise_els(elems_view(els@)),
    decreases els,
{
    let ghost ev = elems_view(els@);
    let mut out: Vec<char> = Vec::new();
    let mut i: usize = 0;
    proof {
        crate::model::lemma_elems_view_len(els@);
        assert(out@ =~= sp_serialise_els(ev.subrange(0, 0)));
    }
    while i < els.len()
        invariant
            i <= els.len(),
            ev == elems_view(els@),
            ev.len() == els@.len(),
            forall|m: int|
                0 <= m < els@.len() ==> ev[m] == crate::model::elem_view(#[trigger] els@[m]),
            out@ == sp_serialise_els(ev.subrange(0, i as int)),
        decreases els@.len() - i,
    {
        proof {
            assert(decreases_to!(els => els@[i as int]));
        }
        let mut piece = els[i].serialise_chars();
        out.append(&mut piece);
        i = i + 1;
        proof {
            let sub = ev.subrange(0, i as int);
            assert(sub.subrange(0, sub.len() - 1) =~= ev.subrange(0, i - 1));
            assert(sub[sub.len() - 1] == ev[i - 1]);
            assert(out@ =~= sp_serialise_els(sub));
        }
    }
    proof {
        assert(ev.subrange(0, ev.len() as int) =~= ev);
    }
    out
}

impl Element {
    fn serialise_chars(&self) -> (r: Vec<char>)
        ensures
            r@ == sp_serialise_el(self@),
        decreases self,
    {
        let empty_binds: Vec<(String, String)> = Vec::new();
        proof {
            assert(binds_view(empty_binds@) =~= Map::<Seq<char>, Seq<char>>::empty());
        }
        match self {
            Element::Text(tx) => str_to_chars(tx.value.as_str()),
            Element::Variable(v) => {
                let mut out: Vec<char> = Vec::new();
                out.push('{');
                let mut nc = str_to_chars(v.name.as_str());
                out.append(&mut nc);
                out.push('}');
                proof {
                    assert(out@ =~= seq!['{'] + v.name@ + seq!['}']);
                }
                out
            },
            Element::Slot(sl) => {
                let mut out = str_to_chars("<Slot name=\"");
                proof {
                    reveal_strlit("<Slot name=\"");
                    assert(out@ =~= seq!['<', 'S', 'l', 'o', 't'] + seq![
                        ' ',
                        'n',
                        'a',
                        'm',
                        'e',
                        '=',
                        '"',
                    ]);
                }
                let mut kc = str_to_chars(sl.name.as_str());
                out.append(&mut kc);
                out.push('"');
                let mut at = attrs_text(&sl.attributes, &empty_binds);
                out.append(&mut at);
                out.push('>');
                let mut kids = serialise_els(&sl.children);
                out.append(&mut kids);
                let mut close = str_to_chars("</Slot>");
                proof {
                    reveal_strlit("</Slot>");
                }
                out.append(&mut close);
                proof {
                    assert(out@ =~= sp_serialise_el(self@));
                }
                out
            },
            Element::Document(d) => {
                let mut out: Vec<char> = Vec::new();
                out.push('<');
                let mut nm = str_to_chars(d.name.as_str());
                out.append(&mut nm);
                let mut at = attrs_text(&d.attributes, &empty_binds);
                out.append(&mut at);
                out.push('>');
                let mut kids = serialise_els(&d.children);
                out.append(&mut kids);
                out.push('<');
                out.push('/');
                let mut nm2 = str_to_chars(d.name.as_str());
                out.append(&mut nm2);
                out.push('>');
                proof {
                    assert(out@ =~= sp_serialise_el(self@));
                }
                out
            },
            Element::Node(n) => {
                let mut out: Vec<char> = Vec::new();
                out.push('<');
                let mut nm = str_to_chars(n.name.as_str());
                out.append(&mut nm);
                let mut at = attrs_text(&n.attributes, &empty_binds);
                out.append(&mut at);
                out.push('>');
                let mut kids = serialise_els(&n.children);
                out.append(&mut kids);
                out.push('<');
                out.push('/');
                let mut nm2 = str_to_chars(n.name.as_str());
                out.append(&mut nm2);
                out.push('>');
                proof {
                    assert(out@ =~= sp_serialise_el(self@));
                }
                out
            },
            Element::Void(v) => {
                let mut out: Vec<char> = Vec::new();
                out.push('<');
                let mut nm = str_to_chars(v.name.as_str());
                out.append(&mut nm);
                let mut at = attrs_text(&v.attributes, &empty_binds);
                out.append(&mut at);
                out.push('/');
                out.push('>');
                proof {
                    assert(out@ =~= sp_serialise_el(self@));
                }
                out
            },
        }
    }

    /// Prints the element back in source-like form.
    pub fn serialise(&self) -> (r: String)
        ensures
            r@ == sp_serialise_el(self@),
    {
        chars_to_string(&self.serialise_chars())
    }
}

/// No variable pieces anywhere in an attribute list.
pub open spec fn sp_static_attrs(attrs: crate::model::SpecAttrs) -> bool {
    forall|i: int, j: int|
        0 <= i < attrs.len() && 0 <= j < attrs[i].1.len() ==> (#[trigger] attrs[i].1[j]) is Lit
}

/// No Variable, component-reference or Slot elements, and no variable
/// pieces in attributes, anywhere in the tree.
pub open spec fn sp_static_el(el: SpecElem) -> bool
    decreases el,
{
    match el {
        SpecElem::Text(_) => true,
        SpecElem::Var(_) => false,
        SpecElem::Slot(_) => false,
        SpecElem::Doc(_) => false,
        SpecElem::Node(n) => sp_static_attrs(n.attrs) && sp_static_els(n.children),
        SpecElem::Void(v) => sp_static_attrs(v.attrs),
    }
}

pub open spec fn sp_static_els(els: Seq<SpecElem>) -> bool
    decreases els,
{
    if els.len() == 0 {
        true
    } else {
        sp_static_els(els.subrange(0, els.len() - 1)) && sp_static_el(els[els.len() - 1])
    }
}

pub proof fn lemma_attr_text_static(
    parts: Seq<crate::model::SpecAttrPart>,
    b1: SpecBinds,
    b2: SpecBinds,
)
    requires
        forall|j: int| 0 <= j < parts.len() ==> (#[trigger] parts[j]) is Lit,
    ensures
        sp_attr_text(parts, b1) == sp_attr_text(parts, b2),
    decreases parts.len(),
{
    if parts.len() > 0 {
        let pre = parts.subrange(0, parts.len() - 1);
        assert(forall|j: int| 0 <= j < pre.len() ==> (#[trigger] pre[j]) is Lit);
        lemma_attr_text_static(pre, b1, b2);
    }
}

pub proof fn lemma_attrs_text_static(attrs: crate::model::SpecAttrs, b1: SpecBinds, b2: SpecBinds)
    requires
        sp_static_attrs(attrs),
    ensures
        sp_attrs_text(attrs, b1) == sp_attrs_text(attrs, b2),
    decreases attrs.len(),
{
    if attrs.len() > 0 {
        let pre = attrs.subrange(0, attrs.len() - 1);
        assert(sp_static_attrs(pre)) by {
            assert(forall|i: int, j: int|
                0 <= i < pre.len() && 0 <= j < pre[i].1.len() ==> pre[i] == attrs[i]
                    && (#[trigger] pre[i].1[j]) == attrs[i].1[j]);
        }
        lemma_attrs_text_static(pre, b1, b2);
        lemma_attr_text_static(attrs[attrs.len() - 1].1, b1, b2);
    }
}

/// Rendering a tree with no Variable, component-reference or Slot
/// elements does not depend on the bindings, for any transform hook that
/// keeps such trees free of them; and, the renderer being a function of
/// its inputs, it is deterministic across calls.
pub proof fn lemma_render_static_el<T: Transform>(
    reg: crate::model::SpecRegistry,
    el: SpecElem,
    cur: Seq<char>,
    b1: SpecBinds,
    b2: SpecBinds,
    overlay: Seq<(Seq<char>, Seq<SpecElem>)>,
    bud: nat,
    t: &T,
)
    requires
        sp_static_el(el),
        forall|e: SpecElem|
            sp_static_el(e) && (#[trigger] t.spec_apply(e)) is Some ==> sp_static_el(
                t.spec_apply(e)->Some_0,
            ),
    ensures
        sp_render_el(reg, el, cur, b1, overlay, bud, t) == sp_render_el(
            reg,
            el,
            cur,
            b2,
            overlay,
            bud,
            t,
        ),
    decreases el,
{
    match el {
        SpecElem::Node(n) => {
            match t.spec_apply(el) {
                None => {},
                Some(e2) => {
                    lemma_render_static_els(reg, n.children, cur, b1, b2, overlay, bud, t);
                    match e2 {
                        SpecElem::Node(n2) => {
                            lemma_attrs_text_static(n2.attrs, b1, b2);
                        },
                        SpecElem::Void(v2) => {
                            lemma_attrs_text_static(v2.attrs, b1, b2);
                        },
                        _ => {},
                    }
                },
            }
        },
        SpecElem::Void(v) => {
            match t.spec_apply(el) {
                None => {},
                Some(e2) => {
                    match e2 {
                        SpecElem::Node(n2) => {
                            lemma_attrs_text_static(n2.attrs, b1, b2);
                        },
                        SpecElem::Void(v2) => {
                            lemma_attrs_text_static(v2.attrs, b1, b2);
                        },
                        _ => {},
                    }
                },
            }
        },
        _ => {},
    }
}

pub proof fn lemma_render_static_els<T: Transform>(
    reg: crate::model::SpecRegistry,
    els: Seq<SpecElem>,
    cur: Seq<char>,
    b1: SpecBinds,
    b2: SpecBinds,
    overlay: Seq<(Seq<char>, Seq<SpecElem>)>,
    bud: nat,
    t: &T,
)
    requires
        sp_static_els(els),
        forall|e: SpecElem|
            sp_static_el(e) && (#[trigger] t.spec_apply(e)) is Some ==> sp_static_el(
                t.spec_apply(e)->Some_0,
            ),
    ensures
        sp_render_elems(reg, els, cur, b1, overlay, bud, t) == sp_render_elems(
            reg,
            els,
            cur,
            b2,
            overlay,
            bud,
            t,
        ),
    decreases els,
{
    if els.len() > 0 {
        lemma_render_static_els(reg, els.subrange(0, els.len() - 1), cur, b1, b2, overlay, bud, t);
        lemma_render_static_el(reg, els[els.len() - 1], cur, b1, b2, overlay, bud, t);
    }
}

} // verus!
