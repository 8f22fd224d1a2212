//! The executable parser: a frame stack driven one character at a time,
//! proved to follow the specified machine step for step.

use vstd::prelude::*;

use crate::ast::{AttributeValues, Attributes, Document, Element, Node, Slot, Text, Variable, Void};
use crate::chars::{
    chars_to_string, find_char, is_upper_char, key_end, skip_ws, str_eq, sub_chars, ws_end,
};
use crate::model::{
    assoc_get, attrs_view, elems_view, parts_view, slots_view, SpecAttrPart, SpecAttrs, SpecDoc,
    SpecElem,
};
use crate::parse_spec::{sp_classify, sp_tag_end, SpecBuild, SpecErr, SpecFrame, SpecSource, SpecTagAction, SpecTarget};
use crate::parse_spec::{
    lemma_sp_find, lemma_sp_key_end, lemma_sp_skip_ws, lemma_sp_ws_end, sp_assoc_remove,
    sp_assoc_set, sp_attr_parts, sp_attrs_into, sp_cat_lits, sp_find, sp_key_attr,
    sp_key_of_parts, sp_value_end, sp_ws_end,
};

verus! {

/// Replacing the first occurrence of a key is what `sp_assoc_set` does
/// when nothing before it matches.
pub proof fn lemma_sp_assoc_set_found<T>(s: Seq<(Seq<char>, T)>, key: Seq<char>, v: T, idx: int)
    requires
        0 <= idx < s.len(),
        s[idx].0 == key,
        forall|m: int| 0 <= m < idx ==> (#[trigger] s[m]).0 != key,
    ensures
        sp_assoc_set(s, key, v) == s.update(idx, (key, v)),
    decreases idx,
{
    if idx == 0 {
        assert(sp_assoc_set(s, key, v) =~= s.update(0, (key, v)));
    } else {
        let rest = s.subrange(1, s.len() as int);
        assert(forall|m: int| 0 <= m < idx - 1 ==> (#[trigger] rest[m]).0 != key);
        lemma_sp_assoc_set_found(rest, key, v, idx - 1);
        assert(sp_assoc_set(s, key, v) =~= s.update(idx, (key, v)));
    }
}

/// Appending a missing key is what `sp_assoc_set` does when no entry
/// matches.
pub proof fn lemma_sp_assoc_set_missing<T>(s: Seq<(Seq<char>, T)>, key: Seq<char>, v: T)
    requires
        forall|m: int| 0 <= m < s.len() ==> (#[trigger] s[m]).0 != key,
    ensures
        sp_assoc_set(s, key, v) == s.push((key, v)),
    decreases s.len(),
{
    if s.len() == 0 {
        assert(sp_assoc_set(s, key, v) =~= s.push((key, v)));
    } else {
        let rest = s.subrange(1, s.len() as int);
        lemma_sp_assoc_set_missing(rest, key, v);
        assert(sp_assoc_set(s, key, v) =~= s.push((key, v)));
    }
}

/// Splits an attribute value's raw text into literal and variable pieces.
pub fn parse_attr_parts(vt: &Vec<char>) -> (r: Vec<AttributeValues>)
    ensures
        parts_view(r@) == sp_attr_parts(vt@, 0),
{
    let mut out: Vec<AttributeValues> = Vec::new();
    let mut i: usize = 0;
    while i < vt.len()
        invariant
            i <= vt.len(),
            sp_attr_parts(vt@, 0) == parts_view(out@) + sp_attr_parts(vt@, i as int),
        decreases vt.len() - i,
    {
        let ghost pre = parts_view(out@);
        if vt[i] == '{' {
            let k = find_char(vt, i + 1, '}');
            proof {
                lemma_sp_find(vt@, i + 1, '}');
            }
            if k >= vt.len() {
                let name = chars_to_string(&sub_chars(vt, i + 1, vt.len()));
                out.push(AttributeValues::Variable(Variable { name }));
                proof {
                    assert(parts_view(out@) =~= pre.push(
                        SpecAttrPart::Var(vt@.subrange(i + 1, vt@.len() as int)),
                    ));
                    assert(sp_attr_parts(vt@, 0) =~= parts_view(out@) + sp_attr_parts(
                        vt@,
                        vt@.len() as int,
                    ));
                }
                i = vt.len();
            } else {
                let name = chars_to_string(&sub_chars(vt, i + 1, k));
                out.push(AttributeValues::Variable(Variable { name }));
                proof {
                    assert(parts_view(out@) =~= pre.push(
                        SpecAttrPart::Var(vt@.subrange(i + 1, k as int)),
                    ));
                    assert(sp_attr_parts(vt@, i as int) == seq![
                        SpecAttrPart::Var(vt@.subrange(i + 1, k as int)),
                    ] + sp_attr_parts(vt@, k + 1));
                    assert(sp_attr_parts(vt@, 0) =~= parts_view(out@) + sp_attr_parts(
                        vt@,
                        k + 1,
                    ));
                }
                i = k + 1;
            }
        } else {
            let j = find_char(vt, i, '{');
            proof {
                lemma_sp_find(vt@, i as int, '{');
            }
            let value = chars_to_string(&sub_chars(vt, i, j));
            out.push(AttributeValues::Text(Text { value }));
            proof {
                assert(parts_view(out@) =~= pre.push(
                    SpecAttrPart::Lit(vt@.subrange(i as int, j as int)),
                ));
                assert(sp_attr_parts(vt@, i as int) == seq![
                    SpecAttrPart::Lit(vt@.subrange(i as int, j as int)),
                ] + sp_attr_parts(vt@, j as int));
                assert(sp_attr_parts(vt@, 0) =~= parts_view(out@) + sp_attr_parts(
                    vt@,
                    j as int,
                ));
            }
            i = j;
        }
    }
    proof {
        assert(sp_attr_parts(vt@, vt@.len() as int) =~= Seq::<SpecAttrPart>::empty());
        assert(sp_attr_parts(vt@, 0) =~= parts_view(out@));
    }
    out
}

/// Sets a key's value in an attribute list, replacing the first
/// occurrence or appending.
pub fn attrs_set(attrs: &mut Attributes, key: String, val: Vec<AttributeValues>)
    ensures
        attrs_view(final(attrs)@) == sp_assoc_set(
            attrs_view(old(attrs)@),
            key@,
            parts_view(val@),
        ),
{
    let ghost s = attrs_view(attrs@);
    let mut idx: usize = 0;
    while idx < attrs.len()
        invariant
            idx <= attrs.len(),
            attrs@ == old(attrs)@,
            s == attrs_view(attrs@),
            forall|m: int| 0 <= m < idx ==> (#[trigger] s[m]).0 != key@,
        decreases attrs.len() - idx,
    {
        if str_eq(attrs[idx].0.as_str(), key.as_str()) {
            proof {
                lemma_sp_assoc_set_found(s, key@, parts_view(val@), idx as int);
            }
            attrs.set(idx, (key, val));
            proof {
                assert(attrs_view(attrs@) =~= s.update(idx as int, (key@, parts_view(val@))));
            }
            return ;
        }
        idx = idx + 1;
    }
    proof {
        lemma_sp_assoc_set_missing(s, key@, parts_view(val@));
    }
    attrs.push((key, val));
    proof {
        assert(attrs_view(attrs@) =~= s.push((key@, parts_view(val@))));
    }
}

/// Tokenizes a tag head's attribute text.
pub fn parse_attributes(body: &Vec<char>, k: usize) -> (r: Attributes)
    requires
        k <= body.len(),
    ensures
        attrs_view(r@) == sp_attrs_into(body@, k as int, Seq::empty()),
{
    let mut attrs: Attributes = Vec::new();
    let mut kk: usize = k;
    proof {
        assert(attrs_view(attrs@) =~= Seq::<(Seq<char>, Seq<SpecAttrPart>)>::empty());
    }
    loop
        invariant
            kk <= body.len(),
            sp_attrs_into(body@, k as int, Seq::empty()) == sp_attrs_into(
                body@,
                kk as int,
                attrs_view(attrs@),
            ),
        decreases body.len() - kk,
    {
        let i = skip_ws(body, kk);
        proof {
            lemma_sp_skip_ws(body@, kk as int);
        }
        if i >= body.len() {
            proof {
                assert(sp_attrs_into(body@, kk as int, attrs_view(attrs@)) == attrs_view(
                    attrs@,
                ));
            }
            return attrs;
        }
        let e = key_end(body, i);
        proof {
            lemma_sp_key_end(body@, i as int);
        }
        let key = chars_to_string(&sub_chars(body, i, e));
        if e < body.len() && body[e] == '=' {
            let vstart = e + 1;
            let ghost spec_pair = sp_value_end(body@, e + 1);
            let mut vtext: Vec<char>;
            let next: usize;
            if vstart >= body.len() {
                vtext = Vec::new();
                next = body.len();
                proof {
                    assert(vtext@ =~= spec_pair.0);
                }
            } else if body[vstart] == '"' || body[vstart] == '\'' {
                let q = body[vstart];
                let j = find_char(body, vstart + 1, q);
                proof {
                    lemma_sp_find(body@, vstart + 1, q);
                }
                if j >= body.len() {
                    vtext = sub_chars(body, vstart + 1, body.len());
                    next = body.len();
                } else {
                    vtext = sub_chars(body, vstart + 1, j);
                    next = j + 1;
                }
            } else {
                let j = ws_end(body, vstart);
                proof {
                    lemma_sp_ws_end(body@, vstart as int);
                }
                vtext = sub_chars(body, vstart, j);
                next = j;
            }
            proof {
                assert(vtext@ == spec_pair.0);
                assert(next as int == spec_pair.1);
            }
            let parts = parse_attr_parts(&vtext);
            attrs_set(&mut attrs, key, parts);
            kk = next;
        } else {
            let mut lit: Vec<AttributeValues> = Vec::new();
            let keylit = chars_to_string(&sub_chars(body, i, e));
            lit.push(AttributeValues::Text(Text { value: keylit }));
            proof {
                assert(parts_view(lit@) =~= seq![
                    SpecAttrPart::Lit(body@.subrange(i as int, e as int)),
                ]);
            }
            attrs_set(&mut attrs, key, lit);
            kk = e;
        }
    }
}

/// Looks a key up, matching the latest entry as `assoc_get` does.
pub fn attrs_find(attrs: &Attributes, key: &str) -> (r: Option<usize>)
    ensures
        match r {
            Some(idx) => idx < attrs@.len() && assoc_get(attrs_view(attrs@), key@) == Some(
                parts_view(attrs@[idx as int].1@),
            ) && attrs@[idx as int].0@ == key@,
            None => assoc_get(attrs_view(attrs@), key@) is None,
        },
{
    let ghost s = attrs_view(attrs@);
    let mut idx: usize = attrs.len();
    proof {
        assert(s.subrange(0, s.len() as int) =~= s);
    }
    while idx > 0
        invariant
            idx <= attrs.len(),
            s == attrs_view(attrs@),
            assoc_get(s, key@) == assoc_get(s.subrange(0, idx as int), key@),
        decreases idx,
    {
        idx = idx - 1;
        if str_eq(attrs[idx].0.as_str(), key) {
            proof {
                let pre = s.subrange(0, idx + 1);
                assert(pre[pre.len() - 1] == s[idx as int]);
                assert(assoc_get(s, key@) == Some(s[idx as int].1));
            }
            return Some(idx);
        }
        proof {
            let pre = s.subrange(0, idx + 1);
            assert(pre[pre.len() - 1] == s[idx as int]);
            assert(pre.subrange(0, pre.len() - 1) =~= s.subrange(0, idx as int));
        }
    }
    proof {
        assert(s.subrange(0, 0) =~= Seq::<(Seq<char>, Seq<SpecAttrPart>)>::empty());
    }
    None
}

/// The slot key named by an attribute value list: the concatenation of
/// its literal pieces, or the default key if any piece is a variable.
pub fn key_of_parts(parts: &Vec<AttributeValues>) -> (r: String)
    ensures
        r@ == sp_key_of_parts(parts_view(parts@)),
{
    let ghost pv = parts_view(parts@);
    let mut i: usize = 0;
    while i < parts.len()
        invariant
            i <= parts.len(),
            pv == parts_view(parts@),
            forall|m: int| 0 <= m < i ==> !((#[trigger] pv[m]) is Var),
        decreases parts.len() - i,
    {
        match &parts[i] {
            AttributeValues::Variable(_) => {
                proof {
                    assert(pv[i as int] is Var);
                }
                let r = chars_to_string(&crate::chars::str_to_chars("default"));
                return r;
            },
            AttributeValues::Text(_) => {},
        }
        i = i + 1;
    }
    let mut out: Vec<char> = Vec::new();
    let mut j: usize = 0;
    proof {
        assert(out@ =~= sp_cat_lits(pv.subrange(0, 0)));
    }
    while j < parts.len()
        invariant
            j <= parts.len(),
            pv == parts_view(parts@),
            forall|m: int| 0 <= m < pv.len() ==> !((#[trigger] pv[m]) is Var),
            out@ == sp_cat_lits(pv.subrange(0, j as int)),
        decreases parts.len() - j,
    {
        match &parts[j] {
            AttributeValues::Text(t) => {
                let mut tc = crate::chars::str_to_chars(t.value.as_str());
                let ghost pre = out@;
                out.append(&mut tc);
                proof {
                    let sub = pv.subrange(0, j + 1);
                    assert(sub.subrange(0, sub.len() - 1) =~= pv.subrange(0, j as int));
                    assert(sub[sub.len() - 1] == pv[j as int]);
                    assert(out@ =~= sp_cat_lits(pv.subrange(0, j + 1)));
                }
            },
            AttributeValues::Variable(_) => {
                proof {
                    assert(pv[j as int] is Var);
                }
            },
        }
        j = j + 1;
    }
    proof {
        assert(pv.subrange(0, pv.len() as int) =~= pv);
        assert(!exists|m: int| 0 <= m < pv.len() && pv[m] is Var);
    }
    chars_to_string(&out)
}

/// Removes every entry of a key from an attribute list.
pub fn attrs_remove(attrs: &mut Attributes, key: &str)
    ensures
        attrs_view(final(attrs)@) == sp_assoc_remove(attrs_view(old(attrs)@), key@),
{
    let ghost s = attrs_view(old(attrs)@);
    let mut out: Attributes = Vec::new();
    let mut i: usize = 0;
    proof {
        assert(attrs_view(out@) =~= Seq::<(Seq<char>, Seq<SpecAttrPart>)>::empty());
        assert(s.subrange(0, s.len() as int) =~= s);
        assert(sp_assoc_remove(s, key@) =~= attrs_view(out@) + sp_assoc_remove(
            s.subrange(0, s.len() as int),
            key@,
        ));
    }
    while i < attrs.len()
        invariant
            i <= attrs.len(),
            attrs@ == old(attrs)@,
            s == attrs_view(attrs@),
            sp_assoc_remove(s, key@) == attrs_view(out@) + sp_assoc_remove(
                s.subrange(i as int, s.len() as int),
                key@,
            ),
        decreases attrs.len() - i,
    {
        let ghost tail = s.subrange(i as int, s.len() as int);
        proof {
            assert(tail[0] == s[i as int]);
            assert(tail.subrange(1, tail.len() as int) =~= s.subrange(
                i + 1,
                s.len() as int,
            ));
        }
        if str_eq(attrs[i].0.as_str(), key) {
        } else {
            let k2 = attrs[i].0.clone();
            let mut parts2: Vec<AttributeValues> = Vec::new();
            let mut m: usize = 0;
            while m < attrs[i].1.len()
                invariant
                    m <= attrs@[i as int].1.len(),
                    i < attrs.len(),
                    attrs@ == old(attrs)@,
                    parts2@ == attrs@[i as int].1@.subrange(0, m as int),
                decreases attrs@[i as int].1.len() - m,
            {
                let av = match &attrs[i].1[m] {
                    AttributeValues::Text(t) => AttributeValues::Text(
                        Text { value: t.value.clone() },
                    ),
                    AttributeValues::Variable(v) => AttributeValues::Variable(
                        Variable { name: v.name.clone() },
                    ),
                };
                proof {
                    assert(av@ == attrs@[i as int].1@[m as int]@);
                    assert(av == attrs@[i as int].1@[m as int]);
                }
                parts2.push(av);
                m = m + 1;
                proof {
                    assert(parts2@ =~= attrs@[i as int].1@.subrange(0, m as int));
                }
            }
            proof {
                assert(parts2@ =~= attrs@[i as int].1@);
            }
            let ghost preout = attrs_view(out@);
            out.push((k2, parts2));
            proof {
                assert(attrs_view(out@) =~= preout.push(s[i as int]));
            }
        }
        i = i + 1;
        proof {
            assert(sp_assoc_remove(s, key@) =~= attrs_view(out@) + sp_assoc_remove(
                s.subrange(i as int, s.len() as int),
                key@,
            ));
        }
    }
    proof {
        assert(s.subrange(s.len() as int, s.len() as int) =~= Seq::<
            (Seq<char>, Seq<SpecAttrPart>),
        >::empty());
        assert(sp_assoc_remove(s, key@) =~= attrs_view(out@));
    }
    *attrs = out;
}

/// Takes an element's slot key out of `attrs`: the key named under
/// `attr`, defaulting, with the attribute removed.
pub fn take_key(attrs: &mut Attributes, attr: &str) -> (r: String)
    ensures
        r@ == sp_key_attr(attrs_view(old(attrs)@), attr@),
        attrs_view(final(attrs)@) == sp_assoc_remove(attrs_view(old(attrs)@), attr@),
{
    let found = attrs_find(attrs, attr);
    let key: String = match found {
        Some(idx) => key_of_parts(&attrs[idx].1),
        None => chars_to_string(&crate::chars::str_to_chars("default")),
    };
    attrs_remove(attrs, attr);
    key
}

/// The fixed set of void element names.
pub fn is_void_name(name: &str) -> (r: bool)
    ensures
        r == crate::parse_spec::sp_is_void(name@),
{
    str_eq(name, "!DOCTYPE") || str_eq(name, "area") || str_eq(name, "base") || str_eq(
        name,
        "br",
    ) || str_eq(name, "col") || str_eq(name, "embed") || str_eq(name, "hr") || str_eq(
        name,
        "img",
    ) || str_eq(name, "input") || str_eq(name, "link") || str_eq(name, "meta") || str_eq(
        name,
        "param",
    ) || str_eq(name, "source") || str_eq(name, "track") || str_eq(name, "wbr")
}

/// Used to determine the current element in the frame stack: only
/// elements that can gain children can be under construction.
pub enum Mpreggable {
    Document(Document),
    Node(Node),
    Slot(Slot),
}

impl View for Mpreggable {
    type V = SpecBuild;

    open spec fn view(&self) -> SpecBuild {
        match self {
            Mpreggable::Document(d) => SpecBuild::Doc(d@),
            Mpreggable::Node(n) => SpecBuild::Node(n@),
            Mpreggable::Slot(s) => SpecBuild::Slot(s@),
        }
    }
}

/// Where a frame routes finished elements.
pub enum PushTarget {
    Children,
    Slot,
}

impl View for PushTarget {
    type V = SpecTarget;

    open spec fn view(&self) -> SpecTarget {
        match self {
            PushTarget::Children => SpecTarget::Children,
            PushTarget::Slot => SpecTarget::Slots,
        }
    }
}

/// One in-progress parse frame: an open element, its push target, and
/// the pending literal text.
pub struct PageFrame {
    pub mpregee: Mpreggable,
    pub push_target: PushTarget,
    pub string_buffer: Vec<char>,
}

impl View for PageFrame {
    type V = SpecFrame;

    open spec fn view(&self) -> SpecFrame {
        SpecFrame { build: self.mpregee@, target: self.push_target@, buffer: self.string_buffer@ }
    }
}

/// One source being parsed: the component's name, its characters, and
/// the cursor.
pub struct SourceFrame {
    pub name: String,
    pub text: Vec<char>,
    pub pos: usize,
}

impl View for SourceFrame {
    type V = SpecSource;

    open spec fn view(&self) -> SpecSource {
        SpecSource { name: self.name@, text: self.text@, pos: self.pos as int }
    }
}

/// The slot key an element carries: the key its `slot` attribute names;
/// text and variables go to the default key.
pub fn elem_take_slot_key(element: Element) -> (r: (String, Element))
    ensures
        (r.0@, r.1@) == crate::parse_spec::sp_elem_slot_key(element@),
{
    let key: String = match &element {
        Element::Document(d) => read_key(&d.attributes, "slot"),
        Element::Node(n) => read_key(&n.attributes, "slot"),
        Element::Slot(sl) => read_key(&sl.attributes, "slot"),
        Element::Text(_) => chars_to_string(&crate::chars::str_to_chars("default")),
        Element::Variable(_) => chars_to_string(&crate::chars::str_to_chars("default")),
        Element::Void(v) => read_key(&v.attributes, "slot"),
    };
    (key, element)
}

/// The slot key an attribute list names under `attr`, defaulting.
pub fn read_key(attrs: &Attributes, attr: &str) -> (r: String)
    ensures
        r@ == sp_key_attr(attrs_view(attrs@), attr@),
{
    let found = attrs_find(attrs, attr);
    match found {
        Some(idx) => key_of_parts(&attrs[idx].1),
        None => chars_to_string(&crate::chars::str_to_chars("default")),
    }
}

/// Filing under an existing key is appending to its list in place.
pub proof fn lemma_sp_slots_add_found(
    s: Seq<(Seq<char>, Seq<SpecElem>)>,
    key: Seq<char>,
    el: SpecElem,
    idx: int,
)
    requires
        0 <= idx < s.len(),
        s[idx].0 == key,
        forall|m: int| 0 <= m < idx ==> (#[trigger] s[m]).0 != key,
    ensures
        crate::parse_spec::sp_slots_add(s, key, el) == s.update(idx, (key, s[idx].1.push(el))),
    decreases idx,
{
    if idx == 0 {
        assert(crate::parse_spec::sp_slots_add(s, key, el) =~= s.update(
            0,
            (key, s[0].1.push(el)),
        ));
    } else {
        let rest = s.subrange(1, s.len() as int);
        assert(forall|m: int| 0 <= m < idx - 1 ==> (#[trigger] rest[m]).0 != key);
        lemma_sp_slots_add_found(rest, key, el, idx - 1);
        assert(crate::parse_spec::sp_slots_add(s, key, el) =~= s.update(
            idx,
            (key, s[idx].1.push(el)),
        ));
    }
}

/// Filing under a new key is appending a fresh entry.
pub proof fn lemma_sp_slots_add_missing(
    s: Seq<(Seq<char>, Seq<SpecElem>)>,
    key: Seq<char>,
    el: SpecElem,
)
    requires
        forall|m: int| 0 <= m < s.len() ==> (#[trigger] s[m]).0 != key,
    ensures
        crate::parse_spec::sp_slots_add(s, key, el) == s.push((key, seq![el])),
    decreases s.len(),
{
    if s.len() == 0 {
        assert(crate::parse_spec::sp_slots_add(s, key, el) =~= s.push((key, seq![el])));
    } else {
        let rest = s.subrange(1, s.len() as int);
        lemma_sp_slots_add_missing(rest, key, el);
        assert(crate::parse_spec::sp_slots_add(s, key, el) =~= s.push((key, seq![el])));
    }
}

/// `slots_view` maps each entry in place.
pub proof fn lemma_slots_view_index(s: Seq<(String, Vec<Element>)>)
    ensures
        slots_view(s).len() == s.len(),
        forall|i: int|
            0 <= i < s.len() ==> slots_view(s)[i] == ((#[trigger] s[i]).0@, elems_view(s[i].1@)),
    decreases s,
{
    if s.len() > 0 {
        lemma_slots_view_index(s.subrange(0, s.len() - 1));
        assert(forall|i: int|
            0 <= i < s.len() - 1 ==> s.subrange(0, s.len() - 1)[i] == s[i]);
    }
}

/// Files an element into a slot overlay under its key, in place.
pub fn slots_add(sc: &mut Vec<(String, Vec<Element>)>, key: String, el: Element)
    ensures
        slots_view(final(sc)@) == crate::parse_spec::sp_slots_add(
            slots_view(old(sc)@),
            key@,
            el@,
        ),
{
    let ghost s = slots_view(sc@);
    let ghost elval = el;
    let ghost old_key = key@;
    proof {
        lemma_slots_view_index(sc@);
    }
    let mut idx: usize = 0;
    while idx < sc.len()
        invariant
            idx <= sc.len(),
            sc@ == old(sc)@,
            s == slots_view(sc@),
            slots_view(sc@).len() == sc@.len(),
            forall|i: int|
                0 <= i < sc@.len() ==> slots_view(sc@)[i] == ((#[trigger] sc@[i]).0@, elems_view(
                    sc@[i].1@,
                )),
            forall|m: int| 0 <= m < idx ==> (#[trigger] s[m]).0 != key@,
            el == elval,
            key@ == old_key,
        decreases sc.len() - idx,
    {
        if str_eq(sc[idx].0.as_str(), key.as_str()) {
            proof {
                lemma_sp_slots_add_found(s, key@, elval@, idx as int);
            }
            let ghost scpre = sc@;
            let entry = sc.remove(idx);
            let (_ekey, mut ekids) = entry;
            let ghost oldkids = ekids@;
            let ghost elval2 = el;
            ekids.push(el);
            proof {
                assert(ekids@ == oldkids.push(elval2));
                assert(elval2 == elval);
                assert(ekids@ == oldkids.push(elval));
                crate::model::lemma_elems_view_push(oldkids, elval);
            }
            let entry1 = (key, ekids);
            proof {
                assert(entry1.1@ == oldkids.push(elval));
            }
            sc.insert(idx, entry1);
            proof {
                assert(sc@[idx as int] == entry1);
                assert(sc@ =~= scpre.update(idx as int, sc@[idx as int]));
                lemma_slots_view_index(sc@);
                let target = s.update(idx as int, (key@, s[idx as int].1.push(elval@)));
                assert forall|m: int| 0 <= m < sc@.len() implies slots_view(sc@)[m] == target[m] by {
                    if m != idx {
                        assert(sc@[m] == scpre[m]);
                    } else {
                        assert(sc@[m].0@ == key@);
                        assert(sc@[m].1@ == oldkids.push(elval));
                        assert(elems_view(sc@[m].1@) == elems_view(oldkids).push(elval@));
                        assert(s[idx as int].1 == elems_view(oldkids));
                    }
                }
                assert(slots_view(sc@) =~= target);
            }
            return ;
        }
        idx = idx + 1;
    }
    proof {
        lemma_sp_slots_add_missing(s, key@, elval@);
    }
    let mut kids: Vec<Element> = Vec::new();
    kids.push(el);
    proof {
        assert(kids@ =~= seq![elval]);
        assert(elems_view(kids@) =~= seq![elval@]) by {
            assert(kids@.subrange(0, 0) =~= Seq::<Element>::empty());
            assert(kids@[0] == elval);
            assert(elems_view(kids@.subrange(0, 0)) =~= Seq::<SpecElem>::empty());
        }
    }
    let ghost kidsv = elems_view(kids@);
    let ghost scpre = sc@;
    sc.push((key, kids));
    proof {
        lemma_slots_view_index(sc@);
        lemma_slots_view_index(scpre);
        let target = s.push((key@, seq![elval@]));
        assert forall|m: int| 0 <= m < sc@.len() implies slots_view(sc@)[m] == target[m] by {
            if m < sc@.len() - 1 {
                assert(sc@[m] == scpre[m]);
            } else {
                assert(sc@[m].0@ == key@);
                assert(elems_view(sc@[m].1@) == kidsv);
            }
        }
        assert(slots_view(sc@) =~= target);
    }
}

impl Mpreggable {
    /// Appends a finished element to the element under construction.
    pub fn add_child(&mut self, child_element: Element)
        ensures
            final(self)@ == crate::parse_spec::sp_build_push(old(self)@, child_element@),
    {
        match self {
            Mpreggable::Document(document) => {
                let ghost pre = document.children@;
                document.children.push(child_element);
                proof {
                    crate::model::lemma_elems_view_push(pre, document.children@[pre.len() as int]);
                }
            },
            Mpreggable::Node(node) => {
                let ghost pre = node.children@;
                node.children.push(child_element);
                proof {
                    crate::model::lemma_elems_view_push(pre, node.children@[pre.len() as int]);
                }
            },
            Mpreggable::Slot(slot) => {
                let ghost pre = slot.children@;
                slot.children.push(child_element);
                proof {
                    crate::model::lemma_elems_view_push(pre, slot.children@[pre.len() as int]);
                }
            },
        }
    }

    /// The name a closing tag must match; a Slot frame closes with the
    /// reserved sentinel.
    pub fn get_name(&self) -> (r: &str)
        ensures
            r@ == crate::parse_spec::sp_build_name(self@),
    {
        match self {
            Mpreggable::Document(document) => document.name.as_str(),
            Mpreggable::Node(node) => node.name.as_str(),
            Mpreggable::Slot(_) => "Slot",
        }
    }

    /// Files an element into the call-site Document's slot overlay under
    /// the element's own slot key; fails on anything but a Document.
    pub fn try_add_slot(&mut self, element: Element) -> (r: Result<(), ()>)
        ensures
            match r {
                Ok(()) => old(self)@ is Doc && {
                    let (key, el2) = crate::parse_spec::sp_elem_slot_key(element@);
                    final(self)@ == SpecBuild::Doc(
                        SpecDoc {
                            slots: crate::parse_spec::sp_slots_add(
                                old(self)@->Doc_0.slots,
                                key,
                                el2,
                            ),
                            ..old(self)@->Doc_0
                        },
                    )
                },
                Err(()) => !(old(self)@ is Doc) && final(self)@ == old(self)@,
            },
    {
        match self {
            Mpreggable::Document(document) => {
                let (key, el2) = elem_take_slot_key(element);
                slots_add(&mut document.slot_content, key, el2);
                Ok(())
            },
            _ => Err(()),
        }
    }
}

impl PageFrame {
    /// A fresh frame for a component root about to be parsed.
    pub fn new_document(name: String) -> (r: Self)
        ensures
            r@ == (SpecFrame {
                build: SpecBuild::Doc(
                    SpecDoc {
                        name: name@,
                        attrs: Seq::empty(),
                        slots: Seq::empty(),
                        children: Seq::empty(),
                    },
                ),
                target: SpecTarget::Children,
                buffer: Seq::empty(),
            }),
    {
        PageFrame {
            mpregee: Mpreggable::Document(Document::new(name)),
            push_target: PushTarget::Children,
            string_buffer: Vec::new(),
        }
    }

    /// A call-site frame: caller content is filed into the Document's
    /// slot overlay.
    pub fn new_slot(document: Document) -> (r: Self)
        ensures
            r@ == (SpecFrame {
                build: SpecBuild::Doc(document@),
                target: SpecTarget::Slots,
                buffer: Seq::empty(),
            }),
    {
        PageFrame {
            mpregee: Mpreggable::Document(document),
            push_target: PushTarget::Slot,
            string_buffer: Vec::new(),
        }
    }

    /// A frame for an ordinary open element.
    pub fn new_child(element: Mpreggable) -> (r: Self)
        ensures
            r@ == (SpecFrame {
                build: element@,
                target: SpecTarget::Children,
                buffer: Seq::empty(),
            }),
    {
        PageFrame { mpregee: element, push_target: PushTarget::Children, string_buffer: Vec::new() }
    }

    /// Routes a finished element into the frame: ordinary frames gain a
    /// child, a call-site frame files it into the slot overlay.
    pub fn push_element(&mut self, element: Element)
        ensures
            final(self)@ == crate::parse_spec::sp_frame_push(old(self)@, element@),
    {
        match self.push_target {
            PushTarget::Slot => {
                let _ = self.mpregee.try_add_slot(element);
            },
            PushTarget::Children => self.mpregee.add_child(element),
        }
    }

    /// Flushes the pending literal text as a Text element, if any.
    pub fn flush_text(&mut self)
        ensures
            final(self)@ == crate::parse_spec::sp_flush(old(self)@),
    {
        if self.string_buffer.len() > 0 {
            let value = chars_to_string(&self.string_buffer);
            let ghost fpre = self@;
            self.string_buffer = Vec::new();
            proof {
                assert(self@ == (SpecFrame { buffer: Seq::<char>::empty(), ..fpre }));
            }
            self.push_element(Element::Text(Text { value }));
        }
    }

    /// At a nested completion, receives the finished component's children
    /// into the call-site Document this frame is building; fails on any
    /// other kind of frame.
    pub fn try_take_my_kids(&mut self, document: &Document) -> (r: Result<(), ()>)
        ensures
            match r {
                Ok(()) => crate::parse_spec::sp_is_site(old(self)@) && final(self)@ == (
                SpecFrame {
                    build: SpecBuild::Doc(
                        SpecDoc { children: document@.children, ..old(self)@.build->Doc_0 },
                    ),
                    ..old(self)@
                }),
                Err(()) => !crate::parse_spec::sp_is_site(old(self)@) && final(self)@ == old(
                    self,
                )@,
            },
    {
        match (&mut self.mpregee, &self.push_target) {
            (Mpreggable::Document(slot_document), PushTarget::Slot) => {
                slot_document.children = crate::ast::dup_elems(&document.children);
                Ok(())
            },
            _ => Err(()),
        }
    }
}

/// What one tag head means, before any effect on the frame stack.
pub enum ParsingAction {
    Unclosed(String),
    Literal(String),
    Close(String),
    Mpreg(Element),
    ParseInnards(Mpreggable),
    Reference(Document),
}

impl View for ParsingAction {
    type V = SpecTagAction;

    open spec fn view(&self) -> SpecTagAction {
        match self {
            ParsingAction::Unclosed(t) => SpecTagAction::Unclosed(t@),
            ParsingAction::Literal(t) => SpecTagAction::Literal(t@),
            ParsingAction::Close(n) => SpecTagAction::Close(n@),
            ParsingAction::Mpreg(el) => SpecTagAction::Mpreg(el@),
            ParsingAction::ParseInnards(b) => SpecTagAction::Innards(b@),
            ParsingAction::Reference(d) => SpecTagAction::Reference(d@),
        }
    }
}

/// Tokenizes the tag head at `pos` (which holds `<`) and classifies it.
pub fn parse_element(text: &Vec<char>, pos: usize) -> (r: (ParsingAction, usize))
    requires
        pos < text.len(),
        text@[pos as int] == '<',
    ensures
        r.0@ == sp_classify(text@, pos as int),
        r.1 == sp_tag_end(text@, pos as int),
        pos < r.1 <= text.len(),
{
    let j = crate::chars::find_gt(text, pos + 1);
    if j >= text.len() {
        let partial = chars_to_string(&sub_chars(text, pos + 1, text.len()));
        return (ParsingAction::Unclosed(partial), text.len());
    }
    let pos2 = j + 1;
    let self_closing = j > pos + 1 && text[j - 1] == '/';
    let body_end = if self_closing {
        j - 1
    } else {
        j
    };
    let body = sub_chars(text, pos + 1, body_end);
    proof {
        let raw = text@.subrange(pos + 1, j as int);
        if self_closing {
            assert(raw.len() > 0 && raw.last() == '/');
            assert(body@ =~= raw.drop_last());
        } else {
            assert(!(raw.len() > 0 && raw.last() == '/')) by {
                if raw.len() > 0 {
                    assert(raw.last() == text@[j - 1]);
                }
            }
            assert(body@ =~= raw);
        }
    }
    let ne = ws_end(&body, 0);
    let name_chars = sub_chars(&body, 0, ne);
    let name = chars_to_string(&name_chars);
    let mut attrs = parse_attributes(&body, ne);
    if name_chars.len() == 0 {
        let chunk = chars_to_string(&sub_chars(text, pos, pos2));
        (ParsingAction::Literal(chunk), pos2)
    } else if name_chars[0] == '/' {
        let cname = chars_to_string(&sub_chars(&name_chars, 1, name_chars.len()));
        proof {
            assert(cname@ =~= body@.subrange(0, ne as int).subrange(
                1,
                body@.subrange(0, ne as int).len() as int,
            ));
        }
        (ParsingAction::Close(cname), pos2)
    } else if str_eq(name.as_str(), "Slot") {
        let key = take_key(&mut attrs, "name");
        if self_closing {
            (
                ParsingAction::Mpreg(
                    Element::Slot(Slot { name: key, attributes: attrs, children: Vec::new() }),
                ),
                pos2,
            )
        } else {
            (
                ParsingAction::ParseInnards(
                    Mpreggable::Slot(Slot { name: key, attributes: attrs, children: Vec::new() }),
                ),
                pos2,
            )
        }
    } else if is_upper_char(name_chars[0]) {
        let d = Document {
            name,
            attributes: attrs,
            slot_content: Vec::new(),
            children: Vec::new(),
        };
        proof {
            assert(d@.slots =~= Seq::<(Seq<char>, Seq<SpecElem>)>::empty());
            assert(d@.children =~= Seq::<SpecElem>::empty());
        }
        if self_closing {
            (ParsingAction::Mpreg(Element::Document(d)), pos2)
        } else {
            (ParsingAction::Reference(d), pos2)
        }
    } else if is_void_name(name.as_str()) {
        (ParsingAction::Mpreg(Element::Void(Void { name, attributes: attrs })), pos2)
    } else if self_closing {
        (
            ParsingAction::Mpreg(
                Element::Node(Node { name, attributes: attrs, children: Vec::new() }),
            ),
            pos2,
        )
    } else {
        (
            ParsingAction::ParseInnards(
                Mpreggable::Node(Node { name, attributes: attrs, children: Vec::new() }),
            ),
            pos2,
        )
    }
}

/// The outcome of closing a frame: either the component root finished,
/// or an ordinary element to hand to the parent frame.
pub enum CloseOutcome {
    Finished(Document),
    Produced(Element),
}

impl PageFrame {
    /// Closes this frame against `</name>`, flushing pending text first:
    /// the name must match the open element's (a Slot frame compares
    /// against the reserved sentinel), or closing fails.
    pub fn try_close(self, name: &str) -> (r: Result<CloseOutcome, crate::VelError>)
        ensures
            ({
                let f2 = crate::parse_spec::sp_flush(self@);
                match r {
                    Ok(CloseOutcome::Finished(d)) => name@ == crate::parse_spec::sp_build_name(
                        f2.build,
                    ) && crate::parse_spec::sp_is_owner(self@) && f2.build == SpecBuild::Doc(d@),
                    Ok(CloseOutcome::Produced(el)) => name@ == crate::parse_spec::sp_build_name(
                        f2.build,
                    ) && !crate::parse_spec::sp_is_owner(self@) && el@
                        == crate::parse_spec::sp_build_elem(f2.build),
                    Err(e) => name@ != crate::parse_spec::sp_build_name(f2.build) && e@ == (
                    SpecErr::MismatchedClose {
                        expected: crate::parse_spec::sp_build_name(f2.build),
                        found: name@,
                    }),
                }
            }),
    {
        let mut frame = self;
        frame.flush_text();
        proof {
            crate::parse_spec::lemma_push_keeps_shape(
                self@,
                SpecElem::Text(self@.buffer),
            );
        }
        if !str_eq(frame.mpregee.get_name(), name) {
            let expected = chars_to_string(&crate::chars::str_to_chars(
                frame.mpregee.get_name(),
            ));
            let found = chars_to_string(&crate::chars::str_to_chars(name));
            return Err(crate::VelError::MismatchedClose { expected, found });
        }
        match frame.mpregee {
            Mpreggable::Document(document) => {
                match frame.push_target {
                    PushTarget::Children => Ok(CloseOutcome::Finished(document)),
                    PushTarget::Slot => Ok(CloseOutcome::Produced(Element::Document(document))),
                }
            },
            Mpreggable::Node(node) => Ok(CloseOutcome::Produced(Element::Node(node))),
            Mpreggable::Slot(slot) => Ok(CloseOutcome::Produced(Element::Slot(slot))),
        }
    }
}

/// Reads a `{name}` variable reference: the name runs to the closing
/// brace, or to the end of the text if the brace never comes.
pub fn parse_variable(text: &Vec<char>, pos: usize) -> (r: (Variable, usize))
    requires
        pos < text.len(),
    ensures
        ({
            let k = sp_find(text@, pos + 1, '}');
            &&& r.0@ == text@.subrange(pos + 1, k)
            &&& r.1 as int == (if k >= text@.len() {
                text@.len() as int
            } else {
                k + 1
            })
            &&& pos < r.1 <= text.len()
        }),
{
    let k = find_char(text, pos + 1, '}');
    proof {
        lemma_sp_find(text@, pos + 1, '}');
    }
    let name = chars_to_string(&sub_chars(text, pos + 1, k));
    if k >= text.len() {
        (Variable { name }, text.len())
    } else {
        (Variable { name }, k + 1)
    }
}

/// Whether a component of this name is itself still being parsed.
fn in_flight(sources: &Vec<SourceFrame>, name: &str) -> (r: bool)
    ensures
        r == crate::parse_spec::sp_in_flight(
            sources@.map_values(|s: SourceFrame| s@),
            name@,
        ),
{
    let ghost sv = sources@.map_values(|s: SourceFrame| s@);
    let mut i: usize = 0;
    while i < sources.len()
        invariant
            i <= sources.len(),
            sv == sources@.map_values(|s: SourceFrame| s@),
            forall|m: int| 0 <= m < i ==> (#[trigger] sv[m]).name != name@,
        decreases sources.len() - i,
    {
        if str_eq(sources[i].name.as_str(), name) {
            proof {
                assert(sv[i as int].name == name@);
            }
            return true;
        }
        i = i + 1;
    }
    proof {
        assert(!crate::parse_spec::sp_in_flight(sv, name@));
    }
    false
}

/// The machine state the executable stacks stand for.
pub open spec fn state_view(
    frames: Seq<PageFrame>,
    sources: Seq<SourceFrame>,
    comps: Seq<(String, crate::LazyDom)>,
) -> crate::parse_spec::SpecPState {
    crate::parse_spec::SpecPState {
        frames: frames.map_values(|f: PageFrame| f@),
        sources: sources.map_values(|s: SourceFrame| s@),
        reg: crate::cache_view(comps),
    }
}

/// Parses one component: drives the frame stack until the requested root
/// completes or a structural error aborts, exactly as the specified
/// machine does.
#[verifier::rlimit(100)]
pub fn parse(component: &str, components: &mut crate::ComponentsCache) -> (r: Result<
    (),
    crate::VelError,
>)
    ensures
        ({
            let out = crate::parse_spec::sp_parse(
                crate::cache_view(old(components)@),
                component@,
            );
            &&& crate::cache_view(final(components)@) == out.0
            &&& match r {
                Ok(()) => out.1 is None,
                Err(err) => out.1 == Some(err@),
            }
        }),
{
    let ghost reg0 = crate::cache_view(components@);
    proof {
        crate::lemma_cache_view_finite(components@);
    }
    let found = crate::cache_find(components, component);
    let text: Vec<char>;
    match found {
        None => {
            return Err(
                crate::VelError::UnknownComponent(
                    chars_to_string(&crate::chars::str_to_chars(component)),
                ),
            );
        },
        Some(idx) => {
            match &components[idx].1 {
                crate::LazyDom::Parsed(_) => {
                    return Ok(());
                },
                crate::LazyDom::Unparsed(src) => {
                    text = crate::chars::str_to_chars(src.as_str());
                },
            }
        },
    }
    let ghost st0 = crate::parse_spec::sp_init(reg0, component@, text@);
    proof {
        crate::parse_spec::lemma_sp_init_wf(reg0, component@, text@);
    }
    let name1 = chars_to_string(&crate::chars::str_to_chars(component));
    let name2 = chars_to_string(&crate::chars::str_to_chars(component));
    let mut frames: Vec<PageFrame> = Vec::new();
    frames.push(PageFrame::new_document(name1));
    let mut sources: Vec<SourceFrame> = Vec::new();
    sources.push(SourceFrame { name: name2, text, pos: 0 });
    proof {
        assert(frames@.map_values(|f: PageFrame| f@) =~= st0.frames);
        assert(sources@.map_values(|s: SourceFrame| s@) =~= st0.sources);
        assert(state_view(frames@, sources@, components@) =~= st0);
    }
    loop
        invariant
            crate::parse_spec::sp_wf(state_view(frames@, sources@, components@)),
            crate::parse_spec::sp_run(state_view(frames@, sources@, components@))
                == crate::parse_spec::sp_run(st0),
            crate::parse_spec::sp_parse(reg0, component@) == crate::parse_spec::sp_run(st0),
            reg0 == crate::cache_view(old(components)@),
        decreases
                crate::parse_spec::meas_a(state_view(frames@, sources@, components@)),
                crate::parse_spec::meas_b(state_view(frames@, sources@, components@)),
                crate::parse_spec::meas_c(state_view(frames@, sources@, components@)),
    {
        let ghost st = state_view(frames@, sources@, components@);
        proof {
            crate::parse_spec::lemma_sp_step_next(st);
            crate::parse_spec::lemma_remaining_nonneg(st.sources);
        }
        assert(frames.len() >= 1);
        assert(sources.len() >= 1);
        let si = sources.len() - 1;
        if sources[si].pos >= sources[si].text.len() {
            // the active source is exhausted: its component root
            // completes; any other open frame is an unclosed tag
            let mut fr = frames.pop().unwrap();
            let is_owner = match (&fr.mpregee, &fr.push_target) {
                (Mpreggable::Document(_), PushTarget::Children) => true,
                _ => false,
            };
            if !is_owner {
                let ename = chars_to_string(&crate::chars::str_to_chars(fr.mpregee.get_name()));
                proof {
                    assert(fr@ == st.frames.last());
                    assert(!crate::parse_spec::sp_is_owner(st.frames.last()));
                    assert(crate::parse_spec::sp_step(st)
                        == crate::parse_spec::SpecStep::Fail(
                        crate::parse_spec::SpecErr::UnclosedTag(ename@),
                        st.reg,
                    ));
                    assert(crate::parse_spec::sp_run(st) == (
                        st.reg,
                        Some(crate::parse_spec::SpecErr::UnclosedTag(ename@)),
                    ));
                    assert(crate::cache_view(components@) == st.reg);
                }
                return Err(crate::VelError::UnclosedTag(ename));
            }
            let _ = sources.pop().unwrap();
            fr.flush_text();
            match fr.mpregee {
                Mpreggable::Document(d) => {
                    let dname = d.name.clone();
                    let ghost dview = d@;
                    let take_site = frames.len() > 0;
                    let mut site_taken: Option<PageFrame> = None;
                    if take_site {
                        let mut site_fr = frames.pop().unwrap();
                        if site_fr.try_take_my_kids(&d).is_err() {
                            proof {
                                assert(false);
                            }
                            return Ok(());
                        }
                        site_taken = Some(site_fr);
                    }
                    crate::cache_set(
                        components,
                        dname,
                        crate::LazyDom::Parsed(crate::ast::Dom::new(d)),
                    );
                    match site_taken {
                        Some(site_fr) => {
                            frames.push(site_fr);
                            proof {
                                let st2 = crate::parse_spec::sp_step(st)->Next_0;
                                assert(frames@.map_values(|f: PageFrame| f@) =~= st2.frames);
                                assert(sources@.map_values(|s: SourceFrame| s@) =~= st2.sources);
                                assert(state_view(frames@, sources@, components@) =~= st2);
                                crate::parse_spec::lemma_remaining_nonneg(st2.sources);
                            }
                        },
                        None => {
                        proof {
                            assert(frames@.map_values(|f: PageFrame| f@)
                                =~= st.frames.drop_last());
                            assert(sources@.map_values(|s: SourceFrame| s@)
                                =~= st.sources.drop_last());
                            assert(st.frames.drop_last().len() == 0);
                            assert(crate::parse_spec::sp_flush(st.frames.last()).build
                                == SpecBuild::Doc(dview));
                            assert(crate::cache_view(components@) == st.reg.insert(
                                dview.name,
                                crate::model::SpecComp::Parsed(dview),
                            ));
                            assert(crate::parse_spec::sp_step(st)
                                == crate::parse_spec::SpecStep::Done(
                                crate::cache_view(components@),
                            ));
                            assert(crate::parse_spec::sp_run(st) == (
                                crate::cache_view(components@),
                                None::<crate::parse_spec::SpecErr>,
                            ));
                        }
                            return Ok(());
                        },
                    }
                },
                _ => {
                    proof {
                        assert(false);
                    }
                    return Ok(());
                },
            }
        } else {
            let c = sources[si].text[sources[si].pos];
            if c == '\\' {
                let mut src = sources.pop().unwrap();
                if src.pos + 1 < src.text.len() {
                    let ch = src.text[src.pos + 1];
                    let mut fr = frames.pop().unwrap();
                    fr.string_buffer.push(ch);
                    frames.push(fr);
                    src.pos = src.pos + 2;
                } else {
                    src.pos = src.pos + 1;
                }
                sources.push(src);
                proof {
                    let st2 = crate::parse_spec::sp_step(st)->Next_0;
                    assert(frames@.map_values(|f: PageFrame| f@) =~= st2.frames);
                    assert(sources@.map_values(|s: SourceFrame| s@) =~= st2.sources);
                    assert(state_view(frames@, sources@, components@) =~= st2);
                    crate::parse_spec::lemma_remaining_nonneg(st2.sources);
                }
            } else if c == '{' {
                let (var, npos) = parse_variable(&sources[si].text, sources[si].pos);
                let mut fr = frames.pop().unwrap();
                fr.flush_text();
                fr.push_element(Element::Variable(var));
                frames.push(fr);
                let mut src = sources.pop().unwrap();
                src.pos = npos;
                sources.push(src);
                proof {
                    let st2 = crate::parse_spec::sp_step(st)->Next_0;
                    assert(frames@.map_values(|f: PageFrame| f@) =~= st2.frames);
                    assert(sources@.map_values(|s: SourceFrame| s@) =~= st2.sources);
                    assert(state_view(frames@, sources@, components@) =~= st2);
                    crate::parse_spec::lemma_remaining_nonneg(st2.sources);
                }
            } else if c == '<' {
                let (action, pos2) = parse_element(&sources[si].text, sources[si].pos);
                match action {
                    ParsingAction::Unclosed(t) => {
                        return Err(crate::VelError::UnclosedTag(t));
                    },
                    ParsingAction::Literal(chunk) => {
                        let mut fr = frames.pop().unwrap();
                        let mut cv = crate::chars::str_to_chars(chunk.as_str());
                        fr.string_buffer.append(&mut cv);
                        frames.push(fr);
                        let mut src = sources.pop().unwrap();
                        src.pos = pos2;
                        sources.push(src);
                        proof {
                            let st2 = crate::parse_spec::sp_step(st)->Next_0;
                            assert(frames@.map_values(|f: PageFrame| f@) =~= st2.frames);
                            assert(sources@.map_values(|s: SourceFrame| s@) =~= st2.sources);
                            assert(state_view(frames@, sources@, components@) =~= st2);
                    crate::parse_spec::lemma_remaining_nonneg(st2.sources);
                        }
                    },
                    ParsingAction::Close(cname) => {
                        let fr = frames.pop().unwrap();
                        let mut src = sources.pop().unwrap();
                        src.pos = pos2;
                        sources.push(src);
                        match fr.try_close(cname.as_str()) {
                            Err(e) => {
                                return Err(e);
                            },
                            Ok(CloseOutcome::Produced(el)) => {
                                proof {
                                    assert(frames@.len() >= 1);
                                }
                                let mut parent = frames.pop().unwrap();
                                parent.push_element(el);
                                frames.push(parent);
                                proof {
                                    let st2 = crate::parse_spec::sp_step(st)->Next_0;
                                    assert(frames@.map_values(|f: PageFrame| f@) =~= st2.frames);
                                    assert(sources@.map_values(|s: SourceFrame| s@)
                                        =~= st2.sources);
                                    assert(state_view(frames@, sources@, components@) =~= st2);
                                crate::parse_spec::lemma_remaining_nonneg(st2.sources);
                                }
                            },
                            Ok(CloseOutcome::Finished(d)) => {
                                let _ = sources.pop().unwrap();
                                let dname = d.name.clone();
                                let take_site = frames.len() > 0;
                                let mut site_taken: Option<PageFrame> = None;
                                if take_site {
                                    let mut site_fr = frames.pop().unwrap();
                                    if site_fr.try_take_my_kids(&d).is_err() {
                                        proof {
                                            assert(false);
                                        }
                                        return Ok(());
                                    }
                                    site_taken = Some(site_fr);
                                }
                                crate::cache_set(
                                    components,
                                    dname,
                                    crate::LazyDom::Parsed(crate::ast::Dom::new(d)),
                                );
                                match site_taken {
                                    Some(site_fr) => {
                                        frames.push(site_fr);
                                        proof {
                                            let st2 = crate::parse_spec::sp_step(st)->Next_0;
                                            assert(frames@.map_values(|f: PageFrame| f@)
                                                =~= st2.frames);
                                            assert(sources@.map_values(|s: SourceFrame| s@)
                                                =~= st2.sources);
                                            assert(state_view(frames@, sources@, components@)
                                                =~= st2);
                                            crate::parse_spec::lemma_remaining_nonneg(st2.sources);
                                        }
                                    },
                                    None => {
                                        proof {
                                            assert(crate::parse_spec::sp_step(st)
                                                == crate::parse_spec::SpecStep::Done(
                                                crate::cache_view(components@),
                                            ));
                                        }
                                        return Ok(());
                                    },
                                }
                            },
                        }
                    },
                    ParsingAction::Mpreg(el) => {
                        let mut fr = frames.pop().unwrap();
                        fr.flush_text();
                        fr.push_element(el);
                        frames.push(fr);
                        let mut src = sources.pop().unwrap();
                        src.pos = pos2;
                        sources.push(src);
                        proof {
                            let st2 = crate::parse_spec::sp_step(st)->Next_0;
                            assert(frames@.map_values(|f: PageFrame| f@) =~= st2.frames);
                            assert(sources@.map_values(|s: SourceFrame| s@) =~= st2.sources);
                            assert(state_view(frames@, sources@, components@) =~= st2);
                    crate::parse_spec::lemma_remaining_nonneg(st2.sources);
                        }
                    },
                    ParsingAction::ParseInnards(b) => {
                        let mut fr = frames.pop().unwrap();
                        fr.flush_text();
                        frames.push(fr);
                        frames.push(PageFrame::new_child(b));
                        let mut src = sources.pop().unwrap();
                        src.pos = pos2;
                        sources.push(src);
                        proof {
                            let st2 = crate::parse_spec::sp_step(st)->Next_0;
                            assert(frames@.map_values(|f: PageFrame| f@) =~= st2.frames);
                            assert(sources@.map_values(|s: SourceFrame| s@) =~= st2.sources);
                            assert(state_view(frames@, sources@, components@) =~= st2);
                    crate::parse_spec::lemma_remaining_nonneg(st2.sources);
                        }
                    },
                    ParsingAction::Reference(d) => {
                        if in_flight(&sources, d.name.as_str()) {
                            return Err(crate::VelError::SelfNestingWithoutClose(d.name));
                        }
                        match crate::cache_find(components, d.name.as_str()) {
                            None => {
                                return Err(crate::VelError::UnknownComponent(d.name));
                            },
                            Some(idx) => {
                                let parsed_kids: Option<Vec<Element>> = match &components[idx].1 {
                                    crate::LazyDom::Parsed(dom) => Some(
                                        crate::ast::dup_elems(&dom.tree.children),
                                    ),
                                    crate::LazyDom::Unparsed(_) => None,
                                };
                                match parsed_kids {
                                    Some(kids) => {
                                        let mut d = d;
                                        d.children = kids;
                                        let mut fr = frames.pop().unwrap();
                                        fr.flush_text();
                                        frames.push(fr);
                                        frames.push(PageFrame::new_slot(d));
                                        let mut src = sources.pop().unwrap();
                                        src.pos = pos2;
                                        sources.push(src);
                                        proof {
                                            let st2 = crate::parse_spec::sp_step(st)->Next_0;
                                            assert(frames@.map_values(|f: PageFrame| f@)
                                                =~= st2.frames);
                                            assert(sources@.map_values(|s: SourceFrame| s@)
                                                =~= st2.sources);
                                            assert(state_view(frames@, sources@, components@)
                                                =~= st2);
                                            crate::parse_spec::lemma_remaining_nonneg(st2.sources);
                                        }
                                    },
                                    None => {
                                        let text2: Vec<char> = match &components[idx].1 {
                                            crate::LazyDom::Unparsed(srcs) => {
                                                crate::chars::str_to_chars(srcs.as_str())
                                            },
                                            _ => {
                                                proof {
                                                    assert(false);
                                                }
                                                Vec::new()
                                            },
                                        };
                                        let name_a = d.name.clone();
                                        let name_b = d.name.clone();
                                        let mut fr = frames.pop().unwrap();
                                        fr.flush_text();
                                        frames.push(fr);
                                        frames.push(PageFrame::new_slot(d));
                                        frames.push(PageFrame::new_document(name_a));
                                        let mut src = sources.pop().unwrap();
                                        src.pos = pos2;
                                        sources.push(src);
                                        sources.push(
                                            SourceFrame { name: name_b, text: text2, pos: 0 },
                                        );
                                        proof {
                                            let st2 = crate::parse_spec::sp_step(st)->Next_0;
                                            assert(frames@.map_values(|f: PageFrame| f@)
                                                =~= st2.frames);
                                            assert(sources@.map_values(|s: SourceFrame| s@)
                                                =~= st2.sources);
                                            assert(state_view(frames@, sources@, components@)
                                                =~= st2);
                                            crate::parse_spec::lemma_remaining_nonneg(st2.sources);
                                        }
                                    },
                                }
                            },
                        }
                    },
                }
            } else {
                let mut fr = frames.pop().unwrap();
                fr.string_buffer.push(c);
                frames.push(fr);
                let mut src = sources.pop().unwrap();
                src.pos = src.pos + 1;
                sources.push(src);
                proof {
                    let st2 = crate::parse_spec::sp_step(st)->Next_0;
                    assert(frames@.map_values(|f: PageFrame| f@) =~= st2.frames);
                    assert(sources@.map_values(|s: SourceFrame| s@) =~= st2.sources);
                    assert(state_view(frames@, sources@, components@) =~= st2);
                    crate::parse_spec::lemma_remaining_nonneg(st2.sources);
                }
            }
        }
    }
}

} // verus!
