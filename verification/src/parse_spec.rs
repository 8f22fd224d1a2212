//! The parsing machine, specified.
//!
//! Parsing is a per-character stack machine: one frame per open element,
//! one source per component being parsed. `sp_step` is the transition
//! function, `sp_run` its closure, and `sp_parse` what parsing one
//! component does to the registry.

use vstd::prelude::*;

use crate::model::{SpecAttrPart, SpecAttrs, SpecComp, SpecDoc, SpecElem, SpecNode, SpecRegistry, SpecSlot, SpecVoid, assoc_get};

verus! {

/// The structured failures of parsing and rendering.
pub enum SpecErr {
    UnknownComponent(Seq<char>),
    UnclosedTag(Seq<char>),
    MismatchedClose { expected: Seq<char>, found: Seq<char> },
    SelfNestingWithoutClose(Seq<char>),
    RecursionLimitExceeded { component: Seq<char>, parent: Option<Seq<char>> },
}

pub open spec fn sp_is_ws(c: char) -> bool {
    c == ' ' || c == '\t' || c == '\n' || c == '\r'
}

pub open spec fn sp_is_upper(c: char) -> bool {
    'A' <= c && c <= 'Z'
}

/// The fixed set of void element names.
pub open spec fn sp_is_void(name: Seq<char>) -> bool {
    ||| name == "!DOCTYPE"@
    ||| name == "area"@
    ||| name == "base"@
    ||| name == "br"@
    ||| name == "col"@
    ||| name == "embed"@
    ||| name == "hr"@
    ||| name == "img"@
    ||| name == "input"@
    ||| name == "link"@
    ||| name == "meta"@
    ||| name == "param"@
    ||| name == "source"@
    ||| name == "track"@
    ||| name == "wbr"@
}

/// The least index `j >= i` with `s[j] == c`, or `s.len()` if there is none.
pub open spec fn sp_find(s: Seq<char>, i: int, c: char) -> int
    decreases s.len() - i,
{
    if i < 0 || i >= s.len() {
        s.len() as int
    } else if s[i] == c {
        i
    } else {
        sp_find(s, i + 1, c)
    }
}

pub proof fn lemma_sp_find(s: Seq<char>, i: int, c: char)
    requires
        0 <= i <= s.len(),
    ensures
        i <= sp_find(s, i, c) <= s.len(),
        sp_find(s, i, c) < s.len() ==> s[sp_find(s, i, c)] == c,
    decreases s.len() - i,
{
    if i < s.len() && s[i] != c {
        lemma_sp_find(s, i + 1, c);
    }
}

/// The least index `j >= i` holding `>` outside quotes, or `s.len()`.
/// `q` is the quote character we are inside, if any.
pub open spec fn sp_find_gt(s: Seq<char>, i: int, q: Option<char>) -> int
    decreases s.len() - i,
{
    if i < 0 || i >= s.len() {
        s.len() as int
    } else {
        match q {
            Some(qc) => sp_find_gt(s, i + 1, if s[i] == qc { None } else { q }),
            None => if s[i] == '>' {
                i
            } else if s[i] == '"' || s[i] == '\'' {
                sp_find_gt(s, i + 1, Some(s[i]))
            } else {
                sp_find_gt(s, i + 1, None)
            },
        }
    }
}

pub proof fn lemma_sp_find_gt(s: Seq<char>, i: int, q: Option<char>)
    requires
        0 <= i <= s.len(),
    ensures
        i <= sp_find_gt(s, i, q) <= s.len(),
    decreases s.len() - i,
{
    if i < s.len() {
        match q {
            Some(qc) => lemma_sp_find_gt(s, i + 1, if s[i] == qc { None } else { q }),
            None => if s[i] == '>' {
            } else if s[i] == '"' || s[i] == '\'' {
                lemma_sp_find_gt(s, i + 1, Some(s[i]));
            } else {
                lemma_sp_find_gt(s, i + 1, None);
            },
        }
    }
}

/// The least index `j >= i` whose character is not whitespace, or `s.len()`.
pub open spec fn sp_skip_ws(s: Seq<char>, i: int) -> int
    decreases s.len() - i,
{
    if i < 0 || i >= s.len() {
        s.len() as int
    } else if sp_is_ws(s[i]) {
        sp_skip_ws(s, i + 1)
    } else {
        i
    }
}

pub proof fn lemma_sp_skip_ws(s: Seq<char>, i: int)
    requires
        0 <= i <= s.len(),
    ensures
        i <= sp_skip_ws(s, i) <= s.len(),
        sp_skip_ws(s, i) < s.len() ==> !sp_is_ws(s[sp_skip_ws(s, i)]),
    decreases s.len() - i,
{
    if i < s.len() && sp_is_ws(s[i]) {
        lemma_sp_skip_ws(s, i + 1);
    }
}

/// The least index `j >= i` holding whitespace or `=`, or `s.len()`:
/// where an attribute key ends.
pub open spec fn sp_key_end(s: Seq<char>, i: int) -> int
    decreases s.len() - i,
{
    if i < 0 || i >= s.len() {
        s.len() as int
    } else if sp_is_ws(s[i]) || s[i] == '=' {
        i
    } else {
        sp_key_end(s, i + 1)
    }
}

pub proof fn lemma_sp_key_end(s: Seq<char>, i: int)
    requires
        0 <= i <= s.len(),
    ensures
        i <= sp_key_end(s, i) <= s.len(),
        sp_key_end(s, i) < s.len() ==> sp_is_ws(s[sp_key_end(s, i)]) || s[sp_key_end(s, i)]
            == '=',
    decreases s.len() - i,
{
    if i < s.len() && !(sp_is_ws(s[i]) || s[i] == '=') {
        lemma_sp_key_end(s, i + 1);
    }
}

/// The least index `j >= i` holding whitespace, or `s.len()`: where an
/// unquoted attribute value ends.
pub open spec fn sp_ws_end(s: Seq<char>, i: int) -> int
    decreases s.len() - i,
{
    if i < 0 || i >= s.len() {
        s.len() as int
    } else if sp_is_ws(s[i]) {
        i
    } else {
        sp_ws_end(s, i + 1)
    }
}

pub proof fn lemma_sp_ws_end(s: Seq<char>, i: int)
    requires
        0 <= i <= s.len(),
    ensures
        i <= sp_ws_end(s, i) <= s.len(),
    decreases s.len() - i,
{
    if i < s.len() && !sp_is_ws(s[i]) {
        lemma_sp_ws_end(s, i + 1);
    }
}

/// Splits an attribute value's raw text into literal and `{name}` pieces.
pub open spec fn sp_attr_parts(text: Seq<char>, i: int) -> Seq<SpecAttrPart>
    decreases text.len() - i,
{
    if i < 0 || i >= text.len() {
        Seq::empty()
    } else if text[i] == '{' {
        let k = sp_find(text, i + 1, '}');
        proof {
            lemma_sp_find(text, i + 1, '}');
        }
        if k >= text.len() {
            seq![SpecAttrPart::Var(text.subrange(i + 1, text.len() as int))]
        } else {
            seq![SpecAttrPart::Var(text.subrange(i + 1, k))] + sp_attr_parts(text, k + 1)
        }
    } else {
        let j = sp_find(text, i, '{');
        proof {
            lemma_sp_find(text, i, '{');
        }
        seq![SpecAttrPart::Lit(text.subrange(i, j))] + sp_attr_parts(text, j)
    }
}

/// Where the attribute value starting at `i` (just after `=`) ends:
/// returns the value's raw text and the index after it. A quoted value
/// runs to its closing quote; an unquoted one to the next whitespace.
pub open spec fn sp_value_end(s: Seq<char>, i: int) -> (Seq<char>, int) {
    if i < 0 || i >= s.len() {
        (Seq::empty(), s.len() as int)
    } else if s[i] == '"' || s[i] == '\'' {
        let j = sp_find(s, i + 1, s[i]);
        if j >= s.len() {
            (s.subrange(i + 1, s.len() as int), s.len() as int)
        } else {
            (s.subrange(i + 1, j), j + 1)
        }
    } else {
        let j = sp_ws_end(s, i);
        (s.subrange(i, j), j)
    }
}

/// Replaces the value of `key` in an attribute list, or appends it.
pub open spec fn sp_assoc_set<T>(s: Seq<(Seq<char>, T)>, key: Seq<char>, v: T) -> Seq<
    (Seq<char>, T),
>
    decreases s.len(),
{
    if s.len() == 0 {
        seq![(key, v)]
    } else if s[0].0 == key {
        seq![(key, v)] + s.subrange(1, s.len() as int)
    } else {
        seq![s[0]] + sp_assoc_set(s.subrange(1, s.len() as int), key, v)
    }
}

/// Removes `key` from an attribute list (every occurrence).
pub open spec fn sp_assoc_remove<T>(s: Seq<(Seq<char>, T)>, key: Seq<char>) -> Seq<
    (Seq<char>, T),
>
    decreases s.len(),
{
    if s.len() == 0 {
        s
    } else if s[0].0 == key {
        sp_assoc_remove(s.subrange(1, s.len() as int), key)
    } else {
        seq![s[0]] + sp_assoc_remove(s.subrange(1, s.len() as int), key)
    }
}

/// Tokenizes the attribute text of a tag head, accumulating onto `acc`:
/// `key=value` pairs (quoted or not, with `{name}` pieces split out) and
/// bare keys, which stand for themselves (`key="key"`). A repeated key
/// overwrites its earlier value.
pub open spec fn sp_attrs_into(body: Seq<char>, k: int, acc: SpecAttrs) -> SpecAttrs
    decreases body.len() - k,
{
    if k < 0 {
        acc
    } else {
        let i = sp_skip_ws(body, k);
        proof {
            if k <= body.len() {
                lemma_sp_skip_ws(body, k);
            }
        }
        if i >= body.len() {
            acc
        } else {
            let e = sp_key_end(body, i);
            proof {
                lemma_sp_key_end(body, i);
            }
            let key = body.subrange(i, e);
            if e < body.len() && body[e] == '=' {
                let (vt, next) = sp_value_end(body, e + 1);
                proof {
                    if e + 1 < body.len() {
                        lemma_sp_find(body, e + 2, body[e + 1]);
                        lemma_sp_ws_end(body, e + 1);
                    }
                }
                sp_attrs_into(body, next, sp_assoc_set(acc, key, sp_attr_parts(vt, 0)))
            } else {
                sp_attrs_into(body, e, sp_assoc_set(acc, key, seq![SpecAttrPart::Lit(key)]))
            }
        }
    }
}

/// The slot key named by an attribute value: the concatenation of its
/// literal pieces, or the default key if any piece is a variable
/// (variable-valued slot keys resolve to the default key).
pub open spec fn sp_key_of_parts(parts: Seq<SpecAttrPart>) -> Seq<char> {
    if exists|i: int| 0 <= i < parts.len() && parts[i] is Var {
        "default"@
    } else {
        sp_cat_lits(parts)
    }
}

pub open spec fn sp_cat_lits(parts: Seq<SpecAttrPart>) -> Seq<char>
    decreases parts.len(),
{
    if parts.len() == 0 {
        Seq::empty()
    } else {
        sp_cat_lits(parts.subrange(0, parts.len() - 1)) + (match parts[parts.len() - 1] {
            SpecAttrPart::Lit(t) => t,
            SpecAttrPart::Var(_) => Seq::empty(),
        })
    }
}

/// The slot key taken from an attribute list under `attr`, defaulting.
pub open spec fn sp_key_attr(attrs: SpecAttrs, attr: Seq<char>) -> Seq<char> {
    match assoc_get(attrs, attr) {
        Some(parts) => sp_key_of_parts(parts),
        None => "default"@,
    }
}

/// One source being parsed: the component's name, its text, and the cursor.
#[verifier::ext_equal]
pub struct SpecSource {
    pub name: Seq<char>,
    pub text: Seq<char>,
    pub pos: int,
}

/// The element a frame is building: only these can gain children.
#[verifier::ext_equal]
pub enum SpecBuild {
    Doc(SpecDoc),
    Node(SpecNode),
    Slot(SpecSlot),
}

/// Where a frame routes finished elements: into ordinary children, or
/// into a call-site Document's slot overlay keyed by `slot` attributes.
#[verifier::ext_equal]
pub enum SpecTarget {
    Children,
    Slots,
}

/// One in-progress parse frame: an open element, its push target, and the
/// pending literal text.
#[verifier::ext_equal]
pub struct SpecFrame {
    pub build: SpecBuild,
    pub target: SpecTarget,
    pub buffer: Seq<char>,
}

/// The whole machine state.
#[verifier::ext_equal]
pub struct SpecPState {
    pub frames: Seq<SpecFrame>,
    pub sources: Seq<SpecSource>,
    pub reg: SpecRegistry,
}

/// One transition's outcome.
#[verifier::ext_equal]
pub enum SpecStep {
    Next(SpecPState),
    Done(SpecRegistry),
    Fail(SpecErr, SpecRegistry),
}

/// The name a closing tag must match: a Slot frame closes with the
/// reserved sentinel.
pub open spec fn sp_build_name(b: SpecBuild) -> Seq<char> {
    match b {
        SpecBuild::Doc(d) => d.name,
        SpecBuild::Node(n) => n.name,
        SpecBuild::Slot(_) => "Slot"@,
    }
}

pub open spec fn sp_build_elem(b: SpecBuild) -> SpecElem {
    match b {
        SpecBuild::Doc(d) => SpecElem::Doc(d),
        SpecBuild::Node(n) => SpecElem::Node(n),
        SpecBuild::Slot(s) => SpecElem::Slot(s),
    }
}

/// The slot key an element carries: the key its `slot` attribute names;
/// text and variables go to the default key. The attribute stays on the
/// element, so caller content renders with it visible.
pub open spec fn sp_elem_slot_key(el: SpecElem) -> (Seq<char>, SpecElem) {
    match el {
        SpecElem::Doc(d) => (sp_key_attr(d.attrs, "slot"@), el),
        SpecElem::Node(n) => (sp_key_attr(n.attrs, "slot"@), el),
        SpecElem::Slot(s) => (sp_key_attr(s.attrs, "slot"@), el),
        SpecElem::Text(_) => ("default"@, el),
        SpecElem::Var(_) => ("default"@, el),
        SpecElem::Void(v) => (sp_key_attr(v.attrs, "slot"@), el),
    }
}

/// Appends an element under its key in a slot overlay, keeping key order.
pub open spec fn sp_slots_add(
    slots: Seq<(Seq<char>, Seq<SpecElem>)>,
    key: Seq<char>,
    el: SpecElem,
) -> Seq<(Seq<char>, Seq<SpecElem>)>
    decreases slots.len(),
{
    if slots.len() == 0 {
        seq![(key, seq![el])]
    } else if slots[0].0 == key {
        seq![(key, slots[0].1.push(el))] + slots.subrange(1, slots.len() as int)
    } else {
        seq![slots[0]] + sp_slots_add(slots.subrange(1, slots.len() as int), key, el)
    }
}

pub open spec fn sp_build_push(b: SpecBuild, el: SpecElem) -> SpecBuild {
    match b {
        SpecBuild::Doc(d) => SpecBuild::Doc(SpecDoc { children: d.children.push(el), ..d }),
        SpecBuild::Node(n) => SpecBuild::Node(SpecNode { children: n.children.push(el), ..n }),
        SpecBuild::Slot(s) => SpecBuild::Slot(SpecSlot { children: s.children.push(el), ..s }),
    }
}

/// What pushing a finished element into a frame does: ordinary frames gain
/// a child; a slot-target frame files the element into the call-site
/// Document's overlay under the element's own slot key.
pub open spec fn sp_frame_push(f: SpecFrame, el: SpecElem) -> SpecFrame {
    match f.target {
        SpecTarget::Children => SpecFrame { build: sp_build_push(f.build, el), ..f },
        SpecTarget::Slots => match f.build {
            SpecBuild::Doc(d) => {
                let (key, el2) = sp_elem_slot_key(el);
                SpecFrame {
                    build: SpecBuild::Doc(SpecDoc { slots: sp_slots_add(d.slots, key, el2), ..d }),
                    ..f
                }
            },
            _ => f,
        },
    }
}

/// Flushes a frame's pending text as a Text element, if any.
pub open spec fn sp_flush(f: SpecFrame) -> SpecFrame {
    if f.buffer.len() == 0 {
        f
    } else {
        SpecFrame { buffer: Seq::empty(), ..sp_frame_push(f, SpecElem::Text(f.buffer)) }
    }
}

/// Whether `name` is a component currently being parsed (an open source).
pub open spec fn sp_in_flight(sources: Seq<SpecSource>, name: Seq<char>) -> bool {
    exists|i: int| 0 <= i < sources.len() && sources[i].name == name
}

pub open spec fn sp_is_owner(f: SpecFrame) -> bool {
    f.build is Doc && f.target is Children
}

pub open spec fn sp_is_site(f: SpecFrame) -> bool {
    f.build is Doc && f.target is Slots
}

/// Updates the top frame.
pub open spec fn sp_set_top(st: SpecPState, f: SpecFrame) -> SpecPState {
    SpecPState { frames: st.frames.update(st.frames.len() - 1, f), ..st }
}

/// Moves the active cursor to `p`.
pub open spec fn sp_set_pos(st: SpecPState, p: int) -> SpecPState {
    let src = st.sources.last();
    SpecPState {
        sources: st.sources.update(st.sources.len() - 1, SpecSource { pos: p, ..src }),
        ..st
    }
}

/// Completes the top frame's Document (the active source's component
/// root): records it Parsed, pops frame and source, and, at a nested
/// completion, copies its children into the call site below.
pub open spec fn sp_complete(st: SpecPState) -> SpecStep {
    let f2 = sp_flush(st.frames.last());
    match f2.build {
        SpecBuild::Doc(d2) => {
            let reg2 = st.reg.insert(d2.name, SpecComp::Parsed(d2));
            let frames2 = st.frames.drop_last();
            let sources2 = st.sources.drop_last();
            if frames2.len() == 0 {
                SpecStep::Done(reg2)
            } else {
                match frames2.last().build {
                    SpecBuild::Doc(site) => SpecStep::Next(
                        SpecPState {
                            frames: frames2.update(
                                frames2.len() - 1,
                                SpecFrame {
                                    build: SpecBuild::Doc(SpecDoc { children: d2.children, ..site }),
                                    ..frames2.last()
                                },
                            ),
                            sources: sources2,
                            reg: reg2,
                        },
                    ),
                    _ => SpecStep::Done(reg2),
                }
            }
        },
        _ => SpecStep::Done(st.reg),
    }
}

/// The transition on an exhausted source: the component's root completes;
/// any other open frame is an unclosed tag.
pub open spec fn sp_step_exhausted(st: SpecPState) -> SpecStep {
    let f = st.frames.last();
    if sp_is_owner(f) {
        sp_complete(st)
    } else {
        SpecStep::Fail(SpecErr::UnclosedTag(sp_build_name(f.build)), st.reg)
    }
}

/// The transition on a closing tag `</cname>`, with the cursor already
/// past its `>`.
pub open spec fn sp_step_close(st: SpecPState, cname: Seq<char>, pos2: int) -> SpecStep {
    let f2 = sp_flush(st.frames.last());
    if cname == sp_build_name(f2.build) {
        if sp_is_owner(f2) {
            sp_complete(sp_set_top(st, f2))
        } else {
            let frames2 = st.frames.drop_last();
            if frames2.len() == 0 {
                SpecStep::Done(st.reg)
            } else {
                let parent2 = sp_frame_push(frames2.last(), sp_build_elem(f2.build));
                SpecStep::Next(
                    sp_set_pos(
                        SpecPState {
                            frames: frames2.update(frames2.len() - 1, parent2),
                            ..st
                        },
                        pos2,
                    ),
                )
            }
        }
    } else {
        SpecStep::Fail(
            SpecErr::MismatchedClose { expected: sp_build_name(f2.build), found: cname },
            st.reg,
        )
    }
}

/// The transition on a component reference `<Name ...>` or `<Name .../>`.
/// A self-closing reference is recorded and resolved at render time; an
/// open one consults the registry at once, and referencing a component
/// that is itself still being parsed is a structural error.
pub open spec fn sp_step_ref(
    st: SpecPState,
    name: Seq<char>,
    attrs: SpecAttrs,
    self_closing: bool,
    pos2: int,
) -> SpecStep {
    if self_closing {
        let el = SpecElem::Doc(
            SpecDoc { name, attrs, slots: Seq::empty(), children: Seq::empty() },
        );
        SpecStep::Next(
            sp_set_pos(sp_set_top(st, sp_frame_push(sp_flush(st.frames.last()), el)), pos2),
        )
    } else if sp_in_flight(st.sources, name) {
        SpecStep::Fail(SpecErr::SelfNestingWithoutClose(name), st.reg)
    } else if !st.reg.dom().contains(name) {
        SpecStep::Fail(SpecErr::UnknownComponent(name), st.reg)
    } else {
        match st.reg[name] {
            SpecComp::Parsed(pd) => {
                let site = SpecFrame {
                    build: SpecBuild::Doc(
                        SpecDoc { name, attrs, slots: Seq::empty(), children: pd.children },
                    ),
                    target: SpecTarget::Slots,
                    buffer: Seq::empty(),
                };
                let st2 = sp_set_pos(sp_set_top(st, sp_flush(st.frames.last())), pos2);
                SpecStep::Next(SpecPState { frames: st2.frames.push(site), ..st2 })
            },
            SpecComp::Unparsed(src2) => {
                let site = SpecFrame {
                    build: SpecBuild::Doc(
                        SpecDoc { name, attrs, slots: Seq::empty(), children: Seq::empty() },
                    ),
                    target: SpecTarget::Slots,
                    buffer: Seq::empty(),
                };
                let owner = SpecFrame {
                    build: SpecBuild::Doc(
                        SpecDoc {
                            name,
                            attrs: Seq::empty(),
                            slots: Seq::empty(),
                            children: Seq::empty(),
                        },
                    ),
                    target: SpecTarget::Children,
                    buffer: Seq::empty(),
                };
                let st2 = sp_set_pos(sp_set_top(st, sp_flush(st.frames.last())), pos2);
                SpecStep::Next(
                    SpecPState {
                        frames: st2.frames.push(site).push(owner),
                        sources: st2.sources.push(SpecSource { name, text: src2, pos: 0 }),
                        reg: st2.reg,
                    },
                )
            },
        }
    }
}

/// What one tag head means, before any effect on the machine: the
/// tokenized dispatch of `<...>`.
#[verifier::ext_equal]
pub enum SpecTagAction {
    Unclosed(Seq<char>),
    Literal(Seq<char>),
    Close(Seq<char>),
    Mpreg(SpecElem),
    Innards(SpecBuild),
    Reference(SpecDoc),
}

/// The cursor position just past the tag head, or the end of the text
/// when its `>` never comes.
pub open spec fn sp_tag_end(text: Seq<char>, pos: int) -> int {
    let j = sp_find_gt(text, pos + 1, None);
    if j >= text.len() {
        text.len() as int
    } else {
        j + 1
    }
}

/// Tokenizes the tag head at `pos` (which holds `<`) and classifies it:
/// a close tag, a slot placeholder, a component reference, a void
/// element, or an ordinary node; self-closing forms yield the finished
/// element at once.
pub open spec fn sp_classify(text: Seq<char>, pos: int) -> SpecTagAction {
    let j = sp_find_gt(text, pos + 1, None);
    if j >= text.len() {
        SpecTagAction::Unclosed(text.subrange(pos + 1, text.len() as int))
    } else {
        let raw = text.subrange(pos + 1, j);
        let self_closing = raw.len() > 0 && raw.last() == '/';
        let body = if self_closing {
            raw.drop_last()
        } else {
            raw
        };
        let ne = sp_ws_end(body, 0);
        let name = body.subrange(0, ne);
        let attrs = sp_attrs_into(body, ne, Seq::empty());
        if name.len() == 0 {
            SpecTagAction::Literal(text.subrange(pos, j + 1))
        } else if name[0] == '/' {
            SpecTagAction::Close(name.subrange(1, name.len() as int))
        } else if name == "Slot"@ {
            let key = sp_key_attr(attrs, "name"@);
            let attrs2 = sp_assoc_remove(attrs, "name"@);
            if self_closing {
                SpecTagAction::Mpreg(
                    SpecElem::Slot(SpecSlot { key, attrs: attrs2, children: Seq::empty() }),
                )
            } else {
                SpecTagAction::Innards(
                    SpecBuild::Slot(SpecSlot { key, attrs: attrs2, children: Seq::empty() }),
                )
            }
        } else if sp_is_upper(name[0]) {
            if self_closing {
                SpecTagAction::Mpreg(
                    SpecElem::Doc(
                        SpecDoc { name, attrs, slots: Seq::empty(), children: Seq::empty() },
                    ),
                )
            } else {
                SpecTagAction::Reference(
                    SpecDoc { name, attrs, slots: Seq::empty(), children: Seq::empty() },
                )
            }
        } else if sp_is_void(name) {
            SpecTagAction::Mpreg(SpecElem::Void(SpecVoid { name, attrs }))
        } else if self_closing {
            SpecTagAction::Mpreg(
                SpecElem::Node(SpecNode { name, attrs, children: Seq::empty() }),
            )
        } else {
            SpecTagAction::Innards(
                SpecBuild::Node(SpecNode { name, attrs, children: Seq::empty() }),
            )
        }
    }
}

/// The transition on `<`: tokenizes the tag head and applies its effect.
pub open spec fn sp_step_tag(st: SpecPState) -> SpecStep {
    let src = st.sources.last();
    let f = st.frames.last();
    let pos2 = sp_tag_end(src.text, src.pos);
    match sp_classify(src.text, src.pos) {
        SpecTagAction::Unclosed(t) => SpecStep::Fail(SpecErr::UnclosedTag(t), st.reg),
        SpecTagAction::Literal(chunk) => SpecStep::Next(
            sp_set_pos(sp_set_top(st, SpecFrame { buffer: f.buffer + chunk, ..f }), pos2),
        ),
        SpecTagAction::Close(cname) => sp_step_close(sp_set_pos(st, pos2), cname, pos2),
        SpecTagAction::Mpreg(el) => SpecStep::Next(
            sp_set_pos(sp_set_top(st, sp_frame_push(sp_flush(f), el)), pos2),
        ),
        SpecTagAction::Innards(b) => {
            let child = SpecFrame { build: b, target: SpecTarget::Children, buffer: Seq::empty() };
            let st2 = sp_set_pos(sp_set_top(st, sp_flush(f)), pos2);
            SpecStep::Next(SpecPState { frames: st2.frames.push(child), ..st2 })
        },
        SpecTagAction::Reference(d) => sp_step_ref(st, d.name, d.attrs, false, pos2),
    }
}

/// The frames' shape agrees with the sources': each component-root frame
/// owns one source of the same name, the frame directly below a root is
/// its call site, and the bottom frame is the requested root.
pub open spec fn frames_sources_ok(frames: Seq<SpecFrame>, sources: Seq<SpecSource>) -> bool
    decreases frames.len(),
{
    if frames.len() == 0 {
        sources.len() == 0
    } else {
        let f = frames.last();
        if sp_is_owner(f) {
            &&& sources.len() >= 1
            &&& sp_build_name(f.build) == sources.last().name
            &&& (frames.len() >= 2 ==> sp_is_site(frames[frames.len() - 2]))
            &&& frames_sources_ok(frames.drop_last(), sources.drop_last())
        } else {
            &&& frames.len() >= 2
            &&& frames_sources_ok(frames.drop_last(), sources)
        }
    }
}

/// The machine's invariant.
pub open spec fn sp_wf(st: SpecPState) -> bool {
    &&& st.frames.len() >= 1
    &&& st.sources.len() >= 1
    &&& frames_sources_ok(st.frames, st.sources)
    &&& forall|i: int|
        0 <= i < st.sources.len() ==> 0 <= (#[trigger] st.sources[i]).pos
            <= st.sources[i].text.len()
    &&& forall|i: int, j: int|
        0 <= i < j < st.sources.len() ==> (#[trigger] st.sources[i]).name != (
        #[trigger] st.sources[j]).name
    &&& st.reg.dom().finite()
}

pub open spec fn sp_closed_pred(st: SpecPState) -> spec_fn(Seq<char>) -> bool {
    |n: Seq<char>| st.reg[n] is Unparsed && !sp_in_flight(st.sources, n)
}

/// The registry entries that are raw source and not currently open:
/// the components that could still be pushed as new sources.
pub open spec fn sp_unparsed_closed(st: SpecPState) -> Set<Seq<char>> {
    st.reg.dom().filter(sp_closed_pred(st))
}

pub proof fn lemma_unparsed_closed_finite(st: SpecPState)
    requires
        st.reg.dom().finite(),
    ensures
        sp_unparsed_closed(st).finite(),
{
    st.reg.dom().lemma_len_filter(sp_closed_pred(st));
}

pub open spec fn meas_a(st: SpecPState) -> nat {
    sp_unparsed_closed(st).len()
}

pub open spec fn sp_rem1(s: SpecSource) -> int {
    if s.pos <= s.text.len() {
        s.text.len() - s.pos
    } else {
        0
    }
}

/// The characters still to be consumed, over all open sources.
pub open spec fn sp_remaining(sources: Seq<SpecSource>) -> int
    decreases sources.len(),
{
    if sources.len() == 0 {
        0
    } else {
        sp_remaining(sources.drop_last()) + sp_rem1(sources.last())
    }
}

pub open spec fn meas_b(st: SpecPState) -> int {
    sp_remaining(st.sources)
}

pub open spec fn meas_c(st: SpecPState) -> int {
    st.frames.len() as int
}

pub proof fn lemma_remaining_nonneg(sources: Seq<SpecSource>)
    ensures
        sp_remaining(sources) >= 0,
    decreases sources.len(),
{
    if sources.len() > 0 {
        lemma_remaining_nonneg(sources.drop_last());
    }
}

pub proof fn lemma_remaining_update_last(sources: Seq<SpecSource>, src2: SpecSource)
    requires
        sources.len() >= 1,
    ensures
        sp_remaining(sources.update(sources.len() - 1, src2)) == sp_remaining(sources)
            - sp_rem1(sources.last()) + sp_rem1(src2),
{
    let t = sources.update(sources.len() - 1, src2);
    assert(t.drop_last() =~= sources.drop_last());
    assert(t.last() == src2);
}

pub proof fn lemma_remaining_push(sources: Seq<SpecSource>, s: SpecSource)
    ensures
        sp_remaining(sources.push(s)) == sp_remaining(sources) + sp_rem1(s),
{
    let t = sources.push(s);
    assert(t.drop_last() =~= sources);
    assert(t.last() == s);
}

/// Pushing an element into a frame, or flushing it, keeps the frame's
/// close-name and its role.
pub proof fn lemma_push_keeps_shape(f: SpecFrame, el: SpecElem)
    ensures
        sp_build_name(sp_frame_push(f, el).build) == sp_build_name(f.build),
        sp_is_owner(sp_frame_push(f, el)) == sp_is_owner(f),
        sp_is_site(sp_frame_push(f, el)) == sp_is_site(f),
        sp_build_name(sp_flush(f).build) == sp_build_name(f.build),
        sp_is_owner(sp_flush(f)) == sp_is_owner(f),
        sp_is_site(sp_flush(f)) == sp_is_site(f),
{
}

/// Replacing the top frame with one of the same close-name and role keeps
/// the shape invariant.
pub proof fn lemma_fso_set_top(frames: Seq<SpecFrame>, sources: Seq<SpecSource>, f2: SpecFrame)
    requires
        frames_sources_ok(frames, sources),
        frames.len() >= 1,
        sp_build_name(f2.build) == sp_build_name(frames.last().build),
        sp_is_owner(f2) == sp_is_owner(frames.last()),
        sp_is_site(f2) == sp_is_site(frames.last()),
    ensures
        frames_sources_ok(frames.update(frames.len() - 1, f2), sources),
{
    let t = frames.update(frames.len() - 1, f2);
    assert(t.drop_last() =~= frames.drop_last());
    assert(t.last() == f2);
    if frames.len() >= 2 {
        assert(t[t.len() - 2] == frames[frames.len() - 2]);
    }
}

/// Pushing a frame that is not a component root keeps the shape invariant.
pub proof fn lemma_fso_push_child(
    frames: Seq<SpecFrame>,
    sources: Seq<SpecSource>,
    child: SpecFrame,
)
    requires
        frames_sources_ok(frames, sources),
        frames.len() >= 1,
        !sp_is_owner(child),
    ensures
        frames_sources_ok(frames.push(child), sources),
{
    let t = frames.push(child);
    assert(t.drop_last() =~= frames);
}

/// The registry measure reads only the registry and the source names.
pub proof fn lemma_meas_a_same(st: SpecPState, st2: SpecPState)
    requires
        st2.reg == st.reg,
        st2.sources.len() == st.sources.len(),
        forall|i: int|
            0 <= i < st.sources.len() ==> (#[trigger] st2.sources[i]).name
                == st.sources[i].name,
    ensures
        meas_a(st2) == meas_a(st),
{
    assert forall|n: Seq<char>| sp_in_flight(st.sources, n) implies sp_in_flight(
        st2.sources,
        n,
    ) by {
        let i = choose|i: int| 0 <= i < st.sources.len() && st.sources[i].name == n;
        assert(st2.sources[i].name == n);
    }
    assert forall|n: Seq<char>| sp_in_flight(st2.sources, n) implies sp_in_flight(
        st.sources,
        n,
    ) by {
        let i = choose|i: int| 0 <= i < st2.sources.len() && st2.sources[i].name == n;
        assert(st.sources[i].name == n);
    }
    assert(sp_unparsed_closed(st2) =~= sp_unparsed_closed(st));
}

/// The shape invariant reads only the sources' names, never their texts
/// or cursors.
pub proof fn lemma_fso_same_names(
    frames: Seq<SpecFrame>,
    sources: Seq<SpecSource>,
    sources2: Seq<SpecSource>,
)
    requires
        frames_sources_ok(frames, sources),
        sources2.len() == sources.len(),
        forall|i: int|
            0 <= i < sources.len() ==> (#[trigger] sources2[i]).name == sources[i].name,
    ensures
        frames_sources_ok(frames, sources2),
    decreases frames.len(),
{
    if frames.len() > 0 {
        let f = frames.last();
        if sp_is_owner(f) {
            assert(sources2.last().name == sources.last().name);
            assert(forall|i: int|
                0 <= i < sources.drop_last().len() ==> (#[trigger] sources2.drop_last()[i]).name
                    == sources.drop_last()[i].name);
            lemma_fso_same_names(frames.drop_last(), sources.drop_last(), sources2.drop_last());
        } else {
            lemma_fso_same_names(frames.drop_last(), sources, sources2);
        }
    }
}

/// While any frame is open, at least one source is.
pub proof fn lemma_fso_sources_len(frames: Seq<SpecFrame>, sources: Seq<SpecSource>)
    requires
        frames_sources_ok(frames, sources),
        frames.len() >= 1,
    ensures
        sources.len() >= 1,
    decreases frames.len(),
{
    if !sp_is_owner(frames.last()) {
        lemma_fso_sources_len(frames.drop_last(), sources);
    }
}

/// Replacing the top frame shape-preservingly and advancing the cursor
/// keeps the invariant, keeps the registry measure, and strictly shrinks
/// the remaining text.
pub proof fn lemma_advance(st: SpecPState, f2: SpecFrame, p2: int)
    requires
        sp_wf(st),
        sp_build_name(f2.build) == sp_build_name(st.frames.last().build),
        sp_is_owner(f2) == sp_is_owner(st.frames.last()),
        sp_is_site(f2) == sp_is_site(st.frames.last()),
        st.sources.last().pos < p2 <= st.sources.last().text.len(),
    ensures
        sp_wf(sp_set_pos(sp_set_top(st, f2), p2)),
        meas_a(sp_set_pos(sp_set_top(st, f2), p2)) == meas_a(st),
        meas_b(sp_set_pos(sp_set_top(st, f2), p2)) < meas_b(st),
        sp_set_pos(sp_set_top(st, f2), p2).frames.len() == st.frames.len(),
        sp_set_pos(sp_set_top(st, f2), p2).sources.len() == st.sources.len(),
        sp_set_pos(sp_set_top(st, f2), p2).reg == st.reg,
        forall|i: int|
            0 <= i < st.sources.len() ==> (#[trigger] sp_set_pos(
                sp_set_top(st, f2),
                p2,
            ).sources[i]).name == st.sources[i].name,
{
    let st2 = sp_set_pos(sp_set_top(st, f2), p2);
    lemma_fso_set_top(st.frames, st.sources, f2);
    lemma_fso_same_names(st2.frames, st.sources, st2.sources);
    lemma_meas_a_same(st, st2);
    lemma_remaining_update_last(
        st.sources,
        SpecSource { pos: p2, ..st.sources.last() },
    );
}

/// Completing the top component root preserves the invariant and takes a
/// frame away without growing any measure.
pub proof fn lemma_complete_ok(st: SpecPState)
    requires
        sp_wf(st),
        sp_is_owner(st.frames.last()),
    ensures
        match sp_complete(st) {
            SpecStep::Next(st2) => {
                &&& sp_wf(st2)
                &&& meas_a(st2) == meas_a(st)
                &&& meas_b(st2) <= meas_b(st)
                &&& meas_c(st2) < meas_c(st)
                &&& st2.sources.len() >= 1 && st2.sources[0].name == st.sources[0].name
            },
            SpecStep::Done(reg) => reg.contains_key(st.sources[0].name) && reg[st.sources[0].name]
                is Parsed,
            _ => true,
        },
{
    broadcast use vstd::set::group_set_axioms;

    let f = st.frames.last();
    let f2 = sp_flush(f);
    lemma_push_keeps_shape(f, SpecElem::Text(f.buffer));
    let d2 = f2.build->Doc_0;
    assert(d2.name == st.sources.last().name);
    let reg2 = st.reg.insert(d2.name, SpecComp::Parsed(d2));
    let frames2 = st.frames.drop_last();
    let sources2 = st.sources.drop_last();
    lemma_remaining_nonneg(sources2);
    assert(sp_remaining(sources2) <= sp_remaining(st.sources));
    if frames2.len() == 0 {
        assert(frames_sources_ok(st.frames, st.sources));
        assert(frames_sources_ok(frames2, sources2));
        assert(sources2.len() == 0);
        assert(st.sources.len() == 1);
        assert(d2.name == st.sources[0].name);
    }
    if frames2.len() > 0 {
        assert(sp_is_site(frames2.last()));
        let site = frames2.last().build->Doc_0;
        let parent2 = SpecFrame {
            build: SpecBuild::Doc(SpecDoc { children: d2.children, ..site }),
            ..frames2.last()
        };
        let st2 = SpecPState {
            frames: frames2.update(frames2.len() - 1, parent2),
            sources: sources2,
            reg: reg2,
        };
        assert(sp_complete(st) == SpecStep::Next(st2));
        lemma_fso_set_top(frames2, sources2, parent2);
        lemma_fso_sources_len(st2.frames, st2.sources);
        // the registry measure is unchanged: the completed name was open,
        // so it never counted, and it is the only name closed by the pop
        assert forall|n: Seq<char>|
            sp_unparsed_closed(st2).contains(n) == sp_unparsed_closed(st).contains(n) by {
            if n == d2.name {
                assert(sp_in_flight(st.sources, n));
                assert(!(reg2[n] is Unparsed));
            } else {
                assert(reg2.contains_key(n) == st.reg.contains_key(n));
                if sp_in_flight(st.sources, n) {
                    let i = choose|i: int|
                        0 <= i < st.sources.len() && st.sources[i].name == n;
                    assert(i < st.sources.len() - 1);
                    assert(sources2[i].name == n);
                }
                if sp_in_flight(sources2, n) {
                    let i = choose|i: int| 0 <= i < sources2.len() && sources2[i].name == n;
                    assert(st.sources[i].name == n);
                }
            }
        }
        assert(sp_unparsed_closed(st2) =~= sp_unparsed_closed(st));
    }
}

/// The lexicographic decrease of the machine's measure.
pub open spec fn sp_lex_dec(st: SpecPState, st2: SpecPState) -> bool {
    ||| meas_a(st2) < meas_a(st)
    ||| (meas_a(st2) == meas_a(st) && meas_b(st2) < meas_b(st))
    ||| (meas_a(st2) == meas_a(st) && meas_b(st2) == meas_b(st) && meas_c(st2) < meas_c(st))
}

/// Every transition out of a well-formed state lands in a well-formed
/// state and strictly shrinks the measure: the machine terminates.
#[verifier::rlimit(100)]
pub proof fn lemma_sp_step_next(st: SpecPState)
    requires
        sp_wf(st),
    ensures
        match sp_step(st) {
            SpecStep::Next(st2) => sp_wf(st2) && sp_lex_dec(st, st2) && st2.sources.len() >= 1
                && st2.sources[0].name == st.sources[0].name,
            SpecStep::Done(reg) => reg.contains_key(st.sources[0].name) && reg[st.sources[0].name]
                is Parsed,
            _ => true,
        },
{
    broadcast use vstd::set::group_set_axioms;

    let src = st.sources.last();
    let f = st.frames.last();
    let n = src.text.len() as int;
    if src.pos >= n {
        if sp_is_owner(f) {
            lemma_complete_ok(st);
        }
    } else {
        let c = src.text[src.pos];
        if c == '\\' {
            if src.pos + 1 < n {
                lemma_advance(
                    st,
                    SpecFrame { buffer: f.buffer.push(src.text[src.pos + 1]), ..f },
                    src.pos + 2,
                );
            } else {
                lemma_advance(st, f, src.pos + 1);
                assert(sp_set_pos(sp_set_top(st, f), src.pos + 1) =~= sp_set_pos(
                    st,
                    src.pos + 1,
                ));
            }
        } else if c == '{' {
            lemma_sp_find(src.text, src.pos + 1, '}');
            let k = sp_find(src.text, src.pos + 1, '}');
            let pos2 = if k >= n {
                n
            } else {
                k + 1
            };
            lemma_push_keeps_shape(f, SpecElem::Text(f.buffer));
            lemma_push_keeps_shape(
                sp_flush(f),
                SpecElem::Var(src.text.subrange(src.pos + 1, k)),
            );
            lemma_advance(
                st,
                sp_frame_push(sp_flush(f), SpecElem::Var(src.text.subrange(src.pos + 1, k))),
                pos2,
            );
        } else if c == '<' {
            lemma_sp_find_gt(src.text, src.pos + 1, None);
            let j = sp_find_gt(src.text, src.pos + 1, None);
            if j < n {
                lemma_sp_step_tag(st);
            }
        } else {
            lemma_advance(st, SpecFrame { buffer: f.buffer.push(c), ..f }, src.pos + 1);
        }
    }
}

/// The tag transitions, separated out.
#[verifier::rlimit(100)]
pub proof fn lemma_sp_step_tag(st: SpecPState)
    requires
        sp_wf(st),
        st.sources.last().pos < st.sources.last().text.len(),
        st.sources.last().text[st.sources.last().pos] == '<',
        sp_find_gt(st.sources.last().text, st.sources.last().pos + 1, None)
            < st.sources.last().text.len(),
    ensures
        match sp_step_tag(st) {
            SpecStep::Next(st2) => sp_wf(st2) && sp_lex_dec(st, st2) && st2.sources.len() >= 1
                && st2.sources[0].name == st.sources[0].name,
            SpecStep::Done(reg) => reg.contains_key(st.sources[0].name) && reg[st.sources[0].name]
                is Parsed,
            _ => true,
        },
{
    broadcast use vstd::set::group_set_axioms;

    let src = st.sources.last();
    let f = st.frames.last();
    let n = src.text.len() as int;
    lemma_sp_find_gt(src.text, src.pos + 1, None);
    let j = sp_find_gt(src.text, src.pos + 1, None);
    let raw = src.text.subrange(src.pos + 1, j);
    let self_closing = raw.len() > 0 && raw.last() == '/';
    let body = if self_closing {
        raw.drop_last()
    } else {
        raw
    };
    let ne = sp_ws_end(body, 0);
    lemma_sp_ws_end(body, 0);
    let name = body.subrange(0, ne);
    let attrs = sp_attrs_into(body, ne, Seq::empty());
    let pos2 = j + 1;
    lemma_push_keeps_shape(f, SpecElem::Text(f.buffer));
    let ff = sp_flush(f);
    if name.len() == 0 {
        lemma_advance(
            st,
            SpecFrame { buffer: f.buffer + src.text.subrange(src.pos, pos2), ..f },
            pos2,
        );
    } else if name[0] == '/' {
        lemma_sp_step_close(st, name.subrange(1, name.len() as int), pos2);
    } else if name == "Slot"@ {
        let key = sp_key_attr(attrs, "name"@);
        let attrs2 = sp_assoc_remove(attrs, "name"@);
        if self_closing {
            let el = SpecElem::Slot(SpecSlot { key, attrs: attrs2, children: Seq::empty() });
            lemma_push_keeps_shape(ff, el);
            lemma_advance(st, sp_frame_push(ff, el), pos2);
        } else {
            let child = SpecFrame {
                build: SpecBuild::Slot(SpecSlot { key, attrs: attrs2, children: Seq::empty() }),
                target: SpecTarget::Children,
                buffer: Seq::empty(),
            };
            lemma_open_child(st, ff, child, pos2);
        }
    } else if sp_is_upper(name[0]) {
        if self_closing {
            let el = SpecElem::Doc(
                SpecDoc { name, attrs, slots: Seq::empty(), children: Seq::empty() },
            );
            lemma_push_keeps_shape(ff, el);
            lemma_advance(st, sp_frame_push(ff, el), pos2);
        } else {
            lemma_sp_step_ref(st, name, attrs, false, pos2);
        }
    } else if sp_is_void(name) {
        let el = SpecElem::Void(SpecVoid { name, attrs });
        lemma_push_keeps_shape(ff, el);
        lemma_advance(st, sp_frame_push(ff, el), pos2);
    } else if self_closing {
        let el = SpecElem::Node(SpecNode { name, attrs, children: Seq::empty() });
        lemma_push_keeps_shape(ff, el);
        lemma_advance(st, sp_frame_push(ff, el), pos2);
    } else {
        let child = SpecFrame {
            build: SpecBuild::Node(SpecNode { name, attrs, children: Seq::empty() }),
            target: SpecTarget::Children,
            buffer: Seq::empty(),
        };
        lemma_open_child(st, ff, child, pos2);
    }
}

/// Opening an ordinary child frame after a shape-preserving flush.
pub proof fn lemma_open_child(st: SpecPState, ff: SpecFrame, child: SpecFrame, pos2: int)
    requires
        sp_wf(st),
        sp_build_name(ff.build) == sp_build_name(st.frames.last().build),
        sp_is_owner(ff) == sp_is_owner(st.frames.last()),
        sp_is_site(ff) == sp_is_site(st.frames.last()),
        !sp_is_owner(child),
        st.sources.last().pos < pos2 <= st.sources.last().text.len(),
    ensures
        ({
            let st2 = SpecPState {
                frames: sp_set_pos(sp_set_top(st, ff), pos2).frames.push(child),
                ..sp_set_pos(sp_set_top(st, ff), pos2)
            };
            sp_wf(st2) && sp_lex_dec(st, st2) && st2.sources.len() >= 1
                && st2.sources[0].name == st.sources[0].name
        }),
{
    lemma_advance(st, ff, pos2);
    let adv = sp_set_pos(sp_set_top(st, ff), pos2);
    let st2 = SpecPState { frames: adv.frames.push(child), ..adv };
    lemma_fso_push_child(adv.frames, adv.sources, child);
    lemma_meas_a_same(adv, st2);
}

/// The close-tag transition preserves the invariant and shrinks the
/// measure: a pop either consumes text or completes a component root.
#[verifier::rlimit(100)]
pub proof fn lemma_sp_step_close(st: SpecPState, cname: Seq<char>, pos2: int)
    requires
        sp_wf(st),
        st.sources.last().pos < pos2 <= st.sources.last().text.len(),
    ensures
        match sp_step_close(sp_set_pos(st, pos2), cname, pos2) {
            SpecStep::Next(st2) => sp_wf(st2) && sp_lex_dec(st, st2) && st2.sources.len() >= 1
                && st2.sources[0].name == st.sources[0].name,
            SpecStep::Done(reg) => reg.contains_key(st.sources[0].name) && reg[st.sources[0].name]
                is Parsed,
            _ => true,
        },
{
    let f = st.frames.last();
    lemma_push_keeps_shape(f, SpecElem::Text(f.buffer));
    let f2 = sp_flush(f);
    lemma_advance(st, f, pos2);
    let stp = sp_set_pos(st, pos2);
    assert(sp_set_pos(sp_set_top(st, f), pos2) =~= stp);
    assert(stp.frames.last() == f);
    if cname == sp_build_name(f2.build) {
        if sp_is_owner(f2) {
            let stc = sp_set_top(stp, f2);
            lemma_fso_set_top(stp.frames, stp.sources, f2);
            lemma_meas_a_same(stp, stc);
            lemma_complete_ok(stc);
            assert(meas_b(stc) == meas_b(stp));
        } else {
            let frames2 = stp.frames.drop_last();
            assert(frames_sources_ok(st.frames, st.sources));
            assert(stp.frames =~= st.frames);
            lemma_fso_same_names(st.frames, st.sources, stp.sources);
            assert(frames_sources_ok(frames2, stp.sources));
            if frames2.len() > 0 {
                let parent2 = sp_frame_push(frames2.last(), sp_build_elem(f2.build));
                lemma_push_keeps_shape(frames2.last(), sp_build_elem(f2.build));
                lemma_fso_set_top(frames2, stp.sources, parent2);
                let stq = SpecPState { frames: frames2.update(frames2.len() - 1, parent2), ..stp };
                let st2 = sp_set_pos(stq, pos2);
                assert(st2.sources =~= stp.sources);
                assert(st2 =~= SpecPState { frames: stq.frames, ..stp });
                lemma_fso_sources_len(st2.frames, st2.sources);
                lemma_meas_a_same(stp, st2);
                assert(meas_b(st2) == meas_b(stp)) by {
                    assert(st2.sources =~= stp.sources);
                }
                assert(meas_b(stp) < meas_b(st));
            }
        }
    }
}

/// The component-reference transition: a self-closing reference is a
/// plain push; expansion of an unparsed component opens a new source and
/// strictly shrinks the registry measure.
#[verifier::rlimit(100)]
pub proof fn lemma_sp_step_ref(
    st: SpecPState,
    name: Seq<char>,
    attrs: SpecAttrs,
    self_closing: bool,
    pos2: int,
)
    requires
        sp_wf(st),
        st.sources.last().pos < pos2 <= st.sources.last().text.len(),
    ensures
        match sp_step_ref(st, name, attrs, self_closing, pos2) {
            SpecStep::Next(st2) => sp_wf(st2) && sp_lex_dec(st, st2) && st2.sources.len() >= 1
                && st2.sources[0].name == st.sources[0].name,
            _ => true,
        },
{
    broadcast use vstd::set::group_set_axioms;

    let f = st.frames.last();
    lemma_push_keeps_shape(f, SpecElem::Text(f.buffer));
    let ff = sp_flush(f);
    if self_closing {
        let el = SpecElem::Doc(
            SpecDoc { name, attrs, slots: Seq::empty(), children: Seq::empty() },
        );
        lemma_push_keeps_shape(ff, el);
        lemma_advance(st, sp_frame_push(ff, el), pos2);
    } else if sp_in_flight(st.sources, name) {
    } else if !st.reg.dom().contains(name) {
    } else {
        match st.reg[name] {
            SpecComp::Parsed(pd) => {
                let site = SpecFrame {
                    build: SpecBuild::Doc(
                        SpecDoc { name, attrs, slots: Seq::empty(), children: pd.children },
                    ),
                    target: SpecTarget::Slots,
                    buffer: Seq::empty(),
                };
                lemma_open_child(st, ff, site, pos2);
            },
            SpecComp::Unparsed(src2) => {
                let site = SpecFrame {
                    build: SpecBuild::Doc(
                        SpecDoc { name, attrs, slots: Seq::empty(), children: Seq::empty() },
                    ),
                    target: SpecTarget::Slots,
                    buffer: Seq::empty(),
                };
                let owner = SpecFrame {
                    build: SpecBuild::Doc(
                        SpecDoc {
                            name,
                            attrs: Seq::empty(),
                            slots: Seq::empty(),
                            children: Seq::empty(),
                        },
                    ),
                    target: SpecTarget::Children,
                    buffer: Seq::empty(),
                };
                lemma_advance(st, ff, pos2);
                let adv = sp_set_pos(sp_set_top(st, ff), pos2);
                let newsrc = SpecSource { name, text: src2, pos: 0 };
                let st2 = SpecPState {
                    frames: adv.frames.push(site).push(owner),
                    sources: adv.sources.push(newsrc),
                    reg: adv.reg,
                };
                // shape: the new root owns the new source and sits on its
                // call site
                lemma_fso_push_child(adv.frames, adv.sources, site);
                let fsite = adv.frames.push(site);
                assert(st2.frames.drop_last() =~= fsite);
                assert(st2.sources.drop_last() =~= adv.sources);
                assert(st2.frames.last() == owner);
                assert(st2.frames[st2.frames.len() - 2] == site);
                assert(frames_sources_ok(st2.frames, st2.sources));
                // cursor bounds and distinct names
                assert(forall|i: int|
                    0 <= i < adv.sources.len() ==> (#[trigger] adv.sources[i]).name
                        == st.sources[i].name);
                assert forall|i: int, jj: int|
                    0 <= i < jj < st2.sources.len() implies (#[trigger] st2.sources[i]).name != (
                #[trigger] st2.sources[jj]).name by {
                    if jj == st2.sources.len() - 1 {
                        assert(st2.sources[i].name == st.sources[i].name);
                        if st.sources[i].name == name {
                            assert(sp_in_flight(st.sources, name));
                        }
                    } else {
                        assert(st2.sources[i] == adv.sources[i]);
                        assert(st2.sources[jj] == adv.sources[jj]);
                    }
                }
                assert(sp_wf(st2));
                // the registry measure strictly decreases: `name` leaves
                // the unparsed-and-closed set
                let sa = sp_unparsed_closed(adv);
                let s2 = sp_unparsed_closed(st2);
                assert forall|m: Seq<char>| s2.contains(m) == (sa.contains(m) && m != name) by {
                    if sp_in_flight(st2.sources, m) {
                        let i = choose|i: int|
                            0 <= i < st2.sources.len() && st2.sources[i].name == m;
                        if i < st2.sources.len() - 1 {
                            assert(adv.sources[i].name == m);
                            assert(sp_in_flight(adv.sources, m));
                        }
                    }
                    if sp_in_flight(adv.sources, m) {
                        let i = choose|i: int|
                            0 <= i < adv.sources.len() && adv.sources[i].name == m;
                        assert(st2.sources[i].name == m);
                        assert(sp_in_flight(st2.sources, m));
                    }
                    if m == name {
                        assert(st2.sources.last().name == name);
                        assert(sp_in_flight(st2.sources, m));
                    }
                }
                assert(s2 =~= sa.remove(name));
                assert(!sp_in_flight(adv.sources, name)) by {
                    if sp_in_flight(adv.sources, name) {
                        let i = choose|i: int|
                            0 <= i < adv.sources.len() && adv.sources[i].name == name;
                        assert(st.sources[i].name == name);
                        assert(sp_in_flight(st.sources, name));
                    }
                }
                assert(sa.contains(name));
                lemma_unparsed_closed_finite(adv);
                vstd::set::axiom_set_remove_len(sa, name);
                assert(meas_a(st2) < meas_a(adv));
                assert(meas_a(adv) == meas_a(st));
            },
        }
    }
}

/// One transition of the parsing machine, as spelled out per character by
/// the markup's rules: literal text and escapes accumulate, `{name}`
/// appends a variable, `<...>` opens, closes or appends an element, and an
/// exhausted source completes its component root.
pub open spec fn sp_step(st: SpecPState) -> SpecStep {
    if st.frames.len() == 0 || st.sources.len() == 0 {
        SpecStep::Done(st.reg)
    } else {
        let src = st.sources.last();
        let f = st.frames.last();
        if src.pos >= src.text.len() {
            sp_step_exhausted(st)
        } else {
            let c = src.text[src.pos];
            if c == '\\' {
                if src.pos + 1 < src.text.len() {
                    SpecStep::Next(
                        sp_set_pos(
                            sp_set_top(
                                st,
                                SpecFrame { buffer: f.buffer.push(src.text[src.pos + 1]), ..f },
                            ),
                            src.pos + 2,
                        ),
                    )
                } else {
                    SpecStep::Next(sp_set_pos(st, src.pos + 1))
                }
            } else if c == '{' {
                let k = sp_find(src.text, src.pos + 1, '}');
                let name = src.text.subrange(src.pos + 1, k);
                let pos2 = if k >= src.text.len() {
                    src.text.len() as int
                } else {
                    k + 1
                };
                SpecStep::Next(
                    sp_set_pos(
                        sp_set_top(st, sp_frame_push(sp_flush(f), SpecElem::Var(name))),
                        pos2,
                    ),
                )
            } else if c == '<' {
                sp_step_tag(st)
            } else {
                SpecStep::Next(
                    sp_set_pos(
                        sp_set_top(st, SpecFrame { buffer: f.buffer.push(c), ..f }),
                        src.pos + 1,
                    ),
                )
            }
        }
    }
}

/// Runs the machine to its end: the registry it leaves behind, and the
/// failure, if any. Terminates because every step shrinks the measure.
pub open spec fn sp_run(st: SpecPState) -> (SpecRegistry, Option<SpecErr>)
    decreases meas_a(st), meas_b(st), meas_c(st),
        when sp_wf(st)
{
    match sp_step(st) {
        SpecStep::Done(reg) => (reg, None),
        SpecStep::Fail(e, reg) => (reg, Some(e)),
        SpecStep::Next(st2) => {
            proof {
                lemma_sp_step_next(st);
                lemma_remaining_nonneg(st.sources);
                lemma_remaining_nonneg(st2.sources);
            }
            sp_run(st2)
        },
    }
}

/// The machine's starting state for one requested component.
pub open spec fn sp_init(reg: SpecRegistry, name: Seq<char>, text: Seq<char>) -> SpecPState {
    SpecPState {
        frames: seq![
            SpecFrame {
                build: SpecBuild::Doc(
                    SpecDoc {
                        name,
                        attrs: Seq::empty(),
                        slots: Seq::empty(),
                        children: Seq::empty(),
                    },
                ),
                target: SpecTarget::Children,
                buffer: Seq::empty(),
            },
        ],
        sources: seq![SpecSource { name, text, pos: 0 }],
        reg,
    }
}

pub proof fn lemma_sp_init_wf(reg: SpecRegistry, name: Seq<char>, text: Seq<char>)
    requires
        reg.dom().finite(),
    ensures
        sp_wf(sp_init(reg, name, text)),
{
    let st = sp_init(reg, name, text);
    assert(st.frames.drop_last() =~= Seq::<SpecFrame>::empty());
    assert(st.sources.drop_last() =~= Seq::<SpecSource>::empty());
    assert(frames_sources_ok(st.frames.drop_last(), st.sources.drop_last()));
}

/// What parsing one component does to the registry: an unknown name is
/// refused, a parsed one is left alone, and raw source is run through the
/// machine.
pub open spec fn sp_parse(reg: SpecRegistry, name: Seq<char>) -> (SpecRegistry, Option<SpecErr>) {
    if !reg.contains_key(name) {
        (reg, Some(SpecErr::UnknownComponent(name)))
    } else {
        match reg[name] {
            SpecComp::Parsed(_) => (reg, None),
            SpecComp::Unparsed(text) => sp_run(sp_init(reg, name, text)),
        }
    }
}

/// When a run succeeds, the component whose source sits at the bottom of
/// the stack has been recorded Parsed.
pub proof fn lemma_sp_run_parsed(st: SpecPState)
    requires
        sp_wf(st),
    ensures
        sp_run(st).1 is None ==> sp_run(st).0.contains_key(st.sources[0].name) && sp_run(
            st,
        ).0[st.sources[0].name] is Parsed,
    decreases meas_a(st), meas_b(st), meas_c(st),
{
    lemma_sp_step_next(st);
    match sp_step(st) {
        SpecStep::Done(reg) => {},
        SpecStep::Fail(e, reg) => {},
        SpecStep::Next(st2) => {
            lemma_remaining_nonneg(st.sources);
            lemma_remaining_nonneg(st2.sources);
            lemma_sp_run_parsed(st2);
        },
    }
}

/// Parsing is idempotent: after a successful `parse`, parsing the same
/// name again leaves the registry exactly as it was.
pub proof fn lemma_sp_parse_idempotent(reg: SpecRegistry, name: Seq<char>)
    requires
        reg.dom().finite(),
    ensures
        sp_parse(reg, name).1 is None ==> sp_parse(sp_parse(reg, name).0, name) == (
            sp_parse(reg, name).0,
            None::<SpecErr>,
        ),
{
    if reg.contains_key(name) {
        match reg[name] {
            SpecComp::Parsed(_) => {},
            SpecComp::Unparsed(text) => {
                lemma_sp_init_wf(reg, name, text);
                lemma_sp_run_parsed(sp_init(reg, name, text));
            },
        }
    }
}

} // verus!
