use vel::ast::Element;
use vel::LazyDom;
use vel::rendering::{DropNamed, KeepAll};
use vel::{VelError, VelInstance};

fn instance_of(name: &str, source: &str) -> VelInstance {
    VelInstance::new(vec![(name.to_string(), source.to_string())])
}

#[test]
fn i_want_to_kms() {}

#[test]
fn render_only() {
    let mut test_instance = VelInstance::new(vec![(
        "Component".to_string(),
        r#"
        <div test>
            <span style='color: red'>this is the inside text</span>, I sure do hope nothing happens to it
        </div>
        <p>hello, world</p>"#
            .to_string(),
    )]);

    let result = test_instance
        .render("Component".to_string(), vec![], &KeepAll {})
        .unwrap();
    println!("render_only result: {}", result.trim());
    assert_eq!(
        result.trim(),
        r#"<div test="test">
            <span style="color: red">this is the inside text</span>, I sure do hope nothing happens to it
        </div>
        <p>hello, world</p>"#,
    );
}

#[test]
fn render_and_filter() {
    let mut test_instance = VelInstance::new(vec![(
        "Component".to_string(),
        r#"
        <div test>
            <span style='color: red'>this is the inside text</span>, I sure do hope nothing happens to it
        </div>
        <p>hello, world</p>"#
            .to_string(),
    )]);

    let result = test_instance
        .render(
            "Component".to_string(),
            vec![],
            &DropNamed::new("div".to_string()),
        )
        .unwrap();

    println!("render_and_filter result: {}", result.trim());
    assert_eq!(result.trim(), "<p>hello, world</p>");
}

#[test]
fn paragraph_parses_and_renders_back() {
    let mut engine = instance_of("T", "<p>hello</p>");
    engine.parse("T".to_string()).unwrap();
    let entry = engine.components.last().unwrap();
    assert_eq!(entry.0, "T");
    match &entry.1 {
        LazyDom::Parsed(dom) => {
            assert_eq!(dom.tree.children.len(), 1);
            match &dom.tree.children[0] {
                Element::Node(n) => {
                    assert_eq!(n.name, "p");
                    assert_eq!(n.children.len(), 1);
                    match &n.children[0] {
                        Element::Text(t) => assert_eq!(t.value, "hello"),
                        other => panic!("expected text, got {:?}", other.serialise()),
                    }
                }
                other => panic!("expected node, got {:?}", other.serialise()),
            }
        }
        LazyDom::Unparsed(_) => panic!("still unparsed"),
    }
    let result = engine.render("T".to_string(), vec![], &KeepAll {}).unwrap();
    assert_eq!(result, "<p>hello</p>");
}

#[test]
fn variable_binding_and_passthrough() {
    let mut engine = instance_of("Component", "<p>{data}</p>");
    let bound = engine
        .render(
            "Component".to_string(),
            vec![("data".to_string(), "cheese".to_string())],
            &KeepAll {},
        )
        .unwrap();
    assert_eq!(bound, "<p>cheese</p>");

    let unbound = engine
        .render("Component".to_string(), vec![], &KeepAll {})
        .unwrap();
    assert_eq!(unbound, "<p>{data}</p>");
}

#[test]
fn slot_overlay_and_fallback() {
    let mut engine = VelInstance::new(vec![
        (
            "Card".to_string(),
            "<div><Slot name=\"body\">fallback</Slot></div>".to_string(),
        ),
        (
            "Use".to_string(),
            "<Card><span slot=\"body\">hi</span></Card>".to_string(),
        ),
        ("Bare".to_string(), "<Card></Card>".to_string()),
    ]);
    let filled = engine.render("Use".to_string(), vec![], &KeepAll {}).unwrap();
    assert_eq!(filled, "<div><span slot=\"body\">hi</span></div>");

    let fallback = engine
        .render("Bare".to_string(), vec![], &KeepAll {})
        .unwrap();
    assert_eq!(fallback, "<div>fallback</div>");
}

#[test]
fn self_reference_hits_recursion_limit() {
    let mut engine = instance_of("A", "<A/>");
    let result = engine.render("A".to_string(), vec![], &KeepAll {});
    assert_eq!(
        result,
        Err(VelError::RecursionLimitExceeded {
            component: "A".to_string(),
            parent: Some("A".to_string()),
        }),
    );
}

#[test]
fn transform_drops_named_subtree() {
    let mut engine = instance_of("T", "<div><p>inner</p></div><span>ok</span>");
    let result = engine
        .render("T".to_string(), vec![], &DropNamed::new("div".to_string()))
        .unwrap();
    assert_eq!(result, "<span>ok</span>");
}

#[test]
fn parse_twice_leaves_registry_unchanged() {
    let mut engine = instance_of("T", "<p>once</p>");
    engine.parse("T".to_string()).unwrap();
    let entries = engine.components.len();
    engine.parse("T".to_string()).unwrap();
    assert_eq!(engine.components.len(), entries);
    let first = engine.render("T".to_string(), vec![], &KeepAll {}).unwrap();
    let second = engine.render("T".to_string(), vec![], &KeepAll {}).unwrap();
    assert_eq!(first, second);
}

#[test]
fn mismatched_close_is_reported() {
    let mut engine = instance_of("T", "<p>x</q>");
    let result = engine.parse("T".to_string());
    assert_eq!(
        result,
        Err(VelError::MismatchedClose {
            expected: "p".to_string(),
            found: "q".to_string(),
        }),
    );
}

#[test]
fn unclosed_tag_is_reported() {
    let mut engine = instance_of("T", "<p>x");
    assert_eq!(
        engine.parse("T".to_string()),
        Err(VelError::UnclosedTag("p".to_string())),
    );
}

#[test]
fn self_nesting_without_close_is_reported() {
    let mut engine = instance_of("A", "<A>x</A>");
    assert_eq!(
        engine.parse("A".to_string()),
        Err(VelError::SelfNestingWithoutClose("A".to_string())),
    );
}

#[test]
fn unknown_component_is_reported() {
    let mut engine = instance_of("T", "<p>x</p>");
    assert_eq!(
        engine.render("Nope".to_string(), vec![], &KeepAll {}),
        Err(VelError::UnknownComponent("Nope".to_string())),
    );
}

#[test]
fn escapes_keep_markup_literal() {
    let mut engine = instance_of("T", "\\<p\\{x");
    let result = engine.render("T".to_string(), vec![], &KeepAll {}).unwrap();
    assert_eq!(result, "<p{x");
}

#[test]
fn mixed_attribute_values_interpolate() {
    let mut engine = instance_of("T", "<p class=\"x{c}y\">hi</p>");
    let bound = engine
        .render(
            "T".to_string(),
            vec![("c".to_string(), "z".to_string())],
            &KeepAll {},
        )
        .unwrap();
    assert_eq!(bound, "<p class=\"xzy\">hi</p>");

    let unbound = engine.render("T".to_string(), vec![], &KeepAll {}).unwrap();
    assert_eq!(unbound, "<p class=\"x{c}y\">hi</p>");
}

#[test]
fn serialise_prints_source_form() {
    let mut engine = instance_of("T", "a<br/>b<p>hello</p>");
    engine.parse("T".to_string()).unwrap();
    match &engine.components.last().unwrap().1 {
        LazyDom::Parsed(dom) => {
            assert_eq!(dom.tree.children.len(), 4);
            assert_eq!(dom.tree.children[0].serialise(), "a");
            assert_eq!(dom.tree.children[1].serialise(), "<br/>");
            assert_eq!(dom.tree.children[2].serialise(), "b");
            assert_eq!(dom.tree.children[3].serialise(), "<p>hello</p>");
        }
        LazyDom::Unparsed(_) => panic!("still unparsed"),
    }
}

#[test]
fn void_elements_close_themselves() {
    let mut engine = instance_of("T", "a<br/>b");
    let result = engine.render("T".to_string(), vec![], &KeepAll {}).unwrap();
    assert_eq!(result, "a<br/>b");
}

#[test]
fn nested_components_expand() {
    let mut engine = VelInstance::new(vec![
        ("B".to_string(), "<b>B!</b>".to_string()),
        ("A".to_string(), "x<B></B>y".to_string()),
        ("C".to_string(), "x<B/>y".to_string()),
    ]);
    assert_eq!(
        engine.render("A".to_string(), vec![], &KeepAll {}).unwrap(),
        "x<b>B!</b>y",
    );
    assert_eq!(
        engine.render("C".to_string(), vec![], &KeepAll {}).unwrap(),
        "x<b>B!</b>y",
    );
}

#[test]
fn usage_attributes_become_bindings() {
    let mut engine = VelInstance::new(vec![
        ("Greet".to_string(), "<p>{who}</p>".to_string()),
        (
            "Page".to_string(),
            "<Greet who=\"world\"></Greet>".to_string(),
        ),
    ]);
    assert_eq!(
        engine.render("Page".to_string(), vec![], &KeepAll {}).unwrap(),
        "<p>world</p>",
    );
}

#[test]
fn extend_overwrites_existing_entries() {
    let mut engine = instance_of("X", "one");
    engine.extend(vec![("X".to_string(), "two".to_string())]);
    assert_eq!(
        engine.render("X".to_string(), vec![], &KeepAll {}).unwrap(),
        "two",
    );
}
