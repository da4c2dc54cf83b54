use vdom_arena::context::DynamicContext;
use vdom_arena::rsx::{AttrValue, AttributeType, BodyNode, Element, ElementAttrName, ElementName, IfmtInput, NoMapping, Segment, TemplateAttribute, TemplateNode, TextNode};

fn static_text(s: &str) -> BodyNode {
    BodyNode::Text(TextNode {
        input: IfmtInput {
            source: s.to_string(),
            segments: vec![Segment::Literal(s.to_string())],
        },
    })
}

fn formatted_text(src: &str, hole: &str) -> BodyNode {
    BodyNode::Text(TextNode {
        input: IfmtInput {
            source: src.to_string(),
            segments: vec![
                Segment::Literal("hi ".to_string()),
                Segment::Formatted(hole.to_string()),
            ],
        },
    })
}

#[test]
fn static_text_compiles_in_place() {
    let mut dc = DynamicContext::default();
    let r = dc.update_node(static_text("hello"), &NoMapping).unwrap();
    assert!(matches!(r, TemplateNode::Text { text } if text == "hello"));
    assert_eq!(dc.dynamic_nodes.len(), 0);
    assert_eq!(dc.dynamic_attributes.len(), 0);
}

#[test]
fn formatted_text_becomes_a_dynamic_text_slot() {
    let mut dc = DynamicContext::default();
    let r = dc.update_node(formatted_text("hi {world}", "world"), &NoMapping).unwrap();
    assert!(matches!(r, TemplateNode::DynamicText { id: 0 }));
    assert_eq!(dc.dynamic_nodes.len(), 1);
    assert_eq!(dc.node_paths.len(), 1);
    assert!(dc.node_paths[0].is_empty());
}

#[test]
fn expressions_become_dynamic_slots() {
    let mut dc = DynamicContext::default();
    let r = dc.update_node(BodyNode::RawExpr("count + 1".to_string()), &NoMapping).unwrap();
    assert!(matches!(r, TemplateNode::Dynamic { id: 0 }));
    let r2 = dc.update_node(BodyNode::Component("Child".to_string()), &NoMapping).unwrap();
    assert!(matches!(r2, TemplateNode::Dynamic { id: 1 }));
    assert_eq!(dc.dynamic_nodes.len(), 2);
}

#[test]
fn elements_compile_attributes_and_children() {
    let el = Element {
        name: ElementName::Ident("div".to_string()),
        merged_attributes: vec![
            AttributeType {
                name: ElementAttrName::BuiltIn("class".to_string()),
                value: AttrValue::Literal(IfmtInput {
                    source: "cool".to_string(),
                    segments: vec![Segment::Literal("cool".to_string())],
                }),
            },
            AttributeType {
                name: ElementAttrName::BuiltIn("onclick".to_string()),
                value: AttrValue::Expr("handler".to_string()),
            },
        ],
        children: vec![static_text("hi"), BodyNode::RawExpr("x".to_string())],
    };
    let mut dc = DynamicContext::default();
    let r = dc.update_node(BodyNode::Element(el), &NoMapping).unwrap();

    match r {
        TemplateNode::Element { tag, namespace, attrs, children } => {
            assert_eq!(tag, "div");
            assert!(namespace.is_none());
            assert_eq!(attrs.len(), 2);
            assert!(
                matches!(&attrs[0], TemplateAttribute::Static { name, namespace, value }
                if name == "class" && namespace.is_none() && value == "cool")
            );
            assert!(matches!(&attrs[1], TemplateAttribute::Dynamic { id: 0 }));
            assert_eq!(children.len(), 2);
            assert!(matches!(&children[0], TemplateNode::Text { text } if text == "hi"));
            assert!(matches!(&children[1], TemplateNode::Dynamic { id: 0 }));
        },
        other => panic!("expected an element, got {:?}", other),
    }

    // the dynamic node sits at child index 1 of the root element
    assert_eq!(dc.dynamic_nodes.len(), 1);
    assert_eq!(dc.node_paths[0], vec![1u8]);
    // the dynamic attribute was found on the element itself
    assert_eq!(dc.dynamic_attributes.len(), 1);
    assert_eq!(dc.dynamic_attributes[0].len(), 1);
    assert!(dc.attr_paths[0].is_empty());
}

#[test]
fn fill_tracks_the_paths_of_each_root() {
    let mut dc = DynamicContext::default();
    let roots = vec![
        BodyNode::RawExpr("a".to_string()),
        static_text("mid"),
        BodyNode::IfChain("cond".to_string()),
    ];
    let ts = dc.fill(roots, &NoMapping).unwrap();
    assert_eq!(ts.len(), 3);
    assert!(matches!(&ts[0], TemplateNode::Dynamic { id: 0 }));
    assert!(matches!(&ts[1], TemplateNode::Text { text } if text == "mid"));
    assert!(matches!(&ts[2], TemplateNode::Dynamic { id: 1 }));
    assert_eq!(dc.node_paths[0], vec![0u8]);
    assert_eq!(dc.node_paths[1], vec![2u8]);
    assert!(dc.current_path.is_empty());
}

#[test]
fn from_body_populates_a_fresh_context() {
    let roots = vec![BodyNode::ForLoop(vdom_arena::rsx::ForLoop {
        pat: "item".to_string(),
        expr: "0..10".to_string(),
        body: vec![static_text("cool")],
        dyn_idx: 0,
    })];
    let dc = DynamicContext::from_body(roots, &NoMapping);
    assert_eq!(dc.template_idx, 0);
    assert_eq!(dc.dynamic_nodes.len(), 1);
    assert!(matches!(&dc.dynamic_nodes[0], BodyNode::ForLoop(f) if f.expr == "0..10"));
}

#[test]
fn populate_all_by_updating_bubbles_one_template() {
    let mut dc = DynamicContext::default();
    let ts = dc.populate_all_by_updating(vec![static_text("x")], &NoMapping).unwrap();
    assert_eq!(ts.len(), 1);
    assert_eq!(ts[0].len(), 1);
}

#[test]
fn next_dynamic_idx_counts_up() {
    let mut dc = DynamicContext::default();
    assert_eq!(dc.next_dynamic_idx(), 0);
    assert_eq!(dc.next_dynamic_idx(), 1);
    assert_eq!(dc.next_dynamic_idx(), 2);
}

#[test]
fn ifmt_static_distinguishes_formatted_strings() {
    let s = IfmtInput {
        source: "hello".to_string(),
        segments: vec![Segment::Literal("hello".to_string())],
    };
    assert!(s.is_static());
    assert_eq!(s.to_static(), Some("hello".to_string()));

    let f = IfmtInput {
        source: "hello {world}".to_string(),
        segments: vec![
            Segment::Literal("hello ".to_string()),
            Segment::Formatted("world".to_string()),
        ],
    };
    assert!(!f.is_static());
    assert_eq!(f.to_static(), None);
}
