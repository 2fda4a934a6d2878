use rich_text::ast::Ast;
use rich_text::builder::parse;
use rich_text::node::{BlockNode, CodeTokenLinks, InlineNode, NodeContext};

fn text(value: &str) -> Ast {
    Ast::Text { value: value.to_string(), pos: None }
}

fn ctx_linkified() -> NodeContext {
    NodeContext::new(0, CodeTokenLinks::enabled(None))
}

fn ctx_plain() -> NodeContext {
    NodeContext::new(0, CodeTokenLinks::default())
}

#[test]
fn block_count_matches_root_children() {
    let ast = Ast::Root {
        children: vec![
            Ast::Paragraph { children: vec![text("one")], pos: None },
            Ast::ThematicBreak { pos: None },
            Ast::Other { pos: None },
        ],
        pos: None,
    };
    let mut cx = ctx_plain();
    let doc = parse("one\n***\n?", &ast, &mut cx).unwrap();
    assert_eq!(doc.blocks.len(), 3);
    assert_eq!(doc.source, "one\n***\n?");
    assert!(matches!(doc.blocks[1], BlockNode::Divider { .. }));
    assert!(matches!(doc.blocks[2], BlockNode::Unknown));
}

#[test]
fn non_root_input_is_rejected() {
    let ast = text("loose");
    let mut cx = ctx_plain();
    let err = parse("loose", &ast, &mut cx).unwrap_err();
    assert_eq!(err, "expected root node");
}

#[test]
fn bold_text_and_linkified_inline_code() {
    // "**bold** and `http://x.com`"
    let ast = Ast::Root {
        children: vec![Ast::Paragraph {
            children: vec![
                Ast::Strong { children: vec![text("bold")], pos: None },
                text(" and "),
                Ast::InlineCode { value: "http://x.com".to_string(), pos: None },
            ],
            pos: None,
        }],
        pos: None,
    };
    let mut cx = ctx_linkified();
    let doc = parse("**bold** and `http://x.com`", &ast, &mut cx).unwrap();
    let p = match &doc.blocks[0] {
        BlockNode::Paragraph(p) => p,
        other => panic!("expected a paragraph, got {:?}", other),
    };
    assert_eq!(p.text, "bold and http://x.com");
    assert_eq!(p.children.len(), 3);

    let bold: &InlineNode = &p.children[0];
    assert_eq!(bold.text, "bold");
    assert_eq!(bold.marks.len(), 1);
    assert_eq!(bold.marks[0].0, 0..4);
    assert!(bold.marks[0].1.bold);
    assert!(!bold.marks[0].1.italic);

    let plain = &p.children[1];
    assert_eq!(plain.text, " and ");
    assert!(plain.marks.is_empty());

    let code = &p.children[2];
    assert_eq!(code.text, "http://x.com");
    assert_eq!(code.marks.len(), 2);
    assert_eq!(code.marks[0].0, 0..12);
    assert!(code.marks[0].1.code);
    assert_eq!(code.marks[1].0, 0..12);
    let link = code.marks[1].1.link.as_ref().unwrap();
    assert_eq!(link.url, "http://x.com");
    assert!(link.requires_modifiers);
    assert!(!link.decorate);
}

#[test]
fn inline_code_without_linkification_keeps_plain_code() {
    let ast = Ast::Root {
        children: vec![Ast::Paragraph {
            children: vec![Ast::InlineCode { value: "http://x.com".to_string(), pos: None }],
            pos: None,
        }],
        pos: None,
    };
    let mut cx = ctx_plain();
    let doc = parse("`http://x.com`", &ast, &mut cx).unwrap();
    let p = match &doc.blocks[0] {
        BlockNode::Paragraph(p) => p,
        other => panic!("expected a paragraph, got {:?}", other),
    };
    assert_eq!(p.children[0].marks.len(), 1);
    assert!(p.children[0].marks[0].1.code);
}

#[test]
fn relative_file_ref_needs_a_worktree() {
    let make = |cx: &mut NodeContext| {
        let ast = Ast::Root {
            children: vec![Ast::Paragraph {
                children: vec![Ast::InlineCode { value: "src/a.rs:3".to_string(), pos: None }],
                pos: None,
            }],
            pos: None,
        };
        parse("`src/a.rs:3`", &ast, cx).unwrap()
    };
    // without a worktree the relative path stays plain code
    let mut cx = ctx_linkified();
    let doc = make(&mut cx);
    let p = match &doc.blocks[0] {
        BlockNode::Paragraph(p) => p,
        other => panic!("expected a paragraph, got {:?}", other),
    };
    assert_eq!(p.children[0].marks.len(), 1);
    // with one, the token earns an open link
    let mut cx = NodeContext::new(0, CodeTokenLinks::enabled(Some("w1".to_string())));
    let doc = make(&mut cx);
    let p = match &doc.blocks[0] {
        BlockNode::Paragraph(p) => p,
        other => panic!("expected a paragraph, got {:?}", other),
    };
    assert_eq!(p.children[0].marks.len(), 2);
    let link = p.children[0].marks[1].1.link.as_ref().unwrap();
    assert_eq!(link.url, "ctx://open?worktreeId=w1&file=src%2Fa.rs&line=3");
}

#[test]
fn reference_link_resolves_through_the_definition() {
    // "[ref]: http://y.com \"T\"" followed by "[text][ref]"
    let ast = Ast::Root {
        children: vec![
            Ast::Definition {
                identifier: "ref".to_string(),
                url: "http://y.com".to_string(),
                title: Some("T".to_string()),
                pos: None,
            },
            Ast::Paragraph {
                children: vec![Ast::LinkReference {
                    identifier: "ref".to_string(),
                    label: Some("ref".to_string()),
                    children: vec![text("text")],
                    pos: None,
                }],
                pos: None,
            },
        ],
        pos: None,
    };
    let mut cx = ctx_plain();
    let doc = parse("[ref]: http://y.com \"T\"\n[text][ref]", &ast, &mut cx).unwrap();
    assert!(matches!(&doc.blocks[0], BlockNode::Definition { .. }));
    let p = match &doc.blocks[1] {
        BlockNode::Paragraph(p) => p,
        other => panic!("expected a paragraph, got {:?}", other),
    };
    // before resolution the link mark carries the identifier and an empty URL
    let raw = p.children[0].marks[0].1.link.as_ref().unwrap();
    assert_eq!(raw.url, "");
    assert_eq!(raw.identifier.as_deref(), Some("ref"));
    // resolution at render time finds the definition
    let resolved = cx.resolve_link(raw);
    assert_eq!(resolved.url, "http://y.com");
    assert_eq!(resolved.title.as_deref(), Some("T"));
}

#[test]
fn later_definitions_win() {
    let def = |url: &str| Ast::Definition {
        identifier: "d".to_string(),
        url: url.to_string(),
        title: None,
        pos: None,
    };
    let ast = Ast::Root { children: vec![def("http://first"), def("http://second")], pos: None };
    let mut cx = ctx_plain();
    parse("", &ast, &mut cx).unwrap();
    let found = cx.get_ref(&"d".to_string()).unwrap();
    assert_eq!(found.url, "http://second");
    assert!(cx.get_ref(&"missing".to_string()).is_none());
}

#[test]
fn unresolved_reference_keeps_its_empty_url() {
    let mut cx = ctx_plain();
    let mark = rich_text::node::LinkMark {
        url: String::new(),
        title: None,
        identifier: Some("nowhere".to_string()),
        requires_modifiers: false,
        decorate: true,
    };
    let resolved = cx.resolve_link(&mark);
    assert_eq!(resolved.url, "");
    cx.add_ref(
        "nowhere".to_string(),
        rich_text::node::LinkMark {
            url: "http://z".to_string(),
            title: None,
            identifier: Some("nowhere".to_string()),
            requires_modifiers: false,
            decorate: true,
        },
    );
    assert_eq!(cx.resolve_link(&mark).url, "http://z");
}

#[test]
fn html_line_breaks_and_literal_fallback() {
    let ast = Ast::Root {
        children: vec![
            Ast::Paragraph {
                children: vec![
                    text("a"),
                    Ast::Html { value: "<br>".to_string(), pos: None },
                    text("b"),
                ],
                pos: None,
            },
            Ast::Html { value: "<BR/>".to_string(), pos: None },
            Ast::Html { value: "<p>hi</p>".to_string(), pos: None },
        ],
        pos: None,
    };
    let mut cx = ctx_plain();
    let doc = parse("a<br>b\n<BR/>\n<p>hi</p>", &ast, &mut cx).unwrap();
    let p = match &doc.blocks[0] {
        BlockNode::Paragraph(p) => p,
        other => panic!("expected a paragraph, got {:?}", other),
    };
    assert_eq!(p.text, "a\nb");
    assert_eq!(p.children.len(), 3);
    match &doc.blocks[1] {
        BlockNode::Root { children, .. } => {
            assert!(matches!(children[0], BlockNode::Break { html: true, .. }));
        },
        other => panic!("expected a root wrapper, got {:?}", other),
    }
    match &doc.blocks[2] {
        BlockNode::Paragraph(p) => assert_eq!(p.text, "<p>hi</p>"),
        other => panic!("expected a literal paragraph, got {:?}", other),
    }
}

#[test]
fn emphasis_flattens_nested_children_to_plain_text() {
    let ast = Ast::Root {
        children: vec![Ast::Paragraph {
            children: vec![Ast::Emphasis {
                children: vec![
                    text("a"),
                    Ast::Strong { children: vec![text("b")], pos: None },
                ],
                pos: None,
            }],
            pos: None,
        }],
        pos: None,
    };
    let mut cx = ctx_plain();
    let doc = parse("*a**b***", &ast, &mut cx).unwrap();
    let p = match &doc.blocks[0] {
        BlockNode::Paragraph(p) => p,
        other => panic!("expected a paragraph, got {:?}", other),
    };
    assert_eq!(p.children.len(), 1);
    assert_eq!(p.children[0].text, "ab");
    assert!(p.children[0].marks[0].1.italic);
}

#[test]
fn links_wrap_their_children() {
    let ast = Ast::Root {
        children: vec![Ast::Paragraph {
            children: vec![Ast::Link {
                url: "http://e.com".to_string(),
                title: Some("t".to_string()),
                children: vec![text("go")],
                pos: None,
            }],
            pos: None,
        }],
        pos: None,
    };
    let mut cx = ctx_plain();
    let doc = parse("[go](http://e.com)", &ast, &mut cx).unwrap();
    let p = match &doc.blocks[0] {
        BlockNode::Paragraph(p) => p,
        other => panic!("expected a paragraph, got {:?}", other),
    };
    let link = p.children[0].marks[0].1.link.as_ref().unwrap();
    assert_eq!(link.url, "http://e.com");
    assert!(!link.requires_modifiers);
    assert!(link.decorate);

    // an internal open URL flips both flags
    let ast = Ast::Root {
        children: vec![Ast::Paragraph {
            children: vec![Ast::Link {
                url: "ctx://open?path=%2Fa".to_string(),
                title: None,
                children: vec![text("a")],
                pos: None,
            }],
            pos: None,
        }],
        pos: None,
    };
    let doc = parse("[a](ctx://open?path=%2Fa)", &ast, &mut cx).unwrap();
    let p = match &doc.blocks[0] {
        BlockNode::Paragraph(p) => p,
        other => panic!("expected a paragraph, got {:?}", other),
    };
    let link = p.children[0].marks[0].1.link.as_ref().unwrap();
    assert!(link.requires_modifiers);
    assert!(!link.decorate);
}

#[test]
fn footnote_definition_renders_with_its_prefix() {
    let ast = Ast::Root {
        children: vec![Ast::FootnoteDefinition {
            identifier: "1".to_string(),
            children: vec![Ast::Paragraph { children: vec![text("note")], pos: None }],
            pos: None,
        }],
        pos: None,
    };
    let mut cx = ctx_plain();
    let doc = parse("[^1]: note", &ast, &mut cx).unwrap();
    let p = match &doc.blocks[0] {
        BlockNode::Paragraph(p) => p,
        other => panic!("expected a paragraph, got {:?}", other),
    };
    assert_eq!(p.text, "[1]: note");
    assert!(p.children[0].marks[0].1.italic);
}

#[test]
fn code_blocks_keep_language_tags() {
    let ast = Ast::Root {
        children: vec![
            Ast::Code { value: "let x;".to_string(), lang: Some("rust".to_string()), pos: None },
            Ast::Yaml { value: "a: 1".to_string(), pos: None },
            Ast::Toml { value: "a = 1".to_string(), pos: None },
            Ast::MdxFlowExpression { value: "x + 1".to_string(), pos: None },
            Ast::Math { value: "1 + 1".to_string(), pos: None },
        ],
        pos: None,
    };
    let mut cx = ctx_plain();
    let doc = parse("...", &ast, &mut cx).unwrap();
    let langs: Vec<Option<&str>> = doc
        .blocks
        .iter()
        .map(|b| match b {
            BlockNode::CodeBlock(c) => c.lang.as_deref(),
            other => panic!("expected a code block, got {:?}", other),
        })
        .collect();
    assert_eq!(langs, vec![Some("rust"), Some("yml"), Some("toml"), Some("mdx"), None]);
}

#[test]
fn spans_shift_by_the_context_offset() {
    let ast = Ast::Root {
        children: vec![Ast::Paragraph {
            children: vec![text("x")],
            pos: Some(rich_text::ast::Pos { start: 2, end: 3 }),
        }],
        pos: None,
    };
    let mut cx = NodeContext::new(100, CodeTokenLinks::default());
    let doc = parse("x", &ast, &mut cx).unwrap();
    let p = match &doc.blocks[0] {
        BlockNode::Paragraph(p) => p,
        other => panic!("expected a paragraph, got {:?}", other),
    };
    let span = p.span.unwrap();
    assert_eq!((span.start, span.end), (102, 103));
}

#[test]
fn tables_collect_rows_and_cells() {
    let cell = |s: &str| Ast::TableCell { children: vec![text(s)], pos: None };
    let ast = Ast::Root {
        children: vec![Ast::Table {
            align: vec![
                rich_text::node::ColumnAlign::Left,
                rich_text::node::ColumnAlign::Right,
            ],
            children: vec![
                Ast::TableRow { children: vec![cell("a"), cell("b")], pos: None },
                Ast::TableRow { children: vec![cell("c"), cell("d")], pos: None },
            ],
            pos: None,
        }],
        pos: None,
    };
    let mut cx = ctx_plain();
    let doc = parse("|a|b|\n|c|d|", &ast, &mut cx).unwrap();
    let t = match &doc.blocks[0] {
        BlockNode::Table(t) => t,
        other => panic!("expected a table, got {:?}", other),
    };
    assert_eq!(t.column_aligns.len(), 2);
    assert_eq!(t.children.len(), 2);
    assert_eq!(t.children[0].children[1].children.text, "b");
    assert_eq!(t.children[1].children[0].children.text, "c");
}

#[test]
fn lists_nest_their_items() {
    let ast = Ast::Root {
        children: vec![Ast::List {
            ordered: true,
            children: vec![Ast::ListItem {
                children: vec![Ast::Paragraph { children: vec![text("one")], pos: None }],
                spread: false,
                checked: Some(true),
                pos: None,
            }],
            pos: None,
        }],
        pos: None,
    };
    let mut cx = ctx_plain();
    let doc = parse("1. one", &ast, &mut cx).unwrap();
    match &doc.blocks[0] {
        BlockNode::List { ordered, children, .. } => {
            assert!(*ordered);
            match &children[0] {
                BlockNode::ListItem { children, checked, .. } => {
                    assert_eq!(*checked, Some(true));
                    assert!(matches!(&children[0], BlockNode::Paragraph(p) if p.text == "one"));
                },
                other => panic!("expected a list item, got {:?}", other),
            }
        },
        other => panic!("expected a list, got {:?}", other),
    }
}

#[test]
fn images_carry_their_link_when_wrapped() {
    let ast = Ast::Root {
        children: vec![Ast::Paragraph {
            children: vec![Ast::Link {
                url: "http://e.com".to_string(),
                title: None,
                children: vec![Ast::Image {
                    url: "http://img".to_string(),
                    title: None,
                    alt: "pic".to_string(),
                    pos: None,
                }],
                pos: None,
            }],
            pos: None,
        }],
        pos: None,
    };
    let mut cx = ctx_plain();
    let doc = parse("[![pic](http://img)](http://e.com)", &ast, &mut cx).unwrap();
    let p = match &doc.blocks[0] {
        BlockNode::Paragraph(p) => p,
        other => panic!("expected a paragraph, got {:?}", other),
    };
    let image = p.children[0].image.as_ref().unwrap();
    assert_eq!(image.url, "http://img");
    assert_eq!(image.alt.as_deref(), Some("pic"));
    assert_eq!(image.link.as_ref().unwrap().url, "http://e.com");
}
