use browser_core::dom::{Attribute, Element, ElementKind, Node, NodeKind, Window};
use browser_core::html::{HtmlError, HtmlParser, HtmlToken, InsertionMode};
use browser_core::html_token::HtmlTokenizer;

fn start(tag: &str) -> HtmlToken {
    HtmlToken::StartTag { tag: tag.to_string(), self_closing: false, attributes: Vec::new() }
}

fn start_with(tag: &str, name: &str, value: &str) -> HtmlToken {
    HtmlToken::StartTag {
        tag: tag.to_string(),
        self_closing: false,
        attributes: vec![Attribute { name: name.to_string(), value: value.to_string() }],
    }
}

fn end(tag: &str) -> HtmlToken {
    HtmlToken::EndTag { tag: tag.to_string() }
}

fn chars(text: &str) -> Vec<HtmlToken> {
    text.chars().map(HtmlToken::Char).collect()
}

fn build(tokens: Vec<HtmlToken>) -> Result<Window, HtmlError> {
    HtmlParser::from_tokens(tokens).construct_tree()
}

fn element(kind: ElementKind) -> NodeKind {
    NodeKind::Element(Element { kind, attributes: Vec::new() })
}

fn kinds(window: &Window) -> Vec<NodeKind> {
    (0..window.len()).map(|i| window.node(i).kind.clone()).collect()
}

/// Every node but the first has a parent before it, and the walk along
/// first_child and next_sibling from the document visits each node once.
fn assert_is_tree(window: &Window) {
    let n = window.len();
    assert!(n >= 1);
    assert_eq!(window.node(0).parent, None);
    assert_eq!(window.node(0).kind, NodeKind::Document);
    for i in 1..n {
        let parent = window.node(i).parent.expect("a parent");
        assert!(parent < i);
    }
    let mut seen = vec![0usize; n];
    let mut pending = vec![window.document()];
    while let Some(i) = pending.pop() {
        seen[i] += 1;
        let node: &Node = window.node(i);
        if let Some(s) = node.next_sibling {
            assert_eq!(window.node(s).previous_sibling, Some(i));
            assert_eq!(window.node(s).parent, node.parent);
            pending.push(s);
        }
        if let Some(c) = node.first_child {
            assert_eq!(window.node(c).parent, Some(i));
            pending.push(c);
        }
    }
    assert_eq!(seen, vec![1usize; n]);
}

#[test]
fn a_new_window_holds_the_document_alone() {
    let window = Window::new();
    assert_eq!(window.len(), 1);
    assert_eq!(window.document(), 0);
    assert_eq!(kinds(&window), vec![NodeKind::Document]);
    assert_is_tree(&window);
}

#[test]
fn end_of_file_alone_builds_nothing() {
    let window = build(vec![HtmlToken::Eof]).unwrap();
    assert_eq!(window.len(), 1);
    assert_eq!(window.node(0).first_child, None);
    assert_eq!(window.node(0).last_child, None);
}

#[test]
fn no_tokens_build_nothing() {
    let window = build(Vec::new()).unwrap();
    assert_eq!(kinds(&window), vec![NodeKind::Document]);
}

#[test]
fn html_head_and_body_are_linked() {
    let window = build(vec![
        start("html"),
        start("head"),
        end("head"),
        start("body"),
        end("body"),
        end("html"),
        HtmlToken::Eof,
    ])
    .unwrap();
    assert_eq!(
        kinds(&window),
        vec![
            NodeKind::Document,
            element(ElementKind::Html),
            element(ElementKind::Head),
            element(ElementKind::Body),
        ]
    );
    assert_eq!(window.node(0).first_child, Some(1));
    assert_eq!(window.node(0).last_child, Some(1));
    assert_eq!(window.node(1).first_child, Some(2));
    assert_eq!(window.node(1).last_child, Some(3));
    assert_eq!(window.node(2).parent, Some(1));
    assert_eq!(window.node(2).first_child, None);
    assert_eq!(window.node(2).next_sibling, Some(3));
    assert_eq!(window.node(3).parent, Some(1));
    assert_is_tree(&window);
}

#[test]
fn missing_elements_are_synthesized() {
    let window = build(vec![start("body"), end("body"), HtmlToken::Eof]).unwrap();
    assert_eq!(
        kinds(&window),
        vec![
            NodeKind::Document,
            element(ElementKind::Html),
            element(ElementKind::Head),
            element(ElementKind::Body),
        ]
    );
    assert_eq!(window.node(1).first_child, Some(2));
    assert_eq!(window.node(1).last_child, Some(3));
    assert_eq!(window.node(2).next_sibling, Some(3));
    assert_eq!(window.node(3).previous_sibling, Some(2));
    assert_eq!(window.node(3).parent, Some(1));
    assert_is_tree(&window);
}

#[test]
fn attributes_of_a_start_tag_are_kept() {
    let window = build(vec![start_with("html", "lang", "en"), HtmlToken::Eof]).unwrap();
    assert_eq!(
        window.node(1).kind,
        NodeKind::Element(Element {
            kind: ElementKind::Html,
            attributes: vec![Attribute { name: "lang".to_string(), value: "en".to_string() }],
        })
    );
}

#[test]
fn raw_text_of_a_style_element_becomes_one_text_node() {
    let mut tokens = vec![start("html"), start("head"), start("style")];
    tokens.extend(chars("p { }"));
    tokens.push(end("style"));
    tokens.push(start("script"));
    tokens.extend(chars("x"));
    tokens.push(end("script"));
    tokens.push(HtmlToken::Eof);
    let window = build(tokens).unwrap();
    assert_eq!(
        kinds(&window),
        vec![
            NodeKind::Document,
            element(ElementKind::Html),
            element(ElementKind::Head),
            element(ElementKind::Style),
            NodeKind::Text("p { }".to_string()),
            element(ElementKind::Script),
            NodeKind::Text("x".to_string()),
        ]
    );
    assert_eq!(window.node(2).first_child, Some(3));
    assert_eq!(window.node(2).last_child, Some(5));
    assert_eq!(window.node(3).next_sibling, Some(5));
    assert_eq!(window.node(3).first_child, Some(4));
    assert_eq!(window.node(5).first_child, Some(6));
    assert_is_tree(&window);
}

#[test]
fn leading_characters_and_unknown_tags_are_dropped() {
    let mut tokens = chars("<!doctype html>\n");
    tokens.push(start("html"));
    tokens.push(HtmlToken::Char('\n'));
    tokens.push(start("head"));
    tokens.push(start("meta"));
    tokens.push(HtmlToken::Char('x'));
    tokens.push(end("title"));
    tokens.push(HtmlToken::Eof);
    let window = build(tokens).unwrap();
    assert_eq!(
        kinds(&window),
        vec![NodeKind::Document, element(ElementKind::Html), element(ElementKind::Head)]
    );
}

#[test]
fn end_tags_before_html_are_dropped() {
    let window = build(vec![end("br"), end("html"), start("html"), HtmlToken::Eof]).unwrap();
    assert_eq!(kinds(&window), vec![NodeKind::Document, element(ElementKind::Html)]);
}

#[test]
fn content_inside_the_body_is_not_handled() {
    assert_eq!(
        build(vec![start("body"), HtmlToken::Char('a'), HtmlToken::Eof]),
        Err(HtmlError::UnhandledInBody)
    );
    assert_eq!(build(vec![start("body"), start("p")]), Err(HtmlError::UnhandledInBody));
    assert_eq!(build(vec![start("html"), HtmlToken::Char('a')]).unwrap().len(), 3);
    assert_eq!(build(vec![HtmlToken::Char('a')]).unwrap().len(), 1);
}

#[test]
fn closing_html_needs_html_under_the_body() {
    let window = build(vec![start("body"), end("html"), end("html"), HtmlToken::Eof]).unwrap();
    assert_eq!(window.len(), 4);

    let tokens = vec![start("head"), start("script"), end("style"), start("body"), end("html")];
    assert_eq!(build(tokens), Err(HtmlError::HtmlNotCurrent));

    let mut tokens = vec![start("head"), start("style")];
    tokens.extend(chars("a"));
    tokens.push(start("style"));
    tokens.push(start("body"));
    tokens.push(end("html"));
    let window = build(tokens).unwrap();
    assert_eq!(window.len(), 7);
    assert_eq!(window.node(5).parent, Some(4));
    assert_eq!(window.node(6).parent, Some(1));
    assert_is_tree(&window);
}

#[test]
fn a_spent_constructor_is_back_at_the_start() {
    let mut parser = HtmlParser::from_tokens(vec![start("html"), HtmlToken::Eof]);
    assert_eq!(parser.construct_tree().unwrap().len(), 2);
    assert_eq!(parser.construct_tree().unwrap().len(), 1);
}

#[test]
fn tokens_behind_the_end_of_file_are_not_read() {
    let window = build(vec![start("html"), HtmlToken::Eof, start("head")]).unwrap();
    assert_eq!(window.len(), 2);
}

#[test]
fn tag_names_and_kinds() {
    for kind in [
        ElementKind::Html,
        ElementKind::Head,
        ElementKind::Style,
        ElementKind::Script,
        ElementKind::Body,
    ] {
        assert_eq!(ElementKind::from_tag(&kind.tag()), Some(kind));
    }
    assert_eq!(ElementKind::Script.tag(), "script");
    assert_eq!(ElementKind::from_tag("p"), None);
    assert_eq!(ElementKind::from_tag("htm"), None);
    assert_eq!(ElementKind::from_tag("HTML"), None);
}

#[test]
fn children_are_appended_behind_the_last_child() {
    let mut window = Window::new();
    let a = window.append_child(0, element(ElementKind::Html));
    let b = window.append_child(a, element(ElementKind::Head));
    let c = window.append_child(a, NodeKind::Text("t".to_string()));
    let d = window.append_child(a, element(ElementKind::Body));
    assert_eq!((a, b, c, d), (1, 2, 3, 4));
    assert_eq!(window.node(a).first_child, Some(b));
    assert_eq!(window.node(a).last_child, Some(d));
    assert_eq!(window.node(c).previous_sibling, Some(b));
    assert_eq!(window.node(d).previous_sibling, Some(c));
    assert_eq!(window.node(d).next_sibling, None);
    window.append_text(c, 'u');
    window.append_text(b, 'u');
    assert_eq!(window.node(c).kind, NodeKind::Text("tu".to_string()));
    assert_eq!(window.node(b).kind, element(ElementKind::Head));
    assert_is_tree(&window);
}

#[test]
fn insertion_modes_are_distinct() {
    assert_ne!(InsertionMode::Initial, InsertionMode::BeforeHtml);
    assert_eq!(InsertionMode::Text, InsertionMode::Text);
}

#[test]
fn closing_a_body_that_is_not_open_changes_nothing() {
    let tokens = vec![
        start("head"),
        start("script"),
        end("style"),
        start("body"),
        end("body"),
        end("body"),
        end("html"),
        HtmlToken::Eof,
    ];
    let window = build(tokens).unwrap();
    assert_eq!(window.len(), 5);
    assert_eq!(window.node(4).parent, Some(0));
    assert_is_tree(&window);
}

fn tokens_of(text: &str) -> Vec<HtmlToken> {
    let mut t = HtmlTokenizer::new(text.to_string());
    let mut found = Vec::new();
    while let Some(token) = t.next() {
        found.push(token);
    }
    assert_eq!(t.next(), None);
    found
}

#[test]
fn the_empty_text_is_the_end_of_file_alone() {
    assert_eq!(tokens_of(""), vec![HtmlToken::Eof]);
    let window = HtmlParser::new(HtmlTokenizer::new(String::new())).construct_tree().unwrap();
    assert_eq!(window.len(), 1);
}

#[test]
fn tags_and_characters_are_told_apart() {
    assert_eq!(
        tokens_of("<html>a</html >"),
        vec![start("html"), HtmlToken::Char('a'), end("html"), HtmlToken::Eof]
    );
    assert_eq!(
        tokens_of("< a<1</>"),
        vec![
            HtmlToken::Char('<'),
            HtmlToken::Char(' '),
            HtmlToken::Char('a'),
            HtmlToken::Char('<'),
            HtmlToken::Char('1'),
            HtmlToken::Char('<'),
            HtmlToken::Char('/'),
            HtmlToken::Char('>'),
            HtmlToken::Eof,
        ]
    );
}

#[test]
fn a_doctype_comes_out_as_characters() {
    let mut expected = chars("<!doctype html>");
    expected.push(start("html"));
    expected.push(HtmlToken::Eof);
    assert_eq!(tokens_of("<!doctype html><html>"), expected);
}

#[test]
fn attributes_are_read_in_their_order() {
    let attribute = |n: &str, v: &str| Attribute { name: n.to_string(), value: v.to_string() };
    assert_eq!(
        tokens_of("<body class=\"a b\" id='c' hidden width=10 x=/>"),
        vec![
            HtmlToken::StartTag {
                tag: "body".to_string(),
                self_closing: false,
                attributes: vec![
                    attribute("class", "a b"),
                    attribute("id", "c"),
                    attribute("hidden", ""),
                    attribute("width", "10"),
                    attribute("x", "/"),
                ],
            },
            HtmlToken::Eof,
        ]
    );
    assert_eq!(
        tokens_of("<br/><br / ><p a=1/>"),
        vec![
            HtmlToken::StartTag { tag: "br".to_string(), self_closing: true, attributes: vec![] },
            start("br"),
            HtmlToken::StartTag {
                tag: "p".to_string(),
                self_closing: false,
                attributes: vec![attribute("a", "1/")],
            },
            HtmlToken::Eof,
        ]
    );
    assert_eq!(tokens_of("</body class=a>x"), vec![end("body"), HtmlToken::Char('x'), HtmlToken::Eof]);
}

#[test]
fn a_tag_may_end_with_the_text() {
    let attribute = |n: &str, v: &str| Attribute { name: n.to_string(), value: v.to_string() };
    assert_eq!(
        tokens_of("<a b=\"c"),
        vec![
            HtmlToken::StartTag {
                tag: "a".to_string(),
                self_closing: false,
                attributes: vec![attribute("b", "c")],
            },
            HtmlToken::Eof,
        ]
    );
    assert_eq!(tokens_of("<a"), vec![start("a"), HtmlToken::Eof]);
    assert_eq!(tokens_of("<a ="), vec![start("a"), HtmlToken::Eof]);
}

#[test]
fn a_page_is_built_from_its_text() {
    let text = "<html lang=en>\n<head><style>p { }</style></head>\n<body></body></html>";
    let window = HtmlParser::new(HtmlTokenizer::new(text.to_string())).construct_tree().unwrap();
    assert_eq!(
        kinds(&window),
        vec![
            NodeKind::Document,
            NodeKind::Element(Element {
                kind: ElementKind::Html,
                attributes: vec![Attribute { name: "lang".to_string(), value: "en".to_string() }],
            }),
            element(ElementKind::Head),
            element(ElementKind::Style),
            NodeKind::Text("p { }".to_string()),
            element(ElementKind::Body),
        ]
    );
    assert_eq!(window.node(5).parent, Some(1));
    assert_is_tree(&window);
}

#[test]
fn a_parser_reads_what_the_markup_tokenizer_has_not_read() {
    let mut t = HtmlTokenizer::new("<html><head>".to_string());
    assert_eq!(t.next(), Some(start("html")));
    let window = HtmlParser::new(t).construct_tree().unwrap();
    assert_eq!(
        kinds(&window),
        vec![NodeKind::Document, element(ElementKind::Html), element(ElementKind::Head)]
    );
}
