use browser_core::css::cssom::{CssParser, Selector, StyleSheet};
use browser_core::css::token::CssTokenizer;
use browser_core::dom::{Attribute, Element, ElementKind, NodeKind, Window};
use browser_core::http::HttpClient;
use browser_core::layout::{
    build_layout_tree, create_layout_object, get_target_element_node, is_node_selected,
    LayoutObject, LayoutView,
};

fn sheet(style: &str) -> StyleSheet {
    CssParser::new(CssTokenizer::new(style.to_string())).parse_stylesheet().unwrap()
}

fn element(kind: ElementKind, attributes: &[(&str, &str)]) -> NodeKind {
    NodeKind::Element(Element {
        kind,
        attributes: attributes
            .iter()
            .map(|(n, v)| Attribute { name: n.to_string(), value: v.to_string() })
            .collect(),
    })
}

/// document > html > (head > style > text, body > (script.a, style#b > text, script))
fn page() -> Window {
    let mut w = Window::new();
    let html = w.append_child(0, element(ElementKind::Html, &[]));
    let head = w.append_child(html, element(ElementKind::Head, &[]));
    let style = w.append_child(head, element(ElementKind::Style, &[]));
    w.append_child(style, NodeKind::Text("x".to_string()));
    let body = w.append_child(html, element(ElementKind::Body, &[]));
    w.append_child(body, element(ElementKind::Script, &[("class", "a")]));
    let inner = w.append_child(body, element(ElementKind::Style, &[("id", "b")]));
    w.append_child(inner, NodeKind::Text("y".to_string()));
    w.append_child(body, element(ElementKind::Script, &[]));
    w
}

/// The document nodes of the objects, in the order object, children, siblings.
fn nodes_of(object: &Option<Box<LayoutObject>>, into: &mut Vec<usize>) {
    if let Some(o) = object {
        into.push(o.node);
        nodes_of(&o.first_child, into);
        nodes_of(&o.next_sibling, into);
    }
}

fn shown(window: &Window, style: &str) -> Vec<usize> {
    let view = LayoutView::new(window, &sheet(style));
    let mut found = Vec::new();
    nodes_of(view.root(), &mut found);
    found
}

#[test]
fn the_layout_tree_mirrors_the_body() {
    let w = page();
    assert_eq!(shown(&w, ""), vec![5, 6, 7, 8, 9]);
    let view = LayoutView::new(&w, &sheet(""));
    let body = view.root().as_ref().unwrap();
    assert_eq!(body.node, 5);
    assert!(body.next_sibling.is_none());
    let first = body.first_child.as_ref().unwrap();
    assert_eq!(first.node, 6);
    assert!(first.first_child.is_none());
    let second = first.next_sibling.as_ref().unwrap();
    assert_eq!(second.node, 7);
    assert_eq!(second.first_child.as_ref().unwrap().node, 8);
    assert_eq!(second.next_sibling.as_ref().unwrap().node, 9);
}

#[test]
fn a_hidden_node_takes_its_subtree_along_and_leaves_its_siblings() {
    let w = page();
    assert_eq!(shown(&w, "#b { display: none; }"), vec![5, 6, 9]);
    assert_eq!(shown(&w, ".a { display: none; }"), vec![5, 7, 8, 9]);
    assert_eq!(shown(&w, "script { display: none; }"), vec![5, 7, 8]);
    assert_eq!(shown(&w, "script { display: none; } style { display: none; }"), vec![5]);
    assert_eq!(shown(&w, "body { display: none; }"), Vec::<usize>::new());
}

#[test]
fn the_last_display_decides() {
    let w = page();
    assert_eq!(shown(&w, "#b { display: none; display: block; }"), vec![5, 6, 7, 8, 9]);
    assert_eq!(shown(&w, "#b { display: block; } style { display: none; }"), vec![5, 6, 9]);
    assert_eq!(shown(&w, "#b { display: 'none'; }"), vec![5, 6, 7, 8, 9]);
}

#[test]
fn without_a_body_the_layout_tree_is_empty() {
    let mut w = Window::new();
    w.append_child(0, element(ElementKind::Html, &[]));
    assert_eq!(shown(&w, ""), Vec::<usize>::new());
    assert!(LayoutView::new(&w, &sheet("")).root().is_none());
}

#[test]
fn the_first_element_of_a_kind_is_found_children_first() {
    let w = page();
    assert_eq!(get_target_element_node(&w, Some(0), ElementKind::Body), Some(5));
    assert_eq!(get_target_element_node(&w, Some(0), ElementKind::Style), Some(3));
    assert_eq!(get_target_element_node(&w, Some(5), ElementKind::Style), Some(7));
    assert_eq!(get_target_element_node(&w, Some(6), ElementKind::Script), Some(6));
    assert_eq!(get_target_element_node(&w, Some(7), ElementKind::Head), None);
    assert_eq!(get_target_element_node(&w, None, ElementKind::Html), None);
}

#[test]
fn selectors_select_by_tag_class_and_id() {
    let w = page();
    let by = |i: usize, s: Selector| is_node_selected(w.node(i), &s);
    assert!(by(5, Selector::TypeSelector("body".to_string())));
    assert!(!by(5, Selector::TypeSelector("html".to_string())));
    assert!(by(6, Selector::ClassSelector("a".to_string())));
    assert!(!by(6, Selector::IdSelector("a".to_string())));
    assert!(by(7, Selector::IdSelector("b".to_string())));
    assert!(!by(7, Selector::ClassSelector("b".to_string())));
    assert!(!by(7, Selector::UnknownSelector));
    assert!(!by(8, Selector::TypeSelector("style".to_string())));
    assert!(!by(0, Selector::TypeSelector("".to_string())));
}

#[test]
fn an_object_carries_the_declarations_of_the_rules_that_select_its_node() {
    let w = page();
    let css = sheet("style { color: red; } script { color: blue; } #b { width: 1; color: green; }");
    let object = create_layout_object(&w, 7, &css).unwrap();
    assert_eq!(object.node, 7);
    let properties: Vec<&str> = object.declarations.iter().map(|d| d.property.as_str()).collect();
    assert_eq!(properties, vec!["color", "width", "color"]);
    assert_eq!(object.declarations[0], css.rules[0].declarations[0]);
    assert_eq!(object.declarations[2], css.rules[2].declarations[1]);
    assert!(object.first_child.is_none() && object.next_sibling.is_none());
    assert!(create_layout_object(&w, 8, &css).unwrap().declarations.is_empty());
    assert!(create_layout_object(&w, 0, &css).is_none());
}

#[test]
fn building_from_a_hidden_node_builds_from_its_next_sibling() {
    let w = page();
    let css = sheet(".a { display: none; }");
    let mut from_hidden = Vec::new();
    nodes_of(&build_layout_tree(&w, Some(6), &css), &mut from_hidden);
    let mut from_next = Vec::new();
    nodes_of(&build_layout_tree(&w, Some(7), &css), &mut from_next);
    assert_eq!(from_hidden, vec![7, 8, 9]);
    assert_eq!(from_hidden, from_next);
    assert!(build_layout_tree(&w, None, &css).is_none());
}

#[test]
fn the_request_names_the_path_and_the_host() {
    let client = HttpClient::new();
    assert_eq!(
        client.request("example.com", "index.html"),
        "GET /index.html HTTP/1.1\nHost: example.com\nAccept: test/html\nConnection: close\n\n"
    );
    assert_eq!(
        client.request("h", ""),
        "GET / HTTP/1.1\nHost: h\nAccept: test/html\nConnection: close\n\n"
    );
}
