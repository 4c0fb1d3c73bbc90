//! The layout tree: the part of the document tree under `<body>` that is
//! displayed, each node with the declarations that apply to it.

use vstd::prelude::*;
use crate::css::cssom::{
    Declaration, DeclarationView, RuleView, Selector, SelectorView, StyleSheet, declarations_view,
    rules_view,
};
use crate::css::token::{CssNumber, CssToken, Token};
use crate::dom::{
    Attribute, AttributeView, ElementKind, KindView, Node, NodeKind, NodeView, Window, element_kind,
    links_ok, tag_of_kind, tree_ok,
};
use crate::text::same_text;

verus! {

/// Whether one of the attributes has the name `name` and the value `value`.
pub open spec fn has_attribute(
    attributes: Seq<AttributeView>,
    name: Seq<char>,
    value: Seq<char>,
) -> bool {
    exists|i: int|
        0 <= i < attributes.len() && (#[trigger] attributes[i]).name == name && attributes[i].value
            == value
}

/// Whether a selector selects a node: an element by its tag name, by its
/// `class` attribute or by its `id` attribute. Nothing else is selected.
pub open spec fn selects(selector: SelectorView, node: NodeView) -> bool {
    match node.kind {
        KindView::Element(kind, attributes) => match selector {
            SelectorView::Type(name) => name == tag_of_kind(kind),
            SelectorView::Class(name) => has_attribute(attributes, "class"@, name),
            SelectorView::Id(name) => has_attribute(attributes, "id"@, name),
            SelectorView::Unknown => false,
        },
        _ => false,
    }
}

/// The declarations of the rules that select a node, in the order of the sheet.
pub open spec fn resolved(node: NodeView, rules: Seq<RuleView>) -> Seq<DeclarationView>
    decreases rules.len(),
{
    if rules.len() == 0 {
        Seq::empty()
    } else if selects(rules.last().selector, node) {
        resolved(node, rules.drop_last()) + rules.last().declarations
    } else {
        resolved(node, rules.drop_last())
    }
}

/// Whether the last `display` among the declarations has the value `none`.
pub open spec fn display_none(declarations: Seq<DeclarationView>) -> bool
    decreases declarations.len(),
{
    if declarations.len() == 0 {
        false
    } else if declarations.last().property == "display"@ {
        declarations.last().value == Token::Ident("none"@)
    } else {
        display_none(declarations.drop_last())
    }
}

/// Whether a node gets a layout object: it is an element or a text, and
/// its display does not resolve to `none`.
pub open spec fn displayed(node: NodeView, rules: Seq<RuleView>) -> bool {
    !(node.kind is Document) && !display_none(resolved(node, rules))
}

/// A layout tree: the index of a document node, the declarations that apply
/// to it, and the trees of its first child and of its next sibling.
pub struct LayoutTree {
    pub node: usize,
    pub declarations: Seq<DeclarationView>,
    pub first_child: Option<Box<LayoutTree>>,
    pub next_sibling: Option<Box<LayoutTree>>,
}

/// The first node that is displayed among `start` and the siblings behind it.
pub open spec fn first_displayed(
    nodes: Seq<NodeView>,
    rules: Seq<RuleView>,
    start: Option<usize>,
) -> Option<usize>
    decreases
            match start {
                Some(i) => nodes.len() - i,
                None => 0,
            },
    when tree_ok(nodes) && (start is Some ==> start->Some_0 < nodes.len())
    via first_displayed_decreases
{
    match start {
        None => None,
        Some(i) => if displayed(nodes[i as int], rules) {
            Some(i)
        } else {
            first_displayed(nodes, rules, nodes[i as int].next_sibling)
        },
    }
}

#[via_fn]
proof fn first_displayed_decreases(nodes: Seq<NodeView>, rules: Seq<RuleView>, start: Option<usize>) {
    if start is Some {
        assert(links_ok(nodes, start->Some_0 as int));
    }
}

/// What `first_displayed` finds is a node of the tree at or behind `start`,
/// with the same parent, and it is displayed.
pub proof fn lemma_first_displayed(nodes: Seq<NodeView>, rules: Seq<RuleView>, start: Option<usize>)
    requires
        tree_ok(nodes),
        start is Some ==> start->Some_0 < nodes.len(),
    ensures
        first_displayed(nodes, rules, start) is Some ==> {
            let n = first_displayed(nodes, rules, start)->Some_0;
            &&& start is Some
            &&& start->Some_0 <= n < nodes.len()
            &&& displayed(nodes[n as int], rules)
            &&& nodes[n as int].parent == nodes[start->Some_0 as int].parent
        },
    decreases
            match start {
                Some(i) => nodes.len() - i,
                None => 0,
            },
{
    if start is Some {
        let i = start->Some_0;
        assert(links_ok(nodes, i as int));
        if !displayed(nodes[i as int], rules) {
            lemma_first_displayed(nodes, rules, nodes[i as int].next_sibling);
        }
    }
}

/// The layout tree of the nodes from `start` on: of the first displayed
/// node among `start` and its later siblings, with the layout tree of its
/// children and that of the siblings behind it. A node that is not
/// displayed is passed over together with everything below it.
pub open spec fn layout_of(nodes: Seq<NodeView>, rules: Seq<RuleView>, start: Option<usize>) -> Option<
    Box<LayoutTree>,
>
    decreases
            match start {
                Some(i) => nodes.len() - i,
                None => 0,
            },
    when tree_ok(nodes) && (start is Some ==> start->Some_0 < nodes.len())
    via layout_of_decreases
{
    match first_displayed(nodes, rules, start) {
        None => None,
        Some(n) => Some(
            Box::new(
                LayoutTree {
                    node: n,
                    declarations: resolved(nodes[n as int], rules),
                    first_child: layout_of(nodes, rules, nodes[n as int].first_child),
                    next_sibling: layout_of(nodes, rules, nodes[n as int].next_sibling),
                },
            ),
        ),
    }
}

#[via_fn]
proof fn layout_of_decreases(nodes: Seq<NodeView>, rules: Seq<RuleView>, start: Option<usize>) {
    lemma_first_displayed(nodes, rules, start);
    if first_displayed(nodes, rules, start) is Some {
        assert(links_ok(nodes, first_displayed(nodes, rules, start)->Some_0 as int));
    }
}

/// The first node at or behind `start` in document order, children before
/// siblings, that is an element of kind `kind`.
pub open spec fn find_element(nodes: Seq<NodeView>, start: Option<usize>, kind: ElementKind) -> Option<
    usize,
>
    decreases
            match start {
                Some(i) => nodes.len() - i,
                None => 0,
            },
    when tree_ok(nodes) && (start is Some ==> start->Some_0 < nodes.len())
    via find_element_decreases
{
    match start {
        None => None,
        Some(i) => if element_kind(nodes[i as int]) == Some(kind) {
            Some(i)
        } else {
            match find_element(nodes, nodes[i as int].first_child, kind) {
                Some(found) => Some(found),
                None => find_element(nodes, nodes[i as int].next_sibling, kind),
            }
        },
    }
}

#[via_fn]
proof fn find_element_decreases(nodes: Seq<NodeView>, start: Option<usize>, kind: ElementKind) {
    if start is Some {
        assert(links_ok(nodes, start->Some_0 as int));
    }
}

/// What `find_element` finds is a node of the tree and an element of the kind.
pub proof fn lemma_find_element(nodes: Seq<NodeView>, start: Option<usize>, kind: ElementKind)
    requires
        tree_ok(nodes),
        start is Some ==> start->Some_0 < nodes.len(),
    ensures
        find_element(nodes, start, kind) is Some ==> find_element(nodes, start, kind)->Some_0
            < nodes.len() && element_kind(
            nodes[find_element(nodes, start, kind)->Some_0 as int],
        ) == Some(kind),
    decreases
            match start {
                Some(i) => nodes.len() - i,
                None => 0,
            },
{
    if start is Some {
        let i = start->Some_0;
        assert(links_ok(nodes, i as int));
        if element_kind(nodes[i as int]) != Some(kind) {
            lemma_find_element(nodes, nodes[i as int].first_child, kind);
            lemma_find_element(nodes, nodes[i as int].next_sibling, kind);
        }
    }
}

/// Searches the tree from `start` on for the first element of kind `kind`.
pub fn get_target_element_node(window: &Window, start: Option<usize>, kind: ElementKind) -> (r:
    Option<usize>)
    requires
        window.wf(),
        start is Some ==> start->Some_0 < window@.len(),
    ensures
        r == find_element(window@, start, kind),
    decreases
            match start {
                Some(i) => window@.len() - i,
                None => 0,
            },
{
    match start {
        None => None,
        Some(i) => {
            let node = window.node(i);
            proof {
                assert(links_ok(window@, i as int));
            }
            let here = match &node.kind {
                NodeKind::Element(e) => e.kind == kind,
                _ => false,
            };
            if here {
                return Some(i);
            }
            match get_target_element_node(window, node.first_child, kind) {
                Some(found) => Some(found),
                None => get_target_element_node(window, node.next_sibling, kind),
            }
        },
    }
}

/// A node of the layout tree.
#[derive(Debug)]
pub struct LayoutObject {
    /// The index of the document node that the object stands for.
    pub node: usize,
    /// The declarations that apply to the node.
    pub declarations: Vec<Declaration>,
    pub first_child: Option<Box<LayoutObject>>,
    pub next_sibling: Option<Box<LayoutObject>>,
}

/// What a layout object and the objects below and behind it stand for.
pub open spec fn tree_view(object: Option<Box<LayoutObject>>) -> Option<Box<LayoutTree>>
    decreases object,
{
    match object {
        None => None,
        Some(o) => Some(
            Box::new(
                LayoutTree {
                    node: o.node,
                    declarations: declarations_view(o.declarations@),
                    first_child: tree_view(o.first_child),
                    next_sibling: tree_view(o.next_sibling),
                },
            ),
        ),
    }
}

fn has_attribute_exec(attributes: &Vec<Attribute>, name: &str, value: &str) -> (r: bool)
    ensures
        r == has_attribute(crate::dom::attributes_view(attributes@), name@, value@),
{
    let ghost views = crate::dom::attributes_view(attributes@);
    let mut i: usize = 0;
    while i < attributes.len()
        invariant
            i <= attributes@.len(),
            views == crate::dom::attributes_view(attributes@),
            forall|j: int| 0 <= j < i ==> !((#[trigger] views[j]).name == name@ && views[j].value == value@),
        decreases attributes@.len() - i,
    {
        if same_text(attributes[i].name.as_str(), name) && same_text(
            attributes[i].value.as_str(),
            value,
        ) {
            assert(views[i as int].name == name@ && views[i as int].value == value@);
            return true;
        }
        i += 1;
    }
    false
}

/// Whether `selector` selects `node`.
pub fn is_node_selected(node: &Node, selector: &Selector) -> (r: bool)
    ensures
        r == selects(selector@, node@),
{
    match &node.kind {
        NodeKind::Element(e) => match selector {
            Selector::TypeSelector(name) => {
                let tag = e.kind.tag();
                same_text(name.as_str(), tag.as_str())
            },
            Selector::ClassSelector(name) => has_attribute_exec(
                &e.attributes,
                "class",
                name.as_str(),
            ),
            Selector::IdSelector(name) => has_attribute_exec(&e.attributes, "id", name.as_str()),
            Selector::UnknownSelector => false,
        },
        _ => false,
    }
}

fn resolve(node: &Node, cssom: &StyleSheet) -> (r: Vec<Declaration>)
    ensures
        declarations_view(r@) == resolved(node@, cssom@),
{
    let mut found: Vec<Declaration> = Vec::new();
    assert(declarations_view(found@) =~= Seq::empty());
    let mut i: usize = 0;
    while i < cssom.rules.len()
        invariant
            i <= cssom.rules@.len(),
            declarations_view(found@) == resolved(node@, cssom@.take(i as int)),
        decreases cssom.rules@.len() - i,
    {
        let rule = &cssom.rules[i];
        proof {
            assert(cssom@.take(i + 1).drop_last() =~= cssom@.take(i as int));
            assert(cssom@.take(i + 1).last() == rule@);
        }
        if is_node_selected(node, &rule.selector) {
            let ghost before = declarations_view(found@);
            let mut j: usize = 0;
            while j < rule.declarations.len()
                invariant
                    j <= rule.declarations@.len(),
                    declarations_view(found@) == before + rule@.declarations.take(j as int),
                decreases rule.declarations@.len() - j,
            {
                let ghost so_far = declarations_view(found@);
                found.push(rule.declarations[j].copy());
                assert(declarations_view(found@) =~= so_far.push(rule.declarations@[j as int]@));
                assert(rule@.declarations.take(j + 1) =~= rule@.declarations.take(j as int).push(
                    rule.declarations@[j as int]@,
                ));
                assert(before + rule@.declarations.take(j + 1) =~= so_far.push(
                    rule.declarations@[j as int]@,
                ));
                j += 1;
            }
            assert(rule@.declarations.take(j as int) =~= rule@.declarations);
        }
        i += 1;
    }
    assert(cssom@.take(i as int) =~= cssom@);
    found
}

fn is_display_none(declarations: &Vec<Declaration>) -> (r: bool)
    ensures
        r == display_none(declarations_view(declarations@)),
{
    let ghost all = declarations_view(declarations@);
    let mut none = false;
    let mut i: usize = 0;
    while i < declarations.len()
        invariant
            i <= declarations@.len(),
            all == declarations_view(declarations@),
            none == display_none(all.take(i as int)),
        decreases declarations@.len() - i,
    {
        let d = &declarations[i];
        proof {
            assert(all.take(i + 1).drop_last() =~= all.take(i as int));
            assert(all.take(i + 1).last() == d@);
        }
        if same_text(d.property.as_str(), "display") {
            none = match &d.value {
                CssToken::Ident(value) => same_text(value.as_str(), "none"),
                _ => false,
            };
        }
        i += 1;
    }
    assert(all.take(i as int) =~= all);
    none
}

/// The layout object of node `node`, without children and siblings, or
/// nothing where the node is not displayed.
pub fn create_layout_object(window: &Window, node: usize, cssom: &StyleSheet) -> (r: Option<
    LayoutObject,
>)
    requires
        node < window@.len(),
    ensures
        r is Some <==> displayed(window@[node as int], cssom@),
        r is Some ==> {
            let o = r->Some_0;
            &&& o.node == node
            &&& declarations_view(o.declarations@) == resolved(window@[node as int], cssom@)
            &&& o.first_child is None
            &&& o.next_sibling is None
        },
{
    let n = window.node(node);
    match &n.kind {
        NodeKind::Document => {
            return None;
        },
        _ => {},
    }
    let declarations = resolve(n, cssom);
    if is_display_none(&declarations) {
        None
    } else {
        Some(LayoutObject { node, declarations, first_child: None, next_sibling: None })
    }
}

/// Builds the layout tree of the nodes from `start` on. A node that is not
/// displayed is passed over, with everything below it, and the search goes
/// on with its next sibling; a failed build has walked the whole chain of
/// siblings, so nothing is left to try again.
pub fn build_layout_tree(window: &Window, start: Option<usize>, cssom: &StyleSheet) -> (r: Option<
    Box<LayoutObject>,
>)
    requires
        window.wf(),
        start is Some ==> start->Some_0 < window@.len(),
    ensures
        tree_view(r) == layout_of(window@, cssom@, start),
    decreases
            match start {
                Some(i) => window@.len() - i,
                None => 0,
            },
{
    let mut target = start;
    loop
        invariant
            window.wf(),
            start is Some ==> start->Some_0 < window@.len(),
            target is Some ==> target->Some_0 < window@.len(),
            target is Some ==> start is Some && start->Some_0 <= target->Some_0,
            first_displayed(window@, cssom@, target) == first_displayed(window@, cssom@, start),
        decreases
                match target {
                    Some(i) => window@.len() - i,
                    None => 0,
                },
    {
        match target {
            None => {
                return None;
            },
            Some(i) => {
                proof {
                    assert(links_ok(window@, i as int));
                }
                match create_layout_object(window, i, cssom) {
                    Some(object) => {
                        let node = window.node(i);
                        let mut object = object;
                        object.first_child = build_layout_tree(window, node.first_child, cssom);
                        object.next_sibling = build_layout_tree(window, node.next_sibling, cssom);
                        return Some(Box::new(object));
                    },
                    None => {
                        target = window.node(i).next_sibling;
                    },
                }
            },
        }
    }
}

/// The layout tree of a document.
#[derive(Debug)]
pub struct LayoutView {
    root: Option<Box<LayoutObject>>,
}

impl LayoutView {
    /// What the layout tree stands for.
    pub closed spec fn tree(&self) -> Option<Box<LayoutTree>> {
        tree_view(self.root)
    }

    /// The layout tree of what stands under the first `<body>` of the
    /// document, that element included; empty where there is none.
    pub fn new(window: &Window, cssom: &StyleSheet) -> (r: Self)
        requires
            window.wf(),
        ensures
            r.tree() == layout_of(
                window@,
                cssom@,
                find_element(window@, Some(0usize), ElementKind::Body),
            ),
    {
        let body = get_target_element_node(window, Some(window.document()), ElementKind::Body);
        proof {
            lemma_find_element(window@, Some(0usize), ElementKind::Body);
        }
        Self { root: build_layout_tree(window, body, cssom) }
    }

    /// The root of the layout tree.
    pub fn root(&self) -> (r: &Option<Box<LayoutObject>>)
        ensures
            tree_view(*r) == self.tree(),
    {
        &self.root
    }
}

/// Whether a layout tree holds an object for node `d`.
pub open spec fn covers(tree: Option<Box<LayoutTree>>, d: usize) -> bool
    decreases tree,
{
    match tree {
        None => false,
        Some(t) => t.node == d || covers(t.first_child, d) || covers(t.next_sibling, d),
    }
}

/// Whether node `d` and every node above it, up to a child of `top`, is
/// displayed.
pub open spec fn shown_below(
    nodes: Seq<NodeView>,
    rules: Seq<RuleView>,
    d: usize,
    top: Option<usize>,
) -> bool
    decreases d,
{
    &&& d < nodes.len()
    &&& displayed(nodes[d as int], rules)
    &&& nodes[d as int].parent == top || (nodes[d as int].parent is Some
        && nodes[d as int].parent->Some_0 < d && shown_below(
        nodes,
        rules,
        nodes[d as int].parent->Some_0,
        top,
    ))
}

/// What is shown below a node that is itself shown below `top` is shown below `top`.
pub proof fn lemma_shown_below_chain(
    nodes: Seq<NodeView>,
    rules: Seq<RuleView>,
    d: usize,
    n: usize,
    top: Option<usize>,
)
    requires
        tree_ok(nodes),
        shown_below(nodes, rules, d, Some(n)),
        shown_below(nodes, rules, n, top),
    ensures
        shown_below(nodes, rules, d, top),
    decreases d,
{
    assert(links_ok(nodes, d as int));
    if nodes[d as int].parent != Some(n) {
        lemma_shown_below_chain(nodes, rules, nodes[d as int].parent->Some_0, n, top);
    }
}

/// Elision: the layout tree built from `start` holds an object only for a
/// node that is displayed and whose every ancestor, up to the level of
/// `start`, is displayed. So a node that is not displayed contributes no
/// object, and neither does any node below it.
pub proof fn lemma_hidden_subtree_elided(
    nodes: Seq<NodeView>,
    rules: Seq<RuleView>,
    start: Option<usize>,
    d: usize,
)
    requires
        tree_ok(nodes),
        start is Some ==> start->Some_0 < nodes.len(),
        covers(layout_of(nodes, rules, start), d),
    ensures
        start is Some,
        shown_below(nodes, rules, d, nodes[start->Some_0 as int].parent),
    decreases
            match start {
                Some(i) => nodes.len() - i,
                None => 0,
            },
{
    lemma_first_displayed(nodes, rules, start);
    let n = first_displayed(nodes, rules, start)->Some_0;
    let top = nodes[start->Some_0 as int].parent;
    assert(links_ok(nodes, n as int));
    let tree = layout_of(nodes, rules, start)->Some_0;
    if d == n {
    } else if covers(tree.first_child, d) {
        lemma_hidden_subtree_elided(nodes, rules, nodes[n as int].first_child, d);
        lemma_shown_below_chain(nodes, rules, d, n, top);
    } else {
        lemma_hidden_subtree_elided(nodes, rules, nodes[n as int].next_sibling, d);
    }
}

/// Elision keeps the siblings: where `start` is not displayed, the layout
/// tree from `start` is that of the siblings behind it.
pub proof fn lemma_hidden_node_passed_over(
    nodes: Seq<NodeView>,
    rules: Seq<RuleView>,
    start: usize,
)
    requires
        tree_ok(nodes),
        start < nodes.len(),
        !displayed(nodes[start as int], rules),
    ensures
        layout_of(nodes, rules, Some(start)) == layout_of(
            nodes,
            rules,
            nodes[start as int].next_sibling,
        ),
{
    assert(links_ok(nodes, start as int));
}

} // verus!
