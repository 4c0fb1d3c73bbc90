//! The document tree: nodes held in one vector and linked by their indices.
//! The links `first_child` and `next_sibling` own the tree; `parent`,
//! `last_child` and `previous_sibling` point back into it.

use vstd::prelude::*;
use crate::text::same_text;

verus! {

/// The kinds of element that the tree can hold.
#[derive(Debug, Clone, Copy, PartialEq, Eq, Structural)]
pub enum ElementKind {
    Html,
    Head,
    Style,
    Script,
    Body,
}

/// The kind that a tag name stands for, if it is a supported one.
pub open spec fn kind_of_tag(tag: Seq<char>) -> Option<ElementKind> {
    if tag == "html"@ {
        Some(ElementKind::Html)
    } else if tag == "head"@ {
        Some(ElementKind::Head)
    } else if tag == "style"@ {
        Some(ElementKind::Style)
    } else if tag == "script"@ {
        Some(ElementKind::Script)
    } else if tag == "body"@ {
        Some(ElementKind::Body)
    } else {
        None
    }
}

/// The tag name of a kind.
pub open spec fn tag_of_kind(kind: ElementKind) -> Seq<char> {
    match kind {
        ElementKind::Html => "html"@,
        ElementKind::Head => "head"@,
        ElementKind::Style => "style"@,
        ElementKind::Script => "script"@,
        ElementKind::Body => "body"@,
    }
}

impl ElementKind {
    /// Reads a tag name.
    pub fn from_tag(tag: &str) -> (r: Option<ElementKind>)
        ensures
            r == kind_of_tag(tag@),
    {
        if same_text(tag, "html") {
            Some(ElementKind::Html)
        } else if same_text(tag, "head") {
            Some(ElementKind::Head)
        } else if same_text(tag, "style") {
            Some(ElementKind::Style)
        } else if same_text(tag, "script") {
            Some(ElementKind::Script)
        } else if same_text(tag, "body") {
            Some(ElementKind::Body)
        } else {
            None
        }
    }

    /// The tag name of the kind.
    pub fn tag(&self) -> (r: String)
        ensures
            r@ == tag_of_kind(*self),
    {
        match self {
            ElementKind::Html => "html".to_owned(),
            ElementKind::Head => "head".to_owned(),
            ElementKind::Style => "style".to_owned(),
            ElementKind::Script => "script".to_owned(),
            ElementKind::Body => "body".to_owned(),
        }
    }
}

/// A name and a value of a start tag.
#[derive(Debug, Clone, PartialEq, Eq)]
pub struct Attribute {
    pub name: String,
    pub value: String,
}

/// An element: its kind and the attributes of its start tag, in their order.
#[derive(Debug, Clone, PartialEq, Eq)]
pub struct Element {
    pub kind: ElementKind,
    pub attributes: Vec<Attribute>,
}

#[derive(Debug, Clone, PartialEq, Eq)]
pub enum NodeKind {
    Document,
    Element(Element),
    Text(String),
}

/// A node and its five links. A link is the index of a node of the same tree.
#[derive(Debug, Clone, PartialEq, Eq)]
pub struct Node {
    pub kind: NodeKind,
    pub parent: Option<usize>,
    pub first_child: Option<usize>,
    pub last_child: Option<usize>,
    pub previous_sibling: Option<usize>,
    pub next_sibling: Option<usize>,
}

pub struct AttributeView {
    pub name: Seq<char>,
    pub value: Seq<char>,
}

impl View for Attribute {
    type V = AttributeView;

    open spec fn view(&self) -> AttributeView {
        AttributeView { name: self.name@, value: self.value@ }
    }
}

/// The views of a sequence of attributes.
pub open spec fn attributes_view(v: Seq<Attribute>) -> Seq<AttributeView> {
    v.map_values(|a: Attribute| a@)
}

/// What a node is: the document, an element with its attributes, or a text.
pub enum KindView {
    Document,
    Element(ElementKind, Seq<AttributeView>),
    Text(Seq<char>),
}

impl View for NodeKind {
    type V = KindView;

    open spec fn view(&self) -> KindView {
        match self {
            NodeKind::Document => KindView::Document,
            NodeKind::Element(e) => KindView::Element(e.kind, attributes_view(e.attributes@)),
            NodeKind::Text(s) => KindView::Text(s@),
        }
    }
}

/// What a node is, and its five links.
pub struct NodeView {
    pub kind: KindView,
    pub parent: Option<usize>,
    pub first_child: Option<usize>,
    pub last_child: Option<usize>,
    pub previous_sibling: Option<usize>,
    pub next_sibling: Option<usize>,
}

impl View for Node {
    type V = NodeView;

    open spec fn view(&self) -> NodeView {
        NodeView {
            kind: self.kind@,
            parent: self.parent,
            first_child: self.first_child,
            last_child: self.last_child,
            previous_sibling: self.previous_sibling,
            next_sibling: self.next_sibling,
        }
    }
}

/// The kind of the element at a node, if it is one.
pub open spec fn element_kind(node: NodeView) -> Option<ElementKind> {
    match node.kind {
        KindView::Element(kind, _) => Some(kind),
        _ => None,
    }
}

/// What holds of the links of node `i`.
pub open spec fn links_ok(nodes: Seq<NodeView>, i: int) -> bool {
    let n = nodes[i];
    &&& i > 0 ==> {
        &&& !(n.kind is Document)
        &&& n.parent is Some
        &&& n.parent->Some_0 < i
        &&& match n.previous_sibling {
            Some(a) => a < i && nodes[a as int].next_sibling == Some(i as usize)
                && nodes[a as int].parent == n.parent,
            None => nodes[n.parent->Some_0 as int].first_child == Some(i as usize),
        }
        &&& n.next_sibling is None ==> nodes[n.parent->Some_0 as int].last_child == Some(
            i as usize,
        )
    }
    &&& n.first_child is Some ==> {
        let c = n.first_child->Some_0;
        i < c < nodes.len() && nodes[c as int].parent == Some(i as usize)
            && nodes[c as int].previous_sibling is None
    }
    &&& n.next_sibling is Some ==> {
        let b = n.next_sibling->Some_0;
        i < b < nodes.len() && nodes[b as int].previous_sibling == Some(i as usize)
            && nodes[b as int].parent == n.parent
    }
    &&& n.last_child is Some ==> {
        let l = n.last_child->Some_0;
        i < l < nodes.len() && nodes[l as int].parent == Some(i as usize)
            && nodes[l as int].next_sibling is None
    }
    &&& n.first_child is None <==> n.last_child is None
}

/// A tree: node 0 is the one document node and has no parent and no
/// siblings; every other node has a parent before it and is held by exactly
/// one owning link, that of its previous sibling or, where it has none, the
/// `first_child` of its parent; every link is matched by its counterpart.
pub open spec fn tree_ok(nodes: Seq<NodeView>) -> bool {
    &&& nodes.len() >= 1
    &&& nodes[0].kind is Document
    &&& nodes[0].parent is None
    &&& nodes[0].previous_sibling is None
    &&& nodes[0].next_sibling is None
    &&& forall|i: int| 0 <= i < nodes.len() ==> #[trigger] links_ok(nodes, i)
}

/// A node of kind `kind` that has no links yet but the one to its parent and
/// to the sibling before it.
pub open spec fn fresh_node(kind: KindView, parent: usize, previous: Option<usize>) -> NodeView {
    NodeView {
        kind,
        parent: Some(parent),
        first_child: None,
        last_child: None,
        previous_sibling: previous,
        next_sibling: None,
    }
}

/// The tree with a new node of kind `kind` as the last child of `at`. The
/// new node gets the next free index.
pub open spec fn append_child(nodes: Seq<NodeView>, at: usize, kind: KindView) -> Seq<NodeView> {
    let id = nodes.len() as usize;
    let target = nodes[at as int];
    match target.last_child {
        Some(last) => {
            let linked = nodes.update(
                last as int,
                NodeView { next_sibling: Some(id), ..nodes[last as int] },
            );
            linked.update(at as int, NodeView { last_child: Some(id), ..linked[at as int] }).push(
                fresh_node(kind, at, Some(last)),
            )
        },
        None => nodes.update(
            at as int,
            NodeView { first_child: Some(id), last_child: Some(id), ..target },
        ).push(fresh_node(kind, at, None)),
    }
}

/// Appending a child to a node of a tree gives a tree.
pub proof fn lemma_append_child_ok(nodes: Seq<NodeView>, at: usize, kind: KindView)
    requires
        tree_ok(nodes),
        at < nodes.len(),
        nodes.len() < usize::MAX,
        !(kind is Document),
    ensures
        tree_ok(append_child(nodes, at, kind)),
        append_child(nodes, at, kind).len() == nodes.len() + 1,
{
    let after = append_child(nodes, at, kind);
    assert(links_ok(nodes, at as int));
    if nodes[at as int].last_child is Some {
        assert(links_ok(nodes, nodes[at as int].last_child->Some_0 as int));
    }
    assert forall|i: int| 0 <= i < after.len() implies #[trigger] links_ok(after, i) by {
        if i < nodes.len() {
            assert(links_ok(nodes, i));
        }
    }
}

/// The node that holds the owning link to node `i`: its previous sibling,
/// or its parent where it is a first child.
pub open spec fn holder(nodes: Seq<NodeView>, i: int) -> int {
    match nodes[i].previous_sibling {
        Some(a) => a as int,
        None => nodes[i].parent->Some_0 as int,
    }
}

/// Whether node `a` owns node `i`: by `first_child` or by `next_sibling`.
pub open spec fn owns(nodes: Seq<NodeView>, a: int, i: int) -> bool {
    nodes[a].first_child == Some(i as usize) || nodes[a].next_sibling == Some(i as usize)
}

/// Whether owning links lead from the document node to node `i`.
pub open spec fn reached(nodes: Seq<NodeView>, i: int) -> bool
    decreases i,
{
    i == 0 || (0 <= holder(nodes, i) < i && owns(nodes, holder(nodes, i), i) && reached(
        nodes,
        holder(nodes, i),
    ))
}

/// In a tree the document node has no parent and no node owns it; every
/// other node has one parent, is reached from the document node along
/// owning links, and is owned by one node through one link only.
pub proof fn lemma_reached_once(nodes: Seq<NodeView>, i: int)
    requires
        tree_ok(nodes),
        0 <= i < nodes.len(),
    ensures
        reached(nodes, i),
        i == 0 <==> nodes[i].parent is None,
        i > 0 ==> 0 <= nodes[i].parent->Some_0 < i,
        forall|a: int| 0 <= a < nodes.len() && owns(nodes, a, i) ==> i > 0 && a == holder(nodes, i),
        forall|a: int|
            0 <= a < nodes.len() ==> !(nodes[a].first_child == Some(i as usize)
                && nodes[a].next_sibling == Some(i as usize)),
    decreases i,
{
    assert(links_ok(nodes, i));
    assert(links_ok(nodes, 0));
    if i > 0 {
        let h = holder(nodes, i);
        assert(links_ok(nodes, h));
        lemma_reached_once(nodes, h);
    }
    assert forall|a: int| 0 <= a < nodes.len() && owns(nodes, a, i) implies i > 0 && a == holder(
        nodes,
        i,
    ) by {
        assert(links_ok(nodes, a));
    }
    assert forall|a: int| 0 <= a < nodes.len() implies !(nodes[a].first_child == Some(i as usize)
        && nodes[a].next_sibling == Some(i as usize)) by {
        assert(links_ok(nodes, a));
    }
}

/// The owner of the document node of a parse.
#[derive(Debug, Clone, PartialEq, Eq)]
pub struct Window {
    nodes: Vec<Node>,
}

impl View for Window {
    type V = Seq<NodeView>;

    closed spec fn view(&self) -> Seq<NodeView> {
        self.nodes@.map_values(|n: Node| n@)
    }
}

impl Window {
    /// The nodes form a tree.
    pub open spec fn wf(&self) -> bool {
        tree_ok(self@)
    }

    /// A window whose tree is the document node alone.
    pub fn new() -> (w: Self)
        ensures
            w.wf(),
            w@ == seq![
                NodeView {
                    kind: KindView::Document,
                    parent: None,
                    first_child: None,
                    last_child: None,
                    previous_sibling: None,
                    next_sibling: None,
                },
            ],
    {
        let mut nodes: Vec<Node> = Vec::new();
        nodes.push(
            Node {
                kind: NodeKind::Document,
                parent: None,
                first_child: None,
                last_child: None,
                previous_sibling: None,
                next_sibling: None,
            },
        );
        let w = Self { nodes };
        assert(w@ =~= seq![
            NodeView {
                kind: KindView::Document,
                parent: None,
                first_child: None,
                last_child: None,
                previous_sibling: None,
                next_sibling: None,
            },
        ]);
        assert(links_ok(w@, 0));
        w
    }

    /// The index of the document node.
    pub fn document(&self) -> (r: usize)
        ensures
            r == 0,
    {
        0
    }

    /// The number of nodes.
    pub fn len(&self) -> (r: usize)
        ensures
            r == self@.len(),
    {
        self.nodes.len()
    }

    /// The node at index `i`.
    pub fn node(&self, i: usize) -> (r: &Node)
        requires
            i < self@.len(),
        ensures
            r@ == self@[i as int],
    {
        &self.nodes[i]
    }

    /// Adds a node of kind `kind` as the last child of `at` and returns its index.
    pub fn append_child(&mut self, at: usize, kind: NodeKind) -> (id: usize)
        requires
            old(self).wf(),
            at < old(self)@.len(),
            old(self)@.len() < usize::MAX,
            !(kind is Document),
        ensures
            final(self).wf(),
            final(self)@ == append_child(old(self)@, at, kind@),
            id == old(self)@.len(),
    {
        proof {
            lemma_append_child_ok(self@, at, kind@);
            assert(links_ok(self@, at as int));
        }
        let id: usize = self.nodes.len();
        let previous = self.nodes[at].last_child;
        match previous {
            Some(last) => {
                self.nodes[last].next_sibling = Some(id);
                self.nodes[at].last_child = Some(id);
            },
            None => {
                self.nodes[at].first_child = Some(id);
                self.nodes[at].last_child = Some(id);
            },
        }
        self.nodes.push(
            Node {
                kind,
                parent: Some(at),
                first_child: None,
                last_child: None,
                previous_sibling: previous,
                next_sibling: None,
            },
        );
        assert(self@ =~= append_child(old(self)@, at, kind@));
        id
    }

    /// Appends `c` to the text of node `i`, if it is a text node.
    pub fn append_text(&mut self, i: usize, c: char)
        requires
            old(self).wf(),
            i < old(self)@.len(),
        ensures
            final(self).wf(),
            final(self)@ == with_text(old(self)@, i as int, c),
    {
        match &mut self.nodes[i].kind {
            NodeKind::Text(s) => {
                s.push(c);
            },
            _ => {},
        }
        proof {
            assert(self@ =~= with_text(old(self)@, i as int, c));
            lemma_with_text_ok(old(self)@, i as int, c);
        }
    }
}

/// The tree with `c` appended to the text of node `i`, if it is a text node.
pub open spec fn with_text(nodes: Seq<NodeView>, i: int, c: char) -> Seq<NodeView> {
    match nodes[i].kind {
        KindView::Text(s) => nodes.update(
            i,
            NodeView { kind: KindView::Text(s.push(c)), ..nodes[i] },
        ),
        _ => nodes,
    }
}

/// Appending to the text of a node of a tree gives a tree.
pub proof fn lemma_with_text_ok(nodes: Seq<NodeView>, i: int, c: char)
    requires
        tree_ok(nodes),
        0 <= i < nodes.len(),
    ensures
        tree_ok(with_text(nodes, i, c)),
        with_text(nodes, i, c).len() == nodes.len(),
{
    let after = with_text(nodes, i, c);
    assert forall|j: int| 0 <= j < after.len() implies #[trigger] links_ok(after, j) by {
        assert(links_ok(nodes, j));
    }
}

} // verus!
