//! HTML tree construction: a state machine over insertion modes that reads
//! tokens and builds the document tree, with a stack of open elements.

use vstd::prelude::*;
use crate::html_token::{HtmlTokenizer, lemma_token_advances};
use crate::dom::{
    Attribute, AttributeView, Element, ElementKind, KindView, NodeKind, NodeView, Window,
    append_child, attributes_view, element_kind, kind_of_tag, lemma_append_child_ok,
    lemma_with_text_ok, tree_ok, with_text,
};

verus! {

/// A token of a markup text.
#[derive(Debug, Clone, PartialEq, Eq)]
pub enum HtmlToken {
    Char(char),
    StartTag { tag: String, self_closing: bool, attributes: Vec<Attribute> },
    EndTag { tag: String },
    Eof,
}

pub enum TokenView {
    Char(char),
    StartTag(Seq<char>, bool, Seq<AttributeView>),
    EndTag(Seq<char>),
    Eof,
}

impl View for HtmlToken {
    type V = TokenView;

    open spec fn view(&self) -> TokenView {
        match self {
            HtmlToken::Char(c) => TokenView::Char(*c),
            HtmlToken::StartTag { tag, self_closing, attributes } => TokenView::StartTag(
                tag@,
                *self_closing,
                attributes_view(attributes@),
            ),
            HtmlToken::EndTag { tag } => TokenView::EndTag(tag@),
            HtmlToken::Eof => TokenView::Eof,
        }
    }
}

/// The views of a sequence of tokens.
pub open spec fn tokens_view(v: Seq<HtmlToken>) -> Seq<TokenView> {
    v.map_values(|t: HtmlToken| t@)
}

/// The state that decides how the next token is read.
#[derive(Debug, Copy, Clone, PartialEq, Eq, Structural)]
pub enum InsertionMode {
    Initial,
    BeforeHtml,
    BeforeHead,
    InHead,
    AfterHead,
    InBody,
    Text,
    AfterBody,
    AfterAfterBody,
}

/// Why tree construction stopped before the tokens ended.
#[derive(Debug, Copy, Clone, PartialEq, Eq, Structural)]
pub enum HtmlError {
    /// An `</html>` closed the body, and the element under it was not `html`.
    HtmlNotCurrent,
    /// A token other than an end tag arrived inside the body, where no
    /// content is inserted.
    UnhandledInBody,
    /// The tree cannot hold another node.
    TooManyNodes,
}

/// What follows a step of the machine.
#[derive(Debug, Copy, Clone, PartialEq, Eq, Structural)]
pub enum Move {
    /// The token is used up: go on with the next one.
    Advance,
    /// The token is to be read again in the new mode.
    Again,
    /// The tree is complete.
    Finish,
    /// Construction stops with an error.
    Fail(HtmlError),
}

/// The state of tree construction.
pub struct Machine {
    pub mode: InsertionMode,
    /// The mode to go back to when raw text ends.
    pub original: InsertionMode,
    /// The open elements; the last one is the current node.
    pub stack: Seq<usize>,
    pub nodes: Seq<NodeView>,
}

/// The state before the first token.
pub open spec fn initial_machine() -> Machine {
    Machine {
        mode: InsertionMode::Initial,
        original: InsertionMode::Initial,
        stack: Seq::empty(),
        nodes: seq![
            NodeView {
                kind: KindView::Document,
                parent: None,
                first_child: None,
                last_child: None,
                previous_sibling: None,
                next_sibling: None,
            },
        ],
    }
}

/// The tree is one, the open elements are nodes of it, and raw text never
/// goes back to raw text.
pub open spec fn machine_ok(m: Machine) -> bool {
    &&& tree_ok(m.nodes)
    &&& m.original != InsertionMode::Text
    &&& forall|i: int| 0 <= i < m.stack.len() ==> #[trigger] m.stack[i] < m.nodes.len()
}

pub open spec fn is_blank(c: char) -> bool {
    c == ' ' || c == '\n'
}

pub open spec fn goto(m: Machine, mode: InsertionMode) -> Machine {
    Machine { mode, ..m }
}

/// The node that takes the next child: the current node, or the document
/// where no element is open.
pub open spec fn insertion_point(m: Machine) -> usize {
    if m.stack.len() > 0 {
        m.stack.last()
    } else {
        0
    }
}

/// Adds a node as the last child of the insertion point and opens it.
pub open spec fn insert_node(m: Machine, kind: KindView) -> Machine {
    Machine {
        stack: m.stack.push(m.nodes.len() as usize),
        nodes: append_child(m.nodes, insertion_point(m), kind),
        ..m
    }
}

pub open spec fn insert_element(
    m: Machine,
    kind: ElementKind,
    attributes: Seq<AttributeView>,
) -> Machine {
    insert_node(m, KindView::Element(kind, attributes))
}

/// Adds a character of raw text: to the current node where that is a text,
/// else as a new text node, which is opened.
pub open spec fn insert_char(m: Machine, c: char) -> Machine {
    if m.stack.len() > 0 && m.nodes[m.stack.last() as int].kind is Text {
        Machine { nodes: with_text(m.nodes, m.stack.last() as int, c), ..m }
    } else {
        insert_node(m, KindView::Text(seq![c]))
    }
}

/// Whether the current node is an element of kind `kind`.
pub open spec fn current_is(stack: Seq<usize>, nodes: Seq<NodeView>, kind: ElementKind) -> bool {
    stack.len() > 0 && element_kind(nodes[stack.last() as int]) == Some(kind)
}

/// Whether an element of kind `kind` is open.
pub open spec fn in_stack(stack: Seq<usize>, nodes: Seq<NodeView>, kind: ElementKind) -> bool {
    exists|i: int| 0 <= i < stack.len() && element_kind(nodes[#[trigger] stack[i] as int]) == Some(kind)
}

/// The stack after popping up to and with the topmost element of kind
/// `kind`; empty where there is none.
pub open spec fn popped_until(stack: Seq<usize>, nodes: Seq<NodeView>, kind: ElementKind) -> Seq<
    usize,
>
    decreases stack.len(),
{
    if stack.len() == 0 {
        stack
    } else if element_kind(nodes[stack.last() as int]) == Some(kind) {
        stack.drop_last()
    } else {
        popped_until(stack.drop_last(), nodes, kind)
    }
}

pub open spec fn pop_until(m: Machine, kind: ElementKind) -> Machine {
    Machine { stack: popped_until(m.stack, m.nodes, kind), ..m }
}

/// One step of the machine on token `t`: what follows, and the next state.
pub open spec fn step(m: Machine, t: TokenView) -> (Move, Machine) {
    match m.mode {
        InsertionMode::Initial => match t {
            TokenView::Char(_) => (Move::Advance, m),
            _ => (Move::Again, goto(m, InsertionMode::BeforeHtml)),
        },
        InsertionMode::BeforeHtml => match t {
            TokenView::Char(c) if is_blank(c) => (Move::Advance, m),
            TokenView::StartTag(tag, _, attributes) if kind_of_tag(tag) == Some(
                ElementKind::Html,
            ) => (
                Move::Advance,
                goto(insert_element(m, ElementKind::Html, attributes), InsertionMode::BeforeHead),
            ),
            TokenView::EndTag(_) => (Move::Advance, m),
            TokenView::Eof => (Move::Finish, m),
            _ => (
                Move::Again,
                goto(
                    insert_element(m, ElementKind::Html, Seq::empty()),
                    InsertionMode::BeforeHead,
                ),
            ),
        },
        InsertionMode::BeforeHead => match t {
            TokenView::Char(c) if is_blank(c) => (Move::Advance, m),
            TokenView::StartTag(tag, _, attributes) if kind_of_tag(tag) == Some(
                ElementKind::Head,
            ) => (
                Move::Advance,
                goto(insert_element(m, ElementKind::Head, attributes), InsertionMode::InHead),
            ),
            TokenView::Eof => (Move::Finish, m),
            _ => (
                Move::Again,
                goto(insert_element(m, ElementKind::Head, Seq::empty()), InsertionMode::InHead),
            ),
        },
        InsertionMode::InHead => match t {
            TokenView::StartTag(tag, _, attributes) => match kind_of_tag(tag) {
                Some(ElementKind::Style) => (
                    Move::Advance,
                    Machine {
                        mode: InsertionMode::Text,
                        original: InsertionMode::InHead,
                        ..insert_element(m, ElementKind::Style, attributes)
                    },
                ),
                Some(ElementKind::Script) => (
                    Move::Advance,
                    Machine {
                        mode: InsertionMode::Text,
                        original: InsertionMode::InHead,
                        ..insert_element(m, ElementKind::Script, attributes)
                    },
                ),
                Some(_) => (
                    Move::Again,
                    goto(pop_until(m, ElementKind::Head), InsertionMode::AfterHead),
                ),
                None => (Move::Advance, m),
            },
            TokenView::Eof => (Move::Finish, m),
            _ => (Move::Advance, m),
        },
        InsertionMode::AfterHead => match t {
            TokenView::Char(c) if is_blank(c) => (Move::Advance, m),
            TokenView::StartTag(tag, _, attributes) if kind_of_tag(tag) == Some(
                ElementKind::Body,
            ) => (
                Move::Advance,
                goto(insert_element(m, ElementKind::Body, attributes), InsertionMode::InBody),
            ),
            TokenView::Eof => (Move::Finish, m),
            _ => (
                Move::Again,
                goto(insert_element(m, ElementKind::Body, Seq::empty()), InsertionMode::InBody),
            ),
        },
        InsertionMode::InBody => match t {
            TokenView::EndTag(tag) => match kind_of_tag(tag) {
                Some(ElementKind::Body) => if in_stack(m.stack, m.nodes, ElementKind::Body) {
                    (Move::Advance, goto(pop_until(m, ElementKind::Body), InsertionMode::AfterBody))
                } else {
                    (Move::Advance, m)
                },
                Some(ElementKind::Html) => if current_is(m.stack, m.nodes, ElementKind::Body) {
                    if current_is(m.stack.drop_last(), m.nodes, ElementKind::Html) {
                        (
                            Move::Again,
                            Machine {
                                mode: InsertionMode::AfterBody,
                                stack: m.stack.drop_last().drop_last(),
                                ..m
                            },
                        )
                    } else {
                        (Move::Fail(HtmlError::HtmlNotCurrent), m)
                    }
                } else {
                    (Move::Advance, m)
                },
                _ => (Move::Advance, m),
            },
            TokenView::Eof => (Move::Finish, m),
            _ => (Move::Fail(HtmlError::UnhandledInBody), m),
        },
        InsertionMode::Text => match t {
            TokenView::Eof => (Move::Finish, m),
            TokenView::EndTag(tag) => match kind_of_tag(tag) {
                Some(ElementKind::Style) => (
                    Move::Advance,
                    goto(pop_until(m, ElementKind::Style), m.original),
                ),
                Some(ElementKind::Script) => (
                    Move::Advance,
                    goto(pop_until(m, ElementKind::Script), m.original),
                ),
                _ => (Move::Again, goto(m, m.original)),
            },
            TokenView::Char(c) => (Move::Advance, insert_char(m, c)),
            _ => (Move::Again, goto(m, m.original)),
        },
        InsertionMode::AfterBody => match t {
            TokenView::Char(_) => (Move::Advance, m),
            TokenView::EndTag(tag) if kind_of_tag(tag) == Some(ElementKind::Html) => (
                Move::Advance,
                goto(m, InsertionMode::AfterAfterBody),
            ),
            TokenView::Eof => (Move::Finish, m),
            _ => (Move::Again, goto(m, InsertionMode::InBody)),
        },
        InsertionMode::AfterAfterBody => match t {
            TokenView::Char(_) => (Move::Advance, m),
            TokenView::Eof => (Move::Finish, m),
            _ => (Move::Again, goto(m, InsertionMode::InBody)),
        },
    }
}

/// A bound on the steps that can still read token `t` again from `mode`.
pub open spec fn rank(mode: InsertionMode, t: TokenView) -> nat {
    let closes_html = t is EndTag && kind_of_tag(t->EndTag_0) == Some(ElementKind::Html);
    match mode {
        InsertionMode::Text => 10,
        InsertionMode::Initial => 9,
        InsertionMode::BeforeHtml => 8,
        InsertionMode::BeforeHead => 7,
        InsertionMode::InHead => 6,
        InsertionMode::AfterHead => 5,
        InsertionMode::AfterAfterBody => 4,
        InsertionMode::InBody => if closes_html {
            3
        } else {
            2
        },
        InsertionMode::AfterBody => if closes_html {
            2
        } else {
            3
        },
    }
}

pub open spec fn rank_at(mode: InsertionMode, tokens: Seq<TokenView>, i: int) -> nat {
    if 0 <= i < tokens.len() {
        rank(mode, tokens[i])
    } else {
        0
    }
}

/// Runs the machine from token `i` on: to the end of the tokens, to an
/// end-of-file token read in a mode that finishes, or to an error.
pub open spec fn run(m: Machine, tokens: Seq<TokenView>, i: int) -> Result<Machine, HtmlError>
    decreases tokens.len() - i, rank_at(m.mode, tokens, i),
    when m.original != InsertionMode::Text
{
    if i < 0 || i >= tokens.len() {
        Ok(m)
    } else if m.nodes.len() >= usize::MAX {
        Err(HtmlError::TooManyNodes)
    } else {
        let (what, next) = step(m, tokens[i]);
        match what {
            Move::Advance => run(next, tokens, i + 1),
            Move::Again => run(next, tokens, i),
            Move::Finish => Ok(next),
            Move::Fail(e) => Err(e),
        }
    }
}

/// The tree that a sequence of tokens builds.
pub open spec fn tree_of(tokens: Seq<TokenView>) -> Result<Seq<NodeView>, HtmlError> {
    match run(initial_machine(), tokens, 0) {
        Ok(m) => Ok(m.nodes),
        Err(e) => Err(e),
    }
}

/// Inserting a node into a sound state gives a sound state.
pub proof fn lemma_insert_node_ok(m: Machine, kind: KindView)
    requires
        machine_ok(m),
        m.nodes.len() < usize::MAX,
        !(kind is Document),
    ensures
        machine_ok(insert_node(m, kind)),
{
    let after = insert_node(m, kind);
    lemma_append_child_ok(m.nodes, insertion_point(m), kind);
    assert forall|i: int| 0 <= i < after.stack.len() implies #[trigger] after.stack[i]
        < after.nodes.len() by {
        if i < m.stack.len() {
            assert(after.stack[i] == m.stack[i]);
        }
    }
}

/// Popping open elements of a sound state gives a sound state.
pub proof fn lemma_pop_until_ok(m: Machine, kind: ElementKind)
    requires
        machine_ok(m),
    ensures
        machine_ok(pop_until(m, kind)),
{
    let after = pop_until(m, kind);
    lemma_popped_is_prefix(m.stack, m.nodes, kind);
    assert forall|i: int| 0 <= i < after.stack.len() implies #[trigger] after.stack[i]
        < after.nodes.len() by {
        assert(after.stack[i] == m.stack[i]);
    }
}

/// A step from a sound state gives a sound state: the tree stays a tree.
pub proof fn lemma_step_ok(m: Machine, t: TokenView)
    requires
        machine_ok(m),
        m.nodes.len() < usize::MAX,
    ensures
        machine_ok(step(m, t).1),
{
    let after = step(m, t).1;
    match t {
        TokenView::Char(c) => {
            lemma_insert_node_ok(m, KindView::Text(seq![c]));
            if m.stack.len() > 0 {
                lemma_with_text_ok(m.nodes, m.stack.last() as int, c);
            }
        },
        TokenView::StartTag(tag, _, attributes) => {
            if kind_of_tag(tag) is Some {
                lemma_insert_node_ok(m, KindView::Element(kind_of_tag(tag)->Some_0, attributes));
            }
        },
        _ => {},
    }
    lemma_insert_node_ok(m, KindView::Element(ElementKind::Html, Seq::empty()));
    lemma_insert_node_ok(m, KindView::Element(ElementKind::Head, Seq::empty()));
    lemma_insert_node_ok(m, KindView::Element(ElementKind::Body, Seq::empty()));
    lemma_pop_until_ok(m, ElementKind::Head);
    lemma_pop_until_ok(m, ElementKind::Body);
    lemma_pop_until_ok(m, ElementKind::Style);
    lemma_pop_until_ok(m, ElementKind::Script);
    assert forall|i: int| 0 <= i < after.stack.len() implies #[trigger] after.stack[i]
        < after.nodes.len() by {
        if m.stack.len() >= 2 && after.stack == m.stack.drop_last().drop_last() {
            assert(m.stack.drop_last()[i] == m.stack[i]);
        }
    }
}

/// What is left after popping is a prefix of the stack.
pub proof fn lemma_popped_is_prefix(stack: Seq<usize>, nodes: Seq<NodeView>, kind: ElementKind)
    ensures
        popped_until(stack, nodes, kind).len() <= stack.len(),
        forall|i: int|
            0 <= i < popped_until(stack, nodes, kind).len() ==> popped_until(stack, nodes, kind)[i]
                == stack[i],
    decreases stack.len(),
{
    if stack.len() > 0 && element_kind(nodes[stack.last() as int]) != Some(kind) {
        lemma_popped_is_prefix(stack.drop_last(), nodes, kind);
        assert forall|i: int| 0 <= i < popped_until(stack, nodes, kind).len() implies popped_until(
            stack,
            nodes,
            kind,
        )[i] == stack[i] by {
            assert(stack.drop_last()[i] == stack[i]);
        }
    }
}

/// Every tree that a run from a sound state ends with is a tree.
pub proof fn lemma_run_ok(m: Machine, tokens: Seq<TokenView>, i: int)
    requires
        machine_ok(m),
    ensures
        run(m, tokens, i) is Ok ==> machine_ok(run(m, tokens, i)->Ok_0),
    decreases tokens.len() - i, rank_at(m.mode, tokens, i),
{
    if 0 <= i < tokens.len() && m.nodes.len() < usize::MAX {
        lemma_step_ok(m, tokens[i]);
        let (what, next) = step(m, tokens[i]);
        match what {
            Move::Advance => lemma_run_ok(next, tokens, i + 1),
            Move::Again => lemma_run_ok(next, tokens, i),
            _ => {},
        }
    }
}

/// The tree that a sequence of tokens builds is a tree: the document node
/// has no parent, every other node has one, and owning links lead from the
/// document node to every node once.
pub proof fn lemma_tree_of_is_tree(tokens: Seq<TokenView>)
    ensures
        tree_of(tokens) is Ok ==> tree_ok(tree_of(tokens)->Ok_0),
{
    assert(crate::dom::links_ok(initial_machine().nodes, 0));
    lemma_run_ok(initial_machine(), tokens, 0);
}

fn clone_attributes(v: &Vec<Attribute>) -> (r: Vec<Attribute>)
    ensures
        attributes_view(r@) == attributes_view(v@),
{
    let mut r: Vec<Attribute> = Vec::new();
    let mut i: usize = 0;
    while i < v.len()
        invariant
            i <= v@.len(),
            r@.len() == i,
            forall|j: int| 0 <= j < i ==> r@[j]@ == v@[j]@,
        decreases v@.len() - i,
    {
        r.push(Attribute { name: v[i].name.clone(), value: v[i].value.clone() });
        i += 1;
    }
    assert(attributes_view(r@) =~= attributes_view(v@));
    r
}

/// The tree constructor: the machine's state and the tokens it will read.
#[derive(Debug)]
pub struct HtmlParser {
    window: Window,
    mode: InsertionMode,
    original_insertion_mode: InsertionMode,
    stack_of_open_elements: Vec<usize>,
    tokens: Vec<HtmlToken>,
}

impl View for HtmlParser {
    type V = Machine;

    closed spec fn view(&self) -> Machine {
        Machine {
            mode: self.mode,
            original: self.original_insertion_mode,
            stack: self.stack_of_open_elements@,
            nodes: self.window@,
        }
    }
}

impl HtmlParser {
    /// The tokens that `construct_tree` will read.
    pub closed spec fn tokens(&self) -> Seq<TokenView> {
        tokens_view(self.tokens@)
    }

    pub open spec fn wf(&self) -> bool {
        machine_ok(self@)
    }

    /// A constructor in its initial state that will read what `t` has not
    /// yet handed out.
    pub fn new(t: HtmlTokenizer) -> (p: Self)
        requires
            t.wf(),
        ensures
            p.wf(),
            p@ == initial_machine(),
            p.tokens() == t.remaining(),
    {
        let mut cursor = t;
        let mut tokens: Vec<HtmlToken> = Vec::new();
        assert(tokens_view(tokens@) + cursor.remaining() =~= t.remaining());
        loop
            invariant
                cursor.wf(),
                cursor.input() == t.input(),
                tokens_view(tokens@) + cursor.remaining() == t.remaining(),
            ensures
                tokens_view(tokens@) == t.remaining(),
            decreases
                    if cursor.finished() {
                        0
                    } else {
                        1 + cursor.input().len() - cursor.pos()
                    },
        {
            let ghost before = tokens_view(tokens@);
            let ghost left = cursor.remaining();
            proof {
                if !cursor.finished() && cursor.pos() < cursor.input().len() {
                    lemma_token_advances(cursor.input(), cursor.pos());
                }
            }
            match cursor.next() {
                Some(token) => {
                    tokens.push(token);
                    assert(tokens_view(tokens@) =~= before.push(token@));
                    assert(before.push(token@) + cursor.remaining() =~= before + (seq![token@]
                        + cursor.remaining()));
                },
                None => {
                    assert(before + Seq::<TokenView>::empty() =~= before);
                    break ;
                },
            }
        }
        Self::from_tokens(tokens)
    }

    /// A constructor in its initial state that will read `tokens`.
    pub fn from_tokens(tokens: Vec<HtmlToken>) -> (p: Self)
        ensures
            p.wf(),
            p@ == initial_machine(),
            p.tokens() == tokens_view(tokens@),
    {
        Self {
            window: Window::new(),
            mode: InsertionMode::Initial,
            original_insertion_mode: InsertionMode::Initial,
            stack_of_open_elements: Vec::new(),
            tokens,
        }
    }

    /// What an element node of kind `kind` with these attributes is.
    fn create_element(&self, kind: ElementKind, attributes: Vec<Attribute>) -> (r: NodeKind)
        ensures
            r@ == KindView::Element(kind, attributes_view(attributes@)),
    {
        NodeKind::Element(Element { kind, attributes })
    }

    fn insert_node(&mut self, kind: NodeKind)
        requires
            old(self).wf(),
            old(self)@.nodes.len() < usize::MAX,
            !(kind is Document),
        ensures
            final(self).wf(),
            final(self)@ == insert_node(old(self)@, kind@),
            final(self).tokens() == old(self).tokens(),
    {
        let n: usize = self.stack_of_open_elements.len();
        let current: usize = if n > 0 {
            self.stack_of_open_elements[n - 1]
        } else {
            self.window.document()
        };
        proof {
            lemma_insert_node_ok(self@, kind@);
        }
        let id = self.window.append_child(current, kind);
        self.stack_of_open_elements.push(id);
    }

    /// Adds an element as the last child of the current node, or of the
    /// document where no element is open, and opens it.
    fn insert_element(&mut self, kind: ElementKind, attributes: Vec<Attribute>)
        requires
            old(self).wf(),
            old(self)@.nodes.len() < usize::MAX,
        ensures
            final(self).wf(),
            final(self)@ == insert_element(old(self)@, kind, attributes_view(attributes@)),
            final(self).tokens() == old(self).tokens(),
    {
        let node = self.create_element(kind, attributes);
        self.insert_node(node);
    }

    fn insert_char(&mut self, c: char)
        requires
            old(self).wf(),
            old(self)@.nodes.len() < usize::MAX,
        ensures
            final(self).wf(),
            final(self)@ == insert_char(old(self)@, c),
            final(self).tokens() == old(self).tokens(),
    {
        let n: usize = self.stack_of_open_elements.len();
        if n > 0 {
            let current: usize = self.stack_of_open_elements[n - 1];
            let is_text = match self.window.node(current).kind {
                NodeKind::Text(_) => true,
                _ => false,
            };
            if is_text {
                self.window.append_text(current, c);
                return ;
            }
        }
        let mut text = String::new();
        text.push(c);
        assert(text@ =~= seq![c]);
        self.insert_node(NodeKind::Text(text));
    }

    fn kind_at(&self, i: usize) -> (r: Option<ElementKind>)
        requires
            i < self@.nodes.len(),
        ensures
            r == element_kind(self@.nodes[i as int]),
    {
        match &self.window.node(i).kind {
            NodeKind::Element(e) => Some(e.kind),
            _ => None,
        }
    }

    fn same_kind(a: Option<ElementKind>, kind: ElementKind) -> (r: bool)
        ensures
            r == (a == Some(kind)),
    {
        match a {
            Some(k) => k == kind,
            None => false,
        }
    }

    /// Pops open elements up to and with the topmost one of kind `kind`.
    fn pop_until(&mut self, kind: ElementKind)
        requires
            old(self).wf(),
        ensures
            final(self).wf(),
            final(self)@ == pop_until(old(self)@, kind),
            final(self).tokens() == old(self).tokens(),
    {
        loop
            invariant
                self.wf(),
                self@.nodes == old(self)@.nodes,
                self@.mode == old(self)@.mode,
                self@.original == old(self)@.original,
                self.tokens() == old(self).tokens(),
                popped_until(self@.stack, self@.nodes, kind) == popped_until(
                    old(self)@.stack,
                    old(self)@.nodes,
                    kind,
                ),
            decreases self@.stack.len(),
        {
            let n: usize = self.stack_of_open_elements.len();
            if n == 0 {
                return ;
            }
            let ghost before = self@.stack;
            let top: usize = self.stack_of_open_elements[n - 1];
            let found = Self::same_kind(self.kind_at(top), kind);
            self.stack_of_open_elements.pop();
            assert(self@.stack =~= before.drop_last());
            if found {
                return ;
            }
        }
    }

    /// Whether an element of kind `kind` is open.
    fn contain_in_stack(&self, kind: ElementKind) -> (r: bool)
        requires
            self.wf(),
        ensures
            r == in_stack(self@.stack, self@.nodes, kind),
    {
        let mut i: usize = 0;
        while i < self.stack_of_open_elements.len()
            invariant
                self.wf(),
                i <= self@.stack.len(),
                forall|j: int|
                    0 <= j < i ==> element_kind(self@.nodes[#[trigger] self@.stack[j] as int])
                        != Some(kind),
            decreases self@.stack.len() - i,
        {
            if Self::same_kind(self.kind_at(self.stack_of_open_elements[i]), kind) {
                return true;
            }
            i += 1;
        }
        false
    }

    /// Pops the current node if it is an element of kind `kind`, and says
    /// whether it did.
    fn pop_current_node(&mut self, kind: ElementKind) -> (r: bool)
        requires
            old(self).wf(),
        ensures
            final(self).wf(),
            r == current_is(old(self)@.stack, old(self)@.nodes, kind),
            final(self)@ == if r {
                Machine { stack: old(self)@.stack.drop_last(), ..old(self)@ }
            } else {
                old(self)@
            },
            final(self).tokens() == old(self).tokens(),
    {
        let n: usize = self.stack_of_open_elements.len();
        if n == 0 {
            return false;
        }
        let top: usize = self.stack_of_open_elements[n - 1];
        if Self::same_kind(self.kind_at(top), kind) {
            self.stack_of_open_elements.pop();
            true
        } else {
            false
        }
    }

    /// Reads `token` in the current mode.
    fn step(&mut self, token: &HtmlToken) -> (what: Move)
        requires
            old(self).wf(),
            old(self)@.nodes.len() < usize::MAX,
        ensures
            final(self).wf(),
            final(self).tokens() == old(self).tokens(),
            (what, final(self)@) == step(old(self)@, token@),
    {
        proof {
            lemma_step_ok(self@, token@);
        }
        match self.mode {
            InsertionMode::Initial => match token {
                HtmlToken::Char(_) => Move::Advance,
                _ => {
                    self.mode = InsertionMode::BeforeHtml;
                    Move::Again
                },
            },
            InsertionMode::BeforeHtml => {
                match token {
                    HtmlToken::Char(c) => {
                        if *c == ' ' || *c == '\n' {
                            return Move::Advance;
                        }
                    },
                    HtmlToken::StartTag { tag, self_closing: _, attributes } => {
                        if Self::same_kind(ElementKind::from_tag(tag.as_str()), ElementKind::Html) {
                            self.insert_element(ElementKind::Html, clone_attributes(attributes));
                            self.mode = InsertionMode::BeforeHead;
                            return Move::Advance;
                        }
                    },
                    HtmlToken::EndTag { tag: _ } => {
                        return Move::Advance;
                    },
                    HtmlToken::Eof => {
                        return Move::Finish;
                    },
                }
                let none: Vec<Attribute> = Vec::new();
                assert(attributes_view(none@) =~= Seq::empty());
                self.insert_element(ElementKind::Html, none);
                self.mode = InsertionMode::BeforeHead;
                Move::Again
            },
            InsertionMode::BeforeHead => {
                match token {
                    HtmlToken::Char(c) => {
                        if *c == ' ' || *c == '\n' {
                            return Move::Advance;
                        }
                    },
                    HtmlToken::StartTag { tag, self_closing: _, attributes } => {
                        if Self::same_kind(ElementKind::from_tag(tag.as_str()), ElementKind::Head) {
                            self.insert_element(ElementKind::Head, clone_attributes(attributes));
                            self.mode = InsertionMode::InHead;
                            return Move::Advance;
                        }
                    },
                    HtmlToken::Eof => {
                        return Move::Finish;
                    },
                    _ => {},
                }
                let none: Vec<Attribute> = Vec::new();
                assert(attributes_view(none@) =~= Seq::empty());
                self.insert_element(ElementKind::Head, none);
                self.mode = InsertionMode::InHead;
                Move::Again
            },
            InsertionMode::InHead => {
                match token {
                    HtmlToken::StartTag { tag, self_closing: _, attributes } => {
                        match ElementKind::from_tag(tag.as_str()) {
                            Some(ElementKind::Style) => {
                                self.insert_element(
                                    ElementKind::Style,
                                    clone_attributes(attributes),
                                );
                                self.original_insertion_mode = self.mode;
                                self.mode = InsertionMode::Text;
                                Move::Advance
                            },
                            Some(ElementKind::Script) => {
                                self.insert_element(
                                    ElementKind::Script,
                                    clone_attributes(attributes),
                                );
                                self.original_insertion_mode = self.mode;
                                self.mode = InsertionMode::Text;
                                Move::Advance
                            },
                            Some(_) => {
                                self.pop_until(ElementKind::Head);
                                self.mode = InsertionMode::AfterHead;
                                Move::Again
                            },
                            None => Move::Advance,
                        }
                    },
                    HtmlToken::Eof => Move::Finish,
                    _ => Move::Advance,
                }
            },
            InsertionMode::AfterHead => {
                match token {
                    HtmlToken::Char(c) => {
                        if *c == ' ' || *c == '\n' {
                            return Move::Advance;
                        }
                    },
                    HtmlToken::StartTag { tag, self_closing: _, attributes } => {
                        if Self::same_kind(ElementKind::from_tag(tag.as_str()), ElementKind::Body) {
                            self.insert_element(ElementKind::Body, clone_attributes(attributes));
                            self.mode = InsertionMode::InBody;
                            return Move::Advance;
                        }
                    },
                    HtmlToken::Eof => {
                        return Move::Finish;
                    },
                    _ => {},
                }
                let none: Vec<Attribute> = Vec::new();
                assert(attributes_view(none@) =~= Seq::empty());
                self.insert_element(ElementKind::Body, none);
                self.mode = InsertionMode::InBody;
                Move::Again
            },
            InsertionMode::InBody => {
                match token {
                    HtmlToken::EndTag { tag } => {
                        match ElementKind::from_tag(tag.as_str()) {
                            Some(ElementKind::Body) => {
                                if self.contain_in_stack(ElementKind::Body) {
                                    self.pop_until(ElementKind::Body);
                                    self.mode = InsertionMode::AfterBody;
                                }
                                Move::Advance
                            },
                            Some(ElementKind::Html) => {
                                let n: usize = self.stack_of_open_elements.len();
                                if n == 0 || !Self::same_kind(
                                    self.kind_at(self.stack_of_open_elements[n - 1]),
                                    ElementKind::Body,
                                ) {
                                    return Move::Advance;
                                }
                                if n < 2 || !Self::same_kind(
                                    self.kind_at(self.stack_of_open_elements[n - 2]),
                                    ElementKind::Html,
                                ) {
                                    return Move::Fail(HtmlError::HtmlNotCurrent);
                                }
                                self.pop_current_node(ElementKind::Body);
                                self.mode = InsertionMode::AfterBody;
                                self.pop_current_node(ElementKind::Html);
                                Move::Again
                            },
                            _ => Move::Advance,
                        }
                    },
                    HtmlToken::Eof => Move::Finish,
                    _ => Move::Fail(HtmlError::UnhandledInBody),
                }
            },
            InsertionMode::Text => {
                match token {
                    HtmlToken::Eof => Move::Finish,
                    HtmlToken::EndTag { tag } => {
                        match ElementKind::from_tag(tag.as_str()) {
                            Some(ElementKind::Style) => {
                                self.pop_until(ElementKind::Style);
                                self.mode = self.original_insertion_mode;
                                Move::Advance
                            },
                            Some(ElementKind::Script) => {
                                self.pop_until(ElementKind::Script);
                                self.mode = self.original_insertion_mode;
                                Move::Advance
                            },
                            _ => {
                                self.mode = self.original_insertion_mode;
                                Move::Again
                            },
                        }
                    },
                    HtmlToken::Char(c) => {
                        self.insert_char(*c);
                        Move::Advance
                    },
                    _ => {
                        self.mode = self.original_insertion_mode;
                        Move::Again
                    },
                }
            },
            InsertionMode::AfterBody => {
                match token {
                    HtmlToken::Char(_) => Move::Advance,
                    HtmlToken::EndTag { tag } => {
                        if Self::same_kind(ElementKind::from_tag(tag.as_str()), ElementKind::Html) {
                            self.mode = InsertionMode::AfterAfterBody;
                            Move::Advance
                        } else {
                            self.mode = InsertionMode::InBody;
                            Move::Again
                        }
                    },
                    HtmlToken::Eof => Move::Finish,
                    _ => {
                        self.mode = InsertionMode::InBody;
                        Move::Again
                    },
                }
            },
            InsertionMode::AfterAfterBody => {
                match token {
                    HtmlToken::Char(_) => Move::Advance,
                    HtmlToken::Eof => Move::Finish,
                    _ => {
                        self.mode = InsertionMode::InBody;
                        Move::Again
                    },
                }
            },
        }
    }

    /// Reads the tokens and hands out the window with the tree they build.
    /// The constructor is left in its initial state with no tokens.
    pub fn construct_tree(&mut self) -> (r: Result<Window, HtmlError>)
        requires
            old(self).wf(),
        ensures
            final(self).wf(),
            final(self)@ == initial_machine(),
            final(self).tokens() == Seq::<TokenView>::empty(),
            match run(old(self)@, old(self).tokens(), 0) {
                Ok(m) => r is Ok && r->Ok_0@ == m.nodes && r->Ok_0.wf(),
                Err(e) => r == Err::<Window, HtmlError>(e),
            },
    {
        let mut tokens: Vec<HtmlToken> = Vec::new();
        assert(tokens_view(tokens@) =~= Seq::empty());
        core::mem::swap(&mut self.tokens, &mut tokens);
        let mut failure: Option<HtmlError> = None;
        let mut i: usize = 0;
        loop
            invariant_except_break
                failure is None,
            invariant
                self.wf(),
                i <= tokens@.len(),
                self.tokens() == Seq::<TokenView>::empty(),
                tokens_view(tokens@) == old(self).tokens(),
                run(self@, old(self).tokens(), i as int) == run(old(self)@, old(self).tokens(), 0),
            ensures
                self.wf(),
                match failure {
                    Some(e) => run(old(self)@, old(self).tokens(), 0) == Err::<Machine, HtmlError>(
                        e,
                    ),
                    None => run(old(self)@, old(self).tokens(), 0) == Ok::<Machine, HtmlError>(
                        self@,
                    ),
                },
                self.tokens() == Seq::<TokenView>::empty(),
            decreases tokens@.len() - i, rank_at(self@.mode, old(self).tokens(), i as int),
        {
            if i >= tokens.len() {
                break ;
            }
            if self.window.len() == usize::MAX {
                failure = Some(HtmlError::TooManyNodes);
                break ;
            }
            match self.step(&tokens[i]) {
                Move::Advance => {
                    i += 1;
                },
                Move::Again => {},
                Move::Finish => {
                    break ;
                },
                Move::Fail(e) => {
                    failure = Some(e);
                    break ;
                },
            }
        }
        let mut window = Window::new();
        core::mem::swap(&mut self.window, &mut window);
        self.mode = InsertionMode::Initial;
        self.original_insertion_mode = InsertionMode::Initial;
        self.stack_of_open_elements = Vec::new();
        assert(self@.stack =~= Seq::empty());
        match failure {
            Some(e) => Err(e),
            None => Ok(window),
        }
    }
}

} // verus!
