//! The CSS object model and the parser that builds it from a token stream
//! with one token of lookahead.

use vstd::prelude::*;
use crate::css::token::{CssError, CssToken, CssTokenizer, Lexed, Token, lex, lemma_lex_advances};
use crate::text::{chars_of, string_of};

verus! {

/// One item of the stream that the parser reads: a token, or the character
/// at which the tokenizer gave up. Nothing follows such a character.
pub enum Item {
    Tok(Token),
    Bad(char),
}

/// The stream that the tokenizer yields from `p` on.
pub open spec fn items(s: Seq<char>, p: int) -> Seq<Item>
    decreases s.len() - p,
    when 0 <= p <= s.len()
    via items_decreases
{
    match lex(s, p) {
        Lexed::End => Seq::empty(),
        Lexed::Unsupported(c, _) => seq![Item::Bad(c)],
        Lexed::Token(t, e) => seq![Item::Tok(t)] + items(s, e),
    }
}

#[via_fn]
proof fn items_decreases(s: Seq<char>, p: int) {
    lemma_lex_advances(s, p);
}

pub enum SelectorView {
    Type(Seq<char>),
    Class(Seq<char>),
    Id(Seq<char>),
    Unknown,
}

pub struct DeclarationView {
    pub property: Seq<char>,
    pub value: Token,
}

pub struct RuleView {
    pub selector: SelectorView,
    pub declarations: Seq<DeclarationView>,
}

/// The selector of a rule: one simple selector, not a list.
#[derive(Debug, Clone, PartialEq, Eq)]
pub enum Selector {
    /// Selects by tag name.
    TypeSelector(String),
    /// Selects by class name.
    ClassSelector(String),
    /// Selects by id.
    IdSelector(String),
    /// Stands where the prelude held no selector that is supported.
    UnknownSelector,
}

impl View for Selector {
    type V = SelectorView;

    open spec fn view(&self) -> SelectorView {
        match self {
            Selector::TypeSelector(s) => SelectorView::Type(s@),
            Selector::ClassSelector(s) => SelectorView::Class(s@),
            Selector::IdSelector(s) => SelectorView::Id(s@),
            Selector::UnknownSelector => SelectorView::Unknown,
        }
    }
}

/// The value of a declaration: a single token.
pub type ComponentValue = CssToken;

/// A property and its value.
#[derive(Debug, Clone, PartialEq)]
pub struct Declaration {
    pub property: String,
    pub value: ComponentValue,
}

impl View for Declaration {
    type V = DeclarationView;

    open spec fn view(&self) -> DeclarationView {
        DeclarationView { property: self.property@, value: self.value@ }
    }
}

impl Declaration {
    /// The empty property with the empty identifier as its value.
    pub fn new() -> (d: Self)
        ensures
            d@ == (DeclarationView { property: Seq::empty(), value: Token::Ident(Seq::empty()) }),
    {
        Self { property: String::new(), value: CssToken::Ident(String::new()) }
    }

    /// A declaration that stands for the same as this one.
    pub fn copy(&self) -> (d: Self)
        ensures
            d@ == self@,
    {
        Self { property: self.property.clone(), value: self.value.copy() }
    }

    pub fn set_property(&mut self, property: String)
        ensures
            final(self)@ == (DeclarationView { property: property@, value: old(self)@.value }),
    {
        self.property = property;
    }

    pub fn set_value(&mut self, value: ComponentValue)
        ensures
            final(self)@ == (DeclarationView { property: old(self)@.property, value: value@ }),
    {
        self.value = value;
    }
}

/// The views of a sequence of declarations.
pub open spec fn declarations_view(v: Seq<Declaration>) -> Seq<DeclarationView> {
    v.map_values(|d: Declaration| d@)
}

/// A selector with the declarations of its block.
#[derive(Debug, Clone, PartialEq)]
pub struct QualifiedRule {
    pub selector: Selector,
    pub declarations: Vec<Declaration>,
}

impl View for QualifiedRule {
    type V = RuleView;

    open spec fn view(&self) -> RuleView {
        RuleView {
            selector: self.selector@,
            declarations: declarations_view(self.declarations@),
        }
    }
}

/// The selector that a rule has before its prelude gave one: the type
/// selector of the empty name.
pub open spec fn initial_selector() -> SelectorView {
    SelectorView::Type(Seq::empty())
}

impl QualifiedRule {
    pub fn new() -> (r: Self)
        ensures
            r@ == (RuleView { selector: initial_selector(), declarations: Seq::empty() }),
    {
        let r = Self { selector: Selector::TypeSelector(String::new()), declarations: Vec::new() };
        assert(r@.declarations =~= Seq::empty());
        r
    }

    pub fn set_selector(&mut self, selector: Selector)
        ensures
            final(self)@ == (RuleView {
                selector: selector@,
                declarations: old(self)@.declarations,
            }),
    {
        self.selector = selector;
    }

    pub fn set_declarations(&mut self, declarations: Vec<Declaration>)
        ensures
            final(self)@ == (RuleView {
                selector: old(self)@.selector,
                declarations: declarations_view(declarations@),
            }),
    {
        self.declarations = declarations;
    }
}

/// The views of a sequence of rules.
pub open spec fn rules_view(v: Seq<QualifiedRule>) -> Seq<RuleView> {
    v.map_values(|r: QualifiedRule| r@)
}

/// The rules of a style text, in the order of the text.
#[derive(Debug, Clone, PartialEq)]
pub struct StyleSheet {
    pub rules: Vec<QualifiedRule>,
}

impl View for StyleSheet {
    type V = Seq<RuleView>;

    open spec fn view(&self) -> Seq<RuleView> {
        rules_view(self.rules@)
    }
}

impl StyleSheet {
    pub fn new() -> (s: Self)
        ensures
            s@ == Seq::<RuleView>::empty(),
    {
        let s = Self { rules: Vec::new() };
        assert(s@ =~= Seq::empty());
        s
    }

    pub fn set_rules(&mut self, rules: Vec<QualifiedRule>)
        ensures
            final(self)@ == rules_view(rules@),
    {
        self.rules = rules;
    }
}

/// Drops items up to the next `{`, which stays, or to the end of the stream.
pub open spec fn skip_to_block(rest: Seq<Item>) -> Result<Seq<Item>, CssError>
    decreases rest.len(),
{
    if rest.len() == 0 {
        Ok(rest)
    } else {
        match rest[0] {
            Item::Bad(c) => Err(CssError::UnsupportedChar(c)),
            Item::Tok(Token::OpenCurly) => Ok(rest),
            Item::Tok(_) => skip_to_block(rest.drop_first()),
        }
    }
}

/// Takes the identifier at the head of the stream.
pub open spec fn ident(rest: Seq<Item>) -> Result<(Seq<char>, Seq<Item>), CssError> {
    if rest.len() == 0 {
        Err(CssError::UnexpectedEnd)
    } else {
        match rest[0] {
            Item::Bad(c) => Err(CssError::UnsupportedChar(c)),
            Item::Tok(Token::Ident(name)) => Ok((name, rest.drop_first())),
            Item::Tok(_) => Err(CssError::UnexpectedToken),
        }
    }
}

/// The text of a hash token without its first character, the `#`.
pub open spec fn hash_name(v: Seq<char>) -> Seq<char> {
    if v.len() > 0 {
        v.drop_first()
    } else {
        v
    }
}

/// Reads one selector from the head of the stream.
pub open spec fn selector(rest: Seq<Item>) -> Result<(SelectorView, Seq<Item>), CssError> {
    if rest.len() == 0 {
        Err(CssError::UnexpectedEnd)
    } else {
        let rest1 = rest.drop_first();
        match rest[0] {
            Item::Bad(c) => Err(CssError::UnsupportedChar(c)),
            Item::Tok(Token::Hash(v)) => Ok((SelectorView::Id(hash_name(v)), rest1)),
            Item::Tok(Token::Delim(d)) => if d == '.' {
                match ident(rest1) {
                    Ok((name, r)) => Ok((SelectorView::Class(name), r)),
                    Err(e) => Err(e),
                }
            } else {
                Err(CssError::UnexpectedToken)
            },
            Item::Tok(Token::Ident(name)) => if rest1.len() > 0 && rest1[0] is Bad {
                Err(CssError::UnsupportedChar(rest1[0]->Bad_0))
            } else if rest1.len() > 0 && rest1[0] == Item::Tok(Token::Colon) {
                match skip_to_block(rest1) {
                    Ok(r) => Ok((SelectorView::Type(name), r)),
                    Err(e) => Err(e),
                }
            } else {
                Ok((SelectorView::Type(name), rest1))
            },
            Item::Tok(Token::AtKeyword(_)) => match skip_to_block(rest1) {
                Ok(r) => Ok((SelectorView::Unknown, r)),
                Err(e) => Err(e),
            },
            Item::Tok(_) => Ok((SelectorView::Unknown, rest1)),
        }
    }
}

/// Reads one declaration: an identifier, a colon and one token. Without the
/// colon nothing is produced, and what was read stays read.
pub open spec fn declaration(rest: Seq<Item>) -> Result<
    (Option<DeclarationView>, Seq<Item>),
    CssError,
> {
    if rest.len() == 0 {
        Ok((None, rest))
    } else {
        match ident(rest) {
            Err(e) => Err(e),
            Ok((name, r1)) => if r1.len() == 0 {
                Ok((None, r1))
            } else {
                match r1[0] {
                    Item::Bad(c) => Err(CssError::UnsupportedChar(c)),
                    Item::Tok(Token::Colon) => {
                        let r2 = r1.drop_first();
                        if r2.len() == 0 {
                            Err(CssError::UnexpectedEnd)
                        } else {
                            match r2[0] {
                                Item::Bad(c) => Err(CssError::UnsupportedChar(c)),
                                Item::Tok(t) => Ok(
                                    (
                                        Some(DeclarationView { property: name, value: t }),
                                        r2.drop_first(),
                                    ),
                                ),
                            }
                        }
                    },
                    Item::Tok(_) => Ok((None, r1.drop_first())),
                }
            },
        }
    }
}

/// The declaration that was produced, as a sequence of one, or none.
pub open spec fn produced(d: Option<DeclarationView>) -> Seq<DeclarationView> {
    match d {
        Some(x) => seq![x],
        None => Seq::empty(),
    }
}

/// Reads the declarations of a block, up to and with its `}` or to the end
/// of the stream.
pub open spec fn declarations(rest: Seq<Item>) -> Result<
    (Seq<DeclarationView>, Seq<Item>),
    CssError,
>
    decreases rest.len(),
{
    if rest.len() == 0 {
        Ok((Seq::empty(), rest))
    } else {
        match rest[0] {
            Item::Bad(c) => Err(CssError::UnsupportedChar(c)),
            Item::Tok(Token::CloseCurly) => Ok((Seq::empty(), rest.drop_first())),
            Item::Tok(Token::Ident(_)) => match declaration(rest) {
                Err(e) => Err(e),
                Ok((d, r)) => match declarations(r) {
                    Err(e) => Err(e),
                    Ok((ds, r2)) => Ok((produced(d) + ds, r2)),
                },
            },
            Item::Tok(_) => declarations(rest.drop_first()),
        }
    }
}

/// Reads one rule: selectors, of which the last one stays, then a block.
/// Where the stream ends before a block starts, no rule is produced.
pub open spec fn qualified_rule(rest: Seq<Item>, current: SelectorView) -> Result<
    (Option<RuleView>, Seq<Item>),
    CssError,
>
    decreases rest.len(),
    via qualified_rule_decreases
{
    if rest.len() == 0 {
        Ok((None, rest))
    } else {
        match rest[0] {
            Item::Bad(c) => Err(CssError::UnsupportedChar(c)),
            Item::Tok(Token::OpenCurly) => match declarations(rest.drop_first()) {
                Err(e) => Err(e),
                Ok((ds, r)) => Ok((Some(RuleView { selector: current, declarations: ds }), r)),
            },
            Item::Tok(_) => match selector(rest) {
                Err(e) => Err(e),
                Ok((s, r)) => qualified_rule(r, s),
            },
        }
    }
}

#[via_fn]
proof fn qualified_rule_decreases(rest: Seq<Item>, current: SelectorView) {
    lemma_selector_consumes(rest);
}

/// Skipping to a block never lengthens the stream.
pub proof fn lemma_skip_shortens(rest: Seq<Item>)
    ensures
        skip_to_block(rest) is Ok ==> skip_to_block(rest)->Ok_0.len() <= rest.len(),
    decreases rest.len(),
{
    if rest.len() > 0 {
        lemma_skip_shortens(rest.drop_first());
    }
}

/// A selector takes at least one item.
pub proof fn lemma_selector_consumes(rest: Seq<Item>)
    ensures
        selector(rest) is Ok ==> selector(rest)->Ok_0.1.len() < rest.len(),
{
    if rest.len() > 0 {
        lemma_skip_shortens(rest.drop_first());
    }
}

/// A block's declarations never lengthen the stream.
pub proof fn lemma_declarations_shorten(rest: Seq<Item>)
    ensures
        declarations(rest) is Ok ==> declarations(rest)->Ok_0.1.len() <= rest.len(),
    decreases rest.len(),
{
    if rest.len() > 0 {
        match rest[0] {
            Item::Bad(c) => {},
            Item::Tok(Token::CloseCurly) => {},
            Item::Tok(Token::Ident(_)) => {
                if declaration(rest) is Ok {
                    lemma_declarations_shorten(declaration(rest)->Ok_0.1);
                }
            },
            Item::Tok(_) => {
                lemma_declarations_shorten(rest.drop_first());
            },
        }
    }
}

/// A rule takes at least one item of a stream that is not empty.
pub proof fn lemma_rule_consumes(rest: Seq<Item>, current: SelectorView)
    ensures
        qualified_rule(rest, current) is Ok && rest.len() > 0 ==> qualified_rule(
            rest,
            current,
        )->Ok_0.1.len() < rest.len(),
    decreases rest.len(),
{
    if rest.len() > 0 {
        match rest[0] {
            Item::Bad(c) => {},
            Item::Tok(Token::OpenCurly) => {
                lemma_declarations_shorten(rest.drop_first());
            },
            Item::Tok(_) => {
                lemma_selector_consumes(rest);
                if selector(rest) is Ok {
                    let r = selector(rest)->Ok_0.1;
                    if r.len() > 0 {
                        lemma_rule_consumes(r, selector(rest)->Ok_0.0);
                    }
                }
            },
        }
    }
}

/// Reads rules to the end of the stream. A rule that starts with an
/// at-keyword is read and dropped.
pub open spec fn rules(rest: Seq<Item>) -> Result<Seq<RuleView>, CssError>
    decreases rest.len(),
    via rules_decreases
{
    if rest.len() == 0 {
        Ok(Seq::empty())
    } else {
        match rest[0] {
            Item::Bad(c) => Err(CssError::UnsupportedChar(c)),
            Item::Tok(t) => match qualified_rule(rest, initial_selector()) {
                Err(e) => Err(e),
                Ok((found, r)) => if t is AtKeyword {
                    rules(r)
                } else {
                    match found {
                        None => Ok(Seq::empty()),
                        Some(rule) => match rules(r) {
                            Err(e) => Err(e),
                            Ok(rs) => Ok(seq![rule] + rs),
                        },
                    }
                },
            },
        }
    }
}

#[via_fn]
proof fn rules_decreases(rest: Seq<Item>) {
    lemma_rule_consumes(rest, initial_selector());
}


/// The tokens that write a selector out.
pub open spec fn selector_items(s: SelectorView) -> Seq<Item> {
    match s {
        SelectorView::Type(name) => seq![Item::Tok(Token::Ident(name))],
        SelectorView::Class(name) => seq![
            Item::Tok(Token::Delim('.')),
            Item::Tok(Token::Ident(name)),
        ],
        SelectorView::Id(name) => seq![Item::Tok(Token::Hash(seq!['#'] + name))],
        SelectorView::Unknown => Seq::empty(),
    }
}

/// The tokens that write a declaration out: property, colon, value, semicolon.
pub open spec fn declaration_items(d: DeclarationView) -> Seq<Item> {
    seq![
        Item::Tok(Token::Ident(d.property)),
        Item::Tok(Token::Colon),
        Item::Tok(d.value),
        Item::Tok(Token::SemiColon),
    ]
}

/// The tokens that write declarations out, one after the other.
pub open spec fn declarations_items(ds: Seq<DeclarationView>) -> Seq<Item>
    decreases ds.len(),
{
    if ds.len() == 0 {
        Seq::empty()
    } else {
        declaration_items(ds[0]) + declarations_items(ds.drop_first())
    }
}

/// The tokens that write a rule out: its selector and its block.
pub open spec fn rule_items(r: RuleView) -> Seq<Item> {
    selector_items(r.selector) + seq![Item::Tok(Token::OpenCurly)] + declarations_items(
        r.declarations,
    ) + seq![Item::Tok(Token::CloseCurly)]
}

/// The tokens that write rules out, one after the other.
pub open spec fn sheet_items(rs: Seq<RuleView>) -> Seq<Item>
    decreases rs.len(),
{
    if rs.len() == 0 {
        Seq::empty()
    } else {
        rule_items(rs[0]) + sheet_items(rs.drop_first())
    }
}

/// Declarations written out as tokens and closed by `}` are read back as
/// they were, and what follows the `}` is left.
pub proof fn lemma_declarations_read_back(ds: Seq<DeclarationView>, tail: Seq<Item>)
    ensures
        declarations(declarations_items(ds) + seq![Item::Tok(Token::CloseCurly)] + tail) == Ok::<
            (Seq<DeclarationView>, Seq<Item>),
            CssError,
        >((ds, tail)),
    decreases ds.len(),
{
    let close = seq![Item::Tok(Token::CloseCurly)];
    let rest = declarations_items(ds) + close + tail;
    if ds.len() == 0 {
        assert(rest[0] == Item::Tok(Token::CloseCurly));
        assert(rest.drop_first() =~= tail);
        assert(ds =~= Seq::empty());
    } else {
        let d = ds[0];
        let later = declarations_items(ds.drop_first()) + close + tail;
        lemma_declarations_read_back(ds.drop_first(), tail);
        assert(rest =~= declaration_items(d) + later);
        assert(rest[0] == Item::Tok(Token::Ident(d.property)));
        let r1 = rest.drop_first();
        assert(r1 =~= seq![
            Item::Tok(Token::Colon),
            Item::Tok(d.value),
            Item::Tok(Token::SemiColon),
        ] + later);
        assert(r1[0] == Item::Tok(Token::Colon));
        let r2 = r1.drop_first();
        assert(r2 =~= seq![Item::Tok(d.value), Item::Tok(Token::SemiColon)] + later);
        assert(r2[0] == Item::Tok(d.value));
        let r3 = r2.drop_first();
        assert(r3 =~= seq![Item::Tok(Token::SemiColon)] + later);
        assert(declaration(rest) == Ok::<(Option<DeclarationView>, Seq<Item>), CssError>(
            (Some(d), r3),
        ));
        assert(r3[0] == Item::Tok(Token::SemiColon));
        assert(r3.drop_first() =~= later);
        assert(declarations(r3) == declarations(later));
        assert(produced(Some(d)) + ds.drop_first() =~= ds);
        assert(declarations(rest) == Ok::<(Seq<DeclarationView>, Seq<Item>), CssError>(
            (produced(Some(d)) + ds.drop_first(), tail),
        ));
    }
}

/// A selector written out as tokens before a `{` is read back as it was,
/// and the stream is left at the `{`.
pub proof fn lemma_selector_read_back(s: SelectorView, tail: Seq<Item>)
    requires
        !(s is Unknown),
    ensures
        selector(selector_items(s) + seq![Item::Tok(Token::OpenCurly)] + tail) == Ok::<
            (SelectorView, Seq<Item>),
            CssError,
        >((s, seq![Item::Tok(Token::OpenCurly)] + tail)),
{
    let block = seq![Item::Tok(Token::OpenCurly)] + tail;
    let rest = selector_items(s) + seq![Item::Tok(Token::OpenCurly)] + tail;
    assert(block[0] == Item::Tok(Token::OpenCurly));
    match s {
        SelectorView::Type(name) => {
            assert(rest[0] == Item::Tok(Token::Ident(name)));
            assert(rest.drop_first() =~= block);
        },
        SelectorView::Class(name) => {
            assert(rest[0] == Item::Tok(Token::Delim('.')));
            let r1 = rest.drop_first();
            assert(r1 =~= seq![Item::Tok(Token::Ident(name))] + block);
            assert(r1[0] == Item::Tok(Token::Ident(name)));
            assert(r1.drop_first() =~= block);
        },
        SelectorView::Id(name) => {
            assert(rest[0] == Item::Tok(Token::Hash(seq!['#'] + name)));
            assert(rest.drop_first() =~= block);
            assert(hash_name(seq!['#'] + name) =~= name);
        },
        SelectorView::Unknown => {},
    }
}

/// Writing rules out as tokens and parsing the tokens gives the rules back,
/// in their order, for rules whose selector is a type, class or id selector.
pub proof fn lemma_rules_read_back(rs: Seq<RuleView>)
    requires
        forall|i: int| 0 <= i < rs.len() ==> !((#[trigger] rs[i]).selector is Unknown),
    ensures
        rules(sheet_items(rs)) == Ok::<Seq<RuleView>, CssError>(rs),
    decreases rs.len(),
{
    if rs.len() == 0 {
        assert(rs =~= Seq::empty());
    } else {
        let r = rs[0];
        let tail = sheet_items(rs.drop_first());
        let open = seq![Item::Tok(Token::OpenCurly)];
        let close = seq![Item::Tok(Token::CloseCurly)];
        let body = declarations_items(r.declarations) + close + tail;
        let rest = sheet_items(rs);
        assert forall|i: int| 0 <= i < rs.drop_first().len() implies !((
        #[trigger] rs.drop_first()[i]).selector is Unknown) by {
            assert(rs.drop_first()[i] == rs[i + 1]);
        }
        lemma_rules_read_back(rs.drop_first());
        lemma_selector_read_back(r.selector, body);
        lemma_declarations_read_back(r.declarations, tail);
        assert(rest =~= selector_items(r.selector) + open + body);
        let block = open + body;
        assert(rest[0] == selector_items(r.selector)[0]);
        assert(block[0] == Item::Tok(Token::OpenCurly));
        assert(block.drop_first() =~= body);
        assert(qualified_rule(block, r.selector) == Ok::<(Option<RuleView>, Seq<Item>), CssError>(
            (Some(r), tail),
        ));
        assert(qualified_rule(rest, initial_selector()) == qualified_rule(block, r.selector));
        assert(seq![r] + rs.drop_first() =~= rs);
    }
}

/// A parser over a tokenizer, holding one token of lookahead.
#[derive(Debug)]
pub struct CssParser {
    t: CssTokenizer,
    ahead: Result<Option<CssToken>, CssError>,
}

impl CssParser {
    /// The stream that is still to be read, the lookahead first.
    pub closed spec fn rest(&self) -> Seq<Item> {
        match self.ahead {
            Ok(None) => Seq::empty(),
            Ok(Some(tok)) => seq![Item::Tok(tok@)] + items(self.t.input(), self.t.pos()),
            Err(CssError::UnsupportedChar(c)) => seq![Item::Bad(c)],
            Err(_) => Seq::empty(),
        }
    }

    /// The tokenizer is well formed, and a failure held as lookahead is one
    /// of the tokenizer.
    pub closed spec fn wf(&self) -> bool {
        &&& self.t.wf()
        &&& self.ahead is Err ==> self.ahead->Err_0 is UnsupportedChar
    }

    /// A parser that will read what `t` has not yet read.
    pub fn new(t: CssTokenizer) -> (p: Self)
        requires
            t.wf(),
        ensures
            p.wf(),
            p.rest() == items(t.input(), t.pos()),
    {
        let mut cursor = t;
        proof {
            lemma_lex_advances(t.input(), t.pos());
        }
        let ahead = cursor.next();
        let p = Self { t: cursor, ahead };
        assert(p.rest() =~= items(t.input(), t.pos()));
        p
    }

    /// Parses the whole stream into a style sheet. A character that starts no
    /// token, a delimiter other than `.` where a selector starts, a missing
    /// identifier and a missing value end the parse with their error.
    pub fn parse_stylesheet(&mut self) -> (r: Result<StyleSheet, CssError>)
        requires
            old(self).wf(),
        ensures
            final(self).wf(),
            match rules(old(self).rest()) {
                Ok(rs) => r is Ok && r->Ok_0@ == rs,
                Err(e) => r == Err::<StyleSheet, CssError>(e),
            },
    {
        let mut sheet = StyleSheet::new();
        match self.consume_list_of_rules() {
            Ok(rules) => {
                sheet.set_rules(rules);
                Ok(sheet)
            },
            Err(e) => Err(e),
        }
    }

    /// Moves to the next token.
    fn bump(&mut self) -> (tok: CssToken)
        requires
            old(self).wf(),
            old(self).rest().len() > 0,
            old(self).rest()[0] is Tok,
        ensures
            final(self).wf(),
            final(self).rest() == old(self).rest().drop_first(),
            old(self).rest()[0] == Item::Tok(tok@),
    {
        proof {
            lemma_lex_advances(self.t.input(), self.t.pos());
        }
        let mut taken = self.t.next();
        core::mem::swap(&mut self.ahead, &mut taken);
        proof {
            assert(final(self).rest() =~= old(self).rest().drop_first());
        }
        match taken {
            Ok(Some(tok)) => tok,
            _ => {
                assert(false);
                CssToken::Colon
            },
        }
    }

    fn consume_list_of_rules(&mut self) -> (r: Result<Vec<QualifiedRule>, CssError>)
        requires
            old(self).wf(),
        ensures
            final(self).wf(),
            match rules(old(self).rest()) {
                Ok(rs) => r is Ok && rules_view(r->Ok_0@) == rs,
                Err(e) => r == Err::<Vec<QualifiedRule>, CssError>(e),
            },
    {
        let mut found: Vec<QualifiedRule> = Vec::new();
        assert(rules_view(found@) =~= Seq::empty());
        loop
            invariant
                self.wf(),
                match rules(self.rest()) {
                    Ok(rs) => rules(old(self).rest()) == Ok::<Seq<RuleView>, CssError>(
                        rules_view(found@) + rs,
                    ),
                    Err(e) => rules(old(self).rest()) == Err::<Seq<RuleView>, CssError>(e),
                },
            decreases self.rest().len(),
        {
            let at_rule = match &self.ahead {
                Ok(None) => {
                    assert(rules_view(found@) + Seq::<RuleView>::empty() =~= rules_view(found@));
                    return Ok(found);
                },
                Err(e) => {
                    return Err(*e);
                },
                Ok(Some(CssToken::AtKeyword(_))) => true,
                Ok(Some(_)) => false,
            };
            proof {
                lemma_rule_consumes(self.rest(), initial_selector());
            }
            let ghost before = rules_view(found@);
            match self.consume_qualified_rule() {
                Err(e) => {
                    return Err(e);
                },
                Ok(rule) => {
                    if !at_rule {
                        match rule {
                            Some(r) => {
                                found.push(r);
                                proof {
                                    assert(rules_view(found@) =~= before.push(r@));
                                    if rules(self.rest()) is Ok {
                                        let rs = rules(self.rest())->Ok_0;
                                        assert(before.push(r@) + rs =~= before + (seq![r@] + rs));
                                    }
                                }
                            },
                            None => {
                                assert(before + Seq::<RuleView>::empty() =~= before);
                                return Ok(found);
                            },
                        }
                    }
                },
            }
        }
    }

    fn consume_qualified_rule(&mut self) -> (r: Result<Option<QualifiedRule>, CssError>)
        requires
            old(self).wf(),
        ensures
            final(self).wf(),
            match qualified_rule(old(self).rest(), initial_selector()) {
                Ok((found, rest)) => r is Ok && final(self).rest() == rest && match found {
                    Some(rule) => r->Ok_0 is Some && r->Ok_0->Some_0@ == rule,
                    None => r->Ok_0 is None,
                },
                Err(e) => r == Err::<Option<QualifiedRule>, CssError>(e),
            },
    {
        let mut rule = QualifiedRule::new();
        loop
            invariant
                self.wf(),
                rule@.declarations == Seq::<DeclarationView>::empty(),
                qualified_rule(old(self).rest(), initial_selector()) == qualified_rule(
                    self.rest(),
                    rule@.selector,
                ),
            decreases self.rest().len(),
        {
            match &self.ahead {
                Ok(None) => {
                    return Ok(None);
                },
                Err(e) => {
                    return Err(*e);
                },
                Ok(Some(CssToken::OpenCurly)) => {
                    self.bump();
                    match self.consume_list_of_declarations() {
                        Ok(declarations) => {
                            rule.set_declarations(declarations);
                            return Ok(Some(rule));
                        },
                        Err(e) => {
                            return Err(e);
                        },
                    }
                },
                Ok(Some(_)) => {
                    proof {
                        lemma_selector_consumes(self.rest());
                    }
                    match self.consume_selector() {
                        Ok(selector) => {
                            rule.set_selector(selector);
                        },
                        Err(e) => {
                            return Err(e);
                        },
                    }
                },
            }
        }
    }

    /// Drops tokens until a `{` is the lookahead or the stream has ended.
    fn skip_to_block(&mut self) -> (r: Result<(), CssError>)
        requires
            old(self).wf(),
        ensures
            final(self).wf(),
            match skip_to_block(old(self).rest()) {
                Ok(rest) => r is Ok && final(self).rest() == rest,
                Err(e) => r == Err::<(), CssError>(e),
            },
    {
        loop
            invariant
                self.wf(),
                skip_to_block(self.rest()) == skip_to_block(old(self).rest()),
            decreases self.rest().len(),
        {
            match &self.ahead {
                Ok(None) => {
                    return Ok(());
                },
                Err(e) => {
                    return Err(*e);
                },
                Ok(Some(CssToken::OpenCurly)) => {
                    return Ok(());
                },
                Ok(Some(_)) => {},
            }
            self.bump();
        }
    }

    fn consume_selector(&mut self) -> (r: Result<Selector, CssError>)
        requires
            old(self).wf(),
        ensures
            final(self).wf(),
            match selector(old(self).rest()) {
                Ok((s, rest)) => r is Ok && r->Ok_0@ == s && final(self).rest() == rest,
                Err(e) => r == Err::<Selector, CssError>(e),
            },
    {
        match &self.ahead {
            Ok(None) => {
                return Err(CssError::UnexpectedEnd);
            },
            Err(e) => {
                return Err(*e);
            },
            Ok(Some(_)) => {},
        }
        let token = self.bump();
        match token {
            CssToken::HashToken(value) => {
                let v = chars_of(value.as_str());
                if v.len() > 0 {
                    let name = string_of(&v, 1, v.len());
                    assert(name@ =~= hash_name(value@));
                    Ok(Selector::IdSelector(name))
                } else {
                    Ok(Selector::IdSelector(value))
                }
            },
            CssToken::Delim(delim) => {
                if delim == '.' {
                    match self.consume_ident() {
                        Ok(name) => Ok(Selector::ClassSelector(name)),
                        Err(e) => Err(e),
                    }
                } else {
                    Err(CssError::UnexpectedToken)
                }
            },
            CssToken::Ident(ident) => {
                let pseudo = match &self.ahead {
                    Err(e) => {
                        return Err(*e);
                    },
                    Ok(Some(CssToken::Colon)) => true,
                    Ok(_) => false,
                };
                if pseudo {
                    match self.skip_to_block() {
                        Ok(()) => {},
                        Err(e) => {
                            return Err(e);
                        },
                    }
                }
                Ok(Selector::TypeSelector(ident))
            },
            CssToken::AtKeyword(_keyword) => {
                match self.skip_to_block() {
                    Ok(()) => Ok(Selector::UnknownSelector),
                    Err(e) => Err(e),
                }
            },
            _ => Ok(Selector::UnknownSelector),
        }
    }

    fn consume_list_of_declarations(&mut self) -> (r: Result<Vec<Declaration>, CssError>)
        requires
            old(self).wf(),
        ensures
            final(self).wf(),
            match declarations(old(self).rest()) {
                Ok((ds, rest)) => r is Ok && declarations_view(r->Ok_0@) == ds && final(self).rest() == rest,
                Err(e) => r == Err::<Vec<Declaration>, CssError>(e),
            },
    {
        let mut found: Vec<Declaration> = Vec::new();
        assert(declarations_view(found@) =~= Seq::empty());
        loop
            invariant
                self.wf(),
                match declarations(self.rest()) {
                    Ok((ds, rest)) => declarations(old(self).rest()) == Ok::<
                        (Seq<DeclarationView>, Seq<Item>),
                        CssError,
                    >((declarations_view(found@) + ds, rest)),
                    Err(e) => declarations(old(self).rest()) == Err::<
                        (Seq<DeclarationView>, Seq<Item>),
                        CssError,
                    >(e),
                },
            decreases self.rest().len(),
        {
            let ghost before = declarations_view(found@);
            assert(before + Seq::<DeclarationView>::empty() =~= before);
            match &self.ahead {
                Ok(None) => {
                    return Ok(found);
                },
                Err(e) => {
                    return Err(*e);
                },
                Ok(Some(CssToken::CloseCurly)) => {
                    self.bump();
                    return Ok(found);
                },
                Ok(Some(CssToken::Ident(_))) => {
                    match self.consume_declaration() {
                        Err(e) => {
                            return Err(e);
                        },
                        Ok(Some(declaration)) => {
                            found.push(declaration);
                            proof {
                                assert(declarations_view(found@) =~= before.push(declaration@));
                                if declarations(self.rest()) is Ok {
                                    let ds = declarations(self.rest())->Ok_0.0;
                                    assert(before.push(declaration@) + ds =~= before + (
                                    produced(Some(declaration@)) + ds));
                                }
                            }
                        },
                        Ok(None) => {
                            proof {
                                if declarations(self.rest()) is Ok {
                                    let ds = declarations(self.rest())->Ok_0.0;
                                    assert(before + ds =~= before + (produced(None) + ds));
                                }
                            }
                        },
                    }
                },
                Ok(Some(_)) => {
                    self.bump();
                },
            }
        }
    }

    fn consume_declaration(&mut self) -> (r: Result<Option<Declaration>, CssError>)
        requires
            old(self).wf(),
        ensures
            final(self).wf(),
            old(self).rest().len() > 0 && r is Ok ==> final(self).rest().len() < old(self).rest().len(),
            match declaration(old(self).rest()) {
                Ok((found, rest)) => r is Ok && final(self).rest() == rest && match found {
                    Some(d) => r->Ok_0 is Some && r->Ok_0->Some_0@ == d,
                    None => r->Ok_0 is None,
                },
                Err(e) => r == Err::<Option<Declaration>, CssError>(e),
            },
    {
        match &self.ahead {
            Ok(None) => {
                return Ok(None);
            },
            _ => {},
        }
        let mut declaration = Declaration::new();
        match self.consume_ident() {
            Ok(name) => {
                declaration.set_property(name);
            },
            Err(e) => {
                return Err(e);
            },
        }
        match &self.ahead {
            Ok(None) => {
                return Ok(None);
            },
            Err(e) => {
                return Err(*e);
            },
            Ok(Some(CssToken::Colon)) => {
                self.bump();
            },
            Ok(Some(_)) => {
                self.bump();
                return Ok(None);
            },
        }
        match self.consume_component_value() {
            Ok(value) => {
                declaration.set_value(value);
                Ok(Some(declaration))
            },
            Err(e) => Err(e),
        }
    }

    fn consume_ident(&mut self) -> (r: Result<String, CssError>)
        requires
            old(self).wf(),
        ensures
            final(self).wf(),
            match ident(old(self).rest()) {
                Ok((name, rest)) => r is Ok && r->Ok_0@ == name && final(self).rest() == rest,
                Err(e) => r == Err::<String, CssError>(e),
            },
    {
        match &self.ahead {
            Ok(None) => {
                return Err(CssError::UnexpectedEnd);
            },
            Err(e) => {
                return Err(*e);
            },
            Ok(Some(CssToken::Ident(_))) => {},
            Ok(Some(_)) => {
                return Err(CssError::UnexpectedToken);
            },
        }
        match self.bump() {
            CssToken::Ident(name) => Ok(name),
            _ => {
                assert(false);
                Err(CssError::UnexpectedToken)
            },
        }
    }

    /// Takes the next token as a value.
    fn consume_component_value(&mut self) -> (r: Result<ComponentValue, CssError>)
        requires
            old(self).wf(),
        ensures
            final(self).wf(),
            match old(self).rest().len() > 0 {
                false => r == Err::<ComponentValue, CssError>(CssError::UnexpectedEnd),
                true => match old(self).rest()[0] {
                    Item::Bad(c) => r == Err::<ComponentValue, CssError>(
                        CssError::UnsupportedChar(c),
                    ),
                    Item::Tok(t) => r is Ok && r->Ok_0@ == t && final(self).rest() == old(self).rest().drop_first(),
                },
            },
    {
        match &self.ahead {
            Ok(None) => {
                return Err(CssError::UnexpectedEnd);
            },
            Err(e) => {
                return Err(*e);
            },
            Ok(Some(_)) => {},
        }
        Ok(self.bump())
    }
}

} // verus!
