//! The HTML tokenizer: a single cursor over the characters of a markup
//! text. Text comes out character by character; `<name ...>` and
//! `</name>` come out as tags; the end of the text comes out as one
//! end-of-file token.

use vstd::prelude::*;
use crate::css::token::is_letter;
use crate::dom::{Attribute, AttributeView, attributes_view};
use crate::html::{HtmlToken, TokenView};
use crate::text::{chars_of, string_of};

verus! {

/// The characters at which the parts of a tag end.
#[derive(Debug, Clone, Copy)]
pub enum Stop {
    /// Anything but a space or a newline: where blanks end.
    Mark,
    /// A blank, `/` or `>`: where a tag name ends.
    Name,
    /// A blank, `/`, `>` or `=`: where an attribute name ends.
    AttributeName,
    /// A blank or `>`: where a value without quotes ends.
    Bare,
    /// The double quote.
    Double,
    /// The single quote.
    Single,
}

pub open spec fn stops(c: char, k: Stop) -> bool {
    let blank = c == ' ' || c == '\n';
    match k {
        Stop::Mark => !blank,
        Stop::Name => blank || c == '/' || c == '>',
        Stop::AttributeName => blank || c == '/' || c == '>' || c == '=',
        Stop::Bare => blank || c == '>',
        Stop::Double => c == '"',
        Stop::Single => c == '\'',
    }
}

/// The first index at or after `from` whose character stops `k`, or the
/// length of `s`.
pub open spec fn stop_at(s: Seq<char>, from: int, k: Stop) -> int
    decreases s.len() - from,
{
    if from < 0 || from >= s.len() {
        s.len() as int
    } else if stops(s[from], k) {
        from
    } else {
        stop_at(s, from + 1, k)
    }
}

/// A stop lies at or after the start and within the text.
pub proof fn lemma_stop_at_bounds(s: Seq<char>, from: int, k: Stop)
    requires
        0 <= from <= s.len(),
    ensures
        from <= stop_at(s, from, k) <= s.len(),
    decreases s.len() - from,
{
    if from < s.len() && !stops(s[from], k) {
        lemma_stop_at_bounds(s, from + 1, k);
    }
}

/// The value that starts at `from`, behind the `=` of an attribute, and
/// the index behind it: the text between quotes of one kind, or the text
/// up to a blank or `>`.
pub open spec fn value_at(s: Seq<char>, from: int) -> (Seq<char>, int) {
    if from < s.len() && (s[from] == '"' || s[from] == '\'') {
        let e = stop_at(
            s,
            from + 1,
            if s[from] == '"' {
                Stop::Double
            } else {
                Stop::Single
            },
        );
        (
            s.subrange(from + 1, e),
            if e < s.len() {
                e + 1
            } else {
                e
            },
        )
    } else {
        let e = stop_at(s, from, Stop::Bare);
        (s.subrange(from, e), e)
    }
}

/// What follows the name of a tag.
pub struct TagRest {
    pub attributes: Seq<AttributeView>,
    pub self_closing: bool,
    /// The index behind the tag.
    pub end: int,
}

/// Reads what follows the name of a tag, from `from` on: attributes, each a
/// name and, behind a `=`, a value; `/>` ends a self-closing tag, `>` any
/// other, and so does the end of the text. A `/` or `=` that stands alone
/// is passed over.
pub open spec fn tag_rest(s: Seq<char>, from: int) -> TagRest
    decreases s.len() - from,
    when 0 <= from <= s.len()
    via tag_rest_decreases
{
    let q = stop_at(s, from, Stop::Mark);
    if q >= s.len() {
        TagRest { attributes: Seq::empty(), self_closing: false, end: s.len() as int }
    } else if s[q] == '>' {
        TagRest { attributes: Seq::empty(), self_closing: false, end: q + 1 }
    } else if s[q] == '/' && q + 1 < s.len() && s[q + 1] == '>' {
        TagRest { attributes: Seq::empty(), self_closing: true, end: q + 2 }
    } else if s[q] == '/' || s[q] == '=' {
        tag_rest(s, q + 1)
    } else {
        let name_end = stop_at(s, q + 1, Stop::AttributeName);
        let (value, end) = if name_end < s.len() && s[name_end] == '=' {
            value_at(s, name_end + 1)
        } else {
            (Seq::empty(), name_end)
        };
        let rest = tag_rest(s, end);
        TagRest {
            attributes: seq![AttributeView { name: s.subrange(q, name_end), value }]
                + rest.attributes,
            self_closing: rest.self_closing,
            end: rest.end,
        }
    }
}

#[via_fn]
proof fn tag_rest_decreases(s: Seq<char>, from: int) {
    lemma_attribute_bounds(s, from);
}

/// An attribute ends behind where it starts, and within the text.
pub proof fn lemma_attribute_bounds(s: Seq<char>, from: int)
    requires
        0 <= from <= s.len(),
    ensures
        ({
            let q = stop_at(s, from, Stop::Mark);
            let name_end = stop_at(s, q + 1, Stop::AttributeName);
            &&& from <= q <= s.len()
            &&& q < s.len() ==> q < name_end <= s.len() && name_end <= value_at(s, name_end + 1).1
                <= s.len()
        }),
{
    let q = stop_at(s, from, Stop::Mark);
    lemma_stop_at_bounds(s, from, Stop::Mark);
    if q < s.len() {
        let name_end = stop_at(s, q + 1, Stop::AttributeName);
        lemma_stop_at_bounds(s, q + 1, Stop::AttributeName);
        if name_end < s.len() {
            lemma_stop_at_bounds(s, name_end + 1, Stop::Bare);
            if name_end + 2 <= s.len() {
                lemma_stop_at_bounds(s, name_end + 2, Stop::Double);
                lemma_stop_at_bounds(s, name_end + 2, Stop::Single);
            }
        }
    }
}

/// A tag ends at or behind where the rest of it starts, and within the text.
pub proof fn lemma_tag_rest_bounds(s: Seq<char>, from: int)
    requires
        0 <= from <= s.len(),
    ensures
        from <= tag_rest(s, from).end <= s.len(),
    decreases s.len() - from,
{
    lemma_attribute_bounds(s, from);
    let q = stop_at(s, from, Stop::Mark);
    if q >= s.len() {
    } else if s[q] == '>' {
    } else if s[q] == '/' && q + 1 < s.len() && s[q + 1] == '>' {
    } else if s[q] == '/' || s[q] == '=' {
        lemma_tag_rest_bounds(s, q + 1);
    } else {
        let name_end = stop_at(s, q + 1, Stop::AttributeName);
        let end = if name_end < s.len() && s[name_end] == '=' {
            value_at(s, name_end + 1).1
        } else {
            name_end
        };
        lemma_tag_rest_bounds(s, end);
    }
}

/// The token that starts at `p`, and the index behind it. A `<` with a
/// letter behind it starts a start tag, `</` with a letter behind it an end
/// tag, whose attributes are dropped; any other character is a token of
/// its own.
pub open spec fn token_at(s: Seq<char>, p: int) -> (TokenView, int) {
    if s[p] == '<' && p + 2 < s.len() && s[p + 1] == '/' && is_letter(s[p + 2]) {
        let e = stop_at(s, p + 2, Stop::Name);
        (TokenView::EndTag(s.subrange(p + 2, e)), tag_rest(s, e).end)
    } else if s[p] == '<' && p + 1 < s.len() && is_letter(s[p + 1]) {
        let e = stop_at(s, p + 1, Stop::Name);
        let rest = tag_rest(s, e);
        (TokenView::StartTag(s.subrange(p + 1, e), rest.self_closing, rest.attributes), rest.end)
    } else {
        (TokenView::Char(s[p]), p + 1)
    }
}

/// A token ends behind where it starts, and within the text.
pub proof fn lemma_token_advances(s: Seq<char>, p: int)
    requires
        0 <= p < s.len(),
    ensures
        p < token_at(s, p).1 <= s.len(),
{
    if p + 1 < s.len() {
        lemma_stop_at_bounds(s, p + 1, Stop::Name);
        lemma_tag_rest_bounds(s, stop_at(s, p + 1, Stop::Name));
    }
    if p + 2 < s.len() {
        lemma_stop_at_bounds(s, p + 2, Stop::Name);
        lemma_tag_rest_bounds(s, stop_at(s, p + 2, Stop::Name));
    }
}

/// The tokens of the text from `p` on: they end with the end-of-file token.
pub open spec fn token_stream(s: Seq<char>, p: int) -> Seq<TokenView>
    decreases s.len() - p,
    when 0 <= p
    via token_stream_decreases
{
    if p >= s.len() {
        seq![TokenView::Eof]
    } else {
        seq![token_at(s, p).0] + token_stream(s, token_at(s, p).1)
    }
}

#[via_fn]
proof fn token_stream_decreases(s: Seq<char>, p: int) {
    if p < s.len() {
        lemma_token_advances(s, p);
    }
}

fn stops_exec(c: char, k: Stop) -> (b: bool)
    ensures
        b == stops(c, k),
{
    let blank = c == ' ' || c == '\n';
    match k {
        Stop::Mark => !blank,
        Stop::Name => blank || c == '/' || c == '>',
        Stop::AttributeName => blank || c == '/' || c == '>' || c == '=',
        Stop::Bare => blank || c == '>',
        Stop::Double => c == '"',
        Stop::Single => c == '\'',
    }
}

fn scan(v: &Vec<char>, from: usize, k: Stop) -> (i: usize)
    requires
        from <= v@.len(),
    ensures
        i == stop_at(v@, from as int, k),
        from <= i <= v@.len(),
{
    let mut i: usize = from;
    while i < v.len() && !stops_exec(v[i], k)
        invariant
            from <= i <= v@.len(),
            stop_at(v@, from as int, k) == stop_at(v@, i as int, k),
        decreases v@.len() - i,
    {
        i += 1;
    }
    i
}

/// A cursor over the characters of a markup text.
#[derive(Debug, Clone, PartialEq)]
pub struct HtmlTokenizer {
    pos: usize,
    input: Vec<char>,
    finished: bool,
}

impl HtmlTokenizer {
    /// The characters of the text.
    pub closed spec fn input(&self) -> Seq<char> {
        self.input@
    }

    /// The index of the next character to read.
    pub closed spec fn pos(&self) -> int {
        self.pos as int
    }

    /// Whether the end-of-file token has been handed out.
    pub closed spec fn finished(&self) -> bool {
        self.finished
    }

    /// The cursor stands within the text or at its end.
    pub open spec fn wf(&self) -> bool {
        0 <= self.pos() <= self.input().len()
    }

    /// The tokens that are still to come.
    pub open spec fn remaining(&self) -> Seq<TokenView> {
        if self.finished() {
            Seq::empty()
        } else {
            token_stream(self.input(), self.pos())
        }
    }

    /// A cursor at the start of `html`.
    pub fn new(html: String) -> (t: Self)
        ensures
            t.wf(),
            t.input() == html@,
            t.pos() == 0,
            !t.finished(),
    {
        Self { pos: 0, input: chars_of(html.as_str()), finished: false }
    }

    fn consume_value(&mut self) -> (r: String)
        requires
            old(self).pos <= old(self).input@.len(),
        ensures
            final(self).input == old(self).input,
            final(self).finished == old(self).finished,
            (r@, final(self).pos as int) == value_at(old(self).input@, old(self).pos as int),
            old(self).pos <= final(self).pos <= old(self).input@.len(),
    {
        let n: usize = self.input.len();
        let from: usize = self.pos;
        if from < n && (self.input[from] == '"' || self.input[from] == '\'') {
            let k = if self.input[from] == '"' {
                Stop::Double
            } else {
                Stop::Single
            };
            let e: usize = scan(&self.input, from + 1, k);
            let r = string_of(&self.input, from + 1, e);
            self.pos = if e < n {
                e + 1
            } else {
                e
            };
            r
        } else {
            let e: usize = scan(&self.input, from, Stop::Bare);
            let r = string_of(&self.input, from, e);
            self.pos = e;
            r
        }
    }

    /// Reads what follows the name of a tag, and moves behind the tag.
    fn consume_tag_rest(&mut self) -> (r: (Vec<Attribute>, bool))
        requires
            old(self).pos <= old(self).input@.len(),
        ensures
            final(self).input == old(self).input,
            final(self).finished == old(self).finished,
            old(self).pos <= final(self).pos <= old(self).input@.len(),
            tag_rest(old(self).input@, old(self).pos as int) == (TagRest {
                attributes: attributes_view(r.0@),
                self_closing: r.1,
                end: final(self).pos as int,
            }),
    {
        let n: usize = self.input.len();
        let mut found: Vec<Attribute> = Vec::new();
        let ghost whole = tag_rest(self.input@, self.pos as int);
        assert(attributes_view(found@) =~= Seq::empty());
        assert(attributes_view(found@) + whole.attributes =~= whole.attributes);
        loop
            invariant
                n == self.input@.len(),
                self.input == old(self).input,
                self.finished == old(self).finished,
                old(self).pos <= self.pos <= n,
                whole == tag_rest(old(self).input@, old(self).pos as int),
                whole == (TagRest {
                    attributes: attributes_view(found@) + tag_rest(
                        self.input@,
                        self.pos as int,
                    ).attributes,
                    self_closing: tag_rest(self.input@, self.pos as int).self_closing,
                    end: tag_rest(self.input@, self.pos as int).end,
                }),
            decreases n - self.pos,
        {
            proof {
                lemma_attribute_bounds(self.input@, self.pos as int);
                assert(attributes_view(found@) + Seq::<AttributeView>::empty() =~= attributes_view(
                    found@,
                ));
            }
            let q: usize = scan(&self.input, self.pos, Stop::Mark);
            if q >= n {
                self.pos = n;
                return (found, false);
            }
            let c = self.input[q];
            if c == '>' {
                self.pos = q + 1;
                return (found, false);
            }
            if c == '/' && n - q > 1 && self.input[q + 1] == '>' {
                self.pos = q + 2;
                return (found, true);
            }
            if c == '/' || c == '=' {
                self.pos = q + 1;
                continue ;
            }
            let name_end: usize = scan(&self.input, q + 1, Stop::AttributeName);
            let name = string_of(&self.input, q, name_end);
            let ghost before = attributes_view(found@);
            let ghost here = self.pos as int;
            if name_end < n && self.input[name_end] == '=' {
                self.pos = name_end + 1;
                let value = self.consume_value();
                found.push(Attribute { name, value });
            } else {
                self.pos = name_end;
                found.push(Attribute { name, value: String::new() });
            }
            proof {
                let added = found@[found@.len() - 1]@;
                let later = tag_rest(self.input@, self.pos as int);
                assert(attributes_view(found@) =~= before.push(added));
                assert(tag_rest(self.input@, here).attributes == seq![added] + later.attributes);
                assert(before.push(added) + later.attributes =~= before + (seq![added]
                    + later.attributes));
            }
        }
    }

    /// Reads the next token and moves behind it. At the end of the text
    /// the end-of-file token comes once, and nothing after it.
    pub fn next(&mut self) -> (r: Option<HtmlToken>)
        requires
            old(self).wf(),
        ensures
            final(self).wf(),
            final(self).input() == old(self).input(),
            old(self).finished() ==> r is None && final(self).finished() && final(self).pos()
                == old(self).pos(),
            !old(self).finished() ==> r is Some && old(self).remaining() == seq![r->Some_0@]
                + final(self).remaining(),
            !old(self).finished() && old(self).pos() >= old(self).input().len() ==> r
                == Some(HtmlToken::Eof) && final(self).finished(),
            !old(self).finished() && old(self).pos() < old(self).input().len() ==> !final(self).finished() && (r->Some_0@, final(self).pos()) == token_at(
                old(self).input(),
                old(self).pos(),
            ),
    {
        if self.finished {
            return None;
        }
        let n: usize = self.input.len();
        let p: usize = self.pos;
        if p >= n {
            self.finished = true;
            assert(seq![TokenView::Eof] + Seq::<TokenView>::empty() =~= seq![TokenView::Eof]);
            return Some(HtmlToken::Eof);
        }
        proof {
            lemma_token_advances(self.input@, p as int);
        }
        let c = self.input[p];
        if c == '<' && n - p > 2 && self.input[p + 1] == '/' && Self::letter(self.input[p + 2]) {
            let e: usize = scan(&self.input, p + 2, Stop::Name);
            let tag = string_of(&self.input, p + 2, e);
            self.pos = e;
            let _rest = self.consume_tag_rest();
            Some(HtmlToken::EndTag { tag })
        } else if c == '<' && n - p > 1 && Self::letter(self.input[p + 1]) {
            let e: usize = scan(&self.input, p + 1, Stop::Name);
            let tag = string_of(&self.input, p + 1, e);
            self.pos = e;
            let rest = self.consume_tag_rest();
            Some(HtmlToken::StartTag { tag, self_closing: rest.1, attributes: rest.0 })
        } else {
            self.pos = p + 1;
            Some(HtmlToken::Char(c))
        }
    }

    fn letter(c: char) -> (b: bool)
        ensures
            b == is_letter(c),
    {
        ('a' <= c && c <= 'z') || ('A' <= c && c <= 'Z')
    }
}

} // verus!
