//! Writing a token stream out as text, and the proof that reading the text
//! gives the stream back.

use vstd::prelude::*;
use crate::css::cssom::{
    Declaration, DeclarationView, Item, QualifiedRule, RuleView, Selector, SelectorView,
    StyleSheet, declaration_items, declarations_items, declarations_view, items,
    lemma_rules_read_back, rule_items, rules, rules_view, selector_items, sheet_items,
};
use crate::css::token::{
    CharClass, CssError, CssToken, Lexed, Token, digit_value, digits_of, in_class, is_digit, is_letter, lex,
    run_end,
};

verus! {

/// Whether `name` reads as one identifier: it starts with a letter, `_` or
/// `-` and goes on with letters, digits, `-` and `_`.
pub open spec fn is_name(name: Seq<char>) -> bool {
    &&& name.len() > 0
    &&& name[0] == '-' || name[0] == '_' || is_letter(name[0])
    &&& forall|i: int| 0 <= i < name.len() ==> in_class(#[trigger] name[i], CharClass::Name)
}

/// Whether every character of `s` is of class `k`.
pub open spec fn all_in_class(s: Seq<char>, k: CharClass) -> bool {
    forall|i: int| 0 <= i < s.len() ==> in_class(#[trigger] s[i], k)
}

/// The character of a digit's value.
pub open spec fn digit_char(d: u8) -> char {
    ((48 + d % 10) as u8) as char
}

/// The characters of a sequence of digit values.
pub open spec fn digit_chars(ds: Seq<u8>) -> Seq<char> {
    Seq::new(ds.len(), |i: int| digit_char(ds[i]))
}

/// Whether every entry is the value of a digit.
pub open spec fn all_digits(ds: Seq<u8>) -> bool {
    forall|i: int| 0 <= i < ds.len() ==> #[trigger] ds[i] < 10
}

/// The text of a number: its whole digits and, where it has fraction
/// digits, a dot and those.
pub open spec fn number_text(whole: Seq<u8>, fraction: Seq<u8>) -> Seq<char> {
    if fraction.len() > 0 {
        digit_chars(whole) + seq!['.'] + digit_chars(fraction)
    } else {
        digit_chars(whole)
    }
}

/// The digits that are read from the characters of digit values are those values.
pub proof fn lemma_digits_read_back(ds: Seq<u8>)
    requires
        all_digits(ds),
    ensures
        digits_of(digit_chars(ds)) == ds,
    decreases ds.len(),
{
    if ds.len() > 0 {
        let text = digit_chars(ds);
        assert(text.drop_last() =~= digit_chars(ds.drop_last()));
        assert(text.last() == digit_char(ds.last()));
        assert(ds.last() < 10);
        assert(all_digits(ds.drop_last())) by {
            assert forall|i: int| 0 <= i < ds.drop_last().len() implies #[trigger] ds.drop_last()[i]
                < 10 by {
                assert(ds.drop_last()[i] == ds[i]);
            }
        }
        lemma_digits_read_back(ds.drop_last());
        assert(ds.drop_last().push(ds.last()) =~= ds);
    } else {
        assert(ds =~= Seq::empty());
    }
}

/// The digits that are read from a dot and the characters of digit values
/// are those values.
pub proof fn lemma_fraction_read_back(ds: Seq<u8>)
    requires
        all_digits(ds),
    ensures
        digits_of(seq!['.'] + digit_chars(ds)) == ds,
    decreases ds.len(),
{
    let text = seq!['.'] + digit_chars(ds);
    if ds.len() > 0 {
        assert(text.drop_last() =~= seq!['.'] + digit_chars(ds.drop_last()));
        assert(text.last() == digit_char(ds.last()));
        assert(ds.last() < 10);
        assert(all_digits(ds.drop_last())) by {
            assert forall|i: int| 0 <= i < ds.drop_last().len() implies #[trigger] ds.drop_last()[i]
                < 10 by {
                assert(ds.drop_last()[i] == ds[i]);
            }
        }
        lemma_fraction_read_back(ds.drop_last());
        assert(ds.drop_last().push(ds.last()) =~= ds);
    } else {
        assert(text.last() == '.');
        assert(text.drop_last() =~= Seq::<char>::empty());
        assert(digits_of(Seq::<char>::empty()) =~= Seq::<u8>::empty());
        assert(digits_of(text) == digits_of(text.drop_last()));
        assert(ds =~= Seq::empty());
    }
}

/// The tokens that can be written out and read back: punctuation,
/// identifiers, hash tokens, strings without a quote in them, and numbers
/// with at least one whole digit.
pub open spec fn writable(item: Item) -> bool {
    match item {
        Item::Bad(_) => false,
        Item::Tok(t) => match t {
            Token::Ident(name) => is_name(name),
            Token::Hash(v) => v.len() > 0 && v[0] == '#' && all_in_class(
                v.drop_first(),
                CharClass::Name,
            ),
            Token::Delim(c) => c == '.' || c == ',',
            Token::Str(s) => all_in_class(s, CharClass::Unquoted),
            Token::Number(whole, fraction) => whole.len() > 0 && all_digits(whole) && all_digits(
                fraction,
            ),
            Token::AtKeyword(_) => false,
            _ => true,
        },
    }
}

pub open spec fn all_writable(its: Seq<Item>) -> bool {
    forall|i: int| 0 <= i < its.len() ==> writable(#[trigger] its[i])
}

/// The text of a token.
pub open spec fn item_text(item: Item) -> Seq<char> {
    match item {
        Item::Bad(c) => seq![c],
        Item::Tok(t) => match t {
            Token::Ident(name) => name,
            Token::Hash(v) => v,
            Token::Delim(c) => seq![c],
            Token::Str(s) => seq!['"'] + s + seq!['"'],
            Token::Colon => seq![':'],
            Token::SemiColon => seq![';'],
            Token::OpenParenthesis => seq!['('],
            Token::CloseParenthesis => seq![')'],
            Token::OpenCurly => seq!['{'],
            Token::CloseCurly => seq!['}'],
            Token::AtKeyword(name) => seq!['@'] + name,
            Token::Number(whole, fraction) => number_text(whole, fraction),
        },
    }
}

/// The text of a stream: the text of each token, and a space behind each.
pub open spec fn items_text(its: Seq<Item>) -> Seq<char>
    decreases its.len(),
{
    if its.len() == 0 {
        Seq::empty()
    } else {
        item_text(its[0]) + seq![' '] + items_text(its.drop_first())
    }
}

/// A run whose characters up to `e` are of the class, and that meets
/// another character at `e`, ends at `e`.
pub proof fn lemma_run_end_exact(s: Seq<char>, from: int, e: int, k: CharClass)
    requires
        0 <= from <= e < s.len(),
        forall|j: int| from <= j < e ==> in_class(#[trigger] s[j], k),
        !in_class(s[e], k),
    ensures
        run_end(s, from, k) == e,
    decreases e - from,
{
    if from < e {
        lemma_run_end_exact(s, from + 1, e, k);
    }
}

/// The tokenizer reads the text of a writable token, with a space behind
/// it, as that token, and stops at the space.
pub proof fn lemma_lex_item(s: Seq<char>, p: int, item: Item)
    requires
        writable(item),
        0 <= p,
        p + item_text(item).len() < s.len(),
        forall|i: int| 0 <= i < item_text(item).len() ==> s[p + i] == #[trigger] item_text(item)[i],
        s[p + item_text(item).len()] == ' ',
    ensures
        item is Tok,
        lex(s, p) == Lexed::Token(item->Tok_0, p + item_text(item).len()),
{
    let text = item_text(item);
    let e = p + text.len();
    let t = item->Tok_0;
    match t {
        Token::Ident(name) => {
            assert(s[p] == text[0]);
            assert(in_class(name[0], CharClass::Name));
            assert forall|j: int| p + 1 <= j < e implies in_class(#[trigger] s[j], CharClass::Name) by {
                assert(s[p + (j - p)] == text[j - p]);
            }
            lemma_run_end_exact(s, p + 1, e, CharClass::Name);
            assert(s.subrange(p, e) =~= name) by {
                assert forall|i: int| 0 <= i < name.len() implies s.subrange(p, e)[i] == name[i] by {
                    assert(s[p + i] == text[i]);
                }
            }
        },
        Token::Hash(v) => {
            assert(s[p] == text[0]);
            assert forall|j: int| p + 1 <= j < e implies in_class(#[trigger] s[j], CharClass::Name) by {
                assert(s[p + (j - p)] == text[j - p]);
                assert(v.drop_first()[j - p - 1] == v[j - p]);
            }
            lemma_run_end_exact(s, p + 1, e, CharClass::Name);
            assert(s.subrange(p, e) =~= v) by {
                assert forall|i: int| 0 <= i < v.len() implies s.subrange(p, e)[i] == v[i] by {
                    assert(s[p + i] == text[i]);
                }
            }
        },
        Token::Str(x) => {
            assert(s[p] == text[0]);
            assert(text[0] == '"');
            let q = p + 1 + x.len();
            let n = x.len() as int;
            assert(s[p + (n + 1)] == text[n + 1]);
            assert(text[n + 1] == '"');
            assert forall|j: int| p + 1 <= j < q implies in_class(
                #[trigger] s[j],
                CharClass::Unquoted,
            ) by {
                assert(s[p + (j - p)] == text[j - p]);
                assert(text[j - p] == x[j - p - 1]);
            }
            lemma_run_end_exact(s, p + 1, q, CharClass::Unquoted);
            assert(s.subrange(p + 1, q) =~= x) by {
                assert forall|i: int| 0 <= i < x.len() implies s.subrange(p + 1, q)[i] == x[i] by {
                    assert(s[p + (i + 1)] == text[i + 1]);
                }
            }
        },
        Token::Number(whole, fraction) => {
            let w = p + whole.len();
            assert(s[p] == text[0]);
            assert(whole[0] < 10);
            assert(text[0] == digit_char(whole[0]));
            assert forall|j: int| p <= j < w implies in_class(#[trigger] s[j], CharClass::Digit) by {
                assert(s[p + (j - p)] == text[j - p]);
                assert(text[j - p] == digit_char(whole[j - p]));
                assert(whole[j - p] < 10);
            }
            assert forall|j: int| w <= j < e implies in_class(#[trigger] s[j], CharClass::Numeric) by {
                assert(s[p + (j - p)] == text[j - p]);
                if j > w {
                    assert(text[j - p] == digit_char(fraction[j - w - 1]));
                    assert(fraction[j - w - 1] < 10);
                }
            }
            if fraction.len() > 0 {
                assert(s[p + (w - p)] == text[w - p]);
                assert(text[w - p] == '.');
            }
            lemma_run_end_exact(s, p, w, CharClass::Digit);
            lemma_run_end_exact(s, w, e, CharClass::Numeric);
            assert(s.subrange(p, w) =~= digit_chars(whole)) by {
                assert forall|i: int| 0 <= i < whole.len() implies s.subrange(p, w)[i]
                    == digit_chars(whole)[i] by {
                    assert(s[p + i] == text[i]);
                }
            }
            lemma_digits_read_back(whole);
            if fraction.len() > 0 {
                assert(s.subrange(w, e) =~= seq!['.'] + digit_chars(fraction)) by {
                    assert forall|i: int| 0 <= i < e - w implies s.subrange(w, e)[i] == (seq!['.']
                        + digit_chars(fraction))[i] by {
                        assert(s[p + (w - p + i)] == text[w - p + i]);
                    }
                }
                lemma_fraction_read_back(fraction);
            } else {
                assert(s.subrange(w, e) =~= Seq::<char>::empty());
                assert(fraction =~= Seq::empty());
            }
        },
        _ => {
            assert(s[p] == text[0]);
        },
    }
    assert(!in_class(s[p], CharClass::Space));
    assert(run_end(s, p, CharClass::Space) == p);
}

/// Reading a written stream gives the stream back: the tokenizer finds in
/// the text of writable tokens, from where that text starts, those tokens.
pub proof fn lemma_items_read_back(prefix: Seq<char>, its: Seq<Item>)
    requires
        all_writable(its),
    ensures
        items(prefix + items_text(its), prefix.len() as int) == its,
    decreases its.len(),
{
    let s = prefix + items_text(its);
    let p = prefix.len() as int;
    if its.len() == 0 {
        assert(s =~= prefix);
        assert(run_end(s, p, CharClass::Space) == s.len());
        assert(its =~= Seq::empty());
    } else {
        let item = its[0];
        let text = item_text(item);
        let later = its.drop_first();
        let e = p + text.len();
        assert(writable(its[0]));
        assert forall|i: int| 0 <= i < later.len() implies writable(#[trigger] later[i]) by {
            assert(later[i] == its[i + 1]);
        }
        let longer = prefix + text + seq![' '];
        assert(s =~= longer + items_text(later));
        lemma_items_read_back(longer, later);
        assert forall|i: int| 0 <= i < text.len() implies s[p + i] == #[trigger] text[i] by {}
        assert(s[e] == ' ');
        lemma_lex_item(s, p, item);
        assert(run_end(s, e, CharClass::Space) == run_end(s, e + 1, CharClass::Space));
        assert(lex(s, e) == lex(s, e + 1));
        assert(items(s, e) == items(s, e + 1));
        assert(seq![item] + later =~= its);
    }
}

/// The selectors that can be written out and read back.
pub open spec fn writable_selector(s: SelectorView) -> bool {
    match s {
        SelectorView::Type(name) => is_name(name),
        SelectorView::Class(name) => is_name(name),
        SelectorView::Id(name) => all_in_class(name, CharClass::Name),
        SelectorView::Unknown => false,
    }
}

/// The rules that can be written out and read back: a type, class or id
/// selector, and declarations whose value is an identifier, a string
/// without a quote in it, or a number.
pub open spec fn writable_rule(r: RuleView) -> bool {
    &&& writable_selector(r.selector)
    &&& forall|i: int|
        0 <= i < r.declarations.len() ==> is_name((#[trigger] r.declarations[i]).property) && (
        r.declarations[i].value is Ident || r.declarations[i].value is Str
            || r.declarations[i].value is Number) && writable(
            Item::Tok(r.declarations[i].value),
        )
}

/// The text of a style sheet.
pub open spec fn sheet_text(rs: Seq<RuleView>) -> Seq<char> {
    items_text(sheet_items(rs))
}

/// What is made of writable parts is writable.
pub proof fn lemma_concat_writable(a: Seq<Item>, b: Seq<Item>)
    requires
        all_writable(a),
        all_writable(b),
    ensures
        all_writable(a + b),
{
    assert forall|i: int| 0 <= i < (a + b).len() implies writable(#[trigger] (a + b)[i]) by {
        if i < a.len() {
            assert((a + b)[i] == a[i]);
        } else {
            assert((a + b)[i] == b[i - a.len()]);
        }
    }
}

proof fn lemma_declarations_writable(ds: Seq<DeclarationView>)
    requires
        forall|i: int|
            0 <= i < ds.len() ==> is_name((#[trigger] ds[i]).property) && writable(
                Item::Tok(ds[i].value),
            ),
    ensures
        all_writable(declarations_items(ds)),
    decreases ds.len(),
{
    if ds.len() > 0 {
        assert forall|i: int| 0 <= i < ds.drop_first().len() implies is_name(
            (#[trigger] ds.drop_first()[i]).property,
        ) && writable(Item::Tok(ds.drop_first()[i].value)) by {
            assert(ds.drop_first()[i] == ds[i + 1]);
        }
        lemma_declarations_writable(ds.drop_first());
        assert(is_name(ds[0].property));
        assert(all_writable(declaration_items(ds[0])));
        lemma_concat_writable(declaration_items(ds[0]), declarations_items(ds.drop_first()));
    }
}

proof fn lemma_sheet_writable(rs: Seq<RuleView>)
    requires
        forall|i: int| 0 <= i < rs.len() ==> writable_rule(#[trigger] rs[i]),
    ensures
        all_writable(sheet_items(rs)),
    decreases rs.len(),
{
    if rs.len() > 0 {
        let r = rs[0];
        assert forall|i: int| 0 <= i < rs.drop_first().len() implies writable_rule(
            #[trigger] rs.drop_first()[i],
        ) by {
            assert(rs.drop_first()[i] == rs[i + 1]);
        }
        lemma_sheet_writable(rs.drop_first());
        assert(writable_rule(r));
        lemma_declarations_writable(r.declarations);
        let open = seq![Item::Tok(Token::OpenCurly)];
        let close = seq![Item::Tok(Token::CloseCurly)];
        assert(all_writable(selector_items(r.selector))) by {
            match r.selector {
                SelectorView::Id(name) => {
                    assert((seq!['#'] + name).drop_first() =~= name);
                },
                _ => {},
            }
        }
        assert(all_writable(open));
        assert(all_writable(close));
        lemma_concat_writable(selector_items(r.selector), open);
        lemma_concat_writable(selector_items(r.selector) + open, declarations_items(r.declarations));
        lemma_concat_writable(
            selector_items(r.selector) + open + declarations_items(r.declarations),
            close,
        );
        lemma_concat_writable(rule_items(r), sheet_items(rs.drop_first()));
    }
}

/// Writing a style sheet out and parsing the text again gives an equal
/// sequence of rules, for sheets made of writable rules.
pub proof fn lemma_sheet_round_trip(rs: Seq<RuleView>)
    requires
        forall|i: int| 0 <= i < rs.len() ==> writable_rule(#[trigger] rs[i]),
    ensures
        rules(items(sheet_text(rs), 0)) == Ok::<Seq<RuleView>, CssError>(rs),
{
    lemma_sheet_writable(rs);
    lemma_items_read_back(Seq::empty(), sheet_items(rs));
    assert(Seq::<char>::empty() + sheet_text(rs) =~= sheet_text(rs));
    assert forall|i: int| 0 <= i < rs.len() implies !((#[trigger] rs[i]).selector is Unknown) by {
        assert(writable_rule(rs[i]));
    }
    lemma_rules_read_back(rs);
}

/// The text of two streams, one behind the other, is the text of the first
/// and then that of the second.
pub proof fn lemma_items_text_concat(a: Seq<Item>, b: Seq<Item>)
    ensures
        items_text(a + b) == items_text(a) + items_text(b),
    decreases a.len(),
{
    if a.len() == 0 {
        assert(a + b =~= b);
        assert(items_text(a) + items_text(b) =~= items_text(b));
    } else {
        assert((a + b).drop_first() =~= a.drop_first() + b);
        lemma_items_text_concat(a.drop_first(), b);
        assert((a + b)[0] == a[0]);
        assert(items_text(a + b) =~= items_text(a) + items_text(b));
    }
}

/// The text of a stream of one token is the text of the token and a space.
pub proof fn lemma_items_text_one(item: Item)
    ensures
        items_text(seq![item]) == item_text(item) + seq![' '],
{
    let one = seq![item];
    assert(one.drop_first() =~= Seq::<Item>::empty());
    assert(items_text(one.drop_first()) =~= Seq::<char>::empty());
    assert(items_text(one) =~= item_text(item) + seq![' ']);
}

/// The tokens of declarations with one more at the end.
pub proof fn lemma_declarations_items_push(ds: Seq<DeclarationView>, d: DeclarationView)
    ensures
        declarations_items(ds.push(d)) == declarations_items(ds) + declaration_items(d),
    decreases ds.len(),
{
    let all = ds.push(d);
    if ds.len() == 0 {
        assert(all.drop_first() =~= Seq::<DeclarationView>::empty());
        assert(declarations_items(all.drop_first()) =~= Seq::<Item>::empty());
        assert(declarations_items(all) =~= declaration_items(d));
        assert(declarations_items(ds) + declaration_items(d) =~= declaration_items(d));
    } else {
        assert(all.drop_first() =~= ds.drop_first().push(d));
        lemma_declarations_items_push(ds.drop_first(), d);
        assert(all[0] == ds[0]);
        assert(declarations_items(all) =~= declarations_items(ds) + declaration_items(d));
    }
}

/// The tokens of rules with one more at the end.
pub proof fn lemma_sheet_items_push(rs: Seq<RuleView>, r: RuleView)
    ensures
        sheet_items(rs.push(r)) == sheet_items(rs) + rule_items(r),
    decreases rs.len(),
{
    let all = rs.push(r);
    if rs.len() == 0 {
        assert(all.drop_first() =~= Seq::<RuleView>::empty());
        assert(sheet_items(all.drop_first()) =~= Seq::<Item>::empty());
        assert(sheet_items(all) =~= rule_items(r));
        assert(sheet_items(rs) + rule_items(r) =~= rule_items(r));
    } else {
        assert(all.drop_first() =~= rs.drop_first().push(r));
        lemma_sheet_items_push(rs.drop_first(), r);
        assert(all[0] == rs[0]);
        assert(sheet_items(all) =~= sheet_items(rs) + rule_items(r));
    }
}

fn write_digits(out: &mut String, digits: &Vec<u8>)
    ensures
        final(out)@ == old(out)@ + digit_chars(digits@),
{
    let mut i: usize = 0;
    assert(out@ =~= old(out)@ + digit_chars(digits@.take(0)));
    while i < digits.len()
        invariant
            i <= digits@.len(),
            out@ == old(out)@ + digit_chars(digits@.take(i as int)),
        decreases digits@.len() - i,
    {
        let d: u8 = digits[i] % 10;
        out.push((48 + d) as char);
        assert(out@ =~= old(out)@ + digit_chars(digits@.take(i + 1)));
        i += 1;
    }
    assert(digits@.take(i as int) =~= digits@);
}

/// Writes the text of a token and a space behind it.
pub fn write_token(out: &mut String, token: &CssToken)
    ensures
        final(out)@ == old(out)@ + items_text(seq![Item::Tok(token@)]),
{
    proof {
        lemma_items_text_one(Item::Tok(token@));
    }
    match token {
        CssToken::HashToken(s) => {
            out.append(s.as_str());
        },
        CssToken::Delim(c) => {
            out.push(*c);
        },
        CssToken::Number(n) => {
            write_digits(out, &n.whole);
            if n.fraction.len() > 0 {
                out.push('.');
                write_digits(out, &n.fraction);
            }
        },
        CssToken::Colon => {
            out.push(':');
        },
        CssToken::SemiColon => {
            out.push(';');
        },
        CssToken::OpenParenthesis => {
            out.push('(');
        },
        CssToken::CloseParenthesis => {
            out.push(')');
        },
        CssToken::OpenCurly => {
            out.push('{');
        },
        CssToken::CloseCurly => {
            out.push('}');
        },
        CssToken::Ident(s) => {
            out.append(s.as_str());
        },
        CssToken::StringToken(s) => {
            out.push('"');
            out.append(s.as_str());
            out.push('"');
        },
        CssToken::AtKeyword(s) => {
            out.push('@');
            out.append(s.as_str());
        },
    }
    out.push(' ');
    assert(out@ =~= old(out)@ + (item_text(Item::Tok(token@)) + seq![' ']));
}

fn write_name(out: &mut String, name: &String)
    ensures
        final(out)@ == old(out)@ + items_text(seq![Item::Tok(Token::Ident(name@))]),
{
    proof {
        lemma_items_text_one(Item::Tok(Token::Ident(name@)));
    }
    out.append(name.as_str());
    out.push(' ');
    assert(out@ =~= old(out)@ + (name@ + seq![' ']));
}

fn write_selector(out: &mut String, selector: &Selector)
    ensures
        final(out)@ == old(out)@ + items_text(selector_items(selector@)),
{
    match selector {
        Selector::TypeSelector(name) => {
            write_name(out, name);
        },
        Selector::ClassSelector(name) => {
            write_token(out, &CssToken::Delim('.'));
            write_name(out, name);
            proof {
                let dot = seq![Item::Tok(Token::Delim('.'))];
                let ident = seq![Item::Tok(Token::Ident(name@))];
                lemma_items_text_concat(dot, ident);
                assert(dot + ident =~= selector_items(selector@));
                assert(out@ =~= old(out)@ + (items_text(dot) + items_text(ident)));
            }
        },
        Selector::IdSelector(name) => {
            proof {
                lemma_items_text_one(Item::Tok(Token::Hash(seq!['#'] + name@)));
            }
            out.push('#');
            out.append(name.as_str());
            out.push(' ');
            assert(out@ =~= old(out)@ + ((seq!['#'] + name@) + seq![' ']));
        },
        Selector::UnknownSelector => {
            assert(items_text(Seq::<Item>::empty()) =~= Seq::<char>::empty());
            assert(out@ =~= old(out)@ + Seq::<char>::empty());
        },
    }
}

fn write_declaration(out: &mut String, declaration: &Declaration)
    ensures
        final(out)@ == old(out)@ + items_text(declaration_items(declaration@)),
{
    write_name(out, &declaration.property);
    write_token(out, &CssToken::Colon);
    write_token(out, &declaration.value);
    write_token(out, &CssToken::SemiColon);
    proof {
        let a = seq![Item::Tok(Token::Ident(declaration@.property))];
        let b = seq![Item::Tok(Token::Colon)];
        let c = seq![Item::Tok(declaration@.value)];
        let d = seq![Item::Tok(Token::SemiColon)];
        lemma_items_text_concat(a, b);
        lemma_items_text_concat(a + b, c);
        lemma_items_text_concat(a + b + c, d);
        assert(a + b + c + d =~= declaration_items(declaration@));
        assert(out@ =~= old(out)@ + (items_text(a) + items_text(b) + items_text(c) + items_text(
            d,
        )));
    }
}

fn write_rule(out: &mut String, rule: &QualifiedRule)
    ensures
        final(out)@ == old(out)@ + items_text(rule_items(rule@)),
{
    let ghost open = seq![Item::Tok(Token::OpenCurly)];
    let ghost close = seq![Item::Tok(Token::CloseCurly)];
    let ghost head = selector_items(rule@.selector) + open;
    write_selector(out, &rule.selector);
    write_token(out, &CssToken::OpenCurly);
    proof {
        lemma_items_text_concat(selector_items(rule@.selector), open);
        assert(out@ =~= old(out)@ + items_text(head));
        assert(declarations_items(rule@.declarations.take(0)) =~= Seq::<Item>::empty());
        assert(items_text(Seq::<Item>::empty()) =~= Seq::<char>::empty());
        assert(out@ =~= old(out)@ + items_text(head) + items_text(
            declarations_items(rule@.declarations.take(0)),
        ));
    }
    let mut j: usize = 0;
    while j < rule.declarations.len()
        invariant
            j <= rule.declarations@.len(),
            out@ == old(out)@ + items_text(head) + items_text(
                declarations_items(rule@.declarations.take(j as int)),
            ),
        decreases rule.declarations@.len() - j,
    {
        let ghost done = rule@.declarations.take(j as int);
        write_declaration(out, &rule.declarations[j]);
        proof {
            let d = rule.declarations@[j as int]@;
            assert(rule@.declarations.take(j + 1) =~= done.push(d));
            lemma_declarations_items_push(done, d);
            lemma_items_text_concat(declarations_items(done), declaration_items(d));
            assert(out@ =~= old(out)@ + items_text(head) + (items_text(declarations_items(done))
                + items_text(declaration_items(d))));
        }
        j += 1;
    }
    write_token(out, &CssToken::CloseCurly);
    proof {
        assert(rule@.declarations.take(j as int) =~= rule@.declarations);
        let body = declarations_items(rule@.declarations);
        lemma_items_text_concat(head, body);
        lemma_items_text_concat(head + body, close);
        assert(head + body + close =~= rule_items(rule@));
        assert(out@ =~= old(out)@ + (items_text(head) + items_text(body) + items_text(close)));
    }
}

/// Writes a style sheet out: every token of every rule, a space behind each.
pub fn write_sheet(sheet: &StyleSheet) -> (out: String)
    ensures
        out@ == sheet_text(sheet@),
{
    let mut out = String::new();
    let mut i: usize = 0;
    proof {
        assert(sheet_items(sheet@.take(0)) =~= Seq::<Item>::empty());
        assert(items_text(Seq::<Item>::empty()) =~= Seq::<char>::empty());
    }
    while i < sheet.rules.len()
        invariant
            i <= sheet.rules@.len(),
            out@ == items_text(sheet_items(sheet@.take(i as int))),
        decreases sheet.rules@.len() - i,
    {
        let ghost done = sheet@.take(i as int);
        write_rule(&mut out, &sheet.rules[i]);
        proof {
            let r = sheet.rules@[i as int]@;
            assert(sheet@.take(i + 1) =~= done.push(r));
            lemma_sheet_items_push(done, r);
            lemma_items_text_concat(sheet_items(done), rule_items(r));
        }
        i += 1;
    }
    assert(sheet@.take(i as int) =~= sheet@);
    out
}

} // verus!
