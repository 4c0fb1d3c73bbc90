//! The CSS tokenizer: a single cursor over the characters of a style text.

use vstd::prelude::*;
use crate::text::{chars_of, string_of};

verus! {

/// The classes of characters that the tokenizer scans runs of.
#[derive(Debug, Clone, Copy)]
pub enum CharClass {
    /// A space or a newline.
    Space,
    /// An ASCII digit.
    Digit,
    /// An ASCII digit or a dot.
    Numeric,
    /// A letter, a digit, `-` or `_`.
    Name,
    /// Anything but a quote of either kind.
    Unquoted,
}

pub open spec fn is_digit(c: char) -> bool {
    '0' <= c && c <= '9'
}

pub open spec fn is_letter(c: char) -> bool {
    ('a' <= c && c <= 'z') || ('A' <= c && c <= 'Z')
}

pub open spec fn in_class(c: char, k: CharClass) -> bool {
    match k {
        CharClass::Space => c == ' ' || c == '\n',
        CharClass::Digit => is_digit(c),
        CharClass::Numeric => is_digit(c) || c == '.',
        CharClass::Name => is_letter(c) || is_digit(c) || c == '-' || c == '_',
        CharClass::Unquoted => c != '"' && c != '\'',
    }
}

/// The end of the run of characters of class `k` that starts at `from`: the
/// first index at or after `from` whose character is not of that class, or
/// the length of `s`.
pub open spec fn run_end(s: Seq<char>, from: int, k: CharClass) -> int
    decreases s.len() - from,
{
    if from < 0 || from >= s.len() {
        s.len() as int
    } else if !in_class(s[from], k) {
        from
    } else {
        run_end(s, from + 1, k)
    }
}

/// A run ends at or after its start and within the text.
pub proof fn lemma_run_end_bounds(s: Seq<char>, from: int, k: CharClass)
    requires
        0 <= from <= s.len(),
    ensures
        from <= run_end(s, from, k) <= s.len(),
    decreases s.len() - from,
{
    if from < s.len() && in_class(s[from], k) {
        lemma_run_end_bounds(s, from + 1, k);
    }
}

/// The value of an ASCII digit.
pub open spec fn digit_value(c: char) -> u8 {
    (c as int - '0' as int) as u8
}

/// The values of the digits among `s`, in order; other characters are passed over.
pub open spec fn digits_of(s: Seq<char>) -> Seq<u8>
    decreases s.len(),
{
    if s.len() == 0 {
        Seq::empty()
    } else if is_digit(s.last()) {
        digits_of(s.drop_last()).push(digit_value(s.last()))
    } else {
        digits_of(s.drop_last())
    }
}

/// Whether `c` is alphabetic in Unicode's sense, as `char::is_alphabetic` decides it.
pub uninterp spec fn alphabetic(c: char) -> bool;

/// `char::is_alphabetic`: a function of the character alone, named here
/// rather than restated.
#[verifier::external_body]
fn is_alphabetic(c: char) -> (b: bool)
    ensures
        b == alphabetic(c),
{
    c.is_alphabetic()
}

/// An unsigned decimal number as the tokenizer read it: the digits before
/// the first dot, and the digits behind it. Each entry is a digit's value.
#[derive(Debug, Clone, PartialEq)]
pub struct CssNumber {
    pub whole: Vec<u8>,
    pub fraction: Vec<u8>,
}

#[derive(Debug, Clone, PartialEq)]
pub enum CssToken {
    /// A `#` and the name behind it; the text keeps the `#`.
    HashToken(String),
    Delim(char),
    Number(CssNumber),
    Colon,
    SemiColon,
    OpenParenthesis,
    CloseParenthesis,
    OpenCurly,
    CloseCurly,
    Ident(String),
    StringToken(String),
    AtKeyword(String),
}

/// What a `CssToken` stands for.
pub enum Token {
    Hash(Seq<char>),
    Delim(char),
    Number(Seq<u8>, Seq<u8>),
    Colon,
    SemiColon,
    OpenParenthesis,
    CloseParenthesis,
    OpenCurly,
    CloseCurly,
    Ident(Seq<char>),
    Str(Seq<char>),
    AtKeyword(Seq<char>),
}

impl View for CssToken {
    type V = Token;

    open spec fn view(&self) -> Token {
        match self {
            CssToken::HashToken(s) => Token::Hash(s@),
            CssToken::Delim(c) => Token::Delim(*c),
            CssToken::Number(n) => Token::Number(n.whole@, n.fraction@),
            CssToken::Colon => Token::Colon,
            CssToken::SemiColon => Token::SemiColon,
            CssToken::OpenParenthesis => Token::OpenParenthesis,
            CssToken::CloseParenthesis => Token::CloseParenthesis,
            CssToken::OpenCurly => Token::OpenCurly,
            CssToken::CloseCurly => Token::CloseCurly,
            CssToken::Ident(s) => Token::Ident(s@),
            CssToken::StringToken(s) => Token::Str(s@),
            CssToken::AtKeyword(s) => Token::AtKeyword(s@),
        }
    }
}

impl CssToken {
    /// A token that stands for the same as this one.
    pub fn copy(&self) -> (r: CssToken)
        ensures
            r@ == self@,
    {
        match self {
            CssToken::HashToken(s) => CssToken::HashToken(s.clone()),
            CssToken::Delim(c) => CssToken::Delim(*c),
            CssToken::Number(n) => CssToken::Number(
                CssNumber { whole: copy_digits(&n.whole), fraction: copy_digits(&n.fraction) },
            ),
            CssToken::Colon => CssToken::Colon,
            CssToken::SemiColon => CssToken::SemiColon,
            CssToken::OpenParenthesis => CssToken::OpenParenthesis,
            CssToken::CloseParenthesis => CssToken::CloseParenthesis,
            CssToken::OpenCurly => CssToken::OpenCurly,
            CssToken::CloseCurly => CssToken::CloseCurly,
            CssToken::Ident(s) => CssToken::Ident(s.clone()),
            CssToken::StringToken(s) => CssToken::StringToken(s.clone()),
            CssToken::AtKeyword(s) => CssToken::AtKeyword(s.clone()),
        }
    }
}

fn copy_digits(v: &Vec<u8>) -> (r: Vec<u8>)
    ensures
        r@ == v@,
{
    let mut r: Vec<u8> = Vec::new();
    let mut i: usize = 0;
    while i < v.len()
        invariant
            i <= v@.len(),
            r@ == v@.subrange(0, i as int),
        decreases v@.len() - i,
    {
        r.push(v[i]);
        i += 1;
        assert(r@ =~= v@.subrange(0, i as int));
    }
    assert(v@.subrange(0, v@.len() as int) =~= v@);
    r
}

/// Why a style text could not be read to its end.
#[derive(Debug, Clone, Copy, PartialEq, Eq)]
pub enum CssError {
    /// The tokenizer met a character that starts no token.
    UnsupportedChar(char),
    /// The parser needed an identifier, or met a delimiter where a selector starts.
    UnexpectedToken,
    /// The parser needed a token and the text had ended.
    UnexpectedEnd,
}

/// What the tokenizer finds from a position on.
pub enum Lexed {
    /// Only spaces are left.
    End,
    /// A token, and the index behind it.
    Token(Token, int),
    /// A character that starts no token, and its index.
    Unsupported(char, int),
}

/// Whether the `@` at `q` starts an at-keyword: three alphabetic characters follow it.
pub open spec fn at_keyword_starts(s: Seq<char>, q: int) -> bool {
    &&& q + 3 < s.len()
    &&& is_letter(s[q + 1])
    &&& alphabetic(s[q + 2])
    &&& alphabetic(s[q + 3])
}

/// The token that starts at `q`, where `s[q]` is no space.
pub open spec fn lex_at(s: Seq<char>, q: int) -> Lexed {
    let c = s[q];
    if c == '(' {
        Lexed::Token(Token::OpenParenthesis, q + 1)
    } else if c == ')' {
        Lexed::Token(Token::CloseParenthesis, q + 1)
    } else if c == ',' || c == '.' {
        Lexed::Token(Token::Delim(c), q + 1)
    } else if c == ':' {
        Lexed::Token(Token::Colon, q + 1)
    } else if c == ';' {
        Lexed::Token(Token::SemiColon, q + 1)
    } else if c == '{' {
        Lexed::Token(Token::OpenCurly, q + 1)
    } else if c == '}' {
        Lexed::Token(Token::CloseCurly, q + 1)
    } else if c == '"' || c == '\'' {
        let e = run_end(s, q + 1, CharClass::Unquoted);
        Lexed::Token(
            Token::Str(s.subrange(q + 1, e)),
            if e < s.len() {
                e + 1
            } else {
                e
            },
        )
    } else if is_digit(c) {
        let w = run_end(s, q, CharClass::Digit);
        let e = run_end(s, w, CharClass::Numeric);
        Lexed::Token(Token::Number(digits_of(s.subrange(q, w)), digits_of(s.subrange(w, e))), e)
    } else if c == '#' {
        let e = run_end(s, q + 1, CharClass::Name);
        Lexed::Token(Token::Hash(s.subrange(q, e)), e)
    } else if c == '@' {
        if at_keyword_starts(s, q) {
            let e = run_end(s, q + 2, CharClass::Name);
            Lexed::Token(Token::AtKeyword(s.subrange(q + 1, e)), e)
        } else {
            Lexed::Token(Token::Delim('@'), q + 1)
        }
    } else if c == '-' || c == '_' || is_letter(c) {
        let e = run_end(s, q + 1, CharClass::Name);
        Lexed::Token(Token::Ident(s.subrange(q, e)), e)
    } else {
        Lexed::Unsupported(c, q)
    }
}

/// What the tokenizer finds from `p` on: spaces are skipped first.
pub open spec fn lex(s: Seq<char>, p: int) -> Lexed {
    let q = run_end(s, p, CharClass::Space);
    if q >= s.len() {
        Lexed::End
    } else {
        lex_at(s, q)
    }
}

/// A token ends behind the position it was looked for from, and within the text.
pub proof fn lemma_lex_advances(s: Seq<char>, p: int)
    requires
        0 <= p <= s.len(),
    ensures
        match lex(s, p) {
            Lexed::End => true,
            Lexed::Token(_, e) => p < e <= s.len(),
            Lexed::Unsupported(_, q) => p <= q < s.len(),
        },
{
    let q = run_end(s, p, CharClass::Space);
    lemma_run_end_bounds(s, p, CharClass::Space);
    if q < s.len() {
        lemma_run_end_bounds(s, q + 1, CharClass::Unquoted);
        lemma_run_end_bounds(s, q + 1, CharClass::Name);
        lemma_run_end_bounds(s, q + 1, CharClass::Digit);
        lemma_run_end_bounds(s, run_end(s, q, CharClass::Digit), CharClass::Numeric);
        if q + 2 <= s.len() {
            lemma_run_end_bounds(s, q + 2, CharClass::Name);
        }
    }
}

fn has_class(c: char, k: CharClass) -> (b: bool)
    ensures
        b == in_class(c, k),
{
    let digit = '0' <= c && c <= '9';
    let letter = ('a' <= c && c <= 'z') || ('A' <= c && c <= 'Z');
    match k {
        CharClass::Space => c == ' ' || c == '\n',
        CharClass::Digit => digit,
        CharClass::Numeric => digit || c == '.',
        CharClass::Name => letter || digit || c == '-' || c == '_',
        CharClass::Unquoted => c != '"' && c != '\'',
    }
}

fn scan(v: &Vec<char>, from: usize, k: CharClass) -> (i: usize)
    requires
        from <= v@.len(),
    ensures
        i == run_end(v@, from as int, k),
        from <= i <= v@.len(),
{
    let mut i: usize = from;
    while i < v.len() && has_class(v[i], k)
        invariant
            from <= i <= v@.len(),
            run_end(v@, from as int, k) == run_end(v@, i as int, k),
        decreases v@.len() - i,
    {
        i += 1;
    }
    i
}

fn collect_digits(v: &Vec<char>, from: usize, to: usize) -> (r: Vec<u8>)
    requires
        from <= to <= v@.len(),
    ensures
        r@ == digits_of(v@.subrange(from as int, to as int)),
{
    let mut r: Vec<u8> = Vec::new();
    let mut i: usize = from;
    while i < to
        invariant
            from <= i <= to <= v@.len(),
            r@ == digits_of(v@.subrange(from as int, i as int)),
        decreases to - i,
    {
        let c = v[i];
        proof {
            let next = v@.subrange(from as int, i + 1);
            assert(next.drop_last() =~= v@.subrange(from as int, i as int));
            assert(next.last() == c);
        }
        if '0' <= c && c <= '9' {
            r.push((c as u32 - '0' as u32) as u8);
        }
        i += 1;
    }
    r
}

/// A cursor over the characters of a style text.
#[derive(Debug, Clone, PartialEq)]
pub struct CssTokenizer {
    pos: usize,
    input: Vec<char>,
}

impl CssTokenizer {
    /// The characters of the text.
    pub closed spec fn input(&self) -> Seq<char> {
        self.input@
    }

    /// The index of the next character to read.
    pub closed spec fn pos(&self) -> int {
        self.pos as int
    }

    /// The cursor stands within the text or at its end.
    pub open spec fn wf(&self) -> bool {
        0 <= self.pos() <= self.input().len()
    }

    /// A cursor at the start of `css`.
    pub fn new(css: String) -> (t: Self)
        ensures
            t.wf(),
            t.input() == css@,
            t.pos() == 0,
    {
        Self { pos: 0, input: chars_of(css.as_str()) }
    }

    /// Reads the next token and moves behind it. `Ok(None)` says that the
    /// text has ended; an unsupported character is reported and the cursor
    /// stays on it.
    pub fn next(&mut self) -> (r: Result<Option<CssToken>, CssError>)
        requires
            old(self).wf(),
        ensures
            final(self).wf(),
            final(self).input() == old(self).input(),
            match lex(old(self).input(), old(self).pos()) {
                Lexed::End => r == Ok::<Option<CssToken>, CssError>(None) && final(self).pos()
                    == old(self).input().len(),
                Lexed::Token(t, e) => r is Ok && r->Ok_0 is Some && r->Ok_0->Some_0@ == t
                    && final(self).pos() == e,
                Lexed::Unsupported(c, q) => r == Err::<Option<CssToken>, CssError>(
                    CssError::UnsupportedChar(c),
                ) && final(self).pos() == q,
            },
    {
        let n: usize = self.input.len();
        let q: usize = scan(&self.input, self.pos, CharClass::Space);
        self.pos = q;
        if q >= n {
            return Ok(None);
        }
        let c = self.input[q];
        let letter = ('a' <= c && c <= 'z') || ('A' <= c && c <= 'Z');
        if c == '(' {
            self.pos = q + 1;
            Ok(Some(CssToken::OpenParenthesis))
        } else if c == ')' {
            self.pos = q + 1;
            Ok(Some(CssToken::CloseParenthesis))
        } else if c == ',' || c == '.' {
            self.pos = q + 1;
            Ok(Some(CssToken::Delim(c)))
        } else if c == ':' {
            self.pos = q + 1;
            Ok(Some(CssToken::Colon))
        } else if c == ';' {
            self.pos = q + 1;
            Ok(Some(CssToken::SemiColon))
        } else if c == '{' {
            self.pos = q + 1;
            Ok(Some(CssToken::OpenCurly))
        } else if c == '}' {
            self.pos = q + 1;
            Ok(Some(CssToken::CloseCurly))
        } else if c == '"' || c == '\'' {
            let value = self.consume_string_token();
            Ok(Some(CssToken::StringToken(value)))
        } else if '0' <= c && c <= '9' {
            let value = self.consume_numeric_token();
            Ok(Some(CssToken::Number(value)))
        } else if c == '#' {
            let value = self.consume_ident_token();
            Ok(Some(CssToken::HashToken(value)))
        } else if c == '@' {
            if n - q > 3 && self.starts_at_keyword() {
                self.pos = q + 1;
                let value = self.consume_ident_token();
                Ok(Some(CssToken::AtKeyword(value)))
            } else {
                self.pos = q + 1;
                Ok(Some(CssToken::Delim('@')))
            }
        } else if c == '-' || c == '_' || letter {
            let value = self.consume_ident_token();
            Ok(Some(CssToken::Ident(value)))
        } else {
            Err(CssError::UnsupportedChar(c))
        }
    }

    /// Whether the three characters behind the cursor are alphabetic.
    fn starts_at_keyword(&self) -> (b: bool)
        requires
            self.pos + 3 < self.input@.len(),
        ensures
            b == at_keyword_starts(self.input@, self.pos as int),
    {
        let n: usize = self.input.len();
        let a = self.input[self.pos + 1];
        (('a' <= a && a <= 'z') || ('A' <= a && a <= 'Z')) && is_alphabetic(
            self.input[self.pos + 2],
        ) && is_alphabetic(self.input[self.pos + 3])
    }

    /// Reads a string whose opening quote is under the cursor: the text up to
    /// the next quote of either kind, or up to the end. The cursor moves
    /// behind the closing quote.
    fn consume_string_token(&mut self) -> (s: String)
        requires
            old(self).pos < old(self).input@.len(),
        ensures
            final(self).input == old(self).input,
            old(self).pos < final(self).pos <= old(self).input@.len(),
            s@ == old(self).input@.subrange(
                old(self).pos + 1,
                run_end(old(self).input@, old(self).pos + 1, CharClass::Unquoted),
            ),
            final(self).pos == ({
                let e = run_end(old(self).input@, old(self).pos + 1, CharClass::Unquoted);
                if e < old(self).input@.len() {
                    e + 1
                } else {
                    e
                }
            }),
    {
        let n: usize = self.input.len();
        let start: usize = self.pos + 1;
        let e: usize = scan(&self.input, start, CharClass::Unquoted);
        let s = string_of(&self.input, start, e);
        self.pos = if e < n {
            e + 1
        } else {
            e
        };
        s
    }

    /// Reads a number whose first digit is under the cursor: digits up to the
    /// first dot, then digits and dots. The cursor moves to the first
    /// character that is neither.
    fn consume_numeric_token(&mut self) -> (r: CssNumber)
        requires
            old(self).pos <= old(self).input@.len(),
        ensures
            final(self).input == old(self).input,
            old(self).pos <= final(self).pos <= old(self).input@.len(),
            final(self).pos == run_end(
                old(self).input@,
                run_end(old(self).input@, old(self).pos as int, CharClass::Digit),
                CharClass::Numeric,
            ),
            r.whole@ == digits_of(
                old(self).input@.subrange(
                    old(self).pos as int,
                    run_end(old(self).input@, old(self).pos as int, CharClass::Digit),
                ),
            ),
            r.fraction@ == digits_of(
                old(self).input@.subrange(
                    run_end(old(self).input@, old(self).pos as int, CharClass::Digit),
                    final(self).pos as int,
                ),
            ),
    {
        let w: usize = scan(&self.input, self.pos, CharClass::Digit);
        let e: usize = scan(&self.input, w, CharClass::Numeric);
        let whole = collect_digits(&self.input, self.pos, w);
        let fraction = collect_digits(&self.input, w, e);
        self.pos = e;
        CssNumber { whole, fraction }
    }

    /// Reads a name whose first character is under the cursor: that character
    /// whatever it is, then letters, digits, `-` and `_`. The cursor moves to
    /// the first character that is none of these.
    fn consume_ident_token(&mut self) -> (s: String)
        requires
            old(self).pos < old(self).input@.len(),
        ensures
            final(self).input == old(self).input,
            old(self).pos < final(self).pos <= old(self).input@.len(),
            final(self).pos == run_end(old(self).input@, old(self).pos + 1, CharClass::Name),
            s@ == old(self).input@.subrange(old(self).pos as int, final(self).pos as int),
    {
        let n: usize = self.input.len();
        let e: usize = scan(&self.input, self.pos + 1, CharClass::Name);
        let s = string_of(&self.input, self.pos, e);
        self.pos = e;
        s
    }
}

} // verus!
