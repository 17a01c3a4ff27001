//! Splits source text into tokens.
use vstd::prelude::*;
use crate::consts;
use crate::text::{is_digit, is_space, is_ascii_digit, is_whitespace, is_alphabetic, is_alphanumeric, unicode_alphabetic, unicode_alphanumeric, parse_int, parse_int_spec, IntParse, str_chars, text_is};
use crate::iter::{first_space, lemma_first_space_bounds};

verus! {

/// Why a character sequence is not a token.
#[derive(Debug, Clone, Copy, PartialEq, Eq, Structural)]
pub enum LexFault {
    /// A `'` that is not followed by one character and a closing `'`.
    BadCharLiteral,
    /// A character that starts no token.
    UnknownSymbol(char),
}

/// A token. Texts, identifiers and floating-point literals are given as the
/// positions `[start, end)` of their characters in the source.
#[derive(Debug, Clone, Copy, PartialEq, Eq, Structural)]
pub enum Token {
    Begin,
    End,
    Let,
    If,
    Else,
    While,
    For,
    In,
    Func,
    Inc,
    Dec,
    LBracket,
    RBracket,
    TypeNumber,
    TypeFloat,
    FatArrow,
    UnderScope,
    Match,
    TypeBool,
    TypeStr,
    TypeChar,
    Number(i64),
    Char(char),
    Float(usize, usize),
    Bool(bool),
    KwSome,
    KwOk,
    KwErr,
    KwNone,
    String(usize, usize),
    Ident(usize, usize),
    Assign,
    AssignOper(usize),
    Pow,
    Plus,
    Minus,
    Div,
    Arrow,
    Colon,
    Equal,
    Less,
    Greater,
    Mult,
    LessOrEqual,
    GreaterOrEqual,
    Mod,
    LogicalAnd,
    ArifmAnd,
    Or,
    ArifmOr,
    Not,
    NotEqual,
    LParen,
    RParen,
    Comma,
    Semicolon,
    Eof,
    Dot,
    DotDot,
    Loop,
    Break,
    Continue,
    Return,
    Query,
    TypeFile,
    TypeSet,
    TypeCat,
    TypeResult,
    Invalid(LexFault),
}

// ---------------------------------------------------------------------------
// The token grammar
// ---------------------------------------------------------------------------

/// `c` may start an identifier.
pub open spec fn ident_start(c: char) -> bool {
    unicode_alphabetic(c) || c == '_'
}

/// `c` may continue an identifier.
pub open spec fn ident_part(c: char) -> bool {
    unicode_alphanumeric(c) || c == '_'
}

/// Where a `//` comment whose text starts at `p` ends: just past its newline,
/// or at the end of the input.
pub open spec fn line_comment_end(s: Seq<char>, p: int) -> int
    decreases s.len() - p,
{
    if p >= s.len() {
        s.len() as int
    } else if s[p] == '\n' {
        p + 1
    } else {
        line_comment_end(s, p + 1)
    }
}

pub proof fn lemma_line_comment_end(s: Seq<char>, p: int)
    requires
        0 <= p <= s.len(),
    ensures
        p <= line_comment_end(s, p) <= s.len(),
    decreases s.len() - p,
{
    if p < s.len() && s[p] != '\n' {
        lemma_line_comment_end(s, p + 1);
    }
}

pub proof fn lemma_block_comment_end(s: Seq<char>, p: int, prev_star: bool)
    requires
        0 <= p <= s.len(),
    ensures
        p <= block_comment_end(s, p, prev_star) <= s.len(),
    decreases s.len() - p,
{
    if p < s.len() && !(prev_star && s[p] == '/') {
        lemma_block_comment_end(s, p + 1, s[p] == '*');
    }
}

/// Where a `/*` comment whose text starts at `p` ends: just past `*/`, or at
/// the end of the input.
pub open spec fn block_comment_end(s: Seq<char>, p: int, prev_star: bool) -> int
    decreases s.len() - p,
{
    if p >= s.len() {
        s.len() as int
    } else if prev_star && s[p] == '/' {
        p + 1
    } else {
        block_comment_end(s, p + 1, s[p] == '*')
    }
}

/// Where a number literal whose digits go on at `p` ends, and whether it has
/// a fractional part. A `.` belongs to the number only once, and only when a
/// digit follows it; `_` may separate digits.
pub open spec fn number_end(s: Seq<char>, p: int, is_float: bool) -> (int, bool)
    decreases s.len() - p,
{
    if p < 0 || p >= s.len() {
        (p, is_float)
    } else if is_digit(s[p]) || s[p] == '_' {
        number_end(s, p + 1, is_float)
    } else if s[p] == '.' && !is_float && p + 1 < s.len() && is_digit(s[p + 1]) {
        number_end(s, p + 1, true)
    } else {
        (p, is_float)
    }
}

/// The characters of `s` without its underscores.
pub open spec fn drop_underscores(s: Seq<char>) -> Seq<char>
    decreases s.len(),
{
    if s.len() == 0 {
        s
    } else if s.last() == '_' {
        drop_underscores(s.drop_last())
    } else {
        drop_underscores(s.drop_last()).push(s.last())
    }
}

/// The value of an integer literal: its digits read as an `i64`, or `0` when
/// they do not fit.
pub open spec fn literal_value(digits: Seq<char>) -> i64 {
    match parse_int_spec(drop_underscores(digits)) {
        IntParse::Value(v) => v,
        _ => 0,
    }
}

/// Where a string literal whose text starts at `p` closes: the position of
/// the closing `"`, or the end of the input. A `\` makes the next character
/// part of the text.
pub open spec fn string_end(s: Seq<char>, p: int, escaped: bool) -> int
    decreases s.len() - p,
{
    if p < 0 || p >= s.len() {
        s.len() as int
    } else if escaped {
        string_end(s, p + 1, false)
    } else if s[p] == '\\' {
        string_end(s, p + 1, true)
    } else if s[p] == '"' {
        p
    } else {
        string_end(s, p + 1, false)
    }
}

/// Where an identifier that goes on at `p` ends.
pub open spec fn ident_end(s: Seq<char>, p: int) -> int
    decreases s.len() - p,
{
    if p < 0 || p >= s.len() || !ident_part(s[p]) {
        p
    } else {
        ident_end(s, p + 1)
    }
}

/// The keyword a word stands for, if any.
pub open spec fn keyword(w: Seq<char>) -> Option<Token> {
    if w == "let"@ {
        Some(Token::Let)
    } else if w == "Ok"@ {
        Some(Token::KwOk)
    } else if w == "match"@ {
        Some(Token::Match)
    } else if w == "Some"@ {
        Some(Token::KwSome)
    } else if w == "Err"@ {
        Some(Token::KwErr)
    } else if w == "None"@ {
        Some(Token::KwNone)
    } else if w == "if"@ {
        Some(Token::If)
    } else if w == "else"@ {
        Some(Token::Else)
    } else if w == "while"@ {
        Some(Token::While)
    } else if w == "for"@ {
        Some(Token::For)
    } else if w == "fn"@ {
        Some(Token::Func)
    } else if w == "in"@ {
        Some(Token::In)
    } else if w == "Number"@ || w == "Num"@ {
        Some(Token::TypeNumber)
    } else if w == "Float"@ {
        Some(Token::TypeFloat)
    } else if w == "Bool"@ {
        Some(Token::TypeBool)
    } else if w == "Char"@ {
        Some(Token::TypeChar)
    } else if w == "Str"@ {
        Some(Token::TypeStr)
    } else if w == "true"@ || w == "True"@ {
        Some(Token::Bool(true))
    } else if w == "false"@ || w == "False"@ {
        Some(Token::Bool(false))
    } else if w == ".."@ {
        Some(Token::DotDot)
    } else {
        None
    }
}

/// `if_t` when the character at `k` is `c` (and it is consumed), else `else_t`.
pub open spec fn pick(s: Seq<char>, k: int, c: char, if_t: Token, else_t: Token) -> (Token, int) {
    if 0 <= k < s.len() && s[k] == c {
        (if_t, k + 1)
    } else {
        (else_t, k)
    }
}

/// Whether the character at `k` is `c`.
pub open spec fn at(s: Seq<char>, k: int, c: char) -> bool {
    0 <= k < s.len() && s[k] == c
}

/// The token made of the operator character `ch` at `k - 1`.
pub open spec fn lex_symbol(s: Seq<char>, ch: char, k: int) -> (Token, int) {
    if ch == ':' {
        (Token::Colon, k)
    } else if ch == '=' {
        if at(s, k, '=') {
            (Token::Equal, k + 1)
        } else if at(s, k, '>') {
            (Token::FatArrow, k + 1)
        } else {
            (Token::Assign, k)
        }
    } else if ch == '+' {
        if at(s, k, '=') {
            (Token::AssignOper(consts::ASSIGN_ADD), k + 1)
        } else if at(s, k, '+') {
            (Token::Inc, k + 1)
        } else {
            (Token::Plus, k)
        }
    } else if ch == '_' {
        (Token::UnderScope, k)
    } else if ch == '|' {
        pick(s, k, '|', Token::Or, Token::ArifmOr)
    } else if ch == '[' {
        (Token::LBracket, k)
    } else if ch == ']' {
        (Token::RBracket, k)
    } else if ch == '&' {
        pick(s, k, '&', Token::LogicalAnd, Token::ArifmAnd)
    } else if ch == '<' {
        pick(s, k, '=', Token::LessOrEqual, Token::Less)
    } else if ch == '^' {
        (Token::Pow, k)
    } else if ch == '>' {
        pick(s, k, '=', Token::GreaterOrEqual, Token::Greater)
    } else if ch == '{' {
        (Token::Begin, k)
    } else if ch == '}' {
        (Token::End, k)
    } else if ch == '%' {
        (Token::Mod, k)
    } else if ch == '(' {
        (Token::LParen, k)
    } else if ch == ')' {
        (Token::RParen, k)
    } else if ch == ',' {
        (Token::Comma, k)
    } else if ch == ';' {
        (Token::Semicolon, k)
    } else if ch == '*' {
        if at(s, k, '=') {
            (Token::AssignOper(consts::ASSIGN_MUL), k + 1)
        } else if at(s, k, '*') {
            (Token::Pow, k + 1)
        } else {
            (Token::Mult, k)
        }
    } else if ch == '-' {
        if at(s, k, '=') {
            (Token::AssignOper(consts::ASSIGN_SUB), k + 1)
        } else if at(s, k, '-') {
            (Token::Dec, k + 1)
        } else if at(s, k, '>') {
            (Token::Arrow, k + 1)
        } else {
            (Token::Minus, k)
        }
    } else if ch == '!' {
        pick(s, k, '=', Token::NotEqual, Token::Not)
    } else if ch == '.' {
        pick(s, k, '.', Token::DotDot, Token::Dot)
    } else {
        (Token::Invalid(LexFault::UnknownSymbol(ch)), k)
    }
}

/// The token that starts at or after position `i` of `s`, and the position
/// just after it. Whitespace and comments before it are skipped.
pub open spec fn lex(s: Seq<char>, i: int) -> (Token, int)
    decreases s.len() - i,
{
    let j = first_space(s, i, false);
    if i < 0 || j >= s.len() {
        (Token::Eof, s.len() as int)
    } else {
        let ch = s[j];
        let k = j + 1;
        if ch == '"' {
            let q = string_end(s, k, false);
            if q < s.len() {
                (Token::String(k as usize, q as usize), q + 1)
            } else {
                (Token::String(k as usize, s.len() as usize), s.len() as int)
            }
        } else if ch == '\'' {
            if k < s.len() && at(s, k + 1, '\'') {
                (Token::Char(s[k]), k + 2)
            } else if k < s.len() {
                (Token::Invalid(LexFault::BadCharLiteral), k + 1)
            } else {
                (Token::Invalid(LexFault::BadCharLiteral), k)
            }
        } else if is_digit(ch) {
            let (e, f) = number_end(s, k, false);
            if f {
                (Token::Float(j as usize, e as usize), e)
            } else {
                (Token::Number(literal_value(s.subrange(j, e))), e)
            }
        } else if ident_start(ch) {
            let e = ident_end(s, k);
            match keyword(s.subrange(j, e)) {
                Some(t) => (t, e),
                None => (Token::Ident(j as usize, e as usize), e),
            }
        } else if ch == '/' {
            if at(s, k, '/') {
                proof {
                    lemma_first_space_bounds(s, i, false);
                    lemma_line_comment_end(s, k + 1);
                }
                lex(s, line_comment_end(s, k + 1))
            } else if at(s, k, '*') {
                proof {
                    lemma_first_space_bounds(s, i, false);
                    lemma_block_comment_end(s, k + 1, false);
                }
                lex(s, block_comment_end(s, k + 1, false))
            } else {
                pick(s, k, '=', Token::AssignOper(consts::ASSIGN_DIV), Token::Div)
            }
        } else {
            lex_symbol(s, ch, k)
        }
    }
}

/// The positions a token carries lie within a text of `n` characters.
pub open spec fn token_ok(t: Token, n: nat) -> bool {
    match t {
        Token::Ident(a, b) => a <= b <= n,
        Token::String(a, b) => a <= b <= n,
        Token::Float(a, b) => a <= b <= n,
        Token::Number(v) => v >= 0,
        Token::AssignOper(k) => k <= consts::ASSIGN_DIV,
        _ => true,
    }
}

// ---------------------------------------------------------------------------
// Line and column
// ---------------------------------------------------------------------------

/// The number of newlines in `s`.
pub open spec fn newlines(s: Seq<char>) -> nat
    decreases s.len(),
{
    if s.len() == 0 {
        0
    } else {
        newlines(s.drop_last()) + if s.last() == '\n' { 1nat } else { 0nat }
    }
}

/// The number of characters after the last newline of `s`.
pub open spec fn column(s: Seq<char>) -> nat
    decreases s.len(),
{
    if s.len() == 0 {
        0
    } else if s.last() == '\n' {
        0
    } else {
        column(s.drop_last()) + 1
    }
}

pub proof fn lemma_newlines_bound(s: Seq<char>)
    ensures
        newlines(s) <= s.len(),
        column(s) <= s.len(),
    decreases s.len(),
{
    if s.len() > 0 {
        lemma_newlines_bound(s.drop_last());
    }
}

// ---------------------------------------------------------------------------
// The lexer
// ---------------------------------------------------------------------------

/// Reads tokens from a source text, keeping the line and column of the next
/// character.
pub struct Lexer {
    input: Vec<char>,
    idx: usize,
    pos: usize,
    line: usize,
}

impl Lexer {
    /// The source text.
    pub closed spec fn text(&self) -> Seq<char> {
        self.input@
    }

    /// The position of the next unread character.
    pub closed spec fn index(&self) -> int {
        self.idx as int
    }

    /// The line and column counters agree with what has been read.
    pub closed spec fn wf(&self) -> bool {
        &&& self.idx <= self.input.len()
        &&& self.line == newlines(self.input@.take(self.idx as int))
        &&& self.pos == column(self.input@.take(self.idx as int))
    }

    /// The source characters `[a, b)`.
    pub fn slice(&self, a: usize, b: usize) -> (r: Vec<char>)
        requires
            a <= b <= self.text().len(),
        ensures
            r@ == self.text().subrange(a as int, b as int),
    {
        crate::text::slice_text(&self.input, a, b)
    }

    /// A lexer at the start of `text`.
    pub fn new(text: &str) -> (r: Lexer)
        ensures
            r.wf(),
            r.text() == text@,
            r.index() == 0,
    {
        let input = str_chars(text);
        let r = Lexer { input, idx: 0, pos: 0, line: 0 };
        assert(r.input@.take(0) =~= Seq::<char>::empty());
        r
    }

    /// The line and the column of the next character, both counted from 0.
    pub fn get_pos(&self) -> (r: (usize, usize))
        requires
            self.wf(),
        ensures
            r.0 == newlines(self.text().take(self.index())),
            r.1 == column(self.text().take(self.index())),
    {
        (self.line, self.pos)
    }

    /// The next character without consuming it.
    pub fn peek(&self) -> (r: Option<char>)
        requires
            self.wf(),
        ensures
            match r {
                Some(c) => self.index() < self.text().len() && c == self.text()[self.index()],
                None => self.index() == self.text().len(),
            },
    {
        if self.idx < self.input.len() {
            Some(self.input[self.idx])
        } else {
            None
        }
    }

    /// Consumes the next character, giving its position and the character.
    pub fn bump(&mut self) -> (r: Option<(usize, char)>)
        requires
            old(self).wf(),
        ensures
            final(self).wf(),
            final(self).text() == old(self).text(),
            match r {
                Some((p, c)) => {
                    &&& old(self).index() < old(self).text().len()
                    &&& p == old(self).index()
                    &&& c == old(self).text()[p as int]
                    &&& final(self).index() == old(self).index() + 1
                },
                None => old(self).index() == old(self).text().len() && final(self).index() == old(
                    self,
                ).index(),
            },
    {
        if self.idx < self.input.len() {
            let p = self.idx;
            let c = self.input[p];
            proof {
                lemma_newlines_bound(self.input@.take(p as int));
                assert(self.input@.take(p + 1).drop_last() =~= self.input@.take(p as int));
            }
            self.idx = p + 1;
            if c == '\n' {
                self.pos = 0;
                self.line = self.line + 1;
            } else {
                self.pos = self.pos + 1;
            }
            Some((p, c))
        } else {
            None
        }
    }

    /// Consumes the next character and gives it.
    pub fn next(&mut self) -> (r: Option<char>)
        requires
            old(self).wf(),
        ensures
            final(self).wf(),
            final(self).text() == old(self).text(),
            match r {
                Some(c) => old(self).index() < old(self).text().len() && c == old(self).text()[old(
                    self,
                ).index()] && final(self).index() == old(self).index() + 1,
                None => old(self).index() == old(self).text().len() && final(self).index() == old(
                    self,
                ).index(),
            },
    {
        match self.bump() {
            Some((_, c)) => Some(c),
            None => None,
        }
    }

    /// The position of the next character (the end of the text when all is
    /// read).
    pub fn current_byte_pos(&self) -> (r: usize)
        requires
            self.wf(),
        ensures
            r == self.index(),
    {
        self.idx
    }

    /// Consumes the next character when it is `expected`.
    pub fn match_next(&mut self, expected: char) -> (r: bool)
        requires
            old(self).wf(),
        ensures
            final(self).wf(),
            final(self).text() == old(self).text(),
            r == at(old(self).text(), old(self).index(), expected),
            final(self).index() == if r { old(self).index() + 1 } else { old(self).index() },
    {
        match self.peek() {
            Some(c) => {
                if c == expected {
                    self.bump();
                    true
                } else {
                    false
                }
            },
            None => false,
        }
    }

    /// `if_t` when the next character is `expected` (consuming it), else
    /// `els_t`.
    pub fn match_mext_if_else(&mut self, expected: char, if_t: Token, els_t: Token) -> (r: Token)
        requires
            old(self).wf(),
        ensures
            final(self).wf(),
            final(self).text() == old(self).text(),
            (r, final(self).index()) == pick(old(self).text(), old(self).index(), expected, if_t, els_t),
    {
        if self.match_next(expected) {
            if_t
        } else {
            els_t
        }
    }

    /// Consumes whitespace.
    pub fn skip_whitespace(&mut self)
        requires
            old(self).wf(),
        ensures
            final(self).wf(),
            final(self).text() == old(self).text(),
            final(self).index() == first_space(old(self).text(), old(self).index(), false),
    {
        loop
            invariant
                self.wf(),
                self.text() == old(self).text(),
                old(self).index() <= self.index(),
                first_space(old(self).text(), old(self).index(), false) == first_space(
                    self.text(),
                    self.index(),
                    false,
                ),
            decreases self.text().len() - self.index(),
        {
            match self.peek() {
                Some(c) => {
                    if is_whitespace(c) {
                        self.bump();
                    } else {
                        return;
                    }
                },
                None => {
                    return;
                },
            }
        }
    }

    /// The next token.
    pub fn next_token(&mut self) -> (r: Token)
        requires
            old(self).wf(),
        ensures
            final(self).wf(),
            final(self).text() == old(self).text(),
            (r, final(self).index()) == lex(old(self).text(), old(self).index()),
            old(self).index() <= final(self).index() <= final(self).text().len(),
            r is Eof ==> final(self).index() == final(self).text().len(),
            !(r is Eof) ==> final(self).index() > old(self).index(),
            token_ok(r, final(self).text().len()),
        decreases old(self).text().len() - old(self).index(),
    {
        let ghost s = self.text();
        let ghost i = self.index();
        self.skip_whitespace();
        proof {
            lemma_first_space_bounds(s, i, false);
        }
        let (start_pos, ch) = match self.bump() {
            Some(res) => res,
            None => return Token::Eof,
        };
        if ch == '"' {
            return self.read_string(start_pos);
        } else if ch == '\'' {
            match self.next() {
                Some(c) => {
                    if self.match_next('\'') {
                        return Token::Char(c);
                    }
                    return Token::Invalid(LexFault::BadCharLiteral);
                },
                None => {
                    return Token::Invalid(LexFault::BadCharLiteral);
                },
            }
        }
        if is_ascii_digit(ch) {
            return self.read_number(start_pos);
        }
        if is_ident_start(ch) {
            return self.read_ident_or_keyword(start_pos);
        }
        if ch == '/' {
            if self.match_next('/') {
                loop
                    invariant_except_break
                        self.wf(),
                        self.text() == s,
                        s == old(self).text(),
                        start_pos + 2 <= self.index() <= s.len(),
                        line_comment_end(s, start_pos + 2) == line_comment_end(s, self.index()),
                    ensures
                        self.wf(),
                        self.text() == s,
                        s == old(self).text(),
                        start_pos + 2 <= self.index() <= s.len(),
                        self.index() == line_comment_end(s, start_pos + 2),
                    decreases s.len() - self.index(),
                {
                    match self.bump() {
                        Some((_, c)) => {
                            if c == '\n' {
                                break;
                            }
                        },
                        None => {
                            break;
                        },
                    }
                }
                return self.next_token();
            } else if self.match_next('*') {
                let mut prev_star = false;
                loop
                    invariant_except_break
                        self.wf(),
                        self.text() == s,
                        s == old(self).text(),
                        start_pos + 2 <= self.index() <= s.len(),
                        block_comment_end(s, start_pos + 2, false) == block_comment_end(
                            s,
                            self.index(),
                            prev_star,
                        ),
                    ensures
                        self.wf(),
                        self.text() == s,
                        s == old(self).text(),
                        start_pos + 2 <= self.index() <= s.len(),
                        self.index() == block_comment_end(s, start_pos + 2, false),
                    decreases s.len() - self.index(),
                {
                    match self.bump() {
                        Some((_, c)) => {
                            if prev_star && c == '/' {
                                break;
                            }
                            prev_star = c == '*';
                        },
                        None => {
                            break;
                        },
                    }
                }
                return self.next_token();
            } else {
                return self.match_mext_if_else('=', Token::AssignOper(consts::ASSIGN_DIV), Token::Div);
            }
        }
        self.lex_symbol(ch)
    }

    fn lex_symbol(&mut self, ch: char) -> (r: Token)
        requires
            old(self).wf(),
        ensures
            token_ok(r, final(self).text().len()),
            old(self).index() <= final(self).index() <= final(self).text().len(),
            final(self).wf(),
            final(self).text() == old(self).text(),
            (r, final(self).index()) == lex_symbol(old(self).text(), ch, old(self).index()),
    {
        if ch == ':' {
            Token::Colon
        } else if ch == '=' {
            if self.match_next('=') {
                Token::Equal
            } else if self.match_next('>') {
                Token::FatArrow
            } else {
                Token::Assign
            }
        } else if ch == '+' {
            if self.match_next('=') {
                Token::AssignOper(consts::ASSIGN_ADD)
            } else if self.match_next('+') {
                Token::Inc
            } else {
                Token::Plus
            }
        } else if ch == '_' {
            Token::UnderScope
        } else if ch == '|' {
            self.match_mext_if_else('|', Token::Or, Token::ArifmOr)
        } else if ch == '[' {
            Token::LBracket
        } else if ch == ']' {
            Token::RBracket
        } else if ch == '&' {
            self.match_mext_if_else('&', Token::LogicalAnd, Token::ArifmAnd)
        } else if ch == '<' {
            self.match_mext_if_else('=', Token::LessOrEqual, Token::Less)
        } else if ch == '^' {
            Token::Pow
        } else if ch == '>' {
            self.match_mext_if_else('=', Token::GreaterOrEqual, Token::Greater)
        } else if ch == '{' {
            Token::Begin
        } else if ch == '}' {
            Token::End
        } else if ch == '%' {
            Token::Mod
        } else if ch == '(' {
            Token::LParen
        } else if ch == ')' {
            Token::RParen
        } else if ch == ',' {
            Token::Comma
        } else if ch == ';' {
            Token::Semicolon
        } else if ch == '*' {
            if self.match_next('=') {
                Token::AssignOper(consts::ASSIGN_MUL)
            } else if self.match_next('*') {
                Token::Pow
            } else {
                Token::Mult
            }
        } else if ch == '-' {
            if self.match_next('=') {
                Token::AssignOper(consts::ASSIGN_SUB)
            } else if self.match_next('-') {
                Token::Dec
            } else if self.match_next('>') {
                Token::Arrow
            } else {
                Token::Minus
            }
        } else if ch == '!' {
            self.match_mext_if_else('=', Token::NotEqual, Token::Not)
        } else if ch == '.' {
            self.match_mext_if_else('.', Token::DotDot, Token::Dot)
        } else {
            Token::Invalid(LexFault::UnknownSymbol(ch))
        }
    }

    /// Reads the rest of a number literal whose first digit is at `start_pos`.
    fn read_number(&mut self, start_pos: usize) -> (r: Token)
        requires
            old(self).wf(),
            start_pos + 1 == old(self).index(),
            is_digit(old(self).text()[start_pos as int]),
        ensures
            token_ok(r, final(self).text().len()),
            old(self).index() <= final(self).index() <= final(self).text().len(),
            final(self).wf(),
            final(self).text() == old(self).text(),
            ({
                let (e, f) = number_end(old(self).text(), old(self).index(), false);
                &&& final(self).index() == e
                &&& r == (if f {
                    Token::Float(start_pos, e as usize)
                } else {
                    Token::Number(literal_value(old(self).text().subrange(start_pos as int, e)))
                })
            }),
    {
        let ghost s = self.text();
        let mut is_float = false;
        loop
            invariant
                self.wf(),
                self.text() == s,
                s == old(self).text(),
                old(self).index() <= self.index() <= s.len(),
                number_end(s, old(self).index() as int, false) == number_end(s, self.index(), is_float),
                start_pos + 1 == old(self).index(),
                forall|j: int| start_pos <= j < self.index() ==> s[j] != '-',
            ensures
                self.wf(),
                self.text() == s,
                old(self).index() <= self.index() <= s.len(),
                number_end(s, old(self).index() as int, false) == (self.index(), is_float),
                forall|j: int| start_pos <= j < self.index() ==> s[j] != '-',
            decreases s.len() - self.index(),
        {
            match self.peek() {
                Some(ch) => {
                    if is_ascii_digit(ch) || ch == '_' {
                        self.bump();
                    } else if ch == '.' {
                        if is_float {
                            break;
                        }
                        if self.idx + 1 < self.input.len() && is_ascii_digit(self.input[self.idx + 1]) {
                            is_float = true;
                            self.bump();
                        } else {
                            break;
                        }
                    } else {
                        break;
                    }
                },
                None => {
                    break;
                },
            }
        }
        let end_pos = self.current_byte_pos();
        if is_float {
            return Token::Float(start_pos, end_pos);
        }
        // The digits without their underscores.
        let mut digits: Vec<char> = Vec::new();
        let mut k = start_pos;
        while k < end_pos
            invariant
                start_pos <= k <= end_pos <= s.len(),
                self.text() == s,
                s == old(self).text(),
                digits@ == drop_underscores(s.subrange(start_pos as int, k as int)),
                forall|j: int| start_pos <= j < end_pos ==> s[j] != '-',
                forall|j: int| 0 <= j < digits@.len() ==> digits@[j] != '-',
            decreases end_pos - k,
        {
            let c = self.input[k];
            proof {
                assert(s.subrange(start_pos as int, k + 1).drop_last() =~= s.subrange(start_pos as int, k as int));
            }
            if c != '_' {
                digits.push(c);
            }
            k = k + 1;
        }
        match parse_int(&digits) {
            IntParse::Value(v) => Token::Number(v),
            _ => Token::Number(0),
        }
    }

    /// Reads the rest of a string literal whose opening `"` is at `start_pos`.
    fn read_string(&mut self, start_pos: usize) -> (r: Token)
        requires
            old(self).wf(),
            start_pos + 1 == old(self).index(),
        ensures
            token_ok(r, final(self).text().len()),
            old(self).index() <= final(self).index() <= final(self).text().len(),
            final(self).wf(),
            final(self).text() == old(self).text(),
            ({
                let s = old(self).text();
                let q = string_end(s, old(self).index(), false);
                if q < s.len() {
                    r == Token::String((start_pos + 1) as usize, q as usize) && final(self).index() == q + 1
                } else {
                    r == Token::String((start_pos + 1) as usize, s.len() as usize) && final(self).index() == s.len()
                }
            }),
    {
        let ghost s = self.text();
        let mut skip_next = false;
        loop
            invariant
                self.wf(),
                self.text() == s,
                s == old(self).text(),
                old(self).index() <= self.index() <= s.len(),
                start_pos + 1 == old(self).index(),
                s.len() <= usize::MAX,
                string_end(s, old(self).index() as int, false) == string_end(s, self.index(), skip_next),
            ensures
                self.wf(),
                self.text() == s,
                self.index() == s.len(),
                string_end(s, old(self).index() as int, false) == s.len(),
            decreases s.len() - self.index(),
        {
            match self.bump() {
                Some((_, c)) => {
                    if skip_next {
                        skip_next = false;
                    } else if c == '\\' {
                        skip_next = true;
                    } else if c == '"' {
                        let end_pos = self.current_byte_pos();
                        return Token::String(start_pos + 1, end_pos - 1);
                    }
                },
                None => {
                    break;
                },
            }
        }
        Token::String(start_pos + 1, self.current_byte_pos())
    }

    /// Reads the rest of an identifier or keyword that starts at `start_pos`.
    fn read_ident_or_keyword(&mut self, start_pos: usize) -> (r: Token)
        requires
            old(self).wf(),
            start_pos + 1 == old(self).index(),
        ensures
            token_ok(r, final(self).text().len()),
            old(self).index() <= final(self).index() <= final(self).text().len(),
            final(self).wf(),
            final(self).text() == old(self).text(),
            ({
                let s = old(self).text();
                let e = ident_end(s, old(self).index());
                &&& final(self).index() == e
                &&& r == match keyword(s.subrange(start_pos as int, e)) {
                    Some(t) => t,
                    None => Token::Ident(start_pos, e as usize),
                }
            }),
    {
        let ghost s = self.text();
        loop
            invariant
                self.wf(),
                self.text() == s,
                s == old(self).text(),
                old(self).index() <= self.index() <= s.len(),
                ident_end(s, old(self).index() as int) == ident_end(s, self.index()),
            ensures
                self.wf(),
                self.text() == s,
                old(self).index() <= self.index() <= s.len(),
                ident_end(s, old(self).index() as int) == self.index(),
            decreases s.len() - self.index(),
        {
            match self.peek() {
                Some(c) => {
                    if is_ident_part(c) {
                        self.bump();
                    } else {
                        break;
                    }
                },
                None => {
                    break;
                },
            }
        }
        let end = self.current_byte_pos();
        let w = crate::text::slice_text(&self.input, start_pos, end);
        keyword_token(&w, start_pos, end)
    }
}

/// The keyword token for the word `w`, or an identifier token for `[a, b)`.
fn keyword_token(w: &Vec<char>, a: usize, b: usize) -> (r: Token)
    ensures
        r == match keyword(w@) {
            Some(t) => t,
            None => Token::Ident(a, b),
        },
{
    if text_is(w, "let") {
        Token::Let
    } else if text_is(w, "Ok") {
        Token::KwOk
    } else if text_is(w, "match") {
        Token::Match
    } else if text_is(w, "Some") {
        Token::KwSome
    } else if text_is(w, "Err") {
        Token::KwErr
    } else if text_is(w, "None") {
        Token::KwNone
    } else if text_is(w, "if") {
        Token::If
    } else if text_is(w, "else") {
        Token::Else
    } else if text_is(w, "while") {
        Token::While
    } else if text_is(w, "for") {
        Token::For
    } else if text_is(w, "fn") {
        Token::Func
    } else if text_is(w, "in") {
        Token::In
    } else if text_is(w, "Number") || text_is(w, "Num") {
        Token::TypeNumber
    } else if text_is(w, "Float") {
        Token::TypeFloat
    } else if text_is(w, "Bool") {
        Token::TypeBool
    } else if text_is(w, "Char") {
        Token::TypeChar
    } else if text_is(w, "Str") {
        Token::TypeStr
    } else if text_is(w, "true") || text_is(w, "True") {
        Token::Bool(true)
    } else if text_is(w, "false") || text_is(w, "False") {
        Token::Bool(false)
    } else if text_is(w, "..") {
        Token::DotDot
    } else {
        Token::Ident(a, b)
    }
}

/// `c` may start an identifier.
pub fn is_ident_start(c: char) -> (r: bool)
    ensures
        r == ident_start(c),
{
    is_alphabetic(c) || c == '_'
}

/// `c` may continue an identifier.
pub fn is_ident_part(c: char) -> (r: bool)
    ensures
        r == ident_part(c),
{
    is_alphanumeric(c) || c == '_'
}

} // verus!
