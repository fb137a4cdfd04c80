//! The lexer of the toy language: characters in, tokens with their line and
//! column out.
#![allow(clippy::upper_case_acronyms)]
use vstd::prelude::*;

use crate::text::{
    CharClass, char_debug, chars_eq_str, chars_of, classify_all, class_of, dec_text,
    parse_i32_digits, parse_unsigned_i32, push_char_debug, push_dec_i64, push_str, push_str_debug,
    str_debug, string_of,
};

verus! {

#[derive(Debug, PartialEq, Clone)]
pub enum TokenKind {
    RoundBracketOpen,
    RoundBracketClose,
    SquareBracketOpen,
    SquareBracketClose,
    CurlyBracketOpen,
    CurlyBracketClose,
    NumberInteger(i32),
    StringLiteral(String),
    CharLiteral(char),
    Ptr,
    OpAdd,
    OpSub,
    OpMul,
    OpDiv,
    OpRem,
    OpNot,
    OpEq,
    OpNotEq,
    OpGreaterOrEq,
    OpLessOrEq,
    OpGreaterThan,
    OpLessThan,
    OpShiftLeft,
    OpShiftRight,
    OpInc,
    OpDec,
    OpAnd,
    OpOr,
    OpBitAnd,
    OpBitOr,
    OpXor,
    Variable(String),
    Semicolon,
    Comma,
    Assign,
    Colon,
    If,
    Else,
    While,
    For,
    True,
    False,
    Cout,
    Cin,
    I32Type,
    Return,
    Function,
    Arrow,
    EOF,
}

/// A token kind with its text payloads as character sequences.
pub enum SKind {
    RoundBracketOpen,
    RoundBracketClose,
    SquareBracketOpen,
    SquareBracketClose,
    CurlyBracketOpen,
    CurlyBracketClose,
    NumberInteger(i32),
    StringLiteral(Seq<char>),
    CharLiteral(char),
    Ptr,
    OpAdd,
    OpSub,
    OpMul,
    OpDiv,
    OpRem,
    OpNot,
    OpEq,
    OpNotEq,
    OpGreaterOrEq,
    OpLessOrEq,
    OpGreaterThan,
    OpLessThan,
    OpShiftLeft,
    OpShiftRight,
    OpInc,
    OpDec,
    OpAnd,
    OpOr,
    OpBitAnd,
    OpBitOr,
    OpXor,
    Variable(Seq<char>),
    Semicolon,
    Comma,
    Assign,
    Colon,
    If,
    Else,
    While,
    For,
    True,
    False,
    Cout,
    Cin,
    I32Type,
    Return,
    Function,
    Arrow,
    EOF,
}

impl View for TokenKind {
    type V = SKind;

    open spec fn view(&self) -> SKind {
        match self {
            TokenKind::RoundBracketOpen => SKind::RoundBracketOpen,
            TokenKind::RoundBracketClose => SKind::RoundBracketClose,
            TokenKind::SquareBracketOpen => SKind::SquareBracketOpen,
            TokenKind::SquareBracketClose => SKind::SquareBracketClose,
            TokenKind::CurlyBracketOpen => SKind::CurlyBracketOpen,
            TokenKind::CurlyBracketClose => SKind::CurlyBracketClose,
            TokenKind::NumberInteger(n) => SKind::NumberInteger(*n),
            TokenKind::StringLiteral(s) => SKind::StringLiteral(s@),
            TokenKind::CharLiteral(c) => SKind::CharLiteral(*c),
            TokenKind::Ptr => SKind::Ptr,
            TokenKind::OpAdd => SKind::OpAdd,
            TokenKind::OpSub => SKind::OpSub,
            TokenKind::OpMul => SKind::OpMul,
            TokenKind::OpDiv => SKind::OpDiv,
            TokenKind::OpRem => SKind::OpRem,
            TokenKind::OpNot => SKind::OpNot,
            TokenKind::OpEq => SKind::OpEq,
            TokenKind::OpNotEq => SKind::OpNotEq,
            TokenKind::OpGreaterOrEq => SKind::OpGreaterOrEq,
            TokenKind::OpLessOrEq => SKind::OpLessOrEq,
            TokenKind::OpGreaterThan => SKind::OpGreaterThan,
            TokenKind::OpLessThan => SKind::OpLessThan,
            TokenKind::OpShiftLeft => SKind::OpShiftLeft,
            TokenKind::OpShiftRight => SKind::OpShiftRight,
            TokenKind::OpInc => SKind::OpInc,
            TokenKind::OpDec => SKind::OpDec,
            TokenKind::OpAnd => SKind::OpAnd,
            TokenKind::OpOr => SKind::OpOr,
            TokenKind::OpBitAnd => SKind::OpBitAnd,
            TokenKind::OpBitOr => SKind::OpBitOr,
            TokenKind::OpXor => SKind::OpXor,
            TokenKind::Variable(s) => SKind::Variable(s@),
            TokenKind::Semicolon => SKind::Semicolon,
            TokenKind::Comma => SKind::Comma,
            TokenKind::Assign => SKind::Assign,
            TokenKind::Colon => SKind::Colon,
            TokenKind::If => SKind::If,
            TokenKind::Else => SKind::Else,
            TokenKind::While => SKind::While,
            TokenKind::For => SKind::For,
            TokenKind::True => SKind::True,
            TokenKind::False => SKind::False,
            TokenKind::Cout => SKind::Cout,
            TokenKind::Cin => SKind::Cin,
            TokenKind::I32Type => SKind::I32Type,
            TokenKind::Return => SKind::Return,
            TokenKind::Function => SKind::Function,
            TokenKind::Arrow => SKind::Arrow,
            TokenKind::EOF => SKind::EOF,
        }
    }
}

#[derive(Debug, PartialEq, Clone)]
pub struct Token {
    pub kind: TokenKind,
    pub line: usize,
    pub col: usize,
}

/// A token as a mathematical value.
pub struct SToken {
    pub kind: SKind,
    pub line: int,
    pub col: int,
}

impl View for Token {
    type V = SToken;

    open spec fn view(&self) -> SToken {
        SToken { kind: self.kind@, line: self.line as int, col: self.col as int }
    }
}

/// The tokens of a vector as mathematical values.
pub open spec fn tokens_view(ts: Seq<Token>) -> Seq<SToken> {
    ts.map_values(|t: Token| t@)
}

#[derive(Debug)]
#[allow(dead_code)]
pub enum LexerError {
    InvalidNumber(String),
    UnexpectedChar(char),
    UnexpectedEOF,
}

// ---------------------------------------------------------------------------
// The lexing relation
// ---------------------------------------------------------------------------

/// The line and column (both from 1) of character `p`: a newline moves to
/// column 1 of the next line, any other character one column right.
pub open spec fn line_col(cs: Seq<char>, p: int) -> (int, int)
    decreases p,
{
    if p <= 0 {
        (1, 1)
    } else {
        let (l, c) = line_col(cs, p - 1);
        if cs[p - 1] == '\n' {
            (l + 1, 1)
        } else {
            (l, c + 1)
        }
    }
}

/// The runs of characters that the lexer reads in one go.
pub enum Run {
    /// the rest of a `//` comment, up to the newline
    Comment,
    /// letters, digits and '_' of an identifier
    Ident,
    /// ASCII hexadecimal digits
    Hex,
    /// binary digits
    Bin,
    /// Unicode numeric characters of a decimal literal
    Numeric,
}

pub open spec fn is_ascii_hex(c: char) -> bool {
    ('0' <= c && c <= '9') || ('a' <= c && c <= 'f') || ('A' <= c && c <= 'F')
}

pub open spec fn in_run(kind: Run, c: char, class: CharClass) -> bool {
    match kind {
        Run::Comment => c != '\n',
        Run::Ident => class.alphabetic || class.numeric || c == '_',
        Run::Hex => is_ascii_hex(c),
        Run::Bin => c == '0' || c == '1',
        Run::Numeric => class.numeric,
    }
}

/// The first index from `q` on (or the end) whose character is not in the run.
pub open spec fn run_end(cs: Seq<char>, cl: Seq<CharClass>, q: int, kind: Run) -> int
    decreases cs.len() - q,
{
    if 0 <= q < cs.len() && in_run(kind, cs[q], cl[q]) {
        run_end(cs, cl, q + 1, kind)
    } else {
        q
    }
}

/// What an escape `\c` stands for in a character or string literal.
pub open spec fn unescape(c: char) -> char {
    if c == 'n' {
        '\n'
    } else if c == 't' {
        '\t'
    } else {
        c
    }
}

/// The body of a string literal from `q` on (after the opening quote): the
/// position after it and its text, or nothing where a `\` ends the input.
/// A missing closing quote ends the literal at the end of the input.
pub open spec fn scan_string(cs: Seq<char>, q: int, acc: Seq<char>) -> Option<(int, Seq<char>)>
    decreases cs.len() - q,
{
    if q >= cs.len() || q < 0 {
        Some((cs.len() as int, acc))
    } else if cs[q] == '"' {
        Some((q + 1, acc))
    } else if cs[q] == '\\' {
        if q + 1 >= cs.len() {
            None
        } else {
            scan_string(cs, q + 2, acc.push(unescape(cs[q + 1])))
        }
    } else {
        scan_string(cs, q + 1, acc.push(cs[q]))
    }
}

/// The kind of a word: a keyword, or else a name.
pub open spec fn keyword_kind(w: Seq<char>) -> SKind {
    if w == "if"@ {
        SKind::If
    } else if w == "else"@ {
        SKind::Else
    } else if w == "while"@ {
        SKind::While
    } else if w == "for"@ {
        SKind::For
    } else if w == "true"@ {
        SKind::True
    } else if w == "false"@ {
        SKind::False
    } else if w == "return"@ {
        SKind::Return
    } else if w == "fn"@ {
        SKind::Function
    } else if w == "cout"@ {
        SKind::Cout
    } else if w == "cin"@ {
        SKind::Cin
    } else if w == "i32"@ {
        SKind::I32Type
    } else if w == "ptr"@ {
        SKind::Ptr
    } else {
        SKind::Variable(w)
    }
}

/// Whether `w` is one of the language's keywords.
pub open spec fn is_keyword(w: Seq<char>) -> bool {
    w == "if"@ || w == "else"@ || w == "while"@ || w == "for"@ || w == "true"@ || w == "false"@ || w == "return"@ || w == "fn"@ || w == "cout"@ || w == "cin"@ || w == "i32"@ || w == "ptr"@
}

/// Each keyword lexes to a token kind of its own, which no other word
/// gives; every other word is a name, of itself.
pub proof fn lemma_keyword_kinds(w: Seq<char>)
    ensures
        (keyword_kind(w) == SKind::If) == (w == "if"@),
        (keyword_kind(w) == SKind::Else) == (w == "else"@),
        (keyword_kind(w) == SKind::While) == (w == "while"@),
        (keyword_kind(w) == SKind::For) == (w == "for"@),
        (keyword_kind(w) == SKind::True) == (w == "true"@),
        (keyword_kind(w) == SKind::False) == (w == "false"@),
        (keyword_kind(w) == SKind::Return) == (w == "return"@),
        (keyword_kind(w) == SKind::Function) == (w == "fn"@),
        (keyword_kind(w) == SKind::Cout) == (w == "cout"@),
        (keyword_kind(w) == SKind::Cin) == (w == "cin"@),
        (keyword_kind(w) == SKind::I32Type) == (w == "i32"@),
        (keyword_kind(w) == SKind::Ptr) == (w == "ptr"@),
        (keyword_kind(w) is Variable) == !is_keyword(w),
        !is_keyword(w) ==> keyword_kind(w) == SKind::Variable(w),
{
    reveal_strlit("if");
    reveal_strlit("else");
    reveal_strlit("while");
    reveal_strlit("for");
    reveal_strlit("true");
    reveal_strlit("false");
    reveal_strlit("return");
    reveal_strlit("fn");
    reveal_strlit("cout");
    reveal_strlit("cin");
    reveal_strlit("i32");
    reveal_strlit("ptr");
    assert("if"@.len() != "else"@.len());
    assert("if"@.len() != "while"@.len());
    assert("if"@.len() != "for"@.len());
    assert("if"@.len() != "true"@.len());
    assert("if"@.len() != "false"@.len());
    assert("if"@.len() != "return"@.len());
    assert("if"@[0] != "fn"@[0]);
    assert("if"@.len() != "cout"@.len());
    assert("if"@.len() != "cin"@.len());
    assert("if"@.len() != "i32"@.len());
    assert("if"@.len() != "ptr"@.len());
    assert("else"@.len() != "while"@.len());
    assert("else"@.len() != "for"@.len());
    assert("else"@[0] != "true"@[0]);
    assert("else"@.len() != "false"@.len());
    assert("else"@.len() != "return"@.len());
    assert("else"@.len() != "fn"@.len());
    assert("else"@[0] != "cout"@[0]);
    assert("else"@.len() != "cin"@.len());
    assert("else"@.len() != "i32"@.len());
    assert("else"@.len() != "ptr"@.len());
    assert("while"@.len() != "for"@.len());
    assert("while"@.len() != "true"@.len());
    assert("while"@[0] != "false"@[0]);
    assert("while"@.len() != "return"@.len());
    assert("while"@.len() != "fn"@.len());
    assert("while"@.len() != "cout"@.len());
    assert("while"@.len() != "cin"@.len());
    assert("while"@.len() != "i32"@.len());
    assert("while"@.len() != "ptr"@.len());
    assert("for"@.len() != "true"@.len());
    assert("for"@.len() != "false"@.len());
    assert("for"@.len() != "return"@.len());
    assert("for"@.len() != "fn"@.len());
    assert("for"@.len() != "cout"@.len());
    assert("for"@[0] != "cin"@[0]);
    assert("for"@[0] != "i32"@[0]);
    assert("for"@[0] != "ptr"@[0]);
    assert("true"@.len() != "false"@.len());
    assert("true"@.len() != "return"@.len());
    assert("true"@.len() != "fn"@.len());
    assert("true"@[0] != "cout"@[0]);
    assert("true"@.len() != "cin"@.len());
    assert("true"@.len() != "i32"@.len());
    assert("true"@.len() != "ptr"@.len());
    assert("false"@.len() != "return"@.len());
    assert("false"@.len() != "fn"@.len());
    assert("false"@.len() != "cout"@.len());
    assert("false"@.len() != "cin"@.len());
    assert("false"@.len() != "i32"@.len());
    assert("false"@.len() != "ptr"@.len());
    assert("return"@.len() != "fn"@.len());
    assert("return"@.len() != "cout"@.len());
    assert("return"@.len() != "cin"@.len());
    assert("return"@.len() != "i32"@.len());
    assert("return"@.len() != "ptr"@.len());
    assert("fn"@.len() != "cout"@.len());
    assert("fn"@.len() != "cin"@.len());
    assert("fn"@.len() != "i32"@.len());
    assert("fn"@.len() != "ptr"@.len());
    assert("cout"@.len() != "cin"@.len());
    assert("cout"@.len() != "i32"@.len());
    assert("cout"@.len() != "ptr"@.len());
    assert("cin"@[0] != "i32"@[0]);
    assert("cin"@[0] != "ptr"@[0]);
    assert("i32"@[0] != "ptr"@[0]);
}

/// Different words lex to different token kinds.
pub proof fn lemma_keyword_kind_injective(w1: Seq<char>, w2: Seq<char>)
    ensures
        keyword_kind(w1) == keyword_kind(w2) ==> w1 == w2,
{
    lemma_keyword_kinds(w1);
    lemma_keyword_kinds(w2);
}

/// One step of the lexer at a character.
pub enum LexStep {
    /// nothing to emit; go on at the position
    Skip(int),
    /// emit a token of this kind and go on at the position
    Emit(int, SKind),
    /// stop with an error message
    Fail(Seq<char>),
    /// the input is one on which lexing aborts (a literal cut off by the end
    /// of the input, or a number that is not a valid `i32`)
    Fault,
}

pub open spec fn next_is(cs: Seq<char>, p: int, c: char) -> bool {
    p + 1 < cs.len() && cs[p + 1] == c
}

pub open spec fn number_step(cs: Seq<char>, from: int, to: int, radix: int) -> LexStep {
    match parse_unsigned_i32(cs.subrange(from, to), radix) {
        Some(v) => LexStep::Emit(to, SKind::NumberInteger(v)),
        None => LexStep::Fault,
    }
}

/// What the lexer does at character `p` (which exists).
pub open spec fn lex_step(cs: Seq<char>, cl: Seq<CharClass>, p: int) -> LexStep {
    let c = cs[p];
    if cl[p].whitespace {
        LexStep::Skip(p + 1)
    } else if c == '(' {
        LexStep::Emit(p + 1, SKind::RoundBracketOpen)
    } else if c == ')' {
        LexStep::Emit(p + 1, SKind::RoundBracketClose)
    } else if c == '{' {
        LexStep::Emit(p + 1, SKind::CurlyBracketOpen)
    } else if c == '}' {
        LexStep::Emit(p + 1, SKind::CurlyBracketClose)
    } else if c == '[' {
        LexStep::Emit(p + 1, SKind::SquareBracketOpen)
    } else if c == ']' {
        LexStep::Emit(p + 1, SKind::SquareBracketClose)
    } else if c == ';' {
        LexStep::Emit(p + 1, SKind::Semicolon)
    } else if c == ',' {
        LexStep::Emit(p + 1, SKind::Comma)
    } else if c == ':' {
        LexStep::Emit(p + 1, SKind::Colon)
    } else if c == '*' {
        LexStep::Emit(p + 1, SKind::OpMul)
    } else if c == '%' {
        LexStep::Emit(p + 1, SKind::OpRem)
    } else if c == '^' {
        LexStep::Emit(p + 1, SKind::OpXor)
    } else if c == '+' {
        if next_is(cs, p, '+') {
            LexStep::Emit(p + 2, SKind::OpInc)
        } else {
            LexStep::Emit(p + 1, SKind::OpAdd)
        }
    } else if c == '-' {
        if next_is(cs, p, '>') {
            LexStep::Emit(p + 2, SKind::Arrow)
        } else if next_is(cs, p, '-') {
            LexStep::Emit(p + 2, SKind::OpDec)
        } else {
            LexStep::Emit(p + 1, SKind::OpSub)
        }
    } else if c == '/' {
        if next_is(cs, p, '/') {
            LexStep::Skip(run_end(cs, cl, p + 1, Run::Comment))
        } else {
            LexStep::Emit(p + 1, SKind::OpDiv)
        }
    } else if c == '=' {
        if next_is(cs, p, '=') {
            LexStep::Emit(p + 2, SKind::OpEq)
        } else {
            LexStep::Emit(p + 1, SKind::Assign)
        }
    } else if c == '>' {
        if next_is(cs, p, '=') {
            LexStep::Emit(p + 2, SKind::OpGreaterOrEq)
        } else if next_is(cs, p, '>') {
            LexStep::Emit(p + 2, SKind::OpShiftRight)
        } else {
            LexStep::Emit(p + 1, SKind::OpGreaterThan)
        }
    } else if c == '<' {
        if next_is(cs, p, '=') {
            LexStep::Emit(p + 2, SKind::OpLessOrEq)
        } else if next_is(cs, p, '<') {
            LexStep::Emit(p + 2, SKind::OpShiftLeft)
        } else {
            LexStep::Emit(p + 1, SKind::OpLessThan)
        }
    } else if c == '!' {
        if next_is(cs, p, '=') {
            LexStep::Emit(p + 2, SKind::OpNotEq)
        } else {
            LexStep::Emit(p + 1, SKind::OpNot)
        }
    } else if c == '&' {
        if next_is(cs, p, '&') {
            LexStep::Emit(p + 2, SKind::OpAnd)
        } else {
            LexStep::Emit(p + 1, SKind::OpBitAnd)
        }
    } else if c == '|' {
        if next_is(cs, p, '|') {
            LexStep::Emit(p + 2, SKind::OpOr)
        } else {
            LexStep::Emit(p + 1, SKind::OpBitOr)
        }
    } else if c == '\'' {
        // the character after the value is taken as the closing quote,
        // whatever it is, if there is one
        if p + 1 >= cs.len() {
            LexStep::Fault
        } else if cs[p + 1] == '\\' {
            if p + 2 >= cs.len() {
                LexStep::Fault
            } else {
                LexStep::Emit(
                    if p + 4 <= cs.len() { p + 4 } else { cs.len() as int },
                    SKind::CharLiteral(unescape(cs[p + 2])),
                )
            }
        } else {
            LexStep::Emit(
                if p + 3 <= cs.len() { p + 3 } else { cs.len() as int },
                SKind::CharLiteral(cs[p + 1]),
            )
        }
    } else if c == '"' {
        match scan_string(cs, p + 1, Seq::empty()) {
            Some((q, s)) => LexStep::Emit(q, SKind::StringLiteral(s)),
            None => LexStep::Fault,
        }
    } else if cl[p].alphabetic || c == '_' {
        let e = run_end(cs, cl, p, Run::Ident);
        LexStep::Emit(e, keyword_kind(cs.subrange(p, e)))
    } else if cl[p].numeric {
        if c == '0' && (next_is(cs, p, 'x') || next_is(cs, p, 'X')) {
            number_step(cs, p + 2, run_end(cs, cl, p + 2, Run::Hex), 16)
        } else if c == '0' && (next_is(cs, p, 'b') || next_is(cs, p, 'B')) {
            number_step(cs, p + 2, run_end(cs, cl, p + 2, Run::Bin), 2)
        } else {
            number_step(cs, p, run_end(cs, cl, p + 1, Run::Numeric), 10)
        }
    } else {
        LexStep::Fail("Unexpected char: "@.push(c))
    }
}

/// The outcome of lexing.
pub enum LexOutcome {
    /// the tokens, ending with `EOF`
    Tokens(Seq<SToken>),
    /// the error message, and the position after the offending character
    Error(Seq<char>, int),
    /// an input on which lexing aborts
    Fault,
}

pub open spec fn token_at(cs: Seq<char>, p: int, kind: SKind) -> SToken {
    SToken { kind, line: line_col(cs, p).0, col: line_col(cs, p).1 }
}

/// Lexing from position `p` with the tokens `acc` already produced.
pub open spec fn lex_from(cs: Seq<char>, cl: Seq<CharClass>, p: int, acc: Seq<SToken>) -> LexOutcome
    decreases cs.len() - p,
{
    if p < 0 || p >= cs.len() {
        LexOutcome::Tokens(acc.push(token_at(cs, p, SKind::EOF)))
    } else {
        match lex_step(cs, cl, p) {
            LexStep::Skip(q) => if p < q <= cs.len() {
                lex_from(cs, cl, q, acc)
            } else {
                LexOutcome::Fault
            },
            LexStep::Emit(q, k) => if p < q <= cs.len() {
                lex_from(cs, cl, q, acc.push(token_at(cs, p, k)))
            } else {
                LexOutcome::Fault
            },
            LexStep::Fail(m) => LexOutcome::Error(m, p + 1),
            LexStep::Fault => LexOutcome::Fault,
        }
    }
}

/// Lexing a whole text whose characters have the classes `cl`.
pub open spec fn lex(cs: Seq<char>, cl: Seq<CharClass>) -> LexOutcome {
    lex_from(cs, cl, 0, Seq::empty())
}

/// The classes that std gives the characters of `cs`.
pub open spec fn classes_of(cs: Seq<char>) -> Seq<CharClass> {
    cs.map_values(|c: char| class_of(c))
}


/// A successful lexing keeps the tokens produced so far and ends with an
/// `EOF` token.
pub proof fn lemma_lex_ends_with_eof(cs: Seq<char>, cl: Seq<CharClass>, p: int, acc: Seq<SToken>)
    ensures
        lex_from(cs, cl, p, acc) matches LexOutcome::Tokens(ts) ==> ts.len() > acc.len()
            && ts.subrange(0, acc.len() as int) == acc && ts.last().kind == SKind::EOF,
    decreases cs.len() - p,
{
    if p < 0 || p >= cs.len() {
        let ts = acc.push(token_at(cs, p, SKind::EOF));
        assert(ts.subrange(0, acc.len() as int) =~= acc);
    } else {
        match lex_step(cs, cl, p) {
            LexStep::Skip(q) => {
                if p < q <= cs.len() {
                    lemma_lex_ends_with_eof(cs, cl, q, acc);
                }
            },
            LexStep::Emit(q, k) => {
                if p < q <= cs.len() {
                    let acc2 = acc.push(token_at(cs, p, k));
                    lemma_lex_ends_with_eof(cs, cl, q, acc2);
                    if let LexOutcome::Tokens(ts) = lex_from(cs, cl, q, acc2) {
                        assert(ts.subrange(0, acc.len() as int) =~= ts.subrange(0, acc2.len() as int).subrange(0, acc.len() as int));
                    }
                }
            },
            _ => {},
        }
    }
}

/// Whether position `a` (line, column) comes before position `b`.
pub open spec fn pos_before(a: (int, int), b: (int, int)) -> bool {
    a.0 < b.0 || (a.0 == b.0 && a.1 < b.1)
}

/// A name token's name is nonempty and no keyword.
pub open spec fn name_ok(k: SKind) -> bool {
    match k {
        SKind::Variable(s) => s.len() > 0 && keyword_kind(s) == SKind::Variable(s),
        _ => true,
    }
}

/// The position of a token.
pub open spec fn token_pos(t: SToken) -> (int, int) {
    (t.line, t.col)
}

/// The tokens of a lexing: positions strictly increasing in reading
/// order, `EOF` only last, and every name nonempty and no keyword.
pub open spec fn tokens_well_placed(ts: Seq<SToken>) -> bool {
    &&& forall|i: int, j: int| 0 <= i < j < ts.len() ==> pos_before(token_pos(#[trigger] ts[i]), token_pos(#[trigger] ts[j]))
    &&& forall|i: int| 0 <= i < ts.len() ==> (#[trigger] ts[i]).kind != SKind::EOF
    &&& forall|i: int| 0 <= i < ts.len() ==> name_ok((#[trigger] ts[i]).kind)
}

/// Reading a character moves the position forward.
proof fn lemma_line_col_increases(cs: Seq<char>, p: int, q: int)
    requires
        0 <= p < q,
    ensures
        pos_before(line_col(cs, p), line_col(cs, q)),
    decreases q,
{
    if p < q - 1 {
        lemma_line_col_increases(cs, p, q - 1);
    }
}

/// What a step emits is neither `EOF` nor an empty name or a keyword taken
/// as a name.
proof fn lemma_step_kind(cs: Seq<char>, cl: Seq<CharClass>, p: int)
    requires
        0 <= p < cs.len(),
        cl.len() == cs.len(),
    ensures
        lex_step(cs, cl, p) matches LexStep::Emit(q, k) ==> k != SKind::EOF && (p < q ==> name_ok(k)),
{
    let e = run_end(cs, cl, p, Run::Ident);
    lemma_run_end_bounds(cs, cl, p, Run::Ident);
    let w = cs.subrange(p, e);
    if let SKind::Variable(s) = keyword_kind(w) {
        assert(s == w);
        assert(keyword_kind(s) == SKind::Variable(s));
    }
}

/// Lexing on from `p`, after tokens that are well placed and all before
/// `p`, gives well placed tokens and then `EOF` at the end of the text.
proof fn lemma_lex_from_placed(cs: Seq<char>, cl: Seq<CharClass>, p: int, acc: Seq<SToken>)
    requires
        0 <= p <= cs.len(),
        cl.len() == cs.len(),
        tokens_well_placed(acc),
        forall|i: int| 0 <= i < acc.len() ==> pos_before(token_pos(#[trigger] acc[i]), line_col(cs, p)),
    ensures
        lex_from(cs, cl, p, acc) matches LexOutcome::Tokens(ts) ==> ts.len() >= 1
            && tokens_well_placed(ts.drop_last()) && ts.last() == token_at(cs, cs.len() as int, SKind::EOF)
            && (forall|i: int| 0 <= i < ts.len() - 1 ==> pos_before(token_pos(#[trigger] ts[i]), token_pos(ts.last()))),
    decreases cs.len() - p,
{
    if p >= cs.len() {
        let ts = acc.push(token_at(cs, p, SKind::EOF));
        assert(ts.drop_last() =~= acc);
    } else {
        lemma_step_kind(cs, cl, p);
        match lex_step(cs, cl, p) {
            LexStep::Skip(q) => {
                if p < q <= cs.len() {
                    assert forall|i: int| 0 <= i < acc.len() implies pos_before(token_pos(#[trigger] acc[i]), line_col(cs, q)) by {
                        lemma_line_col_increases(cs, p, q);
                    }
                    lemma_lex_from_placed(cs, cl, q, acc);
                }
            },
            LexStep::Emit(q, k) => {
                if p < q <= cs.len() {
                    let acc2 = acc.push(token_at(cs, p, k));
                    lemma_line_col_increases(cs, p, q);
                    assert forall|i: int| 0 <= i < acc2.len() implies pos_before(token_pos(#[trigger] acc2[i]), line_col(cs, q)) by {
                        if i < acc.len() {
                            assert(acc2[i] == acc[i]);
                        }
                    }
                    assert(tokens_well_placed(acc2)) by {
                        assert forall|i: int, j: int| 0 <= i < j < acc2.len() implies pos_before(token_pos(#[trigger] acc2[i]), token_pos(#[trigger] acc2[j])) by {
                            assert(acc2[i] == acc[i]);
                        }
                        assert forall|i: int| 0 <= i < acc2.len() implies (#[trigger] acc2[i]).kind != SKind::EOF by {
                            if i < acc.len() {
                                assert(acc2[i] == acc[i]);
                            }
                        }
                        assert forall|i: int| 0 <= i < acc2.len() implies name_ok((#[trigger] acc2[i]).kind) by {
                            if i < acc.len() {
                                assert(acc2[i] == acc[i]);
                            }
                        }
                    }
                    lemma_lex_from_placed(cs, cl, q, acc2);
                }
            },
            _ => {},
        }
    }
}

/// Whether a token can start with character `c` of class `class`: it is
/// white space, a letter, a digit, '_', or a bracket, a punctuation mark,
/// an operator or a quote of the language.
pub open spec fn may_start_token(c: char, class: CharClass) -> bool {
    class.whitespace || class.alphabetic || class.numeric || c == '_' || is_punct(c)
}

/// A bracket, punctuation mark, operator character or quote of the
/// language.
pub open spec fn is_punct(c: char) -> bool {
    c == '(' || c == ')' || c == '{' || c == '}' || c == '[' || c == ']' || c == ';' || c == ','
        || c == ':' || c == '*' || c == '%' || c == '^' || c == '+' || c == '-' || c == '/' || c
        == '=' || c == '<' || c == '>' || c == '!' || c == '&' || c == '|' || c == '\'' || c == '"'
}

/// Lexing from `p` stops with an error only at a character that cannot
/// start a token, and the message names it.
proof fn lemma_lex_from_error(cs: Seq<char>, cl: Seq<CharClass>, p: int, acc: Seq<SToken>)
    requires
        cl.len() == cs.len(),
    ensures
        lex_from(cs, cl, p, acc) matches LexOutcome::Error(m, q) ==> p < q <= cs.len()
            && !may_start_token(cs[q - 1], cl[q - 1]) && m == "Unexpected char: "@.push(cs[q - 1]),
    decreases cs.len() - p,
{
    if 0 <= p < cs.len() {
        match lex_step(cs, cl, p) {
            LexStep::Skip(q) => if p < q <= cs.len() {
                lemma_lex_from_error(cs, cl, q, acc);
            },
            LexStep::Emit(q, k) => if p < q <= cs.len() {
                lemma_lex_from_error(cs, cl, q, acc.push(token_at(cs, p, k)));
            },
            _ => {},
        }
    }
}

/// Lexing stops with an error exactly at a character that cannot start a
/// token, reached where a token would start, and says which; a text whose
/// every character can start a token is never refused.
pub proof fn lemma_lex_error_at_stray_char(cs: Seq<char>, cl: Seq<CharClass>)
    requires
        cl.len() == cs.len(),
    ensures
        lex(cs, cl) matches LexOutcome::Error(m, q) ==> 0 < q <= cs.len() && !may_start_token(
            cs[q - 1],
            cl[q - 1],
        ) && m == "Unexpected char: "@.push(cs[q - 1]),
        (forall|i: int| 0 <= i < cs.len() ==> may_start_token(#[trigger] cs[i], cl[i])) ==> !(lex(
            cs,
            cl,
        ) is Error),
{
    lemma_lex_from_error(cs, cl, 0, Seq::empty());
}

/// Whether lexing from `p` comes to a token start at `i`: `i` is `p`, or
/// the step at `p` skips or emits and lexing goes on to reach `i`.  The
/// token starts are the positions outside comments and literals where the
/// lexer looks for the next token.
pub open spec fn reaches(cs: Seq<char>, cl: Seq<CharClass>, p: int, i: int) -> bool
    decreases cs.len() - p,
{
    0 <= p < cs.len() && (p == i || match lex_step(cs, cl, p) {
        LexStep::Skip(q) => p < q <= cs.len() && reaches(cs, cl, q, i),
        LexStep::Emit(q, _) => p < q <= cs.len() && reaches(cs, cl, q, i),
        _ => false,
    })
}

/// A step fails exactly at a character that cannot start a token.
proof fn lemma_step_fails(cs: Seq<char>, cl: Seq<CharClass>, p: int)
    requires
        0 <= p < cs.len(),
    ensures
        (lex_step(cs, cl, p) is Fail) == !may_start_token(cs[p], cl[p]),
        !may_start_token(cs[p], cl[p]) ==> lex_step(cs, cl, p) == LexStep::Fail(
            "Unexpected char: "@.push(cs[p]),
        ),
{
}

/// Lexing from `p` is refused exactly when it comes to a token start whose
/// character cannot start a token; then the error names that character and
/// points after it.
proof fn lemma_lex_from_refused(cs: Seq<char>, cl: Seq<CharClass>, p: int, acc: Seq<SToken>, i: int)
    requires
        cl.len() == cs.len(),
    ensures
        reaches(cs, cl, p, i) && !may_start_token(cs[i], cl[i]) ==> lex_from(cs, cl, p, acc)
            == LexOutcome::Error("Unexpected char: "@.push(cs[i]), i + 1),
        lex_from(cs, cl, p, acc) matches LexOutcome::Error(_, q) ==> reaches(cs, cl, p, q - 1),
    decreases cs.len() - p,
{
    if 0 <= p < cs.len() {
        lemma_step_fails(cs, cl, p);
        match lex_step(cs, cl, p) {
            LexStep::Skip(q) => if p < q <= cs.len() {
                lemma_lex_from_refused(cs, cl, q, acc, i);
                if let LexOutcome::Error(_, r) = lex_from(cs, cl, q, acc) {
                    lemma_lex_from_refused(cs, cl, q, acc, r - 1);
                }
            },
            LexStep::Emit(q, k) => if p < q <= cs.len() {
                lemma_lex_from_refused(cs, cl, q, acc.push(token_at(cs, p, k)), i);
                if let LexOutcome::Error(_, r) = lex_from(cs, cl, q, acc.push(token_at(cs, p, k))) {
                    lemma_lex_from_refused(cs, cl, q, acc.push(token_at(cs, p, k)), r - 1);
                }
            },
            _ => {},
        }
    }
}

/// Lexing is refused exactly when it comes to a token start (a position
/// outside comments and literals) whose character cannot start a token:
/// the error then names the first such character, the one at that token
/// start; otherwise lexing gives tokens or aborts.
pub proof fn lemma_lex_refused_iff_stray(cs: Seq<char>, cl: Seq<CharClass>)
    requires
        cl.len() == cs.len(),
    ensures
        forall|i: int| #[trigger] reaches(cs, cl, 0, i) && !may_start_token(cs[i], cl[i]) ==> lex(cs, cl)
            == LexOutcome::Error("Unexpected char: "@.push(cs[i]), i + 1),
        lex(cs, cl) matches LexOutcome::Error(m, q) ==> reaches(cs, cl, 0, q - 1) && !may_start_token(
            cs[q - 1],
            cl[q - 1],
        ) && m == "Unexpected char: "@.push(cs[q - 1]),
{
    assert forall|i: int| #[trigger] reaches(cs, cl, 0, i) && !may_start_token(cs[i], cl[i]) implies lex(
        cs,
        cl,
    ) == LexOutcome::Error("Unexpected char: "@.push(cs[i]), i + 1) by {
        lemma_lex_from_refused(cs, cl, 0, Seq::empty(), i);
    }
    if let LexOutcome::Error(_, q) = lex(cs, cl) {
        lemma_lex_from_refused(cs, cl, 0, Seq::empty(), q - 1);
    }
    lemma_lex_from_error(cs, cl, 0, Seq::empty());
}

/// Whether the number literal at `p` reads: after `0x`/`0X` a nonempty
/// run of hexadecimal digits, after `0b`/`0B` one of binary digits, else
/// a run of decimal digits, whose value fits in `i32`.
pub open spec fn number_reads(cs: Seq<char>, cl: Seq<CharClass>, p: int) -> bool {
    let c = cs[p];
    if c == '0' && (next_is(cs, p, 'x') || next_is(cs, p, 'X')) {
        parse_unsigned_i32(cs.subrange(p + 2, run_end(cs, cl, p + 2, Run::Hex)), 16) is Some
    } else if c == '0' && (next_is(cs, p, 'b') || next_is(cs, p, 'B')) {
        parse_unsigned_i32(cs.subrange(p + 2, run_end(cs, cl, p + 2, Run::Bin)), 2) is Some
    } else {
        parse_unsigned_i32(cs.subrange(p, run_end(cs, cl, p + 1, Run::Numeric)), 10) is Some
    }
}

/// Whether the token that starts at `p` is complete: a character literal
/// has its character (and the escaped one after a `\`), a string literal
/// does not end inside an escape, and a number reads (see `number_reads`).
pub open spec fn token_complete(cs: Seq<char>, cl: Seq<CharClass>, p: int) -> bool {
    let c = cs[p];
    cl[p].whitespace || ((c == '\'' ==> p + 1 < cs.len() && (cs[p + 1] == '\\' ==> p + 2 < cs.len()))
        && (c == '"' ==> scan_string(cs, p + 1, Seq::empty()) is Some) && (!is_punct(c)
        && cl[p].numeric && !cl[p].alphabetic && c != '_' ==> number_reads(cs, cl, p)))
}

/// A step aborts exactly at an incomplete token.
proof fn lemma_step_aborts(cs: Seq<char>, cl: Seq<CharClass>, p: int)
    requires
        0 <= p < cs.len(),
    ensures
        (lex_step(cs, cl, p) is Fault) == !token_complete(cs, cl, p),
{
}

/// Lexing from `p` aborts exactly when it comes to a token start whose
/// token is incomplete.
proof fn lemma_lex_from_aborts(cs: Seq<char>, cl: Seq<CharClass>, p: int, acc: Seq<SToken>, i: int)
    requires
        cl.len() == cs.len(),
    ensures
        reaches(cs, cl, p, i) && !token_complete(cs, cl, i) ==> lex_from(cs, cl, p, acc) is Fault,
        lex_from(cs, cl, p, acc) is Fault ==> exists|j: int| reaches(cs, cl, p, j) && !token_complete(cs, cl, j),
    decreases cs.len() - p,
{
    if 0 <= p < cs.len() {
        lemma_step_aborts(cs, cl, p);
        lemma_step_advances(cs, cl, p);
        match lex_step(cs, cl, p) {
            LexStep::Skip(q) => {
                lemma_lex_from_aborts(cs, cl, q, acc, i);
                if lex_from(cs, cl, q, acc) is Fault {
                    let j = choose|j: int| reaches(cs, cl, q, j) && !token_complete(cs, cl, j);
                    assert(reaches(cs, cl, p, j));
                }
            },
            LexStep::Emit(q, k) => {
                let acc2 = acc.push(token_at(cs, p, k));
                lemma_lex_from_aborts(cs, cl, q, acc2, i);
                if lex_from(cs, cl, q, acc2) is Fault {
                    let j = choose|j: int| reaches(cs, cl, q, j) && !token_complete(cs, cl, j);
                    assert(reaches(cs, cl, p, j));
                }
            },
            LexStep::Fault => {
                assert(reaches(cs, cl, p, p));
            },
            _ => {},
        }
    }
}

/// Lexing aborts exactly when it comes to a token start (a position
/// outside comments and literals) whose token is incomplete: a character
/// literal cut off by the end of the text, a string literal that ends in
/// the middle of an escape, or a number that does not read as an `i32`.
/// A text whose tokens are all complete is lexed to tokens or refused
/// with an error, never aborted.
pub proof fn lemma_lex_aborts_iff_incomplete(cs: Seq<char>, cl: Seq<CharClass>)
    requires
        cl.len() == cs.len(),
    ensures
        (lex(cs, cl) is Fault) == exists|i: int| #[trigger] reaches(cs, cl, 0, i) && !token_complete(cs, cl, i),
{
    lemma_lex_from_aborts(cs, cl, 0, Seq::empty(), 0);
    if exists|i: int| #[trigger] reaches(cs, cl, 0, i) && !token_complete(cs, cl, i) {
        let i = choose|i: int| #[trigger] reaches(cs, cl, 0, i) && !token_complete(cs, cl, i);
        lemma_lex_from_aborts(cs, cl, 0, Seq::empty(), i);
    }
}

/// A successful lexing gives tokens at strictly increasing positions,
/// names that are nonempty and no keywords, and one `EOF`, last, at the
/// position after the last character of the text.
pub proof fn lemma_lex_tokens_in_order(cs: Seq<char>, cl: Seq<CharClass>)
    requires
        cl.len() == cs.len(),
    ensures
        lex(cs, cl) matches LexOutcome::Tokens(ts) ==> ts.len() >= 1 && tokens_well_placed(ts.drop_last())
            && ts.last() == token_at(cs, cs.len() as int, SKind::EOF)
            && (forall|i: int| 0 <= i < ts.len() - 1 ==> pos_before(token_pos(#[trigger] ts[i]), token_pos(ts.last()))),
{
    lemma_lex_from_placed(cs, cl, 0, Seq::empty());
    lemma_lex_ends_with_eof(cs, cl, 0, Seq::empty());
}

// ---------------------------------------------------------------------------
// Facts about the relation
// ---------------------------------------------------------------------------

proof fn lemma_run_end_bounds(cs: Seq<char>, cl: Seq<CharClass>, q: int, kind: Run)
    requires
        0 <= q <= cs.len(),
    ensures
        q <= run_end(cs, cl, q, kind) <= cs.len(),
    decreases cs.len() - q,
{
    if q < cs.len() && in_run(kind, cs[q], cl[q]) {
        lemma_run_end_bounds(cs, cl, q + 1, kind);
    }
}

proof fn lemma_scan_string_bounds(cs: Seq<char>, q: int, acc: Seq<char>)
    requires
        0 <= q <= cs.len(),
    ensures
        scan_string(cs, q, acc) matches Some((e, _)) ==> q <= e <= cs.len() && (q < cs.len() ==> q < e),
    decreases cs.len() - q,
{
    if q < cs.len() && cs[q] != '"' {
        if cs[q] == '\\' {
            if q + 1 < cs.len() {
                lemma_scan_string_bounds(cs, q + 2, acc.push(unescape(cs[q + 1])));
            }
        } else {
            lemma_scan_string_bounds(cs, q + 1, acc.push(cs[q]));
        }
    }
}

/// Every step of the lexer moves forward within the input.
proof fn lemma_step_advances(cs: Seq<char>, cl: Seq<CharClass>, p: int)
    requires
        0 <= p < cs.len(),
        cl.len() == cs.len(),
    ensures
        lex_step(cs, cl, p) matches LexStep::Skip(q) ==> p < q <= cs.len(),
        lex_step(cs, cl, p) matches LexStep::Emit(q, _) ==> p < q <= cs.len(),
{
    lemma_run_end_bounds(cs, cl, p, Run::Ident);
    lemma_run_end_bounds(cs, cl, p + 1, Run::Comment);
    lemma_run_end_bounds(cs, cl, p + 1, Run::Numeric);
    if p + 2 <= cs.len() {
        lemma_run_end_bounds(cs, cl, p + 2, Run::Hex);
        lemma_run_end_bounds(cs, cl, p + 2, Run::Bin);
    }
    lemma_scan_string_bounds(cs, p + 1, Seq::empty());
    if cl[p].alphabetic || cs[p] == '_' {
        assert(in_run(Run::Ident, cs[p], cl[p]));
        lemma_run_end_bounds(cs, cl, p + 1, Run::Ident);
    }
}

// ---------------------------------------------------------------------------
// The lexer
// ---------------------------------------------------------------------------

/// One step of the lexer, as computed.
enum Step {
    Skip(usize),
    Emit(usize, TokenKind),
    Fail(String),
    Fault,
}

impl View for Step {
    type V = LexStep;

    closed spec fn view(&self) -> LexStep {
        match self {
            Step::Skip(q) => LexStep::Skip(*q as int),
            Step::Emit(q, k) => LexStep::Emit(*q as int, k@),
            Step::Fail(m) => LexStep::Fail(m@),
            Step::Fault => LexStep::Fault,
        }
    }
}

pub struct Lexer {
    chars: Vec<char>,
    classes: Vec<CharClass>,
    pos: usize,
    line: usize,
    col: usize,
}

impl Lexer {
    /// The characters being lexed.
    pub closed spec fn text(&self) -> Seq<char> {
        self.chars@
    }

    /// The classes of the characters being lexed.
    pub closed spec fn classes(&self) -> Seq<CharClass> {
        self.classes@
    }

    /// The position of the next character to read.
    pub closed spec fn position(&self) -> int {
        self.pos as int
    }

    pub closed spec fn wf(&self) -> bool {
        &&& self.classes@.len() == self.chars@.len()
        &&& self.chars@.len() < usize::MAX
        &&& self.pos <= self.chars@.len()
        &&& line_col(self.chars@, self.pos as int) == (self.line as int, self.col as int)
    }

    /// A lexer at the start of `input`.
    pub fn new(input: &str) -> (r: Lexer)
        requires
            input@.len() < usize::MAX,
        ensures
            r.wf(),
            r.text() == input@,
            r.classes() == classes_of(input@),
            r.position() == 0,
    {
        let chars = chars_of(input);
        let classes = classify_all(&chars);
        assert(classes@ =~= classes_of(input@));
        Lexer::with_classes(chars, classes)
    }

    /// A lexer at the start of `chars`, whose characters have the Unicode
    /// classes `classes`.
    pub fn with_classes(chars: Vec<char>, classes: Vec<CharClass>) -> (r: Lexer)
        requires
            classes@.len() == chars@.len(),
            chars@.len() < usize::MAX,
        ensures
            r.wf(),
            r.text() == chars@,
            r.classes() == classes@,
            r.position() == 0,
    {
        Lexer { chars, classes, pos: 0, line: 1, col: 1 }
    }

    fn advance(&mut self) -> (c: Option<char>)
        requires
            old(self).wf(),
        ensures
            final(self).wf(),
            final(self).chars == old(self).chars,
            final(self).classes == old(self).classes,
            old(self).pos < old(self).chars@.len() ==> c == Some(old(self).chars@[old(self).pos as int])
                && final(self).pos == old(self).pos + 1,
            old(self).pos >= old(self).chars@.len() ==> c is None && final(self).pos == old(self).pos,
    {
        if self.pos < self.chars.len() {
            let ch = self.chars[self.pos];
            proof {
                lemma_line_col_bound(self.chars@, self.pos as int);
            }
            if ch == '\n' {
                self.line = self.line + 1;
                self.col = 1;
            } else {
                self.col = self.col + 1;
            }
            self.pos = self.pos + 1;
            Some(ch)
        } else {
            None
        }
    }

    fn peek(&self) -> (c: Option<char>)
        requires
            self.wf(),
        ensures
            self.pos < self.chars@.len() ==> c == Some(self.chars@[self.pos as int]),
            self.pos >= self.chars@.len() ==> c is None,
    {
        if self.pos < self.chars.len() {
            Some(self.chars[self.pos])
        } else {
            None
        }
    }

    /// Reads characters up to position `q`.
    fn advance_to(&mut self, q: usize)
        requires
            old(self).wf(),
            old(self).pos <= q <= old(self).chars@.len(),
        ensures
            final(self).wf(),
            final(self).chars == old(self).chars,
            final(self).classes == old(self).classes,
            final(self).pos == q,
    {
        while self.pos < q
            invariant
                self.wf(),
                self.chars == old(self).chars,
                self.classes == old(self).classes,
                self.pos <= q <= self.chars@.len(),
            decreases q - self.pos,
        {
            self.advance();
        }
    }

    fn in_run(&self, i: usize, kind: &Run) -> (r: bool)
        requires
            self.wf(),
            i < self.chars@.len(),
        ensures
            r == in_run(*kind, self.chars@[i as int], self.classes@[i as int]),
    {
        let c = self.chars[i];
        let class = self.classes[i];
        match kind {
            Run::Comment => c != '\n',
            Run::Ident => class.alphabetic || class.numeric || c == '_',
            Run::Hex => ('0' <= c && c <= '9') || ('a' <= c && c <= 'f') || ('A' <= c && c <= 'F'),
            Run::Bin => c == '0' || c == '1',
            Run::Numeric => class.numeric,
        }
    }

    fn run_end(&self, q: usize, kind: Run) -> (e: usize)
        requires
            self.wf(),
            q <= self.chars@.len(),
        ensures
            e == run_end(self.chars@, self.classes@, q as int, kind),
    {
        let mut i = q;
        while i < self.chars.len() && self.in_run(i, &kind)
            invariant
                self.wf(),
                q <= i <= self.chars@.len(),
                run_end(self.chars@, self.classes@, q as int, kind) == run_end(
                    self.chars@,
                    self.classes@,
                    i as int,
                    kind,
                ),
            decreases self.chars@.len() - i,
        {
            i = i + 1;
        }
        i
    }

    fn scan_string(&self, q: usize) -> (r: Option<(usize, Vec<char>)>)
        requires
            self.wf(),
            q <= self.chars@.len(),
        ensures
            match r {
                Some((e, s)) => scan_string(self.chars@, q as int, Seq::empty()) == Some(
                    (e as int, s@),
                ),
                None => scan_string(self.chars@, q as int, Seq::empty()) is None,
            },
    {
        let mut i = q;
        let mut acc: Vec<char> = Vec::new();
        while i < self.chars.len()
            invariant
                self.wf(),
                q <= i <= self.chars@.len(),
                scan_string(self.chars@, q as int, Seq::empty()) == scan_string(
                    self.chars@,
                    i as int,
                    acc@,
                ),
            decreases self.chars@.len() - i,
        {
            let ch = self.chars[i];
            if ch == '"' {
                return Some((i + 1, acc));
            }
            if ch == '\\' {
                if i + 1 >= self.chars.len() {
                    return None;
                }
                let e = self.chars[i + 1];
                acc.push(
                    if e == 'n' {
                        '\n'
                    } else if e == 't' {
                        '\t'
                    } else {
                        e
                    },
                );
                i = i + 2;
            } else {
                acc.push(ch);
                i = i + 1;
            }
        }
        Some((self.chars.len(), acc))
    }

    fn keyword_kind(word: Vec<char>) -> (k: TokenKind)
        ensures
            k@ == keyword_kind(word@),
    {
        if chars_eq_str(&word, "if") {
            TokenKind::If
        } else if chars_eq_str(&word, "else") {
            TokenKind::Else
        } else if chars_eq_str(&word, "while") {
            TokenKind::While
        } else if chars_eq_str(&word, "for") {
            TokenKind::For
        } else if chars_eq_str(&word, "true") {
            TokenKind::True
        } else if chars_eq_str(&word, "false") {
            TokenKind::False
        } else if chars_eq_str(&word, "return") {
            TokenKind::Return
        } else if chars_eq_str(&word, "fn") {
            TokenKind::Function
        } else if chars_eq_str(&word, "cout") {
            TokenKind::Cout
        } else if chars_eq_str(&word, "cin") {
            TokenKind::Cin
        } else if chars_eq_str(&word, "i32") {
            TokenKind::I32Type
        } else if chars_eq_str(&word, "ptr") {
            TokenKind::Ptr
        } else {
            TokenKind::Variable(string_of(&word))
        }
    }

    fn number(&self, from: usize, to: usize, radix: u32) -> (r: Step)
        requires
            self.wf(),
            from <= to <= self.chars@.len(),
            radix == 2 || radix == 10 || radix == 16,
        ensures
            r@ == number_step(self.chars@, from as int, to as int, radix as int),
    {
        match parse_i32_digits(&self.chars, from, to, radix) {
            Some(v) => Step::Emit(to, TokenKind::NumberInteger(v)),
            None => Step::Fault,
        }
    }

    fn next_is(&self, c: char) -> (r: bool)
        requires
            self.wf(),
            self.pos < self.chars@.len(),
        ensures
            r == next_is(self.chars@, self.pos as int, c),
    {
        self.pos + 1 < self.chars.len() && self.chars[self.pos + 1] == c
    }

    /// What to do at the current character.
    fn scan_step(&self) -> (r: Step)
        requires
            self.wf(),
            self.pos < self.chars@.len(),
        ensures
            r@ == lex_step(self.chars@, self.classes@, self.pos as int),
    {
        let p = self.pos;
        let c = self.chars[p];
        if self.classes[p].whitespace {
            return Step::Skip(p + 1);
        }
        match c {
            '(' => Step::Emit(p + 1, TokenKind::RoundBracketOpen),
            ')' => Step::Emit(p + 1, TokenKind::RoundBracketClose),
            '{' => Step::Emit(p + 1, TokenKind::CurlyBracketOpen),
            '}' => Step::Emit(p + 1, TokenKind::CurlyBracketClose),
            '[' => Step::Emit(p + 1, TokenKind::SquareBracketOpen),
            ']' => Step::Emit(p + 1, TokenKind::SquareBracketClose),
            ';' => Step::Emit(p + 1, TokenKind::Semicolon),
            ',' => Step::Emit(p + 1, TokenKind::Comma),
            ':' => Step::Emit(p + 1, TokenKind::Colon),
            '*' => Step::Emit(p + 1, TokenKind::OpMul),
            '%' => Step::Emit(p + 1, TokenKind::OpRem),
            '^' => Step::Emit(p + 1, TokenKind::OpXor),
            '+' => if self.next_is('+') {
                Step::Emit(p + 2, TokenKind::OpInc)
            } else {
                Step::Emit(p + 1, TokenKind::OpAdd)
            },
            '-' => if self.next_is('>') {
                Step::Emit(p + 2, TokenKind::Arrow)
            } else if self.next_is('-') {
                Step::Emit(p + 2, TokenKind::OpDec)
            } else {
                Step::Emit(p + 1, TokenKind::OpSub)
            },
            '/' => if self.next_is('/') {
                Step::Skip(self.run_end(p + 1, Run::Comment))
            } else {
                Step::Emit(p + 1, TokenKind::OpDiv)
            },
            '=' => if self.next_is('=') {
                Step::Emit(p + 2, TokenKind::OpEq)
            } else {
                Step::Emit(p + 1, TokenKind::Assign)
            },
            '>' => if self.next_is('=') {
                Step::Emit(p + 2, TokenKind::OpGreaterOrEq)
            } else if self.next_is('>') {
                Step::Emit(p + 2, TokenKind::OpShiftRight)
            } else {
                Step::Emit(p + 1, TokenKind::OpGreaterThan)
            },
            '<' => if self.next_is('=') {
                Step::Emit(p + 2, TokenKind::OpLessOrEq)
            } else if self.next_is('<') {
                Step::Emit(p + 2, TokenKind::OpShiftLeft)
            } else {
                Step::Emit(p + 1, TokenKind::OpLessThan)
            },
            '!' => if self.next_is('=') {
                Step::Emit(p + 2, TokenKind::OpNotEq)
            } else {
                Step::Emit(p + 1, TokenKind::OpNot)
            },
            '&' => if self.next_is('&') {
                Step::Emit(p + 2, TokenKind::OpAnd)
            } else {
                Step::Emit(p + 1, TokenKind::OpBitAnd)
            },
            '|' => if self.next_is('|') {
                Step::Emit(p + 2, TokenKind::OpOr)
            } else {
                Step::Emit(p + 1, TokenKind::OpBitOr)
            },
            '\'' => {
                let len = self.chars.len();
                if p + 1 >= len {
                    Step::Fault
                } else if self.chars[p + 1] == '\\' {
                    if p + 2 >= len {
                        Step::Fault
                    } else {
                        let e = self.chars[p + 2];
                        let v = if e == 'n' {
                            '\n'
                        } else if e == 't' {
                            '\t'
                        } else {
                            e
                        };
                        Step::Emit(
                            if p + 4 <= len {
                                p + 4
                            } else {
                                len
                            },
                            TokenKind::CharLiteral(v),
                        )
                    }
                } else {
                    Step::Emit(
                        if p + 3 <= len {
                            p + 3
                        } else {
                            len
                        },
                        TokenKind::CharLiteral(self.chars[p + 1]),
                    )
                }
            },
            '"' => match self.scan_string(p + 1) {
                Some((q, s)) => Step::Emit(q, TokenKind::StringLiteral(string_of(&s))),
                None => Step::Fault,
            },
            _ => {
                let class = self.classes[p];
                if class.alphabetic || c == '_' {
                    let e = self.run_end(p, Run::Ident);
                    proof {
                        lemma_run_end_bounds(self.chars@, self.classes@, p as int, Run::Ident);
                    }
                    let mut word: Vec<char> = Vec::new();
                    let mut i = p;
                    while i < e
                        invariant
                            self.wf(),
                            p <= i <= e <= self.chars@.len(),
                            word@ == self.chars@.subrange(p as int, i as int),
                        decreases e - i,
                    {
                        word.push(self.chars[i]);
                        i = i + 1;
                    }
                    Step::Emit(e, Self::keyword_kind(word))
                } else if class.numeric {
                    if c == '0' && (self.next_is('x') || self.next_is('X')) {
                        let e = self.run_end(p + 2, Run::Hex);
                        proof {
                            lemma_run_end_bounds(self.chars@, self.classes@, p + 2, Run::Hex);
                        }
                        self.number(p + 2, e, 16)
                    } else if c == '0' && (self.next_is('b') || self.next_is('B')) {
                        let e = self.run_end(p + 2, Run::Bin);
                        proof {
                            lemma_run_end_bounds(self.chars@, self.classes@, p + 2, Run::Bin);
                        }
                        self.number(p + 2, e, 2)
                    } else {
                        let e = self.run_end(p + 1, Run::Numeric);
                        proof {
                            lemma_run_end_bounds(self.chars@, self.classes@, p + 1, Run::Numeric);
                        }
                        self.number(p, e, 10)
                    }
                } else {
                    let mut m: Vec<char> = Vec::new();
                    push_str(&mut m, "Unexpected char: ");
                    m.push(c);
                    Step::Fail(string_of(&m))
                }
            },
        }
    }

    /// Lexes the rest of the input.  `None` stands for the inputs on which
    /// lexing aborts: a character literal or an escape cut off by the end of
    /// the input, or a number that is not a valid `i32`.
    pub fn try_parse(&mut self) -> (res: Option<Result<Vec<Token>, String>>)
        requires
            old(self).wf(),
        ensures
            final(self).wf(),
            final(self).text() == old(self).text(),
            final(self).classes() == old(self).classes(),
            match lex_from(old(self).text(), old(self).classes(), old(self).position(), Seq::empty()) {
                LexOutcome::Tokens(ts) => res matches Some(Ok(v)) && tokens_view(v@) == ts
                    && final(self).position() == old(self).text().len(),
                LexOutcome::Error(m, q) => res matches Some(Err(e)) && e@ == m
                    && final(self).position() == q,
                LexOutcome::Fault => res is None,
            },
    {
        let ghost cs = self.chars@;
        let ghost cl = self.classes@;
        let ghost p0 = self.pos as int;
        let mut result: Vec<Token> = Vec::new();
        assert(tokens_view(result@) =~= Seq::empty());
        loop
            invariant
                self.wf(),
                self.chars == old(self).chars,
                self.classes == old(self).classes,
                p0 == old(self).pos,
                self.chars@ == cs,
                self.classes@ == cl,
                lex_from(cs, cl, p0, Seq::empty()) == lex_from(
                    cs,
                    cl,
                    self.pos as int,
                    tokens_view(result@),
                ),
            decreases cs.len() - self.pos,
        {
            let start_line = self.line;
            let start_col = self.col;
            match self.peek() {
                None => {
                    let ghost before = tokens_view(result@);
                    result.push(Token { kind: TokenKind::EOF, line: self.line, col: self.col });
                    assert(tokens_view(result@) =~= before.push(
                        token_at(cs, self.pos as int, SKind::EOF),
                    ));
                    return Some(Ok(result));
                },
                Some(_c) => {
                    proof {
                        lemma_step_advances(cs, cl, self.pos as int);
                    }
                    let ghost p = self.pos as int;
                    match self.scan_step() {
                        Step::Skip(q) => {
                            self.advance_to(q);
                        },
                        Step::Emit(q, kind) => {
                            self.advance_to(q);
                            let ghost before = tokens_view(result@);
                            let ghost k = kind@;
                            result.push(Token { kind, line: start_line, col: start_col });
                            assert(tokens_view(result@) =~= before.push(token_at(cs, p, k)));
                        },
                        Step::Fail(m) => {
                            self.advance();
                            return Some(Err(m));
                        },
                        Step::Fault => {
                            return None;
                        },
                    }
                },
            }
        }
    }

    /// Lexes the rest of the input (for inputs on which lexing does not
    /// abort, see `try_parse`).
    pub fn parse(&mut self) -> (res: Result<Vec<Token>, String>)
        requires
            old(self).wf(),
            !(lex_from(old(self).text(), old(self).classes(), old(self).position(), Seq::empty()) is Fault),
        ensures
            final(self).wf(),
            final(self).text() == old(self).text(),
            final(self).classes() == old(self).classes(),
            match lex_from(old(self).text(), old(self).classes(), old(self).position(), Seq::empty()) {
                LexOutcome::Tokens(ts) => res matches Ok(v) && tokens_view(v@) == ts
                    && final(self).position() == old(self).text().len(),
                LexOutcome::Error(m, q) => res matches Err(e) && e@ == m && final(self).position() == q,
                LexOutcome::Fault => false,
            },
    {
        match self.try_parse() {
            Some(r) => r,
            None => Err(String::new()),
        }
    }
}

proof fn lemma_line_col_bound(cs: Seq<char>, p: int)
    requires
        0 <= p,
    ensures
        1 <= line_col(cs, p).0 <= p + 1,
        1 <= line_col(cs, p).1 <= p + 1,
    decreases p,
{
    if p > 0 {
        lemma_line_col_bound(cs, p - 1);
    }
}


// ---------------------------------------------------------------------------
// Comparing, copying and printing token kinds
// ---------------------------------------------------------------------------

/// The text that `{:?}` gives for a token kind.
pub open spec fn kind_debug(k: SKind) -> Seq<char> {
    match k {
        SKind::RoundBracketOpen => "RoundBracketOpen"@,
        SKind::RoundBracketClose => "RoundBracketClose"@,
        SKind::SquareBracketOpen => "SquareBracketOpen"@,
        SKind::SquareBracketClose => "SquareBracketClose"@,
        SKind::CurlyBracketOpen => "CurlyBracketOpen"@,
        SKind::CurlyBracketClose => "CurlyBracketClose"@,
        SKind::NumberInteger(n) => "NumberInteger("@ + dec_text(n as int) + ")"@,
        SKind::StringLiteral(s) => "StringLiteral("@ + str_debug(s) + ")"@,
        SKind::CharLiteral(c) => "CharLiteral("@ + char_debug(c) + ")"@,
        SKind::Ptr => "Ptr"@,
        SKind::OpAdd => "OpAdd"@,
        SKind::OpSub => "OpSub"@,
        SKind::OpMul => "OpMul"@,
        SKind::OpDiv => "OpDiv"@,
        SKind::OpRem => "OpRem"@,
        SKind::OpNot => "OpNot"@,
        SKind::OpEq => "OpEq"@,
        SKind::OpNotEq => "OpNotEq"@,
        SKind::OpGreaterOrEq => "OpGreaterOrEq"@,
        SKind::OpLessOrEq => "OpLessOrEq"@,
        SKind::OpGreaterThan => "OpGreaterThan"@,
        SKind::OpLessThan => "OpLessThan"@,
        SKind::OpShiftLeft => "OpShiftLeft"@,
        SKind::OpShiftRight => "OpShiftRight"@,
        SKind::OpInc => "OpInc"@,
        SKind::OpDec => "OpDec"@,
        SKind::OpAnd => "OpAnd"@,
        SKind::OpOr => "OpOr"@,
        SKind::OpBitAnd => "OpBitAnd"@,
        SKind::OpBitOr => "OpBitOr"@,
        SKind::OpXor => "OpXor"@,
        SKind::Variable(s) => "Variable("@ + str_debug(s) + ")"@,
        SKind::Semicolon => "Semicolon"@,
        SKind::Comma => "Comma"@,
        SKind::Assign => "Assign"@,
        SKind::Colon => "Colon"@,
        SKind::If => "If"@,
        SKind::Else => "Else"@,
        SKind::While => "While"@,
        SKind::For => "For"@,
        SKind::True => "True"@,
        SKind::False => "False"@,
        SKind::Cout => "Cout"@,
        SKind::Cin => "Cin"@,
        SKind::I32Type => "I32Type"@,
        SKind::Return => "Return"@,
        SKind::Function => "Function"@,
        SKind::Arrow => "Arrow"@,
        SKind::EOF => "EOF"@,
    }
}

/// Appends the `{:?}` text of a token kind.
pub fn push_kind_debug(out: &mut Vec<char>, k: &TokenKind)
    ensures
        final(out)@ == old(out)@ + kind_debug(k@),
{
    let ghost start = out@;
    match k {
        TokenKind::RoundBracketOpen => push_str(out, "RoundBracketOpen"),
        TokenKind::RoundBracketClose => push_str(out, "RoundBracketClose"),
        TokenKind::SquareBracketOpen => push_str(out, "SquareBracketOpen"),
        TokenKind::SquareBracketClose => push_str(out, "SquareBracketClose"),
        TokenKind::CurlyBracketOpen => push_str(out, "CurlyBracketOpen"),
        TokenKind::CurlyBracketClose => push_str(out, "CurlyBracketClose"),
        TokenKind::NumberInteger(n) => {
            push_str(out, "NumberInteger(");
            push_dec_i64(out, *n as i64);
            push_str(out, ")");
        },
        TokenKind::StringLiteral(s) => {
            push_str(out, "StringLiteral(");
            push_str_debug(out, s);
            push_str(out, ")");
        },
        TokenKind::CharLiteral(c) => {
            push_str(out, "CharLiteral(");
            push_char_debug(out, *c);
            push_str(out, ")");
        },
        TokenKind::Ptr => push_str(out, "Ptr"),
        TokenKind::OpAdd => push_str(out, "OpAdd"),
        TokenKind::OpSub => push_str(out, "OpSub"),
        TokenKind::OpMul => push_str(out, "OpMul"),
        TokenKind::OpDiv => push_str(out, "OpDiv"),
        TokenKind::OpRem => push_str(out, "OpRem"),
        TokenKind::OpNot => push_str(out, "OpNot"),
        TokenKind::OpEq => push_str(out, "OpEq"),
        TokenKind::OpNotEq => push_str(out, "OpNotEq"),
        TokenKind::OpGreaterOrEq => push_str(out, "OpGreaterOrEq"),
        TokenKind::OpLessOrEq => push_str(out, "OpLessOrEq"),
        TokenKind::OpGreaterThan => push_str(out, "OpGreaterThan"),
        TokenKind::OpLessThan => push_str(out, "OpLessThan"),
        TokenKind::OpShiftLeft => push_str(out, "OpShiftLeft"),
        TokenKind::OpShiftRight => push_str(out, "OpShiftRight"),
        TokenKind::OpInc => push_str(out, "OpInc"),
        TokenKind::OpDec => push_str(out, "OpDec"),
        TokenKind::OpAnd => push_str(out, "OpAnd"),
        TokenKind::OpOr => push_str(out, "OpOr"),
        TokenKind::OpBitAnd => push_str(out, "OpBitAnd"),
        TokenKind::OpBitOr => push_str(out, "OpBitOr"),
        TokenKind::OpXor => push_str(out, "OpXor"),
        TokenKind::Variable(s) => {
            push_str(out, "Variable(");
            push_str_debug(out, s);
            push_str(out, ")");
        },
        TokenKind::Semicolon => push_str(out, "Semicolon"),
        TokenKind::Comma => push_str(out, "Comma"),
        TokenKind::Assign => push_str(out, "Assign"),
        TokenKind::Colon => push_str(out, "Colon"),
        TokenKind::If => push_str(out, "If"),
        TokenKind::Else => push_str(out, "Else"),
        TokenKind::While => push_str(out, "While"),
        TokenKind::For => push_str(out, "For"),
        TokenKind::True => push_str(out, "True"),
        TokenKind::False => push_str(out, "False"),
        TokenKind::Cout => push_str(out, "Cout"),
        TokenKind::Cin => push_str(out, "Cin"),
        TokenKind::I32Type => push_str(out, "I32Type"),
        TokenKind::Return => push_str(out, "Return"),
        TokenKind::Function => push_str(out, "Function"),
        TokenKind::Arrow => push_str(out, "Arrow"),
        TokenKind::EOF => push_str(out, "EOF"),
    }
    assert(out@ =~= start + kind_debug(k@));
}

/// Whether two token kinds are equal.
pub fn kind_eq(a: &TokenKind, b: &TokenKind) -> (r: bool)
    ensures
        r == (a@ == b@),
{
    match (a, b) {
        (TokenKind::RoundBracketOpen, TokenKind::RoundBracketOpen) => true,
        (TokenKind::RoundBracketClose, TokenKind::RoundBracketClose) => true,
        (TokenKind::SquareBracketOpen, TokenKind::SquareBracketOpen) => true,
        (TokenKind::SquareBracketClose, TokenKind::SquareBracketClose) => true,
        (TokenKind::CurlyBracketOpen, TokenKind::CurlyBracketOpen) => true,
        (TokenKind::CurlyBracketClose, TokenKind::CurlyBracketClose) => true,
        (TokenKind::NumberInteger(x), TokenKind::NumberInteger(y)) => *x == *y,
        (TokenKind::StringLiteral(x), TokenKind::StringLiteral(y)) => x.eq(y),
        (TokenKind::CharLiteral(x), TokenKind::CharLiteral(y)) => *x == *y,
        (TokenKind::Ptr, TokenKind::Ptr) => true,
        (TokenKind::OpAdd, TokenKind::OpAdd) => true,
        (TokenKind::OpSub, TokenKind::OpSub) => true,
        (TokenKind::OpMul, TokenKind::OpMul) => true,
        (TokenKind::OpDiv, TokenKind::OpDiv) => true,
        (TokenKind::OpRem, TokenKind::OpRem) => true,
        (TokenKind::OpNot, TokenKind::OpNot) => true,
        (TokenKind::OpEq, TokenKind::OpEq) => true,
        (TokenKind::OpNotEq, TokenKind::OpNotEq) => true,
        (TokenKind::OpGreaterOrEq, TokenKind::OpGreaterOrEq) => true,
        (TokenKind::OpLessOrEq, TokenKind::OpLessOrEq) => true,
        (TokenKind::OpGreaterThan, TokenKind::OpGreaterThan) => true,
        (TokenKind::OpLessThan, TokenKind::OpLessThan) => true,
        (TokenKind::OpShiftLeft, TokenKind::OpShiftLeft) => true,
        (TokenKind::OpShiftRight, TokenKind::OpShiftRight) => true,
        (TokenKind::OpInc, TokenKind::OpInc) => true,
        (TokenKind::OpDec, TokenKind::OpDec) => true,
        (TokenKind::OpAnd, TokenKind::OpAnd) => true,
        (TokenKind::OpOr, TokenKind::OpOr) => true,
        (TokenKind::OpBitAnd, TokenKind::OpBitAnd) => true,
        (TokenKind::OpBitOr, TokenKind::OpBitOr) => true,
        (TokenKind::OpXor, TokenKind::OpXor) => true,
        (TokenKind::Variable(x), TokenKind::Variable(y)) => x.eq(y),
        (TokenKind::Semicolon, TokenKind::Semicolon) => true,
        (TokenKind::Comma, TokenKind::Comma) => true,
        (TokenKind::Assign, TokenKind::Assign) => true,
        (TokenKind::Colon, TokenKind::Colon) => true,
        (TokenKind::If, TokenKind::If) => true,
        (TokenKind::Else, TokenKind::Else) => true,
        (TokenKind::While, TokenKind::While) => true,
        (TokenKind::For, TokenKind::For) => true,
        (TokenKind::True, TokenKind::True) => true,
        (TokenKind::False, TokenKind::False) => true,
        (TokenKind::Cout, TokenKind::Cout) => true,
        (TokenKind::Cin, TokenKind::Cin) => true,
        (TokenKind::I32Type, TokenKind::I32Type) => true,
        (TokenKind::Return, TokenKind::Return) => true,
        (TokenKind::Function, TokenKind::Function) => true,
        (TokenKind::Arrow, TokenKind::Arrow) => true,
        (TokenKind::EOF, TokenKind::EOF) => true,
        _ => false,
    }
}

impl TokenKind {
    /// A copy of the token kind.
    pub fn dup(&self) -> (r: TokenKind)
        ensures
            r@ == self@,
    {
        match self {
            TokenKind::RoundBracketOpen => TokenKind::RoundBracketOpen,
            TokenKind::RoundBracketClose => TokenKind::RoundBracketClose,
            TokenKind::SquareBracketOpen => TokenKind::SquareBracketOpen,
            TokenKind::SquareBracketClose => TokenKind::SquareBracketClose,
            TokenKind::CurlyBracketOpen => TokenKind::CurlyBracketOpen,
            TokenKind::CurlyBracketClose => TokenKind::CurlyBracketClose,
            TokenKind::NumberInteger(n) => TokenKind::NumberInteger(*n),
            TokenKind::StringLiteral(s) => TokenKind::StringLiteral(s.clone()),
            TokenKind::CharLiteral(c) => TokenKind::CharLiteral(*c),
            TokenKind::Ptr => TokenKind::Ptr,
            TokenKind::OpAdd => TokenKind::OpAdd,
            TokenKind::OpSub => TokenKind::OpSub,
            TokenKind::OpMul => TokenKind::OpMul,
            TokenKind::OpDiv => TokenKind::OpDiv,
            TokenKind::OpRem => TokenKind::OpRem,
            TokenKind::OpNot => TokenKind::OpNot,
            TokenKind::OpEq => TokenKind::OpEq,
            TokenKind::OpNotEq => TokenKind::OpNotEq,
            TokenKind::OpGreaterOrEq => TokenKind::OpGreaterOrEq,
            TokenKind::OpLessOrEq => TokenKind::OpLessOrEq,
            TokenKind::OpGreaterThan => TokenKind::OpGreaterThan,
            TokenKind::OpLessThan => TokenKind::OpLessThan,
            TokenKind::OpShiftLeft => TokenKind::OpShiftLeft,
            TokenKind::OpShiftRight => TokenKind::OpShiftRight,
            TokenKind::OpInc => TokenKind::OpInc,
            TokenKind::OpDec => TokenKind::OpDec,
            TokenKind::OpAnd => TokenKind::OpAnd,
            TokenKind::OpOr => TokenKind::OpOr,
            TokenKind::OpBitAnd => TokenKind::OpBitAnd,
            TokenKind::OpBitOr => TokenKind::OpBitOr,
            TokenKind::OpXor => TokenKind::OpXor,
            TokenKind::Variable(s) => TokenKind::Variable(s.clone()),
            TokenKind::Semicolon => TokenKind::Semicolon,
            TokenKind::Comma => TokenKind::Comma,
            TokenKind::Assign => TokenKind::Assign,
            TokenKind::Colon => TokenKind::Colon,
            TokenKind::If => TokenKind::If,
            TokenKind::Else => TokenKind::Else,
            TokenKind::While => TokenKind::While,
            TokenKind::For => TokenKind::For,
            TokenKind::True => TokenKind::True,
            TokenKind::False => TokenKind::False,
            TokenKind::Cout => TokenKind::Cout,
            TokenKind::Cin => TokenKind::Cin,
            TokenKind::I32Type => TokenKind::I32Type,
            TokenKind::Return => TokenKind::Return,
            TokenKind::Function => TokenKind::Function,
            TokenKind::Arrow => TokenKind::Arrow,
            TokenKind::EOF => TokenKind::EOF,
        }
    }
}

} // verus!
