//! Token kinds, literal values, and the token record the scanner emits.

use vstd::prelude::*;

verus! {

/// All accepted token kinds in the language.
#[derive(Clone, Copy, Debug, PartialEq, Eq, Structural)]
pub enum TTy {
    // Single-character punctuation and operators.
    LParen,
    RParen,
    LBrace,
    RBrace,
    Comma,
    Period,
    Minus,
    Plus,
    Semicolon,
    FSlash,
    Asterisk,
    // One-or-two-character operators: a bare and an equals-suffixed form.
    Bang,
    BangEq,
    Equal,
    EqEq,
    Gt,
    GtEq,
    Lt,
    LtEq,
    // Variable-length lexemes.
    Ident,
    Str,
    Number,
    // Reserved keywords, matched exactly against a completed identifier span.
    And,
    Class,
    Else,
    False,
    Fun,
    For,
    If,
    Null,
    Or,
    Print,
    Return,
    Super,
    This,
    True,
    Var,
    While,
    // The end-of-input marker, emitted exactly once, always last.
    Eof,
}

/// The literal value attached to a token.
///
/// A number literal carries its exact decimal digit text; the 64-bit floating
/// point value is obtained from that text by the host, outside the verified
/// scanner, by the standard decimal parse.
#[derive(Clone, Debug, PartialEq)]
pub enum TLit {
    /// No literal; every token kind except `Str`, `Number`, `True`, `False`.
    Null,
    /// A number literal's decimal text, always a non-empty run of ASCII
    /// digits, possibly with one interior decimal point.
    Number(String),
    /// A string literal's text, the span between the two quote characters.
    Str(String),
    /// The boolean carried by the `True` and `False` keywords.
    Bool(bool),
}

/// The mathematical value of a `TLit`.
pub ghost enum SpecLit {
    Null,
    Number(Seq<char>),
    Str(Seq<char>),
    Bool(bool),
}

impl View for TLit {
    type V = SpecLit;

    open spec fn view(&self) -> SpecLit {
        match self {
            TLit::Null => SpecLit::Null,
            TLit::Number(s) => SpecLit::Number(s@),
            TLit::Str(s) => SpecLit::Str(s@),
            TLit::Bool(b) => SpecLit::Bool(*b),
        }
    }
}

/// The mathematical value of a `Token`.
pub ghost struct SpecToken {
    pub ty: TTy,
    pub lexeme: Seq<char>,
    pub literal: SpecLit,
    pub line: nat,
}

/// A scanned token: its kind, the exact source text that produced it, the
/// interpreted literal value (or `TLit::Null`), and the 1-based source line
/// on which it ends.
#[derive(Clone, Debug, PartialEq)]
pub struct Token {
    pub ty: TTy,
    pub lexeme: String,
    pub literal: TLit,
    pub line: usize,
}

impl View for Token {
    type V = SpecToken;

    open spec fn view(&self) -> SpecToken {
        SpecToken { ty: self.ty, lexeme: self.lexeme@, literal: self.literal@, line: self.line as nat }
    }
}

impl Token {
    pub fn new(ty: TTy, lexeme: String, literal: TLit, line: usize) -> (t: Token)
        ensures
            t@ == (SpecToken { ty, lexeme: lexeme@, literal: literal@, line: line as nat }),
    {
        Token { ty, lexeme, literal, line }
    }
}

/// The views of a token list, in order.
pub open spec fn tokens_view(v: Seq<Token>) -> Seq<SpecToken> {
    v.map_values(|t: Token| t@)
}

/// Appending a token appends its view.
pub proof fn lemma_tokens_view_push(v: Seq<Token>, t: Token)
    ensures
        tokens_view(v.push(t)) == tokens_view(v).push(t@),
{
    assert(tokens_view(v.push(t)) =~= tokens_view(v).push(t@));
}

} // verus!
