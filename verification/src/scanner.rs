//! The scanner: an owned state machine over the character buffer.
//!
//! A `Scanner` is constructed once from the full source text and consumed by
//! `scan_tokens`, which repeatedly marks the span start, dispatches on the
//! next character, and either emits a token, records a diagnostic, or skips.
//! Every operation is verified against the model in `scan_model`: the whole
//! drain produces exactly `spec_scan_output` of the source.

use vstd::prelude::*;

use crate::chars::{chars_to_string, is_alnum, is_alpha, is_digit, spec_is_digit, string_to_chars};
use crate::error_log::{diags_view, error, lemma_diags_view_push, Diag};
use crate::scan_model::{
    eof_token, ident_lit, keyword_ty, lemma_cat_assoc, lemma_cat_none, lemma_newlines_bound,
    lemma_push_opt, lemma_seek_alnum, lemma_seek_digits, lemma_seek_newline, lemma_seek_quote,
    lemma_single_subrange, lemma_step_bounds, newlines_in, opt_seq, seek_alnum, seek_digits,
    seek_newline, seek_quote, spec_scan, spec_scan_output, spec_step, step_ident, step_number,
    step_string,
};
use crate::tokens::{lemma_tokens_view_push, tokens_view, SpecLit, SpecToken, TLit, TTy, Token};

verus! {

/// The character that stands for "nothing to read" when peeking past the end
/// of the buffer.
pub open spec fn spec_peek(s: Seq<char>, i: nat) -> char {
    if i >= s.len() {
        '\0'
    } else {
        s[i as int]
    }
}

/// A lexer for the language, maintaining position and spans within the
/// provided source code. The only way to use it is to construct it from the
/// source and consume it with `scan_tokens`, which lexes the code from start
/// to end.
pub struct Scanner {
    /// The source as characters, so the code can contain non-ASCII
    /// codepoints; each is one logical unit.
    pub buf: Vec<char>,
    /// The beginning of the current span.
    pub start: usize,
    /// The current position: the end of the current span.
    pub current: usize,
    /// The current 1-based line number, used for diagnostics and carried on
    /// each token.
    pub line: usize,
    /// The tokens scanned so far.
    pub tokens: Vec<Token>,
    /// The diagnostics reported so far.
    pub diags: Vec<Diag>,
}

impl Scanner {
    /// Well-formedness: the span is inside the buffer, the buffer leaves room
    /// for the cursor arithmetic, and the line counter — which starts at 1
    /// and grows by one per consumed newline — never exceeds the cursor by
    /// more than one.
    pub open spec fn wf(self) -> bool {
        &&& self.start <= self.current <= self.buf@.len()
        &&& self.buf@.len() < usize::MAX
        &&& 1 <= self.line
        &&& self.line <= self.current + 1
    }

    pub fn new(source: String) -> (s: Scanner)
        requires
            source@.len() < usize::MAX,
        ensures
            s.wf(),
            s.buf@ == source@,
            s.start == 0,
            s.current == 0,
            s.line == 1,
            s.tokens@ == Seq::<Token>::empty(),
            s.diags@ == Seq::<Diag>::empty(),
    {
        Scanner {
            start: 0,
            current: 0,
            line: 1,
            buf: string_to_chars(source.as_str()),
            tokens: Vec::new(),
            diags: Vec::new(),
        }
    }

    fn reached_eof(&self) -> (r: bool)
        ensures
            r == (self.current >= self.buf@.len()),
    {
        self.current >= self.buf.len()
    }

    /// The next character, or the null character past the end of the buffer.
    fn peek(&self) -> (c: char)
        ensures
            c == spec_peek(self.buf@, self.current as nat),
    {
        if self.reached_eof() {
            return '\0';
        }
        self.buf[self.current]
    }

    /// The character `offset` past the current position, or the null
    /// character if that is out of bounds.
    fn peek_ahead(&self, offset: usize) -> (c: char)
        requires
            self.current + offset <= usize::MAX,
        ensures
            c == spec_peek(self.buf@, (self.current + offset) as nat),
    {
        if self.current + offset >= self.buf.len() {
            return '\0';
        }
        self.buf[self.current + offset]
    }

    /// Reads the next character and advances the position.
    fn advance(&mut self) -> (c: char)
        requires
            old(self).current < old(self).buf@.len(),
            old(self).buf@.len() <= usize::MAX,
        ensures
            c == old(self).buf@[old(self).current as int],
            final(self).current == old(self).current + 1,
            final(self).buf == old(self).buf,
            final(self).start == old(self).start,
            final(self).line == old(self).line,
            final(self).tokens == old(self).tokens,
            final(self).diags == old(self).diags,
    {
        self.current = self.current + 1;
        self.buf[self.current - 1]
    }

    /// The current span as a string: the characters `[start, current)`.
    fn span_string(&self) -> (r: String)
        requires
            self.start <= self.current,
            self.current <= self.buf@.len(),
        ensures
            r@ == self.buf@.subrange(self.start as int, self.current as int),
    {
        chars_to_string(&self.buf, self.start, self.current)
    }

    /// Appends a token for the current span with no literal.
    fn add_token(&mut self, ty: TTy)
        requires
            old(self).wf(),
        ensures
            final(self).wf(),
            tokens_view(final(self).tokens@) == tokens_view(old(self).tokens@).push(
                (SpecToken {
                    ty,
                    lexeme: old(self).buf@.subrange(
                        old(self).start as int,
                        old(self).current as int,
                    ),
                    literal: SpecLit::Null,
                    line: old(self).line as nat,
                }),
            ),
            final(self).buf == old(self).buf,
            final(self).start == old(self).start,
            final(self).current == old(self).current,
            final(self).line == old(self).line,
            final(self).diags == old(self).diags,
    {
        self.add_token_lit(ty, TLit::Null);
    }

    /// Appends a token for the current span carrying the given literal.
    fn add_token_lit(&mut self, ty: TTy, lit: TLit)
        requires
            old(self).wf(),
        ensures
            final(self).wf(),
            tokens_view(final(self).tokens@) == tokens_view(old(self).tokens@).push(
                (SpecToken {
                    ty,
                    lexeme: old(self).buf@.subrange(
                        old(self).start as int,
                        old(self).current as int,
                    ),
                    literal: lit@,
                    line: old(self).line as nat,
                }),
            ),
            final(self).buf == old(self).buf,
            final(self).start == old(self).start,
            final(self).current == old(self).current,
            final(self).line == old(self).line,
            final(self).diags == old(self).diags,
    {
        let src: String = self.span_string();
        let line: usize = self.line;
        let t = Token::new(ty, src, lit, line);
        proof {
            lemma_tokens_view_push(self.tokens@, t);
        }
        self.tokens.push(t);
    }

    /// A one-element character vector, for the lookahead helper.
    fn single(c: char) -> (v: Vec<char>)
        ensures
            v@ == seq![c],
    {
        let mut v: Vec<char> = Vec::new();
        v.push(c);
        proof {
            assert(v@ =~= seq![c]);
        }
        v
    }

    /// Expects the next characters to match `expected` exactly, with strictly
    /// more characters remaining than the match needs. On a match the cursor
    /// moves past them and `yes` comes back; otherwise the cursor is
    /// untouched and `no` comes back.
    fn expect_many(&mut self, expected: &Vec<char>, yes: TTy, no: TTy) -> (ty: TTy)
        requires
            old(self).wf(),
            old(self).current + expected@.len() <= usize::MAX,
        ensures
            final(self).wf(),
            final(self).buf == old(self).buf,
            final(self).start == old(self).start,
            final(self).line == old(self).line,
            final(self).tokens == old(self).tokens,
            final(self).diags == old(self).diags,
            ({
                let cur = old(self).current as int;
                let n = expected@.len() as int;
                if cur + n >= old(self).buf@.len() {
                    ty == no && final(self).current == old(self).current
                } else if old(self).buf@.subrange(cur, cur + n) == expected@ {
                    ty == yes && final(self).current == old(self).current + n
                } else {
                    ty == no && final(self).current == old(self).current
                }
            }),
    {
        let n: usize = expected.len();
        if self.current + n >= self.buf.len() {
            return no;
        }
        let mut k: usize = 0;
        while k < n
            invariant
                k <= n,
                n == expected@.len(),
                self.wf(),
                self.buf == old(self).buf,
                self.start == old(self).start,
                self.current == old(self).current,
                self.line == old(self).line,
                self.tokens == old(self).tokens,
                self.diags == old(self).diags,
                self.current + n < self.buf@.len(),
                forall|m: int|
                    0 <= m < k ==> self.buf@[self.current + m] == expected@[m],
            decreases n - k,
        {
            if self.buf[self.current + k] != expected[k] {
                proof {
                    let cur = self.current as int;
                    assert(self.buf@.subrange(cur, cur + n)[k as int] == self.buf@[cur + k]);
                }
                return no;
            }
            k = k + 1;
        }
        proof {
            let cur = self.current as int;
            assert(self.buf@.subrange(cur, cur + n as int) =~= expected@);
        }
        self.current = self.current + n;
        yes
    }

    /// Consumes a string literal from just after the opening quote, which
    /// sits at `start`; on success emits the `Str` token, and when input runs
    /// out first, reports the unterminated literal instead.
    fn expect_string(&mut self)
        requires
            old(self).wf(),
            old(self).current == old(self).start + 1,
            old(self).buf@[old(self).start as int] == '"',
        ensures
            final(self).wf(),
            final(self).buf == old(self).buf,
            final(self).start == old(self).start,
            ({
                let st = step_string(old(self).buf@, old(self).start as nat, old(self).line as nat);
                &&& final(self).current == st.next
                &&& final(self).line == st.line
                &&& tokens_view(final(self).tokens@) == tokens_view(old(self).tokens@)
                    + opt_seq(st.token)
                &&& diags_view(final(self).diags@) == diags_view(old(self).diags@) + opt_seq(
                    st.diag,
                )
            }),
    {
        proof {
            lemma_seek_quote(old(self).buf@, old(self).current as nat);
        }
        while self.peek() != '"' && !self.reached_eof()
            invariant
                self.wf(),
                self.buf == old(self).buf,
                self.start == old(self).start,
                self.tokens == old(self).tokens,
                self.diags == old(self).diags,
                old(self).start + 1 <= self.current,
                self.line == old(self).line + newlines_in(
                    self.buf@,
                    (old(self).start + 1) as nat,
                    self.current as nat,
                ),
                seek_quote(self.buf@, (old(self).start + 1) as nat) == seek_quote(
                    self.buf@,
                    self.current as nat,
                ),
            decreases self.buf@.len() - self.current,
        {
            if self.peek() == '\n' {
                self.line = self.line + 1;
            }
            self.advance();
        }
        proof {
            lemma_newlines_bound(
                self.buf@,
                (old(self).start + 1) as nat,
                self.current as nat,
            );
        }
        if self.reached_eof() {
            let line: usize = self.line;
            let d = error(line, "Unterminated string literal.");
            proof {
                lemma_diags_view_push(self.diags@, d);
                lemma_push_opt(diags_view(self.diags@), d@);
                lemma_cat_none(tokens_view(self.tokens@));
            }
            self.diags.push(d);
            return ;
        }
        // The closing quote is syntax, not part of the literal: consume it
        // and cut both quotes out of the span.
        self.advance();
        let lit: String = chars_to_string(&self.buf, self.start + 1, self.current - 1);
        self.add_token_lit(TTy::Str, TLit::Str(lit));
        proof {
            let st = step_string(old(self).buf@, old(self).start as nat, old(self).line as nat);
            assert(tokens_view(self.tokens@) =~= tokens_view(old(self).tokens@) + opt_seq(
                st.token,
            ));
            lemma_cat_none(diags_view(self.diags@));
        }
    }

    /// Consumes a number literal whose first digit sits at `start`: a maximal
    /// digit run, a fractional part only when a digit directly follows the
    /// decimal point, and emits the `Number` token carrying its digit text.
    fn expect_number(&mut self)
        requires
            old(self).wf(),
            old(self).current == old(self).start + 1,
            spec_is_digit(old(self).buf@[old(self).start as int]),
        ensures
            final(self).wf(),
            final(self).buf == old(self).buf,
            final(self).start == old(self).start,
            final(self).line == old(self).line,
            final(self).diags == old(self).diags,
            ({
                let st = step_number(old(self).buf@, old(self).start as nat, old(self).line as nat);
                &&& final(self).current == st.next
                &&& tokens_view(final(self).tokens@) == tokens_view(old(self).tokens@)
                    + opt_seq(st.token)
            }),
    {
        proof {
            lemma_seek_digits(old(self).buf@, old(self).current as nat);
        }
        while is_digit(self.peek()) && !self.reached_eof()
            invariant
                self.wf(),
                self.buf == old(self).buf,
                self.start == old(self).start,
                self.line == old(self).line,
                self.tokens == old(self).tokens,
                self.diags == old(self).diags,
                old(self).start + 1 <= self.current,
                seek_digits(self.buf@, (old(self).start + 1) as nat) == seek_digits(
                    self.buf@,
                    self.current as nat,
                ),
            decreases self.buf@.len() - self.current,
        {
            self.advance();
        }
        let ghost d1 = self.current as nat;
        // A fractional part is consumed only when a digit follows the dot;
        // otherwise the dot is left for the next token.
        if self.peek() == '.' && is_digit(self.peek_ahead(1)) {
            proof {
                lemma_seek_digits(self.buf@, (self.current + 1) as nat);
            }
            self.advance();
            while is_digit(self.peek())
                invariant
                    self.wf(),
                    self.buf == old(self).buf,
                    self.start == old(self).start,
                    self.line == old(self).line,
                    self.tokens == old(self).tokens,
                    self.diags == old(self).diags,
                    d1 + 1 <= self.current,
                    seek_digits(self.buf@, (d1 + 1) as nat) == seek_digits(
                        self.buf@,
                        self.current as nat,
                    ),
                decreases self.buf@.len() - self.current,
            {
                self.advance();
            }
        }
        let lit: String = self.span_string();
        self.add_token_lit(TTy::Number, TLit::Number(lit));
        proof {
            let st = step_number(old(self).buf@, old(self).start as nat, old(self).line as nat);
            assert(tokens_view(self.tokens@) =~= tokens_view(old(self).tokens@) + opt_seq(
                st.token,
            ));
        }
    }

    /// Consumes an identifier from the alphabetic character at `start`, then
    /// matches the completed span exactly against the keyword table; `True`
    /// and `False` carry their boolean literal.
    fn expect_ident(&mut self)
        requires
            old(self).wf(),
            old(self).current == old(self).start + 1,
        ensures
            final(self).wf(),
            final(self).buf == old(self).buf,
            final(self).start == old(self).start,
            final(self).line == old(self).line,
            final(self).diags == old(self).diags,
            ({
                let st = step_ident(old(self).buf@, old(self).start as nat, old(self).line as nat);
                &&& final(self).current == st.next
                &&& tokens_view(final(self).tokens@) == tokens_view(old(self).tokens@)
                    + opt_seq(st.token)
            }),
    {
        proof {
            lemma_seek_alnum(old(self).buf@, old(self).current as nat);
        }
        while !self.reached_eof() && self.peek() != '\n' && is_alnum(self.peek())
            invariant
                self.wf(),
                self.buf == old(self).buf,
                self.start == old(self).start,
                self.line == old(self).line,
                self.tokens == old(self).tokens,
                self.diags == old(self).diags,
                old(self).start + 1 <= self.current,
                seek_alnum(self.buf@, (old(self).start + 1) as nat) == seek_alnum(
                    self.buf@,
                    self.current as nat,
                ),
            decreases self.buf@.len() - self.current,
        {
            self.advance();
        }
        let span: String = self.span_string();
        let is_true: bool = span == String::from_str("True");
        let is_false: bool = span == String::from_str("False");
        let ty: TTy = if span == String::from_str("and") {
            TTy::And
        } else if span == String::from_str("class") {
            TTy::Class
        } else if span == String::from_str("else") {
            TTy::Else
        } else if span == String::from_str("for") {
            TTy::For
        } else if span == String::from_str("fn") {
            TTy::Fun
        } else if span == String::from_str("if") {
            TTy::If
        } else if span == String::from_str("null") {
            TTy::Null
        } else if span == String::from_str("or") {
            TTy::Or
        } else if span == String::from_str("print") {
            TTy::Print
        } else if span == String::from_str("ret") {
            TTy::Return
        } else if span == String::from_str("super") {
            TTy::Super
        } else if span == String::from_str("self") {
            TTy::This
        } else if span == String::from_str("var") {
            TTy::Var
        } else if span == String::from_str("while") {
            TTy::While
        } else if is_true {
            // True and False are proper cased on purpose: the lowercase
            // spellings scan as plain identifiers.
            TTy::True
        } else if is_false {
            TTy::False
        } else {
            TTy::Ident
        };
        let lit: TLit = if is_true {
            TLit::Bool(true)
        } else if is_false {
            TLit::Bool(false)
        } else {
            TLit::Null
        };
        proof {
            reveal_strlit("and");
            reveal_strlit("class");
            reveal_strlit("else");
            reveal_strlit("for");
            reveal_strlit("fn");
            reveal_strlit("if");
            reveal_strlit("null");
            reveal_strlit("or");
            reveal_strlit("print");
            reveal_strlit("ret");
            reveal_strlit("super");
            reveal_strlit("self");
            reveal_strlit("var");
            reveal_strlit("while");
            reveal_strlit("True");
            reveal_strlit("False");
            assert(ty == keyword_ty(span@));
            assert(lit@ == ident_lit(span@));
        }
        self.add_token_lit(ty, lit);
        proof {
            let st = step_ident(old(self).buf@, old(self).start as nat, old(self).line as nat);
            let end = seek_alnum(old(self).buf@, old(self).start as nat + 1);
            assert(self.current as nat == end);
            assert(span@ == old(self).buf@.subrange(old(self).start as int, end as int));
            assert(tokens_view(self.tokens@) =~= tokens_view(old(self).tokens@) + opt_seq(
                st.token,
            ));
        }
    }

    /// One scanning step: dispatches on the character at `start` (where the
    /// cursor also stands), consumes at least one character, and emits at
    /// most one token or one diagnostic.
    fn scan_token(&mut self)
        requires
            old(self).wf(),
            old(self).current < old(self).buf@.len(),
            old(self).start == old(self).current,
        ensures
            final(self).wf(),
            final(self).buf == old(self).buf,
            ({
                let st = spec_step(old(self).buf@, old(self).current as nat, old(self).line as nat);
                &&& final(self).current == st.next
                &&& final(self).line == st.line
                &&& tokens_view(final(self).tokens@) == tokens_view(old(self).tokens@)
                    + opt_seq(st.token)
                &&& diags_view(final(self).diags@) == diags_view(old(self).diags@) + opt_seq(
                    st.diag,
                )
            }),
    {
        let ghost st = spec_step(old(self).buf@, old(self).current as nat, old(self).line as nat);
        let ch = self.advance();
        if ch == '(' {
            self.add_token(TTy::LParen);
        } else if ch == ')' {
            self.add_token(TTy::RParen);
        } else if ch == '{' {
            self.add_token(TTy::LBrace);
        } else if ch == '}' {
            self.add_token(TTy::RBrace);
        } else if ch == ',' {
            self.add_token(TTy::Comma);
        } else if ch == '.' {
            self.add_token(TTy::Period);
        } else if ch == '-' {
            self.add_token(TTy::Minus);
        } else if ch == '+' {
            self.add_token(TTy::Plus);
        } else if ch == ';' {
            self.add_token(TTy::Semicolon);
        } else if ch == '*' {
            self.add_token(TTy::Asterisk);
        } else if ch == '!' {
            let e = Self::single('=');
            let ty = self.expect_many(&e, TTy::BangEq, TTy::Bang);
            proof {
                if old(self).current + 2 <= old(self).buf@.len() {
                    lemma_single_subrange(old(self).buf@, old(self).current + 1, '=');
                }
            }
            self.add_token(ty);
        } else if ch == '=' {
            let e = Self::single('=');
            let ty = self.expect_many(&e, TTy::EqEq, TTy::Equal);
            proof {
                if old(self).current + 2 <= old(self).buf@.len() {
                    lemma_single_subrange(old(self).buf@, old(self).current + 1, '=');
                }
            }
            self.add_token(ty);
        } else if ch == '<' {
            let e = Self::single('=');
            let ty = self.expect_many(&e, TTy::LtEq, TTy::Lt);
            proof {
                if old(self).current + 2 <= old(self).buf@.len() {
                    lemma_single_subrange(old(self).buf@, old(self).current + 1, '=');
                }
            }
            self.add_token(ty);
        } else if ch == '>' {
            let e = Self::single('=');
            let ty = self.expect_many(&e, TTy::GtEq, TTy::Gt);
            proof {
                if old(self).current + 2 <= old(self).buf@.len() {
                    lemma_single_subrange(old(self).buf@, old(self).current + 1, '=');
                }
            }
            self.add_token(ty);
        } else if ch == '/' {
            let e = Self::single('/');
            // When the lookahead finds a second slash this is a line comment,
            // marked with the `Null` sentinel kind; otherwise a division
            // operator.
            let ty = self.expect_many(&e, TTy::Null, TTy::FSlash);
            proof {
                if old(self).current + 2 <= old(self).buf@.len() {
                    lemma_single_subrange(old(self).buf@, old(self).current + 1, '/');
                }
            }
            if ty == TTy::Null {
                proof {
                    lemma_seek_newline(self.buf@, self.current as nat);
                }
                // Consume the rest of the line, but never the newline itself;
                // comments produce no token.
                while self.peek() != '\n' && !self.reached_eof()
                    invariant
                        self.wf(),
                        self.buf == old(self).buf,
                        self.start == old(self).start,
                        self.line == old(self).line,
                        self.tokens == old(self).tokens,
                        self.diags == old(self).diags,
                        old(self).current + 2 <= self.current,
                        seek_newline(self.buf@, (old(self).current + 2) as nat) == seek_newline(
                            self.buf@,
                            self.current as nat,
                        ),
                    decreases self.buf@.len() - self.current,
                {
                    self.advance();
                }
                proof {
                    lemma_cat_none(tokens_view(self.tokens@));
                    lemma_cat_none(diags_view(self.diags@));
                }
                return ;
            }
            self.add_token(ty);
        } else if ch == '"' {
            self.expect_string();
            proof {
                lemma_cat_none(tokens_view(self.tokens@));
                lemma_cat_none(diags_view(self.diags@));
            }
            return ;
        } else if ch == ' ' || ch == '\r' || ch == '\t' {
            proof {
                lemma_cat_none(tokens_view(self.tokens@));
                lemma_cat_none(diags_view(self.diags@));
            }
            return ;
        } else if ch == '\n' {
            self.line = self.line + 1;
            proof {
                lemma_cat_none(tokens_view(self.tokens@));
                lemma_cat_none(diags_view(self.diags@));
            }
            return ;
        } else {
            if is_digit(ch) {
                self.expect_number();
                proof {
                    lemma_cat_none(diags_view(self.diags@));
                }
                return ;
            } else if is_alpha(ch) {
                self.expect_ident();
                proof {
                    lemma_cat_none(diags_view(self.diags@));
                }
                return ;
            }
            // No dispatch rule matches: report and resume at the next
            // character.
            let line: usize = self.line;
            let d = error(line, "Unexpected char.");
            proof {
                lemma_diags_view_push(self.diags@, d);
                lemma_push_opt(diags_view(self.diags@), d@);
                lemma_cat_none(tokens_view(self.tokens@));
            }
            self.diags.push(d);
            return ;
        }
        proof {
            assert(tokens_view(self.tokens@) =~= tokens_view(old(self).tokens@) + opt_seq(
                st.token,
            ));
            lemma_cat_none(diags_view(self.diags@));
        }
    }

    /// Consumes the source code from start to finish, yielding the complete
    /// list of lexed tokens — always ending with the single end marker —
    /// together with the diagnostics reported along the way.
    pub fn scan_tokens(self) -> (r: (Vec<Token>, Vec<Diag>))
        requires
            self.wf(),
        ensures
            ({
                let res = spec_scan(self.buf@, self.current as nat, self.line as nat);
                &&& tokens_view(r.0@) == tokens_view(self.tokens@) + res.tokens + seq![
                    eof_token(res.line),
                ]
                &&& diags_view(r.1@) == diags_view(self.diags@) + res.diags
            }),
            // For a freshly constructed scanner this is the complete scan of
            // the source, end marker included.
            self.current == 0 && self.line == 1 && self.tokens@.len() == 0 && self.diags@.len()
                == 0 ==> tokens_view(r.0@) == spec_scan_output(self.buf@).tokens && diags_view(
                r.1@,
            ) == spec_scan_output(self.buf@).diags,
    {
        let ghost res0 = spec_scan(self.buf@, self.current as nat, self.line as nat);
        let mut sc = self;
        while !sc.reached_eof()
            invariant
                sc.wf(),
                sc.buf == self.buf,
                tokens_view(sc.tokens@) + spec_scan(sc.buf@, sc.current as nat, sc.line as nat).tokens
                    == tokens_view(self.tokens@) + res0.tokens,
                diags_view(sc.diags@) + spec_scan(sc.buf@, sc.current as nat, sc.line as nat).diags
                    == diags_view(self.diags@) + res0.diags,
                spec_scan(sc.buf@, sc.current as nat, sc.line as nat).line == res0.line,
            decreases sc.buf@.len() - sc.current,
        {
            sc.start = sc.current;
            let ghost pre = sc;
            proof {
                lemma_step_bounds(pre.buf@, pre.current as nat, pre.line as nat);
            }
            sc.scan_token();
            proof {
                let st = spec_step(pre.buf@, pre.current as nat, pre.line as nat);
                let rest = spec_scan(pre.buf@, st.next, st.line);
                lemma_cat_assoc(tokens_view(pre.tokens@), opt_seq(st.token), rest.tokens);
                lemma_cat_assoc(diags_view(pre.diags@), opt_seq(st.diag), rest.diags);
            }
        }
        proof {
            assert(tokens_view(sc.tokens@) =~= tokens_view(sc.tokens@) + spec_scan(
                sc.buf@,
                sc.current as nat,
                sc.line as nat,
            ).tokens);
            assert(diags_view(sc.diags@) =~= diags_view(sc.diags@) + spec_scan(
                sc.buf@,
                sc.current as nat,
                sc.line as nat,
            ).diags);
        }
        // Manually insert the end marker now that the scanner is at the end.
        let line: usize = sc.line;
        let mut tokens = sc.tokens;
        let t = Token::new(TTy::Eof, String::new(), TLit::Null, line);
        proof {
            lemma_tokens_view_push(tokens@, t);
        }
        tokens.push(t);
        proof {
            assert(tokens_view(tokens@) =~= tokens_view(self.tokens@) + res0.tokens + seq![
                eof_token(res0.line),
            ]);
            if self.current == 0 && self.line == 1 && self.tokens@.len() == 0 && self.diags@.len()
                == 0 {
                assert(tokens_view(tokens@) =~= spec_scan_output(self.buf@).tokens);
                assert(diags_view(sc.diags@) =~= spec_scan_output(self.buf@).diags);
            }
        }
        (tokens, sc.diags)
    }
}

} // verus!
