//! The mathematical model of the scan: a step function that says what one
//! dispatch of the scanner does at a cursor position, and a recursive scan
//! function that folds the steps over the whole buffer. The scanner's
//! executable code is verified against this model.

use vstd::prelude::*;

use crate::chars::{alnum_char, alpha_char, spec_is_digit};
use crate::error_log::SpecDiag;
use crate::tokens::{SpecLit, SpecToken, TTy};

verus! {

/// The message reported for a character no dispatch rule matches.
pub open spec fn msg_unexpected() -> Seq<char> {
    "Unexpected char."@
}

/// The message reported for a string literal opened but never closed.
pub open spec fn msg_unterminated() -> Seq<char> {
    "Unterminated string literal."@
}

/// Whether `c` may continue an identifier: Unicode-alphanumeric. The newline
/// character is excluded outright so that line counting does not depend on
/// the opaque Unicode tables (a newline is not alphanumeric, so the exclusion
/// never changes which characters are consumed).
pub open spec fn ident_cont(c: char) -> bool {
    c != '\n' && alnum_char(c)
}

/// First index at or after `i` that does not hold an ASCII digit, or the
/// buffer length.
pub open spec fn seek_digits(s: Seq<char>, i: nat) -> nat
    decreases s.len() - i
        when i <= s.len()
{
    if i >= s.len() {
        i
    } else if spec_is_digit(s[i as int]) {
        seek_digits(s, i + 1)
    } else {
        i
    }
}

/// First index at or after `i` that does not hold an identifier-continuation
/// character, or the buffer length.
pub open spec fn seek_alnum(s: Seq<char>, i: nat) -> nat
    decreases s.len() - i
        when i <= s.len()
{
    if i >= s.len() {
        i
    } else if ident_cont(s[i as int]) {
        seek_alnum(s, i + 1)
    } else {
        i
    }
}

/// First index at or after `i` holding a double quote, or the buffer length.
pub open spec fn seek_quote(s: Seq<char>, i: nat) -> nat
    decreases s.len() - i
        when i <= s.len()
{
    if i >= s.len() {
        i
    } else if s[i as int] != '"' {
        seek_quote(s, i + 1)
    } else {
        i
    }
}

/// First index at or after `i` holding a newline, or the buffer length.
pub open spec fn seek_newline(s: Seq<char>, i: nat) -> nat
    decreases s.len() - i
        when i <= s.len()
{
    if i >= s.len() {
        i
    } else if s[i as int] != '\n' {
        seek_newline(s, i + 1)
    } else {
        i
    }
}

/// How many newline characters `s[i..j)` holds.
pub open spec fn newlines_in(s: Seq<char>, i: nat, j: nat) -> nat
    decreases j - i
{
    if j <= i {
        0
    } else {
        newlines_in(s, i, (j - 1) as nat) + if s[j - 1] == '\n' {
            1nat
        } else {
            0nat
        }
    }
}

/// The kinds of the fixed single-character tokens.
pub open spec fn punct_ty(c: char) -> TTy {
    if c == '(' {
        TTy::LParen
    } else if c == ')' {
        TTy::RParen
    } else if c == '{' {
        TTy::LBrace
    } else if c == '}' {
        TTy::RBrace
    } else if c == ',' {
        TTy::Comma
    } else if c == '.' {
        TTy::Period
    } else if c == '-' {
        TTy::Minus
    } else if c == '+' {
        TTy::Plus
    } else if c == ';' {
        TTy::Semicolon
    } else {
        TTy::Asterisk
    }
}

/// Whether `c` is one of the fixed single-character tokens.
pub open spec fn is_punct(c: char) -> bool {
    c == '(' || c == ')' || c == '{' || c == '}' || c == ',' || c == '.' || c == '-' || c == '+'
        || c == ';' || c == '*'
}

/// The keyword table: an identifier span is matched exactly, case-sensitively,
/// against these fixed spellings; any non-match is a plain identifier.
pub open spec fn keyword_ty(s: Seq<char>) -> TTy {
    if s == "and"@ {
        TTy::And
    } else if s == "class"@ {
        TTy::Class
    } else if s == "else"@ {
        TTy::Else
    } else if s == "for"@ {
        TTy::For
    } else if s == "fn"@ {
        TTy::Fun
    } else if s == "if"@ {
        TTy::If
    } else if s == "null"@ {
        TTy::Null
    } else if s == "or"@ {
        TTy::Or
    } else if s == "print"@ {
        TTy::Print
    } else if s == "ret"@ {
        TTy::Return
    } else if s == "super"@ {
        TTy::Super
    } else if s == "self"@ {
        TTy::This
    } else if s == "var"@ {
        TTy::Var
    } else if s == "while"@ {
        TTy::While
    } else if s == "True"@ {
        TTy::True
    } else if s == "False"@ {
        TTy::False
    } else {
        TTy::Ident
    }
}

/// The literal an identifier span carries: the boolean keywords carry their
/// boolean, everything else carries no literal.
pub open spec fn ident_lit(s: Seq<char>) -> SpecLit {
    if s == "True"@ {
        SpecLit::Bool(true)
    } else if s == "False"@ {
        SpecLit::Bool(false)
    } else {
        SpecLit::Null
    }
}

/// The effect of one dispatch of the scanner: the cursor and line counter
/// after the step, and the token or diagnostic it produced, if any.
pub ghost struct SpecStep {
    pub next: nat,
    pub line: nat,
    pub token: Option<SpecToken>,
    pub diag: Option<SpecDiag>,
}

/// A step that consumes `[cur, next)` and emits one token there.
pub open spec fn emit_at(
    s: Seq<char>,
    cur: nat,
    next: nat,
    ty: TTy,
    lit: SpecLit,
    line: nat,
) -> SpecStep {
    SpecStep {
        next,
        line,
        token: Some(
            SpecToken { ty, lexeme: s.subrange(cur as int, next as int), literal: lit, line },
        ),
        diag: None,
    }
}

/// A step that consumes up to `next` and emits nothing.
pub open spec fn skip_to(next: nat, line: nat) -> SpecStep {
    SpecStep { next, line, token: None, diag: None }
}

/// Lookahead for a one-or-two-character operator: the equals-suffixed form is
/// taken only when the next character matches `expect` *and* strictly more
/// than one character remains after the cursor — a match ending exactly at
/// end of input is deliberately rejected, reproducing the scanner's
/// lookahead guard.
pub open spec fn step_two_char(
    s: Seq<char>,
    cur: nat,
    line: nat,
    expect: char,
    yes: TTy,
    no: TTy,
) -> SpecStep {
    if cur + 2 < s.len() && s[cur + 1int] == expect {
        emit_at(s, cur, cur + 2, yes, SpecLit::Null, line)
    } else {
        emit_at(s, cur, cur + 1, no, SpecLit::Null, line)
    }
}

/// A string literal from the opening quote at `cur`: consume to the closing
/// quote, counting embedded newlines; if input ends first, report an
/// unterminated literal and emit nothing.
pub open spec fn step_string(s: Seq<char>, cur: nat, line: nat) -> SpecStep {
    let close = seek_quote(s, cur + 1);
    if close >= s.len() {
        let l2 = line + newlines_in(s, cur + 1, s.len());
        SpecStep {
            next: s.len(),
            line: l2,
            token: None,
            diag: Some(SpecDiag { line: l2, message: msg_unterminated() }),
        }
    } else {
        let l2 = line + newlines_in(s, cur + 1, close);
        emit_at(
            s,
            cur,
            close + 1,
            TTy::Str,
            SpecLit::Str(s.subrange(cur + 1int, close as int)),
            l2,
        )
    }
}

/// A number literal from the digit at `cur`: a maximal digit run, then a
/// fractional part only when a digit directly follows the decimal point;
/// otherwise the point is left for the next token.
pub open spec fn step_number(s: Seq<char>, cur: nat, line: nat) -> SpecStep {
    let d1 = seek_digits(s, cur + 1);
    let end = if d1 + 1 < s.len() && s[d1 as int] == '.' && spec_is_digit(s[d1 + 1int]) {
        seek_digits(s, d1 + 1)
    } else {
        d1
    };
    emit_at(s, cur, end, TTy::Number, SpecLit::Number(s.subrange(cur as int, end as int)), line)
}

/// An identifier or keyword from the alphabetic character at `cur`: a maximal
/// run of identifier characters, then an exact keyword-table match.
pub open spec fn step_ident(s: Seq<char>, cur: nat, line: nat) -> SpecStep {
    let end = seek_alnum(s, cur + 1);
    let span = s.subrange(cur as int, end as int);
    emit_at(s, cur, end, keyword_ty(span), ident_lit(span), line)
}

/// One dispatch of the scanner at `cur` (which must be in bounds): consume at
/// least one character and decide a token, a skip, or a diagnostic.
pub open spec fn spec_step(s: Seq<char>, cur: nat, line: nat) -> SpecStep
    recommends
        cur < s.len(),
{
    let c = s[cur as int];
    if is_punct(c) {
        emit_at(s, cur, cur + 1, punct_ty(c), SpecLit::Null, line)
    } else if c == '!' {
        step_two_char(s, cur, line, '=', TTy::BangEq, TTy::Bang)
    } else if c == '=' {
        step_two_char(s, cur, line, '=', TTy::EqEq, TTy::Equal)
    } else if c == '<' {
        step_two_char(s, cur, line, '=', TTy::LtEq, TTy::Lt)
    } else if c == '>' {
        step_two_char(s, cur, line, '=', TTy::GtEq, TTy::Gt)
    } else if c == '/' {
        if cur + 2 < s.len() && s[cur + 1int] == '/' {
            // A line comment: discard through the end of the line, never past
            // it; the newline itself is left unconsumed.
            skip_to(seek_newline(s, cur + 2), line)
        } else {
            emit_at(s, cur, cur + 1, TTy::FSlash, SpecLit::Null, line)
        }
    } else if c == '"' {
        step_string(s, cur, line)
    } else if c == ' ' || c == '\r' || c == '\t' {
        skip_to(cur + 1, line)
    } else if c == '\n' {
        skip_to(cur + 1, line + 1)
    } else if spec_is_digit(c) {
        step_number(s, cur, line)
    } else if alpha_char(c) {
        step_ident(s, cur, line)
    } else {
        SpecStep {
            next: cur + 1,
            line,
            token: None,
            diag: Some(SpecDiag { line, message: msg_unexpected() }),
        }
    }
}

/// A singleton or empty sequence from an optional value.
pub open spec fn opt_seq<A>(o: Option<A>) -> Seq<A> {
    match o {
        Some(a) => seq![a],
        None => Seq::empty(),
    }
}

/// What a whole scan from a given state produces: the tokens and diagnostics,
/// in order, and the line counter when the cursor reaches the end.
pub ghost struct ScanRes {
    pub tokens: Seq<SpecToken>,
    pub diags: Seq<SpecDiag>,
    pub line: nat,
}

/// The scan from cursor `cur` and line counter `line` to the end of the
/// buffer. The end marker is not included; see `spec_scan_output`.
pub open spec fn spec_scan(s: Seq<char>, cur: nat, line: nat) -> ScanRes
    decreases s.len() - cur
        when cur <= s.len()
        via spec_scan_dec
{
    if cur >= s.len() {
        ScanRes { tokens: Seq::empty(), diags: Seq::empty(), line }
    } else {
        let st = spec_step(s, cur, line);
        let rest = spec_scan(s, st.next, st.line);
        ScanRes {
            tokens: opt_seq(st.token) + rest.tokens,
            diags: opt_seq(st.diag) + rest.diags,
            line: rest.line,
        }
    }
}

#[via_fn]
proof fn spec_scan_dec(s: Seq<char>, cur: nat, line: nat) {
    if cur < s.len() {
        lemma_step_bounds(s, cur, line);
    }
}

/// Bounds of the digit-run end: it lies between `i` and the buffer length,
/// everything before it (from `i`) is a digit, and the character there, if
/// any, is not.
pub proof fn lemma_seek_digits(s: Seq<char>, i: nat)
    requires
        i <= s.len(),
    ensures
        i <= seek_digits(s, i) <= s.len(),
        forall|k: int| i <= k < seek_digits(s, i) ==> spec_is_digit(s[k]),
        seek_digits(s, i) < s.len() ==> !spec_is_digit(s[seek_digits(s, i) as int]),
    decreases s.len() - i,
{
    if i < s.len() && spec_is_digit(s[i as int]) {
        lemma_seek_digits(s, i + 1);
    }
}

/// Bounds of the identifier-run end, as for `lemma_seek_digits`.
pub proof fn lemma_seek_alnum(s: Seq<char>, i: nat)
    requires
        i <= s.len(),
    ensures
        i <= seek_alnum(s, i) <= s.len(),
        forall|k: int| i <= k < seek_alnum(s, i) ==> ident_cont(s[k]),
        seek_alnum(s, i) < s.len() ==> !ident_cont(s[seek_alnum(s, i) as int]),
    decreases s.len() - i,
{
    if i < s.len() && ident_cont(s[i as int]) {
        lemma_seek_alnum(s, i + 1);
    }
}

/// Bounds of the next double quote, as for `lemma_seek_digits`.
pub proof fn lemma_seek_quote(s: Seq<char>, i: nat)
    requires
        i <= s.len(),
    ensures
        i <= seek_quote(s, i) <= s.len(),
        forall|k: int| i <= k < seek_quote(s, i) ==> s[k] != '"',
        seek_quote(s, i) < s.len() ==> s[seek_quote(s, i) as int] == '"',
    decreases s.len() - i,
{
    if i < s.len() && s[i as int] != '"' {
        lemma_seek_quote(s, i + 1);
    }
}

/// Bounds of the next newline, as for `lemma_seek_digits`.
pub proof fn lemma_seek_newline(s: Seq<char>, i: nat)
    requires
        i <= s.len(),
    ensures
        i <= seek_newline(s, i) <= s.len(),
        forall|k: int| i <= k < seek_newline(s, i) ==> s[k] != '\n',
        seek_newline(s, i) < s.len() ==> s[seek_newline(s, i) as int] == '\n',
    decreases s.len() - i,
{
    if i < s.len() && s[i as int] != '\n' {
        lemma_seek_newline(s, i + 1);
    }
}

/// Every step consumes at least one character and never runs past the end.
pub proof fn lemma_step_bounds(s: Seq<char>, cur: nat, line: nat)
    requires
        cur < s.len(),
    ensures
        cur < spec_step(s, cur, line).next <= s.len(),
{
    lemma_seek_digits(s, cur + 1);
    let d1 = seek_digits(s, cur + 1);
    if d1 + 1 < s.len() {
        lemma_seek_digits(s, d1 + 1);
    }
    lemma_seek_alnum(s, cur + 1);
    lemma_seek_quote(s, cur + 1);
    if cur + 2 < s.len() {
        lemma_seek_newline(s, cur + 2);
    }
}

/// A scan consumes each newline once, so the line counter never exceeds the
/// cursor by more than it started with.
pub proof fn lemma_newlines_bound(s: Seq<char>, i: nat, j: nat)
    requires
        i <= j,
    ensures
        newlines_in(s, i, j) <= j - i,
    decreases j - i,
{
    if i < j {
        lemma_newlines_bound(s, i, (j - 1) as nat);
    }
}

/// Appending an element is concatenating the singleton of it.
pub proof fn lemma_push_opt<A>(s: Seq<A>, a: A)
    ensures
        s.push(a) == s + opt_seq(Some(a)),
{
    assert(s.push(a) =~= s + opt_seq(Some(a)));
}

/// Concatenating the empty option sequence changes nothing.
pub proof fn lemma_cat_none<A>(s: Seq<A>)
    ensures
        s == s + opt_seq(None::<A>),
{
    assert(s =~= s + opt_seq(None::<A>));
}

/// Sequence concatenation is associative.
pub proof fn lemma_cat_assoc<A>(a: Seq<A>, b: Seq<A>, c: Seq<A>)
    ensures
        (a + b) + c == a + (b + c),
{
    assert((a + b) + c =~= a + (b + c));
}

/// A one-character subrange equals the singleton of a character exactly when
/// the character there is that character.
pub proof fn lemma_single_subrange(s: Seq<char>, i: int, c: char)
    requires
        0 <= i,
        i + 1 <= s.len(),
    ensures
        (s.subrange(i, i + 1) == seq![c]) <==> s[i] == c,
{
    if s[i] == c {
        assert(s.subrange(i, i + 1) =~= seq![c]);
    } else {
        assert(s.subrange(i, i + 1)[0] == s[i]);
    }
}

/// The end marker: empty lexeme, no literal, the line active when scanning
/// stopped.
pub open spec fn eof_token(line: nat) -> SpecToken {
    SpecToken { ty: TTy::Eof, lexeme: Seq::empty(), literal: SpecLit::Null, line }
}

/// The complete scan of a source text, from its start on line 1: the full
/// token sequence including the final end marker, and all diagnostics.
pub open spec fn spec_scan_output(s: Seq<char>) -> ScanRes {
    let r = spec_scan(s, 0, 1);
    ScanRes { tokens: r.tokens.push(eof_token(r.line)), diags: r.diags, line: r.line }
}

} // verus!
