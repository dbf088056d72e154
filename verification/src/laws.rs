//! Laws of the scan, proved once and for all inputs.
//!
//! Each public proof function here states a property of the scan model that
//! the scanner's contracts carry over to the executable scanner.

use vstd::prelude::*;

use crate::chars::spec_is_digit;
use crate::scan_model::{
    eof_token, ident_lit, is_punct, keyword_ty, lemma_newlines_bound, lemma_seek_alnum,
    lemma_seek_digits, lemma_seek_newline, lemma_seek_quote, lemma_step_bounds, newlines_in,
    seek_digits, seek_newline, seek_quote, spec_scan, spec_scan_output, spec_step,
};
use crate::tokens::{SpecLit, SpecToken, TTy};

verus! {

/// A single step never emits the end marker, and every token it emits has a
/// non-empty lexeme.
proof fn lemma_step_token_shape(s: Seq<char>, cur: nat, line: nat)
    requires
        cur < s.len(),
    ensures
        (spec_step(s, cur, line).token matches Some(t) ==> t.ty != TTy::Eof && t.lexeme.len()
            >= 1),
{
    lemma_seek_quote(s, cur + 1);
    lemma_seek_digits(s, cur + 1);
    let d1 = seek_digits(s, cur + 1);
    if d1 + 1 < s.len() {
        lemma_seek_digits(s, d1 + 1);
    }
    lemma_seek_alnum(s, cur + 1);
}

/// No token of the scan proper is the end marker or has an empty lexeme.
proof fn lemma_scan_no_eof(s: Seq<char>, cur: nat, line: nat)
    requires
        cur <= s.len(),
    ensures
        forall|i: int|
            0 <= i < spec_scan(s, cur, line).tokens.len() ==> #[trigger] spec_scan(
                s,
                cur,
                line,
            ).tokens[i].ty != TTy::Eof && spec_scan(s, cur, line).tokens[i].lexeme.len() >= 1,
    decreases s.len() - cur,
{
    if cur < s.len() {
        let st = spec_step(s, cur, line);
        lemma_step_bounds(s, cur, line);
        lemma_step_token_shape(s, cur, line);
        lemma_scan_no_eof(s, st.next, st.line);
    }
}

/// For every input, the last token of the complete scan is the end marker
/// with an empty lexeme, and it is the only token with either property.
pub proof fn lemma_end_marker(s: Seq<char>)
    ensures
        spec_scan_output(s).tokens.len() >= 1,
        spec_scan_output(s).tokens.last() == eof_token(spec_scan_output(s).line),
        forall|i: int|
            0 <= i < spec_scan_output(s).tokens.len() - 1 ==> #[trigger] spec_scan_output(
                s,
            ).tokens[i].ty != TTy::Eof && spec_scan_output(s).tokens[i].lexeme.len() >= 1,
{
    lemma_scan_no_eof(s, 0, 1);
}

/// `s[i..k)` holds exactly the newlines of `s[i..j)` and of `s[j..k)`.
pub proof fn lemma_newlines_split(s: Seq<char>, i: nat, j: nat, k: nat)
    requires
        i <= j <= k,
    ensures
        newlines_in(s, i, k) == newlines_in(s, i, j) + newlines_in(s, j, k),
    decreases k - j,
{
    if j < k {
        lemma_newlines_split(s, i, j, (k - 1) as nat);
    }
}

/// A region without newline characters counts no newlines.
pub proof fn lemma_newlines_none(s: Seq<char>, i: nat, j: nat)
    requires
        i <= j,
        forall|m: int| i <= m < j ==> s[m] != '\n',
    ensures
        newlines_in(s, i, j) == 0,
    decreases j - i,
{
    if i < j {
        lemma_newlines_none(s, i, (j - 1) as nat);
    }
}

/// One step advances the line counter by exactly the newlines it consumes,
/// and stamps any emitted token with the line it ends on.
proof fn lemma_step_line(s: Seq<char>, cur: nat, line: nat)
    requires
        cur < s.len(),
    ensures
        spec_step(s, cur, line).line == line + newlines_in(s, cur, spec_step(s, cur, line).next),
        (spec_step(s, cur, line).token matches Some(t) ==> t.line == spec_step(s, cur, line).line),
{
    let st = spec_step(s, cur, line);
    let c = s[cur as int];
    lemma_step_bounds(s, cur, line);
    if c == '\n' {
        assert(newlines_in(s, cur, cur) == 0);
        assert(newlines_in(s, cur, cur + 1) == 1);
    } else if c == '"' {
        let close = seek_quote(s, cur + 1);
        lemma_seek_quote(s, cur + 1);
        assert(newlines_in(s, cur, cur) == 0);
        assert(newlines_in(s, close, close) == 0);
        if close >= s.len() {
            lemma_newlines_split(s, cur, cur + 1, s.len());
            assert(newlines_in(s, cur, cur + 1) == 0);
        } else {
            lemma_newlines_split(s, cur, cur + 1, close + 1);
            lemma_newlines_split(s, cur + 1, close, close + 1);
            assert(newlines_in(s, cur, cur + 1) == 0);
            assert(newlines_in(s, close, close + 1) == 0);
        }
    } else if !is_punct(c) && c == '/' && cur + 2 < s.len() && s[cur + 1int] == '/' {
        lemma_seek_newline(s, cur + 2);
        assert forall|m: int| cur <= m < st.next implies s[m] != '\n' by {}
        lemma_newlines_none(s, cur, st.next);
    } else if !is_punct(c) && !(c == '!' || c == '=' || c == '<' || c == '>' || c == '/' || c
        == '"' || c == ' ' || c == '\r' || c == '\t' || c == '\n') && spec_is_digit(c) {
        lemma_seek_digits(s, cur + 1);
        let d1 = seek_digits(s, cur + 1);
        if d1 + 1 < s.len() {
            lemma_seek_digits(s, d1 + 1);
        }
        assert forall|m: int| cur <= m < st.next implies s[m] != '\n' by {
            assert(spec_is_digit('\n') == false);
        }
        lemma_newlines_none(s, cur, st.next);
    } else {
        lemma_seek_alnum(s, cur + 1);
        assert forall|m: int| cur <= m < st.next implies s[m] != '\n' by {}
        lemma_newlines_none(s, cur, st.next);
    }
}

/// The scan's final line counter is its starting value plus one for each
/// newline character in the remaining input — each newline is counted
/// exactly once, including newlines inside multi-line string literals.
pub proof fn lemma_line_total(s: Seq<char>, cur: nat, line: nat)
    requires
        cur <= s.len(),
    ensures
        spec_scan(s, cur, line).line == line + newlines_in(s, cur, s.len()),
    decreases s.len() - cur,
{
    if cur >= s.len() {
        assert(newlines_in(s, cur, s.len()) == 0);
    } else {
        let st = spec_step(s, cur, line);
        lemma_step_bounds(s, cur, line);
        lemma_step_line(s, cur, line);
        lemma_line_total(s, st.next, st.line);
        lemma_newlines_split(s, cur, st.next, s.len());
    }
}

/// Line numbers never decrease across the token sequence, and every token's
/// line lies between the starting counter and the final one.
proof fn lemma_scan_lines_sorted(s: Seq<char>, cur: nat, line: nat)
    requires
        cur <= s.len(),
    ensures
        forall|i: int|
            0 <= i < spec_scan(s, cur, line).tokens.len() ==> line <= #[trigger] spec_scan(
                s,
                cur,
                line,
            ).tokens[i].line <= spec_scan(s, cur, line).line,
        forall|i: int, j: int|
            0 <= i <= j < spec_scan(s, cur, line).tokens.len() ==> #[trigger] spec_scan(
                s,
                cur,
                line,
            ).tokens[i].line <= #[trigger] spec_scan(s, cur, line).tokens[j].line,
    decreases s.len() - cur,
{
    if cur < s.len() {
        let st = spec_step(s, cur, line);
        lemma_step_bounds(s, cur, line);
        lemma_step_line(s, cur, line);
        lemma_line_total(s, st.next, st.line);
        lemma_newlines_bound(s, cur, st.next);
        lemma_scan_lines_sorted(s, st.next, st.line);
    }
}

/// Line numbers are non-decreasing across the complete output, they start at
/// least at 1, and the final counter — carried by the end marker — is 1 plus
/// the number of newline characters in the source.
pub proof fn lemma_line_numbers(s: Seq<char>)
    ensures
        spec_scan_output(s).line == 1 + newlines_in(s, 0, s.len()),
        forall|i: int, j: int|
            0 <= i <= j < spec_scan_output(s).tokens.len() ==> #[trigger] spec_scan_output(
                s,
            ).tokens[i].line <= #[trigger] spec_scan_output(s).tokens[j].line,
        forall|i: int|
            0 <= i < spec_scan_output(s).tokens.len() ==> 1 <= #[trigger] spec_scan_output(
                s,
            ).tokens[i].line <= spec_scan_output(s).line,
{
    lemma_line_total(s, 0, 1);
    lemma_scan_lines_sorted(s, 0, 1);
}

/// Keyword matching is exact and case-sensitive: a completed identifier span
/// is a keyword token exactly when it equals one of the sixteen fixed
/// spellings, and a plain identifier otherwise.
pub proof fn lemma_keyword_exact(s: Seq<char>)
    ensures
        (keyword_ty(s) == TTy::Ident) <==> !(s == "and"@ || s == "class"@ || s == "else"@ || s
            == "for"@ || s == "fn"@ || s == "if"@ || s == "null"@ || s == "or"@ || s == "print"@
            || s == "ret"@ || s == "super"@ || s == "self"@ || s == "var"@ || s == "while"@ || s
            == "True"@ || s == "False"@),
{
}

/// `True` and `False` are recognized only in that exact casing and always
/// carry their boolean literal; the lowercase spellings are plain
/// identifiers with no literal.
pub proof fn lemma_bool_literals(s: Seq<char>)
    ensures
        s == "True"@ ==> keyword_ty(s) == TTy::True && ident_lit(s) == SpecLit::Bool(true),
        s == "False"@ ==> keyword_ty(s) == TTy::False && ident_lit(s) == SpecLit::Bool(false),
        s == "true"@ ==> keyword_ty(s) == TTy::Ident && ident_lit(s) == SpecLit::Null,
        s == "false"@ ==> keyword_ty(s) == TTy::Ident && ident_lit(s) == SpecLit::Null,
        keyword_ty(s) == TTy::True ==> ident_lit(s) == SpecLit::Bool(true),
        keyword_ty(s) == TTy::False ==> ident_lit(s) == SpecLit::Bool(false),
        keyword_ty(s) != TTy::True && keyword_ty(s) != TTy::False ==> ident_lit(s)
            == SpecLit::Null,
{
    reveal_strlit("and");
    reveal_strlit("class");
    reveal_strlit("else");
    reveal_strlit("for");
    reveal_strlit("fn");
    reveal_strlit("if");
    reveal_strlit("null");
    reveal_strlit("or");
    reveal_strlit("print");
    reveal_strlit("ret");
    reveal_strlit("super");
    reveal_strlit("self");
    reveal_strlit("var");
    reveal_strlit("while");
    reveal_strlit("True");
    reveal_strlit("False");
    reveal_strlit("true");
    reveal_strlit("false");
    assert("and"@.len() == 3);
    assert("class"@.len() == 5);
    assert("else"@.len() == 4);
    assert("for"@.len() == 3);
    assert("fn"@.len() == 2);
    assert("if"@.len() == 2);
    assert("null"@.len() == 4);
    assert("or"@.len() == 2);
    assert("print"@.len() == 5);
    assert("ret"@.len() == 3);
    assert("super"@.len() == 5);
    assert("self"@.len() == 4);
    assert("var"@.len() == 3);
    assert("while"@.len() == 5);
    assert("True"@.len() == 4);
    assert("False"@.len() == 5);
    assert("true"@.len() == 4);
    assert("false"@.len() == 5);
    assert("True"@[0] == 'T');
    assert("true"@[0] == 't');
    assert("False"@[0] == 'F');
    assert("false"@[0] == 'f');
    assert("else"@[0] == 'e');
    assert("null"@[0] == 'n');
    assert("self"@[0] == 's');
    assert("class"@[0] == 'c');
    assert("print"@[0] == 'p');
    assert("super"@[0] == 's');
    assert("while"@[0] == 'w');
}

/// A line comment consumes through the end of the line but never past it:
/// the step emits nothing, keeps the line counter, and stops exactly at the
/// next newline (or at the end of input), leaving the newline unconsumed.
pub proof fn lemma_comment_stays_on_line(s: Seq<char>, cur: nat, line: nat)
    requires
        cur + 2 < s.len(),
        s[cur as int] == '/',
        s[cur + 1int] == '/',
    ensures
        spec_step(s, cur, line).token is None,
        spec_step(s, cur, line).diag is None,
        spec_step(s, cur, line).line == line,
        cur + 2 <= spec_step(s, cur, line).next <= s.len(),
        forall|k: int| cur + 2 <= k < spec_step(s, cur, line).next ==> s[k] != '\n',
        spec_step(s, cur, line).next < s.len() ==> s[spec_step(s, cur, line).next as int] == '\n',
{
    lemma_seek_newline(s, cur + 2);
}

/// Scanning is deterministic: two scans of equal sources yield identical
/// token sequences and identical diagnostics. In particular two independent
/// constructions over the same text always agree.
pub proof fn lemma_scan_deterministic(s1: Seq<char>, s2: Seq<char>)
    requires
        s1 == s2,
    ensures
        spec_scan_output(s1) == spec_scan_output(s2),
{
}

/// `s[i..j)` consists only of inter-token formatting: spaces, carriage
/// returns, tabs, newlines, and line comments running to a newline or the
/// end of input.
pub open spec fn sep_only(s: Seq<char>, i: nat, j: nat) -> bool
    decreases j - i
        when i <= j <= s.len()
        via sep_only_dec
{
    if i >= j {
        true
    } else if s[i as int] == ' ' || s[i as int] == '\r' || s[i as int] == '\t' || s[i as int]
        == '\n' {
        sep_only(s, i + 1, j)
    } else if s[i as int] == '/' && i + 1 < j && s[i + 1int] == '/' {
        seek_newline(s, i + 2) <= j && sep_only(s, seek_newline(s, i + 2), j)
    } else {
        false
    }
}

#[via_fn]
proof fn sep_only_dec(s: Seq<char>, i: nat, j: nat) {
    if i < j && s[i as int] == '/' && i + 1 < j && s[i + 1int] == '/' {
        lemma_seek_newline(s, i + 2);
    }
}

/// `toks` tiles `s[i..)`: the region splits into, alternately, separator
/// gaps and the tokens' lexemes, in order, ending in a separator gap. For a
/// scan that reports nothing, this is how the token sequence reconstructs
/// the meaningful source: concatenating the lexemes in order yields the
/// source text with exactly the inter-token formatting removed.
pub open spec fn tiles(s: Seq<char>, i: nat, toks: Seq<SpecToken>) -> bool
    decreases toks.len(),
{
    if toks.len() == 0 {
        sep_only(s, i, s.len())
    } else {
        exists|j: nat, k: nat|
            #![auto]
            i <= j <= k <= s.len() && sep_only(s, i, j) && toks[0].lexeme == s.subrange(
                j as int,
                k as int,
            ) && tiles(s, k, toks.drop_first())
    }
}

/// Two adjacent separator regions form one.
proof fn lemma_sep_only_concat(s: Seq<char>, i: nat, j: nat, k: nat)
    requires
        i <= j <= k <= s.len(),
        sep_only(s, i, j),
        sep_only(s, j, k),
    ensures
        sep_only(s, i, k),
    decreases j - i,
{
    if i < j {
        if s[i as int] == ' ' || s[i as int] == '\r' || s[i as int] == '\t' || s[i as int]
            == '\n' {
            lemma_sep_only_concat(s, i + 1, j, k);
        } else {
            let e = seek_newline(s, i + 2);
            lemma_seek_newline(s, i + 2);
            lemma_sep_only_concat(s, e, j, k);
        }
    }
}

/// A separator gap can be absorbed in front of a tiling.
proof fn lemma_tiles_prepend_gap(s: Seq<char>, i: nat, j: nat, toks: Seq<SpecToken>)
    requires
        i <= j <= s.len(),
        sep_only(s, i, j),
        tiles(s, j, toks),
    ensures
        tiles(s, i, toks),
{
    if toks.len() == 0 {
        lemma_sep_only_concat(s, i, j, s.len());
    } else {
        let (j2, k2) = choose|j2: nat, k2: nat|
            #![auto]
            j <= j2 <= k2 <= s.len() && sep_only(s, j, j2) && toks[0].lexeme == s.subrange(
                j2 as int,
                k2 as int,
            ) && tiles(s, k2, toks.drop_first());
        lemma_sep_only_concat(s, i, j, j2);
        assert(i <= j2 <= k2 <= s.len() && sep_only(s, i, j2) && toks[0].lexeme == s.subrange(
            j2 as int,
            k2 as int,
        ) && tiles(s, k2, toks.drop_first()));
    }
}

/// Every emitted token's lexeme is exactly the contiguous source text the
/// step consumed for it.
proof fn lemma_step_token_span(s: Seq<char>, cur: nat, line: nat)
    requires
        cur < s.len(),
    ensures
        (spec_step(s, cur, line).token matches Some(t) ==> t.lexeme == s.subrange(
            cur as int,
            spec_step(s, cur, line).next as int,
        )),
{
}

/// A step that emits neither a token nor a diagnostic consumed only
/// separators: whitespace, a newline, or a line comment.
proof fn lemma_step_sep(s: Seq<char>, cur: nat, line: nat)
    requires
        cur < s.len(),
        spec_step(s, cur, line).token is None,
        spec_step(s, cur, line).diag is None,
    ensures
        sep_only(s, cur, spec_step(s, cur, line).next),
{
    let st = spec_step(s, cur, line);
    let c = s[cur as int];
    lemma_step_bounds(s, cur, line);
    if c == ' ' || c == '\r' || c == '\t' || c == '\n' {
        assert(sep_only(s, cur + 1, cur + 1));
        assert(sep_only(s, cur, cur + 1));
    } else {
        lemma_seek_newline(s, cur + 2);
        assert(sep_only(s, st.next, st.next));
        assert(sep_only(s, cur, st.next));
    }
}

/// A scan that reports no diagnostic tiles the remaining source: the tokens'
/// lexemes stand in order as contiguous spans, separated only by whitespace
/// and comments.
proof fn lemma_scan_tiles(s: Seq<char>, cur: nat, line: nat)
    requires
        cur <= s.len(),
        spec_scan(s, cur, line).diags.len() == 0,
    ensures
        tiles(s, cur, spec_scan(s, cur, line).tokens),
    decreases s.len() - cur,
{
    let res = spec_scan(s, cur, line);
    if cur >= s.len() {
        assert(sep_only(s, cur, s.len()));
    } else {
        let st = spec_step(s, cur, line);
        lemma_step_bounds(s, cur, line);
        let rest = spec_scan(s, st.next, st.line);
        assert(rest.diags.len() == 0);
        assert(st.diag is None);
        lemma_scan_tiles(s, st.next, st.line);
        match st.token {
            Some(t) => {
                lemma_step_token_span(s, cur, line);
                assert(res.tokens[0] == t);
                assert(res.tokens.drop_first() =~= rest.tokens);
                assert(sep_only(s, cur, cur));
                assert(cur <= cur <= st.next <= s.len() && sep_only(s, cur, cur)
                    && res.tokens[0].lexeme == s.subrange(cur as int, st.next as int) && tiles(
                    s,
                    st.next,
                    res.tokens.drop_first(),
                ));
                assert(tiles(s, cur, res.tokens));
            },
            None => {
                lemma_step_sep(s, cur, line);
                assert(res.tokens =~= rest.tokens);
                lemma_tiles_prepend_gap(s, cur, st.next, rest.tokens);
            },
        }
    }
}

/// For a source on which the scan reports nothing — no invalid character and
/// no unterminated string — the emitted tokens (the end marker aside)
/// reconstruct the meaningful source: their lexemes are the source's
/// non-separator spans, in order, with the inter-token formatting removed.
pub proof fn lemma_tokens_reconstruct_source(s: Seq<char>)
    requires
        spec_scan_output(s).diags.len() == 0,
    ensures
        tiles(s, 0, spec_scan(s, 0, 1).tokens),
{
    lemma_scan_tiles(s, 0, 1);
}

} // verus!
