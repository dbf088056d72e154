use rlox::error_log::Diag;
use rlox::scanner::Scanner;
use rlox::tokens::{TLit, TTy, Token};

fn scan(src: &str) -> (Vec<Token>, Vec<Diag>) {
    Scanner::new(src.to_string()).scan_tokens()
}

fn kinds(tokens: &[Token]) -> Vec<TTy> {
    tokens.iter().map(|t| t.ty).collect()
}

#[test]
fn empty_input_yields_only_end_marker() {
    let (tokens, diags) = scan("");
    assert_eq!(tokens.len(), 1);
    assert_eq!(tokens[0].ty, TTy::Eof);
    assert_eq!(tokens[0].lexeme, "");
    assert_eq!(tokens[0].literal, TLit::Null);
    assert_eq!(tokens[0].line, 1);
    assert!(diags.is_empty());
}

#[test]
fn end_marker_is_always_last_and_only_empty_lexeme() {
    for src in ["", "var x = 12.5;", "\"abc", "@#", "a\nb\nc", "// only a comment"] {
        let (tokens, _) = scan(src);
        let last = tokens.last().unwrap();
        assert_eq!(last.ty, TTy::Eof);
        assert_eq!(last.lexeme, "");
        for t in &tokens[..tokens.len() - 1] {
            assert_ne!(t.ty, TTy::Eof);
            assert!(!t.lexeme.is_empty());
        }
    }
}

#[test]
fn lexeme_concatenation_reconstructs_meaningful_source() {
    let (tokens, diags) = scan("var x\t=  12.5; // trailing\n{ y }");
    assert!(diags.is_empty());
    let joined: String = tokens.iter().map(|t| t.lexeme.as_str()).collect();
    assert_eq!(joined, "varx=12.5;{y}");
}

#[test]
fn line_numbers_are_nondecreasing_and_count_newlines() {
    let (tokens, _) = scan("a\nb\n\nc \"x\ny\" d");
    let lines: Vec<usize> = tokens.iter().map(|t| t.line).collect();
    for w in lines.windows(2) {
        assert!(w[0] <= w[1]);
    }
    // a:1, b:2, c:4, string ends on 5, d:5, end marker on 5
    assert_eq!(lines, vec![1, 2, 4, 5, 5, 5]);
}

#[test]
fn keyword_matching_is_case_sensitive_and_exact() {
    let (tokens, _) = scan("ifx If if");
    assert_eq!(kinds(&tokens), vec![TTy::Ident, TTy::Ident, TTy::If, TTy::Eof]);
    assert_eq!(tokens[0].lexeme, "ifx");
    assert_eq!(tokens[1].lexeme, "If");
}

#[test]
fn all_keywords_scan_to_their_kinds() {
    let (tokens, _) = scan("and class else for fn if null or print ret super self var while");
    assert_eq!(
        kinds(&tokens),
        vec![
            TTy::And,
            TTy::Class,
            TTy::Else,
            TTy::For,
            TTy::Fun,
            TTy::If,
            TTy::Null,
            TTy::Or,
            TTy::Print,
            TTy::Return,
            TTy::Super,
            TTy::This,
            TTy::Var,
            TTy::While,
            TTy::Eof
        ]
    );
    for t in &tokens[..tokens.len() - 1] {
        assert_eq!(t.literal, TLit::Null);
    }
}

#[test]
fn boolean_literals_only_in_exact_casing() {
    let (tokens, _) = scan("True False true false");
    assert_eq!(
        kinds(&tokens),
        vec![TTy::True, TTy::False, TTy::Ident, TTy::Ident, TTy::Eof]
    );
    assert_eq!(tokens[0].literal, TLit::Bool(true));
    assert_eq!(tokens[1].literal, TLit::Bool(false));
    assert_eq!(tokens[2].literal, TLit::Null);
    assert_eq!(tokens[3].literal, TLit::Null);
}

#[test]
fn line_comment_consumes_through_end_of_line_but_not_past_it() {
    let (tokens, diags) = scan("// a\n+");
    assert!(diags.is_empty());
    assert_eq!(tokens.len(), 2);
    assert_eq!(tokens[0].ty, TTy::Plus);
    assert_eq!(tokens[0].line, 2);
    assert_eq!(tokens[1].ty, TTy::Eof);
}

#[test]
fn var_declaration_with_fractional_number() {
    let (tokens, diags) = scan("var x = 12.5;");
    assert!(diags.is_empty());
    assert_eq!(
        kinds(&tokens),
        vec![TTy::Var, TTy::Ident, TTy::Equal, TTy::Number, TTy::Semicolon, TTy::Eof]
    );
    assert_eq!(tokens[1].lexeme, "x");
    assert_eq!(tokens[3].lexeme, "12.5");
    match &tokens[3].literal {
        TLit::Number(text) => assert_eq!(text.parse::<f64>().unwrap(), 12.5),
        other => panic!("expected a number literal, got {other:?}"),
    }
    for t in &tokens {
        assert_eq!(t.line, 1);
    }
}

#[test]
fn unterminated_string_reports_and_emits_nothing() {
    let (tokens, diags) = scan("\"abc");
    assert_eq!(tokens.len(), 1);
    assert_eq!(tokens[0].ty, TTy::Eof);
    assert_eq!(diags.len(), 1);
    assert_eq!(diags[0].line, 1);
    assert_eq!(diags[0].message, "Unterminated string literal.");
}

#[test]
fn dot_without_following_digit_is_left_for_next_token() {
    let (tokens, _) = scan("1.");
    assert_eq!(kinds(&tokens), vec![TTy::Number, TTy::Period, TTy::Eof]);
    assert_eq!(tokens[0].lexeme, "1");
    match &tokens[0].literal {
        TLit::Number(text) => assert_eq!(text.parse::<f64>().unwrap(), 1.0),
        other => panic!("expected a number literal, got {other:?}"),
    }
    assert_eq!(tokens[1].lexeme, ".");
}

#[test]
fn non_ascii_letter_scans_as_identifier() {
    let (tokens, diags) = scan("\u{e9}");
    assert!(diags.is_empty());
    assert_eq!(kinds(&tokens), vec![TTy::Ident, TTy::Eof]);
    assert_eq!(tokens[0].lexeme, "\u{e9}");
}

#[test]
fn multibyte_characters_count_as_one_unit() {
    let (tokens, diags) = scan("caf\u{e9} = 1");
    assert!(diags.is_empty());
    assert_eq!(kinds(&tokens), vec![TTy::Ident, TTy::Equal, TTy::Number, TTy::Eof]);
    assert_eq!(tokens[0].lexeme, "caf\u{e9}");
}

#[test]
fn scanning_twice_yields_identical_output() {
    let src = "var caf\u{e9} = 1.25; // c\n\"s\ntr\" @ True!";
    let (t1, d1) = scan(src);
    let (t2, d2) = scan(src);
    assert_eq!(t1, t2);
    assert_eq!(d1, d2);
}

#[test]
fn string_literal_excludes_quotes_and_tracks_lines() {
    let (tokens, diags) = scan("\"a\nb\" +");
    assert!(diags.is_empty());
    assert_eq!(kinds(&tokens), vec![TTy::Str, TTy::Plus, TTy::Eof]);
    assert_eq!(tokens[0].lexeme, "\"a\nb\"");
    assert_eq!(tokens[0].literal, TLit::Str("a\nb".to_string()));
    assert_eq!(tokens[0].line, 2);
    assert_eq!(tokens[1].line, 2);
}

#[test]
fn unexpected_characters_report_and_scanning_resumes() {
    let (tokens, diags) = scan("@ +\n#");
    assert_eq!(kinds(&tokens), vec![TTy::Plus, TTy::Eof]);
    assert_eq!(diags.len(), 2);
    assert_eq!(diags[0].line, 1);
    assert_eq!(diags[0].message, "Unexpected char.");
    assert_eq!(diags[1].line, 2);
    assert_eq!(diags[1].message, "Unexpected char.");
}

#[test]
fn compound_operators_take_the_equals_suffix() {
    let (tokens, _) = scan("a != b == c <= d >= e");
    assert_eq!(
        kinds(&tokens),
        vec![
            TTy::Ident,
            TTy::BangEq,
            TTy::Ident,
            TTy::EqEq,
            TTy::Ident,
            TTy::LtEq,
            TTy::Ident,
            TTy::GtEq,
            TTy::Ident,
            TTy::Eof
        ]
    );
}

#[test]
fn lookahead_rejects_a_match_ending_exactly_at_end_of_input() {
    // The lookahead guard wants strictly more characters remaining than the
    // match needs, so a trailing "!=" scans as two bare operators.
    let (tokens, _) = scan("!=");
    assert_eq!(kinds(&tokens), vec![TTy::Bang, TTy::Equal, TTy::Eof]);
    let (tokens, _) = scan("x<=");
    assert_eq!(kinds(&tokens), vec![TTy::Ident, TTy::Lt, TTy::Equal, TTy::Eof]);
}

#[test]
fn two_slashes_at_end_of_input_are_division_operators() {
    // The same end-of-input guard applies to the comment lookahead.
    let (tokens, _) = scan("//");
    assert_eq!(kinds(&tokens), vec![TTy::FSlash, TTy::FSlash, TTy::Eof]);
    let (tokens, diags) = scan("//x");
    assert_eq!(kinds(&tokens), vec![TTy::Eof]);
    assert!(diags.is_empty());
}

#[test]
fn single_character_punctuation() {
    let (tokens, _) = scan("(){},.-+;*/");
    assert_eq!(
        kinds(&tokens),
        vec![
            TTy::LParen,
            TTy::RParen,
            TTy::LBrace,
            TTy::RBrace,
            TTy::Comma,
            TTy::Period,
            TTy::Minus,
            TTy::Plus,
            TTy::Semicolon,
            TTy::Asterisk,
            TTy::FSlash,
            TTy::Eof
        ]
    );
}

#[test]
fn error_builds_a_line_tagged_record() {
    let d = rlox::error_log::error(3, "boom");
    assert_eq!(d.line, 3);
    assert_eq!(d.message, "boom");
}

#[test]
fn token_new_populates_all_fields() {
    let t = Token::new(TTy::Str, "\"hi\"".to_string(), TLit::Str("hi".to_string()), 7);
    assert_eq!(t.ty, TTy::Str);
    assert_eq!(t.lexeme, "\"hi\"");
    assert_eq!(t.literal, TLit::Str("hi".to_string()));
    assert_eq!(t.line, 7);
}

#[test]
fn number_followed_by_dotted_tail() {
    let (tokens, _) = scan("12.5.3");
    assert_eq!(kinds(&tokens), vec![TTy::Number, TTy::Period, TTy::Number, TTy::Eof]);
    assert_eq!(tokens[0].lexeme, "12.5");
    assert_eq!(tokens[2].lexeme, "3");
}
