use marklite::lexer::Lexer;
use marklite::token::{Diagnostic, HrStyle, Token};

fn lex(input: &str) -> Vec<Token> {
    Lexer::new(input).tokenize()
}

fn lex_with_diags(input: &str) -> (Vec<Token>, Vec<Diagnostic>) {
    let mut lexer = Lexer::new(input);
    let tokens = lexer.tokenize();
    let diags = lexer.take_diagnostics();
    (tokens, diags)
}

#[test]
fn empty_input_gives_no_tokens() {
    assert_eq!(lex(""), vec![]);
}

#[test]
fn plain_text_flushes_at_end() {
    assert_eq!(lex("abc"), vec![Token::Text("abc".to_string())]);
}

#[test]
fn bold_toggle_tokens() {
    assert_eq!(
        lex("**bold**"),
        vec![Token::Bold, Token::Text("bold".to_string()), Token::Bold]
    );
}

#[test]
fn underscore_toggles_match_star_toggles() {
    assert_eq!(
        lex("__b__ _i_"),
        vec![
            Token::Bold,
            Token::Text("b".to_string()),
            Token::Bold,
            Token::Text(" ".to_string()),
            Token::Italic,
            Token::Text("i".to_string()),
            Token::Italic,
        ]
    );
}

#[test]
fn tilde_tokens() {
    assert_eq!(
        lex("~~s~~ a~b"),
        vec![
            Token::Striked,
            Token::Text("s".to_string()),
            Token::Striked,
            Token::Text(" a".to_string()),
            Token::NBSP,
            Token::Text("b".to_string()),
        ]
    );
}

#[test]
fn dots_and_pipes() {
    assert_eq!(
        lex("..u.. a.b |x| ||h||"),
        vec![
            Token::Underline,
            Token::Text("u".to_string()),
            Token::Underline,
            Token::Text(" a.b |x| ".to_string()),
            Token::Highlighted,
            Token::Text("h".to_string()),
            Token::Highlighted,
        ]
    );
}

#[test]
fn header_level_is_run_length_plus_one() {
    assert_eq!(
        lex("### Title\n"),
        vec![
            Token::Header(4),
            Token::Text("Title".to_string()),
            Token::NewLine,
        ]
    );
}

#[test]
fn single_hash_header() {
    assert_eq!(
        lex("# T\n"),
        vec![Token::Header(2), Token::Text("T".to_string()), Token::NewLine]
    );
}

#[test]
fn hash_mid_line_is_literal() {
    assert_eq!(lex("a # b"), vec![Token::Text("a # b".to_string())]);
}

#[test]
fn dashed_rule_at_line_start() {
    assert_eq!(lex("---\n"), vec![Token::Hr(HrStyle::Dashed), Token::NewLine]);
}

#[test]
fn dashes_mid_line_are_literal() {
    assert_eq!(
        lex("a---\n"),
        vec![Token::Text("a---".to_string()), Token::NewLine]
    );
}

#[test]
fn dashes_after_indent_are_literal() {
    assert_eq!(
        lex("  ---\n"),
        vec![
            Token::Indent(2),
            Token::Text("---".to_string()),
            Token::NewLine,
        ]
    );
}

#[test]
fn all_rule_styles() {
    assert_eq!(
        lex("===\n...\n^^^\n"),
        vec![
            Token::Hr(HrStyle::Normal),
            Token::NewLine,
            Token::Hr(HrStyle::Dotted),
            Token::NewLine,
            Token::Hr(HrStyle::Sawtooth),
            Token::NewLine,
        ]
    );
}

#[test]
fn list_markers_and_indentation() {
    assert_eq!(
        lex("- a\n  - b\n"),
        vec![
            Token::ListItem(0),
            Token::Text("a".to_string()),
            Token::NewLine,
            Token::ListItem(2),
            Token::Text("b".to_string()),
            Token::NewLine,
        ]
    );
}

#[test]
fn leading_spaces_without_marker_are_an_indent() {
    assert_eq!(
        lex("  x\n"),
        vec![
            Token::Indent(2),
            Token::Text("x".to_string()),
            Token::NewLine,
        ]
    );
}

#[test]
fn spaces_mid_line_are_literal() {
    assert_eq!(lex("a  b"), vec![Token::Text("a  b".to_string())]);
}

#[test]
fn inline_math_payload() {
    assert_eq!(
        lex("$x+y$z"),
        vec![
            Token::InlineMath("x+y".to_string()),
            Token::Text("z".to_string()),
        ]
    );
}

#[test]
fn unterminated_inline_math_reports_a_diagnostic() {
    let (tokens, diags) = lex_with_diags("$x");
    assert_eq!(tokens, vec![Token::InlineMath("x".to_string())]);
    assert_eq!(diags, vec![Diagnostic::UnterminatedDelimiter]);
}

#[test]
fn inline_code_payload() {
    assert_eq!(lex("`c`"), vec![Token::InlineCode("c".to_string())]);
}

#[test]
fn code_block_between_fences() {
    assert_eq!(lex("```abc```"), vec![Token::CodeBlock("abc".to_string())]);
}

#[test]
fn unterminated_code_block_keeps_content() {
    let (tokens, diags) = lex_with_diags("```abc");
    assert_eq!(tokens, vec![Token::CodeBlock("abc".to_string())]);
    assert_eq!(diags, vec![Diagnostic::UnterminatedDelimiter]);
}

#[test]
fn display_math_between_brackets() {
    assert_eq!(lex("\\[x\\]"), vec![Token::DisplayMath("x".to_string())]);
}

#[test]
fn lone_backslash_is_literal() {
    assert_eq!(lex("a\\b"), vec![Token::Text("a\\b".to_string())]);
}

#[test]
fn environment_begin_and_end() {
    assert_eq!(
        lex("%def Foo\n%%\n"),
        vec![
            Token::EnvBegin("def".to_string()),
            Token::Text("Foo".to_string()),
            Token::NewLine,
            Token::EnvEnd,
            Token::NewLine,
        ]
    );
}

#[test]
fn environment_name_without_trailing_space() {
    assert_eq!(
        lex("%thm\nx"),
        vec![
            Token::EnvBegin("thm".to_string()),
            Token::NewLine,
            Token::Text("x".to_string()),
        ]
    );
}

#[test]
fn unterminated_environment_name_reports_a_diagnostic() {
    let (tokens, diags) = lex_with_diags("%def");
    assert_eq!(tokens, vec![Token::EnvBegin("def".to_string())]);
    assert_eq!(diags, vec![Diagnostic::UnterminatedDelimiter]);
}

#[test]
fn text_is_flushed_before_an_emitted_token() {
    assert_eq!(
        lex("a*b*"),
        vec![
            Token::Text("a".to_string()),
            Token::Italic,
            Token::Text("b".to_string()),
            Token::Italic,
        ]
    );
}

#[test]
fn header_level_saturates_at_the_u8_bound() {
    let marks = "#".repeat(300);
    let input = format!("{} T\n", marks);
    let tokens = lex(&input);
    assert_eq!(tokens[0], Token::Header(255));
}

#[test]
fn indentation_saturates_at_the_u8_bound() {
    let spaces = " ".repeat(300);
    let input = format!("{}- x\n", spaces);
    let tokens = lex(&input);
    assert_eq!(tokens[0], Token::ListItem(255));
}

#[test]
fn stray_percent_at_end_begins_an_unnamed_environment() {
    let (tokens, diags) = lex_with_diags("50%");
    assert_eq!(
        tokens,
        vec![
            Token::Text("50".to_string()),
            Token::EnvBegin(String::new()),
        ]
    );
    assert_eq!(diags, vec![Diagnostic::UnterminatedDelimiter]);
}

#[test]
fn newline_separates_text_runs() {
    assert_eq!(
        lex("a\nb"),
        vec![
            Token::Text("a".to_string()),
            Token::NewLine,
            Token::Text("b".to_string()),
        ]
    );
}
