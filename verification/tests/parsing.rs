use marklite::ast::{EnvType, ListType, Node};
use marklite::lexer::Lexer;
use marklite::parser::Parser;
use marklite::token::{Diagnostic, HrStyle, Token};

fn lex(input: &str) -> Vec<Token> {
    Lexer::new(input).tokenize()
}

fn parse_document(input: &str) -> Vec<Node> {
    let mut parser = Parser::new(Parser::preprocess(lex(input)));
    parser.parse(false)
}

fn parse_tokens(tokens: Vec<Token>) -> Vec<Node> {
    Parser::new(tokens).parse(false)
}

fn text(s: &str) -> Node {
    Node::Text(s.to_string())
}

#[test]
fn bold_span_wraps_its_text() {
    assert_eq!(
        parse_tokens(lex("**bold**")),
        vec![Node::Bold(vec![text("bold")])]
    );
}

#[test]
fn every_toggle_kind_wraps_a_span() {
    assert_eq!(
        parse_tokens(lex("*i*~~s~~..u..||h||")),
        vec![
            Node::Italic(vec![text("i")]),
            Node::Striked(vec![text("s")]),
            Node::Underline(vec![text("u")]),
            Node::Highlighted(vec![text("h")]),
        ]
    );
}

#[test]
fn unterminated_span_closes_at_end_of_input() {
    let mut parser = Parser::new(lex("**bold"));
    let nodes = parser.parse(false);
    assert_eq!(nodes, vec![Node::Bold(vec![text("bold")])]);
    assert_eq!(parser.take_diagnostics(), vec![Diagnostic::UnterminatedSpan]);
}

#[test]
fn header_takes_the_rest_of_its_line() {
    assert_eq!(
        parse_document("### Title\n"),
        vec![
            Node::Header { level: 4, children: vec![text("Title")] },
            Node::NewLine,
        ]
    );
}

#[test]
fn list_of_two_items() {
    assert_eq!(
        parse_document("- a\n- b\n"),
        vec![Node::List {
            list_type: ListType::Normal,
            children: vec![
                Node::ListItem(vec![Node::Paragraph(vec![text("a"), text(" ")])]),
                Node::ListItem(vec![Node::Paragraph(vec![text("b"), text(" ")])]),
            ],
        }]
    );
}

#[test]
fn nested_list_item_stays_inside_its_parent() {
    let nodes = parse_document("- a\n  - b\n");
    assert_eq!(nodes.len(), 1);
    match &nodes[0] {
        Node::List { list_type: _, children } => {
            assert_eq!(children.len(), 1);
            match &children[0] {
                Node::ListItem(inner) => {
                    assert_eq!(
                        inner.as_slice(),
                        &[
                            Node::Paragraph(vec![text("a"), text(" ")]),
                            Node::List {
                                list_type: ListType::Normal,
                                children: vec![Node::ListItem(vec![Node::Paragraph(vec![
                                    text("b"),
                                    text(" "),
                                ])])],
                            },
                        ]
                    );
                }
                other => panic!("expected a list item, got {:?}", other),
            }
        }
        other => panic!("expected a list, got {:?}", other),
    }
}

#[test]
fn environment_with_argument_and_body() {
    assert_eq!(
        parse_document("%def Foo\nBody\n%%\n"),
        vec![
            Node::Env {
                environment_type: EnvType::Definition,
                environment_arg: Some(vec![text("Foo")]),
                children: vec![text("Body"), Node::NewLine],
            },
            Node::NewLine,
        ]
    );
}

#[test]
fn every_environment_name_maps_to_its_kind() {
    let cases = [
        ("def", EnvType::Definition),
        ("thm", EnvType::Theorem),
        ("cor", EnvType::Corollary),
        ("lemma", EnvType::Lemma),
        ("rem", EnvType::Remark),
        ("eg", EnvType::Example),
        ("ex", EnvType::Exercise),
        ("fold", EnvType::Fold),
        ("conceal", EnvType::Conceal),
    ];
    for (name, kind) in cases {
        let input = format!("%{} X\nb\n%%\n", name);
        let nodes = parse_document(&input);
        match &nodes[0] {
            Node::Env { environment_type, .. } => assert_eq!(environment_type, &kind),
            other => panic!("expected an environment, got {:?}", other),
        }
    }
}

#[test]
fn unrecognized_environment_is_dropped_whole() {
    assert_eq!(parse_document("%zzz X\nBody\n%%\n"), vec![Node::NewLine]);
}

#[test]
fn unmatched_environment_closes_at_end_of_input() {
    let mut parser = Parser::new(Parser::preprocess(lex("%def X\nBody")));
    let nodes = parser.parse(false);
    assert_eq!(
        nodes,
        vec![Node::Env {
            environment_type: EnvType::Definition,
            environment_arg: Some(vec![text("X")]),
            children: vec![text("Body")],
        }]
    );
    assert_eq!(
        parser.take_diagnostics(),
        vec![Diagnostic::UnmatchedEnvironment]
    );
}

#[test]
fn blank_line_splits_paragraphs() {
    assert_eq!(
        parse_document("a\n\nb\n"),
        vec![
            Node::Paragraph(vec![text("a")]),
            Node::Paragraph(vec![text("b"), text(" ")]),
        ]
    );
}

#[test]
fn list_is_not_absorbed_into_a_paragraph() {
    assert_eq!(
        parse_document("a\n- x\n"),
        vec![
            Node::Paragraph(vec![text("a"), text(" ")]),
            Node::List {
                list_type: ListType::Normal,
                children: vec![Node::ListItem(vec![Node::Paragraph(vec![
                    text("x"),
                    text(" "),
                ])])],
            },
        ]
    );
}

#[test]
fn header_is_not_absorbed_into_a_paragraph() {
    assert_eq!(
        parse_document("a\n# T\n"),
        vec![
            Node::Paragraph(vec![text("a"), text(" ")]),
            Node::Header { level: 2, children: vec![text("T")] },
            Node::NewLine,
        ]
    );
}

#[test]
fn leaf_tokens_become_leaf_nodes() {
    assert_eq!(
        parse_tokens(vec![
            Token::InlineMath("m".to_string()),
            Token::DisplayMath("d".to_string()),
            Token::InlineCode("c".to_string()),
            Token::CodeBlock("k".to_string()),
            Token::Hr(HrStyle::Sawtooth),
            Token::NBSP,
        ]),
        vec![
            Node::InlineMath("m".to_string()),
            Node::DisplayMath("d".to_string()),
            Node::InlineCode("c".to_string()),
            Node::CodeBlock { language: None, code: "k".to_string() },
            Node::Hr(HrStyle::Sawtooth),
            Node::NBSP,
        ]
    );
}

#[test]
fn indent_tokens_parse_to_nothing() {
    assert_eq!(
        parse_tokens(vec![Token::Indent(3), Token::Text("x".to_string())]),
        vec![text("x")]
    );
}

#[test]
fn preprocess_prepends_boundary_unless_header_leads() {
    assert_eq!(
        Parser::preprocess(vec![Token::Text("a".to_string())]),
        vec![
            Token::NewLine,
            Token::NewLine,
            Token::Text("a".to_string()),
        ]
    );
    assert_eq!(
        Parser::preprocess(vec![Token::Header(2)]),
        vec![Token::Header(2)]
    );
}

#[test]
fn nesting_limit_drops_the_subtree_with_a_diagnostic() {
    let mut parser = Parser::with_limit(lex("**a**"), 1);
    let nodes = parser.parse(false);
    assert_eq!(nodes, vec![Node::Bold(vec![])]);
    assert_eq!(
        parser.take_diagnostics(),
        vec![Diagnostic::RecursionLimitExceeded]
    );
}

#[test]
fn zero_limit_parses_nothing() {
    let mut parser = Parser::with_limit(lex("a"), 0);
    let nodes = parser.parse(false);
    assert_eq!(nodes, vec![]);
    assert_eq!(
        parser.take_diagnostics(),
        vec![Diagnostic::RecursionLimitExceeded]
    );
}

#[test]
fn mixed_document_parses_every_block_kind() {
    let nodes = parse_document("# H\n---\n- i\n%thm N\n$m$\n%%\n```c```\n");
    assert_eq!(
        nodes,
        vec![
            Node::Header { level: 2, children: vec![text("H")] },
            Node::NewLine,
            Node::Hr(HrStyle::Dashed),
            Node::NewLine,
            Node::List {
                list_type: ListType::Normal,
                children: vec![Node::ListItem(vec![Node::Paragraph(vec![
                    text("i"),
                    text(" "),
                ])])],
            },
            Node::Env {
                environment_type: EnvType::Theorem,
                environment_arg: Some(vec![text("N")]),
                children: vec![Node::InlineMath("m".to_string()), Node::NewLine],
            },
            Node::NewLine,
            Node::CodeBlock { language: None, code: "c".to_string() },
            Node::NewLine,
        ]
    );
}

fn collect_text(nodes: &[Node], out: &mut String) {
    for node in nodes {
        match node {
            Node::Text(s) => out.push_str(s),
            Node::Header { children, .. } => collect_text(children, out),
            Node::Bold(children)
            | Node::Italic(children)
            | Node::Striked(children)
            | Node::Underline(children)
            | Node::Highlighted(children)
            | Node::Paragraph(children) => collect_text(children, out),
            _ => {}
        }
    }
}

#[test]
fn text_runs_survive_a_round_trip() {
    let nodes = parse_document("## Title\nHello **world**\n\nbye\n");
    let mut extracted = String::new();
    collect_text(&nodes, &mut extracted);
    assert_eq!(extracted, "TitleHello worldbye ");
    let reparsed = parse_document(&extracted);
    let mut again = String::new();
    collect_text(&reparsed, &mut again);
    assert_eq!(again, extracted);
}
