use marklite::ast::{EnvType, ListType, Node};
use marklite::lexer::Lexer;
use marklite::parser::Parser;
use marklite::render::nodes_to_html;
use marklite::token::HrStyle;

fn render_document(input: &str) -> String {
    let mut parser = Parser::new(Parser::preprocess(Lexer::new(input).tokenize()));
    nodes_to_html(&parser.parse(false))
}

#[test]
fn leaves_render_to_their_fragments() {
    let nodes = vec![
        Node::NewLine,
        Node::NBSP,
        Node::Hr(HrStyle::Dotted),
        Node::InlineMath("x".to_string()),
        Node::InlineCode("y".to_string()),
    ];
    assert_eq!(
        nodes_to_html(&nodes),
        "<br/>&nbsp;<hr class=\"style-dotted\"/>\
         <span class=\"math-inline\">x</span><code class=\"inline\">y</code>"
    );
}

#[test]
fn header_level_appears_in_the_tag() {
    let nodes = vec![Node::Header {
        level: 4,
        children: vec![Node::Text("T".to_string())],
    }];
    assert_eq!(nodes_to_html(&nodes), "<h4>T</h4>");
}

#[test]
fn three_digit_header_level_renders_in_decimal() {
    let nodes = vec![Node::Header { level: 255, children: vec![] }];
    assert_eq!(nodes_to_html(&nodes), "<h255></h255>");
}

#[test]
fn code_block_language_is_optional() {
    assert_eq!(
        nodes_to_html(&vec![Node::CodeBlock { language: None, code: "c".to_string() }]),
        "<pre><code class=\"block\">c</code></pre>"
    );
    assert_eq!(
        nodes_to_html(&vec![Node::CodeBlock {
            language: Some("rust".to_string()),
            code: "c".to_string(),
        }]),
        "<pre><code class=\"block\" lang=\"rust\">c</code></pre>"
    );
}

#[test]
fn environment_renders_kind_and_argument() {
    let nodes = vec![Node::Env {
        environment_type: EnvType::Theorem,
        environment_arg: Some(vec![Node::Text("Name".to_string())]),
        children: vec![Node::Text("Body".to_string())],
    }];
    assert_eq!(
        nodes_to_html(&nodes),
        "<div class=\"environment environment-theorem\">\
         <div class=\"environment-name\">Name</div>Body</div>"
    );
}

#[test]
fn list_renders_as_ul_and_li() {
    let nodes = vec![Node::List {
        list_type: ListType::Normal,
        children: vec![Node::ListItem(vec![Node::Text("a".to_string())])],
    }];
    assert_eq!(nodes_to_html(&nodes), "<ul><li>a</li></ul>");
}

#[test]
fn link_renders_as_anchor() {
    let nodes = vec![Node::Link {
        url: "u".to_string(),
        children: vec![Node::Text("t".to_string())],
    }];
    assert_eq!(nodes_to_html(&nodes), "<a href=\"u\">t</a>");
}

#[test]
fn whole_pipeline_renders_a_small_document() {
    assert_eq!(
        render_document("# Title\nHello **world**\n\nbye\n"),
        "<h2>Title</h2><br/>Hello <strong>world</strong><p>bye </p>"
    );
}

#[test]
fn emphasis_kinds_map_to_their_tags() {
    let nodes = vec![
        Node::Bold(vec![Node::Text("b".to_string())]),
        Node::Italic(vec![Node::Text("i".to_string())]),
        Node::Striked(vec![Node::Text("s".to_string())]),
        Node::Underline(vec![Node::Text("u".to_string())]),
        Node::Highlighted(vec![Node::Text("h".to_string())]),
        Node::Paragraph(vec![Node::Text("p".to_string())]),
        Node::DisplayMath("d".to_string()),
    ];
    assert_eq!(
        nodes_to_html(&nodes),
        "<strong>b</strong><em>i</em><s>s</s><u>u</u><mark>h</mark><p>p</p>\
         <span class=\"math-display\">d</span>"
    );
}
