//! The HTML renderer: a pure structural mapping from document-tree nodes
//! to markup text, verified against a spec-level rendering of the node
//! model.
//!
//! No escaping is applied to text, math or code payloads: what a payload
//! holds appears in the output verbatim, as the mapping defines.

use vstd::prelude::*;

use crate::ast::{nodes_model, EnvType, Node, NodeModel};
use crate::token::HrStyle;

verus! {

/// The decimal digit character for `d`.
pub open spec fn digit_char(d: nat) -> char {
    if d == 0 {
        '0'
    } else if d == 1 {
        '1'
    } else if d == 2 {
        '2'
    } else if d == 3 {
        '3'
    } else if d == 4 {
        '4'
    } else if d == 5 {
        '5'
    } else if d == 6 {
        '6'
    } else if d == 7 {
        '7'
    } else if d == 8 {
        '8'
    } else {
        '9'
    }
}

/// The decimal rendering of `n`, most significant digit first.
pub open spec fn decimal_of(n: nat) -> Seq<char>
    decreases n,
{
    if n < 10 {
        seq![digit_char(n)]
    } else {
        decimal_of(n / 10).push(digit_char(n % 10))
    }
}

/// The class-name fragment of an environment kind.
pub open spec fn env_kind_name(k: EnvType) -> Seq<char> {
    match k {
        EnvType::Definition => "definition"@,
        EnvType::Theorem => "theorem"@,
        EnvType::Corollary => "corollary"@,
        EnvType::Lemma => "lemma"@,
        EnvType::Remark => "remark"@,
        EnvType::Example => "example"@,
        EnvType::Exercise => "exercise"@,
        EnvType::Fold => "fold"@,
        EnvType::Conceal => "conceal"@,
    }
}

/// The class-name fragment of a horizontal-rule style.
pub open spec fn hr_style_name(style: HrStyle) -> Seq<char> {
    match style {
        HrStyle::Normal => "normal"@,
        HrStyle::Dashed => "dashed"@,
        HrStyle::Dotted => "dotted"@,
        HrStyle::Sawtooth => "sawtooth"@,
    }
}

/// The HTML for one node of the document tree.
pub open spec fn html_of_node(n: NodeModel) -> Seq<char>
    decreases n,
{
    match n {
        NodeModel::NewLine => "<br/>"@,
        NodeModel::Header { level, children } => "<h"@ + decimal_of(level as nat) + ">"@
            + html_of_nodes(children) + "</h"@ + decimal_of(level as nat) + ">"@,
        NodeModel::Text(s) => s,
        NodeModel::Paragraph(children) => "<p>"@ + html_of_nodes(children) + "</p>"@,
        NodeModel::Bold(children) => "<strong>"@ + html_of_nodes(children) + "</strong>"@,
        NodeModel::Italic(children) => "<em>"@ + html_of_nodes(children) + "</em>"@,
        NodeModel::Striked(children) => "<s>"@ + html_of_nodes(children) + "</s>"@,
        NodeModel::Underline(children) => "<u>"@ + html_of_nodes(children) + "</u>"@,
        NodeModel::Highlighted(children) => "<mark>"@ + html_of_nodes(children) + "</mark>"@,
        NodeModel::InlineMath(m) => "<span class=\"math-inline\">"@ + m + "</span>"@,
        NodeModel::DisplayMath(m) => "<span class=\"math-display\">"@ + m + "</span>"@,
        NodeModel::InlineCode(c) => "<code class=\"inline\">"@ + c + "</code>"@,
        NodeModel::CodeBlock { language, code } => "<pre><code class=\"block\""@ + (match language {
            Option::Some(lang) => " lang=\""@ + lang + "\""@,
            Option::None => Seq::empty(),
        }) + ">"@ + code + "</code></pre>"@,
        NodeModel::Env { environment_type, environment_arg, children } => "<div class=\"environment environment-"@
            + env_kind_name(environment_type) + "\">"@ + (match environment_arg {
            Option::Some(arg) => "<div class=\"environment-name\">"@ + html_of_nodes(arg)
                + "</div>"@,
            Option::None => Seq::empty(),
        }) + html_of_nodes(children) + "</div>"@,
        NodeModel::List { list_type: _, children } => "<ul>"@ + html_of_nodes(children) + "</ul>"@,
        NodeModel::ListItem(children) => "<li>"@ + html_of_nodes(children) + "</li>"@,
        NodeModel::Link { url, children } => "<a href=\""@ + url + "\">"@ + html_of_nodes(children)
            + "</a>"@,
        NodeModel::Hr(style) => "<hr class=\"style-"@ + hr_style_name(style) + "\"/>"@,
        NodeModel::NBSP => "&nbsp;"@,
    }
}

/// The HTML for a whole document forest: each node's fragment, in order.
pub open spec fn html_of_nodes(ns: Seq<NodeModel>) -> Seq<char>
    decreases ns,
{
    if ns.len() == 0 {
        Seq::empty()
    } else {
        html_of_node(ns[0]) + html_of_nodes(ns.drop_first())
    }
}

/// Extending a forest by one node appends that node's fragment.
proof fn lemma_html_of_nodes_snoc(ns: Seq<NodeModel>, n: NodeModel)
    ensures
        html_of_nodes(ns.push(n)) == html_of_nodes(ns) + html_of_node(n),
    decreases ns.len(),
{
    if ns.len() == 0 {
        assert(ns.push(n)[0] == n);
        assert(ns.push(n).drop_first() =~= Seq::<NodeModel>::empty());
        assert(html_of_nodes(Seq::<NodeModel>::empty()) == Seq::<char>::empty());
        assert(html_of_nodes(ns.push(n)) == html_of_node(n) + html_of_nodes(
            Seq::<NodeModel>::empty(),
        ));
        assert(html_of_node(n) + Seq::<char>::empty() =~= html_of_node(n));
        assert(Seq::<char>::empty() + html_of_node(n) =~= html_of_node(n));
    } else {
        lemma_html_of_nodes_snoc(ns.drop_first(), n);
        assert(ns.push(n).drop_first() =~= ns.drop_first().push(n));
        assert(ns.push(n)[0] == ns[0]);
        assert(html_of_nodes(ns.push(n)) == html_of_node(ns[0]) + html_of_nodes(
            ns.drop_first().push(n),
        ));
        assert(html_of_nodes(ns) == html_of_node(ns[0]) + html_of_nodes(ns.drop_first()));
        assert(html_of_node(ns[0]) + (html_of_nodes(ns.drop_first()) + html_of_node(n)) =~= (
        html_of_node(ns[0]) + html_of_nodes(ns.drop_first())) + html_of_node(n));
    }
}

/// The digit character for `d`, as a string slice.
fn digit_str(d: u8) -> (r: &'static str)
    requires
        d < 10,
    ensures
        r@ == seq![digit_char(d as nat)],
{
    proof {
        reveal_strlit("0");
        reveal_strlit("1");
        reveal_strlit("2");
        reveal_strlit("3");
        reveal_strlit("4");
        reveal_strlit("5");
        reveal_strlit("6");
        reveal_strlit("7");
        reveal_strlit("8");
        reveal_strlit("9");
    }
    let r = match d {
        0 => "0",
        1 => "1",
        2 => "2",
        3 => "3",
        4 => "4",
        5 => "5",
        6 => "6",
        7 => "7",
        8 => "8",
        _ => "9",
    };
    proof {
        assert(r@ =~= seq![digit_char(d as nat)]);
    }
    r
}

/// The decimal rendering of `n`.
fn u8_decimal(n: u8) -> (s: String)
    ensures
        s@ == decimal_of(n as nat),
    decreases n,
{
    if n < 10 {
        String::from_str(digit_str(n))
    } else {
        let mut s = u8_decimal(n / 10);
        s.append(digit_str(n % 10));
        proof {
            assert(decimal_of((n / 10) as nat) + seq![digit_char((n % 10) as nat)]
                =~= decimal_of((n / 10) as nat).push(digit_char((n % 10) as nat)));
        }
        s
    }
}

/// The class-name fragment of an environment kind.
fn env_kind_str(k: &EnvType) -> (r: &'static str)
    ensures
        r@ == env_kind_name(*k),
{
    match k {
        EnvType::Definition => "definition",
        EnvType::Theorem => "theorem",
        EnvType::Corollary => "corollary",
        EnvType::Lemma => "lemma",
        EnvType::Remark => "remark",
        EnvType::Example => "example",
        EnvType::Exercise => "exercise",
        EnvType::Fold => "fold",
        EnvType::Conceal => "conceal",
    }
}

/// The class-name fragment of a horizontal-rule style.
fn hr_style_str(style: &HrStyle) -> (r: &'static str)
    ensures
        r@ == hr_style_name(*style),
{
    match style {
        HrStyle::Normal => "normal",
        HrStyle::Dashed => "dashed",
        HrStyle::Dotted => "dotted",
        HrStyle::Sawtooth => "sawtooth",
    }
}

/// The HTML fragment for one node: exactly what the rendering mapping
/// defines for its model.
fn node_to_html(node: &Node) -> (r: String)
    ensures
        r@ == html_of_node(node.model()),
    decreases node,
{
    match node {
        Node::NewLine => String::from_str("<br/>"),
        Node::Header { level, children } => {
            let mut s = String::from_str("<h");
            let digits = u8_decimal(*level);
            s.append(digits.as_str());
            s.append(">");
            let inner = nodes_to_html(children);
            s.append(inner.as_str());
            s.append("</h");
            s.append(digits.as_str());
            s.append(">");
            s
        },
        Node::Text(text) => {
            let mut s = String::new();
            s.append(text.as_str());
            s
        },
        Node::Paragraph(children) => {
            let mut s = String::from_str("<p>");
            let inner = nodes_to_html(children);
            s.append(inner.as_str());
            s.append("</p>");
            s
        },
        Node::Bold(children) => {
            let mut s = String::from_str("<strong>");
            let inner = nodes_to_html(children);
            s.append(inner.as_str());
            s.append("</strong>");
            s
        },
        Node::Italic(children) => {
            let mut s = String::from_str("<em>");
            let inner = nodes_to_html(children);
            s.append(inner.as_str());
            s.append("</em>");
            s
        },
        Node::Striked(children) => {
            let mut s = String::from_str("<s>");
            let inner = nodes_to_html(children);
            s.append(inner.as_str());
            s.append("</s>");
            s
        },
        Node::Underline(children) => {
            let mut s = String::from_str("<u>");
            let inner = nodes_to_html(children);
            s.append(inner.as_str());
            s.append("</u>");
            s
        },
        Node::Highlighted(children) => {
            let mut s = String::from_str("<mark>");
            let inner = nodes_to_html(children);
            s.append(inner.as_str());
            s.append("</mark>");
            s
        },
        Node::InlineMath(math) => {
            let mut s = String::from_str("<span class=\"math-inline\">");
            s.append(math.as_str());
            s.append("</span>");
            s
        },
        Node::DisplayMath(math) => {
            let mut s = String::from_str("<span class=\"math-display\">");
            s.append(math.as_str());
            s.append("</span>");
            s
        },
        Node::InlineCode(code) => {
            let mut s = String::from_str("<code class=\"inline\">");
            s.append(code.as_str());
            s.append("</code>");
            s
        },
        Node::CodeBlock { language, code } => {
            let mut s = String::from_str("<pre><code class=\"block\"");
            match language {
                Option::Some(lang) => {
                    s.append(" lang=\"");
                    s.append(lang.as_str());
                    s.append("\"");
                },
                Option::None => {
                    proof {
                        assert(s@ + Seq::<char>::empty() =~= s@);
                    }
                },
            }
            s.append(">");
            s.append(code.as_str());
            s.append("</code></pre>");
            s
        },
        Node::Env { environment_type, environment_arg, children } => {
            let mut s = String::from_str("<div class=\"environment environment-");
            s.append(env_kind_str(environment_type));
            s.append("\">");
            match environment_arg {
                Option::Some(arg) => {
                    s.append("<div class=\"environment-name\">");
                    let arg_html = nodes_to_html(arg);
                    s.append(arg_html.as_str());
                    s.append("</div>");
                },
                Option::None => {
                    proof {
                        assert(s@ + Seq::<char>::empty() =~= s@);
                    }
                },
            }
            let inner = nodes_to_html(children);
            s.append(inner.as_str());
            s.append("</div>");
            s
        },
        Node::List { list_type: _, children } => {
            let mut s = String::from_str("<ul>");
            let inner = nodes_to_html(children);
            s.append(inner.as_str());
            s.append("</ul>");
            s
        },
        Node::ListItem(children) => {
            let mut s = String::from_str("<li>");
            let inner = nodes_to_html(children);
            s.append(inner.as_str());
            s.append("</li>");
            s
        },
        Node::Link { url, children } => {
            let mut s = String::from_str("<a href=\"");
            s.append(url.as_str());
            s.append("\">");
            let inner = nodes_to_html(children);
            s.append(inner.as_str());
            s.append("</a>");
            s
        },
        Node::Hr(style) => {
            let mut s = String::from_str("<hr class=\"style-");
            s.append(hr_style_str(style));
            s.append("\"/>");
            s
        },
        Node::NBSP => String::from_str("&nbsp;"),
    }
}

/// Renders a document forest to HTML: exactly the markup that the
/// rendering mapping defines for the forest's model.
pub fn nodes_to_html(nodes: &Vec<Node>) -> (r: String)
    ensures
        r@ == html_of_nodes(nodes_model(nodes@)),
    decreases nodes,
{
    let mut out = String::new();
    let mut i: usize = 0;
    proof {
        assert(nodes_model(nodes@).take(0).len() == 0);
    }
    while i < nodes.len()
        invariant
            i <= nodes@.len(),
            out@ == html_of_nodes(nodes_model(nodes@).take(i as int)),
        decreases nodes@.len() - i,
    {
        let piece = node_to_html(&nodes[i]);
        out.append(piece.as_str());
        proof {
            crate::ast::lemma_nodes_model_index(nodes@);
            lemma_html_of_nodes_snoc(nodes_model(nodes@).take(i as int), nodes@[i as int].model());
            assert(nodes_model(nodes@).take(i as int).push(nodes@[i as int].model())
                =~= nodes_model(nodes@).take(i + 1));
        }
        i = i + 1;
    }
    proof {
        crate::ast::lemma_nodes_model_index(nodes@);
        assert(nodes_model(nodes@).take(nodes@.len() as int) =~= nodes_model(nodes@));
    }
    out
}

} // verus!
