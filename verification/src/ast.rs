//! The document tree produced by the parser, and its spec-level model.

use vstd::prelude::*;

use crate::token::HrStyle;

verus! {

/// The kind of a list. Only plain unordered lists exist today; the variant
/// set is kept open for ordered kinds.
#[derive(Debug, PartialEq, Eq, Clone, Copy)]
pub enum ListType {
    Normal,
}

/// The nine recognized environment kinds, one per accepted environment
/// name.
#[derive(Debug, PartialEq, Eq, Clone, Copy)]
pub enum EnvType {
    Definition,
    Theorem,
    Corollary,
    Lemma,
    Remark,
    Example,
    Exercise,
    Fold,
    Conceal,
}

/// A node of the document tree: either a leaf with a scalar payload, or a
/// container holding an ordered sequence of fully parsed child nodes. The
/// tree never holds raw tokens.
#[derive(Debug, PartialEq, Eq)]
pub enum Node {
    Header { level: u8, children: Vec<Node> },
    Bold(Vec<Node>),
    Italic(Vec<Node>),
    Striked(Vec<Node>),
    Underline(Vec<Node>),
    Highlighted(Vec<Node>),
    Link { url: String, children: Vec<Node> },
    List { list_type: ListType, children: Vec<Node> },
    ListItem(Vec<Node>),
    InlineCode(String),
    CodeBlock { language: Option<String>, code: String },
    InlineMath(String),
    DisplayMath(String),
    Env { environment_type: EnvType, environment_arg: Option<Vec<Node>>, children: Vec<Node> },
    NewLine,
    Paragraph(Vec<Node>),
    Text(String),
    Hr(HrStyle),
    NBSP,
}

/// The spec-level image of a `Node`: children become sequences and string
/// payloads become character sequences.
pub enum NodeModel {
    Header { level: u8, children: Seq<NodeModel> },
    Bold(Seq<NodeModel>),
    Italic(Seq<NodeModel>),
    Striked(Seq<NodeModel>),
    Underline(Seq<NodeModel>),
    Highlighted(Seq<NodeModel>),
    Link { url: Seq<char>, children: Seq<NodeModel> },
    List { list_type: ListType, children: Seq<NodeModel> },
    ListItem(Seq<NodeModel>),
    InlineCode(Seq<char>),
    CodeBlock { language: Option<Seq<char>>, code: Seq<char> },
    InlineMath(Seq<char>),
    DisplayMath(Seq<char>),
    Env {
        environment_type: EnvType,
        environment_arg: Option<Seq<NodeModel>>,
        children: Seq<NodeModel>,
    },
    NewLine,
    Paragraph(Seq<NodeModel>),
    Text(Seq<char>),
    Hr(HrStyle),
    NBSP,
}

impl Node {
    /// The model of one node, children modelled recursively.
    pub open spec fn model(&self) -> NodeModel
        decreases self,
    {
        match self {
            Node::Header { level, children } => NodeModel::Header {
                level: *level,
                children: nodes_model(children@),
            },
            Node::Bold(children) => NodeModel::Bold(nodes_model(children@)),
            Node::Italic(children) => NodeModel::Italic(nodes_model(children@)),
            Node::Striked(children) => NodeModel::Striked(nodes_model(children@)),
            Node::Underline(children) => NodeModel::Underline(nodes_model(children@)),
            Node::Highlighted(children) => NodeModel::Highlighted(nodes_model(children@)),
            Node::Link { url, children } => NodeModel::Link {
                url: url@,
                children: nodes_model(children@),
            },
            Node::List { list_type, children } => NodeModel::List {
                list_type: *list_type,
                children: nodes_model(children@),
            },
            Node::ListItem(children) => NodeModel::ListItem(nodes_model(children@)),
            Node::InlineCode(s) => NodeModel::InlineCode(s@),
            Node::CodeBlock { language, code } => NodeModel::CodeBlock {
                language: match language {
                    Option::Some(l) => Option::Some(l@),
                    Option::None => Option::None,
                },
                code: code@,
            },
            Node::InlineMath(s) => NodeModel::InlineMath(s@),
            Node::DisplayMath(s) => NodeModel::DisplayMath(s@),
            Node::Env { environment_type, environment_arg, children } => NodeModel::Env {
                environment_type: *environment_type,
                environment_arg: match environment_arg {
                    Option::Some(arg) => Option::Some(nodes_model(arg@)),
                    Option::None => Option::None,
                },
                children: nodes_model(children@),
            },
            Node::NewLine => NodeModel::NewLine,
            Node::Paragraph(children) => NodeModel::Paragraph(nodes_model(children@)),
            Node::Text(s) => NodeModel::Text(s@),
            Node::Hr(style) => NodeModel::Hr(*style),
            Node::NBSP => NodeModel::NBSP,
        }
    }
}

/// The model of a node sequence, element by element.
pub open spec fn nodes_model(ns: Seq<Node>) -> Seq<NodeModel>
    decreases ns,
{
    if ns.len() == 0 {
        Seq::empty()
    } else {
        seq![ns[0].model()] + nodes_model(ns.drop_first())
    }
}

/// `nodes_model` maps element by element: it keeps the length and models
/// each node in place.
pub proof fn lemma_nodes_model_index(ns: Seq<Node>)
    ensures
        nodes_model(ns).len() == ns.len(),
        forall|i: int| 0 <= i < ns.len() ==> #[trigger] nodes_model(ns)[i] == ns[i].model(),
    decreases ns,
{
    if ns.len() > 0 {
        lemma_nodes_model_index(ns.drop_first());
        assert forall|i: int| 0 <= i < ns.len() implies #[trigger] nodes_model(ns)[i] == ns[
            i
        ].model() by {
            if i > 0 {
                assert(ns.drop_first()[i - 1] == ns[i]);
                assert(nodes_model(ns)[i] == nodes_model(ns.drop_first())[i - 1]);
            }
        }
    }
}

/// Pushing one node extends the model of the node list by that node's
/// model.
pub proof fn lemma_nodes_model_push(ns: Seq<Node>, n: Node)
    ensures
        nodes_model(ns.push(n)) == nodes_model(ns) + seq![n.model()],
{
    lemma_nodes_model_index(ns);
    lemma_nodes_model_index(ns.push(n));
    assert(nodes_model(ns.push(n)) =~= nodes_model(ns) + seq![n.model()]);
}

} // verus!
