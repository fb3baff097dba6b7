//! The grammar of the markup language, as spec functions over the token
//! stream's model.
//!
//! `parse_toks` defines, token by token, the document forest and the
//! diagnostics that a token sequence produces; `parse_boundary` defines the
//! paragraph grouping that runs after a blank-line boundary (and after a
//! list, which re-opens a paragraph boundary). The executable parser is
//! verified to return exactly these.

use vstd::prelude::*;

use crate::ast::{EnvType, ListType, NodeModel};
use crate::token::{Diagnostic, TokenModel};

verus! {

/// Everything one parser run produces: the node forest and the non-fatal
/// diagnostics reported along the way, in order of discovery.
pub struct ParseOut {
    pub nodes: Seq<NodeModel>,
    pub diags: Seq<Diagnostic>,
}

/// The index of the first `NewLine` in `ts`, or `ts.len()` if there is
/// none.
pub open spec fn newline_idx(ts: Seq<TokenModel>) -> int
    decreases ts.len(),
{
    if ts.len() == 0 {
        0
    } else if ts[0] is NewLine {
        0
    } else {
        1 + newline_idx(ts.drop_first())
    }
}

/// How many tokens one line occupies: everything up to and including the
/// first `NewLine`, or the whole sequence if no newline is left.
pub open spec fn line_take(ts: Seq<TokenModel>) -> int {
    if newline_idx(ts) < ts.len() {
        newline_idx(ts) + 1
    } else {
        ts.len() as int
    }
}

/// Whether `t` may stand at the start of a line that continues a list
/// whose current item has indentation `lvl`: an indentation at least two
/// columns deeper, a further list item (strictly deeper once inside an
/// item, at least as deep while collecting the list), or a blank line.
pub open spec fn cont_head(t: TokenModel, lvl: u8, strict: bool) -> bool {
    match t {
        TokenModel::Indent(l) => l >= lvl + 2,
        TokenModel::ListItem(l) => if strict {
            l > lvl
        } else {
            l >= lvl
        },
        TokenModel::NewLine => true,
        _ => false,
    }
}

/// How many tokens the continuation lines of a list (or list item) occupy:
/// whole lines are taken while their first token passes `cont_head`.
pub open spec fn cont_extent(ts: Seq<TokenModel>, lvl: u8, strict: bool) -> int
    decreases ts.len(),
{
    if ts.len() == 0 {
        0
    } else if cont_head(ts[0], lvl, strict) {
        let k = line_take(ts);
        proof {
            lemma_line_take_bounds(ts);
        }
        k + cont_extent(ts.skip(k), lvl, strict)
    } else {
        0
    }
}

/// The index of the first occurrence of the toggle token `t`, or
/// `ts.len()` if there is none.
pub open spec fn toggle_idx(ts: Seq<TokenModel>, t: TokenModel) -> int
    decreases ts.len(),
{
    if ts.len() == 0 {
        0
    } else if ts[0] == t {
        0
    } else {
        1 + toggle_idx(ts.drop_first(), t)
    }
}

/// How many tokens an environment body occupies: everything up to the
/// `EnvEnd` that closes the environment at nesting level zero, where nested
/// `EnvBegin`s raise the level and `EnvEnd`s lower it. The closing `EnvEnd`
/// is not part of the body; a body that reaches the end of the stream is
/// unmatched.
pub open spec fn env_extent(ts: Seq<TokenModel>, nesting: nat) -> int
    decreases ts.len(),
{
    if ts.len() == 0 {
        0
    } else if ts[0] is EnvEnd && nesting == 0 {
        0
    } else {
        let next = match ts[0] {
            TokenModel::EnvBegin(_) => nesting + 1,
            TokenModel::EnvEnd => (nesting - 1) as nat,
            _ => nesting,
        };
        1 + env_extent(ts.drop_first(), next)
    }
}

/// Whether `t` starts a block construct: such a token is never absorbed
/// into a paragraph.
pub open spec fn block_start(t: TokenModel) -> bool {
    match t {
        TokenModel::EnvBegin(_) => true,
        TokenModel::EnvEnd => true,
        TokenModel::ListItem(_) => true,
        TokenModel::Header(_) => true,
        TokenModel::CodeBlock(_) => true,
        TokenModel::DisplayMath(_) => true,
        TokenModel::Hr(_) => true,
        _ => false,
    }
}

/// Whether paragraph collection stops in front of `ts`: at the end of the
/// stream, before a block-starting token, and before a blank-line boundary
/// (two consecutive newlines).
pub open spec fn para_stop(ts: Seq<TokenModel>) -> bool {
    ||| ts.len() == 0
    ||| block_start(ts[0])
    ||| (ts[0] is NewLine && ts.len() > 1 && ts[1] is NewLine)
}

/// How many tokens a paragraph absorbs: everything up to the first
/// position where `para_stop` holds.
pub open spec fn para_extent(ts: Seq<TokenModel>) -> int
    decreases ts.len(),
{
    if para_stop(ts) {
        0
    } else {
        1 + para_extent(ts.drop_first())
    }
}

/// The environment kind named by `name`, if it is one of the nine
/// recognized names.
pub open spec fn env_type_of(name: Seq<char>) -> Option<EnvType> {
    if name == "def"@ {
        Option::Some(EnvType::Definition)
    } else if name == "thm"@ {
        Option::Some(EnvType::Theorem)
    } else if name == "cor"@ {
        Option::Some(EnvType::Corollary)
    } else if name == "lemma"@ {
        Option::Some(EnvType::Lemma)
    } else if name == "rem"@ {
        Option::Some(EnvType::Remark)
    } else if name == "eg"@ {
        Option::Some(EnvType::Example)
    } else if name == "ex"@ {
        Option::Some(EnvType::Exercise)
    } else if name == "fold"@ {
        Option::Some(EnvType::Fold)
    } else if name == "conceal"@ {
        Option::Some(EnvType::Conceal)
    } else {
        Option::None
    }
}

/// The container node toggled by the toggle token `t`.
pub open spec fn toggle_node(t: TokenModel, children: Seq<NodeModel>) -> NodeModel {
    match t {
        TokenModel::Bold => NodeModel::Bold(children),
        TokenModel::Italic => NodeModel::Italic(children),
        TokenModel::Striked => NodeModel::Striked(children),
        TokenModel::Underline => NodeModel::Underline(children),
        _ => NodeModel::Highlighted(children),
    }
}

/// Whether `t` is one of the five toggle tokens.
pub open spec fn is_toggle(t: TokenModel) -> bool {
    t is Bold || t is Italic || t is Striked || t is Underline || t is Highlighted
}

/// `newline_idx` lands inside the sequence, on a `NewLine` if it found
/// one.
pub proof fn lemma_newline_idx_bounds(ts: Seq<TokenModel>)
    ensures
        0 <= newline_idx(ts) <= ts.len(),
        newline_idx(ts) < ts.len() ==> ts[newline_idx(ts)] is NewLine,
    decreases ts.len(),
{
    if ts.len() > 0 && !(ts[0] is NewLine) {
        lemma_newline_idx_bounds(ts.drop_first());
    }
}

/// A line occupies at least one token of a non-empty sequence, and never
/// more than all of it.
pub proof fn lemma_line_take_bounds(ts: Seq<TokenModel>)
    ensures
        0 <= line_take(ts) <= ts.len(),
        ts.len() > 0 ==> 1 <= line_take(ts),
{
    lemma_newline_idx_bounds(ts);
}

/// Continuation lines occupy between none and all of the sequence.
pub proof fn lemma_cont_extent_bounds(ts: Seq<TokenModel>, lvl: u8, strict: bool)
    ensures
        0 <= cont_extent(ts, lvl, strict) <= ts.len(),
    decreases ts.len(),
{
    if ts.len() > 0 && cont_head(ts[0], lvl, strict) {
        lemma_line_take_bounds(ts);
        lemma_cont_extent_bounds(ts.skip(line_take(ts)), lvl, strict);
    }
}

/// `toggle_idx` lands inside the sequence, on `t` if it found it.
pub proof fn lemma_toggle_idx_bounds(ts: Seq<TokenModel>, t: TokenModel)
    ensures
        0 <= toggle_idx(ts, t) <= ts.len(),
        toggle_idx(ts, t) < ts.len() ==> ts[toggle_idx(ts, t)] == t,
    decreases ts.len(),
{
    if ts.len() > 0 && ts[0] != t {
        lemma_toggle_idx_bounds(ts.drop_first(), t);
    }
}

/// An environment body lies inside the sequence; if it stops short of the
/// end, it stops right before the closing `EnvEnd`.
pub proof fn lemma_env_extent_bounds(ts: Seq<TokenModel>, nesting: nat)
    ensures
        0 <= env_extent(ts, nesting) <= ts.len(),
        env_extent(ts, nesting) < ts.len() ==> ts[env_extent(ts, nesting)] is EnvEnd,
    decreases ts.len(),
{
    if ts.len() > 0 && !(ts[0] is EnvEnd && nesting == 0) {
        let next = match ts[0] {
            TokenModel::EnvBegin(_) => nesting + 1,
            TokenModel::EnvEnd => (nesting - 1) as nat,
            _ => nesting,
        };
        lemma_env_extent_bounds(ts.drop_first(), next);
    }
}

/// A line of a sequence whose head is no newline is one token longer than
/// the line of its tail.
pub proof fn lemma_line_take_cons(ts: Seq<TokenModel>)
    requires
        ts.len() > 0,
        !(ts[0] is NewLine),
    ensures
        line_take(ts) == 1 + line_take(ts.skip(1)),
{
    assert(ts.drop_first() =~= ts.skip(1));
    lemma_newline_idx_bounds(ts.skip(1));
}

/// A paragraph lies inside the sequence.
pub proof fn lemma_para_extent_bounds(ts: Seq<TokenModel>)
    ensures
        0 <= para_extent(ts) <= ts.len(),
    decreases ts.len(),
{
    if !para_stop(ts) {
        lemma_para_extent_bounds(ts.drop_first());
    }
}

/// The document forest and diagnostics produced by parsing `ts`. `in_list`
/// is true while the collected lines of a list are parsed into its items;
/// `inline` is true inside inline content (header titles, toggle spans,
/// paragraphs and environment arguments), where a lone newline reads as a
/// literal space rather than a line break. `depth` bounds the nesting of
/// recursive constructs: when it runs out, the subtree is dropped and a
/// `RecursionLimitExceeded` diagnostic takes its place.
///
/// Token dispatch, in order: a list item opens a list (or the next item,
/// inside a list); a header takes the rest of its line as its title; a
/// toggle token takes everything up to its next occurrence as its span,
/// closing at the end of the stream (with a diagnostic) if it never
/// recurs; leaf tokens map to leaf nodes; an environment takes the rest of
/// its line as its argument and everything to its matching `EnvEnd` as its
/// body, dropping the whole block if its name is not recognized; a
/// blank-line boundary starts paragraph grouping; an `Indent` is lookahead
/// context only and parses to nothing, as do the reserved link tokens and
/// a stray `EnvEnd`.
pub open spec fn parse_toks(ts: Seq<TokenModel>, in_list: bool, inline: bool, depth: nat) -> ParseOut
    decreases depth, ts.len(), 1int
    via parse_toks_dec
{
    if ts.len() == 0 {
        ParseOut { nodes: Seq::empty(), diags: Seq::empty() }
    } else if depth == 0 {
        ParseOut { nodes: Seq::empty(), diags: seq![Diagnostic::RecursionLimitExceeded] }
    } else {
        let t = ts[0];
        match t {
            TokenModel::ListItem(lvl) => {
                if !in_list {
                    let k = line_take(ts);
                    let total = k + cont_extent(ts.skip(k), lvl, false);
                    let sub = parse_toks(ts.take(total), true, false, (depth - 1) as nat);
                    let rest = parse_boundary(ts.skip(total), in_list, inline, depth);
                    ParseOut {
                        nodes: seq![
                            NodeModel::List { list_type: ListType::Normal, children: sub.nodes },
                        ] + rest.nodes,
                        diags: sub.diags + rest.diags,
                    }
                } else {
                    let body = ts.skip(1);
                    let k = line_take(body);
                    let total = k + cont_extent(body.skip(k), lvl, true);
                    let collected = body.take(total);
                    let with_para = if 1 < ts.len() && ts[1] is Text {
                        seq![TokenModel::NewLine, TokenModel::NewLine] + collected
                    } else {
                        collected
                    };
                    let sub = parse_toks(with_para, false, false, (depth - 1) as nat);
                    let rest = parse_toks(ts.skip(1 + total), in_list, inline, depth);
                    ParseOut {
                        nodes: seq![NodeModel::ListItem(sub.nodes)] + rest.nodes,
                        diags: sub.diags + rest.diags,
                    }
                }
            },
            TokenModel::Header(level) => {
                let body = ts.skip(1);
                let j = newline_idx(body);
                let sub = parse_toks(body.take(j), false, true, (depth - 1) as nat);
                let rest = parse_toks(ts.skip(1 + j), in_list, inline, depth);
                ParseOut {
                    nodes: seq![NodeModel::Header { level, children: sub.nodes }] + rest.nodes,
                    diags: sub.diags + rest.diags,
                }
            },
            TokenModel::Bold | TokenModel::Italic | TokenModel::Striked | TokenModel::Underline
                | TokenModel::Highlighted => {
                let body = ts.skip(1);
                let j = toggle_idx(body, t);
                let found = j < body.len();
                let sub = parse_toks(body.take(j), false, true, (depth - 1) as nat);
                let rest = parse_toks(
                    ts.skip(if found {
                        2 + j
                    } else {
                        1 + j
                    }),
                    in_list,
                    inline,
                    depth,
                );
                ParseOut {
                    nodes: seq![toggle_node(t, sub.nodes)] + rest.nodes,
                    diags: (if found {
                        Seq::<Diagnostic>::empty()
                    } else {
                        seq![Diagnostic::UnterminatedSpan]
                    }) + sub.diags + rest.diags,
                }
            },
            TokenModel::EnvBegin(name) => {
                let line = ts.skip(1);
                let j = newline_idx(line);
                let base: int = if j < line.len() {
                    2 + j
                } else {
                    1 + j
                };
                let line_toks = line.take(j);
                let body = ts.skip(base);
                let e = env_extent(body, 0);
                let matched = e < body.len();
                let env_diags: Seq<Diagnostic> = if matched {
                    Seq::empty()
                } else {
                    seq![Diagnostic::UnmatchedEnvironment]
                };
                let rest = parse_toks(
                    ts.skip(
                        base + e + (if matched {
                            1int
                        } else {
                            0int
                        }),
                    ),
                    in_list,
                    inline,
                    depth,
                );
                match env_type_of(name) {
                    Option::Some(env) => {
                        let arg = if line_toks.len() > 0 {
                            Option::Some(parse_toks(line_toks, false, true, (depth - 1) as nat))
                        } else {
                            Option::None
                        };
                        let arg_nodes = match arg {
                            Option::Some(a) => Option::Some(a.nodes),
                            Option::None => Option::None,
                        };
                        let arg_diags = match arg {
                            Option::Some(a) => a.diags,
                            Option::None => Seq::empty(),
                        };
                        let sub = parse_toks(body.take(e), false, false, (depth - 1) as nat);
                        ParseOut {
                            nodes: seq![
                                NodeModel::Env {
                                    environment_type: env,
                                    environment_arg: arg_nodes,
                                    children: sub.nodes,
                                },
                            ] + rest.nodes,
                            diags: arg_diags + env_diags + sub.diags + rest.diags,
                        }
                    },
                    Option::None => ParseOut {
                        nodes: rest.nodes,
                        diags: env_diags + rest.diags,
                    },
                }
            },
            TokenModel::NewLine => {
                if ts.len() > 1 && ts[1] is NewLine {
                    parse_boundary(ts.skip(2), in_list, inline, depth)
                } else {
                    let rest = parse_toks(ts.skip(1), in_list, inline, depth);
                    let leaf = if inline {
                        NodeModel::Text(seq![' '])
                    } else {
                        NodeModel::NewLine
                    };
                    ParseOut { nodes: seq![leaf] + rest.nodes, diags: rest.diags }
                }
            },
            TokenModel::Text(txt) => leaf_step(NodeModel::Text(txt), ts, in_list, inline, depth),
            TokenModel::InlineMath(m) => leaf_step(
                NodeModel::InlineMath(m),
                ts,
                in_list,
                inline,
                depth,
            ),
            TokenModel::DisplayMath(m) => leaf_step(
                NodeModel::DisplayMath(m),
                ts,
                in_list,
                inline,
                depth,
            ),
            TokenModel::InlineCode(cd) => leaf_step(
                NodeModel::InlineCode(cd),
                ts,
                in_list,
                inline,
                depth,
            ),
            TokenModel::CodeBlock(cd) => leaf_step(
                NodeModel::CodeBlock { language: Option::None, code: cd },
                ts,
                in_list,
                inline,
                depth,
            ),
            TokenModel::Hr(style) => leaf_step(NodeModel::Hr(style), ts, in_list, inline, depth),
            TokenModel::NBSP => leaf_step(NodeModel::NBSP, ts, in_list, inline, depth),
            _ => {
                // Indent tokens are lookahead context for the list rules;
                // the reserved link tokens and a stray EnvEnd parse to
                // nothing.
                parse_skip(ts, in_list, inline, depth)
            },
        }
    }
}

/// One leaf token turned into its node, followed by the rest of the
/// stream.
pub open spec fn leaf_step(
    n: NodeModel,
    ts: Seq<TokenModel>,
    in_list: bool,
    inline: bool,
    depth: nat,
) -> ParseOut
    decreases depth, ts.len(), 0int
    when ts.len() > 0
    via leaf_step_dec
{
    let rest = parse_toks(ts.skip(1), in_list, inline, depth);
    ParseOut { nodes: seq![n] + rest.nodes, diags: rest.diags }
}

/// One token dropped, followed by the rest of the stream.
pub open spec fn parse_skip(ts: Seq<TokenModel>, in_list: bool, inline: bool, depth: nat) -> ParseOut
    decreases depth, ts.len(), 0int
    when ts.len() > 0
    via parse_skip_dec
{
    parse_toks(ts.skip(1), in_list, inline, depth)
}

/// Paragraph grouping after a blank-line boundary: tokens up to the next
/// boundary, block-starting token or end of stream form a paragraph (if
/// there are any), and the rest of the stream follows.
pub open spec fn parse_boundary(ts: Seq<TokenModel>, in_list: bool, inline: bool, depth: nat) -> ParseOut
    decreases depth, ts.len(), 2int
    when depth > 0
    via parse_boundary_dec
{
    let k = para_extent(ts);
    let rest = parse_toks(ts.skip(k), in_list, inline, depth);
    if k > 0 {
        let sub = parse_toks(ts.take(k), false, true, (depth - 1) as nat);
        ParseOut {
            nodes: seq![NodeModel::Paragraph(sub.nodes)] + rest.nodes,
            diags: sub.diags + rest.diags,
        }
    } else {
        rest
    }
}

#[via_fn]
proof fn parse_toks_dec(ts: Seq<TokenModel>, in_list: bool, inline: bool, depth: nat) {
    if ts.len() > 0 && depth > 0 {
        lemma_line_take_bounds(ts);
        let body1 = ts.skip(1);
        lemma_line_take_bounds(body1);
        lemma_newline_idx_bounds(body1);
        match ts[0] {
            TokenModel::ListItem(lvl) => {
                let k = line_take(ts);
                lemma_cont_extent_bounds(ts.skip(k), lvl, false);
                let k1 = line_take(body1);
                lemma_cont_extent_bounds(body1.skip(k1), lvl, true);
            },
            _ => {},
        }
        if is_toggle(ts[0]) {
            lemma_toggle_idx_bounds(body1, ts[0]);
        }
        match ts[0] {
            TokenModel::EnvBegin(_) => {
                let j = newline_idx(body1);
                let base: int = if j < body1.len() {
                    2 + j
                } else {
                    1 + j
                };
                lemma_env_extent_bounds(ts.skip(base), 0);
            },
            _ => {},
        }
    }
}

#[via_fn]
proof fn leaf_step_dec(n: NodeModel, ts: Seq<TokenModel>, in_list: bool, inline: bool, depth: nat) {
}

#[via_fn]
proof fn parse_skip_dec(ts: Seq<TokenModel>, in_list: bool, inline: bool, depth: nat) {
}

#[via_fn]
proof fn parse_boundary_dec(ts: Seq<TokenModel>, in_list: bool, inline: bool, depth: nat) {
    lemma_para_extent_bounds(ts);
}

/// The preprocessing step: a document that does not open with a header has
/// two newlines prepended, so that its leading body text still opens a
/// paragraph.
pub open spec fn preprocess_toks(ts: Seq<TokenModel>) -> Seq<TokenModel> {
    if ts.len() > 0 && ts[0] is Header {
        ts
    } else {
        seq![TokenModel::NewLine, TokenModel::NewLine] + ts
    }
}

} // verus!
