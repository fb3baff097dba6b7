//! General properties of the lexical and grammar rules, stated and proved
//! as public lemmas.

use vstd::prelude::*;

use crate::ast::NodeModel;
use crate::lex_rules::{flush, lex_from};
use crate::parse_rules::{
    env_extent, is_toggle, lemma_env_extent_bounds, lemma_newline_idx_bounds,
    lemma_toggle_idx_bounds, newline_idx, parse_toks, toggle_idx, toggle_node,
};
use crate::token::{Diagnostic, HrStyle, TokenModel};

verus! {

/// The running environment balance of a token sequence: environment
/// begins minus environment ends.
pub open spec fn env_balance(ts: Seq<TokenModel>) -> int
    decreases ts.len(),
{
    if ts.len() == 0 {
        0
    } else {
        env_delta(ts[0]) + env_balance(ts.drop_first())
    }
}

/// What one token contributes to the environment balance.
pub open spec fn env_delta(t: TokenModel) -> int {
    match t {
        TokenModel::EnvBegin(_) => 1,
        TokenModel::EnvEnd => -1,
        _ => 0,
    }
}

proof fn lemma_env_extent_balance_general(ts: Seq<TokenModel>, nesting: nat)
    ensures
        ({
            let e = env_extent(ts, nesting);
            &&& e < ts.len() ==> ts[e] is EnvEnd
            &&& e < ts.len() ==> nesting + env_balance(ts.take(e)) == 0
            &&& forall|i: int|
                0 <= i < e && ts[i] is EnvEnd ==> nesting + env_balance(ts.take(i)) > 0
        }),
    decreases ts.len(),
{
    if ts.len() == 0 {
    } else if ts[0] is EnvEnd && nesting == 0 {
    } else {
        let next: nat = match ts[0] {
            TokenModel::EnvBegin(_) => nesting + 1,
            TokenModel::EnvEnd => (nesting - 1) as nat,
            _ => nesting,
        };
        lemma_env_extent_balance_general(ts.drop_first(), next);
        lemma_env_extent_bounds(ts, nesting);
        lemma_env_extent_bounds(ts.drop_first(), next);
        let e = env_extent(ts, nesting);
        assert forall|k: int| 1 <= k <= ts.len() implies env_balance(ts.take(k)) == env_delta(
            ts[0],
        ) + env_balance(ts.drop_first().take(k - 1)) by {
            assert(ts.take(k).drop_first() =~= ts.drop_first().take(k - 1));
            assert(ts.take(k)[0] == ts[0]);
        }
        assert(ts.take(0).len() == 0);
        assert forall|i: int| 0 <= i < e && ts[i] is EnvEnd implies nesting + env_balance(
            ts.take(i),
        ) > 0 by {
            if i > 0 {
                assert(ts.drop_first()[i - 1] == ts[i]);
            }
        }
    }
}

/// Environment balance: the `EnvEnd` that closes an environment body is
/// the first one at nesting level zero. The body before it holds equally
/// many environment begins and ends, and every `EnvEnd` inside it closes a
/// begin nested within the body, so every `EnvBegin` of a well-formed
/// stream is matched by exactly one `EnvEnd` at its own nesting level.
pub proof fn lemma_env_end_matches(ts: Seq<TokenModel>)
    requires
        env_extent(ts, 0) < ts.len(),
    ensures
        ts[env_extent(ts, 0)] is EnvEnd,
        env_balance(ts.take(env_extent(ts, 0))) == 0,
        forall|i: int|
            0 <= i < env_extent(ts, 0) && ts[i] is EnvEnd ==> env_balance(ts.take(i)) > 0,
{
    lemma_env_extent_balance_general(ts, 0);
}

/// Horizontal-rule recognition: a run of three dashes reads as a dashed
/// rule exactly when it stands at a line start. There it becomes an `Hr`
/// token and none of it joins the literal text; anywhere else the dash is
/// ordinary literal text, folded into the running accumulator.
pub proof fn lemma_hr_dashed_exactly_at_line_start(s: Seq<char>, i: int, acc: Seq<char>)
    requires
        0 <= i,
        i + 2 < s.len(),
        s[i] == '-',
        s[i + 1] == '-',
        s[i + 2] == '-',
    ensures
        lex_from(s, i, true, acc).toks == (flush(acc) + seq![TokenModel::Hr(HrStyle::Dashed)])
            + lex_from(s, i + 3, false, Seq::empty()).toks,
        lex_from(s, i, false, acc) == lex_from(s, i + 1, false, acc.push('-')),
{
}

/// The literal text one token carries: the payload of a `Text` token,
/// nothing for every other token.
pub open spec fn tok_text(t: TokenModel) -> Seq<char> {
    match t {
        TokenModel::Text(s) => s,
        _ => Seq::empty(),
    }
}

/// The literal text of a token stream, concatenated in order.
pub open spec fn toks_text(ts: Seq<TokenModel>) -> Seq<char>
    decreases ts.len(),
{
    if ts.len() == 0 {
        Seq::empty()
    } else {
        tok_text(ts[0]) + toks_text(ts.drop_first())
    }
}

/// The literal text one node carries: the payload of a `Text` leaf, the
/// text of the children (and argument) for containers, nothing for the
/// other leaves.
pub open spec fn node_text(n: NodeModel) -> Seq<char>
    decreases n,
{
    match n {
        NodeModel::Text(s) => s,
        NodeModel::Header { children, .. } => nodes_text(children),
        NodeModel::Bold(children) => nodes_text(children),
        NodeModel::Italic(children) => nodes_text(children),
        NodeModel::Striked(children) => nodes_text(children),
        NodeModel::Underline(children) => nodes_text(children),
        NodeModel::Highlighted(children) => nodes_text(children),
        NodeModel::Link { children, .. } => nodes_text(children),
        NodeModel::List { children, .. } => nodes_text(children),
        NodeModel::ListItem(children) => nodes_text(children),
        NodeModel::Env { environment_arg, children, .. } => (match environment_arg {
            Option::Some(arg) => nodes_text(arg),
            Option::None => Seq::empty(),
        }) + nodes_text(children),
        NodeModel::Paragraph(children) => nodes_text(children),
        _ => Seq::empty(),
    }
}

/// The literal text of a node forest, concatenated in order.
pub open spec fn nodes_text(ns: Seq<NodeModel>) -> Seq<char>
    decreases ns,
{
    if ns.len() == 0 {
        Seq::empty()
    } else {
        node_text(ns[0]) + nodes_text(ns.drop_first())
    }
}

/// Whether a token stream holds only literal text, emphasis toggles and
/// headers: the class of documents the round-trip law speaks about.
pub open spec fn plain_markup(ts: Seq<TokenModel>) -> bool {
    forall|i: int|
        0 <= i < ts.len() ==> (ts[i] is Text || is_toggle(ts[i]) || ts[i] is Header)
}

/// Splitting a stream splits its text.
proof fn lemma_toks_text_split(ts: Seq<TokenModel>, k: int)
    requires
        0 <= k <= ts.len(),
    ensures
        toks_text(ts) == toks_text(ts.take(k)) + toks_text(ts.skip(k)),
    decreases k,
{
    if k == 0 {
        assert(ts.take(0).len() == 0);
        assert(ts.skip(0) =~= ts);
        assert(Seq::<char>::empty() + toks_text(ts) =~= toks_text(ts));
    } else {
        lemma_toks_text_split(ts.drop_first(), k - 1);
        assert(ts.take(k).drop_first() =~= ts.drop_first().take(k - 1));
        assert(ts.take(k)[0] == ts[0]);
        assert(ts.skip(k) =~= ts.drop_first().skip(k - 1));
        assert(tok_text(ts[0]) + (toks_text(ts.drop_first().take(k - 1)) + toks_text(
            ts.skip(k),
        )) =~= (tok_text(ts[0]) + toks_text(ts.drop_first().take(k - 1))) + toks_text(ts.skip(k)));
    }
}

/// The text of one node followed by a forest.
proof fn lemma_nodes_text_cons(n: NodeModel, rest: Seq<NodeModel>)
    ensures
        nodes_text(seq![n] + rest) == node_text(n) + nodes_text(rest),
{
    assert((seq![n] + rest).len() > 0);
    assert((seq![n] + rest)[0] == n);
    assert((seq![n] + rest).drop_first() =~= rest);
}

/// Round-trip fidelity of plain text: parsing a stream of literal text,
/// emphasis toggles and headers keeps every literal text run, in order —
/// the markup structure is the only thing parsing adds or drops. The
/// nesting bound must not cut the parse short, which any bound above the
/// stream's length guarantees.
pub proof fn lemma_text_runs_preserved(ts: Seq<TokenModel>, in_list: bool, inline: bool, depth: nat)
    requires
        plain_markup(ts),
        depth > ts.len(),
    ensures
        nodes_text(parse_toks(ts, in_list, inline, depth).nodes) == toks_text(ts),
    decreases ts.len(),
{
    if ts.len() == 0 {
    } else {
        let t = ts[0];
        assert(ts.drop_first() =~= ts.skip(1));
        if t is Text {
            assert(parse_toks(ts, in_list, inline, depth) == crate::parse_rules::leaf_step(
                NodeModel::Text(t->Text_0),
                ts,
                in_list,
                inline,
                depth,
            ));
            assert(plain_markup(ts.skip(1)));
            lemma_text_runs_preserved(ts.skip(1), in_list, inline, depth);
            let rest = parse_toks(ts.skip(1), in_list, inline, depth);
            lemma_nodes_text_cons(NodeModel::Text(t->Text_0), rest.nodes);
        } else if is_toggle(t) {
            let body = ts.skip(1);
            let j = toggle_idx(body, t);
            lemma_toggle_idx_bounds(body, t);
            let found = j < body.len();
            assert(plain_markup(body.take(j)));
            assert(body.take(j).len() == j);
            lemma_text_runs_preserved(body.take(j), false, true, (depth - 1) as nat);
            let rest_ts = ts.skip(
                if found {
                    2 + j
                } else {
                    1 + j
                },
            );
            assert(plain_markup(rest_ts)) by {
                assert forall|i: int| 0 <= i < rest_ts.len() implies (rest_ts[i] is Text
                    || is_toggle(rest_ts[i]) || rest_ts[i] is Header) by {
                    assert(rest_ts[i] == ts[i + (if found {
                        2 + j
                    } else {
                        1 + j
                    })]);
                }
            }
            lemma_text_runs_preserved(rest_ts, in_list, inline, depth);
            let sub = parse_toks(body.take(j), false, true, (depth - 1) as nat);
            let rest = parse_toks(rest_ts, in_list, inline, depth);
            lemma_nodes_text_cons(toggle_node(t, sub.nodes), rest.nodes);
            assert(node_text(toggle_node(t, sub.nodes)) == nodes_text(sub.nodes));
            lemma_toks_text_split(body, j);
            if found {
                assert(body.skip(j).drop_first() =~= rest_ts);
                assert(tok_text(body.skip(j)[0]) =~= Seq::<char>::empty());
            } else {
                assert(body.skip(j) =~= rest_ts);
            }
            assert(toks_text(ts) == toks_text(body.take(j)) + toks_text(rest_ts)) by {
                assert(tok_text(t) =~= Seq::<char>::empty());
                assert(Seq::<char>::empty() + toks_text(body) =~= toks_text(body));
                if found {
                    assert(Seq::<char>::empty() + toks_text(rest_ts) =~= toks_text(rest_ts));
                }
            }
        } else {
            let body = ts.skip(1);
            let j = newline_idx(body);
            lemma_newline_idx_bounds(body);
            assert(j == body.len()) by {
                if j < body.len() {
                    assert(ts[j + 1] == body[j]);
                }
            }
            assert(plain_markup(body.take(j)));
            assert(body.take(j) =~= body);
            lemma_text_runs_preserved(body, false, true, (depth - 1) as nat);
            let sub = parse_toks(body, false, true, (depth - 1) as nat);
            assert(ts.skip(1 + j) =~= Seq::<TokenModel>::empty());
            let rest = parse_toks(ts.skip(1 + j), in_list, inline, depth);
            lemma_nodes_text_cons(
                NodeModel::Header { level: t->Header_0, children: sub.nodes },
                rest.nodes,
            );
            assert(tok_text(t) =~= Seq::<char>::empty());
            assert(Seq::<char>::empty() + toks_text(body) =~= toks_text(body));
            assert(nodes_text(sub.nodes) + Seq::<char>::empty() =~= nodes_text(sub.nodes));
        }
    }
}

/// The nesting bound is enforced: at depth zero the parser produces no
/// nodes and reports that the limit was reached. Together with the
/// termination measure of `parse_toks` — every nested construct spends one
/// depth level, every step consumes tokens — this bounds the recursion
/// depth of any parse by the configured limit, and makes every parse
/// finish.
pub proof fn lemma_depth_limit_stops(ts: Seq<TokenModel>, in_list: bool, inline: bool)
    requires
        ts.len() > 0,
    ensures
        parse_toks(ts, in_list, inline, 0).nodes == Seq::<NodeModel>::empty(),
        parse_toks(ts, in_list, inline, 0).diags == seq![Diagnostic::RecursionLimitExceeded],
{
}

} // verus!
