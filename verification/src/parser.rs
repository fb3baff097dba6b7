//! The executable recursive-descent parser: it consumes the token stream
//! from the front, verified to produce exactly the document forest that
//! the grammar rules in `parse_rules` define.

use vstd::prelude::*;

use crate::ast::{
    lemma_nodes_model_push, nodes_model, EnvType, ListType, Node, NodeModel,
};
use crate::parse_rules::{
    block_start, cont_extent, cont_head, env_extent, env_type_of, is_toggle, leaf_step,
    lemma_cont_extent_bounds, lemma_env_extent_bounds, lemma_line_take_bounds,
    lemma_line_take_cons, lemma_newline_idx_bounds, lemma_toggle_idx_bounds, line_take,
    newline_idx, para_extent, parse_boundary, parse_skip, parse_toks, preprocess_toks,
    toggle_idx, toggle_node,
};
use crate::token::{
    lemma_concat_assoc, lemma_concat_empty, lemma_empty_concat, lemma_skip_skip,
    lemma_toks_model_push, lemma_toks_model_skip, lemma_toks_model_take, toks_model, Diagnostic,
    Token, TokenModel,
};

verus! {

/// How deeply constructs may nest by default before the parser gives up on
/// a subtree and reports `RecursionLimitExceeded`: generous for any
/// realistic document, but finite.
pub const DEFAULT_NESTING_LIMIT: usize = 128;

/// Whether `t` starts a block construct (executable form of
/// `block_start`).
fn is_block_start(t: &Token) -> (r: bool)
    ensures
        r == block_start(t.model()),
{
    match t {
        Token::EnvBegin(_) => true,
        Token::EnvEnd => true,
        Token::ListItem(_) => true,
        Token::Header(_) => true,
        Token::CodeBlock(_) => true,
        Token::DisplayMath(_) => true,
        Token::Hr(_) => true,
        _ => false,
    }
}

/// Whether `t` may start a continuation line of a list at indentation
/// `lvl` (executable form of `cont_head`).
fn is_cont_head(t: &Token, lvl: u8, strict: bool) -> (r: bool)
    ensures
        r == cont_head(t.model(), lvl, strict),
{
    match t {
        Token::Indent(l) => *l as usize >= lvl as usize + 2,
        Token::ListItem(l) => if strict {
            *l > lvl
        } else {
            *l >= lvl
        },
        Token::NewLine => true,
        _ => false,
    }
}

/// Whether `a` is the same toggle token as `b`, for a toggle `b`.
fn is_same_toggle(a: &Token, b: &Token) -> (r: bool)
    requires
        is_toggle(b.model()),
    ensures
        r == (a.model() == b.model()),
{
    match (a, b) {
        (Token::Bold, Token::Bold) => true,
        (Token::Italic, Token::Italic) => true,
        (Token::Striked, Token::Striked) => true,
        (Token::Underline, Token::Underline) => true,
        (Token::Highlighted, Token::Highlighted) => true,
        _ => false,
    }
}

/// The container node that the toggle token `t` wraps its span in.
fn toggle_wrap(t: &Token, children: Vec<Node>) -> (n: Node)
    requires
        is_toggle(t.model()),
    ensures
        n.model() == toggle_node(t.model(), nodes_model(children@)),
{
    match t {
        Token::Bold => Node::Bold(children),
        Token::Italic => Node::Italic(children),
        Token::Striked => Node::Striked(children),
        Token::Underline => Node::Underline(children),
        _ => Node::Highlighted(children),
    }
}

/// The environment kind named by `name`, if any (executable form of
/// `env_type_of`).
fn env_type_of_name(name: &String) -> (r: Option<EnvType>)
    ensures
        r == env_type_of(name@),
{
    if *name == String::from_str("def") {
        Option::Some(EnvType::Definition)
    } else if *name == String::from_str("thm") {
        Option::Some(EnvType::Theorem)
    } else if *name == String::from_str("cor") {
        Option::Some(EnvType::Corollary)
    } else if *name == String::from_str("lemma") {
        Option::Some(EnvType::Lemma)
    } else if *name == String::from_str("rem") {
        Option::Some(EnvType::Remark)
    } else if *name == String::from_str("eg") {
        Option::Some(EnvType::Example)
    } else if *name == String::from_str("ex") {
        Option::Some(EnvType::Exercise)
    } else if *name == String::from_str("fold") {
        Option::Some(EnvType::Fold)
    } else if *name == String::from_str("conceal") {
        Option::Some(EnvType::Conceal)
    } else {
        Option::None
    }
}

/// The parser: the remaining token stream, the configured nesting bound,
/// and the diagnostics collected so far.
pub struct Parser {
    tokens: Vec<Token>,
    limit: usize,
    diags: Vec<Diagnostic>,
}

impl Parser {
    /// The model of the remaining token stream.
    pub closed spec fn toks(&self) -> Seq<TokenModel> {
        toks_model(self.tokens@)
    }

    /// The configured nesting bound.
    pub closed spec fn depth_limit(&self) -> nat {
        self.limit as nat
    }

    /// The diagnostics collected so far.
    pub closed spec fn diagnostics(&self) -> Seq<Diagnostic> {
        self.diags@
    }

    /// A parser over `tokens` with the default nesting bound.
    pub fn new(tokens: Vec<Token>) -> (r: Self)
        ensures
            r.toks() == toks_model(tokens@),
            r.depth_limit() == DEFAULT_NESTING_LIMIT as nat,
            r.diagnostics() == Seq::<Diagnostic>::empty(),
    {
        let r = Parser { tokens, limit: DEFAULT_NESTING_LIMIT, diags: Vec::new() };
        proof {
            assert(r.diags@ =~= Seq::<Diagnostic>::empty());
        }
        r
    }

    /// A parser over `tokens` with the nesting bound `limit`.
    pub fn with_limit(tokens: Vec<Token>, limit: usize) -> (r: Self)
        ensures
            r.toks() == toks_model(tokens@),
            r.depth_limit() == limit as nat,
            r.diagnostics() == Seq::<Diagnostic>::empty(),
    {
        let r = Parser { tokens, limit, diags: Vec::new() };
        proof {
            assert(r.diags@ =~= Seq::<Diagnostic>::empty());
        }
        r
    }

    /// The collected diagnostics, for the caller's error channel.
    pub fn take_diagnostics(&mut self) -> (r: Vec<Diagnostic>)
        ensures
            r@ == old(self).diagnostics(),
            final(self).diagnostics() == Seq::<Diagnostic>::empty(),
            final(self).toks() == old(self).toks(),
            final(self).depth_limit() == old(self).depth_limit(),
    {
        let mut out: Vec<Diagnostic> = Vec::new();
        core::mem::swap(&mut out, &mut self.diags);
        proof {
            assert(final(self).diags@ =~= Seq::<Diagnostic>::empty());
        }
        out
    }

    /// Ensures the token stream opens with a paragraph boundary unless the
    /// document opens with a header: two newlines are prepended otherwise,
    /// so leading body text still forms a paragraph.
    pub fn preprocess(tokens: Vec<Token>) -> (r: Vec<Token>)
        ensures
            toks_model(r@) == preprocess_toks(toks_model(tokens@)),
    {
        let starts_with_header = tokens.len() > 0 && matches!(&tokens[0], Token::Header(_));
        if starts_with_header {
            tokens
        } else {
            let mut r: Vec<Token> = Vec::new();
            r.push(Token::NewLine);
            r.push(Token::NewLine);
            let mut rest = tokens;
            let ghost t0 = rest@;
            r.append(&mut rest);
            proof {
                assert(toks_model(r@) =~= seq![TokenModel::NewLine, TokenModel::NewLine]
                    + toks_model(t0));
            }
            r
        }
    }

    /// A helper parser for one collected sub-sequence.
    fn sub_parser(tokens: Vec<Token>) -> (r: Self)
        ensures
            r.tokens == tokens,
            r.diags@ == Seq::<Diagnostic>::empty(),
    {
        let r = Parser { tokens, limit: 0, diags: Vec::new() };
        proof {
            assert(r.diags@ =~= Seq::<Diagnostic>::empty());
        }
        r
    }

    /// Removes and returns the first `n` tokens, leaving the rest.
    fn take_n(&mut self, n: usize) -> (v: Vec<Token>)
        requires
            n <= old(self).tokens@.len(),
        ensures
            v@ == old(self).tokens@.subrange(0, n as int),
            final(self).tokens@ == old(self).tokens@.skip(n as int),
            final(self).limit == old(self).limit,
            final(self).diags == old(self).diags,
    {
        let mut rest = self.tokens.split_off(n);
        core::mem::swap(&mut self.tokens, &mut rest);
        rest
    }

    /// The index of the first `NewLine` at or after `from` in the
    /// remaining stream, relative to `from`.
    fn scan_newline_from(&self, from: usize) -> (n: usize)
        requires
            from <= self.tokens@.len(),
        ensures
            n == newline_idx(self.toks().skip(from as int)),
            from + n <= self.tokens@.len(),
            from == 0 ==> n == newline_idx(self.toks()),
    {
        proof {
            assert(self.toks().skip(0) =~= self.toks());
        }
        let ghost m = self.toks();
        let mut j = from;
        while j < self.tokens.len() && !matches!(&self.tokens[j], Token::NewLine)
            invariant
                from <= j <= self.tokens@.len(),
                m == self.toks(),
                newline_idx(m.skip(from as int)) == (j - from) + newline_idx(m.skip(j as int)),
            decreases self.tokens@.len() - j,
        {
            proof {
                assert(m.skip(j as int).drop_first() =~= m.skip(j as int + 1));
            }
            j = j + 1;
        }
        j - from
    }

    /// How many tokens the line starting at `from` occupies (executable
    /// form of `line_take` on the stream after `from`).
    fn scan_line_from(&self, from: usize) -> (n: usize)
        requires
            from <= self.tokens@.len(),
        ensures
            n == line_take(self.toks().skip(from as int)),
            from + n <= self.tokens@.len(),
            from < self.tokens@.len() ==> 1 <= n,
            from == 0 ==> n == line_take(self.toks()),
    {
        proof {
            assert(self.toks().skip(0) =~= self.toks());
        }
        let k = self.scan_newline_from(from);
        proof {
            lemma_newline_idx_bounds(self.toks().skip(from as int));
        }
        if k < self.tokens.len() - from {
            k + 1
        } else {
            self.tokens.len() - from
        }
    }

    /// The index of the first token equal to the toggle `t` in the
    /// remaining stream.
    fn scan_toggle(&self, t: &Token) -> (n: usize)
        requires
            is_toggle(t.model()),
        ensures
            n == toggle_idx(self.toks(), t.model()),
            n <= self.tokens@.len(),
    {
        let ghost m = self.toks();
        proof {
            assert(m.skip(0) =~= m);
        }
        let mut j: usize = 0;
        while j < self.tokens.len() && !is_same_toggle(&self.tokens[j], t)
            invariant
                j <= self.tokens@.len(),
                m == self.toks(),
                is_toggle(t.model()),
                toggle_idx(m, t.model()) == j + toggle_idx(m.skip(j as int), t.model()),
            decreases self.tokens@.len() - j,
        {
            proof {
                assert(m.skip(j as int).drop_first() =~= m.skip(j as int + 1));
            }
            j = j + 1;
        }
        j
    }

    /// How many tokens the current environment body occupies, and whether
    /// a closing `EnvEnd` was found for it.
    fn scan_env_body(&self) -> (r: (usize, bool))
        ensures
            r.0 == env_extent(self.toks(), 0),
            r.0 <= self.tokens@.len(),
            r.1 == (r.0 < self.tokens@.len()),
    {
        let ghost m = self.toks();
        proof {
            assert(m.skip(0) =~= m);
        }
        let mut j: usize = 0;
        let mut nesting: usize = 0;
        while !(j >= self.tokens.len() || (nesting == 0 && matches!(
            &self.tokens[j],
            Token::EnvEnd,
        )))
            invariant
                j <= self.tokens@.len(),
                nesting <= j,
                m == self.toks(),
                env_extent(m, 0) == j + env_extent(m.skip(j as int), nesting as nat),
            decreases self.tokens@.len() - j,
        {
            proof {
                assert(m.skip(j as int).drop_first() =~= m.skip(j as int + 1));
            }
            match &self.tokens[j] {
                Token::EnvBegin(_) => {
                    nesting = nesting + 1;
                },
                Token::EnvEnd => {
                    nesting = nesting - 1;
                },
                _ => {},
            }
            j = j + 1;
        }
        (j, j < self.tokens.len())
    }

    /// How many tokens the paragraph starting here absorbs.
    fn scan_para(&self) -> (n: usize)
        ensures
            n == para_extent(self.toks()),
            n <= self.tokens@.len(),
    {
        let ghost m = self.toks();
        proof {
            assert(m.skip(0) =~= m);
        }
        let mut j: usize = 0;
        loop
            invariant
                j <= self.tokens@.len(),
                m == self.toks(),
                para_extent(m) == j + para_extent(m.skip(j as int)),
            ensures
                j <= self.tokens@.len(),
                para_extent(m) == j,
            decreases self.tokens@.len() - j,
        {
            if j >= self.tokens.len() {
                break ;
            }
            if is_block_start(&self.tokens[j]) {
                break ;
            }
            if matches!(&self.tokens[j], Token::NewLine) && j + 1 < self.tokens.len() && matches!(
                &self.tokens[j + 1],
                Token::NewLine,
            ) {
                break ;
            }
            proof {
                assert(m.skip(j as int).drop_first() =~= m.skip(j as int + 1));
            }
            j = j + 1;
        }
        j
    }

    /// Groups the tokens up to the next paragraph stop into a `Paragraph`
    /// node, if there are any: the step taken after a blank-line boundary.
    fn handle_paragraph(
        &mut self,
        nodes: &mut Vec<Node>,
        ds: &mut Vec<Diagnostic>,
        depth: usize,
    )
        requires
            depth >= 1,
        ensures
            ({
                let cur0 = toks_model(old(self).tokens@);
                let k = para_extent(cur0);
                let sub = parse_toks(cur0.take(k), false, true, (depth - 1) as nat);
                &&& toks_model(final(self).tokens@) == cur0.skip(k)
                &&& final(self).tokens@.len() <= old(self).tokens@.len()
                &&& nodes_model(final(nodes)@) == nodes_model(old(nodes)@) + (if k > 0 {
                    seq![NodeModel::Paragraph(sub.nodes)]
                } else {
                    Seq::<NodeModel>::empty()
                })
                &&& final(ds)@ == old(ds)@ + (if k > 0 {
                    sub.diags
                } else {
                    Seq::<Diagnostic>::empty()
                })
                &&& final(self).limit == old(self).limit
                &&& final(self).diags@ == old(self).diags@
            }),
        decreases depth, 0int,
    {
        let ghost cur0 = toks_model(self.tokens@);
        let ghost tv0 = self.tokens@;
        let ghost nv0 = nodes@;
        let ghost ds0 = ds@;
        let k = self.scan_para();
        let collected = self.take_n(k);
        proof {
            lemma_toks_model_take(tv0, k as int);
            lemma_toks_model_skip(tv0, k as int);
        }
        if collected.len() > 0 {
            let mut sub = Parser::sub_parser(collected);
            let children = sub.parse_at(false, true, depth - 1);
            ds.append(&mut sub.diags);
            nodes.push(Node::Paragraph(children));
            proof {
                lemma_empty_concat(
                    parse_toks(cur0.take(k as int), false, true, (depth - 1) as nat).diags,
                );
                lemma_nodes_model_push(nv0, nodes@.last());
            }
        } else {
            proof {
                assert(nodes_model(nodes@) =~= nodes_model(nv0) + Seq::<NodeModel>::empty());
                assert(ds@ =~= ds0 + Seq::<Diagnostic>::empty());
            }
        }
    }

    /// Collects a whole list from its first item's line and every
    /// continuation line, parses it in list context, and wraps it in a
    /// `List` node. The list's first token (its opening item) has already
    /// been taken off the stream.
    fn handle_list(
        &mut self,
        nodes: &mut Vec<Node>,
        ds: &mut Vec<Diagnostic>,
        lvl: u8,
        depth: usize,
        Ghost(cur0): Ghost<Seq<TokenModel>>,
    )
        requires
            depth >= 1,
            cur0.len() > 0,
            cur0[0] == TokenModel::ListItem(lvl),
            toks_model(old(self).tokens@) == cur0.skip(1),
        ensures
            ({
                let k = line_take(cur0);
                let total = k + cont_extent(cur0.skip(k), lvl, false);
                let sub = parse_toks(cur0.take(total), true, false, (depth - 1) as nat);
                &&& toks_model(final(self).tokens@) == cur0.skip(total)
                &&& final(self).tokens@.len() <= old(self).tokens@.len()
                &&& nodes_model(final(nodes)@) == nodes_model(old(nodes)@) + seq![
                    NodeModel::List { list_type: ListType::Normal, children: sub.nodes },
                ]
                &&& final(ds)@ == old(ds)@ + sub.diags
                &&& final(self).limit == old(self).limit
                &&& final(self).diags@ == old(self).diags@
            }),
        decreases depth, 0int,
    {
        let ghost tv0 = self.tokens@;
        let ghost nv0 = nodes@;
        let n1 = self.scan_line_from(0);
        let mut collected: Vec<Token> = Vec::new();
        collected.push(Token::ListItem(lvl));
        let mut line = self.take_n(n1);
        collected.append(&mut line);
        proof {
            lemma_line_take_cons(cur0);
            lemma_toks_model_take(tv0, n1 as int);
            lemma_toks_model_skip(tv0, n1 as int);
            lemma_skip_skip(cur0, 1, n1 as int);
        }
        let n2 = self.scan_cont(lvl, false);
        let mut more = self.take_n(n2);
        collected.append(&mut more);
        proof {
            lemma_toks_model_take(tv0.skip(n1 as int), n2 as int);
            lemma_toks_model_skip(tv0.skip(n1 as int), n2 as int);
            lemma_skip_skip(tv0, n1 as int, n2 as int);
            lemma_skip_skip(cur0, 1 + n1 as int, n2 as int);
            let cur1 = toks_model(tv0);
            assert(toks_model(collected@) =~= seq![TokenModel::ListItem(lvl)] + (cur1.take(
                n1 as int,
            ) + cur1.skip(n1 as int).take(n2 as int)));
            assert(seq![TokenModel::ListItem(lvl)] + (cur1.take(n1 as int) + cur1.skip(
                n1 as int,
            ).take(n2 as int)) =~= cur0.take(1 + n1 + n2 as int));
            assert(toks_model(self.tokens@) =~= cur0.skip(1 + n1 + n2 as int));
        }
        let mut sub = Parser::sub_parser(collected);
        let children = sub.parse_at(true, false, depth - 1);
        ds.append(&mut sub.diags);
        nodes.push(Node::List { list_type: ListType::Normal, children });
        proof {
            lemma_empty_concat(
                parse_toks(cur0.take(1 + n1 + n2 as int), true, false, (depth - 1) as nat).diags,
            );
            lemma_nodes_model_push(nv0, nodes@.last());
        }
    }

    /// Collects one list item's line and continuation lines, parses them in
    /// block context (as a fresh paragraph if literal text follows the
    /// marker), and wraps them in a `ListItem` node. The item's marker
    /// token has already been taken off the stream.
    fn handle_list_item(
        &mut self,
        nodes: &mut Vec<Node>,
        ds: &mut Vec<Diagnostic>,
        lvl: u8,
        depth: usize,
        Ghost(cur0): Ghost<Seq<TokenModel>>,
    )
        requires
            depth >= 1,
            cur0.len() > 0,
            cur0[0] == TokenModel::ListItem(lvl),
            toks_model(old(self).tokens@) == cur0.skip(1),
        ensures
            ({
                let body = cur0.skip(1);
                let k = line_take(body);
                let total = k + cont_extent(body.skip(k), lvl, true);
                let collected = body.take(total);
                let with_para = if 1 < cur0.len() && cur0[1] is Text {
                    seq![TokenModel::NewLine, TokenModel::NewLine] + collected
                } else {
                    collected
                };
                let sub = parse_toks(with_para, false, false, (depth - 1) as nat);
                &&& toks_model(final(self).tokens@) == cur0.skip(1 + total)
                &&& final(self).tokens@.len() <= old(self).tokens@.len()
                &&& nodes_model(final(nodes)@) == nodes_model(old(nodes)@) + seq![
                    NodeModel::ListItem(sub.nodes),
                ]
                &&& final(ds)@ == old(ds)@ + sub.diags
                &&& final(self).limit == old(self).limit
                &&& final(self).diags@ == old(self).diags@
            }),
        decreases depth, 0int,
    {
        let ghost tv0 = self.tokens@;
        let ghost nv0 = nodes@;
        let include_para = self.tokens.len() > 0 && matches!(&self.tokens[0], Token::Text(_));
        let n1 = self.scan_line_from(0);
        let mut collected = self.take_n(n1);
        proof {
            lemma_toks_model_take(tv0, n1 as int);
            lemma_toks_model_skip(tv0, n1 as int);
        }
        let n2 = self.scan_cont(lvl, true);
        let mut more = self.take_n(n2);
        collected.append(&mut more);
        let ghost base_collected = cur0.skip(1).take(n1 + n2 as int);
        proof {
            lemma_toks_model_take(tv0.skip(n1 as int), n2 as int);
            lemma_toks_model_skip(tv0.skip(n1 as int), n2 as int);
            lemma_skip_skip(tv0, n1 as int, n2 as int);
            lemma_skip_skip(cur0.skip(1), n1 as int, n2 as int);
            lemma_skip_skip(cur0, 1, n1 + n2 as int);
            assert(toks_model(collected@) =~= base_collected);
            assert(toks_model(self.tokens@) =~= cur0.skip(1 + n1 + n2 as int));
        }
        let final_collected = if include_para {
            let mut v: Vec<Token> = Vec::new();
            v.push(Token::NewLine);
            v.push(Token::NewLine);
            v.append(&mut collected);
            proof {
                assert(toks_model(v@) =~= seq![TokenModel::NewLine, TokenModel::NewLine]
                    + base_collected);
            }
            v
        } else {
            collected
        };
        let ghost with_para = if include_para {
            seq![TokenModel::NewLine, TokenModel::NewLine] + base_collected
        } else {
            base_collected
        };
        let mut sub = Parser::sub_parser(final_collected);
        let children = sub.parse_at(false, false, depth - 1);
        ds.append(&mut sub.diags);
        nodes.push(Node::ListItem(children));
        proof {
            lemma_empty_concat(parse_toks(with_para, false, false, (depth - 1) as nat).diags);
            lemma_nodes_model_push(nv0, nodes@.last());
        }
    }

    /// Collects the rest of the current line as a header title, parses it
    /// as inline content, and wraps it in a `Header` node. The header token
    /// has already been taken off the stream; the line's newline stays.
    fn handle_header(
        &mut self,
        nodes: &mut Vec<Node>,
        ds: &mut Vec<Diagnostic>,
        level: u8,
        depth: usize,
    )
        requires
            depth >= 1,
        ensures
            ({
                let body = toks_model(old(self).tokens@);
                let j = newline_idx(body);
                let sub = parse_toks(body.take(j), false, true, (depth - 1) as nat);
                &&& toks_model(final(self).tokens@) == body.skip(j)
                &&& final(self).tokens@.len() <= old(self).tokens@.len()
                &&& nodes_model(final(nodes)@) == nodes_model(old(nodes)@) + seq![
                    NodeModel::Header { level, children: sub.nodes },
                ]
                &&& final(ds)@ == old(ds)@ + sub.diags
                &&& final(self).limit == old(self).limit
                &&& final(self).diags@ == old(self).diags@
            }),
        decreases depth, 0int,
    {
        let ghost tv0 = self.tokens@;
        let ghost nv0 = nodes@;
        let n1 = self.scan_newline_from(0);
        let line = self.take_n(n1);
        proof {
            lemma_toks_model_take(tv0, n1 as int);
            lemma_toks_model_skip(tv0, n1 as int);
        }
        let mut sub = Parser::sub_parser(line);
        let children = sub.parse_at(false, true, depth - 1);
        ds.append(&mut sub.diags);
        nodes.push(Node::Header { level, children });
        proof {
            lemma_empty_concat(
                parse_toks(toks_model(tv0).take(n1 as int), false, true, (depth - 1) as nat).diags,
            );
            lemma_nodes_model_push(nv0, nodes@.last());
        }
    }

    /// Collects a toggle span up to the next occurrence of the same toggle
    /// token, parses it as inline content, and wraps it in the matching
    /// container node. The opening toggle has already been taken off the
    /// stream; the closing one, if found, is consumed and discarded, and an
    /// unterminated span closes at the end of the stream with a diagnostic.
    fn handle_toggle(
        &mut self,
        nodes: &mut Vec<Node>,
        ds: &mut Vec<Diagnostic>,
        t: Token,
        depth: usize,
    )
        requires
            depth >= 1,
            is_toggle(t.model()),
        ensures
            ({
                let body = toks_model(old(self).tokens@);
                let j = toggle_idx(body, t.model());
                let found = j < body.len();
                let sub = parse_toks(body.take(j), false, true, (depth - 1) as nat);
                &&& toks_model(final(self).tokens@) == body.skip(
                    if found {
                        j + 1
                    } else {
                        j
                    },
                )
                &&& final(self).tokens@.len() <= old(self).tokens@.len()
                &&& nodes_model(final(nodes)@) == nodes_model(old(nodes)@) + seq![
                    toggle_node(t.model(), sub.nodes),
                ]
                &&& final(ds)@ == old(ds)@ + ((if found {
                    Seq::<Diagnostic>::empty()
                } else {
                    seq![Diagnostic::UnterminatedSpan]
                }) + sub.diags)
                &&& final(self).limit == old(self).limit
                &&& final(self).diags@ == old(self).diags@
            }),
        decreases depth, 0int,
    {
        let ghost tv0 = self.tokens@;
        let ghost body = toks_model(self.tokens@);
        let ghost nv0 = nodes@;
        let ghost ds0 = ds@;
        let n1 = self.scan_toggle(&t);
        let collected = self.take_n(n1);
        proof {
            lemma_toks_model_take(tv0, n1 as int);
            lemma_toks_model_skip(tv0, n1 as int);
        }
        let found = self.tokens.len() > 0;
        if found {
            let ghost tv2 = self.tokens@;
            let _closing = self.tokens.remove(0);
            proof {
                assert(tv2.remove(0) =~= tv2.skip(1));
                lemma_toks_model_skip(tv2, 1);
                lemma_skip_skip(body, n1 as int, 1);
            }
        } else {
            ds.push(Diagnostic::UnterminatedSpan);
        }
        let mut sub = Parser::sub_parser(collected);
        let children = sub.parse_at(false, true, depth - 1);
        ds.append(&mut sub.diags);
        nodes.push(toggle_wrap(&t, children));
        proof {
            let sub_out = parse_toks(body.take(n1 as int), false, true, (depth - 1) as nat);
            let span_diag: Seq<Diagnostic> = if n1 < body.len() {
                Seq::empty()
            } else {
                seq![Diagnostic::UnterminatedSpan]
            };
            lemma_nodes_model_push(nv0, nodes@.last());
            assert(ds@ =~= ds0 + (span_diag + sub_out.diags));
        }
    }

    /// Collects an environment's argument line and body, parses both, and
    /// wraps them in an `Env` node; a block whose name is not recognized is
    /// dropped whole. The `EnvBegin` token has already been taken off the
    /// stream; the body's closing `EnvEnd` is consumed, and a body that
    /// reaches the end of the stream is closed there with a diagnostic.
    fn handle_env(
        &mut self,
        nodes: &mut Vec<Node>,
        ds: &mut Vec<Diagnostic>,
        name: String,
        depth: usize,
    )
        requires
            depth >= 1,
        ensures
            ({
                let line = toks_model(old(self).tokens@);
                let j = newline_idx(line);
                let base: int = if j < line.len() {
                    1 + j
                } else {
                    j
                };
                let line_toks = line.take(j);
                let body = line.skip(base);
                let e = env_extent(body, 0);
                let matched = e < body.len();
                let env_d: Seq<Diagnostic> = if matched {
                    Seq::empty()
                } else {
                    seq![Diagnostic::UnmatchedEnvironment]
                };
                &&& toks_model(final(self).tokens@) == line.skip(
                    base + e + (if matched {
                        1int
                    } else {
                        0int
                    }),
                )
                &&& final(self).tokens@.len() <= old(self).tokens@.len()
                &&& (match env_type_of(name@) {
                    Option::Some(env) => {
                        let argp = if line_toks.len() > 0 {
                            Option::Some(parse_toks(line_toks, false, true, (depth - 1) as nat))
                        } else {
                            Option::None
                        };
                        let arg_nodes = match argp {
                            Option::Some(a) => Option::Some(a.nodes),
                            Option::None => Option::None,
                        };
                        let arg_diags = match argp {
                            Option::Some(a) => a.diags,
                            Option::None => Seq::empty(),
                        };
                        let sub = parse_toks(body.take(e), false, false, (depth - 1) as nat);
                        &&& nodes_model(final(nodes)@) == nodes_model(old(nodes)@) + seq![
                            NodeModel::Env {
                                environment_type: env,
                                environment_arg: arg_nodes,
                                children: sub.nodes,
                            },
                        ]
                        &&& final(ds)@ == old(ds)@ + ((arg_diags + env_d) + sub.diags)
                    },
                    Option::None => {
                        &&& nodes_model(final(nodes)@) == nodes_model(old(nodes)@)
                        &&& final(ds)@ == old(ds)@ + env_d
                    },
                })
                &&& final(self).limit == old(self).limit
                &&& final(self).diags@ == old(self).diags@
            }),
        decreases depth, 0int,
    {
        let ghost tv0 = self.tokens@;
        let ghost line0 = toks_model(self.tokens@);
        let ghost nv0 = nodes@;
        let ghost ds0 = ds@;
        let n1 = self.scan_newline_from(0);
        let line = self.take_n(n1);
        proof {
            lemma_toks_model_take(tv0, n1 as int);
            lemma_toks_model_skip(tv0, n1 as int);
        }
        let newline_found = self.tokens.len() > 0;
        if newline_found {
            let ghost tv2 = self.tokens@;
            let _nl = self.tokens.remove(0);
            proof {
                assert(tv2.remove(0) =~= tv2.skip(1));
                lemma_toks_model_skip(tv2, 1);
                lemma_skip_skip(line0, n1 as int, 1);
            }
        }
        let ghost base: int = if newline_found {
            1 + n1
        } else {
            n1 as int
        };
        let ghost tvb = self.tokens@;
        let ghost curb = toks_model(self.tokens@);
        proof {
            assert(curb =~= line0.skip(base));
        }
        let et = env_type_of_name(&name);
        match et {
            Option::Some(env) => {
                let has_arg = line.len() > 0;
                let arg: Option<Vec<Node>> = if has_arg {
                    let mut asub = Parser::sub_parser(line);
                    let argnodes = asub.parse_at(false, true, depth - 1);
                    ds.append(&mut asub.diags);
                    Option::Some(argnodes)
                } else {
                    Option::None
                };
                let scan = self.scan_env_body();
                let blen = scan.0;
                let matched = scan.1;
                let body = self.take_n(blen);
                proof {
                    lemma_toks_model_take(tvb, blen as int);
                    lemma_toks_model_skip(tvb, blen as int);
                }
                if matched {
                    let ghost tv3 = self.tokens@;
                    let _end = self.tokens.remove(0);
                    proof {
                        assert(tv3.remove(0) =~= tv3.skip(1));
                        lemma_toks_model_skip(tv3, 1);
                        lemma_skip_skip(curb, env_extent(curb, 0), 1);
                        lemma_skip_skip(line0, base, env_extent(curb, 0) + 1);
                    }
                } else {
                    ds.push(Diagnostic::UnmatchedEnvironment);
                    proof {
                        lemma_skip_skip(line0, base, env_extent(curb, 0));
                    }
                }
                let mut bsub = Parser::sub_parser(body);
                let children = bsub.parse_at(false, false, depth - 1);
                ds.append(&mut bsub.diags);
                nodes.push(Node::Env { environment_type: env, environment_arg: arg, children });
                proof {
                    let e = env_extent(curb, 0);
                    let arg_diags: Seq<Diagnostic> = if line0.take(n1 as int).len() > 0 {
                        parse_toks(line0.take(n1 as int), false, true, (depth - 1) as nat).diags
                    } else {
                        Seq::empty()
                    };
                    let env_d: Seq<Diagnostic> = if e < curb.len() {
                        Seq::empty()
                    } else {
                        seq![Diagnostic::UnmatchedEnvironment]
                    };
                    let sub_out = parse_toks(curb.take(e), false, false, (depth - 1) as nat);
                    lemma_nodes_model_push(nv0, nodes@.last());
                    assert(ds@ =~= ds0 + ((arg_diags + env_d) + sub_out.diags));
                }
            },
            Option::None => {
                let scan = self.scan_env_body();
                let blen = scan.0;
                let matched = scan.1;
                let _body = self.take_n(blen);
                proof {
                    lemma_toks_model_skip(tvb, blen as int);
                }
                if matched {
                    let ghost tv3 = self.tokens@;
                    let _end = self.tokens.remove(0);
                    proof {
                        assert(tv3.remove(0) =~= tv3.skip(1));
                        lemma_toks_model_skip(tv3, 1);
                        lemma_skip_skip(curb, env_extent(curb, 0), 1);
                        lemma_skip_skip(line0, base, env_extent(curb, 0) + 1);
                    }
                } else {
                    ds.push(Diagnostic::UnmatchedEnvironment);
                    proof {
                        lemma_skip_skip(line0, base, env_extent(curb, 0));
                    }
                }
                proof {
                    let e = env_extent(curb, 0);
                    let env_d: Seq<Diagnostic> = if e < curb.len() {
                        Seq::empty()
                    } else {
                        seq![Diagnostic::UnmatchedEnvironment]
                    };
                    assert(ds@ =~= ds0 + env_d);
                }
            },
        }
    }

    /// Parses the whole remaining token stream into a document forest,
    /// appending any diagnostics to the parser's error channel. `in_list`
    /// and `inline` select the grammar context; `depth` bounds construct
    /// nesting, each nested construct spending one level.
    #[verifier::rlimit(100)]
    fn parse_at(&mut self, in_list: bool, inline: bool, depth: usize) -> (nodes: Vec<Node>)
        ensures
            final(self).limit == old(self).limit,
            nodes_model(nodes@) == parse_toks(
                toks_model(old(self).tokens@),
                in_list,
                inline,
                depth as nat,
            ).nodes,
            final(self).diags@ == old(self).diags@ + parse_toks(
                toks_model(old(self).tokens@),
                in_list,
                inline,
                depth as nat,
            ).diags,
        decreases depth, 1int,
    {
        let ghost m0 = toks_model(self.tokens@);
        let ghost d = depth as nat;
        let ghost total = parse_toks(m0, in_list, inline, d);
        let ghost d0 = self.diags@;
        let ghost l0 = self.limit;
        let mut nodes: Vec<Node> = Vec::new();
        let mut ds: Vec<Diagnostic> = Vec::new();
        if depth == 0 {
            if self.tokens.len() > 0 {
                self.diags.push(Diagnostic::RecursionLimitExceeded);
                proof {
                    assert(nodes_model(nodes@) =~= total.nodes);
                    assert(self.diags@ =~= d0 + total.diags);
                }
            } else {
                proof {
                    assert(nodes_model(nodes@) =~= total.nodes);
                    assert(self.diags@ =~= d0 + total.diags);
                }
            }
            return nodes;
        }
        let mut pending: bool = false;
        proof {
            assert(nodes_model(nodes@) =~= Seq::<NodeModel>::empty());
            assert(ds@ =~= Seq::<Diagnostic>::empty());
            lemma_empty_concat(total.nodes);
            lemma_empty_concat(total.diags);
        }
        while self.tokens.len() > 0
            invariant
                depth >= 1,
                d == depth as nat,
                self.limit == l0,
                self.diags@ == d0,
                total.nodes == nodes_model(nodes@) + (if pending {
                    parse_boundary(toks_model(self.tokens@), in_list, inline, d)
                } else {
                    parse_toks(toks_model(self.tokens@), in_list, inline, d)
                }).nodes,
                total.diags == ds@ + (if pending {
                    parse_boundary(toks_model(self.tokens@), in_list, inline, d)
                } else {
                    parse_toks(toks_model(self.tokens@), in_list, inline, d)
                }).diags,
            decreases self.tokens@.len(), (if pending {
                1int
            } else {
                0int
            }),
        {
            let ghost cur0 = toks_model(self.tokens@);
            let ghost tv0 = self.tokens@;
            let ghost nv0 = nodes@;
            let ghost nm0 = nodes_model(nodes@);
            let ghost ds0 = ds@;
            if pending {
                pending = false;
                self.handle_paragraph(&mut nodes, &mut ds, depth);
                proof {
                    let k = para_extent(cur0);
                    let rest1 = parse_toks(toks_model(self.tokens@), in_list, inline, d);
                    let sub_out = parse_toks(cur0.take(k), false, true, (d - 1) as nat);
                    if k > 0 {
                        lemma_concat_assoc(nm0, seq![NodeModel::Paragraph(sub_out.nodes)], rest1.nodes);
                        lemma_concat_assoc(ds0, sub_out.diags, rest1.diags);
                    } else {
                        lemma_concat_empty(nm0);
                        lemma_concat_empty(ds0);
                    }
                }
            } else {
                let t = self.tokens.remove(0);
                proof {
                    assert(tv0.remove(0) =~= tv0.skip(1));
                    lemma_toks_model_skip(tv0, 1);
                    assert(cur0.drop_first() =~= cur0.skip(1));
                }
                match t {
                    Token::ListItem(lvl) => {
                        if !in_list {
                            self.handle_list(&mut nodes, &mut ds, lvl, depth, Ghost(cur0));
                            pending = true;
                            proof {
                                let k = line_take(cur0);
                                lemma_line_take_bounds(cur0);
                                lemma_cont_extent_bounds(cur0.skip(k), lvl, false);
                                let total_ext = k + cont_extent(cur0.skip(k), lvl, false);
                                let rest1 = parse_boundary(toks_model(self.tokens@), in_list, inline, d);
                                let sub_out = parse_toks(cur0.take(total_ext), true, false, (d - 1) as nat);
                                lemma_concat_assoc(
                                    nm0,
                                    seq![
                                        NodeModel::List {
                                            list_type: ListType::Normal,
                                            children: sub_out.nodes,
                                        },
                                    ],
                                    rest1.nodes,
                                );
                                lemma_concat_assoc(ds0, sub_out.diags, rest1.diags);
                            }
                        } else {
                            self.handle_list_item(&mut nodes, &mut ds, lvl, depth, Ghost(cur0));
                            proof {
                                let body = cur0.skip(1);
                                let k = line_take(body);
                                let total_ext = k + cont_extent(body.skip(k), lvl, true);
                                let collected = body.take(total_ext);
                                let with_para = if 1 < cur0.len() && cur0[1] is Text {
                                    seq![TokenModel::NewLine, TokenModel::NewLine] + collected
                                } else {
                                    collected
                                };
                                let rest1 = parse_toks(toks_model(self.tokens@), in_list, inline, d);
                                let sub_out = parse_toks(with_para, false, false, (d - 1) as nat);
                                lemma_concat_assoc(
                                    nm0,
                                    seq![NodeModel::ListItem(sub_out.nodes)],
                                    rest1.nodes,
                                );
                                lemma_concat_assoc(ds0, sub_out.diags, rest1.diags);
                            }
                        }
                    },
                    Token::Header(level) => {
                        self.handle_header(&mut nodes, &mut ds, level, depth);
                        proof {
                            let body = cur0.skip(1);
                            let j = newline_idx(body);
                            let rest1 = parse_toks(toks_model(self.tokens@), in_list, inline, d);
                            let sub_out = parse_toks(body.take(j), false, true, (d - 1) as nat);
                            lemma_newline_idx_bounds(body);
                            lemma_skip_skip(cur0, 1, j);
                            lemma_concat_assoc(
                                nm0,
                                seq![NodeModel::Header { level, children: sub_out.nodes }],
                                rest1.nodes,
                            );
                            lemma_concat_assoc(ds0, sub_out.diags, rest1.diags);
                        }
                    },
                    Token::Bold | Token::Italic | Token::Striked | Token::Underline
                        | Token::Highlighted => {
                        let ghost tm = t.model();
                        self.handle_toggle(&mut nodes, &mut ds, t, depth);
                        proof {
                            let body = cur0.skip(1);
                            let j = toggle_idx(body, tm);
                            let found = j < body.len();
                            let rest1 = parse_toks(toks_model(self.tokens@), in_list, inline, d);
                            let sub_out = parse_toks(body.take(j), false, true, (d - 1) as nat);
                            let span_diag: Seq<Diagnostic> = if found {
                                Seq::empty()
                            } else {
                                seq![Diagnostic::UnterminatedSpan]
                            };
                            lemma_toggle_idx_bounds(body, tm);
                            lemma_skip_skip(cur0, 1, if found {
                                j + 1
                            } else {
                                j
                            });
                            lemma_concat_assoc(nm0, seq![toggle_node(tm, sub_out.nodes)], rest1.nodes);
                            lemma_concat_assoc(ds0, span_diag + sub_out.diags, rest1.diags);
                        }
                    },
                    Token::EnvBegin(name) => {
                        let ghost ename = name@;
                        self.handle_env(&mut nodes, &mut ds, name, depth);
                        proof {
                            let line = cur0.skip(1);
                            let j = newline_idx(line);
                            let ibase: int = if j < line.len() {
                                1 + j
                            } else {
                                j
                            };
                            let body = line.skip(ibase);
                            let e = env_extent(body, 0);
                            let matched = e < body.len();
                            let env_d: Seq<Diagnostic> = if matched {
                                Seq::empty()
                            } else {
                                seq![Diagnostic::UnmatchedEnvironment]
                            };
                            let rest1 = parse_toks(toks_model(self.tokens@), in_list, inline, d);
                            lemma_newline_idx_bounds(line);
                            lemma_env_extent_bounds(body, 0);
                            lemma_skip_skip(cur0, 1, ibase);
                            lemma_skip_skip(cur0, 1, ibase + e + (if matched {
                                1int
                            } else {
                                0int
                            }));
                            match env_type_of(ename) {
                                Option::Some(env) => {
                                    let argp = if line.take(j).len() > 0 {
                                        Option::Some(parse_toks(line.take(j), false, true, (d - 1) as nat))
                                    } else {
                                        Option::None
                                    };
                                    let arg_nodes = match argp {
                                        Option::Some(a) => Option::Some(a.nodes),
                                        Option::None => Option::None,
                                    };
                                    let arg_diags = match argp {
                                        Option::Some(a) => a.diags,
                                        Option::None => Seq::<Diagnostic>::empty(),
                                    };
                                    let sub_out = parse_toks(body.take(e), false, false, (d - 1) as nat);
                                    lemma_concat_assoc(
                                        nm0,
                                        seq![
                                            NodeModel::Env {
                                                environment_type: env,
                                                environment_arg: arg_nodes,
                                                children: sub_out.nodes,
                                            },
                                        ],
                                        rest1.nodes,
                                    );
                                    lemma_concat_assoc(ds0, (arg_diags + env_d) + sub_out.diags, rest1.diags);
                                },
                                Option::None => {
                                    lemma_concat_assoc(ds0, env_d, rest1.diags);
                                },
                            }
                        }
                    },
                    Token::NewLine => {
                        let second = self.tokens.len() > 0 && matches!(&self.tokens[0], Token::NewLine);
                        if second {
                            let ghost tv2 = self.tokens@;
                            let _nl = self.tokens.remove(0);
                            pending = true;
                            proof {
                                assert(tv2.remove(0) =~= tv2.skip(1));
                                lemma_toks_model_skip(tv2, 1);
                                lemma_skip_skip(cur0, 1, 1);
                            }
                        } else {
                            let leaf = if inline {
                                Node::Text(String::from_str(" "))
                            } else {
                                Node::NewLine
                            };
                            nodes.push(leaf);
                            proof {
                                assert(cur0[0] == t.model());
                                reveal_strlit(" ");
                                assert(" "@ =~= seq![' ']);
                                let rest1 = parse_toks(toks_model(self.tokens@), in_list, inline, d);
                                lemma_nodes_model_push(nv0, nodes@.last());
                                lemma_concat_assoc(nm0, seq![nodes@.last().model()], rest1.nodes);
                            }
                        }
                    },
                    Token::Text(txt) => {
                        nodes.push(Node::Text(txt));
                        proof {
                            assert(cur0[0] == t.model());
                            assert(parse_toks(cur0, in_list, inline, d) == leaf_step(
                                nodes@.last().model(),
                                cur0,
                                in_list,
                                inline,
                                d,
                            ));
                            let rest1 = parse_toks(toks_model(self.tokens@), in_list, inline, d);
                            lemma_nodes_model_push(nv0, nodes@.last());
                            lemma_concat_assoc(nm0, seq![nodes@.last().model()], rest1.nodes);
                        }
                    },
                    Token::InlineMath(m) => {
                        nodes.push(Node::InlineMath(m));
                        proof {
                            assert(cur0[0] == t.model());
                            assert(parse_toks(cur0, in_list, inline, d) == leaf_step(
                                nodes@.last().model(),
                                cur0,
                                in_list,
                                inline,
                                d,
                            ));
                            let rest1 = parse_toks(toks_model(self.tokens@), in_list, inline, d);
                            lemma_nodes_model_push(nv0, nodes@.last());
                            lemma_concat_assoc(nm0, seq![nodes@.last().model()], rest1.nodes);
                        }
                    },
                    Token::DisplayMath(m) => {
                        nodes.push(Node::DisplayMath(m));
                        proof {
                            assert(cur0[0] == t.model());
                            assert(parse_toks(cur0, in_list, inline, d) == leaf_step(
                                nodes@.last().model(),
                                cur0,
                                in_list,
                                inline,
                                d,
                            ));
                            let rest1 = parse_toks(toks_model(self.tokens@), in_list, inline, d);
                            lemma_nodes_model_push(nv0, nodes@.last());
                            lemma_concat_assoc(nm0, seq![nodes@.last().model()], rest1.nodes);
                        }
                    },
                    Token::InlineCode(cd) => {
                        nodes.push(Node::InlineCode(cd));
                        proof {
                            assert(cur0[0] == t.model());
                            assert(parse_toks(cur0, in_list, inline, d) == leaf_step(
                                nodes@.last().model(),
                                cur0,
                                in_list,
                                inline,
                                d,
                            ));
                            let rest1 = parse_toks(toks_model(self.tokens@), in_list, inline, d);
                            lemma_nodes_model_push(nv0, nodes@.last());
                            lemma_concat_assoc(nm0, seq![nodes@.last().model()], rest1.nodes);
                        }
                    },
                    Token::CodeBlock(cd) => {
                        nodes.push(Node::CodeBlock { language: Option::None, code: cd });
                        proof {
                            assert(cur0[0] == t.model());
                            assert(parse_toks(cur0, in_list, inline, d) == leaf_step(
                                nodes@.last().model(),
                                cur0,
                                in_list,
                                inline,
                                d,
                            ));
                            let rest1 = parse_toks(toks_model(self.tokens@), in_list, inline, d);
                            lemma_nodes_model_push(nv0, nodes@.last());
                            lemma_concat_assoc(nm0, seq![nodes@.last().model()], rest1.nodes);
                        }
                    },
                    Token::Hr(style) => {
                        nodes.push(Node::Hr(style));
                        proof {
                            assert(cur0[0] == t.model());
                            assert(parse_toks(cur0, in_list, inline, d) == leaf_step(
                                nodes@.last().model(),
                                cur0,
                                in_list,
                                inline,
                                d,
                            ));
                            let rest1 = parse_toks(toks_model(self.tokens@), in_list, inline, d);
                            lemma_nodes_model_push(nv0, nodes@.last());
                            lemma_concat_assoc(nm0, seq![nodes@.last().model()], rest1.nodes);
                        }
                    },
                    Token::NBSP => {
                        nodes.push(Node::NBSP);
                        proof {
                            assert(cur0[0] == t.model());
                            assert(parse_toks(cur0, in_list, inline, d) == leaf_step(
                                nodes@.last().model(),
                                cur0,
                                in_list,
                                inline,
                                d,
                            ));
                            let rest1 = parse_toks(toks_model(self.tokens@), in_list, inline, d);
                            lemma_nodes_model_push(nv0, nodes@.last());
                            lemma_concat_assoc(nm0, seq![nodes@.last().model()], rest1.nodes);
                        }
                    },
                    Token::Indent(_) => {
                        // Lookahead context for the list rules only; parses
                        // to nothing.
                        proof {
                            assert(cur0[0] == t.model());
                            assert(cur0[0] is Indent);
                            assert(parse_toks(cur0, in_list, inline, d) == parse_skip(cur0, in_list, inline, d));
                            assert(parse_skip(cur0, in_list, inline, d) == parse_toks(cur0.skip(1), in_list, inline, d));
                        }
                    },
                    Token::LinkStart => {
                        // Reserved: the lexer never emits it; parses to
                        // nothing.
                        proof {
                            assert(cur0[0] == t.model());
                            assert(cur0[0] is LinkStart);
                            assert(parse_toks(cur0, in_list, inline, d) == parse_skip(cur0, in_list, inline, d));
                            assert(parse_skip(cur0, in_list, inline, d) == parse_toks(cur0.skip(1), in_list, inline, d));
                        }
                    },
                    Token::LinkEnd => {
                        // Reserved: the lexer never emits it; parses to
                        // nothing.
                        proof {
                            assert(cur0[0] == t.model());
                            assert(cur0[0] is LinkEnd);
                            assert(parse_toks(cur0, in_list, inline, d) == parse_skip(cur0, in_list, inline, d));
                            assert(parse_skip(cur0, in_list, inline, d) == parse_toks(cur0.skip(1), in_list, inline, d));
                        }
                    },
                    Token::EnvEnd => {
                        // A stray environment end with no open environment;
                        // parses to nothing.
                        proof {
                            assert(cur0[0] == t.model());
                            assert(cur0[0] is EnvEnd);
                            assert(parse_toks(cur0, in_list, inline, d) == parse_skip(cur0, in_list, inline, d));
                            assert(parse_skip(cur0, in_list, inline, d) == parse_toks(cur0.skip(1), in_list, inline, d));
                        }
                    },
                }
            }
        }
        proof {
            assert(toks_model(self.tokens@) =~= Seq::<TokenModel>::empty());
            if pending {
                assert(Seq::<TokenModel>::empty().skip(0) =~= Seq::<TokenModel>::empty());
            }
            lemma_concat_empty(nodes_model(nodes@));
            lemma_concat_empty(ds@);
        }
        self.diags.append(&mut ds);
        nodes
    }

    /// Parses the whole remaining token stream into a document forest:
    /// exactly the forest that the grammar rules give for it, in the
    /// requested list context, with this parser's nesting bound.
    /// Diagnostics join the parser's error channel.
    pub fn parse(&mut self, parsing_list: bool) -> (nodes: Vec<Node>)
        ensures
            nodes_model(nodes@) == parse_toks(
                old(self).toks(),
                parsing_list,
                false,
                old(self).depth_limit(),
            ).nodes,
            final(self).diagnostics() == old(self).diagnostics() + parse_toks(
                old(self).toks(),
                parsing_list,
                false,
                old(self).depth_limit(),
            ).diags,
            final(self).depth_limit() == old(self).depth_limit(),
    {
        let depth = self.limit;
        self.parse_at(parsing_list, false, depth)
    }


    /// How many tokens the continuation lines of the current list item
    /// occupy.
    fn scan_cont(&self, lvl: u8, strict: bool) -> (n: usize)
        ensures
            n == cont_extent(self.toks(), lvl, strict),
            n <= self.tokens@.len(),
    {
        let ghost m = self.toks();
        proof {
            assert(m.skip(0) =~= m);
        }
        let mut j: usize = 0;
        while j < self.tokens.len() && is_cont_head(&self.tokens[j], lvl, strict)
            invariant
                j <= self.tokens@.len(),
                m == self.toks(),
                cont_extent(m, lvl, strict) == j + cont_extent(m.skip(j as int), lvl, strict),
            decreases self.tokens@.len() - j,
        {
            let l = self.scan_line_from(j);
            proof {
                lemma_line_take_bounds(m.skip(j as int));
                lemma_skip_skip(m, j as int, l as int);
            }
            j = j + l;
        }
        j
    }
}

} // verus!
