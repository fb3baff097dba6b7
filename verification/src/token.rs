//! Tokens produced by the lexer, their spec-level model, and the
//! diagnostics that both stages report through their error channel.

use vstd::prelude::*;

verus! {

/// The style of a horizontal rule, taken from which marker character was
/// repeated three times at the start of a line.
#[derive(Debug, PartialEq, Eq, Clone, Copy)]
pub enum HrStyle {
    Normal,
    Dotted,
    Dashed,
    Sawtooth,
}

/// A lexical token. The emphasis variants (`Bold`, `Italic`, `Striked`,
/// `Underline`, `Highlighted`) are toggles: the same variant marks both the
/// opening and the closing boundary of a span. `Header` carries a 1-based
/// level; `ListItem` and `Indent` carry an indentation measure in spaces.
/// `LinkStart` and `LinkEnd` are reserved variants that the lexer never
/// emits today.
#[derive(Debug, PartialEq, Eq, Clone)]
pub enum Token {
    Header(u8),
    Bold,
    Italic,
    Striked,
    Underline,
    Highlighted,
    LinkStart,
    LinkEnd,
    Text(String),
    ListItem(u8),
    Indent(u8),
    InlineCode(String),
    CodeBlock(String),
    InlineMath(String),
    DisplayMath(String),
    EnvBegin(String),
    EnvEnd,
    NewLine,
    Hr(HrStyle),
    NBSP,
}

/// A non-fatal condition found while lexing or parsing. Both stages recover
/// from every one of these and keep going; the diagnostics are collected for
/// the caller instead of aborting the run.
#[derive(Debug, PartialEq, Eq, Clone, Copy)]
pub enum Diagnostic {
    /// A scan for a closing delimiter (`$`, backtick, code fence, `\]`, or
    /// an environment name's separator) reached the end of the input.
    UnterminatedDelimiter,
    /// A toggle token had no matching closing occurrence; the span was
    /// closed implicitly at the end of the input.
    UnterminatedSpan,
    /// An environment begin had no matching end at its nesting depth; the
    /// environment was closed implicitly at the end of the input.
    UnmatchedEnvironment,
    /// Parsing nesting depth reached the configured bound; the subtree at
    /// the bound was dropped.
    RecursionLimitExceeded,
}

/// The spec-level image of a `Token`: string payloads become character
/// sequences, so contracts can speak about token contents directly.
pub enum TokenModel {
    Header(u8),
    Bold,
    Italic,
    Striked,
    Underline,
    Highlighted,
    LinkStart,
    LinkEnd,
    Text(Seq<char>),
    ListItem(u8),
    Indent(u8),
    InlineCode(Seq<char>),
    CodeBlock(Seq<char>),
    InlineMath(Seq<char>),
    DisplayMath(Seq<char>),
    EnvBegin(Seq<char>),
    EnvEnd,
    NewLine,
    Hr(HrStyle),
    NBSP,
}

impl Token {
    /// The model of one token.
    pub open spec fn model(&self) -> TokenModel {
        match self {
            Token::Header(level) => TokenModel::Header(*level),
            Token::Bold => TokenModel::Bold,
            Token::Italic => TokenModel::Italic,
            Token::Striked => TokenModel::Striked,
            Token::Underline => TokenModel::Underline,
            Token::Highlighted => TokenModel::Highlighted,
            Token::LinkStart => TokenModel::LinkStart,
            Token::LinkEnd => TokenModel::LinkEnd,
            Token::Text(s) => TokenModel::Text(s@),
            Token::ListItem(level) => TokenModel::ListItem(*level),
            Token::Indent(level) => TokenModel::Indent(*level),
            Token::InlineCode(s) => TokenModel::InlineCode(s@),
            Token::CodeBlock(s) => TokenModel::CodeBlock(s@),
            Token::InlineMath(s) => TokenModel::InlineMath(s@),
            Token::DisplayMath(s) => TokenModel::DisplayMath(s@),
            Token::EnvBegin(s) => TokenModel::EnvBegin(s@),
            Token::EnvEnd => TokenModel::EnvEnd,
            Token::NewLine => TokenModel::NewLine,
            Token::Hr(style) => TokenModel::Hr(*style),
            Token::NBSP => TokenModel::NBSP,
        }
    }
}

/// The model of a token sequence, element by element.
pub open spec fn toks_model(ts: Seq<Token>) -> Seq<TokenModel> {
    ts.map_values(|t: Token| t.model())
}

/// Pushing one token extends the model of the token list by that token's
/// model.
pub proof fn lemma_toks_model_push(ts: Seq<Token>, t: Token)
    ensures
        toks_model(ts.push(t)) == toks_model(ts) + seq![t.model()],
{
    assert(toks_model(ts.push(t)) =~= toks_model(ts) + seq![t.model()]);
}

/// Modelling commutes with taking a prefix.
pub proof fn lemma_toks_model_take(ts: Seq<Token>, n: int)
    requires
        0 <= n <= ts.len(),
    ensures
        toks_model(ts.take(n)) == toks_model(ts).take(n),
{
    assert(toks_model(ts.take(n)) =~= toks_model(ts).take(n));
}

/// Modelling commutes with dropping a prefix.
pub proof fn lemma_toks_model_skip(ts: Seq<Token>, n: int)
    requires
        0 <= n <= ts.len(),
    ensures
        toks_model(ts.skip(n)) == toks_model(ts).skip(n),
{
    assert(toks_model(ts.skip(n)) =~= toks_model(ts).skip(n));
}

/// An empty prefix changes nothing.
pub proof fn lemma_empty_concat<A>(x: Seq<A>)
    ensures
        Seq::<A>::empty() + x == x,
{
    assert(Seq::<A>::empty() + x =~= x);
}

/// An empty suffix changes nothing.
pub proof fn lemma_concat_empty<A>(x: Seq<A>)
    ensures
        x + Seq::<A>::empty() == x,
{
    assert(x + Seq::<A>::empty() =~= x);
}

/// Concatenation is associative.
pub proof fn lemma_concat_assoc<A>(a: Seq<A>, b: Seq<A>, c: Seq<A>)
    ensures
        a + (b + c) == (a + b) + c,
{
    assert(a + (b + c) =~= (a + b) + c);
}

/// Re-associates one step of a stage: the finished prefix `t0` absorbs the
/// step's own output `a` and `m`, leaving the remainder `r` pending.
pub proof fn lemma_step_shift<A>(t0: Seq<A>, a: Seq<A>, m: Seq<A>, r: Seq<A>)
    ensures
        t0 + ((a + m) + r) == ((t0 + a) + m) + r,
{
    assert(t0 + ((a + m) + r) =~= ((t0 + a) + m) + r);
}

/// Skipping twice skips the sum.
pub proof fn lemma_skip_skip<A>(s: Seq<A>, a: int, b: int)
    requires
        0 <= a,
        0 <= b,
        a + b <= s.len(),
    ensures
        s.skip(a).skip(b) == s.skip(a + b),
{
    assert(s.skip(a).skip(b) =~= s.skip(a + b));
}

} // verus!
