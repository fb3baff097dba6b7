//! The executable lexer: a single forward pass over the source text with a
//! one-position cursor, verified to produce exactly the token stream that
//! the lexical rules in `lex_rules` define.

use vstd::prelude::*;
use vstd::string::*;

use crate::lex_rules::{
    flush, lemma_run_end_bounds, lemma_scan_to_pair_bounds, lemma_scan_to_triple_bounds, lex_from,
    run_end, sat_u8, scan_to, scan_to_either, scan_to_pair, scan_to_triple,
};
use crate::token::{
    lemma_concat_assoc, lemma_concat_empty, lemma_empty_concat, lemma_step_shift,
    lemma_toks_model_push, toks_model, Diagnostic, HrStyle, Token, TokenModel,
};

verus! {

/// Appends the pending literal text `input[text_start..upto]`, if any, as a
/// `Text` token: the executable form of `flush`.
fn flush_text(input: &str, text_start: usize, upto: usize, tokens: &mut Vec<Token>)
    requires
        text_start <= upto <= input@.len(),
    ensures
        toks_model(final(tokens)@) == toks_model(old(tokens)@) + flush(
            input@.subrange(text_start as int, upto as int),
        ),
{
    if text_start < upto {
        let piece = input.substring_char(text_start, upto);
        let owned = String::from_str(piece);
        tokens.push(Token::Text(owned));
        proof {
            lemma_toks_model_push(old(tokens)@, Token::Text(owned));
        }
    } else {
        proof {
            assert(toks_model(tokens@) =~= toks_model(tokens@) + flush(
                input@.subrange(text_start as int, upto as int),
            ));
        }
    }
}

/// Clips a count to the `u8` range, saturating at 255.
fn clamp_u8(n: usize) -> (r: u8)
    ensures
        r == sat_u8(n as int),
{
    if n > 255 {
        255
    } else {
        n as u8
    }
}

/// The lexer: the source text, a cursor over its characters, and the
/// diagnostics collected so far.
pub struct Lexer<'a> {
    input: &'a str,
    pos: usize,
    len: usize,
    diags: Vec<Diagnostic>,
}

impl<'a> Lexer<'a> {
    /// The cursor stays inside the input, whose character count is cached
    /// in `len`.
    pub closed spec fn wf(&self) -> bool {
        self.len == self.input@.len() && self.pos <= self.len
    }

    /// The source text seen by this lexer.
    pub closed spec fn src(&self) -> Seq<char> {
        self.input@
    }

    /// The position of the cursor, counted in characters.
    pub closed spec fn cursor(&self) -> int {
        self.pos as int
    }

    /// The diagnostics collected so far.
    pub closed spec fn diagnostics(&self) -> Seq<Diagnostic> {
        self.diags@
    }

    /// A fresh lexer at the start of `input`.
    pub fn new(input: &'a str) -> (r: Self)
        ensures
            r.wf(),
            r.src() == input@,
            r.cursor() == 0,
            r.diagnostics() == Seq::<Diagnostic>::empty(),
    {
        let len = input.unicode_len();
        let r = Lexer { input, pos: 0, len, diags: Vec::new() };
        proof {
            assert(r.diags@ =~= Seq::<Diagnostic>::empty());
        }
        r
    }

    /// The collected diagnostics, for the caller's error channel.
    pub fn take_diagnostics(&mut self) -> (r: Vec<Diagnostic>)
        ensures
            r@ == old(self).diagnostics(),
            final(self).diagnostics() == Seq::<Diagnostic>::empty(),
            final(self).wf() == old(self).wf(),
            final(self).src() == old(self).src(),
    {
        let mut out: Vec<Diagnostic> = Vec::new();
        core::mem::swap(&mut out, &mut self.diags);
        proof {
            assert(final(self).diags@ =~= Seq::<Diagnostic>::empty());
        }
        out
    }

    /// Lexes the rest of the input into a flat token stream: exactly the
    /// stream that the lexical rules give for the input from the cursor on,
    /// at a line start. Non-fatal conditions (unterminated delimiters) are
    /// appended to the lexer's diagnostics instead of stopping the run.
    #[verifier::rlimit(100)]
    pub fn tokenize(&mut self) -> (tokens: Vec<Token>)
        requires
            old(self).wf(),
        ensures
            final(self).wf(),
            final(self).src() == old(self).src(),
            toks_model(tokens@) == lex_from(
                old(self).src(),
                old(self).cursor(),
                true,
                Seq::empty(),
            ).toks,
            final(self).diagnostics() == old(self).diagnostics() + lex_from(
                old(self).src(),
                old(self).cursor(),
                true,
                Seq::empty(),
            ).diags,
    {
        let ghost s = self.input@;
        let ghost d0 = self.diags@;
        let ghost out = lex_from(s, self.pos as int, true, Seq::<char>::empty());
        let mut tokens: Vec<Token> = Vec::new();
        let mut ds: Vec<Diagnostic> = Vec::new();
        let mut text_start: usize = self.pos;
        let mut line_begins: bool = true;
        proof {
            assert(s.subrange(text_start as int, self.pos as int) =~= Seq::<char>::empty());
            assert(toks_model(tokens@) =~= Seq::<TokenModel>::empty());
            lemma_empty_concat(out.toks);
            lemma_empty_concat(out.diags);
            assert(ds@ =~= Seq::<Diagnostic>::empty());
        }
        while self.pos < self.len
            invariant
                self.wf(),
                self.input@ == s,
                self.len == s.len(),
                self.diags@ == d0,
                text_start <= self.pos,
                line_begins ==> text_start == self.pos,
                out.toks == toks_model(tokens@) + lex_from(
                    s,
                    self.pos as int,
                    line_begins,
                    s.subrange(text_start as int, self.pos as int),
                ).toks,
                out.diags == ds@ + lex_from(
                    s,
                    self.pos as int,
                    line_begins,
                    s.subrange(text_start as int, self.pos as int),
                ).diags,
            decreases self.len - self.pos,
        {
            let ghost acc = s.subrange(text_start as int, self.pos as int);
            let ghost tm0 = toks_model(tokens@);
            let ghost ds0 = ds@;
            let c = self.input.get_char(self.pos);
            if c == ' ' && line_begins {
                let j = self.find_run_end(self.pos, ' ');
                proof {
                    lemma_run_end_bounds(s, self.pos + 1, ' ');
                    assert(run_end(s, self.pos as int, ' ') == run_end(s, self.pos + 1, ' '));
                }
                let indent = clamp_u8(j - self.pos);
                if self.len - j > 1 && self.input.get_char(j) == '-' && self.input.get_char(
                    j + 1,
                ) == ' ' {
                    self.emit(&mut tokens, text_start, Token::ListItem(indent), j + 2);
                } else {
                    self.emit(&mut tokens, text_start, Token::Indent(indent), j);
                }
                text_start = self.pos;
                line_begins = false;
                proof {
                    let rest1 = lex_from(s, self.pos as int, false, Seq::<char>::empty());
                    let m = toks_model(tokens@).last();
                    lemma_step_shift(tm0, flush(acc), seq![m], rest1.toks);
                    lemma_empty_concat(rest1.diags);
                    assert(s.subrange(self.pos as int, self.pos as int) =~= Seq::<char>::empty());
                }
            } else if c == '-' && line_begins && self.len - self.pos > 1 && self.input.get_char(
                self.pos + 1,
            ) == ' ' {
                self.emit(&mut tokens, text_start, Token::ListItem(0), self.pos + 2);
                text_start = self.pos;
                line_begins = false;
                proof {
                    let rest1 = lex_from(s, self.pos as int, false, Seq::<char>::empty());
                    lemma_step_shift(tm0, flush(acc), seq![TokenModel::ListItem(0)], rest1.toks);
                    lemma_empty_concat(rest1.diags);
                    assert(s.subrange(self.pos as int, self.pos as int) =~= Seq::<char>::empty());
                }
            } else if line_begins && (c == '=' || c == '-' || c == '.' || c == '^') && self.len
                - self.pos > 2 && self.input.get_char(self.pos + 1) == c && self.input.get_char(
                self.pos + 2,
            ) == c {
                let style = if c == '=' {
                    HrStyle::Normal
                } else if c == '-' {
                    HrStyle::Dashed
                } else if c == '.' {
                    HrStyle::Dotted
                } else {
                    HrStyle::Sawtooth
                };
                self.emit(&mut tokens, text_start, Token::Hr(style), self.pos + 3);
                text_start = self.pos;
                line_begins = false;
                proof {
                    let rest1 = lex_from(s, self.pos as int, false, Seq::<char>::empty());
                    lemma_step_shift(tm0, flush(acc), seq![TokenModel::Hr(style)], rest1.toks);
                    lemma_empty_concat(rest1.diags);
                    assert(s.subrange(self.pos as int, self.pos as int) =~= Seq::<char>::empty());
                }
            } else if c == '\n' {
                self.emit(&mut tokens, text_start, Token::NewLine, self.pos + 1);
                text_start = self.pos;
                line_begins = true;
                proof {
                    let rest1 = lex_from(s, self.pos as int, true, Seq::<char>::empty());
                    lemma_step_shift(tm0, flush(acc), seq![TokenModel::NewLine], rest1.toks);
                    lemma_empty_concat(rest1.diags);
                    assert(s.subrange(self.pos as int, self.pos as int) =~= Seq::<char>::empty());
                }
            } else if c == '#' && line_begins {
                let re = self.find_run_end(self.pos, '#');
                let d = re - self.pos;
                let level: u8 = if d >= 255 {
                    255
                } else {
                    (d + 1) as u8
                };
                proof {
                    assert(level == sat_u8(run_end(s, self.pos as int, '#') - self.pos + 1));
                }
                let j = self.find_char(self.pos, ' ');
                if j < self.len {
                    self.emit(&mut tokens, text_start, Token::Header(level), j + 1);
                    text_start = self.pos;
                    line_begins = false;
                    proof {
                        let rest1 = lex_from(s, self.pos as int, false, Seq::<char>::empty());
                        lemma_step_shift(tm0, flush(acc), seq![TokenModel::Header(level)], rest1.toks);
                        lemma_empty_concat(rest1.diags);
                        assert(s.subrange(self.pos as int, self.pos as int) =~= Seq::<char>::empty());
                    }
                } else {
                    self.emit(&mut tokens, text_start, Token::Header(level), self.len);
                    ds.push(Diagnostic::UnterminatedDelimiter);
                    text_start = self.pos;
                    line_begins = false;
                    proof {
                        lemma_concat_assoc(tm0, flush(acc), seq![toks_model(tokens@).last()]);
                        lemma_concat_empty(toks_model(tokens@));
                        lemma_concat_empty(ds@);
                        assert(ds@ =~= ds0 + seq![Diagnostic::UnterminatedDelimiter]);
                        assert(s.subrange(self.pos as int, self.pos as int)
                            =~= Seq::<char>::empty());
                    }
                }
            } else if c == '*' || c == '_' {
                if self.len - self.pos > 1 && self.input.get_char(self.pos + 1) == c {
                    self.emit(&mut tokens, text_start, Token::Bold, self.pos + 2);
                } else {
                    self.emit(&mut tokens, text_start, Token::Italic, self.pos + 1);
                }
                text_start = self.pos;
                line_begins = false;
                proof {
                    let rest1 = lex_from(s, self.pos as int, false, Seq::<char>::empty());
                    let m = toks_model(tokens@).last();
                    lemma_step_shift(tm0, flush(acc), seq![m], rest1.toks);
                    lemma_empty_concat(rest1.diags);
                    assert(s.subrange(self.pos as int, self.pos as int) =~= Seq::<char>::empty());
                }
            } else if c == '~' {
                if self.len - self.pos > 1 && self.input.get_char(self.pos + 1) == '~' {
                    self.emit(&mut tokens, text_start, Token::Striked, self.pos + 2);
                } else {
                    self.emit(&mut tokens, text_start, Token::NBSP, self.pos + 1);
                }
                text_start = self.pos;
                line_begins = false;
                proof {
                    let rest1 = lex_from(s, self.pos as int, false, Seq::<char>::empty());
                    let m = toks_model(tokens@).last();
                    lemma_step_shift(tm0, flush(acc), seq![m], rest1.toks);
                    lemma_empty_concat(rest1.diags);
                    assert(s.subrange(self.pos as int, self.pos as int) =~= Seq::<char>::empty());
                }
            } else if c == '.' {
                if self.len - self.pos > 1 && self.input.get_char(self.pos + 1) == '.' {
                    self.emit(&mut tokens, text_start, Token::Underline, self.pos + 2);
                    text_start = self.pos;
                    proof {
                        let rest1 = lex_from(s, self.pos as int, false, Seq::<char>::empty());
                        lemma_step_shift(tm0, flush(acc), seq![TokenModel::Underline], rest1.toks);
                        lemma_empty_concat(rest1.diags);
                        assert(s.subrange(self.pos as int, self.pos as int)
                            =~= Seq::<char>::empty());
                    }
                } else {
                    self.pos = self.pos + 1;
                    proof {
                        assert(s.subrange(text_start as int, self.pos as int) =~= acc.push(c));
                    }
                }
                line_begins = false;
            } else if c == '|' {
                if self.len - self.pos > 1 && self.input.get_char(self.pos + 1) == '|' {
                    self.emit(&mut tokens, text_start, Token::Highlighted, self.pos + 2);
                    text_start = self.pos;
                    proof {
                        let rest1 = lex_from(s, self.pos as int, false, Seq::<char>::empty());
                        lemma_step_shift(tm0, flush(acc), seq![TokenModel::Highlighted], rest1.toks);
                        lemma_empty_concat(rest1.diags);
                        assert(s.subrange(self.pos as int, self.pos as int)
                            =~= Seq::<char>::empty());
                    }
                } else {
                    self.pos = self.pos + 1;
                    proof {
                        assert(s.subrange(text_start as int, self.pos as int) =~= acc.push(c));
                    }
                }
                line_begins = false;
            } else if c == '$' {
                let j = self.find_char(self.pos + 1, '$');
                let piece = self.input.substring_char(self.pos + 1, j);
                let content = String::from_str(piece);
                if j < self.len {
                    self.emit(&mut tokens, text_start, Token::InlineMath(content), j + 1);
                    text_start = self.pos;
                    line_begins = false;
                    proof {
                        let rest1 = lex_from(s, self.pos as int, false, Seq::<char>::empty());
                        let m = toks_model(tokens@).last();
                        lemma_step_shift(tm0, flush(acc), seq![m], rest1.toks);
                        lemma_empty_concat(rest1.diags);
                        assert(s.subrange(self.pos as int, self.pos as int)
                            =~= Seq::<char>::empty());
                    }
                } else {
                    self.emit(&mut tokens, text_start, Token::InlineMath(content), self.len);
                    ds.push(Diagnostic::UnterminatedDelimiter);
                    text_start = self.pos;
                    line_begins = false;
                    proof {
                        lemma_concat_assoc(tm0, flush(acc), seq![toks_model(tokens@).last()]);
                        lemma_concat_empty(toks_model(tokens@));
                        lemma_concat_empty(ds@);
                        assert(ds@ =~= ds0 + seq![Diagnostic::UnterminatedDelimiter]);
                        assert(s.subrange(self.pos as int, self.pos as int)
                            =~= Seq::<char>::empty());
                    }
                }
            } else if c == '`' {
                if self.len - self.pos > 2 && self.input.get_char(self.pos + 1) == '`'
                    && self.input.get_char(self.pos + 2) == '`' {
                    let j = self.find_triple(self.pos + 3, '`');
                    let piece = self.input.substring_char(self.pos + 3, j);
                    let content = String::from_str(piece);
                    if j < self.len {
                        proof {
                            lemma_scan_to_triple_bounds(s, self.pos + 3, '`');
                        }
                        self.emit(&mut tokens, text_start, Token::CodeBlock(content), j + 3);
                        text_start = self.pos;
                        line_begins = false;
                        proof {
                            let rest1 = lex_from(s, self.pos as int, false, Seq::<char>::empty());
                            let m = toks_model(tokens@).last();
                            lemma_step_shift(tm0, flush(acc), seq![m], rest1.toks);
                            lemma_empty_concat(rest1.diags);
                            assert(s.subrange(self.pos as int, self.pos as int)
                                =~= Seq::<char>::empty());
                        }
                    } else {
                        self.emit(&mut tokens, text_start, Token::CodeBlock(content), self.len);
                        ds.push(Diagnostic::UnterminatedDelimiter);
                        text_start = self.pos;
                        line_begins = false;
                        proof {
                            lemma_concat_assoc(tm0, flush(acc), seq![toks_model(tokens@).last()]);
                            lemma_concat_empty(toks_model(tokens@));
                            lemma_concat_empty(ds@);
                            assert(ds@ =~= ds0 + seq![Diagnostic::UnterminatedDelimiter]);
                            assert(s.subrange(self.pos as int, self.pos as int)
                                =~= Seq::<char>::empty());
                        }
                    }
                } else {
                    let j = self.find_char(self.pos + 1, '`');
                    let piece = self.input.substring_char(self.pos + 1, j);
                    let content = String::from_str(piece);
                    if j < self.len {
                        self.emit(&mut tokens, text_start, Token::InlineCode(content), j + 1);
                        text_start = self.pos;
                        line_begins = false;
                        proof {
                            let rest1 = lex_from(s, self.pos as int, false, Seq::<char>::empty());
                            let m = toks_model(tokens@).last();
                            lemma_step_shift(tm0, flush(acc), seq![m], rest1.toks);
                            lemma_empty_concat(rest1.diags);
                            assert(s.subrange(self.pos as int, self.pos as int)
                                =~= Seq::<char>::empty());
                        }
                    } else {
                        self.emit(&mut tokens, text_start, Token::InlineCode(content), self.len);
                        ds.push(Diagnostic::UnterminatedDelimiter);
                        text_start = self.pos;
                        line_begins = false;
                        proof {
                            lemma_concat_assoc(tm0, flush(acc), seq![toks_model(tokens@).last()]);
                            lemma_concat_empty(toks_model(tokens@));
                            lemma_concat_empty(ds@);
                            assert(ds@ =~= ds0 + seq![Diagnostic::UnterminatedDelimiter]);
                            assert(s.subrange(self.pos as int, self.pos as int)
                                =~= Seq::<char>::empty());
                        }
                    }
                }
            } else if c == '\\' {
                if self.len - self.pos > 1 && self.input.get_char(self.pos + 1) == '[' {
                    let j = self.find_pair(self.pos + 2, '\\', ']');
                    let piece = self.input.substring_char(self.pos + 2, j);
                    let content = String::from_str(piece);
                    if j < self.len {
                        proof {
                            lemma_scan_to_pair_bounds(s, self.pos + 2, '\\', ']');
                        }
                        self.emit(&mut tokens, text_start, Token::DisplayMath(content), j + 2);
                        text_start = self.pos;
                        line_begins = false;
                        proof {
                            let rest1 = lex_from(s, self.pos as int, false, Seq::<char>::empty());
                            let m = toks_model(tokens@).last();
                            lemma_step_shift(tm0, flush(acc), seq![m], rest1.toks);
                            lemma_empty_concat(rest1.diags);
                            assert(s.subrange(self.pos as int, self.pos as int)
                                =~= Seq::<char>::empty());
                        }
                    } else {
                        self.emit(&mut tokens, text_start, Token::DisplayMath(content), self.len);
                        ds.push(Diagnostic::UnterminatedDelimiter);
                        text_start = self.pos;
                        line_begins = false;
                        proof {
                            lemma_concat_assoc(tm0, flush(acc), seq![toks_model(tokens@).last()]);
                            lemma_concat_empty(toks_model(tokens@));
                            lemma_concat_empty(ds@);
                            assert(ds@ =~= ds0 + seq![Diagnostic::UnterminatedDelimiter]);
                            assert(s.subrange(self.pos as int, self.pos as int)
                                =~= Seq::<char>::empty());
                        }
                    }
                } else {
                    self.pos = self.pos + 1;
                    line_begins = false;
                    proof {
                        assert(s.subrange(text_start as int, self.pos as int) =~= acc.push(c));
                    }
                }
            } else if c == '%' {
                let re = self.find_run_end(self.pos, '%');
                proof {
                    lemma_run_end_bounds(s, self.pos + 1, '%');
                    assert(run_end(s, self.pos as int, '%') == run_end(s, self.pos + 1, '%'));
                }
                if re < self.len && self.input.get_char(re) == '\n' {
                    self.emit(&mut tokens, text_start, Token::EnvEnd, re);
                    text_start = self.pos;
                    line_begins = false;
                    proof {
                        let rest1 = lex_from(s, self.pos as int, false, Seq::<char>::empty());
                        lemma_step_shift(tm0, flush(acc), seq![TokenModel::EnvEnd], rest1.toks);
                        lemma_empty_concat(rest1.diags);
                        assert(s.subrange(self.pos as int, self.pos as int)
                            =~= Seq::<char>::empty());
                    }
                } else {
                    let j = self.find_either(re, ' ', '\n');
                    let piece = self.input.substring_char(re, j);
                    let name = String::from_str(piece);
                    if j < self.len && self.input.get_char(j) == ' ' {
                        self.emit(&mut tokens, text_start, Token::EnvBegin(name), j + 1);
                        text_start = self.pos;
                        line_begins = false;
                        proof {
                            let rest1 = lex_from(s, self.pos as int, false, Seq::<char>::empty());
                            let m = toks_model(tokens@).last();
                            lemma_step_shift(tm0, flush(acc), seq![m], rest1.toks);
                            lemma_empty_concat(rest1.diags);
                            assert(s.subrange(self.pos as int, self.pos as int)
                                =~= Seq::<char>::empty());
                        }
                    } else if j < self.len {
                        self.emit(&mut tokens, text_start, Token::EnvBegin(name), j);
                        text_start = self.pos;
                        line_begins = false;
                        proof {
                            let rest1 = lex_from(s, self.pos as int, false, Seq::<char>::empty());
                            let m = toks_model(tokens@).last();
                            lemma_step_shift(tm0, flush(acc), seq![m], rest1.toks);
                            lemma_empty_concat(rest1.diags);
                            assert(s.subrange(self.pos as int, self.pos as int)
                                =~= Seq::<char>::empty());
                        }
                    } else {
                        self.emit(&mut tokens, text_start, Token::EnvBegin(name), self.len);
                        ds.push(Diagnostic::UnterminatedDelimiter);
                        text_start = self.pos;
                        line_begins = false;
                        proof {
                            lemma_concat_assoc(tm0, flush(acc), seq![toks_model(tokens@).last()]);
                            lemma_concat_empty(toks_model(tokens@));
                            lemma_concat_empty(ds@);
                            assert(ds@ =~= ds0 + seq![Diagnostic::UnterminatedDelimiter]);
                            assert(s.subrange(self.pos as int, self.pos as int)
                                =~= Seq::<char>::empty());
                        }
                    }
                }
            } else {
                self.pos = self.pos + 1;
                line_begins = false;
                proof {
                    assert(s.subrange(text_start as int, self.pos as int) =~= acc.push(c));
                }
            }
        }
        flush_text(self.input, text_start, self.pos, &mut tokens);
        proof {
            lemma_empty_concat(Seq::<Diagnostic>::empty());
            assert(out.diags =~= ds@);
        }
        self.diags.append(&mut ds);
        tokens
    }

    /// The first position at or after `from` holding `c`, or the end of the
    /// input.
    fn find_char(&self, from: usize, c: char) -> (j: usize)
        requires
            self.wf(),
            from <= self.len,
        ensures
            j == scan_to(self.src(), from as int, c),
            from <= j <= self.len,
    {
        let mut j = from;
        while j < self.len && self.input.get_char(j) != c
            invariant
                self.wf(),
                from <= j <= self.len,
                scan_to(self.src(), from as int, c) == scan_to(self.src(), j as int, c),
            decreases self.len - j,
        {
            j = j + 1;
        }
        j
    }

    /// The first position at or after `from` holding `a` or `b`, or the end
    /// of the input.
    fn find_either(&self, from: usize, a: char, b: char) -> (j: usize)
        requires
            self.wf(),
            from <= self.len,
        ensures
            j == scan_to_either(self.src(), from as int, a, b),
            from <= j <= self.len,
    {
        let mut j = from;
        while j < self.len && self.input.get_char(j) != a && self.input.get_char(j) != b
            invariant
                self.wf(),
                from <= j <= self.len,
                scan_to_either(self.src(), from as int, a, b) == scan_to_either(
                    self.src(),
                    j as int,
                    a,
                    b,
                ),
            decreases self.len - j,
        {
            j = j + 1;
        }
        j
    }

    /// The start of the first `a b` character pair at or after `from`, or
    /// the end of the input.
    fn find_pair(&self, from: usize, a: char, b: char) -> (j: usize)
        requires
            self.wf(),
            from <= self.len,
        ensures
            j == scan_to_pair(self.src(), from as int, a, b),
            from <= j <= self.len,
    {
        let mut j = from;
        while j < self.len && !(self.input.get_char(j) == a && self.len - j > 1
            && self.input.get_char(j + 1) == b)
            invariant
                self.wf(),
                from <= j <= self.len,
                scan_to_pair(self.src(), from as int, a, b) == scan_to_pair(
                    self.src(),
                    j as int,
                    a,
                    b,
                ),
            decreases self.len - j,
        {
            j = j + 1;
        }
        j
    }

    /// The start of the first run of three `c` characters at or after
    /// `from`, or the end of the input.
    fn find_triple(&self, from: usize, c: char) -> (j: usize)
        requires
            self.wf(),
            from <= self.len,
        ensures
            j == scan_to_triple(self.src(), from as int, c),
            from <= j <= self.len,
    {
        let mut j = from;
        while j < self.len && !(self.input.get_char(j) == c && self.len - j > 2
            && self.input.get_char(j + 1) == c && self.input.get_char(j + 2) == c)
            invariant
                self.wf(),
                from <= j <= self.len,
                scan_to_triple(self.src(), from as int, c) == scan_to_triple(
                    self.src(),
                    j as int,
                    c,
                ),
            decreases self.len - j,
        {
            j = j + 1;
        }
        j
    }

    /// Flushes the pending literal text, emits `t`, and moves the cursor to
    /// `next_pos`: one token-emitting step of the lexer.
    fn emit(&mut self, tokens: &mut Vec<Token>, text_start: usize, t: Token, next_pos: usize)
        requires
            old(self).wf(),
            text_start <= old(self).pos,
            old(self).pos <= next_pos <= old(self).len,
        ensures
            final(self).wf(),
            final(self).src() == old(self).src(),
            final(self).len == old(self).len,
            final(self).pos == next_pos,
            final(self).diags == old(self).diags,
            toks_model(final(tokens)@) == (toks_model(old(tokens)@) + flush(
                old(self).src().subrange(text_start as int, old(self).pos as int),
            )) + seq![t.model()],
    {
        flush_text(self.input, text_start, self.pos, tokens);
        let ghost mid = tokens@;
        tokens.push(t);
        self.pos = next_pos;
        proof {
            lemma_toks_model_push(mid, t);
        }
    }

    /// The end of the run of `c` characters starting at `from`.
    fn find_run_end(&self, from: usize, c: char) -> (j: usize)
        requires
            self.wf(),
            from <= self.len,
        ensures
            j == run_end(self.src(), from as int, c),
            from <= j <= self.len,
    {
        let mut j = from;
        while j < self.len && self.input.get_char(j) == c
            invariant
                self.wf(),
                from <= j <= self.len,
                run_end(self.src(), from as int, c) == run_end(self.src(), j as int, c),
            decreases self.len - j,
        {
            j = j + 1;
        }
        j
    }
}

} // verus!
