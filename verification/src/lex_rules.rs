//! The lexical rules of the markup language, as spec functions over the
//! source text's character sequence.
//!
//! `lex_from` defines the whole token stream: starting from a position, a
//! line-start flag and the pending literal-text accumulator, it gives the
//! tokens and diagnostics produced by the rest of the input. The executable
//! lexer is verified to return exactly `lex_from(input, 0, true, empty)`.

use vstd::prelude::*;

use crate::token::{Diagnostic, HrStyle, TokenModel};

verus! {

/// Everything one lexer run produces: the token stream and the non-fatal
/// diagnostics reported along the way, in order of discovery.
pub struct LexOut {
    pub toks: Seq<TokenModel>,
    pub diags: Seq<Diagnostic>,
}

/// The first position at or after `i` holding `c`, or the input's length if
/// there is none.
pub open spec fn scan_to(s: Seq<char>, i: int, c: char) -> int
    decreases s.len() - i when 0 <= i <= s.len()
{
    if i >= s.len() {
        s.len() as int
    } else if s[i] == c {
        i
    } else {
        scan_to(s, i + 1, c)
    }
}

/// The first position at or after `i` holding `a` or `b`, or the input's
/// length if there is none.
pub open spec fn scan_to_either(s: Seq<char>, i: int, a: char, b: char) -> int
    decreases s.len() - i when 0 <= i <= s.len()
{
    if i >= s.len() {
        s.len() as int
    } else if s[i] == a || s[i] == b {
        i
    } else {
        scan_to_either(s, i + 1, a, b)
    }
}

/// The first position at or after `i` where the two-character sequence
/// `a b` starts, or the input's length if it never does.
pub open spec fn scan_to_pair(s: Seq<char>, i: int, a: char, b: char) -> int
    decreases s.len() - i when 0 <= i <= s.len()
{
    if i >= s.len() {
        s.len() as int
    } else if s[i] == a && i + 1 < s.len() && s[i + 1] == b {
        i
    } else {
        scan_to_pair(s, i + 1, a, b)
    }
}

/// The first position at or after `i` where three consecutive occurrences
/// of `c` start, or the input's length if they never do.
pub open spec fn scan_to_triple(s: Seq<char>, i: int, c: char) -> int
    decreases s.len() - i when 0 <= i <= s.len()
{
    if i >= s.len() {
        s.len() as int
    } else if s[i] == c && i + 2 < s.len() && s[i + 1] == c && s[i + 2] == c {
        i
    } else {
        scan_to_triple(s, i + 1, c)
    }
}

/// The end of the run of `c` characters starting at `i`: the first position
/// at or after `i` holding something else, or the input's length.
pub open spec fn run_end(s: Seq<char>, i: int, c: char) -> int
    decreases s.len() - i when 0 <= i <= s.len()
{
    if i >= s.len() {
        s.len() as int
    } else if s[i] != c {
        i
    } else {
        run_end(s, i + 1, c)
    }
}

/// A count clipped into `u8` range; header and indentation levels saturate
/// at 255 rather than wrapping.
pub open spec fn sat_u8(n: int) -> u8 {
    if n > 255 {
        255u8
    } else if n < 0 {
        0u8
    } else {
        n as u8
    }
}

/// Whether `c` is one of the four horizontal-rule marker characters.
pub open spec fn is_hr_char(c: char) -> bool {
    c == '=' || c == '-' || c == '.' || c == '^'
}

/// The rule style drawn by each marker character.
pub open spec fn hr_style(c: char) -> HrStyle {
    if c == '=' {
        HrStyle::Normal
    } else if c == '-' {
        HrStyle::Dashed
    } else if c == '.' {
        HrStyle::Dotted
    } else {
        HrStyle::Sawtooth
    }
}

/// The pending literal-text accumulator flushed as a token: one `Text`
/// token if it is non-empty, nothing otherwise.
pub open spec fn flush(acc: Seq<char>) -> Seq<TokenModel> {
    if acc.len() == 0 {
        Seq::<TokenModel>::empty()
    } else {
        seq![TokenModel::Text(acc)]
    }
}

/// One lexing step's output placed before the rest of the run.
pub open spec fn lex_step(pre: Seq<TokenModel>, ds: Seq<Diagnostic>, rest: LexOut) -> LexOut {
    LexOut { toks: pre + rest.toks, diags: ds + rest.diags }
}

/// The tokens and diagnostics produced from position `i` to the end of the
/// input. `line_begins` is true exactly at the start of the input and right
/// after a newline; the indentation, list-marker, horizontal-rule and
/// header rules apply only there. `acc` is the literal text accumulated so
/// far and not yet flushed.
///
/// Dispatch order is the precedence order of the lexical rules: leading
/// spaces, a bare list marker, a horizontal rule, a newline, a header, then
/// the character-triggered rules, and finally literal text. Every rule that
/// emits a token first flushes the accumulator; a scan that reaches the end
/// of the input before its terminator emits its best-effort payload and an
/// `UnterminatedDelimiter` diagnostic.
pub open spec fn lex_from(s: Seq<char>, i: int, line_begins: bool, acc: Seq<char>) -> LexOut
    decreases s.len() - i when 0 <= i <= s.len() via lex_from_dec
{
    if i >= s.len() {
        LexOut { toks: flush(acc), diags: Seq::empty() }
    } else {
        let c = s[i];
        if c == ' ' && line_begins {
            // Leading spaces: an indentation measure, and a list item if a
            // dash-space marker follows the run.
            let j = run_end(s, i, ' ');
            let indent = sat_u8(j - i);
            if j + 1 < s.len() && s[j] == '-' && s[j + 1] == ' ' {
                lex_step(
                    flush(acc) + seq![TokenModel::ListItem(indent)],
                    Seq::empty(),
                    lex_from(s, j + 2, false, Seq::empty()),
                )
            } else {
                lex_step(
                    flush(acc) + seq![TokenModel::Indent(indent)],
                    Seq::empty(),
                    lex_from(s, j, false, Seq::empty()),
                )
            }
        } else if c == '-' && line_begins && i + 1 < s.len() && s[i + 1] == ' ' {
            // A bare dash-space at line start: an unindented list item.
            lex_step(
                flush(acc) + seq![TokenModel::ListItem(0)],
                Seq::empty(),
                lex_from(s, i + 2, false, Seq::empty()),
            )
        } else if line_begins && is_hr_char(c) && i + 2 < s.len() && s[i + 1] == c && s[i + 2] == c {
            // Three repeated marker characters at line start: a horizontal
            // rule.
            lex_step(
                flush(acc) + seq![TokenModel::Hr(hr_style(c))],
                Seq::empty(),
                lex_from(s, i + 3, false, Seq::empty()),
            )
        } else if c == '\n' {
            lex_step(
                flush(acc) + seq![TokenModel::NewLine],
                Seq::empty(),
                lex_from(s, i + 1, true, Seq::empty()),
            )
        } else if c == '#' && line_begins {
            // A header: the level is the length of the marker run plus one;
            // everything through the following space is consumed.
            let level = sat_u8(run_end(s, i, '#') - i + 1);
            let j = scan_to(s, i, ' ');
            if j < s.len() {
                lex_step(
                    flush(acc) + seq![TokenModel::Header(level)],
                    Seq::empty(),
                    lex_from(s, j + 1, false, Seq::empty()),
                )
            } else {
                LexOut {
                    toks: flush(acc) + seq![TokenModel::Header(level)],
                    diags: seq![Diagnostic::UnterminatedDelimiter],
                }
            }
        } else if c == '*' || c == '_' {
            // A doubled star or underscore toggles bold, a single one
            // italic.
            if i + 1 < s.len() && s[i + 1] == c {
                lex_step(
                    flush(acc) + seq![TokenModel::Bold],
                    Seq::empty(),
                    lex_from(s, i + 2, false, Seq::empty()),
                )
            } else {
                lex_step(
                    flush(acc) + seq![TokenModel::Italic],
                    Seq::empty(),
                    lex_from(s, i + 1, false, Seq::empty()),
                )
            }
        } else if c == '~' {
            if i + 1 < s.len() && s[i + 1] == '~' {
                lex_step(
                    flush(acc) + seq![TokenModel::Striked],
                    Seq::empty(),
                    lex_from(s, i + 2, false, Seq::empty()),
                )
            } else {
                lex_step(
                    flush(acc) + seq![TokenModel::NBSP],
                    Seq::empty(),
                    lex_from(s, i + 1, false, Seq::empty()),
                )
            }
        } else if c == '.' {
            if i + 1 < s.len() && s[i + 1] == '.' {
                lex_step(
                    flush(acc) + seq![TokenModel::Underline],
                    Seq::empty(),
                    lex_from(s, i + 2, false, Seq::empty()),
                )
            } else {
                // A single dot is literal text, folded into the running
                // accumulator.
                lex_from(s, i + 1, false, acc.push(c))
            }
        } else if c == '|' {
            if i + 1 < s.len() && s[i + 1] == '|' {
                lex_step(
                    flush(acc) + seq![TokenModel::Highlighted],
                    Seq::empty(),
                    lex_from(s, i + 2, false, Seq::empty()),
                )
            } else {
                lex_from(s, i + 1, false, acc.push(c))
            }
        } else if c == '$' {
            // Inline math: the payload runs to the closing dollar sign.
            let j = scan_to(s, i + 1, '$');
            let content = s.subrange(i + 1, j);
            if j < s.len() {
                lex_step(
                    flush(acc) + seq![TokenModel::InlineMath(content)],
                    Seq::empty(),
                    lex_from(s, j + 1, false, Seq::empty()),
                )
            } else {
                LexOut {
                    toks: flush(acc) + seq![TokenModel::InlineMath(content)],
                    diags: seq![Diagnostic::UnterminatedDelimiter],
                }
            }
        } else if c == '`' {
            if i + 2 < s.len() && s[i + 1] == '`' && s[i + 2] == '`' {
                // A code fence: the payload runs to the next run of three
                // backticks.
                let j = scan_to_triple(s, i + 3, '`');
                let content = s.subrange(i + 3, j);
                if j < s.len() {
                    lex_step(
                        flush(acc) + seq![TokenModel::CodeBlock(content)],
                        Seq::empty(),
                        lex_from(s, j + 3, false, Seq::empty()),
                    )
                } else {
                    LexOut {
                        toks: flush(acc) + seq![TokenModel::CodeBlock(content)],
                        diags: seq![Diagnostic::UnterminatedDelimiter],
                    }
                }
            } else {
                // Inline code: the payload runs to the closing backtick.
                let j = scan_to(s, i + 1, '`');
                let content = s.subrange(i + 1, j);
                if j < s.len() {
                    lex_step(
                        flush(acc) + seq![TokenModel::InlineCode(content)],
                        Seq::empty(),
                        lex_from(s, j + 1, false, Seq::empty()),
                    )
                } else {
                    LexOut {
                        toks: flush(acc) + seq![TokenModel::InlineCode(content)],
                        diags: seq![Diagnostic::UnterminatedDelimiter],
                    }
                }
            }
        } else if c == '\\' {
            if i + 1 < s.len() && s[i + 1] == '[' {
                // Display math: the payload runs to the closing bracket
                // sequence.
                let j = scan_to_pair(s, i + 2, '\\', ']');
                let content = s.subrange(i + 2, j);
                if j < s.len() {
                    lex_step(
                        flush(acc) + seq![TokenModel::DisplayMath(content)],
                        Seq::empty(),
                        lex_from(s, j + 2, false, Seq::empty()),
                    )
                } else {
                    LexOut {
                        toks: flush(acc) + seq![TokenModel::DisplayMath(content)],
                        diags: seq![Diagnostic::UnterminatedDelimiter],
                    }
                }
            } else {
                // A bare backslash is literal text.
                lex_from(s, i + 1, false, acc.push(c))
            }
        } else if c == '%' {
            // An environment marker: the whole run of percent signs is
            // consumed; a newline right after it closes an environment,
            // anything else begins one named by the text up to the next
            // space or newline.
            let r = run_end(s, i, '%');
            if r < s.len() && s[r] == '\n' {
                lex_step(
                    flush(acc) + seq![TokenModel::EnvEnd],
                    Seq::empty(),
                    lex_from(s, r, false, Seq::empty()),
                )
            } else {
                let j = scan_to_either(s, r, ' ', '\n');
                let name = s.subrange(r, j);
                if j < s.len() && s[j] == ' ' {
                    lex_step(
                        flush(acc) + seq![TokenModel::EnvBegin(name)],
                        Seq::empty(),
                        lex_from(s, j + 1, false, Seq::empty()),
                    )
                } else if j < s.len() {
                    lex_step(
                        flush(acc) + seq![TokenModel::EnvBegin(name)],
                        Seq::empty(),
                        lex_from(s, j, false, Seq::empty()),
                    )
                } else {
                    LexOut {
                        toks: flush(acc) + seq![TokenModel::EnvBegin(name)],
                        diags: seq![Diagnostic::UnterminatedDelimiter],
                    }
                }
            }
        } else {
            // Any other character accumulates as literal text.
            lex_from(s, i + 1, false, acc.push(c))
        }
    }
}

/// The token stream and diagnostics of a whole source text.
pub open spec fn lex(s: Seq<char>) -> LexOut {
    lex_from(s, 0, true, Seq::empty())
}

/// `scan_to` lands between `i` and the end of the input, and on `c` if it
/// found one.
pub proof fn lemma_scan_to_bounds(s: Seq<char>, i: int, c: char)
    requires
        0 <= i <= s.len(),
    ensures
        i <= scan_to(s, i, c) <= s.len(),
        scan_to(s, i, c) < s.len() ==> s[scan_to(s, i, c)] == c,
    decreases s.len() - i,
{
    if i < s.len() && s[i] != c {
        lemma_scan_to_bounds(s, i + 1, c);
    }
}

/// `scan_to_either` lands between `i` and the end of the input, and on one
/// of its two characters if it found one.
pub proof fn lemma_scan_to_either_bounds(s: Seq<char>, i: int, a: char, b: char)
    requires
        0 <= i <= s.len(),
    ensures
        i <= scan_to_either(s, i, a, b) <= s.len(),
        scan_to_either(s, i, a, b) < s.len() ==> {
            let j = scan_to_either(s, i, a, b);
            s[j] == a || s[j] == b
        },
    decreases s.len() - i,
{
    if i < s.len() && !(s[i] == a || s[i] == b) {
        lemma_scan_to_either_bounds(s, i + 1, a, b);
    }
}

/// `scan_to_pair` lands between `i` and the end of the input, and on a full
/// two-character match if it found one.
pub proof fn lemma_scan_to_pair_bounds(s: Seq<char>, i: int, a: char, b: char)
    requires
        0 <= i <= s.len(),
    ensures
        i <= scan_to_pair(s, i, a, b) <= s.len(),
        scan_to_pair(s, i, a, b) < s.len() ==> {
            let j = scan_to_pair(s, i, a, b);
            s[j] == a && j + 1 < s.len() && s[j + 1] == b
        },
    decreases s.len() - i,
{
    if i < s.len() && !(s[i] == a && i + 1 < s.len() && s[i + 1] == b) {
        lemma_scan_to_pair_bounds(s, i + 1, a, b);
    }
}

/// `scan_to_triple` lands between `i` and the end of the input, and on a
/// full three-character match if it found one.
pub proof fn lemma_scan_to_triple_bounds(s: Seq<char>, i: int, c: char)
    requires
        0 <= i <= s.len(),
    ensures
        i <= scan_to_triple(s, i, c) <= s.len(),
        scan_to_triple(s, i, c) < s.len() ==> {
            let j = scan_to_triple(s, i, c);
            s[j] == c && j + 2 < s.len() && s[j + 1] == c && s[j + 2] == c
        },
    decreases s.len() - i,
{
    if i < s.len() && !(s[i] == c && i + 2 < s.len() && s[i + 1] == c && s[i + 2] == c) {
        lemma_scan_to_triple_bounds(s, i + 1, c);
    }
}

/// `run_end` lands between `i` and the end of the input, and never on `c`.
pub proof fn lemma_run_end_bounds(s: Seq<char>, i: int, c: char)
    requires
        0 <= i <= s.len(),
    ensures
        i <= run_end(s, i, c) <= s.len(),
        run_end(s, i, c) < s.len() ==> s[run_end(s, i, c)] != c,
    decreases s.len() - i,
{
    if i < s.len() && s[i] == c {
        lemma_run_end_bounds(s, i + 1, c);
    }
}

#[via_fn]
proof fn lex_from_dec(s: Seq<char>, i: int, line_begins: bool, acc: Seq<char>) {
    if 0 <= i && i < s.len() {
        lemma_run_end_bounds(s, i, ' ');
        lemma_run_end_bounds(s, i, '#');
        lemma_run_end_bounds(s, i, '%');
        lemma_scan_to_bounds(s, i, ' ');
        if s[i] == ' ' {
            lemma_run_end_bounds(s, i + 1, ' ');
        }
        if s[i] == '%' {
            lemma_run_end_bounds(s, i + 1, '%');
            let r = run_end(s, i, '%');
            lemma_scan_to_either_bounds(s, r, ' ', '\n');
        }
        if i + 1 <= s.len() {
            lemma_scan_to_bounds(s, i + 1, '$');
            lemma_scan_to_bounds(s, i + 1, '`');
        }
        if i + 2 <= s.len() {
            lemma_scan_to_pair_bounds(s, i + 2, '\\', ']');
        }
        if i + 3 <= s.len() {
            lemma_scan_to_triple_bounds(s, i + 3, '`');
        }
    }
}

} // verus!
