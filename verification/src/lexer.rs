//! The indentation-sensitive lexer: one file's text in, a flat token
//! sequence out, with Indent/Dedent/Newline layout tokens synthesized
//! from leading whitespace, or a non-empty list of lexical errors.

use vstd::prelude::*;
use vstd::string::StringExecFns;
use vstd::string::StrSliceExecFns;

use crate::diag::{Diagnostic, DiagnosticConvertible, Label, Severity};
use crate::source::FileId;
use crate::span::{BytePos, Span, Spanned};
use crate::strings::push_char;
use crate::strings::string_from_chars;
use crate::token::{Token, TokenKind};

verus! {

/// The closed set of lexical errors.
#[derive(Debug, Clone, PartialEq)]
pub enum LexerError {
    UnexpectedCharacter { ch: char, span: Span, file_id: FileId },
    InvalidNumber { text: String, span: Span, file_id: FileId },
    NumberTooLarge { span: Span, file_id: FileId },
    InvalidIndentation { span: Span, file_id: FileId },
}

impl DiagnosticConvertible for LexerError {
    /// Every lexical error converts to an `Error` diagnostic with a
    /// non-empty message and exactly one primary label carrying the
    /// error's own span and file.
    open spec fn diagnostic_spec(&self, d: Diagnostic) -> bool {
        match *self {
            LexerError::UnexpectedCharacter { ch, span, file_id } => {
                &&& d.severity == Severity::Error
                &&& d.message@ == "unexpected character `"@ + seq![ch] + "`"@
                &&& d.message@.len() > 0
                &&& d.code is None
                &&& d.labels@.len() == 1
                &&& d.labels@[0].is_primary
                &&& d.labels@[0].span == span
                &&& d.labels@[0].file_id == file_id
                &&& d.labels@[0].message is Some
                &&& d.labels@[0].message->0@ == "this character is not valid here"@
                &&& d.notes@.len() == 0
                &&& d.help is Some
                &&& d.help->0@ == "remove this character or replace it with a valid token"@
            },
            LexerError::InvalidNumber { text, span, file_id } => {
                &&& d.severity == Severity::Error
                &&& d.message@ == "invalid number literal"@
                &&& d.message@.len() > 0
                &&& d.code is None
                &&& d.labels@.len() == 1
                &&& d.labels@[0].is_primary
                &&& d.labels@[0].span == span
                &&& d.labels@[0].file_id == file_id
                &&& d.labels@[0].message is Some
                &&& d.labels@[0].message->0@ == "`"@ + text@ + "` is not a valid number"@
                &&& d.notes@.len() == 0
                &&& d.help is Some
                &&& d.help->0@
                    == "check that the number uses valid digits and does not contain extra symbols"@
            },
            LexerError::NumberTooLarge { span, file_id } => {
                &&& d.severity == Severity::Error
                &&& d.message@ == "number literal is too large"@
                &&& d.message@.len() > 0
                &&& d.code is None
                &&& d.labels@.len() == 1
                &&& d.labels@[0].is_primary
                &&& d.labels@[0].span == span
                &&& d.labels@[0].file_id == file_id
                &&& d.labels@[0].message is Some
                &&& d.labels@[0].message->0@
                    == "this value does not fit in the target integer type"@
                &&& d.notes@.len() == 0
                &&& d.help is Some
                &&& d.help->0@
                    == "try using a smaller value or a wider integer type if available"@
            },
            LexerError::InvalidIndentation { span, file_id } => {
                &&& d.severity == Severity::Error
                &&& d.message@ == "invalid indentation"@
                &&& d.message@.len() > 0
                &&& d.code is None
                &&& d.labels@.len() == 1
                &&& d.labels@[0].is_primary
                &&& d.labels@[0].span == span
                &&& d.labels@[0].file_id == file_id
                &&& d.labels@[0].message is Some
                &&& d.labels@[0].message->0@
                    == "this indentation does not match any previous block level"@
                &&& d.notes@.len() == 1
                &&& d.notes@[0]@
                    == "indentation must match the indentation of a previous block exactly"@
                &&& d.help is Some
                &&& d.help->0@
                    == "align this line with a previous block or fix inconsistent spaces/tabs"@
            },
        }
    }

    fn into_diagnostic(self) -> (d: Diagnostic) {
        match self {
            LexerError::UnexpectedCharacter { ch, span, file_id } => {
                let mut m = "unexpected character `".to_owned();
                push_char(&mut m, ch);
                m.append("`");
                proof {
                    reveal_strlit("unexpected character `");
                    assert(m@ =~= "unexpected character `"@ + seq![ch] + "`"@);
                }
                Diagnostic::new(Severity::Error).with_message(m.as_str()).with_label(
                    Label::primary(file_id, span).with_message("this character is not valid here"),
                ).with_help("remove this character or replace it with a valid token")
            },
            LexerError::InvalidNumber { text, span, file_id } => {
                let mut lm = "`".to_owned();
                lm.append(text.as_str());
                lm.append("` is not a valid number");
                proof {
                    reveal_strlit("invalid number literal");
                    assert(lm@ =~= "`"@ + text@ + "` is not a valid number"@);
                }
                Diagnostic::new(Severity::Error).with_message("invalid number literal").with_label(
                    Label::primary(file_id, span).with_message(lm.as_str()),
                ).with_help(
                    "check that the number uses valid digits and does not contain extra symbols",
                )
            },
            LexerError::NumberTooLarge { span, file_id } => {
                proof {
                    reveal_strlit("number literal is too large");
                }
                Diagnostic::new(Severity::Error).with_message(
                    "number literal is too large",
                ).with_label(
                    Label::primary(file_id, span).with_message(
                        "this value does not fit in the target integer type",
                    ),
                ).with_help("try using a smaller value or a wider integer type if available")
            },
            LexerError::InvalidIndentation { span, file_id } => {
                proof {
                    reveal_strlit("invalid indentation");
                }
                Diagnostic::new(Severity::Error).with_message("invalid indentation").with_label(
                    Label::primary(file_id, span).with_message(
                        "this indentation does not match any previous block level",
                    ),
                ).with_note(
                    "indentation must match the indentation of a previous block exactly",
                ).with_help("align this line with a previous block or fix inconsistent spaces/tabs")
            },
        }
    }
}

/// How many tokens of `s` have kind `k`.
pub open spec fn count_kind(s: Seq<Token>, k: TokenKind) -> int
    decreases s.len(),
{
    if s.len() == 0 {
        0
    } else {
        count_kind(s.drop_last(), k) + if s.last().inner == k {
            1int
        } else {
            0int
        }
    }
}

/// How many characters of `s` equal `c`.
pub open spec fn count_char(s: Seq<char>, c: char) -> int
    decreases s.len(),
{
    if s.len() == 0 {
        0
    } else {
        count_char(s.drop_last(), c) + if s.last() == c {
            1int
        } else {
            0int
        }
    }
}

pub proof fn lemma_count_kind_append(a: Seq<Token>, b: Seq<Token>, k: TokenKind)
    ensures
        count_kind(a + b, k) == count_kind(a, k) + count_kind(b, k),
    decreases b.len(),
{
    if b.len() == 0 {
        assert(a + b =~= a);
    } else {
        assert((a + b).drop_last() =~= a + b.drop_last());
        lemma_count_kind_append(a, b.drop_last(), k);
    }
}

pub proof fn lemma_count_char_append(a: Seq<char>, b: Seq<char>, c: char)
    ensures
        count_char(a + b, c) == count_char(a, c) + count_char(b, c),
    decreases b.len(),
{
    if b.len() == 0 {
        assert(a + b =~= a);
    } else {
        assert((a + b).drop_last() =~= a + b.drop_last());
        lemma_count_char_append(a, b.drop_last(), c);
    }
}

pub proof fn lemma_count_kind_singleton(t: Token, k: TokenKind)
    ensures
        count_kind(seq![t], k) == if t.inner == k {
            1int
        } else {
            0int
        },
{
    reveal_with_fuel(count_kind, 2);
    assert(seq![t].drop_last() =~= Seq::<Token>::empty());
}

pub proof fn lemma_count_char_singleton(x: char, c: char)
    ensures
        count_char(seq![x], c) == if x == c {
            1int
        } else {
            0int
        },
{
    reveal_with_fuel(count_char, 2);
    assert(seq![x].drop_last() =~= Seq::<char>::empty());
}

pub proof fn lemma_count_char_absent(s: Seq<char>, c: char)
    requires
        forall|i: int| 0 <= i < s.len() ==> s[i] != c,
    ensures
        count_char(s, c) == 0,
    decreases s.len(),
{
    if s.len() > 0 {
        lemma_count_char_absent(s.drop_last(), c);
    }
}

/// The contribution of one token kind to the indentation balance.
pub open spec fn tok_net(k: TokenKind) -> int {
    if k == TokenKind::Indent {
        1
    } else if k == TokenKind::Dedent {
        -1
    } else {
        0
    }
}

/// Indent tokens minus Dedent tokens.
pub open spec fn net_layout(s: Seq<Token>) -> int {
    count_kind(s, TokenKind::Indent) - count_kind(s, TokenKind::Dedent)
}

pub proof fn lemma_net_layout_push(s: Seq<Token>, t: Token)
    ensures
        net_layout(s.push(t)) == net_layout(s) + tok_net(t.inner),
        count_kind(s.push(t), TokenKind::Indent) == count_kind(s, TokenKind::Indent) + if t.inner
            == TokenKind::Indent {
            1int
        } else {
            0int
        },
        count_kind(s.push(t), TokenKind::Dedent) == count_kind(s, TokenKind::Dedent) + if t.inner
            == TokenKind::Dedent {
            1int
        } else {
            0int
        },
        count_kind(s.push(t), TokenKind::Newline) == count_kind(s, TokenKind::Newline) + if t.inner
            == TokenKind::Newline {
            1int
        } else {
            0int
        },
        count_kind(s.push(t), TokenKind::Eof) == count_kind(s, TokenKind::Eof) + if t.inner
            == TokenKind::Eof {
            1int
        } else {
            0int
        },
{
    assert(s.push(t).drop_last() =~= s);
}

/// The character at offset `i`, with a NUL sentinel past the end.
pub open spec fn char_at(s: Seq<char>, i: int) -> char {
    if 0 <= i < s.len() {
        s[i]
    } else {
        '\0'
    }
}

/// Layout tokens are the three the lexer synthesizes.
pub open spec fn is_layout(k: TokenKind) -> bool {
    k == TokenKind::Indent || k == TokenKind::Dedent || k == TokenKind::Newline
}

/// Token spans never move backward through the text.
pub open spec fn spans_ordered(s: Seq<Token>) -> bool {
    forall|i: int|
        0 <= i < s.len() - 1 ==> ((#[trigger] s[i]).span.start.0 <= s[i + 1].span.start.0 && s[
            i
        ].span.end.0 <= s[i + 1].span.end.0)
}

pub proof fn lemma_spans_ordered_push(s: Seq<Token>, t: Token)
    requires
        spans_ordered(s),
        s.len() > 0 ==> s.last().span.start.0 <= t.span.start.0 && s.last().span.end.0
            <= t.span.end.0,
    ensures
        spans_ordered(s.push(t)),
{
    let p = s.push(t);
    assert forall|i: int|
        0 <= i < p.len() - 1 implies ((#[trigger] p[i]).span.start.0 <= p[i + 1].span.start.0
        && p[i].span.end.0 <= p[i + 1].span.end.0) by {
        if i < s.len() - 1 {
            assert(p[i] == s[i]);
            assert(p[i + 1] == s[i + 1]);
        } else {
            assert(p[i] == s.last());
            assert(p[i + 1] == t);
        }
    }
}

/// Horizontal whitespace, skipped between tokens.
pub open spec fn is_horizontal_space(c: char) -> bool {
    c == ' ' || c == '\t' || c == '\r'
}

/// Characters that may start an identifier or keyword.
pub open spec fn is_ident_start(c: char) -> bool {
    ('a' as u32 <= c as u32 && c as u32 <= 'z' as u32) || ('A' as u32 <= c as u32 && c as u32
        <= 'Z' as u32) || c == '_'
}

/// Names the result of char::is_alphanumeric.
pub uninterp spec fn unicode_alphanumeric(c: char) -> bool;

/// Relies on char::is_alphanumeric: classification depends on the
/// character alone; ASCII letters and digits are alphanumeric, while
/// control characters such as the line feed and NUL are not.
#[verifier::external_body]
fn char_is_alphanumeric(c: char) -> (r: bool)
    ensures
        r == unicode_alphanumeric(c),
        'a' as u32 <= c as u32 && c as u32 <= 'z' as u32 ==> r,
        'A' as u32 <= c as u32 && c as u32 <= 'Z' as u32 ==> r,
        '0' as u32 <= c as u32 && c as u32 <= '9' as u32 ==> r,
        c == '\n' ==> !r,
        c == '\0' ==> !r,
{
    c.is_alphanumeric()
}

/// Characters that may continue an identifier or keyword.
pub open spec fn is_ident_continue(c: char) -> bool {
    unicode_alphanumeric(c) || c == '_'
}

/// ASCII decimal digits.
pub open spec fn is_digit(c: char) -> bool {
    '0' as u32 <= c as u32 && c as u32 <= '9' as u32
}

/// The numeric value of one ASCII digit.
pub open spec fn digit_val(c: char) -> int {
    c as u32 - '0' as u32
}

/// The value of a run of ASCII digits, most significant first.
pub open spec fn digits_val(s: Seq<char>) -> int
    decreases s.len(),
{
    if s.len() == 0 {
        0
    } else {
        digits_val(s.drop_last()) * 10 + digit_val(s.last())
    }
}

/// One past the maximal identifier run starting at `p`.
pub open spec fn ident_run_end(input: Seq<char>, p: int) -> int
    decreases input.len() - p,
{
    if 0 <= p < input.len() && is_ident_continue(input[p]) {
        ident_run_end(input, p + 1)
    } else {
        p
    }
}

/// One past the maximal digit run starting at `p`.
pub open spec fn digit_run_end(input: Seq<char>, p: int) -> int
    decreases input.len() - p,
{
    if 0 <= p < input.len() && is_digit(input[p]) {
        digit_run_end(input, p + 1)
    } else {
        p
    }
}

pub proof fn lemma_ident_run_end(input: Seq<char>, p: int, e: int)
    requires
        0 <= p <= e <= input.len(),
        forall|i: int| p <= i < e ==> is_ident_continue(#[trigger] input[i]),
        e == input.len() || !is_ident_continue(input[e]),
    ensures
        ident_run_end(input, p) == e,
    decreases e - p,
{
    if p < e {
        lemma_ident_run_end(input, p + 1, e);
    }
}

pub proof fn lemma_digit_run_end(input: Seq<char>, p: int, e: int)
    requires
        0 <= p <= e <= input.len(),
        forall|i: int| p <= i < e ==> is_digit(#[trigger] input[i]),
        e == input.len() || !is_digit(input[e]),
    ensures
        digit_run_end(input, p) == e,
    decreases e - p,
{
    if p < e {
        lemma_digit_run_end(input, p + 1, e);
    }
}

/// `tok` covers exactly `[a, b)`.
pub open spec fn tok_spans(tok: Token, a: int, b: int) -> bool {
    tok.span.start.0 == a && tok.span.end.0 == b
}

/// The lexical grammar of one symbol: which token stands at `p`,
/// by direct dispatch on the character there with one-character
/// lookahead for the compound forms, maximal identifier and digit
/// runs, and the fixed keyword table.
pub open spec fn symbol_token(input: Seq<char>, p: int, tok: Token) -> bool {
    let c = char_at(input, p);
    let c2 = char_at(input, p + 1);
    if c == '(' {
        tok.inner == TokenKind::LParen && tok_spans(tok, p, p + 1)
    } else if c == ')' {
        tok.inner == TokenKind::RParen && tok_spans(tok, p, p + 1)
    } else if c == '.' {
        tok.inner == TokenKind::Dot && tok_spans(tok, p, p + 1)
    } else if c == ',' {
        tok.inner == TokenKind::Comma && tok_spans(tok, p, p + 1)
    } else if c == ':' {
        tok.inner == TokenKind::Colon && tok_spans(tok, p, p + 1)
    } else if c == '+' {
        tok.inner == TokenKind::Plus && tok_spans(tok, p, p + 1)
    } else if c == '*' {
        tok.inner == TokenKind::Star && tok_spans(tok, p, p + 1)
    } else if c == '/' {
        tok.inner == TokenKind::Slash && tok_spans(tok, p, p + 1)
    } else if c == '=' {
        tok.inner == TokenKind::Equal && tok_spans(tok, p, p + 1)
    } else if c == '-' {
        if c2 == '>' {
            tok.inner == TokenKind::Arrow && tok_spans(tok, p, p + 2)
        } else {
            tok.inner == TokenKind::Minus && tok_spans(tok, p, p + 1)
        }
    } else if c == '<' {
        if c2 == '>' {
            tok.inner == TokenKind::NotEqual && tok_spans(tok, p, p + 2)
        } else if c2 == '=' {
            tok.inner == TokenKind::LessEqual && tok_spans(tok, p, p + 2)
        } else {
            tok.inner == TokenKind::Less && tok_spans(tok, p, p + 1)
        }
    } else if c == '>' {
        if c2 == '=' {
            tok.inner == TokenKind::GreaterEqual && tok_spans(tok, p, p + 2)
        } else {
            tok.inner == TokenKind::Greater && tok_spans(tok, p, p + 1)
        }
    } else if c == '&' {
        c2 == '&' && tok.inner == TokenKind::And && tok_spans(tok, p, p + 2)
    } else if c == '|' {
        c2 == '|' && tok.inner == TokenKind::Or && tok_spans(tok, p, p + 2)
    } else if is_ident_start(c) {
        let e = ident_run_end(input, p);
        let text = input.subrange(p, e);
        tok_spans(tok, p, e) && (if text == "let"@ {
            tok.inner == TokenKind::Let
        } else if text == "mod"@ {
            tok.inner == TokenKind::Mod
        } else if text == "fn"@ {
            tok.inner == TokenKind::Fn
        } else if text == "not"@ {
            tok.inner == TokenKind::Not
        } else if text == "u64"@ {
            tok.inner == TokenKind::U64
        } else if text == "i64"@ {
            tok.inner == TokenKind::I64
        } else if text == "true"@ {
            tok.inner == TokenKind::BoolLiteral(true)
        } else if text == "false"@ {
            tok.inner == TokenKind::BoolLiteral(false)
        } else {
            (tok.inner matches TokenKind::Ident(s) && s@ == text)
        })
    } else if is_digit(c) {
        let e = digit_run_end(input, p);
        let v = digits_val(input.subrange(p, e));
        v <= u64::MAX && tok.inner == TokenKind::IntLiteral(v as u64) && tok_spans(tok, p, e)
    } else {
        false
    }
}

/// When reading a symbol at `p` succeeds: the character starts one of
/// the forms, and a digit run's value fits.
pub open spec fn symbol_ok(input: Seq<char>, p: int) -> bool {
    let c = char_at(input, p);
    let c2 = char_at(input, p + 1);
    if is_digit(c) {
        digits_val(input.subrange(p, digit_run_end(input, p))) <= u64::MAX
    } else {
        c == '(' || c == ')' || c == '.' || c == ',' || c == ':' || c == '+' || c == '*' || c
            == '/' || c == '=' || c == '-' || c == '<' || c == '>' || (c == '&' && c2 == '&') || (c
            == '|' && c2 == '|') || is_ident_start(c)
    }
}

/// One past the run of horizontal whitespace at `p`.
pub open spec fn ws_run_end(input: Seq<char>, p: int) -> int
    decreases input.len() - p,
{
    if 0 <= p < input.len() && is_horizontal_space(input[p]) {
        ws_run_end(input, p + 1)
    } else {
        p
    }
}

pub proof fn lemma_ws_run_end(input: Seq<char>, p: int, e: int)
    requires
        0 <= p <= e <= input.len(),
        forall|i: int| p <= i < e ==> is_horizontal_space(#[trigger] input[i]),
        e == input.len() || !is_horizontal_space(input[e]),
    ensures
        ws_run_end(input, p) == e,
    decreases e - p,
{
    if p < e {
        lemma_ws_run_end(input, p + 1, e);
    }
}

/// One past the run of spaces at `p` (a line's indentation).
pub open spec fn space_run_end(input: Seq<char>, p: int) -> int
    decreases input.len() - p,
{
    if 0 <= p < input.len() && input[p] == ' ' {
        space_run_end(input, p + 1)
    } else {
        p
    }
}

pub proof fn lemma_space_run_end(input: Seq<char>, p: int, e: int)
    requires
        0 <= p <= e <= input.len(),
        forall|i: int| p <= i < e ==> #[trigger] input[i] == ' ',
        e == input.len() || input[e] != ' ',
    ensures
        space_run_end(input, p) == e,
    decreases e - p,
{
    if p < e {
        lemma_space_run_end(input, p + 1, e);
    }
}

/// The open levels that survive a dedent to `width`: pop while the
/// top is deeper.
pub open spec fn dedent_keep(stack: Seq<usize>, width: int) -> Seq<usize>
    decreases stack.len(),
{
    if stack.len() == 0 {
        stack
    } else if stack.last() as int > width {
        dedent_keep(stack.drop_last(), width)
    } else {
        stack
    }
}

pub proof fn lemma_dedent_keep(stack: Seq<usize>, width: int, n: int)
    requires
        1 <= n <= stack.len(),
        stack[n - 1] as int <= width,
        forall|j: int| n <= j < stack.len() ==> #[trigger] stack[j] as int > width,
    ensures
        dedent_keep(stack, width) == stack.subrange(0, n),
    decreases stack.len(),
{
    if n == stack.len() {
        assert(stack.subrange(0, n) =~= stack);
    } else {
        lemma_dedent_keep(stack.drop_last(), width, n);
        assert(stack.drop_last().subrange(0, n) =~= stack.subrange(0, n));
    }
}

/// One past the symbol read at `p`, matching the dispatch of
/// `symbol_token`.
pub open spec fn symbol_end(input: Seq<char>, p: int) -> int {
    let c = char_at(input, p);
    let c2 = char_at(input, p + 1);
    if c == '-' {
        if c2 == '>' {
            p + 2
        } else {
            p + 1
        }
    } else if c == '<' {
        if c2 == '>' || c2 == '=' {
            p + 2
        } else {
            p + 1
        }
    } else if c == '>' {
        if c2 == '=' {
            p + 2
        } else {
            p + 1
        }
    } else if c == '&' || c == '|' {
        p + 2
    } else if is_ident_start(c) {
        ident_run_end(input, p)
    } else if is_digit(c) {
        digit_run_end(input, p)
    } else {
        p + 1
    }
}

/// The faults a scan of `input` reports from position `p` with the
/// given open indentation levels: skip horizontal whitespace; stop at
/// end of input; at a line feed measure the next line's width and
/// push, dedent, or report an `InvalidIndentation` when the width
/// matches no open level; otherwise read one symbol, reporting an
/// `UnexpectedCharacter` where none starts or a `NumberTooLarge` for
/// an oversized digit run. After an error the scan resumes one
/// character past it. The guards that fall back to an empty result
/// are unreachable from a well-formed scanner state.
pub open spec fn scan_faults(input: Seq<char>, p: int, stack: Seq<usize>, f: FileId) -> Seq<
    LexerError,
>
    decreases input.len() - p,
{
    let q = ws_run_end(input, p);
    if !(0 <= p <= q <= input.len()) || stack.len() == 0 {
        Seq::<LexerError>::empty()
    } else if q >= input.len() {
        Seq::<LexerError>::empty()
    } else if input[q] == '\n' {
        let e0 = space_run_end(input, q + 1);
        let e = if q < e0 <= input.len() {
            e0
        } else {
            q + 1
        };
        let width = e - q - 1;
        let top = stack.last() as int;
        if width > top {
            scan_faults(input, e, stack.push(width as usize), f)
        } else if exists|j: int| 0 <= j < stack.len() && #[trigger] stack[j] as int == width {
            scan_faults(input, e, dedent_keep(stack, width), f)
        } else {
            seq![
                LexerError::InvalidIndentation {
                    span: Span { start: BytePos(e as usize), end: BytePos(e as usize) },
                    file_id: f,
                },
            ] + (if e < input.len() {
                scan_faults(input, e + 1, dedent_keep(stack, width), f)
            } else {
                Seq::<LexerError>::empty()
            })
        }
    } else if symbol_ok(input, q) {
        let se = symbol_end(input, q);
        scan_faults(input, if q < se <= input.len() { se } else { q + 1 }, stack, f)
    } else if is_digit(input[q]) {
        let e0 = digit_run_end(input, q);
        let e = if q < e0 <= input.len() {
            e0
        } else {
            q + 1
        };
        seq![
            LexerError::NumberTooLarge {
                span: Span { start: BytePos(q as usize), end: BytePos(e as usize) },
                file_id: f,
            },
        ] + (if e < input.len() {
            scan_faults(input, e + 1, stack, f)
        } else {
            Seq::<LexerError>::empty()
        })
    } else {
        seq![
            LexerError::UnexpectedCharacter {
                ch: input[q],
                span: Span { start: BytePos(q as usize), end: BytePos(q as usize) },
                file_id: f,
            },
        ] + scan_faults(input, q + 1, stack, f)
    }
}

/// The span an error carries.
pub open spec fn lex_error_span(e: LexerError) -> Span {
    match e {
        LexerError::UnexpectedCharacter { span, .. } => span,
        LexerError::InvalidNumber { span, .. } => span,
        LexerError::NumberTooLarge { span, .. } => span,
        LexerError::InvalidIndentation { span, .. } => span,
    }
}

/// What holds of every error the scanner reports against its input:
/// an unexpected character is the one standing at the error's
/// zero-length span; an oversized number spans a digit run whose
/// value exceeds `u64::MAX`; a bad indentation points at one spot in
/// the text; and a digit run can fail in no other way, so
/// `InvalidNumber` is never produced.
pub open spec fn lex_error_wf(e: LexerError, input: Seq<char>, file: FileId) -> bool {
    match e {
        LexerError::UnexpectedCharacter { ch, span, file_id } => {
            &&& file_id == file
            &&& span.start.0 == span.end.0
            &&& span.start.0 < input.len()
            &&& input[span.start.0 as int] == ch
        },
        LexerError::InvalidNumber { .. } => false,
        LexerError::NumberTooLarge { span, file_id } => {
            &&& file_id == file
            &&& span.start.0 < span.end.0 <= input.len()
            &&& forall|i: int| span.start.0 <= i < span.end.0 ==> is_digit(#[trigger] input[i])
            &&& digits_val(input.subrange(span.start.0 as int, span.end.0 as int)) > u64::MAX
        },
        LexerError::InvalidIndentation { span, file_id } => {
            &&& file_id == file
            &&& span.start.0 == span.end.0 <= input.len()
        },
    }
}

/// No token produced from this state starts before this offset.
pub open spec fn span_floor(l: Lexer) -> int {
    if l.pending@.len() > 0 {
        l.pending@[0].span.start.0 as int
    } else {
        l.pos as int
    }
}

/// No token produced from this state ends before this offset.
pub open spec fn span_floor_end(l: Lexer) -> int {
    if l.pending@.len() > 0 {
        l.pending@[0].span.end.0 as int
    } else {
        l.pos as int
    }
}

/// The stateful scanner: a cursor into the decoded text, the stack of
/// open indentation widths, and a queue of layout tokens not yet
/// handed out.
pub struct Lexer {
    pub pos: usize,
    pub file_id: FileId,
    pub input: Vec<char>,
    pub indent_stack: Vec<usize>,
    pub pending: Vec<Token>,
}

impl Lexer {
    /// The scanner's invariant: the cursor stays within the text, the
    /// indentation stack is strictly increasing from 0, and the queue
    /// holds only layout tokens with in-bounds spans.
    pub open spec fn wf(self) -> bool {
        &&& self.pos <= self.input@.len()
        &&& self.indent_stack@.len() >= 1
        &&& self.indent_stack@[0] == 0
        &&& forall|i: int, j: int|
            0 <= i < j < self.indent_stack@.len() ==> self.indent_stack@[i]
                < self.indent_stack@[j]
        &&& forall|i: int|
            0 <= i < self.pending@.len() ==> is_layout(#[trigger] self.pending@[i].inner)
        &&& forall|i: int|
            0 <= i < self.pending@.len() ==> (#[trigger] self.pending@[i]).span
                == self.pending@[0].span
        &&& (self.pending@.len() > 0 ==> self.pending@[0].span.end.0 <= self.pos)
        &&& forall|i: int|
            0 <= i < self.pending@.len() ==> (#[trigger] self.pending@[i].span).wf()
                && self.pending@[i].span.end.0 <= self.input@.len()
    }

    pub fn new(file_id: FileId, input: &str) -> (lx: Lexer)
        ensures
            lx.wf(),
            lx.pos == 0,
            lx.file_id == file_id,
            lx.input@ == input@,
            lx.indent_stack@ =~= seq![0usize],
            lx.pending@.len() == 0,
    {
        let n = input.unicode_len();
        let mut chars: Vec<char> = Vec::new();
        let mut i: usize = 0;
        while i < n
            invariant
                i <= n,
                n == input@.len(),
                chars@ =~= input@.subrange(0, i as int),
            decreases n - i,
        {
            chars.push(input.get_char(i));
            i = i + 1;
            proof {
                assert(chars@ =~= input@.subrange(0, i as int));
            }
        }
        proof {
            assert(chars@ =~= input@);
        }
        let mut indent_stack: Vec<usize> = Vec::new();
        indent_stack.push(0);
        Lexer { pos: 0, file_id, input: chars, indent_stack, pending: Vec::new() }
    }

    /// The character under the cursor, or NUL at end of input.
    fn current(&self) -> (c: char)
        ensures
            c == char_at(self.input@, self.pos as int),
    {
        if self.pos < self.input.len() {
            self.input[self.pos]
        } else {
            '\0'
        }
    }

    /// One character of lookahead.
    fn peek(&self) -> (c: char)
        requires
            self.pos < self.input@.len(),
        ensures
            c == char_at(self.input@, self.pos + 1),
    {
        let n = self.input.len();
        if self.pos + 1 < n {
            self.input[self.pos + 1]
        } else {
            '\0'
        }
    }

    /// Move one character forward, saturating at end of input.
    fn advance(&mut self)
        ensures
            *final(self) == (Lexer { pos: final(self).pos, ..*old(self) }),
            old(self).pos < old(self).input@.len() ==> final(self).pos == old(self).pos + 1,
            old(self).pos >= old(self).input@.len() ==> final(self).pos == old(self).pos,
    {
        if self.pos < self.input.len() {
            self.pos = self.pos + 1;
        }
    }

    /// Skip horizontal whitespace (space, tab, carriage return).
    fn skip_whitespace(&mut self)
        requires
            old(self).wf(),
        ensures
            *final(self) == (Lexer { pos: final(self).pos, ..*old(self) }),
            final(self).wf(),
            old(self).pos <= final(self).pos <= final(self).input@.len(),
            forall|i: int|
                old(self).pos <= i < final(self).pos ==> is_horizontal_space(
                    #[trigger] final(self).input@[i],
                ),
            final(self).pos == final(self).input@.len() || !is_horizontal_space(
                final(self).input@[final(self).pos as int],
            ),
    {
        loop
            invariant
                self.wf(),
                *self == (Lexer { pos: self.pos, ..*old(self) }),
                old(self).pos <= self.pos <= self.input@.len(),
                forall|i: int|
                    old(self).pos <= i < self.pos ==> is_horizontal_space(
                        #[trigger] self.input@[i],
                    ),
            ensures
                *self == (Lexer { pos: self.pos, ..*old(self) }),
                old(self).pos <= self.pos <= self.input@.len(),
                forall|i: int|
                    old(self).pos <= i < self.pos ==> is_horizontal_space(
                        #[trigger] self.input@[i],
                    ),
                self.pos == self.input@.len() || !is_horizontal_space(
                    self.input@[self.pos as int],
                ),
            decreases self.input@.len() - self.pos,
        {
            let c = self.current();
            if !(c == ' ' || c == '\t' || c == '\r') {
                break ;
            }
            self.advance();
        }
    }

    /// Read the maximal identifier run at the cursor.
    fn lex_ident(&mut self) -> (r: String)
        requires
            old(self).wf(),
            old(self).pos < old(self).input@.len(),
            is_ident_start(old(self).input@[old(self).pos as int]),
        ensures
            *final(self) == (Lexer { pos: final(self).pos, ..*old(self) }),
            final(self).wf(),
            old(self).pos < final(self).pos <= final(self).input@.len(),
            r@ == final(self).input@.subrange(old(self).pos as int, final(self).pos as int),
            forall|i: int|
                old(self).pos <= i < final(self).pos ==> is_ident_continue(
                    #[trigger] final(self).input@[i],
                ) && final(self).input@[i] != '\n',
            final(self).pos < final(self).input@.len() ==> !is_ident_continue(
                final(self).input@[final(self).pos as int],
            ),
    {
        let start = self.pos;
        proof {
            assert(self.input@[start as int] != '\n');
        }
        loop
            invariant
                self.wf(),
                *self == (Lexer { pos: self.pos, ..*old(self) }),
                start == old(self).pos,
                start < self.input@.len(),
                start <= self.pos <= self.input@.len(),
                is_ident_start(self.input@[start as int]),
                forall|i: int|
                    start <= i < self.pos ==> is_ident_continue(#[trigger] self.input@[i])
                        && self.input@[i] != '\n',
            ensures
                *self == (Lexer { pos: self.pos, ..*old(self) }),
                start < self.pos <= self.input@.len(),
                forall|i: int|
                    start <= i < self.pos ==> is_ident_continue(#[trigger] self.input@[i])
                        && self.input@[i] != '\n',
                self.pos < self.input@.len() ==> !is_ident_continue(
                    self.input@[self.pos as int],
                ),
            decreases self.input@.len() - self.pos,
        {
            let c = self.current();
            if !(char_is_alphanumeric(c) || c == '_') {
                break ;
            }
            self.advance();
        }
        string_from_chars(&self.input, start, self.pos)
    }

    /// Read the maximal digit run at the cursor as an unsigned 64-bit
    /// value; a run whose value does not fit yields `NumberTooLarge`
    /// spanning the whole run.
    fn lex_num(&mut self) -> (r: Result<u64, LexerError>)
        requires
            old(self).wf(),
            old(self).pos < old(self).input@.len(),
            is_digit(old(self).input@[old(self).pos as int]),
        ensures
            *final(self) == (Lexer { pos: final(self).pos, ..*old(self) }),
            final(self).wf(),
            old(self).pos < final(self).pos <= final(self).input@.len(),
            forall|i: int|
                old(self).pos <= i < final(self).pos ==> is_digit(
                    #[trigger] final(self).input@[i],
                ),
            final(self).pos < final(self).input@.len() ==> !is_digit(
                final(self).input@[final(self).pos as int],
            ),
            ({
                let run = final(self).input@.subrange(
                    old(self).pos as int,
                    final(self).pos as int,
                );
                match r {
                    Ok(v) => digits_val(run) <= u64::MAX && v == digits_val(run),
                    Err(e) => digits_val(run) > u64::MAX && e == (LexerError::NumberTooLarge {
                        span: Span {
                            start: BytePos(old(self).pos),
                            end: BytePos(final(self).pos),
                        },
                        file_id: old(self).file_id,
                    }),
                }
            }),
    {
        let start = self.pos;
        let mut value: u64 = 0;
        let mut too_large = false;
        loop
            invariant
                self.wf(),
                *self == (Lexer { pos: self.pos, ..*old(self) }),
                start == old(self).pos,
                start < self.input@.len(),
                start <= self.pos <= self.input@.len(),
                is_digit(self.input@[start as int]),
                forall|i: int| start <= i < self.pos ==> is_digit(#[trigger] self.input@[i]),
                !too_large ==> value == digits_val(
                    self.input@.subrange(start as int, self.pos as int),
                ),
                too_large ==> digits_val(self.input@.subrange(start as int, self.pos as int))
                    > u64::MAX,
            ensures
                *self == (Lexer { pos: self.pos, ..*old(self) }),
                start < self.pos <= self.input@.len(),
                forall|i: int| start <= i < self.pos ==> is_digit(#[trigger] self.input@[i]),
                self.pos < self.input@.len() ==> !is_digit(self.input@[self.pos as int]),
                !too_large ==> value == digits_val(
                    self.input@.subrange(start as int, self.pos as int),
                ),
                too_large ==> digits_val(self.input@.subrange(start as int, self.pos as int))
                    > u64::MAX,
            decreases self.input@.len() - self.pos,
        {
            let c = self.current();
            if !('0' as u32 <= c as u32 && c as u32 <= '9' as u32) {
                break ;
            }
            let ghost before = self.input@.subrange(start as int, self.pos as int);
            let d = (c as u32) - ('0' as u32);
            let wide = (value as u128) * 10 + (d as u128);
            if wide > u64::MAX as u128 {
                too_large = true;
            } else if !too_large {
                value = wide as u64;
            }
            self.advance();
            proof {
                let now = self.input@.subrange(start as int, self.pos as int);
                assert(now.drop_last() =~= before);
                assert(digits_val(now) == digits_val(before) * 10 + digit_val(now.last()));
            }
        }
        if too_large {
            Err(
                LexerError::NumberTooLarge {
                    span: Span { start: BytePos(start), end: BytePos(self.pos) },
                    file_id: self.file_id,
                },
            )
        } else {
            Ok(value)
        }
    }

    /// Count the run of spaces at the cursor: the width of the
    /// indentation that begins a line.
    fn count_indent(&mut self) -> (n: usize)
        requires
            old(self).wf(),
        ensures
            *final(self) == (Lexer { pos: final(self).pos, ..*old(self) }),
            final(self).wf(),
            old(self).pos <= final(self).pos <= final(self).input@.len(),
            n == final(self).pos - old(self).pos,
            forall|i: int|
                old(self).pos <= i < final(self).pos ==> #[trigger] final(self).input@[i] == ' ',
            final(self).pos < final(self).input@.len() ==> final(self).input@[final(self).pos as int] != ' ',
    {
        let start = self.pos;
        loop
            invariant
                self.wf(),
                *self == (Lexer { pos: self.pos, ..*old(self) }),
                start == old(self).pos,
                start <= self.pos <= self.input@.len(),
                forall|i: int| start <= i < self.pos ==> #[trigger] self.input@[i] == ' ',
            ensures
                *self == (Lexer { pos: self.pos, ..*old(self) }),
                start <= self.pos <= self.input@.len(),
                forall|i: int| start <= i < self.pos ==> #[trigger] self.input@[i] == ' ',
                self.pos < self.input@.len() ==> self.input@[self.pos as int] != ' ',
            decreases self.input@.len() - self.pos,
        {
            let c = self.current();
            if c != ' ' {
                break ;
            }
            self.advance();
        }
        self.pos - start
    }

    /// Consume a line break and the indentation that follows it,
    /// queueing the layout tokens it gives rise to: an Indent or the
    /// Dedents first, then the Newline for the break itself. A width
    /// matching no open level is an `InvalidIndentation` error; the
    /// Dedents already produced stay queued.
    fn handle_newline(&mut self) -> (r: Result<(), LexerError>)
        requires
            old(self).wf(),
            old(self).pending@.len() == 0,
            old(self).pos < old(self).input@.len(),
            old(self).input@[old(self).pos as int] == '\n',
        ensures
            final(self).wf(),
            final(self).input == old(self).input,
            final(self).file_id == old(self).file_id,
            old(self).pos < final(self).pos <= final(self).input@.len(),
            count_char(
                final(self).input@.subrange(old(self).pos as int, final(self).pos as int),
                '\n',
            ) == 1,
            final(self).indent_stack@.len() - net_layout(final(self).pending@) == old(
                self,
            ).indent_stack@.len(),
            final(self).pending@.len() > 0 ==> final(self).pending@[0].span.start.0 == old(
                self,
            ).pos && final(self).pending@[0].span.end.0 == final(self).pos,
            forall|i: int|
                old(self).pos + 1 <= i < final(self).pos ==> #[trigger] final(self).input@[i]
                    == ' ',
            final(self).pos == final(self).input@.len() || final(self).input@[final(self).pos as int] != ' ',
            ({
                let width = final(self).pos - old(self).pos - 1;
                let stack0 = old(self).indent_stack@;
                let top0 = stack0[stack0.len() - 1] as int;
                &&& (r is Ok <==> (width > top0 || exists|j: int|
                    0 <= j < stack0.len() && #[trigger] stack0[j] as int == width))
                &&& (width > top0 ==> final(self).indent_stack@ == stack0.push(width as usize)
                    && final(self).pending@.len() == 2 && final(self).pending@[0].inner
                    == TokenKind::Indent && final(self).pending@[1].inner == TokenKind::Newline)
                &&& (width <= top0 ==> final(self).indent_stack@.len() <= stack0.len() && final(self).indent_stack@ == stack0.subrange(
                    0,
                    final(self).indent_stack@.len() as int,
                ) && (forall|j: int|
                    final(self).indent_stack@.len() <= j < stack0.len()
                        ==> #[trigger] stack0[j] as int > width) && count_kind(
                    final(self).pending@,
                    TokenKind::Dedent,
                ) == stack0.len() - final(self).indent_stack@.len() && final(self).indent_stack@.last() as int <= width)
            }),
            match r {
                Ok(u) => final(self).pending@.len() >= 1 && count_kind(
                    final(self).pending@,
                    TokenKind::Newline,
                ) == 1,
                Err(e) => count_kind(final(self).pending@, TokenKind::Newline) == 0 && e
                    == (LexerError::InvalidIndentation {
                    span: Span { start: BytePos(final(self).pos), end: BytePos(final(self).pos) },
                    file_id: old(self).file_id,
                }),
            },
    {
        let nl_pos = self.pos;
        self.advance();
        let indent = self.count_indent();
        let sp = Span::new(BytePos(nl_pos), BytePos(self.pos));
        proof {
            let first = seq![self.input@[nl_pos as int]];
            let rest = self.input@.subrange(nl_pos + 1, self.pos as int);
            let sub = self.input@.subrange(nl_pos as int, self.pos as int);
            assert(sub =~= first + rest);
            assert forall|i: int| 0 <= i < rest.len() implies rest[i] != '\n' by {
                assert(self.input@[nl_pos + 1 + i] == ' ');
            }
            lemma_count_char_absent(rest, '\n');
            lemma_count_char_singleton(self.input@[nl_pos as int], '\n');
            lemma_count_char_append(first, rest, '\n');
            assert(count_char(sub, '\n') == 1);
        }
        let top = self.indent_stack[self.indent_stack.len() - 1];
        if indent > top {
            self.indent_stack.push(indent);
            let ghost q0 = self.pending@;
            self.pending.push(Spanned { inner: TokenKind::Indent, span: sp });
            let ghost q1 = self.pending@;
            self.pending.push(Spanned { inner: TokenKind::Newline, span: sp });
            proof {
                lemma_net_layout_push(q0, Spanned { inner: TokenKind::Indent, span: sp });
                lemma_net_layout_push(q1, Spanned { inner: TokenKind::Newline, span: sp });
            }
            Ok(())
        } else if indent < top {
            let ghost mid = *self;
            proof {
                assert(self.indent_stack@ =~= mid.indent_stack@.subrange(
                    0,
                    self.indent_stack@.len() as int,
                ));
            }
            loop
                invariant
                    self.input == mid.input,
                    self.file_id == mid.file_id,
                    self.pos == mid.pos,
                    mid.pos <= self.input@.len(),
                    self.indent_stack@.len() >= 1,
                    self.indent_stack@[0] == 0,
                    forall|i: int, j: int|
                        0 <= i < j < self.indent_stack@.len() ==> self.indent_stack@[i]
                            < self.indent_stack@[j],
                    sp.wf() && sp.end.0 <= self.input@.len(),
                    forall|i: int|
                        0 <= i < self.pending@.len() ==> #[trigger] self.pending@[i] == (Spanned {
                            inner: TokenKind::Dedent,
                            span: sp,
                        }),
                    count_kind(self.pending@, TokenKind::Indent) == 0,
                    count_kind(self.pending@, TokenKind::Dedent) == self.pending@.len(),
                    count_kind(self.pending@, TokenKind::Newline) == 0,
                    self.indent_stack@.len() + self.pending@.len() == mid.indent_stack@.len(),
                    self.indent_stack@ == mid.indent_stack@.subrange(
                        0,
                        self.indent_stack@.len() as int,
                    ),
                    forall|j: int|
                        self.indent_stack@.len() <= j < mid.indent_stack@.len()
                            ==> #[trigger] mid.indent_stack@[j] > indent,
                ensures
                    self.input == mid.input,
                    self.file_id == mid.file_id,
                    self.pos == mid.pos,
                    self.indent_stack@.len() >= 1,
                    self.indent_stack@[0] == 0,
                    forall|i: int, j: int|
                        0 <= i < j < self.indent_stack@.len() ==> self.indent_stack@[i]
                            < self.indent_stack@[j],
                    forall|i: int|
                        0 <= i < self.pending@.len() ==> #[trigger] self.pending@[i] == (Spanned {
                            inner: TokenKind::Dedent,
                            span: sp,
                        }),
                    count_kind(self.pending@, TokenKind::Indent) == 0,
                    count_kind(self.pending@, TokenKind::Dedent) == self.pending@.len(),
                    count_kind(self.pending@, TokenKind::Newline) == 0,
                    self.indent_stack@.len() + self.pending@.len() == mid.indent_stack@.len(),
                    self.indent_stack@ == mid.indent_stack@.subrange(
                        0,
                        self.indent_stack@.len() as int,
                    ),
                    forall|j: int|
                        self.indent_stack@.len() <= j < mid.indent_stack@.len()
                            ==> #[trigger] mid.indent_stack@[j] > indent,
                    self.indent_stack@[self.indent_stack@.len() - 1] <= indent,
                decreases self.indent_stack@.len(),
            {
                let k = self.indent_stack.len();
                if self.indent_stack[k - 1] > indent {
                    let ghost st0 = self.indent_stack@;
                    self.indent_stack.pop();
                    proof {
                        assert(self.indent_stack@ =~= st0.drop_last());
                        assert(self.indent_stack@ =~= mid.indent_stack@.subrange(
                            0,
                            self.indent_stack@.len() as int,
                        ));
                    }
                    let ghost q0 = self.pending@;
                    self.pending.push(Spanned { inner: TokenKind::Dedent, span: sp });
                    proof {
                        lemma_net_layout_push(q0, Spanned { inner: TokenKind::Dedent, span: sp });
                    }
                } else {
                    break ;
                }
            }
            if self.indent_stack[self.indent_stack.len() - 1] != indent {
                proof {
                    let stack0 = old(self).indent_stack@;
                    let n = self.indent_stack@.len() as int;
                    assert forall|j: int| 0 <= j < stack0.len() implies #[trigger] stack0[j] as int
                        != indent by {
                        if j < n {
                            assert(stack0[j] == self.indent_stack@[j]);
                            if j < n - 1 {
                                assert(self.indent_stack@[j] < self.indent_stack@[n - 1]);
                            }
                        }
                    }
                }
                Err(
                    LexerError::InvalidIndentation {
                        span: Span { start: BytePos(self.pos), end: BytePos(self.pos) },
                        file_id: self.file_id,
                    },
                )
            } else {
                let ghost q0 = self.pending@;
                self.pending.push(Spanned { inner: TokenKind::Newline, span: sp });
                proof {
                    lemma_net_layout_push(q0, Spanned { inner: TokenKind::Newline, span: sp });
                }
                Ok(())
            }
        } else {
            let ghost q0 = self.pending@;
            self.pending.push(Spanned { inner: TokenKind::Newline, span: sp });
            proof {
                lemma_net_layout_push(q0, Spanned { inner: TokenKind::Newline, span: sp });
                assert(self.indent_stack@ =~= old(self).indent_stack@.subrange(
                    0,
                    self.indent_stack@.len() as int,
                ));
            }
            Ok(())
        }
    }

    /// Read the single token that starts at the cursor: an operator,
    /// a delimiter, a keyword, an identifier or a number. Never a
    /// layout token and never Eof.
    fn lex_symbol(&mut self) -> (r: Result<Token, LexerError>)
        requires
            old(self).wf(),
            old(self).pos < old(self).input@.len(),
            old(self).input@[old(self).pos as int] != '\n',
        ensures
            *final(self) == (Lexer { pos: final(self).pos, ..*old(self) }),
            final(self).wf(),
            old(self).pos <= final(self).pos <= final(self).input@.len(),
            forall|i: int|
                old(self).pos <= i < final(self).pos ==> #[trigger] final(self).input@[i] != '\n',
            match r {
                Ok(tok) => {
                    &&& tok.span.wf()
                    &&& tok.span.start.0 == old(self).pos
                    &&& tok.span.end.0 == final(self).pos
                    &&& !is_layout(tok.inner)
                    &&& tok.inner != TokenKind::Eof
                    &&& final(self).pos > old(self).pos
                    &&& symbol_token(final(self).input@, old(self).pos as int, tok)
                    &&& symbol_ok(final(self).input@, old(self).pos as int)
                    &&& final(self).pos == symbol_end(final(self).input@, old(self).pos as int)
                },
                Err(e) => {
                    &&& (final(self).pos == old(self).pos ==> old(self).pos < old(
                        self,
                    ).input@.len())
                    &&& lex_error_wf(e, final(self).input@, old(self).file_id)
                    &&& !symbol_ok(final(self).input@, old(self).pos as int)
                    &&& old(self).pos <= lex_error_span(e).start.0 <= final(self).pos
                    &&& (if is_digit(char_at(final(self).input@, old(self).pos as int)) {
                        e == (LexerError::NumberTooLarge {
                            span: Span {
                                start: BytePos(old(self).pos),
                                end: BytePos(final(self).pos),
                            },
                            file_id: old(self).file_id,
                        }) && final(self).pos == digit_run_end(
                            final(self).input@,
                            old(self).pos as int,
                        )
                    } else {
                        e == (LexerError::UnexpectedCharacter {
                            ch: char_at(final(self).input@, old(self).pos as int),
                            span: Span { start: BytePos(old(self).pos), end: BytePos(old(self).pos) },
                            file_id: old(self).file_id,
                        }) && final(self).pos == old(self).pos
                    })
                },
            },
    {
        let pos = self.pos;
        let ch = self.current();
        if ch == '(' {
            self.advance();
            return Ok(
                Spanned { inner: TokenKind::LParen, span: Span::new(BytePos(pos), BytePos(self.pos)) },
            );
        }
        if ch == ')' {
            self.advance();
            return Ok(
                Spanned { inner: TokenKind::RParen, span: Span::new(BytePos(pos), BytePos(self.pos)) },
            );
        }
        if ch == '.' {
            self.advance();
            return Ok(
                Spanned { inner: TokenKind::Dot, span: Span::new(BytePos(pos), BytePos(self.pos)) },
            );
        }
        if ch == ',' {
            self.advance();
            return Ok(
                Spanned { inner: TokenKind::Comma, span: Span::new(BytePos(pos), BytePos(self.pos)) },
            );
        }
        if ch == ':' {
            self.advance();
            return Ok(
                Spanned { inner: TokenKind::Colon, span: Span::new(BytePos(pos), BytePos(self.pos)) },
            );
        }
        if ch == '+' {
            self.advance();
            return Ok(
                Spanned { inner: TokenKind::Plus, span: Span::new(BytePos(pos), BytePos(self.pos)) },
            );
        }
        if ch == '*' {
            self.advance();
            return Ok(
                Spanned { inner: TokenKind::Star, span: Span::new(BytePos(pos), BytePos(self.pos)) },
            );
        }
        if ch == '/' {
            self.advance();
            return Ok(
                Spanned { inner: TokenKind::Slash, span: Span::new(BytePos(pos), BytePos(self.pos)) },
            );
        }
        if ch == '=' {
            self.advance();
            return Ok(
                Spanned { inner: TokenKind::Equal, span: Span::new(BytePos(pos), BytePos(self.pos)) },
            );
        }
        if ch == '-' {
            self.advance();
            let c2 = self.current();
            if c2 == '>' {
                self.advance();
                return Ok(
                    Spanned {
                        inner: TokenKind::Arrow,
                        span: Span::new(BytePos(pos), BytePos(self.pos)),
                    },
                );
            }
            return Ok(
                Spanned { inner: TokenKind::Minus, span: Span::new(BytePos(pos), BytePos(self.pos)) },
            );
        }
        if ch == '<' {
            self.advance();
            let c2 = self.current();
            if c2 == '>' {
                self.advance();
                return Ok(
                    Spanned {
                        inner: TokenKind::NotEqual,
                        span: Span::new(BytePos(pos), BytePos(self.pos)),
                    },
                );
            }
            if c2 == '=' {
                self.advance();
                return Ok(
                    Spanned {
                        inner: TokenKind::LessEqual,
                        span: Span::new(BytePos(pos), BytePos(self.pos)),
                    },
                );
            }
            return Ok(
                Spanned { inner: TokenKind::Less, span: Span::new(BytePos(pos), BytePos(self.pos)) },
            );
        }
        if ch == '>' {
            self.advance();
            let c2 = self.current();
            if c2 == '=' {
                self.advance();
                return Ok(
                    Spanned {
                        inner: TokenKind::GreaterEqual,
                        span: Span::new(BytePos(pos), BytePos(self.pos)),
                    },
                );
            }
            return Ok(
                Spanned {
                    inner: TokenKind::Greater,
                    span: Span::new(BytePos(pos), BytePos(self.pos)),
                },
            );
        }
        if ch == '&' {
            if self.peek() == '&' {
                self.advance();
                self.advance();
                return Ok(
                    Spanned {
                        inner: TokenKind::And,
                        span: Span::new(BytePos(pos), BytePos(self.pos)),
                    },
                );
            }
            return Err(
                LexerError::UnexpectedCharacter {
                    ch,
                    span: Span::new(BytePos(pos), BytePos(pos)),
                    file_id: self.file_id,
                },
            );
        }
        if ch == '|' {
            if self.peek() == '|' {
                self.advance();
                self.advance();
                return Ok(
                    Spanned {
                        inner: TokenKind::Or,
                        span: Span::new(BytePos(pos), BytePos(self.pos)),
                    },
                );
            }
            return Err(
                LexerError::UnexpectedCharacter {
                    ch,
                    span: Span::new(BytePos(pos), BytePos(pos)),
                    file_id: self.file_id,
                },
            );
        }
        if ('a' as u32 <= ch as u32 && ch as u32 <= 'z' as u32) || ('A' as u32 <= ch as u32 && ch
            as u32 <= 'Z' as u32) || ch == '_' {
            let text = self.lex_ident();
            proof {
                lemma_ident_run_end(self.input@, pos as int, self.pos as int);
            }
            let kind = if crate::strings::str_eq(text.as_str(), "let") {
                TokenKind::Let
            } else if crate::strings::str_eq(text.as_str(), "mod") {
                TokenKind::Mod
            } else if crate::strings::str_eq(text.as_str(), "fn") {
                TokenKind::Fn
            } else if crate::strings::str_eq(text.as_str(), "not") {
                TokenKind::Not
            } else if crate::strings::str_eq(text.as_str(), "u64") {
                TokenKind::U64
            } else if crate::strings::str_eq(text.as_str(), "i64") {
                TokenKind::I64
            } else if crate::strings::str_eq(text.as_str(), "true") {
                TokenKind::BoolLiteral(true)
            } else if crate::strings::str_eq(text.as_str(), "false") {
                TokenKind::BoolLiteral(false)
            } else {
                TokenKind::Ident(text)
            };
            return Ok(Spanned { inner: kind, span: Span::new(BytePos(pos), BytePos(self.pos)) });
        }
        if '0' as u32 <= ch as u32 && ch as u32 <= '9' as u32 {
            match self.lex_num() {
                Ok(v) => {
                    proof {
                        lemma_digit_run_end(self.input@, pos as int, self.pos as int);
                    }
                    return Ok(
                        Spanned {
                            inner: TokenKind::IntLiteral(v),
                            span: Span::new(BytePos(pos), BytePos(self.pos)),
                        },
                    );
                },
                Err(e) => {
                    proof {
                        lemma_digit_run_end(self.input@, pos as int, self.pos as int);
                    }
                    return Err(e);
                },
            }
        }
        Err(
            LexerError::UnexpectedCharacter {
                ch,
                span: Span::new(BytePos(pos), BytePos(pos)),
                file_id: self.file_id,
            },
        )
    }

    /// Produce the next token: queued layout tokens first, otherwise
    /// the token at the cursor after skipping horizontal whitespace.
    #[verifier::rlimit(100)]
    fn next_token(&mut self) -> (r: Result<Token, LexerError>)
        requires
            old(self).wf(),
        ensures
            final(self).wf(),
            final(self).input == old(self).input,
            final(self).file_id == old(self).file_id,
            final(self).pos >= old(self).pos,
            match r {
                Ok(tok) => {
                    &&& tok.span.wf() && tok.span.end.0 <= final(self).input@.len()
                    &&& !is_layout(tok.inner) && tok.inner != TokenKind::Eof ==> symbol_token(
                        final(self).input@,
                        tok.span.start.0 as int,
                        tok,
                    ) && old(self).pending@.len() == 0 && tok.span.start.0 == ws_run_end(
                        final(self).input@,
                        old(self).pos as int,
                    )
                    &&& tok.span.start.0 >= span_floor(*old(self))
                    &&& tok.span.end.0 >= span_floor_end(*old(self))
                    &&& span_floor(*final(self)) >= tok.span.start.0
                    &&& span_floor_end(*final(self)) >= tok.span.end.0
                    &&& final(self).indent_stack@.len() - net_layout(final(self).pending@) == old(
                        self,
                    ).indent_stack@.len() - net_layout(old(self).pending@) + tok_net(tok.inner)
                    &&& (if tok.inner == TokenKind::Newline {
                        1int
                    } else {
                        0int
                    }) + count_kind(final(self).pending@, TokenKind::Newline) == count_kind(
                        old(self).pending@,
                        TokenKind::Newline,
                    ) + count_char(
                        final(self).input@.subrange(old(self).pos as int, final(self).pos as int),
                        '\n',
                    )
                    &&& tok.inner != TokenKind::Eof ==> (final(self).pos > old(self).pos || final(self).pending@.len() < old(self).pending@.len())
                    &&& tok.inner == TokenKind::Eof ==> final(self).pending@.len() == 0 && old(
                        self,
                    ).pending@.len() == 0 && final(self).indent_stack == old(self).indent_stack
                        && final(self).pos == final(self).input@.len() && tok.span == (Span {
                        start: BytePos(final(self).pos),
                        end: BytePos(final(self).pos),
                    })
                    &&& scan_faults(
                        final(self).input@,
                        old(self).pos as int,
                        old(self).indent_stack@,
                        old(self).file_id,
                    ) == scan_faults(
                        final(self).input@,
                        final(self).pos as int,
                        final(self).indent_stack@,
                        old(self).file_id,
                    )
                },
                Err(e) => {
                    &&& final(self).indent_stack@.len() - net_layout(final(self).pending@) == old(
                        self,
                    ).indent_stack@.len() - net_layout(old(self).pending@)
                    &&& (final(self).pos == old(self).pos ==> old(self).pos < old(
                        self,
                    ).input@.len())
                    &&& lex_error_wf(e, final(self).input@, old(self).file_id)
                    &&& old(self).pos <= lex_error_span(e).start.0 <= final(self).pos
                    &&& span_floor(*final(self)) >= span_floor(*old(self))
                    &&& span_floor_end(*final(self)) >= span_floor_end(*old(self))
                    &&& scan_faults(
                        final(self).input@,
                        old(self).pos as int,
                        old(self).indent_stack@,
                        old(self).file_id,
                    ) == seq![e] + (if final(self).pos < final(self).input@.len() {
                        scan_faults(
                            final(self).input@,
                            final(self).pos + 1,
                            final(self).indent_stack@,
                            old(self).file_id,
                        )
                    } else {
                        Seq::<LexerError>::empty()
                    })
                },
            },
    {
        if self.pending.len() > 0 {
            let ghost q0 = self.pending@;
            let tok = self.pending.remove(0);
            proof {
                assert(q0 =~= seq![tok] + self.pending@);
                lemma_count_kind_append(seq![tok], self.pending@, TokenKind::Indent);
                lemma_count_kind_append(seq![tok], self.pending@, TokenKind::Dedent);
                lemma_count_kind_append(seq![tok], self.pending@, TokenKind::Newline);
                lemma_count_kind_singleton(tok, TokenKind::Indent);
                lemma_count_kind_singleton(tok, TokenKind::Dedent);
                lemma_count_kind_singleton(tok, TokenKind::Newline);
                assert(self.input@.subrange(self.pos as int, self.pos as int)
                    =~= Seq::<char>::empty());
            }
            return Ok(tok);
        }
        self.skip_whitespace();
        let ghost mid = self.pos as int;
        let pos = self.pos;
        let ch = self.current();
        proof {
            let ws = self.input@.subrange(old(self).pos as int, mid);
            assert forall|i: int| 0 <= i < ws.len() implies ws[i] != '\n' by {
                assert(is_horizontal_space(self.input@[old(self).pos + i]));
            }
            lemma_count_char_absent(ws, '\n');
        }
        if self.pos >= self.input.len() {
            proof {
                lemma_ws_run_end(self.input@, old(self).pos as int, mid);
                assert(scan_faults(
                    self.input@,
                    old(self).pos as int,
                    old(self).indent_stack@,
                    old(self).file_id,
                ) =~= Seq::<LexerError>::empty());
                assert(scan_faults(
                    self.input@,
                    self.pos as int,
                    self.indent_stack@,
                    old(self).file_id,
                ) =~= Seq::<LexerError>::empty());
            }
            return Ok(
                Spanned { inner: TokenKind::Eof, span: Span::new(BytePos(pos), BytePos(pos)) },
            );
        }
        if ch == '\n' {
            let ghost stack0 = self.indent_stack@;
            match self.handle_newline() {
                Ok(u) => {
                    proof {
                        lemma_ws_run_end(self.input@, old(self).pos as int, mid);
                        lemma_space_run_end(self.input@, mid + 1, self.pos as int);
                        let width = self.pos - mid - 1;
                        if width <= stack0.last() as int {
                            lemma_dedent_keep(
                                stack0,
                                width,
                                self.indent_stack@.len() as int,
                            );
                        }
                    }
                    let ghost q0 = self.pending@;
                    let tok = self.pending.remove(0);
                    proof {
                        assert(q0 =~= seq![tok] + self.pending@);
                        lemma_count_kind_append(seq![tok], self.pending@, TokenKind::Indent);
                        lemma_count_kind_append(seq![tok], self.pending@, TokenKind::Dedent);
                        lemma_count_kind_append(seq![tok], self.pending@, TokenKind::Newline);
                        lemma_count_kind_singleton(tok, TokenKind::Indent);
                        lemma_count_kind_singleton(tok, TokenKind::Dedent);
                        lemma_count_kind_singleton(tok, TokenKind::Newline);
                        let ws = self.input@.subrange(old(self).pos as int, mid);
                        let nl = self.input@.subrange(mid, self.pos as int);
                        assert(self.input@.subrange(old(self).pos as int, self.pos as int) =~= ws
                            + nl);
                        lemma_count_char_append(ws, nl, '\n');
                    }
                    return Ok(tok);
                },
                Err(e) => {
                    proof {
                        lemma_ws_run_end(self.input@, old(self).pos as int, mid);
                        lemma_space_run_end(self.input@, mid + 1, self.pos as int);
                        let width = self.pos - mid - 1;
                        lemma_dedent_keep(stack0, width, self.indent_stack@.len() as int);
                    }
                    return Err(e);
                },
            }
        }
        let r = self.lex_symbol();
        proof {
            lemma_ws_run_end(self.input@, old(self).pos as int, mid);
            let ws = self.input@.subrange(old(self).pos as int, mid);
            let sym = self.input@.subrange(mid, self.pos as int);
            assert(self.input@.subrange(old(self).pos as int, self.pos as int) =~= ws + sym);
            assert forall|i: int| 0 <= i < sym.len() implies sym[i] != '\n' by {
                assert(self.input@[mid + i] != '\n');
            }
            lemma_count_char_absent(sym, '\n');
            lemma_count_char_append(ws, sym, '\n');
        }
        r
    }

    /// Scan the whole input. On success the token sequence ends in
    /// exactly one Eof, every Indent is matched by a Dedent, and (for
    /// NUL-free input) each line feed produced exactly one Newline
    /// token; on failure, every error encountered is reported, in
    /// order.
    #[verifier::rlimit(100)]
    pub fn lex_all(&mut self) -> (r: Result<Vec<Token>, Vec<LexerError>>)
        requires
            old(self).wf(),
            old(self).pos == 0,
            old(self).pending@.len() == 0,
            old(self).indent_stack@.len() == 1,
        ensures
            final(self).wf(),
            final(self).input == old(self).input,
            final(self).pos == final(self).input@.len(),
            ({
                let faults = scan_faults(
                    old(self).input@,
                    0,
                    old(self).indent_stack@,
                    old(self).file_id,
                );
                &&& (r is Ok <==> faults.len() == 0)
                &&& (r matches Err(errs) ==> errs@ == faults)
            }),
            match r {
                Ok(tokens) => {
                    &&& forall|i: int|
                        0 <= i < tokens@.len() ==> is_layout(#[trigger] tokens@[i].inner)
                            || tokens@[i].inner == TokenKind::Eof || symbol_token(
                            old(self).input@,
                            tokens@[i].span.start.0 as int,
                            tokens@[i],
                        )
                    &&& tokens@.len() >= 1
                    &&& tokens@.last().inner == TokenKind::Eof
                    &&& forall|i: int|
                        0 <= i < tokens@.len() - 1 ==> (#[trigger] tokens@[i].inner)
                            != TokenKind::Eof
                    &&& count_kind(tokens@, TokenKind::Indent) == count_kind(
                        tokens@,
                        TokenKind::Dedent,
                    )
                    &&& forall|i: int|
                        0 <= i < tokens@.len() ==> (#[trigger] tokens@[i].span).wf()
                            && tokens@[i].span.end.0 <= old(self).input@.len()
                    &&& spans_ordered(tokens@)
                    &&& tokens@.last().span == (Span {
                        start: BytePos(final(self).input@.len() as usize),
                        end: BytePos(final(self).input@.len() as usize),
                    })
                    &&& final(self).indent_stack@.len() == 1
                    &&& count_kind(tokens@, TokenKind::Newline) == count_char(
                        old(self).input@,
                        '\n',
                    )
                },
                Err(errs) => errs@.len() >= 1 && (forall|i: int|
                    0 <= i < errs@.len() ==> lex_error_wf(
                        #[trigger] errs@[i],
                        old(self).input@,
                        old(self).file_id,
                    )) && (forall|i: int|
                    0 <= i < errs@.len() - 1 ==> lex_error_span(#[trigger] errs@[i]).start.0
                        <= lex_error_span(errs@[i + 1]).start.0),
            },
    {
        let mut tokens: Vec<Token> = Vec::new();
        let mut errors: Vec<LexerError> = Vec::new();
        proof {
            assert(self.input@.subrange(0, 0) =~= Seq::<char>::empty());
        }
        loop
            invariant_except_break
                forall|i: int|
                    0 <= i < tokens@.len() ==> (#[trigger] tokens@[i].inner) != TokenKind::Eof,
                errors@.len() == 0 ==> count_kind(tokens@, TokenKind::Newline) + count_kind(
                    self.pending@,
                    TokenKind::Newline,
                ) == count_char(self.input@.subrange(0, self.pos as int), '\n'),
            invariant
                self.wf(),
                self.input == old(self).input,
                self.file_id == old(self).file_id,
                forall|i: int|
                    0 <= i < errors@.len() ==> lex_error_wf(
                        #[trigger] errors@[i],
                        self.input@,
                        self.file_id,
                    ),
                forall|i: int|
                    0 <= i < errors@.len() - 1 ==> lex_error_span(
                        #[trigger] errors@[i],
                    ).start.0 <= lex_error_span(errors@[i + 1]).start.0,
                errors@.len() > 0 ==> lex_error_span(errors@.last()).start.0 <= self.pos,
                scan_faults(self.input@, 0, old(self).indent_stack@, self.file_id) == errors@
                    + scan_faults(self.input@, self.pos as int, self.indent_stack@, self.file_id),
                net_layout(tokens@) == self.indent_stack@.len() - 1 - net_layout(self.pending@),
                forall|i: int|
                    0 <= i < tokens@.len() ==> (#[trigger] tokens@[i].span).wf()
                        && tokens@[i].span.end.0 <= self.input@.len(),
                spans_ordered(tokens@),
                forall|i: int|
                    0 <= i < tokens@.len() ==> is_layout(#[trigger] tokens@[i].inner)
                        || tokens@[i].inner == TokenKind::Eof || symbol_token(
                        self.input@,
                        tokens@[i].span.start.0 as int,
                        tokens@[i],
                    ),
                tokens@.len() > 0 ==> tokens@.last().span.start.0 <= span_floor(*self)
                    && tokens@.last().span.end.0 <= span_floor_end(*self),
            ensures
                self.wf(),
                self.input == old(self).input,
                scan_faults(self.input@, 0, old(self).indent_stack@, self.file_id) == errors@
                    + scan_faults(self.input@, self.pos as int, self.indent_stack@, self.file_id),
                errors@.len() == 0 ==> ({
                    &&& tokens@.len() >= 1
                    &&& tokens@.last().inner == TokenKind::Eof
                    &&& forall|i: int|
                        0 <= i < tokens@.len() - 1 ==> (#[trigger] tokens@[i].inner)
                            != TokenKind::Eof
                    &&& net_layout(tokens@) == 0
                    &&& self.indent_stack@.len() == 1
                    &&& forall|i: int|
                        0 <= i < tokens@.len() ==> (#[trigger] tokens@[i].span).wf()
                            && tokens@[i].span.end.0 <= self.input@.len()
                    &&& spans_ordered(tokens@)
                    &&& forall|i: int|
                        0 <= i < tokens@.len() ==> is_layout(#[trigger] tokens@[i].inner)
                            || tokens@[i].inner == TokenKind::Eof || symbol_token(
                            self.input@,
                            tokens@[i].span.start.0 as int,
                            tokens@[i],
                        )
                    &&& count_kind(tokens@, TokenKind::Newline) == count_char(
                        self.input@.subrange(0, self.pos as int),
                        '\n',
                    )
                    &&& tokens@.last().span == (Span {
                        start: BytePos(self.pos),
                        end: BytePos(self.pos),
                    })
                }),
                self.pos == self.input@.len(),
            decreases self.input@.len() - self.pos, self.pending@.len(),
        {
            let ghost pre = *self;
            let ghost pre_tokens = tokens@;
            match self.next_token() {
                Ok(tok) => {
                    let is_eof = matches!(&tok.inner, TokenKind::Eof);
                    if is_eof {
                        let eof_span = tok.span;
                        let ghost unwind_start = *self;
                        let ghost tokens_at_eof = tokens@;
                        loop
                            invariant
                                self.input == unwind_start.input,
                                self.file_id == unwind_start.file_id,
                                self.pos == unwind_start.pos,
                                self.pending@.len() == 0,
                                self.indent_stack@.len() >= 1,
                                self.indent_stack@[0] == 0,
                                forall|i: int, j: int|
                                    0 <= i < j < self.indent_stack@.len()
                                        ==> self.indent_stack@[i] < self.indent_stack@[j],
                                self.pos <= self.input@.len(),
                                eof_span.wf() && eof_span.end.0 <= self.input@.len(),
                                net_layout(tokens@) == self.indent_stack@.len() - 1,
                                forall|i: int|
                                    0 <= i < tokens@.len() ==> (#[trigger] tokens@[i].inner)
                                        != TokenKind::Eof,
                                forall|i: int|
                                    0 <= i < tokens@.len() ==> (#[trigger] tokens@[i].span).wf()
                                        && tokens@[i].span.end.0 <= self.input@.len(),
                                spans_ordered(tokens@),
                                forall|i: int|
                                    0 <= i < tokens@.len() ==> is_layout(
                                        #[trigger] tokens@[i].inner,
                                    ) || tokens@[i].inner == TokenKind::Eof || symbol_token(
                                        self.input@,
                                        tokens@[i].span.start.0 as int,
                                        tokens@[i],
                                    ),
                                tokens@.len() > 0 ==> tokens@.last().span.start.0
                                    <= eof_span.start.0 && tokens@.last().span.end.0
                                    <= eof_span.end.0,
                                count_kind(tokens@, TokenKind::Newline) == count_kind(
                                    tokens_at_eof,
                                    TokenKind::Newline,
                                ),
                            ensures
                                self.input == unwind_start.input,
                                self.file_id == unwind_start.file_id,
                                self.pos == unwind_start.pos,
                                self.pending@.len() == 0,
                                self.indent_stack@.len() == 1,
                                self.indent_stack@[0] == 0,
                                self.pos <= self.input@.len(),
                                net_layout(tokens@) == 0,
                                forall|i: int|
                                    0 <= i < tokens@.len() ==> (#[trigger] tokens@[i].inner)
                                        != TokenKind::Eof,
                                forall|i: int|
                                    0 <= i < tokens@.len() ==> (#[trigger] tokens@[i].span).wf()
                                        && tokens@[i].span.end.0 <= self.input@.len(),
                                spans_ordered(tokens@),
                                forall|i: int|
                                    0 <= i < tokens@.len() ==> is_layout(
                                        #[trigger] tokens@[i].inner,
                                    ) || tokens@[i].inner == TokenKind::Eof || symbol_token(
                                        self.input@,
                                        tokens@[i].span.start.0 as int,
                                        tokens@[i],
                                    ),
                                tokens@.len() > 0 ==> tokens@.last().span.start.0
                                    <= eof_span.start.0 && tokens@.last().span.end.0
                                    <= eof_span.end.0,
                                count_kind(tokens@, TokenKind::Newline) == count_kind(
                                    tokens_at_eof,
                                    TokenKind::Newline,
                                ),
                            decreases self.indent_stack@.len(),
                        {
                            if self.indent_stack.len() > 1 {
                                self.indent_stack.pop();
                                let ghost t0 = tokens@;
                                tokens.push(Spanned { inner: TokenKind::Dedent, span: eof_span });
                                proof {
                                    lemma_net_layout_push(
                                        t0,
                                        Spanned { inner: TokenKind::Dedent, span: eof_span },
                                    );
                                    lemma_spans_ordered_push(
                                        t0,
                                        Spanned { inner: TokenKind::Dedent, span: eof_span },
                                    );
                                }
                            } else {
                                break ;
                            }
                        }
                        let ghost t0 = tokens@;
                        tokens.push(tok);
                        proof {
                            lemma_net_layout_push(t0, tok);
                            lemma_spans_ordered_push(t0, tok);
                            let ws = self.input@.subrange(pre.pos as int, self.pos as int);
                            assert(self.input@.subrange(0, self.pos as int)
                                =~= self.input@.subrange(0, pre.pos as int) + ws);
                            lemma_count_char_append(
                                self.input@.subrange(0, pre.pos as int),
                                ws,
                                '\n',
                            );
                        }
                        break ;
                    }
                    let ghost t0 = tokens@;
                    tokens.push(tok);
                    proof {
                        lemma_net_layout_push(t0, tok);
                        lemma_spans_ordered_push(t0, tok);
                        assert(self.input@.subrange(0, self.pos as int) =~= self.input@.subrange(
                            0,
                            pre.pos as int,
                        ) + self.input@.subrange(pre.pos as int, self.pos as int));
                        lemma_count_char_append(
                            self.input@.subrange(0, pre.pos as int),
                            self.input@.subrange(pre.pos as int, self.pos as int),
                            '\n',
                        );
                    }
                },
                Err(err) => {
                    let ghost e0 = err;
                    let ghost pre_errors = errors@;
                    errors.push(err);
                    self.advance();
                    proof {
                        assert(pre_errors + (seq![e0] + scan_faults(
                            self.input@,
                            self.pos as int,
                            self.indent_stack@,
                            self.file_id,
                        )) =~= errors@ + scan_faults(
                            self.input@,
                            self.pos as int,
                            self.indent_stack@,
                            self.file_id,
                        ));
                        assert forall|i: int| 0 <= i < errors@.len() implies lex_error_wf(
                            errors@[i],
                            self.input@,
                            self.file_id,
                        ) by {
                            if i < pre_errors.len() {
                                assert(lex_error_wf(pre_errors[i], self.input@, self.file_id));
                            } else {
                                assert(errors@[i] == e0);
                            }
                        }
                        assert forall|i: int| 0 <= i < errors@.len() - 1 implies lex_error_span(
                            #[trigger] errors@[i],
                        ).start.0 <= lex_error_span(errors@[i + 1]).start.0 by {
                            if i + 1 < pre_errors.len() {
                                assert(errors@[i] == pre_errors[i]);
                                assert(errors@[i + 1] == pre_errors[i + 1]);
                            } else if pre_errors.len() > 0 {
                                assert(errors@[i] == pre_errors[i]);
                                assert(errors@[i] == pre_errors.last());
                                assert(errors@[i + 1] == e0);
                            }
                        }
                    }
                },
            }
        }
        proof {
            assert(scan_faults(self.input@, self.pos as int, self.indent_stack@, self.file_id)
                =~= Seq::<LexerError>::empty());
            assert(scan_faults(self.input@, 0, old(self).indent_stack@, self.file_id)
                =~= errors@);
            if errors@.len() == 0 {
                assert(self.input@.subrange(0, self.pos as int) =~= self.input@);
            }
        }
        if errors.len() == 0 {
            Ok(tokens)
        } else {
            Err(errors)
        }
    }
}

} // verus!

