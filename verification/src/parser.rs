//! The precedence-climbing expression parser. It consumes the token
//! sequence read-only through a cursor that never moves past the
//! final Eof token, and accumulates errors instead of aborting on the
//! first one.

use vstd::prelude::*;
use vstd::string::StringExecFns;

use crate::ast::{spec_binding_power, BinOp, Expr, ExprKind, UnaryOp};
use crate::diag::{Diagnostic, DiagnosticConvertible, Label, Severity};
use crate::source::FileId;
use crate::span::{BytePos, Span, Spanned};
use crate::token::{kind_eq, token_kind_text, Token, TokenKind};

verus! {

/// The closed set of syntax errors.
#[derive(Debug, Clone, PartialEq)]
pub enum ParserError {
    UnexpectedToken { expected: Vec<TokenKind>, found: TokenKind, span: Span, file_id: FileId },
    UnexpectedEof { expected: Vec<TokenKind>, span: Span, file_id: FileId },
    MissingExpression { span: Span, file_id: FileId },
    InvalidSyntax { message: String, span: Span, file_id: FileId },
}

/// The display texts of a list of token kinds, joined with commas.
pub open spec fn joined_kinds(s: Seq<TokenKind>) -> Seq<char>
    decreases s.len(),
{
    if s.len() == 0 {
        Seq::<char>::empty()
    } else if s.len() == 1 {
        token_kind_text(s[0])
    } else {
        joined_kinds(s.drop_last()) + ", "@ + token_kind_text(s.last())
    }
}

/// How an expected-token list reads in a message.
pub open spec fn expected_text(s: Seq<TokenKind>) -> Seq<char> {
    if s.len() == 0 {
        "something else"@
    } else if s.len() == 1 {
        token_kind_text(s[0])
    } else {
        "one of "@ + joined_kinds(s)
    }
}

/// Render a list of token kinds, comma separated.
fn kinds_text(kinds: &Vec<TokenKind>) -> (s: String)
    ensures
        s@ == joined_kinds(kinds@),
{
    let mut s = String::new();
    let mut i: usize = 0;
    while i < kinds.len()
        invariant
            i <= kinds@.len(),
            s@ == joined_kinds(kinds@.subrange(0, i as int)),
        decreases kinds@.len() - i,
    {
        if i > 0 {
            s.append(", ");
        }
        s.append(kinds[i].describe());
        i = i + 1;
        proof {
            let pre = kinds@.subrange(0, i - 1);
            let now = kinds@.subrange(0, i as int);
            assert(now.drop_last() =~= pre);
            assert(s@ =~= joined_kinds(now));
        }
    }
    proof {
        assert(kinds@.subrange(0, kinds@.len() as int) =~= kinds@);
    }
    s
}

impl DiagnosticConvertible for ParserError {
    /// Every syntax error converts to an `Error` diagnostic with a
    /// non-empty message and exactly one primary label carrying the
    /// error's own span and file.
    open spec fn diagnostic_spec(&self, d: Diagnostic) -> bool {
        match *self {
            ParserError::UnexpectedToken { expected, found, span, file_id } => {
                &&& d.severity == Severity::Error
                &&& d.message@ == "unexpected token "@ + token_kind_text(found)
                &&& d.message@.len() > 0
                &&& d.code is None
                &&& d.labels@.len() == 1
                &&& d.labels@[0].is_primary
                &&& d.labels@[0].span == span
                &&& d.labels@[0].file_id == file_id
                &&& d.labels@[0].message is Some
                &&& d.labels@[0].message->0@ == "expected "@ + expected_text(expected@)
                    + ", found "@ + token_kind_text(found)
                &&& d.notes@.len() == 0
                &&& d.help is None
            },
            ParserError::UnexpectedEof { expected, span, file_id } => {
                &&& d.severity == Severity::Error
                &&& d.message@ == "unexpected end of file"@
                &&& d.message@.len() > 0
                &&& d.code is None
                &&& d.labels@.len() == 1
                &&& d.labels@[0].is_primary
                &&& d.labels@[0].span == span
                &&& d.labels@[0].file_id == file_id
                &&& d.labels@[0].message is Some
                &&& d.labels@[0].message->0@ == "expected "@ + (if expected.len() == 0 {
                    "more input"@
                } else {
                    joined_kinds(expected@)
                })
                &&& d.notes@.len() == 0
                &&& d.help is None
            },
            ParserError::MissingExpression { span, file_id } => {
                &&& d.severity == Severity::Error
                &&& d.message@ == "expected expression"@
                &&& d.message@.len() > 0
                &&& d.code is None
                &&& d.labels@.len() == 1
                &&& d.labels@[0].is_primary
                &&& d.labels@[0].span == span
                &&& d.labels@[0].file_id == file_id
                &&& d.labels@[0].message is Some
                &&& d.labels@[0].message->0@ == "expression expected here"@
                &&& d.notes@.len() == 0
                &&& d.help is None
            },
            ParserError::InvalidSyntax { message, span, file_id } => {
                &&& d.severity == Severity::Error
                &&& d.message@ == "invalid syntax"@
                &&& d.message@.len() > 0
                &&& d.code is None
                &&& d.labels@.len() == 1
                &&& d.labels@[0].is_primary
                &&& d.labels@[0].span == span
                &&& d.labels@[0].file_id == file_id
                &&& d.labels@[0].message is Some
                &&& d.labels@[0].message->0@ == message@
                &&& d.notes@.len() == 0
                &&& d.help is None
            },
        }
    }

    fn into_diagnostic(self) -> (d: Diagnostic) {
        match self {
            ParserError::UnexpectedToken { expected, found, span, file_id } => {
                let mut m = "unexpected token ".to_owned();
                m.append(found.describe());
                let expected_str: String = if expected.len() == 0 {
                    "something else".to_owned()
                } else if expected.len() == 1 {
                    expected[0].describe().to_owned()
                } else {
                    let mut t = "one of ".to_owned();
                    let joined = kinds_text(&expected);
                    t.append(joined.as_str());
                    t
                };
                let mut lm = "expected ".to_owned();
                lm.append(expected_str.as_str());
                lm.append(", found ");
                lm.append(found.describe());
                proof {
                    reveal_strlit("unexpected token ");
                    assert(m@ =~= "unexpected token "@ + token_kind_text(found));
                    assert(lm@ =~= "expected "@ + expected_text(expected@) + ", found "@
                        + token_kind_text(found));
                }
                Diagnostic::new(Severity::Error).with_message(m.as_str()).with_label(
                    Label::primary(file_id, span).with_message(lm.as_str()),
                )
            },
            ParserError::UnexpectedEof { expected, span, file_id } => {
                let expected_str: String = if expected.len() == 0 {
                    "more input".to_owned()
                } else {
                    kinds_text(&expected)
                };
                let mut lm = "expected ".to_owned();
                lm.append(expected_str.as_str());
                proof {
                    reveal_strlit("unexpected end of file");
                    assert(lm@ =~= "expected "@ + (if expected@.len() == 0 {
                        "more input"@
                    } else {
                        joined_kinds(expected@)
                    }));
                }
                Diagnostic::new(Severity::Error).with_message("unexpected end of file").with_label(
                    Label::primary(file_id, span).with_message(lm.as_str()),
                )
            },
            ParserError::MissingExpression { span, file_id } => {
                proof {
                    reveal_strlit("expected expression");
                }
                Diagnostic::new(Severity::Error).with_message("expected expression").with_label(
                    Label::primary(file_id, span).with_message("expression expected here"),
                )
            },
            ParserError::InvalidSyntax { message, span, file_id } => {
                proof {
                    reveal_strlit("invalid syntax");
                }
                Diagnostic::new(Severity::Error).with_message("invalid syntax").with_label(
                    Label::primary(file_id, span).with_message(message.as_str()),
                )
            },
        }
    }
}

/// The parser: a read-only token sequence, a cursor into it, and the
/// ordered list of errors recovered from so far.
pub struct Parser {
    pub tokens: Vec<Token>,
    pub pos: usize,
    pub file_id: FileId,
    pub errors: Vec<ParserError>,
}

impl Parser {
    /// The cursor stays strictly inside the sequence, which ends in
    /// an Eof token; every token span is well formed.
    pub open spec fn wf(self) -> bool {
        &&& self.tokens@.len() >= 1
        &&& self.tokens@.last().inner == TokenKind::Eof
        &&& self.pos < self.tokens@.len()
        &&& forall|i: int|
            0 <= i < self.tokens@.len() ==> (#[trigger] self.tokens@[i].span).wf()
    }

    /// The token under the cursor.
    pub open spec fn cur(self) -> Token {
        self.tokens@[self.pos as int]
    }

    /// Whether the cursor has reached the final Eof token.
    pub open spec fn spec_at_end(self) -> bool {
        self.cur().inner == TokenKind::Eof
    }

    /// Whether the current token has the given kind (never true at
    /// end of input).
    pub open spec fn spec_check(self, kind: TokenKind) -> bool {
        !self.spec_at_end() && kind_eq(self.cur().inner, kind)
    }

    /// Everything but the cursor and the error list is frozen.
    pub open spec fn same_source(self, other: Parser) -> bool {
        self.tokens == other.tokens && self.file_id == other.file_id
    }

    pub fn new(file_id: FileId, tokens: Vec<Token>) -> (p: Parser)
        requires
            tokens@.len() >= 1,
            tokens@.last().inner == TokenKind::Eof,
            forall|i: int| 0 <= i < tokens@.len() ==> (#[trigger] tokens@[i].span).wf(),
        ensures
            p.wf(),
            p.tokens == tokens,
            p.pos == 0,
            p.file_id == file_id,
            p.errors@.len() == 0,
    {
        Parser { tokens, pos: 0, file_id, errors: Vec::new() }
    }

    fn current(&self) -> (t: &Token)
        requires
            self.wf(),
        ensures
            *t == self.cur(),
    {
        &self.tokens[self.pos]
    }

    /// Look `offset` tokens ahead; past the end, the final token.
    fn peek(&self, offset: usize) -> (t: &Token)
        requires
            self.wf(),
        ensures
            self.pos + offset < self.tokens@.len() ==> *t == self.tokens@[self.pos + offset],
            self.pos + offset >= self.tokens@.len() ==> *t == self.tokens@.last(),
    {
        let n = self.tokens.len();
        if offset < n - self.pos {
            &self.tokens[self.pos + offset]
        } else {
            &self.tokens[n - 1]
        }
    }

    pub fn peek_is(&self, offset: usize, token: TokenKind) -> (r: bool)
        requires
            self.wf(),
        ensures
            self.pos + offset < self.tokens@.len() ==> r == kind_eq(
                self.tokens@[self.pos + offset].inner,
                token,
            ),
            self.pos + offset >= self.tokens@.len() ==> r == kind_eq(
                self.tokens@.last().inner,
                token,
            ),
    {
        self.peek(offset).inner.same_kind(&token)
    }

    /// Step past the current token and hand it back; at the final
    /// token the cursor stays put, so lookahead keeps observing Eof.
    fn advance(&mut self) -> (t: Token)
        requires
            old(self).wf(),
        ensures
            final(self).wf(),
            t == old(self).cur(),
            final(self).same_source(*old(self)),
            final(self).errors == old(self).errors,
            old(self).pos < old(self).tokens@.len() - 1 ==> final(self).pos == old(self).pos + 1,
            old(self).pos == old(self).tokens@.len() - 1 ==> final(self).pos == old(self).pos,
    {
        let t = self.current();
        let copy = Spanned { inner: t.inner.duplicate(), span: t.span };
        if self.pos < self.tokens.len() - 1 {
            self.pos = self.pos + 1;
        }
        copy
    }

    pub fn is_at_end(&self) -> (r: bool)
        requires
            self.wf(),
        ensures
            r == self.spec_at_end(),
    {
        self.current().inner.same_kind(&TokenKind::Eof)
    }

    pub fn check(&self, kind: &TokenKind) -> (r: bool)
        requires
            self.wf(),
        ensures
            r == self.spec_check(*kind),
    {
        if self.is_at_end() {
            return false;
        }
        self.current().inner.same_kind(kind)
    }

    pub fn check_any(&self, kinds: &Vec<TokenKind>) -> (r: bool)
        requires
            self.wf(),
        ensures
            r == exists|i: int| 0 <= i < kinds@.len() && self.spec_check(#[trigger] kinds@[i]),
    {
        let mut i: usize = 0;
        while i < kinds.len()
            invariant
                self.wf(),
                i <= kinds@.len(),
                forall|j: int| 0 <= j < i ==> !self.spec_check(#[trigger] kinds@[j]),
            decreases kinds@.len() - i,
        {
            if self.check(&kinds[i]) {
                return true;
            }
            i = i + 1;
        }
        false
    }

    pub fn match_token(&mut self, kind: TokenKind) -> (r: bool)
        requires
            old(self).wf(),
        ensures
            final(self).wf(),
            final(self).same_source(*old(self)),
            final(self).errors == old(self).errors,
            r == old(self).spec_check(kind),
            r ==> final(self).pos == old(self).pos + 1,
            !r ==> final(self).pos == old(self).pos,
    {
        if self.check(&kind) {
            proof {
                assert(old(self).cur().inner != TokenKind::Eof);
                assert(old(self).pos < old(self).tokens@.len() - 1);
            }
            self.advance();
            true
        } else {
            false
        }
    }

    pub fn match_any(&mut self, kinds: &Vec<TokenKind>) -> (r: bool)
        requires
            old(self).wf(),
        ensures
            final(self).wf(),
            final(self).same_source(*old(self)),
            final(self).errors == old(self).errors,
            r == exists|i: int|
                0 <= i < kinds@.len() && old(self).spec_check(#[trigger] kinds@[i]),
            r ==> final(self).pos == old(self).pos + 1,
            !r ==> final(self).pos == old(self).pos,
    {
        let mut i: usize = 0;
        while i < kinds.len()
            invariant
                self.wf(),
                *self == *old(self),
                i <= kinds@.len(),
                forall|j: int| 0 <= j < i ==> !self.spec_check(#[trigger] kinds@[j]),
            decreases kinds@.len() - i,
        {
            let k = kinds[i].duplicate();
            if self.match_token(k) {
                return true;
            }
            i = i + 1;
        }
        false
    }

    /// Check the current token against `kind`: consume and return it
    /// on a match, otherwise report what was expected against what
    /// stands there (`UnexpectedEof` at end of input), consuming
    /// nothing.
    pub fn expect(&mut self, kind: TokenKind) -> (r: Result<Token, ParserError>)
        requires
            old(self).wf(),
        ensures
            final(self).wf(),
            final(self).same_source(*old(self)),
            final(self).errors == old(self).errors,
            match r {
                Ok(t) => {
                    &&& old(self).spec_check(kind)
                    &&& t == old(self).cur()
                    &&& final(self).pos == old(self).pos + 1
                },
                Err(e) => {
                    &&& !old(self).spec_check(kind)
                    &&& final(self).pos == old(self).pos
                    &&& old(self).spec_at_end() ==> (e matches ParserError::UnexpectedEof {
                        expected,
                        span,
                        file_id,
                    } && expected@ == seq![kind] && span == old(self).cur().span && file_id
                        == old(self).file_id)
                    &&& !old(self).spec_at_end() ==> (e matches ParserError::UnexpectedToken {
                        expected,
                        found,
                        span,
                        file_id,
                    } && expected@ == seq![kind] && found == old(self).cur().inner && span
                        == old(self).cur().span && file_id == old(self).file_id)
                },
            },
    {
        if self.check(&kind) {
            proof {
                assert(old(self).pos < old(self).tokens@.len() - 1);
            }
            Ok(self.advance())
        } else {
            let found_tok = self.current();
            let span = found_tok.span;
            let found = found_tok.inner.duplicate();
            let mut expected: Vec<TokenKind> = Vec::new();
            expected.push(kind);
            if self.is_at_end() {
                proof {
                    assert(expected@ =~= seq![kind]);
                }
                Err(ParserError::UnexpectedEof { expected, span, file_id: self.file_id })
            } else {
                proof {
                    assert(expected@ =~= seq![kind]);
                }
                Err(ParserError::UnexpectedToken { expected, found, span, file_id: self.file_id })
            }
        }
    }

    /// Skip forward until the current token is in the given
    /// synchronization set or the input ends.
    pub fn synchronize(&mut self, sync_tokens: &Vec<TokenKind>)
        requires
            old(self).wf(),
        ensures
            final(self).wf(),
            final(self).same_source(*old(self)),
            final(self).errors == old(self).errors,
            final(self).pos >= old(self).pos,
            final(self).spec_at_end() || exists|i: int|
                0 <= i < sync_tokens@.len() && final(self).spec_check(
                    #[trigger] sync_tokens@[i],
                ),
            forall|j: int|
                old(self).pos <= j < final(self).pos ==> !kind_eq(
                    (#[trigger] final(self).tokens@[j]).inner,
                    TokenKind::Eof,
                ) && forall|k: int|
                    0 <= k < sync_tokens@.len() ==> !kind_eq(
                        final(self).tokens@[j].inner,
                        #[trigger] sync_tokens@[k],
                    ),
    {
        loop
            invariant
                self.wf(),
                self.same_source(*old(self)),
                self.errors == old(self).errors,
                self.pos >= old(self).pos,
                forall|j: int|
                    old(self).pos <= j < self.pos ==> !kind_eq(
                        (#[trigger] self.tokens@[j]).inner,
                        TokenKind::Eof,
                    ) && forall|k: int|
                        0 <= k < sync_tokens@.len() ==> !kind_eq(
                            self.tokens@[j].inner,
                            #[trigger] sync_tokens@[k],
                        ),
            ensures
                self.wf(),
                self.same_source(*old(self)),
                self.errors == old(self).errors,
                self.pos >= old(self).pos,
                self.spec_at_end() || exists|i: int|
                    0 <= i < sync_tokens@.len() && self.spec_check(#[trigger] sync_tokens@[i]),
                forall|j: int|
                    old(self).pos <= j < self.pos ==> !kind_eq(
                        (#[trigger] self.tokens@[j]).inner,
                        TokenKind::Eof,
                    ) && forall|k: int|
                        0 <= k < sync_tokens@.len() ==> !kind_eq(
                            self.tokens@[j].inner,
                            #[trigger] sync_tokens@[k],
                        ),
            decreases self.tokens@.len() - self.pos,
        {
            if self.is_at_end() {
                break ;
            }
            if self.check_any(sync_tokens) {
                break ;
            }
            proof {
                assert(self.cur().inner != TokenKind::Eof);
                assert(self.pos < self.tokens@.len() - 1);
            }
            self.advance();
        }
    }

    /// Synchronize to the next statement starter, line break or end
    /// of input.
    pub fn synchronize_to_statement(&mut self)
        requires
            old(self).wf(),
        ensures
            final(self).wf(),
            final(self).same_source(*old(self)),
            final(self).errors == old(self).errors,
            final(self).pos >= old(self).pos,
    {
        let mut sync: Vec<TokenKind> = Vec::new();
        sync.push(TokenKind::Let);
        sync.push(TokenKind::Fn);
        sync.push(TokenKind::Mod);
        sync.push(TokenKind::Newline);
        sync.push(TokenKind::Eof);
        self.synchronize(&sync);
    }

    /// Synchronize to the next line break or end of input.
    pub fn synchronize_to_newline(&mut self)
        requires
            old(self).wf(),
        ensures
            final(self).wf(),
            final(self).same_source(*old(self)),
            final(self).errors == old(self).errors,
            final(self).pos >= old(self).pos,
    {
        let mut sync: Vec<TokenKind> = Vec::new();
        sync.push(TokenKind::Newline);
        sync.push(TokenKind::Eof);
        self.synchronize(&sync);
    }

    /// Record an error without moving the cursor.
    fn report_error(&mut self, error: ParserError)
        requires
            old(self).wf(),
        ensures
            final(self).wf(),
            final(self).same_source(*old(self)),
            final(self).pos == old(self).pos,
            final(self).errors@ == old(self).errors@.push(error),
    {
        self.errors.push(error);
    }

    /// Expect a token; on a mismatch record the error and skip to the
    /// synchronization set, yielding nothing.
    pub fn expect_with_recovery(&mut self, kind: TokenKind, sync_tokens: &Vec<TokenKind>) -> (r:
        Option<Token>)
        requires
            old(self).wf(),
        ensures
            final(self).wf(),
            final(self).same_source(*old(self)),
            final(self).pos >= old(self).pos,
            match r {
                Some(t) => {
                    &&& old(self).spec_check(kind)
                    &&& t == old(self).cur()
                    &&& final(self).pos == old(self).pos + 1
                    &&& final(self).errors == old(self).errors
                },
                None => {
                    &&& !old(self).spec_check(kind)
                    &&& final(self).errors@.len() == old(self).errors@.len() + 1
                    &&& (final(self).spec_at_end() || exists|i: int|
                        0 <= i < sync_tokens@.len() && final(self).spec_check(
                            #[trigger] sync_tokens@[i],
                        ))
                    &&& forall|j: int|
                        old(self).pos <= j < final(self).pos ==> !kind_eq(
                            (#[trigger] final(self).tokens@[j]).inner,
                            TokenKind::Eof,
                        ) && forall|k: int|
                            0 <= k < sync_tokens@.len() ==> !kind_eq(
                                final(self).tokens@[j].inner,
                                #[trigger] sync_tokens@[k],
                            )
                },
            },
    {
        match self.expect(kind) {
            Ok(tok) => Some(tok),
            Err(err) => {
                self.report_error(err);
                self.synchronize(sync_tokens);
                None
            },
        }
    }

    /// Record an error and skip to the synchronization set, yielding
    /// nothing.
    pub fn error_and_recover<T>(&mut self, error: ParserError, sync_tokens: &Vec<TokenKind>) -> (r:
        Option<T>)
        requires
            old(self).wf(),
        ensures
            final(self).wf(),
            final(self).same_source(*old(self)),
            final(self).pos >= old(self).pos,
            final(self).errors@ == old(self).errors@.push(error),
            r is None,
    {
        self.report_error(error);
        self.synchronize(sync_tokens);
        None
    }

    /// Skip consecutive line breaks.
    pub fn skip_newlines(&mut self)
        requires
            old(self).wf(),
        ensures
            final(self).wf(),
            final(self).same_source(*old(self)),
            final(self).errors == old(self).errors,
            final(self).pos >= old(self).pos,
            !final(self).spec_check(TokenKind::Newline),
    {
        loop
            invariant
                self.wf(),
                self.same_source(*old(self)),
                self.errors == old(self).errors,
                self.pos >= old(self).pos,
            ensures
                self.wf(),
                self.same_source(*old(self)),
                self.errors == old(self).errors,
                self.pos >= old(self).pos,
                !self.spec_check(TokenKind::Newline),
            decreases self.tokens@.len() - self.pos,
        {
            if !self.match_token(TokenKind::Newline) {
                break ;
            }
        }
    }

    /// A statement must end here: consume a line break, accept end of
    /// input, and otherwise report what stands in the way.
    pub fn expect_newline_or_eof(&mut self) -> (r: Result<(), ParserError>)
        requires
            old(self).wf(),
        ensures
            final(self).wf(),
            final(self).same_source(*old(self)),
            final(self).errors == old(self).errors,
            match r {
                Ok(u) => {
                    &&& old(self).spec_at_end() || old(self).spec_check(TokenKind::Newline)
                    &&& (old(self).spec_at_end() ==> final(self).pos == old(self).pos)
                    &&& (old(self).spec_check(TokenKind::Newline) ==> final(self).pos == old(
                        self,
                    ).pos + 1)
                },
                Err(e) => {
                    &&& !old(self).spec_at_end()
                    &&& !old(self).spec_check(TokenKind::Newline)
                    &&& final(self).pos == old(self).pos
                    &&& (e matches ParserError::UnexpectedToken { expected, found, span, file_id }
                        && expected@ == seq![TokenKind::Newline, TokenKind::Eof] && found
                        == old(self).cur().inner && span == old(self).cur().span && file_id
                        == old(self).file_id)
                },
            },
    {
        if self.is_at_end() {
            return Ok(());
        }
        if self.check(&TokenKind::Newline) {
            self.advance();
            return Ok(());
        }
        let found_tok = self.current();
        let span = found_tok.span;
        let found = found_tok.inner.duplicate();
        let mut expected: Vec<TokenKind> = Vec::new();
        expected.push(TokenKind::Newline);
        expected.push(TokenKind::Eof);
        proof {
            assert(expected@ =~= seq![TokenKind::Newline, TokenKind::Eof]);
        }
        Err(ParserError::UnexpectedToken { expected, found, span, file_id: self.file_id })
    }

    fn current_kind(&self) -> (k: &TokenKind)
        requires
            self.wf(),
        ensures
            *k == self.cur().inner,
    {
        &self.current().inner
    }

    /// The errors recovered from so far, in order.
    pub fn errors(&self) -> (r: &Vec<ParserError>)
        ensures
            r == &self.errors,
    {
        &self.errors
    }
}

/// `a` contains `b`.
pub open spec fn span_contains(a: Span, b: Span) -> bool {
    a.start.0 <= b.start.0 && b.end.0 <= a.end.0
}

/// Structural well-formedness of an expression: every span is well
/// formed, and a compound node's span contains the spans of its
/// parts (parentheses may widen a node's span beyond their merge).
pub open spec fn expr_wf(e: Expr) -> bool
    decreases e,
{
    match e.inner {
        ExprKind::Int(_) => e.span.wf(),
        ExprKind::Bool(_) => e.span.wf(),
        ExprKind::Unit => e.span.wf(),
        ExprKind::Var(_) => e.span.wf(),
        ExprKind::Unary { op, expr } => {
            &&& e.span.wf()
            &&& op.span.wf()
            &&& expr_wf(*expr)
            &&& span_contains(e.span, op.span)
            &&& span_contains(e.span, expr.span)
        },
        ExprKind::Binary { op, lhs, rhs } => {
            &&& e.span.wf()
            &&& op.span.wf()
            &&& expr_wf(*lhs)
            &&& expr_wf(*rhs)
            &&& span_contains(e.span, lhs.span)
            &&& span_contains(e.span, rhs.span)
        },
        ExprKind::Let { name, ty, value } => e.span.wf() && expr_wf(*value),
        ExprKind::Assign { name, value } => e.span.wf() && expr_wf(*value),
        ExprKind::Ident { exprs, tail } => e.span.wf() && expr_wf(*tail),
    }
}


/// The cursor after consuming the token at `p`: at the final token it
/// stays put, so lookahead keeps observing Eof.
pub open spec fn step(toks: Seq<Token>, p: int) -> int {
    if p < toks.len() - 1 {
        p + 1
    } else {
        p
    }
}

/// The binary operator a token kind denotes, if any.
pub open spec fn binop_of(k: TokenKind) -> Option<BinOp> {
    match k {
        TokenKind::Plus => Some(BinOp::Add),
        TokenKind::Minus => Some(BinOp::Sub),
        TokenKind::Star => Some(BinOp::Mul),
        TokenKind::Slash => Some(BinOp::Div),
        TokenKind::Greater => Some(BinOp::Greater),
        TokenKind::GreaterEqual => Some(BinOp::Ge),
        TokenKind::Less => Some(BinOp::Less),
        TokenKind::LessEqual => Some(BinOp::Le),
        TokenKind::Mod => Some(BinOp::Mod),
        TokenKind::Equal => Some(BinOp::Equal),
        TokenKind::NotEqual => Some(BinOp::NotEq),
        TokenKind::And => Some(BinOp::And),
        TokenKind::Or => Some(BinOp::Or),
        _ => None,
    }
}

/// A failure the expression parser can report: a missing primary
/// expression, or a missing closing parenthesis (with the token found
/// in its place).
pub enum ParseIssue {
    Missing { span: Span },
    CloseParen { found: TokenKind, span: Span },
}

/// The error value recorded for an issue.
pub open spec fn issue_matches(i: ParseIssue, e: ParserError, f: FileId) -> bool {
    match i {
        ParseIssue::Missing { span } => e == (ParserError::MissingExpression {
            span,
            file_id: f,
        }),
        ParseIssue::CloseParen { found, span } => {
            if found == TokenKind::Eof {
                (e matches ParserError::UnexpectedEof { expected, span: at, file_id } && expected@
                    == seq![TokenKind::RParen] && at == span && file_id == f)
            } else {
                (e matches ParserError::UnexpectedToken { expected, found: got, span: at, file_id }
                    && expected@ == seq![TokenKind::RParen] && got == found && at == span
                    && file_id == f)
            }
        },
    }
}

/// What one parse step yields: the node (if any), the cursor after
/// the step, and the single failure reported when there is no node.
pub struct ParseStep {
    pub result: Option<Expr>,
    pub next: int,
    pub issue: Option<ParseIssue>,
}

/// The cursor the chain continues from. The parser's cursor provably
/// advances, so only the first branch is ever the value used; the
/// fallback serves the termination measure of the definitions below.
pub open spec fn next_after(p: int, q: int, n: int) -> int {
    if p < q <= n {
        q
    } else {
        p + 1
    }
}

/// The primary expression at `p`: literals and variables as the token
/// states; `()` as the unit literal spanning both parentheses;
/// `(expr)` as the inner expression re-spanned over the parentheses,
/// the closing one required; any other token is a missing expression,
/// reported at that token without moving. Out-of-range branches are
/// unreachable for a well-formed token sequence.
pub open spec fn spec_primary(toks: Seq<Token>, p: int) -> ParseStep
    decreases toks.len() - p, 0int,
{
    if !(0 <= p < toks.len()) {
        ParseStep {
            result: None,
            next: p,
            issue: Some(ParseIssue::Missing { span: Span { start: BytePos(0), end: BytePos(0) } }),
        }
    } else {
        let t = toks[p];
        match t.inner {
            TokenKind::IntLiteral(x) => ParseStep {
                result: Some(Spanned { inner: ExprKind::Int(x), span: t.span }),
                next: step(toks, p),
                issue: None,
            },
            TokenKind::BoolLiteral(b) => ParseStep {
                result: Some(Spanned { inner: ExprKind::Bool(b), span: t.span }),
                next: step(toks, p),
                issue: None,
            },
            TokenKind::Ident(name) => ParseStep {
                result: Some(Spanned { inner: ExprKind::Var(name), span: t.span }),
                next: step(toks, p),
                issue: None,
            },
            TokenKind::LParen => {
                if p >= toks.len() - 1 {
                    ParseStep {
                        result: None,
                        next: p,
                        issue: Some(ParseIssue::Missing { span: t.span }),
                    }
                } else if toks[p + 1].inner == TokenKind::RParen {
                    ParseStep {
                        result: Some(
                            Spanned {
                                inner: ExprKind::Unit,
                                span: t.span.spec_merge(toks[p + 1].span),
                            },
                        ),
                        next: step(toks, p + 1),
                        issue: None,
                    }
                } else {
                    let inner = spec_binary(toks, p + 1, 0);
                    match inner.result {
                        None => ParseStep { result: None, next: inner.next, issue: inner.issue },
                        Some(e) => {
                            let q = inner.next;
                            if 0 <= q < toks.len() && toks[q].inner == TokenKind::RParen {
                                ParseStep {
                                    result: Some(
                                        Spanned {
                                            inner: e.inner,
                                            span: t.span.spec_merge(e.span).spec_merge(
                                                toks[q].span,
                                            ),
                                        },
                                    ),
                                    next: step(toks, q),
                                    issue: None,
                                }
                            } else if 0 <= q < toks.len() {
                                ParseStep {
                                    result: None,
                                    next: q,
                                    issue: Some(
                                        ParseIssue::CloseParen {
                                            found: toks[q].inner,
                                            span: toks[q].span,
                                        },
                                    ),
                                }
                            } else {
                                ParseStep {
                                    result: None,
                                    next: q,
                                    issue: Some(ParseIssue::Missing { span: t.span }),
                                }
                            }
                        },
                    }
                }
            },
            _ => ParseStep {
                result: None,
                next: p,
                issue: Some(ParseIssue::Missing { span: t.span }),
            },
        }
    }
}

/// The unary expression at `p`: prefix `-` or `not` applied to
/// another unary expression, or a primary expression.
pub open spec fn spec_unary(toks: Seq<Token>, p: int) -> ParseStep
    decreases toks.len() - p, 1int,
{
    if 0 <= p < toks.len() - 1 && (toks[p].inner == TokenKind::Minus || toks[p].inner
        == TokenKind::Not) {
        let start = toks[p].span;
        let r = spec_unary(toks, p + 1);
        match r.result {
            None => ParseStep { result: None, next: r.next, issue: r.issue },
            Some(operand) => ParseStep {
                result: Some(
                    Spanned {
                        inner: ExprKind::Unary {
                            op: Spanned {
                                inner: if toks[p].inner == TokenKind::Minus {
                                    UnaryOp::Neg
                                } else {
                                    UnaryOp::Not
                                },
                                span: start,
                            },
                            expr: Box::new(operand),
                        },
                        span: start.spec_merge(operand.span),
                    },
                ),
                next: r.next,
                issue: None,
            },
        }
    } else {
        spec_primary(toks, p)
    }
}

/// Precedence climbing from an already-parsed left operand: operators
/// whose left binding power reaches `min_bp` are consumed, each right
/// operand parsed at the operator\'s right binding power; the node
/// spans the merge of its operands.
pub open spec fn spec_chain(toks: Seq<Token>, p: int, min_bp: u8, lhs: Expr) -> ParseStep
    decreases toks.len() - p, 3int,
{
    if !(0 <= p < toks.len()) {
        ParseStep { result: Some(lhs), next: p, issue: None }
    } else {
        match binop_of(toks[p].inner) {
            None => ParseStep { result: Some(lhs), next: p, issue: None },
            Some(op) => {
                if spec_binding_power(op).0 < min_bp {
                    ParseStep { result: Some(lhs), next: p, issue: None }
                } else {
                    let r = spec_binary(toks, step(toks, p), spec_binding_power(op).1);
                    match r.result {
                        None => ParseStep { result: None, next: r.next, issue: r.issue },
                        Some(rhs) => {
                            let node = Spanned {
                                inner: ExprKind::Binary {
                                    op: Spanned { inner: op, span: toks[p].span },
                                    lhs: Box::new(lhs),
                                    rhs: Box::new(rhs),
                                },
                                span: lhs.span.spec_merge(rhs.span),
                            };
                            spec_chain(toks, next_after(p, r.next, toks.len() as int), min_bp, node)
                        },
                    }
                }
            },
        }
    }
}

/// The binary expression at `p` for a caller demanding at least
/// `min_bp`: a unary expression followed by the operator chain.
pub open spec fn spec_binary(toks: Seq<Token>, p: int, min_bp: u8) -> ParseStep
    decreases toks.len() - p, 2int,
{
    let u = spec_unary(toks, p);
    match u.result {
        None => u,
        Some(lhs) => {
            if 0 <= p < toks.len() {
                spec_chain(toks, next_after(p, u.next, toks.len() as int), min_bp, lhs)
            } else {
                u
            }
        },
    }
}

impl Parser {
    /// Parse one expression at the lowest precedence. `None` means a
    /// sub-expression was missing; at least one error has then been
    /// recorded, and the caller must fail rather than fabricate a
    /// node.
    pub fn parse_expr(&mut self) -> (r: Option<Expr>)
        requires
            old(self).wf(),
        ensures
            final(self).wf(),
            final(self).same_source(*old(self)),
            old(self).errors@.is_prefix_of(final(self).errors@),
            final(self).pos >= old(self).pos,
            match r {
                Some(e) => expr_wf(e) && final(self).pos > old(self).pos && final(self).errors
                    == old(self).errors,
                None => final(self).errors@.len() > old(self).errors@.len(),
            },
            ({
                let o = spec_binary(old(self).tokens@, old(self).pos as int, 0);
                &&& r == o.result
                &&& final(self).pos == o.next
                &&& match o.issue {
                    None => final(self).errors == old(self).errors,
                    Some(i) => final(self).errors@.len() == old(self).errors@.len() + 1
                        && issue_matches(i, final(self).errors@.last(), old(self).file_id),
                }
            }),
        decreases self.tokens@.len() - self.pos, 3int,
    {
        self.parse_binary_expr(0)
    }

    /// Parse a primary expression: a literal, a variable reference,
    /// `()` as the unit literal, or a parenthesized expression
    /// re-spanned to cover its parentheses. Anything else reports
    /// `MissingExpression` at the offending position and yields
    /// nothing.
    fn parse_primary(&mut self) -> (r: Option<Expr>)
        requires
            old(self).wf(),
        ensures
            final(self).wf(),
            final(self).same_source(*old(self)),
            old(self).errors@.is_prefix_of(final(self).errors@),
            final(self).pos >= old(self).pos,
            match r {
                Some(e) => expr_wf(e) && final(self).pos > old(self).pos && final(self).errors
                    == old(self).errors,
                None => final(self).errors@.len() > old(self).errors@.len(),
            },
            ({
                let o = spec_primary(old(self).tokens@, old(self).pos as int);
                &&& r == o.result
                &&& final(self).pos == o.next
                &&& match o.issue {
                    None => final(self).errors == old(self).errors,
                    Some(i) => final(self).errors@.len() == old(self).errors@.len() + 1
                        && issue_matches(i, final(self).errors@.last(), old(self).file_id),
                }
            }),
        decreases self.tokens@.len() - self.pos, 0int,
    {
        let tok = self.current();
        let sp = tok.span;
        let k = tok.inner.duplicate();
        match k {
            TokenKind::IntLiteral(x) => {
                let span = self.advance().span;
                Some(Spanned::new(ExprKind::Int(x), span))
            },
            TokenKind::BoolLiteral(v) => {
                let span = self.advance().span;
                Some(Spanned::new(ExprKind::Bool(v), span))
            },
            TokenKind::Ident(name) => {
                let span = self.advance().span;
                Some(Spanned::new(ExprKind::Var(name), span))
            },
            TokenKind::LParen => {
                let l_span = self.advance().span;
                if self.check(&TokenKind::RParen) {
                    let r_span = self.advance().span;
                    Some(Spanned::new(ExprKind::Unit, l_span.merge(r_span)))
                } else {
                    match self.parse_expr() {
                        None => None,
                        Some(inner_expr) => {
                            match self.expect(TokenKind::RParen) {
                                Ok(rtok) => {
                                    let span = l_span.merge(inner_expr.span).merge(rtok.span);
                                    Some(Spanned::new(inner_expr.inner, span))
                                },
                                Err(e) => {
                                    self.report_error(e);
                                    None
                                },
                            }
                        },
                    }
                }
            },
            _ => {
                let file_id = self.file_id;
                self.report_error(ParserError::MissingExpression { span: sp, file_id });
                None
            },
        }
    }

    /// Parse a unary expression: prefix `-` or `not` applied to
    /// another unary expression, or a primary expression.
    fn parse_unary_expr(&mut self) -> (r: Option<Expr>)
        requires
            old(self).wf(),
        ensures
            final(self).wf(),
            final(self).same_source(*old(self)),
            old(self).errors@.is_prefix_of(final(self).errors@),
            final(self).pos >= old(self).pos,
            match r {
                Some(e) => expr_wf(e) && final(self).pos > old(self).pos && final(self).errors
                    == old(self).errors,
                None => final(self).errors@.len() > old(self).errors@.len(),
            },
            ({
                let o = spec_unary(old(self).tokens@, old(self).pos as int);
                &&& r == o.result
                &&& final(self).pos == o.next
                &&& match o.issue {
                    None => final(self).errors == old(self).errors,
                    Some(i) => final(self).errors@.len() == old(self).errors@.len() + 1
                        && issue_matches(i, final(self).errors@.last(), old(self).file_id),
                }
            }),
        decreases self.tokens@.len() - self.pos, 1int,
    {
        let is_minus = self.check(&TokenKind::Minus);
        let is_not = self.check(&TokenKind::Not);
        if is_minus || is_not {
            let start = self.advance().span;
            match self.parse_unary_expr() {
                None => None,
                Some(operand) => {
                    let span = start.merge(operand.span);
                    let op = if is_minus {
                        UnaryOp::Neg
                    } else {
                        UnaryOp::Not
                    };
                    Some(
                        Spanned::new(
                            ExprKind::Unary { op: Spanned::new(op, start), expr: Box::new(operand) },
                            span,
                        ),
                    )
                },
            }
        } else {
            self.parse_primary()
        }
    }

    /// Precedence climbing: parse a left operand, then keep consuming
    /// operators whose left binding power is at least `min_bp`, each
    /// right operand parsed at the operator's right binding power.
    /// Left-associativity follows from each operator's right binding
    /// power exceeding its left.
    fn parse_binary_expr(&mut self, min_bp: u8) -> (r: Option<Expr>)
        requires
            old(self).wf(),
        ensures
            final(self).wf(),
            final(self).same_source(*old(self)),
            old(self).errors@.is_prefix_of(final(self).errors@),
            final(self).pos >= old(self).pos,
            match r {
                Some(e) => {
                    &&& expr_wf(e)
                    &&& final(self).pos > old(self).pos
                    &&& final(self).errors == old(self).errors
                },
                None => final(self).errors@.len() > old(self).errors@.len(),
            },
            ({
                let o = spec_binary(old(self).tokens@, old(self).pos as int, min_bp);
                &&& r == o.result
                &&& final(self).pos == o.next
                &&& match o.issue {
                    None => final(self).errors == old(self).errors,
                    Some(i) => final(self).errors@.len() == old(self).errors@.len() + 1
                        && issue_matches(i, final(self).errors@.last(), old(self).file_id),
                }
            }),
        decreases self.tokens@.len() - self.pos, 2int,
    {
        let ghost toks = old(self).tokens@;
        let ghost p0 = old(self).pos as int;
        let mut lhs = match self.parse_unary_expr() {
            None => {
                return None;
            },
            Some(e) => e,
        };
        proof {
            assert(spec_binary(toks, p0, min_bp) == spec_chain(
                toks,
                self.pos as int,
                min_bp,
                lhs,
            ));
        }
        loop
            invariant
                self.wf(),
                self.same_source(*old(self)),
                self.errors == old(self).errors,
                self.pos > old(self).pos,
                expr_wf(lhs),
                toks == old(self).tokens@,
                p0 == old(self).pos as int,
                spec_binary(toks, p0, min_bp) == spec_chain(toks, self.pos as int, min_bp, lhs),
            ensures
                self.wf(),
                self.same_source(*old(self)),
                self.errors == old(self).errors,
                self.pos > old(self).pos,
                expr_wf(lhs),
                spec_binary(toks, p0, min_bp) == (ParseStep {
                    result: Some(lhs),
                    next: self.pos as int,
                    issue: None,
                }),
            decreases self.tokens@.len() - self.pos,
        {
            let ghost it_pos = self.pos as int;
            let ghost it_lhs = lhs;
            let opk = match self.current_kind() {
                TokenKind::Plus => BinOp::Add,
                TokenKind::Minus => BinOp::Sub,
                TokenKind::Star => BinOp::Mul,
                TokenKind::Slash => BinOp::Div,
                TokenKind::Greater => BinOp::Greater,
                TokenKind::GreaterEqual => BinOp::Ge,
                TokenKind::Less => BinOp::Less,
                TokenKind::LessEqual => BinOp::Le,
                TokenKind::Mod => BinOp::Mod,
                TokenKind::Equal => BinOp::Equal,
                TokenKind::NotEqual => BinOp::NotEq,
                TokenKind::And => BinOp::And,
                TokenKind::Or => BinOp::Or,
                _ => {
                    proof {
                        assert(binop_of(self.cur().inner) is None);
                    }
                    break ;
                },
            };
            proof {
                assert(binop_of(self.cur().inner) == Some(opk));
            }
            let bp = opk.binding_power();
            if bp.0 < min_bp {
                break ;
            }
            proof {
                assert(self.cur().inner != TokenKind::Eof);
                assert(self.pos < self.tokens@.len() - 1);
            }
            let op_span = self.advance().span;
            let rhs = match self.parse_binary_expr(bp.1) {
                None => {
                    proof {
                        assert(spec_binary(toks, p0, min_bp) == spec_binary(
                            toks,
                            it_pos + 1,
                            spec_binding_power(opk).1,
                        ));
                    }
                    return None;
                },
                Some(e) => e,
            };
            let span = lhs.span.merge(rhs.span);
            lhs = Spanned::new(
                ExprKind::Binary {
                    op: Spanned::new(opk, op_span),
                    lhs: Box::new(lhs),
                    rhs: Box::new(rhs),
                },
                span,
            );
            proof {
                let r = spec_binary(toks, it_pos + 1, spec_binding_power(opk).1);
                assert(r.result == Some(rhs) && r.next == self.pos as int);
                assert(lhs == (Spanned {
                    inner: ExprKind::Binary {
                        op: Spanned { inner: opk, span: toks[it_pos].span },
                        lhs: Box::new(it_lhs),
                        rhs: Box::new(rhs),
                    },
                    span: it_lhs.span.spec_merge(rhs.span),
                }));
                assert(next_after(it_pos, r.next, toks.len() as int) == self.pos as int);
                assert(spec_chain(toks, it_pos, min_bp, it_lhs) == spec_chain(
                    toks,
                    self.pos as int,
                    min_bp,
                    lhs,
                ));
            }
        }
        Some(lhs)
    }
}

} // verus!
