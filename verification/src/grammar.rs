//! The statement grammar, stated over sequences of tokens.
//!
//! A stream is the sequence of tokens that are still to come, without the
//! closing end-of-input token: that one stands behind the last token of
//! every stream. Everything here is ghost code; the parser is verified
//! against it.

use vstd::prelude::*;
use crate::ast::{ExpressionView, StatementView};
use crate::error::{Expected, SyntaxErrorView};
use crate::token::TokenView;

verus! {

/// The token at the front of a stream.
pub open spec fn first(stream: Seq<TokenView>) -> TokenView {
    if stream.len() > 0 {
        stream[0]
    } else {
        TokenView::Eof
    }
}

/// The stream behind its first token. The end of the input stays where it is.
pub open spec fn advance(stream: Seq<TokenView>) -> Seq<TokenView> {
    if stream.len() > 0 {
        stream.drop_first()
    } else {
        stream
    }
}

/// Whether a statement ends at this token.
pub open spec fn terminator(token: TokenView) -> bool {
    token is Semicolon || token is Eof
}

/// The stream from its first terminator on.
pub open spec fn skip_to_terminator(stream: Seq<TokenView>) -> Seq<TokenView>
    decreases stream.len(),
{
    if terminator(first(stream)) {
        stream
    } else {
        skip_to_terminator(stream.drop_first())
    }
}

/// How many tokens stand in front of the first terminator of a stream.
pub open spec fn skipped(stream: Seq<TokenView>) -> nat {
    (stream.len() - skip_to_terminator(stream).len()) as nat
}

/// One statement as the parser reads it.
pub ghost struct Parsed {
    /// The statement.
    pub statement: StatementView,
    /// The syntax errors found in it, in the order of detection.
    pub errors: Seq<SyntaxErrorView>,
    /// The stream from the statement's terminator on.
    pub rest: Seq<TokenView>,
    /// How many times the parser moved on by one token, each time pulling
    /// one more token from the tokenizer.
    pub passed: nat,
}

/// The error of finding `found` where `expected` should stand.
pub open spec fn mismatch(expected: Expected, found: TokenView) -> SyntaxErrorView {
    SyntaxErrorView { expected, found }
}

/// A binding, read from a stream that starts with `let`.
///
/// The token behind `let` should be an identifier and the one behind that
/// the assignment sign; each that is not is an error, and is passed over all
/// the same. The tokens from there to the terminator are passed over
/// unread.
pub open spec fn let_statement(stream: Seq<TokenView>) -> Parsed
    recommends
        first(stream) is Let,
{
    let at_name = advance(stream);
    let at_sign = advance(at_name);
    Parsed {
        statement: StatementView::Let {
            name: match first(at_name) {
                TokenView::Ident(text) => text,
                _ => Seq::empty(),
            },
            value: ExpressionView::empty(),
        },
        errors: (if first(at_name) is Ident {
            Seq::empty()
        } else {
            seq![mismatch(Expected::Identifier, first(at_name))]
        }) + (if first(at_sign) is Assign {
            Seq::empty()
        } else {
            seq![mismatch(Expected::Assign, first(at_sign))]
        }),
        rest: skip_to_terminator(at_sign),
        passed: 2 + skipped(at_sign),
    }
}

/// A return, read from a stream that starts with `return`. The tokens from
/// there to the terminator are passed over unread.
pub open spec fn return_statement(stream: Seq<TokenView>) -> Parsed
    recommends
        first(stream) is Return,
{
    Parsed {
        statement: StatementView::Return { value: ExpressionView::empty() },
        errors: Seq::empty(),
        rest: skip_to_terminator(advance(stream)),
        passed: 1 + skipped(advance(stream)),
    }
}

/// The statement at the front of a stream that starts with `let` or
/// `return`.
pub open spec fn statement(stream: Seq<TokenView>) -> Parsed
    recommends
        first(stream) is Let || first(stream) is Return,
{
    if first(stream) is Let {
        let_statement(stream)
    } else {
        return_statement(stream)
    }
}

/// A whole stream as the parser reads it.
pub ghost struct Outcome {
    /// The statements read, in source order.
    pub statements: Seq<StatementView>,
    /// The syntax errors recorded, in the order of detection.
    pub errors: Seq<SyntaxErrorView>,
    /// The token at which reading stopped because it starts no statement.
    pub invalid: Option<TokenView>,
    /// The stream that was not read: empty unless reading stopped.
    pub unread: Seq<TokenView>,
    /// How many times the parser moved on by one token, each time pulling
    /// one more token from the tokenizer.
    pub passed: nat,
}

/// The statements of a stream, one behind the other, up to the end of the
/// input or to the first token that starts no statement.
pub open spec fn program(stream: Seq<TokenView>) -> Outcome
    decreases stream.len(),
    via program_terminates
{
    if first(stream) is Eof {
        Outcome {
            statements: Seq::empty(),
            errors: Seq::empty(),
            invalid: None,
            unread: Seq::empty(),
            passed: 0,
        }
    } else if first(stream) is Let || first(stream) is Return {
        let parsed = statement(stream);
        let tail = program(advance(parsed.rest));
        Outcome {
            statements: seq![parsed.statement] + tail.statements,
            errors: parsed.errors + tail.errors,
            invalid: tail.invalid,
            unread: tail.unread,
            passed: parsed.passed + 1 + tail.passed,
        }
    } else {
        Outcome {
            statements: Seq::empty(),
            errors: Seq::empty(),
            invalid: Some(first(stream)),
            unread: stream,
            passed: 0,
        }
    }
}

#[via_fn]
proof fn program_terminates(stream: Seq<TokenView>) {
    if first(stream) is Let || first(stream) is Return {
        lemma_statement_consumes(stream);
    }
}

/// Nothing but a token that starts no statement stops the reading of a
/// stream; syntax errors do not. Where none stops it, the whole stream is
/// read.
pub proof fn lemma_only_invalid_tokens_stop(stream: Seq<TokenView>)
    ensures
        match program(stream).invalid {
            Some(token) => {
                &&& token == first(program(stream).unread)
                &&& !(token is Let || token is Return || token is Eof)
            },
            None => program(stream).unread.len() == 0,
        },
    decreases stream.len(),
{
    if first(stream) is Let || first(stream) is Return {
        lemma_statement_consumes(stream);
        lemma_only_invalid_tokens_stop(advance(statement(stream).rest));
    }
}

/// A binding without a name is recorded and read all the same: the first
/// error names the identifier that was expected and the token that stood
/// in its place, the first statement is a binding without a name, and
/// reading goes on behind its terminator.
pub proof fn lemma_missing_identifier_is_recorded(stream: Seq<TokenView>)
    requires
        first(stream) is Let,
        !(first(advance(stream)) is Ident),
    ensures
        program(stream).errors.len() > 0,
        program(stream).errors[0] == mismatch(Expected::Identifier, first(advance(stream))),
        program(stream).errors[0].message() == "Expected identifier, got "@ + first(
            advance(stream),
        ).describe(),
        program(stream).statements == seq![
            StatementView::Let { name: Seq::empty(), value: ExpressionView::empty() },
        ] + program(advance(let_statement(stream).rest)).statements,
        program(stream).invalid == program(advance(let_statement(stream).rest)).invalid,
{
}

/// A well-formed statement and the tokens of its right-hand side.
pub ghost struct Sentence {
    pub statement: StatementView,
    pub body: Seq<TokenView>,
}

impl Sentence {
    /// The right-hand side holds no terminator, and the statement holds the
    /// empty expression, as every statement that is read does.
    pub open spec fn well_formed(self) -> bool {
        &&& forall|i: int| 0 <= i < self.body.len() ==> !terminator(#[trigger] self.body[i])
        &&& self.statement.value() == ExpressionView::empty()
    }

    /// The tokens of the sentence: `let`, the name and the assignment sign,
    /// or `return`; then the right-hand side and a semicolon.
    pub open spec fn written(self) -> Seq<TokenView> {
        match self.statement {
            StatementView::Let { name, .. } => seq![
                TokenView::Let,
                TokenView::Ident(name),
                TokenView::Assign,
            ] + self.body + seq![TokenView::Semicolon],
            StatementView::Return { .. } => seq![TokenView::Return] + self.body + seq![
                TokenView::Semicolon,
            ],
        }
    }
}

/// The statements of some sentences.
pub open spec fn statements_of(sentences: Seq<Sentence>) -> Seq<StatementView> {
    sentences.map_values(|sentence: Sentence| sentence.statement)
}

/// The tokens of some sentences, one behind the other.
pub open spec fn text_of(sentences: Seq<Sentence>) -> Seq<TokenView>
    decreases sentences.len(),
{
    if sentences.len() == 0 {
        Seq::empty()
    } else {
        sentences[0].written() + text_of(sentences.drop_first())
    }
}

/// Tokens that end no statement are passed over up to the semicolon behind
/// them.
pub proof fn lemma_skip_to_semicolon(body: Seq<TokenView>, more: Seq<TokenView>)
    requires
        forall|i: int| 0 <= i < body.len() ==> !terminator(#[trigger] body[i]),
    ensures
        skip_to_terminator(body + seq![TokenView::Semicolon] + more) == seq![
            TokenView::Semicolon,
        ] + more,
        skipped(body + seq![TokenView::Semicolon] + more) == body.len(),
    decreases body.len(),
{
    let stream = body + seq![TokenView::Semicolon] + more;
    if body.len() == 0 {
        assert(stream =~= seq![TokenView::Semicolon] + more);
    } else {
        assert(!terminator(body[0]));
        assert(stream.drop_first() =~= body.drop_first() + seq![TokenView::Semicolon] + more);
        lemma_skip_to_semicolon(body.drop_first(), more);
    }
}

/// A well-formed statement is read as it stands, without an error, and
/// reading goes on behind its semicolon.
pub proof fn lemma_well_formed_statement_is_read(sentence: Sentence, more: Seq<TokenView>)
    requires
        sentence.well_formed(),
    ensures
        program(sentence.written() + more).statements == seq![sentence.statement] + program(
            more,
        ).statements,
        program(sentence.written() + more).errors == program(more).errors,
        program(sentence.written() + more).invalid == program(more).invalid,
        program(sentence.written() + more).unread == program(more).unread,
        program(sentence.written() + more).passed == sentence.written().len() + program(
            more,
        ).passed,
{
    let stream = sentence.written() + more;
    let semicolon = seq![TokenView::Semicolon];
    match sentence.statement {
        StatementView::Let { name, value } => {
            let at_sign = advance(advance(stream));
            let sign = seq![TokenView::Assign];
            assert(first(advance(stream)) == TokenView::Ident(name));
            assert(at_sign =~= sign + sentence.body + semicolon + more);
            assert(at_sign.drop_first() =~= sentence.body + semicolon + more);
            lemma_skip_to_semicolon(sentence.body, more);
            assert(advance(let_statement(stream).rest) =~= more);
            assert(let_statement(stream).errors =~= Seq::empty());
            assert(program(stream).errors =~= program(more).errors);
        },
        StatementView::Return { value } => {
            assert(advance(stream) =~= sentence.body + semicolon + more);
            lemma_skip_to_semicolon(sentence.body, more);
            assert(advance(return_statement(stream).rest) =~= more);
            assert(program(stream).errors =~= program(more).errors);
        },
    }
}

/// Well-formed statements, as many as there may be, are read into a tree
/// that holds them all in source order, and no error is recorded.
pub proof fn lemma_well_formed_statements_are_read(sentences: Seq<Sentence>)
    requires
        forall|i: int| 0 <= i < sentences.len() ==> (#[trigger] sentences[i]).well_formed(),
    ensures
        program(text_of(sentences)).statements == statements_of(sentences),
        program(text_of(sentences)).statements.len() == sentences.len(),
        program(text_of(sentences)).errors == Seq::<SyntaxErrorView>::empty(),
        program(text_of(sentences)).invalid is None,
        program(text_of(sentences)).unread == Seq::<TokenView>::empty(),
        program(text_of(sentences)).passed == text_of(sentences).len(),
    decreases sentences.len(),
{
    if sentences.len() == 0 {
        assert(statements_of(sentences) =~= Seq::empty());
    } else {
        let more = sentences.drop_first();
        assert(sentences[0].well_formed());
        assert forall|i: int| 0 <= i < more.len() implies (#[trigger] more[i]).well_formed() by {
            assert(sentences[i + 1].well_formed());
        }
        lemma_well_formed_statements_are_read(more);
        lemma_well_formed_statement_is_read(sentences[0], text_of(more));
        assert(statements_of(sentences) =~= seq![sentences[0].statement] + statements_of(more));
        assert(program(text_of(sentences)).errors =~= Seq::<SyntaxErrorView>::empty());
    }
}

/// Passing over tokens never lengthens a stream.
pub proof fn lemma_skip_to_terminator_len(stream: Seq<TokenView>)
    ensures
        skip_to_terminator(stream).len() <= stream.len(),
    decreases stream.len(),
{
    if !terminator(first(stream)) {
        lemma_skip_to_terminator_len(stream.drop_first());
    }
}

/// A statement takes at least its first token off the stream.
pub proof fn lemma_statement_consumes(stream: Seq<TokenView>)
    requires
        stream.len() > 0,
    ensures
        statement(stream).rest.len() < stream.len(),
{
    lemma_skip_to_terminator_len(advance(stream));
    lemma_skip_to_terminator_len(advance(advance(stream)));
}

} // verus!
