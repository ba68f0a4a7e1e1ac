//! The statement parser: it pulls tokens from a tokenizer, one ahead of the
//! one it looks at, and builds the syntax tree.

use vstd::prelude::*;
use vstd::pervasive::unreached;
use crate::ast::{Ast, LetStatement, ReturnStatement, Statement};
use crate::error::{error_views, Expected, ParseError, ParseErrorView, SyntaxError, SyntaxErrorView};
use crate::grammar::{
    advance, first, let_statement, program, return_statement, skip_to_terminator, skipped,
    statement,
};
use crate::grammar::{lemma_skip_to_terminator_len, lemma_statement_consumes};
use crate::lexer::Lexer;
use crate::scan::{after, head, readable, reserved, rest, supported, tokens, trim};
use crate::scan::{
    lemma_head_is_eof, lemma_readable_in_two, lemma_rest_is_shorter, lemma_supported_is_readable,
    lemma_trim_idempotent,
};
use crate::token::{Token, TokenView};

verus! {

/// A parser over the tokens of one tokenizer, which it owns.
pub struct Parser {
    lexer: Lexer,
    current_token: Token,
    /// The syntax errors recorded so far, in the order of detection.
    pub errors: Vec<SyntaxError>,
    peek_token: Token,
}

impl Parser {
    /// The invariant of a parser: its tokenizer is in order, and behind the
    /// end of the input nothing but the end of the input follows.
    pub closed spec fn wf(&self) -> bool {
        &&& self.lexer.wf()
        &&& (self.current_token@ is Eof ==> self.peek_token@ is Eof)
        &&& (self.peek_token@ is Eof ==> trim(self.lexer.unread()).len() == 0)
    }

    /// The stream of tokens that the parser has not consumed: the current
    /// token, the one ahead, and those that the tokenizer has yet to read.
    pub closed spec fn pending(&self) -> Seq<TokenView> {
        if self.current_token@ is Eof {
            Seq::empty()
        } else if self.peek_token@ is Eof {
            seq![self.current_token@]
        } else {
            seq![self.current_token@, self.peek_token@] + tokens(self.lexer.unread())
        }
    }

    /// The bytes that the parser's tokenizer has not read: those behind the
    /// token ahead.
    pub closed spec fn unread(&self) -> Seq<u8> {
        self.lexer.unread()
    }

    /// The syntax errors on record, in the order of detection.
    pub closed spec fn recorded(&self) -> Seq<SyntaxErrorView> {
        error_views(self.errors@)
    }

    /// Whether a parse meets no reserved operator: the tokenizer can hand out
    /// every token that the parse pulls from it. Tokens behind the one at
    /// which a parse stops are not pulled, and may be anything.
    pub open spec fn can_parse(&self) -> bool {
        readable(self.unread(), program(self.pending()).passed)
    }

    /// Where the tokenizer was given nothing but input without reserved
    /// operators, every parse can be made.
    pub proof fn lemma_supported_can_parse(&self)
        requires
            supported(self.unread()),
        ensures
            self.can_parse(),
    {
        lemma_supported_is_readable(self.unread(), program(self.pending()).passed);
    }

    /// A parser at the first token of what `lexer` has not read. It pulls
    /// the first two tokens, which the tokenizer must be able to hand out,
    /// and no more.
    pub fn new(lexer: Lexer) -> (parser: Self)
        requires
            lexer.wf(),
            readable(lexer.unread(), 2),
        ensures
            parser.wf(),
            parser.pending() == tokens(lexer.unread()),
            first(parser.pending()) == head(lexer.unread()),
            first(advance(parser.pending())) == head(rest(lexer.unread())),
            parser.unread() == after(lexer.unread(), 2),
            parser.recorded() == Seq::<SyntaxErrorView>::empty(),
    {
        let ghost input = lexer.unread();
        let mut lexer = lexer;
        proof {
            reveal_with_fuel(readable, 3);
            reveal_with_fuel(after, 3);
            lemma_head_is_eof(input);
            lemma_rest_is_shorter(input);
            lemma_trim_idempotent(input);
        }
        let current_token = lexer.next_token();
        proof {
            lemma_head_is_eof(rest(input));
            lemma_rest_is_shorter(rest(input));
            lemma_trim_idempotent(rest(input));
        }
        let peek_token = lexer.next_token();
        let parser = Parser { lexer, current_token, peek_token, errors: Vec::new() };
        assert(trim(rest(input)).len() > 0 ==> tokens(rest(input)) == seq![head(rest(input))]
            + tokens(rest(rest(input))));
        assert(trim(rest(input)).len() == 0 ==> tokens(rest(input)) == Seq::<TokenView>::empty());
        assert(parser.pending() =~= tokens(input));
        assert(parser.recorded() =~= Seq::empty());
        parser
    }

    /// Moves one token on: the token ahead becomes the current one, and the
    /// next one is pulled from the tokenizer. Where a reserved operator
    /// comes next the parser stays as it is, and the answer is `false`.
    fn next_token(&mut self) -> (moved: bool)
        requires
            old(self).wf(),
        ensures
            final(self).wf(),
            moved == !reserved(trim(old(self).unread())),
            moved ==> {
                &&& final(self).pending() == advance(old(self).pending())
                &&& final(self).unread() == rest(old(self).unread())
                &&& final(self).errors == old(self).errors
            },
            !moved ==> *final(self) == *old(self),
    {
        if self.lexer.reserved_ahead() {
            return false;
        }
        let ghost input = self.lexer.unread();
        proof {
            lemma_head_is_eof(input);
            lemma_rest_is_shorter(input);
            lemma_trim_idempotent(input);
        }
        self.current_token = self.peek_token.clone();
        self.peek_token = self.lexer.next_token();
        assert(self.pending() =~= advance(old(self).pending()));
        true
    }

    /// Passes over every token up to the terminator, unless a reserved
    /// operator comes first.
    fn skip_statement(&mut self) -> (done: bool)
        requires
            old(self).wf(),
        ensures
            final(self).wf(),
            final(self).errors == old(self).errors,
            done == readable(old(self).unread(), skipped(old(self).pending())),
            done ==> {
                &&& final(self).pending() == skip_to_terminator(old(self).pending())
                &&& final(self).unread() == after(old(self).unread(), skipped(old(self).pending()))
            },
    {
        while self.current_token != Token::Semicolon && self.current_token != Token::Eof
            invariant
                self.wf(),
                self.errors == old(self).errors,
                skip_to_terminator(self.pending()) == skip_to_terminator(old(self).pending()),
                readable(old(self).unread(), skipped(old(self).pending())) == readable(
                    self.unread(),
                    skipped(self.pending()),
                ),
                after(old(self).unread(), skipped(old(self).pending())) == after(
                    self.unread(),
                    skipped(self.pending()),
                ),
            decreases self.pending().len(),
        {
            proof {
                lemma_skip_to_terminator_len(self.pending().drop_first());
            }
            if !self.next_token() {
                return false;
            }
        }
        true
    }

    /// Reads a return statement: passes over `return` and over every token
    /// up to the terminator. Where a reserved operator comes first there is
    /// no statement.
    fn parse_return_statement(&mut self) -> (parsed: Option<Statement>)
        requires
            old(self).wf(),
            first(old(self).pending()) is Return,
        ensures
            final(self).wf(),
            final(self).errors == old(self).errors,
            parsed is Some == readable(
                old(self).unread(),
                return_statement(old(self).pending()).passed,
            ),
            parsed matches Some(read) ==> {
                &&& read@ == return_statement(old(self).pending()).statement
                &&& final(self).pending() == return_statement(old(self).pending()).rest
                &&& final(self).unread() == after(
                    old(self).unread(),
                    return_statement(old(self).pending()).passed,
                )
            },
    {
        let statement = ReturnStatement::new();
        proof {
            lemma_readable_in_two(old(self).unread(), 1, skipped(advance(old(self).pending())));
            reveal_with_fuel(readable, 2);
            reveal_with_fuel(after, 2);
        }
        if !self.next_token() {
            return None;
        }
        if !self.skip_statement() {
            return None;
        }
        Some(Statement::ReturnStatement(statement))
    }

    /// Reads a binding. A missing name and a missing assignment sign are
    /// recorded as errors; the statement is returned all the same. Where a
    /// reserved operator comes before the terminator there is no statement.
    fn parse_let_statement(&mut self) -> (parsed: Option<Statement>)
        requires
            old(self).wf(),
            first(old(self).pending()) is Let,
        ensures
            final(self).wf(),
            parsed is Some == readable(old(self).unread(), let_statement(old(self).pending()).passed),
            parsed matches Some(read) ==> {
                &&& read@ == let_statement(old(self).pending()).statement
                &&& final(self).pending() == let_statement(old(self).pending()).rest
                &&& final(self).unread() == after(
                    old(self).unread(),
                    let_statement(old(self).pending()).passed,
                )
                &&& final(self).recorded() == old(self).recorded() + let_statement(
                    old(self).pending(),
                ).errors
            },
    {
        let mut statement = LetStatement::new();
        proof {
            lemma_readable_in_two(
                old(self).unread(),
                2,
                skipped(advance(advance(old(self).pending()))),
            );
            reveal_with_fuel(readable, 3);
            reveal_with_fuel(after, 3);
        }

        match &self.peek_token {
            Token::Ident(name) => {
                statement.name = name.clone();
            },
            _ => {
                let found = self.peek_token.clone();
                self.errors.push(SyntaxError { expected: Expected::Identifier, found });
            },
        }
        if !self.next_token() {
            return None;
        }
        match &self.peek_token {
            Token::Assign => {},
            _ => {
                let found = self.peek_token.clone();
                self.errors.push(SyntaxError { expected: Expected::Assign, found });
            },
        }
        if !self.next_token() {
            return None;
        }
        assert(self.recorded() =~= old(self).recorded() + let_statement(old(self).pending()).errors);

        if !self.skip_statement() {
            return None;
        }
        Some(Statement::LetStatement(statement))
    }

    /// Reads the statement that the current token starts, or fails if it
    /// starts none, and leaves the parser as it is then. Where a reserved
    /// operator comes before the statement's terminator there is no answer.
    fn parse_statement(&mut self) -> (result: Option<Result<Statement, ParseError>>)
        requires
            old(self).wf(),
        ensures
            final(self).wf(),
            result is None <==> {
                &&& first(old(self).pending()) is Let || first(old(self).pending()) is Return
                &&& !readable(old(self).unread(), statement(old(self).pending()).passed)
            },
            match result {
                Some(Ok(parsed)) => {
                    &&& first(old(self).pending()) is Let || first(old(self).pending()) is Return
                    &&& parsed@ == statement(old(self).pending()).statement
                    &&& final(self).pending() == statement(old(self).pending()).rest
                    &&& final(self).unread() == after(
                        old(self).unread(),
                        statement(old(self).pending()).passed,
                    )
                    &&& final(self).recorded() == old(self).recorded() + statement(
                        old(self).pending(),
                    ).errors
                },
                Some(Err(error)) => {
                    &&& !(first(old(self).pending()) is Let || first(old(self).pending()) is Return)
                    &&& error@ == ParseErrorView::InvalidToken(first(old(self).pending()))
                    &&& *final(self) == *old(self)
                },
                None => true,
            },
    {
        match self.current_token {
            Token::Let => match self.parse_let_statement() {
                Some(parsed) => Some(Ok(parsed)),
                None => None,
            },
            Token::Return => match self.parse_return_statement() {
                Some(parsed) => {
                    assert(self.recorded() =~= old(self).recorded() + Seq::empty());
                    Some(Ok(parsed))
                },
                None => None,
            },
            _ => Some(Err(ParseError::InvalidToken(self.current_token.clone()))),
        }
    }

    /// Parses everything that is left, if no reserved operator is met on the
    /// way.
    ///
    /// Statements are read one behind the other up to the end of the input.
    /// A malformed binding adds to `errors` and does not stop the parse; a
    /// token that starts no statement stops it at once, with the parser left
    /// at that token.
    ///
    /// The answer is the tree if no error is on record at the end. If some
    /// are, it is their number, together with the tree, which holds a
    /// statement for every one that was read, malformed or not. If the parse
    /// was stopped, it is the token that stopped it. There is no answer
    /// where the parse came upon a lone `&` or `|`, for which the tokenizer
    /// has no token; the parser is then left inside the statement that it
    /// was reading.
    pub fn try_parse(&mut self) -> (result: Option<Result<Ast, ParseError>>)
        requires
            old(self).wf(),
        ensures
            final(self).wf(),
            result is Some == old(self).can_parse(),
            result is Some ==> {
                &&& final(self).pending() == program(old(self).pending()).unread
                &&& final(self).unread() == after(
                    old(self).unread(),
                    program(old(self).pending()).passed,
                )
                &&& final(self).recorded() == old(self).recorded() + program(
                    old(self).pending(),
                ).errors
            },
            match result {
                Some(Ok(ast)) => {
                    &&& program(old(self).pending()).invalid is None
                    &&& final(self).recorded().len() == 0
                    &&& ast@ == program(old(self).pending()).statements
                },
                Some(Err(ParseError::ErrorsFound { count, ast })) => {
                    &&& program(old(self).pending()).invalid is None
                    &&& count == final(self).recorded().len()
                    &&& count > 0
                    &&& ast@ == program(old(self).pending()).statements
                },
                Some(Err(ParseError::InvalidToken(token))) => {
                    program(old(self).pending()).invalid == Some(token@)
                },
                None => true,
            },
    {
        let mut ast = Ast::new();
        let ghost whole = program(old(self).pending());
        let ghost recorded = old(self).recorded();
        let ghost input = old(self).unread();

        while self.current_token != Token::Eof
            invariant
                self.wf(),
                whole == program(old(self).pending()),
                recorded == old(self).recorded(),
                input == old(self).unread(),
                whole.statements == ast@ + program(self.pending()).statements,
                recorded + whole.errors == self.recorded() + program(self.pending()).errors,
                whole.invalid == program(self.pending()).invalid,
                whole.unread == program(self.pending()).unread,
                readable(input, whole.passed) == readable(
                    self.unread(),
                    program(self.pending()).passed,
                ),
                after(input, whole.passed) == after(self.unread(), program(self.pending()).passed),
            decreases self.pending().len(),
        {
            let ghost stream = self.pending();
            let ghost bytes = self.unread();
            let ghost seen = ast@;
            let ghost errors = self.recorded();
            proof {
                let parsed = statement(stream);
                let tail = program(advance(parsed.rest));
                lemma_readable_in_two(bytes, parsed.passed, 1 + tail.passed);
                lemma_readable_in_two(after(bytes, parsed.passed), 1, tail.passed);
                reveal_with_fuel(readable, 2);
                reveal_with_fuel(after, 2);
            }
            let next = match self.parse_statement() {
                Some(Ok(next)) => next,
                Some(Err(e)) => {
                    return Some(Err(e));
                },
                None => {
                    return None;
                },
            };
            ast.statements.push(next);
            proof {
                lemma_statement_consumes(stream);
            }
            if !self.next_token() {
                return None;
            }
            proof {
                let parsed = statement(stream);
                let tail = program(self.pending());
                assert(ast@ =~= seen.push(parsed.statement));
                assert(ast@ + tail.statements =~= seen + (seq![parsed.statement] + tail.statements));
                assert(self.recorded() + tail.errors =~= errors + (parsed.errors + tail.errors));
            }
        }

        if self.errors.len() > 0 {
            return Some(Err(ParseError::ErrorsFound { count: self.errors.len(), ast }));
        }
        Some(Ok(ast))
    }

    /// Parses everything that is left. The parse must meet no reserved
    /// operator; `try_parse` is for callers who cannot tell.
    ///
    /// Statements are read one behind the other up to the end of the input.
    /// A malformed binding adds to `errors` and does not stop the parse; a
    /// token that starts no statement stops it at once, with the parser left
    /// at that token.
    ///
    /// The result is the tree if no error is on record at the end. If some
    /// are, it is their number, together with the tree, which holds a
    /// statement for every one that was read, malformed or not. If the parse
    /// was stopped, it is the token that stopped it.
    pub fn parse(&mut self) -> (result: Result<Ast, ParseError>)
        requires
            old(self).wf(),
            old(self).can_parse(),
        ensures
            final(self).wf(),
            final(self).pending() == program(old(self).pending()).unread,
            final(self).unread() == after(old(self).unread(), program(old(self).pending()).passed),
            final(self).recorded() == old(self).recorded() + program(old(self).pending()).errors,
            match result {
                Ok(ast) => {
                    &&& program(old(self).pending()).invalid is None
                    &&& final(self).recorded().len() == 0
                    &&& ast@ == program(old(self).pending()).statements
                },
                Err(ParseError::ErrorsFound { count, ast }) => {
                    &&& program(old(self).pending()).invalid is None
                    &&& count == final(self).recorded().len()
                    &&& count > 0
                    &&& ast@ == program(old(self).pending()).statements
                },
                Err(ParseError::InvalidToken(token)) => {
                    program(old(self).pending()).invalid == Some(token@)
                },
            },
    {
        match self.try_parse() {
            Some(result) => result,
            None => unreached(),
        }
    }
}

} // verus!
