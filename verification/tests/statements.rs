use rusty_interpreter::ast::{Ast, Expression, LetStatement, ReturnStatement, Statement};
use rusty_interpreter::error::{Expected, ParseError, SyntaxError};
use rusty_interpreter::lexer::{Lexer, Token};
use rusty_interpreter::parser::Parser;

fn parser(input: &str) -> Parser {
    let lexer = Lexer::new(input.to_string());
    assert!(lexer.is_supported());
    Parser::new(lexer)
}

/// The statements as text: `let NAME` or `return`.
fn shape(ast: &Ast) -> Vec<String> {
    let mut out = Vec::new();
    for statement in &ast.statements {
        match statement {
            Statement::LetStatement(LetStatement { name, value }) => {
                assert_eq!(*value, Expression::default());
                out.push(format!("let {}", name));
            }
            Statement::ReturnStatement(ReturnStatement { value }) => {
                assert_eq!(*value, Expression::default());
                out.push("return".to_string());
            }
        }
    }
    out
}

fn errors(parser: &Parser) -> Vec<(Expected, Token)> {
    let mut out = Vec::new();
    for SyntaxError { expected, found } in &parser.errors {
        out.push((*expected, found.clone()));
    }
    out
}

#[test]
fn three_statements_in_source_order() {
    let mut parser = parser("let x = 5; let s = 10; return 3;");
    let ast = parser.parse().unwrap();
    assert_eq!(shape(&ast), vec!["let x", "let s", "return"]);
    assert!(parser.errors.is_empty());
}

#[test]
fn empty_input_is_an_empty_program() {
    let mut parser = parser("");
    let ast = parser.parse().unwrap();
    assert_eq!(ast.statements.len(), 0);
    assert!(parser.errors.is_empty());
}

#[test]
fn the_right_hand_side_is_not_read() {
    let mut parser = parser("let x = fn(a, b) { a + b } @ 1.2.3; return let let = ;");
    let ast = parser.parse().unwrap();
    assert_eq!(shape(&ast), vec!["let x", "return"]);
    assert!(parser.errors.is_empty());
}

#[test]
fn a_statement_may_end_with_the_input() {
    let mut parser = parser("let x = 5");
    assert_eq!(shape(&parser.parse().unwrap()), vec!["let x"]);
    let mut parser = parser_of_return_without_semicolon();
    assert_eq!(shape(&parser.parse().unwrap()), vec!["return"]);
}

fn parser_of_return_without_semicolon() -> Parser {
    parser("return 1 + 2")
}

#[test]
fn return_alone() {
    let mut only = parser("return");
    assert_eq!(shape(&only.parse().unwrap()), vec!["return"]);
    let mut closed = parser("return;");
    assert_eq!(shape(&closed.parse().unwrap()), vec!["return"]);
    let mut twice = parser("return; return;");
    assert_eq!(shape(&twice.parse().unwrap()), vec!["return", "return"]);
}

#[test]
fn missing_identifier_is_recorded() {
    let mut parser = parser("let = 5;");
    let result = parser.parse();
    assert_eq!(
        errors(&parser),
        vec![
            (Expected::Identifier, Token::Assign),
            (Expected::Assign, Token::Num("5".to_string())),
        ]
    );
    assert_eq!(parser.errors[0].message(), "Expected identifier, got Assign");
    assert_eq!(parser.errors[1].message(), "Expected Assign, got Num(\"5\")");
    match result {
        Err(ParseError::ErrorsFound { count, ast }) => {
            assert_eq!(count, 2);
            assert_eq!(shape(&ast), vec!["let "]);
        }
        _ => panic!(),
    }
}

#[test]
fn parsing_goes_on_behind_a_malformed_statement() {
    let mut parser = parser("let = 5; let y = 1; return y;");
    let result = parser.parse();
    assert_eq!(parser.errors.len(), 2);
    match result {
        Err(ParseError::ErrorsFound { count, ast }) => {
            assert_eq!(count, 2);
            assert_eq!(shape(&ast), vec!["let ", "let y", "return"]);
        }
        _ => panic!(),
    }
}

#[test]
fn missing_assignment_is_recorded() {
    let mut parser = parser("let x 5; return x;");
    let result = parser.parse();
    assert_eq!(
        errors(&parser),
        vec![(Expected::Assign, Token::Num("5".to_string()))]
    );
    assert_eq!(parser.errors[0].message(), "Expected Assign, got Num(\"5\")");
    match result {
        Err(error) => {
            assert_eq!(error.message(), "1 errors found");
            match error {
                ParseError::ErrorsFound { count, ast } => {
                    assert_eq!(count, 1);
                    assert_eq!(shape(&ast), vec!["let x", "return"]);
                }
                _ => panic!(),
            }
        }
        Ok(_) => panic!(),
    }
}

#[test]
fn let_at_the_end_of_the_input() {
    let mut parser = parser("let");
    let result = parser.parse();
    assert_eq!(
        errors(&parser),
        vec![(Expected::Identifier, Token::Eof), (Expected::Assign, Token::Eof)]
    );
    assert_eq!(parser.errors[0].message(), "Expected identifier, got Eof");
    assert_eq!(parser.errors[1].message(), "Expected Assign, got Eof");
    match result {
        Err(ParseError::ErrorsFound { count, ast }) => {
            assert_eq!(count, 2);
            assert_eq!(shape(&ast), vec!["let "]);
        }
        _ => panic!(),
    }
}

#[test]
fn a_name_without_the_rest() {
    let mut parser = parser("let x;");
    let result = parser.parse();
    assert_eq!(errors(&parser), vec![(Expected::Assign, Token::Semicolon)]);
    match result {
        Err(ParseError::ErrorsFound { count, ast }) => {
            assert_eq!(count, 1);
            assert_eq!(shape(&ast), vec!["let x"]);
        }
        _ => panic!(),
    }
}

#[test]
fn recovery_passes_over_two_tokens_before_it_looks_for_the_end() {
    // The semicolon and the second `let` stand where the name and the sign
    // should: both are passed over, and the first statement runs to the
    // last semicolon.
    let mut parser = parser("let ; let y = 1;");
    let result = parser.parse();
    assert_eq!(
        errors(&parser),
        vec![
            (Expected::Identifier, Token::Semicolon),
            (Expected::Assign, Token::Let),
        ]
    );
    match result {
        Err(ParseError::ErrorsFound { count, ast }) => {
            assert_eq!(count, 2);
            assert_eq!(shape(&ast), vec!["let "]);
        }
        _ => panic!(),
    }
}

#[test]
fn illegal_tokens_are_faults_of_the_parser() {
    let mut parser = parser("let @ = 1;");
    let result = parser.parse();
    assert_eq!(errors(&parser), vec![(Expected::Identifier, Token::Illegal)]);
    assert_eq!(parser.errors[0].message(), "Expected identifier, got Illegal");
    assert!(matches!(result, Err(ParseError::ErrorsFound { count: 1, .. })));
}

#[test]
fn a_token_that_starts_no_statement_stops_the_parse() {
    let mut parser = parser("x = 5;");
    match parser.parse() {
        Err(error) => {
            assert_eq!(error.message(), "Invalid token");
            match error {
                ParseError::InvalidToken(token) => {
                    assert_eq!(token, Token::Ident("x".to_string()))
                }
                _ => panic!(),
            }
        }
        Ok(_) => panic!(),
    }
    assert!(parser.errors.is_empty());
}

#[test]
fn a_stop_comes_before_the_count_of_errors() {
    let mut parser = parser("let = 1; 5;");
    match parser.parse() {
        Err(ParseError::InvalidToken(token)) => assert_eq!(token, Token::Num("5".to_string())),
        _ => panic!(),
    }
    assert_eq!(parser.errors.len(), 2);
}

#[test]
fn a_stray_semicolon_stops_the_parse() {
    let mut parser = parser("let x = 1;;");
    match parser.parse() {
        Err(ParseError::InvalidToken(token)) => assert_eq!(token, Token::Semicolon),
        _ => panic!(),
    }
}

#[test]
fn parse_on_a_finished_parser_reads_nothing() {
    let mut parser = parser("let x = 1;");
    assert_eq!(shape(&parser.parse().unwrap()), vec!["let x"]);
    assert_eq!(parser.parse().unwrap().statements.len(), 0);
}

#[test]
fn earlier_errors_stay_on_record() {
    let mut parser = parser("let = 1;");
    assert!(matches!(
        parser.parse(),
        Err(ParseError::ErrorsFound { count: 2, .. })
    ));
    match parser.parse() {
        Err(ParseError::ErrorsFound { count, ast }) => {
            assert_eq!(count, 2);
            assert_eq!(ast.statements.len(), 0);
        }
        _ => panic!(),
    }
}

#[test]
fn whitespace_does_not_change_the_tree() {
    let mut dense = parser("let x=5;return x;");
    let mut loose = parser("\n let \t x \r\n = 5 ;\n\n return\tx ; ");
    assert_eq!(shape(&dense.parse().unwrap()), shape(&loose.parse().unwrap()));
}

#[test]
fn messages_of_failures() {
    let stopped = ParseError::InvalidToken(Token::Plus);
    assert_eq!(stopped.message(), "Invalid token");
    let none = ParseError::ErrorsFound { count: 0, ast: Ast::new() };
    assert_eq!(none.message(), "0 errors found");
    let few = ParseError::ErrorsFound { count: 7, ast: Ast::new() };
    assert_eq!(few.message(), "7 errors found");
    let ten = ParseError::ErrorsFound { count: 10, ast: Ast::new() };
    assert_eq!(ten.message(), "10 errors found");
    let many = ParseError::ErrorsFound { count: 1234567890, ast: Ast::new() };
    assert_eq!(many.message(), "1234567890 errors found");
    let most = ParseError::ErrorsFound { count: usize::MAX, ast: Ast::new() };
    assert_eq!(most.message(), format!("{} errors found", usize::MAX));
}

#[test]
fn messages_of_syntax_errors() {
    let name = SyntaxError {
        expected: Expected::Identifier,
        found: Token::Num("5".to_string()),
    };
    assert_eq!(name.message(), "Expected identifier, got Num(\"5\")");
    let sign = SyntaxError {
        expected: Expected::Assign,
        found: Token::Ident("y".to_string()),
    };
    assert_eq!(sign.message(), "Expected Assign, got Ident(\"y\")");
    let end = SyntaxError { expected: Expected::Assign, found: Token::Eof };
    assert_eq!(end.message(), "Expected Assign, got Eof");
}

#[test]
fn new_nodes_are_empty() {
    let binding = LetStatement::new();
    assert_eq!(binding.name, "");
    assert_eq!(binding.value, Expression::default());
    let ret = ReturnStatement::new();
    assert_eq!(ret.value, Expression::default());
    assert_eq!(Ast::new().statements.len(), 0);
}

#[test]
fn the_empty_expression() {
    let empty = Expression::default();
    assert_eq!(empty.token, Token::Ident(String::new()));
    assert_eq!(empty.value, "");
    let other = Expression { token: Token::Plus, value: String::new() };
    assert_ne!(empty, other);
    let text = Expression { token: Token::default(), value: "1".to_string() };
    assert_ne!(empty, text);
}

fn primed(input: &str) -> Parser {
    let lexer = Lexer::new(input.to_string());
    assert!(lexer.can_read(2));
    Parser::new(lexer)
}

#[test]
fn priming_pulls_two_tokens_and_no_more() {
    let lexer = Lexer::new("5; &".to_string());
    assert!(!lexer.is_supported());
    assert!(lexer.can_read(2));
    assert!(!lexer.can_read(3));
    let mut parser = Parser::new(lexer);
    match parser.try_parse() {
        Some(Err(ParseError::InvalidToken(token))) => {
            assert_eq!(token, Token::Num("5".to_string()))
        }
        _ => panic!(),
    }
    assert!(parser.errors.is_empty());
}

#[test]
fn a_stop_in_front_of_a_reserved_operator() {
    let mut parser = primed("return 1; 5; & x");
    match parser.try_parse() {
        Some(Err(ParseError::InvalidToken(token))) => {
            assert_eq!(token, Token::Num("5".to_string()))
        }
        _ => panic!(),
    }
    // One token is pulled ahead of the one that stops the parse.
    assert!(primed("let x = 1; ; |").try_parse().is_none());
    let mut parser = primed("let x = 1; ; ; |");
    match parser.try_parse() {
        Some(Err(ParseError::InvalidToken(token))) => assert_eq!(token, Token::Semicolon),
        _ => panic!(),
    }
}

#[test]
fn a_reserved_operator_on_the_way_leaves_no_answer() {
    assert!(primed("let x = a & b;").try_parse().is_none());
    assert!(primed("return 1 | 2;").try_parse().is_none());
    assert!(primed("let x = 1; &").try_parse().is_none());
    assert!(primed("let x = 1; 5 &").try_parse().is_none());
    assert!(primed("let x = 1; return &").try_parse().is_none());
    assert!(primed("let x &").try_parse().is_none());
    assert!(primed("return; let | = 1;").try_parse().is_none());
}

#[test]
fn try_parse_answers_as_parse_does() {
    let mut tried = primed("let x = 5; let s = 10; return 3;");
    assert_eq!(
        shape(&tried.try_parse().unwrap().unwrap()),
        vec!["let x", "let s", "return"]
    );
    let mut failed = primed("let = 5; return;");
    match failed.try_parse() {
        Some(Err(ParseError::ErrorsFound { count, ast })) => {
            assert_eq!(count, 2);
            assert_eq!(shape(&ast), vec!["let ", "return"]);
        }
        _ => panic!(),
    }
    let mut empty = primed("");
    assert_eq!(empty.try_parse().unwrap().unwrap().statements.len(), 0);
}

#[test]
fn a_failed_dispatch_consumes_nothing() {
    let mut parser = primed("5; return 1;");
    assert!(matches!(
        parser.try_parse(),
        Some(Err(ParseError::InvalidToken(Token::Num(_))))
    ));
    // The parser still stands at the same token.
    assert!(matches!(
        parser.try_parse(),
        Some(Err(ParseError::InvalidToken(Token::Num(_))))
    ));
    assert!(parser.errors.is_empty());
}
