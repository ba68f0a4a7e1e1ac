use rusty_interpreter::ast::{Expression, LetStatement, ReturnStatement, Statement};
use rusty_interpreter::lexer::Lexer;
use rusty_interpreter::lexer::Token;
use rusty_interpreter::parser::Parser;

#[test]
fn parsing() {
    let input = "let x = 5;
    let s = 10;
    
    return 3;
    ";

    let lexer = Lexer::new(input.to_string());
    assert!(lexer.is_supported());
    let mut parser = Parser::new(lexer);

    let ast = match parser.parse() {
        Ok(ast) => ast,
        Err(e) => {
            println!("{}", e.message());
            println!("Parses Errors:");
            for e in parser.errors {
                println!("{}", e.message());
            }
            panic!();
        }
    };

    assert_eq!(ast.statements.len(), 3);

    let mut expected = vec!["x", "s"];

    for statement in ast.statements {
        match statement {
            Statement::LetStatement(LetStatement { name, value }) => {
                assert_eq!(name, expected.remove(0));
                assert_eq!(value, Expression::default());
            }
            Statement::ReturnStatement(ReturnStatement { value }) => {
                assert_eq!(value, Expression::default());
            }
        }
    }
}

#[test]
fn lexing() {
    let input = "let five = 5;
    let ten = 10;
    let add = fn(x, y) {
        x + y;
    };
    let result = add(five, ten);
    !-/*5;
    5 < 10 > 5;

    if (5 < 10) {
        return true;
    } else {
        return false;
    }

    10 == 10;
    10 != 9;

    ten <= 10;

    ten >= 9;

    ";

    let mut lex = Lexer::new(input.to_string());
    assert!(lex.is_supported());

    let tokens = vec![
        Token::Let,
        Token::Ident("five".to_string()),
        Token::Assign,
        Token::Num("5".to_string()),
        Token::Semicolon,
        Token::Let,
        Token::Ident("ten".to_string()),
        Token::Assign,
        Token::Num("10".to_string()),
        Token::Semicolon,
        Token::Let,
        Token::Ident("add".to_string()),
        Token::Assign,
        Token::Function,
        Token::LParen,
        Token::Ident("x".to_string()),
        Token::Comma,
        Token::Ident("y".to_string()),
        Token::RParen,
        Token::LSquigly,
        Token::Ident("x".to_string()),
        Token::Plus,
        Token::Ident("y".to_string()),
        Token::Semicolon,
        Token::RSquigly,
        Token::Semicolon,
        Token::Let,
        Token::Ident("result".to_string()),
        Token::Assign,
        Token::Ident("add".to_string()),
        Token::LParen,
        Token::Ident("five".to_string()),
        Token::Comma,
        Token::Ident("ten".to_string()),
        Token::RParen,
        Token::Semicolon,
        Token::Bang,
        Token::Minus,
        Token::Slash,
        Token::Asterisk,
        Token::Num("5".to_string()),
        Token::Semicolon,
        Token::Num("5".to_string()),
        Token::LessThan,
        Token::Num("10".to_string()),
        Token::GreaterThan,
        Token::Num("5".to_string()),
        Token::Semicolon,
        Token::If,
        Token::LParen,
        Token::Num("5".to_string()),
        Token::LessThan,
        Token::Num("10".to_string()),
        Token::RParen,
        Token::LSquigly,
        Token::Return,
        Token::True,
        Token::Semicolon,
        Token::RSquigly,
        Token::Else,
        Token::LSquigly,
        Token::Return,
        Token::False,
        Token::Semicolon,
        Token::RSquigly,
        Token::Num("10".to_string()),
        Token::Equal,
        Token::Num("10".to_string()),
        Token::Semicolon,
        Token::Num("10".to_string()),
        Token::NotEqual,
        Token::Num("9".to_string()),
        Token::Semicolon,
        Token::Ident("ten".to_string()),
        Token::LessThanEqual,
        Token::Num("10".to_string()),
        Token::Semicolon,
        Token::Ident("ten".to_string()),
        Token::GreaterThanEqual,
        Token::Num("9".to_string()),
        Token::Semicolon,
        Token::Eof,
    ];

    for token in tokens {
        println!("{:?}", token);
        assert_eq!(token, lex.next_token())
    }
}
