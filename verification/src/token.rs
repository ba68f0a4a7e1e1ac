//! Tokens, the smallest lexical units of the language.

use vstd::prelude::*;

verus! {

/// A lexical unit. Identifiers and numeric literals carry their source text.
#[derive(Debug)]
pub enum Token {
    Illegal,
    Eof,
    Ident(String),
    Num(String),
    Assign,
    Plus,
    Comma,
    Semicolon,
    LParen,
    RParen,
    LSquigly,
    RSquigly,
    Function,
    Let,
    Equal,
    NotEqual,
    Bang,
    Minus,
    Slash,
    Asterisk,
    LessThan,
    GreaterThan,
    LessThanEqual,
    GreaterThanEqual,
    LBracket,
    RBracket,
    If,
    Else,
    True,
    False,
    Return,
    And,
    Or,
    Xor,
}

/// The mathematical value of a [`Token`]: the same variants, with the text
/// of identifiers and numeric literals as character sequences.
pub ghost enum TokenView {
    Illegal,
    Eof,
    Ident(Seq<char>),
    Num(Seq<char>),
    Assign,
    Plus,
    Comma,
    Semicolon,
    LParen,
    RParen,
    LSquigly,
    RSquigly,
    Function,
    Let,
    Equal,
    NotEqual,
    Bang,
    Minus,
    Slash,
    Asterisk,
    LessThan,
    GreaterThan,
    LessThanEqual,
    GreaterThanEqual,
    LBracket,
    RBracket,
    If,
    Else,
    True,
    False,
    Return,
    And,
    Or,
    Xor,
}

impl View for Token {
    type V = TokenView;

    open spec fn view(&self) -> TokenView {
        match self {
            Token::Illegal => TokenView::Illegal,
            Token::Eof => TokenView::Eof,
            Token::Ident(text) => TokenView::Ident(text@),
            Token::Num(text) => TokenView::Num(text@),
            Token::Assign => TokenView::Assign,
            Token::Plus => TokenView::Plus,
            Token::Comma => TokenView::Comma,
            Token::Semicolon => TokenView::Semicolon,
            Token::LParen => TokenView::LParen,
            Token::RParen => TokenView::RParen,
            Token::LSquigly => TokenView::LSquigly,
            Token::RSquigly => TokenView::RSquigly,
            Token::Function => TokenView::Function,
            Token::Let => TokenView::Let,
            Token::Equal => TokenView::Equal,
            Token::NotEqual => TokenView::NotEqual,
            Token::Bang => TokenView::Bang,
            Token::Minus => TokenView::Minus,
            Token::Slash => TokenView::Slash,
            Token::Asterisk => TokenView::Asterisk,
            Token::LessThan => TokenView::LessThan,
            Token::GreaterThan => TokenView::GreaterThan,
            Token::LessThanEqual => TokenView::LessThanEqual,
            Token::GreaterThanEqual => TokenView::GreaterThanEqual,
            Token::LBracket => TokenView::LBracket,
            Token::RBracket => TokenView::RBracket,
            Token::If => TokenView::If,
            Token::Else => TokenView::Else,
            Token::True => TokenView::True,
            Token::False => TokenView::False,
            Token::Return => TokenView::Return,
            Token::And => TokenView::And,
            Token::Or => TokenView::Or,
            Token::Xor => TokenView::Xor,
        }
    }
}

impl TokenView {
    /// How a token is written in messages: the name of its variant, followed
    /// for identifiers and numeric literals by the quoted text in brackets.
    pub open spec fn describe(self) -> Seq<char> {
        match self {
            TokenView::Ident(text) => "Ident(\""@ + text + "\")"@,
            TokenView::Num(text) => "Num(\""@ + text + "\")"@,
            TokenView::Illegal => "Illegal"@,
            TokenView::Eof => "Eof"@,
            TokenView::Assign => "Assign"@,
            TokenView::Plus => "Plus"@,
            TokenView::Comma => "Comma"@,
            TokenView::Semicolon => "Semicolon"@,
            TokenView::LParen => "LParen"@,
            TokenView::RParen => "RParen"@,
            TokenView::LSquigly => "LSquigly"@,
            TokenView::RSquigly => "RSquigly"@,
            TokenView::Function => "Function"@,
            TokenView::Let => "Let"@,
            TokenView::Equal => "Equal"@,
            TokenView::NotEqual => "NotEqual"@,
            TokenView::Bang => "Bang"@,
            TokenView::Minus => "Minus"@,
            TokenView::Slash => "Slash"@,
            TokenView::Asterisk => "Asterisk"@,
            TokenView::LessThan => "LessThan"@,
            TokenView::GreaterThan => "GreaterThan"@,
            TokenView::LessThanEqual => "LessThanEqual"@,
            TokenView::GreaterThanEqual => "GreaterThanEqual"@,
            TokenView::LBracket => "LBracket"@,
            TokenView::RBracket => "RBracket"@,
            TokenView::If => "If"@,
            TokenView::Else => "Else"@,
            TokenView::True => "True"@,
            TokenView::False => "False"@,
            TokenView::Return => "Return"@,
            TokenView::And => "And"@,
            TokenView::Or => "Or"@,
            TokenView::Xor => "Xor"@,
        }
    }
}

impl Token {
    /// How the token is written in messages.
    pub fn describe(&self) -> (text: String)
        ensures
            text@ == self@.describe(),
    {
        match self {
            Token::Ident(name) => "Ident(\"".to_owned().concat(name.as_str()).concat("\")"),
            Token::Num(digits) => "Num(\"".to_owned().concat(digits.as_str()).concat("\")"),
            Token::Illegal => "Illegal".to_owned(),
            Token::Eof => "Eof".to_owned(),
            Token::Assign => "Assign".to_owned(),
            Token::Plus => "Plus".to_owned(),
            Token::Comma => "Comma".to_owned(),
            Token::Semicolon => "Semicolon".to_owned(),
            Token::LParen => "LParen".to_owned(),
            Token::RParen => "RParen".to_owned(),
            Token::LSquigly => "LSquigly".to_owned(),
            Token::RSquigly => "RSquigly".to_owned(),
            Token::Function => "Function".to_owned(),
            Token::Let => "Let".to_owned(),
            Token::Equal => "Equal".to_owned(),
            Token::NotEqual => "NotEqual".to_owned(),
            Token::Bang => "Bang".to_owned(),
            Token::Minus => "Minus".to_owned(),
            Token::Slash => "Slash".to_owned(),
            Token::Asterisk => "Asterisk".to_owned(),
            Token::LessThan => "LessThan".to_owned(),
            Token::GreaterThan => "GreaterThan".to_owned(),
            Token::LessThanEqual => "LessThanEqual".to_owned(),
            Token::GreaterThanEqual => "GreaterThanEqual".to_owned(),
            Token::LBracket => "LBracket".to_owned(),
            Token::RBracket => "RBracket".to_owned(),
            Token::If => "If".to_owned(),
            Token::Else => "Else".to_owned(),
            Token::True => "True".to_owned(),
            Token::False => "False".to_owned(),
            Token::Return => "Return".to_owned(),
            Token::And => "And".to_owned(),
            Token::Or => "Or".to_owned(),
            Token::Xor => "Xor".to_owned(),
        }
    }
}

/// The values of a sequence of tokens.
pub open spec fn views(tokens: Seq<Token>) -> Seq<TokenView> {
    tokens.map_values(|token: Token| token@)
}

impl PartialEq for Token {
    fn eq(&self, other: &Self) -> (same: bool) {
        match (self, other) {
            (Token::Ident(left), Token::Ident(right)) => *left == *right,
            (Token::Num(left), Token::Num(right)) => *left == *right,
            (Token::Illegal, Token::Illegal) => true,
            (Token::Eof, Token::Eof) => true,
            (Token::Assign, Token::Assign) => true,
            (Token::Plus, Token::Plus) => true,
            (Token::Comma, Token::Comma) => true,
            (Token::Semicolon, Token::Semicolon) => true,
            (Token::LParen, Token::LParen) => true,
            (Token::RParen, Token::RParen) => true,
            (Token::LSquigly, Token::LSquigly) => true,
            (Token::RSquigly, Token::RSquigly) => true,
            (Token::Function, Token::Function) => true,
            (Token::Let, Token::Let) => true,
            (Token::Equal, Token::Equal) => true,
            (Token::NotEqual, Token::NotEqual) => true,
            (Token::Bang, Token::Bang) => true,
            (Token::Minus, Token::Minus) => true,
            (Token::Slash, Token::Slash) => true,
            (Token::Asterisk, Token::Asterisk) => true,
            (Token::LessThan, Token::LessThan) => true,
            (Token::GreaterThan, Token::GreaterThan) => true,
            (Token::LessThanEqual, Token::LessThanEqual) => true,
            (Token::GreaterThanEqual, Token::GreaterThanEqual) => true,
            (Token::LBracket, Token::LBracket) => true,
            (Token::RBracket, Token::RBracket) => true,
            (Token::If, Token::If) => true,
            (Token::Else, Token::Else) => true,
            (Token::True, Token::True) => true,
            (Token::False, Token::False) => true,
            (Token::Return, Token::Return) => true,
            (Token::And, Token::And) => true,
            (Token::Or, Token::Or) => true,
            (Token::Xor, Token::Xor) => true,
            _ => false,
        }
    }
}

impl Eq for Token {

}

impl vstd::std_specs::cmp::PartialEqSpecImpl for Token {
    open spec fn obeys_eq_spec() -> bool {
        true
    }

    /// Two tokens are equal when they are the same variant with the same text.
    open spec fn eq_spec(&self, other: &Self) -> bool {
        self@ == other@
    }
}

impl Clone for Token {
    fn clone(&self) -> (copy: Self)
        ensures
            copy@ == self@,
    {
        match self {
            Token::Illegal => Token::Illegal,
            Token::Eof => Token::Eof,
            Token::Ident(text) => Token::Ident(text.clone()),
            Token::Num(text) => Token::Num(text.clone()),
            Token::Assign => Token::Assign,
            Token::Plus => Token::Plus,
            Token::Comma => Token::Comma,
            Token::Semicolon => Token::Semicolon,
            Token::LParen => Token::LParen,
            Token::RParen => Token::RParen,
            Token::LSquigly => Token::LSquigly,
            Token::RSquigly => Token::RSquigly,
            Token::Function => Token::Function,
            Token::Let => Token::Let,
            Token::Equal => Token::Equal,
            Token::NotEqual => Token::NotEqual,
            Token::Bang => Token::Bang,
            Token::Minus => Token::Minus,
            Token::Slash => Token::Slash,
            Token::Asterisk => Token::Asterisk,
            Token::LessThan => Token::LessThan,
            Token::GreaterThan => Token::GreaterThan,
            Token::LessThanEqual => Token::LessThanEqual,
            Token::GreaterThanEqual => Token::GreaterThanEqual,
            Token::LBracket => Token::LBracket,
            Token::RBracket => Token::RBracket,
            Token::If => Token::If,
            Token::Else => Token::Else,
            Token::True => Token::True,
            Token::False => Token::False,
            Token::Return => Token::Return,
            Token::And => Token::And,
            Token::Or => Token::Or,
            Token::Xor => Token::Xor,
        }
    }
}

impl Default for Token {
    /// The placeholder token: an identifier with no text.
    fn default() -> (token: Self)
        ensures
            token@ == TokenView::Ident(Seq::<char>::empty()),
    {
        Token::Ident(String::new())
    }
}

} // verus!
