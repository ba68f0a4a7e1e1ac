//! The syntax tree: statements in source order.

use vstd::prelude::*;
use vstd::std_specs::cmp::PartialEqSpecImpl;
use crate::token::{Token, TokenView};

verus! {

/// The value of an [`Expression`].
pub ghost struct ExpressionView {
    pub token: TokenView,
    pub value: Seq<char>,
}

impl ExpressionView {
    /// The empty expression: the placeholder token and no text.
    pub open spec fn empty() -> ExpressionView {
        ExpressionView { token: TokenView::Ident(Seq::empty()), value: Seq::empty() }
    }
}

/// An expression. The grammar has no expressions yet, so every expression
/// in a tree is the empty one; the node is there for statements to hold.
#[derive(Debug)]
pub struct Expression {
    pub token: Token,
    pub value: String,
}

impl View for Expression {
    type V = ExpressionView;

    open spec fn view(&self) -> ExpressionView {
        ExpressionView { token: self.token@, value: self.value@ }
    }
}

impl PartialEq for Expression {
    fn eq(&self, other: &Self) -> (same: bool) {
        self.token == other.token && self.value == other.value
    }
}

impl Eq for Expression {

}

impl PartialEqSpecImpl for Expression {
    open spec fn obeys_eq_spec() -> bool {
        true
    }

    /// Two expressions are equal when their tokens and their texts are.
    open spec fn eq_spec(&self, other: &Self) -> bool {
        self@ == other@
    }
}

impl Default for Expression {
    fn default() -> (expression: Self)
        ensures
            expression@ == ExpressionView::empty(),
    {
        Expression { token: Token::default(), value: String::new() }
    }
}

/// A variable binding: `let name = value;`.
#[derive(Debug)]
pub struct LetStatement {
    pub value: Expression,
    pub name: String,
}

/// A return: `return value;`.
#[derive(Debug)]
pub struct ReturnStatement {
    pub value: Expression,
}

impl ReturnStatement {
    /// A return statement with the empty expression.
    pub fn new() -> (statement: Self)
        ensures
            statement.value@ == ExpressionView::empty(),
    {
        ReturnStatement { value: Expression::default() }
    }
}

impl LetStatement {
    /// A binding with no name and the empty expression.
    pub fn new() -> (statement: Self)
        ensures
            statement.name@ == Seq::<char>::empty(),
            statement.value@ == ExpressionView::empty(),
    {
        LetStatement { name: String::new(), value: Expression::default() }
    }
}

/// The value of a [`Statement`].
pub ghost enum StatementView {
    Let { name: Seq<char>, value: ExpressionView },
    Return { value: ExpressionView },
}

impl StatementView {
    /// The expression that the statement holds.
    pub open spec fn value(self) -> ExpressionView {
        match self {
            StatementView::Let { value, .. } => value,
            StatementView::Return { value } => value,
        }
    }
}

/// A statement of the language.
#[derive(Debug)]
pub enum Statement {
    LetStatement(LetStatement),
    ReturnStatement(ReturnStatement),
}

impl View for Statement {
    type V = StatementView;

    open spec fn view(&self) -> StatementView {
        match self {
            Statement::LetStatement(binding) => StatementView::Let {
                name: binding.name@,
                value: binding.value@,
            },
            Statement::ReturnStatement(ret) => StatementView::Return { value: ret.value@ },
        }
    }
}

/// A parsed program: its statements in source order.
#[derive(Debug)]
pub struct Ast {
    pub statements: Vec<Statement>,
}

impl View for Ast {
    type V = Seq<StatementView>;

    open spec fn view(&self) -> Seq<StatementView> {
        self.statements@.map_values(|statement: Statement| statement@)
    }
}

impl Ast {
    /// A program without statements.
    pub fn new() -> (ast: Self)
        ensures
            ast@ == Seq::<StatementView>::empty(),
    {
        let ast = Ast { statements: Vec::new() };
        ast
    }
}

} // verus!
