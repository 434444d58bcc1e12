//! The syntax tree: programs, functions, statements and expressions.

use vstd::prelude::*;
use crate::identifier::Identifier;
use vstd::string::StringExecFns;
use crate::grammar::operator_of;
use crate::span::{Span, Spanned};
use crate::token::{Token, TokenKind};

verus! {

/// Whether a binding may be reassigned.
#[derive(Debug, Copy, Clone, PartialEq, Eq, Structural)]
pub enum Mutability {
    /// Value can be reassigned
    Mutable,
    /// Value cannot be reassigned
    Immutable,
}

/// The binary operators.
#[derive(Debug, Copy, Clone, PartialEq, Eq, Structural)]
pub enum BinaryOperator {
    Add,
    Sub,
    Mul,
    Div,
    Mod,
    And,
    Or,
    Nor,
    Less,
    LessOrEqual,
    Greater,
    GreaterOrEqual,
    Equals,
    NotEquals,
}

/// A reference to a type.
#[derive(Debug, Clone, PartialEq)]
pub enum Type {
    /// A type referred to by its name.
    Named(Identifier),
}

/// The model of a [`Type`].
pub enum TypeView {
    Named(Seq<char>),
}

impl View for Type {
    type V = TypeView;

    open spec fn view(&self) -> TypeView {
        match self {
            Type::Named(name) => TypeView::Named(name@),
        }
    }
}

/// A numeric literal. One written without a fractional part holds its value;
/// one written with a fractional part holds its text, sign included.
#[derive(Debug, Clone, PartialEq)]
pub enum Number {
    Integer(i64),
    Decimal(String),
}

/// The model of a [`Number`].
pub enum NumberView {
    Integer(i64),
    Decimal(Seq<char>),
}

impl View for Number {
    type V = NumberView;

    open spec fn view(&self) -> NumberView {
        match self {
            Number::Integer(value) => NumberView::Integer(*value),
            Number::Decimal(text) => NumberView::Decimal(text@),
        }
    }
}

/// An expression.
#[derive(Debug, PartialEq)]
pub enum Expression {
    /// Nil value literal
    Nil,
    /// Unit literal: the value of a block without a trailing expression
    Unit,
    /// Identifier binding
    Ident(Identifier),
    /// Boolean literal
    Bool(bool),
    /// Number literal
    Number(Number),
    If {
        condition: Box<Spanned<Expression>>,
        then: Box<Spanned<Expression>>,
        or_else: Box<Spanned<Expression>>,
    },
    While { condition: Box<Spanned<Expression>>, then: Box<Spanned<Expression>> },
    Block { statements: Vec<Spanned<Statement>>, eval: Box<Spanned<Expression>> },
    Binary {
        lhs: Box<Spanned<Expression>>,
        operator: BinaryOperator,
        rhs: Box<Spanned<Expression>>,
    },
}

/// A statement of a block.
#[derive(Debug, PartialEq)]
pub enum Statement {
    Expression(Expression),
    Assignment { lhs: Identifier, rhs: Spanned<Expression> },
    Let { identifier: Identifier, mutability: Mutability, initializer: Spanned<Expression> },
}

/// The model of an [`Expression`].
pub enum ExpressionView {
    Nil,
    Unit,
    Ident(Seq<char>),
    Bool(bool),
    Number(NumberView),
    If {
        condition: Box<Spanned<ExpressionView>>,
        then: Box<Spanned<ExpressionView>>,
        or_else: Box<Spanned<ExpressionView>>,
    },
    While { condition: Box<Spanned<ExpressionView>>, then: Box<Spanned<ExpressionView>> },
    Block { statements: Seq<Spanned<StatementView>>, eval: Box<Spanned<ExpressionView>> },
    Binary {
        lhs: Box<Spanned<ExpressionView>>,
        operator: BinaryOperator,
        rhs: Box<Spanned<ExpressionView>>,
    },
}

/// The model of a [`Statement`].
pub enum StatementView {
    Expression(ExpressionView),
    Assignment { lhs: Seq<char>, rhs: Spanned<ExpressionView> },
    Let { identifier: Seq<char>, mutability: Mutability, initializer: Spanned<ExpressionView> },
}

/// The model of a spanned expression.
pub open spec fn spanned_expression_view(e: Spanned<Expression>) -> Spanned<ExpressionView>
    decreases e,
{
    Spanned { value: expression_view(e.value), span: e.span }
}

/// The model of an expression.
pub open spec fn expression_view(e: Expression) -> ExpressionView
    decreases e,
{
    match e {
        Expression::Nil => ExpressionView::Nil,
        Expression::Unit => ExpressionView::Unit,
        Expression::Ident(name) => ExpressionView::Ident(name@),
        Expression::Bool(value) => ExpressionView::Bool(value),
        Expression::Number(number) => ExpressionView::Number(number@),
        Expression::If { condition, then, or_else } => ExpressionView::If {
            condition: Box::new(spanned_expression_view(*condition)),
            then: Box::new(spanned_expression_view(*then)),
            or_else: Box::new(spanned_expression_view(*or_else)),
        },
        Expression::While { condition, then } => ExpressionView::While {
            condition: Box::new(spanned_expression_view(*condition)),
            then: Box::new(spanned_expression_view(*then)),
        },
        Expression::Block { statements, eval } => ExpressionView::Block {
            statements: statement_views(statements@),
            eval: Box::new(spanned_expression_view(*eval)),
        },
        Expression::Binary { lhs, operator, rhs } => ExpressionView::Binary {
            lhs: Box::new(spanned_expression_view(*lhs)),
            operator,
            rhs: Box::new(spanned_expression_view(*rhs)),
        },
    }
}

/// The models of a sequence of spanned statements.
pub open spec fn statement_views(s: Seq<Spanned<Statement>>) -> Seq<Spanned<StatementView>>
    decreases s,
{
    Seq::new(
        s.len(),
        |i: int|
            if 0 <= i < s.len() {
                spanned_statement_view(s[i])
            } else {
                arbitrary()
            },
    )
}

/// The model of a spanned statement.
pub open spec fn spanned_statement_view(s: Spanned<Statement>) -> Spanned<StatementView>
    decreases s,
{
    Spanned { value: statement_view(s.value), span: s.span }
}

/// The model of a statement.
pub open spec fn statement_view(s: Statement) -> StatementView
    decreases s,
{
    match s {
        Statement::Expression(e) => StatementView::Expression(expression_view(e)),
        Statement::Assignment { lhs, rhs } => StatementView::Assignment {
            lhs: lhs@,
            rhs: spanned_expression_view(rhs),
        },
        Statement::Let { identifier, mutability, initializer } => StatementView::Let {
            identifier: identifier@,
            mutability,
            initializer: spanned_expression_view(initializer),
        },
    }
}

impl View for Expression {
    type V = ExpressionView;

    open spec fn view(&self) -> ExpressionView {
        expression_view(*self)
    }
}

impl View for Statement {
    type V = StatementView;

    open spec fn view(&self) -> StatementView {
        statement_view(*self)
    }
}

/// A parameter of a function: its name and its declared type.
#[derive(Debug, PartialEq)]
pub struct Parameter {
    pub name: Spanned<Identifier>,
    pub ty: Spanned<Type>,
}

/// The model of a [`Parameter`].
pub struct ParameterView {
    pub name: Spanned<Seq<char>>,
    pub ty: Spanned<TypeView>,
}

impl View for Parameter {
    type V = ParameterView;

    open spec fn view(&self) -> ParameterView {
        ParameterView { name: self.name@, ty: self.ty@ }
    }
}

/// A function: its parameters in source order, its return type and its
/// body, which is a block expression.
#[derive(Debug, PartialEq)]
pub struct Function {
    pub parameters: Vec<Parameter>,
    /// The declared return type; the type named `unit`, with an empty span
    /// right after the parameter list, when none is declared.
    pub returns: Spanned<Type>,
    pub body: Spanned<Expression>,
    /// From the `fn` keyword to the end of the body.
    pub span: Span,
}

/// The model of a [`Function`].
pub struct FunctionView {
    pub parameters: Seq<ParameterView>,
    pub returns: Spanned<TypeView>,
    pub body: Spanned<ExpressionView>,
    pub span: Span,
}

impl View for Function {
    type V = FunctionView;

    open spec fn view(&self) -> FunctionView {
        FunctionView {
            parameters: self.parameters@.map_values(|p: Parameter| p@),
            returns: self.returns@,
            body: spanned_expression_view(self.body),
            span: self.span,
        }
    }
}

/// A program: its functions in source order, each under its name. Names may
/// repeat.
#[derive(Debug, PartialEq)]
pub struct Program {
    functions: Vec<(Identifier, Function)>,
}

/// The model of a [`Program`]: names and functions in source order.
pub type ProgramView = Seq<(Seq<char>, FunctionView)>;

impl View for Program {
    type V = ProgramView;

    closed spec fn view(&self) -> ProgramView {
        self.functions@.map_values(|f: (Identifier, Function)| (f.0@, f.1@))
    }
}

impl Program {
    /// The program made of `functions`, in the order given.
    pub fn new(functions: Vec<(Identifier, Function)>) -> (program: Program)
        ensures
            program@ == functions@.map_values(|f: (Identifier, Function)| (f.0@, f.1@)),
    {
        Self { functions }
    }

    /// The functions of the program with their names, in source order.
    pub fn functions(&self) -> (functions: &[(Identifier, Function)])
        ensures
            functions@.map_values(|f: (Identifier, Function)| (f.0@, f.1@)) == self@,
    {
        self.functions.as_slice()
    }
}

impl Mutability {
    /// What the mutability means, in words.
    pub open spec fn description(self) -> Seq<char> {
        match self {
            Mutability::Mutable => "Value can be reassigned"@,
            Mutability::Immutable => "Value cannot be reassigned"@,
        }
    }

    /// What the mutability means, in words.
    pub fn to_string(&self) -> (text: String)
        ensures
            text@ == self.description(),
    {
        match self {
            Mutability::Mutable => String::from_str("Value can be reassigned"),
            Mutability::Immutable => String::from_str("Value cannot be reassigned"),
        }
    }
}

/// The error of converting a token that is no binary operator.
#[derive(Debug, Clone, Copy, PartialEq, Eq, Structural)]
pub struct NotABinaryOperator;

impl NotABinaryOperator {
    /// The message of the error.
    pub fn to_string(&self) -> (text: String)
        ensures
            text@ == "Operator is not a binary operator"@,
    {
        String::from_str("Operator is not a binary operator")
    }
}

/// The error of converting a token that is no unary operator.
#[derive(Debug, Clone, Copy, PartialEq, Eq, Structural)]
pub struct NotAUnaryOperator;

impl NotAUnaryOperator {
    /// The message of the error.
    pub fn to_string(&self) -> (text: String)
        ensures
            text@ == "Operator is not a unary operator"@,
    {
        String::from_str("Operator is not a unary operator")
    }
}

impl BinaryOperator {
    /// The kind of the token that spells the operator.
    pub open spec fn token_kind(self) -> TokenKind {
        match self {
            BinaryOperator::Add => TokenKind::Add,
            BinaryOperator::Sub => TokenKind::Sub,
            BinaryOperator::Mul => TokenKind::Mul,
            BinaryOperator::Div => TokenKind::Div,
            BinaryOperator::Mod => TokenKind::Mod,
            BinaryOperator::And => TokenKind::And,
            BinaryOperator::Or => TokenKind::Or,
            BinaryOperator::Nor => TokenKind::Nor,
            BinaryOperator::Less => TokenKind::Less,
            BinaryOperator::LessOrEqual => TokenKind::LessOrEqual,
            BinaryOperator::Greater => TokenKind::Greater,
            BinaryOperator::GreaterOrEqual => TokenKind::GreaterOrEqual,
            BinaryOperator::Equals => TokenKind::Equals,
            BinaryOperator::NotEquals => TokenKind::NotEquals,
        }
    }

    /// The kind of the token that spells the operator.
    pub fn kind(self) -> (kind: TokenKind)
        ensures
            kind == self.token_kind(),
            operator_of(kind) == Some(self),
    {
        match self {
            BinaryOperator::Add => TokenKind::Add,
            BinaryOperator::Sub => TokenKind::Sub,
            BinaryOperator::Mul => TokenKind::Mul,
            BinaryOperator::Div => TokenKind::Div,
            BinaryOperator::Mod => TokenKind::Mod,
            BinaryOperator::And => TokenKind::And,
            BinaryOperator::Or => TokenKind::Or,
            BinaryOperator::Nor => TokenKind::Nor,
            BinaryOperator::Less => TokenKind::Less,
            BinaryOperator::LessOrEqual => TokenKind::LessOrEqual,
            BinaryOperator::Greater => TokenKind::Greater,
            BinaryOperator::GreaterOrEqual => TokenKind::GreaterOrEqual,
            BinaryOperator::Equals => TokenKind::Equals,
            BinaryOperator::NotEquals => TokenKind::NotEquals,
        }
    }

    /// The canonical spelling of the operator.
    pub fn to_string(&self) -> (text: String)
        ensures
            text@ == self.token_kind().spelling(),
    {
        match self.kind().text() {
            Some(text) => String::from_str(text),
            None => String::new(),
        }
    }

    /// The binary operator that `value` denotes. Only the fourteen operator
    /// tokens denote one; every other token is refused.
    pub fn try_from(value: Token) -> (converted: Result<BinaryOperator, NotABinaryOperator>)
        ensures
            match operator_of(value@.kind()) {
                Some(operator) => converted == Ok::<BinaryOperator, NotABinaryOperator>(operator),
                None => converted is Err,
            },
    {
        Ok(
            match value {
                Token::Add => BinaryOperator::Add,
                Token::Sub => BinaryOperator::Sub,
                Token::Mul => BinaryOperator::Mul,
                Token::Div => BinaryOperator::Div,
                Token::Mod => BinaryOperator::Mod,
                Token::And => BinaryOperator::And,
                Token::Or => BinaryOperator::Or,
                Token::Nor => BinaryOperator::Nor,
                Token::Less => BinaryOperator::Less,
                Token::LessOrEqual => BinaryOperator::LessOrEqual,
                Token::Greater => BinaryOperator::Greater,
                Token::GreaterOrEqual => BinaryOperator::GreaterOrEqual,
                Token::Equals => BinaryOperator::Equals,
                Token::NotEquals => BinaryOperator::NotEquals,
                _ => {
                    return Err(NotABinaryOperator);
                },
            },
        )
    }
}

} // verus!
