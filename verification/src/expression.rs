use vstd::prelude::*;
use crate::token::{Lexeme, Token, TokenView};
use crate::value::{Value, ValueView};

verus! {

/// An expression of the language.
#[derive(Debug, PartialEq)]
pub enum Expression {
    Assign { name: Token, value: Box<Expression> },
    Binary { left: Box<Expression>, operator: Token, right: Box<Expression> },
    Grouping(Box<Expression>),
    Literal(Value),
    Logical { left: Box<Expression>, operator: Token, right: Box<Expression> },
    Unary { operator: Token, expression: Box<Expression> },
    Variable(Token),
}

/// An expression of the language.
pub type Expr = Expression;

/// The mathematical value of an [`Expression`].
pub ghost enum ExpressionView {
    Assign { name: TokenView, value: Box<ExpressionView> },
    Binary { left: Box<ExpressionView>, operator: TokenView, right: Box<ExpressionView> },
    Grouping(Box<ExpressionView>),
    Literal(ValueView),
    Logical { left: Box<ExpressionView>, operator: TokenView, right: Box<ExpressionView> },
    Unary { operator: TokenView, expression: Box<ExpressionView> },
    Variable(TokenView),
}

/// The mathematical value of an expression.
pub open spec fn expression_view(e: Expression) -> ExpressionView
    decreases e,
{
    match e {
        Expression::Assign { name, value } => ExpressionView::Assign {
            name: name@,
            value: Box::new(expression_view(*value)),
        },
        Expression::Binary { left, operator, right } => ExpressionView::Binary {
            left: Box::new(expression_view(*left)),
            operator: operator@,
            right: Box::new(expression_view(*right)),
        },
        Expression::Grouping(inner) => ExpressionView::Grouping(Box::new(expression_view(*inner))),
        Expression::Literal(value) => ExpressionView::Literal(value@),
        Expression::Logical { left, operator, right } => ExpressionView::Logical {
            left: Box::new(expression_view(*left)),
            operator: operator@,
            right: Box::new(expression_view(*right)),
        },
        Expression::Unary { operator, expression } => ExpressionView::Unary {
            operator: operator@,
            expression: Box::new(expression_view(*expression)),
        },
        Expression::Variable(name) => ExpressionView::Variable(name@),
    }
}

impl View for Expression {
    type V = ExpressionView;

    open spec fn view(&self) -> ExpressionView {
        expression_view(*self)
    }
}

/// Whether every variable that the expression reads or assigns is named by
/// an identifier token.
pub open spec fn expression_well_formed(e: ExpressionView) -> bool
    decreases e,
{
    match e {
        ExpressionView::Assign { name, value } => name.lexeme is Identifier && expression_well_formed(*value),
        ExpressionView::Binary { left, operator, right } => expression_well_formed(*left)
            && expression_well_formed(*right),
        ExpressionView::Grouping(inner) => expression_well_formed(*inner),
        ExpressionView::Literal(_) => true,
        ExpressionView::Logical { left, operator, right } => expression_well_formed(*left)
            && expression_well_formed(*right),
        ExpressionView::Unary { operator, expression } => expression_well_formed(*expression),
        ExpressionView::Variable(name) => name.lexeme is Identifier,
    }
}

impl Expression {
    /// Whether every variable that the expression reads or assigns is named
    /// by an identifier token.
    pub fn is_well_formed(&self) -> (r: bool)
        ensures
            r == expression_well_formed(self@),
        decreases self,
    {
        match self {
            Expression::Assign { name, value } => matches!(name.lexeme, Lexeme::Identifier(_))
                && value.is_well_formed(),
            Expression::Binary { left, operator, right } => left.is_well_formed() && right.is_well_formed(),
            Expression::Grouping(inner) => inner.is_well_formed(),
            Expression::Literal(_) => true,
            Expression::Logical { left, operator, right } => left.is_well_formed() && right.is_well_formed(),
            Expression::Unary { operator, expression } => expression.is_well_formed(),
            Expression::Variable(name) => matches!(name.lexeme, Lexeme::Identifier(_)),
        }
    }
}

impl Clone for Expression {
    fn clone(&self) -> (r: Self)
        ensures
            r == *self,
        decreases self,
    {
        match self {
            Expression::Assign { name, value } => Expression::Assign {
                name: name.clone(),
                value: Box::new((**value).clone()),
            },
            Expression::Binary { left, operator, right } => Expression::Binary {
                left: Box::new((**left).clone()),
                operator: operator.clone(),
                right: Box::new((**right).clone()),
            },
            Expression::Grouping(inner) => Expression::Grouping(Box::new((**inner).clone())),
            Expression::Literal(value) => Expression::Literal(value.clone()),
            Expression::Logical { left, operator, right } => Expression::Logical {
                left: Box::new((**left).clone()),
                operator: operator.clone(),
                right: Box::new((**right).clone()),
            },
            Expression::Unary { operator, expression } => Expression::Unary {
                operator: operator.clone(),
                expression: Box::new((**expression).clone()),
            },
            Expression::Variable(name) => Expression::Variable(name.clone()),
        }
    }
}

} // verus!
