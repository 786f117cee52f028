use vstd::prelude::*;
use crate::expression::{Expression, ExpressionView};
use crate::statement::{statement_views, Statement, StatementView};
use crate::token::{Token, TokenView};
use crate::value::{Value, ValueView};

verus! {

/// A traversal of expressions: one method for each kind of expression.
///
/// For each method the visitor says, in a predicate of its own, what a call
/// makes of the node: how the visitor is afterwards and what comes out.
pub trait ExpressionVisitor<T> {
    /// Whether the visitor can be handed the expression.
    spec fn admits(&self, expression: ExpressionView) -> bool;

    spec fn assign_visited(&self, name: TokenView, value: ExpressionView, after: &Self, out: T) -> bool;

    spec fn binary_visited(
        &self,
        left: ExpressionView,
        operator: TokenView,
        right: ExpressionView,
        after: &Self,
        out: T,
    ) -> bool;

    spec fn grouping_visited(&self, expression: ExpressionView, after: &Self, out: T) -> bool;

    spec fn literal_visited(&self, value: ValueView, after: &Self, out: T) -> bool;

    spec fn logical_visited(
        &self,
        left: ExpressionView,
        operator: TokenView,
        right: ExpressionView,
        after: &Self,
        out: T,
    ) -> bool;

    spec fn unary_visited(&self, operator: TokenView, expression: ExpressionView, after: &Self, out: T) -> bool;

    spec fn variable_visited(&self, name: TokenView, after: &Self, out: T) -> bool;

    fn visit_assign(&mut self, name: &Token, value: &Expression) -> (out: T)
        requires
            old(self).admits(ExpressionView::Assign { name: name@, value: Box::new(value@) }),
        ensures
            old(self).assign_visited(name@, value@, final(self), out),
    ;

    fn visit_binary(&mut self, left: &Expression, operator: &Token, right: &Expression) -> (out: T)
        requires
            old(self).admits(
                ExpressionView::Binary { left: Box::new(left@), operator: operator@, right: Box::new(right@) },
            ),
        ensures
            old(self).binary_visited(left@, operator@, right@, final(self), out),
    ;

    fn visit_grouping(&mut self, expression: &Expression) -> (out: T)
        requires
            old(self).admits(ExpressionView::Grouping(Box::new(expression@))),
        ensures
            old(self).grouping_visited(expression@, final(self), out),
    ;

    fn visit_literal(&mut self, value: &Value) -> (out: T)
        requires
            old(self).admits(ExpressionView::Literal(value@)),
        ensures
            old(self).literal_visited(value@, final(self), out),
    ;

    fn visit_logical(&mut self, left: &Expression, operator: &Token, right: &Expression) -> (out: T)
        requires
            old(self).admits(
                ExpressionView::Logical { left: Box::new(left@), operator: operator@, right: Box::new(right@) },
            ),
        ensures
            old(self).logical_visited(left@, operator@, right@, final(self), out),
    ;

    fn visit_unary(&mut self, operator: &Token, expression: &Expression) -> (out: T)
        requires
            old(self).admits(ExpressionView::Unary { operator: operator@, expression: Box::new(expression@) }),
        ensures
            old(self).unary_visited(operator@, expression@, final(self), out),
    ;

    fn visit_variable(&mut self, name: &Token) -> (out: T)
        requires
            old(self).admits(ExpressionView::Variable(name@)),
        ensures
            old(self).variable_visited(name@, final(self), out),
    ;
}

/// A traversal of statements: one method for each kind of statement.
pub trait StatementVisitor<T> {
    /// Whether the visitor can be handed the statement.
    spec fn admits(&self, statement: StatementView) -> bool;

    spec fn block_visited(&self, statements: Seq<StatementView>, after: &Self, out: T) -> bool;

    spec fn expression_visited(&self, expression: ExpressionView, after: &Self, out: T) -> bool;

    spec fn if_visited(
        &self,
        condition: ExpressionView,
        then_branch: StatementView,
        else_branch: Option<StatementView>,
        after: &Self,
        out: T,
    ) -> bool;

    spec fn print_visited(&self, expression: ExpressionView, after: &Self, out: T) -> bool;

    spec fn var_visited(&self, name: TokenView, initializer: Option<ExpressionView>, after: &Self, out: T) -> bool;

    spec fn while_visited(&self, condition: ExpressionView, body: StatementView, after: &Self, out: T) -> bool;

    fn visit_block(&mut self, statements: &Vec<Statement>) -> (out: T)
        requires
            old(self).admits(StatementView::Block(statement_views(statements@))),
        ensures
            old(self).block_visited(statement_views(statements@), final(self), out),
    ;

    fn visit_expression(&mut self, expression: &Expression) -> (out: T)
        requires
            old(self).admits(StatementView::Expression(expression@)),
        ensures
            old(self).expression_visited(expression@, final(self), out),
    ;

    fn visit_if(&mut self, condition: &Expression, then_branch: &Statement, else_branch: Option<&Statement>) -> (out:
        T)
        requires
            old(self).admits(
                StatementView::If {
                    condition: condition@,
                    then_branch: Box::new(then_branch@),
                    else_branch: match else_branch {
                        Some(s) => Some(Box::new(s@)),
                        None => None,
                    },
                },
            ),
        ensures
            old(self).if_visited(
                condition@,
                then_branch@,
                match else_branch {
                    Some(s) => Some(s@),
                    None => None,
                },
                final(self),
                out,
            ),
    ;

    fn visit_print(&mut self, expression: &Expression) -> (out: T)
        requires
            old(self).admits(StatementView::Print(expression@)),
        ensures
            old(self).print_visited(expression@, final(self), out),
    ;

    fn visit_var(&mut self, name: &Token, initializer: Option<&Expression>) -> (out: T)
        requires
            old(self).admits(
                StatementView::Var {
                    name: name@,
                    initializer: match initializer {
                        Some(e) => Some(e@),
                        None => None,
                    },
                },
            ),
        ensures
            old(self).var_visited(
                name@,
                match initializer {
                    Some(e) => Some(e@),
                    None => None,
                },
                final(self),
                out,
            ),
    ;

    fn visit_while(&mut self, condition: &Expression, body: &Statement) -> (out: T)
        requires
            old(self).admits(StatementView::While { condition: condition@, body: Box::new(body@) }),
        ensures
            old(self).while_visited(condition@, body@, final(self), out),
    ;
}

/// What handing an expression to a visitor comes to: the one method for the
/// expression's kind is called on its parts, and no other.
pub open spec fn expression_dispatched<T, V: ExpressionVisitor<T>>(
    expression: ExpressionView,
    before: &V,
    after: &V,
    out: T,
) -> bool {
    match expression {
        ExpressionView::Assign { name, value } => before.assign_visited(name, *value, after, out),
        ExpressionView::Binary { left, operator, right } => before.binary_visited(
            *left,
            operator,
            *right,
            after,
            out,
        ),
        ExpressionView::Grouping(inner) => before.grouping_visited(*inner, after, out),
        ExpressionView::Literal(value) => before.literal_visited(value, after, out),
        ExpressionView::Logical { left, operator, right } => before.logical_visited(
            *left,
            operator,
            *right,
            after,
            out,
        ),
        ExpressionView::Unary { operator, expression } => before.unary_visited(operator, *expression, after, out),
        ExpressionView::Variable(name) => before.variable_visited(name, after, out),
    }
}

/// What handing a statement to a visitor comes to: the one method for the
/// statement's kind is called on its parts, and no other.
pub open spec fn statement_dispatched<T, V: StatementVisitor<T>>(
    statement: StatementView,
    before: &V,
    after: &V,
    out: T,
) -> bool {
    match statement {
        StatementView::Block(statements) => before.block_visited(statements, after, out),
        StatementView::Expression(e) => before.expression_visited(e, after, out),
        StatementView::If { condition, then_branch, else_branch } => before.if_visited(
            condition,
            *then_branch,
            match else_branch {
                Some(s) => Some(*s),
                None => None,
            },
            after,
            out,
        ),
        StatementView::Print(e) => before.print_visited(e, after, out),
        StatementView::Var { name, initializer } => before.var_visited(name, initializer, after, out),
        StatementView::While { condition, body } => before.while_visited(condition, *body, after, out),
    }
}

impl Expression {
    /// Hands the expression to the visitor's method for its kind.
    pub fn accept<T, V: ExpressionVisitor<T>>(&self, visitor: &mut V) -> (out: T)
        requires
            old(visitor).admits(self@),
        ensures
            expression_dispatched(self@, old(visitor), final(visitor), out),
    {
        match self {
            Expression::Assign { name, value } => visitor.visit_assign(name, value),
            Expression::Binary { left, operator, right } => visitor.visit_binary(left, operator, right),
            Expression::Grouping(inner) => visitor.visit_grouping(inner),
            Expression::Literal(value) => visitor.visit_literal(value),
            Expression::Logical { left, operator, right } => visitor.visit_logical(left, operator, right),
            Expression::Unary { operator, expression } => visitor.visit_unary(operator, expression),
            Expression::Variable(name) => visitor.visit_variable(name),
        }
    }
}

impl Statement {
    /// Hands the statement to the visitor's method for its kind.
    pub fn accept<T, V: StatementVisitor<T>>(&self, visitor: &mut V) -> (out: T)
        requires
            old(visitor).admits(self@),
        ensures
            statement_dispatched(self@, old(visitor), final(visitor), out),
    {
        match self {
            Statement::Block(statements) => {
                assert(self@->Block_0 =~= statement_views(statements@));
                visitor.visit_block(statements)
            },
            Statement::Expression(e) => visitor.visit_expression(e),
            Statement::If { condition, then_branch, else_branch } => {
                let other: Option<&Statement> = match else_branch {
                    Some(s) => Some(&**s),
                    None => None,
                };
                visitor.visit_if(condition, then_branch, other)
            },
            Statement::Print(e) => visitor.visit_print(e),
            Statement::Var { name, initializer } => {
                let value: Option<&Expression> = match initializer {
                    Some(e) => Some(&**e),
                    None => None,
                };
                visitor.visit_var(name, value)
            },
            Statement::While { condition, body } => visitor.visit_while(condition, body),
        }
    }
}

} // verus!
