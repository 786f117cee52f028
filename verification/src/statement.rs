use vstd::prelude::*;
use crate::expression::{expression_well_formed, Expression, ExpressionView};
use crate::token::{Lexeme, Token, TokenView};

verus! {

/// A statement of the language.
#[derive(Debug, PartialEq)]
pub enum Statement {
    Block(Vec<Statement>),
    Expression(Box<Expression>),
    If { condition: Box<Expression>, then_branch: Box<Statement>, else_branch: Option<Box<Statement>> },
    Print(Box<Expression>),
    Var { name: Token, initializer: Option<Box<Expression>> },
    While { condition: Box<Expression>, body: Box<Statement> },
}

/// A statement of the language.
pub type Stmt = Statement;

/// The mathematical value of a [`Statement`].
pub ghost enum StatementView {
    Block(Seq<StatementView>),
    Expression(ExpressionView),
    If { condition: ExpressionView, then_branch: Box<StatementView>, else_branch: Option<Box<StatementView>> },
    Print(ExpressionView),
    Var { name: TokenView, initializer: Option<ExpressionView> },
    While { condition: ExpressionView, body: Box<StatementView> },
}

/// The mathematical value of a statement.
pub open spec fn statement_view(s: Statement) -> StatementView
    decreases s,
{
    match s {
        Statement::Block(statements) => StatementView::Block(
            Seq::new(
                statements@.len(),
                |i: int|
                    if 0 <= i < statements@.len() {
                        statement_view(statements@[i])
                    } else {
                        arbitrary()
                    },
            ),
        ),
        Statement::Expression(e) => StatementView::Expression(e@),
        Statement::If { condition, then_branch, else_branch } => StatementView::If {
            condition: condition@,
            then_branch: Box::new(statement_view(*then_branch)),
            else_branch: match else_branch {
                Some(s) => Some(Box::new(statement_view(*s))),
                None => None,
            },
        },
        Statement::Print(e) => StatementView::Print(e@),
        Statement::Var { name, initializer } => StatementView::Var {
            name: name@,
            initializer: match initializer {
                Some(e) => Some(e@),
                None => None,
            },
        },
        Statement::While { condition, body } => StatementView::While {
            condition: condition@,
            body: Box::new(statement_view(*body)),
        },
    }
}

impl View for Statement {
    type V = StatementView;

    open spec fn view(&self) -> StatementView {
        statement_view(*self)
    }
}

/// The views of a sequence of statements, in order.
pub open spec fn statement_views(statements: Seq<Statement>) -> Seq<StatementView> {
    Seq::new(statements.len(), |i: int| statements[i]@)
}

/// Whether every variable that the statement declares, reads or assigns is
/// named by an identifier token.
pub open spec fn statement_well_formed(s: StatementView) -> bool
    decreases s,
{
    match s {
        StatementView::Block(statements) => forall|i: int|
            0 <= i < statements.len() ==> statement_well_formed(#[trigger] statements[i]),
        StatementView::Expression(e) => expression_well_formed(e),
        StatementView::If { condition, then_branch, else_branch } => expression_well_formed(condition)
            && statement_well_formed(*then_branch) && match else_branch {
            Some(s) => statement_well_formed(*s),
            None => true,
        },
        StatementView::Print(e) => expression_well_formed(e),
        StatementView::Var { name, initializer } => name.lexeme is Identifier && match initializer {
            Some(e) => expression_well_formed(e),
            None => true,
        },
        StatementView::While { condition, body } => expression_well_formed(condition) && statement_well_formed(
            *body,
        ),
    }
}

impl Statement {
    /// Whether every variable that the statement declares, reads or assigns
    /// is named by an identifier token.
    #[verifier::loop_isolation(false)]
    pub fn is_well_formed(&self) -> (r: bool)
        ensures
            r == statement_well_formed(self@),
        decreases self,
    {
        match self {
            Statement::Block(statements) => {
                let mut i: usize = 0;
                while i < statements.len()
                    invariant
                        i <= statements@.len(),
                        forall|j: int| 0 <= j < i ==> statement_well_formed(#[trigger] statements@[j]@),
                    decreases statements@.len() - i,
                {
                    if !statements[i].is_well_formed() {
                        assert(self@->Block_0[i as int] == statements@[i as int]@);
                        return false;
                    }
                    i = i + 1;
                }
                assert forall|j: int| 0 <= j < self@->Block_0.len() implies statement_well_formed(
                    #[trigger] self@->Block_0[j],
                ) by {
                    assert(self@->Block_0[j] == statements@[j]@);
                }
                true
            },
            Statement::Expression(e) => e.is_well_formed(),
            Statement::If { condition, then_branch, else_branch } => condition.is_well_formed()
                && then_branch.is_well_formed() && match else_branch {
                Some(s) => s.is_well_formed(),
                None => true,
            },
            Statement::Print(e) => e.is_well_formed(),
            Statement::Var { name, initializer } => matches!(name.lexeme, Lexeme::Identifier(_)) && match initializer {
                Some(e) => e.is_well_formed(),
                None => true,
            },
            Statement::While { condition, body } => condition.is_well_formed() && body.is_well_formed(),
        }
    }
}

impl Clone for Statement {
    #[verifier::loop_isolation(false)]
    fn clone(&self) -> (r: Self)
        ensures
            r@ == self@,
        decreases self,
    {
        match self {
            Statement::Block(statements) => {
                let mut copies: Vec<Statement> = Vec::new();
                let mut i: usize = 0;
                while i < statements.len()
                    invariant
                        i <= statements@.len(),
                        copies@.len() == i,
                        forall|j: int| 0 <= j < i ==> copies@[j]@ == statements@[j]@,
                    decreases statements@.len() - i,
                {
                    copies.push(statements[i].clone());
                    i = i + 1;
                }
                let r = Statement::Block(copies);
                assert(r@->Block_0 =~= self@->Block_0);
                r
            },
            Statement::Expression(e) => Statement::Expression(Box::new((**e).clone())),
            Statement::If { condition, then_branch, else_branch } => Statement::If {
                condition: Box::new((**condition).clone()),
                then_branch: Box::new((**then_branch).clone()),
                else_branch: match else_branch {
                    Some(s) => Some(Box::new((**s).clone())),
                    None => None,
                },
            },
            Statement::Print(e) => Statement::Print(Box::new((**e).clone())),
            Statement::Var { name, initializer } => Statement::Var {
                name: name.clone(),
                initializer: match initializer {
                    Some(e) => Some(Box::new((**e).clone())),
                    None => None,
                },
            },
            Statement::While { condition, body } => Statement::While {
                condition: Box::new((**condition).clone()),
                body: Box::new((**body).clone()),
            },
        }
    }
}

} // verus!
