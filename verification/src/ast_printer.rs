use vstd::prelude::*;
use vstd::string::*;
use crate::environment::name_of;
use crate::expression::{expression_well_formed, Expression, ExpressionView};
use crate::statement::{statement_views, statement_well_formed, Statement, StatementView};
use crate::token::{Token, TokenView};
use crate::value::{Value, ValueView};
use crate::visitor::{expression_dispatched, statement_dispatched, ExpressionVisitor, StatementVisitor};

verus! {

/// The parts with one space between each two.
pub open spec fn joined(parts: Seq<Seq<char>>) -> Seq<char>
    decreases parts.len(),
{
    if parts.len() == 0 {
        Seq::empty()
    } else if parts.len() == 1 {
        parts[0]
    } else {
        joined(parts.drop_last()) + " "@ + parts.last()
    }
}

/// `(<name> <part> <part> ...)`
pub open spec fn wrapped(name: Seq<char>, parts: Seq<Seq<char>>) -> Seq<char> {
    "("@ + joined(seq![name] + parts) + ")"@
}

/// The text of an expression, every operation in parentheses with its
/// operator first. A literal is given in its display form: a string between
/// double quotes, a number as the text that the literal carries.
///
/// The printer does not ask the host, so a number literal is rendered as it
/// was written: `2.0` stays `2.0`, where the host's form is `2`. A caller
/// that wants the host's form normalises the literals of the tree through
/// the host before it prints.
pub open spec fn render_expression(e: ExpressionView) -> Seq<char>
    decreases e,
{
    match e {
        ExpressionView::Assign { name, value } => wrapped("="@, seq![name_of(name), render_expression(*value)]),
        ExpressionView::Binary { left, operator, right } => wrapped(
            operator.lexeme.text(),
            seq![render_expression(*left), render_expression(*right)],
        ),
        ExpressionView::Grouping(inner) => wrapped("group"@, seq![render_expression(*inner)]),
        ExpressionView::Literal(value) => value.text(),
        ExpressionView::Logical { left, operator, right } => wrapped(
            operator.lexeme.text(),
            seq![render_expression(*left), render_expression(*right)],
        ),
        ExpressionView::Unary { operator, expression } => wrapped(
            operator.lexeme.text(),
            seq![render_expression(*expression)],
        ),
        ExpressionView::Variable(name) => name_of(name),
    }
}

/// The texts of the first `n` of the statements.
pub open spec fn render_statements(statements: Seq<StatementView>, n: nat) -> Seq<Seq<char>>
    decreases statements, n,
{
    if n == 0 || n > statements.len() {
        Seq::empty()
    } else {
        render_statements(statements, (n - 1) as nat).push(render_statement(statements[n - 1]))
    }
}

/// The text of a statement, in parentheses with its kind first. A block
/// without statements is `(block )`.
pub open spec fn render_statement(s: StatementView) -> Seq<char>
    decreases s, 0nat,
{
    match s {
        StatementView::Block(statements) => "(block "@ + joined(render_statements(statements, statements.len()))
            + ")"@,
        StatementView::Expression(e) => wrapped(";"@, seq![render_expression(e)]),
        StatementView::If { condition, then_branch, else_branch } => match else_branch {
            Some(other) => wrapped(
                "if"@,
                seq![render_expression(condition), render_statement(*then_branch), render_statement(*other)],
            ),
            None => wrapped("if"@, seq![render_expression(condition), render_statement(*then_branch)]),
        },
        StatementView::Print(e) => wrapped("print"@, seq![render_expression(e)]),
        StatementView::Var { name, initializer } => match initializer {
            Some(e) => wrapped("var"@, seq![name_of(name), "="@, render_expression(e)]),
            None => wrapped("var"@, seq![name_of(name)]),
        },
        StatementView::While { condition, body } => wrapped(
            "while"@,
            seq![render_expression(condition), render_statement(*body)],
        ),
    }
}

/// The characters of each part, in order.
pub open spec fn text_views(parts: Seq<String>) -> Seq<Seq<char>> {
    Seq::new(parts.len(), |i: int| parts[i]@)
}

/// The parts with one space between each two.
fn join(parts: &Vec<String>) -> (r: String)
    ensures
        r@ == joined(text_views(parts@)),
{
    let mut r = String::new();
    let mut i: usize = 0;
    assert(text_views(parts@).take(0) =~= Seq::empty());
    while i < parts.len()
        invariant
            i <= parts@.len(),
            r@ == joined(text_views(parts@).take(i as int)),
        decreases parts@.len() - i,
    {
        let ghost views = text_views(parts@);
        proof {
            assert(views.take(i + 1).drop_last() =~= views.take(i as int));
            assert(views.take(i + 1).last() == parts@[i as int]@);
        }
        if i > 0 {
            r.append(" ");
        } else {
            assert(r@ + parts@[i as int]@ =~= parts@[i as int]@);
        }
        r.append(parts[i].as_str());
        i = i + 1;
    }
    assert(text_views(parts@).take(parts@.len() as int) =~= text_views(parts@));
    r
}

/// Writes expressions and statements as text, every node in parentheses with
/// its operator or kind first.
pub struct AstPrinter;

impl AstPrinter {
    /// `(<name> <part> <part> ...)`
    pub fn parenthesize(&self, name: String, parts: Vec<String>) -> (r: String)
        ensures
            r@ == wrapped(name@, text_views(parts@)),
    {
        let ghost label = name@;
        let ghost given = parts@;
        let mut all: Vec<String> = Vec::new();
        all.push(name);
        let mut parts = parts;
        all.append(&mut parts);
        assert(text_views(all@) =~= seq![label] + text_views(given));
        let mut r = String::from_str("(");
        r.append(join(&all).as_str());
        r.append(")");
        r
    }

    /// The text of an expression. Number literals are rendered as they are
    /// written in the tree, not in the host's form.
    pub fn print_expression(&self, expression: &Expression) -> (r: String)
        requires
            expression_well_formed(expression@),
        ensures
            r@ == render_expression(expression@),
        decreases expression,
    {
        match expression {
            Expression::Assign { name, value } => {
                let parts = vec![name.identifier(), self.print_expression(value)];
                assert(text_views(parts@) =~= seq![name_of(name@), render_expression(value@)]);
                self.parenthesize("=".to_owned(), parts)
            },
            Expression::Binary { left, operator, right } => {
                let parts = vec![self.print_expression(left), self.print_expression(right)];
                assert(text_views(parts@) =~= seq![render_expression(left@), render_expression(right@)]);
                self.parenthesize(operator.to_string(), parts)
            },
            Expression::Grouping(inner) => {
                let parts = vec![self.print_expression(inner)];
                assert(text_views(parts@) =~= seq![render_expression(inner@)]);
                self.parenthesize("group".to_owned(), parts)
            },
            Expression::Literal(value) => value.to_string(),
            Expression::Logical { left, operator, right } => {
                let parts = vec![self.print_expression(left), self.print_expression(right)];
                assert(text_views(parts@) =~= seq![render_expression(left@), render_expression(right@)]);
                self.parenthesize(operator.to_string(), parts)
            },
            Expression::Unary { operator, expression } => {
                let parts = vec![self.print_expression(expression)];
                assert(text_views(parts@) =~= seq![render_expression(expression@)]);
                self.parenthesize(operator.to_string(), parts)
            },
            Expression::Variable(name) => name.identifier(),
        }
    }

    /// The text of a statement.
    #[verifier::loop_isolation(false)]
    pub fn print_statement(&self, statement: &Statement) -> (r: String)
        requires
            statement_well_formed(statement@),
        ensures
            r@ == render_statement(statement@),
        decreases statement,
    {
        match statement {
            Statement::Block(statements) => {
                let ghost views = statement@->Block_0;
                let mut parts: Vec<String> = Vec::new();
                let mut i: usize = 0;
                assert(text_views(parts@) =~= render_statements(views, 0));
                while i < statements.len()
                    invariant
                        i <= statements@.len(),
                        views.len() == statements@.len(),
                        text_views(parts@) == render_statements(views, i as nat),
                    decreases statements@.len() - i,
                {
                    let ghost before = text_views(parts@);
                    assert(views[i as int] == statements@[i as int]@);
                    let part = self.print_statement(&statements[i]);
                    parts.push(part);
                    assert(text_views(parts@) =~= before.push(part@));
                    i = i + 1;
                }
                let mut r = String::from_str("(block ");
                r.append(join(&parts).as_str());
                r.append(")");
                r
            },
            Statement::Expression(e) => {
                let parts = vec![self.print_expression(e)];
                assert(text_views(parts@) =~= seq![render_expression(e@)]);
                self.parenthesize(";".to_owned(), parts)
            },
            Statement::If { condition, then_branch, else_branch } => match else_branch {
                Some(other) => {
                    let parts = vec![
                        self.print_expression(condition),
                        self.print_statement(then_branch),
                        self.print_statement(other),
                    ];
                    assert(text_views(parts@) =~= seq![
                        render_expression(condition@),
                        render_statement(then_branch@),
                        render_statement(other@),
                    ]);
                    self.parenthesize("if".to_owned(), parts)
                },
                None => {
                    let parts = vec![self.print_expression(condition), self.print_statement(then_branch)];
                    assert(text_views(parts@) =~= seq![
                        render_expression(condition@),
                        render_statement(then_branch@),
                    ]);
                    self.parenthesize("if".to_owned(), parts)
                },
            },
            Statement::Print(e) => {
                let parts = vec![self.print_expression(e)];
                assert(text_views(parts@) =~= seq![render_expression(e@)]);
                self.parenthesize("print".to_owned(), parts)
            },
            Statement::Var { name, initializer } => match initializer {
                Some(e) => {
                    let parts = vec![name.identifier(), "=".to_owned(), self.print_expression(e)];
                    assert(text_views(parts@) =~= seq![name_of(name@), "="@, render_expression(e@)]);
                    self.parenthesize("var".to_owned(), parts)
                },
                None => {
                    let parts = vec![name.identifier()];
                    assert(text_views(parts@) =~= seq![name_of(name@)]);
                    self.parenthesize("var".to_owned(), parts)
                },
            },
            Statement::While { condition, body } => {
                let parts = vec![self.print_expression(condition), self.print_statement(body)];
                assert(text_views(parts@) =~= seq![render_expression(condition@), render_statement(body@)]);
                self.parenthesize("while".to_owned(), parts)
            },
        }
    }
}

impl ExpressionVisitor<String> for AstPrinter {
    open spec fn admits(&self, expression: ExpressionView) -> bool {
        expression_well_formed(expression)
    }

    open spec fn assign_visited(&self, name: TokenView, value: ExpressionView, after: &Self, out: String) -> bool {
        out@ == render_expression(ExpressionView::Assign { name, value: Box::new(value) })
    }

    open spec fn binary_visited(
        &self,
        left: ExpressionView,
        operator: TokenView,
        right: ExpressionView,
        after: &Self,
        out: String,
    ) -> bool {
        out@ == render_expression(ExpressionView::Binary { left: Box::new(left), operator, right: Box::new(right) })
    }

    open spec fn grouping_visited(&self, expression: ExpressionView, after: &Self, out: String) -> bool {
        out@ == render_expression(ExpressionView::Grouping(Box::new(expression)))
    }

    open spec fn literal_visited(&self, value: ValueView, after: &Self, out: String) -> bool {
        out@ == render_expression(ExpressionView::Literal(value))
    }

    open spec fn logical_visited(
        &self,
        left: ExpressionView,
        operator: TokenView,
        right: ExpressionView,
        after: &Self,
        out: String,
    ) -> bool {
        out@ == render_expression(
            ExpressionView::Logical { left: Box::new(left), operator, right: Box::new(right) },
        )
    }

    open spec fn unary_visited(
        &self,
        operator: TokenView,
        expression: ExpressionView,
        after: &Self,
        out: String,
    ) -> bool {
        out@ == render_expression(ExpressionView::Unary { operator, expression: Box::new(expression) })
    }

    open spec fn variable_visited(&self, name: TokenView, after: &Self, out: String) -> bool {
        out@ == render_expression(ExpressionView::Variable(name))
    }

    fn visit_assign(&mut self, name: &Token, value: &Expression) -> (out: String) {
        let parts = vec![name.identifier(), self.print_expression(value)];
        assert(text_views(parts@) =~= seq![name_of(name@), render_expression(value@)]);
        self.parenthesize("=".to_owned(), parts)
    }

    fn visit_binary(&mut self, left: &Expression, operator: &Token, right: &Expression) -> (out: String) {
        let parts = vec![self.print_expression(left), self.print_expression(right)];
        assert(text_views(parts@) =~= seq![render_expression(left@), render_expression(right@)]);
        self.parenthesize(operator.to_string(), parts)
    }

    fn visit_grouping(&mut self, expression: &Expression) -> (out: String) {
        let parts = vec![self.print_expression(expression)];
        assert(text_views(parts@) =~= seq![render_expression(expression@)]);
        self.parenthesize("group".to_owned(), parts)
    }

    fn visit_literal(&mut self, value: &Value) -> (out: String) {
        value.to_string()
    }

    fn visit_logical(&mut self, left: &Expression, operator: &Token, right: &Expression) -> (out: String) {
        let parts = vec![self.print_expression(left), self.print_expression(right)];
        assert(text_views(parts@) =~= seq![render_expression(left@), render_expression(right@)]);
        self.parenthesize(operator.to_string(), parts)
    }

    fn visit_unary(&mut self, operator: &Token, expression: &Expression) -> (out: String) {
        let parts = vec![self.print_expression(expression)];
        assert(text_views(parts@) =~= seq![render_expression(expression@)]);
        self.parenthesize(operator.to_string(), parts)
    }

    fn visit_variable(&mut self, name: &Token) -> (out: String) {
        name.identifier()
    }
}

impl StatementVisitor<String> for AstPrinter {
    open spec fn admits(&self, statement: StatementView) -> bool {
        statement_well_formed(statement)
    }

    open spec fn block_visited(&self, statements: Seq<StatementView>, after: &Self, out: String) -> bool {
        out@ == render_statement(StatementView::Block(statements))
    }

    open spec fn expression_visited(&self, expression: ExpressionView, after: &Self, out: String) -> bool {
        out@ == render_statement(StatementView::Expression(expression))
    }

    open spec fn if_visited(
        &self,
        condition: ExpressionView,
        then_branch: StatementView,
        else_branch: Option<StatementView>,
        after: &Self,
        out: String,
    ) -> bool {
        out@ == render_statement(
            StatementView::If {
                condition,
                then_branch: Box::new(then_branch),
                else_branch: match else_branch {
                    Some(s) => Some(Box::new(s)),
                    None => None,
                },
            },
        )
    }

    open spec fn print_visited(&self, expression: ExpressionView, after: &Self, out: String) -> bool {
        out@ == render_statement(StatementView::Print(expression))
    }

    open spec fn var_visited(
        &self,
        name: TokenView,
        initializer: Option<ExpressionView>,
        after: &Self,
        out: String,
    ) -> bool {
        out@ == render_statement(StatementView::Var { name, initializer })
    }

    open spec fn while_visited(
        &self,
        condition: ExpressionView,
        body: StatementView,
        after: &Self,
        out: String,
    ) -> bool {
        out@ == render_statement(StatementView::While { condition, body: Box::new(body) })
    }

    fn visit_block(&mut self, statements: &Vec<Statement>) -> (out: String) {
        let ghost views = statement_views(statements@);
        let mut parts: Vec<String> = Vec::new();
        let mut i: usize = 0;
        assert(text_views(parts@) =~= render_statements(views, 0));
        assert(statement_well_formed(StatementView::Block(views)));
        assert forall|j: int| 0 <= j < views.len() implies statement_well_formed(#[trigger] views[j]) by {
            assert(StatementView::Block(views)->Block_0[j] == views[j]);
        }
        while i < statements.len()
            invariant
                i <= statements@.len(),
                views == statement_views(statements@),
                forall|j: int| 0 <= j < views.len() ==> statement_well_formed(#[trigger] views[j]),
                text_views(parts@) == render_statements(views, i as nat),
            decreases statements@.len() - i,
        {
            let ghost before = text_views(parts@);
            assert(views[i as int] == statements@[i as int]@);
            let part = self.print_statement(&statements[i]);
            parts.push(part);
            assert(text_views(parts@) =~= before.push(part@));
            i = i + 1;
        }
        let mut r = String::from_str("(block ");
        r.append(join(&parts).as_str());
        r.append(")");
        r
    }

    fn visit_expression(&mut self, expression: &Expression) -> (out: String) {
        let parts = vec![self.print_expression(expression)];
        assert(text_views(parts@) =~= seq![render_expression(expression@)]);
        self.parenthesize(";".to_owned(), parts)
    }

    fn visit_if(&mut self, condition: &Expression, then_branch: &Statement, else_branch: Option<&Statement>) -> (out:
        String) {
        match else_branch {
            Some(other) => {
                let parts = vec![
                    self.print_expression(condition),
                    self.print_statement(then_branch),
                    self.print_statement(other),
                ];
                assert(text_views(parts@) =~= seq![
                    render_expression(condition@),
                    render_statement(then_branch@),
                    render_statement(other@),
                ]);
                self.parenthesize("if".to_owned(), parts)
            },
            None => {
                let parts = vec![self.print_expression(condition), self.print_statement(then_branch)];
                assert(text_views(parts@) =~= seq![render_expression(condition@), render_statement(then_branch@)]);
                self.parenthesize("if".to_owned(), parts)
            },
        }
    }

    fn visit_print(&mut self, expression: &Expression) -> (out: String) {
        let parts = vec![self.print_expression(expression)];
        assert(text_views(parts@) =~= seq![render_expression(expression@)]);
        self.parenthesize("print".to_owned(), parts)
    }

    fn visit_var(&mut self, name: &Token, initializer: Option<&Expression>) -> (out: String) {
        match initializer {
            Some(e) => {
                let parts = vec![name.identifier(), "=".to_owned(), self.print_expression(e)];
                assert(text_views(parts@) =~= seq![name_of(name@), "="@, render_expression(e@)]);
                self.parenthesize("var".to_owned(), parts)
            },
            None => {
                let parts = vec![name.identifier()];
                assert(text_views(parts@) =~= seq![name_of(name@)]);
                self.parenthesize("var".to_owned(), parts)
            },
        }
    }

    fn visit_while(&mut self, condition: &Expression, body: &Statement) -> (out: String) {
        let parts = vec![self.print_expression(condition), self.print_statement(body)];
        assert(text_views(parts@) =~= seq![render_expression(condition@), render_statement(body@)]);
        self.parenthesize("while".to_owned(), parts)
    }
}

/// Handing a node to the printer gives the node's text: the method that the
/// dispatch picks renders the whole node.
pub proof fn lemma_printer_dispatch(
    expression: ExpressionView,
    statement: StatementView,
    before: &AstPrinter,
    after: &AstPrinter,
    out: String,
)
    ensures
        expression_dispatched(expression, before, after, out) ==> out@ == render_expression(expression),
        statement_dispatched(statement, before, after, out) ==> out@ == render_statement(statement),
{
}

} // verus!
