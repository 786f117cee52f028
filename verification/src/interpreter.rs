use vstd::prelude::*;
use vstd::string::*;
use crate::environment::Environment;
use crate::errors::RuntimeError;
use crate::expression::{expression_well_formed, Expression};
use crate::machine::{
    error_at, lemma_push_task, lemma_scheduled, lemma_step_keeps_invariant, scheduled, same_value, ActionView,
    Machine, Operation, Outcome, ReplyView, TaskView,
};
use crate::statement::{statement_views, statement_well_formed, Statement};
use crate::token::{Lexeme, Token};
use crate::value::{Value, ValueView};

verus! {

/// A piece of work that the interpreter has still to do.
pub enum Task {
    Execute(Statement),
    Evaluate(Expression),
    Discard,
    Emit,
    Define(Token),
    Store(Token),
    Prefix(Token),
    Apply(Token),
    Choose(Token, Expression),
    Branch(Statement, Option<Statement>),
    Repeat(Expression, Statement),
    Leave,
    AcceptNumber(u64),
    AcceptTruth(u64, bool),
}

impl View for Task {
    type V = TaskView;

    open spec fn view(&self) -> TaskView {
        match self {
            Task::Execute(statement) => TaskView::Execute(statement@),
            Task::Evaluate(expression) => TaskView::Evaluate(expression@),
            Task::Discard => TaskView::Discard,
            Task::Emit => TaskView::Emit,
            Task::Define(name) => TaskView::Define(name@),
            Task::Store(name) => TaskView::Store(name@),
            Task::Prefix(operator) => TaskView::Prefix(operator@),
            Task::Apply(operator) => TaskView::Apply(operator@),
            Task::Choose(operator, right) => TaskView::Choose(operator@, right@),
            Task::Branch(then_branch, else_branch) => TaskView::Branch(
                then_branch@,
                match else_branch {
                    Some(s) => Some(s@),
                    None => None,
                },
            ),
            Task::Repeat(condition, body) => TaskView::Repeat(condition@, body@),
            Task::Leave => TaskView::Leave,
            Task::AcceptNumber(line) => TaskView::AcceptNumber(*line),
            Task::AcceptTruth(line, negated) => TaskView::AcceptTruth(*line, *negated),
        }
    }
}

/// What the host has to do before the next step.
#[derive(Debug, PartialEq)]
pub enum Action {
    /// Nothing.
    Continue,
    /// Print the text as a line.
    Print(String),
    /// Work out the operation on the operands and hand the result to the
    /// next step: a number for arithmetic, a truth value for a comparison.
    Compute { operation: Operation, left: String, right: Option<String> },
    /// Nothing more: the statement has ended, with its value or an error.
    Finished(Result<Value, RuntimeError>),
}

impl View for Action {
    type V = ActionView;

    open spec fn view(&self) -> ActionView {
        match self {
            Action::Continue => ActionView::Continue,
            Action::Print(text) => ActionView::Print(text@),
            Action::Compute { operation, left, right } => ActionView::Compute {
                operation: *operation,
                left: left@,
                right: match right {
                    Some(r) => Some(r@),
                    None => None,
                },
            },
            Action::Finished(result) => ActionView::Finished(
                match result {
                    Ok(value) => Ok(value@),
                    Err(e) => Err(e@),
                },
            ),
        }
    }
}

/// What the host hands to a step: the answer to the computation that the
/// step before asked for, or nothing.
#[derive(Debug, PartialEq)]
pub enum Reply {
    Nothing,
    Number(String),
    Truth(bool),
}

impl View for Reply {
    type V = ReplyView;

    open spec fn view(&self) -> ReplyView {
        match self {
            Reply::Nothing => ReplyView::Nothing,
            Reply::Number(n) => ReplyView::Number(n@),
            Reply::Truth(b) => ReplyView::Truth(*b),
        }
    }
}

/// The mathematical values of the tasks, in order.
pub open spec fn task_views(tasks: Seq<Task>) -> Seq<TaskView> {
    Seq::new(tasks.len(), |i: int| tasks[i]@)
}

/// The mathematical values of the values, in order.
pub open spec fn value_views(values: Seq<Value>) -> Seq<ValueView> {
    Seq::new(values.len(), |i: int| values[i]@)
}

/// The operation that a binary operator asks of the host.
fn operation_for(lexeme: &Lexeme) -> (r: Option<(Operation, bool)>)
    ensures
        r == Machine::operation_of(lexeme@),
{
    match lexeme {
        Lexeme::Minus => Some((Operation::Subtract, false)),
        Lexeme::Plus => Some((Operation::Add, false)),
        Lexeme::Slash => Some((Operation::Divide, false)),
        Lexeme::Star => Some((Operation::Multiply, false)),
        Lexeme::Less => Some((Operation::Less, false)),
        Lexeme::LessEqual => Some((Operation::LessEqual, false)),
        Lexeme::Greater => Some((Operation::Greater, false)),
        Lexeme::GreaterEqual => Some((Operation::GreaterEqual, false)),
        Lexeme::EqualEqual => Some((Operation::Equal, false)),
        Lexeme::BangEqual => Some((Operation::Equal, true)),
        _ => None,
    }
}

fn gives_number(operation: Operation) -> (r: bool)
    ensures
        r == Machine::gives_number(operation),
{
    match operation {
        Operation::Literal | Operation::Negate | Operation::Add | Operation::Subtract | Operation::Multiply
        | Operation::Divide => true,
        _ => false,
    }
}

/// `==` on two values that are not both numbers.
fn is_same_value(left: &Value, right: &Value) -> (r: bool)
    ensures
        r == same_value(left@, right@),
{
    match (left, right) {
        (Value::String(a), Value::String(b)) => *a == *b,
        (Value::Bool(a), Value::Bool(b)) => *a == *b,
        (Value::Nil, Value::Nil) => true,
        _ => false,
    }
}

fn error(line: u64, message: &str) -> (e: RuntimeError)
    ensures
        e@ == error_at(line, message@),
{
    RuntimeError::new(line, message.to_owned())
}

/// A tree-walking interpreter that runs one step at a time.
///
/// The interpreter keeps the scopes, the work it has still to do and a stack
/// of values. A statement is loaded with `execute`; after that the host calls
/// `step` until it answers `Finished`, doing in between what each step asks
/// for. Numbers are text to the interpreter: their arithmetic and their
/// printing form are the host's.
pub struct Interpreter {
    environment: Environment,
    tasks: Vec<Task>,
    values: Vec<Value>,
}

impl View for Interpreter {
    type V = Machine;

    closed spec fn view(&self) -> Machine {
        Machine { scopes: self.environment@, tasks: task_views(self.tasks@), values: value_views(self.values@) }
    }
}

impl Interpreter {
    /// The interpreter's invariant.
    pub closed spec fn wf(&self) -> bool {
        self.environment.wf() && self@.wf()
    }

    /// An interpreter with an empty global scope and nothing to do.
    pub fn new() -> (r: Self)
        ensures
            r.wf(),
            r@ == (Machine { scopes: seq![Map::empty()], tasks: Seq::empty(), values: Seq::empty() }),
    {
        let r = Interpreter { environment: Environment::new(), tasks: Vec::new(), values: Vec::new() };
        assert(r@.tasks =~= Seq::empty());
        assert(r@.values =~= Seq::empty());
        r
    }

    /// The scopes of the interpreter.
    pub fn environment(&self) -> (r: &Environment)
        requires
            self.wf(),
        ensures
            r.wf(),
            r@ == self@.scopes,
    {
        &self.environment
    }

    /// Whether nothing is left to do.
    pub fn is_ready(&self) -> (r: bool)
        ensures
            r == self@.is_ready(),
    {
        self.tasks.len() == 0
    }

    fn push_task(&mut self, task: Task)
        ensures
            final(self)@ == old(self)@.task(task@),
            final(self).environment == old(self).environment,
    {
        self.tasks.push(task);
        assert(self@.tasks =~= old(self)@.tasks.push(task@));
    }

    fn push_value(&mut self, value: Value)
        ensures
            final(self)@ == old(self)@.value(value@),
            final(self).environment == old(self).environment,
    {
        self.values.push(value);
        assert(self@.values =~= old(self)@.values.push(value@));
    }

    fn pop_value(&mut self) -> (value: Value)
        requires
            old(self)@.values.len() > 0,
        ensures
            final(self)@ == old(self)@.dropped(),
            value@ == old(self)@.values.last(),
            final(self).environment == old(self).environment,
    {
        let value = self.values.pop().unwrap();
        assert(self@.values =~= old(self)@.values.drop_last());
        value
    }

    /// Drops what is left to do, empties the stack and closes every scope
    /// but the global one.
    fn clear(&mut self)
        requires
            old(self).environment.wf(),
        ensures
            final(self).environment.wf(),
            final(self)@ == (Machine {
                scopes: old(self)@.scopes.take(1),
                tasks: Seq::empty(),
                values: Seq::empty(),
            }),
    {
        self.tasks = Vec::new();
        self.values = Vec::new();
        self.environment.reset();
        assert(self@.tasks =~= Seq::empty());
        assert(self@.values =~= Seq::empty());
    }

    fn fail(&mut self, error: RuntimeError) -> (action: Action)
        requires
            old(self).environment.wf(),
        ensures
            final(self).environment.wf(),
            (Outcome { machine: final(self)@, action: action@ }) == old(self)@.fail(error@),
    {
        self.clear();
        Action::Finished(Err(error))
    }

    /// Puts the statements on the work to do, the first one to run first.
    fn schedule(&mut self, statements: Vec<Statement>)
        ensures
            final(self)@ == old(self)@.with_tasks(old(self)@.tasks + scheduled(statement_views(statements@))),
            final(self).environment == old(self).environment,
    {
        let ghost all = statement_views(statements@);
        let ghost before = self@.tasks;
        let mut statements = statements;
        assert(before + scheduled(all).take(0) =~= before);
        while statements.len() > 0
            invariant
                statements@.len() <= all.len(),
                statement_views(statements@) == all.take(statements@.len() as int),
                self@ == old(self)@.with_tasks(before + scheduled(all).take(all.len() - statements@.len())),
                before == old(self)@.tasks,
                self.environment == old(self).environment,
            decreases statements@.len(),
        {
            let ghost k = statements@.len() as int;
            let ghost views = statement_views(statements@);
            let statement = statements.pop().unwrap();
            proof {
                assert(statement@ == views[k - 1]);
                assert(statement_views(statements@) =~= all.take(k - 1));
                assert((before + scheduled(all).take(all.len() - k)).push(TaskView::Execute(statement@)) =~= before
                    + scheduled(all).take(all.len() - k + 1));
            }
            self.push_task(Task::Execute(statement));
        }
        assert(scheduled(all).take(all.len() as int) =~= scheduled(all));
    }

    /// Loads a statement: it becomes all that the interpreter has to do.
    /// Whatever was being run is dropped; what the global scope holds stays.
    pub fn execute(&mut self, statement: Statement)
        requires
            old(self).wf(),
            statement_well_formed(statement@),
        ensures
            final(self).wf(),
            final(self)@ == old(self)@.loaded(statement@),
    {
        self.clear();
        proof {
            lemma_push_task(self@.tasks, TaskView::Execute(statement@), 0);
        }
        self.push_task(Task::Execute(statement));
        assert(self@.tasks =~= seq![TaskView::Execute(statement@)]);
    }

    /// Loads an expression: the interpreter finishes with its value.
    pub fn evaluate(&mut self, expression: Expression)
        requires
            old(self).wf(),
            expression_well_formed(expression@),
        ensures
            final(self).wf(),
            final(self)@ == old(self)@.loaded_expression(expression@),
    {
        self.clear();
        proof {
            lemma_push_task(self@.tasks, TaskView::Evaluate(expression@), 0);
        }
        self.push_task(Task::Evaluate(expression));
        assert(self@.tasks =~= seq![TaskView::Evaluate(expression@)]);
    }

    /// Loads the statements of a program, to be run in order.
    pub fn start(&mut self, statements: Vec<Statement>)
        requires
            old(self).wf(),
            forall|i: int| 0 <= i < statements@.len() ==> statement_well_formed(#[trigger] statements@[i]@),
        ensures
            final(self).wf(),
            final(self)@ == old(self)@.loaded_program(statement_views(statements@)),
    {
        self.clear();
        proof {
            let views = statement_views(statements@);
            assert forall|i: int| 0 <= i < views.len() implies statement_well_formed(#[trigger] views[i]) by {
                assert(views[i] == statements@[i]@);
            }
            lemma_scheduled(self@.tasks, views, 0);
            assert(self@.tasks + scheduled(views) =~= scheduled(views));
        }
        self.schedule(statements);
    }

    /// Starts on a statement that has been taken off the work to do.
    fn run_statement(&mut self, statement: Statement) -> (action: Action)
        requires
            old(self).environment.wf(),
            statement_well_formed(statement@),
        ensures
            final(self).environment.wf(),
            (Outcome { machine: final(self)@, action: action@ }) == old(self)@.execute(statement@),
    {
        match statement {
            Statement::Expression(e) => {
                self.push_task(Task::Discard);
                self.push_task(Task::Evaluate(*e));
            },
            Statement::Print(e) => {
                self.push_task(Task::Emit);
                self.push_task(Task::Evaluate(*e));
            },
            Statement::Var { name, initializer } => match initializer {
                Some(e) => {
                    self.push_task(Task::Define(name));
                    self.push_task(Task::Evaluate(*e));
                },
                None => {
                    self.environment.define(&name, Value::Nil);
                },
            },
            Statement::Block(statements) => {
                assert(statement@->Block_0 =~= statement_views(statements@));
                self.environment.push_child();
                self.push_task(Task::Leave);
                self.schedule(statements);
            },
            Statement::If { condition, then_branch, else_branch } => {
                let other = match else_branch {
                    Some(s) => Some(*s),
                    None => None,
                };
                self.push_task(Task::Branch(*then_branch, other));
                self.push_task(Task::Evaluate(*condition));
            },
            Statement::While { condition, body } => {
                let again = (*condition).clone();
                self.push_task(Task::Repeat(again, *body));
                self.push_task(Task::Evaluate(*condition));
            },
        }
        Action::Continue
    }

    /// Starts on an expression that has been taken off the work to do.
    fn run_expression(&mut self, expression: Expression) -> (action: Action)
        requires
            old(self).environment.wf(),
            expression_well_formed(expression@),
        ensures
            final(self).environment.wf(),
            (Outcome { machine: final(self)@, action: action@ }) == old(self)@.evaluate(expression@),
    {
        match expression {
            Expression::Literal(value) => match value {
                Value::Number(literal) => {
                    self.push_task(Task::AcceptNumber(0));
                    return Action::Compute { operation: Operation::Literal, left: literal, right: None };
                },
                other => {
                    self.push_value(other);
                },
            },
            Expression::Grouping(inner) => {
                self.push_task(Task::Evaluate(*inner));
            },
            Expression::Unary { operator, expression } => {
                self.push_task(Task::Prefix(operator));
                self.push_task(Task::Evaluate(*expression));
            },
            Expression::Binary { left, operator, right } => {
                self.push_task(Task::Apply(operator));
                self.push_task(Task::Evaluate(*right));
                self.push_task(Task::Evaluate(*left));
            },
            Expression::Logical { left, operator, right } => {
                self.push_task(Task::Choose(operator, *right));
                self.push_task(Task::Evaluate(*left));
            },
            Expression::Variable(name) => match self.environment.lookup(&name) {
                Ok(value) => {
                    self.push_value(value);
                },
                Err(e) => {
                    return self.fail(e);
                },
            },
            Expression::Assign { name, value } => {
                self.push_task(Task::Store(name));
                self.push_task(Task::Evaluate(*value));
            },
        }
        Action::Continue
    }

    /// Applies a unary operator to the value on top of the stack.
    fn run_prefix(&mut self, operator: Token) -> (action: Action)
        requires
            old(self).environment.wf(),
            old(self)@.values.len() >= 1,
        ensures
            final(self).environment.wf(),
            (Outcome { machine: final(self)@, action: action@ }) == old(self)@.prefix(operator@),
    {
        match operator.lexeme {
            Lexeme::Minus => {
                let operand = self.pop_value();
                match operand {
                    Value::Number(n) => {
                        self.push_task(Task::AcceptNumber(operator.line));
                        Action::Compute { operation: Operation::Negate, left: n, right: None }
                    },
                    _ => {
                        proof {
                            assert(self@.scopes == old(self)@.scopes);
                        }
                        self.fail(error(operator.line, "Operand must be a number."))
                    },
                }
            },
            Lexeme::Bang => {
                let operand = self.pop_value();
                self.push_value(Value::Bool(!operand.is_truthy()));
                Action::Continue
            },
            _ => self.fail(error(operator.line, "Invalid unary operator.")),
        }
    }

    /// Applies a binary operator to the two values on top of the stack.
    fn run_apply(&mut self, operator: Token) -> (action: Action)
        requires
            old(self).environment.wf(),
            old(self)@.values.len() >= 2,
        ensures
            final(self).environment.wf(),
            (Outcome { machine: final(self)@, action: action@ }) == old(self)@.apply(operator@),
    {
        let (operation, negated) = match operation_for(&operator.lexeme) {
            None => {
                return self.fail(error(operator.line, "Invalid binary operator."));
            },
            Some(pair) => pair,
        };
        let right = self.pop_value();
        let left = self.pop_value();
        assert(self@.values =~= old(self)@.values.take(old(self)@.values.len() - 2));
        assert(left@ == old(self)@.values[old(self)@.values.len() - 2]);
        match (left, right) {
            (Value::Number(a), Value::Number(b)) => {
                if gives_number(operation) {
                    self.push_task(Task::AcceptNumber(operator.line));
                } else {
                    self.push_task(Task::AcceptTruth(operator.line, negated));
                }
                Action::Compute { operation, left: a, right: Some(b) }
            },
            (left, right) => {
                if operation == Operation::Equal {
                    self.push_value(Value::Bool(is_same_value(&left, &right) != negated));
                    Action::Continue
                } else if operation == Operation::Add {
                    match (left, right) {
                        (Value::String(a), Value::String(b)) => {
                            self.push_value(Value::String(a.concat(b.as_str())));
                            Action::Continue
                        },
                        _ => self.fail(error(operator.line, "Operands must be two numbers or two strings.")),
                    }
                } else {
                    self.fail(error(operator.line, "Operand must be a number."))
                }
            },
        }
    }

    /// Decides on the right operand of `and` or `or`.
    fn run_choose(&mut self, operator: Token, right: Expression) -> (action: Action)
        requires
            old(self)@.values.len() >= 1,
        ensures
            final(self).environment == old(self).environment,
            (Outcome { machine: final(self)@, action: action@ }) == old(self)@.decide(operator@, right@),
    {
        let truthy = self.values[self.values.len() - 1].is_truthy();
        let settled = if matches!(operator.lexeme, Lexeme::Or) {
            truthy
        } else {
            !truthy
        };
        if !settled {
            let _ = self.pop_value();
            self.push_task(Task::Evaluate(right));
        }
        Action::Continue
    }

    /// Does a task that needs a value from the stack and no more.
    fn run_simple(&mut self, task: Task) -> (action: Action)
        requires
            old(self).environment.wf(),
            old(self)@.values.len() >= 1,
            task@.sound(),
            task is Discard || task is Emit || task is Define || task is Store || task is Branch || task is Repeat,
        ensures
            final(self).environment.wf(),
            (Outcome { machine: final(self)@, action: action@ }) == old(self)@.perform(task@, ReplyView::Nothing),
    {
        match task {
            Task::Discard => {
                let _ = self.pop_value();
                Action::Continue
            },
            Task::Emit => {
                let value = self.pop_value();
                Action::Print(value.to_string())
            },
            Task::Define(name) => {
                let value = self.pop_value();
                self.environment.define(&name, value);
                Action::Continue
            },
            Task::Store(name) => {
                let value = self.values[self.values.len() - 1].clone();
                match self.environment.assign(&name, value) {
                    Ok(_) => Action::Continue,
                    Err(e) => self.fail(e),
                }
            },
            Task::Branch(then_branch, else_branch) => {
                let condition = self.pop_value();
                if condition.is_truthy() {
                    self.push_task(Task::Execute(then_branch));
                } else {
                    match else_branch {
                        Some(s) => {
                            self.push_task(Task::Execute(s));
                        },
                        None => {},
                    }
                }
                Action::Continue
            },
            Task::Repeat(condition, body) => {
                let value = self.pop_value();
                if value.is_truthy() {
                    let again = condition.clone();
                    let once_more = body.clone();
                    self.push_task(Task::Repeat(condition, body));
                    self.push_task(Task::Evaluate(again));
                    self.push_task(Task::Execute(once_more));
                }
                Action::Continue
            },
            _ => Action::Continue,
        }
    }

    /// Takes the host's reply as the value that a computation gave.
    fn run_accept(&mut self, task: Task, reply: Reply) -> (action: Action)
        requires
            old(self).environment.wf(),
            task is AcceptNumber || task is AcceptTruth,
        ensures
            final(self).environment.wf(),
            (Outcome { machine: final(self)@, action: action@ }) == old(self)@.perform(task@, reply@),
    {
        match task {
            Task::AcceptNumber(line) => match reply {
                Reply::Number(n) => {
                    self.push_value(Value::Number(n));
                    Action::Continue
                },
                _ => self.fail(error(line, "Expected a number from the host.")),
            },
            Task::AcceptTruth(line, negated) => match reply {
                Reply::Truth(b) => {
                    self.push_value(Value::Bool(b != negated));
                    Action::Continue
                },
                _ => self.fail(error(line, "Expected a truth value from the host.")),
            },
            _ => Action::Continue,
        }
    }

    /// One step of the interpreter: the next task is taken off the work to
    /// do and done. With nothing left to do the statement is finished.
    ///
    /// `reply` is the host's answer where the step before asked for a
    /// computation; any other step does not read it.
    pub fn step(&mut self, reply: Reply) -> (action: Action)
        requires
            old(self).wf(),
        ensures
            final(self).wf(),
            (Outcome { machine: final(self)@, action: action@ }) == old(self)@.step(reply@),
    {
        proof {
            lemma_step_keeps_invariant(self@, reply@);
        }
        let ghost before = self@;
        match self.tasks.pop() {
            None => {
                let value = match self.values.pop() {
                    Some(value) => value,
                    None => Value::Nil,
                };
                self.values = Vec::new();
                assert(self@.values =~= Seq::empty());
                assert(self@.tasks =~= before.tasks);
                Action::Finished(Ok(value))
            },
            Some(task) => {
                proof {
                    assert(self@.tasks =~= before.tasks.drop_last());
                    assert(task@ == before.tasks.last());
                    assert(before.tasks =~= before.tasks.drop_last().push(task@));
                    lemma_push_task(before.tasks.drop_last(), task@, before.values.len() as int);
                }
                match task {
                    Task::Execute(statement) => self.run_statement(statement),
                    Task::Evaluate(expression) => self.run_expression(expression),
                    Task::Prefix(operator) => self.run_prefix(operator),
                    Task::Apply(operator) => self.run_apply(operator),
                    Task::Choose(operator, right) => self.run_choose(operator, right),
                    Task::Leave => {
                        proof {
                            assert(before.scopes.len() >= 2);
                        }
                        self.environment.pop_child();
                        Action::Continue
                    },
                    Task::AcceptNumber(_) | Task::AcceptTruth(_, _) => self.run_accept(task, reply),
                    other => self.run_simple(other),
                }
            },
        }
    }
}

} // verus!
