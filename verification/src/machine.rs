use vstd::prelude::*;
use crate::environment::{assigned, defined, lemma_resolve, lookup, name_of, resolve, undefined, Scope};
use crate::errors::RuntimeErrorView;
use crate::expression::{expression_well_formed, ExpressionView};
use crate::statement::{statement_well_formed, StatementView};
use crate::token::{LexemeView, TokenView};
use crate::value::ValueView;

verus! {

/// What the host is asked to work out on numbers. The library carries
/// numbers as text and leaves their arithmetic to the host.
#[derive(Debug, Clone, Copy, PartialEq, Eq, Structural)]
pub enum Operation {
    /// Read a number literal: the number it stands for.
    Literal,
    Negate,
    Add,
    Subtract,
    Multiply,
    Divide,
    Less,
    LessEqual,
    Greater,
    GreaterEqual,
    Equal,
}

/// A piece of work that the interpreter has still to do.
pub ghost enum TaskView {
    /// Run a statement.
    Execute(StatementView),
    /// Evaluate an expression and put its value on the stack.
    Evaluate(ExpressionView),
    /// Drop the value on top of the stack.
    Discard,
    /// Take the value on top of the stack and print it.
    Emit,
    /// Take the value on top of the stack and define a variable with it.
    Define(TokenView),
    /// Assign the value on top of the stack, which stays, to a variable.
    Store(TokenView),
    /// Apply a unary operator to the value on top of the stack.
    Prefix(TokenView),
    /// Apply a binary operator to the two values on top of the stack.
    Apply(TokenView),
    /// Decide by the left operand of `and` or `or`, on top of the stack,
    /// whether the right operand is evaluated.
    Choose(TokenView, ExpressionView),
    /// Take the condition of an `if` from the stack and pick a branch.
    Branch(StatementView, Option<StatementView>),
    /// Take the condition of a `while` from the stack and run the body once
    /// more or leave the loop.
    Repeat(ExpressionView, StatementView),
    /// Close the scope of a block.
    Leave,
    /// Put the number that the host replies with on the stack.
    AcceptNumber(u64),
    /// Put the truth value that the host replies with on the stack, negated
    /// if the flag is set.
    AcceptTruth(u64, bool),
}

/// What the host has to do before the next step.
pub ghost enum ActionView {
    /// Nothing.
    Continue,
    /// Print the text as a line.
    Print(Seq<char>),
    /// Work out the operation on the operands and hand the result to the
    /// next step: a number for arithmetic, a truth value for a comparison.
    Compute { operation: Operation, left: Seq<char>, right: Option<Seq<char>> },
    /// Nothing more: the statement has ended, with its value or an error.
    Finished(Result<ValueView, RuntimeErrorView>),
}

/// What the host hands to a step.
pub ghost enum ReplyView {
    Nothing,
    Number(Seq<char>),
    Truth(bool),
}

/// The state of the interpreter: the scopes from the global one to the
/// innermost, the work still to do with the next task last, and the stack of
/// values with its top last.
pub ghost struct Machine {
    pub scopes: Seq<Scope>,
    pub tasks: Seq<TaskView>,
    pub values: Seq<ValueView>,
}

/// The state after a step and what the host has to do.
pub ghost struct Outcome {
    pub machine: Machine,
    pub action: ActionView,
}

/// The runtime error with `message`, met on `line`.
pub open spec fn error_at(line: u64, message: Seq<char>) -> RuntimeErrorView {
    RuntimeErrorView { line, message }
}

/// The tasks that run the statements of a block in order: the first
/// statement is the last task, so that it runs first.
pub open spec fn scheduled(statements: Seq<StatementView>) -> Seq<TaskView> {
    Seq::new(statements.len(), |i: int| TaskView::Execute(statements[statements.len() - 1 - i]))
}

/// `==` on two values that are not both numbers: equal strings, equal
/// truth values, and `nil` with `nil`; values of different kinds are not
/// equal.
pub open spec fn same_value(left: ValueView, right: ValueView) -> bool {
    match (left, right) {
        (ValueView::String(a), ValueView::String(b)) => a == b,
        (ValueView::Bool(a), ValueView::Bool(b)) => a == b,
        (ValueView::Nil, ValueView::Nil) => true,
        _ => false,
    }
}

impl Machine {
    /// The machine with other scopes.
    pub open spec fn with_scopes(self, scopes: Seq<Scope>) -> Machine {
        Machine { scopes, tasks: self.tasks, values: self.values }
    }

    /// The machine with other work to do.
    pub open spec fn with_tasks(self, tasks: Seq<TaskView>) -> Machine {
        Machine { scopes: self.scopes, tasks, values: self.values }
    }

    /// The machine with another stack.
    pub open spec fn with_values(self, values: Seq<ValueView>) -> Machine {
        Machine { scopes: self.scopes, tasks: self.tasks, values }
    }

    /// One more task to do, before the others.
    pub open spec fn task(self, task: TaskView) -> Machine {
        self.with_tasks(self.tasks.push(task))
    }

    /// One more value on the stack.
    pub open spec fn value(self, value: ValueView) -> Machine {
        self.with_values(self.values.push(value))
    }

    /// The stack without its top value.
    pub open spec fn dropped(self) -> Machine {
        self.with_values(self.values.drop_last())
    }

    /// The step ends here and the host has nothing to do.
    pub open spec fn go(self) -> Outcome {
        Outcome { machine: self, action: ActionView::Continue }
    }

    /// The step ends here and the host has to compute.
    pub open spec fn ask(self, operation: Operation, left: Seq<char>, right: Option<Seq<char>>) -> Outcome {
        Outcome { machine: self, action: ActionView::Compute { operation, left, right } }
    }

    /// The statement ends with an error: what was left to do is dropped, the
    /// stack is emptied and every scope but the global one is closed. What
    /// the statement has done to the global scope so far stays.
    pub open spec fn fail(self, error: RuntimeErrorView) -> Outcome {
        Outcome {
            machine: Machine { scopes: self.scopes.take(1), tasks: Seq::empty(), values: Seq::empty() },
            action: ActionView::Finished(Err(error)),
        }
    }

    /// Nothing is left to do: the statement ends with the value on top of
    /// the stack, or with `nil` where the stack is empty.
    pub open spec fn finish(self) -> Outcome {
        Outcome {
            machine: self.with_values(Seq::empty()),
            action: ActionView::Finished(
                Ok(
                    if self.values.len() > 0 {
                        self.values.last()
                    } else {
                        ValueView::Nil
                    },
                ),
            ),
        }
    }

    /// Whether nothing is left to do.
    pub open spec fn is_ready(self) -> bool {
        self.tasks.len() == 0
    }

    /// The machine with `statement` as all it has to do.
    pub open spec fn loaded(self, statement: StatementView) -> Machine {
        Machine { scopes: self.scopes.take(1), tasks: seq![TaskView::Execute(statement)], values: Seq::empty() }
    }

    /// The machine with `expression` as all it has to do.
    pub open spec fn loaded_expression(self, expression: ExpressionView) -> Machine {
        Machine { scopes: self.scopes.take(1), tasks: seq![TaskView::Evaluate(expression)], values: Seq::empty() }
    }

    /// The machine with `statements` as all it has to do, in order.
    pub open spec fn loaded_program(self, statements: Seq<StatementView>) -> Machine {
        Machine { scopes: self.scopes.take(1), tasks: scheduled(statements), values: Seq::empty() }
    }

    /// Start on a statement.
    pub open spec fn execute(self, statement: StatementView) -> Outcome {
        match statement {
            StatementView::Expression(e) => self.task(TaskView::Discard).task(TaskView::Evaluate(e)).go(),
            StatementView::Print(e) => self.task(TaskView::Emit).task(TaskView::Evaluate(e)).go(),
            StatementView::Var { name, initializer } => match initializer {
                Some(e) => self.task(TaskView::Define(name)).task(TaskView::Evaluate(e)).go(),
                None => self.with_scopes(defined(self.scopes, name_of(name), ValueView::Nil)).go(),
            },
            StatementView::Block(statements) => Machine {
                scopes: self.scopes.push(Map::empty()),
                tasks: self.tasks.push(TaskView::Leave) + scheduled(statements),
                values: self.values,
            }.go(),
            StatementView::If { condition, then_branch, else_branch } => self.task(
                TaskView::Branch(
                    *then_branch,
                    match else_branch {
                        Some(s) => Some(*s),
                        None => None,
                    },
                ),
            ).task(TaskView::Evaluate(condition)).go(),
            StatementView::While { condition, body } => self.task(TaskView::Repeat(condition, *body)).task(
                TaskView::Evaluate(condition),
            ).go(),
        }
    }

    /// Start on an expression. Its operands are evaluated from left to right.
    pub open spec fn evaluate(self, expression: ExpressionView) -> Outcome {
        match expression {
            ExpressionView::Literal(value) => match value {
                ValueView::Number(literal) => self.task(TaskView::AcceptNumber(0)).ask(
                    Operation::Literal,
                    literal,
                    None,
                ),
                _ => self.value(value).go(),
            },
            ExpressionView::Grouping(inner) => self.task(TaskView::Evaluate(*inner)).go(),
            ExpressionView::Unary { operator, expression } => self.task(TaskView::Prefix(operator)).task(
                TaskView::Evaluate(*expression),
            ).go(),
            ExpressionView::Binary { left, operator, right } => self.task(TaskView::Apply(operator)).task(
                TaskView::Evaluate(*right),
            ).task(TaskView::Evaluate(*left)).go(),
            ExpressionView::Logical { left, operator, right } => self.task(
                TaskView::Choose(operator, *right),
            ).task(TaskView::Evaluate(*left)).go(),
            ExpressionView::Variable(name) => match lookup(self.scopes, name_of(name)) {
                Some(value) => self.value(value).go(),
                None => self.fail(undefined(name)),
            },
            ExpressionView::Assign { name, value } => self.task(TaskView::Store(name)).task(
                TaskView::Evaluate(*value),
            ).go(),
        }
    }

    /// Print the value on top of the stack, in its display form: a string
    /// between double quotes.
    pub open spec fn emit(self) -> Outcome {
        Outcome { machine: self.dropped(), action: ActionView::Print(self.values.last().text()) }
    }

    /// Define a variable with the value on top of the stack.
    pub open spec fn define(self, name: TokenView) -> Outcome {
        self.dropped().with_scopes(defined(self.scopes, name_of(name), self.values.last())).go()
    }

    /// Assign the value on top of the stack to a variable. The value stays:
    /// it is the value of the assignment.
    pub open spec fn store(self, name: TokenView) -> Outcome {
        if resolve(self.scopes, name_of(name)) is Some {
            self.with_scopes(assigned(self.scopes, name_of(name), self.values.last())).go()
        } else {
            self.fail(undefined(name))
        }
    }

    /// Apply a unary operator: `-` asks the host to negate a number, `!`
    /// gives the opposite of the operand's truth.
    pub open spec fn prefix(self, operator: TokenView) -> Outcome {
        let operand = self.values.last();
        if operator.lexeme == LexemeView::Minus {
            match operand {
                ValueView::Number(n) => self.dropped().task(TaskView::AcceptNumber(operator.line)).ask(
                    Operation::Negate,
                    n,
                    None,
                ),
                _ => self.fail(error_at(operator.line, "Operand must be a number."@)),
            }
        } else if operator.lexeme == LexemeView::Bang {
            self.dropped().value(ValueView::Bool(!operand.is_truthy())).go()
        } else {
            self.fail(error_at(operator.line, "Invalid unary operator."@))
        }
    }

    /// The operation that a binary operator asks of the host where both
    /// operands are numbers, and whether the host's answer is negated.
    pub open spec fn operation_of(lexeme: LexemeView) -> Option<(Operation, bool)> {
        match lexeme {
            LexemeView::Minus => Some((Operation::Subtract, false)),
            LexemeView::Plus => Some((Operation::Add, false)),
            LexemeView::Slash => Some((Operation::Divide, false)),
            LexemeView::Star => Some((Operation::Multiply, false)),
            LexemeView::Less => Some((Operation::Less, false)),
            LexemeView::LessEqual => Some((Operation::LessEqual, false)),
            LexemeView::Greater => Some((Operation::Greater, false)),
            LexemeView::GreaterEqual => Some((Operation::GreaterEqual, false)),
            LexemeView::EqualEqual => Some((Operation::Equal, false)),
            LexemeView::BangEqual => Some((Operation::Equal, true)),
            _ => None,
        }
    }

    /// Whether an operation gives a number; the others give a truth value.
    pub open spec fn gives_number(operation: Operation) -> bool {
        match operation {
            Operation::Literal | Operation::Negate | Operation::Add | Operation::Subtract | Operation::Multiply
            | Operation::Divide => true,
            _ => false,
        }
    }

    /// Apply a binary operator to the two values on top of the stack, the
    /// right operand being the upper one.
    ///
    /// On two numbers the host is asked. `+` joins two strings. `==`
    /// and `!=` compare any two values. Any other operands are an error.
    pub open spec fn apply(self, operator: TokenView) -> Outcome {
        let right = self.values.last();
        let left = self.values[self.values.len() - 2];
        let rest = self.with_values(self.values.take(self.values.len() - 2));
        match Self::operation_of(operator.lexeme) {
            None => self.fail(error_at(operator.line, "Invalid binary operator."@)),
            Some((operation, negated)) => match (left, right) {
                (ValueView::Number(a), ValueView::Number(b)) => rest.task(
                    if Self::gives_number(operation) {
                        TaskView::AcceptNumber(operator.line)
                    } else {
                        TaskView::AcceptTruth(operator.line, negated)
                    },
                ).ask(operation, a, Some(b)),
                _ => if operation == Operation::Equal {
                    rest.value(ValueView::Bool(same_value(left, right) != negated)).go()
                } else if operation == Operation::Add {
                    match (left, right) {
                        (ValueView::String(a), ValueView::String(b)) => rest.value(ValueView::String(a + b)).go(),
                        _ => self.fail(error_at(operator.line, "Operands must be two numbers or two strings."@)),
                    }
                } else {
                    self.fail(error_at(operator.line, "Operand must be a number."@))
                },
            },
        }
    }

    /// Whether the left operand's value settles a logical operator: a truthy
    /// one settles `or`, a falsy one settles `and`.
    pub open spec fn settles(operator: TokenView, left: ValueView) -> bool {
        if operator.lexeme == LexemeView::Or {
            left.is_truthy()
        } else {
            !left.is_truthy()
        }
    }

    /// Decide on the right operand of `and` or `or`. Where the left
    /// operand settles the operator, its value stays as the result and the
    /// right operand is dropped unevaluated; else the left value is dropped
    /// and the right operand is evaluated.
    pub open spec fn decide(self, operator: TokenView, right: ExpressionView) -> Outcome {
        if Self::settles(operator, self.values.last()) {
            self.go()
        } else {
            self.dropped().task(TaskView::Evaluate(right)).go()
        }
    }

    /// Pick the branch of an `if` by the condition on top of the stack.
    pub open spec fn branch(self, then_branch: StatementView, else_branch: Option<StatementView>) -> Outcome {
        if self.values.last().is_truthy() {
            self.dropped().task(TaskView::Execute(then_branch)).go()
        } else {
            match else_branch {
                Some(s) => self.dropped().task(TaskView::Execute(s)).go(),
                None => self.dropped().go(),
            }
        }
    }

    /// Run the body of a `while` once more if the condition on top of the
    /// stack is truthy, and then evaluate the condition again.
    pub open spec fn repeat(self, condition: ExpressionView, body: StatementView) -> Outcome {
        if self.values.last().is_truthy() {
            self.dropped().task(TaskView::Repeat(condition, body)).task(TaskView::Evaluate(condition)).task(
                TaskView::Execute(body),
            ).go()
        } else {
            self.dropped().go()
        }
    }

    /// Take the host's reply as a number.
    pub open spec fn accept_number(self, line: u64, reply: ReplyView) -> Outcome {
        match reply {
            ReplyView::Number(n) => self.value(ValueView::Number(n)).go(),
            _ => self.fail(error_at(line, "Expected a number from the host."@)),
        }
    }

    /// Take the host's reply as a truth value.
    pub open spec fn accept_truth(self, line: u64, negated: bool, reply: ReplyView) -> Outcome {
        match reply {
            ReplyView::Truth(b) => self.value(ValueView::Bool(b != negated)).go(),
            _ => self.fail(error_at(line, "Expected a truth value from the host."@)),
        }
    }

    /// Do the task `task`, which has been taken off the work to do.
    pub open spec fn perform(self, task: TaskView, reply: ReplyView) -> Outcome {
        match task {
            TaskView::Execute(statement) => self.execute(statement),
            TaskView::Evaluate(expression) => self.evaluate(expression),
            TaskView::Discard => self.dropped().go(),
            TaskView::Emit => self.emit(),
            TaskView::Define(name) => self.define(name),
            TaskView::Store(name) => self.store(name),
            TaskView::Prefix(operator) => self.prefix(operator),
            TaskView::Apply(operator) => self.apply(operator),
            TaskView::Choose(operator, right) => self.decide(operator, right),
            TaskView::Branch(then_branch, else_branch) => self.branch(then_branch, else_branch),
            TaskView::Repeat(condition, body) => self.repeat(condition, body),
            TaskView::Leave => self.with_scopes(self.scopes.drop_last()).go(),
            TaskView::AcceptNumber(line) => self.accept_number(line, reply),
            TaskView::AcceptTruth(line, negated) => self.accept_truth(line, negated, reply),
        }
    }

    /// One step: the next task is taken off and done. The reply is read only
    /// by a task that waits for the host's answer.
    pub open spec fn step(self, reply: ReplyView) -> Outcome {
        if self.tasks.len() == 0 {
            self.finish()
        } else {
            self.with_tasks(self.tasks.drop_last()).perform(self.tasks.last(), reply)
        }
    }
}

impl TaskView {
    /// How many values the task needs on the stack when its turn comes.
    pub open spec fn takes(self) -> int {
        match self {
            TaskView::Execute(_) | TaskView::Evaluate(_) | TaskView::Leave | TaskView::AcceptNumber(_)
            | TaskView::AcceptTruth(_, _) => 0,
            TaskView::Apply(_) => 2,
            _ => 1,
        }
    }

    /// By how many values the stack has grown when the task, and all that
    /// it led to, is done.
    pub open spec fn gives(self) -> int {
        match self {
            TaskView::Evaluate(_) | TaskView::AcceptNumber(_) | TaskView::AcceptTruth(_, _) => 1,
            TaskView::Execute(_) | TaskView::Leave | TaskView::Store(_) | TaskView::Prefix(_) | TaskView::Choose(
                _,
                _,
            ) => 0,
            _ => -1,
        }
    }

    /// Whether every variable that the task names is named by an identifier
    /// token.
    pub open spec fn sound(self) -> bool {
        match self {
            TaskView::Execute(statement) => statement_well_formed(statement),
            TaskView::Evaluate(expression) => expression_well_formed(expression),
            TaskView::Define(name) => name.lexeme is Identifier,
            TaskView::Store(name) => name.lexeme is Identifier,
            TaskView::Choose(_, right) => expression_well_formed(right),
            TaskView::Branch(then_branch, else_branch) => statement_well_formed(then_branch) && match else_branch {
                Some(s) => statement_well_formed(s),
                None => true,
            },
            TaskView::Repeat(condition, body) => expression_well_formed(condition) && statement_well_formed(body),
            _ => true,
        }
    }
}

/// Whether a stack of `height` values holds what each task needs when its
/// turn comes.
pub open spec fn fits(tasks: Seq<TaskView>, height: int) -> bool
    decreases tasks.len(),
{
    tasks.len() > 0 ==> tasks.last().takes() <= height && fits(tasks.drop_last(), height + tasks.last().gives())
}

/// The number of scopes that the tasks will close.
pub open spec fn open_scopes(tasks: Seq<TaskView>) -> nat
    decreases tasks.len(),
{
    if tasks.len() == 0 {
        0
    } else {
        open_scopes(tasks.drop_last()) + if tasks.last() is Leave {
            1nat
        } else {
            0nat
        }
    }
}

/// Whether every task names its variables by identifier tokens.
pub open spec fn all_sound(tasks: Seq<TaskView>) -> bool {
    forall|i: int| 0 <= i < tasks.len() ==> (#[trigger] tasks[i]).sound()
}

impl Machine {
    /// The interpreter's invariant: beside the global scope there is one
    /// scope for each block that is being executed, the stack holds what the
    /// tasks need, and the tasks name variables by identifier tokens.
    pub open spec fn wf(self) -> bool {
        &&& self.scopes.len() == 1 + open_scopes(self.tasks)
        &&& fits(self.tasks, self.values.len() as int)
        &&& all_sound(self.tasks)
    }
}

/// What one more task does to the three parts of the invariant.
pub proof fn lemma_push_task(tasks: Seq<TaskView>, task: TaskView, height: int)
    ensures
        fits(tasks.push(task), height) == (task.takes() <= height && fits(tasks, height + task.gives())),
        open_scopes(tasks.push(task)) == open_scopes(tasks) + if task is Leave {
            1nat
        } else {
            0nat
        },
        all_sound(tasks.push(task)) == (all_sound(tasks) && task.sound()),
{
    let pushed = tasks.push(task);
    assert(pushed.drop_last() =~= tasks);
    assert(pushed.last() == task);
    if all_sound(pushed) {
        assert(pushed[tasks.len() as int].sound());
        assert forall|i: int| 0 <= i < tasks.len() implies (#[trigger] tasks[i]).sound() by {
            assert(pushed[i].sound());
        }
    }
}

/// The statements of a block, scheduled, need no values, leave none and
/// close no scope.
pub proof fn lemma_scheduled(tasks: Seq<TaskView>, statements: Seq<StatementView>, height: int)
    requires
        height >= 0,
    ensures
        fits(tasks + scheduled(statements), height) == fits(tasks, height),
        open_scopes(tasks + scheduled(statements)) == open_scopes(tasks),
        (forall|i: int| 0 <= i < statements.len() ==> statement_well_formed(#[trigger] statements[i])) ==> (
        all_sound(tasks + scheduled(statements)) == all_sound(tasks)),
    decreases statements.len(),
{
    let all = tasks + scheduled(statements);
    if statements.len() == 0 {
        assert(all =~= tasks);
    } else {
        let rest = statements.drop_first();
        let front = tasks + scheduled(rest);
        lemma_scheduled(tasks, rest, height);
        assert(all =~= front.push(TaskView::Execute(statements[0])));
        lemma_push_task(front, TaskView::Execute(statements[0]), height);
        if forall|i: int| 0 <= i < statements.len() ==> statement_well_formed(#[trigger] statements[i]) {
            assert forall|i: int| 0 <= i < rest.len() implies statement_well_formed(#[trigger] rest[i]) by {
                assert(rest[i] == statements[i + 1]);
            }
            assert(statement_well_formed(statements[0]));
        }
    }
}

/// A step keeps the interpreter's invariant.
pub proof fn lemma_step_keeps_invariant(m: Machine, reply: ReplyView)
    requires
        m.wf(),
    ensures
        m.step(reply).machine.wf(),
{
    let h = m.values.len() as int;
    if m.tasks.len() > 0 {
        let task = m.tasks.last();
        let rest = m.tasks.drop_last();
        let r = m.with_tasks(rest);
        assert(m.tasks =~= rest.push(task));
        lemma_push_task(rest, task, h);
        assert(Seq::<TaskView>::empty().len() == 0);
        assert(m.scopes.take(1).len() == 1);
        match task {
            TaskView::Execute(statement) => {
                lemma_execute_keeps_invariant(r, statement);
            },
            TaskView::Evaluate(expression) => {
                lemma_evaluate_keeps_invariant(r, expression);
            },
            TaskView::Prefix(operator) => {
                lemma_push_task(rest, TaskView::AcceptNumber(operator.line), h - 1);
            },
            TaskView::Apply(operator) => {
                lemma_push_task(rest, TaskView::AcceptNumber(operator.line), h - 2);
                lemma_push_task(rest, TaskView::AcceptTruth(operator.line, true), h - 2);
                lemma_push_task(rest, TaskView::AcceptTruth(operator.line, false), h - 2);
            },
            TaskView::Choose(operator, right) => {
                lemma_push_task(rest, TaskView::Evaluate(right), h - 1);
            },
            TaskView::Branch(then_branch, else_branch) => {
                lemma_push_task(rest, TaskView::Execute(then_branch), h - 1);
                if else_branch is Some {
                    lemma_push_task(rest, TaskView::Execute(else_branch->Some_0), h - 1);
                }
            },
            TaskView::Repeat(condition, body) => {
                let a = rest.push(TaskView::Repeat(condition, body));
                let b = a.push(TaskView::Evaluate(condition));
                lemma_push_task(rest, TaskView::Repeat(condition, body), h);
                lemma_push_task(a, TaskView::Evaluate(condition), h - 1);
                lemma_push_task(b, TaskView::Execute(body), h - 1);
            },
            TaskView::Store(name) => {
                lemma_resolve(m.scopes, name_of(name));
            },
            _ => {},
        }
    }
}

proof fn lemma_execute_keeps_invariant(r: Machine, statement: StatementView)
    requires
        r.wf(),
        statement_well_formed(statement),
    ensures
        r.execute(statement).machine.wf(),
{
    let h = r.values.len() as int;
    let rest = r.tasks;
    match statement {
        StatementView::Expression(e) => {
            lemma_push_task(rest, TaskView::Discard, h + 1);
            lemma_push_task(rest.push(TaskView::Discard), TaskView::Evaluate(e), h);
        },
        StatementView::Print(e) => {
            lemma_push_task(rest, TaskView::Emit, h + 1);
            lemma_push_task(rest.push(TaskView::Emit), TaskView::Evaluate(e), h);
        },
        StatementView::Var { name, initializer } => {
            if initializer is Some {
                lemma_push_task(rest, TaskView::Define(name), h + 1);
                lemma_push_task(rest.push(TaskView::Define(name)), TaskView::Evaluate(initializer->Some_0), h);
            }
        },
        StatementView::Block(statements) => {
            lemma_push_task(rest, TaskView::Leave, h);
            lemma_scheduled(rest.push(TaskView::Leave), statements, h);
        },
        StatementView::If { condition, then_branch, else_branch } => {
            let branch = TaskView::Branch(
                *then_branch,
                match else_branch {
                    Some(s) => Some(*s),
                    None => None,
                },
            );
            lemma_push_task(rest, branch, h + 1);
            lemma_push_task(rest.push(branch), TaskView::Evaluate(condition), h);
        },
        StatementView::While { condition, body } => {
            lemma_push_task(rest, TaskView::Repeat(condition, *body), h + 1);
            lemma_push_task(rest.push(TaskView::Repeat(condition, *body)), TaskView::Evaluate(condition), h);
        },
    }
}

proof fn lemma_evaluate_keeps_invariant(r: Machine, expression: ExpressionView)
    requires
        r.scopes.len() == 1 + open_scopes(r.tasks),
        all_sound(r.tasks),
        fits(r.tasks, r.values.len() as int + 1),
        expression_well_formed(expression),
    ensures
        r.evaluate(expression).machine.wf(),
{
    let h = r.values.len() as int;
    let rest = r.tasks;
    assert(r.scopes.take(1).len() == 1);
    match expression {
        ExpressionView::Literal(value) => {
            lemma_push_task(rest, TaskView::AcceptNumber(0), h);
        },
        ExpressionView::Grouping(inner) => {
            lemma_push_task(rest, TaskView::Evaluate(*inner), h);
        },
        ExpressionView::Unary { operator, expression } => {
            lemma_push_task(rest, TaskView::Prefix(operator), h + 1);
            lemma_push_task(rest.push(TaskView::Prefix(operator)), TaskView::Evaluate(*expression), h);
        },
        ExpressionView::Binary { left, operator, right } => {
            let a = rest.push(TaskView::Apply(operator));
            let b = a.push(TaskView::Evaluate(*right));
            lemma_push_task(rest, TaskView::Apply(operator), h + 2);
            lemma_push_task(a, TaskView::Evaluate(*right), h + 1);
            lemma_push_task(b, TaskView::Evaluate(*left), h);
        },
        ExpressionView::Logical { left, operator, right } => {
            lemma_push_task(rest, TaskView::Choose(operator, *right), h + 1);
            lemma_push_task(rest.push(TaskView::Choose(operator, *right)), TaskView::Evaluate(*left), h);
        },
        ExpressionView::Variable(name) => {},
        ExpressionView::Assign { name, value } => {
            lemma_push_task(rest, TaskView::Store(name), h + 1);
            lemma_push_task(rest.push(TaskView::Store(name)), TaskView::Evaluate(*value), h);
        },
    }
}

/// Short circuit: where the value of the left operand settles `and` or
/// `or`, the step that decides leaves that value as the result and drops the
/// right operand without ever making it a task. Whatever the right operand
/// is, the state after the step is the same.
pub proof fn lemma_short_circuit(m: Machine, operator: TokenView, right: ExpressionView, reply: ReplyView)
    requires
        m.values.len() > 0,
        Machine::settles(operator, m.values.last()),
    ensures
        m.task(TaskView::Choose(operator, right)).step(reply) == m.go(),
{
    let loaded = m.task(TaskView::Choose(operator, right));
    assert(loaded.tasks.drop_last() =~= m.tasks);
    assert(loaded.with_tasks(loaded.tasks.drop_last()) == m);
}

/// `false and <right>` gives `false` in three steps, none of which makes
/// `<right>` a task or asks the host for anything.
pub proof fn lemma_false_and(
    m: Machine,
    operator: TokenView,
    right: ExpressionView,
    first: ReplyView,
    second: ReplyView,
    third: ReplyView,
)
    requires
        operator.lexeme == LexemeView::And,
    ensures
        ({
            let start = m.task(
                TaskView::Evaluate(
                    ExpressionView::Logical {
                        left: Box::new(ExpressionView::Literal(ValueView::Bool(false))),
                        operator,
                        right: Box::new(right),
                    },
                ),
            );
            let one = start.step(first);
            let two = one.machine.step(second);
            let three = two.machine.step(third);
            &&& one.action == ActionView::Continue
            &&& two.action == ActionView::Continue
            &&& three == m.value(ValueView::Bool(false)).go()
        }),
{
    let choose = TaskView::Choose(operator, right);
    let left = TaskView::Evaluate(ExpressionView::Literal(ValueView::Bool(false)));
    let start = m.task(
        TaskView::Evaluate(
            ExpressionView::Logical {
                left: Box::new(ExpressionView::Literal(ValueView::Bool(false))),
                operator,
                right: Box::new(right),
            },
        ),
    );
    assert(start.tasks.drop_last() =~= m.tasks);
    let one = start.step(first);
    assert(one.machine == m.task(choose).task(left));
    assert(one.machine.tasks.drop_last() =~= m.tasks.push(choose));
    let two = one.machine.step(second);
    assert(two.machine == m.task(choose).value(ValueView::Bool(false)));
    lemma_short_circuit(m.value(ValueView::Bool(false)), operator, right, third);
}

/// `true or <right>` gives `true` in three steps, none of which makes
/// `<right>` a task or asks the host for anything.
pub proof fn lemma_true_or(
    m: Machine,
    operator: TokenView,
    right: ExpressionView,
    first: ReplyView,
    second: ReplyView,
    third: ReplyView,
)
    requires
        operator.lexeme == LexemeView::Or,
    ensures
        ({
            let start = m.task(
                TaskView::Evaluate(
                    ExpressionView::Logical {
                        left: Box::new(ExpressionView::Literal(ValueView::Bool(true))),
                        operator,
                        right: Box::new(right),
                    },
                ),
            );
            let one = start.step(first);
            let two = one.machine.step(second);
            let three = two.machine.step(third);
            &&& one.action == ActionView::Continue
            &&& two.action == ActionView::Continue
            &&& three == m.value(ValueView::Bool(true)).go()
        }),
{
    let choose = TaskView::Choose(operator, right);
    let left = TaskView::Evaluate(ExpressionView::Literal(ValueView::Bool(true)));
    let start = m.task(
        TaskView::Evaluate(
            ExpressionView::Logical {
                left: Box::new(ExpressionView::Literal(ValueView::Bool(true))),
                operator,
                right: Box::new(right),
            },
        ),
    );
    assert(start.tasks.drop_last() =~= m.tasks);
    let one = start.step(first);
    assert(one.machine == m.task(choose).task(left));
    assert(one.machine.tasks.drop_last() =~= m.tasks.push(choose));
    let two = one.machine.step(second);
    assert(two.machine == m.task(choose).value(ValueView::Bool(true)));
    lemma_short_circuit(m.value(ValueView::Bool(true)), operator, right, third);
}

/// A block runs in a scope of its own: starting on it opens a scope and puts
/// the task that closes it beneath the block's statements, and that task
/// closes the scope again.
pub proof fn lemma_block_scope(m: Machine, statements: Seq<StatementView>, reply: ReplyView)
    ensures
        ({
            let inside = m.task(TaskView::Execute(StatementView::Block(statements))).step(reply).machine;
            &&& inside.scopes == m.scopes.push(Map::empty())
            &&& inside.tasks == m.tasks.push(TaskView::Leave) + scheduled(statements)
            &&& inside.values == m.values
        }),
        m.with_scopes(m.scopes.push(Map::empty())).task(TaskView::Leave).step(reply) == m.go(),
{
    let start = m.task(TaskView::Execute(StatementView::Block(statements)));
    assert(start.tasks.drop_last() =~= m.tasks);
    let opened = m.with_scopes(m.scopes.push(Map::empty()));
    assert(opened.task(TaskView::Leave).tasks.drop_last() =~= m.tasks);
    assert(m.scopes.push(Map::empty()).drop_last() =~= m.scopes);
}

/// What a statement declares in the global scope is there for the next
/// statement: the step that defines the variable ends the declaration with
/// the variable bound, finishing changes no scope, and loading another
/// statement keeps the global scope.
pub proof fn lemma_declaration_persists(
    m: Machine,
    name: TokenView,
    value: ValueView,
    next: StatementView,
    first: ReplyView,
    second: ReplyView,
)
    requires
        m.is_ready(),
        m.values.len() == 0,
        m.scopes.len() == 1,
    ensures
        ({
            let declared = m.value(value).task(TaskView::Define(name)).step(first);
            let finished = declared.machine.step(second);
            &&& declared.machine.is_ready()
            &&& declared.action == ActionView::Continue
            &&& lookup(declared.machine.scopes, name_of(name)) == Some(value)
            &&& finished.action == ActionView::Finished(Ok(ValueView::Nil))
            &&& finished.machine.scopes == declared.machine.scopes
            &&& finished.machine.loaded(next).scopes == declared.machine.scopes
            &&& lookup(finished.machine.loaded(next).scopes, name_of(name)) == Some(value)
        }),
{
    let start = m.value(value).task(TaskView::Define(name));
    assert(start.tasks.drop_last() =~= m.tasks);
    assert(start.values.drop_last() =~= m.values);
    let declared = start.step(first);
    let scopes = defined(m.scopes, name_of(name), value);
    assert(declared.machine.scopes == scopes);
    assert(scopes.take(1) =~= scopes);
    assert(scopes.last().contains_key(name_of(name)));
    assert(resolve(scopes, name_of(name)) == Some(0int));
    assert(declared.machine.values =~= Seq::<ValueView>::empty());
    let finished = declared.machine.step(second);
    assert(finished.machine.scopes == scopes);
}

} // verus!
