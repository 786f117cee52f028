use vstd::prelude::*;
use crate::environment::{lemma_resolve, name_of, resolve, Scope};
use crate::machine::{
    lemma_push_task, lemma_step_keeps_invariant, open_scopes, scheduled, ActionView, Machine, ReplyView, TaskView,
};
use crate::statement::StatementView;
use crate::expression::ExpressionView;
use crate::value::ValueView;

verus! {

/// The machine after one step for each of the replies, in order.
pub open spec fn run(m: Machine, replies: Seq<ReplyView>) -> Machine
    decreases replies.len(),
{
    if replies.len() == 0 {
        m
    } else {
        run(m, replies.drop_last()).step(replies.last()).machine
    }
}

/// What the last step of a run of at least one step asks of the host.
pub open spec fn last_action(m: Machine, replies: Seq<ReplyView>) -> ActionView {
    run(m, replies.drop_last()).step(replies.last()).action
}

/// Whether no step of the run ends the work, be it with an error or
/// because nothing was left to do.
pub open spec fn unfinished(m: Machine, replies: Seq<ReplyView>) -> bool {
    forall|j: int| 1 <= j <= replies.len() ==> !(#[trigger] last_action(m, replies.take(j)) is Finished)
}

/// Whether two chains of scopes have as many scopes and each scope binds the
/// same names in both.
pub open spec fn same_names(a: Seq<Scope>, b: Seq<Scope>) -> bool {
    &&& a.len() == b.len()
    &&& forall|i: int| 0 <= i < a.len() ==> (#[trigger] a[i]).dom() == b[i].dom()
}

/// By how many values the stack has grown when all the tasks are done.
pub open spec fn balance(tasks: Seq<TaskView>) -> int
    decreases tasks.len(),
{
    if tasks.len() == 0 {
        0
    } else {
        balance(tasks.drop_last()) + tasks.last().gives()
    }
}

/// Whether `tasks` is `base` with more tasks to do before it.
pub open spec fn extends(tasks: Seq<TaskView>, base: Seq<TaskView>) -> bool {
    tasks.len() >= base.len() && tasks.take(base.len() as int) == base
}

proof fn lemma_extends_push(tasks: Seq<TaskView>, base: Seq<TaskView>, task: TaskView)
    requires
        extends(tasks, base),
    ensures
        extends(tasks.push(task), base),
        balance(tasks.push(task)) == balance(tasks) + task.gives(),
{
    assert(tasks.push(task).take(base.len() as int) =~= tasks.take(base.len() as int));
    assert(tasks.push(task).drop_last() =~= tasks);
}

proof fn lemma_extends_scheduled(tasks: Seq<TaskView>, base: Seq<TaskView>, statements: Seq<StatementView>)
    requires
        extends(tasks, base),
    ensures
        extends(tasks + scheduled(statements), base),
        balance(tasks + scheduled(statements)) == balance(tasks),
    decreases statements.len(),
{
    let all = tasks + scheduled(statements);
    if statements.len() == 0 {
        assert(all =~= tasks);
    } else {
        let rest = statements.drop_first();
        let front = tasks + scheduled(rest);
        lemma_extends_scheduled(tasks, base, rest);
        assert(all =~= front.push(TaskView::Execute(statements[0])));
        lemma_extends_push(front, base, TaskView::Execute(statements[0]));
    }
}

/// The tasks that come first close no more scopes than all the tasks.
proof fn lemma_open_scopes_of_prefix(tasks: Seq<TaskView>, n: int)
    requires
        0 <= n <= tasks.len(),
    ensures
        open_scopes(tasks.take(n)) <= open_scopes(tasks),
    decreases tasks.len(),
{
    if n == tasks.len() {
        assert(tasks.take(n) =~= tasks);
    } else {
        lemma_open_scopes_of_prefix(tasks.drop_last(), n);
        assert(tasks.drop_last().take(n) =~= tasks.take(n));
    }
}

/// What a step that does not end the work leaves alone: the tasks beneath
/// the one it does, the height that the stack will have when all is done, and
/// the names of every scope but the innermost.
pub proof fn lemma_step_is_local(s: Machine, reply: ReplyView)
    requires
        s.wf(),
        s.tasks.len() > 0,
        !(s.step(reply).action is Finished),
    ensures
        ({
            let t = s.step(reply).machine;
            &&& extends(t.tasks, s.tasks.drop_last())
            &&& t.values.len() + balance(t.tasks) == s.values.len() + balance(s.tasks)
            &&& forall|i: int|
                0 <= i < s.scopes.len() - 1 ==> i < t.scopes.len() && (#[trigger] t.scopes[i]).dom()
                    == s.scopes[i].dom()
        }),
{
    let h = s.values.len() as int;
    let task = s.tasks.last();
    let rest = s.tasks.drop_last();
    let r = s.with_tasks(rest);
    let t = s.step(reply).machine;
    assert(s.tasks =~= rest.push(task));
    lemma_push_task(rest, task, h);
    assert(rest.take(rest.len() as int) =~= rest);
    assert(extends(rest, rest));
    lemma_extends_push(rest, rest, task);
    match task {
        TaskView::Execute(statement) => {
            lemma_execute_is_local(r, statement);
        },
        TaskView::Evaluate(expression) => {
            lemma_evaluate_is_local(r, expression);
        },
        TaskView::Store(name) => {
            lemma_resolve(s.scopes, name_of(name));
            let i = resolve(s.scopes, name_of(name))->Some_0;
            assert(s.scopes[i].insert(name_of(name), s.values.last()).dom() =~= s.scopes[i].dom());
        },
        TaskView::Prefix(operator) => {
            lemma_extends_push(rest, rest, TaskView::AcceptNumber(operator.line));
        },
        TaskView::Apply(operator) => {
            lemma_extends_push(rest, rest, TaskView::AcceptNumber(operator.line));
            lemma_extends_push(rest, rest, TaskView::AcceptTruth(operator.line, true));
            lemma_extends_push(rest, rest, TaskView::AcceptTruth(operator.line, false));
        },
        TaskView::Choose(operator, right) => {
            lemma_extends_push(rest, rest, TaskView::Evaluate(right));
        },
        TaskView::Branch(then_branch, else_branch) => {
            lemma_extends_push(rest, rest, TaskView::Execute(then_branch));
            if else_branch is Some {
                lemma_extends_push(rest, rest, TaskView::Execute(else_branch->Some_0));
            }
        },
        TaskView::Repeat(condition, body) => {
            let a = rest.push(TaskView::Repeat(condition, body));
            let b = a.push(TaskView::Evaluate(condition));
            lemma_extends_push(rest, rest, TaskView::Repeat(condition, body));
            lemma_extends_push(a, rest, TaskView::Evaluate(condition));
            lemma_extends_push(b, rest, TaskView::Execute(body));
        },
        _ => {},
    }
}

proof fn lemma_execute_is_local(r: Machine, statement: StatementView)
    requires
        r.scopes.len() >= 1,
    ensures
        ({
            let t = r.execute(statement).machine;
            &&& extends(t.tasks, r.tasks)
            &&& t.values.len() + balance(t.tasks) == r.values.len() + balance(r.tasks)
            &&& forall|i: int|
                0 <= i < r.scopes.len() - 1 ==> i < t.scopes.len() && (#[trigger] t.scopes[i]).dom()
                    == r.scopes[i].dom()
        }),
{
    let rest = r.tasks;
    assert(rest.take(rest.len() as int) =~= rest);
    match statement {
        StatementView::Expression(e) => {
            lemma_extends_push(rest, rest, TaskView::Discard);
            lemma_extends_push(rest.push(TaskView::Discard), rest, TaskView::Evaluate(e));
        },
        StatementView::Print(e) => {
            lemma_extends_push(rest, rest, TaskView::Emit);
            lemma_extends_push(rest.push(TaskView::Emit), rest, TaskView::Evaluate(e));
        },
        StatementView::Var { name, initializer } => {
            if initializer is Some {
                lemma_extends_push(rest, rest, TaskView::Define(name));
                lemma_extends_push(rest.push(TaskView::Define(name)), rest, TaskView::Evaluate(initializer->Some_0));
            }
        },
        StatementView::Block(statements) => {
            lemma_extends_push(rest, rest, TaskView::Leave);
            lemma_extends_scheduled(rest.push(TaskView::Leave), rest, statements);
        },
        StatementView::If { condition, then_branch, else_branch } => {
            let branch = TaskView::Branch(
                *then_branch,
                match else_branch {
                    Some(s) => Some(*s),
                    None => None,
                },
            );
            lemma_extends_push(rest, rest, branch);
            lemma_extends_push(rest.push(branch), rest, TaskView::Evaluate(condition));
        },
        StatementView::While { condition, body } => {
            lemma_extends_push(rest, rest, TaskView::Repeat(condition, *body));
            lemma_extends_push(rest.push(TaskView::Repeat(condition, *body)), rest, TaskView::Evaluate(condition));
        },
    }
}

proof fn lemma_evaluate_is_local(r: Machine, expression: ExpressionView)
    requires
        !(r.evaluate(expression).action is Finished),
    ensures
        ({
            let t = r.evaluate(expression).machine;
            &&& extends(t.tasks, r.tasks)
            &&& t.values.len() + balance(t.tasks) == r.values.len() + balance(r.tasks) + 1
            &&& t.scopes == r.scopes
        }),
{
    let rest = r.tasks;
    assert(rest.take(rest.len() as int) =~= rest);
    match expression {
        ExpressionView::Literal(value) => {
            lemma_extends_push(rest, rest, TaskView::AcceptNumber(0));
        },
        ExpressionView::Grouping(inner) => {
            lemma_extends_push(rest, rest, TaskView::Evaluate(*inner));
        },
        ExpressionView::Unary { operator, expression } => {
            lemma_extends_push(rest, rest, TaskView::Prefix(operator));
            lemma_extends_push(rest.push(TaskView::Prefix(operator)), rest, TaskView::Evaluate(*expression));
        },
        ExpressionView::Binary { left, operator, right } => {
            let a = rest.push(TaskView::Apply(operator));
            let b = a.push(TaskView::Evaluate(*right));
            lemma_extends_push(rest, rest, TaskView::Apply(operator));
            lemma_extends_push(a, rest, TaskView::Evaluate(*right));
            lemma_extends_push(b, rest, TaskView::Evaluate(*left));
        },
        ExpressionView::Logical { left, operator, right } => {
            lemma_extends_push(rest, rest, TaskView::Choose(operator, *right));
            lemma_extends_push(rest.push(TaskView::Choose(operator, *right)), rest, TaskView::Evaluate(*left));
        },
        ExpressionView::Variable(name) => {},
        ExpressionView::Assign { name, value } => {
            lemma_extends_push(rest, rest, TaskView::Store(name));
            lemma_extends_push(rest.push(TaskView::Store(name)), rest, TaskView::Evaluate(*value));
        },
    }
}

/// Whether `s` is a state in the run of a block that was started in the
/// state `m`: the task that closes the block's scope is still to do, with the
/// tasks of `m` beneath it; the scopes of `m` are there, each with the names
/// it had, beneath the block's own; and when all is done the stack will be as
/// high as it would have been without the block.
pub open spec fn inside_block(m: Machine, s: Machine) -> bool {
    &&& s.wf()
    &&& m.scopes.len() == 1 + open_scopes(m.tasks)
    &&& extends(s.tasks, m.tasks.push(TaskView::Leave))
    &&& s.scopes.len() >= m.scopes.len() + 1
    &&& same_names(s.scopes.take(m.scopes.len() as int), m.scopes)
    &&& s.values.len() + balance(s.tasks) == m.values.len() + balance(m.tasks)
}

/// The first step of a block leads inside it.
proof fn lemma_block_entered(m: Machine, statements: Seq<StatementView>, reply: ReplyView)
    requires
        m.task(TaskView::Execute(StatementView::Block(statements))).wf(),
    ensures
        inside_block(m, m.task(TaskView::Execute(StatementView::Block(statements))).step(reply).machine),
{
    let block = TaskView::Execute(StatementView::Block(statements));
    let start = m.task(block);
    let s = start.step(reply).machine;
    lemma_step_keeps_invariant(start, reply);
    lemma_push_task(m.tasks, block, m.values.len() as int);
    assert(start.tasks.drop_last() =~= m.tasks);
    let base = m.tasks.push(TaskView::Leave);
    assert(base.take(base.len() as int) =~= base);
    lemma_extends_scheduled(base, base, statements);
    lemma_extends_push(m.tasks, m.tasks.take(0), TaskView::Leave);
    assert(s.scopes.take(m.scopes.len() as int) =~= m.scopes);
}

/// A step inside a block that does not do the block's closing task stays
/// inside the block.
proof fn lemma_block_continued(m: Machine, s: Machine, reply: ReplyView)
    requires
        inside_block(m, s),
        s.tasks.len() > m.tasks.len() + 1,
        !(s.step(reply).action is Finished),
    ensures
        inside_block(m, s.step(reply).machine),
{
    let t = s.step(reply).machine;
    let k = m.tasks.len() as int;
    let d = m.scopes.len() as int;
    let base = m.tasks.push(TaskView::Leave);
    lemma_step_is_local(s, reply);
    lemma_step_keeps_invariant(s, reply);
    assert(t.tasks.take(k + 1) =~= base) by {
        assert(t.tasks.take(s.tasks.len() - 1) == s.tasks.drop_last());
        assert(t.tasks.take(k + 1) =~= t.tasks.take(s.tasks.len() - 1).take(k + 1));
        assert(s.tasks.drop_last().take(k + 1) =~= s.tasks.take(k + 1));
    }
    lemma_open_scopes_of_prefix(t.tasks, k + 1);
    lemma_push_task(m.tasks, TaskView::Leave, 0);
    assert forall|i: int| 0 <= i < d implies (#[trigger] t.scopes.take(d)[i]).dom() == m.scopes[i].dom() by {
        assert(t.scopes[i].dom() == s.scopes[i].dom());
        assert(s.scopes.take(d)[i].dom() == m.scopes[i].dom());
    }
}

/// The step that does the block's closing task leaves the tasks that were
/// there before the block, the scopes that were there with the names they
/// had, and a stack as high as before.
proof fn lemma_block_left(m: Machine, s: Machine, reply: ReplyView)
    requires
        inside_block(m, s),
        s.tasks.len() == m.tasks.len() + 1,
    ensures
        ({
            let t = s.step(reply);
            &&& t.action == ActionView::Continue
            &&& t.machine.tasks == m.tasks
            &&& same_names(t.machine.scopes, m.scopes)
            &&& t.machine.values.len() == m.values.len()
        }),
{
    let t = s.step(reply).machine;
    let d = m.scopes.len() as int;
    let base = m.tasks.push(TaskView::Leave);
    assert(s.tasks =~= base) by {
        assert(s.tasks.take(s.tasks.len() as int) =~= s.tasks);
    }
    assert(s.tasks.drop_last() =~= m.tasks);
    lemma_push_task(m.tasks, TaskView::Leave, 0);
    lemma_extends_push(m.tasks, m.tasks.take(0), TaskView::Leave);
    assert(s.scopes.drop_last() =~= s.scopes.take(d));
}

/// The state after `j` steps of a run that is inside a block up to its last
/// step.
proof fn lemma_block_running(m: Machine, statements: Seq<StatementView>, replies: Seq<ReplyView>, j: int)
    requires
        m.task(TaskView::Execute(StatementView::Block(statements))).wf(),
        unfinished(m.task(TaskView::Execute(StatementView::Block(statements))), replies),
        forall|i: int|
            1 <= i < replies.len() ==> (#[trigger] run(
                m.task(TaskView::Execute(StatementView::Block(statements))),
                replies.take(i),
            )).tasks.len() > m.tasks.len(),
        1 <= j < replies.len(),
    ensures
        inside_block(m, run(m.task(TaskView::Execute(StatementView::Block(statements))), replies.take(j))),
    decreases j,
{
    let start = m.task(TaskView::Execute(StatementView::Block(statements)));
    let now = replies.take(j);
    assert(now.drop_last() =~= replies.take(j - 1));
    assert(now.last() == replies[j - 1]);
    assert(!(last_action(start, replies.take(j)) is Finished));
    if j == 1 {
        assert(replies.take(0) =~= Seq::<ReplyView>::empty());
        lemma_block_entered(m, statements, replies[0]);
    } else {
        lemma_block_running(m, statements, replies, j - 1);
        let before = run(start, replies.take(j - 1));
        assert(run(start, replies.take(j)).tasks.len() > m.tasks.len());
        if before.tasks.len() == m.tasks.len() + 1 {
            lemma_block_left(m, before, replies[j - 1]);
        } else {
            lemma_block_continued(m, before, replies[j - 1]);
        }
    }
}

/// Block scope, for any block and any run of it: when a block has run to its
/// end without an error, the scopes are those that were there before it, and
/// each binds exactly the names that it bound before. What the block
/// declared is gone with the block's scope; what it assigned to variables of
/// the enclosing scopes has changed their values, not their names.
///
/// The run starts in a state whose next task is the block and takes one step
/// for each reply. That the block runs to its end in just these steps is said
/// by the tasks: after each step but the last, more is to do than before the
/// block, and after the last step as much. The tasks are then those from
/// before the block and the stack is as high as before. Where the block was
/// all there was to do, the next step finishes with `nil`.
pub proof fn lemma_block_restores_scopes(m: Machine, statements: Seq<StatementView>, replies: Seq<ReplyView>)
    requires
        m.task(TaskView::Execute(StatementView::Block(statements))).wf(),
        replies.len() >= 1,
        unfinished(m.task(TaskView::Execute(StatementView::Block(statements))), replies),
        forall|i: int|
            1 <= i < replies.len() ==> (#[trigger] run(
                m.task(TaskView::Execute(StatementView::Block(statements))),
                replies.take(i),
            )).tasks.len() > m.tasks.len(),
        run(m.task(TaskView::Execute(StatementView::Block(statements))), replies).tasks.len() == m.tasks.len(),
    ensures
        ({
            let end = run(m.task(TaskView::Execute(StatementView::Block(statements))), replies);
            &&& end.tasks == m.tasks
            &&& same_names(end.scopes, m.scopes)
            &&& end.values.len() == m.values.len()
            &&& forall|name: Seq<char>, i: int|
                0 <= i < m.scopes.len() ==> (#[trigger] end.scopes[i].contains_key(name)
                    <==> m.scopes[i].contains_key(name))
            &&& m.is_ready() && m.values.len() == 0 ==> forall|reply: ReplyView| #[trigger]
                end.step(reply).action == ActionView::Finished(Ok(ValueView::Nil))
        }),
{
    let start = m.task(TaskView::Execute(StatementView::Block(statements)));
    let n = replies.len() as int;
    let end = run(start, replies);
    assert(replies.take(n) =~= replies);
    assert(!(last_action(start, replies.take(n)) is Finished));
    if n == 1 {
        assert(replies.drop_last() =~= Seq::<ReplyView>::empty());
        lemma_block_entered(m, statements, replies[0]);
    } else {
        lemma_block_running(m, statements, replies, n - 1);
        let before = run(start, replies.take(n - 1));
        assert(replies.drop_last() =~= replies.take(n - 1));
        if before.tasks.len() == m.tasks.len() + 1 {
            lemma_block_left(m, before, replies.last());
        } else {
            lemma_block_continued(m, before, replies.last());
        }
        assert forall|name: Seq<char>, i: int| 0 <= i < m.scopes.len() implies (#[trigger] end.scopes[i].contains_key(
            name,
        ) <==> m.scopes[i].contains_key(name)) by {
            assert(end.scopes[i].dom() == m.scopes[i].dom());
        }
        if m.is_ready() && m.values.len() == 0 {
            assert(end.values =~= Seq::<ValueView>::empty());
        }
    }
}

} // verus!
