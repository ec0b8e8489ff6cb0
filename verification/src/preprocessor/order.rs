//! What the lowering passes keep: the commands that run, and their order.

use vstd::prelude::*;
use crate::preprocessor::init_read_declarations::hoisted;
use crate::preprocessor::lisp_like::{
    batched, lemma_read_run_bound, read_run, scoped, scoped_loop,
};
use crate::types::{CmdModel, StubModel, VariableModel};

verus! {

/// The commands that run when `c` runs, in their order, with the wrappers
/// and batches of the lowering passes looked through. A command inside a
/// loop keeps the loop around it.
pub open spec fn unwrapped(c: CmdModel) -> Seq<CmdModel>
    decreases c, 0nat,
{
    match c {
        CmdModel::Loop { count_var, command } => Seq::new(
            unwrapped(*command).len(),
            |i: int|
                CmdModel::Loop { count_var, command: Box::new(unwrapped(*command)[i]) },
        ),
        CmdModel::MainWrapper { main_content, .. } => run_of(main_content, main_content.len()),
        CmdModel::ReadBatch { line_readers, nested_cmds } => run_of(
            line_readers,
            line_readers.len(),
        ) + run_of(nested_cmds, nested_cmds.len()),
        _ => seq![c],
    }
}

/// The commands that run when the first `n` of `cmds` run.
pub open spec fn run_of(cmds: Seq<CmdModel>, n: nat) -> Seq<CmdModel>
    decreases cmds, n,
{
    if n == 0 || n > cmds.len() {
        Seq::empty()
    } else {
        run_of(cmds, (n - 1) as nat) + unwrapped(cmds[n - 1])
    }
}

/// The commands that run when `cmds` run.
pub open spec fn executed(cmds: Seq<CmdModel>) -> Seq<CmdModel> {
    run_of(cmds, cmds.len())
}

/// The variables that the commands bind, in the order in which they are
/// bound.
pub open spec fn bound_variables(cmds: Seq<CmdModel>) -> Seq<VariableModel>
    decreases cmds.len(),
{
    if cmds.len() == 0 {
        Seq::empty()
    } else {
        bound_variables(cmds.drop_last()) + bound_by(cmds.last())
    }
}

/// The variables that one command binds, itself or inside its loops.
pub open spec fn bound_by(c: CmdModel) -> Seq<VariableModel>
    decreases c,
{
    match c {
        CmdModel::Read(vars) => vars,
        CmdModel::LoopLine { variables, .. } => variables,
        CmdModel::Loop { command, .. } => bound_by(*command),
        _ => Seq::empty(),
    }
}

/// What runs of the first `n` commands does not depend on the commands
/// after them.
pub proof fn lemma_run_of_prefix(a: Seq<CmdModel>, b: Seq<CmdModel>, n: nat)
    requires
        n <= a.len(),
    ensures
        run_of(a + b, n) == run_of(a, n),
    decreases n,
{
    if n > 0 {
        lemma_run_of_prefix(a, b, (n - 1) as nat);
        assert((a + b)[n - 1] == a[n - 1]);
    }
}

/// What runs of two lists of commands, one after the other, is what runs of
/// the first, then what runs of the second.
pub proof fn lemma_executed_concat(a: Seq<CmdModel>, b: Seq<CmdModel>)
    ensures
        executed(a + b) == executed(a) + executed(b),
    decreases b.len(),
{
    if b.len() == 0 {
        assert(a + b =~= a);
        assert(executed(a) + executed(b) =~= executed(a));
    } else {
        let front = b.drop_last();
        lemma_executed_concat(a, front);
        let n = (a + b).len();
        assert((a + b)[n - 1] == b.last());
        assert(a + b =~= (a + front) + seq![b.last()]);
        lemma_run_of_prefix(a + front, seq![b.last()], (a + front).len());
        lemma_run_of_prefix(front, seq![b.last()], front.len());
        assert(b =~= front + seq![b.last()]);
        assert(executed(a + b) == executed(a + front) + unwrapped(b.last()));
        assert(executed(b) == executed(front) + unwrapped(b.last()));
        assert(executed(a + b) =~= executed(a) + executed(b));
    }
}

/// What runs of a single command is what the command unwraps to.
pub proof fn lemma_executed_single(c: CmdModel)
    ensures
        executed(seq![c]) == unwrapped(c),
{
    assert(run_of(seq![c], 0) =~= Seq::<CmdModel>::empty());
    assert(executed(seq![c]) =~= unwrapped(c));
}

/// Scoping a command inside a loop changes nothing in what runs.
pub proof fn lemma_scoped_loop_runs_the_same(c: CmdModel)
    ensures
        unwrapped(scoped_loop(c)) == unwrapped(c),
        unwrapped(scoped(c)) == unwrapped(c),
    decreases c,
{
    match c {
        CmdModel::Loop { count_var, command } => {
            lemma_scoped_loop_runs_the_same(*command);
            assert(unwrapped(scoped_loop(c)) =~= unwrapped(c));
        },
        CmdModel::Read(_) => {
            lemma_executed_single(c);
            assert(executed(Seq::<CmdModel>::empty()) =~= Seq::<CmdModel>::empty());
            assert(unwrapped(scoped_loop(c)) =~= unwrapped(c));
        },
        _ => {},
    }
}

/// Batching neither drops nor reorders: what runs of the batched commands
/// is what runs of the commands as they were, in the same order.
pub proof fn lemma_batching_keeps_order(cmds: Seq<CmdModel>)
    ensures
        executed(batched(cmds)) == executed(cmds),
        bound_variables(executed(batched(cmds))) == bound_variables(executed(cmds)),
    decreases cmds.len(),
{
    if cmds.len() == 0 {
    } else if read_run(cmds) == 0 {
        let rest = cmds.drop_first();
        lemma_batching_keeps_order(rest);
        lemma_scoped_loop_runs_the_same(cmds[0]);
        lemma_executed_concat(seq![scoped(cmds[0])], batched(rest));
        lemma_executed_single(scoped(cmds[0]));
        lemma_executed_concat(seq![cmds[0]], rest);
        lemma_executed_single(cmds[0]);
        assert(cmds =~= seq![cmds[0]] + rest);
    } else {
        let r = read_run(cmds) as int;
        lemma_read_run_bound(cmds);
        lemma_batching_keeps_order(cmds.skip(r));
        let batch = CmdModel::ReadBatch {
            line_readers: cmds.take(r),
            nested_cmds: batched(cmds.skip(r)),
        };
        lemma_executed_single(batch);
        lemma_executed_concat(cmds.take(r), cmds.skip(r));
        assert(cmds =~= cmds.take(r) + cmds.skip(r));
    }
}

/// Hoisting neither drops nor reorders: what runs of the wrapped commands
/// is what runs of the commands as they were, in the same order.
pub proof fn lemma_hoisting_keeps_order(stub: StubModel)
    requires
        hoisted(stub) is Ok,
    ensures
        executed(hoisted(stub)->Ok_0.commands) == executed(stub.commands),
        bound_variables(executed(hoisted(stub)->Ok_0.commands)) == bound_variables(
            executed(stub.commands),
        ),
        hoisted(stub)->Ok_0.statement == stub.statement,
        hoisted(stub)->Ok_0.input_comments == stub.input_comments,
{
    lemma_executed_single(hoisted(stub)->Ok_0.commands[0]);
}

} // verus!
