//! Lexical-scope batching, for languages in which every binding form opens
//! a scope of its own: consecutive reads share one scope, and what follows
//! them runs inside it.

use vstd::prelude::*;
use crate::types::{cmds_view, Cmd, CmdModel, Stub, StubModel};

verus! {

/// A command inside a loop made fit for scoping: the read that nested loops
/// lead to becomes a batch of its own, with nothing nested in it. Any other
/// command stays as it is.
pub open spec fn scoped_loop(c: CmdModel) -> CmdModel
    decreases c,
{
    match c {
        CmdModel::Loop { count_var, command } => CmdModel::Loop {
            count_var,
            command: Box::new(scoped_loop(*command)),
        },
        CmdModel::Read(_) => CmdModel::ReadBatch {
            line_readers: seq![c],
            nested_cmds: Seq::empty(),
        },
        _ => c,
    }
}

/// A command that is no read, made fit for scoping.
pub open spec fn scoped(c: CmdModel) -> CmdModel {
    if c is Loop {
        scoped_loop(c)
    } else {
        c
    }
}

/// The number of reads with which the commands begin.
pub open spec fn read_run(cmds: Seq<CmdModel>) -> nat
    decreases cmds.len(),
{
    if cmds.len() > 0 && cmds[0] is Read {
        1 + read_run(cmds.drop_first())
    } else {
        0
    }
}

/// The reads with which the commands begin are among the commands.
pub proof fn lemma_read_run_bound(cmds: Seq<CmdModel>)
    ensures
        read_run(cmds) <= cmds.len(),
    decreases cmds.len(),
{
    if cmds.len() > 0 && cmds[0] is Read {
        lemma_read_run_bound(cmds.drop_first());
    }
}

/// The commands with their reads batched: each run of consecutive reads
/// becomes one batch that holds the reads, in their order, and, nested in
/// it, all the commands that follow, batched in turn. A command before the
/// first read of a run stays in front of the batch.
pub open spec fn batched(cmds: Seq<CmdModel>) -> Seq<CmdModel>
    decreases cmds.len(),
    via batched_decreases
{
    if cmds.len() == 0 {
        Seq::empty()
    } else if read_run(cmds) == 0 {
        seq![scoped(cmds[0])] + batched(cmds.drop_first())
    } else {
        seq![
            CmdModel::ReadBatch {
                line_readers: cmds.take(read_run(cmds) as int),
                nested_cmds: batched(cmds.skip(read_run(cmds) as int)),
            },
        ]
    }
}

#[via_fn]
proof fn batched_decreases(cmds: Seq<CmdModel>) {
    lemma_read_run_bound(cmds);
}

/// Commands that begin with `r` reads, followed by the end or by a command
/// that is no read, begin with a run of exactly `r` reads.
pub proof fn lemma_read_run_is(cmds: Seq<CmdModel>, r: nat)
    requires
        r <= cmds.len(),
        forall|j: int| 0 <= j < r ==> #[trigger] cmds[j] is Read,
        r < cmds.len() ==> !(cmds[r as int] is Read),
    ensures
        read_run(cmds) == r,
    decreases r,
{
    if r > 0 {
        let rest = cmds.drop_first();
        assert forall|j: int| 0 <= j < r - 1 implies #[trigger] rest[j] is Read by {
            assert(rest[j] == cmds[j + 1]);
        }
        lemma_read_run_is(rest, (r - 1) as nat);
    }
}

/// Makes a command inside a loop fit for scoping: the read that nested
/// loops lead to becomes a batch of its own.
pub fn transform_loop(cmd: Cmd) -> (r: Cmd)
    ensures
        r@ == scoped_loop(cmd@),
    decreases cmd,
{
    match cmd {
        Cmd::Loop { count_var, command } => Cmd::Loop {
            count_var,
            command: Box::new(transform_loop(*command)),
        },
        Cmd::Read(vars) => {
            let mut line_readers: Vec<Cmd> = Vec::new();
            let read = Cmd::Read(vars);
            line_readers.push(read);
            let nested_cmds: Vec<Cmd> = Vec::new();
            assert(cmds_view(line_readers@) =~= seq![read@]);
            assert(cmds_view(nested_cmds@) =~= Seq::<CmdModel>::empty());
            Cmd::ReadBatch { line_readers, nested_cmds }
        },
        other => other,
    }
}

/// Whether a command is a read.
pub fn is_read(cmd: &Cmd) -> (b: bool)
    ensures
        b == (cmd@ is Read),
{
    match cmd {
        Cmd::Read(_) => true,
        _ => false,
    }
}

/// Batches the reads of the stub: each run of consecutive reads becomes one
/// batch that holds the reads and, nested in it, all the commands that
/// follow. The reads that loops lead to become batches of their own. The
/// statement and the input comments stay as they are.
pub fn transform(stub: &mut Stub)
    ensures
        final(stub)@ == (StubModel { commands: batched(old(stub)@.commands), ..old(stub)@ }),
{
    let mut previous: Vec<Cmd> = Vec::new();
    core::mem::swap(&mut stub.commands, &mut previous);
    let ghost cmds = cmds_view(previous@);
    let ghost n = cmds.len() as int;
    let mut reads: Vec<Cmd> = Vec::new();
    let mut tail: Vec<Cmd> = Vec::new();
    assert(cmds.skip(n) =~= Seq::<CmdModel>::empty());
    assert(cmds_view(tail@) =~= batched(cmds.skip(n)));
    assert(cmds_view(reads@) =~= cmds.subrange(n, n));
    while previous.len() > 0
        invariant
            stub.statement == old(stub).statement,
            stub.input_comments == old(stub).input_comments,
            n == cmds.len(),
            previous@.len() + reads@.len() <= n,
            cmds_view(previous@) == cmds.take(previous@.len() as int),
            cmds_view(reads@) == cmds.subrange(
                previous@.len() as int,
                (previous@.len() + reads@.len()) as int,
            ),
            forall|j: int|
                previous@.len() <= j < previous@.len() + reads@.len() ==> #[trigger] cmds[j] is Read,
            previous@.len() + reads@.len() < n ==> !(cmds[(previous@.len() + reads@.len()) as int]
                is Read),
            cmds_view(tail@) == batched(cmds.skip((previous@.len() + reads@.len()) as int)),
        decreases previous@.len(),
    {
        let ghost i = previous@.len() as int;
        let ghost r = reads@.len() as int;
        let ghost before_reads = cmds_view(reads@);
        let ghost before_tail = cmds_view(tail@);
        let ghost before_previous = previous@;
        let cmd = previous.pop().unwrap();
        proof {
            assert(cmds_view(before_previous)[i - 1] == cmd@);
            assert(cmds[i - 1] == cmd@);
            assert(cmds_view(previous@) =~= cmds.take(i - 1));
        }
        if is_read(&cmd) {
            let ghost buffered = reads@;
            reads.insert(0, cmd);
            proof {
                assert(reads@ =~= seq![cmd] + buffered);
                assert(cmds_view(reads@) =~= seq![cmd@] + before_reads) by {
                    assert forall|j: int| 0 <= j < reads@.len() implies cmds_view(reads@)[j] == (
                    seq![cmd@] + before_reads)[j] by {
                        if j > 0 {
                            assert(reads@[j] == buffered[j - 1]);
                            assert(before_reads[j - 1] == buffered[j - 1]@);
                        }
                    }
                }
                assert(cmds_view(reads@) =~= cmds.subrange(i - 1, i + r));
            }
        } else {
            if reads.len() > 0 {
                proof {
                    let rest = cmds.skip(i);
                    lemma_read_run_is(rest, r as nat);
                    assert(rest.take(r) =~= before_reads);
                    assert(rest.skip(r) =~= cmds.skip(i + r));
                }
                let batch = Cmd::ReadBatch { line_readers: reads, nested_cmds: tail };
                reads = Vec::new();
                tail = Vec::new();
                tail.push(batch);
                assert(cmds_view(tail@) =~= seq![batch@]);
                assert(cmds_view(tail@) == batched(cmds.skip(i)));
            }
            let ghost flushed = cmds_view(tail@);
            let lowered = match cmd {
                Cmd::Loop { count_var, command } => transform_loop(Cmd::Loop { count_var, command }),
                other => other,
            };
            assert(lowered@ == scoped(cmds[i - 1]));
            let ghost kept = tail@;
            tail.insert(0, lowered);
            proof {
                assert(tail@ =~= seq![lowered] + kept);
                assert(cmds_view(tail@) =~= seq![lowered@] + flushed) by {
                    assert forall|j: int| 0 <= j < tail@.len() implies cmds_view(tail@)[j] == (
                    seq![lowered@] + flushed)[j] by {
                        if j > 0 {
                            assert(tail@[j] == kept[j - 1]);
                            assert(flushed[j - 1] == kept[j - 1]@);
                        }
                    }
                }
                let rest = cmds.skip(i - 1);
                assert(rest[0] == cmds[i - 1]);
                assert(rest.drop_first() =~= cmds.skip(i));
                assert(cmds_view(tail@) =~= seq![lowered@] + flushed);
                assert(cmds_view(reads@) =~= cmds.subrange(i - 1, i - 1));
            }
        }
    }
    if reads.len() > 0 {
        proof {
            let r = reads@.len();
            lemma_read_run_is(cmds, r);
            assert(cmds.take(r as int) =~= cmds_view(reads@));
        }
        let batch = Cmd::ReadBatch { line_readers: reads, nested_cmds: tail };
        tail = Vec::new();
        tail.push(batch);
        assert(cmds_view(tail@) =~= seq![batch@]);
    } else {
        assert(cmds.skip(0) =~= cmds);
    }
    stub.commands = tail;
}

} // verus!
