//! Forward-declaration hoisting, for languages that declare every variable
//! before the code that uses it.

use vstd::prelude::*;
use crate::text::push_char;
use crate::types::{
    cmds_view, variables_view, Cmd, CmdModel, Stub, StubModel, VariableCommand, VariableModel,
};

verus! {

/// Why a lowering pass gave up.
#[derive(Clone, Copy, Debug, PartialEq, Eq, Structural)]
pub enum LoweringError {
    /// Loops nest deeper than there are index letters left to name them.
    NestingTooDeep,
}

/// The fixed sequence of loop-index letters, one per nesting level.
pub open spec fn index_letters() -> Seq<char> {
    seq!['i', 'j', 'k', 'l', 'm', 'n', 'o', 'p', 'q', 'r', 's', 't', 'u', 'v', 'w', 'x', 'y', 'z']
}

/// The number of loop-index letters, and so of nesting levels that can be
/// named.
pub const MAX_DEPTH: usize = 18;

/// The command that nested loops lead to.
pub open spec fn innermost(c: CmdModel) -> CmdModel
    decreases c,
{
    match c {
        CmdModel::Loop { command, .. } => innermost(*command),
        _ => c,
    }
}

/// The number of loops around the command that nested loops lead to.
pub open spec fn loop_depth(c: CmdModel) -> nat
    decreases c,
{
    match c {
        CmdModel::Loop { command, .. } => 1 + loop_depth(*command),
        _ => 0,
    }
}

/// The variables that a command reads, itself or inside its loops.
pub open spec fn read_variables(c: CmdModel) -> Seq<VariableModel> {
    match innermost(c) {
        CmdModel::Read(vars) => vars,
        _ => Seq::empty(),
    }
}

/// The variables that the commands read, in the order of the commands.
pub open spec fn all_read_variables(cmds: Seq<CmdModel>) -> Seq<VariableModel>
    decreases cmds.len(),
{
    if cmds.len() == 0 {
        Seq::empty()
    } else {
        all_read_variables(cmds.drop_last()) + read_variables(cmds.last())
    }
}

/// The deepest nesting of loops among the commands.
pub open spec fn max_depth(cmds: Seq<CmdModel>) -> nat
    decreases cmds.len(),
{
    if cmds.len() == 0 {
        0
    } else {
        let before = max_depth(cmds.drop_last());
        let last = loop_depth(cmds.last());
        if last > before {
            last
        } else {
            before
        }
    }
}

/// Whether one of the variables has the name.
pub open spec fn name_used(vars: Seq<VariableModel>, name: Seq<char>) -> bool {
    exists|i: int| 0 <= i < vars.len() && (#[trigger] vars[i]).name() == name
}

/// The letters among the first `k` index letters that name none of the
/// variables, in the order of the index letters.
pub open spec fn free_letters(vars: Seq<VariableModel>, k: nat) -> Seq<char>
    decreases k,
{
    if k == 0 || k > index_letters().len() {
        Seq::empty()
    } else {
        let before = free_letters(vars, (k - 1) as nat);
        let letter = index_letters()[k - 1];
        if name_used(vars, seq![letter]) {
            before
        } else {
            before.push(letter)
        }
    }
}

/// The index letters for `depth` levels of loops: the first `depth` index
/// letters that name none of the variables. `None` where fewer are left.
pub open spec fn index_names(vars: Seq<VariableModel>, depth: nat) -> Option<Seq<char>> {
    let free = free_letters(vars, index_letters().len());
    if depth <= free.len() {
        Some(free.take(depth as int))
    } else {
        None
    }
}

/// The integer variables with the given letters as names.
pub open spec fn index_variables(letters: Seq<char>) -> Seq<VariableModel> {
    Seq::new(letters.len(), |i: int| VariableModel::Int { name: seq![letters[i]] })
}

/// The stub with its commands wrapped: in front of them stand the
/// declarations of every variable that they read and of one index variable
/// for each level of loops.
pub open spec fn hoisted(stub: StubModel) -> Result<StubModel, LoweringError> {
    let vars = all_read_variables(stub.commands);
    match index_names(vars, max_depth(stub.commands)) {
        None => Err(LoweringError::NestingTooDeep),
        Some(letters) => Ok(
            StubModel {
                commands: seq![
                    CmdModel::MainWrapper {
                        forward_declarations: vars + index_variables(letters),
                        main_content: stub.commands,
                    },
                ],
                ..stub
            },
        ),
    }
}

/// Among the first `k` index letters at most `k` are free.
pub proof fn lemma_free_letters_len(vars: Seq<VariableModel>, k: nat)
    ensures
        free_letters(vars, k).len() <= k,
    decreases k,
{
    if 0 < k <= index_letters().len() {
        lemma_free_letters_len(vars, (k - 1) as nat);
    }
}

/// The loop-index letter of a nesting level.
pub fn index_letter(depth: usize) -> (c: char)
    requires
        depth < MAX_DEPTH,
    ensures
        c == index_letters()[depth as int],
{
    let letters: [char; 18] = [
        'i',
        'j',
        'k',
        'l',
        'm',
        'n',
        'o',
        'p',
        'q',
        'r',
        's',
        't',
        'u',
        'v',
        'w',
        'x',
        'y',
        'z',
    ];
    letters[depth]
}

/// A depth as it is counted: exactly up to the number of index letters, and
/// as one more than that beyond.
pub open spec fn capped(depth: int) -> int {
    if depth <= MAX_DEPTH {
        depth
    } else {
        MAX_DEPTH + 1
    }
}

/// The command that nested loops lead to, and the number of those loops
/// added to `nested_depth`, counted up to one more than the index letters
/// can name.
pub fn unpack_cmd(cmd: &Cmd, nested_depth: usize) -> (r: (&Cmd, usize))
    ensures
        r.0@ == innermost(cmd@),
        r.1 == capped(nested_depth + loop_depth(cmd@)),
    decreases cmd,
{
    let counted: usize = if nested_depth <= MAX_DEPTH {
        nested_depth
    } else {
        MAX_DEPTH + 1
    };
    match cmd {
        Cmd::Loop { count_var: _, command } => unpack_cmd(command, counted + 1),
        _ => (cmd, counted),
    }
}

/// Whether one of the variables has the letter as its name.
pub fn letter_used(vars: &Vec<VariableCommand>, letter: char) -> (b: bool)
    ensures
        b == name_used(variables_view(vars@), seq![letter]),
{
    let mut name: String = String::new();
    push_char(&mut name, letter);
    assert(name@ =~= seq![letter]);
    let mut i: usize = 0;
    while i < vars.len()
        invariant
            i <= vars@.len(),
            name@ == seq![letter],
            forall|j: int| 0 <= j < i ==> (#[trigger] variables_view(vars@)[j]).name() != name@,
        decreases vars@.len() - i,
    {
        assert(variables_view(vars@)[i as int] == vars@[i as int]@);
        if *vars[i].name() == name {
            return true;
        }
        i += 1;
    }
    false
}

/// The index letters, in their order, that name none of the variables.
pub fn unused_letters(vars: &Vec<VariableCommand>) -> (r: Vec<char>)
    ensures
        r@ == free_letters(variables_view(vars@), index_letters().len()),
{
    let mut r: Vec<char> = Vec::new();
    let mut k: usize = 0;
    while k < MAX_DEPTH
        invariant
            k <= MAX_DEPTH,
            r@ == free_letters(variables_view(vars@), k as nat),
        decreases MAX_DEPTH - k,
    {
        let letter = index_letter(k);
        if !letter_used(vars, letter) {
            r.push(letter);
        }
        k += 1;
    }
    r
}

/// Wraps the commands of the stub: in front of them stand the declarations
/// of every variable that they read, at any depth of loops, and of one
/// integer index variable for each level of loops, named by the first index
/// letters that name no variable read. Where loops nest deeper than there
/// are such letters, the stub stays as it is.
pub fn transform(stub: &mut Stub) -> (r: Result<(), LoweringError>)
    ensures
        match hoisted(old(stub)@) {
            Ok(lowered) => r is Ok && final(stub)@ == lowered,
            Err(e) => r == Err::<(), LoweringError>(e) && *final(stub) == *old(stub),
        },
{
    let ghost cmds = cmds_view(stub.commands@);
    let mut depth: usize = 0;
    let mut declarations: Vec<VariableCommand> = Vec::new();
    let mut i: usize = 0;
    assert(cmds.take(0) =~= Seq::<CmdModel>::empty());
    assert(variables_view(declarations@) =~= Seq::<VariableModel>::empty());
    while i < stub.commands.len()
        invariant
            *stub == *old(stub),
            cmds == cmds_view(stub.commands@),
            i <= stub.commands@.len(),
            variables_view(declarations@) == all_read_variables(cmds.take(i as int)),
            depth == capped(max_depth(cmds.take(i as int)) as int),
        decreases stub.commands@.len() - i,
    {
        let (inner, nested) = unpack_cmd(&stub.commands[i], 0);
        assert(cmds[i as int] == stub.commands@[i as int]@);
        assert(cmds.take(i + 1).drop_last() =~= cmds.take(i as int));
        assert(cmds.take(i + 1).last() == cmds[i as int]);
        if nested > depth {
            depth = nested;
        }
        match inner {
            Cmd::Read(vars) => {
                let ghost before = variables_view(declarations@);
                let mut j: usize = 0;
                while j < vars.len()
                    invariant
                        j <= vars@.len(),
                        variables_view(declarations@) == before + variables_view(vars@).take(
                            j as int,
                        ),
                    decreases vars@.len() - j,
                {
                    let ghost so_far = variables_view(declarations@);
                    declarations.push(vars[j].duplicate());
                    j += 1;
                    assert(variables_view(declarations@) =~= so_far.push(vars@[j - 1]@));
                    assert(variables_view(declarations@) =~= before + variables_view(vars@).take(
                        j as int,
                    ));
                }
                assert(variables_view(vars@).take(j as int) =~= variables_view(vars@));
            },
            _ => {
                assert(variables_view(declarations@) + read_variables(cmds[i as int])
                    =~= variables_view(declarations@));
            },
        }
        i += 1;
    }
    assert(cmds.take(i as int) =~= cmds);
    let mut letters = unused_letters(&declarations);
    proof {
        lemma_free_letters_len(variables_view(declarations@), index_letters().len());
    }
    if letters.len() < depth {
        return Err(LoweringError::NestingTooDeep);
    }
    let ghost free = letters@;
    letters.truncate(depth);
    assert(letters@ =~= free.take(depth as int));
    let ghost read = variables_view(declarations@);
    let mut k: usize = 0;
    while k < letters.len()
        invariant
            k <= letters@.len(),
            variables_view(declarations@) == read + index_variables(letters@.take(k as int)),
        decreases letters@.len() - k,
    {
        let ghost so_far = variables_view(declarations@);
        let mut name: String = String::new();
        push_char(&mut name, letters[k]);
        assert(name@ =~= seq![letters@[k as int]]);
        let var = VariableCommand::Int { name };
        declarations.push(var);
        k += 1;
        assert(variables_view(declarations@) =~= so_far.push(var@));
        assert(variables_view(declarations@) =~= read + index_variables(letters@.take(k as int)));
    }
    assert(letters@.take(k as int) =~= letters@);
    let mut main_content: Vec<Cmd> = Vec::new();
    core::mem::swap(&mut stub.commands, &mut main_content);
    let wrapper = Cmd::MainWrapper { forward_declarations: declarations, main_content };
    stub.commands.push(wrapper);
    assert(cmds_view(stub.commands@) =~= seq![wrapper@]);
    Ok(())
}

/// The free letters among the first `k` index letters begin the free
/// letters among the first `m`, for `k` up to `m`.
pub proof fn lemma_free_letters_prefix(vars: Seq<VariableModel>, k: nat, m: nat)
    requires
        k <= m <= index_letters().len(),
    ensures
        free_letters(vars, k).len() <= free_letters(vars, m).len(),
        free_letters(vars, m).take(free_letters(vars, k).len() as int) == free_letters(vars, k),
    decreases m - k,
{
    if k == m {
        assert(free_letters(vars, m).take(free_letters(vars, k).len() as int) =~= free_letters(
            vars,
            k,
        ));
    } else {
        lemma_free_letters_prefix(vars, k, (m - 1) as nat);
        let n = free_letters(vars, k).len() as int;
        assert(free_letters(vars, m).take(n) =~= free_letters(vars, (m - 1) as nat).take(n));
    }
}

/// Every free letter is an index letter that names none of the variables.
pub proof fn lemma_free_letters_are_unused(vars: Seq<VariableModel>, k: nat)
    requires
        k <= index_letters().len(),
    ensures
        forall|i: int|
            0 <= i < free_letters(vars, k).len() ==> !name_used(
                vars,
                seq![#[trigger] free_letters(vars, k)[i]],
            ) && index_letters().contains(free_letters(vars, k)[i]),
    decreases k,
{
    if k > 0 {
        lemma_free_letters_are_unused(vars, (k - 1) as nat);
        let before = free_letters(vars, (k - 1) as nat);
        let letter = index_letters()[k - 1];
        assert(index_letters().contains(letter));
        assert forall|i: int| 0 <= i < free_letters(vars, k).len() implies !name_used(
            vars,
            seq![#[trigger] free_letters(vars, k)[i]],
        ) && index_letters().contains(free_letters(vars, k)[i]) by {
            if i < before.len() {
                assert(free_letters(vars, k)[i] == before[i]);
            } else {
                assert(free_letters(vars, k)[i] == letter);
            }
        }
    }
}

/// Where none of the first `depth` index letters names a variable, all of
/// them are free.
pub proof fn lemma_free_letters_all(vars: Seq<VariableModel>, depth: nat)
    requires
        depth <= index_letters().len(),
        forall|k: int| 0 <= k < depth ==> !name_used(vars, seq![#[trigger] index_letters()[k]]),
    ensures
        free_letters(vars, depth) == index_letters().take(depth as int),
    decreases depth,
{
    if depth == 0 {
        assert(free_letters(vars, depth) =~= index_letters().take(depth as int));
    } else {
        lemma_free_letters_all(vars, (depth - 1) as nat);
        assert(free_letters(vars, depth) =~= index_letters().take(depth as int));
    }
}

/// Hoisting names the levels of loops by the first index letters, in their
/// order, where none of those letters names a variable that the stub reads:
/// for three levels by `i`, `j` and `k`.
pub proof fn lemma_index_names_when_unused(vars: Seq<VariableModel>, depth: nat)
    requires
        depth <= index_letters().len(),
        forall|k: int| 0 <= k < depth ==> !name_used(vars, seq![#[trigger] index_letters()[k]]),
    ensures
        index_names(vars, depth) == Some(index_letters().take(depth as int)),
{
    lemma_free_letters_all(vars, depth);
    lemma_free_letters_prefix(vars, depth, index_letters().len());
}

/// The index variables that hoisting adds never take the name of a variable
/// that the stub reads, there is exactly one for each level of loops, and
/// each is named by an index letter.
pub proof fn lemma_index_names_are_fresh(vars: Seq<VariableModel>, depth: nat)
    requires
        index_names(vars, depth) is Some,
    ensures
        index_names(vars, depth)->0.len() == depth,
        forall|i: int|
            0 <= i < depth ==> !name_used(vars, seq![#[trigger] index_names(vars, depth)->0[i]])
                && index_letters().contains(index_names(vars, depth)->0[i]),
{
    lemma_free_letters_are_unused(vars, index_letters().len());
}

/// Hoisting fails exactly where loops nest deeper than there are index
/// letters that name no variable read; it never fails for want of letters
/// while no loop is nested, and always beyond eighteen levels.
pub proof fn lemma_hoisting_limit(stub: StubModel)
    ensures
        max_depth(stub.commands) == 0 ==> hoisted(stub) is Ok,
        max_depth(stub.commands) > index_letters().len() ==> hoisted(stub) is Err,
{
    lemma_free_letters_len(all_read_variables(stub.commands), index_letters().len());
}

} // verus!
