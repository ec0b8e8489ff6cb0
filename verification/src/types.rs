//! The intermediate representation of a stub and its mathematical model.

use vstd::prelude::*;

verus! {

/// How the bound of a `word(N)` or `string(N)` variable is given.
#[derive(Clone, Copy, Debug, PartialEq, Eq, Structural)]
pub enum LengthType {
    /// A decimal literal.
    Number,
    /// The name of another variable.
    Variable,
}

/// Whether a join term is emitted verbatim or names a variable.
#[derive(Clone, Copy, Debug, PartialEq, Eq, Structural)]
pub enum JoinTermType {
    Literal,
    Variable,
}

/// The kind of a variable.
#[derive(Clone, Copy, Debug, PartialEq, Eq, Structural)]
pub enum VarType {
    Int,
    Float,
    Long,
    Bool,
    Word,
    String,
}

/// One variable bound by a `read` or `loopline` statement.
#[derive(Debug, PartialEq, Eq)]
pub enum VariableCommand {
    Int { name: String },
    Float { name: String },
    Long { name: String },
    Bool { name: String },
    Word { name: String, max_length: String, length_type: LengthType },
    String { name: String, max_length: String, length_type: LengthType },
}

/// The model of a [`VariableCommand`].
pub ghost enum VariableModel {
    Int { name: Seq<char> },
    Float { name: Seq<char> },
    Long { name: Seq<char> },
    Bool { name: Seq<char> },
    Word { name: Seq<char>, max_length: Seq<char>, length_type: LengthType },
    String { name: Seq<char>, max_length: Seq<char>, length_type: LengthType },
}

impl VariableModel {
    /// The kind of the variable.
    pub open spec fn var_type(self) -> VarType {
        match self {
            VariableModel::Int { .. } => VarType::Int,
            VariableModel::Float { .. } => VarType::Float,
            VariableModel::Long { .. } => VarType::Long,
            VariableModel::Bool { .. } => VarType::Bool,
            VariableModel::Word { .. } => VarType::Word,
            VariableModel::String { .. } => VarType::String,
        }
    }

    /// The identifier that the variable carries.
    pub open spec fn name(self) -> Seq<char> {
        match self {
            VariableModel::Int { name } => name,
            VariableModel::Float { name } => name,
            VariableModel::Long { name } => name,
            VariableModel::Bool { name } => name,
            VariableModel::Word { name, .. } => name,
            VariableModel::String { name, .. } => name,
        }
    }
}

impl View for VariableCommand {
    type V = VariableModel;

    open spec fn view(&self) -> VariableModel {
        match self {
            VariableCommand::Int { name } => VariableModel::Int { name: name@ },
            VariableCommand::Float { name } => VariableModel::Float { name: name@ },
            VariableCommand::Long { name } => VariableModel::Long { name: name@ },
            VariableCommand::Bool { name } => VariableModel::Bool { name: name@ },
            VariableCommand::Word { name, max_length, length_type } => VariableModel::Word {
                name: name@,
                max_length: max_length@,
                length_type: *length_type,
            },
            VariableCommand::String { name, max_length, length_type } => VariableModel::String {
                name: name@,
                max_length: max_length@,
                length_type: *length_type,
            },
        }
    }
}

/// One term of a `join(...)` call.
#[derive(Debug, PartialEq, Eq)]
pub struct JoinTerm {
    pub name: String,
    pub term_type: JoinTermType,
}

/// The model of a [`JoinTerm`].
pub ghost struct JoinTermModel {
    pub name: Seq<char>,
    pub term_type: JoinTermType,
}

impl View for JoinTerm {
    type V = JoinTermModel;

    open spec fn view(&self) -> JoinTermModel {
        JoinTermModel { name: self.name@, term_type: self.term_type }
    }
}

/// A line of documentation for one input variable.
#[derive(Debug, PartialEq, Eq)]
pub struct InputComment {
    pub variable: String,
    pub description: String,
}

/// The model of an [`InputComment`].
pub ghost struct InputCommentModel {
    pub variable: Seq<char>,
    pub description: Seq<char>,
}

impl View for InputComment {
    type V = InputCommentModel;

    open spec fn view(&self) -> InputCommentModel {
        InputCommentModel { variable: self.variable@, description: self.description@ }
    }
}

/// A command of the intermediate representation. The parser makes reads,
/// writes, loops and looplines. The wrapper and the batch are made by the
/// lowering passes of this library; an external node is what a pass of the
/// user's own makes to add a kind of node, which its own template renders.
#[derive(Debug, PartialEq, Eq)]
pub enum Cmd {
    Read(Vec<VariableCommand>),
    Write { lines: Vec<String>, output_comment: Vec<String> },
    WriteJoin { join_terms: Vec<JoinTerm>, output_comment: Vec<String> },
    Loop { count_var: String, command: Box<Cmd> },
    LoopLine { count_var: String, variables: Vec<VariableCommand> },
    /// Declarations hoisted in front of the commands that use them.
    MainWrapper { forward_declarations: Vec<VariableCommand>, main_content: Vec<Cmd> },
    /// Reads that share one scope, and the commands that run inside it.
    ReadBatch { line_readers: Vec<Cmd>, nested_cmds: Vec<Cmd> },
    /// A node of a kind of its user's own: it names the template that
    /// renders it, and carries the bindings for that template, each a key
    /// and a JSON value as text, and the commands nested in it.
    External { template: String, bindings: Vec<(String, String)>, nested_cmds: Vec<Cmd> },
}

/// The model of a [`Cmd`].
pub ghost enum CmdModel {
    Read(Seq<VariableModel>),
    Write { lines: Seq<Seq<char>>, output_comment: Seq<Seq<char>> },
    WriteJoin { join_terms: Seq<JoinTermModel>, output_comment: Seq<Seq<char>> },
    Loop { count_var: Seq<char>, command: Box<CmdModel> },
    LoopLine { count_var: Seq<char>, variables: Seq<VariableModel> },
    MainWrapper { forward_declarations: Seq<VariableModel>, main_content: Seq<CmdModel> },
    ReadBatch { line_readers: Seq<CmdModel>, nested_cmds: Seq<CmdModel> },
    External {
        template: Seq<char>,
        bindings: Seq<(Seq<char>, Seq<char>)>,
        nested_cmds: Seq<CmdModel>,
    },
}

/// The models of a sequence of pairs of strings.
pub open spec fn pairs_view(v: Seq<(String, String)>) -> Seq<(Seq<char>, Seq<char>)> {
    Seq::new(v.len(), |i: int| (v[i].0@, v[i].1@))
}

/// The models of a sequence of strings.
pub open spec fn strings_view(v: Seq<String>) -> Seq<Seq<char>> {
    Seq::new(v.len(), |i: int| v[i]@)
}

/// The models of a sequence of variables.
pub open spec fn variables_view(v: Seq<VariableCommand>) -> Seq<VariableModel> {
    Seq::new(v.len(), |i: int| v[i]@)
}

/// The models of a sequence of join terms.
pub open spec fn join_terms_view(v: Seq<JoinTerm>) -> Seq<JoinTermModel> {
    Seq::new(v.len(), |i: int| v[i]@)
}

/// The models of a sequence of input comments.
pub open spec fn input_comments_view(v: Seq<InputComment>) -> Seq<InputCommentModel> {
    Seq::new(v.len(), |i: int| v[i]@)
}

/// The models of a sequence of commands.
pub open spec fn cmds_view(v: Seq<Cmd>) -> Seq<CmdModel>
    decreases v, 0nat,
{
    Seq::new(v.len(), |i: int| if 0 <= i < v.len() { cmd_view(v[i]) } else { arbitrary() })
}

/// The model of one command.
pub open spec fn cmd_view(c: Cmd) -> CmdModel
    decreases c, 1nat,
{
    match c {
        Cmd::Read(vars) => CmdModel::Read(variables_view(vars@)),
        Cmd::Write { lines, output_comment } => CmdModel::Write {
            lines: strings_view(lines@),
            output_comment: strings_view(output_comment@),
        },
        Cmd::WriteJoin { join_terms, output_comment } => CmdModel::WriteJoin {
            join_terms: join_terms_view(join_terms@),
            output_comment: strings_view(output_comment@),
        },
        Cmd::Loop { count_var, command } => CmdModel::Loop {
            count_var: count_var@,
            command: Box::new(cmd_view(*command)),
        },
        Cmd::LoopLine { count_var, variables } => CmdModel::LoopLine {
            count_var: count_var@,
            variables: variables_view(variables@),
        },
        Cmd::MainWrapper { forward_declarations, main_content } => CmdModel::MainWrapper {
            forward_declarations: variables_view(forward_declarations@),
            main_content: cmds_view(main_content@),
        },
        Cmd::ReadBatch { line_readers, nested_cmds } => CmdModel::ReadBatch {
            line_readers: cmds_view(line_readers@),
            nested_cmds: cmds_view(nested_cmds@),
        },
        Cmd::External { template, bindings, nested_cmds } => CmdModel::External {
            template: template@,
            bindings: pairs_view(bindings@),
            nested_cmds: cmds_view(nested_cmds@),
        },
    }
}

impl View for Cmd {
    type V = CmdModel;

    open spec fn view(&self) -> CmdModel {
        cmd_view(*self)
    }
}

/// A parsed stub: the statement, the input documentation and the commands.
#[derive(Debug, PartialEq, Eq)]
pub struct Stub {
    pub statement: String,
    pub input_comments: Vec<InputComment>,
    pub commands: Vec<Cmd>,
}

/// The model of a [`Stub`].
pub ghost struct StubModel {
    pub statement: Seq<char>,
    pub input_comments: Seq<InputCommentModel>,
    pub commands: Seq<CmdModel>,
}

impl View for Stub {
    type V = StubModel;

    open spec fn view(&self) -> StubModel {
        StubModel {
            statement: self.statement@,
            input_comments: input_comments_view(self.input_comments@),
            commands: cmds_view(self.commands@),
        }
    }
}

impl Stub {
    /// The stub without statement, comments or commands.
    pub fn new() -> (r: Self)
        ensures
            r.statement@ == Seq::<char>::empty(),
            r.input_comments@ == Seq::<InputComment>::empty(),
            r.commands@ == Seq::<Cmd>::empty(),
    {
        Stub { statement: String::new(), input_comments: Vec::new(), commands: Vec::new() }
    }
}

/// The models of a list of commands with one more at its end are the models
/// of the list with the model of that one at their end.
pub proof fn lemma_cmds_view_push(v: Seq<Cmd>, c: Cmd)
    ensures
        cmds_view(v.push(c)) == cmds_view(v).push(c@),
{
    assert(cmds_view(v.push(c)) =~= cmds_view(v).push(c@));
}

impl VariableCommand {
    /// The identifier that the variable carries.
    pub fn name(&self) -> (r: &String)
        ensures
            r@ == self@.name(),
    {
        match self {
            VariableCommand::Int { name } => name,
            VariableCommand::Float { name } => name,
            VariableCommand::Long { name } => name,
            VariableCommand::Bool { name } => name,
            VariableCommand::Word { name, .. } => name,
            VariableCommand::String { name, .. } => name,
        }
    }

    /// The kind of the variable.
    pub fn var_type(&self) -> (r: VarType)
        ensures
            r == self@.var_type(),
    {
        match self {
            VariableCommand::Int { .. } => VarType::Int,
            VariableCommand::Float { .. } => VarType::Float,
            VariableCommand::Long { .. } => VarType::Long,
            VariableCommand::Bool { .. } => VarType::Bool,
            VariableCommand::Word { .. } => VarType::Word,
            VariableCommand::String { .. } => VarType::String,
        }
    }

    /// A copy of the variable.
    pub fn duplicate(&self) -> (r: Self)
        ensures
            r@ == self@,
    {
        match self {
            VariableCommand::Int { name } => VariableCommand::Int { name: name.clone() },
            VariableCommand::Float { name } => VariableCommand::Float { name: name.clone() },
            VariableCommand::Long { name } => VariableCommand::Long { name: name.clone() },
            VariableCommand::Bool { name } => VariableCommand::Bool { name: name.clone() },
            VariableCommand::Word { name, max_length, length_type } => VariableCommand::Word {
                name: name.clone(),
                max_length: max_length.clone(),
                length_type: *length_type,
            },
            VariableCommand::String { name, max_length, length_type } => VariableCommand::String {
                name: name.clone(),
                max_length: max_length.clone(),
                length_type: *length_type,
            },
        }
    }
}

} // verus!
