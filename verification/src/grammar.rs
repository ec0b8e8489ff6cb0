//! The grammar of stub generators, as functions from a list of tokens and a
//! position in it to what is parsed there and the position after it.

use vstd::prelude::*;
use vstd::string::*;
use crate::error::SyntaxErrorModel;
use crate::pattern::{regex_compiles, regex_group, regex_pieces};
use crate::text::{join_with, lines_of, occurs_in, trimmed_end};
use crate::tokenizer::{lemma_split_after, lemma_split_without, split_on};
use crate::types::{
    CmdModel, InputCommentModel, JoinTermModel, JoinTermType, LengthType, StubModel, VariableModel,
};

verus! {

/// What was parsed, and the position of the first token after it.
pub ghost struct Step<T> {
    pub value: T,
    pub next: int,
}

/// The token that ends a line.
pub open spec fn newline() -> Seq<char> {
    seq!['\n']
}

/// Whether a token is empty or ends a line.
pub open spec fn is_blank(token: Seq<char>) -> bool {
    token.len() == 0 || token == newline()
}

/// The position of the first line end at or after `p`, or the number of
/// tokens where there is none.
pub open spec fn line_end(t: Seq<Seq<char>>, p: int) -> int
    decreases t.len() - p,
{
    if p < 0 || p >= t.len() {
        p
    } else if t[p] == newline() {
        p
    } else {
        line_end(t, p + 1)
    }
}

/// The position after the first line end at or after `p`.
pub open spec fn after_line(t: Seq<Seq<char>>, p: int) -> int {
    let e = line_end(t, p);
    if 0 <= e < t.len() {
        e + 1
    } else {
        e
    }
}

/// The tokens from `p` to the end of its line, with single spaces between
/// them.
pub open spec fn line_text(t: Seq<Seq<char>>, p: int) -> Seq<char> {
    join_with(t.subrange(p, line_end(t, p)), seq![' '])
}

/// The position of the first token at or after `p` that is not blank.
pub open spec fn skip_blank(t: Seq<Seq<char>>, p: int) -> int
    decreases t.len() - p,
{
    if 0 <= p < t.len() && is_blank(t[p]) {
        skip_blank(t, p + 1)
    } else {
        p
    }
}

/// The items of the text block that starts at `p`: each token up to the
/// first blank line, with a line break in front of a token that starts a
/// new line.
pub open spec fn block_items(t: Seq<Seq<char>>, p: int) -> Step<Seq<Seq<char>>>
    decreases t.len() - p,
{
    if p < 0 || p >= t.len() {
        Step { value: Seq::empty(), next: p }
    } else if t[p] == newline() {
        if p + 1 >= t.len() {
            Step { value: Seq::empty(), next: p + 1 }
        } else if t[p + 1] == newline() {
            Step { value: Seq::empty(), next: p + 2 }
        } else {
            let rest = block_items(t, p + 2);
            Step { value: seq![newline() + t[p + 1]] + rest.value, next: rest.next }
        }
    } else {
        let rest = block_items(t, p + 1);
        Step { value: seq![t[p]] + rest.value, next: rest.next }
    }
}

/// The text block that starts at `p`: its items with single spaces between
/// them.
pub open spec fn block_text(t: Seq<Seq<char>>, p: int) -> Step<Seq<char>> {
    let items = block_items(t, p);
    Step { value: join_with(items.value, seq![' ']), next: items.next }
}

/// The text block that starts on the line after `p`.
pub open spec fn statement_text(t: Seq<Seq<char>>, p: int) -> Step<Seq<char>> {
    block_text(t, after_line(t, p))
}

/// The pattern of the type of a bounded variable.
pub open spec fn bounded_pattern() -> Seq<char> {
    "(word|string)\\((\\w+)\\)"@
}

/// The pattern of a `join` call and its arguments.
pub open spec fn join_pattern() -> Seq<char> {
    "join\\((.+)\\)"@
}

/// The pattern that separates the arguments of a `join` call.
pub open spec fn comma_pattern() -> Seq<char> {
    "\\s*,\\s*"@
}

/// The pattern of a quoted argument of a `join` call.
pub open spec fn quoted_pattern() -> Seq<char> {
    "^\"(.+)\"$"@
}

/// Whether a text is a decimal literal: one digit or more, and digits only.
pub open spec fn is_decimal(s: Seq<char>) -> bool {
    s.len() > 0 && forall|i: int| 0 <= i < s.len() ==> '0' <= #[trigger] s[i] <= '9'
}

/// How a bound is given: by a decimal literal or by a variable's name.
pub open spec fn length_type_of(bound: Seq<char>) -> LengthType {
    if is_decimal(bound) {
        LengthType::Number
    } else {
        LengthType::Variable
    }
}

/// The variable that a token declares, given its name, its type without
/// white space at the end, and what the pattern of bounded types found in the
/// type: the kind and the bound. A bounded variable has a bound that is not
/// empty.
pub open spec fn variable_of(
    token: Seq<char>,
    name: Seq<char>,
    var_type: Seq<char>,
    kind: Option<Seq<char>>,
    bound: Option<Seq<char>>,
) -> Result<VariableModel, SyntaxErrorModel> {
    if var_type == "int"@ {
        Ok(VariableModel::Int { name })
    } else if var_type == "float"@ {
        Ok(VariableModel::Float { name })
    } else if var_type == "long"@ {
        Ok(VariableModel::Long { name })
    } else if var_type == "bool"@ {
        Ok(VariableModel::Bool { name })
    } else if kind is Some && bound is Some && bound->0.len() > 0 && kind->0 == "word"@ {
        Ok(
            VariableModel::Word {
                name,
                max_length: bound->0,
                length_type: length_type_of(bound->0),
            },
        )
    } else if kind is Some && bound is Some && bound->0.len() > 0 && kind->0 == "string"@ {
        Ok(
            VariableModel::String {
                name,
                max_length: bound->0,
                length_type: length_type_of(bound->0),
            },
        )
    } else {
        Err(SyntaxErrorModel::UnknownType(token))
    }
}

/// Whether a type is one of the scalar types.
pub open spec fn is_scalar_type(var_type: Seq<char>) -> bool {
    var_type == "int"@ || var_type == "float"@ || var_type == "long"@ || var_type == "bool"@
}

/// The variable that a token of the form `name:type` declares. The type is
/// what stands between the first and the second colon, without the white
/// space at its end. A scalar type is known by its name; for any other type
/// the pattern of bounded types decides.
pub open spec fn parsed_variable(token: Seq<char>) -> Result<VariableModel, SyntaxErrorModel> {
    let parts = split_on(token, ':');
    if parts.len() < 2 {
        Err(SyntaxErrorModel::MissingType(token))
    } else if is_scalar_type(trimmed_end(parts[1])) {
        variable_of(token, parts[0], trimmed_end(parts[1]), None, None)
    } else if !regex_compiles(bounded_pattern()) {
        Err(SyntaxErrorModel::PatternRefused)
    } else {
        variable_of(
            token,
            parts[0],
            trimmed_end(parts[1]),
            regex_group(bounded_pattern(), parts[1], 1),
            regex_group(bounded_pattern(), parts[1], 2),
        )
    }
}

/// A name without a colon, a colon and a scalar type declare a variable of
/// that type with that name, whatever the pattern engine does: `a:int`
/// declares the integer `a`.
pub proof fn lemma_scalar_declarations(name: Seq<char>)
    requires
        !name.contains(':'),
    ensures
        parsed_variable(name + seq![':'] + "int"@) == Ok::<VariableModel, SyntaxErrorModel>(
            VariableModel::Int { name },
        ),
        parsed_variable(name + seq![':'] + "float"@) == Ok::<VariableModel, SyntaxErrorModel>(
            VariableModel::Float { name },
        ),
        parsed_variable(name + seq![':'] + "long"@) == Ok::<VariableModel, SyntaxErrorModel>(
            VariableModel::Long { name },
        ),
        parsed_variable(name + seq![':'] + "bool"@) == Ok::<VariableModel, SyntaxErrorModel>(
            VariableModel::Bool { name },
        ),
{
    reveal_strlit("int");
    reveal_strlit("float");
    reveal_strlit("long");
    reveal_strlit("bool");
    lemma_split_without(name, ':');
    lemma_scalar_declaration(name, "int"@);
    lemma_scalar_declaration(name, "float"@);
    lemma_scalar_declaration(name, "long"@);
    lemma_scalar_declaration(name, "bool"@);
}

/// A name without a colon, a colon and a type without colon or white space
/// are cut into the name and the type as it is.
proof fn lemma_scalar_declaration(name: Seq<char>, var_type: Seq<char>)
    requires
        !name.contains(':'),
        var_type.len() > 0,
        forall|i: int|
            0 <= i < var_type.len() ==> #[trigger] var_type[i] != ':' && !crate::text::is_space(
                var_type[i],
            ),
    ensures
        split_on(name + seq![':'] + var_type, ':') == seq![name, var_type],
        trimmed_end(var_type) == var_type,
{
    assert(!var_type.contains(':'));
    lemma_split_without(name, ':');
    lemma_split_after(name, var_type, ':');
    assert(seq![name].push(var_type) =~= seq![name, var_type]);
}

/// The variables declared from `p` to the end of the line.
pub open spec fn variable_list(t: Seq<Seq<char>>, p: int) -> Result<
    Step<Seq<VariableModel>>,
    SyntaxErrorModel,
>
    decreases t.len() - p,
{
    if p < 0 || p >= t.len() {
        Ok(Step { value: Seq::empty(), next: p })
    } else if t[p] == newline() {
        Ok(Step { value: Seq::empty(), next: p + 1 })
    } else {
        match parsed_variable(t[p]) {
            Err(e) => Err(e),
            Ok(v) => match variable_list(t, p + 1) {
                Err(e) => Err(e),
                Ok(rest) => Ok(Step { value: seq![v] + rest.value, next: rest.next }),
            },
        }
    }
}

/// Whether a token opens a `join` call.
pub open spec fn opens_join(token: Seq<char>) -> bool {
    occurs_in(token, "join("@)
}

/// The position of the token that opens a `join` call in the text block
/// that starts at `p`, if one does.
pub open spec fn join_start(t: Seq<Seq<char>>, p: int) -> Option<int>
    decreases t.len() - p,
{
    if p < 0 || p >= t.len() {
        None
    } else if t[p] == newline() {
        if p + 1 >= t.len() || t[p + 1] == newline() {
            None
        } else if opens_join(t[p + 1]) {
            Some(p + 1)
        } else {
            join_start(t, p + 2)
        }
    } else if opens_join(t[p]) {
        Some(p)
    } else {
        join_start(t, p + 1)
    }
}

/// The text of the `join` call that the token at `p` opens: the tokens from
/// there to the first that holds `)`, put together with nothing between
/// them. `None` where no token closes the call.
pub open spec fn join_text(t: Seq<Seq<char>>, p: int) -> Option<Step<Seq<char>>>
    decreases t.len() - p,
{
    if p < 0 || p >= t.len() {
        None
    } else if t[p].contains(')') {
        Some(Step { value: t[p], next: p + 1 })
    } else {
        match join_text(t, p + 1) {
            None => None,
            Some(rest) => Some(Step { value: t[p] + rest.value, next: rest.next }),
        }
    }
}

/// The term that one argument of a `join` call stands for, given what the
/// pattern of quoted arguments found in it: the text between the quotes as
/// a literal, or the argument itself as a variable.
pub open spec fn join_term_of(piece: Seq<char>, quoted: Option<Seq<char>>) -> JoinTermModel {
    match quoted {
        Some(inner) => JoinTermModel { name: inner, term_type: JoinTermType::Literal },
        None => JoinTermModel { name: piece, term_type: JoinTermType::Variable },
    }
}

/// The terms of the arguments of a `join` call.
pub open spec fn terms_of_pieces(pieces: Seq<Seq<char>>) -> Result<
    Seq<JoinTermModel>,
    SyntaxErrorModel,
> {
    if pieces.len() > 0 && !regex_compiles(quoted_pattern()) {
        Err(SyntaxErrorModel::PatternRefused)
    } else {
        Ok(pieces.map_values(|piece: Seq<char>| join_term_of(piece, regex_group(quoted_pattern(), piece, 1))))
    }
}

/// The terms of a `join` call, from its text.
pub open spec fn join_terms(raw: Seq<char>) -> Result<Seq<JoinTermModel>, SyntaxErrorModel> {
    if !regex_compiles(join_pattern()) {
        Err(SyntaxErrorModel::PatternRefused)
    } else {
        match regex_group(join_pattern(), raw, 1) {
            None => Err(SyntaxErrorModel::MalformedJoin(raw)),
            Some(arguments) => if !regex_compiles(comma_pattern()) {
                Err(SyntaxErrorModel::PatternRefused)
            } else {
                terms_of_pieces(regex_pieces(comma_pattern(), arguments))
            },
        }
    }
}

/// The command that the tokens after `read` make.
pub open spec fn read_cmd(t: Seq<Seq<char>>, p: int) -> Result<Step<CmdModel>, SyntaxErrorModel> {
    match variable_list(t, p) {
        Err(e) => Err(e),
        Ok(vars) => Ok(Step { value: CmdModel::Read(vars.value), next: vars.next }),
    }
}

/// The command that the `join` call opened by the token at `j` makes; what
/// follows the call on its line is passed over.
pub open spec fn write_join_cmd(t: Seq<Seq<char>>, j: int) -> Result<
    Step<CmdModel>,
    SyntaxErrorModel,
> {
    match join_text(t, j) {
        None => Err(SyntaxErrorModel::UnclosedJoin),
        Some(raw) => match join_terms(raw.value) {
            Err(e) => Err(e),
            Ok(terms) => Ok(
                Step {
                    value: CmdModel::WriteJoin { join_terms: terms, output_comment: Seq::empty() },
                    next: after_line(t, raw.next),
                },
            ),
        },
    }
}

/// The command that the tokens after `write` make: a `join` call where a
/// token of the text block opens one, else the lines of the block.
pub open spec fn write_cmd(t: Seq<Seq<char>>, p: int) -> Result<Step<CmdModel>, SyntaxErrorModel> {
    match join_start(t, p) {
        Some(j) => write_join_cmd(t, j),
        None => {
            let block = block_text(t, p);
            Ok(
                Step {
                    value: CmdModel::Write {
                        lines: lines_of(block.value),
                        output_comment: Seq::empty(),
                    },
                    next: block.next,
                },
            )
        },
    }
}

/// The command that the tokens after `loopline` make.
pub open spec fn loopline_cmd(t: Seq<Seq<char>>, p: int) -> Result<
    Step<CmdModel>,
    SyntaxErrorModel,
> {
    if p < 0 || p >= t.len() || is_blank(t[p]) {
        Err(SyntaxErrorModel::MissingLooplineCount)
    } else {
        match variable_list(t, skip_blank(t, p + 1)) {
            Err(e) => Err(e),
            Ok(vars) => Ok(
                Step {
                    value: CmdModel::LoopLine { count_var: t[p], variables: vars.value },
                    next: vars.next,
                },
            ),
        }
    }
}

/// The position of the first token after a text of blank tokens is not
/// before the text.
pub proof fn lemma_skip_blank_bounds(t: Seq<Seq<char>>, p: int)
    requires
        0 <= p <= t.len(),
    ensures
        p <= skip_blank(t, p) <= t.len(),
        skip_blank(t, p) < t.len() ==> !is_blank(t[skip_blank(t, p)]),
        forall|i: int| p <= i < skip_blank(t, p) ==> is_blank(#[trigger] t[i]),
    decreases t.len() - p,
{
    if p < t.len() && is_blank(t[p]) {
        lemma_skip_blank_bounds(t, p + 1);
    }
}

/// The command that the tokens after `loop` make: the count identifier, then
/// exactly one nested statement.
pub open spec fn loop_cmd(t: Seq<Seq<char>>, p: int) -> Result<Step<CmdModel>, SyntaxErrorModel>
    decreases t.len() - p,
    via loop_cmd_decreases
{
    if p < 0 || p >= t.len() || is_blank(t[p]) {
        Err(SyntaxErrorModel::MissingLoopCount)
    } else {
        match loopable_cmd(t, skip_blank(t, p + 1)) {
            Err(e) => Err(e),
            Ok(body) => Ok(
                Step {
                    value: CmdModel::Loop { count_var: t[p], command: Box::new(body.value) },
                    next: body.next,
                },
            ),
        }
    }
}

/// The statement nested in a loop, whose keyword is the token at `q`.
pub open spec fn loopable_cmd(t: Seq<Seq<char>>, q: int) -> Result<
    Step<CmdModel>,
    SyntaxErrorModel,
>
    decreases t.len() - q,
{
    if q < 0 || q >= t.len() {
        Err(SyntaxErrorModel::MissingLoopCommand)
    } else if t[q] == "read"@ {
        read_cmd(t, q + 1)
    } else if t[q] == "write"@ {
        write_cmd(t, q + 1)
    } else if t[q] == "loopline"@ {
        loopline_cmd(t, q + 1)
    } else if t[q] == "loop"@ {
        loop_cmd(t, q + 1)
    } else {
        Err(SyntaxErrorModel::UnexpectedLoopCommand(t[q]))
    }
}

#[via_fn]
proof fn loop_cmd_decreases(t: Seq<Seq<char>>, p: int) {
    if 0 <= p < t.len() {
        lemma_skip_blank_bounds(t, p + 1);
    }
}

/// A line ends at or after the position where the search for its end
/// starts, and within the tokens.
pub proof fn lemma_line_end_bounds(t: Seq<Seq<char>>, p: int)
    requires
        0 <= p <= t.len(),
    ensures
        p <= line_end(t, p) <= t.len(),
        p <= after_line(t, p) <= t.len(),
        line_end(t, p) < t.len() ==> t[line_end(t, p)] == newline(),
        forall|i: int| p <= i < line_end(t, p) ==> #[trigger] t[i] != newline(),
    decreases t.len() - p,
{
    if p < t.len() && t[p] != newline() {
        lemma_line_end_bounds(t, p + 1);
    }
}

/// A text block ends at or after its start, and within the tokens.
pub proof fn lemma_block_bounds(t: Seq<Seq<char>>, p: int)
    requires
        0 <= p <= t.len(),
    ensures
        p <= block_items(t, p).next <= t.len(),
        p <= block_text(t, p).next <= t.len(),
    decreases t.len() - p,
{
    if p < t.len() {
        if t[p] == newline() {
            if p + 1 < t.len() && t[p + 1] != newline() {
                lemma_block_bounds(t, p + 2);
            }
        } else {
            lemma_block_bounds(t, p + 1);
        }
    }
}

/// The text block of a statement ends after the statement's first line.
pub proof fn lemma_statement_bounds(t: Seq<Seq<char>>, p: int)
    requires
        0 <= p <= t.len(),
    ensures
        p <= statement_text(t, p).next <= t.len(),
{
    lemma_line_end_bounds(t, p);
    lemma_block_bounds(t, after_line(t, p));
}

/// A variable list ends at or after its start, and within the tokens.
pub proof fn lemma_variable_list_bounds(t: Seq<Seq<char>>, p: int)
    requires
        0 <= p <= t.len(),
    ensures
        variable_list(t, p) is Ok ==> p <= variable_list(t, p)->Ok_0.next <= t.len(),
    decreases t.len() - p,
{
    if p < t.len() && t[p] != newline() {
        lemma_variable_list_bounds(t, p + 1);
    }
}

/// A `join` call is opened within the text block in which it is looked for.
pub proof fn lemma_join_start_bounds(t: Seq<Seq<char>>, p: int)
    requires
        0 <= p <= t.len(),
    ensures
        join_start(t, p) is Some ==> p <= join_start(t, p)->0 < t.len(),
    decreases t.len() - p,
{
    if p < t.len() {
        if t[p] == newline() {
            if p + 1 < t.len() && t[p + 1] != newline() && !opens_join(t[p + 1]) {
                lemma_join_start_bounds(t, p + 2);
            }
        } else if !opens_join(t[p]) {
            lemma_join_start_bounds(t, p + 1);
        }
    }
}

/// The text of a `join` call ends after the token that opens it, and within
/// the tokens.
pub proof fn lemma_join_text_bounds(t: Seq<Seq<char>>, p: int)
    requires
        0 <= p <= t.len(),
    ensures
        join_text(t, p) is Some ==> p < join_text(t, p)->0.next <= t.len(),
    decreases t.len() - p,
{
    if p < t.len() && !t[p].contains(')') {
        lemma_join_text_bounds(t, p + 1);
    }
}

/// What follows `write` ends at or after its start, and within the tokens.
pub proof fn lemma_write_cmd_bounds(t: Seq<Seq<char>>, p: int)
    requires
        0 <= p <= t.len(),
    ensures
        write_cmd(t, p) is Ok ==> p <= write_cmd(t, p)->Ok_0.next <= t.len(),
{
    lemma_join_start_bounds(t, p);
    lemma_block_bounds(t, p);
    if join_start(t, p) is Some {
        let j = join_start(t, p)->0;
        lemma_join_text_bounds(t, j);
        if join_text(t, j) is Some {
            lemma_line_end_bounds(t, join_text(t, j)->0.next);
        }
    }
}

/// What follows `loopline` ends at or after its start, and within the
/// tokens.
pub proof fn lemma_loopline_cmd_bounds(t: Seq<Seq<char>>, p: int)
    requires
        0 <= p <= t.len(),
    ensures
        loopline_cmd(t, p) is Ok ==> p < loopline_cmd(t, p)->Ok_0.next <= t.len(),
{
    if p < t.len() {
        lemma_skip_blank_bounds(t, p + 1);
        lemma_variable_list_bounds(t, skip_blank(t, p + 1));
    }
}

/// What follows `loop` ends after its start, and within the tokens; so does
/// a statement nested in a loop.
pub proof fn lemma_loop_cmd_bounds(t: Seq<Seq<char>>, p: int)
    requires
        0 <= p <= t.len(),
    ensures
        loop_cmd(t, p) is Ok ==> p < loop_cmd(t, p)->Ok_0.next <= t.len(),
        loopable_cmd(t, p) is Ok ==> p < loopable_cmd(t, p)->Ok_0.next <= t.len(),
    decreases t.len() - p,
{
    if p < t.len() {
        lemma_variable_list_bounds(t, p + 1);
        lemma_write_cmd_bounds(t, p + 1);
        lemma_loopline_cmd_bounds(t, p + 1);
        lemma_loop_cmd_bounds(t, p + 1);
        lemma_skip_blank_bounds(t, p + 1);
        let q = skip_blank(t, p + 1);
        if q > p + 1 {
            lemma_loop_cmd_bounds(t, q);
        } else if q < t.len() {
            lemma_variable_list_bounds(t, q + 1);
            lemma_write_cmd_bounds(t, q + 1);
            lemma_loopline_cmd_bounds(t, q + 1);
            lemma_loop_cmd_bounds(t, q + 1);
        }
    }
}

/// Whether a token names a variable in an input block: it ends in `:`.
pub open spec fn names_variable(token: Seq<char>) -> bool {
    token.len() > 0 && token.last() == ':'
}

/// The comments of an input block from `p` on: one for each line whose
/// first token names a variable, up to the first blank line.
pub open spec fn input_comments(t: Seq<Seq<char>>, p: int) -> Step<Seq<InputCommentModel>>
    decreases t.len() - p,
    via input_comments_decreases
{
    if p < 0 || p >= t.len() {
        Step { value: Seq::empty(), next: p }
    } else if t[p] == newline() {
        Step { value: Seq::empty(), next: p + 1 }
    } else {
        let rest = input_comments(t, after_line(t, p + 1));
        if names_variable(t[p]) {
            Step {
                value: seq![
                    InputCommentModel {
                        variable: t[p].drop_last(),
                        description: line_text(t, p + 1),
                    },
                ] + rest.value,
                next: rest.next,
            }
        } else {
            rest
        }
    }
}

#[via_fn]
proof fn input_comments_decreases(t: Seq<Seq<char>>, p: int) {
    if 0 <= p < t.len() {
        lemma_line_end_bounds(t, p + 1);
    }
}

/// The comments of the input block whose keyword stands before `p`.
pub open spec fn input_block(t: Seq<Seq<char>>, p: int) -> Step<Seq<InputCommentModel>> {
    input_comments(t, after_line(t, p))
}

/// The comments of an input block end at or after their start, and within
/// the tokens.
pub proof fn lemma_input_comments_bounds(t: Seq<Seq<char>>, p: int)
    requires
        0 <= p <= t.len(),
    ensures
        p <= input_comments(t, p).next <= t.len(),
    decreases t.len() - p,
{
    if p < t.len() && t[p] != newline() {
        lemma_line_end_bounds(t, p + 1);
        lemma_input_comments_bounds(t, after_line(t, p + 1));
    }
}

/// An input block ends at or after its start, and within the tokens.
pub proof fn lemma_input_block_bounds(t: Seq<Seq<char>>, p: int)
    requires
        0 <= p <= t.len(),
    ensures
        p <= input_block(t, p).next <= t.len(),
{
    lemma_line_end_bounds(t, p);
    lemma_input_comments_bounds(t, after_line(t, p));
}

/// A command with the output text attached to every `write` in it that has
/// none yet: the command itself, or the one that nested loops lead to.
pub open spec fn patched_cmd(c: CmdModel, text: Seq<Seq<char>>) -> CmdModel
    decreases c,
{
    match c {
        CmdModel::Write { lines, output_comment } => if output_comment.len() == 0 {
            CmdModel::Write { lines, output_comment: text }
        } else {
            c
        },
        CmdModel::Loop { count_var, command } => CmdModel::Loop {
            count_var,
            command: Box::new(patched_cmd(*command, text)),
        },
        _ => c,
    }
}

/// The commands, in their order, each with the output text attached.
pub open spec fn patched(cmds: Seq<CmdModel>, text: Seq<Seq<char>>) -> Seq<CmdModel> {
    Seq::new(cmds.len(), |i: int| patched_cmd(cmds[i], text))
}

/// Whether the command is, or nested loops lead to, a `write` without output
/// text.
pub open spec fn awaits_output(c: CmdModel) -> bool
    decreases c,
{
    match c {
        CmdModel::Write { output_comment, .. } => output_comment.len() == 0,
        CmdModel::Loop { command, .. } => awaits_output(*command),
        _ => false,
    }
}

/// Output text reaches exactly the commands that await it: a command that
/// awaits none stays as it is, and after an output text that is not empty
/// no command awaits one any more.
pub proof fn lemma_patch_reaches_waiting_writes(c: CmdModel, text: Seq<Seq<char>>)
    ensures
        !awaits_output(c) ==> patched_cmd(c, text) == c,
        text.len() > 0 ==> !awaits_output(patched_cmd(c, text)),
    decreases c,
{
    match c {
        CmdModel::Loop { count_var, command } => {
            lemma_patch_reaches_waiting_writes(*command, text);
        },
        _ => {},
    }
}

/// The first output text wins: once a command has been given an output text
/// that is not empty, a later output text changes nothing in it.
pub proof fn lemma_patch_first_wins(c: CmdModel, first: Seq<Seq<char>>, second: Seq<Seq<char>>)
    requires
        first.len() > 0,
    ensures
        patched_cmd(patched_cmd(c, first), second) == patched_cmd(c, first),
{
    lemma_patch_reaches_waiting_writes(c, first);
    lemma_patch_reaches_waiting_writes(patched_cmd(c, first), second);
}

/// Attaching an output text keeps the commands in their places: as many as
/// before, each the patched form of the one that stood there, so that all
/// the commands that await output receive the same text.
pub proof fn lemma_patch_keeps_order(cmds: Seq<CmdModel>, text: Seq<Seq<char>>)
    ensures
        patched(cmds, text).len() == cmds.len(),
        forall|i: int|
            0 <= i < cmds.len() ==> #[trigger] patched(cmds, text)[i] == patched_cmd(cmds[i], text),
        text.len() > 0 ==> patched(patched(cmds, text), text) == patched(cmds, text),
{
    if text.len() > 0 {
        assert forall|i: int| 0 <= i < cmds.len() implies patched_cmd(
            #[trigger] patched(cmds, text)[i],
            text,
        ) == patched(cmds, text)[i] by {
            lemma_patch_first_wins(cmds[i], text, text);
        }
        assert(patched(patched(cmds, text), text) =~= patched(cmds, text));
    }
}

/// The stub with one more command at its end.
pub open spec fn with_command(stub: StubModel, c: CmdModel) -> StubModel {
    StubModel { commands: stub.commands.push(c), ..stub }
}

/// The stub that the tokens from `p` on make of the stub parsed so far.
pub open spec fn parse_from(t: Seq<Seq<char>>, p: int, stub: StubModel) -> Result<
    StubModel,
    SyntaxErrorModel,
>
    decreases t.len() - p,
    via parse_from_decreases
{
    if p < 0 || p >= t.len() {
        Ok(stub)
    } else if t[p] == "read"@ {
        match read_cmd(t, p + 1) {
            Err(e) => Err(e),
            Ok(c) => parse_from(t, c.next, with_command(stub, c.value)),
        }
    } else if t[p] == "write"@ {
        match write_cmd(t, p + 1) {
            Err(e) => Err(e),
            Ok(c) => parse_from(t, c.next, with_command(stub, c.value)),
        }
    } else if t[p] == "loop"@ {
        match loop_cmd(t, p + 1) {
            Err(e) => Err(e),
            Ok(c) => parse_from(t, c.next, with_command(stub, c.value)),
        }
    } else if t[p] == "loopline"@ {
        match loopline_cmd(t, p + 1) {
            Err(e) => Err(e),
            Ok(c) => parse_from(t, c.next, with_command(stub, c.value)),
        }
    } else if t[p] == "OUTPUT"@ {
        let text = statement_text(t, p + 1);
        parse_from(
            t,
            text.next,
            StubModel { commands: patched(stub.commands, lines_of(text.value)), ..stub },
        )
    } else if t[p] == "INPUT"@ {
        let comments = input_block(t, p + 1);
        parse_from(
            t,
            comments.next,
            StubModel { input_comments: stub.input_comments + comments.value, ..stub },
        )
    } else if t[p] == "STATEMENT"@ {
        let text = statement_text(t, p + 1);
        parse_from(t, text.next, StubModel { statement: text.value, ..stub })
    } else if is_blank(t[p]) {
        parse_from(t, p + 1, stub)
    } else {
        Err(SyntaxErrorModel::UnexpectedToken(t[p]))
    }
}

#[via_fn]
proof fn parse_from_decreases(t: Seq<Seq<char>>, p: int, stub: StubModel) {
    if 0 <= p < t.len() {
        lemma_variable_list_bounds(t, p + 1);
        lemma_write_cmd_bounds(t, p + 1);
        lemma_loop_cmd_bounds(t, p + 1);
        lemma_loopline_cmd_bounds(t, p + 1);
        lemma_statement_bounds(t, p + 1);
        lemma_input_block_bounds(t, p + 1);
    }
}

/// The stub without statement, comments or commands.
pub open spec fn empty_stub() -> StubModel {
    StubModel { statement: Seq::empty(), input_comments: Seq::empty(), commands: Seq::empty() }
}

/// The stub that a list of tokens describes.
pub open spec fn parsed_tokens(t: Seq<Seq<char>>) -> Result<StubModel, SyntaxErrorModel> {
    parse_from(t, 0, empty_stub())
}

/// The stub that the text of a stub generator describes.
pub open spec fn parsed(text: Seq<char>) -> Result<StubModel, SyntaxErrorModel> {
    parsed_tokens(crate::tokenizer::tokens_of(text))
}

/// Whether a variable has the bound that its kind asks for: a `word` or a
/// `string` one that is not empty.
pub open spec fn has_its_bound(v: VariableModel) -> bool {
    match v {
        VariableModel::Word { max_length, .. } => max_length.len() > 0,
        VariableModel::String { max_length, .. } => max_length.len() > 0,
        _ => true,
    }
}

/// Whether every one of the variables has the bound that its kind asks for.
pub open spec fn have_their_bounds(vars: Seq<VariableModel>) -> bool {
    forall|i: int| 0 <= i < vars.len() ==> has_its_bound(#[trigger] vars[i])
}

/// Whether a command has the shape of what the parser makes: no wrapper,
/// no batch and no external node of a lowering pass in it, every bounded variable with its bound,
/// every loop with a count identifier, and no output text on a joined
/// `write`.
pub open spec fn as_parsed(c: CmdModel) -> bool
    decreases c,
{
    match c {
        CmdModel::Read(vars) => have_their_bounds(vars),
        CmdModel::Write { .. } => true,
        CmdModel::WriteJoin { output_comment, .. } => output_comment.len() == 0,
        CmdModel::Loop { count_var, command } => !is_blank(count_var) && as_parsed(*command),
        CmdModel::LoopLine { count_var, variables } => !is_blank(count_var) && have_their_bounds(
            variables,
        ),
        CmdModel::MainWrapper { .. } => false,
        CmdModel::ReadBatch { .. } => false,
        CmdModel::External { .. } => false,
    }
}

/// Whether every one of the commands has the shape of what the parser
/// makes.
pub open spec fn all_as_parsed(cmds: Seq<CmdModel>) -> bool {
    forall|i: int| 0 <= i < cmds.len() ==> as_parsed(#[trigger] cmds[i])
}

/// Every variable that is parsed has the bound that its kind asks for.
pub proof fn lemma_variable_list_has_bounds(t: Seq<Seq<char>>, p: int)
    ensures
        variable_list(t, p) is Ok ==> have_their_bounds(variable_list(t, p)->Ok_0.value),
    decreases t.len() - p,
{
    if 0 <= p < t.len() && t[p] != newline() {
        lemma_variable_list_has_bounds(t, p + 1);
        if variable_list(t, p) is Ok {
            let v = parsed_variable(t[p])->Ok_0;
            let rest = variable_list(t, p + 1)->Ok_0.value;
            assert(has_its_bound(v));
            assert forall|i: int| 0 <= i < (seq![v] + rest).len() implies has_its_bound(
                #[trigger] (seq![v] + rest)[i],
            ) by {
                if i > 0 {
                    assert((seq![v] + rest)[i] == rest[i - 1]);
                }
            }
        }
    }
}

/// What follows `loop` parses to commands of the parser's shape; so does a
/// statement nested in a loop.
pub proof fn lemma_loop_cmd_as_parsed(t: Seq<Seq<char>>, p: int)
    requires
        0 <= p <= t.len(),
    ensures
        loop_cmd(t, p) is Ok ==> as_parsed(loop_cmd(t, p)->Ok_0.value),
        loopable_cmd(t, p) is Ok ==> as_parsed(loopable_cmd(t, p)->Ok_0.value),
    decreases t.len() - p,
{
    if p < t.len() {
        lemma_variable_list_has_bounds(t, p + 1);
        lemma_skip_blank_bounds(t, p + 1);
        lemma_variable_list_has_bounds(t, skip_blank(t, p + 2));
        lemma_loop_cmd_as_parsed(t, p + 1);
        let q = skip_blank(t, p + 1);
        if q > p + 1 {
            lemma_loop_cmd_as_parsed(t, q);
        }
    }
}

/// Attaching an output text keeps the parser's shape.
pub proof fn lemma_patch_keeps_shape(c: CmdModel, text: Seq<Seq<char>>)
    requires
        as_parsed(c),
    ensures
        as_parsed(patched_cmd(c, text)),
    decreases c,
{
    match c {
        CmdModel::Loop { count_var, command } => {
            lemma_patch_keeps_shape(*command, text);
        },
        _ => {},
    }
}

/// Parsing adds only commands of the parser's shape to those it starts
/// from.
pub proof fn lemma_parse_from_as_parsed(t: Seq<Seq<char>>, p: int, stub: StubModel)
    requires
        0 <= p <= t.len(),
        all_as_parsed(stub.commands),
    ensures
        parse_from(t, p, stub) is Ok ==> all_as_parsed(parse_from(t, p, stub)->Ok_0.commands),
    decreases t.len() - p,
{
    if p < t.len() {
        lemma_variable_list_bounds(t, p + 1);
        lemma_write_cmd_bounds(t, p + 1);
        lemma_loop_cmd_bounds(t, p + 1);
        lemma_loopline_cmd_bounds(t, p + 1);
        lemma_statement_bounds(t, p + 1);
        lemma_input_block_bounds(t, p + 1);
        lemma_variable_list_has_bounds(t, p + 1);
        lemma_variable_list_has_bounds(t, skip_blank(t, p + 2));
        lemma_loop_cmd_as_parsed(t, p + 1);
        if t[p] == "read"@ {
            if read_cmd(t, p + 1) is Ok {
                let c = read_cmd(t, p + 1)->Ok_0;
                lemma_parse_from_as_parsed(t, c.next, with_command(stub, c.value));
            }
        } else if t[p] == "write"@ {
            if write_cmd(t, p + 1) is Ok {
                let c = write_cmd(t, p + 1)->Ok_0;
                lemma_parse_from_as_parsed(t, c.next, with_command(stub, c.value));
            }
        } else if t[p] == "loop"@ {
            if loop_cmd(t, p + 1) is Ok {
                let c = loop_cmd(t, p + 1)->Ok_0;
                lemma_parse_from_as_parsed(t, c.next, with_command(stub, c.value));
            }
        } else if t[p] == "loopline"@ {
            if loopline_cmd(t, p + 1) is Ok {
                let c = loopline_cmd(t, p + 1)->Ok_0;
                lemma_parse_from_as_parsed(t, c.next, with_command(stub, c.value));
            }
        } else if t[p] == "OUTPUT"@ {
            let text = statement_text(t, p + 1);
            let next = StubModel {
                commands: patched(stub.commands, lines_of(text.value)),
                ..stub
            };
            assert forall|i: int| 0 <= i < next.commands.len() implies as_parsed(
                #[trigger] next.commands[i],
            ) by {
                lemma_patch_keeps_shape(stub.commands[i], lines_of(text.value));
            }
            lemma_parse_from_as_parsed(t, text.next, next);
        } else if t[p] == "INPUT"@ {
            let comments = input_block(t, p + 1);
            lemma_parse_from_as_parsed(
                t,
                comments.next,
                StubModel { input_comments: stub.input_comments + comments.value, ..stub },
            );
        } else if t[p] == "STATEMENT"@ {
            let text = statement_text(t, p + 1);
            lemma_parse_from_as_parsed(t, text.next, StubModel { statement: text.value, ..stub });
        } else if is_blank(t[p]) {
            lemma_parse_from_as_parsed(t, p + 1, stub);
        }
    }
}

/// The parser makes no wrapper, no batch and no external node: the commands
/// of a parsed stub are reads, writes, loops and looplines alone, every bounded variable has
/// a bound that is not empty, and every loop has a count identifier.
pub proof fn lemma_parsed_stub_shape(text: Seq<char>)
    ensures
        parsed(text) is Ok ==> all_as_parsed(parsed(text)->Ok_0.commands),
{
    lemma_parse_from_as_parsed(crate::tokenizer::tokens_of(text), 0, empty_stub());
}

} // verus!
