//! The bindings that each template receives: for each key a JSON value, as
//! text in the form in which `serde_json` writes it.

use vstd::prelude::*;
use vstd::string::*;
use crate::casing::VariableNameOptions;
use crate::error::RenderError;
use crate::json::{
    array_value, bool_value, json_array, json_bool, json_null, json_object, json_string,
    json_strings, members_view, null_value, object_value, string_value, strings_value,
};
use crate::preprocessor::init_read_declarations::{index_letter, index_letters, MAX_DEPTH};
use crate::text::{chars_of, push_char, string_of, string_of_range};
use crate::tokenizer::{split, split_on, tokens_view};
use crate::types::{
    join_terms_view, strings_view, variables_view, JoinTerm, JoinTermModel, JoinTermType,
    LengthType, VarType, VariableCommand, VariableModel,
};

verus! {

/// A line without the carriage return at its end, if it has one.
pub open spec fn without_return(line: Seq<char>) -> Seq<char> {
    if line.len() > 0 && line.last() == '\r' {
        line.drop_last()
    } else {
        line
    }
}

/// The lines of a rendered text: the pieces that end in a line break, each
/// without the break and without a carriage return before it, and then what
/// follows the last break, unless that is empty.
pub open spec fn text_lines(s: Seq<char>) -> Seq<Seq<char>> {
    let pieces = split_on(s, '\n');
    let ended = pieces.drop_last().map_values(|line: Seq<char>| without_return(line));
    if pieces.last().len() == 0 {
        ended
    } else {
        ended.push(pieces.last())
    }
}

/// The lines that are not empty, in their order.
pub open spec fn filled_lines(lines: Seq<Seq<char>>) -> Seq<Seq<char>>
    decreases lines.len(),
{
    if lines.len() == 0 {
        Seq::empty()
    } else if lines.last().len() == 0 {
        filled_lines(lines.drop_last())
    } else {
        filled_lines(lines.drop_last()).push(lines.last())
    }
}

/// The lines of a rendered text.
pub fn lines_of_text(text: &str) -> (r: Vec<String>)
    ensures
        strings_view(r@) == text_lines(text@),
{
    let chars = chars_of(text);
    let pieces = split(&chars, '\n');
    proof {
        crate::tokenizer::lemma_split_on_nonempty(text@, '\n');
    }
    let ghost all = tokens_view(pieces@);
    let last: usize = pieces.len() - 1;
    let mut r: Vec<String> = Vec::new();
    let mut i: usize = 0;
    while i < last
        invariant
            last + 1 == pieces@.len(),
            all == tokens_view(pieces@),
            i <= last,
            strings_view(r@) == all.take(i as int).map_values(
                |line: Seq<char>| without_return(line),
            ),
        decreases last - i,
    {
        let ghost before = strings_view(r@);
        let n: usize = pieces[i].len();
        assert(all[i as int] == pieces@[i as int]@);
        let line = if n > 0 && pieces[i][n - 1] == '\r' {
            string_of_range(&pieces[i], 0, n - 1)
        } else {
            string_of(&pieces[i])
        };
        assert(line@ =~= without_return(all[i as int]));
        r.push(line);
        i += 1;
        proof {
            assert(strings_view(r@) =~= before.push(line@));
            assert(all.take(i as int) =~= all.take(i - 1).push(all[i - 1]));
            assert(strings_view(r@) =~= all.take(i as int).map_values(
                |line: Seq<char>| without_return(line),
            ));
        }
    }
    assert(all.take(last as int) =~= all.drop_last());
    assert(all[last as int] == pieces@[last as int]@);
    if pieces[last].len() > 0 {
        let ghost before = strings_view(r@);
        r.push(string_of(&pieces[last]));
        assert(strings_view(r@) =~= before.push(all.last()));
    }
    r
}

/// The lines that are not empty, in their order.
pub fn keep_filled(lines: Vec<String>) -> (r: Vec<String>)
    ensures
        strings_view(r@) == filled_lines(strings_view(lines@)),
{
    let ghost all = strings_view(lines@);
    let mut r: Vec<String> = Vec::new();
    let mut i: usize = 0;
    assert(strings_view(r@) =~= filled_lines(all.take(0)));
    while i < lines.len()
        invariant
            i <= lines@.len(),
            all == strings_view(lines@),
            strings_view(r@) == filled_lines(all.take(i as int)),
        decreases lines@.len() - i,
    {
        let ghost before = strings_view(r@);
        let n: usize = lines[i].as_str().unicode_len();
        if n > 0 {
            r.push(lines[i].clone());
            assert(strings_view(r@) =~= before.push(all[i as int]));
        }
        i += 1;
        proof {
            let now = all.take(i as int);
            assert(now.drop_last() =~= all.take(i - 1));
            assert(now.last() == all[i - 1]);
        }
    }
    assert(all.take(i as int) =~= all);
    r
}

/// One JSON member whose value is a JSON string.
pub open spec fn text_member(key: Seq<char>, value: Seq<char>) -> (Seq<char>, Seq<char>) {
    (key, json_string(value))
}

/// The format placeholders of the scalar kinds, which every template
/// receives.
pub open spec fn format_symbols() -> Seq<char> {
    json_object(
        seq![
            text_member("Bool"@, "%b"@),
            text_member("Float"@, "%f"@),
            text_member("Int"@, "%d"@),
            text_member("Long"@, "%lld"@),
            text_member("String"@, " %[^\\n]"@),
            text_member("Word"@, "%s"@),
        ],
    )
}

/// The bindings of a template, each a key and a JSON value: the given
/// members, then the format placeholders.
pub open spec fn bindings(members: Seq<(Seq<char>, Seq<char>)>) -> Seq<(Seq<char>, Seq<char>)> {
    members.push(("format_symbols"@, format_symbols()))
}

/// The name of a kind of variable.
pub open spec fn kind_name(kind: VarType) -> Seq<char> {
    match kind {
        VarType::Int => "Int"@,
        VarType::Float => "Float"@,
        VarType::Long => "Long"@,
        VarType::Bool => "Bool"@,
        VarType::Word => "Word"@,
        VarType::String => "String"@,
    }
}

/// The name of the way in which a bound is given.
pub open spec fn length_type_name(t: LengthType) -> Seq<char> {
    match t {
        LengthType::Number => "Number"@,
        LengthType::Variable => "Variable"@,
    }
}

/// The members that describe a variable: its identifier, its kind, and its
/// bound and the way the bound is given, or `null` for both where it has
/// none.
pub open spec fn variable_members(var: VariableModel) -> Seq<(Seq<char>, Seq<char>)> {
    let bound = match var {
        VariableModel::Word { max_length, length_type, .. } => (
            json_string(max_length),
            json_string(length_type_name(length_type)),
        ),
        VariableModel::String { max_length, length_type, .. } => (
            json_string(max_length),
            json_string(length_type_name(length_type)),
        ),
        _ => (json_null(), json_null()),
    };
    seq![
        text_member("ident"@, var.name()),
        text_member("var_type"@, kind_name(var.var_type())),
        ("max_length"@, bound.0),
        ("length_type"@, bound.1),
    ]
}

/// A variable as a JSON object.
pub open spec fn variable_json(var: VariableModel) -> Seq<char> {
    json_object(variable_members(var))
}

/// The name of the type of a join term.
pub open spec fn term_type_name(t: JoinTermType) -> Seq<char> {
    match t {
        JoinTermType::Literal => "Literal"@,
        JoinTermType::Variable => "Variable"@,
    }
}

/// A join term as a JSON object.
pub open spec fn term_json(term: JoinTermModel) -> Seq<char> {
    json_object(
        seq![
            text_member("ident"@, term.name),
            text_member("term_type"@, term_type_name(term.term_type)),
        ],
    )
}

/// The type tokens of a language as a JSON object of strings.
pub open spec fn type_tokens_json(tokens: Seq<(Seq<char>, Seq<char>)>) -> Seq<char> {
    json_object(tokens.map_values(|t: (Seq<char>, Seq<char>)| text_member(t.0, t.1)))
}

/// The index letter of a nesting level, as a JSON string.
pub open spec fn index_ident_json(depth: int) -> Seq<char> {
    json_string(seq![index_letters()[depth]])
}

/// A join term as the policy writes it: the name of a variable transformed,
/// a literal as it is.
pub open spec fn cased_term(opts: VariableNameOptions, term: JoinTermModel) -> JoinTermModel {
    match term.term_type {
        JoinTermType::Variable => JoinTermModel { name: opts.transformed(term.name), ..term },
        JoinTermType::Literal => term,
    }
}

/// The join terms as the policy writes them, as a JSON array.
pub open spec fn terms_json(opts: VariableNameOptions, terms: Seq<JoinTermModel>) -> Seq<char> {
    json_array(terms.map_values(|t: JoinTermModel| term_json(cased_term(opts, t))))
}

/// The variables as the policy writes them, as a JSON array.
pub open spec fn variables_json(opts: VariableNameOptions, vars: Seq<VariableModel>) -> Seq<char> {
    json_array(vars.map_values(|v: VariableModel| variable_json(opts.transformed_command(v))))
}

/// Whether the variables, at least one, are all of one kind.
pub open spec fn one_kind(vars: Seq<VariableModel>) -> bool {
    vars.len() > 0 && forall|i: int|
        0 <= i < vars.len() ==> (#[trigger] vars[i]).var_type() == vars[0].var_type()
}

/// The name of the one kind that all the variables have, or `false`.
pub open spec fn single_type_json(vars: Seq<VariableModel>) -> Seq<char> {
    if one_kind(vars) {
        json_string(kind_name(vars[0].var_type()))
    } else {
        json_bool(false)
    }
}

/// What the template of a `write` receives: the lines and the output text.
pub open spec fn write_bindings(lines: Seq<Seq<char>>, output_comments: Seq<Seq<char>>) -> Seq<
    (Seq<char>, Seq<char>),
> {
    bindings(
        seq![
            ("messages"@, json_strings(lines)),
            ("output_comments"@, json_strings(output_comments)),
        ],
    )
}

/// What the template of a joined `write` receives: the terms, with the
/// names of variables transformed and literals as they are, the type
/// tokens and the output text.
pub open spec fn write_join_bindings(
    opts: VariableNameOptions,
    type_tokens: Seq<(Seq<char>, Seq<char>)>,
    terms: Seq<JoinTermModel>,
    output_comments: Seq<Seq<char>>,
) -> Seq<(Seq<char>, Seq<char>)> {
    bindings(
        seq![
            ("terms"@, terms_json(opts, terms)),
            ("type_tokens"@, type_tokens_json(type_tokens)),
            ("output_comments"@, json_strings(output_comments)),
        ],
    )
}

/// What the template of a `read` of one variable receives: the variable
/// transformed, and the type tokens.
pub open spec fn read_one_bindings(
    opts: VariableNameOptions,
    type_tokens: Seq<(Seq<char>, Seq<char>)>,
    var: VariableModel,
) -> Seq<(Seq<char>, Seq<char>)> {
    bindings(
        seq![
            ("var"@, variable_json(opts.transformed_command(var))),
            ("type_tokens"@, type_tokens_json(type_tokens)),
        ],
    )
}

/// What the template of a `read` of several variables receives: their one
/// kind if they have one, the variables transformed, the type tokens and
/// the index letter of the nesting level.
pub open spec fn read_many_bindings(
    opts: VariableNameOptions,
    type_tokens: Seq<(Seq<char>, Seq<char>)>,
    vars: Seq<VariableModel>,
    depth: int,
) -> Seq<(Seq<char>, Seq<char>)> {
    bindings(
        seq![
            ("single_type"@, single_type_json(vars)),
            ("vars"@, variables_json(opts, vars)),
            ("type_tokens"@, type_tokens_json(type_tokens)),
            ("index_ident"@, index_ident_json(depth)),
        ],
    )
}

/// What the template of a `loop` receives: the count variable transformed,
/// the lines of the rendered body and the index letter of the nesting
/// level.
pub open spec fn loop_bindings(
    opts: VariableNameOptions,
    count_var: Seq<char>,
    inner: Seq<char>,
    depth: int,
) -> Seq<(Seq<char>, Seq<char>)> {
    bindings(
        seq![
            ("count_var"@, json_string(opts.transformed(count_var))),
            ("inner"@, json_strings(text_lines(inner))),
            ("index_ident"@, index_ident_json(depth)),
        ],
    )
}

/// What the template of a `loopline` receives: the count variable and the
/// variables transformed, the type tokens and the index letter of the
/// nesting level.
pub open spec fn loopline_bindings(
    opts: VariableNameOptions,
    type_tokens: Seq<(Seq<char>, Seq<char>)>,
    count_var: Seq<char>,
    vars: Seq<VariableModel>,
    depth: int,
) -> Seq<(Seq<char>, Seq<char>)> {
    bindings(
        seq![
            ("count_var"@, json_string(opts.transformed(count_var))),
            ("vars"@, variables_json(opts, vars)),
            ("type_tokens"@, type_tokens_json(type_tokens)),
            ("index_ident"@, index_ident_json(depth)),
        ],
    )
}

/// What the main template receives: the statement and the lines of the
/// rendered commands.
pub open spec fn main_bindings(statement: Seq<char>, code: Seq<char>) -> Seq<(Seq<char>, Seq<char>)> {
    bindings(
        seq![
            ("statement"@, json_string(statement)),
            ("code_lines"@, json_strings(text_lines(code))),
        ],
    )
}

/// What the template of one forward declaration receives: the variable as
/// it was parsed, member by member.
pub open spec fn forward_declaration_bindings(var: VariableModel) -> Seq<(Seq<char>, Seq<char>)> {
    variable_members(var).push(("format_symbols"@, format_symbols()))
}

/// What the template of hoisted declarations receives: the rendered
/// declarations and the lines of the rendered commands.
pub open spec fn main_wrapper_bindings(declarations: Seq<Seq<char>>, code: Seq<char>) -> Seq<
    (Seq<char>, Seq<char>),
> {
    bindings(
        seq![
            ("forward_declarations"@, json_strings(declarations)),
            ("main_contents"@, json_strings(text_lines(code))),
        ],
    )
}

/// What the template of a read batch receives: the lines of the rendered
/// reads and of the rendered nested commands, without the empty ones.
pub open spec fn read_batch_bindings(reads: Seq<char>, nested: Seq<char>) -> Seq<(Seq<char>, Seq<char>)> {
    bindings(
        seq![
            ("read_lines"@, json_strings(filled_lines(text_lines(reads)))),
            ("nested_lines"@, json_strings(filled_lines(text_lines(nested)))),
        ],
    )
}

/// What the template of an external node receives: the bindings that the
/// node carries, then the lines of the rendered nested commands.
pub open spec fn external_bindings(given: Seq<(Seq<char>, Seq<char>)>, nested: Seq<char>) -> Seq<
    (Seq<char>, Seq<char>),
> {
    bindings(given.push(("nested_lines"@, json_strings(text_lines(nested)))))
}

/// The name of the file that holds a template for a language.
pub open spec fn template_file(template: Seq<char>, extension: Seq<char>) -> Seq<char> {
    template + seq!['.'] + extension + ".jinja"@
}

/// A member with the given key and JSON value.
fn member(key: &str, value: String) -> (r: (String, String))
    ensures
        r.0@ == key@,
        r.1@ == value@,
{
    (String::from_str(key), value)
}

/// A member with the given key whose value is the JSON string of a text.
fn text(key: &str, value: &str) -> (r: (String, String))
    ensures
        (r.0@, r.1@) == text_member(key@, value@),
{
    (String::from_str(key), string_value(value))
}

/// The format placeholders of the scalar kinds, which every template
/// receives.
pub fn format_symbols_value() -> (r: String)
    ensures
        r@ == format_symbols(),
{
    let mut members: Vec<(String, String)> = Vec::new();
    members.push(text("Bool", "%b"));
    members.push(text("Float", "%f"));
    members.push(text("Int", "%d"));
    members.push(text("Long", "%lld"));
    members.push(text("String", " %[^\\n]"));
    members.push(text("Word", "%s"));
    assert(members_view(members@) =~= seq![
        text_member("Bool"@, "%b"@),
        text_member("Float"@, "%f"@),
        text_member("Int"@, "%d"@),
        text_member("Long"@, "%lld"@),
        text_member("String"@, " %[^\\n]"@),
        text_member("Word"@, "%s"@),
    ]);
    object_value(&members)
}

/// The bindings of a template: the given members, then the format
/// placeholders.
pub fn bindings_value(members: Vec<(String, String)>) -> (r: Vec<(String, String)>)
    ensures
        members_view(r@) == bindings(members_view(members@)),
{
    let mut members = members;
    let ghost given = members_view(members@);
    members.push(member("format_symbols", format_symbols_value()));
    assert(members_view(members@) =~= given.push(("format_symbols"@, format_symbols())));
    members
}

/// The name of a kind of variable.
pub fn kind_text(kind: VarType) -> (r: &'static str)
    ensures
        r@ == kind_name(kind),
{
    match kind {
        VarType::Int => "Int",
        VarType::Float => "Float",
        VarType::Long => "Long",
        VarType::Bool => "Bool",
        VarType::Word => "Word",
        VarType::String => "String",
    }
}

/// The name of the way in which a bound is given.
pub fn length_type_text(t: LengthType) -> (r: &'static str)
    ensures
        r@ == length_type_name(t),
{
    match t {
        LengthType::Number => "Number",
        LengthType::Variable => "Variable",
    }
}

/// The members that describe a variable.
pub fn variable_members_value(var: &VariableCommand) -> (r: Vec<(String, String)>)
    ensures
        members_view(r@) == variable_members(var@),
{
    let mut members: Vec<(String, String)> = Vec::new();
    members.push(text("ident", var.name().as_str()));
    members.push(text("var_type", kind_text(var.var_type())));
    match var {
        VariableCommand::Word { max_length, length_type, .. } => {
            members.push(text("max_length", max_length.as_str()));
            members.push(text("length_type", length_type_text(*length_type)));
        },
        VariableCommand::String { max_length, length_type, .. } => {
            members.push(text("max_length", max_length.as_str()));
            members.push(text("length_type", length_type_text(*length_type)));
        },
        _ => {
            members.push(member("max_length", null_value()));
            members.push(member("length_type", null_value()));
        },
    }
    assert(members_view(members@) =~= variable_members(var@));
    members
}

/// A variable as a JSON object.
pub fn variable_value(var: &VariableCommand) -> (r: String)
    ensures
        r@ == variable_json(var@),
{
    object_value(&variable_members_value(var))
}

/// A join term as a JSON object.
pub fn term_value(term: &JoinTerm) -> (r: String)
    ensures
        r@ == term_json(term@),
{
    let term_kind = match term.term_type {
        JoinTermType::Literal => "Literal",
        JoinTermType::Variable => "Variable",
    };
    let mut members: Vec<(String, String)> = Vec::new();
    members.push(text("ident", term.name.as_str()));
    members.push(text("term_type", term_kind));
    assert(members_view(members@) =~= seq![
        text_member("ident"@, term@.name),
        text_member("term_type"@, term_type_name(term@.term_type)),
    ]);
    object_value(&members)
}

/// The type tokens of a language as a JSON object of strings.
pub fn type_tokens_value(tokens: &Vec<(String, String)>) -> (r: String)
    ensures
        r@ == type_tokens_json(members_view(tokens@)),
{
    let mut members: Vec<(String, String)> = Vec::new();
    let mut i: usize = 0;
    while i < tokens.len()
        invariant
            i <= tokens@.len(),
            members@.len() == i,
            forall|j: int|
                0 <= j < i ==> (#[trigger] members@[j].0@, members@[j].1@) == text_member(
                    tokens@[j].0@,
                    tokens@[j].1@,
                ),
        decreases tokens@.len() - i,
    {
        members.push(text(tokens[i].0.as_str(), tokens[i].1.as_str()));
        i += 1;
    }
    assert(members_view(members@) =~= members_view(tokens@).map_values(
        |t: (Seq<char>, Seq<char>)| text_member(t.0, t.1),
    ));
    object_value(&members)
}

/// The index letter of a nesting level, as a JSON string.
pub fn index_ident_value(depth: usize) -> (r: String)
    requires
        depth < MAX_DEPTH,
    ensures
        r@ == index_ident_json(depth as int),
{
    let mut letter: String = String::new();
    push_char(&mut letter, index_letter(depth));
    assert(letter@ =~= seq![index_letters()[depth as int]]);
    string_value(letter.as_str())
}

/// The join terms as the policy writes them, as a JSON array.
pub fn terms_value(opts: &VariableNameOptions, terms: &Vec<JoinTerm>) -> (r: String)
    ensures
        r@ == terms_json(*opts, join_terms_view(terms@)),
{
    let mut values: Vec<String> = Vec::new();
    let mut i: usize = 0;
    while i < terms.len()
        invariant
            i <= terms@.len(),
            values@.len() == i,
            forall|j: int|
                0 <= j < i ==> (#[trigger] values@[j])@ == term_json(
                    cased_term(*opts, terms@[j]@),
                ),
        decreases terms@.len() - i,
    {
        let term = &terms[i];
        let cased = match term.term_type {
            JoinTermType::Variable => JoinTerm {
                name: opts.transform_variable_name(term.name.as_str()),
                term_type: JoinTermType::Variable,
            },
            JoinTermType::Literal => JoinTerm {
                name: term.name.clone(),
                term_type: JoinTermType::Literal,
            },
        };
        assert(cased@ == cased_term(*opts, term@));
        values.push(term_value(&cased));
        i += 1;
    }
    assert(strings_view(values@) =~= join_terms_view(terms@).map_values(
        |t: JoinTermModel| term_json(cased_term(*opts, t)),
    ));
    array_value(&values)
}

/// The variables as the policy writes them, as a JSON array.
pub fn variables_value(opts: &VariableNameOptions, vars: &Vec<VariableCommand>) -> (r: String)
    ensures
        r@ == variables_json(*opts, variables_view(vars@)),
{
    let mut values: Vec<String> = Vec::new();
    let mut i: usize = 0;
    while i < vars.len()
        invariant
            i <= vars@.len(),
            values@.len() == i,
            forall|j: int|
                0 <= j < i ==> (#[trigger] values@[j])@ == variable_json(
                    opts.transformed_command(vars@[j]@),
                ),
        decreases vars@.len() - i,
    {
        let cased = opts.transform_variable_command(&vars[i]);
        values.push(variable_value(&cased));
        i += 1;
    }
    assert(strings_view(values@) =~= variables_view(vars@).map_values(
        |v: VariableModel| variable_json(opts.transformed_command(v)),
    ));
    array_value(&values)
}

/// The name of the one kind that all the variables have, or `false`.
pub fn single_type_value(vars: &Vec<VariableCommand>) -> (r: String)
    ensures
        r@ == single_type_json(variables_view(vars@)),
{
    if vars.len() == 0 {
        return bool_value(false);
    }
    let first = vars[0].var_type();
    let mut i: usize = 1;
    assert(variables_view(vars@)[0] == vars@[0]@);
    while i < vars.len()
        invariant
            1 <= i <= vars@.len(),
            first == variables_view(vars@)[0].var_type(),
            forall|j: int|
                0 <= j < i ==> (#[trigger] variables_view(vars@)[j]).var_type() == first,
        decreases vars@.len() - i,
    {
        assert(variables_view(vars@)[i as int] == vars@[i as int]@);
        if vars[i].var_type() != first {
            return bool_value(false);
        }
        i += 1;
    }
    string_value(kind_text(first))
}

/// The bindings of a template that needs the index letter of a nesting
/// level: those that the letter completes, or the error of a level beyond
/// the last letter.
pub open spec fn at_depth(depth: int, bindings: Seq<(Seq<char>, Seq<char>)>) -> Result<
    Seq<(Seq<char>, Seq<char>)>,
    RenderError,
> {
    if depth < MAX_DEPTH {
        Ok(bindings)
    } else {
        Err(RenderError::NestingTooDeep)
    }
}

/// Whether the bindings built are those expected, or the error is.
pub open spec fn built(
    got: Result<Vec<(String, String)>, RenderError>,
    expected: Result<Seq<(Seq<char>, Seq<char>)>, RenderError>,
) -> bool {
    match expected {
        Ok(members) => got is Ok && members_view(got->Ok_0@) == members,
        Err(e) => got is Err && got->Err_0 == e,
    }
}

/// What the template of a `write` receives: the lines and the output text.
pub fn write_context(lines: &Vec<String>, output_comments: &Vec<String>) -> (r: Vec<(String, String)>)
    ensures
        members_view(r@) == write_bindings(strings_view(lines@), strings_view(output_comments@)),
{
    let mut members: Vec<(String, String)> = Vec::new();
    members.push(member("messages", strings_value(lines)));
    members.push(member("output_comments", strings_value(output_comments)));
    assert(members_view(members@) =~= seq![
        ("messages"@, json_strings(strings_view(lines@))),
        ("output_comments"@, json_strings(strings_view(output_comments@))),
    ]);
    bindings_value(members)
}

/// What the template of a joined `write` receives: the terms, with the
/// names of variables transformed and literals as they are, the type
/// tokens and the output text.
pub fn write_join_context(
    opts: &VariableNameOptions,
    type_tokens: &Vec<(String, String)>,
    terms: &Vec<JoinTerm>,
    output_comments: &Vec<String>,
) -> (r: Vec<(String, String)>)
    ensures
        members_view(r@) == write_join_bindings(
            *opts,
            members_view(type_tokens@),
            join_terms_view(terms@),
            strings_view(output_comments@),
        ),
{
    let mut members: Vec<(String, String)> = Vec::new();
    members.push(member("terms", terms_value(opts, terms)));
    members.push(member("type_tokens", type_tokens_value(type_tokens)));
    members.push(member("output_comments", strings_value(output_comments)));
    assert(members_view(members@) =~= seq![
        ("terms"@, terms_json(*opts, join_terms_view(terms@))),
        ("type_tokens"@, type_tokens_json(members_view(type_tokens@))),
        ("output_comments"@, json_strings(strings_view(output_comments@))),
    ]);
    bindings_value(members)
}

/// What the template of a `read` of one variable receives: the variable
/// transformed, and the type tokens.
pub fn read_one_context(
    opts: &VariableNameOptions,
    type_tokens: &Vec<(String, String)>,
    var: &VariableCommand,
) -> (r: Vec<(String, String)>)
    ensures
        members_view(r@) == read_one_bindings(*opts, members_view(type_tokens@), var@),
{
    let cased = opts.transform_variable_command(var);
    let mut members: Vec<(String, String)> = Vec::new();
    members.push(member("var", variable_value(&cased)));
    members.push(member("type_tokens", type_tokens_value(type_tokens)));
    assert(members_view(members@) =~= seq![
        ("var"@, variable_json(opts.transformed_command(var@))),
        ("type_tokens"@, type_tokens_json(members_view(type_tokens@))),
    ]);
    bindings_value(members)
}

/// What the template of a `read` of several variables receives: their one
/// kind if they have one, the variables transformed, the type tokens and
/// the index letter of the nesting level. Beyond the last index letter
/// there are no bindings.
pub fn read_many_context(
    opts: &VariableNameOptions,
    type_tokens: &Vec<(String, String)>,
    vars: &Vec<VariableCommand>,
    depth: usize,
) -> (r: Result<Vec<(String, String)>, RenderError>)
    ensures
        built(
            r,
            at_depth(
                depth as int,
                read_many_bindings(
                    *opts,
                    members_view(type_tokens@),
                    variables_view(vars@),
                    depth as int,
                ),
            ),
        ),
{
    if depth >= MAX_DEPTH {
        return Err(RenderError::NestingTooDeep);
    }
    let mut members: Vec<(String, String)> = Vec::new();
    members.push(member("single_type", single_type_value(vars)));
    members.push(member("vars", variables_value(opts, vars)));
    members.push(member("type_tokens", type_tokens_value(type_tokens)));
    members.push(member("index_ident", index_ident_value(depth)));
    assert(members_view(members@) =~= seq![
        ("single_type"@, single_type_json(variables_view(vars@))),
        ("vars"@, variables_json(*opts, variables_view(vars@))),
        ("type_tokens"@, type_tokens_json(members_view(type_tokens@))),
        ("index_ident"@, index_ident_json(depth as int)),
    ]);
    Ok(bindings_value(members))
}

/// What the template of a `loop` receives: the count variable transformed,
/// the lines of the rendered body and the index letter of the nesting
/// level. Beyond the last index letter there are no bindings.
pub fn loop_context(opts: &VariableNameOptions, count_var: &str, inner: &str, depth: usize) -> (r:
    Result<Vec<(String, String)>, RenderError>)
    ensures
        built(r, at_depth(depth as int, loop_bindings(*opts, count_var@, inner@, depth as int))),
{
    if depth >= MAX_DEPTH {
        return Err(RenderError::NestingTooDeep);
    }
    let cased = opts.transform_variable_name(count_var);
    let mut members: Vec<(String, String)> = Vec::new();
    members.push(text("count_var", cased.as_str()));
    members.push(member("inner", strings_value(&lines_of_text(inner))));
    members.push(member("index_ident", index_ident_value(depth)));
    assert(members_view(members@) =~= seq![
        ("count_var"@, json_string(opts.transformed(count_var@))),
        ("inner"@, json_strings(text_lines(inner@))),
        ("index_ident"@, index_ident_json(depth as int)),
    ]);
    Ok(bindings_value(members))
}

/// What the template of a `loopline` receives: the count variable and the
/// variables transformed, the type tokens and the index letter of the
/// nesting level. Beyond the last index letter there are no bindings.
pub fn loopline_context(
    opts: &VariableNameOptions,
    type_tokens: &Vec<(String, String)>,
    count_var: &str,
    vars: &Vec<VariableCommand>,
    depth: usize,
) -> (r: Result<Vec<(String, String)>, RenderError>)
    ensures
        built(
            r,
            at_depth(
                depth as int,
                loopline_bindings(
                    *opts,
                    members_view(type_tokens@),
                    count_var@,
                    variables_view(vars@),
                    depth as int,
                ),
            ),
        ),
{
    if depth >= MAX_DEPTH {
        return Err(RenderError::NestingTooDeep);
    }
    let cased = opts.transform_variable_name(count_var);
    let mut members: Vec<(String, String)> = Vec::new();
    members.push(text("count_var", cased.as_str()));
    members.push(member("vars", variables_value(opts, vars)));
    members.push(member("type_tokens", type_tokens_value(type_tokens)));
    members.push(member("index_ident", index_ident_value(depth)));
    assert(members_view(members@) =~= seq![
        ("count_var"@, json_string(opts.transformed(count_var@))),
        ("vars"@, variables_json(*opts, variables_view(vars@))),
        ("type_tokens"@, type_tokens_json(members_view(type_tokens@))),
        ("index_ident"@, index_ident_json(depth as int)),
    ]);
    Ok(bindings_value(members))
}

/// What the main template receives: the statement and the lines of the
/// rendered commands.
pub fn main_context(statement: &str, code: &str) -> (r: Vec<(String, String)>)
    ensures
        members_view(r@) == main_bindings(statement@, code@),
{
    let mut members: Vec<(String, String)> = Vec::new();
    members.push(text("statement", statement));
    members.push(member("code_lines", strings_value(&lines_of_text(code))));
    assert(members_view(members@) =~= seq![
        ("statement"@, json_string(statement@)),
        ("code_lines"@, json_strings(text_lines(code@))),
    ]);
    bindings_value(members)
}

/// What the template of one forward declaration receives: the variable as
/// it was parsed, member by member.
pub fn forward_declaration_context(var: &VariableCommand) -> (r: Vec<(String, String)>)
    ensures
        members_view(r@) == forward_declaration_bindings(var@),
{
    let mut members = variable_members_value(var);
    let ghost given = members_view(members@);
    members.push(member("format_symbols", format_symbols_value()));
    assert(members_view(members@) =~= given.push(("format_symbols"@, format_symbols())));
    members
}

/// What the template of hoisted declarations receives: the rendered
/// declarations and the lines of the rendered commands.
pub fn main_wrapper_context(declarations: &Vec<String>, code: &str) -> (r: Vec<(String, String)>)
    ensures
        members_view(r@) == main_wrapper_bindings(strings_view(declarations@), code@),
{
    let mut members: Vec<(String, String)> = Vec::new();
    members.push(member("forward_declarations", strings_value(declarations)));
    members.push(member("main_contents", strings_value(&lines_of_text(code))));
    assert(members_view(members@) =~= seq![
        ("forward_declarations"@, json_strings(strings_view(declarations@))),
        ("main_contents"@, json_strings(text_lines(code@))),
    ]);
    bindings_value(members)
}

/// What the template of a read batch receives: the lines of the rendered
/// reads and of the rendered nested commands, without the empty ones.
pub fn read_batch_context(reads: &str, nested: &str) -> (r: Vec<(String, String)>)
    ensures
        members_view(r@) == read_batch_bindings(reads@, nested@),
{
    let mut members: Vec<(String, String)> = Vec::new();
    members.push(member("read_lines", strings_value(&keep_filled(lines_of_text(reads)))));
    members.push(member("nested_lines", strings_value(&keep_filled(lines_of_text(nested)))));
    assert(members_view(members@) =~= seq![
        ("read_lines"@, json_strings(filled_lines(text_lines(reads@)))),
        ("nested_lines"@, json_strings(filled_lines(text_lines(nested@)))),
    ]);
    bindings_value(members)
}

/// What the template of an external node receives: the bindings that the
/// node carries, then the lines of the rendered nested commands.
pub fn external_context(given: &Vec<(String, String)>, nested: &str) -> (r: Vec<(String, String)>)
    ensures
        members_view(r@) == external_bindings(members_view(given@), nested@),
{
    let mut members: Vec<(String, String)> = Vec::new();
    let mut i: usize = 0;
    while i < given.len()
        invariant
            i <= given@.len(),
            members_view(members@) == members_view(given@).take(i as int),
        decreases given@.len() - i,
    {
        let ghost before = members_view(members@);
        let key = given[i].0.clone();
        let value = given[i].1.clone();
        members.push((key, value));
        i += 1;
        assert(members_view(members@) =~= before.push(members_view(given@)[i - 1]));
        assert(members_view(members@) =~= members_view(given@).take(i as int));
    }
    assert(members_view(given@).take(i as int) =~= members_view(given@));
    let ghost copied = members_view(members@);
    members.push(member("nested_lines", strings_value(&lines_of_text(nested))));
    assert(members_view(members@) =~= copied.push(
        ("nested_lines"@, json_strings(text_lines(nested@))),
    ));
    bindings_value(members)
}

/// The name of the file that holds a template for a language.
pub fn template_file_name(template: &str, extension: &str) -> (r: String)
    ensures
        r@ == template_file(template@, extension@),
{
    let mut r = String::from_str(template);
    push_char(&mut r, '.');
    r.append(extension);
    r.append(".jinja");
    assert(r@ =~= template_file(template@, extension@));
    r
}

} // verus!
