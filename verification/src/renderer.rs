//! The renderer: walks the commands of a stub and asks the template engine,
//! `tera`, for the text of each. The bindings of each template are built by
//! this library and put into the engine's own bindings value by value.

use vstd::prelude::*;
use vstd::string::*;
use crate::casing::VariableNameOptions;
use crate::context::{
    external_bindings, external_context, forward_declaration_bindings, forward_declaration_context, loop_bindings, loop_context,
    loopline_bindings, loopline_context, main_bindings, main_context, main_wrapper_bindings,
    main_wrapper_context, read_batch_bindings, read_batch_context, read_many_bindings,
    read_many_context, read_one_bindings, read_one_context, template_file, template_file_name,
    write_bindings, write_context, write_join_bindings, write_join_context,
};
use crate::error::{RenderError, RenderErrorModel};
use crate::json::members_view;
use crate::preprocessor::init_read_declarations::MAX_DEPTH;
use crate::types::{
    cmds_view, join_terms_view, strings_view, variables_view, Cmd, CmdModel, JoinTerm, Stub,
    VariableCommand, VariableModel,
};

verus! {

/// The template engine of `tera`, with the templates that it holds.
#[verifier::external_type_specification]
#[verifier::external_body]
pub struct ExTera(tera::Tera);

/// The error with which `tera` refuses to render.
#[verifier::external_type_specification]
#[verifier::external_body]
pub struct ExTeraError(tera::Error);

/// The names of the templates that the engine holds, as
/// `tera::Tera::get_template_names` lists them.
pub uninterp spec fn template_names(tera: tera::Tera) -> Set<Seq<char>>;

/// The names of the templates that the engine holds and renders to the
/// end, whatever the bindings: `tera::Tera::render` returns for them, with
/// a text or with an error. A template whose arithmetic leaves the finite
/// numbers is not among them, for the engine panics on it.
pub uninterp spec fn steady_templates(tera: tera::Tera) -> Set<Seq<char>>;

/// The bindings that `tera` hands to a template.
#[verifier::external_type_specification]
#[verifier::external_body]
pub struct ExContext(tera::Context);

/// The error with which `serde_json` refuses a text.
#[verifier::external_type_specification]
#[verifier::external_body]
pub struct ExJsonError(serde_json::Error);

/// What the bindings hold: for each key the JSON value that stands under
/// it, as text.
pub uninterp spec fn context_values(context: tera::Context) -> Map<Seq<char>, Seq<char>>;

/// Whether `serde_json::from_str` reads the text as a JSON value.
pub uninterp spec fn reads_as_json(text: Seq<char>) -> bool;

/// The text that `serde_json` writes for the JSON value that it reads from
/// the text.
pub uninterp spec fn json_as_written(text: Seq<char>) -> Seq<char>;

/// `tera::Context::new`: bindings that hold nothing.
#[verifier::external_body]
pub(crate) fn new_context() -> (r: tera::Context)
    ensures
        context_values(r) =~= Map::empty(),
{
    tera::Context::new()
}

/// `serde_json::from_str` and `tera::Context::insert`: reads the text as a
/// JSON value and puts the value under the key, in place of what stood
/// there. A text that is not read leaves the bindings as they were.
#[verifier::external_body]
pub(crate) fn insert_json(context: &mut tera::Context, key: &str, json: &str) -> (r: Result<
    (),
    serde_json::Error,
>)
    ensures
        r is Ok <==> reads_as_json(json@),
        r is Ok ==> context_values(*final(context)) == context_values(*old(context)).insert(
            key@,
            json_as_written(json@),
        ),
        r is Err ==> context_values(*final(context)) == context_values(*old(context)),
{
    let value: serde_json::Value = serde_json::from_str(json)?;
    context.insert(key, &value);
    Ok(())
}

/// `tera::Tera::render`: renders the named template with the bindings. A
/// template that the engine holds has to be one that it renders to the
/// end; a name that it does not hold is looked up first and refused. The
/// text that comes back is the template's own and may depend on more than
/// the arguments, so nothing is claimed of it. The call fails where the
/// engine holds no template of that name and where the substitution fails;
/// the contract states the first.
#[verifier::external_body]
pub(crate) fn render_template(tera: &tera::Tera, template: &str, context: &tera::Context) -> (r:
    Result<String, tera::Error>)
    requires
        template_names(*tera).contains(template@) ==> steady_templates(*tera).contains(template@),
    ensures
        r is Ok ==> template_names(*tera).contains(template@) && steady_templates(*tera).contains(
            template@,
        ),
{
    tera.render(template, context)
}

/// What the renderer knows of a target language.
pub struct Language {
    /// The extension of source files, which also names the templates.
    pub source_file_ext: String,
    /// The casing policy.
    pub variable_name_options: VariableNameOptions,
    /// The token of each type, by the name of the type.
    pub type_tokens: Vec<(String, String)>,
}

/// A target language and the template engine that holds its templates.
pub struct StubConfig {
    pub language: Language,
    pub tera: tera::Tera,
}

/// Renders one stub for one target language.
pub struct Renderer {
    pub tera: tera::Tera,
    pub lang: Language,
    pub stub: Stub,
}

/// Whether the engine renders every template that it holds to the end.
pub open spec fn steady(tera: tera::Tera) -> bool {
    template_names(tera).subset_of(steady_templates(tera))
}

/// Whether rendering the command at the given nesting level runs out of
/// index letters before any template is asked: in a loop, a loopline or a
/// read of several variables at a level that has no letter, reached through
/// loops alone.
pub open spec fn beyond_letters(c: CmdModel, depth: nat) -> bool
    decreases c,
{
    match c {
        CmdModel::Read(vars) => vars.len() != 1 && depth >= MAX_DEPTH,
        CmdModel::Loop { command, .. } => depth >= MAX_DEPTH || beyond_letters(*command, depth + 1),
        CmdModel::LoopLine { .. } => depth >= MAX_DEPTH,
        _ => false,
    }
}

/// Whether rendering the first `n` of the commands, each at the outermost
/// level, needs an index letter beyond the last.
pub open spec fn any_too_deep(cmds: Seq<CmdModel>, n: nat) -> bool
    decreases cmds, n,
{
    if n == 0 || n > cmds.len() {
        false
    } else {
        any_too_deep(cmds, (n - 1) as nat) || too_deep(cmds[n - 1], 0)
    }
}

/// Whether rendering the command at the given nesting level needs an index
/// letter beyond the last: for a loop, a loopline or a read of several
/// variables at a level that has no letter. What a wrapper or a batch holds
/// is rendered at the outermost level again.
pub open spec fn too_deep(c: CmdModel, depth: nat) -> bool
    decreases c, 0nat,
{
    match c {
        CmdModel::Read(vars) => vars.len() != 1 && depth >= MAX_DEPTH,
        CmdModel::Write { .. } => false,
        CmdModel::WriteJoin { .. } => false,
        CmdModel::Loop { command, .. } => depth >= MAX_DEPTH || too_deep(*command, depth + 1),
        CmdModel::LoopLine { .. } => depth >= MAX_DEPTH,
        CmdModel::MainWrapper { main_content, .. } => any_too_deep(
            main_content,
            main_content.len(),
        ),
        CmdModel::ReadBatch { line_readers, nested_cmds } => any_too_deep(
            line_readers,
            line_readers.len(),
        ) || any_too_deep(nested_cmds, nested_cmds.len()),
        CmdModel::External { nested_cmds, .. } => any_too_deep(nested_cmds, nested_cmds.len()),
    }
}

/// Whether rendering one of the first `n` commands may ask for the named
/// template.
pub open spec fn any_may_name(cmds: Seq<CmdModel>, n: nat, name: Seq<char>) -> bool
    decreases cmds, n,
{
    if n == 0 || n > cmds.len() {
        false
    } else {
        any_may_name(cmds, (n - 1) as nat, name) || may_name(cmds[n - 1], name)
    }
}

/// Whether rendering the command may ask for the named template, so that a
/// failure of the engine may name it.
pub open spec fn may_name(c: CmdModel, name: Seq<char>) -> bool
    decreases c, 0nat,
{
    match c {
        CmdModel::Read(vars) => if vars.len() == 1 {
            name == "read_one"@
        } else {
            name == "read_many"@
        },
        CmdModel::Write { .. } => name == "write"@,
        CmdModel::WriteJoin { .. } => name == "write_join"@,
        CmdModel::Loop { command, .. } => name == "loop"@ || may_name(*command, name),
        CmdModel::LoopLine { .. } => name == "loopline"@,
        CmdModel::MainWrapper { forward_declarations, main_content } => name == "main_wrapper"@ || (
        forward_declarations.len() > 0 && name == "forward_declaration"@) || any_may_name(
            main_content,
            main_content.len(),
            name,
        ),
        CmdModel::ReadBatch { line_readers, nested_cmds } => name == "read_batch"@ || any_may_name(
            line_readers,
            line_readers.len(),
            name,
        ) || any_may_name(nested_cmds, nested_cmds.len(), name),
        CmdModel::External { template, nested_cmds, .. } => name == template || any_may_name(
            nested_cmds,
            nested_cmds.len(),
            name,
        ),
    }
}

/// Whether the error is the one of a nesting that is too deep.
pub open spec fn is_nesting_error(r: Result<String, RenderError>) -> bool {
    r is Err && r->Err_0@ == RenderErrorModel::NestingTooDeep
}

/// What the renderer makes of the template engine's answer for the named
/// template: the text as it came, or the error that names the template.
pub fn template_outcome(template_name: &str, answer: Result<String, tera::Error>) -> (r: Result<
    String,
    RenderError,
>)
    ensures
        answer is Ok ==> r == Ok::<String, RenderError>(answer->Ok_0),
        answer is Err ==> r is Err && r->Err_0@ == RenderErrorModel::Template(template_name@),
{
    match answer {
        Ok(text) => Ok(text),
        Err(_) => Err(RenderError::Template(String::from_str(template_name))),
    }
}

/// What bindings hold after the first `n` of the members were put into
/// them, one after the other.
pub open spec fn filled(members: Seq<(Seq<char>, Seq<char>)>, n: nat) -> Map<Seq<char>, Seq<char>>
    decreases n,
{
    if n == 0 || n > members.len() {
        Map::empty()
    } else {
        filled(members, (n - 1) as nat).insert(members[n - 1].0, json_as_written(members[n - 1].1))
    }
}

/// Whether the value of every member is read as JSON.
pub open spec fn all_read(members: Seq<(Seq<char>, Seq<char>)>) -> bool {
    forall|i: int| 0 <= i < members.len() ==> reads_as_json(#[trigger] members[i].1)
}

/// The bindings that hold the members, each value under its key and a later
/// one in place of an earlier one with the same key. There are none where
/// a value is not read as JSON.
pub fn context_of(members: &Vec<(String, String)>) -> (r: Option<tera::Context>)
    ensures
        r is Some <==> all_read(members_view(members@)),
        r is Some ==> context_values(r->0) == filled(members_view(members@), members@.len()),
{
    let mut context = new_context();
    let mut i: usize = 0;
    while i < members.len()
        invariant
            i <= members@.len(),
            context_values(context) == filled(members_view(members@), i as nat),
            forall|j: int| 0 <= j < i ==> reads_as_json(#[trigger] members_view(members@)[j].1),
        decreases members@.len() - i,
    {
        match insert_json(&mut context, members[i].0.as_str(), members[i].1.as_str()) {
            Ok(_) => {},
            Err(_) => {
                assert(!reads_as_json(members_view(members@)[i as int].1));
                return None;
            },
        }
        i += 1;
    }
    Some(context)
}

/// The texts, one after the other, as one text.
pub fn joined(texts: &Vec<String>) -> (r: String)
    ensures
        r@ == strings_view(texts@).flatten(),
{
    let ghost all = strings_view(texts@);
    let mut r: String = String::new();
    let mut i: usize = 0;
    assert(all.take(0).flatten() =~= Seq::<char>::empty());
    while i < texts.len()
        invariant
            i <= texts@.len(),
            all == strings_view(texts@),
            r@ == all.take(i as int).flatten(),
        decreases texts@.len() - i,
    {
        r.append(texts[i].as_str());
        i += 1;
        proof {
            let before = all.take(i - 1);
            let last = seq![all[i - 1]];
            assert(all.take(i as int) =~= before + last);
            vstd::seq_lib::lemma_flatten_concat(before, last);
            assert(last.flatten() =~= all[i - 1]) by {
                assert(last.drop_first() =~= Seq::<Seq<char>>::empty());
                assert(last.drop_first().flatten() =~= Seq::<char>::empty());
            }
        }
    }
    assert(all.take(i as int) =~= all);
    r
}

impl Renderer {
    /// The engine renders every template that it holds to the end.
    pub open spec fn wf(&self) -> bool {
        steady(self.tera)
    }

    /// The casing policy of the language.
    pub open spec fn policy(&self) -> VariableNameOptions {
        self.lang.variable_name_options
    }

    /// The model of the type tokens of the language.
    pub open spec fn tokens(&self) -> Seq<(Seq<char>, Seq<char>)> {
        members_view(self.lang.type_tokens@)
    }

    /// Whether the engine holds the named template for the language of this
    /// renderer.
    pub open spec fn holds_template(&self, template_name: Seq<char>) -> bool {
        template_names(self.tera).contains(
            template_file(template_name, self.lang.source_file_ext@),
        )
    }

    /// What the engine needs at least to render the named template with the
    /// bindings: it holds the template for the language of this renderer,
    /// and the value of every binding is read as JSON.
    pub open spec fn accepts(
        &self,
        template_name: Seq<char>,
        bindings: Seq<(Seq<char>, Seq<char>)>,
    ) -> bool {
        self.holds_template(template_name) && all_read(bindings)
    }

    /// What a text for the first `n` commands shows: what a text for each
    /// of them shows, rendered at the outermost level.
    pub open spec fn all_asked(&self, cmds: Seq<CmdModel>, n: nat) -> bool
        decreases cmds, n,
    {
        if n == 0 || n > cmds.len() {
            true
        } else {
            self.all_asked(cmds, (n - 1) as nat) && self.asked(cmds[n - 1], 0)
        }
    }

    /// What a text for the command at the given nesting level shows: the
    /// engine accepted the template of the command with the bindings that
    /// belong to it. A read of one variable asks `read_one`, any other read
    /// `read_many`; a loop is rendered after its body, which stands one
    /// level deeper, and hands the lines of the body's text to `loop`; a
    /// wrapper, a batch and an external node are rendered after what they
    /// hold.
    pub open spec fn asked(&self, c: CmdModel, depth: nat) -> bool
        decreases c, 0nat,
    {
        match c {
            CmdModel::Read(vars) => if vars.len() == 1 {
                self.accepts("read_one"@, read_one_bindings(self.policy(), self.tokens(), vars[0]))
            } else {
                depth < MAX_DEPTH && self.accepts(
                    "read_many"@,
                    read_many_bindings(self.policy(), self.tokens(), vars, depth as int),
                )
            },
            CmdModel::Write { lines, output_comment } => self.accepts(
                "write"@,
                write_bindings(lines, output_comment),
            ),
            CmdModel::WriteJoin { join_terms, output_comment } => self.accepts(
                "write_join"@,
                write_join_bindings(self.policy(), self.tokens(), join_terms, output_comment),
            ),
            CmdModel::Loop { count_var, command } => depth < MAX_DEPTH && self.asked(
                *command,
                depth + 1,
            ) && self.looped(count_var, depth),
            CmdModel::LoopLine { count_var, variables } => depth < MAX_DEPTH && self.accepts(
                "loopline"@,
                loopline_bindings(
                    self.policy(),
                    self.tokens(),
                    count_var,
                    variables,
                    depth as int,
                ),
            ),
            CmdModel::MainWrapper { forward_declarations, main_content } => self.all_asked(
                main_content,
                main_content.len(),
            ) && self.declared(forward_declarations),
            CmdModel::ReadBatch { line_readers, nested_cmds } => self.all_asked(
                line_readers,
                line_readers.len(),
            ) && self.all_asked(nested_cmds, nested_cmds.len()) && self.batched(),
            CmdModel::External { template, bindings, nested_cmds } => self.all_asked(
                nested_cmds,
                nested_cmds.len(),
            ) && self.handed_on(template, bindings),
        }
    }

    /// What a text for an external node shows of the node itself: the
    /// engine accepted the node's template with the node's bindings and the
    /// lines of some text.
    pub open spec fn handed_on(
        &self,
        template: Seq<char>,
        bindings: Seq<(Seq<char>, Seq<char>)>,
    ) -> bool {
        exists|nested: Seq<char>|
            self.accepts(template, #[trigger] external_bindings(bindings, nested))
    }

    /// What a text for a loop shows of the loop itself: the engine accepted
    /// the template `loop` with the count variable transformed, the lines
    /// of some text and the index letter of the nesting level.
    pub open spec fn looped(&self, count_var: Seq<char>, depth: nat) -> bool {
        exists|inner: Seq<char>|
            self.accepts(
                "loop"@,
                #[trigger] loop_bindings(self.policy(), count_var, inner, depth as int),
            )
    }

    /// What a text for a read batch shows of the batch itself: the engine
    /// accepted the template `read_batch` with the lines of two texts.
    pub open spec fn batched(&self) -> bool {
        exists|reads: Seq<char>, nested: Seq<char>|
            self.accepts("read_batch"@, #[trigger] read_batch_bindings(reads, nested))
    }

    /// What a text for hoisted declarations shows: the engine accepted the
    /// template `forward_declaration` with each declaration as it was
    /// parsed, and the template `main_wrapper` with as many rendered
    /// declarations and the lines of some text.
    pub open spec fn declared(&self, forward_declarations: Seq<VariableModel>) -> bool {
        &&& forall|j: int|
            0 <= j < forward_declarations.len() ==> self.accepts(
                "forward_declaration"@,
                forward_declaration_bindings(#[trigger] forward_declarations[j]),
            )
        &&& exists|declarations: Seq<Seq<char>>, code: Seq<char>|
            declarations.len() == forward_declarations.len() && self.accepts(
                "main_wrapper"@,
                #[trigger] main_wrapper_bindings(declarations, code),
            )
    }

    /// What holds of the rendering of a command at a nesting level, whatever
    /// the engine answers. Where the level has no index letter before any
    /// template is asked, the result is the nesting error; where the
    /// nesting is too deep anywhere, there is no text. A text shows what
    /// was asked of the engine; a nesting error comes only where the
    /// nesting is too deep, and a template error names a template that the
    /// command asks for.
    pub open spec fn answers(&self, c: CmdModel, depth: nat, r: Result<String, RenderError>) -> bool {
        &&& beyond_letters(c, depth) ==> is_nesting_error(r)
        &&& too_deep(c, depth) ==> r is Err
        &&& r is Ok ==> self.asked(c, depth)
        &&& r is Err ==> match r->Err_0@ {
            RenderErrorModel::NestingTooDeep => too_deep(c, depth),
            RenderErrorModel::Template(name) => may_name(c, name),
        }
    }

    /// What holds of the rendering of commands one after the other, each at
    /// the outermost level, whatever the engine answers.
    pub open spec fn answers_all(&self, cmds: Seq<CmdModel>, r: Result<String, RenderError>) -> bool {
        &&& cmds.len() > 0 && beyond_letters(cmds[0], 0) ==> is_nesting_error(r)
        &&& any_too_deep(cmds, cmds.len()) ==> r is Err
        &&& r is Ok ==> self.all_asked(cmds, cmds.len())
        &&& r is Err ==> match r->Err_0@ {
            RenderErrorModel::NestingTooDeep => any_too_deep(cmds, cmds.len()),
            RenderErrorModel::Template(name) => any_may_name(cmds, cmds.len(), name),
        }
    }

    /// A renderer of the stub for the language of the configuration.
    pub fn new(config: StubConfig, stub: Stub) -> (r: Result<Renderer, RenderError>)
        ensures
            r is Ok,
            r->Ok_0.tera == config.tera,
            r->Ok_0.lang == config.language,
            r->Ok_0.stub == stub,
    {
        Ok(Renderer { lang: config.language, tera: config.tera, stub })
    }

    /// The text that the named template of the language makes of the
    /// bindings, each a key and a JSON value. There is a text only where
    /// every value is read and the engine holds that template; where a value
    /// is not read, the engine is not asked. Any failure names the template.
    pub fn tera_render(&self, template_name: &str, bindings: &Vec<(String, String)>) -> (r: Result<
        String,
        RenderError,
    >)
        requires
            self.wf(),
        ensures
            !all_read(members_view(bindings@)) ==> r is Err,
            r is Ok ==> self.accepts(template_name@, members_view(bindings@)),
            r is Err ==> r->Err_0@ == RenderErrorModel::Template(template_name@),
    {
        let context = match context_of(bindings) {
            Some(context) => context,
            None => {
                return Err(RenderError::Template(String::from_str(template_name)));
            },
        };
        let file = template_file_name(template_name, self.lang.source_file_ext.as_str());
        template_outcome(template_name, render_template(&self.tera, file.as_str(), &context))
    }

    /// The text of a `write`: what the template `write` makes of the lines
    /// and the output text. There is a text only where the engine accepts
    /// that template with those bindings; any failure names the template.
    pub fn render_write(&self, lines: &Vec<String>, output_comments: &Vec<String>) -> (r: Result<
        String,
        RenderError,
    >)
        requires
            self.wf(),
        ensures
            r is Ok ==> self.accepts(
                "write"@,
                write_bindings(strings_view(lines@), strings_view(output_comments@)),
            ),
            r is Err ==> r->Err_0@ == RenderErrorModel::Template("write"@),
    {
        let bindings = write_context(lines, output_comments);
        self.tera_render("write", &bindings)
    }

    /// The text of a joined `write`: what the template `write_join` makes
    /// of the terms, with the names of variables written as the language's
    /// policy has them and literals as they are, of the type tokens and of
    /// the output text. There is a text only where the engine accepts that
    /// template with those bindings; any failure names the template.
    pub fn render_write_join(&self, terms: &Vec<JoinTerm>, output_comments: &Vec<String>) -> (r:
        Result<String, RenderError>)
        requires
            self.wf(),
        ensures
            r is Ok ==> self.accepts(
                "write_join"@,
                write_join_bindings(
                    self.policy(),
                    self.tokens(),
                    join_terms_view(terms@),
                    strings_view(output_comments@),
                ),
            ),
            r is Err ==> r->Err_0@ == RenderErrorModel::Template("write_join"@),
    {
        let bindings = write_join_context(
            &self.lang.variable_name_options,
            &self.lang.type_tokens,
            terms,
            output_comments,
        );
        self.tera_render("write_join", &bindings)
    }

    /// The text of a `read` of one variable: what the template `read_one`
    /// makes of the variable, written as the language's policy has it, and
    /// of the type tokens. There is a text only where the engine accepts
    /// that template with those bindings; any failure names the template.
    pub fn render_read_one(&self, var: &VariableCommand) -> (r: Result<String, RenderError>)
        requires
            self.wf(),
        ensures
            r is Ok ==> self.accepts(
                "read_one"@,
                read_one_bindings(self.policy(), self.tokens(), var@),
            ),
            r is Err ==> r->Err_0@ == RenderErrorModel::Template("read_one"@),
    {
        let bindings = read_one_context(
            &self.lang.variable_name_options,
            &self.lang.type_tokens,
            var,
        );
        self.tera_render("read_one", &bindings)
    }

    /// The text of a `read` of no or several variables: what the template
    /// `read_many` makes of the variables, written as the language's policy
    /// has them, of their one kind if they have one, of the type tokens and
    /// of the index letter of the nesting level. At a level without an
    /// index letter the result is the nesting error and the engine is not
    /// asked; any other failure names the template.
    pub fn render_read_many(&self, vars: &Vec<VariableCommand>, nesting_depth: usize) -> (r:
        Result<String, RenderError>)
        requires
            self.wf(),
        ensures
            nesting_depth >= MAX_DEPTH ==> is_nesting_error(r),
            r is Ok ==> self.accepts(
                "read_many"@,
                read_many_bindings(
                    self.policy(),
                    self.tokens(),
                    variables_view(vars@),
                    nesting_depth as int,
                ),
            ),
            r is Err && nesting_depth < MAX_DEPTH ==> r->Err_0@ == RenderErrorModel::Template(
                "read_many"@,
            ),
    {
        match read_many_context(
            &self.lang.variable_name_options,
            &self.lang.type_tokens,
            vars,
            nesting_depth,
        ) {
            Ok(bindings) => self.tera_render("read_many", &bindings),
            Err(e) => Err(e),
        }
    }

    /// The text of a `read`: by the template `read_one`, with the variable
    /// transformed, where it binds exactly one variable; else by the
    /// template `read_many`, with every variable transformed and the index
    /// letter of the nesting level.
    pub fn render_read(&self, vars: &Vec<VariableCommand>, nesting_depth: usize) -> (r: Result<
        String,
        RenderError,
    >)
        requires
            self.wf(),
        ensures
            self.answers(CmdModel::Read(variables_view(vars@)), nesting_depth as nat, r),
    {
        if vars.len() == 1 {
            assert(variables_view(vars@)[0] == vars@[0]@);
            self.render_read_one(&vars[0])
        } else {
            self.render_read_many(vars, nesting_depth)
        }
    }

    /// The text of a `loopline`: what the template `loopline` makes of the
    /// count variable and the variables, written as the language's policy
    /// has them, of the type tokens and of the index letter of the nesting
    /// level. At a level without an index letter the result is the nesting
    /// error and the engine is not asked; any other failure names the
    /// template.
    pub fn render_loopline(
        &self,
        count_var: &str,
        vars: &Vec<VariableCommand>,
        nesting_depth: usize,
    ) -> (r: Result<String, RenderError>)
        requires
            self.wf(),
        ensures
            self.answers(
                CmdModel::LoopLine { count_var: count_var@, variables: variables_view(vars@) },
                nesting_depth as nat,
                r,
            ),
    {
        match loopline_context(
            &self.lang.variable_name_options,
            &self.lang.type_tokens,
            count_var,
            vars,
            nesting_depth,
        ) {
            Ok(bindings) => self.tera_render("loopline", &bindings),
            Err(e) => Err(e),
        }
    }

    /// The text of a `loop`: the body is rendered one level deeper, and the
    /// template `loop` makes the text of the count variable, written as the
    /// language's policy has it, of the lines of the body's text and of the
    /// index letter of the nesting level. At a level without an index
    /// letter the result is the nesting error, and neither the body is
    /// rendered nor the engine asked.
    pub fn render_loop(&self, count_var: &str, cmd: &Cmd, nesting_depth: usize) -> (r: Result<
        String,
        RenderError,
    >)
        requires
            self.wf(),
        ensures
            self.answers(
                CmdModel::Loop { count_var: count_var@, command: Box::new(cmd@) },
                nesting_depth as nat,
                r,
            ),
        decreases cmd, 1nat,
    {
        if nesting_depth >= MAX_DEPTH {
            return Err(RenderError::NestingTooDeep);
        }
        let inner = match self.render_command(cmd, nesting_depth + 1) {
            Ok(text) => text,
            Err(e) => {
                return Err(e);
            },
        };
        match loop_context(
            &self.lang.variable_name_options,
            count_var,
            inner.as_str(),
            nesting_depth,
        ) {
            Ok(bindings) => {
                let r = self.tera_render("loop", &bindings);
                proof {
                    if r is Ok {
                        assert(self.accepts(
                            "loop"@,
                            loop_bindings(self.policy(), count_var@, inner@, nesting_depth as int),
                        ));
                        assert(self.looped(count_var@, nesting_depth as nat));
                    }
                }
                r
            },
            Err(e) => Err(e),
        }
    }

    /// The texts of the commands, each rendered at the outermost level, one
    /// after the other as one text. The first command that fails ends the
    /// rendering with its error.
    pub fn render_commands(&self, cmds: &Vec<Cmd>) -> (r: Result<String, RenderError>)
        requires
            self.wf(),
        ensures
            self.answers_all(cmds_view(cmds@), r),
        decreases cmds, 1nat,
    {
        let ghost all = cmds_view(cmds@);
        let mut texts: Vec<String> = Vec::new();
        let mut i: usize = 0;
        while i < cmds.len()
            invariant
                self.wf(),
                i <= cmds@.len(),
                all == cmds_view(cmds@),
                !any_too_deep(all, i as nat),
                self.all_asked(all, i as nat),
                i > 0 ==> !beyond_letters(all[0], 0),
            decreases cmds@.len() - i,
        {
            assert(all[i as int] == cmds@[i as int]@);
            match self.render_command(&cmds[i], 0) {
                Ok(text) => {
                    texts.push(text);
                },
                Err(e) => {
                    proof {
                        match e@ {
                            RenderErrorModel::NestingTooDeep => {
                                lemma_any_too_deep_grows(all, (i + 1) as nat, cmds@.len());
                            },
                            RenderErrorModel::Template(name) => {
                                lemma_any_may_name_grows(all, (i + 1) as nat, cmds@.len(), name);
                            },
                        }
                    }
                    return Err(e);
                },
            }
            i += 1;
        }
        Ok(joined(&texts))
    }

    /// The text of hoisted declarations and of the commands that they
    /// precede, given the text of those commands. Each declaration, as it
    /// was parsed, is rendered by the template `forward_declaration`, and
    /// the texts of the declarations and the lines of the commands by the
    /// template `main_wrapper`. There is a text only where the engine
    /// accepts every declaration and the whole; a failure names the
    /// template that failed, which is that of a declaration only where
    /// there is one.
    pub fn render_main_wrapper(&self, forward_declarations: &Vec<VariableCommand>, code: &str) -> (r:
        Result<String, RenderError>)
        requires
            self.wf(),
        ensures
            r is Ok ==> self.declared(variables_view(forward_declarations@)),
            r is Ok ==> exists|declarations: Seq<Seq<char>>|
                declarations.len() == forward_declarations@.len() && self.accepts(
                    "main_wrapper"@,
                    #[trigger] main_wrapper_bindings(declarations, code@),
                ),
            r is Err ==> (forward_declarations@.len() > 0 && r->Err_0@
                == RenderErrorModel::Template("forward_declaration"@)) || r->Err_0@
                == RenderErrorModel::Template("main_wrapper"@),
    {
        let ghost all = variables_view(forward_declarations@);
        let mut declarations: Vec<String> = Vec::new();
        let mut i: usize = 0;
        while i < forward_declarations.len()
            invariant
                self.wf(),
                i <= forward_declarations@.len(),
                declarations@.len() == i,
                all == variables_view(forward_declarations@),
                forall|j: int|
                    0 <= j < i ==> self.accepts(
                        "forward_declaration"@,
                        forward_declaration_bindings(#[trigger] all[j]),
                    ),
            decreases forward_declarations@.len() - i,
        {
            assert(all[i as int] == forward_declarations@[i as int]@);
            let bindings = forward_declaration_context(&forward_declarations[i]);
            match self.tera_render("forward_declaration", &bindings) {
                Ok(text) => {
                    declarations.push(text);
                },
                Err(e) => {
                    return Err(e);
                },
            }
            i += 1;
        }
        let bindings = main_wrapper_context(&declarations, code);
        let r = self.tera_render("main_wrapper", &bindings);
        assert(r is Ok ==> self.accepts(
            "main_wrapper"@,
            main_wrapper_bindings(strings_view(declarations@), code@),
        ));
        r
    }

    /// The text of a read batch, given the texts of its reads and of the
    /// commands nested in it: what the template `read_batch` makes of the
    /// lines of both that are not empty. There is a text only where the
    /// engine accepts that template with those bindings; any failure names
    /// the template.
    pub fn render_read_batch(&self, reads: &str, nested: &str) -> (r: Result<String, RenderError>)
        requires
            self.wf(),
        ensures
            r is Ok ==> self.accepts("read_batch"@, read_batch_bindings(reads@, nested@)),
            r is Err ==> r->Err_0@ == RenderErrorModel::Template("read_batch"@),
    {
        let bindings = read_batch_context(reads, nested);
        self.tera_render("read_batch", &bindings)
    }

    /// The text of an external node, given the text of the commands nested
    /// in it: what the node's own template makes of the bindings that the
    /// node carries and of the lines of that text. There is a text only
    /// where the engine accepts that template with those bindings; any
    /// failure names the template.
    pub fn render_external(
        &self,
        template: &str,
        bindings: &Vec<(String, String)>,
        nested: &str,
    ) -> (r: Result<String, RenderError>)
        requires
            self.wf(),
        ensures
            r is Ok ==> self.accepts(
                template@,
                external_bindings(members_view(bindings@), nested@),
            ),
            r is Err ==> r->Err_0@ == RenderErrorModel::Template(template@),
    {
        let members = external_context(bindings, nested);
        self.tera_render(template, &members)
    }

    /// The text of a command at the given nesting level, by the template of
    /// its kind and with the bindings that belong to it.
    pub fn render_command(&self, cmd: &Cmd, nesting_depth: usize) -> (r: Result<
        String,
        RenderError,
    >)
        requires
            self.wf(),
        ensures
            self.answers(cmd@, nesting_depth as nat, r),
        decreases cmd, 0nat,
    {
        match cmd {
            Cmd::Read(vars) => self.render_read(vars, nesting_depth),
            Cmd::Write { lines, output_comment } => self.render_write(lines, output_comment),
            Cmd::WriteJoin { join_terms, output_comment } => self.render_write_join(
                join_terms,
                output_comment,
            ),
            Cmd::Loop { count_var, command } => self.render_loop(
                count_var.as_str(),
                command,
                nesting_depth,
            ),
            Cmd::LoopLine { count_var, variables } => self.render_loopline(
                count_var.as_str(),
                variables,
                nesting_depth,
            ),
            Cmd::MainWrapper { forward_declarations, main_content } => {
                match self.render_commands(main_content) {
                    Ok(code) => self.render_main_wrapper(forward_declarations, code.as_str()),
                    Err(e) => Err(e),
                }
            },
            Cmd::ReadBatch { line_readers, nested_cmds } => {
                let nested = match self.render_commands(nested_cmds) {
                    Ok(text) => text,
                    Err(e) => {
                        return Err(e);
                    },
                };
                match self.render_commands(line_readers) {
                    Ok(reads) => {
                        let r = self.render_read_batch(reads.as_str(), nested.as_str());
                        assert(r is Ok ==> self.accepts(
                            "read_batch"@,
                            read_batch_bindings(reads@, nested@),
                        ));
                        r
                    },
                    Err(e) => Err(e),
                }
            },
            Cmd::External { template, bindings, nested_cmds } => {
                match self.render_commands(nested_cmds) {
                    Ok(nested) => {
                        let r = self.render_external(template.as_str(), bindings, nested.as_str());
                        assert(r is Ok ==> self.accepts(
                            template@,
                            external_bindings(members_view(bindings@), nested@),
                        ));
                        r
                    },
                    Err(e) => Err(e),
                }
            },
        }
    }

    /// The source text of the stub: what the template `main` makes of the
    /// statement and of the lines of the text of the commands, each
    /// rendered at the outermost level. Where the nesting is too deep
    /// anywhere there is no text; a nesting error comes only there, and a
    /// template error names `main` or a template that a command asks for.
    pub fn render(&self) -> (r: Result<String, RenderError>)
        requires
            self.wf(),
        ensures
            any_too_deep(self.stub@.commands, self.stub@.commands.len()) ==> r is Err,
            self.stub@.commands.len() > 0 && beyond_letters(self.stub@.commands[0], 0)
                ==> is_nesting_error(r),
            r is Ok ==> self.all_asked(self.stub@.commands, self.stub@.commands.len()) && exists|
                code: Seq<char>,
            |
                self.accepts("main"@, #[trigger] main_bindings(self.stub@.statement, code)),
            r is Err ==> match r->Err_0@ {
                RenderErrorModel::NestingTooDeep => any_too_deep(
                    self.stub@.commands,
                    self.stub@.commands.len(),
                ),
                RenderErrorModel::Template(name) => name == "main"@ || any_may_name(
                    self.stub@.commands,
                    self.stub@.commands.len(),
                    name,
                ),
            },
    {
        let code = match self.render_commands(&self.stub.commands) {
            Ok(text) => text,
            Err(e) => {
                return Err(e);
            },
        };
        let bindings = main_context(self.stub.statement.as_str(), code.as_str());
        let r = self.tera_render("main", &bindings);
        assert(r is Ok ==> self.accepts("main"@, main_bindings(self.stub@.statement, code@)));
        r
    }
}

/// Where the first commands are too deep, more of them are.
pub proof fn lemma_any_too_deep_grows(cmds: Seq<CmdModel>, n: nat, m: nat)
    requires
        n <= m <= cmds.len(),
        any_too_deep(cmds, n),
    ensures
        any_too_deep(cmds, m),
    decreases m - n,
{
    if n < m {
        lemma_any_too_deep_grows(cmds, n, (m - 1) as nat);
    }
}

/// A template that the first commands may ask for, more of them may ask
/// for.
pub proof fn lemma_any_may_name_grows(cmds: Seq<CmdModel>, n: nat, m: nat, name: Seq<char>)
    requires
        n <= m <= cmds.len(),
        any_may_name(cmds, n, name),
    ensures
        any_may_name(cmds, m, name),
    decreases m - n,
{
    if n < m {
        lemma_any_may_name_grows(cmds, n, (m - 1) as nat, name);
    }
}

} // verus!
