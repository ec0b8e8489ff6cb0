//! The parser: from the text of a stub generator to a [`Stub`].

use vstd::prelude::*;
use vstd::string::*;
use crate::error::{result_view, SyntaxError, SyntaxErrorModel};
use crate::grammar::{
    after_line, block_items, block_text, bounded_pattern, comma_pattern, empty_stub, input_block,
    input_comments, is_blank, join_pattern, join_start, join_term_of, join_terms, join_text,
    lemma_input_block_bounds, lemma_line_end_bounds, lemma_loop_cmd_bounds,
    lemma_loopline_cmd_bounds, lemma_skip_blank_bounds, lemma_statement_bounds,
    lemma_variable_list_bounds, lemma_write_cmd_bounds, length_type_of, line_end, line_text,
    loop_cmd, loopable_cmd, loopline_cmd, names_variable, newline, opens_join, parse_from,
    is_scalar_type, parsed, parsed_tokens, parsed_variable, patched, patched_cmd, quoted_pattern, read_cmd,
    skip_blank, statement_text, terms_of_pieces, variable_list, variable_of, with_command,
    write_cmd, write_join_cmd, Step,
};
use crate::pattern::{capture_group, option_text, regex_compiles, regex_group, split_at_matches};
use crate::text::{
    chars_of, clone_strings, contains_char, contains_text, join_strings, lines_of, push_char,
    spells, string_of, string_of_range, trim_end,
};
use crate::tokenizer::{split, tokenize, tokens_of, tokens_view};
use crate::types::{
    cmds_view, input_comments_view, join_terms_view, lemma_cmds_view_push, strings_view,
    variables_view, Cmd, CmdModel, InputComment, InputCommentModel, JoinTerm, JoinTermModel,
    JoinTermType, LengthType, Stub, StubModel, VariableCommand, VariableModel,
};

verus! {

/// Whether a token ends a line.
pub fn ends_line(token: &Vec<char>) -> (b: bool)
    ensures
        b == (token@ == newline()),
{
    let b = token.len() == 1 && token[0] == '\n';
    assert(b ==> token@ =~= newline());
    b
}

/// Whether a token is empty or ends a line.
pub fn blank(token: &Vec<char>) -> (b: bool)
    ensures
        b == is_blank(token@),
{
    token.len() == 0 || ends_line(token)
}

/// The string made of a line break and the characters of a token.
fn on_new_line(token: &Vec<char>) -> (s: String)
    ensures
        s@ == newline() + token@,
{
    let mut s: String = String::new();
    push_char(&mut s, '\n');
    let mut i: usize = 0;
    while i < token.len()
        invariant
            i <= token@.len(),
            s@ == newline() + token@.take(i as int),
        decreases token@.len() - i,
    {
        push_char(&mut s, token[i]);
        i += 1;
        assert(s@ =~= newline() + token@.take(i as int));
    }
    assert(token@.take(i as int) =~= token@);
    s
}

/// The pattern of the type of a bounded variable.
pub fn bounded_pattern_text() -> (r: &'static str)
    ensures
        r@ == bounded_pattern(),
{
    "(word|string)\\((\\w+)\\)"
}

/// How a bound is given: by a decimal literal or by a variable's name.
pub fn length_type(bound: &str) -> (r: LengthType)
    ensures
        r == length_type_of(bound@),
{
    let chars = chars_of(bound);
    if chars.len() == 0 {
        return LengthType::Variable;
    }
    let mut i: usize = 0;
    while i < chars.len()
        invariant
            chars@ == bound@,
            i <= chars@.len(),
            forall|j: int| 0 <= j < i ==> '0' <= #[trigger] chars@[j] <= '9',
        decreases chars@.len() - i,
    {
        if !('0' <= chars[i] && chars[i] <= '9') {
            return LengthType::Variable;
        }
        i += 1;
    }
    LengthType::Number
}

/// Whether a type is one of the scalar types.
pub fn is_scalar(var_type: &str) -> (b: bool)
    ensures
        b == is_scalar_type(var_type@),
{
    let chars = chars_of(var_type);
    spells(&chars, "int") || spells(&chars, "float") || spells(&chars, "long") || spells(
        &chars,
        "bool",
    )
}

/// Whether an optional string is present and spells the word.
fn is_word(found: &Option<String>, word: &str) -> (b: bool)
    ensures
        b == (option_text(*found) is Some && option_text(*found)->0 == word@),
{
    match found {
        Some(s) => spells(&chars_of(s.as_str()), word),
        None => false,
    }
}

/// The variable that a token declares, given its name, its type without
/// white space at the end, and what the pattern of bounded types found in the
/// type: the kind and the bound. The scalar types are recognised by their
/// names; any other type is bounded, a `word` or a `string` by its kind, or
/// is unknown.
pub fn variable_from(
    token: &str,
    name: String,
    var_type: &str,
    kind: Option<String>,
    bound: Option<String>,
) -> (r: Result<VariableCommand, SyntaxError>)
    ensures
        result_view(r) == variable_of(
            token@,
            name@,
            var_type@,
            option_text(kind),
            option_text(bound),
        ),
{
    let chars = chars_of(var_type);
    if spells(&chars, "int") {
        Ok(VariableCommand::Int { name })
    } else if spells(&chars, "float") {
        Ok(VariableCommand::Float { name })
    } else if spells(&chars, "long") {
        Ok(VariableCommand::Long { name })
    } else if spells(&chars, "bool") {
        Ok(VariableCommand::Bool { name })
    } else {
        let word = is_word(&kind, "word");
        let string = is_word(&kind, "string");
        match bound {
            Some(max_length) => {
                let length_type = length_type(max_length.as_str());
                if max_length.as_str().unicode_len() == 0 {
                    Err(SyntaxError::UnknownType(String::from_str(token)))
                } else if word {
                    Ok(VariableCommand::Word { name, max_length, length_type })
                } else if string {
                    Ok(VariableCommand::String { name, max_length, length_type })
                } else {
                    Err(SyntaxError::UnknownType(String::from_str(token)))
                }
            },
            None => Err(SyntaxError::UnknownType(String::from_str(token))),
        }
    }
}

/// The pattern of a `join` call and its arguments.
pub fn join_pattern_text() -> (r: &'static str)
    ensures
        r@ == join_pattern(),
{
    "join\\((.+)\\)"
}

/// The pattern that separates the arguments of a `join` call.
pub fn comma_pattern_text() -> (r: &'static str)
    ensures
        r@ == comma_pattern(),
{
    "\\s*,\\s*"
}

/// The pattern of a quoted argument of a `join` call.
pub fn quoted_pattern_text() -> (r: &'static str)
    ensures
        r@ == quoted_pattern(),
{
    "^\"(.+)\"$"
}

/// The lines of a text: none for the empty text, else its pieces between
/// line breaks.
pub fn lines(text: &str) -> (r: Vec<String>)
    ensures
        strings_view(r@) == lines_of(text@),
{
    let chars = chars_of(text);
    let mut r: Vec<String> = Vec::new();
    if chars.len() == 0 {
        assert(strings_view(r@) =~= Seq::<Seq<char>>::empty());
        return r;
    }
    let pieces = split(&chars, '\n');
    let mut i: usize = 0;
    while i < pieces.len()
        invariant
            i <= pieces@.len(),
            strings_view(r@) == tokens_view(pieces@).take(i as int),
        decreases pieces@.len() - i,
    {
        let ghost before = strings_view(r@);
        r.push(string_of(&pieces[i]));
        i += 1;
        assert(strings_view(r@) =~= before.push(tokens_view(pieces@)[i - 1]));
        assert(strings_view(r@) =~= tokens_view(pieces@).take(i as int));
    }
    assert(tokens_view(pieces@).take(i as int) =~= tokens_view(pieces@));
    r
}

/// The term that one argument of a `join` call stands for, given what the
/// pattern of quoted arguments found in it: the text between the quotes as
/// a literal, or the argument itself as a variable.
pub fn join_term(piece: String, quoted: Option<String>) -> (r: JoinTerm)
    ensures
        r@ == join_term_of(piece@, option_text(quoted)),
{
    match quoted {
        Some(inner) => JoinTerm { name: inner, term_type: JoinTermType::Literal },
        None => JoinTerm { name: piece, term_type: JoinTermType::Variable },
    }
}

/// The terms of the arguments of a `join` call: each argument is a literal
/// where it is quoted, else a variable.
pub fn terms_from(pieces: &Vec<String>) -> (r: Result<Vec<JoinTerm>, SyntaxError>)
    ensures
        match terms_of_pieces(strings_view(pieces@)) {
            Ok(terms) => r is Ok && join_terms_view(r->Ok_0@) == terms,
            Err(e) => r is Err && r->Err_0@ == e,
        },
{
    let ghost all = strings_view(pieces@);
    let mut terms: Vec<JoinTerm> = Vec::new();
    let mut i: usize = 0;
    while i < pieces.len()
        invariant
            i <= pieces@.len(),
            all == strings_view(pieces@),
            i > 0 ==> regex_compiles(quoted_pattern()),
            join_terms_view(terms@) == all.take(i as int).map_values(
                |piece: Seq<char>| join_term_of(piece, regex_group(quoted_pattern(), piece, 1)),
            ),
        decreases pieces@.len() - i,
    {
        let piece = pieces[i].clone();
        assert(piece@ == all[i as int]);
        let quoted = match capture_group(quoted_pattern_text(), piece.as_str(), 1) {
            Ok(found) => found,
            Err(_) => {
                return Err(SyntaxError::PatternRefused);
            },
        };
        let ghost before = join_terms_view(terms@);
        let term = join_term(piece, quoted);
        terms.push(term);
        i += 1;
        proof {
            assert(join_terms_view(terms@) =~= before.push(term@));
            assert(all.take(i as int) =~= all.take(i - 1).push(all[i - 1]));
            assert(join_terms_view(terms@) =~= all.take(i as int).map_values(
                |piece: Seq<char>| join_term_of(piece, regex_group(quoted_pattern(), piece, 1)),
            ));
        }
    }
    assert(all.take(i as int) =~= all);
    Ok(terms)
}

/// The terms of a `join` call, from its text. A text in which the call has
/// no argument is malformed.
pub fn parse_join_terms(raw: &str) -> (r: Result<Vec<JoinTerm>, SyntaxError>)
    ensures
        match join_terms(raw@) {
            Ok(terms) => r is Ok && join_terms_view(r->Ok_0@) == terms,
            Err(e) => r is Err && r->Err_0@ == e,
        },
{
    let arguments = match capture_group(join_pattern_text(), raw, 1) {
        Ok(Some(arguments)) => arguments,
        Ok(None) => {
            return Err(SyntaxError::MalformedJoin(String::from_str(raw)));
        },
        Err(_) => {
            return Err(SyntaxError::PatternRefused);
        },
    };
    let pieces = match split_at_matches(comma_pattern_text(), arguments.as_str()) {
        Ok(pieces) => pieces,
        Err(_) => {
            return Err(SyntaxError::PatternRefused);
        },
    };
    terms_from(&pieces)
}

/// Whether a parsing step gave what the grammar gives: the same command and
/// the position after it, or the same error.
pub open spec fn cmd_step(
    expected: Result<Step<CmdModel>, SyntaxErrorModel>,
    got: Result<Cmd, SyntaxError>,
    pos: int,
) -> bool {
    match expected {
        Ok(step) => got is Ok && got->Ok_0@ == step.value && pos == step.next,
        Err(e) => got is Err && got->Err_0@ == e,
    }
}

/// The command with the output text attached to every `write` in it that
/// has none yet: the command itself, or the one that nested loops lead to.
/// Any other command stays as it is.
pub fn patch_cmd(cmd: Cmd, output: &Vec<String>) -> (r: Cmd)
    ensures
        r@ == patched_cmd(cmd@, strings_view(output@)),
    decreases cmd,
{
    match cmd {
        Cmd::Write { lines, output_comment } => {
            if output_comment.len() == 0 {
                Cmd::Write { lines, output_comment: clone_strings(output) }
            } else {
                Cmd::Write { lines, output_comment }
            }
        },
        Cmd::Loop { count_var, command } => Cmd::Loop {
            count_var,
            command: Box::new(patch_cmd(*command, output)),
        },
        other => other,
    }
}

/// A parser over the tokens of a stub generator, with the position of the
/// next token to read.
pub struct Parser {
    pub tokens: Vec<Vec<char>>,
    pub pos: usize,
}

impl Parser {
    /// The model of the tokens.
    pub open spec fn toks(&self) -> Seq<Seq<char>> {
        tokens_view(self.tokens@)
    }

    /// The position lies within the tokens or at their end.
    pub open spec fn wf(&self) -> bool {
        self.pos <= self.tokens@.len()
    }

    /// A parser at the first of the tokens.
    pub fn new(tokens: Vec<Vec<char>>) -> (r: Self)
        ensures
            r.wf(),
            r.tokens == tokens,
            r.pos == 0,
    {
        Parser { tokens, pos: 0 }
    }

    /// Moves to the token after the next line end, or to the end of the
    /// tokens where no line ends.
    pub fn skip_to_next_line(&mut self)
        requires
            old(self).wf(),
        ensures
            final(self).wf(),
            final(self).tokens == old(self).tokens,
            final(self).pos == after_line(old(self).toks(), old(self).pos as int),
    {
        let ghost t = self.toks();
        let ghost start = self.pos as int;
        while self.pos < self.tokens.len() && !ends_line(&self.tokens[self.pos])
            invariant
                self.wf(),
                self.tokens == old(self).tokens,
                t == self.toks(),
                0 <= start <= self.pos,
                line_end(t, start) == line_end(t, self.pos as int),
            decreases self.tokens@.len() - self.pos,
        {
            self.pos += 1;
        }
        if self.pos < self.tokens.len() {
            self.pos += 1;
        }
    }

    /// The rest of the line, its tokens a space apart; moves to the token
    /// after the line end.
    pub fn read_to_end_of_line(&mut self) -> (r: String)
        requires
            old(self).wf(),
        ensures
            final(self).wf(),
            final(self).tokens == old(self).tokens,
            final(self).pos == after_line(old(self).toks(), old(self).pos as int),
            r@ == line_text(old(self).toks(), old(self).pos as int),
    {
        let ghost t = self.toks();
        let ghost start = self.pos as int;
        let mut parts: Vec<String> = Vec::new();
        assert(strings_view(parts@) =~= t.subrange(start, start));
        while self.pos < self.tokens.len() && !ends_line(&self.tokens[self.pos])
            invariant
                self.wf(),
                self.tokens == old(self).tokens,
                t == self.toks(),
                0 <= start <= self.pos,
                line_end(t, start) == line_end(t, self.pos as int),
                strings_view(parts@) == t.subrange(start, self.pos as int),
            decreases self.tokens@.len() - self.pos,
        {
            let ghost before = strings_view(parts@);
            parts.push(string_of(&self.tokens[self.pos]));
            self.pos += 1;
            assert(strings_view(parts@) =~= before.push(t[self.pos - 1]));
            assert(strings_view(parts@) =~= t.subrange(start, self.pos as int));
        }
        proof {
            reveal_strlit(" ");
            assert(" "@ =~= seq![' ']);
        }
        let r = join_strings(&parts, " ");
        if self.pos < self.tokens.len() {
            self.pos += 1;
        }
        r
    }

    /// The text block that starts here: its tokens a space apart, a line
    /// break in front of each that starts a new line, up to the first blank
    /// line; moves to the token after the block.
    pub fn parse_text_block(&mut self) -> (r: String)
        requires
            old(self).wf(),
        ensures
            final(self).wf(),
            final(self).tokens == old(self).tokens,
            final(self).pos == block_text(old(self).toks(), old(self).pos as int).next,
            r@ == block_text(old(self).toks(), old(self).pos as int).value,
    {
        let ghost t = self.toks();
        let ghost start = self.pos as int;
        let n: usize = self.tokens.len();
        let mut items: Vec<String> = Vec::new();
        assert(strings_view(items@) + block_items(t, start).value =~= block_items(t, start).value);
        while self.pos < n
            invariant_except_break
                block_items(t, start).value == strings_view(items@) + block_items(
                    t,
                    self.pos as int,
                ).value,
                block_items(t, start).next == block_items(t, self.pos as int).next,
            invariant
                self.wf(),
                self.tokens == old(self).tokens,
                n == self.tokens@.len(),
                t == self.toks(),
            ensures
                block_items(t, start).value == strings_view(items@),
                block_items(t, start).next == self.pos,
            decreases n - self.pos,
        {
            let ghost before = strings_view(items@);
            let ghost here = self.pos as int;
            if ends_line(&self.tokens[self.pos]) {
                if n - self.pos < 2 {
                    self.pos += 1;
                    assert(strings_view(items@) + Seq::<Seq<char>>::empty() =~= strings_view(
                        items@,
                    ));
                    break ;
                }
                if ends_line(&self.tokens[self.pos + 1]) {
                    self.pos += 2;
                    assert(strings_view(items@) + Seq::<Seq<char>>::empty() =~= strings_view(
                        items@,
                    ));
                    break ;
                }
                items.push(on_new_line(&self.tokens[self.pos + 1]));
                self.pos += 2;
            } else {
                items.push(string_of(&self.tokens[self.pos]));
                self.pos += 1;
            }
            proof {
                if self.pos >= n {
                    assert(strings_view(items@) + Seq::<Seq<char>>::empty() =~= strings_view(
                        items@,
                    ));
                }
                let item = items@.last()@;
                assert(strings_view(items@) =~= before.push(item));
                assert(block_items(t, here).value == seq![item] + block_items(
                    t,
                    self.pos as int,
                ).value);
                assert(strings_view(items@) + block_items(t, self.pos as int).value =~= before
                    + block_items(t, here).value);
            }
        }
        proof {
            reveal_strlit(" ");
            assert(" "@ =~= seq![' ']);
        }
        join_strings(&items, " ")
    }

    /// The text block that starts on the next line.
    pub fn parse_statement(&mut self) -> (r: String)
        requires
            old(self).wf(),
        ensures
            final(self).wf(),
            final(self).tokens == old(self).tokens,
            final(self).pos == statement_text(old(self).toks(), old(self).pos as int).next,
            r@ == statement_text(old(self).toks(), old(self).pos as int).value,
    {
        self.skip_to_next_line();
        self.parse_text_block()
    }

    /// The variable that a token of the form `name:type` declares. A token
    /// without `:` has no type; a type that is neither scalar nor bounded
    /// is unknown.
    pub fn parse_variable(token: &str) -> (r: Result<VariableCommand, SyntaxError>)
        ensures
            result_view(r) == parsed_variable(token@),
    {
        let chars = chars_of(token);
        let parts = split(&chars, ':');
        if parts.len() < 2 {
            return Err(SyntaxError::MissingType(String::from_str(token)));
        }
        assert(tokens_view(parts@)[0] == parts@[0]@);
        assert(tokens_view(parts@)[1] == parts@[1]@);
        let name = string_of(&parts[0]);
        let var_type = string_of(&parts[1]);
        let trimmed = trim_end(var_type.as_str());
        if is_scalar(trimmed.as_str()) {
            return variable_from(token, name, trimmed.as_str(), None, None);
        }
        let kind = match capture_group(bounded_pattern_text(), var_type.as_str(), 1) {
            Ok(found) => found,
            Err(_) => {
                return Err(SyntaxError::PatternRefused);
            },
        };
        let bound = match capture_group(bounded_pattern_text(), var_type.as_str(), 2) {
            Ok(found) => found,
            Err(_) => {
                return Err(SyntaxError::PatternRefused);
            },
        };
        variable_from(token, name, trimmed.as_str(), kind, bound)
    }

    /// The variables declared from here to the end of the line; moves to
    /// the token after the line end.
    pub fn parse_variable_list(&mut self) -> (r: Result<Vec<VariableCommand>, SyntaxError>)
        requires
            old(self).wf(),
        ensures
            final(self).wf(),
            final(self).tokens == old(self).tokens,
            match variable_list(old(self).toks(), old(self).pos as int) {
                Ok(step) => r is Ok && variables_view(r->Ok_0@) == step.value && final(self).pos
                    == step.next,
                Err(e) => r is Err && r->Err_0@ == e,
            },
    {
        let ghost t = self.toks();
        let ghost start = self.pos as int;
        let n: usize = self.tokens.len();
        let mut vars: Vec<VariableCommand> = Vec::new();
        while self.pos < n
            invariant_except_break
                match variable_list(t, self.pos as int) {
                    Ok(rest) => variable_list(t, start) == Ok::<
                        Step<Seq<VariableModel>>,
                        SyntaxErrorModel,
                    >(Step { value: variables_view(vars@) + rest.value, next: rest.next }),
                    Err(e) => variable_list(t, start) == Err::<
                        Step<Seq<VariableModel>>,
                        SyntaxErrorModel,
                    >(e),
                },
            invariant
                self.wf(),
                self.tokens == old(self).tokens,
                n == self.tokens@.len(),
                t == self.toks(),
                start == old(self).pos,
            ensures
                variable_list(t, start) == Ok::<Step<Seq<VariableModel>>, SyntaxErrorModel>(
                    Step { value: variables_view(vars@), next: self.pos as int },
                ),
            decreases n - self.pos,
        {
            let ghost before = variables_view(vars@);
            let ghost here = self.pos as int;
            if ends_line(&self.tokens[self.pos]) {
                self.pos += 1;
                assert(before + Seq::<VariableModel>::empty() =~= before);
                break ;
            }
            let token = string_of(&self.tokens[self.pos]);
            assert(t[here] == token@);
            match Self::parse_variable(token.as_str()) {
                Ok(var) => {
                    vars.push(var);
                    self.pos += 1;
                    proof {
                        assert(variables_view(vars@) =~= before.push(var@));
                        match variable_list(t, self.pos as int) {
                            Ok(rest) => {
                                assert(variables_view(vars@) + rest.value =~= before + (seq![
                                    var@,
                                ] + rest.value));
                                if self.pos >= n {
                                    assert(variables_view(vars@) + rest.value =~= variables_view(
                                        vars@,
                                    ));
                                }
                            },
                            Err(e) => {},
                        }
                    }
                },
                Err(e) => {
                    return Err(e);
                },
            }
        }
        Ok(vars)
    }

    /// The command that the tokens after `read` make.
    pub fn parse_read(&mut self) -> (r: Result<Cmd, SyntaxError>)
        requires
            old(self).wf(),
        ensures
            final(self).wf(),
            final(self).tokens == old(self).tokens,
            cmd_step(read_cmd(old(self).toks(), old(self).pos as int), r, final(self).pos as int),
    {
        match self.parse_variable_list() {
            Ok(vars) => Ok(Cmd::Read(vars)),
            Err(e) => Err(e),
        }
    }

    /// Moves over the blank tokens that stand here.
    pub fn skip_blank_tokens(&mut self)
        requires
            old(self).wf(),
        ensures
            final(self).wf(),
            final(self).tokens == old(self).tokens,
            final(self).pos == skip_blank(old(self).toks(), old(self).pos as int),
    {
        let ghost t = self.toks();
        let ghost start = self.pos as int;
        while self.pos < self.tokens.len() && blank(&self.tokens[self.pos])
            invariant
                self.wf(),
                self.tokens == old(self).tokens,
                t == self.toks(),
                skip_blank(t, start) == skip_blank(t, self.pos as int),
            decreases self.tokens@.len() - self.pos,
        {
            self.pos += 1;
        }
    }

    /// The command that the tokens after `loopline` make: the count
    /// identifier, then the variables of each line.
    pub fn parse_loopline(&mut self) -> (r: Result<Cmd, SyntaxError>)
        requires
            old(self).wf(),
        ensures
            final(self).wf(),
            final(self).tokens == old(self).tokens,
            cmd_step(
                loopline_cmd(old(self).toks(), old(self).pos as int),
                r,
                final(self).pos as int,
            ),
    {
        if self.pos >= self.tokens.len() || blank(&self.tokens[self.pos]) {
            return Err(SyntaxError::MissingLooplineCount);
        }
        let count_var = string_of(&self.tokens[self.pos]);
        self.pos += 1;
        self.skip_blank_tokens();
        match self.parse_variable_list() {
            Ok(variables) => Ok(Cmd::LoopLine { count_var, variables }),
            Err(e) => Err(e),
        }
    }

    /// The position of the token that opens a `join` call in the text block
    /// that starts here, if one does.
    pub fn find_join(&self) -> (r: Option<usize>)
        requires
            self.wf(),
        ensures
            r is None <==> join_start(self.toks(), self.pos as int) is None,
            r matches Some(j) ==> join_start(self.toks(), self.pos as int) == Some(j as int)
                && self.pos <= j < self.tokens@.len(),
    {
        let ghost t = self.toks();
        let n: usize = self.tokens.len();
        let opener = chars_of("join(");
        let mut i: usize = self.pos;
        while i < n
            invariant
                n == self.tokens@.len(),
                t == self.toks(),
                self.pos <= i <= n,
                opener@ == "join("@,
                join_start(t, self.pos as int) == join_start(t, i as int),
            decreases n - i,
        {
            if ends_line(&self.tokens[i]) {
                if n - i < 2 || ends_line(&self.tokens[i + 1]) {
                    return None;
                }
                if contains_text(&self.tokens[i + 1], &opener) {
                    return Some(i + 1);
                }
                i += 2;
            } else {
                if contains_text(&self.tokens[i], &opener) {
                    return Some(i);
                }
                i += 1;
            }
        }
        None
    }

    /// The command that the `join` call opened by the token that stands
    /// here makes; moves to the line after the call.
    pub fn parse_write_join(&mut self) -> (r: Result<Cmd, SyntaxError>)
        requires
            old(self).wf(),
        ensures
            final(self).wf(),
            final(self).tokens == old(self).tokens,
            cmd_step(
                write_join_cmd(old(self).toks(), old(self).pos as int),
                r,
                final(self).pos as int,
            ),
    {
        let ghost t = self.toks();
        let ghost start = self.pos as int;
        let n: usize = self.tokens.len();
        let mut raw: String = String::new();
        let mut closed = false;
        proof {
            match join_text(t, start) {
                Some(rest) => {
                    assert(raw@ + rest.value =~= rest.value);
                },
                None => {},
            }
        }
        while self.pos < n && !closed
            invariant
                self.wf(),
                self.tokens == old(self).tokens,
                n == self.tokens@.len(),
                t == self.toks(),
                start == old(self).pos,
                closed ==> join_text(t, start) == Some(
                    Step { value: raw@, next: self.pos as int },
                ),
                !closed ==> match join_text(t, self.pos as int) {
                    Some(rest) => join_text(t, start) == Some(
                        Step { value: raw@ + rest.value, next: rest.next },
                    ),
                    None => join_text(t, start) is None,
                },
            decreases n - self.pos,
        {
            let ghost before = raw@;
            let ghost here = self.pos as int;
            let token = string_of(&self.tokens[self.pos]);
            assert(token@ == t[here]);
            raw.append(token.as_str());
            closed = contains_char(&self.tokens[self.pos], ')');
            self.pos += 1;
            proof {
                if !closed {
                    match join_text(t, self.pos as int) {
                        Some(rest) => {
                            assert(raw@ + rest.value =~= before + (t[here] + rest.value));
                        },
                        None => {},
                    }
                }
            }
        }
        if !closed {
            return Err(SyntaxError::UnclosedJoin);
        }
        self.skip_to_next_line();
        match parse_join_terms(raw.as_str()) {
            Ok(join_terms) => {
                let output_comment: Vec<String> = Vec::new();
                assert(strings_view(output_comment@) =~= Seq::<Seq<char>>::empty());
                Ok(Cmd::WriteJoin { join_terms, output_comment })
            },
            Err(e) => Err(e),
        }
    }

    /// The command that the tokens after `write` make: a `join` call where
    /// a token of the text block opens one, else the lines of the block.
    pub fn parse_write(&mut self) -> (r: Result<Cmd, SyntaxError>)
        requires
            old(self).wf(),
        ensures
            final(self).wf(),
            final(self).tokens == old(self).tokens,
            cmd_step(write_cmd(old(self).toks(), old(self).pos as int), r, final(self).pos as int),
    {
        match self.find_join() {
            Some(j) => {
                self.pos = j;
                self.parse_write_join()
            },
            None => {
                let text = self.parse_text_block();
                proof {
                    crate::grammar::lemma_block_bounds(old(self).toks(), old(self).pos as int);
                }
                let output_comment: Vec<String> = Vec::new();
                assert(strings_view(output_comment@) =~= Seq::<Seq<char>>::empty());
                let lines = lines(text.as_str());
                let cmd = Cmd::Write { lines, output_comment };
                assert(cmd@ == CmdModel::Write {
                    lines: lines_of(text@),
                    output_comment: Seq::<Seq<char>>::empty(),
                });
                Ok(cmd)
            },
        }
    }

    /// The command that the tokens after `loop` make: the count identifier,
    /// then exactly one nested statement.
    pub fn parse_loop(&mut self) -> (r: Result<Cmd, SyntaxError>)
        requires
            old(self).wf(),
        ensures
            final(self).wf(),
            final(self).tokens == old(self).tokens,
            cmd_step(loop_cmd(old(self).toks(), old(self).pos as int), r, final(self).pos as int),
        decreases old(self).tokens@.len() - old(self).pos,
    {
        if self.pos >= self.tokens.len() || blank(&self.tokens[self.pos]) {
            return Err(SyntaxError::MissingLoopCount);
        }
        let count_var = string_of(&self.tokens[self.pos]);
        self.pos += 1;
        proof {
            lemma_skip_blank_bounds(self.toks(), self.pos as int);
        }
        self.skip_blank_tokens();
        match self.parse_loopable() {
            Ok(command) => Ok(Cmd::Loop { count_var, command: Box::new(command) }),
            Err(e) => Err(e),
        }
    }

    /// The statement nested in a loop, whose keyword stands here.
    pub fn parse_loopable(&mut self) -> (r: Result<Cmd, SyntaxError>)
        requires
            old(self).wf(),
        ensures
            final(self).wf(),
            final(self).tokens == old(self).tokens,
            cmd_step(
                loopable_cmd(old(self).toks(), old(self).pos as int),
                r,
                final(self).pos as int,
            ),
        decreases old(self).tokens@.len() - old(self).pos,
    {
        if self.pos >= self.tokens.len() {
            return Err(SyntaxError::MissingLoopCommand);
        }
        let here: usize = self.pos;
        assert(self.toks()[here as int] == self.tokens@[here as int]@);
        self.pos += 1;
        if spells(&self.tokens[here], "read") {
            self.parse_read()
        } else if spells(&self.tokens[here], "write") {
            self.parse_write()
        } else if spells(&self.tokens[here], "loopline") {
            self.parse_loopline()
        } else if spells(&self.tokens[here], "loop") {
            self.parse_loop()
        } else {
            Err(SyntaxError::UnexpectedLoopCommand(string_of(&self.tokens[here])))
        }
    }

    /// Attaches the output text to every `write` of the stub that has none
    /// yet, also where loops nest it; the commands keep their order, and
    /// nothing else changes.
    pub fn recursively_backward_update_output(stub: &mut Stub, output: &Vec<String>)
        ensures
            final(stub)@ == (StubModel {
                commands: patched(old(stub)@.commands, strings_view(output@)),
                ..old(stub)@
            }),
    {
        let mut previous: Vec<Cmd> = Vec::new();
        core::mem::swap(&mut stub.commands, &mut previous);
        let ghost before = previous@;
        let mut commands: Vec<Cmd> = Vec::new();
        for cmd in it: previous.into_iter()
            invariant
                it.seq() == before,
                commands@.len() == it.index(),
                forall|j: int|
                    0 <= j < it.index() ==> (#[trigger] commands@[j])@ == patched_cmd(
                        before[j]@,
                        strings_view(output@),
                    ),
        {
            commands.push(patch_cmd(cmd, output));
        }
        stub.commands = commands;
        assert(cmds_view(stub.commands@) =~= patched(cmds_view(before), strings_view(output@)));
    }

    /// The text block after `OUTPUT`, attached to the `write` commands
    /// parsed so far that have no output text yet.
    pub fn parse_output_comment(&mut self, stub: &mut Stub)
        requires
            old(self).wf(),
        ensures
            final(self).wf(),
            final(self).tokens == old(self).tokens,
            final(self).pos == statement_text(old(self).toks(), old(self).pos as int).next,
            final(stub)@ == (StubModel {
                commands: patched(
                    old(stub)@.commands,
                    lines_of(statement_text(old(self).toks(), old(self).pos as int).value),
                ),
                ..old(stub)@
            }),
    {
        let text = self.parse_statement();
        let output = lines(text.as_str());
        Self::recursively_backward_update_output(stub, &output);
    }

    /// The comments of the input block whose keyword was just read: one for
    /// each line whose first token names a variable, up to the first blank
    /// line.
    pub fn parse_input_comment(&mut self) -> (r: Vec<InputComment>)
        requires
            old(self).wf(),
        ensures
            final(self).wf(),
            final(self).tokens == old(self).tokens,
            final(self).pos == input_block(old(self).toks(), old(self).pos as int).next,
            input_comments_view(r@) == input_block(old(self).toks(), old(self).pos as int).value,
    {
        self.skip_to_next_line();
        let ghost t = self.toks();
        let ghost start = self.pos as int;
        let n: usize = self.tokens.len();
        let mut comments: Vec<InputComment> = Vec::new();
        assert(input_comments_view(comments@) + input_comments(t, start).value
            =~= input_comments(t, start).value);
        while self.pos < n
            invariant_except_break
                input_comments(t, start).value == input_comments_view(comments@) + input_comments(
                    t,
                    self.pos as int,
                ).value,
                input_comments(t, start).next == input_comments(t, self.pos as int).next,
            invariant
                self.wf(),
                self.tokens == old(self).tokens,
                n == self.tokens@.len(),
                t == self.toks(),
            ensures
                input_comments(t, start).value == input_comments_view(comments@),
                input_comments(t, start).next == self.pos,
            decreases n - self.pos,
        {
            let ghost before = input_comments_view(comments@);
            let ghost here = self.pos as int;
            let len: usize = self.tokens[self.pos].len();
            if ends_line(&self.tokens[self.pos]) {
                self.pos += 1;
                assert(before + Seq::<InputCommentModel>::empty() =~= before);
                break ;
            }
            proof {
                lemma_line_end_bounds(t, here + 1);
            }
            if len > 0 && self.tokens[self.pos][len - 1] == ':' {
                let variable = string_of_range(&self.tokens[self.pos], 0, len - 1);
                assert(variable@ =~= t[here].drop_last());
                self.pos += 1;
                let description = self.read_to_end_of_line();
                let comment = InputComment { variable, description };
                comments.push(comment);
                proof {
                    assert(input_comments_view(comments@) =~= before.push(comment@));
                    assert(input_comments_view(comments@) + input_comments(
                        t,
                        self.pos as int,
                    ).value =~= before + input_comments(t, here).value);
                }
            } else {
                self.pos += 1;
                self.skip_to_next_line();
            }
            proof {
                if self.pos >= n {
                    assert(input_comments_view(comments@) + Seq::<InputCommentModel>::empty()
                        =~= input_comments_view(comments@));
                }
            }
        }
        comments
    }

    /// The stub that the tokens from here on describe.
    pub fn parse(&mut self) -> (r: Result<Stub, SyntaxError>)
        requires
            old(self).wf(),
        ensures
            final(self).wf(),
            final(self).tokens == old(self).tokens,
            result_view(r) == parse_from(old(self).toks(), old(self).pos as int, empty_stub()),
    {
        let ghost t = self.toks();
        let ghost start = self.pos as int;
        let n: usize = self.tokens.len();
        let mut stub = Stub::new();
        assert(stub@ =~= empty_stub()) by {
            assert(stub@.input_comments =~= Seq::<InputCommentModel>::empty());
            assert(stub@.commands =~= Seq::<CmdModel>::empty());
        }
        while self.pos < n
            invariant
                self.wf(),
                self.tokens == old(self).tokens,
                n == self.tokens@.len(),
                t == self.toks(),
                start == old(self).pos,
                parse_from(t, start, empty_stub()) == parse_from(t, self.pos as int, stub@),
            decreases n - self.pos,
        {
            let here: usize = self.pos;
            let ghost so_far = stub@;
            assert(t[here as int] == self.tokens@[here as int]@);
            proof {
                lemma_variable_list_bounds(t, here + 1);
                lemma_write_cmd_bounds(t, here + 1);
                lemma_loop_cmd_bounds(t, here + 1);
                lemma_loopline_cmd_bounds(t, here + 1);
                lemma_statement_bounds(t, here + 1);
                lemma_input_block_bounds(t, here + 1);
            }
            self.pos += 1;
            let is_read = spells(&self.tokens[here], "read");
            let is_write = spells(&self.tokens[here], "write");
            let is_loop = spells(&self.tokens[here], "loop");
            let is_loopline = spells(&self.tokens[here], "loopline");
            if is_read || is_write || is_loop || is_loopline {
                let parsed = if is_read {
                    self.parse_read()
                } else if is_write {
                    self.parse_write()
                } else if is_loop {
                    self.parse_loop()
                } else {
                    self.parse_loopline()
                };
                match parsed {
                    Ok(cmd) => {
                        proof {
                            lemma_cmds_view_push(stub.commands@, cmd);
                        }
                        stub.commands.push(cmd);
                        assert(stub@ == with_command(so_far, cmd@));
                    },
                    Err(e) => {
                        return Err(e);
                    },
                }
            } else if spells(&self.tokens[here], "OUTPUT") {
                self.parse_output_comment(&mut stub);
            } else if spells(&self.tokens[here], "INPUT") {
                let mut comments = self.parse_input_comment();
                let ghost added = input_comments_view(comments@);
                stub.input_comments.append(&mut comments);
                assert(stub@.input_comments =~= so_far.input_comments + added);
                assert(stub@ == (StubModel {
                    input_comments: so_far.input_comments + added,
                    ..so_far
                }));
            } else if spells(&self.tokens[here], "STATEMENT") {
                stub.statement = self.parse_statement();
            } else if !blank(&self.tokens[here]) {
                return Err(SyntaxError::UnexpectedToken(string_of(&self.tokens[here])));
            }
        }
        Ok(stub)
    }
}

/// The stub that the text of a stub generator describes, or the first
/// malformed construct in it.
pub fn parse_generator_stub(generator: String) -> (r: Result<Stub, SyntaxError>)
    ensures
        result_view(r) == parsed(generator@),
{
    let tokens = tokenize(generator.as_str());
    let mut parser = Parser::new(tokens);
    parser.parse()
}

} // verus!
