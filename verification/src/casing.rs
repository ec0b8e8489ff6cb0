//! Identifier casing: how a variable name is written in a target language.

use vstd::prelude::*;
use vstd::string::*;
use crate::text::{
    ascii_lower, ascii_lower_char, ascii_upper_char, chars_of, is_ascii_lower, is_ascii_text,
    is_lower, is_upper_letter, is_uppercase_letter, join_strings, join_with, lowercase,
    lowercase_of, string_of_range, uppercase, uppercase_of,
};
use crate::types::{LengthType, VariableCommand, VariableModel, strings_view};

verus! {

/// The naming convention of a target language.
#[derive(Clone, Copy, Debug, PartialEq, Eq, Structural)]
pub enum Casing {
    SnakeCase,
    KebabCase,
    CamelCase,
    PascalCase,
}

/// The casing policy of one target language.
#[derive(Debug)]
pub struct VariableNameOptions {
    pub casing: Casing,
    pub allow_uppercase_vars: Option<bool>,
    pub keywords: Vec<String>,
}

/// The length of the longest prefix of `s` whose characters all are
/// (`lower == true`) or all are not (`lower == false`) lower-case letters.
pub open spec fn run_len(s: Seq<char>, lower: bool) -> nat
    decreases s.len(),
{
    if s.len() > 0 && is_lower(s[0]) == lower {
        1 + run_len(s.drop_first(), lower)
    } else {
        0
    }
}

/// The length of the first word of `s`: a run of characters that are not
/// lower-case letters, then a run of lower-case letters.
pub open spec fn word_len(s: Seq<char>) -> nat {
    let b = run_len(s, false);
    b + run_len(s.skip(b as int), true)
}

/// A run is no longer than the text it starts.
pub proof fn lemma_run_len_bound(s: Seq<char>, lower: bool)
    ensures
        run_len(s, lower) <= s.len(),
    decreases s.len(),
{
    if s.len() > 0 && is_lower(s[0]) == lower {
        lemma_run_len_bound(s.drop_first(), lower);
    }
}

/// The first word of a text that is not empty holds at least one character
/// and lies within the text.
pub proof fn lemma_word_len_bound(s: Seq<char>)
    ensures
        word_len(s) <= s.len(),
        s.len() > 0 ==> word_len(s) > 0,
{
    let b = run_len(s, false);
    lemma_run_len_bound(s, false);
    lemma_run_len_bound(s.skip(b as int), true);
    if s.len() > 0 && b == 0 {
        assert(is_lower(s[0]));
        assert(s.skip(0) =~= s);
    }
}

/// The pieces that an identifier is cut into, each a word as it is written
/// in the identifier.
pub open spec fn ident_pieces(s: Seq<char>) -> Seq<Seq<char>>
    decreases s.len(),
    via ident_pieces_decreases
{
    if s.len() == 0 {
        Seq::empty()
    } else {
        seq![s.take(word_len(s) as int)] + ident_pieces(s.skip(word_len(s) as int))
    }
}

#[via_fn]
proof fn ident_pieces_decreases(s: Seq<char>) {
    lemma_word_len_bound(s);
}

/// The words of an identifier: its pieces, each in lower case.
pub open spec fn words_of(s: Seq<char>) -> Seq<Seq<char>> {
    ident_pieces(s).map_values(|p: Seq<char>| lowercase_of(p))
}

/// An identifier with its words joined by `_`.
pub open spec fn snake_case(s: Seq<char>) -> Seq<char> {
    join_with(words_of(s), seq!['_'])
}

/// An identifier with its words joined by `-`.
pub open spec fn kebab_case(s: Seq<char>) -> Seq<char> {
    join_with(words_of(s), seq!['-'])
}

/// An identifier with its first character in upper case.
pub open spec fn pascal_case(s: Seq<char>) -> Seq<char> {
    if s.len() == 0 {
        s
    } else {
        uppercase_of(s.take(1)) + s.skip(1)
    }
}

/// An identifier with its first character in lower case.
pub open spec fn camel_case(s: Seq<char>) -> Seq<char> {
    if s.len() == 0 {
        s
    } else {
        lowercase_of(s.take(1)) + s.skip(1)
    }
}

/// An identifier in the given casing.
pub open spec fn cased(casing: Casing, s: Seq<char>) -> Seq<char> {
    match casing {
        Casing::SnakeCase => snake_case(s),
        Casing::KebabCase => kebab_case(s),
        Casing::PascalCase => pascal_case(s),
        Casing::CamelCase => camel_case(s),
    }
}

/// Whether every character of the text is an upper-case letter.
pub open spec fn all_uppercase(s: Seq<char>) -> bool {
    forall|i: int| 0 <= i < s.len() ==> is_upper_letter(#[trigger] s[i])
}

/// A name with `_` in front where it is a reserved word.
pub open spec fn escaped(keywords: Seq<Seq<char>>, name: Seq<char>) -> Seq<char> {
    if keywords.contains(name) {
        seq!['_'] + name
    } else {
        name
    }
}

/// A name in the policy's casing, before reserved words are escaped: a name
/// all in upper case stays as it is, or is put in lower case where the policy
/// forbids such names; any other name is cased.
pub open spec fn converted_name(
    casing: Casing,
    allow_uppercase_vars: Option<bool>,
    name: Seq<char>,
) -> Seq<char> {
    if all_uppercase(name) {
        if allow_uppercase_vars == Some(false) {
            lowercase_of(name)
        } else {
            name
        }
    } else {
        cased(casing, name)
    }
}

/// The name under which a variable appears in generated code.
pub open spec fn transformed_name(
    casing: Casing,
    allow_uppercase_vars: Option<bool>,
    keywords: Seq<Seq<char>>,
    name: Seq<char>,
) -> Seq<char> {
    escaped(keywords, converted_name(casing, allow_uppercase_vars, name))
}

/// The bound of a `word` or `string` variable as generated code writes it:
/// transformed like a name where it names a variable, else as it is.
pub open spec fn transformed_bound(
    casing: Casing,
    allow_uppercase_vars: Option<bool>,
    keywords: Seq<Seq<char>>,
    max_length: Seq<char>,
    length_type: LengthType,
) -> Seq<char> {
    if length_type == LengthType::Variable {
        transformed_name(casing, allow_uppercase_vars, keywords, max_length)
    } else {
        max_length
    }
}

/// A variable with its identifier, and its bound where that names a
/// variable, written as generated code writes them.
pub open spec fn transformed_variable(
    casing: Casing,
    allow_uppercase_vars: Option<bool>,
    keywords: Seq<Seq<char>>,
    var: VariableModel,
) -> VariableModel {
    match var {
        VariableModel::Int { name } => VariableModel::Int {
            name: transformed_name(casing, allow_uppercase_vars, keywords, name),
        },
        VariableModel::Float { name } => VariableModel::Float {
            name: transformed_name(casing, allow_uppercase_vars, keywords, name),
        },
        VariableModel::Long { name } => VariableModel::Long {
            name: transformed_name(casing, allow_uppercase_vars, keywords, name),
        },
        VariableModel::Bool { name } => VariableModel::Bool {
            name: transformed_name(casing, allow_uppercase_vars, keywords, name),
        },
        VariableModel::Word { name, max_length, length_type } => VariableModel::Word {
            name: transformed_name(casing, allow_uppercase_vars, keywords, name),
            max_length: transformed_bound(
                casing,
                allow_uppercase_vars,
                keywords,
                max_length,
                length_type,
            ),
            length_type,
        },
        VariableModel::String { name, max_length, length_type } => VariableModel::String {
            name: transformed_name(casing, allow_uppercase_vars, keywords, name),
            max_length: transformed_bound(
                casing,
                allow_uppercase_vars,
                keywords,
                max_length,
                length_type,
            ),
            length_type,
        },
    }
}

/// Whether every character of the text is an upper-case letter.
pub fn is_uppercase_string(string: &str) -> (b: bool)
    ensures
        b == all_uppercase(string@),
{
    let n: usize = string.unicode_len();
    let mut i: usize = 0;
    while i < n
        invariant
            n == string@.len(),
            i <= n,
            forall|j: int| 0 <= j < i ==> is_upper_letter(#[trigger] string@[j]),
        decreases n - i,
    {
        if !is_uppercase_letter(string.get_char(i)) {
            return false;
        }
        i += 1;
    }
    true
}

/// The words of a text that is not empty are its first word in lower case,
/// then the words of what follows it.
pub proof fn lemma_words_unfold(s: Seq<char>)
    requires
        s.len() > 0,
    ensures
        words_of(s) == seq![lowercase_of(s.take(word_len(s) as int))] + words_of(
            s.skip(word_len(s) as int),
        ),
{
    let w = word_len(s) as int;
    assert(ident_pieces(s) == seq![s.take(w)] + ident_pieces(s.skip(w)));
    assert(words_of(s) =~= seq![lowercase_of(s.take(w))] + words_of(s.skip(w)));
}

/// A run that was followed for `k` characters goes on in what is left.
proof fn lemma_run_len_step(s: Seq<char>, lower: bool, k: int)
    requires
        0 <= k < s.len(),
        is_lower(s[k]) == lower,
        run_len(s, lower) == k + run_len(s.skip(k), lower),
    ensures
        run_len(s, lower) == k + 1 + run_len(s.skip(k + 1), lower),
{
    assert(s.skip(k)[0] == s[k]);
    assert(s.skip(k).drop_first() =~= s.skip(k + 1));
}

/// A run is over where the text ends or the next character is of the other
/// kind.
proof fn lemma_run_len_stop(s: Seq<char>, lower: bool, k: int)
    requires
        0 <= k <= s.len(),
        k < s.len() ==> is_lower(s[k]) != lower,
        run_len(s, lower) == k + run_len(s.skip(k), lower),
    ensures
        run_len(s, lower) == k,
{
    if k < s.len() {
        assert(s.skip(k)[0] == s[k]);
    }
}

impl VariableNameOptions {
    /// The model of the reserved words.
    pub open spec fn keywords_view(&self) -> Seq<Seq<char>> {
        strings_view(self.keywords@)
    }

    /// The name under which this policy writes a variable.
    pub open spec fn transformed(&self, name: Seq<char>) -> Seq<char> {
        transformed_name(self.casing, self.allow_uppercase_vars, self.keywords_view(), name)
    }

    /// The variable as this policy writes it.
    pub open spec fn transformed_command(&self, var: VariableModel) -> VariableModel {
        transformed_variable(self.casing, self.allow_uppercase_vars, self.keywords_view(), var)
    }

    /// A policy with the given casing, upper-case rule and reserved words.
    pub fn new(casing: Casing, allow_uppercase_vars: Option<bool>, keywords: Vec<String>) -> (r:
        Self)
        ensures
            r.casing == casing,
            r.allow_uppercase_vars == allow_uppercase_vars,
            r.keywords == keywords,
    {
        VariableNameOptions { casing, allow_uppercase_vars, keywords }
    }

    /// The words of an identifier, in lower case.
    pub fn ident_words(ident: &str) -> (words: Vec<String>)
        ensures
            strings_view(words@) == words_of(ident@),
    {
        let chars = chars_of(ident);
        let n: usize = chars.len();
        let mut words: Vec<String> = Vec::new();
        let mut pos: usize = 0;
        assert(chars@.skip(0) =~= chars@);
        assert(strings_view(words@) + words_of(chars@) =~= words_of(chars@));
        while pos < n
            invariant
                chars@ == ident@,
                n == chars@.len(),
                pos <= n,
                words_of(ident@) == strings_view(words@) + words_of(chars@.skip(pos as int)),
            decreases n - pos,
        {
            let start: usize = pos;
            let ghost rest = chars@.skip(start as int);
            assert(rest.skip(0) =~= rest);
            while pos < n && !is_ascii_lower(chars[pos])
                invariant
                    n == chars@.len(),
                    start <= pos <= n,
                    rest == chars@.skip(start as int),
                    run_len(rest, false) == (pos - start) + run_len(
                        rest.skip(pos - start),
                        false,
                    ),
                decreases n - pos,
            {
                proof {
                    lemma_run_len_step(rest, false, pos - start);
                }
                pos += 1;
            }
            proof {
                lemma_run_len_stop(rest, false, pos - start);
            }
            let mid: usize = pos;
            let ghost tail = rest.skip(mid - start);
            assert(tail.skip(0) =~= tail);
            while pos < n && is_ascii_lower(chars[pos])
                invariant
                    n == chars@.len(),
                    start <= mid <= pos <= n,
                    rest == chars@.skip(start as int),
                    tail == rest.skip(mid - start),
                    run_len(tail, true) == (pos - mid) + run_len(tail.skip(pos - mid), true),
                decreases n - pos,
            {
                proof {
                    lemma_run_len_step(tail, true, pos - mid);
                }
                pos += 1;
            }
            proof {
                lemma_run_len_stop(tail, true, pos - mid);
                assert(word_len(rest) == pos - start);
                lemma_word_len_bound(rest);
                lemma_words_unfold(rest);
            }
            let piece = string_of_range(&chars, start, pos);
            let word = lowercase(piece.as_str());
            let ghost before = strings_view(words@);
            words.push(word);
            proof {
                assert(rest.take(pos - start) =~= chars@.subrange(start as int, pos as int));
                assert(rest.skip(pos - start) =~= chars@.skip(pos as int));
                assert(strings_view(words@) =~= before + seq![word@]);
                assert(strings_view(words@) + words_of(chars@.skip(pos as int)) =~= before
                    + words_of(rest));
            }
        }
        assert(words_of(chars@.skip(pos as int)) =~= Seq::<Seq<char>>::empty()) by {
            assert(chars@.skip(pos as int).len() == 0);
        }
        assert(strings_view(words@) + Seq::<Seq<char>>::empty() =~= strings_view(words@));
        words
    }

    /// The identifier with its words joined by `_`.
    pub fn convert_to_snake_case(variable_name: &str) -> (r: String)
        ensures
            r@ == snake_case(variable_name@),
    {
        proof {
            reveal_strlit("_");
            assert("_"@ =~= seq!['_']);
        }
        join_strings(&Self::ident_words(variable_name), "_")
    }

    /// The identifier with its words joined by `-`.
    pub fn convert_to_kebab_case(variable_name: &str) -> (r: String)
        ensures
            r@ == kebab_case(variable_name@),
    {
        proof {
            reveal_strlit("-");
            assert("-"@ =~= seq!['-']);
        }
        join_strings(&Self::ident_words(variable_name), "-")
    }

    /// The identifier with its first character in upper case and the rest
    /// as it was.
    pub fn convert_to_pascal_case(variable_name: &str) -> (r: String)
        ensures
            r@ == pascal_case(variable_name@),
    {
        let chars = chars_of(variable_name);
        if chars.len() == 0 {
            return String::new();
        }
        let first = string_of_range(&chars, 0, 1);
        let rest = string_of_range(&chars, 1, chars.len());
        assert(chars@.subrange(0, 1) =~= chars@.take(1));
        assert(chars@.subrange(1, chars@.len() as int) =~= chars@.skip(1));
        uppercase(first.as_str()).concat(rest.as_str())
    }

    /// The identifier with its first character in lower case and the rest
    /// as it was.
    pub fn convert_to_camel_case(variable_name: &str) -> (r: String)
        ensures
            r@ == camel_case(variable_name@),
    {
        let chars = chars_of(variable_name);
        if chars.len() == 0 {
            return String::new();
        }
        let first = string_of_range(&chars, 0, 1);
        let rest = string_of_range(&chars, 1, chars.len());
        assert(chars@.subrange(0, 1) =~= chars@.take(1));
        assert(chars@.subrange(1, chars@.len() as int) =~= chars@.skip(1));
        lowercase(first.as_str()).concat(rest.as_str())
    }

    /// The identifier in this policy's casing.
    pub fn convert(&self, variable_name: &str) -> (r: String)
        ensures
            r@ == cased(self.casing, variable_name@),
    {
        match self.casing {
            Casing::SnakeCase => Self::convert_to_snake_case(variable_name),
            Casing::KebabCase => Self::convert_to_kebab_case(variable_name),
            Casing::PascalCase => Self::convert_to_pascal_case(variable_name),
            Casing::CamelCase => Self::convert_to_camel_case(variable_name),
        }
    }

    /// The name with `_` in front where it is a reserved word of this
    /// policy, else the name as it is.
    pub fn escape_keywords(&self, variable_name: String) -> (r: String)
        ensures
            r@ == escaped(self.keywords_view(), variable_name@),
    {
        let ghost kw = self.keywords_view();
        let mut i: usize = 0;
        while i < self.keywords.len()
            invariant
                i <= self.keywords@.len(),
                kw == self.keywords_view(),
                forall|j: int| 0 <= j < i ==> kw[j] != variable_name@,
            decreases self.keywords@.len() - i,
        {
            if self.keywords[i] == variable_name {
                proof {
                    reveal_strlit("_");
                    assert("_"@ =~= seq!['_']);
                    assert(kw[i as int] == variable_name@);
                }
                return String::from_str("_").concat(variable_name.as_str());
            }
            i += 1;
        }
        variable_name
    }

    /// The name under which generated code writes a variable.
    pub fn transform_variable_name(&self, variable_name: &str) -> (r: String)
        ensures
            r@ == self.transformed(variable_name@),
    {
        let converted = if is_uppercase_string(variable_name) {
            match self.allow_uppercase_vars {
                Some(false) => lowercase(variable_name),
                _ => String::from_str(variable_name),
            }
        } else {
            self.convert(variable_name)
        };
        self.escape_keywords(converted)
    }

    /// The bound of a `word` or `string` variable as generated code writes
    /// it.
    fn transform_bound(&self, max_length: &String, length_type: LengthType) -> (r: String)
        ensures
            r@ == transformed_bound(
                self.casing,
                self.allow_uppercase_vars,
                self.keywords_view(),
                max_length@,
                length_type,
            ),
    {
        match length_type {
            LengthType::Variable => self.transform_variable_name(max_length.as_str()),
            LengthType::Number => max_length.clone(),
        }
    }

    /// The variable as generated code writes it: the identifier transformed,
    /// and the bound too where it names a variable.
    pub fn transform_variable_command(&self, var: &VariableCommand) -> (r: VariableCommand)
        ensures
            r@ == self.transformed_command(var@),
    {
        match var {
            VariableCommand::Int { name } => VariableCommand::Int {
                name: self.transform_variable_name(name.as_str()),
            },
            VariableCommand::Float { name } => VariableCommand::Float {
                name: self.transform_variable_name(name.as_str()),
            },
            VariableCommand::Long { name } => VariableCommand::Long {
                name: self.transform_variable_name(name.as_str()),
            },
            VariableCommand::Bool { name } => VariableCommand::Bool {
                name: self.transform_variable_name(name.as_str()),
            },
            VariableCommand::Word { name, max_length, length_type } => VariableCommand::Word {
                name: self.transform_variable_name(name.as_str()),
                max_length: self.transform_bound(max_length, *length_type),
                length_type: *length_type,
            },
            VariableCommand::String { name, max_length, length_type } => VariableCommand::String {
                name: self.transform_variable_name(name.as_str()),
                max_length: self.transform_bound(max_length, *length_type),
                length_type: *length_type,
            },
        }
    }
}

/// Whether a text is one word: not empty, and a run of characters that are
/// not lower-case letters followed by a run of lower-case letters, with
/// nothing after it.
pub open spec fn is_one_word(p: Seq<char>) -> bool {
    p.len() > 0 && word_len(p) == p.len()
}

/// A run in the first `n` characters of a text is the run in the text, cut
/// at `n`.
pub proof fn lemma_run_len_take(s: Seq<char>, lower: bool, n: int)
    requires
        0 <= n <= s.len(),
    ensures
        run_len(s.take(n), lower) == if run_len(s, lower) <= n {
            run_len(s, lower)
        } else {
            n as nat
        },
    decreases s.len(),
{
    if n > 0 && is_lower(s[0]) == lower {
        lemma_run_len_take(s.drop_first(), lower, n - 1);
        assert(s.take(n).drop_first() =~= s.drop_first().take(n - 1));
    }
}

/// The first word of a text is one word.
pub proof fn lemma_first_word_is_one_word(s: Seq<char>)
    requires
        s.len() > 0,
    ensures
        is_one_word(s.take(word_len(s) as int)),
{
    let b = run_len(s, false) as int;
    let tail = s.skip(b);
    let l = run_len(tail, true) as int;
    lemma_word_len_bound(s);
    lemma_run_len_bound(s, false);
    lemma_run_len_bound(tail, true);
    let piece = s.take(b + l);
    lemma_run_len_take(s, false, b + l);
    lemma_run_len_take(tail, true, l);
    assert(piece.skip(b) =~= tail.take(l));
}

/// The pieces of an identifier, put together again, are the identifier, and
/// each of them is one word: cutting it into words loses and adds nothing.
pub proof fn lemma_pieces_keep_content(s: Seq<char>)
    ensures
        ident_pieces(s).flatten() == s,
        forall|i: int| 0 <= i < ident_pieces(s).len() ==> is_one_word(#[trigger] ident_pieces(s)[i]),
    decreases s.len(),
{
    if s.len() == 0 {
        assert(ident_pieces(s).flatten() =~= s);
    } else {
        let w = word_len(s) as int;
        lemma_word_len_bound(s);
        lemma_first_word_is_one_word(s);
        lemma_pieces_keep_content(s.skip(w));
        let head = seq![s.take(w)];
        let rest = ident_pieces(s.skip(w));
        vstd::seq_lib::lemma_flatten_concat(head, rest);
        assert(head.flatten() =~= s.take(w)) by {
            assert(head.drop_first() =~= Seq::<Seq<char>>::empty());
            assert(head.drop_first().flatten() =~= Seq::<char>::empty());
        }
        assert(s.take(w) + s.skip(w) =~= s);
    }
}

/// Snake case and kebab case keep the words of an identifier: both join the
/// same words, one for each piece of the identifier and in the same order,
/// each the lower case of its piece.
pub proof fn lemma_separated_casings_keep_words(s: Seq<char>)
    ensures
        snake_case(s) == join_with(words_of(s), seq!['_']),
        kebab_case(s) == join_with(words_of(s), seq!['-']),
        words_of(s).len() == ident_pieces(s).len(),
        forall|i: int|
            0 <= i < ident_pieces(s).len() ==> #[trigger] words_of(s)[i] == lowercase_of(
                ident_pieces(s)[i],
            ) && is_one_word(ident_pieces(s)[i]),
        ident_pieces(s).flatten() == s,
{
    lemma_pieces_keep_content(s);
}

/// Pascal case and camel case change nothing but the first character of an
/// identifier: the result starts with the upper or lower case of that
/// character, and all that follows is the rest of the identifier as it was.
pub proof fn lemma_first_character_casings(s: Seq<char>)
    requires
        s.len() > 0,
    ensures
        pascal_case(s) == uppercase_of(seq![s[0]]) + s.skip(1),
        camel_case(s) == lowercase_of(seq![s[0]]) + s.skip(1),
        pascal_case(s).skip(uppercase_of(seq![s[0]]).len() as int) == s.skip(1),
        camel_case(s).skip(lowercase_of(seq![s[0]]).len() as int) == s.skip(1),
{
    assert(s.take(1) =~= seq![s[0]]);
    let up = uppercase_of(seq![s[0]]);
    let low = lowercase_of(seq![s[0]]);
    assert((up + s.skip(1)).skip(up.len() as int) =~= s.skip(1));
    assert((low + s.skip(1)).skip(low.len() as int) =~= s.skip(1));
}

/// A name whose conversion is a reserved word is written with `_` in front
/// of the converted name; any other name is written as converted.
pub proof fn lemma_reserved_words_are_escaped(
    casing: Casing,
    allow_uppercase_vars: Option<bool>,
    keywords: Seq<Seq<char>>,
    name: Seq<char>,
)
    ensures
        keywords.contains(converted_name(casing, allow_uppercase_vars, name)) ==> transformed_name(
            casing,
            allow_uppercase_vars,
            keywords,
            name,
        ) == seq!['_'] + converted_name(casing, allow_uppercase_vars, name),
        !keywords.contains(converted_name(casing, allow_uppercase_vars, name)) ==> transformed_name(
            casing,
            allow_uppercase_vars,
            keywords,
            name,
        ) == converted_name(casing, allow_uppercase_vars, name),
{
}

/// Transforming a name a second time changes nothing, wherever the first
/// result is not itself a reserved word and is already written as the policy
/// converts it.
pub proof fn lemma_transform_twice(
    casing: Casing,
    allow_uppercase_vars: Option<bool>,
    keywords: Seq<Seq<char>>,
    name: Seq<char>,
)
    requires
        !keywords.contains(transformed_name(casing, allow_uppercase_vars, keywords, name)),
        converted_name(
            casing,
            allow_uppercase_vars,
            transformed_name(casing, allow_uppercase_vars, keywords, name),
        ) == transformed_name(casing, allow_uppercase_vars, keywords, name),
    ensures
        transformed_name(
            casing,
            allow_uppercase_vars,
            keywords,
            transformed_name(casing, allow_uppercase_vars, keywords, name),
        ) == transformed_name(casing, allow_uppercase_vars, keywords, name),
{
}

/// A name all in upper case that is no reserved word, under a policy that
/// allows such names, is its own transform, however often it is transformed.
pub proof fn lemma_uppercase_name_is_fixed(
    casing: Casing,
    allow_uppercase_vars: Option<bool>,
    keywords: Seq<Seq<char>>,
    name: Seq<char>,
)
    requires
        all_uppercase(name),
        allow_uppercase_vars != Some(false),
        !keywords.contains(name),
    ensures
        transformed_name(casing, allow_uppercase_vars, keywords, name) == name,
        transformed_name(
            casing,
            allow_uppercase_vars,
            keywords,
            transformed_name(casing, allow_uppercase_vars, keywords, name),
        ) == name,
{
}

/// A name all in upper case keeps its letters where the policy allows such
/// names or says nothing of them, and is put in lower case as a whole where
/// the policy forbids them; reserved words are escaped after that.
pub proof fn lemma_uppercase_policy(
    casing: Casing,
    allow_uppercase_vars: Option<bool>,
    keywords: Seq<Seq<char>>,
    name: Seq<char>,
)
    requires
        all_uppercase(name),
    ensures
        allow_uppercase_vars != Some(false) ==> converted_name(casing, allow_uppercase_vars, name)
            == name,
        allow_uppercase_vars == Some(false) ==> converted_name(casing, allow_uppercase_vars, name)
            == lowercase_of(name),
        allow_uppercase_vars != Some(false) ==> transformed_name(
            casing,
            allow_uppercase_vars,
            keywords,
            name,
        ) == escaped(keywords, name),
        allow_uppercase_vars == Some(false) ==> transformed_name(
            casing,
            allow_uppercase_vars,
            keywords,
            name,
        ) == escaped(keywords, lowercase_of(name)),
{
}

/// A run holds characters of its kind alone, and what follows it, if
/// anything does, is of the other kind.
pub proof fn lemma_run_is_maximal(s: Seq<char>, lower: bool)
    ensures
        run_len(s, lower) <= s.len(),
        forall|i: int| 0 <= i < run_len(s, lower) ==> is_lower(#[trigger] s[i]) == lower,
        run_len(s, lower) < s.len() ==> is_lower(s[run_len(s, lower) as int]) != lower,
    decreases s.len(),
{
    if s.len() > 0 && is_lower(s[0]) == lower {
        let rest = s.drop_first();
        lemma_run_is_maximal(rest, lower);
        assert forall|i: int| 0 <= i < run_len(s, lower) implies is_lower(#[trigger] s[i])
            == lower by {
            if i > 0 {
                assert(s[i] == rest[i - 1]);
            }
        }
        if run_len(s, lower) < s.len() {
            assert(s[run_len(s, lower) as int] == rest[run_len(rest, lower) as int]);
        }
    }
}

/// The first word of a text is a longest one: it begins with all the
/// characters that are not lower-case letters up to the first that is,
/// goes on with all the lower-case letters that follow, and where the text
/// goes on after it, the word ends in a lower-case letter and the next
/// character is none.
pub proof fn lemma_first_word_is_maximal(s: Seq<char>)
    requires
        s.len() > 0,
    ensures
        run_len(s, false) <= word_len(s) <= s.len(),
        forall|i: int| 0 <= i < run_len(s, false) ==> !is_lower(#[trigger] s[i]),
        forall|i: int| run_len(s, false) <= i < word_len(s) ==> is_lower(#[trigger] s[i]),
        word_len(s) < s.len() ==> run_len(s, false) < word_len(s) && !is_lower(
            s[word_len(s) as int],
        ),
{
    let b = run_len(s, false) as int;
    let tail = s.skip(b);
    let l = run_len(tail, true) as int;
    lemma_run_is_maximal(s, false);
    lemma_run_is_maximal(tail, true);
    assert forall|i: int| b <= i < b + l implies is_lower(#[trigger] s[i]) by {
        assert(s[i] == tail[i - b]);
    }
    if b + l < s.len() {
        assert(s[b + l] == tail[l]);
        if l == 0 {
            assert(tail[0] == s[b]);
        }
    }
}

/// Whether a word ends right before position `k` of the text: a lower-case
/// letter stands before it and none at it.
pub open spec fn is_boundary(s: Seq<char>, k: int) -> bool {
    1 <= k < s.len() && is_lower(s[k - 1]) && !is_lower(s[k])
}

/// The number of positions from 1 to `n` before which a word ends.
pub open spec fn boundaries(s: Seq<char>, n: nat) -> nat
    decreases n,
{
    if n == 0 {
        0
    } else {
        boundaries(s, (n - 1) as nat) + if is_boundary(s, n as int) {
            1nat
        } else {
            0nat
        }
    }
}

/// The number of words of a text: none for the empty text, else one more
/// than there are positions at which a lower-case letter is followed by a
/// character that is none.
pub open spec fn word_count(s: Seq<char>) -> nat {
    if s.len() == 0 {
        0
    } else {
        boundaries(s, (s.len() - 1) as nat) + 1
    }
}

/// No word ends inside the first word of a text.
proof fn lemma_no_boundary_in_first_word(s: Seq<char>, n: nat)
    requires
        s.len() > 0,
        n < word_len(s),
    ensures
        boundaries(s, n) == 0,
    decreases n,
{
    if n > 0 {
        lemma_no_boundary_in_first_word(s, (n - 1) as nat);
        lemma_first_word_is_maximal(s);
        let b = run_len(s, false) as int;
        if n < b {
            assert(!is_lower(s[n as int]));
            assert(!is_lower(s[n - 1]));
        } else if n == b {
            assert(!is_lower(s[n - 1]));
        } else {
            assert(is_lower(s[n as int]));
        }
    }
}

/// The positions at which words end in what follows the first `w`
/// characters of a text are those of the text, `w` further on.
proof fn lemma_boundaries_shift(s: Seq<char>, w: int, m: nat)
    requires
        1 <= w,
        w + m < s.len(),
    ensures
        boundaries(s.skip(w), m) == boundaries(s, (w + m) as nat) - boundaries(s, w as nat),
    decreases m,
{
    if m > 0 {
        lemma_boundaries_shift(s, w, (m - 1) as nat);
        let rest = s.skip(w);
        assert(rest[m as int] == s[w + m]);
        assert(rest[m - 1] == s[w + m - 1]);
        assert(is_boundary(rest, m as int) == is_boundary(s, w + m));
    }
}

/// An identifier is cut into as many words as its letters call for: one,
/// and one more for each lower-case letter that is followed by a character
/// that is none.
pub proof fn lemma_word_count(s: Seq<char>)
    ensures
        ident_pieces(s).len() == word_count(s),
        words_of(s).len() == word_count(s),
    decreases s.len(),
{
    if s.len() > 0 {
        let w = word_len(s) as int;
        lemma_word_len_bound(s);
        lemma_first_word_is_maximal(s);
        let rest = s.skip(w);
        lemma_word_count(rest);
        lemma_no_boundary_in_first_word(s, (w - 1) as nat);
        if w < s.len() {
            assert(is_boundary(s, w));
            lemma_boundaries_shift(s, w, (s.len() - 1 - w) as nat);
            assert(boundaries(s, w as nat) == 1);
        }
    }
}

/// The words of an ASCII identifier are its pieces letter by letter in
/// lower case: none is empty, and put together they are the identifier in
/// ASCII lower case.
pub proof fn lemma_ascii_words(s: Seq<char>)
    requires
        is_ascii_text(s),
    ensures
        words_of(s).flatten() == ascii_lower(s),
        words_of(s).len() == ident_pieces(s).len(),
        forall|i: int|
            0 <= i < words_of(s).len() ==> (#[trigger] words_of(s)[i]).len() > 0 && words_of(s)[i]
                == ascii_lower(ident_pieces(s)[i]),
    decreases s.len(),
{
    if s.len() == 0 {
        assert(words_of(s) =~= Seq::<Seq<char>>::empty());
        assert(words_of(s).flatten() =~= ascii_lower(s));
    } else {
        let w = word_len(s) as int;
        lemma_word_len_bound(s);
        let first = s.take(w);
        let rest = s.skip(w);
        assert(is_ascii_text(first)) by {
            assert forall|i: int| 0 <= i < first.len() implies crate::text::is_ascii_char(
                #[trigger] first[i],
            ) by {
                assert(first[i] == s[i]);
            }
        }
        assert(is_ascii_text(rest)) by {
            assert forall|i: int| 0 <= i < rest.len() implies crate::text::is_ascii_char(
                #[trigger] rest[i],
            ) by {
                assert(rest[i] == s[i + w]);
            }
        }
        lemma_ascii_words(rest);
        lemma_words_unfold(s);
        let head = seq![ascii_lower(first)];
        assert(words_of(s) == head + words_of(rest));
        vstd::seq_lib::lemma_flatten_concat(head, words_of(rest));
        assert(head.flatten() =~= ascii_lower(first)) by {
            assert(head.drop_first() =~= Seq::<Seq<char>>::empty());
            assert(head.drop_first().flatten() =~= Seq::<char>::empty());
        }
        assert(ascii_lower(first) + ascii_lower(rest) =~= ascii_lower(s));
        assert(ident_pieces(s) == seq![first] + ident_pieces(rest));
        assert forall|i: int| 0 <= i < words_of(s).len() implies (#[trigger] words_of(s)[i]).len()
            > 0 && words_of(s)[i] == ascii_lower(ident_pieces(s)[i]) by {
            if i > 0 {
                assert(words_of(s)[i] == words_of(rest)[i - 1]);
                assert(ident_pieces(s)[i] == ident_pieces(rest)[i - 1]);
            }
        }
    }
}

/// Pascal case and camel case of an identifier that begins with an ASCII
/// character keep its length and every character after the first; the
/// first is put in upper case for pascal case and in lower case for camel
/// case, and nothing is put between the characters.
pub proof fn lemma_ascii_first_character_casings(s: Seq<char>)
    requires
        s.len() > 0,
        crate::text::is_ascii_char(s[0]),
    ensures
        pascal_case(s) == seq![ascii_upper_char(s[0])] + s.skip(1),
        camel_case(s) == seq![ascii_lower_char(s[0])] + s.skip(1),
        pascal_case(s).len() == s.len(),
        camel_case(s).len() == s.len(),
        pascal_case(s).skip(1) == s.skip(1),
        camel_case(s).skip(1) == s.skip(1),
        pascal_case(pascal_case(s)) == pascal_case(s),
        camel_case(camel_case(s)) == camel_case(s),
{
    let first = s.take(1);
    assert(first =~= seq![s[0]]);
    assert(is_ascii_text(first));
    assert(uppercase_of(first) =~= seq![ascii_upper_char(s[0])]);
    assert(lowercase_of(first) =~= seq![ascii_lower_char(s[0])]);
    let p = pascal_case(s);
    let c = camel_case(s);
    assert(p.skip(1) =~= s.skip(1));
    assert(c.skip(1) =~= s.skip(1));
    assert(p.take(1) =~= seq![ascii_upper_char(s[0])]);
    assert(c.take(1) =~= seq![ascii_lower_char(s[0])]);
    assert(is_ascii_text(p.take(1)));
    assert(is_ascii_text(c.take(1)));
    assert(uppercase_of(p.take(1)) =~= seq![ascii_upper_char(ascii_upper_char(s[0]))]);
    assert(lowercase_of(c.take(1)) =~= seq![ascii_lower_char(ascii_lower_char(s[0]))]);
    assert(pascal_case(p) =~= p);
    assert(camel_case(c) =~= c);
}

} // verus!
