use stubgen::error::SyntaxError;
use stubgen::parser::{
    join_term, length_type, lines, parse_generator_stub, parse_join_terms, patch_cmd, terms_from,
    variable_from, Parser,
};
use stubgen::tokenizer::tokenize;
use stubgen::types::{
    Cmd, InputComment, JoinTerm, JoinTermType, LengthType, Stub, VariableCommand,
};

fn s(text: &str) -> String {
    text.to_string()
}

fn strings(items: &[&str]) -> Vec<String> {
    items.iter().map(|i| i.to_string()).collect()
}

fn tokens(text: &str) -> Vec<String> {
    tokenize(text).iter().map(|t| t.iter().collect()).collect()
}

fn parse(text: &str) -> Stub {
    parse_generator_stub(s(text)).expect("the stub generator is well formed")
}

fn int_var(name: &str) -> VariableCommand {
    VariableCommand::Int { name: s(name) }
}

fn write(lines: &[&str], output: &[&str]) -> Cmd {
    Cmd::Write { lines: strings(lines), output_comment: strings(output) }
}

fn literal(name: &str) -> JoinTerm {
    JoinTerm { name: s(name), term_type: JoinTermType::Literal }
}

fn variable(name: &str) -> JoinTerm {
    JoinTerm { name: s(name), term_type: JoinTermType::Variable }
}

#[test]
fn tokens_are_cut_at_spaces_and_line_breaks() {
    assert_eq!(tokens("read a:int"), strings(&["read", "a:int"]));
    assert_eq!(tokens("a\nb"), strings(&["a", "\n", "b"]));
    assert_eq!(tokens(""), strings(&[""]));
    assert_eq!(tokens("a  b"), strings(&["a", "", "b"]));
}

#[test]
fn blank_lines_become_two_line_breaks() {
    assert_eq!(tokens("a\n\nb"), strings(&["a", "\n", "\n", "b"]));
    assert_eq!(tokens("a\n\n\nb"), strings(&["a", "\n", "\n", "", "\n", "b"]));
    assert_eq!(tokens("a\n"), strings(&["a", "\n", ""]));
}

#[test]
fn read_parses_every_kind_of_variable() {
    let stub = parse("read a:int b:float c:long d:bool e:word(10) f:string(n)");
    assert_eq!(
        stub.commands,
        vec![Cmd::Read(vec![
            int_var("a"),
            VariableCommand::Float { name: s("b") },
            VariableCommand::Long { name: s("c") },
            VariableCommand::Bool { name: s("d") },
            VariableCommand::Word {
                name: s("e"),
                max_length: s("10"),
                length_type: LengthType::Number
            },
            VariableCommand::String {
                name: s("f"),
                max_length: s("n"),
                length_type: LengthType::Variable
            },
        ])]
    );
    assert_eq!(stub.statement, "");
    assert!(stub.input_comments.is_empty());
}

#[test]
fn two_reads_on_two_lines() {
    let stub = parse("read n:int\nread x:int y:int\n");
    assert_eq!(stub.commands, vec![Cmd::Read(vec![int_var("n")]), Cmd::Read(vec![int_var("x"), int_var("y")])]);
}

#[test]
fn write_gathers_text_up_to_a_blank_line() {
    let stub = parse("write hello world\n\nread a:int");
    assert_eq!(stub.commands, vec![write(&["hello world"], &[]), Cmd::Read(vec![int_var("a")])]);
}

#[test]
fn write_keeps_its_lines_apart() {
    let stub = parse("write one two\nthree\n\n");
    assert_eq!(stub.commands, vec![write(&["one two ", "three"], &[])]);
}

#[test]
fn write_without_text_has_no_lines() {
    let stub = parse("write\n\n");
    assert_eq!(stub.commands, vec![write(&[], &[])]);
}

#[test]
fn join_terms_come_in_order() {
    let stub = parse("write join(\"a=\", a, \"b=\", b)");
    assert_eq!(
        stub.commands,
        vec![Cmd::WriteJoin {
            join_terms: vec![literal("a="), variable("a"), literal("b="), variable("b")],
            output_comment: vec![],
        }]
    );
}

#[test]
fn join_with_one_term_closes_at_once() {
    let stub = parse("write join(total)\nread a:int");
    assert_eq!(
        stub.commands,
        vec![
            Cmd::WriteJoin { join_terms: vec![variable("total")], output_comment: vec![] },
            Cmd::Read(vec![int_var("a")]),
        ]
    );
}

#[test]
fn join_passes_over_the_rest_of_its_line() {
    let stub = parse("write join(a, b) trailing words\nread c:int");
    assert_eq!(
        stub.commands,
        vec![
            Cmd::WriteJoin { join_terms: vec![variable("a"), variable("b")], output_comment: vec![] },
            Cmd::Read(vec![int_var("c")]),
        ]
    );
}

#[test]
fn join_that_never_closes_is_an_error() {
    assert_eq!(parse_generator_stub(s("write join(a, b")), Err(SyntaxError::UnclosedJoin));
}

#[test]
fn join_without_arguments_is_an_error() {
    assert_eq!(
        parse_generator_stub(s("write join()")),
        Err(SyntaxError::MalformedJoin(s("join()")))
    );
}

#[test]
fn join_terms_from_raw_text() {
    assert_eq!(
        parse_join_terms("join(\"x\",y)"),
        Ok(vec![literal("x"), variable("y")])
    );
    assert_eq!(parse_join_terms("nothing"), Err(SyntaxError::MalformedJoin(s("nothing"))));
}

#[test]
fn join_term_is_literal_when_quoted() {
    assert_eq!(join_term(s("\"a\""), Some(s("a"))), literal("a"));
    assert_eq!(join_term(s("a"), None), variable("a"));
    assert_eq!(terms_from(&strings(&["\"hi\"", "x"])), Ok(vec![literal("hi"), variable("x")]));
    assert_eq!(terms_from(&vec![]), Ok(vec![]));
}

#[test]
fn output_text_reaches_the_write_before_it() {
    let stub = parse("write \"a\"\nwrite \"b\"\n\nOUTPUT\nhello\n\n");
    assert_eq!(stub.commands, vec![write(&["\"a\" ", "write \"b\""], &["hello"])]);
}

#[test]
fn output_text_reaches_every_write_without_one() {
    let stub = parse("write \"a\"\n\nwrite \"b\"\n\nOUTPUT\nhello\n\n");
    assert_eq!(stub.commands, vec![write(&["\"a\""], &["hello"]), write(&["\"b\""], &["hello"])]);
}

#[test]
fn output_text_reaches_a_write_inside_a_loop() {
    let stub = parse("loop n \n write \"x\"\n\nOUTPUT\nhello\n\n");
    assert_eq!(
        stub.commands,
        vec![Cmd::Loop { count_var: s("n"), command: Box::new(write(&["\"x\""], &["hello"])) }]
    );
}

#[test]
fn second_output_text_goes_to_later_writes_only() {
    let stub = parse("write a\n\nOUTPUT\nfirst\n\nwrite b\n\nOUTPUT\nsecond line\nmore\n\n");
    assert_eq!(
        stub.commands,
        vec![write(&["a"], &["first"]), write(&["b"], &["second line ", "more"])]
    );
}

#[test]
fn output_text_leaves_other_commands_alone() {
    let stub = parse("read a:int\nwrite join(a)\nOUTPUT\nhello\n\n");
    assert_eq!(
        stub.commands,
        vec![
            Cmd::Read(vec![int_var("a")]),
            Cmd::WriteJoin { join_terms: vec![variable("a")], output_comment: vec![] },
        ]
    );
}

#[test]
fn patching_is_done_once() {
    let once = patch_cmd(write(&["a"], &[]), &strings(&["x"]));
    assert_eq!(once, write(&["a"], &["x"]));
    let twice = patch_cmd(once, &strings(&["y"]));
    assert_eq!(twice, write(&["a"], &["x"]));
    let read = patch_cmd(Cmd::Read(vec![int_var("a")]), &strings(&["x"]));
    assert_eq!(read, Cmd::Read(vec![int_var("a")]));
}

#[test]
fn patching_a_stub_keeps_the_order() {
    let mut stub = Stub::new();
    stub.commands.push(write(&["a"], &[]));
    stub.commands.push(Cmd::Read(vec![int_var("n")]));
    stub.commands.push(write(&["b"], &["kept"]));
    stub.commands.push(Cmd::Loop {
        count_var: s("n"),
        command: Box::new(Cmd::Loop { count_var: s("m"), command: Box::new(write(&["c"], &[])) }),
    });
    Parser::recursively_backward_update_output(&mut stub, &strings(&["out"]));
    assert_eq!(
        stub.commands,
        vec![
            write(&["a"], &["out"]),
            Cmd::Read(vec![int_var("n")]),
            write(&["b"], &["kept"]),
            Cmd::Loop {
                count_var: s("n"),
                command: Box::new(Cmd::Loop {
                    count_var: s("m"),
                    command: Box::new(write(&["c"], &["out"]))
                }),
            },
        ]
    );
}

#[test]
fn loop_on_one_line() {
    let stub = parse("loop n read a:int\n");
    assert_eq!(
        stub.commands,
        vec![Cmd::Loop { count_var: s("n"), command: Box::new(Cmd::Read(vec![int_var("a")])) }]
    );
}

#[test]
fn loops_nest() {
    let stub = parse("loop n loop m loopline k x:int\n");
    assert_eq!(
        stub.commands,
        vec![Cmd::Loop {
            count_var: s("n"),
            command: Box::new(Cmd::Loop {
                count_var: s("m"),
                command: Box::new(Cmd::LoopLine { count_var: s("k"), variables: vec![int_var("x")] }),
            }),
        }]
    );
}

#[test]
fn loopline_reads_its_variables() {
    let stub = parse("loopline n x:int y:word(5)\n");
    assert_eq!(
        stub.commands,
        vec![Cmd::LoopLine {
            count_var: s("n"),
            variables: vec![
                int_var("x"),
                VariableCommand::Word {
                    name: s("y"),
                    max_length: s("5"),
                    length_type: LengthType::Number
                }
            ],
        }]
    );
}

#[test]
fn loop_without_anything_is_an_error() {
    assert_eq!(parse_generator_stub(s("loop")), Err(SyntaxError::MissingLoopCount));
    assert_eq!(parse_generator_stub(s("loop\n")), Err(SyntaxError::MissingLoopCount));
    assert_eq!(parse_generator_stub(s("read a:int\nloop")), Err(SyntaxError::MissingLoopCount));
}

#[test]
fn loop_without_a_statement_is_an_error() {
    assert_eq!(parse_generator_stub(s("loop n")), Err(SyntaxError::MissingLoopCommand));
    assert_eq!(parse_generator_stub(s("loop n\n")), Err(SyntaxError::MissingLoopCommand));
    assert_eq!(
        parse_generator_stub(s("loop n OUTPUT")),
        Err(SyntaxError::UnexpectedLoopCommand(s("OUTPUT")))
    );
}

#[test]
fn loopline_without_a_count_is_an_error() {
    assert_eq!(parse_generator_stub(s("loopline")), Err(SyntaxError::MissingLooplineCount));
}

#[test]
fn unknown_statement_is_an_error() {
    assert_eq!(
        parse_generator_stub(s("print a")),
        Err(SyntaxError::UnexpectedToken(s("print")))
    );
}

#[test]
fn variable_errors_name_the_token() {
    assert_eq!(parse_generator_stub(s("read a")), Err(SyntaxError::MissingType(s("a"))));
    assert_eq!(
        parse_generator_stub(s("read a:integer")),
        Err(SyntaxError::UnknownType(s("a:integer")))
    );
    assert_eq!(Parser::parse_variable("x:"), Err(SyntaxError::UnknownType(s("x:"))));
    assert_eq!(Parser::parse_variable("x:int"), Ok(int_var("x")));
}

#[test]
fn variable_from_parts() {
    assert_eq!(variable_from("a:int", s("a"), "int", None, None), Ok(int_var("a")));
    assert_eq!(
        variable_from("a:word(3)", s("a"), "word(3)", Some(s("word")), Some(s("3"))),
        Ok(VariableCommand::Word {
            name: s("a"),
            max_length: s("3"),
            length_type: LengthType::Number
        })
    );
    assert_eq!(
        variable_from("a:list(3)", s("a"), "list(3)", Some(s("list")), Some(s("3"))),
        Err(SyntaxError::UnknownType(s("a:list(3)")))
    );
    assert_eq!(
        variable_from("a:x", s("a"), "x", None, None),
        Err(SyntaxError::UnknownType(s("a:x")))
    );
}

#[test]
fn bounds_are_numbers_or_names() {
    assert_eq!(length_type("10"), LengthType::Number);
    assert_eq!(length_type("0"), LengthType::Number);
    assert_eq!(length_type("n"), LengthType::Variable);
    assert_eq!(length_type("1n"), LengthType::Variable);
    assert_eq!(length_type(""), LengthType::Variable);
}

#[test]
fn lines_of_a_text() {
    assert_eq!(lines(""), Vec::<String>::new());
    assert_eq!(lines("a"), strings(&["a"]));
    assert_eq!(lines("a\nb"), strings(&["a", "b"]));
    assert_eq!(lines("a\n"), strings(&["a", ""]));
}

#[test]
fn statement_and_input_comments() {
    let stub = parse(
        "read n:int\nSTATEMENT\nSum the numbers\nof the input\n\nINPUT\nn: the count\nignored line\nm: another one\n\n",
    );
    assert_eq!(stub.statement, "Sum the numbers \nof the input");
    assert_eq!(
        stub.input_comments,
        vec![
            InputComment { variable: s("n"), description: s("the count") },
            InputComment { variable: s("m"), description: s("another one") },
        ]
    );
    assert_eq!(stub.commands, vec![Cmd::Read(vec![int_var("n")])]);
}

#[test]
fn parser_methods_move_through_the_tokens() {
    let mut parser = Parser::new(tokenize("a b\nc d\n\ne"));
    assert_eq!(parser.read_to_end_of_line(), "a b");
    assert_eq!(parser.pos, 3);
    parser.skip_to_next_line();
    assert_eq!(parser.pos, 6);
    assert_eq!(parser.parse_text_block(), "\ne");
    assert_eq!(parser.pos, 8);
    let mut parser = Parser::new(tokenize("x y\nz\n\nrest"));
    assert_eq!(parser.parse_text_block(), "x y \nz");
    assert_eq!(parser.pos, 6);
    assert_eq!(parser.parse_statement(), "");
    assert_eq!(parser.pos, 7);
}

#[test]
fn empty_text_is_an_empty_stub() {
    let stub = parse("");
    assert_eq!(stub, Stub::new());
    let stub = parse("\n\n\n");
    assert_eq!(stub, Stub::new());
}

#[test]
fn types_are_trimmed_at_their_end() {
    let stub = parse("read a:int\r\nread b:word(4)\t\n");
    assert_eq!(
        stub.commands,
        vec![
            Cmd::Read(vec![int_var("a")]),
            Cmd::Read(vec![VariableCommand::Word {
                name: s("b"),
                max_length: s("4"),
                length_type: LengthType::Number
            }]),
        ]
    );
}

#[test]
fn bounded_variables_need_a_bound() {
    assert_eq!(
        variable_from("a:word()", s("a"), "word()", Some(s("word")), Some(s(""))),
        Err(SyntaxError::UnknownType(s("a:word()")))
    );
    assert_eq!(
        parse_generator_stub(s("read a:word()")),
        Err(SyntaxError::UnknownType(s("a:word()")))
    );
}

#[test]
fn white_space_is_what_the_alphabet_calls_so() {
    for code in 0u32..=0x10FFFF {
        if let Some(c) = char::from_u32(code) {
            assert_eq!(stubgen::text::is_white_space(c), c.is_whitespace(), "U+{:04X}", code);
        }
    }
    for text in ["", "int", "int \t\r\n", " int", "a b  ", "\u{3000}x\u{3000}\u{a0}", "  "] {
        assert_eq!(stubgen::text::trim_end(text), text.trim_end());
    }
}

#[test]
fn scalar_types_need_no_pattern() {
    assert_eq!(Parser::parse_variable("count:int"), Ok(int_var("count")));
    assert_eq!(
        Parser::parse_variable("x:float \t"),
        Ok(VariableCommand::Float { name: s("x") })
    );
    assert_eq!(Parser::parse_variable(":long"), Ok(VariableCommand::Long { name: s("") }));
    assert_eq!(Parser::parse_variable("b:bool:rest"), Ok(VariableCommand::Bool { name: s("b") }));
    assert!(stubgen::parser::is_scalar("int"));
    assert!(!stubgen::parser::is_scalar("int "));
    assert!(!stubgen::parser::is_scalar("word(3)"));
}
