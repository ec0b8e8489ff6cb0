use stubgen::parser::parse_generator_stub;
use stubgen::preprocessor::init_read_declarations::{
    index_letter, letter_used, unpack_cmd, unused_letters, LoweringError,
};
use stubgen::preprocessor::{init_read_declarations, lisp_like};
use stubgen::types::{Cmd, Stub, VariableCommand};

fn s(text: &str) -> String {
    text.to_string()
}

fn int_var(name: &str) -> VariableCommand {
    VariableCommand::Int { name: s(name) }
}

fn read(names: &[&str]) -> Cmd {
    Cmd::Read(names.iter().map(|n| int_var(n)).collect())
}

fn write(text: &str) -> Cmd {
    Cmd::Write { lines: vec![s(text)], output_comment: vec![] }
}

fn nest(counts: &[&str], inner: Cmd) -> Cmd {
    let mut cmd = inner;
    for count in counts.iter().rev() {
        cmd = Cmd::Loop { count_var: s(count), command: Box::new(cmd) };
    }
    cmd
}

fn stub_of(commands: Vec<Cmd>) -> Stub {
    let mut stub = Stub::new();
    stub.commands = commands;
    stub
}

fn declared(stub: &Stub) -> Vec<String> {
    match &stub.commands[..] {
        [Cmd::MainWrapper { forward_declarations, .. }] => {
            forward_declarations.iter().map(|v| v.name().clone()).collect()
        }
        _ => panic!("the commands are not wrapped"),
    }
}

#[test]
fn hoisting_wraps_the_commands() {
    let mut stub = stub_of(vec![read(&["a", "b"]), write("x"), nest(&["a"], read(&["c"]))]);
    assert_eq!(init_read_declarations::transform(&mut stub), Ok(()));
    assert_eq!(
        stub.commands,
        vec![Cmd::MainWrapper {
            forward_declarations: vec![int_var("a"), int_var("b"), int_var("c"), int_var("i")],
            main_content: vec![read(&["a", "b"]), write("x"), nest(&["a"], read(&["c"]))],
        }]
    );
}

#[test]
fn three_levels_of_loops_get_i_j_k() {
    let mut stub = stub_of(vec![read(&["n"]), nest(&["n", "n", "n"], read(&["x"]))]);
    assert_eq!(init_read_declarations::transform(&mut stub), Ok(()));
    assert_eq!(declared(&stub), vec!["n", "x", "i", "j", "k"]);
}

#[test]
fn a_letter_in_use_is_replaced_by_the_next() {
    let mut stub = stub_of(vec![read(&["i"]), nest(&["i", "i", "i"], read(&["x"]))]);
    assert_eq!(init_read_declarations::transform(&mut stub), Ok(()));
    assert_eq!(declared(&stub), vec!["i", "x", "j", "k", "l"]);
}

#[test]
fn no_loops_no_index_variables() {
    let mut stub = stub_of(vec![read(&["a"])]);
    assert_eq!(init_read_declarations::transform(&mut stub), Ok(()));
    assert_eq!(declared(&stub), vec!["a"]);
    let mut stub = Stub::new();
    assert_eq!(init_read_declarations::transform(&mut stub), Ok(()));
    assert_eq!(
        stub.commands,
        vec![Cmd::MainWrapper { forward_declarations: vec![], main_content: vec![] }]
    );
}

#[test]
fn looplines_declare_nothing() {
    let mut stub = stub_of(vec![Cmd::LoopLine { count_var: s("n"), variables: vec![int_var("x")] }]);
    assert_eq!(init_read_declarations::transform(&mut stub), Ok(()));
    assert_eq!(declared(&stub), Vec::<String>::new());
}

#[test]
fn eighteen_levels_are_the_limit() {
    let counts: Vec<&str> = std::iter::repeat("n").take(18).collect();
    let mut stub = stub_of(vec![nest(&counts, write("x"))]);
    assert_eq!(init_read_declarations::transform(&mut stub), Ok(()));
    assert_eq!(
        declared(&stub),
        vec!["i", "j", "k", "l", "m", "n", "o", "p", "q", "r", "s", "t", "u", "v", "w", "x", "y", "z"]
    );
    let counts: Vec<&str> = std::iter::repeat("n").take(19).collect();
    let mut stub = stub_of(vec![nest(&counts, write("x"))]);
    assert_eq!(init_read_declarations::transform(&mut stub), Err(LoweringError::NestingTooDeep));
    assert_eq!(stub.commands, vec![nest(&counts, write("x"))]);
}

#[test]
fn too_few_letters_left_is_an_error() {
    let counts: Vec<&str> = std::iter::repeat("n").take(18).collect();
    let mut stub = stub_of(vec![read(&["z"]), nest(&counts, write("x"))]);
    assert_eq!(init_read_declarations::transform(&mut stub), Err(LoweringError::NestingTooDeep));
}

#[test]
fn unpacking_counts_the_loops() {
    let cmd = nest(&["a", "b"], read(&["x"]));
    let (inner, depth) = unpack_cmd(&cmd, 0);
    assert_eq!(*inner, read(&["x"]));
    assert_eq!(depth, 2);
    let cmd = write("x");
    let (inner, depth) = unpack_cmd(&cmd, 0);
    assert_eq!(*inner, write("x"));
    assert_eq!(depth, 0);
    let counts: Vec<&str> = std::iter::repeat("n").take(30).collect();
    let cmd = nest(&counts, write("x"));
    assert_eq!(unpack_cmd(&cmd, 0).1, 19);
    assert_eq!(unpack_cmd(&cmd, 5).1, 19);
}

#[test]
fn index_letters_start_at_i() {
    assert_eq!(index_letter(0), 'i');
    assert_eq!(index_letter(1), 'j');
    assert_eq!(index_letter(17), 'z');
    assert!(letter_used(&vec![int_var("i"), int_var("ab")], 'i'));
    assert!(!letter_used(&vec![int_var("i"), int_var("ab")], 'a'));
    assert_eq!(
        unused_letters(&vec![int_var("j"), int_var("z")]),
        vec!['i', 'k', 'l', 'm', 'n', 'o', 'p', 'q', 'r', 's', 't', 'u', 'v', 'w', 'x', 'y']
    );
}

#[test]
fn consecutive_reads_share_a_batch() {
    let mut stub = stub_of(vec![read(&["a"]), read(&["b"]), write("x")]);
    lisp_like::transform(&mut stub);
    assert_eq!(
        stub.commands,
        vec![Cmd::ReadBatch {
            line_readers: vec![read(&["a"]), read(&["b"])],
            nested_cmds: vec![write("x")],
        }]
    );
}

#[test]
fn later_reads_nest_inside_earlier_ones() {
    let mut stub =
        stub_of(vec![read(&["a"]), read(&["b"]), write("w1"), read(&["c"]), write("w2")]);
    lisp_like::transform(&mut stub);
    assert_eq!(
        stub.commands,
        vec![Cmd::ReadBatch {
            line_readers: vec![read(&["a"]), read(&["b"])],
            nested_cmds: vec![
                write("w1"),
                Cmd::ReadBatch { line_readers: vec![read(&["c"])], nested_cmds: vec![write("w2")] },
            ],
        }]
    );
}

#[test]
fn commands_before_the_first_read_stay_in_front() {
    let mut stub = stub_of(vec![write("w"), read(&["a"])]);
    lisp_like::transform(&mut stub);
    assert_eq!(
        stub.commands,
        vec![write("w"), Cmd::ReadBatch { line_readers: vec![read(&["a"])], nested_cmds: vec![] }]
    );
}

#[test]
fn a_read_inside_a_loop_is_a_batch_of_its_own() {
    let mut stub = stub_of(vec![nest(&["n", "m"], read(&["a"])), nest(&["n"], write("w"))]);
    lisp_like::transform(&mut stub);
    assert_eq!(
        stub.commands,
        vec![
            nest(
                &["n", "m"],
                Cmd::ReadBatch { line_readers: vec![read(&["a"])], nested_cmds: vec![] }
            ),
            nest(&["n"], write("w")),
        ]
    );
    assert_eq!(
        lisp_like::transform_loop(read(&["a"])),
        Cmd::ReadBatch { line_readers: vec![read(&["a"])], nested_cmds: vec![] }
    );
    assert!(lisp_like::is_read(&read(&["a"])));
    assert!(!lisp_like::is_read(&write("a")));
}

#[test]
fn batching_keeps_statement_and_comments() {
    let mut stub = parse_generator_stub(s(
        "read n:int\nwrite answer\n\nSTATEMENT\nDo it\n\nINPUT\nn: a number\n\n",
    ))
    .unwrap();
    lisp_like::transform(&mut stub);
    assert_eq!(stub.statement, "Do it");
    assert_eq!(stub.input_comments.len(), 1);
    assert_eq!(
        stub.commands,
        vec![Cmd::ReadBatch {
            line_readers: vec![read(&["n"])],
            nested_cmds: vec![write("answer")],
        }]
    );
}

#[test]
fn batching_nothing_gives_nothing() {
    let mut stub = Stub::new();
    lisp_like::transform(&mut stub);
    assert_eq!(stub, Stub::new());
}
