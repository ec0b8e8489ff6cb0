use stubgen::casing::{Casing, VariableNameOptions};
use stubgen::context::{
    bindings_value, external_context, format_symbols_value, forward_declaration_context, index_ident_value,
    keep_filled, kind_text, length_type_text, lines_of_text, loop_context, loopline_context,
    main_context, main_wrapper_context, read_batch_context, read_many_context, read_one_context,
    single_type_value, template_file_name, term_value, terms_value, type_tokens_value,
    variable_members_value, variable_value, variables_value, write_context, write_join_context,
};
use stubgen::error::RenderError;
use stubgen::json::{array_value, bool_value, null_value, object_value, string_value, strings_value};
use stubgen::parser::parse_generator_stub;
use stubgen::preprocessor::{init_read_declarations, lisp_like};
use stubgen::renderer::{
    context_of, joined, template_outcome, Language, Renderer, StubConfig,
};
use stubgen::types::{
    Cmd, JoinTerm, JoinTermType, LengthType, Stub, VarType, VariableCommand,
};

fn s(text: &str) -> String {
    text.to_string()
}

fn strings(items: &[&str]) -> Vec<String> {
    items.iter().map(|i| i.to_string()).collect()
}

fn snake(keywords: &[&str]) -> VariableNameOptions {
    VariableNameOptions::new(Casing::SnakeCase, None, strings(keywords))
}

fn tokens() -> Vec<(String, String)> {
    vec![(s("Int"), s("int")), (s("Word"), s("str"))]
}

fn int_var(name: &str) -> VariableCommand {
    VariableCommand::Int { name: s(name) }
}

fn word_var(name: &str, bound: &str, length_type: LengthType) -> VariableCommand {
    VariableCommand::Word { name: s(name), max_length: s(bound), length_type }
}

const SYMBOLS: &str = "\"format_symbols\":{\"Bool\":\"%b\",\"Float\":\"%f\",\"Int\":\"%d\",\"Long\":\"%lld\",\"String\":\" %[^\\\\n]\",\"Word\":\"%s\"}";

const TOKENS: &str = "\"type_tokens\":{\"Int\":\"int\",\"Word\":\"str\"}";

fn text_of(members: Vec<(String, String)>) -> String {
    object_value(&members)
}

fn parsed_json(text: &str) -> serde_json::Value {
    serde_json::from_str(text).expect("the text is JSON")
}

#[test]
fn strings_are_escaped() {
    assert_eq!(string_value("abc"), "\"abc\"");
    assert_eq!(string_value(""), "\"\"");
    assert_eq!(string_value("a\"b"), "\"a\\\"b\"");
    assert_eq!(string_value("a\\b"), "\"a\\\\b\"");
    assert_eq!(string_value("a\nb\tc\rd"), "\"a\\nb\\tc\\rd\"");
    assert_eq!(string_value("\u{8}\u{c}\u{b}\u{0}"), "\"\\b\\f\\u000b\\u0000\"");
    assert_eq!(string_value("\u{1f}"), "\"\\u001f\"");
    assert_eq!(string_value("é ü"), "\"é ü\"");
}

#[test]
fn escaped_strings_read_back() {
    for text in ["plain", "a\"b\\c", "line\nbreak\r\ttab", "\u{0}\u{1f} ", "é→ü"] {
        assert_eq!(parsed_json(&string_value(text)), serde_json::Value::String(s(text)));
    }
}

#[test]
fn arrays_and_objects() {
    assert_eq!(array_value(&vec![]), "[]");
    assert_eq!(array_value(&strings(&["1", "true"])), "[1,true]");
    assert_eq!(strings_value(&strings(&["a", "b\""])), "[\"a\",\"b\\\"\"]");
    assert_eq!(object_value(&vec![]), "{}");
    assert_eq!(
        object_value(&vec![(s("k"), s("1")), (s("l\n"), s("[]"))]),
        "{\"k\":1,\"l\\n\":[]}"
    );
    assert_eq!(bool_value(true), "true");
    assert_eq!(bool_value(false), "false");
    assert_eq!(null_value(), "null");
}

#[test]
fn rendered_text_is_cut_into_lines() {
    assert_eq!(lines_of_text(""), Vec::<String>::new());
    assert_eq!(lines_of_text("a"), strings(&["a"]));
    assert_eq!(lines_of_text("a\n"), strings(&["a"]));
    assert_eq!(lines_of_text("a\nb"), strings(&["a", "b"]));
    assert_eq!(lines_of_text("a\r\nb\r\n"), strings(&["a", "b"]));
    assert_eq!(lines_of_text("a\n\nb"), strings(&["a", "", "b"]));
    assert_eq!(lines_of_text("a\r"), strings(&["a\r"]));
    assert_eq!(lines_of_text("\n"), strings(&[""]));
    for text in ["", "a", "a\n", "a\r\nb", "\n\n", "x\r", "a\n\r\nb\n"] {
        let expected: Vec<String> = text.lines().map(|l| l.to_string()).collect();
        assert_eq!(lines_of_text(text), expected);
    }
    assert_eq!(keep_filled(strings(&["a", "", "b", ""])), strings(&["a", "b"]));
    assert_eq!(keep_filled(vec![]), Vec::<String>::new());
}

#[test]
fn every_template_receives_the_format_symbols() {
    assert_eq!(format_symbols_value(), SYMBOLS["\"format_symbols\":".len()..]);
    assert_eq!(text_of(bindings_value(vec![])), format!("{{{}}}", SYMBOLS));
    assert_eq!(
        text_of(bindings_value(vec![(s("a"), s("1"))])),
        format!("{{\"a\":1,{}}}", SYMBOLS)
    );
    assert_eq!(
        parsed_json(&format_symbols_value())["String"],
        serde_json::Value::String(s(" %[^\\n]"))
    );
}

#[test]
fn variables_as_json() {
    assert_eq!(
        variable_value(&int_var("a")),
        "{\"ident\":\"a\",\"var_type\":\"Int\",\"max_length\":null,\"length_type\":null}"
    );
    assert_eq!(
        variable_value(&word_var("w", "n", LengthType::Variable)),
        "{\"ident\":\"w\",\"var_type\":\"Word\",\"max_length\":\"n\",\"length_type\":\"Variable\"}"
    );
    assert_eq!(variable_members_value(&int_var("a")).len(), 4);
    assert_eq!(kind_text(VarType::Long), "Long");
    assert_eq!(kind_text(VarType::String), "String");
    assert_eq!(length_type_text(LengthType::Number), "Number");
    assert_eq!(int_var("a").var_type(), VarType::Int);
    assert_eq!(
        variables_value(&snake(&[]), &vec![int_var("myVar")]),
        "[{\"ident\":\"my_var\",\"var_type\":\"Int\",\"max_length\":null,\"length_type\":null}]"
    );
}

#[test]
fn join_terms_as_json() {
    let term = JoinTerm { name: s("myVar"), term_type: JoinTermType::Variable };
    assert_eq!(term_value(&term), "{\"ident\":\"myVar\",\"term_type\":\"Variable\"}");
    let terms = vec![
        JoinTerm { name: s("myVar="), term_type: JoinTermType::Literal },
        JoinTerm { name: s("myVar"), term_type: JoinTermType::Variable },
    ];
    assert_eq!(
        terms_value(&snake(&[]), &terms),
        "[{\"ident\":\"myVar=\",\"term_type\":\"Literal\"},{\"ident\":\"my_var\",\"term_type\":\"Variable\"}]"
    );
}

#[test]
fn single_type_is_a_kind_or_false() {
    assert_eq!(single_type_value(&vec![]), "false");
    assert_eq!(single_type_value(&vec![int_var("a")]), "\"Int\"");
    assert_eq!(single_type_value(&vec![int_var("a"), int_var("b")]), "\"Int\"");
    assert_eq!(
        single_type_value(&vec![int_var("a"), word_var("b", "3", LengthType::Number)]),
        "false"
    );
}

#[test]
fn index_letters_follow_the_depth() {
    assert_eq!(index_ident_value(0), "\"i\"");
    assert_eq!(index_ident_value(17), "\"z\"");
    assert_eq!(type_tokens_value(&tokens()), TOKENS["\"type_tokens\":".len()..]);
    assert_eq!(template_file_name("read_one", "py"), "read_one.py.jinja");
}

#[test]
fn write_bindings() {
    assert_eq!(
        text_of(write_context(&strings(&["hello"]), &strings(&["the answer"]))),
        format!("{{\"messages\":[\"hello\"],\"output_comments\":[\"the answer\"],{}}}", SYMBOLS)
    );
}

#[test]
fn write_join_bindings_case_variables_only() {
    let terms = vec![
        JoinTerm { name: s("aB"), term_type: JoinTermType::Literal },
        JoinTerm { name: s("aB"), term_type: JoinTermType::Variable },
    ];
    assert_eq!(
        text_of(write_join_context(&snake(&[]), &tokens(), &terms, &vec![])),
        format!(
            "{{\"terms\":[{{\"ident\":\"aB\",\"term_type\":\"Literal\"}},{{\"ident\":\"a_b\",\"term_type\":\"Variable\"}}],{},\"output_comments\":[],{}}}",
            TOKENS, SYMBOLS
        )
    );
}

#[test]
fn read_bindings() {
    assert_eq!(
        text_of(read_one_context(&snake(&["for"]), &tokens(), &int_var("for"))),
        format!(
            "{{\"var\":{{\"ident\":\"_for\",\"var_type\":\"Int\",\"max_length\":null,\"length_type\":null}},{},{}}}",
            TOKENS, SYMBOLS
        )
    );
    assert_eq!(
        read_many_context(&snake(&[]), &tokens(), &vec![int_var("a"), int_var("b")], 1).map(text_of),
        Ok(format!(
            "{{\"single_type\":\"Int\",\"vars\":[{{\"ident\":\"a\",\"var_type\":\"Int\",\"max_length\":null,\"length_type\":null}},{{\"ident\":\"b\",\"var_type\":\"Int\",\"max_length\":null,\"length_type\":null}}],{},\"index_ident\":\"j\",{}}}",
            TOKENS, SYMBOLS
        ))
    );
    assert_eq!(
        read_many_context(&snake(&[]), &tokens(), &vec![], 18).map(text_of),
        Err(RenderError::NestingTooDeep)
    );
}

#[test]
fn loop_bindings() {
    assert_eq!(
        loop_context(&snake(&[]), "nbItems", "a\nb\n", 0).map(text_of),
        Ok(format!(
            "{{\"count_var\":\"nb_items\",\"inner\":[\"a\",\"b\"],\"index_ident\":\"i\",{}}}",
            SYMBOLS
        ))
    );
    assert_eq!(
        loop_context(&snake(&[]), "n", "", 18).map(text_of),
        Err(RenderError::NestingTooDeep)
    );
    assert_eq!(
        loopline_context(&snake(&[]), &tokens(), "N", &vec![int_var("x")], 2).map(text_of),
        Ok(format!(
            "{{\"count_var\":\"N\",\"vars\":[{{\"ident\":\"x\",\"var_type\":\"Int\",\"max_length\":null,\"length_type\":null}}],{},\"index_ident\":\"k\",{}}}",
            TOKENS, SYMBOLS
        ))
    );
    assert_eq!(
        loopline_context(&snake(&[]), &tokens(), "n", &vec![], 40).map(text_of),
        Err(RenderError::NestingTooDeep)
    );
}

#[test]
fn main_and_pass_bindings() {
    assert_eq!(
        text_of(main_context("Do \"it\"", "x\ny")),
        format!("{{\"statement\":\"Do \\\"it\\\"\",\"code_lines\":[\"x\",\"y\"],{}}}", SYMBOLS)
    );
    assert_eq!(
        text_of(forward_declaration_context(&int_var("aB"))),
        format!(
            "{{\"ident\":\"aB\",\"var_type\":\"Int\",\"max_length\":null,\"length_type\":null,{}}}",
            SYMBOLS
        )
    );
    assert_eq!(
        text_of(main_wrapper_context(&strings(&["int a;"]), "read\n")),
        format!("{{\"forward_declarations\":[\"int a;\"],\"main_contents\":[\"read\"],{}}}", SYMBOLS)
    );
    assert_eq!(
        text_of(read_batch_context("r1\n\nr2\n", "\nn1")),
        format!("{{\"read_lines\":[\"r1\",\"r2\"],\"nested_lines\":[\"n1\"],{}}}", SYMBOLS)
    );
}

fn engine(templates: &[(&str, &str)]) -> tera::Tera {
    let mut tera = tera::Tera::default();
    for (name, text) in templates {
        tera.add_raw_template(&format!("{}.py.jinja", name), text).expect("the template parses");
    }
    tera
}

fn python() -> tera::Tera {
    engine(&[
        ("main", "# {{ statement }}\n{% for line in code_lines %}{{ line }}\n{% endfor %}"),
        ("write", "{% for m in messages %}print(\"{{ m }}\")\n{% endfor %}"),
        (
            "write_join",
            "print({% for t in terms %}{% if t.term_type == \"Literal\" %}\"{{ t.ident }}\"{% else %}{{ t.ident }}{% endif %}{% if not loop.last %}, {% endif %}{% endfor %})\n",
        ),
        ("read_one", "{{ var.ident }} = {{ type_tokens[var.var_type] }}(input())\n"),
        (
            "read_many",
            "{% for v in vars %}{{ v.ident }}{% if not loop.last %}, {% endif %}{% endfor %} = input().split()  # {{ index_ident }} {{ single_type }}\n",
        ),
        (
            "loop",
            "for {{ index_ident }} in range({{ count_var }}):\n{% for line in inner %}    {{ line }}\n{% endfor %}",
        ),
        (
            "loopline",
            "for {{ index_ident }} in range({{ count_var }}): {{ vars.0.ident }} = input()\n",
        ),
        ("forward_declaration", "var {{ ident }}: {{ var_type }} {{ format_symbols[var_type] }}"),
        (
            "main_wrapper",
            "{% for d in forward_declarations %}{{ d }}\n{% endfor %}begin\n{% for line in main_contents %}  {{ line }}\n{% endfor %}end\n",
        ),
        (
            "read_batch",
            "(let ({% for r in read_lines %}{{ r }}{% endfor %})\n{% for n in nested_lines %}  {{ n }}\n{% endfor %})\n",
        ),
    ])
}

fn renderer(tera: tera::Tera, stub: Stub) -> Renderer {
    let language = Language {
        source_file_ext: s("py"),
        variable_name_options: snake(&["for"]),
        type_tokens: tokens(),
    };
    Renderer::new(StubConfig { language, tera }, stub).expect("a renderer is always made")
}

fn render(text: &str) -> Result<String, RenderError> {
    let stub = parse_generator_stub(s(text)).expect("the stub generator is well formed");
    renderer(python(), stub).render()
}

#[test]
fn renders_reads_and_writes() {
    assert_eq!(
        render("read nbItems:int\nwrite hello world\n\nSTATEMENT\nGreet\n\n"),
        Ok(s("# Greet\nnb_items = int(input())\nprint(\"hello world\")\n"))
    );
}

#[test]
fn renders_loops_one_level_deeper() {
    assert_eq!(
        render("read n:int\nloop n loop n read firstName:word(10) age:int\n"),
        Ok(s(
            "# \nn = int(input())\nfor i in range(n):\n    for j in range(n):\n        first_name, age = input().split()  # k false\n"
        ))
    );
}

#[test]
fn renders_looplines_and_joins() {
    assert_eq!(
        render("loopline maxCount x:int\nwrite join(\"total=\", myTotal)\n"),
        Ok(s("# \nfor i in range(max_count): x = input()\nprint(\"total=\", my_total)\n"))
    );
}

#[test]
fn renders_reserved_words_escaped() {
    assert_eq!(render("read for:int\n"), Ok(s("# \n_for = int(input())\n")));
}

#[test]
fn renders_hoisted_declarations() {
    let mut stub = parse_generator_stub(s("read a:int\nloop a read b:int\n")).unwrap();
    init_read_declarations::transform(&mut stub).unwrap();
    assert_eq!(
        renderer(python(), stub).render(),
        Ok(s(
            "# \nvar a: Int %d\nvar b: Int %d\nvar i: Int %d\nbegin\n  a = int(input())\n  for i in range(a):\n      b = int(input())\nend\n"
        ))
    );
}

#[test]
fn renders_read_batches() {
    let mut stub = parse_generator_stub(s("read a:int\nread b:int\nwrite done\n\n")).unwrap();
    lisp_like::transform(&mut stub);
    assert_eq!(
        renderer(python(), stub).render(),
        Ok(s("# \n(let (a = int(input())b = int(input()))\n  print(\"done\")\n)\n"))
    );
}

#[test]
fn batching_keeps_what_is_rendered_in_order() {
    let text = "read a:int\nwrite one\n\nread b:int\nloop b read c:int\nwrite two\n\n";
    let bound = |rendered: &str| -> Vec<String> {
        rendered
            .split(|c: char| !c.is_alphanumeric() && c != '_')
            .filter(|w| ["a", "b", "c", "one", "two"].contains(w))
            .map(|w| w.to_string())
            .collect()
    };
    let plain = render(text).unwrap();
    let mut stub = parse_generator_stub(s(text)).unwrap();
    lisp_like::transform(&mut stub);
    let batched = renderer(python(), stub).render().unwrap();
    assert_eq!(bound(&plain), strings(&["a", "one", "b", "b", "c", "two"]));
    assert_eq!(bound(&batched), bound(&plain));
}

#[test]
fn missing_template_is_a_template_error() {
    let stub = parse_generator_stub(s("read a:int\n")).unwrap();
    let tera = engine(&[("main", "{{ statement }}")]);
    assert_eq!(renderer(tera, stub).render(), Err(RenderError::Template(s("read_one"))));
    let tera = engine(&[("read_one", "x")]);
    let stub = parse_generator_stub(s("read a:int\n")).unwrap();
    assert_eq!(renderer(tera, stub).render(), Err(RenderError::Template(s("main"))));
}

#[test]
fn failing_substitution_is_a_template_error() {
    let stub = parse_generator_stub(s("write x\n\n")).unwrap();
    let tera = engine(&[("main", "ok"), ("write", "{{ no_such_binding }}")]);
    assert_eq!(renderer(tera, stub).render(), Err(RenderError::Template(s("write"))));
}

#[test]
fn nineteen_loops_are_too_deep() {
    let mut cmd = Cmd::Write { lines: strings(&["x"]), output_comment: vec![] };
    for _ in 0..18 {
        cmd = Cmd::Loop { count_var: s("n"), command: Box::new(cmd) };
    }
    let mut stub = Stub::new();
    stub.commands.push(cmd);
    let rendered = renderer(python(), stub).render();
    assert!(rendered.is_ok());
    assert!(rendered.unwrap().contains("for z in range(n):"));

    let mut cmd = Cmd::Write { lines: strings(&["x"]), output_comment: vec![] };
    for _ in 0..19 {
        cmd = Cmd::Loop { count_var: s("n"), command: Box::new(cmd) };
    }
    let mut stub = Stub::new();
    stub.commands.push(cmd);
    assert_eq!(renderer(python(), stub).render(), Err(RenderError::NestingTooDeep));
}

#[test]
fn render_command_by_kind() {
    let r = renderer(python(), Stub::new());
    assert_eq!(r.render_read_one(&int_var("aB")), Ok(s("a_b = int(input())\n")));
    assert_eq!(r.render_read(&vec![int_var("aB")], 30), Ok(s("a_b = int(input())\n")));
    assert_eq!(r.render_read(&vec![], 18), Err(RenderError::NestingTooDeep));
    assert_eq!(
        r.render_read_many(&vec![int_var("a"), int_var("b")], 0),
        Ok(s("a, b = input().split()  # i Int\n"))
    );
    assert_eq!(r.render_write(&strings(&["a", "b"]), &vec![]), Ok(s("print(\"a\")\nprint(\"b\")\n")));
    assert_eq!(
        r.render_loopline("n", &vec![int_var("x")], 18),
        Err(RenderError::NestingTooDeep)
    );
    let inner = Cmd::Read(vec![int_var("x")]);
    assert_eq!(
        r.render_loop("n", &inner, 1),
        Ok(s("for j in range(n):\n    x = int(input())\n"))
    );
    assert_eq!(r.render_read_batch("a\n", "b\n"), Ok(s("(let (a)\n  b\n)\n")));
    assert_eq!(
        r.render_main_wrapper(&vec![int_var("a")], "x\n"),
        Ok(s("var a: Int %d\nbegin\n  x\nend\n"))
    );
    assert_eq!(r.tera_render("nothing", &vec![]), Err(RenderError::Template(s("nothing"))));
    assert_eq!(
        r.tera_render("main", &vec![(s("statement"), s("[]"))]),
        Err(RenderError::Template(s("main")))
    );
    assert_eq!(r.render_commands(&vec![]), Ok(s("")));
}

#[test]
fn template_answers_become_results() {
    assert_eq!(template_outcome("loop", Ok(s("text"))), Ok(s("text")));
    assert_eq!(
        template_outcome("loop", Err(tera::Error::msg("no"))),
        Err(RenderError::Template(s("loop")))
    );
}

#[test]
fn without_its_template_nothing_is_rendered() {
    let r = renderer(engine(&[("main", "ok")]), Stub::new());
    assert_eq!(r.render_write(&strings(&["a"]), &vec![]), Err(RenderError::Template(s("write"))));
    assert_eq!(
        r.render_write_join(&vec![], &vec![]),
        Err(RenderError::Template(s("write_join")))
    );
    assert_eq!(r.render_read_one(&int_var("a")), Err(RenderError::Template(s("read_one"))));
    assert_eq!(r.render_read_batch("a", "b"), Err(RenderError::Template(s("read_batch"))));
    assert_eq!(r.tera_render("write", &vec![]), Err(RenderError::Template(s("write"))));
    assert_eq!(r.tera_render("main", &vec![]), Ok(s("ok")));
}

#[test]
fn values_of_bindings_must_be_json() {
    let r = renderer(engine(&[("main", "{{ a }}{{ b | default(value=\"-\") }}")]), Stub::new());
    assert_eq!(r.tera_render("main", &vec![(s("a"), s("1"))]), Ok(s("1-")));
    assert_eq!(
        r.tera_render("main", &vec![(s("a"), s("\"x\"")), (s("b"), s("[1,2]"))]),
        Ok(s("x[1, 2]"))
    );
    assert_eq!(
        r.tera_render("main", &vec![(s("a"), s("1")), (s("a"), s("2"))]),
        Ok(s("2-"))
    );
    assert_eq!(
        r.tera_render("main", &vec![(s("a"), s("no json"))]),
        Err(RenderError::Template(s("main")))
    );
    assert_eq!(
        r.tera_render("main", &vec![(s("a"), s("1")), (s("b"), s("{\"c\":"))]),
        Err(RenderError::Template(s("main")))
    );
    assert!(context_of(&vec![(s("a"), s("true"))]).is_some());
    assert!(context_of(&vec![]).is_some());
    assert!(context_of(&vec![(s("a"), s("tru"))]).is_none());
    let context = context_of(&vec![(s("k"), s("\"v\"")), (s("l"), s("[ 1 ]"))]).unwrap();
    assert_eq!(context.get("k"), Some(&serde_json::Value::String(s("v"))));
    assert_eq!(context.get("l").map(|v| v.to_string()), Some(s("[1]")));
    assert_eq!(context.get("m"), None);
}

#[test]
fn hoisted_declarations_need_their_templates() {
    let whole = renderer(engine(&[("main_wrapper", "{{ forward_declarations | length }}")]), Stub::new());
    assert_eq!(whole.render_main_wrapper(&vec![], "x"), Ok(s("0")));
    assert_eq!(
        whole.render_main_wrapper(&vec![int_var("a")], "x"),
        Err(RenderError::Template(s("forward_declaration")))
    );
    let parts = renderer(engine(&[("forward_declaration", "{{ ident }}")]), Stub::new());
    assert_eq!(
        parts.render_main_wrapper(&vec![int_var("a")], "x"),
        Err(RenderError::Template(s("main_wrapper")))
    );
    assert_eq!(parts.render_main_wrapper(&vec![], "x"), Err(RenderError::Template(s("main_wrapper"))));
}

#[test]
fn templates_receive_the_bindings_that_are_built() {
    let show = engine(&[
        ("write", "{{ messages | json_encode() }}|{{ output_comments | json_encode() }}"),
        ("write_join", "{{ terms | json_encode() }}"),
        ("read_one", "{{ var | json_encode() }}|{{ type_tokens | json_encode() }}"),
        ("read_batch", "{{ read_lines | json_encode() }}|{{ nested_lines | json_encode() }}"),
        ("forward_declaration", "{{ ident }}:{{ var_type }}"),
        (
            "main_wrapper",
            "{{ forward_declarations | json_encode() }}|{{ main_contents | json_encode() }}",
        ),
    ]);
    let r = renderer(show, Stub::new());
    assert_eq!(
        r.render_write(&strings(&["a", "b"]), &strings(&["c"])),
        Ok(s("[\"a\",\"b\"]|[\"c\"]"))
    );
    let terms = vec![
        JoinTerm { name: s("aB"), term_type: JoinTermType::Literal },
        JoinTerm { name: s("aB"), term_type: JoinTermType::Variable },
    ];
    assert_eq!(
        r.render_write_join(&terms, &vec![]),
        Ok(s(
            "[{\"ident\":\"aB\",\"term_type\":\"Literal\"},{\"ident\":\"a_b\",\"term_type\":\"Variable\"}]"
        ))
    );
    assert_eq!(
        r.render_read_one(&int_var("myVar")),
        Ok(s(
            "{\"ident\":\"my_var\",\"length_type\":null,\"max_length\":null,\"var_type\":\"Int\"}|{\"Int\":\"int\",\"Word\":\"str\"}"
        ))
    );
    assert_eq!(r.render_read_batch("a\n\nb", "\nc\n"), Ok(s("[\"a\",\"b\"]|[\"c\"]")));
    assert_eq!(
        r.render_main_wrapper(&vec![int_var("myVar"), int_var("n")], "x\ny\n"),
        Ok(s("[\"myVar:Int\",\"n:Int\"]|[\"x\",\"y\"]"))
    );
}

#[test]
fn texts_are_put_one_after_the_other() {
    assert_eq!(joined(&vec![]), "");
    assert_eq!(joined(&strings(&["a\n"])), "a\n");
    assert_eq!(joined(&strings(&["a\n", "", "b", "c\n"])), "a\nbc\n");
}

#[test]
fn commands_are_rendered_in_their_order() {
    let r = renderer(python(), Stub::new());
    let cmds = vec![
        Cmd::Read(vec![int_var("a")]),
        Cmd::Write { lines: strings(&["x"]), output_comment: vec![] },
        Cmd::Read(vec![int_var("b")]),
    ];
    assert_eq!(
        r.render_commands(&cmds),
        Ok(s("a = int(input())\nprint(\"x\")\nb = int(input())\n"))
    );
    assert_eq!(
        r.render_command(&cmds[1], 0),
        Ok(s("print(\"x\")\n"))
    );
}

#[test]
fn a_level_without_a_letter_gives_the_nesting_error_before_any_template() {
    let r = renderer(engine(&[]), Stub::new());
    assert_eq!(r.render_read_many(&vec![], 18), Err(RenderError::NestingTooDeep));
    assert_eq!(r.render_read_many(&vec![], 17), Err(RenderError::Template(s("read_many"))));
    assert_eq!(r.render_loopline("n", &vec![], 18), Err(RenderError::NestingTooDeep));
    assert_eq!(r.render_loopline("n", &vec![], 0), Err(RenderError::Template(s("loopline"))));
    let body = Cmd::Write { lines: vec![], output_comment: vec![] };
    assert_eq!(r.render_loop("n", &body, 18), Err(RenderError::NestingTooDeep));
    assert_eq!(r.render_loop("n", &body, 17), Err(RenderError::Template(s("write"))));
    assert_eq!(r.render_read(&vec![int_var("a")], 18), Err(RenderError::Template(s("read_one"))));
    assert_eq!(r.render_read(&vec![], 18), Err(RenderError::NestingTooDeep));
}

#[test]
fn the_loop_template_receives_count_letter_and_lines() {
    let show = engine(&[
        ("write", "one\ntwo\n"),
        ("loop", "{{ count_var }}|{{ index_ident }}|{{ inner | json_encode() }}"),
        ("read_many", "{{ index_ident }}|{{ single_type }}|{{ vars | length }}"),
        ("loopline", "{{ count_var }}|{{ index_ident }}|{{ vars.0.ident }}"),
    ]);
    let r = renderer(show, Stub::new());
    let body = Cmd::Write { lines: vec![], output_comment: vec![] };
    assert_eq!(r.render_loop("nbItems", &body, 0), Ok(s("nb_items|i|[\"one\",\"two\"]")));
    assert_eq!(r.render_loop("nbItems", &body, 2), Ok(s("nb_items|k|[\"one\",\"two\"]")));
    assert_eq!(
        r.render_read(&vec![int_var("a"), int_var("b")], 3),
        Ok(s("l|Int|2"))
    );
    assert_eq!(r.render_loopline("maxN", &vec![int_var("myX")], 1), Ok(s("max_n|j|my_x")));
}

#[test]
fn strings_are_written_as_serde_json_writes_them() {
    for code in 0u32..0x250 {
        let text: String = char::from_u32(code).unwrap().to_string();
        assert_eq!(string_value(&text), serde_json::to_string(&text).unwrap());
    }
    for text in ["", "plain", "a\"b\\c/d", "line\nbreak\r\ttab", "é→ü \u{1F600}", " %[^\\n]"] {
        assert_eq!(string_value(text), serde_json::to_string(text).unwrap());
    }
    let list = strings(&["a", "b\"", "", "c\n"]);
    assert_eq!(strings_value(&list), serde_json::to_string(&list).unwrap());
    assert_eq!(strings_value(&vec![]), serde_json::to_string(&Vec::<String>::new()).unwrap());
}

#[test]
fn objects_are_written_as_serde_json_writes_them() {
    let mut map = serde_json::Map::new();
    map.insert(s("a"), serde_json::Value::Bool(false));
    map.insert(s("b\n"), serde_json::Value::Null);
    map.insert(s("c"), serde_json::Value::Array(vec![serde_json::Value::String(s("x\"y"))]));
    let value = serde_json::Value::Object(map);
    let written = object_value(&vec![
        (s("a"), bool_value(false)),
        (s("b\n"), null_value()),
        (s("c"), array_value(&vec![string_value("x\"y")])),
    ]);
    assert_eq!(written, serde_json::to_string(&value).unwrap());
    assert_eq!(parsed_json(&written), value);
}

#[test]
fn bindings_read_back_as_the_values_that_were_built() {
    let built = text_of(write_join_context(
        &snake(&[]),
        &tokens(),
        &vec![JoinTerm { name: s("a\"B"), term_type: JoinTermType::Variable }],
        &strings(&["line\none"]),
    ));
    let value = parsed_json(&built);
    assert_eq!(value["terms"][0]["term_type"], serde_json::Value::String(s("Variable")));
    assert_eq!(value["output_comments"][0], serde_json::Value::String(s("line\none")));
    assert_eq!(value["type_tokens"]["Word"], serde_json::Value::String(s("str")));
    assert_eq!(value["format_symbols"]["Long"], serde_json::Value::String(s("%lld")));
    let var = parsed_json(&variable_value(&word_var("w\t", "n", LengthType::Variable)));
    assert_eq!(var["ident"], serde_json::Value::String(s("w\t")));
    assert_eq!(var["max_length"], serde_json::Value::String(s("n")));
    assert_eq!(parsed_json(&variable_value(&int_var("a")))["max_length"], serde_json::Value::Null);
}

fn banner(title: &str, nested: Vec<Cmd>) -> Cmd {
    Cmd::External {
        template: s("banner"),
        bindings: vec![(s("title"), string_value(title)), (s("width"), s("3"))],
        nested_cmds: nested,
    }
}

#[test]
fn an_external_node_is_rendered_by_its_own_template() {
    let mut tera = python();
    tera.add_raw_template(
        "banner.py.jinja",
        "# {{ title }} {{ width }}\n{% for line in nested_lines %}> {{ line }}\n{% endfor %}",
    )
    .unwrap();
    let r = renderer(tera, Stub::new());
    let node = banner("in\"put", vec![Cmd::Read(vec![int_var("myVar")])]);
    assert_eq!(r.render_command(&node, 5), Ok(s("# in\"put 3\n> my_var = int(input())\n")));
    assert_eq!(
        r.render_external("banner", &vec![(s("title"), s("1")), (s("width"), s("2"))], "a\nb"),
        Ok(s("# 1 2\n> a\n> b\n"))
    );
    assert_eq!(
        text_of(external_context(&vec![(s("k"), s("true"))], "x\n")),
        format!("{{\"k\":true,\"nested_lines\":[\"x\"],{}}}", SYMBOLS)
    );
    let inside_loop = Cmd::Loop { count_var: s("n"), command: Box::new(banner("t", vec![])) };
    assert_eq!(r.render_command(&inside_loop, 0), Ok(s("for i in range(n):\n    # t 3\n")));
}

#[test]
fn an_external_node_fails_with_its_template() {
    let r = renderer(python(), Stub::new());
    assert_eq!(
        r.render_command(&banner("t", vec![]), 0),
        Err(RenderError::Template(s("banner")))
    );
    let inner = Cmd::Write { lines: vec![], output_comment: vec![] };
    let r = renderer(engine(&[("banner", "x")]), Stub::new());
    assert_eq!(
        r.render_command(&banner("t", vec![inner]), 0),
        Err(RenderError::Template(s("write")))
    );
    let broken = Cmd::External {
        template: s("banner"),
        bindings: vec![(s("title"), s("not json"))],
        nested_cmds: vec![],
    };
    assert_eq!(r.render_command(&broken, 0), Err(RenderError::Template(s("banner"))));
    let mut deep = Cmd::Read(vec![]);
    for _ in 0..18 {
        deep = Cmd::Loop { count_var: s("n"), command: Box::new(deep) };
    }
    assert_eq!(
        r.render_command(&banner("t", vec![deep]), 0),
        Err(RenderError::NestingTooDeep)
    );
}

#[test]
fn passes_leave_external_nodes_as_they_are() {
    let node = || banner("t", vec![Cmd::Read(vec![int_var("hidden")])]);
    let mut stub = Stub::new();
    stub.commands = vec![Cmd::Read(vec![int_var("a")]), node(), Cmd::Read(vec![int_var("b")])];
    lisp_like::transform(&mut stub);
    assert_eq!(
        stub.commands,
        vec![Cmd::ReadBatch {
            line_readers: vec![Cmd::Read(vec![int_var("a")])],
            nested_cmds: vec![
                node(),
                Cmd::ReadBatch {
                    line_readers: vec![Cmd::Read(vec![int_var("b")])],
                    nested_cmds: vec![]
                },
            ],
        }]
    );
    let mut stub = Stub::new();
    stub.commands = vec![Cmd::Read(vec![int_var("a")]), node()];
    init_read_declarations::transform(&mut stub).unwrap();
    assert_eq!(
        stub.commands,
        vec![Cmd::MainWrapper {
            forward_declarations: vec![int_var("a")],
            main_content: vec![Cmd::Read(vec![int_var("a")]), node()],
        }]
    );
}
