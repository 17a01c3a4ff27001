use dyap::compiler::Compiler;
use dyap::errors::{CompilerError, VMError};
use dyap::op::Op;
use dyap::vm::{IoReply, IoRequest, Step, WriteTarget, VM};

/// Compiles and runs `src`, answering writes to standard output by
/// collecting their text and every line read with `input`.
fn run_with_input(src: &str, input: &str) -> (Result<(), VMError>, String) {
    let mut c = Compiler::new(src);
    let code = match c.compile() {
        Ok(code) => code,
        Err(e) => panic!("compile error {:?}", e),
    };
    let mut vm = VM::new();
    let mut out = String::new();
    let mut steps = 0u32;
    loop {
        steps += 1;
        assert!(steps < 1_000_000, "too many steps");
        match vm.step(&code) {
            Ok(Step::Continue) => {}
            Ok(Step::Halt) => return (Ok(()), out),
            Ok(Step::Io(req)) => {
                let reply = match req {
                    IoRequest::Write { target, text, .. } => {
                        match target {
                            WriteTarget::Stdout => out.extend(text.iter()),
                            _ => {}
                        }
                        IoReply::Done
                    }
                    IoRequest::ReadLine { prompt } => {
                        if let Some(p) = prompt {
                            out.extend(p.iter());
                        }
                        IoReply::Text(input.chars().collect())
                    }
                    IoRequest::ClearConsole => IoReply::Done,
                    _ => IoReply::NotOpened,
                };
                vm.resume(reply).unwrap();
            }
            Err(e) => return (Err(e), out),
        }
    }
}

fn run(src: &str) -> String {
    let (r, out) = run_with_input(src, "");
    assert_eq!(r, Ok(()));
    out
}

fn compile_err(src: &str) -> CompilerError {
    let mut c = Compiler::new(src);
    match c.compile() {
        Ok(_) => panic!("expected a compile error"),
        Err(e) => e,
    }
}

#[test]
fn prints_a_variable() {
    assert_eq!(run("let x = 5\nprintln(\"{}\", x * 2)"), "10\n");
}

#[test]
fn calls_a_closure() {
    assert_eq!(run("let add = |a, b| a + b\nprintln(\"{}\", add(2, 3))"), "5\n");
}

#[test]
fn branches_on_a_condition() {
    let src = "let x = 3\nif x > 2 { println(\"big\") } else { println(\"small\") }";
    assert_eq!(run(src), "big\n");
}

#[test]
fn loops_while_true() {
    let src = "let i = 0\nwhile i < 3 {\n println(\"{}\", i)\n i += 1\n}";
    assert_eq!(run(src), "0\n1\n2\n");
}

#[test]
fn writes_an_array_element() {
    let src = "let a = [1, 2, 3]\na[1] = 5\nprintln(\"{}\", a[1])";
    assert_eq!(run(src), "5\n");
}

#[test]
fn walks_an_array() {
    assert_eq!(run("for x in [1, 2, 3] { print(\"{} \", x) }"), "1 2 3 ");
}

#[test]
fn walks_a_range() {
    assert_eq!(run("for i in 0..4 { print(\"{}\", i) }"), "0123");
}

#[test]
fn walks_an_inclusive_range() {
    assert_eq!(run("for i in 1..=3 { print(\"{}\", i) }"), "123");
}

#[test]
fn recursion_through_a_declared_function() {
    let src = "fact: Number = |n: Number| if n < 2 { 1 } else { n * fact(n - 1) }\nprintln(\"{}\", fact(5))";
    assert_eq!(run(src), "120\n");
}

#[test]
fn joins_texts() {
    assert_eq!(run("let s = \"ab\" + \"cd\"\nprintln(\"{}\", s)"), "abcd\n");
}

#[test]
fn formats_braces() {
    assert_eq!(run("println(\"{{}} {}\", 7)"), "{} 7\n");
}

#[test]
fn reads_a_line() {
    let (r, out) = run_with_input("let name = readln()\nprintln(\"hi {}\", name)", "  bob \n");
    assert_eq!(r, Ok(()));
    assert_eq!(out, "hi bob\n");
}

#[test]
fn parses_numbers() {
    assert_eq!(run("println(\"{}\", \"42\".parse())"), "Ok<42>\n");
    assert_eq!(run("println(\"{}\", \"4x\".parse())"), "Err<invalid digit found in string>\n");
}

#[test]
fn measures_length() {
    assert_eq!(run("let s = \"hello\"\nprintln(\"{}\", s.len())"), "5\n");
}

#[test]
fn maps_an_array() {
    assert_eq!(run("let a = [1, 2, 3]\nprintln(\"{}\", a.map(|x| x * 10))"), "[ 10, 20, 30, ]\n");
}

#[test]
fn filters_an_array() {
    assert_eq!(run("let a = [1, 2, 3, 4]\nprintln(\"{}\", a.filter(|x| x % 2 == 0))"), "[ 2, 4, ]\n");
}

#[test]
fn collects_a_range() {
    assert_eq!(run("println(\"{}\", (0..3).collect())"), "[ 0, 1, 2, ]\n");
}

#[test]
fn division_by_zero_literal_is_refused() {
    assert_eq!(compile_err("let x = 4 / 0"), CompilerError::UnexpectedArg);
}

#[test]
fn unknown_variable_is_refused() {
    assert_eq!(compile_err("println(\"{}\", y)"), CompilerError::UnfindedVar);
}

#[test]
fn unknown_function_is_refused() {
    assert_eq!(compile_err("frobnicate(1)"), CompilerError::UnknownFunc);
}

#[test]
fn division_by_zero_at_run_time() {
    let (r, _) = run_with_input("let z = 0\nlet x = 4 / z", "");
    assert_eq!(r, Err(VMError::ZeroDiv));
}

#[test]
fn float_literals_stop_the_machine() {
    let (r, _) = run_with_input("let x = 1.5", "");
    assert_eq!(r, Err(VMError::FloatUnsupported));
}

#[test]
fn empty_program_emits_void() {
    let mut c = Compiler::new("");
    let code = c.compile().unwrap();
    assert_eq!(code.len(), 1);
    assert!(matches!(code[0], Op::PushVoid));
}

#[test]
fn for_over_a_number_is_refused() {
    assert_eq!(compile_err("for i in 5 { }"), CompilerError::UnexpectedArg);
    assert_eq!(compile_err("for in 5 { }"), CompilerError::UnexpectedArg);
}

#[test]
fn for_without_names_walks_the_iterable() {
    assert_eq!(run("let y = [1, 2, 3]\nlet n = 0\nfor in y { n += 1 }\nprint(\"{}\", n)"), "3");
}

#[test]
fn for_without_names_code_layout() {
    let mut c = Compiler::new("let y = [7]\nfor in y { }");
    let code = c.compile().unwrap();
    let text: Vec<String> = code.iter().map(|op| format!("{:?}", op)).collect();
    let start = text.iter().position(|t| t == "MakeIter").unwrap() - 1;
    assert_eq!(text[start], "LoadGlobal(0)");
    assert_eq!(text[start + 2], format!("IterNext({})", start + 7));
    assert_eq!(text[start + 3], "Pop");
    assert_eq!(text[start + 4], "PushVoid");
    assert_eq!(text[start + 5], "Pop");
    assert_eq!(text[start + 6], format!("Jump({})", start + 2));
    assert_eq!(text[start + 7], "Pop");
}

#[test]
fn a_lone_unknown_name_is_refused() {
    assert_eq!(compile_err("y"), CompilerError::UnfindedVar);
}

#[test]
fn mixed_array_elements_are_refused() {
    assert_eq!(compile_err("[1, true]"), CompilerError::UnexpectedArg);
    assert_eq!(compile_err("[1, \"a\"]"), CompilerError::UnexpectedArg);
}

#[test]
fn a_literal_divided_by_zero_is_refused() {
    assert_eq!(compile_err("1 / 0"), CompilerError::UnexpectedArg);
}

#[test]
fn one_plus_two_code() {
    let mut c = Compiler::new("1 + 2");
    let code = c.compile().unwrap();
    let text: Vec<String> = code.iter().map(|op| format!("{:?}", op)).collect();
    assert_eq!(text, vec!["PushNumber(1)", "PushNumber(2)", "Plus"]);
}

#[test]
fn walks_a_range_downward() {
    assert_eq!(run("for i in 5..2 { print(\"{}\", i) }"), "543");
    assert_eq!(run("for i in 3..=1 { print(\"{}\", i) }"), "321");
}

#[test]
fn walks_a_range_by_a_step() {
    assert_eq!(run("for i in (0..7).step(3) { print(\"{} \", i) }"), "0 3 6 ");
}

#[test]
fn builtin_with_wrong_arity_is_refused() {
    assert_eq!(compile_err("len(1, 2)"), CompilerError::UnexpectedArg);
}

#[test]
fn user_call_with_wrong_arity_is_refused() {
    assert_eq!(compile_err("f := |a| { a }\nf(1, 2)"), CompilerError::UnexpectedArg);
}

#[test]
fn assignment_of_another_type_is_refused() {
    assert_eq!(compile_err("x := 1\nx = true"), CompilerError::UnexpectedArg);
    assert_eq!(compile_err("x := 1\nx = \"s\""), CompilerError::UnexpectedArg);
}

#[test]
fn assignment_of_the_same_type_stores() {
    assert_eq!(run("x := 1\nx = 5\nprint(\"{}\", x)"), "5");
}

#[test]
fn not_needs_a_boolean() {
    assert_eq!(compile_err("!5"), CompilerError::UnexpectedArg);
    let mut c = Compiler::new("!true");
    let code = c.compile().unwrap();
    let text: Vec<String> = code.iter().map(|op| format!("{:?}", op)).collect();
    assert_eq!(text, vec!["PushBool(true)", "Not"]);
}

#[test]
fn a_sum_with_an_untyped_variable_adds() {
    let mut c = Compiler::new("f := |a, b| { a + b }\nprint(\"{}\", f(2, 3))");
    assert!(c.compile().is_ok());
    assert_eq!(run("f := |a, b| { a + b }\nprint(\"{}\", f(2, 3))"), "5");
    assert_eq!(run("f := |a, b| { a - b }\nprint(\"{}\", f(2, 3))"), "-1");
}

#[test]
fn match_arms_of_different_types_are_refused() {
    assert_eq!(compile_err("match 1 { 1 => 10, 2 => \"s\" }"), CompilerError::UnexpectedArg);
    assert_eq!(compile_err("match 1 { 1 => 10, 2 => true }"), CompilerError::UnexpectedArg);
}

#[test]
fn match_arms_of_one_type_are_accepted() {
    assert_eq!(run("x := match 2 { 1 => 10, 2 => 20, _ => 30 }\nprint(\"{}\", x)"), "20");
}

#[test]
fn a_named_function_layout() {
    let mut c = Compiler::new("g: Number = || 1");
    let code = c.compile().unwrap();
    let text: Vec<String> = code.iter().map(|op| format!("{:?}", op)).collect();
    assert_eq!(text[0], "Jump(3)");
    assert_eq!(text[3], "PushFn(1)");
    assert_eq!(text[4], "StoreGlobal(0)");
}

fn code_text(src: &str) -> Vec<String> {
    let mut c = Compiler::new(src);
    let code = c.compile().unwrap();
    code.iter().map(|op| format!("{:?}", op)).collect()
}

#[test]
fn a_pair_array_code() {
    assert_eq!(code_text("[1, 2]"), vec!["PushNumber(1)", "PushNumber(2)", "MakeSet(2)"]);
}

#[test]
fn two_statements_code() {
    assert_eq!(code_text("1; 2"), vec!["PushNumber(1)", "Pop", "PushNumber(2)"]);
    assert_eq!(code_text("{ 'a'; true }"), vec!["PushChar('a')", "Pop", "PushBool(true)", "Pop"]);
}

#[test]
fn a_sum_of_literals_code() {
    assert_eq!(code_text("3 - 4"), vec!["PushNumber(3)", "PushNumber(4)", "Sub"]);
}
