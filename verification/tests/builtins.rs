use dyap::compiler::Compiler;
use dyap::errors::{CompilerError, VMError};
use dyap::vm::{IoReply, IoRequest, Step, WriteTarget, VM};

/// Compiles and runs `src`; writes to standard output are collected, and
/// every other request of the host is answered as a host without files
/// would answer it.
fn run(src: &str) -> (Result<(), VMError>, String) {
    let mut c = Compiler::new(src);
    let code = match c.compile() {
        Ok(code) => code,
        Err(e) => panic!("compile error {:?}", e),
    };
    let mut vm = VM::new();
    let mut out = String::new();
    for _ in 0..1_000_000 {
        match vm.step(&code) {
            Ok(Step::Continue) => {}
            Ok(Step::Halt) => return (Ok(()), out),
            Ok(Step::Io(req)) => {
                let reply = match req {
                    IoRequest::Write { target: WriteTarget::Stdout, text, .. } => {
                        out.extend(text.iter());
                        IoReply::Done
                    }
                    IoRequest::Write { .. } => IoReply::Failed,
                    IoRequest::ReadLine { .. } => IoReply::Text(Vec::new()),
                    IoRequest::ClearConsole => IoReply::Done,
                    _ => IoReply::NotOpened,
                };
                vm.resume(reply).unwrap();
            }
            Err(e) => return (Err(e), out),
        }
    }
    panic!("the program did not stop");
}

fn output(src: &str) -> String {
    let (r, out) = run(src);
    assert_eq!(r, Ok(()), "output so far: {}", out);
    out
}

#[test]
fn changes_case() {
    assert_eq!(output("println(\"{} {}\", \"MiXed\".to_lower(), \"MiXed\".to_upper())"), "mixed MIXED\n");
    assert_eq!(output("println(\"{}\", \"ÉCOLE\".to_lower())"), "école\n");
}

#[test]
fn starts_with_and_contains() {
    assert_eq!(output("println(\"{}\", \"abc\".starts_with(\"ab\"))"), "true\n");
    assert_eq!(output("println(\"{}\", \"abc\".starts_with('b'))"), "false\n");
    assert_eq!(output("println(\"{}\", \"abc\".contains(\"bc\"))"), "true\n");
    assert_eq!(output("println(\"{}\", \"ABC\".contains(\"bc\", true))"), "true\n");
}

#[test]
fn splits_text() {
    assert_eq!(output("for w in \"a b  c\".split_whitespace() { print(\"{}|\", w) }"), "a|b|c|");
    assert_eq!(output("for p in \"a,b,,c\".split(\",\") { print(\"[{}]\", p) }"), "[a][b][][c]");
    assert_eq!(output("for l in \"x\ny\r\nz\".lines() { print(\"<{}>\", l) }"), "<x><y><z>");
}

#[test]
fn enumerates() {
    assert_eq!(output("for p in [7, 8].enumerate() { print(\"{} \", p) }"), "(0, 7) (1, 8) ");
}

#[test]
fn steps_through_a_range() {
    assert_eq!(output("for i in (0..10).step(3) { print(\"{} \", i) }"), "0 3 6 9 ");
    assert_eq!(output("for i in 3..0 { print(\"{}\", i) }"), "321");
}

#[test]
fn picks_the_nth_item() {
    assert_eq!(output("println(\"{}\", (5..9).nth(2))"), "Cat<7>\n");
    assert_eq!(output("println(\"{}\", (5..6).nth(3))"), "None\n");
}

#[test]
fn tests_shapes() {
    assert_eq!(output("println(\"{}\", \"5\".parse().is_ok())"), "true\n");
    assert_eq!(output("println(\"{}\", \"\".is_empty())"), "true\n");
    assert_eq!(output("println(\"{}\", [1].is_empty())"), "false\n");
    assert_eq!(output("println(\"{}\", Some(1).is_some())"), "true\n");
}

#[test]
fn pushes_onto_an_array() {
    assert_eq!(output("let a = [1]\na.push(2)\nprintln(\"{}\", a)"), "[ 1, 2, ]\n");
    assert_eq!(output("let a = [1, 2, 3]\nprintln(\"{}\", a.len())"), "3\n");
}

#[test]
fn filter_maps() {
    let src = "let a = [1, 2, 3, 4]\nprintln(\"{}\", a.filter_map(|x| if x % 2 == 0 { Some(x * x) } else { None }))";
    assert_eq!(output(src), "[ 4, 16, ]\n");
}

#[test]
fn formats_into_a_text() {
    assert_eq!(output("let t = format(\"{}-{}\", 1, \"a\")\nprintln(\"{}\", t)"), "1-a\n");
}

#[test]
fn matches_options() {
    let src = "let o = Some(4)\nmatch o {\n Some(v) => { println(\"got {}\", v) }\n None => { println(\"none\") }\n}";
    assert_eq!(output(src), "got 4\n");
}

#[test]
fn loop_words_are_plain_names() {
    for src in ["loop {\n}", "let i = 0\nwhile i < 1 {\n i += 1\n break\n}", "for i in 0..2 { continue }"] {
        let mut c = Compiler::new(src);
        assert_eq!(c.compile().err(), Some(CompilerError::UnfindedVar), "{}", src);
    }
}

#[test]
fn compares_texts() {
    assert_eq!(output("println(\"{} {}\", \"abc\" < \"abd\", \"b\" >= \"a\")"), "true true\n");
}

#[test]
fn writing_to_a_missing_file_fails() {
    assert_eq!(output("println(\"{}\", create(\"x.txt\"))"), "Err<error with open file: x.txt>\n");
}

#[test]
fn badly_formed_templates_are_reported() {
    let (r, _) = run("let t = format(\"{}\", 1, 2)");
    assert_eq!(r, Err(VMError::TooManyArgs));
    assert_eq!(output("let r = print(\"{\")\nprintln(\"{}\", r)"), "Err<error with write into: stdout>\n");
}

#[test]
fn wrong_argument_stops_the_machine() {
    let (r, _) = run("let n = 5\nprintln(\"{}\", n.is_some())");
    assert_eq!(r, Err(VMError::BadArgument));
}

#[test]
fn iterating_a_number_fails() {
    let mut c = Compiler::new("let n = 5\nfor i in n { println(\"{}\", i) }");
    assert_eq!(c.compile().err(), Some(CompilerError::UnexpectedArg));
    let (r, _) = run("let f = |n| { for i in n { print(\"{}\", i) } }\nf(5)");
    assert_eq!(r, Err(VMError::UnExpectedType));
}

#[test]
fn unicode_names() {
    assert_eq!(output("let é = 2\nlet x2é = 3\nprintln(\"{}\", é * x2é)"), "6\n");
}

#[test]
fn split_pieces_rejoin_to_the_text() {
    assert_eq!(output("for p in \"x--y--\".split(\"--\") { print(\"[{}]\", p) }"), "[x][y][]");
}

#[test]
fn split_pieces_hold_no_delimiter() {
    assert_eq!(output("for p in \"abab\".split(\"b\") { print(\"[{}]\", p) }"), "[a][a][]");
}

#[test]
fn one_placeholder_takes_exactly_one_value() {
    assert_eq!(output("print(\"a{}b\", 5)"), "a5b");
    assert_eq!(output("print(\"<{}>\", \"x\")"), "<x>");
}
