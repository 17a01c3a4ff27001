use dyap::compiler::{Compiler, Message};
use dyap::errors::{CompilerError, VMError};
use dyap::lexer::Token;
use dyap::types::Type;
use dyap::vm::{IoReply, VM};

#[test]
fn missing_parenthesis_is_reported_where_it_was_found() {
    let mut c = Compiler::new("let x = 1\nlet y = (2");
    assert_eq!(c.compile().err(), Some(CompilerError::ExpectedToken));
    let d = c.error.as_ref().expect("a diagnostic");
    assert!(matches!(d.message, Message::Expected(Token::RParen, Token::Eof)));
    assert_eq!((d.line, d.col), (1, 10));
}

#[test]
fn bad_condition_type_is_reported() {
    let mut c = Compiler::new("if 1 { 2 }");
    assert_eq!(c.compile().err(), Some(CompilerError::UnexpectedArg));
    let d = c.error.as_ref().expect("a diagnostic");
    assert!(matches!(d.message, Message::IfCondition(Type::Number)));
}

#[test]
fn accepted_programs_leave_no_diagnostic() {
    let mut c = Compiler::new("let a = [1, 2]\nprintln(\"{}\", a[0])");
    assert!(c.compile().is_ok());
    assert!(c.error.is_none());
}

#[test]
fn empty_stack_and_unasked_replies_are_invalid() {
    let mut vm = VM::new();
    assert_eq!(vm.pop().err(), Some(VMError::InvalidState));
    assert_eq!(vm.resume(IoReply::Done), Err(VMError::InvalidState));
}
