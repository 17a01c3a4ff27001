use dyap::consts;
use dyap::lexer::{LexFault, Lexer, Token};

fn tokens(src: &str) -> Vec<Token> {
    let mut lx = Lexer::new(src);
    let mut out = Vec::new();
    loop {
        let t = lx.next_token();
        out.push(t);
        if t == Token::Eof {
            return out;
        }
        assert!(out.len() < 1000);
    }
}

#[test]
fn reads_a_statement() {
    assert_eq!(
        tokens("let x = 5 + 3"),
        vec![Token::Let, Token::Ident(4, 5), Token::Assign, Token::Number(5), Token::Plus, Token::Number(3), Token::Eof]
    );
}

#[test]
fn skips_comments() {
    assert_eq!(tokens("// note\n1 /* block */ 2"), vec![Token::Number(1), Token::Number(2), Token::Eof]);
    assert_eq!(tokens("/* open"), vec![Token::Eof]);
}

#[test]
fn reads_literals() {
    assert_eq!(tokens("\"ab\" 'c' true False"), vec![
        Token::String(1, 3),
        Token::Char('c'),
        Token::Bool(true),
        Token::Bool(false),
        Token::Eof,
    ]);
    assert_eq!(tokens("1_000"), vec![Token::Number(1000), Token::Eof]);
    assert_eq!(tokens("1.5"), vec![Token::Float(0, 3), Token::Eof]);
    assert_eq!(tokens("\"open"), vec![Token::String(1, 5), Token::Eof]);
}

#[test]
fn reads_operators() {
    assert_eq!(tokens("+= -= *= /= == => -> != ..="), vec![
        Token::AssignOper(consts::ASSIGN_ADD),
        Token::AssignOper(consts::ASSIGN_SUB),
        Token::AssignOper(consts::ASSIGN_MUL),
        Token::AssignOper(consts::ASSIGN_DIV),
        Token::Equal,
        Token::FatArrow,
        Token::Arrow,
        Token::NotEqual,
        Token::DotDot,
        Token::Assign,
        Token::Eof,
    ]);
    assert_eq!(tokens("** ^ || | && &"), vec![
        Token::Pow,
        Token::Pow,
        Token::Or,
        Token::ArifmOr,
        Token::LogicalAnd,
        Token::ArifmAnd,
        Token::Eof,
    ]);
}

#[test]
fn keywords_and_names() {
    assert_eq!(tokens("fn Num Str loop _x"), vec![
        Token::Func,
        Token::TypeNumber,
        Token::TypeStr,
        Token::Ident(11, 15),
        Token::Ident(16, 18),
        Token::Eof,
    ]);
}

#[test]
fn odd_characters() {
    assert_eq!(tokens("'ab'"), vec![
        Token::Invalid(LexFault::BadCharLiteral),
        Token::Ident(2, 3),
        Token::Invalid(LexFault::BadCharLiteral),
        Token::Eof,
    ]);
    assert_eq!(tokens("#"), vec![Token::Invalid(LexFault::UnknownSymbol('#')), Token::Eof]);
}

#[test]
fn tracks_lines_and_columns() {
    let mut lx = Lexer::new("a\n  bc");
    assert_eq!(lx.next_token(), Token::Ident(0, 1));
    assert_eq!(lx.next_token(), Token::Ident(4, 6));
    assert_eq!(lx.get_pos(), (1, 4));
}
