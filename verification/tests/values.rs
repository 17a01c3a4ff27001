use dyap::builtins::trim_text;
use dyap::compiler::Compiler;
use dyap::errors::VMError;
use dyap::relate::Order;
use dyap::text::{int_to_text, parse_int, IntParse};
use dyap::types::Type;
use dyap::value::Iterator as ValueIter;
use dyap::value::{Range, Value};
use dyap::vm::VM;

fn text(s: &str) -> Vec<char> {
    s.chars().collect()
}

fn s(v: &str) -> Value {
    Value::Str(text(v))
}

fn shown(v: &Value) -> String {
    v.to_text().into_iter().collect()
}

fn arr(xs: &[i64]) -> Value {
    Value::Array(xs.iter().map(|&n| Value::Number(n)).collect())
}

fn range(start: i64, end: i64, step: i64) -> Value {
    Value::Iter(Box::new(ValueIter::Range(Range { start, end, step })))
}

#[test]
fn adds_numbers() {
    let mut a = Value::Number(2);
    assert_eq!(a.add_assign(Value::Number(3)), Ok(()));
    assert!(matches!(a, Value::Number(5)));
}

#[test]
fn sums_wrap_at_48_bits() {
    let mut a = Value::Number(0x7FFF_FFFF_FFFF);
    assert_eq!(a.add_assign(Value::Number(1)), Ok(()));
    assert!(matches!(a, Value::Number(-0x8000_0000_0000)));
    assert!(matches!(Value::from_number(1 << 48), Value::Number(0)));
}

#[test]
fn joins_text_and_number() {
    let mut a = s("ab");
    assert_eq!(a.add_assign(Value::Number(12)), Ok(()));
    assert_eq!(shown(&a), "ab12");
    let mut c = Value::Char('x');
    assert_eq!(c.add_assign(Value::Bool(true)), Ok(()));
    assert_eq!(shown(&c), "xtrue");
    let mut n = Value::Number(3);
    assert_eq!(n.add_assign(s("!")), Ok(()));
    assert_eq!(shown(&n), "3!");
}

#[test]
fn bad_operands_leave_the_value() {
    let mut b = Value::Bool(true);
    assert_eq!(b.sub_assign(Value::Number(1)), Err(VMError::BadOperand));
    assert!(matches!(b, Value::Bool(true)));
    let mut v = Value::Void;
    assert_eq!(v.add_assign(Value::Number(1)), Err(VMError::BadOperand));
}

#[test]
fn divides_toward_zero() {
    let mut a = Value::Number(-7);
    assert_eq!(a.div_assign(Value::Number(2)), Ok(()));
    assert!(matches!(a, Value::Number(-3)));
    let mut m = Value::Number(-7);
    assert_eq!(m.arifm_mod_assign(Value::Number(2)), Ok(()));
    assert!(matches!(m, Value::Number(-1)));
}

#[test]
fn division_by_zero_fails() {
    let mut a = Value::Number(1);
    assert_eq!(a.div_assign(Value::Number(0)), Err(VMError::ZeroDiv));
    let mut m = Value::Number(1);
    assert_eq!(m.arifm_mod_assign(Value::Number(0)), Err(VMError::ZeroDiv));
}

#[test]
fn bit_operations_need_numbers() {
    let mut a = Value::Number(0b1100);
    assert_eq!(a.arifm_and_assign(Value::Number(0b1010)), Ok(()));
    assert!(matches!(a, Value::Number(0b1000)));
    let mut o = Value::Number(0b1100);
    assert_eq!(o.arifm_or_assign(Value::Number(0b1010)), Ok(()));
    assert!(matches!(o, Value::Number(0b1110)));
    let mut b = Value::Bool(true);
    assert_eq!(b.arifm_and_assign(Value::Bool(false)), Err(VMError::NotOperation));
}

#[test]
fn powers() {
    let mut a = Value::Number(2);
    assert_eq!(a.pow_assign(Value::Number(10)), Ok(()));
    assert!(matches!(a, Value::Number(1024)));
    let mut b = Value::Number(2);
    assert_eq!(b.pow_assign(Value::Number(-1)), Err(VMError::BadOperand));
    let mut c = Value::Number(5);
    assert_eq!(c.mul_assign(Value::Number(-3)), Ok(()));
    assert!(matches!(c, Value::Number(-15)));
}

#[test]
fn subtraction_undoes_addition() {
    for (a, b) in [(5, 9), (-3, 1 << 40), (0x7FFF_FFFF_FFFF, 1), (-0x8000_0000_0000, -1)] {
        let mut x = Value::Number(a);
        x.add_assign(Value::Number(b)).unwrap();
        x.sub_assign(Value::Number(b)).unwrap();
        assert!(matches!(x, Value::Number(n) if n == a));
    }
}

#[test]
fn reads_positions_modulo_length() {
    let a = arr(&[10, 20, 30]);
    assert!(matches!(a.load_index(&Value::Number(-1)), Ok(Value::Number(30))));
    assert!(matches!(a.load_index(&Value::Number(4)), Ok(Value::Number(20))));
    assert!(matches!(s("abc").load_index(&Value::Number(1)), Ok(Value::Char('b'))));
}

#[test]
fn reads_slices() {
    let r = s("hello").load_index(&range(1, 3, 1)).unwrap();
    assert_eq!(shown(&r), "el");
    let r = arr(&[1, 2, 3]).load_index(&range(1, 9, 1)).unwrap();
    assert_eq!(shown(&r), "[ 2, 3, ]");
    assert_eq!(arr(&[1, 2]).load_index(&range(2, 1, -1)).err(), Some(VMError::CantIndex));
}

#[test]
fn indexing_errors() {
    assert_eq!(Value::Bool(true).load_index(&Value::Number(0)).err(), Some(VMError::CantIndex));
    assert_eq!(arr(&[1]).load_index(&s("x")).err(), Some(VMError::CantIndex));
    assert_eq!(Value::Number(1).load_index(&range(0, 1, 1)).err(), Some(VMError::UnExpectedType));
    let mut b = Value::Bool(false);
    assert_eq!(b.set_index(Value::Number(0), Value::Number(1)), Err(VMError::CantIndex));
    let mut a = arr(&[1]);
    assert_eq!(a.set_index(s("x"), Value::Number(1)), Err(VMError::UnExpectedType));
}

#[test]
fn write_then_read_an_element() {
    let mut a = arr(&[1, 2, 3]);
    assert_eq!(a.set_index(Value::Number(1), s("two")), Ok(()));
    assert_eq!(shown(&a.load_index(&Value::Number(1)).unwrap()), "two");
    assert!(matches!(a.load_index(&Value::Number(0)), Ok(Value::Number(1))));
    assert!(matches!(a.load_index(&Value::Number(2)), Ok(Value::Number(3))));
}

#[test]
fn write_then_read_along_a_path() {
    let mut m = Value::Array(vec![arr(&[1, 2]), arr(&[3, 4])]);
    let path = vec![Value::Number(1), Value::Number(0)];
    assert_eq!(m.set_index_deep(path, Value::Number(9)), Ok(()));
    let back = m.load_index_deep(vec![Value::Number(1), Value::Number(0)]).unwrap();
    assert!(matches!(back, Value::Number(9)));
    assert_eq!(shown(&m), "[ [ 1, 2, ], [ 9, 4, ], ]");
    let mut flat = arr(&[1]);
    assert_eq!(
        flat.set_index_deep(vec![Value::Number(0), Value::Number(0)], Value::Void),
        Err(VMError::CantIndex)
    );
}

#[test]
fn walking_iterators() {
    let mut r = range(0, 3, 1);
    let mut seen = Vec::new();
    while let Some(v) = r.next().unwrap() {
        seen.push(shown(&v));
    }
    assert_eq!(seen, vec!["0", "1", "2"]);
    let mut down = range(3, 0, -1);
    assert!(matches!(down.next(), Ok(Some(Value::Number(3)))));
    assert_eq!(Value::Number(1).next().err(), Some(VMError::CantIter));
    assert_eq!(Value::Number(1).make_iter().err(), Some(VMError::UnExpectedType));
}

#[test]
fn texts_of_values() {
    assert_eq!(shown(&Value::Void), "()");
    assert_eq!(shown(&Value::Number(-42)), "-42");
    assert_eq!(shown(&Value::Bool(false)), "false");
    assert_eq!(shown(&Value::Tuple(vec![Value::Number(1), s("a")])), "(1, a)");
    assert_eq!(shown(&Value::Cat(None)), "None");
    assert_eq!(shown(&Value::Cat(Some(Box::new(Value::Number(1))))), "Cat<1>");
    assert_eq!(shown(&Value::Result(Box::new(Ok(Value::Number(1))))), "Ok<1>");
    assert_eq!(shown(&Value::Result(Box::new(Err(s("no"))))), "Err<no>");
    assert_eq!(shown(&Value::Ref(3)), "REF<ID: 3>");
    assert_eq!(shown(&Value::Fn(1, 0)), "FN");
    assert_eq!(shown(&range(0, 5, 1)), "Iter<Range(Range { start: 0, end: 5, step: 1 })>");
}

#[test]
fn number_texts_read_back() {
    for n in [0i64, 7, -7, 1234567890, i64::MAX, i64::MIN] {
        let t = int_to_text(n);
        assert_eq!(t.iter().collect::<String>(), n.to_string());
        assert_eq!(parse_int(&t), IntParse::Value(n));
    }
}

#[test]
fn parse_failures() {
    assert_eq!(parse_int(&text("")), IntParse::Empty);
    assert_eq!(parse_int(&text("-")), IntParse::InvalidDigit);
    assert_eq!(parse_int(&text("12a")), IntParse::InvalidDigit);
    assert_eq!(parse_int(&text("9223372036854775808")), IntParse::PosOverflow);
    assert_eq!(parse_int(&text("-9223372036854775809")), IntParse::NegOverflow);
    assert_eq!(parse_int(&text("+15")), IntParse::Value(15));
}

#[test]
fn equality_and_order() {
    assert!(arr(&[1, 2]).value_eq(&arr(&[1, 2])));
    assert!(!arr(&[1, 2]).value_eq(&arr(&[2, 1])));
    assert!(!Value::Fn(0, 0).value_eq(&Value::Fn(0, 0)));
    assert_eq!(s("abc").compare(&s("abd")), Some(Order::Less));
    assert_eq!(s("abd").compare(&s("abc")), Some(Order::Greater));
    assert_eq!(arr(&[1, 2]).compare(&arr(&[1])), Some(Order::Greater));
    assert_eq!(Value::Cat(None).compare(&Value::Cat(Some(Box::new(Value::Void)))), Some(Order::Less));
    assert_eq!(Value::Number(1).compare(&s("1")), None);
}

#[test]
fn templates() {
    let f = |args: Vec<Value>| VM::format(&args).map(|t| t.into_iter().collect::<String>());
    assert_eq!(f(vec![s("a {} b {}"), Value::Number(1), s("x")]), Ok("a 1 b x".to_string()));
    assert_eq!(f(vec![s("{{}} }}")]), Ok("{} }".to_string()));
    assert_eq!(f(vec![s("plain")]), Ok("plain".to_string()));
    assert_eq!(f(vec![]), Err(VMError::NeedMoreArgs));
    assert_eq!(f(vec![s("{}")]), Err(VMError::NeedMoreArgs));
    assert_eq!(f(vec![s("{x")]), Err(VMError::BadArgument));
    assert_eq!(f(vec![s("} ")]), Err(VMError::BadArgument));
    assert_eq!(f(vec![s("a"), Value::Number(1)]), Err(VMError::TooManyArgs));
    let w = VM::write(&[s("x{}"), Value::Number(2)], true).unwrap();
    assert_eq!(w.into_iter().collect::<String>(), "x2\n");
}

#[test]
fn files_from_host_handles() {
    let ok = Value::open_file(text("out.txt"), Some(4));
    assert!(matches!(&ok, Value::Result(r) if matches!(&**r, Ok(Value::File(f)) if f.id == 4)));
    let failed = Value::open_file(text("out.txt"), None);
    assert_eq!(shown(&failed), "Err<error with open file: out.txt>");
    assert_eq!(Value::new_file(text("f"), None).err(), Some(VMError::FuncErr));
    assert!(matches!(Value::new_file(text("f"), Some(2)), Ok(Value::File(f)) if f.id == 2));
}

#[test]
fn truth_of_values() {
    assert!(Value::Number(3).is_truthy());
    assert!(!Value::Number(0).is_truthy());
    assert!(!s("").is_truthy());
    assert!(s("x").is_truthy());
    assert!(!Value::Void.is_truthy());
    assert!(Value::Char('a').is_truthy());
    assert_eq!(s("x").expect_number(), Err(VMError::UnExpectedType));
}

#[test]
fn copies_are_equal() {
    let v = Value::Array(vec![s("a"), Value::Tuple(vec![Value::Number(1)])]);
    let c = v.copy();
    assert!(v.value_eq(&c));
    assert_eq!(shown(&c), "[ a, (1), ]");
}

#[test]
fn addition_of_numbers_commutes() {
    for (a, b) in [(3, 4), (-5, 0x7FFF_FFFF_FFFF), (1 << 46, 1 << 46)] {
        let mut x = Value::Number(a);
        x.add_assign(Value::Number(b)).unwrap();
        let mut y = Value::Number(b);
        y.add_assign(Value::Number(a)).unwrap();
        assert!(x.value_eq(&y));
    }
}

#[test]
fn equality_is_symmetric() {
    let pairs = [
        (arr(&[1, 2]), arr(&[1, 2])),
        (s("a"), Value::Char('a')),
        (Value::Cat(None), Value::Cat(Some(Box::new(Value::Void)))),
        (Value::Tuple(vec![s("x")]), Value::Tuple(vec![s("x")])),
    ];
    for (a, b) in pairs.iter() {
        assert_eq!(a.value_eq(b), b.value_eq(a));
    }
}

#[test]
fn every_type_fits_itself() {
    let ts = vec![
        Type::Number,
        Type::Array(Box::new(Type::Str)),
        Type::Result(Box::new((Type::Cat(Box::new(Type::Bool)), Type::Str))),
        Type::Iter(Box::new(Type::Array(Box::new(Type::Char)))),
    ];
    for t in ts.iter() {
        assert!(Compiler::types_match(t, t));
    }
    assert!(!Compiler::types_match(&Type::Number, &Type::Str));
    assert!(Compiler::types_match(&Type::Result(Box::new((Type::Void, Type::Str))), &Type::Void));
}

#[test]
fn trimming_twice_is_trimming_once() {
    for t in ["  a b \n", "", "   ", "x", "\t\u{3000}y\u{2028}"] {
        let once = trim_text(&text(t));
        assert_eq!(trim_text(&once), once);
    }
    assert_eq!(trim_text(&text(" \u{a0}ab \t")).into_iter().collect::<String>(), "ab");
}
