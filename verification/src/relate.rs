//! Equality and ordering of values, as the language's `==`, `<`, `>`, `<=`
//! and `>=` see them.
use vstd::prelude::*;
use crate::value::{Value, ValueV, vview, vview_seq, lemma_vview_seq};

verus! {

/// The outcome of comparing two values that can be compared.
#[derive(Debug, Clone, Copy, PartialEq, Eq)]
pub enum Order {
    Less,
    Equal,
    Greater,
}

// ---------------------------------------------------------------------------
// Equality
// ---------------------------------------------------------------------------

/// When the language considers two values equal. Iterators, functions and
/// files are never equal to anything; texts, arrays, tuples, options and
/// results compare their contents.
pub open spec fn veq(a: ValueV, b: ValueV) -> bool
    decreases a,
{
    match a {
        ValueV::Void => b is Void,
        ValueV::Number(x) => b matches ValueV::Number(y) && x == y,
        ValueV::Str(s) => b matches ValueV::Str(t) && s == t,
        ValueV::Char(c) => b matches ValueV::Char(d) && c == d,
        ValueV::Bool(x) => b matches ValueV::Bool(y) && x == y,
        ValueV::Ref(x) => b matches ValueV::Ref(y) && x == y,
        ValueV::Cat(x) => match b {
            ValueV::Cat(y) => match x {
                None => y is None,
                Some(p) => y matches Some(q) && veq(*p, *q),
            },
            _ => false,
        },
        ValueV::ResOk(x) => b matches ValueV::ResOk(y) && veq(*x, *y),
        ValueV::ResErr(x) => b matches ValueV::ResErr(y) && veq(*x, *y),
        ValueV::Array(xs) => b matches ValueV::Array(ys) && seq_veq(xs, ys),
        ValueV::Tuple(xs) => b matches ValueV::Tuple(ys) && seq_veq(xs, ys),
        _ => false,
    }
}

/// Equal length and pairwise equal elements.
pub open spec fn seq_veq(xs: Seq<ValueV>, ys: Seq<ValueV>) -> bool
    decreases xs,
{
    if xs.len() != ys.len() {
        false
    } else if xs.len() == 0 {
        true
    } else {
        seq_veq(xs.drop_last(), ys.drop_last()) && veq(xs.last(), ys.last())
    }
}

fn values_eq(xs: &Vec<Value>, ys: &Vec<Value>) -> (r: bool)
    ensures
        r == seq_veq(vview_seq(xs@), vview_seq(ys@)),
    decreases xs, 0nat,
{
    proof {
        lemma_vview_seq(xs@);
        lemma_vview_seq(ys@);
    }
    if xs.len() != ys.len() {
        return false;
    }
    let mut i: usize = 0;
    while i < xs.len()
        invariant
            xs.len() == ys.len(),
            i <= xs.len(),
            seq_veq(vview_seq(xs@.take(i as int)), vview_seq(ys@.take(i as int))),
            vview_seq(xs@).len() == xs.len(),
            vview_seq(ys@).len() == ys.len(),
        decreases xs.len() - i,
    {
        proof {
            assert(decreases_to!(xs => xs@));
            assert(decreases_to!(xs@ => xs@[i as int]));
        }
        let e = xs[i].value_eq(&ys[i]);
        proof {
            let a = xs@.take(i + 1);
            let b = ys@.take(i + 1);
            assert(a.drop_last() =~= xs@.take(i as int));
            assert(b.drop_last() =~= ys@.take(i as int));
            lemma_vview_seq(a);
            lemma_vview_seq(b);
            lemma_vview_seq(xs@.take(i as int));
            lemma_vview_seq(ys@.take(i as int));
            assert(vview_seq(a).drop_last() =~= vview_seq(xs@.take(i as int)));
            assert(vview_seq(b).drop_last() =~= vview_seq(ys@.take(i as int)));
            assert(vview_seq(a).last() == vview(xs@[i as int]));
            assert(vview_seq(b).last() == vview(ys@[i as int]));
        }
        if !e {
            proof {
                if seq_veq(vview_seq(xs@), vview_seq(ys@)) {
                    seq_veq_prefix(vview_seq(xs@), vview_seq(ys@), (i + 1) as int);
                    lemma_vview_seq_take(xs@, i + 1);
                    lemma_vview_seq_take(ys@, i + 1);
                }
            }
            return false;
        }
        i = i + 1;
    }
    assert(xs@.take(xs.len() as int) =~= xs@);
    assert(ys@.take(ys.len() as int) =~= ys@);
    true
}

proof fn lemma_vview_seq_take(s: Seq<Value>, n: int)
    requires
        0 <= n <= s.len(),
    ensures
        vview_seq(s.take(n)) == vview_seq(s).take(n),
{
    lemma_vview_seq(s);
    lemma_vview_seq(s.take(n));
    assert(vview_seq(s.take(n)) =~= vview_seq(s).take(n));
}

/// If two sequences are equal, so are their prefixes of the same length.
proof fn seq_veq_prefix(xs: Seq<ValueV>, ys: Seq<ValueV>, n: int)
    requires
        0 <= n <= xs.len(),
        xs.len() == ys.len(),
        seq_veq(xs, ys),
    ensures
        seq_veq(xs.take(n), ys.take(n)),
    decreases xs.len(),
{
    if n == xs.len() {
        assert(xs.take(n) =~= xs);
        assert(ys.take(n) =~= ys);
    } else {
        seq_veq_prefix(xs.drop_last(), ys.drop_last(), n);
        assert(xs.drop_last().take(n) =~= xs.take(n));
        assert(ys.drop_last().take(n) =~= ys.take(n));
    }
}

impl Value {
    /// Whether the language's `==` holds between `self` and `other`.
    pub fn value_eq(&self, other: &Value) -> (r: bool)
        ensures
            r == veq(self@, other@),
        decreases self, 1nat,
    {
        match (self, other) {
            (Value::Void, Value::Void) => true,
            (Value::Number(a), Value::Number(b)) => *a == *b,
            (Value::Str(a), Value::Str(b)) => crate::text::same_text(a, b),
            (Value::Char(a), Value::Char(b)) => *a == *b,
            (Value::Bool(a), Value::Bool(b)) => *a == *b,
            (Value::Ref(a), Value::Ref(b)) => *a == *b,
            (Value::Cat(a), Value::Cat(b)) => match (a, b) {
                (None, None) => true,
                (Some(p), Some(q)) => p.value_eq(q),
                _ => false,
            },
            (Value::Result(a), Value::Result(b)) => match (&**a, &**b) {
                (Ok(x), Ok(y)) => x.value_eq(y),
                (Err(x), Err(y)) => x.value_eq(y),
                _ => false,
            },
            (Value::Array(a), Value::Array(b)) => values_eq(a, b),
            (Value::Tuple(a), Value::Tuple(b)) => values_eq(a, b),
            _ => false,
        }
    }
}

// ---------------------------------------------------------------------------
// Ordering
// ---------------------------------------------------------------------------

pub open spec fn int_order(a: int, b: int) -> Order {
    if a < b {
        Order::Less
    } else if a == b {
        Order::Equal
    } else {
        Order::Greater
    }
}

/// Lexicographic order of texts, character by character (by code point).
pub open spec fn text_order(s: Seq<char>, t: Seq<char>) -> Order
    decreases s.len(),
{
    if s.len() == 0 || t.len() == 0 {
        int_order(s.len() as int, t.len() as int)
    } else if s[0] != t[0] {
        int_order((s[0] as u32) as int, (t[0] as u32) as int)
    } else {
        text_order(s.drop_first(), t.drop_first())
    }
}

/// How two values compare, when they can be compared: numbers, characters,
/// texts and booleans by value; arrays and tuples lexicographically; `None`
/// below `Some`; `Ok` below `Err`.
pub open spec fn vord(a: ValueV, b: ValueV) -> Option<Order>
    decreases a,
{
    match (a, b) {
        (ValueV::Number(x), ValueV::Number(y)) => Some(int_order(x as int, y as int)),
        (ValueV::Char(x), ValueV::Char(y)) => Some(int_order((x as u32) as int, (y as u32) as int)),
        (ValueV::Str(x), ValueV::Str(y)) => Some(text_order(x, y)),
        (ValueV::Bool(x), ValueV::Bool(y)) => Some(
            int_order(if x { 1int } else { 0int }, if y { 1int } else { 0int }),
        ),
        (ValueV::Tuple(xs), ValueV::Tuple(ys)) => seq_vord(xs, ys),
        (ValueV::Array(xs), ValueV::Array(ys)) => seq_vord(xs, ys),
        (ValueV::Cat(x), ValueV::Cat(y)) => match (x, y) {
            (None, None) => Some(Order::Equal),
            (None, Some(_)) => Some(Order::Less),
            (Some(_), None) => Some(Order::Greater),
            (Some(p), Some(q)) => vord(*p, *q),
        },
        (ValueV::ResOk(x), ValueV::ResOk(y)) => vord(*x, *y),
        (ValueV::ResErr(x), ValueV::ResErr(y)) => vord(*x, *y),
        (ValueV::ResOk(_), ValueV::ResErr(_)) => Some(Order::Less),
        (ValueV::ResErr(_), ValueV::ResOk(_)) => Some(Order::Greater),
        _ => None,
    }
}

/// Lexicographic order: the first pair that is not equal decides (an
/// incomparable pair makes the whole incomparable), then the lengths.
pub open spec fn seq_vord(xs: Seq<ValueV>, ys: Seq<ValueV>) -> Option<Order>
    decreases xs,
{
    if xs.len() == 0 || ys.len() == 0 {
        Some(int_order(xs.len() as int, ys.len() as int))
    } else {
        match vord(xs[0], ys[0]) {
            Some(Order::Equal) => seq_vord(xs.drop_first(), ys.drop_first()),
            o => o,
        }
    }
}

fn int_order_exec(a: i64, b: i64) -> (r: Order)
    ensures
        r == int_order(a as int, b as int),
{
    if a < b {
        Order::Less
    } else if a == b {
        Order::Equal
    } else {
        Order::Greater
    }
}

fn text_order_exec(s: &Vec<char>, t: &Vec<char>) -> (r: Order)
    ensures
        r == text_order(s@, t@),
{
    let mut i: usize = 0;
    assert(s@.skip(0) =~= s@);
    assert(t@.skip(0) =~= t@);
    while i < s.len() && i < t.len() && s[i] == t[i]
        invariant
            i <= s.len(),
            i <= t.len(),
            text_order(s@, t@) == text_order(s@.skip(i as int), t@.skip(i as int)),
        decreases s.len() - i,
    {
        assert(s@.skip(i as int).drop_first() =~= s@.skip(i + 1));
        assert(t@.skip(i as int).drop_first() =~= t@.skip(i + 1));
        i = i + 1;
    }
    assert(s@.skip(i as int).len() == s.len() - i);
    assert(t@.skip(i as int).len() == t.len() - i);
    if i == s.len() || i == t.len() {
        match int_order_exec_usize(s.len() - i, t.len() - i) {
            Some(o) => o,
            None => Order::Equal,
        }
    } else {
        assert(s@.skip(i as int)[0] == s@[i as int]);
        assert(t@.skip(i as int)[0] == t@[i as int]);
        assert(s@.skip(i as int)[0] != t@.skip(i as int)[0]);
        let a = s[i] as u32;
        let b = t[i] as u32;
        int_order_exec(a as i64, b as i64)
    }
}

fn values_order(xs: &Vec<Value>, ys: &Vec<Value>) -> (r: Option<Order>)
    ensures
        r == seq_vord(vview_seq(xs@), vview_seq(ys@)),
    decreases xs, 0nat,
{
    proof {
        lemma_vview_seq(xs@);
        lemma_vview_seq(ys@);
    }
    let mut i: usize = 0;
    assert(vview_seq(xs@).skip(0) =~= vview_seq(xs@));
    assert(vview_seq(ys@).skip(0) =~= vview_seq(ys@));
    while i < xs.len() && i < ys.len()
        invariant
            i <= xs.len(),
            i <= ys.len(),
            seq_vord(vview_seq(xs@), vview_seq(ys@)) == seq_vord(
                vview_seq(xs@).skip(i as int),
                vview_seq(ys@).skip(i as int),
            ),
            vview_seq(xs@).len() == xs.len(),
            vview_seq(ys@).len() == ys.len(),
            forall|j: int| 0 <= j < xs.len() ==> #[trigger] vview_seq(xs@)[j] == vview(xs@[j]),
            forall|j: int| 0 <= j < ys.len() ==> #[trigger] vview_seq(ys@)[j] == vview(ys@[j]),
        decreases xs.len() - i,
    {
        proof {
            assert(decreases_to!(xs => xs@));
            assert(decreases_to!(xs@ => xs@[i as int]));
        }
        let o = xs[i].compare(&ys[i]);
        proof {
            assert(vview_seq(xs@).skip(i as int)[0] == vview(xs@[i as int]));
            assert(vview_seq(ys@).skip(i as int)[0] == vview(ys@[i as int]));
            assert(vview_seq(xs@).skip(i as int).drop_first() =~= vview_seq(xs@).skip(i + 1));
            assert(vview_seq(ys@).skip(i as int).drop_first() =~= vview_seq(ys@).skip(i + 1));
        }
        match o {
            Some(Order::Equal) => {},
            _ => {
                return o;
            },
        }
        i = i + 1;
    }
    int_order_exec_usize(xs.len() - i, ys.len() - i)
}

fn int_order_exec_usize(a: usize, b: usize) -> (r: Option<Order>)
    ensures
        r == Some(int_order(a as int, b as int)),
{
    if a < b {
        Some(Order::Less)
    } else if a == b {
        Some(Order::Equal)
    } else {
        Some(Order::Greater)
    }
}

impl Value {
    /// How `self` compares with `other`, or `None` when they cannot be
    /// compared.
    pub fn compare(&self, other: &Value) -> (r: Option<Order>)
        ensures
            r == vord(self@, other@),
        decreases self, 1nat,
    {
        match (self, other) {
            (Value::Number(a), Value::Number(b)) => Some(int_order_exec(*a, *b)),
            (Value::Char(a), Value::Char(b)) => Some(int_order_exec(*a as u32 as i64, *b as u32 as i64)),
            (Value::Str(a), Value::Str(b)) => Some(text_order_exec(a, b)),
            (Value::Bool(a), Value::Bool(b)) => Some(
                int_order_exec(if *a { 1 } else { 0 }, if *b { 1 } else { 0 }),
            ),
            (Value::Tuple(a), Value::Tuple(b)) => values_order(a, b),
            (Value::Array(a), Value::Array(b)) => values_order(a, b),
            (Value::Cat(a), Value::Cat(b)) => match (a, b) {
                (None, None) => Some(Order::Equal),
                (None, Some(_)) => Some(Order::Less),
                (Some(_), None) => Some(Order::Greater),
                (Some(p), Some(q)) => p.compare(q),
            },
            (Value::Result(a), Value::Result(b)) => match (&**a, &**b) {
                (Ok(x), Ok(y)) => x.compare(y),
                (Err(x), Err(y)) => x.compare(y),
                (Ok(_), Err(_)) => Some(Order::Less),
                (Err(_), Ok(_)) => Some(Order::Greater),
            },
            _ => None,
        }
    }
}

} // verus!
