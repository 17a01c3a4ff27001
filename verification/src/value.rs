//! Values of the machine and their abstract view.
//!
//! Text is kept as `Vec<char>`, arrays and tuples own their elements, and a
//! file is a handle that the host resolves.
use vstd::prelude::*;
use crate::errors::VMError;

verus! {

/// An integer range being walked with a step.
#[derive(Debug, Clone, Copy, PartialEq, Eq)]
pub struct Range {
    pub start: i64,
    pub end: i64,
    pub step: i64,
}

/// Lines of a text, from `offset` on.
#[derive(Debug)]
pub struct LinesIter {
    pub source: Vec<char>,
    pub offset: usize,
}

/// Pieces of a text between occurrences of `delimiter`, from `offset` on.
#[derive(Debug)]
pub struct SplitIter {
    pub source: Vec<char>,
    pub delimiter: Vec<char>,
    pub offset: usize,
}

/// Words of a text separated by whitespace, from `offset` on.
#[derive(Debug)]
pub struct SplitWhitespaceIter {
    pub source: Vec<char>,
    pub offset: usize,
}

/// An open file: the host's handle for it and the path it was opened with.
#[derive(Debug)]
pub struct FileRef {
    pub id: u64,
    pub path: Vec<char>,
}

/// The iterators a program can walk with `for`.
#[derive(Debug)]
pub enum Iterator {
    /// The characters of a text, from position `1` on.
    String(Vec<char>, usize),
    /// The elements of an array, from position `1` on.
    Array(Vec<Value>, usize),
    Range(Range),
    /// Pairs `(index, item)` of an inner iterator.
    Enumerate(Box<Iterator>, i64),
    Lines(LinesIter),
    Split(SplitIter),
    SplitWhitespace(SplitWhitespaceIter),
}

/// A value of the language.
#[derive(Debug)]
pub enum Value {
    Void,
    Number(i64),
    Str(Vec<char>),
    Char(char),
    Bool(bool),
    Ref(usize),
    Iter(Box<Iterator>),
    Fn(u32, u32),
    Array(Vec<Value>),
    Result(Box<Result<Value, Value>>),
    Cat(Option<Box<Value>>),
    File(FileRef),
    Tuple(Vec<Value>),
}

// ---------------------------------------------------------------------------
// The abstract view
// ---------------------------------------------------------------------------

/// What an iterator holds, with texts and arrays as sequences.
pub enum IterV {
    String(Seq<char>, usize),
    Array(Seq<ValueV>, usize),
    Range(Range),
    Enumerate(Box<IterV>, i64),
    Lines(Seq<char>, usize),
    Split(Seq<char>, Seq<char>, usize),
    SplitWhitespace(Seq<char>, usize),
}

/// What a value holds, with texts and arrays as sequences.
pub enum ValueV {
    Void,
    Number(i64),
    Str(Seq<char>),
    Char(char),
    Bool(bool),
    Ref(usize),
    Iter(Box<IterV>),
    Fn(u32, u32),
    Array(Seq<ValueV>),
    ResOk(Box<ValueV>),
    ResErr(Box<ValueV>),
    Cat(Option<Box<ValueV>>),
    File(u64, Seq<char>),
    Tuple(Seq<ValueV>),
}

pub open spec fn vview(v: Value) -> ValueV
    decreases v,
{
    match v {
        Value::Void => ValueV::Void,
        Value::Number(n) => ValueV::Number(n),
        Value::Str(s) => ValueV::Str(s@),
        Value::Char(c) => ValueV::Char(c),
        Value::Bool(b) => ValueV::Bool(b),
        Value::Ref(r) => ValueV::Ref(r),
        Value::Iter(it) => ValueV::Iter(Box::new(iview(*it))),
        Value::Fn(a, b) => ValueV::Fn(a, b),
        Value::Array(xs) => ValueV::Array(vview_seq(xs@)),
        Value::Result(r) => match *r {
            Ok(x) => ValueV::ResOk(Box::new(vview(x))),
            Err(e) => ValueV::ResErr(Box::new(vview(e))),
        },
        Value::Cat(c) => match c {
            Some(b) => ValueV::Cat(Some(Box::new(vview(*b)))),
            None => ValueV::Cat(None),
        },
        Value::File(f) => ValueV::File(f.id, f.path@),
        Value::Tuple(xs) => ValueV::Tuple(vview_seq(xs@)),
    }
}

pub open spec fn vview_seq(s: Seq<Value>) -> Seq<ValueV>
    decreases s,
{
    if s.len() == 0 {
        Seq::empty()
    } else {
        vview_seq(s.drop_last()).push(vview(s.last()))
    }
}

pub open spec fn iview(it: Iterator) -> IterV
    decreases it,
{
    match it {
        Iterator::String(cs, p) => IterV::String(cs@, p),
        Iterator::Array(xs, p) => IterV::Array(vview_seq(xs@), p),
        Iterator::Range(r) => IterV::Range(r),
        Iterator::Enumerate(inner, i) => IterV::Enumerate(Box::new(iview(*inner)), i),
        Iterator::Lines(l) => IterV::Lines(l.source@, l.offset),
        Iterator::Split(s) => IterV::Split(s.source@, s.delimiter@, s.offset),
        Iterator::SplitWhitespace(s) => IterV::SplitWhitespace(s.source@, s.offset),
    }
}

impl View for Value {
    type V = ValueV;

    open spec fn view(&self) -> ValueV {
        vview(*self)
    }
}

impl View for Iterator {
    type V = IterV;

    open spec fn view(&self) -> IterV {
        iview(*self)
    }
}

/// The views of the elements of `s`, in order.
pub proof fn lemma_vview_seq(s: Seq<Value>)
    ensures
        vview_seq(s).len() == s.len(),
        forall|i: int| 0 <= i < s.len() ==> #[trigger] vview_seq(s)[i] == vview(s[i]),
    decreases s.len(),
{
    if s.len() > 0 {
        lemma_vview_seq(s.drop_last());
    }
}

/// Taking views commutes with taking a subrange.
pub proof fn lemma_vview_seq_subrange(s: Seq<Value>, a: int, b: int)
    requires
        0 <= a <= b <= s.len(),
    ensures
        vview_seq(s.subrange(a, b)) == vview_seq(s).subrange(a, b),
{
    lemma_vview_seq(s);
    lemma_vview_seq(s.subrange(a, b));
    assert(vview_seq(s.subrange(a, b)) =~= vview_seq(s).subrange(a, b));
}

/// Taking views commutes with appending.
pub proof fn lemma_vview_seq_push(s: Seq<Value>, x: Value)
    ensures
        vview_seq(s.push(x)) == vview_seq(s).push(vview(x)),
{
    assert(s.push(x).drop_last() =~= s);
}

/// Taking views commutes with concatenation.
pub proof fn lemma_vview_seq_add(s: Seq<Value>, t: Seq<Value>)
    ensures
        vview_seq(s + t) == vview_seq(s) + vview_seq(t),
{
    lemma_vview_seq(s);
    lemma_vview_seq(t);
    lemma_vview_seq(s + t);
    assert(vview_seq(s + t) =~= vview_seq(s) + vview_seq(t));
}

/// Taking views commutes with removing the last element.
pub proof fn lemma_vview_seq_pop(s: Seq<Value>)
    requires
        s.len() > 0,
    ensures
        vview_seq(s.drop_last()) == vview_seq(s).drop_last(),
        vview_seq(s).last() == vview(s.last()),
        vview_seq(s).len() == s.len(),
{
    lemma_vview_seq(s);
    lemma_vview_seq(s.drop_last());
    assert(vview_seq(s.drop_last()) =~= vview_seq(s).drop_last());
}

/// Taking views commutes with replacing an element.
pub proof fn lemma_vview_seq_update(s: Seq<Value>, i: int, x: Value)
    requires
        0 <= i < s.len(),
    ensures
        vview_seq(s.update(i, x)) == vview_seq(s).update(i, vview(x)),
{
    lemma_vview_seq(s);
    lemma_vview_seq(s.update(i, x));
    assert(vview_seq(s.update(i, x)) =~= vview_seq(s).update(i, vview(x)));
}

// ---------------------------------------------------------------------------
// Copies
// ---------------------------------------------------------------------------

/// A copy of each element of `xs`.
pub fn copy_values(xs: &Vec<Value>) -> (r: Vec<Value>)
    ensures
        vview_seq(r@) == vview_seq(xs@),
    decreases xs, 0nat,
{
    let mut r: Vec<Value> = Vec::new();
    let mut i: usize = 0;
    while i < xs.len()
        invariant
            i <= xs.len(),
            vview_seq(r@) == vview_seq(xs@.take(i as int)),
        decreases xs.len() - i,
    {
        proof {
            assert(decreases_to!(xs => xs@));
            assert(decreases_to!(xs@ => xs@[i as int]));
        }
        let x = xs[i].copy();
        proof {
            lemma_vview_seq_push(r@, x);
            assert(xs@.take(i + 1).drop_last() =~= xs@.take(i as int));
        }
        r.push(x);
        i = i + 1;
    }
    assert(xs@.take(xs.len() as int) =~= xs@);
    r
}

impl Iterator {
    /// A copy of this iterator, in the same state.
    pub fn copy(&self) -> (r: Iterator)
        ensures
            r@ == self@,
        decreases self, 1nat,
    {
        match self {
            Iterator::String(cs, p) => Iterator::String(crate::text::copy_text(cs), *p),
            Iterator::Array(xs, p) => Iterator::Array(copy_values(xs), *p),
            Iterator::Range(r) => Iterator::Range(*r),
            Iterator::Enumerate(inner, i) => Iterator::Enumerate(Box::new(inner.copy()), *i),
            Iterator::Lines(l) => Iterator::Lines(
                LinesIter { source: crate::text::copy_text(&l.source), offset: l.offset },
            ),
            Iterator::Split(s) => Iterator::Split(
                SplitIter {
                    source: crate::text::copy_text(&s.source),
                    delimiter: crate::text::copy_text(&s.delimiter),
                    offset: s.offset,
                },
            ),
            Iterator::SplitWhitespace(s) => Iterator::SplitWhitespace(
                SplitWhitespaceIter { source: crate::text::copy_text(&s.source), offset: s.offset },
            ),
        }
    }
}

impl Value {
    /// A copy of this value.
    pub fn copy(&self) -> (r: Value)
        ensures
            r@ == self@,
        decreases self, 1nat,
    {
        match self {
            Value::Void => Value::Void,
            Value::Number(n) => Value::Number(*n),
            Value::Str(s) => Value::Str(crate::text::copy_text(s)),
            Value::Char(c) => Value::Char(*c),
            Value::Bool(b) => Value::Bool(*b),
            Value::Ref(r) => Value::Ref(*r),
            Value::Iter(it) => Value::Iter(Box::new(it.copy())),
            Value::Fn(a, b) => Value::Fn(*a, *b),
            Value::Array(xs) => Value::Array(copy_values(xs)),
            Value::Result(r) => match &**r {
                Ok(x) => Value::Result(Box::new(Ok(x.copy()))),
                Err(e) => Value::Result(Box::new(Err(e.copy()))),
            },
            Value::Cat(c) => match c {
                Some(b) => Value::Cat(Some(Box::new(b.copy()))),
                None => Value::Cat(None),
            },
            Value::File(f) => Value::File(FileRef { id: f.id, path: crate::text::copy_text(&f.path) }),
            Value::Tuple(xs) => Value::Tuple(copy_values(xs)),
        }
    }
}

impl Clone for Value {
    fn clone(&self) -> (r: Self)
        ensures
            r@ == self@,
    {
        self.copy()
    }
}

impl Clone for Iterator {
    fn clone(&self) -> (r: Self)
        ensures
            r@ == self@,
    {
        self.copy()
    }
}

// ---------------------------------------------------------------------------
// Constructors
// ---------------------------------------------------------------------------

impl Value {
    pub fn void() -> (r: Value)
        ensures
            r@ == ValueV::Void,
    {
        Value::Void
    }

    /// A number, reduced to 48 bits as the boxed representation keeps it.
    pub fn from_number(n: i64) -> (r: Value)
        ensures
            r@ == ValueV::Number(crate::num::wrap48(n as int) as i64),
    {
        Value::Number(crate::num::wrap48_exec(n as i128))
    }

    pub fn from_str(s: Vec<char>) -> (r: Value)
        ensures
            r@ == ValueV::Str(s@),
    {
        Value::Str(s)
    }

    pub fn from_char(c: char) -> (r: Value)
        ensures
            r@ == ValueV::Char(c),
    {
        Value::Char(c)
    }

    pub fn from_bool(b: bool) -> (r: Value)
        ensures
            r@ == ValueV::Bool(b),
    {
        Value::Bool(b)
    }

    pub fn from_ref(r: usize) -> (v: Value)
        ensures
            v@ == ValueV::Ref(r),
    {
        Value::Ref(r)
    }

    pub fn from_iter(i: Box<Iterator>) -> (r: Value)
        ensures
            r@ == ValueV::Iter(Box::new(i@)),
    {
        Value::Iter(i)
    }

    pub fn from_fn(a: u32, b: u32) -> (r: Value)
        ensures
            r@ == ValueV::Fn(a, b),
    {
        Value::Fn(a, b)
    }

    pub fn from_set(s: Vec<Value>) -> (r: Value)
        ensures
            r@ == ValueV::Array(vview_seq(s@)),
    {
        Value::Array(s)
    }

    pub fn from_result(r: Box<Result<Value, Value>>) -> (v: Value)
        ensures
            v@ == (match *r {
                Ok(x) => ValueV::ResOk(Box::new(x@)),
                Err(e) => ValueV::ResErr(Box::new(e@)),
            }),
    {
        Value::Result(r)
    }

    pub fn from_cat(c: Option<Box<Value>>) -> (r: Value)
        ensures
            r@ == (match c {
                Some(b) => ValueV::Cat(Some(Box::new((*b)@))),
                None => ValueV::Cat(None),
            }),
    {
        Value::Cat(c)
    }

    pub fn from_tuple(t: Vec<Value>) -> (r: Value)
        ensures
            r@ == ValueV::Tuple(vview_seq(t@)),
    {
        Value::Tuple(t)
    }

    pub fn from_file(f: FileRef) -> (r: Value)
        ensures
            r@ == ValueV::File(f.id, f.path@),
    {
        Value::File(f)
    }

    /// A text value.
    pub fn new_str(s: Vec<char>) -> (r: Value)
        ensures
            r@ == ValueV::Str(s@),
    {
        Value::Str(s)
    }

    /// `Ok(v)` for a success, `Err` holding the message as a text otherwise.
    pub fn new_control(res: Result<Value, Vec<char>>) -> (r: Value)
        ensures
            r@ == (match res {
                Ok(v) => ValueV::ResOk(Box::new(v@)),
                Err(m) => ValueV::ResErr(Box::new(ValueV::Str(m@))),
            }),
    {
        match res {
            Ok(v) => {
                let r = Value::Result(Box::new(Ok(v)));
                assert(r@ == ValueV::ResOk(Box::new(v@)));
                r
            },
            Err(m) => {
                let e = Value::Str(m);
                assert(e@ == ValueV::Str(m@));
                Value::Result(Box::new(Err(e)))
            },
        }
    }
}

impl Value {
    /// The text a text value holds.
    pub fn eval_str(&self) -> (r: Vec<char>)
        requires
            self@ is Str,
        ensures
            ValueV::Str(r@) == self@,
    {
        match self {
            Value::Str(s) => crate::text::copy_text(s),
            _ => Vec::new(),
        }
    }

    /// The outcome of `create`/`truncate` on `filename`: `Ok` with the file
    /// the host opened under the handle `opened`, or, when it could not
    /// create the file, `Err("error with open file: <filename>")`.
    pub fn open_file(filename: Vec<char>, opened: Option<u64>) -> (r: Value)
        ensures
            r@ == (match opened {
                Some(id) => ValueV::ResOk(Box::new(ValueV::File(id, filename@))),
                None => ValueV::ResErr(Box::new(ValueV::Str("error with open file: "@ + filename@))),
            }),
    {
        match opened {
            Some(id) => Value::new_control(Ok(Value::File(FileRef { id, path: filename }))),
            None => {
                let mut m = crate::text::lit("error with open file: ");
                crate::text::append_text(&mut m, &filename);
                Value::new_control(Err(m))
            },
        }
    }

    /// The file value for `filename` opened by the host under the handle
    /// `opened`, or `FuncErr` when the host could not open it.
    pub fn new_file(filename: Vec<char>, opened: Option<u64>) -> (r: Result<Value, VMError>)
        ensures
            match opened {
                Some(id) => r is Ok && r->Ok_0@ == ValueV::File(id, filename@),
                None => r == Err::<Value, VMError>(VMError::FuncErr),
            },
    {
        match opened {
            Some(id) => Ok(Value::File(FileRef { id, path: filename })),
            None => Err(VMError::FuncErr),
        }
    }
}

} // verus!
