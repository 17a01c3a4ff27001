//! The builtin functions a program calls by number.
use vstd::prelude::*;
use crate::consts;
use crate::errors::VMError;
use crate::value::{Value, ValueV, Iterator, IterV, Range, LinesIter, SplitIter, SplitWhitespaceIter, vview, vview_seq,
    lemma_vview_seq, lemma_vview_seq_push};
use crate::vm::{VM, VMV, Step, step_view, Pending, PendingV, EachKind, IoRequest, IoRequestV, WriteTarget, OpenMode,
    request_view, pendings_view, pending_view};
use crate::semantics::{builtin_spec, adv, push_v, go, fail, arg, deref_v, starts_with, contains_text, open_mode, count_v,
    err_text, ask, advance_n, write_target, array_arg, each_spec, text_arg, lambda_call, truthy, trim, trim_end};
use crate::machine::agrees;
use crate::iter::opt_view;
use crate::show::show;
use crate::text::{copy_text, lit, to_lowercase, to_uppercase, parse_int, parse_error_message, parse_error_text, IntParse,
    parse_int_spec, lowercase_of, uppercase_of};

verus! {

/// The argument at `k`, void when it was not given.
fn arg_copy(args: &Vec<Value>, k: usize) -> (r: Value)
    ensures
        r@ == arg(vview_seq(args@), k as int),
{
    proof {
        lemma_vview_seq(args@);
    }
    if k < args.len() {
        args[k].copy()
    } else {
        Value::Void
    }
}

/// Whether `s` begins with `p`.
fn text_starts_with(s: &Vec<char>, p: &Vec<char>) -> (r: bool)
    ensures
        r == starts_with(s@, p@),
{
    if p.len() > s.len() {
        return false;
    }
    let mut i: usize = 0;
    while i < p.len()
        invariant
            p.len() <= s.len(),
            i <= p.len(),
            forall|j: int| 0 <= j < i ==> s@[j] == p@[j],
        decreases p.len() - i,
    {
        if s[i] != p[i] {
            assert(s@.subrange(0, p.len() as int)[i as int] != p@[i as int]);
            return false;
        }
        i = i + 1;
    }
    assert(s@.subrange(0, p.len() as int) =~= p@);
    true
}

/// Whether `p` occurs in `s`.
fn text_contains(s: &Vec<char>, p: &Vec<char>) -> (r: bool)
    ensures
        r == contains_text(s@, p@),
{
    match crate::iter::find_text(s, p, 0) {
        Some(_) => true,
        None => false,
    }
}

/// The open mode the flags of `open` ask for.
pub fn open_options(opt: i64) -> (r: OpenMode)
    ensures
        r == open_mode(opt),
{
    let truncate = (consts::TRUNCATE_FM & opt) != 0;
    OpenMode {
        read: (consts::READ_FM & opt) != 0,
        write: (consts::WRITE_FM & opt) != 0 || truncate,
        create: (consts::CREATE_FM & opt) != 0,
        append: !truncate,
        truncate,
    }
}

/// Advances the iterator value `v` up to `k` times, stopping when it runs
/// out; gives the iterator and the last item it gave.
fn advance_iter(v: Value, k: u64) -> (r: Result<(Value, Option<Value>), VMError>)
    ensures
        match advance_n(v@, k as nat, None) {
            Ok((w, o)) => r is Ok && r->Ok_0.0@ == w && opt_view(r->Ok_0.1) == o,
            Err(e) => r == Err::<(Value, Option<Value>), VMError>(e),
        },
{
    let ghost v0 = v@;
    let mut cur = v;
    let mut last: Option<Value> = None;
    let mut i: u64 = 0;
    while i < k
        invariant
            i <= k,
            v0 == v@,
            advance_n(v0, k as nat, None) == advance_n(cur@, (k - i) as nat, opt_view(last)),
        decreases k - i,
    {
        let ghost before = cur@;
        let ghost rest = (k - i) as nat;
        assert(advance_n(before, rest, opt_view(last)) == match before {
            ValueV::Iter(it) => {
                let (it2, o) = crate::iter::iter_next_spec(*it);
                match o {
                    Some(x) => advance_n(ValueV::Iter(Box::new(it2)), (rest - 1) as nat, Some(x)),
                    None => Ok((ValueV::Iter(Box::new(it2)), None)),
                }
            },
            _ => Err(VMError::CantIter),
        });
        match cur.next() {
            Ok(Some(x)) => {
                last = Some(x);
                i = i + 1;
            },
            Ok(None) => {
                return Ok((cur, None));
            },
            Err(e) => {
                return Err(e);
            },
        }
    }
    Ok((cur, last))
}

/// Where `write` sends its text, `None` for a bad file descriptor.
fn target_of(v: &Value) -> (r: Option<WriteTarget>)
    ensures
        match write_target(v@) {
            Some(w) => r is Some && crate::vm::target_view(r->Some_0) == w,
            None => r is None,
        },
{
    match v {
        Value::File(f) => Some(WriteTarget::File(f.id)),
        Value::Str(p) => Some(WriteTarget::Path(copy_text(p))),
        Value::Number(n) => if *n == consts::STDOUT {
            Some(WriteTarget::Stdout)
        } else if *n == consts::STDERR {
            Some(WriteTarget::Stderr)
        } else {
            None
        },
        _ => Some(WriteTarget::Stdout),
    }
}

/// `s` without leading and trailing whitespace.
pub fn trim_text(s: &Vec<char>) -> (r: Vec<char>)
    ensures
        r@ == trim(s@),
{
    let a = crate::iter::find_space(s, 0, false);
    if a >= s.len() {
        return Vec::new();
    }
    let mut j = s.len();
    while j > 0 && crate::text::is_whitespace(s[j - 1])
        invariant
            j <= s.len(),
            trim_end(s@, s.len() as int) == trim_end(s@, j as int),
        decreases j,
    {
        j = j - 1;
    }
    proof {
        lemma_trim_bounds(s@, a as int);
    }
    crate::text::slice_text(s, a, j)
}

/// Where the trimmed text ends lies past where it starts.
proof fn lemma_trim_bounds(s: Seq<char>, a: int)
    requires
        0 <= a < s.len(),
        a == crate::iter::first_space(s, 0, false),
    ensures
        a < trim_end(s, s.len() as int) <= s.len(),
{
    crate::iter::lemma_first_space_bounds(s, 0, false);
    lemma_first_space_is_nonspace(s, 0);
    lemma_trim_end_at_least(s, s.len() as int, a);
}

/// The first non-whitespace position holds a non-whitespace character.
proof fn lemma_first_space_is_nonspace(s: Seq<char>, from: int)
    requires
        0 <= from,
        crate::iter::first_space(s, from, false) < s.len(),
    ensures
        !crate::text::is_space(s[crate::iter::first_space(s, from, false)]),
        from <= crate::iter::first_space(s, from, false),
    decreases s.len() - from,
{
    if from < s.len() && crate::text::is_space(s[from]) != false {
        lemma_first_space_is_nonspace(s, from + 1);
    }
}

/// Scanning back from `j` stops no earlier than just past a non-whitespace
/// character at `a`.
proof fn lemma_trim_end_at_least(s: Seq<char>, j: int, a: int)
    requires
        0 <= a < j <= s.len(),
        !crate::text::is_space(s[a]),
    ensures
        a < trim_end(s, j) <= j,
    decreases j,
{
    if j - 1 > a && crate::text::is_space(s[j - 1]) {
        lemma_trim_end_at_least(s, j - 1, a);
    }
}

impl VM {
    /// Asks the host for `req` and moves past the call.
    fn ask_host(&mut self, req: IoRequest) -> (r: Result<Step, VMError>)
        requires
            old(self).ip < usize::MAX,
        ensures
            agrees(ask(old(self)@, request_view(req)), final(self)@, r),
    {
        let c = req.copy();
        self.awaiting = Some(req);
        self.advance();
        Ok(Step::Io(c))
    }

    /// Moves past the call, leaving `v` as its result.
    fn give(&mut self, v: Value) -> (r: Result<Step, VMError>)
        requires
            old(self).ip < usize::MAX,
        ensures
            r is Ok && step_view(r->Ok_0) == crate::vm::StepV::Continue,
            final(self)@ == push_v(adv(old(self)@), v@),
    {
        self.advance();
        self.push(v);
        Ok(Step::Continue)
    }

    /// A copy of the value `v` stands for.
    fn deref_copy(&self, v: &Value) -> (r: Result<Value, VMError>)
        ensures
            match deref_v(self@, v@) {
                Some(w) => r is Ok && r->Ok_0@ == w,
                None => r == Err::<Value, VMError>(VMError::InvalidState),
            },
    {
        match self.deref(v) {
            Ok(w) => Ok(w.copy()),
            Err(e) => Err(e),
        }
    }

    /// A copy of the variable slot `i`, if there is one.
    fn slot_copy(&self, i: usize) -> (r: Option<Value>)
        ensures
            i < self@.frame.len() ==> r is Some && r->Some_0@ == self@.frame[i as int],
            i >= self@.frame.len() ==> r is None,
    {
        proof {
            lemma_vview_seq(self.frame@);
        }
        if i < self.frame.len() {
            Some(self.frame[i].copy())
        } else {
            None
        }
    }

    /// Builtins on texts and arrays: `len`, `starts_with`, `is_empty`,
    /// `parse`, `lines`, `split_whitespace`, `split`, `contains`,
    /// `to_lower` and `to_upper`.
    fn run_text_builtin(&mut self, func: i64, args: &Vec<Value>) -> (r: Result<Step, VMError>)
        requires
            old(self).ip < usize::MAX,
            func == 1 || func == 2 || func == 10 || func == 14 || func == 16 || func == 17 || func == 18
                || func == 21 || func == 22 || func == 23,
        ensures
            agrees(builtin_spec(old(self)@, func, vview_seq(args@)), final(self)@, r),
    {
        let a0 = arg_copy(args, 0);
        let a1 = arg_copy(args, 1);
        if func == 1 || func == 10 {
            let v = match self.deref_copy(&a0) {
                Ok(v) => v,
                Err(e) => return Err(e),
            };
            let res = match v {
                Value::Str(s) => if func == 1 {
                    Value::Number(#[verifier::truncate] (s.len() as i64))
                } else {
                    Value::Bool(s.len() == 0)
                },
                Value::Array(xs) => {
                    proof {
                        lemma_vview_seq(xs@);
                    }
                    if func == 1 {
                        Value::Number(#[verifier::truncate] (xs.len() as i64))
                    } else {
                        Value::Bool(xs.len() == 0)
                    }
                },
                _ => return Err(VMError::BadArgument),
            };
            return self.give(res);
        }
        if func == 2 {
            let base = match &a0 {
                Value::Str(s) => copy_text(s),
                Value::Ref(i) => match self.slot_copy(*i) {
                    None => return Err(VMError::InvalidState),
                    Some(Value::Str(s)) => s,
                    Some(_) => return Err(VMError::BadArgument),
                },
                _ => return Err(VMError::BadArgument),
            };
            let pat = match self.deref_copy(&a1) {
                Ok(v) => v,
                Err(e) => return Err(e),
            };
            let p = match pat {
                Value::Char(c) => {
                    let mut t: Vec<char> = Vec::new();
                    t.push(c);
                    assert(t@ =~= seq![c]);
                    t
                },
                Value::Str(t) => t,
                other => other.to_text(),
            };
            let b = text_starts_with(&base, &p);
            return self.give(Value::Bool(b));
        }
        if func == 14 {
            let v = match self.deref_copy(&a0) {
                Ok(v) => v,
                Err(e) => return Err(e),
            };
            let t = match v {
                Value::Str(t) => t,
                _ => return Err(VMError::BadArgument),
            };
            let res = match parse_int(&t) {
                IntParse::Value(n) => {
                    let x = Value::Number(n);
                    assert(x@ == ValueV::Number(n));
                    let r = Value::Result(Box::new(Ok(x)));
                    assert(r@ == ValueV::ResOk(Box::new(x@)));
                    r
                },
                e => {
                    let m = parse_error_message(e);
                    Value::new_control(Err(m))
                },
            };
            return self.give(res);
        }
        if func == 16 || func == 17 || func == 22 || func == 23 {
            let v = match self.deref_copy(&a0) {
                Ok(v) => v,
                Err(e) => return Err(e),
            };
            let t = match v {
                Value::Str(t) => t,
                _ => return Err(VMError::BadArgument),
            };
            let ghost tv = t@;
            let res = if func == 16 {
                let it = Iterator::Lines(LinesIter { source: t, offset: 0 });
                assert(it@ == IterV::Lines(tv, 0));
                let r = Value::Iter(Box::new(it));
                assert(r@ == ValueV::Iter(Box::new(it@)));
                r
            } else if func == 17 {
                let it = Iterator::SplitWhitespace(SplitWhitespaceIter { source: t, offset: 0 });
                assert(it@ == IterV::SplitWhitespace(tv, 0));
                let r = Value::Iter(Box::new(it));
                assert(r@ == ValueV::Iter(Box::new(it@)));
                r
            } else if func == 22 {
                Value::Str(to_lowercase(&t))
            } else {
                Value::Str(to_uppercase(&t))
            };
            return self.give(res);
        }
        if func == 18 {
            let d = match &a1 {
                Value::Str(d) => copy_text(d),
                _ => return Err(VMError::BadArgument),
            };
            let src = match &a0 {
                Value::Ref(i) => match self.slot_copy(*i) {
                    None => return Err(VMError::InvalidState),
                    Some(Value::Str(t)) => t,
                    Some(_) => return Err(VMError::BadArgument),
                },
                Value::Str(t) => copy_text(t),
                _ => return Err(VMError::BadArgument),
            };
            let ghost sv = src@;
            let ghost dv = d@;
            let it = Iterator::Split(SplitIter { source: src, delimiter: d, offset: 0 });
            assert(it@ == IterV::Split(sv, dv, 0));
            let r = Value::Iter(Box::new(it));
            assert(r@ == ValueV::Iter(Box::new(it@)));
            return self.give(r);
        }
        // contains
        let v = match self.deref_copy(&a0) {
            Ok(v) => v,
            Err(e) => return Err(e),
        };
        proof {
            lemma_vview_seq(args@);
        }
        let s = v.to_text();
        let p = a1.to_text();
        let ignore_case = args.len() > 2 && args[2].is_truthy();
        let exact = args.len() > 3 && args[3].is_truthy();
        let found = if ignore_case {
            let ls = to_lowercase(&s);
            if exact {
                text_contains(&ls, &p)
            } else {
                let lp = to_lowercase(&p);
                text_contains(&ls, &lp)
            }
        } else {
            text_contains(&s, &p)
        };
        self.give(Value::Bool(found))
    }

    /// Builtins that need the host: `readch`, `read`, `create`/`truncate`,
    /// `open`, `readln`, `write`, `writeln`, `print`, `println` and
    /// `clear_console`.
    fn run_io_builtin(&mut self, func: i64, args: Vec<Value>) -> (r: Result<Step, VMError>)
        requires
            old(self).ip < usize::MAX,
            func == 3 || func == 6 || func == 7 || func == 8 || func == 13 || func == 24 || func == 25
                || func == 26 || func == 27 || func == 30,
        ensures
            agrees(builtin_spec(old(self)@, func, vview_seq(args@)), final(self)@, r),
    {
        proof {
            lemma_vview_seq(args@);
        }
        let a0 = arg_copy(&args, 0);
        let a1 = arg_copy(&args, 1);
        if func == 3 || func == 6 {
            let v = match self.deref_copy(&a0) {
                Ok(v) => v,
                Err(e) => return Err(e),
            };
            return match v {
                Value::File(f) => if func == 3 {
                    self.ask_host(IoRequest::ReadChunk { file: f.id, path: f.path })
                } else {
                    self.ask_host(IoRequest::ReadAll { file: f.id, path: f.path })
                },
                Value::Str(p) => if func == 6 {
                    self.ask_host(IoRequest::ReadPath { path: p })
                } else {
                    Err(VMError::BadArgument)
                },
                _ => Err(VMError::BadArgument),
            };
        }
        if func == 7 || func == 8 {
            let p = match a0 {
                Value::Str(p) => p,
                _ => return Err(VMError::BadArgument),
            };
            if func == 7 {
                return self.ask_host(IoRequest::Create { path: p });
            }
            let opt = if args.len() > 1 {
                match a1 {
                    Value::Number(o) => o,
                    _ => return Err(VMError::UnExpectedType),
                }
            } else {
                consts::ALL_FLAGS
            };
            let mode = open_options(opt);
            return self.ask_host(IoRequest::Open { path: p, mode });
        }
        if func == 13 {
            if args.len() > 0 {
                return match VM::format(args.as_slice()) {
                    Ok(o) => self.ask_host(IoRequest::ReadLine { prompt: Some(o) }),
                    Err(e) => Err(e),
                };
            }
            return self.ask_host(IoRequest::ReadLine { prompt: None });
        }
        if func == 26 || func == 27 {
            return match VM::write(args.as_slice(), func == 27) {
                Ok(t) => self.ask_host(IoRequest::Write { target: WriteTarget::Stdout, text: t, to_stdout: true }),
                Err(_) => {
                    let v = Value::new_control(Err(lit("error with write into: stdout")));
                    self.give(v)
                },
            };
        }
        if func == 30 {
            return self.ask_host(IoRequest::ClearConsole);
        }
        // write / writeln
        let mut rest = args;
        if rest.len() > 0 {
            let _first = rest.remove(0);
            assert(vview_seq(rest@) =~= vview_seq(args@).drop_first()) by {
                lemma_vview_seq(rest@);
            }
        }
        match VM::write(rest.as_slice(), func == 25) {
            Err(_) => {
                let v = Value::new_control(Err(lit("error with write")));
                self.give(v)
            },
            Ok(t) => match target_of(&a0) {
                Some(w) => self.ask_host(IoRequest::Write { target: w, text: t, to_stdout: false }),
                None => if t.len() == 0 {
                    self.ask_host(IoRequest::Write { target: WriteTarget::Stdout, text: t, to_stdout: false })
                } else {
                    let v = Value::new_control(Err(lit("error with write")));
                    self.give(v)
                },
            },
        }
    }

    /// `format`, `enumerate`, `is_ok`, `is_some`, `push`, `step`, `nth` and
    /// `collect`.
    fn run_misc_builtin(&mut self, func: i64, args: Vec<Value>) -> (r: Result<Step, VMError>)
        requires
            old(self).ip < usize::MAX,
            func == 4 || func == 5 || func == 9 || func == 11 || func == 12 || func == 15 || func == 19 || func == 20,
        ensures
            agrees(builtin_spec(old(self)@, func, vview_seq(args@)), final(self)@, r),
    {
        proof {
            lemma_vview_seq(args@);
        }
        let a0 = arg_copy(&args, 0);
        let a1 = arg_copy(&args, 1);
        if func == 4 {
            return match VM::format(args.as_slice()) {
                Ok(o) => self.give(Value::Str(o)),
                Err(e) => Err(e),
            };
        }
        if func == 5 || func == 9 || func == 11 {
            let v = match self.deref_copy(&a0) {
                Ok(v) => v,
                Err(e) => return Err(e),
            };
            if func == 5 {
                return match v.make_iter() {
                    Ok(it) => {
                        let en = Iterator::Enumerate(Box::new(it), 0);
                        assert(en@ == IterV::Enumerate(Box::new(it@), 0));
                        let r = Value::Iter(Box::new(en));
                        assert(r@ == ValueV::Iter(Box::new(en@)));
                        self.give(r)
                    },
                    Err(e) => Err(e),
                };
            }
            if func == 9 {
                return match v {
                    Value::Result(b) => match *b {
                        Ok(_) => self.give(Value::Bool(true)),
                        Err(_) => self.give(Value::Bool(false)),
                    },
                    _ => Err(VMError::BadArgument),
                };
            }
            return match v {
                Value::Cat(c) => self.give(Value::Bool(c.is_some())),
                _ => Err(VMError::BadArgument),
            };
        }
        if func == 12 {
            let id = match a0 {
                Value::Ref(id) => id,
                _ => {
                    self.advance();
                    return Ok(Step::Continue);
                },
            };
            let slot = match self.slot_copy(id) {
                Some(v) => v,
                None => return Err(VMError::InvalidState),
            };
            return match slot {
                Value::Array(mut xs) => {
                    proof {
                        lemma_vview_seq_push(xs@, a1);
                    }
                    xs.push(a1);
                    self.set_slot(id, Value::Array(xs));
                    self.give(Value::Void)
                },
                _ => Err(VMError::BadArgument),
            };
        }
        if func == 15 {
            let r = match &a0 {
                Value::Iter(it) => match &**it {
                    Iterator::Range(r) => {
                        assert(a0@ == ValueV::Iter(Box::new(crate::value::iview(**it))));
                        *r
                    },
                    _ => {
                        assert(a0@ == ValueV::Iter(Box::new(crate::value::iview(**it))));
                        return Err(VMError::BadArgument);
                    },
                },
                _ => return Err(VMError::BadArgument),
            };
            let s = match a1 {
                Value::Number(s) => s,
                _ => return Err(VMError::UnExpectedType),
            };
            let it = Iterator::Range(Range { step: s, ..r });
            assert(it@ == IterV::Range(Range { step: s, ..r }));
            let v = Value::Iter(Box::new(it));
            assert(v@ == ValueV::Iter(Box::new(it@)));
            return self.give(v);
        }
        if func == 19 {
            let n = match a1 {
                Value::Number(n) => n,
                _ => return Err(VMError::UnExpectedType),
            };
            if n < 0 {
                return Err(VMError::BadArgument);
            }
            let k: u64 = (n as u64) + 1;
            return match a0 {
                Value::Ref(i) => {
                    let cur = match self.slot_copy(i) {
                        Some(v) => v,
                        None => return Err(VMError::InvalidState),
                    };
                    match advance_iter(cur, k) {
                        Err(e) => Err(e),
                        Ok((v2, o)) => {
                            self.set_slot(i, v2);
                            let c = match o {
                                Some(x) => Value::Cat(Some(Box::new(x))),
                                None => Value::Cat(None),
                            };
                            self.give(c)
                        },
                    }
                },
                other => match advance_iter(other, k) {
                    Err(e) => Err(e),
                    Ok((_, o)) => {
                        let c = match o {
                            Some(x) => Value::Cat(Some(Box::new(x))),
                            None => Value::Cat(None),
                        };
                        self.give(c)
                    },
                },
            };
        }
        // collect
        let resume_ip = self.ip + 1;
        let ghost vm0 = self@;
        match a0 {
            Value::Ref(i) => {
                proof {
                    lemma_vview_seq(self.frame@);
                }
                if i >= self.frame.len() {
                    return Err(VMError::InvalidState);
                }
                let p = Pending::Collect { slot: Some(i), iter: Value::Void, acc: Vec::new(), resume_ip };
                assert(pending_view(p) == PendingV::Collect { slot: Some(i), iter: ValueV::Void, acc: Seq::<ValueV>::empty(), resume_ip });
                self.pending.push(p);
                assert(pendings_view(self.pending@) =~= vm0.pending.push(pending_view(p)));
            },
            other => {
                let p = Pending::Collect { slot: None, iter: other, acc: Vec::new(), resume_ip };
                assert(pending_view(p) == PendingV::Collect { slot: None, iter: a0@, acc: Seq::<ValueV>::empty(), resume_ip });
                self.pending.push(p);
                assert(pendings_view(self.pending@) =~= vm0.pending.push(pending_view(p)));
            },
        }
        Ok(Step::Continue)
    }

    /// `filter_map`, `map` and `filter`.
    fn run_each_builtin(&mut self, kind: EachKind, args: Vec<Value>) -> (r: Result<Step, VMError>)
        requires
            old(self).ip < usize::MAX,
        ensures
            agrees(each_spec(old(self)@, kind, vview_seq(args@)), final(self)@, r),
    {
        proof {
            lemma_vview_seq(args@);
        }
        let a0 = arg_copy(&args, 0);
        let a1 = arg_copy(&args, 1);
        let xs = match a0 {
            Value::Array(xs) => xs,
            Value::Ref(i) => match self.slot_copy(i) {
                None => return Err(VMError::InvalidState),
                Some(Value::Array(xs)) => xs,
                Some(_) => return Err(VMError::BadArgument),
            },
            _ => return Err(VMError::BadArgument),
        };
        let (lip, env) = match a1 {
            Value::Fn(lip, env) => (lip, env),
            _ => return Err(VMError::BadArgument),
        };
        proof {
            lemma_vview_seq(xs@);
        }
        if xs.len() == 0 {
            let e: Vec<Value> = Vec::new();
            assert(vview_seq(e@) =~= Seq::<ValueV>::empty());
            let v = Value::Array(e);
            assert(v@ == ValueV::Array(Seq::<ValueV>::empty()));
            return self.give(v);
        }
        let first = xs[0].copy();
        let ghost items = vview_seq(xs@);
        let ghost vm0 = self@;
        let p = Pending::Each {
            kind,
            items: xs,
            next: 1,
            acc: Vec::new(),
            lambda_ip: lip as usize,
            env: env as usize,
            resume_ip: self.ip + 1,
        };
        self.pending.push(p);
        assert(pendings_view(self.pending@) =~= vm0.pending.push(
            PendingV::Each {
                kind,
                items,
                next: 1,
                acc: Seq::<ValueV>::empty(),
                lambda_ip: lip as usize,
                env: env as usize,
                resume_ip: (vm0.ip + 1) as usize,
            },
        ));
        let mut a: Vec<Value> = Vec::new();
        proof {
            lemma_vview_seq_push(a@, first);
        }
        a.push(first);
        assert(vview_seq(a@) =~= seq![items[0]]);
        self.run_lambda(lip as usize, a, env as usize);
        Ok(Step::Continue)
    }

    /// Runs the builtin numbered `func` on `args`, taken off the stack.
    pub fn run_func(&mut self, func: i64, args: Vec<Value>) -> (r: Result<Step, VMError>)
        requires
            old(self).ip < usize::MAX,
        ensures
            agrees(builtin_spec(old(self)@, func, vview_seq(args@)), final(self)@, r),
    {
        if func == 1 || func == 2 || func == 10 || func == 14 || func == 16 || func == 17 || func == 18 || func == 21
            || func == 22 || func == 23 {
            self.run_text_builtin(func, &args)
        } else if func == 3 || func == 6 || func == 7 || func == 8 || func == 13 || func == 24 || func == 25 || func == 26
            || func == 27 || func == 30 {
            self.run_io_builtin(func, args)
        } else if func == 4 || func == 5 || func == 9 || func == 11 || func == 12 || func == 15 || func == 19
            || func == 20 {
            self.run_misc_builtin(func, args)
        } else if func == 28 {
            self.run_each_builtin(EachKind::FilterMapping, args)
        } else if func == 29 {
            self.run_each_builtin(EachKind::Mapping, args)
        } else if func == 31 {
            self.run_each_builtin(EachKind::Filtering, args)
        } else {
            Err(VMError::InvalidState)
        }
    }
}

} // verus!
