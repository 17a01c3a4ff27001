//! What one step of the machine does, stated over the view of the machine.
//!
//! A step either executes the instruction at `ip`, advances a `collect`
//! in progress, or stops. Builtins that need the outside world leave an
//! `IoRequest` for the host; the host's reply is taken in by `resume`.
//! When a step fails, the run ends with that error and the state it leaves
//! is not used again.
use vstd::prelude::*;
use crate::consts;
use crate::errors::VMError;
use crate::op::Op;
use crate::value::{ValueV, IterV, Range};
use crate::vm::{VMV, CallFrame, PendingV, EachKind, IoRequestV, IoReply, StepV, WriteTargetV, OpenMode, frame_base, voids};
use crate::arith::{add_spec, sub_spec, mul_spec, div_spec, and_spec, or_spec, mod_spec, pow_spec};
use crate::relate::{veq, vord, Order};
use crate::iter::{iter_next_spec, make_iter_spec, range_end, first_match, first_space};
use crate::index::{load_ok, load_spec, deep_load_ok, deep_load, set_ok, set_spec, deep_set_ok, deep_set};
use crate::format::{format_spec, write_spec};
use crate::show::show;
use crate::text::{is_space, parse_int_spec, parse_error_text, IntParse, lowercase_of, uppercase_of};

verus! {

/// The outcome of a step: the new machine, and what it led to.
pub type Outcome = (VMV, Result<StepV, VMError>);

pub open spec fn go(vm: VMV) -> Outcome {
    (vm, Ok(StepV::Continue))
}

pub open spec fn fail(vm: VMV, e: VMError) -> Outcome {
    (vm, Err(e))
}

/// The machine with the next instruction selected.
pub open spec fn adv(vm: VMV) -> VMV {
    VMV { ip: (vm.ip + 1) as usize, ..vm }
}

pub open spec fn with_stack(vm: VMV, s: Seq<ValueV>) -> VMV {
    VMV { stack: s, ..vm }
}

pub open spec fn push_v(vm: VMV, v: ValueV) -> VMV {
    VMV { stack: vm.stack.push(v), ..vm }
}

/// The value of a condition.
pub open spec fn truthy(v: ValueV) -> bool {
    match v {
        ValueV::Void => false,
        ValueV::Bool(b) => b,
        ValueV::Number(n) => n != 0,
        ValueV::Char(_) => true,
        ValueV::Str(s) => s.len() > 0,
        _ => false,
    }
}

/// The arithmetic instruction `op` on `a` and `b`.
pub open spec fn arith_spec(op: Op, a: ValueV, b: ValueV) -> Result<ValueV, VMError> {
    match op {
        Op::Plus => add_spec(a, b),
        Op::Sub => sub_spec(a, b),
        Op::Mult => mul_spec(a, b),
        Op::Div => div_spec(a, b),
        Op::Pow => pow_spec(a, b),
        Op::ArifmAnd => and_spec(a, b),
        Op::ArifmOr => or_spec(a, b),
        _ => mod_spec(a, b),
    }
}

/// The comparison instruction `op` on `a` and `b`; values that cannot be
/// ordered are neither smaller, larger nor equal in the ordering tests.
pub open spec fn compare_spec(op: Op, a: ValueV, b: ValueV) -> bool {
    match op {
        Op::Equal => veq(a, b),
        Op::NotEqual => !veq(a, b),
        Op::Greater => vord(a, b) == Some(Order::Greater),
        Op::Less => vord(a, b) == Some(Order::Less),
        Op::GreaterEq => vord(a, b) == Some(Order::Greater) || vord(a, b) == Some(Order::Equal),
        _ => vord(a, b) == Some(Order::Less) || vord(a, b) == Some(Order::Equal),
    }
}

/// The range value `start..end` (`..=end` when `incl`).
pub open spec fn range_value(start: ValueV, end: ValueV, incl: bool) -> Result<ValueV, VMError> {
    match (start, end) {
        (ValueV::Number(s), ValueV::Number(e)) => {
            let e2 = range_end(s, e, incl);
            Ok(ValueV::Iter(Box::new(IterV::Range(Range { start: s, end: e2, step: if s > e2 { -1i64 } else { 1i64 } }))))
        },
        _ => Err(VMError::UnExpectedType),
    }
}

/// Leaves the current call with the value `rv` (the stack of `vm` no
/// longer holds it).
pub open spec fn return_spec(vm: VMV, rv: ValueV) -> Outcome {
    if vm.calls.len() == 0 {
        fail(vm, VMError::InvalidState)
    } else {
        let fr = vm.calls.last();
        let vm1 = VMV { calls: vm.calls.drop_last(), fp: vm.now_frame, now_frame: fr.old_frame, ..vm };
        if fr.return_ip == consts::STOP_FLAG {
            lambda_done(vm1, rv)
        } else {
            go(VMV { ip: fr.return_ip, stack: vm1.stack.push(rv), ..vm1 })
        }
    }
}

/// Starts a call of the function at `target_ip` on behalf of a builtin:
/// the arguments become the first slots of a new frame at the end of the
/// variable slots.
pub open spec fn lambda_call(vm: VMV, target_ip: usize, args: Seq<ValueV>, env: usize) -> VMV {
    VMV {
        calls: vm.calls.push(
            CallFrame {
                return_ip: consts::STOP_FLAG,
                old_frame: vm.now_frame,
                parent_frame: if env < vm.calls.len() { env } else { consts::STOP_FLAG },
                frame_idx: vm.frame.len() as usize,
            },
        ),
        now_frame: vm.frame.len() as usize,
        frame: vm.frame + args,
        ip: target_ip,
        ..vm
    }
}

/// A function called by a builtin returned `rv`: the builtin keeps or drops
/// it and either calls the function on the next item or finishes with the
/// array of what it kept.
pub open spec fn lambda_done(vm: VMV, rv: ValueV) -> Outcome {
    if vm.pending.len() == 0 || vm.pending.last() is Collect {
        (push_v(vm, rv), Ok(StepV::Halt))
    } else {
        match vm.pending.last() {
            PendingV::Each { kind, items, next, acc, lambda_ip, env, resume_ip } => {
                if next == 0 || next > items.len() {
                    fail(vm, VMError::InvalidState)
                } else {
                    let kept: Result<Seq<ValueV>, VMError> = match kind {
                        EachKind::Mapping => Ok(acc.push(rv)),
                        EachKind::Filtering => Ok(if truthy(rv) { acc.push(items[next - 1]) } else { acc }),
                        EachKind::FilterMapping => match rv {
                            ValueV::Cat(Some(x)) => Ok(acc.push(*x)),
                            ValueV::Cat(None) => Ok(acc),
                            _ => Err(VMError::BadArgument),
                        },
                    };
                    match kept {
                        Err(e) => fail(vm, e),
                        Ok(acc2) => if next < items.len() {
                            let vm2 = VMV {
                                pending: vm.pending.update(
                                    vm.pending.len() - 1,
                                    PendingV::Each { kind, items, next: (next + 1) as usize, acc: acc2, lambda_ip, env, resume_ip },
                                ),
                                ..vm
                            };
                            go(lambda_call(vm2, lambda_ip, seq![items[next as int]], env))
                        } else {
                            go(VMV {
                                pending: vm.pending.drop_last(),
                                stack: vm.stack.push(ValueV::Array(acc2)),
                                ip: resume_ip,
                                ..vm
                            })
                        },
                    }
                }
            },
            _ => fail(vm, VMError::InvalidState),
        }
    }
}

/// Advances a `collect` in progress by one item.
pub open spec fn collect_spec(vm: VMV) -> Outcome {
    match vm.pending.last() {
        PendingV::Collect { slot, iter, acc, resume_ip } => {
            let cur = match slot {
                Some(i) => if i < vm.frame.len() { Some(vm.frame[i as int]) } else { None },
                None => Some(iter),
            };
            match cur {
                None => fail(vm, VMError::InvalidState),
                Some(ValueV::Iter(it)) => {
                    let (it2, o) = iter_next_spec(*it);
                    let moved = ValueV::Iter(Box::new(it2));
                    let frame2 = match slot {
                        Some(i) => vm.frame.update(i as int, moved),
                        None => vm.frame,
                    };
                    let iter2 = match slot {
                        Some(_) => iter,
                        None => moved,
                    };
                    let k = vm.pending.len() - 1;
                    match o {
                        Some(x) => go(VMV {
                            frame: frame2,
                            pending: vm.pending.update(k, PendingV::Collect { slot, iter: iter2, acc: acc.push(x), resume_ip }),
                            ..vm
                        }),
                        None => go(VMV {
                            frame: frame2,
                            pending: vm.pending.drop_last(),
                            stack: vm.stack.push(ValueV::Array(acc)),
                            ip: resume_ip,
                            ..vm
                        }),
                    }
                },
                Some(_) => fail(vm, VMError::CantIter),
            }
        },
        _ => fail(vm, VMError::InvalidState),
    }
}

/// Writes `args` into the variable slots from `p` on, growing the slots by
/// `1024` whenever a write would fall past their end.
pub open spec fn place_args(frame: Seq<ValueV>, p: int, args: Seq<ValueV>) -> Seq<ValueV>
    decreases args.len(),
{
    if args.len() == 0 {
        frame
    } else {
        let f1 = if p >= frame.len() { frame + voids((p + 1024 - frame.len()) as nat) } else { frame };
        place_args(f1.update(p, args[0]), p + 1, args.drop_first())
    }
}

/// Calls the function at `target` with `args` (already taken off the
/// stack): its frame starts at `fp`.
pub open spec fn call_spec(vm: VMV, args: Seq<ValueV>, target: u32, env: u32) -> Outcome {
    if vm.fp + args.len() + 1024 > usize::MAX {
        fail(vm, VMError::InvalidState)
    } else {
        go(VMV {
            frame: place_args(vm.frame, vm.fp as int, args),
            fp: (vm.fp + args.len()) as usize,
            calls: vm.calls.push(
                CallFrame {
                    return_ip: (vm.ip + 1) as usize,
                    old_frame: vm.now_frame,
                    parent_frame: if (env as usize) < vm.calls.len() { env as usize } else { usize::MAX },
                    frame_idx: vm.fp,
                },
            ),
            now_frame: vm.fp,
            ip: target as usize,
            ..vm
        })
    }
}

// ---------------------------------------------------------------------------
// Builtins
// ---------------------------------------------------------------------------

/// The argument at `k`, void when it was not given.
pub open spec fn arg(args: Seq<ValueV>, k: int) -> ValueV {
    if 0 <= k < args.len() {
        args[k]
    } else {
        ValueV::Void
    }
}

/// The value a reference stands for; `None` when it points past the slots.
pub open spec fn deref_v(vm: VMV, v: ValueV) -> Option<ValueV> {
    match v {
        ValueV::Ref(i) => if i < vm.frame.len() {
            Some(vm.frame[i as int])
        } else {
            None
        },
        _ => Some(v),
    }
}

/// Whether `s` begins with `p`.
pub open spec fn starts_with(s: Seq<char>, p: Seq<char>) -> bool {
    p.len() <= s.len() && s.subrange(0, p.len() as int) == p
}

/// Whether `p` occurs in `s`.
pub open spec fn contains_text(s: Seq<char>, p: Seq<char>) -> bool {
    first_match(s, p, 0) >= 0
}

/// The position just past the last non-whitespace character before `j`.
pub open spec fn trim_end(s: Seq<char>, j: int) -> int
    decreases j,
{
    if j <= 0 {
        0
    } else if !is_space(s[j - 1]) {
        j
    } else {
        trim_end(s, j - 1)
    }
}

/// `s` without leading and trailing whitespace.
pub open spec fn trim(s: Seq<char>) -> Seq<char> {
    let a = first_space(s, 0, false);
    if a >= s.len() {
        Seq::empty()
    } else {
        s.subrange(a, trim_end(s, s.len() as int))
    }
}

/// The open mode the flags of `open` ask for.
pub open spec fn open_mode(opt: i64) -> OpenMode {
    let truncate = (consts::TRUNCATE_FM & opt) != 0;
    OpenMode {
        read: (consts::READ_FM & opt) != 0,
        write: (consts::WRITE_FM & opt) != 0 || truncate,
        create: (consts::CREATE_FM & opt) != 0,
        append: !truncate,
        truncate,
    }
}

/// A number holding a count.
pub open spec fn count_v(n: nat) -> ValueV {
    ValueV::Number(n as i64)
}

pub open spec fn err_text(m: Seq<char>) -> ValueV {
    ValueV::ResErr(Box::new(ValueV::Str(m)))
}

/// Asks the host for `req`; the step has moved past the call.
pub open spec fn ask(vm: VMV, req: IoRequestV) -> Outcome {
    (VMV { awaiting: Some(req), ..adv(vm) }, Ok(StepV::Io(req)))
}

/// Advances the iterator value `v` up to `k` times, stopping when it is
/// exhausted; gives the iterator and the last item it gave (`None` when
/// it ran out).
pub open spec fn advance_n(v: ValueV, k: nat, last: Option<ValueV>) -> Result<(ValueV, Option<ValueV>), VMError>
    decreases k,
{
    if k == 0 {
        Ok((v, last))
    } else {
        match v {
            ValueV::Iter(it) => {
                let (it2, o) = iter_next_spec(*it);
                match o {
                    Some(x) => advance_n(ValueV::Iter(Box::new(it2)), (k - 1) as nat, Some(x)),
                    None => Ok((ValueV::Iter(Box::new(it2)), None)),
                }
            },
            _ => Err(VMError::CantIter),
        }
    }
}

/// Where `write` sends its text: `None` for a file descriptor other than
/// standard output and error.
pub open spec fn write_target(v: ValueV) -> Option<WriteTargetV> {
    match v {
        ValueV::File(id, _) => Some(WriteTargetV::File(id)),
        ValueV::Str(p) => Some(WriteTargetV::Path(p)),
        ValueV::Number(n) => if n == consts::STDOUT {
            Some(WriteTargetV::Stdout)
        } else if n == consts::STDERR {
            Some(WriteTargetV::Stderr)
        } else {
            None
        },
        _ => Some(WriteTargetV::Stdout),
    }
}

/// The array an `map`-like builtin walks: the value itself or the slot a
/// reference points to.
pub open spec fn array_arg(vm: VMV, v: ValueV) -> Result<Seq<ValueV>, VMError> {
    match v {
        ValueV::Array(xs) => Ok(xs),
        ValueV::Ref(i) => if i >= vm.frame.len() {
            Err(VMError::InvalidState)
        } else {
            match vm.frame[i as int] {
                ValueV::Array(xs) => Ok(xs),
                _ => Err(VMError::BadArgument),
            }
        },
        _ => Err(VMError::BadArgument),
    }
}

/// `map` (`Mapping`), `filter` and `filter_map`: calls the function on the
/// first item, or gives an empty array when there is none.
pub open spec fn each_spec(vm: VMV, kind: EachKind, args: Seq<ValueV>) -> Outcome {
    match array_arg(vm, arg(args, 0)) {
        Err(e) => fail(vm, e),
        Ok(xs) => match arg(args, 1) {
            ValueV::Fn(lip, env) => if xs.len() == 0 {
                go(push_v(adv(vm), ValueV::Array(Seq::empty())))
            } else {
                let vm2 = VMV {
                    pending: vm.pending.push(
                        PendingV::Each {
                            kind,
                            items: xs,
                            next: 1,
                            acc: Seq::empty(),
                            lambda_ip: lip as usize,
                            env: env as usize,
                            resume_ip: (vm.ip + 1) as usize,
                        },
                    ),
                    ..vm
                };
                go(lambda_call(vm2, lip as usize, seq![xs[0]], env as usize))
            },
            _ => fail(vm, VMError::BadArgument),
        },
    }
}

/// A text argument, as the builtins that read one directly take it.
pub open spec fn text_arg(v: ValueV) -> Option<Seq<char>> {
    match v {
        ValueV::Str(s) => Some(s),
        _ => None,
    }
}

/// The builtin numbered `code` on `args` (already taken off the stack).
pub open spec fn builtin_spec(vm: VMV, code: i64, args: Seq<ValueV>) -> Outcome {
    let next = adv(vm);
    let a0 = arg(args, 0);
    let a1 = arg(args, 1);
    if code == 1 {
        match deref_v(vm, a0) {
            None => fail(vm, VMError::InvalidState),
            Some(ValueV::Str(s)) => go(push_v(next, count_v(s.len()))),
            Some(ValueV::Array(xs)) => go(push_v(next, count_v(xs.len()))),
            _ => fail(vm, VMError::BadArgument),
        }
    } else if code == 2 {
        let base: Result<Seq<char>, VMError> = match a0 {
            ValueV::Str(s) => Ok(s),
            ValueV::Ref(i) => if i >= vm.frame.len() {
                Err(VMError::InvalidState)
            } else {
                match vm.frame[i as int] {
                    ValueV::Str(s) => Ok(s),
                    _ => Err(VMError::BadArgument),
                }
            },
            _ => Err(VMError::BadArgument),
        };
        match base {
            Err(e) => fail(vm, e),
            Ok(s) => match deref_v(vm, a1) {
                None => fail(vm, VMError::InvalidState),
                Some(ValueV::Char(c)) => go(push_v(next, ValueV::Bool(starts_with(s, seq![c])))),
                Some(ValueV::Str(p)) => go(push_v(next, ValueV::Bool(starts_with(s, p)))),
                Some(p) => go(push_v(next, ValueV::Bool(starts_with(s, show(p))))),
            },
        }
    } else if code == 3 {
        match deref_v(vm, a0) {
            None => fail(vm, VMError::InvalidState),
            Some(ValueV::File(id, p)) => ask(vm, IoRequestV::ReadChunk { file: id, path: p }),
            _ => fail(vm, VMError::BadArgument),
        }
    } else if code == 4 {
        match format_spec(args) {
            Ok(o) => go(push_v(next, ValueV::Str(o))),
            Err(e) => fail(vm, e),
        }
    } else if code == 5 {
        match deref_v(vm, a0) {
            None => fail(vm, VMError::InvalidState),
            Some(v) => match make_iter_spec(v) {
                Some(it) => go(push_v(next, ValueV::Iter(Box::new(IterV::Enumerate(Box::new(it), 0))))),
                None => fail(vm, VMError::UnExpectedType),
            },
        }
    } else if code == 6 {
        match deref_v(vm, a0) {
            None => fail(vm, VMError::InvalidState),
            Some(ValueV::File(id, p)) => ask(vm, IoRequestV::ReadAll { file: id, path: p }),
            Some(ValueV::Str(p)) => ask(vm, IoRequestV::ReadPath { path: p }),
            _ => fail(vm, VMError::BadArgument),
        }
    } else if code == 7 {
        match text_arg(a0) {
            Some(p) => ask(vm, IoRequestV::Create { path: p }),
            None => fail(vm, VMError::BadArgument),
        }
    } else if code == 8 {
        match text_arg(a0) {
            None => fail(vm, VMError::BadArgument),
            Some(p) => if args.len() > 1 {
                match a1 {
                    ValueV::Number(o) => ask(vm, IoRequestV::Open { path: p, mode: open_mode(o) }),
                    _ => fail(vm, VMError::UnExpectedType),
                }
            } else {
                ask(vm, IoRequestV::Open { path: p, mode: open_mode(consts::ALL_FLAGS) })
            },
        }
    } else if code == 9 {
        match deref_v(vm, a0) {
            None => fail(vm, VMError::InvalidState),
            Some(ValueV::ResOk(_)) => go(push_v(next, ValueV::Bool(true))),
            Some(ValueV::ResErr(_)) => go(push_v(next, ValueV::Bool(false))),
            _ => fail(vm, VMError::BadArgument),
        }
    } else if code == 10 {
        match deref_v(vm, a0) {
            None => fail(vm, VMError::InvalidState),
            Some(ValueV::Str(s)) => go(push_v(next, ValueV::Bool(s.len() == 0))),
            Some(ValueV::Array(xs)) => go(push_v(next, ValueV::Bool(xs.len() == 0))),
            _ => fail(vm, VMError::BadArgument),
        }
    } else if code == 11 {
        match deref_v(vm, a0) {
            None => fail(vm, VMError::InvalidState),
            Some(ValueV::Cat(c)) => go(push_v(next, ValueV::Bool(c is Some))),
            _ => fail(vm, VMError::BadArgument),
        }
    } else if code == 12 {
        match a0 {
            ValueV::Ref(id) => if id >= vm.frame.len() {
                fail(vm, VMError::InvalidState)
            } else {
                match vm.frame[id as int] {
                    ValueV::Array(xs) => go(
                        push_v(VMV { frame: vm.frame.update(id as int, ValueV::Array(xs.push(a1))), ..next }, ValueV::Void),
                    ),
                    _ => fail(vm, VMError::BadArgument),
                }
            },
            _ => go(next),
        }
    } else if code == 13 {
        if args.len() > 0 {
            match format_spec(args) {
                Ok(o) => ask(vm, IoRequestV::ReadLine { prompt: Some(o) }),
                Err(e) => fail(vm, e),
            }
        } else {
            ask(vm, IoRequestV::ReadLine { prompt: None })
        }
    } else if code == 14 {
        match deref_v(vm, a0) {
            None => fail(vm, VMError::InvalidState),
            Some(ValueV::Str(t)) => match parse_int_spec(t) {
                IntParse::Value(n) => go(push_v(next, ValueV::ResOk(Box::new(ValueV::Number(n))))),
                e => go(push_v(next, err_text(parse_error_text(e)))),
            },
            _ => fail(vm, VMError::BadArgument),
        }
    } else if code == 15 {
        match a0 {
            ValueV::Iter(it) => match *it {
                IterV::Range(r) => match a1 {
                    ValueV::Number(s) => go(
                        push_v(next, ValueV::Iter(Box::new(IterV::Range(Range { step: s, ..r })))),
                    ),
                    _ => fail(vm, VMError::UnExpectedType),
                },
                _ => fail(vm, VMError::BadArgument),
            },
            _ => fail(vm, VMError::BadArgument),
        }
    } else if code == 16 || code == 17 {
        match deref_v(vm, a0) {
            None => fail(vm, VMError::InvalidState),
            Some(ValueV::Str(t)) => go(
                push_v(
                    next,
                    ValueV::Iter(Box::new(if code == 16 { IterV::Lines(t, 0) } else { IterV::SplitWhitespace(t, 0) })),
                ),
            ),
            _ => fail(vm, VMError::BadArgument),
        }
    } else if code == 18 {
        match text_arg(a1) {
            None => fail(vm, VMError::BadArgument),
            Some(d) => {
                let src: Result<Seq<char>, VMError> = match a0 {
                    ValueV::Ref(i) => if i >= vm.frame.len() {
                        Err(VMError::InvalidState)
                    } else {
                        match text_arg(vm.frame[i as int]) {
                            Some(t) => Ok(t),
                            None => Err(VMError::BadArgument),
                        }
                    },
                    ValueV::Str(t) => Ok(t),
                    _ => Err(VMError::BadArgument),
                };
                match src {
                    Err(e) => fail(vm, e),
                    Ok(t) => go(push_v(next, ValueV::Iter(Box::new(IterV::Split(t, d, 0))))),
                }
            },
        }
    } else if code == 19 {
        match a1 {
            ValueV::Number(n) => if n < 0 {
                fail(vm, VMError::BadArgument)
            } else {
                match a0 {
                    ValueV::Ref(i) => if i >= vm.frame.len() {
                        fail(vm, VMError::InvalidState)
                    } else {
                        match advance_n(vm.frame[i as int], (n + 1) as nat, None) {
                            Err(e) => fail(vm, e),
                            Ok((v2, o)) => go(
                                push_v(
                                    VMV { frame: vm.frame.update(i as int, v2), ..next },
                                    ValueV::Cat(match o { Some(x) => Some(Box::new(x)), None => None }),
                                ),
                            ),
                        }
                    },
                    _ => match advance_n(a0, (n + 1) as nat, None) {
                        Err(e) => fail(vm, e),
                        Ok((_, o)) => go(
                            push_v(next, ValueV::Cat(match o { Some(x) => Some(Box::new(x)), None => None })),
                        ),
                    },
                }
            },
            _ => fail(vm, VMError::UnExpectedType),
        }
    } else if code == 20 {
        let resume_ip = (vm.ip + 1) as usize;
        match a0 {
            ValueV::Ref(i) => if i >= vm.frame.len() {
                fail(vm, VMError::InvalidState)
            } else {
                go(VMV {
                    pending: vm.pending.push(
                        PendingV::Collect { slot: Some(i), iter: ValueV::Void, acc: Seq::empty(), resume_ip },
                    ),
                    ..vm
                })
            },
            _ => go(VMV {
                pending: vm.pending.push(PendingV::Collect { slot: None, iter: a0, acc: Seq::empty(), resume_ip }),
                ..vm
            }),
        }
    } else if code == 21 {
        match deref_v(vm, a0) {
            None => fail(vm, VMError::InvalidState),
            Some(t) => {
                let s = show(t);
                let p = show(a1);
                let ignore_case = args.len() > 2 && truthy(args[2]);
                let exact = args.len() > 3 && truthy(args[3]);
                let found = if ignore_case {
                    if exact {
                        contains_text(lowercase_of(s), p)
                    } else {
                        contains_text(lowercase_of(s), lowercase_of(p))
                    }
                } else {
                    contains_text(s, p)
                };
                go(push_v(next, ValueV::Bool(found)))
            },
        }
    } else if code == 22 || code == 23 {
        match deref_v(vm, a0) {
            None => fail(vm, VMError::InvalidState),
            Some(ValueV::Str(t)) => go(
                push_v(next, ValueV::Str(if code == 22 { lowercase_of(t) } else { uppercase_of(t) })),
            ),
            _ => fail(vm, VMError::BadArgument),
        }
    } else if code == 24 || code == 25 {
        let rest = if args.len() > 0 { args.drop_first() } else { args };
        match write_spec(rest, code == 25) {
            Err(_) => go(push_v(next, err_text("error with write"@))),
            Ok(t) => match write_target(a0) {
                Some(w) => ask(vm, IoRequestV::Write { target: w, text: t, to_stdout: false }),
                None => if t.len() == 0 {
                    ask(vm, IoRequestV::Write { target: WriteTargetV::Stdout, text: t, to_stdout: false })
                } else {
                    go(push_v(next, err_text("error with write"@)))
                },
            },
        }
    } else if code == 26 || code == 27 {
        match write_spec(args, code == 27) {
            Err(_) => go(push_v(next, err_text("error with write into: stdout"@))),
            Ok(t) => ask(vm, IoRequestV::Write { target: WriteTargetV::Stdout, text: t, to_stdout: true }),
        }
    } else if code == 28 {
        each_spec(vm, EachKind::FilterMapping, args)
    } else if code == 29 {
        each_spec(vm, EachKind::Mapping, args)
    } else if code == 30 {
        ask(vm, IoRequestV::ClearConsole)
    } else if code == 31 {
        each_spec(vm, EachKind::Filtering, args)
    } else {
        fail(vm, VMError::InvalidState)
    }
}

// ---------------------------------------------------------------------------
// Instructions
// ---------------------------------------------------------------------------

/// Executes `op`, the instruction at `vm.ip`.
pub open spec fn op_spec(vm: VMV, op: Op) -> Outcome {
    let s = vm.stack;
    let n = s.len();
    let next = adv(vm);
    match op {
        Op::PushFloat(_) => fail(vm, VMError::FloatUnsupported),
        Op::PushStr(t) => go(push_v(next, ValueV::Str(t@))),
        Op::PushChar(c) => go(push_v(next, ValueV::Char(c))),
        Op::PushNumber(x) => go(push_v(next, ValueV::Number(x))),
        Op::PushBool(b) => go(push_v(next, ValueV::Bool(b))),
        Op::PushRefGlobal(i) => go(push_v(next, ValueV::Ref(i))),
        Op::PushRefLocal(i, d) => match frame_base(vm, d) {
            Some(b) => if b + i > usize::MAX {
                fail(vm, VMError::InvalidState)
            } else {
                go(push_v(next, ValueV::Ref((b + i) as usize)))
            },
            None => fail(vm, VMError::InvalidState),
        },
        Op::PushFn(id) => go(
            push_v(next, ValueV::Fn(id as u32, (if vm.calls.len() == 0 { 0 } else { vm.calls.len() - 1 }) as u32)),
        ),
        Op::PushVoid => go(push_v(next, ValueV::Void)),
        Op::PushNone => go(push_v(next, ValueV::Cat(None))),
        Op::Pop => if n == 0 {
            fail(vm, VMError::InvalidState)
        } else {
            go(with_stack(next, s.drop_last()))
        },
        Op::Dup => if n == 0 {
            fail(vm, VMError::InvalidState)
        } else {
            go(push_v(next, s.last()))
        },
        Op::DupTarget(d) => if d + 1 > n {
            fail(vm, VMError::InvalidState)
        } else {
            go(with_stack(next, s + s.subrange(n - (d + 1), n as int)))
        },
        Op::Try => if n == 0 {
            fail(vm, VMError::InvalidState)
        } else {
            match s.last() {
                ValueV::ResOk(x) => go(with_stack(next, s.drop_last().push(*x))),
                ValueV::ResErr(e) => return_spec(with_stack(vm, s.drop_last()), ValueV::ResErr(e)),
                ValueV::Cat(Some(x)) => go(with_stack(next, s.drop_last().push(*x))),
                ValueV::Cat(None) => return_spec(with_stack(vm, s.drop_last()), ValueV::Cat(None)),
                _ => fail(vm, VMError::InvalidState),
            }
        },
        Op::Plus | Op::Sub | Op::Mult | Op::Div | Op::Mod | Op::Pow | Op::ArifmAnd | Op::ArifmOr => if n < 2 {
            fail(vm, VMError::InvalidState)
        } else {
            match arith_spec(op, s[n - 2], s[n - 1]) {
                Ok(v) => go(with_stack(next, s.subrange(0, n - 2).push(v))),
                Err(e) => fail(vm, e),
            }
        },
        Op::Equal | Op::NotEqual | Op::Greater | Op::Less | Op::GreaterEq | Op::LessEq => if n < 2 {
            fail(vm, VMError::InvalidState)
        } else {
            go(with_stack(next, s.subrange(0, n - 2).push(ValueV::Bool(compare_spec(op, s[n - 2], s[n - 1])))))
        },
        Op::Not => if n == 0 {
            fail(vm, VMError::InvalidState)
        } else {
            go(with_stack(next, s.drop_last().push(ValueV::Bool(!truthy(s.last())))))
        },
        Op::UnpackTuple => if n == 0 {
            fail(vm, VMError::InvalidState)
        } else {
            match s.last() {
                ValueV::Tuple(xs) => go(with_stack(next, s.drop_last() + xs)),
                _ => go(with_stack(next, s.drop_last())),
            }
        },
        Op::LoadGlobal(i) => if i < vm.frame.len() {
            go(push_v(next, vm.frame[i as int]))
        } else {
            fail(vm, VMError::InvalidState)
        },
        Op::StoreGlobal(i) => if n == 0 || i >= vm.frame.len() {
            fail(vm, VMError::InvalidState)
        } else {
            go(VMV {
                stack: s.drop_last(),
                frame: vm.frame.update(i as int, s.last()),
                fp: if i >= vm.fp { (i + 1) as usize } else { vm.fp },
                ..next
            })
        },
        Op::LoadLocal(i, d) => match frame_base(vm, d) {
            Some(b) => if b + i < vm.frame.len() {
                go(push_v(next, vm.frame[b + i]))
            } else {
                fail(vm, VMError::InvalidState)
            },
            None => fail(vm, VMError::InvalidState),
        },
        Op::StoreLocal(i, d) => if n == 0 {
            fail(vm, VMError::InvalidState)
        } else {
            match frame_base(vm, d) {
                Some(b) => if b + i < vm.frame.len() {
                    let k = (b + i) as usize;
                    go(VMV {
                        stack: s.drop_last(),
                        frame: vm.frame.update(k as int, s.last()),
                        fp: if k >= vm.fp { (k + 1) as usize } else { vm.fp },
                        ..next
                    })
                } else {
                    fail(vm, VMError::InvalidState)
                },
                None => fail(vm, VMError::InvalidState),
            }
        },
        Op::MakeOk => if n == 0 {
            fail(vm, VMError::InvalidState)
        } else {
            go(with_stack(next, s.drop_last().push(ValueV::ResOk(Box::new(s.last())))))
        },
        Op::MakeErr => if n == 0 {
            fail(vm, VMError::InvalidState)
        } else {
            go(with_stack(next, s.drop_last().push(ValueV::ResErr(Box::new(s.last())))))
        },
        Op::MakeSome => if n == 0 {
            fail(vm, VMError::InvalidState)
        } else {
            go(with_stack(next, s.drop_last().push(ValueV::Cat(Some(Box::new(s.last()))))))
        },
        Op::MakeRange(incl) => if n < 2 {
            fail(vm, VMError::InvalidState)
        } else {
            match range_value(s[n - 2], s[n - 1], incl) {
                Ok(v) => go(with_stack(next, s.subrange(0, n - 2).push(v))),
                Err(e) => fail(vm, e),
            }
        },
        Op::MakeIter => if n == 0 {
            fail(vm, VMError::InvalidState)
        } else {
            match make_iter_spec(s.last()) {
                Some(it) => go(with_stack(next, s.drop_last().push(ValueV::Iter(Box::new(it))))),
                None => fail(vm, VMError::UnExpectedType),
            }
        },
        Op::Jump(t) => go(VMV { ip: t, ..vm }),
        Op::JumpIfFalse(t) => if n == 0 {
            fail(vm, VMError::InvalidState)
        } else {
            go(VMV { stack: s.drop_last(), ip: if !truthy(s.last()) { t } else { next.ip }, ..vm })
        },
        Op::JumpIfTrue(t) => if n == 0 {
            fail(vm, VMError::InvalidState)
        } else {
            go(VMV { stack: s.drop_last(), ip: if truthy(s.last()) { t } else { next.ip }, ..vm })
        },
        Op::SafeUnwL(t) => if n == 0 {
            fail(vm, VMError::InvalidState)
        } else {
            match s.last() {
                ValueV::ResErr(e) => go(with_stack(next, s.drop_last().push(*e))),
                _ => go(VMV { stack: s.drop_last(), ip: t, ..vm }),
            }
        },
        Op::SafeUnwR(t) => if n == 0 {
            fail(vm, VMError::InvalidState)
        } else {
            match s.last() {
                ValueV::ResOk(x) => go(with_stack(next, s.drop_last().push(*x))),
                ValueV::Cat(Some(x)) => go(with_stack(next, s.drop_last().push(*x))),
                _ => go(VMV { stack: s.drop_last(), ip: t, ..vm }),
            }
        },
        Op::IterNext(t) => if n == 0 {
            fail(vm, VMError::InvalidState)
        } else {
            match s.last() {
                ValueV::Iter(it) => {
                    let (it2, o) = iter_next_spec(*it);
                    let s2 = s.drop_last().push(ValueV::Iter(Box::new(it2)));
                    match o {
                        Some(v) => go(with_stack(next, s2.push(v))),
                        None => go(VMV { stack: s2, ip: t, ..vm }),
                    }
                },
                _ => fail(vm, VMError::CantIter),
            }
        },
        Op::MakeTuple(c) => if c > n {
            fail(vm, VMError::InvalidState)
        } else {
            go(with_stack(next, s.subrange(0, n - c).push(ValueV::Tuple(s.subrange(n - c, n as int)))))
        },
        Op::MakeSet(c) => if c > n {
            fail(vm, VMError::InvalidState)
        } else {
            go(with_stack(next, s.subrange(0, n - c).push(ValueV::Array(s.subrange(n - c, n as int)))))
        },
        Op::StoreIndex(c) => if n == 0 {
            fail(vm, VMError::InvalidState)
        } else {
            let x = s.last();
            let s1 = s.drop_last();
            let m = s1.len();
            if c > 1 {
                if c + 1 > m {
                    fail(vm, VMError::InvalidState)
                } else {
                    let start = m - c;
                    let target = s1[start - 1];
                    let idxs = s1.subrange(start, m as int);
                    if !deep_set_ok(target, idxs) {
                        fail(vm, VMError::CantIndex)
                    } else {
                        match deep_set(target, idxs, x) {
                            Ok(t2) => go(with_stack(next, s1.subrange(0, start - 1).push(t2))),
                            Err(e) => fail(vm, e),
                        }
                    }
                }
            } else if m < 2 {
                fail(vm, VMError::InvalidState)
            } else {
                let idx = s1[m - 1];
                let target = s1[m - 2];
                if !set_ok(target, idx) {
                    fail(vm, VMError::CantIndex)
                } else {
                    match set_spec(target, idx, x) {
                        Ok(t2) => go(with_stack(next, s1.subrange(0, m - 2).push(t2))),
                        Err(e) => fail(vm, e),
                    }
                }
            }
        },
        Op::LoadIndex(c) => if c > 1 {
            if c + 1 > n {
                fail(vm, VMError::InvalidState)
            } else {
                let start = n - c;
                let target = s[start - 1];
                let idxs = s.subrange(start, n as int);
                if !deep_load_ok(target, idxs) {
                    fail(vm, VMError::CantIndex)
                } else {
                    match deep_load(target, idxs) {
                        Ok(v) => go(with_stack(next, s.subrange(0, start - 1).push(v))),
                        Err(e) => fail(vm, e),
                    }
                }
            }
        } else if n < 2 {
            fail(vm, VMError::InvalidState)
        } else {
            let idx = s[n - 1];
            let target = s[n - 2];
            if !load_ok(target, idx) {
                fail(vm, VMError::CantIndex)
            } else {
                match load_spec(target, idx) {
                    Ok(v) => go(with_stack(next, s.subrange(0, n - 2).push(v))),
                    Err(e) => fail(vm, e),
                }
            }
        },
        Op::CallFunc(c) => if n == 0 {
            fail(vm, VMError::InvalidState)
        } else {
            let f = s.last();
            let s1 = s.drop_last();
            match f {
                ValueV::Number(code) => if c > s1.len() {
                    fail(vm, VMError::InvalidState)
                } else {
                    builtin_spec(
                        with_stack(vm, s1.subrange(0, s1.len() - c)),
                        code,
                        s1.subrange(s1.len() - c, s1.len() as int),
                    )
                },
                ValueV::Fn(tip, env) => if c > s1.len() {
                    fail(vm, VMError::InvalidState)
                } else {
                    call_spec(
                        with_stack(vm, s1.subrange(0, s1.len() - c)),
                        s1.subrange(s1.len() - c, s1.len() as int),
                        tip,
                        env,
                    )
                },
                _ => go(with_stack(next, s1)),
            }
        },
        Op::Return => if n == 0 {
            fail(vm, VMError::InvalidState)
        } else {
            return_spec(with_stack(vm, s.drop_last()), s.last())
        },
    }
}

/// One step of the machine running `code`.
pub open spec fn step_spec(vm: VMV, code: Seq<Op>) -> Outcome {
    if vm.awaiting is Some {
        fail(vm, VMError::InvalidState)
    } else if vm.pending.len() > 0 && vm.pending.last() is Collect {
        collect_spec(vm)
    } else if vm.ip >= code.len() {
        (vm, Ok(StepV::Halt))
    } else {
        op_spec(vm, code[vm.ip as int])
    }
}

/// What the host's reply `reply` to the request the machine waits on puts
/// on the stack; `None` when the reply does not fit the request.
pub open spec fn reply_value(req: IoRequestV, reply: IoReply) -> Option<ValueV> {
    match req {
        IoRequestV::ReadChunk { path, .. } => match reply {
            IoReply::Text(t) => Some(ValueV::ResOk(Box::new(ValueV::Str(t@)))),
            IoReply::ReadFailed { message, .. } => Some(
                err_text("Error while trying read the file ("@ + path + "): "@ + message@),
            ),
            _ => None,
        },
        IoRequestV::ReadAll { path, .. } => match reply {
            IoReply::Text(t) => Some(ValueV::ResOk(Box::new(ValueV::Str(t@)))),
            IoReply::ReadFailed { at_seek, message } => Some(
                err_text(
                    (if at_seek { "Error while trying seek the file("@ } else { "Error while trying read the file("@ })
                        + path + "): "@ + message@,
                ),
            ),
            _ => None,
        },
        IoRequestV::ReadPath { .. } => match reply {
            IoReply::Text(t) => Some(ValueV::ResOk(Box::new(ValueV::Str(t@)))),
            IoReply::ReadFailed { message, .. } => Some(err_text(message@)),
            _ => None,
        },
        IoRequestV::Create { path } => match reply {
            IoReply::Opened(id) => Some(ValueV::ResOk(Box::new(ValueV::File(id, path)))),
            IoReply::NotOpened => Some(err_text("error with open file: "@ + path)),
            _ => None,
        },
        IoRequestV::Open { path, .. } => match reply {
            IoReply::Opened(id) => Some(ValueV::ResOk(Box::new(ValueV::File(id, path)))),
            IoReply::NotOpened => Some(err_text("error with open: "@ + path)),
            _ => None,
        },
        IoRequestV::Write { to_stdout, .. } => match reply {
            IoReply::Done => Some(ValueV::ResOk(Box::new(ValueV::Void))),
            IoReply::Failed => Some(
                err_text(if to_stdout { "error with write into: stdout"@ } else { "error with write"@ }),
            ),
            _ => None,
        },
        IoRequestV::ReadLine { .. } => match reply {
            IoReply::Text(t) => Some(ValueV::Str(trim(t@))),
            _ => None,
        },
        IoRequestV::ClearConsole => match reply {
            IoReply::Done => Some(ValueV::Void),
            _ => None,
        },
    }
}

} // verus!
