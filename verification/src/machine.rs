//! Executing instructions: each step does what `semantics::step_spec` says.
use vstd::prelude::*;
use crate::consts;
use crate::errors::VMError;
use crate::op::Op;
use crate::value::{Value, ValueV, vview, vview_seq, lemma_vview_seq, lemma_vview_seq_push, lemma_vview_seq_pop,
    lemma_vview_seq_subrange, lemma_vview_seq_add, lemma_vview_seq_update};
use crate::vm::{VM, VMV, Step, StepV, step_view, frame_base, CallFrame, Pending, PendingV, EachKind, pending_view, pendings_view, voids,
    IoReply, IoRequest, request_view};
use crate::semantics::{Outcome, op_spec, step_spec, adv, with_stack, push_v, go, fail, truthy, arith_spec, compare_spec,
    range_value, return_spec, lambda_call, lambda_done, collect_spec, place_args, call_spec, builtin_spec, reply_value};
use crate::relate::Order;

verus! {

/// The step taken agrees with the outcome `o`: on success the machine is
/// the one `o` gives and the result is what `o` says; on failure the error
/// is the one `o` gives.
pub open spec fn agrees(o: Outcome, vm: VMV, r: Result<Step, VMError>) -> bool {
    match o.1 {
        Ok(sv) => r is Ok && step_view(r->Ok_0) == sv && vm == o.0,
        Err(e) => r == Err::<Step, VMError>(e),
    }
}

impl VM {
    pub(crate) fn advance(&mut self)
        requires
            old(self).ip < usize::MAX,
        ensures
            final(self)@ == adv(old(self)@),
    {
        self.ip = self.ip + 1;
    }

    /// Takes the top `c` values off the stack, in stack order.
    pub(crate) fn take_top(&mut self, c: usize) -> (r: Vec<Value>)
        requires
            c <= old(self).stack.len(),
        ensures
            final(self)@ == with_stack(old(self)@, old(self)@.stack.subrange(0, old(self)@.stack.len() - c)),
            vview_seq(r@) == old(self)@.stack.subrange(old(self)@.stack.len() - c, old(self)@.stack.len() as int),
            r@.len() == c,
    {
        let n = self.stack.len();
        proof {
            lemma_vview_seq(self.stack@);
            lemma_vview_seq_subrange(self.stack@, 0, n - c);
            lemma_vview_seq_subrange(self.stack@, n - c, n as int);
        }
        let r = self.stack.split_off(n - c);
        assert(self@ =~= with_stack(old(self)@, old(self)@.stack.subrange(0, old(self)@.stack.len() - c)));
        r
    }

    /// The instructions that push a constant.
    fn exec_push(&mut self, op: &Op) -> (r: Result<Step, VMError>)
        requires
            old(self).ip < usize::MAX,
            op is PushStr || op is PushChar || op is PushNumber || op is PushBool || op is PushRefGlobal
                || op is PushFn || op is PushVoid || op is PushNone || op is PushFloat,
        ensures
            agrees(op_spec(old(self)@, *op), final(self)@, r),
    {
        let v = match op {
            Op::PushFloat(_) => return Err(VMError::FloatUnsupported),
            Op::PushStr(t) => Value::Str(crate::text::copy_text(t)),
            Op::PushChar(c) => Value::Char(*c),
            Op::PushNumber(x) => Value::Number(*x),
            Op::PushBool(b) => Value::Bool(*b),
            Op::PushRefGlobal(i) => Value::Ref(*i),
            Op::PushFn(id) => {
                let n = self.call_stack.len();
                let env: usize = if n == 0 { 0 } else { n - 1 };
                Value::Fn(*id as u32, env as u32)
            },
            Op::PushVoid => Value::Void,
            _ => Value::Cat(None),
        };
        self.advance();
        self.push(v);
        Ok(Step::Continue)
    }

    /// `Pop`, `Dup`, `DupTarget`, `Not`, `MakeOk`, `MakeErr`, `MakeSome` and
    /// `UnpackTuple`.
    fn exec_stack(&mut self, op: &Op) -> (r: Result<Step, VMError>)
        requires
            old(self).ip < usize::MAX,
            op is Pop || op is Dup || op is DupTarget || op is Not || op is MakeOk || op is MakeErr
                || op is MakeSome || op is UnpackTuple,
        ensures
            agrees(op_spec(old(self)@, *op), final(self)@, r),
    {
        let ghost s = self@.stack;
        proof {
            lemma_vview_seq(self.stack@);
        }
        if let Op::DupTarget(d) = op {
            let n = self.stack.len();
            if *d >= n {
                return Err(VMError::InvalidState);
            }
            let count = *d + 1;
            let start = n - count;
            let mut k: usize = 0;
            while k < count
                invariant
                    0 <= start,
                    start + count == n,
                    k <= count,
                    self.stack@.len() == n + k,
                    vview_seq(self.stack@) == s + s.subrange(start as int, start + k),
                    s.len() == n,
                    self.ip == old(self).ip,
                    self@ == with_stack(old(self)@, vview_seq(self.stack@)),
                decreases count - k,
            {
                proof {
                    lemma_vview_seq(self.stack@);
                }
                let x = self.stack[start + k].copy();
                proof {
                    lemma_vview_seq_push(self.stack@, x);
                    assert((s + s.subrange(start as int, start + k))[start + k] == s[start + k]);
                    assert(vview_seq(self.stack@)[start + k] == vview(self.stack@[start + k]));
                    assert(vview(self.stack@[start + k]) == s[start + k]);
                    assert(s.subrange(start as int, start + k).push(s[start + k]) =~= s.subrange(start as int, start + k + 1));
                    assert((s + s.subrange(start as int, start + k)).push(s[start + k]) =~= s + s.subrange(start as int, start + k + 1));
                }
                self.stack.push(x);
                k = k + 1;
            }
            self.advance();
            assert(self@ =~= with_stack(adv(old(self)@), s + s.subrange(n - (*d + 1), n as int)));
            return Ok(Step::Continue);
        }
        let top = match self.pop() {
            Ok(v) => v,
            Err(e) => return Err(e),
        };
        match op {
            Op::Pop => {
                self.advance();
            },
            Op::Dup => {
                let c = top.copy();
                self.advance();
                self.push(top);
                self.push(c);
                assert(s.drop_last().push(s.last()) =~= s);
            },
            Op::Not => {
                let b = top.is_truthy();
                self.advance();
                self.push(Value::Bool(!b));
            },
            Op::MakeOk => {
                self.advance();
                self.push(Value::Result(Box::new(Ok(top))));
            },
            Op::MakeErr => {
                self.advance();
                self.push(Value::Result(Box::new(Err(top))));
            },
            Op::MakeSome => {
                self.advance();
                self.push(Value::Cat(Some(Box::new(top))));
            },
            _ => {
                self.advance();
                match top {
                    Value::Tuple(mut xs) => {
                        proof {
                            lemma_vview_seq_add(self.stack@, xs@);
                        }
                        self.stack.append(&mut xs);
                    },
                    _ => {},
                }
            },
        }
        Ok(Step::Continue)
    }

    /// Takes the top value; the stack must not be empty.
    pub(crate) fn pop_top(&mut self) -> (r: Value)
        requires
            old(self)@.stack.len() > 0,
        ensures
            r@ == old(self)@.stack.last(),
            final(self)@ == with_stack(old(self)@, old(self)@.stack.drop_last()),
    {
        proof {
            lemma_vview_seq_pop(self.stack@);
        }
        let r = self.stack.pop().unwrap();
        assert(self@ =~= with_stack(old(self)@, old(self)@.stack.drop_last()));
        r
    }

    /// The arithmetic and comparison instructions.
    fn exec_binary(&mut self, op: &Op) -> (r: Result<Step, VMError>)
        requires
            old(self).ip < usize::MAX,
            op is Plus || op is Sub || op is Mult || op is Div || op is Mod || op is Pow || op is ArifmAnd
                || op is ArifmOr || op is Equal || op is NotEqual || op is Greater || op is Less
                || op is GreaterEq || op is LessEq,
        ensures
            agrees(op_spec(old(self)@, *op), final(self)@, r),
    {
        let ghost s = self@.stack;
        proof {
            lemma_vview_seq(self.stack@);
        }
        if self.stack.len() < 2 {
            return Err(VMError::InvalidState);
        }
        let right = self.pop_top();
        let mut left = self.pop_top();
        assert(s.drop_last().drop_last() =~= s.subrange(0, s.len() - 2));
        assert(s.drop_last().last() == s[s.len() - 2]);
        let res = match op {
            Op::Plus => left.add_assign(right),
            Op::Sub => left.sub_assign(right),
            Op::Mult => left.mul_assign(right),
            Op::Div => left.div_assign(right),
            Op::Pow => left.pow_assign(right),
            Op::ArifmAnd => left.arifm_and_assign(right),
            Op::ArifmOr => left.arifm_or_assign(right),
            Op::Mod => left.arifm_mod_assign(right),
            _ => {
                let b = match op {
                    Op::Equal => left.value_eq(&right),
                    Op::NotEqual => !left.value_eq(&right),
                    Op::Greater => match left.compare(&right) {
                        Some(Order::Greater) => true,
                        _ => false,
                    },
                    Op::Less => match left.compare(&right) {
                        Some(Order::Less) => true,
                        _ => false,
                    },
                    Op::GreaterEq => match left.compare(&right) {
                        Some(Order::Greater) => true,
                        Some(Order::Equal) => true,
                        _ => false,
                    },
                    _ => match left.compare(&right) {
                        Some(Order::Less) => true,
                        Some(Order::Equal) => true,
                        _ => false,
                    },
                };
                left = Value::Bool(b);
                Ok(())
            },
        };
        match res {
            Ok(()) => {},
            Err(e) => return Err(e),
        }
        self.advance();
        self.push(left);
        Ok(Step::Continue)
    }

    /// `MakeRange`, `MakeIter`, `MakeTuple` and `MakeSet`.
    fn exec_make(&mut self, op: &Op) -> (r: Result<Step, VMError>)
        requires
            old(self).ip < usize::MAX,
            op is MakeRange || op is MakeIter || op is MakeTuple || op is MakeSet,
        ensures
            agrees(op_spec(old(self)@, *op), final(self)@, r),
    {
        let ghost s = self@.stack;
        proof {
            lemma_vview_seq(self.stack@);
        }
        match op {
            Op::MakeRange(incl) => {
                if self.stack.len() < 2 {
                    return Err(VMError::InvalidState);
                }
                let end = self.pop_top();
                let start = self.pop_top();
                assert(s.drop_last().drop_last() =~= s.subrange(0, s.len() - 2));
                assert(s.drop_last().last() == s[s.len() - 2]);
                match Value::make_range(start, end, *incl) {
                    Ok(v) => {
                        self.advance();
                        self.push(v);
                        Ok(Step::Continue)
                    },
                    Err(e) => Err(e),
                }
            },
            Op::MakeIter => {
                if self.stack.len() == 0 {
                    return Err(VMError::InvalidState);
                }
                let v = self.pop_top();
                match v.make_iter() {
                    Ok(it) => {
                        self.advance();
                        self.push(Value::Iter(Box::new(it)));
                        Ok(Step::Continue)
                    },
                    Err(e) => Err(e),
                }
            },
            Op::MakeTuple(c) => {
                if *c > self.stack.len() {
                    return Err(VMError::InvalidState);
                }
                let xs = self.take_top(*c);
                self.advance();
                self.push(Value::Tuple(xs));
                Ok(Step::Continue)
            },
            _ => {
                let c = match op {
                    Op::MakeSet(c) => *c,
                    _ => 0,
                };
                if c > self.stack.len() {
                    return Err(VMError::InvalidState);
                }
                let xs = self.take_top(c);
                self.advance();
                self.push(Value::Array(xs));
                Ok(Step::Continue)
            },
        }
    }

    /// The jumps and `IterNext`.
    fn exec_jump(&mut self, op: &Op) -> (r: Result<Step, VMError>)
        requires
            old(self).ip < usize::MAX,
            op is Jump || op is JumpIfFalse || op is JumpIfTrue || op is SafeUnwL || op is SafeUnwR || op is IterNext,
        ensures
            agrees(op_spec(old(self)@, *op), final(self)@, r),
    {
        let ghost s = self@.stack;
        if let Op::Jump(t) = op {
            self.ip = *t;
            return Ok(Step::Continue);
        }
        if self.stack.len() == 0 {
            return Err(VMError::InvalidState);
        }
        let v = self.pop_top();
        match op {
            Op::JumpIfFalse(t) => {
                if !v.is_truthy() {
                    self.ip = *t;
                } else {
                    self.advance();
                }
                Ok(Step::Continue)
            },
            Op::JumpIfTrue(t) => {
                if v.is_truthy() {
                    self.ip = *t;
                } else {
                    self.advance();
                }
                Ok(Step::Continue)
            },
            Op::SafeUnwL(t) => {
                match v {
                    Value::Result(b) => match *b {
                        Err(e) => {
                            self.advance();
                            self.push(e);
                        },
                        Ok(_) => {
                            self.ip = *t;
                        },
                    },
                    _ => {
                        self.ip = *t;
                    },
                }
                Ok(Step::Continue)
            },
            Op::SafeUnwR(t) => {
                match v {
                    Value::Result(b) => match *b {
                        Ok(x) => {
                            self.advance();
                            self.push(x);
                        },
                        Err(_) => {
                            self.ip = *t;
                        },
                    },
                    Value::Cat(Some(x)) => {
                        self.advance();
                        self.push(*x);
                    },
                    _ => {
                        self.ip = *t;
                    },
                }
                Ok(Step::Continue)
            },
            _ => {
                let t = match op {
                    Op::IterNext(t) => *t,
                    _ => 0,
                };
                let mut it = v;
                match it.next() {
                    Ok(o) => {
                        self.push(it);
                        match o {
                            Some(x) => {
                                self.advance();
                                self.push(x);
                            },
                            None => {
                                self.ip = t;
                            },
                        }
                        Ok(Step::Continue)
                    },
                    Err(e) => Err(e),
                }
            },
        }
    }

    /// Replaces the variable slot `k`.
    pub(crate) fn set_slot(&mut self, k: usize, v: Value)
        requires
            k < old(self)@.frame.len(),
        ensures
            final(self)@ == (VMV { frame: old(self)@.frame.update(k as int, v@), ..old(self)@ }),
    {
        proof {
            lemma_vview_seq(self.frame@);
            lemma_vview_seq_update(self.frame@, k as int, v);
        }
        self.frame.set(k, v);
        assert(self@ =~= (VMV { frame: old(self)@.frame.update(k as int, v@), ..old(self)@ }));
    }

    /// The instructions that read and write variable slots.
    fn exec_var(&mut self, op: &Op) -> (r: Result<Step, VMError>)
        requires
            old(self).ip < usize::MAX,
            op is LoadGlobal || op is StoreGlobal || op is LoadLocal || op is StoreLocal || op is PushRefLocal,
        ensures
            agrees(op_spec(old(self)@, *op), final(self)@, r),
    {
        proof {
            lemma_vview_seq(self.frame@);
            lemma_vview_seq(self.stack@);
        }
        match op {
            Op::LoadGlobal(i) => {
                if *i >= self.frame.len() {
                    return Err(VMError::InvalidState);
                }
                let v = self.frame[*i].copy();
                self.advance();
                self.push(v);
                Ok(Step::Continue)
            },
            Op::StoreGlobal(i) => {
                if self.stack.len() == 0 || *i >= self.frame.len() {
                    return Err(VMError::InvalidState);
                }
                let v = self.pop_top();
                if *i >= self.fp {
                    self.fp = *i + 1;
                }
                self.set_slot(*i, v);
                self.advance();
                Ok(Step::Continue)
            },
            Op::LoadLocal(i, d) => {
                let b = match self.get_frame_base(*d) {
                    Some(b) => b,
                    None => return Err(VMError::InvalidState),
                };
                if b >= self.frame.len() || *i >= self.frame.len() - b {
                    return Err(VMError::InvalidState);
                }
                let v = self.frame[b + *i].copy();
                self.advance();
                self.push(v);
                Ok(Step::Continue)
            },
            Op::StoreLocal(i, d) => {
                if self.stack.len() == 0 {
                    return Err(VMError::InvalidState);
                }
                let b = match self.get_frame_base(*d) {
                    Some(b) => b,
                    None => return Err(VMError::InvalidState),
                };
                if b >= self.frame.len() || *i >= self.frame.len() - b {
                    return Err(VMError::InvalidState);
                }
                let k = b + *i;
                let v = self.pop_top();
                if k >= self.fp {
                    self.fp = k + 1;
                }
                self.set_slot(k, v);
                self.advance();
                Ok(Step::Continue)
            },
            _ => {
                let (i, d) = match op {
                    Op::PushRefLocal(i, d) => (*i, *d),
                    _ => (0, 0),
                };
                let b = match self.get_frame_base(d) {
                    Some(b) => b,
                    None => return Err(VMError::InvalidState),
                };
                if i > usize::MAX - b {
                    return Err(VMError::InvalidState);
                }
                self.advance();
                self.push(Value::Ref(b + i));
                Ok(Step::Continue)
            },
        }
    }

    /// `StoreIndex` and `LoadIndex`.
    fn exec_index(&mut self, op: &Op) -> (r: Result<Step, VMError>)
        requires
            old(self).ip < usize::MAX,
            op is StoreIndex || op is LoadIndex,
        ensures
            agrees(op_spec(old(self)@, *op), final(self)@, r),
    {
        let ghost s = self@.stack;
        proof {
            lemma_vview_seq(self.stack@);
        }
        match op {
            Op::StoreIndex(c) => {
                if self.stack.len() == 0 {
                    return Err(VMError::InvalidState);
                }
                let x = self.pop_top();
                let ghost s1 = s.drop_last();
                proof {
                    lemma_vview_seq(self.stack@);
                }
                let m = self.stack.len();
                if *c > 1 {
                    if *c >= m {
                        return Err(VMError::InvalidState);
                    }
                    let idxs = self.take_top(*c);
                    let mut target = self.pop_top();
                    let ghost start = m - *c;
                    assert(s1.subrange(0, start as int).drop_last() =~= s1.subrange(0, start - 1));
                    assert(s1.subrange(0, start as int).last() == s1[start - 1]);
                    if !crate::index::can_set_deep(&target, &idxs) {
                        return Err(VMError::CantIndex);
                    }
                    match target.set_index_deep(idxs, x) {
                        Ok(()) => {
                            self.advance();
                            self.push(target);
                            Ok(Step::Continue)
                        },
                        Err(e) => Err(e),
                    }
                } else {
                    if m < 2 {
                        return Err(VMError::InvalidState);
                    }
                    let index = self.pop_top();
                    let mut target = self.pop_top();
                    assert(s1.drop_last().drop_last() =~= s1.subrange(0, m - 2));
                    assert(s1.drop_last().last() == s1[m - 2]);
                    if !crate::index::can_set(&target, &index) {
                        return Err(VMError::CantIndex);
                    }
                    match target.set_index(index, x) {
                        Ok(()) => {
                            self.advance();
                            self.push(target);
                            Ok(Step::Continue)
                        },
                        Err(e) => Err(e),
                    }
                }
            },
            _ => {
                let c = match op {
                    Op::LoadIndex(c) => *c,
                    _ => 0,
                };
                let n = self.stack.len();
                if c > 1 {
                    if c >= n {
                        return Err(VMError::InvalidState);
                    }
                    let idxs = self.take_top(c);
                    let target = self.pop_top();
                    let ghost start = n - c;
                    assert(s.subrange(0, start as int).drop_last() =~= s.subrange(0, start - 1));
                    assert(s.subrange(0, start as int).last() == s[start - 1]);
                    match crate::index::load_deep_checked(&target, &idxs) {
                        Ok(v) => {
                            self.advance();
                            self.push(v);
                            Ok(Step::Continue)
                        },
                        Err(e) => Err(e),
                    }
                } else {
                    if n < 2 {
                        return Err(VMError::InvalidState);
                    }
                    let index = self.pop_top();
                    let target = self.pop_top();
                    assert(s.drop_last().drop_last() =~= s.subrange(0, n - 2));
                    assert(s.drop_last().last() == s[n - 2]);
                    if !crate::index::can_load(&target, &index) {
                        return Err(VMError::CantIndex);
                    }
                    match target.load_index(&index) {
                        Ok(v) => {
                            self.advance();
                            self.push(v);
                            Ok(Step::Continue)
                        },
                        Err(e) => Err(e),
                    }
                }
            },
        }
    }

    /// Starts a call of the function at `target_ip` on behalf of a builtin:
    /// a new frame past the last variable slot holds `args`, and the call
    /// returns to the builtin rather than to an instruction.
    pub fn run_lambda(&mut self, target_ip: usize, args: Vec<Value>, env_frame: usize)
        ensures
            final(self)@ == lambda_call(old(self)@, target_ip, vview_seq(args@), env_frame),
    {
        proof {
            lemma_vview_seq(self.frame@);
            lemma_vview_seq_add(self.frame@, args@);
        }
        let ghost a = vview_seq(args@);
        let n = self.call_stack.len();
        let parent = if env_frame < n { env_frame } else { consts::STOP_FLAG };
        let base = self.frame.len();
        self.call_stack.push(
            CallFrame { return_ip: consts::STOP_FLAG, old_frame: self.now_frame, parent_frame: parent, frame_idx: base },
        );
        self.now_frame = base;
        let mut args = args;
        self.frame.append(&mut args);
        self.ip = target_ip;
        assert(self@ =~= lambda_call(old(self)@, target_ip, a, env_frame));
    }

    /// A call made by a builtin returned `rv`.
    fn finish_lambda(&mut self, rv: Value) -> (r: Result<Step, VMError>)
        ensures
            agrees(lambda_done(old(self)@, rv@), final(self)@, r),
    {
        let np = self.pending.len();
        if np == 0 {
            self.push(rv);
            return Ok(Step::Halt);
        }
        let is_collect = match &self.pending[np - 1] {
            Pending::Collect { .. } => true,
            _ => false,
        };
        assert(self@.pending.last() == pending_view(self.pending@[np - 1]));
        if is_collect {
            self.push(rv);
            return Ok(Step::Halt);
        }
        let ghost vm0 = self@;
        let p = self.pending.pop().unwrap();
        assert(pendings_view(self.pending@) =~= vm0.pending.drop_last());
        match p {
            Pending::Each { kind, items, next, mut acc, lambda_ip, env, resume_ip } => {
                proof {
                    lemma_vview_seq(items@);
                }
                if next == 0 || next > items.len() {
                    return Err(VMError::InvalidState);
                }
                match kind {
                    EachKind::Mapping => {
                        proof {
                            lemma_vview_seq_push(acc@, rv);
                        }
                        acc.push(rv);
                    },
                    EachKind::Filtering => {
                        if rv.is_truthy() {
                            let x = items[next - 1].copy();
                            proof {
                                lemma_vview_seq_push(acc@, x);
                            }
                            acc.push(x);
                        }
                    },
                    EachKind::FilterMapping => {
                        match rv {
                            Value::Cat(Some(x)) => {
                                proof {
                                    lemma_vview_seq_push(acc@, *x);
                                }
                                acc.push(*x);
                            },
                            Value::Cat(None) => {},
                            _ => return Err(VMError::BadArgument),
                        }
                    },
                }
                if next < items.len() {
                    let item = items[next].copy();
                    let ghost acc2 = vview_seq(acc@);
                    let ghost items_v = vview_seq(items@);
                    self.pending.push(Pending::Each { kind, items, next: next + 1, acc, lambda_ip, env, resume_ip });
                    assert(pendings_view(self.pending@) =~= vm0.pending.update(
                        vm0.pending.len() - 1,
                        PendingV::Each { kind, items: items_v, next: (next + 1) as usize, acc: acc2, lambda_ip, env, resume_ip },
                    ));
                    let mut a: Vec<Value> = Vec::new();
                    proof {
                        lemma_vview_seq_push(a@, item);
                    }
                    a.push(item);
                    assert(vview_seq(a@) =~= seq![items_v[next as int]]);
                    self.run_lambda(lambda_ip, a, env);
                    Ok(Step::Continue)
                } else {
                    self.push(Value::Array(acc));
                    self.ip = resume_ip;
                    Ok(Step::Continue)
                }
            },
            _ => Err(VMError::InvalidState),
        }
    }

    /// Leaves the current call with the value `rv`.
    fn do_return(&mut self, rv: Value) -> (r: Result<Step, VMError>)
        ensures
            agrees(return_spec(old(self)@, rv@), final(self)@, r),
    {
        let fr = match self.call_stack.pop() {
            Some(f) => f,
            None => return Err(VMError::InvalidState),
        };
        self.fp = self.now_frame;
        self.now_frame = fr.old_frame;
        if fr.return_ip == consts::STOP_FLAG {
            return self.finish_lambda(rv);
        }
        self.ip = fr.return_ip;
        self.push(rv);
        Ok(Step::Continue)
    }

    /// `Try` and `Return`.
    fn exec_return(&mut self, op: &Op) -> (r: Result<Step, VMError>)
        requires
            old(self).ip < usize::MAX,
            op is Try || op is Return,
        ensures
            agrees(op_spec(old(self)@, *op), final(self)@, r),
    {
        proof {
            lemma_vview_seq(self.stack@);
        }
        if self.stack.len() == 0 {
            return Err(VMError::InvalidState);
        }
        let v = self.pop_top();
        match op {
            Op::Return => self.do_return(v),
            _ => match v {
                Value::Result(b) => match *b {
                    Ok(x) => {
                        self.advance();
                        self.push(x);
                        Ok(Step::Continue)
                    },
                    Err(e) => {
                        let rv = Value::Result(Box::new(Err(e)));
                        self.do_return(rv)
                    },
                },
                Value::Cat(c) => match c {
                    Some(x) => {
                        self.advance();
                        self.push(*x);
                        Ok(Step::Continue)
                    },
                    None => self.do_return(Value::Cat(None)),
                },
                _ => Err(VMError::InvalidState),
            },
        }
    }

    /// Calls the function at `tip` with `args`, taken off the stack.
    fn call_fn(&mut self, args: Vec<Value>, tip: u32, env: u32) -> (r: Result<Step, VMError>)
        requires
            old(self).ip < usize::MAX,
        ensures
            agrees(call_spec(old(self)@, vview_seq(args@), tip, env), final(self)@, r),
    {
        let ghost a = vview_seq(args@);
        let ghost f0 = self@.frame;
        proof {
            lemma_vview_seq(args@);
        }
        let k = args.len();
        if self.fp > usize::MAX - 1024 || k > usize::MAX - 1024 - self.fp {
            return Err(VMError::InvalidState);
        }
        let base = self.fp;
        let mut i: usize = 0;
        proof {
            assert(a.skip(0) =~= a);
        }
        while i < k
            invariant
                i <= k,
                k == args.len(),
                a == vview_seq(args@),
                a.len() == k,
                forall|j: int| 0 <= j < k ==> #[trigger] a[j] == vview(args@[j]),
                base + k + 1024 <= usize::MAX,
                place_args(f0, base as int, a) == place_args(vview_seq(self.frame@), base + i, a.skip(i as int)),
                self@ == (VMV { frame: self@.frame, ..old(self)@ }),
                base == old(self).fp,
                old(self).ip < usize::MAX,
            decreases k - i,
        {
            let p = base + i;
            let ghost fb = vview_seq(self.frame@);
            proof {
                lemma_vview_seq(self.frame@);
            }
            if p >= self.frame.len() {
                let target = p + 1024;
                while self.frame.len() < target
                    invariant
                        fb.len() <= p,
                        target == p + 1024,
                        self.frame@.len() <= target,
                        vview_seq(self.frame@) == fb + voids((self.frame@.len() - fb.len()) as nat),
                        self.frame@.len() >= fb.len(),
                        self@ == (VMV { frame: self@.frame, ..old(self)@ }),
                    decreases target - self.frame@.len(),
                {
                    proof {
                        lemma_vview_seq_push(self.frame@, Value::Void);
                        assert((fb + voids((self.frame@.len() - fb.len()) as nat)).push(ValueV::Void) =~= fb + voids(
                            (self.frame@.len() + 1 - fb.len()) as nat,
                        ));
                    }
                    self.frame.push(Value::Void);
                }
            }
            proof {
                lemma_vview_seq(self.frame@);
            }
            let x = args[i].copy();
            proof {
                lemma_vview_seq_update(self.frame@, p as int, x);
                assert(a.skip(i as int)[0] == a[i as int]);
                assert(a.skip(i as int).drop_first() =~= a.skip(i + 1));
            }
            self.frame.set(p, x);
            i = i + 1;
        }
        proof {
            assert(a.skip(k as int) =~= Seq::<ValueV>::empty());
        }
        let n = self.call_stack.len();
        let parent: usize = if (env as usize) < n { env as usize } else { usize::MAX };
        self.call_stack.push(
            CallFrame { return_ip: self.ip + 1, old_frame: self.now_frame, parent_frame: parent, frame_idx: base },
        );
        self.fp = base + k;
        self.now_frame = base;
        self.ip = tip as usize;
        Ok(Step::Continue)
    }

    /// `CallFunc`: a builtin when the callee is a number, a function call
    /// when it is a function; any other callee is dropped.
    fn exec_call(&mut self, op: &Op) -> (r: Result<Step, VMError>)
        requires
            old(self).ip < usize::MAX,
            op is CallFunc,
        ensures
            agrees(op_spec(old(self)@, *op), final(self)@, r),
    {
        let c = match op {
            Op::CallFunc(c) => *c,
            _ => 0,
        };
        proof {
            lemma_vview_seq(self.stack@);
        }
        if self.stack.len() == 0 {
            return Err(VMError::InvalidState);
        }
        let f = self.pop_top();
        proof {
            lemma_vview_seq(self.stack@);
        }
        match f {
            Value::Number(code) => {
                if c > self.stack.len() {
                    return Err(VMError::InvalidState);
                }
                let args = self.take_top(c);
                self.run_func(code, args)
            },
            Value::Fn(tip, env) => {
                if c > self.stack.len() {
                    return Err(VMError::InvalidState);
                }
                let args = self.take_top(c);
                self.call_fn(args, tip, env)
            },
            _ => {
                self.advance();
                Ok(Step::Continue)
            },
        }
    }

    /// Advances the `collect` on top of the pending builtins by one item.
    fn collect_next(&mut self) -> (r: Result<Step, VMError>)
        requires
            old(self)@.pending.len() > 0,
            old(self)@.pending.last() is Collect,
        ensures
            agrees(collect_spec(old(self)@), final(self)@, r),
    {
        let ghost vm0 = self@;
        proof {
            lemma_vview_seq(self.frame@);
        }
        let p = self.pending.pop().unwrap();
        assert(pendings_view(self.pending@) =~= vm0.pending.drop_last());
        assert(vm0.pending.last() == pending_view(p));
        match p {
            Pending::Collect { slot, iter, mut acc, resume_ip } => {
                let ghost iter_v = iter@;
                let (mut cur, keep) = match slot {
                    Some(i) => {
                        if i >= self.frame.len() {
                            return Err(VMError::InvalidState);
                        }
                        (self.frame[i].copy(), iter)
                    },
                    None => (iter, Value::Void),
                };
                let ghost before = cur@;
                let o = match cur.next() {
                    Ok(o) => o,
                    Err(e) => return Err(e),
                };
                let iter2 = match slot {
                    Some(i) => {
                        self.set_slot(i, cur);
                        keep
                    },
                    None => cur,
                };
                match o {
                    Some(x) => {
                        proof {
                            lemma_vview_seq_push(acc@, x);
                        }
                        acc.push(x);
                        let ghost acc_v = vview_seq(acc@);
                        let ghost it_v = iter2@;
                        let np = Pending::Collect { slot, iter: iter2, acc, resume_ip };
                        let ghost vm1 = self@;
                        proof {
                            crate::vm::lemma_pendings_push(self.pending@, np);
                        }
                        self.pending.push(np);
                        assert(pendings_view(self.pending@) =~= vm0.pending.update(
                            vm0.pending.len() - 1,
                            PendingV::Collect {
                                slot,
                                iter: match slot {
                                    Some(_) => iter_v,
                                    None => it_v,
                                },
                                acc: acc_v,
                                resume_ip,
                            },
                        ));
                    },
                    None => {
                        self.push(Value::Array(acc));
                        self.ip = resume_ip;
                    },
                }
                Ok(Step::Continue)
            },
            _ => Err(VMError::InvalidState),
        }
    }

    /// Takes one step of the program `code`: executes the instruction at
    /// `ip`, or advances a `collect` in progress, or reports that the
    /// program has ended or that the host has work to do.
    pub fn step(&mut self, code: &Vec<Op>) -> (r: Result<Step, VMError>)
        ensures
            agrees(step_spec(old(self)@, code@), final(self)@, r),
    {
        if self.awaiting.is_some() {
            return Err(VMError::InvalidState);
        }
        let np = self.pending.len();
        if np > 0 {
            let is_collect = match &self.pending[np - 1] {
                Pending::Collect { .. } => true,
                _ => false,
            };
            assert(self@.pending.last() == pending_view(self.pending@[np - 1]));
            if is_collect {
                return self.collect_next();
            }
        }
        if self.ip >= code.len() {
            return Ok(Step::Halt);
        }
        let op = &code[self.ip];
        match op {
            Op::PushFloat(_) | Op::PushStr(_) | Op::PushChar(_) | Op::PushNumber(_) | Op::PushBool(_)
            | Op::PushRefGlobal(_) | Op::PushFn(_) | Op::PushVoid | Op::PushNone => self.exec_push(op),
            Op::Pop | Op::Dup | Op::DupTarget(_) | Op::Not | Op::MakeOk | Op::MakeErr | Op::MakeSome
            | Op::UnpackTuple => self.exec_stack(op),
            Op::Plus | Op::Sub | Op::Mult | Op::Div | Op::Mod | Op::Pow | Op::ArifmAnd | Op::ArifmOr | Op::Equal
            | Op::NotEqual | Op::Greater | Op::Less | Op::GreaterEq | Op::LessEq => self.exec_binary(op),
            Op::MakeRange(_) | Op::MakeIter | Op::MakeTuple(_) | Op::MakeSet(_) => self.exec_make(op),
            Op::Jump(_) | Op::JumpIfFalse(_) | Op::JumpIfTrue(_) | Op::SafeUnwL(_) | Op::SafeUnwR(_)
            | Op::IterNext(_) => self.exec_jump(op),
            Op::LoadGlobal(_) | Op::StoreGlobal(_) | Op::LoadLocal(_, _) | Op::StoreLocal(_, _)
            | Op::PushRefLocal(_, _) => self.exec_var(op),
            Op::StoreIndex(_) | Op::LoadIndex(_) => self.exec_index(op),
            Op::Try | Op::Return => self.exec_return(op),
            Op::CallFunc(_) => self.exec_call(op),
        }
    }

    /// Takes in the host's reply to the request the machine waits on: the
    /// reply's value goes on the stack and the machine can step again.
    pub fn resume(&mut self, reply: IoReply) -> (r: Result<(), VMError>)
        ensures
            match old(self)@.awaiting {
                Some(req) => match reply_value(req, reply) {
                    Some(v) => r is Ok && final(self)@ == (VMV {
                        awaiting: None,
                        stack: old(self)@.stack.push(v),
                        ..old(self)@
                    }),
                    None => r == Err::<(), VMError>(VMError::InvalidState),
                },
                None => r == Err::<(), VMError>(VMError::InvalidState),
            },
    {
        let req = match self.awaiting.take() {
            Some(q) => q,
            None => return Err(VMError::InvalidState),
        };
        let v = match req {
            IoRequest::ReadChunk { path, .. } => match reply {
                IoReply::Text(t) => Value::new_control(Ok(Value::Str(t))),
                IoReply::ReadFailed { message, .. } => {
                    let mut m = crate::text::lit("Error while trying read the file (");
                    crate::text::append_text(&mut m, &path);
                    crate::text::append_lit(&mut m, "): ");
                    crate::text::append_text(&mut m, &message);
                    Value::new_control(Err(m))
                },
                _ => return Err(VMError::InvalidState),
            },
            IoRequest::ReadAll { path, .. } => match reply {
                IoReply::Text(t) => Value::new_control(Ok(Value::Str(t))),
                IoReply::ReadFailed { at_seek, message } => {
                    let mut m = if at_seek {
                        crate::text::lit("Error while trying seek the file(")
                    } else {
                        crate::text::lit("Error while trying read the file(")
                    };
                    crate::text::append_text(&mut m, &path);
                    crate::text::append_lit(&mut m, "): ");
                    crate::text::append_text(&mut m, &message);
                    Value::new_control(Err(m))
                },
                _ => return Err(VMError::InvalidState),
            },
            IoRequest::ReadPath { .. } => match reply {
                IoReply::Text(t) => Value::new_control(Ok(Value::Str(t))),
                IoReply::ReadFailed { message, .. } => Value::new_control(Err(message)),
                _ => return Err(VMError::InvalidState),
            },
            IoRequest::Create { path } => match reply {
                IoReply::Opened(id) => Value::open_file(path, Some(id)),
                IoReply::NotOpened => Value::open_file(path, None),
                _ => return Err(VMError::InvalidState),
            },
            IoRequest::Open { path, .. } => {
                let opened = match reply {
                    IoReply::Opened(id) => Some(id),
                    IoReply::NotOpened => None,
                    _ => return Err(VMError::InvalidState),
                };
                let mut m = crate::text::lit("error with open: ");
                crate::text::append_text(&mut m, &path);
                match Value::new_file(path, opened) {
                    Ok(f) => Value::new_control(Ok(f)),
                    Err(_) => Value::new_control(Err(m)),
                }
            },
            IoRequest::Write { to_stdout, .. } => match reply {
                IoReply::Done => Value::new_control(Ok(Value::Void)),
                IoReply::Failed => if to_stdout {
                    Value::new_control(Err(crate::text::lit("error with write into: stdout")))
                } else {
                    Value::new_control(Err(crate::text::lit("error with write")))
                },
                _ => return Err(VMError::InvalidState),
            },
            IoRequest::ReadLine { .. } => match reply {
                IoReply::Text(t) => Value::Str(crate::builtins::trim_text(&t)),
                _ => return Err(VMError::InvalidState),
            },
            IoRequest::ClearConsole => match reply {
                IoReply::Done => Value::Void,
                _ => return Err(VMError::InvalidState),
            },
        };
        self.push(v);
        Ok(())
    }
}

} // verus!
