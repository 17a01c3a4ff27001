//! The arithmetic operators of the language on values.
use vstd::prelude::*;
use crate::value::{Value, ValueV};
use crate::num::{wrap48, tdiv, tmod, ipow, in48, wrap48_exec, tdiv_exec, tmod_exec, lemma_wrap48_mul_left};
use crate::show::{show, push_show};
use crate::errors::VMError;

verus! {

/// What `a + b` gives: the sum of two numbers, or the text of both operands
/// joined when a text or a character takes part (a number or a boolean may
/// stand before one).
pub open spec fn add_spec(a: ValueV, b: ValueV) -> Result<ValueV, VMError> {
    match (a, b) {
        (ValueV::Number(x), ValueV::Number(y)) => Ok(ValueV::Number(wrap48(x + y) as i64)),
        (ValueV::Str(s), _) => Ok(ValueV::Str(s + show(b))),
        (ValueV::Char(c), _) => Ok(ValueV::Str(seq![c] + show(b))),
        (ValueV::Number(_), ValueV::Str(_)) => Ok(ValueV::Str(show(a) + show(b))),
        (ValueV::Bool(_), ValueV::Str(_)) => Ok(ValueV::Str(show(a) + show(b))),
        (ValueV::Number(_), ValueV::Char(_)) => Ok(ValueV::Str(show(a) + show(b))),
        (ValueV::Bool(_), ValueV::Char(_)) => Ok(ValueV::Str(show(a) + show(b))),
        _ => Err(VMError::BadOperand),
    }
}

/// `a - b` on numbers.
pub open spec fn sub_spec(a: ValueV, b: ValueV) -> Result<ValueV, VMError> {
    match (a, b) {
        (ValueV::Number(x), ValueV::Number(y)) => Ok(ValueV::Number(wrap48(x - y) as i64)),
        _ => Err(VMError::BadOperand),
    }
}

/// `a * b` on numbers.
pub open spec fn mul_spec(a: ValueV, b: ValueV) -> Result<ValueV, VMError> {
    match (a, b) {
        (ValueV::Number(x), ValueV::Number(y)) => Ok(ValueV::Number(wrap48(x * y) as i64)),
        _ => Err(VMError::BadOperand),
    }
}

/// `a / b` on numbers, rounding toward zero.
pub open spec fn div_spec(a: ValueV, b: ValueV) -> Result<ValueV, VMError> {
    match (a, b) {
        (ValueV::Number(x), ValueV::Number(y)) => if y == 0 {
            Err(VMError::ZeroDiv)
        } else {
            Ok(ValueV::Number(wrap48(tdiv(x as int, y as int)) as i64))
        },
        _ => Err(VMError::BadOperand),
    }
}

/// `a & b` on numbers.
pub open spec fn and_spec(a: ValueV, b: ValueV) -> Result<ValueV, VMError> {
    match (a, b) {
        (ValueV::Number(x), ValueV::Number(y)) => Ok(ValueV::Number(wrap48((x & y) as int) as i64)),
        _ => Err(VMError::NotOperation),
    }
}

/// `a | b` on numbers.
pub open spec fn or_spec(a: ValueV, b: ValueV) -> Result<ValueV, VMError> {
    match (a, b) {
        (ValueV::Number(x), ValueV::Number(y)) => Ok(ValueV::Number(wrap48((x | y) as int) as i64)),
        _ => Err(VMError::NotOperation),
    }
}

/// `a % b` on numbers; the remainder has the sign of `a`.
pub open spec fn mod_spec(a: ValueV, b: ValueV) -> Result<ValueV, VMError> {
    match (a, b) {
        (ValueV::Number(x), ValueV::Number(y)) => if y == 0 {
            Err(VMError::ZeroDiv)
        } else {
            Ok(ValueV::Number(wrap48(tmod(x as int, y as int)) as i64))
        },
        _ => Err(VMError::NotOperation),
    }
}

/// `a ^ b` on numbers; the exponent is taken modulo 2^32.
pub open spec fn pow_spec(a: ValueV, b: ValueV) -> Result<ValueV, VMError> {
    match (a, b) {
        (ValueV::Number(x), ValueV::Number(y)) => if y < 0 {
            Err(VMError::BadOperand)
        } else {
            Ok(ValueV::Number(wrap48(ipow(x as int, (y % 0x1_0000_0000) as nat)) as i64))
        },
        _ => Err(VMError::NotOperation),
    }
}

/// The effect of a compound assignment: on success the left operand holds
/// the result; on failure it is left as it was.
pub open spec fn assigned(r: Result<(), VMError>, before: ValueV, after: ValueV, out: Result<ValueV, VMError>) -> bool {
    match out {
        Ok(v) => r is Ok && after == v,
        Err(e) => r == Err::<(), VMError>(e) && after == before,
    }
}

impl Value {
    /// `self = self + rhs`.
    pub fn add_assign(&mut self, rhs: Value) -> (r: Result<(), VMError>)
        ensures
            assigned(r, old(self)@, final(self)@, add_spec(old(self)@, rhs@)),
    {
        match (&*self, &rhs) {
            (Value::Number(a), Value::Number(b)) => {
                let n = wrap48_exec(*a as i128 + *b as i128);
                *self = Value::Number(n);
                return Ok(());
            },
            _ => {},
        }
        match self {
            Value::Str(s) => {
                push_show(&rhs, s);
                return Ok(());
            },
            _ => {},
        }
        let new_val = match (&*self, &rhs) {
            (Value::Char(c), _) => {
                let mut t: Vec<char> = Vec::new();
                t.push(*c);
                push_show(&rhs, &mut t);
                assert(t@ =~= seq![*c] + show(rhs@));
                Value::Str(t)
            },
            (Value::Number(_), Value::Str(_)) | (Value::Bool(_), Value::Str(_)) | (
                Value::Number(_),
                Value::Char(_),
            ) | (Value::Bool(_), Value::Char(_)) => {
                let mut t: Vec<char> = Vec::new();
                push_show(&*self, &mut t);
                push_show(&rhs, &mut t);
                assert(t@ =~= show(self@) + show(rhs@));
                Value::Str(t)
            },
            _ => return Err(VMError::BadOperand),
        };
        *self = new_val;
        Ok(())
    }

    /// `self = self - rhs`.
    pub fn sub_assign(&mut self, rhs: Value) -> (r: Result<(), VMError>)
        ensures
            assigned(r, old(self)@, final(self)@, sub_spec(old(self)@, rhs@)),
    {
        match (&*self, &rhs) {
            (Value::Number(a), Value::Number(b)) => {
                let n = wrap48_exec(*a as i128 - *b as i128);
                *self = Value::Number(n);
                Ok(())
            },
            _ => Err(VMError::BadOperand),
        }
    }

    /// `self = self * rhs`.
    pub fn mul_assign(&mut self, rhs: Value) -> (r: Result<(), VMError>)
        ensures
            assigned(r, old(self)@, final(self)@, mul_spec(old(self)@, rhs@)),
    {
        match (&*self, &rhs) {
            (Value::Number(a), Value::Number(b)) => {
                let x = *a as i128;
                let y = *b as i128;
                assert(-0x8000_0000_0000_0000_0000_0000_0000_0000 < x * y < 0x8000_0000_0000_0000_0000_0000_0000_0000) by (nonlinear_arith)
                    requires
                        -0x8000_0000_0000_0000 <= x < 0x8000_0000_0000_0000,
                        -0x8000_0000_0000_0000 <= y < 0x8000_0000_0000_0000,
                ;
                let n = wrap48_exec(x * y);
                *self = Value::Number(n);
                Ok(())
            },
            _ => Err(VMError::BadOperand),
        }
    }

    /// `self = self / rhs`.
    pub fn div_assign(&mut self, rhs: Value) -> (r: Result<(), VMError>)
        ensures
            assigned(r, old(self)@, final(self)@, div_spec(old(self)@, rhs@)),
    {
        match (&*self, &rhs) {
            (Value::Number(a), Value::Number(b)) => {
                if *b == 0 {
                    return Err(VMError::ZeroDiv);
                }
                let q = tdiv_exec(*a, *b);
                let n = wrap48_exec(q);
                *self = Value::Number(n);
                Ok(())
            },
            _ => Err(VMError::BadOperand),
        }
    }

    /// `self = self & rhs` (bitwise).
    pub fn arifm_and_assign(&mut self, rhs: Value) -> (r: Result<(), VMError>)
        ensures
            assigned(r, old(self)@, final(self)@, and_spec(old(self)@, rhs@)),
    {
        match (&*self, &rhs) {
            (Value::Number(a), Value::Number(b)) => {
                let n = wrap48_exec((*a & *b) as i128);
                *self = Value::Number(n);
                Ok(())
            },
            _ => Err(VMError::NotOperation),
        }
    }

    /// `self = self | rhs` (bitwise).
    pub fn arifm_or_assign(&mut self, rhs: Value) -> (r: Result<(), VMError>)
        ensures
            assigned(r, old(self)@, final(self)@, or_spec(old(self)@, rhs@)),
    {
        match (&*self, &rhs) {
            (Value::Number(a), Value::Number(b)) => {
                let n = wrap48_exec((*a | *b) as i128);
                *self = Value::Number(n);
                Ok(())
            },
            _ => Err(VMError::NotOperation),
        }
    }

    /// `self = self % rhs`.
    pub fn arifm_mod_assign(&mut self, rhs: Value) -> (r: Result<(), VMError>)
        ensures
            assigned(r, old(self)@, final(self)@, mod_spec(old(self)@, rhs@)),
    {
        match (&*self, &rhs) {
            (Value::Number(a), Value::Number(b)) => {
                if *b == 0 {
                    return Err(VMError::ZeroDiv);
                }
                let m = tmod_exec(*a, *b);
                proof {
                    assert(-0x8000_0000_0000_0000 <= tmod(*a as int, *b as int) <= 0x8000_0000_0000_0000) by {
                        crate::num::lemma_tmod_bound(*a as int, *b as int);
                    }
                }
                let n = wrap48_exec(m);
                *self = Value::Number(n);
                Ok(())
            },
            _ => Err(VMError::NotOperation),
        }
    }

    /// `self = self ^ rhs`, the exponent taken modulo 2^32.
    pub fn pow_assign(&mut self, rhs: Value) -> (r: Result<(), VMError>)
        ensures
            assigned(r, old(self)@, final(self)@, pow_spec(old(self)@, rhs@)),
    {
        match (&*self, &rhs) {
            (Value::Number(a), Value::Number(b)) => {
                if *b < 0 {
                    return Err(VMError::BadOperand);
                }
                let e: u64 = (*b as u64) % 0x1_0000_0000;
                let x = *a;
                let mut acc: i64 = 1;
                let mut i: u64 = 0;
                proof {
                    crate::num::lemma_wrap48_idem(1);
                }
                while i < e
                    invariant
                        i <= e,
                        acc == wrap48(ipow(x as int, i as nat)),
                        in48(acc as int),
                    decreases e - i,
                {
                    assert(-0x8000_0000_0000_0000_0000_0000_0000_0000 < acc * x < 0x8000_0000_0000_0000_0000_0000_0000_0000) by (nonlinear_arith)
                        requires
                            -0x8000_0000_0000 <= acc < 0x8000_0000_0000,
                            -0x8000_0000_0000_0000 <= x < 0x8000_0000_0000_0000,
                    ;
                    let p = acc as i128 * x as i128;
                    proof {
                        lemma_wrap48_mul_left(ipow(x as int, i as nat), x as int);
                    }
                    acc = wrap48_exec(p);
                    i = i + 1;
                }
                *self = Value::Number(acc);
                Ok(())
            },
            _ => Err(VMError::NotOperation),
        }
    }
}

} // verus!
