//! Reading and writing elements of arrays and characters of texts.
use vstd::prelude::*;
use crate::value::{Value, ValueV, IterV, vview, vview_seq, lemma_vview_seq, lemma_vview_seq_subrange, lemma_vview_seq_update};
use crate::errors::VMError;
use crate::text::slice_text;
use vstd::arithmetic::div_mod::lemma_mod_bound;

verus! {

pub open spec fn min_usize(a: usize, b: usize) -> usize {
    if a < b {
        a
    } else {
        b
    }
}

/// When slicing `v` from `start` to `end` does not panic.
pub open spec fn dyap_ok(v: ValueV, start: usize, end: usize) -> bool {
    match v {
        ValueV::Array(xs) => start <= min_usize(end, xs.len() as usize),
        ValueV::Str(s) => start <= min_usize(end, s.len() as usize),
        _ => true,
    }
}

/// The elements (or characters) of `v` from `start` up to `end`, the end
/// clamped to the length.
pub open spec fn dyap_spec(v: ValueV, start: usize, end: usize) -> Result<ValueV, VMError> {
    match v {
        ValueV::Array(xs) => Ok(ValueV::Array(xs.subrange(start as int, min_usize(end, xs.len() as usize) as int))),
        ValueV::Str(s) => Ok(ValueV::Str(s.subrange(start as int, min_usize(end, s.len() as usize) as int))),
        _ => Err(VMError::UnExpectedType),
    }
}

/// When indexing `v` with `idx` does not panic: a number index needs a
/// non-empty array or text; a range index needs its start within the
/// clamped end.
pub open spec fn load_ok(v: ValueV, idx: ValueV) -> bool {
    match idx {
        ValueV::Iter(it) => match *it {
            IterV::Range(r) => (r.start < 0 || r.end < 0 || r.step < 0 || r.start > r.end) || dyap_ok(
                v,
                r.start as usize,
                r.end as usize,
            ),
            _ => true,
        },
        ValueV::Number(_) => match v {
            ValueV::Array(xs) => 0 < xs.len() <= i64::MAX,
            ValueV::Str(s) => 0 < s.len() <= i64::MAX,
            _ => true,
        },
        _ => true,
    }
}

/// What `v[idx]` gives: for a number, the element (or character) at that
/// position counted modulo the length, so negative positions count from
/// the end; for a non-negative ascending range, the slice it covers.
pub open spec fn load_spec(v: ValueV, idx: ValueV) -> Result<ValueV, VMError> {
    match idx {
        ValueV::Iter(it) => match *it {
            IterV::Range(r) => if r.start < 0 || r.end < 0 || r.step < 0 || r.start > r.end {
                Err(VMError::CantIndex)
            } else {
                dyap_spec(v, r.start as usize, r.end as usize)
            },
            _ => Err(VMError::CantIndex),
        },
        ValueV::Number(i) => match v {
            ValueV::Array(xs) => Ok(xs[(i as int) % (xs.len() as int)]),
            ValueV::Str(s) => Ok(ValueV::Char(s[(i as int) % (s.len() as int)])),
            _ => Err(VMError::CantIndex),
        },
        _ => Err(VMError::CantIndex),
    }
}

/// When indexing along the path `idxs` does not panic.
pub open spec fn deep_load_ok(v: ValueV, idxs: Seq<ValueV>) -> bool
    decreases idxs.len(),
{
    if idxs.len() == 0 {
        true
    } else {
        load_ok(v, idxs[0]) && match load_spec(v, idxs[0]) {
            Ok(w) => deep_load_ok(w, idxs.drop_first()),
            Err(_) => true,
        }
    }
}

/// `v[i0][i1]...`: indexing along the path, stopping at the first error.
pub open spec fn deep_load(v: ValueV, idxs: Seq<ValueV>) -> Result<ValueV, VMError>
    decreases idxs.len(),
{
    if idxs.len() == 0 {
        Ok(v)
    } else {
        match load_spec(v, idxs[0]) {
            Ok(w) => deep_load(w, idxs.drop_first()),
            Err(e) => Err(e),
        }
    }
}

/// When `v[idx] = x` does not panic: a number index of an array must lie in
/// range once converted to a position.
pub open spec fn set_ok(v: ValueV, idx: ValueV) -> bool {
    match idx {
        ValueV::Number(i) => match v {
            ValueV::Array(xs) => (i as usize) < xs.len(),
            _ => true,
        },
        _ => true,
    }
}

/// `v[idx] = x`.
pub open spec fn set_spec(v: ValueV, idx: ValueV, x: ValueV) -> Result<ValueV, VMError> {
    match idx {
        ValueV::Number(i) => match v {
            ValueV::Array(xs) => Ok(ValueV::Array(xs.update((i as usize) as int, x))),
            _ => Err(VMError::CantIndex),
        },
        _ => Err(VMError::UnExpectedType),
    }
}

/// When `v[i0][i1]... = x` does not panic: the path is not empty and every
/// number on it lies in range.
pub open spec fn deep_set_ok(v: ValueV, idxs: Seq<ValueV>) -> bool
    decreases idxs.len(),
{
    idxs.len() >= 1 && match v {
        ValueV::Array(xs) => match idxs[0] {
            ValueV::Number(i) => (i as usize) < xs.len() && (idxs.len() == 1 || deep_set_ok(
                xs[(i as usize) as int],
                idxs.drop_first(),
            )),
            _ => true,
        },
        _ => true,
    }
}

/// `v[i0][i1]... = x`: every step must reach an array and every index must
/// be a number.
pub open spec fn deep_set(v: ValueV, idxs: Seq<ValueV>, x: ValueV) -> Result<ValueV, VMError>
    decreases idxs.len(),
{
    match v {
        ValueV::Array(xs) => if idxs.len() == 0 {
            Err(VMError::CantIndex)
        } else {
            match idxs[0] {
                ValueV::Number(i) => {
                    let k = (i as usize) as int;
                    if idxs.len() == 1 {
                        Ok(ValueV::Array(xs.update(k, x)))
                    } else {
                        match deep_set(xs[k], idxs.drop_first(), x) {
                            Ok(nv) => Ok(ValueV::Array(xs.update(k, nv))),
                            Err(e) => Err(e),
                        }
                    }
                },
                _ => Err(VMError::UnExpectedType),
            }
        },
        _ => Err(VMError::CantIndex),
    }
}

/// `i` modulo `n`, as `i64::rem_euclid` gives it.
fn euclid_mod(i: i64, n: usize) -> (r: usize)
    requires
        0 < n <= i64::MAX,
    ensures
        r as int == (i as int) % (n as int),
        r < n,
{
    proof {
        lemma_mod_bound(i as int, n as int);
    }
    let m = n as i128;
    let x = i as i128;
    if x >= 0 {
        (x % m) as usize
    } else {
        let t = (-x) % m;
        proof {
            crate::num::lemma_mod_of_neg(x as int, m as int);
        }
        if t == 0 {
            0
        } else {
            (m - t) as usize
        }
    }
}

impl Value {
    /// The elements (or characters) from `start` up to `end`, the end clamped
    /// to the length.
    pub fn load_dyap(&self, start: usize, end: usize) -> (r: Result<Value, VMError>)
        requires
            dyap_ok(self@, start, end),
        ensures
            match dyap_spec(self@, start, end) {
                Ok(w) => r is Ok && r->Ok_0@ == w,
                Err(e) => r == Err::<Value, VMError>(e),
            },
    {
        match self {
            Value::Array(xs) => {
                proof {
                    lemma_vview_seq(xs@);
                }
                let e = if end > xs.len() { xs.len() } else { end };
                let mut out: Vec<Value> = Vec::new();
                let mut i = start;
                while i < e
                    invariant
                        start <= i <= e <= xs.len(),
                        vview_seq(out@) == vview_seq(xs@.subrange(start as int, i as int)),
                    decreases e - i,
                {
                    let x = xs[i].copy();
                    proof {
                        crate::value::lemma_vview_seq_push(out@, x);
                        crate::value::lemma_vview_seq_push(xs@.subrange(start as int, i as int), xs@[i as int]);
                        assert(xs@.subrange(start as int, i as int).push(xs@[i as int]) =~= xs@.subrange(start as int, i + 1));
                    }
                    out.push(x);
                    i = i + 1;
                }
                proof {
                    lemma_vview_seq_subrange(xs@, start as int, e as int);
                }
                Ok(Value::Array(out))
            },
            Value::Str(s) => {
                let e = if end > s.len() { s.len() } else { end };
                Ok(Value::Str(slice_text(s, start, e)))
            },
            _ => Err(VMError::UnExpectedType),
        }
    }

    /// `self[index]`.
    pub fn load_index(&self, index: &Value) -> (r: Result<Value, VMError>)
        requires
            load_ok(self@, index@),
        ensures
            match load_spec(self@, index@) {
                Ok(w) => r is Ok && r->Ok_0@ == w,
                Err(e) => r == Err::<Value, VMError>(e),
            },
    {
        match index {
            Value::Iter(it) => {
                assert(index@ == ValueV::Iter(Box::new(crate::value::iview(**it))));
                match &**it {
                    crate::value::Iterator::Range(r) => {
                        assert(crate::value::iview(**it) == IterV::Range(*r));
                        proof {
                            match self {
                                Value::Array(v) => lemma_vview_seq(v@),
                                _ => {},
                            }
                        }
                        if r.start < 0 || r.end < 0 || r.step < 0 || r.start > r.end {
                            return Err(VMError::CantIndex);
                        }
                        self.load_dyap(r.start as usize, r.end as usize)
                    },
                    _ => Err(VMError::CantIndex),
                }
            },
            Value::Number(i) => match self {
                Value::Array(v) => {
                    proof {
                        lemma_vview_seq(v@);
                    }
                    let k = euclid_mod(*i, v.len());
                    Ok(v[k].copy())
                },
                Value::Str(s) => {
                    let k = euclid_mod(*i, s.len());
                    Ok(Value::from_char(s[k]))
                },
                _ => Err(VMError::CantIndex),
            },
            _ => Err(VMError::CantIndex),
        }
    }

    /// `self[index] = to_set`.
    pub fn set_index(&mut self, index: Value, to_set: Value) -> (r: Result<(), VMError>)
        requires
            set_ok(old(self)@, index@),
        ensures
            match set_spec(old(self)@, index@, to_set@) {
                Ok(w) => r is Ok && final(self)@ == w,
                Err(e) => r == Err::<(), VMError>(e) && final(self)@ == old(self)@,
            },
    {
        let i = match index.expect_number() {
            Ok(n) => n as usize,
            Err(e) => return Err(e),
        };
        match self {
            Value::Array(v) => {
                proof {
                    lemma_vview_seq(v@);
                    lemma_vview_seq_update(v@, i as int, to_set);
                }
                v.set(i, to_set);
                Ok(())
            },
            _ => Err(VMError::CantIndex),
        }
    }

    /// `self[index[0]][index[1]]... = to_set`.
    pub fn set_index_deep(&mut self, index: Vec<Value>, to_set: Value) -> (r: Result<(), VMError>)
        requires
            deep_set_ok(old(self)@, vview_seq(index@)),
        ensures
            match deep_set(old(self)@, vview_seq(index@), to_set@) {
                Ok(w) => r is Ok && final(self)@ == w,
                Err(e) => r == Err::<(), VMError>(e) && final(self)@ == old(self)@,
            },
    {
        proof {
            lemma_vview_seq(index@);
            assert(vview_seq(index@).skip(0) =~= vview_seq(index@));
        }
        set_deep_from(self, &index, 0, to_set)
    }

    /// `self[index[0]][index[1]]...`.
    pub fn load_index_deep(&self, index: Vec<Value>) -> (r: Result<Value, VMError>)
        requires
            deep_load_ok(self@, vview_seq(index@)),
        ensures
            match deep_load(self@, vview_seq(index@)) {
                Ok(w) => r is Ok && r->Ok_0@ == w,
                Err(e) => r == Err::<Value, VMError>(e),
            },
    {
        proof {
            lemma_vview_seq(index@);
            assert(vview_seq(index@).skip(0) =~= vview_seq(index@));
        }
        let mut current = self.copy();
        let mut k: usize = 0;
        while k < index.len()
            invariant
                k <= index.len(),
                vview_seq(index@).len() == index.len(),
                forall|j: int| 0 <= j < index.len() ==> #[trigger] vview_seq(index@)[j] == vview(index@[j]),
                deep_load_ok(current@, vview_seq(index@).skip(k as int)),
                deep_load(self@, vview_seq(index@)) == deep_load(current@, vview_seq(index@).skip(k as int)),
            decreases index.len() - k,
        {
            let ghost rest = vview_seq(index@).skip(k as int);
            assert(rest[0] == vview(index@[k as int]));
            assert(rest.drop_first() =~= vview_seq(index@).skip(k + 1));
            match current.load_index(&index[k]) {
                Ok(w) => {
                    current = w;
                },
                Err(e) => {
                    return Err(e);
                },
            }
            k = k + 1;
        }
        assert(vview_seq(index@).skip(k as int) =~= Seq::<ValueV>::empty());
        Ok(current)
    }
}

/// Writes `x` at the path `index[k..]` inside `v`.
fn set_deep_from(v: &mut Value, index: &Vec<Value>, k: usize, x: Value) -> (r: Result<(), VMError>)
    requires
        k < index.len(),
        vview_seq(index@).len() == index.len(),
        forall|j: int| 0 <= j < index.len() ==> #[trigger] vview_seq(index@)[j] == vview(index@[j]),
        deep_set_ok(old(v)@, vview_seq(index@).skip(k as int)),
    ensures
        match deep_set(old(v)@, vview_seq(index@).skip(k as int), x@) {
            Ok(w) => r is Ok && final(v)@ == w,
            Err(e) => r == Err::<(), VMError>(e) && final(v)@ == old(v)@,
        },
    decreases index.len() - k,
{
    let ghost path = vview_seq(index@).skip(k as int);
    assert(path[0] == vview(index@[k as int]));
    assert(path.drop_first() =~= vview_seq(index@).skip(k + 1));
    match v {
        Value::Array(xs) => {
            let i = match index[k].expect_number() {
                Ok(n) => n as usize,
                Err(e) => return Err(e),
            };
            proof {
                lemma_vview_seq(xs@);
            }
            if k + 1 == index.len() {
                proof {
                    lemma_vview_seq_update(xs@, i as int, x);
                }
                xs.set(i, x);
                Ok(())
            } else {
                let mut child = xs[i].copy();
                match set_deep_from(&mut child, index, k + 1, x) {
                    Ok(()) => {
                        proof {
                            lemma_vview_seq_update(xs@, i as int, child);
                        }
                        xs.set(i, child);
                        Ok(())
                    },
                    Err(e) => Err(e),
                }
            }
        },
        _ => Err(VMError::CantIndex),
    }
}


/// `v[i0][i1]...`, or `CantIndex` where indexing along the path would be
/// out of range.
pub open spec fn deep_load_checked(v: ValueV, idxs: Seq<ValueV>) -> Result<ValueV, VMError> {
    if deep_load_ok(v, idxs) {
        deep_load(v, idxs)
    } else {
        Err(VMError::CantIndex)
    }
}

/// Whether `v[idx]` can be read.
pub fn can_load(v: &Value, idx: &Value) -> (r: bool)
    ensures
        r == load_ok(v@, idx@),
{
    match idx {
        Value::Iter(it) => {
            assert(idx@ == ValueV::Iter(Box::new(crate::value::iview(**it))));
            match &**it {
                crate::value::Iterator::Range(r) => {
                    if r.start < 0 || r.end < 0 || r.step < 0 || r.start > r.end {
                        return true;
                    }
                    let start = r.start as usize;
                    let end = r.end as usize;
                    match v {
                        Value::Array(xs) => {
                            proof {
                                lemma_vview_seq(xs@);
                            }
                            let m = if end < xs.len() { end } else { xs.len() };
                            start <= m
                        },
                        Value::Str(s) => {
                            let m = if end < s.len() { end } else { s.len() };
                            start <= m
                        },
                        _ => true,
                    }
                },
                _ => true,
            }
        },
        Value::Number(_) => match v {
            Value::Array(xs) => {
                proof {
                    lemma_vview_seq(xs@);
                }
                0 < xs.len() && (xs.len() as u64) <= 9223372036854775807u64
            },
            Value::Str(s) => 0 < s.len() && (s.len() as u64) <= 9223372036854775807u64,
            _ => true,
        },
        _ => true,
    }
}

/// Whether `v[idx] = x` can be done.
pub fn can_set(v: &Value, idx: &Value) -> (r: bool)
    ensures
        r == set_ok(v@, idx@),
{
    match idx {
        Value::Number(i) => match v {
            Value::Array(xs) => {
                proof {
                    lemma_vview_seq(xs@);
                }
                (*i as usize) < xs.len()
            },
            _ => true,
        },
        _ => true,
    }
}

/// Whether `v[i0][i1]... = x` can be done along the path `idxs`.
pub fn can_set_deep(v: &Value, idxs: &Vec<Value>) -> (r: bool)
    ensures
        r == deep_set_ok(v@, vview_seq(idxs@)),
{
    proof {
        lemma_vview_seq(idxs@);
        assert(vview_seq(idxs@).skip(0) =~= vview_seq(idxs@));
    }
    let n = idxs.len();
    if n == 0 {
        return false;
    }
    let mut cur: &Value = v;
    let mut k: usize = 0;
    loop
        invariant
            k < n,
            n == idxs.len(),
            vview_seq(idxs@).len() == n,
            forall|j: int| 0 <= j < n ==> #[trigger] vview_seq(idxs@)[j] == vview(idxs@[j]),
            deep_set_ok(v@, vview_seq(idxs@)) == deep_set_ok(cur@, vview_seq(idxs@).skip(k as int)),
        decreases n - k,
    {
        let ghost path = vview_seq(idxs@).skip(k as int);
        assert(path[0] == vview(idxs@[k as int]));
        assert(path.drop_first() =~= vview_seq(idxs@).skip(k + 1));
        match cur {
            Value::Array(xs) => {
                proof {
                    lemma_vview_seq(xs@);
                }
                match &idxs[k] {
                    Value::Number(i) => {
                        let p = *i as usize;
                        if p >= xs.len() {
                            return false;
                        }
                        if k + 1 == n {
                            return true;
                        }
                        cur = &xs[p];
                        k = k + 1;
                    },
                    _ => {
                        return true;
                    },
                }
            },
            _ => {
                return true;
            },
        }
    }
}

/// `v[i0][i1]...`, failing with `CantIndex` where the path leaves the
/// elements.
pub fn load_deep_checked(v: &Value, idxs: &Vec<Value>) -> (r: Result<Value, VMError>)
    ensures
        match deep_load_checked(v@, vview_seq(idxs@)) {
            Ok(w) => r is Ok && r->Ok_0@ == w,
            Err(e) => r == Err::<Value, VMError>(e),
        },
{
    proof {
        lemma_vview_seq(idxs@);
        assert(vview_seq(idxs@).skip(0) =~= vview_seq(idxs@));
    }
    let mut cur = v.copy();
    let mut k: usize = 0;
    while k < idxs.len()
        invariant
            k <= idxs.len(),
            vview_seq(idxs@).len() == idxs.len(),
            forall|j: int| 0 <= j < idxs.len() ==> #[trigger] vview_seq(idxs@)[j] == vview(idxs@[j]),
            deep_load_checked(v@, vview_seq(idxs@)) == deep_load_checked(cur@, vview_seq(idxs@).skip(k as int)),
        decreases idxs.len() - k,
    {
        let ghost path = vview_seq(idxs@).skip(k as int);
        assert(path[0] == vview(idxs@[k as int]));
        assert(path.drop_first() =~= vview_seq(idxs@).skip(k + 1));
        if !can_load(&cur, &idxs[k]) {
            return Err(VMError::CantIndex);
        }
        match cur.load_index(&idxs[k]) {
            Ok(w) => {
                cur = w;
            },
            Err(e) => {
                return Err(e);
            },
        }
        k = k + 1;
    }
    assert(vview_seq(idxs@).skip(k as int) =~= Seq::<ValueV>::empty());
    Ok(cur)
}

} // verus!
