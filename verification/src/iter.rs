//! Walking iterators, and the values that make and drive them.
use vstd::prelude::*;
use crate::value::{Value, ValueV, Iterator, IterV, Range, LinesIter, SplitIter, SplitWhitespaceIter, vview, vview_seq, lemma_vview_seq};
use crate::num::{wrap48, wrap64, wrap48_exec, wrap64_exec};
use crate::text::{is_space, is_whitespace, slice_text};
use crate::errors::VMError;

verus! {

/// The offset a finished split iterator is left at: one past the end.
pub open spec fn past_end(n: usize) -> usize {
    if n < usize::MAX {
        (n + 1) as usize
    } else {
        n
    }
}

/// Where `pat` first occurs in `s` at or after `from`, or `-1`.
pub open spec fn first_match(s: Seq<char>, pat: Seq<char>, from: int) -> int
    decreases s.len() + 1 - from,
{
    if from < 0 || from + pat.len() > s.len() {
        -1
    } else if s.subrange(from, from + pat.len()) == pat {
        from
    } else {
        first_match(s, pat, from + 1)
    }
}

/// The first position at or after `from` whose character is (when `want`)
/// or is not (otherwise) whitespace; the length of `s` if there is none.
pub open spec fn first_space(s: Seq<char>, from: int, want: bool) -> int
    decreases s.len() - from,
{
    if from < 0 || from >= s.len() {
        s.len() as int
    } else if is_space(s[from]) == want {
        from
    } else {
        first_space(s, from + 1, want)
    }
}

/// A line without the `'\r'` that ends it, if any.
pub open spec fn strip_cr(line: Seq<char>) -> Seq<char> {
    if line.len() > 0 && line.last() == '\r' {
        line.drop_last()
    } else {
        line
    }
}

/// One step of an iterator: its next state and the item it yields.
pub open spec fn iter_next_spec(it: IterV) -> (IterV, Option<ValueV>)
    decreases it,
{
    match it {
        IterV::String(cs, p) => if p < cs.len() {
            (IterV::String(cs, (p + 1) as usize), Some(ValueV::Char(cs[p as int])))
        } else {
            (it, None)
        },
        IterV::Array(xs, p) => if p < xs.len() {
            (IterV::Array(xs, (p + 1) as usize), Some(xs[p as int]))
        } else {
            (it, None)
        },
        IterV::Range(r) => if (r.step > 0 && r.start >= r.end) || (r.step < 0 && r.start <= r.end) {
            (it, None)
        } else {
            (
                IterV::Range(
                    Range { start: wrap64(r.start + r.step) as i64, end: r.end, step: r.step },
                ),
                Some(ValueV::Number(wrap48(r.start as int) as i64)),
            )
        },
        IterV::Enumerate(inner, idx) => {
            let (i2, o) = iter_next_spec(*inner);
            match o {
                Some(v) => (
                    IterV::Enumerate(Box::new(i2), wrap64(idx + 1) as i64),
                    Some(ValueV::Tuple(seq![ValueV::Number(wrap48(idx as int) as i64), v])),
                ),
                None => (IterV::Enumerate(Box::new(i2), idx), None),
            }
        },
        IterV::Split(src, d, off) => if off > src.len() {
            (it, None)
        } else if d.len() == 0 {
            if off < src.len() {
                (IterV::Split(src, d, (off + 1) as usize), Some(ValueV::Str(seq![src[off as int]])))
            } else {
                (IterV::Split(src, d, past_end(src.len() as usize)), None)
            }
        } else {
            let p = first_match(src, d, off as int);
            if p >= 0 {
                (
                    IterV::Split(src, d, (p + d.len()) as usize),
                    Some(ValueV::Str(src.subrange(off as int, p))),
                )
            } else {
                (
                    IterV::Split(src, d, past_end(src.len() as usize)),
                    Some(ValueV::Str(src.subrange(off as int, src.len() as int))),
                )
            }
        },
        IterV::SplitWhitespace(src, off) => if off >= src.len() {
            (it, None)
        } else {
            let st = first_space(src, off as int, false);
            if st >= src.len() {
                (IterV::SplitWhitespace(src, src.len() as usize), None)
            } else {
                let en = first_space(src, st, true);
                if en < src.len() {
                    (IterV::SplitWhitespace(src, en as usize), Some(ValueV::Str(src.subrange(st, en))))
                } else {
                    (
                        IterV::SplitWhitespace(src, src.len() as usize),
                        Some(ValueV::Str(src.subrange(st, src.len() as int))),
                    )
                }
            }
        },
        IterV::Lines(src, off) => if off >= src.len() {
            (it, None)
        } else {
            let p = first_match(src, seq!['\n'], off as int);
            if p >= 0 {
                (
                    IterV::Lines(src, (p + 1) as usize),
                    Some(ValueV::Str(strip_cr(src.subrange(off as int, p)))),
                )
            } else {
                (
                    IterV::Lines(src, src.len() as usize),
                    Some(ValueV::Str(src.subrange(off as int, src.len() as int))),
                )
            }
        },
    }
}

/// The view of an optional value.
pub open spec fn opt_view(o: Option<Value>) -> Option<ValueV> {
    match o {
        Some(v) => Some(v@),
        None => None,
    }
}

pub proof fn lemma_first_match_bounds(s: Seq<char>, pat: Seq<char>, from: int)
    requires
        from >= 0,
    ensures
        first_match(s, pat, from) == -1 || (from <= first_match(s, pat, from) && first_match(s, pat, from) + pat.len() <= s.len()),
    decreases s.len() + 1 - from,
{
    if from + pat.len() <= s.len() && s.subrange(from, from + pat.len()) != pat {
        lemma_first_match_bounds(s, pat, from + 1);
    }
}

pub proof fn lemma_first_space_bounds(s: Seq<char>, from: int, want: bool)
    requires
        from >= 0,
    ensures
        from <= first_space(s, from, want) <= s.len() || (from > s.len() && first_space(s, from, want) == s.len()),
    decreases s.len() - from,
{
    if from < s.len() && is_space(s[from]) != want {
        lemma_first_space_bounds(s, from + 1, want);
    }
}

/// Whether `pat` occurs in `s` at position `i`.
fn matches_at(s: &Vec<char>, pat: &Vec<char>, i: usize) -> (r: bool)
    requires
        i + pat.len() <= s.len(),
    ensures
        r == (s@.subrange(i as int, i + pat.len()) == pat@),
{
    let mut k: usize = 0;
    while k < pat.len()
        invariant
            i + pat.len() <= s.len(),
            k <= pat.len(),
            forall|j: int| 0 <= j < k ==> s@[i + j] == pat@[j],
        decreases pat.len() - k,
    {
        if s[i + k] != pat[k] {
            assert(s@.subrange(i as int, i + pat.len())[k as int] != pat@[k as int]);
            return false;
        }
        k = k + 1;
    }
    assert(s@.subrange(i as int, i + pat.len()) =~= pat@);
    true
}

/// Where `pat` first occurs in `s` at or after `from`.
pub(crate) fn find_text(s: &Vec<char>, pat: &Vec<char>, from: usize) -> (r: Option<usize>)
    ensures
        match r {
            Some(p) => p == first_match(s@, pat@, from as int) && p + pat.len() <= s.len(),
            None => first_match(s@, pat@, from as int) == -1,
        },
{
    if pat.len() > s.len() {
        return None;
    }
    let last = s.len() - pat.len();
    if from > last {
        return None;
    }
    let mut i = from;
    loop
        invariant
            pat.len() <= s.len(),
            last == s.len() - pat.len(),
            from <= i <= last,
            first_match(s@, pat@, from as int) == first_match(s@, pat@, i as int),
        decreases last - i,
    {
        if matches_at(s, pat, i) {
            return Some(i);
        }
        if i == last {
            assert(first_match(s@, pat@, i + 1) == -1);
            return None;
        }
        i = i + 1;
    }
}

/// The first position at or after `from` whose character is (when `want`)
/// or is not whitespace.
pub(crate) fn find_space(s: &Vec<char>, from: usize, want: bool) -> (r: usize)
    requires
        from <= s.len(),
    ensures
        r == first_space(s@, from as int, want),
        from <= r <= s.len(),
{
    let mut i = from;
    while i < s.len()
        invariant
            from <= i <= s.len(),
            first_space(s@, from as int, want) == first_space(s@, i as int, want),
        decreases s.len() - i,
    {
        if is_whitespace(s[i]) == want {
            return i;
        }
        i = i + 1;
    }
    i
}

fn next_chars(cs: &Vec<char>, p: &mut usize) -> (r: Option<Value>)
    ensures
        IterV::String(cs@, *final(p)) == iter_next_spec(IterV::String(cs@, *old(p))).0,
        opt_view(r) == iter_next_spec(IterV::String(cs@, *old(p))).1,
{
    if *p < cs.len() {
        let c = cs[*p];
        *p = *p + 1;
        Some(Value::from_char(c))
    } else {
        None
    }
}

fn next_elems(xs: &Vec<Value>, p: &mut usize) -> (r: Option<Value>)
    ensures
        IterV::Array(vview_seq(xs@), *final(p)) == iter_next_spec(IterV::Array(vview_seq(xs@), *old(p))).0,
        opt_view(r) == iter_next_spec(IterV::Array(vview_seq(xs@), *old(p))).1,
{
    proof {
        lemma_vview_seq(xs@);
    }
    if *p < xs.len() {
        let v = xs[*p].copy();
        *p = *p + 1;
        Some(v)
    } else {
        None
    }
}

fn next_range(r: &mut Range) -> (o: Option<Value>)
    ensures
        IterV::Range(*final(r)) == iter_next_spec(IterV::Range(*old(r))).0,
        opt_view(o) == iter_next_spec(IterV::Range(*old(r))).1,
{
    let current = r.start;
    if (r.step > 0 && current >= r.end) || (r.step < 0 && current <= r.end) {
        return None;
    }
    r.start = wrap64_exec(r.start as i128 + r.step as i128);
    Some(Value::from_number(current))
}

fn next_split(iter: &mut SplitIter) -> (r: Option<Value>)
    ensures
        IterV::Split(final(iter).source@, final(iter).delimiter@, final(iter).offset)
            == iter_next_spec(IterV::Split(old(iter).source@, old(iter).delimiter@, old(iter).offset)).0,
        opt_view(r) == iter_next_spec(IterV::Split(old(iter).source@, old(iter).delimiter@, old(iter).offset)).1,
{
    let len = iter.source.len();
    if iter.offset > len {
        return None;
    }
    if iter.delimiter.len() == 0 {
        if iter.offset < len {
            let c = iter.source[iter.offset];
            iter.offset = iter.offset + 1;
            let mut s: Vec<char> = Vec::new();
            s.push(c);
            assert(s@ =~= seq![c]);
            return Some(Value::Str(s));
        } else {
            iter.offset = if len < usize::MAX { len + 1 } else { len };
            return None;
        }
    }
    proof {
        lemma_first_match_bounds(iter.source@, iter.delimiter@, iter.offset as int);
    }
    match find_text(&iter.source, &iter.delimiter, iter.offset) {
        Some(p) => {
            let part = slice_text(&iter.source, iter.offset, p);
            iter.offset = p + iter.delimiter.len();
            Some(Value::Str(part))
        },
        None => {
            let part = slice_text(&iter.source, iter.offset, len);
            iter.offset = if len < usize::MAX { len + 1 } else { len };
            Some(Value::Str(part))
        },
    }
}

fn next_words(iter: &mut SplitWhitespaceIter) -> (r: Option<Value>)
    ensures
        IterV::SplitWhitespace(final(iter).source@, final(iter).offset)
            == iter_next_spec(IterV::SplitWhitespace(old(iter).source@, old(iter).offset)).0,
        opt_view(r) == iter_next_spec(IterV::SplitWhitespace(old(iter).source@, old(iter).offset)).1,
{
    let len = iter.source.len();
    if iter.offset >= len {
        return None;
    }
    let st = find_space(&iter.source, iter.offset, false);
    if st >= len {
        iter.offset = len;
        return None;
    }
    let en = find_space(&iter.source, st, true);
    if en < len {
        let word = slice_text(&iter.source, st, en);
        iter.offset = en;
        Some(Value::Str(word))
    } else {
        let word = slice_text(&iter.source, st, len);
        iter.offset = len;
        Some(Value::Str(word))
    }
}

fn next_line(iter: &mut LinesIter) -> (r: Option<Value>)
    ensures
        IterV::Lines(final(iter).source@, final(iter).offset)
            == iter_next_spec(IterV::Lines(old(iter).source@, old(iter).offset)).0,
        opt_view(r) == iter_next_spec(IterV::Lines(old(iter).source@, old(iter).offset)).1,
{
    let len = iter.source.len();
    if iter.offset >= len {
        return None;
    }
    let mut nl: Vec<char> = Vec::new();
    nl.push('\n');
    assert(nl@ =~= seq!['\n']);
    proof {
        lemma_first_match_bounds(iter.source@, nl@, iter.offset as int);
    }
    match find_text(&iter.source, &nl, iter.offset) {
        Some(p) => {
            let mut line = slice_text(&iter.source, iter.offset, p);
            if line.len() > 0 && line[line.len() - 1] == '\r' {
                line.pop();
            }
            iter.offset = p + 1;
            Some(Value::Str(line))
        },
        None => {
            let line = slice_text(&iter.source, iter.offset, len);
            iter.offset = len;
            Some(Value::Str(line))
        },
    }
}

impl Iterator {
    /// Advances the iterator and gives its next item, or `None` when it is
    /// exhausted.
    pub fn next(&mut self) -> (r: Option<Value>)
        ensures
            final(self)@ == iter_next_spec(old(self)@).0,
            opt_view(r) == iter_next_spec(old(self)@).1,
        decreases *old(self),
    {
        match self {
            Iterator::String(cs, p) => next_chars(cs, p),
            Iterator::Array(xs, p) => next_elems(xs, p),
            Iterator::Range(r) => next_range(r),
            Iterator::Enumerate(inner, index) => {
                let o = inner.next();
                match o {
                    Some(val) => {
                        let current_idx = *index;
                        *index = wrap64_exec(*index as i128 + 1);
                        let mut t: Vec<Value> = Vec::new();
                        t.push(Value::from_number(current_idx));
                        t.push(val);
                        proof {
                            lemma_vview_seq(t@);
                            assert(vview(t@[0]) == ValueV::Number(wrap48(current_idx as int) as i64));
                            assert(vview_seq(t@) =~= seq![
                                ValueV::Number(wrap48(current_idx as int) as i64),
                                vview(t@[1]),
                            ]);
                        }
                        Some(Value::Tuple(t))
                    },
                    None => None,
                }
            },
            Iterator::Split(iter) => next_split(iter),
            Iterator::SplitWhitespace(iter) => next_words(iter),
            Iterator::Lines(iter) => next_line(iter),
        }
    }
}

/// The iterator a value is walked with by `for`, when it can be walked.
pub open spec fn make_iter_spec(v: ValueV) -> Option<IterV> {
    match v {
        ValueV::Str(s) => Some(IterV::String(s, 0)),
        ValueV::Iter(it) => Some(*it),
        ValueV::Array(xs) => Some(IterV::Array(xs, 0)),
        _ => None,
    }
}

/// The end a range gets: an inclusive range moves its end one step further.
pub open spec fn range_end(start: i64, end: i64, incl: bool) -> i64 {
    if incl {
        if start > end {
            wrap64(end - 1) as i64
        } else {
            wrap64(end + 1) as i64
        }
    } else {
        end
    }
}

impl Value {
    /// Whether the value counts as true in a condition.
    pub fn is_truthy(&self) -> (r: bool)
        ensures
            r == (match self@ {
                ValueV::Void => false,
                ValueV::Bool(b) => b,
                ValueV::Number(n) => n != 0,
                ValueV::Char(_) => true,
                ValueV::Str(s) => s.len() > 0,
                _ => false,
            }),
    {
        match self {
            Value::Void => false,
            Value::Bool(b) => *b,
            Value::Number(n) => *n != 0,
            Value::Char(_) => true,
            Value::Str(s) => s.len() > 0,
            _ => false,
        }
    }

    /// The number a value holds.
    pub fn expect_number(&self) -> (r: Result<i64, VMError>)
        ensures
            match self@ {
                ValueV::Number(n) => r == Ok::<i64, VMError>(n),
                _ => r == Err::<i64, VMError>(VMError::UnExpectedType),
            },
    {
        match self {
            Value::Number(n) => Ok(*n),
            _ => Err(VMError::UnExpectedType),
        }
    }

    /// The next item of an iterator value, advancing it in place.
    pub fn next(&mut self) -> (r: Result<Option<Value>, VMError>)
        ensures
            match old(self)@ {
                ValueV::Iter(it) => {
                    let (it2, o) = iter_next_spec(*it);
                    &&& r is Ok
                    &&& opt_view(r->Ok_0) == o
                    &&& final(self)@ == ValueV::Iter(Box::new(it2))
                },
                _ => r == Err::<Option<Value>, VMError>(VMError::CantIter) && final(self)@ == old(self)@,
            },
    {
        match self {
            Value::Iter(i) => {
                let o = i.next();
                Ok(o)
            },
            _ => Err(VMError::CantIter),
        }
    }

    /// The iterator `for` walks this value with: the characters of a text,
    /// the elements of an array, or the iterator itself.
    pub fn make_iter(self) -> (r: Result<Iterator, VMError>)
        ensures
            match make_iter_spec(self@) {
                Some(it) => r is Ok && r->Ok_0@ == it,
                None => r == Err::<Iterator, VMError>(VMError::UnExpectedType),
            },
    {
        match self {
            Value::Str(s) => Ok(Iterator::String(s, 0)),
            Value::Iter(b) => Ok(*b),
            Value::Array(xs) => Ok(Iterator::Array(xs, 0)),
            _ => Err(VMError::UnExpectedType),
        }
    }

    /// A range from `start` to `end` (one step past `end` when `incl`),
    /// counting up or down toward the end.
    pub fn make_range(start: Value, end: Value, incl: bool) -> (r: Result<Value, VMError>)
        ensures
            match (start@, end@) {
                (ValueV::Number(s), ValueV::Number(e)) => {
                    let e2 = range_end(s, e, incl);
                    r is Ok && r->Ok_0@ == ValueV::Iter(
                        Box::new(IterV::Range(Range { start: s, end: e2, step: if s > e2 { -1i64 } else { 1i64 } })),
                    )
                },
                _ => r == Err::<Value, VMError>(VMError::UnExpectedType),
            },
    {
        let start = match start.expect_number() {
            Ok(n) => n,
            Err(e) => return Err(e),
        };
        let mut end = match end.expect_number() {
            Ok(n) => n,
            Err(e) => return Err(e),
        };
        if incl {
            if start > end {
                end = wrap64_exec(end as i128 - 1);
            } else {
                end = wrap64_exec(end as i128 + 1);
            }
        }
        let step: i64 = if start > end { -1 } else { 1 };
        let it = Iterator::Range(Range { start, end, step });
        assert(it@ == IterV::Range(Range { start, end, step }));
        let v = Value::Iter(Box::new(it));
        assert(v@ == ValueV::Iter(Box::new(it@)));
        Ok(v)
    }
}

} // verus!
