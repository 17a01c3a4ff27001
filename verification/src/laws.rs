//! Properties that relate several operations of the language: what a read
//! gives back after a write (array elements and variables), what one
//! arithmetic operation undoes of another, what walking a range or an array
//! yields, how equality and ordering look from either side, and how
//! templates, types, number texts and trimmed texts relate to themselves.
use vstd::prelude::*;
use vstd::arithmetic::div_mod::{lemma_small_mod, lemma_sub_mod_noop};
use crate::value::{ValueV, IterV, Range};
use crate::index::{set_ok, set_spec, load_ok, load_spec, deep_set_ok, deep_set, deep_load_ok, deep_load};
use crate::arith::{add_spec, sub_spec};
use crate::num::{wrap48, two48, in48, lemma_wrap48_mod, lemma_wrap48_same, lemma_wrap48_idem};
use crate::types::Type;
use crate::compiler::types_match_spec;
use crate::format::{format_acc, format_spec};
use crate::show::show;
use crate::relate::{veq, seq_veq, Order, text_order, vord, seq_vord};
use crate::iter::{iter_next_spec, make_iter_spec, first_space, first_match, past_end};
use crate::op::Op;
use crate::vm::{VMV, StepV, frame_base};
use crate::semantics::{step_spec, range_value, trim, trim_end, contains_text, starts_with};
use crate::lexer::{lex, Token, ident_start};
use crate::consts;
use crate::text::{IntParse, parse_int_spec, int_text, nat_digits, digits_value, is_digit, is_space, lemma_digit_run_char};

verus! {

/// Writing `x` at an in-range position `i` of an array and reading that
/// position back gives `x`; every other position reads as it did before.
/// (An array in memory never holds more than `isize::MAX` elements.)
pub proof fn law_read_after_write(xs: Seq<ValueV>, i: i64, x: ValueV)
    requires
        0 <= i < xs.len(),
        xs.len() <= isize::MAX,
    ensures
        set_ok(ValueV::Array(xs), ValueV::Number(i)),
        set_spec(ValueV::Array(xs), ValueV::Number(i), x) == Ok::<ValueV, crate::errors::VMError>(
            ValueV::Array(xs.update(i as int, x)),
        ),
        load_ok(ValueV::Array(xs.update(i as int, x)), ValueV::Number(i)),
        load_spec(ValueV::Array(xs.update(i as int, x)), ValueV::Number(i))
            == Ok::<ValueV, crate::errors::VMError>(x),
        forall|j: i64|
            0 <= j < xs.len() && j != i ==> #[trigger] load_spec(ValueV::Array(xs.update(i as int, x)), ValueV::Number(j))
                == load_spec(ValueV::Array(xs), ValueV::Number(j)),
{
    lemma_small_mod(i as nat, xs.len());
    assert forall|j: i64|
        0 <= j < xs.len() && j != i implies #[trigger] load_spec(
            ValueV::Array(xs.update(i as int, x)),
            ValueV::Number(j),
        ) == load_spec(ValueV::Array(xs), ValueV::Number(j)) by {
        lemma_small_mod(j as nat, xs.len());
    }
}

/// Whether `idxs` is a non-empty path of in-range positions through nested
/// arrays, starting at `v`.
pub open spec fn number_path(v: ValueV, idxs: Seq<ValueV>) -> bool
    decreases idxs.len(),
{
    &&& idxs.len() >= 1
    &&& match v {
        ValueV::Array(xs) => xs.len() <= isize::MAX && match idxs[0] {
            ValueV::Number(i) => 0 <= i < xs.len() && (idxs.len() == 1 || number_path(
                xs[i as int],
                idxs.drop_first(),
            )),
            _ => false,
        },
        _ => false,
    }
}

/// Writing `x` along a path of positions through nested arrays and reading
/// along the same path gives `x` back.
pub proof fn law_deep_read_after_write(v: ValueV, idxs: Seq<ValueV>, x: ValueV)
    requires
        number_path(v, idxs),
    ensures
        deep_set_ok(v, idxs),
        match deep_set(v, idxs, x) {
            Ok(w) => deep_load_ok(w, idxs) && deep_load(w, idxs) == Ok::<ValueV, crate::errors::VMError>(x),
            Err(_) => false,
        },
    decreases idxs.len(),
{
    let xs = v->Array_0;
    let i = idxs[0]->Number_0;
    let k = i as int;
    lemma_small_mod(i as nat, xs.len());
    let rest = idxs.drop_first();
    if idxs.len() == 1 {
        let w = ValueV::Array(xs.update(k, x));
        assert(load_spec(w, idxs[0]) == Ok::<ValueV, crate::errors::VMError>(x));
        assert(rest.len() == 0);
        assert(deep_load(x, rest) == Ok::<ValueV, crate::errors::VMError>(x));
        assert(deep_load_ok(x, rest));
    } else {
        law_deep_read_after_write(xs[k], rest, x);
        let nv = deep_set(xs[k], rest, x)->Ok_0;
        let w = ValueV::Array(xs.update(k, nv));
        assert(load_spec(w, idxs[0]) == Ok::<ValueV, crate::errors::VMError>(nv));
    }
}

/// Subtracting `b` undoes adding `b` to a number, whatever `b` is: the
/// sum wraps around at 48 bits and the difference wraps back.
pub proof fn law_sub_undoes_add(a: i64, b: i64)
    requires
        in48(a as int),
    ensures
        match add_spec(ValueV::Number(a), ValueV::Number(b)) {
            Ok(s) => sub_spec(s, ValueV::Number(b)) == Ok::<ValueV, crate::errors::VMError>(ValueV::Number(a)),
            Err(_) => false,
        },
{
    let w = wrap48(a + b);
    lemma_wrap48_mod(a + b);
    lemma_sub_mod_noop(w, b as int, two48());
    lemma_sub_mod_noop(a + b, b as int, two48());
    assert((a + b) - b == a as int);
    lemma_wrap48_same(w - b, a as int);
    lemma_wrap48_idem(a as int);
    crate::num::lemma_wrap48_range(a + b);
}

/// Adding two numbers does not depend on their order.
pub proof fn law_add_commutes(a: i64, b: i64)
    ensures
        add_spec(ValueV::Number(a), ValueV::Number(b)) == add_spec(ValueV::Number(b), ValueV::Number(a)),
{
    assert(a + b == b + a);
}

/// Every type fits itself.
pub proof fn law_types_match_reflexive(t: Type)
    ensures
        types_match_spec(t, t),
    decreases t,
{
    match t {
        Type::Iter(a) => law_types_match_reflexive(*a),
        Type::Array(a) => law_types_match_reflexive(*a),
        Type::Cat(a) => law_types_match_reflexive(*a),
        Type::Result(p) => {
            law_types_match_reflexive(p.0);
            law_types_match_reflexive(p.1);
        },
        _ => {},
    }
}

/// Whether the text holds no brace.
pub open spec fn brace_free(t: Seq<char>) -> bool {
    forall|k: int| 0 <= k < t.len() ==> #[trigger] t[k] != '{' && t[k] != '}'
}

proof fn lemma_copy_plain(t: Seq<char>, i: int)
    requires
        brace_free(t),
        0 <= i <= t.len(),
    ensures
        format_acc(t, i, Seq::empty(), 0, t.take(i)) == Ok::<(Seq<char>, nat), crate::errors::VMError>((t, 0nat)),
    decreases t.len() - i,
{
    if i < t.len() {
        assert(t.take(i).push(t[i]) =~= t.take(i + 1));
        lemma_copy_plain(t, i + 1);
    } else {
        assert(t.take(i) =~= t);
    }
}

proof fn lemma_skip_plain(f: Seq<char>, i: int, j: int, vals: Seq<ValueV>, k: nat, out: Seq<char>)
    requires
        0 <= i <= j <= f.len(),
        forall|m: int| i <= m < j ==> #[trigger] f[m] != '{' && f[m] != '}',
    ensures
        format_acc(f, i, vals, k, out) == format_acc(f, j, vals, k, out + f.subrange(i, j)),
    decreases j - i,
{
    if i < j {
        lemma_skip_plain(f, i + 1, j, vals, k, out.push(f[i]));
        assert(out.push(f[i]) + f.subrange(i + 1, j) =~= out + f.subrange(i, j));
    } else {
        assert(out + f.subrange(i, j) =~= out);
    }
}

/// A template with one placeholder `{}` between texts without braces:
/// given one value it gives the template with the value's text in place of
/// the placeholder; given none it fails with `NeedMoreArgs`, and given more
/// than one with `TooManyArgs`.
pub proof fn law_one_placeholder(pre: Seq<char>, post: Seq<char>, vals: Seq<ValueV>)
    requires
        brace_free(pre),
        brace_free(post),
    ensures
        format_spec(seq![ValueV::Str(pre + seq!['{', '}'] + post)] + vals) == if vals.len() == 0 {
            Err::<Seq<char>, crate::errors::VMError>(crate::errors::VMError::NeedMoreArgs)
        } else if vals.len() == 1 {
            Ok::<Seq<char>, crate::errors::VMError>(pre + show(vals[0]) + post)
        } else {
            Err::<Seq<char>, crate::errors::VMError>(crate::errors::VMError::TooManyArgs)
        },
{
    let f = pre + seq!['{', '}'] + post;
    let args = seq![ValueV::Str(f)] + vals;
    assert(show(args[0]) == f);
    assert(args.drop_first() =~= vals);
    let a = pre.len() as int;
    assert forall|m: int| 0 <= m < a implies #[trigger] f[m] != '{' && f[m] != '}' by {
        assert(f[m] == pre[m]);
    }
    lemma_skip_plain(f, 0, a, vals, 0, Seq::empty());
    assert(Seq::<char>::empty() + f.subrange(0, a) =~= pre);
    assert(f[a] == '{' && f[a + 1] == '}');
    if vals.len() > 0 {
        let out = pre + show(vals[0]);
        assert forall|m: int| a + 2 <= m < f.len() implies #[trigger] f[m] != '{' && f[m] != '}' by {
            assert(f[m] == post[m - a - 2]);
        }
        lemma_skip_plain(f, a + 2, f.len() as int, vals, 1, out);
        assert(out + f.subrange(a + 2, f.len() as int) =~= pre + show(vals[0]) + post);
    }
}

/// A template without braces, given no values, comes out as it is.
pub proof fn law_plain_template(t: Seq<char>)
    requires
        brace_free(t),
    ensures
        format_spec(seq![ValueV::Str(t)]) == Ok::<Seq<char>, crate::errors::VMError>(t),
{
    let args = seq![ValueV::Str(t)];
    assert(show(args[0]) == t);
    assert(args.drop_first() =~= Seq::<ValueV>::empty());
    assert(t.take(0) =~= Seq::<char>::empty());
    lemma_copy_plain(t, 0);
}

proof fn lemma_digit_char(d: int)
    requires
        0 <= d < 10,
    ensures
        crate::text::digit_char(d) as int == '0' as int + d,
{
    let c = crate::text::digit_char(d);
    assert(c as int == '0' as int + d);
}

proof fn lemma_nat_digits(m: nat)
    ensures
        nat_digits(m).len() >= 1,
        forall|k: int| 0 <= k < nat_digits(m).len() ==> is_digit(#[trigger] nat_digits(m)[k]),
        digits_value(nat_digits(m)) == m,
    decreases m,
{
    let s = nat_digits(m);
    lemma_digit_char((m % 10) as int);
    vstd::arithmetic::div_mod::lemma_fundamental_div_mod(m as int, 10);
    if m < 10 {
        lemma_small_mod(m, 10);
        assert(s.drop_last() =~= Seq::<char>::empty());
        assert(digits_value(s.drop_last()) == 0);
        assert(s.last() as int - '0' as int == m);
    } else {
        lemma_nat_digits(m / 10);
        assert(s.drop_last() =~= nat_digits(m / 10));
        assert(s.last() as int - '0' as int == m % 10);
        assert(digits_value(s) == digits_value(nat_digits(m / 10)) * 10 + (m % 10));
        assert forall|k: int| 0 <= k < s.len() implies is_digit(#[trigger] s[k]) by {
            if k < s.len() - 1 {
                assert(s[k] == nat_digits(m / 10)[k]);
            }
        }
    }
}

/// Reading back the text a number is written as gives the number: what
/// `to_string` writes, `parse` reads.
pub proof fn law_number_text_round_trip(n: i64)
    ensures
        parse_int_spec(int_text(n as int)) == IntParse::Value(n),
{
    let s = int_text(n as int);
    if n >= 0 {
        let d = nat_digits(n as nat);
        lemma_nat_digits(n as nat);
        lemma_digit_run_char(d, d.len() as int);
        assert(d.take(d.len() as int) =~= d);
        assert(is_digit(d[0]));
    } else {
        let m = (-(n as int)) as nat;
        let d = nat_digits(m);
        lemma_nat_digits(m);
        lemma_digit_run_char(d, d.len() as int);
        assert(d.take(d.len() as int) =~= d);
        assert(s.drop_first() =~= d);
        assert(s[0] == '-');
    }
}

/// The language's `==` does not depend on the order of its operands.
pub proof fn law_equality_symmetric(a: ValueV, b: ValueV)
    ensures
        veq(a, b) ==> veq(b, a),
    decreases a,
{
    if veq(a, b) {
        match a {
            ValueV::Cat(x) => {
                if let Some(p) = x {
                    law_equality_symmetric(*p, *b->Cat_0.unwrap());
                }
            },
            ValueV::ResOk(x) => law_equality_symmetric(*x, *b->ResOk_0),
            ValueV::ResErr(x) => law_equality_symmetric(*x, *b->ResErr_0),
            ValueV::Array(xs) => lemma_seq_veq_symmetric(xs, b->Array_0),
            ValueV::Tuple(xs) => lemma_seq_veq_symmetric(xs, b->Tuple_0),
            _ => {},
        }
    }
}

proof fn lemma_seq_veq_symmetric(xs: Seq<ValueV>, ys: Seq<ValueV>)
    ensures
        seq_veq(xs, ys) ==> seq_veq(ys, xs),
    decreases xs,
{
    if seq_veq(xs, ys) && xs.len() > 0 {
        lemma_seq_veq_symmetric(xs.drop_last(), ys.drop_last());
        law_equality_symmetric(xs.last(), ys.last());
    }
}

/// The items an iterator yields in `n` steps, stopping early when it ends,
/// and its state afterwards.
pub open spec fn walk(it: IterV, n: nat) -> (IterV, Seq<ValueV>)
    decreases n,
{
    if n == 0 {
        (it, Seq::empty())
    } else {
        let (next, item) = iter_next_spec(it);
        match item {
            Some(v) => {
                let (last, rest) = walk(next, (n - 1) as nat);
                (last, seq![v] + rest)
            },
            None => (it, Seq::empty()),
        }
    }
}

proof fn lemma_walk_up(a: i64, b: int, s: i64, n: nat)
    requires
        in48(a as int),
        -0x8000_0000_0000 <= b <= 0x8000_0000_0000,
        b <= i64::MAX,
        0 < s < 0x8000_0000_0000,
        n == 0 ==> a >= b,
        n > 0 ==> a + (n - 1) * s < b <= a + n * s,
    ensures
        walk(IterV::Range(Range { start: a, end: b as i64, step: s }), n).1
            == Seq::new(n, |k: int| ValueV::Number((a + k * s) as i64)),
        iter_next_spec(walk(IterV::Range(Range { start: a, end: b as i64, step: s }), n).0).1 is None,
    decreases n,
{
    let it = IterV::Range(Range { start: a, end: b as i64, step: s });
    if n == 0 {
        assert(Seq::<ValueV>::empty() =~= Seq::new(n, |k: int| ValueV::Number((a + k * s) as i64)));
    } else {
        assert((n - 1) * s >= 0 && n * s == (n - 1) * s + s) by (nonlinear_arith)
            requires n >= 1, s > 0;
        lemma_wrap48_idem(a as int);
        crate::num::lemma_wrap64_idem(a + s);
        let a1 = (a + s) as i64;
        let next = IterV::Range(Range { start: a1, end: b as i64, step: s });
        assert(iter_next_spec(it) == (next, Some(ValueV::Number(a))));
        if n == 1 {
            assert(n * s == s) by (nonlinear_arith)
                requires n == 1;
            assert(walk(next, 0nat) == (next, Seq::<ValueV>::empty()));
            assert(seq![ValueV::Number(a)] =~= Seq::new(n, |k: int| ValueV::Number((a + k * s) as i64)));
        } else {
            let m = (n - 1) as nat;
            assert(a1 + (m - 1) * s == a + (n - 1) * s) by (nonlinear_arith)
                requires a1 == a + s, m == n - 1;
            assert(a1 + m * s == a + n * s) by (nonlinear_arith)
                requires a1 == a + s, m == n - 1;
            assert((m - 1) * s >= 0) by (nonlinear_arith)
                requires m >= 1, s > 0;
            lemma_walk_up(a1, b, s, m);
            let tail = walk(next, m).1;
            assert forall|k: int| 1 <= k < n implies #[trigger] (seq![ValueV::Number(a)] + tail)[k]
                == ValueV::Number((a + k * s) as i64) by {
                assert(tail[k - 1] == ValueV::Number((a1 + (k - 1) * s) as i64));
                assert(a1 + (k - 1) * s == a + k * s) by (nonlinear_arith)
                    requires a1 == a + s;
            }
            assert(0 * s == 0);
            assert(seq![ValueV::Number(a)] + tail =~= Seq::new(n, |k: int| ValueV::Number((a + k * s) as i64)));
        }
    }
}

proof fn lemma_walk_down(a: i64, b: int, s: i64, n: nat)
    requires
        in48(a as int),
        -0x8000_0000_0001 <= b < 0x8000_0000_0000,
        i64::MIN <= b,
        -0x8000_0000_0000 < s < 0,
        n == 0 ==> a <= b,
        n > 0 ==> a + (n - 1) * s > b >= a + n * s,
    ensures
        walk(IterV::Range(Range { start: a, end: b as i64, step: s }), n).1
            == Seq::new(n, |k: int| ValueV::Number((a + k * s) as i64)),
        iter_next_spec(walk(IterV::Range(Range { start: a, end: b as i64, step: s }), n).0).1 is None,
    decreases n,
{
    let it = IterV::Range(Range { start: a, end: b as i64, step: s });
    if n == 0 {
        assert(Seq::<ValueV>::empty() =~= Seq::new(n, |k: int| ValueV::Number((a + k * s) as i64)));
    } else {
        assert((n - 1) * s <= 0 && n * s == (n - 1) * s + s) by (nonlinear_arith)
            requires n >= 1, s < 0;
        lemma_wrap48_idem(a as int);
        crate::num::lemma_wrap64_idem(a + s);
        let a1 = (a + s) as i64;
        let next = IterV::Range(Range { start: a1, end: b as i64, step: s });
        assert(iter_next_spec(it) == (next, Some(ValueV::Number(a))));
        if n == 1 {
            assert(n * s == s) by (nonlinear_arith)
                requires n == 1;
            assert(walk(next, 0nat) == (next, Seq::<ValueV>::empty()));
            assert(seq![ValueV::Number(a)] =~= Seq::new(n, |k: int| ValueV::Number((a + k * s) as i64)));
        } else {
            let m = (n - 1) as nat;
            assert(a1 + (m - 1) * s == a + (n - 1) * s) by (nonlinear_arith)
                requires a1 == a + s, m == n - 1;
            assert(a1 + m * s == a + n * s) by (nonlinear_arith)
                requires a1 == a + s, m == n - 1;
            assert((m - 1) * s <= 0) by (nonlinear_arith)
                requires m >= 1, s < 0;
            lemma_walk_down(a1, b, s, m);
            let tail = walk(next, m).1;
            assert forall|k: int| 1 <= k < n implies #[trigger] (seq![ValueV::Number(a)] + tail)[k]
                == ValueV::Number((a + k * s) as i64) by {
                assert(tail[k - 1] == ValueV::Number((a1 + (k - 1) * s) as i64));
                assert(a1 + (k - 1) * s == a + k * s) by (nonlinear_arith)
                    requires a1 == a + s;
            }
            assert(0 * s == 0);
            assert(seq![ValueV::Number(a)] + tail =~= Seq::new(n, |k: int| ValueV::Number((a + k * s) as i64)));
        }
    }
}

/// Walking a range that counts up from `a` toward `b` by the step `s`
/// yields `a`, `a + s`, `a + 2s`, and so on, for the `n` numbers below `b`
/// (`n` is the number of steps that stay below `b`), and then ends.
pub proof fn law_range_walk_step_up(a: i64, b: i64, s: i64, n: nat)
    requires
        in48(a as int),
        in48(b as int),
        0 < s < 0x8000_0000_0000,
        n == 0 ==> a >= b,
        n > 0 ==> a + (n - 1) * s < b <= a + n * s,
    ensures
        walk(IterV::Range(Range { start: a, end: b, step: s }), n).1
            == Seq::new(n, |k: int| ValueV::Number((a + k * s) as i64)),
        iter_next_spec(walk(IterV::Range(Range { start: a, end: b, step: s }), n).0).1 is None,
{
    lemma_walk_up(a, b as int, s, n);
}

/// Walking a range that counts down from `a` toward `b` by the negative
/// step `s` yields `a`, `a + s`, `a + 2s`, and so on, for the `n` numbers
/// above `b`, and then ends.
pub proof fn law_range_walk_step_down(a: i64, b: i64, s: i64, n: nat)
    requires
        in48(a as int),
        in48(b as int),
        -0x8000_0000_0000 < s < 0,
        n == 0 ==> a <= b,
        n > 0 ==> a + (n - 1) * s > b >= a + n * s,
    ensures
        walk(IterV::Range(Range { start: a, end: b, step: s }), n).1
            == Seq::new(n, |k: int| ValueV::Number((a + k * s) as i64)),
        iter_next_spec(walk(IterV::Range(Range { start: a, end: b, step: s }), n).0).1 is None,
{
    lemma_walk_down(a, b as int, s, n);
}

/// Walking the range `a..b` with `a > b` counts down: it yields `a`,
/// `a - 1`, ..., `b + 1`, and then ends.
pub proof fn law_range_walk_down(a: i64, b: i64)
    requires
        in48(a as int),
        in48(b as int),
        a > b,
    ensures
        match range_value(ValueV::Number(a), ValueV::Number(b), false) {
            Ok(ValueV::Iter(it)) => {
                &&& walk(*it, (a - b) as nat).1 == Seq::new((a - b) as nat, |k: int| ValueV::Number((a - k) as i64))
                &&& iter_next_spec(walk(*it, (a - b) as nat).0).1 is None
            },
            _ => false,
        },
{
    let n = (a - b) as nat;
    lemma_walk_down(a, b as int, -1i64, n);
    assert(Seq::new(n, |k: int| ValueV::Number((a + k * -1) as i64)) =~= Seq::new(
        n,
        |k: int| ValueV::Number((a - k) as i64),
    ));
}

/// Walking the inclusive range `a..=b` yields every number from `a` to `b`
/// in order, `b` included, counting down when `a > b`, and then ends.
pub proof fn law_range_walk_inclusive(a: i64, b: i64)
    requires
        in48(a as int),
        in48(b as int),
    ensures
        match range_value(ValueV::Number(a), ValueV::Number(b), true) {
            Ok(ValueV::Iter(it)) => if a <= b {
                &&& walk(*it, (b - a + 1) as nat).1 == Seq::new(
                    (b - a + 1) as nat,
                    |k: int| ValueV::Number((a + k) as i64),
                )
                &&& iter_next_spec(walk(*it, (b - a + 1) as nat).0).1 is None
            } else {
                &&& walk(*it, (a - b + 1) as nat).1 == Seq::new(
                    (a - b + 1) as nat,
                    |k: int| ValueV::Number((a - k) as i64),
                )
                &&& iter_next_spec(walk(*it, (a - b + 1) as nat).0).1 is None
            },
            _ => false,
        },
{
    if a <= b {
        crate::num::lemma_wrap64_idem(b + 1);
        let n = (b - a + 1) as nat;
        lemma_walk_up(a, b + 1, 1i64, n);
        assert(Seq::new(n, |k: int| ValueV::Number((a + k * 1) as i64)) =~= Seq::new(
            n,
            |k: int| ValueV::Number((a + k) as i64),
        ));
    } else {
        crate::num::lemma_wrap64_idem(b - 1);
        let n = (a - b + 1) as nat;
        lemma_walk_down(a, b - 1, -1i64, n);
        assert(Seq::new(n, |k: int| ValueV::Number((a + k * -1) as i64)) =~= Seq::new(
            n,
            |k: int| ValueV::Number((a - k) as i64),
        ));
    }
}

/// Walking the range `a..b` yields the numbers from `a` up to `b - 1`, one
/// after the other, and then ends.
pub proof fn law_range_walk(a: i64, b: i64)
    requires
        in48(a as int),
        in48(b as int),
        a <= b,
    ensures
        match range_value(ValueV::Number(a), ValueV::Number(b), false) {
            Ok(ValueV::Iter(it)) => {
                &&& walk(*it, (b - a) as nat).1 == Seq::new((b - a) as nat, |k: int| ValueV::Number((a + k) as i64))
                &&& iter_next_spec(walk(*it, (b - a) as nat).0).1 is None
            },
            _ => false,
        },
{
    let n = (b - a) as nat;
    lemma_walk_up(a, b as int, 1i64, n);
    assert(Seq::new(n, |k: int| ValueV::Number((a + k * 1) as i64)) =~= Seq::new(
        n,
        |k: int| ValueV::Number((a + k) as i64),
    ));
}

proof fn lemma_walk_array(xs: Seq<ValueV>, p: usize)
    requires
        p <= xs.len() <= usize::MAX,
    ensures
        walk(IterV::Array(xs, p), (xs.len() - p) as nat).1 == xs.subrange(p as int, xs.len() as int),
        iter_next_spec(walk(IterV::Array(xs, p), (xs.len() - p) as nat).0).1 is None,
    decreases xs.len() - p,
{
    if p < xs.len() {
        lemma_walk_array(xs, (p + 1) as usize);
        assert(seq![xs[p as int]] + xs.subrange(p + 1, xs.len() as int) =~= xs.subrange(
            p as int,
            xs.len() as int,
        ));
    } else {
        assert(xs.subrange(p as int, xs.len() as int) =~= Seq::<ValueV>::empty());
    }
}

/// Walking an array yields its elements in order, and then ends.
pub proof fn law_array_walk(xs: Seq<ValueV>)
    requires
        xs.len() <= usize::MAX,
    ensures
        match make_iter_spec(ValueV::Array(xs)) {
            Some(it) => {
                &&& walk(it, xs.len()).1 == xs
                &&& iter_next_spec(walk(it, xs.len()).0).1 is None
            },
            None => false,
        },
{
    lemma_walk_array(xs, 0);
    assert(xs.subrange(0, xs.len() as int) =~= xs);
}

/// The texts `parts` joined with `d` between each two of them (an item
/// that is not a text counts as the empty text).
pub open spec fn joined(parts: Seq<ValueV>, d: Seq<char>) -> Seq<char>
    decreases parts.len(),
{
    if parts.len() == 0 {
        Seq::empty()
    } else {
        let head = match parts[0] {
            ValueV::Str(t) => t,
            _ => Seq::empty(),
        };
        if parts.len() == 1 {
            head
        } else {
            head + d + joined(parts.drop_first(), d)
        }
    }
}

proof fn lemma_first_match(s: Seq<char>, pat: Seq<char>, from: int)
    requires
        0 <= from,
    ensures
        first_match(s, pat, from) == -1 || {
            let r = first_match(s, pat, from);
            &&& from <= r
            &&& r + pat.len() <= s.len()
            &&& s.subrange(r, r + pat.len()) == pat
        },
    decreases s.len() + 1 - from,
{
    if from + pat.len() <= s.len() && s.subrange(from, from + pat.len()) != pat {
        lemma_first_match(s, pat, from + 1);
    }
}

/// Whether `d` occurs in `s`.
pub open spec fn has_text(s: Seq<char>, d: Seq<char>) -> bool {
    exists|q: int| 0 <= q && q + d.len() <= s.len() && #[trigger] s.subrange(q, q + d.len()) == d
}

/// A text that is one of `split`'s pieces: a text in which the delimiter
/// `d` does not occur.
pub open spec fn clean_piece(v: ValueV, d: Seq<char>) -> bool {
    match v {
        ValueV::Str(t) => !has_text(t, d),
        _ => false,
    }
}

proof fn lemma_first_match_first(s: Seq<char>, pat: Seq<char>, from: int, q: int)
    requires
        0 <= from <= q,
        q + pat.len() <= s.len(),
        first_match(s, pat, from) == -1 || q < first_match(s, pat, from),
    ensures
        s.subrange(q, q + pat.len()) != pat,
    decreases q - from,
{
    if s.subrange(from, from + pat.len()) == pat {
        assert(first_match(s, pat, from) == from);
    } else if from < q {
        lemma_first_match_first(s, pat, from + 1, q);
    }
}

proof fn lemma_walk_more(it: IterV, n: nat, m: nat)
    requires
        n <= m,
        iter_next_spec(walk(it, n).0).1 is None,
    ensures
        walk(it, m) == walk(it, n),
    decreases n,
{
    if n == 0 {
        if m > 0 {
            assert(iter_next_spec(it).1 is None);
        }
    } else {
        let (next, item) = iter_next_spec(it);
        if item is Some {
            lemma_walk_more(next, (n - 1) as nat, (m - 1) as nat);
        }
    }
}

proof fn lemma_split_walk(src: Seq<char>, d: Seq<char>, off: usize)
    requires
        d.len() > 0,
        off <= src.len() < usize::MAX,
    ensures
        ({
            let (last, parts) = walk(IterV::Split(src, d, off), (src.len() - off + 1) as nat);
            &&& parts.len() >= 1
            &&& forall|i: int| 0 <= i < parts.len() ==> clean_piece(#[trigger] parts[i], d)
            &&& joined(parts, d) == src.subrange(off as int, src.len() as int)
            &&& iter_next_spec(last).1 is None
        }),
    decreases src.len() - off,
{
    let it = IterV::Split(src, d, off);
    let n = (src.len() - off + 1) as nat;
    let p = first_match(src, d, off as int);
    lemma_first_match(src, d, off as int);
    if p >= 0 {
        let off2 = (p + d.len()) as usize;
        let next = IterV::Split(src, d, off2);
        let piece = ValueV::Str(src.subrange(off as int, p));
        assert(iter_next_spec(it) == (next, Some(piece)));
        lemma_split_walk(src, d, off2);
        let k = (src.len() - off2 + 1) as nat;
        lemma_walk_more(next, k, (n - 1) as nat);
        let rest = walk(next, k).1;
        assert(walk(it, n).1 == seq![piece] + rest);
        assert((seq![piece] + rest).drop_first() =~= rest);
        assert(src.subrange(off as int, p) + d + src.subrange(off2 as int, src.len() as int) =~= src.subrange(
            off as int,
            src.len() as int,
        ));
        assert(clean_piece(piece, d)) by {
            assert forall|q: int| 0 <= q && q + d.len() <= p - off implies #[trigger] src.subrange(off as int, p).subrange(
                q,
                q + d.len(),
            ) != d by {
                assert(src.subrange(off as int, p).subrange(q, q + d.len()) =~= src.subrange(off + q, off + q + d.len()));
                lemma_first_match_first(src, d, off as int, off + q);
            }
        }
        assert forall|i: int| 0 <= i < (seq![piece] + rest).len() implies clean_piece(#[trigger] (seq![piece] + rest)[i], d) by {
            if i > 0 {
                assert((seq![piece] + rest)[i] == rest[i - 1]);
            }
        }
    } else {
        let next = IterV::Split(src, d, past_end(src.len() as usize));
        let piece = ValueV::Str(src.subrange(off as int, src.len() as int));
        assert(iter_next_spec(it) == (next, Some(piece)));
        assert(iter_next_spec(next).1 is None);
        assert(walk(next, (n - 1) as nat) == (next, Seq::<ValueV>::empty()));
        assert(walk(it, n).1 =~= seq![piece]);
        assert(clean_piece(piece, d)) by {
            assert forall|q: int| 0 <= q && q + d.len() <= src.len() - off implies #[trigger] src.subrange(
                off as int,
                src.len() as int,
            ).subrange(q, q + d.len()) != d by {
                assert(src.subrange(off as int, src.len() as int).subrange(q, q + d.len()) =~= src.subrange(
                    off + q,
                    off + q + d.len(),
                ));
                lemma_first_match_first(src, d, off as int, off + q);
            }
        }
    }
}

/// Walking `split` with a non-empty delimiter over a text yields texts in
/// which the delimiter does not occur and that, joined with the delimiter,
/// give the text back, and then ends.
pub proof fn law_split_walk(src: Seq<char>, d: Seq<char>)
    requires
        d.len() > 0,
        src.len() < usize::MAX,
    ensures
        ({
            let (last, parts) = walk(IterV::Split(src, d, 0), (src.len() + 1) as nat);
            &&& forall|i: int| 0 <= i < parts.len() ==> clean_piece(#[trigger] parts[i], d)
            &&& joined(parts, d) == src
            &&& iter_next_spec(last).1 is None
        }),
{
    lemma_split_walk(src, d, 0);
    assert(src.subrange(0, src.len() as int) =~= src);
}

/// The outcome of a comparison seen from the other side.
pub open spec fn converse(o: Order) -> Order {
    match o {
        Order::Less => Order::Greater,
        Order::Equal => Order::Equal,
        Order::Greater => Order::Less,
    }
}

proof fn lemma_text_order_converse(s: Seq<char>, t: Seq<char>)
    ensures
        text_order(t, s) == converse(text_order(s, t)),
    decreases s.len(),
{
    if s.len() > 0 && t.len() > 0 && s[0] == t[0] {
        lemma_text_order_converse(s.drop_first(), t.drop_first());
    }
}

/// Comparing the other way round gives the converse outcome: `a < b`
/// exactly when `b > a`, and two values that cannot be compared cannot be
/// compared either way.
pub proof fn law_order_converse(a: ValueV, b: ValueV)
    ensures
        vord(b, a) == match vord(a, b) {
            Some(o) => Some(converse(o)),
            None => None::<Order>,
        },
    decreases a,
{
    match (a, b) {
        (ValueV::Str(x), ValueV::Str(y)) => lemma_text_order_converse(x, y),
        (ValueV::Tuple(xs), ValueV::Tuple(ys)) => lemma_seq_vord_converse(xs, ys),
        (ValueV::Array(xs), ValueV::Array(ys)) => lemma_seq_vord_converse(xs, ys),
        (ValueV::Cat(Some(p)), ValueV::Cat(Some(q))) => law_order_converse(*p, *q),
        (ValueV::ResOk(x), ValueV::ResOk(y)) => law_order_converse(*x, *y),
        (ValueV::ResErr(x), ValueV::ResErr(y)) => law_order_converse(*x, *y),
        _ => {},
    }
}

proof fn lemma_seq_vord_converse(xs: Seq<ValueV>, ys: Seq<ValueV>)
    ensures
        seq_vord(ys, xs) == match seq_vord(xs, ys) {
            Some(o) => Some(converse(o)),
            None => None::<Order>,
        },
    decreases xs,
{
    if xs.len() > 0 && ys.len() > 0 {
        law_order_converse(xs[0], ys[0]);
        lemma_seq_vord_converse(xs.drop_first(), ys.drop_first());
    }
}

/// Whether the machine is ready to execute the instruction at `ip`: it
/// waits on no reply and no `collect` is in progress.
pub open spec fn ready(vm: VMV) -> bool {
    &&& vm.awaiting is None
    &&& !(vm.pending.len() > 0 && vm.pending.last() is Collect)
}

/// Two steps of the machine, when the first continues.
pub open spec fn two_steps(vm: VMV, code: Seq<Op>) -> (VMV, Result<StepV, crate::errors::VMError>) {
    let (vm1, r1) = step_spec(vm, code);
    match r1 {
        Ok(StepV::Continue) => step_spec(vm1, code),
        _ => (vm1, r1),
    }
}

/// Storing the value on top of the stack in a global variable and loading
/// that variable again puts the same value back: the stack is as it was,
/// and the variable holds the value.
pub proof fn law_store_then_load_global(vm: VMV, code: Seq<Op>, i: usize)
    requires
        ready(vm),
        code.len() <= usize::MAX,
        vm.ip + 1 < code.len(),
        code[vm.ip as int] == Op::StoreGlobal(i),
        code[vm.ip + 1] == Op::LoadGlobal(i),
        vm.stack.len() > 0,
        i < vm.frame.len(),
    ensures
        two_steps(vm, code).1 == Ok::<StepV, crate::errors::VMError>(StepV::Continue),
        two_steps(vm, code).0.stack == vm.stack,
        two_steps(vm, code).0.frame[i as int] == vm.stack.last(),
        two_steps(vm, code).0.ip == vm.ip + 2,
{
    assert(vm.stack.drop_last().push(vm.stack.last()) =~= vm.stack);
}

/// The same for a local variable `i` of the frame `d` levels out.
pub proof fn law_store_then_load_local(vm: VMV, code: Seq<Op>, i: usize, d: usize)
    requires
        ready(vm),
        code.len() <= usize::MAX,
        vm.ip + 1 < code.len(),
        code[vm.ip as int] == Op::StoreLocal(i, d),
        code[vm.ip + 1] == Op::LoadLocal(i, d),
        vm.stack.len() > 0,
        vm.frame.len() <= usize::MAX,
        frame_base(vm, d) is Some,
        frame_base(vm, d)->0 + i < vm.frame.len(),
    ensures
        two_steps(vm, code).1 == Ok::<StepV, crate::errors::VMError>(StepV::Continue),
        two_steps(vm, code).0.stack == vm.stack,
        two_steps(vm, code).0.frame[frame_base(vm, d)->0 + i] == vm.stack.last(),
        two_steps(vm, code).0.ip == vm.ip + 2,
{
    let vm1 = step_spec(vm, code).0;
    assert(vm1.calls == vm.calls && vm1.now_frame == vm.now_frame);
    assert(frame_base(vm1, d) == frame_base(vm, d));
    assert(vm.stack.drop_last().push(vm.stack.last()) =~= vm.stack);
}

proof fn lemma_first_non_space(s: Seq<char>, from: int)
    requires
        0 <= from <= s.len(),
    ensures
        from <= first_space(s, from, false) <= s.len(),
        first_space(s, from, false) < s.len() ==> !is_space(s[first_space(s, from, false)]),
        forall|k: int| from <= k < first_space(s, from, false) ==> is_space(#[trigger] s[k]),
    decreases s.len() - from,
{
    if from < s.len() && is_space(s[from]) {
        lemma_first_non_space(s, from + 1);
    }
}

proof fn lemma_trim_end(s: Seq<char>, j: int, a: int)
    requires
        0 <= a < j <= s.len(),
        !is_space(s[a]),
    ensures
        a < trim_end(s, j) <= j,
        !is_space(s[trim_end(s, j) - 1]),
    decreases j,
{
    if is_space(s[j - 1]) {
        lemma_trim_end(s, j - 1, a);
    }
}

/// Trimming a text that is already trimmed changes nothing.
pub proof fn law_trim_idempotent(s: Seq<char>)
    ensures
        trim(trim(s)) == trim(s),
{
    lemma_first_non_space(s, 0);
    let a = first_space(s, 0, false);
    if a < s.len() {
        lemma_trim_end(s, s.len() as int, a);
        let e = trim_end(s, s.len() as int);
        let t = s.subrange(a, e);
        assert(t[0] == s[a]);
        assert(first_space(t, 0, false) == 0);
        assert(t[t.len() - 1] == s[e - 1]);
        assert(trim_end(t, t.len() as int) == t.len());
        assert(t.subrange(0, t.len() as int) =~= t);
    }
}


// ---------------------------------------------------------------------------
// Texts: order, search, lines
// ---------------------------------------------------------------------------

proof fn lemma_text_order_at(s: Seq<char>, t: Seq<char>, i: int)
    requires
        0 <= i < s.len(),
        i < t.len(),
        s.take(i) == t.take(i),
        s[i] != t[i],
    ensures
        text_order(s, t) == crate::relate::int_order((s[i] as u32) as int, (t[i] as u32) as int),
    decreases i,
{
    if i > 0 {
        assert(s[0] == s.take(i)[0] && t[0] == t.take(i)[0]);
        assert(s.drop_first().take(i - 1) =~= s.take(i).drop_first());
        assert(t.drop_first().take(i - 1) =~= t.take(i).drop_first());
        lemma_text_order_at(s.drop_first(), t.drop_first(), i - 1);
    }
}

/// Texts are ordered lexicographically: at the first position where two
/// texts differ, the one whose character there comes first is the smaller
/// one, whatever their lengths; this is how `<`, `<=`, `>` and `>=`
/// compare texts.
pub proof fn law_text_order_first_difference(s: Seq<char>, t: Seq<char>, i: int)
    requires
        0 <= i < s.len(),
        i < t.len(),
        s.take(i) == t.take(i),
        s[i] != t[i],
    ensures
        vord(ValueV::Str(s), ValueV::Str(t)) == Some(crate::relate::int_order((s[i] as u32) as int, (t[i] as u32) as int)),
{
    lemma_text_order_at(s, t, i);
}

proof fn lemma_text_order_prefix(s: Seq<char>, t: Seq<char>)
    requires
        s.len() < t.len(),
        t.take(s.len() as int) == s,
    ensures
        text_order(s, t) == Order::Less,
    decreases s.len(),
{
    if s.len() > 0 {
        assert(s[0] == t.take(s.len() as int)[0]);
        assert(t.drop_first().take(s.drop_first().len() as int) =~= s.drop_first());
        lemma_text_order_prefix(s.drop_first(), t.drop_first());
    }
}

/// A text that is a proper prefix of another is smaller than it, and the
/// longer text is greater.
pub proof fn law_text_order_prefix(s: Seq<char>, t: Seq<char>)
    requires
        s.len() < t.len(),
        t.take(s.len() as int) == s,
    ensures
        vord(ValueV::Str(s), ValueV::Str(t)) == Some(Order::Less),
        vord(ValueV::Str(t), ValueV::Str(s)) == Some(Order::Greater),
{
    lemma_text_order_prefix(s, t);
    crate::laws::law_order_converse(ValueV::Str(s), ValueV::Str(t));
}

/// `contains` finds a text exactly when it occurs somewhere in the other,
/// at the start included: `s` contains `p` when, for some position `i`,
/// the characters of `s` from `i` on begin with `p`.
pub proof fn law_contains_occurrence(s: Seq<char>, p: Seq<char>)
    ensures
        contains_text(s, p) == has_text(s, p),
{
    lemma_first_match(s, p, 0);
    if has_text(s, p) {
        let q = choose|q: int| 0 <= q && q + p.len() <= s.len() && #[trigger] s.subrange(q, q + p.len()) == p;
        if first_match(s, p, 0) == -1 {
            lemma_first_match_first(s, p, 0, q);
        }
    }
}

/// Every text contains each of its prefixes, itself and the empty text
/// included.
pub proof fn law_contains_prefix(s: Seq<char>, k: int)
    requires
        0 <= k <= s.len(),
    ensures
        contains_text(s, s.take(k)),
{
    assert(s.subrange(0, 0 + s.take(k).len() as int) =~= s.take(k));
    law_contains_occurrence(s, s.take(k));
}

/// Whether no character of `s` is a carriage return.
pub open spec fn no_cr(s: Seq<char>) -> bool {
    forall|i: int| 0 <= i < s.len() ==> #[trigger] s[i] != '\r'
}

/// A line as `lines` yields it: a text holding no line break.
pub open spec fn line_piece(v: ValueV) -> bool {
    match v {
        ValueV::Str(t) => forall|i: int| 0 <= i < t.len() ==> #[trigger] t[i] != '\n',
        _ => false,
    }
}

/// The part of `src` from `off` on, without the line break that ends the
/// text, if it ends with one.
pub open spec fn text_from(src: Seq<char>, off: int) -> Seq<char> {
    if off < src.len() && src.last() == '\n' {
        src.subrange(off, src.len() - 1)
    } else {
        src.subrange(off, src.len() as int)
    }
}

proof fn lemma_lines_walk(src: Seq<char>, off: usize)
    requires
        off <= src.len() < usize::MAX,
        no_cr(src),
    ensures
        ({
            let (last, parts) = walk(IterV::Lines(src, off), (src.len() - off + 1) as nat);
            &&& (off < src.len() ==> parts.len() >= 1)
            &&& forall|i: int| 0 <= i < parts.len() ==> line_piece(#[trigger] parts[i])
            &&& joined(parts, seq!['\n']) == text_from(src, off as int)
            &&& iter_next_spec(last).1 is None
        }),
    decreases src.len() - off,
{
    let it = IterV::Lines(src, off);
    let n = (src.len() - off + 1) as nat;
    let nl = seq!['\n'];
    if off == src.len() {
        assert(iter_next_spec(it).1 is None);
        assert(walk(it, n) == (it, Seq::<ValueV>::empty()));
        assert(text_from(src, off as int) =~= Seq::<char>::empty());
        return;
    }
    let p = first_match(src, nl, off as int);
    lemma_first_match(src, nl, off as int);
    if p >= 0 {
        assert(src[p] == src.subrange(p, p + 1)[0]);
        let line = src.subrange(off as int, p);
        assert(crate::iter::strip_cr(line) == line) by {
            if line.len() > 0 {
                assert(line.last() == src[p - 1]);
            }
        }
        let piece = ValueV::Str(line);
        assert(line_piece(piece)) by {
            assert forall|i: int| 0 <= i < line.len() implies #[trigger] line[i] != '\n' by {
                lemma_first_match_first(src, nl, off as int, off + i);
                if line[i] == '\n' {
                    assert(src.subrange(off + i, off + i + 1) =~= nl);
                }
            }
        }
        let off2 = (p + 1) as usize;
        let next = IterV::Lines(src, off2);
        assert(iter_next_spec(it) == (next, Some(piece)));
        if off2 == src.len() {
            assert(iter_next_spec(next).1 is None);
            assert(walk(next, (n - 1) as nat) == (next, Seq::<ValueV>::empty()));
            assert(walk(it, n).1 =~= seq![piece]);
            assert(text_from(src, off as int) =~= line);
        } else {
            lemma_lines_walk(src, off2);
            let k = (src.len() - off2 + 1) as nat;
            lemma_walk_more(next, k, (n - 1) as nat);
            let rest = walk(next, k).1;
            assert(walk(it, n).1 == seq![piece] + rest);
            assert((seq![piece] + rest).drop_first() =~= rest);
            let e = if src.last() == '\n' { src.len() - 1 } else { src.len() as int };
            assert(line + nl + src.subrange(off2 as int, e) =~= src.subrange(off as int, e));
            assert forall|i: int| 0 <= i < (seq![piece] + rest).len() implies line_piece(#[trigger] (seq![piece] + rest)[i]) by {
                if i > 0 {
                    assert((seq![piece] + rest)[i] == rest[i - 1]);
                }
            }
        }
    } else {
        let line = src.subrange(off as int, src.len() as int);
        let piece = ValueV::Str(line);
        let next = IterV::Lines(src, src.len() as usize);
        assert(iter_next_spec(it) == (next, Some(piece)));
        assert(iter_next_spec(next).1 is None);
        assert(walk(next, (n - 1) as nat) == (next, Seq::<ValueV>::empty()));
        assert(walk(it, n).1 =~= seq![piece]);
        assert forall|i: int| 0 <= i < line.len() implies #[trigger] line[i] != '\n' by {
            lemma_first_match_first(src, nl, off as int, off + i);
            if line[i] == '\n' {
                assert(src.subrange(off + i, off + i + 1) =~= nl);
            }
        }
        assert(src.last() != '\n') by {
            assert(line[line.len() - 1] == src.last());
        }
    }
}

/// Walking `lines` over a text without carriage returns yields lines that
/// hold no line break and that, joined with line breaks, give the text
/// back (without the line break that ends it, if any); then it ends. So no
/// line is dropped or shortened: after a line ending at a line break, the
/// next line starts just after it.
pub proof fn law_lines_walk(src: Seq<char>)
    requires
        src.len() < usize::MAX,
        no_cr(src),
    ensures
        ({
            let (last, parts) = walk(IterV::Lines(src, 0), (src.len() + 1) as nat);
            &&& forall|i: int| 0 <= i < parts.len() ==> line_piece(#[trigger] parts[i])
            &&& joined(parts, seq!['\n']) == text_from(src, 0)
            &&& iter_next_spec(last).1 is None
        }),
{
    lemma_lines_walk(src, 0);
}

// ---------------------------------------------------------------------------
// Tokens of two characters
// ---------------------------------------------------------------------------

/// The token a pair of operator characters makes.
pub open spec fn pair_token(c1: char, c2: char) -> Option<Token> {
    if c1 == '<' && c2 == '=' {
        Some(Token::LessOrEqual)
    } else if c1 == '>' && c2 == '=' {
        Some(Token::GreaterOrEqual)
    } else if c1 == '=' && c2 == '=' {
        Some(Token::Equal)
    } else if c1 == '=' && c2 == '>' {
        Some(Token::FatArrow)
    } else if c1 == '!' && c2 == '=' {
        Some(Token::NotEqual)
    } else if c1 == '&' && c2 == '&' {
        Some(Token::LogicalAnd)
    } else if c1 == '|' && c2 == '|' {
        Some(Token::Or)
    } else if c1 == '.' && c2 == '.' {
        Some(Token::DotDot)
    } else if c1 == '+' && c2 == '=' {
        Some(Token::AssignOper(consts::ASSIGN_ADD))
    } else if c1 == '+' && c2 == '+' {
        Some(Token::Inc)
    } else if c1 == '-' && c2 == '=' {
        Some(Token::AssignOper(consts::ASSIGN_SUB))
    } else if c1 == '-' && c2 == '-' {
        Some(Token::Dec)
    } else if c1 == '-' && c2 == '>' {
        Some(Token::Arrow)
    } else if c1 == '*' && c2 == '=' {
        Some(Token::AssignOper(consts::ASSIGN_MUL))
    } else if c1 == '*' && c2 == '*' {
        Some(Token::Pow)
    } else if c1 == '/' && c2 == '=' {
        Some(Token::AssignOper(consts::ASSIGN_DIV))
    } else {
        None
    }
}

/// Where a token starts with an operator character (one that does not
/// start a name) followed by a character it pairs with (`<=`, `>=`, `==`,
/// `=>`, `!=`, `&&`, `||`, `..`, `+=`, `++`, `-=`, `--`, `->`, `*=`, `**`,
/// `/=`), the lexer reads the two characters as that one token.
pub proof fn law_lex_pair(s: Seq<char>, k: int)
    requires
        0 <= k,
        k + 1 < s.len(),
        pair_token(s[k], s[k + 1]) is Some,
        !ident_start(s[k]),
    ensures
        lex(s, k) == (pair_token(s[k], s[k + 1])->Some_0, k + 2),
{
    assert(!is_space(s[k]));
    assert(first_space(s, k, false) == k);
}

/// A comparison character not followed by `=` is read alone: `<` as
/// `Less` and `>` as `Greater`.
pub proof fn law_lex_single_comparison(s: Seq<char>, k: int)
    requires
        0 <= k < s.len(),
        s[k] == '<' || s[k] == '>',
        !(k + 1 < s.len() && s[k + 1] == '='),
        !ident_start(s[k]),
    ensures
        lex(s, k) == (if s[k] == '<' { Token::Less } else { Token::Greater }, k + 1),
{
    assert(!is_space(s[k]));
    assert(first_space(s, k, false) == k);
}


/// The token a single operator character makes when the character after
/// it does not pair with it.
pub open spec fn single_token(c: char) -> Option<Token> {
    if c == ':' {
        Some(Token::Colon)
    } else if c == '=' {
        Some(Token::Assign)
    } else if c == '+' {
        Some(Token::Plus)
    } else if c == '-' {
        Some(Token::Minus)
    } else if c == '*' {
        Some(Token::Mult)
    } else if c == '/' {
        Some(Token::Div)
    } else if c == '%' {
        Some(Token::Mod)
    } else if c == '^' {
        Some(Token::Pow)
    } else if c == '<' {
        Some(Token::Less)
    } else if c == '>' {
        Some(Token::Greater)
    } else if c == '!' {
        Some(Token::Not)
    } else if c == '&' {
        Some(Token::ArifmAnd)
    } else if c == '|' {
        Some(Token::ArifmOr)
    } else if c == '.' {
        Some(Token::Dot)
    } else if c == '[' {
        Some(Token::LBracket)
    } else if c == ']' {
        Some(Token::RBracket)
    } else if c == '{' {
        Some(Token::Begin)
    } else if c == '}' {
        Some(Token::End)
    } else if c == '(' {
        Some(Token::LParen)
    } else if c == ')' {
        Some(Token::RParen)
    } else if c == ',' {
        Some(Token::Comma)
    } else if c == ';' {
        Some(Token::Semicolon)
    } else {
        None
    }
}

/// An operator character (one that does not start a name) whose next
/// character does not pair with it (see `pair_token`) and, for `/`, does
/// not open a comment, is read alone as its own token.
pub proof fn law_lex_single(s: Seq<char>, k: int)
    requires
        0 <= k < s.len(),
        single_token(s[k]) is Some,
        !ident_start(s[k]),
        k + 1 < s.len() ==> pair_token(s[k], s[k + 1]) is None,
        k + 1 < s.len() && s[k] == '/' ==> s[k + 1] != '/' && s[k + 1] != '*',
    ensures
        lex(s, k) == (single_token(s[k])->Some_0, k + 1),
{
    assert(!is_space(s[k]));
    assert(first_space(s, k, false) == k);
}


proof fn lemma_text_order_same(s: Seq<char>)
    ensures
        text_order(s, s) == Order::Equal,
    decreases s.len(),
{
    if s.len() > 0 {
        lemma_text_order_same(s.drop_first());
    }
}

/// A text compares equal to itself.
pub proof fn law_text_order_same(s: Seq<char>)
    ensures
        vord(ValueV::Str(s), ValueV::Str(s)) == Some(Order::Equal),
{
    lemma_text_order_same(s);
}

/// Numbers compare by value: `a` is smaller than `b` exactly when it is
/// less, equal when they are the same number, and greater otherwise.
pub proof fn law_number_order(a: i64, b: i64)
    ensures
        vord(ValueV::Number(a), ValueV::Number(b)) == Some(
            if a < b {
                Order::Less
            } else if a == b {
                Order::Equal
            } else {
                Order::Greater
            },
        ),
{
}


/// A text that starts with `p` contains `p`.
pub proof fn law_starts_with_contains(s: Seq<char>, p: Seq<char>)
    requires
        starts_with(s, p),
    ensures
        contains_text(s, p),
{
    assert(s.subrange(0, 0 + p.len() as int) == p);
    law_contains_occurrence(s, p);
}


proof fn lemma_walk_text(cs: Seq<char>, p: usize)
    requires
        p <= cs.len() <= usize::MAX,
    ensures
        walk(IterV::String(cs, p), (cs.len() - p) as nat).1.len() == cs.len() - p,
        forall|i: int| 0 <= i < cs.len() - p ==> #[trigger] walk(IterV::String(cs, p), (cs.len() - p) as nat).1[i]
            == ValueV::Char(cs[p + i]),
        iter_next_spec(walk(IterV::String(cs, p), (cs.len() - p) as nat).0).1 is None,
    decreases cs.len() - p,
{
    if p < cs.len() {
        let n = (cs.len() - p) as nat;
        let next = IterV::String(cs, (p + 1) as usize);
        assert(iter_next_spec(IterV::String(cs, p)) == (next, Some(ValueV::Char(cs[p as int]))));
        lemma_walk_text(cs, (p + 1) as usize);
        let rest = walk(next, (n - 1) as nat).1;
        let w = walk(IterV::String(cs, p), n).1;
        assert(w == seq![ValueV::Char(cs[p as int])] + rest);
        assert forall|i: int| 0 <= i < cs.len() - p implies #[trigger] w[i] == ValueV::Char(cs[p + i]) by {
            if i > 0 {
                assert(w[i] == rest[i - 1]);
            }
        }
    }
}

/// Walking a text yields its characters in order, one by one, and then
/// ends.
pub proof fn law_text_walk(cs: Seq<char>)
    requires
        cs.len() <= usize::MAX,
    ensures
        match make_iter_spec(ValueV::Str(cs)) {
            Some(it) => {
                &&& walk(it, cs.len()).1.len() == cs.len()
                &&& forall|i: int| 0 <= i < cs.len() ==> #[trigger] walk(it, cs.len()).1[i] == ValueV::Char(cs[i])
                &&& iter_next_spec(walk(it, cs.len()).0).1 is None
            },
            None => false,
        },
{
    lemma_walk_text(cs, 0);
}



proof fn lemma_seq_order_at(xs: Seq<ValueV>, ys: Seq<ValueV>, i: int)
    requires
        0 <= i < xs.len(),
        i < ys.len(),
        forall|j: int| 0 <= j < i ==> #[trigger] vord(xs[j], ys[j]) == Some(Order::Equal),
        vord(xs[i], ys[i]) != Some(Order::Equal),
    ensures
        crate::relate::seq_vord(xs, ys) == vord(xs[i], ys[i]),
    decreases i,
{
    if i > 0 {
        assert(vord(xs[0], ys[0]) == Some(Order::Equal));
        assert forall|j: int| 0 <= j < i - 1 implies #[trigger] vord(xs.drop_first()[j], ys.drop_first()[j]) == Some(
            Order::Equal,
        ) by {
            assert(vord(xs[j + 1], ys[j + 1]) == Some(Order::Equal));
        }
        lemma_seq_order_at(xs.drop_first(), ys.drop_first(), i - 1);
    }
}

/// Arrays compare lexicographically: when the elements before position `i`
/// compare equal and those at `i` do not, the arrays compare as those
/// elements do (or cannot be compared, when they cannot), whatever their
/// lengths.
pub proof fn law_array_order_first_difference(xs: Seq<ValueV>, ys: Seq<ValueV>, i: int)
    requires
        0 <= i < xs.len(),
        i < ys.len(),
        forall|j: int| 0 <= j < i ==> #[trigger] vord(xs[j], ys[j]) == Some(Order::Equal),
        vord(xs[i], ys[i]) != Some(Order::Equal),
    ensures
        vord(ValueV::Array(xs), ValueV::Array(ys)) == vord(xs[i], ys[i]),
{
    lemma_seq_order_at(xs, ys, i);
}

proof fn lemma_seq_order_prefix(xs: Seq<ValueV>, ys: Seq<ValueV>)
    requires
        xs.len() < ys.len(),
        forall|j: int| 0 <= j < xs.len() ==> #[trigger] vord(xs[j], ys[j]) == Some(Order::Equal),
    ensures
        crate::relate::seq_vord(xs, ys) == Some(Order::Less),
    decreases xs.len(),
{
    if xs.len() > 0 {
        assert(vord(xs[0], ys[0]) == Some(Order::Equal));
        assert forall|j: int| 0 <= j < xs.len() - 1 implies #[trigger] vord(xs.drop_first()[j], ys.drop_first()[j])
            == Some(Order::Equal) by {
            assert(vord(xs[j + 1], ys[j + 1]) == Some(Order::Equal));
        }
        lemma_seq_order_prefix(xs.drop_first(), ys.drop_first());
    }
}

/// An array whose elements compare equal to the first elements of a longer
/// array is smaller than it.
pub proof fn law_array_order_prefix(xs: Seq<ValueV>, ys: Seq<ValueV>)
    requires
        xs.len() < ys.len(),
        forall|j: int| 0 <= j < xs.len() ==> #[trigger] vord(xs[j], ys[j]) == Some(Order::Equal),
    ensures
        vord(ValueV::Array(xs), ValueV::Array(ys)) == Some(Order::Less),
{
    lemma_seq_order_prefix(xs, ys);
}

/// `None` is below every `Some`, and `Ok` below every `Err`.
pub proof fn law_option_result_order(a: ValueV, b: ValueV)
    ensures
        vord(ValueV::Cat(None), ValueV::Cat(Some(Box::new(a)))) == Some(Order::Less),
        vord(ValueV::Cat(Some(Box::new(a))), ValueV::Cat(None)) == Some(Order::Greater),
        vord(ValueV::ResOk(Box::new(a)), ValueV::ResErr(Box::new(b))) == Some(Order::Less),
        vord(ValueV::ResErr(Box::new(b)), ValueV::ResOk(Box::new(a))) == Some(Order::Greater),
{
}

} // verus!
