//! How values are written out, compared for equality, and ordered.
use vstd::prelude::*;
use crate::value::{Value, ValueV, IterV, Iterator, vview, vview_seq, lemma_vview_seq, lemma_vview_seq_push};
use crate::text::{int_text, nat_digits, append_lit, append_text, push_int, push_digits};

verus! {

// ---------------------------------------------------------------------------
// Rendering
// ---------------------------------------------------------------------------

/// How an iterator is written inside `Iter<..>`.
pub open spec fn show_iter(it: IterV) -> Seq<char> {
    match it {
        IterV::String(_, _) => "String"@,
        IterV::Array(_, _) => "Set"@,
        IterV::Range(r) => "Range(Range { start: "@ + int_text(r.start as int) + ", end: "@
            + int_text(r.end as int) + ", step: "@ + int_text(r.step as int) + " })"@,
        IterV::Enumerate(_, _) => "Enumerate"@,
        IterV::Lines(_, _) => "Lines"@,
        IterV::Split(_, _, _) => "Split"@,
        IterV::SplitWhitespace(_, _) => "SplitWhitespace"@,
    }
}

/// How a value is written by `print`, `format` and string concatenation.
pub open spec fn show(v: ValueV) -> Seq<char>
    decreases v,
{
    match v {
        ValueV::Void => "()"@,
        ValueV::Number(n) => int_text(n as int),
        ValueV::Str(s) => s,
        ValueV::Char(c) => seq![c],
        ValueV::Bool(b) => if b {
            "true"@
        } else {
            "false"@
        },
        ValueV::Ref(i) => "REF<ID: "@ + nat_digits(i as nat) + ">"@,
        ValueV::Fn(_, _) => "FN"@,
        ValueV::Iter(it) => "Iter<"@ + show_iter(*it) + ">"@,
        ValueV::Array(xs) => "[ "@ + show_items(xs) + "]"@,
        ValueV::ResOk(x) => "Ok<"@ + show(*x) + ">"@,
        ValueV::ResErr(e) => "Err<"@ + show(*e) + ">"@,
        ValueV::Cat(c) => match c {
            Some(b) => "Cat<"@ + show(*b) + ">"@,
            None => "None"@,
        },
        ValueV::File(_, p) => p,
        ValueV::Tuple(xs) => "("@ + show_joined(xs) + ")"@,
    }
}

/// Each element followed by `", "`.
pub open spec fn show_items(xs: Seq<ValueV>) -> Seq<char>
    decreases xs,
{
    if xs.len() == 0 {
        Seq::empty()
    } else {
        show_items(xs.drop_last()) + show(xs.last()) + ", "@
    }
}

/// The elements separated by `", "`.
pub open spec fn show_joined(xs: Seq<ValueV>) -> Seq<char>
    decreases xs,
{
    if xs.len() == 0 {
        Seq::empty()
    } else if xs.len() == 1 {
        show(xs[0])
    } else {
        show_joined(xs.drop_last()) + ", "@ + show(xs.last())
    }
}

fn push_show_iter(it: &Iterator, out: &mut Vec<char>)
    ensures
        final(out)@ == old(out)@ + show_iter(it@),
{
    match it {
        Iterator::String(_, _) => append_lit(out, "String"),
        Iterator::Array(_, _) => append_lit(out, "Set"),
        Iterator::Range(r) => {
            append_lit(out, "Range(Range { start: ");
            push_int(out, r.start);
            append_lit(out, ", end: ");
            push_int(out, r.end);
            append_lit(out, ", step: ");
            push_int(out, r.step);
            append_lit(out, " })");
            assert(out@ =~= old(out)@ + show_iter(it@));
        },
        Iterator::Enumerate(_, _) => append_lit(out, "Enumerate"),
        Iterator::Lines(_) => append_lit(out, "Lines"),
        Iterator::Split(_) => append_lit(out, "Split"),
        Iterator::SplitWhitespace(_) => append_lit(out, "SplitWhitespace"),
    }
}

fn push_items(xs: &Vec<Value>, out: &mut Vec<char>)
    ensures
        final(out)@ == old(out)@ + show_items(vview_seq(xs@)),
    decreases xs, 0nat,
{
    let mut i: usize = 0;
    while i < xs.len()
        invariant
            i <= xs.len(),
            out@ == old(out)@ + show_items(vview_seq(xs@.take(i as int))),
        decreases xs.len() - i,
    {
        proof {
            assert(decreases_to!(xs => xs@));
            assert(decreases_to!(xs@ => xs@[i as int]));
        }
        push_show(&xs[i], out);
        append_lit(out, ", ");
        proof {
            let t = xs@.take(i + 1);
            assert(t.drop_last() =~= xs@.take(i as int));
            lemma_vview_seq_push(xs@.take(i as int), xs@[i as int]);
            assert(t =~= xs@.take(i as int).push(xs@[i as int]));
            let vs = vview_seq(t);
            assert(vs.drop_last() == vview_seq(xs@.take(i as int)));
            assert(out@ =~= old(out)@ + show_items(vs));
        }
        i = i + 1;
    }
    assert(xs@.take(xs.len() as int) =~= xs@);
}

fn push_joined(xs: &Vec<Value>, out: &mut Vec<char>)
    ensures
        final(out)@ == old(out)@ + show_joined(vview_seq(xs@)),
    decreases xs, 0nat,
{
    let mut i: usize = 0;
    while i < xs.len()
        invariant
            i <= xs.len(),
            out@ == old(out)@ + show_joined(vview_seq(xs@.take(i as int))),
        decreases xs.len() - i,
    {
        proof {
            assert(decreases_to!(xs => xs@));
            assert(decreases_to!(xs@ => xs@[i as int]));
        }
        if i > 0 {
            append_lit(out, ", ");
        }
        push_show(&xs[i], out);
        proof {
            let t = xs@.take(i + 1);
            assert(t.drop_last() =~= xs@.take(i as int));
            lemma_vview_seq_push(xs@.take(i as int), xs@[i as int]);
            assert(t =~= xs@.take(i as int).push(xs@[i as int]));
            let vs = vview_seq(t);
            lemma_vview_seq(t);
            assert(vs.drop_last() == vview_seq(xs@.take(i as int)));
            if i == 0 {
                assert(vview_seq(xs@.take(0)) =~= Seq::<ValueV>::empty());
                assert(vs[0] == vview(xs@[0]));
            }
            assert(out@ =~= old(out)@ + show_joined(vs));
        }
        i = i + 1;
    }
    assert(xs@.take(xs.len() as int) =~= xs@);
}

/// Appends the text of `v` to `out`.
pub fn push_show(v: &Value, out: &mut Vec<char>)
    ensures
        final(out)@ == old(out)@ + show(v@),
    decreases v, 1nat,
{
    match v {
        Value::Void => append_lit(out, "()"),
        Value::Number(n) => push_int(out, *n),
        Value::Str(s) => append_text(out, s),
        Value::Char(c) => {
            out.push(*c);
        },
        Value::Bool(b) => {
            if *b {
                append_lit(out, "true")
            } else {
                append_lit(out, "false")
            }
        },
        Value::Ref(i) => {
            append_lit(out, "REF<ID: ");
            push_digits(out, *i as u64);
            append_lit(out, ">");
            assert(out@ =~= old(out)@ + show(v@));
        },
        Value::Fn(_, _) => append_lit(out, "FN"),
        Value::Iter(it) => {
            append_lit(out, "Iter<");
            push_show_iter(it, out);
            append_lit(out, ">");
            assert(out@ =~= old(out)@ + show(v@));
        },
        Value::Array(xs) => {
            append_lit(out, "[ ");
            push_items(xs, out);
            append_lit(out, "]");
            assert(out@ =~= old(out)@ + show(v@));
        },
        Value::Result(r) => match &**r {
            Ok(x) => {
                append_lit(out, "Ok<");
                push_show(x, out);
                append_lit(out, ">");
                assert(out@ =~= old(out)@ + show(v@));
            },
            Err(e) => {
                append_lit(out, "Err<");
                push_show(e, out);
                append_lit(out, ">");
                assert(out@ =~= old(out)@ + show(v@));
            },
        },
        Value::Cat(c) => match c {
            Some(b) => {
                append_lit(out, "Cat<");
                push_show(b, out);
                append_lit(out, ">");
                assert(out@ =~= old(out)@ + show(v@));
            },
            None => append_lit(out, "None"),
        },
        Value::File(f) => append_text(out, &f.path),
        Value::Tuple(xs) => {
            append_lit(out, "(");
            push_joined(xs, out);
            append_lit(out, ")");
            assert(out@ =~= old(out)@ + show(v@));
        },
    }
}

impl Value {
    /// The text of this value.
    pub fn to_text(&self) -> (r: Vec<char>)
        ensures
            r@ == show(self@),
    {
        let mut r: Vec<char> = Vec::new();
        push_show(self, &mut r);
        assert(r@ =~= show(self@));
        r
    }
}

} // verus!
