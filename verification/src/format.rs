//! The `{}` templates of `format`, `print` and `write`.
use vstd::prelude::*;
use crate::errors::VMError;
use crate::value::{Value, ValueV, vview, vview_seq, lemma_vview_seq};
use crate::show::{show, push_show};
use crate::vm::VM;

verus! {

/// Whether the character at `k` is `c`.
pub open spec fn char_at(s: Seq<char>, k: int, c: char) -> bool {
    0 <= k < s.len() && s[k] == c
}

/// Fills the template `f` from position `i` on: `{{` and `}}` stand for a
/// brace, `{}` for the text of the next value (`vals[k]` next), onto `out`.
/// Gives the text and how many values were used.
pub open spec fn format_acc(f: Seq<char>, i: int, vals: Seq<ValueV>, k: nat, out: Seq<char>) -> Result<(Seq<char>, nat), VMError>
    decreases f.len() - i,
{
    if i < 0 || i >= f.len() {
        Ok((out, k))
    } else if f[i] == '{' {
        if char_at(f, i + 1, '{') {
            format_acc(f, i + 2, vals, k, out.push('{'))
        } else if char_at(f, i + 1, '}') {
            if k >= vals.len() {
                Err(VMError::NeedMoreArgs)
            } else {
                format_acc(f, i + 2, vals, k + 1, out + show(vals[k as int]))
            }
        } else {
            Err(VMError::BadArgument)
        }
    } else if f[i] == '}' {
        if char_at(f, i + 1, '}') {
            format_acc(f, i + 2, vals, k, out.push('}'))
        } else {
            Err(VMError::BadArgument)
        }
    } else {
        format_acc(f, i + 1, vals, k, out.push(f[i]))
    }
}

/// The text of the template `args[0]` filled with the other arguments,
/// which must all be used.
pub open spec fn format_spec(args: Seq<ValueV>) -> Result<Seq<char>, VMError> {
    if args.len() == 0 {
        Err(VMError::NeedMoreArgs)
    } else {
        match format_acc(show(args[0]), 0, args.drop_first(), 0, Seq::empty()) {
            Ok((o, k)) => if k < args.len() - 1 {
                Err(VMError::TooManyArgs)
            } else {
                Ok(o)
            },
            Err(e) => Err(e),
        }
    }
}

/// What `write`/`print` send: the filled template, and a newline after it
/// when `newline`.
pub open spec fn write_spec(args: Seq<ValueV>, newline: bool) -> Result<Seq<char>, VMError> {
    match format_spec(args) {
        Ok(o) => Ok(if newline {
            o.push('\n')
        } else {
            o
        }),
        Err(e) => Err(e),
    }
}

impl VM {
    /// Fills the template `args[0]` with the texts of the other arguments.
    pub fn format(args: &[Value]) -> (r: Result<Vec<char>, VMError>)
        ensures
            match format_spec(vview_seq(args@)) {
                Ok(o) => r is Ok && r->Ok_0@ == o,
                Err(e) => r == Err::<Vec<char>, VMError>(e),
            },
    {
        proof {
            lemma_vview_seq(args@);
        }
        if args.len() == 0 {
            return Err(VMError::NeedMoreArgs);
        }
        let ghost vals = vview_seq(args@).drop_first();
        let fmt = args[0].to_text();
        let ghost f = fmt@;
        let mut out: Vec<char> = Vec::new();
        let mut i: usize = 0;
        let mut k: usize = 0;
        while i < fmt.len()
            invariant
                i <= fmt.len(),
                fmt@ == f,
                f == show(vview_seq(args@)[0]),
                args@.len() >= 1,
                k <= vals.len(),
                k < args.len(),
                vals == vview_seq(args@).drop_first(),
                vview_seq(args@).len() == args@.len(),
                forall|j: int| 0 <= j < args@.len() ==> #[trigger] vview_seq(args@)[j] == vview(args@[j]),
                format_acc(f, 0, vals, 0, Seq::empty()) == format_acc(f, i as int, vals, k as nat, out@),
            decreases fmt.len() - i,
        {
            let c = fmt[i];
            if c == '{' {
                if i + 1 < fmt.len() && fmt[i + 1] == '{' {
                    out.push('{');
                    i = i + 2;
                } else if i + 1 < fmt.len() && fmt[i + 1] == '}' {
                    if k + 1 >= args.len() {
                        return Err(VMError::NeedMoreArgs);
                    }
                    let ghost before = out@;
                    push_show(&args[k + 1], &mut out);
                    assert(vals[k as int] == vview(args@[k + 1]));
                    k = k + 1;
                    i = i + 2;
                } else {
                    return Err(VMError::BadArgument);
                }
            } else if c == '}' {
                if i + 1 < fmt.len() && fmt[i + 1] == '}' {
                    out.push('}');
                    i = i + 2;
                } else {
                    return Err(VMError::BadArgument);
                }
            } else {
                out.push(c);
                i = i + 1;
            }
        }
        if k + 1 < args.len() {
            return Err(VMError::TooManyArgs);
        }
        Ok(out)
    }

    /// The text `write` and `print` send for `args`: the filled template,
    /// with a newline when `newline`.
    pub fn write(args: &[Value], newline: bool) -> (r: Result<Vec<char>, VMError>)
        ensures
            match write_spec(vview_seq(args@), newline) {
                Ok(o) => r is Ok && r->Ok_0@ == o,
                Err(e) => r == Err::<Vec<char>, VMError>(e),
            },
    {
        match VM::format(args) {
            Ok(mut o) => {
                if newline {
                    o.push('\n');
                }
                Ok(o)
            },
            Err(e) => Err(e),
        }
    }
}

} // verus!
