//! The compiler's state, its moves over the token stream, and the tables
//! it consults: builtin numbers, builtin result types and type matching.
use vstd::prelude::*;
use std::collections::HashMap;
use rustc_hash::FxBuildHasher;
use crate::errors::CompilerError;
use crate::lexer::{Lexer, Token, lex, token_ok};
use crate::op::Op;
use crate::types::Type;
use crate::scope::{VarInfo, fx_insert, fx_get, fx_remove, fx_contains_key};
use crate::text::{text_is, slice_text, same_text};

verus! {

/// What a compile error says; the host renders it with the source line.
#[derive(Debug)]
pub enum Message {
    Plain(Vec<char>),
    /// `Expected <token>, got <token>`.
    Expected(Token, Token),
    /// `Expected number for index, finded: <type>`.
    IndexType(Type),
    /// `Return type mismatch: <type> -- <type>`.
    ReturnMismatch(Type, Type),
    /// `Expected bool in if condition: <type>`.
    IfCondition(Type),
}

/// A compile error and the line and column of the lexer when it was found.
#[derive(Debug)]
pub struct Diagnostic {
    pub message: Message,
    pub line: usize,
    pub col: usize,
}

/// A loop being compiled: where `continue` jumps, and the `break` jumps
/// still to be pointed past the loop.
pub struct LoopContext {
    pub start: usize,
    pub breaks: Vec<usize>,
}

/// Compiles a program in one pass over its tokens.
pub struct Compiler {
    code: Vec<Op>,
    current_token: Token,
    lexer: Lexer,
    variables: HashMap<usize, VarInfo, FxBuildHasher>,
    functions_args: HashMap<usize, Vec<Type>, FxBuildHasher>,
    /// The names seen so far; a name's key in the tables is its position.
    names: Vec<Vec<char>>,
    next_slot: usize,
    scope_depth: usize,
    scope_changes: Vec<(usize, Option<VarInfo>)>,
    loop_contexts: Vec<LoopContext>,
    /// The last compile error reported, if any.
    pub error: Option<Diagnostic>,
}

// ---------------------------------------------------------------------------
// Specifications
// ---------------------------------------------------------------------------

/// A jump whose target the compiler fills in later.
pub open spec fn is_plug(op: Op) -> bool {
    op is Jump || op is JumpIfFalse || op is JumpIfTrue || op is IterNext
}

/// `b` is an instruction of the same kind as `a` where `a` has a target.
pub open spec fn same_kind(a: Op, b: Op) -> bool {
    &&& (a is Jump ==> b is Jump)
    &&& (a is JumpIfFalse ==> b is JumpIfFalse)
    &&& (a is JumpIfTrue ==> b is JumpIfTrue)
    &&& (a is IterNext ==> b is IterNext)
    &&& (a is SafeUnwL ==> b is SafeUnwL)
    &&& (a is SafeUnwR ==> b is SafeUnwR)
}

/// `new` extends `old`: nothing is removed, and every instruction with a
/// target keeps its kind.
pub open spec fn code_extends(old: Seq<Op>, new: Seq<Op>) -> bool {
    &&& old.len() <= new.len()
    &&& forall|i: int| 0 <= i < old.len() ==> same_kind(old[i], #[trigger] new[i])
}

/// No name is stored twice.
pub open spec fn distinct_names(names: Seq<Vec<char>>) -> bool {
    forall|i: int, j: int| 0 <= i < names.len() && 0 <= j < names.len() && i != j ==> names[i]@ != names[j]@
}

/// Whether `a` and `b` are types that fit each other: an inferred type fits
/// anything, containers fit when their contents do, and `Result<(), _>`
/// fits the void type.
pub open spec fn types_match_spec(expected: Type, actual: Type) -> bool
    decreases expected,
{
    if expected is Infer || actual is Infer {
        true
    } else {
        match (expected, actual) {
            (Type::Array(a), Type::Array(b)) => types_match_spec(*a, *b),
            (Type::Iter(a), Type::Iter(b)) => types_match_spec(*a, *b),
            (Type::Cat(a), Type::Cat(b)) => types_match_spec(*a, *b),
            (Type::Result(a), Type::Void) => a.0 == Type::Void,
            (Type::Result(a), Type::Result(b)) => types_match_spec(a.0, b.0) && types_match_spec(a.1, b.1),
            (a, b) => a == b,
        }
    }
}

/// The number of the builtin called `name`.
pub open spec fn func_code_spec(name: Seq<char>) -> Option<i64> {
    if name == "len"@ {
        Some(1)
    } else if name == "starts_with"@ {
        Some(2)
    } else if name == "readch"@ {
        Some(3)
    } else if name == "format"@ {
        Some(4)
    } else if name == "enumerate"@ {
        Some(5)
    } else if name == "read"@ {
        Some(6)
    } else if name == "create"@ || name == "truncate"@ {
        Some(7)
    } else if name == "open"@ {
        Some(8)
    } else if name == "is_ok"@ {
        Some(9)
    } else if name == "is_empty"@ {
        Some(10)
    } else if name == "is_some"@ {
        Some(11)
    } else if name == "push"@ {
        Some(12)
    } else if name == "readln"@ {
        Some(13)
    } else if name == "parse"@ {
        Some(14)
    } else if name == "step"@ {
        Some(15)
    } else if name == "lines"@ {
        Some(16)
    } else if name == "split_whitespace"@ {
        Some(17)
    } else if name == "split"@ {
        Some(18)
    } else if name == "nth"@ {
        Some(19)
    } else if name == "collect"@ {
        Some(20)
    } else if name == "contains"@ {
        Some(21)
    } else if name == "to_lower"@ {
        Some(22)
    } else if name == "to_upper"@ {
        Some(23)
    } else if name == "write"@ {
        Some(24)
    } else if name == "writeln"@ {
        Some(25)
    } else if name == "print"@ {
        Some(26)
    } else if name == "println"@ {
        Some(27)
    } else if name == "filter_map"@ {
        Some(28)
    } else if name == "map"@ {
        Some(29)
    } else if name == "clear_console"@ {
        Some(30)
    } else if name == "filter"@ {
        Some(31)
    } else {
        None
    }
}

pub open spec fn boxed(t: Type) -> Box<Type> {
    Box::new(t)
}

/// The type a builtin call gives.
pub open spec fn func_return_type_spec(name: Seq<char>) -> Type {
    if name == "len"@ {
        Type::Number
    } else if name == "starts_with"@ {
        Type::Bool
    } else if name == "readch"@ || name == "read"@ {
        Type::Result(Box::new((Type::Str, Type::Str)))
    } else if name == "format"@ {
        Type::Str
    } else if name == "enumerate"@ {
        Type::Iter(Box::new(Type::Number))
    } else if name == "create"@ || name == "truncate"@ || name == "open"@ {
        Type::Result(Box::new((Type::File, Type::Str)))
    } else if name == "is_ok"@ || name == "is_empty"@ || name == "is_some"@ {
        Type::Bool
    } else if name == "push"@ {
        Type::Void
    } else if name == "readln"@ {
        Type::Str
    } else if name == "parse"@ {
        Type::Result(Box::new((Type::Number, Type::Str)))
    } else if name == "step"@ {
        Type::Iter(Box::new(Type::Number))
    } else if name == "lines"@ || name == "split_whitespace"@ || name == "split"@ {
        Type::Iter(Box::new(Type::Str))
    } else if name == "nth"@ {
        Type::Cat(Box::new(Type::Infer))
    } else if name == "collect"@ {
        Type::Array(Box::new(Type::Infer))
    } else if name == "contains"@ {
        Type::Bool
    } else if name == "to_lower"@ || name == "to_upper"@ {
        Type::Str
    } else if name == "write"@ || name == "writeln"@ || name == "print"@ || name == "println"@ {
        Type::Result(Box::new((Type::Void, Type::Str)))
    } else if name == "clear_console"@ {
        Type::Void
    } else if name == "filter_map"@ || name == "map"@ || name == "filter"@ {
        Type::Array(Box::new(Type::Infer))
    } else {
        Type::Infer
    }
}

/// Whether the arguments of a call of the builtin `name` are acceptable.
pub open spec fn std_args_ok(name: Seq<char>, args: Seq<Type>) -> bool {
    if name == "len"@ || name == "enumerate"@ || name == "is_ok"@ || name == "is_empty"@ || name == "is_some"@
        || name == "collect"@ || name == "readch"@ || name == "read"@ {
        args.len() == 1
    } else if name == "readln"@ || name == "clear_console"@ || name == "format"@ || name == "write"@ || name
        == "writeln"@ || name == "print"@ || name == "println"@ {
        true
    } else if name == "open"@ {
        args.len() > 0 && types_match_spec(Type::Str, args[0])
    } else if name == "create"@ || name == "truncate"@ || name == "parse"@ || name == "lines"@ || name
        == "split_whitespace"@ || name == "to_lower"@ || name == "to_upper"@ {
        args.len() == 1 && types_match_spec(Type::Str, args[0])
    } else if name == "starts_with"@ || name == "split"@ {
        args.len() == 2 && types_match_spec(Type::Str, args[0]) && (types_match_spec(Type::Str, args[1])
            || types_match_spec(Type::Char, args[1]))
    } else if name == "contains"@ {
        args.len() > 1
    } else if name == "push"@ || name == "step"@ || name == "filter_map"@ || name == "map"@ || name == "filter"@ {
        args.len() == 2
    } else if name == "nth"@ {
        args.len() == 2 && types_match_spec(Type::Number, args[1])
    } else {
        true
    }
}

// ---------------------------------------------------------------------------
// The compiler's state
// ---------------------------------------------------------------------------

impl Compiler {
    /// The source text.
    pub closed spec fn text(&self) -> Seq<char> {
        self.lexer.text()
    }

    /// Where the lexer stands: just past the current token.
    pub closed spec fn pos(&self) -> int {
        self.lexer.index()
    }

    /// The token being looked at.
    pub closed spec fn token(&self) -> Token {
        self.current_token
    }

    /// The code emitted so far.
    pub closed spec fn code(&self) -> Seq<Op> {
        self.code@
    }

    /// What is left to read: the characters after the lexer, and the
    /// current token unless it is the end.
    pub closed spec fn fuel(&self) -> int {
        self.lexer.text().len() - self.lexer.index() + if self.current_token is Eof { 0int } else { 1int }
    }

    /// The open loops' `break` jumps are still jumps within the code.
    pub closed spec fn loops_ok(&self) -> bool {
        forall|i: int, j: int|
            0 <= i < self.loop_contexts@.len() && 0 <= j < self.loop_contexts@[i].breaks@.len() ==> {
                let b = #[trigger] self.loop_contexts@[i].breaks@[j];
                &&& b < self.code@.len()
                &&& self.code@[b as int] is Jump
            }
    }

    /// Opening a loop with no `break` yet keeps the open loops' jumps valid.
    proof fn lemma_open_loop(c: Compiler, d: Compiler)
        requires
            c.loops_ok(),
            d.code@ == c.code@,
            d.loop_contexts@.len() == c.loop_contexts@.len() + 1,
            forall|i: int| 0 <= i < c.loop_contexts@.len() ==> #[trigger] d.loop_contexts@[i] == c.loop_contexts@[i],
            d.loop_contexts@.last().breaks@.len() == 0,
        ensures
            d.loops_ok(),
    {
        assert forall|i: int, j: int|
            0 <= i < d.loop_contexts@.len() && 0 <= j < d.loop_contexts@[i].breaks@.len() implies {
                let b = #[trigger] d.loop_contexts@[i].breaks@[j];
                &&& b < d.code@.len()
                &&& d.code@[b as int] is Jump
            } by {
            assert(i < c.loop_contexts@.len());
            assert(d.loop_contexts@[i] == c.loop_contexts@[i]);
        }
    }

    /// The compiler's invariant.
    pub closed spec fn inv(&self) -> bool {
        &&& self.lexer.wf()
        &&& 0 <= self.lexer.index() <= self.lexer.text().len()
        &&& (self.current_token is Eof ==> self.lexer.index() == self.lexer.text().len())
        &&& token_ok(self.current_token, self.lexer.text().len())
        &&& distinct_names(self.names@)
        &&& self.loops_ok()
        &&& self.keys_named()
    }

    /// Every variable and every recorded declaration is under the key of a
    /// name seen so far.
    pub closed spec fn keys_named(&self) -> bool {
        &&& forall|k: usize| #[trigger] self.variables@.contains_key(k) ==> k < self.names@.len()
        &&& forall|k: usize| #[trigger] self.functions_args@.contains_key(k) ==> k < self.names@.len()
        &&& forall|i: int| 0 <= i < self.scope_changes@.len() ==> (#[trigger] self.scope_changes@[i]).0 < self.names@.len()
    }

    /// `self` and `other` agree in everything but the last error.
    pub closed spec fn same_state(&self, other: &Compiler) -> bool {
        &&& self.code == other.code
        &&& self.current_token == other.current_token
        &&& self.lexer == other.lexer
        &&& self.variables == other.variables
        &&& self.functions_args == other.functions_args
        &&& self.names == other.names
        &&& self.next_slot == other.next_slot
        &&& self.scope_depth == other.scope_depth
        &&& self.scope_changes == other.scope_changes
        &&& self.loop_contexts == other.loop_contexts
    }

    /// `self` and `other` agree in the tables, counters and open loops.
    pub closed spec fn rest_same(&self, other: &Compiler) -> bool {
        &&& self.loop_contexts == other.loop_contexts
        &&& self.variables == other.variables
        &&& self.names == other.names
        &&& self.next_slot == other.next_slot
        &&& self.scope_depth == other.scope_depth
        &&& self.scope_changes == other.scope_changes
        &&& self.functions_args == other.functions_args
    }

    /// `self` and `other` agree in the code, the token stream, the names
    /// and the open loops.
    pub closed spec fn steady(&self, other: &Compiler) -> bool {
        &&& self.code == other.code
        &&& self.current_token == other.current_token
        &&& self.lexer == other.lexer
        &&& self.names == other.names
        &&& self.loop_contexts == other.loop_contexts
    }

    /// `self` and `other` agree in the tables and counters, except that
    /// `self` may know more names.
    pub closed spec fn same_but_names(&self, other: &Compiler) -> bool {
        &&& self.loop_contexts == other.loop_contexts
        &&& self.variables == other.variables
        &&& self.next_slot == other.next_slot
        &&& self.scope_depth == other.scope_depth
        &&& self.scope_changes == other.scope_changes
        &&& self.functions_args == other.functions_args
    }

    /// The key a name written `w` is known under, if it has been seen.
    pub closed spec fn name_key(&self, w: Seq<char>) -> Option<usize> {
        if exists|i: int| 0 <= i < self.names@.len() && #[trigger] self.names@[i]@ == w {
            Some((choose|i: int| 0 <= i < self.names@.len() && #[trigger] self.names@[i]@ == w) as usize)
        } else {
            None
        }
    }

    /// When the characters `a..b` name a variable in scope, declared at a
    /// depth no deeper than the current one, and the token after them makes
    /// the name a read of the variable (see `ends_name`): the instruction
    /// that loads the variable, and its type.
    pub open spec fn ident_load(&self, a: usize, b: usize) -> Option<(Op, Type)> {
        self.load_at(a, b, self.pos())
    }

    /// For the assignment `x = v` that `self` looks at, where `x` (the
    /// characters `a..b`) is a variable in scope declared at a depth no
    /// deeper than the current one and `v` is a number, character or boolean
    /// literal after which no operator follows: the instruction that stores
    /// into `x`, the literal's instruction, the type `x` has (`Infer` when
    /// none is known) and the literal's type.
    pub open spec fn literal_assign(&self, a: usize, b: usize) -> Option<(Op, Op, Type, Type)> {
        let (t1, p1) = lex(self.text(), self.pos());
        let (t2, p2) = lex(self.text(), p1);
        let t3 = lex(self.text(), p2).0;
        match (self.name_key(self.text().subrange(a as int, b as int)), literal_of(t2)) {
            (Some(k), Some((lit, lt))) => match entry(self.vars(), k) {
                Some(info) => if t1 is Assign && !binds(11, t3) && info.depth <= self.depth() {
                    Some(
                        (
                            if info.depth == 0 {
                                Op::StoreGlobal(info.slot)
                            } else {
                                Op::StoreLocal(info.slot, (self.depth() - info.depth) as usize)
                            },
                            lit,
                            match info.ty {
                                Some(t) => t,
                                None => Type::Infer,
                            },
                            lt,
                        ),
                    )
                } else {
                    None
                },
                None => None,
            },
            _ => None,
        }
    }

    /// `ident_load` for a name whose token ends just before `pos`.
    pub open spec fn load_at(&self, a: usize, b: usize, pos: int) -> Option<(Op, Type)> {
        let (t1, p1) = lex(self.text(), pos);
        match self.name_key(self.text().subrange(a as int, b as int)) {
            Some(k) => match entry(self.vars(), k) {
                Some(info) => if ends_name(t1) && info.depth <= self.depth() {
                    Some(
                        (
                            if info.depth == 0 {
                                Op::LoadGlobal(info.slot)
                            } else {
                                Op::LoadLocal(info.slot, (self.depth() - info.depth) as usize)
                            },
                            match info.ty {
                                Some(t) => t,
                                None => Type::Infer,
                            },
                        ),
                    )
                } else {
                    None
                },
                None => None,
            },
            None => None,
        }
    }

    /// The declared parameter types of the functions compiled so far, by
    /// the key of their name.
    pub closed spec fn fargs(&self) -> Map<usize, Vec<Type>> {
        self.functions_args@
    }

    /// `self` knows the same names, under the same keys, as `other`.
    pub closed spec fn names_same(&self, other: &Compiler) -> bool {
        self.names == other.names
    }

    /// How many names have been seen; their keys are the numbers below it.
    pub closed spec fn name_count(&self) -> nat {
        self.names@.len()
    }

    /// The variables in scope, by the key of their name.
    pub closed spec fn vars(&self) -> Map<usize, VarInfo> {
        self.variables@
    }

    /// The declarations made in the open scopes, oldest first: each name
    /// with what it stood for before.
    pub closed spec fn changes(&self) -> Seq<(usize, Option<VarInfo>)> {
        self.scope_changes@
    }

    /// How many functions deep the code being compiled is.
    pub closed spec fn depth(&self) -> usize {
        self.scope_depth
    }

    /// The loops being compiled, innermost last.
    pub closed spec fn loops(&self) -> Seq<LoopContext> {
        self.loop_contexts@
    }

    /// The last compile error reported.
    pub closed spec fn last_error(&self) -> Option<Diagnostic> {
        self.error
    }

    /// What every parsing step keeps: the invariant, the text, code that
    /// only grows, no more left to read than before, the names seen, and
    /// the declarations recorded for the scopes that were open before.
    pub closed spec fn kept(&self, old: &Compiler) -> bool {
        &&& self.inv()
        &&& self.text() == old.text()
        &&& code_extends(old.code@, self.code@)
        &&& self.fuel() <= old.fuel()
        &&& old.names@.len() <= self.names@.len()
        &&& old.scope_changes@.len() <= self.scope_changes@.len()
        &&& forall|k: int| 0 <= k < old.scope_changes@.len() ==> #[trigger] self.scope_changes@[k] == old.scope_changes@[k]
    }

    /// What a parsing step that succeeded leaves as it found it: the number
    /// of open loops and the function depth.
    pub closed spec fn balanced(&self, old: &Compiler) -> bool {
        &&& self.loop_contexts@.len() == old.loop_contexts@.len()
        &&& self.scope_depth == old.scope_depth
    }

    /// The next free variable slot.
    pub closed spec fn slot_count(&self) -> usize {
        self.next_slot
    }

    /// A parsing step that succeeded read at least one token and emitted
    /// at least one instruction.
    pub closed spec fn progressed(&self, old: &Compiler) -> bool {
        &&& self.fuel() < old.fuel()
        &&& self.code@.len() > old.code@.len()
    }

    /// The compiler looks at a number, character or boolean literal, and
    /// the token after it closes the expression.
    pub open spec fn at_lone_literal(&self) -> bool {
        &&& literal_of(self.token()) is Some
        &&& closes(lex(self.text(), self.pos()).0)
    }

    /// `self` has read the literal `old` looked at, as the whole of an
    /// expression: its instruction was emitted, nothing else, and the
    /// closing token after it is current. `r` gives the literal's type.
    pub open spec fn read_lone_literal(&self, old: &Compiler, r: Result<Type, CompilerError>) -> bool {
        match literal_of(old.token()) {
            Some((op, t)) => {
                &&& r == Ok::<Type, CompilerError>(t)
                &&& self.code() == old.code().push(op)
                &&& (self.token(), self.pos()) == lex(old.text(), old.pos())
                &&& self.text() == old.text()
                &&& self.loops() == old.loops()
                &&& self.vars() == old.vars()
                &&& self.slot_count() == old.slot_count()
                &&& self.depth() == old.depth()
            },
            None => false,
        }
    }

    /// The single operand `self` looks at, when it is one: a number,
    /// character or boolean literal, or the name of a variable in scope
    /// read as its value (see `ident_load`). Gives the operand's
    /// instruction and type.
    pub open spec fn operand(&self) -> Option<(Op, Type)> {
        self.operand_at(self.token(), self.pos())
    }

    /// `operand` for the token `tok`, which ends just before `pos`.
    pub open spec fn operand_at(&self, tok: Token, pos: int) -> Option<(Op, Type)> {
        match tok {
            Token::Ident(a, b) => self.load_at(a, b, pos),
            t => literal_of(t),
        }
    }

    /// `self` looks at an operand after which no operator of precedence
    /// `level` or tighter follows (see `binds`), so the parser of that
    /// level reads the operand alone.
    pub open spec fn at_operand(&self, level: int) -> bool {
        &&& self.operand() is Some
        &&& !binds(level, lex(self.text(), self.pos()).0)
    }

    /// `self` has read the operand `old` looked at, alone: its instruction
    /// was emitted, nothing else changed, and the token after it is
    /// current. `r` gives the operand's type.
    pub open spec fn read_operand(&self, old: &Compiler, r: Result<Type, CompilerError>) -> bool {
        match old.operand() {
            Some((op, t)) => {
                &&& r == Ok::<Type, CompilerError>(t)
                &&& self.code() == old.code().push(op)
                &&& (self.token(), self.pos()) == lex(old.text(), old.pos())
                &&& self.text() == old.text()
                &&& self.loops() == old.loops()
                &&& self.vars() == old.vars()
                &&& self.fargs() == old.fargs()
                &&& self.names_same(old)
                &&& self.slot_count() == old.slot_count()
                &&& self.depth() == old.depth()
            },
            None => false,
        }
    }

    /// For the sum or difference of two operands (see `operand`) of type
    /// `Number` or of a type not yet known that `self` looks at, after which
    /// no `+`, `-` or tighter operator follows: the two operands'
    /// instructions and the instruction of the operator.
    pub open spec fn sum_at(&self) -> Option<(Op, Op, Op)> {
        self.sum_from(self.token(), self.pos())
    }

    /// `sum_at` for the sum that starts with the token `tok`, which ends
    /// just before `pos`.
    pub open spec fn sum_from(&self, tok: Token, pos: int) -> Option<(Op, Op, Op)> {
        let (t1, p1) = lex(self.text(), pos);
        let (t2, p2) = lex(self.text(), p1);
        let t3 = lex(self.text(), p2).0;
        match (self.operand_at(tok, pos), self.operand_at(t2, p2)) {
            (Some((o1, x)), Some((o2, y))) => if (t1 is Plus || t1 is Minus) && !binds(4, t3) && (x is Number
                || x is Infer) && (y is Number || y is Infer) {
                Some((o1, o2, if t1 is Plus { Op::Plus } else { Op::Sub }))
            } else {
                None
            },
            _ => None,
        }
    }

    /// For a `match` whose keyword `self` has just read and that begins
    /// `match s { l1 => v1, l2 => v2` followed by `,` or `}`, where `s` is an
    /// operand (see `operand`), `l1` and `l2` are number, character or
    /// boolean literal patterns and `v1`, `v2` are number, character or
    /// boolean literals: the types of `v1` and `v2`.
    pub open spec fn two_literal_arms(&self) -> Option<(Type, Type)> {
        let text = self.text();
        let (t1, p1) = lex(text, self.pos());
        let (t2, p2) = lex(text, p1);
        let (t3, p3) = lex(text, p2);
        let (t4, p4) = lex(text, p3);
        let (t5, p5) = lex(text, p4);
        let (t6, p6) = lex(text, p5);
        let (t7, p7) = lex(text, p6);
        let (t8, p8) = lex(text, p7);
        let (t9, p9) = lex(text, p8);
        if self.operand_at(t1, p1) is Some && t2 is Begin && literal_of(t3) is Some && t4 is FatArrow && t6 is Comma
            && literal_of(t7) is Some && t8 is FatArrow {
            match (arm_literal(text, t5, p5), arm_literal(text, t9, p9)) {
                (Some((_, x)), Some((_, y))) => Some((x, y)),
                _ => None,
            }
        } else {
            None
        }
    }

    /// For an array of two number, character or boolean literals of one
    /// type that `self` looks at, `[l1, l2]`, after which no indexing,
    /// method call or `?` follows: the literals' instructions and their
    /// type.
    pub open spec fn pair_array(&self) -> Option<(Op, Op, Type)> {
        let (t1, p1) = lex(self.text(), self.pos());
        let (t2, p2) = lex(self.text(), p1);
        let (t3, p3) = lex(self.text(), p2);
        let (t4, p4) = lex(self.text(), p3);
        let t5 = lex(self.text(), p4).0;
        match (literal_of(t1), literal_of(t3)) {
            (Some((o1, x)), Some((o2, y))) => if self.token() is LBracket && t2 is Comma && t4 is RBracket && x == y
                && !binds(0, t5) {
                Some((o1, o2, x))
            } else {
                None
            },
            _ => None,
        }
    }

    /// `self` looks at a text literal after which no operator of
    /// precedence `level` or tighter follows (see `binds`).
    pub open spec fn at_text(&self, level: int) -> bool {
        self.token() is String && !binds(level, lex(self.text(), self.pos()).0)
    }

    /// `self` has read the text literal `old` looked at, alone: `r` gives
    /// the type `Str` and the token after the literal is current.
    pub open spec fn read_text(&self, old: &Compiler, r: Result<Type, CompilerError>) -> bool {
        &&& r == Ok::<Type, CompilerError>(Type::Str)
        &&& (self.token(), self.pos()) == lex(old.text(), old.pos())
        &&& self.text() == old.text()
    }

    /// The token after the second operand of the sum `sum_at` describes,
    /// and the position just after that token.
    pub open spec fn sum_end(&self) -> (Token, int) {
        sum_end_from(self.text(), self.pos())
    }

    /// For a block `{ a + b }` (or the whole program read as one block)
    /// that `self` looks at, holding only a sum that `sum_from` describes:
    /// the two operands' instructions and the operator's.
    pub open spec fn sum_block(&self) -> Option<(Op, Op, Op)> {
        let (t1, p1) = lex(self.text(), self.pos());
        let t = sum_end_from(self.text(), p1).0;
        if self.token() is Begin && (t is End || t is Eof) {
            self.sum_from(t1, p1)
        } else {
            None
        }
    }

    /// For the comparison `a op b` of two operands (see `operand`) that
    /// `self` looks at, where `op` is `<`, `<=`, `>` or `>=` and no
    /// comparison or looser-binding operator of precedence up to that of
    /// comparisons follows `b`: the operands' instructions and types, and
    /// the instruction of the comparison (see `rel_op`).
    pub open spec fn rel_at(&self) -> Option<(Op, Type, Op, Type, Op)> {
        let (t1, p1) = lex(self.text(), self.pos());
        let (t2, p2) = lex(self.text(), p1);
        let t3 = lex(self.text(), p2).0;
        match (self.operand(), self.operand_at(t2, p2), rel_op(t1)) {
            (Some((o1, x)), Some((o2, y)), Some(op)) => if !binds(7, t3) {
                Some((o1, x, o2, y, op))
            } else {
                None
            },
            _ => None,
        }
    }

    /// For `a op b` that `self` looks at, where `a` and `b` are operands
    /// (see `operand`), `op` is an operator of precedence `level` (see
    /// `bin_op`), and no operator of that precedence or a tighter one
    /// follows `b`: the operands' instructions and types, and the
    /// operator's instruction.
    pub open spec fn bin_at(&self, level: int) -> Option<(Op, Type, Op, Type, Op)> {
        let (t1, p1) = lex(self.text(), self.pos());
        let (t2, p2) = lex(self.text(), p1);
        let t3 = lex(self.text(), p2).0;
        match (self.operand(), self.operand_at(t2, p2), bin_op(t1)) {
            (Some((o1, x)), Some((o2, y)), Some((l, op))) => if l == level && !binds(level, t3) {
                Some((o1, x, o2, y, op))
            } else {
                None
            },
            _ => None,
        }
    }

    /// For `a && b` (when `and` holds) or `a || b` (otherwise) that `self`
    /// looks at, where `a` and `b` are operands (see `operand`) and no
    /// operator of the precedence of that one or a tighter one follows
    /// `b`: the operands' instructions and types.
    pub open spec fn logic_at(&self, and: bool) -> Option<(Op, Type, Op, Type)> {
        let (t1, p1) = lex(self.text(), self.pos());
        let (t2, p2) = lex(self.text(), p1);
        let t3 = lex(self.text(), p2).0;
        let level = if and { 9int } else { 10int };
        match (self.operand(), self.operand_at(t2, p2)) {
            (Some((o1, x)), Some((o2, y))) => if (if and { t1 is LogicalAnd } else { t1 is Or }) && !binds(level, t3) {
                Some((o1, x, o2, y))
            } else {
                None
            },
            _ => None,
        }
    }

    /// `self` looks at a sum that `sum_at` describes, after which no
    /// operator of precedence `level` or tighter follows (see `binds`).
    pub open spec fn at_sum(&self, level: int) -> bool {
        self.sum_at() is Some && !binds(level, self.sum_end().0)
    }

    /// `self` has read the sum `old` looked at (see `sum_at`), alone: the
    /// two operands' instructions and the operator's were emitted, the
    /// token after the sum is current, and `r` gives the type `Number`.
    pub open spec fn read_sum(&self, old: &Compiler, r: Result<Type, CompilerError>) -> bool {
        match old.sum_at() {
            Some((o1, o2, op)) => {
                &&& r == Ok::<Type, CompilerError>(Type::Number)
                &&& self.code() == old.code() + seq![o1, o2, op]
                &&& (self.token(), self.pos()) == old.sum_end()
                &&& self.text() == old.text()
                &&& self.loops() == old.loops()
            },
            None => false,
        }
    }

    /// Whether the call of the function named by the characters `a..b`
    /// with the two literal arguments `tok ...` (see `two_literals`; `tok`
    /// ends just before `pos`) has the wrong arguments: a function compiled
    /// so far that does not take two, or a builtin whose argument check
    /// fails.
    pub open spec fn call_clash(&self, a: usize, b: usize, tok: Token, pos: int) -> bool {
        let w = self.text().subrange(a as int, b as int);
        match two_literals(self.text(), tok, pos) {
            Some((x, y)) => match self.name_key(w) {
                Some(k) => if self.fargs().contains_key(k) {
                    self.fargs()[k]@.len() != 2
                } else {
                    !std_args_ok(w, seq![x, y])
                },
                None => !std_args_ok(w, seq![x, y]),
            },
            None => false,
        }
    }

    /// Whether the characters `a..b` name no variable in scope.
    pub open spec fn unknown_name(&self, a: usize, b: usize) -> bool {
        match self.name_key(self.text().subrange(a as int, b as int)) {
            Some(k) => entry(self.vars(), k) is None,
            None => true,
        }
    }

    /// The compile error that the expression `self` looks at gives when the
    /// parser of precedence `level` (see `binds`) reads it, for the errors
    /// this covers: a name that is not in scope, read on its own, gives
    /// `UnfindedVar`; a call with two literal arguments that the called
    /// function does not take (see `call_clash`) and an array of two
    /// literals (numbers, characters, booleans or texts) of different types
    /// give `UnexpectedArg`; and, from level 3 on, a literal divided by the
    /// literal `0` gives `UnexpectedArg`.
    pub open spec fn expr_error(&self, level: int) -> Option<CompilerError> {
        self.expr_error_at(self.token(), self.pos(), level)
    }

    /// `expr_error` for the expression that starts with the token `tok`,
    /// which ends just before `pos`.
    pub open spec fn expr_error_at(&self, tok: Token, pos: int, level: int) -> Option<CompilerError> {
        let (t1, p1) = lex(self.text(), pos);
        let (t2, p2) = lex(self.text(), p1);
        let (t3, p3) = lex(self.text(), p2);
        let t4 = lex(self.text(), p3).0;
        match tok {
            Token::Ident(a, b) => if self.unknown_name(a, b) && closes(t1) && !(t1 is Comma) {
                Some(CompilerError::UnfindedVar)
            } else if t1 is LParen && self.call_clash(a, b, t2, p2) {
                Some(CompilerError::UnexpectedArg)
            } else {
                None
            },
            Token::LBracket => match (elem_type_of(t1), elem_type_of(t3)) {
                (Some(x), Some(y)) => if t2 is Comma && t4 is RBracket && x != y {
                    Some(CompilerError::UnexpectedArg)
                } else {
                    None
                },
                _ => None,
            },
            t => if level >= 3 && literal_of(t) is Some && t1 is Div && t2 == Token::Number(0) && !binds(2, t3) {
                Some(CompilerError::UnexpectedArg)
            } else {
                None
            },
        }
    }

    /// The compile error that the statement starting with the token `tok`
    /// (which ends just before `pos`) gives, for the errors this covers:
    /// those of `expr_error` for an expression statement, and `UnexpectedArg`
    /// for a `for` over a number, character or boolean literal.
    pub open spec fn stmt_error_at(&self, tok: Token, pos: int) -> Option<CompilerError> {
        match tok {
            Token::For => if for_over_literal(self.text(), pos) {
                Some(CompilerError::UnexpectedArg)
            } else {
                None
            },
            _ => self.expr_error_at(tok, pos, 11),
        }
    }

    /// The compile error that the first statement of the block `self` looks
    /// at gives, as `stmt_error_at` tells it, for a block in braces or a
    /// block of one statement.
    pub open spec fn block_error(&self) -> Option<CompilerError> {
        if self.token() is Begin {
            let (t1, p1) = lex(self.text(), self.pos());
            self.stmt_error_at(t1, p1)
        } else if self.token() is FatArrow {
            None
        } else {
            self.stmt_error_at(self.token(), self.pos())
        }
    }

    /// For a `for` without loop names whose keyword `self` has just read
    /// (`for in y block`): when `y` is a variable in scope whose type can be
    /// walked (an iterator, an array, or not known), and the block is one
    /// that `simple_block_at` describes, the load of `y` and the block's
    /// code.
    pub open spec fn for_without_names(&self) -> Option<(Op, Seq<Op>)> {
        let (t1, p1) = lex(self.text(), self.pos());
        let (t2, p2) = lex(self.text(), p1);
        let (t3, p3) = lex(self.text(), p2);
        match (t1, t2) {
            (Token::In, Token::Ident(ya, yb)) => match (self.load_at(ya, yb, p2), simple_block_at(self.text(), t3, p3)) {
                (Some((load, ty)), Some((ops, _))) => if ty is Iter || ty is Array || ty is Infer {
                    Some((load, ops))
                } else {
                    None
                },
                _ => None,
            },
            _ => None,
        }
    }

    /// What a block that `self` looks at compiles to, and its type, when the
    /// block is empty or holds one literal expression.
    pub open spec fn simple_block(&self) -> Option<(Seq<Op>, Type)> {
        simple_block_at(self.text(), self.token(), self.pos())
    }

    /// A compiler at the start of `source`, looking at an opening `Begin`
    /// so that the program is read as one block.
    pub fn new(source: &str) -> (r: Compiler)
        ensures
            r.inv(),
            r.text() == source@,
            r.pos() == 0,
            r.token() == Token::Begin,
            r.code() == Seq::<Op>::empty(),
            r.last_error() is None,
    {
        let lexer = Lexer::new(source);
        let r = Compiler {
            code: Vec::new(),
            current_token: Token::Begin,
            lexer,
            variables: HashMap::default(),
            functions_args: HashMap::default(),
            names: Vec::new(),
            next_slot: 0,
            scope_depth: 0,
            scope_changes: Vec::new(),
            loop_contexts: Vec::new(),
            error: None,
        };
        assert(r.names@ =~= Seq::<Vec<char>>::empty());
        r
    }

    /// Reads the next token.
    pub fn advance_token(&mut self)
        requires
            old(self).inv(),
        ensures
            final(self).inv(),
            final(self).text() == old(self).text(),
            final(self).code() == old(self).code(),
            (final(self).token(), final(self).pos()) == lex(old(self).text(), old(self).pos()),
            !(old(self).token() is Eof) ==> final(self).fuel() < old(self).fuel(),
            old(self).token() is Eof ==> final(self).token() is Eof && final(self).fuel() == old(self).fuel(),
            final(self).rest_same(old(self)),
    {
        self.current_token = self.lexer.next_token();
    }

    /// Reads the next token when the current one is `token`.
    pub fn next_if(&mut self, token: Token) -> (r: bool)
        requires
            old(self).inv(),
        ensures
            r == (old(self).token() == token),
            final(self).inv(),
            final(self).text() == old(self).text(),
            final(self).code() == old(self).code(),
            r ==> (final(self).token(), final(self).pos()) == lex(old(self).text(), old(self).pos()),
            !r ==> *final(self) == *old(self),
            r && !(token is Eof) ==> final(self).fuel() < old(self).fuel(),
            final(self).fuel() <= old(self).fuel(),
            final(self).rest_same(old(self)),
    {
        if self.current_token == token {
            self.advance_token();
            true
        } else {
            false
        }
    }

    /// Appends `op` and gives its position, to be patched later.
    pub fn add_plug(&mut self, op: Op) -> (r: usize)
        requires
            old(self).inv(),
        ensures
            r == old(self).code().len(),
            final(self).code() == old(self).code().push(op),
            final(self).inv(),
            final(self).text() == old(self).text(),
            final(self).fuel() == old(self).fuel(),
            final(self).rest_same(old(self)),
            final(self).token() == old(self).token(),
    {
        let code = self.code.len();
        self.code.push(op);
        code
    }

    /// Appends `op`.
    fn emit(&mut self, op: Op)
        requires
            old(self).inv(),
        ensures
            final(self).code() == old(self).code().push(op),
            final(self).inv(),
            final(self).text() == old(self).text(),
            final(self).fuel() == old(self).fuel(),
            final(self).rest_same(old(self)),
            final(self).token() == old(self).token(),
    {
        self.code.push(op);
    }

    /// Records a compile error at the lexer's position and gives `err`.
    pub fn throw_error<T>(&mut self, err: CompilerError, msg: Message) -> (r: Result<T, CompilerError>)
        requires
            old(self).inv(),
        ensures
            r == Err::<T, CompilerError>(err),
            final(self).same_state(old(self)),
            final(self).last_error() is Some,
            final(self).last_error()->Some_0.message == msg,
            final(self).last_error()->Some_0.line == crate::lexer::newlines(old(self).text().take(old(self).pos())),
            final(self).last_error()->Some_0.col == crate::lexer::column(old(self).text().take(old(self).pos())),
    {
        let (line, col) = self.lexer.get_pos();
        self.error = Some(Diagnostic { message: msg, line, col });
        Err(err)
    }

    /// Points the jump at `index` to the end of the code.
    pub fn patch_plug(&mut self, index: usize)
        requires
            old(self).inv(),
            index < old(self).code().len(),
            is_plug(old(self).code()[index as int]),
        ensures
            final(self).code() == old(self).code().update(
                index as int,
                crate::op::retarget(old(self).code()[index as int], old(self).code().len() as usize),
            ),
            final(self).inv(),
            final(self).text() == old(self).text(),
            final(self).fuel() == old(self).fuel(),
            code_extends(old(self).code(), final(self).code()),
            final(self).rest_same(old(self)),
            final(self).token() == old(self).token(),
            old(self).code().len() <= usize::MAX,
    {
        let target = self.code.len();
        let op = match &self.code[index] {
            Op::JumpIfFalse(_) => Op::JumpIfFalse(target),
            Op::JumpIfTrue(_) => Op::JumpIfTrue(target),
            Op::Jump(_) => Op::Jump(target),
            _ => Op::IterNext(target),
        };
        self.code.set(index, op);
        assert(self.loops_ok());
    }

    /// Points the instruction at `index`, which has a target, to the end of
    /// the code.
    fn patch_any(&mut self, index: usize)
        requires
            old(self).inv(),
            index < old(self).code().len(),
            is_plug(old(self).code()[index as int]) || old(self).code()[index as int] is SafeUnwL
                || old(self).code()[index as int] is SafeUnwR,
        ensures
            final(self).code() == old(self).code().update(
                index as int,
                crate::op::retarget(old(self).code()[index as int], old(self).code().len() as usize),
            ),
            final(self).inv(),
            final(self).text() == old(self).text(),
            final(self).fuel() == old(self).fuel(),
            code_extends(old(self).code(), final(self).code()),
            final(self).rest_same(old(self)),
            final(self).token() == old(self).token(),
    {
        let target = self.code.len();
        let op = match &self.code[index] {
            Op::JumpIfFalse(_) => Op::JumpIfFalse(target),
            Op::JumpIfTrue(_) => Op::JumpIfTrue(target),
            Op::Jump(_) => Op::Jump(target),
            Op::SafeUnwR(_) => Op::SafeUnwR(target),
            Op::SafeUnwL(_) => Op::SafeUnwL(target),
            _ => Op::IterNext(target),
        };
        self.code.set(index, op);
        assert(self.loops_ok());
    }

    /// Whether a value of type `actual` fits where `expected` is wanted.
    pub fn types_match(expected: &Type, actual: &Type) -> (r: bool)
        ensures
            r == types_match_spec(*expected, *actual),
        decreases expected,
    {
        match (expected, actual) {
            (Type::Infer, _) | (_, Type::Infer) => true,
            (Type::Array(a), Type::Array(b)) => Self::types_match(a, b),
            (Type::Iter(a), Type::Iter(b)) => Self::types_match(a, b),
            (Type::Cat(a), Type::Cat(b)) => Self::types_match(a, b),
            (Type::Result(a), Type::Void) => match a.0 {
                Type::Void => true,
                _ => false,
            },
            (Type::Result(a), Type::Result(b)) => Self::types_match(&a.0, &b.0) && Self::types_match(&a.1, &b.1),
            (a, b) => a.same(b),
        }
    }

    /// The number of the builtin called `func_name`.
    pub fn func_code(func_name: &Vec<char>) -> (r: Result<i64, CompilerError>)
        ensures
            match func_code_spec(func_name@) {
                Some(c) => r == Ok::<i64, CompilerError>(c),
                None => r == Err::<i64, CompilerError>(CompilerError::UnknownFunc),
            },
    {
        let n = func_name;
        let code: i64 = if text_is(n, "len") {
            1
        } else if text_is(n, "starts_with") {
            2
        } else if text_is(n, "readch") {
            3
        } else if text_is(n, "format") {
            4
        } else if text_is(n, "enumerate") {
            5
        } else if text_is(n, "read") {
            6
        } else if text_is(n, "create") || text_is(n, "truncate") {
            7
        } else if text_is(n, "open") {
            8
        } else if text_is(n, "is_ok") {
            9
        } else if text_is(n, "is_empty") {
            10
        } else if text_is(n, "is_some") {
            11
        } else if text_is(n, "push") {
            12
        } else if text_is(n, "readln") {
            13
        } else if text_is(n, "parse") {
            14
        } else if text_is(n, "step") {
            15
        } else if text_is(n, "lines") {
            16
        } else if text_is(n, "split_whitespace") {
            17
        } else if text_is(n, "split") {
            18
        } else if text_is(n, "nth") {
            19
        } else if text_is(n, "collect") {
            20
        } else if text_is(n, "contains") {
            21
        } else if text_is(n, "to_lower") {
            22
        } else if text_is(n, "to_upper") {
            23
        } else if text_is(n, "write") {
            24
        } else if text_is(n, "writeln") {
            25
        } else if text_is(n, "print") {
            26
        } else if text_is(n, "println") {
            27
        } else if text_is(n, "filter_map") {
            28
        } else if text_is(n, "map") {
            29
        } else if text_is(n, "clear_console") {
            30
        } else if text_is(n, "filter") {
            31
        } else {
            return Err(CompilerError::UnknownFunc);
        };
        Ok(code)
    }

    /// The type a call of the builtin `func_name` gives.
    pub fn func_return_type(func_name: &Vec<char>) -> (r: Type)
        ensures
            r == func_return_type_spec(func_name@),
    {
        let n = func_name;
        if text_is(n, "len") {
            Type::Number
        } else if text_is(n, "starts_with") {
            Type::Bool
        } else if text_is(n, "readch") || text_is(n, "read") {
            Type::Result(Box::new((Type::Str, Type::Str)))
        } else if text_is(n, "format") {
            Type::Str
        } else if text_is(n, "enumerate") {
            Type::Iter(Box::new(Type::Number))
        } else if text_is(n, "create") || text_is(n, "truncate") || text_is(n, "open") {
            Type::Result(Box::new((Type::File, Type::Str)))
        } else if text_is(n, "is_ok") || text_is(n, "is_empty") || text_is(n, "is_some") {
            Type::Bool
        } else if text_is(n, "push") {
            Type::Void
        } else if text_is(n, "readln") {
            Type::Str
        } else if text_is(n, "parse") {
            Type::Result(Box::new((Type::Number, Type::Str)))
        } else if text_is(n, "step") {
            Type::Iter(Box::new(Type::Number))
        } else if text_is(n, "lines") || text_is(n, "split_whitespace") || text_is(n, "split") {
            Type::Iter(Box::new(Type::Str))
        } else if text_is(n, "nth") {
            Type::Cat(Box::new(Type::Infer))
        } else if text_is(n, "collect") {
            Type::Array(Box::new(Type::Infer))
        } else if text_is(n, "contains") {
            Type::Bool
        } else if text_is(n, "to_lower") || text_is(n, "to_upper") {
            Type::Str
        } else if text_is(n, "write") || text_is(n, "writeln") || text_is(n, "print") || text_is(n, "println") {
            Type::Result(Box::new((Type::Void, Type::Str)))
        } else if text_is(n, "clear_console") {
            Type::Void
        } else if text_is(n, "filter_map") || text_is(n, "map") || text_is(n, "filter") {
            Type::Array(Box::new(Type::Infer))
        } else {
            Type::Infer
        }
    }

    /// Checks the arguments of a call of the builtin `name`, reporting
    /// `Invalid arguments for standard function` when they do not fit.
    fn check_std_func_args(&mut self, name: &Vec<char>, args: &Vec<Type>) -> (r: Result<(), CompilerError>)
        requires
            old(self).inv(),
        ensures
            std_args_ok(name@, args@) ==> r is Ok && *final(self) == *old(self),
            !std_args_ok(name@, args@) ==> r == Err::<(), CompilerError>(CompilerError::UnexpectedArg)
                && final(self).same_state(old(self)),
    {
        let n = name;
        let str_t = Type::Str;
        let is_valid = if text_is(n, "len") || text_is(n, "enumerate") || text_is(n, "is_ok") || text_is(n, "is_empty")
            || text_is(n, "is_some") || text_is(n, "collect") || text_is(n, "readch") || text_is(n, "read") {
            args.len() == 1
        } else if text_is(n, "readln") || text_is(n, "clear_console") || text_is(n, "format") || text_is(n, "write")
            || text_is(n, "writeln") || text_is(n, "print") || text_is(n, "println") {
            true
        } else if text_is(n, "open") {
            args.len() > 0 && Self::types_match(&str_t, &args[0])
        } else if text_is(n, "create") || text_is(n, "truncate") || text_is(n, "parse") || text_is(n, "lines")
            || text_is(n, "split_whitespace") || text_is(n, "to_lower") || text_is(n, "to_upper") {
            args.len() == 1 && Self::types_match(&str_t, &args[0])
        } else if text_is(n, "starts_with") || text_is(n, "split") {
            args.len() == 2 && Self::types_match(&str_t, &args[0]) && (Self::types_match(&str_t, &args[1])
                || Self::types_match(&Type::Char, &args[1]))
        } else if text_is(n, "contains") {
            args.len() > 1
        } else if text_is(n, "push") || text_is(n, "step") || text_is(n, "filter_map") || text_is(n, "map") || text_is(
            n,
            "filter",
        ) {
            args.len() == 2
        } else if text_is(n, "nth") {
            args.len() == 2 && Self::types_match(&Type::Number, &args[1])
        } else {
            true
        };
        if !is_valid {
            return self.throw_error(
                CompilerError::UnexpectedArg,
                Message::Plain(crate::text::lit("Invalid arguments for standard function")),
            );
        }
        Ok(())
    }

    /// Reads the next token when the current one is `token`; otherwise
    /// reports `Expected <token>, got <current>`.
    fn expect(&mut self, token: Token) -> (r: Result<(), CompilerError>)
        requires
            old(self).inv(),
        ensures
            r is Ok == (old(self).token() == token),
            r is Err ==> r == Err::<(), CompilerError>(CompilerError::ExpectedToken) && final(self).same_state(old(self)),
            final(self).inv(),
            final(self).text() == old(self).text(),
            final(self).code() == old(self).code(),
            r is Ok ==> (final(self).token(), final(self).pos()) == lex(old(self).text(), old(self).pos()),
            r is Ok && !(token is Eof) ==> final(self).fuel() < old(self).fuel(),
            final(self).fuel() <= old(self).fuel(),
            final(self).rest_same(old(self)),
    {
        if !self.next_if(token) {
            let got = self.current_token;
            return self.throw_error(CompilerError::ExpectedToken, Message::Expected(token, got));
        }
        Ok(())
    }

    /// The key of the name written at `[a, b)` in the source, storing the
    /// name the first time it is seen.
    fn intern(&mut self, a: usize, b: usize) -> (r: usize)
        requires
            old(self).inv(),
            a <= b <= old(self).text().len(),
        ensures
            final(self).inv(),
            r < final(self).names@.len(),
            final(self).names@[r as int]@ == old(self).text().subrange(a as int, b as int),
            old(self).names@.len() <= final(self).names@.len(),
            forall|i: int| 0 <= i < old(self).names@.len() ==> final(self).names@[i] == old(self).names@[i],
            final(self).text() == old(self).text(),
            final(self).code() == old(self).code(),
            final(self).fuel() == old(self).fuel(),
            final(self).token() == old(self).token(),
            final(self).same_but_names(old(self)),
            old(self).name_key(old(self).text().subrange(a as int, b as int)) matches Some(k) ==> r == k
                && final(self).names == old(self).names,
            final(self).name_key(old(self).text().subrange(a as int, b as int)) == Some(r),
    {
        let w = self.lexer.slice(a, b);
        let mut i: usize = 0;
        while i < self.names.len()
            invariant
                i <= self.names@.len(),
                forall|j: int| 0 <= j < i ==> self.names@[j]@ != w@,
                *self == *old(self),
                old(self).inv(),
                w@ == old(self).text().subrange(a as int, b as int),
            decreases self.names@.len() - i,
        {
            if same_text(&self.names[i], &w) {
                proof {
                    let c = choose|j: int| 0 <= j < self.names@.len() && #[trigger] self.names@[j]@ == w@;
                    assert(c == i as int);
                }
                return i;
            }
            i = i + 1;
        }
        let k = self.names.len();
        self.names.push(w);
        assert(distinct_names(self.names@));
        proof {
            assert(self.names@[k as int]@ == w@);
            let c = choose|j: int| 0 <= j < self.names@.len() && #[trigger] self.names@[j]@ == w@;
            assert(c == k as int);
        }
        k
    }
}

// ---------------------------------------------------------------------------
// Variables and scopes
// ---------------------------------------------------------------------------

impl Compiler {
    /// Takes the next free variable slot.
    fn new_slot(&mut self) -> (r: Result<usize, CompilerError>)
        requires
            old(self).inv(),
        ensures
            final(self).inv(),
            final(self).steady(old(self)),
            r is Ok ==> r->Ok_0 == old(self).next_slot && final(self).next_slot == old(self).next_slot + 1,
            r is Err ==> r == Err::<usize, CompilerError>(CompilerError::UnexpectedArg),
            r is Ok <==> old(self).next_slot < usize::MAX,
            final(self).vars() == old(self).vars(),
            final(self).changes() == old(self).changes(),
            final(self).scope_depth == old(self).scope_depth,
    {
        if self.next_slot == usize::MAX {
            return Err(CompilerError::UnexpectedArg);
        }
        let s = self.next_slot;
        self.next_slot = s + 1;
        Ok(s)
    }

    /// Declares the name `key` in the current scope, remembering what it
    /// stood for before so the end of the scope can restore it.
    fn declare(&mut self, key: usize, slot: usize, ty: Option<Type>)
        requires
            old(self).inv(),
            key < old(self).names@.len(),
        ensures
            final(self).inv(),
            final(self).steady(old(self)),
            final(self).next_slot == old(self).next_slot,
            final(self).scope_depth == old(self).scope_depth,
            final(self).vars() == old(self).vars().insert(key, VarInfo { slot, depth: old(self).depth(), ty }),
            final(self).changes() == old(self).changes().push((key, entry(old(self).vars(), key))),
    {
        let depth = self.scope_depth;
        let old_val = fx_insert(&mut self.variables, key, VarInfo { slot, depth, ty });
        self.scope_changes.push((key, old_val));
    }

    /// Undoes the declarations made since `start` changes were recorded,
    /// latest first.
    fn restore_scope(&mut self, start: usize)
        requires
            old(self).inv(),
        ensures
            final(self).inv(),
            final(self).steady(old(self)),
            final(self).next_slot == old(self).next_slot,
            final(self).scope_depth == old(self).scope_depth,
            final(self).vars() == undo(old(self).vars(), old(self).changes(), start as int),
            final(self).changes() == if old(self).changes().len() > start {
                old(self).changes().take(start as int)
            } else {
                old(self).changes()
            },
    {
        while self.scope_changes.len() > start
            invariant
                self.inv(),
                self.steady(old(self)),
                self.next_slot == old(self).next_slot,
                self.scope_depth == old(self).scope_depth,
                undo(self.vars(), self.changes(), start as int) == undo(old(self).vars(), old(self).changes(), start as int),
                self.changes().len() <= old(self).changes().len(),
                self.changes() == old(self).changes().take(self.changes().len() as int),
                old(self).changes().len() > start ==> self.changes().len() >= start,
                old(self).changes().len() <= start ==> self.changes() == old(self).changes(),
            decreases self.scope_changes@.len(),
        {
            match self.scope_changes.pop() {
                Some((name, old_val)) => {
                    match old_val {
                        Some(prev) => {
                            fx_insert(&mut self.variables, name, prev);
                        },
                        None => {
                            fx_remove(&mut self.variables, name);
                        },
                    }
                },
                None => {},
            }
        }
    }

    /// The slot, depth and type of the variable `key`.
    fn lookup(&self, key: usize) -> (r: Option<(usize, usize, Option<Type>)>)
        ensures
            r == match entry(self.vars(), key) {
                Some(info) => Some((info.slot, info.depth, info.ty)),
                None => None,
            },
    {
        match fx_get(&self.variables, key) {
            Some(info) => Some((
                info.slot,
                info.depth,
                match &info.ty {
                    Some(t) => Some(t.copy()),
                    None => None,
                },
            )),
            None => None,
        }
    }

    /// Gives the variable `key` the type `ty` when its type is not known yet.
    fn refine_type(&mut self, key: usize, ty: Type)
        requires
            old(self).inv(),
        ensures
            final(self).inv(),
            final(self).steady(old(self)),
            final(self).next_slot == old(self).next_slot,
            final(self).scope_depth == old(self).scope_depth,
            final(self).changes() == old(self).changes(),
            final(self).vars() == match entry(old(self).vars(), key) {
                Some(info) => if info.ty is None || info.ty == Some(Type::Infer) {
                    old(self).vars().insert(key, VarInfo { ty: Some(ty), ..info })
                } else {
                    old(self).vars()
                },
                None => old(self).vars(),
            },
    {
        let info = match fx_get(&self.variables, key) {
            Some(info) => info.copy(),
            None => return,
        };
        let open = match &info.ty {
            None => true,
            Some(Type::Infer) => true,
            Some(_) => false,
        };
        if open {
            fx_insert(&mut self.variables, key, VarInfo { slot: info.slot, depth: info.depth, ty: Some(ty) });
        }
    }

    /// Sets the type of the variable `key`, whatever it was.
    fn set_type(&mut self, key: usize, ty: Type)
        requires
            old(self).inv(),
        ensures
            final(self).inv(),
            final(self).steady(old(self)),
            final(self).next_slot == old(self).next_slot,
            final(self).scope_depth == old(self).scope_depth,
            final(self).changes() == old(self).changes(),
            final(self).vars() == match entry(old(self).vars(), key) {
                Some(info) => old(self).vars().insert(key, VarInfo { ty: Some(ty), ..info }),
                None => old(self).vars(),
            },
    {
        let info = match fx_get(&self.variables, key) {
            Some(info) => info.copy(),
            None => return,
        };
        fx_insert(&mut self.variables, key, VarInfo { slot: info.slot, depth: info.depth, ty: Some(ty) });
    }

    /// Emits the store of the top of the stack into `slot` of the frame
    /// `depth_delta` levels out, or into the global `slot`.
    fn emit_store(&mut self, global: bool, slot: usize, depth_delta: usize)
        requires
            old(self).inv(),
        ensures
            final(self).code() == old(self).code().push(
                if global { Op::StoreGlobal(slot) } else { Op::StoreLocal(slot, depth_delta) },
            ),
            final(self).inv(),
            final(self).text() == old(self).text(),
            final(self).fuel() == old(self).fuel(),
            final(self).rest_same(old(self)),
            final(self).token() == old(self).token(),
    {
        if global {
            self.emit(Op::StoreGlobal(slot));
        } else {
            self.emit(Op::StoreLocal(slot, depth_delta));
        }
    }

    /// Emits the load of `slot` of the frame `depth_delta` levels out, or of
    /// the global `slot`.
    fn emit_load(&mut self, global: bool, slot: usize, depth_delta: usize)
        requires
            old(self).inv(),
        ensures
            final(self).code() == old(self).code().push(
                if global { Op::LoadGlobal(slot) } else { Op::LoadLocal(slot, depth_delta) },
            ),
            final(self).inv(),
            final(self).text() == old(self).text(),
            final(self).fuel() == old(self).fuel(),
            final(self).rest_same(old(self)),
            final(self).token() == old(self).token(),
    {
        if global {
            self.emit(Op::LoadGlobal(slot));
        } else {
            self.emit(Op::LoadLocal(slot, depth_delta));
        }
    }

    /// The key of the identifier under the cursor, if it is one.
    fn current_ident(&mut self) -> (r: Option<usize>)
        requires
            old(self).inv(),
        ensures
            final(self).inv(),
            final(self).text() == old(self).text(),
            final(self).code() == old(self).code(),
            final(self).fuel() == old(self).fuel(),
            final(self).token() == old(self).token(),
            final(self).same_but_names(old(self)),
            r is Some == old(self).token() is Ident,
            r is None ==> *final(self) == *old(self),
            r matches Some(k) ==> k < final(self).names@.len(),
            old(self).names@.len() <= final(self).names@.len(),
    {
        match self.current_token {
            Token::Ident(a, b) => Some(self.intern(a, b)),
            _ => None,
        }
    }

    /// Reads a type: `Number`, `Str`, `Bool`, `Char`, `File`, `Float`, `()`,
    /// `Set<T>`, `Cat<T>` or `Result<T, E>`.
    fn parse_type(&mut self) -> (r: Result<Type, CompilerError>)
        requires
            old(self).inv(),
        ensures
            final(self).inv(),
            final(self).text() == old(self).text(),
            final(self).code() == old(self).code(),
            final(self).fuel() <= old(self).fuel(),
            r is Ok ==> final(self).fuel() < old(self).fuel(),
            final(self).same_but_names(old(self)),
            final(self).names == old(self).names,
            old(self).token() is TypeNumber ==> r == Ok::<Type, CompilerError>(Type::Number),
            old(self).token() is TypeStr ==> r == Ok::<Type, CompilerError>(Type::Str),
            old(self).token() is TypeBool ==> r == Ok::<Type, CompilerError>(Type::Bool),
            old(self).token() is TypeChar ==> r == Ok::<Type, CompilerError>(Type::Char),
            old(self).token() is TypeFloat ==> r == Ok::<Type, CompilerError>(Type::Float),
        decreases old(self).fuel(),
    {
        let res = match self.current_token {
            Token::TypeNumber => Type::Number,
            Token::TypeStr => Type::Str,
            Token::TypeBool => Type::Bool,
            Token::TypeChar => Type::Char,
            Token::TypeFile => Type::File,
            Token::TypeFloat => Type::Float,
            Token::LParen => {
                self.advance_token();
                match self.expect(Token::RParen) {
                    Ok(()) => {},
                    Err(e) => return Err(e),
                }
                return Ok(Type::Void);
            },
            Token::TypeSet | Token::TypeCat => {
                let is_set = match self.current_token {
                    Token::TypeSet => true,
                    _ => false,
                };
                self.advance_token();
                match self.expect(Token::Less) {
                    Ok(()) => {},
                    Err(e) => return Err(e),
                }
                let tp = match self.parse_type() {
                    Ok(t) => t,
                    Err(e) => return Err(e),
                };
                match self.expect(Token::Greater) {
                    Ok(()) => {},
                    Err(e) => return Err(e),
                }
                return Ok(if is_set { Type::Array(Box::new(tp)) } else { Type::Cat(Box::new(tp)) });
            },
            Token::TypeResult => {
                self.advance_token();
                match self.expect(Token::Less) {
                    Ok(()) => {},
                    Err(e) => return Err(e),
                }
                let ok_tp = match self.parse_type() {
                    Ok(t) => t,
                    Err(e) => return Err(e),
                };
                match self.expect(Token::Comma) {
                    Ok(()) => {},
                    Err(e) => return Err(e),
                }
                let err_tp = match self.parse_type() {
                    Ok(t) => t,
                    Err(e) => return Err(e),
                };
                match self.expect(Token::Greater) {
                    Ok(()) => {},
                    Err(e) => return Err(e),
                }
                return Ok(Type::Result(Box::new((ok_tp, err_tp))));
            },
            _ => return Err(CompilerError::UnexpectedArg),
        };
        self.advance_token();
        Ok(res)
    }
}

// ---------------------------------------------------------------------------
// Expressions
// ---------------------------------------------------------------------------

/// What `key` stands for in `m`, if anything.
pub open spec fn entry(m: Map<usize, VarInfo>, key: usize) -> Option<VarInfo> {
    if m.contains_key(key) {
        Some(m[key])
    } else {
        None
    }
}

/// The variables after undoing, latest first, the declarations in
/// `changes` from position `start` on.
pub open spec fn undo(vars: Map<usize, VarInfo>, changes: Seq<(usize, Option<VarInfo>)>, start: int) -> Map<usize, VarInfo>
    decreases changes.len(),
{
    if changes.len() == 0 || changes.len() <= start {
        vars
    } else {
        let (k, prev) = changes.last();
        let back = match prev {
            Some(p) => vars.insert(k, p),
            None => vars.remove(k),
        };
        undo(back, changes.drop_last(), start)
    }
}

/// What a block compiles to, and its type, when it is empty or holds one
/// literal expression: `{}`, `{ 5 }`, or nothing at all before the end of
/// the text or a `}`. `tok` is the token the block starts with and `pos`
/// the position just after it in `text`.
pub open spec fn simple_block_at(text: Seq<char>, tok: Token, pos: int) -> Option<(Seq<Op>, Type)> {
    let (t1, p1) = lex(text, pos);
    if tok is End || tok is Eof {
        Some((seq![Op::PushVoid], Type::Void))
    } else if tok is Begin {
        if t1 is End || t1 is Eof {
            Some((seq![Op::PushVoid], Type::Void))
        } else {
            match literal_of(t1) {
                Some((op, t)) => if lex(text, p1).0 is End || lex(text, p1).0 is Eof {
                    Some((seq![op], t))
                } else {
                    None
                },
                None => None,
            }
        }
    } else {
        None
    }
}

/// The token after a block that `simple_block_at` describes, and the
/// position just after that token: the block's closing `}` is read.
pub open spec fn simple_block_end(text: Seq<char>, tok: Token, pos: int) -> (Token, int) {
    let (t1, p1) = lex(text, pos);
    let (t2, p2) = lex(text, p1);
    if tok is End || tok is Eof {
        (tok, pos)
    } else if t1 is End {
        (t2, p2)
    } else if t1 is Eof {
        (t1, p1)
    } else if t2 is End {
        lex(text, p2)
    } else {
        (t2, p2)
    }
}

/// For an `if` whose `if` keyword ends just before `pos` in `text`: the
/// condition and the code of its block, when the condition is a boolean
/// literal, the block is empty or holds one literal, no `else` follows,
/// and the code so far (`start` instructions) leaves room for the jumps.
pub open spec fn simple_if(text: Seq<char>, pos: int, start: nat, need_else: bool) -> Option<(bool, Seq<Op>)> {
    let (t1, p1) = lex(text, pos);
    let (t2, p2) = lex(text, p1);
    let (te, pe) = simple_block_end(text, t2, p2);
    match (t1, simple_block_at(text, t2, p2)) {
        (Token::Bool(b), Some((ops, _))) => if start + ops.len() + 2 < usize::MAX && !(te is Else) && !(need_else
            && te is End) {
            Some((b, ops))
        } else {
            None
        },
        _ => None,
    }
}

/// Whether the declaration `name = <literal>` starts at the token `tok`
/// (its `=`), the position just after it being `pos`: one literal whose
/// next token closes the expression, with a free variable slot `slot`.
pub open spec fn simple_let(text: Seq<char>, tok: Token, pos: int, slot: usize) -> bool {
    let (t1, p1) = lex(text, pos);
    &&& tok is Assign
    &&& literal_of(t1) is Some
    &&& closes(lex(text, p1).0)
    &&& slot < usize::MAX
}

/// Whether an unnamed closure `|| body`, without a declared type, starts at
/// the token `tok` (its `||`), `pos` being just after it, and its body is a
/// block that `simple_block_at` describes; `depth` is the function depth
/// it is compiled at.
pub open spec fn simple_closure(text: Seq<char>, tok: Token, pos: int, depth: usize) -> bool {
    let (t1, p1) = lex(text, pos);
    &&& tok is Or
    &&& simple_block_at(text, t1, p1) is Some
    &&& depth < usize::MAX
}

/// For a `match` whose keyword ends just before `pos` in `text`: the
/// instruction of its subject, when the subject is a number, character or
/// boolean literal and no arm follows (`match 1 {}`).
pub open spec fn simple_match(text: Seq<char>, pos: int) -> Option<Op> {
    let (t1, p1) = lex(text, pos);
    let (t2, p2) = lex(text, p1);
    match literal_of(t1) {
        Some((op, _)) => if t2 is Begin && lex(text, p2).0 is End {
            Some(op)
        } else {
            None
        },
        None => None,
    }
}

/// For a block of one statement (no braces) that is a number, character
/// or boolean literal followed by `,` or `}`, as a match arm's body is
/// after its `=>`: the literal's instruction and type. `tok` is the
/// literal and `pos` the position just after it.
pub open spec fn arm_literal(text: Seq<char>, tok: Token, pos: int) -> Option<(Op, Type)> {
    let t1 = lex(text, pos).0;
    if t1 is Comma || t1 is End {
        literal_of(tok)
    } else {
        None
    }
}

/// For a block `{ l1; l2 }` (or the whole program `l1; l2` read as one
/// block) of two number, character or boolean literals, whose `{` is `tok`
/// and ends just before `pos`: the literals' instructions and the second
/// one's type.
pub open spec fn two_stmt_block(text: Seq<char>, tok: Token, pos: int) -> Option<(Op, Op, Type)> {
    let (t1, p1) = lex(text, pos);
    let (t2, p2) = lex(text, p1);
    let (t3, p3) = lex(text, p2);
    let t4 = lex(text, p3).0;
    match (literal_of(t1), literal_of(t3)) {
        (Some((o1, _)), Some((o2, ty))) => if tok is Begin && t2 is Semicolon && (t4 is End || t4 is Eof) {
            Some((o1, o2, ty))
        } else {
            None
        },
        _ => None,
    }
}

/// The precedence (see `binds`) and the instruction of the binary
/// operators other than comparisons, `+`, `-`, `&&` and `||`: `^` to
/// `Pow` and `%` to `Mod` (2), `*` to `Mult` and `/` to `Div` (3), `&` to
/// `ArifmAnd` (5), `|` to `ArifmOr` (6), `==` to `Equal` and `!=` to
/// `NotEqual` (8).
pub open spec fn bin_op(t: Token) -> Option<(int, Op)> {
    match t {
        Token::Pow => Some((2, Op::Pow)),
        Token::Mod => Some((2, Op::Mod)),
        Token::Mult => Some((3, Op::Mult)),
        Token::Div => Some((3, Op::Div)),
        Token::ArifmAnd => Some((5, Op::ArifmAnd)),
        Token::ArifmOr => Some((6, Op::ArifmOr)),
        Token::Equal => Some((8, Op::Equal)),
        Token::NotEqual => Some((8, Op::NotEqual)),
        _ => None,
    }
}

/// The instruction a comparison token compiles to: `<` to `Less`, `<=` to
/// `LessEq`, `>` to `Greater` and `>=` to `GreaterEq`.
pub open spec fn rel_op(t: Token) -> Option<Op> {
    match t {
        Token::Less => Some(Op::Less),
        Token::LessOrEqual => Some(Op::LessEq),
        Token::Greater => Some(Op::Greater),
        Token::GreaterOrEqual => Some(Op::GreaterEq),
        _ => None,
    }
}

/// The token three tokens after the one that ends just before `pos`, and
/// the position just after it.
pub open spec fn sum_end_from(text: Seq<char>, pos: int) -> (Token, int) {
    let (t1, p1) = lex(text, pos);
    let (t2, p2) = lex(text, p1);
    lex(text, p2)
}

/// The type of a literal token: a number, character, boolean or text.
pub open spec fn elem_type_of(t: Token) -> Option<Type> {
    match t {
        Token::String(_, _) => Some(Type::Str),
        _ => match literal_of(t) {
            Some((_, ty)) => Some(ty),
            None => None,
        },
    }
}

/// The instruction a number, character or boolean literal compiles to,
/// and the literal's type.
pub open spec fn literal_of(t: Token) -> Option<(Op, Type)> {
    match t {
        Token::Number(n) => Some((Op::PushNumber(n), Type::Number)),
        Token::Char(c) => Some((Op::PushChar(c), Type::Char)),
        Token::Bool(b) => Some((Op::PushBool(b), Type::Bool)),
        _ => None,
    }
}

/// The code of a function definition that starts at `start` and ends
/// `code`: a jump over the body to the `PushFn` of the body's first
/// instruction (just after the jump), followed by `store` when the
/// function has a name.
pub open spec fn fn_layout(start: int, code: Seq<Op>, store: Option<Op>) -> bool {
    &&& 0 <= start < code.len()
    &&& code[start] is Jump
    &&& {
        let j = code[start]->Jump_0 as int;
        &&& start < j < code.len()
        &&& code[j] == Op::PushFn((start + 1) as usize)
        &&& match store {
            Some(op) => code.len() == j + 2 && code[j + 1] == op,
            None => code.len() == j + 1,
        }
    }
}

/// The types of the arguments of a call whose argument list, after its
/// `(`, is two number, character or boolean literals: `tok` is the token
/// after the `(` and ends just before `pos`, and the list reads
/// `l1, l2)`.
pub open spec fn two_literals(text: Seq<char>, tok: Token, pos: int) -> Option<(Type, Type)> {
    let (t1, p1) = lex(text, pos);
    let (t2, p2) = lex(text, p1);
    let t3 = lex(text, p2).0;
    match (literal_of(tok), literal_of(t2)) {
        (Some((_, x)), Some((_, y))) => if t1 is Comma && t3 is RParen {
            Some((x, y))
        } else {
            None
        },
        _ => None,
    }
}

/// Whether a `for` whose keyword ends just before `pos` walks a number,
/// character or boolean literal: `for x in 5 ...` or `for in 5 ...`.
pub open spec fn for_over_literal(text: Seq<char>, pos: int) -> bool {
    let (t1, p1) = lex(text, pos);
    let (t2, p2) = lex(text, p1);
    let (t3, p3) = lex(text, p2);
    let (t4, p4) = lex(text, p3);
    ||| (t1 is In && literal_of(t2) is Some && !binds(11, t3))
    ||| (t1 is Ident && t2 is In && literal_of(t3) is Some && !binds(11, t4))
}

/// Whether `t` is an operator that the expression parser of precedence
/// `level` or a tighter one goes on with: 0 and 1 for indexing, method
/// calls and `?`; 2 for `^` and `%`; 3 for `*` and `/`; 4 for `+` and `-`;
/// 5 for `&`; 6 for `|`; 7 for comparisons; 8 for `==` and `!=`; 9 for
/// `&&`; 10 for `||`; 11 for `..`.
pub open spec fn binds(level: int, t: Token) -> bool {
    ||| t is LBracket || t is Dot || t is Query
    ||| level >= 2 && (t is Pow || t is Mod)
    ||| level >= 3 && (t is Mult || t is Div)
    ||| level >= 4 && (t is Plus || t is Minus)
    ||| level >= 5 && t is ArifmAnd
    ||| level >= 6 && t is ArifmOr
    ||| level >= 7 && (t is Greater || t is Less || t is GreaterOrEqual || t is LessOrEqual)
    ||| level >= 8 && (t is Equal || t is NotEqual)
    ||| level >= 9 && t is LogicalAnd
    ||| level >= 10 && t is Or
    ||| level >= 11 && t is DotDot
}

/// A token that closes an expression: the end of the text, `{`, `}`, `)`,
/// `]`, `,` or `;`.
/// Whether a variable's name followed by `t` is read as the variable's
/// value: `t` does not open a call, a declaration, an indexing, an
/// assignment or an increment.
pub open spec fn ends_name(t: Token) -> bool {
    !(t is LParen || t is Colon || t is LBracket || t is Assign || t is AssignOper || t is Inc || t is Dec)
}

pub open spec fn closes(t: Token) -> bool {
    t is Eof || t is Begin || t is End || t is RParen || t is RBracket || t is Comma || t is Semicolon
}

/// The second part of the termination measure of `parse_block`: a block
/// that opens with `=>` or `{` reads a token before anything else.
pub open spec fn rank_block(t: Token) -> int {
    if t is Begin || t is FatArrow {
        0
    } else {
        16
    }
}

/// The second part of the termination measure of the parsers that read
/// their leading keyword first.
pub open spec fn rank_lead(t: Token) -> int {
    if t is Eof {
        17
    } else {
        0
    }
}

/// The second part of the termination measure of `parse_fn`.
pub open spec fn rank_fn(t: Token) -> int {
    if t is ArifmOr || t is Or {
        0
    } else {
        17
    }
}

/// Whether a floating-point literal written as `t` is zero.
fn float_is_zero(t: &Vec<char>) -> (r: bool)
    ensures
        r == (forall|i: int| 0 <= i < t@.len() ==> t@[i] == '0' || t@[i] == '.' || t@[i] == '_'),
{
    let mut i: usize = 0;
    while i < t.len()
        invariant
            i <= t.len(),
            forall|j: int| 0 <= j < i ==> t@[j] == '0' || t@[j] == '.' || t@[j] == '_',
        decreases t.len() - i,
    {
        let c = t[i];
        if !(c == '0' || c == '.' || c == '_') {
            return false;
        }
        i = i + 1;
    }
    true
}

impl Compiler {
    fn plain(msg: &str) -> (r: Message)
        ensures
            r is Plain && r->Plain_0@ == msg@,
    {
        Message::Plain(crate::text::lit(msg))
    }

    /// The text of the name stored under `key`.
    fn name_text(&self, key: usize) -> (r: Vec<char>)
        requires
            key < self.names@.len(),
        ensures
            r@ == self.names@[key as int]@,
    {
        crate::text::copy_text(&self.names[key])
    }

    /// An expression.
    pub fn parse_expression(&mut self) -> (r: Result<Type, CompilerError>)
        requires
            old(self).inv(),
        ensures
            final(self).kept(old(self)),
            r is Ok ==> final(self).progressed(old(self)) && final(self).balanced(old(self)),
            old(self).at_operand(11) ==> final(self).read_operand(old(self), r),
            old(self).at_text(11) ==> final(self).read_text(old(self), r),
            old(self).at_sum(11) ==> final(self).read_sum(old(self), r),
            old(self).expr_error(11) matches Some(e) ==> r == Err::<Type, CompilerError>(e),
        decreases old(self).fuel(), 14int,
    {
        self.parse_range()
    }

    /// `a..b`, `a..=b` and `a..` (up to `]`), or a logical-or expression.
    fn parse_range(&mut self) -> (r: Result<Type, CompilerError>)
        requires
            old(self).inv(),
        ensures
            final(self).kept(old(self)),
            r is Ok ==> final(self).progressed(old(self)) && final(self).balanced(old(self)),
            old(self).at_operand(11) ==> final(self).read_operand(old(self), r),
            old(self).at_text(11) ==> final(self).read_text(old(self), r),
            old(self).at_sum(11) ==> final(self).read_sum(old(self), r),
            old(self).expr_error(11) matches Some(e) ==> r == Err::<Type, CompilerError>(e),
        decreases old(self).fuel(), 13int,
    {
        let mut tp = self.parse_logical_or()?;
        if self.current_token == Token::DotDot {
            if !Self::types_match(&tp, &Type::Number) {
                let m = Self::plain("Expected number in range");
                return self.throw_error(CompilerError::UnexpectedArg, m);
            }
            tp = Type::Iter(Box::new(Type::Number));
            self.advance_token();
            let incl = self.next_if(Token::Assign);
            if self.current_token == Token::RBracket {
                self.emit(Op::PushNumber(i64::MAX));
            } else {
                let oth_tp = self.parse_logical_or()?;
                if !Self::types_match(&oth_tp, &Type::Number) {
                    let m = Self::plain("Expected number in range end");
                    return self.throw_error(CompilerError::UnexpectedArg, m);
                }
            }
            self.emit(Op::MakeRange(incl));
        }
        Ok(tp)
    }

    fn parse_logical_or(&mut self) -> (r: Result<Type, CompilerError>)
        requires
            old(self).inv(),
        ensures
            final(self).kept(old(self)),
            r is Ok ==> final(self).progressed(old(self)) && final(self).balanced(old(self)),
            old(self).at_operand(10) ==> final(self).read_operand(old(self), r),
            old(self).at_text(10) ==> final(self).read_text(old(self), r),
            old(self).at_sum(10) ==> final(self).read_sum(old(self), r),
            old(self).expr_error(10) matches Some(e) ==> r == Err::<Type, CompilerError>(e),
            old(self).logic_at(false) matches Some((o1, x, o2, y)) ==> ((x is Bool || x is Infer) && (y is Bool
                || y is Infer) ==> r == Ok::<Type, CompilerError>(Type::Bool) && final(self).code() == old(self).code()
                + seq![
                    o1,
                    Op::JumpIfTrue((old(self).code().len() + 6) as usize),
                    o2,
                    Op::JumpIfTrue((old(self).code().len() + 6) as usize),
                    Op::PushBool(false),
                    Op::Jump((old(self).code().len() + 7) as usize),
                    Op::PushBool(true),
                ]),
        decreases old(self).fuel(), 12int,
    {
        let ghost (t1, p1) = lex(old(self).text(), old(self).pos());
        let ghost (t2, p2) = lex(old(self).text(), p1);
        let ghost lg = old(self).logic_at(false);
        assert(lg is Some ==> old(self).at_operand(9));
        let mut tp = self.parse_logical_and()?;
        while self.current_token == Token::Or
            invariant
                (t1, p1) == lex(old(self).text(), old(self).pos()),
                (t2, p2) == lex(old(self).text(), p1),
                lg == old(self).logic_at(false),
                lg matches Some((o1, x, o2, y)) ==> self.text() == old(self).text() && {
                    ||| self.code() == old(self).code().push(o1) && (self.token(), self.pos()) == (t1, p1) && tp == x
                        && self.vars() == old(self).vars() && self.names_same(old(self)) && self.depth()
                        == old(self).depth()
                    ||| self.code() == old(self).code() + seq![
                    o1,
                    Op::JumpIfTrue((old(self).code().len() + 6) as usize),
                    o2,
                    Op::JumpIfTrue((old(self).code().len() + 6) as usize),
                    Op::PushBool(false),
                    Op::Jump((old(self).code().len() + 7) as usize),
                    Op::PushBool(true),
                ] && !binds(10, self.token()) && tp == Type::Bool
                },
                old(self).at_operand(10) ==> self.read_operand(old(self), Ok::<Type, CompilerError>(tp)),
                old(self).at_text(10) ==> self.read_text(old(self), Ok::<Type, CompilerError>(tp)),
                old(self).at_sum(10) ==> self.read_sum(old(self), Ok::<Type, CompilerError>(tp)),
                old(self).expr_error(10) is None,
                self.kept(old(self)),
                self.progressed(old(self)),
                self.balanced(old(self)),
            decreases self.fuel(),
        {
            if !Self::types_match(&tp, &Type::Bool) && !matches!(tp, Type::Infer) {
                let m = Self::plain("Expected bool in logical OR");
                return self.throw_error(CompilerError::UnexpectedArg, m);
            }
            self.advance_token();
            let ghost s1 = *self;
            proof {
                if lg is Some {
                    assert((self.token(), self.pos()) == (t2, p2));
                    assert(self.operand() == old(self).operand_at(t2, p2));
                }
            }
            let jump_true_1 = self.add_plug(Op::JumpIfTrue(0));
            proof {
                if lg is Some {
                    assert(self.operand() == old(self).operand_at(t2, p2));
                    assert(self.at_operand(9));
                }
            }
            let oth_tp = self.parse_logical_and()?;
            if !Self::types_match(&oth_tp, &Type::Bool) && !matches!(oth_tp, Type::Infer) {
                let m = Self::plain("Expected bool in logical OR");
                return self.throw_error(CompilerError::UnexpectedArg, m);
            }
            let jump_true_2 = self.add_plug(Op::JumpIfTrue(0));
            self.emit(Op::PushBool(false));
            let jump_end = self.add_plug(Op::Jump(0));
            self.patch_plug(jump_true_1);
            self.patch_plug(jump_true_2);
            self.emit(Op::PushBool(true));
            self.patch_plug(jump_end);
            proof {
                match lg {
                    Some((o1, x, o2, y)) => {
                        assert(self.code() =~= old(self).code() + seq![
                    o1,
                    Op::JumpIfTrue((old(self).code().len() + 6) as usize),
                    o2,
                    Op::JumpIfTrue((old(self).code().len() + 6) as usize),
                    Op::PushBool(false),
                    Op::Jump((old(self).code().len() + 7) as usize),
                    Op::PushBool(true),
                ]);
                    },
                    None => {},
                }
            }
            tp = Type::Bool;
        }
        Ok(tp)
    }

    fn parse_logical_and(&mut self) -> (r: Result<Type, CompilerError>)
        requires
            old(self).inv(),
        ensures
            final(self).kept(old(self)),
            r is Ok ==> final(self).progressed(old(self)) && final(self).balanced(old(self)),
            old(self).at_operand(9) ==> final(self).read_operand(old(self), r),
            old(self).at_text(9) ==> final(self).read_text(old(self), r),
            old(self).at_sum(9) ==> final(self).read_sum(old(self), r),
            old(self).expr_error(9) matches Some(e) ==> r == Err::<Type, CompilerError>(e),
            old(self).logic_at(true) matches Some((o1, x, o2, y)) ==> ((x is Bool || x is Infer) && (y is Bool
                || y is Infer) ==> r == Ok::<Type, CompilerError>(Type::Bool) && final(self).code() == old(self).code()
                + seq![
                    o1,
                    Op::JumpIfFalse((old(self).code().len() + 6) as usize),
                    o2,
                    Op::JumpIfFalse((old(self).code().len() + 6) as usize),
                    Op::PushBool(true),
                    Op::Jump((old(self).code().len() + 7) as usize),
                    Op::PushBool(false),
                ]),
        decreases old(self).fuel(), 11int,
    {
        let ghost (t1, p1) = lex(old(self).text(), old(self).pos());
        let ghost (t2, p2) = lex(old(self).text(), p1);
        let ghost lg = old(self).logic_at(true);
        assert(lg is Some ==> old(self).at_operand(8));
        let mut tp = self.parse_equality()?;
        while self.current_token == Token::LogicalAnd
            invariant
                (t1, p1) == lex(old(self).text(), old(self).pos()),
                (t2, p2) == lex(old(self).text(), p1),
                lg == old(self).logic_at(true),
                lg matches Some((o1, x, o2, y)) ==> self.text() == old(self).text() && {
                    ||| self.code() == old(self).code().push(o1) && (self.token(), self.pos()) == (t1, p1) && tp == x
                        && self.vars() == old(self).vars() && self.names_same(old(self)) && self.depth()
                        == old(self).depth()
                    ||| self.code() == old(self).code() + seq![
                    o1,
                    Op::JumpIfFalse((old(self).code().len() + 6) as usize),
                    o2,
                    Op::JumpIfFalse((old(self).code().len() + 6) as usize),
                    Op::PushBool(true),
                    Op::Jump((old(self).code().len() + 7) as usize),
                    Op::PushBool(false),
                ] && !binds(9, self.token()) && tp == Type::Bool
                },
                old(self).at_operand(9) ==> self.read_operand(old(self), Ok::<Type, CompilerError>(tp)),
                old(self).at_text(9) ==> self.read_text(old(self), Ok::<Type, CompilerError>(tp)),
                old(self).at_sum(9) ==> self.read_sum(old(self), Ok::<Type, CompilerError>(tp)),
                old(self).expr_error(9) is None,
                self.kept(old(self)),
                self.progressed(old(self)),
                self.balanced(old(self)),
            decreases self.fuel(),
        {
            if !Self::types_match(&tp, &Type::Bool) && !matches!(tp, Type::Infer) {
                let m = Self::plain("Expected bool in logical AND");
                return self.throw_error(CompilerError::UnexpectedArg, m);
            }
            self.advance_token();
            let ghost s1 = *self;
            proof {
                if lg is Some {
                    assert((self.token(), self.pos()) == (t2, p2));
                    assert(self.operand() == old(self).operand_at(t2, p2));
                }
            }
            let jump_false_1 = self.add_plug(Op::JumpIfFalse(0));
            proof {
                if lg is Some {
                    assert(self.operand() == old(self).operand_at(t2, p2));
                    assert(self.at_operand(8));
                }
            }
            let oth_tp = self.parse_equality()?;
            if !Self::types_match(&oth_tp, &Type::Bool) && !matches!(oth_tp, Type::Infer) {
                let m = Self::plain("Expected bool in logical AND");
                return self.throw_error(CompilerError::UnexpectedArg, m);
            }
            let jump_false_2 = self.add_plug(Op::JumpIfFalse(0));
            self.emit(Op::PushBool(true));
            let jump_end = self.add_plug(Op::Jump(0));
            self.patch_plug(jump_false_1);
            self.patch_plug(jump_false_2);
            self.emit(Op::PushBool(false));
            self.patch_plug(jump_end);
            proof {
                match lg {
                    Some((o1, x, o2, y)) => {
                        assert(self.code() =~= old(self).code() + seq![
                    o1,
                    Op::JumpIfFalse((old(self).code().len() + 6) as usize),
                    o2,
                    Op::JumpIfFalse((old(self).code().len() + 6) as usize),
                    Op::PushBool(true),
                    Op::Jump((old(self).code().len() + 7) as usize),
                    Op::PushBool(false),
                ]);
                    },
                    None => {},
                }
            }
            tp = Type::Bool;
        }
        Ok(tp)
    }

    fn parse_equality(&mut self) -> (r: Result<Type, CompilerError>)
        requires
            old(self).inv(),
        ensures
            final(self).kept(old(self)),
            r is Ok ==> final(self).progressed(old(self)) && final(self).balanced(old(self)),
            old(self).at_operand(8) ==> final(self).read_operand(old(self), r),
            old(self).at_text(8) ==> final(self).read_text(old(self), r),
            old(self).at_sum(8) ==> final(self).read_sum(old(self), r),
            old(self).expr_error(8) matches Some(e) ==> r == Err::<Type, CompilerError>(e),
            old(self).bin_at(8) matches Some((o1, x, o2, y, op)) ==> if types_match_spec(x, y) {
                &&& r == Ok::<Type, CompilerError>(Type::Bool)
                &&& final(self).code() == old(self).code() + seq![o1, o2, op]
            } else {
                r == Err::<Type, CompilerError>(CompilerError::UnexpectedArg)
            },
        decreases old(self).fuel(), 10int,
    {
        let ghost (t1, p1) = lex(old(self).text(), old(self).pos());
        let ghost (t2, p2) = lex(old(self).text(), p1);
        let ghost bin = old(self).bin_at(8);
        assert(bin is Some ==> old(self).at_operand(7));
        let mut tp = self.parse_relational()?;
        while self.current_token == Token::Equal || self.current_token == Token::NotEqual
            invariant
                (t1, p1) == lex(old(self).text(), old(self).pos()),
                (t2, p2) == lex(old(self).text(), p1),
                bin == old(self).bin_at(8),
                bin matches Some((o1, x, o2, y, op)) ==> self.text() == old(self).text() && {
                    ||| self.code() == old(self).code().push(o1) && (self.token(), self.pos()) == (t1, p1) && tp == x
                        && self.vars() == old(self).vars() && self.names_same(old(self)) && self.depth()
                        == old(self).depth()
                    ||| self.code() == old(self).code() + seq![o1, o2, op] && !binds(8, self.token())
                        && types_match_spec(x, y) && tp == Type::Bool
                },
                old(self).at_operand(8) ==> self.read_operand(old(self), Ok::<Type, CompilerError>(tp)),
                old(self).at_text(8) ==> self.read_text(old(self), Ok::<Type, CompilerError>(tp)),
                old(self).at_sum(8) ==> self.read_sum(old(self), Ok::<Type, CompilerError>(tp)),
                old(self).expr_error(8) is None,
                self.kept(old(self)),
                self.progressed(old(self)),
                self.balanced(old(self)),
            decreases self.fuel(),
        {
            let is_eq = self.current_token == Token::Equal;
            self.advance_token();
            proof {
                if bin is Some {
                    assert((self.token(), self.pos()) == (t2, p2));
                    assert(self.operand() == old(self).operand_at(t2, p2));
                    assert(self.at_operand(7));
                }
            }
            let oth_tp = self.parse_relational()?;
            if !Self::types_match(&tp, &oth_tp) {
                let m = Self::plain("Type mismatch in equality operator");
                return self.throw_error(CompilerError::UnexpectedArg, m);
            }
            self.emit(if is_eq { Op::Equal } else { Op::NotEqual });
            tp = Type::Bool;
        }
        Ok(tp)
    }

    fn parse_relational(&mut self) -> (r: Result<Type, CompilerError>)
        requires
            old(self).inv(),
        ensures
            final(self).kept(old(self)),
            r is Ok ==> final(self).progressed(old(self)) && final(self).balanced(old(self)),
            old(self).at_operand(7) ==> final(self).read_operand(old(self), r),
            old(self).at_text(7) ==> final(self).read_text(old(self), r),
            old(self).at_sum(7) ==> final(self).read_sum(old(self), r),
            old(self).expr_error(7) matches Some(e) ==> r == Err::<Type, CompilerError>(e),
            old(self).rel_at() matches Some((o1, x, o2, y, op)) ==> if types_match_spec(x, y) {
                &&& r == Ok::<Type, CompilerError>(Type::Bool)
                &&& final(self).code() == old(self).code() + seq![o1, o2, op]
            } else {
                r == Err::<Type, CompilerError>(CompilerError::UnexpectedArg)
            },
        decreases old(self).fuel(), 9int,
    {
        let ghost (t1, p1) = lex(old(self).text(), old(self).pos());
        let ghost (t2, p2) = lex(old(self).text(), p1);
        let ghost rel = old(self).rel_at();
        assert(rel is Some ==> old(self).at_operand(6));
        let mut tp = self.parse_arifm_or()?;
        while matches!(self.current_token, Token::Greater | Token::Less | Token::GreaterOrEqual | Token::LessOrEqual)
            invariant
                old(self).at_operand(7) ==> self.read_operand(old(self), Ok::<Type, CompilerError>(tp)),
                old(self).at_text(7) ==> self.read_text(old(self), Ok::<Type, CompilerError>(tp)),
                old(self).at_sum(7) ==> self.read_sum(old(self), Ok::<Type, CompilerError>(tp)),
                old(self).expr_error(7) is None,
                (t1, p1) == lex(old(self).text(), old(self).pos()),
                (t2, p2) == lex(old(self).text(), p1),
                rel == old(self).rel_at(),
                rel matches Some((o1, x, o2, y, op)) ==> self.text() == old(self).text() && {
                    ||| self.code() == old(self).code().push(o1) && (self.token(), self.pos()) == (t1, p1) && tp == x
                        && self.vars() == old(self).vars() && self.names_same(old(self)) && self.depth()
                        == old(self).depth()
                    ||| self.code() == old(self).code() + seq![o1, o2, op] && !binds(7, self.token())
                        && tp == Type::Bool && types_match_spec(x, y)
                },
                self.kept(old(self)),
                self.progressed(old(self)),
                self.balanced(old(self)),
            decreases self.fuel(),
        {
            let op = match self.current_token {
                Token::Greater => Op::Greater,
                Token::Less => Op::Less,
                Token::GreaterOrEqual => Op::GreaterEq,
                _ => Op::LessEq,
            };
            self.advance_token();
            proof {
                if rel is Some {
                    assert((self.token(), self.pos()) == (t2, p2));
                    assert(self.operand() == old(self).operand_at(t2, p2));
                    assert(self.at_operand(6));
                }
            }
            let oth_tp = self.parse_arifm_or()?;
            if !Self::types_match(&tp, &oth_tp) {
                let m = Self::plain("Type mismatch in relational operator");
                return self.throw_error(CompilerError::UnexpectedArg, m);
            }
            self.emit(op);
            tp = Type::Bool;
        }
        Ok(tp)
    }

    fn parse_arifm_or(&mut self) -> (r: Result<Type, CompilerError>)
        requires
            old(self).inv(),
        ensures
            final(self).kept(old(self)),
            r is Ok ==> final(self).progressed(old(self)) && final(self).balanced(old(self)),
            old(self).at_operand(6) ==> final(self).read_operand(old(self), r),
            old(self).at_text(6) ==> final(self).read_text(old(self), r),
            old(self).at_sum(6) ==> final(self).read_sum(old(self), r),
            old(self).expr_error(6) matches Some(e) ==> r == Err::<Type, CompilerError>(e),
            old(self).bin_at(6) matches Some((o1, x, o2, y, op)) ==> ((x is Number || x is Infer) && (y is Number || y is Infer) ==> r == Ok::<
                Type,
                CompilerError,
            >(Type::Number) && final(self).code() == old(self).code() + seq![o1, o2, op]),
        decreases old(self).fuel(), 8int,
    {
        let ghost (t1, p1) = lex(old(self).text(), old(self).pos());
        let ghost (t2, p2) = lex(old(self).text(), p1);
        let ghost bin = old(self).bin_at(6);
        assert(bin is Some ==> old(self).at_operand(5));
        let mut tp = self.parse_arifm_and()?;
        while self.current_token == Token::ArifmOr
            invariant
                (t1, p1) == lex(old(self).text(), old(self).pos()),
                (t2, p2) == lex(old(self).text(), p1),
                bin == old(self).bin_at(6),
                bin matches Some((o1, x, o2, y, op)) ==> self.text() == old(self).text() && {
                    ||| self.code() == old(self).code().push(o1) && (self.token(), self.pos()) == (t1, p1) && tp == x
                        && self.vars() == old(self).vars() && self.names_same(old(self)) && self.depth()
                        == old(self).depth()
                    ||| self.code() == old(self).code() + seq![o1, o2, op] && !binds(6, self.token())
                        && ((x is Number || x is Infer) && (y is Number || y is Infer) ==> tp == Type::Number)
                },
                old(self).at_operand(6) ==> self.read_operand(old(self), Ok::<Type, CompilerError>(tp)),
                old(self).at_text(6) ==> self.read_text(old(self), Ok::<Type, CompilerError>(tp)),
                old(self).at_sum(6) ==> self.read_sum(old(self), Ok::<Type, CompilerError>(tp)),
                old(self).expr_error(6) is None,
                self.kept(old(self)),
                self.progressed(old(self)),
                self.balanced(old(self)),
            decreases self.fuel(),
        {
            self.advance_token();
            proof {
                if bin is Some {
                    assert((self.token(), self.pos()) == (t2, p2));
                    assert(self.operand() == old(self).operand_at(t2, p2));
                    assert(self.at_operand(5));
                }
            }
            let oth_tp = self.parse_arifm_and()?;
            if !Self::types_match(&tp, &Type::Number) && !matches!(tp, Type::Infer) {
                let m = Self::plain("Expected number in bitwise OR");
                return self.throw_error(CompilerError::UnexpectedArg, m);
            }
            if !Self::types_match(&oth_tp, &Type::Number) && !matches!(oth_tp, Type::Infer) {
                let m = Self::plain("Expected number in bitwise OR");
                return self.throw_error(CompilerError::UnexpectedArg, m);
            }
            self.emit(Op::ArifmOr);
            tp = Type::Number;
        }
        Ok(tp)
    }

    fn parse_arifm_and(&mut self) -> (r: Result<Type, CompilerError>)
        requires
            old(self).inv(),
        ensures
            final(self).kept(old(self)),
            r is Ok ==> final(self).progressed(old(self)) && final(self).balanced(old(self)),
            old(self).at_operand(5) ==> final(self).read_operand(old(self), r),
            old(self).at_text(5) ==> final(self).read_text(old(self), r),
            old(self).at_sum(5) ==> final(self).read_sum(old(self), r),
            old(self).expr_error(5) matches Some(e) ==> r == Err::<Type, CompilerError>(e),
            old(self).bin_at(5) matches Some((o1, x, o2, y, op)) ==> ((x is Number || x is Infer) && (y is Number || y is Infer) ==> r == Ok::<
                Type,
                CompilerError,
            >(Type::Number) && final(self).code() == old(self).code() + seq![o1, o2, op]),
        decreases old(self).fuel(), 7int,
    {
        let ghost (t1, p1) = lex(old(self).text(), old(self).pos());
        let ghost (t2, p2) = lex(old(self).text(), p1);
        let ghost bin = old(self).bin_at(5);
        assert(bin is Some ==> old(self).at_operand(4));
        let mut tp = self.parse_term()?;
        while self.current_token == Token::ArifmAnd
            invariant
                (t1, p1) == lex(old(self).text(), old(self).pos()),
                (t2, p2) == lex(old(self).text(), p1),
                bin == old(self).bin_at(5),
                bin matches Some((o1, x, o2, y, op)) ==> self.text() == old(self).text() && {
                    ||| self.code() == old(self).code().push(o1) && (self.token(), self.pos()) == (t1, p1) && tp == x
                        && self.vars() == old(self).vars() && self.names_same(old(self)) && self.depth()
                        == old(self).depth()
                    ||| self.code() == old(self).code() + seq![o1, o2, op] && !binds(5, self.token())
                        && ((x is Number || x is Infer) && (y is Number || y is Infer) ==> tp == Type::Number)
                },
                old(self).at_operand(5) ==> self.read_operand(old(self), Ok::<Type, CompilerError>(tp)),
                old(self).at_text(5) ==> self.read_text(old(self), Ok::<Type, CompilerError>(tp)),
                old(self).at_sum(5) ==> self.read_sum(old(self), Ok::<Type, CompilerError>(tp)),
                old(self).expr_error(5) is None,
                self.kept(old(self)),
                self.progressed(old(self)),
                self.balanced(old(self)),
            decreases self.fuel(),
        {
            self.advance_token();
            proof {
                if bin is Some {
                    assert((self.token(), self.pos()) == (t2, p2));
                    assert(self.operand() == old(self).operand_at(t2, p2));
                    assert(self.at_operand(4));
                }
            }
            let oth_tp = self.parse_term()?;
            if !Self::types_match(&tp, &Type::Number) && !matches!(tp, Type::Infer) {
                let m = Self::plain("Expected number in bitwise AND");
                return self.throw_error(CompilerError::UnexpectedArg, m);
            }
            if !Self::types_match(&oth_tp, &Type::Number) && !matches!(oth_tp, Type::Infer) {
                let m = Self::plain("Expected number in bitwise AND");
                return self.throw_error(CompilerError::UnexpectedArg, m);
            }
            self.emit(Op::ArifmAnd);
            tp = Type::Number;
        }
        Ok(tp)
    }

    fn parse_term(&mut self) -> (r: Result<Type, CompilerError>)
        requires
            old(self).inv(),
        ensures
            final(self).kept(old(self)),
            r is Ok ==> final(self).progressed(old(self)) && final(self).balanced(old(self)),
            old(self).at_operand(4) ==> final(self).read_operand(old(self), r),
            old(self).at_text(4) ==> final(self).read_text(old(self), r),
            old(self).expr_error(4) matches Some(e) ==> r == Err::<Type, CompilerError>(e),
            old(self).sum_at() is Some ==> final(self).read_sum(old(self), r),
        decreases old(self).fuel(), 6int,
    {
        let ghost (t1, p1) = lex(old(self).text(), old(self).pos());
        let ghost (t2, p2) = lex(old(self).text(), p1);
        let ghost sum = old(self).sum_at();
        assert(sum is Some ==> old(self).at_operand(3));
        let mut tp = self.parse_factor()?;
        while self.current_token == Token::Plus || self.current_token == Token::Minus
            invariant
                (t1, p1) == lex(old(self).text(), old(self).pos()),
                (t2, p2) == lex(old(self).text(), p1),
                sum == old(self).sum_at(),
                sum matches Some((o1, o2, op)) ==> self.text() == old(self).text() && {
                    ||| self.code() == old(self).code().push(o1) && (self.token(), self.pos()) == (t1, p1) && tp
                        == old(self).operand()->Some_0.1 && self.vars() == old(self).vars() && self.names_same(old(self))
                        && self.depth() == old(self).depth() && self.loops() == old(self).loops()
                    ||| self.code() == old(self).code() + seq![o1, o2, op] && (self.token(), self.pos()) == lex(
                        old(self).text(),
                        p2,
                    ) && tp == Type::Number && self.loops() == old(self).loops()
                },
                old(self).at_operand(4) ==> self.read_operand(old(self), Ok::<Type, CompilerError>(tp)),
                old(self).at_text(4) ==> self.read_text(old(self), Ok::<Type, CompilerError>(tp)),
                old(self).expr_error(4) is None,
                self.kept(old(self)),
                self.progressed(old(self)),
                self.balanced(old(self)),
            decreases self.fuel(),
        {
            let is_plus = self.current_token == Token::Plus;
            self.advance_token();
            proof {
                if sum is Some {
                    assert((self.token(), self.pos()) == (t2, p2));
                    assert(self.operand() == old(self).operand_at(t2, p2));
                    assert(self.at_operand(3));
                }
            }
            let oth_tp = self.parse_factor()?;
            if is_plus && (matches!(tp, Type::Str) || matches!(oth_tp, Type::Str)) {
                if !Self::types_match(&tp, &Type::Str) && !matches!(tp, Type::Infer) {
                    let m = Self::plain("Type mismatch in string concatenation");
                    return self.throw_error(CompilerError::UnexpectedArg, m);
                }
                if !Self::types_match(&oth_tp, &Type::Str) && !matches!(oth_tp, Type::Infer) {
                    let m = Self::plain("Type mismatch in string concatenation");
                    return self.throw_error(CompilerError::UnexpectedArg, m);
                }
                tp = Type::Str;
            } else if matches!(tp, Type::Float) || matches!(oth_tp, Type::Float) {
                if !Self::types_match(&tp, &Type::Float) && !matches!(tp, Type::Infer) {
                    let m = Self::plain("Expected float");
                    return self.throw_error(CompilerError::UnexpectedArg, m);
                }
                if !Self::types_match(&oth_tp, &Type::Float) && !matches!(oth_tp, Type::Infer) {
                    let m = Self::plain("Expected float");
                    return self.throw_error(CompilerError::UnexpectedArg, m);
                }
                tp = Type::Float;
            } else {
                if !Self::types_match(&tp, &Type::Number) && !matches!(tp, Type::Infer) {
                    let m = Self::plain("Expected number");
                    return self.throw_error(CompilerError::UnexpectedArg, m);
                }
                if !Self::types_match(&oth_tp, &Type::Number) && !matches!(oth_tp, Type::Infer) {
                    let m = Self::plain("Expected number");
                    return self.throw_error(CompilerError::UnexpectedArg, m);
                }
                tp = Type::Number;
            }
            self.emit(if is_plus { Op::Plus } else { Op::Sub });
        }
        Ok(tp)
    }

    /// Whether the last instruction pushes a zero literal.
    fn last_is_zero(&self) -> (r: bool)
        ensures
            r == (self.code().len() > 0 && match self.code().last() {
                Op::PushNumber(k) => k == 0,
                Op::PushFloat(t) => forall|i: int| 0 <= i < t@.len() ==> t@[i] == '0' || t@[i] == '.' || t@[i] == '_',
                _ => false,
            }),
    {
        let n = self.code.len();
        if n == 0 {
            return false;
        }
        match &self.code[n - 1] {
            Op::PushNumber(k) => *k == 0,
            Op::PushFloat(t) => float_is_zero(t),
            _ => false,
        }
    }

    fn parse_factor(&mut self) -> (r: Result<Type, CompilerError>)
        requires
            old(self).inv(),
        ensures
            final(self).kept(old(self)),
            r is Ok ==> final(self).progressed(old(self)) && final(self).balanced(old(self)),
            old(self).at_operand(3) ==> final(self).read_operand(old(self), r),
            old(self).at_text(3) ==> final(self).read_text(old(self), r),
            old(self).expr_error(3) matches Some(e) ==> r == Err::<Type, CompilerError>(e),
            old(self).bin_at(3) matches Some((o1, x, o2, y, op)) ==> ((x is Number || x is Infer) && (y is Number || y is Infer) && !(op == Op::Div && o2 == Op::PushNumber(0)) ==> r == Ok::<
                Type,
                CompilerError,
            >(Type::Number) && final(self).code() == old(self).code() + seq![o1, o2, op]),
        decreases old(self).fuel(), 5int,
    {
        let ghost (t1, p1) = lex(old(self).text(), old(self).pos());
        let ghost (t2, p2) = lex(old(self).text(), p1);
        let ghost bin = old(self).bin_at(3);
        assert(bin is Some ==> old(self).at_operand(2));
        let mut tp = self.parse_power()?;
        while self.current_token == Token::Mult || self.current_token == Token::Div
            invariant
                (t1, p1) == lex(old(self).text(), old(self).pos()),
                (t2, p2) == lex(old(self).text(), p1),
                bin == old(self).bin_at(3),
                bin matches Some((o1, x, o2, y, op)) ==> self.text() == old(self).text() && {
                    ||| self.code() == old(self).code().push(o1) && (self.token(), self.pos()) == (t1, p1) && tp == x
                        && self.vars() == old(self).vars() && self.names_same(old(self)) && self.depth()
                        == old(self).depth()
                    ||| self.code() == old(self).code() + seq![o1, o2, op] && !binds(3, self.token())
                        && ((x is Number || x is Infer) && (y is Number || y is Infer) && !(op == Op::Div && o2 == Op::PushNumber(0)) ==> tp == Type::Number)
                },
                old(self).at_operand(3) ==> self.read_operand(old(self), Ok::<Type, CompilerError>(tp)),
                old(self).at_text(3) ==> self.read_text(old(self), Ok::<Type, CompilerError>(tp)),
                old(self).expr_error(3) is Some ==> self.read_operand(old(self), Ok::<Type, CompilerError>(tp)),
                self.kept(old(self)),
                self.progressed(old(self)),
                self.balanced(old(self)),
            decreases self.fuel(),
        {
            let is_star = self.current_token == Token::Mult;
            self.advance_token();
            proof {
                if bin is Some {
                    assert((self.token(), self.pos()) == (t2, p2));
                    assert(self.operand() == old(self).operand_at(t2, p2));
                    assert(self.at_operand(2));
                }
            }
            let oth_tp = self.parse_power()?;
            if !is_star && self.last_is_zero() {
                let m = Self::plain("Division by zero is not allowed");
                return self.throw_error(CompilerError::UnexpectedArg, m);
            }
            if matches!(tp, Type::Float) || matches!(oth_tp, Type::Float) {
                if !Self::types_match(&tp, &Type::Float) && !matches!(tp, Type::Infer) {
                    let m = Self::plain("Expected float");
                    return self.throw_error(CompilerError::UnexpectedArg, m);
                }
                if !Self::types_match(&oth_tp, &Type::Float) && !matches!(oth_tp, Type::Infer) {
                    let m = Self::plain("Expected float");
                    return self.throw_error(CompilerError::UnexpectedArg, m);
                }
                tp = Type::Float;
            } else {
                if !Self::types_match(&tp, &Type::Number) && !matches!(tp, Type::Infer) {
                    let m = Self::plain("Expected number");
                    return self.throw_error(CompilerError::UnexpectedArg, m);
                }
                if !Self::types_match(&oth_tp, &Type::Number) && !matches!(oth_tp, Type::Infer) {
                    let m = Self::plain("Expected number");
                    return self.throw_error(CompilerError::UnexpectedArg, m);
                }
                tp = Type::Number;
            }
            self.emit(if is_star { Op::Mult } else { Op::Div });
        }
        Ok(tp)
    }

    fn parse_power(&mut self) -> (r: Result<Type, CompilerError>)
        requires
            old(self).inv(),
        ensures
            final(self).kept(old(self)),
            r is Ok ==> final(self).progressed(old(self)) && final(self).balanced(old(self)),
            old(self).at_operand(2) ==> final(self).read_operand(old(self), r),
            old(self).at_text(2) ==> final(self).read_text(old(self), r),
            old(self).expr_error(2) matches Some(e) ==> r == Err::<Type, CompilerError>(e),
            old(self).bin_at(2) matches Some((o1, x, o2, y, op)) ==> ((x is Number || x is Infer) && (y is Number || y is Infer) && !(op == Op::Pow && (o2 matches Op::PushNumber(k) && k < 0)) ==> r
                == Ok::<Type, CompilerError>(Type::Number) && final(self).code() == old(self).code() + seq![o1, o2, op]),
        decreases old(self).fuel(), 4int,
    {
        let ghost (t1, p1) = lex(old(self).text(), old(self).pos());
        let ghost (t2, p2) = lex(old(self).text(), p1);
        let ghost bin = old(self).bin_at(2);
        assert(bin is Some ==> old(self).at_operand(1));
        let mut tp = self.parse_unary()?;
        if self.current_token == Token::Pow || self.current_token == Token::Mod {
            let is_pow = self.current_token == Token::Pow;
            self.advance_token();
            proof {
                if bin is Some {
                    assert((self.token(), self.pos()) == (t2, p2));
                    assert(self.operand() == old(self).operand_at(t2, p2));
                    assert(self.at_operand(2));
                }
            }
            let oth_tp = self.parse_power()?;
            if is_pow {
                let n = self.code.len();
                let negative = match &self.code[n - 1] {
                    Op::PushNumber(k) => *k < 0,
                    _ => false,
                };
                if negative {
                    let m = Self::plain("Power must be positive");
                    return self.throw_error(CompilerError::UnexpectedArg, m);
                }
            }
            if !Self::types_match(&tp, &Type::Number) && !matches!(tp, Type::Infer) {
                let m = Self::plain("Expected number in power/mod operation");
                return self.throw_error(CompilerError::UnexpectedArg, m);
            }
            if !Self::types_match(&oth_tp, &Type::Number) && !matches!(oth_tp, Type::Infer) {
                let m = Self::plain("Expected number in power/mod operation");
                return self.throw_error(CompilerError::UnexpectedArg, m);
            }
            tp = Type::Number;
            self.emit(if is_pow { Op::Pow } else { Op::Mod });
        }
        Ok(tp)
    }

    /// The frame distance from the current function to one at `var_depth`.
    fn depth_delta(&self, var_depth: usize) -> (r: Result<usize, CompilerError>)
        ensures
            r is Ok ==> r->Ok_0 == self.scope_depth - var_depth,
            r is Err ==> var_depth > self.scope_depth,
    {
        if var_depth > self.scope_depth {
            Err(CompilerError::UnfindedVar)
        } else {
            Ok(self.scope_depth - var_depth)
        }
    }

    /// The type an indexing step gives for a value of type `tp`.
    fn element_type(tp: Type) -> (r: Type)
        ensures
            r == match tp {
                Type::Array(b) => *b,
                Type::Iter(b) => *b,
                _ => Type::Infer,
            },
    {
        match tp {
            Type::Array(b) => *b,
            Type::Iter(b) => *b,
            _ => Type::Infer,
        }
    }

    #[verifier::spinoff_prover]
    #[verifier::rlimit(40)]
    fn parse_unary(&mut self) -> (r: Result<Type, CompilerError>)
        requires
            old(self).inv(),
        ensures
            final(self).kept(old(self)),
            r is Ok ==> final(self).progressed(old(self)) && final(self).balanced(old(self)),
            old(self).at_operand(1) ==> final(self).read_operand(old(self), r),
            old(self).at_text(1) ==> final(self).read_text(old(self), r),
            old(self).expr_error(1) matches Some(e) ==> r == Err::<Type, CompilerError>(e),
            ({
                let (t1, p1) = lex(old(self).text(), old(self).pos());
                old(self).token() is Not && !binds(1, lex(old(self).text(), p1).0)
            }) ==> match old(self).operand_at(
                lex(old(self).text(), old(self).pos()).0,
                lex(old(self).text(), old(self).pos()).1,
            ) {
                Some((op, t)) => if types_match_spec(t, Type::Bool) || t is Infer {
                    &&& r == Ok::<Type, CompilerError>(Type::Bool)
                    &&& final(self).code() == old(self).code().push(op).push(Op::Not)
                } else {
                    r == Err::<Type, CompilerError>(CompilerError::UnexpectedArg)
                },
                None => true,
            },
        decreases old(self).fuel(), 3int,
    {
        match self.current_token {
            Token::Not => {
                self.advance_token();
                proof {
                    let (t1, p1) = lex(old(self).text(), old(self).pos());
                    if !binds(1, lex(old(self).text(), p1).0) && old(self).operand_at(t1, p1) is Some {
                        assert(self.operand() == old(self).operand_at(t1, p1));
                        assert(self.at_operand(1));
                    }
                }
                let tp = self.parse_unary()?;
                if !Self::types_match(&tp, &Type::Bool) && !matches!(tp, Type::Infer) {
                    let m = Self::plain("Expected bool in logical NOT");
                    return self.throw_error(CompilerError::UnexpectedArg, m);
                }
                self.emit(Op::Not);
                Ok(Type::Bool)
            },
            Token::Inc | Token::Dec => {
                let is_inc = self.current_token == Token::Inc;
                self.advance_token();
                let name = match self.current_ident() {
                    Some(k) => k,
                    None => return Err(CompilerError::UnexpectedArg),
                };
                self.advance_token();
                let (var_id, var_depth, var_type) = match self.lookup(name) {
                    Some(v) => v,
                    None => return Err(CompilerError::UnexpectedArg),
                };
                let vt = match var_type {
                    Some(t) => t,
                    None => Type::Infer,
                };
                if !Self::types_match(&vt, &Type::Number) {
                    let m = Self::plain("Expected number for inc/dec operation");
                    return self.throw_error(CompilerError::UnexpectedArg, m);
                }
                let is_global = var_depth == 0;
                let depth_delta = self.depth_delta(var_depth)?;
                let mut deep: usize = 0;
                if self.current_token == Token::LBracket {
                    self.emit_load(is_global, var_id, depth_delta);
                    while self.next_if(Token::LBracket)
                        invariant
                            !old(self).at_operand(1),
                            !old(self).at_text(1),
                            old(self).expr_error(1) is None,
                            !(old(self).token() is Not),
                            self.kept(old(self)),
                            self.progressed(old(self)),
                            self.balanced(old(self)),
                            self.scope_depth == old(self).scope_depth,
                        decreases self.fuel(),
                    {
                        if deep == usize::MAX {
                            return Err(CompilerError::UnexpectedArg);
                        }
                        deep = deep + 1;
                        self.parse_expression()?;
                        self.expect(Token::RBracket)?;
                    }
                }
                let op1 = if is_inc { Op::Plus } else { Op::Sub };
                if deep != 0 {
                    self.emit(Op::DupTarget(deep));
                    self.emit(Op::LoadIndex(deep));
                    self.emit(Op::PushNumber(1));
                    self.emit(op1);
                    let temp_slot = self.new_slot()?;
                    self.emit(Op::Dup);
                    let at_top = self.scope_depth == 0;
                    self.emit_store(at_top, temp_slot, depth_delta);
                    self.emit(Op::StoreIndex(deep));
                    self.emit_store(is_global, var_id, depth_delta);
                    self.emit_load(at_top, temp_slot, depth_delta);
                    self.next_slot = temp_slot;
                } else {
                    self.emit_load(is_global, var_id, depth_delta);
                    self.emit(Op::PushNumber(1));
                    self.emit(op1);
                    self.emit(Op::Dup);
                    self.emit_store(is_global, var_id, depth_delta);
                }
                Ok(Type::Number)
            },
            _ => self.parse_primary(),
        }
    }
}

impl Compiler {
    /// The digits of the floating-point literal at `[a, b)`, without
    /// underscores.
    fn float_text(&self, a: usize, b: usize) -> (r: Vec<char>)
        requires
            a <= b <= self.text().len(),
            self.inv(),
        ensures
            r@ == crate::lexer::drop_underscores(self.text().subrange(a as int, b as int)),
    {
        let raw = self.lexer.slice(a, b);
        let mut out: Vec<char> = Vec::new();
        let mut i: usize = 0;
        while i < raw.len()
            invariant
                i <= raw.len(),
                out@ == crate::lexer::drop_underscores(raw@.take(i as int)),
            decreases raw.len() - i,
        {
            assert(raw@.take(i + 1).drop_last() =~= raw@.take(i as int));
            if raw[i] != '_' {
                out.push(raw[i]);
            }
            i = i + 1;
        }
        assert(raw@.take(raw.len() as int) =~= raw@);
        out
    }

    /// A literal, variable, call, block, `if`, `match`, closure, array,
    /// tuple, `Ok`/`Err`/`Some`/`None`, `let` test or range start, followed
    /// by any indexing, method calls and `?`.
    #[verifier::rlimit(100)]
    #[verifier::spinoff_prover]
    fn parse_primary(&mut self) -> (r: Result<Type, CompilerError>)
        requires
            old(self).inv(),
        ensures
            final(self).kept(old(self)),
            r is Ok ==> final(self).progressed(old(self)) && final(self).balanced(old(self)),
            old(self).at_operand(0) ==> final(self).read_operand(old(self), r),
            old(self).at_text(0) ==> final(self).read_text(old(self), r),
            old(self).expr_error(0) matches Some(e) ==> r == Err::<Type, CompilerError>(e),
            old(self).pair_array() matches Some((o1, o2, t)) ==> r == Ok::<Type, CompilerError>(
                Type::Array(Box::new(t)),
            ) && final(self).code() == old(self).code() + seq![o1, o2, Op::MakeSet(2)],
        decreases old(self).fuel(), 2int,
    {
        let ghost pair = old(self).pair_array() is Some;
        let ghost (po1, po2, pt) = old(self).pair_array()->Some_0;
        let ghost q3 = lex(old(self).text(), lex(old(self).text(), lex(old(self).text(), old(self).pos()).1).1).1;
        let ghost q4 = lex(old(self).text(), q3).1;
        let mut tp = match self.current_token {
            Token::String(a, b) => {
                let s = self.lexer.slice(a, b);
                self.advance_token();
                self.emit(Op::PushStr(s));
                Type::Str
            },
            Token::Char(c) => {
                self.advance_token();
                self.emit(Op::PushChar(c));
                Type::Char
            },
            Token::Number(n) => {
                self.advance_token();
                self.emit(Op::PushNumber(n));
                Type::Number
            },
            Token::Float(a, b) => {
                let f = self.float_text(a, b);
                self.advance_token();
                self.emit(Op::PushFloat(f));
                Type::Float
            },
            Token::Bool(b) => {
                self.advance_token();
                self.emit(Op::PushBool(b));
                Type::Bool
            },
            Token::ArifmOr | Token::Or => {
                self.parse_fn(None, None)?;
                Type::Infer
            },
            Token::DotDot => {
                self.advance_token();
                self.emit(Op::PushNumber(0));
                let incl = self.next_if(Token::Assign);
                if self.current_token == Token::RBracket {
                    self.emit(Op::PushNumber(i64::MAX));
                } else {
                    let end_tp = self.parse_expression()?;
                    if !Self::types_match(&end_tp, &Type::Number) {
                        let m = Self::plain("Expected number in range");
                        return self.throw_error(CompilerError::UnexpectedArg, m);
                    }
                }
                self.emit(Op::MakeRange(incl));
                Type::Iter(Box::new(Type::Number))
            },
            Token::KwOk | Token::KwSome | Token::KwErr => {
                let kind = self.current_token;
                self.advance_token();
                self.expect(Token::LParen)?;
                let inner_tp = self.parse_expression()?;
                self.emit(
                    match kind {
                        Token::KwOk => Op::MakeOk,
                        Token::KwErr => Op::MakeErr,
                        _ => Op::MakeSome,
                    },
                );
                self.expect(Token::RParen)?;
                match kind {
                    Token::KwSome => Type::Cat(Box::new(inner_tp)),
                    Token::KwOk => Type::Result(Box::new((inner_tp, Type::Infer))),
                    _ => Type::Result(Box::new((Type::Infer, inner_tp))),
                }
            },
            Token::Let => {
                self.advance_token();
                let is_right = match self.current_token {
                    Token::KwOk | Token::KwSome => true,
                    Token::KwErr => false,
                    Token::Ident(a, b) => {
                        let name = self.intern(a, b);
                        self.advance_token();
                        self.expect(Token::Assign)?;
                        let var_id = self.new_slot()?;
                        let expr_type = self.parse_equality()?;
                        self.declare(name, var_id, Some(expr_type));
                        let at_top = self.scope_depth == 0;
                        self.emit_store(at_top, var_id, 0);
                        self.emit(Op::PushBool(true));
                        let end_jump = self.add_plug(Op::Jump(0));
                        self.emit(Op::PushBool(false));
                        self.patch_plug(end_jump);
                        return Ok(Type::Bool);
                    },
                    _ => return Err(CompilerError::UnexpectedArg),
                };
                let kind = self.current_token;
                self.advance_token();
                self.expect(Token::LParen)?;
                let name = match self.current_ident() {
                    Some(k) => k,
                    None => return Err(CompilerError::UnexpectedArg),
                };
                self.advance_token();
                self.expect(Token::RParen)?;
                self.expect(Token::Assign)?;
                let expr_type = self.parse_equality()?;
                self.emit(Op::Dup);
                let fail_jump = self.add_plug(if is_right { Op::SafeUnwR(0) } else { Op::SafeUnwL(0) });
                let inner_type = match expr_type {
                    Type::Result(boxed) => match kind {
                        Token::KwOk => boxed.0,
                        _ => boxed.1,
                    },
                    Type::Cat(boxed) => match kind {
                        Token::KwSome => *boxed,
                        _ => Type::Infer,
                    },
                    _ => Type::Infer,
                };
                let var_id = self.new_slot()?;
                self.declare(name, var_id, Some(inner_type));
                let at_top = self.scope_depth == 0;
                self.emit_store(at_top, var_id, 0);
                self.emit(Op::Pop);
                self.emit(Op::PushBool(true));
                let end_jump = self.add_plug(Op::Jump(0));
                self.patch_any(fail_jump);
                self.emit(Op::Pop);
                self.emit(Op::PushBool(false));
                self.patch_plug(end_jump);
                Type::Bool
            },
            Token::KwNone => {
                self.advance_token();
                self.emit(Op::PushNone);
                Type::Cat(Box::new(Type::Infer))
            },
            Token::LBracket => {
                self.advance_token();
                let mut arg_count: usize = 0;
                let mut elem_type = Type::Infer;
                let ghost mixed = old(self).expr_error(0) is Some;
                let ghost p1 = lex(old(self).text(), old(self).pos()).1;
                let ghost p2 = lex(old(self).text(), p1).1;
                let ghost x = elem_type_of(lex(old(self).text(), old(self).pos()).0)->Some_0;
                while !self.next_if(Token::RBracket)
                    invariant
                        !old(self).at_operand(0),
                        !old(self).at_text(0),
                        old(self).expr_error(0) is None || old(self).token() is LBracket,
                        mixed == (old(self).expr_error(0) is Some),
                        old(self).token() is LBracket,
                        p1 == lex(old(self).text(), old(self).pos()).1,
                        p2 == lex(old(self).text(), p1).1,
                        x == elem_type_of(lex(old(self).text(), old(self).pos()).0)->Some_0,
                        pair == (old(self).pair_array() is Some),
                        pair ==> old(self).pair_array() == Some((po1, po2, pt)),
                        q3 == lex(old(self).text(), p2).1,
                        q4 == lex(old(self).text(), q3).1,
                        pair ==> self.text() == old(self).text() && {
                            ||| arg_count == 0 && elem_type == Type::Infer && self.code() == old(self).code() && (
                            self.token(), self.pos()) == lex(old(self).text(), old(self).pos())
                            ||| arg_count == 1 && elem_type == pt && self.code() == old(self).code().push(po1) && (
                            self.token(), self.pos()) == lex(old(self).text(), p2)
                            ||| arg_count == 2 && elem_type == pt && self.code() == old(self).code() + seq![po1, po2] && (
                            self.token(), self.pos()) == lex(old(self).text(), q3)
                        },
                        mixed ==> self.text() == old(self).text() && ((arg_count == 0 && elem_type == Type::Infer && (
                        self.token(), self.pos()) == lex(old(self).text(), old(self).pos())) || (arg_count == 1
                            && elem_type == x && (self.token(), self.pos()) == lex(old(self).text(), p2))),
                        self.kept(old(self)),
                        self.fuel() < old(self).fuel(),
                        self.code@.len() >= old(self).code@.len(),
                        self.balanced(old(self)),
                    decreases self.fuel(),
                {
                    if arg_count == usize::MAX {
                        return Err(CompilerError::UnexpectedArg);
                    }
                    arg_count = arg_count + 1;
                    let inner_tp = self.parse_expression()?;
                    if matches!(elem_type, Type::Infer) {
                        elem_type = inner_tp;
                    } else if !matches!(inner_tp, Type::Infer) && !Self::types_match(&elem_type, &inner_tp) {
                        let m = Self::plain("Type mismatch in array elements");
                        return self.throw_error(CompilerError::UnexpectedArg, m);
                    }
                    self.next_if(Token::Comma);
                }
                self.emit(Op::MakeSet(arg_count));
                Type::Array(Box::new(elem_type))
            },
            Token::If => self.parse_if(true)?,
            Token::Match => self.parse_match()?,
            Token::Ident(a, b) => self.parse_ident(a, b)?,
            Token::Begin => self.parse_block()?,
            Token::LParen => {
                self.advance_token();
                if self.next_if(Token::RParen) {
                    self.emit(Op::PushVoid);
                } else {
                    self.parse_expression()?;
                    let mut count: usize = 1;
                    let mut is_tuple = false;
                    while self.next_if(Token::Comma)
                        invariant
                            !old(self).at_operand(0),
                            !old(self).at_text(0),
                            old(self).expr_error(0) is None,
                            old(self).pair_array() is None,
                            self.kept(old(self)),
                            self.progressed(old(self)),
                            self.balanced(old(self)),
                        decreases self.fuel(),
                    {
                        is_tuple = true;
                        if self.current_token == Token::RParen {
                            break;
                        }
                        self.parse_expression()?;
                        if count == usize::MAX {
                            return Err(CompilerError::UnexpectedArg);
                        }
                        count = count + 1;
                    }
                    self.expect(Token::RParen)?;
                    if is_tuple {
                        self.emit(Op::MakeTuple(count));
                    }
                }
                Type::Infer
            },
            _ => return Err(CompilerError::UnexpectedArg),
        };
        loop
            invariant
                self.kept(old(self)),
                self.progressed(old(self)),
                self.balanced(old(self)),
                old(self).at_operand(0) ==> self.read_operand(old(self), Ok::<Type, CompilerError>(tp)),
                old(self).at_text(0) ==> self.read_text(old(self), Ok::<Type, CompilerError>(tp)),
                old(self).expr_error(0) is None,
                pair == (old(self).pair_array() is Some),
                pair ==> old(self).pair_array() == Some((po1, po2, pt)),
                q3 == lex(old(self).text(), lex(old(self).text(), lex(old(self).text(), old(self).pos()).1).1).1,
                q4 == lex(old(self).text(), q3).1,
                pair ==> tp == Type::Array(Box::new(pt)) && self.code() == old(self).code() + seq![po1, po2, Op::MakeSet(2)]
                    && (self.token(), self.pos()) == lex(old(self).text(), q4) && self.text() == old(self).text(),
            decreases self.fuel(),
        {
            proof {
                if pair {
                    let (t1, p1) = lex(old(self).text(), old(self).pos());
                    let (t2, p2) = lex(old(self).text(), p1);
                    let (t3, p3) = lex(old(self).text(), p2);
                    assert(p3 == q3);
                    assert(!binds(0, self.token()));
                }
            }
            let ghost iter_start = self.fuel();
            if self.next_if(Token::LBracket) {
                let idx_type = self.parse_expression()?;
                if self.last_is_negative() {
                    let m = Self::plain("Index cannot be negative");
                    return self.throw_error(CompilerError::UnexpectedArg, m);
                }
                let num_iter = Type::Iter(Box::new(Type::Number));
                if !Self::types_match(&idx_type, &Type::Number) && !Self::types_match(&idx_type, &num_iter) {
                    return self.throw_error(CompilerError::UnexpectedArg, Message::IndexType(idx_type));
                }
                self.expect(Token::RBracket)?;
                let mut arg_count: usize = 1;
                while self.next_if(Token::LBracket)
                    invariant
                        !old(self).at_operand(0),
                        !old(self).at_text(0),
                        old(self).expr_error(0) is None,
                        old(self).pair_array() is None,
                        self.kept(old(self)),
                        self.progressed(old(self)),
                        self.balanced(old(self)),
                        self.fuel() < iter_start,
                    decreases self.fuel(),
                {
                    if arg_count == usize::MAX {
                        return Err(CompilerError::UnexpectedArg);
                    }
                    arg_count = arg_count + 1;
                    let inner_idx_type = self.parse_expression()?;
                    if self.last_is_negative() {
                        let m = Self::plain("Index cannot be negative");
                        return self.throw_error(CompilerError::UnexpectedArg, m);
                    }
                    if !Self::types_match(&inner_idx_type, &Type::Number) && !Self::types_match(
                        &inner_idx_type,
                        &num_iter,
                    ) {
                        return self.throw_error(CompilerError::UnexpectedArg, Message::IndexType(idx_type));
                    }
                    self.expect(Token::RBracket)?;
                }
                self.emit(Op::LoadIndex(arg_count));
                let mut k: usize = 0;
                while k < arg_count
                    invariant
                        k <= arg_count,
                    decreases arg_count - k,
                {
                    tp = Self::element_type(tp);
                    k = k + 1;
                }
            } else if self.next_if(Token::Dot) {
                let method = match self.current_token {
                    Token::Ident(a, b) => {
                        let k = self.intern(a, b);
                        self.advance_token();
                        k
                    },
                    _ => return Err(CompilerError::UnexpectedArg),
                };
                self.expect(Token::LParen)?;
                let text = self.name_text(method);
                let first = tp.copy();
                self.parse_func_call(method, &text, Some(first))?;
                tp = Self::func_return_type(&text);
            } else if self.next_if(Token::Query) {
                self.emit(Op::Try);
                tp = match tp {
                    Type::Result(boxed) => boxed.0,
                    Type::Cat(boxed) => *boxed,
                    _ => Type::Infer,
                };
            } else {
                break;
            }
        }
        Ok(tp)
    }

    /// Whether the last instruction pushes a negative number.
    fn last_is_negative(&self) -> (r: bool)
        ensures
            r == (self.code().len() > 0 && match self.code().last() {
                Op::PushNumber(k) => k < 0,
                _ => false,
            }),
    {
        let n = self.code.len();
        if n == 0 {
            return false;
        }
        match &self.code[n - 1] {
            Op::PushNumber(k) => *k < 0,
            _ => false,
        }
    }
}

impl Compiler {
    /// A call `name(args)` whose `(` has been read; `first_arg_type` is the
    /// type of the receiver of a method call, whose value is then passed by
    /// reference.
    pub fn parse_func_call(&mut self, name: usize, name_text: &Vec<char>, first_arg_type: Option<Type>) -> (r: Result<(), CompilerError>)
        requires
            old(self).inv(),
            first_arg_type is Some ==> old(self).code().len() > 0,
        ensures
            final(self).kept(old(self)),
            r is Ok ==> final(self).progressed(old(self)) && final(self).balanced(old(self)),
            ({
                &&& old(self).token() is RParen
                &&& first_arg_type is None
                &&& !old(self).fargs().contains_key(name)
                &&& entry(old(self).vars(), name) is None
                &&& std_args_ok(name_text@, Seq::<Type>::empty())
            }) ==> match func_code_spec(name_text@) {
                Some(c) => r is Ok && final(self).code() == old(self).code() + seq![Op::PushNumber(c), Op::CallFunc(0)],
                None => r == Err::<(), CompilerError>(CompilerError::UnknownFunc),
            },
            first_arg_type is None ==> match two_literals(old(self).text(), old(self).token(), old(self).pos()) {
                Some((ty1, ty2)) => if old(self).fargs().contains_key(name) {
                    old(self).fargs()[name]@.len() != 2 ==> r == Err::<(), CompilerError>(CompilerError::UnexpectedArg)
                } else {
                    !std_args_ok(name_text@, seq![ty1, ty2]) ==> r == Err::<(), CompilerError>(
                        CompilerError::UnexpectedArg,
                    )
                },
                None => true,
            },
        decreases old(self).fuel(), 15int,
    {
        let ghost two = first_arg_type is None && two_literals(old(self).text(), old(self).token(), old(self).pos()) is Some;
        let ghost (ty1, ty2) = two_literals(old(self).text(), old(self).token(), old(self).pos())->Some_0;
        let ghost (t1, p1) = lex(old(self).text(), old(self).pos());
        let ghost (t2, p2) = lex(old(self).text(), p1);
        let ghost simple = ({
            &&& old(self).token() is RParen
            &&& first_arg_type is None
            &&& !old(self).fargs().contains_key(name)
            &&& entry(old(self).vars(), name) is None
            &&& std_args_ok(name_text@, Seq::<Type>::empty())
        });
        let mut arg_count: usize = 0;
        let mut actual_arg_types: Vec<Type> = Vec::new();
        if let Some(t) = first_arg_type {
            arg_count = 1;
            actual_arg_types.push(t);
            let n = self.code.len();
            let replaced = match &self.code[n - 1] {
                Op::LoadLocal(i, depth_delta) => Some(Op::PushRefLocal(*i, *depth_delta)),
                Op::LoadGlobal(i) => Some(Op::PushRefGlobal(*i)),
                _ => None,
            };
            if let Some(op) = replaced {
                self.code.set(n - 1, op);
                assert(self.loops_ok());
            }
        }
        let ghost mid = *self;
        while !self.next_if(Token::RParen)
            invariant
                simple ==> *self == *old(self) && arg_count == 0 && actual_arg_types@.len() == 0,
                simple == ({
                    &&& old(self).token() is RParen
                    &&& first_arg_type is None
                    &&& !old(self).fargs().contains_key(name)
                    &&& entry(old(self).vars(), name) is None
                    &&& std_args_ok(name_text@, Seq::<Type>::empty())
                }),
                self.kept(old(self)),
                self.kept(&mid),
                self.fuel() <= old(self).fuel(),
                self.code@.len() >= old(self).code@.len(),
                self.balanced(old(self)),
                two == (first_arg_type is None && two_literals(old(self).text(), old(self).token(), old(self).pos()) is Some),
                two ==> two_literals(old(self).text(), old(self).token(), old(self).pos()) == Some((ty1, ty2)),
                (t1, p1) == lex(old(self).text(), old(self).pos()),
                (t2, p2) == lex(old(self).text(), p1),
                two ==> self.fargs() == old(self).fargs(),
                two ==> {
                    ||| arg_count == 0 && *self == *old(self) && actual_arg_types@.len() == 0
                    ||| arg_count == 1 && actual_arg_types@ == seq![ty1] && (self.token(), self.pos()) == (t2, p2)
                        && self.text() == old(self).text()
                    ||| arg_count == 2 && actual_arg_types@ == seq![ty1, ty2] && self.token() is RParen
                },
            decreases self.fuel(),
        {
            proof {
                if two && arg_count < 2 {
                    assert(literal_of(self.token()) is Some);
                    assert(!binds(11, lex(self.text(), self.pos()).0));
                    assert(self.at_operand(11));
                }
            }
            let at = self.parse_expression()?;
            actual_arg_types.push(at);
            if arg_count == usize::MAX {
                return Err(CompilerError::UnexpectedArg);
            }
            arg_count = arg_count + 1;
            self.next_if(Token::Comma);
        }
        proof {
            if simple {
                assert(actual_arg_types@ =~= Seq::<Type>::empty());
            }
        }
        let expected = match fx_get(&self.functions_args, name) {
            Some(e) => {
                let mut c: Vec<Type> = Vec::new();
                let mut i: usize = 0;
                while i < e.len()
                    invariant
                        i <= e.len(),
                        c@.len() == i,
                    decreases e.len() - i,
                {
                    c.push(e[i].copy());
                    i = i + 1;
                }
                Some(c)
            },
            None => None,
        };
        match expected {
            Some(expected_args) => {
                if expected_args.len() != actual_arg_types.len() {
                    let m = Self::plain("Argument count mismatch");
                    return self.throw_error(CompilerError::UnexpectedArg, m);
                }
                let mut i: usize = 0;
                while i < expected_args.len()
                    invariant
                        !simple,
                        two ==> actual_arg_types@ == seq![ty1, ty2],
                        simple == ({
                            &&& old(self).token() is RParen
                            &&& first_arg_type is None
                            &&& !old(self).fargs().contains_key(name)
                            &&& entry(old(self).vars(), name) is None
                            &&& std_args_ok(name_text@, Seq::<Type>::empty())
                        }),
                        i <= expected_args.len(),
                        expected_args.len() == actual_arg_types.len(),
                        self.kept(old(self)),
                        self.fuel() < old(self).fuel(),
                        self.balanced(old(self)),
                    decreases expected_args.len() - i,
                {
                    if !Self::types_match(&expected_args[i], &actual_arg_types[i]) {
                        let m = Self::plain("Type mismatch in function arguments");
                        return self.throw_error(CompilerError::UnexpectedArg, m);
                    }
                    i = i + 1;
                }
            },
            None => {
                self.check_std_func_args(name_text, &actual_arg_types)?;
            },
        }
        match self.lookup(name) {
            Some((id, depth, _)) => {
                if depth == 0 {
                    self.emit(Op::LoadGlobal(id));
                } else {
                    let depth_delta = self.depth_delta(depth)?;
                    self.emit(Op::LoadLocal(id, depth_delta));
                }
            },
            None => {
                let code = Self::func_code(name_text)?;
                self.emit(Op::PushNumber(code));
            },
        }
        self.emit(Op::CallFunc(arg_count));
        Ok(())
    }

    /// What follows a variable name: a call, a declaration, an assignment
    /// (plain, compound, `++`/`--`, possibly through indices), or a read.
    #[verifier::rlimit(60)]
    #[verifier::spinoff_prover]
    pub fn parse_ident(&mut self, a: usize, b: usize) -> (r: Result<Type, CompilerError>)
        requires
            old(self).inv(),
            old(self).token() == Token::Ident(a, b),
        ensures
            final(self).kept(old(self)),
            r is Ok ==> final(self).progressed(old(self)) && final(self).balanced(old(self)),
            old(self).ident_load(a, b) is Some ==> final(self).read_operand(old(self), r),
            old(self).unknown_name(a, b) && closes(lex(old(self).text(), old(self).pos()).0) && !(lex(
                old(self).text(),
                old(self).pos(),
            ).0 is Comma) ==> r == Err::<Type, CompilerError>(CompilerError::UnfindedVar),
            old(self).literal_assign(a, b) matches Some((store, lit, vt, lt)) ==> if types_match_spec(vt, lt) {
                &&& r == Ok::<Type, CompilerError>(Type::Void)
                &&& final(self).code() == old(self).code() + seq![lit, store, Op::PushVoid]
            } else {
                r == Err::<Type, CompilerError>(CompilerError::UnexpectedArg)
            },
            ({
                let (t1, p1) = lex(old(self).text(), old(self).pos());
                let (t2, p2) = lex(old(self).text(), p1);
                t1 is LParen && old(self).call_clash(a, b, t2, p2)
            }) ==> r == Err::<Type, CompilerError>(CompilerError::UnexpectedArg),
        decreases old(self).fuel(), 0int,
    {
        let ghost la = old(self).literal_assign(a, b) is Some;
        let ghost w = old(self).text().subrange(a as int, b as int);
        let name = self.intern(a, b);
        proof {
            if old(self).name_key(w) is None {
                assert(!old(self).fargs().contains_key(name)) by {
                    if name < old(self).names@.len() {
                        assert(old(self).names@[name as int]@ == w);
                    }
                }
            }
        }
        let name_text = self.name_text(name);
        self.advance_token();
        if self.next_if(Token::LParen) {
            self.parse_func_call(name, &name_text, None)?;
            match self.lookup(name) {
                Some((_, _, Some(tp))) => return Ok(tp),
                _ => {},
            }
            return Ok(Self::func_return_type(&name_text));
        }
        let is_known = fx_contains_key(&self.variables, name);
        if self.current_token == Token::Colon || !is_known && self.current_token == Token::Comma {
            self.parse_let(name)?;
            return Ok(Type::Void);
        }
        let (var_id, var_depth, var_type) = match self.lookup(name) {
            Some(v) => v,
            None => return Err(CompilerError::UnfindedVar),
        };
        let is_global = var_depth == 0;
        let depth_delta = self.depth_delta(var_depth)?;
        let mut store_var: usize = 0;
        if self.current_token == Token::LBracket {
            self.emit_load(is_global, var_id, depth_delta);
            while self.next_if(Token::LBracket)
                invariant
                    old(self).ident_load(a, b) is None,
                    old(self).literal_assign(a, b) is None,
                    !(lex(old(self).text(), old(self).pos()).0 is LParen),
                    !(old(self).unknown_name(a, b) && closes(lex(old(self).text(), old(self).pos()).0)),
                    self.kept(old(self)),
                    self.progressed(old(self)),
                    self.balanced(old(self)),
                decreases self.fuel(),
            {
                if store_var == usize::MAX {
                    return Err(CompilerError::UnexpectedArg);
                }
                store_var = store_var + 1;
                let idx_type = self.parse_expression()?;
                let num_iter = Type::Iter(Box::new(Type::Number));
                if !Self::types_match(&idx_type, &Type::Number) && !Self::types_match(&idx_type, &num_iter) {
                    let m = Self::plain("Expected number for index");
                    return self.throw_error(CompilerError::UnexpectedArg, m);
                }
                self.expect(Token::RBracket)?;
            }
        }
        let mut final_type = match var_type {
            Some(t) => t,
            None => Type::Infer,
        };
        let mut target_type = final_type.copy();
        let mut k: usize = 0;
        while k < store_var
            invariant
                k <= store_var,
                store_var == 0 ==> target_type == final_type,
            decreases store_var - k,
        {
            target_type = Self::element_type(target_type);
            k = k + 1;
        }
        match self.current_token {
            Token::Assign => {
                self.advance_token();
                proof {
                    if la {
                        assert(self.at_operand(11));
                    }
                }
                let expr_type = self.parse_expression()?;
                if !Self::types_match(&target_type, &expr_type) {
                    let m = Self::plain("Type mismatch in assignment");
                    return self.throw_error(CompilerError::UnexpectedArg, m);
                }
                if store_var != 0 {
                    self.emit(Op::StoreIndex(store_var));
                    self.emit_store(is_global, var_id, depth_delta);
                } else {
                    self.emit_store(is_global, var_id, depth_delta);
                    self.refine_type(name, expr_type);
                }
                self.emit(Op::PushVoid);
                final_type = Type::Void;
            },
            Token::AssignOper(id) => {
                let op = if id == crate::consts::ASSIGN_ADD {
                    Op::Plus
                } else if id == crate::consts::ASSIGN_SUB {
                    Op::Sub
                } else if id == crate::consts::ASSIGN_MUL {
                    Op::Mult
                } else if id == crate::consts::ASSIGN_DIV {
                    Op::Div
                } else {
                    Op::Pow
                };
                self.advance_token();
                let expr_type = self.parse_expression()?;
                if !Self::types_match(&target_type, &expr_type) {
                    let m = Self::plain("Type mismatch in assignment operator");
                    return self.throw_error(CompilerError::UnexpectedArg, m);
                }
                if store_var != 0 {
                    self.emit(Op::DupTarget(store_var));
                    self.emit(Op::LoadIndex(store_var));
                    self.emit(op);
                    self.emit(Op::StoreIndex(store_var));
                    self.emit_store(is_global, var_id, depth_delta);
                } else {
                    self.emit_load(is_global, var_id, depth_delta);
                    self.emit(op);
                    self.emit_store(is_global, var_id, depth_delta);
                }
                self.emit(Op::PushVoid);
                final_type = Type::Void;
            },
            Token::Inc | Token::Dec => {
                let is_inc = self.current_token == Token::Inc;
                self.advance_token();
                if !Self::types_match(&target_type, &Type::Number) {
                    let m = Self::plain("Expected number for inc/dec operation");
                    return self.throw_error(CompilerError::UnexpectedArg, m);
                }
                let op = if is_inc { Op::Plus } else { Op::Sub };
                if store_var != 0 {
                    self.emit(Op::DupTarget(store_var));
                    self.emit(Op::DupTarget(store_var));
                    self.emit(Op::LoadIndex(store_var));
                    self.emit(Op::PushNumber(1));
                    self.emit(op);
                    self.emit(Op::StoreIndex(store_var));
                    self.emit_store(is_global, var_id, depth_delta);
                    self.emit(Op::LoadIndex(store_var));
                } else {
                    self.emit_load(is_global, var_id, depth_delta);
                    self.emit(Op::Dup);
                    self.emit(Op::PushNumber(1));
                    self.emit(op);
                    self.emit_store(is_global, var_id, depth_delta);
                }
                final_type = Type::Void;
            },
            _ => {
                if store_var != 0 {
                    self.emit(Op::LoadIndex(store_var));
                    final_type = target_type;
                } else {
                    self.emit_load(is_global, var_id, depth_delta);
                }
            },
        }
        Ok(final_type)
    }

    /// `name [: T] (, name [: T])* = value`: a declaration, of a tuple when
    /// several names are given, or of a function when the value is one.
    #[verifier::rlimit(60)]
    fn parse_let(&mut self, first_name: usize) -> (r: Result<(), CompilerError>)
        requires
            old(self).inv(),
            first_name < old(self).names@.len(),
        ensures
            final(self).kept(old(self)),
            r is Ok ==> final(self).progressed(old(self)) && final(self).balanced(old(self)),
            ({
                let (t1, p1) = lex(old(self).text(), old(self).pos());
                let slot = old(self).slot_count();
                match literal_of(t1) {
                    Some((op, t)) => simple_let(old(self).text(), old(self).token(), old(self).pos(), slot) ==> {
                        &&& r is Ok
                        &&& final(self).code() == old(self).code() + seq![
                            op,
                            if old(self).depth() == 0 { Op::StoreGlobal(slot) } else { Op::StoreLocal(slot, 0) },
                            Op::PushVoid,
                        ]
                        &&& final(self).vars() == old(self).vars().insert(
                            first_name,
                            VarInfo { slot, depth: old(self).depth(), ty: Some(t) },
                        )
                        &&& final(self).slot_count() == slot + 1
                    },
                    None => true,
                }
            }),
        decreases old(self).fuel(), 0int,
    {
        let ghost simple = simple_let(old(self).text(), old(self).token(), old(self).pos(), old(self).slot_count());
        let mut names: Vec<usize> = Vec::new();
        names.push(first_name);
        let mut types: Vec<Option<Type>> = Vec::new();
        if self.next_if(Token::Colon) && self.current_token != Token::Assign {
            let t = self.parse_type()?;
            types.push(Some(t));
        } else {
            types.push(None);
        }
        let mut is_tuple = false;
        let ghost s0 = *self;
        while self.next_if(Token::Comma)
            invariant
                simple ==> *self == s0 && *self == *old(self) && !is_tuple && types@ == seq![None::<Type>]
                    && names@ == seq![first_name],
                simple == simple_let(old(self).text(), old(self).token(), old(self).pos(), old(self).slot_count()),
                self.kept(old(self)),
                self.balanced(old(self)),
                names.len() == types.len(),
                forall|j: int| 0 <= j < names@.len() ==> #[trigger] names@[j] < self.names@.len(),
                names.len() >= 1,
            decreases self.fuel(),
        {
            is_tuple = true;
            let next_name = match self.current_ident() {
                Some(k) => k,
                None => return Err(CompilerError::UnexpectedArg),
            };
            self.advance_token();
            names.push(next_name);
            if self.next_if(Token::Colon) {
                let t = self.parse_type()?;
                types.push(Some(t));
            } else {
                types.push(None);
            }
        }
        self.expect(Token::Assign)?;
        if names.len() == 1 && (self.current_token == Token::ArifmOr || self.current_token == Token::Or) {
            let t0 = match &types[0] {
                Some(t) => Some(t.copy()),
                None => None,
            };
            self.parse_fn(Some(names[0]), t0)?;
            self.emit(Op::PushVoid);
            return Ok(());
        }
        let ghost before_expr = *self;
        assert(simple ==> before_expr.slot_count() == old(self).slot_count() && before_expr.at_lone_literal()
            && before_expr.depth() == old(self).depth() && before_expr.vars() == old(self).vars()
            && before_expr.code() == old(self).code());
        let expr_type = self.parse_expression()?;
        proof {
            if simple {
                assert(before_expr.at_lone_literal());
            }
        }
        self.next_if(Token::Semicolon);
        let ghost after_expr = *self;
        assert(simple ==> after_expr.slot_count() == old(self).slot_count());
        if !is_tuple {
            let mismatch = match &types[0] {
                Some(t) => !Self::types_match(t, &expr_type),
                None => false,
            };
            if mismatch {
                let m = Self::plain("Type mismatch in variable declaration");
                return self.throw_error(CompilerError::UnexpectedArg, m);
            }
        }
        let at_top = self.scope_depth == 0;
        if is_tuple {
            self.emit(Op::UnpackTuple);
            let mut i = names.len();
            while i > 0
                invariant
                    !simple,
                    simple == simple_let(old(self).text(), old(self).token(), old(self).pos(), old(self).slot_count()),
                    i <= names.len(),
                    names.len() == types.len(),
                forall|j: int| 0 <= j < names@.len() ==> #[trigger] names@[j] < self.names@.len(),
                    self.kept(old(self)),
                    self.progressed(old(self)),
                    self.balanced(old(self)),
                    at_top == (self.scope_depth == 0),
                decreases i,
            {
                i = i - 1;
                let tp = match &types[i] {
                    Some(t) => t.copy(),
                    None => Type::Infer,
                };
                let var_id = self.new_slot()?;
                self.declare(names[i], var_id, Some(tp));
                self.emit_store(at_top, var_id, 0);
            }
        } else {
            let tp = match &types[0] {
                Some(t) => t.copy(),
                None => expr_type,
            };
            let var_id = self.new_slot()?;
            self.declare(names[0], var_id, Some(tp));
            self.emit_store(at_top, var_id, 0);
        }
        self.emit(Op::PushVoid);
        proof {
            if simple {
                let op = literal_of(before_expr.token())->Some_0.0;
                assert(after_expr.code() == old(self).code().push(op));
                assert(self.code() =~= old(self).code() + seq![
                    op,
                    if old(self).depth() == 0 {
                        Op::StoreGlobal(old(self).slot_count())
                    } else {
                        Op::StoreLocal(old(self).slot_count(), 0)
                    },
                    Op::PushVoid,
                ]);
            }
        }
        Ok(())
    }

    /// A closure `|a: T, b| -> R body` (or `|| body`), named `func_name`
    /// when it is the value of a declaration; `exp` is the declared type.
    #[verifier::rlimit(100)]
    #[verifier::spinoff_prover]
    pub fn parse_fn(&mut self, func_name: Option<usize>, exp: Option<Type>) -> (r: Result<(), CompilerError>)
        requires
            old(self).inv(),
            func_name matches Some(n) ==> n < old(self).name_count(),
        ensures
            final(self).kept(old(self)),
            r is Ok ==> final(self).code().len() > old(self).code().len() && final(self).balanced(old(self)),
            r is Ok && (old(self).token() is ArifmOr || old(self).token() is Or) ==> final(self).progressed(
                old(self),
            ),
            (func_name is None && exp is None && simple_closure(
                old(self).text(),
                old(self).token(),
                old(self).pos(),
                old(self).depth(),
            )) ==> {
                let (t1, p1) = lex(old(self).text(), old(self).pos());
                let ops = simple_block_at(old(self).text(), t1, p1)->Some_0.0;
                let start = old(self).code().len();
                &&& r is Ok
                &&& final(self).code() == old(self).code() + seq![Op::Jump((start + ops.len() + 2) as usize)] + ops
                    + seq![Op::Return, Op::PushFn((start + 1) as usize)]
            },
            r is Ok ==> final(self).slot_count() == old(self).slot_count() + if func_name is Some { 1int } else { 0int },
            r is Ok ==> fn_layout(old(self).code().len() as int, final(self).code(), match func_name {
                Some(_) => Some(
                    if old(self).depth() == 0 {
                        Op::StoreGlobal(old(self).slot_count())
                    } else {
                        Op::StoreLocal(old(self).slot_count(), 0)
                    },
                ),
                None => None,
            }),
            r is Ok ==> final(self).depth() == old(self).depth(),
        decreases old(self).fuel(), rank_fn(old(self).token()),
    {
        let ghost simple = func_name is None && exp is None && simple_closure(
            old(self).text(),
            old(self).token(),
            old(self).pos(),
            old(self).depth(),
        );
        let func_id = match func_name {
            Some(name) => {
                let id = self.new_slot()?;
                self.declare(name, id, None);
                Some(id)
            },
            None => None,
        };
        let old_next_slot = self.next_slot;
        let start_change_idx = self.scope_changes.len();
        let jump = self.add_plug(Op::Jump(0));
        let func_entry = self.code.len();
        if self.scope_depth == usize::MAX {
            return Err(CompilerError::UnexpectedArg);
        }
        self.next_slot = 0;
        self.scope_depth = self.scope_depth + 1;
        let mut old_vals: Vec<Option<VarInfo>> = Vec::new();
        let mut old_names: Vec<usize> = Vec::new();
        let mut arg_slots: Vec<usize> = Vec::new();
        let mut arg_types: Vec<Option<Type>> = Vec::new();
        let lead = self.current_token;
        if self.current_token == Token::ArifmOr {
            self.advance_token();
            while self.current_token != Token::ArifmOr
                invariant
                    !simple,
                    simple == (func_name is None && exp is None && simple_closure(
                        old(self).text(),
                        old(self).token(),
                        old(self).pos(),
                        old(self).depth(),
                    )),
                    self.kept(old(self)),
                    self.fuel() < old(self).fuel(),
                    self.loop_contexts@.len() == old(self).loop_contexts@.len(),
                    self.scope_depth == old(self).scope_depth + 1,
                    old_vals.len() == old_names.len(),
                forall|j: int| 0 <= j < old_names@.len() ==> #[trigger] old_names@[j] < self.names@.len(),
                    arg_slots.len() == arg_types.len(),
                    code_extends(old(self).code@, self.code@),
                    jump < self.code@.len(),
                    self.code@[jump as int] is Jump,
                decreases self.fuel(),
            {
                let arg_name = match self.current_ident() {
                    Some(k) => k,
                    None => return Err(CompilerError::UnexpectedArg),
                };
                self.advance_token();
                let arg_type = if self.next_if(Token::Colon) {
                    Some(self.parse_type()?)
                } else {
                    None
                };
                let arg_slot = self.new_slot()?;
                let depth = self.scope_depth;
                let t2 = match &arg_type {
                    Some(t) => Some(t.copy()),
                    None => None,
                };
                let prev = fx_insert(&mut self.variables, arg_name, VarInfo { slot: arg_slot, depth, ty: t2 });
                old_vals.push(prev);
                old_names.push(arg_name);
                arg_slots.push(arg_slot);
                arg_types.push(arg_type);
                self.next_if(Token::Comma);
            }
            self.expect(Token::ArifmOr)?;
        } else if self.current_token == Token::Or {
            self.advance_token();
        }
        let mut expected_args: Vec<Type> = Vec::new();
        let mut i: usize = 0;
        while i < arg_types.len()
            invariant
                i <= arg_types.len(),
            decreases arg_types.len() - i,
        {
            expected_args.push(
                match &arg_types[i] {
                    Some(t) => t.copy(),
                    None => Type::Infer,
                },
            );
            i = i + 1;
        }
        if let Some(name) = func_name {
            fx_insert(&mut self.functions_args, name, expected_args);
        }
        let mut explicit_ret = true;
        let exp = match exp {
            Some(tp) => tp,
            None => {
                if self.next_if(Token::Arrow) {
                    self.parse_type()?
                } else {
                    explicit_ret = false;
                    Type::Infer
                }
            },
        };
        let ghost s3 = *self;
        assert(simple ==> arg_types@.len() == 0);
        let mut i: usize = 0;
        while i < arg_types.len()
            invariant
                simple ==> *self == s3 && arg_types@.len() == 0,
                forall|j: int| 0 <= j < old_names@.len() ==> #[trigger] old_names@[j] < self.names@.len(),
                i <= arg_types.len(),
                arg_slots.len() == arg_types.len(),
                self.kept(old(self)),
                self.loop_contexts@.len() == old(self).loop_contexts@.len(),
                self.scope_depth == old(self).scope_depth + 1,
                jump < self.code@.len(),
                self.code@[jump as int] is Jump,
                (lead is ArifmOr || lead is Or) ==> self.fuel() < old(self).fuel(),
                lead == old(self).token(),
            decreases arg_types.len() - i,
        {
            if arg_types[i].is_some() {
                self.emit(Op::LoadLocal(arg_slots[i], 0));
                self.emit(Op::Pop);
            }
            i = i + 1;
        }
        let ghost before_block = *self;
        let block_type = self.parse_block()?;
        let ghost after_block = self.code();
        if explicit_ret && !Self::types_match(&exp, &block_type) {
            return self.throw_error(CompilerError::UnexpectedArg, Message::ReturnMismatch(exp, block_type));
        }
        let final_return_type = if explicit_ret { exp } else { block_type };
        self.emit(Op::Return);
        let ghost s4 = *self;
        let mut pos: usize = 0;
        while pos < old_vals.len()
            invariant
                simple ==> *self == s4 && old_vals@.len() == 0,
                pos <= old_vals.len(),
                old_vals.len() == old_names.len(),
                forall|j: int| 0 <= j < old_names@.len() ==> #[trigger] old_names@[j] < self.names@.len(),
                self.kept(old(self)),
                self.loop_contexts@.len() == old(self).loop_contexts@.len(),
                self.scope_depth == old(self).scope_depth + 1,
                jump < self.code@.len(),
                self.code@[jump as int] is Jump,
                self.code@.len() > old(self).code@.len(),
                (lead is ArifmOr || lead is Or) ==> self.fuel() < old(self).fuel(),
            decreases old_vals.len() - pos,
        {
            match &old_vals[pos] {
                Some(prev) => {
                    let p = prev.copy();
                    fx_insert(&mut self.variables, old_names[pos], p);
                },
                None => {
                    fx_remove(&mut self.variables, old_names[pos]);
                },
            }
            pos = pos + 1;
        }
        self.restore_scope(start_change_idx);
        self.scope_depth = self.scope_depth - 1;
        self.next_slot = old_next_slot;
        self.finish_fn(jump, func_entry, func_id, func_name, final_return_type);
        proof {
            if simple {
                let ops = before_block.simple_block()->Some_0.0;
                let start = old(self).code().len();
                assert(after_block == old(self).code() + seq![Op::Jump(0)] + ops);
                assert(self.code() =~= old(self).code() + seq![Op::Jump((start + ops.len() + 2) as usize)] + ops
                    + seq![Op::Return, Op::PushFn((start + 1) as usize)]);
            }
        }
        Ok(())
    }

    /// Ends a function definition: points the jump at `jump` over the body
    /// to the end of the code, pushes the function whose body starts at
    /// `func_entry`, stores it in the slot `func_id` when there is one, and
    /// gives the name `func_name`, if any, the return type `ret`.
    fn finish_fn(&mut self, jump: usize, func_entry: usize, func_id: Option<usize>, func_name: Option<usize>, ret: Type)
        requires
            old(self).inv(),
            jump < old(self).code().len(),
            old(self).code()[jump as int] is Jump,
        ensures
            final(self).inv(),
            final(self).text() == old(self).text(),
            final(self).fuel() == old(self).fuel(),
            final(self).token() == old(self).token(),
            final(self).names == old(self).names,
            final(self).loop_contexts == old(self).loop_contexts,
            final(self).next_slot == old(self).next_slot,
            final(self).scope_depth == old(self).scope_depth,
            final(self).changes() == old(self).changes(),
            old(self).code().len() <= usize::MAX,
            final(self).code() == old(self).code().update(jump as int, Op::Jump(old(self).code().len() as usize)).push(
                Op::PushFn(func_entry),
            ) + match func_id {
                Some(id) => seq![if old(self).depth() == 0 { Op::StoreGlobal(id) } else { Op::StoreLocal(id, 0) }],
                None => Seq::<Op>::empty(),
            },
    {
        self.patch_plug(jump);
        self.emit(Op::PushFn(func_entry));
        if let Some(id) = func_id {
            let at_top = self.scope_depth == 0;
            self.emit_store(at_top, id, 0);
        }
        if let Some(name) = func_name {
            self.set_type(name, ret);
        }
        proof {
            assert(self.code() =~= old(self).code().update(jump as int, Op::Jump(old(self).code().len() as usize)).push(
                Op::PushFn(func_entry),
            ) + match func_id {
                Some(id) => seq![if old(self).depth() == 0 { Op::StoreGlobal(id) } else { Op::StoreLocal(id, 0) }],
                None => Seq::<Op>::empty(),
            });
        }
    }
}

// ---------------------------------------------------------------------------
// Blocks and statements
// ---------------------------------------------------------------------------

impl Compiler {
    /// Adds the jump at `plug` to the `break`s of the innermost loop.
    #[verifier::spinoff_prover]
    fn add_break(&mut self, plug: usize) -> (r: Result<(), CompilerError>)
        requires
            old(self).inv(),
            plug < old(self).code().len(),
            old(self).code()[plug as int] is Jump,
        ensures
            final(self).inv(),
            final(self).text() == old(self).text(),
            final(self).code() == old(self).code(),
            final(self).fuel() == old(self).fuel(),
            final(self).loop_contexts@.len() == old(self).loop_contexts@.len(),
            final(self).scope_depth == old(self).scope_depth,
            final(self).next_slot == old(self).next_slot,
            r is Err ==> r == Err::<(), CompilerError>(CompilerError::UnexpectedArg),
            final(self).names == old(self).names,
            final(self).changes() == old(self).changes(),
            r is Ok <==> old(self).loops().len() > 0,
            r is Err ==> final(self).loops() == old(self).loops(),
            r is Ok ==> {
                let n = old(self).loops().len() - 1;
                &&& final(self).loops().len() == old(self).loops().len()
                &&& forall|i: int| 0 <= i < n ==> #[trigger] final(self).loops()[i] == old(self).loops()[i]
                &&& final(self).loops()[n].start == old(self).loops()[n].start
                &&& final(self).loops()[n].breaks@ == old(self).loops()[n].breaks@.push(plug)
            },
    {
        match self.loop_contexts.pop() {
            Some(mut ctx) => {
                ctx.breaks.push(plug);
                self.loop_contexts.push(ctx);
                assert(self.loops_ok());
                Ok(())
            },
            None => Err(CompilerError::UnexpectedArg),
        }
    }

    /// Where `continue` jumps in the innermost loop.
    fn continue_target(&self) -> (r: Option<usize>)
        ensures
            r == if self.loops().len() == 0 {
                None
            } else {
                Some(self.loops().last().start)
            },
    {
        let n = self.loop_contexts.len();
        if n == 0 {
            None
        } else {
            Some(self.loop_contexts[n - 1].start)
        }
    }

    /// One statement of a block: gives the block's new type (if it changes),
    /// whether the block now has a value on the stack (if that changes),
    /// and whether the block ends here.
    #[verifier::rlimit(60)]
    #[verifier::spinoff_prover]
    fn parse_statement(&mut self, was_open: bool) -> (r: Result<(Option<Type>, Option<bool>, bool), CompilerError>)
        requires
            old(self).inv(),
            !(old(self).token() is End),
            !(old(self).token() is Eof),
        ensures
            final(self).kept(old(self)),
            r is Ok ==> final(self).progressed(old(self)) && final(self).balanced(old(self)),
            old(self).at_lone_literal() ==> match literal_of(old(self).token()) {
                Some((op, t)) => {
                    let (nt, np) = lex(old(self).text(), old(self).pos());
                    if nt is Semicolon {
                        &&& r == Ok::<(Option<Type>, Option<bool>, bool), CompilerError>((Some(Type::Void), Some(false), false))
                        &&& final(self).code() == old(self).code().push(op).push(Op::Pop)
                        &&& (final(self).token(), final(self).pos()) == lex(old(self).text(), np)
                        &&& final(self).loops() == old(self).loops()
                    } else if nt is End || nt is Eof || !was_open {
                        &&& r == Ok::<(Option<Type>, Option<bool>, bool), CompilerError>((Some(t), Some(true), true))
                        &&& final(self).code() == old(self).code().push(op)
                        &&& (final(self).token(), final(self).pos()) == (nt, np)
                        &&& final(self).loops() == old(self).loops()
                    } else {
                        &&& r == Ok::<(Option<Type>, Option<bool>, bool), CompilerError>((Some(Type::Void), Some(false), false))
                        &&& final(self).code() == old(self).code().push(op).push(Op::Pop)
                        &&& (final(self).token(), final(self).pos()) == (nt, np)
                        &&& final(self).loops() == old(self).loops()
                    }
                },
                None => false,
            },
            old(self).stmt_error_at(old(self).token(), old(self).pos()) matches Some(e) ==> r == Err::<
                (Option<Type>, Option<bool>, bool),
                CompilerError,
            >(e),
            old(self).sum_at() is Some && (old(self).sum_end().0 is End || old(self).sum_end().0 is Eof) ==> r
                == Ok::<(Option<Type>, Option<bool>, bool), CompilerError>((Some(Type::Number), Some(true), true))
                && final(self).read_sum(old(self), Ok::<Type, CompilerError>(Type::Number)),
        decreases old(self).fuel(), 15int,
    {
        match self.current_token {
            Token::If => {
                let t = self.parse_if(false)?;
                Ok((Some(t), Some(true), false))
            },
            Token::For => {
                self.parse_for()?;
                Ok((Some(Type::Void), Some(false), false))
            },
            Token::Match => {
                let t = self.parse_match()?;
                Ok((Some(t), Some(true), false))
            },
            Token::Loop => {
                self.parse_loop()?;
                Ok((Some(Type::Void), Some(false), false))
            },
            Token::While => {
                self.parse_while()?;
                Ok((Some(Type::Void), Some(false), false))
            },
            Token::Begin => {
                let t = self.parse_block()?;
                self.emit(Op::Pop);
                Ok((Some(t), Some(true), false))
            },
            Token::Break => {
                self.advance_token();
                let plug = self.add_plug(Op::Jump(0));
                self.add_break(plug)?;
                self.next_if(Token::Semicolon);
                Ok((Some(Type::Void), Some(true), false))
            },
            Token::Continue => {
                self.advance_token();
                match self.continue_target() {
                    Some(target) => self.emit(Op::Jump(target)),
                    None => return Err(CompilerError::UnexpectedArg),
                }
                self.next_if(Token::Semicolon);
                Ok((Some(Type::Void), Some(true), false))
            },
            Token::Return => {
                self.advance_token();
                let t = self.parse_expression()?;
                self.next_if(Token::Semicolon);
                self.emit(Op::Return);
                Ok((Some(t), None, false))
            },
            _ => {
                let t = self.parse_expression()?;
                if self.next_if(Token::Semicolon) {
                    self.emit(Op::Pop);
                    Ok((Some(Type::Void), Some(false), false))
                } else if self.current_token == Token::End || self.current_token == Token::Eof || !was_open {
                    Ok((Some(t), Some(true), true))
                } else {
                    self.emit(Op::Pop);
                    Ok((Some(Type::Void), Some(false), false))
                }
            },
        }
    }

    /// A block: statements between `{` and `}` (an optional `=>` before),
    /// or a single statement. Its value is that of its last expression
    /// when no `;` follows it. Names declared in it go out of scope at its
    /// end.
    pub fn parse_block(&mut self) -> (r: Result<Type, CompilerError>)
        requires
            old(self).inv(),
        ensures
            final(self).kept(old(self)),
            r is Ok ==> final(self).code().len() > old(self).code().len() && final(self).balanced(old(self))
                && final(self).slot_count() == old(self).slot_count(),
            r is Ok && !(old(self).token() is End) && !(old(self).token() is Eof) ==> final(self).fuel()
                < old(self).fuel(),
            match old(self).simple_block() {
                Some((ops, t)) => r == Ok::<Type, CompilerError>(t) && final(self).code() == old(self).code() + ops
                    && final(self).loops() == old(self).loops() && (final(self).token(), final(self).pos())
                    == simple_block_end(old(self).text(), old(self).token(), old(self).pos()),
                None => true,
            },
            old(self).block_error() matches Some(e) ==> r == Err::<Type, CompilerError>(e),
            r is Ok ==> final(self).changes() == old(self).changes(),
            match arm_literal(old(self).text(), old(self).token(), old(self).pos()) {
                Some((op, t)) => {
                    &&& r == Ok::<Type, CompilerError>(t)
                    &&& final(self).code() == old(self).code().push(op)
                    &&& (final(self).token(), final(self).pos()) == lex(old(self).text(), old(self).pos())
                },
                None => true,
            },
            old(self).sum_block() matches Some((o1, o2, op)) ==> r == Ok::<Type, CompilerError>(Type::Number)
                && final(self).code() == old(self).code() + seq![o1, o2, op],
            two_stmt_block(old(self).text(), old(self).token(), old(self).pos()) matches Some((o1, o2, ty)) ==> r
                == Ok::<Type, CompilerError>(ty) && final(self).code() == old(self).code() + seq![o1, Op::Pop, o2],
        decreases old(self).fuel(), rank_block(old(self).token()),
    {
        let ghost simple = old(self).simple_block() is Some;
        let ghost lit_case = simple && old(self).token() is Begin && literal_of(lex(old(self).text(), old(self).pos()).0) is Some;
        self.next_if(Token::FatArrow);
        let was_open = self.next_if(Token::Begin);
        let ghost s0 = *self;
        let ghost arm = arm_literal(old(self).text(), old(self).token(), old(self).pos()) is Some;
        assert(arm ==> s0.at_lone_literal() && !was_open && s0 == *old(self));
        let ghost sb = old(self).sum_block() is Some;
        assert(sb ==> was_open && s0.sum_at() == old(self).sum_block() && s0.code() == old(self).code()
            && (s0.sum_end().0 is End || s0.sum_end().0 is Eof));
        let ghost two = two_stmt_block(old(self).text(), old(self).token(), old(self).pos()) is Some;
        let ghost (wo1, wo2, wty) = two_stmt_block(old(self).text(), old(self).token(), old(self).pos())->Some_0;
        let ghost (w1, wp1) = lex(old(self).text(), old(self).pos());
        let ghost (w2, wp2) = lex(old(self).text(), wp1);
        let ghost (w3, wp3) = lex(old(self).text(), wp2);
        let ghost (w4, wp4) = lex(old(self).text(), wp3);
        assert(two ==> was_open && (s0.token(), s0.pos()) == (w1, wp1) && s0.code() == old(self).code()
            && s0.text() == old(self).text() && s0.loops() == old(self).loops());
        let ghost mut fresh = true;
        assert(old(self).block_error() is Some ==> s0.stmt_error_at(s0.token(), s0.pos()) == old(self).block_error());
        assert(simple ==> was_open == (old(self).token() is Begin));
        assert(lit_case ==> s0.at_lone_literal());
        let old_next_slot = self.next_slot;
        let start_change_idx = self.scope_changes.len();
        let mut has_expression_value = false;
        let mut block_type = Type::Void;
        while self.current_token != Token::End && self.current_token != Token::Eof
            invariant_except_break
                simple ==> *self == s0 && !has_expression_value && block_type == Type::Void,
                arm ==> *self == s0 && !has_expression_value,
                sb ==> *self == s0 && !has_expression_value,
            invariant
                fresh ==> *self == s0 && !has_expression_value,
                old(self).block_error() is Some ==> fresh && s0.stmt_error_at(s0.token(), s0.pos())
                    == old(self).block_error(),
                self.kept(old(self)),
                self.balanced(old(self)),
                self.code@.len() >= old(self).code@.len(),
                has_expression_value ==> self.code@.len() > old(self).code@.len(),
                was_open ==> self.fuel() < old(self).fuel(),
                self.fuel() < old(self).fuel() || (*self == *old(self) && !(old(self).token() is Begin)
                    && !(old(self).token() is FatArrow)),
                simple == (old(self).simple_block() is Some),
                lit_case ==> simple && was_open && s0.at_lone_literal() && s0.code() == old(self).code()
                    && s0.loops() == old(self).loops()
                    && s0.text() == old(self).text() && (lex(s0.text(), s0.pos()).0 is End || lex(
                    s0.text(),
                    s0.pos(),
                ).0 is Eof) && match literal_of(s0.token()) {
                    Some((op, t)) => old(self).simple_block() == Some((seq![op], t)),
                    None => false,
                },
                simple && !lit_case ==> s0.code() == old(self).code() && s0.loops() == old(self).loops()
                    && (s0.token() is End || s0.token() is Eof)
                    && was_open == (old(self).token() is Begin) && old(self).simple_block() == Some(
                    (seq![Op::PushVoid], Type::Void),
                ),
                arm == (arm_literal(old(self).text(), old(self).token(), old(self).pos()) is Some),
                sb == (old(self).sum_block() is Some),
                two == (two_stmt_block(old(self).text(), old(self).token(), old(self).pos()) is Some),
                two ==> two_stmt_block(old(self).text(), old(self).token(), old(self).pos()) == Some((wo1, wo2, wty)),
                (w1, wp1) == lex(old(self).text(), old(self).pos()),
                (w2, wp2) == lex(old(self).text(), wp1),
                (w3, wp3) == lex(old(self).text(), wp2),
                (w4, wp4) == lex(old(self).text(), wp3),
                two ==> was_open && (s0.token(), s0.pos()) == (w1, wp1) && s0.code() == old(self).code()
                    && s0.text() == old(self).text() && s0.loops() == old(self).loops(),
                two ==> self.text() == old(self).text() && {
                    ||| *self == s0 && !has_expression_value
                    ||| !has_expression_value && self.code() == old(self).code().push(wo1).push(Op::Pop) && (
                    self.token(), self.pos()) == (w3, wp3) && self.loops() == old(self).loops()
                    ||| has_expression_value && block_type == wty && self.code() == old(self).code() + seq![
                        wo1,
                        Op::Pop,
                        wo2,
                    ] && (self.token(), self.pos()) == (w4, wp4)
                },
                sb ==> was_open && s0.sum_at() == old(self).sum_block() && s0.code() == old(self).code()
                    && (s0.sum_end().0 is End || s0.sum_end().0 is Eof),
                arm ==> s0.at_lone_literal() && !was_open && s0 == *old(self),
            ensures
                two ==> has_expression_value && block_type == wty && self.code() == old(self).code() + seq![
                    wo1,
                    Op::Pop,
                    wo2,
                ] && (self.token(), self.pos()) == (w4, wp4),
                sb ==> has_expression_value && self.read_sum(&s0, Ok::<Type, CompilerError>(block_type)),
                arm ==> match arm_literal(old(self).text(), old(self).token(), old(self).pos()) {
                    Some((op, t)) => {
                        &&& has_expression_value
                        &&& block_type == t
                        &&& self.code() == old(self).code().push(op)
                        &&& (self.token(), self.pos()) == lex(s0.text(), s0.pos())
                    },
                    None => false,
                },
                old(self).block_error() is None,
                simple == (old(self).simple_block() is Some),
                lit_case ==> simple && was_open && s0.at_lone_literal() && s0.code() == old(self).code()
                    && s0.loops() == old(self).loops()
                    && s0.text() == old(self).text() && (lex(s0.text(), s0.pos()).0 is End || lex(
                    s0.text(),
                    s0.pos(),
                ).0 is Eof) && match literal_of(s0.token()) {
                    Some((op, t)) => old(self).simple_block() == Some((seq![op], t)),
                    None => false,
                },
                simple && !lit_case ==> s0.code() == old(self).code() && s0.loops() == old(self).loops()
                    && (s0.token() is End || s0.token() is Eof)
                    && was_open == (old(self).token() is Begin) && old(self).simple_block() == Some(
                    (seq![Op::PushVoid], Type::Void),
                ),
                self.kept(old(self)),
                self.balanced(old(self)),
                self.code@.len() >= old(self).code@.len(),
                has_expression_value ==> self.code@.len() > old(self).code@.len(),
                self.fuel() < old(self).fuel() || ((self.token() is End || self.token() is Eof) && *self
                    == *old(self)),
                simple && !lit_case ==> *self == s0 && !has_expression_value,
                lit_case ==> match literal_of(s0.token()) {
                    Some((op, t)) => {
                        &&& has_expression_value
                        &&& block_type == t
                        &&& self.code() == old(self).code().push(op)
                        &&& (self.token(), self.pos()) == lex(s0.text(), s0.pos())
                        &&& self.text() == old(self).text()
                        &&& self.loops() == old(self).loops()
                    },
                    None => false,
                },
            decreases self.fuel(),
        {
            if has_expression_value {
                self.emit(Op::Pop);
                has_expression_value = false;
            }
            assert(simple ==> lit_case);
            assert(lit_case ==> self.at_lone_literal());
            let ghost before = *self;
            let (t, hv, stop) = self.parse_statement(was_open)?;
            proof {
                fresh = false;
            }
            assert(lit_case ==> lex(before.text(), before.pos()).0 is End || lex(before.text(), before.pos()).0 is Eof);
            assert(lit_case ==> stop);
            if let Some(t) = t {
                block_type = t;
            }
            if let Some(h) = hv {
                has_expression_value = h;
            }
            if stop {
                break;
            }
            if !was_open {
                break;
            }
        }
        if was_open && self.current_token != Token::Eof {
            self.expect(Token::End)?;
        }
        if !has_expression_value {
            self.emit(Op::PushVoid);
            block_type = Type::Void;
        }
        self.restore_scope(start_change_idx);
        proof {
            assert(self.changes() =~= old(self).changes());
        }
        self.next_slot = old_next_slot;
        Ok(block_type)
    }

    /// Patches every position in `jumps` to the end of the code.
    fn patch_all(&mut self, jumps: &Vec<usize>)
        requires
            old(self).inv(),
            forall|j: int| 0 <= j < jumps@.len() ==> #[trigger] jumps@[j] < old(self).code().len() && {
                let op = old(self).code()[jumps@[j] as int];
                is_plug(op) || op is SafeUnwL || op is SafeUnwR
            },
        ensures
            final(self).inv(),
            final(self).text() == old(self).text(),
            final(self).fuel() == old(self).fuel(),
            code_extends(old(self).code(), final(self).code()),
            final(self).code().len() == old(self).code().len(),
            final(self).rest_same(old(self)),
            final(self).token() == old(self).token(),
            forall|k: int| 0 <= k < old(self).code().len() ==> #[trigger] final(self).code()[k] == if exists|w: int|
                0 <= w < jumps@.len() && jumps@[w] as int == k {
                crate::op::retarget(old(self).code()[k], old(self).code().len() as usize)
            } else {
                old(self).code()[k]
            },
    {
        let mut i: usize = 0;
        while i < jumps.len()
            invariant
                i <= jumps.len(),
                forall|k: int| 0 <= k < old(self).code().len() ==> #[trigger] self.code()[k] == if exists|w: int|
                    0 <= w < i && jumps@[w] as int == k {
                    crate::op::retarget(old(self).code()[k], old(self).code().len() as usize)
                } else {
                    old(self).code()[k]
                },
                self.inv(),
                self.text() == old(self).text(),
                self.fuel() == old(self).fuel(),
                code_extends(old(self).code(), self.code()),
                self.code().len() == old(self).code().len(),
                self.rest_same(old(self)),
                self.token() == old(self).token(),
                forall|j: int| 0 <= j < jumps@.len() ==> #[trigger] jumps@[j] < old(self).code().len() && {
                    let op = old(self).code()[jumps@[j] as int];
                    is_plug(op) || op is SafeUnwL || op is SafeUnwR
                },
            decreases jumps.len() - i,
        {
            let j = jumps[i];
            assert(same_kind(old(self).code()[j as int], self.code()[j as int]));
            self.patch_any(j);
            proof {
                assert forall|k: int| 0 <= k < old(self).code().len() implies #[trigger] self.code()[k] == if exists|w: int|
                    0 <= w < i + 1 && jumps@[w] as int == k {
                    crate::op::retarget(old(self).code()[k], old(self).code().len() as usize)
                } else {
                    old(self).code()[k]
                } by {
                    if k == j as int {
                        assert(jumps@[i as int] as int == k);
                    } else if exists|w: int| 0 <= w < i + 1 && jumps@[w] as int == k {
                        let w = choose|w: int| 0 <= w < i + 1 && jumps@[w] as int == k;
                        assert(w < i);
                    }
                }
            }
            i = i + 1;
        }
    }

    /// The pattern of a `match` arm; the instructions that leave the arm
    /// when the subject does not fit it are given back, to be pointed at the
    /// next arm.
    fn parse_pattern(&mut self, match_type: &Type) -> (r: Result<Vec<usize>, CompilerError>)
        requires
            old(self).inv(),
        ensures
            final(self).kept(old(self)),
            r is Ok ==> final(self).fuel() < old(self).fuel() && final(self).balanced(old(self)),
            r is Ok ==> forall|j: int| 0 <= j < r->Ok_0@.len() ==> #[trigger] r->Ok_0@[j] < final(self).code@.len() && {
                let op = final(self).code@[r->Ok_0@[j] as int];
                is_plug(op) || op is SafeUnwL || op is SafeUnwR
            },
            old(self).token() is KwNone ==> {
                &&& r is Ok
                &&& r->Ok_0@ == seq![(old(self).code().len() + 3) as usize]
                &&& final(self).code() == old(self).code() + seq![Op::Dup, Op::PushNone, Op::Equal, Op::JumpIfFalse(0)]
            },
            old(self).token() is UnderScope ==> r is Ok && r->Ok_0@.len() == 0 && final(self).code() == old(self).code(),
            match old(self).token() {
                Token::Ident(a, b) => old(self).slot_count() < usize::MAX ==> {
                    let slot = old(self).slot_count();
                    &&& r is Ok
                    &&& r->Ok_0@.len() == 0
                    &&& final(self).code() == old(self).code() + seq![
                        Op::Dup,
                        if old(self).depth() == 0 { Op::StoreGlobal(slot) } else { Op::StoreLocal(slot, 0) },
                    ]
                    &&& final(self).slot_count() == slot + 1
                    &&& final(self).name_key(old(self).text().subrange(a as int, b as int)) matches Some(k)
                        && final(self).vars() == old(self).vars().insert(
                        k,
                        VarInfo { slot, depth: old(self).depth(), ty: Some(*match_type) },
                    )
                },
                _ => true,
            },
            literal_of(old(self).token()) is Some && !(lex(old(self).text(), old(self).pos()).0 is ArifmOr) ==> r is Ok
                && (final(self).token(), final(self).pos()) == lex(old(self).text(), old(self).pos()),
    {
        let ghost lit1 = literal_of(old(self).token()) is Some && !(lex(old(self).text(), old(self).pos()).0 is ArifmOr);
        let mut next_arm_jumps: Vec<usize> = Vec::new();
        let at_top = self.scope_depth == 0;
        match self.current_token {
            Token::Ident(a, b) => {
                let name = self.intern(a, b);
                self.advance_token();
                self.emit(Op::Dup);
                let var_id = self.new_slot()?;
                self.declare(name, var_id, Some(match_type.copy()));
                self.emit_store(at_top, var_id, 0);
            },
            Token::KwNone => {
                self.advance_token();
                self.emit(Op::Dup);
                self.emit(Op::PushNone);
                self.emit(Op::Equal);
                let fail_jump = self.add_plug(Op::JumpIfFalse(0));
                next_arm_jumps.push(fail_jump);
                assert(self.code() =~= old(self).code() + seq![Op::Dup, Op::PushNone, Op::Equal, Op::JumpIfFalse(0)]);
                assert(next_arm_jumps@ =~= seq![(old(self).code().len() + 3) as usize]);
            },
            Token::KwOk | Token::KwSome | Token::KwErr => {
                let kind = self.current_token;
                let is_right = match kind {
                    Token::KwErr => false,
                    _ => true,
                };
                self.advance_token();
                self.expect(Token::LParen)?;
                let name = match self.current_ident() {
                    Some(k) => k,
                    None => return Err(CompilerError::UnexpectedArg),
                };
                self.advance_token();
                self.expect(Token::RParen)?;
                self.emit(Op::Dup);
                let fail_jump = self.add_plug(if is_right { Op::SafeUnwR(0) } else { Op::SafeUnwL(0) });
                next_arm_jumps.push(fail_jump);
                let inner_type = match match_type {
                    Type::Result(boxed) => match kind {
                        Token::KwOk => boxed.0.copy(),
                        _ => boxed.1.copy(),
                    },
                    Type::Cat(boxed) => match kind {
                        Token::KwSome => boxed.copy(),
                        _ => Type::Infer,
                    },
                    _ => Type::Infer,
                };
                let var_id = self.new_slot()?;
                self.declare(name, var_id, Some(inner_type));
                self.emit_store(at_top, var_id, 0);
            },
            Token::UnderScope => {
                self.advance_token();
            },
            Token::Number(_) | Token::String(_, _) | Token::Char(_) | Token::Bool(_) | Token::Minus => {
                let mut or_match_jumps: Vec<usize> = Vec::new();
                loop
                    invariant_except_break
                        or_match_jumps@.len() == 0 ==> *self == *old(self),
                        lit1 ==> or_match_jumps@.len() == 0,
                    invariant
                        old(self).token() is Number || old(self).token() is String || old(self).token() is Char
                            || old(self).token() is Bool || old(self).token() is Minus,
                        self.kept(old(self)),
                        self.balanced(old(self)),
                        forall|j: int| 0 <= j < or_match_jumps@.len() ==> #[trigger] or_match_jumps@[j] < self.code@.len() && self.code@[or_match_jumps@[j] as int] is JumpIfTrue,
                        next_arm_jumps@.len() == 0,
                        or_match_jumps@.len() > 0 ==> self.fuel() < old(self).fuel(),
                        lit1 == (literal_of(old(self).token()) is Some && !(lex(old(self).text(), old(self).pos()).0 is ArifmOr)),
                    ensures
                        lit1 ==> (self.token(), self.pos()) == lex(old(self).text(), old(self).pos()),
                        self.kept(old(self)),
                        self.balanced(old(self)),
                        forall|j: int| 0 <= j < or_match_jumps@.len() ==> #[trigger] or_match_jumps@[j] < self.code@.len() && self.code@[or_match_jumps@[j] as int] is JumpIfTrue,
                        next_arm_jumps@.len() == 0,
                        self.fuel() < old(self).fuel(),
                    decreases self.fuel(),
                {
                    self.emit(Op::Dup);
                    let is_neg = self.next_if(Token::Minus);
                    match self.current_token {
                        Token::Number(n) => {
                            self.emit(Op::PushNumber(if is_neg { -n } else { n }));
                            self.advance_token();
                        },
                        Token::String(a, b) => {
                            if is_neg {
                                return Err(CompilerError::UnexpectedArg);
                            }
                            let s = self.lexer.slice(a, b);
                            self.emit(Op::PushStr(s));
                            self.advance_token();
                        },
                        Token::Char(c) => {
                            if is_neg {
                                return Err(CompilerError::UnexpectedArg);
                            }
                            self.emit(Op::PushChar(c));
                            self.advance_token();
                        },
                        Token::Bool(b) => {
                            if is_neg {
                                return Err(CompilerError::UnexpectedArg);
                            }
                            self.emit(Op::PushBool(b));
                            self.advance_token();
                        },
                        _ => return Err(CompilerError::UnexpectedArg),
                    }
                    self.emit(Op::Equal);
                    let j = self.add_plug(Op::JumpIfTrue(0));
                    or_match_jumps.push(j);
                    if self.next_if(Token::ArifmOr) {
                        continue;
                    } else {
                        break;
                    }
                }
                let miss = self.add_plug(Op::Jump(0));
                next_arm_jumps.push(miss);
                self.patch_all(&or_match_jumps);
            },
            _ => return Err(CompilerError::UnexpectedArg),
        }
        Ok(next_arm_jumps)
    }

    /// `match subject { pattern [if cond] => block, ... }` (`match _` tests
    /// no subject). Patterns: a name, `None`, `Ok(x)`, `Err(x)`, `Some(x)`,
    /// `_`, or literals joined by `|`.
    #[verifier::rlimit(80)]
    #[verifier::spinoff_prover]
    pub fn parse_match(&mut self) -> (r: Result<Type, CompilerError>)
        requires
            old(self).inv(),
        ensures
            final(self).kept(old(self)),
            r is Ok ==> final(self).code().len() > old(self).code().len() && final(self).balanced(old(self)),
            r is Ok && !(old(self).token() is Eof) ==> final(self).progressed(old(self)),
            match simple_match(old(self).text(), old(self).pos()) {
                Some(op) => r == Ok::<Type, CompilerError>(Type::Void) && final(self).code() == old(self).code()
                    + seq![op, Op::Pop, Op::PushVoid],
                None => true,
            },
            old(self).two_literal_arms() matches Some((x, y)) && x != y ==> r == Err::<Type, CompilerError>(
                CompilerError::UnexpectedArg,
            ),
        decreases old(self).fuel(), rank_lead(old(self).token()),
    {
        let ghost simple = simple_match(old(self).text(), old(self).pos()) is Some;
        let ghost clash = old(self).two_literal_arms() matches Some((x, y)) && x != y;
        let ghost (x, y) = old(self).two_literal_arms()->Some_0;
        let ghost text = old(self).text();
        let ghost (t1, p1) = lex(text, old(self).pos());
        let ghost (t2, p2) = lex(text, p1);
        let ghost (t3, p3) = lex(text, p2);
        let ghost (t4, p4) = lex(text, p3);
        let ghost (t5, p5) = lex(text, p4);
        let ghost (t6, p6) = lex(text, p5);
        let ghost (t7, p7) = lex(text, p6);
        let ghost (t8, p8) = lex(text, p7);
        let ghost (t9, p9) = lex(text, p8);
        self.advance_token();
        proof {
            if clash {
                assert(self.operand() == old(self).operand_at(t1, p1));
                assert(self.at_operand(11));
            }
        }
        let match_type = if self.next_if(Token::UnderScope) {
            self.emit(Op::PushVoid);
            Type::Void
        } else {
            self.parse_expression()?
        };
        self.expect(Token::Begin)?;
        let mut end_jumps: Vec<usize> = Vec::new();
        let mut final_type = Type::Infer;
        let ghost s_arms = *self;
        assert(clash ==> (self.token(), self.pos()) == (t3, p3));
        assert(simple ==> self.token() is End && self.code() == old(self).code().push(
            simple_match(old(self).text(), old(self).pos())->Some_0,
        ));
        while self.current_token != Token::End && self.current_token != Token::Eof
            invariant
                simple ==> *self == s_arms && end_jumps@.len() == 0 && final_type == Type::Infer
                    && s_arms.token() is End && s_arms.code() == old(self).code().push(
                    simple_match(old(self).text(), old(self).pos())->Some_0,
                ),
                simple == (simple_match(old(self).text(), old(self).pos()) is Some),
                clash == (old(self).two_literal_arms() matches Some((x, y)) && x != y),
                clash ==> old(self).two_literal_arms() == Some((x, y)),
                text == old(self).text(),
                (t1, p1) == lex(text, old(self).pos()),
                (t2, p2) == lex(text, p1),
                (t3, p3) == lex(text, p2),
                (t4, p4) == lex(text, p3),
                (t5, p5) == lex(text, p4),
                (t6, p6) == lex(text, p5),
                (t7, p7) == lex(text, p6),
                (t8, p8) == lex(text, p7),
                (t9, p9) == lex(text, p8),
                clash ==> self.text() == text && {
                    ||| end_jumps@.len() == 0 && final_type == Type::Infer && (self.token(), self.pos()) == (t3, p3)
                    ||| end_jumps@.len() == 1 && final_type == x && (self.token(), self.pos()) == (t7, p7)
                },
                self.kept(old(self)),
                self.balanced(old(self)),
                self.code@.len() > old(self).code@.len(),
                !(old(self).token() is Eof) ==> self.fuel() < old(self).fuel(),
                forall|j: int| 0 <= j < end_jumps@.len() ==> #[trigger] end_jumps@[j] < self.code@.len() && self.code@[end_jumps@[j] as int] is Jump,
            decreases self.fuel(),
        {
            let start_change_idx = self.scope_changes.len();
            let old_next_slot = self.next_slot;
            let mut next_arm_jumps = self.parse_pattern(&match_type)?;
            if self.next_if(Token::If) {
                let cond_type = self.parse_expression()?;
                if !Self::types_match(&cond_type, &Type::Bool) {
                    return self.throw_error(CompilerError::UnexpectedArg, Message::IfCondition(cond_type));
                }
                let j = self.add_plug(Op::JumpIfFalse(0));
                next_arm_jumps.push(j);
            }
            self.expect(Token::FatArrow)?;
            self.emit(Op::Pop);
            let arm_type = self.parse_block()?;
            if matches!(final_type, Type::Infer) || matches!(final_type, Type::Void) {
                final_type = arm_type;
            } else if !matches!(arm_type, Type::Infer) && !matches!(arm_type, Type::Void) && !Self::types_match(
                &final_type,
                &arm_type,
            ) {
                let m = Self::plain("Type mismatch in match arms");
                return self.throw_error(CompilerError::UnexpectedArg, m);
            }
            self.next_if(Token::Comma);
            let e = self.add_plug(Op::Jump(0));
            end_jumps.push(e);
            self.restore_scope(start_change_idx);
            self.next_slot = old_next_slot;
            self.patch_all(&next_arm_jumps);
        }
        self.expect(Token::End)?;
        self.emit(Op::Pop);
        self.emit(Op::PushVoid);
        let ghost before_patch = self.code();
        self.patch_all(&end_jumps);
        proof {
            if simple {
                assert(self.code() =~= before_patch);
                assert(self.code() =~= old(self).code() + seq![
                    simple_match(old(self).text(), old(self).pos())->Some_0,
                    Op::Pop,
                    Op::PushVoid,
                ]);
            }
        }
        if matches!(final_type, Type::Infer) {
            final_type = Type::Void;
        }
        Ok(final_type)
    }
}

impl Compiler {
    /// `loop block`.
    #[verifier::spinoff_prover]
    pub fn parse_loop(&mut self) -> (r: Result<(), CompilerError>)
        requires
            old(self).inv(),
        ensures
            final(self).kept(old(self)),
            r is Ok ==> final(self).code().len() > old(self).code().len() && final(self).balanced(old(self)),
            r is Ok && !(old(self).token() is Eof) ==> final(self).progressed(old(self)),
            match simple_block_at(old(self).text(), lex(old(self).text(), old(self).pos()).0, lex(old(self).text(), old(self).pos()).1) {
                Some((ops, _)) => r is Ok && final(self).code() == old(self).code() + ops + seq![
                    Op::Pop,
                    Op::Jump(old(self).code().len() as usize),
                ],
                None => true,
            },
        decreases old(self).fuel(), rank_lead(old(self).token()),
    {
        self.advance_token();
        let jump_index = self.code.len();
        let ghost pre_loop = *self;
        self.loop_contexts.push(LoopContext { start: jump_index, breaks: Vec::new() });
        proof {
            Self::lemma_open_loop(pre_loop, *self);
        }
        assert(self.loops_ok());
        let ghost before_block = *self;
        self.parse_block()?;
        self.emit(Op::Pop);
        self.emit(Op::Jump(jump_index));
        let ghost before_patch = self.code();
        let ctx = self.loop_contexts.pop().unwrap();
        assert(self.loops_ok());
        proof {
            if before_block.simple_block() is Some {
                assert(ctx.breaks@.len() == 0);
            }
        }
        self.patch_all(&ctx.breaks);
        proof {
            if before_block.simple_block() is Some {
                assert(self.code() =~= before_patch);
            }
        }
        Ok(())
    }

    /// `while condition block`.
    #[verifier::rlimit(80)]
    #[verifier::spinoff_prover]
    pub fn parse_while(&mut self) -> (r: Result<(), CompilerError>)
        requires
            old(self).inv(),
        ensures
            final(self).kept(old(self)),
            r is Ok ==> final(self).code().len() > old(self).code().len() && final(self).balanced(old(self)),
            r is Ok && !(old(self).token() is Eof) ==> final(self).progressed(old(self)),
            ({
                let (t1, p1) = lex(old(self).text(), old(self).pos());
                let (t2, p2) = lex(old(self).text(), p1);
                let start = old(self).code().len();
                match (t1, simple_block_at(old(self).text(), t2, p2)) {
                    (Token::Bool(b), Some((ops, _))) => r is Ok && final(self).code() == old(self).code() + seq![
                        Op::PushBool(b),
                        Op::JumpIfFalse((start + ops.len() + 4) as usize),
                    ] + ops + seq![Op::Pop, Op::Jump(start as usize)],
                    _ => true,
                }
            }),
        decreases old(self).fuel(), rank_lead(old(self).token()),
    {
        self.advance_token();
        let jump_index = self.code.len();
        let ghost pre_loop = *self;
        self.loop_contexts.push(LoopContext { start: jump_index, breaks: Vec::new() });
        proof {
            Self::lemma_open_loop(pre_loop, *self);
        }
        assert(self.loops_ok());
        let start_change_idx = self.scope_changes.len();
        let old_next_slot = self.next_slot;
        let ghost before_cond = *self;
        let cond_type = self.parse_expression()?;
        let ghost after_cond = *self;
        if !Self::types_match(&cond_type, &Type::Bool) {
            let m = Self::plain("Expected bool in while condition");
            return self.throw_error(CompilerError::UnexpectedArg, m);
        }
        let plug = self.add_plug(Op::JumpIfFalse(0));
        let ghost before_block = *self;
        self.parse_block()?;
        let ghost after_block = self.code();
        self.emit(Op::Pop);
        self.emit(Op::Jump(jump_index));
        self.patch_plug(plug);
        self.restore_scope(start_change_idx);
        self.next_slot = old_next_slot;
        let ghost before_patch = self.code();
        let ctx = self.loop_contexts.pop().unwrap();
        assert(self.loops_ok());
        let ghost simple = before_cond.at_lone_literal() && before_cond.token() is Bool
            && before_block.simple_block() is Some;
        proof {
            if simple {
                assert(ctx.breaks@.len() == 0);
            }
        }
        self.patch_all(&ctx.breaks);
        proof {
            if simple {
                assert(self.code() =~= before_patch);
                let ops = before_block.simple_block()->Some_0.0;
                let b = before_cond.token()->Bool_0;
                assert(after_block == old(self).code() + seq![Op::PushBool(b), Op::JumpIfFalse(0)] + ops);
                assert(self.code() =~= old(self).code() + seq![
                    Op::PushBool(b),
                    Op::JumpIfFalse((jump_index + ops.len() + 4) as usize),
                ] + ops + seq![Op::Pop, Op::Jump(jump_index)]);
            }
        }
        Ok(())
    }

    /// `if cond block (else if cond block)* [else block]`; as an expression
    /// (`need_else`) an `if` without `else` may not end its block.
    pub fn parse_if(&mut self, need_else: bool) -> (r: Result<Type, CompilerError>)
        requires
            old(self).inv(),
        ensures
            final(self).kept(old(self)),
            r is Ok ==> final(self).code().len() > old(self).code().len() && final(self).balanced(old(self)),
            r is Ok && !(old(self).token() is Eof) ==> final(self).progressed(old(self)),
            match simple_if(old(self).text(), old(self).pos(), old(self).code().len(), need_else) {
                Some((b, ops)) => {
                    let start = old(self).code().len();
                    &&& r == Ok::<Type, CompilerError>(Type::Void)
                    &&& final(self).code() == old(self).code() + seq![
                        Op::PushBool(b),
                        Op::JumpIfFalse((start + ops.len() + 3) as usize),
                    ] + ops + seq![Op::Jump((start + ops.len() + 4) as usize), Op::PushVoid]
                },
                None => true,
            },
        decreases old(self).fuel(), rank_lead(old(self).token()),
    {
        self.advance_token();
        let ghost s_cond = *self;
        assert((s_cond.token(), s_cond.pos()) == lex(old(self).text(), old(self).pos()));
        assert(s_cond.text() == old(self).text() && s_cond.code() == old(self).code());
        let ghost hyp = simple_if(old(self).text(), old(self).pos(), old(self).code().len(), need_else) is Some;
        assert(hyp ==> ({
            let (u1, q1) = lex(s_cond.text(), s_cond.pos());
            match (s_cond.token(), simple_block_at(s_cond.text(), u1, q1)) {
                (Token::Bool(b), Some((ops, _))) => s_cond.code().len() + ops.len() + 2 < usize::MAX,
                _ => false,
            }
        }));
        let res = self.parse_if_branch();
        assert(hyp ==> res is Ok);
        let mut final_type = res?;
        let mut has_else = false;
        let first = self.add_plug(Op::Jump(0));
        let mut plugs: Vec<usize> = Vec::new();
        plugs.push(first);
        let ghost s1 = *self;
        let ghost simple = ({
            let (t2, p2) = lex(s_cond.text(), s_cond.pos());
            let (te, _) = simple_block_end(s_cond.text(), t2, p2);
            &&& s_cond.token() is Bool
            &&& simple_block_at(s_cond.text(), t2, p2) is Some
            &&& s_cond.code().len() + simple_block_at(s_cond.text(), t2, p2)->Some_0.0.len() + 2 < usize::MAX
            &&& !(te is Else)
            &&& !(need_else && te is End)
        });
        assert(hyp ==> simple);
        while self.next_if(Token::Else)
            invariant
                simple ==> *self == s1 && !has_else && plugs@ == seq![first] && !(s1.token() is Else),
                simple_if(old(self).text(), old(self).pos(), old(self).code().len(), need_else) is Some ==> simple,
                self.kept(old(self)),
                self.balanced(old(self)),
                self.code@.len() > old(self).code@.len(),
                !(old(self).token() is Eof) ==> self.fuel() < old(self).fuel(),
                forall|j: int| 0 <= j < plugs@.len() ==> #[trigger] plugs@[j] < self.code@.len() && self.code@[plugs@[j] as int] is Jump,
            decreases self.fuel(),
        {
            if self.next_if(Token::If) {
                let branch_type = self.parse_if_branch()?;
                if matches!(final_type, Type::Infer) || matches!(final_type, Type::Void) {
                    final_type = branch_type;
                } else if !matches!(branch_type, Type::Infer) && !matches!(branch_type, Type::Void) && !Self::types_match(
                    &final_type,
                    &branch_type,
                ) {
                    let m = Self::plain("Type mismatch in if branches");
                    return self.throw_error(CompilerError::UnexpectedArg, m);
                }
                let p = self.add_plug(Op::Jump(0));
                plugs.push(p);
            } else {
                has_else = true;
                let branch_type = self.parse_block()?;
                if matches!(final_type, Type::Infer) || matches!(final_type, Type::Void) {
                    final_type = branch_type;
                } else if !matches!(branch_type, Type::Infer) && !matches!(branch_type, Type::Void) && !Self::types_match(
                    &final_type,
                    &branch_type,
                ) {
                    let m = Self::plain("Type mismatch in if branches");
                    return self.throw_error(CompilerError::UnexpectedArg, m);
                }
            }
        }
        if !has_else {
            if need_else && self.current_token == Token::End {
                return Err(CompilerError::UnexpectedArg);
            } else {
                self.emit(Op::PushVoid);
                final_type = Type::Void;
            }
        }
        let ghost before_patch = self.code();
        self.patch_all(&plugs);
        proof {
            if simple {
                let (t2, p2) = lex(s_cond.text(), s_cond.pos());
                let ops = simple_block_at(s_cond.text(), t2, p2)->Some_0.0;
                let b = s_cond.token()->Bool_0;
                let start = old(self).code().len();
                assert(plugs@ == seq![first]);
                assert(first == start + ops.len() + 2);
                let want = old(self).code() + seq![
                    Op::PushBool(b),
                    Op::JumpIfFalse((start + ops.len() + 3) as usize),
                ] + ops + seq![Op::Jump(0), Op::PushVoid];
                assert(before_patch =~= want);
                assert forall|k: int| 0 <= k < before_patch.len() implies #[trigger] self.code()[k] == if k == first as int {
                    Op::Jump(before_patch.len() as usize)
                } else {
                    before_patch[k]
                } by {
                    if k != first as int {
                        assert(!(exists|w: int| 0 <= w < plugs@.len() && plugs@[w] as int == k));
                    } else {
                        assert(plugs@[0] as int == k);
                    }
                }
                assert(self.code() =~= old(self).code() + seq![
                    Op::PushBool(b),
                    Op::JumpIfFalse((start + ops.len() + 3) as usize),
                ] + ops + seq![Op::Jump((start + ops.len() + 4) as usize), Op::PushVoid]);
            }
        }
        Ok(final_type)
    }

    /// One `cond block` of an `if`; a false condition jumps past the block
    /// and the jump that follows it.
    pub fn parse_if_branch(&mut self) -> (r: Result<Type, CompilerError>)
        requires
            old(self).inv(),
        ensures
            final(self).kept(old(self)),
            r is Ok ==> final(self).progressed(old(self)) && final(self).balanced(old(self)),
            ({
                let (t1, p1) = lex(old(self).text(), old(self).pos());
                let start = old(self).code().len();
                match (old(self).token(), simple_block_at(old(self).text(), t1, p1)) {
                    (Token::Bool(b), Some((ops, bt))) => start + ops.len() + 2 < usize::MAX ==> {
                        &&& r == Ok::<Type, CompilerError>(bt)
                        &&& final(self).code() == old(self).code() + seq![
                            Op::PushBool(b),
                            Op::JumpIfFalse((start + ops.len() + 3) as usize),
                        ] + ops
                        &&& final(self).loops() == old(self).loops()
                        &&& (final(self).token(), final(self).pos()) == simple_block_end(old(self).text(), t1, p1)
                    },
                    _ => true,
                }
            }),
        decreases old(self).fuel(), 15int,
    {
        let start_change_idx = self.scope_changes.len();
        let old_next_slot = self.next_slot;
        let cond_type = self.parse_expression()?;
        if !Self::types_match(&cond_type, &Type::Bool) {
            return self.throw_error(CompilerError::UnexpectedArg, Message::IfCondition(cond_type));
        }
        let plug = self.add_plug(Op::JumpIfFalse(0));
        let ghost before_block = *self;
        let branch_type = self.parse_block()?;
        self.restore_scope(start_change_idx);
        self.next_slot = old_next_slot;
        let n = self.code.len();
        if n == usize::MAX {
            return Err(CompilerError::UnexpectedArg);
        }
        self.code.set(plug, Op::JumpIfFalse(n + 1));
        assert(self.loops_ok());
        proof {
            if old(self).at_lone_literal() && old(self).token() is Bool && before_block.simple_block() is Some {
                let ops = before_block.simple_block()->Some_0.0;
                let b = old(self).token()->Bool_0;
                assert(self.code() =~= old(self).code() + seq![
                    Op::PushBool(b),
                    Op::JumpIfFalse((old(self).code().len() + ops.len() + 3) as usize),
                ] + ops);
            }
        }
        Ok(branch_type)
    }

    /// `for [(]a, b[)] in iterable block`.
    #[verifier::rlimit(100)]
    #[verifier::spinoff_prover]
    pub fn parse_for(&mut self) -> (r: Result<(), CompilerError>)
        requires
            old(self).inv(),
        ensures
            final(self).kept(old(self)),
            r is Ok ==> final(self).progressed(old(self)) && final(self).balanced(old(self)),
            for_over_literal(old(self).text(), old(self).pos()) ==> r == Err::<(), CompilerError>(
                CompilerError::UnexpectedArg,
            ),
            match old(self).for_without_names() {
                Some((load, ops)) => {
                    let start = old(self).code().len();
                    &&& r is Ok
                    &&& final(self).code() == old(self).code() + seq![
                        load,
                        Op::MakeIter,
                        Op::IterNext((start + ops.len() + 6) as usize),
                        Op::Pop,
                    ] + ops + seq![Op::Pop, Op::Jump((start + 2) as usize), Op::Pop]
                    &&& final(self).slot_count() == old(self).slot_count()
                },
                None => true,
            },
        decreases old(self).fuel(), 0int,
    {
        self.advance_token();
        let has_parens = self.next_if(Token::LParen);
        let ghost s_a = *self;
        assert(for_over_literal(old(self).text(), old(self).pos()) || old(self).for_without_names() is Some
            ==> !has_parens && (s_a.token(), s_a.pos()) == lex(old(self).text(), old(self).pos()));
        let mut loop_vars: Vec<usize> = Vec::new();
        loop
            invariant
                self.kept(old(self)),
                forall|j: int| 0 <= j < loop_vars@.len() ==> #[trigger] loop_vars@[j] < self.names@.len(),
                self.balanced(old(self)),
                self.code() == old(self).code(),
                self.text() == s_a.text(),
                loop_vars@.len() == 0 ==> *self == s_a,
                s_a.token() is In ==> loop_vars@.len() == 0,
                s_a.token() is Ident && lex(s_a.text(), s_a.pos()).0 is In && loop_vars@.len() > 0 ==> loop_vars@.len()
                    == 1 && (self.token(), self.pos()) == lex(s_a.text(), s_a.pos()),
            ensures
                s_a.token() is Ident ==> loop_vars@.len() > 0,
            decreases self.fuel(),
        {
            match self.current_ident() {
                Some(k) => {
                    loop_vars.push(k);
                    self.advance_token();
                    if !self.next_if(Token::Comma) {
                        break;
                    }
                },
                None => break,
            }
        }
        if has_parens {
            self.expect(Token::RParen)?;
        }
        let ghost s_b = *self;
        proof {
            let (t1, p1) = lex(old(self).text(), old(self).pos());
            if for_over_literal(old(self).text(), old(self).pos()) || old(self).for_without_names() is Some {
                assert(s_a.token() == t1 && s_a.pos() == p1);
                if t1 is In {
                    assert(s_b == s_a);
                } else {
                    assert(s_a.token() is Ident);
                    assert((s_b.token(), s_b.pos()) == lex(s_a.text(), s_a.pos()));
                }
            }
        }
        self.expect(Token::In)?;
        let ghost s_c = *self;
        proof {
            if old(self).for_without_names() is Some {
                assert(s_c.names == old(self).names && s_c.variables == old(self).variables
                    && s_c.scope_depth == old(self).scope_depth);
                assert(s_c.at_operand(11));
            }
            if for_over_literal(old(self).text(), old(self).pos()) {
                assert(s_c.at_operand(11));
            }
        }
        let iter_type = self.parse_expression()?;
        let ghost fw = old(self).for_without_names() is Some;
        assert(fw ==> loop_vars@.len() == 0);
        assert(fw ==> self.code() == old(self).code().push(old(self).for_without_names()->Some_0.0));
        if !matches!(iter_type, Type::Iter(_) | Type::Array(_) | Type::Infer) {
            let m = Self::plain("Expected iterable type in for loop");
            return self.throw_error(CompilerError::UnexpectedArg, m);
        }
        let elem_type = match iter_type {
            Type::Iter(boxed) => *boxed,
            Type::Array(boxed) => *boxed,
            _ => Type::Infer,
        };
        let ghost s_d = *self;
        proof {
            if fw {
                let (t1, p1) = lex(old(self).text(), old(self).pos());
                let (t2, p2) = lex(old(self).text(), p1);
                let (t3, p3) = lex(old(self).text(), p2);
                assert(s_d.token() == t3 && s_d.pos() == p3);
                assert(s_d.simple_block() == simple_block_at(old(self).text(), t3, p3));
            }
        }
        assert(fw ==> s_d.slot_count() == old(self).slot_count() && s_d.simple_block() is Some && loop_vars@.len() == 0);
        self.for_body(&loop_vars, elem_type)?;
        proof {
            match old(self).for_without_names() {
                Some((load, ops)) => {
                    let start = old(self).code().len();
                    assert(self.slot_count() == old(self).slot_count());
                    assert(self.code() =~= old(self).code() + seq![
                        load,
                        Op::MakeIter,
                        Op::IterNext((start + ops.len() + 6) as usize),
                        Op::Pop,
                    ] + ops + seq![Op::Pop, Op::Jump((start + 2) as usize), Op::Pop]);
                },
                None => {},
            }
        }
        Ok(())
    }

    /// The rest of a `for` loop once its iterable is on the stack: makes
    /// the iterator, binds the loop names `loop_vars` to each item (one
    /// name takes the item, several unpack it), compiles the block, and
    /// closes the loop. `elem_type` is the type of the items.
    #[verifier::rlimit(100)]
    #[verifier::spinoff_prover]
    fn for_body(&mut self, loop_vars: &Vec<usize>, elem_type: Type) -> (r: Result<(), CompilerError>)
        requires
            old(self).inv(),
            forall|j: int| 0 <= j < loop_vars@.len() ==> #[trigger] loop_vars@[j] < old(self).names@.len(),
        ensures
            final(self).kept(old(self)),
            r is Ok ==> final(self).code().len() > old(self).code().len() && final(self).balanced(old(self)),
            loop_vars@.len() == 0 ==> match old(self).simple_block() {
                Some((ops, _)) => {
                    let start = old(self).code().len();
                    &&& r is Ok
                    &&& final(self).code() == old(self).code() + seq![
                        Op::MakeIter,
                        Op::IterNext((start + ops.len() + 5) as usize),
                        Op::Pop,
                    ] + ops + seq![Op::Pop, Op::Jump((start + 1) as usize), Op::Pop]
                    &&& final(self).slot_count() == old(self).slot_count()
                },
                None => true,
            },
        decreases old(self).fuel(), 17int,
    {
        self.emit(Op::MakeIter);
        let loop_start = self.code.len();
        let exit_jump = self.add_plug(Op::IterNext(0));
        let ghost pre_loop = *self;
        self.loop_contexts.push(LoopContext { start: loop_start, breaks: Vec::new() });
        proof {
            Self::lemma_open_loop(pre_loop, *self);
        }
        assert(self.loops_ok());
        let ghost sb = loop_vars@.len() == 0 && old(self).simple_block() is Some;
        let mut old_vals: Vec<(usize, Option<VarInfo>)> = Vec::new();
        let at_top = self.scope_depth == 0;
        let depth = self.scope_depth;
        let slots_before = self.next_slot;
        if loop_vars.len() > 1 {
            self.emit(Op::UnpackTuple);
            let mut i = loop_vars.len();
            while i > 0
                invariant
                    i <= loop_vars.len(),
                    forall|j: int| 0 <= j < old_vals@.len() ==> (#[trigger] old_vals@[j]).0 < self.names@.len(),
                    forall|j: int| 0 <= j < loop_vars@.len() ==> #[trigger] loop_vars@[j] < self.names@.len(),
                    self.kept(old(self)),
                    self.code@.len() > old(self).code@.len(),
                    self.loop_contexts@.len() == old(self).loop_contexts@.len() + 1,
                    self.scope_depth == old(self).scope_depth,
                    exit_jump < self.code@.len(),
                    self.code@[exit_jump as int] is IterNext,
                    self.next_slot == slots_before + old_vals@.len(),
                    depth == self.scope_depth,
                    at_top == (depth == 0),
                    loop_vars@.len() > 1,
                decreases i,
            {
                i = i - 1;
                let name = loop_vars[i];
                let var_id = self.new_slot()?;
                let prev = fx_insert(&mut self.variables, name, VarInfo { slot: var_id, depth, ty: Some(Type::Infer) });
                old_vals.push((name, prev));
                self.emit_store(at_top, var_id, 0);
            }
        } else if loop_vars.len() == 1 {
            let name = loop_vars[0];
            let var_id = self.new_slot()?;
            let prev = fx_insert(&mut self.variables, name, VarInfo { slot: var_id, depth, ty: Some(elem_type) });
            old_vals.push((name, prev));
            self.emit_store(at_top, var_id, 0);
        } else {
            self.emit(Op::Pop);
        }
        let ghost s_d = *self;
        proof {
            if sb {
                assert(s_d.simple_block() == old(self).simple_block());
                assert(s_d.loop_contexts@.last().breaks@.len() == 0);
            }
        }
        self.parse_block()?;
        self.emit(Op::Pop);
        self.emit(Op::Jump(loop_start));
        self.patch_plug(exit_jump);
        let ghost s_f = *self;
        let ctx = self.loop_contexts.pop().unwrap();
        assert(self.loops_ok());
        assert(sb ==> ctx.breaks@.len() == 0);
        self.patch_all(&ctx.breaks);
        proof {
            if sb {
                assert(self.code() =~= s_f.code());
                let ops = old(self).simple_block()->Some_0.0;
                let start = old(self).code().len();
                assert(s_d.code() == old(self).code() + seq![Op::MakeIter, Op::IterNext(0), Op::Pop]);
                assert(s_f.code() =~= old(self).code() + seq![
                    Op::MakeIter,
                    Op::IterNext((start + ops.len() + 5) as usize),
                    Op::Pop,
                ] + ops + seq![Op::Pop, Op::Jump((start + 1) as usize)]);
            }
        }
        self.emit(Op::Pop);
        let ghost s_end = *self;
        let mut k: usize = 0;
        while k < old_vals.len()
            invariant
                self.code() == s_end.code(),
                loop_vars@.len() == 0 ==> slots_before == old(self).slot_count() && old_vals@.len() == 0,
                k <= old_vals.len(),
                forall|j: int| 0 <= j < old_vals@.len() ==> (#[trigger] old_vals@[j]).0 < self.names@.len(),
                self.kept(old(self)),
                self.code@.len() > old(self).code@.len(),
                self.balanced(old(self)),
                self.next_slot == slots_before + old_vals@.len() - k,
            decreases old_vals.len() - k,
        {
            let (name, old_val) = &old_vals[k];
            match old_val {
                Some(prev) => {
                    let p = prev.copy();
                    fx_insert(&mut self.variables, *name, p);
                },
                None => {
                    fx_remove(&mut self.variables, *name);
                },
            }
            self.next_slot = self.next_slot - 1;
            k = k + 1;
        }
        proof {
            if sb {
                let ops = old(self).simple_block()->Some_0.0;
                let start = old(self).code().len();
                assert(old_vals@.len() == 0);
                assert(self.code() =~= old(self).code() + seq![
                    Op::MakeIter,
                    Op::IterNext((start + ops.len() + 5) as usize),
                    Op::Pop,
                ] + ops + seq![Op::Pop, Op::Jump((start + 1) as usize), Op::Pop]);
            }
        }
        Ok(())
    }


    /// Compiles the whole program, read as one block.
    pub fn compile(&mut self) -> (r: Result<Vec<Op>, CompilerError>)
        requires
            old(self).inv(),
        ensures
            r is Ok ==> r->Ok_0@.len() > 0 && final(self).code().len() == 0,
            old(self).code().len() == 0 ==> match old(self).simple_block() {
                Some((ops, _)) => r is Ok && r->Ok_0@ == ops,
                None => true,
            },
            old(self).block_error() matches Some(e) ==> r == Err::<Vec<Op>, CompilerError>(e),
            old(self).code().len() == 0 ==> match two_stmt_block(old(self).text(), old(self).token(), old(self).pos()) {
                Some((o1, o2, _)) => r is Ok && r->Ok_0@ == seq![o1, Op::Pop, o2],
                None => true,
            },
            old(self).code().len() == 0 ==> match old(self).sum_block() {
                Some((o1, o2, op)) => r is Ok && r->Ok_0@ == seq![o1, o2, op],
                None => true,
            },
    {
        self.parse_block()?;
        let mut code: Vec<Op> = Vec::new();
        std::mem::swap(&mut code, &mut self.code);
        Ok(code)
    }
}

} // verus!
