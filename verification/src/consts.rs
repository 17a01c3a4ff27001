use vstd::prelude::*;

verus! {

/// Codes carried by `Token::AssignOper` for the compound assignments.
pub const ASSIGN_ADD: usize = 0;
pub const ASSIGN_SUB: usize = 1;
pub const ASSIGN_MUL: usize = 2;
pub const ASSIGN_DIV: usize = 3;
pub const ASSIGN_POW: usize = 4;

/// Marks a call frame whose return leaves the interpreter, and the end of a
/// parent-frame chain.
pub const STOP_FLAG: usize = usize::MAX;

/// File descriptors accepted by `write`/`writeln`.
pub const STDOUT: i64 = 1;
pub const STDERR: i64 = 2;

/// Open-mode flags understood by the `open` builtin.
pub const READ_FM: i64 = 1;
pub const WRITE_FM: i64 = 2;
pub const CREATE_FM: i64 = 4;
pub const TRUNCATE_FM: i64 = 8;
pub const ALL_FLAGS: i64 = 7;

/// How many bytes `readch` reads from a file at once.
pub const READ_AT_ONCE: usize = 65536;

/// File-type flags.
pub const FILE_FT: i64 = 16;
pub const DIR_FT: i64 = 32;
pub const SYMLINK_FT: i64 = 64;
pub const EXEC_FT: i64 = 128;
pub const UNKNOWN_FT: i64 = 0;

/// Number of value slots on the operand stack.
pub const STACK_MAX: usize = 2048;

/// Number of variable slots a fresh machine starts with.
pub const FRAME_START: usize = 1024;

} // verus!
