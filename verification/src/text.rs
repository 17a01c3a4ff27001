//! Text helpers shared by the lexer and the machine: character classes,
//! decimal rendering and decimal parsing of integers, all on `Vec<char>`.
use vstd::prelude::*;

verus! {

// ---------------------------------------------------------------------------
// Character classes
// ---------------------------------------------------------------------------

/// `char::is_ascii_digit`: the characters `'0'..='9'`.
pub open spec fn is_digit(c: char) -> bool {
    '0' <= c && c <= '9'
}

/// The Unicode `White_Space` property, which `char::is_whitespace` tests.
pub open spec fn is_space(c: char) -> bool {
    let u = c as u32;
    ||| (0x9 <= u && u <= 0xD)
    ||| u == 0x20
    ||| u == 0x85
    ||| u == 0xA0
    ||| u == 0x1680
    ||| (0x2000 <= u && u <= 0x200A)
    ||| u == 0x2028
    ||| u == 0x2029
    ||| u == 0x202F
    ||| u == 0x205F
    ||| u == 0x3000
}

pub fn is_ascii_digit(c: char) -> (r: bool)
    ensures
        r == is_digit(c),
{
    '0' <= c && c <= '9'
}

pub fn is_whitespace(c: char) -> (r: bool)
    ensures
        r == is_space(c),
{
    let u = c as u32;
    (0x9 <= u && u <= 0xD) || u == 0x20 || u == 0x85 || u == 0xA0 || u == 0x1680 || (0x2000 <= u
        && u <= 0x200A) || u == 0x2028 || u == 0x2029 || u == 0x202F || u == 0x205F || u == 0x3000
}

/// Names the Unicode `Alphabetic` property that `char::is_alphabetic` tests.
pub uninterp spec fn unicode_alphabetic(c: char) -> bool;

/// Names the property `char::is_alphanumeric` tests (`Alphabetic` or `Numeric`).
pub uninterp spec fn unicode_alphanumeric(c: char) -> bool;

/// Calls `char::is_alphabetic`; the result is the Unicode `Alphabetic`
/// property of `c`, a function of `c` alone.
#[verifier::external_body]
pub(crate) fn is_alphabetic(c: char) -> (r: bool)
    ensures
        r == unicode_alphabetic(c),
{
    c.is_alphabetic()
}

/// Calls `char::is_alphanumeric`; the result is whether `c` has the Unicode
/// `Alphabetic` or `Numeric` property, a function of `c` alone.
#[verifier::external_body]
pub(crate) fn is_alphanumeric(c: char) -> (r: bool)
    ensures
        r == unicode_alphanumeric(c),
{
    c.is_alphanumeric()
}

/// Names the characters `str::to_lowercase` gives for a text.
pub uninterp spec fn lowercase_of(s: Seq<char>) -> Seq<char>;

/// Names the characters `str::to_uppercase` gives for a text.
pub uninterp spec fn uppercase_of(s: Seq<char>) -> Seq<char>;

/// Calls `str::to_lowercase` on the text `s`: the Unicode lowercase mapping,
/// a function of the characters of `s` alone.
#[verifier::external_body]
pub(crate) fn to_lowercase(s: &Vec<char>) -> (r: Vec<char>)
    ensures
        r@ == lowercase_of(s@),
{
    let t: String = s.iter().collect();
    t.to_lowercase().chars().collect()
}

/// Calls `str::to_uppercase` on the text `s`: the Unicode uppercase mapping,
/// a function of the characters of `s` alone.
#[verifier::external_body]
pub(crate) fn to_uppercase(s: &Vec<char>) -> (r: Vec<char>)
    ensures
        r@ == uppercase_of(s@),
{
    let t: String = s.iter().collect();
    t.to_uppercase().chars().collect()
}

/// Calls `str::chars` and collects the characters of `s` in order.
#[verifier::external_body]
pub(crate) fn str_chars(s: &str) -> (r: Vec<char>)
    ensures
        r@ == s@,
{
    s.chars().collect()
}

/// The characters of a string literal, as a vector.
pub fn lit(s: &str) -> (r: Vec<char>)
    ensures
        r@ == s@,
{
    str_chars(s)
}

/// Whether the text `a` consists of the characters of `s`.
pub fn text_is(a: &Vec<char>, s: &str) -> (r: bool)
    ensures
        r == (a@ == s@),
{
    let b = str_chars(s);
    same_text(a, &b)
}

/// Whether two texts hold the same characters.
pub fn same_text(a: &Vec<char>, b: &Vec<char>) -> (r: bool)
    ensures
        r == (a@ == b@),
{
    if a.len() != b.len() {
        return false;
    }
    let mut i: usize = 0;
    while i < a.len()
        invariant
            a.len() == b.len(),
            i <= a.len(),
            forall|j: int| 0 <= j < i ==> a@[j] == b@[j],
        decreases a.len() - i,
    {
        if a[i] != b[i] {
            return false;
        }
        i = i + 1;
    }
    assert(a@ =~= b@);
    true
}

/// Appends the characters of `b` to `a`.
pub fn append_text(a: &mut Vec<char>, b: &Vec<char>)
    ensures
        final(a)@ == old(a)@ + b@,
{
    let mut i: usize = 0;
    while i < b.len()
        invariant
            i <= b.len(),
            a@ == old(a)@ + b@.take(i as int),
        decreases b.len() - i,
    {
        a.push(b[i]);
        i = i + 1;
        assert(b@.take(i as int) =~= b@.take(i - 1).push(b@[i - 1]));
    }
    assert(b@.take(b.len() as int) =~= b@);
}

/// Appends the characters of the literal `s` to `a`.
pub fn append_lit(a: &mut Vec<char>, s: &str)
    ensures
        final(a)@ == old(a)@ + s@,
{
    let b = str_chars(s);
    append_text(a, &b);
}

/// A copy of a text.
pub fn copy_text(a: &Vec<char>) -> (r: Vec<char>)
    ensures
        r@ == a@,
{
    let mut r: Vec<char> = Vec::new();
    append_text(&mut r, a);
    r
}

/// The characters `a[from..to]`.
pub fn slice_text(a: &Vec<char>, from: usize, to: usize) -> (r: Vec<char>)
    requires
        from <= to <= a.len(),
    ensures
        r@ == a@.subrange(from as int, to as int),
{
    let mut r: Vec<char> = Vec::new();
    let mut i = from;
    while i < to
        invariant
            from <= i <= to <= a.len(),
            r@ == a@.subrange(from as int, i as int),
        decreases to - i,
    {
        r.push(a[i]);
        i = i + 1;
        assert(r@ =~= a@.subrange(from as int, i as int));
    }
    r
}

// ---------------------------------------------------------------------------
// Decimal rendering
// ---------------------------------------------------------------------------

/// The digit character for `d` in `0..10`.
pub open spec fn digit_char(d: int) -> char {
    (('0' as int) + d) as char
}

/// The decimal digits of `n`, most significant first, without leading zeros.
pub open spec fn nat_digits(n: nat) -> Seq<char>
    decreases n,
{
    if n < 10 {
        seq![digit_char(n as int)]
    } else {
        nat_digits(n / 10).push(digit_char((n % 10) as int))
    }
}

/// How `i64`'s `Display` writes `n`: a `-` for a negative number, then the
/// decimal digits of its magnitude.
pub open spec fn int_text(n: int) -> Seq<char> {
    if n < 0 {
        seq!['-'] + nat_digits((-n) as nat)
    } else {
        nat_digits(n as nat)
    }
}

pub fn push_digits(out: &mut Vec<char>, n: u64)
    ensures
        final(out)@ == old(out)@ + nat_digits(n as nat),
    decreases n,
{
    if n >= 10 {
        push_digits(out, n / 10);
    }
    let d = (n % 10) as u32;
    let c = char_from_digit(d);
    out.push(c);
    proof {
        if n >= 10 {
            assert(nat_digits(n as nat) == nat_digits((n / 10) as nat).push(digit_char((n % 10) as int)));
        } else {
            assert(nat_digits(n as nat) == seq![digit_char(n as int)]);
        }
    }
}

fn char_from_digit(d: u32) -> (c: char)
    requires
        d < 10,
    ensures
        c == digit_char(d as int),
{
    if d == 0 { '0' }
    else if d == 1 { '1' }
    else if d == 2 { '2' }
    else if d == 3 { '3' }
    else if d == 4 { '4' }
    else if d == 5 { '5' }
    else if d == 6 { '6' }
    else if d == 7 { '7' }
    else if d == 8 { '8' }
    else { '9' }
}

/// Appends the decimal text of `n` to `out`.
pub fn push_int(out: &mut Vec<char>, n: i64)
    ensures
        final(out)@ == old(out)@ + int_text(n as int),
{
    if n < 0 {
        out.push('-');
        let m: u64 = if n == i64::MIN { 9223372036854775808u64 } else { (-n) as u64 };
        push_digits(out, m);
        assert(out@ =~= old(out)@ + int_text(n as int));
    } else {
        push_digits(out, n as u64);
    }
}

/// The decimal text of `n`.
pub fn int_to_text(n: i64) -> (r: Vec<char>)
    ensures
        r@ == int_text(n as int),
{
    let mut r: Vec<char> = Vec::new();
    push_int(&mut r, n);
    assert(r@ =~= int_text(n as int));
    r
}

// ---------------------------------------------------------------------------
// Decimal parsing (what `str::parse::<i64>` accepts)
// ---------------------------------------------------------------------------

/// The value of a text of decimal digits.
pub open spec fn digits_value(s: Seq<char>) -> nat
    decreases s.len(),
{
    if s.len() == 0 {
        0
    } else {
        digits_value(s.drop_last()) * 10 + ((s.last() as int) - ('0' as int)) as nat
    }
}

/// The length of the longest prefix of `s` that is made of digits.
pub open spec fn digit_run(s: Seq<char>) -> nat
    decreases s.len(),
{
    if s.len() == 0 {
        0
    } else if is_digit(s[0]) {
        1 + digit_run(s.drop_first())
    } else {
        0
    }
}

/// The outcome of parsing a text as an `i64`, with the four kinds of
/// `ParseIntError` that `str::parse::<i64>` can report.
#[derive(Debug, Clone, Copy, PartialEq, Eq)]
pub enum IntParse {
    Value(i64),
    Empty,
    InvalidDigit,
    PosOverflow,
    NegOverflow,
}

/// What `str::parse::<i64>` gives: an optional sign, then digits. Digits are
/// read from the left, so an overflow in the leading run of digits is
/// reported even when a bad character follows it.
pub open spec fn parse_int_spec(s: Seq<char>) -> IntParse {
    if s.len() == 0 {
        IntParse::Empty
    } else {
        let neg = s[0] == '-';
        let body = if s[0] == '-' || s[0] == '+' { s.drop_first() } else { s };
        if body.len() == 0 {
            IntParse::InvalidDigit
        } else {
            let k = digit_run(body);
            let v = digits_value(body.take(k as int));
            if neg && v > 9223372036854775808 {
                IntParse::NegOverflow
            } else if !neg && v > 9223372036854775807 {
                IntParse::PosOverflow
            } else if k < body.len() {
                IntParse::InvalidDigit
            } else if neg {
                IntParse::Value((-(v as int)) as i64)
            } else {
                IntParse::Value(v as i64)
            }
        }
    }
}

proof fn lemma_digit_run_bounds(s: Seq<char>)
    ensures
        digit_run(s) <= s.len(),
        forall|i: int| 0 <= i < digit_run(s) ==> is_digit(#[trigger] s[i]),
        digit_run(s) < s.len() ==> !is_digit(s[digit_run(s) as int]),
    decreases s.len(),
{
    if s.len() > 0 && is_digit(s[0]) {
        lemma_digit_run_bounds(s.drop_first());
        assert forall|i: int| 0 <= i < digit_run(s) implies is_digit(#[trigger] s[i]) by {
            if i > 0 {
                assert(s[i] == s.drop_first()[i - 1]);
            }
        }
    }
}

pub proof fn lemma_digit_run_char(s: Seq<char>, k: int)
    requires
        0 <= k <= s.len(),
        forall|i: int| 0 <= i < k ==> is_digit(#[trigger] s[i]),
        k < s.len() ==> !is_digit(s[k]),
    ensures
        digit_run(s) == k,
    decreases s.len(),
{
    if s.len() > 0 {
        if k > 0 {
            assert(is_digit(s[0]));
            assert forall|i: int| 0 <= i < k - 1 implies is_digit(#[trigger] s.drop_first()[i]) by {
                assert(s.drop_first()[i] == s[i + 1]);
            }
            lemma_digit_run_char(s.drop_first(), k - 1);
        }
    }
}

proof fn lemma_digits_value_monotone(s: Seq<char>, i: int)
    requires
        0 <= i <= s.len(),
        forall|j: int| 0 <= j < s.len() ==> is_digit(#[trigger] s[j]),
    ensures
        digits_value(s.take(i)) <= digits_value(s),
    decreases s.len() - i,
{
    if i < s.len() {
        lemma_digits_value_monotone(s, i + 1);
        assert(s.take(i + 1).drop_last() =~= s.take(i));
        assert(is_digit(s[i]));
        assert(s.take(i + 1).last() == s[i]);
        assert(digits_value(s.take(i + 1)) == digits_value(s.take(i)) * 10 + ((s[i] as int) - ('0' as int)) as nat);
        assert(digits_value(s.take(i)) * 10 >= digits_value(s.take(i))) by (nonlinear_arith);
    } else {
        assert(s.take(i) =~= s);
    }
}

/// Parses `s` as `str::parse::<i64>` does.
pub fn parse_int(s: &Vec<char>) -> (r: IntParse)
    ensures
        r == parse_int_spec(s@),
{
    if s.len() == 0 {
        return IntParse::Empty;
    }
    let neg = s[0] == '-';
    let start: usize = if s[0] == '-' || s[0] == '+' { 1 } else { 0 };
    let ghost body = if s@[0] == '-' || s@[0] == '+' { s@.drop_first() } else { s@ };
    assert(body =~= s@.subrange(start as int, s.len() as int));
    if start == s.len() {
        return IntParse::InvalidDigit;
    }
    // Read the leading run of digits, watching for overflow of the magnitude.
    let mut i = start;
    let mut v: u64 = 0;
    let limit: u64 = if neg { 9223372036854775808u64 } else { 9223372036854775807u64 };
    while i < s.len() && is_ascii_digit(s[i])
        invariant
            start <= i <= s.len(),
            body =~= s@.subrange(start as int, s.len() as int),
            s.len() > 0,
            neg == (s@[0] == '-'),
            body == (if s@[0] == '-' || s@[0] == '+' { s@.drop_first() } else { s@ }),
            forall|j: int| start <= j < i ==> is_digit(#[trigger] s@[j]),
            v as nat == digits_value(s@.subrange(start as int, i as int)),
            v <= limit,
            limit == (if neg { 9223372036854775808u64 } else { 9223372036854775807u64 }),
        decreases s.len() - i,
    {
        let d = (s[i] as u32 - '0' as u32) as u64;
        assert(s@.subrange(start as int, i + 1).drop_last() =~= s@.subrange(start as int, i as int));
        if v > (limit - d) / 10 {
            // The magnitude of the digits read so far exceeds the limit.
            proof {
                let p0 = s@.subrange(start as int, i + 1);
                assert(p0.last() == s@[i as int]);
                assert(p0.drop_last() =~= s@.subrange(start as int, i as int));
                assert(digits_value(p0) == v * 10 + d);
                assert(v * 10 + d > limit) by (nonlinear_arith)
                    requires v > (limit - d) / 10, d <= 9, limit >= 9;
                let k = digit_run(body);
                lemma_digit_run_bounds(body);
                assert forall|j: int| 0 <= j < k implies is_digit(#[trigger] body.take(k as int)[j]) by {}
                let p = s@.subrange(start as int, i + 1);
                assert(digits_value(p) > limit);
                // p is a prefix of the digit run
                assert forall|j: int| 0 <= j < p.len() implies is_digit(#[trigger] body[j]) by {
                    assert(body[j] == s@[start + j]);
                }
                assert(k >= p.len()) by {
                    if k < p.len() {
                        assert(!is_digit(body[k as int]));
                        assert(is_digit(body[k as int]));
                    }
                }
                assert(body.take(k as int).take(p.len() as int) =~= p);
                lemma_digits_value_monotone(body.take(k as int), p.len() as int);
                assert(p =~= p0);
                assert(digits_value(body.take(k as int)) > limit);
                assert(s@.len() > 0);
                assert(body.len() > 0);
                let sb = if s@[0] == '-' || s@[0] == '+' { s@.drop_first() } else { s@ };
                assert(sb == body);
                assert(neg == (s@[0] == '-'));
                let kk = digit_run(sb);
                assert(kk == k);
                assert(digits_value(sb.take(kk as int)) > limit);
                if neg {
                    assert(digits_value(sb.take(kk as int)) > 9223372036854775808);
                    assert(parse_int_spec(s@) == IntParse::NegOverflow);
                } else {
                    assert(parse_int_spec(s@) == IntParse::PosOverflow);
                }
            }
            return if neg { IntParse::NegOverflow } else { IntParse::PosOverflow };
        }
        assert(v * 10 + d <= limit) by (nonlinear_arith)
            requires v <= (limit - d) / 10, d <= 9, limit >= 9;
        proof {
            let p0 = s@.subrange(start as int, i + 1);
            assert(p0.last() == s@[i as int]);
            assert(p0.drop_last() =~= s@.subrange(start as int, i as int));
        }
        v = v * 10 + d;
        i = i + 1;
    }
    proof {
        let k = (i - start) as int;
        assert forall|j: int| 0 <= j < k implies is_digit(#[trigger] body[j]) by {
            assert(body[j] == s@[start + j]);
        }
        if i < s.len() {
            assert(body[k] == s@[i as int]);
        }
        lemma_digit_run_char(body, k);
        assert(body.take(k) =~= s@.subrange(start as int, i as int));
    }
    if i < s.len() {
        return IntParse::InvalidDigit;
    }
    if neg {
        if v == 9223372036854775808u64 {
            IntParse::Value(i64::MIN)
        } else {
            IntParse::Value(-(v as i64))
        }
    } else {
        IntParse::Value(v as i64)
    }
}

/// The message `ParseIntError`'s `Display` gives for each failure.
pub open spec fn parse_error_text(r: IntParse) -> Seq<char> {
    match r {
        IntParse::Empty => "cannot parse integer from empty string"@,
        IntParse::InvalidDigit => "invalid digit found in string"@,
        IntParse::PosOverflow => "number too large to fit in target type"@,
        IntParse::NegOverflow => "number too small to fit in target type"@,
        IntParse::Value(_) => Seq::empty(),
    }
}

pub fn parse_error_message(r: IntParse) -> (t: Vec<char>)
    ensures
        t@ == parse_error_text(r),
{
    match r {
        IntParse::Empty => lit("cannot parse integer from empty string"),
        IntParse::InvalidDigit => lit("invalid digit found in string"),
        IntParse::PosOverflow => lit("number too large to fit in target type"),
        IntParse::NegOverflow => lit("number too small to fit in target type"),
        IntParse::Value(_) => Vec::new(),
    }
}

} // verus!
