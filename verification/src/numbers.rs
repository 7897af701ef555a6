use vstd::prelude::*;
use crate::text::{nat_decimal, int_decimal, digit_char};

verus! {

/// Why a text is not an `i32`, in the kinds that `str::parse::<i32>` reports.
#[derive(Clone, Copy, Debug, PartialEq, Eq, Structural)]
pub enum IntErrorKind {
    Empty,
    InvalidDigit,
    PosOverflow,
    NegOverflow,
}

pub open spec fn is_digit(c: char) -> bool {
    '0' <= c <= '9'
}

pub open spec fn digit_value(c: char) -> int {
    (c as int) - ('0' as int)
}

/// The number that a run of decimal digits writes.
pub open spec fn digits_value(s: Seq<char>) -> int
    decreases s.len(),
{
    if s.len() == 0 {
        0
    } else {
        digits_value(s.drop_last()) * 10 + digit_value(s.last())
    }
}

/// The position of the first character at or after `k` that is not a decimal digit
/// (the length of `s` if there is none).
pub open spec fn digits_end(s: Seq<char>, k: int) -> int
    decreases s.len() - k,
{
    if k < 0 || k >= s.len() || !is_digit(s[k]) {
        if k < 0 { 0 } else if k > s.len() { s.len() as int } else { k }
    } else {
        digits_end(s, k + 1)
    }
}

/// What `str::parse::<i32>` gives for a text: an optional sign, then decimal digits. The
/// digits are read from the left; the first one that makes the number leave the range of
/// `i32` is reported as an overflow, and the first character that is not a digit as an
/// invalid digit, whichever comes first.
pub open spec fn parse_i32(s: Seq<char>) -> Result<i32, IntErrorKind> {
    if s.len() == 0 {
        Err(IntErrorKind::Empty)
    } else {
        let neg = s[0] == '-';
        let start: int = if s[0] == '-' || s[0] == '+' { 1 } else { 0 };
        if start == s.len() {
            Err(IntErrorKind::InvalidDigit)
        } else {
            let end = digits_end(s, start);
            let v = digits_value(s.subrange(start, end));
            if !neg && v > i32::MAX {
                Err(IntErrorKind::PosOverflow)
            } else if neg && v > 0x8000_0000 {
                Err(IntErrorKind::NegOverflow)
            } else if end < s.len() {
                Err(IntErrorKind::InvalidDigit)
            } else if neg {
                Ok((-v) as i32)
            } else {
                Ok(v as i32)
            }
        }
    }
}

/// The message that std's `ParseIntError` displays for each kind.
pub open spec fn int_error_message(k: IntErrorKind) -> Seq<char> {
    match k {
        IntErrorKind::Empty => "cannot parse integer from empty string"@,
        IntErrorKind::InvalidDigit => "invalid digit found in string"@,
        IntErrorKind::PosOverflow => "number too large to fit in target type"@,
        IntErrorKind::NegOverflow => "number too small to fit in target type"@,
    }
}

proof fn lemma_digits_end_bounds(s: Seq<char>, k: int)
    requires
        0 <= k <= s.len(),
    ensures
        k <= digits_end(s, k) <= s.len(),
        forall|j: int| k <= j < digits_end(s, k) ==> is_digit(#[trigger] s[j]),
        digits_end(s, k) < s.len() ==> !is_digit(s[digits_end(s, k)]),
    decreases s.len() - k,
{
    if k < s.len() && is_digit(s[k]) {
        lemma_digits_end_bounds(s, k + 1);
    }
}

proof fn lemma_digits_value_push(s: Seq<char>, c: char)
    ensures
        digits_value(s.push(c)) == digits_value(s) * 10 + digit_value(c),
{
    assert(s.push(c).drop_last() =~= s);
}

proof fn lemma_digits_value_grows(s: Seq<char>, j: int)
    requires
        0 <= j <= s.len(),
        forall|i: int| 0 <= i < s.len() ==> is_digit(#[trigger] s[i]),
    ensures
        digits_value(s.take(j)) <= digits_value(s),
        0 <= digits_value(s.take(j)),
    decreases s.len(),
{
    if s.len() == 0 {
        assert(s.take(j) =~= s);
    } else if j == s.len() {
        assert(s.take(j) =~= s);
        lemma_digits_value_grows(s.drop_last(), 0);
    } else {
        let t = s.drop_last();
        assert(s.take(j) =~= t.take(j));
        lemma_digits_value_grows(t, j);
        lemma_digits_value_grows(t, 0);
    }
}

/// Parses a decimal `i32` as `str::parse::<i32>` does.
pub fn parse_i32_text(s: &str) -> (r: Result<i32, IntErrorKind>)
    ensures
        r == parse_i32(s@),
{
    let n = s.unicode_len();
    if n == 0 {
        return Err(IntErrorKind::Empty);
    }
    let first = s.get_char(0);
    let neg = first == '-';
    let start: usize = if first == '-' || first == '+' { 1 } else { 0 };
    if start == n {
        return Err(IntErrorKind::InvalidDigit);
    }
    let limit: i64 = if neg { 0x8000_0000 } else { 0x7fff_ffff };
    let mut v: i64 = 0;
    let mut i: usize = start;
    proof {
        lemma_digits_end_bounds(s@, start as int);
    }
    let ghost end = digits_end(s@, start as int);
    while i < n
        invariant
            n == s@.len(),
            start <= i <= n,
            start < n,
            limit == (if neg { 0x8000_0000int } else { 0x7fff_ffffint }),
            neg == (s@[0] == '-'),
            start == (if s@[0] == '-' || s@[0] == '+' { 1int } else { 0int }),
            end == digits_end(s@, start as int),
            start <= end <= n,
            forall|j: int| start <= j < end ==> is_digit(#[trigger] s@[j]),
            end < n ==> !is_digit(s@[end]),
            i <= end,
            v == digits_value(s@.subrange(start as int, i as int)),
            0 <= v <= limit,
        decreases n - i,
    {
        let c = s.get_char(i);
        if c < '0' || c > '9' {
            proof {
                assert(i == end);
            }
            return Err(IntErrorKind::InvalidDigit);
        }
        let d: i64 = (c as u32 - '0' as u32) as i64;
        proof {
            assert(i < end);
            assert(s@.subrange(start as int, i as int + 1) =~= s@.subrange(start as int, i as int).push(c));
            lemma_digits_value_push(s@.subrange(start as int, i as int), c);
        }
        v = v * 10 + d;
        i = i + 1;
        if v > limit {
            proof {
                let run = s@.subrange(start as int, end);
                assert forall|j: int| 0 <= j < run.len() implies is_digit(#[trigger] run[j]) by {
                    assert(run[j] == s@[start + j]);
                }
                assert(run.take(i - start) =~= s@.subrange(start as int, i as int));
                lemma_digits_value_grows(run, i - start);
            }
            if neg {
                return Err(IntErrorKind::NegOverflow);
            } else {
                return Err(IntErrorKind::PosOverflow);
            }
        }
    }
    proof {
        assert(i == end);
    }
    if neg {
        Ok((-v) as i32)
    } else {
        Ok(v as i32)
    }
}

proof fn lemma_digit_char_value(d: int)
    requires
        0 <= d < 10,
    ensures
        digit_value(digit_char(d)) == d,
        is_digit(digit_char(d)),
{
    let c = digit_char(d);
    assert(c as int == 48 + d);
}

/// `digits_value` undoes `nat_decimal`.
pub proof fn lemma_nat_decimal_value(n: nat)
    ensures
        digits_value(nat_decimal(n)) == n,
        nat_decimal(n).len() >= 1,
        forall|i: int| 0 <= i < nat_decimal(n).len() ==> is_digit(#[trigger] nat_decimal(n)[i]),
    decreases n,
{
    lemma_digit_char_value((n % 10) as int);
    if n < 10 {
        assert(nat_decimal(n) =~= seq![digit_char(n as int)]);
        assert(nat_decimal(n).drop_last() =~= Seq::<char>::empty());
        assert(digits_value(Seq::<char>::empty()) == 0);
        assert(n % 10 == n);
    } else {
        lemma_nat_decimal_value(n / 10);
        lemma_digits_value_push(nat_decimal(n / 10), digit_char((n % 10) as int));
        assert((n / 10) * 10 + n % 10 == n) by (nonlinear_arith);
    }
}

/// Parsing the decimal text of an `i32` gives the number back.
pub proof fn lemma_parse_int_decimal(n: i32)
    ensures
        parse_i32(int_decimal(n as int)) == Ok::<i32, IntErrorKind>(n),
{
    let s = int_decimal(n as int);
    if n < 0 {
        let m = (-(n as int)) as nat;
        lemma_nat_decimal_value(m);
        let body = nat_decimal(m);
        assert(s[0] == '-');
        lemma_digits_end_bounds(s, 1);
        assert(s.subrange(1, s.len() as int) =~= body);
        lemma_digits_end_full(s, 1);
    } else {
        let m = n as nat;
        lemma_nat_decimal_value(m);
        assert(s =~= nat_decimal(m));
        assert(is_digit(s[0]));
        lemma_digits_end_full(s, 0);
        assert(s.subrange(0, s.len() as int) =~= s);
    }
}

proof fn lemma_digits_end_full(s: Seq<char>, k: int)
    requires
        0 <= k <= s.len(),
        forall|j: int| k <= j < s.len() ==> is_digit(#[trigger] s[j]),
    ensures
        digits_end(s, k) == s.len(),
    decreases s.len() - k,
{
    if k < s.len() {
        lemma_digits_end_full(s, k + 1);
    }
}

} // verus!
