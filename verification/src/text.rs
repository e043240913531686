//! Small text utilities: decimal rendering and parsing of integers.

use vstd::prelude::*;

verus! {

/// The character of a decimal digit `d` (`0 <= d < 10`).
pub open spec fn digit_char(d: nat) -> char {
    (d + 48) as char
}

/// Whether `c` is one of the ASCII digits `0`..`9`.
pub open spec fn is_digit(c: char) -> bool {
    '0' <= c && c <= '9'
}

/// The decimal representation of `n`: most significant digit first,
/// no leading zeros, and `"0"` for zero.
pub open spec fn decimal_digits(n: nat) -> Seq<char>
    decreases n,
{
    if n < 10 {
        seq![digit_char(n)]
    } else {
        decimal_digits(n / 10).push(digit_char(n % 10))
    }
}

/// The decimal representation of a signed integer, with a leading `-` when negative.
pub open spec fn int_text(i: int) -> Seq<char> {
    if i < 0 {
        seq!['-'] + decimal_digits((-i) as nat)
    } else {
        decimal_digits(i as nat)
    }
}

/// Appends one character to a string (`String::push`).
#[verifier::external_body]
pub(crate) fn push_char(s: &mut String, c: char)
    ensures
        final(s)@ == old(s)@.push(c),
{
    s.push(c);
}

fn push_decimal(s: &mut String, n: u64)
    ensures
        final(s)@ == old(s)@ + decimal_digits(n as nat),
    decreases n,
{
    if n >= 10 {
        push_decimal(s, n / 10);
    }
    let d: u8 = (n % 10) as u8;
    let c: char = (48u8 + d) as char;
    push_char(s, c);
    assert(s@ =~= old(s)@ + decimal_digits(n as nat));
}

/// Renders an unsigned integer in decimal, as `to_string` does.
pub fn u64_text(n: u64) -> (r: String)
    ensures
        r@ == decimal_digits(n as nat),
{
    let mut s = String::new();
    push_decimal(&mut s, n);
    assert(s@ =~= decimal_digits(n as nat));
    s
}

/// Renders a signed 32-bit integer in decimal, as `to_string` does.
pub fn i32_text(n: i32) -> (r: String)
    ensures
        r@ == int_text(n as int),
{
    let mut s = String::new();
    if n < 0 {
        push_char(&mut s, '-');
        let m: i64 = n as i64;
        let a: u64 = (-m) as u64;
        push_decimal(&mut s, a);
    } else {
        push_decimal(&mut s, n as u64);
    }
    assert(s@ =~= int_text(n as int));
    s
}


/// The value of a string of decimal digits (most significant first).
pub open spec fn digits_value(s: Seq<char>) -> nat
    decreases s.len(),
{
    if s.len() == 0 {
        0
    } else {
        digits_value(s.drop_last()) * 10 + (s.last() as nat - 48) as nat
    }
}

/// Whether every character of `s` is a decimal digit.
pub open spec fn all_digits(s: Seq<char>) -> bool {
    forall|i: int| 0 <= i < s.len() ==> is_digit(#[trigger] s[i])
}

/// The part of `s` after an optional leading `+`.
pub open spec fn unsigned_body(s: Seq<char>) -> Seq<char> {
    if s.len() > 0 && s[0] == '+' {
        s.drop_first()
    } else {
        s
    }
}

/// What `str::parse::<u64>` gives back: an optional `+` sign followed by at
/// least one decimal digit and nothing else, whose value fits in 64 bits.
pub open spec fn u64_from_text(s: Seq<char>) -> Option<u64> {
    let body = unsigned_body(s);
    if body.len() > 0 && all_digits(body) && digits_value(body) <= u64::MAX {
        Some(digits_value(body) as u64)
    } else {
        None
    }
}

proof fn lemma_digits_value_prefix(s: Seq<char>, k: int)
    requires
        0 <= k <= s.len(),
        forall|i: int| 0 <= i < s.len() ==> is_digit(#[trigger] s[i]),
    ensures
        digits_value(s.take(k)) <= digits_value(s),
    decreases s.len(),
{
    if k < s.len() {
        let t = s.drop_last();
        assert(t.take(k) =~= s.take(k));
        assert forall|i: int| 0 <= i < t.len() implies is_digit(#[trigger] t[i]) by {
            assert(t[i] == s[i]);
        }
        lemma_digits_value_prefix(t, k);
    } else {
        assert(s.take(k) =~= s);
    }
}

/// Parses an unsigned 64-bit decimal number, as `str::parse::<u64>` does.
pub fn parse_u64(s: &str) -> (r: Option<u64>)
    ensures
        r == u64_from_text(s@),
{
    let len = s.unicode_len();
    let mut start: usize = 0;
    if len > 0 && s.get_char(0) == '+' {
        start = 1;
    }
    let ghost body = unsigned_body(s@);
    if start >= len {
        return None;
    }
    let mut acc: u64 = 0;
    let mut i: usize = start;
    while i < len
        invariant
            len == s@.len(),
            body == unsigned_body(s@),
            start <= i <= len,
            start == s@.len() - body.len(),
            forall|j: int| 0 <= j < body.len() ==> body[j] == s@[j + start],
            forall|j: int| 0 <= j < i - start ==> is_digit(#[trigger] body[j]),
            acc == digits_value(body.take(i - start)),
        decreases len - i,
    {
        let c = s.get_char(i);
        let ghost k: int = i - start;
        assert(body[k] == c);
        if c < '0' || c > '9' {
            assert(!is_digit(body[k]));
            assert(0 <= k < body.len());
            return None;
        }
        let d: u64 = (c as u32 - 48) as u64;
        assert(body.take(k + 1).drop_last() =~= body.take(k));
        assert(body.take(k + 1).last() == c);
        let m = acc.checked_mul(10);
        let next = match m {
            None => None,
            Some(m) => m.checked_add(d),
        };
        match next {
            None => {
                proof {
                    assert(acc * 10 + d > u64::MAX);
                    assert(digits_value(body.take(k + 1)) == acc * 10 + d);
                    if all_digits(body) {
                        lemma_digits_value_prefix(body, k + 1);
                        assert(digits_value(body) > u64::MAX);
                    }
                }
                return None;
            },
            Some(v) => {
                assert(digits_value(body.take(k + 1)) == acc * 10 + d);
                acc = v;
            },
        }
        i = i + 1;
    }
    assert(body.take(body.len() as int) =~= body);
    Some(acc)
}


/// Decimal law: the decimal text of `n` is a non-empty run of digits
/// without leading zero whose value is `n`, so that parsing it gives `n`
/// back.
pub proof fn lemma_decimal_digits_value(n: nat)
    ensures
        decimal_digits(n).len() > 0,
        all_digits(decimal_digits(n)),
        digits_value(decimal_digits(n)) == n,
        decimal_digits(n)[0] == '0' ==> n == 0,
        n <= u64::MAX ==> u64_from_text(decimal_digits(n)) == Some(n as u64),
    decreases n,
{
    let t = decimal_digits(n);
    if n < 10 {
        assert(t == seq![digit_char(n)]);
        assert(t.drop_last() =~= Seq::<char>::empty());
        assert(digit_char(n) as nat == n + 48);
        assert(digits_value(Seq::<char>::empty()) == 0);
        assert(t.last() == digit_char(n));
        assert(digits_value(t) == digits_value(t.drop_last()) * 10 + (t.last() as nat - 48) as nat);
    } else {
        lemma_decimal_digits_value(n / 10);
        let p = decimal_digits(n / 10);
        assert(t == p.push(digit_char(n % 10)));
        assert(t.drop_last() =~= p);
        assert(digit_char(n % 10) as nat == n % 10 + 48);
        assert(n / 10 * 10 + n % 10 == n) by (nonlinear_arith);
        assert(t.last() == digit_char(n % 10));
        assert(digits_value(t) == digits_value(p) * 10 + (t.last() as nat - 48) as nat);
        assert(t[0] == p[0]);
        assert forall|i: int| 0 <= i < t.len() implies is_digit(#[trigger] t[i]) by {
            if i < p.len() {
                assert(t[i] == p[i]);
            }
        }
    }
    assert(unsigned_body(t) == t);
}

} // verus!
