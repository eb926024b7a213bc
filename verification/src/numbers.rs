//! Decimal text of counts such as chain lengths: writing a `usize` as
//! `to_string` does and reading one back as `str::parse::<usize>` does.
use vstd::prelude::*;
use crate::text::{string_from, to_chars};

verus! {

/// The digit character of `d`.
pub open spec fn digit_char(d: nat) -> char {
    (d + 48) as char
}

/// Whether `c` is an ASCII decimal digit.
pub open spec fn is_digit(c: char) -> bool {
    '0' <= c && c <= '9'
}

/// The value of a digit character.
pub open spec fn digit_value(c: char) -> nat {
    (c as nat - 48) as nat
}

/// The value of a string of digits.
pub open spec fn digits_value(s: Seq<char>) -> nat
    decreases s.len(),
{
    if s.len() == 0 {
        0
    } else {
        digits_value(s.drop_last()) * 10 + digit_value(s.last())
    }
}

/// The decimal text of `n` without leading zeros.
pub open spec fn decimal(n: nat) -> Seq<char>
    decreases n,
{
    if n < 10 {
        seq![digit_char(n)]
    } else {
        decimal(n / 10).push(digit_char(n % 10))
    }
}

/// The digits that `parse::<usize>` reads: the text after an optional `+`.
pub open spec fn unsigned_digits(s: Seq<char>) -> Seq<char> {
    if s.len() > 0 && s[0] == '+' {
        s.skip(1)
    } else {
        s
    }
}

/// The result of `str::parse::<usize>`: an optional `+` followed by at least
/// one ASCII digit, all of them digits, with a value that fits in `usize`.
pub open spec fn parse_usize_spec(s: Seq<char>) -> Option<nat> {
    let d = unsigned_digits(s);
    if d.len() > 0 && (forall|i: int| 0 <= i < d.len() ==> is_digit(#[trigger] d[i]))
        && digits_value(d) <= usize::MAX {
        Some(digits_value(d))
    } else {
        None
    }
}

proof fn lemma_digits_value_prefix(s: Seq<char>, i: int)
    requires
        0 <= i <= s.len(),
    ensures
        digits_value(s.take(i)) <= digits_value(s),
    decreases s.len() - i,
{
    if i < s.len() {
        lemma_digits_value_prefix(s, i + 1);
        assert(s.take(i + 1).drop_last() =~= s.take(i));
    } else {
        assert(s.take(i) =~= s);
    }
}

/// Reads a count as `str::parse::<usize>` does.
pub fn parse_usize(s: &str) -> (r: Option<usize>)
    ensures
        match r {
            Some(v) => parse_usize_spec(s@) == Some(v as nat),
            None => parse_usize_spec(s@) is None,
        },
{
    let chars = to_chars(s);
    let start: usize = if chars.len() > 0 && chars[0] == '+' {
        1
    } else {
        0
    };
    let ghost d = unsigned_digits(s@);
    assert(d =~= chars@.skip(start as int));
    if start >= chars.len() {
        return None;
    }
    let mut value: usize = 0;
    let mut i: usize = start;
    while i < chars.len()
        invariant
            start <= i <= chars.len(),
            chars@ == s@,
            d == chars@.skip(start as int),
            d == unsigned_digits(s@),
            forall|j: int| 0 <= j < i - start ==> is_digit(#[trigger] d[j]),
            value as nat == digits_value(d.take(i - start)),
        decreases chars.len() - i,
    {
        let c = chars[i];
        assert(d[i - start] == c);
        if c < '0' || c > '9' {
            assert(!is_digit(d[i - start]));
            assert(0 <= i - start < d.len());
            assert(!(forall|j: int| 0 <= j < d.len() ==> is_digit(#[trigger] d[j])));
            assert(d == unsigned_digits(s@));
            assert(parse_usize_spec(s@) is None);
            return None;
        }
        let digit = (c as u32 - 48) as usize;
        assert(digit_value(c) == digit);
        proof {
            assert(d.take(i - start + 1).drop_last() =~= d.take(i - start));
        }
        match value.checked_mul(10) {
            Some(tens) => match tens.checked_add(digit) {
                Some(next) => {
                    value = next;
                },
                None => {
                    proof {
                        lemma_digits_value_prefix(d, i - start + 1);
                        assert(digits_value(d.take(i - start + 1)) == value * 10 + digit);
                    }
                    return None;
                },
            },
            None => {
                proof {
                    lemma_digits_value_prefix(d, i - start + 1);
                    assert(digits_value(d.take(i - start + 1)) >= value * 10);
                }
                return None;
            },
        }
        i += 1;
    }
    proof {
        assert(d.take(d.len() as int) =~= d);
    }
    Some(value)
}

/// The digit character of a value below ten.
fn digit_of(d: usize) -> (c: char)
    requires
        d < 10,
    ensures
        c == digit_char(d as nat),
{
    if d == 0 {
        '0'
    } else if d == 1 {
        '1'
    } else if d == 2 {
        '2'
    } else if d == 3 {
        '3'
    } else if d == 4 {
        '4'
    } else if d == 5 {
        '5'
    } else if d == 6 {
        '6'
    } else if d == 7 {
        '7'
    } else if d == 8 {
        '8'
    } else {
        '9'
    }
}

/// The decimal text of a count, as `to_string` writes it.
pub fn decimal_text(n: usize) -> (s: String)
    ensures
        s@ == decimal(n as nat),
{
    let mut reversed: Vec<char> = Vec::new();
    let mut rest: usize = n;
    proof {
        assert(decimal(n as nat) =~= decimal(rest as nat) + reversed@.reverse());
    }
    while rest >= 10
        invariant
            decimal(n as nat) == decimal(rest as nat) + reversed@.reverse(),
        decreases rest,
    {
        let ghost before = reversed@;
        reversed.push(digit_of(rest % 10));
        proof {
            assert(reversed@.reverse() =~= seq![digit_char((rest % 10) as nat)] + before.reverse());
            assert(decimal(rest as nat) == decimal((rest / 10) as nat).push(digit_char((rest % 10) as nat)));
            assert(decimal(rest as nat) + before.reverse() =~= decimal((rest / 10) as nat) + reversed@.reverse());
        }
        rest = rest / 10;
    }
    reversed.push(digit_of(rest));
    let mut out: Vec<char> = Vec::new();
    let mut k: usize = reversed.len();
    while k > 0
        invariant
            k <= reversed@.len(),
            out@ == reversed@.reverse().take(reversed@.len() - k),
        decreases k,
    {
        k -= 1;
        out.push(reversed[k]);
        proof {
            assert(out@ =~= reversed@.reverse().take(reversed@.len() - k));
        }
    }
    proof {
        assert(out@ =~= reversed@.reverse());
        assert(reversed@.reverse() =~= decimal(n as nat));
    }
    string_from(&out)
}

proof fn lemma_decimal_digits(n: nat)
    ensures
        decimal(n).len() > 0,
        forall|i: int| 0 <= i < decimal(n).len() ==> is_digit(#[trigger] decimal(n)[i]),
        decimal(n)[0] != '+',
        digits_value(decimal(n)) == n,
    decreases n,
{
    if n < 10 {
        assert(digit_value(digit_char(n)) == n);
        assert(decimal(n).drop_last() =~= Seq::<char>::empty());
        assert(digits_value(decimal(n)) == digits_value(Seq::<char>::empty()) * 10 + digit_value(digit_char(n)));
        assert(digits_value(decimal(n)) == n);
    }
    if n >= 10 {
        lemma_decimal_digits(n / 10);
        let d = decimal(n);
        assert(d.drop_last() =~= decimal(n / 10));
        let r = n % 10;
        assert(digit_value(digit_char(r)) == r);
        assert(n == (n / 10) * 10 + r);
        assert(d == decimal(n / 10).push(digit_char(r)));
        assert(d.last() == digit_char(r));
        assert(digits_value(d) == digits_value(d.drop_last()) * 10 + digit_value(d.last()));
        assert(digits_value(d.drop_last()) == n / 10);
        assert(digits_value(d) == n);
        assert forall|i: int| 0 <= i < d.len() implies is_digit(#[trigger] d[i]) by {
            if i < d.len() - 1 {
                assert(d[i] == decimal(n / 10)[i]);
            }
        }
    }
}

/// A count written as decimal text reads back as the same count.
pub proof fn decimal_reads_back(n: usize)
    ensures
        parse_usize_spec(decimal(n as nat)) == Some(n as nat),
{
    lemma_decimal_digits(n as nat);
}

} // verus!
