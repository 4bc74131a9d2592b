//! Numbers out of text.
use vstd::prelude::*;

use crate::text::{chars_of, decimal, digit, text_of};

verus! {

/// The value of a row of decimal digits.
pub open spec fn digits_value(s: Seq<char>) -> nat
    decreases s.len(),
{
    if s.len() == 0 {
        0
    } else {
        10 * digits_value(s.drop_last()) + (s.last() as nat - '0' as nat) as nat
    }
}

/// Whether nothing but decimal digits is in a text.
pub open spec fn all_decimal(s: Seq<char>) -> bool {
    forall|i: int| 0 <= i < s.len() ==> '0' <= #[trigger] s[i] <= '9'
}

/// A text without a plus sign before it.
pub open spec fn without_plus(s: Seq<char>) -> Seq<char> {
    if s.len() > 0 && s[0] == '+' {
        s.drop_first()
    } else {
        s
    }
}

/// The number that a text stands for, if it is one and no greater than `max`: an
/// optional plus sign, then digits.
pub open spec fn number_in(s: Seq<char>, max: nat) -> Option<nat> {
    let t = without_plus(s);
    if t.len() > 0 && all_decimal(t) && digits_value(t) <= max {
        Some(digits_value(t))
    } else {
        None
    }
}

proof fn lemma_value_grows(s: Seq<char>, n: int)
    requires
        0 <= n <= s.len(),
    ensures
        digits_value(s.take(n)) <= digits_value(s),
    decreases s.len(),
{
    if n == s.len() {
        assert(s.take(n) =~= s);
    } else {
        lemma_value_grows(s.drop_last(), n);
        assert(s.drop_last().take(n) =~= s.take(n));
    }
}

/// Reads a number no greater than `max`.
pub fn parse_number(s: &str, max: u64) -> (r: Option<u64>)
    ensures
        match r {
            Some(n) => number_in(s@, max as nat) == Some(n as nat),
            None => number_in(s@, max as nat) is None,
        },
{
    let cs = chars_of(s);
    let len: usize = cs.len();
    let from: usize = if len > 0 && cs[0] == '+' {
        1
    } else {
        0
    };
    let ghost t = without_plus(s@);
    assert(t =~= cs@.skip(from as int));
    if from == len {
        return None;
    }
    let mut value: u64 = 0;
    let mut i: usize = from;
    assert(t.take(0) =~= Seq::<char>::empty());
    while i < len
        invariant
            from <= i <= len == cs@.len(),
            t == without_plus(s@),
            t == cs@.skip(from as int),
            forall|k: int| 0 <= k < i - from ==> '0' <= #[trigger] t[k] <= '9',
            value == digits_value(t.take(i - from)),
            value <= max,
        decreases len - i,
    {
        let c = cs[i];
        assert(t[i - from] == c);
        if !('0' <= c && c <= '9') {
            return None;
        }
        assert(t.take(i - from + 1).drop_last() =~= t.take(i - from));
        let next: u128 = value as u128 * 10 + (c as u32 - 0x30) as u128;
        assert(next == digits_value(t.take(i - from + 1)));
        if next > max as u128 {
            proof {
                lemma_value_grows(t, i - from + 1);
            }
            return None;
        }
        value = next as u64;
        i += 1;
    }
    assert(t.take(len - from) =~= t);
    Some(value)
}

/// The integer that a text stands for, if it is one that an `i64` can hold: an
/// optional sign, then digits.
pub open spec fn integer_in(s: Seq<char>) -> Option<int> {
    if s.len() > 0 && s[0] == '-' {
        let t = s.drop_first();
        if t.len() > 0 && all_decimal(t) && digits_value(t) <= 0x8000_0000_0000_0000 {
            Some(-(digits_value(t) as int))
        } else {
            None
        }
    } else {
        match number_in(s, 0x7fff_ffff_ffff_ffff) {
            Some(n) => Some(n as int),
            None => None,
        }
    }
}

/// Reads an integer.
pub fn parse_integer(s: &str) -> (r: Option<i64>)
    ensures
        match r {
            Some(i) => integer_in(s@) == Some(i as int),
            None => integer_in(s@) is None,
        },
{
    let cs = chars_of(s);
    if cs.len() > 0 && cs[0] == '-' {
        let digits = text_of(&cs, 1, cs.len());
        assert(digits@ =~= s@.drop_first());
        if cs.len() > 1 && cs[1] == '+' {
            assert(digits@[0] == '+');
            return None;
        }
        assert(without_plus(digits@) == digits@);
        match parse_number(digits.as_str(), 0x8000_0000_0000_0000) {
            Some(n) => Some((0 - n as i128) as i64),
            None => None,
        }
    } else {
        match parse_number(s, 0x7fff_ffff_ffff_ffff) {
            Some(n) => Some(n as i64),
            None => None,
        }
    }
}

/// What is written in decimal is a row of digits with the value of the number.
pub proof fn lemma_decimal_value(n: nat)
    ensures
        decimal(n).len() > 0,
        all_decimal(decimal(n)),
        digits_value(decimal(n)) == n,
    decreases n,
{
    if n < 10 {
        let d = decimal(n);
        assert(d[0] == digit(n as int));
        assert(d.drop_last() =~= Seq::<char>::empty());
        reveal_with_fuel(digits_value, 2);
    } else {
        lemma_decimal_value(n / 10);
        let front = decimal(n / 10);
        let d = decimal(n);
        assert(d == front.push(digit((n % 10) as int)));
        assert(d.drop_last() =~= front);
        assert forall|i: int| 0 <= i < d.len() implies '0' <= #[trigger] d[i] <= '9' by {
            if i < front.len() {
                assert(d[i] == front[i]);
            }
        }
    }
}

/// A number that was written in decimal is read back.
pub proof fn law_decimal_is_read_back(n: nat, max: nat)
    requires
        n <= max,
    ensures
        number_in(decimal(n), max) == Some(n),
{
    lemma_decimal_value(n);
    let d = decimal(n);
    assert('0' <= d[0] <= '9');
}

/// A sign before a number is read, and nothing that is too great is.
pub proof fn law_signed_numbers(n: nat, max: nat)
    ensures
        n <= max ==> number_in(seq!['+'] + decimal(n), max) == Some(n),
        n > max ==> number_in(decimal(n), max) is None,
        n <= 0x7fff_ffff_ffff_ffff ==> integer_in(decimal(n)) == Some(n as int) && integer_in(
            seq!['+'] + decimal(n),
        ) == Some(n as int),
        n <= 0x8000_0000_0000_0000 ==> integer_in(seq!['-'] + decimal(n)) == Some(-(n as int)),
        n > 0x8000_0000_0000_0000 ==> integer_in(decimal(n)) is None && integer_in(
            seq!['-'] + decimal(n),
        ) is None,
{
    lemma_decimal_value(n);
    let d = decimal(n);
    assert('0' <= d[0] <= '9');
    assert((seq!['+'] + d).drop_first() =~= d);
    assert((seq!['-'] + d).drop_first() =~= d);
}

/// Whatever is read as a number is made of digits, but for a sign before them.
pub proof fn law_only_digits_are_read(s: Seq<char>, max: nat)
    ensures
        number_in(s, max) is Some || integer_in(s) is Some ==> s.len() > 0 && forall|i: int|
            0 < i < s.len() ==> '0' <= #[trigger] s[i] <= '9',
{
    if number_in(s, max) is Some || integer_in(s) is Some {
        assert forall|i: int| 0 < i < s.len() implies '0' <= #[trigger] s[i] <= '9' by {
            if s[0] == '+' || s[0] == '-' {
                assert(s.drop_first()[i - 1] == s[i]);
            }
        }
    }
}

} // verus!
