//! Decimal numerals: the canonical digits of a number and the value of a
//! string of digits.
use crate::text::{free_of, push_char};
use vstd::prelude::*;

verus! {

pub open spec fn is_digit(c: char) -> bool {
    '0' <= c && c <= '9'
}

pub open spec fn all_digits(s: Seq<char>) -> bool {
    forall|i: int| 0 <= i < s.len() ==> is_digit(#[trigger] s[i])
}

/// The character of the digit `d` (below ten).
pub open spec fn digit_char(d: nat) -> char {
    ((d + 48) as u32) as char
}

pub open spec fn digit_value(c: char) -> nat {
    ((c as u32) - 48) as nat
}

/// The number that a string of digits stands for.
pub open spec fn value(s: Seq<char>) -> nat
    decreases s.len(),
{
    if s.len() == 0 {
        0
    } else {
        value(s.drop_last()) * 10 + digit_value(s.last())
    }
}

/// The shortest decimal numeral of `n`.
pub open spec fn dec(n: nat) -> Seq<char>
    decreases n,
{
    if n < 10 {
        seq![digit_char(n)]
    } else {
        dec(n / 10).push(digit_char(n % 10))
    }
}

pub open spec fn pow10(k: nat) -> nat
    decreases k,
{
    if k == 0 {
        1
    } else {
        10 * pow10((k - 1) as nat)
    }
}

proof fn lemma_digit_char(d: nat)
    requires
        d < 10,
    ensures
        is_digit(digit_char(d)),
        digit_value(digit_char(d)) == d,
        digit_char(d) == '0' <==> d == 0,
{
}

/// The canonical numeral is made of digits, reads back as `n`, has no
/// leading zero, and is short when `n` is small.
pub proof fn lemma_dec(n: nat)
    ensures
        dec(n).len() >= 1,
        all_digits(dec(n)),
        value(dec(n)) == n,
        n > 0 ==> dec(n)[0] != '0',
        dec(n).len() > 1 ==> dec(n)[0] != '0',
        forall|k: nat| n < #[trigger] pow10(k) && k >= 1 ==> dec(n).len() <= k,
    decreases n,
{
    if n < 10 {
        lemma_digit_char(n);
        assert(dec(n).drop_last() =~= Seq::<char>::empty());
        assert(value(Seq::<char>::empty()) == 0);
        assert(value(dec(n)) == n);
        assert forall|k: nat| n < #[trigger] pow10(k) && k >= 1 implies dec(n).len() <= k by {}
    } else {
        let m = n / 10;
        lemma_dec(m);
        lemma_digit_char(n % 10);
        let d = dec(n);
        assert(d.drop_last() == dec(m));
        assert(d[0] == dec(m)[0]);
        assert(n == m * 10 + n % 10);
        assert(value(d) == value(dec(m)) * 10 + digit_value(d.last()));
        assert forall|i: int| 0 <= i < d.len() implies is_digit(#[trigger] d[i]) by {
            if i < d.len() - 1 {
                assert(d[i] == dec(m)[i]);
            }
        }
        assert forall|k: nat| n < #[trigger] pow10(k) && k >= 1 implies d.len() <= k by {
            let j = (k - 1) as nat;
            assert(pow10(k) == 10 * pow10(j));
            if j == 0 {
                assert(pow10(0) == 1);
            } else {
                assert(m < pow10(j));
            }
        }
    }
}

/// Digits hold no other character.
pub proof fn lemma_digits_free(s: Seq<char>, c: char)
    requires
        all_digits(s),
        !is_digit(c),
    ensures
        free_of(s, c),
{
    assert forall|i: int| 0 <= i < s.len() implies s[i] != c by {
        assert(is_digit(s[i]));
    }
}

/// The value of `s`, when it is one to `max_len` digits.
pub fn parse_digits(s: &Vec<char>, max_len: usize) -> (r: Option<u32>)
    requires
        max_len <= 5,
    ensures
        r == (if 1 <= s@.len() <= max_len && all_digits(s@) {
            Some(value(s@) as u32)
        } else {
            None::<u32>
        }),
        r matches Some(n) ==> n as nat == value(s@),
{
    if s.len() == 0 || s.len() > max_len {
        return None;
    }
    let mut acc: u32 = 0;
    let mut i: usize = 0;
    while i < s.len()
        invariant
            1 <= s.len() <= max_len <= 5,
            i <= s.len(),
            all_digits(s@.take(i as int)),
            acc == value(s@.take(i as int)),
            acc < pow10(i as nat),
        decreases s.len() - i,
    {
        let c = s[i];
        let ghost t = s@.take(i as int + 1);
        assert(t.drop_last() == s@.take(i as int));
        if !('0' <= c && c <= '9') {
            assert(!all_digits(s@)) by {
                assert(!is_digit(s@[i as int]));
            }
            return None;
        }
        assert(pow10(i as nat + 1) == 10 * pow10(i as nat));
        assert(pow10(i as nat + 1) <= 100000) by {
            reveal_with_fuel(pow10, 6);
        }
        acc = acc * 10 + ((c as u32) - 48);
        assert forall|j: int| 0 <= j < t.len() implies is_digit(#[trigger] t[j]) by {
            if j < i {
                assert(t[j] == s@.take(i as int)[j]);
            }
        }
        i = i + 1;
    }
    assert(s@.take(s.len() as int) == s@);
    Some(acc)
}

/// Appends the canonical numeral of `n`.
pub fn push_decimal(out: &mut String, n: u32)
    ensures
        final(out)@ == old(out)@ + dec(n as nat),
    decreases n,
{
    if n >= 10 {
        push_decimal(out, n / 10);
    }
    let d = n % 10;
    push_char(out, ((d + 48) as u8) as char);
    assert(out@ == old(out)@ + dec(n as nat));
}

} // verus!
