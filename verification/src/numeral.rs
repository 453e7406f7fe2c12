//! Decimal numerals: rendering a number as its sequence of decimal digit
//! characters, reading a digit string back, and the facts the rest of the
//! library needs about both (chiefly that rendering is injective).

use vstd::prelude::*;

verus! {

use vstd::string::StringExecFns;

/// The digit character for a value below ten.
pub open spec fn digit_char(d: nat) -> char {
    if d == 0 {
        '0'
    } else if d == 1 {
        '1'
    } else if d == 2 {
        '2'
    } else if d == 3 {
        '3'
    } else if d == 4 {
        '4'
    } else if d == 5 {
        '5'
    } else if d == 6 {
        '6'
    } else if d == 7 {
        '7'
    } else if d == 8 {
        '8'
    } else {
        '9'
    }
}

/// The decimal numeral of `n`, most significant digit first, with no sign
/// and no leading zero (a single `'0'` for zero).
pub open spec fn dec_chars(n: nat) -> Seq<char>
    decreases n,
{
    if n < 10 {
        seq![digit_char(n)]
    } else {
        dec_chars(n / 10).push(digit_char(n % 10))
    }
}

/// Whether `c` is a decimal digit character.
pub open spec fn is_digit(c: char) -> bool {
    48 <= c as u32 <= 57
}

/// The value of a digit character.
pub open spec fn digit_val(c: char) -> nat {
    (c as u32 - 48) as nat
}

/// Whether `s` is a non-empty string of decimal digits.
pub open spec fn is_digits(s: Seq<char>) -> bool {
    s.len() > 0 && forall|k: int| 0 <= k < s.len() ==> is_digit(s[k])
}

/// The value of a digit string, leading zeros allowed.
pub open spec fn digits_val(s: Seq<char>) -> nat
    decreases s.len(),
{
    if s.len() == 0 {
        0
    } else {
        digits_val(s.drop_last()) * 10 + digit_val(s.last())
    }
}

/// A prefix of a digit string never has a larger value than the whole.
pub proof fn lemma_digits_val_prefix(s: Seq<char>, k: int)
    requires
        0 <= k <= s.len(),
    ensures
        digits_val(s.subrange(0, k)) <= digits_val(s),
    decreases s.len() - k,
{
    if k < s.len() {
        lemma_digits_val_prefix(s, k + 1);
        let t = s.subrange(0, k + 1);
        assert(t.drop_last() =~= s.subrange(0, k));
        assert(digits_val(t) == digits_val(s.subrange(0, k)) * 10 + digit_val(t.last()));
    } else {
        assert(s.subrange(0, k) =~= s);
    }
}

/// A decimal numeral is never empty.
pub proof fn lemma_dec_chars_len(n: nat)
    ensures
        dec_chars(n).len() >= 1,
        n >= 10 ==> dec_chars(n).len() >= 2,
    decreases n,
{
    if n >= 10 {
        lemma_dec_chars_len(n / 10);
    }
}

/// Every character of a decimal numeral is a digit.
pub proof fn lemma_dec_chars_digits(n: nat)
    ensures
        forall|k: int| 0 <= k < dec_chars(n).len() ==> is_digit(dec_chars(n)[k]),
    decreases n,
{
    assert(forall|d: nat| is_digit(#[trigger] digit_char(d)));
    if n >= 10 {
        lemma_dec_chars_digits(n / 10);
        assert(forall|k: int|
            0 <= k < dec_chars(n).len() - 1 ==> dec_chars(n)[k] == dec_chars(n / 10)[k]);
        assert(dec_chars(n).last() == digit_char(n % 10));
    } else {
        assert(dec_chars(n)[0] == digit_char(n));
    }
}

/// Two distinct numbers have distinct decimal numerals.
pub proof fn lemma_dec_chars_injective(m: nat, n: nat)
    requires
        dec_chars(m) == dec_chars(n),
    ensures
        m == n,
    decreases m + n,
{
    if m < 10 && n < 10 {
        assert(dec_chars(m)[0] == digit_char(m));
        assert(dec_chars(n)[0] == digit_char(n));
    } else if m < 10 {
        lemma_dec_chars_len(n);
        assert(dec_chars(m).len() == 1);
    } else if n < 10 {
        lemma_dec_chars_len(m);
        assert(dec_chars(n).len() == 1);
    } else {
        assert(dec_chars(m).drop_last() =~= dec_chars(m / 10));
        assert(dec_chars(n).drop_last() =~= dec_chars(n / 10));
        assert(dec_chars(m).last() == digit_char(m % 10));
        assert(dec_chars(n).last() == digit_char(n % 10));
        lemma_dec_chars_injective(m / 10, n / 10);
        assert(m % 10 == n % 10);
        assert(m == (m / 10) * 10 + m % 10) by (nonlinear_arith);
        assert(n == (n / 10) * 10 + n % 10) by (nonlinear_arith);
    }
}

/// Appends the decimal numeral of `n` to `s`.
pub fn push_dec_u64(s: &mut String, n: u64)
    ensures
        final(s)@ == old(s)@ + dec_chars(n as nat),
    decreases n,
{
    if n >= 10 {
        push_dec_u64(s, n / 10);
    }
    let d = n % 10;
    proof {
        reveal_strlit("0");
        reveal_strlit("1");
        reveal_strlit("2");
        reveal_strlit("3");
        reveal_strlit("4");
        reveal_strlit("5");
        reveal_strlit("6");
        reveal_strlit("7");
        reveal_strlit("8");
        reveal_strlit("9");
    }
    if d == 0 {
        s.append("0");
    } else if d == 1 {
        s.append("1");
    } else if d == 2 {
        s.append("2");
    } else if d == 3 {
        s.append("3");
    } else if d == 4 {
        s.append("4");
    } else if d == 5 {
        s.append("5");
    } else if d == 6 {
        s.append("6");
    } else if d == 7 {
        s.append("7");
    } else if d == 8 {
        s.append("8");
    } else {
        s.append("9");
    }
    proof {
        assert(s@ =~= old(s)@ + dec_chars(n as nat));
    }
}

/// Appends the decimal numeral of `n` to `s`.
pub fn push_dec_usize(s: &mut String, n: usize)
    ensures
        final(s)@ == old(s)@ + dec_chars(n as nat),
{
    push_dec_u64(s, n as u64);
}

/// Appends the decimal numeral of `n` to `s`.
pub fn push_dec_u16(s: &mut String, n: u16)
    ensures
        final(s)@ == old(s)@ + dec_chars(n as nat),
{
    push_dec_u64(s, n as u64);
}

} // verus!
