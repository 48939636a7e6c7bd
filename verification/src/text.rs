//! Verified decimal text: turning numbers into the digit strings that the
//! renderer positions on screen.

use vstd::prelude::*;

verus! {

/// The character of one decimal digit.
pub open spec fn digit_char(d: int) -> char {
    if d == 0 {
        '0'
    } else if d == 1 {
        '1'
    } else if d == 2 {
        '2'
    } else if d == 3 {
        '3'
    } else if d == 4 {
        '4'
    } else if d == 5 {
        '5'
    } else if d == 6 {
        '6'
    } else if d == 7 {
        '7'
    } else if d == 8 {
        '8'
    } else {
        '9'
    }
}

/// The decimal representation of a nonnegative number, most significant
/// digit first, without leading zeroes.
pub open spec fn dec_rep(n: int) -> Seq<char>
    decreases n,
{
    if n < 10 {
        seq![digit_char(n)]
    } else {
        dec_rep(n / 10).push(digit_char(n % 10))
    }
}

/// Relies on String::push: appends one character.
#[verifier::external_body]
pub fn push_char(s: &mut String, c: char)
    ensures
        final(s)@ == old(s)@.push(c),
{
    s.push(c);
}

/// Relies on String::push_str: appends the characters of `t`.
#[verifier::external_body]
pub fn push_text(s: &mut String, t: &str)
    ensures
        final(s)@ == old(s)@ + t@,
{
    s.push_str(t);
}

/// The character of one decimal digit.
pub fn digit_of(d: u32) -> (c: char)
    requires
        d < 10,
    ensures
        c == digit_char(d as int),
{
    match d {
        0 => '0',
        1 => '1',
        2 => '2',
        3 => '3',
        4 => '4',
        5 => '5',
        6 => '6',
        7 => '7',
        8 => '8',
        _ => '9',
    }
}

/// Append the decimal representation of `n`.
pub fn push_dec(s: &mut String, n: u32)
    ensures
        final(s)@ == old(s)@ + dec_rep(n as int),
    decreases n,
{
    if n >= 10 {
        push_dec(s, n / 10);
        let d = digit_of(n % 10);
        push_char(s, d);
        proof {
            assert(s@ =~= old(s)@ + dec_rep(n as int));
        }
    } else {
        let d = digit_of(n);
        push_char(s, d);
        proof {
            assert(s@ =~= old(s)@ + dec_rep(n as int));
        }
    }
}

/// The decimal representation of `n` as a string.
pub fn u32_to_dec(n: u32) -> (s: String)
    ensures
        s@ == dec_rep(n as int),
{
    let mut s = String::new();
    push_dec(&mut s, n);
    proof {
        assert(s@ =~= dec_rep(n as int));
    }
    s
}

/// The `k`-th power of ten, as a value.
fn pow10_u32(k: usize) -> (r: u32)
    requires
        k <= 9,
    ensures
        r as int == pow10(k as int),
{
    proof {
        lemma_pow10_values();
    }
    match k {
        0 => 1,
        1 => 10,
        2 => 100,
        3 => 1000,
        4 => 10000,
        5 => 100000,
        6 => 1000000,
        7 => 10000000,
        8 => 100000000,
        _ => 1000000000,
    }
}

/// The number of decimal digits of `n`.
pub fn dec_len(n: u32) -> (l: usize)
    ensures
        l == dec_rep(n as int).len(),
        1 <= l <= 10,
{
    proof {
        lemma_dec_digits_ge_one(n as int);
        lemma_dec_rep_len(n as int);
    }
    let mut l: usize = 1;
    while l < 10
        invariant_except_break
            1 <= l <= 10,
            dec_digits(n as int) >= l,
        ensures
            1 <= l <= 10,
            dec_digits(n as int) >= l,
            l < 10 ==> n < pow10(l as int),
        decreases 10 - l,
    {
        let b = pow10_u32(l);
        if n < b {
            break;
        }
        proof {
            lemma_dec_digits_grow(n as int, l as int);
        }
        l = l + 1;
    }
    proof {
        if l < 10 {
            lemma_dec_digits_small(n as int, l as int);
        } else {
            lemma_dec_digits_max(n as int);
        }
    }
    l
}

/// The `k`-th power of ten.
pub open spec fn pow10(k: int) -> int
    decreases k,
{
    if k <= 0 {
        1
    } else {
        10 * pow10(k - 1)
    }
}

/// The number of decimal digits of a nonnegative number.
pub open spec fn dec_digits(n: int) -> int
    decreases n,
{
    if n < 10 {
        1
    } else {
        1 + dec_digits(n / 10)
    }
}

/// The decimal representation has exactly `dec_digits` characters.
pub proof fn lemma_dec_rep_len(n: int)
    ensures
        dec_rep(n).len() == dec_digits(n),
    decreases n,
{
    if n >= 10 {
        lemma_dec_rep_len(n / 10);
    }
}

/// A number of at least `pow10(l)` has more than `l` digits.
proof fn lemma_dec_digits_grow(n: int, l: int)
    requires
        1 <= l,
        n >= pow10(l),
    ensures
        dec_digits(n) >= l + 1,
    decreases l,
{
    assert(pow10(l) >= 10) by {
        lemma_pow10_pos(l - 1);
    }
    if l > 1 {
        assert(n / 10 >= pow10(l - 1)) by {
            assert(n >= 10 * pow10(l - 1));
        }
        lemma_dec_digits_grow(n / 10, l - 1);
    } else {
        lemma_dec_digits_ge_one(n / 10);
    }
}

/// The first eleven powers of ten.
proof fn lemma_pow10_values()
    ensures
        pow10(0) == 1,
        pow10(1) == 10,
        pow10(2) == 100,
        pow10(3) == 1000,
        pow10(4) == 10000,
        pow10(5) == 100000,
        pow10(6) == 1000000,
        pow10(7) == 10000000,
        pow10(8) == 100000000,
        pow10(9) == 1000000000,
        pow10(10) == 10000000000,
{
    assert(pow10(0) == 1);
    assert(pow10(1) == 10);
    assert(pow10(2) == 100);
    assert(pow10(3) == 1000);
    assert(pow10(4) == 10000);
    assert(pow10(5) == 100000);
    assert(pow10(6) == 1000000);
    assert(pow10(7) == 10000000);
    assert(pow10(8) == 100000000);
    assert(pow10(9) == 1000000000);
    assert(pow10(10) == 10000000000);
}

proof fn lemma_pow10_pos(k: int)
    ensures
        pow10(k) >= 1,
    decreases k,
{
    if k > 0 {
        lemma_pow10_pos(k - 1);
    }
}

/// A number below `pow10(l)` has at most `l` digits.
proof fn lemma_dec_digits_small(n: int, l: int)
    requires
        1 <= l,
        0 <= n < pow10(l),
    ensures
        dec_digits(n) <= l,
    decreases l,
{
    if n >= 10 {
        assert(l >= 2) by {
            if l == 1 {
                assert(pow10(0) == 1);
                assert(pow10(1) == 10);
            }
        }
        assert(n / 10 < pow10(l - 1)) by {
            assert(pow10(l) == 10 * pow10(l - 1));
        }
        lemma_dec_digits_small(n / 10, l - 1);
    }
}

/// A `u32` value has at most ten digits.
proof fn lemma_dec_digits_max(n: int)
    requires
        0 <= n <= u32::MAX,
    ensures
        1 <= dec_digits(n) <= 10,
{
    lemma_pow10_values();
    lemma_dec_digits_small(n, 10);
    lemma_dec_digits_ge_one(n);
}

proof fn lemma_dec_digits_ge_one(n: int)
    ensures
        dec_digits(n) >= 1,
    decreases n,
{
    if n >= 10 {
        lemma_dec_digits_ge_one(n / 10);
    }
}

} // verus!
