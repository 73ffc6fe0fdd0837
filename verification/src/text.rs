//! Decimal and hexadecimal rendering of integers, with exact contracts, so
//! that messages built from them can be specified character for character.
use vstd::prelude::*;
use vstd::string::*;

verus! {

/// The character of a single hexadecimal digit, lower case.
pub open spec fn digit_char(d: nat) -> char {
    if d == 0 { '0' } else if d == 1 { '1' } else if d == 2 { '2' } else if d == 3 { '3' }
    else if d == 4 { '4' } else if d == 5 { '5' } else if d == 6 { '6' } else if d == 7 { '7' }
    else if d == 8 { '8' } else if d == 9 { '9' } else if d == 10 { 'a' } else if d == 11 { 'b' }
    else if d == 12 { 'c' } else if d == 13 { 'd' } else if d == 14 { 'e' } else { 'f' }
}

/// `n` written in `base`, most significant digit first, without leading zeros.
pub open spec fn digits(n: nat, base: nat) -> Seq<char>
    decreases n,
{
    if base < 2 || n < base {
        seq![digit_char(n)]
    } else {
        proof {
            assert(n / base < n) by (nonlinear_arith)
                requires
                    2 <= base <= n,
            ;
        }
        digits(n / base, base).push(digit_char(n % base))
    }
}

/// `n` in decimal, as `{}` prints it.
pub open spec fn dec(n: nat) -> Seq<char> {
    digits(n, 10)
}

/// `n` in hexadecimal with the `0x` prefix, as `{:#x}` prints it.
pub open spec fn hex(n: nat) -> Seq<char> {
    "0x"@ + digits(n, 16)
}

/// The one-character string of a hexadecimal digit.
fn digit_str(d: u64) -> (s: &'static str)
    requires
        d < 16,
    ensures
        s@ == seq![digit_char(d as nat)],
{
    proof {
        reveal_strlit("0");
        reveal_strlit("1");
        reveal_strlit("2");
        reveal_strlit("3");
        reveal_strlit("4");
        reveal_strlit("5");
        reveal_strlit("6");
        reveal_strlit("7");
        reveal_strlit("8");
        reveal_strlit("9");
        reveal_strlit("a");
        reveal_strlit("b");
        reveal_strlit("c");
        reveal_strlit("d");
        reveal_strlit("e");
        reveal_strlit("f");
    }
    match d {
        0 => "0",
        1 => "1",
        2 => "2",
        3 => "3",
        4 => "4",
        5 => "5",
        6 => "6",
        7 => "7",
        8 => "8",
        9 => "9",
        10 => "a",
        11 => "b",
        12 => "c",
        13 => "d",
        14 => "e",
        _ => "f",
    }
}

/// Appends `n` in the given base.
fn push_digits(out: &mut String, n: u64, base: u64)
    requires
        2 <= base <= 16,
    ensures
        final(out)@ == old(out)@ + digits(n as nat, base as nat),
    decreases n,
{
    if n < base {
        out.append(digit_str(n));
    } else {
        assert(n / base < n) by (nonlinear_arith)
            requires
                2 <= base,
                n >= base,
        ;
        push_digits(out, n / base, base);
        out.append(digit_str(n % base));
    }
}

/// Appends `n` in decimal.
pub fn push_dec(out: &mut String, n: u64)
    ensures
        final(out)@ == old(out)@ + dec(n as nat),
{
    push_digits(out, n, 10);
}

/// A signed number in decimal, as `{}` prints it.
pub open spec fn signed_dec(n: int) -> Seq<char> {
    if n < 0 {
        "-"@ + dec((-n) as nat)
    } else {
        dec(n as nat)
    }
}

/// Appends a signed number in decimal.
pub fn push_signed(out: &mut String, n: i32)
    ensures
        final(out)@ == old(out)@ + signed_dec(n as int),
{
    if n < 0 {
        out.append("-");
        push_dec(out, (-(n as i64)) as u64);
    } else {
        push_dec(out, n as u64);
    }
}

/// Appends `n` as `0x` and its hexadecimal digits.
pub fn push_hex(out: &mut String, n: u64)
    ensures
        final(out)@ == old(out)@ + hex(n as nat),
{
    out.append("0x");
    push_digits(out, n, 16);
}

/// The value of a hexadecimal digit.
pub open spec fn char_value(c: char) -> int {
    if '0' <= c <= '9' {
        c as int - '0' as int
    } else {
        c as int - 'a' as int + 10
    }
}

/// The number that `s` spells in `base`.
pub open spec fn spelled(s: Seq<char>, base: nat) -> int
    decreases s.len(),
{
    if s.len() == 0 {
        0
    } else {
        spelled(s.drop_last(), base) * base + char_value(s.last())
    }
}

proof fn lemma_digit_char(d: nat)
    requires
        d < 16,
    ensures
        char_value(digit_char(d)) == d,
        digit_char(d) == '0' <==> d == 0,
{
}

/// A number that is written in some base is read back in that base: its digits
/// are below the base, and the first is zero for zero only.
pub proof fn law_digits_read_back(n: nat, base: nat)
    requires
        2 <= base <= 16,
    ensures
        spelled(digits(n, base), base) == n,
        digits(n, base).len() > 0,
        forall|i: int|
            0 <= i < digits(n, base).len() ==> 0 <= char_value(#[trigger] digits(n, base)[i])
                < base,
        digits(n, base)[0] == '0' <==> n == 0,
    decreases n,
{
    reveal_with_fuel(spelled, 2);
    if n < base {
        lemma_digit_char(n);
        assert(digits(n, base).drop_last() =~= Seq::<char>::empty());
    } else {
        assert(n / base < n && n / base > 0) by (nonlinear_arith)
            requires
                2 <= base <= n,
        ;
        law_digits_read_back(n / base, base);
        vstd::arithmetic::div_mod::lemma_fundamental_div_mod(n as int, base as int);
        lemma_digit_char(n % base);
        let p = digits(n / base, base);
        let s = digits(n, base);
        assert(s.drop_last() =~= p);
        assert(spelled(s, base) == (n / base) * base + n % base);
        assert((n / base) * base + n % base == n) by (nonlinear_arith)
            requires
                n as int == base as int * (n as int / base as int) + n as int % base as int,
        ;
        assert forall|i: int| 0 <= i < s.len() implies 0 <= char_value(#[trigger] s[i]) < base by {
            if i < p.len() {
                assert(s[i] == p[i]);
            }
        }
        assert(s[0] == p[0]);
    }
}

/// Decimal numbers are read back in base ten, and hexadecimal ones in base
/// sixteen behind `0x`; a minus sign is written exactly for negative numbers.
pub proof fn law_numbers_read_back(n: nat, i: int)
    ensures
        spelled(dec(n), 10) == n,
        hex(n).len() > 2 && hex(n)[0] == '0' && hex(n)[1] == 'x',
        spelled(hex(n).skip(2), 16) == n,
        i >= 0 ==> spelled(signed_dec(i), 10) == i,
        i < 0 ==> signed_dec(i)[0] == '-' && spelled(signed_dec(i).skip(1), 10) == -i,
{
    law_digits_read_back(n, 10);
    law_digits_read_back(n, 16);
    reveal_strlit("0x");
    reveal_strlit("-");
    assert(hex(n).skip(2) =~= digits(n, 16));
    if i >= 0 {
        law_digits_read_back(i as nat, 10);
    } else {
        law_digits_read_back((-i) as nat, 10);
        assert(signed_dec(i).skip(1) =~= dec((-i) as nat));
    }
}

} // verus!
