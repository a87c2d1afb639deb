//! Console output: the text of what is printed.  The functions compute
//! the characters; sending them to the UART is left to the caller.

use vstd::prelude::*;

verus! {

/// The hexadecimal digit (upper case, as a character code) of a value
/// below 16.
pub open spec fn hex_digit(nibble: u64) -> u8 {
    if nibble < 10 {
        (0x30 + nibble) as u8
    } else {
        (0x41 + nibble - 10) as u8
    }
}

/// The `i`-th of the sixteen hexadecimal digits of `val`, the most
/// significant first.
pub open spec fn hex_digit_at(val: u64, i: int) -> u8 {
    hex_digit((val >> (((15 - i) * 4) as u64)) & 0xF)
}

/// The hexadecimal digit of a value below 16.
pub fn hex_char(nibble: u64) -> (c: u8)
    requires
        nibble < 16,
    ensures
        c == hex_digit(nibble),
{
    if nibble < 10 {
        0x30 + nibble as u8
    } else {
        0x41 + (nibble - 10) as u8
    }
}

/// The text of a u64 value printed in hexadecimal: sixteen digits, the
/// most significant first.
pub fn uart_print_hex(val: u64) -> (text: [u8; 16])
    ensures
        forall|i: int| 0 <= i < 16 ==> text[i] == hex_digit_at(val, i),
{
    let mut text = [0u8;16];
    let mut i: usize = 0;
    while i < 16
        invariant
            i <= 16,
            forall|j: int| 0 <= j < i ==> text[j] == hex_digit_at(val, j),
        decreases 16 - i,
    {
        let shift = ((15 - i) * 4) as u64;
        let nibble = (val >> shift) & 0xF;
        assert((val >> shift) & 0xF < 16) by (bit_vector);
        text[i] = hex_char(nibble);
        i += 1;
    }
    text
}

/// Ten to the power `e`.
pub open spec fn pow10(e: nat) -> nat
    decreases e,
{
    if e == 0 {
        1
    } else {
        10 * pow10((e - 1) as nat)
    }
}

/// Number of decimal digits of `val`; zero has one.
pub open spec fn dec_len(val: nat) -> nat
    decreases val,
{
    if val < 10 {
        1
    } else {
        1 + dec_len(val / 10)
    }
}

/// The `i`-th decimal digit of `val` (as a character code), counted
/// from the least significant.
pub open spec fn dec_digit_from_right(val: nat, i: nat) -> u8 {
    (0x30 + (val / pow10(i)) % 10) as u8
}

/// The text of a u32 value printed in decimal.  Returns a buffer and
/// the number `n` of digits; the digits are the first `n` bytes of the
/// buffer, the most significant first.
pub fn uart_print_dec(val: u32) -> (r: ([u8; 10], usize))
    ensures
        r.1 == dec_len(val as nat),
        1 <= r.1 <= 10,
        forall|i: int|
            0 <= i < r.1 ==> r.0[i] == dec_digit_from_right(val as nat, (r.1 - 1 - i) as nat),
{
    // digits from the least significant
    let mut rev = [0u8;10];
    let mut n: usize = 0;
    let mut v = val;
    proof {
        reveal_with_fuel(pow10, 11);
        assert(pow10(10) == 10_000_000_000);
        assert(pow10(0) == 1);
    }
    loop
        invariant_except_break
            n < 10,
            v == val as nat / pow10(n as nat),
            dec_len(val as nat) == n + dec_len(v as nat),
            v < pow10((10 - n) as nat),
            forall|j: int| 0 <= j < n ==> rev[j] == dec_digit_from_right(val as nat, j as nat),
        ensures
            1 <= n <= 10,
            n == dec_len(val as nat),
            forall|j: int| 0 <= j < n ==> rev[j] == dec_digit_from_right(val as nat, j as nat),
        decreases 10 - n,
    {
        rev[n] = 0x30 + (v % 10) as u8;
        proof {
            lemma_pow10_div(val as nat, n as nat, (10 - n) as nat);
            reveal_with_fuel(pow10, 2);
            assert(pow10(1) == 10);
        }
        n += 1;
        if v < 10 {
            break ;
        }
        v = v / 10;
    }
    let mut text = [0u8;10];
    let mut i: usize = 0;
    while i < n
        invariant
            i <= n <= 10,
            forall|j: int| 0 <= j < n ==> rev[j] == dec_digit_from_right(val as nat, j as nat),
            forall|j: int|
                0 <= j < i ==> text[j] == dec_digit_from_right(val as nat, (n - 1 - j) as nat),
        decreases n - i,
    {
        text[i] = rev[n - 1 - i];
        i += 1;
    }
    (text, n)
}

/// Dividing by ten once more is dividing by the next power of ten, and
/// keeps the quotient below the power of ten that bounds it.
pub proof fn lemma_pow10_div(val: nat, n: nat, e: nat)
    requires
        e >= 1,
    ensures
        (val / pow10(n)) / 10 == val / pow10(n + 1),
        pow10(n) > 0,
        val / pow10(n) < pow10(e) ==> (val / pow10(n)) / 10 < pow10((e - 1) as nat),
{
    lemma_pow10_positive(n);
    vstd::arithmetic::div_mod::lemma_div_denominator(val as int, pow10(n) as int, 10);
    assert(pow10(n + 1) == 10 * pow10(n));
    assert(pow10(n) * 10 == 10 * pow10(n)) by (nonlinear_arith);
}

proof fn lemma_pow10_positive(n: nat)
    ensures
        pow10(n) > 0,
    decreases n,
{
    if n > 0 {
        lemma_pow10_positive((n - 1) as nat);
    }
}

} // verus!
