//! Lowercase hexadecimal rendering of bytes and 64-bit values.

use vstd::prelude::*;
use crate::strutil::push_char;

verus! {

/// The lowercase hexadecimal digit for a value below 16.
pub open spec fn hex_digit_of(n: nat) -> char
    recommends
        n < 16,
{
    if n == 0 {
        '0'
    } else if n == 1 {
        '1'
    } else if n == 2 {
        '2'
    } else if n == 3 {
        '3'
    } else if n == 4 {
        '4'
    } else if n == 5 {
        '5'
    } else if n == 6 {
        '6'
    } else if n == 7 {
        '7'
    } else if n == 8 {
        '8'
    } else if n == 9 {
        '9'
    } else if n == 10 {
        'a'
    } else if n == 11 {
        'b'
    } else if n == 12 {
        'c'
    } else if n == 13 {
        'd'
    } else if n == 14 {
        'e'
    } else {
        'f'
    }
}

/// Two lowercase hexadecimal digits for each byte, in order.
pub open spec fn hex_of_bytes(bs: Seq<u8>) -> Seq<char>
    decreases bs.len(),
{
    if bs.len() == 0 {
        Seq::<char>::empty()
    } else {
        hex_of_bytes(bs.drop_last()) + seq![
            hex_digit_of((bs.last() / 16) as nat),
            hex_digit_of((bs.last() % 16) as nat),
        ]
    }
}

pub proof fn lemma_hex_of_bytes_len(bs: Seq<u8>)
    ensures
        hex_of_bytes(bs).len() == 2 * bs.len(),
    decreases bs.len(),
{
    if bs.len() > 0 {
        lemma_hex_of_bytes_len(bs.drop_last());
    }
}

/// The lowercase hexadecimal rendering of a natural number, most
/// significant digit first, with no leading zeros (zero itself is "0").
pub open spec fn hex_of_nat(n: nat) -> Seq<char>
    decreases n,
{
    if n < 16 {
        seq![hex_digit_of(n)]
    } else {
        hex_of_nat(n / 16).push(hex_digit_of(n % 16))
    }
}

pub(crate) fn hex_digit(n: u8) -> (c: char)
    requires
        n < 16,
    ensures
        c == hex_digit_of(n as nat),
{
    if n == 0 {
        '0'
    } else if n == 1 {
        '1'
    } else if n == 2 {
        '2'
    } else if n == 3 {
        '3'
    } else if n == 4 {
        '4'
    } else if n == 5 {
        '5'
    } else if n == 6 {
        '6'
    } else if n == 7 {
        '7'
    } else if n == 8 {
        '8'
    } else if n == 9 {
        '9'
    } else if n == 10 {
        'a'
    } else if n == 11 {
        'b'
    } else if n == 12 {
        'c'
    } else if n == 13 {
        'd'
    } else if n == 14 {
        'e'
    } else {
        'f'
    }
}

/// Renders a byte vector as lowercase hexadecimal, two digits per byte.
pub fn bytes_to_hex(bs: &Vec<u8>) -> (r: String)
    ensures
        r@ == hex_of_bytes(bs@),
        r@.len() == 2 * bs@.len(),
{
    let mut r = String::new();
    let mut i: usize = 0;
    while i < bs.len()
        invariant
            0 <= i <= bs@.len(),
            r@ == hex_of_bytes(bs@.subrange(0, i as int)),
        decreases bs@.len() - i,
    {
        let b = bs[i];
        push_char(&mut r, hex_digit(b / 16));
        push_char(&mut r, hex_digit(b % 16));
        proof {
            let pre = bs@.subrange(0, i as int);
            let cur = bs@.subrange(0, i + 1 as int);
            assert(cur.drop_last() =~= pre);
            assert(cur.last() == bs@[i as int]);
            assert(r@ =~= hex_of_bytes(cur));
        }
        i = i + 1;
    }
    proof {
        assert(bs@.subrange(0, bs@.len() as int) =~= bs@);
        lemma_hex_of_bytes_len(bs@);
    }
    r
}

/// Renders a 64-bit value as lowercase hexadecimal with no leading zeros.
pub fn u64_to_hex(n: u64) -> (r: String)
    ensures
        r@ == hex_of_nat(n as nat),
    decreases n,
{
    if n < 16 {
        let mut r = String::new();
        push_char(&mut r, hex_digit(n as u8));
        proof {
            assert(r@ =~= hex_of_nat(n as nat));
        }
        r
    } else {
        proof {
            assert(n / 16 < n) by (nonlinear_arith)
                requires
                    n >= 16,
            ;
        }
        let mut r = u64_to_hex(n / 16);
        push_char(&mut r, hex_digit((n % 16) as u8));
        proof {
            assert((n as nat) / 16 == (n / 16) as nat);
            assert((n as nat) % 16 == (n % 16) as nat);
            assert(r@ =~= hex_of_nat(n as nat));
        }
        r
    }
}

} // verus!
