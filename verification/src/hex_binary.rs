//! Hexadecimal text for binary values: two upper-case hex digits per byte.
use crate::scan::push_char;
use vstd::prelude::*;

verus! {

/// Value of an upper-case hexadecimal digit, or 16 for any other character.
pub open spec fn spec_hex_val(c: char) -> int {
    if '0' <= c && c <= '9' {
        (c as u32) as int - 48
    } else if 'A' <= c && c <= 'F' {
        (c as u32) as int - 55
    } else {
        16
    }
}

/// The upper-case hexadecimal digit for a value in `0..=15`.
pub open spec fn hex_digit_char(d: int) -> char {
    if d < 10 {
        crate::scan::digit_char(d)
    } else if d == 10 {
        'A'
    } else if d == 11 {
        'B'
    } else if d == 12 {
        'C'
    } else if d == 13 {
        'D'
    } else if d == 14 {
        'E'
    } else {
        'F'
    }
}

/// The hexadecimal text of a byte string: two digits per byte, high
/// nibble first.
pub open spec fn spec_hex_str(b: Seq<u8>) -> Seq<char>
    decreases b.len(),
{
    if b.len() == 0 {
        Seq::<char>::empty()
    } else {
        spec_hex_str(b.drop_last()) + seq![
            hex_digit_char(b.last() as int / 16),
            hex_digit_char(b.last() as int % 16),
        ]
    }
}

/// The bytes a hexadecimal string denotes: every character must be an
/// upper-case hex digit; with an odd count the final digit is dropped.
pub open spec fn spec_hex_bytes(s: Seq<char>) -> Option<Seq<u8>> {
    if forall|i: int| 0 <= i < s.len() ==> spec_hex_val(#[trigger] s[i]) < 16 {
        Some(
            Seq::<u8>::new(
                (s.len() / 2) as nat,
                |i: int| (spec_hex_val(s[2 * i]) * 16 + spec_hex_val(s[2 * i + 1])) as u8,
            ),
        )
    } else {
        None
    }
}

/// Value of an upper-case hexadecimal digit; 16 marks an invalid one.
fn map_to_binary(c: char) -> (r: u8)
    ensures
        r == spec_hex_val(c),
{
    match c {
        '0' => 0,
        '1' => 1,
        '2' => 2,
        '3' => 3,
        '4' => 4,
        '5' => 5,
        '6' => 6,
        '7' => 7,
        '8' => 8,
        '9' => 9,
        'A' => 10,
        'B' => 11,
        'C' => 12,
        'D' => 13,
        'E' => 14,
        'F' => 15,
        _ => 16,
    }
}

/// Reads an upper-case hexadecimal string into bytes, two digits per
/// byte; any other character gives `None`.
pub fn string_to_binary(hex_string: &str) -> (r: Option<Vec<u8>>)
    ensures
        match r {
            Some(v) => spec_hex_bytes(hex_string@) == Some(v@),
            None => spec_hex_bytes(hex_string@) is None,
        },
{
    let n = hex_string.unicode_len();
    let mut ret: Vec<u8> = Vec::new();
    let mut i: usize = 0;
    while i + 1 < n
        invariant
            0 <= i <= n,
            i % 2 == 0,
            n == hex_string@.len(),
            ret@.len() == i / 2,
            forall|j: int| 0 <= j < i ==> spec_hex_val(#[trigger] hex_string@[j]) < 16,
            forall|k: int|
                0 <= k < i / 2 ==> #[trigger] ret@[k] == (spec_hex_val(hex_string@[2 * k]) * 16
                    + spec_hex_val(hex_string@[2 * k + 1])) as u8,
        decreases n - i,
    {
        let hi = map_to_binary(hex_string.get_char(i));
        if hi == 16 {
            return None;
        }
        let lo = map_to_binary(hex_string.get_char(i + 1));
        if lo == 16 {
            return None;
        }
        ret.push(hi * 16 + lo);
        i += 2;
    }
    if i < n {
        // a trailing lone digit is checked but dropped
        let last = map_to_binary(hex_string.get_char(i));
        if last == 16 {
            return None;
        }
    }
    proof {
        let b = Seq::<u8>::new(
            (hex_string@.len() / 2) as nat,
            |k: int| (spec_hex_val(hex_string@[2 * k]) * 16 + spec_hex_val(hex_string@[2 * k + 1]))
                as u8,
        );
        assert(ret@ =~= b);
    }
    Some(ret)
}

/// Writes bytes as upper-case hexadecimal text, two digits per byte.
pub fn binary_to_string(binary: &[u8]) -> (r: String)
    ensures
        r@ == spec_hex_str(binary@),
{
    let mut ret = String::new();
    let mut i: usize = 0;
    while i < binary.len()
        invariant
            0 <= i <= binary@.len(),
            ret@ == spec_hex_str(binary@.subrange(0, i as int)),
        decreases binary@.len() - i,
    {
        let b = binary[i];
        push_char(&mut ret, hex_digit_exec(b / 16));
        push_char(&mut ret, hex_digit_exec(b % 16));
        proof {
            let pre = binary@.subrange(0, i as int);
            let cur = binary@.subrange(0, i + 1);
            assert(cur.drop_last() =~= pre);
            assert(cur.last() == binary@[i as int]);
        }
        i += 1;
    }
    proof {
        assert(binary@.subrange(0, binary@.len() as int) =~= binary@);
    }
    ret
}

/// The upper-case hexadecimal digit character for a value below 16.
fn hex_digit_exec(d: u8) -> (c: char)
    requires
        d < 16,
    ensures
        c == hex_digit_char(d as int),
{
    match d {
        0 => '0',
        1 => '1',
        2 => '2',
        3 => '3',
        4 => '4',
        5 => '5',
        6 => '6',
        7 => '7',
        8 => '8',
        9 => '9',
        10 => 'A',
        11 => 'B',
        12 => 'C',
        13 => 'D',
        14 => 'E',
        _ => 'F',
    }
}

} // verus!
