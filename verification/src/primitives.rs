//! Leaf readers shared by every decoder: big-endian integers, the
//! variable-length integer and the timebase table.

use vstd::prelude::*;
use vstd::slice::slice_subrange;

verus! {

/// Milliseconds per tick that a timebase byte stands for, if it is one of the
/// eight defined codes.
pub open spec fn timebase_of(raw: u8) -> Option<u8> {
    if raw == 0x00 {
        Some(1u8)
    } else if raw == 0x01 {
        Some(2u8)
    } else if raw == 0x02 {
        Some(4u8)
    } else if raw == 0x03 {
        Some(5u8)
    } else if raw == 0x10 {
        Some(10u8)
    } else if raw == 0x11 {
        Some(20u8)
    } else if raw == 0x12 {
        Some(40u8)
    } else if raw == 0x13 {
        Some(50u8)
    } else {
        None
    }
}

/// Decodes a timebase byte; `None` for a byte outside the table.
pub fn parse_timebase(raw: u8) -> (r: Option<u8>)
    ensures
        r == timebase_of(raw),
{
    match raw {
        0x00 => Some(1),
        0x01 => Some(2),
        0x02 => Some(4),
        0x03 => Some(5),
        0x10 => Some(10),
        0x11 => Some(20),
        0x12 => Some(40),
        0x13 => Some(50),
        _ => None,
    }
}

/// Whether a number of milliseconds is one of the eight tick lengths.
pub open spec fn is_tick_length(ms: u8) -> bool {
    ms == 1 || ms == 2 || ms == 4 || ms == 5 || ms == 10 || ms == 20 || ms == 40 || ms == 50
}

/// No two timebase codes stand for the same tick length.
pub proof fn lemma_timebase_is_one_to_one(a: u8, b: u8)
    requires
        timebase_of(a) is Some,
        timebase_of(a) == timebase_of(b),
    ensures
        a == b,
{
}

/// A timebase code stands for one of the eight tick lengths.
pub proof fn lemma_timebase_range(code: u8)
    requires
        timebase_of(code) is Some,
    ensures
        is_tick_length(timebase_of(code).unwrap()),
{
}

/// Each of the eight tick lengths has a timebase code.
pub proof fn lemma_timebase_is_onto(ms: u8)
    requires
        is_tick_length(ms),
    ensures
        exists|code: u8| timebase_of(code) == Some(ms),
{
    if ms == 1 {
        assert(timebase_of(0x00) == Some(ms));
    } else if ms == 2 {
        assert(timebase_of(0x01) == Some(ms));
    } else if ms == 4 {
        assert(timebase_of(0x02) == Some(ms));
    } else if ms == 5 {
        assert(timebase_of(0x03) == Some(ms));
    } else if ms == 10 {
        assert(timebase_of(0x10) == Some(ms));
    } else if ms == 20 {
        assert(timebase_of(0x11) == Some(ms));
    } else if ms == 40 {
        assert(timebase_of(0x12) == Some(ms));
    } else {
        assert(timebase_of(0x13) == Some(ms));
    }
}

/// The 16-bit big-endian integer at `pos`.
pub open spec fn be16(s: Seq<u8>, pos: int) -> int {
    s[pos] * 0x100 + s[pos + 1]
}

/// The 32-bit big-endian integer at `pos`.
pub open spec fn be32(s: Seq<u8>, pos: int) -> int {
    s[pos] * 0x100_0000 + s[pos + 1] * 0x1_0000 + s[pos + 2] * 0x100 + s[pos + 3]
}

/// Reads a 16-bit big-endian integer.
pub fn read_be16(data: &[u8], pos: usize) -> (r: u16)
    requires
        pos + 2 <= data@.len(),
    ensures
        r == be16(data@, pos as int),
{
    let hi: u16 = data[pos] as u16;
    let lo: u16 = data[pos + 1] as u16;
    hi * 0x100 + lo
}

/// Reads a 32-bit big-endian integer.
pub fn read_be32(data: &[u8], pos: usize) -> (r: u32)
    requires
        pos + 4 <= data@.len(),
    ensures
        r == be32(data@, pos as int),
{
    let b0: u32 = data[pos] as u32;
    let b1: u32 = data[pos + 1] as u32;
    let b2: u32 = data[pos + 2] as u32;
    let b3: u32 = data[pos + 3] as u32;
    b0 * 0x100_0000 + b1 * 0x1_0000 + b2 * 0x100 + b3
}

/// The accumulator after one more byte of a variable-length integer: seven new
/// low bits; what leaves the 32 bits at the top is lost.
pub open spec fn varint_push(acc: u32, byte: u8) -> u32 {
    (acc << 7) | ((byte & 0x7f) as u32)
}

/// The variable-length integer whose next byte is at `pos`, after `n` bytes
/// that gave `acc`: the value and the position behind its last byte. An
/// encoding ends with the first byte whose top bit is clear; it is invalid if
/// the input ends before that, or if five bytes in a row have the top bit set.
pub open spec fn varint_from(s: Seq<u8>, pos: int, acc: u32, n: int) -> Option<(u32, int)>
    decreases 5 - n,
{
    if n < 0 || n >= 5 || pos < 0 || pos >= s.len() {
        None
    } else if s[pos] & 0x80 == 0 {
        Some((varint_push(acc, s[pos]), pos + 1))
    } else {
        varint_from(s, pos + 1, varint_push(acc, s[pos]), n + 1)
    }
}

/// The variable-length integer that starts at `pos`.
pub open spec fn varint_at(s: Seq<u8>, pos: int) -> Option<(u32, int)> {
    varint_from(s, pos, 0, 0)
}

/// A variable-length integer takes between one and five bytes of the input.
pub proof fn lemma_varint_from_advances(s: Seq<u8>, pos: int, acc: u32, n: int)
    requires
        varint_from(s, pos, acc, n) is Some,
    ensures
        pos < varint_from(s, pos, acc, n).unwrap().1 <= s.len(),
        varint_from(s, pos, acc, n).unwrap().1 <= pos + 5 - n,
    decreases 5 - n,
{
    if s[pos] & 0x80 != 0 {
        lemma_varint_from_advances(s, pos + 1, varint_push(acc, s[pos]), n + 1);
    }
}

/// A variable-length integer takes between one and five bytes of the input.
pub proof fn lemma_varint_advances(s: Seq<u8>, pos: int)
    requires
        varint_at(s, pos) is Some,
    ensures
        pos < varint_at(s, pos).unwrap().1 <= s.len(),
        varint_at(s, pos).unwrap().1 <= pos + 5,
{
    lemma_varint_from_advances(s, pos, 0, 0);
}

/// The bytes that stand for a number below 2^28: its groups of seven bits,
/// the most significant first and none of them a leading zero group, with the
/// top bit set on every byte but the last.
pub open spec fn varint_encoding(n: u32) -> Seq<u8> {
    if n < 0x80 {
        seq![(n & 0x7f) as u8]
    } else if n < 0x4000 {
        seq![(((n >> 7) & 0x7f) | 0x80) as u8, (n & 0x7f) as u8]
    } else if n < 0x20_0000 {
        seq![
            (((n >> 14) & 0x7f) | 0x80) as u8,
            (((n >> 7) & 0x7f) | 0x80) as u8,
            (n & 0x7f) as u8,
        ]
    } else {
        seq![
            (((n >> 21) & 0x7f) | 0x80) as u8,
            (((n >> 14) & 0x7f) | 0x80) as u8,
            (((n >> 7) & 0x7f) | 0x80) as u8,
            (n & 0x7f) as u8,
        ]
    }
}

/// A group with the top bit set goes on, one without ends the number, and
/// either gives its seven bits to the accumulator.
proof fn lemma_group(acc: u32, rest: u32)
    by (bit_vector)
    requires
        acc < 0x20_0000,
    ensures
        (((rest & 0x7f) | 0x80) as u8) & 0x80 != 0,
        ((rest & 0x7f) as u8) & 0x80 == 0,
        (((rest & 0x7f) | 0x80) as u8) & 0x7f == (rest & 0x7f) as u8,
        ((rest & 0x7f) as u8) & 0x7f == (rest & 0x7f) as u8,
        ((rest & 0x7f) as u8) as u32 == rest & 0x7f,
        (acc << 7) | (rest & 0x7f) == acc * 128 + (rest & 0x7f),
{
}

/// The groups of a number below 2^28 put together again.
proof fn lemma_groups(n: u32)
    by (bit_vector)
    requires
        n < 0x1000_0000,
    ensures
        n < 0x80 ==> n & 0x7f == n,
        n >> 7 == ((n >> 14) * 128 + ((n >> 7) & 0x7f)),
        n >> 14 == ((n >> 21) * 128 + ((n >> 14) & 0x7f)),
        n == (n >> 7) * 128 + (n & 0x7f),
        n >> 21 == (n >> 21) & 0x7f,
        n < 0x20_0000 ==> n >> 14 == (n >> 14) & 0x7f,
        n < 0x4000 ==> n >> 7 == (n >> 7) & 0x7f,
        n >> 7 < 0x20_0000,
{
}

/// Reading what stands for a number below 2^28 gives the number back and uses
/// up every byte.
pub proof fn lemma_varint_round_trip(n: u32)
    requires
        n < 0x1000_0000,
    ensures
        varint_at(varint_encoding(n), 0) == Some((n, varint_encoding(n).len() as int)),
{
    reveal_with_fuel(varint_from, 5);
    let s = varint_encoding(n);
    lemma_groups(n);
    let a1: u32 = n >> 21;
    let a2: u32 = n >> 14;
    let a3: u32 = n >> 7;
    lemma_group(0, n);
    lemma_group(0, a3);
    lemma_group(0, a2);
    lemma_group(0, a1);
    lemma_group(a1, a2);
    lemma_group(a2, a3);
    lemma_group(a3, n);
    if n < 0x80 {
        assert(varint_push(0, s[0]) == n);
    } else if n < 0x4000 {
        assert(varint_push(0, s[0]) == a3);
        assert(varint_push(a3, s[1]) == n);
    } else if n < 0x20_0000 {
        assert(varint_push(0, s[0]) == a2);
        assert(varint_push(a2, s[1]) == a3);
        assert(varint_push(a3, s[2]) == n);
    } else {
        assert(varint_push(0, s[0]) == a1);
        assert(varint_push(a1, s[1]) == a2);
        assert(varint_push(a2, s[2]) == a3);
        assert(varint_push(a3, s[3]) == n);
    }
}

/// Bytes that start with five in a row with the top bit set hold no
/// variable-length integer at their start.
pub proof fn lemma_varint_rejects_five_continuations(s: Seq<u8>)
    requires
        s.len() >= 5,
        forall|i: int| 0 <= i < 5 ==> s[i] & 0x80 != 0,
    ensures
        varint_at(s, 0) is None,
{
    reveal_with_fuel(varint_from, 6);
}

/// Reads the variable-length integer at `pos`: the value and the position
/// behind it.
pub fn read_varint(data: &[u8], pos: usize) -> (r: Option<(u32, usize)>)
    ensures
        match r {
            Some((v, next)) => varint_at(data@, pos as int) == Some((v, next as int)) && pos < next
                <= data@.len(),
            None => varint_at(data@, pos as int) is None,
        },
{
    let mut acc: u32 = 0;
    let mut at: usize = pos;
    let mut n: usize = 0;
    while n < 5
        invariant
            n <= 5,
            pos <= at,
            at == pos + n,
            varint_at(data@, pos as int) == varint_from(data@, at as int, acc, n as int),
        decreases 5 - n,
    {
        if at >= data.len() {
            return None;
        }
        let byte: u8 = data[at];
        acc = (acc << 7) | ((byte & 0x7f) as u32);
        at = at + 1;
        n = n + 1;
        if byte & 0x80 == 0 {
            return Some((acc, at));
        }
    }
    None
}

/// Reads one variable-length integer from the front of `input`: what follows
/// it, and its value.
pub fn parse_variable_number(input: &[u8]) -> (r: Option<(&[u8], u32)>)
    ensures
        match r {
            Some((rest, v)) => varint_at(input@, 0) is Some && v == varint_at(input@, 0).unwrap().0
                && rest@ == input@.subrange(varint_at(input@, 0).unwrap().1, input@.len() as int),
            None => varint_at(input@, 0) is None,
        },
{
    match read_varint(input, 0) {
        Some((v, next)) => Some((slice_subrange(input, next, input.len()), v)),
        None => None,
    }
}

/// Puts the events decoded so far in front of what the rest of the input
/// decodes to.
pub open spec fn prepend<T>(head: Seq<T>, tail: Option<(Seq<T>, int)>) -> Option<(Seq<T>, int)> {
    match tail {
        None => None,
        Some((rest, end)) => Some((head + rest, end)),
    }
}

/// Decoding one more item and then the rest is decoding the rest after the
/// longer prefix.
pub proof fn lemma_prepend_push<T>(head: Seq<T>, item: T, tail: Option<(Seq<T>, int)>)
    ensures
        prepend(head, prepend(seq![item], tail)) == prepend(head.push(item), tail),
{
    match tail {
        None => {},
        Some((rest, end)) => {
            assert(head + (seq![item] + rest) =~= head.push(item) + rest);
        },
    }
}

/// Nothing more decoded leaves the events decoded so far.
pub proof fn lemma_prepend_empty<T>(head: Seq<T>, end: int)
    ensures
        prepend(head, Some((Seq::<T>::empty(), end))) == Some((head, end)),
{
    assert(head + Seq::<T>::empty() =~= head);
}

} // verus!
