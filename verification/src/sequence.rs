//! Arithmetic on TCP sequence numbers.
//!
//! A sequence number that runs past `u32::MAX` continues at 1, and the distance between two
//! numbers is measured along the same circle. Only the number that follows a SYN continues at 0.
//! TCP counts modulo 2^32, so what is stated over these functions speaks, past `u32::MAX`, only of
//! a peer that numbers in the same way.
use vstd::prelude::*;

verus! {

/// Represents the max distance of u32 values between packets in an u32 window.
pub const MAX_U32_WINDOW_SIZE: usize = 262144;

/// The sequence number `n` bytes after `sequence`.
pub open spec fn advanced(sequence: u32, n: int) -> u32 {
    if sequence + n <= u32::MAX {
        (sequence + n) as u32
    } else {
        (sequence + n - u32::MAX) as u32
    }
}

/// The number of bytes from `from` forward to `to`.
pub open spec fn gap(from: u32, to: u32) -> int {
    if from <= to {
        to - from
    } else {
        to + (u32::MAX - from)
    }
}

/// Whether `to` lies at or after `from`, and less than a window away.
pub open spec fn in_window(from: u32, to: u32) -> bool {
    gap(from, to) < MAX_U32_WINDOW_SIZE
}

/// The sequence number that follows a segment which takes up a single number and has no
/// payload.
pub open spec fn successor(sequence: u32) -> u32 {
    if sequence == u32::MAX {
        0
    } else {
        (sequence + 1) as u32
    }
}

/// Returns the sequence number `n` bytes after `sequence`.
pub fn advance(sequence: u32, n: u32) -> (result: u32)
    ensures
        result == advanced(sequence, n as int),
{
    match sequence.checked_add(n) {
        Some(result) => result,
        None => n - (u32::MAX - sequence),
    }
}

/// Returns the number of bytes from `from` forward to `to`.
pub fn distance(from: u32, to: u32) -> (result: u32)
    ensures
        result == gap(from, to),
{
    match to.checked_sub(from) {
        Some(result) => result,
        None => to + (u32::MAX - from),
    }
}

/// Returns whether `to` lies at or after `from`, and less than a window away.
pub fn is_in_window(from: u32, to: u32) -> (result: bool)
    ensures
        result == in_window(from, to),
{
    (distance(from, to) as usize) < MAX_U32_WINDOW_SIZE
}

/// Returns the sequence number that follows a segment without payload.
pub fn following(sequence: u32) -> (result: u32)
    ensures
        result == successor(sequence),
{
    match sequence.checked_add(1) {
        Some(result) => result,
        None => 0,
    }
}

/// Going `n` bytes forward moves a sequence number by a distance of `n`.
pub proof fn law_gap_undoes_advance(sequence: u32, n: int)
    requires
        0 <= n < u32::MAX,
    ensures
        gap(sequence, advanced(sequence, n)) == n,
{
}

/// Going forward twice is the same as going forward once by the sum.
pub proof fn law_advance_adds_up(sequence: u32, m: int, n: int)
    requires
        0 <= m,
        0 <= n,
        m + n <= u32::MAX,
    ensures
        advanced(advanced(sequence, m), n) == advanced(sequence, m + n),
{
}

/// Numbers count up to `u32::MAX` and then from 1 on, and the distance to a number is how far one
/// has to count. After a SYN with the number `u32::MAX` comes 0.
pub proof fn law_numbers_count_in_a_circle(sequence: u32, n: int, to: u32)
    requires
        0 <= n <= u32::MAX,
    ensures
        sequence + n <= u32::MAX ==> advanced(sequence, n) == sequence + n,
        sequence + n > u32::MAX ==> advanced(sequence, n) + u32::MAX == sequence + n,
        sequence <= to ==> gap(sequence, to) + sequence == to,
        sequence > to ==> gap(sequence, to) + sequence == to + u32::MAX,
        in_window(sequence, to) <==> gap(sequence, to) < 262144,
        successor(sequence) == (sequence + 1) % 0x1_0000_0000,
{
}

/// The functions on numbers compute what numbers do.
pub proof fn law_numbers_are_computed(
    sequence: u32,
    n: u32,
    advanced_to: u32,
    far: u32,
    is_near: bool,
    next: u32,
)
    requires
        call_ensures(advance, (sequence, n), advanced_to),
        call_ensures(distance, (sequence, n), far),
        call_ensures(is_in_window, (sequence, n), is_near),
        call_ensures(following, (sequence,), next),
    ensures
        advanced_to == if sequence + n <= u32::MAX {
            sequence + n
        } else {
            sequence + n - u32::MAX
        },
        far == if sequence <= n {
            n - sequence
        } else {
            n - sequence + u32::MAX
        },
        is_near <==> far < 262144,
        next == (sequence + 1) % 0x1_0000_0000,
{
}

} // verus!
