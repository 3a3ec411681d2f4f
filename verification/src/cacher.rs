//! Caches of TCP payload.
//!
//! A [`Cacher`] holds bytes that are to be sent or that wait for their acknowledgement, a
//! [`RandomCacher`] holds received bytes until all bytes before them have arrived.
use vstd::prelude::*;
use vstd::slice::slice_to_vec;
use vstd::slice::slice_subrange;

use crate::sequence::{advance, distance, is_in_window};

#[allow(unused_imports)]
use crate::sequence::{advanced, gap, in_window};

verus! {

/// Represents the most bytes that fit in a TCP window.
pub const MAX_WINDOW: usize = 65535;

/// Represents the reason why a cache refuses a request.
#[derive(Clone, Copy, Debug, PartialEq, Eq, Structural)]
pub enum CacheError {
    /// The bytes do not fit in the cache.
    Full,
    /// The cache holds less bytes than asked for.
    Short,
}

/// The contents of a [`Cacher`]: `bytes`, the first of which has the number `sequence`, and the
/// most bytes that it takes.
#[verifier::ext_equal]
pub struct Buffered {
    pub sequence: u32,
    pub bytes: Seq<u8>,
    pub limit: int,
}

impl Buffered {
    /// An empty cache for as many bytes as a TCP window covers.
    pub open spec fn fixed(sequence: u32) -> Buffered {
        Buffered { sequence, bytes: Seq::empty(), limit: MAX_WINDOW as int }
    }

    /// An empty cache for as many bytes as a vector takes.
    pub open spec fn extendable(sequence: u32) -> Buffered {
        Buffered { sequence, bytes: Seq::empty(), limit: isize::MAX as int }
    }

    /// Whether the cache keeps to its limit.
    pub open spec fn wf(self) -> bool {
        self.bytes.len() <= self.limit <= isize::MAX
    }

    /// Whether `payload` can be appended.
    pub open spec fn has_room_for(self, payload: Seq<u8>) -> bool {
        self.bytes.len() + payload.len() <= self.limit
    }

    /// The cache with `payload` appended.
    pub open spec fn appended(self, payload: Seq<u8>) -> Buffered {
        Buffered { bytes: self.bytes + payload, ..self }
    }

    /// The cache without the bytes before `sequence`, or the same cache if `sequence` is not in
    /// the window that starts with the cache.
    pub open spec fn invalidated(self, sequence: u32) -> Buffered {
        if in_window(self.sequence, sequence) {
            let n = gap(self.sequence, sequence);
            Buffered {
                sequence,
                bytes: if n <= self.bytes.len() {
                    self.bytes.skip(n)
                } else {
                    Seq::empty()
                },
                ..self
            }
        } else {
            self
        }
    }
}

/// Represents a cache of consecutive bytes.
pub struct Cacher {
    sequence: u32,
    buffer: Vec<u8>,
    limit: usize,
}

impl View for Cacher {
    type V = Buffered;

    closed spec fn view(&self) -> Buffered {
        Buffered { sequence: self.sequence, bytes: self.buffer@, limit: self.limit as int }
    }
}

impl Cacher {
    /// Creates a new `Cacher` for as many bytes as a TCP window covers.
    pub fn new(sequence: u32) -> (result: Cacher)
        ensures
            result@ == Buffered::fixed(sequence),
    {
        Cacher { sequence, buffer: Vec::new(), limit: MAX_WINDOW }
    }

    /// Creates a new `Cacher` for as many bytes as a vector takes.
    pub fn new_extendable(sequence: u32) -> (result: Cacher)
        ensures
            result@ == Buffered::extendable(sequence),
    {
        Cacher { sequence, buffer: Vec::new(), limit: isize::MAX as usize }
    }

    /// Appends `payload` to the end of the cache.
    pub fn append(&mut self, payload: &[u8]) -> (result: Result<(), CacheError>)
        requires
            old(self)@.wf(),
        ensures
            final(self)@.wf(),
            old(self)@.has_room_for(payload@) ==> result == Ok::<(), CacheError>(()) && final(self)@
                == old(self)@.appended(payload@),
            !old(self)@.has_room_for(payload@) ==> result == Err::<(), CacheError>(CacheError::Full)
                && final(self)@ == old(self)@,
    {
        if payload.len() > self.limit - self.buffer.len() {
            return Err(CacheError::Full);
        }
        self.buffer.extend_from_slice(payload);
        Ok(())
    }

    /// Invalidates the bytes before `sequence`.
    pub fn invalidate_to(&mut self, sequence: u32)
        requires
            old(self)@.wf(),
        ensures
            final(self)@.wf(),
            final(self)@ == old(self)@.invalidated(sequence),
    {
        if is_in_window(self.sequence, sequence) {
            let n: usize = distance(self.sequence, sequence) as usize;
            if n <= self.buffer.len() {
                self.buffer = self.buffer.split_off(n);
            } else {
                self.buffer.clear();
            }
            self.sequence = sequence;
        }
    }

    /// Returns the first `size` bytes.
    pub fn get(&self, size: usize) -> (result: Result<Vec<u8>, CacheError>)
        ensures
            size <= self@.bytes.len() ==> result is Ok && result->Ok_0@ == self@.bytes.take(
                size as int,
            ),
            size > self@.bytes.len() ==> result == Err::<Vec<u8>, CacheError>(CacheError::Short),
    {
        if size > self.buffer.len() {
            return Err(CacheError::Short);
        }
        Ok(slice_to_vec(slice_subrange(self.buffer.as_slice(), 0, size)))
    }

    /// Returns all bytes.
    pub fn get_all(&self) -> (result: Vec<u8>)
        ensures
            result@ == self@.bytes,
    {
        slice_to_vec(self.buffer.as_slice())
    }

    /// Returns the number of bytes.
    pub fn get_size(&self) -> (result: usize)
        ensures
            result == self@.bytes.len(),
    {
        self.buffer.len()
    }

    /// Returns the sequence number of the first byte.
    pub fn get_sequence(&self) -> (result: u32)
        ensures
            result == self@.sequence,
    {
        self.sequence
    }
}

/// `slots` with `payload` written from `offset` on.
pub open spec fn overlaid(slots: Seq<Option<u8>>, offset: int, payload: Seq<u8>) -> Seq<
    Option<u8>,
> {
    let end = offset + payload.len();
    Seq::new(
        (if end > slots.len() {
            end
        } else {
            slots.len() as int
        }) as nat,
        |i: int|
            if offset <= i < end {
                Some(payload[i - offset])
            } else if i < slots.len() {
                slots[i]
            } else {
                None
            },
    )
}

/// The number of filled slots before the first empty one.
pub open spec fn leading(slots: Seq<Option<u8>>) -> nat
    decreases slots.len(),
{
    if slots.len() > 0 && slots[0] is Some {
        1 + leading(slots.skip(1))
    } else {
        0
    }
}

/// The bytes in the first `n` slots.
pub open spec fn filled(slots: Seq<Option<u8>>, n: nat) -> Seq<u8> {
    Seq::new(n, |i: int| slots[i]->0)
}

/// All slots before `leading(slots)` are filled, and the next one, if there is one, is empty.
pub proof fn lemma_leading(slots: Seq<Option<u8>>)
    ensures
        leading(slots) <= slots.len(),
        forall|i: int| 0 <= i < leading(slots) ==> (#[trigger] slots[i]) is Some,
        leading(slots) < slots.len() ==> slots[leading(slots) as int] is None,
    decreases slots.len(),
{
    if slots.len() > 0 && slots[0] is Some {
        let rest = slots.skip(1);
        lemma_leading(rest);
        assert forall|i: int| 0 <= i < leading(slots) implies (#[trigger] slots[i]) is Some by {
            if i > 0 {
                assert(slots[i] == rest[i - 1]);
            }
        }
    }
}

/// Only `leading(slots)` has the property that `lemma_leading` states.
pub proof fn lemma_leading_is(slots: Seq<Option<u8>>, n: nat)
    requires
        n <= slots.len(),
        forall|i: int| 0 <= i < n ==> (#[trigger] slots[i]) is Some,
        n < slots.len() ==> slots[n as int] is None,
    ensures
        leading(slots) == n,
{
    lemma_leading(slots);
}

/// The contents of a [`RandomCacher`]: a slot for each number from `sequence` on, up to the last
/// byte that has arrived.
#[verifier::ext_equal]
pub struct Reordered {
    pub sequence: u32,
    pub slots: Seq<Option<u8>>,
}

impl Reordered {
    /// An empty cache.
    pub open spec fn empty(sequence: u32) -> Reordered {
        Reordered { sequence, slots: Seq::empty() }
    }

    /// Whether the cache fits in a TCP window and waits for its first byte.
    pub open spec fn wf(self) -> bool {
        &&& self.slots.len() <= MAX_WINDOW
        &&& self.slots.len() > 0 ==> self.slots[0] is None
    }

    /// Whether a segment lies outside the window that starts with the byte that the cache waits
    /// for: before that byte, or 262144 or more bytes after it.
    pub open spec fn is_stale(self, sequence: u32) -> bool {
        !in_window(self.sequence, sequence)
    }

    /// Whether a segment lies inside the window.
    pub open spec fn has_room_for(self, sequence: u32, payload: Seq<u8>) -> bool {
        gap(self.sequence, sequence) + payload.len() <= MAX_WINDOW
    }

    /// The slots after a segment was written.
    pub open spec fn written(self, sequence: u32, payload: Seq<u8>) -> Seq<Option<u8>> {
        overlaid(self.slots, gap(self.sequence, sequence), payload)
    }

    /// The bytes that a segment completes.
    pub open spec fn released(self, sequence: u32, payload: Seq<u8>) -> Seq<u8> {
        let slots = self.written(sequence, payload);
        filled(slots, leading(slots))
    }

    /// The cache after a segment was written and the bytes that it completes have left.
    pub open spec fn received(self, sequence: u32, payload: Seq<u8>) -> Reordered {
        let slots = self.written(sequence, payload);
        Reordered {
            sequence: advanced(self.sequence, leading(slots) as int),
            slots: slots.skip(leading(slots) as int),
        }
    }

    /// The number of bytes that the window still takes.
    pub open spec fn remaining(self) -> int {
        MAX_WINDOW - self.slots.len()
    }
}

/// Represents a cache of bytes that may arrive in any order.
pub struct RandomCacher {
    sequence: u32,
    slots: Vec<Option<u8>>,
}

impl View for RandomCacher {
    type V = Reordered;

    closed spec fn view(&self) -> Reordered {
        Reordered { sequence: self.sequence, slots: self.slots@ }
    }
}

impl RandomCacher {
    /// Creates a new `RandomCacher` that waits for the byte with the number `sequence`.
    pub fn new(sequence: u32) -> (result: RandomCacher)
        ensures
            result@ == Reordered::empty(sequence),
    {
        RandomCacher { sequence, slots: Vec::new() }
    }

    /// Adds the segment `payload` that starts with the number `sequence`, and returns the bytes
    /// that are complete by it, if there are any.
    pub fn append(&mut self, sequence: u32, payload: &[u8]) -> (result: Result<
        Option<Vec<u8>>,
        CacheError,
    >)
        requires
            old(self)@.wf(),
        ensures
            final(self)@.wf(),
            payload@.len() == 0 || old(self)@.is_stale(sequence) ==> result is Ok && result->Ok_0
                is None && final(self)@ == old(self)@,
            payload@.len() > 0 && !old(self)@.is_stale(sequence) && !old(self)@.has_room_for(
                sequence,
                payload@,
            ) ==> result == Err::<Option<Vec<u8>>, CacheError>(CacheError::Full) && final(self)@
                == old(self)@,
            payload@.len() > 0 && !old(self)@.is_stale(sequence) && old(self)@.has_room_for(
                sequence,
                payload@,
            ) ==> {
                &&& final(self)@ == old(self)@.received(sequence, payload@)
                &&& result is Ok
                &&& old(self)@.released(sequence, payload@).len() == 0 ==> result->Ok_0 is None
                &&& old(self)@.released(sequence, payload@).len() > 0 ==> result->Ok_0 is Some
                    && result->Ok_0->0@ == old(self)@.released(sequence, payload@)
            },
    {
        if payload.len() == 0 || !is_in_window(self.sequence, sequence) {
            return Ok(None);
        }
        let offset: usize = distance(self.sequence, sequence) as usize;
        if offset > MAX_WINDOW || payload.len() > MAX_WINDOW - offset {
            return Err(CacheError::Full);
        }
        let ghost before = self.slots@;
        let ghost slots = overlaid(before, offset as int, payload@);
        let end: usize = offset + payload.len();
        while self.slots.len() < end
            invariant
                self.sequence == old(self).sequence,
                before.len() <= self.slots@.len(),
                self.slots@.len() <= end || self.slots@.len() == before.len(),
                forall|i: int| 0 <= i < before.len() ==> self.slots@[i] == before[i],
                forall|i: int|
                    before.len() <= i < self.slots@.len() ==> (#[trigger] self.slots@[i]) is None,
            decreases end - self.slots.len(),
        {
            self.slots.push(None);
        }
        let ghost extended = self.slots@;
        for i in 0..payload.len()
            invariant
                self.sequence == old(self).sequence,
                end == offset + payload@.len(),
                end <= self.slots@.len(),
                self.slots@.len() == extended.len(),
                forall|j: int|
                    offset <= j < offset + i ==> (#[trigger] self.slots@[j]) == Some(
                        payload@[j - offset],
                    ),
                forall|j: int|
                    0 <= j < extended.len() && !(offset <= j < offset + i) ==> self.slots@[j]
                        == extended[j],
        {
            self.slots.set(offset + i, Some(payload[i]));
        }
        assert forall|i: int| 0 <= i < slots.len() implies self.slots@[i] == slots[i] by {
            if !(offset <= i < end) {
                assert(self.slots@[i] == extended[i]);
            }
        }
        proof {
            lemma_leading(slots);
        }
        let mut released: Vec<u8> = Vec::new();
        let mut is_gap_found: bool = false;
        while !is_gap_found && released.len() < self.slots.len()
            invariant
                self.sequence == old(self).sequence,
                self.slots@ == slots,
                released@.len() <= slots.len() <= MAX_WINDOW,
                released@ == filled(slots, released@.len()),
                forall|i: int| 0 <= i < released@.len() ==> (#[trigger] slots[i]) is Some,
                is_gap_found ==> released@.len() < slots.len() && slots[released@.len() as int]
                    is None,
            decreases
                    slots.len() - released.len() + if is_gap_found {
                        0int
                    } else {
                        1
                    },
        {
            match self.slots[released.len()] {
                Some(byte) => {
                    released.push(byte);
                },
                None => {
                    is_gap_found = true;
                },
            }
        }
        proof {
            lemma_leading_is(slots, released@.len());
        }
        let n: usize = released.len();
        self.sequence = advance(self.sequence, n as u32);
        self.slots = self.slots.split_off(n);
        if n == 0 {
            Ok(None)
        } else {
            Ok(Some(released))
        }
    }

    /// Returns the number of bytes that the window still takes.
    pub fn get_remaining_size(&self) -> (result: u16)
        requires
            self@.wf(),
        ensures
            result == self@.remaining(),
    {
        (MAX_WINDOW - self.slots.len()) as u16
    }
}

/// A cache of consecutive bytes takes 65535 bytes, or as many as a vector takes if it is
/// extendable. Bytes go to its end, and leave from its front when a number less than 262144 bytes
/// ahead of the first byte says so.
pub proof fn law_cache_is_a_queue(cache: Buffered, payload: Seq<u8>, sequence: u32)
    ensures
        Buffered::fixed(sequence).limit == 65535,
        Buffered::extendable(sequence).limit == isize::MAX,
        Buffered::fixed(sequence).sequence == sequence,
        Buffered::extendable(sequence).sequence == sequence,
        Buffered::fixed(sequence).bytes == Seq::<u8>::empty(),
        Buffered::extendable(sequence).bytes == Seq::<u8>::empty(),
        cache.has_room_for(payload) <==> cache.bytes.len() + payload.len() <= cache.limit,
        cache.appended(payload) == (Buffered { bytes: cache.bytes + payload, ..cache }),
        ({
            let after = cache.invalidated(sequence);
            let n = gap(cache.sequence, sequence);
            &&& after.limit == cache.limit
            &&& n >= 262144 ==> after == cache
            &&& n < 262144 ==> after.sequence == sequence
            &&& n < 262144 && n <= cache.bytes.len() ==> after.bytes == cache.bytes.skip(n)
            &&& n < 262144 && n > cache.bytes.len() ==> after.bytes == Seq::<u8>::empty()
        }),
{
}

/// A cache of bytes that may arrive in any order covers a window of 65535 bytes from the byte on
/// that it waits for, and takes segments that start less than 262144 bytes ahead and end in that
/// window. A segment overwrites the slots of its bytes and no other.
pub proof fn law_segment_takes_its_slots(cache: Reordered, sequence: u32, payload: Seq<u8>, i: int)
    requires
        0 <= i < cache.written(sequence, payload).len(),
    ensures
        Reordered::empty(sequence).sequence == sequence,
        Reordered::empty(sequence).slots.len() == 0,
        cache.is_stale(sequence) <==> gap(cache.sequence, sequence) >= 262144,
        cache.has_room_for(sequence, payload) <==> gap(cache.sequence, sequence) + payload.len()
            <= 65535,
        cache.remaining() == 65535 - cache.slots.len(),
        ({
            let slots = cache.written(sequence, payload);
            let n = gap(cache.sequence, sequence);
            &&& cache.slots.len() <= slots.len()
            &&& n + payload.len() <= slots.len()
            &&& slots.len() == cache.slots.len() || slots.len() == n + payload.len()
            &&& n <= i < n + payload.len() ==> slots[i] == Some(payload[i - n])
            &&& !(n <= i < n + payload.len()) && i < cache.slots.len() ==> slots[i]
                == cache.slots[i]
            &&& !(n <= i < n + payload.len()) && i >= cache.slots.len() ==> slots[i] is None
        }),
{
}

/// A cache of consecutive bytes starts empty, takes bytes at its end up to its limit, gives them
/// back from its front, and drops them from there.
pub proof fn law_cache_keeps_bytes(
    sequence: u32,
    fixed: Cacher,
    extendable: Cacher,
    cache: &Cacher,
    n: usize,
    some: Result<Vec<u8>, CacheError>,
    all: Vec<u8>,
    size: usize,
    first: u32,
    appending: &mut Cacher,
    payload: &[u8],
    appended: Result<(), CacheError>,
    dropping: &mut Cacher,
)
    requires
        call_ensures(Cacher::new, (sequence,), fixed),
        call_ensures(Cacher::new_extendable, (sequence,), extendable),
        call_ensures(Cacher::get, (cache, n), some),
        call_ensures(Cacher::get_all, (cache,), all),
        call_ensures(Cacher::get_size, (cache,), size),
        call_ensures(Cacher::get_sequence, (cache,), first),
        call_ensures(Cacher::append, (appending, payload), appended),
        call_ensures(Cacher::invalidate_to, (dropping, sequence), ()),
    ensures
        fixed@ == (Buffered { sequence, bytes: Seq::empty(), limit: 65535 }),
        extendable@ == (Buffered { sequence, bytes: Seq::empty(), limit: isize::MAX as int }),
        n <= cache@.bytes.len() ==> (some matches Ok(bytes) && bytes@ == cache@.bytes.take(
            n as int,
        )),
        n > cache@.bytes.len() ==> (some matches Err(error) && error == CacheError::Short),
        all@ == cache@.bytes,
        size == cache@.bytes.len(),
        first == cache@.sequence,
        ({
            let has_room = old(appending)@.bytes.len() + payload@.len() <= old(appending)@.limit;
            &&& has_room ==> appended is Ok && final(appending)@ == (Buffered {
                bytes: old(appending)@.bytes + payload@,
                ..old(appending)@
            })
            &&& !has_room ==> (appended matches Err(error) && error == CacheError::Full)
                && final(appending)@ == old(appending)@
        }),
        final(dropping)@ == old(dropping)@.invalidated(sequence),
{
}

/// A cache of bytes that may arrive in any order starts empty, and gives back the bytes that a
/// segment completes, if there are any.
pub proof fn law_random_cache_releases_bytes(
    sequence: u32,
    payload: &[u8],
    empty: RandomCacher,
    cache: &mut RandomCacher,
    result: Result<Option<Vec<u8>>, CacheError>,
    sized: &RandomCacher,
    remaining: u16,
)
    requires
        call_ensures(RandomCacher::new, (sequence,), empty),
        call_ensures(RandomCacher::append, (cache, sequence, payload), result),
        call_ensures(RandomCacher::get_remaining_size, (sized,), remaining),
    ensures
        empty@.sequence == sequence && empty@.slots.len() == 0,
        remaining == 65535 - sized@.slots.len(),
        ({
            let n = gap(old(cache)@.sequence, sequence);
            let released = old(cache)@.released(sequence, payload@);
            &&& payload@.len() == 0 || n >= 262144 ==> (result matches Ok(bytes) && bytes is None)
                && final(cache)@ == old(cache)@
            &&& payload@.len() > 0 && n < 262144 && n + payload@.len() > 65535 ==> (result
                matches Err(error) && error == CacheError::Full) && final(cache)@ == old(cache)@
            &&& payload@.len() > 0 && n + payload@.len() <= 65535 ==> {
                &&& final(cache)@ == old(cache)@.received(sequence, payload@)
                &&& result matches Ok(bytes) && match bytes {
                    Some(bytes) => bytes@ == released && released.len() > 0,
                    None => released.len() == 0,
                }
            }
        }),
{
}

} // verus!
