//! The fixed-capacity byte queue behind the serial interface.
//!
//! Storage and index arithmetic are those of `rbf::RingBuffer`. Verus does
//! not look inside that type: what its methods do is stated here, on trust,
//! over the sequence of bytes that a buffer holds. `ByteBuffer` adds the one
//! thing that is proved on top of that: the sequence never outgrows the
//! capacity.

use vstd::prelude::*;

verus! {

/// How many bytes a `ByteBuffer` holds at most.
pub const BUFFER_CAPACITY: usize = 256;

/// Declares `rbf::RingBuffer` to Verus as a type whose inside it does not see.
#[verifier::external_type_specification]
#[verifier::external_body]
#[verifier::reject_recursive_types(T)]
pub struct ExRingBuffer<T, const SIZE: usize>(rbf::RingBuffer<T, SIZE>);

/// The bytes that a ring buffer holds, oldest first.
pub uninterp spec fn ring_contents(ring: rbf::RingBuffer<u8, 256>) -> Seq<u8>;

/// `RingBuffer::default()`: a buffer that holds nothing.
#[verifier::external_body]
fn ring_new() -> (ring: rbf::RingBuffer<u8, 256>)
    ensures
        ring_contents(ring) == Seq::<u8>::empty(),
{
    rbf::RingBuffer::default()
}

/// `RingBuffer::len`: the number of elements held.
#[verifier::external_body]
fn ring_len(ring: &rbf::RingBuffer<u8, 256>) -> (n: usize)
    ensures
        n == ring_contents(*ring).len(),
{
    ring.len()
}

/// `RingBuffer::pop`: takes the oldest element out and returns it; on an
/// empty buffer it returns `None` and changes nothing. It does not panic.
#[verifier::external_body]
fn ring_pop(ring: &mut rbf::RingBuffer<u8, 256>) -> (popped: Option<u8>)
    ensures
        ring_contents(*old(ring)).len() == 0 ==> popped is None && ring_contents(*final(ring))
            == ring_contents(*old(ring)),
        ring_contents(*old(ring)).len() > 0 ==> popped == Some(ring_contents(*old(ring))[0])
            && ring_contents(*final(ring)) == ring_contents(*old(ring)).skip(1),
    no_unwind
{
    ring.pop()
}

/// `RingBuffer::push_overwrite`: appends an element. A buffer that already
/// holds as many elements as it has room for gives up its oldest element,
/// which is returned; otherwise `None` is returned. It does not panic.
#[verifier::external_body]
fn ring_push_overwrite(ring: &mut rbf::RingBuffer<u8, 256>, byte: u8) -> (evicted: Option<u8>)
    ensures
        ring_contents(*old(ring)).len() != 256 ==> evicted is None && ring_contents(*final(ring))
            == ring_contents(*old(ring)).push(byte),
        ring_contents(*old(ring)).len() == 256 ==> evicted == Some(ring_contents(*old(ring))[0])
            && ring_contents(*final(ring)) == ring_contents(*old(ring)).skip(1).push(byte),
    no_unwind
{
    ring.push_overwrite(byte)
}

/// A queue of at most `BUFFER_CAPACITY` bytes, first in, first out, in one
/// fixed array.
pub struct ByteBuffer {
    ring: rbf::RingBuffer<u8, 256>,
}

impl ByteBuffer {
    #[verifier::type_invariant]
    spec fn within_capacity(&self) -> bool {
        ring_contents(self.ring).len() <= BUFFER_CAPACITY
    }

    /// The bytes held, oldest first.
    pub closed spec fn view(&self) -> Seq<u8> {
        ring_contents(self.ring)
    }

    /// An empty buffer.
    pub fn new() -> (buffer: Self)
        ensures
            buffer@ == Seq::<u8>::empty(),
    {
        ByteBuffer { ring: ring_new() }
    }

    /// The number of bytes held.
    pub fn len(&self) -> (n: usize)
        ensures
            n == self@.len(),
            n <= BUFFER_CAPACITY,
    {
        proof {
            use_type_invariant(self);
        }
        ring_len(&self.ring)
    }

    /// Takes the oldest byte out, if there is one.
    pub fn pop(&mut self) -> (popped: Option<u8>)
        ensures
            old(self)@.len() == 0 ==> popped is None && final(self)@ == old(self)@,
            old(self)@.len() > 0 ==> popped == Some(old(self)@[0]) && final(self)@ == old(
                self,
            )@.skip(1),
    {
        proof {
            use_type_invariant(&*self);
        }
        ring_pop(&mut self.ring)
    }

    /// Appends a byte. A full buffer makes room by giving up its oldest
    /// byte, which is returned.
    pub fn push_overwrite(&mut self, byte: u8) -> (evicted: Option<u8>)
        ensures
            old(self)@.len() < BUFFER_CAPACITY ==> evicted is None && final(self)@ == old(
                self,
            )@.push(byte),
            old(self)@.len() >= BUFFER_CAPACITY ==> evicted == Some(old(self)@[0]) && final(self)@
                == old(self)@.skip(1).push(byte),
    {
        proof {
            use_type_invariant(&*self);
        }
        ring_push_overwrite(&mut self.ring, byte)
    }
}

} // verus!
