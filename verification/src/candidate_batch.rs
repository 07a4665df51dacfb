//! The batch of packets that is handed to the processing step at once.

use vstd::prelude::*;
use std::sync::Arc;
use arrayvec::ArrayVec;
use crate::packet::ImmutableDeserializedPacket;

verus! {

/// The most packets that are handed to the processing step at once.
pub const UNPROCESSED_BUFFER_STEP_SIZE: usize = 64;

/// `arrayvec::ArrayVec`: a vector of at most `CAP` items that lives where it is
/// declared. Nothing is known of what it holds but through
/// [`array_vec_packets`].
#[verifier::external_type_specification]
#[verifier::external_body]
#[verifier::reject_recursive_types(T)]
pub struct ExArrayVec<T, const CAP: usize>(ArrayVec<T, CAP>);

/// The packets that an `ArrayVec` of packets holds, first pushed first.
pub uninterp spec fn array_vec_packets(packets: ArrayVec<Arc<ImmutableDeserializedPacket>, 64>) -> Seq<
    Arc<ImmutableDeserializedPacket>,
>;

/// `ArrayVec::new`: a vector that holds nothing.
#[verifier::external_body]
fn array_vec_new() -> (packets: ArrayVec<Arc<ImmutableDeserializedPacket>, 64>)
    ensures
        array_vec_packets(packets) == Seq::<Arc<ImmutableDeserializedPacket>>::empty(),
{
    ArrayVec::new()
}

/// `ArrayVec::clear`: removes every packet.
#[verifier::external_body]
fn array_vec_clear(packets: &mut ArrayVec<Arc<ImmutableDeserializedPacket>, 64>)
    ensures
        array_vec_packets(*final(packets)) == Seq::<Arc<ImmutableDeserializedPacket>>::empty(),
{
    packets.clear()
}

/// `ArrayVec::push`: adds a packet at the end. The outside function panics on
/// a full vector, so the vector must hold fewer packets than its capacity.
#[verifier::external_body]
fn array_vec_push(
    packets: &mut ArrayVec<Arc<ImmutableDeserializedPacket>, 64>,
    packet: Arc<ImmutableDeserializedPacket>,
)
    requires
        array_vec_packets(*old(packets)).len() < 64,
    ensures
        array_vec_packets(*final(packets)) == array_vec_packets(*old(packets)).push(packet),
{
    packets.push(packet)
}

/// `ArrayVec::len`: the number of packets held, which never exceeds the
/// capacity.
#[verifier::external_body]
fn array_vec_len(packets: &ArrayVec<Arc<ImmutableDeserializedPacket>, 64>) -> (len: usize)
    ensures
        len == array_vec_packets(*packets).len(),
        len <= 64,
{
    packets.len()
}

/// Indexing an `ArrayVec` through the slice it dereferences to: the packet
/// at position `index`. It panics past the end, so the index must be in range.
#[verifier::external_body]
fn array_vec_index(packets: &ArrayVec<Arc<ImmutableDeserializedPacket>, 64>, index: usize) -> (packet:
    &Arc<ImmutableDeserializedPacket>)
    requires
        index < array_vec_packets(*packets).len(),
    ensures
        *packet == array_vec_packets(*packets)[index as int],
{
    &packets[index]
}

/// `ArrayVec::drain` over the full range, collected: takes every packet out,
/// in order.
#[verifier::external_body]
fn array_vec_drain(packets: &mut ArrayVec<Arc<ImmutableDeserializedPacket>, 64>) -> (drained: Vec<
    Arc<ImmutableDeserializedPacket>,
>)
    ensures
        drained@ == array_vec_packets(*old(packets)),
        array_vec_packets(*final(packets)) == Seq::<Arc<ImmutableDeserializedPacket>>::empty(),
{
    packets.drain(..).collect()
}

/// The packets that wait in one batch for the processing step, at most
/// [`UNPROCESSED_BUFFER_STEP_SIZE`] of them. The position of a packet in the
/// batch is the index by which the step names it.
pub struct CandidateBatch {
    packets: ArrayVec<Arc<ImmutableDeserializedPacket>, 64>,
}

impl View for CandidateBatch {
    type V = Seq<Arc<ImmutableDeserializedPacket>>;

    closed spec fn view(&self) -> Seq<Arc<ImmutableDeserializedPacket>> {
        array_vec_packets(self.packets)
    }
}

impl CandidateBatch {
    /// An empty batch.
    pub fn new() -> (batch: Self)
        ensures
            batch@ == Seq::<Arc<ImmutableDeserializedPacket>>::empty(),
    {
        CandidateBatch { packets: array_vec_new() }
    }

    /// The number of packets in the batch.
    pub fn len(&self) -> (len: usize)
        ensures
            len == self@.len(),
            len <= UNPROCESSED_BUFFER_STEP_SIZE,
    {
        array_vec_len(&self.packets)
    }

    /// Whether the batch holds as many packets as it can.
    pub fn is_full(&self) -> (full: bool)
        ensures
            full == (self@.len() >= UNPROCESSED_BUFFER_STEP_SIZE),
    {
        array_vec_len(&self.packets) >= UNPROCESSED_BUFFER_STEP_SIZE
    }

    /// Removes every packet.
    pub fn clear(&mut self)
        ensures
            final(self)@ == Seq::<Arc<ImmutableDeserializedPacket>>::empty(),
    {
        array_vec_clear(&mut self.packets);
    }

    /// Adds a packet at the end of a batch that is not full.
    pub fn push(&mut self, packet: Arc<ImmutableDeserializedPacket>)
        requires
            old(self)@.len() < UNPROCESSED_BUFFER_STEP_SIZE,
        ensures
            final(self)@ == old(self)@.push(packet),
    {
        array_vec_push(&mut self.packets, packet);
    }

    /// The packet at position `index`, which must be in the batch.
    pub fn get(&self, index: usize) -> (packet: &Arc<ImmutableDeserializedPacket>)
        requires
            index < self@.len(),
        ensures
            *packet == self@[index as int],
    {
        array_vec_index(&self.packets, index)
    }

    /// Takes every packet out of the batch, in order.
    pub fn drain(&mut self) -> (packets: Vec<Arc<ImmutableDeserializedPacket>>)
        ensures
            packets@ == old(self)@,
            final(self)@ == Seq::<Arc<ImmutableDeserializedPacket>>::empty(),
    {
        array_vec_drain(&mut self.packets)
    }
}

} // verus!
