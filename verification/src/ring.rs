//! Trusted view of the audio-side ring buffers.
//!
//! The latency ring buffer (samples between capture and playback) and the
//! pending-command buffer (commands handed from the capture drain to the
//! playback drain) are fixed-capacity FIFO rings of an outside crate,
//! held in opaque wrapper structs. Both are owned by the audio engine
//! alone, so their contents can be tracked exactly: each is named as a
//! sequence together with its fixed bound.

use vstd::prelude::*;

use ringbuf::Rb;

use crate::commands::ToAudio;

verus! {

/// A fixed-capacity FIFO ring of Q16 samples, backed by ringbuf::HeapRb.
#[verifier::external_body]
pub struct SampleRing {
    rb: ringbuf::HeapRb<i32>,
}

/// A fixed-capacity FIFO ring of commands, backed by ringbuf::HeapRb.
#[verifier::external_body]
pub struct CommandRing {
    rb: ringbuf::HeapRb<ToAudio>,
}

/// The samples stored in a latency ring, oldest first.
pub uninterp spec fn rb_samples(rb: SampleRing) -> Seq<i32>;

/// The fixed capacity a latency ring was created with.
pub uninterp spec fn rb_samples_bound(rb: SampleRing) -> nat;

/// The commands stored in a pending-command ring, oldest first.
pub uninterp spec fn rb_commands(rb: CommandRing) -> Seq<ToAudio>;

/// The fixed capacity a pending-command ring was created with.
pub uninterp spec fn rb_commands_bound(rb: CommandRing) -> nat;

/// Relies on ringbuf's SharedRb::new: an empty ring buffer whose capacity
/// is fixed at creation (a zero capacity would panic).
#[verifier::external_body]
pub(crate) fn rb_new_samples(cap: usize) -> (rb: SampleRing)
    requires
        1 <= cap,
    ensures
        rb_samples(rb) == Seq::<i32>::empty(),
        rb_samples_bound(rb) == cap,
{
    SampleRing { rb: ringbuf::HeapRb::new(cap) }
}

/// Relies on ringbuf's Rb::push: appends the item if the ring is not
/// full, and otherwise leaves the ring unchanged and reports failure.
#[verifier::external_body]
pub(crate) fn rb_push_sample(rb: &mut SampleRing, v: i32) -> (ok: bool)
    ensures
        rb_samples_bound(*final(rb)) == rb_samples_bound(*old(rb)),
        rb_samples(*old(rb)).len() < rb_samples_bound(*old(rb)) ==> ok && rb_samples(*final(rb))
            == rb_samples(*old(rb)).push(v),
        rb_samples(*old(rb)).len() >= rb_samples_bound(*old(rb)) ==> !ok && rb_samples(*final(rb))
            == rb_samples(*old(rb)),
{
    rb.rb.push(v).is_ok()
}

/// Relies on ringbuf's Rb::pop: removes and returns the oldest item, or
/// nothing when the ring is empty.
#[verifier::external_body]
pub(crate) fn rb_pop_sample(rb: &mut SampleRing) -> (r: Option<i32>)
    ensures
        rb_samples_bound(*final(rb)) == rb_samples_bound(*old(rb)),
        match r {
            Some(v) => {
                &&& rb_samples(*old(rb)).len() > 0
                &&& v == rb_samples(*old(rb))[0]
                &&& rb_samples(*final(rb)) == rb_samples(*old(rb)).drop_first()
            },
            None => {
                &&& rb_samples(*old(rb)).len() == 0
                &&& rb_samples(*final(rb)) == rb_samples(*old(rb))
            },
        },
{
    rb.rb.pop()
}

/// Relies on ringbuf's SharedRb::new, as `rb_new_samples` does.
#[verifier::external_body]
pub(crate) fn rb_new_commands(cap: usize) -> (rb: CommandRing)
    requires
        1 <= cap,
    ensures
        rb_commands(rb) == Seq::<ToAudio>::empty(),
        rb_commands_bound(rb) == cap,
{
    CommandRing { rb: ringbuf::HeapRb::new(cap) }
}

/// Relies on ringbuf's Rb::push, as `rb_push_sample` does.
#[verifier::external_body]
pub(crate) fn rb_push_command(rb: &mut CommandRing, c: ToAudio) -> (ok: bool)
    ensures
        rb_commands_bound(*final(rb)) == rb_commands_bound(*old(rb)),
        rb_commands(*old(rb)).len() < rb_commands_bound(*old(rb)) ==> ok && rb_commands(*final(rb))
            == rb_commands(*old(rb)).push(c),
        rb_commands(*old(rb)).len() >= rb_commands_bound(*old(rb)) ==> !ok && rb_commands(
            *final(rb)) == rb_commands(*old(rb)),
{
    rb.rb.push(c).is_ok()
}

/// Relies on ringbuf's Rb::pop, as `rb_pop_sample` does.
#[verifier::external_body]
pub(crate) fn rb_pop_command(rb: &mut CommandRing) -> (r: Option<ToAudio>)
    ensures
        rb_commands_bound(*final(rb)) == rb_commands_bound(*old(rb)),
        match r {
            Some(c) => {
                &&& rb_commands(*old(rb)).len() > 0
                &&& c == rb_commands(*old(rb))[0]
                &&& rb_commands(*final(rb)) == rb_commands(*old(rb)).drop_first()
            },
            None => {
                &&& rb_commands(*old(rb)).len() == 0
                &&& rb_commands(*final(rb)) == rb_commands(*old(rb))
            },
        },
{
    rb.rb.pop()
}

} // verus!
