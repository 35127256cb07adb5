use vstd::prelude::*;
use nix::poll::PollFlags;

verus! {

/// Whether `revents`, the event bits that a poll gave back for a descriptor,
/// say that there is data to read.
pub open spec fn readable(revents: i16) -> bool {
    revents & 1 == 1
}

/// Calls `nix::poll::PollFlags::contains` with `PollFlags::POLLIN`. The
/// contract claims that `POLLIN` is the lowest bit of a poll's event bits,
/// and that `contains` tests that bit and no other.
#[verifier::external_body]
fn contains_pollin(revents: i16) -> (r: bool)
    ensures
        r == readable(revents),
{
    PollFlags::from_bits_truncate(revents).contains(PollFlags::POLLIN)
}

/// What is to be done when the wait for events is over.
#[derive(Clone, Copy, Debug, PartialEq, Eq, Structural)]
pub enum WakeOp {
    /// Read what the compositor sent.
    ReadEvents,
    /// Let the events that were read be handled.
    DispatchPending,
    /// Take one byte out of the pipe by which a redraw was asked for.
    DrainPipe,
}

/// What is to be done for the event bits of the compositor's socket and of
/// the pipe: a readable socket is read and its events are handled, then a
/// readable pipe gives up one byte.
pub open spec fn wake_ops(display: i16, pipe: i16) -> Seq<WakeOp> {
    (if readable(display) {
        seq![WakeOp::ReadEvents, WakeOp::DispatchPending]
    } else {
        Seq::empty()
    }) + (if readable(pipe) {
        seq![WakeOp::DrainPipe]
    } else {
        Seq::empty()
    })
}

/// What is to be done for the event bits that a poll gave back.
pub fn woken(display: i16, pipe: i16) -> (ops: Vec<WakeOp>)
    ensures
        ops@ == wake_ops(display, pipe),
{
    let mut ops: Vec<WakeOp> = Vec::new();
    if contains_pollin(display) {
        ops.push(WakeOp::ReadEvents);
        ops.push(WakeOp::DispatchPending);
    }
    if contains_pollin(pipe) {
        ops.push(WakeOp::DrainPipe);
    }
    ops
}

/// Just a socket whose lowest event bit is set is read, and its events are
/// handled right after that. Just a pipe whose lowest event bit is set gives up
/// a byte, which comes last. Neither depends on the other, and nothing is done
/// twice.
pub proof fn law_woken_by_what_is_readable(display: i16, pipe: i16)
    ensures
        ({
            let ops = wake_ops(display, pipe);
            let read = display & 1 == 1;
            let drain = pipe & 1 == 1;
            &&& ops.len() == (if read {
                2int
            } else {
                0
            }) + (if drain {
                1int
            } else {
                0
            })
            &&& read ==> ops[0] == WakeOp::ReadEvents && ops[1] == WakeOp::DispatchPending
            &&& drain ==> ops.last() == WakeOp::DrainPipe
        }),
{
}

} // verus!
