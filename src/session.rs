use vstd::prelude::*;

use crate::dispatcher::{handed_while_live, initial_view, law_tap_fidelity, run, tap_bytes, EventView, Source};
use crate::pump::{fresh_pump, law_transparency, pump_run, stream, Direction, PumpEventView};

verus! {

/// The side of a fork that a process stands on.
#[derive(Clone, Copy, Debug, PartialEq, Eq, Structural)]
pub enum Role {
    /// The child, which runs the command.
    Child,
    /// The parent, which proxies the child's terminal.
    Parent,
}

/// The role of a process, from the pid that the fork handed back to it:
/// zero in the child.
pub fn role_of(pid: i32) -> (r: Role)
    ensures
        r == Role::Child <==> pid == 0,
        r == Role::Parent <==> pid != 0,
{
    if pid == 0 {
        Role::Child
    } else {
        Role::Parent
    }
}

/// The tap that a pump fills.
pub open spec fn tap_of(direction: Direction) -> Source {
    match direction {
        Direction::Input => Source::InputTap,
        Direction::Output => Source::OutputTap,
    }
}

/// End-to-end fidelity of one direction. A pump reads `reads` and forwards
/// what it decides to its destination and, byte for byte, to its tap; a
/// tap is a pipe, so the dispatcher reads back from it what was written, in
/// order. Then the hook of that direction receives, in order and unchanged,
/// the very bytes that were read before the stream ended, and those are the
/// bytes written to the destination.
pub proof fn law_end_to_end(direction: Direction, reads: Seq<PumpEventView>, es: Seq<EventView>)
    requires
        handed_while_live(initial_view(), es),
        tap_bytes(es, tap_of(direction)) == pump_run(fresh_pump(direction), reads).forwarded,
    ensures
        pump_run(fresh_pump(direction), reads).forwarded == stream(reads),
        direction == Direction::Input ==> run(initial_view(), es).input_calls.flatten() == stream(
            reads,
        ),
        direction == Direction::Output ==> run(initial_view(), es).output_calls.flatten() == stream(
            reads,
        ),
{
    law_transparency(direction, reads);
    law_tap_fidelity(es);
}

} // verus!
