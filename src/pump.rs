use vstd::prelude::*;

verus! {

/// Bytes read at once from the real standard input.
pub const INPUT_READ: usize = 128;

/// Bytes read at once from the child's terminal.
pub const OUTPUT_READ: usize = 10240;

/// Which way a pump moves bytes: from the real standard input to the child,
/// or from the child to the real standard output.
#[derive(Clone, Copy, Debug, PartialEq, Eq, Structural)]
pub enum Direction {
    Input,
    Output,
}

/// A pump reads until its stream ends or fails.
#[derive(Clone, Copy, Debug, PartialEq, Eq, Structural)]
pub enum PumpState {
    Reading,
    Finished,
    Aborted,
}

/// What one blocking read, or the writes after it, came to.
#[derive(Debug)]
pub enum PumpEvent {
    /// The read returned these bytes; none means the end of the stream.
    Read(Vec<u8>),
    /// A read or a write failed.
    Failed,
}

/// A pump event as the contracts see it: bytes as a sequence.
pub enum PumpEventView {
    Read(Seq<u8>),
    Failed,
}

impl View for PumpEvent {
    type V = PumpEventView;

    open spec fn view(&self) -> PumpEventView {
        match self {
            PumpEvent::Read(b) => PumpEventView::Read(b@),
            PumpEvent::Failed => PumpEventView::Failed,
        }
    }
}

/// What the pump's thread does next.
#[derive(Debug)]
pub enum PumpAction {
    /// Write the bytes to the destination, flushing the real standard
    /// output, then write the same bytes to the tap; then read again.
    Forward(Vec<u8>),
    /// The child closed its terminal: tell the dispatcher to shut down, once.
    RaiseShutdown,
    /// Stop reading.
    Stop,
    /// The error is fatal: report it and end the process.
    Abort,
}

/// A pump's state, with a record of what it handed out.
pub struct PumpView {
    pub direction: Direction,
    pub state: PumpState,
    /// Every byte handed out for forwarding, in order.
    pub forwarded: Seq<u8>,
    /// How many times the pump asked to raise the shutdown notification.
    pub shutdowns_raised: nat,
}

/// A pump that has read nothing yet.
pub open spec fn fresh_pump(direction: Direction) -> PumpView {
    PumpView { direction, state: PumpState::Reading, forwarded: Seq::empty(), shutdowns_raised: 0 }
}

/// The state after one event.
pub open spec fn pump_next(v: PumpView, e: PumpEventView) -> PumpView {
    if v.state != PumpState::Reading {
        v
    } else {
        match e {
            PumpEventView::Read(b) => if b.len() > 0 {
                PumpView { forwarded: v.forwarded + b, ..v }
            } else if v.direction == Direction::Output {
                PumpView {
                    state: PumpState::Finished,
                    shutdowns_raised: v.shutdowns_raised + 1,
                    ..v
                }
            } else {
                PumpView { state: PumpState::Finished, ..v }
            },
            PumpEventView::Failed => PumpView { state: PumpState::Aborted, ..v },
        }
    }
}

/// The state after the events `es`, handed over in order.
pub open spec fn pump_run(v: PumpView, es: Seq<PumpEventView>) -> PumpView
    decreases es.len(),
{
    if es.len() == 0 {
        v
    } else {
        pump_run(pump_next(v, es[0]), es.drop_first())
    }
}

/// The bytes of the reads in `es` up to the first empty read or failure.
pub open spec fn stream(es: Seq<PumpEventView>) -> Seq<u8>
    decreases es.len(),
{
    if es.len() == 0 {
        Seq::empty()
    } else {
        match es[0] {
            PumpEventView::Read(b) => if b.len() > 0 {
                b + stream(es.drop_first())
            } else {
                Seq::empty()
            },
            PumpEventView::Failed => Seq::empty(),
        }
    }
}

/// `es` holds an empty read before any failure.
pub open spec fn ends_cleanly(es: Seq<PumpEventView>) -> bool
    decreases es.len(),
{
    if es.len() == 0 {
        false
    } else {
        match es[0] {
            PumpEventView::Read(b) => b.len() == 0 || ends_cleanly(es.drop_first()),
            PumpEventView::Failed => false,
        }
    }
}

/// The decisions of one forwarding thread: what to do with each read.
pub struct Pump {
    direction: Direction,
    state: PumpState,
    forwarded: Ghost<Seq<u8>>,
    shutdowns_raised: Ghost<nat>,
}

impl View for Pump {
    type V = PumpView;

    closed spec fn view(&self) -> PumpView {
        PumpView {
            direction: self.direction,
            state: self.state,
            forwarded: self.forwarded@,
            shutdowns_raised: self.shutdowns_raised@,
        }
    }
}

impl Pump {
    /// A pump about to make its first read.
    pub fn new(direction: Direction) -> (r: Pump)
        ensures
            r@ == fresh_pump(direction),
    {
        Pump {
            direction,
            state: PumpState::Reading,
            forwarded: Ghost(Seq::empty()),
            shutdowns_raised: Ghost(0),
        }
    }

    /// Whether the pump still reads, or how it ended.
    pub fn state(&self) -> (r: PumpState)
        ensures
            r == self@.state,
    {
        self.state
    }

    /// How many bytes one read asks for.
    pub fn buffer_len(&self) -> (r: usize)
        ensures
            self@.direction == Direction::Input ==> r == INPUT_READ,
            self@.direction == Direction::Output ==> r == OUTPUT_READ,
    {
        match self.direction {
            Direction::Input => INPUT_READ,
            Direction::Output => OUTPUT_READ,
        }
    }

    /// Decides what follows a read. Bytes are forwarded unchanged; an empty
    /// read ends the pump, and ends the session where it came from the
    /// child; a failure is fatal. A pump that has ended only asks to stop.
    pub fn step(&mut self, event: PumpEvent) -> (r: PumpAction)
        ensures
            final(self)@ == pump_next(old(self)@, event@),
            old(self)@.state != PumpState::Reading ==> r is Stop,
            old(self)@.state == PumpState::Reading ==> match event@ {
                PumpEventView::Read(b) => if b.len() > 0 {
                    r matches PumpAction::Forward(out) && out@ == b
                } else if old(self)@.direction == Direction::Output {
                    r is RaiseShutdown
                } else {
                    r is Stop
                },
                PumpEventView::Failed => r is Abort,
            },
    {
        if self.state != PumpState::Reading {
            return PumpAction::Stop;
        }
        match event {
            PumpEvent::Read(data) => {
                if data.len() > 0 {
                    proof {
                        self.forwarded@ = self.forwarded@ + data@;
                    }
                    PumpAction::Forward(data)
                } else {
                    self.state = PumpState::Finished;
                    match self.direction {
                        Direction::Output => {
                            proof {
                                self.shutdowns_raised@ = self.shutdowns_raised@ + 1;
                            }
                            PumpAction::RaiseShutdown
                        },
                        Direction::Input => PumpAction::Stop,
                    }
                }
            },
            PumpEvent::Failed => {
                self.state = PumpState::Aborted;
                PumpAction::Abort
            },
        }
    }
}

proof fn lemma_pump_run(v: PumpView, es: Seq<PumpEventView>)
    requires
        v.shutdowns_raised <= 1,
        v.state == PumpState::Reading ==> v.shutdowns_raised == 0,
    ensures
        v.state == PumpState::Reading ==> pump_run(v, es).forwarded == v.forwarded + stream(es),
        v.state != PumpState::Reading ==> pump_run(v, es) == v,
        v.state == PumpState::Reading ==> pump_run(v, es).shutdowns_raised
            == (if v.direction == Direction::Output && ends_cleanly(es) { 1nat } else { 0nat }),
    decreases es.len(),
{
    if es.len() == 0 {
        assert(v.forwarded + Seq::<u8>::empty() =~= v.forwarded);
    } else {
        let w = pump_next(v, es[0]);
        lemma_pump_run(w, es.drop_first());
        if let PumpEventView::Read(b) = es[0] {
            assert(v.forwarded + b + stream(es.drop_first()) =~= v.forwarded + (b + stream(
                es.drop_first(),
            )));
        }
        if v.state == PumpState::Reading && w.state != PumpState::Reading {
            assert(v.forwarded + stream(es) =~= v.forwarded);
        }
    }
}

/// Transparency: whatever a pump reads, the bytes it hands out for
/// forwarding are, in order and unchanged, those it read before the stream
/// ended or failed; the output pump asks to raise the shutdown notification
/// exactly once if its stream ended, and never otherwise.
pub proof fn law_transparency(direction: Direction, es: Seq<PumpEventView>)
    ensures
        pump_run(fresh_pump(direction), es).forwarded == stream(es),
        pump_run(fresh_pump(direction), es).shutdowns_raised == (if direction == Direction::Output
            && ends_cleanly(es) { 1nat } else { 0nat }),
{
    lemma_pump_run(fresh_pump(direction), es);
    assert(Seq::<u8>::empty() + stream(es) =~= stream(es));
}

} // verus!
