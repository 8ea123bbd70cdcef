use vstd::prelude::*;

use crate::handler::PtyHandler;
use crate::pump::{INPUT_READ, OUTPUT_READ};
use crate::winsize::Winsize;

verus! {

/// The two taps that the dispatcher reads.
#[derive(Clone, Copy, Debug, PartialEq, Eq, Structural)]
pub enum Source {
    InputTap,
    OutputTap,
}

/// Messages that reach the dispatcher from outside its taps.
#[derive(Clone, Copy, Debug, PartialEq, Eq, Structural)]
pub enum Notification {
    ResizeOccurred,
    Shutdown,
}

/// Where the dispatcher stands: it runs, it empties its taps after a
/// shutdown, or it has stopped for good.
#[derive(Clone, Copy, Debug, PartialEq, Eq, Structural)]
pub enum Phase {
    Running,
    Draining,
    Stopped,
}

/// What the event loop hands to the dispatcher.
#[derive(Debug)]
pub enum Event {
    /// Bytes read from a tap that was ready.
    Readable(Source, Vec<u8>),
    Notified(Notification),
    /// Every source that was ready in this wait has been handed over.
    EndOfBatch,
    /// The terminal was queried and its size applied to the child's terminal.
    Resized(Winsize),
}

/// What the event loop does next.
#[derive(Clone, Copy, Debug, PartialEq, Eq, Structural)]
pub enum Action {
    /// Go on: hand over the rest of the batch, or wait for readiness.
    Continue,
    /// Query the terminal's size, apply it to the child's terminal, and hand
    /// the size back as `Event::Resized`.
    QueryWindow,
    /// Read what is left in both taps without blocking, hand it over, then
    /// hand over `Event::EndOfBatch`.
    DrainTaps,
    /// Unregister every source and return.
    Stop,
}

/// An event as the contracts see it: bytes as a sequence.
pub enum EventView {
    Readable(Source, Seq<u8>),
    Notified(Notification),
    EndOfBatch,
    Resized(Winsize),
}

impl View for Event {
    type V = EventView;

    open spec fn view(&self) -> EventView {
        match self {
            Event::Readable(s, b) => EventView::Readable(*s, b@),
            Event::Notified(n) => EventView::Notified(*n),
            Event::EndOfBatch => EventView::EndOfBatch,
            Event::Resized(w) => EventView::Resized(*w),
        }
    }
}

/// The dispatcher's state, with a record of every hook it called.
pub struct DispatcherView {
    pub phase: Phase,
    /// A resize was notified and no query of the window has followed yet.
    pub resize_pending: bool,
    /// The size last applied to the child's terminal, if any.
    pub pty_size: Option<Winsize>,
    /// Bytes taken from each tap, in order.
    pub input_seen: Seq<u8>,
    pub output_seen: Seq<u8>,
    /// The argument of each call of `input` and `output`, in order.
    pub input_calls: Seq<Seq<u8>>,
    pub output_calls: Seq<Seq<u8>>,
    /// The argument of each call of `resize`, in order.
    pub resizes: Seq<Winsize>,
    /// How many times `shutdown` was called.
    pub shutdowns: nat,
}

/// The largest piece handed to a hook for `source`: the read size of the
/// pump that fills that tap.
pub open spec fn chunk_limit(source: Source) -> nat {
    match source {
        Source::InputTap => INPUT_READ as nat,
        Source::OutputTap => OUTPUT_READ as nat,
    }
}

/// `s` cut into consecutive pieces of `n` bytes, the last one possibly shorter.
pub open spec fn chunks(s: Seq<u8>, n: nat) -> Seq<Seq<u8>>
    decreases s.len(),
{
    if s.len() == 0 || n == 0 {
        Seq::empty()
    } else if s.len() <= n {
        seq![s]
    } else {
        seq![s.take(n as int)] + chunks(s.skip(n as int), n)
    }
}

/// Every piece is non-empty and at most `n` bytes long.
pub open spec fn bounded_pieces(calls: Seq<Seq<u8>>, n: nat) -> bool {
    forall|i: int| 0 <= i < calls.len() ==> 0 < #[trigger] calls[i].len() <= n
}

/// What holds of every dispatcher: the pieces handed to each hook join up
/// to the bytes taken from its tap, no piece is empty or longer than the
/// tap's read size, and `shutdown` was called at most once, exactly when the
/// dispatcher has stopped.
pub open spec fn wf_view(v: DispatcherView) -> bool {
    &&& v.input_calls.flatten() == v.input_seen
    &&& v.output_calls.flatten() == v.output_seen
    &&& bounded_pieces(v.input_calls, INPUT_READ as nat)
    &&& bounded_pieces(v.output_calls, OUTPUT_READ as nat)
    &&& v.shutdowns <= 1
    &&& (v.shutdowns == 1 <==> v.phase == Phase::Stopped)
}

/// A fresh dispatcher: running, with nothing seen and no hook called.
pub open spec fn initial_view() -> DispatcherView {
    DispatcherView {
        phase: Phase::Running,
        resize_pending: false,
        pty_size: None,
        input_seen: Seq::empty(),
        output_seen: Seq::empty(),
        input_calls: Seq::empty(),
        output_calls: Seq::empty(),
        resizes: Seq::empty(),
        shutdowns: 0,
    }
}

/// `v` after the bytes `b` of tap `source` were handed to the hooks.
pub open spec fn deliver(v: DispatcherView, source: Source, b: Seq<u8>) -> DispatcherView {
    match source {
        Source::InputTap => DispatcherView {
            input_seen: v.input_seen + b,
            input_calls: v.input_calls + chunks(b, chunk_limit(source)),
            ..v
        },
        Source::OutputTap => DispatcherView {
            output_seen: v.output_seen + b,
            output_calls: v.output_calls + chunks(b, chunk_limit(source)),
            ..v
        },
    }
}

/// One step of the dispatcher: its next state and the action it asks for.
pub open spec fn next(v: DispatcherView, e: EventView) -> (DispatcherView, Action) {
    if v.phase == Phase::Stopped {
        (v, Action::Stop)
    } else {
        match e {
            EventView::Readable(source, b) => (deliver(v, source, b), Action::Continue),
            EventView::Notified(Notification::ResizeOccurred) => {
                if v.phase == Phase::Running {
                    (DispatcherView { resize_pending: true, ..v }, Action::Continue)
                } else {
                    (v, Action::Continue)
                }
            },
            EventView::Notified(Notification::Shutdown) => {
                if v.phase == Phase::Running {
                    (DispatcherView { phase: Phase::Draining, ..v }, Action::DrainTaps)
                } else {
                    (v, Action::Continue)
                }
            },
            EventView::EndOfBatch => {
                if v.phase == Phase::Draining {
                    (
                        DispatcherView {
                            phase: Phase::Stopped,
                            resize_pending: false,
                            shutdowns: v.shutdowns + 1,
                            ..v
                        },
                        Action::Stop,
                    )
                } else if v.resize_pending {
                    (DispatcherView { resize_pending: false, ..v }, Action::QueryWindow)
                } else {
                    (v, Action::Continue)
                }
            },
            EventView::Resized(w) => (
                DispatcherView { pty_size: Some(w), resizes: v.resizes.push(w), ..v },
                Action::Continue,
            ),
        }
    }
}

/// `v` after the events `es`, handed over in order.
pub open spec fn run(v: DispatcherView, es: Seq<EventView>) -> DispatcherView
    decreases es.len(),
{
    if es.len() == 0 {
        v
    } else {
        next(run(v, es.drop_last()), es.last()).0
    }
}

/// The bytes of tap `source` among the events `es`, in order.
pub open spec fn tap_bytes(es: Seq<EventView>, source: Source) -> Seq<u8>
    decreases es.len(),
{
    if es.len() == 0 {
        Seq::empty()
    } else {
        let rest = tap_bytes(es.drop_last(), source);
        match es.last() {
            EventView::Readable(s, b) => if s == source {
                rest + b
            } else {
                rest
            },
            _ => rest,
        }
    }
}

proof fn lemma_chunks(s: Seq<u8>, n: nat)
    requires
        n > 0,
    ensures
        chunks(s, n).flatten() == s,
        bounded_pieces(chunks(s, n), n),
    decreases s.len(),
{
    if s.len() == 0 {
    } else if s.len() <= n {
        seq![s].lemma_flatten_one_element();
    } else {
        let rest = s.skip(n as int);
        lemma_chunks(rest, n);
        let head: Seq<Seq<u8>> = seq![s.take(n as int)];
        vstd::seq_lib::lemma_flatten_concat(head, chunks(rest, n));
        head.lemma_flatten_one_element();
        assert(s.take(n as int) + rest =~= s);
        let c = chunks(s, n);
        assert forall|i: int| 0 <= i < c.len() implies 0 < #[trigger] c[i].len() <= n by {
            if i > 0 {
                assert(c[i] == chunks(rest, n)[i - 1]);
            }
        }
    }
}

/// The pieces of `s` from `start` on: the first one, then those after it.
proof fn lemma_chunks_from(s: Seq<u8>, start: int, n: nat)
    requires
        n > 0,
        0 <= start < s.len(),
    ensures
        s.len() - start <= n ==> chunks(s.skip(start), n) == seq![s.subrange(start, s.len() as int)],
        s.len() - start > n ==> chunks(s.skip(start), n) == seq![s.subrange(start, start + n)]
            + chunks(s.skip(start + n), n),
{
    let t = s.skip(start);
    if s.len() - start <= n {
        assert(t =~= s.subrange(start, s.len() as int));
    } else {
        assert(t.take(n as int) =~= s.subrange(start, start + n));
        assert(t.skip(n as int) =~= s.skip(start + n));
    }
}

proof fn lemma_deliver_wf(v: DispatcherView, source: Source, b: Seq<u8>)
    requires
        wf_view(v),
    ensures
        wf_view(deliver(v, source, b)),
{
    let c = chunks(b, chunk_limit(source));
    lemma_chunks(b, chunk_limit(source));
    match source {
        Source::InputTap => {
            vstd::seq_lib::lemma_flatten_concat(v.input_calls, c);
            let calls = v.input_calls + c;
            assert forall|i: int| 0 <= i < calls.len() implies 0 < #[trigger] calls[i].len()
                <= INPUT_READ as nat by {
                if i >= v.input_calls.len() {
                    assert(calls[i] == c[i - v.input_calls.len()]);
                }
            }
        },
        Source::OutputTap => {
            vstd::seq_lib::lemma_flatten_concat(v.output_calls, c);
            let calls = v.output_calls + c;
            assert forall|i: int| 0 <= i < calls.len() implies 0 < #[trigger] calls[i].len()
                <= OUTPUT_READ as nat by {
                if i >= v.output_calls.len() {
                    assert(calls[i] == c[i - v.output_calls.len()]);
                }
            }
        },
    }
}

proof fn lemma_next_wf(v: DispatcherView, e: EventView)
    requires
        wf_view(v),
    ensures
        wf_view(next(v, e).0),
{
    if v.phase != Phase::Stopped {
        if let EventView::Readable(source, b) = e {
            lemma_deliver_wf(v, source, b);
        }
    }
}

proof fn lemma_push_piece(calls: Seq<Seq<u8>>, piece: Seq<u8>, n: nat)
    requires
        bounded_pieces(calls, n),
        0 < piece.len() <= n,
    ensures
        calls.push(piece).flatten() == calls.flatten() + piece,
        bounded_pieces(calls.push(piece), n),
{
    vstd::seq_lib::lemma_flatten_concat(calls, seq![piece]);
    seq![piece].lemma_flatten_one_element();
    assert(calls + seq![piece] =~= calls.push(piece));
    assert forall|i: int| 0 <= i < calls.push(piece).len() implies 0 < #[trigger] calls.push(
        piece,
    )[i].len() <= n by {
        if i < calls.len() {
            assert(calls.push(piece)[i] == calls[i]);
        }
    }
}

/// The single-threaded loop that taps the session's two streams and turns
/// notifications into hook calls on a `PtyHandler`.
pub struct Dispatcher {
    phase: Phase,
    resize_pending: bool,
    pty_size: Option<Winsize>,
    input_seen: Ghost<Seq<u8>>,
    output_seen: Ghost<Seq<u8>>,
    input_calls: Ghost<Seq<Seq<u8>>>,
    output_calls: Ghost<Seq<Seq<u8>>>,
    resizes: Ghost<Seq<Winsize>>,
    shutdowns: Ghost<nat>,
}

impl View for Dispatcher {
    type V = DispatcherView;

    closed spec fn view(&self) -> DispatcherView {
        DispatcherView {
            phase: self.phase,
            resize_pending: self.resize_pending,
            pty_size: self.pty_size,
            input_seen: self.input_seen@,
            output_seen: self.output_seen@,
            input_calls: self.input_calls@,
            output_calls: self.output_calls@,
            resizes: self.resizes@,
            shutdowns: self.shutdowns@,
        }
    }
}

impl Dispatcher {
    #[verifier::type_invariant]
    spec fn inv(&self) -> bool {
        wf_view(self@)
    }

    /// A running dispatcher that has called no hook yet.
    pub fn new() -> (r: Dispatcher)
        ensures
            r@ == initial_view(),
    {
        let r = Dispatcher {
            phase: Phase::Running,
            resize_pending: false,
            pty_size: None,
            input_seen: Ghost(Seq::empty()),
            output_seen: Ghost(Seq::empty()),
            input_calls: Ghost(Seq::empty()),
            output_calls: Ghost(Seq::empty()),
            resizes: Ghost(Seq::empty()),
            shutdowns: Ghost(0),
        };
        proof {
            assert(r@.input_calls.flatten() == Seq::<u8>::empty());
            assert(r@.output_calls.flatten() == Seq::<u8>::empty());
        }
        r
    }

    /// Where the dispatcher stands.
    pub fn phase(&self) -> (r: Phase)
        ensures
            r == self@.phase,
    {
        self.phase
    }

    /// The size last applied to the child's terminal, if any.
    pub fn pty_size(&self) -> (r: Option<Winsize>)
        ensures
            r == self@.pty_size,
    {
        self.pty_size
    }

    /// Hands the bytes `data` of tap `source` to the matching hook, in pieces
    /// no longer than the pump that fills the tap reads at once.
    fn deliver<H: PtyHandler>(&mut self, handler: &mut H, source: Source, data: &Vec<u8>)
        ensures
            final(self)@ == deliver(old(self)@, source, data@),
    {
        let limit: usize = match source {
            Source::InputTap => INPUT_READ,
            Source::OutputTap => OUTPUT_READ,
        };
        let ghost n = chunk_limit(source);
        let ghost before = self@;
        let len = data.len();
        let mut start: usize = 0;
        proof {
            assert(data@.skip(0) =~= data@);
            assert(data@.take(0) =~= Seq::<u8>::empty());
            assert(before.input_seen + Seq::<u8>::empty() =~= before.input_seen);
            assert(before.output_seen + Seq::<u8>::empty() =~= before.output_seen);
        }
        while start < len
            invariant
                len == data@.len(),
                start <= len,
                limit == n,
                n == chunk_limit(source),
                source == Source::InputTap ==> {
                    &&& self@ == DispatcherView {
                        input_seen: self@.input_seen,
                        input_calls: self@.input_calls,
                        ..before
                    }
                    &&& self@.input_seen == before.input_seen + data@.take(start as int)
                    &&& self@.input_calls + chunks(data@.skip(start as int), n)
                        == before.input_calls + chunks(data@, n)
                },
                source == Source::OutputTap ==> {
                    &&& self@ == DispatcherView {
                        output_seen: self@.output_seen,
                        output_calls: self@.output_calls,
                        ..before
                    }
                    &&& self@.output_seen == before.output_seen + data@.take(start as int)
                    &&& self@.output_calls + chunks(data@.skip(start as int), n)
                        == before.output_calls + chunks(data@, n)
                },
            decreases len - start,
        {
            let end: usize = if len - start <= limit {
                len
            } else {
                start + limit
            };
            let piece = vstd::slice::slice_subrange(data.as_slice(), start, end);
            proof {
                lemma_chunks_from(data@, start as int, n);
            }
            match source {
                Source::InputTap => {
                    handler.input(piece);
                    proof {
                        use_type_invariant(&*self);
                        lemma_push_piece(self.input_calls@, piece@, INPUT_READ as nat);
                    }
                    *self = Dispatcher {
                        input_seen: Ghost(self.input_seen@ + piece@),
                        input_calls: Ghost(self.input_calls@.push(piece@)),
                        ..*self
                    };
                },
                Source::OutputTap => {
                    handler.output(piece);
                    proof {
                        use_type_invariant(&*self);
                        lemma_push_piece(self.output_calls@, piece@, OUTPUT_READ as nat);
                    }
                    *self = Dispatcher {
                        output_seen: Ghost(self.output_seen@ + piece@),
                        output_calls: Ghost(self.output_calls@.push(piece@)),
                        ..*self
                    };
                },
            }
            proof {
                assert(data@.take(start as int) + piece@ =~= data@.take(end as int));
                assert(before.input_seen + data@.take(start as int) + piece@
                    =~= before.input_seen + data@.take(end as int));
                assert(before.output_seen + data@.take(start as int) + piece@
                    =~= before.output_seen + data@.take(end as int));
            }
            start = end;
        }
        proof {
            assert(data@.take(len as int) =~= data@);
            assert(data@.skip(start as int) =~= Seq::<u8>::empty());
            assert(chunks(Seq::<u8>::empty(), n) =~= Seq::<Seq<u8>>::empty());
            assert(self@.input_calls + Seq::<Seq<u8>>::empty() =~= self@.input_calls);
            assert(self@.output_calls + Seq::<Seq<u8>>::empty() =~= self@.output_calls);
        }
    }

    /// Takes one event: calls the hooks that it owes `handler`, moves to its
    /// next state, and says what the event loop does next. A stopped
    /// dispatcher calls no hook and asks to stop again.
    pub fn handle<H: PtyHandler>(&mut self, handler: &mut H, event: Event) -> (r: Action)
        ensures
            wf_view(final(self)@),
            (final(self)@, r) == next(old(self)@, event@),
    {
        proof {
            use_type_invariant(&*self);
            lemma_next_wf(self@, event@);
        }
        if self.phase == Phase::Stopped {
            return Action::Stop;
        }
        match event {
            Event::Readable(source, data) => {
                self.deliver(handler, source, &data);
                Action::Continue
            },
            Event::Notified(Notification::ResizeOccurred) => {
                if self.phase == Phase::Running {
                    self.resize_pending = true;
                }
                Action::Continue
            },
            Event::Notified(Notification::Shutdown) => {
                if self.phase == Phase::Running {
                    self.phase = Phase::Draining;
                    Action::DrainTaps
                } else {
                    Action::Continue
                }
            },
            Event::EndOfBatch => {
                if self.phase == Phase::Draining {
                    handler.shutdown();
                    *self = Dispatcher {
                        phase: Phase::Stopped,
                        resize_pending: false,
                        shutdowns: Ghost(self.shutdowns@ + 1),
                        ..*self
                    };
                    Action::Stop
                } else if self.resize_pending {
                    self.resize_pending = false;
                    Action::QueryWindow
                } else {
                    Action::Continue
                }
            },
            Event::Resized(winsize) => {
                handler.resize(&winsize);
                self.pty_size = Some(winsize);
                proof {
                    self.resizes@ = self.resizes@.push(winsize);
                }
                Action::Continue
            },
        }
    }
}

/// No event is handed over after the dispatcher has stopped: this is how the
/// event loop uses it, since it returns on `Action::Stop`.
pub open spec fn handed_while_live(v: DispatcherView, es: Seq<EventView>) -> bool {
    forall|i: int| 0 <= i < es.len() ==> (#[trigger] run(v, es.take(i))).phase != Phase::Stopped
}

/// Every view that a run reaches from a well-formed one is well-formed.
pub proof fn lemma_run_wf(v: DispatcherView, es: Seq<EventView>)
    requires
        wf_view(v),
    ensures
        wf_view(run(v, es)),
    decreases es.len(),
{
    if es.len() > 0 {
        lemma_run_wf(v, es.drop_last());
        lemma_next_wf(run(v, es.drop_last()), es.last());
    }
}

proof fn lemma_run_seen(v: DispatcherView, es: Seq<EventView>)
    requires
        handed_while_live(v, es),
    ensures
        run(v, es).input_seen == v.input_seen + tap_bytes(es, Source::InputTap),
        run(v, es).output_seen == v.output_seen + tap_bytes(es, Source::OutputTap),
    decreases es.len(),
{
    if es.len() == 0 {
        assert(v.input_seen + Seq::<u8>::empty() =~= v.input_seen);
        assert(v.output_seen + Seq::<u8>::empty() =~= v.output_seen);
    } else {
        let init = es.drop_last();
        assert forall|i: int| 0 <= i < init.len() implies (#[trigger] run(v, init.take(i))).phase
            != Phase::Stopped by {
            assert(init.take(i) =~= es.take(i));
            assert(run(v, es.take(i)).phase != Phase::Stopped);
        }
        lemma_run_seen(v, init);
        assert(es.take(init.len() as int) =~= init);
        assert(run(v, es.take(init.len() as int)).phase != Phase::Stopped);
        let w = run(v, init);
        let ti = tap_bytes(init, Source::InputTap);
        let to = tap_bytes(init, Source::OutputTap);
        if let EventView::Readable(_, b) = es.last() {
            assert(v.input_seen + ti + b =~= v.input_seen + (ti + b));
            assert(v.output_seen + to + b =~= v.output_seen + (to + b));
        }
    }
}

/// Tap fidelity: from a fresh dispatcher, the pieces handed to `input` and
/// to `output`, joined in order, are exactly the bytes read from the input
/// tap and from the output tap, in the order they were read.
pub proof fn law_tap_fidelity(es: Seq<EventView>)
    requires
        handed_while_live(initial_view(), es),
    ensures
        run(initial_view(), es).input_calls.flatten() == tap_bytes(es, Source::InputTap),
        run(initial_view(), es).output_calls.flatten() == tap_bytes(es, Source::OutputTap),
        bounded_pieces(run(initial_view(), es).input_calls, INPUT_READ as nat),
        bounded_pieces(run(initial_view(), es).output_calls, OUTPUT_READ as nat),
{
    let v = initial_view();
    assert(v.input_calls.flatten() == v.input_seen);
    assert(v.output_calls.flatten() == v.output_seen);
    lemma_run_wf(v, es);
    lemma_run_seen(v, es);
    assert(v.input_seen + tap_bytes(es, Source::InputTap) =~= tap_bytes(es, Source::InputTap));
    assert(v.output_seen + tap_bytes(es, Source::OutputTap) =~= tap_bytes(es, Source::OutputTap));
}

/// Exactly-once shutdown: whatever events a fresh dispatcher is handed,
/// `shutdown` is called at most once, and once it has been called the
/// dispatcher has stopped.
pub proof fn law_shutdown_at_most_once(es: Seq<EventView>)
    ensures
        run(initial_view(), es).shutdowns <= 1,
        run(initial_view(), es).shutdowns == 1 <==> run(initial_view(), es).phase == Phase::Stopped,
{
    let v = initial_view();
    assert(v.input_calls.flatten() == v.input_seen);
    assert(v.output_calls.flatten() == v.output_seen);
    lemma_run_wf(v, es);
}

/// Bounded shutdown: a dispatcher that has not stopped, once told of the
/// shutdown and then handed the drained taps' end of batch, has called
/// `shutdown` once and asks to stop, however many bytes the taps held.
pub proof fn law_shutdown_bounded(v: DispatcherView)
    requires
        wf_view(v),
        v.phase != Phase::Stopped,
    ensures
        ({
            let (v1, _) = next(v, EventView::Notified(Notification::Shutdown));
            let (v2, a) = next(v1, EventView::EndOfBatch);
            &&& v2.phase == Phase::Stopped
            &&& v2.shutdowns == 1
            &&& a == Action::Stop
        }),
{
}

/// A stopped dispatcher stays as it is, whatever it is handed.
pub proof fn law_stopped_is_final(v: DispatcherView, es: Seq<EventView>)
    requires
        v.phase == Phase::Stopped,
    ensures
        run(v, es) == v,
    decreases es.len(),
{
    if es.len() > 0 {
        law_stopped_is_final(v, es.drop_last());
    }
}

/// Resize idempotence: handing over the same applied size twice leaves the
/// child's terminal size as the first one left it.
pub proof fn law_resize_idempotent(v: DispatcherView, w: Winsize)
    requires
        v.phase != Phase::Stopped,
    ensures
        ({
            let v1 = next(v, EventView::Resized(w)).0;
            let v2 = next(v1, EventView::Resized(w)).0;
            &&& v1.pty_size == Some(w)
            &&& v2.pty_size == v1.pty_size
        }),
{
}

/// Resize coalescing: a running dispatcher told of `k > 0` resizes within
/// one batch asks for one query of the window at the batch's end, and for
/// none at the end of the next batch.
pub proof fn law_resize_coalesced(v: DispatcherView, k: nat)
    requires
        v.phase == Phase::Running,
        k > 0,
    ensures
        ({
            let burst = Seq::new(k, |i: int| EventView::Notified(Notification::ResizeOccurred));
            let (v1, a1) = next(run(v, burst), EventView::EndOfBatch);
            let (_, a2) = next(v1, EventView::EndOfBatch);
            &&& a1 == Action::QueryWindow
            &&& a2 == Action::Continue
        }),
{
    lemma_burst(v, k);
}

proof fn lemma_burst(v: DispatcherView, k: nat)
    requires
        v.phase == Phase::Running,
        k > 0,
    ensures
        ({
            let r = run(v, Seq::new(k, |i: int| EventView::Notified(Notification::ResizeOccurred)));
            r.phase == Phase::Running && r.resize_pending
        }),
    decreases k,
{
    let burst = Seq::new(k, |i: int| EventView::Notified(Notification::ResizeOccurred));
    let shorter = Seq::new((k - 1) as nat, |i: int| EventView::Notified(Notification::ResizeOccurred));
    assert(burst.drop_last() =~= shorter);
    if k > 1 {
        lemma_burst(v, (k - 1) as nat);
    } else {
        assert(shorter =~= Seq::<EventView>::empty());
    }
}
} // verus!
