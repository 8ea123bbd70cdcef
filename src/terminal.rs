use vstd::prelude::*;

verus! {

/// The controlling terminal's mode over one session, with its attributes
/// of type `T`: captured once before raw mode, reapplied on every way out.
pub struct ModeGuard<T> {
    saved: Option<T>,
    raw: bool,
}

/// A guard as the contracts see it.
pub struct ModeView<T> {
    /// The attributes captured before raw mode was entered.
    pub saved: Option<T>,
    /// Whether the terminal is in raw mode.
    pub raw: bool,
}

/// One thing done to the guard: a capture before raw mode, or a restore.
pub enum ModeOp<T> {
    EnterRaw(T),
    Restore,
}

/// A guard that has captured nothing.
pub open spec fn fresh_mode<T>() -> ModeView<T> {
    ModeView { saved: None, raw: false }
}

/// The state after `op`, and the attributes that a restore reapplies.
pub open spec fn mode_next<T>(v: ModeView<T>, op: ModeOp<T>) -> (ModeView<T>, Option<T>) {
    match op {
        ModeOp::EnterRaw(a) => if v.saved is None {
            (ModeView { saved: Some(a), raw: true }, None)
        } else {
            (v, None)
        },
        ModeOp::Restore => (ModeView { raw: false, ..v }, v.saved),
    }
}

/// The state after the operations `ops`, done in order.
pub open spec fn mode_run<T>(v: ModeView<T>, ops: Seq<ModeOp<T>>) -> ModeView<T>
    decreases ops.len(),
{
    if ops.len() == 0 {
        v
    } else {
        mode_run(mode_next(v, ops[0]).0, ops.drop_first())
    }
}

impl<T: Copy> ModeGuard<T> {
    pub closed spec fn view(&self) -> ModeView<T> {
        ModeView { saved: self.saved, raw: self.raw }
    }

    /// A guard that has captured nothing.
    pub fn new() -> (r: ModeGuard<T>)
        ensures
            r.view() == fresh_mode::<T>(),
    {
        ModeGuard { saved: None, raw: false }
    }

    /// Records `captured`, the attributes read just before the switch to raw
    /// mode. Only the first capture counts: a later one is refused, so that
    /// a restore always brings back the session's first attributes.
    pub fn enter_raw(&mut self, captured: T) -> (r: bool)
        ensures
            r == (old(self).view().saved is None),
            final(self).view() == mode_next(old(self).view(), ModeOp::EnterRaw(captured)).0,
    {
        if self.saved.is_none() {
            self.saved = Some(captured);
            self.raw = true;
            true
        } else {
            false
        }
    }

    /// The attributes to reapply on leaving the session, if any were
    /// captured. Every way out calls it; calling it again is harmless.
    pub fn restore(&mut self) -> (r: Option<T>)
        ensures
            (final(self).view(), r) == mode_next(old(self).view(), ModeOp::<T>::Restore),
    {
        self.raw = false;
        self.saved
    }

    /// Whether the terminal is in raw mode.
    pub fn is_raw(&self) -> (r: bool)
        ensures
            r == self.view().raw,
    {
        self.raw
    }
}

proof fn lemma_saved_kept<T>(v: ModeView<T>, a: T, ops: Seq<ModeOp<T>>)
    requires
        v.saved == Some(a),
    ensures
        mode_run(v, ops).saved == Some(a),
    decreases ops.len(),
{
    if ops.len() > 0 {
        lemma_saved_kept(mode_next(v, ops[0]).0, a, ops.drop_first());
    }
}

/// Raw-mode round trip: once a session has captured `a` and entered raw
/// mode, whatever captures and restores follow, a restore reapplies `a`
/// and leaves the terminal out of raw mode.
pub proof fn law_raw_mode_round_trip<T>(a: T, ops: Seq<ModeOp<T>>)
    ensures
        ({
            let v = mode_run(mode_next(fresh_mode::<T>(), ModeOp::EnterRaw(a)).0, ops);
            let (w, r) = mode_next(v, ModeOp::<T>::Restore);
            &&& r == Some(a)
            &&& !w.raw
        }),
{
    lemma_saved_kept(mode_next(fresh_mode::<T>(), ModeOp::EnterRaw(a)).0, a, ops);
}

} // verus!
