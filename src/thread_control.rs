//! A cooperative cancellation pair: a `Flag` owned by a background context
//! and a `Control` held by the foreground.
use std::sync::atomic::{AtomicBool, Ordering};
use std::sync::Arc;
use vstd::prelude::*;

verus! {

/// Relies on `AtomicBool::store`, which panics only for `Acquire` and
/// `AcqRel` orderings, so a `Relaxed` store returns.
#[verifier::external_body]
fn store_relaxed(a: &AtomicBool, v: bool)
    opens_invariants none
    no_unwind
{
    a.store(v, Ordering::Relaxed)
}

/// Relies on `Arc::clone`: another strong reference to the same value.
#[verifier::external_body]
fn share(a: &Arc<AtomicBool>) -> Arc<AtomicBool> {
    Arc::clone(a)
}

/// The background context was interrupted through its `Control`.
#[derive(PartialEq, Eq, Structural, Clone, Copy, Debug)]
pub struct Interrupted;

/// The answer of `Flag::alive` from the two shared bits as read: an error
/// when interrupted, otherwise the liveness bit.
pub fn liveness(alive: bool, interrupted: bool) -> (r: Result<bool, Interrupted>)
    ensures
        interrupted ==> r == Err::<bool, Interrupted>(Interrupted),
        !interrupted ==> r == Ok::<bool, Interrupted>(alive),
{
    if interrupted {
        Err(Interrupted)
    } else {
        Ok(alive)
    }
}

/// The answer of `Flag::is_alive` from the two shared bits as read: alive
/// only while not stopped and not interrupted.
pub fn live_and_uninterrupted(alive: bool, interrupted: bool) -> (r: bool)
    ensures
        r == (alive && !interrupted),
{
    alive && !interrupted
}

/// Whether `Control::stop` clears the liveness bit, from the dropped bit as
/// read: only while the flag still exists.
pub fn stop_applies(dropped: bool) -> (r: bool)
    ensures
        r == !dropped,
{
    !dropped
}

/// Struct to check execution status of spawned thread.
///
/// Dropping the flag marks its `Control` done. This type does not observe
/// panics: a caller that runs the background work must catch an unwind and
/// call `Control::interrupt`, so that the foreground sees the fault through
/// `Control::is_interrupted`.
pub struct Flag {
    alive: Arc<AtomicBool>,
    interrupt: Arc<AtomicBool>,
    dropped: Arc<AtomicBool>,
}

impl Drop for Flag {
    fn drop(&mut self)
        opens_invariants none
        no_unwind
    {
        store_relaxed(&self.dropped, true);
    }
}

impl Flag {
    /// Creates new flag: alive, not interrupted.
    pub fn new() -> (r: Flag) {
        Flag {
            alive: Arc::new(AtomicBool::new(true)),
            interrupt: Arc::new(AtomicBool::new(false)),
            dropped: Arc::new(AtomicBool::new(false)),
        }
    }

    /// Creates new `Control` to control this flag.
    pub fn take_control(&self) -> (r: Control) {
        Control {
            alive: share(&self.alive),
            interrupt: share(&self.interrupt),
            dropped: share(&self.dropped),
        }
    }

    /// Checks that the flag is neither stopped nor interrupted; an interrupt
    /// is an error, which the background context propagates to end its work.
    pub fn alive(&self) -> (r: Result<bool, Interrupted>) {
        let interrupted = self.interrupt.load(Ordering::Relaxed);
        let alive = self.alive.load(Ordering::Relaxed);
        liveness(alive, interrupted)
    }

    /// Checks that the flag is neither stopped nor interrupted, without failing.
    pub fn is_alive(&self) -> (r: bool) {
        let alive = self.alive.load(Ordering::Relaxed);
        let interrupted = self.interrupt.load(Ordering::Relaxed);
        live_and_uninterrupted(alive, interrupted)
    }

    /// Sets the interrupt bit and drops the flag.
    pub fn interrupt(self) {
        store_relaxed(&self.interrupt, true);
    }
}

/// Struct to control thread execution.
#[derive(Clone)]
pub struct Control {
    alive: Arc<AtomicBool>,
    interrupt: Arc<AtomicBool>,
    dropped: Arc<AtomicBool>,
}

impl Control {
    /// Interrupts the background context: its next `Flag::alive` fails.
    pub fn interrupt(&self) {
        store_relaxed(&self.interrupt, true);
    }

    /// Stops the background context cooperatively: its `is_alive` turns false.
    pub fn stop(&self) {
        if stop_applies(self.dropped.load(Ordering::Relaxed)) {
            store_relaxed(&self.alive, false);
        }
    }

    /// Whether the flag has been dropped: the background context ended.
    pub fn is_done(&self) -> (r: bool) {
        self.dropped.load(Ordering::Relaxed)
    }

    /// Whether the background context was interrupted.
    pub fn is_interrupted(&self) -> (r: bool) {
        self.interrupt.load(Ordering::Relaxed)
    }
}

/// Makes pair with connected flag and control.
pub fn make_pair() -> (r: (Flag, Control)) {
    let flag = Flag::new();
    let control = flag.take_control();
    (flag, control)
}

} // verus!
