//! Timestamping of a serial device's output lines, and the decisions of the worker that
//! keeps a serial device's output file synced to disk.
use vstd::prelude::*;

verus! {

/// Where the serial output stands relative to its lines.
#[derive(Clone, Copy, Debug, PartialEq, Eq, Structural)]
pub enum LineState {
    NeverWritten,
    Midline,
    Newline,
}

impl LineState {
    /// Decides, for one output byte `v`, whether a timestamp prefix goes out before it,
    /// and the state after it. Without timestamps nothing changes; a timestamp starts
    /// each line, and a newline ends one.
    pub fn on_output_byte(self, out_timestamp: bool, v: u8) -> (r: (bool, LineState))
        ensures
            !out_timestamp ==> r == (false, self),
            out_timestamp && (self is NeverWritten || self is Newline) ==> r == (
                true,
                LineState::Midline,
            ),
            out_timestamp && self is Midline && v == 10 ==> r == (false, LineState::Newline),
            out_timestamp && self is Midline && v != 10 ==> r == (false, LineState::Midline),
    {
        if !out_timestamp {
            return (false, self);
        }
        match self {
            LineState::NeverWritten | LineState::Newline => (true, LineState::Midline),
            LineState::Midline => {
                if v == 10u8 {
                    (false, LineState::Newline)
                } else {
                    (false, LineState::Midline)
                }
            },
        }
    }
}

/// What wakes the sync worker.
#[derive(Clone, Copy, Debug, PartialEq, Eq, Structural)]
pub enum SyncEvent {
    /// The periodic timer fired.
    Timer,
    /// The worker was asked to stop.
    Kill,
    /// An fsync of the output file finished, successfully or not.
    FsyncDone { ok: bool },
}

/// What the sync worker does next.
#[derive(Clone, Copy, Debug, PartialEq, Eq, Structural)]
pub enum SyncAction {
    /// Wait for the next event.
    Wait,
    /// Flush the output file to disk.
    Fsync,
    /// Stop the worker.
    Stop,
}

/// The state of the worker that flushes a serial device's output file to disk once a
/// second, and once more when it is asked to stop.
#[derive(Clone, Copy, Debug, PartialEq, Eq, Structural)]
pub enum SyncWorker {
    /// Waiting for the timer or a stop request.
    Idle,
    /// An fsync is under way; `stopping` when the worker stops after it.
    Syncing { stopping: bool },
    /// The worker has stopped.
    Stopped,
}

impl SyncWorker {
    /// The next state and action after `event`. A timer tick or a stop request starts an
    /// fsync; a failed fsync stops the worker, and so does any fsync after a stop request.
    /// A stop request during an fsync is kept for when it ends; other events that do not
    /// fit the state leave it as it is.
    pub fn run(self, event: SyncEvent) -> (r: (SyncWorker, SyncAction))
        ensures
            self is Idle && event is Timer ==> r == (
                SyncWorker::Syncing { stopping: false },
                SyncAction::Fsync,
            ),
            self is Idle && event is Kill ==> r == (
                SyncWorker::Syncing { stopping: true },
                SyncAction::Fsync,
            ),
            self is Syncing && event is FsyncDone ==> if !event->ok || self->stopping {
                r == (SyncWorker::Stopped, SyncAction::Stop)
            } else {
                r == (SyncWorker::Idle, SyncAction::Wait)
            },
            self is Stopped ==> r == (SyncWorker::Stopped, SyncAction::Stop),
            self is Idle && event is FsyncDone ==> r == (SyncWorker::Idle, SyncAction::Wait),
            self is Syncing && event is Timer ==> r == (self, SyncAction::Wait),
            self is Syncing && event is Kill ==> r == (
                SyncWorker::Syncing { stopping: true },
                SyncAction::Wait,
            ),
    {
        match (self, event) {
            (SyncWorker::Stopped, _) => (SyncWorker::Stopped, SyncAction::Stop),
            (SyncWorker::Idle, SyncEvent::Timer) => (
                SyncWorker::Syncing { stopping: false },
                SyncAction::Fsync,
            ),
            (SyncWorker::Idle, SyncEvent::Kill) => (
                SyncWorker::Syncing { stopping: true },
                SyncAction::Fsync,
            ),
            (SyncWorker::Syncing { stopping }, SyncEvent::FsyncDone { ok }) => {
                if !ok || stopping {
                    (SyncWorker::Stopped, SyncAction::Stop)
                } else {
                    (SyncWorker::Idle, SyncAction::Wait)
                }
            },
            (SyncWorker::Syncing { .. }, SyncEvent::Kill) => (
                SyncWorker::Syncing { stopping: true },
                SyncAction::Wait,
            ),
            (state, _) => (state, SyncAction::Wait),
        }
    }
}

} // verus!
