use vstd::prelude::*;

verus! {

/// How a request for an artifact is served, given the length of its file on disk.
#[derive(Clone, Copy, Debug, PartialEq, Eq, Structural)]
pub enum FetchPlan {
    /// The file is complete: serve it from disk.
    Hit,
    /// The file is empty or partial: truncate it and fill it from upstream.
    Fill,
}

pub open spec fn plan_of(file_len: u64, size: u64) -> FetchPlan {
    if file_len == size {
        FetchPlan::Hit
    } else {
        FetchPlan::Fill
    }
}

/// A file is served from disk exactly when its length is the artifact's size.
pub fn plan(file_len: u64, size: u64) -> (r: FetchPlan)
    ensures
        r == plan_of(file_len, size),
{
    if file_len == size {
        FetchPlan::Hit
    } else {
        FetchPlan::Fill
    }
}

/// What happens while a fill runs.
#[derive(Clone, Copy, Debug, PartialEq, Eq, Structural)]
pub enum FillEvent {
    /// A data frame of this many bytes arrived from upstream.
    Data(u64),
    /// Appending to the file failed.
    WriteFailed,
    /// Upstream failed mid-stream.
    UpstreamFailed,
    /// Upstream ended.
    Finished,
}

/// What the fill task does next.
#[derive(Clone, Copy, Debug, PartialEq, Eq, Structural)]
pub enum FillAction {
    /// Send the frame to the client and append it to the file.
    Forward,
    /// Truncate the file to length zero and stop; the client stream just ends.
    TruncateAndStop,
    /// Stop.
    Stop,
}

/// State of a fill task: the bytes on disk so far, and whether it has stopped.
#[derive(Clone, Copy, Debug, PartialEq, Eq, Structural)]
pub struct FillWriter {
    pub written: u64,
    pub stopped: bool,
}

pub open spec fn fill_next(w: FillWriter, ev: FillEvent) -> FillWriter {
    if w.stopped {
        w
    } else {
        match ev {
            FillEvent::Data(n) => FillWriter { written: (w.written + n) as u64, stopped: false },
            FillEvent::WriteFailed => FillWriter { written: 0, stopped: true },
            FillEvent::UpstreamFailed => FillWriter { written: 0, stopped: true },
            FillEvent::Finished => FillWriter { written: w.written, stopped: true },
        }
    }
}

pub open spec fn fill_action(w: FillWriter, ev: FillEvent) -> FillAction {
    if w.stopped {
        FillAction::Stop
    } else {
        match ev {
            FillEvent::Data(_) => FillAction::Forward,
            FillEvent::WriteFailed => FillAction::TruncateAndStop,
            FillEvent::UpstreamFailed => FillAction::TruncateAndStop,
            FillEvent::Finished => FillAction::Stop,
        }
    }
}

impl FillWriter {
    /// A fill that starts on a truncated file.
    pub fn new() -> (r: FillWriter)
        ensures
            r == (FillWriter { written: 0, stopped: false }),
    {
        FillWriter { written: 0, stopped: false }
    }

    /// Takes one event and says what to do about it.
    pub fn on_event(&mut self, ev: FillEvent) -> (r: FillAction)
        requires
            ev matches FillEvent::Data(n) ==> old(self).written + n <= u64::MAX,
        ensures
            *final(self) == fill_next(*old(self), ev),
            r == fill_action(*old(self), ev),
    {
        if self.stopped {
            return FillAction::Stop;
        }
        match ev {
            FillEvent::Data(n) => {
                self.written = self.written + n;
                FillAction::Forward
            },
            FillEvent::WriteFailed | FillEvent::UpstreamFailed => {
                self.written = 0;
                self.stopped = true;
                FillAction::TruncateAndStop
            },
            FillEvent::Finished => {
                self.stopped = true;
                FillAction::Stop
            },
        }
    }
}

/// The writer after each event in turn.
pub open spec fn run_fill(w: FillWriter, events: Seq<FillEvent>) -> FillWriter
    decreases events.len(),
{
    if events.len() == 0 {
        w
    } else {
        fill_next(run_fill(w, events.drop_last()), events.last())
    }
}

/// Bytes in the data frames among the events.
pub open spec fn data_bytes(events: Seq<FillEvent>) -> int
    decreases events.len(),
{
    if events.len() == 0 {
        0
    } else {
        data_bytes(events.drop_last()) + match events.last() {
            FillEvent::Data(n) => n as int,
            _ => 0,
        }
    }
}

/// Only data frames.
pub open spec fn all_data(events: Seq<FillEvent>) -> bool {
    forall|i: int| 0 <= i < events.len() ==> #[trigger] events[i] is Data
}

proof fn lemma_run_data(events: Seq<FillEvent>)
    requires
        all_data(events),
        data_bytes(events) <= u64::MAX,
    ensures
        run_fill(FillWriter { written: 0, stopped: false }, events) == (FillWriter {
            written: data_bytes(events) as u64,
            stopped: false,
        }),
        data_bytes(events) >= 0,
    decreases events.len(),
{
    if events.len() > 0 {
        let rest = events.drop_last();
        assert(all_data(rest)) by {
            assert forall|i: int| 0 <= i < rest.len() implies #[trigger] rest[i] is Data by {
                assert(rest[i] == events[i]);
            }
        }
        assert(events[events.len() - 1] is Data);
        lemma_run_data(rest);
    }
}

/// A fill that fails upstream after any number of bytes leaves the file empty and stops,
/// and the next request for an artifact of nonzero size fills the file again.
pub proof fn law_fill_failure(events: Seq<FillEvent>, size: u64)
    requires
        all_data(events),
        data_bytes(events) <= u64::MAX,
        size > 0,
    ensures
        ({
            let w = run_fill(FillWriter { written: 0, stopped: false }, events);
            &&& fill_action(w, FillEvent::UpstreamFailed) == FillAction::TruncateAndStop
            &&& fill_next(w, FillEvent::UpstreamFailed).written == 0
            &&& plan_of(fill_next(w, FillEvent::UpstreamFailed).written, size) == FetchPlan::Fill
        }),
{
    lemma_run_data(events);
}

/// A fill whose data frames add up to the artifact's size and that then finishes leaves a
/// file that the next request serves from disk.
pub proof fn law_fill_then_hit(events: Seq<FillEvent>, size: u64)
    requires
        all_data(events),
        data_bytes(events) == size,
    ensures
        ({
            let w = fill_next(
                run_fill(FillWriter { written: 0, stopped: false }, events),
                FillEvent::Finished,
            );
            &&& w.written == size
            &&& w.stopped
            &&& plan_of(w.written, size) == FetchPlan::Hit
        }),
{
    lemma_run_data(events);
}

} // verus!
