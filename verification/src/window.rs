use vstd::prelude::*;

verus! {

/// The bounded, wrap-around range of block ids the ingestion loop cycles
/// through, together with the stride between polled ids.
pub struct Window {
    pub start_id: u64,
    pub end_id: u64,
    pub step: u64,
}

/// Why a window configuration was rejected at startup.
#[derive(Clone, Copy, Debug, PartialEq, Eq, Structural)]
pub enum WindowError {
    /// `start_id` was greater than `end_id`: the window would be empty.
    EmptyWindow,
    /// `step` was zero: the cursor would never advance.
    ZeroStep,
}

impl Window {
    /// A window is well formed when it is non-empty and its stride advances.
    pub open spec fn wf(&self) -> bool {
        self.start_id <= self.end_id && self.step >= 1
    }

    /// The id the cursor moves to from `current`: forward by `step`, wrapping
    /// back to `start_id` once it would pass `end_id`.
    pub open spec fn spec_next(&self, current: u64) -> int {
        if current + self.step > self.end_id {
            self.start_id as int
        } else {
            current + self.step
        }
    }

    /// Validate a window configuration; an invalid one is rejected before the
    /// ingestion loop ever runs, rather than looping forever on an empty
    /// window or a stuck cursor.
    pub fn new(start_id: u64, end_id: u64, step: u64) -> (r: Result<Window, WindowError>)
        ensures
            start_id > end_id ==> r == Err::<Window, WindowError>(WindowError::EmptyWindow),
            start_id <= end_id && step == 0 ==> r == Err::<Window, WindowError>(
                WindowError::ZeroStep,
            ),
            start_id <= end_id && step >= 1 ==> (r matches Ok(w) && w.start_id == start_id
                && w.end_id == end_id && w.step == step && w.wf()),
    {
        if start_id > end_id {
            Err(WindowError::EmptyWindow)
        } else if step == 0 {
            Err(WindowError::ZeroStep)
        } else {
            Ok(Window { start_id, end_id, step })
        }
    }

    /// Advance the cursor one cycle.
    pub fn next_id(&self, current: u64) -> (r: u64)
        requires
            self.wf(),
            self.start_id <= current <= self.end_id,
        ensures
            r == self.spec_next(current),
            self.start_id <= r <= self.end_id,
    {
        if self.step > self.end_id - current {
            self.start_id
        } else {
            current + self.step
        }
    }
}

} // verus!
