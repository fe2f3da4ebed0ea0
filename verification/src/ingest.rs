use vstd::prelude::*;
use crate::models::Block;
use crate::store::{Store, UpsertOutcome, spec_upsert, has_id};
use crate::hub::{Hub, spec_publish};
use crate::window::Window;

verus! {

/// What one ingestion cycle observed at the upstream edge, after the fetch
/// and the decode have been attempted for the cursor's id.
pub enum CycleInput {
    /// The upstream endpoint was unreachable or answered with a non-success
    /// status. Never fatal: the loop proceeds to the next cycle.
    TransportFailed,
    /// A body arrived but was not decodable as a block document; it is
    /// discarded whole, with no partial write.
    DecodeFailed,
    /// A decoded block, together with the raw payload it came from.
    Decoded(Block, String),
}

/// The ingestion loop's decision state: the configured window and the cursor.
pub struct IngestState {
    pub window: Window,
    pub current: u64,
}

impl IngestState {
    /// The cursor always stays inside the configured window.
    pub open spec fn wf(&self) -> bool {
        self.window.wf() && self.window.start_id <= self.current <= self.window.end_id
    }

    pub fn new(window: Window) -> (s: IngestState)
        requires
            window.wf(),
        ensures
            s.wf(),
            s.window == window,
            s.current == window.start_id,
    {
        IngestState { current: window.start_id, window }
    }

    /// The id this cycle polls.
    pub fn current_id(&self) -> (r: u64)
        ensures
            r == self.current,
    {
        self.current
    }

    /// One cycle of the ingestion loop, once the upstream call and decode
    /// have produced `input`. A decoded block is upserted and its raw
    /// payload published, as two independent effects; any failure outcome
    /// touches neither consumer. Whatever happened, the cursor advances by
    /// the window's wrap-around rule.
    pub fn cycle(&mut self, store: &mut Store, hub: &mut Hub, input: CycleInput) -> (r: Option<
        UpsertOutcome,
    >)
        requires
            old(self).wf(),
            old(store).wf(),
            old(hub).wf(),
        ensures
            final(self).wf(),
            final(store).wf(),
            final(hub).wf(),
            final(self).window == old(self).window,
            final(self).current == old(self).window.spec_next(old(self).current),
            final(hub).capacity() == old(hub).capacity(),
            final(hub).next_handle() == old(hub).next_handle(),
            match input {
                CycleInput::Decoded(b, raw) => {
                    &&& final(store)@ == spec_upsert(old(store)@, b)
                    &&& final(hub)@ == spec_publish(old(hub)@, raw@, old(hub).capacity())
                    &&& r matches Some(o) && (o == UpsertOutcome::AlreadyPresent <==> has_id(
                        old(store)@,
                        b.block_id,
                    ))
                },
                _ => final(store)@ == old(store)@ && final(hub)@ == old(hub)@ && r is None,
            },
    {
        let r = match input {
            CycleInput::Decoded(b, raw) => {
                let outcome = store.upsert(b);
                hub.publish(&raw);
                Some(outcome)
            },
            _ => None,
        };
        self.current = self.window.next_id(self.current);
        r
    }
}

} // verus!
