//! The board's single writer: it owns the registry, applies events one at a
//! time, and decides on each pass whether to redraw. Whoever runs it
//! performs the waiting, the terminal queries and the printing.
use crate::column::{ColumnFit, StyledText};
use crate::ids::{lemma_filter_all, lemma_ids_stay_unique_when_filtered};
use crate::internal_state::{age, within_age, InternalState};
use crate::task::Task;
use crate::render::{board_spec, lines_view};
use crate::state::{is_application_of, TaskEvent};
use crate::Status;
use vstd::prelude::*;

verus! {

/// Error and Info entries leave the board once they are older than this
/// many milliseconds.
pub const EPHEMERAL_MAX_AGE_MS: u64 = 10000;

/// `after` is `before` without the Error and Info entries that were older
/// than `EPHEMERAL_MAX_AGE_MS` at `now`; Queued, Started and Finished
/// entries stay.
pub open spec fn is_eviction_of(after: InternalState, before: InternalState, now: u64) -> bool {
    &&& after.bucket(Status::Error) == before.bucket(Status::Error).filter(
        within_age(EPHEMERAL_MAX_AGE_MS, now),
    )
    &&& after.bucket(Status::Info) == before.bucket(Status::Info).filter(
        within_age(EPHEMERAL_MAX_AGE_MS, now),
    )
    &&& after.bucket(Status::Queued) == before.bucket(Status::Queued)
    &&& after.bucket(Status::Started) == before.bucket(Status::Started)
    &&& after.bucket(Status::Finished) == before.bucket(Status::Finished)
}

/// After an eviction pass, no Error or Info entry is older than
/// `EPHEMERAL_MAX_AGE_MS`, each one that was goes, and Finished entries all
/// stay, whatever their age.
pub proof fn lemma_eviction_law(after: InternalState, before: InternalState, now: u64)
    requires
        is_eviction_of(after, before, now),
    ensures
        forall|i: int|
            0 <= i < after.bucket(Status::Error).len() ==> age(
                #[trigger] after.bucket(Status::Error)[i],
                now,
            ) <= EPHEMERAL_MAX_AGE_MS,
        forall|i: int|
            0 <= i < after.bucket(Status::Info).len() ==> age(
                #[trigger] after.bucket(Status::Info)[i],
                now,
            ) <= EPHEMERAL_MAX_AGE_MS,
        forall|t: Task|
            age(t, now) > EPHEMERAL_MAX_AGE_MS ==> !after.bucket(Status::Error).contains(t)
                && !after.bucket(Status::Info).contains(t),
        after.bucket(Status::Finished) == before.bucket(Status::Finished),
{
    broadcast use vstd::seq_lib::group_filter_ensures;

    let p = within_age(EPHEMERAL_MAX_AGE_MS, now);
    assert forall|i: int| 0 <= i < after.bucket(Status::Error).len() implies age(
        #[trigger] after.bucket(Status::Error)[i],
        now,
    ) <= EPHEMERAL_MAX_AGE_MS by {
        assert(p(before.bucket(Status::Error).filter(p)[i]));
    }
    assert forall|i: int| 0 <= i < after.bucket(Status::Info).len() implies age(
        #[trigger] after.bucket(Status::Info)[i],
        now,
    ) <= EPHEMERAL_MAX_AGE_MS by {
        assert(p(before.bucket(Status::Info).filter(p)[i]));
    }
}

/// Eviction keeps each id on the board in at most one status.
pub proof fn lemma_eviction_keeps_partition(after: InternalState, before: InternalState, now: u64)
    requires
        before.ids_unique(),
        is_eviction_of(after, before, now),
    ensures
        after.ids_unique(),
{
    let keep = |t: Task| true;
    let pick = |s: Status|
        if s is Error || s is Info {
            within_age(EPHEMERAL_MAX_AGE_MS, now)
        } else {
            keep
        };
    assert forall|s: Status| #[trigger] after.bucket(s) == before.bucket(s).filter(pick(s)) by {
        if !(s is Error || s is Info) {
            lemma_filter_all(before.bucket(s), keep);
        }
    }
    lemma_ids_stay_unique_when_filtered(before, after, pick);
}

/// The registry, whether it changed since the last pass, and the terminal
/// size seen last.
pub struct Board {
    state: InternalState,
    dirty: bool,
    size: (u16, u16),
}

impl Board {
    pub closed spec fn registry(&self) -> InternalState {
        self.state
    }

    pub closed spec fn is_dirty(&self) -> bool {
        self.dirty
    }

    pub closed spec fn last_size(&self) -> (u16, u16) {
        self.size
    }

    /// An empty board, due for a first redraw.
    pub fn new() -> (r: Board)
        ensures
            r.registry().is_empty_spec(),
            r.is_dirty(),
            r.last_size() == (0u16, 0u16),
    {
        Board { state: InternalState::new(), dirty: true, size: (0, 0) }
    }

    /// The registry as it stands.
    pub fn state(&self) -> (r: &InternalState)
        ensures
            *r == self.registry(),
    {
        &self.state
    }

    /// Applies one event received at `now`.
    pub fn apply(&mut self, event: TaskEvent, now: u64)
        ensures
            is_application_of(final(self).registry(), old(self).registry(), event, now),
            final(self).is_dirty(),
            final(self).last_size() == old(self).last_size(),
    {
        self.state.apply_event(event, now);
        self.dirty = true;
    }

    /// One pass after the queued events are applied. `size` is the
    /// terminal's (columns, rows), none when it cannot be had. The board is
    /// redrawn when the size is known, rendering is not `silent`, and
    /// either an event came or the size changed: aged Error and Info
    /// entries are evicted first, and the lines to print are returned.
    pub fn frame(
        &mut self,
        size: Option<(u16, u16)>,
        silent: bool,
        name_fit: ColumnFit,
        now: u64,
    ) -> (r: Option<Vec<Vec<StyledText>>>)
        ensures
            !final(self).is_dirty(),
            final(self).last_size() == match size {
                Some(sz) => sz,
                None => old(self).last_size(),
            },
            match size {
                Some(sz) if !silent && (old(self).is_dirty() || sz != old(self).last_size()) => {
                    &&& is_eviction_of(final(self).registry(), old(self).registry(), now)
                    &&& r matches Some(lines) && lines_view(lines) == board_spec(
                        final(self).registry(),
                        sz.0 as nat,
                        name_fit,
                    )
                },
                _ => final(self).registry() == old(self).registry() && r is None,
            },
    {
        let mut out = None;
        if let Some((width, height)) = size {
            let mut redraw = self.dirty;
            if width != self.size.0 || height != self.size.1 {
                self.size = (width, height);
                redraw = true;
            }
            if !silent && redraw {
                self.state.clear_old_entries(
                    EPHEMERAL_MAX_AGE_MS,
                    &[Status::Error, Status::Info],
                    now,
                );
                out = Some(self.state.render_lines(width as usize, name_fit));
            }
        }
        self.dirty = false;
        out
    }
}

} // verus!
