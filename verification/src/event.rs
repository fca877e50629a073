//! The events from which the state of all todo items is built.

use vstd::prelude::*;

use crate::model::TodoItem;
use crate::text::{event_file_name, event_file_text};
use crate::time::{Timestamp, current_time};

verus! {

/// One immutable change to the set of todo items.
///
/// In `TodoUpdated`, each entry of `updates` is a field name and the JSON text
/// of its new value, and `updated_at` is the time of the update when it was
/// recorded (updates stored without a time have none).
#[derive(Clone, Debug, PartialEq)]
pub enum TodoEvent {
    TodoAdded(TodoItem),
    TodoCompleted { id: u128, completed_at: Timestamp },
    TodoUpdated { id: u128, updated_at: Option<Timestamp>, updates: Vec<(String, String)> },
    TodoDeleted { id: u128, deleted_at: Timestamp },
}

/// The time by which an update without a recorded time is ordered: later
/// than any time a date-time can hold.
pub open spec fn untimed() -> Timestamp {
    Timestamp { secs: 0x7fff_ffff_ffff_ffff, nanos: 0xffff_ffff }
}

impl TodoEvent {
    /// The id of the item the event is about.
    pub open spec fn item_id(self) -> u128 {
        match self {
            TodoEvent::TodoAdded(item) => item.id,
            TodoEvent::TodoCompleted { id, .. } => id,
            TodoEvent::TodoUpdated { id, .. } => id,
            TodoEvent::TodoDeleted { id, .. } => id,
        }
    }

    /// The time of the event when the clock reads `now`: the time recorded in
    /// the event, or `now` for an update that records none.
    pub open spec fn time_at(self, now: Timestamp) -> Timestamp {
        match self {
            TodoEvent::TodoAdded(item) => item.created_at,
            TodoEvent::TodoCompleted { completed_at, .. } => completed_at,
            TodoEvent::TodoUpdated { updated_at, .. } => match updated_at {
                Some(t) => t,
                None => now,
            },
            TodoEvent::TodoDeleted { deleted_at, .. } => deleted_at,
        }
    }

    /// Whether the event records its time (every event but an update stored
    /// without one).
    pub open spec fn has_time(self) -> bool {
        !(self matches TodoEvent::TodoUpdated { updated_at: None, .. })
    }

    /// The time by which the event is put in order: its recorded time, and
    /// for an update without one a time after every recorded time.
    pub open spec fn sort_time(self) -> Timestamp {
        if self.has_time() {
            self.time_at(untimed())
        } else {
            untimed()
        }
    }

    /// The id of the item the event is about.
    pub fn id(&self) -> (id: u128)
        ensures
            id == self.item_id(),
    {
        match self {
            TodoEvent::TodoAdded(item) => item.id,
            TodoEvent::TodoCompleted { id, .. } => *id,
            TodoEvent::TodoUpdated { id, .. } => *id,
            TodoEvent::TodoDeleted { id, .. } => *id,
        }
    }

    /// The time of the event when the clock reads `now`.
    pub fn timestamp_at(&self, now: Timestamp) -> (t: Timestamp)
        ensures
            t == self.time_at(now),
    {
        match self {
            TodoEvent::TodoAdded(item) => item.created_at,
            TodoEvent::TodoCompleted { completed_at, .. } => *completed_at,
            TodoEvent::TodoUpdated { updated_at, .. } => match updated_at {
                Some(t) => *t,
                None => now,
            },
            TodoEvent::TodoDeleted { deleted_at, .. } => *deleted_at,
        }
    }

    /// The time by which the event is put in order.
    pub fn time_for_ordering(&self) -> (t: Timestamp)
        ensures
            t == self.sort_time(),
    {
        match self {
            TodoEvent::TodoUpdated { updated_at: None, .. } => Timestamp {
                secs: 0x7fff_ffff_ffff_ffff,
                nanos: 0xffff_ffff,
            },
            _ => self.timestamp_at(Timestamp { secs: 0x7fff_ffff_ffff_ffff, nanos: 0xffff_ffff }),
        }
    }

    /// The time of the event; an update stored without a time takes the
    /// current time.
    pub fn timestamp(&self) -> (t: Timestamp)
        ensures
            exists|now: Timestamp| now.wf() && t == self.time_at(now),
            self.has_time() ==> t == self.time_at(t),
    {
        match self {
            TodoEvent::TodoUpdated { updated_at: None, .. } => current_time(),
            _ => {
                let t = self.timestamp_at(Timestamp { secs: 0, nanos: 0 });
                proof {
                    let w = Timestamp { secs: 0, nanos: 0 };
                    assert(w.wf() && t == self.time_at(w));
                }
                t
            },
        }
    }

    /// The name of the file the event is stored in, from its time when the
    /// clock reads `now` and the id of its item.
    pub fn file_name_at(&self, now: Timestamp) -> (name: String)
        ensures
            name@ == event_file_text(
                self.time_at(now).secs as int,
                self.time_at(now).nanos as nat,
                self.item_id() as nat,
            ),
    {
        let t = self.timestamp_at(now);
        event_file_name(t.secs, t.nanos, self.id())
    }

    /// The name of the file the event is stored in, from its time (the
    /// current time for an update stored without one).
    pub fn file_name(&self) -> (name: String)
        ensures
            exists|now: Timestamp|
                now.wf() && name@ == event_file_text(
                    self.time_at(now).secs as int,
                    self.time_at(now).nanos as nat,
                    self.item_id() as nat,
                ),
    {
        let t = self.timestamp();
        event_file_name(t.secs, t.nanos, self.id())
    }
}

} // verus!
