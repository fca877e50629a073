//! The event store: where its events live, and what is computed from the
//! events it holds.

use vstd::prelude::*;

use crate::event::TodoEvent;
use crate::model::TodoItem;
use crate::order::{
    distinct_times, lemma_load_order_irrelevant, lemma_same_events_same_order, order_events,
    stably_ordered,
};
use crate::replay::{holds_item, lemma_listings_agree, lists_state, replay, replay_events};
use crate::time::{Timestamp, current_time};

verus! {

/// A store of events kept as one JSON file per event in a data directory.
pub struct EventStore {
    data_dir: String,
}

impl View for EventStore {
    type V = Seq<char>;

    /// The path of the data directory.
    closed spec fn view(&self) -> Seq<char> {
        self.data_dir@
    }
}

/// The items of `items` that are due on the UTC day of `today`, in order.
pub open spec fn items_due_on(items: Seq<TodoItem>, today: Timestamp) -> Seq<TodoItem>
    decreases items.len(),
{
    if items.len() == 0 {
        Seq::empty()
    } else {
        let rest = items_due_on(items.drop_last(), today);
        if items.last().due_on(today) {
            rest.push(items.last())
        } else {
            rest
        }
    }
}

/// The items due on the UTC day of `today` are exactly the items that have a
/// due date on that day.
pub proof fn lemma_items_due_on_members(items: Seq<TodoItem>, today: Timestamp, x: TodoItem)
    ensures
        items_due_on(items, today).contains(x) <==> (items.contains(x) && x.due_date is Some
            && x.due_date->0.utc_day() == today.utc_day()),
    decreases items.len(),
{
    if items.len() > 0 {
        let rest = items.drop_last();
        lemma_items_due_on_members(rest, today, x);
        assert(items =~= rest.push(items.last()));
        assert(items.contains(x) <==> (rest.contains(x) || x == items.last())) by {
            if items.contains(x) {
                let i = choose|i: int| 0 <= i < items.len() && items[i] == x;
                if i < items.len() - 1 {
                    assert(rest[i] == x);
                }
            }
            if rest.contains(x) {
                let i = choose|i: int| 0 <= i < rest.len() && rest[i] == x;
                assert(items[i] == x);
            }
            if x == items.last() {
                assert(items[items.len() - 1] == x);
            }
        }
        let r = items_due_on(rest, today);
        if items.last().due_on(today) {
            assert(r.push(items.last()).contains(x) <==> (r.contains(x) || x == items.last())) by {
                if r.push(items.last()).contains(x) {
                    let i = choose|i: int| 0 <= i < r.len() + 1 && r.push(items.last())[i] == x;
                    if i < r.len() {
                        assert(r[i] == x);
                    }
                }
                if r.contains(x) {
                    let i = choose|i: int| 0 <= i < r.len() && r[i] == x;
                    assert(r.push(items.last())[i] == x);
                }
                if x == items.last() {
                    assert(r.push(items.last())[r.len() as int] == x);
                }
            }
        }
    }
}

/// An item due on the UTC day of one time is not due on any other day: in
/// particular an item due tomorrow is not due today.
pub proof fn lemma_due_on_one_day(item: TodoItem, a: Timestamp, b: Timestamp)
    requires
        item.due_on(a),
        a.utc_day() != b.utc_day(),
    ensures
        !item.due_on(b),
{
}

/// The items that are due on the UTC day of `today`, in their order.
pub fn due_on_day(items: Vec<TodoItem>, today: Timestamp) -> (due: Vec<TodoItem>)
    requires
        forall|i: int| 0 <= i < items@.len() ==> (#[trigger] items@[i]).due_date_wf(),
        today.wf(),
    ensures
        due@ == items_due_on(items@, today),
{
    let ghost all = items@;
    let mut due: Vec<TodoItem> = Vec::new();
    assert(all.take(0) =~= Seq::<TodoItem>::empty());
    for item in it: items
        invariant
            it.seq() == all,
            today.wf(),
            forall|i: int| 0 <= i < all.len() ==> (#[trigger] all[i]).due_date_wf(),
            due@ == items_due_on(all.take(it.index() as int), today),
    {
        proof {
            assert(all.take(it.index() + 1).drop_last() =~= all.take(it.index() as int));
            assert(all.take(it.index() + 1).last() == all[it.index() as int]);
        }
        if item.is_due_on(today) {
            due.push(item);
        }
    }
    assert(all.take(all.len() as int) =~= all);
    due
}

impl EventStore {
    /// A store whose events live in the directory `data_dir`.
    pub fn new(data_dir: &str) -> (store: EventStore)
        ensures
            store@ == data_dir@,
    {
        EventStore { data_dir: data_dir.to_owned() }
    }

    /// The path of the data directory.
    pub fn data_dir(&self) -> (dir: &str)
        ensures
            dir@ == self@,
    {
        self.data_dir.as_str()
    }

    /// The loaded events in the order in which they are replayed: sorted
    /// stably by time, an update stored without a time coming after every
    /// event with one.
    pub fn order_loaded_events(&self, loaded: Vec<TodoEvent>) -> (events: Vec<TodoEvent>)
        ensures
            stably_ordered(loaded@, events@),
    {
        order_events(loaded)
    }

    /// The current items, from replaying the events in order.  The order of
    /// the items is not part of the result.
    pub fn rebuild_state(&self, events: Vec<TodoEvent>) -> (items: Vec<TodoItem>)
        ensures
            lists_state(items@, replay(events@)),
    {
        replay_events(events)
    }

    /// The items that are due on the current UTC day, in their order.
    pub fn get_today_tasks(&self, items: Vec<TodoItem>) -> (due: Vec<TodoItem>)
        requires
            forall|i: int| 0 <= i < items@.len() ==> (#[trigger] items@[i]).due_date_wf(),
        ensures
            exists|now: Timestamp| now.wf() && due@ == items_due_on(items@, now),
    {
        let today = current_time();
        due_on_day(items, today)
    }
}

/// Rebuilding from the same loaded events gives the same items, up to their
/// order: ordering and replay depend on nothing but the events.
pub proof fn lemma_rebuild_is_deterministic(
    loaded: Seq<TodoEvent>,
    ordered_a: Seq<TodoEvent>,
    ordered_b: Seq<TodoEvent>,
    items_a: Seq<TodoItem>,
    items_b: Seq<TodoItem>,
)
    requires
        stably_ordered(loaded, ordered_a),
        stably_ordered(loaded, ordered_b),
        lists_state(items_a, replay(ordered_a)),
        lists_state(items_b, replay(ordered_b)),
    ensures
        ordered_a == ordered_b,
        forall|i: int| 0 <= i < items_a.len() ==> holds_item(items_b, #[trigger] items_a[i]@),
        forall|j: int| 0 <= j < items_b.len() ==> holds_item(items_a, #[trigger] items_b[j]@),
{
    lemma_load_order_irrelevant(loaded, loaded, ordered_a, ordered_b);
    lemma_listings_agree(items_a, items_b, replay(ordered_a));
}

/// Rebuilding from the same stored events, no two of which have the same
/// ordering time, gives the same items whatever order the files were read
/// in.
pub proof fn lemma_rebuild_independent_of_read_order(
    loaded_a: Seq<TodoEvent>,
    loaded_b: Seq<TodoEvent>,
    ordered_a: Seq<TodoEvent>,
    ordered_b: Seq<TodoEvent>,
    items_a: Seq<TodoItem>,
    items_b: Seq<TodoItem>,
)
    requires
        forall|e: TodoEvent| loaded_a.contains(e) <==> loaded_b.contains(e),
        distinct_times(loaded_a),
        distinct_times(loaded_b),
        stably_ordered(loaded_a, ordered_a),
        stably_ordered(loaded_b, ordered_b),
        lists_state(items_a, replay(ordered_a)),
        lists_state(items_b, replay(ordered_b)),
    ensures
        forall|i: int| 0 <= i < items_a.len() ==> holds_item(items_b, #[trigger] items_a[i]@),
        forall|j: int| 0 <= j < items_b.len() ==> holds_item(items_a, #[trigger] items_b[j]@),
{
    lemma_same_events_same_order(loaded_a, loaded_b, ordered_a, ordered_b);
    lemma_listings_agree(items_a, items_b, replay(ordered_a));
}

} // verus!
