//! Rebuilding the current todo items by replaying events in order.
//!
//! The state after a run of events is a map from item id to the item's
//! contents.  A list of items stands for such a map when it holds each of the
//! map's items exactly once.

use vstd::prelude::*;

use crate::event::TodoEvent;
use crate::model::{ItemView, TodoItem, update_texts, updates_applied};
use crate::time::Timestamp;

verus! {

/// `item` marked completed at `at`.
pub open spec fn completed_view(item: ItemView, at: Timestamp) -> ItemView {
    ItemView { completed: true, updated_at: at, ..item }
}

/// The state after `event`, from `state`: an added item is stored under its
/// id (replacing any item with that id); a completion marks a stored item
/// completed as of the completion's time; an update sets the fields it names
/// on a stored item, which is then stored under its id (replacing any other
/// item with that id, should the update change the id); a deletion drops the
/// item.  A completion or an update
/// for an id that is not stored changes nothing.
pub open spec fn apply_event(state: Map<u128, ItemView>, event: TodoEvent) -> Map<u128, ItemView> {
    match event {
        TodoEvent::TodoAdded(item) => state.insert(item.id, item@),
        TodoEvent::TodoCompleted { id, completed_at } => {
            if state.contains_key(id) {
                state.insert(id, completed_view(state[id], completed_at))
            } else {
                state
            }
        },
        TodoEvent::TodoUpdated { id, updates, .. } => {
            if state.contains_key(id) {
                let item = updates_applied(state[id], update_texts(updates@));
                state.remove(id).insert(item.id, item)
            } else {
                state
            }
        },
        TodoEvent::TodoDeleted { id, .. } => state.remove(id),
    }
}

/// The state after replaying `events` in order, starting from `state`.
pub open spec fn replay_from(state: Map<u128, ItemView>, events: Seq<TodoEvent>) -> Map<u128, ItemView>
    decreases events.len(),
{
    if events.len() == 0 {
        state
    } else {
        apply_event(replay_from(state, events.drop_last()), events.last())
    }
}

/// The state after replaying `events` in order, starting with no items.
pub open spec fn replay(events: Seq<TodoEvent>) -> Map<u128, ItemView> {
    replay_from(Map::empty(), events)
}

/// `items` holds the items of `state`, each once: no two share an id, each
/// has the contents that `state` stores under its id, and each id in `state`
/// has its item in `items`.
pub open spec fn lists_state(items: Seq<TodoItem>, state: Map<u128, ItemView>) -> bool {
    &&& forall|i: int, j: int| 0 <= i < j < items.len() ==> items[i].id != items[j].id
    &&& forall|i: int|
        0 <= i < items.len() ==> state.contains_key(#[trigger] items[i].id) && state[items[i].id]
            == items[i]@
    &&& forall|id: u128|
        state.contains_key(id) ==> exists|i: int| 0 <= i < items.len() && #[trigger] items[i].id == id
}

/// The index of the item with id `id` in `items`, if there is one.
fn find_item(items: &Vec<TodoItem>, id: u128) -> (found: Option<usize>)
    ensures
        found matches Some(i) ==> i < items@.len() && items@[i as int].id == id,
        found is None ==> forall|i: int| 0 <= i < items@.len() ==> items@[i].id != id,
{
    let mut k: usize = 0;
    while k < items.len()
        invariant
            k <= items@.len(),
            forall|i: int| 0 <= i < k ==> items@[i].id != id,
        decreases items@.len() - k,
    {
        if items[k].id == id {
            return Some(k);
        }
        k += 1;
    }
    None
}

/// The index of an item other than the one at `skip` with id `id`, if any.
fn find_other(items: &Vec<TodoItem>, id: u128, skip: usize) -> (found: Option<usize>)
    ensures
        found matches Some(j) ==> j < items@.len() && j != skip && items@[j as int].id == id,
        found is None ==> forall|j: int| 0 <= j < items@.len() && j != skip ==> items@[j].id != id,
{
    let mut k: usize = 0;
    while k < items.len()
        invariant
            k <= items@.len(),
            forall|j: int| 0 <= j < k && j != skip ==> items@[j].id != id,
        decreases items@.len() - k,
    {
        if k != skip && items[k].id == id {
            return Some(k);
        }
        k += 1;
    }
    None
}

/// After the item at `i` took the id of the item at `j`, dropping the item at
/// `j` lists the state in which the item moved to its new id.
proof fn lemma_rekeyed_over_other(
    before: Seq<TodoItem>,
    mid: Seq<TodoItem>,
    after: Seq<TodoItem>,
    state: Map<u128, ItemView>,
    id: u128,
    i: int,
    j: int,
)
    requires
        lists_state(before, state),
        0 <= i < before.len(),
        0 <= j < before.len(),
        i != j,
        before[i].id == id,
        mid.len() == before.len(),
        forall|k: int| 0 <= k < mid.len() && k != i ==> mid[k] == before[k],
        mid[i].id == mid[j].id,
        mid[i].id != id,
        after == mid.remove(j),
    ensures
        lists_state(after, state.remove(id).insert(mid[i].id, mid[i]@)),
{
    let new_id = mid[i].id;
    let new_state = state.remove(id).insert(new_id, mid[i]@);
    let pos_i = if i < j { i } else { i - 1 };
    assert(after[pos_i] == mid[i]);
    assert forall|a: int, b: int| 0 <= a < b < after.len() implies after[a].id != after[b].id by {
        let ma = if a < j { a } else { a + 1 };
        let mb = if b < j { b } else { b + 1 };
        assert(after[a] == mid[ma] && after[b] == mid[mb]);
        assert(ma != mb && ma != j && mb != j);
        if ma != i && mb != i {
            assert(mid[ma] == before[ma] && mid[mb] == before[mb]);
        } else if ma == i {
            assert(mid[mb] == before[mb] && before[j].id == new_id);
        } else {
            assert(mid[ma] == before[ma] && before[j].id == new_id);
        }
    }
    assert forall|k: int| 0 <= k < after.len() implies new_state.contains_key(#[trigger] after[k].id)
        && new_state[after[k].id] == after[k]@ by {
        let m = if k < j { k } else { k + 1 };
        assert(after[k] == mid[m]);
        if m != i {
            assert(mid[m] == before[m]);
            assert(before[m].id != before[i].id);
            assert(before[m].id != before[j].id);
        }
    }
    assert forall|key: u128| new_state.contains_key(key) implies exists|k: int|
        0 <= k < after.len() && #[trigger] after[k].id == key by {
        if key == new_id {
            assert(after[pos_i].id == key);
        } else {
            let m = choose|m: int| 0 <= m < before.len() && before[m].id == key;
            assert(m != i && m != j);
            let k = if m < j { m } else { m - 1 };
            assert(after[k] == mid[m]);
            assert(after[k].id == key);
        }
    }
}

/// Applies one event to the listed items.
fn apply_to_items(items: &mut Vec<TodoItem>, event: TodoEvent, Ghost(state): Ghost<Map<u128, ItemView>>)
    requires
        lists_state(old(items)@, state),
    ensures
        lists_state(final(items)@, apply_event(state, event)),
{
    let ghost new_state = apply_event(state, event);
    match event {
        TodoEvent::TodoAdded(item) => {
            let ghost added = item;
            let ghost mut pos: int = 0;
            match find_item(items, item.id) {
                Some(i) => {
                    items[i] = item;
                    proof {
                        pos = i as int;
                    }
                },
                None => {
                    items.push(item);
                    proof {
                        pos = items@.len() - 1;
                    }
                },
            }
            assert(items@[pos] == added);
            assert forall|id: u128| new_state.contains_key(id) implies exists|i: int|
                0 <= i < items@.len() && #[trigger] items@[i].id == id by {
                if id != added.id {
                    let j = choose|j: int| 0 <= j < old(items)@.len() && old(items)@[j].id == id;
                    assert(items@[j].id == id);
                } else {
                    assert(items@[pos].id == id);
                }
            }
        },
        TodoEvent::TodoCompleted { id, completed_at } => {
            match find_item(items, id) {
                Some(i) => {
                    items[i].mark_completed_at(completed_at);
                    assert(items@[i as int]@ =~= completed_view(old(items)@[i as int]@, completed_at));
                    assert forall|k: u128| new_state.contains_key(k) implies exists|j: int|
                        0 <= j < items@.len() && #[trigger] items@[j].id == k by {
                        let j = choose|j: int| 0 <= j < old(items)@.len() && old(items)@[j].id == k;
                        assert(items@[j].id == k);
                    }
                },
                None => {},
            }
        },
        TodoEvent::TodoUpdated { id, updates, .. } => {
            match find_item(items, id) {
                Some(i) => {
                    let ghost before = items@;
                    items[i].apply_updates(&updates);
                    let new_id = items[i].id;
                    let ghost mid = items@;
                    let ghost updated = mid[i as int]@;
                    assert(updated == updates_applied(state[id], update_texts(updates@)));
                    assert(new_state == state.remove(id).insert(new_id, updated));
                    assert(forall|k: int| 0 <= k < mid.len() && k != i ==> mid[k] == before[k]);
                    if new_id == id {
                        assert forall|k: u128| new_state.contains_key(k) implies exists|j: int|
                            0 <= j < items@.len() && #[trigger] items@[j].id == k by {
                            if k == id {
                                assert(items@[i as int].id == k);
                            } else {
                                let j = choose|j: int| 0 <= j < before.len() && before[j].id == k;
                                assert(items@[j].id == k);
                            }
                        }
                    } else {
                        match find_other(items, new_id, i) {
                            Some(j) => {
                                items.remove(j);
                                proof {
                                    lemma_rekeyed_over_other(before, mid, items@, state, id, i as int, j as int);
                                }
                            },
                            None => {
                                assert forall|a: int, b: int| 0 <= a < b < items@.len() implies items@[a].id
                                    != items@[b].id by {
                                    if a != i && b != i {
                                        assert(items@[a] == before[a] && items@[b] == before[b]);
                                    }
                                }
                                assert forall|k: int| 0 <= k < items@.len() implies new_state.contains_key(
                                    #[trigger] items@[k].id,
                                ) && new_state[items@[k].id] == items@[k]@ by {
                                    if k != i {
                                        assert(items@[k] == before[k]);
                                        assert(before[k].id != before[i as int].id);
                                    }
                                }
                                assert forall|k: u128| new_state.contains_key(k) implies exists|j: int|
                                    0 <= j < items@.len() && #[trigger] items@[j].id == k by {
                                    if k == new_id {
                                        assert(items@[i as int].id == k);
                                    } else {
                                        let j = choose|j: int| 0 <= j < before.len() && before[j].id == k;
                                        assert(j != i);
                                        assert(items@[j].id == k);
                                    }
                                }
                            },
                        }
                    }
                },
                None => {},
            }
        },
        TodoEvent::TodoDeleted { id, .. } => {
            match find_item(items, id) {
                Some(i) => {
                    items.remove(i);
                    assert forall|k: u128| new_state.contains_key(k) implies exists|j: int|
                        0 <= j < items@.len() && #[trigger] items@[j].id == k by {
                        let j = choose|j: int| 0 <= j < old(items)@.len() && old(items)@[j].id == k;
                        if j < i {
                            assert(items@[j].id == k);
                        } else {
                            assert(items@[j - 1].id == k);
                        }
                    }
                },
                None => {
                    assert(new_state =~= state);
                },
            }
        },
    }
}

/// The items that result from replaying `events` in order.  The order of
/// the items is not part of the result.
pub fn replay_events(events: Vec<TodoEvent>) -> (items: Vec<TodoItem>)
    ensures
        lists_state(items@, replay(events@)),
{
    let ghost all = events@;
    let mut items: Vec<TodoItem> = Vec::new();
    assert(lists_state(items@, replay(all.take(0))));
    for event in it: events
        invariant
            it.seq() == all,
            lists_state(items@, replay(all.take(it.index() as int))),
    {
        let ghost before = replay(all.take(it.index() as int));
        proof {
            assert(all.take(it.index() + 1).drop_last() =~= all.take(it.index() as int));
        }
        apply_to_items(&mut items, event, Ghost(before));
    }
    assert(all.take(all.len() as int) =~= all);
    items
}

/// Replaying a log in two parts gives the same state as replaying it whole:
/// the state after `first + second` is the state after `second` replayed on
/// the state after `first`.
pub proof fn lemma_replay_concat(state: Map<u128, ItemView>, first: Seq<TodoEvent>, second: Seq<TodoEvent>)
    ensures
        replay_from(state, first + second) == replay_from(replay_from(state, first), second),
    decreases second.len(),
{
    if second.len() == 0 {
        assert(first + second =~= first);
    } else {
        lemma_replay_concat(state, first, second.drop_last());
        assert((first + second).drop_last() =~= first + second.drop_last());
    }
}

/// Every item of a replayed state is stored under its own id.
pub proof fn lemma_items_keyed_by_id(events: Seq<TodoEvent>)
    ensures
        forall|id: u128| #[trigger] replay(events).contains_key(id) ==> replay(events)[id].id == id,
    decreases events.len(),
{
    if events.len() > 0 {
        lemma_items_keyed_by_id(events.drop_last());
    }
}

/// After an item is added, the state holds exactly that item under its id,
/// and every other item is as before.
pub proof fn lemma_added_item_is_stored(events: Seq<TodoEvent>, item: TodoItem)
    ensures
        replay(events.push(TodoEvent::TodoAdded(item))).contains_key(item.id),
        replay(events.push(TodoEvent::TodoAdded(item)))[item.id] == item@,
        replay(events.push(TodoEvent::TodoAdded(item))).remove(item.id) == replay(events).remove(item.id),
{
    assert(events.push(TodoEvent::TodoAdded(item)).drop_last() =~= events);
    assert(replay(events.push(TodoEvent::TodoAdded(item))).remove(item.id) =~= replay(events).remove(item.id));
}

/// After an item is deleted, the state holds no item with its id, and every
/// other item is as before.
pub proof fn lemma_deleted_item_is_gone(events: Seq<TodoEvent>, id: u128, deleted_at: Timestamp)
    ensures
        replay(events.push(TodoEvent::TodoDeleted { id, deleted_at })) == replay(events).remove(id),
        !replay(events.push(TodoEvent::TodoDeleted { id, deleted_at })).contains_key(id),
{
    assert(events.push(TodoEvent::TodoDeleted { id, deleted_at }).drop_last() =~= events);
}

/// Completing a stored item marks it completed as of the completion's time
/// and changes nothing else; completing an unknown id changes nothing.
pub proof fn lemma_completion(events: Seq<TodoEvent>, id: u128, completed_at: Timestamp)
    ensures
        ({
            let before = replay(events);
            let after = replay(events.push(TodoEvent::TodoCompleted { id, completed_at }));
            &&& before.contains_key(id) ==> after == before.insert(id, completed_view(before[id], completed_at))
            &&& !before.contains_key(id) ==> after == before
        }),
{
    assert(events.push(TodoEvent::TodoCompleted { id, completed_at }).drop_last() =~= events);
}

/// Replaying a completion of a stored item leaves that item completed, with
/// `updated_at` set to the completion's time and every other field as it
/// was, whatever those fields hold; every other item is as it was.
pub proof fn lemma_completion_completes(events: Seq<TodoEvent>, id: u128, completed_at: Timestamp)
    requires
        replay(events).contains_key(id),
    ensures
        ({
            let before = replay(events);
            let after = replay(events.push(TodoEvent::TodoCompleted { id, completed_at }));
            &&& after.contains_key(id)
            &&& after[id].completed
            &&& after[id].updated_at == completed_at
            &&& after[id].id == before[id].id
            &&& after[id].title == before[id].title
            &&& after[id].description == before[id].description
            &&& after[id].priority == before[id].priority
            &&& after[id].due_date == before[id].due_date
            &&& after[id].stakeholders == before[id].stakeholders
            &&& after[id].created_at == before[id].created_at
            &&& after[id].source_url == before[id].source_url
            &&& after[id].tags == before[id].tags
            &&& after.dom() == before.dom()
            &&& forall|k: u128| #[trigger] after.contains_key(k) && k != id ==> after[k] == before[k]
        }),
{
    assert(events.push(TodoEvent::TodoCompleted { id, completed_at }).drop_last() =~= events);
    let before = replay(events);
    let after = replay(events.push(TodoEvent::TodoCompleted { id, completed_at }));
    assert(after.dom() =~= before.dom());
}

/// An update sets the fields it names on a stored item, which is then stored
/// under its (possibly new) id, and changes nothing else; an update for an
/// unknown id changes nothing.
pub proof fn lemma_update_applied(
    events: Seq<TodoEvent>,
    id: u128,
    updated_at: Option<Timestamp>,
    updates: Vec<(String, String)>,
)
    ensures
        ({
            let before = replay(events);
            let after = replay(events.push(TodoEvent::TodoUpdated { id, updated_at, updates }));
            &&& before.contains_key(id) ==> after == before.remove(id).insert(
                updates_applied(before[id], update_texts(updates@)).id,
                updates_applied(before[id], update_texts(updates@)),
            )
            &&& !before.contains_key(id) ==> after == before
        }),
{
    assert(events.push(TodoEvent::TodoUpdated { id, updated_at, updates }).drop_last() =~= events);
}

/// Whether some item of `items` has the contents `item`.
pub open spec fn holds_item(items: Seq<TodoItem>, item: ItemView) -> bool {
    exists|j: int| 0 <= j < items.len() && #[trigger] items[j]@ == item
}

/// Two lists that stand for the same state hold the same items: rebuilding
/// from the same events twice gives the same items, up to their order.
pub proof fn lemma_listings_agree(a: Seq<TodoItem>, b: Seq<TodoItem>, state: Map<u128, ItemView>)
    requires
        lists_state(a, state),
        lists_state(b, state),
    ensures
        forall|i: int| 0 <= i < a.len() ==> holds_item(b, #[trigger] a[i]@),
        forall|j: int| 0 <= j < b.len() ==> holds_item(a, #[trigger] b[j]@),
{
    assert forall|i: int| 0 <= i < a.len() implies holds_item(b, #[trigger] a[i]@) by {
        let id = a[i].id;
        assert(state.contains_key(id));
        let j = choose|j: int| 0 <= j < b.len() && #[trigger] b[j].id == id;
        assert(b[j]@ == a[i]@);
    }
    assert forall|j: int| 0 <= j < b.len() implies holds_item(a, #[trigger] b[j]@) by {
        let id = b[j].id;
        assert(state.contains_key(id));
        let i = choose|i: int| 0 <= i < a.len() && #[trigger] a[i].id == id;
        assert(a[i]@ == b[j]@);
    }
}

} // verus!
