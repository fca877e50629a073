//! Putting loaded events into the order of their times, keeping events with
//! equal times in the order in which they were loaded.

use vstd::prelude::*;

use crate::event::TodoEvent;
use crate::time::Timestamp;

verus! {

/// Each event is no later than every event after it, by the times by which
/// events are put in order.
pub open spec fn time_ordered(events: Seq<TodoEvent>) -> bool {
    forall|i: int, j: int|
        0 <= i < j < events.len() ==> (#[trigger] events[i].sort_time()).not_after(
            #[trigger] events[j].sort_time(),
        )
}

/// The events of `events` whose ordering time is `t`, in their order in `events`.
pub open spec fn events_at(events: Seq<TodoEvent>, t: Timestamp) -> Seq<TodoEvent>
    decreases events.len(),
{
    if events.len() == 0 {
        Seq::empty()
    } else {
        let rest = events_at(events.drop_last(), t);
        if events.last().sort_time() == t {
            rest.push(events.last())
        } else {
            rest
        }
    }
}

/// `ordered` is `events` sorted stably by time: in time order, and for every
/// time the events at that time appear in the same order in both.
pub open spec fn stably_ordered(
    events: Seq<TodoEvent>,
    ordered: Seq<TodoEvent>,
) -> bool {
    &&& time_ordered(ordered)
    &&& forall|t: Timestamp| #[trigger] events_at(ordered, t) == events_at(events, t)
}

proof fn lemma_events_at_concat(a: Seq<TodoEvent>, b: Seq<TodoEvent>, t: Timestamp)
    ensures
        events_at(a + b, t) == events_at(a, t) + events_at(b, t),
    decreases b.len(),
{
    if b.len() == 0 {
        assert(a + b =~= a);
        assert(events_at(a, t) + events_at(b, t) =~= events_at(a, t));
    } else {
        lemma_events_at_concat(a, b.drop_last(), t);
        assert((a + b).drop_last() =~= a + b.drop_last());
        assert((a + b).last() == b.last());
        if b.last().sort_time() == t {
            assert(events_at(a, t) + events_at(b.drop_last(), t).push(b.last())
                =~= (events_at(a, t) + events_at(b.drop_last(), t)).push(b.last()));
        }
    }
}

proof fn lemma_events_at_none(s: Seq<TodoEvent>, t: Timestamp)
    requires
        forall|i: int| 0 <= i < s.len() ==> s[i].sort_time() != t,
    ensures
        events_at(s, t) == Seq::<TodoEvent>::empty(),
    decreases s.len(),
{
    if s.len() > 0 {
        lemma_events_at_none(s.drop_last(), t);
    }
}

proof fn lemma_events_at_single(e: TodoEvent, t: Timestamp)
    ensures
        events_at(seq![e], t) == (if e.sort_time() == t {
            seq![e]
        } else {
            Seq::<TodoEvent>::empty()
        }),
{
    assert(seq![e].drop_last() =~= Seq::<TodoEvent>::empty());
    assert(seq![e].last() == e);
    assert(events_at(Seq::<TodoEvent>::empty(), t) == Seq::<TodoEvent>::empty());
    assert(Seq::<TodoEvent>::empty().push(e) =~= seq![e]);
}

proof fn lemma_events_at_member(s: Seq<TodoEvent>, t: Timestamp, k: int)
    requires
        0 <= k < events_at(s, t).len(),
    ensures
        exists|i: int| 0 <= i < s.len() && s[i] == events_at(s, t)[k] && s[i].sort_time() == t,
    decreases s.len(),
{
    if s.len() > 0 {
        let rest = events_at(s.drop_last(), t);
        if k < rest.len() {
            lemma_events_at_member(s.drop_last(), t, k);
            let i = choose|i: int|
                0 <= i < s.drop_last().len() && s.drop_last()[i] == rest[k] && s.drop_last()[i].sort_time()
                    == t;
            assert(s[i] == s.drop_last()[i]);
        } else {
            assert(s[s.len() - 1] == s.last());
        }
    }
}

proof fn lemma_events_at_of_last(s: Seq<TodoEvent>)
    requires
        s.len() > 0,
    ensures
        events_at(s, s.last().sort_time()).len() > 0,
        events_at(s, s.last().sort_time()).last() == s.last(),
{
}

/// Two time-ordered logs that hold, for every time, the same events at that
/// time in the same order are the same log.
pub proof fn lemma_time_order_is_unique(a: Seq<TodoEvent>, b: Seq<TodoEvent>)
    requires
        time_ordered(a),
        time_ordered(b),
        forall|t: Timestamp| #[trigger] events_at(a, t) == events_at(b, t),
    ensures
        a == b,
    decreases a.len() + b.len(),
{
    if a.len() == 0 && b.len() == 0 {
        assert(a =~= b);
    } else if a.len() == 0 {
        lemma_events_at_of_last(b);
        assert(events_at(a, b.last().sort_time()) == Seq::<TodoEvent>::empty());
    } else if b.len() == 0 {
        lemma_events_at_of_last(a);
        assert(events_at(b, a.last().sort_time()) == Seq::<TodoEvent>::empty());
    } else {
        let ta = a.last().sort_time();
        let tb = b.last().sort_time();
        lemma_events_at_of_last(a);
        lemma_events_at_of_last(b);
        // the last time of `a` occurs in `b`, so it is no later than `b`'s last time
        assert(events_at(b, ta).len() > 0);
        lemma_events_at_member(b, ta, 0);
        let i = choose|i: int| 0 <= i < b.len() && b[i] == events_at(b, ta)[0] && b[i].sort_time() == ta;
        if i < b.len() - 1 {
            assert(b[i].sort_time().not_after(b[b.len() - 1].sort_time()));
        }
        assert(ta.not_after(tb));
        lemma_events_at_member(a, tb, 0);
        let j = choose|j: int| 0 <= j < a.len() && a[j] == events_at(a, tb)[0] && a[j].sort_time() == tb;
        if j < a.len() - 1 {
            assert(a[j].sort_time().not_after(a[a.len() - 1].sort_time()));
        }
        assert(tb.not_after(ta));
        assert(ta == tb);
        assert(a.last() == b.last());
        let a1 = a.drop_last();
        let b1 = b.drop_last();
        assert forall|t: Timestamp| #[trigger] events_at(a1, t) == events_at(b1, t) by {
            assert(events_at(a, t) == events_at(b, t));
            if t == ta {
                assert(events_at(a1, t) =~= events_at(a, t).drop_last());
                assert(events_at(b1, t) =~= events_at(b, t).drop_last());
            }
        }
        assert forall|x: int, y: int| 0 <= x < y < a1.len() implies (#[trigger] a1[x].sort_time()).not_after(#[trigger] a1[y].sort_time()) by {
            assert(a1[x] == a[x] && a1[y] == a[y]);
        }
        assert forall|x: int, y: int| 0 <= x < y < b1.len() implies (#[trigger] b1[x].sort_time()).not_after(#[trigger] b1[y].sort_time()) by {
            assert(b1[x] == b[x] && b1[y] == b[y]);
        }
        lemma_time_order_is_unique(a1, b1);
        assert(a =~= a1.push(a.last()));
        assert(b =~= b1.push(b.last()));
    }
}

/// The order in which events were loaded matters only among events that
/// share a time: two loads that hold, for every time, the same events at
/// that time in the same order are put into the same order.
pub proof fn lemma_load_order_irrelevant(
    loaded_a: Seq<TodoEvent>,
    loaded_b: Seq<TodoEvent>,
    ordered_a: Seq<TodoEvent>,
    ordered_b: Seq<TodoEvent>,
)
    requires
        forall|t: Timestamp| #[trigger] events_at(loaded_a, t) == events_at(loaded_b, t),
        stably_ordered(loaded_a, ordered_a),
        stably_ordered(loaded_b, ordered_b),
    ensures
        ordered_a == ordered_b,
{
    assert forall|t: Timestamp| #[trigger] events_at(ordered_a, t) == events_at(ordered_b, t) by {
        assert(events_at(ordered_a, t) == events_at(loaded_a, t));
        assert(events_at(ordered_b, t) == events_at(loaded_b, t));
        assert(events_at(loaded_a, t) == events_at(loaded_b, t));
    }
    lemma_time_order_is_unique(ordered_a, ordered_b);
}

/// No two events of `events` have the same time by which they are ordered.
pub open spec fn distinct_times(events: Seq<TodoEvent>) -> bool {
    forall|i: int, j: int|
        0 <= i < j < events.len() ==> (#[trigger] events[i]).sort_time() != (#[trigger] events[j]).sort_time()
}

proof fn lemma_events_at_one(s: Seq<TodoEvent>, t: Timestamp, i: int)
    requires
        distinct_times(s),
        0 <= i < s.len(),
        s[i].sort_time() == t,
    ensures
        events_at(s, t) == seq![s[i]],
    decreases s.len(),
{
    let d = s.drop_last();
    assert forall|x: int, y: int| 0 <= x < y < d.len() implies (#[trigger] d[x]).sort_time() != (#[trigger] d[y]).sort_time() by {
        assert(d[x] == s[x] && d[y] == s[y]);
    }
    if i == s.len() - 1 {
        assert forall|k: int| 0 <= k < d.len() implies d[k].sort_time() != t by {
            assert(d[k] == s[k]);
        }
        lemma_events_at_none(d, t);
        assert(Seq::<TodoEvent>::empty().push(s.last()) =~= seq![s[i]]);
    } else {
        assert(d[i] == s[i]);
        assert(s.last() == s[s.len() - 1]);
        lemma_events_at_one(d, t, i);
    }
}

/// Two loads of the same events, no two of which have the same time by which
/// they are ordered, are put into the same order, whatever the order in which
/// the events were loaded.
pub proof fn lemma_same_events_same_order(
    loaded_a: Seq<TodoEvent>,
    loaded_b: Seq<TodoEvent>,
    ordered_a: Seq<TodoEvent>,
    ordered_b: Seq<TodoEvent>,
)
    requires
        forall|e: TodoEvent| loaded_a.contains(e) <==> loaded_b.contains(e),
        distinct_times(loaded_a),
        distinct_times(loaded_b),
        stably_ordered(loaded_a, ordered_a),
        stably_ordered(loaded_b, ordered_b),
    ensures
        ordered_a == ordered_b,
{
    assert forall|t: Timestamp| #[trigger] events_at(loaded_a, t) == events_at(loaded_b, t) by {
        if exists|i: int| 0 <= i < loaded_a.len() && loaded_a[i].sort_time() == t {
            let i = choose|i: int| 0 <= i < loaded_a.len() && loaded_a[i].sort_time() == t;
            assert(loaded_a.contains(loaded_a[i]));
            assert(loaded_b.contains(loaded_a[i]));
            let j = choose|j: int| 0 <= j < loaded_b.len() && loaded_b[j] == loaded_a[i];
            lemma_events_at_one(loaded_a, t, i);
            lemma_events_at_one(loaded_b, t, j);
        } else if exists|j: int| 0 <= j < loaded_b.len() && loaded_b[j].sort_time() == t {
            let j = choose|j: int| 0 <= j < loaded_b.len() && loaded_b[j].sort_time() == t;
            assert(loaded_b.contains(loaded_b[j]));
            assert(loaded_a.contains(loaded_b[j]));
            let i = choose|i: int| 0 <= i < loaded_a.len() && loaded_a[i] == loaded_b[j];
            assert(loaded_a[i].sort_time() == t);
        } else {
            lemma_events_at_none(loaded_a, t);
            lemma_events_at_none(loaded_b, t);
        }
    }
    lemma_load_order_irrelevant(loaded_a, loaded_b, ordered_a, ordered_b);
}

/// Inserts `e` into the time-ordered `out` after every event that is no later
/// than it.
fn insert_in_time_order(
    out: &mut Vec<TodoEvent>,
    e: TodoEvent,
    Ghost(loaded): Ghost<Seq<TodoEvent>>,
)
    requires
        stably_ordered(loaded, old(out)@),
    ensures
        stably_ordered(loaded.push(e), final(out)@),
{
    let te = e.time_for_ordering();
    let mut p: usize = out.len();
    while p > 0 && !out[p - 1].time_for_ordering().is_not_after(&te)
        invariant
            p <= out@.len(),
            out@ == old(out)@,
            forall|q: int| p <= q < out@.len() ==> !(#[trigger] out@[q].sort_time()).not_after(te),
        decreases p,
    {
        p -= 1;
    }
    let ghost before = out@;
    proof {
        assert forall|q: int| 0 <= q < p implies (#[trigger] before[q].sort_time()).not_after(te) by {
            if q < p - 1 {
                assert(before[q].sort_time().not_after(before[p - 1].sort_time()));
            }
        }
    }
    out.insert(p, e);
    proof {
        let a = before.take(p as int);
        let b = before.skip(p as int);
        assert(before =~= a + b);
        assert(out@ =~= a + seq![e] + b);
        assert forall|t: Timestamp| #[trigger] events_at(out@, t) == events_at(loaded.push(e), t) by {
            lemma_events_at_concat(a + seq![e], b, t);
            lemma_events_at_concat(a, seq![e], t);
            lemma_events_at_concat(a, b, t);
            lemma_events_at_single(e, t);
            assert(loaded.push(e).drop_last() =~= loaded);
            if t == te {
                assert forall|i: int| 0 <= i < b.len() implies b[i].sort_time() != t by {
                    assert(b[i] == before[p + i]);
                }
                lemma_events_at_none(b, t);
                assert(events_at(a, t) + events_at(b, t) =~= events_at(a, t));
                assert(events_at(a, t) + seq![e] + events_at(b, t)
                    =~= events_at(a, t).push(e));
            } else {
                assert(events_at(a, t) + Seq::<TodoEvent>::empty() =~= events_at(a, t));
            }
        }
        assert forall|i: int, j: int| 0 <= i < j < out@.len() implies (#[trigger] out@[i].sort_time()).not_after(#[trigger] out@[j].sort_time()) by {
            if j < p {
                assert(out@[i] == before[i] && out@[j] == before[j]);
            } else if j == p {
                assert(out@[i] == before[i]);
            } else if i == p {
                assert(out@[j] == before[j - 1]);
            } else if i < p {
                assert(out@[i] == before[i] && out@[j] == before[j - 1]);
            } else {
                assert(out@[i] == before[i - 1] && out@[j] == before[j - 1]);
            }
        }
    }
}

/// The events sorted stably by the times by which they are ordered.
pub fn order_events(events: Vec<TodoEvent>) -> (ordered: Vec<TodoEvent>)
    ensures
        stably_ordered(events@, ordered@),
{
    let ghost all = events@;
    let mut out: Vec<TodoEvent> = Vec::new();
    assert(all.take(0) =~= Seq::<TodoEvent>::empty());
    for event in it: events
        invariant
            it.seq() == all,
            stably_ordered(all.take(it.index() as int), out@),
    {
        proof {
            assert(all.take(it.index() + 1) =~= all.take(it.index() as int).push(all[it.index() as int]));
        }
        insert_in_time_order(&mut out, event, Ghost(all.take(it.index() as int)));
    }
    assert(all.take(all.len() as int) =~= all);
    out
}

} // verus!
