use todognome::event::TodoEvent;
use todognome::model::{Priority, Stakeholder, TodoItem, UUID_V4_BITS, UUID_VERSION_VARIANT_MASK};
use todognome::order::order_events;
use todognome::replay::replay_events;
use todognome::store::{due_on_day, EventStore};
use todognome::time::Timestamp;
use todognome::ui::{due_label, due_label_for, priority_from_choice, todo_from_form, todo_from_form_at};

fn ts(secs: i64) -> Timestamp {
    Timestamp::from_parts(secs, 0).unwrap()
}

fn item(id: u128, title: &str, created: i64) -> TodoItem {
    TodoItem {
        id,
        title: title.to_string(),
        description: None,
        priority: Priority::Medium,
        due_date: None,
        stakeholders: vec![],
        completed: false,
        created_at: ts(created),
        updated_at: ts(created),
        source_url: None,
        tags: vec![],
    }
}

fn find(items: &[TodoItem], id: u128) -> Option<&TodoItem> {
    items.iter().find(|i| i.id == id)
}

#[test]
fn new_item_is_open_with_random_v4_id() {
    let a = TodoItem::new(
        "Write report".to_string(),
        Some("quarterly".to_string()),
        Priority::High,
        Some(ts(1_700_000_000)),
        vec![Stakeholder { name: "Ann".to_string(), email: None }],
        Some("https://x".to_string()),
        vec!["work".to_string()],
    );
    let b = TodoItem::new("Other".to_string(), None, Priority::Low, None, vec![], None, vec![]);
    assert_eq!(a.id & UUID_VERSION_VARIANT_MASK, UUID_V4_BITS);
    assert_eq!(uuid::Uuid::from_u128(a.id).get_version_num(), 4);
    assert_eq!(uuid::Uuid::from_u128(a.id).get_variant(), uuid::Variant::RFC4122);
    assert_ne!(a.id, b.id);
    assert!(!a.completed);
    assert_eq!(a.created_at, a.updated_at);
    assert_eq!(a.title, "Write report");
    assert_eq!(a.priority, Priority::High);
    assert_eq!(a.due_date, Some(ts(1_700_000_000)));
    assert_eq!(a.stakeholders.len(), 1);
    assert_eq!(a.tags, vec!["work".to_string()]);
    assert_eq!(a.source_url.as_deref(), Some("https://x"));
    let now = chrono::Utc::now().timestamp();
    assert!((a.created_at.secs - now).abs() < 60);
}

#[test]
fn mark_completed_sets_flag_and_time() {
    let mut a = item(1, "a", 100);
    a.mark_completed_at(ts(200));
    assert!(a.completed);
    assert_eq!(a.updated_at, ts(200));
    assert_eq!(a.created_at, ts(100));
    let mut b = item(2, "b", 100);
    b.mark_completed();
    assert!(b.completed);
    assert!(b.updated_at.secs > 100);
    assert_eq!(b.title, "b");
}

#[test]
fn due_on_a_day() {
    let mut a = item(1, "a", 0);
    assert!(!a.is_due_on(ts(0)));
    assert!(!a.is_due_today());
    a.due_date = Some(ts(86_400 + 3_600));
    assert!(a.is_due_on(ts(86_400)));
    assert!(a.is_due_on(ts(2 * 86_400 - 1)));
    assert!(!a.is_due_on(ts(86_399)));
    assert!(!a.is_due_today());
    let now = chrono::Utc::now();
    a.due_date = Timestamp::from_parts(now.timestamp(), now.timestamp_subsec_nanos());
    let due_today = a.is_due_today();
    let later = chrono::Utc::now();
    if now.date_naive() == later.date_naive() {
        assert!(due_today);
    }
}

#[test]
fn event_ids_and_times() {
    let added = TodoEvent::TodoAdded(item(7, "a", 50));
    let completed = TodoEvent::TodoCompleted { id: 8, completed_at: ts(60) };
    let updated = TodoEvent::TodoUpdated { id: 9, updated_at: None, updates: vec![] };
    let deleted = TodoEvent::TodoDeleted { id: 10, deleted_at: ts(70) };
    assert_eq!(added.id(), 7);
    assert_eq!(completed.id(), 8);
    assert_eq!(updated.id(), 9);
    assert_eq!(deleted.id(), 10);
    assert_eq!(added.timestamp(), ts(50));
    assert_eq!(completed.timestamp(), ts(60));
    assert_eq!(deleted.timestamp(), ts(70));
    assert_eq!(updated.timestamp_at(ts(99)), ts(99));
    assert!(updated.timestamp().secs >= chrono::Utc::now().timestamp() - 60);
    assert_eq!(added.file_name(), "events_50_0000000000_00000000000000000000000000000007.json");
    assert_eq!(deleted.file_name_at(ts(0)), "events_70_0000000000_0000000000000000000000000000000a.json");
    assert_eq!(
        updated.file_name_at(Timestamp::from_parts(1_234, 56).unwrap()),
        "events_1234_0000000056_00000000000000000000000000000009.json"
    );
    let id = 0x0123_4567_89ab_cdef_0011_2233_4455_6677u128;
    let uuid_text = uuid::Uuid::from_u128(id).simple().to_string();
    let leap = TodoEvent::TodoCompleted { id, completed_at: Timestamp::from_parts(-1, 1_999_999_999).unwrap() };
    assert_eq!(leap.file_name(), format!("events_-1_1999999999_{uuid_text}.json"));
}

#[test]
fn replay_add_complete_delete() {
    let events = vec![
        TodoEvent::TodoAdded(item(1, "one", 10)),
        TodoEvent::TodoAdded(item(2, "two", 11)),
        TodoEvent::TodoCompleted { id: 1, completed_at: ts(12) },
        TodoEvent::TodoCompleted { id: 99, completed_at: ts(13) },
        TodoEvent::TodoUpdated {
            id: 2,
            updated_at: Some(ts(13)),
            updates: vec![("title".to_string(), "\"x\"".to_string())],
        },
        TodoEvent::TodoDeleted { id: 2, deleted_at: ts(14) },
        TodoEvent::TodoAdded(item(3, "three", 15)),
    ];
    let items = replay_events(events);
    assert_eq!(items.len(), 2);
    let one = find(&items, 1).unwrap();
    assert!(one.completed);
    assert_eq!(one.updated_at, ts(12));
    assert_eq!(one.title, "one");
    assert!(find(&items, 2).is_none());
    assert_eq!(find(&items, 3).unwrap(), &item(3, "three", 15));
}

#[test]
fn adding_again_replaces_the_item() {
    let events = vec![
        TodoEvent::TodoAdded(item(1, "first", 10)),
        TodoEvent::TodoCompleted { id: 1, completed_at: ts(11) },
        TodoEvent::TodoAdded(item(1, "second", 12)),
    ];
    let items = replay_events(events);
    assert_eq!(items, vec![item(1, "second", 12)]);
}

fn update(id: u128, fields: &[(&str, &str)]) -> TodoEvent {
    TodoEvent::TodoUpdated {
        id,
        updated_at: None,
        updates: fields.iter().map(|(f, v)| (f.to_string(), v.to_string())).collect(),
    }
}

#[test]
fn updates_set_the_named_fields() {
    let events = vec![
        TodoEvent::TodoAdded(item(1, "", 1)),
        update(1, &[("title", "\"new\"")]),
    ];
    assert_eq!(replay_events(events)[0].title, "new");

    let events = vec![
        TodoEvent::TodoAdded(item(1, "a", 1)),
        update(
            1,
            &[
                ("description", "\"details\""),
                ("priority", "\"Critical\""),
                ("due_date", "\"2024-02-29T12:00:00Z\""),
                ("completed", "true"),
                ("created_at", "\"1970-01-01T00:00:05.5Z\""),
                ("updated_at", "\"1970-01-01T00:01:00Z\""),
                ("source_url", "\"https://x\""),
                ("tags", "[\"a\", \"b\"]"),
            ],
        ),
    ];
    let got = &replay_events(events)[0];
    assert_eq!(got.description.as_deref(), Some("details"));
    assert_eq!(got.priority, Priority::Critical);
    assert_eq!(got.due_date, Some(ts(1_709_208_000)));
    assert!(got.completed);
    assert_eq!(got.created_at, Timestamp::from_parts(5, 500_000_000).unwrap());
    assert_eq!(got.updated_at, ts(60));
    assert_eq!(got.source_url.as_deref(), Some("https://x"));
    assert_eq!(got.tags, vec!["a".to_string(), "b".to_string()]);

    let events = vec![
        TodoEvent::TodoAdded(item(1, "a", 1)),
        update(1, &[("description", "\"d\""), ("source_url", "\"u\""), ("due_date", "\"1970-01-02T00:00:00Z\"")]),
        update(1, &[("description", "null"), ("source_url", "null"), ("due_date", "null")]),
    ];
    let got = &replay_events(events)[0];
    assert!(got.description.is_none() && got.source_url.is_none() && got.due_date.is_none());
}

#[test]
fn updates_that_do_not_read_change_nothing() {
    let events = vec![
        TodoEvent::TodoAdded(item(1, "a", 1)),
        update(
            1,
            &[
                ("title", "new"),
                ("priority", "\"Urgent\""),
                ("completed", "\"yes\""),
                ("id", "\"x\""),
                ("stakeholders", "[{\"email\": \"e\"}]"),
                ("stakeholders", "5"),
                ("color", "\"red\""),
                ("tags", "\"one\""),
                ("created_at", "\"yesterday\""),
            ],
        ),
        update(2, &[("title", "\"ghost\"")]),
    ];
    assert_eq!(replay_events(events), vec![item(1, "a", 1)]);
}

#[test]
fn replay_of_nothing_is_empty() {
    assert!(replay_events(vec![]).is_empty());
    let deleted_unknown = vec![TodoEvent::TodoDeleted { id: 4, deleted_at: ts(1) }];
    assert!(replay_events(deleted_unknown).is_empty());
}

#[test]
fn ordering_is_by_time_and_stable() {
    let events = vec![
        TodoEvent::TodoDeleted { id: 1, deleted_at: ts(30) },
        TodoEvent::TodoAdded(item(1, "a", 10)),
        TodoEvent::TodoUpdated { id: 1, updated_at: None, updates: vec![] },
        TodoEvent::TodoUpdated { id: 4, updated_at: Some(ts(15)), updates: vec![] },
        TodoEvent::TodoCompleted { id: 2, completed_at: ts(20) },
        TodoEvent::TodoAdded(item(2, "b", 20)),
        TodoEvent::TodoCompleted { id: 3, completed_at: Timestamp::from_parts(20, 1).unwrap() },
    ];
    let ordered = order_events(events);
    let summary: Vec<(u128, i64, u32)> = ordered
        .iter()
        .map(|e| (e.id(), e.time_for_ordering().secs, e.time_for_ordering().nanos))
        .collect();
    assert_eq!(
        summary,
        vec![(1, 10, 0), (4, 15, 0), (2, 20, 0), (2, 20, 0), (3, 20, 1), (1, 30, 0), (1, i64::MAX, u32::MAX)]
    );
    assert!(matches!(ordered[2], TodoEvent::TodoCompleted { .. }));
    assert!(matches!(ordered[3], TodoEvent::TodoAdded(_)));
    assert!(matches!(ordered[6], TodoEvent::TodoUpdated { updated_at: None, .. }));
}

#[test]
fn ordering_then_replay_applies_a_later_deletion() {
    let store = EventStore::new("./data");
    let loaded = vec![
        TodoEvent::TodoDeleted { id: 1, deleted_at: ts(30) },
        TodoEvent::TodoAdded(item(1, "a", 10)),
        TodoEvent::TodoAdded(item(2, "b", 20)),
    ];
    let ordered = store.order_loaded_events(loaded);
    let items = store.rebuild_state(ordered);
    assert_eq!(items, vec![item(2, "b", 20)]);
}

#[test]
fn store_keeps_its_directory() {
    let store = EventStore::new("./data");
    assert_eq!(store.data_dir(), "./data");
}

#[test]
fn tasks_due_on_a_day() {
    let mut a = item(1, "a", 0);
    a.due_date = Some(ts(86_400));
    let b = item(2, "b", 0);
    let mut c = item(3, "c", 0);
    c.due_date = Some(ts(86_400 * 2 - 1));
    let mut d = item(4, "d", 0);
    d.due_date = Some(ts(86_400 * 2));
    let due = due_on_day(vec![a.clone(), b, c.clone(), d], ts(86_400 + 5));
    assert_eq!(due, vec![a, c]);
    let store = EventStore::new("x");
    assert!(store.get_today_tasks(vec![item(5, "e", 0)]).is_empty());
}

#[test]
fn priority_texts() {
    assert_eq!(Priority::Low.label(), "🔵 Low");
    assert_eq!(Priority::Medium.label(), "🟡 Medium");
    assert_eq!(Priority::High.label(), "🟠 High");
    assert_eq!(Priority::Critical.label(), "🔴 Critical");
    assert_eq!(Priority::Critical.name(), "Critical");
    assert_eq!(priority_from_choice(Some("Low")), Priority::Low);
    assert_eq!(priority_from_choice(Some("High")), Priority::High);
    assert_eq!(priority_from_choice(Some("Critical")), Priority::Critical);
    assert_eq!(priority_from_choice(Some("Medium")), Priority::Medium);
    assert_eq!(priority_from_choice(Some("low")), Priority::Medium);
    assert_eq!(priority_from_choice(None), Priority::Medium);
}

#[test]
fn due_labels() {
    let mut a = item(1, "a", 0);
    assert_eq!(due_label(&a), "No due date");
    a.due_date = Some(ts(0));
    assert_eq!(due_label(&a), "Due: 1970-01-01");
    a.due_date = Some(ts(1_709_164_800));
    assert_eq!(due_label(&a), "Due: 2024-02-29");
    a.due_date = Some(ts(-1));
    assert_eq!(due_label(&a), "Due: 1969-12-31");
}

#[test]
fn form_to_item() {
    assert!(todo_from_form(String::new(), Some("High"), true, "https://x".to_string()).is_none());
    let plain = todo_from_form("Call Bob".to_string(), None, false, String::new()).unwrap();
    assert_eq!(plain.title, "Call Bob");
    assert_eq!(plain.priority, Priority::Medium);
    assert!(plain.due_date.is_none());
    assert!(plain.source_url.is_none());
    assert!(plain.description.is_none());
    assert!(plain.stakeholders.is_empty() && plain.tags.is_empty());
    assert!(!plain.completed);
    let due = todo_from_form("Ship".to_string(), Some("Critical"), true, "https://t.example/1".to_string())
        .unwrap();
    assert_eq!(due.priority, Priority::Critical);
    assert!(due.due_date.is_some());
    assert!(due.is_due_on(due.due_date.unwrap()));
    assert_eq!(due.source_url.as_deref(), Some("https://t.example/1"));
}

#[test]
fn load_order_does_not_matter_for_distinct_times() {
    let events = || {
        vec![
            TodoEvent::TodoAdded(item(1, "a", 10)),
            TodoEvent::TodoCompleted { id: 1, completed_at: ts(11) },
            TodoEvent::TodoAdded(item(2, "b", 12)),
            TodoEvent::TodoDeleted { id: 2, deleted_at: ts(13) },
        ]
    };
    let mut reversed = events();
    reversed.reverse();
    let mut rotated = events();
    rotated.rotate_left(2);
    let a = order_events(events());
    assert_eq!(order_events(reversed), a);
    assert_eq!(order_events(rotated), a);
    let items = replay_events(a);
    assert_eq!(items.len(), 1);
    assert!(items[0].completed);
    assert_eq!(items[0].updated_at, ts(11));
}

#[test]
fn replaying_a_longer_log_continues_from_the_shorter() {
    let first = vec![
        TodoEvent::TodoAdded(item(1, "a", 1)),
        TodoEvent::TodoAdded(item(2, "b", 2)),
    ];
    let mut whole = first.clone();
    whole.push(TodoEvent::TodoDeleted { id: 1, deleted_at: ts(3) });
    whole.push(TodoEvent::TodoAdded(item(3, "c", 4)));
    let mut expected: Vec<TodoItem> =
        replay_events(first).into_iter().filter(|i| i.id != 1).collect();
    expected.push(item(3, "c", 4));
    let mut got = replay_events(whole);
    got.sort_by_key(|i| i.id);
    expected.sort_by_key(|i| i.id);
    assert_eq!(got, expected);
}

#[test]
fn rebuilt_items_have_distinct_ids() {
    let events = vec![
        TodoEvent::TodoAdded(item(1, "a", 1)),
        TodoEvent::TodoAdded(item(1, "b", 2)),
        TodoEvent::TodoAdded(item(2, "c", 3)),
        TodoEvent::TodoAdded(item(1, "d", 4)),
    ];
    let items = replay_events(events);
    let mut ids: Vec<u128> = items.iter().map(|i| i.id).collect();
    ids.sort();
    ids.dedup();
    assert_eq!(ids.len(), items.len());
    assert_eq!(find(&items, 1).unwrap().title, "d");
}

#[test]
fn rebuilding_twice_gives_the_same_items() {
    let store = EventStore::new("./data");
    let events = || {
        vec![
            TodoEvent::TodoAdded(item(1, "a", 10)),
            TodoEvent::TodoCompleted { id: 1, completed_at: ts(20) },
            update(1, &[("title", "\"b\"")]),
        ]
    };
    let first = store.rebuild_state(events());
    let second = store.rebuild_state(events());
    assert_eq!(first, second);
    assert_eq!(first[0].updated_at, ts(20));
    assert_eq!(first[0].title, "b");
}

#[test]
fn new_item_at_a_given_time() {
    let a = TodoItem::new_at(
        "t".to_string(),
        None,
        Priority::Low,
        None,
        vec![],
        None,
        vec![],
        42,
        ts(1_000),
    );
    assert_eq!(a.id, 42);
    assert_eq!(a.created_at, ts(1_000));
    assert_eq!(a.updated_at, ts(1_000));
    assert!(!a.completed);
}

#[test]
fn form_at_a_given_time() {
    let now = ts(1_709_210_000);
    let due = todo_from_form_at("Ship".to_string(), Some("High"), true, String::new(), now, 9).unwrap();
    assert_eq!(due.due_date, Some(now));
    assert_eq!(due.created_at, now);
    assert_eq!(due.id, 9);
    assert!(due.is_due_on(now));
    let open = todo_from_form_at("Ship".to_string(), None, false, "u".to_string(), now, 9).unwrap();
    assert!(open.due_date.is_none());
    assert_eq!(open.source_url.as_deref(), Some("u"));
    assert!(todo_from_form_at(String::new(), None, true, String::new(), now, 9).is_none());
}

#[test]
fn due_label_texts() {
    assert_eq!(due_label_for(Some("2024-02-29")), "Due: 2024-02-29");
    assert_eq!(due_label_for(None), "No due date");
}

#[test]
fn priority_names_read_back() {
    for p in [Priority::Low, Priority::Medium, Priority::High, Priority::Critical] {
        assert_eq!(Priority::from_name(p.name()), Some(p));
    }
    assert_eq!(Priority::from_name("low"), None);
}

#[test]
fn updates_set_stakeholders() {
    let events = vec![
        TodoEvent::TodoAdded(item(1, "a", 1)),
        update(1, &[("stakeholders", "[{\"name\": \"Ann\", \"email\": \"ann@x\"}, {\"name\": \"Bo\", \"email\": null}, {\"email\": null, \"name\": \"Cy\", \"team\": \"ops\"}]")]),
    ];
    let got = &replay_events(events)[0];
    assert_eq!(
        got.stakeholders,
        vec![
            Stakeholder { name: "Ann".to_string(), email: Some("ann@x".to_string()) },
            Stakeholder { name: "Bo".to_string(), email: None },
            Stakeholder { name: "Cy".to_string(), email: None },
        ]
    );
    let events = vec![
        TodoEvent::TodoAdded(item(1, "a", 1)),
        update(1, &[("stakeholders", "[{\"name\": \"Ann\"}]")]),
        update(1, &[("stakeholders", "[]")]),
    ];
    assert!(replay_events(events)[0].stakeholders.is_empty());
    let events = vec![
        TodoEvent::TodoAdded(item(1, "a", 1)),
        update(1, &[("stakeholders", "[{\"name\": \"Ann\"}, {\"name\": null}]")]),
    ];
    assert!(replay_events(events)[0].stakeholders.is_empty());
}

#[test]
fn updates_can_change_the_id() {
    let new_id = 0x6ba7_b810_9dad_11d1_80b4_00c0_4fd4_30c8u128;
    let text = format!("\"{}\"", uuid::Uuid::from_u128(new_id));
    let events = vec![
        TodoEvent::TodoAdded(item(1, "a", 1)),
        TodoEvent::TodoAdded(item(new_id, "b", 2)),
        TodoEvent::TodoAdded(item(3, "c", 3)),
        update(1, &[("id", text.as_str())]),
    ];
    let mut items = replay_events(events);
    items.sort_by_key(|i| i.id);
    assert_eq!(items.len(), 2);
    assert_eq!(items[0], item(3, "c", 3));
    let mut moved = item(1, "a", 1);
    moved.id = new_id;
    assert_eq!(items[1], moved);
    let events = vec![TodoEvent::TodoAdded(item(1, "a", 1)), update(1, &[("id", "\"00000000-0000-0000-0000-000000000007\"")])];
    let items = replay_events(events);
    assert_eq!(items.len(), 1);
    assert_eq!(items[0].id, 7);
}

#[test]
fn timed_updates_keep_their_place() {
    let store = EventStore::new("./data");
    let loaded = vec![
        TodoEvent::TodoUpdated {
            id: 1,
            updated_at: Some(ts(20)),
            updates: vec![("title".to_string(), "\"second\"".to_string())],
        },
        TodoEvent::TodoAdded(item(1, "first", 10)),
        TodoEvent::TodoDeleted { id: 1, deleted_at: ts(30) },
        TodoEvent::TodoAdded(item(1, "third", 40)),
    ];
    let items = store.rebuild_state(store.order_loaded_events(loaded));
    assert_eq!(items, vec![item(1, "third", 40)]);
    let loaded = vec![
        update(1, &[("title", "\"late\"")]),
        TodoEvent::TodoAdded(item(1, "first", 10)),
    ];
    let items = store.rebuild_state(store.order_loaded_events(loaded));
    assert_eq!(items[0].title, "late");
}
