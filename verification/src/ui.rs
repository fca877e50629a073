//! What the desktop front end shows of an item and how it turns the input of
//! the "Add New Todo" form into an item.

use vstd::prelude::*;

use crate::model::{Priority, TodoItem, is_random_uuid, priority_name, random_uuid};
use crate::text::same_text;
use crate::time::{Timestamp, current_time, format_utc_date, utc_date_text};

verus! {

/// The coloured circle that marks a priority: blue, yellow, orange or red.
pub open spec fn priority_mark(p: Priority) -> char {
    match p {
        Priority::Low => '\u{1F535}',
        Priority::Medium => '\u{1F7E1}',
        Priority::High => '\u{1F7E0}',
        Priority::Critical => '\u{1F534}',
    }
}

/// The label shown for a priority: its mark, a space, and its name.
pub open spec fn priority_label_text(p: Priority) -> Seq<char> {
    seq![priority_mark(p), ' '] + priority_name(p)
}

/// The priority picked by the form's choice: the priority of that name, and
/// `Medium` for no choice or any other text.
pub open spec fn chosen_priority(choice: Option<&str>) -> Priority {
    match choice {
        Some(t) => {
            if t@ == priority_name(Priority::Low) {
                Priority::Low
            } else if t@ == priority_name(Priority::High) {
                Priority::High
            } else if t@ == priority_name(Priority::Critical) {
                Priority::Critical
            } else {
                Priority::Medium
            }
        },
        None => Priority::Medium,
    }
}

/// `Due: `
pub open spec fn due_prefix() -> Seq<char> {
    seq!['D', 'u', 'e', ':', ' ']
}

/// `No due date`
pub open spec fn no_due_date_text() -> Seq<char> {
    seq!['N', 'o', ' ', 'd', 'u', 'e', ' ', 'd', 'a', 't', 'e']
}

/// The due-date label of an item: `Due: ` and the UTC date as `%Y-%m-%d`, or
/// `No due date`.
pub open spec fn due_label_text(item: TodoItem) -> Seq<char> {
    match item.due_date {
        Some(d) => due_prefix() + utc_date_text(d.secs, d.nanos),
        None => no_due_date_text(),
    }
}

impl Priority {
    /// The label shown for the priority.
    pub fn label(&self) -> (label: &'static str)
        ensures
            label@ == priority_label_text(*self),
    {
        proof {
            reveal_strlit("\u{1F535} Low");
            reveal_strlit("\u{1F7E1} Medium");
            reveal_strlit("\u{1F7E0} High");
            reveal_strlit("\u{1F534} Critical");
        }
        let label = match self {
            Priority::Low => "\u{1F535} Low",
            Priority::Medium => "\u{1F7E1} Medium",
            Priority::High => "\u{1F7E0} High",
            Priority::Critical => "\u{1F534} Critical",
        };
        assert(label@ =~= priority_label_text(*self));
        label
    }
}

/// The priority picked by the form's choice.
pub fn priority_from_choice(choice: Option<&str>) -> (p: Priority)
    ensures
        p == chosen_priority(choice),
{
    proof {
        reveal_strlit("Low");
        reveal_strlit("High");
        reveal_strlit("Critical");
        assert("Low"@ =~= priority_name(Priority::Low));
        assert("High"@ =~= priority_name(Priority::High));
        assert("Critical"@ =~= priority_name(Priority::Critical));
    }
    match choice {
        Some(t) => {
            if same_text(t, "Low") {
                Priority::Low
            } else if same_text(t, "High") {
                Priority::High
            } else if same_text(t, "Critical") {
                Priority::Critical
            } else {
                Priority::Medium
            }
        },
        None => Priority::Medium,
    }
}

/// The due-date label for a due date shown as `date_text`: `Due: ` and the
/// text, or `No due date` when there is no due date.
pub fn due_label_for(date_text: Option<&str>) -> (label: String)
    ensures
        label@ == match date_text {
            Some(t) => due_prefix() + t@,
            None => no_due_date_text(),
        },
{
    proof {
        reveal_strlit("Due: ");
        reveal_strlit("No due date");
        assert("Due: "@ =~= due_prefix());
        assert("No due date"@ =~= no_due_date_text());
    }
    match date_text {
        Some(t) => "Due: ".to_owned().concat(t),
        None => "No due date".to_owned(),
    }
}

/// The due-date label of an item, its date formatted by chrono.
pub fn due_label(item: &TodoItem) -> (label: String)
    requires
        item.due_date_wf(),
    ensures
        label@ == due_label_text(*item),
{
    match item.due_date {
        Some(d) => {
            let date = format_utc_date(d);
            due_label_for(Some(date.as_str()))
        },
        None => due_label_for(None),
    }
}

/// The item made from the "Add New Todo" form once it is accepted, with id
/// `id`, when the clock reads `now`: none for an empty title; otherwise a
/// new open item with that title, the chosen priority, due at `now` if "due
/// today" is ticked, and the source URL unless it is empty; no description,
/// stakeholders or tags; created and updated at `now`.
pub fn todo_from_form_at(
    title: String,
    priority_choice: Option<&str>,
    due_today: bool,
    source_url: String,
    now: Timestamp,
    id: u128,
) -> (item: Option<TodoItem>)
    ensures
        item is None <==> title@.len() == 0,
        item matches Some(item) ==> {
            &&& item.id == id
            &&& item.title == title
            &&& item.description is None
            &&& item.priority == chosen_priority(priority_choice)
            &&& (due_today ==> item.due_date == Some(now))
            &&& (!due_today ==> item.due_date is None)
            &&& item.stakeholders@.len() == 0
            &&& !item.completed
            &&& item.created_at == now
            &&& item.updated_at == now
            &&& (source_url@.len() == 0 ==> item.source_url is None)
            &&& (source_url@.len() != 0 ==> item.source_url == Some(source_url))
            &&& item.tags@.len() == 0
        },
{
    if title.as_str().is_empty() {
        return None;
    }
    let priority = priority_from_choice(priority_choice);
    let due_date: Option<Timestamp> = if due_today {
        Some(now)
    } else {
        None
    };
    let source_url = if source_url.as_str().is_empty() {
        None
    } else {
        Some(source_url)
    };
    Some(TodoItem::new_at(title, None, priority, due_date, Vec::new(), source_url, Vec::new(), id, now))
}

/// The item made from the "Add New Todo" form once it is accepted, with a
/// fresh random id and the current time, as `todo_from_form_at` describes.
pub fn todo_from_form(
    title: String,
    priority_choice: Option<&str>,
    due_today: bool,
    source_url: String,
) -> (item: Option<TodoItem>)
    ensures
        item is None <==> title@.len() == 0,
        item matches Some(item) ==> {
            &&& is_random_uuid(item.id)
            &&& item.title == title
            &&& item.description is None
            &&& item.priority == chosen_priority(priority_choice)
            &&& (due_today ==> item.due_date == Some(item.created_at))
            &&& (!due_today ==> item.due_date is None)
            &&& item.stakeholders@.len() == 0
            &&& !item.completed
            &&& item.created_at.wf()
            &&& item.updated_at == item.created_at
            &&& (source_url@.len() == 0 ==> item.source_url is None)
            &&& (source_url@.len() != 0 ==> item.source_url == Some(source_url))
            &&& item.tags@.len() == 0
        },
{
    let id = random_uuid();
    let now = current_time();
    todo_from_form_at(title, priority_choice, due_today, source_url, now, id)
}

} // verus!
