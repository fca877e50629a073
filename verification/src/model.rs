//! Todo items and what they are made of.

use vstd::prelude::*;

use crate::json::{
    entries_view, json_bool, json_object_list, json_optional_text, json_optional_time, json_text,
    json_text_list, json_time, json_uuid, objects_view, read_bool, read_object_list,
    read_optional_text, read_optional_time, read_text, read_text_list, read_time, read_uuid,
};
use crate::text::same_text;
use crate::time::{Timestamp, current_time, same_utc_day};

verus! {

/// How urgent a todo item is.
#[derive(Clone, Copy, Debug, PartialEq, Eq, Structural)]
pub enum Priority {
    Low,
    Medium,
    High,
    Critical,
}

/// Someone with a stake in a todo item.
#[derive(Clone, Debug, PartialEq)]
pub struct Stakeholder {
    pub name: String,
    pub email: Option<String>,
}

/// A todo item.  `id` holds the item's UUID as its 128-bit big-endian value.
#[derive(Clone, Debug, PartialEq)]
pub struct TodoItem {
    pub id: u128,
    pub title: String,
    pub description: Option<String>,
    pub priority: Priority,
    pub due_date: Option<Timestamp>,
    pub stakeholders: Vec<Stakeholder>,
    pub completed: bool,
    pub created_at: Timestamp,
    pub updated_at: Timestamp,
    pub source_url: Option<String>,
    pub tags: Vec<String>,
}

/// The contents of a stakeholder, as text.
pub struct StakeholderView {
    pub name: Seq<char>,
    pub email: Option<Seq<char>>,
}

/// The contents of a todo item, its texts as character sequences.
pub struct ItemView {
    pub id: u128,
    pub title: Seq<char>,
    pub description: Option<Seq<char>>,
    pub priority: Priority,
    pub due_date: Option<Timestamp>,
    pub stakeholders: Seq<StakeholderView>,
    pub completed: bool,
    pub created_at: Timestamp,
    pub updated_at: Timestamp,
    pub source_url: Option<Seq<char>>,
    pub tags: Seq<Seq<char>>,
}

/// The characters of an optional text.
pub open spec fn optional_text(text: Option<String>) -> Option<Seq<char>> {
    match text {
        Some(t) => Some(t@),
        None => None,
    }
}

impl View for Stakeholder {
    type V = StakeholderView;

    open spec fn view(&self) -> StakeholderView {
        StakeholderView { name: self.name@, email: optional_text(self.email) }
    }
}

impl View for TodoItem {
    type V = ItemView;

    open spec fn view(&self) -> ItemView {
        ItemView {
            id: self.id,
            title: self.title@,
            description: optional_text(self.description),
            priority: self.priority,
            due_date: self.due_date,
            stakeholders: self.stakeholders@.map_values(|s: Stakeholder| s@),
            completed: self.completed,
            created_at: self.created_at,
            updated_at: self.updated_at,
            source_url: optional_text(self.source_url),
            tags: self.tags@.map_values(|t: String| t@),
        }
    }
}

/// The name of a priority: `Low`, `Medium`, `High` or `Critical`.
pub open spec fn priority_name(p: Priority) -> Seq<char> {
    match p {
        Priority::Low => seq!['L', 'o', 'w'],
        Priority::Medium => seq!['M', 'e', 'd', 'i', 'u', 'm'],
        Priority::High => seq!['H', 'i', 'g', 'h'],
        Priority::Critical => seq!['C', 'r', 'i', 't', 'i', 'c', 'a', 'l'],
    }
}

/// The priority with the name `name`, if any.
pub open spec fn priority_named(name: Seq<char>) -> Option<Priority> {
    if name == priority_name(Priority::Low) {
        Some(Priority::Low)
    } else if name == priority_name(Priority::Medium) {
        Some(Priority::Medium)
    } else if name == priority_name(Priority::High) {
        Some(Priority::High)
    } else if name == priority_name(Priority::Critical) {
        Some(Priority::Critical)
    } else {
        None
    }
}

impl Priority {
    /// The name of the priority.
    pub fn name(&self) -> (name: &'static str)
        ensures
            name@ == priority_name(*self),
    {
        proof {
            reveal_strlit("Low");
            reveal_strlit("Medium");
            reveal_strlit("High");
            reveal_strlit("Critical");
        }
        match self {
            Priority::Low => "Low",
            Priority::Medium => "Medium",
            Priority::High => "High",
            Priority::Critical => "Critical",
        }
    }

    /// The priority with the given name, if any.
    pub fn from_name(name: &str) -> (p: Option<Priority>)
        ensures
            p == priority_named(name@),
    {
        if same_text(name, Priority::Low.name()) {
            Some(Priority::Low)
        } else if same_text(name, Priority::Medium.name()) {
            Some(Priority::Medium)
        } else if same_text(name, Priority::High.name()) {
            Some(Priority::High)
        } else if same_text(name, Priority::Critical.name()) {
            Some(Priority::Critical)
        } else {
            None
        }
    }
}

/// The field name `title`.
pub open spec fn field_title() -> Seq<char> {
    seq!['t', 'i', 't', 'l', 'e']
}

/// The field name `description`.
pub open spec fn field_description() -> Seq<char> {
    seq!['d', 'e', 's', 'c', 'r', 'i', 'p', 't', 'i', 'o', 'n']
}

/// The field name `priority`.
pub open spec fn field_priority() -> Seq<char> {
    seq!['p', 'r', 'i', 'o', 'r', 'i', 't', 'y']
}

/// The field name `due_date`.
pub open spec fn field_due_date() -> Seq<char> {
    seq!['d', 'u', 'e', '_', 'd', 'a', 't', 'e']
}

/// The field name `completed`.
pub open spec fn field_completed() -> Seq<char> {
    seq!['c', 'o', 'm', 'p', 'l', 'e', 't', 'e', 'd']
}

/// The field name `created_at`.
pub open spec fn field_created_at() -> Seq<char> {
    seq!['c', 'r', 'e', 'a', 't', 'e', 'd', '_', 'a', 't']
}

/// The field name `updated_at`.
pub open spec fn field_updated_at() -> Seq<char> {
    seq!['u', 'p', 'd', 'a', 't', 'e', 'd', '_', 'a', 't']
}

/// The field name `source_url`.
pub open spec fn field_source_url() -> Seq<char> {
    seq!['s', 'o', 'u', 'r', 'c', 'e', '_', 'u', 'r', 'l']
}

/// The field name `tags`.
pub open spec fn field_tags() -> Seq<char> {
    seq!['t', 'a', 'g', 's']
}

/// The field name `id`.
pub open spec fn field_id() -> Seq<char> {
    seq!['i', 'd']
}

/// The field name `stakeholders`.
pub open spec fn field_stakeholders() -> Seq<char> {
    seq!['s', 't', 'a', 'k', 'e', 'h', 'o', 'l', 'd', 'e', 'r', 's']
}

/// The key `name` of a stakeholder.
pub open spec fn field_name() -> Seq<char> {
    seq!['n', 'a', 'm', 'e']
}

/// The key `email` of a stakeholder.
pub open spec fn field_email() -> Seq<char> {
    seq!['e', 'm', 'a', 'i', 'l']
}

/// The value stored under `key` among the key-value pairs of a JSON object
/// (the last such pair, should there be several).
pub open spec fn entry_value(entries: Seq<(Seq<char>, Option<Seq<char>>)>, key: Seq<char>) -> Option<
    Option<Seq<char>>,
>
    decreases entries.len(),
{
    if entries.len() == 0 {
        None
    } else if entries.last().0 == key {
        Some(entries.last().1)
    } else {
        entry_value(entries.drop_last(), key)
    }
}

/// The stakeholder a JSON object describes: its `name` must be a string, and
/// its `email`, a string or `null`, may be missing; other keys are ignored.
pub open spec fn stakeholder_from_object(entries: Seq<(Seq<char>, Option<Seq<char>>)>) -> Option<StakeholderView> {
    match entry_value(entries, field_name()) {
        Some(Some(name)) => Some(
            StakeholderView {
                name,
                email: match entry_value(entries, field_email()) {
                    Some(email) => email,
                    None => None,
                },
            },
        ),
        _ => None,
    }
}

/// The stakeholders a list of JSON objects describes, when every object
/// describes one.
pub open spec fn stakeholders_from_objects(objects: Seq<Seq<(Seq<char>, Option<Seq<char>>)>>) -> Option<
    Seq<StakeholderView>,
>
    decreases objects.len(),
{
    if objects.len() == 0 {
        Some(Seq::empty())
    } else {
        match (stakeholders_from_objects(objects.drop_last()), stakeholder_from_object(objects.last())) {
            (Some(rest), Some(s)) => Some(rest.push(s)),
            _ => None,
        }
    }
}

fn find_entry(entries: &Vec<(String, Option<String>)>, key: &str) -> (found: Option<usize>)
    ensures
        match found {
            Some(i) => i < entries@.len() && entry_value(entries_view(entries@), key@) == Some(
                optional_text(entries@[i as int].1),
            ),
            None => entry_value(entries_view(entries@), key@) is None,
        },
{
    let ghost all = entries_view(entries@);
    let mut k: usize = entries.len();
    assert(all.take(k as int) =~= all);
    while k > 0
        invariant
            k <= entries@.len(),
            all == entries_view(entries@),
            entry_value(all, key@) == entry_value(all.take(k as int), key@),
        decreases k,
    {
        let ghost part = all.take(k as int);
        assert(part.last() == all[k - 1]);
        assert(part.drop_last() =~= all.take(k - 1));
        if same_text(entries[k - 1].0.as_str(), key) {
            return Some(k - 1);
        }
        k -= 1;
    }
    None
}

fn copy_optional_text(text: &Option<String>) -> (copy: Option<String>)
    ensures
        optional_text(copy) == optional_text(*text),
{
    match text {
        Some(t) => Some(t.clone()),
        None => None,
    }
}

/// The stakeholder a JSON object, given as its key-value pairs, describes.
pub fn stakeholder_from_entries(entries: &Vec<(String, Option<String>)>) -> (s: Option<Stakeholder>)
    ensures
        match s {
            Some(s) => stakeholder_from_object(entries_view(entries@)) == Some(s@),
            None => stakeholder_from_object(entries_view(entries@)) is None,
        },
{
    proof {
        reveal_strlit("name");
        reveal_strlit("email");
        assert("name"@ =~= field_name());
        assert("email"@ =~= field_email());
    }
    match find_entry(entries, "name") {
        Some(i) => match &entries[i].1 {
            Some(name) => {
                let email = match find_entry(entries, "email") {
                    Some(j) => copy_optional_text(&entries[j].1),
                    None => None,
                };
                Some(Stakeholder { name: name.clone(), email })
            },
            None => None,
        },
        None => None,
    }
}

/// The stakeholders a list of JSON objects describes, when every object
/// describes one.
pub fn stakeholders_from_entries(objects: &Vec<Vec<(String, Option<String>)>>) -> (r: Option<Vec<Stakeholder>>)
    ensures
        match r {
            Some(v) => stakeholders_from_objects(objects_view(objects@)) == Some(
                v@.map_values(|s: Stakeholder| s@),
            ),
            None => stakeholders_from_objects(objects_view(objects@)) is None,
        },
{
    let ghost all = objects_view(objects@);
    let mut out: Vec<Stakeholder> = Vec::new();
    let mut k: usize = 0;
    assert(all.take(0) =~= Seq::<Seq<(Seq<char>, Option<Seq<char>>)>>::empty());
    assert(out@.map_values(|s: Stakeholder| s@) =~= Seq::<StakeholderView>::empty());
    while k < objects.len()
        invariant
            k <= objects@.len(),
            all == objects_view(objects@),
            stakeholders_from_objects(all.take(k as int)) == Some(out@.map_values(|s: Stakeholder| s@)),
        decreases objects@.len() - k,
    {
        let ghost part = all.take(k + 1);
        assert(part.drop_last() =~= all.take(k as int));
        assert(part.last() == entries_view(objects@[k as int]@));
        match stakeholder_from_entries(&objects[k]) {
            Some(s) => {
                let ghost before = out@;
                out.push(s);
                assert(out@.map_values(|s: Stakeholder| s@) =~= before.map_values(|s: Stakeholder| s@).push(s@));
            },
            None => {
                proof {
                    lemma_no_stakeholders_after(all, (k + 1) as int);
                }
                return None;
            },
        }
        k += 1;
    }
    assert(all.take(objects@.len() as int) =~= all);
    Some(out)
}

proof fn lemma_no_stakeholders_after(objects: Seq<Seq<(Seq<char>, Option<Seq<char>>)>>, k: int)
    requires
        0 <= k <= objects.len(),
        stakeholders_from_objects(objects.take(k)) is None,
    ensures
        stakeholders_from_objects(objects) is None,
    decreases objects.len() - k,
{
    if k < objects.len() {
        assert(objects.take(k + 1).drop_last() =~= objects.take(k));
        lemma_no_stakeholders_after(objects, k + 1);
    } else {
        assert(objects.take(k) =~= objects);
    }
}

/// `item` after the update of the field named `field` to the value whose JSON
/// text is `text`.  Every field can be set: the id (a UUID), the title, the
/// description, the priority (by its name), the due date, the stakeholders
/// (a list of objects with a `name` and an optional `email`), the completion
/// flag, the two dates, the source URL and the tags.  An update naming
/// another field, or whose text does not read as a value of the field's type,
/// leaves the item as it is.
pub open spec fn updated_field(item: ItemView, field: Seq<char>, text: Seq<char>) -> ItemView {
    if field == field_id() {
        match json_uuid(text) {
            Some(v) => ItemView { id: v, ..item },
            None => item,
        }
    } else if field == field_stakeholders() {
        match json_object_list(text) {
            Some(objects) => match stakeholders_from_objects(objects) {
                Some(v) => ItemView { stakeholders: v, ..item },
                None => item,
            },
            None => item,
        }
    } else if field == field_title() {
        match json_text(text) {
            Some(v) => ItemView { title: v, ..item },
            None => item,
        }
    } else if field == field_description() {
        match json_optional_text(text) {
            Some(v) => ItemView { description: v, ..item },
            None => item,
        }
    } else if field == field_priority() {
        match json_text(text) {
            Some(v) => match priority_named(v) {
                Some(p) => ItemView { priority: p, ..item },
                None => item,
            },
            None => item,
        }
    } else if field == field_due_date() {
        match json_optional_time(text) {
            Some(Some(p)) => ItemView { due_date: Some(Timestamp { secs: p.0, nanos: p.1 }), ..item },
            Some(None) => ItemView { due_date: None, ..item },
            None => item,
        }
    } else if field == field_completed() {
        match json_bool(text) {
            Some(v) => ItemView { completed: v, ..item },
            None => item,
        }
    } else if field == field_created_at() {
        match json_time(text) {
            Some(p) => ItemView { created_at: Timestamp { secs: p.0, nanos: p.1 }, ..item },
            None => item,
        }
    } else if field == field_updated_at() {
        match json_time(text) {
            Some(p) => ItemView { updated_at: Timestamp { secs: p.0, nanos: p.1 }, ..item },
            None => item,
        }
    } else if field == field_source_url() {
        match json_optional_text(text) {
            Some(v) => ItemView { source_url: v, ..item },
            None => item,
        }
    } else if field == field_tags() {
        match json_text_list(text) {
            Some(v) => ItemView { tags: v, ..item },
            None => item,
        }
    } else {
        item
    }
}

/// The field names and JSON texts of a list of updates.
pub open spec fn update_texts(updates: Seq<(String, String)>) -> Seq<(Seq<char>, Seq<char>)> {
    updates.map_values(|u: (String, String)| (u.0@, u.1@))
}

/// `item` after the updates, applied in order.
pub open spec fn updates_applied(item: ItemView, updates: Seq<(Seq<char>, Seq<char>)>) -> ItemView
    decreases updates.len(),
{
    if updates.len() == 0 {
        item
    } else {
        let u = updates.last();
        updated_field(updates_applied(item, updates.drop_last()), u.0, u.1)
    }
}

/// The mask of the version nibble and the two variant bits of a UUID held as
/// a big-endian `u128`.
pub const UUID_VERSION_VARIANT_MASK: u128 = 0xF000C000000000000000u128;

/// The version and variant bits of a random (version 4, RFC 4122 variant)
/// UUID, under `UUID_VERSION_VARIANT_MASK`.
pub const UUID_V4_BITS: u128 = 0x40008000000000000000u128;

/// Whether `id` carries the version and variant bits of a random UUID.
pub open spec fn is_random_uuid(id: u128) -> bool {
    id & UUID_VERSION_VARIANT_MASK == UUID_V4_BITS
}

/// Draws a random UUID with uuid's `Uuid::new_v4()` and returns it as
/// `Uuid::as_u128()`.  Claimed, after uuid's source (which masks the random
/// value with `0xFFFFFFFFFFFF4FFFBFFFFFFFFFFFFFFF` and sets
/// `0x40008000000000000000`): the version nibble is 4 and the variant bits are
/// `10`.  The other bits are random, and nothing is claimed of them.
#[verifier::external_body]
pub(crate) fn random_uuid() -> (id: u128)
    ensures
        is_random_uuid(id),
{
    uuid::Uuid::new_v4().as_u128()
}

impl TodoItem {
    /// `self` with the completion flag set and `updated_at` moved to `now`.
    pub open spec fn completed_at(self, now: Timestamp) -> TodoItem {
        TodoItem { completed: true, updated_at: now, ..self }
    }

    /// Whether the item has a due date on the UTC day of `today`.
    pub open spec fn due_on(self, today: Timestamp) -> bool {
        match self.due_date {
            Some(due) => due.utc_day() == today.utc_day(),
            None => false,
        }
    }

    /// The due date, if any, is a value a UTC date-time can hold.
    pub open spec fn due_date_wf(self) -> bool {
        self.due_date matches Some(due) ==> due.wf()
    }

    /// A new, open item with id `id`, created and updated at `now`.
    pub fn new_at(
        title: String,
        description: Option<String>,
        priority: Priority,
        due_date: Option<Timestamp>,
        stakeholders: Vec<Stakeholder>,
        source_url: Option<String>,
        tags: Vec<String>,
        id: u128,
        now: Timestamp,
    ) -> (item: TodoItem)
        ensures
            item == (TodoItem {
                id,
                title,
                description,
                priority,
                due_date,
                stakeholders,
                completed: false,
                created_at: now,
                updated_at: now,
                source_url,
                tags,
            }),
    {
        TodoItem {
            id,
            title,
            description,
            priority,
            due_date,
            stakeholders,
            completed: false,
            created_at: now,
            updated_at: now,
            source_url,
            tags,
        }
    }

    /// A new, open item with a fresh random id, created and updated now.
    pub fn new(
        title: String,
        description: Option<String>,
        priority: Priority,
        due_date: Option<Timestamp>,
        stakeholders: Vec<Stakeholder>,
        source_url: Option<String>,
        tags: Vec<String>,
    ) -> (item: TodoItem)
        ensures
            is_random_uuid(item.id),
            item.title == title,
            item.description == description,
            item.priority == priority,
            item.due_date == due_date,
            item.stakeholders == stakeholders,
            !item.completed,
            item.created_at.wf(),
            item.updated_at == item.created_at,
            item.source_url == source_url,
            item.tags == tags,
    {
        let id = random_uuid();
        let now = current_time();
        TodoItem::new_at(title, description, priority, due_date, stakeholders, source_url, tags, id, now)
    }

    /// Sets the field named `field` to the value whose JSON text is `text`,
    /// as `updated_field` describes.
    pub fn apply_update(&mut self, field: &str, text: &str)
        ensures
            final(self)@ == updated_field(old(self)@, field@, text@),
    {
        proof {
            reveal_strlit("title");
            reveal_strlit("description");
            reveal_strlit("priority");
            reveal_strlit("due_date");
            reveal_strlit("completed");
            reveal_strlit("created_at");
            reveal_strlit("updated_at");
            reveal_strlit("source_url");
            reveal_strlit("tags");
            reveal_strlit("id");
            reveal_strlit("stakeholders");
            assert("id"@ =~= field_id());
            assert("stakeholders"@ =~= field_stakeholders());
            assert("title"@ =~= field_title());
            assert("description"@ =~= field_description());
            assert("priority"@ =~= field_priority());
            assert("due_date"@ =~= field_due_date());
            assert("completed"@ =~= field_completed());
            assert("created_at"@ =~= field_created_at());
            assert("updated_at"@ =~= field_updated_at());
            assert("source_url"@ =~= field_source_url());
            assert("tags"@ =~= field_tags());
        }
        let ghost before = self@;
        if same_text(field, "id") {
            if let Some(v) = read_uuid(text) {
                self.id = v;
            }
        } else if same_text(field, "stakeholders") {
            if let Some(objects) = read_object_list(text) {
                if let Some(v) = stakeholders_from_entries(&objects) {
                    self.stakeholders = v;
                }
            }
        } else if same_text(field, "title") {
            if let Some(v) = read_text(text) {
                self.title = v;
            }
        } else if same_text(field, "description") {
            if let Some(v) = read_optional_text(text) {
                self.description = v;
            }
        } else if same_text(field, "priority") {
            if let Some(v) = read_text(text) {
                if let Some(p) = Priority::from_name(v.as_str()) {
                    self.priority = p;
                }
            }
        } else if same_text(field, "due_date") {
            if let Some(v) = read_optional_time(text) {
                self.due_date = v;
            }
        } else if same_text(field, "completed") {
            if let Some(v) = read_bool(text) {
                self.completed = v;
            }
        } else if same_text(field, "created_at") {
            if let Some(v) = read_time(text) {
                self.created_at = v;
            }
        } else if same_text(field, "updated_at") {
            if let Some(v) = read_time(text) {
                self.updated_at = v;
            }
        } else if same_text(field, "source_url") {
            if let Some(v) = read_optional_text(text) {
                self.source_url = v;
            }
        } else if same_text(field, "tags") {
            if let Some(v) = read_text_list(text) {
                self.tags = v;
            }
        }
        assert(self@ =~= updated_field(before, field@, text@));
    }

    /// Applies the updates in order.
    pub fn apply_updates(&mut self, updates: &Vec<(String, String)>)
        ensures
            final(self)@ == updates_applied(old(self)@, update_texts(updates@)),
    {
        let ghost start = self@;
        let ghost all = update_texts(updates@);
        let mut k: usize = 0;
        assert(all.take(0) =~= Seq::<(Seq<char>, Seq<char>)>::empty());
        while k < updates.len()
            invariant
                k <= updates@.len(),
                all == update_texts(updates@),
                self@ == updates_applied(start, all.take(k as int)),
            decreases updates@.len() - k,
        {
            let (field, text) = &updates[k];
            self.apply_update(field.as_str(), text.as_str());
            proof {
                assert(all.take(k + 1).drop_last() =~= all.take(k as int));
                assert(all.take(k + 1).last() == (field@, text@));
            }
            k += 1;
        }
        assert(all.take(updates@.len() as int) =~= all);
    }

    /// Marks the item completed as of `now`.
    pub fn mark_completed_at(&mut self, now: Timestamp)
        ensures
            *final(self) == old(self).completed_at(now),
    {
        self.completed = true;
        self.updated_at = now;
    }

    /// Marks the item completed as of the current time.
    pub fn mark_completed(&mut self)
        ensures
            exists|now: Timestamp| now.wf() && *final(self) == old(self).completed_at(now),
    {
        let now = current_time();
        self.mark_completed_at(now);
    }

    /// Whether the item is due on the UTC day of `today`.
    pub fn is_due_on(&self, today: Timestamp) -> (due: bool)
        requires
            self.due_date_wf(),
            today.wf(),
        ensures
            due == self.due_on(today),
    {
        match self.due_date {
            Some(d) => same_utc_day(d, today),
            None => false,
        }
    }

    /// Whether the item is due on the current UTC day.
    pub fn is_due_today(&self) -> (due: bool)
        requires
            self.due_date_wf(),
        ensures
            self.due_date is None ==> !due,
            exists|now: Timestamp| now.wf() && due == self.due_on(now),
    {
        match self.due_date {
            Some(_) => {
                let today = current_time();
                self.is_due_on(today)
            },
            None => {
                proof {
                    let w = Timestamp { secs: 0, nanos: 0 };
                    assert(w.wf() && !self.due_on(w));
                }
                false
            },
        }
    }
}

} // verus!
