# todognome

The verified core of TodoGnome, a GNOME todo application whose state is kept
as an append-only log of events (one JSON file per event) and rebuilt by
replaying that log.

- `src/` is the library, verified with Verus:
  - `time.rs`: UTC timestamps, their order, and the calls into chrono
    (current time, calendar day, date text);
  - `json.rs`: reading the JSON text of an updated field through
    serde_json;
  - `model.rs`: priorities, stakeholders and todo items, with new random
    UUIDs from the uuid crate, and the fields an update sets;
  - `event.rs`: events, their ids, times and file names;
  - `order.rs`: the stable ordering of loaded events by time;
  - `replay.rs`: replaying events into the current items, and the laws of
    replay;
  - `text.rs`: decimal text, whitespace trimming, line splitting, link
    extraction from dropped text, and event file names (one per time and
    item);
  - `store.rs`: the event store and today's tasks;
  - `ui.rs`: the labels the window shows and the "Add New Todo" form.
- `app/` is the GTK program: file input and output, JSON with serde, and the
  window.
- `tests/` runs the library on concrete values.
