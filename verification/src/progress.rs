//! The stream of progress that tasks report.

use std::collections::VecDeque;
use vstd::prelude::*;

use crate::json::{quote, write_array, write_object};

verus! {

/// How many events are kept.
pub const RING_CAP: usize = 500;

/// How many events are shown.
pub const SHOWN_EVENTS: usize = 100;

/// What a task reports while it runs.
#[derive(Debug)]
pub struct ProgressMessage {
    pub task_id: String,
    pub data: String,
}

/// A report with the time at which it came in, written as a JSON number.
#[derive(Debug)]
pub struct ProgressEvent {
    pub ts: String,
    pub task_id: String,
    pub data: String,
}

/// What an event holds.
#[verifier::ext_equal]
pub struct EventView {
    pub ts: Seq<char>,
    pub task_id: Seq<char>,
    pub data: Seq<char>,
}

impl View for ProgressEvent {
    type V = EventView;

    open spec fn view(&self) -> EventView {
        EventView { ts: self.ts@, task_id: self.task_id@, data: self.data@ }
    }
}

/// The last `n` items of a list.
pub open spec fn last_of<T>(list: Seq<T>, n: int) -> Seq<T> {
    if list.len() <= n {
        list
    } else {
        list.skip(list.len() - n)
    }
}

/// The latest events.
pub struct ProgressRing {
    events: VecDeque<ProgressEvent>,
}

impl ProgressRing {
    /// The events, the oldest first.
    pub closed spec fn view(&self) -> Seq<EventView> {
        Seq::new(self.events@.len(), |i: int| self.events@[i]@)
    }

    /// No more events are kept than there is room for.
    pub closed spec fn well_formed(&self) -> bool {
        self@.len() <= RING_CAP
    }

    /// At any time no more events are kept than there is room for.
    pub proof fn law_ring_is_bounded(&self)
        requires
            self.well_formed(),
        ensures
            self@.len() <= RING_CAP,
    {
    }

    /// A ring without events.
    pub fn new() -> (r: ProgressRing)
        ensures
            r.well_formed(),
            r@ == Seq::<EventView>::empty(),
    {
        let r = ProgressRing { events: VecDeque::new() };
        assert(r@ =~= Seq::<EventView>::empty());
        r
    }

    /// Takes in a report with its time; where there is no room the oldest event goes.
    pub fn push(&mut self, ts: String, message: ProgressMessage)
        requires
            old(self).well_formed(),
        ensures
            final(self).well_formed(),
            final(self)@ == last_of(
                old(self)@.push(
                    (EventView {
                        ts: ts@,
                        task_id: message.task_id@,
                        data: message.data@,
                    }),
                ),
                RING_CAP as int,
            ),
    {
        let ghost before = self@;
        let event = ProgressEvent { ts, task_id: message.task_id, data: message.data };
        self.events.push_back(event);
        assert(self@ =~= before.push(event@));
        if self.events.len() > RING_CAP {
            let ghost full = self@;
            let _ = self.events.pop_front();
            assert(self@ =~= full.skip(1));
        }
    }
}

/// The events that a row of reports leaves: the latest ones.
pub open spec fn after_events(start: Seq<EventView>, events: Seq<EventView>) -> Seq<EventView>
    decreases events.len(),
{
    if events.len() == 0 {
        start
    } else {
        last_of(after_events(start, events.drop_last()).push(events.last()), RING_CAP as int)
    }
}

/// However many events come in, the ring holds the latest ones in the order in which they
/// came.
pub proof fn law_ring_holds_the_latest_events(events: Seq<EventView>)
    ensures
        after_events(Seq::empty(), events) == last_of(events, RING_CAP as int),
    decreases events.len(),
{
    if events.len() > 0 {
        let front = events.drop_last();
        law_ring_holds_the_latest_events(front);
        let kept = last_of(front, RING_CAP as int);
        assert(last_of(kept.push(events.last()), RING_CAP as int) =~= last_of(
            events,
            RING_CAP as int,
        ));
    } else {
        assert(last_of(events, RING_CAP as int) =~= events);
        assert(events =~= Seq::<EventView>::empty());
    }
}

/// The JSON object that shows an event.
pub open spec fn event_json(e: EventView) -> Seq<char> {
    crate::json::object_text(
        seq![
            ("data"@, crate::json::json_quoted(e.data)),
            ("task_id"@, crate::json::json_quoted(e.task_id)),
            ("ts"@, e.ts),
        ],
    )
}

/// The JSON array that shows the last events.
pub open spec fn progress_json(events: Seq<EventView>) -> Seq<char> {
    let shown = last_of(events, SHOWN_EVENTS as int);
    crate::json::array_text(Seq::new(shown.len(), |i: int| event_json(shown[i])))
}

/// Writes the JSON object that shows an event.
fn event_text(e: &ProgressEvent) -> (r: String)
    ensures
        r@ == event_json(e@),
{
    let mut members: Vec<(&str, String)> = Vec::new();
    members.push(("data", quote(e.data.as_str())));
    members.push(("task_id", quote(e.task_id.as_str())));
    members.push(("ts", e.ts.clone()));
    assert(crate::json::parts_of(members@) =~= seq![
        ("data"@, crate::json::json_quoted(e@.data)),
        ("task_id"@, crate::json::json_quoted(e@.task_id)),
        ("ts"@, e@.ts),
    ]);
    write_object(&members)
}

/// The body of an answer with the last events.
pub fn progress_body(ring: &ProgressRing) -> (r: String)
    requires
        ring.well_formed(),
    ensures
        r@ == progress_json(ring@),
{
    let n: usize = ring.events.len();
    let skip: usize = if n > SHOWN_EVENTS {
        n - SHOWN_EVENTS
    } else {
        0
    };
    let ghost shown = last_of(ring@, SHOWN_EVENTS as int);
    let mut items: Vec<String> = Vec::new();
    let mut i: usize = skip;
    while i < n
        invariant
            skip <= i <= n == ring.events@.len(),
            shown == ring@.skip(skip as int),
            items@.len() == i - skip,
            forall|j: int| 0 <= j < i - skip ==> (#[trigger] items@[j])@ == event_json(shown[j]),
        decreases n - i,
    {
        let e: &ProgressEvent = &ring.events[i];
        assert(shown[i - skip] == e@);
        items.push(event_text(e));
        i = i + 1;
    }
    assert(crate::task::texts(items@) =~= Seq::new(shown.len(), |i: int| event_json(shown[i])));
    write_array(&items)
}

/// The last of a list are its last items in their order, and all of it where it is no longer.
pub proof fn law_last_items_are_the_last<T>(list: Seq<T>, n: int, i: int)
    requires
        0 <= n,
    ensures
        list.len() <= n ==> last_of(list, n) == list,
        list.len() > n ==> last_of(list, n).len() == n,
        list.len() > n && 0 <= i < n ==> last_of(list, n)[i] == list[list.len() - n + i],
{
}

/// A report that comes in is the last event, and the events before it stay in their order; where
/// there were 500 the oldest goes.
pub proof fn law_report_becomes_the_last_event(ring: Seq<EventView>, e: EventView, i: int)
    requires
        ring.len() <= 500,
    ensures
        ({
            let after = last_of(ring.push(e), RING_CAP as int);
            &&& after.last() == e
            &&& ring.len() < 500 ==> after == ring.push(e)
            &&& ring.len() == 500 ==> after.len() == 500
            &&& ring.len() == 500 && 0 <= i < 499 ==> after[i] == ring[i + 1]
        }),
{
}

/// An event is shown with its data, its task and its time, and of all events the last hundred are
/// shown, the oldest first.
pub proof fn law_last_hundred_events_are_shown(events: Seq<EventView>, e: EventView)
    ensures
        event_json(e) == "{\"data\":"@ + crate::json::json_quoted(e.data) + ",\"task_id\":"@
            + crate::json::json_quoted(e.task_id) + ",\"ts\":"@ + e.ts + "}"@,
        ({
            let n = if events.len() < 100 {
                events.len()
            } else {
                100
            };
            progress_json(events) == "["@ + crate::json::comma_list(
                Seq::new(n, |i: int| event_json(events[events.len() - n + i])),
            ) + "]"@
        }),
{
    reveal_strlit("data");
    reveal_strlit("task_id");
    reveal_strlit("ts");
    reveal_strlit("{\"data\":");
    reveal_strlit(",\"task_id\":");
    reveal_strlit(",\"ts\":");
    reveal_strlit("}");
    reveal_strlit("[");
    reveal_strlit("]");
    let members = seq![
        ("data"@, crate::json::json_quoted(e.data)),
        ("task_id"@, crate::json::json_quoted(e.task_id)),
        ("ts"@, e.ts),
    ];
    let parts = Seq::new(members.len(), |i: int| crate::json::pair_text(members[i]));
    reveal_with_fuel(crate::json::comma_list, 4);
    assert(parts.drop_last().drop_last() =~= seq![parts[0]]);
    assert(event_json(e) =~= "{\"data\":"@ + crate::json::json_quoted(e.data)
        + ",\"task_id\":"@ + crate::json::json_quoted(e.task_id) + ",\"ts\":"@ + e.ts + "}"@);
    let n = if events.len() < 100 {
        events.len()
    } else {
        100
    };
    let shown = last_of(events, SHOWN_EVENTS as int);
    let items = Seq::new(n, |i: int| event_json(events[events.len() - n + i]));
    assert(Seq::new(shown.len(), |i: int| event_json(shown[i])) =~= items);
    assert("["@ =~= seq!['[']);
    assert("]"@ =~= seq![']']);
}

/// What an event is said to hold is what its fields hold.
pub proof fn law_event_is_what_its_fields_hold(e: ProgressEvent)
    ensures
        e@.ts == e.ts@,
        e@.task_id == e.task_id@,
        e@.data == e.data@,
{
}

} // verus!
