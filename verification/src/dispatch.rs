//! The dispatch loop's state machine.
//!
//! The loop owns the correlation table. It consumes one merged stream of
//! events — waiter registrations and inbound transport frames — and, for each
//! event, updates the table and commands one action: register, resolve a
//! pending call, forward a notification, ignore a control frame, or stop on a
//! fatal condition. The surrounding application drives the asynchronous loop
//! and performs the actions; every decision is taken here.
//!
//! The model is [`spec_step`]; [`Dispatcher::step`] is proved to follow it
//! exactly, and the ordering and correlation laws are proved of runs of the
//! model.

use vstd::prelude::*;
use crate::codec::{decode, spec_decode};
use crate::messages::{Frame, FrameView, InboundMessage, MsgView};

verus! {

/// Why the dispatch loop stopped: an undecodable frame, a reply to an
/// identifier with no pending waiter, or a second registration of an
/// identifier already pending.
#[derive(Clone, Copy, PartialEq, Eq, Structural, Debug)]
pub enum FatalReason {
    MalformedFrame,
    UnknownId { id: i64 },
    DuplicateId { id: i64 },
}

/// An event of the merged stream: a new waiter to register, or a frame from
/// the transport.
pub enum Event<W> {
    Register { id: i64, waiter: W },
    Inbound { frame: Frame },
}

/// Mathematical view of an event.
pub enum EventView<W> {
    Register { id: i64, waiter: W },
    Inbound { frame: FrameView },
}

impl<W> View for Event<W> {
    type V = EventView<W>;

    open spec fn view(&self) -> EventView<W> {
        match self {
            Event::Register { id, waiter } => EventView::Register { id: *id, waiter: *waiter },
            Event::Inbound { frame } => EventView::Inbound { frame: frame@ },
        }
    }
}

/// What the loop's driver must do after one event.
pub enum Action<W> {
    Registered,
    Resolved { waiter: W, response: InboundMessage },
    Forwarded { message: InboundMessage },
    Ignored,
    Fatal { reason: FatalReason },
}

/// Mathematical view of an action.
pub enum ActionView<W> {
    Registered,
    Resolved { waiter: W, response: MsgView },
    Forwarded { message: MsgView },
    Ignored,
    Fatal { reason: FatalReason },
}

impl<W> View for Action<W> {
    type V = ActionView<W>;

    open spec fn view(&self) -> ActionView<W> {
        match self {
            Action::Registered => ActionView::Registered,
            Action::Resolved { waiter, response } => ActionView::Resolved {
                waiter: *waiter,
                response: response@,
            },
            Action::Forwarded { message } => ActionView::Forwarded { message: message@ },
            Action::Ignored => ActionView::Ignored,
            Action::Fatal { reason } => ActionView::Fatal { reason: *reason },
        }
    }
}

/// Mathematical view of the dispatch state.
pub struct DispatchView<W> {
    pub table: Seq<(i64, W)>,
    pub running: bool,
}

/// The waiter registered under `id`, if any.
pub open spec fn lookup<W>(t: Seq<(i64, W)>, id: int) -> Option<W>
    decreases t.len(),
{
    if t.len() == 0 {
        None
    } else if t[0].0 as int == id {
        Some(t[0].1)
    } else {
        lookup(t.skip(1), id)
    }
}

/// The table without its entry for `id`.
pub open spec fn remove_id<W>(t: Seq<(i64, W)>, id: int) -> Seq<(i64, W)>
    decreases t.len(),
{
    if t.len() == 0 {
        t
    } else if t[0].0 as int == id {
        t.skip(1)
    } else {
        seq![t[0]] + remove_id(t.skip(1), id)
    }
}

/// No identifier occurs twice in the table.
pub open spec fn distinct_ids<W>(t: Seq<(i64, W)>) -> bool {
    forall|j: int, k: int| 0 <= j < k < t.len() ==> t[j].0 != t[k].0
}

/// The waiters of the table, in table order.
pub open spec fn waiters_of<W>(t: Seq<(i64, W)>) -> Seq<W> {
    t.map_values(|p: (i64, W)| p.1)
}

/// The identifier a message correlates by: none for a notification.
pub open spec fn msg_id(m: MsgView) -> Option<int> {
    match m {
        MsgView::Reply { id, .. } => Some(id),
        MsgView::ErrorReply { id, .. } => Some(id),
        MsgView::Notification { .. } => None,
    }
}

/// What one event does to the dispatch state, and the action it commands.
pub open spec fn spec_step<W>(s: DispatchView<W>, e: EventView<W>) -> (DispatchView<W>, ActionView<W>) {
    match e {
        EventView::Register { id, waiter } => {
            if lookup(s.table, id as int) is Some {
                (
                    DispatchView { running: false, ..s },
                    ActionView::Fatal { reason: FatalReason::DuplicateId { id } },
                )
            } else {
                (DispatchView { table: s.table.push((id, waiter)), ..s }, ActionView::Registered)
            }
        },
        EventView::Inbound { frame } => match frame {
            FrameView::Text(p) => match spec_decode(p) {
                None => (
                    DispatchView { running: false, ..s },
                    ActionView::Fatal { reason: FatalReason::MalformedFrame },
                ),
                Some(m) => match msg_id(m) {
                    None => (s, ActionView::Forwarded { message: m }),
                    Some(id) => match lookup(s.table, id) {
                        None => (
                            DispatchView { running: false, ..s },
                            ActionView::Fatal {
                                reason: FatalReason::UnknownId { id: id as i64 },
                            },
                        ),
                        Some(w) => (
                            DispatchView { table: remove_id(s.table, id), ..s },
                            ActionView::Resolved { waiter: w, response: m },
                        ),
                    },
                },
            },
            FrameView::Ping => (s, ActionView::Ignored),
            FrameView::Pong => (s, ActionView::Ignored),
            FrameView::Binary => (s, ActionView::Ignored),
        },
    }
}

/// A run of the loop over a sequence of events; it stops at the first event
/// that terminates the state.
pub open spec fn spec_run<W>(s: DispatchView<W>, events: Seq<EventView<W>>)
    -> (DispatchView<W>, Seq<ActionView<W>>)
    decreases events.len(),
{
    if events.len() == 0 || !s.running {
        (s, Seq::empty())
    } else {
        let (s1, a) = spec_step(s, events[0]);
        let (s2, rest) = spec_run(s1, events.skip(1));
        (s2, seq![a] + rest)
    }
}

/// A lookup that comes back empty means the identifier is nowhere in the
/// table.
proof fn lemma_lookup_none<W>(t: Seq<(i64, W)>, id: int)
    requires
        lookup(t, id) is None,
    ensures
        forall|j: int| 0 <= j < t.len() ==> t[j].0 as int != id,
    decreases t.len(),
{
    if t.len() > 0 {
        lemma_lookup_none(t.skip(1), id);
        assert forall|j: int| 0 <= j < t.len() implies t[j].0 as int != id by {
            if j > 0 {
                assert(t.skip(1)[j - 1] == t[j]);
            }
        }
    }
}

/// A successful lookup names an entry of the table.
proof fn lemma_lookup_some<W>(t: Seq<(i64, W)>, id: int)
    requires
        lookup(t, id) is Some,
    ensures
        exists|j: int|
            0 <= j < t.len() && t[j].0 as int == id && lookup(t, id) == Some(t[j].1),
    decreases t.len(),
{
    if t.len() > 0 && t[0].0 as int != id {
        lemma_lookup_some(t.skip(1), id);
        let j = choose|j: int|
            0 <= j < t.skip(1).len() && t.skip(1)[j].0 as int == id
                && lookup(t.skip(1), id) == Some(t.skip(1)[j].1);
        assert(t[j + 1] == t.skip(1)[j]);
    }
}

/// Removing the entry found at `j` (with no earlier entry for `id`) is what
/// `remove_id` means.
proof fn lemma_remove_at<W>(t: Seq<(i64, W)>, id: int, j: int)
    requires
        0 <= j < t.len(),
        t[j].0 as int == id,
        forall|k: int| 0 <= k < j ==> t[k].0 as int != id,
    ensures
        remove_id(t, id) == t.remove(j),
    decreases t.len(),
{
    if j == 0 {
        assert(remove_id(t, id) =~= t.remove(0));
    } else {
        assert(t[0].0 as int != id);
        assert(t.skip(1)[j - 1] == t[j]);
        assert forall|k: int| 0 <= k < j - 1 implies t.skip(1)[k].0 as int != id by {
            assert(t.skip(1)[k] == t[k + 1]);
        }
        lemma_remove_at(t.skip(1), id, j - 1);
        assert(seq![t[0]] + t.skip(1).remove(j - 1) =~= t.remove(j));
    }
}

/// Dropping an entry keeps the identifiers distinct.
proof fn lemma_distinct_remove<W>(t: Seq<(i64, W)>, j: int)
    requires
        distinct_ids(t),
        0 <= j < t.len(),
    ensures
        distinct_ids(t.remove(j)),
{
    assert forall|x: int, y: int| 0 <= x < y < t.remove(j).len() implies
        t.remove(j)[x].0 != t.remove(j)[y].0 by {
        let xi = if x < j { x } else { x + 1 };
        let yi = if y < j { y } else { y + 1 };
        assert(t.remove(j)[x] == t[xi]);
        assert(t.remove(j)[y] == t[yi]);
    }
}

/// The pair `(id, w)` is explained by the start state or by a registration
/// event of the run.
pub open spec fn entry_from<W>(
    s0: DispatchView<W>,
    events: Seq<EventView<W>>,
    id: i64,
    w: W,
) -> bool {
    s0.table.contains((id, w)) || exists|j: int|
        0 <= j < events.len() && events[j] == (EventView::Register { id, waiter: w })
}

/// Whatever remains after removing an entry was in the table before.
proof fn lemma_remove_id_contains<W>(t: Seq<(i64, W)>, id: int, p: (i64, W))
    requires
        remove_id(t, id).contains(p),
    ensures
        t.contains(p),
    decreases t.len(),
{
    if t.len() == 0 {
    } else if t[0].0 as int == id {
        let n = choose|n: int| 0 <= n < t.skip(1).len() && t.skip(1)[n] == p;
        assert(t[n + 1] == p);
    } else {
        let r = seq![t[0]] + remove_id(t.skip(1), id);
        let n = choose|n: int| 0 <= n < r.len() && r[n] == p;
        if n == 0 {
            assert(t[0] == p);
        } else {
            assert(remove_id(t.skip(1), id)[n - 1] == p);
            assert(remove_id(t.skip(1), id).contains(p));
            lemma_remove_id_contains(t.skip(1), id, p);
            let m = choose|m: int| 0 <= m < t.skip(1).len() && t.skip(1)[m] == p;
            assert(t[m + 1] == p);
        }
    }
}

/// After one step, every table entry was in the table before or was brought
/// by the event itself.
proof fn lemma_step_entry_source<W>(s: DispatchView<W>, e: EventView<W>, id: i64, w: W)
    requires
        spec_step(s, e).0.table.contains((id, w)),
    ensures
        s.table.contains((id, w)) || e == (EventView::Register { id, waiter: w }),
{
    match e {
        EventView::Register { id: rid, waiter: rw } => {
            if lookup(s.table, rid as int) is None {
                let t2 = s.table.push((rid, rw));
                let n = choose|n: int| 0 <= n < t2.len() && t2[n] == (id, w);
                if n < s.table.len() {
                    assert(s.table[n] == (id, w));
                } else {
                    assert((rid, rw) == (id, w));
                }
            }
        },
        EventView::Inbound { frame } => match frame {
            FrameView::Text(p) => match spec_decode(p) {
                None => {},
                Some(m) => match msg_id(m) {
                    None => {},
                    Some(mid) => {
                        if lookup(s.table, mid) is Some {
                            lemma_remove_id_contains(s.table, mid, (id, w));
                        }
                    },
                },
            },
            _ => {},
        },
    }
}

/// A resolution action is sound for a run when the waiter it hands out was
/// registered under exactly the response's identifier.
pub open spec fn resolution_ok<W>(
    s0: DispatchView<W>,
    events: Seq<EventView<W>>,
    a: ActionView<W>,
) -> bool {
    match a {
        ActionView::Resolved { waiter, response } => exists|id: i64|
            msg_id(response) == Some(id as int) && entry_from(s0, events, id, waiter),
        _ => true,
    }
}

/// Identifier correlation is exact: however registrations, replies and other
/// frames interleave, a run hands a waiter out only with a response whose
/// identifier is the one the waiter was registered under.
pub proof fn lemma_resolution_correlates<W>(s0: DispatchView<W>, events: Seq<EventView<W>>, k: int)
    requires
        0 <= k < spec_run(s0, events).1.len(),
        spec_run(s0, events).1[k] is Resolved,
    ensures
        resolution_ok(s0, events, spec_run(s0, events).1[k]),
    decreases events.len(),
{
    let (s1, a0) = spec_step(s0, events[0]);
    let rest = spec_run(s1, events.skip(1)).1;
    assert(spec_run(s0, events).1 == seq![a0] + rest);
    if k == 0 {
        assert(spec_run(s0, events).1[0] == a0);
        match events[0] {
            EventView::Inbound { frame } => match frame {
                FrameView::Text(p) => match spec_decode(p) {
                    Some(m) => match msg_id(m) {
                        Some(mid) => {
                            if lookup(s0.table, mid) is Some {
                                lemma_lookup_some(s0.table, mid);
                                let j = choose|j: int|
                                    0 <= j < s0.table.len() && s0.table[j].0 as int == mid
                                        && lookup(s0.table, mid) == Some(s0.table[j].1);
                                let idw = s0.table[j].0;
                                assert(s0.table[j] == (idw, s0.table[j].1));
                                assert(s0.table.contains((idw, s0.table[j].1)));
                                assert(idw as int == mid);
                                assert(a0 == (ActionView::Resolved {
                                    waiter: s0.table[j].1,
                                    response: m,
                                }));
                                match a0 {
                                    ActionView::Resolved { waiter: w2, response: r2 } => {
                                        assert(w2 == s0.table[j].1);
                                        assert(r2 == m);
                                        assert(msg_id(r2) == Some(idw as int));
                                        assert(entry_from(s0, events, idw, w2));
                                        assert(resolution_ok(s0, events, a0));
                                    },
                                    _ => {
                                        assert(false);
                                    },
                                }
                            }
                        },
                        None => {},
                    },
                    None => {},
                },
                _ => {},
            },
            _ => {},
        }
    } else {
        assert(rest[k - 1] == spec_run(s0, events).1[k]);
        lemma_resolution_correlates(s1, events.skip(1), k - 1);
        assert(resolution_ok(s1, events.skip(1), spec_run(s0, events).1[k]));
        match spec_run(s0, events).1[k] {
            ActionView::Resolved { waiter, response } => {
                let id = choose|id: i64|
                    msg_id(response) == Some(id as int)
                        && entry_from(s1, events.skip(1), id, waiter);
                if s1.table.contains((id, waiter)) {
                    lemma_step_entry_source(s0, events[0], id, waiter);
                    if !s0.table.contains((id, waiter)) {
                        assert(events[0] == (EventView::Register { id, waiter }));
                    }
                } else {
                    let j = choose|j: int|
                        0 <= j < events.skip(1).len() && events.skip(1)[j]
                            == (EventView::Register { id, waiter });
                    assert(events[j + 1] == (EventView::Register { id, waiter }));
                }
                assert(entry_from(s0, events, id, waiter));
                assert(msg_id(response) == Some(id as int));
                assert(resolution_ok(s0, events, spec_run(s0, events).1[k]));
            },
            _ => {},
        }
    }
}

/// The notification messages carried by an event sequence, in arrival order.
pub open spec fn notifs_of<W>(events: Seq<EventView<W>>) -> Seq<MsgView>
    decreases events.len(),
{
    if events.len() == 0 {
        Seq::empty()
    } else {
        let rest = notifs_of(events.skip(1));
        match events[0] {
            EventView::Inbound { frame } => match frame {
                FrameView::Text(p) => match spec_decode(p) {
                    Some(m) => if msg_id(m) is None {
                        seq![m] + rest
                    } else {
                        rest
                    },
                    None => rest,
                },
                _ => rest,
            },
            _ => rest,
        }
    }
}

/// The messages a run forwarded to the sink, in order.
pub open spec fn forwarded_of<W>(actions: Seq<ActionView<W>>) -> Seq<MsgView>
    decreases actions.len(),
{
    if actions.len() == 0 {
        Seq::empty()
    } else {
        let rest = forwarded_of(actions.skip(1));
        match actions[0] {
            ActionView::Forwarded { message } => seq![message] + rest,
            _ => rest,
        }
    }
}

/// Notifications reach the sink in the order the transport delivered them:
/// what a run forwards is exactly the leading notifications of the event
/// sequence, none skipped, none reordered.
pub proof fn lemma_notifications_in_order<W>(s0: DispatchView<W>, events: Seq<EventView<W>>)
    ensures
        forwarded_of(spec_run(s0, events).1).len() <= notifs_of(events).len(),
        ({
            let fwd = forwarded_of(spec_run(s0, events).1);
            fwd == notifs_of(events).take(fwd.len() as int)
        }),
    decreases events.len(),
{
    let fwd = forwarded_of(spec_run(s0, events).1);
    if events.len() == 0 || !s0.running {
        assert(fwd =~= notifs_of(events).take(fwd.len() as int));
    } else {
        let (s1, a0) = spec_step(s0, events[0]);
        let rest_acts = spec_run(s1, events.skip(1)).1;
        assert(spec_run(s0, events).1 == seq![a0] + rest_acts);
        assert((seq![a0] + rest_acts).skip(1) =~= rest_acts);
        lemma_notifications_in_order(s1, events.skip(1));
        let fwd1 = forwarded_of(rest_acts);
        let n1 = notifs_of(events.skip(1));
        match events[0] {
            EventView::Inbound { frame } => match frame {
                FrameView::Text(p) => match spec_decode(p) {
                    Some(m) => {
                        if msg_id(m) is None {
                            assert(a0 == ActionView::<W>::Forwarded { message: m });
                            assert(fwd == seq![m] + fwd1);
                            assert(notifs_of(events) == seq![m] + n1);
                            assert(fwd =~= notifs_of(events).take(fwd.len() as int));
                        } else {
                            assert(fwd == fwd1);
                            assert(notifs_of(events) == n1);
                        }
                    },
                    None => {
                        assert(fwd == fwd1);
                        assert(notifs_of(events) == n1);
                    },
                },
                _ => {
                    assert(fwd == fwd1);
                    assert(notifs_of(events) == n1);
                },
            },
            _ => {
                assert(fwd == fwd1);
                assert(notifs_of(events) == n1);
            },
        }
    }
}

/// A waiter is never handed a notification: every resolution carries a reply
/// or an error reply.
pub proof fn lemma_no_notification_resolved<W>(s0: DispatchView<W>, events: Seq<EventView<W>>, k: int)
    requires
        0 <= k < spec_run(s0, events).1.len(),
    ensures
        (match spec_run(s0, events).1[k] {
            ActionView::Resolved { response, .. } => !(response is Notification),
            _ => true,
        }),
    decreases events.len(),
{
    let (s1, a0) = spec_step(s0, events[0]);
    let rest = spec_run(s1, events.skip(1)).1;
    assert(spec_run(s0, events).1 == seq![a0] + rest);
    if k > 0 {
        assert(rest[k - 1] == spec_run(s0, events).1[k]);
        lemma_no_notification_resolved(s1, events.skip(1), k - 1);
    }
}

/// A reply or error reply whose identifier has no pending waiter is fatal:
/// the loop emits exactly one fatal action, stops, processes nothing that
/// follows, and leaves every pending waiter in the table for cancellation.
pub proof fn lemma_unknown_id_fatal<W>(
    s0: DispatchView<W>,
    p: Seq<u8>,
    rest: Seq<EventView<W>>,
    m: MsgView,
    id: int,
)
    requires
        s0.running,
        spec_decode(p) == Some(m),
        msg_id(m) == Some(id),
        lookup(s0.table, id) is None,
    ensures
        ({
            let e = EventView::<W>::Inbound { frame: FrameView::Text(p) };
            let run = spec_run(s0, seq![e] + rest);
            &&& run.1 =~= seq![
                ActionView::<W>::Fatal { reason: FatalReason::UnknownId { id: id as i64 } },
            ]
            &&& !run.0.running
            &&& run.0.table == s0.table
        }),
{
    let e = EventView::<W>::Inbound { frame: FrameView::Text(p) };
    let events = seq![e] + rest;
    assert(events[0] == e);
    assert(events.skip(1) =~= rest);
    let (s1, a0) = spec_step(s0, events[0]);
    assert(!s1.running);
    assert(spec_run(s1, events.skip(1)).1.len() == 0);
    assert(spec_run(s0, events).1 =~= seq![a0]);
}

/// An undecodable text frame is fatal in exactly the same way.
pub proof fn lemma_malformed_fatal<W>(s0: DispatchView<W>, p: Seq<u8>, rest: Seq<EventView<W>>)
    requires
        s0.running,
        spec_decode(p) is None,
    ensures
        ({
            let e = EventView::<W>::Inbound { frame: FrameView::Text(p) };
            let run = spec_run(s0, seq![e] + rest);
            &&& run.1 =~= seq![ActionView::<W>::Fatal { reason: FatalReason::MalformedFrame }]
            &&& !run.0.running
            &&& run.0.table == s0.table
        }),
{
    let e = EventView::<W>::Inbound { frame: FrameView::Text(p) };
    let events = seq![e] + rest;
    assert(events[0] == e);
    assert(events.skip(1) =~= rest);
    let (s1, a0) = spec_step(s0, events[0]);
    assert(!s1.running);
    assert(spec_run(s1, events.skip(1)).1.len() == 0);
    assert(spec_run(s0, events).1 =~= seq![a0]);
}

/// With distinct identifiers, removing an identifier's entry leaves no
/// entry for it.
proof fn lemma_lookup_remove_id<W>(t: Seq<(i64, W)>, id: int)
    requires
        distinct_ids(t),
    ensures
        lookup(remove_id(t, id), id) is None,
    decreases t.len(),
{
    if t.len() == 0 {
    } else if t[0].0 as int == id {
        if lookup(t.skip(1), id) is Some {
            lemma_lookup_some(t.skip(1), id);
            let j = choose|j: int|
                0 <= j < t.skip(1).len() && t.skip(1)[j].0 as int == id
                    && lookup(t.skip(1), id) == Some(t.skip(1)[j].1);
            assert(t[j + 1] == t.skip(1)[j]);
            assert(false);
        }
    } else {
        assert forall|x: int, y: int| 0 <= x < y < t.skip(1).len() implies
            t.skip(1)[x].0 != t.skip(1)[y].0 by {
            assert(t.skip(1)[x] == t[x + 1]);
            assert(t.skip(1)[y] == t[y + 1]);
        }
        lemma_lookup_remove_id(t.skip(1), id);
        assert((seq![t[0]] + remove_id(t.skip(1), id)).skip(1) =~= remove_id(t.skip(1), id));
    }
}

/// A resolution removes its identifier from the table: a further reply
/// carrying the same identifier finds no waiter — and is therefore fatal —
/// so no call is ever resolved twice.
pub proof fn lemma_no_double_resolution<W>(s: DispatchView<W>, e: EventView<W>, id: int)
    requires
        distinct_ids(s.table),
        spec_step(s, e).1 is Resolved,
        (match spec_step(s, e).1 {
            ActionView::Resolved { response, .. } => msg_id(response) == Some(id),
            _ => false,
        }),
    ensures
        lookup(spec_step(s, e).0.table, id) is None,
{
    match e {
        EventView::Inbound { frame } => match frame {
            FrameView::Text(p) => match spec_decode(p) {
                Some(m) => match msg_id(m) {
                    Some(mid) => {
                        if lookup(s.table, mid) is Some {
                            assert(mid == id);
                            assert(spec_step(s, e).0.table == remove_id(s.table, id));
                            lemma_lookup_remove_id(s.table, id);
                        }
                    },
                    None => {},
                },
                None => {},
            },
            _ => {},
        },
        _ => {},
    }
}

/// A loop that has stopped processes nothing: no event yields any action.
pub proof fn lemma_terminated_runs_nothing<W>(s: DispatchView<W>, events: Seq<EventView<W>>)
    requires
        !s.running,
    ensures
        spec_run(s, events).0 == s,
        spec_run(s, events).1.len() == 0,
{
}

/// The dispatch loop's state: the correlation table, and whether the loop
/// still runs.
pub struct Dispatcher<W> {
    table: Vec<(i64, W)>,
    running: bool,
}

impl<W> View for Dispatcher<W> {
    type V = DispatchView<W>;

    closed spec fn view(&self) -> DispatchView<W> {
        DispatchView { table: self.table@, running: self.running }
    }
}

impl<W> Dispatcher<W> {
    /// The correlation table never holds two entries for one identifier.
    pub open spec fn wf(&self) -> bool {
        distinct_ids(self@.table)
    }

    /// A fresh loop: empty table, running.
    pub fn new() -> (r: Self)
        ensures
            r.wf(),
            r@.table =~= Seq::<(i64, W)>::empty(),
            r@.running,
    {
        Dispatcher { table: Vec::new(), running: true }
    }

    /// Whether the loop still runs; after a fatal event it does not, and no
    /// further event may be handed to [`Self::step`].
    pub fn is_running(&self) -> (r: bool)
        ensures
            r == self@.running,
    {
        self.running
    }

    /// How many calls are pending.
    pub fn pending(&self) -> (r: usize)
        ensures
            r == self@.table.len(),
    {
        self.table.len()
    }

    /// The index of the entry for `id`, if one exists.
    fn find_index(&self, id: i64) -> (r: Option<usize>)
        ensures
            match r {
                Some(j) => j < self@.table.len() && self@.table[j as int].0 == id
                    && lookup(self@.table, id as int) == Some(self@.table[j as int].1)
                    && forall|k: int| 0 <= k < j ==> self@.table[k].0 as int != id,
                None => lookup(self@.table, id as int) is None,
            },
    {
        let mut j: usize = 0;
        proof {
            assert(self@.table.skip(0) =~= self@.table);
        }
        while j < self.table.len()
            invariant
                j <= self@.table.len(),
                lookup(self@.table, id as int) == lookup(self@.table.skip(j as int), id as int),
                forall|k: int| 0 <= k < j ==> self@.table[k].0 as int != id,
            decreases self@.table.len() - j,
        {
            proof {
                assert(self@.table.skip(j as int)[0] == self@.table[j as int]);
            }
            if self.table[j].0 == id {
                return Some(j);
            }
            proof {
                assert(self@.table.skip(j as int).skip(1) =~= self@.table.skip(j as int + 1));
            }
            j = j + 1;
        }
        proof {
            assert(self@.table.skip(self@.table.len() as int).len() == 0);
        }
        None
    }

    /// Handle one event while the loop runs. The new state and the returned
    /// action are exactly those of [`spec_step`].
    pub fn step(&mut self, event: Event<W>) -> (a: Action<W>)
        requires
            old(self).wf(),
            old(self)@.running,
        ensures
            final(self).wf(),
            final(self)@ == spec_step(old(self)@, event@).0,
            a@ == spec_step(old(self)@, event@).1,
    {
        match event {
            Event::Register { id, waiter } => {
                match self.find_index(id) {
                    Some(_) => {
                        self.running = false;
                        Action::Fatal { reason: FatalReason::DuplicateId { id } }
                    },
                    None => {
                        self.table.push((id, waiter));
                        proof {
                            lemma_lookup_none(old(self)@.table, id as int);
                            assert forall|x: int, y: int|
                                0 <= x < y < self@.table.len() implies
                                self@.table[x].0 != self@.table[y].0 by {
                                if y + 1 < self@.table.len() {
                                    assert(old(self)@.table[x].0 != old(self)@.table[y].0);
                                } else {
                                    assert(old(self)@.table[x].0 as int != id as int);
                                }
                            }
                        }
                        Action::Registered
                    },
                }
            },
            Event::Inbound { frame } => match frame {
                Frame::Text(payload) => {
                    match decode(&payload) {
                        None => {
                            self.running = false;
                            Action::Fatal { reason: FatalReason::MalformedFrame }
                        },
                        Some(m) => {
                            let id_opt: Option<i64> = match &m {
                                InboundMessage::Reply { id, .. } => Some(*id),
                                InboundMessage::ErrorReply { id, .. } => Some(*id),
                                InboundMessage::Notification { .. } => None,
                            };
                            match id_opt {
                                None => Action::Forwarded { message: m },
                                Some(id) => match self.find_index(id) {
                                    None => {
                                        self.running = false;
                                        Action::Fatal {
                                            reason: FatalReason::UnknownId { id },
                                        }
                                    },
                                    Some(j) => {
                                        proof {
                                            lemma_remove_at(
                                                old(self)@.table,
                                                id as int,
                                                j as int,
                                            );
                                            lemma_distinct_remove(old(self)@.table, j as int);
                                        }
                                        let (_, w) = self.table.remove(j);
                                        Action::Resolved { waiter: w, response: m }
                                    },
                                },
                            }
                        },
                    }
                },
                Frame::Ping => Action::Ignored,
                Frame::Pong => Action::Ignored,
                Frame::Binary => Action::Ignored,
            },
        }
    }

    /// Stop the loop and hand back every still-pending waiter, each exactly
    /// once, in table order. Afterwards the table is empty and the loop no
    /// longer runs: this is the cancellation path, and the caller fails each
    /// returned waiter with `CancelledError`.
    pub fn terminate(&mut self) -> (ws: Vec<W>)
        ensures
            final(self).wf(),
            !final(self)@.running,
            final(self)@.table.len() == 0,
            ws@ == waiters_of(old(self)@.table),
    {
        self.running = false;
        let mut ws: Vec<W> = Vec::new();
        while self.table.len() > 0
            invariant
                !self@.running,
                ws@.len() + self@.table.len() == old(self)@.table.len(),
                ws@ == waiters_of(old(self)@.table.take(ws@.len() as int)),
                self@.table == old(self)@.table.skip(ws@.len() as int),
            decreases self@.table.len(),
        {
            let ghost n = ws@.len() as int;
            let (_, w) = self.table.remove(0);
            ws.push(w);
            proof {
                let all = old(self)@.table;
                assert(all.skip(n)[0] == all[n]);
                assert(all.skip(n).remove(0) =~= all.skip(n + 1));
                assert(all.take(n + 1).drop_last() =~= all.take(n));
                assert(waiters_of(all.take(n + 1)) =~= waiters_of(all.take(n)).push(all[n].1));
            }
        }
        ws
    }
}

} // verus!
