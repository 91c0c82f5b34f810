//! The background dispatcher's batching and flush policy.
//!
//! The dispatcher is a state machine: it owns the accumulated batch,
//! and every queue outcome — a message, a timeout of the scheduled
//! flush deadline, or the closed queue — is one [`DispatcherState::step`],
//! which says what the worker must do next: send, signal the waiting
//! flush caller, reset the deadline, or stop.  The embedding program
//! only performs those actions; every decision is taken, and proved,
//! here against [`spec_step`].

use vstd::prelude::*;
use crate::json::{
    append_quoted, arr_str, jview, jview_seq, lemma_arr_str_snoc, lemma_jview_seq_push, push_char,
    quoted, write_json, JsonData, JsonValue,
};

verus! {

/// The most events a batch may hold before the dispatcher sends it
/// without waiting for the deadline or for an explicit flush.
pub const MAX_EVENTS_BY_REQUEST: u32 = 5000;

/// What producers put on the dispatcher's queue.
pub enum DispatchMessage {
    /// One enriched event for the named collection.
    Publish { collection: String, payload: JsonValue },
    /// An explicit flush; `true` when the caller waits for the attempt.
    FlushRequest(bool),
}

/// What one wait on the queue can come back with.
pub enum QueueEvent {
    /// A message arrived.
    Message(DispatchMessage),
    /// The scheduled flush deadline passed with no message.
    TimedOut,
    /// The producer side of the queue is gone: shut down.
    Closed,
}

/// The ghost shape of a queue outcome.
#[verifier::ext_equal]
pub enum EventModel {
    Publish(Seq<char>, JsonData),
    FlushRequest(bool),
    TimedOut,
    Closed,
}

impl View for DispatchMessage {
    type V = EventModel;

    open spec fn view(&self) -> EventModel {
        match self {
            DispatchMessage::Publish { collection, payload } => EventModel::Publish(
                collection@,
                jview(*payload),
            ),
            DispatchMessage::FlushRequest(w) => EventModel::FlushRequest(*w),
        }
    }
}

impl View for QueueEvent {
    type V = EventModel;

    open spec fn view(&self) -> EventModel {
        match self {
            QueueEvent::Message(m) => m@,
            QueueEvent::TimedOut => EventModel::TimedOut,
            QueueEvent::Closed => EventModel::Closed,
        }
    }
}

/// One collection's accumulated events, in arrival order.
pub(crate) struct BatchEntry {
    pub(crate) collection: String,
    pub(crate) events: Vec<JsonValue>,
}

/// The batch: enriched events grouped by collection, collections in
/// first-arrival order.  Its model is the sequence of
/// `(collection, events)` pairs.
pub struct Batch {
    pub(crate) entries: Vec<BatchEntry>,
}

impl View for Batch {
    type V = Seq<(Seq<char>, Seq<JsonData>)>;

    closed spec fn view(&self) -> Seq<(Seq<char>, Seq<JsonData>)> {
        Seq::new(
            self.entries@.len(),
            |i: int| (self.entries@[i].collection@, jview_seq(self.entries@[i].events@)),
        )
    }
}

/// `b` with `p` appended under `c`: the first entry for `c` grows, a
/// missing collection is appended as a new entry.
pub open spec fn batch_push(
    b: Seq<(Seq<char>, Seq<JsonData>)>,
    c: Seq<char>,
    p: JsonData,
) -> Seq<(Seq<char>, Seq<JsonData>)>
    decreases b.len(),
{
    if b.len() == 0 {
        seq![(c, seq![p])]
    } else if b[0].0 == c {
        seq![(b[0].0, b[0].1.push(p))] + b.drop_first()
    } else {
        seq![b[0]] + batch_push(b.drop_first(), c, p)
    }
}

/// How many events the batch holds, over all collections.
pub open spec fn batch_total(b: Seq<(Seq<char>, Seq<JsonData>)>) -> nat
    decreases b.len(),
{
    if b.len() == 0 {
        0
    } else {
        b[0].1.len() + batch_total(b.drop_first())
    }
}

/// The events accumulated under `c`, in arrival order; empty when the
/// collection has no entry.
pub open spec fn events_of(b: Seq<(Seq<char>, Seq<JsonData>)>, c: Seq<char>) -> Seq<JsonData>
    decreases b.len(),
{
    if b.len() == 0 {
        Seq::empty()
    } else if b[0].0 == c {
        b[0].1
    } else {
        events_of(b.drop_first(), c)
    }
}

/// Whether the batch has an entry for `c`.
pub open spec fn has_collection(b: Seq<(Seq<char>, Seq<JsonData>)>, c: Seq<char>) -> bool {
    exists|i: int| 0 <= i < b.len() && b[i].0 == c
}

/// No two entries share a collection name.
pub open spec fn keys_distinct(b: Seq<(Seq<char>, Seq<JsonData>)>) -> bool {
    forall|i: int, j: int| 0 <= i < j < b.len() ==> b[i].0 != b[j].0
}

/// The ghost state of the dispatcher.
#[verifier::ext_equal]
pub struct DispatchModel {
    /// No flush interval is configured: every event is sent as it comes.
    pub eager: bool,
    pub batch: Seq<(Seq<char>, Seq<JsonData>)>,
    pub qty: nat,
}

/// What a well-formed dispatcher state looks like; every reachable
/// state satisfies it.
pub open spec fn wf(m: DispatchModel) -> bool {
    &&& keys_distinct(m.batch)
    &&& forall|i: int| 0 <= i < m.batch.len() ==> m.batch[i].1.len() > 0
    &&& m.qty == batch_total(m.batch)
    &&& m.qty < MAX_EVENTS_BY_REQUEST as nat
    &&& (m.eager ==> m.batch.len() == 0)
}

/// The ghost shape of one send the worker is asked to perform.
#[verifier::ext_equal]
pub enum SendModel {
    /// POST one event to the collection's own endpoint.
    Single(Seq<char>, JsonData),
    /// POST the whole batch to the batch endpoint.
    Batched(Seq<(Seq<char>, Seq<JsonData>)>),
}

/// The ghost shape of what one step asks the worker to do.
#[verifier::ext_equal]
pub struct ActionModel {
    pub send: Option<SendModel>,
    /// Signal the caller blocked in a waiting flush, after the attempt.
    pub notify: bool,
    /// Leave the loop: the queue is closed.
    pub stop: bool,
    /// The flush deadline starts anew at this step.
    pub reset_deadline: bool,
    /// Events dropped at shutdown, to be logged.
    pub dropped: nat,
}

/// One send the worker must perform.
pub enum SendRequest {
    /// POST one event to the collection's own endpoint.
    Single { collection: String, event: JsonValue },
    /// POST the whole batch to the batch endpoint.
    Batched(Batch),
}

impl View for SendRequest {
    type V = SendModel;

    open spec fn view(&self) -> SendModel {
        match self {
            SendRequest::Single { collection, event } => SendModel::Single(
                collection@,
                jview(*event),
            ),
            SendRequest::Batched(b) => SendModel::Batched(b@),
        }
    }
}

/// What one step asks the worker to do.
pub struct StepAction {
    pub send: Option<SendRequest>,
    /// Signal the caller blocked in a waiting flush, after the attempt.
    pub notify: bool,
    /// Leave the loop: the queue is closed.
    pub stop: bool,
    /// The flush deadline starts anew at this step.
    pub reset_deadline: bool,
    /// Events dropped at shutdown, to be logged.
    pub dropped: u32,
}

impl View for StepAction {
    type V = ActionModel;

    open spec fn view(&self) -> ActionModel {
        ActionModel {
            send: if self.send is Some {
                Some(self.send->0@)
            } else {
                None
            },
            notify: self.notify,
            stop: self.stop,
            reset_deadline: self.reset_deadline,
            dropped: self.dropped as nat,
        }
    }
}

/// The dispatcher's whole policy, one queue outcome at a time.
///
/// An event is appended to the batch (sent at once in eager mode); a
/// flush request or a timeout sends whatever has accumulated and resets
/// the deadline; a full batch is sent without waiting; the closed queue
/// stops the worker and drops, never sends, what is still buffered.
pub open spec fn spec_step(m: DispatchModel, ev: EventModel) -> (DispatchModel, ActionModel) {
    match ev {
        EventModel::Publish(c, p) => {
            if m.eager {
                (
                    m,
                    ActionModel {
                        send: Some(SendModel::Single(c, p)),
                        notify: false,
                        stop: false,
                        reset_deadline: true,
                        dropped: 0,
                    },
                )
            } else {
                let b1 = batch_push(m.batch, c, p);
                let q1 = m.qty + 1;
                if q1 >= MAX_EVENTS_BY_REQUEST as nat {
                    (
                        DispatchModel { eager: m.eager, batch: Seq::empty(), qty: 0 },
                        ActionModel {
                            send: Some(SendModel::Batched(b1)),
                            notify: false,
                            stop: false,
                            reset_deadline: true,
                            dropped: 0,
                        },
                    )
                } else {
                    (
                        DispatchModel { eager: m.eager, batch: b1, qty: q1 },
                        ActionModel {
                            send: None,
                            notify: false,
                            stop: false,
                            reset_deadline: false,
                            dropped: 0,
                        },
                    )
                }
            }
        },
        EventModel::FlushRequest(w) => (
            DispatchModel { eager: m.eager, batch: Seq::empty(), qty: 0 },
            ActionModel {
                send: if m.batch.len() > 0 {
                    Some(SendModel::Batched(m.batch))
                } else {
                    None
                },
                notify: w,
                stop: false,
                reset_deadline: true,
                dropped: 0,
            },
        ),
        EventModel::TimedOut => (
            DispatchModel { eager: m.eager, batch: Seq::empty(), qty: 0 },
            ActionModel {
                send: if m.batch.len() > 0 {
                    Some(SendModel::Batched(m.batch))
                } else {
                    None
                },
                notify: false,
                stop: false,
                reset_deadline: true,
                dropped: 0,
            },
        ),
        EventModel::Closed => (
            DispatchModel { eager: m.eager, batch: Seq::empty(), qty: 0 },
            ActionModel {
                send: None,
                notify: false,
                stop: true,
                reset_deadline: false,
                dropped: m.qty,
            },
        ),
    }
}

proof fn lemma_batch_total_update(
    b: Seq<(Seq<char>, Seq<JsonData>)>,
    j: int,
    e: (Seq<char>, Seq<JsonData>),
)
    requires
        0 <= j < b.len(),
    ensures
        batch_total(b.update(j, e)) == batch_total(b) - b[j].1.len() + e.1.len(),
    decreases b.len(),
{
    let r = b.update(j, e);
    assert(batch_total(r) == r[0].1.len() + batch_total(r.drop_first()));
    assert(batch_total(b) == b[0].1.len() + batch_total(b.drop_first()));
    if j == 0 {
        assert(r.drop_first() =~= b.drop_first());
    } else {
        assert(r[0] == b[0]);
        assert(r.drop_first() =~= b.drop_first().update(j - 1, e));
        lemma_batch_total_update(b.drop_first(), j - 1, e);
    }
}

proof fn lemma_batch_total_push(b: Seq<(Seq<char>, Seq<JsonData>)>, e: (Seq<char>, Seq<JsonData>))
    ensures
        batch_total(b.push(e)) == batch_total(b) + e.1.len(),
    decreases b.len(),
{
    let r = b.push(e);
    assert(batch_total(r) == r[0].1.len() + batch_total(r.drop_first()));
    if b.len() == 0 {
        assert(r.drop_first() =~= Seq::<(Seq<char>, Seq<JsonData>)>::empty());
        assert(batch_total(r.drop_first()) == 0);
    } else {
        assert(r[0] == b[0]);
        assert(r.drop_first() =~= b.drop_first().push(e));
        lemma_batch_total_push(b.drop_first(), e);
        assert(batch_total(b) == b[0].1.len() + batch_total(b.drop_first()));
    }
}

proof fn lemma_events_of_at(b: Seq<(Seq<char>, Seq<JsonData>)>, j: int)
    requires
        0 <= j < b.len(),
        forall|k: int| 0 <= k < j ==> b[k].0 != b[j].0,
    ensures
        events_of(b, b[j].0) == b[j].1,
    decreases j,
{
    if j > 0 {
        assert(b.drop_first()[j - 1] == b[j]);
        assert(forall|k: int| 0 <= k < j - 1 ==> b.drop_first()[k] == b[k + 1]);
        lemma_events_of_at(b.drop_first(), j - 1);
    }
}

proof fn lemma_events_of_absent(b: Seq<(Seq<char>, Seq<JsonData>)>, d: Seq<char>)
    requires
        forall|k: int| 0 <= k < b.len() ==> b[k].0 != d,
    ensures
        events_of(b, d) == Seq::<JsonData>::empty(),
    decreases b.len(),
{
    if b.len() > 0 {
        assert(forall|k: int| 0 <= k < b.drop_first().len() ==> b.drop_first()[k] == b[k + 1]);
        lemma_events_of_absent(b.drop_first(), d);
    }
}

proof fn lemma_events_of_update_other(
    b: Seq<(Seq<char>, Seq<JsonData>)>,
    j: int,
    e: (Seq<char>, Seq<JsonData>),
    d: Seq<char>,
)
    requires
        0 <= j < b.len(),
        b[j].0 != d,
        e.0 != d,
    ensures
        events_of(b.update(j, e), d) == events_of(b, d),
    decreases b.len(),
{
    let r = b.update(j, e);
    if j == 0 {
        assert(r.drop_first() =~= b.drop_first());
    } else {
        assert(r[0] == b[0]);
        assert(r.drop_first() =~= b.drop_first().update(j - 1, e));
        lemma_events_of_update_other(b.drop_first(), j - 1, e, d);
    }
}

proof fn lemma_events_of_push_other(
    b: Seq<(Seq<char>, Seq<JsonData>)>,
    e: (Seq<char>, Seq<JsonData>),
    d: Seq<char>,
)
    requires
        d != e.0,
    ensures
        events_of(b.push(e), d) == events_of(b, d),
    decreases b.len(),
{
    let r = b.push(e);
    if b.len() == 0 {
        assert(r[0] == e);
        assert(r.drop_first() =~= Seq::<(Seq<char>, Seq<JsonData>)>::empty());
        assert(events_of(r.drop_first(), d) == Seq::<JsonData>::empty());
        assert(events_of(r, d) == events_of(r.drop_first(), d));
        assert(events_of(b, d) == Seq::<JsonData>::empty());
    } else {
        assert(r[0] == b[0]);
        assert(r.drop_first() =~= b.drop_first().push(e));
        lemma_events_of_push_other(b.drop_first(), e, d);
        if b[0].0 == d {
            assert(events_of(r, d) == r[0].1);
        } else {
            assert(events_of(r, d) == events_of(r.drop_first(), d));
            assert(events_of(b, d) == events_of(b.drop_first(), d));
        }
    }
}

/// Appending an event keeps the batch well formed, grows exactly the
/// chosen collection by exactly that event, and touches no other
/// collection.
pub proof fn lemma_batch_push_props(b: Seq<(Seq<char>, Seq<JsonData>)>, c: Seq<char>, p: JsonData)
    requires
        keys_distinct(b),
        forall|i: int| 0 <= i < b.len() ==> b[i].1.len() > 0,
    ensures
        keys_distinct(batch_push(b, c, p)),
        forall|i: int| 0 <= i < batch_push(b, c, p).len() ==> batch_push(b, c, p)[i].1.len() > 0,
        batch_total(batch_push(b, c, p)) == batch_total(b) + 1,
        events_of(batch_push(b, c, p), c) == events_of(b, c).push(p),
        forall|d: Seq<char>| d != c ==> events_of(batch_push(b, c, p), d) == events_of(b, d),
        forall|d: Seq<char>| has_collection(batch_push(b, c, p), d) <==> (has_collection(b, d)
            || d == c),
{
    let r = batch_push(b, c, p);
    if exists|j: int| 0 <= j < b.len() && b[j].0 == c {
        let j = choose|j: int| 0 <= j < b.len() && b[j].0 == c;
        let e = (b[j].0, b[j].1.push(p));
        assert forall|k: int| 0 <= k < j implies b[k].0 != c by {
            assert(b[k].0 != b[j].0);
        }
        lemma_batch_push_found(b, c, p, j);
        assert(r == b.update(j, e));
        assert forall|i: int| 0 <= i < r.len() implies r[i].0 == b[i].0 && r[i].1.len() > 0 by {
            if i == j {
                assert(r[i] == e);
            } else {
                assert(r[i] == b[i]);
            }
        }
        assert forall|i: int, t: int| 0 <= i < t < r.len() implies r[i].0 != r[t].0 by {
            assert(r[i].0 == b[i].0 && r[t].0 == b[t].0);
        }
        lemma_batch_total_update(b, j, e);
        lemma_events_of_at(b, j);
        lemma_events_of_at(r, j);
        assert(events_of(r, c) == r[j].1);
        assert forall|d: Seq<char>| d != c implies events_of(r, d) == events_of(b, d) by {
            lemma_events_of_update_other(b, j, e, d);
        }
        assert forall|d: Seq<char>| has_collection(r, d) implies (has_collection(b, d) || d
            == c) by {
            let i = choose|i: int| 0 <= i < r.len() && r[i].0 == d;
            assert(b[i].0 == d);
        }
        assert forall|d: Seq<char>| (has_collection(b, d) || d == c) implies has_collection(
            r,
            d,
        ) by {
            if has_collection(b, d) {
                let i = choose|i: int| 0 <= i < b.len() && b[i].0 == d;
                assert(r[i].0 == d);
            } else {
                assert(r[j].0 == c);
            }
        }
    } else {
        let e = (c, seq![p]);
        assert forall|k: int| 0 <= k < b.len() implies b[k].0 != c by {
            if b[k].0 == c {
                assert(exists|j: int| 0 <= j < b.len() && b[j].0 == c);
            }
        }
        lemma_batch_push_absent(b, c, p);
        assert(r == b.push(e));
        lemma_batch_total_push(b, e);
        assert(e.1.len() == 1);
        assert forall|i: int| 0 <= i < r.len() implies r[i].1.len() > 0 by {
            if i < b.len() {
                assert(r[i] == b[i]);
            } else {
                assert(r[i] == e);
            }
        }
        assert forall|i: int, t: int| 0 <= i < t < r.len() implies r[i].0 != r[t].0 by {
            if t < b.len() {
                assert(r[i] == b[i] && r[t] == b[t]);
            } else {
                assert(r[t] == e);
                assert(r[i] == b[i]);
            }
        }
        assert(forall|k: int| 0 <= k < b.len() ==> r[k] == b[k]);
        assert(r[b.len() as int] == e);
        lemma_events_of_at(r, b.len() as int);
        lemma_events_of_absent(b, c);
        assert(events_of(b, c).push(p) =~= seq![p]);
        assert forall|d: Seq<char>| d != c implies events_of(r, d) == events_of(b, d) by {
            lemma_events_of_push_other(b, e, d);
        }
        assert forall|d: Seq<char>| has_collection(r, d) implies (has_collection(b, d) || d
            == c) by {
            let i = choose|i: int| 0 <= i < r.len() && r[i].0 == d;
            if i < b.len() {
                assert(b[i].0 == d);
            }
        }
        assert forall|d: Seq<char>| (has_collection(b, d) || d == c) implies has_collection(
            r,
            d,
        ) by {
            if has_collection(b, d) {
                let i = choose|i: int| 0 <= i < b.len() && b[i].0 == d;
                assert(r[i].0 == d);
            } else {
                assert(r[b.len() as int].0 == c);
            }
        }
    }
}

proof fn lemma_batch_push_found(
    b: Seq<(Seq<char>, Seq<JsonData>)>,
    c: Seq<char>,
    p: JsonData,
    j: int,
)
    requires
        0 <= j < b.len(),
        b[j].0 == c,
        forall|k: int| 0 <= k < j ==> b[k].0 != c,
    ensures
        batch_push(b, c, p) == b.update(j, (b[j].0, b[j].1.push(p))),
    decreases j,
{
    if j == 0 {
        assert(seq![(b[0].0, b[0].1.push(p))] + b.drop_first() =~= b.update(
            0,
            (b[0].0, b[0].1.push(p)),
        ));
    } else {
        assert(forall|k: int|
            0 <= k < j - 1 ==> b.drop_first()[k].0 == b[k + 1].0 && b[k + 1].0 != c);
        lemma_batch_push_found(b.drop_first(), c, p, j - 1);
        assert(b.drop_first()[j - 1] == b[j]);
        assert(seq![b[0]] + b.drop_first().update(j - 1, (b[j].0, b[j].1.push(p))) =~= b.update(
            j,
            (b[j].0, b[j].1.push(p)),
        ));
    }
}

proof fn lemma_batch_push_absent(b: Seq<(Seq<char>, Seq<JsonData>)>, c: Seq<char>, p: JsonData)
    requires
        forall|k: int| 0 <= k < b.len() ==> b[k].0 != c,
    ensures
        batch_push(b, c, p) == b.push((c, seq![p])),
    decreases b.len(),
{
    if b.len() == 0 {
        assert(batch_push(b, c, p) =~= b.push((c, seq![p])));
    } else {
        assert(forall|k: int|
            0 <= k < b.drop_first().len() ==> b.drop_first()[k].0 == b[k + 1].0 && b[k + 1].0
                != c);
        lemma_batch_push_absent(b.drop_first(), c, p);
        assert(seq![b[0]] + b.drop_first().push((c, seq![p])) =~= b.push((c, seq![p])));
    }
}

impl Batch {
    /// An empty batch.
    pub(crate) fn new() -> (b: Batch)
        ensures
            b@ == Seq::<(Seq<char>, Seq<JsonData>)>::empty(),
    {
        let b = Batch { entries: Vec::new() };
        proof {
            assert(b@ =~= Seq::<(Seq<char>, Seq<JsonData>)>::empty());
        }
        b
    }

    /// How many collections have an entry.
    pub(crate) fn len(&self) -> (n: usize)
        ensures
            n == self@.len(),
    {
        self.entries.len()
    }

    /// Appends `payload` under `collection`.
    pub(crate) fn push_event(&mut self, collection: String, payload: JsonValue)
        ensures
            final(self)@ == batch_push(old(self)@, collection@, jview(payload)),
    {
        let ghost b0 = old(self)@;
        let mut j: usize = 0;
        while j < self.entries.len()
            invariant
                *self == *old(self),
                b0 == old(self)@,
                b0.len() == old(self).entries@.len(),
                j <= self.entries@.len(),
                forall|k: int| 0 <= k < j ==> old(self)@[k].0 != collection@,
            decreases self.entries@.len() - j,
        {
            if self.entries[j].collection == collection {
                self.entries[j].events.push(payload);
                proof {
                    assert(b0.len() == old(self).entries@.len());
                    assert(self.entries@.len() == old(self).entries@.len());
                    assert(self.entries@[j as int].collection == old(self).entries@[
                        j as int
                    ].collection);
                    assert(self.entries@[j as int].events@ == old(self).entries@[
                        j as int
                    ].events@.push(payload));
                    assert(forall|t: int|
                        0 <= t < b0.len() && t != j ==> self.entries@[t] == old(self).entries@[t]);
                    lemma_jview_seq_push(old(self).entries@[j as int].events@, payload);
                    assert(self@ =~= b0.update(
                        j as int,
                        (b0[j as int].0, b0[j as int].1.push(jview(payload))),
                    ));
                    lemma_batch_push_found(b0, collection@, jview(payload), j as int);
                }
                return ;
            }
            j = j + 1;
        }
        let mut evs: Vec<JsonValue> = Vec::new();
        evs.push(payload);
        let entry = BatchEntry { collection, events: evs };
        proof {
            lemma_batch_push_absent(b0, collection@, jview(payload));
        }
        self.entries.push(entry);
        proof {
            assert(jview_seq(seq![payload]) =~= seq![jview(payload)]) by {
                assert(seq![payload].drop_last() =~= Seq::<JsonValue>::empty());
                assert(jview_seq(Seq::<JsonValue>::empty()) =~= Seq::<JsonData>::empty());
                assert(seq![payload].last() == payload);
            }
            assert(self.entries@ == old(self).entries@.push(entry));
            assert(entry.events@ =~= seq![payload]);
            assert(entry.collection@ == collection@);
            assert(self@ =~= b0.push((collection@, seq![jview(payload)])));
        }
    }
}

/// The dispatcher's state between two queue outcomes.
pub struct DispatcherState {
    batch: Batch,
    qty: u32,
    eager: bool,
}

impl View for DispatcherState {
    type V = DispatchModel;

    closed spec fn view(&self) -> DispatchModel {
        DispatchModel { eager: self.eager, batch: self.batch@, qty: self.qty as nat }
    }
}

impl DispatcherState {
    #[verifier::type_invariant]
    spec fn inv(self) -> bool {
        wf(self@)
    }

    /// A dispatcher that has not seen any event yet.  `eager` is true
    /// when no flush interval is configured.
    pub fn new(eager: bool) -> (s: Self)
        ensures
            s@ == (DispatchModel { eager, batch: Seq::<(Seq<char>, Seq<JsonData>)>::empty(), qty: 0 as nat }),
    {
        let s = DispatcherState { batch: Batch::new(), qty: 0, eager };
        proof {
            assert(s@ =~= DispatchModel {
                eager,
                batch: Seq::<(Seq<char>, Seq<JsonData>)>::empty(),
                qty: 0 as nat,
            });
        }
        s
    }

    /// Handles one queue outcome, as [`spec_step`] says.
    pub fn step(self, ev: QueueEvent) -> (r: (Self, StepAction))
        ensures
            r.0@ == spec_step(self@, ev@).0,
            r.1@ == spec_step(self@, ev@).1,
    {
        proof {
            use_type_invariant(&self);
        }
        let ghost m0 = self@;
        let DispatcherState { batch, qty, eager } = self;
        match ev {
            QueueEvent::Message(DispatchMessage::Publish { collection, payload }) => {
                if eager {
                    let st = DispatcherState { batch, qty, eager };
                    proof {
                        assert(st@ =~= m0);
                    }
                    let act = StepAction {
                        send: Some(SendRequest::Single { collection, event: payload }),
                        notify: false,
                        stop: false,
                        reset_deadline: true,
                        dropped: 0,
                    };
                    proof {
                        assert(act@ =~= spec_step(m0, ev@).1);
                    }
                    (st, act)
                } else {
                    let mut batch = batch;
                    proof {
                        lemma_batch_push_props(m0.batch, collection@, jview(payload));
                    }
                    batch.push_event(collection, payload);
                    let qty1 = qty + 1;
                    if qty1 >= MAX_EVENTS_BY_REQUEST {
                        let st = DispatcherState { batch: Batch::new(), qty: 0, eager };
                        proof {
                            assert(st@ =~= spec_step(m0, ev@).0);
                        }
                        let act = StepAction {
                            send: Some(SendRequest::Batched(batch)),
                            notify: false,
                            stop: false,
                            reset_deadline: true,
                            dropped: 0,
                        };
                        proof {
                            assert(act@ =~= spec_step(m0, ev@).1);
                        }
                        (st, act)
                    } else {
                        let st = DispatcherState { batch, qty: qty1, eager };
                        proof {
                            assert(st@ =~= spec_step(m0, ev@).0);
                        }
                        let act = StepAction {
                            send: None,
                            notify: false,
                            stop: false,
                            reset_deadline: false,
                            dropped: 0,
                        };
                        proof {
                            assert(act@ =~= spec_step(m0, ev@).1);
                        }
                        (st, act)
                    }
                }
            },
            QueueEvent::Message(DispatchMessage::FlushRequest(w)) => {
                let send = if batch.len() > 0 {
                    Some(SendRequest::Batched(batch))
                } else {
                    None
                };
                let st = DispatcherState { batch: Batch::new(), qty: 0, eager };
                proof {
                    assert(st@ =~= spec_step(m0, ev@).0);
                }
                let act = StepAction {
                    send,
                    notify: w,
                    stop: false,
                    reset_deadline: true,
                    dropped: 0,
                };
                proof {
                    assert(act@ =~= spec_step(m0, ev@).1);
                }
                (st, act)
            },
            QueueEvent::TimedOut => {
                let send = if batch.len() > 0 {
                    Some(SendRequest::Batched(batch))
                } else {
                    None
                };
                let st = DispatcherState { batch: Batch::new(), qty: 0, eager };
                proof {
                    assert(st@ =~= spec_step(m0, ev@).0);
                }
                let act = StepAction {
                    send,
                    notify: false,
                    stop: false,
                    reset_deadline: true,
                    dropped: 0,
                };
                proof {
                    assert(act@ =~= spec_step(m0, ev@).1);
                }
                (st, act)
            },
            QueueEvent::Closed => {
                let st = DispatcherState { batch: Batch::new(), qty: 0, eager };
                proof {
                    assert(st@ =~= spec_step(m0, ev@).0);
                }
                let act = StepAction {
                    send: None,
                    notify: false,
                    stop: true,
                    reset_deadline: false,
                    dropped: qty,
                };
                proof {
                    assert(act@ =~= spec_step(m0, ev@).1);
                }
                (st, act)
            },
        }
    }
}

/// Milliseconds left until the scheduled flush deadline: the interval
/// less the time already elapsed, never below zero.
pub fn compute_timeout(interval_ms: u64, elapsed_ms: u64) -> (r: u64)
    ensures
        r == if elapsed_ms < interval_ms {
            interval_ms - elapsed_ms
        } else {
            0
        },
{
    if elapsed_ms < interval_ms {
        interval_ms - elapsed_ms
    } else {
        0
    }
}

/// One batch entry on the wire: the quoted collection name, then its
/// events as a JSON array.
pub open spec fn entry_str(e: (Seq<char>, Seq<JsonData>)) -> Seq<char> {
    quoted(e.0) + seq![':'] + seq!['['] + arr_str(e.1) + seq![']']
}

/// Batch entries on the wire, in order, separated by commas.
pub open spec fn batch_members_str(b: Seq<(Seq<char>, Seq<JsonData>)>) -> Seq<char>
    decreases b.len(),
{
    if b.len() == 0 {
        Seq::empty()
    } else if b.len() == 1 {
        entry_str(b[0])
    } else {
        batch_members_str(b.drop_last()) + seq![','] + entry_str(b.last())
    }
}

/// The whole batch as one JSON object: each collection maps to the
/// array of its enriched events.
pub open spec fn batch_body_str(b: Seq<(Seq<char>, Seq<JsonData>)>) -> Seq<char> {
    seq!['{'] + batch_members_str(b) + seq!['}']
}

proof fn lemma_batch_members_str_snoc(b: Seq<(Seq<char>, Seq<JsonData>)>, i: int)
    requires
        0 <= i < b.len(),
    ensures
        i == 0 ==> batch_members_str(b.take(1)) == entry_str(b[0]),
        i > 0 ==> batch_members_str(b.take(i + 1)) == batch_members_str(b.take(i)) + seq![',']
            + entry_str(b[i]),
{
    assert(b.take(i + 1).drop_last() =~= b.take(i));
    assert(b.take(i + 1).last() == b[i]);
    assert(b.take(i + 1)[0] == b[0]);
}

/// Renders the batch as the body the batch endpoint expects.
pub fn batch_to_body(b: &Batch) -> (s: String)
    ensures
        s@ == batch_body_str(b@),
{
    let mut out = String::new();
    push_char(&mut out, '{');
    let mut i: usize = 0;
    while i < b.entries.len()
        invariant
            i <= b.entries@.len(),
            b@.len() == b.entries@.len(),
            forall|t: int|
                0 <= t < b.entries@.len() ==> b@[t] == (
                    b.entries@[t].collection@,
                    jview_seq(b.entries@[t].events@),
                ),
            out@ == seq!['{'] + batch_members_str(b@.take(i as int)),
        decreases b.entries@.len() - i,
    {
        if i > 0 {
            push_char(&mut out, ',');
        }
        append_quoted(b.entries[i].collection.as_str(), &mut out);
        push_char(&mut out, ':');
        push_char(&mut out, '[');
        let ghost elems = jview_seq(b.entries@[i as int].events@);
        let ghost arr_base = out@;
        proof {
            crate::json::lemma_jview_seq_props(b.entries@[i as int].events@);
        }
        let evs = &b.entries[i].events;
        let mut k: usize = 0;
        while k < evs.len()
            invariant
                k <= evs@.len(),
                *evs == b.entries@[i as int].events,
                i < b.entries@.len(),
                elems == jview_seq(evs@),
                elems.len() == evs@.len(),
                forall|t: int| 0 <= t < evs@.len() ==> elems[t] == jview(evs@[t]),
                out@ == arr_base + arr_str(elems.take(k as int)),
            decreases evs@.len() - k,
        {
            if k > 0 {
                push_char(&mut out, ',');
            }
            write_json(&evs[k], &mut out);
            proof {
                lemma_arr_str_snoc(elems, k as int);
                assert(out@ =~= arr_base + arr_str(elems.take(k as int + 1)));
            }
            k = k + 1;
        }
        push_char(&mut out, ']');
        proof {
            assert(elems.take(elems.len() as int) =~= elems);
            lemma_batch_members_str_snoc(b@, i as int);
            assert(out@ =~= seq!['{'] + batch_members_str(b@.take(i as int + 1)));
        }
        i = i + 1;
    }
    push_char(&mut out, '}');
    proof {
        assert(b@.take(b@.len() as int) =~= b@);
        assert(out@ =~= batch_body_str(b@));
    }
    out
}

} // verus!
