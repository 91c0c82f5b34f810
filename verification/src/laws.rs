//! The guarantees the dispatcher gives across whole runs.
//!
//! [`spec_run`] folds [`spec_step`] over a sequence of queue outcomes;
//! the proof functions here state, once and for all states the
//! dispatcher can reach, what the policy delivers: eager mode sends
//! every event alone and in order; interval mode sends nothing early
//! and accumulates every event under its collection, unmixed; a flush
//! sends everything accumulated before it; the closed queue always
//! stops the worker and never sends.

use vstd::prelude::*;
use crate::dispatch::{
    batch_push, batch_total, events_of, lemma_batch_push_props, spec_step, wf,
    ActionModel, DispatchModel, EventModel, SendModel, MAX_EVENTS_BY_REQUEST,
};
use crate::json::JsonData;

verus! {

/// The state after a sequence of queue outcomes, with the action each
/// outcome produced, in order.
pub open spec fn spec_run(m: DispatchModel, evs: Seq<EventModel>) -> (
    DispatchModel,
    Seq<ActionModel>,
)
    decreases evs.len(),
{
    if evs.len() == 0 {
        (m, Seq::empty())
    } else {
        let prev = spec_run(m, evs.drop_last());
        let last = spec_step(prev.0, evs.last());
        (last.0, prev.1.push(last.1))
    }
}

/// Only events, no flushes, timeouts or shutdowns.
pub open spec fn all_publishes(evs: Seq<EventModel>) -> bool {
    forall|i: int| 0 <= i < evs.len() ==> evs[i] is Publish
}

/// The payloads published to `d`, in order.
pub open spec fn published_to(evs: Seq<EventModel>, d: Seq<char>) -> Seq<JsonData>
    decreases evs.len(),
{
    if evs.len() == 0 {
        Seq::empty()
    } else {
        let head = published_to(evs.drop_last(), d);
        match evs.last() {
            EventModel::Publish(c, p) => if c == d {
                head.push(p)
            } else {
                head
            },
            _ => head,
        }
    }
}

/// Every reachable dispatcher state is well formed: one step from a
/// well-formed state lands in a well-formed state.
pub proof fn lemma_step_preserves_wf(m: DispatchModel, ev: EventModel)
    requires
        wf(m),
    ensures
        wf(spec_step(m, ev).0),
{
    let m1 = spec_step(m, ev).0;
    match ev {
        EventModel::Publish(c, p) => {
            if !m.eager {
                lemma_batch_push_props(m.batch, c, p);
            }
        },
        _ => {},
    }
    if m1.batch.len() == 0 {
        assert(batch_total(m1.batch) == 0);
    }
}

/// The well-formedness invariant holds along every run, whatever the
/// queue delivers.
pub proof fn lemma_run_preserves_wf(m: DispatchModel, evs: Seq<EventModel>)
    requires
        wf(m),
    ensures
        wf(spec_run(m, evs).0),
    decreases evs.len(),
{
    if evs.len() > 0 {
        lemma_run_preserves_wf(m, evs.drop_last());
        lemma_step_preserves_wf(spec_run(m, evs.drop_last()).0, evs.last());
    }
}

/// Eager mode sends each published event at once, alone, to its own
/// collection, in submission order — and the state never accumulates.
pub proof fn lemma_eager_one_send_per_event(m: DispatchModel, evs: Seq<EventModel>)
    requires
        wf(m),
        m.eager,
        all_publishes(evs),
    ensures
        spec_run(m, evs).0 == m,
        spec_run(m, evs).1.len() == evs.len(),
        forall|i: int|
            0 <= i < evs.len() ==> spec_run(m, evs).1[i].send == Some(
                SendModel::Single(evs[i]->Publish_0, evs[i]->Publish_1),
            ),
        forall|i: int|
            0 <= i < evs.len() ==> !spec_run(m, evs).1[i].stop && !spec_run(m, evs).1[i].notify,
    decreases evs.len(),
{
    if evs.len() > 0 {
        assert(all_publishes(evs.drop_last())) by {
            assert(forall|i: int|
                0 <= i < evs.drop_last().len() ==> evs.drop_last()[i] == evs[i]);
        }
        lemma_eager_one_send_per_event(m, evs.drop_last());
        let r = spec_run(m, evs);
        let prev = spec_run(m, evs.drop_last());
        assert forall|i: int| 0 <= i < evs.len() implies r.1[i].send == Some(
            SendModel::Single(evs[i]->Publish_0, evs[i]->Publish_1),
        ) && !r.1[i].stop && !r.1[i].notify by {
            if i < evs.len() - 1 {
                assert(r.1[i] == prev.1[i]);
                assert(evs.drop_last()[i] == evs[i]);
            } else {
                assert(r.1[i] == spec_step(prev.0, evs.last()).1);
            }
        }
    }
}

/// In interval mode, an event that leaves the batch under its size cap
/// triggers no send: before the deadline, only an explicit flush or a
/// full batch reaches the wire.
pub proof fn lemma_interval_no_send_below_cap(m: DispatchModel, c: Seq<char>, p: JsonData)
    requires
        wf(m),
        !m.eager,
        m.qty + 1 < MAX_EVENTS_BY_REQUEST as nat,
    ensures
        spec_step(m, EventModel::Publish(c, p)).1.send is None,
        spec_step(m, EventModel::Publish(c, p)).0.batch == batch_push(m.batch, c, p),
{
}

/// In interval mode, a run of publishes that stays under the cap sends
/// nothing and accumulates exactly the published events: each one under
/// its own collection, in submission order, with no mixing and no loss.
pub proof fn lemma_interval_accumulates(m: DispatchModel, evs: Seq<EventModel>)
    requires
        wf(m),
        !m.eager,
        all_publishes(evs),
        m.qty + evs.len() < MAX_EVENTS_BY_REQUEST as nat,
    ensures
        wf(spec_run(m, evs).0),
        !spec_run(m, evs).0.eager,
        spec_run(m, evs).0.qty == m.qty + evs.len(),
        spec_run(m, evs).1.len() == evs.len(),
        forall|i: int|
            0 <= i < evs.len() ==> spec_run(m, evs).1[i].send is None && !spec_run(
                m,
                evs,
            ).1[i].stop && !spec_run(m, evs).1[i].notify,
        forall|d: Seq<char>|
            events_of(spec_run(m, evs).0.batch, d) == events_of(m.batch, d) + published_to(
                evs,
                d,
            ),
    decreases evs.len(),
{
    let r = spec_run(m, evs);
    if evs.len() == 0 {
        assert forall|d: Seq<char>| events_of(r.0.batch, d) == events_of(m.batch, d)
            + published_to(evs, d) by {
            assert(events_of(m.batch, d) + Seq::<JsonData>::empty() =~= events_of(m.batch, d));
        }
    } else {
        assert(all_publishes(evs.drop_last())) by {
            assert(forall|i: int|
                0 <= i < evs.drop_last().len() ==> evs.drop_last()[i] == evs[i]);
        }
        lemma_interval_accumulates(m, evs.drop_last());
        let prev = spec_run(m, evs.drop_last());
        let c = evs.last()->Publish_0;
        let p = evs.last()->Publish_1;
        lemma_batch_push_props(prev.0.batch, c, p);
        assert forall|i: int| 0 <= i < evs.len() implies r.1[i].send is None && !r.1[i].stop
            && !r.1[i].notify by {
            if i < evs.len() - 1 {
                assert(r.1[i] == prev.1[i]);
            } else {
                assert(r.1[i] == spec_step(prev.0, evs.last()).1);
            }
        }
        assert forall|d: Seq<char>| events_of(r.0.batch, d) == events_of(m.batch, d)
            + published_to(evs, d) by {
            if d == c {
                assert(events_of(prev.0.batch, d) == events_of(m.batch, d) + published_to(
                    evs.drop_last(),
                    d,
                ));
                assert(events_of(r.0.batch, d) == events_of(prev.0.batch, d).push(p));
                assert((events_of(m.batch, d) + published_to(evs.drop_last(), d)).push(p)
                    =~= events_of(m.batch, d) + published_to(evs.drop_last(), d).push(p));
            } else {
                assert(events_of(r.0.batch, d) == events_of(prev.0.batch, d));
            }
        }
    }
}

/// A flush sends a batch covering every event published before it —
/// none is lost, none is mixed into another collection — empties the
/// dispatcher, and asks the worker to notify exactly a waiting caller.
/// It sends nothing only when nothing at all had accumulated.
pub proof fn lemma_flush_covers_pending(m: DispatchModel, evs: Seq<EventModel>, wait: bool)
    requires
        wf(m),
        !m.eager,
        all_publishes(evs),
        m.qty + evs.len() < MAX_EVENTS_BY_REQUEST as nat,
    ensures
        ({
            let pre = spec_run(m, evs).0;
            let r = spec_run(m, evs.push(EventModel::FlushRequest(wait)));
            let last = r.1.last();
            &&& r.1.len() == evs.len() + 1
            &&& last.notify == wait
            &&& !last.stop
            &&& r.0.batch.len() == 0
            &&& (last.send is None <==> pre.batch.len() == 0)
            &&& (last.send is Some ==> last.send->0 == SendModel::Batched(pre.batch))
            &&& forall|d: Seq<char>|
                events_of(pre.batch, d) == events_of(m.batch, d) + published_to(evs, d)
        }),
{
    lemma_interval_accumulates(m, evs);
    let full = evs.push(EventModel::FlushRequest(wait));
    assert(full.drop_last() =~= evs);
    assert(full.last() == EventModel::FlushRequest(wait));
    let pre = spec_run(m, evs).0;
    let r = spec_run(m, full);
    assert(r.0 == spec_step(pre, EventModel::FlushRequest(wait)).0);
    assert(r.1.last() == spec_step(pre, EventModel::FlushRequest(wait)).1);
}

/// The closed queue stops the worker, with nothing sent: whatever is
/// still buffered is dropped, and its count is reported for the log.
pub proof fn lemma_closed_stops(m: DispatchModel)
    requires
        wf(m),
    ensures
        spec_step(m, EventModel::Closed).1.stop,
        spec_step(m, EventModel::Closed).1.send is None,
        spec_step(m, EventModel::Closed).1.dropped == batch_total(m.batch),
        spec_step(m, EventModel::Closed).0.batch.len() == 0,
{
}

} // verus!
