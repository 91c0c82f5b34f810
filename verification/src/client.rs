//! The client façade's decision core: the lifecycle state machine and
//! the producer-facing calls.
//!
//! The core decides; the embedding program acts.  `start` and `stop`
//! say whether a worker must be spawned or joined; `add_event` and
//! `flush` either refuse — the client is not running — or hand back the
//! exact message to enqueue.  Enrichment happens here, so every
//! enqueued payload already has its metadata.

use vstd::prelude::*;
use vstd::string::StringExecFns;
use crate::dispatch::DispatchMessage;
use crate::enrich::{enrich_payload, enriched};
use crate::json::{jview, JsonData, JsonValue};
use crate::settings::{KeenError, ProjectSettings};

verus! {

/// Where a client is in its life.  A stopped client cannot be
/// restarted; a new one must be constructed.
#[derive(Clone, Copy, Debug, PartialEq, Eq, Structural)]
pub enum ClientState {
    Idle,
    Running,
    Stopped,
}

/// The client: immutable settings, the optional flush interval in
/// milliseconds, and the lifecycle state.
pub struct KeenClient {
    pub settings: ProjectSettings,
    pub send_interval_ms: Option<u64>,
    pub state: ClientState,
}

/// What `add_event` owes: refused with the not-started error unless the
/// client runs, and otherwise exactly one publish message for the named
/// collection whose payload is the enriched input.
pub open spec fn publish_result(
    r: Result<DispatchMessage, KeenError>,
    running: bool,
    collection: Seq<char>,
    payload: JsonData,
    geo: bool,
) -> bool {
    match r {
        Ok(m) => running && ({
            &&& m@ is Publish
            &&& m@->Publish_0 == collection
            &&& exists|ts: Seq<char>| m@->Publish_1 == enriched(payload, ts, geo)
        }),
        Err(e) => !running && e == KeenError::NotStarted,
    }
}

impl KeenClient {
    /// A fresh client; nothing runs until `start` is called.
    pub fn new(settings: ProjectSettings, send_interval_ms: Option<u64>) -> (c: Self)
        ensures
            c.settings == settings,
            c.send_interval_ms == send_interval_ms,
            c.state == ClientState::Idle,
    {
        KeenClient { settings, send_interval_ms, state: ClientState::Idle }
    }

    /// Whether producer calls are accepted.
    pub open spec fn is_running(&self) -> bool {
        self.state == ClientState::Running
    }

    /// Starts the client.  Returns true exactly on the idle-to-running
    /// transition: then, and only then, the caller spawns the one
    /// worker.  Starting twice is a no-op, and a stopped client stays
    /// stopped.
    pub fn start(&mut self) -> (spawn: bool)
        ensures
            final(self).settings == old(self).settings,
            final(self).send_interval_ms == old(self).send_interval_ms,
            spawn == (old(self).state == ClientState::Idle),
            final(self).state == (if old(self).state == ClientState::Idle {
                ClientState::Running
            } else {
                old(self).state
            }),
    {
        match self.state {
            ClientState::Idle => {
                self.state = ClientState::Running;
                true
            },
            _ => false,
        }
    }

    /// Stops the client.  Returns true exactly when a worker was
    /// running: then the caller closes the queue and joins the worker.
    /// Stopping a client that never ran, or stopping twice, changes
    /// nothing.
    pub fn stop(&mut self) -> (was_running: bool)
        ensures
            final(self).settings == old(self).settings,
            final(self).send_interval_ms == old(self).send_interval_ms,
            was_running == (old(self).state == ClientState::Running),
            final(self).state == (if old(self).state == ClientState::Running {
                ClientState::Stopped
            } else {
                old(self).state
            }),
    {
        match self.state {
            ClientState::Running => {
                self.state = ClientState::Stopped;
                true
            },
            _ => false,
        }
    }

    /// Accepts one event for `collection`: enriches it and hands back
    /// the message to enqueue, or refuses with the not-started error —
    /// and then no message exists to reach the wire.
    pub fn add_event(&self, collection: &str, payload: JsonValue) -> (r: Result<
        DispatchMessage,
        KeenError,
    >)
        ensures
            publish_result(r, self.is_running(), collection@, jview(payload), false),
    {
        self.add_event_with_param(collection, payload, false)
    }

    /// Like `add_event`, and also attaches the IP-to-geo instruction
    /// with the placeholder address field.
    pub fn add_event_with_geo_enrichment(&self, collection: &str, payload: JsonValue) -> (r:
        Result<DispatchMessage, KeenError>)
        ensures
            publish_result(r, self.is_running(), collection@, jview(payload), true),
    {
        self.add_event_with_param(collection, payload, true)
    }

    fn add_event_with_param(&self, collection: &str, payload: JsonValue, add_ip_geo: bool) -> (r:
        Result<DispatchMessage, KeenError>)
        ensures
            publish_result(r, self.is_running(), collection@, jview(payload), add_ip_geo),
    {
        match self.state {
            ClientState::Running => {
                let ts = utc_now_rfc3339_millis();
                let enriched_payload = enrich_payload(payload, ts.as_str(), add_ip_geo);
                let m = DispatchMessage::Publish {
                    collection: collection.to_owned(),
                    payload: enriched_payload,
                };
                proof {
                    assert(m@->Publish_1 == enriched(jview(payload), ts@, add_ip_geo));
                }
                Ok(m)
            },
            _ => Err(KeenError::NotStarted),
        }
    }

    /// Requests a flush: hands back the message to enqueue — `wait`
    /// tells the dispatcher to signal the caller after the attempt —
    /// or refuses with the not-started error.
    pub fn flush(&self, wait: bool) -> (r: Result<DispatchMessage, KeenError>)
        ensures
            self.is_running() ==> r == Ok::<DispatchMessage, KeenError>(
                DispatchMessage::FlushRequest(wait),
            ),
            !self.is_running() ==> r == Err::<DispatchMessage, KeenError>(KeenError::NotStarted),
    {
        match self.state {
            ClientState::Running => Ok(DispatchMessage::FlushRequest(wait)),
            _ => Err(KeenError::NotStarted),
        }
    }
}

/// Relies on chrono's `Utc::now` and `DateTime::to_rfc3339_opts` with
/// millisecond seconds-format and a `Z` suffix: the current UTC time as
/// an RFC 3339 string.  The result depends on the clock, so nothing is
/// promised of it.
#[verifier::external_body]
fn utc_now_rfc3339_millis() -> String {
    chrono::Utc::now().to_rfc3339_opts(chrono::SecondsFormat::Millis, true)
}

} // verus!
