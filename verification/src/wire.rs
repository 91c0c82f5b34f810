//! Wire rendering: the exact URL and body of every HTTP POST.
//!
//! A single event goes to its collection's own endpoint with the event
//! as body; a batch goes to the project's batch endpoint with one JSON
//! object mapping each collection to its event array.

use vstd::prelude::*;
use vstd::string::StringExecFns;
use crate::dispatch::{batch_body_str, batch_to_body, SendModel, SendRequest};
use crate::json::{json_str, json_to_string, jview};
use crate::settings::ProjectSettings;

verus! {

/// The endpoint base used when settings carry no custom base URL.
pub open spec fn default_base_url() -> Seq<char> {
    "https://api.keen.io"@
}

/// The endpoint base these settings point at.
pub open spec fn base_url_of(s: ProjectSettings) -> Seq<char> {
    match s.custom_domain_url {
        Some(u) => u@,
        None => default_base_url(),
    }
}

/// The batch endpoint URL.
pub open spec fn batch_url_str(s: ProjectSettings) -> Seq<char> {
    base_url_of(s) + "/3.0/projects/"@ + s.project_id@ + "/events?api_key="@ + s.api_key@
}

/// The single-event endpoint URL for one collection.
pub open spec fn single_url_str(s: ProjectSettings, collection: Seq<char>) -> Seq<char> {
    base_url_of(s) + "/3.0/projects/"@ + s.project_id@ + "/events/"@ + collection
        + "?api_key="@ + s.api_key@
}

fn base_url(s: &ProjectSettings) -> (r: String)
    ensures
        r@ == base_url_of(*s),
{
    match &s.custom_domain_url {
        Some(u) => u.clone(),
        None => "https://api.keen.io".to_owned(),
    }
}

/// Builds the batch endpoint URL.
pub fn batch_url(s: &ProjectSettings) -> (r: String)
    ensures
        r@ == batch_url_str(*s),
{
    let mut r = base_url(s);
    r.append("/3.0/projects/");
    r.append(s.project_id.as_str());
    r.append("/events?api_key=");
    r.append(s.api_key.as_str());
    proof {
        assert(r@ =~= batch_url_str(*s));
    }
    r
}

/// Builds the single-event endpoint URL for `collection`.
pub fn single_event_url(s: &ProjectSettings, collection: &str) -> (r: String)
    ensures
        r@ == single_url_str(*s, collection@),
{
    let mut r = base_url(s);
    r.append("/3.0/projects/");
    r.append(s.project_id.as_str());
    r.append("/events/");
    r.append(collection);
    r.append("?api_key=");
    r.append(s.api_key.as_str());
    proof {
        assert(r@ =~= single_url_str(*s, collection@));
    }
    r
}

/// One HTTP POST for the transport to perform, rendered in full.
pub struct HttpRequest {
    pub url: String,
    pub body: String,
}

/// Renders a send request: the exact URL and the exact JSON body.
pub fn render_request(settings: &ProjectSettings, req: &SendRequest) -> (r: HttpRequest)
    ensures
        ({
            match req@ {
                SendModel::Single(c, p) => r.url@ == single_url_str(*settings, c) && r.body@
                    == json_str(p),
                SendModel::Batched(b) => r.url@ == batch_url_str(*settings) && r.body@
                    == batch_body_str(b),
            }
        }),
{
    match req {
        SendRequest::Single { collection, event } => HttpRequest {
            url: single_event_url(settings, collection.as_str()),
            body: json_to_string(event),
        },
        SendRequest::Batched(b) => HttpRequest {
            url: batch_url(settings),
            body: batch_to_body(b),
        },
    }
}

} // verus!
