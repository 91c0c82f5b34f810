use vstd::prelude::*;

verus! {

/// Everything that can go wrong on the producer side of the client.
#[derive(Clone, Copy, Debug, PartialEq, Eq, Structural)]
pub enum KeenError {
    /// The ingestion credentials were missing at construction time.
    Configuration,
    /// The client is not running: `start()` was never called, or the
    /// client was stopped.
    NotStarted,
}

/// Immutable ingestion credentials: a project identifier, a write key,
/// and an optional custom endpoint base URL.  Built once, never changed.
#[derive(Clone)]
pub struct ProjectSettings {
    pub custom_domain_url: Option<String>,
    pub project_id: String,
    pub api_key: String,
}

impl ProjectSettings {
    /// Validates the credentials: an empty project identifier or an empty
    /// write key is a configuration error, surfaced here, before any
    /// worker could be spawned.
    pub fn new(custom_domain_url: Option<String>, project_id: &str, api_key: &str) -> (r: Result<
        Self,
        KeenError,
    >)
        ensures
            r is Ok <==> (project_id@.len() > 0 && api_key@.len() > 0),
            r matches Ok(s) ==> {
                &&& s.custom_domain_url == custom_domain_url
                &&& s.project_id@ == project_id@
                &&& s.api_key@ == api_key@
            },
            r is Err ==> r == Err::<Self, KeenError>(KeenError::Configuration),
    {
        if project_id.is_empty() || api_key.is_empty() {
            Err(KeenError::Configuration)
        } else {
            Ok(
                ProjectSettings {
                    custom_domain_url,
                    project_id: project_id.to_owned(),
                    api_key: api_key.to_owned(),
                },
            )
        }
    }
}

} // verus!
