//! Naming and options for the conversational backends the assistant can
//! drive. The process-spawning calls themselves live outside the
//! library; this holds the data they exchange.

use vstd::prelude::*;

verus! {

/// Which conversational backend is configured.
#[derive(Clone, Copy, PartialEq, Eq, Structural, Debug)]
pub enum AiBackend {
    Claude,
    Cursor,
}

/// Options for querying a conversational backend.
pub struct QueryOptions {
    /// System prompt / context to use.
    pub system_prompt: Option<String>,
    /// Resume an existing session by ID.
    pub resume_session: Option<String>,
    /// Working directory.
    pub cwd: Option<String>,
    /// Skip permission/confirmation prompts.
    pub skip_permissions: bool,
}

impl Default for QueryOptions {
    /// No prompt, no session, no working directory, prompts kept.
    fn default() -> (r: QueryOptions)
        ensures
            r.system_prompt is None,
            r.resume_session is None,
            r.cwd is None,
            !r.skip_permissions,
    {
        QueryOptions { system_prompt: None, resume_session: None, cwd: None, skip_permissions: false }
    }
}

/// The display name of a configured backend.
pub fn current_backend_name(backend: AiBackend) -> (r: &'static str)
    ensures
        backend is Claude ==> r@ == "Code CLI"@,
        backend is Cursor ==> r@ == "Cursor CLI"@,
{
    match backend {
        AiBackend::Claude => "Code CLI",
        AiBackend::Cursor => "Cursor CLI",
    }
}

} // verus!
