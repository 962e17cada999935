//! Interpreting the event stream a Cursor CLI run prints: each line is
//! one event; the run's answer is the last result event, the session is
//! the last reported session id. Parsing the lines into events and
//! spawning the process stay with the caller.

use vstd::prelude::*;

use vstd::string::StringExecFns;

verus! {

/// Options for querying Cursor.
pub struct QueryOptions {
    /// Context to prepend to the message.
    pub context: Option<String>,
    /// Resume an existing session by ID.
    pub resume_session: Option<String>,
    /// Working directory for Cursor.
    pub cwd: Option<String>,
    /// Model to use.
    pub model: Option<String>,
    /// Skip confirmation prompts.
    pub force: bool,
}

impl Default for QueryOptions {
    /// No context, no session, no working directory, no model, prompts
    /// kept.
    fn default() -> (r: QueryOptions)
        ensures
            r.context is None,
            r.resume_session is None,
            r.cwd is None,
            r.model is None,
            !r.force,
    {
        QueryOptions { context: None, resume_session: None, cwd: None, model: None, force: false }
    }
}

/// The prompt handed to a run: the caller's context, when present, is
/// wrapped in a context block ahead of the message; without one the
/// message goes through unchanged.
pub fn build_prompt(context: &Option<String>, prompt: &str) -> (r: String)
    ensures
        context matches Some(c) ==> r@ == "<context>\n"@ + c@ + "\n</context>\n\n"@ + prompt@,
        context is None ==> r@ == prompt@,
{
    match context {
        Some(c) => {
            let mut out = String::from_str("<context>\n");
            out.append(c.as_str());
            out.append("\n</context>\n\n");
            out.append(prompt);
            out
        },
        None => String::from_str(prompt),
    }
}

/// One event of the stream a run prints, one per line.
pub struct CursorEvent {
    /// The event's type tag.
    pub event_type: String,
    /// For result events: the answer text.
    pub result: Option<String>,
    /// Session ID, present in most events.
    pub session_id: Option<String>,
    /// For result events: how long the run took.
    pub duration_ms: Option<u64>,
    /// Marks a failed run.
    pub is_error: Option<bool>,
}

/// What can go wrong when reading a run's event stream.
#[derive(Debug)]
pub enum CursorError {
    /// A result event was marked as an error.
    RunFailed,
    /// The stream ended without a result event.
    NoResult,
}

/// A result event marked as an error, which fails the whole run.
pub open spec fn is_error_event(e: CursorEvent) -> bool {
    e.event_type@ == "result"@ && e.is_error == Some(true)
}

/// The answer carried by the last result event among the first `n`.
pub open spec fn last_result(events: Seq<CursorEvent>, n: int) -> Option<Seq<char>>
    decreases n,
{
    if n <= 0 {
        None
    } else if events[n - 1].event_type@ == "result"@ && events[n - 1].result is Some {
        Some(events[n - 1].result->0@)
    } else {
        last_result(events, n - 1)
    }
}

/// The last session id reported among the first `n` events.
pub open spec fn last_session(events: Seq<CursorEvent>, n: int) -> Option<Seq<char>>
    decreases n,
{
    if n <= 0 {
        None
    } else if events[n - 1].session_id is Some {
        Some(events[n - 1].session_id->0@)
    } else {
        last_session(events, n - 1)
    }
}

/// Picks a run's answer and session out of its event stream: the run
/// failed if any result event is marked as an error; otherwise the
/// answer is the last result event's text (an event stream without one
/// yields no result), and the session is the last one reported, or
/// empty.
pub fn select_result(events: &Vec<CursorEvent>) -> (r: Result<(String, String), CursorError>)
    ensures
        (exists|i: int| 0 <= i < events@.len() && is_error_event(#[trigger] events@[i])) <==> (
        r matches Err(CursorError::RunFailed)),
        (r matches Err(CursorError::NoResult)) <==> ((forall|i: int|
            0 <= i < events@.len() ==> !is_error_event(#[trigger] events@[i])) && last_result(
            events@,
            events@.len() as int,
        ) is None),
        r matches Ok(out) ==> {
            &&& last_result(events@, events@.len() as int) == Some(out.0@)
            &&& (last_session(events@, events@.len() as int) matches Some(s) ==> out.1@ == s)
            &&& (last_session(events@, events@.len() as int) is None ==> out.1@ == Seq::<
                char,
            >::empty())
        },
{
    proof {
        reveal_strlit("");
    }
    let mut final_result: Option<String> = None;
    let mut final_session: Option<String> = None;
    let mut i: usize = 0;
    while i < events.len()
        invariant
            i <= events@.len(),
            forall|t: int| 0 <= t < i ==> !is_error_event(#[trigger] events@[t]),
            match final_result {
                Some(s) => last_result(events@, i as int) == Some(s@),
                None => last_result(events@, i as int) is None,
            },
            match final_session {
                Some(s) => last_session(events@, i as int) == Some(s@),
                None => last_session(events@, i as int) is None,
            },
        decreases events@.len() - i,
    {
        let e = &events[i];
        if let Some(sid) = &e.session_id {
            final_session = Some(sid.clone());
        }
        if crate::text::str_eq(e.event_type.as_str(), "result") {
            if let Some(true) = e.is_error {
                return Err(CursorError::RunFailed);
            }
            if let Some(res) = &e.result {
                final_result = Some(res.clone());
            }
        }
        i = i + 1;
    }
    match final_result {
        Some(res) => {
            let session = match final_session {
                Some(s) => s,
                None => String::from_str(""),
            };
            Ok((res, session))
        },
        None => Err(CursorError::NoResult),
    }
}

} // verus!
