//! Agent sessions: the per-session state the agent transport keeps.
use std::sync::atomic::AtomicBool;
use std::sync::Arc;
use vstd::hash_map::StringHashMap;
use vstd::prelude::*;

verus! {

/// The agent transport.
pub struct WikiAgent;

/// One agent session.
pub struct AcpSession {
    /// Session id.
    pub id: String,
    /// Optional human-readable label.
    pub label: Option<String>,
    /// Wiki the session works on, if chosen.
    pub wiki: Option<String>,
    /// Creation time, seconds since the Unix epoch.
    pub created_at: u64,
    /// Id of the workflow running in the session, if any.
    pub active_run: Option<String>,
    /// Cancellation flag shared with the running workflow.
    pub cancelled: Arc<AtomicBool>,
}

/// Sessions by id.
pub type SessionMap = StringHashMap<AcpSession>;

/// Calls `Arc::clone`: the clone points at the same flag.
#[verifier::external_body]
fn share_flag(f: &Arc<AtomicBool>) -> (r: Arc<AtomicBool>)
    ensures
        r == *f,
{
    Arc::clone(f)
}

/// The cancellation flag of a session, shared with it; `None` for an unknown session.
pub fn get_cancelled(sessions: &SessionMap, session_id: &str) -> (r: Option<Arc<AtomicBool>>)
    ensures
        match sessions@.get(session_id@) {
            Some(s) => r == Some(s.cancelled),
            None => r is None,
        },
{
    match sessions.get(session_id) {
        Some(s) => Some(share_flag(&s.cancelled)),
        None => None,
    }
}

/// A session with no active run.
pub open spec fn without_run(s: AcpSession) -> AcpSession {
    AcpSession {
        id: s.id,
        label: s.label,
        wiki: s.wiki,
        created_at: s.created_at,
        active_run: None,
        cancelled: s.cancelled,
    }
}

/// Clear the active run of a session; an unknown session is left alone.
pub fn clear_active_run(sessions: &mut SessionMap, session_id: &str)
    ensures
        match old(sessions)@.get(session_id@) {
            Some(s) => final(sessions)@ == old(sessions)@.insert(session_id@, without_run(s)),
            None => final(sessions)@ == old(sessions)@,
        },
{
    let updated = match sessions.get(session_id) {
        Some(s) => Some(
            AcpSession {
                id: s.id.clone(),
                label: crate::config::clone_opt_string(&s.label),
                wiki: crate::config::clone_opt_string(&s.wiki),
                created_at: s.created_at,
                active_run: None,
                cancelled: share_flag(&s.cancelled),
            },
        ),
        None => None,
    };
    match updated {
        Some(u) => sessions.insert(session_id.to_owned(), u),
        None => {},
    }
}

} // verus!
