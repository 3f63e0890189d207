//! The state a callback server shares between its request handlers, and the
//! decision each handler makes on it.
use crate::coordinator::{CallbackResponse, RedirectCoordinator};
use crate::registry::{deliver_step, handed_step, Handoff};
use vstd::prelude::*;

verus! {

/// How long a flow waits for its redirect by default, in seconds.
pub const DEFAULT_FLOW_TIMEOUT_SECS: u64 = 600;

/// What the server's handlers share.
pub struct ServerState {
    pub oauth_handlers: RedirectCoordinator,
}

/// The state a freshly launched server starts with: no pending flow, and the
/// default timeout.
pub fn rocket() -> (r: ServerState)
    ensures
        r.oauth_handlers.wf(),
        r.oauth_handlers@ == Map::<Seq<char>, u64>::empty(),
        r.oauth_handlers.ids() == Map::<Seq<char>, nat>::empty(),
        r.oauth_handlers.next_id() == 0,
        r.oauth_handlers.handed() == Seq::<Handoff>::empty(),
        r.oauth_handlers.spec_timeout() == DEFAULT_FLOW_TIMEOUT_SECS,
{
    ServerState { oauth_handlers: RedirectCoordinator::new(DEFAULT_FLOW_TIMEOUT_SECS) }
}

/// Handles `GET /client_login?code=..&state=..`. A request without `code` or
/// without `state` is answered `BadRequest` and touches no flow; otherwise the
/// code is sent to the flow pending under `state`, if any, and to no other, and
/// the answer is `Accepted`.
pub fn client_login(server_state: &mut ServerState, code: Option<String>, state: Option<String>) -> (r:
    CallbackResponse)
    requires
        old(server_state).oauth_handlers.wf(),
    ensures
        final(server_state).oauth_handlers.wf(),
        final(server_state).oauth_handlers.spec_timeout() == old(
            server_state,
        ).oauth_handlers.spec_timeout(),
        final(server_state).oauth_handlers.next_id() == old(server_state).oauth_handlers.next_id(),
        match (code, state) {
            (Some(c), Some(s)) => {
                &&& r == CallbackResponse::Accepted
                &&& final(server_state).oauth_handlers@ == deliver_step(
                    old(server_state).oauth_handlers@,
                    s@,
                ).1
                &&& final(server_state).oauth_handlers.handed() == handed_step(
                    old(server_state).oauth_handlers.handed(),
                    old(server_state).oauth_handlers.ids(),
                    s@,
                    Ok(c@),
                )
                &&& final(server_state).oauth_handlers.ids() == old(
                    server_state,
                ).oauth_handlers.ids().remove(s@)
            },
            _ => {
                &&& r == CallbackResponse::BadRequest
                &&& final(server_state).oauth_handlers@ == old(server_state).oauth_handlers@
                &&& final(server_state).oauth_handlers.handed() == old(
                    server_state,
                ).oauth_handlers.handed()
                &&& final(server_state).oauth_handlers.ids() == old(
                    server_state,
                ).oauth_handlers.ids()
            },
        },
{
    match (code, state) {
        (Some(code), Some(state_id)) => server_state.oauth_handlers.handle_callback(&state_id, code),
        _ => CallbackResponse::BadRequest,
    }
}

} // verus!
