//! The redirect coordinator: starts flows under fresh tokens, builds the
//! authorization URL that carries the token, and routes inbound redirects.
use crate::registry::{
    deliver_step, expire_step, expired_tokens, handed_step, register_step, resolves_each,
    FlowError, Handoff, PendingFlowRegistry, RegisterError, Waiter,
};
use crate::token::{is_token, new_token};
use vstd::prelude::*;

verus! {

/// Where the authorization server sends the browser back to.
pub const REDIRECT_URI: &'static str = "http://localhost:8000/oauth2/client_login";

/// A flow that has just started: its token and the waiter on which its outcome
/// will arrive.
pub struct FlowStart {
    pub token: String,
    pub waiter: Waiter,
}

/// Failure to start a flow.
#[derive(Debug, Clone, Copy, PartialEq, Eq, Structural)]
pub enum StartError {
    /// The operating system's random source failed.
    EntropyUnavailable,
    /// The drawn token is already pending.
    DuplicateToken,
}

/// What the callback endpoint answers the browser.
#[derive(Debug, Clone, Copy, PartialEq, Eq, Structural)]
pub enum CallbackResponse {
    /// The redirect was taken, whether or not it matched a pending flow.
    Accepted,
    /// The request lacked its `code` or `state`.
    BadRequest,
}

impl CallbackResponse {
    /// The HTTP status of the answer.
    pub fn status_code(&self) -> (r: u16)
        ensures
            r == (if *self == CallbackResponse::Accepted { 200u16 } else { 400u16 }),
    {
        match self {
            CallbackResponse::Accepted => 200,
            CallbackResponse::BadRequest => 400,
        }
    }
}

/// The authorization URL with the token attached as its `state` parameter.
pub open spec fn authorization_url_of(url: Seq<char>, token: Seq<char>) -> Seq<char> {
    url + "?state="@ + token
}

/// Attaches `state_id` to the authorization server's `url` as its `state`
/// parameter.
pub fn authorization_url(url: &str, state_id: &str) -> (r: String)
    ensures
        r@ == authorization_url_of(url@, state_id@),
{
    let mut s = String::from_str(url);
    s.append("?state=");
    s.append(state_id);
    s
}

/// Owns the registry of pending flows and the time a flow may wait.
pub struct RedirectCoordinator {
    registry: PendingFlowRegistry,
    timeout: u64,
}

impl View for RedirectCoordinator {
    type V = Map<Seq<char>, u64>;

    /// The pending flows: each token with the time its flow started.
    closed spec fn view(&self) -> Map<Seq<char>, u64> {
        self.registry@
    }
}

impl RedirectCoordinator {
    pub closed spec fn wf(&self) -> bool {
        self.registry.wf()
    }

    /// The id of the flow pending under each token.
    pub closed spec fn ids(&self) -> Map<Seq<char>, nat> {
        self.registry.ids()
    }

    /// The id the next started flow gets.
    pub closed spec fn next_id(&self) -> nat {
        self.registry.next_id()
    }

    /// Every outcome sent to a waiter so far, in order.
    pub closed spec fn handed(&self) -> Seq<Handoff> {
        self.registry.handed()
    }

    /// Pending flows have distinct ids older than the next one, no pending
    /// flow has been sent anything, and no flow is sent two outcomes.
    pub proof fn lemma_each_waiter_resolved_at_most_once(&self)
        requires
            self.wf(),
        ensures
            forall|k: Seq<char>| #[trigger] self.ids().contains_key(k) == self@.contains_key(k),
            forall|k: Seq<char>| #[trigger]
                self.ids().contains_key(k) ==> self.ids()[k] < self.next_id(),
            forall|k1: Seq<char>, k2: Seq<char>|
                #[trigger] self.ids().contains_key(k1) && #[trigger] self.ids().contains_key(k2) && k1
                    != k2 ==> self.ids()[k1] != self.ids()[k2],
            forall|k: Seq<char>, j: int|
                #[trigger] self.ids().contains_key(k) && 0 <= j < self.handed().len()
                    ==> self.ids()[k] != #[trigger] self.handed()[j].0,
            forall|a: int, b: int|
                0 <= a < b < self.handed().len() ==> #[trigger] self.handed()[a].0
                    != #[trigger] self.handed()[b].0,
    {
        self.registry.lemma_each_waiter_resolved_at_most_once();
    }

    /// How long a flow may wait for its redirect.
    pub closed spec fn spec_timeout(&self) -> u64 {
        self.timeout
    }

    /// A coordinator with no pending flow, whose flows wait at most `timeout`.
    pub fn new(timeout: u64) -> (r: Self)
        ensures
            r.wf(),
            r@ == Map::<Seq<char>, u64>::empty(),
            r.ids() == Map::<Seq<char>, nat>::empty(),
            r.next_id() == 0,
            r.handed() == Seq::<Handoff>::empty(),
            r.spec_timeout() == timeout,
    {
        RedirectCoordinator { registry: PendingFlowRegistry::new(), timeout }
    }

    pub fn timeout(&self) -> (r: u64)
        ensures
            r == self.spec_timeout(),
    {
        self.timeout
    }

    /// How many flows are pending.
    pub fn pending_count(&self) -> (r: usize)
        requires
            self.wf(),
        ensures
            r == self@.len(),
    {
        self.registry.len()
    }

    /// Whether a flow is pending under `token`.
    pub fn is_pending(&self, token: &String) -> (r: bool)
        requires
            self.wf(),
        ensures
            r == self@.contains_key(token@),
    {
        self.registry.contains(token)
    }

    /// Starts a flow under `token` at time `now`. Refused, with nothing changed,
    /// when a flow is already pending under that token.
    pub fn begin_flow_with(&mut self, token: String, now: u64) -> (r: Result<FlowStart, StartError>)
        requires
            old(self).wf(),
        ensures
            final(self).wf(),
            final(self).spec_timeout() == old(self).spec_timeout(),
            (r is Ok, final(self)@) == register_step(old(self)@, token@, now),
            final(self).handed() == old(self).handed(),
            match r {
                Ok(s) => {
                    &&& s.token@ == token@
                    &&& s.waiter.id() == old(self).next_id()
                    &&& final(self).ids() == old(self).ids().insert(token@, s.waiter.id())
                    &&& final(self).next_id() == old(self).next_id() + 1
                },
                Err(e) => {
                    &&& e == StartError::DuplicateToken
                    &&& final(self).ids() == old(self).ids()
                    &&& final(self).next_id() == old(self).next_id()
                },
            },
    {
        let key = token.clone();
        match self.registry.register(key, now) {
            Ok(waiter) => Ok(FlowStart { token, waiter }),
            Err(_) => Err(StartError::DuplicateToken),
        }
    }

    /// Starts a flow at time `now` under a freshly drawn token. On success the
    /// token has the shape of a correlation token, was not pending before and
    /// is now; on failure nothing changes.
    pub fn begin_flow(&mut self, now: u64) -> (r: Result<FlowStart, StartError>)
        requires
            old(self).wf(),
        ensures
            final(self).wf(),
            final(self).spec_timeout() == old(self).spec_timeout(),
            final(self).handed() == old(self).handed(),
            match r {
                Ok(s) => {
                    &&& is_token(s.token@)
                    &&& !old(self)@.contains_key(s.token@)
                    &&& final(self)@ == old(self)@.insert(s.token@, now)
                    &&& s.waiter.id() == old(self).next_id()
                    &&& final(self).ids() == old(self).ids().insert(s.token@, s.waiter.id())
                    &&& final(self).next_id() == old(self).next_id() + 1
                },
                Err(_) => {
                    &&& final(self)@ == old(self)@
                    &&& final(self).ids() == old(self).ids()
                    &&& final(self).next_id() == old(self).next_id()
                },
            },
    {
        match new_token() {
            Ok(token) => self.begin_flow_with(token, now),
            Err(_) => Err(StartError::EntropyUnavailable),
        }
    }

    /// Routes an inbound redirect: the flow pending under `token`, if any,
    /// is sent `code` and leaves the registry; no other flow is sent anything. The answer is `Accepted` either
    /// way, so that it tells nobody which tokens are valid.
    pub fn handle_callback(&mut self, token: &String, code: String) -> (r: CallbackResponse)
        requires
            old(self).wf(),
        ensures
            final(self).wf(),
            final(self).spec_timeout() == old(self).spec_timeout(),
            final(self)@ == deliver_step(old(self)@, token@).1,
            final(self).handed() == handed_step(old(self).handed(), old(self).ids(), token@, Ok(code@)),
            final(self).ids() == old(self).ids().remove(token@),
            final(self).next_id() == old(self).next_id(),
            r == CallbackResponse::Accepted,
    {
        let _ = self.registry.deliver(token, code);
        CallbackResponse::Accepted
    }

    /// Abandons the flow pending under `token`; its waiter receives `Cancelled`.
    /// Returns whether one was pending.
    pub fn cancel_flow(&mut self, token: &String) -> (r: bool)
        requires
            old(self).wf(),
        ensures
            final(self).wf(),
            final(self).spec_timeout() == old(self).spec_timeout(),
            (r, final(self)@) == deliver_step(old(self)@, token@),
            final(self).handed() == handed_step(
                old(self).handed(),
                old(self).ids(),
                token@,
                Err(FlowError::Cancelled),
            ),
            final(self).ids() == old(self).ids().remove(token@),
            final(self).next_id() == old(self).next_id(),
    {
        self.registry.cancel(token, FlowError::Cancelled)
    }

    /// Removes every flow that has waited its timeout at time `now`; each
    /// waiter receives `TimedOut`. Returns how many were removed.
    pub fn expire_flows(&mut self, now: u64) -> (r: usize)
        requires
            old(self).wf(),
        ensures
            final(self).wf(),
            final(self).spec_timeout() == old(self).spec_timeout(),
            final(self)@ == expire_step(old(self)@, now, old(self).spec_timeout()),
            r == old(self)@.len() - final(self)@.len(),
            resolves_each(
                old(self).handed(),
                final(self).handed(),
                old(self).ids(),
                expired_tokens(old(self)@, now, old(self).spec_timeout()),
                Err(FlowError::TimedOut),
            ),
            final(self).ids() == old(self).ids().restrict(final(self)@.dom()),
            final(self).next_id() == old(self).next_id(),
    {
        self.registry.expire(now, self.timeout)
    }

    /// Ends every pending flow; each waiter receives `ShuttingDown`.
    pub fn shutdown(&mut self)
        requires
            old(self).wf(),
        ensures
            final(self).wf(),
            final(self).spec_timeout() == old(self).spec_timeout(),
            final(self)@ == Map::<Seq<char>, u64>::empty(),
            resolves_each(
                old(self).handed(),
                final(self).handed(),
                old(self).ids(),
                old(self)@.dom(),
                Err(FlowError::ShuttingDown),
            ),
            final(self).ids() == Map::<Seq<char>, nat>::empty(),
            final(self).next_id() == old(self).next_id(),
    {
        self.registry.drain(FlowError::ShuttingDown)
    }
}

} // verus!
