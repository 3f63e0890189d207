//! The pending-flow registry: correlation token -> one-shot completion handle.
//!
//! Every operation takes `&mut self`, so lookup and removal happen in one step:
//! whoever holds the registry (behind a lock, where it is shared) performs each
//! register, deliver or cancel atomically with respect to the others.
use tokio::sync::oneshot::{Receiver, Sender};
use vstd::prelude::*;

verus! {

/// Why a flow ended without a code.
#[derive(Debug, Clone, Copy, PartialEq, Eq, Structural)]
pub enum FlowError {
    Cancelled,
    TimedOut,
    ShuttingDown,
}

/// What a flow's waiter finally receives: the authorization code, or why none came.
pub type FlowOutcome = Result<String, FlowError>;

/// Failure to register a token.
#[derive(Debug, Clone, Copy, PartialEq, Eq, Structural)]
pub enum RegisterError {
    /// The token is already pending: it must never be overwritten.
    DuplicateToken,
}

/// Failure to hand a code over.
#[derive(Debug, Clone, Copy, PartialEq, Eq, Structural)]
pub enum DeliveryError {
    /// No flow is pending under the token (never registered, already delivered,
    /// cancelled or expired).
    UnknownToken,
    /// The flow was pending and is now removed, but its waiter had gone away.
    ReceiverGone,
}

/// One in-flight authorization attempt. `id` names the flow: its waiter
/// carries the same id.
pub struct PendingFlow {
    token: String,
    created_at: u64,
    handle: Sender<FlowOutcome>,
    id: Ghost<nat>,
}

/// The receiving end of one flow: it yields that flow's outcome, once.
pub struct Waiter {
    pub receiver: Receiver<FlowOutcome>,
    id: Ghost<nat>,
}

impl Waiter {
    /// The flow whose outcome this waiter receives.
    pub closed spec fn id(&self) -> nat {
        self.id@
    }
}

/// A record of one handoff: the flow's id, its token, and what was sent to its
/// waiter (the code, or why there is none).
pub type Handoff = (nat, Seq<char>, Result<Seq<char>, FlowError>);

/// Pending flows, at most one per token, with a record of every outcome that
/// was sent to a waiter.
pub struct PendingFlowRegistry {
    flows: Vec<PendingFlow>,
    entries: Ghost<Map<Seq<char>, u64>>,
    ids: Ghost<Map<Seq<char>, nat>>,
    next_id: Ghost<nat>,
    handed: Ghost<Seq<Handoff>>,
}

/// Whether a flow created at `created_at` has outlived `timeout` at time `now`.
pub open spec fn timed_out(created_at: u64, now: u64, timeout: u64) -> bool {
    now >= created_at + timeout
}

/// Registering `token` at `now`: accepted exactly when the token is not pending.
pub open spec fn register_step(m: Map<Seq<char>, u64>, token: Seq<char>, now: u64) -> (bool, Map<
    Seq<char>,
    u64,
>) {
    if m.contains_key(token) {
        (false, m)
    } else {
        (true, m.insert(token, now))
    }
}

/// Delivering to `token`: it matches a flow exactly when the token is pending,
/// and the flow then leaves the registry.
pub open spec fn deliver_step(m: Map<Seq<char>, u64>, token: Seq<char>) -> (bool, Map<
    Seq<char>,
    u64,
>) {
    if m.contains_key(token) {
        (true, m.remove(token))
    } else {
        (false, m)
    }
}

/// The pending flows that survive an expiry sweep at `now`.
pub open spec fn expire_step(m: Map<Seq<char>, u64>, now: u64, timeout: u64) -> Map<
    Seq<char>,
    u64,
> {
    Map::new(|k: Seq<char>| m.contains_key(k) && !timed_out(m[k], now, timeout), |k: Seq<char>| m[k])
}

/// The tokens whose flows an expiry sweep at `now` ends.
pub open spec fn expired_tokens(m: Map<Seq<char>, u64>, now: u64, timeout: u64) -> Set<Seq<char>> {
    Set::new(|k: Seq<char>| m.contains_key(k) && timed_out(m[k], now, timeout))
}

/// The record after a handoff to the flow under `token`, if one is pending;
/// otherwise the record unchanged.
pub open spec fn handed_step(
    handed: Seq<Handoff>,
    ids: Map<Seq<char>, nat>,
    token: Seq<char>,
    outcome: Result<Seq<char>, FlowError>,
) -> Seq<Handoff> {
    if ids.contains_key(token) {
        handed.push((ids[token], token, outcome))
    } else {
        handed
    }
}

/// `after` extends `before`, and what it adds is one handoff of `outcome` to
/// each flow of `tokens` (named by `ids`), and nothing else.
pub open spec fn resolves_each(
    before: Seq<Handoff>,
    after: Seq<Handoff>,
    ids: Map<Seq<char>, nat>,
    tokens: Set<Seq<char>>,
    outcome: Result<Seq<char>, FlowError>,
) -> bool {
    &&& before.len() <= after.len()
    &&& after.subrange(0, before.len() as int) == before
    &&& forall|j: int|
        before.len() <= j < after.len() ==> {
            &&& tokens.contains(#[trigger] after[j].1)
            &&& ids.contains_key(after[j].1)
            &&& after[j].0 == ids[after[j].1]
            &&& after[j].2 == outcome
        }
    &&& forall|a: int, b: int|
        before.len() <= a < b < after.len() ==> #[trigger] after[a].1 != #[trigger] after[b].1
    &&& forall|k: Seq<char>|
        #[trigger] tokens.contains(k) ==> exists|j: int|
            before.len() <= j < after.len() && #[trigger] after[j].1 == k
}

impl View for PendingFlowRegistry {
    type V = Map<Seq<char>, u64>;

    /// Each pending token with the time its flow was created.
    closed spec fn view(&self) -> Map<Seq<char>, u64> {
        self.entries@
    }
}

impl PendingFlowRegistry {
    /// The vector holds exactly the entries of the maps, one flow per token;
    /// flow ids are never reused, and no flow is sent two outcomes.
    pub closed spec fn wf(&self) -> bool {
        &&& self.entries@.dom().finite()
        &&& self.entries@.dom().len() == self.flows@.len()
        &&& forall|k: Seq<char>| #[trigger]
            self.ids@.contains_key(k) == self.entries@.contains_key(k)
        &&& forall|i: int|
            0 <= i < self.flows@.len() ==> {
                &&& #[trigger] self.entries@.contains_key(self.flows@[i].token@)
                &&& self.entries@[self.flows@[i].token@] == self.flows@[i].created_at
                &&& self.ids@[self.flows@[i].token@] == self.flows@[i].id@
                &&& self.flows@[i].id@ < self.next_id@
            }
        &&& forall|i: int, j: int|
            0 <= i < j < self.flows@.len() ==> #[trigger] self.flows@[i].token@
                != #[trigger] self.flows@[j].token@
        &&& forall|i: int, j: int|
            0 <= i < j < self.flows@.len() ==> #[trigger] self.flows@[i].id@
                != #[trigger] self.flows@[j].id@
        &&& forall|k: Seq<char>|
            #[trigger] self.entries@.contains_key(k) ==> exists|i: int|
                0 <= i < self.flows@.len() && #[trigger] self.flows@[i].token@ == k
        &&& forall|j: int| 0 <= j < self.handed@.len() ==> #[trigger] self.handed@[j].0 < self.next_id@
        &&& forall|a: int, b: int|
            0 <= a < b < self.handed@.len() ==> #[trigger] self.handed@[a].0
                != #[trigger] self.handed@[b].0
        &&& forall|i: int, j: int|
            0 <= i < self.flows@.len() && 0 <= j < self.handed@.len() ==> #[trigger] self.flows@[i].id@
                != #[trigger] self.handed@[j].0
    }

    /// The id of the flow pending under each token.
    pub closed spec fn ids(&self) -> Map<Seq<char>, nat> {
        self.ids@
    }

    /// The id the next registered flow gets.
    pub closed spec fn next_id(&self) -> nat {
        self.next_id@
    }

    /// Every outcome sent to a waiter so far, in order.
    pub closed spec fn handed(&self) -> Seq<Handoff> {
        self.handed@
    }

    /// Pending flows have older ids than the next one and distinct ids, no
    /// pending flow has been sent anything, and no flow is sent two outcomes.
    pub proof fn lemma_each_waiter_resolved_at_most_once(&self)
        requires
            self.wf(),
        ensures
            forall|k: Seq<char>| #[trigger] self.ids().contains_key(k) == self@.contains_key(k),
            forall|k: Seq<char>| #[trigger]
                self.ids().contains_key(k) ==> self.ids()[k] < self.next_id(),
            forall|k1: Seq<char>, k2: Seq<char>|
                #[trigger] self.ids().contains_key(k1) && #[trigger] self.ids().contains_key(k2) && k1
                    != k2 ==> self.ids()[k1] != self.ids()[k2],
            forall|k: Seq<char>, j: int|
                #[trigger] self.ids().contains_key(k) && 0 <= j < self.handed().len()
                    ==> self.ids()[k] != #[trigger] self.handed()[j].0,
            forall|a: int, b: int|
                0 <= a < b < self.handed().len() ==> #[trigger] self.handed()[a].0
                    != #[trigger] self.handed()[b].0,
    {
        assert forall|k: Seq<char>| #[trigger]
            self.ids().contains_key(k) implies self.ids()[k] < self.next_id() by {
            let i = choose|i: int| 0 <= i < self.flows@.len() && #[trigger] self.flows@[i].token@ == k;
        }
        assert forall|k1: Seq<char>, k2: Seq<char>|
            #[trigger] self.ids().contains_key(k1) && #[trigger] self.ids().contains_key(k2) && k1
                != k2 implies self.ids()[k1] != self.ids()[k2] by {
            let i1 = choose|i: int| 0 <= i < self.flows@.len() && #[trigger] self.flows@[i].token@ == k1;
            let i2 = choose|i: int| 0 <= i < self.flows@.len() && #[trigger] self.flows@[i].token@ == k2;
            if i1 < i2 {
                assert(self.flows@[i1].id@ != self.flows@[i2].id@);
            } else {
                assert(self.flows@[i2].id@ != self.flows@[i1].id@);
            }
        }
        assert forall|k: Seq<char>, j: int|
            #[trigger] self.ids().contains_key(k) && 0 <= j < self.handed().len()
                implies self.ids()[k] != #[trigger] self.handed()[j].0 by {
            let i = choose|i: int| 0 <= i < self.flows@.len() && #[trigger] self.flows@[i].token@ == k;
            assert(self.flows@[i].id@ != self.handed@[j].0);
        }
    }

    pub fn new() -> (r: Self)
        ensures
            r.wf(),
            r@ == Map::<Seq<char>, u64>::empty(),
            r.ids() == Map::<Seq<char>, nat>::empty(),
            r.next_id() == 0,
            r.handed() == Seq::<Handoff>::empty(),
    {
        PendingFlowRegistry {
            flows: Vec::new(),
            entries: Ghost(Map::empty()),
            ids: Ghost(Map::empty()),
            next_id: Ghost(0),
            handed: Ghost(Seq::empty()),
        }
    }

    /// The number of pending flows.
    pub fn len(&self) -> (r: usize)
        requires
            self.wf(),
        ensures
            r == self@.len(),
    {
        self.flows.len()
    }

    /// Whether a flow is pending under `token`.
    pub fn contains(&self, token: &String) -> (r: bool)
        requires
            self.wf(),
        ensures
            r == self@.contains_key(token@),
    {
        self.find(token).is_some()
    }

    /// The position of the flow registered under `token`, if any.
    fn find(&self, token: &String) -> (r: Option<usize>)
        requires
            self.wf(),
        ensures
            match r {
                Some(i) => i < self.flows@.len() && self.flows@[i as int].token@ == token@
                    && self@.contains_key(token@),
                None => !self@.contains_key(token@),
            },
    {
        let mut i: usize = 0;
        while i < self.flows.len()
            invariant
                self.wf(),
                i <= self.flows@.len(),
                forall|j: int| 0 <= j < i ==> self.flows@[j].token@ != token@,
            decreases self.flows@.len() - i,
        {
            if self.flows[i].token == *token {
                return Some(i);
            }
            i = i + 1;
        }
        proof {
            if self@.contains_key(token@) {
                let j = choose|j: int| 0 <= j < self.flows@.len() && #[trigger] self.flows@[j].token@ == token@;
                assert(self.flows@[j].token@ == token@);
            }
        }
        None
    }

    /// Takes the flow at `i` out of the registry, recording that `outcome` is
    /// handed to its waiter; the caller sends it at once.
    fn take_resolving(&mut self, i: usize, outcome: Ghost<Result<Seq<char>, FlowError>>) -> (r:
        PendingFlow)
        requires
            old(self).wf(),
            i < old(self).flows@.len(),
        ensures
            final(self).wf(),
            r.token@ == old(self).flows@[i as int].token@,
            final(self).flows@ == old(self).flows@.remove(i as int),
            old(self)@.contains_key(r.token@),
            final(self)@ == old(self)@.remove(r.token@),
            final(self).ids() == old(self).ids().remove(r.token@),
            final(self).next_id() == old(self).next_id(),
            final(self).handed() == old(self).handed().push(
                (old(self).ids()[r.token@], r.token@, outcome@),
            ),
    {
        let ghost pre = self.flows@;
        let ghost m = self.entries@;
        let ghost ids = self.ids@;
        let ghost h = self.handed@;
        let flow = self.flows.remove(i);
        let ghost t = flow.token@;
        assert(m.contains_key(pre[i as int].token@));
        self.entries = Ghost(m.remove(t));
        self.ids = Ghost(ids.remove(t));
        self.handed = Ghost(h.push((flow.id@, t, outcome@)));
        proof {
            let post = self.flows@;
            assert forall|j: int| 0 <= j < post.len() implies {
                &&& #[trigger] self.entries@.contains_key(post[j].token@)
                &&& self.entries@[post[j].token@] == post[j].created_at
                &&& self.ids@[post[j].token@] == post[j].id@
                &&& post[j].id@ < self.next_id@
            } by {
                if j < i {
                    assert(post[j] == pre[j]);
                    assert(pre[j].token@ != pre[i as int].token@);
                } else {
                    assert(post[j] == pre[j + 1]);
                    assert(pre[i as int].token@ != pre[j + 1].token@);
                }
            }
            assert forall|a: int, b: int| 0 <= a < b < post.len() implies #[trigger] post[a].token@
                != #[trigger] post[b].token@ && post[a].id@ != post[b].id@ by {
                let a0 = if a < i { a } else { a + 1 };
                let b0 = if b < i { b } else { b + 1 };
                assert(post[a] == pre[a0]);
                assert(post[b] == pre[b0]);
            }
            assert forall|a: int, b: int| 0 <= a < b < post.len() implies #[trigger] post[a].id@
                != #[trigger] post[b].id@ by {
                let a0 = if a < i { a } else { a + 1 };
                let b0 = if b < i { b } else { b + 1 };
                assert(post[a] == pre[a0]);
                assert(post[b] == pre[b0]);
            }
            assert forall|k: Seq<char>| #[trigger] self.entries@.contains_key(k) implies exists|j: int|
                0 <= j < post.len() && #[trigger] post[j].token@ == k by {
                let j0 = choose|j0: int| 0 <= j0 < pre.len() && #[trigger] pre[j0].token@ == k;
                assert(j0 != i);
                if j0 < i {
                    assert(post[j0] == pre[j0]);
                } else {
                    assert(post[j0 - 1] == pre[j0]);
                }
            }
            let hn = self.handed@;
            assert forall|j: int| 0 <= j < hn.len() implies #[trigger] hn[j].0 < self.next_id@ by {
                if j < h.len() {
                    assert(hn[j] == h[j]);
                }
            }
            assert forall|a: int, b: int| 0 <= a < b < hn.len() implies #[trigger] hn[a].0
                != #[trigger] hn[b].0 by {
                assert(hn[a] == h[a]);
                if b < h.len() {
                    assert(hn[b] == h[b]);
                } else {
                    assert(pre[i as int].id@ != h[a].0);
                }
            }
            assert forall|a: int, j: int| 0 <= a < post.len() && 0 <= j < hn.len() implies #[trigger] post[a].id@
                != #[trigger] hn[j].0 by {
                let a0 = if a < i { a } else { a + 1 };
                assert(post[a] == pre[a0]);
                if j < h.len() {
                    assert(hn[j] == h[j]);
                } else {
                    if a0 < i {
                        assert(pre[a0].id@ != pre[i as int].id@);
                    } else {
                        assert(pre[i as int].id@ != pre[a0].id@);
                    }
                }
            }
            assert(self.ids@ == ids.remove(t));
        }
        flow
    }

    /// Registers a flow under `token`, created at `now`, and returns its
    /// waiter, which carries the new flow's id. A token that is already pending
    /// is refused and left as it was.
    pub fn register(&mut self, token: String, now: u64) -> (r: Result<Waiter, RegisterError>)
        requires
            old(self).wf(),
        ensures
            final(self).wf(),
            (r is Ok, final(self)@) == register_step(old(self)@, token@, now),
            final(self).handed() == old(self).handed(),
            match r {
                Ok(w) => {
                    &&& w.id() == old(self).next_id()
                    &&& final(self).ids() == old(self).ids().insert(token@, w.id())
                    &&& final(self).next_id() == old(self).next_id() + 1
                },
                Err(e) => {
                    &&& e == RegisterError::DuplicateToken
                    &&& final(self).ids() == old(self).ids()
                    &&& final(self).next_id() == old(self).next_id()
                },
            },
    {
        if self.find(&token).is_some() {
            return Err(RegisterError::DuplicateToken);
        }
        let (tx, rx) = tokio::sync::oneshot::channel::<FlowOutcome>();
        let ghost pre = self.flows@;
        let ghost m = self.entries@;
        let ghost ids = self.ids@;
        let ghost t = token@;
        let ghost id = self.next_id@;
        proof {
            assert forall|j: int| 0 <= j < pre.len() implies pre[j].token@ != t by {
                assert(m.contains_key(pre[j].token@));
            }
        }
        self.flows.push(PendingFlow { token, created_at: now, handle: tx, id: Ghost(id) });
        self.entries = Ghost(m.insert(t, now));
        self.ids = Ghost(ids.insert(t, id));
        self.next_id = Ghost(id + 1);
        proof {
            let post = self.flows@;
            let h = self.handed@;
            assert(post[pre.len() as int].token@ == t);
            assert(post[pre.len() as int].id@ == id);
            assert forall|j: int| 0 <= j < post.len() implies {
                &&& #[trigger] self.entries@.contains_key(post[j].token@)
                &&& self.entries@[post[j].token@] == post[j].created_at
                &&& self.ids@[post[j].token@] == post[j].id@
                &&& post[j].id@ < self.next_id@
            } by {
                if j < pre.len() {
                    assert(post[j] == pre[j]);
                }
            }
            assert forall|a: int, b: int| 0 <= a < b < post.len() implies #[trigger] post[a].token@
                != #[trigger] post[b].token@ by {
                assert(post[a] == pre[a]);
                if b < pre.len() {
                    assert(post[b] == pre[b]);
                }
            }
            assert forall|a: int, b: int| 0 <= a < b < post.len() implies #[trigger] post[a].id@
                != #[trigger] post[b].id@ by {
                assert(post[a] == pre[a]);
                assert(m.contains_key(pre[a].token@));
                if b < pre.len() {
                    assert(post[b] == pre[b]);
                }
            }
            assert forall|k: Seq<char>| #[trigger] self.entries@.contains_key(k) implies exists|j: int|
                0 <= j < post.len() && #[trigger] post[j].token@ == k by {
                if k == t {
                    assert(post[pre.len() as int].token@ == k);
                } else {
                    let j0 = choose|j0: int| 0 <= j0 < pre.len() && #[trigger] pre[j0].token@ == k;
                    assert(post[j0] == pre[j0]);
                }
            }
            assert forall|a: int, j: int| 0 <= a < post.len() && 0 <= j < h.len() implies #[trigger] post[a].id@
                != #[trigger] h[j].0 by {
                if a < pre.len() {
                    assert(post[a] == pre[a]);
                }
            }
        }
        Ok(Waiter { receiver: rx, id: Ghost(id) })
    }

    /// Hands `code` to the flow pending under `token`, removing it. Fails with
    /// `UnknownToken`, touching nothing and handing nothing, when no flow is
    /// pending there; with `ReceiverGone` when the flow was removed and its
    /// code sent, but nobody awaited it any more.
    pub fn deliver(&mut self, token: &String, code: String) -> (r: Result<(), DeliveryError>)
        requires
            old(self).wf(),
        ensures
            final(self).wf(),
            (r != Err::<(), DeliveryError>(DeliveryError::UnknownToken), final(self)@)
                == deliver_step(old(self)@, token@),
            final(self).handed() == handed_step(old(self).handed(), old(self).ids(), token@, Ok(code@)),
            final(self).ids() == old(self).ids().remove(token@),
            final(self).next_id() == old(self).next_id(),
    {
        match self.find(token) {
            None => {
                assert(self.ids@ =~= self.ids@.remove(token@));
                Err(DeliveryError::UnknownToken)
            },
            Some(i) => {
                let flow = self.take_resolving(i, Ghost(Ok(code@)));
                match flow.handle.send(Ok(code)) {
                    Ok(()) => Ok(()),
                    Err(_) => Err(DeliveryError::ReceiverGone),
                }
            },
        }
    }

    /// Removes the flow pending under `token` without a code; its waiter receives
    /// `reason`. Returns whether a flow was pending there.
    pub fn cancel(&mut self, token: &String, reason: FlowError) -> (r: bool)
        requires
            old(self).wf(),
        ensures
            final(self).wf(),
            (r, final(self)@) == deliver_step(old(self)@, token@),
            final(self).handed() == handed_step(old(self).handed(), old(self).ids(), token@, Err(reason)),
            final(self).ids() == old(self).ids().remove(token@),
            final(self).next_id() == old(self).next_id(),
    {
        match self.find(token) {
            None => {
                assert(self.ids@ =~= self.ids@.remove(token@));
                false
            },
            Some(i) => {
                let flow = self.take_resolving(i, Ghost(Err(reason)));
                let _ = flow.handle.send(Err(reason));
                true
            },
        }
    }

    /// Removes every flow that has timed out at `now`; each of their waiters,
    /// and no other, receives `TimedOut`. Returns how many were removed.
    pub fn expire(&mut self, now: u64, timeout: u64) -> (r: usize)
        requires
            old(self).wf(),
        ensures
            final(self).wf(),
            final(self)@ == expire_step(old(self)@, now, timeout),
            r == old(self)@.len() - final(self)@.len(),
            resolves_each(
                old(self).handed(),
                final(self).handed(),
                old(self).ids(),
                expired_tokens(old(self)@, now, timeout),
                Err(FlowError::TimedOut),
            ),
            final(self).ids() == old(self).ids().restrict(final(self)@.dom()),
            final(self).next_id() == old(self).next_id(),
    {
        let ghost m0 = self@;
        let ghost ids0 = self.ids@;
        let ghost h0 = self.handed@;
        let ghost keys = expired_tokens(m0, now, timeout);
        let total: usize = self.flows.len();
        let mut i: usize = 0;
        let mut removed: usize = 0;
        while i < self.flows.len()
            invariant
                self.wf(),
                i <= self.flows@.len(),
                m0.dom().finite(),
                removed + self@.len() == m0.len(),
                m0.len() == total,
                keys == expired_tokens(m0, now, timeout),
                self.next_id@ == old(self).next_id@,
                forall|k: Seq<char>| #[trigger] ids0.contains_key(k) == m0.contains_key(k),
                forall|j: int|
                    0 <= j < i ==> !timed_out(#[trigger] self.flows@[j].created_at, now, timeout),
                forall|k: Seq<char>| #[trigger]
                    self@.contains_key(k) ==> m0.contains_key(k) && self@[k] == m0[k]
                        && self.ids@[k] == ids0[k],
                forall|k: Seq<char>|
                    #[trigger] m0.contains_key(k) && !timed_out(m0[k], now, timeout)
                        ==> self@.contains_key(k),
                h0.len() <= self.handed@.len(),
                forall|j: int| 0 <= j < h0.len() ==> #[trigger] self.handed@[j] == h0[j],
                forall|j: int|
                    h0.len() <= j < self.handed@.len() ==> {
                        &&& keys.contains(#[trigger] self.handed@[j].1)
                        &&& !self@.contains_key(self.handed@[j].1)
                        &&& ids0.contains_key(self.handed@[j].1)
                        &&& self.handed@[j].0 == ids0[self.handed@[j].1]
                        &&& self.handed@[j].2 == Err::<Seq<char>, FlowError>(FlowError::TimedOut)
                    },
                forall|a: int, b: int|
                    h0.len() <= a < b < self.handed@.len() ==> #[trigger] self.handed@[a].1
                        != #[trigger] self.handed@[b].1,
                forall|k: Seq<char>|
                    #[trigger] keys.contains(k) ==> self@.contains_key(k) || exists|j: int|
                        h0.len() <= j < self.handed@.len() && #[trigger] self.handed@[j].1 == k,
            decreases self.flows@.len() - i,
        {
            let created_at = self.flows[i].created_at;
            if now >= created_at && now - created_at >= timeout {
                let ghost hb = self.handed@;
                let ghost tk = self.flows@[i as int].token@;
                assert(self@.contains_key(tk));
                assert(self@[tk] == created_at);
                assert(m0.contains_key(tk) && m0[tk] == created_at);
                assert(timed_out(m0[tk], now, timeout));
                assert(keys.contains(tk));
                let flow = self.take_resolving(i, Ghost(Err(FlowError::TimedOut)));
                let _ = flow.handle.send(Err(FlowError::TimedOut));
                removed = removed + 1;
                proof {
                    let hn = self.handed@;
                    assert(hn[hb.len() as int].1 == tk);
                    assert forall|j: int| 0 <= j < h0.len() implies #[trigger] hn[j] == h0[j] by {
                        assert(hn[j] == hb[j]);
                    }
                    assert forall|a: int, b: int|
                        h0.len() <= a < b < hn.len() implies #[trigger] hn[a].1 != #[trigger] hn[b].1 by {
                        assert(hn[a] == hb[a]);
                        if b < hb.len() {
                            assert(hn[b] == hb[b]);
                        }
                    }
                    assert forall|k: Seq<char>| #[trigger] keys.contains(k) implies self@.contains_key(k)
                        || exists|j: int| h0.len() <= j < hn.len() && #[trigger] hn[j].1 == k by {
                        if k == tk {
                            assert(hn[hb.len() as int].1 == k);
                        } else if !self@.contains_key(k) {
                            let j = choose|j: int| h0.len() <= j < hb.len() && #[trigger] hb[j].1 == k;
                            assert(hn[j] == hb[j]);
                        }
                    }
                    assert forall|j: int| h0.len() <= j < hn.len() implies {
                        &&& keys.contains(#[trigger] hn[j].1)
                        &&& !self@.contains_key(hn[j].1)
                        &&& ids0.contains_key(hn[j].1)
                        &&& hn[j].0 == ids0[hn[j].1]
                        &&& hn[j].2 == Err::<Seq<char>, FlowError>(FlowError::TimedOut)
                    } by {
                        if j < hb.len() {
                            assert(hn[j] == hb[j]);
                        }
                    }
                }
            } else {
                i = i + 1;
            }
        }
        proof {
            let e = expire_step(m0, now, timeout);
            assert forall|k: Seq<char>| #[trigger] self@.contains_key(k) implies !timed_out(
                m0[k],
                now,
                timeout,
            ) by {
                let j = choose|j: int| 0 <= j < self.flows@.len() && #[trigger] self.flows@[j].token@ == k;
                assert(!timed_out(self.flows@[j].created_at, now, timeout));
            }
            assert(self@ =~= e);
            let hn = self.handed@;
            assert(hn.subrange(0, h0.len() as int) =~= h0);
            assert forall|k: Seq<char>| #[trigger] keys.contains(k) implies exists|j: int|
                h0.len() <= j < hn.len() && #[trigger] hn[j].1 == k by {
                assert(!self@.contains_key(k));
            }
            assert(self.ids@ =~= ids0.restrict(self@.dom()));
        }
        removed
    }

    /// Removes every pending flow; each of their waiters receives `reason`.
    pub fn drain(&mut self, reason: FlowError)
        requires
            old(self).wf(),
        ensures
            final(self).wf(),
            final(self)@ == Map::<Seq<char>, u64>::empty(),
            resolves_each(
                old(self).handed(),
                final(self).handed(),
                old(self).ids(),
                old(self)@.dom(),
                Err(reason),
            ),
            final(self).ids() == Map::<Seq<char>, nat>::empty(),
            final(self).next_id() == old(self).next_id(),
    {
        let ghost m0 = self@;
        let ghost ids0 = self.ids@;
        let ghost h0 = self.handed@;
        while self.flows.len() > 0
            invariant
                self.wf(),
                self.next_id@ == old(self).next_id@,
                forall|k: Seq<char>| #[trigger] ids0.contains_key(k) == m0.contains_key(k),
                forall|k: Seq<char>| #[trigger]
                    self@.contains_key(k) ==> m0.contains_key(k) && self.ids@[k] == ids0[k],
                h0.len() <= self.handed@.len(),
                forall|j: int| 0 <= j < h0.len() ==> #[trigger] self.handed@[j] == h0[j],
                forall|j: int|
                    h0.len() <= j < self.handed@.len() ==> {
                        &&& m0.contains_key(#[trigger] self.handed@[j].1)
                        &&& !self@.contains_key(self.handed@[j].1)
                        &&& ids0.contains_key(self.handed@[j].1)
                        &&& self.handed@[j].0 == ids0[self.handed@[j].1]
                        &&& self.handed@[j].2 == Err::<Seq<char>, FlowError>(reason)
                    },
                forall|a: int, b: int|
                    h0.len() <= a < b < self.handed@.len() ==> #[trigger] self.handed@[a].1
                        != #[trigger] self.handed@[b].1,
                forall|k: Seq<char>|
                    #[trigger] m0.contains_key(k) ==> self@.contains_key(k) || exists|j: int|
                        h0.len() <= j < self.handed@.len() && #[trigger] self.handed@[j].1 == k,
            decreases self.flows@.len(),
        {
            let last = self.flows.len() - 1;
            let ghost hb = self.handed@;
            let ghost tk = self.flows@[last as int].token@;
            assert(self@.contains_key(tk));
            let flow = self.take_resolving(last, Ghost(Err(reason)));
            let _ = flow.handle.send(Err(reason));
            proof {
                let hn = self.handed@;
                assert(hn[hb.len() as int].1 == tk);
                assert forall|j: int| 0 <= j < h0.len() implies #[trigger] hn[j] == h0[j] by {
                    assert(hn[j] == hb[j]);
                }
                assert forall|a: int, b: int|
                    h0.len() <= a < b < hn.len() implies #[trigger] hn[a].1 != #[trigger] hn[b].1 by {
                    assert(hn[a] == hb[a]);
                    if b < hb.len() {
                        assert(hn[b] == hb[b]);
                    }
                }
                assert forall|k: Seq<char>| #[trigger] m0.contains_key(k) implies self@.contains_key(k)
                    || exists|j: int| h0.len() <= j < hn.len() && #[trigger] hn[j].1 == k by {
                    if k == tk {
                        assert(hn[hb.len() as int].1 == k);
                    } else if !self@.contains_key(k) {
                        let j = choose|j: int| h0.len() <= j < hb.len() && #[trigger] hb[j].1 == k;
                        assert(hn[j] == hb[j]);
                    }
                }
                assert forall|j: int| h0.len() <= j < hn.len() implies {
                    &&& m0.contains_key(#[trigger] hn[j].1)
                    &&& !self@.contains_key(hn[j].1)
                    &&& ids0.contains_key(hn[j].1)
                    &&& hn[j].0 == ids0[hn[j].1]
                    &&& hn[j].2 == Err::<Seq<char>, FlowError>(reason)
                } by {
                    if j < hb.len() {
                        assert(hn[j] == hb[j]);
                    }
                }
            }
        }
        assert(self@.dom().len() == 0);
        assert(self@ =~= Map::<Seq<char>, u64>::empty());
        assert(self.ids@ =~= Map::<Seq<char>, nat>::empty());
        let ghost hn = self.handed@;
        assert(hn.subrange(0, h0.len() as int) =~= h0);
    }
}

} // verus!

verus! {

/// Flows started one after another are both accepted only under different
/// tokens, and both stay pending: no two pending flows ever share a token.
pub proof fn lemma_started_flows_have_distinct_tokens(
    m: Map<Seq<char>, u64>,
    t1: Seq<char>,
    n1: u64,
    t2: Seq<char>,
    n2: u64,
)
    requires
        register_step(m, t1, n1).0,
        register_step(register_step(m, t1, n1).1, t2, n2).0,
    ensures
        t1 != t2,
        register_step(register_step(m, t1, n1).1, t2, n2).1.contains_key(t1),
        register_step(register_step(m, t1, n1).1, t2, n2).1.contains_key(t2),
{
}

/// A delivery that arrives before its token is registered changes nothing, and
/// the registration that follows is not lost.
pub proof fn lemma_early_delivery_keeps_registration(m: Map<Seq<char>, u64>, t: Seq<char>, now: u64)
    requires
        !m.contains_key(t),
    ensures
        !deliver_step(m, t).0,
        deliver_step(m, t).1 == m,
        register_step(deliver_step(m, t).1, t, now) == (true, m.insert(t, now)),
        register_step(deliver_step(m, t).1, t, now).1.contains_key(t),
{
}

/// Of two deliveries to the same pending token, the first matches the flow and
/// hands it its code; the second finds it gone and hands nothing to anyone.
pub proof fn lemma_delivery_exactly_once(
    m: Map<Seq<char>, u64>,
    ids: Map<Seq<char>, nat>,
    handed: Seq<Handoff>,
    t: Seq<char>,
    c1: Seq<char>,
    c2: Seq<char>,
)
    requires
        m.contains_key(t),
        ids.contains_key(t),
    ensures
        deliver_step(m, t).0,
        !deliver_step(deliver_step(m, t).1, t).0,
        deliver_step(deliver_step(m, t).1, t).1 == m.remove(t),
        handed_step(handed_step(handed, ids, t, Ok(c1)), ids.remove(t), t, Ok(c2)) == handed.push(
            (ids[t], t, Ok(c1)),
        ),
{
}

/// A flow that has outlived its timeout is gone after an expiry sweep, and a
/// delivery to its token then finds nothing.
pub proof fn lemma_timed_out_flow_is_unknown(
    m: Map<Seq<char>, u64>,
    t: Seq<char>,
    now: u64,
    timeout: u64,
)
    requires
        m.contains_key(t),
        timed_out(m[t], now, timeout),
    ensures
        !expire_step(m, now, timeout).contains_key(t),
        !deliver_step(expire_step(m, now, timeout), t).0,
{
}

/// A delivery to one token leaves the flow pending under any other token as it
/// was, and hands nothing to it: codes never reach the wrong flow, whichever
/// order the redirects come in.
pub proof fn lemma_delivery_leaves_other_flows(
    m: Map<Seq<char>, u64>,
    ids: Map<Seq<char>, nat>,
    handed: Seq<Handoff>,
    t: Seq<char>,
    u: Seq<char>,
    code: Seq<char>,
)
    requires
        m.contains_key(t),
        ids.contains_key(t),
        t != u,
        forall|k1: Seq<char>, k2: Seq<char>|
            #[trigger] ids.contains_key(k1) && #[trigger] ids.contains_key(k2) && k1 != k2
                ==> ids[k1] != ids[k2],
    ensures
        deliver_step(m, u).1.contains_key(t),
        deliver_step(m, u).1[t] == m[t],
        ids.remove(u).contains_key(t),
        ids.remove(u)[t] == ids[t],
        forall|j: int|
            handed.len() <= j < handed_step(handed, ids, u, Ok(code)).len() ==> {
                &&& (#[trigger] handed_step(handed, ids, u, Ok(code))[j]).1 == u
                &&& handed_step(handed, ids, u, Ok(code))[j].0 != ids[t]
            },
        handed_step(handed, ids, u, Ok(code)).subrange(0, handed.len() as int) == handed,
{
    assert(handed_step(handed, ids, u, Ok(code)).subrange(0, handed.len() as int) =~= handed);
}

} // verus!
