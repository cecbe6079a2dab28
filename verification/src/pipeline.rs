use vstd::prelude::*;

use crate::config::ConfigSnapshot;
use crate::config::GatewayDefinition;
use crate::config::UpstreamTargetSet;
use crate::errors::Error;
use crate::request::RequestView;
use crate::request::ResponseView;
use crate::selector::has_eligible_peer;
use crate::selector::select_peer;
use crate::selector::valid_selection;
use crate::store::SnapshotHandle;
use crate::transform::apply_chain_to_request;
use crate::transform::apply_chain_to_response;
use crate::transform::apply_request_transforms;
use crate::transform::apply_response_transforms;

verus! {

/// How often a request's upstream connection is attempted before the
/// pipeline gives up with `UpstreamUnavailable`.
pub const MAX_CONNECT_ATTEMPTS: u64 = 3;

/// Where one request stands in its life, from acceptance to completion; the
/// error state is terminal and reachable from every non-terminal state.
#[derive(Debug)]
pub enum PipelineState {
    /// Constructed by the proxy runtime; the snapshot handle is already
    /// fixed.
    Accepted,
    /// A rule won the route evaluation; its target set is resolved.
    Matched { rule: usize, target: usize },
    /// The selector picked one concrete peer.
    PeerSelected { rule: usize, target: usize, peer: usize },
    /// The request, transforms applied, is with the runtime on its way
    /// upstream.
    Forwarding { rule: usize, target: usize, peer: usize },
    /// Upstream response headers arrived; the body is being relayed.
    ResponseRelay { rule: usize, target: usize, peer: usize },
    /// Normal terminal state.
    Completed,
    /// Terminal failure, carrying the classified error.
    Errored(Error),
}

/// One request's walk through the gateway: accept, match, select a peer,
/// forward, relay, finish — driven by the proxy runtime's hooks, and reading
/// configuration only through the one snapshot handle obtained at acceptance.
#[derive(Debug)]
pub struct Pipeline {
    handle: SnapshotHandle,
    gateway: usize,
    state: PipelineState,
    attempts: u64,
    excluded: Vec<bool>,
}

/// A vector of `n` cleared flags.
fn falses(n: usize) -> (r: Vec<bool>)
    ensures
        r@.len() == n,
        forall|i: int| 0 <= i < n ==> !r@[i],
{
    let mut r: Vec<bool> = Vec::new();
    let mut i: usize = 0;
    while i < n
        invariant
            0 <= i <= n,
            r@.len() == i,
            forall|j: int| 0 <= j < i ==> !r@[j],
        decreases n - i,
    {
        r.push(false);
        i = i + 1;
    }
    r
}

impl Pipeline {
    /// The snapshot this request reads; fixed at acceptance, never
    /// re-queried.
    pub closed spec fn spec_snapshot(&self) -> ConfigSnapshot {
        self.handle.spec_snapshot()
    }

    /// The index of the gateway definition serving this request.
    pub closed spec fn spec_gateway(&self) -> int {
        self.gateway as int
    }

    /// The state the request stands in.
    pub closed spec fn spec_state(&self) -> PipelineState {
        self.state
    }

    /// Connection attempts made so far.
    pub closed spec fn spec_attempts(&self) -> u64 {
        self.attempts
    }

    /// The peers excluded for this request after failed connection attempts.
    pub closed spec fn spec_excluded(&self) -> Seq<bool> {
        self.excluded@
    }

    /// The gateway definition this request runs under.
    pub open spec fn gw(&self) -> GatewayDefinition {
        self.spec_snapshot().gateways@[self.spec_gateway()]
    }

    /// The target set of the matched rule, for states that carry one.
    pub open spec fn target_set(&self, target: int) -> UpstreamTargetSet {
        self.gw().targets@[target]
    }

    /// The pipeline's invariant: a well-formed snapshot, a gateway index in
    /// range, state indices in range, the exclusion flags sized to the
    /// matched target set, and attempts under the bound while work remains.
    pub open spec fn wf(&self) -> bool {
        &&& self.spec_snapshot().wf()
        &&& 0 <= self.spec_gateway() < self.spec_snapshot().gateways@.len()
        &&& match self.spec_state() {
            PipelineState::Accepted => true,
            PipelineState::Matched { rule, target } => {
                &&& rule < self.gw().route_table.rules@.len()
                &&& target < self.gw().targets@.len()
                &&& self.spec_excluded().len() == self.target_set(target as int).peers@.len()
            },
            PipelineState::PeerSelected { rule, target, peer } => {
                &&& rule < self.gw().route_table.rules@.len()
                &&& target < self.gw().targets@.len()
                &&& peer < self.target_set(target as int).peers@.len()
                &&& self.spec_excluded().len() == self.target_set(target as int).peers@.len()
            },
            PipelineState::Forwarding { rule, target, peer } => {
                &&& rule < self.gw().route_table.rules@.len()
                &&& target < self.gw().targets@.len()
                &&& peer < self.target_set(target as int).peers@.len()
                &&& self.spec_excluded().len() == self.target_set(target as int).peers@.len()
            },
            PipelineState::ResponseRelay { rule, target, peer } => {
                &&& rule < self.gw().route_table.rules@.len()
                &&& target < self.gw().targets@.len()
                &&& peer < self.target_set(target as int).peers@.len()
            },
            PipelineState::Completed => true,
            PipelineState::Errored(_) => true,
        }
        &&& !(self.spec_state() is Completed) && !(self.spec_state() is Errored)
            ==> self.spec_attempts() < MAX_CONNECT_ATTEMPTS
    }

    /// Borrows the state, for the runtime to dispatch on.
    pub fn state(&self) -> (r: &PipelineState)
        ensures
            *r == self.spec_state(),
    {
        &self.state
    }

    /// The version of the snapshot this request reads.
    pub fn snapshot_version(&self) -> (v: u64)
        ensures
            v == self.spec_snapshot().version,
    {
        self.handle.version()
    }

    /// Hook: the runtime accepted a request for the given gateway. The
    /// pipeline takes its snapshot handle here, once, and every later state
    /// reads only through it.
    pub fn accept(handle: SnapshotHandle, gateway: usize) -> (p: Pipeline)
        requires
            handle.spec_snapshot().wf(),
            gateway < handle.spec_snapshot().gateways@.len(),
        ensures
            p.wf(),
            p.spec_state() is Accepted,
            p.spec_snapshot() == handle.spec_snapshot(),
            p.spec_gateway() == gateway,
            p.spec_attempts() == 0,
    {
        Pipeline {
            handle,
            gateway,
            state: PipelineState::Accepted,
            attempts: 0,
            excluded: Vec::new(),
        }
    }

    /// Hook: request headers are ready. Evaluates the route table; a winning
    /// rule moves the request to `Matched` with that rule and its target set,
    /// and no match is a client-visible route miss, not a fault.
    pub fn on_request(&mut self, req: &RequestView)
        requires
            old(self).wf(),
            old(self).spec_state() is Accepted,
        ensures
            final(self).wf(),
            final(self).spec_snapshot() == old(self).spec_snapshot(),
            final(self).spec_gateway() == old(self).spec_gateway(),
            final(self).spec_attempts() == old(self).spec_attempts(),
            match final(self).spec_state() {
                PipelineState::Matched { rule, target } => {
                    &&& old(self).gw().route_table.wins(*req, rule as int)
                    &&& target < old(self).gw().targets@.len()
                    &&& old(self).gw().targets@[target as int].id@
                        == old(self).gw().route_table.rules@[rule as int].target_id@
                    &&& forall|i: int|
                        0 <= i < final(self).spec_excluded().len()
                            ==> !final(self).spec_excluded()[i]
                },
                PipelineState::Errored(e) => {
                    &&& e is RouteMiss
                    &&& forall|j: int|
                        0 <= j < old(self).gw().route_table.rules@.len()
                            ==> !(#[trigger] old(self).gw().route_table.rules@[j]).predicate.satisfied_by(*req)
                },
                _ => false,
            },
    {
        let winner = {
            let gw = &self.handle.get().gateways[self.gateway];
            gw.route_table.evaluate(req)
        };
        match winner {
            Some(rule) => {
                let target_opt = {
                    let gw = &self.handle.get().gateways[self.gateway];
                    gw.find_target(&gw.route_table.rule(rule).target_id)
                };
                match target_opt {
                    Some(target) => {
                        let n_peers = {
                            let gw = &self.handle.get().gateways[self.gateway];
                            gw.targets[target].peers.len()
                        };
                        self.excluded = falses(n_peers);
                        self.state = PipelineState::Matched { rule, target };
                    },
                    None => {
                        // The gateway invariant says every rule's target id
                        // resolves.
                        proof {
                            assert(false);
                        }
                        self.state = PipelineState::Errored(Error::RouteMiss);
                    },
                }
            },
            None => {
                self.state = PipelineState::Errored(Error::RouteMiss);
            },
        }
    }

    /// Hook: pick one peer of the matched target set. Health comes from the
    /// external health collaborator; peers already excluded for this request
    /// count as ineligible. With no eligible peer the request errs with
    /// `UpstreamUnavailable` at once — no connection is attempted.
    pub fn on_peer_select(
        &mut self,
        healthy: &Vec<bool>,
        conns: &Vec<u64>,
        counter: &mut u64,
        draw: u64,
    )
        requires
            old(self).wf(),
            old(self).spec_state() matches PipelineState::Matched { rule, target } && healthy@.len()
                == old(self).target_set(target as int).peers@.len() && conns@.len()
                == old(self).target_set(target as int).peers@.len(),
        ensures
            final(self).wf(),
            final(self).spec_snapshot() == old(self).spec_snapshot(),
            final(self).spec_gateway() == old(self).spec_gateway(),
            final(self).spec_attempts() == old(self).spec_attempts(),
            final(self).spec_excluded() == old(self).spec_excluded(),
            ({
                let old_state = old(self).spec_state();
                let rule0 = old_state->Matched_rule;
                let target0 = old_state->Matched_target;
                let set = old(self).target_set(target0 as int);
                let eligible = Seq::new(
                    healthy@.len(),
                    |i: int| healthy@[i] && !old(self).spec_excluded()[i],
                );
                if has_eligible_peer(set, eligible) {
                    final(self).spec_state() matches PipelineState::PeerSelected {
                        rule,
                        target,
                        peer,
                    } && rule == rule0 && target == target0 && valid_selection(
                        set,
                        eligible,
                        conns@,
                        *old(counter),
                        draw,
                        peer as int,
                        *final(counter),
                    )
                } else {
                    &&& final(self).spec_state() matches PipelineState::Errored(e) && e
                        is UpstreamUnavailable
                    &&& *final(counter) == *old(counter)
                }
            }),
    {
        let (rule, target) = match &self.state {
            PipelineState::Matched { rule, target } => (*rule, *target),
            _ => {
                proof {
                    assert(false);
                }
                (0, 0)
            },
        };
        let n = healthy.len();
        let mut eligible: Vec<bool> = Vec::new();
        let mut i: usize = 0;
        #[verifier::loop_isolation(false)]
        while i < n
            invariant
                0 <= i <= n,
                eligible@.len() == i,
                forall|j: int|
                    0 <= j < i ==> eligible@[j] == (healthy@[j] && !self.excluded@[j]),
            decreases n - i,
        {
            let e = healthy[i] && !self.excluded[i];
            eligible.push(e);
            i = i + 1;
        }
        proof {
            assert(eligible@ =~= Seq::new(
                healthy@.len(),
                |i: int| healthy@[i] && !self.excluded@[i],
            ));
        }
        let picked = {
            let set = &self.handle.get().gateways[self.gateway].targets[target];
            select_peer(set, &eligible, conns, counter, draw)
        };
        match picked {
            Ok(peer) => {
                self.state = PipelineState::PeerSelected { rule, target, peer };
            },
            Err(e) => {
                self.state = PipelineState::Errored(e);
            },
        }
    }

    /// Hook: hand the request to the runtime for forwarding. The matched
    /// rule's request-side transforms are applied here, once, to the outbound
    /// request.
    pub fn on_forward(&mut self, req: RequestView) -> (out: RequestView)
        requires
            old(self).wf(),
            old(self).spec_state() is PeerSelected,
        ensures
            final(self).wf(),
            final(self).spec_snapshot() == old(self).spec_snapshot(),
            final(self).spec_gateway() == old(self).spec_gateway(),
            final(self).spec_attempts() == old(self).spec_attempts(),
            final(self).spec_excluded() == old(self).spec_excluded(),
            ({
                let old_state = old(self).spec_state();
                let rule = old_state->PeerSelected_rule;
                &&& final(self).spec_state() == (PipelineState::Forwarding {
                    rule,
                    target: old_state->PeerSelected_target,
                    peer: old_state->PeerSelected_peer,
                })
                &&& out.model() == apply_chain_to_request(
                    old(self).gw().route_table.rules@[rule as int].transforms@,
                    req.model(),
                )
            }),
    {
        let (rule, target, peer) = match &self.state {
            PipelineState::PeerSelected { rule, target, peer } => (*rule, *target, *peer),
            _ => {
                proof {
                    assert(false);
                }
                (0, 0, 0)
            },
        };
        let mut out = req;
        {
            let ts = &self.handle.get().gateways[self.gateway].route_table.rule(rule).transforms;
            apply_request_transforms(ts, &mut out);
        }
        self.state = PipelineState::Forwarding { rule, target, peer };
        out
    }

    /// Hook: the runtime failed to connect to the selected peer. The peer is
    /// excluded for this request and, while attempts remain, the request goes
    /// back to `Matched` for another selection; the bound exhausted, it errs
    /// with `UpstreamUnavailable`.
    pub fn on_connect_failure(&mut self)
        requires
            old(self).wf(),
            old(self).spec_state() is Forwarding,
        ensures
            final(self).wf(),
            final(self).spec_snapshot() == old(self).spec_snapshot(),
            final(self).spec_gateway() == old(self).spec_gateway(),
            final(self).spec_attempts() == old(self).spec_attempts() + 1,
            ({
                let old_state = old(self).spec_state();
                let rule = old_state->Forwarding_rule;
                let target = old_state->Forwarding_target;
                let peer = old_state->Forwarding_peer;
                if old(self).spec_attempts() + 1 < MAX_CONNECT_ATTEMPTS {
                    &&& final(self).spec_state() == (PipelineState::Matched { rule, target })
                    &&& final(self).spec_excluded() == old(self).spec_excluded().update(
                        peer as int,
                        true,
                    )
                } else {
                    final(self).spec_state() matches PipelineState::Errored(e) && e
                        is UpstreamUnavailable
                }
            }),
    {
        let (rule, target, peer) = match &self.state {
            PipelineState::Forwarding { rule, target, peer } => (*rule, *target, *peer),
            _ => {
                proof {
                    assert(false);
                }
                (0, 0, 0)
            },
        };
        self.attempts = self.attempts + 1;
        if self.attempts < MAX_CONNECT_ATTEMPTS {
            self.excluded[peer] = true;
            self.state = PipelineState::Matched { rule, target };
        } else {
            self.state = PipelineState::Errored(Error::UpstreamUnavailable);
        }
    }

    /// Hook: upstream response headers arrived. The rule's response-side
    /// transforms are applied and the body relay begins.
    pub fn on_response(&mut self, resp: ResponseView) -> (out: ResponseView)
        requires
            old(self).wf(),
            old(self).spec_state() is Forwarding,
        ensures
            final(self).wf(),
            final(self).spec_snapshot() == old(self).spec_snapshot(),
            final(self).spec_gateway() == old(self).spec_gateway(),
            final(self).spec_attempts() == old(self).spec_attempts(),
            ({
                let old_state = old(self).spec_state();
                let rule = old_state->Forwarding_rule;
                &&& final(self).spec_state() == (PipelineState::ResponseRelay {
                    rule,
                    target: old_state->Forwarding_target,
                    peer: old_state->Forwarding_peer,
                })
                &&& out.model() == apply_chain_to_response(
                    old(self).gw().route_table.rules@[rule as int].transforms@,
                    resp.model(),
                )
            }),
    {
        let (rule, target, peer) = match &self.state {
            PipelineState::Forwarding { rule, target, peer } => (*rule, *target, *peer),
            _ => {
                proof {
                    assert(false);
                }
                (0, 0, 0)
            },
        };
        let mut out = resp;
        {
            let ts = &self.handle.get().gateways[self.gateway].route_table.rule(rule).transforms;
            apply_response_transforms(ts, &mut out);
        }
        self.state = PipelineState::ResponseRelay { rule, target, peer };
        out
    }

    /// Hook: the response is fully relayed; the request completes and its
    /// resources can go.
    pub fn on_complete(&mut self)
        requires
            old(self).wf(),
            old(self).spec_state() is ResponseRelay,
        ensures
            final(self).wf(),
            final(self).spec_snapshot() == old(self).spec_snapshot(),
            final(self).spec_gateway() == old(self).spec_gateway(),
            final(self).spec_state() is Completed,
    {
        self.state = PipelineState::Completed;
    }

    /// Hook: the runtime itself reported a failure. It is propagated as-is
    /// under `UnderlyingRuntimeError`, never reinterpreted; the request ends.
    pub fn on_runtime_error(&mut self, message: String)
        requires
            old(self).wf(),
            !(old(self).spec_state() is Completed),
            !(old(self).spec_state() is Errored),
        ensures
            final(self).wf(),
            final(self).spec_snapshot() == old(self).spec_snapshot(),
            final(self).spec_gateway() == old(self).spec_gateway(),
            final(self).spec_state() == PipelineState::Errored(
                Error::UnderlyingRuntimeError(message),
            ),
    {
        self.state = PipelineState::Errored(Error::UnderlyingRuntimeError(message));
    }
}

} // verus!
