use vstd::prelude::*;

use crate::address::Address;
use crate::address::RawAddress;
use crate::address::raw_address_wf;
use crate::errors::ConfigError;
use crate::pattern::CompiledPattern;
use crate::pattern::pattern_compiles;
use crate::router::MatchRule;
use crate::router::Predicate;
use crate::router::RouteTable;
use crate::transform::Transform;

verus! {

/// How one peer is picked out of an upstream target set.
#[derive(Debug)]
pub enum SelectionPolicy {
    /// Cycle the peers with a shared counter; fair over one full cycle.
    RoundRobin,
    /// Draw proportionally to per-peer weights; a zero-weight peer is never
    /// eligible.
    Weighted(Vec<u64>),
    /// Draw uniformly over the healthy peers.
    Random,
    /// Pick the healthy peer with the fewest live connections, ties broken
    /// in round-robin order.
    LeastConnections,
}

/// One logical backend service: its candidate peers and the policy that
/// picks among them.
#[derive(Debug)]
pub struct UpstreamTargetSet {
    pub id: String,
    pub peers: Vec<Address>,
    pub policy: SelectionPolicy,
}

impl UpstreamTargetSet {
    /// The load-time invariant: at least one peer, every peer validated, and
    /// weights, if present, one per peer.
    pub open spec fn wf(&self) -> bool {
        &&& self.peers@.len() > 0
        &&& forall|i: int| 0 <= i < self.peers@.len() ==> (#[trigger] self.peers@[i]).wf()
        &&& (self.policy matches SelectionPolicy::Weighted(ws) ==> ws@.len()
            == self.peers@.len())
    }
}

/// The protocol a listener accepts.
#[derive(Clone, Copy, Debug, PartialEq, Eq, Structural)]
pub enum Protocol {
    Http1,
    Http2,
    Auto,
}

/// How and where one gateway accepts client connections.
#[derive(Debug)]
pub struct DownstreamListenerSpec {
    pub bind_address: Address,
    pub protocol: Protocol,
}

/// One logical proxy instance: a listener, its route table, and the upstream
/// target sets the rules forward to.
#[derive(Debug)]
pub struct GatewayDefinition {
    pub listener: DownstreamListenerSpec,
    pub route_table: RouteTable,
    pub targets: Vec<UpstreamTargetSet>,
}

impl GatewayDefinition {
    /// Some target set carries this id.
    pub open spec fn target_exists(&self, id: Seq<char>) -> bool {
        exists|k: int| 0 <= k < self.targets@.len() && (#[trigger] self.targets@[k]).id@ == id
    }

    /// The load-time invariant: validated listener, well-formed target sets
    /// with pairwise distinct ids, and no rule forwarding to a missing id.
    pub open spec fn wf(&self) -> bool {
        &&& self.listener.bind_address.wf()
        &&& forall|i: int| 0 <= i < self.targets@.len() ==> (#[trigger] self.targets@[i]).wf()
        &&& forall|i: int, j: int|
            0 <= i < j < self.targets@.len() ==> (#[trigger] self.targets@[i].id@)
                != (#[trigger] self.targets@[j].id@)
        &&& forall|r: int|
            0 <= r < self.route_table.rules@.len() ==> self.target_exists(
                (#[trigger] self.route_table.rules@[r]).target_id@,
            )
    }

    /// Finds the target set with the given id.
    pub fn find_target(&self, id: &String) -> (r: Option<usize>)
        ensures
            match r {
                Some(k) => k < self.targets@.len() && self.targets@[k as int].id@ == id@,
                None => !self.target_exists(id@),
            },
    {
        let n = self.targets.len();
        let mut k: usize = 0;
        while k < n
            invariant
                0 <= k <= n,
                n == self.targets@.len(),
                forall|j: int| 0 <= j < k ==> (#[trigger] self.targets@[j]).id@ != id@,
            decreases n - k,
        {
            if self.targets[k].id == *id {
                return Some(k);
            }
            k = k + 1;
        }
        None
    }
}

/// One immutable, versioned, fully validated configuration: every gateway
/// definition in force at one point in time.
#[derive(Debug)]
pub struct ConfigSnapshot {
    pub gateways: Vec<GatewayDefinition>,
    pub version: u64,
}

impl ConfigSnapshot {
    /// Every gateway of the snapshot is well formed.
    pub open spec fn wf(&self) -> bool {
        forall|g: int| 0 <= g < self.gateways@.len() ==> (#[trigger] self.gateways@[g]).wf()
    }
}

/// One raw peer: its address and the weight a weighted policy gives it.
#[derive(Debug)]
pub struct RawPeer {
    pub address: RawAddress,
    pub weight: u64,
}

/// The selection policy named in a raw configuration; weights come from the
/// peers themselves.
#[derive(Clone, Copy, Debug, PartialEq, Eq, Structural)]
pub enum RawPolicy {
    RoundRobin,
    Weighted,
    Random,
    LeastConnections,
}

/// A raw upstream target set, before validation.
#[derive(Debug)]
pub struct RawTargetSet {
    pub id: String,
    pub peers: Vec<RawPeer>,
    pub policy: RawPolicy,
}

/// A raw routing predicate: patterns are still text.
#[derive(Debug)]
pub enum RawPredicate {
    MethodEquals(Vec<u8>),
    PathPrefix(Vec<u8>),
    PathPattern(String),
    HeaderEquals(Vec<u8>, Vec<u8>),
    HeaderPresent(Vec<u8>),
    And(Vec<RawPredicate>),
    Or(Vec<RawPredicate>),
    Not(Box<RawPredicate>),
}

/// A raw match rule, before its predicate is compiled.
#[derive(Debug)]
pub struct RawMatchRule {
    pub predicate: RawPredicate,
    pub target_id: String,
    pub priority: u64,
    pub transforms: Vec<Transform>,
}

/// A raw listener specification.
#[derive(Debug)]
pub struct RawListener {
    pub bind_address: RawAddress,
    pub protocol: Protocol,
}

/// One raw gateway: listener, rules in declaration order, target sets.
#[derive(Debug)]
pub struct RawGateway {
    pub listener: RawListener,
    pub rules: Vec<RawMatchRule>,
    pub targets: Vec<RawTargetSet>,
}

/// A whole raw configuration, the unit a load validates atomically.
#[derive(Debug)]
pub struct RawConfig {
    pub gateways: Vec<RawGateway>,
}

/// Every pattern inside the raw predicate compiles.
pub open spec fn raw_predicate_ok(r: RawPredicate) -> bool
    decreases r, 1int,
{
    match r {
        RawPredicate::PathPattern(s) => pattern_compiles(s@),
        RawPredicate::And(rs) => all_raw_ok(rs@),
        RawPredicate::Or(rs) => all_raw_ok(rs@),
        RawPredicate::Not(inner) => raw_predicate_ok(*inner),
        _ => true,
    }
}

/// Every pattern inside every predicate of the sequence compiles.
pub open spec fn all_raw_ok(rs: Seq<RawPredicate>) -> bool
    decreases rs, 0int,
{
    rs.len() == 0 || (raw_predicate_ok(rs[0]) && all_raw_ok(rs.skip(1)))
}

/// Skipping a prefix of good predicates does not change whether all are good.
pub proof fn lemma_all_raw_ok_skip(rs: Seq<RawPredicate>, i: int)
    requires
        0 <= i <= rs.len(),
        forall|j: int| 0 <= j < i ==> raw_predicate_ok(#[trigger] rs[j]),
    ensures
        all_raw_ok(rs) == all_raw_ok(rs.skip(i)),
    decreases i,
{
    if i > 0 {
        assert forall|j: int| 0 <= j < i - 1 implies raw_predicate_ok(#[trigger] rs.skip(1)[j]) by {
            assert(rs.skip(1)[j] == rs[j + 1]);
        }
        assert(rs.skip(1).skip(i - 1) =~= rs.skip(i));
        lemma_all_raw_ok_skip(rs.skip(1), i - 1);
        assert(raw_predicate_ok(rs[0]));
    } else {
        assert(rs.skip(0) =~= rs);
    }
}

/// The compiled predicate says the same thing as the raw one: same shape,
/// same byte strings, and each compiled pattern compiled from the raw text.
pub open spec fn predicate_matches_raw(p: Predicate, r: RawPredicate) -> bool
    decreases r, 1int,
{
    match (p, r) {
        (Predicate::MethodEquals(a), RawPredicate::MethodEquals(b)) => a@ == b@,
        (Predicate::PathPrefix(a), RawPredicate::PathPrefix(b)) => a@ == b@,
        (Predicate::PathPattern(cp), RawPredicate::PathPattern(s)) => cp.pat() == s@,
        (Predicate::HeaderEquals(n, v), RawPredicate::HeaderEquals(rn, rv)) => n@ == rn@ && v@
            == rv@,
        (Predicate::HeaderPresent(n), RawPredicate::HeaderPresent(rn)) => n@ == rn@,
        (Predicate::And(ps), RawPredicate::And(rs)) => predicates_match_raw(ps@, rs@),
        (Predicate::Or(ps), RawPredicate::Or(rs)) => predicates_match_raw(ps@, rs@),
        (Predicate::Not(a), RawPredicate::Not(b)) => predicate_matches_raw(*a, *b),
        _ => false,
    }
}

/// Pairwise `predicate_matches_raw` over two sequences of equal length.
pub open spec fn predicates_match_raw(ps: Seq<Predicate>, rs: Seq<RawPredicate>) -> bool
    decreases rs, 0int,
{
    &&& ps.len() == rs.len()
    &&& (rs.len() == 0 || (predicate_matches_raw(ps[0], rs[0]) && predicates_match_raw(
        ps.skip(1),
        rs.skip(1),
    )))
}

/// Extending two related sequences by one related pair keeps them related.
pub proof fn lemma_predicates_match_push(
    ps: Seq<Predicate>,
    rs: Seq<RawPredicate>,
    p: Predicate,
    r: RawPredicate,
)
    requires
        predicates_match_raw(ps, rs),
        predicate_matches_raw(p, r),
    ensures
        predicates_match_raw(ps.push(p), rs.push(r)),
    decreases rs.len(),
{
    if rs.len() == 0 {
        reveal_with_fuel(predicates_match_raw, 3);
        assert(ps.push(p)[0] == p);
        assert(rs.push(r)[0] == r);
        assert(ps.push(p).skip(1) =~= Seq::<Predicate>::empty());
        assert(rs.push(r).skip(1) =~= Seq::<RawPredicate>::empty());
    } else {
        lemma_predicates_match_push(ps.skip(1), rs.skip(1), p, r);
        assert(ps.push(p).skip(1) =~= ps.skip(1).push(p));
        assert(rs.push(r).skip(1) =~= rs.skip(1).push(r));
        assert(ps.push(p)[0] == ps[0]);
        assert(rs.push(r)[0] == rs[0]);
    }
}

impl RawPredicate {
    /// Compiles the raw predicate: every pattern is compiled here, once, and
    /// never again at request time. Succeeds exactly when every pattern text
    /// is accepted; the compiled predicate mirrors the raw one.
    pub fn compile(self) -> (res: Result<Predicate, ConfigError>)
        ensures
            res is Ok <==> raw_predicate_ok(self),
            res matches Ok(p) ==> predicate_matches_raw(p, self),
            res matches Err(e) ==> e == ConfigError::InvalidPattern,
        decreases self,
    {
        let ghost orig = self;
        match self {
            RawPredicate::MethodEquals(m) => Ok(Predicate::MethodEquals(m)),
            RawPredicate::PathPrefix(p) => Ok(Predicate::PathPrefix(p)),
            RawPredicate::PathPattern(s) => {
                match CompiledPattern::compile(s.as_str()) {
                    Ok(cp) => Ok(Predicate::PathPattern(cp)),
                    Err(e) => Err(e),
                }
            },
            RawPredicate::HeaderEquals(n, v) => Ok(Predicate::HeaderEquals(n, v)),
            RawPredicate::HeaderPresent(n) => Ok(Predicate::HeaderPresent(n)),
            RawPredicate::And(ps) => {
                proof {
                    assert(decreases_to!(orig => orig->And_0));
                }
                match Self::compile_all(ps) {
                    Ok(out) => Ok(Predicate::And(out)),
                    Err(e) => Err(e),
                }
            },
            RawPredicate::Or(ps) => {
                proof {
                    assert(decreases_to!(orig => orig->Or_0));
                }
                match Self::compile_all(ps) {
                    Ok(out) => Ok(Predicate::Or(out)),
                    Err(e) => Err(e),
                }
            },
            RawPredicate::Not(inner) => {
                proof {
                    assert(decreases_to!(orig => orig->Not_0));
                }
                match (*inner).compile() {
                    Ok(p) => Ok(Predicate::Not(Box::new(p))),
                    Err(e) => Err(e),
                }
            },
        }
    }

    /// Compiles a whole list of raw predicates, in order.
    fn compile_all(ps: Vec<RawPredicate>) -> (res: Result<Vec<Predicate>, ConfigError>)
        ensures
            res is Ok <==> all_raw_ok(ps@),
            res matches Ok(out) ==> predicates_match_raw(out@, ps@),
            res matches Err(e) ==> e == ConfigError::InvalidPattern,
        decreases ps,
    {
        let ghost orig_vec = ps;
        let ghost g = ps@;
        let mut rest = ps;
        let n = rest.len();
        let mut out: Vec<Predicate> = Vec::new();
        let mut i: usize = 0;
        proof {
            assert(g.take(0) =~= Seq::<RawPredicate>::empty());
            assert(g.skip(0) =~= g);
        }
        #[verifier::loop_isolation(false)]
        while rest.len() > 0
            invariant
                0 <= i <= n,
                i + rest@.len() == g.len(),
                rest@ == g.skip(i as int),
                predicates_match_raw(out@, g.take(i as int)),
                forall|j: int| 0 <= j < i ==> raw_predicate_ok(#[trigger] g[j]),
            decreases rest@.len(),
        {
            proof {
                assert(g.skip(i as int)[0] == g[i as int]);
                assert(decreases_to!(orig_vec => orig_vec@));
                assert(decreases_to!(orig_vec@ => orig_vec@[i as int]));
                assert(decreases_to!(orig_vec => orig_vec@[i as int]));
            }
            let first = rest.remove(0);
            proof {
                assert(rest@ =~= g.skip(i as int).skip(1));
                assert(g.skip(i as int).skip(1) =~= g.skip(i as int + 1));
            }
            match first.compile() {
                Ok(p) => {
                    let ghost out_before = out@;
                    out.push(p);
                    proof {
                        lemma_predicates_match_push(out_before, g.take(i as int), p, g[i as int]);
                        assert(g.take(i as int).push(g[i as int]) =~= g.take(i as int + 1));
                    }
                },
                Err(e) => {
                    proof {
                        lemma_all_raw_ok_skip(g, i as int);
                        assert(g.skip(i as int)[0] == g[i as int]);
                        assert(g.skip(i as int).len() > 0);
                        assert(!all_raw_ok(g.skip(i as int)));
                    }
                    return Err(e);
                },
            }
            i = i + 1;
        }
        proof {
            assert(g.skip(i as int) =~= Seq::<RawPredicate>::empty());
            assert(i as int == g.len());
            assert(g.take(i as int) =~= g);
            lemma_all_raw_ok_skip(g, i as int);
        }
        Ok(out)
    }
}

/// Validity of one raw target set: at least one peer, every address well
/// formed.
pub open spec fn raw_target_ok(t: RawTargetSet) -> bool {
    &&& t.peers@.len() > 0
    &&& forall|i: int| 0 <= i < t.peers@.len() ==> raw_address_wf((#[trigger] t.peers@[i]).address)
}

/// Some raw target set carries the id.
pub open spec fn raw_target_id_exists(g: RawGateway, id: Seq<char>) -> bool {
    exists|k: int| 0 <= k < g.targets@.len() && (#[trigger] g.targets@[k]).id@ == id
}

/// Two target sets of the gateway share an id.
pub open spec fn raw_gateway_has_dup(g: RawGateway) -> bool {
    exists|i: int, j: int|
        0 <= i < j < g.targets@.len() && (#[trigger] g.targets@[i]).id@ == (
        #[trigger] g.targets@[j]).id@
}

/// Some rule of the gateway forwards to an id no target set carries.
pub open spec fn raw_gateway_has_dangling(g: RawGateway) -> bool {
    exists|r: int|
        0 <= r < g.rules@.len() && !raw_target_id_exists(g, (#[trigger] g.rules@[r]).target_id@)
}

/// Some address of the gateway is malformed.
pub open spec fn raw_gateway_has_bad_address(g: RawGateway) -> bool {
    ||| !raw_address_wf(g.listener.bind_address)
    ||| exists|k: int|
        0 <= k < g.targets@.len() && exists|i: int|
            0 <= i < g.targets@[k].peers@.len() && !raw_address_wf(
                (#[trigger] (#[trigger] g.targets@[k]).peers@[i]).address,
            )
}

/// Some target set of the gateway has no peers.
pub open spec fn raw_gateway_has_empty_peers(g: RawGateway) -> bool {
    exists|k: int| 0 <= k < g.targets@.len() && (#[trigger] g.targets@[k]).peers@.len() == 0
}

/// Some pattern of the gateway does not compile.
pub open spec fn raw_gateway_has_bad_pattern(g: RawGateway) -> bool {
    exists|r: int|
        0 <= r < g.rules@.len() && !raw_predicate_ok((#[trigger] g.rules@[r]).predicate)
}

/// A raw gateway free of all five load-time defects.
pub open spec fn raw_gateway_ok(g: RawGateway) -> bool {
    &&& !raw_gateway_has_dup(g)
    &&& !raw_gateway_has_dangling(g)
    &&& !raw_gateway_has_bad_address(g)
    &&& !raw_gateway_has_empty_peers(g)
    &&& !raw_gateway_has_bad_pattern(g)
}

/// A whole raw configuration free of defects: this is exactly when a load
/// succeeds.
pub open spec fn raw_config_ok(c: RawConfig) -> bool {
    forall|gi: int| 0 <= gi < c.gateways@.len() ==> raw_gateway_ok(#[trigger] c.gateways@[gi])
}

/// The defect a reported error stands for really occurs in the gateway.
pub open spec fn gateway_error_witnessed(g: RawGateway, e: ConfigError) -> bool {
    match e {
        ConfigError::DuplicateTargetId => raw_gateway_has_dup(g),
        ConfigError::DanglingTargetReference => raw_gateway_has_dangling(g),
        ConfigError::InvalidAddress => raw_gateway_has_bad_address(g),
        ConfigError::InvalidPattern => raw_gateway_has_bad_pattern(g),
        ConfigError::EmptyPeerList => raw_gateway_has_empty_peers(g),
    }
}

/// The defect a reported error stands for really occurs in the configuration.
pub open spec fn config_error_witnessed(c: RawConfig, e: ConfigError) -> bool {
    exists|gi: int|
        0 <= gi < c.gateways@.len() && gateway_error_witnessed(#[trigger] c.gateways@[gi], e)
}

/// A compiled address carries exactly the raw fields.
pub open spec fn address_matches_raw(a: Address, r: RawAddress) -> bool {
    &&& a.spec_host_or_path() == r.host_or_path@
    &&& a.spec_port() == r.port
    &&& a.spec_kind() == r.kind
}

/// The compiled policy mirrors the raw policy; weights come one per peer.
pub open spec fn policy_matches_raw(p: SelectionPolicy, t: RawTargetSet) -> bool {
    match t.policy {
        RawPolicy::RoundRobin => p is RoundRobin,
        RawPolicy::Weighted => p matches SelectionPolicy::Weighted(ws) && ws@ == t.peers@
            .map_values(|pr: RawPeer| pr.weight),
        RawPolicy::Random => p is Random,
        RawPolicy::LeastConnections => p is LeastConnections,
    }
}

/// A compiled target set mirrors the raw one.
pub open spec fn target_matches_raw(s: UpstreamTargetSet, t: RawTargetSet) -> bool {
    &&& s.id@ == t.id@
    &&& s.peers@.len() == t.peers@.len()
    &&& forall|i: int|
        0 <= i < t.peers@.len() ==> address_matches_raw(
            #[trigger] s.peers@[i],
            t.peers@[i].address,
        )
    &&& policy_matches_raw(s.policy, t)
}

/// A compiled rule mirrors the raw one; transforms are carried over as they
/// are.
pub open spec fn rule_matches_raw(m: MatchRule, r: RawMatchRule) -> bool {
    &&& predicate_matches_raw(m.predicate, r.predicate)
    &&& m.target_id@ == r.target_id@
    &&& m.priority == r.priority
    &&& m.transforms == r.transforms
}

/// A compiled gateway mirrors the raw one: same listener, same rules in
/// declaration order, same target sets.
pub open spec fn gateway_matches_raw(gd: GatewayDefinition, rg: RawGateway) -> bool {
    &&& address_matches_raw(gd.listener.bind_address, rg.listener.bind_address)
    &&& gd.listener.protocol == rg.listener.protocol
    &&& gd.route_table.rules@.len() == rg.rules@.len()
    &&& forall|r: int|
        0 <= r < rg.rules@.len() ==> rule_matches_raw(
            #[trigger] gd.route_table.rules@[r],
            rg.rules@[r],
        )
    &&& gd.targets@.len() == rg.targets@.len()
    &&& forall|k: int|
        0 <= k < rg.targets@.len() ==> target_matches_raw(
            #[trigger] gd.targets@[k],
            rg.targets@[k],
        )
}

/// A compiled snapshot mirrors the raw configuration, gateway by gateway.
pub open spec fn snapshot_matches_raw(s: ConfigSnapshot, c: RawConfig) -> bool {
    &&& s.gateways@.len() == c.gateways@.len()
    &&& forall|gi: int|
        0 <= gi < c.gateways@.len() ==> gateway_matches_raw(
            #[trigger] s.gateways@[gi],
            c.gateways@[gi],
        )
}

impl RawTargetSet {
    /// Validates and compiles one target set: rejects an empty peer list and
    /// any malformed address; weights are taken one per peer.
    pub fn compile(self) -> (res: Result<UpstreamTargetSet, ConfigError>)
        ensures
            res is Ok <==> raw_target_ok(self),
            res matches Ok(s) ==> s.wf() && target_matches_raw(s, self),
            res matches Err(e) ==> (e == ConfigError::EmptyPeerList && self.peers@.len() == 0) || (
            e == ConfigError::InvalidAddress && exists|i: int|
                0 <= i < self.peers@.len() && !raw_address_wf(
                    (#[trigger] self.peers@[i]).address,
                )),
    {
        if self.peers.len() == 0 {
            return Err(ConfigError::EmptyPeerList);
        }
        let n = self.peers.len();
        let mut peers: Vec<Address> = Vec::new();
        let mut weights: Vec<u64> = Vec::new();
        let mut i: usize = 0;
        #[verifier::loop_isolation(false)]
        while i < n
            invariant
                0 <= i <= n,
                peers@.len() == i,
                weights@.len() == i,
                forall|j: int|
                    0 <= j < i ==> address_matches_raw(
                        #[trigger] peers@[j],
                        self.peers@[j].address,
                    ) && peers@[j].wf(),
                forall|j: int| 0 <= j < i ==> weights@[j] == self.peers@[j].weight,
                forall|j: int| 0 <= j < i ==> raw_address_wf((#[trigger] self.peers@[j]).address),
            decreases n - i,
        {
            match Address::from_raw(&self.peers[i].address) {
                Ok(a) => {
                    peers.push(a);
                    weights.push(self.peers[i].weight);
                },
                Err(_) => {
                    proof {
                        assert(!raw_address_wf((#[trigger] self.peers@[i as int]).address));
                    }
                    return Err(ConfigError::InvalidAddress);
                },
            }
            i = i + 1;
        }
        let policy = match self.policy {
            RawPolicy::RoundRobin => SelectionPolicy::RoundRobin,
            RawPolicy::Weighted => SelectionPolicy::Weighted(weights),
            RawPolicy::Random => SelectionPolicy::Random,
            RawPolicy::LeastConnections => SelectionPolicy::LeastConnections,
        };
        let s = UpstreamTargetSet { id: self.id, peers, policy };
        proof {
            if self.policy is Weighted {
                assert(s.policy->Weighted_0@ =~= self.peers@.map_values(|pr: RawPeer| pr.weight));
            }
        }
        Ok(s)
    }
}

impl RawGateway {
    /// Validates and compiles one gateway: listener address, target sets with
    /// pairwise distinct ids, rule predicates, and no dangling target
    /// reference. Fails with a witness of a real defect, and succeeds exactly
    /// on defect-free gateways.
    pub fn compile(self) -> (res: Result<GatewayDefinition, ConfigError>)
        ensures
            res is Ok <==> raw_gateway_ok(self),
            res matches Ok(gd) ==> gd.wf() && gateway_matches_raw(gd, self),
            res matches Err(e) ==> gateway_error_witnessed(self, e),
    {
        let ghost rg = self;
        let bind_address = match Address::from_raw(&self.listener.bind_address) {
            Ok(a) => a,
            Err(_) => {
                return Err(ConfigError::InvalidAddress);
            },
        };
        let protocol = self.listener.protocol;
        // Target sets, with the duplicate-id check against what is built.
        let ghost rt = self.targets@;
        let mut rest_t = self.targets;
        let nt = rest_t.len();
        let mut targets: Vec<UpstreamTargetSet> = Vec::new();
        let mut k: usize = 0;
        proof {
            assert(rt.skip(0) =~= rt);
        }
        #[verifier::loop_isolation(false)]
        while rest_t.len() > 0
            invariant
                0 <= k <= nt,
                k + rest_t@.len() == nt,
                rest_t@ == rt.skip(k as int),
                targets@.len() == k,
                forall|j: int|
                    0 <= j < k ==> target_matches_raw(#[trigger] targets@[j], rt[j])
                        && targets@[j].wf() && raw_target_ok(rt[j]),
                forall|i: int, j: int| 0 <= i < j < k ==> rt[i].id@ != rt[j].id@,
            decreases rest_t@.len(),
        {
            proof {
                assert(rt.skip(k as int)[0] == rt[k as int]);
            }
            let t = rest_t.remove(0);
            let ghost t0 = t;
            proof {
                assert(rest_t@ =~= rt.skip(k as int).skip(1));
                assert(rt.skip(k as int).skip(1) =~= rt.skip(k as int + 1));
                assert(t0 == rt[k as int]);
            }
            // duplicate id?
            let mut j: usize = 0;
            #[verifier::loop_isolation(false)]
            while j < k
                invariant
                    0 <= j <= k,
                    k == targets@.len(),
                    forall|m: int| 0 <= m < j ==> (#[trigger] targets@[m]).id@ != t0.id@,
                decreases k - j,
            {
                if targets[j].id == t.id {
                    proof {
                        assert(rg.targets@[j as int].id@ == rg.targets@[k as int].id@);
                    }
                    return Err(ConfigError::DuplicateTargetId);
                }
                j = j + 1;
            }
            proof {
                assert forall|m: int| 0 <= m < k implies (#[trigger] rt[m]).id@ != rt[k as int].id@ by {
                    assert(targets@[m].id@ == rt[m].id@);
                    assert(targets@[m].id@ != t0.id@);
                }
            }
            match t.compile() {
                Ok(s) => {
                    targets.push(s);
                },
                Err(e) => {
                    proof {
                        if e == ConfigError::EmptyPeerList {
                            assert(rg.targets@[k as int].peers@.len() == 0);
                        } else {
                            let bad = choose|bi: int|
                                0 <= bi < t0.peers@.len() && !raw_address_wf(
                                    (#[trigger] t0.peers@[bi]).address,
                                );
                            assert(!raw_address_wf(
                                (rg.targets@[k as int]).peers@[bad].address,
                            ));
                        }
                    }
                    return Err(e);
                },
            }
            k = k + 1;
        }
        proof {
            assert(rt.skip(k as int) =~= Seq::<RawTargetSet>::empty());
            assert(k as int == rt.len());
        }
        // Rules: compile each predicate and check its target reference.
        let ghost rr = self.rules@;
        let mut rest_r = self.rules;
        let nr = rest_r.len();
        let mut rules: Vec<MatchRule> = Vec::new();
        let mut r: usize = 0;
        proof {
            assert(rr.skip(0) =~= rr);
        }
        #[verifier::loop_isolation(false)]
        while rest_r.len() > 0
            invariant
                0 <= r <= nr,
                r + rest_r@.len() == nr,
                rest_r@ == rr.skip(r as int),
                rules@.len() == r,
                targets@.len() == rt.len(),
                forall|j: int|
                    0 <= j < rt.len() ==> target_matches_raw(#[trigger] targets@[j], rt[j])
                        && targets@[j].wf(),
                forall|j: int|
                    0 <= j < r ==> rule_matches_raw(#[trigger] rules@[j], rr[j])
                        && raw_predicate_ok(rr[j].predicate),
                forall|j: int|
                    0 <= j < r ==> exists|m: int|
                        0 <= m < targets@.len() && (#[trigger] targets@[m]).id@ == (
                        #[trigger] rules@[j]).target_id@,
            decreases rest_r@.len(),
        {
            proof {
                assert(rr.skip(r as int)[0] == rr[r as int]);
            }
            let rule = rest_r.remove(0);
            proof {
                assert(rest_r@ =~= rr.skip(r as int).skip(1));
                assert(rr.skip(r as int).skip(1) =~= rr.skip(r as int + 1));
            }
            // dangling reference?
            let mut found = false;
            let mut j: usize = 0;
            #[verifier::loop_isolation(false)]
            while j < targets.len()
                invariant
                    0 <= j <= targets@.len(),
                    found ==> exists|m: int|
                        0 <= m < targets@.len() && (#[trigger] targets@[m]).id@
                            == rule.target_id@,
                    !found ==> forall|m: int|
                        0 <= m < j ==> (#[trigger] targets@[m]).id@ != rule.target_id@,
                decreases targets@.len() - j,
            {
                if targets[j].id == rule.target_id {
                    found = true;
                }
                j = j + 1;
            }
            if !found {
                proof {
                    assert forall|m: int|
                        0 <= m < rt.len() implies (#[trigger] rt[m]).id@ != rr[r as int].target_id@ by {
                        assert(targets@[m].id@ == rt[m].id@);
                    }
                    assert(!raw_target_id_exists(rg, rr[r as int].target_id@));
                    assert(rg.rules@[r as int].target_id@ == rr[r as int].target_id@);
                }
                return Err(ConfigError::DanglingTargetReference);
            }
            match rule.predicate.compile() {
                Ok(p) => {
                    rules.push(
                        MatchRule {
                            predicate: p,
                            target_id: rule.target_id,
                            priority: rule.priority,
                            transforms: rule.transforms,
                        },
                    );
                },
                Err(_) => {
                    proof {
                        assert(!raw_predicate_ok((#[trigger] rg.rules@[r as int]).predicate));
                    }
                    return Err(ConfigError::InvalidPattern);
                },
            }
            r = r + 1;
        }
        proof {
            assert(rr.skip(r as int) =~= Seq::<RawMatchRule>::empty());
            assert(r as int == rr.len());
        }
        let gd = GatewayDefinition {
            listener: DownstreamListenerSpec { bind_address, protocol },
            route_table: RouteTable { rules },
            targets,
        };
        proof {
            assert forall|i: int, j: int|
                0 <= i < j < gd.targets@.len() implies (#[trigger] gd.targets@[i].id@) != (
            #[trigger] gd.targets@[j].id@) by {
                assert(gd.targets@[i].id@ == rt[i].id@);
                assert(gd.targets@[j].id@ == rt[j].id@);
            }
            assert forall|x: int|
                0 <= x < gd.route_table.rules@.len() implies gd.target_exists(
                (#[trigger] gd.route_table.rules@[x]).target_id@,
            ) by {
                assert(exists|m: int|
                    0 <= m < targets@.len() && (#[trigger] targets@[m]).id@
                        == rules@[x].target_id@);
            }
            assert(gd.wf());
            // No defect is present when every check passed.
            assert(!raw_gateway_has_dup(rg));
            assert forall|x: int|
                0 <= x < rg.rules@.len() implies raw_target_id_exists(
                rg,
                (#[trigger] rg.rules@[x]).target_id@,
            ) by {
                let m = choose|m: int|
                    0 <= m < targets@.len() && (#[trigger] targets@[m]).id@
                        == rules@[x].target_id@;
                assert(rt[m].id@ == targets@[m].id@);
                assert(rg.targets@[m].id@ == rg.rules@[x].target_id@);
            }
            assert(!raw_gateway_has_dangling(rg));
            assert forall|kk: int|
                0 <= kk < rg.targets@.len() implies raw_target_ok(#[trigger] rg.targets@[kk]) by {
                assert(target_matches_raw(targets@[kk], rt[kk]));
                assert(raw_target_ok(rt[kk]));
            }
            assert(!raw_gateway_has_bad_address(rg));
            assert(!raw_gateway_has_empty_peers(rg));
            assert forall|x: int|
                0 <= x < rg.rules@.len() implies raw_predicate_ok(
                (#[trigger] rg.rules@[x]).predicate,
            ) by {
                assert(rule_matches_raw(rules@[x], rr[x]));
                assert(raw_predicate_ok(rr[x].predicate));
            }
            assert(!raw_gateway_has_bad_pattern(rg));
        }
        Ok(gd)
    }
}

/// Validates and compiles a whole raw configuration into a snapshot with the
/// given version: all or nothing, never a partial application.
pub fn compile_config(raw: RawConfig, version: u64) -> (res: Result<ConfigSnapshot, ConfigError>)
    ensures
        res is Ok <==> raw_config_ok(raw),
        res matches Ok(s) ==> s.wf() && s.version == version && snapshot_matches_raw(s, raw),
        res matches Err(e) ==> config_error_witnessed(raw, e),
{
    let ghost rc = raw.gateways@;
    let mut rest = raw.gateways;
    let n = rest.len();
    let mut gateways: Vec<GatewayDefinition> = Vec::new();
    let mut i: usize = 0;
    proof {
        assert(rc.skip(0) =~= rc);
    }
    #[verifier::loop_isolation(false)]
    while rest.len() > 0
        invariant
            0 <= i <= n,
            i + rest@.len() == n,
            rest@ == rc.skip(i as int),
            gateways@.len() == i,
            forall|j: int|
                0 <= j < i ==> gateway_matches_raw(#[trigger] gateways@[j], rc[j])
                    && gateways@[j].wf() && raw_gateway_ok(rc[j]),
        decreases rest@.len(),
    {
        proof {
            assert(rc.skip(i as int)[0] == rc[i as int]);
        }
        let g = rest.remove(0);
        proof {
            assert(rest@ =~= rc.skip(i as int).skip(1));
            assert(rc.skip(i as int).skip(1) =~= rc.skip(i as int + 1));
        }
        match g.compile() {
            Ok(gd) => {
                gateways.push(gd);
            },
            Err(e) => {
                proof {
                    assert(gateway_error_witnessed(#[trigger] raw.gateways@[i as int], e));
                    assert(!raw_gateway_ok(raw.gateways@[i as int]));
                }
                return Err(e);
            },
        }
        i = i + 1;
    }
    proof {
        assert(rc.skip(i as int) =~= Seq::<RawGateway>::empty());
        assert(i as int == rc.len());
        assert forall|gi: int|
            0 <= gi < raw.gateways@.len() implies raw_gateway_ok(#[trigger] raw.gateways@[gi]) by {
            assert(gateway_matches_raw(gateways@[gi], rc[gi]));
            assert(raw_gateway_ok(rc[gi]));
        }
    }
    Ok(ConfigSnapshot { gateways, version })
}

} // verus!
