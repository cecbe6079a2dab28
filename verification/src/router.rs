use vstd::prelude::*;

use crate::bytes_eq;
use crate::bytes_eq_ignore_case;
use crate::bytes_is_prefix;
use crate::eq_ignore_ascii_case;
use crate::pattern::CompiledPattern;
use crate::pattern::pattern_accepts;
use crate::request::RequestView;
use crate::request::header_lookup;
use crate::transform::Transform;

verus! {

/// One routing predicate: the closed matcher vocabulary, compiled once at
/// load time and evaluated uniformly per request.
#[derive(Debug)]
pub enum Predicate {
    /// Exact, case-insensitive match on the request method.
    MethodEquals(Vec<u8>),
    /// Byte-prefix match on the request path; not an exact-path match.
    PathPrefix(Vec<u8>),
    /// Match of a precompiled pattern against the request path.
    PathPattern(CompiledPattern),
    /// Case-insensitive header-name lookup, first occurrence wins, and the
    /// value must be byte-equal.
    HeaderEquals(Vec<u8>, Vec<u8>),
    /// Case-insensitive header-name lookup succeeds.
    HeaderPresent(Vec<u8>),
    /// Every child holds; empty list always holds (a catch-all).
    And(Vec<Predicate>),
    /// Some child holds; empty list never holds.
    Or(Vec<Predicate>),
    /// The child does not hold.
    Not(Box<Predicate>),
}

/// Every predicate of the sequence holds; an empty sequence holds.
pub open spec fn all_satisfied(ps: Seq<Predicate>, req: RequestView) -> bool
    decreases ps, 0int,
{
    ps.len() == 0 || (ps[0].satisfied_by(req) && all_satisfied(ps.skip(1), req))
}

/// Some predicate of the sequence holds; an empty sequence does not hold.
pub open spec fn any_satisfied(ps: Seq<Predicate>, req: RequestView) -> bool
    decreases ps, 0int,
{
    ps.len() > 0 && (ps[0].satisfied_by(req) || any_satisfied(ps.skip(1), req))
}

/// Skipping a prefix of satisfied predicates does not change whether all are
/// satisfied.
pub proof fn lemma_all_satisfied_skip(ps: Seq<Predicate>, req: RequestView, i: int)
    requires
        0 <= i <= ps.len(),
        forall|j: int| 0 <= j < i ==> #[trigger] ps[j].satisfied_by(req),
    ensures
        all_satisfied(ps, req) == all_satisfied(ps.skip(i), req),
    decreases i,
{
    if i > 0 {
        assert forall|j: int| 0 <= j < i - 1 implies #[trigger] ps.skip(1)[j].satisfied_by(req) by {
            assert(ps.skip(1)[j] == ps[j + 1]);
        }
        assert(ps.skip(1).skip(i - 1) =~= ps.skip(i));
        lemma_all_satisfied_skip(ps.skip(1), req, i - 1);
        assert(ps[0].satisfied_by(req));
    } else {
        assert(ps.skip(0) =~= ps);
    }
}

/// Skipping a prefix of unsatisfied predicates does not change whether any is
/// satisfied.
pub proof fn lemma_any_satisfied_skip(ps: Seq<Predicate>, req: RequestView, i: int)
    requires
        0 <= i <= ps.len(),
        forall|j: int| 0 <= j < i ==> !#[trigger] ps[j].satisfied_by(req),
    ensures
        any_satisfied(ps, req) == any_satisfied(ps.skip(i), req),
    decreases i,
{
    if i > 0 {
        assert forall|j: int| 0 <= j < i - 1 implies !#[trigger] ps.skip(1)[j].satisfied_by(req) by {
            assert(ps.skip(1)[j] == ps[j + 1]);
        }
        assert(ps.skip(1).skip(i - 1) =~= ps.skip(i));
        lemma_any_satisfied_skip(ps.skip(1), req, i - 1);
        assert(!ps[0].satisfied_by(req));
    } else {
        assert(ps.skip(0) =~= ps);
    }
}

impl Predicate {
    /// What it means for a request to satisfy the predicate.
    pub open spec fn satisfied_by(self, req: RequestView) -> bool
        decreases self, 1int,
    {
        match self {
            Predicate::MethodEquals(m) => eq_ignore_ascii_case(m@, req.method@),
            Predicate::PathPrefix(p) => p@.is_prefix_of(req.path@),
            Predicate::PathPattern(cp) => pattern_accepts(cp.pat(), req.path@),
            Predicate::HeaderEquals(n, v) => header_lookup(req.headers@, n@) == Some(v@),
            Predicate::HeaderPresent(n) => header_lookup(req.headers@, n@) is Some,
            Predicate::And(ps) => all_satisfied(ps@, req),
            Predicate::Or(ps) => any_satisfied(ps@, req),
            Predicate::Not(p) => !p.satisfied_by(req),
        }
    }

    /// Evaluates the predicate against a request; `And` and `Or`
    /// short-circuit left to right.
    pub fn eval(&self, req: &RequestView) -> (r: bool)
        ensures
            r == self.satisfied_by(*req),
        decreases *self,
    {
        match self {
            Predicate::MethodEquals(m) => bytes_eq_ignore_case(m.as_slice(), req.method.as_slice()),
            Predicate::PathPrefix(p) => bytes_is_prefix(p.as_slice(), req.path.as_slice()),
            Predicate::PathPattern(cp) => cp.is_match(req.path.as_slice()),
            Predicate::HeaderEquals(n, v) => match req.lookup_header(n.as_slice()) {
                Some(val) => bytes_eq(val.as_slice(), v.as_slice()),
                None => false,
            },
            Predicate::HeaderPresent(n) => req.lookup_header(n.as_slice()).is_some(),
            Predicate::And(ps) => {
                let mut i: usize = 0;
                while i < ps.len()
                    invariant
                        0 <= i <= ps@.len(),
                        *self == Predicate::And(*ps),
                        forall|j: int| 0 <= j < i ==> #[trigger] ps@[j].satisfied_by(*req),
                    decreases ps@.len() - i,
                {
                    proof {
                        assert(decreases_to!(*self => self->And_0@[i as int]));
                        assert(self->And_0@[i as int] == ps@[i as int]);
                    }
                    if !ps[i].eval(req) {
                        proof {
                            lemma_all_satisfied_skip(ps@, *req, i as int);
                            assert(ps@.skip(i as int)[0] == ps@[i as int]);
                        }
                        return false;
                    }
                    i = i + 1;
                }
                proof {
                    lemma_all_satisfied_skip(ps@, *req, ps@.len() as int);
                }
                true
            },
            Predicate::Or(ps) => {
                let mut i: usize = 0;
                while i < ps.len()
                    invariant
                        0 <= i <= ps@.len(),
                        *self == Predicate::Or(*ps),
                        forall|j: int| 0 <= j < i ==> !#[trigger] ps@[j].satisfied_by(*req),
                    decreases ps@.len() - i,
                {
                    proof {
                        assert(decreases_to!(*self => self->Or_0@[i as int]));
                        assert(self->Or_0@[i as int] == ps@[i as int]);
                    }
                    if ps[i].eval(req) {
                        proof {
                            lemma_any_satisfied_skip(ps@, *req, i as int);
                            assert(ps@.skip(i as int)[0] == ps@[i as int]);
                        }
                        return true;
                    }
                    i = i + 1;
                }
                proof {
                    lemma_any_satisfied_skip(ps@, *req, ps@.len() as int);
                }
                false
            },
            Predicate::Not(p) => !p.eval(req),
        }
    }
}

/// One routing rule: a predicate paired with the id of the upstream target
/// set it forwards to, a priority, and the transforms applied on the way.
#[derive(Debug)]
pub struct MatchRule {
    pub predicate: Predicate,
    pub target_id: String,
    pub priority: u64,
    pub transforms: Vec<Transform>,
}

/// An ordered collection of match rules; evaluation order is priority
/// descending, ties broken by declaration order, and the first satisfied
/// predicate wins.
#[derive(Debug)]
pub struct RouteTable {
    pub rules: Vec<MatchRule>,
}

impl RouteTable {
    /// Rule `i` wins for `req`: its predicate is satisfied and every other
    /// satisfied rule either has lower priority or came later in declaration
    /// order.
    pub open spec fn wins(&self, req: RequestView, i: int) -> bool {
        &&& 0 <= i < self.rules@.len()
        &&& self.rules@[i].predicate.satisfied_by(req)
        &&& forall|j: int|
            0 <= j < self.rules@.len() && #[trigger] self.rules@[j].predicate.satisfied_by(req)
                ==> self.rules@[j].priority < self.rules@[i].priority
                    || (self.rules@[j].priority == self.rules@[i].priority && j >= i)
    }

    /// Walks the rules and returns the winning rule's index: the rule with
    /// the highest priority among those whose predicate is satisfied, ties
    /// broken by declaration order; `None` exactly when no rule matches.
    pub fn evaluate(&self, req: &RequestView) -> (r: Option<usize>)
        ensures
            match r {
                Some(i) => self.wins(*req, i as int),
                None => forall|j: int|
                    0 <= j < self.rules@.len()
                        ==> !#[trigger] self.rules@[j].predicate.satisfied_by(*req),
            },
    {
        let n = self.rules.len();
        let mut best: Option<usize> = None;
        let mut i: usize = 0;
        while i < n
            invariant
                0 <= i <= n,
                n == self.rules@.len(),
                match best {
                    Some(b) => {
                        &&& 0 <= b < i
                        &&& self.rules@[b as int].predicate.satisfied_by(*req)
                        &&& forall|j: int|
                            0 <= j < i && #[trigger] self.rules@[j].predicate.satisfied_by(*req)
                                ==> self.rules@[j].priority < self.rules@[b as int].priority
                                    || (self.rules@[j].priority == self.rules@[b as int].priority
                                        && j >= b)
                    },
                    None => forall|j: int|
                        0 <= j < i ==> !#[trigger] self.rules@[j].predicate.satisfied_by(*req),
                },
            decreases n - i,
        {
            if self.rules[i].predicate.eval(req) {
                match best {
                    Some(b) => {
                        if self.rules[i].priority > self.rules[b].priority {
                            best = Some(i);
                        }
                    },
                    None => {
                        best = Some(i);
                    },
                }
            }
            i = i + 1;
        }
        best
    }

    /// The winning rule itself — its target id and transforms are what the
    /// pipeline consumes; `None` exactly when no rule matches, which the
    /// caller treats as "no route", not as a fault.
    pub fn route<'a>(&'a self, req: &RequestView) -> (r: Option<&'a MatchRule>)
        ensures
            match r {
                Some(m) => exists|i: int| self.wins(*req, i) && *m == self.rules@[i],
                None => forall|j: int|
                    0 <= j < self.rules@.len()
                        ==> !(#[trigger] self.rules@[j]).predicate.satisfied_by(*req),
            },
    {
        match self.evaluate(req) {
            Some(i) => Some(&self.rules[i]),
            None => None,
        }
    }

    /// The rule at a valid index.
    pub fn rule(&self, i: usize) -> (r: &MatchRule)
        requires
            i < self.rules@.len(),
        ensures
            *r == self.rules@[i as int],
    {
        &self.rules[i]
    }

    /// At most one rule wins for any request.
    pub proof fn lemma_winner_unique(&self, req: RequestView, i: int, j: int)
        requires
            self.wins(req, i),
            self.wins(req, j),
        ensures
            i == j,
    {
    }
}

} // verus!
