//! The dependency graph: which services must come before which, and the order
//! in which to start them.

use crate::config::{DependencyConfig, DependencyType};
use crate::text::{comes_before, pairs, position, same, text_lt, text_lt_total, texts, Text};
use vstd::prelude::*;

verus! {

/// What a dependency graph records, in the order in which it was told.
#[verifier::ext_equal]
pub struct GraphModel {
    /// The services, each once.
    pub services: Seq<Text>,
    /// `(service, dep)`: the service starts after the dependency.
    pub after: Seq<(Text, Text)>,
    /// `(service, dep)`: the service starts before the dependency.
    pub before: Seq<(Text, Text)>,
    /// `(service, dep)`: the service wants the dependency.
    pub wants: Seq<(Text, Text)>,
    /// `(service, dep)`: the service cannot do without the dependency; each
    /// pair once.
    pub required: Seq<(Text, Text)>,
}

/// `s` with `x` at the end, unless it is there already.
pub open spec fn inserted<A>(s: Seq<A>, x: A) -> Seq<A> {
    if s.contains(x) {
        s
    } else {
        s.push(x)
    }
}

/// What the dependencies of one service are recorded as.
pub open spec fn with_dependency(
    g: GraphModel,
    from: Text,
    to: Text,
    kind: DependencyType,
    required: bool,
) -> GraphModel {
    GraphModel {
        services: g.services,
        after: if kind == DependencyType::After {
            g.after.push((from, to))
        } else {
            g.after
        },
        before: if kind == DependencyType::Before {
            g.before.push((from, to))
        } else {
            g.before
        },
        wants: if kind == DependencyType::Wants {
            g.wants.push((from, to))
        } else {
            g.wants
        },
        required: if required {
            inserted(g.required, (from, to))
        } else {
            g.required
        },
    }
}

/// The second halves of the pairs that begin with `key`, in order.
pub open spec fn targets_of(edges: Seq<(Text, Text)>, key: Text) -> Seq<Text>
    decreases edges.len(),
{
    if edges.len() == 0 {
        Seq::empty()
    } else {
        let rest = targets_of(edges.drop_last(), key);
        if edges.last().0 == key {
            rest.push(edges.last().1)
        } else {
            rest
        }
    }
}

/// The required pairs whose service is available and whose dependency is not.
pub open spec fn missing_pairs(required: Seq<(Text, Text)>, available: Seq<Text>) -> Seq<
    (Text, Text),
>
    decreases required.len(),
{
    if required.len() == 0 {
        Seq::empty()
    } else {
        let rest = missing_pairs(required.drop_last(), available);
        let p = required.last();
        if available.contains(p.0) && !available.contains(p.1) {
            rest.push(p)
        } else {
            rest
        }
    }
}

impl GraphModel {
    /// A graph that records nothing.
    pub open spec fn empty() -> GraphModel {
        GraphModel {
            services: Seq::empty(),
            after: Seq::empty(),
            before: Seq::empty(),
            wants: Seq::empty(),
            required: Seq::empty(),
        }
    }

    /// Whether `a` has to come before `b`. Wishes order nothing.
    pub open spec fn precedes(self, a: Text, b: Text) -> bool {
        self.after.contains((b, a)) || self.before.contains((a, b))
    }

    /// Whether `order` runs through the services once each, never one of them
    /// before another that has to precede it.
    pub open spec fn is_start_order(self, services: Seq<Text>, order: Seq<Text>) -> bool {
        &&& order.len() == services.len()
        &&& order.no_duplicates()
        &&& forall|n: Text| order.contains(n) <==> services.contains(n)
        &&& forall|i: int, j: int|
            0 <= i < order.len() && 0 <= j < order.len() && self.precedes(order[i], order[j])
                ==> i < j
    }

    /// Whether `n` is a service that can come next once `done` have come.
    pub open spec fn available(self, services: Seq<Text>, done: Seq<Text>, n: Text) -> bool {
        &&& services.contains(n)
        &&& !done.contains(n)
        &&& forall|m: Text|
            services.contains(m) && #[trigger] self.precedes(m, n) ==> done.contains(m)
    }

    /// Whether `n` is the least name of those that can come next.
    pub open spec fn is_next(self, services: Seq<Text>, done: Seq<Text>, n: Text) -> bool {
        &&& self.available(services, done, n)
        &&& forall|m: Text|
            #[trigger] self.available(services, done, m) && m != n ==> text_lt(n, m)
    }

    /// Whether the chain leads from a service, each before the next, back to
    /// it.
    pub open spec fn is_circle(self, services: Seq<Text>, chain: Seq<Text>) -> bool {
        &&& chain.len() >= 2
        &&& chain[0] == chain[chain.len() - 1]
        &&& forall|i: int| 0 <= i < chain.len() ==> services.contains(#[trigger] chain[i])
        &&& forall|i: int, j: int|
            0 <= i && j == i + 1 && j < chain.len() ==> self.precedes(
                #[trigger] chain[i],
                #[trigger] chain[j],
            )
    }

    /// Whether at every place of `order` stands the least name that can come
    /// there.
    pub open spec fn picks_least(self, services: Seq<Text>, order: Seq<Text>) -> bool {
        forall|i: int|
            0 <= i < order.len() ==> self.is_next(services, order.take(i), #[trigger] order[i])
    }
}

/// The services of the system and the dependencies between them.
#[derive(Debug)]
pub struct DepGraph {
    services: Vec<String>,
    edges_after: Vec<(String, String)>,
    edges_before: Vec<(String, String)>,
    edges_wants: Vec<(String, String)>,
    required_deps: Vec<(String, String)>,
}

impl View for DepGraph {
    type V = GraphModel;

    closed spec fn view(&self) -> GraphModel {
        GraphModel {
            services: texts(self.services@),
            after: pairs(self.edges_after@),
            before: pairs(self.edges_before@),
            wants: pairs(self.edges_wants@),
            required: pairs(self.required_deps@),
        }
    }
}

impl DepGraph {
    #[verifier::type_invariant]
    spec fn no_repeats(self) -> bool {
        &&& texts(self.services@).no_duplicates()
        &&& pairs(self.required_deps@).no_duplicates()
    }

    pub fn new() -> (r: Self)
        ensures
            r@ == GraphModel::empty(),
    {
        let g = DepGraph {
            services: Vec::new(),
            edges_after: Vec::new(),
            edges_before: Vec::new(),
            edges_wants: Vec::new(),
            required_deps: Vec::new(),
        };
        assert(g@ =~= GraphModel::empty());
        g
    }

    /// The names of the services, each once, in the order in which they came.
    pub fn services(&self) -> (r: &Vec<String>)
        ensures
            texts(r@) == self@.services,
            texts(r@).no_duplicates(),
    {
        proof {
            use_type_invariant(self);
        }
        &self.services
    }

    pub fn add_service(&mut self, name: String)
        ensures
            final(self)@ == (GraphModel {
                services: inserted(old(self)@.services, name@),
                ..old(self)@
            }),
    {
        proof {
            use_type_invariant(&*self);
        }
        match position(&self.services, name.as_str()) {
            Some(_) => {},
            None => {
                let mut services: Vec<String> = Vec::new();
                std::mem::swap(&mut services, &mut self.services);
                let ghost before = texts(services@);
                services.push(name);
                assert(texts(services@) =~= before.push(name@));
                self.services = services;
            },
        }
        assert(self@ =~= (GraphModel {
            services: inserted(old(self)@.services, name@),
            ..old(self)@
        }));
    }

    pub fn add_dependency(&mut self, from: &str, dep: &DependencyConfig)
        ensures
            final(self)@ == with_dependency(
                old(self)@,
                from@,
                dep.service@,
                dep.kind,
                dep.required,
            ),
    {
        proof {
            use_type_invariant(&*self);
        }
        let ghost start = self@;
        let mut wants: Vec<(String, String)> = Vec::new();
        let mut after: Vec<(String, String)> = Vec::new();
        let mut before: Vec<(String, String)> = Vec::new();
        let mut required: Vec<(String, String)> = Vec::new();
        std::mem::swap(&mut wants, &mut self.edges_wants);
        std::mem::swap(&mut after, &mut self.edges_after);
        std::mem::swap(&mut before, &mut self.edges_before);
        std::mem::swap(&mut required, &mut self.required_deps);
        let pair = (from.to_string(), dep.service.clone());
        let ghost p = (from@, dep.service@);
        match dep.kind {
            DependencyType::After => {
                after.push(pair);
                assert(pairs(after@) =~= start.after.push(p));
            },
            DependencyType::Before => {
                before.push(pair);
                assert(pairs(before@) =~= start.before.push(p));
            },
            DependencyType::Wants => {
                wants.push(pair);
                assert(pairs(wants@) =~= start.wants.push(p));
            },
        }
        if dep.required {
            if !has_pair(&required, from, dep.service.as_str()) {
                required.push((from.to_string(), dep.service.clone()));
                assert(pairs(required@) =~= start.required.push(p));
            }
        }
        self.edges_wants = wants;
        self.edges_after = after;
        self.edges_before = before;
        self.required_deps = required;
        assert(self@ =~= with_dependency(start, from@, dep.service@, dep.kind, dep.required));
    }

    /// The services that `service` wants, in the order in which it named them.
    pub fn get_wanted_services(&self, service: &str) -> (r: Vec<String>)
        ensures
            texts(r@) == targets_of(self@.wants, service@),
    {
        let mut out: Vec<String> = Vec::new();
        let mut i: usize = 0;
        let ghost edges = pairs(self.edges_wants@);
        assert(edges.take(0) =~= Seq::empty());
        assert(texts(out@) =~= targets_of(edges.take(0), service@));
        while i < self.edges_wants.len()
            invariant
                i <= self.edges_wants@.len(),
                edges == pairs(self.edges_wants@),
                texts(out@) == targets_of(edges.take(i as int), service@),
            decreases self.edges_wants@.len() - i,
        {
            let ghost was = texts(out@);
            assert(edges.take(i + 1).drop_last() =~= edges.take(i as int));
            assert(edges.take(i + 1).last() == edges[i as int]);
            if same(self.edges_wants[i].0.as_str(), service) {
                out.push(self.edges_wants[i].1.clone());
                assert(texts(out@) =~= was.push(edges[i as int].1));
            }
            i += 1;
        }
        assert(edges.take(i as int) =~= edges);
        out
    }

    /// The required dependencies that `available` lacks, for the services
    /// that it holds: pairs of a service and what it misses.
    pub fn get_missing_required(&self, available: &Vec<String>) -> (r: Vec<(String, String)>)
        ensures
            pairs(r@) == missing_pairs(self@.required, texts(available@)),
            pairs(r@).no_duplicates(),
            forall|p: (Text, Text)|
                #[trigger] pairs(r@).contains(p) <==> {
                    &&& self@.required.contains(p)
                    &&& texts(available@).contains(p.0)
                    &&& !texts(available@).contains(p.1)
                },
    {
        proof {
            use_type_invariant(self);
        }
        let mut out: Vec<(String, String)> = Vec::new();
        let mut i: usize = 0;
        let ghost req = pairs(self.required_deps@);
        let ghost avail = texts(available@);
        assert(req.take(0) =~= Seq::empty());
        assert(pairs(out@) =~= missing_pairs(req.take(0), avail));
        while i < self.required_deps.len()
            invariant
                i <= self.required_deps@.len(),
                req == pairs(self.required_deps@),
                avail == texts(available@),
                pairs(out@) == missing_pairs(req.take(i as int), avail),
            decreases self.required_deps@.len() - i,
        {
            let ghost was = pairs(out@);
            assert(req.take(i + 1).drop_last() =~= req.take(i as int));
            assert(req.take(i + 1).last() == req[i as int]);
            let p = &self.required_deps[i];
            let here = position(available, p.0.as_str()).is_some();
            let there = position(available, p.1.as_str()).is_some();
            if here && !there {
                out.push((p.0.clone(), p.1.clone()));
                assert(pairs(out@) =~= was.push(req[i as int]));
            }
            i += 1;
        }
        assert(req.take(i as int) =~= req);
        proof {
            lemma_missing_pairs(req, avail);
        }
        out
    }

    /// The order in which to start `services`: at each place the least name
    /// of those whose predecessors have all come. Fails where no order
    /// exists, which is where the dependencies run in a circle or a service
    /// is listed twice.
    pub fn resolve_order(&self, services: &[String]) -> (r: Result<Vec<String>, String>)
        ensures
            match r {
                Ok(order) => {
                    &&& self@.is_start_order(texts(services@), texts(order@))
                    &&& self@.picks_least(texts(services@), texts(order@))
                },
                Err(message) => {
                    &&& message@ == "dependency cycle detected"@
                    &&& forall|order: Seq<Text>|
                        !#[trigger] self@.is_start_order(texts(services@), order)
                    &&& texts(services@).no_duplicates() ==> exists|chain: Seq<Text>| #[trigger]
                        self@.is_circle(texts(services@), chain)
                },
            },
    {
        let ghost g = self@;
        let ghost wanted = texts(services@);
        let names = distinct(services);
        let ghost ns = texts(names@);
        let edges = self.edges_among(&names);
        let n = names.len();
        let mut emitted: Vec<bool> = Vec::new();
        let mut k: usize = 0;
        while k < n
            invariant
                k <= n,
                emitted@.len() == k,
                forall|j: int| 0 <= j < k ==> !emitted@[j],
            decreases n - k,
        {
            emitted.push(false);
            k += 1;
        }
        let mut done: Vec<String> = Vec::new();
        loop
            invariant
                g == self@,
                wanted == texts(services@),
                ns == texts(names@),
                n == names@.len(),
                ns.no_duplicates(),
                forall|x: Text| ns.contains(x) <==> wanted.contains(x),
                edges_match(edges@, ns, g),
                emitted@.len() == n,
                forall|i: int|
                    0 <= i < n ==> (#[trigger] emitted@[i] <==> texts(done@).contains(ns[i])),
                texts(done@).no_duplicates(),
                forall|x: Text| #[trigger] texts(done@).contains(x) ==> wanted.contains(x),
                g.picks_least(wanted, texts(done@)),
                done@.len() <= n,
            ensures
                g.picks_least(wanted, texts(done@)),
                texts(done@).no_duplicates(),
                forall|x: Text| #[trigger] texts(done@).contains(x) ==> wanted.contains(x),
                forall|x: Text| !#[trigger] g.available(wanted, texts(done@), x),
            decreases n - done@.len(),
        {
            let ghost d = texts(done@);
            let blocked = blocked_by(&edges, &emitted);
            assert forall|i: int| 0 <= i < n implies (g.available(wanted, d, ns[i]) <==> !emitted@[i]
                && !blocked@[i]) by {
                lemma_available(g, wanted, ns, d, edges@, emitted@, blocked@, i);
            }
            match least_free(&names, &emitted, &blocked) {
                None => {
                    assert forall|x: Text| !#[trigger] g.available(wanted, d, x) by {
                        if g.available(wanted, d, x) {
                            assert(ns.contains(x));
                            let i = choose|i: int| 0 <= i < ns.len() && ns[i] == x;
                            assert(g.available(wanted, d, ns[i]));
                            assert(emitted@[i] || blocked@[i]);
                        }
                    }
                    break ;
                },
                Some(i) => {
                    done.push(names[i].clone());
                    let ghost d2 = texts(done@);
                    assert(d2 =~= d.push(ns[i as int]));
                    assert(g.available(wanted, d, ns[i as int]));
                    assert(!d.contains(ns[i as int]));
                    emitted.set(i, true);
                    proof {
                        assert(g.is_next(wanted, d, ns[i as int])) by {
                            assert forall|m: Text| #[trigger]
                                g.available(wanted, d, m) && m != ns[i as int] implies text_lt(
                                ns[i as int],
                                m,
                            ) by {
                                assert(ns.contains(m));
                                let j = choose|j: int| 0 <= j < ns.len() && ns[j] == m;
                                assert(g.available(wanted, d, ns[j]));
                                text_lt_total(ns[i as int], m);
                            }
                        }
                        lemma_push_next(g, wanted, d, ns[i as int]);
                        assert forall|x: Text| #[trigger] d2.contains(x) implies wanted.contains(
                            x,
                        ) by {
                            let j = choose|j: int| 0 <= j < d2.len() && d2[j] == x;
                            if j < d.len() {
                                assert(d[j] == x);
                                assert(d.contains(x));
                            }
                        }
                        assert forall|j: int| 0 <= j < n implies (#[trigger] emitted@[j]
                            <==> d2.contains(ns[j])) by {
                            if j == i {
                                assert(d2[d.len() as int] == ns[i as int]);
                            } else {
                                assert(ns[j] != ns[i as int]);
                                if d.contains(ns[j]) {
                                    let p = choose|p: int| 0 <= p < d.len() && d[p] == ns[j];
                                    assert(d2[p] == ns[j]);
                                }
                                if d2.contains(ns[j]) {
                                    let p = choose|p: int| 0 <= p < d2.len() && d2[p] == ns[j];
                                    assert(p < d.len());
                                    assert(d[p] == ns[j]);
                                }
                            }
                        }
                        lemma_no_more_than(d2, ns);
                    }
                },
            }
        }
        let ghost d = texts(done@);
        if done.len() != services.len() {
            proof {
                lemma_no_more_than(d, wanted);
                assert forall|order: Seq<Text>| !#[trigger] g.is_start_order(wanted, order) by {
                    if g.is_start_order(wanted, order) {
                        lemma_stuck(g, wanted, d, order, order.len() as int);
                        assert(order.take(order.len() as int) =~= order);
                        lemma_no_more_than(order, d);
                    }
                }
                if wanted.no_duplicates() {
                    lemma_stuck_in_circle(g, wanted, d);
                }
            }
            return Err("dependency cycle detected".to_string());
        }
        proof {
            lemma_complete(g, wanted, d);
        }
        Ok(done)
    }

    /// The ordering edges between the given names, as pairs of positions.
    fn edges_among(&self, names: &Vec<String>) -> (r: Vec<(usize, usize)>)
        requires
            texts(names@).no_duplicates(),
        ensures
            edges_match(r@, texts(names@), self@),
    {
        let mut out: Vec<(usize, usize)> = Vec::new();
        append_edges(&self.edges_after, names, true, &mut out);
        append_edges(&self.edges_before, names, false, &mut out);
        out
    }
}

impl Clone for DepGraph {
    fn clone(&self) -> (r: Self)
        ensures
            r@ == self@,
    {
        proof {
            use_type_invariant(self);
        }
        DepGraph {
            services: self.services.clone(),
            edges_after: copy_pairs(&self.edges_after),
            edges_before: copy_pairs(&self.edges_before),
            edges_wants: copy_pairs(&self.edges_wants),
            required_deps: copy_pairs(&self.required_deps),
        }
    }
}

impl Default for DepGraph {
    fn default() -> (r: Self)
        ensures
            r@ == GraphModel::empty(),
    {
        DepGraph::new()
    }
}

fn copy_pairs(list: &Vec<(String, String)>) -> (r: Vec<(String, String)>)
    ensures
        r@ == list@,
{
    let mut out: Vec<(String, String)> = Vec::new();
    let mut i: usize = 0;
    while i < list.len()
        invariant
            i <= list@.len(),
            out@ == list@.take(i as int),
        decreases list@.len() - i,
    {
        out.push((list[i].0.clone(), list[i].1.clone()));
        i += 1;
    }
    out
}

/// Whether `list` holds the pair.
fn has_pair(list: &Vec<(String, String)>, a: &str, b: &str) -> (r: bool)
    ensures
        r == pairs(list@).contains((a@, b@)),
{
    let mut i: usize = 0;
    while i < list.len()
        invariant
            i <= list@.len(),
            forall|j: int| 0 <= j < i ==> pairs(list@)[j] != (a@, b@),
        decreases list@.len() - i,
    {
        if same(list[i].0.as_str(), a) && same(list[i].1.as_str(), b) {
            assert(pairs(list@)[i as int] == (a@, b@));
            return true;
        }
        assert(pairs(list@)[i as int] == (list@[i as int].0@, list@[i as int].1@));
        i += 1;
    }
    false
}

/// The names, each once.
fn distinct(names: &[String]) -> (r: Vec<String>)
    ensures
        texts(r@).no_duplicates(),
        forall|x: Text| texts(r@).contains(x) <==> texts(names@).contains(x),
{
    let mut out: Vec<String> = Vec::new();
    let mut i: usize = 0;
    let ghost all = texts(names@);
    while i < names.len()
        invariant
            i <= names@.len(),
            all == texts(names@),
            texts(out@).no_duplicates(),
            forall|x: Text| texts(out@).contains(x) <==> all.take(i as int).contains(x),
        decreases names@.len() - i,
    {
        let ghost was = texts(out@);
        let ghost x = all[i as int];
        assert(all.take(i + 1) =~= all.take(i as int).push(x));
        match position(&out, names[i].as_str()) {
            Some(_) => {
                assert(was.contains(x));
            },
            None => {
                out.push(names[i].clone());
                assert(texts(out@) =~= was.push(x));
            },
        }
        assert forall|y: Text| texts(out@).contains(y) <==> all.take(i + 1).contains(y) by {
            lemma_push_contains(all.take(i as int), x, y);
            lemma_push_contains(was, x, y);
        }
        i += 1;
    }
    assert(all.take(i as int) =~= all);
    out
}

/// What a sequence holds with one more element.
pub proof fn lemma_push_contains<A>(s: Seq<A>, x: A, y: A)
    ensures
        s.push(x).contains(y) <==> s.contains(y) || x == y,
{
    if s.contains(y) {
        let i = choose|i: int| 0 <= i < s.len() && s[i] == y;
        assert(s.push(x)[i] == y);
    }
    assert(s.push(x)[s.len() as int] == x);
    if s.push(x).contains(y) && x != y {
        let i = choose|i: int| 0 <= i < s.push(x).len() && s.push(x)[i] == y;
        assert(s[i] == y);
    }
}

/// Whether the list holds the edge from `a` to `b`; `turned` where the second
/// half of a pair is the one that comes first.
spec fn listed(list: Seq<(Text, Text)>, ns: Seq<Text>, turned: bool, e: (usize, usize)) -> bool {
    list.contains(
        if turned {
            (ns[e.1 as int], ns[e.0 as int])
        } else {
            (ns[e.0 as int], ns[e.1 as int])
        },
    )
}

/// Whether both ends of every edge are positions below `n`.
spec fn edges_within(edges: Seq<(usize, usize)>, n: nat) -> bool {
    forall|e: (usize, usize)| #[trigger] edges.contains(e) ==> e.0 < n && e.1 < n
}

/// Whether the edges are those of the graph between the names.
spec fn edges_match(edges: Seq<(usize, usize)>, ns: Seq<Text>, g: GraphModel) -> bool {
    &&& edges_within(edges, ns.len())
    &&& forall|e: (usize, usize)|
        e.0 < ns.len() && e.1 < ns.len() ==> (#[trigger] edges.contains(e) <==> g.precedes(
            ns[e.0 as int],
            ns[e.1 as int],
        ))
}

/// Adds the edges between the given names.
fn append_edges(
    list: &Vec<(String, String)>,
    names: &Vec<String>,
    turned: bool,
    out: &mut Vec<(usize, usize)>,
)
    requires
        texts(names@).no_duplicates(),
        edges_within(old(out)@, names@.len()),
    ensures
        edges_within(final(out)@, names@.len()),
        forall|e: (usize, usize)|
            e.0 < names@.len() && e.1 < names@.len() ==> (#[trigger] final(out)@.contains(e)
                <==> old(out)@.contains(e) || listed(pairs(list@), texts(names@), turned, e)),
{
    let ghost all = pairs(list@);
    let ghost ns = texts(names@);
    let ghost start = out@;
    let mut i: usize = 0;
    while i < list.len()
        invariant
            i <= list@.len(),
            all == pairs(list@),
            ns == texts(names@),
            ns.no_duplicates(),
            edges_within(out@, names@.len()),
            forall|e: (usize, usize)|
                e.0 < names@.len() && e.1 < names@.len() ==> (#[trigger] out@.contains(e)
                    <==> start.contains(e) || listed(all.take(i as int), ns, turned, e)),
        decreases list@.len() - i,
    {
        let ghost was = out@;
        let ghost p = all[i as int];
        assert(all.take(i + 1) =~= all.take(i as int).push(p));
        let first = position(names, list[i].0.as_str());
        let second = position(names, list[i].1.as_str());
        let ghost mut added: Option<(usize, usize)> = None;
        match (first, second) {
            (Some(s), Some(d)) => {
                let e = if turned {
                    (d, s)
                } else {
                    (s, d)
                };
                out.push(e);
                proof {
                    added = Some(e);
                }
            },
            _ => {},
        }
        assert forall|e: (usize, usize)| #[trigger] out@.contains(e) implies e.0 < names@.len()
            && e.1 < names@.len() by {
            if added is Some {
                lemma_push_contains(was, added->0, e);
            }
        }
        assert forall|e: (usize, usize)|
            e.0 < names@.len() && e.1 < names@.len() implies (#[trigger] out@.contains(e)
            <==> start.contains(e) || listed(all.take(i + 1), ns, turned, e)) by {
            let a = e.0 as int;
            let b = e.1 as int;
            let want = if turned {
                (ns[b], ns[a])
            } else {
                (ns[a], ns[b])
            };
            lemma_push_contains(all.take(i as int), p, want);
            assert(was.contains(e) <==> start.contains(e) || listed(
                all.take(i as int),
                ns,
                turned,
                e,
            ));
            if added is Some {
                lemma_push_contains(was, added->0, e);
                let f = added->0;
                assert(ns[f.0 as int] == names@[f.0 as int]@);
                assert(ns[f.1 as int] == names@[f.1 as int]@);
            } else {
                assert(!ns.contains(p.0) || !ns.contains(p.1));
                assert(ns.contains(ns[a]));
                assert(ns.contains(ns[b]));
            }
        }
        i += 1;
    }
    assert(all.take(i as int) =~= all);
}

/// Which positions have a predecessor that has not been emitted.
fn blocked_by(edges: &Vec<(usize, usize)>, emitted: &Vec<bool>) -> (r: Vec<bool>)
    requires
        edges_within(edges@, emitted@.len()),
    ensures
        r@.len() == emitted@.len(),
        forall|b: int|
            0 <= b < r@.len() ==> (#[trigger] r@[b] <==> exists|k: int|
                0 <= k < edges@.len() && (#[trigger] edges@[k]).1 == b && !emitted@[edges@[k].0 as int]),
{
    let mut out: Vec<bool> = Vec::new();
    let mut k: usize = 0;
    while k < emitted.len()
        invariant
            k <= emitted@.len(),
            out@.len() == k,
            forall|b: int| 0 <= b < k ==> !out@[b],
        decreases emitted@.len() - k,
    {
        out.push(false);
        k += 1;
    }
    let mut i: usize = 0;
    while i < edges.len()
        invariant
            i <= edges@.len(),
            out@.len() == emitted@.len(),
            edges_within(edges@, emitted@.len()),
            forall|b: int|
                0 <= b < out@.len() ==> (#[trigger] out@[b] <==> exists|k: int|
                    0 <= k < i && (#[trigger] edges@[k]).1 == b && !emitted@[edges@[k].0 as int]),
        decreases edges@.len() - i,
    {
        let e = edges[i];
        assert(edges@.contains(edges@[i as int]));
        let ghost was = out@;
        if !emitted[e.0] {
            out.set(e.1, true);
        }
        assert forall|b: int| 0 <= b < out@.len() implies (#[trigger] out@[b] <==> exists|k: int|
            0 <= k < i + 1 && (#[trigger] edges@[k]).1 == b && !emitted@[edges@[k].0 as int]) by {
            assert(was[b] <==> exists|k: int|
                0 <= k < i && (#[trigger] edges@[k]).1 == b && !emitted@[edges@[k].0 as int]);
            if b == e.1 && !emitted@[e.0 as int] {
                assert(edges@[i as int].1 == b);
            }
        }
        i += 1;
    }
    out
}

/// The position of the least name that is neither emitted nor blocked.
fn least_free(names: &Vec<String>, emitted: &Vec<bool>, blocked: &Vec<bool>) -> (r: Option<usize>)
    requires
        emitted@.len() == names@.len(),
        blocked@.len() == names@.len(),
    ensures
        match r {
            Some(i) => {
                &&& i < names@.len()
                &&& !emitted@[i as int]
                &&& !blocked@[i as int]
                &&& forall|j: int|
                    0 <= j < names@.len() && !emitted@[j] && !blocked@[j] ==> !text_lt(
                        #[trigger] names@[j]@,
                        names@[i as int]@,
                    )
            },
            None => forall|j: int|
                0 <= j < names@.len() ==> #[trigger] emitted@[j] || blocked@[j],
        },
{
    let mut best: Option<usize> = None;
    let mut i: usize = 0;
    while i < names.len()
        invariant
            i <= names@.len(),
            emitted@.len() == names@.len(),
            blocked@.len() == names@.len(),
            match best {
                Some(b) => {
                    &&& b < i
                    &&& !emitted@[b as int]
                    &&& !blocked@[b as int]
                    &&& forall|j: int|
                        0 <= j < i && !emitted@[j] && !blocked@[j] ==> !text_lt(
                            #[trigger] names@[j]@,
                            names@[b as int]@,
                        )
                },
                None => forall|j: int| 0 <= j < i ==> #[trigger] emitted@[j] || blocked@[j],
            },
        decreases names@.len() - i,
    {
        if !emitted[i] && !blocked[i] {
            let ghost was = best;
            let better = match best {
                None => true,
                Some(b) => comes_before(names[i].as_str(), names[b].as_str()),
            };
            if better {
                best = Some(i);
            }
            proof {
                text_lt_total(names@[i as int]@, names@[i as int]@);
                if better && was is Some {
                    let b = was->0 as int;
                    assert forall|j: int|
                        0 <= j < i + 1 && !emitted@[j] && !blocked@[j] implies !text_lt(
                        #[trigger] names@[j]@,
                        names@[i as int]@,
                    ) by {
                        if j < i && text_lt(names@[j]@, names@[i as int]@) {
                            crate::text::text_lt_transitive(
                                names@[j]@,
                                names@[i as int]@,
                                names@[b]@,
                            );
                        }
                    }
                }
            }
        }
        i += 1;
    }
    best
}

// ---------------------------------------------------------------------------
// Laws
// ---------------------------------------------------------------------------

/// The order depends on the set of services and their dependencies alone, not
/// on the order in which the services are listed.
pub proof fn order_is_determined(
    g: GraphModel,
    services1: Seq<Text>,
    services2: Seq<Text>,
    order1: Seq<Text>,
    order2: Seq<Text>,
)
    requires
        forall|n: Text| services1.contains(n) <==> services2.contains(n),
        g.is_start_order(services1, order1),
        g.picks_least(services1, order1),
        g.is_start_order(services2, order2),
        g.picks_least(services2, order2),
    ensures
        order1 == order2,
{
    lemma_no_more_than(order1, order2);
    lemma_no_more_than(order2, order1);
    lemma_same_prefix(g, services1, services2, order1, order2, order1.len() as int);
    assert(order1.take(order1.len() as int) =~= order1);
    assert(order2.take(order2.len() as int) =~= order2);
}

/// A dependency precedes its dependent in every start order, so in the reverse
/// of one the dependent precedes its dependency.
pub proof fn reverse_order_stops_dependents_first(
    g: GraphModel,
    services: Seq<Text>,
    order: Seq<Text>,
    i: int,
    j: int,
)
    requires
        g.is_start_order(services, order),
        0 <= i < order.len(),
        0 <= j < order.len(),
        g.precedes(order.reverse()[i], order.reverse()[j]),
    ensures
        j < i,
{
    let n = order.len();
    assert(order.reverse()[i] == order[n - 1 - i]);
    assert(order.reverse()[j] == order[n - 1 - j]);
}

/// Services whose dependencies run in a circle have no start order.
pub proof fn circles_cannot_be_ordered(
    g: GraphModel,
    services: Seq<Text>,
    order: Seq<Text>,
    chain: Seq<Text>,
)
    requires
        g.is_circle(services, chain),
    ensures
        !g.is_start_order(services, order),
{
    if g.is_start_order(services, order) {
        lemma_chain_climbs(g, services, order, chain, chain.len() - 1);
        assert(order.contains(chain[0]));
        let p = choose|p: int| 0 <= p < order.len() && order[p] == chain[0];
        assert(order[p] == chain[chain.len() - 1]);
    }
}

// ---------------------------------------------------------------------------
// Proofs
// ---------------------------------------------------------------------------

proof fn lemma_same_prefix(
    g: GraphModel,
    services1: Seq<Text>,
    services2: Seq<Text>,
    order1: Seq<Text>,
    order2: Seq<Text>,
    k: int,
)
    requires
        forall|n: Text| services1.contains(n) <==> services2.contains(n),
        order1.len() == order2.len(),
        g.picks_least(services1, order1),
        g.picks_least(services2, order2),
        0 <= k <= order1.len(),
    ensures
        order1.take(k) == order2.take(k),
    decreases k,
{
    if k > 0 {
        lemma_same_prefix(g, services1, services2, order1, order2, k - 1);
        let done = order1.take(k - 1);
        let a = order1[k - 1];
        let b = order2[k - 1];
        assert(g.is_next(services1, done, a));
        assert(g.is_next(services2, done, b));
        assert(g.available(services2, done, a));
        assert(g.available(services1, done, b));
        text_lt_total(a, b);
        assert(a == b);
        assert(order1.take(k) =~= done.push(a));
        assert(order2.take(k) =~= order2.take(k - 1).push(b));
    }
}

/// The places of the members of a chain in a start order grow along it.
proof fn lemma_chain_climbs(
    g: GraphModel,
    services: Seq<Text>,
    order: Seq<Text>,
    chain: Seq<Text>,
    k: int,
)
    requires
        g.is_start_order(services, order),
        0 < k < chain.len(),
        forall|i: int| 0 <= i < chain.len() ==> services.contains(#[trigger] chain[i]),
        forall|i: int, j: int|
            0 <= i && j == i + 1 && j < chain.len() ==> g.precedes(
                #[trigger] chain[i],
                #[trigger] chain[j],
            ),
    ensures
        forall|p: int, q: int|
            0 <= p < order.len() && 0 <= q < order.len() && #[trigger] order[p] == chain[0]
                && #[trigger] order[q] == chain[k] ==> p < q,
    decreases k,
{
    assert(g.precedes(chain[k - 1], chain[k]));
    if k > 1 {
        lemma_chain_climbs(g, services, order, chain, k - 1);
        assert(order.contains(chain[k - 1]));
        let m = choose|m: int| 0 <= m < order.len() && order[m] == chain[k - 1];
        assert(order[m] == chain[k - 1]);
    }
}

proof fn lemma_missing_pairs(required: Seq<(Text, Text)>, available: Seq<Text>)
    requires
        required.no_duplicates(),
    ensures
        missing_pairs(required, available).no_duplicates(),
        forall|p: (Text, Text)|
            #[trigger] missing_pairs(required, available).contains(p) <==> {
                &&& required.contains(p)
                &&& available.contains(p.0)
                &&& !available.contains(p.1)
            },
    decreases required.len(),
{
    if required.len() > 0 {
        let init = required.drop_last();
        let last = required.last();
        let rest = missing_pairs(init, available);
        lemma_missing_pairs(init, available);
        assert(required =~= init.push(last));
        assert(!init.contains(last));
        assert(!rest.contains(last));
        assert forall|p: (Text, Text)|
            #[trigger] missing_pairs(required, available).contains(p) <==> {
                &&& required.contains(p)
                &&& available.contains(p.0)
                &&& !available.contains(p.1)
            } by {
            lemma_push_contains(init, last, p);
            lemma_push_contains(rest, last, p);
        }
    }
}

/// The targets of a key are the second halves of its pairs.
pub proof fn lemma_targets_of(edges: Seq<(Text, Text)>, key: Text)
    ensures
        forall|x: Text| #[trigger]
            targets_of(edges, key).contains(x) <==> edges.contains((key, x)),
    decreases edges.len(),
{
    if edges.len() > 0 {
        let init = edges.drop_last();
        let last = edges.last();
        let rest = targets_of(init, key);
        lemma_targets_of(init, key);
        assert(edges =~= init.push(last));
        assert forall|x: Text| #[trigger] targets_of(edges, key).contains(x) <==> edges.contains(
            (key, x),
        ) by {
            lemma_push_contains(init, last, (key, x));
            lemma_push_contains(rest, last.1, x);
            assert(rest.contains(x) <==> init.contains((key, x)));
        }
    }
}

/// A sequence without repeats whose elements all lie in another one is no
/// longer than that one.
proof fn lemma_no_more_than<A>(s: Seq<A>, t: Seq<A>)
    requires
        s.no_duplicates(),
        forall|x: A| #[trigger] s.contains(x) ==> t.contains(x),
    ensures
        s.len() <= t.len(),
    decreases s.len(),
{
    if s.len() > 0 {
        let x = s.last();
        assert(s.contains(s[s.len() - 1]));
        let k = choose|k: int| 0 <= k < t.len() && t[k] == x;
        let t2 = t.remove(k);
        let s2 = s.drop_last();
        assert forall|y: A| #[trigger] s2.contains(y) implies t2.contains(y) by {
            let i = choose|i: int| 0 <= i < s2.len() && s2[i] == y;
            assert(s[i] == y);
            assert(s.contains(y));
            assert(y != x);
            let j = choose|j: int| 0 <= j < t.len() && t[j] == y;
            if j < k {
                assert(t2[j] == y);
            } else {
                assert(t2[j - 1] == y);
            }
        }
        lemma_no_more_than(s2, t2);
    }
}

proof fn lemma_available(
    g: GraphModel,
    wanted: Seq<Text>,
    ns: Seq<Text>,
    d: Seq<Text>,
    edges: Seq<(usize, usize)>,
    emitted: Seq<bool>,
    blocked: Seq<bool>,
    i: int,
)
    requires
        0 <= i < ns.len(),
        ns.len() <= usize::MAX,
        ns.no_duplicates(),
        emitted.len() == ns.len(),
        blocked.len() == ns.len(),
        forall|x: Text| ns.contains(x) <==> wanted.contains(x),
        edges_match(edges, ns, g),
        forall|j: int| 0 <= j < ns.len() ==> (#[trigger] emitted[j] <==> d.contains(ns[j])),
        forall|b: int|
            0 <= b < blocked.len() ==> (#[trigger] blocked[b] <==> exists|k: int|
                0 <= k < edges.len() && (#[trigger] edges[k]).1 == b && !emitted[edges[k].0 as int]),
    ensures
        g.available(wanted, d, ns[i]) <==> !emitted[i] && !blocked[i],
{
    assert(ns.contains(ns[i]));
    if blocked[i] {
        let k = choose|k: int|
            0 <= k < edges.len() && (#[trigger] edges[k]).1 == i && !emitted[edges[k].0 as int];
        let a = edges[k].0 as int;
        assert(edges.contains(edges[k]));
        assert(edges[k] == (a as usize, i as usize));
        assert(g.precedes(ns[a], ns[i]));
        assert(ns.contains(ns[a]));
        assert(!d.contains(ns[a]));
    }
    if !emitted[i] && !blocked[i] {
        assert forall|m: Text| wanted.contains(m) && #[trigger] g.precedes(m, ns[i]) implies d.contains(
            m,
        ) by {
            assert(ns.contains(m));
            let a = choose|a: int| 0 <= a < ns.len() && ns[a] == m;
            assert(edges.contains((a as usize, i as usize)));
            let k = choose|k: int| 0 <= k < edges.len() && edges[k] == (a as usize, i as usize);
            assert(edges[k].1 == i);
            assert(emitted[a]);
        }
    }
}

proof fn lemma_push_next(g: GraphModel, services: Seq<Text>, done: Seq<Text>, n: Text)
    requires
        g.picks_least(services, done),
        g.is_next(services, done, n),
    ensures
        g.picks_least(services, done.push(n)),
        done.no_duplicates() ==> done.push(n).no_duplicates(),
{
    let d2 = done.push(n);
    assert forall|i: int| 0 <= i < d2.len() implies g.is_next(
        services,
        d2.take(i),
        #[trigger] d2[i],
    ) by {
        if i < done.len() {
            assert(d2.take(i) =~= done.take(i));
            assert(d2[i] == done[i]);
        } else {
            assert(d2.take(i) =~= done);
        }
    }
}

/// Where nothing more can come, every start order has come whole.
proof fn lemma_stuck(
    g: GraphModel,
    services: Seq<Text>,
    done: Seq<Text>,
    order: Seq<Text>,
    k: int,
)
    requires
        g.is_start_order(services, order),
        forall|x: Text| !#[trigger] g.available(services, done, x),
        0 <= k <= order.len(),
    ensures
        forall|x: Text| #[trigger] order.take(k).contains(x) ==> done.contains(x),
    decreases k,
{
    if k > 0 {
        lemma_stuck(g, services, done, order, k - 1);
        let x = order[k - 1];
        assert(order.contains(x));
        if !done.contains(x) {
            assert forall|m: Text| services.contains(m) && #[trigger] g.precedes(m, x) implies done.contains(
                m,
            ) by {
                assert(order.contains(m));
                let i = choose|i: int| 0 <= i < order.len() && order[i] == m;
                assert(g.precedes(order[i], order[k - 1]));
                assert(order.take(k - 1)[i] == m);
                assert(order.take(k - 1).contains(m));
            }
            assert(g.available(services, done, x));
        }
        assert forall|y: Text| #[trigger] order.take(k).contains(y) implies done.contains(y) by {
            let i = choose|i: int| 0 <= i < order.take(k).len() && order.take(k)[i] == y;
            if i < k - 1 {
                assert(order.take(k - 1)[i] == y);
                assert(order.take(k - 1).contains(y));
            }
        }
    }
}

/// A predecessor of `x` that has not come.
spec fn waited_for(g: GraphModel, services: Seq<Text>, done: Seq<Text>, x: Text) -> Text {
    choose|m: Text| services.contains(m) && #[trigger] g.precedes(m, x) && !done.contains(m)
}

/// The way from `x` to what it waits for, and on, `n` times.
spec fn trail(g: GraphModel, services: Seq<Text>, done: Seq<Text>, x: Text, n: nat) -> Seq<Text>
    decreases n,
{
    if n == 0 {
        seq![x]
    } else {
        let t = trail(g, services, done, x, (n - 1) as nat);
        t.push(waited_for(g, services, done, t.last()))
    }
}

proof fn lemma_trail(g: GraphModel, services: Seq<Text>, done: Seq<Text>, x: Text, n: nat)
    requires
        services.contains(x),
        !done.contains(x),
        forall|y: Text| !#[trigger] g.available(services, done, y),
    ensures
        trail(g, services, done, x, n).len() == n + 1,
        forall|i: int|
            0 <= i <= n ==> services.contains(#[trigger] trail(g, services, done, x, n)[i])
                && !done.contains(trail(g, services, done, x, n)[i]),
        forall|i: int, j: int|
            0 <= i && j == i + 1 && j <= n ==> g.precedes(
                #[trigger] trail(g, services, done, x, n)[j],
                #[trigger] trail(g, services, done, x, n)[i],
            ),
    decreases n,
{
    if n > 0 {
        let m = (n - 1) as nat;
        lemma_trail(g, services, done, x, m);
        let t = trail(g, services, done, x, m);
        let last = t.last();
        assert(last == t[m as int]);
        assert(!g.available(services, done, last));
        let w = waited_for(g, services, done, last);
        assert(services.contains(w) && g.precedes(w, last) && !done.contains(w));
        let u = trail(g, services, done, x, n);
        assert(u =~= t.push(w));
        assert forall|i: int, j: int| 0 <= i && j == i + 1 && j <= n implies g.precedes(
            #[trigger] u[j],
            #[trigger] u[i],
        ) by {
            if j <= m {
                assert(g.precedes(t[j], t[i]));
            }
        }
    }
}

/// Where services remain but none can come, their dependencies run in a
/// circle.
proof fn lemma_stuck_in_circle(g: GraphModel, services: Seq<Text>, done: Seq<Text>)
    requires
        services.no_duplicates(),
        done.len() < services.len(),
        forall|y: Text| !#[trigger] g.available(services, done, y),
    ensures
        exists|chain: Seq<Text>| #[trigger] g.is_circle(services, chain),
{
    if forall|y: Text| #[trigger] services.contains(y) ==> done.contains(y) {
        lemma_no_more_than(services, done);
    }
    let x = choose|y: Text| #[trigger] services.contains(y) && !done.contains(y);
    let n = services.len();
    let t = trail(g, services, done, x, n);
    lemma_trail(g, services, done, x, n);
    if t.no_duplicates() {
        assert forall|y: Text| #[trigger] t.contains(y) implies services.contains(y) by {
            let i = choose|i: int| 0 <= i < t.len() && t[i] == y;
            assert(services.contains(t[i]));
        }
        lemma_no_more_than(t, services);
    }
    let (i, j) = choose|i: int, j: int|
        0 <= i < t.len() && 0 <= j < t.len() && i != j && #[trigger] t[i] == #[trigger] t[j];
    let lo = if i < j {
        i
    } else {
        j
    };
    let hi = if i < j {
        j
    } else {
        i
    };
    let chain = Seq::new((hi - lo + 1) as nat, |k: int| t[hi - k]);
    assert(chain[0] == t[hi]);
    assert(chain[chain.len() - 1] == t[lo]);
    assert forall|a: int, b: int| 0 <= a && b == a + 1 && b < chain.len() implies g.precedes(
        #[trigger] chain[a],
        #[trigger] chain[b],
    ) by {
        assert(chain[a] == t[hi - a]);
        assert(chain[b] == t[hi - b]);
        assert(g.precedes(t[hi - a], t[hi - b]));
    }
    assert(g.is_circle(services, chain));
}

/// A run of least choices that is as long as the list of services is a start
/// order.
proof fn lemma_complete(g: GraphModel, services: Seq<Text>, order: Seq<Text>)
    requires
        order.len() == services.len(),
        order.no_duplicates(),
        forall|x: Text| #[trigger] order.contains(x) ==> services.contains(x),
        g.picks_least(services, order),
    ensures
        g.is_start_order(services, order),
{
    assert forall|n: Text| order.contains(n) <==> services.contains(n) by {
        if services.contains(n) && !order.contains(n) {
            let longer = order.push(n);
            assert forall|x: Text| #[trigger] longer.contains(x) implies services.contains(x) by {
                lemma_push_contains(order, n, x);
            }
            lemma_no_more_than(longer, services);
        }
    }
    assert forall|i: int, j: int|
        0 <= i < order.len() && 0 <= j < order.len() && g.precedes(order[i], order[j]) implies i
        < j by {
        assert(g.is_next(services, order.take(j), order[j]));
        assert(order.contains(order[i]));
        assert(order.take(j).contains(order[i]));
        let p = choose|p: int| 0 <= p < order.take(j).len() && order.take(j)[p] == order[i];
        assert(order[p] == order[i]);
    }
}

/// What a dependency changes: `after` puts the other service first, `before`
/// the one that declares it, and a wish neither; a required one is recorded as
/// such. Nothing that was known is forgotten.
pub proof fn dependencies_order_services(
    g: GraphModel,
    from: Text,
    to: Text,
    kind: DependencyType,
    required: bool,
    a: Text,
    b: Text,
)
    ensures
        ({
            let after = with_dependency(g, from, to, kind, required);
            &&& after.precedes(a, b) <==> g.precedes(a, b) || (kind is After && a == to && b == from)
                || (kind is Before && a == from && b == to)
            &&& after.wants.contains((a, b)) <==> g.wants.contains((a, b)) || (kind is Wants && a
                == from && b == to)
            &&& after.required.contains((a, b)) <==> g.required.contains((a, b)) || (required && a
                == from && b == to)
            &&& after.services == g.services
        }),
{
    lemma_push_contains(g.after, (from, to), (b, a));
    lemma_push_contains(g.before, (from, to), (a, b));
    lemma_push_contains(g.wants, (from, to), (a, b));
    lemma_push_contains(g.required, (from, to), (a, b));
}

/// Adding what is there changes nothing, and what is added is there.
pub proof fn additions_are_kept_once<A>(s: Seq<A>, x: A, y: A)
    ensures
        inserted(s, x).contains(y) <==> s.contains(y) || x == y,
        s.contains(x) ==> inserted(s, x) == s,
        s.no_duplicates() ==> inserted(s, x).no_duplicates(),
        inserted(inserted(s, x), x) == inserted(s, x),
{
    lemma_push_contains(s, x, y);
    lemma_push_contains(s, x, x);
}

/// The wishes of a service come in the order in which they were made, those of
/// other services left out.
pub proof fn wishes_come_in_order(a: Seq<(Text, Text)>, b: Seq<(Text, Text)>, key: Text, x: Text)
    ensures
        targets_of(a + b, key) == targets_of(a, key) + targets_of(b, key),
        targets_of(seq![(key, x)], key) == seq![x],
        forall|other: Text| other != key ==> #[trigger] targets_of(seq![(other, x)], key).len() == 0,
        targets_of(a, key).contains(x) <==> a.contains((key, x)),
    decreases b.len(),
{
    reveal_with_fuel(targets_of, 2);
    lemma_targets_of(a, key);
    assert(seq![(key, x)].drop_last() =~= Seq::<(Text, Text)>::empty());
    assert(targets_of(seq![(key, x)], key) =~= seq![x]);
    assert forall|other: Text| other != key implies #[trigger] targets_of(
        seq![(other, x)],
        key,
    ).len() == 0 by {
        assert(seq![(other, x)].drop_last() =~= Seq::<(Text, Text)>::empty());
    }
    if b.len() == 0 {
        assert(a + b =~= a);
        assert(targets_of(a, key) + targets_of(b, key) =~= targets_of(a, key));
    } else {
        wishes_come_in_order(a, b.drop_last(), key, x);
        assert((a + b).drop_last() =~= a + b.drop_last());
        assert((a + b).last() == b.last());
        assert(targets_of(a + b, key) =~= targets_of(a, key) + targets_of(b, key));
    }
}

/// A start order holds every service once and nothing else, and respects every
/// `after` and `before` among them.
pub proof fn start_orders_respect_dependencies(
    g: GraphModel,
    services: Seq<Text>,
    order: Seq<Text>,
    a: Text,
    b: Text,
    i: int,
    j: int,
)
    requires
        g.is_start_order(services, order),
        0 <= i < order.len(),
        0 <= j < order.len(),
        order[i] == a,
        order[j] == b,
    ensures
        g.after.contains((a, b)) ==> j < i,
        g.before.contains((a, b)) ==> i < j,
        services.contains(a),
        i != j ==> a != b,
        order.len() == services.len(),
        forall|n: Text| #[trigger] services.contains(n) ==> order.contains(n),
{
    assert(order.contains(a));
    if g.after.contains((a, b)) {
        assert(g.precedes(order[j], order[i]));
    }
    if g.before.contains((a, b)) {
        assert(g.precedes(order[i], order[j]));
    }
}

/// Of the services that could come next, the one with the least name does: a
/// name that stands further back, though nothing it waits for does, is greater.
pub proof fn free_services_come_by_name(
    g: GraphModel,
    services: Seq<Text>,
    order: Seq<Text>,
    i: int,
    j: int,
)
    requires
        g.is_start_order(services, order),
        g.picks_least(services, order),
        0 <= i < j < order.len(),
        forall|k: int|
            i <= k < order.len() ==> !g.after.contains((order[j], #[trigger] order[k]))
                && !g.before.contains((order[k], order[j])),
    ensures
        text_lt(order[i], order[j]),
{
    let done = order.take(i);
    let m = order[j];
    assert(order.contains(m));
    assert(!done.contains(m)) by {
        if done.contains(m) {
            let p = choose|p: int| 0 <= p < done.len() && done[p] == m;
            assert(order[p] == order[j]);
        }
    }
    assert forall|x: Text| services.contains(x) && #[trigger] g.precedes(x, m) implies done.contains(
        x,
    ) by {
        assert(order.contains(x));
        let k = choose|k: int| 0 <= k < order.len() && order[k] == x;
        if k >= i {
            assert(!g.after.contains((order[j], order[k])));
        } else {
            assert(done[k] == x);
        }
    }
    assert(g.available(services, done, m));
    assert(g.is_next(services, done, order[i]));
    assert(order[i] != order[j]);
}

/// The missing pairs are those of a service that is there and a required one
/// that is not.
pub proof fn missing_dependencies_are_found(
    required: Seq<(Text, Text)>,
    available: Seq<Text>,
    a: Text,
    b: Text,
)
    requires
        required.no_duplicates(),
    ensures
        missing_pairs(required, available).contains((a, b)) <==> required.contains((a, b))
            && available.contains(a) && !available.contains(b),
        missing_pairs(required, available).no_duplicates(),
{
    lemma_missing_pairs(required, available);
}

/// A new graph orders nothing and wants nothing.
pub proof fn new_graphs_are_empty(a: Text, b: Text)
    ensures
        !GraphModel::empty().precedes(a, b),
        !GraphModel::empty().services.contains(a),
        !GraphModel::empty().wants.contains((a, b)),
        !GraphModel::empty().required.contains((a, b)),
{
}

} // verus!
