//! Boot targets: which services a target enables, and which of them it cannot
//! do without.

use crate::config::{DependencyConfig, DependencyType, TargetConfig, TargetServiceEntry};
use crate::dep::{DepGraph, GraphModel};
use crate::scanner::ServiceState;
use crate::text::{position, same, texts, Text};
use vstd::prelude::*;

verus! {

/// One dependency of a service.
pub struct Dep {
    pub service: Text,
    pub kind: DependencyType,
    pub required: bool,
}

/// What a target sees of a service.
pub struct Unit {
    pub name: Text,
    pub deps: Seq<Dep>,
}

/// What a target file says.
pub struct Target {
    pub requires: Seq<Text>,
    pub entries: Seq<(Text, TargetServiceEntry)>,
}

pub open spec fn dep_of(d: DependencyConfig) -> Dep {
    Dep { service: d.service@, kind: d.kind, required: d.required }
}

pub open spec fn unit_of(s: ServiceState) -> Unit {
    Unit {
        name: s.name@,
        deps: s.config.dependencies@.map_values(|d: DependencyConfig| dep_of(d)),
    }
}

pub open spec fn units(services: Seq<ServiceState>) -> Seq<Unit> {
    services.map_values(|s: ServiceState| unit_of(s))
}

pub open spec fn target_of(t: TargetConfig) -> Target {
    Target {
        requires: texts(t.target.requires@),
        entries: t.services@.map_values(|e: (String, TargetServiceEntry)| (e.0@, e.1)),
    }
}

/// Whether no two units bear the same name.
pub open spec fn distinct_names(us: Seq<Unit>) -> bool {
    forall|i: int, j: int|
        0 <= i < us.len() && 0 <= j < us.len() && #[trigger] us[i].name == #[trigger] us[j].name
            ==> i == j
}

/// Whether some unit bears the name.
pub open spec fn known(us: Seq<Unit>, name: Text) -> bool {
    exists|i: int| 0 <= i < us.len() && #[trigger] us[i].name == name
}

/// Whether the unit called `a` lists the dependency.
pub open spec fn lists(us: Seq<Unit>, a: Text, d: Dep) -> bool {
    exists|i: int| 0 <= i < us.len() && #[trigger] us[i].name == a && us[i].deps.contains(d)
}

/// Whether the unit called `a` cannot come up without the unit called `b`.
pub open spec fn needs(us: Seq<Unit>, a: Text, b: Text) -> bool {
    &&& known(us, b)
    &&& exists|d: Dep| #[trigger] lists(us, a, d) && d.service == b && d.required
}

/// The entry of a service in the target's table.
pub open spec fn entry_for(entries: Seq<(Text, TargetServiceEntry)>, name: Text) -> Option<
    TargetServiceEntry,
>
    decreases entries.len(),
{
    if entries.len() == 0 {
        None
    } else if entries[0].0 == name {
        Some(entries[0].1)
    } else {
        entry_for(entries.skip(1), name)
    }
}

impl Target {
    /// Whether the table enables the service.
    pub open spec fn switches_on(self, name: Text) -> bool {
        entry_for(self.entries, name) matches Some(e) && e.enabled
    }

    /// Whether the table disables the service, rather than saying nothing.
    pub open spec fn switches_off(self, name: Text) -> bool {
        entry_for(self.entries, name) matches Some(e) && !e.enabled
    }

    /// Whether the target itself demands the service: by name in `requires`,
    /// or by an enabled entry that is not optional.
    pub open spec fn demands(self, us: Seq<Unit>, name: Text) -> bool {
        ||| self.requires.contains(name)
        ||| known(us, name) && (entry_for(self.entries, name) matches Some(e) && e.enabled
            && !e.optional)
    }

    /// Whether a set of names holds all that the target demands and, with a
    /// service, all that the service needs.
    pub open spec fn is_closed(self, us: Seq<Unit>, names: Set<Text>) -> bool {
        &&& forall|n: Text| #[trigger] self.demands(us, n) ==> names.contains(n)
        &&& forall|a: Text, b: Text| names.contains(a) && #[trigger] needs(us, a, b)
            ==> names.contains(b)
    }

    /// Whether the service belongs to the least such set.
    pub open spec fn demands_in_turn(self, us: Seq<Unit>, name: Text) -> bool {
        forall|names: Set<Text>| #[trigger] self.is_closed(us, names) ==> names.contains(name)
    }

    /// Whether a demanded service brings the service up with it. A mere wish
    /// for a service that the table disables does not.
    pub open spec fn pulls_in(self, us: Seq<Unit>, name: Text) -> bool {
        exists|a: Text, d: Dep|
            {
                &&& self.demands_in_turn(us, a)
                &&& #[trigger] lists(us, a, d)
                &&& d.service == name
                &&& !(d.kind == DependencyType::Wants && !d.required && self.switches_off(name))
            }
    }

    /// Whether the service comes up for a reason other than a wish.
    pub open spec fn brings_up(self, us: Seq<Unit>, name: Text) -> bool {
        ||| self.switches_on(name)
        ||| self.requires.contains(name)
        ||| self.pulls_in(us, name)
    }

    /// Whether a set of names holds all that comes up for another reason than
    /// a wish and, with a service, all that the service wants and the table
    /// does not disable.
    pub open spec fn grants_all(self, us: Seq<Unit>, g: GraphModel, names: Set<Text>) -> bool {
        &&& forall|n: Text| #[trigger] self.brings_up(us, n) ==> names.contains(n)
        &&& forall|a: Text, b: Text|
            names.contains(a) && known(us, a) && #[trigger] g.wants.contains((a, b))
                && !self.switches_off(b) ==> names.contains(b)
    }

    /// Whether the service belongs to the least such set.
    pub open spec fn comes_up(self, us: Seq<Unit>, g: GraphModel, name: Text) -> bool {
        forall|names: Set<Text>| #[trigger]
            self.grants_all(us, g, names) ==> names.contains(name)
    }
}

/// Whether a known service is enabled. A target that is missing or lists no
/// services enables everything.
pub open spec fn is_enabled(t: Option<Target>, us: Seq<Unit>, g: GraphModel, name: Text) -> bool {
    match t {
        Some(t) => t.entries.len() == 0 || t.comes_up(us, g, name),
        None => true,
    }
}

/// Whether a known service is required: the boot is degraded without it.
pub open spec fn is_required(t: Option<Target>, us: Seq<Unit>, name: Text) -> bool {
    match t {
        Some(t) => t.entries.len() == 0 || t.demands_in_turn(us, name),
        None => true,
    }
}

/// Whether the target names a required service that does not exist.
pub open spec fn lacks_required(t: Option<Target>, us: Seq<Unit>) -> bool {
    match t {
        Some(t) => t.entries.len() > 0 && exists|i: int|
            0 <= i < t.requires.len() && !known(us, #[trigger] t.requires[i]),
        None => false,
    }
}

/// What a target makes of the services, by their positions.
#[derive(Debug, Clone, PartialEq, Eq)]
pub struct Resolution {
    pub enabled: Vec<bool>,
    pub required: Vec<bool>,
    pub degraded: bool,
}

pub open spec fn target_view(t: Option<&TargetConfig>) -> Option<Target> {
    match t {
        Some(t) => Some(target_of(*t)),
        None => None,
    }
}

/// Resolves a target: `None` where its file does not exist.
pub fn resolve_target(
    target: Option<&TargetConfig>,
    services: &Vec<ServiceState>,
    graph: &DepGraph,
) -> (r: Resolution)
    requires
        distinct_names(units(services@)),
    ensures
        r.enabled@.len() == services@.len(),
        r.required@.len() == services@.len(),
        forall|i: int|
            0 <= i < services@.len() ==> #[trigger] r.enabled@[i] == is_enabled(
                target_view(target),
                units(services@),
                graph@,
                services@[i].name@,
            ),
        forall|i: int|
            0 <= i < services@.len() ==> #[trigger] r.required@[i] == is_required(
                target_view(target),
                units(services@),
                services@[i].name@,
            ),
        r.degraded == lacks_required(target_view(target), units(services@)),
{
    let n = services.len();
    match target {
        None => Resolution { enabled: filled(n, true), required: filled(n, true), degraded: false },
        Some(t) => {
            if t.services.len() == 0 {
                return Resolution {
                    enabled: filled(n, true),
                    required: filled(n, true),
                    degraded: false,
                };
            }
            let required = demanded_in_turn(t, services);
            let up = brought_up(t, services, &required);
            let enabled = with_wishes(t, services, graph, up);
            Resolution { enabled, required, degraded: lacks_a_required(t, services) }
        },
    }
}

fn filled(n: usize, value: bool) -> (r: Vec<bool>)
    ensures
        r@.len() == n,
        forall|i: int| 0 <= i < n ==> #[trigger] r@[i] == value,
{
    let mut out: Vec<bool> = Vec::new();
    let mut i: usize = 0;
    while i < n
        invariant
            i <= n,
            out@.len() == i,
            forall|j: int| 0 <= j < i ==> #[trigger] out@[j] == value,
        decreases n - i,
    {
        out.push(value);
        i += 1;
    }
    out
}

/// The position of the service with the given name.
pub fn service_index(services: &Vec<ServiceState>, name: &str) -> (r: Option<usize>)
    ensures
        match r {
            Some(i) => i < services@.len() && services@[i as int].name@ == name@ && known(
                units(services@),
                name@,
            ) && forall|j: int| 0 <= j < i ==> services@[j].name@ != name@,
            None => !known(units(services@), name@) && forall|j: int|
                0 <= j < services@.len() ==> (#[trigger] services@[j]).name@ != name@,
        },
{
    let mut i: usize = 0;
    while i < services.len()
        invariant
            i <= services@.len(),
            forall|j: int| 0 <= j < i ==> (#[trigger] services@[j]).name@ != name@,
        decreases services@.len() - i,
    {
        if same(services[i].name.as_str(), name) {
            assert(units(services@)[i as int].name == name@);
            return Some(i);
        }
        i += 1;
    }
    assert forall|j: int| 0 <= j < units(services@).len() implies #[trigger] units(
        services@,
    )[j].name != name@ by {
        assert(units(services@)[j] == unit_of(services@[j]));
    }
    None
}

fn find_entry(entries: &Vec<(String, TargetServiceEntry)>, name: &str) -> (r: Option<
    TargetServiceEntry,
>)
    ensures
        r == entry_for(
            entries@.map_values(|e: (String, TargetServiceEntry)| (e.0@, e.1)),
            name@,
        ),
{
    let ghost es = entries@.map_values(|e: (String, TargetServiceEntry)| (e.0@, e.1));
    let mut i: usize = 0;
    assert(es.skip(0) =~= es);
    while i < entries.len()
        invariant
            i <= entries@.len(),
            es == entries@.map_values(|e: (String, TargetServiceEntry)| (e.0@, e.1)),
            entry_for(es, name@) == entry_for(es.skip(i as int), name@),
        decreases entries@.len() - i,
    {
        assert(es.skip(i as int)[0] == es[i as int]);
        assert(es.skip(i as int).skip(1) =~= es.skip(i + 1));
        if same(entries[i].0.as_str(), name) {
            return Some(entries[i].1);
        }
        i += 1;
    }
    None
}

/// Whether some name in the target's `requires` is that of no service.
fn lacks_a_required(t: &TargetConfig, services: &Vec<ServiceState>) -> (r: bool)
    ensures
        r == exists|i: int|
            0 <= i < target_of(*t).requires.len() && !known(
                units(services@),
                #[trigger] target_of(*t).requires[i],
            ),
{
    let mut i: usize = 0;
    let ghost reqs = target_of(*t).requires;
    while i < t.target.requires.len()
        invariant
            i <= t.target.requires@.len(),
            reqs == target_of(*t).requires,
            forall|j: int| 0 <= j < i ==> known(units(services@), #[trigger] reqs[j]),
        decreases t.target.requires@.len() - i,
    {
        assert(reqs[i as int] == t.target.requires@[i as int]@);
        if service_index(services, t.target.requires[i].as_str()).is_none() {
            return true;
        }
        i += 1;
    }
    false
}

/// Which services the target itself demands.
fn demanded(t: &TargetConfig, services: &Vec<ServiceState>) -> (r: Vec<bool>)
    ensures
        r@.len() == services@.len(),
        forall|i: int|
            0 <= i < services@.len() ==> #[trigger] r@[i] == target_of(*t).demands(
                units(services@),
                services@[i].name@,
            ),
{
    let ghost us = units(services@);
    let mut out: Vec<bool> = Vec::new();
    let mut i: usize = 0;
    while i < services.len()
        invariant
            i <= services@.len(),
            us == units(services@),
            out@.len() == i,
            forall|j: int|
                0 <= j < i ==> #[trigger] out@[j] == target_of(*t).demands(us, services@[j].name@),
        decreases services@.len() - i,
    {
        let name = services[i].name.as_str();
        assert(us[i as int].name == name@);
        assert(known(us, name@));
        let by_name = position(&t.target.requires, name).is_some();
        let by_entry = match find_entry(&t.services, name) {
            Some(e) => e.enabled && !e.optional,
            None => false,
        };
        out.push(by_name || by_entry);
        i += 1;
    }
    out
}

/// Whether the marked services include all that service `a` needs.
spec fn needs_marked(us: Seq<Unit>, marks: Seq<bool>, a: int) -> bool {
    forall|k: int, b: int|
        0 <= k < us[a].deps.len() && 0 <= b < us.len() && (#[trigger] us[a].deps[k]).required
            && us[a].deps[k].service == (#[trigger] us[b]).name ==> marks[b]
}

/// Which services the target demands, themselves or through others that need
/// them.
fn demanded_in_turn(t: &TargetConfig, services: &Vec<ServiceState>) -> (r: Vec<bool>)
    requires
        distinct_names(units(services@)),
    ensures
        r@.len() == services@.len(),
        forall|i: int|
            0 <= i < services@.len() ==> #[trigger] r@[i] == target_of(*t).demands_in_turn(
                units(services@),
                services@[i].name@,
            ),
{
    let ghost us = units(services@);
    let ghost tm = target_of(*t);
    let n = services.len();
    let mut marks = demanded(t, services);
    let mut queue: Vec<usize> = Vec::new();
    let mut i: usize = 0;
    while i < n
        invariant
            i <= n,
            marks@.len() == n,
            forall|j: int| 0 <= j < queue@.len() ==> (#[trigger] queue@[j]) < n,
            forall|j: int| 0 <= j < queue@.len() ==> marks@[#[trigger] queue@[j] as int],
            forall|j: int|
                0 <= j < i && #[trigger] marks@[j] ==> queue@.contains(j as usize),
            queue@.len() <= i,
        decreases n - i,
    {
        if marks[i] {
            let ghost before = queue@;
            queue.push(i);
            assert forall|j: int| 0 <= j < i + 1 && #[trigger] marks@[j] implies queue@.contains(
                j as usize,
            ) by {
                if j < i {
                    let k = choose|k: int| 0 <= k < before.len() && before[k] == j as usize;
                    assert(queue@[k] == j as usize);
                } else {
                    assert(queue@[before.len() as int] == i);
                }
            }
        }
        i += 1;
    }
    proof {
        assert forall|j: int| 0 <= j < n && #[trigger] marks@[j] implies tm.demands_in_turn(
            us,
            services@[j].name@,
        ) by {
            assert(tm.demands(us, services@[j].name@));
        }
    }
    let mut head: usize = 0;
    while head < queue.len()
        invariant
            head <= queue@.len(),
            n == services@.len(),
            us == units(services@),
            tm == target_of(*t),
            distinct_names(us),
            marks@.len() == n,
            forall|j: int| 0 <= j < queue@.len() ==> (#[trigger] queue@[j]) < n,
            forall|j: int| 0 <= j < n && #[trigger] marks@[j] ==> queue@.contains(j as usize),
            forall|j: int|
                0 <= j < n && tm.demands(us, services@[j].name@) ==> #[trigger] marks@[j],
            forall|j: int|
                0 <= j < n && #[trigger] marks@[j] ==> tm.demands_in_turn(
                    us,
                    services@[j].name@,
                ),
            forall|j: int|
                0 <= j < head ==> needs_marked(us, marks@, #[trigger] queue@[j] as int),
            forall|j: int| 0 <= j < queue@.len() ==> marks@[#[trigger] queue@[j] as int],
        decreases unmarked(marks@), queue@.len() - head,
    {
        let a = queue[head];
        assert(marks@[queue@[head as int] as int]);
        let ghost was = marks@;
        let ghost before = queue@;
        mark_needs(t, services, a, &mut marks, &mut queue);
        proof {
            if marks@ != was {
                lemma_unmarked(was, marks@);
            }
            assert forall|j: int| 0 <= j < head + 1 implies needs_marked(
                us,
                marks@,
                #[trigger] queue@[j] as int,
            ) by {
                assert(queue@[j] == before[j]);
                if j < head {
                    assert(needs_marked(us, was, before[j] as int));
                }
            }
            if marks@ == was {
                assert(queue@ == before);
            }
        }
        head += 1;
    }
    proof {
        let names = Set::new(
            |name: Text|
                tm.requires.contains(name) || exists|j: int|
                    0 <= j < n && marks@[j] && #[trigger] services@[j].name@ == name,
        );
        assert forall|x: Text| #[trigger] tm.demands(us, x) implies names.contains(x) by {
            if !tm.requires.contains(x) {
                let j = choose|j: int| 0 <= j < us.len() && #[trigger] us[j].name == x;
                assert(services@[j].name@ == x);
                assert(marks@[j]);
            }
        }
        assert forall|x: Text, y: Text| names.contains(x) && #[trigger] needs(us, x, y) implies names.contains(
            y,
        ) by {
            lemma_needs_at(us, services@, tm, marks@, queue@, x, y);
            let b = choose|b: int| 0 <= b < us.len() && us[b].name == y && marks@[b];
            assert(services@[b].name@ == y);
        }
        assert(tm.is_closed(us, names));
        assert forall|j: int| 0 <= j < n implies #[trigger] marks@[j] == tm.demands_in_turn(
            us,
            services@[j].name@,
        ) by {
            if tm.demands_in_turn(us, services@[j].name@) {
                assert(names.contains(services@[j].name@));
                if tm.requires.contains(services@[j].name@) {
                    assert(tm.demands(us, services@[j].name@));
                } else {
                    let k = choose|k: int|
                        0 <= k < n && marks@[k] && #[trigger] services@[k].name@
                            == services@[j].name@;
                    assert(us[k].name == us[j].name);
                }
            }
        }
    }
    marks
}

proof fn lemma_needs_at(
    us: Seq<Unit>,
    services: Seq<ServiceState>,
    tm: Target,
    marks: Seq<bool>,
    queue: Seq<usize>,
    x: Text,
    y: Text,
)
    requires
        us == units(services),
        distinct_names(us),
        marks.len() == services.len(),
        services.len() <= usize::MAX,
        forall|j: int|
            0 <= j < services.len() && #[trigger] marks[j] ==> queue.contains(j as usize),
        forall|j: int| 0 <= j < queue.len() ==> needs_marked(us, marks, #[trigger] queue[j] as int),
        forall|j: int|
            0 <= j < services.len() && tm.demands(us, services[j].name@) ==> #[trigger] marks[j],
        tm.requires.contains(x) || exists|j: int|
            0 <= j < services.len() && marks[j] && #[trigger] services[j].name@ == x,
        needs(us, x, y),
    ensures
        exists|b: int| 0 <= b < us.len() && us[b].name == y && marks[b],
{
    let d = choose|d: Dep| #[trigger] lists(us, x, d) && d.service == y && d.required;
    let a = choose|a: int| 0 <= a < us.len() && #[trigger] us[a].name == x && us[a].deps.contains(d);
    let k = choose|k: int| 0 <= k < us[a].deps.len() && us[a].deps[k] == d;
    let b = choose|b: int| 0 <= b < us.len() && #[trigger] us[b].name == y;
    assert(services[a].name@ == x);
    if tm.requires.contains(x) {
        assert(tm.demands(us, services[a].name@));
        assert(marks[a]);
    } else {
        let j = choose|j: int|
            0 <= j < services.len() && marks[j] && #[trigger] services[j].name@ == x;
        assert(us[j].name == us[a].name);
    }
    assert(queue.contains(a as usize));
    let q = choose|q: int| 0 <= q < queue.len() && queue[q] == a as usize;
    assert(needs_marked(us, marks, queue[q] as int));
    assert(us[a].deps[k].required);
    assert(marks[b]);
}

/// The number of services not yet marked.
spec fn unmarked(marks: Seq<bool>) -> nat
    decreases marks.len(),
{
    if marks.len() == 0 {
        0
    } else {
        unmarked(marks.drop_last()) + if marks.last() {
            0nat
        } else {
            1nat
        }
    }
}

proof fn lemma_unmarked(a: Seq<bool>, b: Seq<bool>)
    requires
        a.len() == b.len(),
        forall|i: int| 0 <= i < a.len() && a[i] ==> #[trigger] b[i],
    ensures
        unmarked(b) <= unmarked(a),
        a != b ==> unmarked(b) < unmarked(a),
    decreases a.len(),
{
    if a.len() > 0 {
        lemma_unmarked(a.drop_last(), b.drop_last());
        assert(a =~= a.drop_last().push(a.last()));
        assert(b =~= b.drop_last().push(b.last()));
        assert(a.last() ==> b[a.len() - 1]);
    } else {
        assert(a =~= b);
    }
}

/// Marks what service `a` needs, and queues what was not marked before.
fn mark_needs(
    t: &TargetConfig,
    services: &Vec<ServiceState>,
    a: usize,
    marks: &mut Vec<bool>,
    queue: &mut Vec<usize>,
)
    requires
        a < services@.len(),
        old(marks)@.len() == services@.len(),
        distinct_names(units(services@)),
        old(marks)@[a as int],
        forall|j: int| 0 <= j < old(queue)@.len() ==> (#[trigger] old(queue)@[j]) < services@.len(),
        forall|j: int| 0 <= j < old(queue)@.len() ==> old(marks)@[#[trigger] old(queue)@[j] as int],
        forall|j: int|
            0 <= j < services@.len() && #[trigger] old(marks)@[j] ==> old(queue)@.contains(
                j as usize,
            ),
        forall|j: int|
            0 <= j < services@.len() && #[trigger] old(marks)@[j] ==> target_of(
                *t,
            ).demands_in_turn(units(services@), services@[j].name@),
    ensures
        final(marks)@.len() == services@.len(),
        forall|j: int|
            0 <= j < services@.len() && old(marks)@[j] ==> #[trigger] final(marks)@[j],
        needs_marked(units(services@), final(marks)@, a as int),
        old(queue)@.len() <= final(queue)@.len(),
        forall|j: int|
            0 <= j < old(queue)@.len() ==> #[trigger] final(queue)@[j] == old(queue)@[j],
        forall|j: int| 0 <= j < final(queue)@.len() ==> (#[trigger] final(queue)@[j])
            < services@.len(),
        forall|j: int|
            0 <= j < final(queue)@.len() ==> final(marks)@[#[trigger] final(queue)@[j] as int],
        forall|j: int|
            0 <= j < services@.len() && #[trigger] final(marks)@[j] ==> final(queue)@.contains(
                j as usize,
            ),
        forall|j: int|
            0 <= j < services@.len() && #[trigger] final(marks)@[j] ==> target_of(
                *t,
            ).demands_in_turn(units(services@), services@[j].name@),
        final(marks)@ == old(marks)@ ==> final(queue)@ == old(queue)@,
{
    let ghost us = units(services@);
    let ghost tm = target_of(*t);
    let ghost marks0 = marks@;
    let ghost queue0 = queue@;
    let deps = &services[a].config.dependencies;
    let ghost name = services@[a as int].name@;
    let mut k: usize = 0;
    while k < deps.len()
        invariant
            k <= deps@.len(),
            deps@ == services@[a as int].config.dependencies@,
            us == units(services@),
            tm == target_of(*t),
            name == services@[a as int].name@,
            a < services@.len(),
            distinct_names(us),
            marks@.len() == services@.len(),
            marks@[a as int],
            forall|j: int| 0 <= j < services@.len() && marks0[j] ==> #[trigger] marks@[j],
            queue0.len() <= queue@.len(),
            forall|j: int| 0 <= j < queue0.len() ==> #[trigger] queue@[j] == queue0[j],
            forall|j: int| 0 <= j < queue@.len() ==> (#[trigger] queue@[j]) < services@.len(),
            forall|j: int| 0 <= j < queue@.len() ==> marks@[#[trigger] queue@[j] as int],
            forall|j: int|
                0 <= j < services@.len() && #[trigger] marks@[j] ==> queue@.contains(j as usize),
            forall|j: int|
                0 <= j < services@.len() && #[trigger] marks@[j] ==> tm.demands_in_turn(
                    us,
                    services@[j].name@,
                ),
            forall|i: int, b: int|
                0 <= i < k && 0 <= b < us.len() && (#[trigger] us[a as int].deps[i]).required
                    && us[a as int].deps[i].service == (#[trigger] us[b]).name ==> marks@[b],
            marks0.len() == marks@.len(),
            marks@ == marks0 ==> queue@ == queue0,
        decreases deps@.len() - k,
    {
        let ghost d = us[a as int].deps[k as int];
        assert(d == dep_of(deps@[k as int]));
        let ghost before = queue@;
        let ghost marked = marks@;
        if deps[k].required {
            match service_index(services, deps[k].service.as_str()) {
                Some(b) => {
                    assert(us[b as int].name == d.service);
                    if !marks[b] {
                        marks.set(b, true);
                        queue.push(b);
                        proof {
                            assert(us[a as int].name == name);
                            assert(us[a as int].deps.contains(d));
                            assert(lists(us, name, d));
                            assert(needs(us, name, us[b as int].name));
                            assert(tm.demands_in_turn(us, name));
                            assert(tm.demands_in_turn(us, us[b as int].name));
                            assert(marks@[b as int]);
                            assert forall|j: int|
                                0 <= j < services@.len() && #[trigger] marks@[j] implies queue@.contains(
                                j as usize,
                            ) by {
                                if j == b {
                                    assert(queue@[before.len() as int] == b);
                                } else {
                                    assert(marked[j]);
                                    let q = choose|q: int|
                                        0 <= q < before.len() && before[q] == j as usize;
                                    assert(queue@[q] == j as usize);
                                }
                            }
                        }
                    }
                    assert forall|i: int, c: int|
                        0 <= i < k + 1 && 0 <= c < us.len() && (
                        #[trigger] us[a as int].deps[i]).required && us[a as int].deps[i].service
                            == (#[trigger] us[c]).name implies marks@[c] by {
                        if i == k {
                            assert(us[c].name == us[b as int].name);
                        } else {
                            assert(marked[c]);
                        }
                    }
                },
                None => {
                    assert forall|c: int| 0 <= c < us.len() implies (#[trigger] us[c]).name
                        != d.service by {
                        assert(us[c].name == services@[c].name@);
                    }
                },
            }
        }
        k += 1;
    }
    proof {
        assert(us[a as int].deps.len() == deps@.len());
    }
}

/// Whether the services marked in `required` bring up the one at `b`.
spec fn pulled_by_marked(t: Target, us: Seq<Unit>, required: Seq<bool>, upto: int, b: int) -> bool {
    exists|a: int, k: int|
        {
            &&& 0 <= a < upto
            &&& required[a]
            &&& 0 <= k < us[a].deps.len()
            &&& (#[trigger] us[a].deps[k]).service == us[b].name
            &&& !(us[a].deps[k].kind == DependencyType::Wants && !us[a].deps[k].required
                && t.switches_off(us[b].name))
        }
}

/// Which services come up for a reason other than a wish.
fn brought_up(t: &TargetConfig, services: &Vec<ServiceState>, required: &Vec<bool>) -> (r: Vec<
    bool,
>)
    requires
        distinct_names(units(services@)),
        required@.len() == services@.len(),
        forall|i: int|
            0 <= i < services@.len() ==> #[trigger] required@[i] == target_of(*t).demands_in_turn(
                units(services@),
                services@[i].name@,
            ),
    ensures
        r@.len() == services@.len(),
        forall|i: int|
            0 <= i < services@.len() ==> #[trigger] r@[i] == target_of(*t).brings_up(
                units(services@),
                services@[i].name@,
            ),
{
    let ghost us = units(services@);
    let ghost tm = target_of(*t);
    let mut out: Vec<bool> = Vec::new();
    let mut b: usize = 0;
    while b < services.len()
        invariant
            b <= services@.len(),
            us == units(services@),
            tm == target_of(*t),
            distinct_names(us),
            required@.len() == services@.len(),
            forall|i: int|
                0 <= i < services@.len() ==> #[trigger] required@[i] == tm.demands_in_turn(
                    us,
                    services@[i].name@,
                ),
            out@.len() == b,
            forall|i: int|
                0 <= i < b ==> #[trigger] out@[i] == tm.brings_up(us, services@[i].name@),
        decreases services@.len() - b,
    {
        let name = services[b].name.as_str();
        assert(us[b as int].name == name@);
        let entry = find_entry(&t.services, name);
        let on = match entry {
            Some(e) => e.enabled,
            None => false,
        };
        let off = match entry {
            Some(e) => !e.enabled,
            None => false,
        };
        let by_name = position(&t.target.requires, name).is_some();
        let pulled = is_pulled(services, required, name, off);
        proof {
            lemma_pulls_in(tm, us, services@, required@, b as int);
            assert(pulled == pulled_by_marked(tm, us, required@, us.len() as int, b as int));
        }
        out.push(on || by_name || pulled);
        b += 1;
    }
    out
}

proof fn lemma_pulls_in(
    t: Target,
    us: Seq<Unit>,
    services: Seq<ServiceState>,
    required: Seq<bool>,
    b: int,
)
    requires
        us == units(services),
        distinct_names(us),
        0 <= b < us.len(),
        required.len() == us.len(),
        forall|i: int|
            0 <= i < us.len() ==> #[trigger] required[i] == t.demands_in_turn(
                us,
                services[i].name@,
            ),
    ensures
        t.pulls_in(us, us[b].name) == pulled_by_marked(t, us, required, us.len() as int, b),
{
    let name = us[b].name;
    if t.pulls_in(us, name) {
        let (x, d) = choose|x: Text, d: Dep|
            {
                &&& t.demands_in_turn(us, x)
                &&& #[trigger] lists(us, x, d)
                &&& d.service == name
                &&& !(d.kind == DependencyType::Wants && !d.required && t.switches_off(name))
            };
        let a = choose|a: int|
            0 <= a < us.len() && #[trigger] us[a].name == x && us[a].deps.contains(d);
        let k = choose|k: int| 0 <= k < us[a].deps.len() && us[a].deps[k] == d;
        assert(services[a].name@ == x);
        assert(required[a]);
        assert(us[a].deps[k].service == name);
    }
    if pulled_by_marked(t, us, required, us.len() as int, b) {
        let (a, k) = choose|a: int, k: int|
            {
                &&& 0 <= a < us.len()
                &&& required[a]
                &&& 0 <= k < us[a].deps.len()
                &&& (#[trigger] us[a].deps[k]).service == us[b].name
                &&& !(us[a].deps[k].kind == DependencyType::Wants && !us[a].deps[k].required
                    && t.switches_off(us[b].name))
            };
        let d = us[a].deps[k];
        assert(us[a].deps.contains(d));
        assert(services[a].name@ == us[a].name);
        assert(lists(us, us[a].name, d));
    }
}

/// Whether one of the marked services brings up the one with the given name;
/// `off` where the table disables it.
fn is_pulled(services: &Vec<ServiceState>, required: &Vec<bool>, name: &str, off: bool) -> (r: bool)
    requires
        required@.len() == services@.len(),
    ensures
        r == exists|a: int, k: int|
            {
                &&& 0 <= a < services@.len()
                &&& required@[a]
                &&& 0 <= k < units(services@)[a].deps.len()
                &&& (#[trigger] units(services@)[a].deps[k]).service == name@
                &&& !(units(services@)[a].deps[k].kind == DependencyType::Wants && !units(
                    services@,
                )[a].deps[k].required && off)
            },
{
    let ghost us = units(services@);
    let mut a: usize = 0;
    while a < services.len()
        invariant
            a <= services@.len(),
            us == units(services@),
            required@.len() == services@.len(),
            forall|i: int, k: int|
                0 <= i < a && required@[i] && 0 <= k < us[i].deps.len() && (
                #[trigger] us[i].deps[k]).service == name@ ==> us[i].deps[k].kind
                    == DependencyType::Wants && !us[i].deps[k].required && off,
        decreases services@.len() - a,
    {
        if required[a] {
            let deps = &services[a].config.dependencies;
            let mut k: usize = 0;
            while k < deps.len()
                invariant
                    k <= deps@.len(),
                    a < services@.len(),
                    us == units(services@),
                    required@.len() == services@.len(),
                    required@[a as int],
                    deps@ == services@[a as int].config.dependencies@,
                    forall|i: int|
                        0 <= i < k && (#[trigger] us[a as int].deps[i]).service == name@
                            ==> us[a as int].deps[i].kind == DependencyType::Wants
                            && !us[a as int].deps[i].required && off,
                decreases deps@.len() - k,
            {
                assert(us[a as int].deps[k as int] == dep_of(deps@[k as int]));
                if same(deps[k].service.as_str(), name) {
                    let mere_wish = match deps[k].kind {
                        DependencyType::Wants => !deps[k].required,
                        _ => false,
                    };
                    if !(mere_wish && off) {
                        return true;
                    }
                }
                k += 1;
            }
        }
        a += 1;
    }
    false
}

/// Which services come up once those in `up` have been granted their wishes.
fn granted_once(
    t: &TargetConfig,
    services: &Vec<ServiceState>,
    graph: &DepGraph,
    up: &Vec<bool>,
) -> (r: Vec<bool>)
    requires
        up@.len() == services@.len(),
    ensures
        r@.len() == services@.len(),
        forall|i: int|
            0 <= i < services@.len() ==> #[trigger] r@[i] == (up@[i] || (!target_of(
                *t,
            ).switches_off(services@[i].name@) && wished(
                units(services@),
                graph@,
                up@,
                services@.len() as int,
                services@[i].name@,
            ))),
{
    let ghost us = units(services@);
    let ghost tm = target_of(*t);
    let ghost g = graph@;
    let mut out: Vec<bool> = up.clone();
    assert(out@ == up@);
    let mut a: usize = 0;
    while a < services.len()
        invariant
            a <= services@.len(),
            us == units(services@),
            tm == target_of(*t),
            g == graph@,
            up@.len() == services@.len(),
            out@.len() == services@.len(),
            forall|i: int|
                0 <= i < services@.len() ==> #[trigger] out@[i] == (up@[i] || (!tm.switches_off(
                    services@[i].name@,
                ) && wished(us, g, up@, a as int, services@[i].name@))),
        decreases services@.len() - a,
    {
        let ghost was = out@;
        if up[a] {
            let wanted = graph.get_wanted_services(services[a].name.as_str());
            let mut b: usize = 0;
            while b < services.len()
                invariant
                    b <= services@.len(),
                    a < services@.len(),
                    us == units(services@),
                    tm == target_of(*t),
                    g == graph@,
                    up@.len() == services@.len(),
                    up@[a as int],
                    was.len() == services@.len(),
                    out@.len() == services@.len(),
                    texts(wanted@) == crate::dep::targets_of(
                        g.wants,
                        services@[a as int].name@,
                    ),
                    forall|i: int|
                        0 <= i < services@.len() ==> #[trigger] out@[i] == (was[i] || (i < b
                            && !tm.switches_off(services@[i].name@) && g.wants.contains(
                            (services@[a as int].name@, services@[i].name@),
                        ))),
                decreases services@.len() - b,
            {
                let name = services[b].name.as_str();
                proof {
                    crate::dep::lemma_targets_of(g.wants, services@[a as int].name@);
                }
                if position(&wanted, name).is_some() {
                    let off = match find_entry(&t.services, name) {
                        Some(e) => !e.enabled,
                        None => false,
                    };
                    if !off {
                        out.set(b, true);
                    }
                }
                b += 1;
            }
        }
        proof {
            assert forall|i: int| 0 <= i < services@.len() implies #[trigger] out@[i] == (up@[i]
                || (!tm.switches_off(services@[i].name@) && wished(
                us,
                g,
                up@,
                a + 1,
                services@[i].name@,
            ))) by {
                lemma_wished_step(us, g, up@, a as int, services@[i].name@);
                assert(us[a as int].name == services@[a as int].name@);
                assert(was[i] == (up@[i] || (!tm.switches_off(services@[i].name@) && wished(
                    us,
                    g,
                    up@,
                    a as int,
                    services@[i].name@,
                ))));
            }
        }
        a += 1;
    }
    out
}

/// Whether two lists of marks are the same.
fn same_marks(a: &Vec<bool>, b: &Vec<bool>) -> (r: bool)
    requires
        a@.len() == b@.len(),
    ensures
        r == (a@ == b@),
{
    let n = a.len();
    let mut i: usize = 0;
    while i < n
        invariant
            i <= n,
            n == a@.len(),
            n == b@.len(),
            forall|j: int| 0 <= j < i ==> #[trigger] a@[j] == b@[j],
        decreases n - i,
    {
        if a[i] != b[i] {
            return false;
        }
        i += 1;
    }
    assert(a@ =~= b@);
    true
}

/// The services that come up, with those that they want, and what those want
/// in turn.
fn with_wishes(
    t: &TargetConfig,
    services: &Vec<ServiceState>,
    graph: &DepGraph,
    brought: Vec<bool>,
) -> (r: Vec<bool>)
    requires
        distinct_names(units(services@)),
        brought@.len() == services@.len(),
        forall|i: int|
            0 <= i < services@.len() ==> #[trigger] brought@[i] == target_of(*t).brings_up(
                units(services@),
                services@[i].name@,
            ),
    ensures
        r@.len() == services@.len(),
        forall|i: int|
            0 <= i < services@.len() ==> #[trigger] r@[i] == target_of(*t).comes_up(
                units(services@),
                graph@,
                services@[i].name@,
            ),
{
    let ghost us = units(services@);
    let ghost tm = target_of(*t);
    let ghost g = graph@;
    let mut up = brought;
    loop
        invariant
            us == units(services@),
            tm == target_of(*t),
            g == graph@,
            distinct_names(us),
            up@.len() == services@.len(),
            forall|i: int|
                0 <= i < services@.len() && tm.brings_up(us, services@[i].name@)
                    ==> #[trigger] up@[i],
            forall|i: int|
                0 <= i < services@.len() && #[trigger] up@[i] ==> tm.comes_up(
                    us,
                    g,
                    services@[i].name@,
                ),
        decreases unmarked(up@),
    {
        let next = granted_once(t, services, graph, &up);
        proof {
            lemma_unmarked(up@, next@);
            assert forall|i: int| 0 <= i < services@.len() && #[trigger] next@[i] implies tm.comes_up(
                us,
                g,
                services@[i].name@,
            ) by {
                if !up@[i] {
                    lemma_wish_comes_up(tm, us, services@, g, up@, services@[i].name@);
                }
            }
        }
        if same_marks(&next, &up) {
            proof {
                lemma_granted(tm, us, services@, g, up@);
            }
            return up;
        }
        up = next;
    }
}

/// A wish of a service that comes up is granted.
proof fn lemma_wish_comes_up(
    t: Target,
    us: Seq<Unit>,
    services: Seq<ServiceState>,
    g: GraphModel,
    up: Seq<bool>,
    name: Text,
)
    requires
        us == units(services),
        up.len() == services.len(),
        forall|i: int|
            0 <= i < services.len() && #[trigger] up[i] ==> t.comes_up(us, g, services[i].name@),
        !t.switches_off(name),
        wished(us, g, up, us.len() as int, name),
    ensures
        t.comes_up(us, g, name),
{
    let j = choose|j: int|
        0 <= j < us.len() && up[j] && g.wants.contains((#[trigger] us[j].name, name));
    assert(services[j].name@ == us[j].name);
    assert(known(us, us[j].name));
    assert forall|names: Set<Text>| #[trigger] t.grants_all(us, g, names) implies names.contains(
        name,
    ) by {
        assert(names.contains(us[j].name));
        assert(g.wants.contains((us[j].name, name)));
    }
}

/// Once no further wish is left to grant, the services that come up are
/// marked.
proof fn lemma_granted(
    t: Target,
    us: Seq<Unit>,
    services: Seq<ServiceState>,
    g: GraphModel,
    up: Seq<bool>,
)
    requires
        us == units(services),
        distinct_names(us),
        up.len() == services.len(),
        forall|i: int|
            0 <= i < services.len() && t.brings_up(us, services[i].name@) ==> #[trigger] up[i],
        forall|i: int|
            0 <= i < services.len() && #[trigger] up[i] ==> t.comes_up(us, g, services[i].name@),
        forall|i: int|
            0 <= i < services.len() ==> #[trigger] up[i] == (up[i] || (!t.switches_off(
                services[i].name@,
            ) && wished(us, g, up, services.len() as int, services[i].name@))),
    ensures
        forall|i: int|
            0 <= i < services.len() ==> #[trigger] up[i] == t.comes_up(us, g, services[i].name@),
{
    let names = Set::new(
        |n: Text|
            !known(us, n) || exists|j: int|
                0 <= j < services.len() && up[j] && #[trigger] services[j].name@ == n,
    );
    assert forall|n: Text| #[trigger] t.brings_up(us, n) implies names.contains(n) by {
        if known(us, n) {
            let j = choose|j: int| 0 <= j < us.len() && #[trigger] us[j].name == n;
            assert(services[j].name@ == n);
            assert(up[j]);
        }
    }
    assert forall|a: Text, b: Text|
        names.contains(a) && known(us, a) && #[trigger] g.wants.contains((a, b)) && !t.switches_off(
            b,
        ) implies names.contains(b) by {
        if known(us, b) {
            let j = choose|j: int|
                0 <= j < services.len() && up[j] && #[trigger] services[j].name@ == a;
            let k = choose|k: int| 0 <= k < us.len() && #[trigger] us[k].name == b;
            assert(us[j].name == a);
            assert(services[k].name@ == b);
            assert(wished(us, g, up, services.len() as int, b));
            assert(up[k]);
        }
    }
    assert(t.grants_all(us, g, names));
    assert forall|i: int| 0 <= i < services.len() implies #[trigger] up[i] == t.comes_up(
        us,
        g,
        services[i].name@,
    ) by {
        if t.comes_up(us, g, services[i].name@) {
            assert(names.contains(services[i].name@));
            assert(us[i].name == services[i].name@);
            assert(known(us, services[i].name@));
            let j = choose|j: int|
                0 <= j < services.len() && up[j] && #[trigger] services[j].name@
                    == services[i].name@;
            assert(us[j].name == us[i].name);
        }
    }
}

/// Whether one of the first `upto` services is up and wants the named one.
spec fn wished(us: Seq<Unit>, g: GraphModel, up: Seq<bool>, upto: int, name: Text) -> bool {
    exists|j: int| 0 <= j < upto && up[j] && g.wants.contains((#[trigger] us[j].name, name))
}

proof fn lemma_wished_step(us: Seq<Unit>, g: GraphModel, up: Seq<bool>, a: int, name: Text)
    requires
        0 <= a < us.len(),
    ensures
        wished(us, g, up, a + 1, name) == (wished(us, g, up, a, name) || (up[a] && g.wants.contains(
            (us[a].name, name),
        ))),
{
    if up[a] && g.wants.contains((us[a].name, name)) {
        assert(up[a] && g.wants.contains((us[a].name, name)));
    }
}

// ---------------------------------------------------------------------------
// Laws
// ---------------------------------------------------------------------------

/// Every required service is enabled.
pub proof fn required_services_are_enabled(
    t: Option<Target>,
    us: Seq<Unit>,
    g: GraphModel,
    name: Text,
)
    requires
        is_required(t, us, name),
    ensures
        is_enabled(t, us, g, name),
{
    if t is Some && t->0.entries.len() > 0 {
        let t = t->0;
        let names = Set::new(|n: Text| t.demands_in_turn(us, n) && t.brings_up(us, n));
        assert forall|n: Text| #[trigger] t.demands(us, n) implies names.contains(n) by {
            assert(t.demands_in_turn(us, n));
        }
        assert forall|a: Text, b: Text| names.contains(a) && #[trigger] needs(us, a, b) implies names.contains(
            b,
        ) by {
            assert(t.demands_in_turn(us, b));
            let d = choose|d: Dep| #[trigger] lists(us, a, d) && d.service == b && d.required;
            assert(lists(us, a, d));
            assert(t.pulls_in(us, b));
        }
        assert(t.is_closed(us, names));
        assert(names.contains(name));
    }
}

/// A service named in `requires` is required and enabled, whether or not the
/// table lists it and whatever the table says of it.
pub proof fn named_services_are_required(t: Target, us: Seq<Unit>, g: GraphModel, name: Text)
    requires
        t.requires.contains(name),
    ensures
        is_required(Some(t), us, name),
        is_enabled(Some(t), us, g, name),
{
    assert(t.demands(us, name));
    assert(t.brings_up(us, name));
}

/// An enabled entry that is not optional makes its service required.
pub proof fn enabled_entries_are_required(t: Target, us: Seq<Unit>, name: Text)
    requires
        known(us, name),
        entry_for(t.entries, name) matches Some(e) && e.enabled && !e.optional,
    ensures
        is_required(Some(t), us, name),
{
    assert(t.demands(us, name));
}

/// The required services are closed under required dependencies: what a
/// required service needs is itself required, and so enabled.
pub proof fn required_services_are_closed(
    t: Option<Target>,
    us: Seq<Unit>,
    g: GraphModel,
    a: Text,
    b: Text,
)
    requires
        is_required(t, us, a),
        needs(us, a, b),
    ensures
        is_required(t, us, b),
        is_enabled(t, us, g, b),
{
    required_services_are_enabled(t, us, g, b);
}

/// A service that is wanted by an enabled one is itself enabled, unless the
/// target's table disables it.
pub proof fn wanted_services_are_enabled(
    t: Target,
    us: Seq<Unit>,
    g: GraphModel,
    a: Text,
    b: Text,
)
    requires
        known(us, a),
        is_enabled(Some(t), us, g, a),
        g.wants.contains((a, b)),
        !t.switches_off(b),
    ensures
        is_enabled(Some(t), us, g, b),
{
}

/// A service that the table disables stays disabled, however many services
/// merely wish for it, unless `requires` names it or a required service
/// depends on it in another way.
pub proof fn disabled_services_stay_disabled(
    t: Target,
    us: Seq<Unit>,
    g: GraphModel,
    name: Text,
)
    requires
        t.switches_off(name),
        !t.requires.contains(name),
        forall|a: Text, d: Dep| #[trigger]
            lists(us, a, d) && d.service == name && t.demands_in_turn(us, a) ==> d.kind
                == DependencyType::Wants && !d.required,
    ensures
        !is_enabled(Some(t), us, g, name),
{
    assert(t.entries.len() > 0) by {
        if t.entries.len() == 0 {
            assert(entry_for(t.entries, name) is None);
        }
    }
    let others = Set::new(|n: Text| n != name);
    assert(!t.brings_up(us, name));
    assert(t.grants_all(us, g, others));
}

/// The entry of a service is the first one under its name, and there is none
/// exactly where no entry bears the name.
pub proof fn entries_are_found_by_name(entries: Seq<(Text, TargetServiceEntry)>, name: Text)
    ensures
        match entry_for(entries, name) {
            Some(e) => exists|i: int|
                0 <= i < entries.len() && #[trigger] entries[i] == (name, e) && forall|j: int|
                    0 <= j < i ==> (#[trigger] entries[j]).0 != name,
            None => forall|i: int| 0 <= i < entries.len() ==> (#[trigger] entries[i]).0 != name,
        },
    decreases entries.len(),
{
    if entries.len() > 0 {
        if entries[0].0 == name {
            assert(entries[0] == (name, entry_for(entries, name)->0));
        } else {
            let rest = entries.skip(1);
            entries_are_found_by_name(rest, name);
            match entry_for(rest, name) {
                Some(e) => {
                    let i = choose|i: int|
                        0 <= i < rest.len() && #[trigger] rest[i] == (name, e) && forall|j: int|
                            0 <= j < i ==> (#[trigger] rest[j]).0 != name;
                    assert(entries[i + 1] == (name, e));
                    assert forall|j: int| 0 <= j < i + 1 implies (#[trigger] entries[j]).0
                        != name by {
                        if j > 0 {
                            assert(rest[j - 1] == entries[j]);
                        }
                    }
                },
                None => {
                    assert forall|i: int| 0 <= i < entries.len() implies (#[trigger] entries[i]).0
                        != name by {
                        if i > 0 {
                            assert(rest[i - 1] == entries[i]);
                        }
                    }
                },
            }
        }
    }
}

/// A service comes up for a reason only: its entry is enabled, `requires` names
/// it, a required service depends on it, or an enabled one wants it; and a mere
/// wish is not granted for a service that the table disables.
pub proof fn services_come_up_for_a_reason(t: Target, us: Seq<Unit>, g: GraphModel, name: Text)
    requires
        t.entries.len() > 0,
        is_enabled(Some(t), us, g, name),
    ensures
        ({
            let disabled = entry_for(t.entries, name) matches Some(e) && !e.enabled;
            ||| entry_for(t.entries, name) matches Some(e) && e.enabled
            ||| t.requires.contains(name)
            ||| exists|a: Text, d: Dep|
                is_required(Some(t), us, a) && #[trigger] lists(us, a, d) && d.service == name && !(
                d.kind == DependencyType::Wants && !d.required && disabled)
            ||| !disabled && exists|a: Text|
                is_enabled(Some(t), us, g, a) && known(us, a) && #[trigger] g.wants.contains(
                    (a, name),
                )
        }),
{
    let wanted = exists|a: Text|
        is_enabled(Some(t), us, g, a) && known(us, a) && #[trigger] g.wants.contains((a, name));
    if !t.brings_up(us, name) && !(wanted && !t.switches_off(name)) {
        let others = Set::new(|n: Text| t.comes_up(us, g, n) && n != name);
        assert forall|n: Text| #[trigger] t.brings_up(us, n) implies others.contains(n) by {
            assert(t.comes_up(us, g, n));
        }
        assert forall|a: Text, b: Text|
            others.contains(a) && known(us, a) && #[trigger] g.wants.contains((a, b))
                && !t.switches_off(b) implies others.contains(b) by {
            assert(t.comes_up(us, g, b)) by {
                assert forall|names: Set<Text>| #[trigger]
                    t.grants_all(us, g, names) implies names.contains(b) by {
                    assert(names.contains(a));
                }
            }
            if b == name {
                assert(is_enabled(Some(t), us, g, a));
            }
        }
        assert(t.grants_all(us, g, others));
        assert(others.contains(name));
    }
    if t.pulls_in(us, name) {
        let (a, d) = choose|a: Text, d: Dep|
            {
                &&& t.demands_in_turn(us, a)
                &&& #[trigger] lists(us, a, d)
                &&& d.service == name
                &&& !(d.kind == DependencyType::Wants && !d.required && t.switches_off(name))
            };
        assert(is_required(Some(t), us, a) && lists(us, a, d));
    }
}

/// A service is required for a reason only: `requires` names it, its entry is
/// enabled and not optional, or a required service needs it.
pub proof fn services_are_required_for_a_reason(t: Target, us: Seq<Unit>, name: Text)
    requires
        t.entries.len() > 0,
        is_required(Some(t), us, name),
    ensures
        ({
            ||| t.requires.contains(name)
            ||| entry_for(t.entries, name) matches Some(e) && e.enabled && !e.optional
            ||| exists|a: Text| is_required(Some(t), us, a) && #[trigger] needs(us, a, name)
        }),
{
    if !t.demands(us, name) && !exists|a: Text|
        is_required(Some(t), us, a) && #[trigger] needs(us, a, name) {
        let others = Set::new(|n: Text| t.demands_in_turn(us, n) && n != name);
        assert forall|n: Text| #[trigger] t.demands(us, n) implies others.contains(n) by {
            assert(t.demands_in_turn(us, n));
        }
        assert forall|a: Text, b: Text| others.contains(a) && #[trigger] needs(us, a, b) implies others.contains(
            b,
        ) by {
            assert(t.demands_in_turn(us, b)) by {
                assert forall|names: Set<Text>| #[trigger]
                    t.is_closed(us, names) implies names.contains(b) by {
                    assert(names.contains(a));
                }
            }
            if b == name {
                assert(is_required(Some(t), us, a));
            }
        }
        assert(t.is_closed(us, others));
        assert(others.contains(name));
    }
}

/// What a required service depends on comes up with it, in whatever way it
/// depends on it, unless it merely wishes for a service that the table disables.
pub proof fn dependencies_of_required_services_come_up(
    t: Target,
    us: Seq<Unit>,
    g: GraphModel,
    a: Text,
    d: Dep,
)
    requires
        is_required(Some(t), us, a),
        lists(us, a, d),
        d.required || !(d.kind is Wants) || !(entry_for(t.entries, d.service) matches Some(e)
            && !e.enabled),
    ensures
        is_enabled(Some(t), us, g, d.service),
{
    if t.entries.len() > 0 {
        assert(t.demands_in_turn(us, a));
        assert(t.pulls_in(us, d.service));
        assert(t.brings_up(us, d.service));
    }
}

/// An enabled entry brings its service up, optional or not.
pub proof fn enabled_entries_come_up(t: Target, us: Seq<Unit>, g: GraphModel, name: Text)
    requires
        entry_for(t.entries, name) matches Some(e) && e.enabled,
    ensures
        is_enabled(Some(t), us, g, name),
{
    assert(t.brings_up(us, name));
}

/// Without a target, or with one that lists no services, all services come up
/// and all are required, and nothing can be missing.
pub proof fn without_entries_everything_comes_up(
    t: Target,
    us: Seq<Unit>,
    g: GraphModel,
    name: Text,
)
    requires
        t.entries.len() == 0,
    ensures
        is_enabled(None, us, g, name) && is_required(None, us, name) && !lacks_required(None, us),
        is_enabled(Some(t), us, g, name) && is_required(Some(t), us, name) && !lacks_required(
            Some(t),
            us,
        ),
{
}

/// The boot is degraded from the start exactly where the target names a
/// required service that does not exist.
pub proof fn missing_services_degrade_the_boot(t: Target, us: Seq<Unit>)
    requires
        t.entries.len() > 0,
    ensures
        lacks_required(Some(t), us) <==> exists|k: int|
            0 <= k < t.requires.len() && is_name_of_none(us, #[trigger] t.requires[k]),
{
    assert forall|n: Text| #[trigger] is_name_of_none(us, n) <==> !known(us, n) by {
        if known(us, n) {
            let i = choose|i: int| 0 <= i < us.len() && #[trigger] us[i].name == n;
            assert(us[i].name == n);
        } else {
            assert forall|i: int| 0 <= i < us.len() implies (#[trigger] us[i]).name != n by {
                assert(us[i].name != n);
            }
        }
    }
    if lacks_required(Some(t), us) {
        let k = choose|k: int| 0 <= k < t.requires.len() && !known(us, #[trigger] t.requires[k]);
        assert(is_name_of_none(us, t.requires[k]));
    }
    if exists|k: int| 0 <= k < t.requires.len() && is_name_of_none(us, #[trigger] t.requires[k]) {
        let k = choose|k: int|
            0 <= k < t.requires.len() && is_name_of_none(us, #[trigger] t.requires[k]);
        assert(is_name_of_none(us, t.requires[k]));
        assert(!known(us, t.requires[k]));
    }
}

/// Whether no unit bears the name.
pub open spec fn is_name_of_none(us: Seq<Unit>, name: Text) -> bool {
    forall|i: int| 0 <= i < us.len() ==> (#[trigger] us[i]).name != name
}

/// A target sees of the services their names and all their dependencies, as
/// their files have them, and of its own file all names and entries.
pub proof fn targets_see_what_is_configured(
    services: Seq<ServiceState>,
    i: int,
    k: int,
    t: TargetConfig,
)
    requires
        0 <= i < services.len(),
    ensures
        units(services).len() == services.len(),
        units(services)[i].name == services[i].name@,
        units(services)[i].deps.len() == services[i].config.dependencies@.len(),
        0 <= k < services[i].config.dependencies@.len() ==> {
            let d = units(services)[i].deps[k];
            let c = services[i].config.dependencies@[k];
            d.service == c.service@ && d.kind == c.kind && d.required == c.required
        },
        target_of(t).requires.len() == t.target.requires@.len(),
        0 <= k < t.target.requires@.len() ==> target_of(t).requires[k] == t.target.requires@[k]@,
        target_of(t).entries.len() == t.services@.len(),
        0 <= k < t.services@.len() ==> target_of(t).entries[k].0 == t.services@[k].0@ && target_of(
            t,
        ).entries[k].1 == t.services@[k].1,
{
}

/// A service needs another exactly where it lists it as required and the other
/// exists.
pub proof fn only_required_dependencies_are_needed(us: Seq<Unit>, a: Text, b: Text)
    ensures
        needs(us, a, b) <==> {
            &&& exists|j: int| 0 <= j < us.len() && (#[trigger] us[j]).name == b
            &&& exists|i: int, k: int|
                0 <= i < us.len() && us[i].name == a && 0 <= k < us[i].deps.len() && (
                #[trigger] us[i].deps[k]).service == b && us[i].deps[k].required
        },
{
    if needs(us, a, b) {
        let d = choose|d: Dep| #[trigger] lists(us, a, d) && d.service == b && d.required;
        let i = choose|i: int|
            0 <= i < us.len() && #[trigger] us[i].name == a && us[i].deps.contains(d);
        let k = choose|k: int| 0 <= k < us[i].deps.len() && us[i].deps[k] == d;
        assert(us[i].deps[k].service == b);
    }
    if exists|i: int, k: int|
        0 <= i < us.len() && us[i].name == a && 0 <= k < us[i].deps.len() && (
        #[trigger] us[i].deps[k]).service == b && us[i].deps[k].required {
        let (i, k) = choose|i: int, k: int|
            0 <= i < us.len() && us[i].name == a && 0 <= k < us[i].deps.len() && (
            #[trigger] us[i].deps[k]).service == b && us[i].deps[k].required;
        assert(us[i].deps.contains(us[i].deps[k]));
        assert(lists(us, a, us[i].deps[k]));
    }
}

/// No two services share a name exactly where their names differ pairwise; a
/// missing target file is no target.
pub proof fn names_tell_services_apart(us: Seq<Unit>, t: TargetConfig)
    ensures
        distinct_names(us) <==> forall|i: int, j: int|
            0 <= i < j < us.len() ==> #[trigger] us[i].name != #[trigger] us[j].name,
        target_view(None) is None,
        target_view(Some(&t)) == Some(target_of(t)),
{
}

} // verus!
