//! Dependency graph resolution using Kahn's algorithm.
//!
//! Edge semantics, for a service `s` in the set:
//! - `after = [B]`, `requires = [B]`, `wants = [B]`: `B` starts before `s` (edge B -> s);
//! - `before = [C]`: `s` starts before `C` (edge s -> C);
//! - `conflicts`, `stop_before`, `stop_after`: no startup ordering.
//! Edges to names outside the set are ignored.
//!
//! The queue starts with the services that wait for nothing, in name order;
//! when a service is taken from the queue, the services whose last prerequisite
//! it was join the queue, in name order.
use vstd::prelude::*;

use crate::error::Error;
use crate::strmap::Dup;
use crate::text::{join, join_strings, str_eq, str_views};
use crate::types::service_spec::ServiceSpec;

verus! {

// ---------------------------------------------------------------------------
// Name order
// ---------------------------------------------------------------------------

/// Character-wise lexicographic order: `a` sorts strictly before `b`.
pub open spec fn seq_less(a: Seq<char>, b: Seq<char>) -> bool
    decreases a.len(),
{
    if a.len() == 0 {
        b.len() > 0
    } else if b.len() == 0 {
        false
    } else if a[0] != b[0] {
        (a[0] as int) < (b[0] as int)
    } else {
        seq_less(a.drop_first(), b.drop_first())
    }
}

/// No name sorts before itself.
pub proof fn lemma_less_irreflexive(a: Seq<char>)
    ensures
        !seq_less(a, a),
    decreases a.len(),
{
    if a.len() > 0 {
        lemma_less_irreflexive(a.drop_first());
    }
}

/// Of two different names, one sorts before the other.
pub proof fn lemma_less_total(a: Seq<char>, b: Seq<char>)
    requires
        a != b,
    ensures
        seq_less(a, b) || seq_less(b, a),
    decreases a.len(),
{
    if a.len() > 0 && b.len() > 0 && a[0] == b[0] {
        if a.drop_first() == b.drop_first() {
            assert(a.drop_first().len() == a.len() - 1);
            assert(b.drop_first().len() == b.len() - 1);
            assert(a.len() == b.len());
            assert(a =~= b) by {
                assert forall|i: int| 0 <= i < a.len() implies a[i] == b[i] by {
                    if i > 0 {
                        assert(a[i] == a.drop_first()[i - 1]);
                        assert(b[i] == b.drop_first()[i - 1]);
                    }
                }
            }
        }
        lemma_less_total(a.drop_first(), b.drop_first());
    } else if a.len() == 0 && b.len() == 0 {
        assert(a =~= b);
    } else if a.len() > 0 && b.len() > 0 {
        assert((a[0] as int) != (b[0] as int));
    }
}

/// Name order is transitive.
pub proof fn lemma_less_transitive(a: Seq<char>, b: Seq<char>, c: Seq<char>)
    requires
        seq_less(a, b),
        seq_less(b, c),
    ensures
        seq_less(a, c),
    decreases a.len(),
{
    if a.len() > 0 && b.len() > 0 && c.len() > 0 && a[0] == b[0] && b[0] == c[0] {
        lemma_less_transitive(a.drop_first(), b.drop_first(), c.drop_first());
    }
}

/// Whether `a` sorts strictly before `b` (character-wise lexicographic order).
pub fn str_less(a: &str, b: &str) -> (r: bool)
    ensures
        r == seq_less(a@, b@),
{
    let n = a.unicode_len();
    let m = b.unicode_len();
    let mut i: usize = 0;
    assert(a@.skip(0) =~= a@);
    assert(b@.skip(0) =~= b@);
    while i < n && i < m
        invariant
            n == a@.len(),
            m == b@.len(),
            i <= n,
            i <= m,
            seq_less(a@, b@) == seq_less(a@.skip(i as int), b@.skip(i as int)),
        decreases n - i,
    {
        let x = a.get_char(i);
        let y = b.get_char(i);
        assert(a@.skip(i as int)[0] == x);
        assert(b@.skip(i as int)[0] == y);
        if x != y {
            return (x as u32) < (y as u32);
        }
        assert(a@.skip(i as int).drop_first() =~= a@.skip(i + 1));
        assert(b@.skip(i as int).drop_first() =~= b@.skip(i + 1));
        i = i + 1;
    }
    n < m
}

// ---------------------------------------------------------------------------
// The graph a set of specs denotes
// ---------------------------------------------------------------------------

/// Whether `v` lists the name `u`.
pub open spec fn lists(v: Seq<String>, u: Seq<char>) -> bool {
    exists|i: int| 0 <= i < v.len() && #[trigger] v[i]@ == u
}

/// The names of the services in the set.
pub open spec fn names_of(specs: Seq<ServiceSpec>) -> Set<Seq<char>> {
    Set::new(|n: Seq<char>| exists|i: int| 0 <= i < specs.len() && #[trigger] specs[i].name@ == n)
}

/// Whether `s` orders `u` before `v`, by its own dependency lists.
pub open spec fn spec_edge(s: ServiceSpec, u: Seq<char>, v: Seq<char>) -> bool {
    ||| (v == s.name@ && (lists(s.depends_on.after@, u) || lists(s.depends_on.requires@, u) || lists(
        s.depends_on.wants@,
        u,
    )))
    ||| (u == s.name@ && lists(s.depends_on.before@, v))
}

/// Whether `u` must start before `v`: both are in the set and some spec orders them.
pub open spec fn start_edge(specs: Seq<ServiceSpec>, u: Seq<char>, v: Seq<char>) -> bool {
    &&& names_of(specs).contains(u)
    &&& names_of(specs).contains(v)
    &&& exists|i: int| 0 <= i < specs.len() && spec_edge(#[trigger] specs[i], u, v)
}

/// `order` lists every service of the set once, each after all that must start before it.
pub open spec fn is_startup_order(specs: Seq<ServiceSpec>, order: Seq<Seq<char>>) -> bool {
    &&& order.no_duplicates()
    &&& order.to_set() == names_of(specs)
    &&& forall|i: int, j: int|
        0 <= i < order.len() && 0 <= j < order.len() && start_edge(
            specs,
            #[trigger] order[i],
            #[trigger] order[j],
        ) ==> i < j
}

/// Position of the last entry of `order` that must start before `v`, or -1 if none does.
pub open spec fn release_pos(specs: Seq<ServiceSpec>, order: Seq<Seq<char>>, v: Seq<char>) -> int
    decreases order.len(),
{
    if order.len() == 0 {
        -1
    } else if start_edge(specs, order.last(), v) {
        order.len() - 1
    } else {
        release_pos(specs, order.drop_last(), v)
    }
}

/// Entry `i` of `order` is released before entry `j`: by an earlier entry, or by the same
/// entry (or by none, for both) and it sorts first by name.
pub open spec fn released_before(specs: Seq<ServiceSpec>, order: Seq<Seq<char>>, i: int, j: int) -> bool {
    let ri = release_pos(specs, order.take(i), order[i]);
    let rj = release_pos(specs, order.take(j), order[j]);
    ri < rj || (ri == rj && seq_less(order[i], order[j]))
}

/// `order` is the startup order that the queue produces.
pub open spec fn is_resolved_order(specs: Seq<ServiceSpec>, order: Seq<Seq<char>>) -> bool {
    &&& is_startup_order(specs, order)
    &&& forall|i: int, j: int| 0 <= i < j < order.len() ==> #[trigger] released_before(specs, order, i, j)
}

/// Some member of `s` must start before `u`.
pub open spec fn waits_on(specs: Seq<ServiceSpec>, s: Set<Seq<char>>, u: Seq<char>) -> bool {
    exists|w: Seq<char>| s.contains(w) && #[trigger] start_edge(specs, w, u)
}

/// Every member of `s` is a service of the set that must start after another member of `s`.
pub open spec fn waits_within(specs: Seq<ServiceSpec>, s: Set<Seq<char>>) -> bool {
    forall|u: Seq<char>| #[trigger] s.contains(u) ==> names_of(specs).contains(u) && waits_on(specs, s, u)
}

/// The set's ordering constraints are circular: some services wait only on each other.
#[verifier::opaque]
pub open spec fn has_cycle(specs: Seq<ServiceSpec>) -> bool {
    exists|s: Set<Seq<char>>, u: Seq<char>| waits_within(specs, s) && #[trigger] s.contains(u)
}

/// `rem` is, in name order, the largest set of services that wait only on each other.
pub open spec fn is_stuck_set(specs: Seq<ServiceSpec>, rem: Seq<Seq<char>>) -> bool {
    &&& forall|i: int, j: int| 0 <= i < j < rem.len() ==> seq_less(#[trigger] rem[i], #[trigger] rem[j])
    &&& waits_within(specs, rem.to_set())
    &&& forall|s: Set<Seq<char>>| #[trigger] waits_within(specs, s) ==> s.subset_of(rem.to_set())
}

/// The message that names the services caught in a cycle.
pub open spec fn cycle_message(rem: Seq<Seq<char>>) -> Seq<char> {
    "circular dependency involving: "@ + join(rem, ", "@)
}

/// What `resolve_order` returns for `specs`.
#[verifier::opaque]
pub open spec fn resolution(specs: Seq<ServiceSpec>, r: Result<Vec<String>, Error>) -> bool {
    match r {
        Ok(order) => is_resolved_order(specs, str_views(order@)),
        Err(e) => exists|rem: Seq<Seq<char>>|
            #![trigger is_stuck_set(specs, rem)]
            is_stuck_set(specs, rem) && rem.len() > 0 && (e matches Error::DependencyError(m) && m@
                == cycle_message(rem)),
    }
}

// ---------------------------------------------------------------------------
// Laws
// ---------------------------------------------------------------------------

/// A set that has a startup order has no cycle.
pub proof fn lemma_startup_order_excludes_cycle(specs: Seq<ServiceSpec>, order: Seq<Seq<char>>)
    requires
        is_startup_order(specs, order),
    ensures
        !has_cycle(specs),
{
    reveal(has_cycle);
    if has_cycle(specs) {
        let (s, u) = choose|s: Set<Seq<char>>, u: Seq<char>| waits_within(specs, s) && #[trigger] s.contains(u);
        lemma_no_member_waits_first(specs, order, s, u);
    }
}

/// Under a startup order, no set of services can wait only on its own members.
proof fn lemma_no_member_waits_first(
    specs: Seq<ServiceSpec>,
    order: Seq<Seq<char>>,
    s: Set<Seq<char>>,
    u: Seq<char>,
)
    requires
        is_startup_order(specs, order),
    ensures
        !(waits_within(specs, s) && s.contains(u)),
{
    if waits_within(specs, s) && s.contains(u) {
        assert(names_of(specs).contains(u));
        assert(order.to_set().contains(u));
        let k0 = choose|k: int| 0 <= k < order.len() && order[k] == u;
        lemma_first_member(order, s, k0);
        let m = choose|m: int|
            0 <= m <= k0 && s.contains(order[m]) && forall|j: int| 0 <= j < m ==> !s.contains(#[trigger] order[j]);
        let w = choose|w: Seq<char>| s.contains(w) && #[trigger] start_edge(specs, w, order[m]);
        assert(names_of(specs).contains(w));
        assert(order.to_set().contains(w));
        let kw = choose|kw: int| 0 <= kw < order.len() && order[kw] == w;
        assert(start_edge(specs, order[kw], order[m]));
        assert(kw < m);
        assert(!s.contains(order[kw]));
    }
}

/// The first position of `order` whose entry `s` holds.
proof fn lemma_first_member(order: Seq<Seq<char>>, s: Set<Seq<char>>, k: int)
    requires
        0 <= k < order.len(),
        s.contains(order[k]),
    ensures
        exists|m: int|
            0 <= m <= k && s.contains(order[m]) && forall|j: int| 0 <= j < m ==> !s.contains(#[trigger] order[j]),
    decreases k,
{
    if exists|j: int| 0 <= j < k && s.contains(#[trigger] order[j]) {
        let j = choose|j: int| 0 <= j < k && s.contains(#[trigger] order[j]);
        lemma_first_member(order, s, j);
    } else {
        assert(forall|j: int| 0 <= j < k ==> !s.contains(#[trigger] order[j]));
    }
}

/// A non-empty set of services that wait only on each other makes the constraints circular.
pub proof fn lemma_stuck_set_is_cycle(specs: Seq<ServiceSpec>, rem: Seq<Seq<char>>)
    requires
        is_stuck_set(specs, rem),
        rem.len() > 0,
    ensures
        has_cycle(specs),
{
    reveal(has_cycle);
    assert(rem.to_set().contains(rem[0]));
}

/// `resolve_order` succeeds exactly on the sets without a cycle.
pub proof fn lemma_resolution_succeeds_iff_acyclic(specs: Seq<ServiceSpec>, r: Result<Vec<String>, Error>)
    requires
        resolution(specs, r),
    ensures
        r is Ok <==> !has_cycle(specs),
{
    reveal(resolution);
    match r {
        Ok(order) => {
            lemma_startup_order_excludes_cycle(specs, str_views(order@));
        },
        Err(e) => {
            let rem = choose|rem: Seq<Seq<char>>|
                #![trigger is_stuck_set(specs, rem)]
                is_stuck_set(specs, rem) && rem.len() > 0 && (e matches Error::DependencyError(m) && m@
                    == cycle_message(rem));
            lemma_stuck_set_is_cycle(specs, rem);
        },
    }
}

proof fn lemma_release_pos_none(specs: Seq<ServiceSpec>, order: Seq<Seq<char>>, v: Seq<char>)
    requires
        forall|u: Seq<char>| !#[trigger] start_edge(specs, u, v),
    ensures
        release_pos(specs, order, v) == -1,
    decreases order.len(),
{
    if order.len() > 0 {
        assert(!start_edge(specs, order.last(), v));
        lemma_release_pos_none(specs, order.drop_last(), v);
    }
}

/// Services that do not depend on one another start in name order: when no service
/// of the set must start before another, the resolved order is sorted by name.
pub proof fn lemma_independent_services_in_name_order(specs: Seq<ServiceSpec>, r: Result<Vec<String>, Error>)
    requires
        resolution(specs, r),
        forall|u: Seq<char>, v: Seq<char>| !#[trigger] start_edge(specs, u, v),
    ensures
        r matches Ok(order) && forall|i: int, j: int|
            0 <= i < j < order@.len() ==> seq_less(#[trigger] order@[i]@, #[trigger] order@[j]@),
{
    lemma_resolution_succeeds_iff_acyclic(specs, r);
    assert(!has_cycle(specs)) by {
        reveal(has_cycle);
        if has_cycle(specs) {
            let (s, u) = choose|s: Set<Seq<char>>, u: Seq<char>| waits_within(specs, s) && #[trigger] s.contains(u);
            assert(waits_on(specs, s, u));
        }
    }
    reveal(resolution);
    let order = r->Ok_0;
    let names = str_views(order@);
    assert forall|i: int, j: int| 0 <= i < j < order@.len() implies seq_less(
        #[trigger] order@[i]@,
        #[trigger] order@[j]@,
    ) by {
        assert(released_before(specs, names, i, j));
        lemma_release_pos_none(specs, names.take(i), names[i]);
        lemma_release_pos_none(specs, names.take(j), names[j]);
    }
}

// ---------------------------------------------------------------------------
// Nodes
// ---------------------------------------------------------------------------

/// `nodes` lists distinct names in strictly increasing name order.
spec fn sorted_names(nodes: Seq<String>) -> bool {
    forall|i: int, j: int| 0 <= i < j < nodes.len() ==> seq_less(#[trigger] nodes[i]@, #[trigger] nodes[j]@)
}

proof fn lemma_sorted_distinct(nodes: Seq<String>, i: int, j: int)
    requires
        sorted_names(nodes),
        0 <= i < nodes.len(),
        0 <= j < nodes.len(),
        i != j,
    ensures
        nodes[i]@ != nodes[j]@,
{
    if i < j {
        assert(seq_less(nodes[i]@, nodes[j]@));
        lemma_less_irreflexive(nodes[i]@);
    } else {
        assert(seq_less(nodes[j]@, nodes[i]@));
        lemma_less_irreflexive(nodes[i]@);
    }
}

/// Position of `name` among `nodes`, if present.
fn find_node(nodes: &Vec<String>, name: &str) -> (r: Option<usize>)
    ensures
        match r {
            Some(i) => i < nodes@.len() && nodes@[i as int]@ == name@,
            None => !lists(nodes@, name@),
        },
{
    let mut i: usize = 0;
    while i < nodes.len()
        invariant
            i <= nodes@.len(),
            forall|j: int| 0 <= j < i ==> nodes@[j]@ != name@,
        decreases nodes@.len() - i,
    {
        if str_eq(nodes[i].as_str(), name) {
            return Some(i);
        }
        i = i + 1;
    }
    None
}

/// The names that `nodes` lists.
spec fn node_set(nodes: Seq<String>) -> Set<Seq<char>> {
    Set::new(|n: Seq<char>| lists(nodes, n))
}

/// The distinct names of the set, in name order.
fn node_names(specs: &[ServiceSpec]) -> (nodes: Vec<String>)
    ensures
        sorted_names(nodes@),
        node_set(nodes@) == names_of(specs@),
{
    let mut nodes: Vec<String> = Vec::new();
    let mut i: usize = 0;
    while i < specs.len()
        invariant
            i <= specs@.len(),
            sorted_names(nodes@),
            node_set(nodes@) == names_of(specs@.take(i as int)),
        decreases specs@.len() - i,
    {
        let name = &specs[i].name;
        let ghost before = nodes@;
        assert(names_of(specs@.take(i + 1)) =~= names_of(specs@.take(i as int)).insert(name@)) by {
            assert forall|n: Seq<char>| names_of(specs@.take(i + 1)).contains(n) implies names_of(
                specs@.take(i as int),
            ).insert(name@).contains(n) by {
                let k = choose|k: int| 0 <= k < i + 1 && #[trigger] specs@.take(i + 1)[k].name@ == n;
                if k < i {
                    assert(specs@.take(i as int)[k].name@ == n);
                }
            }
            assert forall|n: Seq<char>| names_of(specs@.take(i as int)).insert(name@).contains(
                n,
            ) implies names_of(specs@.take(i + 1)).contains(n) by {
                if n == name@ {
                    assert(specs@.take(i + 1)[i as int].name@ == n);
                } else {
                    let k = choose|k: int| 0 <= k < i && #[trigger] specs@.take(i as int)[k].name@ == n;
                    assert(specs@.take(i + 1)[k].name@ == n);
                }
            }
        }
        match find_node(&nodes, name.as_str()) {
            Some(j) => {
                assert(node_set(before).insert(name@) =~= node_set(before)) by {
                    assert(before[j as int]@ == name@);
                }
            },
            None => {
                let mut p: usize = 0;
                while p < nodes.len() && str_less(nodes[p].as_str(), name.as_str())
                    invariant
                        p <= nodes@.len(),
                        nodes@ == before,
                        forall|k: int| 0 <= k < p ==> seq_less(#[trigger] before[k]@, name@),
                    decreases nodes@.len() - p,
                {
                    p = p + 1;
                }
                proof {
                    if p < before.len() {
                        assert(before[p as int]@ != name@);
                        lemma_less_total(before[p as int]@, name@);
                    }
                }
                nodes.insert(p, name.dup());
                proof {
                    let after = nodes@;
                    assert(after =~= before.insert(p as int, after[p as int]));
                    assert(sorted_names(after)) by {
                        assert forall|a: int, b: int| 0 <= a < b < after.len() implies seq_less(
                            #[trigger] after[a]@,
                            #[trigger] after[b]@,
                        ) by {
                            if b < p {
                                assert(seq_less(before[a]@, before[b]@));
                            } else if b == p {
                            } else if a < p {
                                assert(after[b] == before[b - 1]);
                                assert(seq_less(before[a]@, before[b - 1]@));
                            } else if a == p {
                                assert(after[b] == before[b - 1]);
                                if b - 1 > p {
                                    assert(seq_less(before[p as int]@, before[b - 1]@));
                                    lemma_less_transitive(name@, before[p as int]@, before[b - 1]@);
                                }
                            } else {
                                assert(after[a] == before[a - 1]);
                                assert(after[b] == before[b - 1]);
                                assert(seq_less(before[a - 1]@, before[b - 1]@));
                            }
                        }
                    }
                    assert(node_set(after) =~= node_set(before).insert(name@)) by {
                        assert forall|x: Seq<char>| node_set(after).contains(x) implies node_set(
                            before,
                        ).insert(name@).contains(x) by {
                            let k = choose|k: int| 0 <= k < after.len() && #[trigger] after[k]@ == x;
                            if k < p {
                                assert(before[k]@ == x);
                            } else if k > p {
                                assert(before[k - 1]@ == x);
                            }
                        }
                        assert forall|x: Seq<char>| node_set(before).insert(name@).contains(
                            x,
                        ) implies node_set(after).contains(x) by {
                            if x == name@ {
                                assert(after[p as int]@ == x);
                            } else {
                                let k = choose|k: int| 0 <= k < before.len() && #[trigger] before[k]@ == x;
                                if k < p {
                                    assert(after[k]@ == x);
                                } else {
                                    assert(after[k + 1]@ == x);
                                }
                            }
                        }
                    }
                }
            },
        }
        i = i + 1;
    }
    assert(specs@.take(specs@.len() as int) =~= specs@);
    nodes
}


// ---------------------------------------------------------------------------
// Adjacency matrix over node positions
// ---------------------------------------------------------------------------

/// `adj` is an `n` by `n` matrix.
spec fn square(adj: Seq<Vec<bool>>, n: int) -> bool {
    adj.len() == n && forall|a: int| 0 <= a < n ==> #[trigger] adj[a]@.len() == n
}

/// Entry (a, b): node `a` must start before node `b`.
spec fn edge(adj: Seq<Vec<bool>>, a: usize, b: usize) -> bool {
    adj[a as int]@[b as int]
}

/// An `n` by `n` matrix without edges.
fn empty_matrix(n: usize) -> (adj: Vec<Vec<bool>>)
    ensures
        square(adj@, n as int),
        forall|a: usize, b: usize| a < n && b < n ==> !#[trigger] edge(adj@, a, b),
{
    let mut adj: Vec<Vec<bool>> = Vec::new();
    let mut a: usize = 0;
    while a < n
        invariant
            a <= n,
            adj@.len() == a,
            forall|x: int| 0 <= x < a ==> #[trigger] adj@[x]@.len() == n,
            forall|x: usize, y: usize| x < a && y < n ==> !#[trigger] edge(adj@, x, y),
        decreases n - a,
    {
        let mut row: Vec<bool> = Vec::new();
        let mut b: usize = 0;
        while b < n
            invariant
                b <= n,
                row@.len() == b,
                forall|y: int| 0 <= y < b ==> !row@[y],
            decreases n - b,
        {
            row.push(false);
            b = b + 1;
        }
        let ghost r = row@;
        let ghost prev = adj@;
        adj.push(row);
        assert forall|x: usize, y: usize| x < a + 1 && y < n implies !#[trigger] edge(adj@, x, y) by {
            if x < a {
                assert(adj@[x as int] == prev[x as int]);
                assert(!edge(prev, x, y));
            } else {
                assert(adj@[a as int]@ == r);
            }
        }
        a = a + 1;
    }
    adj
}

/// Adds the edge (a, b).
fn set_edge(adj: &mut Vec<Vec<bool>>, n: usize, a: usize, b: usize)
    requires
        square(old(adj)@, n as int),
        a < n,
        b < n,
    ensures
        square(final(adj)@, n as int),
        forall|x: usize, y: usize|
            x < n && y < n ==> #[trigger] edge(final(adj)@, x, y) == (edge(old(adj)@, x, y) || (x == a && y
                == b)),
{
    adj[a].set(b, true);
}

/// Whether `lists(v.take(k + 1), u)` follows from the first `k` entries or from entry `k`.
proof fn lemma_lists_step(v: Seq<String>, k: int, u: Seq<char>)
    requires
        0 <= k < v.len(),
    ensures
        lists(v.take(k + 1), u) == (lists(v.take(k), u) || v[k]@ == u),
{
    if lists(v.take(k + 1), u) {
        let i = choose|i: int| 0 <= i < k + 1 && #[trigger] v.take(k + 1)[i]@ == u;
        if i < k {
            assert(v.take(k)[i]@ == u);
        }
    }
    if lists(v.take(k), u) {
        let i = choose|i: int| 0 <= i < k && #[trigger] v.take(k)[i]@ == u;
        assert(v.take(k + 1)[i]@ == u);
    }
    if v[k]@ == u {
        assert(v.take(k + 1)[k]@ == u);
    }
}

/// Adds an edge from every node that `deps` names to node `target`.
fn add_edges_into(adj: &mut Vec<Vec<bool>>, nodes: &Vec<String>, deps: &Vec<String>, target: usize)
    requires
        square(old(adj)@, nodes@.len() as int),
        sorted_names(nodes@),
        target < nodes@.len(),
    ensures
        square(final(adj)@, nodes@.len() as int),
        forall|x: usize, y: usize|
            x < nodes@.len() && y < nodes@.len() ==> #[trigger] edge(final(adj)@, x, y) == (edge(
                old(adj)@,
                x,
                y,
            ) || (y == target && lists(deps@, nodes@[x as int]@))),
{
    let ghost adj0 = adj@;
    let n = nodes.len();
    let mut k: usize = 0;
    while k < deps.len()
        invariant
            n == nodes@.len(),
            target < n,
            sorted_names(nodes@),
            k <= deps@.len(),
            square(adj@, n as int),
            forall|x: usize, y: usize|
                x < n && y < n ==> #[trigger] edge(adj@, x, y) == (edge(adj0, x, y) || (y == target && lists(
                    deps@.take(k as int),
                    nodes@[x as int]@,
                ))),
        decreases deps@.len() - k,
    {
        let ghost before = adj@;
        let found = find_node(nodes, deps[k].as_str());
        match found {
            Some(x) => set_edge(adj, n, x, target),
            None => {},
        }
        proof {
            assert forall|x: usize, y: usize| x < n && y < n implies #[trigger] edge(adj@, x, y) == (edge(
                adj0,
                x,
                y,
            ) || (y == target && lists(deps@.take(k + 1), nodes@[x as int]@))) by {
                lemma_lists_step(deps@, k as int, nodes@[x as int]@);
                match found {
                    Some(x0) => {
                        if x != x0 {
                            lemma_sorted_distinct(nodes@, x as int, x0 as int);
                        }
                    },
                    None => {
                        if deps@[k as int]@ == nodes@[x as int]@ {
                            assert(nodes@[x as int]@ == deps@[k as int]@);
                        }
                    },
                }
            }
        }
        k = k + 1;
    }
    assert(deps@.take(deps@.len() as int) =~= deps@);
}

/// Adds an edge from node `source` to every node that `deps` names.
fn add_edges_from(adj: &mut Vec<Vec<bool>>, nodes: &Vec<String>, source: usize, deps: &Vec<String>)
    requires
        square(old(adj)@, nodes@.len() as int),
        sorted_names(nodes@),
        source < nodes@.len(),
    ensures
        square(final(adj)@, nodes@.len() as int),
        forall|x: usize, y: usize|
            x < nodes@.len() && y < nodes@.len() ==> #[trigger] edge(final(adj)@, x, y) == (edge(
                old(adj)@,
                x,
                y,
            ) || (x == source && lists(deps@, nodes@[y as int]@))),
{
    let ghost adj0 = adj@;
    let n = nodes.len();
    let mut k: usize = 0;
    while k < deps.len()
        invariant
            n == nodes@.len(),
            source < n,
            sorted_names(nodes@),
            k <= deps@.len(),
            square(adj@, n as int),
            forall|x: usize, y: usize|
                x < n && y < n ==> #[trigger] edge(adj@, x, y) == (edge(adj0, x, y) || (x == source && lists(
                    deps@.take(k as int),
                    nodes@[y as int]@,
                ))),
        decreases deps@.len() - k,
    {
        let found = find_node(nodes, deps[k].as_str());
        match found {
            Some(y) => set_edge(adj, n, source, y),
            None => {},
        }
        proof {
            assert forall|x: usize, y: usize| x < n && y < n implies #[trigger] edge(adj@, x, y) == (edge(
                adj0,
                x,
                y,
            ) || (x == source && lists(deps@.take(k + 1), nodes@[y as int]@))) by {
                lemma_lists_step(deps@, k as int, nodes@[y as int]@);
                match found {
                    Some(y0) => {
                        if y != y0 {
                            lemma_sorted_distinct(nodes@, y as int, y0 as int);
                        }
                    },
                    None => {
                        if deps@[k as int]@ == nodes@[y as int]@ {
                            assert(nodes@[y as int]@ == deps@[k as int]@);
                        }
                    },
                }
            }
        }
        k = k + 1;
    }
    assert(deps@.take(deps@.len() as int) =~= deps@);
}

/// Some spec among the first `i` orders `u` before `v`.
spec fn edge_upto(specs: Seq<ServiceSpec>, i: int, u: Seq<char>, v: Seq<char>) -> bool {
    exists|k: int| 0 <= k < i && spec_edge(#[trigger] specs[k], u, v)
}

/// The matrix of the set's startup edges over `nodes`.
fn build_matrix(specs: &[ServiceSpec], nodes: &Vec<String>) -> (adj: Vec<Vec<bool>>)
    requires
        sorted_names(nodes@),
        node_set(nodes@) == names_of(specs@),
    ensures
        matrix_of(specs@, nodes@, adj@),
{
    let n = nodes.len();
    let mut adj = empty_matrix(n);
    let mut i: usize = 0;
    while i < specs.len()
        invariant
            n == nodes@.len(),
            i <= specs@.len(),
            sorted_names(nodes@),
            node_set(nodes@) == names_of(specs@),
            square(adj@, n as int),
            forall|x: usize, y: usize|
                x < n && y < n ==> #[trigger] edge(adj@, x, y) == edge_upto(
                    specs@,
                    i as int,
                    nodes@[x as int]@,
                    nodes@[y as int]@,
                ),
        decreases specs@.len() - i,
    {
        let s = &specs[i];
        let ghost adj0 = adj@;
        let t = match find_node(nodes, s.name.as_str()) {
            Some(t) => t,
            None => {
                proof {
                    assert(names_of(specs@).contains(specs@[i as int].name@));
                    assert(node_set(nodes@).contains(s.name@));
                }
                0
            },
        };
        add_edges_into(&mut adj, nodes, &s.depends_on.after, t);
        add_edges_into(&mut adj, nodes, &s.depends_on.requires, t);
        add_edges_into(&mut adj, nodes, &s.depends_on.wants, t);
        add_edges_from(&mut adj, nodes, t, &s.depends_on.before);
        proof {
            assert forall|x: usize, y: usize| x < n && y < n implies #[trigger] edge(adj@, x, y) == edge_upto(
                specs@,
                i + 1,
                nodes@[x as int]@,
                nodes@[y as int]@,
            ) by {
                let u = nodes@[x as int]@;
                let v = nodes@[y as int]@;
                if y != t {
                    lemma_sorted_distinct(nodes@, y as int, t as int);
                }
                if x != t {
                    lemma_sorted_distinct(nodes@, x as int, t as int);
                }
                assert(spec_edge(specs@[i as int], u, v) == (edge(adj@, x, y) && !edge(adj0, x, y)
                    || (spec_edge(specs@[i as int], u, v) && edge(adj0, x, y))));
                if edge_upto(specs@, i + 1, u, v) && !edge_upto(specs@, i as int, u, v) {
                    let k = choose|k: int| 0 <= k < i + 1 && spec_edge(#[trigger] specs@[k], u, v);
                    assert(k == i);
                }
                if edge_upto(specs@, i as int, u, v) {
                    let k = choose|k: int| 0 <= k < i && spec_edge(#[trigger] specs@[k], u, v);
                    assert(spec_edge(specs@[k], u, v));
                }
                if spec_edge(specs@[i as int], u, v) {
                    assert(spec_edge(specs@[i as int], u, v));
                }
            }
        }
        i = i + 1;
    }
    proof {
        assert forall|x: usize, y: usize| x < n && y < n implies #[trigger] edge(adj@, x, y) == start_edge(
            specs@,
            nodes@[x as int]@,
            nodes@[y as int]@,
        ) by {
            assert(node_set(nodes@).contains(nodes@[x as int]@));
            assert(node_set(nodes@).contains(nodes@[y as int]@));
        }
        reveal(matrix_of);
    }
    adj
}


// ---------------------------------------------------------------------------
// The queue over node positions
// ---------------------------------------------------------------------------

/// Position of the last entry of `q` that must start before node `v`, or -1 if none does.
spec fn last_pred(adj: Seq<Vec<bool>>, q: Seq<usize>, v: usize) -> int
    decreases q.len(),
{
    if q.len() == 0 {
        -1
    } else if edge(adj, q.last(), v) {
        q.len() - 1
    } else {
        last_pred(adj, q.drop_last(), v)
    }
}

proof fn lemma_last_pred(adj: Seq<Vec<bool>>, q: Seq<usize>, v: usize)
    ensures
        -1 <= last_pred(adj, q, v) < q.len(),
        last_pred(adj, q, v) >= 0 ==> edge(adj, q[last_pred(adj, q, v)], v),
        forall|i: int| last_pred(adj, q, v) < i < q.len() ==> !edge(adj, #[trigger] q[i], v),
    decreases q.len(),
{
    if q.len() > 0 && !edge(adj, q.last(), v) {
        let p = q.drop_last();
        lemma_last_pred(adj, p, v);
        assert forall|i: int| last_pred(adj, q, v) < i < q.len() implies !edge(adj, #[trigger] q[i], v) by {
            if i < q.len() - 1 {
                assert(q[i] == p[i]);
            }
        }
    }
}

/// Position of the entry that released entry `j` of the queue, or -1.
spec fn rel_at(adj: Seq<Vec<bool>>, q: Seq<usize>, j: int) -> int {
    last_pred(adj, q.take(j), q[j])
}

/// Some member of `s` must start before node `v`.
spec fn ix_waits_on(adj: Seq<Vec<bool>>, n: usize, s: Set<usize>, v: usize) -> bool {
    exists|a: usize| a < n && s.contains(a) && #[trigger] edge(adj, a, v)
}

/// Every member of `s` is a node that must start after another member of `s`.
spec fn ix_waits_within(adj: Seq<Vec<bool>>, n: usize, s: Set<usize>) -> bool {
    forall|v: usize| #[trigger] s.contains(v) ==> v < n && ix_waits_on(adj, n, s, v)
}

/// Distinct positions below `n` number at most `n`.
proof fn lemma_distinct_bound(q: Seq<usize>, n: usize)
    requires
        q.no_duplicates(),
        forall|j: int| 0 <= j < q.len() ==> #[trigger] q[j] < n,
    ensures
        q.len() <= n,
{
    let qi = q.map_values(|x: usize| x as int);
    assert(qi.no_duplicates()) by {
        assert forall|i: int, j: int| 0 <= i < qi.len() && 0 <= j < qi.len() && i != j implies qi[i]
            != qi[j] by {
            assert(q[i] != q[j]);
        }
    }
    qi.unique_seq_to_set();
    vstd::set_lib::lemma_int_range(0, n as int);
    assert(qi.to_set().subset_of(vstd::set_lib::set_int_range(0, n as int))) by {
        assert forall|x: int| qi.to_set().contains(x) implies vstd::set_lib::set_int_range(0, n as int).contains(
            x,
        ) by {
            let k = choose|k: int| 0 <= k < qi.len() && qi[k] == x;
            assert(q[k] < n);
        }
    }
    vstd::set_lib::lemma_len_subset(qi.to_set(), vstd::set_lib::set_int_range(0, n as int));
}

/// Whether no node must start before node `v`.
fn no_pred(adj: &Vec<Vec<bool>>, n: usize, v: usize) -> (r: bool)
    requires
        square(adj@, n as int),
        v < n,
    ensures
        r == forall|a: usize| a < n ==> !#[trigger] edge(adj@, a, v),
{
    let mut a: usize = 0;
    while a < n
        invariant
            square(adj@, n as int),
            v < n,
            a <= n,
            forall|b: usize| b < a ==> !#[trigger] edge(adj@, b, v),
        decreases n - a,
    {
        if adj[a][v] {
            assert(edge(adj@, a, v));
            return false;
        }
        a = a + 1;
    }
    true
}

/// Whether every node that must start before node `v` is done.
fn preds_done(adj: &Vec<Vec<bool>>, done: &Vec<bool>, n: usize, v: usize) -> (r: bool)
    requires
        square(adj@, n as int),
        done@.len() == n,
        v < n,
    ensures
        r == forall|a: usize| a < n && #[trigger] edge(adj@, a, v) ==> done@[a as int],
{
    let mut a: usize = 0;
    while a < n
        invariant
            square(adj@, n as int),
            done@.len() == n,
            v < n,
            a <= n,
            forall|b: usize| b < a && #[trigger] edge(adj@, b, v) ==> done@[b as int],
        decreases n - a,
    {
        if adj[a][v] && !done[a] {
            assert(edge(adj@, a, v));
            return false;
        }
        a = a + 1;
    }
    true
}

/// What holds of the queue `q` once its first `h` entries are done.
#[verifier::opaque]
spec fn queue_inv(
    adj: Seq<Vec<bool>>,
    n: usize,
    q: Seq<usize>,
    inq: Seq<bool>,
    done: Seq<bool>,
    h: int,
) -> bool {
    &&& square(adj, n as int)
    &&& 0 <= h <= q.len() <= n
    &&& forall|j: int| 0 <= j < q.len() ==> #[trigger] q[j] < n
    &&& q.no_duplicates()
    &&& inq.len() == n
    &&& done.len() == n
    &&& forall|u: usize| u < n ==> inq[u as int] == #[trigger] q.contains(u)
    &&& forall|u: usize| u < n ==> done[u as int] == #[trigger] q.take(h).contains(u)
    // every prerequisite of an entry comes before it
    &&& forall|j: int, a: usize|
        0 <= j < q.len() && a < n && #[trigger] edge(adj, a, q[j]) ==> q.take(j).contains(a)
    // a node outside the queue waits for a node that is not done
    &&& forall|u: usize|
        u < n && !#[trigger] q.contains(u) ==> exists|a: usize|
            a < n && #[trigger] edge(adj, a, u) && !q.take(h).contains(a)
    // no node of a set that waits only on itself ever enters
    &&& forall|s: Set<usize>| #[trigger]
        ix_waits_within(adj, n, s) ==> forall|j: int| 0 <= j < q.len() ==> !s.contains(#[trigger] q[j])
    // entries come in release order, then node order
    &&& forall|i: int, j: int|
        0 <= i < j < q.len() ==> #[trigger] rel_at(adj, q, i) < #[trigger] rel_at(adj, q, j) || (rel_at(
            adj,
            q,
            i,
        ) == rel_at(adj, q, j) && q[i] < q[j])
    &&& forall|j: int| 0 <= j < q.len() ==> #[trigger] rel_at(adj, q, j) < h
}


/// The queue of nodes, seeded with the nodes that wait for nothing in node order.
fn seed_queue(adj: &Vec<Vec<bool>>, n: usize) -> (r: (Vec<usize>, Vec<bool>, Vec<bool>))
    requires
        square(adj@, n as int),
    ensures
        queue_inv(adj@, n, r.0@, r.1@, r.2@, 0),
{
    reveal(queue_inv);
    let mut q: Vec<usize> = Vec::new();
    let mut inq: Vec<bool> = Vec::new();
    let mut done: Vec<bool> = Vec::new();
    let mut v: usize = 0;
    while v < n
        invariant
            square(adj@, n as int),
            v <= n,
            inq@.len() == v,
            done@.len() == v,
            forall|j: int| 0 <= j < q@.len() ==> #[trigger] q@[j] < v,
            forall|i: int, j: int| 0 <= i < j < q@.len() ==> #[trigger] q@[i] < #[trigger] q@[j],
            forall|u: usize| u < v ==> inq@[u as int] == #[trigger] q@.contains(u),
            forall|u: usize| u < v ==> !#[trigger] done@[u as int],
            forall|j: int, a: usize| 0 <= j < q@.len() && a < n ==> !#[trigger] edge(adj@, a, q@[j]),
            forall|u: usize|
                u < v && !#[trigger] q@.contains(u) ==> exists|a: usize| a < n && #[trigger] edge(adj@, a, u),
        decreases n - v,
    {
        let src = no_pred(adj, n, v);
        let ghost q0 = q@;
        if src {
            q.push(v);
        }
        inq.push(src);
        done.push(false);
        proof {
            assert forall|u: usize| u < v + 1 implies inq@[u as int] == #[trigger] q@.contains(u) by {
                if q@.contains(u) {
                    let k = choose|k: int| 0 <= k < q@.len() && q@[k] == u;
                    if k < q0.len() {
                        assert(q0[k] == u);
                        assert(q0.contains(u));
                    } else {
                        assert(u == v && src);
                    }
                }
                if q0.contains(u) {
                    let k = choose|k: int| 0 <= k < q0.len() && q0[k] == u;
                    assert(q@[k] == u);
                    assert(u < v);
                }
                if u == v && src {
                    assert(q@[q@.len() - 1] == u);
                }
            }
            assert forall|u: usize| u < v + 1 && !#[trigger] q@.contains(u) implies exists|a: usize|
                a < n && #[trigger] edge(adj@, a, u) by {
                if u < v {
                    if q0.contains(u) {
                        let k = choose|k: int| 0 <= k < q0.len() && q0[k] == u;
                        assert(q@[k] == u);
                    }
                } else {
                    assert(!src);
                }
            }
        }
        v = v + 1;
    }
    proof {
        assert(q@.no_duplicates());
        lemma_distinct_bound(q@, n);
        assert forall|j: int| 0 <= j < q@.len() implies #[trigger] rel_at(adj@, q@, j) == -1 by {
            lemma_last_pred(adj@, q@.take(j), q@[j]);
            let r = rel_at(adj@, q@, j);
            if r >= 0 {
                assert(edge(adj@, q@.take(j)[r], q@[j]));
            }
        }
        assert forall|u: usize| u < n && !#[trigger] q@.contains(u) implies exists|a: usize|
            a < n && #[trigger] edge(adj@, a, u) && !q@.take(0).contains(a) by {
            let a = choose|a: usize| a < n && #[trigger] edge(adj@, a, u);
            assert(!q@.take(0).contains(a));
        }
        assert forall|s: Set<usize>| #[trigger] ix_waits_within(adj@, n, s) implies forall|j: int|
            0 <= j < q@.len() ==> !s.contains(#[trigger] q@[j]) by {
            assert forall|j: int| 0 <= j < q@.len() implies !s.contains(#[trigger] q@[j]) by {
                if s.contains(q@[j]) {
                    let a = choose|a: usize| a < n && s.contains(a) && #[trigger] edge(adj@, a, q@[j]);
                }
            }
        }
        assert forall|u: usize| u < n implies !done@[u as int] == !#[trigger] q@.take(0).contains(u) by {}
    }
    (q, inq, done)
}


/// Runs the queue to the end: every entry is done.
fn run_queue(adj: &Vec<Vec<bool>>, n: usize) -> (r: (Vec<usize>, Vec<bool>, Vec<bool>))
    requires
        square(adj@, n as int),
    ensures
        queue_inv(adj@, n, r.0@, r.1@, r.2@, r.0@.len() as int),
{
    reveal(queue_inv);
    let (mut q, mut inq, mut done) = seed_queue(adj, n);
    let mut h: usize = 0;
    while h < q.len()
        invariant
            queue_inv(adj@, n, q@, inq@, done@, h as int),
        decreases n - h,
    {
        reveal(queue_inv);
        let x = q[h];
        let ghost q0 = q@;
        let ghost inq0 = inq@;
        let ghost done0 = done@;
        let ghost fin = q0.take(h + 1);
        done.set(x, true);
        assert(fin =~= q0.take(h as int).push(x));
        assert forall|u: usize| u < n implies done@[u as int] == #[trigger] fin.contains(u) by {
            if u == x {
                assert(fin[h as int] == x);
            } else {
                assert(done@[u as int] == done0[u as int]);
                if fin.contains(u) {
                    let k = choose|k: int| 0 <= k < fin.len() && fin[k] == u;
                    assert(q0.take(h as int)[k] == u);
                }
                if q0.take(h as int).contains(u) {
                    let k = choose|k: int| 0 <= k < h && q0.take(h as int)[k] == u;
                    assert(fin[k] == u);
                }
            }
        }
        let mut v: usize = 0;
        while v < n
            invariant
                queue_inv(adj@, n, q0, inq0, done0, h as int),
                h < q0.len(),
                x == q0[h as int],
                v <= n,
                q0.len() <= q@.len() <= n,
                q@.take(q0.len() as int) == q0,
                forall|j: int| 0 <= j < q@.len() ==> #[trigger] q@[j] < n,
                q@.no_duplicates(),
                inq@.len() == n,
                done@.len() == n,
                forall|u: usize| u < n ==> inq@[u as int] == #[trigger] q@.contains(u),
                fin == q0.take(h + 1),
                forall|u: usize| u < n ==> done@[u as int] == #[trigger] fin.contains(u),
                forall|j: int, a: usize|
                    0 <= j < q@.len() && a < n && #[trigger] edge(adj@, a, q@[j]) ==> q@.take(j).contains(a),
                forall|s: Set<usize>| #[trigger]
                    ix_waits_within(adj@, n, s) ==> forall|j: int|
                        0 <= j < q@.len() ==> !s.contains(#[trigger] q@[j]),
                forall|i: int, j: int|
                    0 <= i < j < q@.len() ==> #[trigger] rel_at(adj@, q@, i) < #[trigger] rel_at(adj@, q@, j)
                        || (rel_at(adj@, q@, i) == rel_at(adj@, q@, j) && q@[i] < q@[j]),
                forall|j: int| 0 <= j < q0.len() ==> #[trigger] rel_at(adj@, q@, j) < h,
                forall|j: int| q0.len() <= j < q@.len() ==> #[trigger] rel_at(adj@, q@, j) == h,
                forall|j: int| q0.len() <= j < q@.len() ==> #[trigger] q@[j] < v,
                forall|u: usize|
                    u < v && !#[trigger] q@.contains(u) ==> exists|a: usize|
                        a < n && #[trigger] edge(adj@, a, u) && !fin.contains(a),
                forall|u: usize| v <= u < n ==> #[trigger] q@.contains(u) == q0.contains(u),
            decreases n - v,
        {
            reveal(queue_inv);
            let ghost q1 = q@;
            let pushed = adj[x][v] && !inq[v] && preds_done(adj, &done, n, v);
            if pushed {
                q.push(v);
                inq.set(v, true);
                proof {
                    lemma_push_step(adj@, n, q0, fin, q1, h as int, v);
                    assert forall|u: usize| u < n implies inq@[u as int] == #[trigger] q@.contains(u) by {
                        if u == v {
                            assert(q@[q1.len() as int] == v);
                        } else {
                            if q@.contains(u) {
                                let k = choose|k: int| 0 <= k < q@.len() && q@[k] == u;
                                assert(q1[k] == u);
                            }
                            if q1.contains(u) {
                                let k = choose|k: int| 0 <= k < q1.len() && q1[k] == u;
                                assert(q@[k] == u);
                            }
                        }
                    }
                }
            }
            proof {
                assert forall|u: usize| u < v + 1 && !#[trigger] q@.contains(u) implies exists|a: usize|
                    a < n && #[trigger] edge(adj@, a, u) && !fin.contains(a) by {
                    if u < v {
                        if !q1.contains(u) {
                        } else {
                            let k = choose|k: int| 0 <= k < q1.len() && q1[k] == u;
                            assert(q@[k] == u);
                        }
                    } else {
                        assert(!pushed) by {
                            if pushed {
                                assert(q@[q1.len() as int] == v);
                            }
                        }
                        assert(!q1.contains(v));
                        assert(!q0.contains(v));
                        if !edge(adj@, x, v) {
                            let a = choose|a: usize| a < n && #[trigger] edge(adj@, a, v) && !q0.take(h as int).contains(a);
                            assert(a != x);
                            if fin.contains(a) {
                                let k = choose|k: int| 0 <= k < h + 1 && #[trigger] fin[k] == a;
                                assert(k != h);
                                assert(q0.take(h as int)[k] == a);
                            }
                        } else {
                            assert(!inq@[v as int]);
                            let a = choose|a: usize| a < n && #[trigger] edge(adj@, a, v) && !done@[a as int];
                        }
                    }
                }
                assert forall|j: int| q0.len() <= j < q@.len() implies #[trigger] rel_at(adj@, q@, j) == h by {
                    if !pushed {
                        assert(rel_at(adj@, q1, j) == h);
                    }
                }
                assert forall|j: int| q0.len() <= j < q@.len() implies #[trigger] q@[j] < v + 1 by {
                    if !pushed {
                        assert(q1[j] < v);
                    } else if j < q1.len() {
                        assert(q1[j] < v);
                    }
                }
                assert forall|u: usize| v + 1 <= u < n implies #[trigger] q@.contains(u) == q0.contains(u) by {
                    if q@.contains(u) && !q1.contains(u) {
                        let k = choose|k: int| 0 <= k < q@.len() && q@[k] == u;
                        assert(k == q1.len());
                    }
                    if q1.contains(u) {
                        let k = choose|k: int| 0 <= k < q1.len() && q1[k] == u;
                        assert(q@[k] == u);
                    }
                }
            }
            v = v + 1;
        }
        proof {
            assert(q@.take(h + 1) =~= fin);
            assert forall|j: int| 0 <= j < q@.len() implies #[trigger] rel_at(adj@, q@, j) < h + 1 by {
                if j < q0.len() {
                } else {
                }
            }
        }
        h = h + 1;
    }
    (q, inq, done)
}


/// Queueing node `v` while entry `h` is being done keeps the queue's order facts.
proof fn lemma_push_step(
    adj: Seq<Vec<bool>>,
    n: usize,
    q0: Seq<usize>,
    fin: Seq<usize>,
    q1: Seq<usize>,
    h: int,
    v: usize,
)
    requires
        0 <= h < q0.len(),
        fin == q0.take(h + 1),
        q0.len() <= q1.len(),
        q1.take(q0.len() as int) == q0,
        v < n,
        forall|j: int| 0 <= j < q1.len() ==> #[trigger] q1[j] < n,
        q1.no_duplicates(),
        !q1.contains(v),
        edge(adj, q0[h], v),
        forall|a: usize| a < n && #[trigger] edge(adj, a, v) ==> fin.contains(a),
        forall|j: int, a: usize|
            0 <= j < q1.len() && a < n && #[trigger] edge(adj, a, q1[j]) ==> q1.take(j).contains(a),
        forall|s: Set<usize>| #[trigger]
            ix_waits_within(adj, n, s) ==> forall|j: int| 0 <= j < q1.len() ==> !s.contains(#[trigger] q1[j]),
        forall|i: int, j: int|
            0 <= i < j < q1.len() ==> #[trigger] rel_at(adj, q1, i) < #[trigger] rel_at(adj, q1, j) || (rel_at(
                adj,
                q1,
                i,
            ) == rel_at(adj, q1, j) && q1[i] < q1[j]),
        forall|j: int| 0 <= j < q0.len() ==> #[trigger] rel_at(adj, q1, j) < h,
        forall|j: int| q0.len() <= j < q1.len() ==> #[trigger] rel_at(adj, q1, j) == h,
        forall|j: int| q0.len() <= j < q1.len() ==> #[trigger] q1[j] < v,
    ensures
        ({
            let q2 = q1.push(v);
            &&& q2.len() <= n
            &&& q2.take(q0.len() as int) == q0
            &&& forall|j: int| 0 <= j < q2.len() ==> #[trigger] q2[j] < n
            &&& q2.no_duplicates()
            &&& forall|j: int, a: usize|
                0 <= j < q2.len() && a < n && #[trigger] edge(adj, a, q2[j]) ==> q2.take(j).contains(a)
            &&& forall|s: Set<usize>| #[trigger]
                ix_waits_within(adj, n, s) ==> forall|j: int| 0 <= j < q2.len() ==> !s.contains(#[trigger] q2[j])
            &&& forall|i: int, j: int|
                0 <= i < j < q2.len() ==> #[trigger] rel_at(adj, q2, i) < #[trigger] rel_at(adj, q2, j) || (
                rel_at(adj, q2, i) == rel_at(adj, q2, j) && q2[i] < q2[j])
            &&& forall|j: int| 0 <= j < q0.len() ==> #[trigger] rel_at(adj, q2, j) < h
            &&& forall|j: int| q0.len() <= j < q2.len() ==> #[trigger] rel_at(adj, q2, j) == h
        }),
{
    let q2 = q1.push(v);
    let l = q1.len() as int;
    // earlier entries keep their prefixes, hence their release positions
    assert forall|j: int| 0 <= j < l implies #[trigger] q2.take(j) == q1.take(j) && q2[j] == q1[j] by {
        assert(q2.take(j) =~= q1.take(j));
    }
    assert(q2.take(l) =~= q1);
    assert forall|j: int| 0 <= j < l implies #[trigger] rel_at(adj, q2, j) == rel_at(adj, q1, j) by {
        assert(q2.take(j) == q1.take(j));
    }
    // q0's entries up to h are prerequisites' only place
    assert forall|a: usize| #[trigger] fin.contains(a) implies exists|k: int| 0 <= k <= h && q1[k] == a by {
        let k = choose|k: int| 0 <= k < h + 1 && #[trigger] fin[k] == a;
        assert(q1.take(q0.len() as int)[k] == a);
    }
    // the new entry is released by entry h
    lemma_last_pred(adj, q1, v);
    let r = last_pred(adj, q1, v);
    assert(q1[h] == q0[h]) by {
        assert(q1.take(q0.len() as int)[h] == q0[h]);
    }
    if r > h {
        assert(edge(adj, q1[r], v));
        let k = choose|k: int| 0 <= k <= h && q1[k] == q1[r];
    }
    if r < h {
        assert(!edge(adj, q1[h], v));
    }
    assert(r == h);
    assert(rel_at(adj, q2, l) == h);
    // pigeonhole
    assert(q2.no_duplicates()) by {
        assert forall|i: int, j: int| 0 <= i < q2.len() && 0 <= j < q2.len() && i != j implies q2[i] != q2[j] by {
            if i == l {
                assert(q1.contains(q1[j]));
            } else if j == l {
                assert(q1.contains(q1[i]));
            }
        }
    }
    lemma_distinct_bound(q2, n);
    assert(q2.take(q0.len() as int) =~= q0) by {
        assert(q2.take(q0.len() as int) =~= q1.take(q0.len() as int));
    }
    // prerequisites of the new entry are all earlier
    assert forall|j: int, a: usize|
        0 <= j < q2.len() && a < n && #[trigger] edge(adj, a, q2[j]) implies q2.take(j).contains(a) by {
        if j < l {
            assert(q1.take(j).contains(a));
        } else {
            let k = choose|k: int| 0 <= k <= h && q1[k] == a;
            assert(q2.take(j)[k] == a);
        }
    }
    // the new entry belongs to no set that waits only on itself
    assert forall|s: Set<usize>| #[trigger] ix_waits_within(adj, n, s) implies forall|j: int|
        0 <= j < q2.len() ==> !s.contains(#[trigger] q2[j]) by {
        assert forall|j: int| 0 <= j < q2.len() implies !s.contains(#[trigger] q2[j]) by {
            if j == l && s.contains(v) {
                let a = choose|a: usize| a < n && s.contains(a) && #[trigger] edge(adj, a, v);
                let k = choose|k: int| 0 <= k <= h && q1[k] == a;
                assert(!s.contains(q1[k]));
            } else if j < l {
                assert(q2[j] == q1[j]);
            }
        }
    }
    assert forall|i: int, j: int| 0 <= i < j < q2.len() implies #[trigger] rel_at(adj, q2, i) < #[trigger] rel_at(
        adj,
        q2,
        j,
    ) || (rel_at(adj, q2, i) == rel_at(adj, q2, j) && q2[i] < q2[j]) by {
        if j == l {
            if i < q0.len() {
                assert(rel_at(adj, q1, i) < h);
            } else {
                assert(rel_at(adj, q1, i) == h);
                assert(q1[i] < v);
            }
        } else {
            assert(rel_at(adj, q1, i) < rel_at(adj, q1, j) || (rel_at(adj, q1, i) == rel_at(adj, q1, j) && q1[i]
                < q1[j]));
        }
    }
    assert forall|j: int| 0 <= j < q0.len() implies #[trigger] rel_at(adj, q2, j) < h by {
        assert(rel_at(adj, q1, j) < h);
    }
    assert forall|j: int| q0.len() <= j < q2.len() implies #[trigger] rel_at(adj, q2, j) == h by {
        if j < l {
            assert(rel_at(adj, q1, j) == h);
        }
    }
}


// ---------------------------------------------------------------------------
// From node positions back to names
// ---------------------------------------------------------------------------

/// The names at positions `q` of `nodes`.
spec fn names_at(nodes: Seq<String>, q: Seq<usize>) -> Seq<Seq<char>> {
    q.map_values(|x: usize| nodes[x as int]@)
}

/// The matrix holds exactly the startup edges between the named nodes.
#[verifier::opaque]
spec fn matrix_of(specs: Seq<ServiceSpec>, nodes: Seq<String>, adj: Seq<Vec<bool>>) -> bool {
    &&& square(adj, nodes.len() as int)
    &&& forall|x: usize, y: usize|
        x < nodes.len() && y < nodes.len() ==> #[trigger] edge(adj, x, y) == start_edge(
            specs,
            nodes[x as int]@,
            nodes[y as int]@,
        )
}

proof fn lemma_release_pos(
    specs: Seq<ServiceSpec>,
    nodes: Seq<String>,
    adj: Seq<Vec<bool>>,
    p: Seq<usize>,
    v: usize,
)
    requires
        matrix_of(specs, nodes, adj),
        forall|j: int| 0 <= j < p.len() ==> #[trigger] p[j] < nodes.len(),
        v < nodes.len(),
    ensures
        release_pos(specs, names_at(nodes, p), nodes[v as int]@) == last_pred(adj, p, v),
    decreases p.len(),
{
    reveal(matrix_of);
    if p.len() > 0 {
        let o = names_at(nodes, p);
        assert(o.drop_last() =~= names_at(nodes, p.drop_last()));
        assert(o.last() == nodes[p.last() as int]@);
        assert(edge(adj, p.last(), v) == start_edge(specs, nodes[p.last() as int]@, nodes[v as int]@));
        lemma_release_pos(specs, nodes, adj, p.drop_last(), v);
    }
}

proof fn lemma_resolved(
    specs: Seq<ServiceSpec>,
    nodes: Seq<String>,
    adj: Seq<Vec<bool>>,
    q: Seq<usize>,
    inq: Seq<bool>,
    done: Seq<bool>,
)
    requires
        sorted_names(nodes),
        node_set(nodes) == names_of(specs),
        matrix_of(specs, nodes, adj),
        queue_inv(adj, nodes.len() as usize, q, inq, done, q.len() as int),
        forall|u: usize| u < nodes.len() ==> #[trigger] q.contains(u),
    ensures
        is_resolved_order(specs, names_at(nodes, q)),
{
    reveal(queue_inv);
    reveal(matrix_of);
    let n = nodes.len() as usize;
    let order = names_at(nodes, q);
    assert(order.no_duplicates()) by {
        assert forall|i: int, j: int| 0 <= i < order.len() && 0 <= j < order.len() && i != j implies order[i]
            != order[j] by {
            assert(q[i] != q[j]);
            lemma_sorted_distinct(nodes, q[i] as int, q[j] as int);
        }
    }
    assert(order.to_set() =~= names_of(specs)) by {
        assert forall|w: Seq<char>| order.to_set().contains(w) implies node_set(nodes).contains(w) by {
            let k = choose|k: int| 0 <= k < order.len() && order[k] == w;
            assert(nodes[q[k] as int]@ == w);
        }
        assert forall|w: Seq<char>| node_set(nodes).contains(w) implies order.to_set().contains(w) by {
            let x = choose|x: int| 0 <= x < nodes.len() && #[trigger] nodes[x]@ == w;
            assert(q.contains(x as usize));
            let k = choose|k: int| 0 <= k < q.len() && q[k] == x as usize;
            assert(order[k] == w);
        }
    }
    assert forall|i: int, j: int|
        0 <= i < order.len() && 0 <= j < order.len() && start_edge(
            specs,
            #[trigger] order[i],
            #[trigger] order[j],
        ) implies i < j by {
        assert(edge(adj, q[i], q[j]));
        assert(q.take(j).contains(q[i]));
        let k = choose|k: int| 0 <= k < j && q.take(j)[k] == q[i];
        assert(q[k] == q[i]);
    }
    assert forall|i: int, j: int| 0 <= i < j < order.len() implies #[trigger] released_before(
        specs,
        order,
        i,
        j,
    ) by {
        assert(order.take(i) =~= names_at(nodes, q.take(i)));
        assert(order.take(j) =~= names_at(nodes, q.take(j)));
        lemma_release_pos(specs, nodes, adj, q.take(i), q[i]);
        lemma_release_pos(specs, nodes, adj, q.take(j), q[j]);
        assert(rel_at(adj, q, i) < rel_at(adj, q, j) || (rel_at(adj, q, i) == rel_at(adj, q, j) && q[i] < q[j]));
        if q[i] < q[j] {
            assert(seq_less(nodes[q[i] as int]@, nodes[q[j] as int]@));
        }
    }
}

proof fn lemma_stuck(
    specs: Seq<ServiceSpec>,
    nodes: Seq<String>,
    adj: Seq<Vec<bool>>,
    q: Seq<usize>,
    inq: Seq<bool>,
    done: Seq<bool>,
    rix: Seq<usize>,
)
    requires
        sorted_names(nodes),
        node_set(nodes) == names_of(specs),
        matrix_of(specs, nodes, adj),
        queue_inv(adj, nodes.len() as usize, q, inq, done, q.len() as int),
        forall|i: int, j: int| 0 <= i < j < rix.len() ==> #[trigger] rix[i] < #[trigger] rix[j],
        forall|k: int| 0 <= k < rix.len() ==> #[trigger] rix[k] < nodes.len(),
        forall|u: usize| u < nodes.len() ==> (!q.contains(u) <==> #[trigger] rix.contains(u)),
    ensures
        is_stuck_set(specs, names_at(nodes, rix)),
{
    reveal(queue_inv);
    reveal(matrix_of);
    let n = nodes.len() as usize;
    let rem = names_at(nodes, rix);
    assert(q.take(q.len() as int) =~= q);
    assert forall|i: int, j: int| 0 <= i < j < rem.len() implies seq_less(#[trigger] rem[i], #[trigger] rem[j]) by {
        assert(rix[i] < rix[j]);
    }
    assert(waits_within(specs, rem.to_set())) by {
        assert forall|w: Seq<char>| #[trigger] rem.to_set().contains(w) implies names_of(specs).contains(w)
            && waits_on(specs, rem.to_set(), w) by {
            let k = choose|k: int| 0 <= k < rem.len() && rem[k] == w;
            let u = rix[k];
            assert(nodes[u as int]@ == w);
            assert(node_set(nodes).contains(w));
            assert(rix.contains(u));
            assert(!q.contains(u));
            let a = choose|a: usize| a < n && #[trigger] edge(adj, a, u) && !q.take(q.len() as int).contains(a);
            assert(rix.contains(a));
            let ka = choose|ka: int| 0 <= ka < rix.len() && rix[ka] == a;
            assert(rem[ka] == nodes[a as int]@);
            assert(rem.to_set().contains(nodes[a as int]@));
            assert(start_edge(specs, nodes[a as int]@, w));
        }
    }
    assert forall|s: Set<Seq<char>>| #[trigger] waits_within(specs, s) implies s.subset_of(rem.to_set()) by {
        let sx = Set::new(|a: usize| a < n && s.contains(nodes[a as int]@));
        assert(ix_waits_within(adj, n, sx)) by {
            assert forall|a: usize| #[trigger] sx.contains(a) implies a < n && ix_waits_on(adj, n, sx, a) by {
                assert(s.contains(nodes[a as int]@));
                let w = choose|w: Seq<char>| s.contains(w) && #[trigger] start_edge(specs, w, nodes[a as int]@);
                assert(node_set(nodes).contains(w));
                let b = choose|b: int| 0 <= b < nodes.len() && #[trigger] nodes[b]@ == w;
                assert(sx.contains(b as usize));
                assert(edge(adj, b as usize, a));
            }
        }
        assert forall|w: Seq<char>| s.contains(w) implies rem.to_set().contains(w) by {
            assert(names_of(specs).contains(w));
            assert(node_set(nodes).contains(w));
            let b = choose|b: int| 0 <= b < nodes.len() && #[trigger] nodes[b]@ == w;
            assert(sx.contains(b as usize));
            if q.contains(b as usize) {
                let j = choose|j: int| 0 <= j < q.len() && q[j] == b as usize;
                assert(!sx.contains(q[j]));
            }
            assert(rix.contains(b as usize));
            let k = choose|k: int| 0 <= k < rix.len() && rix[k] == b as usize;
            assert(rem[k] == w);
        }
    }
}

// ---------------------------------------------------------------------------
// Public operations
// ---------------------------------------------------------------------------

/// The success branch of `resolve_order`.
proof fn lemma_ok_branch(
    specs: Seq<ServiceSpec>,
    nodes: Seq<String>,
    adj: Seq<Vec<bool>>,
    q: Seq<usize>,
    inq: Seq<bool>,
    done: Seq<bool>,
    order: Vec<String>,
)
    requires
        sorted_names(nodes),
        node_set(nodes) == names_of(specs),
        matrix_of(specs, nodes, adj),
        queue_inv(adj, nodes.len() as usize, q, inq, done, q.len() as int),
        forall|u: usize| u < nodes.len() ==> #[trigger] q.contains(u),
        str_views(order@) == names_at(nodes, q),
    ensures
        resolution(specs, Ok(order)),
        !has_cycle(specs),
{
    reveal(resolution);
    lemma_resolved(specs, nodes, adj, q, inq, done);
    lemma_startup_order_excludes_cycle(specs, str_views(order@));
}

/// The failure branch of `resolve_order`.
proof fn lemma_err_branch(
    specs: Seq<ServiceSpec>,
    nodes: Seq<String>,
    adj: Seq<Vec<bool>>,
    q: Seq<usize>,
    inq: Seq<bool>,
    done: Seq<bool>,
    rix: Seq<usize>,
    msg: String,
)
    requires
        sorted_names(nodes),
        node_set(nodes) == names_of(specs),
        matrix_of(specs, nodes, adj),
        queue_inv(adj, nodes.len() as usize, q, inq, done, q.len() as int),
        forall|i: int, j: int| 0 <= i < j < rix.len() ==> #[trigger] rix[i] < #[trigger] rix[j],
        forall|k: int| 0 <= k < rix.len() ==> #[trigger] rix[k] < nodes.len(),
        forall|u: usize| u < nodes.len() ==> (!q.contains(u) <==> #[trigger] rix.contains(u)),
        rix.len() > 0,
        msg@ == cycle_message(names_at(nodes, rix)),
    ensures
        resolution(specs, Err(Error::DependencyError(msg))),
        has_cycle(specs),
{
    reveal(resolution);
    lemma_stuck(specs, nodes, adj, q, inq, done, rix);
    lemma_stuck_set_is_cycle(specs, names_at(nodes, rix));
}

/// The names of the queued nodes, in queue order.
fn queued_names(nodes: &Vec<String>, q: &Vec<usize>) -> (order: Vec<String>)
    requires
        forall|j: int| 0 <= j < q@.len() ==> #[trigger] q@[j] < nodes@.len(),
    ensures
        str_views(order@) == names_at(nodes@, q@),
{
    let mut order: Vec<String> = Vec::new();
    let mut j: usize = 0;
    while j < q.len()
        invariant
            forall|k: int| 0 <= k < q@.len() ==> #[trigger] q@[k] < nodes@.len(),
            j <= q@.len(),
            str_views(order@) == names_at(nodes@, q@.take(j as int)),
        decreases q@.len() - j,
    {
        let ghost before = order@;
        let name = nodes[q[j]].dup();
        let ghost nv = name@;
        order.push(name);
        proof {
            let goal = names_at(nodes@, q@.take(j + 1));
            let prev = names_at(nodes@, q@.take(j as int));
            assert(str_views(before).len() == j);
            assert(str_views(order@).len() == j + 1);
            assert(goal.len() == j + 1);
            assert forall|k: int| 0 <= k < j + 1 implies #[trigger] str_views(order@)[k] == goal[k] by {
                if k < j {
                    assert(str_views(before)[k] == prev[k]);
                    assert(order@[k] == before[k]);
                } else {
                    assert(order@[k]@ == nv);
                }
            }
            assert(str_views(order@) =~= goal);
        }
        j = j + 1;
    }
    assert(q@.take(q@.len() as int) =~= q@);
    order
}

/// The names of the nodes that never entered the queue, in node order, with their positions.
fn unqueued_names(nodes: &Vec<String>, inq: &Vec<bool>) -> (r: (Vec<String>, Ghost<Seq<usize>>))
    requires
        inq@.len() == nodes@.len(),
    ensures
        forall|i: int, j: int| 0 <= i < j < r.1@.len() ==> #[trigger] r.1@[i] < #[trigger] r.1@[j],
        forall|k: int| 0 <= k < r.1@.len() ==> #[trigger] r.1@[k] < nodes@.len(),
        forall|w: usize| w < nodes@.len() ==> (!inq@[w as int] <==> #[trigger] r.1@.contains(w)),
        str_views(r.0@) == names_at(nodes@, r.1@),
{
    let n = nodes.len();
    let mut rem: Vec<String> = Vec::new();
    let ghost mut rix: Seq<usize> = Seq::empty();
    let mut u: usize = 0;
    while u < n
        invariant
            n == nodes@.len(),
            inq@.len() == n,
            u <= n,
            forall|i: int, j: int| 0 <= i < j < rix.len() ==> #[trigger] rix[i] < #[trigger] rix[j],
            forall|k: int| 0 <= k < rix.len() ==> #[trigger] rix[k] < u,
            forall|w: usize| w < u ==> (!inq@[w as int] <==> #[trigger] rix.contains(w)),
            str_views(rem@) == names_at(nodes@, rix),
        decreases n - u,
    {
        let ghost r0 = rix;
        let ghost before = rem@;
        if !inq[u] {
            let name = nodes[u].dup();
            let ghost nv = name@;
            rem.push(name);
            proof {
                rix = rix.push(u);
                let goal = names_at(nodes@, rix);
                let prev = names_at(nodes@, r0);
                assert(str_views(before).len() == r0.len());
                assert(str_views(rem@).len() == rix.len());
                assert(goal.len() == rix.len());
                assert forall|k: int| 0 <= k < rix.len() implies #[trigger] str_views(rem@)[k] == goal[k] by {
                    if k < r0.len() {
                        assert(str_views(before)[k] == prev[k]);
                        assert(rem@[k] == before[k]);
                    } else {
                        assert(rem@[k]@ == nv);
                    }
                }
                assert(str_views(rem@) =~= goal);
            }
        }
        proof {
            assert forall|w: usize| w < u + 1 implies (!inq@[w as int] <==> #[trigger] rix.contains(w)) by {
                if rix.contains(w) && w < u {
                    let k = choose|k: int| 0 <= k < rix.len() && rix[k] == w;
                    assert(k < r0.len());
                    assert(r0[k] == w);
                }
                if r0.contains(w) {
                    let k = choose|k: int| 0 <= k < r0.len() && r0[k] == w;
                    assert(rix[k] == w);
                }
                if w == u && !inq@[u as int] {
                    assert(rix[rix.len() - 1] == w);
                }
                if w == u && rix.contains(w) {
                    let k = choose|k: int| 0 <= k < rix.len() && rix[k] == w;
                    if k < r0.len() {
                        assert(r0[k] < u);
                    }
                }
            }
        }
        u = u + 1;
    }
    (rem, Ghost(rix))
}

/// Resolves the startup order of a set of services.
///
/// Returns the service names, dependencies first, in the order the queue releases them
/// (see the module documentation), or a `DependencyError` naming, in name order, the
/// services that wait on a cycle.
pub fn resolve_order(specs: &[ServiceSpec]) -> (r: Result<Vec<String>, Error>)
    ensures
        resolution(specs@, r),
        r is Ok <==> !has_cycle(specs@),
{
    let nodes = node_names(specs);
    let adj = build_matrix(specs, &nodes);
    let n = nodes.len();
    assert(square(adj@, n as int)) by {
        reveal(matrix_of);
    }
    let (q, inq, done) = run_queue(&adj, n);
    assert(forall|w: usize| w < n ==> inq@[w as int] == #[trigger] q@.contains(w)) by {
        reveal(queue_inv);
    }
    assert(forall|j: int| 0 <= j < q@.len() ==> #[trigger] q@[j] < n) by {
        reveal(queue_inv);
    }
    assert(inq@.len() == n) by {
        reveal(queue_inv);
    }
    let (rem, Ghost(rix)) = unqueued_names(&nodes, &inq);
    if rem.len() == 0 {
        let order = queued_names(&nodes, &q);
        proof {
            assert forall|w: usize| w < n implies #[trigger] q@.contains(w) by {
                if !q@.contains(w) {
                    assert(!inq@[w as int]);
                    assert(rix.contains(w));
                    let k = choose|k: int| 0 <= k < rix.len() && rix[k] == w;
                    assert(str_views(rem@).len() == 0);
                }
            }
            lemma_ok_branch(specs@, nodes@, adj@, q@, inq@, done@, order);
        }
        Ok(order)
    } else {
        let mut msg = String::new();
        msg.append("circular dependency involving: ");
        let joined = join_strings(&rem, ", ");
        msg.append(joined.as_str());
        proof {
            assert forall|w: usize| w < n implies (!q@.contains(w) <==> #[trigger] rix.contains(w)) by {
                assert(inq@[w as int] == q@.contains(w));
            }
            assert(rix.len() > 0);
            assert(msg@ == cycle_message(names_at(nodes@, rix)));
            lemma_err_branch(specs@, nodes@, adj@, q@, inq@, done@, rix, msg);
        }
        Err(Error::DependencyError(msg))
    }
}


// ---------------------------------------------------------------------------
// Reference validation
// ---------------------------------------------------------------------------

/// The dependency references of `s`, in the order they are checked: `after`, `before`,
/// `requires`, `wants`, `conflicts`, `stop_before`, `stop_after`.
pub open spec fn dep_refs(s: ServiceSpec) -> Seq<Seq<char>> {
    str_views(s.depends_on.after@) + str_views(s.depends_on.before@) + str_views(s.depends_on.requires@)
        + str_views(s.depends_on.wants@) + str_views(s.depends_on.conflicts@) + str_views(
        s.depends_on.stop_before@,
    ) + str_views(s.depends_on.stop_after@)
}

/// The first of `refs` that is not in `names`.
pub open spec fn first_unknown(names: Set<Seq<char>>, refs: Seq<Seq<char>>) -> Option<Seq<char>>
    decreases refs.len(),
{
    if refs.len() == 0 {
        None
    } else if !names.contains(refs[0]) {
        Some(refs[0])
    } else {
        first_unknown(names, refs.drop_first())
    }
}

/// The first spec, from position `k` on, with a reference outside the set: its name and
/// that reference.
pub open spec fn first_bad_ref(specs: Seq<ServiceSpec>, k: int) -> Option<(Seq<char>, Seq<char>)>
    decreases specs.len() - k,
{
    if k < 0 || k >= specs.len() {
        None
    } else {
        match first_unknown(names_of(specs), dep_refs(specs[k])) {
            Some(d) => Some((specs[k].name@, d)),
            None => first_bad_ref(specs, k + 1),
        }
    }
}

/// The message for a reference to a service outside the set.
pub open spec fn unknown_ref_message(name: Seq<char>, dep: Seq<char>) -> Seq<char> {
    "service '"@ + name + "' references unknown dependency '"@ + dep + "'"@
}

proof fn lemma_first_unknown_concat(names: Set<Seq<char>>, a: Seq<Seq<char>>, b: Seq<Seq<char>>)
    ensures
        first_unknown(names, a + b) == match first_unknown(names, a) {
            Some(d) => Some(d),
            None => first_unknown(names, b),
        },
    decreases a.len(),
{
    if a.len() == 0 {
        assert(a + b =~= b);
    } else {
        assert((a + b)[0] == a[0]);
        assert((a + b).drop_first() =~= a.drop_first() + b);
        lemma_first_unknown_concat(names, a.drop_first(), b);
    }
}

/// Position in `deps` of the first name that `nodes` does not list.
fn first_unknown_in(nodes: &Vec<String>, deps: &Vec<String>) -> (r: Option<usize>)
    ensures
        match r {
            Some(k) => k < deps@.len() && first_unknown(node_set(nodes@), str_views(deps@)) == Some(
                deps@[k as int]@,
            ),
            None => first_unknown(node_set(nodes@), str_views(deps@)) is None,
        },
{
    let mut k: usize = 0;
    assert(str_views(deps@).skip(0) =~= str_views(deps@));
    while k < deps.len()
        invariant
            k <= deps@.len(),
            first_unknown(node_set(nodes@), str_views(deps@)) == first_unknown(
                node_set(nodes@),
                str_views(deps@).skip(k as int),
            ),
        decreases deps@.len() - k,
    {
        let ghost rest = str_views(deps@).skip(k as int);
        assert(rest[0] == deps@[k as int]@);
        match find_node(nodes, deps[k].as_str()) {
            None => {
                return Some(k);
            },
            Some(x) => {
                assert(node_set(nodes@).contains(deps@[k as int]@));
            },
        }
        assert(rest.drop_first() =~= str_views(deps@).skip(k + 1));
        k = k + 1;
    }
    None
}

/// The first reference of `s` to a name that `nodes` does not list.
fn first_unknown_ref(nodes: &Vec<String>, s: &ServiceSpec) -> (r: Option<String>)
    ensures
        match r {
            Some(d) => first_unknown(node_set(nodes@), dep_refs(*s)) == Some(d@),
            None => first_unknown(node_set(nodes@), dep_refs(*s)) is None,
        },
{
    let ghost names = node_set(nodes@);
    let d = &s.depends_on;
    proof {
        let a = str_views(d.after@);
        let b = str_views(d.before@);
        let c = str_views(d.requires@);
        let w = str_views(d.wants@);
        let x = str_views(d.conflicts@);
        let y = str_views(d.stop_before@);
        let z = str_views(d.stop_after@);
        lemma_first_unknown_concat(names, a + b + c + w + x + y, z);
        lemma_first_unknown_concat(names, a + b + c + w + x, y);
        lemma_first_unknown_concat(names, a + b + c + w, x);
        lemma_first_unknown_concat(names, a + b + c, w);
        lemma_first_unknown_concat(names, a + b, c);
        lemma_first_unknown_concat(names, a, b);
    }
    if let Some(k) = first_unknown_in(nodes, &d.after) {
        return Some(d.after[k].dup());
    }
    if let Some(k) = first_unknown_in(nodes, &d.before) {
        return Some(d.before[k].dup());
    }
    if let Some(k) = first_unknown_in(nodes, &d.requires) {
        return Some(d.requires[k].dup());
    }
    if let Some(k) = first_unknown_in(nodes, &d.wants) {
        return Some(d.wants[k].dup());
    }
    if let Some(k) = first_unknown_in(nodes, &d.conflicts) {
        return Some(d.conflicts[k].dup());
    }
    if let Some(k) = first_unknown_in(nodes, &d.stop_before) {
        return Some(d.stop_before[k].dup());
    }
    if let Some(k) = first_unknown_in(nodes, &d.stop_after) {
        return Some(d.stop_after[k].dup());
    }
    None
}

/// Checks that every dependency reference names a service of the set.
///
/// Fails with a `DependencyError` for the first spec, and within it the first reference
/// (in the order of `dep_refs`), that names no service of the set.
pub fn validate_references(specs: &[ServiceSpec]) -> (r: Result<(), Error>)
    ensures
        match first_bad_ref(specs@, 0) {
            None => r is Ok,
            Some((name, dep)) => r matches Err(Error::DependencyError(m)) && m@ == unknown_ref_message(
                name,
                dep,
            ),
        },
{
    let nodes = node_names(specs);
    let mut i: usize = 0;
    while i < specs.len()
        invariant
            i <= specs@.len(),
            node_set(nodes@) == names_of(specs@),
            first_bad_ref(specs@, 0) == first_bad_ref(specs@, i as int),
        decreases specs@.len() - i,
    {
        match first_unknown_ref(&nodes, &specs[i]) {
            Some(dep) => {
                let mut msg = String::new();
                msg.append("service '");
                msg.append(specs[i].name.as_str());
                msg.append("' references unknown dependency '");
                msg.append(dep.as_str());
                msg.append("'");
                return Err(Error::DependencyError(msg));
            },
            None => {},
        }
        i = i + 1;
    }
    Ok(())
}


/// `first_unknown` finds nothing exactly when every reference is in `names`.
pub proof fn lemma_first_unknown_none(names: Set<Seq<char>>, refs: Seq<Seq<char>>)
    ensures
        first_unknown(names, refs) is None <==> forall|j: int| 0 <= j < refs.len() ==> names.contains(
            #[trigger] refs[j],
        ),
    decreases refs.len(),
{
    if refs.len() > 0 {
        lemma_first_unknown_none(names, refs.drop_first());
        if forall|j: int| 0 <= j < refs.drop_first().len() ==> names.contains(#[trigger] refs.drop_first()[j]) {
            assert forall|j: int| 0 <= j < refs.len() && names.contains(refs[0]) implies names.contains(
                #[trigger] refs[j],
            ) by {
                if j > 0 {
                    assert(refs[j] == refs.drop_first()[j - 1]);
                }
            }
        } else {
            let j = choose|j: int| 0 <= j < refs.drop_first().len() && !names.contains(#[trigger] refs.drop_first()[j]);
            assert(!names.contains(refs[j + 1]));
        }
    }
}

proof fn lemma_first_bad_ref_from(specs: Seq<ServiceSpec>, k: int)
    requires
        0 <= k <= specs.len(),
    ensures
        first_bad_ref(specs, k) is None <==> forall|i: int, j: int|
            k <= i < specs.len() && 0 <= j < dep_refs(specs[i]).len() ==> names_of(specs).contains(
                #[trigger] dep_refs(specs[i])[j],
            ),
    decreases specs.len() - k,
{
    if k < specs.len() {
        lemma_first_bad_ref_from(specs, k + 1);
        lemma_first_unknown_none(names_of(specs), dep_refs(specs[k]));
    }
}

/// Reference validation succeeds exactly when every dependency reference of every spec
/// names a service of the set.
pub proof fn lemma_validation_accepts_iff_closed(specs: Seq<ServiceSpec>)
    ensures
        first_bad_ref(specs, 0) is None <==> forall|i: int, j: int|
            0 <= i < specs.len() && 0 <= j < dep_refs(specs[i]).len() ==> names_of(specs).contains(
                #[trigger] dep_refs(specs[i])[j],
            ),
{
    lemma_first_bad_ref_from(specs, 0);
}

} // verus!
