//! The undirected connectivity graph over agent ids.
//!
//! An edge is stored once, in normalized form (smaller endpoint first); there
//! are no self-edges and no duplicates.  All queries are total: an unknown id
//! simply has no neighbors.

use vstd::prelude::*;

use crate::vecs::contains_u32;

verus! {

broadcast use vstd::seq_lib::group_seq_properties;

/// Normalized form of an undirected edge: smaller endpoint first.
pub open spec fn norm_pair(a: u32, b: u32) -> (u32, u32) {
    if a < b {
        (a, b)
    } else {
        (b, a)
    }
}

/// Whether `id` is an endpoint of `e`.
pub open spec fn touches(e: (u32, u32), id: u32) -> bool {
    e.0 == id || e.1 == id
}

/// How many edges of `edges` touch `id`.
pub closed spec fn count_touching(edges: Seq<(u32, u32)>, id: u32) -> nat
    decreases edges.len(),
{
    if edges.len() == 0 {
        0
    } else {
        count_touching(edges.drop_last(), id) + (if touches(edges.last(), id) {
            1nat
        } else {
            0nat
        })
    }
}

#[derive(Debug, Clone)]
pub struct Topology {
    connections: Vec<(u32, u32)>,
}

impl Topology {
    /// The edge list: each undirected edge once, smaller endpoint first.
    pub closed spec fn edges(self) -> Seq<(u32, u32)> {
        self.connections@
    }

    /// Well-formed: every edge is normalized (hence no self-edges) and no
    /// edge is stored twice.
    pub open spec fn wf(self) -> bool {
        &&& forall|i: int|
            0 <= i < self.edges().len() ==> (#[trigger] self.edges()[i]).0 < self.edges()[i].1
        &&& forall|i: int, j: int|
            0 <= i < j < self.edges().len() ==> self.edges()[i] != self.edges()[j]
    }

    /// Whether `a` and `b` are directly connected.
    pub open spec fn spec_connected(self, a: u32, b: u32) -> bool {
        a != b && self.edges().contains(norm_pair(a, b))
    }

    /// The number of distinct neighbors of `id`.
    pub open spec fn spec_degree(self, id: u32) -> nat {
        count_touching(self.edges(), id)
    }

    /// An empty topology: no agents are connected.
    pub fn new() -> (t: Self)
        ensures
            t.wf(),
            t.edges() == Seq::<(u32, u32)>::empty(),
            forall|x: u32, y: u32| !t.spec_connected(x, y),
    {
        Self { connections: Vec::new() }
    }

    /// Whether `agent_a` and `agent_b` are directly connected.
    pub fn are_connected(&self, agent_a: u32, agent_b: u32) -> (r: bool)
        requires
            self.wf(),
        ensures
            r == self.spec_connected(agent_a, agent_b),
    {
        if agent_a == agent_b {
            return false;
        }
        let lo: u32 = if agent_a < agent_b {
            agent_a
        } else {
            agent_b
        };
        let hi: u32 = if agent_a < agent_b {
            agent_b
        } else {
            agent_a
        };
        let mut i: usize = 0;
        while i < self.connections.len()
            invariant
                i <= self.edges().len(),
                agent_a != agent_b,
                (lo, hi) == norm_pair(agent_a, agent_b),
                forall|j: int| 0 <= j < i ==> self.edges()[j] != norm_pair(agent_a, agent_b),
            decreases self.edges().len() - i,
        {
            let e = self.connections[i];
            if e.0 == lo && e.1 == hi {
                proof {
                    assert(self.edges()[i as int] == norm_pair(agent_a, agent_b));
                    assert(self.edges().contains(norm_pair(agent_a, agent_b)));
                }
                return true;
            }
            i = i + 1;
        }
        false
    }

    /// Inserts the undirected edge between `agent_a` and `agent_b`.
    /// A self-edge or an edge already present is a no-op, so the operation is
    /// idempotent.
    pub fn add_connection(&mut self, agent_a: u32, agent_b: u32)
        requires
            old(self).wf(),
        ensures
            final(self).wf(),
            (agent_a == agent_b || old(self).spec_connected(agent_a, agent_b)) ==> *final(self)
                == *old(self),
            (agent_a != agent_b && !old(self).spec_connected(agent_a, agent_b))
                ==> final(self).edges() == old(self).edges().push(norm_pair(agent_a, agent_b)),
            forall|x: u32, y: u32|
                final(self).spec_connected(x, y) <==> (old(self).spec_connected(x, y) || (agent_a
                    != agent_b && x != y && norm_pair(x, y) == norm_pair(agent_a, agent_b))),
    {
        if agent_a == agent_b {
            return ;
        }
        if self.are_connected(agent_a, agent_b) {
            return ;
        }
        let lo: u32 = if agent_a < agent_b {
            agent_a
        } else {
            agent_b
        };
        let hi: u32 = if agent_a < agent_b {
            agent_b
        } else {
            agent_a
        };
        self.connections.push((lo, hi));
        assert forall|x: u32, y: u32|
            self.spec_connected(x, y) <==> (old(self).spec_connected(x, y) || (agent_a != agent_b
                && x != y && norm_pair(x, y) == norm_pair(agent_a, agent_b))) by {
            if self.spec_connected(x, y) {
                let k = choose|k: int|
                    0 <= k < self.edges().len() && self.edges()[k] == norm_pair(x, y);
                if k < self.edges().len() - 1 {
                    assert(old(self).edges()[k] == norm_pair(x, y));
                    assert(old(self).edges().contains(norm_pair(x, y)));
                }
            }
            if old(self).spec_connected(x, y) {
                let k = choose|k: int|
                    0 <= k < old(self).edges().len() && old(self).edges()[k] == norm_pair(x, y);
                assert(self.edges()[k] == norm_pair(x, y));
            }
            if agent_a != agent_b && x != y && norm_pair(x, y) == norm_pair(agent_a, agent_b) {
                assert(self.edges()[self.edges().len() - 1] == norm_pair(x, y));
            }
        }
    }

    /// Removes the undirected edge between `agent_a` and `agent_b`, if present.
    pub fn remove_connection(&mut self, agent_a: u32, agent_b: u32)
        requires
            old(self).wf(),
        ensures
            final(self).wf(),
            forall|e: (u32, u32)|
                final(self).edges().contains(e) <==> (old(self).edges().contains(e) && e
                    != norm_pair(agent_a, agent_b)),
            forall|x: u32, y: u32|
                final(self).spec_connected(x, y) <==> (old(self).spec_connected(x, y) && norm_pair(
                    x,
                    y,
                ) != norm_pair(agent_a, agent_b)),
            final(self).edges().len() == old(self).edges().len() - (if old(self).edges().contains(
                norm_pair(agent_a, agent_b),
            ) {
                1int
            } else {
                0int
            }),
    {
        let lo: u32 = if agent_a < agent_b {
            agent_a
        } else {
            agent_b
        };
        let hi: u32 = if agent_a < agent_b {
            agent_b
        } else {
            agent_a
        };
        let ghost p = norm_pair(agent_a, agent_b);
        let mut kept: Vec<(u32, u32)> = Vec::new();
        let mut i: usize = 0;
        while i < self.connections.len()
            invariant
                i <= self.edges().len(),
                self.wf(),
                (lo, hi) == p,
                forall|e: (u32, u32)|
                    kept@.contains(e) <==> (#[trigger] self.edges().take(i as int).contains(e) && e
                        != p),
                forall|j: int, k: int| 0 <= j < k < kept@.len() ==> kept@[j] != kept@[k],
                kept@.len() == i - (if self.edges().take(i as int).contains(p) {
                    1int
                } else {
                    0int
                }),
            decreases self.edges().len() - i,
        {
            let e = self.connections[i];
            proof {
                assert(self.edges().take(i + 1) =~= self.edges().take(i as int).push(
                    self.edges()[i as int],
                ));
            }
            if !(e.0 == lo && e.1 == hi) {
                proof {
                    assert(!kept@.contains(e)) by {
                        if kept@.contains(e) {
                            assert(self.edges().take(i as int).contains(e));
                            let k = choose|k: int|
                                0 <= k < self.edges().take(i as int).len() && self.edges().take(
                                    i as int,
                                )[k] == e;
                            assert(self.edges()[k] == e);
                            assert(self.edges()[i as int] == e);
                        }
                    }
                }
                let ghost kept0 = kept@;
                kept.push(e);
                proof {
                    assert forall|q: (u32, u32)|
                        kept@.contains(q) <==> (#[trigger] self.edges().take(i + 1).contains(q)
                            && q != p) by {
                        assert(kept@.contains(q) <==> (kept0.contains(q) || q == e));
                        assert(self.edges().take(i + 1).contains(q) <==> (self.edges().take(
                            i as int,
                        ).contains(q) || q == e));
                    }
                    assert forall|j: int, k: int|
                        0 <= j < k < kept@.len() implies kept@[j] != kept@[k] by {
                        if k == kept@.len() - 1 {
                            if kept@[j] == e {
                                assert(kept0[j] == e);
                                assert(kept0.contains(e));
                            }
                        }
                    }
                }
            } else {
                proof {
                    assert(self.edges()[i as int] == p);
                    assert(!self.edges().take(i as int).contains(p)) by {
                        if self.edges().take(i as int).contains(p) {
                            let k = choose|k: int|
                                0 <= k < self.edges().take(i as int).len() && self.edges().take(
                                    i as int,
                                )[k] == p;
                            assert(self.edges()[k] == p);
                            assert(self.edges()[i as int] == p);
                        }
                    }
                    assert(self.edges().take(i + 1).contains(p));
                    assert forall|q: (u32, u32)|
                        kept@.contains(q) <==> (#[trigger] self.edges().take(i + 1).contains(q)
                            && q != p) by {
                        assert(self.edges().take(i + 1).contains(q) <==> (self.edges().take(
                            i as int,
                        ).contains(q) || q == p));
                        assert(kept@.contains(q) <==> (self.edges().take(i as int).contains(q) && q
                            != p));
                    }
                }
            }
            i = i + 1;
        }
        proof {
            assert(self.edges().take(self.edges().len() as int) =~= self.edges());
            assert forall|k: int| 0 <= k < kept@.len() implies (#[trigger] kept@[k]).0
                < kept@[k].1 by {
                assert(kept@.contains(kept@[k]));
                assert(self.edges().take(self.edges().len() as int).contains(kept@[k]));
                let j = choose|j: int|
                    0 <= j < self.edges().len() && self.edges()[j] == kept@[k];
                assert((self.edges()[j]).0 < self.edges()[j].1);
            }
        }
        self.connections = kept;
        proof {
            assert forall|x: u32, y: u32|
                self.spec_connected(x, y) <==> (old(self).spec_connected(x, y) && norm_pair(x, y)
                    != norm_pair(agent_a, agent_b)) by {
                assert(self.edges().contains(norm_pair(x, y)) <==> (old(self).edges().take(
                    old(self).edges().len() as int,
                ).contains(norm_pair(x, y)) && norm_pair(x, y) != p));
            }
        }
    }

    /// All agents directly connected to `agent_id`, each once.
    pub fn get_neighbors(&self, agent_id: u32) -> (r: Vec<u32>)
        requires
            self.wf(),
        ensures
            forall|x: u32| r@.contains(x) <==> self.spec_connected(agent_id, x),
            forall|j: int, k: int| 0 <= j < k < r@.len() ==> r@[j] != r@[k],
            r@.len() == self.spec_degree(agent_id),
    {
        let mut r: Vec<u32> = Vec::new();
        let mut i: usize = 0;
        while i < self.connections.len()
            invariant
                i <= self.edges().len(),
                self.wf(),
                forall|x: u32|
                    r@.contains(x) <==> exists|j: int|
                        0 <= j < i && #[trigger] self.edges()[j] == norm_pair(agent_id, x),
                forall|j: int, k: int| 0 <= j < k < r@.len() ==> r@[j] != r@[k],
                r@.len() == count_touching(self.edges().take(i as int), agent_id),
            decreases self.edges().len() - i,
        {
            let e = self.connections[i];
            assert(self.edges().take(i + 1).drop_last() =~= self.edges().take(i as int));
            assert(self.edges().take(i + 1).last() == self.edges()[i as int]);
            if e.0 == agent_id || e.1 == agent_id {
                let x: u32 = if e.0 == agent_id {
                    e.1
                } else {
                    e.0
                };
                assert(self.edges()[i as int] == norm_pair(agent_id, x));
                assert(!r@.contains(x)) by {
                    if r@.contains(x) {
                        let j = choose|j: int|
                            0 <= j < i && #[trigger] self.edges()[j] == norm_pair(agent_id, x);
                        assert(self.edges()[j] == self.edges()[i as int]);
                    }
                }
                r.push(x);
                assert forall|y: u32|
                    r@.contains(y) <==> exists|j: int|
                        0 <= j < i + 1 && #[trigger] self.edges()[j] == norm_pair(agent_id, y) by {
                    if r@.contains(y) {
                        let k = choose|k: int| 0 <= k < r@.len() && r@[k] == y;
                        if k < r@.len() - 1 {
                            assert(r@.drop_last().contains(y));
                        } else {
                            assert(self.edges()[i as int] == norm_pair(agent_id, y));
                        }
                    }
                }
            }
            i = i + 1;
        }
        assert(self.edges().take(self.edges().len() as int) =~= self.edges());
        assert forall|x: u32| r@.contains(x) <==> self.spec_connected(agent_id, x) by {
            if r@.contains(x) {
                let j = choose|j: int|
                    0 <= j < self.edges().len() && #[trigger] self.edges()[j] == norm_pair(
                        agent_id,
                        x,
                    );
                assert(self.edges()[j].0 < self.edges()[j].1);
                assert(agent_id != x);
                assert(self.edges().contains(norm_pair(agent_id, x)));
            }
            if self.spec_connected(agent_id, x) {
                let j = choose|j: int|
                    0 <= j < self.edges().len() && self.edges()[j] == norm_pair(agent_id, x);
                assert(0 <= j < self.edges().len() && #[trigger] self.edges()[j] == norm_pair(
                    agent_id,
                    x,
                ));
            }
        }
        r
    }

    /// The number of distinct neighbors of `agent_id`.
    pub fn get_degree(&self, agent_id: u32) -> (r: usize)
        requires
            self.wf(),
        ensures
            r == self.spec_degree(agent_id),
    {
        let neighbors = self.get_neighbors(agent_id);
        neighbors.len()
    }

    /// The edge list: each undirected edge once, smaller endpoint first.
    pub fn get_all_connections(&self) -> (r: Vec<(u32, u32)>)
        ensures
            r@ == self.edges(),
    {
        let mut r: Vec<(u32, u32)> = Vec::new();
        let mut i: usize = 0;
        while i < self.connections.len()
            invariant
                i <= self.edges().len(),
                r@ == self.edges().take(i as int),
            decreases self.edges().len() - i,
        {
            let e = self.connections[i];
            r.push(e);
            assert(r@ =~= self.edges().take(i + 1));
            i = i + 1;
        }
        assert(self.edges().take(self.edges().len() as int) =~= self.edges());
        r
    }

    /// How many undirected edges the topology holds, each counted once.
    pub fn connection_count(&self) -> (r: usize)
        ensures
            r == self.edges().len(),
    {
        self.connections.len()
    }

    /// Every id that is an endpoint of some edge, each once.
    pub fn get_all_agent_ids(&self) -> (r: Vec<u32>)
        ensures
            forall|x: u32|
                r@.contains(x) <==> exists|i: int|
                    0 <= i < self.edges().len() && touches(#[trigger] self.edges()[i], x),
            forall|j: int, k: int| 0 <= j < k < r@.len() ==> r@[j] != r@[k],
    {
        let mut r: Vec<u32> = Vec::new();
        let mut i: usize = 0;
        while i < self.connections.len()
            invariant
                i <= self.edges().len(),
                forall|x: u32|
                    r@.contains(x) <==> exists|j: int|
                        0 <= j < i && touches(#[trigger] self.edges()[j], x),
                forall|j: int, k: int| 0 <= j < k < r@.len() ==> r@[j] != r@[k],
            decreases self.edges().len() - i,
        {
            let e = self.connections[i];
            if !contains_u32(&r, e.0) {
                r.push(e.0);
                assert(touches(self.edges()[i as int], e.0));
                assert forall|x: u32|
                    r@.contains(x) <==> (r@.drop_last().contains(x) || x == e.0) by {
                    if r@.contains(x) {
                        let k = choose|k: int| 0 <= k < r@.len() && r@[k] == x;
                        if k < r@.len() - 1 {
                            assert(r@.drop_last()[k] == x);
                        }
                    }
                }
            }
            if e.1 != e.0 && !contains_u32(&r, e.1) {
                r.push(e.1);
                assert(touches(self.edges()[i as int], e.1));
                assert forall|x: u32|
                    r@.contains(x) <==> (r@.drop_last().contains(x) || x == e.1) by {
                    if r@.contains(x) {
                        let k = choose|k: int| 0 <= k < r@.len() && r@[k] == x;
                        if k < r@.len() - 1 {
                            assert(r@.drop_last()[k] == x);
                        }
                    }
                }
            }
            assert forall|x: u32|
                r@.contains(x) <==> exists|j: int|
                    0 <= j < i + 1 && touches(#[trigger] self.edges()[j], x) by {
                if exists|j: int| 0 <= j < i + 1 && touches(#[trigger] self.edges()[j], x) {
                    let j = choose|j: int| 0 <= j < i + 1 && touches(#[trigger] self.edges()[j], x);
                    if j == i {
                        assert(x == e.0 || x == e.1);
                    }
                }
            }
            i = i + 1;
        }
        r
    }
}

/// Whether, among the pairs `(a, b)` with `a < b` drawn from `ids`, one with
/// `a < rows` links `x` and `y`.
pub open spec fn covered_full(ids: Seq<u32>, rows: int, x: u32, y: u32) -> bool {
    exists|a: int, b: int|
        0 <= a < rows && a < b < ids.len() && ((ids[a] == x && ids[b] == y) || (ids[a] == y
            && ids[b] == x))
}

/// Whether one of the pairs `(ids[row], ids[b])` with `row < b < upto` links
/// `x` and `y`.
pub open spec fn covered_row(ids: Seq<u32>, row: int, upto: int, x: u32, y: u32) -> bool {
    exists|b: int|
        row < b < upto && ((ids[row] == x && #[trigger] ids[b] == y) || (ids[row] == y && ids[b]
            == x))
}

/// Whether one of the first `upto` ring edges of `ids` (each index linked to
/// its cyclic successor) links `x` and `y`.
pub open spec fn ring_linked(ids: Seq<u32>, upto: int, x: u32, y: u32) -> bool {
    exists|i: int|
        0 <= i < upto && ((#[trigger] ids[i] == x && ids[(i + 1) % (ids.len() as int)] == y) || (
        ids[i] == y && ids[(i + 1) % (ids.len() as int)] == x))
}

/// Preset topology shapes.
pub struct TopologyBuilder;

impl TopologyBuilder {
    /// Every listed agent connected to every other listed agent.
    pub fn fully_connected(agent_ids: &[u32]) -> (t: Topology)
        ensures
            t.wf(),
            forall|x: u32, y: u32|
                t.spec_connected(x, y) <==> (x != y && agent_ids@.contains(x)
                    && agent_ids@.contains(y)),
    {
        let ghost ids = agent_ids@;
        let mut topology = Topology::new();
        let mut i: usize = 0;
        while i < agent_ids.len()
            invariant
                i <= ids.len(),
                ids == agent_ids@,
                topology.wf(),
                forall|x: u32, y: u32|
                    topology.spec_connected(x, y) <==> (x != y && covered_full(
                        ids,
                        i as int,
                        x,
                        y,
                    )),
            decreases ids.len() - i,
        {
            let mut j: usize = i + 1;
            while j < agent_ids.len()
                invariant
                    i < j <= ids.len() || (j == i + 1 && j >= ids.len()),
                    i < ids.len(),
                    ids == agent_ids@,
                    topology.wf(),
                    forall|x: u32, y: u32|
                        topology.spec_connected(x, y) <==> (x != y && (covered_full(
                            ids,
                            i as int,
                            x,
                            y,
                        ) || covered_row(ids, i as int, j as int, x, y))),
                decreases ids.len() - j,
            {
                let ghost before = topology;
                topology.add_connection(agent_ids[i], agent_ids[j]);
                assert forall|x: u32, y: u32|
                    topology.spec_connected(x, y) <==> (x != y && (covered_full(
                        ids,
                        i as int,
                        x,
                        y,
                    ) || covered_row(ids, i as int, j + 1, x, y))) by {
                    if topology.spec_connected(x, y) {
                        if !before.spec_connected(x, y) {
                            assert(norm_pair(x, y) == norm_pair(ids[i as int], ids[j as int]));
                            assert((ids[i as int] == x && ids[j as int] == y) || (ids[i as int] == y
                                && ids[j as int] == x));
                            assert(covered_row(ids, i as int, j + 1, x, y));
                        }
                    }
                    if x != y && covered_row(ids, i as int, j + 1, x, y) && !covered_row(
                        ids,
                        i as int,
                        j as int,
                        x,
                        y,
                    ) {
                        let b = choose|b: int|
                            i < b < j + 1 && ((ids[i as int] == x && #[trigger] ids[b] == y) || (
                            ids[i as int] == y && ids[b] == x));
                        assert(b == j);
                        assert(topology.spec_connected(x, y));
                    }
                }
                j = j + 1;
            }
            assert forall|x: u32, y: u32|
                (covered_full(ids, i as int, x, y) || covered_row(ids, i as int, ids.len() as int, x, y))
                    <==> covered_full(ids, i + 1, x, y) by {
                if covered_full(ids, i as int, x, y) {
                    let (a, b) = choose|a: int, b: int|
                        0 <= a < i && a < b < ids.len() && ((#[trigger] ids[a] == x
                            && #[trigger] ids[b] == y) || (ids[a] == y && ids[b] == x));
                    assert(covered_full(ids, i + 1, x, y));
                }
                if covered_row(ids, i as int, ids.len() as int, x, y) {
                    let b = choose|b: int|
                        i < b < ids.len() && ((ids[i as int] == x && #[trigger] ids[b] == y) || (
                        ids[i as int] == y && ids[b] == x));
                    assert(covered_full(ids, i + 1, x, y));
                }
                if covered_full(ids, i + 1, x, y) {
                    let (a, b) = choose|a: int, b: int|
                        0 <= a < i + 1 && a < b < ids.len() && ((#[trigger] ids[a] == x
                            && #[trigger] ids[b] == y) || (ids[a] == y && ids[b] == x));
                    if a < i {
                        assert(covered_full(ids, i as int, x, y));
                    } else {
                        assert(covered_row(ids, i as int, ids.len() as int, x, y));
                    }
                }
            }
            i = i + 1;
        }
        proof {
            assert forall|x: u32, y: u32|
                (x != y && covered_full(ids, ids.len() as int, x, y)) <==> (x != y && ids.contains(
                    x,
                ) && ids.contains(y)) by {
                if covered_full(ids, ids.len() as int, x, y) {
                    let (a, b) = choose|a: int, b: int|
                        0 <= a < ids.len() && a < b < ids.len() && ((#[trigger] ids[a] == x
                            && #[trigger] ids[b] == y) || (ids[a] == y && ids[b] == x));
                    assert(ids.contains(ids[a]) && ids.contains(ids[b]));
                }
                if x != y && ids.contains(x) && ids.contains(y) {
                    let ka = choose|k: int| 0 <= k < ids.len() && ids[k] == x;
                    let kb = choose|k: int| 0 <= k < ids.len() && ids[k] == y;
                    if ka < kb {
                        assert(covered_full(ids, ids.len() as int, x, y));
                    } else {
                        assert(kb < ka);
                        assert(covered_full(ids, ids.len() as int, x, y));
                    }
                }
            }
        }
        topology
    }

    /// Agents joined in a circular chain, each linked to its successor.
    pub fn ring(agent_ids: &[u32]) -> (t: Topology)
        ensures
            t.wf(),
            forall|x: u32, y: u32|
                t.spec_connected(x, y) <==> (x != y && ring_linked(
                    agent_ids@,
                    agent_ids@.len() as int,
                    x,
                    y,
                )),
    {
        let ghost ids = agent_ids@;
        let mut topology = Topology::new();
        let mut i: usize = 0;
        while i < agent_ids.len()
            invariant
                i <= ids.len(),
                ids == agent_ids@,
                topology.wf(),
                forall|x: u32, y: u32|
                    topology.spec_connected(x, y) <==> (x != y && ring_linked(ids, i as int, x, y)),
            decreases ids.len() - i,
        {
            let next: usize = (i + 1) % agent_ids.len();
            let ghost before = topology;
            topology.add_connection(agent_ids[i], agent_ids[next]);
            assert forall|x: u32, y: u32|
                topology.spec_connected(x, y) <==> (x != y && ring_linked(ids, i + 1, x, y)) by {
                if topology.spec_connected(x, y) && !before.spec_connected(x, y) {
                    assert(norm_pair(x, y) == norm_pair(ids[i as int], ids[next as int]));
                    assert((ids[i as int] == x && ids[next as int] == y) || (ids[i as int] == y
                        && ids[next as int] == x));
                    assert(ring_linked(ids, i + 1, x, y));
                }
                if x != y && ring_linked(ids, i + 1, x, y) && !ring_linked(ids, i as int, x, y) {
                    let k = choose|k: int|
                        0 <= k < i + 1 && ((#[trigger] ids[k] == x && ids[(k + 1) % (
                        ids.len() as int)] == y) || (ids[k] == y && ids[(k + 1) % (
                        ids.len() as int)] == x));
                    assert(k == i);
                    assert(topology.spec_connected(x, y));
                }
            }
            i = i + 1;
        }
        topology
    }

    /// One central agent connected to every peripheral agent.
    pub fn star(center: u32, periphery: &[u32]) -> (t: Topology)
        ensures
            t.wf(),
            forall|x: u32, y: u32|
                t.spec_connected(x, y) <==> (x != y && ((x == center && periphery@.contains(y)) || (
                y == center && periphery@.contains(x)))),
    {
        let ghost ids = periphery@;
        let mut topology = Topology::new();
        let mut i: usize = 0;
        while i < periphery.len()
            invariant
                i <= ids.len(),
                ids == periphery@,
                topology.wf(),
                forall|x: u32, y: u32|
                    topology.spec_connected(x, y) <==> (x != y && ((x == center && ids.take(
                        i as int,
                    ).contains(y)) || (y == center && ids.take(i as int).contains(x)))),
            decreases ids.len() - i,
        {
            let ghost before = topology;
            let ghost tk = ids.take(i + 1);
            topology.add_connection(center, periphery[i]);
            assert(ids.take(i + 1).drop_last() =~= ids.take(i as int));
            assert forall|x: u32, y: u32|
                topology.spec_connected(x, y) <==> (x != y && ((x == center && ids.take(
                    i + 1,
                ).contains(y)) || (y == center && ids.take(i + 1).contains(x)))) by {
                if topology.spec_connected(x, y) && !before.spec_connected(x, y) {
                    assert(norm_pair(x, y) == norm_pair(center, ids[i as int]));
                    assert((x == center && y == ids[i as int]) || (y == center && x
                        == ids[i as int]));
                    assert(ids.take(i + 1)[i as int] == ids[i as int]);
                    assert(ids.take(i + 1).contains(ids[i as int]));
                }
                if x != y && x == center && ids.take(i + 1).contains(y) {
                    let k = choose|k: int| 0 <= k < tk.len() && tk[k] == y;
                    if k < i {
                        assert(ids.take(i as int)[k] == y);
                        assert(ids.take(i as int).contains(y));
                    } else {
                        assert(y == ids[i as int]);
                        assert(topology.spec_connected(x, y));
                    }
                }
                if x != y && y == center && ids.take(i + 1).contains(x) {
                    let k = choose|k: int| 0 <= k < tk.len() && tk[k] == x;
                    if k < i {
                        assert(ids.take(i as int)[k] == x);
                        assert(ids.take(i as int).contains(x));
                    } else {
                        assert(x == ids[i as int]);
                        assert(topology.spec_connected(x, y));
                    }
                }
            }
            i = i + 1;
        }
        assert(ids.take(ids.len() as int) =~= ids);
        topology
    }
}

impl Default for Topology {
    fn default() -> (t: Self)
        ensures
            t.wf(),
            t.edges() == Seq::<(u32, u32)>::empty(),
    {
        Self::new()
    }
}

} // verus!
