//! The dependency graph between modules, and its cycle check.
use vstd::prelude::*;
use crate::error::{IoError, ErrorKind};

verus! {

/// An edge set admits a ranking of the names in which every edge goes from a
/// lower rank to a higher one; that is, it has no dependency cycle.
pub open spec fn acyclic(edges: Set<(Seq<char>, Seq<char>)>) -> bool {
    exists|rank: spec_fn(Seq<char>) -> int| #[trigger] is_ranking(edges, rank)
}

/// Every edge goes from a lower rank to a higher one.
pub open spec fn is_ranking(edges: Set<(Seq<char>, Seq<char>)>, rank: spec_fn(Seq<char>) -> int) -> bool {
    forall|a: Seq<char>, b: Seq<char>| #[trigger] edges.contains((a, b)) ==> rank(a) < rank(b)
}

/// A path along the edges that comes back to where it started.
pub open spec fn is_cycle(edges: Set<(Seq<char>, Seq<char>)>, path: Seq<Seq<char>>) -> bool {
    &&& path.len() >= 2
    &&& path[0] == path[path.len() - 1]
    &&& forall|i: int| 0 <= i < path.len() - 1 ==> #[trigger] edges.contains((path[i], path[i + 1]))
}

/// A graph that has a cycle admits no ranking: a ranking would have to rise
/// strictly along the cycle and yet end where it began.
pub proof fn lemma_cycle_not_acyclic(edges: Set<(Seq<char>, Seq<char>)>, path: Seq<Seq<char>>)
    requires
        is_cycle(edges, path),
    ensures
        !acyclic(edges),
{
    if acyclic(edges) {
        let rank = choose|rank: spec_fn(Seq<char>) -> int| is_ranking(edges, rank);
        lemma_rank_rises(edges, path, rank, path.len() - 1);
        assert(rank(path[0]) + path.len() - 1 <= rank(path[path.len() - 1]));
    }
}

proof fn lemma_rank_rises(
    edges: Set<(Seq<char>, Seq<char>)>,
    path: Seq<Seq<char>>,
    rank: spec_fn(Seq<char>) -> int,
    k: int,
)
    requires
        is_cycle(edges, path),
        0 <= k <= path.len() - 1,
        forall|a: Seq<char>, b: Seq<char>| #[trigger] edges.contains((a, b)) ==> rank(a) < rank(b),
    ensures
        rank(path[0]) + k <= rank(path[k]),
    decreases k,
{
    if k > 0 {
        lemma_rank_rises(edges, path, rank, k - 1);
        let i = k - 1;
        assert(edges.contains((path[i], path[i + 1])));
    }
}

/// Modules as nodes, "depends on" as edges.
#[derive(Debug)]
pub struct DependencyGraph {
    nodes: Vec<String>,
    edges: Vec<(usize, usize)>,
}

/// Among the indices not yet removed (at least one), one of least rank.
proof fn lemma_least_rank(ranks: Seq<int>, removed: Seq<bool>, some: int) -> (m: int)
    requires
        ranks.len() == removed.len(),
        0 <= some < removed.len(),
        !removed[some],
    ensures
        0 <= m < removed.len(),
        !removed[m],
        forall|v: int| 0 <= v < removed.len() && !removed[v] ==> ranks[m] <= ranks[v],
    decreases removed.len(),
{
    let n = removed.len();
    if n == 1 {
        some
    } else if some == n - 1 {
        // the last one is free; compare it with the least among the others, if any
        if exists|v: int| 0 <= v < n - 1 && !removed[v] {
            let w = choose|v: int| 0 <= v < n - 1 && !removed[v];
            let m = lemma_least_rank(ranks.drop_last(), removed.drop_last(), w);
            if ranks[m] <= ranks[n - 1] {
                assert forall|v: int| 0 <= v < n && !removed[v] implies ranks[m] <= ranks[v] by {
                    if v < n - 1 {
                        assert(removed.drop_last()[v] == removed[v]);
                    }
                }
                m
            } else {
                assert forall|v: int| 0 <= v < n && !removed[v] implies ranks[n - 1] <= ranks[v] by {
                    if v < n - 1 {
                        assert(removed.drop_last()[v] == removed[v]);
                    }
                }
                n - 1
            }
        } else {
            n - 1
        }
    } else {
        let m = lemma_least_rank(ranks.drop_last(), removed.drop_last(), some);
        if !removed[n - 1] && ranks[n - 1] < ranks[m] {
            assert forall|v: int| 0 <= v < n && !removed[v] implies ranks[n - 1] <= ranks[v] by {
                if v < n - 1 {
                    assert(removed.drop_last()[v] == removed[v]);
                }
            }
            n - 1
        } else {
            assert forall|v: int| 0 <= v < n && !removed[v] implies ranks[m] <= ranks[v] by {
                if v < n - 1 {
                    assert(removed.drop_last()[v] == removed[v]);
                }
            }
            m
        }
    }
}

/// Among more than `n` values below `n`, two are equal.
proof fn lemma_pigeonhole(s: Seq<int>, n: int) -> (r: (int, int))
    requires
        0 <= n < s.len(),
        forall|k: int| 0 <= k < s.len() ==> 0 <= #[trigger] s[k] < n,
    ensures
        0 <= r.0 < r.1 < s.len(),
        s[r.0] == s[r.1],
{
    if s.no_duplicates() {
        s.unique_seq_to_set();
        vstd::set_lib::lemma_int_range(0, n);
        assert(s.to_set().subset_of(vstd::set_lib::set_int_range(0, n)));
        vstd::set_lib::lemma_len_subset(s.to_set(), vstd::set_lib::set_int_range(0, n));
    }
    let (i, j) = choose|i: int, j: int| 0 <= i < s.len() && 0 <= j < s.len() && i != j && s[i] == s[j];
    if i < j {
        (i, j)
    } else {
        (j, i)
    }
}

/// How many entries are set.
pub open spec fn count_true(s: Seq<bool>) -> nat
    decreases s.len(),
{
    if s.len() == 0 {
        0
    } else {
        count_true(s.drop_last()) + if s.last() { 1nat } else { 0nat }
    }
}

proof fn lemma_count_true_bound(s: Seq<bool>)
    ensures
        count_true(s) <= s.len(),
        count_true(s) == s.len() ==> forall|i: int| 0 <= i < s.len() ==> s[i],
    decreases s.len(),
{
    if s.len() > 0 {
        lemma_count_true_bound(s.drop_last());
        if count_true(s) == s.len() {
            assert forall|i: int| 0 <= i < s.len() implies s[i] by {
                if i < s.len() - 1 {
                    assert(s.drop_last()[i] == s[i]);
                }
            }
        }
    }
}

proof fn lemma_count_true_set(s: Seq<bool>, v: int)
    requires
        0 <= v < s.len(),
        !s[v],
    ensures
        count_true(s.update(v, true)) == count_true(s) + 1,
    decreases s.len(),
{
    if v == s.len() - 1 {
        assert(s.update(v, true).drop_last() =~= s.drop_last());
    } else {
        lemma_count_true_set(s.drop_last(), v);
        assert(s.update(v, true).drop_last() =~= s.drop_last().update(v, true));
    }
}

proof fn lemma_count_true_all(s: Seq<bool>)
    requires
        forall|i: int| 0 <= i < s.len() ==> s[i],
    ensures
        count_true(s) == s.len(),
    decreases s.len(),
{
    if s.len() > 0 {
        lemma_count_true_all(s.drop_last());
    }
}

proof fn lemma_count_true_none(s: Seq<bool>)
    requires
        forall|i: int| 0 <= i < s.len() ==> !s[i],
    ensures
        count_true(s) == 0,
    decreases s.len(),
{
    if s.len() > 0 {
        lemma_count_true_none(s.drop_last());
    }
}

impl DependencyGraph {
    /// The names of the nodes.
    pub closed spec fn spec_nodes(&self) -> Set<Seq<char>> {
        Set::new(|x: Seq<char>| exists|i: int| 0 <= i < self.nodes@.len() && self.nodes@[i]@ == x)
    }

    /// The edge at index `j`, by the names of its ends.
    pub closed spec fn edge_at(&self, j: int) -> (Seq<char>, Seq<char>) {
        (self.nodes@[self.edges@[j].0 as int]@, self.nodes@[self.edges@[j].1 as int]@)
    }

    /// The edges, by the names of their ends.
    pub closed spec fn spec_edges(&self) -> Set<(Seq<char>, Seq<char>)> {
        Set::new(|e: (Seq<char>, Seq<char>)| exists|j: int| 0 <= j < self.edges@.len() && self.edge_at(j) == e)
    }

    /// Node names are distinct and every edge joins two nodes.
    pub closed spec fn wf(&self) -> bool {
        &&& forall|i: int, k: int|
            0 <= i < self.nodes@.len() && 0 <= k < self.nodes@.len() && i != k
                ==> #[trigger] self.nodes@[i]@ != #[trigger] self.nodes@[k]@
        &&& forall|j: int|
            0 <= j < self.edges@.len() ==> (#[trigger] self.edges@[j]).0 < self.nodes@.len()
                && self.edges@[j].1 < self.nodes@.len()
    }

    /// An empty graph.
    pub fn new() -> (r: Self)
        ensures
            r.wf(),
            r.spec_nodes() == Set::<Seq<char>>::empty(),
            r.spec_edges() == Set::<(Seq<char>, Seq<char>)>::empty(),
    {
        let r = DependencyGraph { nodes: Vec::new(), edges: Vec::new() };
        assert(r.spec_nodes() =~= Set::<Seq<char>>::empty());
        assert(r.spec_edges() =~= Set::<(Seq<char>, Seq<char>)>::empty());
        r
    }

    fn index_of(&self, name: &String) -> (r: Option<usize>)
        requires
            self.wf(),
        ensures
            match r {
                Some(i) => i < self.nodes@.len() && self.nodes@[i as int]@ == name@,
                None => !self.spec_nodes().contains(name@),
            },
    {
        let mut i: usize = 0;
        while i < self.nodes.len()
            invariant
                i <= self.nodes@.len(),
                forall|k: int| 0 <= k < i ==> self.nodes@[k]@ != name@,
            decreases self.nodes.len() - i,
        {
            if self.nodes[i] == *name {
                return Some(i);
            }
            i = i + 1;
        }
        None
    }

    /// Whether a node with this name exists.
    pub fn contains_node(&self, name: &String) -> (r: bool)
        requires
            self.wf(),
        ensures
            r == self.spec_nodes().contains(name@),
    {
        match self.index_of(name) {
            Some(i) => {
                assert(self.spec_nodes().contains(name@));
                true
            },
            None => false,
        }
    }

    /// Adds a node; a name already present is left as it is.
    pub fn add_node(&mut self, name: String)
        requires
            old(self).wf(),
        ensures
            final(self).wf(),
            final(self).spec_nodes() == old(self).spec_nodes().insert(name@),
            final(self).spec_edges() == old(self).spec_edges(),
    {
        match self.index_of(&name) {
            Some(i) => {
                assert(self.spec_nodes().insert(name@) =~= self.spec_nodes());
            },
            None => {
                let ghost old_g = *self;
                let ghost nm = name@;
                self.nodes.push(name);
                assert forall|j: int| 0 <= j < self.edges@.len() implies self.edge_at(j) == old_g.edge_at(j) by {
                    assert(self.nodes@[self.edges@[j].0 as int] == old_g.nodes@[self.edges@[j].0 as int]);
                    assert(self.nodes@[self.edges@[j].1 as int] == old_g.nodes@[self.edges@[j].1 as int]);
                }
                assert forall|e: (Seq<char>, Seq<char>)| self.spec_edges().contains(e) == old_g.spec_edges().contains(e) by {
                    if self.spec_edges().contains(e) {
                        let k = choose|k: int| 0 <= k < self.edges@.len() && self.edge_at(k) == e;
                        assert(old_g.edge_at(k) == e);
                    }
                    if old_g.spec_edges().contains(e) {
                        let k = choose|k: int| 0 <= k < old_g.edges@.len() && old_g.edge_at(k) == e;
                        assert(self.edge_at(k) == e);
                    }
                }
                assert(self.spec_edges() =~= old_g.spec_edges());
                assert forall|x: Seq<char>| self.spec_nodes().contains(x) == old_g.spec_nodes().insert(nm).contains(x) by {
                    if x == nm {
                        assert(self.nodes@[self.nodes@.len() - 1]@ == x);
                    }
                    if old_g.spec_nodes().contains(x) {
                        let i = choose|i: int| 0 <= i < old_g.nodes@.len() && old_g.nodes@[i]@ == x;
                        assert(self.nodes@[i]@ == x);
                    }
                    if self.spec_nodes().contains(x) {
                        let i = choose|i: int| 0 <= i < self.nodes@.len() && self.nodes@[i]@ == x;
                        if i < old_g.nodes@.len() {
                            assert(old_g.nodes@[i]@ == x);
                        }
                    }
                }
                assert(self.spec_nodes() =~= old_g.spec_nodes().insert(nm));
            },
        }
    }

    /// Adds an edge from `from` to `to`. Both must be nodes: otherwise the
    /// graph is left unchanged and the error "Node not found" is returned.
    pub fn add_edge(&mut self, from: String, to: String) -> (r: Result<(), IoError>)
        requires
            old(self).wf(),
        ensures
            final(self).wf(),
            final(self).spec_nodes() == old(self).spec_nodes(),
            r is Ok <==> (old(self).spec_nodes().contains(from@) && old(self).spec_nodes().contains(to@)),
            r is Ok ==> final(self).spec_edges() == old(self).spec_edges().insert((from@, to@)),
            r is Err ==> final(self).spec_edges() == old(self).spec_edges(),
            r matches Err(e) ==> e.spec_kind() == ErrorKind::ValidationError && e.spec_message()
                == "Node not found"@,
    {
        let fi = self.index_of(&from);
        let ti = self.index_of(&to);
        match (fi, ti) {
            (Some(f), Some(t)) => {
                assert(self.spec_nodes().contains(from@));
                assert(self.spec_nodes().contains(to@));
                let ghost old_g = *self;
                let mut j: usize = 0;
                while j < self.edges.len()
                    invariant
                        j <= self.edges@.len(),
                        *self == old_g,
                        self.wf(),
                        f < self.nodes@.len(),
                        t < self.nodes@.len(),
                        self.nodes@[f as int]@ == from@,
                        self.nodes@[t as int]@ == to@,
                        forall|k: int| 0 <= k < j ==> self.edges@[k] != (f, t),
                    decreases self.edges.len() - j,
                {
                    if self.edges[j].0 == f && self.edges[j].1 == t {
                        assert(self.edge_at(j as int) == (from@, to@));
                        assert(self.spec_edges().insert((from@, to@)) =~= self.spec_edges());
                        return Ok(());
                    }
                    j = j + 1;
                }
                self.edges.push((f, t));
                assert forall|e: (Seq<char>, Seq<char>)| self.spec_edges().contains(e) == old_g.spec_edges().insert((from@, to@)).contains(e) by {
                    if self.spec_edges().contains(e) {
                        let k = choose|k: int| 0 <= k < self.edges@.len() && self.edge_at(k) == e;
                        if k < old_g.edges@.len() {
                            assert(old_g.edge_at(k) == e);
                        }
                    }
                    if old_g.spec_edges().contains(e) {
                        let k = choose|k: int| 0 <= k < old_g.edges@.len() && old_g.edge_at(k) == e;
                        assert(self.edge_at(k) == e);
                    }
                    if e == (from@, to@) {
                        assert(self.edge_at(self.edges@.len() - 1) == e);
                    }
                }
                assert(self.spec_edges() =~= old_g.spec_edges().insert((from@, to@)));
                assert(self.spec_nodes() =~= old_g.spec_nodes());
                Ok(())
            },
            _ => Err(IoError::validation_error("Node not found")),
        }
    }

    /// Whether a node has an incoming edge from a node not yet removed.
    fn blocked(&self, v: usize, removed: &Vec<bool>) -> (r: bool)
        requires
            self.wf(),
            removed@.len() == self.nodes@.len(),
        ensures
            r == exists|j: int|
                0 <= j < self.edges@.len() && (#[trigger] self.edges@[j]).1 == v && !removed@[self.edges@[j].0 as int],
    {
        let mut j: usize = 0;
        while j < self.edges.len()
            invariant
                j <= self.edges@.len(),
                self.wf(),
                removed@.len() == self.nodes@.len(),
                forall|k: int| 0 <= k < j ==> !((#[trigger] self.edges@[k]).1 == v && !removed@[self.edges@[k].0 as int]),
            decreases self.edges.len() - j,
        {
            let (a, b) = self.edges[j];
            if b == v && !removed[a] {
                return true;
            }
            j = j + 1;
        }
        false
    }

    /// A node not yet removed with no incoming edge from a node not yet removed.
    fn find_free(&self, removed: &Vec<bool>) -> (r: Option<usize>)
        requires
            self.wf(),
            removed@.len() == self.nodes@.len(),
        ensures
            match r {
                Some(v) => v < self.nodes@.len() && !removed@[v as int] && !exists|j: int|
                    0 <= j < self.edges@.len() && (#[trigger] self.edges@[j]).1 == v && !removed@[self.edges@[j].0 as int],
                None => forall|u: int| 0 <= u < self.nodes@.len() ==> (removed@[u] || exists|j: int|
                    0 <= j < self.edges@.len() && (#[trigger] self.edges@[j]).1 == u && !removed@[self.edges@[j].0 as int]),
            },
    {
        let n = self.nodes.len();
        let mut v: usize = 0;
        while v < n
            invariant
                self.wf(),
                n == self.nodes@.len(),
                removed@.len() == n,
                v <= n,
                forall|u: int| 0 <= u < v ==> (removed@[u] || exists|j: int|
                    0 <= j < self.edges@.len() && (#[trigger] self.edges@[j]).1 == u && !removed@[self.edges@[j].0 as int]),
            decreases n - v,
        {
            if !removed[v] && !self.blocked(v, &removed) {
                return Some(v);
            }
            v = v + 1;
        }
        None
    }

    /// Checks the graph for dependency cycles: `Ok` exactly when the edges admit
    /// a ranking; otherwise "Cyclic dependency detected", and then the edges
    /// hold a cycle. With [`lemma_cycle_not_acyclic`], a graph admits a ranking
    /// exactly when it has no cycle.
    pub fn validate(&self) -> (r: Result<(), IoError>)
        requires
            self.wf(),
        ensures
            r is Ok <==> acyclic(self.spec_edges()),
            r is Err ==> exists|path: Seq<Seq<char>>| is_cycle(self.spec_edges(), path),
            r matches Err(e) ==> e.spec_kind() == ErrorKind::ValidationError && e.spec_message()
                == "Cyclic dependency detected"@,
    {
        let n = self.nodes.len();
        let mut removed: Vec<bool> = Vec::new();
        let mut k: usize = 0;
        while k < n
            invariant
                k <= n,
                n == self.nodes@.len(),
                removed@.len() == k,
                forall|i: int| 0 <= i < k ==> !removed@[i],
            decreases n - k,
        {
            removed.push(false);
            k = k + 1;
        }
        proof {
            lemma_count_true_none(removed@);
        }
        let ghost mut pos: Seq<int> = Seq::new(n as nat, |i: int| 0);
        let mut count: usize = 0;
        while count < n
            invariant
                self.wf(),
                n == self.nodes@.len(),
                removed@.len() == n,
                pos.len() == n,
                count <= n,
                forall|i: int| 0 <= i < n && removed@[i] ==> 0 <= #[trigger] pos[i] < count,
                count == count_true(removed@),
                forall|j: int| 0 <= j < self.edges@.len() && removed@[(#[trigger] self.edges@[j]).1 as int]
                    ==> removed@[self.edges@[j].0 as int]
                        && pos[self.edges@[j].0 as int] < pos[self.edges@[j].1 as int],
            decreases n - count,
        {
            let v = match self.find_free(&removed) {
                Some(v) => v,
                None => {
                    proof {
                        self.lemma_stuck_not_acyclic(removed@, count as int);
                        self.lemma_stuck_has_cycle(removed@, count as int);
                    }
                    return Err(IoError::validation_error("Cyclic dependency detected"));
                },
            };
            let ghost old_removed = removed@;
            removed.set(v, true);
            proof {
                lemma_count_true_set(old_removed, v as int);
                lemma_count_true_bound(removed@);
                pos = pos.update(v as int, count as int);
                assert forall|j: int| 0 <= j < self.edges@.len() && removed@[(#[trigger] self.edges@[j]).1 as int]
                    implies removed@[self.edges@[j].0 as int]
                        && pos[self.edges@[j].0 as int] < pos[self.edges@[j].1 as int] by {
                    let a = self.edges@[j].0 as int;
                    let b = self.edges@[j].1 as int;
                    if b == v {
                        assert(old_removed[a]);
                    } else {
                        assert(old_removed[b]);
                        if a == v {
                            assert(old_removed[a]);
                        }
                    }
                }
            }
            count = count + 1;
        }
        proof {
            self.lemma_all_removed_acyclic(removed@, pos);
        }
        Ok(())
    }

    proof fn lemma_all_removed_acyclic(&self, removed: Seq<bool>, pos: Seq<int>)
        requires
            self.wf(),
            removed.len() == self.nodes@.len(),
            pos.len() == self.nodes@.len(),
            count_true(removed) == self.nodes@.len(),
            forall|j: int| 0 <= j < self.edges@.len() && removed[(#[trigger] self.edges@[j]).1 as int]
                ==> removed[self.edges@[j].0 as int]
                    && pos[self.edges@[j].0 as int] < pos[self.edges@[j].1 as int],
        ensures
            acyclic(self.spec_edges()),
    {
        lemma_count_true_bound(removed);
        let nodes = self.nodes@;
        let rank = |x: Seq<char>|
            if exists|i: int| 0 <= i < nodes.len() && nodes[i]@ == x {
                pos[choose|i: int| 0 <= i < nodes.len() && nodes[i]@ == x]
            } else {
                0
            };
        assert forall|a: Seq<char>, b: Seq<char>| #[trigger] self.spec_edges().contains((a, b)) implies rank(a) < rank(b) by {
            let j = choose|j: int| 0 <= j < self.edges@.len() && self.edge_at(j) == (a, b);
            let fa = self.edges@[j].0 as int;
            let fb = self.edges@[j].1 as int;
            assert(nodes[fa]@ == a);
            assert(nodes[fb]@ == b);
            let ia = choose|i: int| 0 <= i < nodes.len() && nodes[i]@ == a;
            let ib = choose|i: int| 0 <= i < nodes.len() && nodes[i]@ == b;
            assert(ia == fa);
            assert(ib == fb);
            assert(removed[fb]);
        }
        assert(is_ranking(self.spec_edges(), rank));
        assert(acyclic(self.spec_edges()));
    }

    /// In a stuck state, an edge into the unremoved node `u` from an unremoved
    /// node.
    spec fn stuck_edge(&self, removed: Seq<bool>, u: int) -> int {
        choose|j: int| 0 <= j < self.edges@.len() && (#[trigger] self.edges@[j]).1 == u && !removed[self.edges@[j].0 as int]
    }

    /// Following those edges `k` times back from `start`.
    spec fn back_chain(&self, removed: Seq<bool>, start: int, k: nat) -> int
        decreases k,
    {
        if k == 0 {
            start
        } else {
            self.edges@[self.stuck_edge(removed, self.back_chain(removed, start, (k - 1) as nat))].0 as int
        }
    }

    proof fn lemma_back_chain(&self, removed: Seq<bool>, start: int, k: nat)
        requires
            self.wf(),
            removed.len() == self.nodes@.len(),
            0 <= start < self.nodes@.len(),
            !removed[start],
            forall|u: int| 0 <= u < self.nodes@.len() ==> (removed[u] || exists|j: int|
                0 <= j < self.edges@.len() && (#[trigger] self.edges@[j]).1 == u && !removed[self.edges@[j].0 as int]),
        ensures
            0 <= self.back_chain(removed, start, k) < self.nodes@.len(),
            !removed[self.back_chain(removed, start, k)],
            k > 0 ==> {
                let j = self.stuck_edge(removed, self.back_chain(removed, start, (k - 1) as nat));
                &&& 0 <= j < self.edges@.len()
                &&& self.edges@[j].0 == self.back_chain(removed, start, k)
                &&& self.edges@[j].1 == self.back_chain(removed, start, (k - 1) as nat)
            },
        decreases k,
    {
        if k > 0 {
            self.lemma_back_chain(removed, start, (k - 1) as nat);
            let u = self.back_chain(removed, start, (k - 1) as nat);
            assert(exists|j: int|
                0 <= j < self.edges@.len() && (#[trigger] self.edges@[j]).1 == u && !removed[self.edges@[j].0 as int]);
            let j = self.stuck_edge(removed, u);
            assert(0 <= j < self.edges@.len() && self.edges@[j].1 == u && !removed[self.edges@[j].0 as int]);
        }
    }

    /// A stuck state, where every node left has an edge from another node
    /// left, comes from a cycle: following edges backwards from a node left
    /// must come back to a node already met.
    proof fn lemma_stuck_has_cycle(&self, removed: Seq<bool>, count: int)
        requires
            self.wf(),
            removed.len() == self.nodes@.len(),
            count < self.nodes@.len(),
            count == count_true(removed),
            forall|u: int| 0 <= u < self.nodes@.len() ==> (removed[u] || exists|j: int|
                0 <= j < self.edges@.len() && (#[trigger] self.edges@[j]).1 == u && !removed[self.edges@[j].0 as int]),
        ensures
            exists|path: Seq<Seq<char>>| is_cycle(self.spec_edges(), path),
    {
        let n = self.nodes@.len();
        lemma_count_true_bound(removed);
        if forall|i: int| 0 <= i < n ==> removed[i] {
            lemma_count_true_all(removed);
            assert(false);
        }
        let some = choose|i: int| 0 <= i < n && !removed[i];
        let chain = Seq::new((n + 1) as nat, |k: int| self.back_chain(removed, some, k as nat));
        assert forall|k: int| 0 <= k < chain.len() implies 0 <= #[trigger] chain[k] < n by {
            self.lemma_back_chain(removed, some, k as nat);
        }
        let (a, b) = lemma_pigeonhole(chain, n as int);
        let path = Seq::new((b - a + 1) as nat, |t: int| self.nodes@[self.back_chain(removed, some, (b - t) as nat)]@);
        assert forall|t: int| 0 <= t < path.len() - 1 implies #[trigger] self.spec_edges().contains((path[t], path[t + 1])) by {
            self.lemma_back_chain(removed, some, (b - t) as nat);
            assert(((b - t) - 1) as nat == (b - (t + 1)) as nat);
            let j = self.stuck_edge(removed, self.back_chain(removed, some, ((b - t) - 1) as nat));
            assert(self.edge_at(j) == (path[t], path[t + 1]));
        }
        assert(chain[a] == chain[b]);
        assert(path[0] == self.nodes@[chain[b]]@);
        assert(path[path.len() - 1] == self.nodes@[chain[a]]@);
        assert(is_cycle(self.spec_edges(), path));
    }

    proof fn lemma_stuck_not_acyclic(&self, removed: Seq<bool>, count: int)
        requires
            self.wf(),
            removed.len() == self.nodes@.len(),
            count < self.nodes@.len(),
            count == count_true(removed),
            forall|u: int| 0 <= u < self.nodes@.len() ==> (removed[u] || exists|j: int|
                0 <= j < self.edges@.len() && (#[trigger] self.edges@[j]).1 == u && !removed[self.edges@[j].0 as int]),
        ensures
            !acyclic(self.spec_edges()),
    {
        let n = self.nodes@.len();
        lemma_count_true_bound(removed);
        if forall|i: int| 0 <= i < n ==> removed[i] {
            lemma_count_true_all(removed);
            assert(false);
        }
        let some = choose|i: int| 0 <= i < n && !removed[i];
        if acyclic(self.spec_edges()) {
            let rank = choose|rank: spec_fn(Seq<char>) -> int| is_ranking(self.spec_edges(), rank);
            let ranks = Seq::new(n, |i: int| rank(self.nodes@[i]@));
            let m = lemma_least_rank(ranks, removed, some);
            let j = choose|j: int|
                0 <= j < self.edges@.len() && (#[trigger] self.edges@[j]).1 == m && !removed[self.edges@[j].0 as int];
            let u = self.edges@[j].0 as int;
            assert(self.spec_edges().contains(self.edge_at(j)));
            assert(rank(self.nodes@[u]@) < rank(self.nodes@[m]@));
            assert(ranks[u] < ranks[m]);
        }
    }
}

} // verus!
