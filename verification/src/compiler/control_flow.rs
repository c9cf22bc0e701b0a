//! The control-flow graph of a function: basic blocks with their successors
//! and predecessors, the dominators of each block, and the check that every
//! block can be reached from the entry.
use vstd::prelude::*;
use crate::ast::ASTNode;
use crate::error::{IoError, ErrorKind};
use crate::module::graph::count_true;
use crate::text::{decimal, push_decimal, push_str, to_owned_string};

verus! {

/// A basic block: its number, its statements, and the blocks control goes to
/// and comes from.
#[derive(Debug)]
pub struct BasicBlock {
    pub id: usize,
    pub statements: Vec<ASTNode>,
    pub successors: Vec<usize>,
    pub predecessors: Vec<usize>,
}

/// Block `k` is in every predecessor's row of `d` (predecessors that are no
/// block are passed over).
pub open spec fn meet(d: Seq<Seq<bool>>, preds: Seq<usize>, n: nat, k: int) -> bool {
    forall|j: int| 0 <= j < preds.len() && preds[j] < n ==> #[trigger] d[preds[j] as int][k]
}

/// Whether `k` dominates block `b` by one step of the dominator equations:
/// `b` itself, or a block in the dominators of all its predecessors.
pub open spec fn transfer(d: Seq<Seq<bool>>, preds: Seq<usize>, n: nat, b: int, k: int) -> bool {
    k == b || meet(d, preds, n, k)
}

/// The dominator table has a row of `n` entries per block.
pub open spec fn rows_ok(d: Seq<Seq<bool>>, n: nat) -> bool {
    d.len() == n && forall|b: int| 0 <= b < n ==> (#[trigger] d[b]).len() == n
}

/// The entry is dominated by itself alone.
pub open spec fn entry_row(d: Seq<Seq<bool>>, n: nat, entry: int) -> bool {
    forall|k: int| 0 <= k < n ==> #[trigger] d[entry][k] == (k == entry)
}

/// A table that solves the dominator equations: the entry's row is the entry
/// alone, and every other row is what one step of the equations gives.
pub open spec fn is_dominator_solution(d: Seq<Seq<bool>>, preds: Seq<Seq<usize>>, n: nat, entry: int) -> bool {
    &&& rows_ok(d, n)
    &&& entry_row(d, n, entry)
    &&& forall|b: int, k: int|
        0 <= b < n && b != entry && 0 <= k < n ==> (#[trigger] d[b][k] == transfer(d, preds[b], n, b, k))
}

/// Table `x` holds no more than table `d`.
pub open spec fn below(x: Seq<Seq<bool>>, d: Seq<Seq<bool>>, n: nat) -> bool {
    forall|b: int, k: int| 0 <= b < n && 0 <= k < n && #[trigger] x[b][k] ==> d[b][k]
}

/// One step of the equations gives no more than the table holds.
pub open spec fn shrinks(d: Seq<Seq<bool>>, preds: Seq<Seq<usize>>, n: nat, entry: int) -> bool {
    forall|b: int, k: int|
        0 <= b < n && b != entry && 0 <= k < n && transfer(d, preds[b], n, b, k) ==> #[trigger] d[b][k]
}

/// How many entries of the table are set.
pub open spec fn total_true(d: Seq<Seq<bool>>) -> nat
    decreases d.len(),
{
    if d.len() == 0 {
        0
    } else {
        total_true(d.drop_last()) + count_true(d.last())
    }
}

proof fn lemma_count_le(a: Seq<bool>, b: Seq<bool>)
    requires
        a.len() == b.len(),
        forall|i: int| 0 <= i < a.len() && a[i] ==> b[i],
    ensures
        count_true(a) <= count_true(b),
        a != b ==> count_true(a) < count_true(b),
    decreases a.len(),
{
    if a.len() > 0 {
        lemma_count_le(a.drop_last(), b.drop_last());
        if a != b && a.drop_last() == b.drop_last() && a.last() == b.last() {
            assert forall|i: int| 0 <= i < a.len() implies a[i] == b[i] by {
                if i < a.len() - 1 {
                    assert(a.drop_last()[i] == a[i]);
                    assert(b.drop_last()[i] == b[i]);
                }
            }
            assert(a =~= b);
        }
    } else {
        assert(a =~= b);
    }
}

proof fn lemma_total_update(d: Seq<Seq<bool>>, i: int, r: Seq<bool>)
    requires
        0 <= i < d.len(),
    ensures
        total_true(d.update(i, r)) + count_true(d[i]) == total_true(d) + count_true(r),
    decreases d.len(),
{
    if i == d.len() - 1 {
        assert(d.update(i, r).drop_last() =~= d.drop_last());
    } else {
        lemma_total_update(d.drop_last(), i, r);
        assert(d.update(i, r).drop_last() =~= d.drop_last().update(i, r));
    }
}

/// A smaller table gives no more by one step of the equations.
proof fn lemma_transfer_mono(x: Seq<Seq<bool>>, d: Seq<Seq<bool>>, preds: Seq<usize>, n: nat, b: int, k: int)
    requires
        below(x, d, n),
        rows_ok(x, n),
        0 <= k < n,
        transfer(x, preds, n, b, k),
    ensures
        transfer(d, preds, n, b, k),
{
    if k != b {
        assert forall|j: int| 0 <= j < preds.len() && preds[j] < n implies #[trigger] d[preds[j] as int][k] by {
            assert(x[preds[j] as int][k]);
        }
    }
}


/// A walk along successor edges: each step goes from a block to one of its
/// successors.
pub open spec fn is_walk(succ: Seq<Seq<usize>>, w: Seq<int>) -> bool {
    &&& w.len() >= 1
    &&& forall|i: int| 0 <= i < w.len() ==> 0 <= #[trigger] w[i] < succ.len()
    &&& forall|i: int| 1 <= i < w.len() ==> succ[w[i - 1]].contains(#[trigger] w[i] as usize)
}

/// Block `x` can be reached from block `from` along successor edges.
pub open spec fn reachable(succ: Seq<Seq<usize>>, from: int, x: int) -> bool {
    exists|w: Seq<int>| is_walk(succ, w) && w[0] == from && #[trigger] w.last() == x
}

/// The message for a block that cannot be reached.
pub open spec fn unreachable_message(id: nat) -> Seq<char> {
    "Basic block "@ + decimal(id) + " is unreachable"@
}

/// The first block, from `i` on, that cannot be reached from `entry`.
pub open spec fn first_unreachable(succ: Seq<Seq<usize>>, entry: int, i: nat) -> Option<nat>
    decreases succ.len() - i,
{
    if i >= succ.len() {
        None
    } else if !reachable(succ, entry, i as int) {
        Some(i)
    } else {
        first_unreachable(succ, entry, i + 1)
    }
}

/// A set of blocks that holds `entry` and every successor of its members
/// holds every block reachable from `entry`.
proof fn lemma_closed_holds_reachable(succ: Seq<Seq<usize>>, entry: int, vis: Seq<bool>, w: Seq<int>)
    requires
        vis.len() == succ.len(),
        succ.len() <= usize::MAX,
        0 <= entry < succ.len(),
        vis[entry],
        forall|u: int, j: int|
            0 <= u < succ.len() && vis[u] && 0 <= j < succ[u].len() && succ[u][j] < succ.len() ==> vis[#[trigger] succ[u][j] as int],
        is_walk(succ, w),
        w[0] == entry,
    ensures
        vis[w.last()],
    decreases w.len(),
{
    if w.len() > 1 {
        let p = w.drop_last();
        assert(is_walk(succ, p)) by {
            assert forall|i: int| 1 <= i < p.len() implies succ[p[i - 1]].contains(#[trigger] p[i] as usize) by {
                assert(p[i - 1] == w[i - 1] && p[i] == w[i]);
            }
            assert forall|i: int| 0 <= i < p.len() implies 0 <= #[trigger] p[i] < succ.len() by {
                assert(p[i] == w[i]);
            }
        }
        lemma_closed_holds_reachable(succ, entry, vis, p);
        let u = w[w.len() - 2];
        assert(p.last() == u);
        assert(succ[w[w.len() - 1 - 1]].contains(w[w.len() - 1] as usize));
        assert(succ[u].contains(w.last() as usize));
        let j = choose|j: int| 0 <= j < succ[u].len() && succ[u][j] == w.last() as usize;
        assert(vis[succ[u][j] as int]);
        assert(0 <= w[w.len() - 1] < succ.len());
        assert(succ[u][j] as int == w.last());
    }
}


proof fn lemma_count_single(s: Seq<bool>, e: int)
    requires
        0 <= e < s.len(),
        forall|t: int| 0 <= t < s.len() ==> #[trigger] s[t] == (t == e),
    ensures
        count_true(s) == 1,
    decreases s.len(),
{
    if s.len() - 1 == e {
        assert forall|t: int| 0 <= t < s.drop_last().len() implies !#[trigger] s.drop_last()[t] by {
            assert(s.drop_last()[t] == s[t]);
        }
        lemma_count_none_local(s.drop_last());
    } else {
        assert forall|t: int| 0 <= t < s.drop_last().len() implies #[trigger] s.drop_last()[t] == (t == e) by {
            assert(s.drop_last()[t] == s[t]);
        }
        lemma_count_single(s.drop_last(), e);
    }
}

proof fn lemma_count_none_local(s: Seq<bool>)
    requires
        forall|t: int| 0 <= t < s.len() ==> !#[trigger] s[t],
    ensures
        count_true(s) == 0,
    decreases s.len(),
{
    if s.len() > 0 {
        assert forall|t: int| 0 <= t < s.drop_last().len() implies !#[trigger] s.drop_last()[t] by {
            assert(s.drop_last()[t] == s[t]);
        }
        lemma_count_none_local(s.drop_last());
    }
}

proof fn lemma_count_true_set_pub(s: Seq<bool>, v: int)
    requires
        0 <= v < s.len(),
        !s[v],
    ensures
        count_true(s.update(v, true)) == count_true(s) + 1,
    decreases s.len(),
{
    if v == s.len() - 1 {
        assert(s.update(v, true).drop_last() =~= s.drop_last());
    } else {
        lemma_count_true_set_pub(s.drop_last(), v);
        assert(s.update(v, true).drop_last() =~= s.drop_last().update(v, true));
    }
}

proof fn lemma_count_bound_pub(s: Seq<bool>)
    ensures
        count_true(s) <= s.len(),
    decreases s.len(),
{
    if s.len() > 0 {
        lemma_count_bound_pub(s.drop_last());
    }
}

/// The rows as sequences.
pub open spec fn rows_view(v: Seq<Vec<bool>>) -> Seq<Seq<bool>> {
    v.map_values(|r: Vec<bool>| r@)
}

/// The graph: blocks numbered from zero, the entry and exit blocks, and the
/// dominator table, one row per block.
#[derive(Debug)]
pub struct ControlFlowGraph {
    blocks: Vec<BasicBlock>,
    entry: usize,
    exit: usize,
    dominators: Vec<Vec<bool>>,
}

impl ControlFlowGraph {
    /// The blocks, by number.
    pub closed spec fn spec_blocks(&self) -> Seq<BasicBlock> {
        self.blocks@
    }

    /// The entry block.
    pub closed spec fn spec_entry(&self) -> nat {
        self.entry as nat
    }

    /// The exit block.
    pub closed spec fn spec_exit(&self) -> nat {
        self.exit as nat
    }

    /// The dominator table.
    pub closed spec fn spec_dominators(&self) -> Seq<Seq<bool>> {
        rows_view(self.dominators@)
    }

    /// The predecessors of each block.
    pub open spec fn spec_preds(&self) -> Seq<Seq<usize>> {
        self.spec_blocks().map_values(|b: BasicBlock| b.predecessors@)
    }

    /// Each block carries its own number; the entry and exit are blocks.
    pub open spec fn wf(&self) -> bool {
        &&& forall|i: int| 0 <= i < self.spec_blocks().len() ==> (#[trigger] self.spec_blocks()[i]).id == i
        &&& self.spec_entry() < self.spec_blocks().len()
        &&& self.spec_exit() < self.spec_blocks().len()
    }

    /// A graph of two empty blocks: the entry, 0, and the exit, 1.
    pub fn new() -> (r: Self)
        ensures
            r.wf(),
            r.spec_blocks().len() == 2,
            r.spec_entry() == 0,
            r.spec_exit() == 1,
            forall|i: int| 0 <= i < 2 ==> (#[trigger] r.spec_blocks()[i]).successors@.len() == 0
                && r.spec_blocks()[i].predecessors@.len() == 0 && r.spec_blocks()[i].statements@.len() == 0,
    {
        let mut blocks: Vec<BasicBlock> = Vec::new();
        blocks.push(BasicBlock { id: 0, statements: Vec::new(), successors: Vec::new(), predecessors: Vec::new() });
        blocks.push(BasicBlock { id: 1, statements: Vec::new(), successors: Vec::new(), predecessors: Vec::new() });
        ControlFlowGraph { blocks, entry: 0, exit: 1, dominators: Vec::new() }
    }

    /// Adds an empty block and returns its number, the next one.
    pub fn create_block(&mut self) -> (r: usize)
        requires
            old(self).wf(),
            old(self).spec_blocks().len() < usize::MAX,
        ensures
            final(self).wf(),
            r == old(self).spec_blocks().len(),
            final(self).spec_blocks().len() == old(self).spec_blocks().len() + 1,
            final(self).spec_blocks().drop_last() == old(self).spec_blocks(),
            final(self).spec_blocks().last().successors@.len() == 0,
            final(self).spec_blocks().last().predecessors@.len() == 0,
            final(self).spec_blocks().last().statements@.len() == 0,
            final(self).spec_entry() == old(self).spec_entry(),
            final(self).spec_exit() == old(self).spec_exit(),
            final(self).spec_dominators() == old(self).spec_dominators(),
    {
        let id = self.blocks.len();
        self.blocks.push(BasicBlock { id, statements: Vec::new(), successors: Vec::new(), predecessors: Vec::new() });
        assert(self.spec_blocks().drop_last() =~= old(self).spec_blocks());
        id
    }

    /// Adds the edge `from -> to`: `to` becomes a successor of `from` and
    /// `from` a predecessor of `to`, each once; a number that is no block is
    /// passed over.
    pub fn add_edge(&mut self, from: usize, to: usize)
        requires
            old(self).wf(),
        ensures
            final(self).wf(),
            final(self).spec_blocks().len() == old(self).spec_blocks().len(),
            final(self).spec_entry() == old(self).spec_entry(),
            final(self).spec_exit() == old(self).spec_exit(),
            final(self).spec_dominators() == old(self).spec_dominators(),
            forall|i: int|
                0 <= i < old(self).spec_blocks().len() ==> (#[trigger] final(self).spec_blocks()[i]).statements
                    == old(self).spec_blocks()[i].statements,
            forall|i: int|
                0 <= i < old(self).spec_blocks().len() ==> (#[trigger] final(self).spec_blocks()[i]).successors@ == if i
                    == from && to < old(self).spec_blocks().len() && !old(self).spec_blocks()[i].successors@.contains(to) {
                    old(self).spec_blocks()[i].successors@.push(to)
                } else {
                    old(self).spec_blocks()[i].successors@
                },
            forall|i: int|
                0 <= i < old(self).spec_blocks().len() ==> (#[trigger] final(self).spec_blocks()[i]).predecessors@ == if i
                    == to && from < old(self).spec_blocks().len() && !old(self).spec_blocks()[i].predecessors@.contains(
                    from,
                ) {
                    old(self).spec_blocks()[i].predecessors@.push(from)
                } else {
                    old(self).spec_blocks()[i].predecessors@
                },
    {
        let n = self.blocks.len();
        if from < n && to < n {
            if !contains_id(&self.blocks[from].successors, to) {
                let mut b = self.blocks.remove(from);
                b.successors.push(to);
                self.blocks.insert(from, b);
            }
            if !contains_id(&self.blocks[to].predecessors, from) {
                let mut b = self.blocks.remove(to);
                b.predecessors.push(from);
                self.blocks.insert(to, b);
            }
        }
    }


    /// The successors of each block.
    pub open spec fn spec_succs(&self) -> Seq<Seq<usize>> {
        self.spec_blocks().map_values(|b: BasicBlock| b.successors@)
    }

    /// Checks that every block can be reached from the entry along successor
    /// edges; the first block that cannot fails with "Basic block {id} is
    /// unreachable".
    pub fn verify(&self) -> (r: Result<(), IoError>)
        requires
            self.wf(),
        ensures
            match first_unreachable(self.spec_succs(), self.spec_entry() as int, 0) {
                None => r is Ok,
                Some(id) => r matches Err(e) && e.spec_kind() == ErrorKind::ValidationError && e.spec_message()
                    == unreachable_message(id),
            },
    {
        let n = self.blocks.len();
        let ghost succ = self.spec_succs();
        let ghost entry = self.entry as int;
        let mut visited: Vec<bool> = Vec::new();
        let mut k: usize = 0;
        while k < n
            invariant
                k <= n,
                visited@.len() == k,
                forall|t: int| 0 <= t < k ==> #[trigger] visited@[t] == (t == entry),
                entry == self.spec_entry(),
            decreases n - k,
        {
            visited.push(k == self.entry);
            k = k + 1;
        }
        let mut stack: Vec<usize> = Vec::new();
        stack.push(self.entry);
        let ghost mut unvisited: nat = (n - 1) as nat;
        proof {
            assert(stack@[0] == self.entry);
            assert(is_walk(succ, seq![entry]));
            assert(seq![entry].last() == entry);
            assert(count_true(visited@) == 1) by {
                lemma_count_single(visited@, entry);
            }
        }
        while stack.len() > 0
            invariant
                n == self.spec_blocks().len(),
                succ == self.spec_succs(),
                succ.len() == n,
                entry == self.spec_entry(),
                0 <= entry < n,
                visited@.len() == n,
                visited@[entry],
                forall|u: int| 0 <= u < n && visited@[u] ==> reachable(succ, entry, u),
                forall|t: int| 0 <= t < stack@.len() ==> (#[trigger] stack@[t]) < n && visited@[stack@[t] as int],
                forall|u: int, j: int|
                    0 <= u < n && visited@[u] && !stack@.contains(u as usize) && 0 <= j < succ[u].len() && succ[u][j]
                        < n ==> visited@[#[trigger] succ[u][j] as int],
                count_true(visited@) <= n,
            decreases n - count_true(visited@), stack@.len(),
        {
            let ghost stack_start = stack@;
            let ghost before = visited@;
            assert(forall|x: int, q: int|
                0 <= x < n && before[x] && !stack_start.contains(x as usize) && 0 <= q < succ[x].len() && succ[x][q]
                    < n ==> before[#[trigger] succ[x][q] as int]);
            let u = stack.pop().unwrap();
            let ghost stack_after_pop = stack@;
            proof {
                assert(stack_after_pop =~= stack_start.drop_last());
                assert(u == stack_start.last());
            }
            let succs = &self.blocks[u].successors;
            proof {
                assert(succs@ == succ[u as int]);
            }
            let mut j: usize = 0;
            while j < succs.len()
                invariant
                    n == self.spec_blocks().len(),
                    succ == self.spec_succs(),
                    succ.len() == n,
                    u < n,
                    succs@ == succ[u as int],
                    0 <= entry < n,
                    visited@.len() == n,
                    visited@[entry],
                    visited@[u as int],
                    j <= succs@.len(),
                    forall|x: int| 0 <= x < n && before[x] ==> visited@[x],
                    forall|x: int| 0 <= x < n && visited@[x] ==> reachable(succ, entry, x),
                    forall|t: int| 0 <= t < stack@.len() ==> (#[trigger] stack@[t]) < n && visited@[stack@[t] as int],
                    stack@.len() >= stack_after_pop.len(),
                    stack@.subrange(0, stack_after_pop.len() as int) == stack_after_pop,
                    forall|x: int| 0 <= x < n && visited@[x] && !before[x] ==> stack@.contains(x as usize),
                    forall|q: int| 0 <= q < j && succs@[q] < n ==> visited@[#[trigger] succs@[q] as int],
                    count_true(before) <= count_true(visited@),
                    stack@.len() > stack_after_pop.len() ==> count_true(before) < count_true(visited@),
                    count_true(visited@) <= n,
                decreases succs.len() - j,
            {
                let v = succs[j];
                if v < n && !visited[v] {
                    let ghost vb = visited@;
                    let ghost sb = stack@;
                    proof {
                        let w = choose|w: Seq<int>| is_walk(succ, w) && w[0] == entry && #[trigger] w.last() == u as int;
                        let w2 = w.push(v as int);
                        assert(succ[u as int].contains(v)) by {
                            assert(succ[u as int][j as int] == v);
                        }
                        assert(is_walk(succ, w2)) by {
                            assert forall|i: int| 0 <= i < w2.len() - 1 implies succ[w2[i]].contains(#[trigger] w2[i + 1] as usize) by {
                                if i < w.len() - 1 {
                                    assert(w2[i] == w[i] && w2[i + 1] == w[i + 1]);
                                } else {
                                    assert(w2[i] == u as int);
                                }
                            }
                        }
                        assert(w2.last() == v as int);
                        lemma_count_true_set_pub(vb, v as int);
                        lemma_count_bound_pub(vb.update(v as int, true));
                    }
                    visited.set(v, true);
                    stack.push(v);
                    proof {
                        assert(stack@[stack@.len() - 1] == v);
                        assert(stack@.subrange(0, stack_after_pop.len() as int) =~= stack_after_pop) by {
                            assert forall|t: int| 0 <= t < stack_after_pop.len() implies stack@[t] == stack_after_pop[t] by {
                            }
                        }
                        assert forall|x: int| 0 <= x < n && visited@[x] && !before[x] implies stack@.contains(x as usize) by {
                            if x == v as int {
                                assert(stack@[stack@.len() - 1] == v);
                            } else {
                                assert(vb[x]);
                                assert(sb.contains(x as usize));
                                let t = choose|t: int| 0 <= t < sb.len() && sb[t] == x as usize;
                                assert(stack@[t] == sb[t]);
                            }
                        }
                    }
                }
                j = j + 1;
            }
            proof {
                assert forall|x: int, q: int|
                    0 <= x < n && visited@[x] && !stack@.contains(x as usize) && 0 <= q < succ[x].len() && succ[x][q] < n
                        implies visited@[#[trigger] succ[x][q] as int] by {
                    if x == u as int {
                        assert(succs@[q] == succ[x][q]);
                    } else {
                        if !before[x] {
                            assert(stack@.contains(x as usize));
                        }
                        assert(before[x]);
                        if stack_start.contains(x as usize) {
                            let t = choose|t: int| 0 <= t < stack_start.len() && stack_start[t] == x as usize;
                            if t < stack_start.len() - 1 {
                                assert(stack_after_pop[t] == x as usize);
                                assert(stack@[t] == stack_after_pop[t]);
                                assert(stack@.contains(x as usize));
                            }
                        }
                        assert(!stack_start.contains(x as usize));
                        assert(before[succ[x][q] as int]);
                    }
                }
            }
        }
        proof {
            assert forall|x: int| 0 <= x < n && reachable(succ, entry, x) implies visited@[x] by {
                let w = choose|w: Seq<int>| is_walk(succ, w) && w[0] == entry && #[trigger] w.last() == x;
                assert forall|a: int, q: int|
                    0 <= a < succ.len() && visited@[a] && 0 <= q < succ[a].len() && succ[a][q] < succ.len() implies visited@[#[trigger] succ[a][q] as int] by {
                    assert(!stack@.contains(a as usize));
                }
                lemma_closed_holds_reachable(succ, entry, visited@, w);
            }
        }
        let mut i: usize = 0;
        while i < n
            invariant
                n == self.spec_blocks().len(),
                succ == self.spec_succs(),
                succ.len() == n,
                entry == self.spec_entry(),
                visited@.len() == n,
                i <= n,
                forall|x: int| 0 <= x < n ==> (visited@[x] <==> reachable(succ, entry, x)),
                first_unreachable(succ, entry, i as nat) == first_unreachable(succ, entry, 0),
            decreases n - i,
        {
            if !visited[i] {
                let mut m = to_owned_string("Basic block ");
                push_decimal(&mut m, i);
                push_str(&mut m, " is unreachable");
                return Err(IoError::validation_error(m.as_str()));
            }
            i = i + 1;
        }
        Ok(())
    }

    /// The blocks that dominate block `id`, in increasing order, as the last
    /// computation of the dominators left them.
    pub fn dominators_of(&self, id: usize) -> (r: Vec<usize>)
        ensures
            id < self.spec_dominators().len() ==> forall|k: int| 0 <= k < self.spec_dominators()[id as int].len()
                ==> (#[trigger] self.spec_dominators()[id as int][k] <==> r@.contains(k as usize)),
            id >= self.spec_dominators().len() ==> r@.len() == 0,
    {
        let mut out: Vec<usize> = Vec::new();
        if id >= self.dominators.len() {
            return out;
        }
        let row = &self.dominators[id];
        let mut k: usize = 0;
        while k < row.len()
            invariant
                k <= row@.len(),
                id < self.spec_dominators().len(),
                row@ == self.spec_dominators()[id as int],
                forall|t: int| 0 <= t < out@.len() ==> out@[t] < k,
                forall|t: int| 0 <= t < k ==> (#[trigger] row@[t] <==> out@.contains(t as usize)),
            decreases row.len() - k,
        {
            let ghost old_out = out@;
            if row[k] {
                out.push(k);
            }
            proof {
                assert forall|t: int| 0 <= t < k + 1 implies (#[trigger] row@[t] <==> out@.contains(t as usize)) by {
                    if t < k {
                        if old_out.contains(t as usize) {
                            let q = choose|q: int| 0 <= q < old_out.len() && old_out[q] == t as usize;
                            assert(out@[q] == t as usize);
                        }
                        if out@.contains(t as usize) {
                            let q = choose|q: int| 0 <= q < out@.len() && out@[q] == t as usize;
                            if q < old_out.len() {
                                assert(old_out[q] == t as usize);
                            }
                        }
                    } else {
                        if row@[k as int] {
                            assert(out@[out@.len() - 1] == k);
                        } else if out@.contains(k) {
                            let q = choose|q: int| 0 <= q < out@.len() && out@[q] == k;
                            assert(old_out[q] < k);
                        }
                    }
                }
            }
            k = k + 1;
        }
        out
    }

    /// One step of the dominator equations for block `id` on the table `d`.
    fn transfer_row(&self, d: &Vec<Vec<bool>>, id: usize) -> (r: Vec<bool>)
        requires
            rows_ok(rows_view(d@), self.spec_blocks().len() as nat),
            id < self.spec_blocks().len(),
        ensures
            r@.len() == self.spec_blocks().len(),
            forall|k: int| 0 <= k < r@.len() ==> #[trigger] r@[k] == transfer(
                rows_view(d@),
                self.spec_preds()[id as int],
                self.spec_blocks().len() as nat,
                id as int,
                k,
            ),
    {
        let n = self.blocks.len();
        let ghost dv = rows_view(d@);
        let preds = &self.blocks[id].predecessors;
        proof {
            assert(self.spec_preds()[id as int] == preds@);
        }
        let mut row: Vec<bool> = Vec::new();
        let mut k: usize = 0;
        while k < n
            invariant
                k <= n,
                row@.len() == k,
                forall|t: int| 0 <= t < k ==> #[trigger] row@[t],
            decreases n - k,
        {
            row.push(true);
            k = k + 1;
        }
        let mut j: usize = 0;
        while j < preds.len()
            invariant
                n == self.spec_blocks().len(),
                dv == rows_view(d@),
                rows_ok(dv, n as nat),
                j <= preds@.len(),
                row@.len() == n,
                forall|t: int|
                    0 <= t < n ==> (#[trigger] row@[t] == forall|q: int|
                        0 <= q < j && preds@[q] < n ==> #[trigger] dv[preds@[q] as int][t]),
            decreases preds.len() - j,
        {
            let p = preds[j];
            if p < n {
                let prow = &d[p];
                assert(prow@ == dv[p as int]);
                let mut t: usize = 0;
                while t < n
                    invariant
                        n == self.spec_blocks().len(),
                        dv == rows_view(d@),
                        rows_ok(dv, n as nat),
                        p < n,
                        prow@ == dv[p as int],
                        t <= n,
                        j < preds@.len(),
                        preds@[j as int] == p,
                        row@.len() == n,
                        forall|u: int|
                            0 <= u < t ==> (#[trigger] row@[u] == forall|q: int|
                                0 <= q < j + 1 && preds@[q] < n ==> #[trigger] dv[preds@[q] as int][u]),
                        forall|u: int|
                            t <= u < n ==> (#[trigger] row@[u] == forall|q: int|
                                0 <= q < j && preds@[q] < n ==> #[trigger] dv[preds@[q] as int][u]),
                    decreases n - t,
                {
                    let v = row[t] && prow[t];
                    row.set(t, v);
                    proof {
                        assert forall|u: int|
                            0 <= u < t + 1 implies (#[trigger] row@[u] == forall|q: int|
                            0 <= q < j + 1 && preds@[q] < n ==> #[trigger] dv[preds@[q] as int][u]) by {
                            if u == t {
                                if forall|q: int| 0 <= q < j && preds@[q] < n ==> #[trigger] dv[preds@[q] as int][u] {
                                    if dv[p as int][u] {
                                        assert forall|q: int| 0 <= q < j + 1 && preds@[q] < n implies #[trigger] dv[preds@[q] as int][u] by {
                                            if q == j {
                                                assert(preds@[q] == p);
                                            }
                                        }
                                    }
                                }
                            }
                        }
                    }
                    t = t + 1;
                }
            } else {
                proof {
                    assert forall|t: int|
                        0 <= t < n implies (#[trigger] row@[t] == forall|q: int|
                        0 <= q < j + 1 && preds@[q] < n ==> #[trigger] dv[preds@[q] as int][t]) by {
                        if forall|q: int| 0 <= q < j && preds@[q] < n ==> #[trigger] dv[preds@[q] as int][t] {
                            assert forall|q: int| 0 <= q < j + 1 && preds@[q] < n implies #[trigger] dv[preds@[q] as int][t] by {
                                if q == j {
                                    assert(preds@[q] >= n);
                                }
                            }
                        }
                    }
                }
            }
            j = j + 1;
        }
        row.set(id, true);
        proof {
            assert forall|k: int| 0 <= k < row@.len() implies #[trigger] row@[k] == transfer(dv, preds@, n as nat, id as int, k) by {
                if k != id {
                    assert(row@[k] == (forall|q: int| 0 <= q < preds@.len() && preds@[q] < n ==> #[trigger] dv[preds@[q] as int][k]));
                }
            }
        }
        row
    }

    /// Computes the dominators of every block: the entry is dominated by
    /// itself alone, every other block starts dominated by all, and each is
    /// set to itself with what dominates all its predecessors, block by block
    /// in order, until a pass changes nothing. The table is the greatest
    /// solution of the dominator equations.
    pub fn compute_dominators(&mut self)
        requires
            old(self).wf(),
        ensures
            final(self).wf(),
            final(self).spec_blocks() == old(self).spec_blocks(),
            final(self).spec_entry() == old(self).spec_entry(),
            final(self).spec_exit() == old(self).spec_exit(),
            is_dominator_solution(
                final(self).spec_dominators(),
                final(self).spec_preds(),
                final(self).spec_blocks().len() as nat,
                final(self).spec_entry() as int,
            ),
            forall|x: Seq<Seq<bool>>|
                is_dominator_solution(x, final(self).spec_preds(), final(self).spec_blocks().len() as nat, final(self).spec_entry() as int)
                    ==> below(x, final(self).spec_dominators(), final(self).spec_blocks().len() as nat),
    {
        let n = self.blocks.len();
        let entry = self.entry;
        let ghost preds = self.spec_preds();
        let mut doms: Vec<Vec<bool>> = Vec::new();
        let mut b: usize = 0;
        while b < n
            invariant
                b <= n,
                n == self.spec_blocks().len(),
                entry == self.spec_entry(),
                entry < n,
                doms@.len() == b,
                forall|i: int| 0 <= i < b ==> (#[trigger] doms@[i])@.len() == n,
                forall|i: int, k: int| 0 <= i < b && 0 <= k < n ==> #[trigger] doms@[i]@[k] == (if i == entry { k == entry } else { true }),
            decreases n - b,
        {
            let mut row: Vec<bool> = Vec::new();
            let mut k: usize = 0;
            while k < n
                invariant
                    k <= n,
                    row@.len() == k,
                    forall|t: int| 0 <= t < k ==> #[trigger] row@[t] == (if b == entry { t == entry } else { true }),
                decreases n - k,
            {
                row.push(if b == entry { k == entry } else { true });
                k = k + 1;
            }
            doms.push(row);
            b = b + 1;
        }
        proof {
            let dv = rows_view(doms@);
            assert(rows_ok(dv, n as nat));
            assert forall|x: Seq<Seq<bool>>| is_dominator_solution(x, preds, n as nat, entry as int) implies below(x, dv, n as nat) by {
                assert forall|i: int, k: int| 0 <= i < n && 0 <= k < n && #[trigger] x[i][k] implies dv[i][k] by {
                    if i == entry {
                        assert(x[entry as int][k] == (k == entry));
                    }
                }
            }
        }
        let mut changed = true;
        while changed
            invariant
                n == self.spec_blocks().len(),
                self.wf(),
                self.spec_blocks() == old(self).spec_blocks(),
                self.spec_entry() == old(self).spec_entry(),
                self.spec_exit() == old(self).spec_exit(),
                preds == self.spec_preds(),
                entry == self.spec_entry(),
                rows_ok(rows_view(doms@), n as nat),
                entry_row(rows_view(doms@), n as nat, entry as int),
                shrinks(rows_view(doms@), preds, n as nat, entry as int),
                forall|x: Seq<Seq<bool>>|
                    is_dominator_solution(x, preds, n as nat, entry as int) ==> below(x, rows_view(doms@), n as nat),
                !changed ==> is_dominator_solution(rows_view(doms@), preds, n as nat, entry as int),
            decreases total_true(rows_view(doms@)) + (if changed { 1nat } else { 0nat }),
        {
            changed = false;
            let ghost start = rows_view(doms@);
            let mut id: usize = 0;
            while id < n
                invariant
                    n == self.spec_blocks().len(),
                    self.wf(),
                    self.spec_blocks() == old(self).spec_blocks(),
                    self.spec_entry() == old(self).spec_entry(),
                    self.spec_exit() == old(self).spec_exit(),
                    preds == self.spec_preds(),
                    entry == self.spec_entry(),
                    id <= n,
                    rows_ok(rows_view(doms@), n as nat),
                    entry_row(rows_view(doms@), n as nat, entry as int),
                    shrinks(rows_view(doms@), preds, n as nat, entry as int),
                    forall|x: Seq<Seq<bool>>|
                        is_dominator_solution(x, preds, n as nat, entry as int) ==> below(x, rows_view(doms@), n as nat),
                    total_true(rows_view(doms@)) <= total_true(start),
                    changed ==> total_true(rows_view(doms@)) < total_true(start),
                    !changed ==> rows_view(doms@) == start,
                    !changed ==> forall|bb: int, k: int|
                        0 <= bb < id && bb != entry && 0 <= k < n ==> (#[trigger] start[bb][k] == transfer(start, preds[bb], n as nat, bb, k)),
                decreases n - id,
            {
                if id != entry {
                    let ghost d = rows_view(doms@);
                    let new_row = self.transfer_row(&doms, id);
                    let same = bools_eq(&new_row, &doms[id]);
                    if !same {
                        proof {
                            assert(new_row@ != d[id as int]);
                        }
                        doms.set(id, new_row);
                        proof {
                            let d2 = rows_view(doms@);
                            assert(d2 =~= d.update(id as int, new_row@));
                            assert forall|k: int| 0 <= k < n && new_row@[k] implies d[id as int][k] by {
                                assert(transfer(d, preds[id as int], n as nat, id as int, k));
                            }
                            lemma_count_le(new_row@, d[id as int]);
                            lemma_total_update(d, id as int, new_row@);
                            assert(below(d2, d, n as nat));
                            assert forall|bb: int, k: int|
                                0 <= bb < n && bb != entry && 0 <= k < n && transfer(d2, preds[bb], n as nat, bb, k) implies #[trigger] d2[bb][k] by {
                                lemma_transfer_mono(d2, d, preds[bb], n as nat, bb, k);
                                if bb == id {
                                    assert(d2[bb][k] == new_row@[k]);
                                }
                            }
                            assert forall|x: Seq<Seq<bool>>| is_dominator_solution(x, preds, n as nat, entry as int) implies below(x, d2, n as nat) by {
                                assert(below(x, d, n as nat));
                                assert forall|bb: int, k: int| 0 <= bb < n && 0 <= k < n && #[trigger] x[bb][k] implies d2[bb][k] by {
                                    if bb == id {
                                        assert(x[bb][k] == transfer(x, preds[bb], n as nat, bb, k));
                                        lemma_transfer_mono(x, d, preds[bb], n as nat, bb, k);
                                    }
                                }
                            }
                            assert(entry_row(d2, n as nat, entry as int)) by {
                                assert forall|k: int| 0 <= k < n implies #[trigger] d2[entry as int][k] == (k == entry) by {
                                    assert(d2[entry as int] == d[entry as int]);
                                }
                            }
                        }
                        changed = true;
                    } else {
                        proof {
                            if !changed {
                                assert forall|bb: int, k: int|
                                    0 <= bb < id + 1 && bb != entry && 0 <= k < n implies (#[trigger] start[bb][k] == transfer(start, preds[bb], n as nat, bb, k)) by {
                                    if bb == id {
                                        assert(new_row@ == d[id as int]);
                                        assert(new_row@[k] == transfer(d, preds[id as int], n as nat, id as int, k));
                                    }
                                }
                            }
                        }
                    }
                }
                id = id + 1;
            }
        }
        self.dominators = doms;
    }
}

/// Whether the list holds the number.
fn contains_id(v: &Vec<usize>, x: usize) -> (r: bool)
    ensures
        r == v@.contains(x),
{
    let mut i: usize = 0;
    while i < v.len()
        invariant
            i <= v@.len(),
            forall|k: int| 0 <= k < i ==> v@[k] != x,
        decreases v.len() - i,
    {
        if v[i] == x {
            assert(v@[i as int] == x);
            return true;
        }
        i = i + 1;
    }
    false
}

/// Whether two rows are equal.
fn bools_eq(a: &Vec<bool>, b: &Vec<bool>) -> (r: bool)
    ensures
        r == (a@ == b@),
{
    if a.len() != b.len() {
        return false;
    }
    let mut i: usize = 0;
    while i < a.len()
        invariant
            a@.len() == b@.len(),
            i <= a@.len(),
            forall|k: int| 0 <= k < i ==> a@[k] == b@[k],
        decreases a.len() - i,
    {
        if a[i] != b[i] {
            return false;
        }
        i = i + 1;
    }
    assert(a@ =~= b@);
    true
}


/// In a solution of the dominator equations every block dominates itself,
/// and the entry is dominated by nothing else.
pub proof fn law_blocks_dominate_themselves(d: Seq<Seq<bool>>, preds: Seq<Seq<usize>>, n: nat, entry: int, b: int)
    requires
        is_dominator_solution(d, preds, n, entry),
        0 <= entry < n,
        0 <= b < n,
    ensures
        d[b][b],
        forall|k: int| 0 <= k < n && k != entry ==> !#[trigger] d[entry][k],
{
    if b != entry {
        assert(d[b][b] == transfer(d, preds[b], n, b, b));
    }
    assert forall|k: int| 0 <= k < n && k != entry implies !#[trigger] d[entry][k] by {
        assert(d[entry][k] == (k == entry));
    }
}


/// In the greatest solution of the dominator equations, the one that
/// `compute_dominators` computes, the entry dominates every block: adding the
/// entry to every row gives a solution too, which the greatest one holds.
pub proof fn law_entry_dominates_every_block(d: Seq<Seq<bool>>, preds: Seq<Seq<usize>>, n: nat, entry: int, b: int)
    requires
        is_dominator_solution(d, preds, n, entry),
        forall|x: Seq<Seq<bool>>| is_dominator_solution(x, preds, n, entry) ==> below(x, d, n),
        0 <= entry < n,
        0 <= b < n,
    ensures
        d[b][entry],
{
    let x = Seq::new(n, |i: int| Seq::new(n, |k: int| k == entry || d[i][k]));
    assert(rows_ok(x, n));
    assert forall|k: int| 0 <= k < n implies #[trigger] x[entry][k] == (k == entry) by {
        assert(d[entry][k] == (k == entry));
    }
    assert forall|c: int, k: int|
        0 <= c < n && c != entry && 0 <= k < n implies (#[trigger] x[c][k] == transfer(x, preds[c], n, c, k)) by {
        if k == entry {
            assert forall|j: int| 0 <= j < preds[c].len() && preds[c][j] < n implies #[trigger] x[preds[c][j] as int][k] by {
            }
        } else {
            assert(d[c][k] == transfer(d, preds[c], n, c, k));
            if meet(d, preds[c], n, k) {
                assert forall|j: int| 0 <= j < preds[c].len() && preds[c][j] < n implies #[trigger] x[preds[c][j] as int][k] by {
                    assert(d[preds[c][j] as int][k]);
                }
            }
            if meet(x, preds[c], n, k) {
                assert forall|j: int| 0 <= j < preds[c].len() && preds[c][j] < n implies #[trigger] d[preds[c][j] as int][k] by {
                    assert(x[preds[c][j] as int][k]);
                }
            }
            assert(meet(x, preds[c], n, k) == meet(d, preds[c], n, k));
        }
    }
    assert(is_dominator_solution(x, preds, n, entry));
    assert(below(x, d, n));
    assert(x[b][entry]);
}

} // verus!
