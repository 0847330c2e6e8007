//! The breadth-first search behind a plan, as far as its proof goes: what
//! holds of the queue while the search runs, and why the chain that it finds
//! is the best one.

use crate::catalog::Operation;
use crate::order::{
    before, lemma_before_asymmetric, lemma_before_push, lemma_before_total,
    lemma_before_transitive, lemma_not_after_chain, not_after,
};
use crate::refs::{OpRef, StateRef};
use crate::route::{is_best, lemma_links_end, lemma_links_push, links, reachable};
use vstd::prelude::*;

verus! {

/// A search under way. The states found so far stand in `queue`, in the
/// order in which they were found, each with the chain that found it and with
/// the place in the queue of the state that it was found from. The search has
/// looked at every operation from the states before `head`, and at the
/// operations before `next` from the state at `head`.
pub struct Search {
    pub queue: Seq<StateRef>,
    pub paths: Seq<Seq<OpRef>>,
    pub parents: Seq<int>,
    pub head: int,
    pub next: int,
}

impl Search {
    /// The chain that the search would try next.
    pub open spec fn frontier(self) -> Seq<OpRef> {
        self.paths[self.head].push(OpRef(self.next as u32))
    }

    /// The search has looked at operation `op` from the state at `at`.
    pub open spec fn done(self, at: int, op: int) -> bool {
        at < self.head || (at == self.head && op < self.next)
    }

    /// The state at `at` is `state`, and its chain is not after `path`.
    pub open spec fn covers_at(self, at: int, state: StateRef, path: Seq<OpRef>) -> bool {
        0 <= at < self.queue.len() && self.queue[at] == state && not_after(self.paths[at], path)
    }

    /// `state` is in the queue with a chain that is not after `path`.
    pub open spec fn covers(self, state: StateRef, path: Seq<OpRef>) -> bool {
        exists|at: int| self.covers_at(at, state, path)
    }

    /// The chain at `at` leads from the start to the state at `at`.
    pub open spec fn linked(self, ops: Seq<Operation>, start: StateRef, at: int) -> bool {
        0 <= at < self.queue.len() ==> links(ops, start, self.paths[at], self.queue[at])
    }

    /// The states at two places differ.
    pub open spec fn distinct(self, a: int, b: int) -> bool {
        0 <= a < b < self.queue.len() ==> self.queue[a] != self.queue[b]
    }

    /// The chain at the earlier of two places comes before the other.
    pub open spec fn ordered(self, a: int, b: int) -> bool {
        0 <= a < b < self.queue.len() ==> before(self.paths[a], self.paths[b])
    }

    /// The chain at `at` is the chain of an earlier state with one operation
    /// more, which the search has looked at from there.
    pub open spec fn derived(self, at: int) -> bool {
        1 <= at < self.queue.len() ==> {
            &&& 0 <= self.parents[at] < at
            &&& self.paths[at].len() > 0
            &&& self.paths[at].drop_last() == self.paths[self.parents[at]]
            &&& self.done(self.parents[at], self.paths[at].last().0 as int)
        }
    }

    /// Where the search has looked at operation `op` from the state at `at`,
    /// what the operation gives is in the queue, with a chain not after the
    /// one through `op`.
    pub open spec fn edge_ok(self, ops: Seq<Operation>, at: int, op: int) -> bool {
        (0 <= at < self.queue.len() && 0 <= op < ops.len() && ops[op].input == self.queue[at]
            && self.done(at, op)) ==> self.covers(ops[op].output, self.paths[at].push(OpRef(op as u32)))
    }

    /// A chain from the start that comes before the frontier leads to a state
    /// in the queue, whose chain is not after it.
    pub open spec fn chain_ok(
        self,
        ops: Seq<Operation>,
        start: StateRef,
        path: Seq<OpRef>,
        end: StateRef,
    ) -> bool {
        (links(ops, start, path, end) && before(path, self.frontier())) ==> self.covers(end, path)
    }

    /// What holds of a search at every moment.
    pub open spec fn inv(self, ops: Seq<Operation>, start: StateRef) -> bool {
        &&& ops.len() <= u32::MAX
        &&& self.queue.len() >= 1
        &&& self.paths.len() == self.queue.len()
        &&& self.parents.len() == self.queue.len()
        &&& self.queue[0] == start
        &&& self.paths[0].len() == 0
        &&& 0 <= self.head < self.queue.len()
        &&& 0 <= self.next <= ops.len()
        &&& forall|at: int| #[trigger] self.linked(ops, start, at)
        &&& forall|a: int, b: int| #[trigger] self.distinct(a, b)
        &&& forall|a: int, b: int| #[trigger] self.ordered(a, b)
        &&& forall|at: int| #[trigger] self.derived(at)
        &&& forall|at: int, op: int| #[trigger] self.edge_ok(ops, at, op)
        &&& forall|path: Seq<OpRef>, end: StateRef| #[trigger] self.chain_ok(ops, start, path, end)
    }

    /// The search at its start: the start state alone in the queue.
    pub open spec fn initial(start: StateRef) -> Search {
        Search {
            queue: seq![start],
            paths: seq![Seq::<OpRef>::empty()],
            parents: seq![0int],
            head: 0,
            next: 0,
        }
    }

    /// The search after it has looked at one operation more without finding
    /// a state.
    pub open spec fn skipped(self) -> Search {
        Search { next: self.next + 1, ..self }
    }

    /// The search after operation `next` has led it to the new state `found`.
    pub open spec fn pushed(self, found: StateRef) -> Search {
        Search {
            queue: self.queue.push(found),
            paths: self.paths.push(self.frontier()),
            parents: self.parents.push(self.head),
            head: self.head,
            next: self.next + 1,
        }
    }

    /// The search as it turns to the next state in the queue.
    pub open spec fn advanced(self) -> Search {
        Search { head: self.head + 1, next: 0, ..self }
    }
}

/// The search holds its invariant at the start.
pub proof fn lemma_initial(ops: Seq<Operation>, start: StateRef)
    requires
        ops.len() <= u32::MAX,
    ensures
        Search::initial(start).inv(ops, start),
{
    let s = Search::initial(start);
    assert forall|path: Seq<OpRef>, end: StateRef| #[trigger]
        s.chain_ok(ops, start, path, end) by {
        if links(ops, start, path, end) && before(path, s.frontier()) {
            if path.len() == 0 {
                assert(path =~= s.paths[0]);
                assert(path =~= s.paths[0]);
        assert(s.covers_at(0, end, path));
            } else {
                let at = choose|at: int| crate::order::earlier_at(path, s.frontier(), at);
                assert(s.frontier()[0] == OpRef(0));
            }
        }
    }
    assert forall|at: int, op: int| #[trigger] s.edge_ok(ops, at, op) by {}
}

/// Every chain in the queue comes before the frontier.
pub proof fn lemma_queue_before_frontier(s: Search, ops: Seq<Operation>, start: StateRef, at: int)
    requires
        s.inv(ops, start),
        0 <= at < s.queue.len(),
    ensures
        before(s.paths[at], s.frontier()),
{
    if at >= 1 {
        assert(s.derived(at));
        let parent = s.parents[at];
        let path = s.paths[at];
        assert(path =~= path.drop_last().push(path.last()));
        lemma_before_push(s.paths[parent], path.last(), s.paths[s.head], OpRef(s.next as u32));
        if parent < s.head {
            assert(s.ordered(parent, s.head));
        }
    }
}

/// A chain that comes before the frontier of the next step but not before
/// the frontier is the frontier itself, and the operation at its end takes the
/// state at the head of the queue.
proof fn lemma_between_frontiers(
    s: Search,
    ops: Seq<Operation>,
    start: StateRef,
    path: Seq<OpRef>,
    end: StateRef,
)
    requires
        s.inv(ops, start),
        s.next < ops.len(),
        links(ops, start, path, end),
        before(path, s.paths[s.head].push(OpRef((s.next + 1) as u32))),
        !before(path, s.frontier()),
    ensures
        path == s.frontier(),
        ops[s.next].input == s.queue[s.head],
        ops[s.next].output == end,
{
    let here = s.paths[s.head];
    assert(path.len() > 0);
    let shorter = path.drop_last();
    let op = path.last();
    assert(path =~= shorter.push(op));
    lemma_before_push(shorter, op, here, OpRef((s.next + 1) as u32));
    lemma_before_push(shorter, op, here, OpRef(s.next as u32));
    assert(shorter == here);
    assert(op.0 == s.next);
    assert(path =~= s.frontier());
    lemma_links_push(ops, start, shorter, op, end);
    assert(s.linked(ops, start, s.head));
    lemma_links_end(ops, start, here, s.queue[s.head], ops[op.0 as int].input);
}

/// The invariant holds on after the search has looked at an operation that
/// does not start at the head of the queue, or that gives a state already in
/// the queue.
pub proof fn lemma_skipped(s: Search, ops: Seq<Operation>, start: StateRef)
    requires
        s.inv(ops, start),
        s.next < ops.len(),
        ops[s.next].input != s.queue[s.head] || s.queue.contains(ops[s.next].output),
    ensures
        s.skipped().inv(ops, start),
{
    let n = s.skipped();
    assert forall|at: int| #[trigger] n.linked(ops, start, at) by {
        assert(s.linked(ops, start, at));
    }
    assert forall|a: int, b: int| #[trigger] n.distinct(a, b) by {
        assert(s.distinct(a, b));
    }
    assert forall|a: int, b: int| #[trigger] n.ordered(a, b) by {
        assert(s.ordered(a, b));
    }
    assert forall|at: int| #[trigger] n.derived(at) by {
        assert(s.derived(at));
    }
    assert forall|at: int, op: int| #[trigger] n.edge_ok(ops, at, op) by {
        if 0 <= at < n.queue.len() && 0 <= op < ops.len() && ops[op].input == n.queue[at]
            && n.done(at, op) {
            if s.done(at, op) {
                assert(s.edge_ok(ops, at, op));
                let through = s.paths[at].push(OpRef(op as u32));
                let gives = ops[op].output;
                let to = choose|to: int| s.covers_at(to, gives, through);
                assert(n.covers_at(to, gives, through));
            } else {
                assert(at == s.head && op == s.next);
                let gives = ops[s.next].output;
                let to = choose|to: int| 0 <= to < s.queue.len() && s.queue[to] == gives;
                lemma_queue_before_frontier(s, ops, start, to);
                assert(n.covers_at(to, gives, s.frontier()));
            }
        }
    }
    assert forall|path: Seq<OpRef>, end: StateRef| #[trigger]
        n.chain_ok(ops, start, path, end) by {
        if links(ops, start, path, end) && before(path, n.frontier()) {
            if before(path, s.frontier()) {
                assert(s.chain_ok(ops, start, path, end));
                let to = choose|to: int| s.covers_at(to, end, path);
                assert(n.covers_at(to, end, path));
            } else {
                lemma_between_frontiers(s, ops, start, path, end);
                assert(n.edge_ok(ops, s.head, s.next));
            }
        }
    }
}

/// The invariant holds on after an operation from the head of the queue has
/// led the search to a state that was not in the queue.
pub proof fn lemma_pushed(s: Search, ops: Seq<Operation>, start: StateRef)
    requires
        s.inv(ops, start),
        s.next < ops.len(),
        ops[s.next].input == s.queue[s.head],
        !s.queue.contains(ops[s.next].output),
    ensures
        s.pushed(ops[s.next].output).inv(ops, start),
{
    let found = ops[s.next].output;
    let n = s.pushed(found);
    let last = s.queue.len() as int;
    assert(s.linked(ops, start, s.head));
    lemma_links_push(ops, start, s.paths[s.head], OpRef(s.next as u32), found);
    assert forall|at: int| #[trigger] n.linked(ops, start, at) by {
        assert(s.linked(ops, start, at));
    }
    assert forall|a: int, b: int| #[trigger] n.distinct(a, b) by {
        assert(s.distinct(a, b));
        if 0 <= a < b && b == last {
            assert(s.queue[a] != found);
        }
    }
    assert forall|a: int, b: int| #[trigger] n.ordered(a, b) by {
        assert(s.ordered(a, b));
        if 0 <= a < b && b == last {
            lemma_queue_before_frontier(s, ops, start, a);
        }
    }
    assert forall|at: int| #[trigger] n.derived(at) by {
        assert(s.derived(at));
        if at == last {
            assert(n.paths[at].drop_last() =~= s.paths[s.head]);
        }
    }
    assert forall|at: int, op: int| #[trigger] n.edge_ok(ops, at, op) by {
        if 0 <= at < n.queue.len() && 0 <= op < ops.len() && ops[op].input == n.queue[at]
            && n.done(at, op) {
            if s.done(at, op) {
                assert(s.edge_ok(ops, at, op));
                let through = s.paths[at].push(OpRef(op as u32));
                let gives = ops[op].output;
                let to = choose|to: int| s.covers_at(to, gives, through);
                assert(n.covers_at(to, gives, through));
            } else {
                assert(at == s.head && op == s.next);
                assert(n.covers_at(last, found, s.frontier()));
            }
        }
    }
    assert forall|path: Seq<OpRef>, end: StateRef| #[trigger]
        n.chain_ok(ops, start, path, end) by {
        if links(ops, start, path, end) && before(path, n.frontier()) {
            if before(path, s.frontier()) {
                assert(s.chain_ok(ops, start, path, end));
                let to = choose|to: int| s.covers_at(to, end, path);
                assert(n.covers_at(to, end, path));
            } else {
                lemma_between_frontiers(s, ops, start, path, end);
                assert(n.edge_ok(ops, s.head, s.next));
            }
        }
    }
}

/// With a chain to the state that operation `op` takes covered by the place
/// `at`, from which the search has looked at `op`, the chain through `op` is
/// covered too.
proof fn lemma_cover_extends(
    s: Search,
    ops: Seq<Operation>,
    start: StateRef,
    shorter: Seq<OpRef>,
    op: OpRef,
    at: int,
)
    requires
        s.inv(ops, start),
        op.0 < ops.len(),
        s.covers_at(at, ops[op.0 as int].input, shorter),
        s.done(at, op.0 as int),
    ensures
        s.covers(ops[op.0 as int].output, shorter.push(op)),
{
    assert(s.edge_ok(ops, at, op.0 as int));
    assert(OpRef(op.0 as int as u32) == op);
    let through = s.paths[at].push(op);
    let gives = ops[op.0 as int].output;
    let to = choose|to: int| s.covers_at(to, gives, through);
    lemma_before_push(s.paths[at], op, shorter, op);
    assert(not_after(through, shorter.push(op)));
    lemma_not_after_chain(s.paths[to], through, shorter.push(op));
    assert(s.covers_at(to, ops[op.0 as int].output, shorter.push(op)));
}

/// The invariant holds on as the search turns to the next state in the
/// queue, after it has looked at every operation from the one before.
pub proof fn lemma_advanced(s: Search, ops: Seq<Operation>, start: StateRef)
    requires
        s.inv(ops, start),
        s.next == ops.len(),
        s.head + 1 < s.queue.len(),
    ensures
        s.advanced().inv(ops, start),
{
    let n = s.advanced();
    assert forall|at: int| #[trigger] n.linked(ops, start, at) by {
        assert(s.linked(ops, start, at));
    }
    assert forall|a: int, b: int| #[trigger] n.distinct(a, b) by {
        assert(s.distinct(a, b));
    }
    assert forall|a: int, b: int| #[trigger] n.ordered(a, b) by {
        assert(s.ordered(a, b));
    }
    assert forall|at: int| #[trigger] n.derived(at) by {
        assert(s.derived(at));
    }
    assert forall|at: int, op: int| #[trigger] n.edge_ok(ops, at, op) by {
        if 0 <= at < n.queue.len() && 0 <= op < ops.len() && ops[op].input == n.queue[at]
            && n.done(at, op) {
            assert(s.done(at, op));
            assert(s.edge_ok(ops, at, op));
            let through = s.paths[at].push(OpRef(op as u32));
            let gives = ops[op].output;
            let to = choose|to: int| s.covers_at(to, gives, through);
            assert(n.covers_at(to, gives, through));
        }
    }
    assert forall|path: Seq<OpRef>, end: StateRef| #[trigger]
        n.chain_ok(ops, start, path, end) by {
        if links(ops, start, path, end) && before(path, n.frontier()) {
            if path.len() == 0 {
                assert(path =~= n.paths[0]);
                assert(n.covers_at(0, end, path));
            } else {
                let shorter = path.drop_last();
                let op = path.last();
                assert(path =~= shorter.push(op));
                lemma_before_push(shorter, op, s.paths[s.head + 1], OpRef(0));
                assert(before(shorter, s.paths[s.head + 1]));
                lemma_links_push(ops, start, shorter, op, end);
                lemma_queue_before_frontier(s, ops, start, s.head + 1);
                lemma_before_transitive(shorter, s.paths[s.head + 1], s.frontier());
                assert(s.chain_ok(ops, start, shorter, ops[op.0 as int].input));
                let takes = ops[op.0 as int].input;
                let at = choose|at: int| s.covers_at(at, takes, shorter);
                lemma_not_after_chain(s.paths[at], shorter, s.paths[s.head + 1]);
                if at > s.head + 1 {
                    assert(s.ordered(s.head + 1, at));
                    lemma_before_asymmetric(s.paths[s.head + 1], s.paths[at]);
                }
                if at == s.head + 1 {
                    lemma_before_asymmetric(s.paths[at], s.paths[at]);
                }
                assert(at <= s.head);
                lemma_cover_extends(s, ops, start, shorter, op, at);
                let to = choose|to: int| s.covers_at(to, end, path);
                assert(n.covers_at(to, end, path));
            }
        }
    }
}

/// When the search takes the target from the queue, the chain that found it
/// is the best chain to it.
pub proof fn lemma_found(s: Search, ops: Seq<Operation>, start: StateRef, target: StateRef)
    requires
        s.inv(ops, start),
        s.next == 0,
        s.queue[s.head] == target,
    ensures
        is_best(ops, start, s.paths[s.head], target),
{
    let here = s.paths[s.head];
    assert(s.linked(ops, start, s.head));
    assert forall|other: Seq<OpRef>| #[trigger]
        links(ops, start, other, target) implies not_after(here, other) by {
        if before(other, s.frontier()) {
            assert(s.chain_ok(ops, start, other, target));
            let at = choose|at: int| s.covers_at(at, target, other);
            assert(s.distinct(at, s.head));
            assert(s.distinct(s.head, at));
        } else {
            lemma_before_total(other, s.frontier());
            assert(before(here, s.frontier()));
            if other != s.frontier() {
                lemma_before_transitive(here, s.frontier(), other);
            }
        }
    }
}

/// Once the search has looked at every operation from every state in the
/// queue, every chain from the start leads to a state in the queue.
pub proof fn lemma_all_covered(
    s: Search,
    ops: Seq<Operation>,
    start: StateRef,
    path: Seq<OpRef>,
    end: StateRef,
)
    requires
        s.inv(ops, start),
        s.next == ops.len(),
        s.head + 1 == s.queue.len(),
        links(ops, start, path, end),
    ensures
        s.covers(end, path),
    decreases path.len(),
{
    if path.len() == 0 {
        assert(path =~= s.paths[0]);
        assert(s.covers_at(0, end, path));
    } else {
        let shorter = path.drop_last();
        let op = path.last();
        assert(path =~= shorter.push(op));
        lemma_links_push(ops, start, shorter, op, end);
        lemma_all_covered(s, ops, start, shorter, ops[op.0 as int].input);
        let takes = ops[op.0 as int].input;
        let at = choose|at: int| s.covers_at(at, takes, shorter);
        lemma_cover_extends(s, ops, start, shorter, op, at);
    }
}

/// A search that ends without the target in its queue shows that no chain
/// leads to the target.
pub proof fn lemma_exhausted(s: Search, ops: Seq<Operation>, start: StateRef, target: StateRef)
    requires
        s.inv(ops, start),
        s.next == ops.len(),
        s.head + 1 == s.queue.len(),
        !s.queue.contains(target),
    ensures
        !reachable(ops, start, target),
{
    if reachable(ops, start, target) {
        let path = choose|path: Seq<OpRef>| links(ops, start, path, target);
        lemma_all_covered(s, ops, start, path, target);
        let at = choose|at: int| s.covers_at(at, target, path);
        assert(s.queue[at] == target);
    }
}

/// The chain of a state in the queue, but of the first, is the chain of the
/// state that it was found from with one operation more, which takes that
/// state.
pub proof fn lemma_parent(s: Search, ops: Seq<Operation>, start: StateRef, at: int)
    requires
        s.inv(ops, start),
        1 <= at < s.queue.len(),
    ensures
        0 <= s.parents[at] < at,
        s.paths[at].len() > 0,
        s.paths[at] == s.paths[s.parents[at]].push(s.paths[at].last()),
        s.paths[at].last().0 < ops.len(),
        ops[s.paths[at].last().0 as int].input == s.queue[s.parents[at]],
{
    assert(s.derived(at));
    assert(s.linked(ops, start, at));
    assert(s.linked(ops, start, s.parents[at]));
    let path = s.paths[at];
    let op = path.last();
    assert(path =~= path.drop_last().push(op));
    lemma_links_push(ops, start, path.drop_last(), op, s.queue[at]);
    lemma_links_end(ops, start, path.drop_last(), s.queue[s.parents[at]], ops[op.0 as int].input);
}

} // verus!
