//! Chains of operations through the graph of a catalog, and which chain a
//! plan takes.

use crate::catalog::Operation;
use crate::order::{before, lemma_before_asymmetric, not_after};
use crate::refs::{OpRef, StateRef};
use vstd::prelude::*;

verus! {

/// `path` leads from `start` to `end`: each of its operations is in `ops`,
/// the first one takes `start`, each next one takes what the one before it
/// gives, and the last one gives `end`. The empty chain leads from a state to
/// itself.
pub open spec fn links(ops: Seq<Operation>, start: StateRef, path: Seq<OpRef>, end: StateRef) -> bool {
    &&& forall|i: int| 0 <= i < path.len() ==> (#[trigger] path[i]).0 < ops.len()
    &&& path.len() == 0 ==> start == end
    &&& path.len() > 0 ==> ops[path[0].0 as int].input == start && ops[path.last().0 as int].output
        == end
    &&& forall|i: int|
        0 <= i < path.len() - 1 ==> ops[(#[trigger] path[i]).0 as int].output == ops[path[i
            + 1].0 as int].input
}

/// Some chain leads from `start` to `end`.
pub open spec fn reachable(ops: Seq<Operation>, start: StateRef, end: StateRef) -> bool {
    exists|path: Seq<OpRef>| links(ops, start, path, end)
}

/// `path` leads from `start` to `end`, and no other chain that does comes
/// before it: none is shorter, and none of its length has an operation
/// registered earlier where the two first differ.
pub open spec fn is_best(ops: Seq<Operation>, start: StateRef, path: Seq<OpRef>, end: StateRef) -> bool {
    &&& links(ops, start, path, end)
    &&& forall|other: Seq<OpRef>| #[trigger] links(ops, start, other, end) ==> not_after(path, other)
}

/// The chain that a search from `start` to `end` takes: the best one, where
/// there is a chain at all.
pub open spec fn best_path(ops: Seq<Operation>, start: StateRef, end: StateRef) -> Option<Seq<OpRef>> {
    if exists|path: Seq<OpRef>| is_best(ops, start, path, end) {
        Some(choose|path: Seq<OpRef>| is_best(ops, start, path, end))
    } else {
        None
    }
}

/// The chain through the waypoints `through`, in order, and the state that it
/// ends in: to each waypoint the best chain from where the chain stands to
/// the state that the waypoint takes, then the waypoint itself.
pub open spec fn legs(ops: Seq<Operation>, start: StateRef, through: Seq<OpRef>) -> Option<
    (Seq<OpRef>, StateRef),
>
    decreases through.len(),
{
    if through.len() == 0 {
        Some((Seq::empty(), start))
    } else {
        let via = through.last();
        match legs(ops, start, through.drop_last()) {
            None => None,
            Some((path, cur)) => match best_path(ops, cur, ops[via.0 as int].input) {
                None => None,
                Some(segment) => Some((path + segment.push(via), ops[via.0 as int].output)),
            },
        }
    }
}

/// The chain of a plan from `start` to `end` through the waypoints: the legs
/// through the waypoints, then the best chain to `end`. `None` where a
/// segment has no chain.
pub open spec fn route(
    ops: Seq<Operation>,
    start: StateRef,
    through: Seq<OpRef>,
    end: StateRef,
) -> Option<Seq<OpRef>> {
    match legs(ops, start, through) {
        None => None,
        Some((path, cur)) => match best_path(ops, cur, end) {
            None => None,
            Some(segment) => Some(path + segment),
        },
    }
}

/// A chain with one more operation leads to `end` exactly where the chain
/// leads to the state that the operation takes and the operation gives `end`.
pub proof fn lemma_links_push(
    ops: Seq<Operation>,
    start: StateRef,
    path: Seq<OpRef>,
    op: OpRef,
    end: StateRef,
)
    ensures
        links(ops, start, path.push(op), end) <==> (op.0 < ops.len() && ops[op.0 as int].output
            == end && links(ops, start, path, ops[op.0 as int].input)),
{
    let longer = path.push(op);
    if links(ops, start, longer, end) {
        assert(longer[path.len() as int] == op);
        assert forall|i: int| 0 <= i < path.len() implies (#[trigger] path[i]).0 < ops.len() by {
            assert(longer[i] == path[i]);
        }
        if path.len() > 0 {
            assert(longer[0] == path[0]);
            assert(longer[path.len() - 1] == path.last());
            assert forall|i: int| 0 <= i < path.len() - 1 implies ops[(#[trigger] path[i]).0 as int].output
                == ops[path[i + 1].0 as int].input by {
                assert(longer[i] == path[i]);
                assert(longer[i + 1] == path[i + 1]);
            }
        }
    }
    if op.0 < ops.len() && ops[op.0 as int].output == end && links(
        ops,
        start,
        path,
        ops[op.0 as int].input,
    ) {
        assert forall|i: int| 0 <= i < longer.len() implies (#[trigger] longer[i]).0
            < ops.len() by {
            if i < path.len() {
                assert(longer[i] == path[i]);
            }
        }
        assert forall|i: int| 0 <= i < longer.len() - 1 implies ops[(#[trigger] longer[i]).0 as int].output
            == ops[longer[i + 1].0 as int].input by {
            assert(longer[i] == path[i]);
            if i + 1 < path.len() {
                assert(longer[i + 1] == path[i + 1]);
            }
        }
        if path.len() > 0 {
            assert(longer[0] == path[0]);
        }
    }
}

/// A chain leads to one state only.
pub proof fn lemma_links_end(
    ops: Seq<Operation>,
    start: StateRef,
    path: Seq<OpRef>,
    end: StateRef,
    other: StateRef,
)
    requires
        links(ops, start, path, end),
        links(ops, start, path, other),
    ensures
        end == other,
{
}

/// A chain to a state and a chain from it make a chain.
pub proof fn lemma_links_concat(
    ops: Seq<Operation>,
    start: StateRef,
    first: Seq<OpRef>,
    middle: StateRef,
    second: Seq<OpRef>,
    end: StateRef,
)
    requires
        links(ops, start, first, middle),
        links(ops, middle, second, end),
    ensures
        links(ops, start, first + second, end),
    decreases second.len(),
{
    if second.len() == 0 {
        assert(first + second =~= first);
    } else {
        let op = second.last();
        assert(second =~= second.drop_last().push(op));
        lemma_links_push(ops, middle, second.drop_last(), op, end);
        lemma_links_concat(ops, start, first, middle, second.drop_last(), ops[op.0 as int].input);
        lemma_links_push(ops, start, first + second.drop_last(), op, end);
        assert(first + second =~= (first + second.drop_last()).push(op));
    }
}

/// Of the chains between two states only one is best: where several are
/// shortest, the order of registration decides between them.
pub proof fn lemma_best_unique(
    ops: Seq<Operation>,
    start: StateRef,
    end: StateRef,
    a: Seq<OpRef>,
    b: Seq<OpRef>,
)
    requires
        is_best(ops, start, a, end),
        is_best(ops, start, b, end),
    ensures
        a == b,
{
    if a != b {
        assert(before(a, b));
        assert(before(b, a));
        lemma_before_asymmetric(a, b);
    }
}

/// A best chain is what `best_path` names.
pub proof fn lemma_best_path_is(
    ops: Seq<Operation>,
    start: StateRef,
    end: StateRef,
    path: Seq<OpRef>,
)
    requires
        is_best(ops, start, path, end),
    ensures
        best_path(ops, start, end) == Some(path),
{
    let chosen = choose|p: Seq<OpRef>| is_best(ops, start, p, end);
    lemma_best_unique(ops, start, end, chosen, path);
}

/// Where no chain leads from `start` to `end`, `best_path` names none.
pub proof fn lemma_best_path_none(ops: Seq<Operation>, start: StateRef, end: StateRef)
    requires
        !reachable(ops, start, end),
    ensures
        best_path(ops, start, end) is None,
{
    if exists|path: Seq<OpRef>| is_best(ops, start, path, end) {
        let path = choose|path: Seq<OpRef>| is_best(ops, start, path, end);
        assert(links(ops, start, path, end));
    }
}

/// What `best_path` names is a best chain.
pub proof fn lemma_best_path_some(ops: Seq<Operation>, start: StateRef, end: StateRef)
    requires
        best_path(ops, start, end) is Some,
    ensures
        is_best(ops, start, best_path(ops, start, end).unwrap(), end),
{
}

/// Whether every waypoint is an operation of the catalog.
pub open spec fn waypoints_known(ops: Seq<Operation>, through: Seq<OpRef>) -> bool {
    forall|i: int| 0 <= i < through.len() ==> (#[trigger] through[i]).0 < ops.len()
}

/// The legs through the waypoints make a chain from the start to where they
/// end.
pub proof fn lemma_legs_link(ops: Seq<Operation>, start: StateRef, through: Seq<OpRef>)
    requires
        waypoints_known(ops, through),
        legs(ops, start, through) is Some,
    ensures
        links(ops, start, legs(ops, start, through).unwrap().0, legs(ops, start, through).unwrap().1),
    decreases through.len(),
{
    if through.len() > 0 {
        let via = through.last();
        let earlier = through.drop_last();
        assert(waypoints_known(ops, earlier)) by {
            assert forall|i: int| 0 <= i < earlier.len() implies (#[trigger] earlier[i]).0
                < ops.len() by {
                assert(earlier[i] == through[i]);
            }
        }
        lemma_legs_link(ops, start, earlier);
        let (path, cur) = legs(ops, start, earlier).unwrap();
        let segment = best_path(ops, cur, ops[via.0 as int].input).unwrap();
        lemma_best_path_some(ops, cur, ops[via.0 as int].input);
        lemma_links_push(ops, cur, segment, via, ops[via.0 as int].output);
        lemma_links_concat(ops, start, path, cur, segment.push(via), ops[via.0 as int].output);
    }
}

/// Consecutive steps of a plan are connected: the chain that `route` names
/// leads from the start state to the end state through the graph of the
/// catalog.
pub proof fn lemma_route_links(
    ops: Seq<Operation>,
    start: StateRef,
    through: Seq<OpRef>,
    end: StateRef,
)
    requires
        waypoints_known(ops, through),
        route(ops, start, through, end) is Some,
    ensures
        links(ops, start, route(ops, start, through, end).unwrap(), end),
{
    lemma_legs_link(ops, start, through);
    let (path, cur) = legs(ops, start, through).unwrap();
    lemma_best_path_some(ops, cur, end);
    lemma_links_concat(ops, start, path, cur, best_path(ops, cur, end).unwrap(), end);
}

/// Without waypoints the chain of a plan is a shortest one: no chain from the
/// start state to the end state has fewer operations. So two plans between the
/// same states have chains of one length.
pub proof fn lemma_route_shortest(
    ops: Seq<Operation>,
    start: StateRef,
    end: StateRef,
    other: Seq<OpRef>,
)
    requires
        route(ops, start, Seq::empty(), end) is Some,
        links(ops, start, other, end),
    ensures
        route(ops, start, Seq::empty(), end).unwrap().len() <= other.len(),
        is_best(ops, start, route(ops, start, Seq::empty(), end).unwrap(), end),
{
    lemma_best_path_some(ops, start, end);
    let path = best_path(ops, start, end).unwrap();
    assert(Seq::<OpRef>::empty() + path =~= path);
    assert(not_after(path, other));
}

/// A chain through the first `count` waypoints that stops short of the next
/// waypoint, because no chain leads to the state that the waypoint takes,
/// leaves the plan without a chain.
pub proof fn lemma_unreachable_waypoint(
    ops: Seq<Operation>,
    start: StateRef,
    through: Seq<OpRef>,
    end: StateRef,
    count: int,
)
    requires
        0 <= count < through.len(),
        legs(ops, start, through.take(count)) matches Some((_, cur)) && !reachable(
            ops,
            cur,
            ops[through[count].0 as int].input,
        ),
    ensures
        route(ops, start, through, end) is None,
{
    let cur = legs(ops, start, through.take(count)).unwrap().1;
    lemma_best_path_none(ops, cur, ops[through[count].0 as int].input);
    assert(through.take(count + 1).drop_last() =~= through.take(count));
    assert(through.take(count + 1).last() == through[count]);
    assert(legs(ops, start, through.take(count + 1)) is None);
    lemma_legs_stay_none(ops, start, through, count + 1);
}

/// Once the legs through some of the waypoints have no chain, the legs
/// through all of them have none.
pub proof fn lemma_legs_stay_none(
    ops: Seq<Operation>,
    start: StateRef,
    through: Seq<OpRef>,
    count: int,
)
    requires
        0 <= count <= through.len(),
        legs(ops, start, through.take(count)) is None,
    ensures
        legs(ops, start, through) is None,
    decreases through.len() - count,
{
    if count == through.len() {
        assert(through.take(count) =~= through);
    } else {
        assert(through.take(count + 1).drop_last() =~= through.take(count));
        lemma_legs_stay_none(ops, start, through, count + 1);
    }
}

/// The best chain from a state to itself is the empty one.
pub proof fn lemma_best_path_same(ops: Seq<Operation>, state: StateRef)
    ensures
        best_path(ops, state, state) == Some(Seq::<OpRef>::empty()),
{
    let empty = Seq::<OpRef>::empty();
    assert forall|other: Seq<OpRef>| #[trigger] links(ops, state, other, state) implies not_after(
        empty,
        other,
    ) by {
        if other.len() == 0 {
            assert(other =~= empty);
        }
    }
    lemma_best_path_is(ops, state, state, empty);
}

} // verus!
