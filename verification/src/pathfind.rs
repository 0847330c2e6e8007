//! The search for a chain of operations: breadth first from the start
//! state, segment by segment through the waypoints.

use crate::driver::{op_fits, Driver};
use crate::refs::{OpRef, StateRef};
use crate::route::{
    best_path, legs, lemma_best_path_is, lemma_best_path_none, route, waypoints_known,
};
use crate::search::{
    lemma_advanced, lemma_exhausted, lemma_found, lemma_initial, lemma_parent, lemma_pushed,
    lemma_skipped, Search,
};
use crate::tables::{
    crumb_entries, entry_or, lemma_entry_set, mark_entries, padded, CrumbMap, MarkMap,
};
use vstd::prelude::*;
use vstd::set_lib::{lemma_int_range, lemma_len_subset, set_int_range};

verus! {

/// Where a search ends: at a state, or with an operation as the final one of
/// the chain.
#[derive(Copy, Clone, PartialEq, Eq, Structural, Debug)]
pub enum Destination {
    State(StateRef),
    Op(OpRef),
}

/// The chains of an optional list of operations.
pub open spec fn chain_of(path: Option<Vec<OpRef>>) -> Option<Seq<OpRef>> {
    match path {
        Some(p) => Some(p@),
        None => None,
    }
}

/// The mark of a state says whether the state is in the queue.
spec fn marks_match(marks: Seq<bool>, queue: Seq<StateRef>) -> bool {
    forall|state: StateRef| entry_or(marks, state.0 as int, false) == #[trigger] queue.contains(state)
}

/// Each state in the queue but the first has the last operation of its chain
/// for a crumb, and no other state has a crumb.
spec fn crumbs_match(crumbs: Seq<Option<OpRef>>, s: Search) -> bool {
    &&& forall|at: int|
        1 <= at < s.queue.len() ==> entry_or(crumbs, (#[trigger] s.queue[at]).0 as int, None)
            == Some(s.paths[at].last())
    &&& forall|state: StateRef|
        !(#[trigger] s.queue.contains(state)) ==> entry_or(crumbs, state.0 as int, None) is None
    &&& entry_or(crumbs, s.queue[0].0 as int, None) is None
}

/// With the mark of a new state set, the marks match the queue that the
/// state was added to.
proof fn lemma_marks_pushed(marks: Seq<bool>, queue: Seq<StateRef>, found: StateRef)
    requires
        marks_match(marks, queue),
    ensures
        marks_match(
            padded(marks, (found.0 + 1) as nat, false).update(found.0 as int, true),
            queue.push(found),
        ),
{
    let longer = queue.push(found);
    let set = padded(marks, (found.0 + 1) as nat, false).update(found.0 as int, true);
    assert forall|state: StateRef| entry_or(set, state.0 as int, false) == #[trigger] longer.contains(
        state,
    ) by {
        lemma_entry_set(marks, found.0 as int, false, true, state.0 as int);
        assert(entry_or(marks, state.0 as int, false) == queue.contains(state));
        if state == found {
            assert(longer[queue.len() as int] == state);
        } else if queue.contains(state) {
            let i = choose|i: int| 0 <= i < queue.len() && queue[i] == state;
            assert(longer[i] == state);
        } else if longer.contains(state) {
            let i = choose|i: int| 0 <= i < longer.len() && longer[i] == state;
            assert(queue[i] == state);
        }
    }
}

/// With the crumb of a new state set to the operation that found it, the
/// crumbs match the search that the state was added to.
proof fn lemma_crumbs_pushed(crumbs: Seq<Option<OpRef>>, s: Search, found: StateRef)
    requires
        crumbs_match(crumbs, s),
        !s.queue.contains(found),
        s.queue.len() >= 1,
        s.paths.len() == s.queue.len(),
    ensures
        crumbs_match(
            padded(crumbs, (found.0 + 1) as nat, None).update(
                found.0 as int,
                Some(OpRef(s.next as u32)),
            ),
            s.pushed(found),
        ),
{
    let n = s.pushed(found);
    let crumb = Some(OpRef(s.next as u32));
    let set = padded(crumbs, (found.0 + 1) as nat, None).update(found.0 as int, crumb);
    let last = s.queue.len() as int;
    assert forall|at: int| 1 <= at < n.queue.len() implies entry_or(
        set,
        (#[trigger] n.queue[at]).0 as int,
        None,
    ) == Some(n.paths[at].last()) by {
        lemma_entry_set(crumbs, found.0 as int, None, crumb, n.queue[at].0 as int);
        if at < last {
            assert(s.queue[at] == n.queue[at]);
            assert(s.queue.contains(n.queue[at]));
        }
    }
    assert forall|state: StateRef| !(#[trigger] n.queue.contains(state)) implies entry_or(
        set,
        state.0 as int,
        None,
    ) is None by {
        lemma_entry_set(crumbs, found.0 as int, None, crumb, state.0 as int);
        assert(n.queue[last] == found);
        if s.queue.contains(state) {
            let i = choose|i: int| 0 <= i < s.queue.len() && s.queue[i] == state;
            assert(n.queue[i] == state);
        }
    }
    lemma_entry_set(crumbs, found.0 as int, None, crumb, n.queue[0].0 as int);
    assert(s.queue[0] == n.queue[0]);
    assert(s.queue.contains(n.queue[0]));
}

/// One step back along a chain: the chain so far behind one operation
/// more, and that operation behind what was collected.
proof fn lemma_walk_step(shorter: Seq<OpRef>, op: OpRef, tail: Seq<OpRef>, lead: Seq<OpRef>)
    ensures
        shorter + (seq![op] + tail) == shorter.push(op) + tail,
        (lead + tail.reverse()).push(op) == lead + (seq![op] + tail).reverse(),
{
    assert(shorter + (seq![op] + tail) =~= shorter.push(op) + tail);
    assert((lead + tail.reverse()).push(op) =~= lead + (seq![op] + tail).reverse());
}

/// Two lists one after the other, read backward, are the second backward
/// and then the first backward.
proof fn lemma_reverse_join(first: Seq<OpRef>, second: Seq<OpRef>)
    ensures
        (first + second).reverse() == second.reverse() + first.reverse(),
{
    assert((first + second).reverse() =~= second.reverse() + first.reverse());
}

/// As many states as no two are the same and each is below `bound` are at
/// most `bound`.
proof fn lemma_queue_bounded(queue: Seq<StateRef>, bound: nat)
    requires
        forall|i: int| 0 <= i < queue.len() ==> (#[trigger] queue[i]).0 < bound,
        forall|i: int, j: int| 0 <= i < j < queue.len() ==> queue[i] != queue[j],
    ensures
        queue.len() <= bound,
{
    let numbers = queue.map_values(|state: StateRef| state.0 as int);
    assert(numbers.no_duplicates()) by {
        assert forall|i: int, j: int|
            0 <= i < numbers.len() && 0 <= j < numbers.len() && i != j implies numbers[i]
            != numbers[j] by {
            if i < j {
                assert(queue[i] != queue[j]);
            } else {
                assert(queue[j] != queue[i]);
            }
        }
    }
    numbers.unique_seq_to_set();
    lemma_int_range(0, bound as int);
    assert(numbers.to_set().subset_of(set_int_range(0, bound as int))) by {
        assert forall|n: int| numbers.to_set().contains(n) implies set_int_range(
            0,
            bound as int,
        ).contains(n) by {
            let i = choose|i: int| 0 <= i < numbers.len() && numbers[i] == n;
            assert(queue[i].0 < bound);
        }
    }
    lemma_len_subset(numbers.to_set(), set_int_range(0, bound as int));
}

/// The operations of `path` in the opposite order.
fn reversed(path: &Vec<OpRef>) -> (r: Vec<OpRef>)
    ensures
        r@ == path@.reverse(),
{
    let mut r: Vec<OpRef> = Vec::new();
    let mut i: usize = path.len();
    while i > 0
        invariant
            i <= path.len(),
            r@.len() == path.len() - i,
            forall|j: int| 0 <= j < r@.len() ==> r@[j] == path@[path.len() - 1 - j],
        decreases i,
    {
        i = i - 1;
        r.push(path[i]);
    }
    assert(r@ =~= path@.reverse());
    r
}

impl Driver {
    /// The chain that a search from `start` to `end` takes: the best chain to
    /// a state, or the best chain to the state that an operation takes and
    /// then that operation.
    pub open spec fn segment(&self, start: StateRef, end: Destination) -> Option<Seq<OpRef>> {
        match end {
            Destination::State(state) => best_path(self.operations(), start, state),
            Destination::Op(op) => match best_path(
                self.operations(),
                start,
                self.operations()[op.0 as int].input,
            ) {
                Some(path) => Some(path.push(op)),
                None => None,
            },
        }
    }

    /// Find a chain of Operations from the `start` state to the `end`, which may be a state or the
    /// final operation in the chain.
    pub fn find_path_segment(&self, start: StateRef, end: Destination) -> (r: Option<Vec<OpRef>>)
        requires
            self.knows_state(start),
            match end {
                Destination::State(state) => self.knows_state(state),
                Destination::Op(op) => self.knows_op(op),
            },
        ensures
            chain_of(r) == self.segment(start, end),
    {
        proof {
            use_type_invariant(self);
        }
        let ghost ops = self.operations();
        let target = match end {
            Destination::State(state) => state,
            Destination::Op(op) => self.op(op).input,
        };
        let n_ops: usize = self.op_count();
        let n_states: usize = self.state_count();

        // Our start state is the input.
        let mut visited = MarkMap::new();
        visited.set(start, true);

        // Build the incoming edges for each vertex.
        let mut breadcrumbs = CrumbMap::new();

        // Breadth-first search.
        let mut state_queue: Vec<StateRef> = Vec::new();
        state_queue.push(start);
        let mut head: usize = 0;
        let ghost mut s = Search::initial(start);
        proof {
            lemma_initial(ops, start);
            assert(s.queue =~= state_queue@);
            assert(s.queue =~= Seq::<StateRef>::empty().push(start));
            lemma_marks_pushed(Seq::<bool>::empty(), Seq::<StateRef>::empty(), start);
        }
        let mut found = false;
        let mut more = true;
        while more
            invariant
                ops == self.operations(),
                n_ops == ops.len(),
                n_states == self.all_states().len(),
                self.wf(),
                self.knows_state(target),
                s.inv(ops, start),
                s.queue == state_queue@,
                s.head == head,
                marks_match(mark_entries(visited), s.queue),
                crumbs_match(crumb_entries(breadcrumbs), s),
                forall|i: int| 0 <= i < s.queue.len() ==> self.knows_state(#[trigger] s.queue[i]),
                forall|i: int| 0 <= i < head ==> s.queue[i] != target,
                more ==> s.next == 0 && !found,
                !more && found ==> s.next == 0 && s.queue[s.head] == target,
                !more && !found ==> s.next == n_ops && head + 1 == s.queue.len() && s.queue[s.head]
                    != target,
            decreases n_states - head, (if more { 1int } else { 0int }),
        {
            proof {
                assert forall|i: int, j: int| 0 <= i < j < s.queue.len() implies s.queue[i]
                    != s.queue[j] by {
                    assert(s.distinct(i, j));
                }
                lemma_queue_bounded(s.queue, n_states as nat);
            }
            let cur_state = state_queue[head];

            // Finish when we reach the goal vertex.
            if cur_state == target {
                found = true;
                more = false;
            } else {
                // Traverse any edge from the current state to an unvisited state.
                let mut k: usize = 0;
                while k < n_ops
                    invariant
                        ops == self.operations(),
                        n_ops == ops.len(),
                        n_states == self.all_states().len(),
                        self.wf(),
                        self.knows_state(target),
                        s.inv(ops, start),
                        s.queue == state_queue@,
                        s.head == head,
                        s.next == k,
                        k <= n_ops,
                        cur_state == s.queue[s.head],
                        cur_state != target,
                        marks_match(mark_entries(visited), s.queue),
                        crumbs_match(crumb_entries(breadcrumbs), s),
                        forall|i: int|
                            0 <= i < s.queue.len() ==> self.knows_state(#[trigger] s.queue[i]),
                        forall|i: int| 0 <= i < head ==> s.queue[i] != target,
                    decreases n_ops - k,
                {
                    let op_ref = OpRef(k as u32);
                    let op = self.op(op_ref);
                    assert(op_fits(ops[k as int], n_states as nat, self.all_setups().len()));
                    let fresh = op.input == cur_state && !visited.get(op.output);
                    if fresh {
                        let ghost before = s;
                        let ghost old_marks = mark_entries(visited);
                        let ghost old_crumbs = crumb_entries(breadcrumbs);
                        let found_state = op.output;
                        assert(!before.queue.contains(found_state));
                        state_queue.push(found_state);
                        visited.set(found_state, true);
                        breadcrumbs.set(found_state, Some(op_ref));
                        proof {
                            lemma_pushed(before, ops, start);
                            s = before.pushed(found_state);
                            let last = before.queue.len() as int;
                            assert(s.queue =~= state_queue@);
                            assert(s.queue[last] == found_state);
                            lemma_marks_pushed(old_marks, before.queue, found_state);
                            lemma_crumbs_pushed(old_crumbs, before, found_state);
                            assert forall|i: int| 0 <= i < s.queue.len() implies self.knows_state(
                                #[trigger] s.queue[i],
                            ) by {
                                if i < last {
                                    assert(before.queue[i] == s.queue[i]);
                                }
                            }
                            assert forall|i: int| 0 <= i < head implies s.queue[i] != target by {
                                assert(before.queue[i] == s.queue[i]);
                            }
                        }
                    } else {
                        proof {
                            if op.input == cur_state {
                                assert(s.queue.contains(op.output));
                            }
                            lemma_skipped(s, ops, start);
                            s = s.skipped();
                        }
                    }
                    k = k + 1;
                }
                if head + 1 < state_queue.len() {
                    proof {
                        lemma_advanced(s, ops, start);
                        s = s.advanced();
                    }
                    head = head + 1;
                } else {
                    more = false;
                }
            }
        }
        proof {
            if found {
                lemma_found(s, ops, start, target);
                lemma_best_path_is(ops, start, target, s.paths[s.head]);
            } else {
                assert(!s.queue.contains(target));
                lemma_exhausted(s, ops, start, target);
                lemma_best_path_none(ops, start, target);
            }
        }

        // Traverse the breadcrumbs backward to build up the path back from output to input.
        let mut op_path: Vec<OpRef> = Vec::new();
        match end {
            Destination::State(_) => {},
            Destination::Op(op) => {
                op_path.push(op);
            },
        }
        let ghost lead = op_path@;
        if !self.trace_back(&breadcrumbs, start, target, Ghost(s), &mut op_path) {
            return None;
        }
        proof {
            lemma_reverse_join(lead, s.paths[s.head].reverse());
            assert(s.paths[s.head].reverse().reverse() =~= s.paths[s.head]);
            match end {
                Destination::State(_) => {
                    assert(lead.reverse() =~= Seq::<OpRef>::empty());
                    assert(s.paths[s.head] + lead.reverse() =~= s.paths[s.head]);
                },
                Destination::Op(op) => {
                    assert(lead =~= seq![op]);
                    assert(lead.reverse() =~= seq![op]);
                    assert(s.paths[s.head] + lead.reverse() =~= s.paths[s.head].push(op));
                },
            }
        }
        Some(reversed(&op_path))
    }

    /// Follows the breadcrumbs from `target` back to `start` and puts the
    /// operations on the way behind `op_path`, the last one of the chain
    /// first. Tells whether the search has found `target`.
    fn trace_back(
        &self,
        breadcrumbs: &CrumbMap,
        start: StateRef,
        target: StateRef,
        Ghost(s): Ghost<Search>,
        op_path: &mut Vec<OpRef>,
    ) -> (r: bool)
        requires
            s.inv(self.operations(), start),
            crumbs_match(crumb_entries(*breadcrumbs), s),
            s.queue.contains(target) ==> s.queue[s.head] == target,
        ensures
            r == s.queue.contains(target),
            r ==> final(op_path)@ == old(op_path)@ + s.paths[s.head].reverse(),
    {
        let ghost ops = self.operations();
        let ghost found = s.queue.contains(target);
        let ghost lead = op_path@;
        let ghost mut at: int = s.head;
        let ghost mut tail: Seq<OpRef> = Seq::empty();
        let mut cur_state = target;
        proof {
            assert(op_path@ =~= lead + tail.reverse());
            assert(s.paths[at] + tail =~= s.paths[s.head]);
        }
        while cur_state != start
            invariant
                ops == self.operations(),
                s.inv(ops, start),
                crumbs_match(crumb_entries(*breadcrumbs), s),
                found == s.queue.contains(target),
                found ==> 0 <= at <= s.head && s.queue[at] == cur_state && s.paths[at] + tail
                    == s.paths[s.head],
                !found ==> cur_state == target,
                op_path@ == lead + tail.reverse(),
            decreases (if found { at } else { 0 }),
        {
            match breadcrumbs.get(cur_state) {
                Some(op) => {
                    proof {
                        assert(found);
                        assert(at >= 1);
                        lemma_parent(s, ops, start, at);
                        lemma_walk_step(s.paths[s.parents[at]], op, tail, lead);
                    }
                    op_path.push(op);
                    cur_state = self.op(op).input;
                    proof {
                        tail = seq![op] + tail;
                        at = s.parents[at];
                    }
                },
                None => {
                    proof {
                        if found {
                            assert(at >= 1);
                            assert(s.queue[at] == cur_state);
                        }
                    }
                    return false;
                },
            }
        }
        proof {
            assert(s.queue[0] == start);
            if found && at != 0 {
                assert(s.distinct(0, at));
            }
            assert(s.paths[0] + tail =~= tail);
        }
        true
    }

    /// Find a chain of operations from the `start` state to the `end` state, passing through each
    /// `through` operation in order.
    pub fn find_path(&self, start: StateRef, end: StateRef, through: &[OpRef]) -> (r: Option<
        Vec<OpRef>,
    >)
        requires
            self.knows_state(start),
            self.knows_state(end),
            waypoints_known(self.operations(), through@),
        ensures
            chain_of(r) == route(self.operations(), start, through@, end),
    {
        proof {
            use_type_invariant(self);
        }
        let ghost ops = self.operations();
        let mut cur_state = start;
        let mut op_path: Vec<OpRef> = Vec::new();

        // Build path segments through each through required operation.
        let mut i: usize = 0;
        assert(through@.take(0) =~= Seq::<OpRef>::empty());
        while i < through.len()
            invariant
                ops == self.operations(),
                self.wf(),
                i <= through.len(),
                waypoints_known(ops, through@),
                self.knows_state(cur_state),
                legs(ops, start, through@.take(i as int)) == Some((op_path@, cur_state)),
            decreases through.len() - i,
        {
            let op = through[i];
            proof {
                assert(through@.take(i + 1).drop_last() =~= through@.take(i as int));
                assert(through@.take(i + 1).last() == op);
            }
            match self.find_path_segment(cur_state, Destination::Op(op)) {
                Some(segment) => {
                    let mut segment = segment;
                    let ghost before = op_path@;
                    let ghost added = segment@;
                    op_path.append(&mut segment);
                    proof {
                        let leg = best_path(ops, cur_state, ops[op.0 as int].input).unwrap();
                        assert(added == leg.push(op));
                        assert(op_path@ == before + leg.push(op));
                        assert(op_fits(
                            ops[op.0 as int],
                            self.all_states().len(),
                            self.all_setups().len(),
                        ));
                    }
                    cur_state = self.op(op).output;
                },
                None => {
                    proof {
                        assert(legs(ops, start, through@.take(i + 1)) is None);
                        crate::route::lemma_legs_stay_none(ops, start, through@, i + 1);
                    }
                    return None;
                },
            }
            i = i + 1;
        }
        assert(through@.take(i as int) =~= through@);

        // Build the final path segment to the destination state.
        match self.find_path_segment(cur_state, Destination::State(end)) {
            Some(segment) => {
                let mut segment = segment;
                op_path.append(&mut segment);
                Some(op_path)
            },
            None => None,
        }
    }
}

} // verus!
