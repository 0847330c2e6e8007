//! The order in which chains of operations are preferred: a shorter chain
//! comes before a longer one, and of two chains of one length the one that
//! has the operation registered earlier where they first differ.

use crate::refs::OpRef;
use vstd::prelude::*;

verus! {

/// `a` and `b` agree before index `at`, and there `a` has the operation that
/// was registered earlier.
pub open spec fn earlier_at(a: Seq<OpRef>, b: Seq<OpRef>, at: int) -> bool {
    &&& 0 <= at < a.len()
    &&& at < b.len()
    &&& a[at].0 < b[at].0
    &&& forall|j: int| 0 <= j < at ==> a[j] == b[j]
}

/// `a` comes before `b`: it is shorter, or as long and earlier at the first
/// difference.
pub open spec fn before(a: Seq<OpRef>, b: Seq<OpRef>) -> bool {
    a.len() < b.len() || (a.len() == b.len() && exists|at: int| earlier_at(a, b, at))
}

/// `a` is `b` or comes before it.
pub open spec fn not_after(a: Seq<OpRef>, b: Seq<OpRef>) -> bool {
    a == b || before(a, b)
}

/// No chain comes before itself, and no two come before each other.
pub proof fn lemma_before_asymmetric(a: Seq<OpRef>, b: Seq<OpRef>)
    requires
        before(a, b),
    ensures
        !before(b, a),
        a != b,
{
    if a.len() == b.len() {
        let i = choose|at: int| earlier_at(a, b, at);
        if before(b, a) {
            let k = choose|at: int| earlier_at(b, a, at);
            if i < k {
                assert(b[i] == a[i]);
            } else if k < i {
                assert(a[k] == b[k]);
            }
        }
    }
}

/// The order is transitive.
pub proof fn lemma_before_transitive(a: Seq<OpRef>, b: Seq<OpRef>, c: Seq<OpRef>)
    requires
        before(a, b),
        before(b, c),
    ensures
        before(a, c),
{
    if a.len() == b.len() && b.len() == c.len() {
        let i = choose|at: int| earlier_at(a, b, at);
        let k = choose|at: int| earlier_at(b, c, at);
        if i <= k {
            assert(earlier_at(a, c, i));
        } else {
            assert(earlier_at(a, c, k));
        }
    }
}

/// `not_after` followed by `before` gives `before`, and the other way round.
pub proof fn lemma_not_after_chain(a: Seq<OpRef>, b: Seq<OpRef>, c: Seq<OpRef>)
    requires
        not_after(a, b),
        not_after(b, c),
    ensures
        not_after(a, c),
        before(a, b) || before(b, c) ==> before(a, c),
{
    if before(a, b) && before(b, c) {
        lemma_before_transitive(a, b, c);
    }
}

/// Of two chains one comes before the other, or they are the same chain.
pub proof fn lemma_before_total(a: Seq<OpRef>, b: Seq<OpRef>)
    ensures
        a == b || before(a, b) || before(b, a),
    decreases a.len(),
{
    if a.len() == b.len() {
        if a.len() == 0 {
            assert(a =~= b);
        } else {
            let a0 = a.drop_last();
            let b0 = b.drop_last();
            lemma_before_total(a0, b0);
            if a0 == b0 {
                if a.last().0 < b.last().0 {
                    assert(earlier_at(a, b, a.len() - 1)) by {
                        assert forall|j: int| 0 <= j < a.len() - 1 implies a[j] == b[j] by {
                            assert(a[j] == a0[j]);
                            assert(b[j] == b0[j]);
                        }
                    }
                } else if b.last().0 < a.last().0 {
                    assert(earlier_at(b, a, a.len() - 1)) by {
                        assert forall|j: int| 0 <= j < a.len() - 1 implies b[j] == a[j] by {
                            assert(a[j] == a0[j]);
                            assert(b[j] == b0[j]);
                        }
                    }
                } else {
                    assert(a.last() == b.last());
                    assert(a =~= a0.push(a.last()));
                    assert(b =~= b0.push(b.last()));
                }
            } else if before(a0, b0) {
                let i = choose|at: int| earlier_at(a0, b0, at);
                assert(earlier_at(a, b, i)) by {
                    assert(a[i] == a0[i]);
                    assert(b[i] == b0[i]);
                    assert forall|j: int| 0 <= j < i implies a[j] == b[j] by {
                        assert(a[j] == a0[j]);
                        assert(b[j] == b0[j]);
                    }
                }
            } else {
                let i = choose|at: int| earlier_at(b0, a0, at);
                assert(earlier_at(b, a, i)) by {
                    assert(a[i] == a0[i]);
                    assert(b[i] == b0[i]);
                    assert forall|j: int| 0 <= j < i implies b[j] == a[j] by {
                        assert(a[j] == a0[j]);
                        assert(b[j] == b0[j]);
                    }
                }
            }
        }
    }
}

/// With one more operation at the end of each, `a` comes before `b` exactly
/// where it did without them, or where the two were the same chain and the
/// operation added to `a` was registered earlier.
pub proof fn lemma_before_push(a: Seq<OpRef>, x: OpRef, b: Seq<OpRef>, y: OpRef)
    ensures
        before(a.push(x), b.push(y)) <==> (before(a, b) || (a == b && x.0 < y.0)),
{
    let ax = a.push(x);
    let by = b.push(y);
    if before(a, b) {
        if a.len() == b.len() {
            let i = choose|at: int| earlier_at(a, b, at);
            assert(earlier_at(ax, by, i)) by {
                assert(ax[i] == a[i]);
                assert(by[i] == b[i]);
                assert forall|j: int| 0 <= j < i implies ax[j] == by[j] by {
                    assert(ax[j] == a[j]);
                    assert(by[j] == b[j]);
                }
            }
        }
    }
    if a == b && x.0 < y.0 {
        assert(earlier_at(ax, by, a.len() as int));
    }
    if before(ax, by) {
        if ax.len() == by.len() {
            let i = choose|at: int| earlier_at(ax, by, at);
            if i < a.len() {
                assert(earlier_at(a, b, i)) by {
                    assert(ax[i] == a[i]);
                    assert(by[i] == b[i]);
                    assert forall|j: int| 0 <= j < i implies a[j] == b[j] by {
                        assert(ax[j] == a[j]);
                        assert(by[j] == b[j]);
                    }
                }
            } else {
                assert forall|j: int| 0 <= j < a.len() implies a[j] == b[j] by {
                    assert(ax[j] == a[j]);
                    assert(by[j] == b[j]);
                }
                assert(a =~= b);
            }
        }
    }
}

} // verus!
