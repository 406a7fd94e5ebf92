//! What holds of the ordering across several operations.
use vstd::prelude::*;
use crate::chain::{lemma_index_of_unique, prioritized, unlinked};

verus! {

/// One reordering step of the chain.
#[derive(Clone, Copy, Debug, PartialEq, Eq, Structural)]
pub enum ChainOp {
    Prioritize(u64),
    Deprioritize(u64),
}

/// The chain after a sequence of reordering steps.
pub open spec fn after_ops(c: Seq<u64>, ops: Seq<ChainOp>) -> Seq<u64>
    decreases ops.len(),
{
    if ops.len() == 0 {
        c
    } else {
        let before = after_ops(c, ops.drop_last());
        match ops.last() {
            ChainOp::Prioritize(x) => prioritized(before, x),
            ChainOp::Deprioritize(x) => unlinked(before, x),
        }
    }
}

/// Taking `x` out of a chain without duplicates leaves a chain without
/// duplicates that no longer holds `x` and holds nothing new.
proof fn lemma_unlinked_shape(c: Seq<u64>, x: u64)
    requires
        c.no_duplicates(),
    ensures
        unlinked(c, x).no_duplicates(),
        !unlinked(c, x).contains(x),
        unlinked(c, x).len() <= c.len(),
        forall|y: u64| #[trigger] unlinked(c, x).contains(y) ==> c.contains(y),
        forall|y: u64| y != x && c.contains(y) ==> #[trigger] unlinked(c, x).contains(y),
{
    let u = unlinked(c, x);
    if c.contains(x) {
        let j = c.index_of(x);
        lemma_index_of_unique(c, j);
        assert(u == c.remove(j));
        assert forall|a: int, b: int| 0 <= a < u.len() && 0 <= b < u.len() && a != b implies u[a]
            != u[b] by {
            let a1 = if a < j { a } else { a + 1 };
            let b1 = if b < j { b } else { b + 1 };
            assert(u[a] == c[a1] && u[b] == c[b1]);
        }
        assert forall|i: int| 0 <= i < u.len() implies u[i] != x by {
            let i1 = if i < j { i } else { i + 1 };
            assert(u[i] == c[i1]);
        }
        assert forall|y: u64| #[trigger] u.contains(y) implies c.contains(y) by {
            let i = choose|i: int| 0 <= i < u.len() && u[i] == y;
            let i1 = if i < j { i } else { i + 1 };
            assert(u[i] == c[i1]);
        }
        assert forall|y: u64| y != x && c.contains(y) implies #[trigger] u.contains(y) by {
            let i = choose|i: int| 0 <= i < c.len() && c[i] == y;
            if i < j {
                assert(u[i] == c[i]);
            } else {
                assert(i != j);
                assert(u[i - 1] == c[i]);
            }
        }
    }
}

/// Moving `x` to the front of a chain without duplicates leaves a chain
/// without duplicates, at most one longer, that holds `x` first and nothing
/// else new.
proof fn lemma_prioritized_shape(c: Seq<u64>, x: u64)
    requires
        c.no_duplicates(),
    ensures
        prioritized(c, x).no_duplicates(),
        prioritized(c, x)[0] == x,
        prioritized(c, x).skip(1) == unlinked(c, x),
        prioritized(c, x).len() <= c.len() + 1,
        forall|y: u64| #[trigger] prioritized(c, x).contains(y) ==> y == x || c.contains(y),
{
    lemma_unlinked_shape(c, x);
    let u = unlinked(c, x);
    let p = prioritized(c, x);
    assert(p.skip(1) =~= u);
    assert forall|a: int, b: int| 0 <= a < p.len() && 0 <= b < p.len() && a != b implies p[a]
        != p[b] by {
        if a > 0 && b > 0 {
            assert(p[a] == u[a - 1] && p[b] == u[b - 1]);
        } else if a == 0 {
            assert(p[b] == u[b - 1]);
            assert(u.contains(u[b - 1]));
        } else {
            assert(p[a] == u[a - 1]);
            assert(u.contains(u[a - 1]));
        }
    }
    assert forall|y: u64| #[trigger] p.contains(y) implies y == x || c.contains(y) by {
        let i = choose|i: int| 0 <= i < p.len() && p[i] == y;
        if i > 0 {
            assert(p[i] == u[i - 1]);
            assert(u.contains(y));
        }
    }
}

/// Prioritizing the same task twice in a row gives the same chain as doing
/// it once.
pub proof fn law_prioritize_idempotent(c: Seq<u64>, x: u64)
    requires
        c.no_duplicates(),
    ensures
        prioritized(prioritized(c, x), x) == prioritized(c, x),
{
    lemma_prioritized_shape(c, x);
    let p = prioritized(c, x);
    lemma_index_of_unique(p, 0);
    assert(p.contains(x));
    assert(unlinked(p, x) == p.remove(0));
    assert(prioritized(p, x) =~= p);
}

/// Whatever sequence of prioritize and deprioritize steps is applied to a
/// chain without duplicates, the chain reached holds no id twice, holds only
/// ids that were in it or were prioritized, and so a walk along it ends
/// within the number of tasks ever linked.
pub proof fn law_no_duplicates(c: Seq<u64>, ops: Seq<ChainOp>)
    requires
        c.no_duplicates(),
    ensures
        after_ops(c, ops).no_duplicates(),
        after_ops(c, ops).len() <= c.len() + ops.len(),
        forall|y: u64|
            #[trigger] after_ops(c, ops).contains(y) ==> c.contains(y) || ops.contains(
                ChainOp::Prioritize(y),
            ),
    decreases ops.len(),
{
    if ops.len() > 0 {
        let rest = ops.drop_last();
        law_no_duplicates(c, rest);
        let before = after_ops(c, rest);
        assert forall|y: u64| #[trigger] rest.contains(ChainOp::Prioritize(y)) implies ops.contains(
            ChainOp::Prioritize(y),
        ) by {
            let i = choose|i: int| 0 <= i < rest.len() && rest[i] == ChainOp::Prioritize(y);
            assert(ops[i] == rest[i]);
        }
        match ops.last() {
            ChainOp::Prioritize(x) => {
                lemma_prioritized_shape(before, x);
                assert(ops[ops.len() - 1] == ChainOp::Prioritize(x));
            },
            ChainOp::Deprioritize(x) => {
                lemma_unlinked_shape(before, x);
            },
        }
    }
}

/// Deprioritizing a task and then prioritizing it brings it back to the
/// front, with every other task in the order it had.
pub proof fn law_deprioritize_then_prioritize(c: Seq<u64>, x: u64)
    requires
        c.no_duplicates(),
    ensures
        prioritized(unlinked(c, x), x)[0] == x,
        prioritized(unlinked(c, x), x).skip(1) == unlinked(c, x),
        prioritized(unlinked(c, x), x) == prioritized(c, x),
{
    lemma_unlinked_shape(c, x);
    let u = unlinked(c, x);
    lemma_prioritized_shape(u, x);
    assert(unlinked(u, x) == u);
}

} // verus!
