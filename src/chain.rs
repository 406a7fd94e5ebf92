//! The ordering chain as mathematics: a sequence of task ids, and the `next`
//! pointers that realise it.
use vstd::prelude::*;

verus! {

/// What the root points at: the first task of the chain, if any.
pub open spec fn head(c: Seq<u64>) -> Option<u64> {
    if c.len() > 0 {
        Some(c[0])
    } else {
        None
    }
}

/// What the task in place `j` of the chain points at.
pub open spec fn after(c: Seq<u64>, j: int) -> Option<u64> {
    if j + 1 < c.len() {
        Some(c[j + 1])
    } else {
        None
    }
}

/// The `next` pointers (index = id, index 0 = the root) realise the chain `c`:
/// the root points at its first task, each task of it at the one after, and
/// every other task at nothing. The chain holds each id at most once, never
/// the root, and only ids that have a slot.
#[verifier::opaque]
pub open spec fn realises(links: Seq<Option<u64>>, c: Seq<u64>) -> bool {
    &&& 1 <= links.len() <= u64::MAX
    &&& c.no_duplicates()
    &&& forall|j: int| 0 <= j < c.len() ==> 0 < #[trigger] c[j] < links.len()
    &&& links[0] == head(c)
    &&& forall|j: int| 0 <= j < c.len() ==> links[#[trigger] c[j] as int] == after(c, j)
    &&& forall|i: int|
        0 < i < links.len() && !c.contains(i as u64) ==> (#[trigger] links[i]) is None
}

/// The chain with `x` taken out of it.
pub open spec fn unlinked(c: Seq<u64>, x: u64) -> Seq<u64> {
    if c.contains(x) {
        c.remove(c.index_of(x))
    } else {
        c
    }
}

/// The chain with `x` moved (or added) to the front.
pub open spec fn prioritized(c: Seq<u64>, x: u64) -> Seq<u64> {
    seq![x] + unlinked(c, x)
}

/// In a chain without duplicates, `index_of` finds the place of each element.
pub proof fn lemma_index_of_unique(c: Seq<u64>, j: int)
    requires
        c.no_duplicates(),
        0 <= j < c.len(),
    ensures
        c.index_of(c[j]) == j,
{
    assert(c.contains(c[j]));
}

/// A pointer at a task of the chain comes from the slot before it: the root
/// for the first task, else the task before.
pub proof fn lemma_pointer_source(links: Seq<Option<u64>>, c: Seq<u64>, i: int, j: int)
    requires
        realises(links, c),
        0 <= i < links.len(),
        0 <= j < c.len(),
        links[i] == Some(c[j]),
    ensures
        (j == 0 && i == 0) || (j > 0 && i == c[j - 1]),
{
    reveal(realises);
    if i == 0 {
        assert(c[0] == c[j]);
    } else if c.contains(i as u64) {
        let k = choose|k: int| 0 <= k < c.len() && c[k] == i as u64;
        assert(links[c[k] as int] == after(c, k));
        assert(c[k + 1] == c[j]);
    } else {
        assert(links[i] is None);
    }
}

/// No pointer leads to an id outside the chain.
pub proof fn lemma_no_pointer_outside(links: Seq<Option<u64>>, c: Seq<u64>, i: int, x: u64)
    requires
        realises(links, c),
        0 <= i < links.len(),
        !c.contains(x),
    ensures
        links[i] != Some(x),
{
    reveal(realises);
    if i == 0 {
        if c.len() > 0 {
            assert(c.contains(c[0]));
        }
    } else if c.contains(i as u64) {
        let k = choose|k: int| 0 <= k < c.len() && c[k] == i as u64;
        assert(links[c[k] as int] == after(c, k));
        if k + 1 < c.len() {
            assert(c.contains(c[k + 1]));
        }
    }
}

/// Moving a task that is not in the chain to the front: it points where the
/// root pointed, and the root points at it.
#[verifier::spinoff_prover]
proof fn lemma_front_new(links: Seq<Option<u64>>, c: Seq<u64>, x: u64)
    requires
        realises(links, c),
        0 < x < links.len(),
        !c.contains(x),
    ensures
        realises(links.update(x as int, links[0]).update(0, Some(x)), seq![x] + c),
{
    reveal(realises);
    let third = links.update(x as int, links[0]).update(0, Some(x));
    let c2 = seq![x] + c;
    assert(c2[0] == x);
    assert forall|m: int| 0 <= m < c2.len() implies 0 < #[trigger] c2[m] < third.len()
        && third[c2[m] as int] == after(c2, m) by {
        if m > 0 {
            assert(c2[m] == c[m - 1]);
            assert(c.contains(c[m - 1]));
        }
    }
    assert forall|i: int| 0 < i < third.len() && !c2.contains(i as u64) implies (
    #[trigger] third[i]) is None by {
        if c.contains(i as u64) {
            let k = choose|k: int| 0 <= k < c.len() && c[k] == i as u64;
            assert(c2[k + 1] == c[k]);
        }
    }
    assert forall|a: int, b: int| 0 <= a < c2.len() && 0 <= b < c2.len() && a != b implies c2[a]
        != c2[b] by {
        if a > 0 && b > 0 {
            assert(c2[a] == c[a - 1] && c2[b] == c[b - 1]);
        } else if a == 0 {
            assert(c2[b] == c[b - 1]);
            assert(c.contains(c[b - 1]));
        } else {
            assert(c2[a] == c[a - 1]);
            assert(c.contains(c[a - 1]));
        }
    }
}

/// After moving the task in place `j > 0` to the front, each task of the new
/// chain points at the one after it.
#[verifier::spinoff_prover]
proof fn lemma_front_order(links: Seq<Option<u64>>, c: Seq<u64>, j: int)
    requires
        realises(links, c),
        0 < j < c.len(),
    ensures
        ({
            let x = c[j];
            let p = c[j - 1] as int;
            let first = links.update(p, links[x as int]);
            let third = first.update(x as int, first[0]).update(0, Some(x));
            let c2 = seq![x] + c.remove(j);
            forall|m: int| 0 <= m < c2.len() ==> 0 < #[trigger] c2[m] < third.len()
                && third[c2[m] as int] == after(c2, m)
        }),
{
    lemma_realised_chain(links, c);
    let x = c[j];
    let p = c[j - 1] as int;
    let first = links.update(p, links[x as int]);
    let third = first.update(x as int, first[0]).update(0, Some(x));
    let c2 = seq![x] + c.remove(j);
    assert(c2[0] == x);
    assert forall|m: int| 0 <= m < c2.len() implies 0 < #[trigger] c2[m] < third.len()
        && third[c2[m] as int] == after(c2, m) by {
        if m == 0 {
            assert(c2[1] == c[0]);
        } else if m < j {
            assert(c2[m] == c[m - 1]);
            assert(c2[m + 1] == c[m]);
            assert(third[c2[m] as int] == links[c[m - 1] as int]);
        } else if m == j {
            assert(c2[m] == c[j - 1]);
            if j + 1 < c.len() {
                assert(c2[m + 1] == c[j + 1]);
            }
        } else {
            assert(c2[m] == c[m]);
            if m + 1 < c.len() {
                assert(c2[m + 1] == c[m + 1]);
            }
            assert(c[m] != x && c[m] != c[j - 1]);
        }
    }
}

/// An id with a slot that is not in the chain points at nothing.
proof fn lemma_outside_none(links: Seq<Option<u64>>, c: Seq<u64>, i: int)
    requires
        realises(links, c),
        0 < i < links.len(),
        !c.contains(i as u64),
    ensures
        links[i] is None,
{
    reveal(realises);
}

/// After moving the task in place `j > 0` to the front, every id outside
/// the chain still points at nothing.
#[verifier::spinoff_prover]
proof fn lemma_front_rest(links: Seq<Option<u64>>, c: Seq<u64>, j: int)
    requires
        realises(links, c),
        0 < j < c.len(),
    ensures
        ({
            let x = c[j];
            let p = c[j - 1] as int;
            let first = links.update(p, links[x as int]);
            let third = first.update(x as int, first[0]).update(0, Some(x));
            let c2 = seq![x] + c.remove(j);
            forall|i: int|
                0 < i < third.len() && !c2.contains(i as u64) ==> (#[trigger] third[i]) is None
        }),
{
    lemma_realised_chain(links, c);
    let x = c[j];
    let p = c[j - 1] as int;
    let first = links.update(p, links[x as int]);
    let third = first.update(x as int, first[0]).update(0, Some(x));
    let c2 = seq![x] + c.remove(j);
    assert(c2[0] == x);
    assert(c2[j] == c[j - 1]);
    assert forall|i: int| 0 < i < third.len() && !c2.contains(i as u64) implies (
    #[trigger] third[i]) is None by {
        if i == x as int {
            assert(c2.contains(x));
        } else if i == p {
            assert(c2.contains(c[j - 1]));
        } else {
            assert(third[i] == links[i]);
            if c.contains(i as u64) {
                let k = choose|k: int| 0 <= k < c.len() && c[k] == i as u64;
                if k < j {
                    assert(c2[k + 1] == c[k]);
                } else {
                    assert(k != j);
                    assert(c2[k] == c[k]);
                }
                assert(c2.contains(i as u64));
            } else {
                lemma_outside_none(links, c, i);
            }
        }
    }
}

/// Moving the element in place `j` of a sequence without duplicates to the
/// front leaves none.
proof fn lemma_front_distinct(c: Seq<u64>, j: int)
    requires
        c.no_duplicates(),
        0 <= j < c.len(),
    ensures
        (seq![c[j]] + c.remove(j)).no_duplicates(),
{
    let c2 = seq![c[j]] + c.remove(j);
    assert forall|a: int, b: int| 0 <= a < c2.len() && 0 <= b < c2.len() && a != b implies c2[a]
        != c2[b] by {
        let a1 = if a == 0 { j } else if a <= j { a - 1 } else { a };
        let b1 = if b == 0 { j } else if b <= j { b - 1 } else { b };
        assert(c2[a] == c[a1] && c2[b] == c[b1]);
    }
}

/// Moving the task in place `j > 0` to the front: the task before it takes
/// over its pointer, it points at the old first task, and the root at it.
proof fn lemma_front_moved(links: Seq<Option<u64>>, c: Seq<u64>, j: int)
    requires
        realises(links, c),
        0 < j < c.len(),
    ensures
        ({
            let x = c[j];
            let p = c[j - 1] as int;
            let first = links.update(p, links[x as int]);
            let third = first.update(x as int, first[0]).update(0, Some(x));
            realises(third, seq![x] + c.remove(j))
        }),
{
    lemma_realised_chain(links, c);
    lemma_front_order(links, c, j);
    lemma_front_rest(links, c, j);
    lemma_front_distinct(c, j);
    let x = c[j];
    let p = c[j - 1] as int;
    let first = links.update(p, links[x as int]);
    let third = first.update(x as int, first[0]).update(0, Some(x));
    let c2 = seq![x] + c.remove(j);
    reveal(realises);
    assert(c2[0] == x);
}

/// The three relinking steps of moving `x` to the front keep the pointers
/// realising the chain, now with `x` in front.
#[verifier::spinoff_prover]
pub proof fn lemma_prioritize_links(
    links: Seq<Option<u64>>,
    c: Seq<u64>,
    x: u64,
    pred: Option<int>,
)
    requires
        realises(links, c),
        0 < x < links.len(),
        match pred {
            Some(p) => 0 <= p < links.len() && links[p] == Some(x),
            None => forall|i: int| 0 <= i < links.len() ==> links[i] != Some(x),
        },
    ensures
        ({
            let first = match pred {
                Some(p) => links.update(p, links[x as int]),
                None => links,
            };
            let second = first.update(x as int, first[0]);
            let third = second.update(0, Some(x));
            realises(third, prioritized(c, x))
        }),
{
    reveal(realises);
    let first = match pred {
        Some(p) => links.update(p, links[x as int]),
        None => links,
    };
    let third = first.update(x as int, first[0]).update(0, Some(x));
    if c.contains(x) {
        let j = c.index_of(x);
        lemma_index_of_unique(c, j);
        if pred is None {
            assert(links[if j == 0 { 0 } else { c[j - 1] as int }] == Some(x));
        }
        lemma_pointer_source(links, c, pred->0, j);
        if j == 0 {
            assert(prioritized(c, x) =~= c);
            assert(third =~= links);
        } else {
            lemma_front_moved(links, c, j);
        }
    } else {
        if pred is Some {
            lemma_no_pointer_outside(links, c, pred->0, x);
        }
        lemma_front_new(links, c, x);
    }
}

/// Taking the task in place `j` out of the chain: the slot before it takes
/// over its pointer, and its own pointer is cleared.
/// After unlinking the task in place `j`, the tasks before it point at the
/// ones after them.
#[verifier::spinoff_prover]
proof fn lemma_unlink_order_before(links: Seq<Option<u64>>, c: Seq<u64>, j: int, p: int)
    requires
        realises(links, c),
        0 <= j < c.len(),
        0 <= p < links.len(),
        (j == 0 && p == 0) || (j > 0 && p == c[j - 1]),
    ensures
        ({
            let x = c[j];
            let second = links.update(p, links[x as int]).update(x as int, None);
            let c2 = c.remove(j);
            forall|m: int| 0 <= m < j ==> 0 < #[trigger] c2[m] < second.len()
                && second[c2[m] as int] == after(c2, m)
        }),
{
    lemma_realised_chain(links, c);
    let x = c[j];
    let second = links.update(p, links[x as int]).update(x as int, None);
    let c2 = c.remove(j);
    assert forall|m: int| 0 <= m < j implies 0 < #[trigger] c2[m] < second.len()
        && second[c2[m] as int] == after(c2, m) by {
        assert(c2[m] == c[m]);
        assert(c[m] != x);
        if m + 1 < j {
            assert(c2[m + 1] == c[m + 1]);
            assert(c[m] != c[j - 1]);
            assert(second[c[m] as int] == links[c[m] as int]);
        } else {
            assert(c[m] == c[j - 1]);
            if j + 1 < c.len() {
                assert(c2[m + 1] == c[j + 1]);
            }
        }
    }
}

/// After unlinking the task in place `j`, the tasks after it keep their
/// pointers.
#[verifier::spinoff_prover]
proof fn lemma_unlink_order_after(links: Seq<Option<u64>>, c: Seq<u64>, j: int, p: int)
    requires
        realises(links, c),
        0 <= j < c.len(),
        0 <= p < links.len(),
        (j == 0 && p == 0) || (j > 0 && p == c[j - 1]),
    ensures
        ({
            let x = c[j];
            let second = links.update(p, links[x as int]).update(x as int, None);
            let c2 = c.remove(j);
            forall|m: int| j <= m < c2.len() ==> 0 < #[trigger] c2[m] < second.len()
                && second[c2[m] as int] == after(c2, m)
        }),
{
    lemma_realised_chain(links, c);
    let x = c[j];
    let second = links.update(p, links[x as int]).update(x as int, None);
    let c2 = c.remove(j);
    assert forall|m: int| j <= m < c2.len() implies 0 < #[trigger] c2[m] < second.len()
        && second[c2[m] as int] == after(c2, m) by {
        assert(c2[m] == c[m + 1]);
        if m + 2 < c.len() {
            assert(c2[m + 1] == c[m + 2]);
        }
        assert(c[m + 1] != x);
        if j > 0 {
            assert(c[m + 1] != c[j - 1]);
        }
        assert(second[c[m + 1] as int] == links[c[m + 1] as int]);
    }
}

/// After unlinking the task in place `j`, the tasks that stay point at the
/// ones after them.
proof fn lemma_unlink_order(links: Seq<Option<u64>>, c: Seq<u64>, j: int, p: int)
    requires
        realises(links, c),
        0 <= j < c.len(),
        0 <= p < links.len(),
        (j == 0 && p == 0) || (j > 0 && p == c[j - 1]),
    ensures
        ({
            let x = c[j];
            let second = links.update(p, links[x as int]).update(x as int, None);
            let c2 = c.remove(j);
            forall|m: int| 0 <= m < c2.len() ==> 0 < #[trigger] c2[m] < second.len()
                && second[c2[m] as int] == after(c2, m)
        }),
{
    lemma_unlink_order_before(links, c, j, p);
    lemma_unlink_order_after(links, c, j, p);
}

/// After unlinking the task in place `j`, every id outside the chain, that
/// task included, points at nothing.
#[verifier::spinoff_prover]
proof fn lemma_unlink_rest(links: Seq<Option<u64>>, c: Seq<u64>, j: int, p: int)
    requires
        realises(links, c),
        0 <= j < c.len(),
        0 <= p < links.len(),
        (j == 0 && p == 0) || (j > 0 && p == c[j - 1]),
    ensures
        ({
            let x = c[j];
            let second = links.update(p, links[x as int]).update(x as int, None);
            let c2 = c.remove(j);
            forall|i: int|
                0 < i < second.len() && !c2.contains(i as u64) ==> (#[trigger] second[i]) is None
        }),
{
    lemma_realised_chain(links, c);
    let x = c[j];
    let second = links.update(p, links[x as int]).update(x as int, None);
    let c2 = c.remove(j);
    if j > 0 {
        assert(c2[j - 1] == c[j - 1]);
    }
    assert forall|i: int| 0 < i < second.len() && !c2.contains(i as u64) implies (
    #[trigger] second[i]) is None by {
        if i == x as int {
        } else if i == p {
            assert(c2.contains(c[j - 1]));
        } else {
            assert(second[i] == links[i]);
            if c.contains(i as u64) {
                let k = choose|k: int| 0 <= k < c.len() && c[k] == i as u64;
                if k < j {
                    assert(c2[k] == c[k]);
                } else {
                    assert(k != j);
                    assert(c2[k - 1] == c[k]);
                }
                assert(c2.contains(i as u64));
            } else {
                lemma_outside_none(links, c, i);
            }
        }
    }
}

/// Removing one place of a sequence without duplicates leaves none.
proof fn lemma_remove_distinct(c: Seq<u64>, j: int)
    requires
        c.no_duplicates(),
        0 <= j < c.len(),
    ensures
        c.remove(j).no_duplicates(),
{
    let c2 = c.remove(j);
    assert forall|a: int, b: int| 0 <= a < c2.len() && 0 <= b < c2.len() && a != b implies c2[a]
        != c2[b] by {
        let a1 = if a < j { a } else { a + 1 };
        let b1 = if b < j { b } else { b + 1 };
        assert(c2[a] == c[a1] && c2[b] == c[b1]);
    }
}

/// Taking the task in place `j` out of the chain: the slot before it takes
/// over its pointer, and its own pointer is cleared.
#[verifier::spinoff_prover]
pub proof fn lemma_unlink_links(links: Seq<Option<u64>>, c: Seq<u64>, j: int, p: int)
    requires
        realises(links, c),
        0 <= j < c.len(),
        0 <= p < links.len(),
        links[p] == Some(c[j]),
    ensures
        ({
            let x = c[j];
            let second = links.update(p, links[x as int]).update(x as int, None);
            realises(second, unlinked(c, x))
        }),
{
    let x = c[j];
    lemma_realised_chain(links, c);
    lemma_pointer_source(links, c, p, j);
    lemma_index_of_unique(c, j);
    assert(c.contains(x));
    let second = links.update(p, links[x as int]).update(x as int, None);
    let c2 = c.remove(j);
    assert(unlinked(c, x) == c2);
    lemma_unlink_order(links, c, j, p);
    lemma_unlink_rest(links, c, j, p);
    lemma_remove_distinct(c, j);
    reveal(realises);
    assert(c.contains(c[0]));
    if j == 0 && c.len() > 1 {
        assert(c2[0] == c[1]);
    }
}

/// Every id of the reordered chain is `x` or was in the chain before.
pub proof fn lemma_prioritized_elements(c: Seq<u64>, x: u64)
    ensures
        forall|j: int|
            0 <= j < prioritized(c, x).len() ==> #[trigger] prioritized(c, x)[j] == x || c.contains(
                prioritized(c, x)[j],
            ),
{
    let c2 = prioritized(c, x);
    assert forall|j: int| 0 <= j < c2.len() implies #[trigger] c2[j] == x || c.contains(c2[j]) by {
        if j > 0 {
            if c.contains(x) {
                let k = c.index_of(x);
                if j - 1 < k {
                    assert(c2[j] == c[j - 1]);
                } else {
                    assert(c2[j] == c[j]);
                }
            } else {
                assert(c2[j] == c[j - 1]);
            }
        }
    }
}

/// Every id of the shortened chain was in the chain before.
pub proof fn lemma_unlinked_elements(c: Seq<u64>, x: u64)
    ensures
        forall|j: int|
            0 <= j < unlinked(c, x).len() ==> c.contains(#[trigger] unlinked(c, x)[j]),
{
    let c2 = unlinked(c, x);
    assert forall|j: int| 0 <= j < c2.len() implies c.contains(#[trigger] c2[j]) by {
        if c.contains(x) {
            let k = c.index_of(x);
            if j < k {
                assert(c2[j] == c[j]);
            } else {
                assert(c2[j] == c[j + 1]);
            }
        } else {
            assert(c2[j] == c[j]);
        }
    }
}

/// Each task of the chain has a pointer at it: from the root if it is
/// first, else from the task before.
pub proof fn lemma_member_has_source(links: Seq<Option<u64>>, c: Seq<u64>, j: int)
    requires
        realises(links, c),
        0 <= j < c.len(),
    ensures
        j == 0 ==> links[0] == Some(c[j]),
        j > 0 ==> 0 < c[j - 1] < links.len() && links[c[j - 1] as int] == Some(c[j]),
{
    reveal(realises);
    if j > 0 {
        assert(links[c[j - 1] as int] == after(c, j - 1));
    }
}

/// The pointers of a chain hold it, with no id twice, and within range.
pub proof fn lemma_realised_chain(links: Seq<Option<u64>>, c: Seq<u64>)
    requires
        realises(links, c),
    ensures
        1 <= links.len() <= u64::MAX,
        c.no_duplicates(),
        forall|j: int| 0 <= j < c.len() ==> 0 < #[trigger] c[j] < links.len(),
        links[0] == head(c),
        forall|j: int| 0 <= j < c.len() ==> links[#[trigger] c[j] as int] == after(c, j),
{
    reveal(realises);
}

/// Moving the task in place `j` to the front puts it before the others,
/// which keep their order.
pub proof fn lemma_prioritized_member(c: Seq<u64>, j: int)
    requires
        c.no_duplicates(),
        0 <= j < c.len(),
    ensures
        prioritized(c, c[j]) == seq![c[j]] + c.remove(j),
        unlinked(c, c[j]) == c.remove(j),
{
    lemma_index_of_unique(c, j);
}

/// How many of the top tasks the rotations turn: three, or fewer where the
/// chain is shorter.
pub open spec fn rotation_depth(c: Seq<u64>) -> int {
    if c.len() < 3 {
        c.len() as int
    } else {
        3
    }
}

/// The chain with its second task promoted to first.
pub open spec fn swapped(c: Seq<u64>) -> Seq<u64> {
    if c.len() < 2 {
        c
    } else {
        seq![c[1], c[0]] + c.skip(2)
    }
}

/// The chain with the deepest of its top tasks brought to the front (as
/// `a b c` becomes `c a b`).
pub open spec fn rotated(c: Seq<u64>) -> Seq<u64> {
    let d = rotation_depth(c);
    if d < 2 {
        c
    } else {
        seq![c[d - 1]] + c.take(d - 1) + c.skip(d)
    }
}

/// The chain with its first task sent down below the others of the top (as
/// `a b c` becomes `b c a`).
pub open spec fn counter_rotated(c: Seq<u64>) -> Seq<u64> {
    let d = rotation_depth(c);
    if d < 2 {
        c
    } else {
        c.subrange(1, d) + seq![c[0]] + c.skip(d)
    }
}

/// The slot whose pointer is `x`, if any slot's is.
pub open spec fn pointer_at(links: Seq<Option<u64>>, x: u64) -> Option<int> {
    if exists|p: int| 0 <= p < links.len() && links[p] == Some(x) {
        Some(choose|p: int| 0 <= p < links.len() && links[p] == Some(x))
    } else {
        None
    }
}

/// The pointers after moving `x` to the front: the slot that pointed at `x`
/// takes over its pointer, `x` points where the root pointed, and the root
/// points at `x`. Every other slot keeps its pointer.
pub open spec fn front_links(links: Seq<Option<u64>>, x: u64) -> Seq<Option<u64>> {
    let first = match pointer_at(links, x) {
        Some(p) => links.update(p, links[x as int]),
        None => links,
    };
    first.update(x as int, first[0]).update(0, Some(x))
}

/// The pointers after taking `x` out of the chain: the slot that pointed at
/// `x` takes over its pointer and `x` points at nothing. Where no slot
/// points at `x`, nothing changes.
pub open spec fn cleared_links(links: Seq<Option<u64>>, x: u64) -> Seq<Option<u64>> {
    match pointer_at(links, x) {
        Some(p) => links.update(p, links[x as int]).update(x as int, None),
        None => links,
    }
}

/// Pointers that realise a chain never share a target: at most one slot
/// points at each id, and the ids pointed at are those of the chain.
pub proof fn lemma_single_source(links: Seq<Option<u64>>, c: Seq<u64>, i: int, k: int, t: u64)
    requires
        realises(links, c),
        0 <= i < links.len(),
        0 <= k < links.len(),
        links[i] == Some(t),
        links[k] == Some(t),
    ensures
        i == k,
        c.contains(t),
{
    if !c.contains(t) {
        lemma_no_pointer_outside(links, c, i, t);
    }
    let j = choose|j: int| 0 <= j < c.len() && c[j] == t;
    lemma_pointer_source(links, c, i, j);
    lemma_pointer_source(links, c, k, j);
}

/// Where the pointers realise a chain, the one slot that points at `x` is
/// the one that `pointer_at` names.
pub proof fn lemma_pointer_at(links: Seq<Option<u64>>, c: Seq<u64>, x: u64, p: int)
    requires
        realises(links, c),
        0 <= p < links.len(),
        links[p] == Some(x),
    ensures
        pointer_at(links, x) == Some(p),
{
    let q = choose|q: int| 0 <= q < links.len() && links[q] == Some(x);
    lemma_single_source(links, c, p, q, x);
}

/// Moving the same task to the front twice sets the pointers as moving it
/// once does.
#[verifier::spinoff_prover]
pub proof fn law_front_links_idempotent(links: Seq<Option<u64>>, c: Seq<u64>, x: u64)
    requires
        realises(links, c),
        0 < x < links.len(),
    ensures
        front_links(front_links(links, x), x) == front_links(links, x),
{
    let once = front_links(links, x);
    let pred = match pointer_at(links, x) {
        Some(p) => {
            lemma_pointer_at(links, c, x, p);
            Some(p)
        },
        None => None,
    };
    if pred is None {
        assert forall|i: int| 0 <= i < links.len() implies links[i] != Some(x) by {
            if links[i] == Some(x) {
                assert(pointer_at(links, x) is Some);
            }
        }
    }
    lemma_prioritize_links(links, c, x, pred);
    lemma_pointer_at(once, prioritized(c, x), x, 0);
    assert(front_links(once, x) =~= once);
}

} // verus!
