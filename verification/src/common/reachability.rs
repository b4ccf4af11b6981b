//! Which non-terminals of a numbered grammar can be reached from the start
//! symbol.

use crate::common::lalr_table::RawSymbol;
use crate::common::numbering::rhs_views;
use vstd::prelude::*;

verus! {

/// Whether a production of the non-terminal `from` holds the non-terminal
/// `to` on its right-hand side.
pub open spec fn leads_to(lhs: Seq<usize>, rhs: Seq<Seq<RawSymbol>>, from: usize, to: usize) -> bool {
    exists|i: int, j: int|
        0 <= i < lhs.len() && i < rhs.len() && 0 <= j < rhs[i].len() && lhs[i] == from
            && #[trigger] rhs[i][j] == (RawSymbol { terminal: false, index: to })
}

/// Whether `path` leads from the start symbol, which has the number 0,
/// from non-terminal to non-terminal.
pub open spec fn is_path(lhs: Seq<usize>, rhs: Seq<Seq<RawSymbol>>, path: Seq<usize>) -> bool {
    &&& path.len() > 0
    &&& path[0] == 0
    &&& forall|k: int|
        0 <= k < path.len() - 1 ==> leads_to(lhs, rhs, #[trigger] path[k], path[k + 1])
}

/// Whether the non-terminal `n` can be reached from the start symbol.
pub open spec fn reachable(lhs: Seq<usize>, rhs: Seq<Seq<RawSymbol>>, n: usize) -> bool {
    exists|path: Seq<usize>| #[trigger] is_path(lhs, rhs, path) && path.last() == n
}

/// The number of the first of the non-terminals `from..count` that cannot
/// be reached from the start symbol.
pub open spec fn first_unreachable(
    lhs: Seq<usize>,
    rhs: Seq<Seq<RawSymbol>>,
    count: usize,
    from: usize,
) -> Option<usize>
    decreases count - from,
{
    if from >= count {
        None
    } else if !reachable(lhs, rhs, from) {
        Some(from)
    } else {
        first_unreachable(lhs, rhs, count, (from + 1) as usize)
    }
}

/// The number of marks that are set.
pub open spec fn marks(marked: Seq<bool>) -> nat
    decreases marked.len(),
{
    if marked.len() == 0 {
        0
    } else if marked.last() {
        marks(marked.drop_last()) + 1
    } else {
        marks(marked.drop_last())
    }
}

/// There are no more marks set than there are marks.
pub proof fn lemma_marks_bound(marked: Seq<bool>)
    ensures
        marks(marked) <= marked.len(),
    decreases marked.len(),
{
    if marked.len() > 0 {
        lemma_marks_bound(marked.drop_last());
    }
}

/// Setting a mark that is not set adds one to the marks that are set.
pub proof fn lemma_marks_set(marked: Seq<bool>, at: int)
    requires
        0 <= at < marked.len(),
        !marked[at],
    ensures
        marks(marked.update(at, true)) == marks(marked) + 1,
    decreases marked.len(),
{
    let after = marked.update(at, true);
    if at == marked.len() - 1 {
        assert(after.drop_last() =~= marked.drop_last());
    } else {
        lemma_marks_set(marked.drop_last(), at);
        assert(after.drop_last() =~= marked.drop_last().update(at, true));
    }
}

/// Whether the marks hold with each marked non-terminal all that its
/// productions lead to.
pub open spec fn closed(lhs: Seq<usize>, rhs: Seq<Seq<RawSymbol>>, marked: Seq<bool>) -> bool {
    forall|i: int, j: int|
        0 <= i < lhs.len() && 0 <= j < rhs[i].len() && marked[lhs[i] as int] && !(
        #[trigger] rhs[i][j]).terminal ==> marked[rhs[i][j].index as int]
}

/// Marks that hold the start symbol and are closed hold all that can be
/// reached.
pub proof fn lemma_closed_holds_all(
    lhs: Seq<usize>,
    rhs: Seq<Seq<RawSymbol>>,
    marked: Seq<bool>,
    path: Seq<usize>,
)
    requires
        lhs.len() == rhs.len(),
        marked.len() > 0,
        marked[0],
        closed(lhs, rhs, marked),
        is_path(lhs, rhs, path),
        forall|i: int| 0 <= i < lhs.len() ==> #[trigger] lhs[i] < marked.len(),
        forall|i: int, j: int|
            0 <= i < rhs.len() && 0 <= j < rhs[i].len() && !(#[trigger] rhs[i][j]).terminal
                ==> rhs[i][j].index < marked.len(),
    ensures
        path.last() < marked.len(),
        marked[path.last() as int],
    decreases path.len(),
{
    if path.len() > 1 {
        let before = path.drop_last();
        assert(is_path(lhs, rhs, before)) by {
            assert forall|k: int| 0 <= k < before.len() - 1 implies leads_to(
                lhs,
                rhs,
                #[trigger] before[k],
                before[k + 1],
            ) by {
                assert(before[k] == path[k]);
                assert(before[k + 1] == path[k + 1]);
            }
        }
        lemma_closed_holds_all(lhs, rhs, marked, before);
        let from = path[path.len() - 2];
        let to = path.last();
        assert(before.last() == from);
        assert(leads_to(lhs, rhs, path[path.len() - 2], path[path.len() - 2 + 1]));
        let (i, j) = choose|i: int, j: int|
            0 <= i < lhs.len() && i < rhs.len() && 0 <= j < rhs[i].len() && lhs[i] == from
                && #[trigger] rhs[i][j] == (RawSymbol { terminal: false, index: to });
        assert(!rhs[i][j].terminal);
        assert(marked[lhs[i] as int]);
    }
}

/// A non-terminal that a production of a reachable non-terminal leads to
/// is reachable.
pub proof fn lemma_reachable_step(lhs: Seq<usize>, rhs: Seq<Seq<RawSymbol>>, i: int, j: int)
    requires
        0 <= i < lhs.len(),
        i < rhs.len(),
        0 <= j < rhs[i].len(),
        !rhs[i][j].terminal,
        reachable(lhs, rhs, lhs[i]),
    ensures
        reachable(lhs, rhs, rhs[i][j].index),
{
    let path = choose|path: Seq<usize>| #[trigger] is_path(lhs, rhs, path) && path.last() == lhs[i];
    let to = rhs[i][j].index;
    let longer = path.push(to);
    assert(rhs[i][j] == (RawSymbol { terminal: false, index: to }));
    assert(leads_to(lhs, rhs, lhs[i], to));
    assert forall|k: int| 0 <= k < longer.len() - 1 implies leads_to(
        lhs,
        rhs,
        #[trigger] longer[k],
        longer[k + 1],
    ) by {
        if k < path.len() - 1 {
            assert(longer[k] == path[k]);
            assert(longer[k + 1] == path[k + 1]);
        } else {
            assert(longer[k] == path.last());
        }
    }
    assert(is_path(lhs, rhs, longer));
    assert(longer.last() == to);
}

/// The start symbol is reachable.
pub proof fn lemma_start_reachable(lhs: Seq<usize>, rhs: Seq<Seq<RawSymbol>>)
    ensures
        reachable(lhs, rhs, 0),
{
    let path = seq![0usize];
    assert(is_path(lhs, rhs, path));
    assert(path.last() == 0);
}

/// Marks the non-terminals that can be reached from the start symbol.
pub fn mark_reachable(lhs: &Vec<usize>, rhs: &Vec<Vec<RawSymbol>>, count: usize) -> (marked: Vec<
    bool,
>)
    requires
        count > 0,
        lhs.len() == rhs.len(),
        forall|i: int| 0 <= i < lhs.len() ==> #[trigger] lhs@[i] < count,
        forall|i: int, j: int|
            0 <= i < rhs.len() && 0 <= j < rhs@[i].len() && !(#[trigger] rhs@[i]@[j]).terminal
                ==> rhs@[i]@[j].index < count,
    ensures
        marked.len() == count,
        forall|n: int|
            0 <= n < count ==> (#[trigger] marked@[n] <==> reachable(
                lhs@,
                rhs_views(rhs@),
                n as usize,
            )),
{
    let ghost left = lhs@;
    let ghost right = rhs_views(rhs@);
    let mut marked: Vec<bool> = Vec::new();
    let mut n: usize = 0;
    while n < count
        invariant
            n <= count,
            marked.len() == n,
            forall|k: int| 0 <= k < n ==> #[trigger] marked@[k] == false,
            marks(marked@) == 0,
        decreases count - n,
    {
        let ghost before = marked@;
        marked.push(false);
        assert(marked@.drop_last() =~= before);
        n += 1;
    }
    proof {
        lemma_marks_set(marked@, 0);
        lemma_start_reachable(left, right);
    }
    marked[0] = true;
    let mut set: usize = 1;
    let mut changed = true;
    while changed
        invariant
            count > 0,
            marked.len() == count,
            lhs.len() == rhs.len(),
            left == lhs@,
            right == rhs_views(rhs@),
            forall|i: int| 0 <= i < lhs.len() ==> #[trigger] lhs@[i] < count,
            forall|i: int, j: int|
                0 <= i < rhs.len() && 0 <= j < rhs@[i].len() && !(#[trigger] rhs@[i]@[j]).terminal
                    ==> rhs@[i]@[j].index < count,
            marked@[0],
            set == marks(marked@),
            forall|k: int| 0 <= k < count && #[trigger] marked@[k] ==> reachable(left, right, k as usize),
            !changed ==> closed(left, right, marked@),
        decreases 2 * (count - set) + (if changed {
            1int
        } else {
            0int
        }),
    {
        let ghost at_start = marked@;
        let ghost set_at_start = set;
        changed = false;
        let mut i: usize = 0;
        while i < lhs.len()
            invariant
                i <= lhs.len(),
                count > 0,
                marked.len() == count,
                lhs.len() == rhs.len(),
                left == lhs@,
                right == rhs_views(rhs@),
                forall|i: int| 0 <= i < lhs.len() ==> #[trigger] lhs@[i] < count,
                forall|i: int, j: int|
                    0 <= i < rhs.len() && 0 <= j < rhs@[i].len() && !(
                    #[trigger] rhs@[i]@[j]).terminal ==> rhs@[i]@[j].index < count,
                marked@[0],
                set == marks(marked@),
                set >= set_at_start,
                changed ==> set > set_at_start,
                !changed ==> marked@ == at_start,
                forall|k: int|
                    0 <= k < count && #[trigger] marked@[k] ==> reachable(left, right, k as usize),
                !changed ==> forall|r: int, j: int|
                    0 <= r < i && 0 <= j < right[r].len() && marked@[left[r] as int] && !(
                    #[trigger] right[r][j]).terminal ==> marked@[right[r][j].index as int],
            decreases lhs.len() - i,
        {
            if marked[lhs[i]] {
                let symbols = &rhs[i];
                assert(right[i as int] == symbols@);
                let mut j: usize = 0;
                while j < symbols.len()
                    invariant
                        j <= symbols.len(),
                        i < lhs.len(),
                        count > 0,
                        marked.len() == count,
                        lhs.len() == rhs.len(),
                        left == lhs@,
                        right == rhs_views(rhs@),
                        right[i as int] == symbols@,
                        *symbols == rhs@[i as int],
                        forall|i: int| 0 <= i < lhs.len() ==> #[trigger] lhs@[i] < count,
                        forall|i: int, j: int|
                            0 <= i < rhs.len() && 0 <= j < rhs@[i].len() && !(
                            #[trigger] rhs@[i]@[j]).terminal ==> rhs@[i]@[j].index < count,
                        marked@[0],
                        marked@[lhs@[i as int] as int],
                        set == marks(marked@),
                        set >= set_at_start,
                        changed ==> set > set_at_start,
                        !changed ==> marked@ == at_start,
                        forall|k: int|
                            0 <= k < count && #[trigger] marked@[k] ==> reachable(
                                left,
                                right,
                                k as usize,
                            ),
                        !changed ==> forall|r: int, k: int|
                            0 <= r < i && 0 <= k < right[r].len() && marked@[left[r] as int] && !(
                            #[trigger] right[r][k]).terminal ==> marked@[right[r][k].index as int],
                        !changed ==> forall|k: int|
                            0 <= k < j && !(#[trigger] symbols@[k]).terminal
                                ==> marked@[symbols@[k].index as int],
                    decreases symbols.len() - j,
                {
                    let symbol = symbols[j];
                    if !symbol.terminal {
                        assert(rhs@[i as int]@[j as int] == symbol);
                        if !marked[symbol.index] {
                            proof {
                                lemma_marks_set(marked@, symbol.index as int);
                                lemma_marks_bound(marked@.update(symbol.index as int, true));
                                lemma_reachable_step(left, right, i as int, j as int);
                            }
                            marked[symbol.index] = true;
                            set += 1;
                            changed = true;
                        }
                    }
                    j += 1;
                }
            }
            i += 1;
        }
        proof {
            lemma_marks_bound(marked@);
        }
    }
    proof {
        assert forall|n: int| 0 <= n < count implies (#[trigger] marked@[n] <==> reachable(
            left,
            right,
            n as usize,
        )) by {
            if reachable(left, right, n as usize) {
                let path = choose|path: Seq<usize>|
                    #[trigger] is_path(left, right, path) && path.last() == n as usize;
                assert forall|i: int, j: int|
                    0 <= i < right.len() && 0 <= j < right[i].len() && !(
                    #[trigger] right[i][j]).terminal implies right[i][j].index < marked@.len() by {
                    assert(right[i][j] == rhs@[i]@[j]);
                }
                lemma_closed_holds_all(left, right, marked@, path);
            }
        }
    }
    marked
}

/// The number of the first non-terminal that cannot be reached from the
/// start symbol.
pub fn unreachable_symbol(lhs: &Vec<usize>, rhs: &Vec<Vec<RawSymbol>>, count: usize) -> (r: Option<
    usize,
>)
    requires
        count > 0,
        lhs.len() == rhs.len(),
        forall|i: int| 0 <= i < lhs.len() ==> #[trigger] lhs@[i] < count,
        forall|i: int, j: int|
            0 <= i < rhs.len() && 0 <= j < rhs@[i].len() && !(#[trigger] rhs@[i]@[j]).terminal
                ==> rhs@[i]@[j].index < count,
    ensures
        r == first_unreachable(lhs@, rhs_views(rhs@), count, 0),
        r matches Some(n) ==> n < count,
{
    let marked = mark_reachable(lhs, rhs, count);
    let mut n: usize = 0;
    while n < count
        invariant
            n <= count,
            marked.len() == count,
            forall|k: int|
                0 <= k < count ==> (#[trigger] marked@[k] <==> reachable(
                    lhs@,
                    rhs_views(rhs@),
                    k as usize,
                )),
            first_unreachable(lhs@, rhs_views(rhs@), count, 0) == first_unreachable(
                lhs@,
                rhs_views(rhs@),
                count,
                n,
            ),
        decreases count - n,
    {
        if !marked[n] {
            return Some(n);
        }
        n += 1;
    }
    None
}

} // verus!
