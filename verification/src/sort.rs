//! A stable sort by an order that a caller supplies.

use vstd::prelude::*;

verus! {

/// A total preorder on `T`: any two values can be told apart or rank alike.
pub trait SortOrder<T> {
    spec fn le(&self, a: T, b: T) -> bool;

    proof fn total(&self, a: T, b: T)
        ensures
            self.le(a, b) || self.le(b, a),
    ;

    proof fn transitive(&self, a: T, b: T, c: T)
        requires
            self.le(a, b),
            self.le(b, c),
        ensures
            self.le(a, c),
    ;

    /// Whether `a` may stand before `b`.
    fn ranks_before(&self, a: &T, b: &T) -> (before: bool)
        ensures
            before == self.le(*a, *b),
    ;
}

/// `positions` lists each of `0..n` once.
pub open spec fn is_arrangement(positions: Seq<usize>, n: nat) -> bool {
    &&& positions.len() == n
    &&& positions.no_duplicates()
    &&& forall|i: int| 0 <= i < n ==> #[trigger] positions[i] < n
}

/// The item at `i` belongs before the one at `j`: it ranks lower, or alike and
/// came first.
pub open spec fn belongs_before<T, O: SortOrder<T>>(
    items: Seq<T>,
    order: O,
    i: usize,
    j: usize,
) -> bool {
    &&& order.le(items[i as int], items[j as int])
    &&& order.le(items[j as int], items[i as int]) ==> i < j
}

/// Every two positions stand in the order of their items, those of items that
/// rank alike in their own order.
pub open spec fn in_stable_order<T, O: SortOrder<T>>(
    items: Seq<T>,
    order: O,
    positions: Seq<usize>,
) -> bool {
    forall|a: int, b: int|
        #![trigger positions[a], positions[b]]
        0 <= a < b < positions.len() ==> belongs_before(items, order, positions[a], positions[b])
}

/// `positions` is the stable sort of `items`.
pub open spec fn is_stable_sort<T, O: SortOrder<T>>(
    items: Seq<T>,
    order: O,
    positions: Seq<usize>,
) -> bool {
    &&& is_arrangement(positions, items.len())
    &&& in_stable_order(items, order, positions)
}

/// `items` taken in the order that `positions` gives.
pub open spec fn arranged<T>(items: Seq<T>, positions: Seq<usize>) -> Seq<T> {
    Seq::new(positions.len(), |i: int| items[positions[i] as int])
}

/// `positions` lists each of `lo..hi` once.
spec fn covers(positions: Seq<usize>, lo: int, hi: int) -> bool {
    &&& positions.len() == hi - lo
    &&& positions.no_duplicates()
    &&& forall|i: int| 0 <= i < positions.len() ==> lo <= #[trigger] positions[i] < hi
}

proof fn lemma_belongs_transitive<T, O: SortOrder<T>>(
    items: Seq<T>,
    order: O,
    i: usize,
    j: usize,
    k: usize,
)
    requires
        belongs_before(items, order, i, j),
        belongs_before(items, order, j, k),
    ensures
        belongs_before(items, order, i, k),
{
    let (a, b, c) = (items[i as int], items[j as int], items[k as int]);
    order.transitive(a, b, c);
    if order.le(c, a) {
        order.transitive(b, c, a);
        order.transitive(c, a, b);
    }
}

/// Merges two sorted lists, the first of positions below those of the second.
fn merge<T, O: SortOrder<T>>(
    items: &Vec<T>,
    order: &O,
    left: &Vec<usize>,
    right: &Vec<usize>,
    Ghost(lo): Ghost<int>,
    Ghost(mid): Ghost<int>,
    Ghost(hi): Ghost<int>,
) -> (out: Vec<usize>)
    requires
        0 <= lo <= mid <= hi <= items@.len(),
        covers(left@, lo, mid),
        covers(right@, mid, hi),
        in_stable_order(items@, *order, left@),
        in_stable_order(items@, *order, right@),
    ensures
        covers(out@, lo, hi),
        in_stable_order(items@, *order, out@),
{
    let mut out: Vec<usize> = Vec::new();
    let mut l: usize = 0;
    let mut r: usize = 0;
    while l < left.len() || r < right.len()
        invariant
            0 <= lo <= mid <= hi <= items@.len(),
            covers(left@, lo, mid),
            covers(right@, mid, hi),
            in_stable_order(items@, *order, left@),
            in_stable_order(items@, *order, right@),
            l <= left@.len(),
            r <= right@.len(),
            out@.len() == l + r,
            out@.no_duplicates(),
            in_stable_order(items@, *order, out@),
            forall|i: int| 0 <= i < out@.len() ==> lo <= #[trigger] out@[i] < hi,
            forall|i: int, j: int|
                #![trigger out@[i], left@[j]]
                0 <= i < out@.len() && l <= j < left@.len() ==> out@[i] != left@[j]
                    && belongs_before(items@, *order, out@[i], left@[j]),
            forall|i: int, j: int|
                #![trigger out@[i], right@[j]]
                0 <= i < out@.len() && r <= j < right@.len() ==> out@[i] != right@[j]
                    && belongs_before(items@, *order, out@[i], right@[j]),
        decreases left@.len() - l + right@.len() - r,
    {
        let take_left: bool = if l >= left.len() {
            false
        } else if r >= right.len() {
            true
        } else {
            order.ranks_before(&items[left[l]], &items[right[r]])
        };
        let ghost before: Seq<usize> = out@;
        if take_left {
            proof {
                assert forall|j: int| r <= j < right@.len() implies belongs_before(
                    items@,
                    *order,
                    left@[l as int],
                    #[trigger] right@[j],
                ) by {
                    assert(belongs_before(items@, *order, left@[l as int], right@[r as int]));
                    if r < j {
                        lemma_belongs_transitive(
                            items@,
                            *order,
                            left@[l as int],
                            right@[r as int],
                            right@[j],
                        );
                    }
                }
            }
            out.push(left[l]);
            l = l + 1;
            assert(out@ == before.push(left@[l - 1]));
        } else {
            proof {
                if l < left@.len() {
                    order.total(items@[left@[l as int] as int], items@[right@[r as int] as int]);
                }
                assert forall|j: int| l <= j < left@.len() implies belongs_before(
                    items@,
                    *order,
                    right@[r as int],
                    #[trigger] left@[j],
                ) by {
                    assert(belongs_before(items@, *order, right@[r as int], left@[l as int]));
                    if l < j {
                        lemma_belongs_transitive(
                            items@,
                            *order,
                            right@[r as int],
                            left@[l as int],
                            left@[j],
                        );
                    }
                }
            }
            out.push(right[r]);
            r = r + 1;
            assert(out@ == before.push(right@[r - 1]));
        }
    }
    out
}

fn sort_range<T, O: SortOrder<T>>(items: &Vec<T>, order: &O, lo: usize, hi: usize) -> (out: Vec<
    usize,
>)
    requires
        lo <= hi <= items@.len(),
    ensures
        covers(out@, lo as int, hi as int),
        in_stable_order(items@, *order, out@),
    decreases hi - lo,
{
    if hi - lo <= 1 {
        let mut out: Vec<usize> = Vec::new();
        if lo < hi {
            out.push(lo);
        }
        out
    } else {
        let mid: usize = lo + (hi - lo) / 2;
        let left = sort_range(items, order, lo, mid);
        let right = sort_range(items, order, mid, hi);
        merge(
            items,
            order,
            &left,
            &right,
            Ghost(lo as int),
            Ghost(mid as int),
            Ghost(hi as int),
        )
    }
}

/// The positions of `items` in sorted order; items that rank alike keep the
/// order in which they came.
pub fn stable_sort<T, O: SortOrder<T>>(items: &Vec<T>, order: &O) -> (positions: Vec<usize>)
    ensures
        is_stable_sort(items@, *order, positions@),
{
    sort_range(items, order, 0, items.len())
}

/// A list has one stable sort only.
pub proof fn law_stable_sort_unique<T, O: SortOrder<T>>(
    items: Seq<T>,
    order: O,
    p: Seq<usize>,
    q: Seq<usize>,
)
    requires
        is_stable_sort(items, order, p),
        is_stable_sort(items, order, q),
    ensures
        p == q,
{
    let n = items.len();
    assert forall|k: int| 0 <= k <= n implies #[trigger] p.take(k) == q.take(k) by {
        lemma_same_prefix(items, order, p, q, k);
    }
    assert(p.take(n as int) == p);
    assert(q.take(n as int) == q);
}

/// An arrangement of `0..n` holds each of them.
pub proof fn lemma_arrangement_holds(p: Seq<usize>, n: nat, x: usize)
    requires
        is_arrangement(p, n),
        x < n,
    ensures
        p.contains(x),
{
    let image = p.map_values(|u: usize| u as int);
    assert(image.no_duplicates());
    image.unique_seq_to_set();
    let range = vstd::set_lib::set_int_range(0, n as int);
    vstd::set_lib::lemma_int_range(0, n as int);
    assert(image.to_set().subset_of(range));
    vstd::set_lib::lemma_subset_equality(image.to_set(), range);
    assert(range.contains(x as int));
    assert(image.to_set().contains(x as int));
    let i = choose|i: int| 0 <= i < image.len() && image[i] == x as int;
    assert(p[i] == x);
}

proof fn lemma_same_prefix<T, O: SortOrder<T>>(
    items: Seq<T>,
    order: O,
    p: Seq<usize>,
    q: Seq<usize>,
    k: int,
)
    requires
        is_stable_sort(items, order, p),
        is_stable_sort(items, order, q),
        0 <= k <= items.len(),
    ensures
        p.take(k) == q.take(k),
    decreases k,
{
    if k > 0 {
        let j = k - 1;
        lemma_same_prefix(items, order, p, q, j);
        assert forall|i: int| 0 <= i < j implies p[i] == q[i] by {
            assert(p.take(j)[i] == q.take(j)[i]);
        }
        lemma_arrangement_holds(q, items.len(), p[j]);
        lemma_arrangement_holds(p, items.len(), q[j]);
        let a = choose|a: int| 0 <= a < q.len() && q[a] == p[j];
        let b = choose|b: int| 0 <= b < p.len() && p[b] == q[j];
        if p[j] != q[j] {
            assert(a > j) by {
                if a < j {
                    assert(p[a] == q[a]);
                }
            }
            assert(b > j) by {
                if b < j {
                    assert(p[b] == q[b]);
                }
            }
            assert(belongs_before(items, order, p[j], p[b]));
            assert(belongs_before(items, order, q[j], q[a]));
        }
        assert(p.take(k) =~= p.take(j).push(p[j]));
        assert(q.take(k) =~= q.take(j).push(q[j]));
    }
}

/// A stable sort takes every item once, in rising order, and items that rank
/// alike in the order in which they came.
pub proof fn law_stable_sort_rises<T, O: SortOrder<T>>(items: Seq<T>, order: O, p: Seq<usize>)
    requires
        is_stable_sort(items, order, p),
    ensures
        p.len() == items.len(),
        p.no_duplicates(),
        forall|i: int| 0 <= i < p.len() ==> #[trigger] p[i] < items.len(),
        forall|i: int, j: int|
            #![trigger p[i], p[j]]
            0 <= i < j < p.len() ==> order.le(items[p[i] as int], items[p[j] as int]) && (order.le(
                items[p[j] as int],
                items[p[i] as int],
            ) ==> p[i] < p[j]),
        arranged(items, p).len() == items.len(),
        forall|i: int| 0 <= i < p.len() ==> #[trigger] arranged(items, p)[i] == items[p[i] as int],
{
    assert forall|i: int, j: int|
        #![trigger p[i], p[j]]
        0 <= i < j < p.len() implies order.le(items[p[i] as int], items[p[j] as int]) && (order.le(
        items[p[j] as int],
        items[p[i] as int],
    ) ==> p[i] < p[j]) by {
        assert(belongs_before(items, order, p[i], p[j]));
    }
}

} // verus!
