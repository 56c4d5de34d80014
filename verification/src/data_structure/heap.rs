//! # Binary heap and heap-sort
//!
//! A binary max-heap stored in a growable array: the tree structure is
//! implicit in the indices, with the children of position `p` at `2p + 1`
//! and `2p + 2`. Elements are pushed as plain appends; `heap_sort` then
//! builds the max-heap bottom-up and repeatedly moves the maximum of the
//! active region to its final place, sorting the sequence in ascending
//! order in place.

use vstd::prelude::*;
use vstd::pervasive::VecAdditionalExecFns;

verus! {

/// Index of the left child of `p` in the implicit binary tree.
pub open spec fn left(p: int) -> int {
    2 * p + 1
}

/// Index of the right child of `p` in the implicit binary tree.
pub open spec fn right(p: int) -> int {
    2 * p + 2
}

/// The max-heap property over the active region `[0, n)` of `s`, restricted
/// to parents at or above `lo`: every such parent is at least as large as
/// each of its children inside the region.
pub open spec fn heap_from(s: Seq<i64>, n: int, lo: int) -> bool {
    &&& forall|p: int| lo <= p && #[trigger] left(p) < n ==> s[p] >= s[left(p)]
    &&& forall|p: int| lo <= p && #[trigger] right(p) < n ==> s[p] >= s[right(p)]
}

/// The exact effect of sifting the element at `i` down through the active
/// region `[0, n)` of `s`: the candidate becomes the left child when that
/// child is strictly greater than the element at `i`, then the right child
/// when it is strictly greater than the current candidate — so on an exact
/// tie between two greater children the left one wins. While the candidate
/// differs from `i`, the two positions are swapped and the descent continues
/// from the candidate; positions off this single descent path are untouched.
pub open spec fn sift_down(s: Seq<i64>, n: int, i: int) -> Seq<i64>
    decreases n - i,
{
    if i < 0 {
        s
    } else {
        let l = left(i);
        let r = right(i);
        let c1 = if l < n && s[l] > s[i] {
            l
        } else {
            i
        };
        let c = if r < n && s[r] > s[c1] {
            r
        } else {
            c1
        };
        if c == i {
            s
        } else {
            sift_down(s.update(i, s[c]).update(c, s[i]), n, c)
        }
    }
}

/// The whole sequence is in non-descending order.
pub open spec fn sorted(s: Seq<i64>) -> bool {
    forall|p: int, q: int| 0 <= p <= q < s.len() ==> s[p] <= s[q]
}

/// Every pair of positions whose later index is at or beyond `b` is ordered:
/// the suffix from `b` on is sorted and dominates the whole prefix.
pub open spec fn sorted_from(s: Seq<i64>, b: int) -> bool {
    forall|p: int, q: int| 0 <= p <= q < s.len() && b <= q ==> s[p] <= s[q]
}

/// In a heap over `[0, n)`, the root dominates position `k`: following the
/// parent chain from `k` up to the root only increases the value.
proof fn lemma_root_dominates(s: Seq<i64>, n: int, k: int)
    requires
        n <= s.len(),
        heap_from(s, n, 0),
        0 <= k < n,
    ensures
        s[0] >= s[k],
    decreases k,
{
    if k > 0 {
        let p = (k - 1) / 2;
        assert(0 <= p < k);
        assert(k == left(p) || k == right(p));
        assert(s[p] >= s[k]);
        lemma_root_dominates(s, n, p);
    }
}

/// In a heap over `[0, n)`, the root is a maximum of the region.
proof fn lemma_root_max(s: Seq<i64>, n: int)
    requires
        n <= s.len(),
        heap_from(s, n, 0),
    ensures
        forall|k: int| 0 <= k < n ==> s[0] >= #[trigger] s[k],
{
    assert forall|k: int| 0 <= k < n implies s[0] >= #[trigger] s[k] by {
        lemma_root_dominates(s, n, k);
    }
}

/// Writing `s[y]` at `x` and `s[x]` at `y` permutes `s`: the multiset of
/// elements is unchanged.
proof fn lemma_swap_multiset(s: Seq<i64>, x: int, y: int)
    requires
        0 <= x < s.len(),
        0 <= y < s.len(),
    ensures
        s.update(x, s[y]).update(y, s[x]).to_multiset() == s.to_multiset(),
{
    broadcast use vstd::seq_lib::group_to_multiset_ensures;

    let t = s.update(x, s[y]).update(y, s[x]);
    if x == y {
        assert(t =~= s);
        assert(t.to_multiset() =~= s.to_multiset());
    } else {
        let u = s.update(x, s[y]);
        assert(u[y] == s[y]);
        assert(u.to_multiset() == s.to_multiset().insert(s[y]).remove(s[x]));
        assert(t.to_multiset() == u.to_multiset().insert(s[x]).remove(s[y]));
        assert(s.contains(s[x]));
        assert(s.contains(s[y]));
        assert(t.to_multiset() =~= s.to_multiset());
    }
}

/// A swap whose two positions lie inside the window `[lo, hi)` leaves the
/// window's multiset of elements unchanged as well.
proof fn lemma_swap_window_multiset(s: Seq<i64>, x: int, y: int, lo: int, hi: int)
    requires
        0 <= lo <= x < hi <= s.len(),
        lo <= y < hi,
    ensures
        s.update(x, s[y]).update(y, s[x]).subrange(lo, hi).to_multiset()
            == s.subrange(lo, hi).to_multiset(),
{
    let w = s.subrange(lo, hi);
    let t = s.update(x, s[y]).update(y, s[x]);
    assert(t.subrange(lo, hi) =~= w.update(x - lo, w[y - lo]).update(y - lo, w[x - lo]));
    lemma_swap_multiset(w, x - lo, y - lo);
}

/// An upper bound on every element of a sequence carries over to any
/// rearrangement of the same elements.
proof fn lemma_multiset_le(a: Seq<i64>, b: Seq<i64>, x: i64)
    requires
        a.to_multiset() == b.to_multiset(),
        forall|k: int| 0 <= k < a.len() ==> #[trigger] a[k] <= x,
    ensures
        forall|k: int| 0 <= k < b.len() ==> #[trigger] b[k] <= x,
{
    broadcast use vstd::seq_lib::group_to_multiset_ensures;

    assert forall|k: int| 0 <= k < b.len() implies #[trigger] b[k] <= x by {
        assert(b.contains(b[k]));
        assert(b.to_multiset().count(b[k]) > 0);
        assert(a.to_multiset().count(b[k]) > 0);
        assert(a.contains(b[k]));
        let t = choose|t: int| 0 <= t < a.len() && a[t] == b[k];
        assert(a[t] <= x);
    }
}

/// Law: a multiset of elements has exactly one non-descending arrangement.
/// Two sorted sequences made of the same elements are equal, position by
/// position.
pub proof fn lemma_sorted_unique(a: Seq<i64>, b: Seq<i64>)
    requires
        sorted(a),
        sorted(b),
        a.to_multiset() == b.to_multiset(),
    ensures
        a == b,
    decreases a.len(),
{
    broadcast use vstd::seq_lib::group_to_multiset_ensures;

    assert(a.len() == a.to_multiset().len());
    assert(b.len() == b.to_multiset().len());
    if a.len() == 0 {
        assert(a =~= b);
    } else {
        let la = a.last();
        let lb = b.last();
        assert(a.contains(la));
        assert(a.to_multiset().count(la) > 0);
        assert(b.to_multiset().count(la) > 0);
        assert(b.contains(la));
        let ia = choose|t: int| 0 <= t < b.len() && b[t] == la;
        assert(b[ia] <= lb);
        assert(la <= lb);
        assert(b.contains(lb));
        assert(b.to_multiset().count(lb) > 0);
        assert(a.to_multiset().count(lb) > 0);
        assert(a.contains(lb));
        let ib = choose|t: int| 0 <= t < a.len() && a[t] == lb;
        assert(a[ib] <= la);
        assert(lb <= la);
        let a1 = a.drop_last();
        let b1 = b.drop_last();
        assert(a1 =~= a.remove(a.len() - 1));
        assert(b1 =~= b.remove(b.len() - 1));
        assert(a1.to_multiset() == a.to_multiset().remove(la));
        assert(b1.to_multiset() == b.to_multiset().remove(la));
        lemma_sorted_unique(a1, b1);
        assert forall|t: int| 0 <= t < a.len() implies a[t] == b[t] by {
            if t < a.len() - 1 {
                assert(a[t] == a1[t]);
                assert(b[t] == b1[t]);
            } else {
                assert(a[t] == la);
                assert(b[t] == lb);
            }
        }
        assert(a =~= b);
    }
}

/// Law: sorting is idempotent. `heap_sort` promises a sorted permutation of
/// its input, and a multiset has exactly one sorted arrangement, so sorting
/// a second time hands back the first result unchanged.
pub proof fn lemma_heap_sort_idempotent(once: Seq<i64>, twice: Seq<i64>)
    requires
        sorted(once),
        sorted(twice),
        twice.to_multiset() == once.to_multiset(),
    ensures
        twice == once,
{
    lemma_sorted_unique(twice, once);
}

/// A dynamically sized, array-backed binary max-heap over machine integers;
/// the view is the backing sequence in storage order.
#[derive(Debug)]
pub struct Heap {
    data: Vec<i64>,
}

impl View for Heap {
    type V = Seq<i64>;

    closed spec fn view(&self) -> Seq<i64> {
        self.data@
    }
}

impl Heap {
    /// Creates a new empty heap.
    pub fn new() -> (heap: Self)
        ensures
            heap@ == Seq::<i64>::empty(),
    {
        Heap { data: Vec::new() }
    }

    /// Appends an element at the end of the backing sequence. No heap order
    /// is maintained at push time; `heap_sort` establishes it in batch.
    pub fn push(&mut self, element: i64)
        ensures
            final(self)@ == old(self)@.push(element),
    {
        self.data.push(element);
    }

    /// Returns the number of elements currently stored.
    pub fn len(&self) -> (n: usize)
        ensures
            n == self@.len(),
    {
        self.data.len()
    }

    /// Returns the element at position `index` of the backing sequence.
    pub fn get(&self, index: usize) -> (element: i64)
        requires
            index < self@.len(),
        ensures
            element == self@[index as int],
    {
        self.data[index]
    }

    /// Sifts the element at `i` down through the active region `[0, n)`:
    /// the exact result is pinned as `sift_down` of the old sequence, which
    /// fixes every position — the single descent path, the tie-break (on an
    /// exact tie between two greater children the left one is taken), and
    /// that everything off the path is untouched. When every deeper parent
    /// already satisfies the max-heap property, the call restores it at `i`
    /// as well. An `i` with no child inside the boundary — in particular
    /// any `i >= n`, or a boundary of zero — leaves the sequence unchanged.
    pub fn heapify(&mut self, n: usize, i: usize)
        requires
            n <= old(self)@.len(),
            heap_from(old(self)@, n as int, i as int + 1),
        ensures
            final(self)@ == sift_down(old(self)@, n as int, i as int),
            final(self)@.len() == old(self)@.len(),
            heap_from(final(self)@, n as int, i as int),
            forall|j: int|
                0 <= j < final(self)@.len() && !(i <= j < n) ==> final(self)@[j] == old(
                    self,
                )@[j],
            final(self)@.to_multiset() == old(self)@.to_multiset(),
            final(self)@.subrange(i as int, n as int).to_multiset() == old(self)@.subrange(
                i as int,
                n as int,
            ).to_multiset(),
    {
        if i >= n / 2 {
            proof {
                assert(left(i as int) >= n);
                assert(right(i as int) >= n);
                assert(sift_down(self@, n as int, i as int) == self@);
                assert forall|p: int| i <= p && #[trigger] left(p) < n implies self@[p]
                    >= self@[left(p)] by {
                    assert(left(p) >= n);
                }
                assert forall|p: int| i <= p && #[trigger] right(p) < n implies self@[p]
                    >= self@[right(p)] by {
                    assert(right(p) >= n);
                }
            }
            return;
        }
        let ghost orig: Seq<i64> = self@;
        let mut k: usize = i;
        let ghost mut gp: int = 0;
        loop
            invariant
                i <= k < n <= self@.len(),
                self@.len() == orig.len(),
                forall|p: int|
                    i <= p && p != k && #[trigger] left(p) < n ==> self@[p] >= self@[left(p)],
                forall|p: int|
                    i <= p && p != k && #[trigger] right(p) < n ==> self@[p] >= self@[right(p)],
                k > i ==> i <= gp < n && (k as int == left(gp) || k as int == right(gp)),
                k > i ==> self@[gp] >= self@[k as int],
                k > i && left(k as int) < n ==> self@[gp] >= self@[left(k as int)],
                k > i && right(k as int) < n ==> self@[gp] >= self@[right(k as int)],
                forall|j: int| 0 <= j < orig.len() && !(i <= j < n) ==> self@[j] == orig[j],
                self@.to_multiset() == orig.to_multiset(),
                self@.subrange(i as int, n as int).to_multiset() == orig.subrange(
                    i as int,
                    n as int,
                ).to_multiset(),
                sift_down(orig, n as int, i as int) == sift_down(self@, n as int, k as int),
            ensures
                self@ == sift_down(orig, n as int, i as int),
                heap_from(self@, n as int, i as int),
                self@.len() == orig.len(),
                forall|j: int| 0 <= j < orig.len() && !(i <= j < n) ==> self@[j] == orig[j],
                self@.to_multiset() == orig.to_multiset(),
                self@.subrange(i as int, n as int).to_multiset() == orig.subrange(
                    i as int,
                    n as int,
                ).to_multiset(),
            decreases n - k,
        {
            if k >= n / 2 {
                proof {
                    assert(left(k as int) >= n);
                    assert(right(k as int) >= n);
                    assert(sift_down(self@, n as int, k as int) == self@);
                }
                break;
            }
            proof {
                assert(left(k as int) < n);
            }
            let l: usize = 2 * k + 1;
            let r: usize = 2 * k + 2;
            let mut largest: usize = k;
            if self.data[l] > self.data[largest] {
                largest = l;
            }
            if r < n && self.data[r] > self.data[largest] {
                largest = r;
            }
            if largest == k {
                proof {
                    assert(sift_down(self@, n as int, k as int) == self@);
                }
                break;
            }
            let ghost prev: Seq<i64> = self@;
            let a: i64 = self.data[k];
            let b: i64 = self.data[largest];
            self.data.set(k, b);
            self.data.set(largest, a);
            proof {
                assert(self@ =~= prev.update(k as int, prev[largest as int]).update(
                    largest as int,
                    prev[k as int],
                ));
                lemma_swap_multiset(prev, k as int, largest as int);
                lemma_swap_window_multiset(prev, k as int, largest as int, i as int, n as int);
                assert(sift_down(prev, n as int, k as int) == sift_down(
                    self@,
                    n as int,
                    largest as int,
                ));
                gp = k as int;
            }
            k = largest;
        }
    }

    /// Sorts the backing sequence in place, ascending, using heap-sort: a
    /// bottom-up heap construction pass followed by repeated extraction of
    /// the maximum to the tail of the shrinking active region. The result
    /// is the non-descending rearrangement of the elements pushed so far;
    /// zero or one elements are left untouched.
    pub fn heap_sort(&mut self)
        ensures
            final(self)@.len() == old(self)@.len(),
            sorted(final(self)@),
            final(self)@.to_multiset() == old(self)@.to_multiset(),
            old(self)@.len() <= 1 ==> final(self)@ == old(self)@,
    {
        let n: usize = self.data.len();
        if n <= 1 {
            return;
        }
        let ghost orig: Seq<i64> = self@;
        let mut i: usize = n / 2;
        proof {
            assert forall|p: int| n as int / 2 <= p && #[trigger] left(p) < n implies self@[p]
                >= self@[left(p)] by {
                assert(left(p) >= n);
            }
            assert forall|p: int| n as int / 2 <= p && #[trigger] right(p) < n implies self@[p]
                >= self@[right(p)] by {
                assert(right(p) >= n);
            }
        }
        while i > 0
            invariant
                i <= n,
                n == self@.len(),
                self@.len() == orig.len(),
                heap_from(self@, n as int, i as int),
                self@.to_multiset() == orig.to_multiset(),
            decreases i,
        {
            i = i - 1;
            self.heapify(n, i);
        }
        let mut j: usize = n;
        while j > 1
            invariant
                1 <= j <= n,
                n == self@.len(),
                self@.len() == orig.len(),
                heap_from(self@, j as int, 0),
                sorted_from(self@, j as int),
                self@.to_multiset() == orig.to_multiset(),
            decreases j,
        {
            j = j - 1;
            let ghost prev: Seq<i64> = self@;
            proof {
                lemma_root_max(prev, j as int + 1);
            }
            let a: i64 = self.data[0];
            let b: i64 = self.data[j];
            self.data.set(0, b);
            self.data.set(j, a);
            proof {
                assert(self@ =~= prev.update(0, prev[j as int]).update(j as int, prev[0]));
                lemma_swap_multiset(prev, 0, j as int);
                assert forall|p: int, q: int|
                    0 <= p <= q < self@.len() && j as int <= q implies self@[p] <= self@[q] by {
                    if q == j as int {
                        assert(self@[q] == prev[0]);
                    } else {
                        assert(self@[q] == prev[q]);
                        if p == 0 {
                            assert(prev[j as int] <= prev[q]);
                        } else if p == j as int {
                            assert(prev[0] <= prev[q]);
                        }
                    }
                }
            }
            let ghost mid: Seq<i64> = self@;
            self.heapify(j, 0);
            proof {
                lemma_multiset_le(
                    mid.subrange(0, j as int),
                    self@.subrange(0, j as int),
                    mid[j as int],
                );
                assert forall|p: int, q: int|
                    0 <= p <= q < self@.len() && j as int <= q implies self@[p] <= self@[q] by {
                    assert(self@[q] == mid[q]);
                    if p < j as int {
                        assert(self@.subrange(0, j as int)[p] == self@[p]);
                        assert(self@[p] <= mid[j as int]);
                        assert(mid[j as int] <= mid[q]);
                    } else {
                        assert(self@[p] == mid[p]);
                    }
                }
            }
        }
    }
}

} // verus!
