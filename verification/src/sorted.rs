//! A vector kept sorted by a total order: the min-queue behind the deadline
//! schedules, and the sort behind canonical intent orders.
use vstd::prelude::*;

verus! {

/// A total order on entries.
pub trait KeyOrder: Sized + Copy {
    /// `self` comes no later than `other`.
    spec fn key_le(self, other: Self) -> bool;

    fn key_le_exec(&self, other: &Self) -> (r: bool)
        ensures
            r == self.key_le(*other),
    ;

    proof fn lemma_key_le_total(a: Self, b: Self)
        ensures
            a.key_le(b) || b.key_le(a),
    ;

    proof fn lemma_key_le_trans(a: Self, b: Self, c: Self)
        requires
            a.key_le(b),
            b.key_le(c),
        ensures
            a.key_le(c),
    ;

    proof fn lemma_key_le_antisym(a: Self, b: Self)
        requires
            a.key_le(b),
            b.key_le(a),
        ensures
            a == b,
    ;
}

/// `s` is in nondecreasing order.
pub open spec fn sorted_by_key<T: KeyOrder>(s: Seq<T>) -> bool {
    forall|i: int, j: int| 0 <= i < j < s.len() ==> (#[trigger] s[i]).key_le(#[trigger] s[j])
}

/// A min-queue: its entries in nondecreasing order, the least first.
pub struct SortedQueue<T> {
    items: Vec<T>,
}

impl<T: KeyOrder> SortedQueue<T> {
    /// The entries, earliest first.
    pub closed spec fn entries(&self) -> Seq<T> {
        self.items@
    }

    pub open spec fn wf(&self) -> bool {
        sorted_by_key(self.entries())
    }

    pub fn new() -> (r: Self)
        ensures
            r.wf(),
            r.entries() == Seq::<T>::empty(),
    {
        SortedQueue { items: Vec::new() }
    }

    pub fn len(&self) -> (r: usize)
        ensures
            r == self.entries().len(),
    {
        self.items.len()
    }

    /// The earliest entry.
    pub fn peek(&self) -> (r: Option<T>)
        ensures
            r == (if self.entries().len() == 0 {
                None
            } else {
                Some(self.entries()[0])
            }),
    {
        if self.items.len() == 0 {
            None
        } else {
            Some(self.items[0])
        }
    }

    /// Adds `e` at its place in the order.
    pub fn push(&mut self, e: T)
        requires
            old(self).wf(),
        ensures
            final(self).wf(),
            exists|k: int|
                0 <= k <= old(self).entries().len() && final(self).entries() == old(
                    self,
                ).entries().insert(k, e),
    {
        let ghost before = self.items@;
        let mut k: usize = 0;
        while k < self.items.len() && self.items[k].key_le_exec(&e)
            invariant
                self.items@ == before,
                sorted_by_key(before),
                k <= before.len(),
                forall|i: int| 0 <= i < k ==> (#[trigger] before[i]).key_le(e),
            decreases before.len() - k,
        {
            k = k + 1;
        }
        proof {
            if k < before.len() {
                T::lemma_key_le_total(before[k as int], e);
            }
        }
        self.items.insert(k, e);
        proof {
            let after = self.items@;
            assert(after == before.insert(k as int, e));
            assert forall|i: int, j: int| 0 <= i < j < after.len() implies (
            #[trigger] after[i]).key_le(#[trigger] after[j]) by {
                if j < k {
                    assert(after[i] == before[i] && after[j] == before[j]);
                } else if j == k {
                    assert(after[i] == before[i]);
                } else if i == k {
                    assert(after[j] == before[j - 1]);
                    if j - 1 > k {
                        T::lemma_key_le_trans(e, before[k as int], before[j - 1]);
                    }
                } else if i < k {
                    assert(after[i] == before[i] && after[j] == before[j - 1]);
                } else {
                    assert(after[i] == before[i - 1] && after[j] == before[j - 1]);
                }
            }
            assert(self.entries() == old(self).entries().insert(k as int, e));
        }
    }

    /// The entry at position `i`.
    pub fn entries_at(&self, i: usize) -> (r: T)
        requires
            i < self.entries().len(),
        ensures
            r == self.entries()[i as int],
    {
        self.items[i]
    }

    /// Removes and returns the earliest entry.
    pub fn pop_first(&mut self) -> (r: T)
        requires
            old(self).wf(),
            old(self).entries().len() > 0,
        ensures
            final(self).wf(),
            r == old(self).entries()[0],
            final(self).entries() == old(self).entries().drop_first(),
    {
        let r = self.items.remove(0);
        proof {
            assert(self.items@ =~= old(self).items@.drop_first());
            let s = self.items@;
            assert forall|i: int, j: int| 0 <= i < j < s.len() implies (#[trigger] s[i]).key_le(
                #[trigger] s[j],
            ) by {
                assert(s[i] == old(self).items@[i + 1] && s[j] == old(self).items@[j + 1]);
            }
        }
        r
    }
}

/// The first entry of a sorted sequence comes no later than any other.
pub proof fn lemma_sorted_first_is_min<T: KeyOrder>(s: Seq<T>, i: int)
    requires
        sorted_by_key(s),
        0 <= i < s.len(),
    ensures
        s[0].key_le(s[i]),
{
    if i > 0 {
        assert(s[0].key_le(s[i]));
    } else {
        T::lemma_key_le_total(s[0], s[0]);
    }
}


/// `s` is strictly increasing: sorted, and no entry repeats.
pub open spec fn strictly_sorted<T: KeyOrder>(s: Seq<T>) -> bool {
    &&& sorted_by_key(s)
    &&& forall|i: int, j: int| 0 <= i < j < s.len() ==> #[trigger] s[i] != #[trigger] s[j]
}

/// Two strictly increasing sequences with the same entries are equal.
pub proof fn lemma_strictly_sorted_unique<T: KeyOrder>(a: Seq<T>, b: Seq<T>)
    requires
        strictly_sorted(a),
        strictly_sorted(b),
        forall|x: T| a.contains(x) <==> b.contains(x),
    ensures
        a == b,
    decreases a.len() + b.len(),
{
    if a.len() == 0 {
        if b.len() > 0 {
            assert(b.contains(b[0]));
        }
        assert(b =~= a);
    } else if b.len() == 0 {
        assert(a.contains(a[0]));
    } else {
        assert(a.contains(a[0]));
        assert(b.contains(b[0]));
        let k = choose|k: int| 0 <= k < b.len() && b[k] == a[0];
        let m = choose|m: int| 0 <= m < a.len() && a[m] == b[0];
        lemma_sorted_first_is_min(a, m);
        lemma_sorted_first_is_min(b, k);
        T::lemma_key_le_antisym(a[0], b[0]);
        let ta = a.drop_first();
        let tb = b.drop_first();
        assert forall|x: T| ta.contains(x) <==> tb.contains(x) by {
            if ta.contains(x) {
                let i = choose|i: int| 0 <= i < ta.len() && ta[i] == x;
                assert(a[i + 1] == x && x != a[0]);
                assert(a.contains(x));
                let j = choose|j: int| 0 <= j < b.len() && b[j] == x;
                assert(j != 0);
                assert(tb[j - 1] == x);
            }
            if tb.contains(x) {
                let i = choose|i: int| 0 <= i < tb.len() && tb[i] == x;
                assert(b[i + 1] == x && x != b[0]);
                assert(b.contains(x));
                let j = choose|j: int| 0 <= j < a.len() && a[j] == x;
                assert(j != 0);
                assert(ta[j - 1] == x);
            }
        }
        assert(strictly_sorted(ta)) by {
            assert forall|i: int, j: int| 0 <= i < j < ta.len() implies (#[trigger] ta[i]).key_le(
                #[trigger] ta[j],
            ) && ta[i] != ta[j] by {
                assert(ta[i] == a[i + 1] && ta[j] == a[j + 1]);
            }
        }
        assert(strictly_sorted(tb)) by {
            assert forall|i: int, j: int| 0 <= i < j < tb.len() implies (#[trigger] tb[i]).key_le(
                #[trigger] tb[j],
            ) && tb[i] != tb[j] by {
                assert(tb[i] == b[i + 1] && tb[j] == b[j + 1]);
            }
        }
        lemma_strictly_sorted_unique(ta, tb);
        assert(a =~= seq![a[0]] + ta);
        assert(b =~= seq![b[0]] + tb);
    }
}


/// A sorted queue holding exactly the entries of `v` (with their multiplicity).
pub fn sorted_from<T: KeyOrder>(v: &Vec<T>) -> (q: SortedQueue<T>)
    ensures
        q.wf(),
        q.entries().len() == v@.len(),
        forall|x: T| q.entries().contains(x) <==> v@.contains(x),
        q.entries().to_multiset() == v@.to_multiset(),
{
    let mut q: SortedQueue<T> = SortedQueue::new();
    proof {
        assert(v@.take(0) =~= Seq::<T>::empty());
        assert(q.entries() =~= Seq::<T>::empty());
    }
    let mut i: usize = 0;
    while i < v.len()
        invariant
            i <= v@.len(),
            q.wf(),
            q.entries().len() == i,
            forall|x: T| q.entries().contains(x) <==> v@.take(i as int).contains(x),
            q.entries().to_multiset() == v@.take(i as int).to_multiset(),
        decreases v@.len() - i,
    {
        let ghost before = q.entries();
        q.push(v[i]);
        proof {
            assert(v@.take(i + 1) =~= v@.take(i as int).push(v@[i as int]));
            let k = choose|k: int| 0 <= k <= before.len() && q.entries() == before.insert(k, v@[i as int]);
            lemma_insert_members(before, k, v@[i as int], v@.take(i as int), v@.take(i + 1));
            vstd::seq_lib::to_multiset_insert(before, k, v@[i as int]);
            vstd::seq_lib::to_multiset_build(v@.take(i as int), v@[i as int]);
        }
        i = i + 1;
    }
    assert(v@.take(v@.len() as int) =~= v@);
    q
}

proof fn lemma_insert_members<T>(before: Seq<T>, k: int, e: T, t0: Seq<T>, t1: Seq<T>)
    requires
        0 <= k <= before.len(),
        forall|x: T| before.contains(x) <==> t0.contains(x),
        t1 == t0.push(e),
    ensures
        forall|x: T| before.insert(k, e).contains(x) <==> t1.contains(x),
{
    let after = before.insert(k, e);
    assert forall|x: T| after.contains(x) <==> t1.contains(x) by {
        if after.contains(x) {
            let j = choose|j: int| 0 <= j < after.len() && after[j] == x;
            if j == k {
                assert(t1[t0.len() as int] == x);
            } else {
                let jj = if j < k {
                    j
                } else {
                    j - 1
                };
                assert(before[jj] == x);
                assert(before.contains(x));
                let m = choose|m: int| 0 <= m < t0.len() && t0[m] == x;
                assert(t1[m] == x);
            }
        }
        if t1.contains(x) {
            let m = choose|m: int| 0 <= m < t1.len() && t1[m] == x;
            if m == t0.len() {
                assert(after[k] == x);
            } else {
                assert(t0[m] == x);
                assert(before.contains(x));
                let j = choose|j: int| 0 <= j < before.len() && before[j] == x;
                if j < k {
                    assert(after[j] == x);
                } else {
                    assert(after[j + 1] == x);
                }
            }
        }
    }
}

} // verus!
