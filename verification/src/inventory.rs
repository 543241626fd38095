//! A player's inventory: how many of each item the player holds, the
//! selected item, and the quick bar of the small inventory window; and what
//! the admin give commands do to it.
use vstd::prelude::*;
use vstd::string::StringExecFns;
use crate::text::{push_decimal_i32, push_decimal_u64, spec_decimal};

verus! {

/// Whether `k` is the item of some entry.
pub open spec fn holds(items: Seq<(i32, i32)>, k: i32) -> bool {
    exists|i: int| 0 <= i < items.len() && (#[trigger] items[i]).0 == k
}

/// How many of item `k` the entries give: the count of its entry, 0 without one.
pub open spec fn count_in(items: Seq<(i32, i32)>, k: i32) -> int {
    if holds(items, k) {
        items[choose|i: int| 0 <= i < items.len() && (#[trigger] items[i]).0 == k].1 as int
    } else {
        0
    }
}

/// No item has two entries.
pub open spec fn distinct_items(items: Seq<(i32, i32)>) -> bool {
    forall|i: int, j: int| 0 <= i < j < items.len() ==> (#[trigger] items[i]).0 != (#[trigger] items[j]).0
}

/// The quick bar shows the (at most four) smallest items held, ascending.
pub open spec fn is_first_four(bar: Seq<i32>, items: Seq<(i32, i32)>) -> bool {
    &&& bar.len() <= 4
    &&& forall|i: int, j: int| 0 <= i < j < bar.len() ==> bar[i] < bar[j]
    &&& forall|i: int| 0 <= i < bar.len() ==> holds(items, #[trigger] bar[i])
    &&& forall|k: i32| #[trigger] holds(items, k) ==> bar.contains(k) || (bar.len() == 4 && bar[3] < k)
}

/// The items every admin `giveall` hands out: ids `0..=50`.
pub const GIVEALL_LAST_ITEM: i32 = 50;

/// How many of each item `giveall` hands out.
pub const GIVEALL_ITEM_COUNT: i32 = 10;

/// Money and credits that `giveall` adds.
pub const GIVEALL_MONEY: i64 = 1_000_000;

pub const GIVEALL_CREDS: i64 = 100_000;

/// A player's inventory.
pub struct PlayerInventory {
    /// Item id and count, one entry per item.
    pub items: Vec<(i32, i32)>,
    /// The selected item, `-1` for none.
    pub selected: i32,
    /// Whether the small window (with the quick bar) is shown.
    pub minv: bool,
    /// The items on the quick bar.
    pub miniq: Vec<i32>,
}

/// The index of the entry of item `k`.
fn find_item(items: &Vec<(i32, i32)>, k: i32) -> (r: Option<usize>)
    ensures
        r is None ==> !holds(items@, k),
        r matches Some(i) ==> i < items@.len() && items@[i as int].0 == k,
{
    let mut i: usize = 0;
    while i < items.len()
        invariant
            i <= items@.len(),
            forall|j: int| 0 <= j < i ==> (#[trigger] items@[j]).0 != k,
        decreases items@.len() - i,
    {
        if items[i].0 == k {
            return Some(i);
        }
        i = i + 1;
    }
    None
}

proof fn lemma_count_of_entry(items: Seq<(i32, i32)>, i: int)
    requires
        distinct_items(items),
        0 <= i < items.len(),
    ensures
        holds(items, items[i].0),
        count_in(items, items[i].0) == items[i].1,
{
    let c = choose|k: int| 0 <= k < items.len() && (#[trigger] items[k]).0 == items[i].0;
    if c != i {
        if c < i {
            assert(items[c].0 != items[i].0);
        } else {
            assert(items[i].0 != items[c].0);
        }
    }
}

impl PlayerInventory {
    pub open spec fn wf(&self) -> bool {
        distinct_items(self.items@)
    }

    /// How many of item `k` the player holds.
    pub open spec fn count(&self, k: i32) -> int {
        count_in(self.items@, k)
    }

    /// Whether the player has an entry for item `k`.
    pub open spec fn has(&self, k: i32) -> bool {
        holds(self.items@, k)
    }

    /// Adds `amount` of item `k` (an entry is made for it when there is none).
    pub fn add_item(&mut self, k: i32, amount: i32)
        requires
            old(self).wf(),
            i32::MIN <= old(self).count(k) + amount <= i32::MAX,
        ensures
            final(self).wf(),
            final(self).has(k),
            final(self).count(k) == old(self).count(k) + amount,
            forall|j: i32| j != k ==> #[trigger] holds(final(self).items@, j) == holds(old(self).items@, j) && count_in(
                final(self).items@,
                j,
            ) == count_in(old(self).items@, j),
            final(self).selected == old(self).selected,
            final(self).minv == old(self).minv,
            final(self).miniq@ == old(self).miniq@,
    {
        let ghost before = self.items@;
        match find_item(&self.items, k) {
            Some(i) => {
                proof {
                    lemma_count_of_entry(before, i as int);
                }
                let c = self.items[i].1;
                self.items.set(i, (k, c + amount));
                proof {
                    let after = self.items@;
                    assert(distinct_items(after)) by {
                        assert forall|a: int, b: int| 0 <= a < b < after.len() implies (#[trigger] after[a]).0
                            != (#[trigger] after[b]).0 by {
                            assert(before[a].0 != before[b].0);
                        }
                    }
                    lemma_count_of_entry(after, i as int);
                    assert forall|j: i32| j != k implies #[trigger] holds(after, j) == holds(before, j) && count_in(after, j)
                        == count_in(before, j) by {
                        if holds(before, j) {
                            let q = choose|q: int| 0 <= q < before.len() && (#[trigger] before[q]).0 == j;
                            assert(after[q] == before[q]);
                            lemma_count_of_entry(before, q);
                            lemma_count_of_entry(after, q);
                        } else {
                            assert forall|q: int| 0 <= q < after.len() implies (#[trigger] after[q]).0 != j by {
                                if q != i {
                                    assert(after[q] == before[q]);
                                }
                            }
                        }
                    }
                }
            },
            None => {
                self.items.push((k, amount));
                proof {
                    let after = self.items@;
                    assert(distinct_items(after)) by {
                        assert forall|a: int, b: int| 0 <= a < b < after.len() implies (#[trigger] after[a]).0
                            != (#[trigger] after[b]).0 by {
                            assert(after[a] == before[a]);
                            if b < before.len() {
                                assert(after[b] == before[b]);
                            }
                        }
                    }
                    lemma_count_of_entry(after, before.len() as int);
                    assert forall|j: i32| j != k implies #[trigger] holds(after, j) == holds(before, j) && count_in(after, j)
                        == count_in(before, j) by {
                        if holds(before, j) {
                            let q = choose|q: int| 0 <= q < before.len() && (#[trigger] before[q]).0 == j;
                            assert(after[q] == before[q]);
                            lemma_count_of_entry(before, q);
                            lemma_count_of_entry(after, q);
                        } else {
                            assert forall|q: int| 0 <= q < after.len() implies (#[trigger] after[q]).0 != j by {
                                if q < before.len() {
                                    assert(after[q] == before[q]);
                                }
                            }
                        }
                    }
                }
            },
        }
    }

    /// The smallest item held that is above `bound` (any item when `None`).
    fn smallest_item_above(&self, bound: Option<i32>) -> (r: Option<i32>)
        ensures
            r matches Some(k) ==> holds(self.items@, k) && (bound matches Some(b) ==> b < k) && forall|j: i32|
                #[trigger] holds(self.items@, j) && (bound matches Some(b) ==> b < j) ==> k <= j,
            r is None ==> forall|j: i32| #[trigger] holds(self.items@, j) ==> (bound matches Some(b) && j <= b),
    {
        let mut best: Option<i32> = None;
        let mut i: usize = 0;
        while i < self.items.len()
            invariant
                i <= self.items@.len(),
                best matches Some(k) ==> holds(self.items@, k) && (bound matches Some(b) ==> b < k),
                forall|q: int| 0 <= q < i ==> ((bound matches Some(b) ==> b < (#[trigger] self.items@[q]).0) ==> (best
                    matches Some(k) && k <= self.items@[q].0)),
            decreases self.items@.len() - i,
        {
            let k = self.items[i].0;
            let above = match bound {
                Some(b) => b < k,
                None => true,
            };
            if above {
                match best {
                    Some(cur) => {
                        if k < cur {
                            best = Some(k);
                        }
                    },
                    None => {
                        best = Some(k);
                    },
                }
            }
            i = i + 1;
        }
        proof {
            assert forall|j: i32| #[trigger] holds(self.items@, j) && (bound matches Some(b) ==> b < j) implies (best
                matches Some(k) && k <= j) by {
                let q = choose|q: int| 0 <= q < self.items@.len() && (#[trigger] self.items@[q]).0 == j;
            }
        }
        best
    }

    /// Puts the (at most four) smallest items held on the quick bar.
    pub fn refill_quick_bar(&mut self)
        requires
            old(self).wf(),
        ensures
            final(self).wf(),
            is_first_four(final(self).miniq@, final(self).items@),
            final(self).items@ == old(self).items@,
            final(self).selected == old(self).selected,
            final(self).minv == old(self).minv,
    {
        let mut bar: Vec<i32> = Vec::new();
        let mut done = false;
        while bar.len() < 4 && !done
            invariant
                bar@.len() <= 4,
                forall|i: int, j: int| 0 <= i < j < bar@.len() ==> bar@[i] < bar@[j],
                forall|i: int| 0 <= i < bar@.len() ==> holds(self.items@, #[trigger] bar@[i]),
                forall|k: i32| #[trigger] holds(self.items@, k) ==> bar@.contains(k) || (bar@.len() > 0 && bar@.last() < k)
                    || (bar@.len() == 0 && !done),
                done ==> forall|k: i32| #[trigger] holds(self.items@, k) ==> bar@.contains(k),
            decreases 4 - bar@.len(), if done { 0int } else { 1int },
        {
            let bound = if bar.len() == 0 {
                None
            } else {
                Some(bar[bar.len() - 1])
            };
            match self.smallest_item_above(bound) {
                Some(k) => {
                    let ghost old_bar = bar@;
                    bar.push(k);
                    proof {
                        assert(bar@.last() == k);
                        assert forall|j: i32| #[trigger] holds(self.items@, j) implies bar@.contains(j) || bar@.last() < j by {
                            if old_bar.contains(j) {
                                let q = choose|q: int| 0 <= q < old_bar.len() && old_bar[q] == j;
                                assert(bar@[q] == j);
                                assert(bar@.contains(j));
                            } else if j == k {
                                assert(bar@[old_bar.len() as int] == j);
                                assert(bar@.contains(j));
                            } else {
                                assert(old_bar.len() > 0 ==> bound == Some(old_bar.last()));
                            }
                        }
                    }
                },
                None => {
                    done = true;
                    proof {
                        assert forall|j: i32| #[trigger] holds(self.items@, j) implies bar@.contains(j) by {
                            assert(bar@.len() > 0 ==> bound == Some(bar@.last()));
                        }
                    }
                },
            }
        }
        self.miniq = bar;
        proof {
            assert forall|k: i32| #[trigger] holds(self.items@, k) implies self.miniq@.contains(k) || (self.miniq@.len() == 4
                && self.miniq@[3] < k) by {
                if !done && !self.miniq@.contains(k) {
                    assert(self.miniq@.len() == 4);
                    assert(self.miniq@.last() == self.miniq@[3]);
                }
            }
        }
    }
}

/// Whether adding `GIVEALL_ITEM_COUNT` of each item `0..=50` stays within `i32`.
pub open spec fn giveall_fits(inv: PlayerInventory) -> bool {
    forall|k: i32| 0 <= k <= GIVEALL_LAST_ITEM ==> #[trigger] inv.count(k) + GIVEALL_ITEM_COUNT <= i32::MAX
}

/// The admin `giveall` on the inventory: ten more of every item `0..=50`,
/// the small window shown, and the quick bar refilled with the four
/// smallest items held.
pub fn give_all_items(inv: &mut PlayerInventory)
    requires
        old(inv).wf(),
        giveall_fits(*old(inv)),
    ensures
        final(inv).wf(),
        forall|k: i32| 0 <= k <= GIVEALL_LAST_ITEM ==> #[trigger] final(inv).has(k) && final(inv).count(k)
            == old(inv).count(k) + GIVEALL_ITEM_COUNT,
        forall|k: i32| !(0 <= k <= GIVEALL_LAST_ITEM) ==> #[trigger] final(inv).has(k) == old(inv).has(k)
            && final(inv).count(k) == old(inv).count(k),
        final(inv).minv,
        final(inv).selected == old(inv).selected,
        is_first_four(final(inv).miniq@, final(inv).items@),
{
    let ghost start = *inv;
    let mut id: i32 = 0;
    while id <= GIVEALL_LAST_ITEM
        invariant
            0 <= id <= GIVEALL_LAST_ITEM + 1,
            inv.wf(),
            inv.selected == start.selected,
            giveall_fits(start),
            forall|k: i32| 0 <= k < id ==> #[trigger] holds(inv.items@, k) && count_in(inv.items@, k) == count_in(start.items@, k)
                + GIVEALL_ITEM_COUNT,
            forall|k: i32| !(0 <= k < id) ==> #[trigger] holds(inv.items@, k) == holds(start.items@, k) && count_in(inv.items@, k)
                == count_in(start.items@, k),
        decreases GIVEALL_LAST_ITEM + 1 - id,
    {
        proof {
            assert(holds(inv.items@, id) == holds(start.items@, id));
            assert(inv.count(id) == start.count(id));
            assert(start.count(id) + GIVEALL_ITEM_COUNT <= i32::MAX);
            assert(start.count(id) >= i32::MIN) by {
                if start.has(id) {
                    let q = choose|q: int| 0 <= q < start.items@.len() && (#[trigger] start.items@[q]).0 == id;
                }
            }
        }
        inv.add_item(id, GIVEALL_ITEM_COUNT);
        id = id + 1;
    }
    inv.minv = true;
    inv.refill_quick_bar();
    proof {
        assert forall|k: i32| 0 <= k <= GIVEALL_LAST_ITEM implies #[trigger] inv.has(k) && inv.count(k) == start.count(k)
            + GIVEALL_ITEM_COUNT by {
            assert(holds(inv.items@, k));
        }
        assert forall|k: i32| !(0 <= k <= GIVEALL_LAST_ITEM) implies #[trigger] inv.has(k) == start.has(k) && inv.count(k)
            == start.count(k) by {
            assert(holds(inv.items@, k) == holds(start.items@, k));
        }
    }
}

/// The admin `giveall` on money and credits: both raised, saturating.
pub fn give_all_money(money: i64, creds: i64) -> (r: (i64, i64))
    ensures
        r.0 == (if money + GIVEALL_MONEY > i64::MAX { i64::MAX as int } else { money + GIVEALL_MONEY }),
        r.1 == (if creds + GIVEALL_CREDS > i64::MAX { i64::MAX as int } else { creds + GIVEALL_CREDS }),
{
    let m = if money > i64::MAX - GIVEALL_MONEY {
        i64::MAX
    } else {
        money + GIVEALL_MONEY
    };
    let c = if creds > i64::MAX - GIVEALL_CREDS {
        i64::MAX
    } else {
        creds + GIVEALL_CREDS
    };
    (m, c)
}


/// `ks` lists the items held, each once, in increasing order.
pub open spec fn sorted_items_of(ks: Seq<i32>, items: Seq<(i32, i32)>) -> bool {
    &&& forall|i: int, j: int| 0 <= i < j < ks.len() ==> ks[i] < ks[j]
    &&& forall|k: i32| ks.contains(k) <==> holds(items, k)
}

/// How many of `ks` are on the quick bar `bar`.
pub open spec fn count_on_bar(ks: Seq<i32>, bar: Seq<i32>) -> nat
    decreases ks.len(),
{
    if ks.len() == 0 {
        0
    } else {
        count_on_bar(ks.drop_last(), bar) + if bar.contains(ks.last()) {
            1nat
        } else {
            0nat
        }
    }
}

/// The items the small window shows out of the held items `ks` (in
/// increasing order): every item on the quick bar `bar`, and the smallest
/// other items while fewer than four are shown.
pub open spec fn shown_items(ks: Seq<i32>, bar: Seq<i32>, quota: nat) -> Seq<i32>
    decreases ks.len(),
{
    if ks.len() == 0 {
        Seq::empty()
    } else {
        let prev = shown_items(ks.drop_last(), bar, quota);
        let others = (ks.drop_last().len() - count_on_bar(ks.drop_last(), bar)) as nat;
        if bar.contains(ks.last()) || others < quota {
            prev.push(ks.last())
        } else {
            prev
        }
    }
}

/// How many items besides those on the bar the small window adds.
pub open spec fn fill_quota(ks: Seq<i32>, bar: Seq<i32>) -> nat {
    if count_on_bar(ks, bar) < 4 {
        (4 - count_on_bar(ks, bar)) as nat
    } else {
        0
    }
}

/// `id#count` of each item of `ks`, `#`-separated.
pub open spec fn entries_text(ks: Seq<i32>, items: Seq<(i32, i32)>) -> Seq<char>
    decreases ks.len(),
{
    if ks.len() == 0 {
        Seq::empty()
    } else {
        let prev = entries_text(ks.drop_last(), items);
        let sep = if ks.len() > 1 {
            "#"@
        } else {
            Seq::empty()
        };
        prev + sep + spec_decimal(ks.last() as int) + "#"@ + spec_decimal(count_in(items, ks.last()))
    }
}

/// The inventory as the client's inventory window reads it, given the held
/// items in increasing order `ks`: the small window
/// `show:<kinds held>:<selected>:<shown items>`, or the full one
/// `full:<selected>:<all items>`.
pub open spec fn spec_inventory_payload(inv: PlayerInventory, ks: Seq<i32>) -> Seq<char> {
    if inv.minv {
        "show:"@ + spec_decimal(inv.items@.len() as int) + ":"@ + spec_decimal(inv.selected as int) + ":"@
            + entries_text(shown_items(ks, inv.miniq@, fill_quota(ks, inv.miniq@)), inv.items@)
    } else {
        "full:"@ + spec_decimal(inv.selected as int) + ":"@ + entries_text(ks, inv.items@)
    }
}

fn vec_contains_i32(v: &Vec<i32>, x: i32) -> (r: bool)
    ensures
        r == v@.contains(x),
{
    let mut i: usize = 0;
    while i < v.len()
        invariant
            i <= v@.len(),
            forall|j: int| 0 <= j < i ==> v@[j] != x,
        decreases v@.len() - i,
    {
        if v[i] == x {
            return true;
        }
        i = i + 1;
    }
    false
}

impl PlayerInventory {
    /// The items held, each once, in increasing order.
    fn sorted_items(&self) -> (r: Vec<i32>)
        requires
            self.wf(),
        ensures
            sorted_items_of(r@, self.items@),
    {
        let mut out: Vec<i32> = Vec::new();
        let mut bound: Option<i32> = None;
        let mut done = false;
        while !done
            invariant
                self.wf(),
                forall|i: int, j: int| 0 <= i < j < out@.len() ==> out@[i] < out@[j],
                forall|i: int| 0 <= i < out@.len() ==> holds(self.items@, #[trigger] out@[i]),
                out@.len() <= self.items@.len(),
                bound == (if out@.len() == 0 { None } else { Some(out@.last()) }),
                forall|k: i32| #[trigger] holds(self.items@, k) && (bound matches Some(b) && k <= b) ==> out@.contains(k),
                done ==> forall|k: i32| #[trigger] holds(self.items@, k) ==> out@.contains(k),
            decreases self.items@.len() - out@.len(), if done { 0int } else { 1int },
        {
            match self.smallest_item_above(bound) {
                None => {
                    done = true;
                },
                Some(k) => {
                    let ghost before = out@;
                    out.push(k);
                    proof {
                        assert forall|j: i32| #[trigger] holds(self.items@, j) && j <= k implies out@.contains(j) by {
                            if j == k {
                                assert(out@[before.len() as int] == k);
                            } else {
                                assert(before.contains(j));
                                let q = choose|q: int| 0 <= q < before.len() && before[q] == j;
                                assert(out@[q] == j);
                            }
                        }
                        let keys = self.items@.map_values(|e: (i32, i32)| e.0);
                        assert(out@.no_duplicates()) by {
                            assert forall|a: int, b: int| 0 <= a < out@.len() && 0 <= b < out@.len() && a != b
                                implies out@[a] != out@[b] by {
                                if a < b {
                                    assert(out@[a] < out@[b]);
                                } else {
                                    assert(out@[b] < out@[a]);
                                }
                            }
                        }
                        assert(out@.to_set().subset_of(keys.to_set())) by {
                            assert forall|x: i32| out@.to_set().contains(x) implies keys.to_set().contains(x) by {
                                let a = choose|a: int| 0 <= a < out@.len() && out@[a] == x;
                                assert(holds(self.items@, out@[a]));
                                let q = choose|q: int| 0 <= q < self.items@.len() && (#[trigger] self.items@[q]).0 == x;
                                assert(keys[q] == x);
                            }
                        }
                        out@.unique_seq_to_set();
                        keys.lemma_cardinality_of_set();
                        vstd::set_lib::lemma_len_subset(out@.to_set(), keys.to_set());
                    }
                    bound = Some(k);
                },
            }
        }
        proof {
            assert forall|k: i32| out@.contains(k) <==> holds(self.items@, k) by {
                if out@.contains(k) {
                    let a = choose|a: int| 0 <= a < out@.len() && out@[a] == k;
                    assert(holds(self.items@, out@[a]));
                }
            }
        }
        out
    }

    /// How many of item `k` the player holds.
    fn count_of(&self, k: i32) -> (r: i32)
        requires
            self.wf(),
        ensures
            r == self.count(k),
    {
        match find_item(&self.items, k) {
            Some(i) => {
                proof {
                    lemma_count_of_entry(self.items@, i as int);
                }
                self.items[i].1
            },
            None => 0,
        }
    }

    fn push_entries(&self, s: &mut String, ks: &Vec<i32>)
        requires
            self.wf(),
        ensures
            final(s)@ == old(s)@ + entries_text(ks@, self.items@),
    {
        let mut i: usize = 0;
        while i < ks.len()
            invariant
                self.wf(),
                i <= ks@.len(),
                s@ == old(s)@ + entries_text(ks@.take(i as int), self.items@),
            decreases ks@.len() - i,
        {
            let ghost before = s@;
            proof {
                assert(ks@.take(i + 1).drop_last() =~= ks@.take(i as int));
                assert(ks@.take(i + 1).last() == ks@[i as int]);
            }
            if i > 0 {
                s.append("#");
            }
            push_decimal_i32(s, ks[i]);
            s.append("#");
            let c = self.count_of(ks[i]);
            push_decimal_i32(s, c);
            proof {
                let sep = if i + 1 > 1 { "#"@ } else { Seq::<char>::empty() };
                assert(s@ =~= before + sep + spec_decimal(ks@[i as int] as int) + "#"@ + spec_decimal(
                    count_in(self.items@, ks@[i as int]),
                ));
            }
            i = i + 1;
        }
        proof {
            assert(ks@.take(ks@.len() as int) =~= ks@);
        }
    }

    /// The inventory window payload (see `spec_inventory_payload`).
    pub fn inventory_payload(&self) -> (r: String)
        requires
            self.wf(),
        ensures
            exists|ks: Seq<i32>| sorted_items_of(ks, self.items@) && r@ == spec_inventory_payload(*self, ks),
    {
        let ks = self.sorted_items();
        let mut s = String::new();
        if self.minv {
            let mut on_bar: usize = 0;
            let mut i: usize = 0;
            while i < ks.len()
                invariant
                    i <= ks@.len(),
                    on_bar == count_on_bar(ks@.take(i as int), self.miniq@),
                    on_bar <= i,
                decreases ks@.len() - i,
            {
                proof {
                    assert(ks@.take(i + 1).drop_last() =~= ks@.take(i as int));
                }
                if vec_contains_i32(&self.miniq, ks[i]) {
                    on_bar = on_bar + 1;
                }
                i = i + 1;
            }
            proof {
                assert(ks@.take(ks@.len() as int) =~= ks@);
            }
            let quota: usize = if on_bar < 4 { 4 - on_bar } else { 0 };
            let mut shown: Vec<i32> = Vec::new();
            let mut others: usize = 0;
            let mut j: usize = 0;
            while j < ks.len()
                invariant
                    j <= ks@.len(),
                    quota == fill_quota(ks@, self.miniq@),
                    shown@ == shown_items(ks@.take(j as int), self.miniq@, quota as nat),
                    others == j - count_on_bar(ks@.take(j as int), self.miniq@),
                    count_on_bar(ks@.take(j as int), self.miniq@) <= j,
                decreases ks@.len() - j,
            {
                proof {
                    assert(ks@.take(j + 1).drop_last() =~= ks@.take(j as int));
                }
                let on = vec_contains_i32(&self.miniq, ks[j]);
                if on || others < quota {
                    shown.push(ks[j]);
                }
                if !on {
                    others = others + 1;
                }
                j = j + 1;
            }
            proof {
                assert(ks@.take(ks@.len() as int) =~= ks@);
            }
            s.append("show:");
            push_decimal_u64(&mut s, self.items.len() as u64);
            s.append(":");
            push_decimal_i32(&mut s, self.selected);
            s.append(":");
            self.push_entries(&mut s, &shown);
        } else {
            s.append("full:");
            push_decimal_i32(&mut s, self.selected);
            s.append(":");
            self.push_entries(&mut s, &ks);
        }
        proof {
            assert(s@ =~= spec_inventory_payload(*self, ks@));
        }
        s
    }
}

} // verus!
