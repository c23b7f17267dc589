//! The share book: who holds how many shares, and the total of all shares.
//! Balances are kept as a list of entries with one entry per holder; the list
//! stands for a map from holder to shares.

use vstd::prelude::*;
use crate::address::Address;
use crate::model::balance_in;
use crate::sum::{
    lemma_sum_bounds_each, lemma_sum_empty, lemma_sum_insert, lemma_sum_nonnegative, sum_values,
};

verus! {

/// One holder's balance.
#[derive(Clone, Copy, Debug, PartialEq, Eq, Structural, Hash)]
pub struct Entry {
    pub holder: Address,
    pub shares: i128,
}

/// The map that a list of entries stands for. Where a holder occurs twice,
/// the later entry counts.
pub open spec fn entries_map(entries: Seq<Entry>) -> Map<Address, int>
    decreases entries.len(),
{
    if entries.len() == 0 {
        Map::empty()
    } else {
        entries_map(entries.drop_last()).insert(
            entries.last().holder,
            entries.last().shares as int,
        )
    }
}

/// Whether the entry at `index` belongs to `holder`.
pub open spec fn held_at(entries: Seq<Entry>, index: int, holder: Address) -> bool {
    0 <= index < entries.len() && entries[index].holder == holder
}

/// No holder has two entries.
pub open spec fn distinct_holders(entries: Seq<Entry>) -> bool {
    forall|i: int, j: int|
        0 <= i < j < entries.len() ==> #[trigger] entries[i].holder != #[trigger] entries[j].holder
}

/// No entry holds a negative amount.
pub open spec fn no_negative(entries: Seq<Entry>) -> bool {
    forall|i: int| 0 <= i < entries.len() ==> #[trigger] entries[i].shares >= 0
}

/// The holders of the map are the holders of the entries, and there are
/// finitely many.
pub proof fn lemma_entries_domain(entries: Seq<Entry>)
    ensures
        entries_map(entries).dom().finite(),
        forall|holder: Address|
            entries_map(entries).dom().contains(holder) <==> exists|i: int|
                held_at(entries, i, holder),
    decreases entries.len(),
{
    if entries.len() > 0 {
        let front = entries.drop_last();
        let last = entries.last();
        lemma_entries_domain(front);
        assert forall|holder: Address|
            entries_map(entries).dom().contains(holder) <==> exists|i: int|
                held_at(entries, i, holder) by {
            if entries_map(entries).dom().contains(holder) {
                if holder == last.holder {
                    assert(held_at(entries, entries.len() - 1, holder));
                } else {
                    let i = choose|i: int| held_at(front, i, holder);
                    assert(held_at(entries, i, holder));
                }
            }
            if exists|i: int| held_at(entries, i, holder) {
                let i = choose|i: int| held_at(entries, i, holder);
                if i < entries.len() - 1 {
                    assert(held_at(front, i, holder));
                }
            }
        }
    }
}

/// With one entry per holder, the map gives each holder the shares of its
/// entry.
pub proof fn lemma_entries_value(entries: Seq<Entry>, index: int)
    requires
        distinct_holders(entries),
        0 <= index < entries.len(),
    ensures
        entries_map(entries).dom().contains(entries[index].holder),
        entries_map(entries)[entries[index].holder] == entries[index].shares,
    decreases entries.len(),
{
    if index < entries.len() - 1 {
        let front = entries.drop_last();
        assert(distinct_holders(front)) by {
            assert forall|i: int, j: int| 0 <= i < j < front.len() implies front[i].holder
                != front[j].holder by {
                assert(entries[i].holder != entries[j].holder);
            }
        }
        lemma_entries_value(front, index);
        assert(entries[index].holder != entries[entries.len() - 1].holder);
    }
}

/// With one entry per holder and no negative entry, no holder of the map has
/// a negative balance.
pub proof fn lemma_entries_nonnegative(entries: Seq<Entry>)
    requires
        distinct_holders(entries),
        no_negative(entries),
    ensures
        forall|holder: Address|
            entries_map(entries).dom().contains(holder) ==> #[trigger] entries_map(
                entries,
            )[holder] >= 0,
{
    lemma_entries_domain(entries);
    assert forall|holder: Address|
        entries_map(entries).dom().contains(holder) implies #[trigger] entries_map(
        entries,
    )[holder] >= 0 by {
        let i = choose|i: int| held_at(entries, i, holder);
        lemma_entries_value(entries, i);
    }
}

/// Changing the shares of one entry changes the map at that entry's holder,
/// and nowhere else.
pub proof fn lemma_entries_update(entries: Seq<Entry>, index: int, shares: i128)
    requires
        distinct_holders(entries),
        0 <= index < entries.len(),
    ensures
        entries_map(entries.update(index, Entry { holder: entries[index].holder, shares }))
            =~= entries_map(entries).insert(entries[index].holder, shares as int),
        distinct_holders(entries.update(index, Entry { holder: entries[index].holder, shares })),
    decreases entries.len(),
{
    let holder = entries[index].holder;
    let changed = entries.update(index, Entry { holder, shares });
    assert(distinct_holders(changed)) by {
        assert forall|i: int, j: int| 0 <= i < j < changed.len() implies changed[i].holder
            != changed[j].holder by {
            assert(entries[i].holder != entries[j].holder);
        }
    }
    let front = entries.drop_last();
    if index == entries.len() - 1 {
        assert(changed.drop_last() =~= front);
    } else {
        assert(distinct_holders(front)) by {
            assert forall|i: int, j: int| 0 <= i < j < front.len() implies front[i].holder
                != front[j].holder by {
                assert(entries[i].holder != entries[j].holder);
            }
        }
        lemma_entries_update(front, index, shares);
        assert(changed.drop_last() =~= front.update(index, Entry { holder, shares }));
        assert(entries[index].holder != entries[entries.len() - 1].holder);
    }
}

/// An entry for a holder that has none yet adds that holder to the map.
pub proof fn lemma_entries_push(entries: Seq<Entry>, entry: Entry)
    requires
        distinct_holders(entries),
        !entries_map(entries).dom().contains(entry.holder),
    ensures
        entries_map(entries.push(entry)) =~= entries_map(entries).insert(
            entry.holder,
            entry.shares as int,
        ),
        distinct_holders(entries.push(entry)),
{
    let longer = entries.push(entry);
    assert(longer.drop_last() =~= entries);
    lemma_entries_domain(entries);
    assert forall|i: int, j: int| 0 <= i < j < longer.len() implies longer[i].holder
        != longer[j].holder by {
        if j == entries.len() {
            assert(held_at(entries, i, longer[i].holder));
        } else {
            assert(entries[i].holder != entries[j].holder);
        }
    }
}

/// With one entry per holder and no negative entry, the entries up to any
/// point sum to no more than all of them.
pub proof fn lemma_prefix_sum(entries: Seq<Entry>, count: int)
    requires
        distinct_holders(entries),
        no_negative(entries),
        0 <= count <= entries.len(),
    ensures
        sum_values(entries_map(entries.take(count))) <= sum_values(entries_map(entries)),
    decreases entries.len() - count,
{
    if count == entries.len() {
        assert(entries.take(count) =~= entries);
    } else {
        let prefix = entries.take(count);
        let entry = entries[count];
        assert(distinct_holders(prefix)) by {
            assert forall|i: int, j: int| 0 <= i < j < prefix.len() implies prefix[i].holder
                != prefix[j].holder by {
                assert(entries[i].holder != entries[j].holder);
            }
        }
        lemma_entries_domain(prefix);
        assert(!entries_map(prefix).dom().contains(entry.holder)) by {
            if entries_map(prefix).dom().contains(entry.holder) {
                let i = choose|i: int| held_at(prefix, i, entry.holder);
                assert(entries[i].holder != entries[count].holder);
            }
        }
        lemma_entries_push(prefix, entry);
        assert(entries.take(count + 1) =~= prefix.push(entry));
        lemma_sum_insert(entries_map(prefix), entry.holder, entry.shares as int);
        lemma_prefix_sum(entries, count + 1);
    }
}

/// The balances of a vault and their total.
pub(crate) struct ShareBook {
    entries: Vec<Entry>,
    total: i128,
}

impl ShareBook {
    /// One entry per holder, no negative entry, and the total is the sum of
    /// all entries.
    pub(crate) closed spec fn wf(&self) -> bool {
        &&& distinct_holders(self.entries@)
        &&& no_negative(self.entries@)
        &&& self.total == sum_values(entries_map(self.entries@))
    }

    /// Each holder's shares.
    pub(crate) closed spec fn balances(&self) -> Map<Address, int> {
        entries_map(self.entries@)
    }

    /// The total of all shares.
    pub(crate) closed spec fn total(&self) -> int {
        self.total as int
    }

    /// What a well-formed book says of its balances.
    pub(crate) proof fn lemma_wf(&self)
        requires
            self.wf(),
        ensures
            self.balances().dom().finite(),
            forall|holder: Address|
                self.balances().dom().contains(holder) ==> #[trigger] self.balances()[holder] >= 0,
            self.total() == sum_values(self.balances()),
            0 <= self.total() <= i128::MAX,
    {
        lemma_entries_domain(self.entries@);
        lemma_entries_nonnegative(self.entries@);
        lemma_sum_nonnegative(self.balances());
    }

    /// A book without holders.
    pub(crate) fn new() -> (book: ShareBook)
        ensures
            book.wf(),
            book.balances() =~= Map::empty(),
            book.total() == 0,
    {
        proof {
            lemma_sum_empty::<Address>();
        }
        ShareBook { entries: Vec::new(), total: 0 }
    }

    /// The book of the given entries, where they make one: with one entry
    /// per holder, no negative entry, and a sum that fits in 128 bits.
    pub(crate) fn from_entries(entries: Vec<Entry>) -> (book: Option<ShareBook>)
        ensures
            (match book {
                Some(book) => {
                    &&& book.wf()
                    &&& book.balances() =~= entries_map(entries@)
                    &&& distinct_holders(entries@)
                    &&& no_negative(entries@)
                },
                None => !(distinct_holders(entries@) && no_negative(entries@) && sum_values(
                    entries_map(entries@),
                ) <= i128::MAX),
            }),
    {
        let mut total: i128 = 0;
        let mut count: usize = 0;
        proof {
            lemma_sum_empty::<Address>();
        }
        while count < entries.len()
            invariant
                count <= entries.len(),
                distinct_holders(entries@.take(count as int)),
                no_negative(entries@.take(count as int)),
                total == sum_values(entries_map(entries@.take(count as int))),
                0 <= total,
            decreases entries.len() - count,
        {
            let ghost prefix = entries@.take(count as int);
            let entry = entries[count];
            if entry.shares < 0 {
                return None;
            }
            let mut earlier: usize = 0;
            while earlier < count
                invariant
                    earlier <= count < entries.len(),
                    entry == entries@[count as int],
                    forall|i: int| 0 <= i < earlier ==> entries@[i].holder != entry.holder,
                decreases count - earlier,
            {
                if entries[earlier].holder == entry.holder {
                    return None;
                }
                earlier += 1;
            }
            proof {
                lemma_entries_domain(prefix);
                assert(!entries_map(prefix).dom().contains(entry.holder)) by {
                    if entries_map(prefix).dom().contains(entry.holder) {
                        let i = choose|i: int| held_at(prefix, i, entry.holder);
                        assert(entries@[i].holder != entry.holder);
                    }
                }
                lemma_entries_push(prefix, entry);
                assert(entries@.take(count + 1) =~= prefix.push(entry));
                lemma_sum_insert(entries_map(prefix), entry.holder, entry.shares as int);
            }
            if entry.shares > i128::MAX - total {
                proof {
                    if distinct_holders(entries@) && no_negative(entries@) {
                        lemma_prefix_sum(entries@, count + 1);
                    }
                }
                return None;
            }
            total = total + entry.shares;
            count += 1;
        }
        proof {
            assert(entries@.take(count as int) =~= entries@);
        }
        Some(ShareBook { entries, total })
    }

    /// Where the entry of `holder` stands, if there is one.
    fn find(&self, holder: Address) -> (at: Option<usize>)
        ensures
            (match at {
                Some(index) => held_at(self.entries@, index as int, holder),
                None => forall|i: int| !held_at(self.entries@, i, holder),
            }),
    {
        let mut index: usize = 0;
        while index < self.entries.len()
            invariant
                index <= self.entries.len(),
                forall|i: int| 0 <= i < index ==> !held_at(self.entries@, i, holder),
            decreases self.entries.len() - index,
        {
            if self.entries[index].holder == holder {
                return Some(index);
            }
            index += 1;
        }
        None
    }

    /// The shares of `holder`: zero where it has no entry.
    pub(crate) fn balance_of(&self, holder: Address) -> (shares: i128)
        requires
            self.wf(),
        ensures
            shares == balance_in(self.balances(), holder),
            0 <= shares <= self.total(),
    {
        proof {
            self.lemma_wf();
            lemma_entries_domain(self.entries@);
        }
        match self.find(holder) {
            Some(index) => {
                proof {
                    lemma_entries_value(self.entries@, index as int);
                    lemma_sum_bounds_each(self.balances(), holder);
                }
                self.entries[index].shares
            },
            None => {
                proof {
                    lemma_sum_nonnegative(self.balances());
                }
                0
            },
        }
    }

    /// The total of all shares.
    pub(crate) fn total_shares(&self) -> (total: i128)
        ensures
            total == self.total(),
    {
        self.total
    }

    /// Sets the shares of `holder` and moves the total by the difference.
    pub(crate) fn set(&mut self, holder: Address, shares: i128)
        requires
            old(self).wf(),
            shares >= 0,
            old(self).total() - balance_in(old(self).balances(), holder) + shares <= i128::MAX,
        ensures
            final(self).wf(),
            final(self).balances() =~= old(self).balances().insert(holder, shares as int),
            final(self).total() == old(self).total() - balance_in(old(self).balances(), holder)
                + shares,
    {
        let ghost before = self.entries@;
        proof {
            self.lemma_wf();
            lemma_entries_domain(before);
            lemma_sum_insert(entries_map(before), holder, shares as int);
        }
        match self.find(holder) {
            Some(index) => {
                proof {
                    lemma_entries_value(before, index as int);
                    lemma_sum_bounds_each(entries_map(before), holder);
                    lemma_entries_update(before, index as int, shares);
                }
                let current: i128 = self.entries[index].shares;
                self.entries.set(index, Entry { holder, shares });
                self.total = self.total - current + shares;
            },
            None => {
                proof {
                    lemma_entries_push(before, Entry { holder, shares });
                }
                self.entries.push(Entry { holder, shares });
                self.total = self.total + shares;
            },
        }
    }
}

} // verus!
