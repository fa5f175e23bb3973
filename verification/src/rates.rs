//! The rate table: currency codes with their exchange rates, each code once
//! and every rate positive.

use crate::text::same_text;
use vstd::prelude::*;

verus! {

/// A currency code with its rate in millionths.
pub struct RateEntry {
    pub code: String,
    pub rate: u64,
}

/// Exchange rates by currency code. The view is the mapping from a code to
/// its rate; the order of the entries carries no meaning. The entries are a
/// vector in which no code occurs twice, searched from the front: of a map
/// keyed by strings the proofs would know nothing, of a vector they know
/// which entry a code finds.
pub struct RateTable {
    entries: Vec<RateEntry>,
}

impl View for RateTable {
    type V = Map<Seq<char>, u64>;

    closed spec fn view(&self) -> Map<Seq<char>, u64> {
        Map::new(
            |c: Seq<char>| exists|i: int| self.holds_at(i, c),
            |c: Seq<char>| self.entries@[choose|i: int| self.holds_at(i, c)].rate,
        )
    }
}

impl RateTable {
    /// Validity: no code occurs twice and every rate is positive.
    pub closed spec fn wf(&self) -> bool {
        &&& forall|i: int, j: int|
            0 <= i < j < self.entries@.len() ==> self.entries@[i].code@ != self.entries@[j].code@
        &&& forall|i: int| 0 <= i < self.entries@.len() ==> self.entries@[i].rate > 0
    }

    closed spec fn holds_at(&self, i: int, c: Seq<char>) -> bool {
        0 <= i < self.entries@.len() && self.entries@[i].code@ == c
    }

    /// Every rate in a table is positive.
    pub proof fn lemma_rates_positive(&self)
        requires
            self.wf(),
        ensures
            forall|c: Seq<char>| #[trigger] self@.contains_key(c) ==> self@[c] > 0,
    {
        assert forall|c: Seq<char>| #[trigger] self@.contains_key(c) implies self@[c] > 0 by {
            let i = choose|i: int| self.holds_at(i, c);
            assert(self.holds_at(i, c));
        }
    }

    /// A table without entries.
    pub fn new() -> (table: RateTable)
        ensures
            table.wf(),
            table@ == Map::<Seq<char>, u64>::empty(),
    {
        let table = RateTable { entries: Vec::new() };
        assert(table@ =~= Map::<Seq<char>, u64>::empty()) by {
            assert forall|c: Seq<char>| !table@.contains_key(c) by {
                if table@.contains_key(c) {
                    let i = choose|i: int| table.holds_at(i, c);
                    assert(table.holds_at(i, c));
                }
            }
        }
        table
    }

    fn position(&self, code: &str) -> (found: Option<usize>)
        ensures
            match found {
                Some(i) => self.holds_at(i as int, code@),
                None => forall|i: int| !self.holds_at(i, code@),
            },
    {
        let mut i: usize = 0;
        while i < self.entries.len()
            invariant
                i <= self.entries@.len(),
                forall|k: int| 0 <= k < i ==> !self.holds_at(k, code@),
            decreases self.entries@.len() - i,
        {
            if same_text(self.entries[i].code.as_str(), code) {
                return Some(i);
            }
            i = i + 1;
        }
        None
    }

    /// The rate of a code, if the table has one.
    pub fn get(&self, code: &str) -> (rate: Option<u64>)
        requires
            self.wf(),
        ensures
            rate == (if self@.contains_key(code@) {
                Some(self@[code@])
            } else {
                None
            }),
    {
        match self.position(code) {
            Some(i) => {
                proof {
                    let j = choose|j: int| self.holds_at(j, code@);
                    assert(self.holds_at(j, code@));
                    assert(j == i);
                }
                Some(self.entries[i].rate)
            },
            None => None,
        }
    }

    /// Whether the table has a rate for a code.
    pub fn contains(&self, code: &str) -> (found: bool)
        ensures
            found == self@.contains_key(code@),
    {
        self.position(code).is_some()
    }

    /// Sets the rate of a code, replacing the one it had. A rate of zero is
    /// no rate: it is refused and the table stays as it was.
    pub fn insert(&mut self, code: &str, rate: u64) -> (accepted: bool)
        requires
            old(self).wf(),
        ensures
            final(self).wf(),
            accepted == (rate > 0),
            accepted ==> final(self)@ == old(self)@.insert(code@, rate),
            !accepted ==> *final(self) == *old(self),
    {
        if rate == 0 {
            return false;
        }
        let found = self.position(code);
        let ghost before = *self;
        match found {
            Some(i) => {
                let mut entries: Vec<RateEntry> = Vec::new();
                std::mem::swap(&mut entries, &mut self.entries);
                let replaced = RateEntry { code: entries[i].code.clone(), rate };
                entries.set(i, replaced);
                self.entries = entries;
            },
            None => {
                let mut entries: Vec<RateEntry> = Vec::new();
                std::mem::swap(&mut entries, &mut self.entries);
                entries.push(RateEntry { code: code.to_owned(), rate });
                self.entries = entries;
            },
        }
        proof {
            let after = *self;
            let target = before@.insert(code@, rate);
            let slot: int = match found {
                Some(i) => i as int,
                None => before.entries@.len() as int,
            };
            assert(after.holds_at(slot, code@));
            assert(after.entries@[slot].rate == rate);
            assert forall|k: int| 0 <= k < after.entries@.len() && k != slot implies 0 <= k
                < before.entries@.len() && after.entries@[k] == before.entries@[k] by {}
            assert forall|a: int, b: int| 0 <= a < b < after.entries@.len() implies after.entries@[a].code@
                != after.entries@[b].code@ by {
                if found is None {
                    assert(!before.holds_at(a, code@));
                } else {
                    assert(before.holds_at(slot, code@));
                }
            }
            assert(after.wf());
            assert forall|c: Seq<char>| after@.contains_key(c) == target.contains_key(c) by {
                if after@.contains_key(c) {
                    let i = choose|i: int| after.holds_at(i, c);
                    assert(after.holds_at(i, c));
                    if c != code@ {
                        assert(before.holds_at(i, c));
                    }
                }
                if target.contains_key(c) {
                    if c == code@ {
                        match found {
                            Some(i) => {
                                assert(after.holds_at(i as int, c));
                            },
                            None => {
                                assert(after.holds_at(before.entries@.len() as int, c));
                            },
                        }
                    } else {
                        let i = choose|i: int| before.holds_at(i, c);
                        assert(before.holds_at(i, c));
                        assert(after.holds_at(i, c));
                    }
                }
            }
            assert forall|c: Seq<char>| after@.contains_key(c) implies after@[c] == target[c] by {
                let i = choose|i: int| after.holds_at(i, c);
                assert(after.holds_at(i, c));
                if c != code@ {
                    assert(i != slot);
                    assert(before.holds_at(i, c));
                    let j = choose|j: int| before.holds_at(j, c);
                    assert(before.holds_at(j, c));
                    assert(i == j);
                } else {
                    assert(i == slot);
                }
            }
            assert(after@ =~= target);
        }
        true
    }

    /// A copy of the table.
    pub fn snapshot(&self) -> (copy: RateTable)
        requires
            self.wf(),
        ensures
            copy.wf(),
            copy@ == self@,
    {
        let mut entries: Vec<RateEntry> = Vec::new();
        let mut i: usize = 0;
        while i < self.entries.len()
            invariant
                i <= self.entries@.len(),
                entries@.len() == i,
                forall|k: int|
                    0 <= k < i ==> entries@[k].code@ == self.entries@[k].code@ && entries@[k].rate
                        == self.entries@[k].rate,
            decreases self.entries@.len() - i,
        {
            entries.push(RateEntry { code: self.entries[i].code.clone(), rate: self.entries[i].rate });
            i = i + 1;
        }
        let copy = RateTable { entries };
        proof {
            assert forall|c: Seq<char>| copy@.contains_key(c) == self@.contains_key(c) by {
                if copy@.contains_key(c) {
                    let i = choose|i: int| copy.holds_at(i, c);
                    assert(copy.holds_at(i, c));
                    assert(self.holds_at(i, c));
                }
                if self@.contains_key(c) {
                    let i = choose|i: int| self.holds_at(i, c);
                    assert(self.holds_at(i, c));
                    assert(copy.holds_at(i, c));
                }
            }
            assert forall|c: Seq<char>| copy@.contains_key(c) implies copy@[c] == self@[c] by {
                let i = choose|i: int| copy.holds_at(i, c);
                assert(copy.holds_at(i, c));
                let j = choose|j: int| self.holds_at(j, c);
                assert(self.holds_at(j, c));
                assert(self.holds_at(i, c));
                assert(i == j);
            }
            assert(copy@ =~= self@);
        }
        copy
    }

    /// The codes of the table with their rates, in no particular order.
    pub fn to_entries(&self) -> (listed: Vec<RateEntry>)
        requires
            self.wf(),
        ensures
            forall|k: int| 0 <= k < listed@.len() ==> (#[trigger] listed@[k]).rate > 0,
            forall|k: int|
                0 <= k < listed@.len() ==> self@.contains_key(#[trigger] listed@[k].code@)
                    && self@[listed@[k].code@] == listed@[k].rate,
            forall|c: Seq<char>|
                self@.contains_key(c) ==> exists|k: int|
                    0 <= k < listed@.len() && #[trigger] listed@[k].code@ == c,
            forall|i: int, j: int|
                0 <= i < j < listed@.len() ==> listed@[i].code@ != listed@[j].code@,
    {
        let mut listed: Vec<RateEntry> = Vec::new();
        let mut i: usize = 0;
        while i < self.entries.len()
            invariant
                i <= self.entries@.len(),
                listed@.len() == i,
                forall|k: int|
                    0 <= k < i ==> listed@[k].code@ == self.entries@[k].code@ && listed@[k].rate
                        == self.entries@[k].rate,
            decreases self.entries@.len() - i,
        {
            listed.push(RateEntry { code: self.entries[i].code.clone(), rate: self.entries[i].rate });
            i = i + 1;
        }
        proof {
            assert forall|k: int| 0 <= k < listed@.len() implies self@.contains_key(
                #[trigger] listed@[k].code@,
            ) && self@[listed@[k].code@] == listed@[k].rate by {
                let c = listed@[k].code@;
                assert(self.holds_at(k, c));
                let j = choose|j: int| self.holds_at(j, c);
                assert(self.holds_at(j, c));
                assert(j == k);
            }
            assert forall|c: Seq<char>| self@.contains_key(c) implies exists|k: int|
                0 <= k < listed@.len() && #[trigger] listed@[k].code@ == c by {
                let j = choose|j: int| self.holds_at(j, c);
                assert(self.holds_at(j, c));
                assert(listed@[j].code@ == c);
            }
        }
        listed
    }
}

} // verus!
