//! The demand vector: how much of each item per second.
//!
//! One instance is seeded with the wanted output rates; the propagation pass
//! expands it in place until it holds the throughput of every item, known or
//! phantom.

use crate::error::Error;
use crate::rat::{canon, fadd, frac_canonical, frac_fits, frac_int, Frac, Ratio};
use crate::text::str_eq;
use vstd::prelude::*;

verus! {

/// Index of the first entry keyed `id`, or the length if there is none.
pub open spec fn amt_index(s: Seq<(Seq<char>, Frac)>, id: Seq<char>) -> int
    decreases s.len(),
{
    if s.len() == 0 {
        0
    } else if s[0].0 == id {
        0
    } else {
        1 + amt_index(s.skip(1), id)
    }
}

pub proof fn lemma_amt_index(s: Seq<(Seq<char>, Frac)>, id: Seq<char>)
    ensures
        0 <= amt_index(s, id) <= s.len(),
        forall|i: int| 0 <= i < amt_index(s, id) ==> s[i].0 != id,
        amt_index(s, id) < s.len() ==> s[amt_index(s, id)].0 == id,
    decreases s.len(),
{
    if s.len() > 0 && s[0].0 != id {
        lemma_amt_index(s.skip(1), id);
        assert forall|i: int| 0 <= i < amt_index(s, id) implies s[i].0 != id by {
            if i > 0 {
                assert(s[i] == s.skip(1)[i - 1]);
            }
        }
        if amt_index(s, id) < s.len() {
            assert(s[amt_index(s, id)] == s.skip(1)[amt_index(s.skip(1), id)]);
        }
    }
}

pub proof fn lemma_amt_index_unique(s: Seq<(Seq<char>, Frac)>, id: Seq<char>, k: int)
    requires
        0 <= k <= s.len(),
        forall|i: int| 0 <= i < k ==> s[i].0 != id,
        k < s.len() ==> s[k].0 == id,
    ensures
        amt_index(s, id) == k,
    decreases s.len(),
{
    if s.len() > 0 && s[0].0 != id {
        assert forall|i: int| 0 <= i < k - 1 implies s.skip(1)[i].0 != id by {
            assert(s.skip(1)[i] == s[i + 1]);
        }
        if k - 1 < s.skip(1).len() {
            assert(s.skip(1)[k - 1] == s[k]);
        }
        lemma_amt_index_unique(s.skip(1), id, k - 1);
    }
}

/// The amount recorded for `id`; zero if there is no entry.
pub open spec fn demand_of(s: Seq<(Seq<char>, Frac)>, id: Seq<char>) -> Frac {
    let k = amt_index(s, id);
    if k < s.len() {
        s[k].1
    } else {
        frac_int(0)
    }
}

/// Record `q` for `id`: replace the existing entry, else append one.
pub open spec fn amt_upsert(s: Seq<(Seq<char>, Frac)>, id: Seq<char>, q: Frac) -> Seq<
    (Seq<char>, Frac),
> {
    let k = amt_index(s, id);
    if k == s.len() {
        s.push((id, q))
    } else {
        s.update(k, (id, q))
    }
}

/// A demand vector is well formed when no identifier repeats and every
/// amount is canonical.
pub open spec fn demand_wf(s: Seq<(Seq<char>, Frac)>) -> bool {
    &&& forall|i: int, j: int| 0 <= i < j < s.len() ==> s[i].0 != s[j].0
    &&& forall|i: int| 0 <= i < s.len() ==> frac_canonical((#[trigger] s[i]).1)
}

/// Upserting a canonical amount keeps a demand vector well formed.
pub proof fn lemma_amt_upsert_wf(s: Seq<(Seq<char>, Frac)>, id: Seq<char>, q: Frac)
    requires
        demand_wf(s),
        frac_canonical(q),
    ensures
        demand_wf(amt_upsert(s, id, q)),
{
    lemma_amt_index(s, id);
    let k = amt_index(s, id);
    let t = amt_upsert(s, id, q);
    if k == s.len() {
        assert forall|i: int, j: int| 0 <= i < j < t.len() implies t[i].0 != t[j].0 by {
            if j < s.len() {
            } else {
                assert(t[i].0 == s[i].0 && t[j].0 == id);
            }
        }
    } else {
        assert(s[k].0 == id);
        assert forall|i: int, j: int| 0 <= i < j < t.len() implies t[i].0 != t[j].0 by {
            assert(t[i].0 == s[i].0 && t[j].0 == s[j].0);
        }
    }
}

/// A demand vector: item identifier to throughput, in first-recorded order.
#[derive(Debug)]
pub struct Demand {
    entries: Vec<(String, Ratio)>,
}

impl View for Demand {
    type V = Seq<(Seq<char>, Frac)>;

    closed spec fn view(&self) -> Seq<(Seq<char>, Frac)> {
        Seq::new(self.entries@.len(), |i: int| (self.entries@[i].0@, self.entries@[i].1@))
    }
}

impl Demand {
    pub open spec fn wf(self) -> bool {
        demand_wf(self@)
    }

    /// An empty demand vector.
    pub fn new() -> (d: Demand)
        ensures
            d.wf(),
            d@ == Seq::<(Seq<char>, Frac)>::empty(),
    {
        let d = Demand { entries: Vec::new() };
        proof {
            assert(d@ =~= Seq::<(Seq<char>, Frac)>::empty());
        }
        d
    }

    /// An equal-valued copy.
    pub fn duplicate(&self) -> (d: Demand)
        ensures
            d@ == self@,
    {
        let mut entries: Vec<(String, Ratio)> = Vec::new();
        let n = self.entries.len();
        for i in 0..n
            invariant
                n == self.entries@.len(),
                entries@.len() == i,
                forall|t: int|
                    0 <= t < i ==> (#[trigger] entries@[t]).0@ == self.entries@[t].0@
                        && entries@[t].1 == self.entries@[t].1,
        {
            let id = self.entries[i].0.clone();
            let q = self.entries[i].1;
            entries.push((id, q));
        }
        let d = Demand { entries };
        proof {
            assert(d@ =~= self@);
        }
        d
    }

    /// How many entries the vector holds.
    pub fn len(&self) -> (n: usize)
        ensures
            n == self@.len(),
    {
        self.entries.len()
    }

    /// The entry at a position, as an identifier and its amount.
    pub fn entry_at(&self, i: usize) -> (r: (String, Ratio))
        requires
            i < self@.len(),
        ensures
            r.0@ == self@[i as int].0,
            r.1@ == self@[i as int].1,
    {
        let e = &self.entries[i];
        (e.0.clone(), e.1)
    }

    /// The amount recorded for `id`; zero if there is no entry.
    pub fn get(&self, id: &str) -> (r: Ratio)
        requires
            self.wf(),
        ensures
            r@ == demand_of(self@, id@),
            r.wf(),
    {
        let ghost s = self@;
        let n = self.entries.len();
        let mut j: usize = 0;
        while j < n
            invariant
                0 <= j <= n == self.entries@.len(),
                s == self@,
                self.wf(),
                forall|i: int| 0 <= i < j ==> s[i].0 != id@,
            decreases n - j,
        {
            if str_eq(self.entries[j].0.as_str(), id) {
                proof {
                    lemma_amt_index_unique(s, id@, j as int);
                }
                return self.entries[j].1;
            }
            j = j + 1;
        }
        proof {
            lemma_amt_index_unique(s, id@, n as int);
        }
        Ratio::zero()
    }

    /// Record `amount` for `id`, replacing any earlier record.
    pub fn set(&mut self, id: &str, amount: Ratio) -> (r: ())
        requires
            old(self).wf(),
            amount.wf(),
        ensures
            final(self).wf(),
            final(self)@ == amt_upsert(old(self)@, id@, amount@),
    {
        proof {
            lemma_amt_upsert_wf(self@, id@, amount@);
        }
        let ghost s = self@;
        let n = self.entries.len();
        let mut j: usize = 0;
        while j < n
            invariant
                0 <= j <= n == self.entries@.len(),
                *self == *old(self),
                s == self@,
                demand_wf(amt_upsert(s, id@, amount@)),
                forall|i: int| 0 <= i < j ==> s[i].0 != id@,
            decreases n - j,
        {
            if str_eq(self.entries[j].0.as_str(), id) {
                proof {
                    lemma_amt_index_unique(s, id@, j as int);
                }
                self.entries[j] = (id.to_owned(), amount);
                proof {
                    assert(self@ =~= s.update(j as int, (id@, amount@)));
                }
                return ;
            }
            j = j + 1;
        }
        proof {
            lemma_amt_index_unique(s, id@, n as int);
        }
        self.entries.push((id.to_owned(), amount));
        proof {
            assert(self@ =~= s.push((id@, amount@)));
        }
    }

    /// Add `delta` to the amount recorded for `id`. Fails, leaving the vector
    /// unchanged, exactly when the reduced sum does not fit.
    pub fn add_to(&mut self, id: &str, delta: Ratio) -> (r: Result<(), Error>)
        requires
            old(self).wf(),
            delta.wf(),
        ensures
            final(self).wf(),
            r is Ok <==> frac_fits(canon(fadd(demand_of(old(self)@, id@), delta@))),
            r is Ok ==> final(self)@ == amt_upsert(
                old(self)@,
                id@,
                canon(fadd(demand_of(old(self)@, id@), delta@)),
            ),
            r matches Err(e) ==> e is ValueOverflow && final(self)@ == old(self)@,
    {
        let current = self.get(id);
        match current.checked_add(&delta) {
            Some(sum) => {
                self.set(id, sum);
                Ok(())
            },
            None => Err(Error::ValueOverflow),
        }
    }
}

} // verus!
