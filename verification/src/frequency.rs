//! Usage-frequency records with time decay, and the persisted store that maps
//! entry ids to them.
//!
//! A record counts how often an entry was executed and when it was last used.
//! Ranking uses the decay-weighted `score`: recent use multiplies the raw
//! counter, stale use divides it.

use vstd::prelude::*;

use crate::text::str_eq;

verus! {

pub const SECONDS_PER_HOUR: u64 = 3600;

pub const SECONDS_PER_DAY: u64 = 24 * 3600;

pub const SECONDS_PER_WEEK: u64 = 7 * 24 * 3600;

/// Clamp a mathematical integer into the `u32` range from above.
pub open spec fn sat_u32(v: int) -> int {
    if v > u32::MAX {
        u32::MAX as int
    } else {
        v
    }
}

/// One entry's usage history: a raw counter and the time it was last used
/// (seconds since the epoch).
#[derive(Clone, Copy, PartialEq, Eq, Structural, Debug)]
pub struct EntryFrequency {
    pub score: u32,
    pub last_used: u64,
}

/// The decay-weighted ranking value of a record at time `now`:
/// used less than an hour ago the raw counter quadruples, less than a day ago
/// it doubles, less than a week ago it halves, and anything older quarters.
/// A `last_used` in the future yields 0.
pub open spec fn spec_effective_score(score: u32, last_used: u64, now: u64) -> int {
    if now < last_used {
        0
    } else if now - last_used < SECONDS_PER_HOUR {
        sat_u32(score * 4)
    } else if now - last_used < SECONDS_PER_DAY {
        sat_u32(score * 2)
    } else if now - last_used < SECONDS_PER_WEEK {
        score as int / 2
    } else {
        score as int / 4
    }
}

impl EntryFrequency {
    /// A fresh record for an entry executed for the first time at `now`.
    pub fn new(now: u64) -> (r: Self)
        ensures
            r.score == 1,
            r.last_used == now,
    {
        EntryFrequency { score: 1, last_used: now }
    }

    /// The decay-weighted ranking value of this record at time `now`.
    pub fn score(&self, now: u64) -> (r: u32)
        ensures
            r == spec_effective_score(self.score, self.last_used, now),
    {
        if now < self.last_used {
            return 0;
        }
        let elapsed = now - self.last_used;
        if elapsed < SECONDS_PER_HOUR {
            match self.score.checked_mul(4) {
                Some(v) => v,
                None => u32::MAX,
            }
        } else if elapsed < SECONDS_PER_DAY {
            match self.score.checked_mul(2) {
                Some(v) => v,
                None => u32::MAX,
            }
        } else if elapsed < SECONDS_PER_WEEK {
            self.score / 2
        } else {
            self.score / 4
        }
    }

    /// Record one more execution at time `now`: the counter grows by one
    /// (saturating) and the last-used time is refreshed. The time never goes
    /// backwards — a clock reading older than the stored time is ignored —
    /// so `last_used` is monotonically non-decreasing.
    pub fn increment(&mut self, now: u64)
        ensures
            *final(self) == spec_bumped(*old(self), now),
            final(self).last_used >= old(self).last_used,
    {
        self.score = self.score.saturating_add(1);
        if now >= self.last_used {
            self.last_used = now;
        }
    }
}

/// The record after one more execution at time `now`: the counter bumped
/// (saturating), the last-used time refreshed but never moved backwards.
pub open spec fn spec_bumped(r: EntryFrequency, now: u64) -> EntryFrequency {
    EntryFrequency {
        score: sat_u32(r.score + 1) as u32,
        last_used: if now >= r.last_used {
            now
        } else {
            r.last_used
        },
    }
}

/// Decay monotonicity: for a fixed raw counter, the effective score is
/// non-increasing as the elapsed time since last use grows, across all
/// bucket boundaries.
pub proof fn lemma_decay_monotonic(score: u32, last_used1: u64, last_used2: u64, now: u64)
    requires
        last_used2 <= last_used1 <= now,
    ensures
        spec_effective_score(score, last_used2, now) <= spec_effective_score(score, last_used1, now),
{
    assert(score / 4 <= score / 2 <= score as int) by (nonlinear_arith);
    assert(score as int <= score * 2 <= score * 4) by (nonlinear_arith);
}

/// Frequency increment: relative to the history after one execution of an
/// entry at `t0`, a second execution at `t1` within one hour of `now`
/// strictly raises the entry's effective score at `now` (as long as the raw
/// counter stays far from saturation).
pub proof fn lemma_second_execution_raises_score(
    before: Option<EntryFrequency>,
    t0: u64,
    t1: u64,
    now: u64,
)
    requires
        t0 <= t1 <= now,
        now - t1 < SECONDS_PER_HOUR,
        match before {
            Some(r) => 4 * (r.score + 2) <= u32::MAX && r.last_used <= now,
            None => true,
        },
    ensures
        ({
            let once = match before {
                Some(r) => spec_bumped(r, t0),
                None => EntryFrequency { score: 1, last_used: t0 },
            };
            let twice = spec_bumped(once, t1);
            spec_effective_score(once.score, once.last_used, now) < spec_effective_score(
                twice.score,
                twice.last_used,
                now,
            )
        }),
{
    let once = match before {
        Some(r) => spec_bumped(r, t0),
        None => EntryFrequency { score: 1, last_used: t0 },
    };
    let twice = spec_bumped(once, t1);
    assert(4 * (once.score + 1) <= u32::MAX);
    assert(twice.last_used >= t1 && twice.last_used <= now);
    assert(spec_effective_score(twice.score, twice.last_used, now) == 4 * (once.score + 1));
    assert(spec_effective_score(once.score, once.last_used, now) <= 4 * once.score) by {
        assert(once.score / 2 <= once.score as int && once.score / 4 <= once.score as int);
        assert(once.score as int <= 2 * once.score <= 4 * once.score);
    }
}

/// The record stored for key `id`, scanning from the front.
pub open spec fn spec_lookup(s: Seq<(String, EntryFrequency)>, id: Seq<char>) -> Option<EntryFrequency>
    decreases s.len(),
{
    if s.len() == 0 {
        None
    } else if s[0].0@ == id {
        Some(s[0].1)
    } else {
        spec_lookup(s.drop_first(), id)
    }
}

/// Appending a record at the end only affects keys the sequence misses.
proof fn lemma_lookup_push(s: Seq<(String, EntryFrequency)>, e: (String, EntryFrequency), id: Seq<char>)
    ensures
        spec_lookup(s, id) is Some ==> spec_lookup(s.push(e), id) == spec_lookup(s, id),
        spec_lookup(s, id) is None && e.0@ == id ==> spec_lookup(s.push(e), id) == Some(e.1),
        spec_lookup(s, id) is None && e.0@ != id ==> spec_lookup(s.push(e), id) is None,
    decreases s.len(),
{
    if s.len() == 0 {
        assert(s.push(e)[0] == e);
        assert(s.push(e).len() == 1);
        let empty = Seq::<(String, EntryFrequency)>::empty();
        assert(s.push(e).drop_first() =~= empty);
        assert(spec_lookup(empty, id) is None);
        if e.0@ != id {
            assert(spec_lookup(s.push(e), id) == spec_lookup(s.push(e).drop_first(), id));
        }
    } else {
        assert(s.push(e)[0] == s[0]);
        assert(s.push(e).drop_first() =~= s.drop_first().push(e));
        lemma_lookup_push(s.drop_first(), e, id);
    }
}

/// Replacing the record at `i` while keeping its key changes only that key.
proof fn lemma_lookup_update(
    s: Seq<(String, EntryFrequency)>,
    i: int,
    e: (String, EntryFrequency),
    id: Seq<char>,
)
    requires
        0 <= i < s.len(),
        s[i].0@ == e.0@,
        forall|p: int, q: int| 0 <= p < q < s.len() ==> s[p].0@ != s[q].0@,
    ensures
        e.0@ == id ==> spec_lookup(s.update(i, e), id) == Some(e.1),
        e.0@ != id ==> spec_lookup(s.update(i, e), id) == spec_lookup(s, id),
    decreases s.len(),
{
    if i == 0 {
        assert(s.update(0, e)[0] == e);
        if e.0@ != id {
            assert(s.update(0, e).drop_first() =~= s.drop_first());
        }
    } else {
        assert(s.update(i, e)[0] == s[0]);
        assert(s.update(i, e).drop_first() =~= s.drop_first().update(i - 1, e));
        assert(forall|p: int, q: int|
            0 <= p < q < s.drop_first().len() ==> s.drop_first()[p].0@ != s.drop_first()[q].0@);
        lemma_lookup_update(s.drop_first(), i - 1, e, id);
        if e.0@ == id {
            assert(s[0].0@ != s[i].0@);
        }
    }
}

/// A key that lookup misses appears nowhere in the sequence.
proof fn lemma_lookup_none_not_present(s: Seq<(String, EntryFrequency)>, id: Seq<char>)
    requires
        spec_lookup(s, id) is None,
    ensures
        forall|i: int| 0 <= i < s.len() ==> s[i].0@ != id,
    decreases s.len(),
{
    if s.len() > 0 {
        lemma_lookup_none_not_present(s.drop_first(), id);
        assert forall|i: int| 0 <= i < s.len() implies s[i].0@ != id by {
            if i > 0 {
                assert(s.drop_first()[i - 1] == s[i]);
            }
        }
    }
}

/// The persisted frequency history: one record per entry id, ids unique.
pub struct Frequencies {
    records: Vec<(String, EntryFrequency)>,
}

impl Frequencies {
    /// Ids are stored at most once.
    pub closed spec fn wf(&self) -> bool {
        forall|i: int, j: int|
            0 <= i < j < self.records@.len() ==> self.records@[i].0@ != self.records@[j].0@
    }

    /// The record stored for `id`, if any.
    pub closed spec fn spec_get(&self, id: Seq<char>) -> Option<EntryFrequency> {
        spec_lookup(self.records@, id)
    }

    /// The stored records, in insertion order.
    pub closed spec fn spec_records(&self) -> Seq<(String, EntryFrequency)> {
        self.records@
    }

    /// The decay-weighted ranking value of the entry `id` at time `now`;
    /// an entry with no stored history scores 0.
    pub open spec fn spec_effective_of(&self, id: Seq<char>, now: u64) -> int {
        match self.spec_get(id) {
            Some(r) => spec_effective_score(r.score, r.last_used, now),
            None => 0,
        }
    }

    /// An empty history, as used when no saved file exists or it fails to parse.
    pub fn new() -> (r: Self)
        ensures
            r.wf(),
            forall|id: Seq<char>| r.spec_get(id) is None,
    {
        Frequencies { records: Vec::new() }
    }

    /// The stored records, in insertion order, for persisting.
    pub fn records(&self) -> (r: &Vec<(String, EntryFrequency)>)
        ensures
            r@ == self.spec_records(),
    {
        &self.records
    }

    /// Restore a history from loaded records; a later record for an id already
    /// seen is dropped, so the first record for each id wins and stored ids
    /// stay unique.
    pub fn from_records(loaded: Vec<(String, EntryFrequency)>) -> (r: Self)
        ensures
            r.wf(),
            forall|id: Seq<char>| r.spec_get(id) == spec_lookup(loaded@, id),
    {
        let ghost all = loaded@;
        let mut out = Frequencies { records: Vec::new() };
        let mut i: usize = 0;
        while i < loaded.len()
            invariant
                i <= all.len(),
                all == loaded@,
                out.wf(),
                forall|id: Seq<char>| out.spec_get(id) == spec_lookup(all.take(i as int), id),
            decreases all.len() - i,
        {
            let ghost prefix = all.take(i as int);
            let id = loaded[i].0.clone();
            let rec = loaded[i].1;
            assert(all.take(i + 1) =~= prefix.push(all[i as int]));
            let had = out.contains_id(id.as_str());
            if !had {
                out.insert_new(id, rec);
            }
            assert forall|k: Seq<char>| out.spec_get(k) == spec_lookup(all.take(i + 1), k) by {
                lemma_lookup_push(prefix, all[i as int], k);
            }
            i += 1;
        }
        assert(all.take(all.len() as int) =~= all);
        out
    }

    /// Whether a record for `id` exists.
    pub fn contains_id(&self, id: &str) -> (r: bool)
        ensures
            r == (self.spec_get(id@) is Some),
    {
        let mut i: usize = 0;
        assert(self.records@.skip(0) =~= self.records@);
        while i < self.records.len()
            invariant
                i <= self.records@.len(),
                spec_lookup(self.records@, id@) == spec_lookup(self.records@.skip(i as int), id@),
            decreases self.records@.len() - i,
        {
            assert(self.records@.skip(i as int).drop_first() =~= self.records@.skip(i + 1));
            assert(self.records@.skip(i as int)[0] == self.records@[i as int]);
            if str_eq(self.records[i].0.as_str(), id) {
                return true;
            }
            i += 1;
        }
        assert(self.records@.skip(i as int) =~= Seq::<(String, EntryFrequency)>::empty());
        false
    }

    fn insert_new(&mut self, id: String, rec: EntryFrequency)
        requires
            old(self).wf(),
            old(self).spec_get(id@) is None,
        ensures
            final(self).wf(),
            final(self).spec_get(id@) == Some(rec),
            forall|k: Seq<char>| k != id@ ==> final(self).spec_get(k) == old(self).spec_get(k),
    {
        let ghost before = self.records@;
        let ghost idv = id@;
        let ghost entry = (id, rec);
        proof {
            lemma_lookup_none_not_present(before, idv);
        }
        self.records.push((id, rec));
        assert(self.records@ == before.push(entry));
        assert forall|k: Seq<char>| #![auto]
            (k == idv ==> spec_lookup(before.push(entry), k) == Some(rec)) && (k != idv
                ==> spec_lookup(before.push(entry), k) == spec_lookup(before, k)) by {
            lemma_lookup_push(before, entry, k);
            if k != idv && spec_lookup(before, k) is None {
                assert(spec_lookup(before.push(entry), k) is None);
            }
        }
        assert forall|p: int, q: int|
            0 <= p < q < self.records@.len() implies self.records@[p].0@ != self.records@[q].0@ by {
            if q < before.len() {
                assert(self.records@[p] == before[p] && self.records@[q] == before[q]);
            } else {
                assert(self.records@[q] == entry && self.records@[p] == before[p]);
            }
        }
    }

    /// Record an execution of the entry `id` at time `now`: an existing record
    /// is bumped and refreshed (its last-used time never moving backwards), a
    /// missing one is created with counter 1.
    pub fn increment(&mut self, id: &str, now: u64)
        requires
            old(self).wf(),
        ensures
            final(self).wf(),
            final(self).spec_get(id@) == (match old(self).spec_get(id@) {
                Some(r) => Some(spec_bumped(r, now)),
                None => Some(EntryFrequency { score: 1, last_used: now }),
            }),
            forall|k: Seq<char>| k != id@ ==> final(self).spec_get(k) == old(self).spec_get(k),
    {
        let ghost before = self.records@;
        let mut i: usize = 0;
        assert(before.skip(0) =~= before);
        while i < self.records.len()
            invariant
                i <= self.records@.len(),
                self.records@ == before,
                before == old(self).records@,
                old(self).wf(),
                spec_lookup(before, id@) == spec_lookup(before.skip(i as int), id@),
            decreases before.len() - i,
        {
            assert(before.skip(i as int).drop_first() =~= before.skip(i + 1));
            assert(before.skip(i as int)[0] == before[i as int]);
            if str_eq(self.records[i].0.as_str(), id) {
                let key = self.records[i].0.clone();
                let mut rec = self.records[i].1;
                rec.increment(now);
                let ghost entry = (key, rec);
                self.records[i] = (key, rec);
                assert(entry.0@ == before[i as int].0@);
                assert(forall|p: int, q: int|
                    0 <= p < q < before.len() ==> before[p].0@ != before[q].0@);
                assert(self.records@ == before.update(i as int, entry));
                assert(spec_lookup(before, id@) == Some(before[i as int].1));
                assert forall|k: Seq<char>| #![auto]
                    (k == id@ ==> spec_lookup(before.update(i as int, entry), k) == Some(rec)) && (
                k != id@ ==> spec_lookup(before.update(i as int, entry), k) == spec_lookup(
                    before,
                    k,
                )) by {
                    lemma_lookup_update(before, i as int, entry, k);
                }
                assert forall|p: int, q: int|
                    0 <= p < q < self.records@.len() implies self.records@[p].0@
                    != self.records@[q].0@ by {
                    assert(self.records@[p] == if p == i as int { entry } else { before[p] });
                    assert(self.records@[q] == if q == i as int { entry } else { before[q] });
                }
                return;
            }
            i += 1;
        }
        assert(before.skip(i as int) =~= Seq::<(String, EntryFrequency)>::empty());
        let fresh = EntryFrequency::new(now);
        let owned: String = id.to_owned();
        self.insert_new(owned, fresh);
    }

    /// The effective (decay-weighted) score of the entry `id` at time `now`;
    /// entries with no history score 0.
    pub fn effective_of(&self, id: &str, now: u64) -> (r: u32)
        ensures
            r == self.spec_effective_of(id@, now),
    {
        let mut i: usize = 0;
        assert(self.records@.skip(0) =~= self.records@);
        while i < self.records.len()
            invariant
                i <= self.records@.len(),
                spec_lookup(self.records@, id@) == spec_lookup(self.records@.skip(i as int), id@),
            decreases self.records@.len() - i,
        {
            assert(self.records@.skip(i as int).drop_first() =~= self.records@.skip(i + 1));
            assert(self.records@.skip(i as int)[0] == self.records@[i as int]);
            if str_eq(self.records[i].0.as_str(), id) {
                return self.records[i].1.score(now);
            }
            i += 1;
        }
        assert(self.records@.skip(i as int) =~= Seq::<(String, EntryFrequency)>::empty());
        0
    }
}

} // verus!
