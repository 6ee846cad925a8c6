//! The application source: launchable records from the desktop-entry
//! collaborator, deduplicated by id (first occurrence wins), with
//! frequency-ranked defaults and fuzzy-matched search results.

use vstd::prelude::*;

use crate::entry::Entry;
use crate::entry::EntryAction;
use crate::favorites::Favorites;
use crate::frequency::EntryFrequency;
use crate::frequency::Frequencies;
use crate::frequency::spec_bumped;
use crate::matcher::fuzzy_match;
use crate::matcher::fuzzy_score;
use crate::text::clone_opt_string;
use crate::text::clone_string_vec;
use crate::text::str_eq;

verus! {

/// One launchable record as the desktop-entry collaborator yields it: id,
/// display name, description, icon handle, argument vector, working
/// directory, terminal-required flag, and the two visibility flags.
pub struct DesktopRecord {
    pub id: String,
    pub name: String,
    pub description: Option<String>,
    pub icon: Option<String>,
    pub argv: Vec<String>,
    pub working_dir: Option<String>,
    pub needs_terminal: bool,
    pub no_display: bool,
    pub hidden: bool,
}

/// A record the launcher shows: neither hidden nor no-display.
pub open spec fn spec_visible(r: DesktopRecord) -> bool {
    !r.no_display && !r.hidden
}

/// Whether some record in the sequence has this id.
pub open spec fn rec_id_in(s: Seq<DesktopRecord>, id: Seq<char>) -> bool {
    exists|i: int| 0 <= i < s.len() && s[i].id@ == id
}

/// The records kept after discarding hidden/no-display ones and collapsing
/// duplicate ids, first occurrence winning, in discovery order.
pub open spec fn spec_dedup(s: Seq<DesktopRecord>) -> Seq<DesktopRecord>
    decreases s.len(),
{
    if s.len() == 0 {
        Seq::empty()
    } else {
        let prefix = spec_dedup(s.drop_last());
        let e = s.last();
        if spec_visible(e) && !rec_id_in(prefix, e.id@) {
            prefix.push(e)
        } else {
            prefix
        }
    }
}

/// The text the fuzzy matcher scores an application against: its name, or
/// its name and description joined by a space.
pub open spec fn spec_searchable(rec: DesktopRecord) -> Seq<char> {
    match rec.description {
        Some(d) => rec.name@ + " "@ + d@,
        None => rec.name@,
    }
}

/// The entry built for an application record.
pub open spec fn is_app_entry(e: Entry, rec: DesktopRecord) -> bool {
    &&& e.id@ == rec.id@
    &&& e.text@ == rec.name@
    &&& e.description == rec.description
    &&& e.icon == rec.icon
    &&& e.searchable@ == spec_searchable(rec)
    &&& e.action matches EntryAction::Launch { argv, working_dir, needs_terminal } && argv@
        == rec.argv@ && working_dir == rec.working_dir && needs_terminal == rec.needs_terminal
}

/// The records that match the query, each with its match score, in discovery
/// order.
pub open spec fn spec_app_filtered(s: Seq<DesktopRecord>, q: Seq<char>) -> Seq<(DesktopRecord, u32)>
    decreases s.len(),
{
    if s.len() == 0 {
        Seq::empty()
    } else {
        let rest = spec_app_filtered(s.drop_last(), q);
        match fuzzy_score(q, spec_searchable(s.last())) {
            Some(score) => rest.push((s.last(), score)),
            None => rest,
        }
    }
}

/// Dedup invariant: the kept records have pairwise distinct ids; each kept
/// record is the *first* visible raw record bearing its id; and no visible
/// raw record's id is lost.
pub proof fn lemma_dedup_first_seen(s: Seq<DesktopRecord>)
    ensures
        forall|i: int, j: int|
            0 <= i < j < spec_dedup(s).len() ==> #[trigger] spec_dedup(s)[i].id@ != #[trigger] spec_dedup(
                s,
            )[j].id@,
        forall|k: int|
            0 <= k < spec_dedup(s).len() ==> exists|m: int|
                0 <= m < s.len() && s[m] == #[trigger] spec_dedup(s)[k] && spec_visible(s[m]) && (
                forall|w: int| 0 <= w < m ==> !(spec_visible(#[trigger] s[w]) && s[w].id@ == s[m].id@)),
        forall|m: int|
            0 <= m < s.len() && spec_visible(#[trigger] s[m]) ==> rec_id_in(spec_dedup(s), s[m].id@),
    decreases s.len(),
{
    if s.len() > 0 {
        lemma_dedup_first_seen(s.drop_last());
        let prefix = spec_dedup(s.drop_last());
        let e = s.last();
        let out = spec_dedup(s);
        if spec_visible(e) && !rec_id_in(prefix, e.id@) {
            assert(out == prefix.push(e));
            assert forall|k: int| 0 <= k < out.len() implies exists|m: int|
                0 <= m < s.len() && s[m] == #[trigger] out[k] && spec_visible(s[m]) && (forall|w: int|
                    0 <= w < m ==> !(spec_visible(#[trigger] s[w]) && s[w].id@ == s[m].id@)) by {
                if k < prefix.len() {
                    assert(out[k] == prefix[k]);
                    let m = choose|m: int|
                        0 <= m < s.drop_last().len() && s.drop_last()[m] == prefix[k] && spec_visible(
                            s.drop_last()[m],
                        ) && (forall|w: int|
                            0 <= w < m ==> !(spec_visible(#[trigger] s.drop_last()[w])
                                && s.drop_last()[w].id@ == s.drop_last()[m].id@));
                    assert(s[m] == out[k] && spec_visible(s[m]));
                    assert forall|w: int| 0 <= w < m implies !(spec_visible(#[trigger] s[w])
                        && s[w].id@ == s[m].id@) by {
                        assert(s.drop_last()[w] == s[w]);
                        assert(s.drop_last()[m] == s[m]);
                    }
                } else {
                    let m = s.len() - 1;
                    assert(out[k] == e && s[m] == e && spec_visible(s[m]));
                    assert forall|w: int| 0 <= w < m implies !(spec_visible(#[trigger] s[w])
                        && s[w].id@ == s[m].id@) by {
                        if spec_visible(s[w]) && s[w].id@ == e.id@ {
                            assert(s.drop_last()[w] == s[w]);
                            assert(rec_id_in(prefix, e.id@));
                        }
                    }
                }
            }
            assert forall|m: int| 0 <= m < s.len() && spec_visible(#[trigger] s[m]) implies rec_id_in(
                out,
                s[m].id@,
            ) by {
                if m < s.len() - 1 {
                    assert(s.drop_last()[m] == s[m]);
                    let w = choose|w: int| 0 <= w < prefix.len() && prefix[w].id@ == s[m].id@;
                    assert(out[w].id@ == s[m].id@);
                } else {
                    assert(out[out.len() - 1].id@ == s[m].id@);
                }
            }
            assert forall|i: int, j: int| 0 <= i < j < out.len() implies out[i].id@ != out[j].id@ by {
                if j < prefix.len() {
                    assert(out[i] == prefix[i] && out[j] == prefix[j]);
                } else {
                    assert(out[j] == e && out[i] == prefix[i]);
                    if prefix[i].id@ == e.id@ {
                        assert(rec_id_in(prefix, e.id@));
                    }
                }
            }
        } else {
            assert(out == prefix);
            assert forall|m: int| 0 <= m < s.len() && spec_visible(#[trigger] s[m]) implies rec_id_in(
                out,
                s[m].id@,
            ) by {
                if m < s.len() - 1 {
                    assert(s.drop_last()[m] == s[m]);
                } else {
                    assert(spec_visible(e) && rec_id_in(prefix, e.id@));
                }
            }
            assert forall|k: int| 0 <= k < out.len() implies exists|m: int|
                0 <= m < s.len() && s[m] == #[trigger] out[k] && spec_visible(s[m]) && (forall|w: int|
                    0 <= w < m ==> !(spec_visible(#[trigger] s[w]) && s[w].id@ == s[m].id@)) by {
                let m = choose|m: int|
                    0 <= m < s.drop_last().len() && s.drop_last()[m] == prefix[k] && spec_visible(
                        s.drop_last()[m],
                    ) && (forall|w: int|
                        0 <= w < m ==> !(spec_visible(#[trigger] s.drop_last()[w])
                            && s.drop_last()[w].id@ == s.drop_last()[m].id@));
                assert(s[m] == out[k] && spec_visible(s[m]));
                assert forall|w: int| 0 <= w < m implies !(spec_visible(#[trigger] s[w])
                    && s[w].id@ == s[m].id@) by {
                    assert(s.drop_last()[w] == s[w]);
                    assert(s.drop_last()[m] == s[m]);
                }
            }
        }
    }
}

/// The application source, owning its deduplicated records together with the
/// frequency history and the favorites set that rank and pin them.
pub struct SearchEntries {
    records: Vec<DesktopRecord>,
    frequencies: Frequencies,
    favorites: Favorites,
}

impl SearchEntries {
    /// The deduplicated visible records, in discovery order.
    pub closed spec fn spec_records(&self) -> Seq<DesktopRecord> {
        self.records@
    }

    /// The frequency history this source ranks by.
    pub closed spec fn spec_frequencies(&self) -> Frequencies {
        self.frequencies
    }

    /// The favorites set.
    pub closed spec fn spec_favorites(&self) -> Favorites {
        self.favorites
    }

    /// Records deduplicated, stores well-formed.
    pub open spec fn wf(&self) -> bool {
        &&& self.spec_frequencies().wf()
        &&& self.spec_favorites().wf()
        &&& forall|i: int, j: int|
            0 <= i < j < self.spec_records().len() ==> #[trigger] self.spec_records()[i].id@
                != #[trigger] self.spec_records()[j].id@
    }

    /// Build the source from the collaborator's raw records and the two
    /// loaded stores: hidden and no-display records are discarded and
    /// duplicate ids collapsed, the first occurrence winning.
    pub fn new(raw: Vec<DesktopRecord>, frequencies: Frequencies, favorites: Favorites) -> (r: Self)
        requires
            frequencies.wf(),
            favorites.wf(),
        ensures
            r.wf(),
            r.spec_records() == spec_dedup(raw@),
            r.spec_frequencies() == frequencies,
            r.spec_favorites() == favorites,
    {
        let ghost orig = raw@;
        let total = raw.len();
        let mut v = raw;
        let mut records: Vec<DesktopRecord> = Vec::new();
        let mut taken: usize = 0;
        while v.len() > 0
            invariant
                taken + v@.len() == total,
                total == orig.len(),
                orig.take(taken as int) + v@ =~= orig,
                records@ == spec_dedup(orig.take(taken as int)),
            decreases v@.len(),
        {
            let rec = v.remove(0);
            assert(rec == orig[taken as int]);
            let ghost prefix = orig.take(taken as int);
            assert(orig.take(taken + 1).drop_last() =~= prefix);
            assert(orig.take(taken + 1).last() == orig[taken as int]);
            if !rec.no_display && !rec.hidden {
                let dup = contains_record_id(&records, rec.id.as_str());
                if !dup {
                    records.push(rec);
                }
            }
            taken += 1;
            assert(orig.take(taken as int) + v@ =~= orig);
        }
        assert(orig.take(taken as int) =~= orig);
        let out = SearchEntries { records, frequencies, favorites };
        proof {
            lemma_dedup_first_seen(orig);
        }
        out
    }

    /// The default contribution: every record's entry, scored by the entry's
    /// decay-weighted usage frequency at time `now`, in discovery order.
    pub fn default_entries(&self, now: u64) -> (r: Option<Vec<(Entry, u32)>>)
        ensures
            r matches Some(list) && list@.len() == self.spec_records().len() && (forall|i: int|
                0 <= i < list@.len() ==> is_app_entry(#[trigger] list@[i].0, self.spec_records()[i])
                    && list@[i].1 == self.spec_frequencies().spec_effective_of(
                    self.spec_records()[i].id@,
                    now,
                )),
    {
        let mut list: Vec<(Entry, u32)> = Vec::new();
        let mut i: usize = 0;
        while i < self.records.len()
            invariant
                i <= self.records@.len(),
                list@.len() == i,
                forall|j: int|
                    0 <= j < i ==> is_app_entry(#[trigger] list@[j].0, self.records@[j])
                        && list@[j].1 == self.frequencies.spec_effective_of(
                        self.records@[j].id@,
                        now,
                    ),
            decreases self.records@.len() - i,
        {
            let rec = &self.records[i];
            let score = self.frequencies.effective_of(rec.id.as_str(), now);
            list.push((app_entry(rec), score));
            i += 1;
        }
        Some(list)
    }

    /// The records whose searchable text matches the query, scored by match
    /// quality, in discovery order.
    pub fn filtered_entries(&self, query: &str) -> (r: Option<Vec<(Entry, u32)>>)
        ensures
            r matches Some(list) && list@.len() == spec_app_filtered(
                self.spec_records(),
                query@,
            ).len() && (forall|i: int|
                0 <= i < list@.len() ==> is_app_entry(
                    #[trigger] list@[i].0,
                    spec_app_filtered(self.spec_records(), query@)[i].0,
                ) && list@[i].1 == spec_app_filtered(self.spec_records(), query@)[i].1),
    {
        let ghost q = query@;
        let mut list: Vec<(Entry, u32)> = Vec::new();
        let mut i: usize = 0;
        while i < self.records.len()
            invariant
                i <= self.records@.len(),
                q == query@,
                list@.len() == spec_app_filtered(self.records@.take(i as int), q).len(),
                forall|j: int|
                    0 <= j < list@.len() ==> is_app_entry(
                        #[trigger] list@[j].0,
                        spec_app_filtered(self.records@.take(i as int), q)[j].0,
                    ) && list@[j].1 == spec_app_filtered(self.records@.take(i as int), q)[j].1,
            decreases self.records@.len() - i,
        {
            let ghost prefix = self.records@.take(i as int);
            let rec = &self.records[i];
            assert(self.records@.take(i + 1).drop_last() =~= prefix);
            assert(self.records@.take(i + 1).last() == self.records@[i as int]);
            let e = app_entry(rec);
            match fuzzy_match(query, e.searchable.as_str()) {
                Some(score) => {
                    list.push((e, score));
                },
                None => {},
            }
            i += 1;
        }
        assert(self.records@.take(self.records@.len() as int) =~= self.records@);
        assert(list@.len() == spec_app_filtered(self.records@, q).len());
        assert(forall|j: int|
            0 <= j < list@.len() ==> is_app_entry(
                #[trigger] list@[j].0,
                spec_app_filtered(self.records@, q)[j].0,
            ) && list@[j].1 == spec_app_filtered(self.records@, q)[j].1);
        Some(list)
    }

    /// The entries pinned as favorites, in the favorites' stored order: each
    /// favorited id that still names a record yields that record's entry.
    pub fn favorites(&self) -> (r: Vec<Entry>)
        requires
            self.wf(),
        ensures
            r@.len() == spec_favorite_records(self.spec_records(), self.spec_favorites().spec_ids()).len(),
            forall|i: int|
                0 <= i < r@.len() ==> is_app_entry(
                    #[trigger] r@[i],
                    spec_favorite_records(self.spec_records(), self.spec_favorites().spec_ids())[i],
                ),
    {
        let ids = self.favorites.ids();
        let mut out: Vec<Entry> = Vec::new();
        let mut i: usize = 0;
        while i < ids.len()
            invariant
                i <= ids@.len(),
                out@.len() == spec_favorite_records(self.records@, ids@.take(i as int)).len(),
                forall|j: int|
                    0 <= j < out@.len() ==> is_app_entry(
                        #[trigger] out@[j],
                        spec_favorite_records(self.records@, ids@.take(i as int))[j],
                    ),
            decreases ids@.len() - i,
        {
            let ghost prefix = ids@.take(i as int);
            assert(ids@.take(i + 1).drop_last() =~= prefix);
            assert(ids@.take(i + 1).last() == ids@[i as int]);
            match self.find_record(ids[i].as_str()) {
                Some(rec) => {
                    let e = app_entry(rec);
                    out.push(e);
                },
                None => {},
            }
            i += 1;
        }
        assert(ids@.take(ids@.len() as int) =~= ids@);
        out
    }

    /// The first record bearing this id, if any.
    fn find_record(&self, id: &str) -> (r: Option<&DesktopRecord>)
        ensures
            match r {
                Some(rec) => spec_find_record(self.spec_records(), id@) == Some(*rec),
                None => spec_find_record(self.spec_records(), id@) is None,
            },
    {
        let mut i: usize = 0;
        assert(self.records@.skip(0) =~= self.records@);
        while i < self.records.len()
            invariant
                i <= self.records@.len(),
                spec_find_record(self.records@, id@) == spec_find_record(
                    self.records@.skip(i as int),
                    id@,
                ),
            decreases self.records@.len() - i,
        {
            assert(self.records@.skip(i as int).drop_first() =~= self.records@.skip(i + 1));
            assert(self.records@.skip(i as int)[0] == self.records@[i as int]);
            if str_eq(self.records[i].id.as_str(), id) {
                return Some(&self.records[i]);
            }
            i += 1;
        }
        assert(self.records@.skip(i as int) =~= Seq::<DesktopRecord>::empty());
        None
    }

    /// Pin an entry id as a favorite (a set insertion).
    pub fn add_favorite(&mut self, id: &str)
        requires
            old(self).wf(),
        ensures
            final(self).wf(),
            final(self).spec_records() == old(self).spec_records(),
            final(self).spec_frequencies() == old(self).spec_frequencies(),
            final(self).spec_favorites().spec_contains(id@),
            forall|k: Seq<char>|
                final(self).spec_favorites().spec_contains(k) == (old(
                    self,
                ).spec_favorites().spec_contains(k) || k == id@),
    {
        self.favorites.add(id);
    }

    /// Whether an entry id is favorited.
    pub fn is_favorite(&self, id: &str) -> (r: bool)
        ensures
            r == self.spec_favorites().spec_contains(id@),
    {
        self.favorites.contains(id)
    }

    /// Record an execution of the entry `id` at time `now` in the frequency
    /// history: an existing record is bumped (its last-used time never moving
    /// backwards), a missing one created.
    pub fn increment_frequency(&mut self, id: &str, now: u64)
        requires
            old(self).wf(),
        ensures
            final(self).wf(),
            final(self).spec_records() == old(self).spec_records(),
            final(self).spec_favorites() == old(self).spec_favorites(),
            final(self).spec_frequencies().spec_get(id@) == (match old(
                self,
            ).spec_frequencies().spec_get(id@) {
                Some(r) => Some(spec_bumped(r, now)),
                None => Some(EntryFrequency { score: 1, last_used: now }),
            }),
            forall|k: Seq<char>|
                k != id@ ==> final(self).spec_frequencies().spec_get(k) == old(
                    self,
                ).spec_frequencies().spec_get(k),
    {
        self.frequencies.increment(id, now);
    }

    /// The frequency history, for persisting at shutdown.
    pub fn frequency_store(&self) -> (r: &Frequencies)
        ensures
            r == self.spec_frequencies(),
    {
        &self.frequencies
    }

    /// The favorites set, for persisting at shutdown.
    pub fn favorites_store(&self) -> (r: &Favorites)
        ensures
            r == self.spec_favorites(),
    {
        &self.favorites
    }
}

/// The first record bearing this id, scanning from the front.
pub open spec fn spec_find_record(s: Seq<DesktopRecord>, id: Seq<char>) -> Option<DesktopRecord>
    decreases s.len(),
{
    if s.len() == 0 {
        None
    } else if s[0].id@ == id {
        Some(s[0])
    } else {
        spec_find_record(s.drop_first(), id)
    }
}

/// The records the favorites list picks out, in the favorites' order.
pub open spec fn spec_favorite_records(records: Seq<DesktopRecord>, ids: Seq<String>) -> Seq<DesktopRecord>
    decreases ids.len(),
{
    if ids.len() == 0 {
        Seq::empty()
    } else {
        let rest = spec_favorite_records(records, ids.drop_last());
        match spec_find_record(records, ids.last()@) {
            Some(rec) => rest.push(rec),
            None => rest,
        }
    }
}

/// Whether some record in the vector has this id.
fn contains_record_id(v: &Vec<DesktopRecord>, id: &str) -> (r: bool)
    ensures
        r == rec_id_in(v@, id@),
{
    let mut i: usize = 0;
    while i < v.len()
        invariant
            i <= v@.len(),
            forall|j: int| 0 <= j < i ==> v@[j].id@ != id@,
        decreases v@.len() - i,
    {
        if str_eq(v[i].id.as_str(), id) {
            return true;
        }
        i += 1;
    }
    false
}

/// Build the entry for an application record.
fn app_entry(rec: &DesktopRecord) -> (e: Entry)
    ensures
        is_app_entry(e, *rec),
{
    let searchable = match &rec.description {
        Some(d) => rec.name.clone().concat(" ").concat(d.as_str()),
        None => rec.name.clone(),
    };
    Entry {
        id: rec.id.clone(),
        text: rec.name.clone(),
        description: clone_opt_string(&rec.description),
        icon: clone_opt_string(&rec.icon),
        searchable,
        action: EntryAction::Launch {
            argv: clone_string_vec(&rec.argv),
            working_dir: clone_opt_string(&rec.working_dir),
            needs_terminal: rec.needs_terminal,
        },
    }
}

} // verus!
