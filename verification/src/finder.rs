//! The aggregator: owns the fixed set of sources, merges their contributions
//! into one list, and ranks it with the stable descending sort.

use vstd::prelude::*;

use crate::apps::SearchEntries;
use crate::apps::is_app_entry;
use crate::apps::spec_app_filtered;
use crate::entry::Entry;
use crate::frequency::EntryFrequency;
use crate::frequency::SECONDS_PER_HOUR;
use crate::frequency::spec_bumped;
use crate::frequency::spec_effective_score;
use crate::math::MathFinder;
use crate::math::is_math_entry_for;
use crate::math::spec_math_count;
use crate::rank::RankedEntry;
use crate::rank::lemma_raised_score_rank_no_lower;
use crate::rank::lemma_sorted_element_by_rank;
use crate::rank::lemma_top_element;
use crate::rank::precedes;
use crate::rank::spec_sort;
use crate::text::is_blank;
use crate::text::query_is_blank;
use crate::wifi::WifiFinder;
use crate::wifi::is_wifi_entry;
use crate::wifi::spec_wifi_filtered;

verus! {

/// The scored list the aggregator collects before ranking when no query is
/// given: every application entry scored by its usage frequency at `now`,
/// followed by every cached network scored by signal strength, each decorated
/// with its discovery position. The arithmetic source contributes nothing.
pub open spec fn collected_defaults(
    apps: SearchEntries,
    wifi: WifiFinder,
    now: u64,
    c: Seq<RankedEntry>,
) -> bool {
    let na = apps.spec_records().len() as int;
    let nw = wifi.spec_networks().len() as int;
    &&& c.len() == na + nw
    &&& forall|i: int| 0 <= i < c.len() ==> (#[trigger] c[i]).rank == i
    &&& forall|i: int|
        0 <= i < na ==> is_app_entry((#[trigger] c[i]).entry, apps.spec_records()[i]) && c[i].score
            == apps.spec_frequencies().spec_effective_of(apps.spec_records()[i].id@, now)
    &&& forall|i: int|
        na <= i < na + nw ==> is_wifi_entry((#[trigger] c[i]).entry, wifi.spec_networks()[i - na])
            && c[i].score == wifi.spec_networks()[i - na].strength as u32
}

/// The scored list the aggregator collects for a query: the arithmetic entry
/// if the query evaluates (collected first, so it wins every tie), then the
/// matching application entries with their match scores, then the matching
/// networks with theirs, each decorated with its discovery position.
pub open spec fn collected_filtered(
    apps: SearchEntries,
    wifi: WifiFinder,
    q: Seq<char>,
    c: Seq<RankedEntry>,
) -> bool {
    let fa = spec_app_filtered(apps.spec_records(), q);
    let nm = spec_math_count(q);
    let fw = spec_wifi_filtered(wifi.spec_networks(), q);
    let na = fa.len() as int;
    let nw = fw.len() as int;
    &&& c.len() == nm + na + nw
    &&& forall|i: int| 0 <= i < c.len() ==> (#[trigger] c[i]).rank == i
    &&& nm == 1 ==> is_math_entry_for(c[0].entry, q) && c[0].score == u32::MAX
    &&& forall|i: int|
        nm <= i < nm + na ==> is_app_entry((#[trigger] c[i]).entry, fa[i - nm].0) && c[i].score
            == fa[i - nm].1
    &&& forall|i: int|
        nm + na <= i < nm + na + nw ==> is_wifi_entry((#[trigger] c[i]).entry, fw[i - nm - na].0)
            && c[i].score == fw[i - nm - na].1
}

/// A math result always sorts first when present: the arithmetic entry is
/// collected at discovery position 0 with the maximum representable score,
/// so it strictly precedes every other collected entry and heads the ranked
/// result list.
pub proof fn lemma_math_result_sorts_first(
    apps: SearchEntries,
    wifi: WifiFinder,
    q: Seq<char>,
    c: Seq<RankedEntry>,
)
    requires
        collected_filtered(apps, wifi, q, c),
        spec_math_count(q) == 1,
    ensures
        c.len() > 0,
        spec_sort(c).len() == c.len(),
        spec_sort(c)[0] == c[0],
        is_math_entry_for(spec_sort(c)[0].entry, q),
        spec_sort(c)[0].score == u32::MAX,
{
    assert(c[0].score == u32::MAX && c[0].rank == 0);
    assert forall|k: int| 1 <= k < c.len() implies precedes(c[0], #[trigger] c[k]) by {
        assert(c[k].rank == k);
    }
    lemma_top_element(c);
}

/// Frequency increment and ranking, combined: relative to a history in which
/// an entry may already have been executed, executing it once more at `t1`,
/// within one hour of `now`, strictly raises its effective score at `now`,
/// and in the ranked default list the entry moves no lower than before.
///
/// The entry is named by its discovery position `t`; `c1` and `c2` are the
/// collected default lists before and after the extra execution, and `i` and
/// `j` are the entry's places in the two rankings. The bound on the raw
/// counter keeps the quadrupled score below saturation.
pub proof fn lemma_second_execution_rank_no_lower(
    apps1: SearchEntries,
    apps2: SearchEntries,
    wifi: WifiFinder,
    t: int,
    t1: u64,
    now: u64,
    c1: Seq<RankedEntry>,
    c2: Seq<RankedEntry>,
    i: int,
    j: int,
)
    requires
        apps1.wf(),
        apps2.spec_records() == apps1.spec_records(),
        0 <= t < apps1.spec_records().len(),
        apps2.spec_frequencies().spec_get(apps1.spec_records()[t].id@) == (match apps1.spec_frequencies().spec_get(apps1.spec_records()[t].id@) {
            Some(r) => Some(spec_bumped(r, t1)),
            None => Some(EntryFrequency { score: 1, last_used: t1 }),
        }),
        match apps1.spec_frequencies().spec_get(apps1.spec_records()[t].id@) {
            Some(r) => 4 * (r.score + 1) <= u32::MAX && r.last_used <= now,
            None => true,
        },
        forall|k: Seq<char>|
            k != apps1.spec_records()[t].id@ ==> apps2.spec_frequencies().spec_get(k) == apps1.spec_frequencies().spec_get(k),
        t1 <= now,
        now - t1 < SECONDS_PER_HOUR,
        collected_defaults(apps1, wifi, now, c1),
        collected_defaults(apps2, wifi, now, c2),
        0 <= i < spec_sort(c1).len(),
        spec_sort(c1)[i].rank == t,
        0 <= j < spec_sort(c2).len(),
        spec_sort(c2)[j].rank == t,
    ensures
        c2[t].score > c1[t].score,
        j <= i,
{
    let id = apps1.spec_records()[t].id@;
    let na = apps1.spec_records().len() as int;
    let nw = wifi.spec_networks().len() as int;
    lemma_sorted_element_by_rank(c1, i, t);
    lemma_sorted_element_by_rank(c2, j, t);
    assert(c1[t].score == apps1.spec_frequencies().spec_effective_of(id, now));
    assert(c2[t].score == apps2.spec_frequencies().spec_effective_of(id, now));
    match apps1.spec_frequencies().spec_get(id) {
        Some(r0) => {
            let r2 = spec_bumped(r0, t1);
            assert(apps2.spec_frequencies().spec_get(id) == Some(r2));
            assert(r2.score == r0.score + 1);
            assert(t1 <= r2.last_used <= now);
            assert(spec_effective_score(r2.score, r2.last_used, now) == 4 * (r0.score + 1));
            assert(spec_effective_score(r0.score, r0.last_used, now) <= 4 * r0.score) by {
                assert(r0.score / 4 <= r0.score / 2 <= r0.score as int) by (nonlinear_arith);
                assert(r0.score as int <= r0.score * 2 <= r0.score * 4) by (nonlinear_arith);
            }
        },
        None => {
            let r2 = EntryFrequency { score: 1, last_used: t1 };
            assert(apps2.spec_frequencies().spec_get(id) == Some(r2));
            assert(spec_effective_score(r2.score, t1, now) == 4);
        },
    }
    assert(c2[t].score > c1[t].score);
    assert forall|k: int|
        0 <= k < c1.len() && k != t implies (#[trigger] c1[k]).score == (#[trigger] c2[k]).score by {
        if k < na {
            assert(apps1.spec_records()[k].id@ != id);
            assert(apps2.spec_frequencies().spec_get(apps1.spec_records()[k].id@)
                == apps1.spec_frequencies().spec_get(apps1.spec_records()[k].id@));
        } else {
            assert(c1[k].score == wifi.spec_networks()[k - na].strength as u32);
            assert(c2[k].score == wifi.spec_networks()[k - na].strength as u32);
        }
    }
    lemma_raised_score_rank_no_lower(c1, c2, t, i, j);
}

/// The aggregator, owning the fixed set of sources.
pub struct Finders {
    desktop: SearchEntries,
    math: MathFinder,
    wifi: WifiFinder,
}

impl Finders {
    /// The application source.
    pub closed spec fn spec_desktop(&self) -> SearchEntries {
        self.desktop
    }

    /// The wireless source.
    pub closed spec fn spec_wifi(&self) -> WifiFinder {
        self.wifi
    }

    /// The stores are well-formed.
    pub open spec fn wf(&self) -> bool {
        self.spec_desktop().wf()
    }

    /// Assemble the aggregator from its sources.
    pub fn new(desktop: SearchEntries, math: MathFinder, wifi: WifiFinder) -> (r: Self)
        requires
            desktop.wf(),
        ensures
            r.wf(),
            r.spec_desktop() == desktop,
            r.spec_wifi() == wifi,
    {
        Finders { desktop, math, wifi }
    }

    /// Read access to the application source (its stores included).
    pub fn desktop(&self) -> (r: &SearchEntries)
        ensures
            r == self.spec_desktop(),
    {
        &self.desktop
    }

    /// Mutable access to the application source, for recording executions and
    /// favorites; the other sources are untouched.
    pub fn desktop_mut(&mut self) -> (r: &mut SearchEntries)
        ensures
            *r == old(self).spec_desktop(),
            final(self).spec_desktop() == *final(r),
            final(self).spec_wifi() == old(self).spec_wifi(),
    {
        &mut self.desktop
    }

    /// Mutable access to the wireless source, for the background cache
    /// refresh; the other sources are untouched.
    pub fn wifi_mut(&mut self) -> (r: &mut WifiFinder)
        ensures
            *r == old(self).spec_wifi(),
            final(self).spec_wifi() == *final(r),
            final(self).spec_desktop() == old(self).spec_desktop(),
    {
        &mut self.wifi
    }

    /// The ranked default list: every source's default contribution, stably
    /// sorted by descending score, ties broken by discovery order.
    pub fn default_entries(&self, now: u64) -> (r: Vec<RankedEntry>)
        ensures
            exists|c: Seq<RankedEntry>|
                #[trigger] collected_defaults(self.spec_desktop(), self.spec_wifi(), now, c) && r@
                    == spec_sort(c),
    {
        let mut collected: Vec<RankedEntry> = Vec::new();
        let apps = self.desktop.default_entries(now).unwrap();
        let ghost appsv = apps@;
        push_ranked(&mut collected, apps);
        let ghost c1 = collected@;
        match self.math.default_entries() {
            Some(list) => push_ranked(&mut collected, list),
            None => {},
        }
        assert(collected@ == c1);
        let nets = self.wifi.default_entries().unwrap();
        let ghost netsv = nets@;
        push_ranked(&mut collected, nets);
        let ghost c = collected@;
        proof {
            let recs = self.spec_desktop().spec_records();
            let nws = self.spec_wifi().spec_networks();
            let na = recs.len() as int;
            let nw = nws.len() as int;
            assert(c.len() == na + nw);
            assert forall|i: int| 0 <= i < c.len() implies (#[trigger] c[i]).rank == i by {
                if i < na {
                    assert(c[i] == c1[i]);
                    assert(c1[i].rank == 0 + i);
                } else {
                    assert(c[c1.len() + (i - na)].rank == c1.len() + (i - na));
                }
            }
            assert forall|i: int| 0 <= i < na implies is_app_entry(
                (#[trigger] c[i]).entry,
                recs[i],
            ) && c[i].score == self.spec_desktop().spec_frequencies().spec_effective_of(
                recs[i].id@,
                now,
            ) by {
                assert(c[i] == c1[i]);
                assert(c1[0 + i].entry == appsv[i].0 && c1[0 + i].score == appsv[i].1);
            }
            assert forall|i: int| na <= i < na + nw implies is_wifi_entry(
                (#[trigger] c[i]).entry,
                nws[i - na],
            ) && c[i].score == nws[i - na].strength as u32 by {
                assert(c[c1.len() + (i - na)].entry == netsv[i - na].0 && c[c1.len() + (i
                    - na)].score == netsv[i - na].1);
            }
            assert(collected_defaults(self.spec_desktop(), self.spec_wifi(), now, c));
        }
        let sorted = crate::rank::sort_ranked(collected);
        sorted
    }

    /// The ranked result list for a non-blank query: every source's
    /// contribution for it, stably sorted by descending match score. When
    /// the arithmetic source answers, its entry heads the list.
    pub fn filtered_entries(&self, query: &str) -> (r: Vec<RankedEntry>)
        requires
            !is_blank(query@),
        ensures
            exists|c: Seq<RankedEntry>|
                #[trigger] collected_filtered(self.spec_desktop(), self.spec_wifi(), query@, c)
                    && r@ == spec_sort(c),
            spec_math_count(query@) == 1 ==> (r@.len() > 0 && is_math_entry_for(
                r@[0].entry,
                query@,
            ) && r@[0].score == u32::MAX),
    {
        let ghost q = query@;
        let ghost fa = spec_app_filtered(self.spec_desktop().spec_records(), q);
        let ghost nm = spec_math_count(q);
        let ghost fw = spec_wifi_filtered(self.spec_wifi().spec_networks(), q);
        let mut collected: Vec<RankedEntry> = Vec::new();
        let maths = self.math.filtered_entries(query);
        match maths {
            Some(list) => {
                let ghost lv = list@;
                push_ranked(&mut collected, list);
                assert(nm == 1);
                assert(collected@[0int + 0int].entry == lv[0].0 && collected@[0int + 0int].score
                    == lv[0].1 && collected@[0int + 0int].rank == 0);
                assert(is_math_entry_for(collected@[0].entry, q));
            },
            None => {
                assert(nm == 0);
            },
        }
        let ghost c1 = collected@;
        assert(c1.len() == nm);
        assert(nm == 1 ==> is_math_entry_for(c1[0].entry, q) && c1[0].score == u32::MAX
            && c1[0].rank == 0);
        let apps = self.desktop.filtered_entries(query).unwrap();
        let ghost appsv = apps@;
        push_ranked(&mut collected, apps);
        let ghost c2 = collected@;
        let nets = self.wifi.filtered_entries(query).unwrap();
        let ghost netsv = nets@;
        push_ranked(&mut collected, nets);
        let ghost c = collected@;
        proof {
            let na = fa.len() as int;
            let nw = fw.len() as int;
            assert(c.len() == nm + na + nw);
            assert forall|i: int| 0 <= i < c.len() implies (#[trigger] c[i]).rank == i by {
                if i < nm {
                    assert(c[i] == c2[i] && c2[i] == c1[i]);
                } else if i < nm + na {
                    assert(c[i] == c2[i]);
                    assert(c2[c1.len() + (i - nm)].rank == c1.len() + (i - nm));
                } else {
                    assert(c[c2.len() + (i - nm - na)].rank == c2.len() + (i - nm - na));
                }
            }
            assert(nm == 1 ==> is_math_entry_for(c[0].entry, q) && c[0].score == u32::MAX) by {
                if nm == 1 {
                    assert(c[0] == c2[0] && c2[0] == c1[0]);
                }
            }
            assert forall|i: int| nm <= i < nm + na implies is_app_entry(
                (#[trigger] c[i]).entry,
                fa[i - nm].0,
            ) && c[i].score == fa[i - nm].1 by {
                assert(c[i] == c2[i]);
                assert(c2[c1.len() + (i - nm)].entry == appsv[i - nm].0 && c2[c1.len() + (i
                    - nm)].score == appsv[i - nm].1);
            }
            assert forall|i: int| nm + na <= i < nm + na + nw implies is_wifi_entry(
                (#[trigger] c[i]).entry,
                fw[i - nm - na].0,
            ) && c[i].score == fw[i - nm - na].1 by {
                assert(c[c2.len() + (i - nm - na)].entry == netsv[i - nm - na].0 && c[c2.len() + (i
                    - nm - na)].score == netsv[i - nm - na].1);
            }
            assert(collected_filtered(self.spec_desktop(), self.spec_wifi(), q, c));
            if nm == 1 {
                lemma_math_result_sorts_first(self.spec_desktop(), self.spec_wifi(), q, c);
            }
        }
        let sorted = crate::rank::sort_ranked(collected);
        sorted
    }

    /// Route a query: a blank query shows the default list, anything else is
    /// searched. `filtered_entries` is never invoked on a blank query.
    pub fn entries_for(&self, query: &str, now: u64) -> (r: Vec<RankedEntry>)
        ensures
            is_blank(query@) ==> exists|c: Seq<RankedEntry>|
                #[trigger] collected_defaults(self.spec_desktop(), self.spec_wifi(), now, c) && r@
                    == spec_sort(c),
            !is_blank(query@) ==> exists|c: Seq<RankedEntry>|
                #[trigger] collected_filtered(self.spec_desktop(), self.spec_wifi(), query@, c)
                    && r@ == spec_sort(c),
            !is_blank(query@) && spec_math_count(query@) == 1 ==> (r@.len() > 0
                && is_math_entry_for(r@[0].entry, query@) && r@[0].score == u32::MAX),
    {
        if query_is_blank(query) {
            self.default_entries(now)
        } else {
            self.filtered_entries(query)
        }
    }
}

/// Append scored entries to the collected list, decorating each with its
/// discovery position.
fn push_ranked(collected: &mut Vec<RankedEntry>, items: Vec<(Entry, u32)>)
    ensures
        final(collected)@.len() == old(collected)@.len() + items@.len(),
        forall|i: int|
            0 <= i < old(collected)@.len() ==> final(collected)@[i] == old(collected)@[i],
        forall|i: int|
            0 <= i < items@.len() ==> (#[trigger] final(collected)@[old(collected)@.len() + i]).entry
                == items@[i].0 && final(collected)@[old(collected)@.len() + i].score
                == items@[i].1 && final(collected)@[old(collected)@.len() + i].rank == old(
                collected,
            )@.len() + i,
{
    let ghost orig = items@;
    let ghost base = collected@;
    let total = items.len();
    let mut v = items;
    let mut taken: usize = 0;
    while v.len() > 0
        invariant
            taken + v@.len() == total,
            total == orig.len(),
            v@ =~= orig.skip(taken as int),
            collected@.len() == base.len() + taken,
            forall|i: int| 0 <= i < base.len() ==> collected@[i] == base[i],
            forall|i: int|
                0 <= i < taken ==> (#[trigger] collected@[base.len() + i]).entry == orig[i].0
                    && collected@[base.len() + i].score == orig[i].1 && collected@[base.len()
                    + i].rank == base.len() + i,
        decreases v@.len(),
    {
        let e = v.remove(0);
        assert(e == orig[taken as int]);
        let rank = collected.len();
        collected.push(RankedEntry { entry: e.0, score: e.1, rank });
        taken += 1;
        assert(v@ =~= orig.skip(taken as int));
    }
}

} // verus!
