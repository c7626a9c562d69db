//! Multi-source consolidation: several re-imports of statements (a bank never
//! hands over the whole history at once) combined into one series in date
//! order, with no FITID repeated across sources.

use vstd::prelude::*;
use crate::date::Date;
use crate::dedupe::{
    dates_agree, dates_at, day_numbers, dedupe_core, dedupe_outcome, date_extractor, first_index, fitid_extractor, key_listed,
    fitid_texts, fitids_agree, is_kept, kept_indices, lemma_dates_agree, lemma_fitids_agree,
    Fitid,
};

verus! {

/// Label of the source (imported file) that events came from.
#[derive(Debug, Clone, Hash, PartialOrd, Ord)]
pub struct SourceLabel(String);

impl View for SourceLabel {
    type V = Seq<char>;

    closed spec fn view(&self) -> Seq<char> {
        self.0@
    }
}

impl SourceLabel {
    /// The label `value`.
    pub fn new(value: &str) -> (r: SourceLabel)
        ensures
            r@ == value@,
    {
        SourceLabel(value.to_owned())
    }

    /// The label as a string.
    pub fn as_str(&self) -> (r: &str)
        ensures
            r@ == self@,
    {
        self.0.as_str()
    }
}

impl<'a> From<&'a str> for SourceLabel {
    fn from(value: &'a str) -> (r: SourceLabel)
        ensures
            r@ == value@,
    {
        SourceLabel::new(value)
    }
}

impl<'a> vstd::std_specs::convert::FromSpecImpl<&'a str> for SourceLabel {
    open spec fn obeys_from_spec() -> bool {
        false
    }

    open spec fn from_spec(v: &'a str) -> SourceLabel {
        arbitrary()
    }
}

impl PartialEq for SourceLabel {
    fn eq(&self, other: &SourceLabel) -> (r: bool) {
        self.0 == other.0
    }
}

impl vstd::std_specs::cmp::PartialEqSpecImpl for SourceLabel {
    open spec fn obeys_eq_spec() -> bool {
        true
    }

    open spec fn eq_spec(&self, other: &SourceLabel) -> bool {
        self@ == other@
    }
}

impl Eq for SourceLabel {}

/// The consolidated series, how many duplicates were dropped, and the
/// sources that were combined.
#[derive(Debug, Clone, PartialEq, Eq)]
pub struct ConsolidationOutcome<T> {
    pub events: Vec<T>,
    pub duplicates_removed: usize,
    pub sources: Vec<SourceLabel>,
}

/// Entry `a` comes before entry `b` when ordered by date, and by position on
/// equal dates.
pub open spec fn before_by_date(dates: Seq<int>, a: int, b: int) -> bool {
    dates[a] < dates[b] || (dates[a] == dates[b] && a < b)
}

/// Position `j` occurs in `perm`.
pub open spec fn is_listed(perm: Seq<int>, j: int) -> bool {
    exists|p: int| 0 <= p < perm.len() && #[trigger] perm[p] == j
}

/// `perm` lists every position of `dates` once, ordered by date and, on equal
/// dates, by position: the order of a stable sort by date.
pub open spec fn stable_date_order(dates: Seq<int>, perm: Seq<int>) -> bool {
    &&& perm.len() == dates.len()
    &&& forall|p: int| 0 <= p < perm.len() ==> 0 <= #[trigger] perm[p] < dates.len()
    &&& forall|p: int, q: int|
        0 <= p < perm.len() && 0 <= q < perm.len() && p != q ==> #[trigger] perm[p]
            != #[trigger] perm[q]
    &&& forall|j: int| 0 <= j < dates.len() ==> #[trigger] is_listed(perm, j)
    &&& forall|p: int, q: int|
        0 <= p < q < perm.len() ==> before_by_date(dates, #[trigger] perm[p], #[trigger] perm[q])
}

/// Adding position `i` to the first `i` positions ordered by date, at the
/// point after every earlier-or-equal date and before every later one.
proof fn lemma_insert_in_date_order(dates: Seq<int>, perm: Seq<int>, i: int, pos: int)
    requires
        0 <= i < dates.len(),
        stable_date_order(dates.take(i), perm),
        0 <= pos <= i,
        forall|q: int| 0 <= q < pos ==> dates[#[trigger] perm[q]] <= dates[i],
        forall|q: int| pos <= q < i ==> dates[#[trigger] perm[q]] > dates[i],
    ensures
        stable_date_order(dates.take(i + 1), perm.insert(pos, i)),
{
    let d0 = dates.take(i);
    let d1 = dates.take(i + 1);
    let np = perm.insert(pos, i);
    perm.insert_ensures(pos, i);
    assert forall|p: int| 0 <= p < np.len() implies np[p] == (if p < pos {
        perm[p]
    } else if p == pos {
        i
    } else {
        perm[p - 1]
    }) by {
        if p > pos {
            assert(np[(p - 1) + 1] == perm[p - 1]);
        }
    }
    assert forall|p: int| 0 <= p < perm.len() implies 0 <= #[trigger] perm[p] < i && d0[perm[p]]
        == dates[perm[p]] by {}
    assert forall|p: int| 0 <= p < np.len() implies 0 <= #[trigger] np[p] < d1.len() by {}
    assert forall|p: int, q: int|
        0 <= p < np.len() && 0 <= q < np.len() && p != q implies #[trigger] np[p]
        != #[trigger] np[q] by {
        if p != pos && q != pos {
            let p0 = if p < pos {
                p
            } else {
                p - 1
            };
            let q0 = if q < pos {
                q
            } else {
                q - 1
            };
            assert(perm[p0] != perm[q0]);
        }
    }
    assert forall|j: int| 0 <= j < d1.len() implies #[trigger] is_listed(np, j) by {
        if j < i {
            assert(j < d0.len());
            assert(is_listed(perm, j));
            let p0 = choose|p0: int| 0 <= p0 < perm.len() && #[trigger] perm[p0] == j;
            if p0 < pos {
                assert(np[p0] == j);
            } else {
                assert(np[p0 + 1] == j);
            }
        } else {
            assert(np[pos] == j);
        }
    }
    assert forall|p: int, q: int| 0 <= p < q < np.len() implies before_by_date(
        d1,
        #[trigger] np[p],
        #[trigger] np[q],
    ) by {
        if q < pos {
            assert(before_by_date(d0, perm[p], perm[q]));
        } else if q == pos {
            assert(dates[perm[p]] <= dates[i]);
        } else if p < pos {
            assert(before_by_date(d0, perm[p], perm[q - 1]));
        } else if p == pos {
            assert(dates[perm[q - 1]] > dates[i]);
        } else {
            assert(before_by_date(d0, perm[p - 1], perm[q - 1]));
        }
    }
}

/// The position in `out_dates` after every date up to `d` and before every
/// later one, given dates in non-decreasing order.
fn insertion_point(out_dates: &Vec<Date>, d: &Date) -> (pos: usize)
    ensures
        pos <= out_dates@.len(),
        forall|q: int| 0 <= q < pos ==> (#[trigger] out_dates@[q])@ <= d@,
        pos < out_dates@.len() ==> out_dates@[pos as int]@ > d@,
{
    let mut pos: usize = 0;
    while pos < out_dates.len()
        invariant
            pos <= out_dates@.len(),
            forall|q: int| 0 <= q < pos ==> (#[trigger] out_dates@[q])@ <= d@,
        decreases out_dates@.len() - pos,
    {
        if d.is_before(&out_dates[pos]) {
            return pos;
        }
        pos = pos + 1;
    }
    pos
}

/// Stable sort of `items` by `dates` (insertion sort); gives back, as a
/// ghost value, the position in `items` of each entry of the result.
fn sort_by_date<T>(items: Vec<T>, dates: Vec<Date>) -> (r: (Vec<T>, Ghost<Seq<int>>))
    requires
        items@.len() == dates@.len(),
    ensures
        stable_date_order(day_numbers(dates@), r.1@),
        r.0@.len() == r.1@.len(),
        forall|p: int| 0 <= p < r.1@.len() ==> r.0@[p] == items@[#[trigger] r.1@[p]],
{
    let ghost it0 = items@;
    let ghost ds = day_numbers(dates@);
    let n = items.len();
    let mut out: Vec<T> = Vec::new();
    let mut out_dates: Vec<Date> = Vec::new();
    let ghost mut perm: Seq<int> = Seq::empty();
    let mut i: usize = 0;
    assert(stable_date_order(ds.take(0), perm));
    for item in it: items
        invariant
            it.seq() == it0,
            i == it.index(),
            n == it0.len(),
            n == dates@.len(),
            ds == day_numbers(dates@),
            i <= n,
            stable_date_order(ds.take(i as int), perm),
            out@.len() == perm.len(),
            out_dates@.len() == perm.len(),
            forall|p: int|
                0 <= p < perm.len() ==> out@[p] == it0[#[trigger] perm[p]] && out_dates@[p]@
                    == ds[perm[p]],
    {
        let d = dates[i];
        proof {
            assert(item == it0[i as int]);
            assert(d@ == ds[i as int]);
        }
        let pos = insertion_point(&out_dates, &d);
        proof {
            let d0 = ds.take(i as int);
            assert forall|q: int| 0 <= q < pos implies ds[#[trigger] perm[q]] <= ds[i as int] by {
                assert(out_dates@[q]@ <= d@);
            }
            assert forall|q: int| pos <= q < i implies ds[#[trigger] perm[q]] > ds[i as int] by {
                if q > pos {
                    assert(before_by_date(d0, perm[pos as int], perm[q]));
                    assert(out_dates@[pos as int]@ == ds[perm[pos as int]]);
                }
            }
            lemma_insert_in_date_order(ds, perm, i as int, pos as int);
        }
        out.insert(pos, item);
        out_dates.insert(pos, d);
        proof {
            let old_perm = perm;
            perm = perm.insert(pos as int, i as int);
            old_perm.insert_ensures(pos as int, i as int);
            assert forall|p: int| 0 <= p < perm.len() implies out@[p] == it0[#[trigger] perm[p]]
                && out_dates@[p]@ == ds[perm[p]] by {
                if p > pos {
                    assert(perm[(p - 1) + 1] == old_perm[p - 1]);
                }
            }
        }
        i = i + 1;
    }
    assert(ds.take(n as int) =~= ds);
    (out, Ghost(perm))
}

/// All events of all sources, source after source.
pub open spec fn source_events<T>(sources: Seq<(SourceLabel, Vec<T>)>) -> Seq<T> {
    sources.map_values(|s: (SourceLabel, Vec<T>)| s.1@).flatten()
}

/// The labels of the sources, in order.
pub open spec fn source_labels<T>(sources: Seq<(SourceLabel, Vec<T>)>) -> Seq<SourceLabel> {
    sources.map_values(|s: (SourceLabel, Vec<T>)| s.0)
}

/// Entry `a` comes before entry `b` in a consolidated series: by date, and
/// on equal dates by the first occurrence of their FITIDs.
pub open spec fn series_before(keys: Seq<Seq<char>>, dates: Seq<int>, n: int, a: int, b: int) -> bool {
    dates[a] < dates[b] || (dates[a] == dates[b] && first_index(keys, keys[a], n) < first_index(
        keys,
        keys[b],
        n,
    ))
}

/// `src` lists positions among the first `n` entries with the given FITIDs
/// and dates that make a consolidated series:
/// - each is the entry kept for its FITID: the earliest dated, the first of
///   them on a tie of dates;
/// - no two share a FITID, and every FITID of the entries occurs;
/// - they are in date order, and entries of one date are in the order of
///   their FITIDs' first occurrences (so, across sources, the order of the
///   sources).
pub open spec fn consolidated_order(keys: Seq<Seq<char>>, dates: Seq<int>, n: int, src: Seq<int>) -> bool {
    &&& forall|p: int| 0 <= p < src.len() ==> is_kept(keys, dates, n, #[trigger] src[p])
    &&& forall|p: int, q: int|
        0 <= p < src.len() && 0 <= q < src.len() && p != q ==> keys[#[trigger] src[p]]
            != keys[#[trigger] src[q]]
    &&& forall|l: int|
        0 <= l < n ==> key_listed(keys, src, #[trigger] keys[l])
    &&& forall|p: int, q: int|
        0 <= p < q < src.len() ==> series_before(keys, dates, n, #[trigger] src[p], #[trigger] src[q])
}

/// `events` and `removed` consolidate `combined` with the extractors
/// `fitid_of` and `date_of`: for any FITIDs and dates that agree with the
/// extractors, `events` are the entries at positions that make a
/// [`consolidated_order`]; `removed` counts the other entries.
pub open spec fn consolidated<T, F: Fn(&T) -> Fitid, D: Fn(&T) -> Date>(
    fitid_of: F,
    date_of: D,
    combined: Seq<T>,
    events: Seq<T>,
    removed: int,
) -> bool {
    &&& removed == combined.len() - events.len()
    &&& forall|keys: Seq<Seq<char>>, dates: Seq<int>|
        #![trigger fitids_agree(fitid_of, combined, keys), dates_agree(date_of, combined, dates)]
        fitids_agree(fitid_of, combined, keys) && dates_agree(date_of, combined, dates) ==> exists|
            src: Seq<int>,
        |
            {
                &&& consolidated_order(keys, dates, combined.len() as int, src)
                &&& events.len() == src.len()
                &&& forall|p: int| 0 <= p < src.len() ==> events[p] == combined[#[trigger] src[p]]
            }
}

/// The kept entries of a deduplication, put in stable date order, are in
/// [`consolidated_order`].
proof fn lemma_consolidated_order(
    keys: Seq<Seq<char>>,
    dates: Seq<int>,
    n: int,
    idx: Seq<int>,
    kd: Seq<int>,
    perm: Seq<int>,
) -> (src: Seq<int>)
    requires
        0 <= n <= keys.len(),
        kept_indices(keys, dates, n, idx),
        kd.len() == idx.len(),
        forall|j: int| 0 <= j < idx.len() ==> #[trigger] kd[j] == dates[idx[j]],
        stable_date_order(kd, perm),
    ensures
        src.len() == perm.len(),
        forall|p: int| 0 <= p < src.len() ==> #[trigger] src[p] == idx[perm[p]],
        consolidated_order(keys, dates, n, src),
{
    let src = Seq::new(perm.len(), |p: int| idx[perm[p]]);
    assert forall|p: int| 0 <= p < src.len() implies #[trigger] src[p] == idx[perm[p]] && 0 <= perm[p]
        < idx.len() by {}
    assert forall|p: int| 0 <= p < src.len() implies is_kept(keys, dates, n, #[trigger] src[p]) by {
        assert(src[p] == idx[perm[p]]);
    }
    assert forall|p: int, q: int|
        0 <= p < src.len() && 0 <= q < src.len() && p != q implies keys[#[trigger] src[p]]
        != keys[#[trigger] src[q]] by {
        assert(perm[p] != perm[q]);
        assert(keys[idx[perm[p]]] != keys[idx[perm[q]]]);
    }
    assert forall|l: int| 0 <= l < n implies key_listed(keys, src, #[trigger] keys[l]) by {
        let j = choose|j: int| 0 <= j < idx.len() && keys[#[trigger] idx[j]] == keys[l];
        assert(is_listed(perm, j));
        let p = choose|p: int| 0 <= p < perm.len() && #[trigger] perm[p] == j;
        assert(src[p] == idx[j]);
        assert(keys[src[p]] == keys[l]);
    }
    assert forall|p: int, q: int| 0 <= p < q < src.len() implies series_before(
        keys,
        dates,
        n,
        #[trigger] src[p],
        #[trigger] src[q],
    ) by {
        assert(0 <= perm[p] < idx.len() && 0 <= perm[q] < idx.len());
        assert(src[p] == idx[perm[p]] && src[q] == idx[perm[q]]);
        assert(before_by_date(kd, perm[p], perm[q]));
        assert(kd[perm[p]] == dates[idx[perm[p]]]);
        assert(kd[perm[q]] == dates[idx[perm[q]]]);
        if kd[perm[p]] == kd[perm[q]] {
            assert(first_index(keys, keys[idx[perm[p]]], n) < first_index(
                keys,
                keys[idx[perm[q]]],
                n,
            ));
        }
    }
    src
}

/// Combines several sources into one series ordered by increasing date, with
/// no FITID repeated. On a repeated FITID the occurrence with the earliest
/// date wins; on a tie of dates the order of `sources` decides, the first
/// source winning, so the most trusted source should come first. Events of
/// equal dates stay in the order of the sources.
pub fn consolidate_by_fitid<T, F: Fn(&T) -> Fitid, D: Fn(&T) -> Date>(
    sources: Vec<(SourceLabel, Vec<T>)>,
    fitid_of: F,
    date_of: D,
) -> (r: ConsolidationOutcome<T>)
    requires
        fitid_extractor(fitid_of),
        date_extractor(date_of),
    ensures
        r.sources@ == source_labels(sources@),
        consolidated(
            fitid_of,
            date_of,
            source_events(sources@),
            r.events@,
            r.duplicates_removed as int,
        ),
        r.events@.len() + r.duplicates_removed == source_events(sources@).len(),
{
    let ghost src = sources@;
    let ghost parts = src.map_values(|s: (SourceLabel, Vec<T>)| s.1@);
    let mut labels: Vec<SourceLabel> = Vec::new();
    let mut combined: Vec<T> = Vec::new();
    let ghost mut i: int = 0;
    for source in it: sources
        invariant
            it.seq() == src,
            i == it.index(),
            parts == src.map_values(|s: (SourceLabel, Vec<T>)| s.1@),
            0 <= i <= src.len(),
            labels@ == source_labels(src.take(i)),
            combined@ == parts.take(i).flatten(),
    {
        let (label, mut events) = source;
        proof {
            assert(source == src[i]);
            assert(parts.take(i + 1) =~= parts.take(i).push(events@));
            parts.take(i).lemma_flatten_push(events@);
            assert(source_labels(src.take(i + 1)) =~= source_labels(src.take(i)).push(label));
        }
        labels.push(label);
        combined.append(&mut events);
        proof {
            i = i + 1;
        }
    }
    proof {
        assert(parts.take(src.len() as int) =~= parts);
        assert(src.take(src.len() as int) =~= src);
    }
    let ghost all = combined@;
    let (kept, kept_dates, removed, Ghost(run)) = dedupe_core(combined, fitid_of, date_of);
    let (events, Ghost(perm)) = sort_by_date(kept, kept_dates);
    let r = ConsolidationOutcome { events, duplicates_removed: removed, sources: labels };
    proof {
        let (ks, ds, idx) = run;
        let n = all.len() as int;
        let kd = day_numbers(kept_dates@);
        assert forall|j: int| 0 <= j < idx.len() implies #[trigger] kd[j] == day_numbers(ds)[idx[j]] by {
            assert(kept_dates@[j] == ds[idx[j]]);
        }
        let srcs = lemma_consolidated_order(fitid_texts(ks), day_numbers(ds), n, idx, kd, perm);
        assert forall|p: int| 0 <= p < srcs.len() implies r.events@[p] == all[#[trigger] srcs[p]] by {
            assert(r.events@[p] == kept@[perm[p]]);
            assert(0 <= perm[p] < idx.len());
        }
        assert forall|keys: Seq<Seq<char>>, dates: Seq<int>|
            fitids_agree(fitid_of, all, keys) && dates_agree(date_of, all, dates) implies exists|
            src2: Seq<int>,
        |
            {
                &&& consolidated_order(keys, dates, n, src2)
                &&& r.events@.len() == src2.len()
                &&& forall|p: int| 0 <= p < src2.len() ==> r.events@[p] == all[#[trigger] src2[p]]
            } by {
            lemma_fitids_agree(fitid_of, all, ks, keys);
            lemma_dates_agree(date_of, all, ds, dates);
        }
    }
    r
}

/// Two entries kept for the same FITID are the same entry.
proof fn lemma_kept_unique(keys: Seq<Seq<char>>, dates: Seq<int>, n: int, w1: int, w2: int)
    requires
        is_kept(keys, dates, n, w1),
        is_kept(keys, dates, n, w2),
        keys[w1] == keys[w2],
    ensures
        w1 == w2,
{
    if w1 < w2 {
        assert(keys[w1] == keys[w2]);
    } else if w2 < w1 {
        assert(keys[w2] == keys[w1]);
    }
}

/// Consolidation is deduplication followed by a stable sort by date: for
/// FITIDs and dates that agree with the extractors, a consolidation and a
/// deduplication of the same events remove the same number of entries, and
/// the consolidated series is the deduplicated one (the entries at the
/// positions `idx` that [`kept_indices`] describes) put in stable date order.
pub proof fn lemma_consolidation_sorts_dedupe<T, F: Fn(&T) -> Fitid, D: Fn(&T) -> Date>(
    fitid_of: F,
    date_of: D,
    sources: Seq<(SourceLabel, Vec<T>)>,
    consolidated_events: Seq<T>,
    consolidated_removed: int,
    deduped_events: Seq<T>,
    deduped_removed: int,
    keys: Seq<Seq<char>>,
    dates: Seq<int>,
)
    requires
        fitids_agree(fitid_of, source_events(sources), keys),
        dates_agree(date_of, source_events(sources), dates),
        consolidated(
            fitid_of,
            date_of,
            source_events(sources),
            consolidated_events,
            consolidated_removed,
        ),
        dedupe_outcome(fitid_of, date_of, source_events(sources), deduped_events, deduped_removed),
    ensures
        consolidated_removed == deduped_removed,
        exists|idx: Seq<int>, perm: Seq<int>|
            {
                &&& kept_indices(keys, dates, source_events(sources).len() as int, idx)
                &&& deduped_events.len() == idx.len()
                &&& forall|j: int|
                    0 <= j < idx.len() ==> deduped_events[j] == source_events(sources)[#[trigger] idx[j]]
                &&& stable_date_order(dates_at(dates, idx), perm)
                &&& consolidated_events.len() == perm.len()
                &&& forall|p: int|
                    0 <= p < perm.len() ==> consolidated_events[p] == deduped_events[#[trigger] perm[p]]
            },
{
    let all = source_events(sources);
    let n = all.len() as int;
    let idx = choose|idx: Seq<int>|
        {
            &&& kept_indices(keys, dates, n, idx)
            &&& deduped_events.len() == idx.len()
            &&& forall|p: int| 0 <= p < idx.len() ==> deduped_events[p] == all[#[trigger] idx[p]]
        };
    let src = choose|src: Seq<int>|
        {
            &&& consolidated_order(keys, dates, n, src)
            &&& consolidated_events.len() == src.len()
            &&& forall|p: int| 0 <= p < src.len() ==> consolidated_events[p] == all[#[trigger] src[p]]
        };
    let perm = Seq::new(
        src.len(),
        |p: int| choose|j: int| 0 <= j < idx.len() && #[trigger] idx[j] == src[p],
    );
    // Each consolidated position is a kept position.
    assert forall|p: int| 0 <= p < perm.len() implies 0 <= #[trigger] perm[p] < idx.len() && idx[perm[p]]
        == src[p] by {
        assert(is_kept(keys, dates, n, src[p]));
        assert(key_listed(keys, idx, keys[src[p]]));
        let j = choose|j: int| 0 <= j < idx.len() && keys[#[trigger] idx[j]] == keys[src[p]];
        assert(is_kept(keys, dates, n, idx[j]));
        lemma_kept_unique(keys, dates, n, idx[j], src[p]);
        assert(exists|j: int| 0 <= j < idx.len() && #[trigger] idx[j] == src[p]);
    }
    // Kept positions are distinct, and so are consolidated ones.
    assert forall|a: int, b: int| 0 <= a < idx.len() && 0 <= b < idx.len() && a != b implies #[trigger] idx[a]
        != #[trigger] idx[b] by {
        assert(keys[idx[a]] != keys[idx[b]]);
    }
    assert forall|a: int, b: int| 0 <= a < src.len() && 0 <= b < src.len() && a != b implies #[trigger] src[a]
        != #[trigger] src[b] by {
        assert(keys[src[a]] != keys[src[b]]);
    }
    // Each kept position is a consolidated one.
    assert forall|j: int| 0 <= j < idx.len() implies #[trigger] is_listed(perm, j) by {
        assert(is_kept(keys, dates, n, idx[j]));
        assert(key_listed(keys, src, keys[idx[j]]));
        let p = choose|p: int| 0 <= p < src.len() && keys[#[trigger] src[p]] == keys[idx[j]];
        assert(is_kept(keys, dates, n, src[p]));
        lemma_kept_unique(keys, dates, n, idx[j], src[p]);
        assert(idx[perm[p]] == src[p]);
        assert(perm[p] == j);
    }
    // Hence both list the same positions, as many of them.
    assert(src.to_set() =~= idx.to_set()) by {
        assert forall|x: int| src.to_set().contains(x) implies idx.to_set().contains(x) by {
            let p = choose|p: int| 0 <= p < src.len() && src[p] == x;
            assert(idx[perm[p]] == x);
        }
        assert forall|x: int| idx.to_set().contains(x) implies src.to_set().contains(x) by {
            let j = choose|j: int| 0 <= j < idx.len() && idx[j] == x;
            assert(is_listed(perm, j));
            let p = choose|p: int| 0 <= p < perm.len() && #[trigger] perm[p] == j;
            assert(src[p] == x);
        }
    }
    src.unique_seq_to_set();
    idx.unique_seq_to_set();
    let kd = dates_at(dates, idx);
    assert forall|p: int, q: int| 0 <= p < perm.len() && 0 <= q < perm.len() && p != q implies #[trigger] perm[p]
        != #[trigger] perm[q] by {
        assert(src[p] != src[q]);
    }
    assert forall|p: int, q: int| 0 <= p < q < perm.len() implies before_by_date(
        kd,
        #[trigger] perm[p],
        #[trigger] perm[q],
    ) by {
        assert(series_before(keys, dates, n, src[p], src[q]));
        assert(idx[perm[p]] == src[p] && idx[perm[q]] == src[q]);
        assert(perm[p] != perm[q]);
        if perm[q] < perm[p] {
            assert(first_index(keys, keys[idx[perm[q]]], n) < first_index(
                keys,
                keys[idx[perm[p]]],
                n,
            ));
        }
    }
    assert(stable_date_order(kd, perm));
    assert forall|p: int| 0 <= p < perm.len() implies consolidated_events[p]
        == deduped_events[#[trigger] perm[p]] by {
        assert(deduped_events[perm[p]] == all[idx[perm[p]]]);
    }
}

} // verus!
