//! Deduplication by FITID: re-imported statements whose date windows overlap
//! repeat the same transaction, under the same FITID. The functions here work
//! on any event type through two extractors, one for the FITID and one for the
//! date.

use vstd::prelude::*;
use crate::date::Date;

verus! {

/// The unique identifier of a transaction within its issuing account (the
/// `<FITID>` of an OFX statement).
#[derive(Debug, Clone, Hash, PartialOrd, Ord)]
pub struct Fitid(String);

impl View for Fitid {
    type V = Seq<char>;

    closed spec fn view(&self) -> Seq<char> {
        self.0@
    }
}

impl Fitid {
    /// The identifier `value`.
    pub fn new(value: &str) -> (r: Fitid)
        ensures
            r@ == value@,
    {
        Fitid(value.to_owned())
    }

    /// The identifier as a string.
    pub fn as_str(&self) -> (r: &str)
        ensures
            r@ == self@,
    {
        self.0.as_str()
    }
}

impl<'a> From<&'a str> for Fitid {
    fn from(value: &'a str) -> (r: Fitid)
        ensures
            r@ == value@,
    {
        Fitid::new(value)
    }
}

impl<'a> vstd::std_specs::convert::FromSpecImpl<&'a str> for Fitid {
    open spec fn obeys_from_spec() -> bool {
        false
    }

    open spec fn from_spec(v: &'a str) -> Fitid {
        arbitrary()
    }
}

impl PartialEq for Fitid {
    fn eq(&self, other: &Fitid) -> (r: bool) {
        self.0 == other.0
    }
}

impl vstd::std_specs::cmp::PartialEqSpecImpl for Fitid {
    open spec fn obeys_eq_spec() -> bool {
        true
    }

    open spec fn eq_spec(&self, other: &Fitid) -> bool {
        self@ == other@
    }
}

impl Eq for Fitid {}

/// The survivors of a deduplication and how many entries were dropped as
/// repetitions of a FITID.
#[derive(Debug, Clone, PartialEq, Eq)]
pub struct DedupeOutcome<T> {
    pub events: Vec<T>,
    pub duplicates_removed: usize,
}

/// `f` can be called on every event.
pub open spec fn fitid_extractor<T, F: Fn(&T) -> Fitid>(f: F) -> bool {
    forall|e: &T| #[trigger] f.requires((e,))
}

/// `g` can be called on every event.
pub open spec fn date_extractor<T, D: Fn(&T) -> Date>(g: D) -> bool {
    forall|e: &T| #[trigger] g.requires((e,))
}

/// `keys` lists, for each event, the FITID that `f` gives for it: whatever
/// `f` returns for `events[i]` has the text `keys[i]`.
pub open spec fn fitids_agree<T, F: Fn(&T) -> Fitid>(
    f: F,
    events: Seq<T>,
    keys: Seq<Seq<char>>,
) -> bool {
    &&& keys.len() == events.len()
    &&& forall|i: int, k: Fitid|
        0 <= i < events.len() && #[trigger] f.ensures((&events[i],), k) ==> k@ == keys[i]
}

/// `dates` lists, for each event, the day number of the date that `g` gives
/// for it.
pub open spec fn dates_agree<T, D: Fn(&T) -> Date>(g: D, events: Seq<T>, dates: Seq<int>) -> bool {
    &&& dates.len() == events.len()
    &&& forall|i: int, d: Date|
        0 <= i < events.len() && #[trigger] g.ensures((&events[i],), d) ==> d@ == dates[i]
}

/// The texts of FITIDs.
pub open spec fn fitid_texts(ks: Seq<Fitid>) -> Seq<Seq<char>> {
    ks.map_values(|k: Fitid| k@)
}

/// The day numbers of dates.
pub open spec fn day_numbers(ds: Seq<Date>) -> Seq<int> {
    ds.map_values(|d: Date| d@)
}

/// Keys that agree with FITIDs that `f` returned for each event are those
/// FITIDs' texts.
pub(crate) proof fn lemma_fitids_agree<T, F: Fn(&T) -> Fitid>(
    f: F,
    events: Seq<T>,
    ks: Seq<Fitid>,
    keys: Seq<Seq<char>>,
)
    requires
        ks.len() == events.len(),
        forall|i: int| 0 <= i < events.len() ==> f.ensures((&events[i],), #[trigger] ks[i]),
        fitids_agree(f, events, keys),
    ensures
        keys == fitid_texts(ks),
{
    assert forall|i: int| 0 <= i < keys.len() implies #[trigger] keys[i] == fitid_texts(ks)[i] by {
        assert(f.ensures((&events[i],), ks[i]));
    }
    assert(keys =~= fitid_texts(ks));
}

/// Day numbers that agree with dates that `g` returned for each event are
/// those dates' day numbers.
pub(crate) proof fn lemma_dates_agree<T, D: Fn(&T) -> Date>(
    g: D,
    events: Seq<T>,
    ds: Seq<Date>,
    dates: Seq<int>,
)
    requires
        ds.len() == events.len(),
        forall|i: int| 0 <= i < events.len() ==> g.ensures((&events[i],), #[trigger] ds[i]),
        dates_agree(g, events, dates),
    ensures
        dates == day_numbers(ds),
{
    assert forall|i: int| 0 <= i < dates.len() implies #[trigger] dates[i] == day_numbers(ds)[i] by {
        assert(g.ensures((&events[i],), ds[i]));
    }
    assert(dates =~= day_numbers(ds));
}

/// The first position below `n` that holds the key `k`, or `n` if there is
/// none.
pub open spec fn first_index(keys: Seq<Seq<char>>, k: Seq<char>, n: int) -> int
    decreases n,
{
    if n <= 0 {
        0
    } else {
        let f = first_index(keys, k, n - 1);
        if f < n - 1 {
            f
        } else if keys[n - 1] == k {
            n - 1
        } else {
            n
        }
    }
}

/// Among the first `n` entries, `w` is the one kept for its key: no entry of
/// that key is dated earlier, and entries of that key placed before `w` are
/// dated strictly later (so that ties keep the first occurrence).
pub open spec fn is_kept(keys: Seq<Seq<char>>, dates: Seq<int>, n: int, w: int) -> bool {
    &&& 0 <= w < n
    &&& forall|l: int|
        0 <= l < n && #[trigger] keys[l] == keys[w] ==> (l < w ==> dates[w] < dates[l]) && (l > w
            ==> dates[w] <= dates[l])
}

/// Some position listed in `idx` holds the key `k`.
pub open spec fn key_listed(keys: Seq<Seq<char>>, idx: Seq<int>, k: Seq<char>) -> bool {
    exists|p: int| 0 <= p < idx.len() && keys[#[trigger] idx[p]] == k
}

/// `idx` lists, for the first `n` entries with the given keys and dates, the
/// entry kept for each key: one per distinct key, the earliest dated one
/// (the first of them on a tie), ordered by the first occurrence of the key.
pub open spec fn kept_indices(keys: Seq<Seq<char>>, dates: Seq<int>, n: int, idx: Seq<int>) -> bool {
    &&& forall|p: int| 0 <= p < idx.len() ==> is_kept(keys, dates, n, #[trigger] idx[p])
    &&& forall|p: int, q: int|
        0 <= p < q < idx.len() ==> first_index(keys, keys[#[trigger] idx[p]], n) < first_index(
            keys,
            keys[#[trigger] idx[q]],
            n,
        )
    &&& forall|p: int, q: int|
        0 <= p < idx.len() && 0 <= q < idx.len() && p != q ==> keys[#[trigger] idx[p]]
            != keys[#[trigger] idx[q]]
    &&& forall|l: int|
        0 <= l < n ==> key_listed(keys, idx, #[trigger] keys[l])
}

/// Facts about [`first_index`].
proof fn lemma_first_index(keys: Seq<Seq<char>>, k: Seq<char>, n: int)
    requires
        0 <= n <= keys.len(),
    ensures
        0 <= first_index(keys, k, n) <= n,
        first_index(keys, k, n) < n ==> keys[first_index(keys, k, n)] == k,
        forall|l: int| 0 <= l < first_index(keys, k, n) ==> keys[l] != k,
    decreases n,
{
    if n > 0 {
        lemma_first_index(keys, k, n - 1);
    }
}

/// An entry's key first occurs no later than the entry.
proof fn lemma_first_index_le(keys: Seq<Seq<char>>, w: int, n: int)
    requires
        0 <= w < n <= keys.len(),
    ensures
        first_index(keys, keys[w], n) <= w,
        first_index(keys, keys[w], n) == first_index(keys, keys[w], n + 1) || n == keys.len(),
{
    lemma_first_index(keys, keys[w], n);
    if first_index(keys, keys[w], n) > w {
        assert(keys[w] != keys[w]);
    }
}


/// [`first_index`] below `n` reads only the first `n` keys.
proof fn lemma_first_index_prefix(keys: Seq<Seq<char>>, k: Seq<char>, n: int, m: int)
    requires
        0 <= n <= m <= keys.len(),
    ensures
        first_index(keys.take(m), k, n) == first_index(keys, k, n),
    decreases n,
{
    if n > 0 {
        lemma_first_index_prefix(keys, k, n - 1, m);
    }
}

/// [`kept_indices`] over the first `i` entries reads only those entries.
proof fn lemma_kept_prefix(keys: Seq<Seq<char>>, dates: Seq<int>, i: int, idx: Seq<int>)
    requires
        0 <= i <= keys.len(),
        dates.len() == keys.len(),
        kept_indices(keys.take(i), dates.take(i), i, idx),
    ensures
        kept_indices(keys, dates, i, idx),
{
    let k0 = keys.take(i);
    let d0 = dates.take(i);
    assert forall|p: int| 0 <= p < idx.len() implies is_kept(keys, dates, i, #[trigger] idx[p]) by {
        lemma_is_kept_prefix(keys, dates, i, idx[p]);
    }
    assert forall|p: int| 0 <= p < idx.len() implies first_index(keys, keys[#[trigger] idx[p]], i)
        == first_index(k0, k0[idx[p]], i) && k0[idx[p]] == keys[idx[p]] by {
        assert(is_kept(k0, d0, i, idx[p]));
        lemma_first_index_prefix(keys, keys[idx[p]], i, i);
    }
    assert forall|p: int, q: int| 0 <= p < q < idx.len() implies first_index(
        keys,
        keys[#[trigger] idx[p]],
        i,
    ) < first_index(keys, keys[#[trigger] idx[q]], i) by {
        assert(first_index(k0, k0[idx[p]], i) < first_index(k0, k0[idx[q]], i));
    }
    assert forall|p: int, q: int|
        0 <= p < idx.len() && 0 <= q < idx.len() && p != q implies keys[#[trigger] idx[p]]
        != keys[#[trigger] idx[q]] by {
        assert(k0[idx[p]] != k0[idx[q]]);
    }
    assert forall|l: int| 0 <= l < i implies key_listed(keys, idx, #[trigger] keys[l]) by {
        assert(k0[l] == keys[l]);
        let p = choose|p: int| 0 <= p < idx.len() && k0[#[trigger] idx[p]] == k0[l];
        assert(is_kept(k0, d0, i, idx[p]));
        assert(k0[idx[p]] == keys[idx[p]]);
        assert(0 <= p < idx.len() && keys[idx[p]] == keys[l]);
    }
}

/// [`is_kept`] over the first `i` entries reads only those entries.
proof fn lemma_is_kept_prefix(keys: Seq<Seq<char>>, dates: Seq<int>, i: int, w: int)
    requires
        0 <= i <= keys.len(),
        dates.len() == keys.len(),
        is_kept(keys.take(i), dates.take(i), i, w),
    ensures
        is_kept(keys, dates, i, w),
{
    let k0 = keys.take(i);
    assert forall|l: int| 0 <= l < i && #[trigger] keys[l] == keys[w] implies (l < w ==> dates[w]
        < dates[l]) && (l > w ==> dates[w] <= dates[l]) by {
        assert(k0[l] == keys[l]);
        assert(k0[w] == keys[w]);
    }
}

/// Keeping the entries kept among the first `i` events stays right when the
/// FITID and date of event `i` become known.
proof fn lemma_kept_extend(ks: Seq<Fitid>, ds: Seq<Date>, k: Fitid, d: Date, idx: Seq<int>)
    requires
        ks.len() == ds.len(),
        kept_indices(fitid_texts(ks), day_numbers(ds), ks.len() as int, idx),
    ensures
        kept_indices(fitid_texts(ks.push(k)), day_numbers(ds.push(d)), ks.len() as int, idx),
{
    let i = ks.len() as int;
    let keys = fitid_texts(ks.push(k));
    let dates = day_numbers(ds.push(d));
    assert(fitid_texts(ks) =~= keys.take(i));
    assert(day_numbers(ds) =~= dates.take(i));
    lemma_kept_prefix(keys, dates, i, idx);
}

/// Keeping the entries of `idx` and adding entry `i`, whose key is already
/// kept at position `p`: entry `i` takes position `p` when it is dated
/// strictly earlier.
#[verifier::spinoff_prover]
#[verifier::rlimit(40)]
proof fn lemma_kept_step_repeated(
    keys: Seq<Seq<char>>,
    dates: Seq<int>,
    i: int,
    idx: Seq<int>,
    p: int,
)
    requires
        0 <= i < keys.len(),
        kept_indices(keys, dates, i, idx),
        0 <= p < idx.len(),
        keys[idx[p]] == keys[i],
    ensures
        kept_indices(
            keys,
            dates,
            i + 1,
            if dates[i] < dates[idx[p]] {
                idx.update(p, i)
            } else {
                idx
            },
        ),
{
    let w = idx[p];
    let new_idx = if dates[i] < dates[idx[p]] {
        idx.update(p, i)
    } else {
        idx
    };
    assert forall|q: int| 0 <= q < new_idx.len() implies keys[new_idx[q]] == keys[idx[q]] && (q != p
        ==> new_idx[q] == idx[q]) by {}
    assert forall|q: int| 0 <= q < new_idx.len() implies is_kept(
        keys,
        dates,
        i + 1,
        #[trigger] new_idx[q],
    ) by {
        assert(is_kept(keys, dates, i, idx[q]));
        if q != p {
            assert(keys[idx[q]] != keys[idx[p]]);
        } else if dates[i] < dates[w] {
            assert forall|l: int| 0 <= l < i && #[trigger] keys[l] == keys[i] implies dates[i]
                < dates[l] by {
                assert(keys[l] == keys[w]);
            }
        }
    }
    assert forall|q: int| 0 <= q < idx.len() implies first_index(keys, keys[#[trigger] idx[q]], i + 1)
        == first_index(keys, keys[idx[q]], i) by {
        lemma_first_index_le(keys, idx[q], i);
    }
    assert forall|p1: int, q1: int| 0 <= p1 < q1 < new_idx.len() implies first_index(
        keys,
        keys[#[trigger] new_idx[p1]],
        i + 1,
    ) < first_index(keys, keys[#[trigger] new_idx[q1]], i + 1) by {
        assert(first_index(keys, keys[idx[p1]], i) < first_index(keys, keys[idx[q1]], i));
        assert(keys[new_idx[p1]] == keys[idx[p1]]);
        assert(keys[new_idx[q1]] == keys[idx[q1]]);
        assert(first_index(keys, keys[idx[p1]], i + 1) == first_index(keys, keys[idx[p1]], i));
        assert(first_index(keys, keys[idx[q1]], i + 1) == first_index(keys, keys[idx[q1]], i));
    }
    assert forall|p1: int, q1: int|
        0 <= p1 < new_idx.len() && 0 <= q1 < new_idx.len() && p1 != q1 implies keys[#[trigger] new_idx[p1]]
        != keys[#[trigger] new_idx[q1]] by {
        assert(keys[new_idx[p1]] == keys[idx[p1]]);
        assert(keys[new_idx[q1]] == keys[idx[q1]]);
        assert(keys[idx[p1]] != keys[idx[q1]]);
    }
    assert forall|l: int| 0 <= l < i + 1 implies key_listed(keys, new_idx, #[trigger] keys[l]) by {
        if l < i {
            let p1 = choose|p1: int| 0 <= p1 < idx.len() && keys[#[trigger] idx[p1]] == keys[l];
            assert(keys[new_idx[p1]] == keys[idx[p1]]);
            assert(keys[new_idx[p1]] == keys[l]);
        } else {
            assert(keys[new_idx[p]] == keys[idx[p]]);
            assert(keys[new_idx[p]] == keys[l]);
        }
    }
}

/// Keeping the entries of `idx` and adding entry `i`, whose key is not kept
/// yet: it is appended.
#[verifier::spinoff_prover]
#[verifier::rlimit(40)]
proof fn lemma_kept_step_new(keys: Seq<Seq<char>>, dates: Seq<int>, i: int, idx: Seq<int>)
    requires
        0 <= i < keys.len(),
        kept_indices(keys, dates, i, idx),
        forall|p: int| 0 <= p < idx.len() ==> keys[#[trigger] idx[p]] != keys[i],
    ensures
        kept_indices(keys, dates, i + 1, idx.push(i)),
{
    let new_idx = idx.push(i);
    let k = keys[i];
    assert forall|l: int| 0 <= l < i implies #[trigger] keys[l] != k by {
        let p1 = choose|p1: int| 0 <= p1 < idx.len() && keys[#[trigger] idx[p1]] == keys[l];
    }
    lemma_first_index(keys, k, i);
    assert(first_index(keys, k, i) == i);
    assert(first_index(keys, k, i + 1) == i);
    assert forall|q: int| 0 <= q < new_idx.len() implies is_kept(
        keys,
        dates,
        i + 1,
        #[trigger] new_idx[q],
    ) by {
        if q < idx.len() {
            assert(is_kept(keys, dates, i, idx[q]));
            assert(keys[idx[q]] != k);
        }
    }
    assert forall|q: int| 0 <= q < idx.len() implies first_index(keys, keys[#[trigger] idx[q]], i + 1)
        == first_index(keys, keys[idx[q]], i) && first_index(keys, keys[idx[q]], i) < i by {
        lemma_first_index_le(keys, idx[q], i);
        assert(is_kept(keys, dates, i, idx[q]));
    }
    assert forall|p1: int, q1: int| 0 <= p1 < q1 < new_idx.len() implies first_index(
        keys,
        keys[#[trigger] new_idx[p1]],
        i + 1,
    ) < first_index(keys, keys[#[trigger] new_idx[q1]], i + 1) by {
        assert(new_idx[p1] == idx[p1]);
        if q1 < idx.len() {
            assert(new_idx[q1] == idx[q1]);
            assert(first_index(keys, keys[idx[p1]], i) < first_index(keys, keys[idx[q1]], i));
        } else {
            assert(new_idx[q1] == i);
        }
    }
    assert forall|p1: int, q1: int|
        0 <= p1 < new_idx.len() && 0 <= q1 < new_idx.len() && p1 != q1 implies keys[#[trigger] new_idx[p1]]
        != keys[#[trigger] new_idx[q1]] by {
        if p1 < idx.len() && q1 < idx.len() {
            assert(keys[idx[p1]] != keys[idx[q1]]);
        }
    }
    assert forall|l: int| 0 <= l < i + 1 implies key_listed(keys, new_idx, #[trigger] keys[l]) by {
        if l < i {
            let p1 = choose|p1: int| 0 <= p1 < idx.len() && keys[#[trigger] idx[p1]] == keys[l];
            assert(new_idx[p1] == idx[p1]);
            assert(keys[new_idx[p1]] == keys[l]);
        } else {
            assert(new_idx[idx.len() as int] == i);
            assert(keys[new_idx[idx.len() as int]] == keys[l]);
        }
    }
}


/// The first position of `k` in `keys`, or `keys.len()` if it is absent.
fn position_of(keys: &Vec<Fitid>, k: &Fitid) -> (r: usize)
    ensures
        r <= keys@.len(),
        r < keys@.len() ==> keys@[r as int]@ == k@,
        forall|q: int| 0 <= q < r ==> (#[trigger] keys@[q])@ != k@,
{
    let mut p: usize = 0;
    while p < keys.len()
        invariant
            p <= keys@.len(),
            forall|q: int| 0 <= q < p ==> (#[trigger] keys@[q])@ != k@,
        decreases keys@.len() - p,
    {
        if keys[p] == *k {
            return p;
        }
        p = p + 1;
    }
    p
}

/// Deduplicates `events`. Besides the kept entries, their dates and the
/// count of removed entries, it gives back (as ghost values) the FITID and the
/// date that the extractors returned for each event, and the positions of the
/// kept entries.
///
/// The FITIDs seen so far are held in a `Vec` and found by [`position_of`], a
/// linear search, so the work grows with the square of the number of distinct
/// FITIDs. A `HashMap` keyed by FITID would be faster, but vstd's
/// specification of `HashMap` only describes its contents for key types that
/// satisfy `obeys_key_model`, which vstd establishes for integer and `bool`
/// keys alone; for `String` or `Fitid` keys it could only be assumed, and
/// nothing about lookups could be proved.
pub(crate) fn dedupe_core<T, F: Fn(&T) -> Fitid, D: Fn(&T) -> Date>(
    events: Vec<T>,
    fitid_of: F,
    date_of: D,
) -> (r: (Vec<T>, Vec<Date>, usize, Ghost<(Seq<Fitid>, Seq<Date>, Seq<int>)>))
    requires
        fitid_extractor(fitid_of),
        date_extractor(date_of),
    ensures
        r.3@.0.len() == events@.len(),
        r.3@.1.len() == events@.len(),
        forall|i: int|
            0 <= i < events@.len() ==> fitid_of.ensures((&events@[i],), #[trigger] r.3@.0[i]),
        forall|i: int|
            0 <= i < events@.len() ==> date_of.ensures((&events@[i],), #[trigger] r.3@.1[i]),
        kept_indices(
            fitid_texts(r.3@.0),
            day_numbers(r.3@.1),
            events@.len() as int,
            r.3@.2,
        ),
        r.0@.len() == r.3@.2.len(),
        r.1@.len() == r.3@.2.len(),
        forall|p: int|
            0 <= p < r.3@.2.len() ==> r.0@[p] == events@[#[trigger] r.3@.2[p]] && r.1@[p]
                == r.3@.1[r.3@.2[p]],
        r.2 + r.0@.len() == events@.len(),
{
    let ghost ev = events@;
    let n = events.len();
    let ghost mut ks: Seq<Fitid> = Seq::empty();
    let ghost mut ds: Seq<Date> = Seq::empty();
    let mut kept: Vec<T> = Vec::new();
    let mut kept_keys: Vec<Fitid> = Vec::new();
    let mut kept_dates: Vec<Date> = Vec::new();
    let mut removed: usize = 0;
    let ghost mut idx: Seq<int> = Seq::empty();
    let ghost mut i: int = 0;
    for event in it: events
        invariant
            it.seq() == ev,
            i == it.index(),
            n == ev.len(),
            i <= ev.len(),
            fitid_extractor(fitid_of),
            date_extractor(date_of),
            ks.len() == i,
            ds.len() == i,
            0 <= i,
            forall|j: int| 0 <= j < i ==> fitid_of.ensures((&ev[j],), #[trigger] ks[j]),
            forall|j: int| 0 <= j < i ==> date_of.ensures((&ev[j],), #[trigger] ds[j]),
            kept@.len() == idx.len(),
            kept_keys@.len() == idx.len(),
            kept_dates@.len() == idx.len(),
            forall|p: int|
                0 <= p < idx.len() ==> 0 <= #[trigger] idx[p] < i && kept@[p] == ev[idx[p]]
                    && kept_keys@[p]@ == ks[idx[p]]@ && kept_dates@[p] == ds[idx[p]],
            kept_indices(fitid_texts(ks), day_numbers(ds), i, idx),
            removed + idx.len() == i,
    {
        let k = fitid_of(&event);
        let d = date_of(&event);
        let ghost keys = fitid_texts(ks.push(k));
        let ghost dates = day_numbers(ds.push(d));
        proof {
            assert(event == ev[i]);
            assert(i < ev.len());
            lemma_kept_extend(ks, ds, k, d, idx);
        }
        let p = position_of(&kept_keys, &k);
        if p < kept_keys.len() {
            proof {
                lemma_kept_step_repeated(keys, dates, i, idx, p as int);
            }
            if d.is_before(&kept_dates[p]) {
                kept.set(p, event);
                kept_dates.set(p, d);
                proof {
                    idx = idx.update(p as int, i);
                }
            }
            removed = removed + 1;
        } else {
            proof {
                lemma_kept_step_new(keys, dates, i, idx);
            }
            kept.push(event);
            kept_keys.push(k);
            kept_dates.push(d);
            proof {
                idx = idx.push(i);
            }
        }
        proof {
            ks = ks.push(k);
            ds = ds.push(d);
            i = i + 1;
        }
    }
    (kept, kept_dates, removed, Ghost((ks, ds, idx)))
}

/// `kept` and `removed` are the outcome of deduplicating `events` with the
/// extractors `fitid_of` and `date_of`: for any FITIDs and dates that agree
/// with the extractors, `kept` holds one entry per distinct FITID, the
/// earliest dated (the first of them on a tie), in the order of the FITIDs'
/// first occurrences; `removed` counts the other entries.
pub open spec fn dedupe_outcome<T, F: Fn(&T) -> Fitid, D: Fn(&T) -> Date>(
    fitid_of: F,
    date_of: D,
    events: Seq<T>,
    kept: Seq<T>,
    removed: int,
) -> bool {
    &&& removed == events.len() - kept.len()
    &&& forall|keys: Seq<Seq<char>>, dates: Seq<int>|
        #![trigger fitids_agree(fitid_of, events, keys), dates_agree(date_of, events, dates)]
        fitids_agree(fitid_of, events, keys) && dates_agree(date_of, events, dates) ==> exists|
            idx: Seq<int>,
        |
            {
                &&& kept_indices(keys, dates, events.len() as int, idx)
                &&& kept.len() == idx.len()
                &&& forall|p: int| 0 <= p < idx.len() ==> kept[p] == events[#[trigger] idx[p]]
            }
}

/// Drops entries whose FITID repeats, keeping for each FITID the occurrence
/// with the **earliest date** (the first record of the transaction; a later
/// re-import is the copy); on a tie of dates the first occurrence stays. The
/// survivors keep the relative order of their FITIDs' first occurrences:
/// sorting by date is not done here.
pub fn dedupe_by_fitid<T, F: Fn(&T) -> Fitid, D: Fn(&T) -> Date>(
    events: Vec<T>,
    fitid_of: F,
    date_of: D,
) -> (r: DedupeOutcome<T>)
    requires
        fitid_extractor(fitid_of),
        date_extractor(date_of),
    ensures
        dedupe_outcome(fitid_of, date_of, events@, r.events@, r.duplicates_removed as int),
        r.events@.len() + r.duplicates_removed == events@.len(),
{
    let ghost ev = events@;
    let (kept, _kept_dates, removed, Ghost(run)) = dedupe_core(events, fitid_of, date_of);
    let r = DedupeOutcome { events: kept, duplicates_removed: removed };
    proof {
        let (ks, ds, idx) = run;
        assert forall|keys: Seq<Seq<char>>, dates: Seq<int>|
            fitids_agree(fitid_of, ev, keys) && dates_agree(date_of, ev, dates) implies exists|
            idx2: Seq<int>,
        |
            {
                &&& kept_indices(keys, dates, ev.len() as int, idx2)
                &&& r.events@.len() == idx2.len()
                &&& forall|p: int|
                    0 <= p < idx2.len() ==> r.events@[p] == ev[#[trigger] idx2[p]]
            } by {
            lemma_fitids_agree(fitid_of, ev, ks, keys);
            lemma_dates_agree(date_of, ev, ds, dates);
            assert(forall|p: int| 0 <= p < idx.len() ==> r.events@[p] == ev[#[trigger] idx[p]]);
        }
    }
    r
}

/// The keys at the positions listed in `idx`.
pub open spec fn keys_at(keys: Seq<Seq<char>>, idx: Seq<int>) -> Seq<Seq<char>> {
    idx.map_values(|i: int| keys[i])
}

/// The dates at the positions listed in `idx`.
pub open spec fn dates_at(dates: Seq<int>, idx: Seq<int>) -> Seq<int> {
    idx.map_values(|i: int| dates[i])
}

/// Some entry of `idx` is `l`.
spec fn position_listed(idx: Seq<int>, l: int) -> bool {
    exists|q: int| 0 <= q < idx.len() && #[trigger] idx[q] == l
}

/// A strictly increasing sequence of positions below `m` that holds every
/// position below `m` lists them in order.
proof fn lemma_increasing_onto(m: int, idx: Seq<int>, p: int)
    requires
        0 <= p < idx.len(),
        forall|p1: int, q1: int| 0 <= p1 < q1 < idx.len() ==> #[trigger] idx[p1] < #[trigger] idx[q1],
        forall|q: int| 0 <= q < idx.len() ==> 0 <= #[trigger] idx[q] < m,
        forall|l: int| 0 <= l < m ==> #[trigger] position_listed(idx, l),
    ensures
        idx[p] == p,
    decreases p,
{
    if p > 0 {
        lemma_increasing_onto(m, idx, p - 1);
        assert(idx[p - 1] < idx[p]);
    }
    if idx[p] > p {
        assert(position_listed(idx, p));
        let q = choose|q: int| 0 <= q < idx.len() && #[trigger] idx[q] == p;
        if q < p {
            assert(idx[q] < idx[p - 1] || q == p - 1);
        } else if q > p {
            assert(idx[p] < idx[q]);
        }
    }
}

/// Among keys that are pairwise distinct, the entries kept are all of them,
/// in their order.
proof fn lemma_kept_all_distinct(keys: Seq<Seq<char>>, dates: Seq<int>, idx: Seq<int>)
    requires
        keys.len() == dates.len(),
        forall|a: int, b: int|
            0 <= a < keys.len() && 0 <= b < keys.len() && a != b ==> #[trigger] keys[a]
                != #[trigger] keys[b],
        kept_indices(keys, dates, keys.len() as int, idx),
    ensures
        idx == Seq::new(keys.len(), |p: int| p),
{
    let m = keys.len() as int;
    assert forall|j: int| 0 <= j < m implies #[trigger] first_index(keys, keys[j], m) == j by {
        lemma_first_index(keys, keys[j], m);
        lemma_first_index_le(keys, j, m);
    }
    assert forall|p: int, q: int| 0 <= p < q < idx.len() implies #[trigger] idx[p] < #[trigger] idx[q] by {
        assert(is_kept(keys, dates, m, idx[p]));
        assert(is_kept(keys, dates, m, idx[q]));
        assert(first_index(keys, keys[idx[p]], m) < first_index(keys, keys[idx[q]], m));
    }
    assert forall|q: int| 0 <= q < idx.len() implies 0 <= #[trigger] idx[q] < m by {
        assert(is_kept(keys, dates, m, idx[q]));
    }
    assert forall|l: int| 0 <= l < m implies #[trigger] position_listed(idx, l) by {
        assert(key_listed(keys, idx, keys[l]));
        let q = choose|q: int| 0 <= q < idx.len() && keys[#[trigger] idx[q]] == keys[l];
        assert(idx[q] == l);
    }
    assert forall|p: int| 0 <= p < idx.len() implies #[trigger] idx[p] == p by {
        lemma_increasing_onto(m, idx, p);
    }
    if idx.len() < m {
        assert(position_listed(idx, m - 1));
        let q = choose|q: int| 0 <= q < idx.len() && #[trigger] idx[q] == m - 1;
        assert(idx[q] == q);
    }
    if idx.len() > m {
        assert(idx[m] == m);
    }
    assert(idx =~= Seq::new(keys.len(), |p: int| p));
}

/// The entries kept by a deduplication, deduplicated again, are all kept,
/// in the same order.
pub proof fn lemma_kept_indices_idempotent(
    keys: Seq<Seq<char>>,
    dates: Seq<int>,
    idx: Seq<int>,
    idx2: Seq<int>,
)
    requires
        keys.len() == dates.len(),
        kept_indices(keys, dates, keys.len() as int, idx),
        kept_indices(keys_at(keys, idx), dates_at(dates, idx), idx.len() as int, idx2),
    ensures
        idx2 == Seq::new(idx.len(), |p: int| p),
{
    let n = keys.len() as int;
    let k2 = keys_at(keys, idx);
    assert forall|a: int, b: int|
        0 <= a < k2.len() && 0 <= b < k2.len() && a != b implies #[trigger] k2[a]
            != #[trigger] k2[b] by {
        assert(is_kept(keys, dates, n, idx[a]));
        assert(is_kept(keys, dates, n, idx[b]));
    }
    lemma_kept_all_distinct(k2, dates_at(dates, idx), idx2);
}

/// Deduplication is idempotent: for extractors that some FITIDs and dates
/// agree with, deduplicating the survivors again keeps them all, in the same
/// order, and removes nothing.
pub proof fn lemma_dedupe_idempotent<T, F: Fn(&T) -> Fitid, D: Fn(&T) -> Date>(
    fitid_of: F,
    date_of: D,
    events: Seq<T>,
    kept: Seq<T>,
    removed: int,
    kept2: Seq<T>,
    removed2: int,
    keys: Seq<Seq<char>>,
    dates: Seq<int>,
)
    requires
        fitids_agree(fitid_of, events, keys),
        dates_agree(date_of, events, dates),
        dedupe_outcome(fitid_of, date_of, events, kept, removed),
        dedupe_outcome(fitid_of, date_of, kept, kept2, removed2),
    ensures
        kept2 == kept,
        removed2 == 0,
{
    let n = events.len() as int;
    let idx = choose|idx: Seq<int>|
        {
            &&& kept_indices(keys, dates, n, idx)
            &&& kept.len() == idx.len()
            &&& forall|p: int| 0 <= p < idx.len() ==> kept[p] == events[#[trigger] idx[p]]
        };
    let k2 = keys_at(keys, idx);
    let d2 = dates_at(dates, idx);
    assert forall|i: int, k: Fitid|
        0 <= i < kept.len() && #[trigger] fitid_of.ensures((&kept[i],), k) implies k@ == k2[i] by {
        assert(is_kept(keys, dates, n, idx[i]));
        assert(kept[i] == events[idx[i]]);
    }
    assert forall|i: int, d: Date|
        0 <= i < kept.len() && #[trigger] date_of.ensures((&kept[i],), d) implies d@ == d2[i] by {
        assert(is_kept(keys, dates, n, idx[i]));
        assert(kept[i] == events[idx[i]]);
    }
    assert(fitids_agree(fitid_of, kept, k2));
    assert(dates_agree(date_of, kept, d2));
    let idx2 = choose|idx2: Seq<int>|
        {
            &&& kept_indices(k2, d2, kept.len() as int, idx2)
            &&& kept2.len() == idx2.len()
            &&& forall|p: int| 0 <= p < idx2.len() ==> kept2[p] == kept[#[trigger] idx2[p]]
        };
    lemma_kept_indices_idempotent(keys, dates, idx, idx2);
    assert forall|p: int| 0 <= p < kept2.len() implies kept2[p] == kept[p] by {
        assert(kept2[p] == kept[idx2[p]]);
    }
    assert(kept2 =~= kept);
}

} // verus!
