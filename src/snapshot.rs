//! The snapshot of a stream: its manifests, each with the time bounds of the
//! rows it describes.

use vstd::prelude::*;

verus! {

/// One manifest of a snapshot with the time bounds (milliseconds) of its rows.
#[derive(Debug)]
pub struct ManifestItem {
    pub manifest_path: String,
    pub time_lower_bound: i64,
    pub time_upper_bound: i64,
}

impl ManifestItem {
    /// A copy of the item.
    pub fn copy(&self) -> (r: ManifestItem)
        ensures
            r == *self,
    {
        ManifestItem {
            manifest_path: self.manifest_path.clone(),
            time_lower_bound: self.time_lower_bound,
            time_upper_bound: self.time_upper_bound,
        }
    }
}

/// The manifests of a stream.
#[derive(Debug)]
pub struct Snapshot {
    pub manifest_list: Vec<ManifestItem>,
}

/// One end of a time interval.
#[derive(Clone, Copy, Debug, PartialEq, Eq, Structural)]
pub enum TimeBound {
    Included(i64),
    Excluded(i64),
    Unbounded,
}

/// A bound on the time of the rows that a scan wants.
#[derive(Clone, Copy, Debug, PartialEq, Eq, Structural)]
pub enum PartialTimeFilter {
    Low(TimeBound),
    High(TimeBound),
    Eq(i64),
}

/// Whether a manifest's bounds let it hold rows that satisfy `f`.
pub open spec fn item_passes(item: ManifestItem, f: PartialTimeFilter) -> bool {
    match f {
        PartialTimeFilter::Low(TimeBound::Included(t)) => item.time_upper_bound >= t,
        PartialTimeFilter::Low(TimeBound::Excluded(t)) => item.time_upper_bound > t,
        PartialTimeFilter::High(TimeBound::Included(t)) => item.time_lower_bound <= t,
        PartialTimeFilter::High(TimeBound::Excluded(t)) => item.time_lower_bound < t,
        PartialTimeFilter::Eq(t) => item.time_lower_bound <= t && t <= item.time_upper_bound,
        _ => true,
    }
}

/// Whether a manifest passes every filter of `fs`.
pub open spec fn item_passes_all(item: ManifestItem, fs: Seq<PartialTimeFilter>) -> bool {
    forall|k: int| 0 <= k < fs.len() ==> #[trigger] item_passes(item, fs[k])
}

/// The items of `items` that pass every filter, in their order.
pub open spec fn select_items(items: Seq<ManifestItem>, fs: Seq<PartialTimeFilter>) -> Seq<
    ManifestItem,
>
    decreases items.len(),
{
    if items.len() == 0 {
        Seq::empty()
    } else {
        let rest = select_items(items.drop_last(), fs);
        if item_passes_all(items.last(), fs) {
            rest.push(items.last())
        } else {
            rest
        }
    }
}

/// Whether the time interval of a manifest meets the closed interval `[lo, hi]`.
pub open spec fn item_meets(item: ManifestItem, lo: int, hi: int) -> bool {
    item.time_upper_bound >= lo && item.time_lower_bound <= hi
}

/// Whether items are in ascending order of their lower time bound.
pub open spec fn sorted_by_lower(s: Seq<ManifestItem>) -> bool {
    forall|i: int, j: int|
        0 <= i < j < s.len() ==> #[trigger] s[i].time_lower_bound <= #[trigger] s[j].time_lower_bound
}

fn passes(item: &ManifestItem, f: &PartialTimeFilter) -> (r: bool)
    ensures
        r == item_passes(*item, *f),
{
    match f {
        PartialTimeFilter::Low(TimeBound::Included(t)) => item.time_upper_bound >= *t,
        PartialTimeFilter::Low(TimeBound::Excluded(t)) => item.time_upper_bound > *t,
        PartialTimeFilter::High(TimeBound::Included(t)) => item.time_lower_bound <= *t,
        PartialTimeFilter::High(TimeBound::Excluded(t)) => item.time_lower_bound < *t,
        PartialTimeFilter::Eq(t) => item.time_lower_bound <= *t && *t <= item.time_upper_bound,
        _ => true,
    }
}

fn passes_all(item: &ManifestItem, fs: &[PartialTimeFilter]) -> (r: bool)
    ensures
        r == item_passes_all(*item, fs@),
{
    let mut k: usize = 0;
    while k < fs.len()
        invariant
            k <= fs@.len(),
            forall|j: int| 0 <= j < k ==> #[trigger] item_passes(*item, fs@[j]),
        decreases fs@.len() - k,
    {
        if !passes(item, &fs[k]) {
            return false;
        }
        k = k + 1;
    }
    true
}

/// Relies on `slice::sort_by_key` of std: the result is a permutation of the
/// input in ascending order of the key (the sort is stable).
#[verifier::external_body]
fn sort_by_lower_bound(v: &mut Vec<ManifestItem>)
    ensures
        final(v)@.to_multiset() == old(v)@.to_multiset(),
        sorted_by_lower(final(v)@),
{
    v.sort_by_key(|item| item.time_lower_bound)
}

impl Snapshot {
    /// The manifests that pass every filter, in snapshot order.
    pub fn manifests(&self, time_predicates: &[PartialTimeFilter]) -> (r: Vec<ManifestItem>)
        ensures
            r@ == select_items(self.manifest_list@, time_predicates@),
    {
        let mut r: Vec<ManifestItem> = Vec::new();
        let mut i: usize = 0;
        while i < self.manifest_list.len()
            invariant
                i <= self.manifest_list@.len(),
                r@ == select_items(self.manifest_list@.subrange(0, i as int), time_predicates@),
            decreases self.manifest_list@.len() - i,
        {
            let item = &self.manifest_list[i];
            proof {
                let s = self.manifest_list@.subrange(0, i as int + 1);
                assert(s.drop_last() =~= self.manifest_list@.subrange(0, i as int));
                assert(s.last() == self.manifest_list@[i as int]);
            }
            if passes_all(item, time_predicates) {
                r.push(item.copy());
            }
            i = i + 1;
        }
        assert(self.manifest_list@.subrange(0, i as int) =~= self.manifest_list@);
        r
    }

    /// The manifests whose time interval meets `[lo, hi]`, in ascending order
    /// of their lower bound.
    pub fn manifests_in_range(&self, lo: i64, hi: i64) -> (r: Vec<ManifestItem>)
        ensures
            r@.to_multiset() == self.manifest_list@.filter(
                |m: ManifestItem| item_meets(m, lo as int, hi as int),
            ).to_multiset(),
            sorted_by_lower(r@),
    {
        let fs = [
            PartialTimeFilter::Low(TimeBound::Included(lo)),
            PartialTimeFilter::High(TimeBound::Included(hi)),
        ];
        let mut r = self.manifests(&fs);
        proof {
            lemma_select_two(self.manifest_list@, fs@, lo as int, hi as int);
        }
        sort_by_lower_bound(&mut r);
        r
    }
}

proof fn lemma_select_two(items: Seq<ManifestItem>, fs: Seq<PartialTimeFilter>, lo: int, hi: int)
    requires
        fs.len() == 2,
        fs[0] == PartialTimeFilter::Low(TimeBound::Included(lo as i64)),
        fs[1] == PartialTimeFilter::High(TimeBound::Included(hi as i64)),
        lo == lo as i64,
        hi == hi as i64,
    ensures
        select_items(items, fs) == items.filter(|m: ManifestItem| item_meets(m, lo, hi)),
    decreases items.len(),
{
    let f = |m: ManifestItem| item_meets(m, lo, hi);
    reveal(Seq::filter);
    if items.len() > 0 {
        lemma_select_two(items.drop_last(), fs, lo, hi);
        let m = items.last();
        if item_meets(m, lo, hi) {
            assert forall|k: int| 0 <= k < fs.len() implies #[trigger] item_passes(m, fs[k]) by {}
        } else {
            assert(!item_passes(m, fs[0]) || !item_passes(m, fs[1]));
        }
    } else {
        assert(items.filter(f) =~= Seq::empty());
    }
}

} // verus!
