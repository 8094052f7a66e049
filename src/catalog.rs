//! The catalog's views of snapshots and manifest entries, and the partition
//! path under which a manifest is stored.

use crate::column::Column;
use crate::manifest::File;
use crate::path::{pushed, push_component};
use crate::ingest::Mode;
use crate::snapshot::{item_meets, select_items, sorted_by_lower, ManifestItem, PartialTimeFilter};
use crate::time::{in_time_range, utc_date, utc_date_text};
use vstd::prelude::*;
use vstd::string::*;

verus! {

/// A set of manifests that can be narrowed by time filters.
pub trait Snapshot {
    spec fn items(&self) -> Seq<ManifestItem>;

    fn manifests(&self, time_predicates: &[PartialTimeFilter]) -> (r: Vec<ManifestItem>)
        ensures
            r@ == select_items(self.items(), time_predicates@),
    ;
}

impl Snapshot for crate::snapshot::Snapshot {
    open spec fn items(&self) -> Seq<ManifestItem> {
        self.manifest_list@
    }

    fn manifests(&self, time_predicates: &[PartialTimeFilter]) -> (r: Vec<ManifestItem>) {
        crate::snapshot::Snapshot::manifests(self, time_predicates)
    }
}

/// What the catalog reads of one columnar file.
pub trait ManifestFile {
    spec fn name_view(&self) -> Seq<char>;

    spec fn rows_view(&self) -> u64;

    spec fn size_view(&self) -> u64;

    spec fn ingestion_size_view(&self) -> u64;

    spec fn columns_view(&self) -> Seq<Column>;

    fn file_name(&self) -> (r: &str)
        ensures
            r@ == self.name_view(),
    ;

    fn ingestion_size(&self) -> (r: u64)
        ensures
            r == self.ingestion_size_view(),
    ;

    fn file_size(&self) -> (r: u64)
        ensures
            r == self.size_view(),
    ;

    fn num_rows(&self) -> (r: u64)
        ensures
            r == self.rows_view(),
    ;

    fn columns(&self) -> (r: &[Column])
        ensures
            r@ == self.columns_view(),
    ;
}

impl ManifestFile for File {
    open spec fn name_view(&self) -> Seq<char> {
        self.file_path@
    }

    open spec fn rows_view(&self) -> u64 {
        self.num_rows
    }

    open spec fn size_view(&self) -> u64 {
        self.file_size
    }

    open spec fn ingestion_size_view(&self) -> u64 {
        self.ingestion_size
    }

    open spec fn columns_view(&self) -> Seq<Column> {
        self.columns@
    }

    fn file_name(&self) -> (r: &str) {
        self.file_path.as_str()
    }

    fn ingestion_size(&self) -> (r: u64) {
        self.ingestion_size
    }

    fn file_size(&self) -> (r: u64) {
        self.file_size
    }

    fn num_rows(&self) -> (r: u64) {
        self.num_rows
    }

    fn columns(&self) -> (r: &[Column]) {
        self.columns.as_slice()
    }
}

/// The directory name of a partition: `date=D` when both instants fall on the
/// UTC date `D`, else `date=L:U`.
pub open spec fn partition_dir(lower: int, upper: int) -> Seq<char> {
    let l = utc_date_text(lower);
    let u = utc_date_text(upper);
    if l == u {
        "date="@ + l
    } else {
        "date="@ + l + ":"@ + u
    }
}

/// The path, under the stream's directory, of the partition whose rows lie
/// between the two instants (milliseconds).
pub fn partition_path(stream: &str, lower_bound: i64, upper_bound: i64) -> (r: String)
    requires
        in_time_range(lower_bound as int),
        in_time_range(upper_bound as int),
    ensures
        r@ == pushed(pushed(Seq::empty(), stream@), partition_dir(lower_bound as int, upper_bound as int)),
{
    let lower = utc_date(lower_bound);
    let upper = utc_date(upper_bound);
    let mut dir = String::from_str("date=");
    dir.append(lower.as_str());
    if lower != upper {
        dir.append(":");
        dir.append(upper.as_str());
    }
    proof {
        reveal_strlit("date=");
        reveal_strlit(":");
    }
    let base = push_component(String::new(), stream);
    push_component(base, dir.as_str())
}

/// The manifests of some snapshots, one snapshot after another.
pub open spec fn stored_items(stored: Seq<crate::snapshot::Snapshot>) -> Seq<ManifestItem>
    decreases stored.len(),
{
    if stored.len() == 0 {
        Seq::empty()
    } else {
        stored_items(stored.drop_last()) + stored.last().manifest_list@
    }
}

/// The manifests that a server reads for a stream: a query server merges the
/// snapshots of every ingest server (`stored`), the others read the one
/// canonical snapshot.
pub open spec fn merged_items(
    mode: Mode,
    canonical: crate::snapshot::Snapshot,
    stored: Seq<crate::snapshot::Snapshot>,
) -> Seq<ManifestItem> {
    if mode == Mode::Query {
        stored_items(stored)
    } else {
        canonical.manifest_list@
    }
}

fn copy_items(out: &mut Vec<ManifestItem>, items: &Vec<ManifestItem>)
    ensures
        final(out)@ == old(out)@ + items@,
{
    let ghost start = out@;
    let mut j: usize = 0;
    while j < items.len()
        invariant
            j <= items@.len(),
            out@ == start + items@.subrange(0, j as int),
        decreases items@.len() - j,
    {
        out.push(items[j].copy());
        proof {
            assert(out@ =~= start + items@.subrange(0, j as int + 1));
        }
        j = j + 1;
    }
    assert(items@.subrange(0, j as int) =~= items@);
}

/// The paths of the manifests of a stream whose time interval meets
/// `[lo, hi]`, in ascending order of their lower bound: over the merged
/// snapshots of the ingest servers (`stored`, the ones that could be read) on
/// a query server, else over the canonical snapshot.
pub fn manifest_paths(
    mode: Mode,
    canonical: &crate::snapshot::Snapshot,
    stored: &Vec<crate::snapshot::Snapshot>,
    lo: i64,
    hi: i64,
) -> (r: Vec<String>)
    ensures
        exists|items: Seq<ManifestItem>|
            {
                &&& items.to_multiset() == merged_items(mode, *canonical, stored@).filter(
                    |m: ManifestItem| item_meets(m, lo as int, hi as int),
                ).to_multiset()
                &&& sorted_by_lower(items)
                &&& r@.len() == items.len()
                &&& forall|i: int| 0 <= i < items.len() ==> #[trigger] r@[i] == items[i].manifest_path
            },
{
    let mut merged: Vec<ManifestItem> = Vec::new();
    match mode {
        Mode::Query => {
            let mut i: usize = 0;
            assert(stored@.subrange(0, 0) =~= Seq::<crate::snapshot::Snapshot>::empty());
            while i < stored.len()
                invariant
                    i <= stored@.len(),
                    merged@ == stored_items(stored@.subrange(0, i as int)),
                decreases stored@.len() - i,
            {
                copy_items(&mut merged, &stored[i].manifest_list);
                proof {
                    let t = stored@.subrange(0, i as int + 1);
                    assert(t.drop_last() =~= stored@.subrange(0, i as int));
                    assert(t.last() == stored@[i as int]);
                }
                i = i + 1;
            }
            assert(stored@.subrange(0, i as int) =~= stored@);
        },
        _ => {
            copy_items(&mut merged, &canonical.manifest_list);
            assert(merged@ =~= canonical.manifest_list@);
        },
    }
    let snapshot = crate::snapshot::Snapshot { manifest_list: merged };
    let items = snapshot.manifests_in_range(lo, hi);
    let mut paths: Vec<String> = Vec::new();
    let mut k: usize = 0;
    while k < items.len()
        invariant
            k <= items@.len(),
            paths@.len() == k,
            forall|i: int| 0 <= i < k ==> #[trigger] paths@[i] == items@[i].manifest_path,
        decreases items@.len() - k,
    {
        paths.push(items[k].manifest_path.clone());
        k = k + 1;
    }
    assert(sorted_by_lower(items@));
    paths
}

} // verus!
