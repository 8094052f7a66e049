//! Disk usage of the volume that holds a directory, chosen among the mounted
//! disks: the one with the longest mount point that contains the directory.

use vstd::prelude::*;
use vstd::string::*;

verus! {

/// Whether `base` is a prefix of `path`, compared component by component.
pub uninterp spec fn path_under(path: Seq<char>, base: Seq<char>) -> bool;

/// Relies on std's `Path::starts_with`, which compares whole components, so
/// that the answer depends on the two texts alone.
#[verifier::external_body]
fn path_starts_with(path: &str, base: &str) -> (r: bool)
    ensures
        r == path_under(path@, base@),
{
    std::path::Path::new(path).starts_with(base)
}

/// Space of one mounted disk, in bytes.
#[derive(Debug)]
pub struct DiskSpace {
    pub mount_point: String,
    pub total: u64,
    pub available: u64,
}

/// Whether disk `k` holds `path` and no other disk that holds it has a longer
/// mount point, or one as long at a later position.
pub open spec fn chosen_disk(disks: Seq<DiskSpace>, path: Seq<char>, k: int) -> bool {
    &&& 0 <= k < disks.len()
    &&& path_under(path, disks[k].mount_point@)
    &&& forall|j: int|
        0 <= j < disks.len() && path_under(path, (#[trigger] disks[j]).mount_point@) ==> disks[j].mount_point@.len()
            < disks[k].mount_point@.len() || (disks[j].mount_point@.len() == disks[k].mount_point@.len() && j
            <= k)
}

/// Used space of a disk: total less available, or 0 when it reports more
/// available than total.
pub open spec fn used_space(d: DiskSpace) -> u64 {
    if d.available <= d.total {
        (d.total - d.available) as u64
    } else {
        0
    }
}

/// Total, available and used space of the disk that holds `path`, or nothing
/// when no disk holds it.
pub fn volume_usage(disks: &Vec<DiskSpace>, path: &str) -> (r: (Option<u64>, Option<u64>, Option<u64>))
    ensures
        r.0 is None <==> forall|j: int| 0 <= j < disks@.len() ==> !path_under(path@, (#[trigger] disks@[j]).mount_point@),
        r.0 is None ==> r.1 is None && r.2 is None,
        r.0 is Some ==> exists|k: int|
            #[trigger] chosen_disk(disks@, path@, k) && r == (
                Some(disks@[k].total),
                Some(disks@[k].available),
                Some(used_space(disks@[k])),
            ),
{
    let mut best: Option<usize> = None;
    let mut best_len: usize = 0;
    let mut i: usize = 0;
    while i < disks.len()
        invariant
            i <= disks@.len(),
            best is None <==> forall|j: int| 0 <= j < i ==> !path_under(path@, (#[trigger] disks@[j]).mount_point@),
            best matches Some(k) ==> {
                &&& k < i
                &&& path_under(path@, disks@[k as int].mount_point@)
                &&& best_len == disks@[k as int].mount_point@.len()
                &&& forall|j: int|
                    0 <= j < i && path_under(path@, (#[trigger] disks@[j]).mount_point@) ==> disks@[j].mount_point@.len()
                        < best_len || (disks@[j].mount_point@.len() == best_len && j <= k)
            },
        decreases disks@.len() - i,
    {
        let d = &disks[i];
        if path_starts_with(path, d.mount_point.as_str()) {
            let len = d.mount_point.as_str().unicode_len();
            let better = match best {
                None => true,
                Some(_) => len >= best_len,
            };
            if better {
                best = Some(i);
                best_len = len;
            }
        }
        i = i + 1;
    }
    match best {
        None => (None, None, None),
        Some(k) => {
            let d = &disks[k];
            let used = if d.available <= d.total {
                d.total - d.available
            } else {
                0
            };
            assert(chosen_disk(disks@, path@, k as int));
            (Some(d.total), Some(d.available), Some(used))
        },
    }
}

} // verus!
