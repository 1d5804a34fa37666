//! Choice of the disk to back up onto, and lookup of the free space on the disk
//! that holds a path.

use vstd::prelude::*;

use crate::text::string_views;

verus! {

/// What the backup needs to know of a mounted disk.
pub struct DiskInfo {
    /// The mount point as text; `None` when it is not valid Unicode.
    pub mount_point: Option<String>,
    /// The components of the mount point's path, in order.
    pub mount_components: Vec<String>,
    /// Free space in bytes.
    pub available_space: u64,
    pub is_removable: bool,
}

/// State of the scan for the removable disk with the most free space.
pub enum UsbScan {
    /// A disk with more free space than any before it had no Unicode mount point.
    Aborted,
    /// The most free space seen on a removable disk so far (0 if none), and the
    /// mount point of the first disk that has it.
    Best(u64, Option<Seq<char>>),
}

/// Scans `disks` in order for the removable disk with the most free space.
pub open spec fn usb_scan(disks: Seq<DiskInfo>) -> UsbScan
    decreases disks.len(),
{
    if disks.len() == 0 {
        UsbScan::Best(0, None)
    } else {
        match usb_scan(disks.drop_last()) {
            UsbScan::Aborted => UsbScan::Aborted,
            UsbScan::Best(max, path) => {
                let d = disks.last();
                if d.is_removable && d.available_space > max {
                    match d.mount_point {
                        Some(p) => UsbScan::Best(d.available_space, Some(p@)),
                        None => UsbScan::Aborted,
                    }
                } else {
                    UsbScan::Best(max, path)
                }
            },
        }
    }
}

/// The mount point of the removable disk with the most free space (the first
/// one among equals); `None` when no removable disk has free space, or when
/// the scan met a disk with more free space than any before it whose mount
/// point is not valid Unicode.
pub open spec fn usb_path_of(disks: Seq<DiskInfo>) -> Option<Seq<char>> {
    match usb_scan(disks) {
        UsbScan::Aborted => None,
        UsbScan::Best(_, p) => p,
    }
}

/// The mount point of the removable disk with the most free space.
pub fn select_usb_path(disks: &Vec<DiskInfo>) -> (r: Option<String>)
    ensures
        match r {
            Some(s) => usb_path_of(disks@) == Some(s@),
            None => usb_path_of(disks@) is None,
        },
        r is None <==> ({
            ||| forall|j: int|
                0 <= j < disks@.len() && (#[trigger] disks@[j]).is_removable
                    ==> disks@[j].available_space == 0
            ||| exists|i: int|
                {
                    &&& 0 <= i < disks@.len()
                    &&& (#[trigger] disks@[i]).is_removable
                    &&& disks@[i].available_space > 0
                    &&& disks@[i].mount_point is None
                    &&& forall|j: int|
                        0 <= j < i && (#[trigger] disks@[j]).is_removable
                            ==> disks@[j].available_space < disks@[i].available_space
                }
        }),
        r matches Some(s) ==> exists|i: int|
            {
                &&& 0 <= i < disks@.len()
                &&& (#[trigger] disks@[i]).is_removable
                &&& disks@[i].available_space > 0
                &&& disks@[i].mount_point matches Some(m) && m@ == s@
                &&& forall|j: int|
                    0 <= j < disks@.len() && (#[trigger] disks@[j]).is_removable
                        ==> disks@[j].available_space <= disks@[i].available_space
                &&& forall|j: int|
                    0 <= j < i && (#[trigger] disks@[j]).is_removable
                        ==> disks@[j].available_space < disks@[i].available_space
            },
{
    let mut max_free_space: u64 = 0;
    let mut usb_path: Option<String> = None;
    let mut i: usize = 0;
    while i < disks.len()
        invariant
            i <= disks@.len(),
            usb_scan(disks@.take(i as int)) == UsbScan::Best(
                max_free_space,
                match usb_path {
                    Some(s) => Some(s@),
                    None => None,
                },
            ),
        decreases disks.len() - i,
    {
        assert(disks@.take(i + 1).drop_last() =~= disks@.take(i as int));
        let d = &disks[i];
        if d.is_removable {
            let free_space = d.available_space;
            if free_space > max_free_space {
                max_free_space = free_space;
                match &d.mount_point {
                    Some(p) => {
                        usb_path = Some(p.clone());
                    },
                    None => {
                        proof {
                            lemma_aborted_stays(disks@, i + 1);
                            lemma_usb_choice_complete(disks@);
                        }
                        return None;
                    },
                }
            }
        }
        i = i + 1;
    }
    assert(disks@.take(i as int) =~= disks@);
    proof {
        lemma_usb_choice_complete(disks@);
        if usb_path_of(disks@) is Some {
            lemma_usb_choice_is_largest(disks@);
        }
    }
    usb_path
}

pub proof fn lemma_aborted_stays(disks: Seq<DiskInfo>, k: int)
    requires
        0 <= k <= disks.len(),
        usb_scan(disks.take(k)) is Aborted,
    ensures
        usb_scan(disks) is Aborted,
    decreases disks.len() - k,
{
    if k < disks.len() {
        assert(disks.take(k + 1).drop_last() =~= disks.take(k));
        lemma_aborted_stays(disks, k + 1);
    } else {
        assert(disks.take(k) =~= disks);
    }
}

pub proof fn lemma_usb_scan(disks: Seq<DiskInfo>)
    ensures
        match usb_scan(disks) {
            UsbScan::Best(max, p) => {
                &&& forall|j: int|
                    0 <= j < disks.len() && (#[trigger] disks[j]).is_removable
                        ==> disks[j].available_space <= max
                &&& max == 0 ==> p is None
                &&& max > 0 ==> exists|i: int|
                    {
                        &&& 0 <= i < disks.len()
                        &&& (#[trigger] disks[i]).is_removable
                        &&& disks[i].available_space == max
                        &&& disks[i].mount_point matches Some(s) && p == Some(s@)
                        &&& forall|j: int|
                            0 <= j < i && (#[trigger] disks[j]).is_removable
                                ==> disks[j].available_space < max
                    }
            },
            UsbScan::Aborted => true,
        },
    decreases disks.len(),
{
    if disks.len() > 0 {
        let prev = disks.drop_last();
        lemma_usb_scan(prev);
        assert forall|j: int| 0 <= j < prev.len() implies #[trigger] disks[j] == prev[j] by {}
        match usb_scan(prev) {
            UsbScan::Best(max, p) => {
                let d = disks.last();
                if d.is_removable && d.available_space > max {
                    if d.mount_point is Some {
                        let i = disks.len() - 1;
                        assert(disks[i] == d);
                    }
                } else if max > 0 {
                    let i = choose|i: int|
                        {
                            &&& 0 <= i < prev.len()
                            &&& (#[trigger] prev[i]).is_removable
                            &&& prev[i].available_space == max
                            &&& prev[i].mount_point matches Some(s) && p == Some(s@)
                            &&& forall|j: int|
                                0 <= j < i && (#[trigger] prev[j]).is_removable
                                    ==> prev[j].available_space < max
                        };
                    assert(disks[i] == prev[i]);
                }
            },
            UsbScan::Aborted => {},
        }
    }
}

/// The disk chosen for a backup is removable, has free space, has more free
/// space than every removable disk before it and no less than any after it.
pub proof fn lemma_usb_choice_is_largest(disks: Seq<DiskInfo>)
    requires
        usb_path_of(disks) is Some,
    ensures
        exists|i: int|
            {
                &&& 0 <= i < disks.len()
                &&& (#[trigger] disks[i]).is_removable
                &&& disks[i].available_space > 0
                &&& disks[i].mount_point matches Some(s) && usb_path_of(disks) == Some(s@)
                &&& forall|j: int|
                    0 <= j < disks.len() && (#[trigger] disks[j]).is_removable
                        ==> disks[j].available_space <= disks[i].available_space
                &&& forall|j: int|
                    0 <= j < i && (#[trigger] disks[j]).is_removable
                        ==> disks[j].available_space < disks[i].available_space
            },
{
    lemma_usb_scan(disks);
}

/// Disk `i` is removable, has free space, more than every removable disk before
/// it, and has no Unicode mount point.
pub open spec fn unreadable_new_maximum(disks: Seq<DiskInfo>, i: int) -> bool {
    &&& 0 <= i < disks.len()
    &&& disks[i].is_removable
    &&& disks[i].available_space > 0
    &&& disks[i].mount_point is None
    &&& forall|j: int|
        0 <= j < i && (#[trigger] disks[j]).is_removable ==> disks[j].available_space
            < disks[i].available_space
}

pub proof fn lemma_usb_scan_aborted(disks: Seq<DiskInfo>)
    ensures
        usb_scan(disks) is Aborted <==> exists|i: int| unreadable_new_maximum(disks, i),
    decreases disks.len(),
{
    if disks.len() > 0 {
        let prev = disks.drop_last();
        let n = disks.len() - 1;
        lemma_usb_scan_aborted(prev);
        lemma_usb_scan(prev);
        assert forall|j: int| 0 <= j < prev.len() implies #[trigger] disks[j] == prev[j] by {}
        assert forall|i: int| 0 <= i < n implies unreadable_new_maximum(disks, i)
            == unreadable_new_maximum(prev, i) by {
            assert forall|j: int| 0 <= j < i implies #[trigger] disks[j] == prev[j] by {}
        }
        match usb_scan(prev) {
            UsbScan::Aborted => {
                let i = choose|i: int| unreadable_new_maximum(prev, i);
                assert(unreadable_new_maximum(disks, i));
            },
            UsbScan::Best(m, p) => {
                let x = disks[n];
                assert(x == disks.last());
                if x.is_removable && x.available_space > m && x.mount_point is None {
                    assert(unreadable_new_maximum(disks, n));
                } else {
                    assert forall|i: int| !unreadable_new_maximum(disks, i) by {
                        if unreadable_new_maximum(disks, i) {
                            if i < n {
                                assert(unreadable_new_maximum(prev, i));
                            } else {
                                assert(i == n);
                                if m > 0 {
                                    let j = choose|j: int|
                                        {
                                            &&& 0 <= j < prev.len()
                                            &&& (#[trigger] prev[j]).is_removable
                                            &&& prev[j].available_space == m
                                            &&& prev[j].mount_point matches Some(s) && p == Some(s@)
                                            &&& forall|k: int|
                                                0 <= k < j && (#[trigger] prev[k]).is_removable
                                                    ==> prev[k].available_space < m
                                        };
                                    assert(disks[j].is_removable);
                                }
                            }
                        }
                    }
                }
            },
        }
    }
}

/// The scan for the backup disk finds one whenever some removable disk has free
/// space, unless it meets a removable disk with more free space than every one
/// before it whose mount point is not valid Unicode; and it finds none in
/// exactly those two cases.
pub proof fn lemma_usb_choice_complete(disks: Seq<DiskInfo>)
    ensures
        usb_path_of(disks) is None <==> ({
            ||| forall|j: int|
                0 <= j < disks.len() && (#[trigger] disks[j]).is_removable
                    ==> disks[j].available_space == 0
            ||| exists|i: int|
                {
                    &&& 0 <= i < disks.len()
                    &&& (#[trigger] disks[i]).is_removable
                    &&& disks[i].available_space > 0
                    &&& disks[i].mount_point is None
                    &&& forall|j: int|
                        0 <= j < i && (#[trigger] disks[j]).is_removable
                            ==> disks[j].available_space < disks[i].available_space
                }
        }),
{
    lemma_usb_scan(disks);
    lemma_usb_scan_aborted(disks);
    if exists|i: int|
        {
            &&& 0 <= i < disks.len()
            &&& (#[trigger] disks[i]).is_removable
            &&& disks[i].available_space > 0
            &&& disks[i].mount_point is None
            &&& forall|j: int|
                0 <= j < i && (#[trigger] disks[j]).is_removable ==> disks[j].available_space
                    < disks[i].available_space
        } {
        let i = choose|i: int|
            {
                &&& 0 <= i < disks.len()
                &&& (#[trigger] disks[i]).is_removable
                &&& disks[i].available_space > 0
                &&& disks[i].mount_point is None
                &&& forall|j: int|
                    0 <= j < i && (#[trigger] disks[j]).is_removable
                        ==> disks[j].available_space < disks[i].available_space
            };
        assert(unreadable_new_maximum(disks, i));
    }
    if usb_scan(disks) is Aborted {
        let i = choose|i: int| unreadable_new_maximum(disks, i);
        assert(disks[i].is_removable);
    }
}

/// `prefix` is, component by component, a prefix of `path` (`Path::starts_with`).
pub open spec fn components_prefix(prefix: Seq<Seq<char>>, path: Seq<Seq<char>>) -> bool {
    &&& prefix.len() <= path.len()
    &&& forall|k: int| 0 <= k < prefix.len() ==> #[trigger] prefix[k] == path[k]
}

/// Tests whether the path `path` starts with `prefix`, both given as components.
pub fn path_starts_with(path: &Vec<String>, prefix: &Vec<String>) -> (r: bool)
    ensures
        r == components_prefix(string_views(prefix@), string_views(path@)),
{
    if prefix.len() > path.len() {
        return false;
    }
    let mut k: usize = 0;
    while k < prefix.len()
        invariant
            k <= prefix@.len() <= path@.len(),
            forall|j: int| 0 <= j < k ==> #[trigger] prefix@[j]@ == path@[j]@,
        decreases prefix.len() - k,
    {
        if prefix[k] != path[k] {
            assert(string_views(prefix@)[k as int] != string_views(path@)[k as int]);
            return false;
        }
        k = k + 1;
    }
    assert forall|j: int| 0 <= j < prefix@.len() implies #[trigger] string_views(prefix@)[j]
        == string_views(path@)[j] by {
        assert(prefix@[j]@ == path@[j]@);
    }
    true
}

/// The free space of the first disk, in the order given, whose mount point the
/// path `path` starts with.
pub open spec fn space_for_path(path: Seq<Seq<char>>, disks: Seq<DiskInfo>) -> Option<u64>
    decreases disks.len(),
{
    if disks.len() == 0 {
        None
    } else if components_prefix(string_views(disks[0].mount_components@), path) {
        Some(disks[0].available_space)
    } else {
        space_for_path(path, disks.drop_first())
    }
}

/// The free space of the disk that holds the path `path` (given as components):
/// the first disk whose mount point it starts with; `None` when there is none.
pub fn available_space_for(path: &Vec<String>, disks: &Vec<DiskInfo>) -> (r: Option<u64>)
    ensures
        r == space_for_path(string_views(path@), disks@),
{
    let mut i: usize = 0;
    assert(disks@.skip(0) =~= disks@);
    while i < disks.len()
        invariant
            i <= disks@.len(),
            space_for_path(string_views(path@), disks@) == space_for_path(
                string_views(path@),
                disks@.skip(i as int),
            ),
        decreases disks.len() - i,
    {
        assert(disks@.skip(i as int)[0] == disks@[i as int]);
        assert(disks@.skip(i as int).drop_first() =~= disks@.skip(i + 1));
        if path_starts_with(path, &disks[i].mount_components) {
            return Some(disks[i].available_space);
        }
        i = i + 1;
    }
    None
}

} // verus!
