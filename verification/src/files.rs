//! Which files a backup copies and how much they weigh, and how the
//! destination folder is prepared.

use vstd::prelude::*;

use crate::text::{chars_of, string_views};

verus! {

/// Position of the last `.` in `s`, if any.
pub open spec fn last_dot(s: Seq<char>) -> Option<int>
    decreases s.len(),
{
    if s.len() == 0 {
        None
    } else if s.last() == '.' {
        Some(s.len() - 1)
    } else {
        last_dot(s.drop_last())
    }
}

pub proof fn lemma_last_dot(s: Seq<char>)
    ensures
        match last_dot(s) {
            Some(i) => {
                &&& 0 <= i < s.len()
                &&& s[i] == '.'
                &&& forall|k: int| i < k < s.len() ==> #[trigger] s[k] != '.'
            },
            None => forall|k: int| 0 <= k < s.len() ==> #[trigger] s[k] != '.',
        },
    decreases s.len(),
{
    if s.len() > 0 && s.last() != '.' {
        let t = s.drop_last();
        lemma_last_dot(t);
        assert forall|k: int| 0 <= k < t.len() implies #[trigger] s[k] == t[k] by {}
        assert(s[s.len() - 1] != '.');
    }
}

/// The extension of a file name, as `Path::extension` gives it: the part after
/// the last `.`; none when the name has no `.`, when its only `.` is the first
/// character, or when the name is `..`.
pub open spec fn file_extension_of(name: Seq<char>) -> Option<Seq<char>> {
    if name == seq!['.', '.'] {
        None
    } else {
        match last_dot(name) {
            None => None,
            Some(i) => if i == 0 {
                None
            } else {
                Some(name.subrange(i + 1, name.len() as int))
            },
        }
    }
}

/// The extension of the file name `name` (`Path::extension`).
pub fn file_extension(name: &str) -> (r: Option<&str>)
    ensures
        match r {
            Some(e) => file_extension_of(name@) == Some(e@),
            None => file_extension_of(name@) is None,
        },
{
    let v = chars_of(name);
    let n = v.len();
    if n == 2 && v[0] == '.' && v[1] == '.' {
        assert(name@ =~= seq!['.', '.']);
        return None;
    }
    assert(name@ != seq!['.', '.']) by {
        if name@ == seq!['.', '.'] {
            assert(name@[0] == '.' && name@[1] == '.');
        }
    }
    let mut k = n;
    assert(name@.take(n as int) =~= name@);
    while k > 0 && v[k - 1] != '.'
        invariant
            k <= n,
            n == v@.len(),
            v@ == name@,
            last_dot(name@) == last_dot(name@.take(k as int)),
        decreases k,
    {
        assert(name@.take(k as int).drop_last() =~= name@.take(k - 1));
        k = k - 1;
    }
    if k <= 1 {
        if k == 1 {
            assert(last_dot(name@.take(1)) == Some(0int));
        } else {
            assert(last_dot(name@.take(0)) is None);
        }
        None
    } else {
        assert(last_dot(name@.take(k as int)) == Some(k - 1));
        Some(name.substring_char(k, n))
    }
}

/// A file name has an extension exactly when it is not `..` and holds a `.`
/// after its first character; the extension is then what follows the last `.`,
/// and holds no `.` itself.
pub proof fn lemma_file_extension_meaning(name: Seq<char>)
    ensures
        match file_extension_of(name) {
            Some(e) => {
                &&& name != seq!['.', '.']
                &&& exists|i: int|
                    {
                        &&& 0 < i < name.len()
                        &&& #[trigger] name[i] == '.'
                        &&& forall|k: int| i < k < name.len() ==> #[trigger] name[k] != '.'
                        &&& e == name.subrange(i + 1, name.len() as int)
                    }
            },
            None => name == seq!['.', '.'] || forall|i: int|
                0 < i < name.len() ==> #[trigger] name[i] != '.',
        },
{
    lemma_last_dot(name);
    if name != seq!['.', '.'] {
        match last_dot(name) {
            Some(i) => {
                if i > 0 {
                    assert(name[i] == '.');
                }
            },
            None => {},
        }
    }
}

/// The file name `name` has an extension that is one of `extensions`.
pub open spec fn has_listed_extension(name: Seq<char>, extensions: Seq<Seq<char>>) -> bool {
    match file_extension_of(name) {
        Some(e) => extensions.contains(e),
        None => false,
    }
}

/// A file name has a listed extension exactly when its extension is equal to
/// one of the listed ones.
pub proof fn lemma_listed_extension_meaning(name: Seq<char>, extensions: Seq<Seq<char>>)
    ensures
        has_listed_extension(name, extensions) <==> exists|k: int|
            0 <= k < extensions.len() && file_extension_of(name) == Some(#[trigger] extensions[k]),
{
    if has_listed_extension(name, extensions) {
        let e = file_extension_of(name)->0;
        let k = choose|k: int| 0 <= k < extensions.len() && extensions[k] == e;
        assert(file_extension_of(name) == Some(extensions[k]));
    }
    if exists|k: int|
        0 <= k < extensions.len() && file_extension_of(name) == Some(#[trigger] extensions[k]) {
        let k = choose|k: int|
            0 <= k < extensions.len() && file_extension_of(name) == Some(#[trigger] extensions[k]);
        assert(extensions.contains(extensions[k]));
    }
}

/// Tests whether the extension of the file name `file_name` is one of `extensions`.
pub fn check_extension(file_name: &str, extensions: &Vec<String>) -> (r: bool)
    ensures
        r == has_listed_extension(file_name@, string_views(extensions@)),
        r == exists|k: int|
            0 <= k < extensions@.len() && file_extension_of(file_name@) == Some(
                #[trigger] extensions@[k]@,
            ),
{
    proof {
        lemma_listed_extension_meaning(file_name@, string_views(extensions@));
        assert forall|k: int| 0 <= k < extensions@.len() implies #[trigger] string_views(
            extensions@,
        )[k] == extensions@[k]@ by {}
    }
    let ext = match file_extension(file_name) {
        Some(e) => e.to_owned(),
        None => {
            return false;
        },
    };
    let mut i: usize = 0;
    while i < extensions.len()
        invariant
            i <= extensions@.len(),
            file_extension_of(file_name@) == Some(ext@),
            forall|k: int| 0 <= k < i ==> extensions@[k]@ != ext@,
        decreases extensions.len() - i,
    {
        if extensions[i] == ext {
            assert(string_views(extensions@)[i as int] == ext@);
            return true;
        }
        i = i + 1;
    }
    assert(!string_views(extensions@).contains(ext@)) by {
        if string_views(extensions@).contains(ext@) {
            let k = choose|k: int|
                0 <= k < string_views(extensions@).len() && string_views(extensions@)[k] == ext@;
            assert(extensions@[k]@ == ext@);
        }
    }
    false
}

/// An entry of the source tree, listed in the order of a depth-first walk.
pub struct SourceEntry {
    /// The entry's own name (the last component of its path).
    pub name: String,
    pub is_dir: bool,
    /// The size in bytes of a file.
    pub size: u64,
}

/// A backup copies the entry: a file whose extension is listed, or any file
/// when no extension is listed.
pub open spec fn entry_selected(e: SourceEntry, extensions: Seq<Seq<char>>) -> bool {
    !e.is_dir && (extensions.len() == 0 || has_listed_extension(e.name@, extensions))
}

/// Number of entries a backup copies.
pub open spec fn selected_count(entries: Seq<SourceEntry>, extensions: Seq<Seq<char>>) -> nat
    decreases entries.len(),
{
    if entries.len() == 0 {
        0
    } else {
        selected_count(entries.drop_last(), extensions) + if entry_selected(
            entries.last(),
            extensions,
        ) {
            1nat
        } else {
            0nat
        }
    }
}

/// Total size in bytes of the entries a backup copies.
pub open spec fn selected_size(entries: Seq<SourceEntry>, extensions: Seq<Seq<char>>) -> nat
    decreases entries.len(),
{
    if entries.len() == 0 {
        0
    } else {
        selected_size(entries.drop_last(), extensions) + if entry_selected(
            entries.last(),
            extensions,
        ) {
            entries.last().size as nat
        } else {
            0nat
        }
    }
}

pub proof fn lemma_selected_count_bounded(entries: Seq<SourceEntry>, extensions: Seq<Seq<char>>)
    ensures
        selected_count(entries, extensions) <= entries.len(),
    decreases entries.len(),
{
    if entries.len() > 0 {
        lemma_selected_count_bounded(entries.drop_last(), extensions);
    }
}

/// Number of files among `entries`.
pub open spec fn file_count(entries: Seq<SourceEntry>) -> nat
    decreases entries.len(),
{
    if entries.len() == 0 {
        0
    } else {
        file_count(entries.drop_last()) + if entries.last().is_dir {
            0nat
        } else {
            1nat
        }
    }
}

/// When no extension is listed, a backup copies every file, and only files.
pub proof fn lemma_no_extension_copies_every_file(entries: Seq<SourceEntry>)
    ensures
        forall|k: int|
            0 <= k < entries.len() ==> (entry_selected(#[trigger] entries[k], seq![])
                <==> !entries[k].is_dir),
        selected_count(entries, seq![]) == file_count(entries),
    decreases entries.len(),
{
    if entries.len() > 0 {
        lemma_no_extension_copies_every_file(entries.drop_last());
    }
}

/// Tests whether a backup copies `entry`.
pub fn is_selected(entry: &SourceEntry, extensions: &Vec<String>) -> (r: bool)
    ensures
        r == entry_selected(*entry, string_views(extensions@)),
{
    !entry.is_dir && (extensions.len() == 0 || check_extension(entry.name.as_str(), extensions))
}

/// The number and total size of the files a backup of `entries` copies; `None`
/// when the total size does not fit in a `u64`.
pub fn count_files_and_size(entries: &Vec<SourceEntry>, extensions: &Vec<String>) -> (r: Option<
    (usize, u64),
>)
    ensures
        match r {
            Some((count, size)) => {
                &&& count == selected_count(entries@, string_views(extensions@))
                &&& size == selected_size(entries@, string_views(extensions@))
            },
            None => selected_size(entries@, string_views(extensions@)) > u64::MAX,
        },
{
    let ghost exts = string_views(extensions@);
    let mut count: usize = 0;
    let mut size: u64 = 0;
    let mut i: usize = 0;
    while i < entries.len()
        invariant
            i <= entries@.len(),
            exts == string_views(extensions@),
            count == selected_count(entries@.take(i as int), exts),
            size == selected_size(entries@.take(i as int), exts),
        decreases entries.len() - i,
    {
        proof {
            assert(entries@.take(i + 1).drop_last() =~= entries@.take(i as int));
            lemma_selected_count_bounded(entries@.take(i as int), exts);
        }
        if is_selected(&entries[i], extensions) {
            match size.checked_add(entries[i].size) {
                Some(s) => {
                    size = s;
                },
                None => {
                    proof {
                        lemma_selected_size_monotone(entries@, exts, i + 1);
                    }
                    return None;
                },
            }
            count = count + 1;
        }
        i = i + 1;
    }
    assert(entries@.take(i as int) =~= entries@);
    Some((count, size))
}

pub proof fn lemma_selected_size_monotone(
    entries: Seq<SourceEntry>,
    extensions: Seq<Seq<char>>,
    k: int,
)
    requires
        0 <= k <= entries.len(),
    ensures
        selected_size(entries.take(k), extensions) <= selected_size(entries, extensions),
    decreases entries.len() - k,
{
    if k < entries.len() {
        lemma_selected_size_monotone(entries, extensions, k + 1);
        assert(entries.take(k + 1).drop_last() =~= entries.take(k));
    } else {
        assert(entries.take(k) =~= entries);
    }
}

/// Running totals of a copy: the number of files copied and their bytes.
pub struct CopyTally {
    files: usize,
    bytes: u64,
}

impl CopyTally {
    pub closed spec fn files_spec(&self) -> nat {
        self.files as nat
    }

    pub closed spec fn bytes_spec(&self) -> nat {
        self.bytes as nat
    }

    /// Nothing copied yet.
    pub fn new() -> (t: Self)
        ensures
            t.files_spec() == 0,
            t.bytes_spec() == 0,
    {
        CopyTally { files: 0, bytes: 0 }
    }

    /// Counts one more copied file of `size` bytes. Returns `false`, changing
    /// nothing, when a total would no longer fit.
    pub fn record(&mut self, size: u64) -> (ok: bool)
        ensures
            ok == (old(self).files_spec() < usize::MAX && old(self).bytes_spec() + size
                <= u64::MAX),
            ok ==> final(self).files_spec() == old(self).files_spec() + 1
                && final(self).bytes_spec() == old(self).bytes_spec() + size,
            !ok ==> final(self).files_spec() == old(self).files_spec()
                && final(self).bytes_spec() == old(self).bytes_spec(),
    {
        if self.files == usize::MAX {
            return false;
        }
        match self.bytes.checked_add(size) {
            Some(b) => {
                self.files = self.files + 1;
                self.bytes = b;
                true
            },
            None => false,
        }
    }

    /// The number of files copied.
    pub fn files(&self) -> (r: usize)
        ensures
            r == self.files_spec(),
    {
        self.files
    }

    /// The bytes copied.
    pub fn bytes(&self) -> (r: u64)
        ensures
            r == self.bytes_spec(),
    {
        self.bytes
    }
}

/// How the destination folder is prepared before copying.
#[derive(Clone, Copy, Debug, PartialEq, Eq, Structural)]
pub enum DestinationSetup {
    /// The destination holds entries already: copy into its `backup` sub-folder,
    /// creating it when needed.
    CreateBackupFolder,
    /// The destination does not exist: create it and copy into it.
    CreateDestination,
    /// The destination exists and is empty: copy into it.
    UseDestination,
}

/// How to prepare a destination that exists or not and holds `entry_count` entries.
pub fn destination_setup(exists: bool, entry_count: usize) -> (r: DestinationSetup)
    ensures
        r == (if !exists {
            DestinationSetup::CreateDestination
        } else if entry_count > 0 {
            DestinationSetup::CreateBackupFolder
        } else {
            DestinationSetup::UseDestination
        }),
{
    if exists {
        if entry_count > 0 {
            DestinationSetup::CreateBackupFolder
        } else {
            DestinationSetup::UseDestination
        }
    } else {
        DestinationSetup::CreateDestination
    }
}

/// A backup of `required` bytes fits in `available` bytes of free space.
pub fn has_enough_space(required: u64, available: u64) -> (r: bool)
    ensures
        r == (available >= required),
{
    available >= required
}

} // verus!
