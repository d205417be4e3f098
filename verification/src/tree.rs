//! The local directory tree: one table of folders and one of files, with the
//! parent of each node given as an index into the table of folders.
//!
//! The tree is built once, from the entries that a recursive walk of the
//! directory found, and never changes afterwards.

use vstd::prelude::*;

verus! {

/// One entry that the walk of the directory found, other than the directory
/// that the walk began at.
#[derive(Debug, Clone, PartialEq, Eq)]
pub struct ScanEntry {
    /// The position, in the list of entries, of the directory that holds this
    /// one; `None` where that is the directory the walk began at.
    pub parent: Option<usize>,
    /// The name of the entry within its directory.
    pub name: String,
    pub is_dir: bool,
    /// The length of a file in bytes; not read for a directory.
    pub size: u64,
}

pub ghost struct ScanEntryView {
    pub parent: Option<int>,
    pub name: Seq<char>,
    pub is_dir: bool,
    pub size: u64,
}

impl View for ScanEntry {
    type V = ScanEntryView;

    open spec fn view(&self) -> ScanEntryView {
        ScanEntryView {
            parent: index_view(self.parent),
            name: self.name@,
            is_dir: self.is_dir,
            size: self.size,
        }
    }
}

/// An optional index as an optional integer.
pub open spec fn index_view(index: Option<usize>) -> Option<int> {
    match index {
        Some(i) => Some(i as int),
        None => None,
    }
}

/// The views of the entries of `entries`, in order.
pub open spec fn entry_views(entries: Seq<ScanEntry>) -> Seq<ScanEntryView> {
    Seq::new(entries.len(), |i: int| entries[i]@)
}

/// A folder of the tree.
#[derive(Debug, Clone, PartialEq, Eq)]
pub struct LocalFolder {
    pub name: String,
    /// The folder that holds this one; `None` for the root alone.
    pub parent: Option<usize>,
}

pub ghost struct FolderView {
    pub name: Seq<char>,
    pub parent: Option<int>,
}

impl View for LocalFolder {
    type V = FolderView;

    open spec fn view(&self) -> FolderView {
        FolderView { name: self.name@, parent: index_view(self.parent) }
    }
}

/// A file of the tree.
#[derive(Debug, Clone, PartialEq, Eq)]
pub struct LocalFile {
    pub name: String,
    /// The folder that holds the file.
    pub parent: usize,
    /// The length of the file in bytes when the directory was walked.
    pub size: u64,
}

pub ghost struct FileView {
    pub name: Seq<char>,
    pub parent: int,
    pub size: u64,
}

impl View for LocalFile {
    type V = FileView;

    open spec fn view(&self) -> FileView {
        FileView { name: self.name@, parent: self.parent as int, size: self.size }
    }
}

/// The sum of the sizes of the first `n` files of `files`.
pub open spec fn bytes_of(files: Seq<FileView>, n: int) -> nat
    decreases n,
{
    if n <= 0 {
        0
    } else {
        bytes_of(files, n - 1) + files[n - 1].size as nat
    }
}

pub ghost struct LocalTreeView {
    pub folders: Seq<FolderView>,
    pub files: Seq<FileView>,
}

impl LocalTreeView {
    /// The root is folder 0 and the only folder without a parent, every other
    /// folder comes after its parent, and every file lies in a folder.
    pub open spec fn wf(self) -> bool {
        &&& self.folders.len() >= 1
        &&& self.folders[0].parent is None
        &&& forall|i: int|
            1 <= i < self.folders.len() ==> {
                &&& (#[trigger] self.folders[i]).parent is Some
                &&& 0 <= self.folders[i].parent->0 < i
            }
        &&& forall|j: int|
            0 <= j < self.files.len() ==> 0 <= (#[trigger] self.files[j]).parent
                < self.folders.len()
    }

    /// The sum of the sizes of all files.
    pub open spec fn total_file_size(self) -> nat {
        bytes_of(self.files, self.files.len() as int)
    }

    /// The names on the way from the root, not counting it, down to folder `i`.
    pub open spec fn folder_path(self, i: int) -> Seq<Seq<char>>
        decreases i,
    {
        if 0 < i < self.folders.len() {
            match self.folders[i].parent {
                Some(p) => if 0 <= p < i {
                    self.folder_path(p).push(self.folders[i].name)
                } else {
                    Seq::empty()
                },
                None => Seq::empty(),
            }
        } else {
            Seq::empty()
        }
    }

    /// The names on the way from the root, not counting it, down to file `j`.
    pub open spec fn file_path(self, j: int) -> Seq<Seq<char>> {
        self.folder_path(self.files[j].parent).push(self.files[j].name)
    }
}

/// The number of directories among the first `n` entries.
pub open spec fn dirs_before(entries: Seq<ScanEntryView>, n: int) -> int
    decreases n,
{
    if n <= 0 {
        0
    } else {
        dirs_before(entries, n - 1) + if entries[n - 1].is_dir {
            1int
        } else {
            0int
        }
    }
}

/// The folder of the tree that stands for what an entry names as its parent:
/// the root, or one more than the number of directories listed before the
/// parent, since the root is folder 0 and the directories follow in order.
pub open spec fn folder_slot(entries: Seq<ScanEntryView>, parent: Option<int>) -> int {
    match parent {
        None => 0int,
        Some(p) => dirs_before(entries, p) + 1,
    }
}

/// An entry is placed if its parent is the root or a directory listed before it.
pub open spec fn entry_placed(entries: Seq<ScanEntryView>, k: int) -> bool {
    match entries[k].parent {
        None => true,
        Some(p) => 0 <= p < k && entries[p].is_dir,
    }
}

/// The folders that the root and the first `n` entries give, in order.
pub open spec fn folders_of(root_name: Seq<char>, entries: Seq<ScanEntryView>, n: int) -> Seq<
    FolderView,
>
    decreases n,
{
    if n <= 0 {
        seq![FolderView { name: root_name, parent: None }]
    } else {
        let before = folders_of(root_name, entries, n - 1);
        let e = entries[n - 1];
        if e.is_dir {
            before.push(
                FolderView { name: e.name, parent: Some(folder_slot(entries, e.parent)) },
            )
        } else {
            before
        }
    }
}

/// The files that the first `n` entries give, in order.
pub open spec fn files_of(entries: Seq<ScanEntryView>, n: int) -> Seq<FileView>
    decreases n,
{
    if n <= 0 {
        Seq::empty()
    } else {
        let before = files_of(entries, n - 1);
        let e = entries[n - 1];
        if e.is_dir {
            before
        } else {
            before.push(
                FileView {
                    name: e.name,
                    parent: folder_slot(entries, e.parent),
                    size: e.size,
                },
            )
        }
    }
}

/// The sum of the sizes of the files among the first `n` entries.
pub open spec fn scanned_bytes(entries: Seq<ScanEntryView>, n: int) -> nat
    decreases n,
{
    if n <= 0 {
        0
    } else {
        scanned_bytes(entries, n - 1) + if entries[n - 1].is_dir {
            0nat
        } else {
            entries[n - 1].size as nat
        }
    }
}

/// The tree that a root name and a list of placed entries give.
pub open spec fn tree_of(root_name: Seq<char>, entries: Seq<ScanEntryView>) -> LocalTreeView {
    LocalTreeView {
        folders: folders_of(root_name, entries, entries.len() as int),
        files: files_of(entries, entries.len() as int),
    }
}

/// Why a list of entries gives no tree.
#[derive(Debug, Clone, Copy, PartialEq, Eq, Structural)]
pub enum TreeError {
    /// The entry at this position names a parent that is not a directory listed
    /// before it.
    Misplaced(usize),
}

/// Counts and total size of a tree.
#[derive(Debug, Clone, Copy, PartialEq, Eq, Structural)]
pub struct TreeInfo {
    pub file_count: usize,
    /// The number of folders, the root among them.
    pub folder_count: usize,
    pub total_file_size: u128,
}

/// The local directory tree.
#[derive(Debug, PartialEq, Eq)]
pub struct LocalTree {
    folders: Vec<LocalFolder>,
    files: Vec<LocalFile>,
    total_file_size: u128,
}

/// The views of the folders of `folders`, in order.
pub open spec fn folder_views(folders: Seq<LocalFolder>) -> Seq<FolderView> {
    Seq::new(folders.len(), |i: int| folders[i]@)
}

/// The views of the files of `files`, in order.
pub open spec fn file_views(files: Seq<LocalFile>) -> Seq<FileView> {
    Seq::new(files.len(), |i: int| files[i]@)
}

impl View for LocalTree {
    type V = LocalTreeView;

    closed spec fn view(&self) -> LocalTreeView {
        LocalTreeView { folders: folder_views(self.folders@), files: file_views(self.files@) }
    }
}

proof fn lemma_counts(root_name: Seq<char>, entries: Seq<ScanEntryView>, n: int)
    requires
        0 <= n <= entries.len(),
    ensures
        folders_of(root_name, entries, n).len() == 1 + dirs_before(entries, n),
        folders_of(root_name, entries, n).len() + files_of(entries, n).len() == n + 1,
        bytes_of(files_of(entries, n), files_of(entries, n).len() as int) == scanned_bytes(
            entries,
            n,
        ),
    decreases n,
{
    if n > 0 {
        lemma_counts(root_name, entries, n - 1);
        let before = files_of(entries, n - 1);
        if !entries[n - 1].is_dir {
            let after = files_of(entries, n);
            lemma_bytes_of_prefix(before, after, before.len() as int);
        }
    }
}

proof fn lemma_bytes_of_prefix(a: Seq<FileView>, b: Seq<FileView>, n: int)
    requires
        0 <= n <= a.len() <= b.len(),
        forall|i: int| 0 <= i < n ==> a[i] == b[i],
    ensures
        bytes_of(a, n) == bytes_of(b, n),
    decreases n,
{
    if n > 0 {
        lemma_bytes_of_prefix(a, b, n - 1);
    }
}

proof fn lemma_dirs_before_monotonic(entries: Seq<ScanEntryView>, m: int, n: int)
    requires
        0 <= m <= n,
    ensures
        dirs_before(entries, m) <= dirs_before(entries, n),
        m < n && entries[m].is_dir ==> dirs_before(entries, m) < dirs_before(entries, n),
    decreases n - m,
{
    if m < n {
        lemma_dirs_before_monotonic(entries, m, n - 1);
    }
}

/// A list of placed entries gives a well-formed tree.
pub proof fn lemma_tree_of_well_formed(root_name: Seq<char>, entries: Seq<ScanEntryView>)
    requires
        forall|k: int| 0 <= k < entries.len() ==> entry_placed(entries, k),
    ensures
        tree_of(root_name, entries).wf(),
{
    lemma_prefix_well_formed(root_name, entries, entries.len() as int);
}

proof fn lemma_prefix_well_formed(root_name: Seq<char>, entries: Seq<ScanEntryView>, n: int)
    requires
        0 <= n <= entries.len(),
        forall|k: int| 0 <= k < n ==> entry_placed(entries, k),
    ensures
        (LocalTreeView {
            folders: folders_of(root_name, entries, n),
            files: files_of(entries, n),
        }).wf(),
    decreases n,
{
    let folders = folders_of(root_name, entries, n);
    let files = files_of(entries, n);
    if n > 0 {
        lemma_prefix_well_formed(root_name, entries, n - 1);
        lemma_counts(root_name, entries, n - 1);
        let folders_before = folders_of(root_name, entries, n - 1);
        let files_before = files_of(entries, n - 1);
        let e = entries[n - 1];
        let slot = folder_slot(entries, e.parent);
        assert(0 <= slot < folders_before.len()) by {
            assert(entry_placed(entries, n - 1));
            match e.parent {
                Some(p) => {
                    lemma_dirs_before_monotonic(entries, 0, p);
                    lemma_dirs_before_monotonic(entries, p, n - 1);
                },
                None => {},
            }
        }
        let tree_before = LocalTreeView { folders: folders_before, files: files_before };
        assert(tree_before.wf());
        assert forall|i: int| 1 <= i < folders.len() implies {
            &&& (#[trigger] folders[i]).parent is Some
            &&& 0 <= folders[i].parent->0 < i
        } by {
            if i < folders_before.len() {
                assert(folders[i] == tree_before.folders[i]);
            }
        }
        assert(folders_before.len() <= folders.len());
        assert forall|j: int| 0 <= j < files.len() implies 0 <= (#[trigger] files[j]).parent
            < folders.len() by {
            if j < files_before.len() {
                assert(files[j] == tree_before.files[j]);
            } else {
                assert(files[j].parent == slot);
            }
        }
        assert(folders[0] == tree_before.folders[0]);
    }
}

impl LocalTree {
    #[verifier::type_invariant]
    pub open spec fn well_formed(self) -> bool {
        &&& self@.wf()
        &&& self.total() == self@.total_file_size()
    }

    /// The total that the tree keeps of the sizes of its files.
    pub closed spec fn total(self) -> nat {
        self.total_file_size as nat
    }

    /// Builds the tree of a directory named `root_name` from the entries that a
    /// walk found below it. Each entry becomes one node, and the directory
    /// itself becomes the root, so there is one node more than entries.
    pub fn build(root_name: String, entries: &Vec<ScanEntry>) -> (built: Result<
        LocalTree,
        TreeError,
    >)
        ensures
            match built {
                Ok(tree) => {
                    &&& forall|k: int| 0 <= k < entries.len() ==> entry_placed(entry_views(entries@), k)
                    &&& tree@ == tree_of(root_name@, entry_views(entries@))
                    &&& tree@.folders.len() + tree@.files.len() == entries.len() + 1
                    &&& tree@.total_file_size() == scanned_bytes(
                        entry_views(entries@),
                        entries.len() as int,
                    )
                },
                Err(TreeError::Misplaced(k)) => {
                    &&& k < entries.len()
                    &&& !entry_placed(entry_views(entries@), k as int)
                    &&& forall|j: int| 0 <= j < k ==> entry_placed(entry_views(entries@), j)
                },
            },
    {
        let ghost views = entry_views(entries@);
        let ghost root = root_name@;
        let mut folders: Vec<LocalFolder> = Vec::new();
        folders.push(LocalFolder { name: root_name, parent: None });
        let mut files: Vec<LocalFile> = Vec::new();
        let mut total: u128 = 0;
        // For each entry read so far that is a directory, the folder it became.
        let mut slots: Vec<usize> = Vec::new();
        assert(folder_views(folders@) =~= folders_of(root, views, 0));
        assert(file_views(files@) =~= files_of(views, 0));
        let mut k: usize = 0;
        while k < entries.len()
            invariant
                k <= entries.len(),
                views == entry_views(entries@),
                slots.len() == k,
                forall|i: int|
                    0 <= i < k && views[i].is_dir ==> slots[i] == folder_slot(views, Some(i)),
                forall|j: int| 0 <= j < k ==> entry_placed(views, j),
                folder_views(folders@) == folders_of(root, views, k as int),
                file_views(files@) == files_of(views, k as int),
                folders.len() == 1 + dirs_before(views, k as int),
                folders.len() + files.len() == k + 1,
                total == scanned_bytes(views, k as int),
                total <= k * u64::MAX,
            decreases entries.len() - k,
        {
            let entry = &entries[k];
            assert(views[k as int] == entry@);
            let parent: usize = match entry.parent {
                None => 0,
                Some(p) => {
                    if p >= k || !entries[p].is_dir {
                        return Err(TreeError::Misplaced(k));
                    }
                    assert(views[p as int] == entries[p as int]@);
                    slots[p]
                },
            };
            assert(parent == folder_slot(views, entry@.parent));
            assert(entry_placed(views, k as int));
            proof {
                lemma_counts(root, views, k as int);
                lemma_counts(root, views, k + 1);
            }
            if entry.is_dir {
                let ghost before = folder_views(folders@);
                slots.push(folders.len());
                let folder = LocalFolder { name: entry.name.clone(), parent: Some(parent) };
                folders.push(folder);
                assert(folder_views(folders@) =~= before.push(folder@));
            } else {
                let ghost before = file_views(files@);
                slots.push(0);
                let file = LocalFile { name: entry.name.clone(), parent, size: entry.size };
                files.push(file);
                assert(file_views(files@) =~= before.push(file@));
                assert(total + entry.size <= (k + 1) * u64::MAX) by (nonlinear_arith)
                    requires
                        total <= k * u64::MAX,
                        entry.size <= u64::MAX,
                ;
                assert((k + 1) * u64::MAX <= u128::MAX) by (nonlinear_arith)
                    requires
                        k + 1 <= u64::MAX,
                ;
                total = total + entry.size as u128;
            }
            k = k + 1;
        }
        proof {
            lemma_tree_of_well_formed(root, views);
            lemma_counts(root, views, entries.len() as int);
        }
        Ok(LocalTree { folders, files, total_file_size: total })
    }

    /// The number of folders, the root among them.
    pub fn folder_count(&self) -> (n: usize)
        ensures
            n == self@.folders.len(),
            n >= 1,
    {
        proof {
            use_type_invariant(self);
        }
        self.folders.len()
    }

    /// The number of files.
    pub fn file_count(&self) -> (n: usize)
        ensures
            n == self@.files.len(),
    {
        self.files.len()
    }

    /// The sum of the sizes of all files, in bytes.
    pub fn total_file_size(&self) -> (total: u128)
        ensures
            total == self@.total_file_size(),
    {
        proof {
            use_type_invariant(self);
        }
        self.total_file_size
    }

    /// Counts and total size.
    pub fn info(&self) -> (info: TreeInfo)
        ensures
            info.file_count == self@.files.len(),
            info.folder_count == self@.folders.len(),
            info.total_file_size == self@.total_file_size(),
    {
        TreeInfo {
            file_count: self.file_count(),
            folder_count: self.folder_count(),
            total_file_size: self.total_file_size(),
        }
    }

    /// Folder `i`, if there is one; folder 0 is the root.
    pub fn folder(&self, i: usize) -> (folder: Option<&LocalFolder>)
        ensures
            i < self@.folders.len() ==> folder is Some && folder->0@ == self@.folders[i as int],
            i >= self@.folders.len() ==> folder is None,
    {
        if i < self.folders.len() {
            Some(&self.folders[i])
        } else {
            None
        }
    }

    /// File `j`, if there is one.
    pub fn file(&self, j: usize) -> (file: Option<&LocalFile>)
        ensures
            j < self@.files.len() ==> file is Some && file->0@ == self@.files[j as int],
            j >= self@.files.len() ==> file is None,
    {
        if j < self.files.len() {
            Some(&self.files[j])
        } else {
            None
        }
    }

    /// The names on the way from the root, not counting it, down to folder `i`;
    /// none for the root, and none where there is no folder `i`.
    pub fn folder_path(&self, i: usize) -> (path: Vec<String>)
        ensures
            path.deep_view() == self@.folder_path(i as int),
        decreases i,
    {
        proof {
            use_type_invariant(self);
        }
        if 0 < i && i < self.folders.len() {
            let folder = &self.folders[i];
            assert(folder@ == self@.folders[i as int]);
            match folder.parent {
                Some(p) => {
                    let mut path = self.folder_path(p);
                    let ghost before = path.deep_view();
                    path.push(folder.name.clone());
                    assert(path.deep_view() =~= before.push(folder.name@));
                    path
                },
                None => {
                    let path: Vec<String> = Vec::new();
                    assert(path.deep_view() =~= Seq::empty());
                    path
                },
            }
        } else {
            let path: Vec<String> = Vec::new();
            assert(path.deep_view() =~= Seq::empty());
            path
        }
    }

    /// The names on the way from the root, not counting it, down to file `j`,
    /// if there is one.
    pub fn file_path(&self, j: usize) -> (path: Option<Vec<String>>)
        ensures
            j < self@.files.len() ==> path is Some && path->0.deep_view() == self@.file_path(
                j as int,
            ),
            j >= self@.files.len() ==> path is None,
    {
        if j < self.files.len() {
            let file = &self.files[j];
            assert(file@ == self@.files[j as int]);
            let mut path = self.folder_path(file.parent);
            let ghost before = path.deep_view();
            path.push(file.name.clone());
            assert(path.deep_view() =~= before.push(file.name@));
            Some(path)
        } else {
            None
        }
    }

    /// The folders that lie directly in folder `i`, in their order in the tree.
    pub fn child_folders(&self, i: usize) -> (children: Vec<usize>)
        ensures
            forall|k: int|
                0 <= k < children.len() ==> {
                    &&& (#[trigger] children[k]) < self@.folders.len()
                    &&& self@.folders[children[k] as int].parent == Some(i as int)
                },
            forall|k: int, l: int| 0 <= k < l < children.len() ==> children[k] < children[l],
            forall|c: int|
                0 <= c < self@.folders.len() && (#[trigger] self@.folders[c]).parent == Some(
                    i as int,
                ) ==> children@.contains(c as usize),
    {
        let mut children: Vec<usize> = Vec::new();
        let mut c: usize = 0;
        while c < self.folders.len()
            invariant
                c <= self.folders.len(),
                forall|k: int|
                    0 <= k < children.len() ==> {
                        &&& (#[trigger] children[k]) < c
                        &&& self@.folders[children[k] as int].parent == Some(i as int)
                    },
                forall|k: int, l: int| 0 <= k < l < children.len() ==> children[k] < children[l],
                forall|d: int|
                    0 <= d < c && (#[trigger] self@.folders[d]).parent == Some(i as int)
                        ==> children@.contains(d as usize),
            decreases self.folders.len() - c,
        {
            assert(self.folders[c as int]@ == self@.folders[c as int]);
            let is_child = match self.folders[c].parent {
                Some(p) => p == i,
                None => false,
            };
            if is_child {
                let ghost before = children@;
                children.push(c);
                assert forall|d: int|
                    0 <= d < c + 1 && (#[trigger] self@.folders[d]).parent == Some(
                        i as int,
                    ) implies children@.contains(d as usize) by {
                    if d < c {
                        let k = choose|k: int| 0 <= k < before.len() && before[k] == d as usize;
                        assert(children@[k] == d as usize);
                    } else {
                        assert(children@[children.len() - 1] == c);
                    }
                }
            }
            c = c + 1;
        }
        children
    }

    /// The files that lie directly in folder `i`, in their order in the tree.
    pub fn files_in(&self, i: usize) -> (found: Vec<usize>)
        ensures
            forall|k: int|
                0 <= k < found.len() ==> {
                    &&& (#[trigger] found[k]) < self@.files.len()
                    &&& self@.files[found[k] as int].parent == i
                },
            forall|k: int, l: int| 0 <= k < l < found.len() ==> found[k] < found[l],
            forall|f: int|
                0 <= f < self@.files.len() && (#[trigger] self@.files[f]).parent == i
                    ==> found@.contains(f as usize),
    {
        let mut found: Vec<usize> = Vec::new();
        let mut f: usize = 0;
        while f < self.files.len()
            invariant
                f <= self.files.len(),
                forall|k: int|
                    0 <= k < found.len() ==> {
                        &&& (#[trigger] found[k]) < f
                        &&& self@.files[found[k] as int].parent == i
                    },
                forall|k: int, l: int| 0 <= k < l < found.len() ==> found[k] < found[l],
                forall|d: int|
                    0 <= d < f && (#[trigger] self@.files[d]).parent == i ==> found@.contains(
                        d as usize,
                    ),
            decreases self.files.len() - f,
        {
            assert(self.files[f as int]@ == self@.files[f as int]);
            if self.files[f].parent == i {
                let ghost before = found@;
                found.push(f);
                assert forall|d: int|
                    0 <= d < f + 1 && (#[trigger] self@.files[d]).parent == i implies found@.contains(
                    d as usize,
                ) by {
                    if d < f {
                        let k = choose|k: int| 0 <= k < before.len() && before[k] == d as usize;
                        assert(found@[k] == d as usize);
                    } else {
                        assert(found@[found.len() - 1] == f);
                    }
                }
            }
            f = f + 1;
        }
        found
    }
}

} // verus!

verus! {

impl LocalTreeView {
    /// No two nodes that lie in the same folder have the same name.
    pub open spec fn sibling_names_distinct(self) -> bool {
        &&& forall|i: int, j: int|
            1 <= i < j < self.folders.len() ==> !((#[trigger] self.folders[i]).parent
                == (#[trigger] self.folders[j]).parent && self.folders[i].name
                == self.folders[j].name)
        &&& forall|a: int, b: int|
            0 <= a < b < self.files.len() ==> !((#[trigger] self.files[a]).parent
                == (#[trigger] self.files[b]).parent && self.files[a].name == self.files[b].name)
        &&& forall|i: int, a: int|
            1 <= i < self.folders.len() && 0 <= a < self.files.len() ==> !((
            #[trigger] self.folders[i]).parent == Some((#[trigger] self.files[a]).parent)
                && self.folders[i].name == self.files[a].name)
    }
}

/// No two entries that lie in the same directory have the same name.
pub open spec fn entry_names_distinct(entries: Seq<ScanEntryView>) -> bool {
    forall|d: int, e: int|
        0 <= d < e < entries.len() ==> !((#[trigger] entries[d]).parent == (
        #[trigger] entries[e]).parent && entries[d].name == entries[e].name)
}

proof fn lemma_push_equal<A>(a: Seq<A>, x: A, b: Seq<A>, y: A)
    requires
        a.push(x) == b.push(y),
    ensures
        a == b,
        x == y,
{
    assert(a.push(x).drop_last() == a);
    assert(b.push(y).drop_last() == b);
    assert(a.push(x).last() == x);
    assert(b.push(y).last() == y);
}

proof fn lemma_folder_path_length(tree: LocalTreeView, i: int)
    requires
        tree.wf(),
        0 <= i < tree.folders.len(),
    ensures
        i == 0 <==> tree.folder_path(i).len() == 0,
{
    if i > 0 {
        assert(tree.folders[i].parent is Some);
    }
}

/// In a tree where no two nodes of one folder share a name, no two folders
/// have the same path below the root.
pub proof fn lemma_folder_paths_distinct(tree: LocalTreeView, i: int, j: int)
    requires
        tree.wf(),
        tree.sibling_names_distinct(),
        0 <= i < tree.folders.len(),
        0 <= j < tree.folders.len(),
        tree.folder_path(i) == tree.folder_path(j),
    ensures
        i == j,
    decreases i,
{
    lemma_folder_path_length(tree, i);
    lemma_folder_path_length(tree, j);
    if i > 0 {
        let p = tree.folders[i].parent->0;
        let q = tree.folders[j].parent->0;
        assert(tree.folders[j].parent is Some);
        lemma_push_equal(
            tree.folder_path(p),
            tree.folders[i].name,
            tree.folder_path(q),
            tree.folders[j].name,
        );
        lemma_folder_paths_distinct(tree, p, q);
    }
}

/// In a tree where no two nodes of one folder share a name, no two files have
/// the same path below the root.
pub proof fn lemma_file_paths_distinct(tree: LocalTreeView, a: int, b: int)
    requires
        tree.wf(),
        tree.sibling_names_distinct(),
        0 <= a < tree.files.len(),
        0 <= b < tree.files.len(),
        tree.file_path(a) == tree.file_path(b),
    ensures
        a == b,
{
    lemma_push_equal(
        tree.folder_path(tree.files[a].parent),
        tree.files[a].name,
        tree.folder_path(tree.files[b].parent),
        tree.files[b].name,
    );
    lemma_folder_paths_distinct(tree, tree.files[a].parent, tree.files[b].parent);
}

/// In a tree where no two nodes of one folder share a name, no file has the
/// path of a folder.
pub proof fn lemma_file_path_is_no_folder_path(tree: LocalTreeView, a: int, i: int)
    requires
        tree.wf(),
        tree.sibling_names_distinct(),
        0 <= a < tree.files.len(),
        0 <= i < tree.folders.len(),
    ensures
        tree.file_path(a) != tree.folder_path(i),
{
    lemma_folder_path_length(tree, i);
    if i > 0 && tree.file_path(a) == tree.folder_path(i) {
        let p = tree.folders[i].parent->0;
        lemma_push_equal(
            tree.folder_path(tree.files[a].parent),
            tree.files[a].name,
            tree.folder_path(p),
            tree.folders[i].name,
        );
        lemma_folder_paths_distinct(tree, tree.files[a].parent, p);
    }
}

/// Every folder but the root came from a directory among the entries, and
/// every file from a file among them.
proof fn lemma_nodes_come_from_entries(root_name: Seq<char>, entries: Seq<ScanEntryView>, n: int)
    requires
        0 <= n <= entries.len(),
    ensures
        forall|k: int|
            1 <= k < folders_of(root_name, entries, n).len() ==> folder_came_from(
                entries,
                n,
                #[trigger] folders_of(root_name, entries, n)[k],
                k,
            ),
        forall|a: int|
            0 <= a < files_of(entries, n).len() ==> file_came_from(
                entries,
                n,
                #[trigger] files_of(entries, n)[a],
                a,
            ),
    decreases n,
{
    if n > 0 {
        lemma_nodes_come_from_entries(root_name, entries, n - 1);
        lemma_counts(root_name, entries, n - 1);
        let folders = folders_of(root_name, entries, n);
        let folders_before = folders_of(root_name, entries, n - 1);
        let files = files_of(entries, n);
        let files_before = files_of(entries, n - 1);
        assert forall|k: int| 1 <= k < folders.len() implies folder_came_from(
            entries,
            n,
            #[trigger] folders[k],
            k,
        ) by {
            if k < folders_before.len() {
                let m = n - 1;
                let folder = folders_before[k];
                assert(folder_came_from(entries, m, folder, k));
                let e = choose|e: int| folder_source(entries, m, folder, k, e);
                assert(folder_source(entries, n, folders[k], k, e));
            } else {
                assert(folder_source(entries, n, folders[k], k, n - 1));
            }
        }
        assert forall|a: int| 0 <= a < files.len() implies file_came_from(
            entries,
            n,
            #[trigger] files[a],
            a,
        ) by {
            if a < files_before.len() {
                let m = n - 1;
                let file = files_before[a];
                assert(file_came_from(entries, m, file, a));
                let e = choose|e: int| file_source(entries, m, file, a, e);
                assert(file_source(entries, n, files[a], a, e));
            } else {
                assert(file_source(entries, n, files[a], a, n - 1));
            }
        }
    }
}

/// Entry `e`, one of the first `n`, is the directory that folder `k` came
/// from.
spec fn folder_source(
    entries: Seq<ScanEntryView>,
    n: int,
    folder: FolderView,
    k: int,
    e: int,
) -> bool {
    &&& 0 <= e < n
    &&& entries[e].is_dir
    &&& entries[e].name == folder.name
    &&& folder_slot(entries, Some(e)) == k
    &&& folder.parent == Some(folder_slot(entries, entries[e].parent))
}

/// Folder `k` came from a directory among the first `n` entries.
spec fn folder_came_from(
    entries: Seq<ScanEntryView>,
    n: int,
    folder: FolderView,
    k: int,
) -> bool {
    exists|e: int| folder_source(entries, n, folder, k, e)
}

/// Entry `e`, one of the first `n`, is the file that file `a` came from.
spec fn file_source(
    entries: Seq<ScanEntryView>,
    n: int,
    file: FileView,
    a: int,
    e: int,
) -> bool {
    &&& 0 <= e < n
    &&& !entries[e].is_dir
    &&& entries[e].name == file.name
    &&& e - dirs_before(entries, e) == a
    &&& file.parent == folder_slot(entries, entries[e].parent)
}

/// File `a` came from a file among the first `n` entries.
spec fn file_came_from(
    entries: Seq<ScanEntryView>,
    n: int,
    file: FileView,
    a: int,
) -> bool {
    exists|e: int| file_source(entries, n, file, a, e)
}

/// Two placed entries that lie in the same folder of the tree lie in the same
/// directory.
proof fn lemma_same_slot_same_parent(entries: Seq<ScanEntryView>, d: int, e: int)
    requires
        0 <= d < entries.len(),
        0 <= e < entries.len(),
        entry_placed(entries, d),
        entry_placed(entries, e),
        folder_slot(entries, entries[d].parent) == folder_slot(entries, entries[e].parent),
    ensures
        entries[d].parent == entries[e].parent,
{
    match (entries[d].parent, entries[e].parent) {
        (Some(p), Some(q)) => {
            if p < q {
                lemma_dirs_before_monotonic(entries, p, q);
            } else if q < p {
                lemma_dirs_before_monotonic(entries, q, p);
            }
        },
        (Some(p), None) => {
            lemma_dirs_before_monotonic(entries, 0, p);
        },
        (None, Some(q)) => {
            lemma_dirs_before_monotonic(entries, 0, q);
        },
        (None, None) => {},
    }
}

/// Where no two entries of one directory share a name, no two nodes of one
/// folder of the tree do: then every node has a path of its own.
pub proof fn lemma_tree_keeps_names_distinct(root_name: Seq<char>, entries: Seq<ScanEntryView>)
    requires
        forall|k: int| 0 <= k < entries.len() ==> entry_placed(entries, k),
        entry_names_distinct(entries),
    ensures
        tree_of(root_name, entries).sibling_names_distinct(),
{
    let n = entries.len() as int;
    let tree = tree_of(root_name, entries);
    lemma_nodes_come_from_entries(root_name, entries, n);
    assert forall|i: int, j: int| 1 <= i < j < tree.folders.len() implies !((
    #[trigger] tree.folders[i]).parent == (#[trigger] tree.folders[j]).parent
        && tree.folders[i].name == tree.folders[j].name) by {
        assert(folder_came_from(entries, n, tree.folders[i], i));
        assert(folder_came_from(entries, n, tree.folders[j], j));
        let first = tree.folders[i];
        let second = tree.folders[j];
        let d = choose|d: int| folder_source(entries, n, first, i, d);
        let e = choose|e: int| folder_source(entries, n, second, j, e);
        if tree.folders[i].parent == tree.folders[j].parent && tree.folders[i].name
            == tree.folders[j].name {
            lemma_same_slot_same_parent(entries, d, e);
            assert(d != e);
            if d < e {
                assert(!(entries[d].parent == entries[e].parent && entries[d].name
                    == entries[e].name));
            } else {
                assert(!(entries[e].parent == entries[d].parent && entries[e].name
                    == entries[d].name));
            }
        }
    }
    assert forall|a: int, b: int| 0 <= a < b < tree.files.len() implies !((
    #[trigger] tree.files[a]).parent == (#[trigger] tree.files[b]).parent && tree.files[a].name
        == tree.files[b].name) by {
        assert(file_came_from(entries, n, tree.files[a], a));
        assert(file_came_from(entries, n, tree.files[b], b));
        let first = tree.files[a];
        let second = tree.files[b];
        let d = choose|d: int| file_source(entries, n, first, a, d);
        let e = choose|e: int| file_source(entries, n, second, b, e);
        if tree.files[a].parent == tree.files[b].parent && tree.files[a].name
            == tree.files[b].name {
            lemma_same_slot_same_parent(entries, d, e);
            assert(d != e);
            if d < e {
                assert(!(entries[d].parent == entries[e].parent && entries[d].name
                    == entries[e].name));
            } else {
                assert(!(entries[e].parent == entries[d].parent && entries[e].name
                    == entries[d].name));
            }
        }
    }
    assert forall|i: int, a: int|
        1 <= i < tree.folders.len() && 0 <= a < tree.files.len() implies !((
    #[trigger] tree.folders[i]).parent == Some((#[trigger] tree.files[a]).parent)
        && tree.folders[i].name == tree.files[a].name) by {
        assert(folder_came_from(entries, n, tree.folders[i], i));
        assert(file_came_from(entries, n, tree.files[a], a));
        let folder = tree.folders[i];
        let file = tree.files[a];
        let d = choose|d: int| folder_source(entries, n, folder, i, d);
        let e = choose|e: int| file_source(entries, n, file, a, e);
        if tree.folders[i].parent == Some(tree.files[a].parent) && tree.folders[i].name
            == tree.files[a].name {
            lemma_same_slot_same_parent(entries, d, e);
            assert(d != e);
            if d < e {
                assert(!(entries[d].parent == entries[e].parent && entries[d].name
                    == entries[e].name));
            } else {
                assert(!(entries[e].parent == entries[d].parent && entries[e].name
                    == entries[d].name));
            }
        }
    }
}

} // verus!
