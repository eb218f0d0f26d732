//! The inventory of a folder: files in three buckets, with running totals
//! that always equal the sums over the files they hold.

use vstd::prelude::*;
use std::collections::VecDeque;

verus! {

/// One classified file.
#[derive(Debug, Clone)]
pub struct FileInfo {
    /// Path relative to the folder's root.
    pub path: String,
    /// Apparent length of the file.
    pub logical_size: u64,
    /// Storage the file occupies on disk.
    pub physical_size: u64,
}

/// The bucket a file belongs to.
#[derive(Debug, Clone, Copy, PartialEq, Eq, Structural)]
pub enum FileKind {
    Compressed,
    Compressible,
    Skipped,
}

/// Count and sizes of one bucket.
#[derive(Debug, Clone, Default)]
pub struct GroupSummary {
    pub count: usize,
    pub logical_size: u64,
    pub physical_size: u64,
}

/// Sizes of a folder and the summaries of its three buckets.
#[derive(Debug, Clone, Default)]
pub struct FolderSummary {
    pub logical_size: u64,
    pub physical_size: u64,
    pub compressible: GroupSummary,
    pub compressed: GroupSummary,
    pub skipped: GroupSummary,
}

/// Sum of the logical sizes of a sequence of files.
pub open spec fn sum_logical(files: Seq<FileInfo>) -> nat
    decreases files.len(),
{
    if files.len() == 0 {
        0
    } else {
        sum_logical(files.drop_last()) + files.last().logical_size as nat
    }
}

/// Sum of the physical sizes of a sequence of files.
pub open spec fn sum_physical(files: Seq<FileInfo>) -> nat
    decreases files.len(),
{
    if files.len() == 0 {
        0
    } else {
        sum_physical(files.drop_last()) + files.last().physical_size as nat
    }
}

/// Appending a file adds its sizes to both sums.
pub proof fn lemma_sum_push(files: Seq<FileInfo>, fi: FileInfo)
    ensures
        sum_logical(files.push(fi)) == sum_logical(files) + fi.logical_size,
        sum_physical(files.push(fi)) == sum_physical(files) + fi.physical_size,
{
    assert(files.push(fi).drop_last() =~= files);
}

/// Removing the first file subtracts its sizes from both sums.
pub proof fn lemma_sum_pop_front(files: Seq<FileInfo>)
    requires
        files.len() > 0,
    ensures
        sum_logical(files) == files[0].logical_size + sum_logical(files.subrange(1, files.len() as int)),
        sum_physical(files) == files[0].physical_size + sum_physical(
            files.subrange(1, files.len() as int),
        ),
    decreases files.len(),
{
    let rest = files.subrange(1, files.len() as int);
    if files.len() == 1 {
        assert(files.drop_last() =~= Seq::<FileInfo>::empty());
        assert(rest =~= Seq::<FileInfo>::empty());
    } else {
        lemma_sum_pop_front(files.drop_last());
        assert(files.drop_last().subrange(1, files.len() - 1) =~= rest.drop_last());
        assert(rest.last() == files.last());
        assert(files.drop_last()[0] == files[0]);
    }
}

/// Removing the file at an index subtracts its sizes from both sums.
pub proof fn lemma_sum_remove(files: Seq<FileInfo>, i: int)
    requires
        0 <= i < files.len(),
    ensures
        sum_logical(files) == files[i].logical_size + sum_logical(files.remove(i)),
        sum_physical(files) == files[i].physical_size + sum_physical(files.remove(i)),
    decreases files.len(),
{
    if i == files.len() - 1 {
        assert(files.remove(i) =~= files.drop_last());
    } else {
        lemma_sum_remove(files.drop_last(), i);
        assert(files.remove(i).drop_last() =~= files.drop_last().remove(i));
        assert(files.remove(i).last() == files.last());
        assert(files.drop_last()[i] == files[i]);
    }
}

/// The mathematical content of a bucket.
pub struct GroupView {
    pub files: Seq<FileInfo>,
    pub logical_size: u64,
    pub physical_size: u64,
}

impl GroupView {
    /// The bucket without files.
    pub open spec fn empty() -> GroupView {
        GroupView { files: Seq::empty(), logical_size: 0, physical_size: 0 }
    }

    /// The totals equal the sums over the files held.
    pub open spec fn wf(self) -> bool {
        &&& self.logical_size == sum_logical(self.files)
        &&& self.physical_size == sum_physical(self.files)
    }

    /// Whether a file's sizes can be added to the totals.
    pub open spec fn fits(self, fi: FileInfo) -> bool {
        &&& self.logical_size + fi.logical_size <= u64::MAX
        &&& self.physical_size + fi.physical_size <= u64::MAX
    }

    /// The bucket after a file was appended.
    pub open spec fn push(self, fi: FileInfo) -> GroupView {
        GroupView {
            files: self.files.push(fi),
            logical_size: (self.logical_size + fi.logical_size) as u64,
            physical_size: (self.physical_size + fi.physical_size) as u64,
        }
    }

    /// The bucket after its oldest file was taken out; itself when it is empty.
    pub open spec fn pop(self) -> GroupView {
        if self.files.len() == 0 {
            self
        } else {
            GroupView {
                files: self.files.subrange(1, self.files.len() as int),
                logical_size: (self.logical_size - self.files[0].logical_size) as u64,
                physical_size: (self.physical_size - self.files[0].physical_size) as u64,
            }
        }
    }

    /// The oldest file, if there is one.
    pub open spec fn front(self) -> Option<FileInfo> {
        if self.files.len() == 0 {
            None
        } else {
            Some(self.files[0])
        }
    }
}

/// Appending to a well-formed bucket that has room keeps it well-formed.
pub proof fn lemma_group_push_wf(g: GroupView, fi: FileInfo)
    requires
        g.wf(),
        g.fits(fi),
    ensures
        g.push(fi).wf(),
{
    lemma_sum_push(g.files, fi);
}

/// Taking the oldest file out of a well-formed bucket keeps it well-formed.
pub proof fn lemma_group_pop_wf(g: GroupView)
    requires
        g.wf(),
    ensures
        g.pop().wf(),
        g.files.len() > 0 ==> g.files[0].logical_size <= g.logical_size
            && g.files[0].physical_size <= g.physical_size,
{
    if g.files.len() > 0 {
        lemma_sum_pop_front(g.files);
    }
}

/// One step in the life of a bucket.
pub enum GroupOp {
    /// A file is appended, if the totals have room for it.
    Push(FileInfo),
    /// The oldest file is taken out, if there is one.
    Pop,
}

/// The bucket after a sequence of steps.
pub open spec fn after_ops(g: GroupView, ops: Seq<GroupOp>) -> GroupView
    decreases ops.len(),
{
    if ops.len() == 0 {
        g
    } else {
        let before = after_ops(g, ops.drop_last());
        match ops.last() {
            GroupOp::Push(fi) => if before.fits(fi) {
                before.push(fi)
            } else {
                before
            },
            GroupOp::Pop => before.pop(),
        }
    }
}

/// After any sequence of pushes and pops on a bucket that started empty, the
/// bucket's totals are the sums of the sizes of the files it holds.
pub proof fn lemma_inventory_invariant(ops: Seq<GroupOp>)
    ensures
        after_ops(GroupView::empty(), ops).logical_size == sum_logical(
            after_ops(GroupView::empty(), ops).files,
        ),
        after_ops(GroupView::empty(), ops).physical_size == sum_physical(
            after_ops(GroupView::empty(), ops).files,
        ),
    decreases ops.len(),
{
    if ops.len() > 0 {
        lemma_inventory_invariant(ops.drop_last());
        let before = after_ops(GroupView::empty(), ops.drop_last());
        match ops.last() {
            GroupOp::Push(fi) => {
                if before.fits(fi) {
                    lemma_group_push_wf(before, fi);
                }
            },
            GroupOp::Pop => {
                lemma_group_pop_wf(before);
            },
        }
    }
}

/// An ordered queue of files with the totals of their sizes.
#[derive(Debug, Clone)]
pub struct GroupInfo {
    files: VecDeque<FileInfo>,
    logical_size: u64,
    physical_size: u64,
}

impl View for GroupInfo {
    type V = GroupView;

    closed spec fn view(&self) -> GroupView {
        GroupView {
            files: self.files@,
            logical_size: self.logical_size,
            physical_size: self.physical_size,
        }
    }
}

impl Default for GroupInfo {
    /// An empty bucket.
    fn default() -> (g: Self)
        ensures
            g.wf(),
            g@ == GroupView::empty(),
    {
        GroupInfo::new()
    }
}

impl GroupInfo {
    /// The totals equal the sums over the files held.
    pub open spec fn wf(&self) -> bool {
        self@.wf()
    }

    /// An empty bucket.
    pub fn new() -> (g: Self)
        ensures
            g.wf(),
            g@ == GroupView::empty(),
    {
        GroupInfo { files: VecDeque::new(), logical_size: 0, physical_size: 0 }
    }

    /// Number of files held.
    pub fn len(&self) -> (n: usize)
        ensures
            n == self@.files.len(),
    {
        self.files.len()
    }

    /// The oldest file, if there is one.
    pub fn front(&self) -> (r: Option<&FileInfo>)
        ensures
            match r {
                Some(fi) => self@.front() == Some(*fi),
                None => self@.front() is None,
            },
    {
        if self.files.len() > 0 {
            Some(&self.files[0])
        } else {
            None
        }
    }

    /// Total logical size of the files held.
    pub fn logical_size(&self) -> (n: u64)
        ensures
            n == self@.logical_size,
    {
        self.logical_size
    }

    /// Total physical size of the files held.
    pub fn physical_size(&self) -> (n: u64)
        ensures
            n == self@.physical_size,
    {
        self.physical_size
    }

    /// Count and totals; the totals are the sums over the files held.
    pub fn summary(&self) -> (s: GroupSummary)
        requires
            self.wf(),
        ensures
            summarizes(s, self@),
    {
        GroupSummary {
            count: self.files.len(),
            logical_size: self.logical_size,
            physical_size: self.physical_size,
        }
    }

    /// Takes the oldest file out, if there is one, and lowers the totals by its sizes.
    pub fn pop(&mut self) -> (r: Option<FileInfo>)
        requires
            old(self).wf(),
        ensures
            final(self).wf(),
            r == old(self)@.front(),
            final(self)@ == old(self)@.pop(),
    {
        proof {
            lemma_group_pop_wf(self@);
        }
        let ret = self.files.pop_front();
        if let Some(fi) = ret {
            self.logical_size = self.logical_size - fi.logical_size;
            self.physical_size = self.physical_size - fi.physical_size;
            Some(fi)
        } else {
            None
        }
    }

    /// Appends a file and raises the totals by its sizes.
    pub fn push(&mut self, fi: FileInfo)
        requires
            old(self).wf(),
            old(self)@.fits(fi),
        ensures
            final(self).wf(),
            final(self)@ == old(self)@.push(fi),
    {
        proof {
            lemma_group_push_wf(self@, fi);
        }
        self.logical_size = self.logical_size + fi.logical_size;
        self.physical_size = self.physical_size + fi.physical_size;
        self.files.push_back(fi);
    }
}

/// The mathematical content of an inventory.
pub struct FolderView {
    pub path: Seq<char>,
    pub logical_size: u64,
    pub physical_size: u64,
    pub compressible: GroupView,
    pub compressed: GroupView,
    pub skipped: GroupView,
}

impl FolderView {
    /// The inventory of a root in which nothing was found yet.
    pub open spec fn empty(path: Seq<char>) -> FolderView {
        FolderView {
            path,
            logical_size: 0,
            physical_size: 0,
            compressible: GroupView::empty(),
            compressed: GroupView::empty(),
            skipped: GroupView::empty(),
        }
    }

    /// Every bucket is well-formed and the folder's totals are the sums of the buckets' totals.
    pub open spec fn wf(self) -> bool {
        &&& self.compressible.wf()
        &&& self.compressed.wf()
        &&& self.skipped.wf()
        &&& self.logical_size == self.compressible.logical_size + self.compressed.logical_size
            + self.skipped.logical_size
        &&& self.physical_size == self.compressible.physical_size + self.compressed.physical_size
            + self.skipped.physical_size
    }

    /// The bucket of a kind.
    pub open spec fn group(self, kind: FileKind) -> GroupView {
        match kind {
            FileKind::Compressible => self.compressible,
            FileKind::Compressed => self.compressed,
            FileKind::Skipped => self.skipped,
        }
    }

    /// The inventory with one bucket replaced.
    pub open spec fn with_group(self, kind: FileKind, g: GroupView) -> FolderView {
        match kind {
            FileKind::Compressible => FolderView { compressible: g, ..self },
            FileKind::Compressed => FolderView { compressed: g, ..self },
            FileKind::Skipped => FolderView { skipped: g, ..self },
        }
    }

    /// Whether a file's sizes can be added to the folder's totals.
    pub open spec fn fits(self, fi: FileInfo) -> bool {
        &&& self.logical_size + fi.logical_size <= u64::MAX
        &&& self.physical_size + fi.physical_size <= u64::MAX
    }

    /// The inventory after a file was appended to the bucket of a kind.
    pub open spec fn push(self, kind: FileKind, fi: FileInfo) -> FolderView {
        FolderView {
            logical_size: (self.logical_size + fi.logical_size) as u64,
            physical_size: (self.physical_size + fi.physical_size) as u64,
            ..self.with_group(kind, self.group(kind).push(fi))
        }
    }

    /// The inventory after the oldest file of a kind was taken out; itself when there is none.
    pub open spec fn pop(self, kind: FileKind) -> FolderView {
        match self.group(kind).front() {
            None => self,
            Some(fi) => FolderView {
                logical_size: (self.logical_size - fi.logical_size) as u64,
                physical_size: (self.physical_size - fi.physical_size) as u64,
                ..self.with_group(kind, self.group(kind).pop())
            },
        }
    }

    /// Number of files in all three buckets.
    pub open spec fn count(self) -> nat {
        self.compressible.files.len() + self.compressed.files.len() + self.skipped.files.len()
    }
}

/// Appending to a well-formed inventory that has room keeps it well-formed.
pub proof fn lemma_folder_push_wf(f: FolderView, kind: FileKind, fi: FileInfo)
    requires
        f.wf(),
        f.fits(fi),
    ensures
        f.push(kind, fi).wf(),
        f.group(kind).fits(fi),
{
    lemma_group_push_wf(f.group(kind), fi);
}

/// Taking a file out of a well-formed inventory keeps it well-formed.
pub proof fn lemma_folder_pop_wf(f: FolderView, kind: FileKind)
    requires
        f.wf(),
    ensures
        f.pop(kind).wf(),
{
    lemma_group_pop_wf(f.group(kind));
}

/// The result of a scan: a root path and its files in three buckets.
#[derive(Debug, Clone)]
pub struct FolderInfo {
    path: String,
    logical_size: u64,
    physical_size: u64,
    compressible: GroupInfo,
    compressed: GroupInfo,
    skipped: GroupInfo,
}

impl View for FolderInfo {
    type V = FolderView;

    closed spec fn view(&self) -> FolderView {
        FolderView {
            path: self.path@,
            logical_size: self.logical_size,
            physical_size: self.physical_size,
            compressible: self.compressible@,
            compressed: self.compressed@,
            skipped: self.skipped@,
        }
    }
}

impl FolderInfo {
    /// Every total equals the sum over the files it stands for.
    pub open spec fn wf(&self) -> bool {
        self@.wf()
    }

    /// An inventory of `path` without files.
    pub fn new(path: &str) -> (f: Self)
        ensures
            f.wf(),
            f@ == FolderView::empty(path@),
    {
        FolderInfo {
            path: path.to_owned(),
            logical_size: 0,
            physical_size: 0,
            compressible: GroupInfo::new(),
            compressed: GroupInfo::new(),
            skipped: GroupInfo::new(),
        }
    }

    /// The root path.
    pub fn path(&self) -> (p: &String)
        ensures
            p@ == self@.path,
    {
        &self.path
    }

    /// Total logical size of all files.
    pub fn logical_size(&self) -> (n: u64)
        ensures
            n == self@.logical_size,
    {
        self.logical_size
    }

    /// Total physical size of all files.
    pub fn physical_size(&self) -> (n: u64)
        ensures
            n == self@.physical_size,
    {
        self.physical_size
    }

    /// The folder's totals and the summary of each bucket.
    pub fn summary(&self) -> (s: FolderSummary)
        requires
            self.wf(),
        ensures
            sums_up(s, self@),
            s.logical_size == sum_logical(self@.compressible.files) + sum_logical(
                self@.compressed.files,
            ) + sum_logical(self@.skipped.files),
            s.physical_size == sum_physical(self@.compressible.files) + sum_physical(
                self@.compressed.files,
            ) + sum_physical(self@.skipped.files),
    {
        FolderSummary {
            logical_size: self.logical_size,
            physical_size: self.physical_size,
            compressible: self.compressible.summary(),
            compressed: self.compressed.summary(),
            skipped: self.skipped.summary(),
        }
    }

    /// Number of files of a kind.
    pub fn len(&self, kind: FileKind) -> (n: usize)
        ensures
            n == self@.group(kind).files.len(),
    {
        match kind {
            FileKind::Compressible => self.compressible.len(),
            FileKind::Compressed => self.compressed.len(),
            FileKind::Skipped => self.skipped.len(),
        }
    }

    /// The oldest file of a kind, if there is one.
    pub fn front(&self, kind: FileKind) -> (r: Option<&FileInfo>)
        ensures
            match r {
                Some(fi) => self@.group(kind).front() == Some(*fi),
                None => self@.group(kind).front() is None,
            },
    {
        match kind {
            FileKind::Compressible => self.compressible.front(),
            FileKind::Compressed => self.compressed.front(),
            FileKind::Skipped => self.skipped.front(),
        }
    }

    /// Whether `push` may take this file: its sizes fit on top of the totals.
    pub fn can_push(&self, fi: &FileInfo) -> (b: bool)
        ensures
            b == self@.fits(*fi),
    {
        fi.logical_size <= u64::MAX - self.logical_size && fi.physical_size <= u64::MAX
            - self.physical_size
    }

    /// Takes the oldest file of a kind out, if there is one.
    pub fn pop(&mut self, kind: FileKind) -> (r: Option<FileInfo>)
        requires
            old(self).wf(),
        ensures
            final(self).wf(),
            r == old(self)@.group(kind).front(),
            final(self)@ == old(self)@.pop(kind),
    {
        proof {
            lemma_folder_pop_wf(self@, kind);
            lemma_group_pop_wf(self@.group(kind));
        }
        let ret = match kind {
            FileKind::Compressible => self.compressible.pop(),
            FileKind::Compressed => self.compressed.pop(),
            FileKind::Skipped => self.skipped.pop(),
        };
        if let Some(fi) = ret {
            self.logical_size = self.logical_size - fi.logical_size;
            self.physical_size = self.physical_size - fi.physical_size;
            Some(fi)
        } else {
            None
        }
    }

    /// Appends a file to the bucket of a kind.
    pub fn push(&mut self, kind: FileKind, fi: FileInfo)
        requires
            old(self).wf(),
            old(self)@.fits(fi),
        ensures
            final(self).wf(),
            final(self)@ == old(self)@.push(kind, fi),
    {
        proof {
            lemma_folder_push_wf(self@, kind, fi);
        }
        self.logical_size = self.logical_size + fi.logical_size;
        self.physical_size = self.physical_size + fi.physical_size;
        match kind {
            FileKind::Compressible => self.compressible.push(fi),
            FileKind::Compressed => self.compressed.push(fi),
            FileKind::Skipped => self.skipped.push(fi),
        };
    }
}

/// A summary that gives the count of a bucket and the sums of its files' sizes.
pub open spec fn summarizes(s: GroupSummary, g: GroupView) -> bool {
    &&& s.count == g.files.len()
    &&& s.logical_size == sum_logical(g.files)
    &&& s.physical_size == sum_physical(g.files)
}

/// A summary that gives an inventory's totals and sums up each of its buckets.
pub open spec fn sums_up(s: FolderSummary, f: FolderView) -> bool {
    &&& s.logical_size == f.logical_size
    &&& s.physical_size == f.physical_size
    &&& summarizes(s.compressible, f.compressible)
    &&& summarizes(s.compressed, f.compressed)
    &&& summarizes(s.skipped, f.skipped)
}

} // verus!
