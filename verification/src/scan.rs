//! The classification of the files of a folder. A scan is fed one file at a
//! time by whoever walks the tree; it sorts each file into its bucket, and
//! tells at every eighth file whether the job is to go on, to wait or to stop.

use vstd::prelude::*;
use crate::background::{ControlToken, ControlTokenView};
use crate::config::is_excluded;
use crate::folder::{
    lemma_folder_push_wf, sum_logical, sum_physical, sums_up, FileInfo, FileKind, FolderInfo,
    FolderSummary, FolderView,
};
use crate::hashfilter::{key_of, HashFilter};
use crate::pipeline::STATUS_INTERVAL_MS;
use globset::GlobSet;

verus! {

/// Files of at most this logical size are not worth compressing.
pub const SMALL_FILE_LIMIT: u64 = 4096;

pub const FILE_ATTRIBUTE_READONLY: u32 = 1;

pub const FILE_ATTRIBUTE_HIDDEN: u32 = 2;

pub const FILE_ATTRIBUTE_SYSTEM: u32 = 4;

pub const FILE_ATTRIBUTE_TEMPORARY: u32 = 256;

pub const FILE_ATTRIBUTE_COMPRESSED: u32 = 2048;

/// The control token is asked once in this many files.
pub const CHECK_INTERVAL: u8 = 8;

/// Whether a file's attributes say to leave it alone: it is read-only, a
/// system file or a temporary file.
pub open spec fn protected(attributes: u32) -> bool {
    attributes & (FILE_ATTRIBUTE_READONLY | FILE_ATTRIBUTE_SYSTEM | FILE_ATTRIBUTE_TEMPORARY) != 0
}

/// The three attributes that protect a file are told apart from the others:
/// a file is protected exactly if one of their bits is set, so a file
/// without attributes, a hidden one and one flagged as compressed are not.
pub proof fn lemma_protected(attributes: u32)
    ensures
        protected(attributes) <==> (attributes & FILE_ATTRIBUTE_READONLY != 0 || attributes
            & FILE_ATTRIBUTE_SYSTEM != 0 || attributes & FILE_ATTRIBUTE_TEMPORARY != 0),
        !protected(0),
        !protected(FILE_ATTRIBUTE_HIDDEN),
        !protected(FILE_ATTRIBUTE_COMPRESSED),
        protected(FILE_ATTRIBUTE_READONLY),
        protected(FILE_ATTRIBUTE_SYSTEM),
        protected(FILE_ATTRIBUTE_TEMPORARY),
{
    assert((attributes & (1u32 | 4u32 | 256u32) != 0) <==> (attributes & 1u32 != 0 || attributes
        & 4u32 != 0 || attributes & 256u32 != 0)) by (bit_vector);
    assert(0u32 & (1u32 | 4u32 | 256u32) == 0) by (bit_vector);
    assert(2u32 & (1u32 | 4u32 | 256u32) == 0) by (bit_vector);
    assert(2048u32 & (1u32 | 4u32 | 256u32) == 0) by (bit_vector);
    assert(1u32 & (1u32 | 4u32 | 256u32) != 0) by (bit_vector);
    assert(4u32 & (1u32 | 4u32 | 256u32) != 0) by (bit_vector);
    assert(256u32 & (1u32 | 4u32 | 256u32) != 0) by (bit_vector);
}

/// The bucket of a file. A file that takes less room than its length is
/// compressed already. Of the others, a small file, a protected one, one
/// known not to compress and one the user excluded are skipped, in this
/// order of precedence; the rest is compressible.
pub open spec fn bucket_of(
    logical_size: u64,
    physical_size: u64,
    attributes: u32,
    known_incompressible: bool,
    excluded: bool,
) -> FileKind {
    if physical_size < logical_size {
        FileKind::Compressed
    } else if logical_size <= SMALL_FILE_LIMIT || protected(attributes) || known_incompressible
        || excluded {
        FileKind::Skipped
    } else {
        FileKind::Compressible
    }
}

/// Sorts a file into its bucket by the rules of `bucket_of`.
pub fn classify(
    logical_size: u64,
    physical_size: u64,
    attributes: u32,
    known_incompressible: bool,
    excluded: bool,
) -> (kind: FileKind)
    ensures
        kind == bucket_of(
            logical_size,
            physical_size,
            attributes,
            known_incompressible,
            excluded,
        ),
{
    if physical_size < logical_size {
        FileKind::Compressed
    } else if logical_size <= SMALL_FILE_LIMIT || attributes & (FILE_ATTRIBUTE_READONLY
        | FILE_ATTRIBUTE_SYSTEM | FILE_ATTRIBUTE_TEMPORARY) != 0 || known_incompressible
        || excluded {
        FileKind::Skipped
    } else {
        FileKind::Compressible
    }
}

/// What a scan is told before it takes its next file.
#[derive(Debug, Clone, Copy, PartialEq, Eq, Structural)]
pub enum Check {
    /// Take the file.
    Go,
    /// Wait one poll interval and ask again.
    Wait,
    /// Stop and hand over what was found so far.
    Stop,
}

/// What a scan that has taken `count` files is told under a token: between
/// two checkpoints it goes on without asking; at a checkpoint the token decides.
pub open spec fn check_at<S>(count: nat, token: ControlTokenView<S>) -> Check {
    if count % (CHECK_INTERVAL as nat) != 0 {
        Check::Go
    } else {
        match token.checkpoint() {
            None => Check::Wait,
            Some(cancelled) => if cancelled {
                Check::Stop
            } else {
                Check::Go
            },
        }
    }
}

/// Once a job is cancelled, its scan stops before it has taken
/// `CHECK_INTERVAL` more files: from any count of files taken, the count at
/// which it is told to stop is fewer than that many files away, and up to
/// there it goes on.
pub proof fn lemma_cancel_stops_within_interval<S>(count: nat, token: ControlTokenView<S>)
    requires
        token.cancelled,
    ensures
        exists|stop: nat|
            {
                &&& count <= stop < count + CHECK_INTERVAL
                &&& #[trigger] check_at(stop, token) == Check::Stop
                &&& forall|at: nat|
                    count <= at < stop ==> #[trigger] check_at(at, token) == Check::Go
            },
{
    let stop: nat = count + ((8 - count % 8) % 8) as nat;
    assert(stop % 8 == 0);
    assert forall|at: nat| count <= at < stop implies #[trigger] check_at(at, token)
        == Check::Go by {
        assert(at % 8 != 0);
    }
    assert(check_at(stop, token) == Check::Stop);
}

/// A paused job that is not cancelled is held at the next checkpoint, and a
/// job that is neither paused nor cancelled is never held.
pub proof fn lemma_pause_holds_at_checkpoint<S>(count: nat, token: ControlTokenView<S>)
    requires
        !token.cancelled,
    ensures
        token.paused && count % (CHECK_INTERVAL as nat) == 0 ==> check_at(count, token)
            == Check::Wait,
        !token.paused ==> check_at(count, token) == Check::Go,
{
}

/// One file as a walk hands it to the scan, with what is known of it.
pub struct Visited {
    pub file: FileInfo,
    pub attributes: u32,
    /// Whether its path is remembered as not worth compressing.
    pub known_incompressible: bool,
    /// Whether an exclude pattern matches its path.
    pub excluded: bool,
}

impl Visited {
    /// The bucket the file belongs to.
    pub open spec fn bucket(self) -> FileKind {
        bucket_of(
            self.file.logical_size,
            self.file.physical_size,
            self.attributes,
            self.known_incompressible,
            self.excluded,
        )
    }
}

/// A file with what is known of it.
pub open spec fn seen(
    file: FileInfo,
    attributes: u32,
    known_incompressible: bool,
    excluded: bool,
) -> Visited {
    Visited { file, attributes, known_incompressible, excluded }
}

/// The files of a walk, in the order of the walk.
pub open spec fn files_walked(walk: Seq<Visited>) -> Seq<FileInfo> {
    walk.map_values(|v: Visited| v.file)
}

/// The files of a walk that belong to the bucket of a kind, in the order of
/// the walk.
pub open spec fn bucket_files(walk: Seq<Visited>, kind: FileKind) -> Seq<FileInfo>
    decreases walk.len(),
{
    if walk.len() == 0 {
        Seq::empty()
    } else if walk.last().bucket() == kind {
        bucket_files(walk.drop_last(), kind).push(walk.last().file)
    } else {
        bucket_files(walk.drop_last(), kind)
    }
}

/// The inventory of a root after a walk: every file of the walk was put, in
/// turn, into its bucket.
pub open spec fn scanned(root: Seq<char>, walk: Seq<Visited>) -> FolderView
    decreases walk.len(),
{
    if walk.len() == 0 {
        FolderView::empty(root)
    } else {
        scanned(root, walk.drop_last()).push(walk.last().bucket(), walk.last().file)
    }
}

/// Whether the sizes of the files of a walk can be summed up.
pub open spec fn countable(walk: Seq<Visited>) -> bool {
    &&& sum_logical(files_walked(walk)) <= u64::MAX
    &&& sum_physical(files_walked(walk)) <= u64::MAX
}

/// The inventory of a walk, however far the walk got: it keeps the root, its
/// three buckets together hold exactly the files of the walk, each in the
/// bucket its classification gives and in the order of the walk, its totals
/// are the sums over those files, and it is empty only if the walk is.
pub proof fn lemma_partial_inventory(root: Seq<char>, walk: Seq<Visited>)
    requires
        countable(walk),
    ensures
        scanned(root, walk).wf(),
        scanned(root, walk).path == root,
        scanned(root, walk).compressible.files == bucket_files(walk, FileKind::Compressible),
        scanned(root, walk).compressed.files == bucket_files(walk, FileKind::Compressed),
        scanned(root, walk).skipped.files == bucket_files(walk, FileKind::Skipped),
        scanned(root, walk).count() == walk.len(),
        scanned(root, walk).logical_size == sum_logical(files_walked(walk)),
        scanned(root, walk).physical_size == sum_physical(files_walked(walk)),
        walk.len() > 0 ==> scanned(root, walk).count() > 0,
    decreases walk.len(),
{
    if walk.len() > 0 {
        let shorter = walk.drop_last();
        assert(files_walked(walk).drop_last() =~= files_walked(shorter));
        assert(files_walked(walk).last() == walk.last().file);
        lemma_partial_inventory(root, shorter);
        lemma_folder_push_wf(scanned(root, shorter), walk.last().bucket(), walk.last().file);
    }
}

/// A walk whose sizes can be summed up can be so at every file on its way.
pub proof fn lemma_countable_prefix(walk: Seq<Visited>, upto: int)
    requires
        countable(walk),
        0 <= upto <= walk.len(),
    ensures
        countable(walk.subrange(0, upto)),
    decreases walk.len() - upto,
{
    if upto < walk.len() {
        lemma_countable_prefix(walk, upto + 1);
        let longer = walk.subrange(0, upto + 1);
        assert(files_walked(longer).drop_last() =~= files_walked(walk.subrange(0, upto)));
    } else {
        assert(walk.subrange(0, upto) =~= walk);
    }
}

/// A scan that is stopped after it took the first `taken` files of a walk
/// hands over the inventory of exactly those files: it keeps the root, holds
/// each of them in the bucket its classification gives, in the order of the
/// walk, sums up their sizes, and is not empty if any file was taken.
pub proof fn lemma_stopped_scan(root: Seq<char>, walk: Seq<Visited>, taken: int)
    requires
        countable(walk),
        0 <= taken <= walk.len(),
    ensures
        ({
            let part = walk.subrange(0, taken);
            let inv = scanned(root, part);
            &&& inv.wf()
            &&& inv.path == root
            &&& inv.count() == taken
            &&& inv.compressible.files == bucket_files(part, FileKind::Compressible)
            &&& inv.compressed.files == bucket_files(part, FileKind::Compressed)
            &&& inv.skipped.files == bucket_files(part, FileKind::Skipped)
            &&& inv.logical_size == sum_logical(files_walked(part))
            &&& inv.physical_size == sum_physical(files_walked(part))
            &&& taken > 0 ==> inv.count() > 0
        }),
{
    lemma_countable_prefix(walk, taken);
    lemma_partial_inventory(root, walk.subrange(0, taken));
}

/// The mathematical content of a scan.
pub struct FolderScanView {
    /// The root of the scan.
    pub path: Seq<char>,
    /// The files taken so far, in the order they came.
    pub walked: Seq<Visited>,
    /// What was found so far.
    pub info: FolderView,
}

impl FolderScanView {
    /// What was found is the inventory of the files taken so far, and their
    /// sizes can be summed up.
    pub open spec fn wf(self) -> bool {
        &&& self.info == scanned(self.path, self.walked)
        &&& countable(self.walked)
    }

    /// The scan after it took one more file.
    pub open spec fn visit(self, v: Visited) -> FolderScanView {
        FolderScanView {
            walked: self.walked.push(v),
            info: self.info.push(v.bucket(), v.file),
            ..self
        }
    }

    /// Whether taking `v` gave a file of this kind and left the scan as `after`.
    pub open spec fn took(self, v: Visited, kind: FileKind, after: FolderScanView) -> bool {
        kind == v.bucket() && after == self.visit(v)
    }
}

/// A scan of one folder.
pub struct FolderScan {
    path: String,
    excludes: GlobSet,
    info: FolderInfo,
    phase: u8,
    walked: Ghost<Seq<Visited>>,
}

impl View for FolderScan {
    type V = FolderScanView;

    closed spec fn view(&self) -> FolderScanView {
        FolderScanView { path: self.path@, walked: self.walked@, info: self.info@ }
    }
}

impl FolderScan {
    /// The content is well-formed and the scan knows how far it is from its
    /// next checkpoint.
    pub closed spec fn wf(&self) -> bool {
        &&& self@.wf()
        &&& self.info.wf()
        &&& self.phase as nat == self.walked@.len() % (CHECK_INTERVAL as nat)
    }

    /// At every point of a scan, what was found is the inventory of exactly
    /// the files taken so far.
    pub proof fn lemma_wf(&self)
        requires
            self.wf(),
        ensures
            self@.wf(),
            self@.info.wf(),
            self@.info.count() == self@.walked.len(),
    {
        lemma_partial_inventory(self@.path, self@.walked);
    }

    /// A scan of `path` that has found nothing yet.
    pub fn new(path: &str, excludes: GlobSet) -> (scan: Self)
        ensures
            scan.wf(),
            scan@.path == path@,
            scan@.walked == Seq::<Visited>::empty(),
            scan@.info == FolderView::empty(path@),
    {
        let scan = FolderScan {
            path: path.to_owned(),
            excludes,
            info: FolderInfo::new(path),
            phase: 0,
            walked: Ghost(Seq::empty()),
        };
        proof {
            assert(files_walked(scan.walked@) =~= Seq::<FileInfo>::empty());
        }
        scan
    }

    /// What the scan is to do before it takes its next file.
    pub fn checkpoint<S>(&self, token: &ControlToken<S>) -> (check: Check)
        requires
            self.wf(),
        ensures
            check == check_at(self@.walked.len(), token@),
    {
        if self.phase != 0 {
            Check::Go
        } else {
            match token.is_cancelled_with_pause() {
                None => Check::Wait,
                Some(cancelled) => if cancelled {
                    Check::Stop
                } else {
                    Check::Go
                },
            }
        }
    }

    /// Whether a status is to be reported now: the scan is at a checkpoint
    /// and the last report is at least the status interval old.
    pub fn status_due(&self, elapsed_ms: u64) -> (due: bool)
        requires
            self.wf(),
        ensures
            due == (self@.walked.len() % (CHECK_INTERVAL as nat) == 0 && elapsed_ms
                >= STATUS_INTERVAL_MS),
    {
        self.phase == 0 && elapsed_ms >= STATUS_INTERVAL_MS
    }

    /// The status to report: the path at hand and the sizes so far, never
    /// the list of files.
    pub fn status(&self, current: &str) -> (s: (String, FolderSummary))
        requires
            self.wf(),
        ensures
            s.0@ == current@,
            sums_up(s.1, self@.info),
    {
        (current.to_owned(), self.info.summary())
    }

    /// What was found so far.
    pub fn info(&self) -> (info: &FolderInfo)
        ensures
            info@ == self@.info,
            self.wf() ==> info.wf() && info@ == scanned(self@.path, self@.walked),
    {
        &self.info
    }

    /// Ends the scan and hands over what was found, whole or partial: the
    /// inventory of exactly the files taken so far.
    pub fn into_info(self) -> (info: FolderInfo)
        requires
            self.wf(),
        ensures
            info.wf(),
            info@ == self@.info,
            info@ == scanned(self@.path, self@.walked),
    {
        self.info
    }

    /// Whether the next file's sizes fit on top of the totals.
    pub fn can_visit(&self, fi: &FileInfo) -> (b: bool)
        ensures
            b == self@.info.fits(*fi),
    {
        self.info.can_push(fi)
    }

    /// Takes a file of which it is known whether it is remembered as
    /// incompressible and whether the user excluded it: the file goes to its
    /// bucket and counts in the totals, whatever the bucket.
    pub fn visit_as(
        &mut self,
        fi: FileInfo,
        attributes: u32,
        known_incompressible: bool,
        excluded: bool,
    ) -> (kind: FileKind)
        requires
            old(self).wf(),
            old(self)@.info.fits(fi),
        ensures
            final(self).wf(),
            kind == bucket_of(
                fi.logical_size,
                fi.physical_size,
                attributes,
                known_incompressible,
                excluded,
            ),
            final(self)@ == old(self)@.visit(seen(fi, attributes, known_incompressible, excluded)),
    {
        let kind = classify(
            fi.logical_size,
            fi.physical_size,
            attributes,
            known_incompressible,
            excluded,
        );
        let ghost v = seen(fi, attributes, known_incompressible, excluded);
        proof {
            lemma_partial_inventory(self@.path, self@.walked);
            lemma_folder_push_wf(self.info@, kind, fi);
            let longer = self@.walked.push(v);
            assert(longer.drop_last() =~= self@.walked);
            assert(files_walked(longer).drop_last() =~= files_walked(self@.walked));
            assert(files_walked(longer).last() == fi);
        }
        self.info.push(kind, fi);
        self.phase = if self.phase == CHECK_INTERVAL - 1 {
            0
        } else {
            self.phase + 1
        };
        self.walked = Ghost(self.walked@.push(v));
        kind
    }

    /// Takes a file found at `full_path`: looks it up among the paths known
    /// not to compress, holds it against the exclude patterns, and sorts it
    /// into its bucket. Whether a pattern matches is for the pattern matcher
    /// to say; the bucket is the one `bucket_of` gives for its answer.
    pub fn visit(
        &mut self,
        full_path: &str,
        fi: FileInfo,
        attributes: u32,
        incompressible: &HashFilter,
    ) -> (kind: FileKind)
        requires
            old(self).wf(),
            old(self)@.info.fits(fi),
        ensures
            final(self).wf(),
            exists|excluded: bool|
                old(self)@.took(
                    #[trigger] seen(
                        fi,
                        attributes,
                        incompressible@.keys.contains(key_of(full_path@)),
                        excluded,
                    ),
                    kind,
                    final(self)@,
                ),
            final(self)@.info == old(self)@.info.push(kind, fi),
            final(self)@.path == old(self)@.path,
    {
        let known = incompressible.contains(full_path);
        let excluded = is_excluded(&self.excludes, full_path);
        let kind = self.visit_as(fi, attributes, known, excluded);
        proof {
            assert(old(self)@.took(seen(fi, attributes, known, excluded), kind, self@));
        }
        kind
    }
}

} // verus!
