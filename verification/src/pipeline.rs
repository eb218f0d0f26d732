//! The coordinator of a compression or decompression run. It owns the
//! inventory, hands its files one at a time to a single worker and sorts each
//! finished file into its bucket. It decides; whoever drives it waits on the
//! channels and timers that `sources` enables and reports each event back.

use vstd::prelude::*;
use crate::folder::{
    lemma_folder_push_wf, lemma_group_pop_wf, lemma_sum_push, lemma_sum_remove, sum_logical,
    sum_physical, FileInfo, FileKind, FolderInfo, FolderView,
};
use crate::hashfilter::{key_of, HashFilter};
use humansize::{file_size_opts, FileSize};

verus! {

/// Milliseconds between two refreshes of the progress shown.
pub const STATUS_INTERVAL_MS: u64 = 50;

/// Seconds between two flushes of the known-incompressible set.
pub const SAVE_INTERVAL_SECS: u64 = 60;

/// What a run does to the files it is given.
#[derive(Debug, Clone, Copy, PartialEq, Eq, Structural)]
pub enum Job {
    Compress,
    Decompress,
}

/// A request of the caller while a job runs.
#[derive(Debug, Clone, Copy, PartialEq, Eq, Structural)]
pub enum Command {
    Pause,
    Resume,
    /// Also what the loss of the command source amounts to.
    Stop,
    /// Any request that has no meaning during a run.
    Other,
}

/// What the caller is to be told after a command.
#[derive(Debug, Clone, Copy, PartialEq, Eq, Structural)]
pub enum Signal {
    /// Nothing is to be said.
    Silent,
    Paused,
    Resumed,
    Stopping,
}

/// The state of a run as the caller sees it.
#[derive(Debug, Clone, Copy, PartialEq, Eq, Structural)]
pub enum Phase {
    Active,
    Paused,
    Stopping,
    Done,
}

/// The events the driver has to wait for.
#[derive(Debug, Clone, Copy, PartialEq, Eq, Structural)]
pub struct Sources {
    /// Commands of the caller.
    pub control: bool,
    /// Results of the worker.
    pub results: bool,
    /// The timers of the progress display and of the periodic save.
    pub timers: bool,
    /// The worker's readiness to take the next file.
    pub dispatch: bool,
}

/// A file that was handed to the worker and has not come back.
#[derive(Debug, Clone)]
pub struct InFlight {
    /// The path the worker was given, by which its result is recognized.
    pub full_path: String,
    pub file: FileInfo,
}

/// The files of a sequence of dispatched entries.
pub open spec fn files_of(entries: Seq<InFlight>) -> Seq<FileInfo> {
    entries.map_values(|e: InFlight| e.file)
}

/// The index of the oldest entry that was dispatched under `path`.
pub open spec fn find_entry(entries: Seq<InFlight>, path: Seq<char>) -> Option<int>
    decreases entries.len(),
{
    if entries.len() == 0 {
        None
    } else {
        match find_entry(entries.drop_last(), path) {
            Some(i) => Some(i),
            None => if entries.last().full_path@ == path {
                Some(entries.len() - 1)
            } else {
                None
            },
        }
    }
}

/// `find_entry` gives the first index whose path is the one looked for, and
/// none only if there is no such index.
pub proof fn lemma_find_entry(entries: Seq<InFlight>, path: Seq<char>)
    ensures
        match find_entry(entries, path) {
            Some(i) => {
                &&& 0 <= i < entries.len()
                &&& entries[i].full_path@ == path
                &&& forall|j: int| 0 <= j < i ==> (#[trigger] entries[j]).full_path@ != path
            },
            None => forall|j: int|
                0 <= j < entries.len() ==> (#[trigger] entries[j]).full_path@ != path,
        },
    decreases entries.len(),
{
    if entries.len() > 0 {
        lemma_find_entry(entries.drop_last(), path);
        assert forall|j: int| 0 <= j < entries.len() - 1 implies entries.drop_last()[j]
            == entries[j] by {}
        match find_entry(entries.drop_last(), path) {
            Some(i) => {
                assert(entries.drop_last()[i] == entries[i]);
                assert forall|j: int| 0 <= j < i implies (#[trigger] entries[j]).full_path@
                    != path by {
                    assert(entries.drop_last()[j] == entries[j]);
                }
            },
            None => {
                assert forall|j: int| 0 <= j < entries.len() - 1 implies (
                #[trigger] entries[j]).full_path@ != path by {
                    assert(entries.drop_last()[j] == entries[j]);
                }
            },
        }
    }
}

/// The mathematical content of a coordinator.
pub struct CoordinatorView {
    pub job: Job,
    pub folder: FolderView,
    pub in_flight: Seq<InFlight>,
    pub paused: bool,
    pub stopping: bool,
    pub done: usize,
    pub total: usize,
    pub last_path: Seq<char>,
    pub old_size: u64,
    pub compressible_size: u64,
}

/// The bucket a job takes its files from.
pub open spec fn source_of(job: Job) -> FileKind {
    match job {
        Job::Compress => FileKind::Compressible,
        Job::Decompress => FileKind::Compressed,
    }
}

impl CoordinatorView {
    /// Files that wait to be dispatched.
    pub open spec fn waiting(self) -> Seq<FileInfo> {
        self.folder.group(source_of(self.job)).files
    }

    /// The inventory is well-formed, every file of the run is counted once,
    /// and the files with the worker fit back into the inventory's totals.
    pub open spec fn wf(self) -> bool {
        &&& self.folder.wf()
        &&& self.done + self.in_flight.len() + self.waiting().len() == self.total
        &&& self.folder.logical_size + sum_logical(files_of(self.in_flight)) <= u64::MAX
        &&& self.folder.physical_size + sum_physical(files_of(self.in_flight)) <= u64::MAX
    }

    /// Whether a file may be offered to the worker.
    pub open spec fn dispatch_enabled(self) -> bool {
        !self.paused && !self.stopping && self.waiting().len() > 0
    }

    /// Nothing is left to dispatch and no result is outstanding.
    pub open spec fn is_done(self) -> bool {
        self.in_flight.len() == 0 && (self.stopping || self.waiting().len() == 0)
    }

    /// The events that are still to come before the run is over: one for
    /// every file with the worker, and two, its dispatch and its result, for
    /// every file that will still be dispatched.
    pub open spec fn work_left(self) -> nat {
        if self.stopping {
            self.in_flight.len()
        } else {
            2 * self.waiting().len() + self.in_flight.len()
        }
    }

    /// The events to wait for.
    pub open spec fn sources(self) -> Sources {
        Sources {
            control: true,
            results: self.in_flight.len() > 0,
            timers: !self.paused,
            dispatch: self.dispatch_enabled(),
        }
    }

    /// The phase of the run.
    pub open spec fn phase(self) -> Phase {
        if self.is_done() {
            Phase::Done
        } else if self.stopping {
            Phase::Stopping
        } else if self.paused {
            Phase::Paused
        } else {
            Phase::Active
        }
    }

    /// The state after a command.
    pub open spec fn after_command(self, cmd: Command) -> CoordinatorView {
        match cmd {
            Command::Pause => CoordinatorView { paused: true, ..self },
            Command::Resume => CoordinatorView { paused: false, ..self },
            Command::Stop => CoordinatorView { paused: false, stopping: true, ..self },
            Command::Other => self,
        }
    }

    /// What is to be said after a command.
    pub open spec fn signal(self, cmd: Command) -> Signal {
        match cmd {
            Command::Pause => if self.paused {
                Signal::Silent
            } else {
                Signal::Paused
            },
            Command::Resume => Signal::Resumed,
            Command::Stop => Signal::Stopping,
            Command::Other => Signal::Silent,
        }
    }

    /// The state after the oldest waiting file went to the worker under `full_path`.
    pub open spec fn dispatched(self, full_path: String) -> CoordinatorView
        recommends
            self.waiting().len() > 0,
    {
        CoordinatorView {
            folder: self.folder.pop(source_of(self.job)),
            in_flight: self.in_flight.push(InFlight { full_path, file: self.waiting()[0] }),
            last_path: self.waiting()[0].path@,
            ..self
        }
    }
}

/// What the worker said of a file: whether it went through, and if so with
/// which answer.
pub open spec fn verdict(outcome: Result<bool, String>) -> Option<bool> {
    match outcome {
        Ok(b) => Some(b),
        Err(_) => None,
    }
}

/// The physical size a file is given when it comes back from the worker.
/// After a compression that reported success it is the size observed on disk,
/// if one was observed; after a decompression that went through it is the
/// logical size; else it stays. A size that the totals have no `room` for is
/// not taken, and the size stays as well.
pub open spec fn settled_size(
    job: Job,
    file: FileInfo,
    verdict: Option<bool>,
    observed: Option<u64>,
    room: int,
) -> u64 {
    let wanted = match job {
        Job::Compress => if verdict == Some(true) && observed is Some {
            observed.unwrap()
        } else {
            file.physical_size
        },
        Job::Decompress => if verdict is Some {
            file.logical_size
        } else {
            file.physical_size
        },
    };
    if wanted <= room {
        wanted
    } else {
        file.physical_size
    }
}

/// The bucket a file goes to when it comes back from the worker with the
/// physical size it was given. A compression that reported success without
/// making the file smaller on disk counts as one that was not worth it.
pub open spec fn destination(job: Job, verdict: Option<bool>, logical: u64, physical: u64) -> FileKind {
    match job {
        Job::Compress => if verdict == Some(true) && physical != logical {
            FileKind::Compressed
        } else {
            FileKind::Skipped
        },
        Job::Decompress => if verdict is Some {
            FileKind::Compressible
        } else {
            FileKind::Skipped
        },
    }
}

/// Whether a file that comes back is remembered as not worth compressing.
pub open spec fn remembered(job: Job, verdict: Option<bool>, logical: u64, physical: u64) -> bool {
    job == Job::Compress && (verdict == Some(false) || (verdict == Some(true) && physical
        == logical))
}

/// What became of a file that came back from the worker.
#[derive(Debug, Clone)]
pub struct Settled {
    /// The bucket it went to.
    pub kind: FileKind,
    /// Its path relative to the root.
    pub path: String,
    /// The worker's error, if it failed.
    pub error: Option<String>,
}

/// The figures of a finished run.
#[derive(Debug, Clone)]
pub struct Report {
    pub job: Job,
    /// Files that came back from the worker.
    pub done: usize,
    /// Files the run started with.
    pub total: usize,
    /// Physical size of the inventory before the run.
    pub old_size: u64,
    /// Physical size of the inventory after the run.
    pub new_size: u64,
    /// Physical size of the compressible bucket before the run.
    pub compressible_size: u64,
    /// Bytes won by a compression, or given up by a decompression.
    pub changed: u64,
    /// `compressible_size` in words.
    pub compressible_text: String,
    /// `changed` in words.
    pub changed_text: String,
}

/// Bytes won by a compression, or given up by a decompression; zero where
/// the sizes moved the other way.
pub open spec fn change_of(job: Job, old_size: u64, new_size: u64) -> u64 {
    match job {
        Job::Compress => if old_size >= new_size {
            (old_size - new_size) as u64
        } else {
            0
        },
        Job::Decompress => if new_size >= old_size {
            (new_size - old_size) as u64
        } else {
            0
        },
    }
}

/// The text `humansize` gives for a size, with decimal or with binary units.
pub uninterp spec fn human_size(size: u64, decimal: bool) -> Seq<char>;

/// Calls `humansize::FileSize::file_size` on a `u64` with the crate's
/// `DECIMAL` or `BINARY` options. For an unsigned size that call always
/// returns `Ok`; the contract only gives the text its name.
#[verifier::external_body]
pub(crate) fn format_size(size: u64, decimal: bool) -> (text: String)
    ensures
        text@ == human_size(size, decimal),
{
    size.file_size(if decimal {
        file_size_opts::DECIMAL
    } else {
        file_size_opts::BINARY
    }).expect("file size")
}

/// Calls `std::path::Path::join` on the root and a path relative to it.
/// What comes back depends on the platform's path rules, so nothing is
/// claimed of it.
#[verifier::external_body]
fn join_path(root: &str, relative: &str) -> (full: String) {
    std::path::Path::new(root).join(relative).to_string_lossy().into_owned()
}

/// The files of the entries without the one at an index.
pub proof fn lemma_files_of_remove(entries: Seq<InFlight>, i: int)
    requires
        0 <= i < entries.len(),
    ensures
        files_of(entries.remove(i)) =~= files_of(entries).remove(i),
        files_of(entries)[i] == entries[i].file,
{
}

/// The files of the entries and one more.
pub proof fn lemma_files_of_push(entries: Seq<InFlight>, e: InFlight)
    ensures
        files_of(entries.push(e)) =~= files_of(entries).push(e.file),
{
}

/// The inventory after files were put at the end of the bucket of a kind, in
/// their order.
pub open spec fn given_back(folder: FolderView, kind: FileKind, files: Seq<FileInfo>) -> FolderView
    decreases files.len(),
{
    if files.len() == 0 {
        folder
    } else {
        given_back(folder, kind, files.drop_last()).push(kind, files.last())
    }
}

/// Files that fit on top of an inventory's totals can be given back to it:
/// the inventory stays well-formed, holds that many files more, and its
/// totals grow by the sums of their sizes.
pub proof fn lemma_given_back(folder: FolderView, kind: FileKind, files: Seq<FileInfo>)
    requires
        folder.wf(),
        folder.logical_size + sum_logical(files) <= u64::MAX,
        folder.physical_size + sum_physical(files) <= u64::MAX,
    ensures
        given_back(folder, kind, files).wf(),
        given_back(folder, kind, files).path == folder.path,
        given_back(folder, kind, files).count() == folder.count() + files.len(),
        given_back(folder, kind, files).logical_size == folder.logical_size + sum_logical(files),
        given_back(folder, kind, files).physical_size == folder.physical_size + sum_physical(
            files,
        ),
        given_back(folder, kind, files).group(kind).files == folder.group(kind).files + files,
        forall|other: FileKind|
            other != kind ==> given_back(folder, kind, files).group(other) == folder.group(other),
    decreases files.len(),
{
    if files.len() > 0 {
        let before = given_back(folder, kind, files.drop_last());
        lemma_given_back(folder, kind, files.drop_last());
        lemma_folder_push_wf(before, kind, files.last());
        assert(before.push(kind, files.last()).group(kind).files =~= folder.group(kind).files
            + files);
    } else {
        assert(folder.group(kind).files + files =~= folder.group(kind).files);
    }
}

impl CoordinatorView {
    /// The inventory a run hands over when it ends: the inventory as it
    /// stands, with the files that are still with the worker put back at the
    /// end of the bucket they were taken from, the oldest first. At the end
    /// of a run that is over this is the inventory as it stands.
    pub open spec fn closed_folder(self) -> FolderView {
        given_back(self.folder, source_of(self.job), files_of(self.in_flight))
    }

    /// What the totals can take on top of the inventory and of the files
    /// that stay with the worker when the entry at `i` comes back.
    pub open spec fn room(self, i: int) -> int {
        u64::MAX - self.folder.physical_size - sum_physical(files_of(self.in_flight.remove(i)))
    }

    /// The file at entry `i` as it is put back into the inventory.
    pub open spec fn settled_file(self, i: int, verdict: Option<bool>, observed: Option<u64>) -> FileInfo {
        FileInfo {
            physical_size: settled_size(
                self.job,
                self.in_flight[i].file,
                verdict,
                observed,
                self.room(i),
            ),
            ..self.in_flight[i].file
        }
    }

    /// The bucket the file at entry `i` is put into.
    pub open spec fn settled_kind(self, i: int, verdict: Option<bool>, observed: Option<u64>) -> FileKind {
        destination(
            self.job,
            verdict,
            self.in_flight[i].file.logical_size,
            self.settled_file(i, verdict, observed).physical_size,
        )
    }

    /// Whether the file at entry `i` is remembered as not worth compressing.
    pub open spec fn settled_remembered(
        self,
        i: int,
        verdict: Option<bool>,
        observed: Option<u64>,
    ) -> bool {
        remembered(
            self.job,
            verdict,
            self.in_flight[i].file.logical_size,
            self.settled_file(i, verdict, observed).physical_size,
        )
    }

    /// The state after the entry at `i` came back from the worker.
    pub open spec fn settled(self, i: int, verdict: Option<bool>, observed: Option<u64>) -> CoordinatorView
        recommends
            0 <= i < self.in_flight.len(),
    {
        CoordinatorView {
            folder: self.folder.push(
                self.settled_kind(i, verdict, observed),
                self.settled_file(i, verdict, observed),
            ),
            in_flight: self.in_flight.remove(i),
            done: (self.done + 1) as usize,
            ..self
        }
    }
}

/// A run over one inventory.
#[derive(Debug)]
pub struct Coordinator {
    job: Job,
    folder: FolderInfo,
    in_flight: Vec<InFlight>,
    paused: bool,
    stopping: bool,
    done: usize,
    total: usize,
    last_path: String,
    old_size: u64,
    compressible_size: u64,
    held_physical: u64,
}

impl View for Coordinator {
    type V = CoordinatorView;

    closed spec fn view(&self) -> CoordinatorView {
        CoordinatorView {
            job: self.job,
            folder: self.folder@,
            in_flight: self.in_flight@,
            paused: self.paused,
            stopping: self.stopping,
            done: self.done,
            total: self.total,
            last_path: self.last_path@,
            old_size: self.old_size,
            compressible_size: self.compressible_size,
        }
    }
}

/// The bucket a job takes its files from.
pub fn source(job: Job) -> (kind: FileKind)
    ensures
        kind == source_of(job),
{
    match job {
        Job::Compress => FileKind::Compressible,
        Job::Decompress => FileKind::Compressed,
    }
}

impl Coordinator {
    /// The content is well-formed and the coordinator knows the physical
    /// size of what is with the worker.
    pub closed spec fn wf(&self) -> bool {
        &&& self@.wf()
        &&& self.held_physical == sum_physical(files_of(self.in_flight@))
    }

    /// A well-formed coordinator has well-formed content.
    pub proof fn lemma_wf(&self)
        requires
            self.wf(),
        ensures
            self@.wf(),
    {
    }

    /// Starts a run over `folder`: active, with every file of the job's source
    /// bucket waiting and nothing dispatched.
    pub fn new(job: Job, folder: FolderInfo) -> (c: Self)
        requires
            folder.wf(),
        ensures
            c.wf(),
            c@.job == job,
            c@.folder == folder@,
            c@.in_flight == Seq::<InFlight>::empty(),
            !c@.paused,
            !c@.stopping,
            c@.done == 0,
            c@.total == folder@.group(source_of(job)).files.len(),
            c@.last_path == "None"@,
            c@.old_size == folder@.physical_size,
            c@.compressible_size == folder@.compressible.physical_size,
    {
        let total = folder.len(source(job));
        let old_size = folder.physical_size();
        let compressible_size = folder.summary().compressible.physical_size;
        let c = Coordinator {
            job,
            folder,
            in_flight: Vec::new(),
            paused: false,
            stopping: false,
            done: 0,
            total,
            last_path: "None".to_owned(),
            old_size,
            compressible_size,
            held_physical: 0,
        };
        proof {
            assert(files_of(c@.in_flight) =~= Seq::<FileInfo>::empty());
        }
        c
    }

    /// The events to wait for next.
    pub fn sources(&self) -> (s: Sources)
        ensures
            s == self@.sources(),
    {
        Sources {
            control: true,
            results: self.in_flight.len() > 0,
            timers: !self.paused,
            dispatch: !self.paused && !self.stopping && self.folder.len(source(self.job)) > 0,
        }
    }

    /// Whether the run is over.
    pub fn is_done(&self) -> (b: bool)
        ensures
            b == self@.is_done(),
    {
        self.in_flight.len() == 0 && (self.stopping || self.folder.len(source(self.job)) == 0)
    }

    /// The phase of the run.
    pub fn phase(&self) -> (p: Phase)
        ensures
            p == self@.phase(),
    {
        if self.is_done() {
            Phase::Done
        } else if self.stopping {
            Phase::Stopping
        } else if self.paused {
            Phase::Paused
        } else {
            Phase::Active
        }
    }

    /// Files that came back from the worker.
    pub fn done(&self) -> (n: usize)
        ensures
            n == self@.done,
    {
        self.done
    }

    /// Files the run started with.
    pub fn total(&self) -> (n: usize)
        ensures
            n == self@.total,
    {
        self.total
    }

    /// Relative path of the file dispatched last.
    pub fn last_path(&self) -> (p: &String)
        ensures
            p@ == self@.last_path,
    {
        &self.last_path
    }

    /// The inventory as it stands.
    pub fn folder(&self) -> (f: &FolderInfo)
        ensures
            f@ == self@.folder,
    {
        &self.folder
    }

    /// Takes a command of the caller. Pause stops dispatching and is ignored
    /// when already paused; Resume dispatches again; Stop ends dispatching for
    /// good and lifts a pause so that the outstanding results are drained.
    pub fn on_command(&mut self, cmd: Command) -> (signal: Signal)
        requires
            old(self).wf(),
        ensures
            final(self).wf(),
            final(self)@ == old(self)@.after_command(cmd),
            signal == old(self)@.signal(cmd),
    {
        match cmd {
            Command::Pause => {
                if self.paused {
                    Signal::Silent
                } else {
                    self.paused = true;
                    Signal::Paused
                }
            },
            Command::Resume => {
                self.paused = false;
                Signal::Resumed
            },
            Command::Stop => {
                self.stopping = true;
                self.paused = false;
                Signal::Stopping
            },
            Command::Other => Signal::Silent,
        }
    }

    /// Hands the oldest waiting file to the worker under `full_path`, if
    /// dispatching is enabled: the file leaves its bucket and stays with the
    /// coordinator until its result comes back. Returns what the worker is
    /// to be sent: the path and the file's logical size.
    pub fn dispatch_as(&mut self, full_path: String) -> (sent: Option<(String, u64)>)
        requires
            old(self).wf(),
        ensures
            final(self).wf(),
            match sent {
                None => !old(self)@.dispatch_enabled() && final(self)@ == old(self)@,
                Some((path, len)) => {
                    &&& old(self)@.dispatch_enabled()
                    &&& path == full_path
                    &&& len == old(self)@.waiting()[0].logical_size
                    &&& final(self)@ == old(self)@.dispatched(full_path)
                },
            },
    {
        if self.paused || self.stopping {
            return None;
        }
        let kind = source(self.job);
        proof {
            lemma_group_pop_wf(self@.folder.group(kind));
        }
        match self.folder.pop(kind) {
            None => None,
            Some(fi) => {
                proof {
                    lemma_files_of_push(
                        old(self)@.in_flight,
                        InFlight { full_path, file: fi },
                    );
                    lemma_sum_push(files_of(old(self)@.in_flight), fi);
                }
                let len = fi.logical_size;
                self.last_path = fi.path.clone();
                self.held_physical = self.held_physical + fi.physical_size;
                let sent_path = full_path.clone();
                self.in_flight.push(InFlight { full_path, file: fi });
                Some((sent_path, len))
            },
        }
    }

    /// Hands the oldest waiting file to the worker, if dispatching is
    /// enabled, under the path that joins the root and the file's relative
    /// path. Returns what the worker is to be sent.
    pub fn dispatch(&mut self) -> (sent: Option<(String, u64)>)
        requires
            old(self).wf(),
        ensures
            final(self).wf(),
            match sent {
                None => !old(self)@.dispatch_enabled() && final(self)@ == old(self)@,
                Some((path, len)) => {
                    &&& old(self)@.dispatch_enabled()
                    &&& len == old(self)@.waiting()[0].logical_size
                    &&& final(self)@ == old(self)@.dispatched(path)
                },
            },
    {
        let full_path = match self.folder.front(source(self.job)) {
            None => {
                return None;
            },
            Some(fi) => join_path(self.folder.path().as_str(), fi.path.as_str()),
        };
        self.dispatch_as(full_path)
    }

    /// The index of the oldest dispatched entry with this path.
    fn position(&self, path: &String) -> (r: Option<usize>)
        ensures
            match r {
                Some(i) => find_entry(self@.in_flight, path@) == Some(i as int),
                None => find_entry(self@.in_flight, path@) is None,
            },
    {
        let n = self.in_flight.len();
        let mut i: usize = 0;
        while i < n
            invariant
                i <= n,
                n == self.in_flight@.len(),
                forall|j: int| 0 <= j < i ==> (#[trigger] self.in_flight@[j]).full_path@ != path@,
            decreases n - i,
        {
            if self.in_flight[i].full_path == *path {
                proof {
                    lemma_find_entry(self@.in_flight, path@);
                }
                return Some(i);
            }
            i = i + 1;
        }
        proof {
            lemma_find_entry(self@.in_flight, path@);
        }
        None
    }

    /// Takes a result of the worker. A path that was not dispatched changes
    /// nothing. Else the oldest entry with that path leaves the coordinator:
    /// its file gets its new physical size and goes to its bucket, and where
    /// compressing it was not worth it, the path is added to
    /// `incompressible`. A failure of the worker sends the file to the
    /// skipped bucket and is handed back to be shown; it does not end the run.
    pub fn on_result(
        &mut self,
        path: String,
        outcome: Result<bool, String>,
        size_on_disk: Option<u64>,
        incompressible: &mut HashFilter,
    ) -> (settled: Option<Settled>)
        requires
            old(self).wf(),
            old(incompressible).wf(),
        ensures
            final(self).wf(),
            final(incompressible).wf(),
            match find_entry(old(self)@.in_flight, path@) {
                None => {
                    &&& settled is None
                    &&& final(self)@ == old(self)@
                    &&& final(incompressible)@ == old(incompressible)@
                },
                Some(i) => {
                    &&& final(self)@ == old(self)@.settled(i, verdict(outcome), size_on_disk)
                    &&& settled is Some
                    &&& settled.unwrap().kind == old(self)@.settled_kind(
                        i,
                        verdict(outcome),
                        size_on_disk,
                    )
                    &&& settled.unwrap().path == old(self)@.in_flight[i].file.path
                    &&& settled.unwrap().error == match outcome {
                        Ok(_) => None::<String>,
                        Err(message) => Some(message),
                    }
                    &&& final(incompressible)@ == if old(self)@.settled_remembered(
                        i,
                        verdict(outcome),
                        size_on_disk,
                    ) {
                        old(incompressible)@.with_key(key_of(path@))
                    } else {
                        old(incompressible)@
                    }
                },
            },
    {
        let found = self.position(&path);
        let i = match found {
            None => {
                return None;
            },
            Some(i) => i,
        };
        proof {
            lemma_find_entry(self@.in_flight, path@);
            lemma_files_of_remove(self@.in_flight, i as int);
            lemma_sum_remove(files_of(self@.in_flight), i as int);
        }
        let entry = self.in_flight.remove(i);
        let mut fi = entry.file;
        self.held_physical = self.held_physical - fi.physical_size;
        self.done = self.done + 1;
        let room = u64::MAX - self.folder.physical_size() - self.held_physical;
        let went_through = outcome.is_ok();
        let answer = match &outcome {
            Ok(b) => *b,
            Err(_) => false,
        };
        let wanted: u64 = match self.job {
            Job::Compress => if went_through && answer {
                match size_on_disk {
                    Some(n) => n,
                    None => fi.physical_size,
                }
            } else {
                fi.physical_size
            },
            Job::Decompress => if went_through {
                fi.logical_size
            } else {
                fi.physical_size
            },
        };
        if wanted <= room {
            fi.physical_size = wanted;
        }
        let shrunk = fi.physical_size != fi.logical_size;
        let kind = match self.job {
            Job::Compress => if went_through && answer && shrunk {
                FileKind::Compressed
            } else {
                FileKind::Skipped
            },
            Job::Decompress => if went_through {
                FileKind::Compressible
            } else {
                FileKind::Skipped
            },
        };
        let remember = match self.job {
            Job::Compress => went_through && (!answer || !shrunk),
            Job::Decompress => false,
        };
        if remember {
            incompressible.insert(path.as_str());
        }
        let file_path = fi.path.clone();
        self.folder.push(kind, fi);
        let error = match outcome {
            Ok(_) => None,
            Err(message) => Some(message),
        };
        Some(Settled { kind, path: file_path, error })
    }

    /// Ends the run: gives the inventory back, with the figures of the run
    /// and the sizes among them in words. A run that is over has no file with
    /// the worker. Where a run is ended before that, because the worker is
    /// gone, the files that never came back are put back, unchanged, at the
    /// end of the bucket they were taken from, so that no file is lost.
    pub fn finish(self, decimal: bool) -> (r: (FolderInfo, Report))
        requires
            self.wf(),
        ensures
            r.0.wf(),
            r.0@ == self@.closed_folder(),
            r.1.job == self@.job,
            r.1.done == self@.done,
            r.1.total == self@.total,
            r.1.old_size == self@.old_size,
            r.1.new_size == self@.closed_folder().physical_size,
            r.1.compressible_size == self@.compressible_size,
            r.1.changed == change_of(
                self@.job,
                self@.old_size,
                self@.closed_folder().physical_size,
            ),
            r.1.compressible_text@ == human_size(self@.compressible_size, decimal),
            r.1.changed_text@ == human_size(r.1.changed, decimal),
    {
        let ghost started = self@;
        let mut run = self;
        let kind = source(run.job);
        let ghost held = files_of(started.in_flight);
        let ghost mut back: int = 0;
        proof {
            assert(held.subrange(0, 0) =~= Seq::<FileInfo>::empty());
            assert(held.subrange(0, held.len() as int) =~= held);
        }
        while run.in_flight.len() > 0
            invariant
                kind == source_of(started.job),
                held == files_of(started.in_flight),
                0 <= back <= held.len(),
                files_of(run.in_flight@) == held.subrange(back, held.len() as int),
                run.folder.wf(),
                run.folder@ == given_back(started.folder, kind, held.subrange(0, back)),
                run.folder@.logical_size + sum_logical(files_of(run.in_flight@)) <= u64::MAX,
                run.folder@.physical_size + sum_physical(files_of(run.in_flight@)) <= u64::MAX,
                run.job == started.job,
                run.done == started.done,
                run.total == started.total,
                run.old_size == started.old_size,
                run.compressible_size == started.compressible_size,
            decreases run.in_flight.len(),
        {
            proof {
                lemma_files_of_remove(run.in_flight@, 0);
                lemma_sum_remove(files_of(run.in_flight@), 0);
            }
            let entry = run.in_flight.remove(0);
            proof {
                assert(entry.file == held[back]);
                assert(held.subrange(0, back + 1).drop_last() =~= held.subrange(0, back));
                assert(files_of(run.in_flight@) =~= held.subrange(back + 1, held.len() as int));
            }
            run.folder.push(kind, entry.file);
            proof {
                back = back + 1;
            }
        }
        proof {
            assert(held.subrange(0, back) =~= held);
        }
        let new_size = run.folder.physical_size();
        let changed: u64 = match run.job {
            Job::Compress => if run.old_size >= new_size {
                run.old_size - new_size
            } else {
                0
            },
            Job::Decompress => if new_size >= run.old_size {
                new_size - run.old_size
            } else {
                0
            },
        };
        let report = Report {
            job: run.job,
            done: run.done,
            total: run.total,
            old_size: run.old_size,
            new_size,
            compressible_size: run.compressible_size,
            changed,
            compressible_text: format_size(run.compressible_size, decimal),
            changed_text: format_size(changed, decimal),
        };
        (run.folder, report)
    }
}

/// A second Pause changes nothing and is not reported again, and a Resume
/// after any number of Pauses leaves what a Resume after one Pause leaves.
pub proof fn lemma_pause_once_or_twice(c: CoordinatorView)
    ensures
        c.after_command(Command::Pause).after_command(Command::Pause) == c.after_command(
            Command::Pause,
        ),
        c.after_command(Command::Pause).signal(Command::Pause) == Signal::Silent,
        c.after_command(Command::Pause).after_command(Command::Pause).after_command(
            Command::Resume,
        ) == c.after_command(Command::Pause).after_command(Command::Resume),
        !c.paused ==> c.after_command(Command::Resume) == c,
        !c.paused ==> c.after_command(Command::Pause).after_command(Command::Resume) == c,
{
}

/// While a run is paused nothing is dispatched, and the results of what was
/// dispatched before are still waited for.
pub proof fn lemma_pause_stops_dispatch_only(c: CoordinatorView)
    ensures
        !c.after_command(Command::Pause).sources().dispatch,
        c.after_command(Command::Pause).sources().results == c.sources().results,
        c.after_command(Command::Pause).sources().control,
{
}

/// Stop is final: whatever command follows it, nothing is dispatched any
/// more, and the results that are outstanding are still waited for.
pub proof fn lemma_stop_is_absorbing(c: CoordinatorView, cmd: Command)
    ensures
        c.after_command(Command::Stop).after_command(cmd).stopping,
        !c.after_command(Command::Stop).after_command(cmd).sources().dispatch,
        c.after_command(Command::Stop).after_command(cmd).sources().results == c.sources().results,
        !c.after_command(Command::Stop).paused,
{
}

/// A run is over exactly when no event but a command is waited for that
/// could still move a file: nothing can be dispatched, now or after a
/// Resume, and no result is outstanding.
pub proof fn lemma_done_means_idle(c: CoordinatorView)
    ensures
        c.is_done() <==> (!c.sources().results && !c.after_command(
            Command::Resume,
        ).sources().dispatch),
        c.is_done() ==> c.phase() == Phase::Done,
{
}

/// A run that is not over and not paused always waits for something that
/// moves a file: a result, or the worker's readiness for the next file. A
/// paused run that is not over waits for a result or else can be resumed into
/// dispatching. Hence the driver never waits on the commands alone while
/// work could go on.
pub proof fn lemma_no_deadlock(c: CoordinatorView)
    requires
        !c.is_done(),
    ensures
        !c.paused ==> c.sources().results || c.sources().dispatch,
        c.paused ==> c.sources().results || c.after_command(Command::Resume).sources().dispatch,
{
}

/// Every dispatch and every result brings the run one event closer to its
/// end, no command takes it further away, and the run is over exactly when
/// no event is left.
pub proof fn lemma_progress(
    c: CoordinatorView,
    full_path: String,
    i: int,
    verdict: Option<bool>,
    observed: Option<u64>,
    cmd: Command,
)
    ensures
        c.dispatch_enabled() ==> c.dispatched(full_path).work_left() == c.work_left() - 1,
        0 <= i < c.in_flight.len() ==> c.settled(i, verdict, observed).work_left() == c.work_left()
            - 1,
        c.after_command(cmd).work_left() <= c.work_left(),
        c.is_done() <==> c.work_left() == 0,
{
    if 0 <= i < c.in_flight.len() {
        lemma_settled_file(c, i, verdict, observed);
    }
}

/// No file is lost or made up: a dispatch moves one file from the inventory
/// to the worker, a result moves one back, and a command moves none.
pub proof fn lemma_no_file_lost(
    c: CoordinatorView,
    full_path: String,
    i: int,
    verdict: Option<bool>,
    observed: Option<u64>,
    cmd: Command,
)
    requires
        c.wf(),
    ensures
        c.waiting().len() > 0 ==> c.dispatched(full_path).folder.count() + c.dispatched(
            full_path,
        ).in_flight.len() == c.folder.count() + c.in_flight.len(),
        0 <= i < c.in_flight.len() ==> c.settled(i, verdict, observed).folder.count() + c.settled(
            i,
            verdict,
            observed,
        ).in_flight.len() == c.folder.count() + c.in_flight.len(),
        c.after_command(cmd).folder == c.folder,
        c.after_command(cmd).in_flight == c.in_flight,
{
}

/// Ending a run loses no file: the inventory handed over holds every file of
/// the inventory and every file that was still with the worker, and at the
/// end of a run that is over it is the inventory as it stands.
pub proof fn lemma_finish_keeps_every_file(c: CoordinatorView)
    requires
        c.wf(),
    ensures
        c.closed_folder().wf(),
        c.closed_folder().count() == c.folder.count() + c.in_flight.len(),
        c.closed_folder().logical_size == c.folder.logical_size + sum_logical(
            files_of(c.in_flight),
        ),
        c.closed_folder().group(source_of(c.job)).files == c.waiting() + files_of(c.in_flight),
        c.is_done() ==> c.closed_folder() == c.folder,
{
    lemma_given_back(c.folder, source_of(c.job), files_of(c.in_flight));
}

/// The logical size of a file never changes on its way through the worker,
/// and a file that comes back never goes to the bucket the job draws from.
pub proof fn lemma_settled_file(c: CoordinatorView, i: int, verdict: Option<bool>, observed: Option<u64>)
    requires
        0 <= i < c.in_flight.len(),
    ensures
        c.settled_file(i, verdict, observed).logical_size == c.in_flight[i].file.logical_size,
        c.settled_file(i, verdict, observed).path == c.in_flight[i].file.path,
        c.settled_kind(i, verdict, observed) != source_of(c.job),
        c.settled(i, verdict, observed).waiting() == c.waiting(),
{
}

/// A compression that reports success and leaves the file as large on disk
/// as it is long sends the file to the skipped bucket and has its path
/// remembered; it does not count as compressed.
pub proof fn lemma_success_without_gain_is_skipped(file: FileInfo, room: int)
    requires
        file.logical_size <= room,
    ensures
        ({
            let size = settled_size(
                Job::Compress,
                file,
                Some(true),
                Some(file.logical_size),
                room,
            );
            &&& size == file.logical_size
            &&& destination(Job::Compress, Some(true), file.logical_size, size) == FileKind::Skipped
            &&& remembered(Job::Compress, Some(true), file.logical_size, size)
        }),
{
}

} // verus!
