//! The backend of the front end: it keeps the inventory of the folder that
//! was scanned last, decides which job a request starts, and watches over a
//! running scan.

use vstd::prelude::*;
use crate::background::ControlToken;
use crate::folder::{sums_up, FolderInfo, FolderSummary, FolderView};
use crate::gui::GuiRequest;
use crate::pipeline::{Command, Signal};

verus! {

/// What the backend does on a request.
#[derive(Debug, Clone, Copy, PartialEq, Eq, Structural)]
pub enum Route {
    /// Ask the user for a folder and scan it.
    ChooseFolder,
    /// Scan the folder of the inventory again.
    Analyse,
    /// Compress the compressible files of the inventory.
    Compress,
    /// Expand the compressed files of the inventory.
    Decompress,
    /// Nothing: the request has no meaning now.
    Ignore,
}

/// What a request starts, given whether there is an inventory: a folder can
/// be chosen at any time; the other jobs need an inventory.
pub open spec fn route_of(has_info: bool, request: GuiRequest) -> Route {
    match request {
        GuiRequest::ChooseFolder => Route::ChooseFolder,
        GuiRequest::Analyse => if has_info {
            Route::Analyse
        } else {
            Route::Ignore
        },
        GuiRequest::Compress => if has_info {
            Route::Compress
        } else {
            Route::Ignore
        },
        GuiRequest::Decompress => if has_info {
            Route::Decompress
        } else {
            Route::Ignore
        },
        _ => Route::Ignore,
    }
}

/// The command a request amounts to while a job runs.
pub open spec fn command_of(request: GuiRequest) -> Command {
    match request {
        GuiRequest::Pause => Command::Pause,
        GuiRequest::Resume => Command::Resume,
        GuiRequest::Stop => Command::Stop,
        _ => Command::Other,
    }
}

/// The command a request amounts to while a job runs.
pub fn command(request: &GuiRequest) -> (cmd: Command)
    ensures
        cmd == command_of(*request),
{
    match request {
        GuiRequest::Pause => Command::Pause,
        GuiRequest::Resume => Command::Resume,
        GuiRequest::Stop => Command::Stop,
        _ => Command::Other,
    }
}

/// The command a message of the front end amounts to while a job runs; a
/// front end that is gone asks for a stop.
pub fn command_or_stop(request: Option<&GuiRequest>) -> (cmd: Command)
    ensures
        cmd == match request {
            Some(r) => command_of(*r),
            None => Command::Stop,
        },
{
    match request {
        Some(r) => command(r),
        None => Command::Stop,
    }
}

/// How a scan ended.
#[derive(Debug)]
pub enum ScanEnd {
    /// It went through the whole folder.
    Scanned(FolderSummary),
    /// It was stopped; the summary is that of the part it went through.
    Stopped(FolderSummary),
    /// The job broke down, with this message.
    Failed(String),
}

/// The backend's memory between jobs.
#[derive(Debug)]
pub struct Backend {
    info: Option<FolderInfo>,
}

impl View for Backend {
    type V = Option<FolderView>;

    closed spec fn view(&self) -> Option<FolderView> {
        match self.info {
            Some(info) => Some(info@),
            None => None,
        }
    }
}

impl Backend {
    /// The inventory, if there is one, is well-formed.
    pub closed spec fn wf(&self) -> bool {
        match self.info {
            Some(info) => info.wf(),
            None => true,
        }
    }

    /// A backend without an inventory.
    pub fn new() -> (b: Self)
        ensures
            b.wf(),
            b@ is None,
    {
        Backend { info: None }
    }

    /// Whether a folder was scanned.
    pub fn has_info(&self) -> (b: bool)
        ensures
            b == self@ is Some,
    {
        self.info.is_some()
    }

    /// What to do on a request.
    pub fn route(&self, request: &GuiRequest) -> (r: Route)
        ensures
            r == route_of(self@ is Some, *request),
    {
        let has_info = self.info.is_some();
        match request {
            GuiRequest::ChooseFolder => Route::ChooseFolder,
            GuiRequest::Analyse => if has_info {
                Route::Analyse
            } else {
                Route::Ignore
            },
            GuiRequest::Compress => if has_info {
                Route::Compress
            } else {
                Route::Ignore
            },
            GuiRequest::Decompress => if has_info {
                Route::Decompress
            } else {
                Route::Ignore
            },
            _ => Route::Ignore,
        }
    }

    /// Hands the inventory out, for a job to work on; none is kept.
    pub fn take_info(&mut self) -> (info: Option<FolderInfo>)
        requires
            old(self).wf(),
        ensures
            final(self).wf(),
            final(self)@ is None,
            match info {
                Some(i) => old(self)@ == Some(i@) && i.wf(),
                None => old(self)@ is None,
            },
    {
        self.info.take()
    }

    /// Takes an inventory in, in place of the one kept.
    pub fn set_info(&mut self, info: FolderInfo)
        requires
            info.wf(),
        ensures
            final(self).wf(),
            final(self)@ == Some(info@),
    {
        self.info = Some(info);
    }

    /// Takes in how a scan ended. The inventory of a scan that came to an
    /// end, whole or partial, is kept and summed up; a scan that broke down
    /// leaves the backend as it was.
    pub fn scan_ended(&mut self, outcome: Result<Result<FolderInfo, FolderInfo>, String>) -> (end:
        ScanEnd)
        requires
            old(self).wf(),
            match outcome {
                Ok(Ok(info)) => info.wf(),
                Ok(Err(info)) => info.wf(),
                Err(_) => true,
            },
        ensures
            final(self).wf(),
            match outcome {
                Ok(Ok(info)) => {
                    &&& final(self)@ == Some(info@)
                    &&& end matches ScanEnd::Scanned(s)
                    &&& sums_up(s, info@)
                },
                Ok(Err(info)) => {
                    &&& final(self)@ == Some(info@)
                    &&& end matches ScanEnd::Stopped(s)
                    &&& sums_up(s, info@)
                },
                Err(message) => {
                    &&& final(self)@ == old(self)@
                    &&& end matches ScanEnd::Failed(m)
                    &&& m == message
                },
            },
    {
        match outcome {
            Ok(Ok(info)) => {
                let summary = info.summary();
                self.info = Some(info);
                ScanEnd::Scanned(summary)
            },
            Ok(Err(info)) => {
                let summary = info.summary();
                self.info = Some(info);
                ScanEnd::Stopped(summary)
            },
            Err(message) => ScanEnd::Failed(message),
        }
    }
}

/// The watch over a running scan: it passes the caller's commands on to the
/// job's token and knows whether progress is to be shown.
#[derive(Debug)]
pub struct ScanWatch {
    paused: bool,
}

impl View for ScanWatch {
    type V = bool;

    /// Whether the scan was paused by the caller.
    closed spec fn view(&self) -> bool {
        self.paused
    }
}

impl ScanWatch {
    /// The watch over a scan that just started.
    pub fn new() -> (w: Self)
        ensures
            !w@,
    {
        ScanWatch { paused: false }
    }

    /// Whether progress is to be shown: not while the scan is paused.
    pub fn shows_progress(&self) -> (b: bool)
        ensures
            b == !self@,
    {
        !self.paused
    }

    /// Passes a command on to the job. Pause and Resume set and lift the
    /// token's pause and are reported; Stop cancels the job, which reports
    /// its end itself, so nothing is said; any other request is ignored.
    pub fn on_command<S>(&mut self, token: &mut ControlToken<S>, cmd: Command) -> (signal: Signal)
        ensures
            match cmd {
                Command::Pause => {
                    &&& final(token)@ == old(token)@.pause()
                    &&& final(self)@
                    &&& signal == Signal::Paused
                },
                Command::Resume => {
                    &&& final(token)@ == old(token)@.resume()
                    &&& !final(self)@
                    &&& signal == Signal::Resumed
                },
                Command::Stop => {
                    &&& final(token)@ == old(token)@.cancel()
                    &&& final(self)@ == old(self)@
                    &&& signal == Signal::Silent
                },
                Command::Other => {
                    &&& final(token)@ == old(token)@
                    &&& final(self)@ == old(self)@
                    &&& signal == Signal::Silent
                },
            },
    {
        match cmd {
            Command::Pause => {
                token.pause();
                self.paused = true;
                Signal::Paused
            },
            Command::Resume => {
                token.resume();
                self.paused = false;
                Signal::Resumed
            },
            Command::Stop => {
                token.cancel();
                Signal::Silent
            },
            Command::Other => Signal::Silent,
        }
    }
}

} // verus!
