//! The control token of a background job: a cancel flag, a pause flag and a
//! slot for the job's latest status. The token holds plain values; whoever
//! shares it between the job and its handle guards it with a lock.

use vstd::prelude::*;

verus! {

/// Milliseconds a suspended job waits before it asks its token again.
pub const POLL_INTERVAL_MS: u64 = 10;

/// The mathematical content of a token.
pub struct ControlTokenView<S> {
    pub cancelled: bool,
    pub paused: bool,
    pub status: Option<S>,
}

impl<S> ControlTokenView<S> {
    /// A token no one has touched.
    pub open spec fn fresh() -> Self {
        ControlTokenView { cancelled: false, paused: false, status: None }
    }

    /// The token after a request to cancel.
    pub open spec fn cancel(self) -> Self {
        ControlTokenView { cancelled: true, ..self }
    }

    /// The token after a request to pause.
    pub open spec fn pause(self) -> Self {
        ControlTokenView { paused: true, ..self }
    }

    /// The token after a request to resume.
    pub open spec fn resume(self) -> Self {
        ControlTokenView { paused: false, ..self }
    }

    /// Whether a job that asks has to wait: it is paused and not cancelled.
    pub open spec fn suspended(self) -> bool {
        self.paused && !self.cancelled
    }

    /// What a job is told at a suspension point: nothing while it has to
    /// wait, else whether it was cancelled.
    pub open spec fn checkpoint(self) -> Option<bool> {
        if self.suspended() {
            None
        } else {
            Some(self.cancelled)
        }
    }
}

/// The cancel and pause flags of a job, and its latest status.
#[derive(Debug)]
pub struct ControlToken<S> {
    cancel: bool,
    pause: bool,
    status: Option<S>,
}

impl<S> View for ControlToken<S> {
    type V = ControlTokenView<S>;

    closed spec fn view(&self) -> ControlTokenView<S> {
        ControlTokenView { cancelled: self.cancel, paused: self.pause, status: self.status }
    }
}

impl<S> Default for ControlToken<S> {
    /// A token that is neither cancelled nor paused and holds no status.
    fn default() -> (t: Self)
        ensures
            t@ == ControlTokenView::<S>::fresh(),
    {
        ControlToken::new()
    }
}

impl<S> ControlToken<S> {
    /// A token that is neither cancelled nor paused and holds no status.
    pub fn new() -> (t: Self)
        ensures
            t@ == ControlTokenView::<S>::fresh(),
    {
        ControlToken { cancel: false, pause: false, status: None }
    }

    /// Requests cancellation, for good.
    pub fn cancel(&mut self)
        ensures
            final(self)@ == old(self)@.cancel(),
    {
        self.cancel = true;
    }

    /// Requests a pause.
    pub fn pause(&mut self)
        ensures
            final(self)@ == old(self)@.pause(),
    {
        self.pause = true;
    }

    /// Lifts a pause.
    pub fn resume(&mut self)
        ensures
            final(self)@ == old(self)@.resume(),
    {
        self.pause = false;
    }

    /// Whether cancellation was requested.
    pub fn is_cancelled(&self) -> (b: bool)
        ensures
            b == self@.cancelled,
    {
        self.cancel
    }

    /// Whether a pause is requested.
    pub fn is_paused(&self) -> (b: bool)
        ensures
            b == self@.paused,
    {
        self.pause
    }

    /// Whether the job has to wait now: it is paused and not cancelled.
    pub fn handle_pause(&self) -> (b: bool)
        ensures
            b == self@.suspended(),
    {
        self.pause && !self.cancel
    }

    /// The suspension point of a job. `None` tells it to wait one poll
    /// interval and ask again; `Some` tells it to go on, and whether it was
    /// cancelled. A cancelled job is never told to wait.
    pub fn is_cancelled_with_pause(&self) -> (r: Option<bool>)
        ensures
            r == self@.checkpoint(),
    {
        if self.handle_pause() {
            None
        } else {
            Some(self.cancel)
        }
    }

    /// Puts a status into the slot, over whatever it held.
    pub fn set_status(&mut self, status: S)
        ensures
            final(self)@ == (ControlTokenView { status: Some(status), ..old(self)@ }),
    {
        self.status = Some(status);
    }

    /// Takes the status out of the slot, which is empty afterwards.
    pub fn get_status(&mut self) -> (s: Option<S>)
        ensures
            s == old(self)@.status,
            final(self)@ == (ControlTokenView { status: None, ..old(self)@ }),
    {
        self.status.take()
    }

    /// `Err` once cancellation was requested, `Ok` before.
    pub fn result(&self) -> (r: Result<(), ()>)
        ensures
            r is Err <==> self@.cancelled,
    {
        if self.cancel {
            Err(())
        } else {
            Ok(())
        }
    }
}

/// What the completion channel of a job gives when it is asked.
#[derive(Debug)]
pub enum Received<T> {
    /// The job ended: with its output, or with the message of its breakdown.
    Ended(Result<T, String>),
    /// The job has not ended yet.
    Nothing,
    /// The channel is gone and no result will ever come.
    Disconnected,
}

/// What a handle tells its holder.
#[derive(Debug)]
pub enum Reply<T> {
    /// The job's output, whether it ran to its end or was stopped.
    Ready(T),
    /// The job is still running.
    NotYet,
    /// The job broke down, with this message.
    Crashed(String),
    /// The job's thread is gone without a result.
    Lost,
}

/// Reads what the completion channel gave. A job that ended, stopped ones
/// included, hands over its output; a breakdown inside the job and a lost
/// thread are failures of their own, told apart from every output.
pub fn reply<T>(received: Received<T>) -> (r: Reply<T>)
    ensures
        r == match received {
            Received::Ended(Ok(output)) => Reply::Ready(output),
            Received::Ended(Err(message)) => Reply::Crashed(message),
            Received::Nothing => Reply::NotYet,
            Received::Disconnected => Reply::Lost,
        },
{
    match received {
        Received::Ended(Ok(output)) => Reply::Ready(output),
        Received::Ended(Err(message)) => Reply::Crashed(message),
        Received::Nothing => Reply::NotYet,
        Received::Disconnected => Reply::Lost,
    }
}

/// A second pause changes nothing, and pausing any number of times before a
/// resume leaves what a single pause and resume leave.
pub proof fn lemma_pause_idempotent<S>(t: ControlTokenView<S>)
    ensures
        t.pause().pause() == t.pause(),
        t.pause().pause().resume() == t.pause().resume(),
{
}

/// A resume without a pause changes nothing, and a resume after a resume
/// changes nothing either.
pub proof fn lemma_resume_idempotent<S>(t: ControlTokenView<S>)
    ensures
        !t.paused ==> t.resume() == t,
        !t.paused ==> t.pause().resume() == t,
        t.resume().resume() == t.resume(),
{
}

/// No request takes a cancellation back.
pub proof fn lemma_cancel_is_final<S>(t: ControlTokenView<S>, status: S)
    requires
        t.cancelled,
    ensures
        t.cancel().cancelled,
        t.pause().cancelled,
        t.resume().cancelled,
        (ControlTokenView { status: Some(status), ..t }).cancelled,
        (ControlTokenView { status: None, ..t }).cancelled,
{
}

/// A cancelled job is never made to wait, paused or not: cancel wins over pause.
pub proof fn lemma_cancel_wins<S>(t: ControlTokenView<S>)
    ensures
        t.cancel().checkpoint() == Some(true),
        t.cancel().pause().checkpoint() == Some(true),
        t.pause().cancel().checkpoint() == Some(true),
{
}

} // verus!
