//! Shape of the coroutines: each resume either yields what its driver has
//! to do next, or completes.
//!
//! One-shot coroutines yield a step of their backend family
//! ([`ImapStep`], [`JmapStep`], [`GmailStep`], [`SmtpStep`], [`FsStep`]) and complete
//! with a `Result`. Streaming coroutines yield domain events too, and
//! complete when they are shut down or fail.
use vstd::prelude::*;

use io_imap::codec::fragmentizer::Fragmentizer;

verus! {

/// Tag identifying which backend a coroutine drives.
#[derive(Clone, Copy, Debug, PartialEq, Eq, Structural)]
pub enum EmailBackend {
    Imap,
    Jmap,
    Maildir,
    M2dir,
    Smtp,
}

/// Filesystem batch handed back to a filesystem-backed coroutine on
/// resume, paired with the [`FsStep`] variant that requested it. What a
/// batch says of several paths stands in the order of the paths, each
/// path once.
#[derive(Debug)]
pub enum FsBatch {
    /// For each probed directory, the paths it contained.
    DirRead(Vec<(String, Vec<String>)>),
    /// For each probed path, whether a directory exists there.
    DirExists(Vec<(String, bool)>),
    /// For each probed path, whether a regular file exists there.
    FileExists(Vec<(String, bool)>),
    /// For each probed path, the file's bytes. Missing files are surfaced
    /// as an empty buffer.
    FileRead(Vec<(String, Vec<u8>)>),
    FileCreate,
    FileRemove,
    DirCreate,
    DirRemove,
    Rename,
    Copy,
    /// The driver's current Unix time.
    Time { secs: u64, nanos: u32 },
    /// The driver's process id.
    Pid(u32),
    /// The driver's host name.
    Hostname(String),
    /// Random bytes from the driver.
    Random(Vec<u8>),
}

/// Input handed to a coroutine on each step: what its driver keeps between
/// two resumes, and what the last I/O step gave.
///
/// Socket-based variants carry the bytes that were read (`None` on the first
/// resume and right after a write), the filesystem variant the answer to
/// the last step.
pub enum EmailCoroutineArg<'a> {
    Imap { fragmentizer: &'a mut Fragmentizer, bytes: Option<&'a [u8]> },
    Jmap { bytes: Option<&'a [u8]> },
    Smtp { bytes: Option<&'a [u8]> },
    Fs { batch: Option<FsBatch> },
}

/// A coroutine that publishes which backend it drives, so that one driver
/// can route it.
pub trait EmailCoroutine: Sized {
    /// What a step yields.
    type Yield;

    /// What the coroutine completes with.
    type Return;

    /// The backend that the coroutine drives.
    const BACKEND: EmailBackend;

    /// Whether the coroutine can be resumed.
    spec fn ready(self) -> bool;

    /// What a resume does: from `pre` to `post`, with what it returns. The
    /// parser of an IMAP connection is then as `left`.
    spec fn advances(
        pre: Self,
        arg: EmailCoroutineArg<'_>,
        post: Self,
        left: Option<Fragmentizer>,
        r: EmailCoroutineState<Self::Yield, Self::Return>,
    ) -> bool;

    /// Advances the coroutine one step.
    fn resume(&mut self, arg: EmailCoroutineArg<'_>) -> (r: EmailCoroutineState<Self::Yield, Self::Return>)
        requires
            old(self).ready(),
        ensures
            Self::advances(
                *old(self),
                arg,
                *final(self),
                match arg {
                    EmailCoroutineArg::Imap { fragmentizer, .. } => Some(*final(fragmentizer)),
                    _ => None,
                },
                r,
            ),
    ;
}

/// State yielded by a resume step.
#[derive(Debug)]
pub enum EmailCoroutineState<Y, R> {
    /// The driver reacts to `Y` (runs I/O, delivers an event) and resumes
    /// the coroutine again.
    Yielded(Y),
    /// No further resume is valid; resuming anyway completes with a
    /// "resumed after completion" error.
    Complete(R),
}

/// I/O step requested by a one-shot IMAP coroutine.
#[derive(Debug)]
pub enum ImapStep {
    /// Read more bytes from the socket and feed them back.
    WantsRead,
    /// Write these bytes to the socket.
    WantsWrite(Vec<u8>),
}

/// I/O step requested by a one-shot JMAP coroutine.
#[derive(Debug)]
pub enum JmapStep {
    WantsRead,
    WantsWrite(Vec<u8>),
}

/// I/O step requested by a one-shot Gmail coroutine.
#[derive(Debug)]
pub enum GmailStep {
    WantsRead,
    WantsWrite(Vec<u8>),
}

/// I/O step requested by a one-shot SMTP coroutine.
#[derive(Debug)]
pub enum SmtpStep {
    WantsRead,
    WantsWrite(Vec<u8>),
}

/// Filesystem step requested by a one-shot Maildir or m2dir coroutine,
/// answered with the matching [`FsBatch`] variant.
#[derive(Debug)]
pub enum FsStep {
    WantsDirRead(Vec<String>),
    WantsDirExists(Vec<String>),
    WantsFileExists(Vec<String>),
    WantsFileRead(Vec<String>),
    WantsFileCreate(Vec<(String, Vec<u8>)>),
    WantsFileRemove(Vec<String>),
    WantsDirCreate(Vec<String>),
    WantsDirRemove(Vec<String>),
    WantsRename(Vec<(String, String)>),
    WantsCopy(Vec<(String, String)>),
    WantsTime,
    WantsPid,
    WantsHostname,
    WantsRandom { len: usize },
}

/// A raw RFC 5322 message.
#[derive(Debug)]
pub struct RawMessage {
    pub bytes: Vec<u8>,
}

impl DeepView for RawMessage {
    type V = Seq<u8>;

    open spec fn deep_view(&self) -> Seq<u8> {
        self.bytes@
    }
}

/// What a step over a socket came to.
pub enum Outcome<T, E> {
    /// More bytes are wanted.
    Read,
    /// These bytes are to be written.
    Write(Seq<u8>),
    Done(T),
    Failed(E),
}

impl<T, E> Outcome<T, E> {
    /// The same I/O request from a coroutine that completes with other
    /// types.
    pub open spec fn forwards<U, F>(self, inner: Outcome<U, F>) -> bool {
        match inner {
            Outcome::Read => self is Read,
            Outcome::Write(bytes) => self matches Outcome::Write(own) && own == bytes,
            _ => false,
        }
    }
}

/// What a step came to, whatever I/O it asks for where it waits.
pub enum Settled<T, E> {
    Waits,
    Done(T),
    Failed(E),
}

impl<T, E> Outcome<T, E> {
    pub open spec fn settled(self) -> Settled<T, E> {
        match self {
            Outcome::Done(value) => Settled::Done(value),
            Outcome::Failed(err) => Settled::Failed(err),
            _ => Settled::Waits,
        }
    }
}

impl<T: DeepView, E> EmailCoroutineState<ImapStep, Result<T, E>> {
    pub open spec fn outcome(self) -> Outcome<T::V, E> {
        match self {
            EmailCoroutineState::Yielded(ImapStep::WantsRead) => Outcome::Read,
            EmailCoroutineState::Yielded(ImapStep::WantsWrite(bytes)) => Outcome::Write(bytes@),
            EmailCoroutineState::Complete(Ok(value)) => Outcome::Done(value.deep_view()),
            EmailCoroutineState::Complete(Err(err)) => Outcome::Failed(err),
        }
    }
}

impl<T: DeepView, E> EmailCoroutineState<JmapStep, Result<T, E>> {
    pub open spec fn outcome(self) -> Outcome<T::V, E> {
        match self {
            EmailCoroutineState::Yielded(JmapStep::WantsRead) => Outcome::Read,
            EmailCoroutineState::Yielded(JmapStep::WantsWrite(bytes)) => Outcome::Write(bytes@),
            EmailCoroutineState::Complete(Ok(value)) => Outcome::Done(value.deep_view()),
            EmailCoroutineState::Complete(Err(err)) => Outcome::Failed(err),
        }
    }
}

impl<T: DeepView, E> EmailCoroutineState<GmailStep, Result<T, E>> {
    pub open spec fn outcome(self) -> Outcome<T::V, E> {
        match self {
            EmailCoroutineState::Yielded(GmailStep::WantsRead) => Outcome::Read,
            EmailCoroutineState::Yielded(GmailStep::WantsWrite(bytes)) => Outcome::Write(bytes@),
            EmailCoroutineState::Complete(Ok(value)) => Outcome::Done(value.deep_view()),
            EmailCoroutineState::Complete(Err(err)) => Outcome::Failed(err),
        }
    }
}

/// The bytes handed to a resume, if any.
pub open spec fn fed(bytes: Option<&[u8]>) -> Option<Seq<u8>> {
    match bytes {
        Some(bytes) => Some(bytes@),
        None => None,
    }
}

/// A coroutine that runs in stages, each of them one exchange with the
/// server.
pub trait Stages: Sized {
    /// What the driver keeps between two resumes.
    type Context;

    /// What a resume answers.
    type Answer;

    /// How many kinds of stages are still to come.
    spec fn rank(self) -> nat;

    /// How many more stages of this kind may follow once the bytes are
    /// read, where they repeat.
    open spec fn repeats(self, bytes: Option<Seq<u8>>) -> nat {
        0
    }

    /// What the stage under way does with the bytes read: where it leaves
    /// the coroutine and the driver's context, and what it answers, `None`
    /// where a later stage begins.
    spec fn stage(
        self,
        context: Self::Context,
        bytes: Option<Seq<u8>>,
        post: Self,
        left: Self::Context,
        answer: Option<Self::Answer>,
    ) -> bool;
}

/// Whether the stage under way hands over to a later one, and leaves the
/// driver's context as `left`.
pub open spec fn hands_over<S: Stages>(
    pre: S,
    context: S::Context,
    bytes: Option<Seq<u8>>,
    mid: S,
    left: S::Context,
) -> bool {
    &&& mid.rank() < pre.rank() || (mid.rank() == pre.rank() && mid.repeats(None)
        < pre.repeats(bytes))
    &&& pre.stage(context, bytes, mid, left, None)
}

/// What one resume does: stages until one answers, those after the first
/// with no bytes to read; `left` is the driver's context in the end.
pub open spec fn resumed<S: Stages>(
    pre: S,
    context: S::Context,
    bytes: Option<Seq<u8>>,
    post: S,
    left: S::Context,
    answer: S::Answer,
) -> bool
    decreases pre.rank(), pre.repeats(bytes),
{
    ||| pre.stage(context, bytes, post, left, Some(answer))
    ||| exists|mid: S, between: S::Context|
        #[trigger] hands_over(pre, context, bytes, mid, between) && resumed(
            mid,
            between,
            None,
            post,
            left,
            answer,
        )
}

} // verus!
