//! Running a computation in a child process.
//!
//! The parent forks, waits for the child and reads the child's result from a
//! pipe; the child runs the computation and writes the result to its standard
//! output. The system calls are made by the embedding program. What to call
//! next, and what to make of each return value, is decided here: by a
//! [`Parent`] on one side of the fork and a [`Child`] on the other.

use vstd::prelude::*;
use crate::transfer::{Transferable, TransferableState};

verus! {

/// Whether a wait status tells of a child that exited.
pub open spec fn exited(status: i32) -> bool {
    status & 0x7f == 0
}

/// The exit code in the wait status of a child that exited.
pub open spec fn exit_code(status: i32) -> i32 {
    (status >> 8) & 0xff
}

/// Whether a wait status tells of a child that a signal killed: its low seven
/// bits, plus one and read as a signed byte, are at least two.
pub open spec fn signaled(status: i32) -> bool {
    ((status & 0x7f) + 1) as i8 >= 2
}

/// The signal in the wait status of a child that a signal killed.
pub open spec fn term_signal(status: i32) -> i32 {
    status & 0x7f
}

/// `libc::WIFEXITED`: whether the low seven bits of the status are clear.
#[verifier::external_body]
fn wifexited(status: i32) -> (yes: bool)
    ensures
        yes == exited(status),
{
    libc::WIFEXITED(status)
}

/// `libc::WEXITSTATUS`: the second-lowest byte of the status.
#[verifier::external_body]
fn wexitstatus(status: i32) -> (code: i32)
    ensures
        code == exit_code(status),
{
    libc::WEXITSTATUS(status)
}

/// `libc::WIFSIGNALED`: whether the low seven bits of the status, plus one and
/// read as a signed byte, are at least two.
#[verifier::external_body]
fn wifsignaled(status: i32) -> (yes: bool)
    ensures
        yes == signaled(status),
{
    libc::WIFSIGNALED(status)
}

/// `libc::WTERMSIG`: the low seven bits of the status.
#[verifier::external_body]
fn wtermsig(status: i32) -> (signal: i32)
    ensures
        signal == term_signal(status),
{
    libc::WTERMSIG(status)
}

/// How a child ended, as far as its wait status tells.
#[derive(Clone, Copy, PartialEq, Eq, Structural, Debug)]
pub enum ChildStatus {
    /// It exited with this code.
    Exited(i32),
    /// This signal killed it.
    Signaled(i32),
    /// Neither.
    Other,
}

/// The reading of a wait status.
pub open spec fn status_of(status: i32) -> ChildStatus {
    if exited(status) {
        ChildStatus::Exited(exit_code(status))
    } else if signaled(status) {
        ChildStatus::Signaled(term_signal(status))
    } else {
        ChildStatus::Other
    }
}

/// The wait status of a child that exited with `code`.
pub open spec fn status_of_exit(code: i32) -> i32 {
    code << 8
}

/// A signal killed the child exactly if the low seven bits of the status are
/// neither all clear, which is an exit, nor all set, which is a stop.
pub proof fn law_signaled(status: i32)
    ensures
        signaled(status) <==> 0 < status & 0x7f && status & 0x7f < 0x7f,
{
    assert((((status & 0x7f) + 1) as i8 >= 2) <==> (0 < status & 0x7f && status & 0x7f < 0x7f))
        by (bit_vector);
}

/// Wait statuses are read back as they are made up: an exit code between 0
/// and 255 is read from the status of an exit, and a signal between 1 and 126
/// from a status that is the signal's number.
pub proof fn law_status_reading(code: i32, signal: i32)
    requires
        0 <= code < 256,
        0 < signal < 0x7f,
    ensures
        status_of(status_of_exit(code)) == ChildStatus::Exited(code),
        status_of(signal) == ChildStatus::Signaled(signal),
{
    assert((code << 8) & 0x7f == 0 && ((code << 8) >> 8) & 0xff == code) by (bit_vector)
        requires
            0 <= code < 256,
    ;
    assert(signal & 0x7f == signal) by (bit_vector)
        requires
            0 < signal < 0x7f,
    ;
    law_signaled(signal);
}

/// Reads a wait status.
pub fn classify(status: i32) -> (reading: ChildStatus)
    ensures
        reading == status_of(status),
{
    if wifexited(status) {
        ChildStatus::Exited(wexitstatus(status))
    } else if wifsignaled(status) {
        ChildStatus::Signaled(wtermsig(status))
    } else {
        ChildStatus::Other
    }
}

/// A system call of the parent.
#[derive(Clone, Copy, PartialEq, Eq, Structural, Debug)]
pub enum Syscall {
    Pipe,
    Fork,
    Close,
    Waitpid,
    Read,
}

/// Why a computation in a child process gave no result.
#[derive(Clone, Copy, PartialEq, Eq, Structural, Debug)]
pub enum ZoneError {
    /// A system call of the parent failed.
    Os(Syscall),
    /// The child exited with a code other than zero.
    UnexpectedExitCode(i32),
    /// A signal killed the child.
    Signal(i32),
    /// The child was waited for and has neither exited nor been killed, or the
    /// parent was asked for a result that it does not have yet.
    Unreachable,
}

/// What the parent has to do next.
#[derive(Clone, Copy, PartialEq, Eq, Structural, Debug)]
pub enum ParentRequest {
    /// Create the pipe.
    Pipe,
    /// Fork.
    Fork,
    /// Close the writing end of the pipe.
    CloseWriteEnd,
    /// Wait for the child.
    Wait,
    /// Read one byte from the pipe.
    Read,
    /// Close the reading end of the pipe.
    CloseReadEnd,
}

/// What a system call handed back.
#[derive(Clone, Copy, Debug)]
pub struct Returned {
    /// The return value.
    pub value: i64,
    /// The wait status, after a wait.
    pub status: i32,
    /// The byte read, after a read.
    pub byte: u8,
}

/// Where the parent stands.
#[derive(Clone, Copy, PartialEq, Eq, Structural, Debug)]
pub enum ParentStage {
    Piping,
    Forking,
    ClosingWriteEnd,
    Waiting,
    Reading,
    ClosingReadEnd,
    /// The result is there.
    Finished,
    /// The fork returned zero: this process is the child.
    Child,
}

/// The mathematical value of a [`Parent`].
pub struct ParentView<T: Transferable> {
    /// Where the parent stands.
    pub stage: ParentStage,
    /// The bytes of the result that have been read.
    pub taken: Seq<u8>,
    /// The result, once it is known.
    pub outcome: Option<Result<Result<T::Out, T::Error>, ZoneError>>,
}

impl<T: Transferable> ParentView<T> {
    /// The request that is pending.
    pub open spec fn request(self) -> Option<ParentRequest> {
        match self.stage {
            ParentStage::Piping => Some(ParentRequest::Pipe),
            ParentStage::Forking => Some(ParentRequest::Fork),
            ParentStage::ClosingWriteEnd => Some(ParentRequest::CloseWriteEnd),
            ParentStage::Waiting => Some(ParentRequest::Wait),
            ParentStage::Reading => Some(ParentRequest::Read),
            ParentStage::ClosingReadEnd => Some(ParentRequest::CloseReadEnd),
            ParentStage::Finished => None,
            ParentStage::Child => None,
        }
    }

    /// The parent at `stage`, all else unchanged.
    pub open spec fn at(self, stage: ParentStage) -> ParentView<T> {
        ParentView { stage, ..self }
    }

    /// The parent that has given up on a system call.
    pub open spec fn failed(self, syscall: Syscall) -> ParentView<T> {
        ParentView {
            stage: ParentStage::Finished,
            outcome: Some(Err(ZoneError::Os(syscall))),
            ..self
        }
    }

    /// The parent that knows the result and has the pipe left to close.
    pub open spec fn closing(
        self,
        outcome: Result<Result<T::Out, T::Error>, ZoneError>,
    ) -> ParentView<T> {
        ParentView { stage: ParentStage::ClosingReadEnd, outcome: Some(outcome), ..self }
    }

    /// Whether `next` is the parent after `bytes` of the result came in: it
    /// reads on while the receiver asks for more, and goes on to close the
    /// pipe with what the receiver made of the bytes.
    pub open spec fn received(self, bytes: Seq<u8>, next: ParentView<T>) -> bool {
        let all = self.taken + bytes;
        match next.outcome {
            None => {
                &&& next.stage == ParentStage::Reading
                &&& next.taken == all
                &&& T::answers(all, TransferableState::Continue)
            },
            Some(Ok(Ok(out))) => {
                &&& next.stage == ParentStage::ClosingReadEnd
                &&& T::answers(all, TransferableState::Done(out))
            },
            Some(Ok(Err(error))) => {
                &&& next.stage == ParentStage::ClosingReadEnd
                &&& T::answers(all, TransferableState::Failed(error))
            },
            Some(Err(_)) => false,
        }
    }

    /// Whether `next` is the parent after the pending system call handed back
    /// `event`.
    pub open spec fn follows(self, event: Returned, next: ParentView<T>) -> bool {
        match self.stage {
            ParentStage::Piping => next == if event.value != 0 {
                self.failed(Syscall::Pipe)
            } else {
                self.at(ParentStage::Forking)
            },
            ParentStage::Forking => next == if event.value < 0 {
                self.failed(Syscall::Fork)
            } else if event.value == 0 {
                self.at(ParentStage::Child)
            } else {
                self.at(ParentStage::ClosingWriteEnd)
            },
            ParentStage::ClosingWriteEnd => next == if event.value != 0 {
                self.failed(Syscall::Close)
            } else {
                self.at(ParentStage::Waiting)
            },
            ParentStage::Waiting => if event.value < 0 {
                next == self.failed(Syscall::Waitpid)
            } else {
                match status_of(event.status) {
                    ChildStatus::Exited(code) => if code == 0 {
                        self.received(Seq::empty(), next)
                    } else {
                        next == self.closing(Err(ZoneError::UnexpectedExitCode(code)))
                    },
                    ChildStatus::Signaled(signal) => next == self.closing(
                        Err(ZoneError::Signal(signal)),
                    ),
                    ChildStatus::Other => next == self.closing(Err(ZoneError::Unreachable)),
                }
            },
            ParentStage::Reading => if event.value < 0 {
                next == self.failed(Syscall::Read)
            } else {
                self.received(seq![event.byte], next)
            },
            ParentStage::ClosingReadEnd => next == if event.value != 0 {
                self.failed(Syscall::Close)
            } else {
                self.at(ParentStage::Finished)
            },
            ParentStage::Finished => next == self,
            ParentStage::Child => next == self,
        }
    }

    /// What the parent hands back when it is ended in this state.
    pub open spec fn result(self) -> Result<Result<T::Out, T::Error>, ZoneError> {
        match self.outcome {
            Some(outcome) => if self.stage == ParentStage::Finished {
                outcome
            } else {
                Err(ZoneError::Unreachable)
            },
            None => Err(ZoneError::Unreachable),
        }
    }
}

/// The parent's side of a fork.
pub struct Parent<T: Transferable> {
    stage: ParentStage,
    state: Option<T::State>,
    outcome: Option<Result<Result<T::Out, T::Error>, ZoneError>>,
}

impl<T: Transferable> View for Parent<T> {
    type V = ParentView<T>;

    closed spec fn view(&self) -> ParentView<T> {
        ParentView { stage: self.stage, taken: T::taken(self.state), outcome: self.outcome }
    }
}

impl<T: Transferable> Parent<T> {
    /// A parent that has not made any system call yet.
    pub fn new() -> (parent: Self)
        ensures
            parent@ == (ParentView::<T> {
                stage: ParentStage::Piping,
                taken: Seq::empty(),
                outcome: None,
            }),
    {
        proof {
            T::lemma_nothing_taken();
        }
        Parent { stage: ParentStage::Piping, state: None, outcome: None }
    }

    /// The system call to make next; `None` once the result is there, and in
    /// the child.
    pub fn request(&self) -> (pending: Option<ParentRequest>)
        ensures
            pending == self@.request(),
    {
        match self.stage {
            ParentStage::Piping => Some(ParentRequest::Pipe),
            ParentStage::Forking => Some(ParentRequest::Fork),
            ParentStage::ClosingWriteEnd => Some(ParentRequest::CloseWriteEnd),
            ParentStage::Waiting => Some(ParentRequest::Wait),
            ParentStage::Reading => Some(ParentRequest::Read),
            ParentStage::ClosingReadEnd => Some(ParentRequest::CloseReadEnd),
            ParentStage::Finished => None,
            ParentStage::Child => None,
        }
    }

    /// Whether the fork returned zero, so that this process is the child.
    pub fn is_child(&self) -> (yes: bool)
        ensures
            yes == (self@.stage == ParentStage::Child),
    {
        matches!(self.stage, ParentStage::Child)
    }

    fn fail(&mut self, syscall: Syscall)
        ensures
            final(self)@ == old(self)@.failed(syscall),
    {
        self.stage = ParentStage::Finished;
        self.outcome = Some(Err(ZoneError::Os(syscall)));
    }

    fn close_with(&mut self, outcome: Result<Result<T::Out, T::Error>, ZoneError>)
        ensures
            final(self)@ == old(self)@.closing(outcome),
    {
        self.stage = ParentStage::ClosingReadEnd;
        self.outcome = Some(outcome);
    }

    fn take_in(&mut self, bytes: &[u8])
        ensures
            old(self)@.received(bytes@, final(self)@),
    {
        match T::receive(&mut self.state, bytes) {
            TransferableState::Done(out) => {
                self.stage = ParentStage::ClosingReadEnd;
                self.outcome = Some(Ok(Ok(out)));
            },
            TransferableState::Failed(error) => {
                self.stage = ParentStage::ClosingReadEnd;
                self.outcome = Some(Ok(Err(error)));
            },
            TransferableState::Continue => {
                self.stage = ParentStage::Reading;
                self.outcome = None;
            },
        }
    }

    /// Takes what the pending system call handed back.
    pub fn step(&mut self, event: Returned)
        ensures
            old(self)@.follows(event, final(self)@),
    {
        match self.stage {
            ParentStage::Piping => {
                if event.value != 0 {
                    self.fail(Syscall::Pipe);
                } else {
                    self.stage = ParentStage::Forking;
                }
            },
            ParentStage::Forking => {
                if event.value < 0 {
                    self.fail(Syscall::Fork);
                } else if event.value == 0 {
                    self.stage = ParentStage::Child;
                } else {
                    self.stage = ParentStage::ClosingWriteEnd;
                }
            },
            ParentStage::ClosingWriteEnd => {
                if event.value != 0 {
                    self.fail(Syscall::Close);
                } else {
                    self.stage = ParentStage::Waiting;
                }
            },
            ParentStage::Waiting => {
                if event.value < 0 {
                    self.fail(Syscall::Waitpid);
                } else {
                    match classify(event.status) {
                        ChildStatus::Exited(code) => {
                            if code == 0 {
                                let none: Vec<u8> = Vec::new();
                                self.take_in(none.as_slice());
                            } else {
                                self.close_with(Err(ZoneError::UnexpectedExitCode(code)));
                            }
                        },
                        ChildStatus::Signaled(signal) => {
                            self.close_with(Err(ZoneError::Signal(signal)));
                        },
                        ChildStatus::Other => {
                            self.close_with(Err(ZoneError::Unreachable));
                        },
                    }
                }
            },
            ParentStage::Reading => {
                if event.value < 0 {
                    self.fail(Syscall::Read);
                } else {
                    let mut one: Vec<u8> = Vec::new();
                    one.push(event.byte);
                    assert(one@ =~= seq![event.byte]);
                    self.take_in(one.as_slice());
                }
            },
            ParentStage::ClosingReadEnd => {
                if event.value != 0 {
                    self.fail(Syscall::Close);
                } else {
                    self.stage = ParentStage::Finished;
                }
            },
            ParentStage::Finished => {},
            ParentStage::Child => {},
        }
    }

    /// Ends the conversation and hands back the result: what the child
    /// computed, as the receiver put it together; or why there is none.
    pub fn finish(self) -> (result: Result<Result<T::Out, T::Error>, ZoneError>)
        ensures
            result == self@.result(),
    {
        match self.outcome {
            Some(outcome) => {
                if matches!(self.stage, ParentStage::Finished) {
                    outcome
                } else {
                    Err(ZoneError::Unreachable)
                }
            },
            None => Err(ZoneError::Unreachable),
        }
    }
}

/// What the child has to do next.
#[derive(Clone, Copy, PartialEq, Eq, Structural, Debug)]
pub enum ChildRequest {
    /// Close standard input.
    CloseStdin,
    /// Make standard output the writing end of the pipe.
    RedirectStdout,
    /// Close standard error.
    CloseStderr,
    /// Close the reading end of the pipe.
    CloseReadEnd,
    /// Run the computation and report the encoding of its result.
    Run,
    /// Write this byte to standard output.
    Write(u8),
    /// Exit with this code.
    Exit(i32),
}

/// Where the child stands.
#[derive(Clone, Copy, PartialEq, Eq, Structural, Debug)]
pub enum ChildStage {
    ClosingStdin,
    Redirecting,
    ClosingStderr,
    ClosingReadEnd,
    Running,
    Writing,
    Exiting,
}

/// The mathematical value of a [`Child`].
pub struct ChildView {
    /// Where the child stands.
    pub stage: ChildStage,
    /// The encoding of the result.
    pub output: Seq<u8>,
    /// How many bytes of it have been written.
    pub sent: nat,
    /// The exit code, once the child is exiting.
    pub code: i32,
}

impl ChildView {
    /// The request that is pending.
    pub open spec fn request(self) -> ChildRequest {
        match self.stage {
            ChildStage::ClosingStdin => ChildRequest::CloseStdin,
            ChildStage::Redirecting => ChildRequest::RedirectStdout,
            ChildStage::ClosingStderr => ChildRequest::CloseStderr,
            ChildStage::ClosingReadEnd => ChildRequest::CloseReadEnd,
            ChildStage::Running => ChildRequest::Run,
            ChildStage::Writing => if self.sent < self.output.len() {
                ChildRequest::Write(self.output[self.sent as int])
            } else {
                ChildRequest::Exit(0)
            },
            ChildStage::Exiting => ChildRequest::Exit(self.code),
        }
    }

    /// The child on its way out.
    pub open spec fn exiting(self, code: i32) -> ChildView {
        ChildView { stage: ChildStage::Exiting, code, ..self }
    }

    /// The child at `stage`, all else unchanged.
    pub open spec fn at(self, stage: ChildStage) -> ChildView {
        ChildView { stage, ..self }
    }

    /// The child after the pending system call handed back `value`. A call
    /// that fails makes the child exit with code one. The computation is not a
    /// system call: see [`ChildView::ran`].
    pub open spec fn stepped(self, value: i64) -> ChildView {
        match self.stage {
            ChildStage::ClosingStdin => if value != 0 {
                self.exiting(1)
            } else {
                self.at(ChildStage::Redirecting)
            },
            ChildStage::Redirecting => if value < 0 {
                self.exiting(1)
            } else {
                self.at(ChildStage::ClosingStderr)
            },
            ChildStage::ClosingStderr => if value != 0 {
                self.exiting(1)
            } else {
                self.at(ChildStage::ClosingReadEnd)
            },
            ChildStage::ClosingReadEnd => if value != 0 {
                self.exiting(1)
            } else {
                self.at(ChildStage::Running)
            },
            ChildStage::Running => self,
            ChildStage::Writing => if self.sent >= self.output.len() {
                self
            } else if value < 0 {
                self.exiting(1)
            } else {
                ChildView { sent: self.sent + 1, ..self }
            },
            ChildStage::Exiting => self,
        }
    }

    /// The child after the computation gave a result with this encoding.
    pub open spec fn ran(self, output: Seq<u8>) -> ChildView {
        if self.stage == ChildStage::Running {
            ChildView { stage: ChildStage::Writing, output, sent: 0, ..self }
        } else {
            self
        }
    }
}

/// The child's side of a fork.
pub struct Child {
    stage: ChildStage,
    output: Vec<u8>,
    sent: usize,
    code: i32,
}

impl View for Child {
    type V = ChildView;

    closed spec fn view(&self) -> ChildView {
        ChildView {
            stage: self.stage,
            output: self.output@,
            sent: self.sent as nat,
            code: self.code,
        }
    }
}

impl Child {
    /// A child that has just been forked.
    pub fn new() -> (child: Child)
        ensures
            child@ == (ChildView {
                stage: ChildStage::ClosingStdin,
                output: Seq::empty(),
                sent: 0,
                code: 0,
            }),
    {
        Child { stage: ChildStage::ClosingStdin, output: Vec::new(), sent: 0, code: 0 }
    }

    /// What to do next. The last request is always an exit.
    pub fn request(&self) -> (pending: ChildRequest)
        ensures
            pending == self@.request(),
    {
        match self.stage {
            ChildStage::ClosingStdin => ChildRequest::CloseStdin,
            ChildStage::Redirecting => ChildRequest::RedirectStdout,
            ChildStage::ClosingStderr => ChildRequest::CloseStderr,
            ChildStage::ClosingReadEnd => ChildRequest::CloseReadEnd,
            ChildStage::Running => ChildRequest::Run,
            ChildStage::Writing => {
                if self.sent < self.output.len() {
                    ChildRequest::Write(self.output[self.sent])
                } else {
                    ChildRequest::Exit(0)
                }
            },
            ChildStage::Exiting => ChildRequest::Exit(self.code),
        }
    }

    fn exit(&mut self, code: i32)
        ensures
            final(self)@ == old(self)@.exiting(code),
    {
        self.stage = ChildStage::Exiting;
        self.code = code;
    }

    /// Takes the return value of the pending system call.
    pub fn step(&mut self, value: i64)
        ensures
            final(self)@ == old(self)@.stepped(value),
    {
        match self.stage {
            ChildStage::ClosingStdin => {
                if value != 0 {
                    self.exit(1);
                } else {
                    self.stage = ChildStage::Redirecting;
                }
            },
            ChildStage::Redirecting => {
                if value < 0 {
                    self.exit(1);
                } else {
                    self.stage = ChildStage::ClosingStderr;
                }
            },
            ChildStage::ClosingStderr => {
                if value != 0 {
                    self.exit(1);
                } else {
                    self.stage = ChildStage::ClosingReadEnd;
                }
            },
            ChildStage::ClosingReadEnd => {
                if value != 0 {
                    self.exit(1);
                } else {
                    self.stage = ChildStage::Running;
                }
            },
            ChildStage::Running => {},
            ChildStage::Writing => {
                if self.sent < self.output.len() {
                    if value < 0 {
                        self.exit(1);
                    } else {
                        self.sent = self.sent + 1;
                    }
                }
            },
            ChildStage::Exiting => {},
        }
    }

    /// Takes the encoding of the result of the computation.
    pub fn ran(&mut self, output: Vec<u8>)
        ensures
            final(self)@ == old(self)@.ran(output@),
    {
        if matches!(self.stage, ChildStage::Running) {
            self.stage = ChildStage::Writing;
            self.output = output;
            self.sent = 0;
        }
    }
}

/// Runs `f` and hands back its result.
pub fn with_guarded_allocator<A, F: FnOnce() -> A>(f: F) -> (a: A)
    requires
        f.requires(()),
    ensures
        f.ensures((), a),
{
    f()
}

} // verus!
