//! Tasks: short scripts of file requests, carried out one reply at a time.
//!
//! A [`Task`] is the state of one conversation with the backing store. The
//! embedding program asks it for the pending [`FileRequest`], performs it, and
//! feeds the [`FileReply`] to [`Task::step`], until no request is pending.

use vstd::prelude::*;
use crate::error::MemoryError;
use crate::store::{Disk, FileReply, FileRequest, ReplyView, RequestView, perform};

verus! {

/// One step of a script.
pub struct Instr {
    /// What to ask of the store.
    pub request: FileRequest,
    /// Whether a missing file counts as success.
    pub lenient: bool,
}

/// The mathematical value of an [`Instr`].
pub struct InstrView {
    pub request: RequestView,
    pub lenient: bool,
}

impl View for Instr {
    type V = InstrView;

    open spec fn view(&self) -> InstrView {
        InstrView { request: self.request@, lenient: self.lenient }
    }
}

/// Whether `reply` lets the script go on after `instr`.
///
/// A read must come back with content, every other request with `Done`; a
/// missing file is let through where the step is lenient.
pub open spec fn accepted(instr: InstrView, reply: ReplyView) -> bool {
    match reply {
        ReplyView::Done => !(instr.request is Read),
        ReplyView::Content(_) => instr.request is Read,
        ReplyView::NotFound => instr.lenient,
        ReplyView::Denied => false,
        ReplyView::Failed => false,
    }
}

/// The mathematical value of a [`Task`].
pub struct TaskView {
    /// The steps, in order.
    pub script: Seq<InstrView>,
    /// How many steps have been let through.
    pub pos: nat,
    /// The content of the last successful read; empty before it.
    pub content: Seq<u8>,
    /// Whether a reply was refused.
    pub failed: bool,
}

impl TaskView {
    /// A task that has not asked for anything yet.
    pub open spec fn fresh(script: Seq<InstrView>) -> TaskView {
        TaskView { script, pos: 0, content: Seq::empty(), failed: false }
    }

    /// Whether a request is pending.
    pub open spec fn running(self) -> bool {
        !self.failed && self.pos < self.script.len()
    }

    /// A bound on the number of requests still to come.
    pub open spec fn steps_left(self) -> nat {
        if self.running() {
            (self.script.len() - self.pos) as nat
        } else {
            0
        }
    }

    /// The task after the reply to its pending request.
    pub open spec fn stepped(self, reply: ReplyView) -> TaskView {
        if !self.running() {
            self
        } else if accepted(self.script[self.pos as int], reply) {
            TaskView {
                pos: self.pos + 1,
                content: match reply {
                    ReplyView::Content(bytes) => bytes,
                    _ => self.content,
                },
                ..self
            }
        } else {
            TaskView { failed: true, ..self }
        }
    }

    /// What a task that has come to rest hands back: the content read, or a
    /// file system error where a reply was refused. Asking a running task
    /// counts as a failure of the store.
    pub open spec fn outcome(self) -> Result<Seq<u8>, MemoryError> {
        if self.failed || self.running() {
            Err(MemoryError::FileSystemError)
        } else {
            Ok(self.content)
        }
    }

    /// The task and the model store once every pending request has been
    /// performed on the store and answered.
    pub open spec fn drive(self, disk: Disk) -> (TaskView, Disk)
        decreases self.steps_left(),
    {
        if self.running() {
            let (next, reply) = perform(disk, self.script[self.pos as int].request);
            self.stepped(reply).drive(next)
        } else {
            (self, disk)
        }
    }
}

/// The state of one conversation with the backing store.
pub struct Task {
    script: Vec<Instr>,
    pos: usize,
    content: Vec<u8>,
    failed: bool,
}

impl View for Task {
    type V = TaskView;

    closed spec fn view(&self) -> TaskView {
        TaskView {
            script: self.script@.map_values(|i: Instr| i@),
            pos: self.pos as nat,
            content: self.content@,
            failed: self.failed,
        }
    }
}

/// The mathematical value of a script.
pub open spec fn script_view(script: Seq<Instr>) -> Seq<InstrView> {
    script.map_values(|i: Instr| i@)
}

impl Task {
    /// A task that will carry out `script` from its first step.
    pub fn new(script: Vec<Instr>) -> (task: Task)
        ensures
            task@ == TaskView::fresh(script_view(script@)),
    {
        Task { script, pos: 0, content: Vec::new(), failed: false }
    }

    /// The request to perform next; `None` once the task has come to rest.
    pub fn request(&self) -> (pending: Option<&FileRequest>)
        ensures
            match pending {
                Some(request) => self@.running() && request@ == self@.script[self@.pos as int].request,
                None => !self@.running(),
            },
    {
        if !self.failed && self.pos < self.script.len() {
            Some(&self.script[self.pos].request)
        } else {
            None
        }
    }

    /// How many steps have been let through.
    pub fn position(&self) -> (pos: usize)
        ensures
            pos == self@.pos,
    {
        self.pos
    }

    /// Whether a reply was refused.
    pub fn finished_badly(&self) -> (failed: bool)
        ensures
            failed == self@.failed,
    {
        self.failed
    }

    /// Takes the reply to the pending request: the task moves on to its next
    /// step, or fails for good. A task at rest ignores the reply.
    pub fn step(&mut self, reply: FileReply)
        ensures
            final(self)@ == old(self)@.stepped(reply@),
    {
        if self.failed || self.pos >= self.script.len() {
            return ;
        }
        let instr = &self.script[self.pos];
        let is_read = match instr.request {
            FileRequest::Read { .. } => true,
            _ => false,
        };
        match reply {
            FileReply::Done => {
                if is_read {
                    self.failed = true;
                } else {
                    self.pos = self.pos + 1;
                }
            },
            FileReply::Content(bytes) => {
                if is_read {
                    self.pos = self.pos + 1;
                    self.content = bytes;
                } else {
                    self.failed = true;
                }
            },
            FileReply::NotFound => {
                if instr.lenient {
                    self.pos = self.pos + 1;
                } else {
                    self.failed = true;
                }
            },
            FileReply::Denied => {
                self.failed = true;
            },
            FileReply::Failed => {
                self.failed = true;
            },
        }
    }

    /// Ends the conversation and hands back what the task has read, or a file
    /// system error.
    pub fn finish(self) -> (result: Result<Vec<u8>, MemoryError>)
        ensures
            match result {
                Ok(content) => self@.outcome() == Ok::<Seq<u8>, MemoryError>(content@),
                Err(e) => self@.outcome() == Err::<Seq<u8>, MemoryError>(e),
            },
    {
        if self.failed || self.pos < self.script.len() {
            Err(MemoryError::FileSystemError)
        } else {
            Ok(self.content)
        }
    }
}

} // verus!
