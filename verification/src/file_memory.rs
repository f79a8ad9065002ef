//! Secrets masked into files.
//!
//! A [`FileMemory`] keeps a payload XOR-masked with a random pad of the same
//! length. The masked bytes live in a file with a random name, whose
//! permission bits are cleared at rest and widened only around a read or a
//! write. The pad and the name stay in memory.
//!
//! Every method that concerns the file hands back the conversation to be held
//! with the backing store, as a [`Task`] or as a machine built on one.

use vstd::prelude::*;
use vstd::string::*;
use crate::buffer::Buffer;
use crate::entropy::{is_random_name, random_fname, random_vec};
use crate::error::MemoryError;
use crate::mask::{copy_of, xor, xor_seq, zeroed, zeros};
use crate::store::{Access, Directory, FilePath, FileReply, FileRequest, ReplyView, RequestView};
use crate::task::{Instr, InstrView, Task, TaskView, script_view};
use crate::wipe::{wipe_bytes, wipe_size, wipe_string};

verus! {

/// The number of characters in the name of a backing file.
pub const FILENAME_SIZE: usize = 16;

/// The name of the folder that holds the backing files.
pub open spec fn folder_name() -> Seq<char> {
    ".locked_memories"@
}

/// The directory part of the view of a file path.
pub open spec fn dir_of(path: Seq<Seq<char>>) -> Seq<Seq<char>> {
    path.take(2)
}

/// The step that sets the permission bits of `path`.
pub open spec fn access_step(path: Seq<Seq<char>>, access: Access, lenient: bool) -> InstrView {
    InstrView { request: RequestView::SetAccess { path, access }, lenient }
}

/// The step that asks for `request` and takes no missing file for an answer.
pub open spec fn strict(request: RequestView) -> InstrView {
    InstrView { request, lenient: false }
}

/// Setting the permission bits of `path`, and nothing else.
pub open spec fn access_script(path: Seq<Seq<char>>, access: Access) -> Seq<InstrView> {
    seq![access_step(path, access, false)]
}

/// Writing `bytes` to `path`: open the file for writing if it is there
/// already, write, lock.
pub open spec fn write_script(path: Seq<Seq<char>>, bytes: Seq<u8>) -> Seq<InstrView> {
    seq![
        access_step(path, Access::WriteOnly, true),
        strict(RequestView::Write { path, bytes }),
        access_step(path, Access::Locked, false),
    ]
}

/// Reading `path`: open the file for reading, read, lock.
pub open spec fn read_script(path: Seq<Seq<char>>) -> Seq<InstrView> {
    seq![
        access_step(path, Access::ReadOnly, false),
        strict(RequestView::Read { path }),
        access_step(path, Access::Locked, false),
    ]
}

/// Scrubbing `path`: open the file for writing, overwrite it with `size`
/// zeros, remove it.
pub open spec fn clear_script(path: Seq<Seq<char>>, size: nat) -> Seq<InstrView> {
    seq![
        access_step(path, Access::WriteOnly, false),
        strict(RequestView::Write { path, bytes: zeros(size) }),
        strict(RequestView::Remove { path }),
    ]
}

/// What a new backing file is filled with.
pub enum Fill {
    /// These bytes.
    Bytes(Vec<u8>),
    /// The contents of the file at this path.
    CopyOf(FilePath),
}

/// The mathematical value of a [`Fill`].
pub enum FillView {
    Bytes(Seq<u8>),
    CopyOf(Seq<Seq<char>>),
}

impl View for Fill {
    type V = FillView;

    open spec fn view(&self) -> FillView {
        match self {
            Fill::Bytes(bytes) => FillView::Bytes(bytes@),
            Fill::CopyOf(from) => FillView::CopyOf(from@),
        }
    }
}

/// Filling the file at `path`, once its name is known to be free, and locking
/// it: a write of the bytes; or a copy from another file, which is opened for
/// reading before and locked again after.
pub open spec fn fill_script(path: Seq<Seq<char>>, fill: FillView) -> Seq<InstrView> {
    match fill {
        FillView::Bytes(bytes) => seq![
            strict(RequestView::Write { path, bytes }),
            access_step(path, Access::Locked, false),
        ],
        FillView::CopyOf(from) => seq![
            access_step(from, Access::ReadOnly, false),
            strict(RequestView::Copy { from, to: path }),
            access_step(from, Access::Locked, false),
            access_step(path, Access::Locked, false),
        ],
    }
}

/// The position of the claim in the script of an allocation.
pub const CLAIM: usize = 1;

/// Allocating the file at `path`: a step that leads in, then the claim of the
/// name, then the filling. The claim opens the file for writing and expects
/// that there is none: `NotFound` means the name is free.
pub open spec fn allocation_script(lead: InstrView, path: Seq<Seq<char>>, fill: FillView) -> Seq<
    InstrView,
> {
    seq![lead, access_step(path, Access::WriteOnly, true)] + fill_script(path, fill)
}

/// The lead of a first attempt: make sure the folder exists.
pub open spec fn create_dir_step(path: Seq<Seq<char>>) -> InstrView {
    strict(RequestView::CreateDir { dir: dir_of(path) })
}

/// The lead of a further attempt: lock the file that holds the name that was
/// drawn before, as it was found.
pub open spec fn relock_step(taken: Seq<Seq<char>>) -> InstrView {
    access_step(taken, Access::Locked, true)
}

/// The views of two optional texts.
pub open spec fn text(value: Option<String>) -> Option<Seq<char>> {
    match value {
        Some(s) => Some(s@),
        None => None,
    }
}

/// The directory that the backing folder is put in: the local data directory
/// where there is one, else the home directory, else the working directory,
/// written as the empty path.
pub open spec fn preferred_base(data_local: Option<Seq<char>>, home: Option<Seq<char>>) -> Seq<
    char,
> {
    match data_local {
        Some(dir) => dir,
        None => match home {
            Some(dir) => dir,
            None => Seq::empty(),
        },
    }
}

/// The user's local data directory, from `dirs::data_local_dir`. It depends
/// on the platform and the environment, so nothing is known of it.
#[verifier::external_body]
fn data_local_dir() -> (dir: Option<String>) {
    dirs::data_local_dir().map(|p| p.to_string_lossy().into_owned())
}

/// The user's home directory, from `dirs::home_dir`. It depends on the
/// platform and the environment, so nothing is known of it.
#[verifier::external_body]
fn home_dir() -> (dir: Option<String>) {
    dirs::home_dir().map(|p| p.to_string_lossy().into_owned())
}

/// Picks the directory that the backing folder is put in.
pub fn choose_base(data_local: Option<String>, home: Option<String>) -> (base: String)
    ensures
        base@ == preferred_base(text(data_local), text(home)),
{
    match data_local {
        Some(dir) => dir,
        None => match home {
            Some(dir) => dir,
            None => String::new(),
        },
    }
}

fn access_instr(path: &FilePath, access: Access, lenient: bool) -> (instr: Instr)
    ensures
        instr@ == access_step(path@, access, lenient),
{
    Instr { request: FileRequest::SetAccess { path: path.duplicate(), access }, lenient }
}

fn write_instr(path: &FilePath, bytes: Vec<u8>) -> (instr: Instr)
    ensures
        instr@ == strict(RequestView::Write { path: path@, bytes: bytes@ }),
{
    Instr { request: FileRequest::Write { path: path.duplicate(), bytes }, lenient: false }
}

/// A payload masked into a file.
pub struct FileMemory {
    // Where the masked bytes are kept.
    fname: FilePath,
    // The pad that the payload is masked with.
    noise: Vec<u8>,
    // The length of the payload.
    size: usize,
}

/// The mathematical value of a [`FileMemory`].
pub struct FileMemoryView {
    /// The path of the backing file, by components.
    pub fname: Seq<Seq<char>>,
    /// The pad.
    pub noise: Seq<u8>,
    /// The length of the payload.
    pub size: nat,
}

/// A memory that goes out of scope erases the path, the pad and the size. The
/// backing file is scrubbed by the task of [`FileMemory::zeroize`] only: a
/// drop holds no conversation with the store.
impl Drop for FileMemory {
    fn drop(&mut self)
        ensures
            final(self)@ == FileMemoryView::erased(),
        opens_invariants none
        no_unwind
    {
        wipe_string(&mut self.fname.dir.base);
        wipe_string(&mut self.fname.dir.folder);
        wipe_string(&mut self.fname.name);
        wipe_bytes(&mut self.noise);
        wipe_size(&mut self.size);
    }
}

impl View for FileMemory {
    type V = FileMemoryView;

    closed spec fn view(&self) -> FileMemoryView {
        FileMemoryView { fname: self.fname@, noise: self.noise@, size: self.size as nat }
    }
}

impl FileMemory {
    /// The path of the backing file.
    pub fn fname(&self) -> (path: &FilePath)
        ensures
            path@ == self@.fname,
    {
        &self.fname
    }

    /// The pad that the payload is masked with.
    pub fn noise(&self) -> (pad: &[u8])
        ensures
            pad@ == self@.noise,
    {
        self.noise.as_slice()
    }

    /// The length of the payload.
    pub fn size(&self) -> (size: usize)
        ensures
            size == self@.size,
    {
        self.size
    }

    /// The folder that holds the backing files, below the directory that
    /// [`choose_base`] picks for this user.
    pub fn get_dir() -> (dir: Directory)
        ensures
            dir.folder@ == folder_name(),
    {
        let base = choose_base(data_local_dir(), home_dir());
        Directory { base, folder: String::from_str(".locked_memories") }
    }

    /// A fresh place for a backing file: a random name of
    /// [`FILENAME_SIZE`] letters and digits in the folder of [`Self::get_dir`].
    pub fn new_fname() -> (path: FilePath)
        ensures
            path.dir.folder@ == folder_name(),
            is_random_name(path.name@, FILENAME_SIZE as nat),
    {
        let name = random_fname(FILENAME_SIZE);
        let dir = Self::get_dir();
        FilePath { dir, name }
    }

    /// The task that locks the backing file.
    pub fn lock_file(&self) -> (task: Task)
        ensures
            task@ == TaskView::fresh(access_script(self@.fname, Access::Locked)),
    {
        access_task(&self.fname, Access::Locked)
    }

    /// The task that opens the backing file for writing only.
    pub fn set_write_only(&self) -> (task: Task)
        ensures
            task@ == TaskView::fresh(access_script(self@.fname, Access::WriteOnly)),
    {
        access_task(&self.fname, Access::WriteOnly)
    }

    /// The task that opens the backing file for reading only.
    pub fn set_read_only(&self) -> (task: Task)
        ensures
            task@ == TaskView::fresh(access_script(self@.fname, Access::ReadOnly)),
    {
        access_task(&self.fname, Access::ReadOnly)
    }

    /// The task that reads the backing file and locks it again.
    pub fn read_file(&self) -> (task: Task)
        ensures
            task@ == TaskView::fresh(read_script(self@.fname)),
    {
        let mut script: Vec<Instr> = Vec::new();
        script.push(access_instr(&self.fname, Access::ReadOnly, false));
        script.push(
            Instr { request: FileRequest::Read { path: self.fname.duplicate() }, lenient: false },
        );
        script.push(access_instr(&self.fname, Access::Locked, false));
        assert(script_view(script@) =~= read_script(self@.fname));
        Task::new(script)
    }

    /// The task that writes `payload` to the backing file and locks it.
    pub fn write_to_file(&self, payload: &[u8]) -> (task: Task)
        ensures
            task@ == TaskView::fresh(write_script(self@.fname, payload@)),
    {
        let mut script: Vec<Instr> = Vec::new();
        script.push(access_instr(&self.fname, Access::WriteOnly, true));
        script.push(write_instr(&self.fname, copy_of(payload)));
        script.push(access_instr(&self.fname, Access::Locked, false));
        assert(script_view(script@) =~= write_script(self@.fname, payload@));
        Task::new(script)
    }

    /// The task that overwrites the backing file with zeros and removes it.
    pub fn clear_and_delete_file(&self) -> (task: Task)
        ensures
            task@ == TaskView::fresh(clear_script(self@.fname, self@.size)),
    {
        clear_task(&self.fname, self.size)
    }
}

fn access_task(path: &FilePath, access: Access) -> (task: Task)
    ensures
        task@ == TaskView::fresh(access_script(path@, access)),
{
    let mut script: Vec<Instr> = Vec::new();
    script.push(access_instr(path, access, false));
    assert(script_view(script@) =~= access_script(path@, access));
    Task::new(script)
}

fn clear_task(path: &FilePath, size: usize) -> (task: Task)
    ensures
        task@ == TaskView::fresh(clear_script(path@, size as nat)),
{
    let mut script: Vec<Instr> = Vec::new();
    script.push(access_instr(path, Access::WriteOnly, false));
    script.push(write_instr(path, zeroed(size)));
    script.push(Instr { request: FileRequest::Remove { path: path.duplicate() }, lenient: false });
    assert(script_view(script@) =~= clear_script(path@, size as nat));
    Task::new(script)
}

impl Fill {
    /// A copy of this filling.
    pub fn duplicate(&self) -> (copy: Fill)
        ensures
            copy@ == self@,
    {
        match self {
            Fill::Bytes(bytes) => Fill::Bytes(copy_of(bytes.as_slice())),
            Fill::CopyOf(from) => Fill::CopyOf(from.duplicate()),
        }
    }
}

fn allocation_task(lead: Instr, path: &FilePath, fill: Fill) -> (task: Task)
    ensures
        task@ == TaskView::fresh(allocation_script(lead@, path@, fill@)),
{
    let mut script: Vec<Instr> = Vec::new();
    script.push(lead);
    script.push(access_instr(path, Access::WriteOnly, true));
    match fill {
        Fill::Bytes(bytes) => {
            script.push(write_instr(path, bytes));
            script.push(access_instr(path, Access::Locked, false));
        },
        Fill::CopyOf(from) => {
            script.push(access_instr(&from, Access::ReadOnly, false));
            script.push(
                Instr {
                    request: FileRequest::Copy { from: from.duplicate(), to: path.duplicate() },
                    lenient: false,
                },
            );
            script.push(access_instr(&from, Access::Locked, false));
            script.push(access_instr(path, Access::Locked, false));
        },
    }
    assert(script_view(script@) =~= allocation_script(lead@, path@, fill@));
    Task::new(script)
}

/// The mathematical value of an [`Allocation`].
pub struct AllocationView {
    /// The memory that is being allocated.
    pub memory: FileMemoryView,
    /// What its file is filled with.
    pub fill: FillView,
    /// The conversation with the store.
    pub task: TaskView,
    /// Whether the allocation has failed and is removing what it wrote.
    pub scrubbing: bool,
}

impl AllocationView {
    /// Whether `reply` tells that the name drawn is taken: the claim found a
    /// file.
    pub open spec fn collided(self, reply: ReplyView) -> bool {
        &&& !self.scrubbing
        &&& self.task.running()
        &&& self.task.pos == CLAIM
        &&& reply is Done
    }

    /// Whether `reply` ends the attempt after the name was claimed, so that a
    /// file of this allocation may be left behind.
    pub open spec fn spoiled(self, reply: ReplyView) -> bool {
        &&& !self.scrubbing
        &&& !self.collided(reply)
        &&& self.task.pos > CLAIM
        &&& self.task.stepped(reply).failed
    }

    /// Whether `next` is a state that the allocation may be in after `reply`.
    ///
    /// - A taken name is given up: the allocation starts over under a fresh
    ///   random name in the same folder, after locking the file it found.
    /// - A failure after the claim makes the allocation scrub its file: the
    ///   memory is erased and the task becomes the scrubbing of the file.
    /// - Any other reply is the task's own business.
    pub open spec fn follows(self, reply: ReplyView, next: AllocationView) -> bool {
        if self.collided(reply) {
            &&& next.memory.noise == self.memory.noise
            &&& next.memory.size == self.memory.size
            &&& next.memory.fname.len() == 3
            &&& dir_of(next.memory.fname) == dir_of(self.memory.fname)
            &&& is_random_name(next.memory.fname[2], FILENAME_SIZE as nat)
            &&& next.fill == self.fill
            &&& next.task == TaskView::fresh(
                allocation_script(relock_step(self.memory.fname), next.memory.fname, self.fill),
            )
            &&& !next.scrubbing
        } else if self.spoiled(reply) {
            &&& next.memory == FileMemoryView::erased()
            &&& next.fill == self.fill
            &&& next.task == TaskView::fresh(clear_script(self.memory.fname, self.memory.size))
            &&& next.scrubbing
        } else {
            next == AllocationView { task: self.task.stepped(reply), ..self }
        }
    }

    /// What the allocation hands back when it is ended in this state: the
    /// memory, if the task came to rest without a failure.
    pub open spec fn outcome(self) -> Result<FileMemoryView, MemoryError> {
        if self.scrubbing || self.task.outcome() is Err {
            Err(MemoryError::FileSystemError)
        } else {
            Ok(self.memory)
        }
    }
}

impl FileMemoryView {
    /// A memory after erasure: no path, no pad, size zero.
    pub open spec fn erased() -> FileMemoryView {
        FileMemoryView {
            fname: seq![Seq::<char>::empty(), Seq::<char>::empty(), Seq::<char>::empty()],
            noise: Seq::empty(),
            size: 0,
        }
    }
}

/// A file memory in the making: the memory, and the conversation that puts its
/// file on the store.
pub struct Allocation {
    memory: FileMemory,
    fill: Fill,
    task: Task,
    scrubbing: bool,
}

impl View for Allocation {
    type V = AllocationView;

    closed spec fn view(&self) -> AllocationView {
        AllocationView {
            memory: self.memory@,
            fill: self.fill@,
            task: self.task@,
            scrubbing: self.scrubbing,
        }
    }
}

impl Allocation {
    fn begin(noise: Vec<u8>, size: usize, fill: Fill) -> (allocation: Allocation)
        ensures
            allocation@.memory.noise == noise@,
            allocation@.memory.size == size,
            allocation@.memory.fname.len() == 3,
            allocation@.memory.fname[1] == folder_name(),
            is_random_name(allocation@.memory.fname[2], FILENAME_SIZE as nat),
            allocation@.fill == fill@,
            allocation@.task == TaskView::fresh(
                allocation_script(
                    create_dir_step(allocation@.memory.fname),
                    allocation@.memory.fname,
                    fill@,
                ),
            ),
            !allocation@.scrubbing,
    {
        let fname = FileMemory::new_fname();
        let lead = Instr {
            request: FileRequest::CreateDir { dir: fname.dir.duplicate() },
            lenient: false,
        };
        assert(fname@.take(2) =~= fname.dir@);
        let task = allocation_task(lead, &fname, fill.duplicate());
        Allocation { memory: FileMemory { fname, noise, size }, fill, task, scrubbing: false }
    }

    /// The request to perform next; `None` once the allocation has come to
    /// rest.
    pub fn request(&self) -> (pending: Option<&FileRequest>)
        ensures
            match pending {
                Some(request) => self@.task.running() && request@ == self@.task.script[self@.task.pos as int].request,
                None => !self@.task.running(),
            },
    {
        self.task.request()
    }

    /// Takes the reply to the pending request.
    pub fn step(&mut self, reply: FileReply)
        ensures
            old(self)@.follows(reply@, final(self)@),
    {
        let claimed = self.task.position() > CLAIM;
        let at_claim = self.task.position() == CLAIM && self.task.request().is_some();
        if self.scrubbing {
            self.task.step(reply);
        } else if at_claim && matches!(reply, FileReply::Done) {
            let lead = access_instr(&self.memory.fname, Access::Locked, true);
            let name = random_fname(FILENAME_SIZE);
            self.memory.fname.name = name;
            self.task = allocation_task(lead, &self.memory.fname, self.fill.duplicate());
            assert(dir_of(self.memory.fname@) =~= dir_of(old(self).memory.fname@));
        } else {
            self.task.step(reply);
            if claimed && self.task.request().is_none() && self.task.finished_badly() {
                self.task = self.memory.zeroize();
                self.scrubbing = true;
            }
        }
    }

    /// Ends the allocation and hands back the memory, or a file system error
    /// if the store failed or requests are still pending.
    pub fn finish(self) -> (result: Result<FileMemory, MemoryError>)
        ensures
            match result {
                Ok(memory) => self@.outcome() == Ok::<FileMemoryView, MemoryError>(memory@),
                Err(e) => self@.outcome() == Err::<FileMemoryView, MemoryError>(e),
            },
    {
        if self.scrubbing {
            return Err(MemoryError::FileSystemError);
        }
        match self.task.finish() {
            Ok(_) => Ok(self.memory),
            Err(e) => Err(e),
        }
    }
}

impl FileMemory {
    /// Starts the allocation of a memory for the first `size` bytes of
    /// `payload`: draws a pad and a name, and masks the payload.
    ///
    /// A size of zero is refused. Else the allocation is ready to create the
    /// folder, claim the name and write the masked bytes.
    pub fn allocate(payload: &[u8], size: usize) -> (result: Result<Allocation, MemoryError>)
        requires
            size <= payload@.len(),
        ensures
            match result {
                Ok(allocation) => {
                    &&& size > 0
                    &&& allocation@.memory.size == size
                    &&& allocation@.memory.noise.len() == size
                    &&& allocation@.memory.fname.len() == 3
                    &&& allocation@.memory.fname[1] == folder_name()
                    &&& is_random_name(allocation@.memory.fname[2], FILENAME_SIZE as nat)
                    &&& allocation@.fill == FillView::Bytes(
                        xor_seq(payload@, allocation@.memory.noise, size as nat),
                    )
                    &&& allocation@.task == TaskView::fresh(
                        allocation_script(
                            create_dir_step(allocation@.memory.fname),
                            allocation@.memory.fname,
                            allocation@.fill,
                        ),
                    )
                    &&& !allocation@.scrubbing
                },
                Err(e) => size == 0 && e == MemoryError::ZeroSizedNotAllowed,
            },
    {
        if size == 0 {
            return Err(MemoryError::ZeroSizedNotAllowed);
        }
        let noise = random_vec(size);
        let data = xor(payload, noise.as_slice(), size);
        Ok(Allocation::begin(noise, size, Fill::Bytes(data)))
    }

    /// Starts the allocation of a second memory with the same pad and size,
    /// whose file is a copy of this one's.
    pub fn duplicate(&self) -> (allocation: Allocation)
        ensures
            allocation@.memory.size == self@.size,
            allocation@.memory.noise == self@.noise,
            allocation@.memory.fname.len() == 3,
            allocation@.memory.fname[1] == folder_name(),
            is_random_name(allocation@.memory.fname[2], FILENAME_SIZE as nat),
            allocation@.fill == FillView::CopyOf(self@.fname),
            allocation@.task == TaskView::fresh(
                allocation_script(
                    create_dir_step(allocation@.memory.fname),
                    allocation@.memory.fname,
                    allocation@.fill,
                ),
            ),
            !allocation@.scrubbing,
    {
        let noise = copy_of(self.noise.as_slice());
        Allocation::begin(noise, self.size, Fill::CopyOf(self.fname.duplicate()))
    }

    /// Erases the memory: the path is emptied, the pad wiped and the size set
    /// to zero. The task handed back overwrites the backing file with zeros
    /// and removes it; a failure of that task is of no consequence.
    pub fn zeroize(&mut self) -> (scrub: Task)
        ensures
            scrub@ == TaskView::fresh(clear_script(old(self)@.fname, old(self)@.size)),
            final(self)@ == FileMemoryView::erased(),
    {
        let scrub = clear_task(&self.fname, self.size);
        wipe_string(&mut self.fname.dir.base);
        wipe_string(&mut self.fname.dir.folder);
        wipe_string(&mut self.fname.name);
        wipe_bytes(&mut self.noise);
        wipe_size(&mut self.size);
        scrub
    }
}

/// The mathematical value of an [`Unlocking`].
pub struct UnlockingView {
    /// The memory that is being unlocked.
    pub memory: FileMemoryView,
    /// The conversation with the store.
    pub task: TaskView,
}

impl UnlockingView {
    /// What the unlocking hands back when it is ended in this state: the
    /// content read, unmasked with the pad and cut to the size of the payload;
    /// or a file system error, where the store failed or holds too few bytes.
    pub open spec fn outcome(self) -> Result<Seq<u8>, MemoryError> {
        match self.task.outcome() {
            Ok(content) => if self.memory.size <= content.len() && self.memory.size
                <= self.memory.noise.len() {
                Ok(xor_seq(content, self.memory.noise, self.memory.size))
            } else {
                Err(MemoryError::FileSystemError)
            },
            Err(e) => Err(e),
        }
    }
}

/// A file memory being unlocked: the conversation that reads its file.
pub struct Unlocking<'a> {
    memory: &'a FileMemory,
    task: Task,
}

impl<'a> View for Unlocking<'a> {
    type V = UnlockingView;

    closed spec fn view(&self) -> UnlockingView {
        UnlockingView { memory: self.memory@, task: self.task@ }
    }
}

impl<'a> Unlocking<'a> {
    /// The request to perform next; `None` once the reading has come to rest.
    pub fn request(&self) -> (pending: Option<&FileRequest>)
        ensures
            match pending {
                Some(request) => self@.task.running() && request@ == self@.task.script[self@.task.pos as int].request,
                None => !self@.task.running(),
            },
    {
        self.task.request()
    }

    /// Takes the reply to the pending request.
    pub fn step(&mut self, reply: FileReply)
        ensures
            final(self)@ == (UnlockingView { task: old(self)@.task.stepped(reply@), ..old(self)@ }),
    {
        self.task.step(reply);
    }

    /// Ends the unlocking and hands back the payload in a buffer.
    pub fn finish(self) -> (result: Result<Buffer, MemoryError>)
        ensures
            match result {
                Ok(buffer) => self@.outcome() == Ok::<Seq<u8>, MemoryError>(buffer@),
                Err(e) => self@.outcome() == Err::<Seq<u8>, MemoryError>(e),
            },
    {
        let size = self.memory.size;
        match self.task.finish() {
            Ok(content) => {
                if size <= content.len() && size <= self.memory.noise.len() {
                    let mut content = content;
                    let mut plain = xor(content.as_slice(), self.memory.noise.as_slice(), size);
                    let buffer = Buffer::allocate(plain.as_slice(), size);
                    assert(plain@.take(size as int) =~= plain@);
                    wipe_bytes(&mut plain);
                    wipe_bytes(&mut content);
                    Ok(buffer)
                } else {
                    Err(MemoryError::FileSystemError)
                }
            },
            Err(e) => Err(e),
        }
    }
}

/// The mathematical value of an [`Update`].
pub struct UpdateView {
    /// The allocation of the replacement; `None` where it was refused.
    pub allocation: Option<AllocationView>,
    /// The scrubbing of the file that is replaced.
    pub scrub: TaskView,
}

impl UpdateView {
    /// Whether the replacement is still being allocated.
    pub open spec fn allocating(self) -> bool {
        self.allocation matches Some(allocation) && allocation.task.running()
    }

    /// Whether a request is pending.
    pub open spec fn running(self) -> bool {
        self.allocating() || self.scrub.running()
    }

    /// Whether `next` is a state that the update may be in after `reply`: the
    /// reply goes to the allocation while that has a request pending, and to
    /// the scrubbing of the old file after that.
    pub open spec fn follows(self, reply: ReplyView, next: UpdateView) -> bool {
        if self.allocating() {
            &&& next.allocation matches Some(allocation)
            &&& self.allocation->0.follows(reply, allocation)
            &&& next.scrub == self.scrub
        } else {
            &&& next.allocation == self.allocation
            &&& next.scrub == self.scrub.stepped(reply)
        }
    }

    /// What the update hands back when it is ended in this state.
    pub open spec fn outcome(self) -> Result<FileMemoryView, MemoryError> {
        match self.allocation {
            Some(allocation) => allocation.outcome(),
            None => Err(MemoryError::ZeroSizedNotAllowed),
        }
    }
}

/// The replacement of a file memory: a new one is allocated, then the old
/// file is scrubbed, whether or not the allocation succeeded.
pub struct Update {
    allocation: Option<Allocation>,
    scrub: Task,
}

impl View for Update {
    type V = UpdateView;

    closed spec fn view(&self) -> UpdateView {
        UpdateView {
            allocation: match self.allocation {
                Some(allocation) => Some(allocation@),
                None => None,
            },
            scrub: self.scrub@,
        }
    }
}

impl Update {
    /// The request to perform next; `None` once the update has come to rest.
    pub fn request(&self) -> (pending: Option<&FileRequest>)
        ensures
            match pending {
                Some(request) => if self@.allocating() {
                    let task = self@.allocation->0.task;
                    request@ == task.script[task.pos as int].request
                } else {
                    self@.scrub.running() && request@ == self@.scrub.script[self@.scrub.pos as int].request
                },
                None => !self@.running(),
            },
    {
        match &self.allocation {
            Some(allocation) => match allocation.request() {
                Some(request) => Some(request),
                None => self.scrub.request(),
            },
            None => self.scrub.request(),
        }
    }

    /// Takes the reply to the pending request.
    pub fn step(&mut self, reply: FileReply)
        ensures
            old(self)@.follows(reply@, final(self)@),
    {
        let allocating = match &self.allocation {
            Some(allocation) => allocation.request().is_some(),
            None => false,
        };
        if allocating {
            match &mut self.allocation {
                Some(allocation) => allocation.step(reply),
                None => {},
            }
        } else {
            self.scrub.step(reply);
        }
    }

    /// Ends the update and hands back the new memory, or the error of its
    /// allocation.
    pub fn finish(self) -> (result: Result<FileMemory, MemoryError>)
        ensures
            match result {
                Ok(memory) => self@.outcome() == Ok::<FileMemoryView, MemoryError>(memory@),
                Err(e) => self@.outcome() == Err::<FileMemoryView, MemoryError>(e),
            },
    {
        match self.allocation {
            Some(allocation) => allocation.finish(),
            None => Err(MemoryError::ZeroSizedNotAllowed),
        }
    }
}

impl FileMemory {
    /// Starts the unlocking of the memory. A memory of size zero, as after
    /// [`Self::zeroize`], is refused; else the unlocking is ready to read the
    /// backing file.
    pub fn unlock(&self) -> (result: Result<Unlocking<'_>, MemoryError>)
        ensures
            match result {
                Ok(unlocking) => {
                    &&& self@.size > 0
                    &&& unlocking@.memory == self@
                    &&& unlocking@.task == TaskView::fresh(read_script(self@.fname))
                },
                Err(e) => self@.size == 0 && e == MemoryError::ZeroSizedNotAllowed,
            },
    {
        if self.size == 0 {
            return Err(MemoryError::ZeroSizedNotAllowed);
        }
        Ok(Unlocking { memory: self, task: self.read_file() })
    }

    /// Starts the replacement of this memory by one for the first `size`
    /// bytes of `payload`. Nothing is changed in place: a new memory is
    /// allocated under a new name, and this one is erased and its file
    /// scrubbed. The payload buffer is wiped.
    pub fn update(self, payload: Buffer, size: usize) -> (update: Update)
        requires
            size <= payload@.len(),
        ensures
            update@.scrub == TaskView::fresh(clear_script(self@.fname, self@.size)),
            match update@.allocation {
                Some(allocation) => {
                    &&& size > 0
                    &&& allocation.memory.size == size
                    &&& allocation.memory.noise.len() == size
                    &&& allocation.memory.fname.len() == 3
                    &&& allocation.memory.fname[1] == folder_name()
                    &&& is_random_name(allocation.memory.fname[2], FILENAME_SIZE as nat)
                    &&& allocation.fill == FillView::Bytes(
                        xor_seq(payload@, allocation.memory.noise, size as nat),
                    )
                    &&& allocation.task == TaskView::fresh(
                        allocation_script(
                            create_dir_step(allocation.memory.fname),
                            allocation.memory.fname,
                            allocation.fill,
                        ),
                    )
                    &&& !allocation.scrubbing
                },
                None => size == 0,
            },
    {
        let mut old_memory = self;
        let mut payload = payload;
        let allocation = match FileMemory::allocate(payload.borrow(), size) {
            Ok(allocation) => Some(allocation),
            Err(_) => None,
        };
        payload.zeroize();
        let scrub = old_memory.zeroize();
        Update { allocation, scrub }
    }
}

} // verus!
