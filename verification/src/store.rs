//! The backing store of file memories, seen from the library.
//!
//! The library never opens a file. It hands out [`FileRequest`]s; the embedding
//! program performs each one on its file system and reports a [`FileReply`].
//! What the requests mean is fixed by [`perform`], a mathematical model of a
//! store that the laws of this crate are stated against.

use vstd::prelude::*;
use vstd::string::*;

verus! {

/// Permission bits of a file that may be read by its owner and nothing else.
pub const MODE_READ_ONLY: u32 = 0o400;

/// Permission bits of a file that may be written by its owner and nothing else.
pub const MODE_WRITE_ONLY: u32 = 0o200;

/// Permission bits of a file that nobody may read or write.
pub const MODE_LOCKED: u32 = 0o000;

/// Permission bits that the model gives to a file when a write creates it.
pub const MODE_CREATED: u32 = 0o600;

/// How far the backing file is opened up.
#[derive(Clone, Copy, PartialEq, Eq, Structural, Debug)]
pub enum Access {
    /// At rest: no access at all.
    Locked,
    /// Widened for the duration of a read.
    ReadOnly,
    /// Widened for the duration of a write.
    WriteOnly,
}

impl Access {
    /// The permission bits that stand for this access.
    pub open spec fn spec_mode(self) -> u32 {
        match self {
            Access::Locked => MODE_LOCKED,
            Access::ReadOnly => MODE_READ_ONLY,
            Access::WriteOnly => MODE_WRITE_ONLY,
        }
    }

    /// The permission bits to set on the backing file.
    #[verifier::when_used_as_spec(spec_mode)]
    pub fn mode(self) -> (bits: u32)
        ensures
            bits == self.spec_mode(),
    {
        match self {
            Access::Locked => MODE_LOCKED,
            Access::ReadOnly => MODE_READ_ONLY,
            Access::WriteOnly => MODE_WRITE_ONLY,
        }
    }
}

/// Whether permission bits let the owner read.
pub open spec fn readable(mode: u32) -> bool {
    mode & MODE_READ_ONLY != 0
}

/// Whether permission bits let the owner write.
pub open spec fn writable(mode: u32) -> bool {
    mode & MODE_WRITE_ONLY != 0
}

/// The directory that holds the backing files: `folder` below `base`.
pub struct Directory {
    /// The per-user directory the folder lives in; empty for the working directory.
    pub base: String,
    /// The name of the folder.
    pub folder: String,
}

impl View for Directory {
    type V = Seq<Seq<char>>;

    open spec fn view(&self) -> Seq<Seq<char>> {
        seq![self.base@, self.folder@]
    }
}

impl Directory {
    /// A copy of this directory.
    pub fn duplicate(&self) -> (copy: Directory)
        ensures
            copy == *self,
    {
        Directory { base: self.base.clone(), folder: self.folder.clone() }
    }
}

/// The place of a backing file: `name` inside `dir`. Its view is the sequence
/// of its components, outermost first.
pub struct FilePath {
    pub dir: Directory,
    pub name: String,
}

impl View for FilePath {
    type V = Seq<Seq<char>>;

    open spec fn view(&self) -> Seq<Seq<char>> {
        seq![self.dir.base@, self.dir.folder@, self.name@]
    }
}

impl FilePath {
    /// A copy of this path.
    pub fn duplicate(&self) -> (copy: FilePath)
        ensures
            copy == *self,
    {
        FilePath { dir: self.dir.duplicate(), name: self.name.clone() }
    }

    /// Whether every component is empty.
    pub open spec fn spec_is_empty(&self) -> bool {
        self@ == seq![Seq::<char>::empty(), Seq::<char>::empty(), Seq::<char>::empty()]
    }

    /// Whether every component is empty, as after [`FilePath::clear`].
    #[verifier::when_used_as_spec(spec_is_empty)]
    pub fn is_empty(&self) -> (empty: bool)
        ensures
            empty == self.spec_is_empty(),
    {
        let empty = self.dir.base.as_str().unicode_len() == 0
            && self.dir.folder.as_str().unicode_len() == 0
            && self.name.as_str().unicode_len() == 0;
        proof {
            let e = Seq::<char>::empty();
            if empty {
                assert(self.dir.base@ =~= e);
                assert(self.dir.folder@ =~= e);
                assert(self.name@ =~= e);
            } else {
                assert(self@[0] == self.dir.base@);
                assert(self@[1] == self.dir.folder@);
                assert(self@[2] == self.name@);
            }
        }
        empty
    }

    /// Empties every component.
    pub fn clear(&mut self)
        ensures
            final(self).spec_is_empty(),
    {
        self.dir.base = String::new();
        self.dir.folder = String::new();
        self.name = String::new();
    }
}

/// One operation on the backing store, for the embedding program to perform.
pub enum FileRequest {
    /// Make sure the directory exists, creating it and its parents if needed.
    CreateDir { dir: Directory },
    /// Set the permission bits of the file to `access.mode()`.
    SetAccess { path: FilePath, access: Access },
    /// Create or truncate the file and write `bytes` to it.
    Write { path: FilePath, bytes: Vec<u8> },
    /// Read the whole file.
    Read { path: FilePath },
    /// Remove the file.
    Remove { path: FilePath },
    /// Copy contents and permission bits of `from` to `to`.
    Copy { from: FilePath, to: FilePath },
}

/// The mathematical value of a [`FileRequest`].
pub enum RequestView {
    CreateDir { dir: Seq<Seq<char>> },
    SetAccess { path: Seq<Seq<char>>, access: Access },
    Write { path: Seq<Seq<char>>, bytes: Seq<u8> },
    Read { path: Seq<Seq<char>> },
    Remove { path: Seq<Seq<char>> },
    Copy { from: Seq<Seq<char>>, to: Seq<Seq<char>> },
}

impl View for FileRequest {
    type V = RequestView;

    open spec fn view(&self) -> RequestView {
        match self {
            FileRequest::CreateDir { dir } => RequestView::CreateDir { dir: dir@ },
            FileRequest::SetAccess { path, access } => RequestView::SetAccess {
                path: path@,
                access: *access,
            },
            FileRequest::Write { path, bytes } => RequestView::Write { path: path@, bytes: bytes@ },
            FileRequest::Read { path } => RequestView::Read { path: path@ },
            FileRequest::Remove { path } => RequestView::Remove { path: path@ },
            FileRequest::Copy { from, to } => RequestView::Copy { from: from@, to: to@ },
        }
    }
}

/// What became of a [`FileRequest`].
pub enum FileReply {
    /// The operation succeeded and has nothing to hand back.
    Done,
    /// A read succeeded with these bytes.
    Content(Vec<u8>),
    /// The file does not exist.
    NotFound,
    /// The permission bits forbid the operation.
    Denied,
    /// Any other failure.
    Failed,
}

/// The mathematical value of a [`FileReply`].
pub enum ReplyView {
    Done,
    Content(Seq<u8>),
    NotFound,
    Denied,
    Failed,
}

impl View for FileReply {
    type V = ReplyView;

    open spec fn view(&self) -> ReplyView {
        match self {
            FileReply::Done => ReplyView::Done,
            FileReply::Content(bytes) => ReplyView::Content(bytes@),
            FileReply::NotFound => ReplyView::NotFound,
            FileReply::Denied => ReplyView::Denied,
            FileReply::Failed => ReplyView::Failed,
        }
    }
}

/// A file of the model store.
pub struct FileState {
    pub mode: u32,
    pub content: Seq<u8>,
}

/// The model store: the files that exist, by path.
pub type Disk = Map<Seq<Seq<char>>, FileState>;

/// The model store after a request, and the reply that the request gets.
///
/// The model follows a POSIX file system as an unprivileged owner sees it:
/// permission bits guard reads and writes of an existing file, not its removal
/// nor a change of the bits themselves. Directories always exist.
pub open spec fn perform(disk: Disk, request: RequestView) -> (Disk, ReplyView) {
    match request {
        RequestView::CreateDir { dir } => (disk, ReplyView::Done),
        RequestView::SetAccess { path, access } => if disk.dom().contains(path) {
            (
                disk.insert(path, FileState { mode: access.spec_mode(), content: disk[path].content }),
                ReplyView::Done,
            )
        } else {
            (disk, ReplyView::NotFound)
        },
        RequestView::Write { path, bytes } => if !disk.dom().contains(path) {
            (disk.insert(path, FileState { mode: MODE_CREATED, content: bytes }), ReplyView::Done)
        } else if writable(disk[path].mode) {
            (
                disk.insert(path, FileState { mode: disk[path].mode, content: bytes }),
                ReplyView::Done,
            )
        } else {
            (disk, ReplyView::Denied)
        },
        RequestView::Read { path } => if !disk.dom().contains(path) {
            (disk, ReplyView::NotFound)
        } else if readable(disk[path].mode) {
            (disk, ReplyView::Content(disk[path].content))
        } else {
            (disk, ReplyView::Denied)
        },
        RequestView::Remove { path } => if disk.dom().contains(path) {
            (disk.remove(path), ReplyView::Done)
        } else {
            (disk, ReplyView::NotFound)
        },
        RequestView::Copy { from, to } => if !disk.dom().contains(from) {
            (disk, ReplyView::NotFound)
        } else if !readable(disk[from].mode) {
            (disk, ReplyView::Denied)
        } else if disk.dom().contains(to) && !writable(disk[to].mode) {
            (disk, ReplyView::Denied)
        } else {
            (disk.insert(to, disk[from]), ReplyView::Done)
        },
    }
}

/// The permission bits of the three kinds of access, as seen by `readable` and
/// `writable`.
pub proof fn lemma_access_bits()
    ensures
        !readable(MODE_LOCKED),
        !writable(MODE_LOCKED),
        readable(MODE_READ_ONLY),
        !writable(MODE_READ_ONLY),
        !readable(MODE_WRITE_ONLY),
        writable(MODE_WRITE_ONLY),
        readable(MODE_CREATED),
        writable(MODE_CREATED),
{
    assert(0o000u32 & 0o400u32 == 0) by (bit_vector);
    assert(0o000u32 & 0o200u32 == 0) by (bit_vector);
    assert(0o400u32 & 0o400u32 != 0) by (bit_vector);
    assert(0o400u32 & 0o200u32 == 0) by (bit_vector);
    assert(0o200u32 & 0o400u32 == 0) by (bit_vector);
    assert(0o200u32 & 0o200u32 != 0) by (bit_vector);
    assert(0o600u32 & 0o400u32 != 0) by (bit_vector);
    assert(0o600u32 & 0o200u32 != 0) by (bit_vector);
}

} // verus!
