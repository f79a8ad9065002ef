//! What holds of file memories on the model store.
//!
//! Each law drives the conversations that the methods of
//! [`crate::file_memory::FileMemory`] hand out against [`crate::store::perform`],
//! the way an embedding program drives them against its file system. An
//! allocation is followed through every name that it draws, however many of
//! them are taken.

use vstd::prelude::*;
use crate::error::MemoryError;
use crate::file_memory::{
    AllocationView, FileMemoryView, FillView, UnlockingView, allocation_script, clear_script,
    create_dir_step, read_script, relock_step,
};
use crate::task::InstrView;
use crate::mask::{lemma_xor_involution, xor_seq};
use crate::store::{
    Access, Disk, FileState, MODE_CREATED, MODE_LOCKED, MODE_READ_ONLY, MODE_WRITE_ONLY,
    ReplyView, RequestView, lemma_access_bits, perform,
};
use crate::task::TaskView;

verus! {

/// An allocation that is not scrubbing.
pub open spec fn settled(memory: FileMemoryView, fill: FillView, task: TaskView) -> AllocationView {
    AllocationView { memory, fill, task, scrubbing: false }
}

/// A file at rest can be neither read nor written: both requests are denied,
/// and the store stays as it is.
pub proof fn law_locked_file_denies_access(disk: Disk, path: Seq<Seq<char>>, bytes: Seq<u8>)
    requires
        disk.dom().contains(path),
        disk[path].mode == MODE_LOCKED,
    ensures
        perform(disk, RequestView::Read { path }) == (disk, ReplyView::Denied),
        perform(disk, RequestView::Write { path, bytes }) == (disk, ReplyView::Denied),
{
    lemma_access_bits();
}

/// The claim of a name finds a file exactly when the name is taken.
pub proof fn law_claim_tells_taken(disk: Disk, path: Seq<Seq<char>>)
    ensures
        perform(disk, RequestView::SetAccess { path, access: Access::WriteOnly }).1 is Done
            <==> disk.dom().contains(path),
        perform(disk, RequestView::SetAccess { path, access: Access::WriteOnly }).1 is NotFound
            <==> !disk.dom().contains(path),
{
}

/// Whether every file of the store is at rest, that is, locked.
pub open spec fn at_rest(disk: Disk) -> bool {
    forall|path: Seq<Seq<char>>| disk.dom().contains(path) ==> (#[trigger] disk[path]).mode == MODE_LOCKED
}

/// Whether an allocation in the state `before` has its pending request
/// performed on the store `disk` and takes the reply: the store is then
/// `next`, and the allocation may be in the state `after`.
pub open spec fn answered(
    before: AllocationView,
    disk: Disk,
    after: AllocationView,
    next: Disk,
) -> bool {
    let request = before.task.script[before.task.pos as int].request;
    &&& before.task.running()
    &&& next == perform(disk, request).0
    &&& before.follows(perform(disk, request).1, after)
}

/// Whether `states` and `disks` are a run of an allocation against the model
/// store: each state but the last has its pending request performed on the
/// store beside it and takes the reply, which gives the next state and store.
pub open spec fn runs(states: Seq<AllocationView>, disks: Seq<Disk>) -> bool {
    &&& states.len() == disks.len()
    &&& states.len() > 0
    &&& forall|i: int|
        0 <= i < states.len() - 1 ==> answered(
            #[trigger] states[i],
            disks[i],
            states[i + 1],
            disks[i + 1],
        )
}

/// Whether a run starts with the allocation of `memory`, filled with `fill`,
/// as [`crate::file_memory::FileMemory::allocate`] and
/// [`crate::file_memory::FileMemory::duplicate`] hand it out, on the store
/// `start`.
pub open spec fn starts(
    states: Seq<AllocationView>,
    disks: Seq<Disk>,
    memory: FileMemoryView,
    fill: FillView,
    start: Disk,
) -> bool {
    &&& runs(states, disks)
    &&& disks[0] == start
    &&& states[0] == settled(
        memory,
        fill,
        TaskView::fresh(allocation_script(create_dir_step(memory.fname), memory.fname, fill)),
    )
}

/// What a filling leaves in the new file: the bytes, or the content of the
/// file that is copied.
pub open spec fn filling(fill: FillView, start: Disk) -> Seq<u8> {
    match fill {
        FillView::Bytes(bytes) => bytes,
        FillView::CopyOf(from) => start[from].content,
    }
}

/// Whether the store has what a filling needs: the file to copy, if any.
pub open spec fn fillable(fill: FillView, start: Disk) -> bool {
    fill matches FillView::CopyOf(from) ==> start.dom().contains(from)
}

/// The store of an allocation that has passed `pos` steps of its attempt
/// under the name `path`, on a store that was `start` and at rest.
pub open spec fn course(
    pos: nat,
    lead: InstrView,
    path: Seq<Seq<char>>,
    fill: FillView,
    start: Disk,
) -> Disk {
    let content = filling(fill, start);
    if pos == 0 {
        match lead.request {
            RequestView::SetAccess { path: taken, access } => start.insert(
                taken,
                FileState { mode: MODE_WRITE_ONLY, content: start[taken].content },
            ),
            _ => start,
        }
    } else if pos <= 2 {
        start
    } else {
        match fill {
            FillView::Bytes(_) => if pos == 3 {
                start.insert(path, FileState { mode: MODE_CREATED, content })
            } else {
                start.insert(path, FileState { mode: MODE_LOCKED, content })
            },
            FillView::CopyOf(from) => if pos == 3 {
                start.insert(from, FileState { mode: MODE_READ_ONLY, content })
            } else if pos == 4 {
                start.insert(from, FileState { mode: MODE_READ_ONLY, content }).insert(
                    path,
                    FileState { mode: MODE_READ_ONLY, content },
                )
            } else if pos == 5 {
                start.insert(path, FileState { mode: MODE_READ_ONLY, content })
            } else {
                start.insert(path, FileState { mode: MODE_LOCKED, content })
            },
        }
    }
}

/// Whether an allocation is on its course: it has met no failure, it is at
/// some step of an attempt under its present name, with the pad, size and
/// filling it began with, and the store is what that step leaves of `start`.
pub open spec fn on_course(
    state: AllocationView,
    disk: Disk,
    start: Disk,
    memory: FileMemoryView,
    fill: FillView,
) -> bool {
    let path = state.memory.fname;
    let lead = state.task.script[0];
    &&& !state.scrubbing
    &&& !state.task.failed
    &&& state.fill == fill
    &&& state.memory.noise == memory.noise
    &&& state.memory.size == memory.size
    &&& state.task.script == allocation_script(lead, path, fill)
    &&& state.task.pos <= state.task.script.len()
    &&& match lead.request {
        RequestView::CreateDir { dir } => !lead.lenient,
        RequestView::SetAccess { path: taken, access } => lead == relock_step(taken)
            && start.dom().contains(taken),
        _ => false,
    }
    &&& state.task.pos >= 2 ==> !start.dom().contains(path)
    &&& disk == course(state.task.pos, lead, path, fill, start)
}

/// An allocation that is on its course stays on it, whatever name it draws.
proof fn lemma_stays_on_course(
    before: AllocationView,
    disk: Disk,
    after: AllocationView,
    next: Disk,
    start: Disk,
    memory: FileMemoryView,
    fill: FillView,
)
    requires
        at_rest(start),
        fillable(fill, start),
        on_course(before, disk, start, memory, fill),
        answered(before, disk, after, next),
    ensures
        on_course(after, next, start, memory, fill),
{
    lemma_access_bits();
    let path = before.memory.fname;
    let lead = before.task.script[0];
    let pos = before.task.pos;
    let script = before.task.script;
    let request = script[pos as int].request;
    let content = filling(fill, start);
    if pos == 0 {
        match lead.request {
            RequestView::SetAccess { path: taken, access } => {
                assert(start[taken].mode == MODE_LOCKED);
                assert(next =~= start);
            },
            _ => {},
        }
    } else if pos == 1 {
        if start.dom().contains(path) {
            assert(before.collided(perform(disk, request).1));
            assert(after.task.script[0] == relock_step(path));
        }
    } else {
        match fill {
            FillView::Bytes(bytes) => {
                if pos == 3 {
                    assert(next =~= start.insert(
                        path,
                        FileState { mode: MODE_LOCKED, content },
                    ));
                }
            },
            FillView::CopyOf(from) => {
                assert(start[from].mode == MODE_LOCKED);
                assert(from != path);
                if pos == 4 {
                    assert(next =~= start.insert(
                        path,
                        FileState { mode: MODE_READ_ONLY, content },
                    ));
                } else if pos == 5 {
                    assert(next =~= start.insert(
                        path,
                        FileState { mode: MODE_LOCKED, content },
                    ));
                }
            },
        }
    }
}

/// Every state of a run is on its course.
proof fn lemma_run_on_course(
    states: Seq<AllocationView>,
    disks: Seq<Disk>,
    memory: FileMemoryView,
    fill: FillView,
    start: Disk,
    i: int,
)
    requires
        at_rest(start),
        fillable(fill, start),
        starts(states, disks, memory, fill, start),
        0 <= i < states.len(),
    ensures
        on_course(states[i], disks[i], start, memory, fill),
    decreases i,
{
    if i > 0 {
        lemma_run_on_course(states, disks, memory, fill, start, i - 1);
        assert(answered(states[i - 1], disks[i - 1], states[i], disks[i]));
        lemma_stays_on_course(
            states[i - 1],
            disks[i - 1],
            states[i],
            disks[i],
            start,
            memory,
            fill,
        );
    }
}

/// An allocation settles, through however many taken names: on a store at
/// rest, a run that has come to rest has met no failure and hands back a
/// memory with the pad and the size that it began with, under a name that was
/// free. The store has gained exactly one file: the one of that name, locked,
/// with the filling in it. Every other file is as it was.
pub proof fn law_allocation_settles(
    states: Seq<AllocationView>,
    disks: Seq<Disk>,
    memory: FileMemoryView,
    fill: FillView,
    start: Disk,
)
    requires
        at_rest(start),
        fillable(fill, start),
        starts(states, disks, memory, fill, start),
        !states.last().task.running(),
    ensures
        ({
            let settled = states.last().memory;
            &&& states.last().outcome() == Ok::<FileMemoryView, MemoryError>(settled)
            &&& settled.noise == memory.noise
            &&& settled.size == memory.size
            &&& !start.dom().contains(settled.fname)
            &&& disks.last() == start.insert(
                settled.fname,
                FileState { mode: MODE_LOCKED, content: filling(fill, start) },
            )
            &&& at_rest(disks.last())
        }),
{
    lemma_run_on_course(states, disks, memory, fill, start, states.len() - 1);
}

/// The file holds the payload masked with the pad: after an allocation of a
/// payload has settled, unmasking what its file holds gives the payload.
pub proof fn law_file_holds_masked_payload(
    states: Seq<AllocationView>,
    disks: Seq<Disk>,
    memory: FileMemoryView,
    payload: Seq<u8>,
    start: Disk,
)
    requires
        at_rest(start),
        memory.size <= payload.len(),
        memory.size == memory.noise.len(),
        starts(
            states,
            disks,
            memory,
            FillView::Bytes(xor_seq(payload, memory.noise, memory.size)),
            start,
        ),
        !states.last().task.running(),
    ensures
        ({
            let settled = states.last().memory;
            &&& disks.last().dom().contains(settled.fname)
            &&& disks.last()[settled.fname].mode == MODE_LOCKED
            &&& xor_seq(disks.last()[settled.fname].content, settled.noise, settled.size)
                == payload.take(settled.size as int)
        }),
{
    let fill = FillView::Bytes(xor_seq(payload, memory.noise, memory.size));
    law_allocation_settles(states, disks, memory, fill, start);
    lemma_xor_involution(payload, memory.noise, memory.size);
}

/// Unlocking reads back what allocation wrote: after an allocation of a
/// payload has settled, unlocking the memory gives the first `size` bytes of
/// the payload, and leaves the store as it was.
pub proof fn law_unlock_returns_payload(
    states: Seq<AllocationView>,
    disks: Seq<Disk>,
    memory: FileMemoryView,
    payload: Seq<u8>,
    start: Disk,
)
    requires
        at_rest(start),
        memory.size <= payload.len(),
        memory.size == memory.noise.len(),
        starts(
            states,
            disks,
            memory,
            FillView::Bytes(xor_seq(payload, memory.noise, memory.size)),
            start,
        ),
        !states.last().task.running(),
    ensures
        ({
            let settled = states.last().memory;
            let (task, after) = TaskView::fresh(read_script(settled.fname)).drive(disks.last());
            &&& (UnlockingView { memory: settled, task }).outcome() == Ok::<Seq<u8>, MemoryError>(
                payload.take(settled.size as int),
            )
            &&& after == disks.last()
        }),
{
    let masked = xor_seq(payload, memory.noise, memory.size);
    law_allocation_settles(states, disks, memory, FillView::Bytes(masked), start);
    lemma_xor_involution(payload, memory.noise, memory.size);
    let settled = states.last().memory;
    let disk = disks.last();
    assert(disk[settled.fname].content == masked);
    lemma_reading(disk, settled.fname);
    let (task, after) = TaskView::fresh(read_script(settled.fname)).drive(disk);
    assert(task.outcome() == Ok::<Seq<u8>, MemoryError>(masked));
    assert(masked.len() == settled.size);
}

/// Reading a locked file gives its content and leaves the store as it was.
proof fn lemma_reading(disk: Disk, path: Seq<Seq<char>>)
    requires
        disk.dom().contains(path),
        disk[path].mode == MODE_LOCKED,
    ensures
        ({
            let (task, after) = TaskView::fresh(read_script(path)).drive(disk);
            &&& task.outcome() == Ok::<Seq<u8>, MemoryError>(disk[path].content)
            &&& after == disk
        }),
{
    lemma_access_bits();
    reveal_with_fuel(TaskView::drive, 4);
    let (task, after) = TaskView::fresh(read_script(path)).drive(disk);
    assert(after =~= disk);
    assert(task.content == disk[path].content);
}

/// Scrubbing removes the file, whatever its permission bits were, and touches
/// no other file.
pub proof fn law_scrub_removes_file(disk: Disk, path: Seq<Seq<char>>, size: nat)
    requires
        disk.dom().contains(path),
    ensures
        ({
            let (task, after) = TaskView::fresh(clear_script(path, size)).drive(disk);
            &&& task.outcome() is Ok
            &&& after == disk.remove(path)
        }),
{
    lemma_access_bits();
    reveal_with_fuel(TaskView::drive, 4);
    let (task, after) = TaskView::fresh(clear_script(path, size)).drive(disk);
    assert(after =~= disk.remove(path));
}

/// Scrubbing a file that is not there changes nothing: erasing a memory
/// twice is harmless.
pub proof fn law_scrub_is_idempotent(disk: Disk, path: Seq<Seq<char>>, size: nat)
    requires
        !disk.dom().contains(path),
    ensures
        TaskView::fresh(clear_script(path, size)).drive(disk).1 == disk,
{
    reveal_with_fuel(TaskView::drive, 4);
}

/// An erased memory leaves nothing: once the scrubbing that
/// [`crate::file_memory::FileMemory::zeroize`] hands out has been performed,
/// the file is gone and every other file is as it was; no byte of it can be
/// read again, with whatever pad; and scrubbing once more changes nothing,
/// so that erasing a memory whose file is gone already is harmless.
pub proof fn law_erased_memory_leaves_nothing(disk: Disk, memory: FileMemoryView)
    requires
        disk.dom().contains(memory.fname),
    ensures
        ({
            let scrub = clear_script(memory.fname, memory.size);
            let (_, after) = TaskView::fresh(scrub).drive(disk);
            let (task, unread) = TaskView::fresh(read_script(memory.fname)).drive(after);
            &&& after == disk.remove(memory.fname)
            &&& !after.dom().contains(memory.fname)
            &&& (UnlockingView { memory, task }).outcome() == Err::<Seq<u8>, MemoryError>(
                MemoryError::FileSystemError,
            )
            &&& unread == after
            &&& TaskView::fresh(scrub).drive(after).1 == after
        }),
{
    law_scrub_removes_file(disk, memory.fname, memory.size);
    let after = disk.remove(memory.fname);
    law_scrub_is_idempotent(after, memory.fname, memory.size);
    reveal_with_fuel(TaskView::drive, 4);
}

/// Update replaces and does not mutate: once the replacement has settled,
/// through however many taken names, and the old file is scrubbed, the old
/// file is gone, the new memory has a file of another name, and unlocking it
/// gives the new payload.
pub proof fn law_update_replaces(
    states: Seq<AllocationView>,
    disks: Seq<Disk>,
    old_memory: FileMemoryView,
    memory: FileMemoryView,
    payload: Seq<u8>,
    start: Disk,
)
    requires
        at_rest(start),
        start.dom().contains(old_memory.fname),
        memory.size <= payload.len(),
        memory.size == memory.noise.len(),
        starts(
            states,
            disks,
            memory,
            FillView::Bytes(xor_seq(payload, memory.noise, memory.size)),
            start,
        ),
        !states.last().task.running(),
    ensures
        ({
            let settled = states.last().memory;
            let (_, scrubbed) = TaskView::fresh(
                clear_script(old_memory.fname, old_memory.size),
            ).drive(disks.last());
            let (task, after) = TaskView::fresh(read_script(settled.fname)).drive(scrubbed);
            &&& states.last().outcome() == Ok::<FileMemoryView, MemoryError>(settled)
            &&& settled.fname != old_memory.fname
            &&& !scrubbed.dom().contains(old_memory.fname)
            &&& scrubbed.dom().contains(settled.fname)
            &&& scrubbed == start.remove(old_memory.fname).insert(
                settled.fname,
                FileState {
                    mode: MODE_LOCKED,
                    content: xor_seq(payload, memory.noise, memory.size),
                },
            )
            &&& (UnlockingView { memory: settled, task }).outcome() == Ok::<Seq<u8>, MemoryError>(
                payload.take(settled.size as int),
            )
        }),
{
    let fill = FillView::Bytes(xor_seq(payload, memory.noise, memory.size));
    law_allocation_settles(states, disks, memory, fill, start);
    lemma_xor_involution(payload, memory.noise, memory.size);
    let settled = states.last().memory;
    law_scrub_removes_file(disks.last(), old_memory.fname, old_memory.size);
    let scrubbed = disks.last().remove(old_memory.fname);
    assert(scrubbed =~= start.remove(old_memory.fname).insert(
        settled.fname,
        FileState { mode: MODE_LOCKED, content: xor_seq(payload, memory.noise, memory.size) },
    ));
    lemma_reading(scrubbed, settled.fname);
}

/// A copy adds exactly one file: once the allocation of a copy has settled,
/// through however many taken names, the store has gained one file, which is
/// locked and holds the bytes of the file that was copied. That file and every
/// other file are as they were.
pub proof fn law_copy_holds_same_bytes(
    states: Seq<AllocationView>,
    disks: Seq<Disk>,
    from: Seq<Seq<char>>,
    copy: FileMemoryView,
    start: Disk,
)
    requires
        at_rest(start),
        start.dom().contains(from),
        starts(states, disks, copy, FillView::CopyOf(from), start),
        !states.last().task.running(),
    ensures
        ({
            let settled = states.last().memory;
            &&& states.last().outcome() == Ok::<FileMemoryView, MemoryError>(settled)
            &&& settled.noise == copy.noise
            &&& settled.size == copy.size
            &&& settled.fname != from
            &&& !start.dom().contains(settled.fname)
            &&& disks.last() == start.insert(settled.fname, start[from])
        }),
{
    law_allocation_settles(states, disks, copy, FillView::CopyOf(from), start);
}

} // verus!
