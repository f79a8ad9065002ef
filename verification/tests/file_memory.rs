//! File memories driven against a store kept in memory.

use std::collections::HashMap;

use stronghold_core::buffer::Buffer;
use stronghold_core::error::MemoryError;
use stronghold_core::file_memory::{Allocation, FileMemory, Unlocking, Update, FILENAME_SIZE};
use stronghold_core::mask::xor;
use stronghold_core::store::{Access, FilePath, FileReply, FileRequest};
use stronghold_core::task::Task;

type Key = (String, String, String);

struct File {
    mode: u32,
    content: Vec<u8>,
}

/// A store that behaves as the model does, and that can be told to fail.
struct Disk {
    files: HashMap<Key, File>,
    log: Vec<String>,
    fail_writes: bool,
}

fn key(path: &FilePath) -> Key {
    (path.dir.base.clone(), path.dir.folder.clone(), path.name.clone())
}

impl Disk {
    fn new() -> Disk {
        Disk { files: HashMap::new(), log: Vec::new(), fail_writes: false }
    }

    fn perform(&mut self, request: &FileRequest) -> FileReply {
        match request {
            FileRequest::CreateDir { .. } => {
                self.log.push("mkdir".to_string());
                FileReply::Done
            }
            FileRequest::SetAccess { path, access } => {
                self.log.push(format!("chmod {:o}", access.mode()));
                match self.files.get_mut(&key(path)) {
                    Some(file) => {
                        file.mode = access.mode();
                        FileReply::Done
                    }
                    None => FileReply::NotFound,
                }
            }
            FileRequest::Write { path, bytes } => {
                self.log.push("write".to_string());
                if self.fail_writes {
                    return FileReply::Failed;
                }
                match self.files.get_mut(&key(path)) {
                    Some(file) if file.mode & 0o200 != 0 => {
                        file.content = bytes.clone();
                        FileReply::Done
                    }
                    Some(_) => FileReply::Denied,
                    None => {
                        self.files.insert(key(path), File { mode: 0o600, content: bytes.clone() });
                        FileReply::Done
                    }
                }
            }
            FileRequest::Read { path } => {
                self.log.push("read".to_string());
                match self.files.get(&key(path)) {
                    Some(file) if file.mode & 0o400 != 0 => FileReply::Content(file.content.clone()),
                    Some(_) => FileReply::Denied,
                    None => FileReply::NotFound,
                }
            }
            FileRequest::Remove { path } => {
                self.log.push("remove".to_string());
                match self.files.remove(&key(path)) {
                    Some(_) => FileReply::Done,
                    None => FileReply::NotFound,
                }
            }
            FileRequest::Copy { from, to } => {
                self.log.push("copy".to_string());
                let (mode, content) = match self.files.get(&key(from)) {
                    Some(file) if file.mode & 0o400 != 0 => (file.mode, file.content.clone()),
                    Some(_) => return FileReply::Denied,
                    None => return FileReply::NotFound,
                };
                if let Some(target) = self.files.get(&key(to)) {
                    if target.mode & 0o200 == 0 {
                        return FileReply::Denied;
                    }
                }
                self.files.insert(key(to), File { mode, content });
                FileReply::Done
            }
        }
    }

    fn run_task(&mut self, mut task: Task) -> Result<Vec<u8>, MemoryError> {
        loop {
            let reply = match task.request() {
                Some(request) => self.perform(request),
                None => break,
            };
            task.step(reply);
        }
        task.finish()
    }

    fn run_allocation(&mut self, mut allocation: Allocation) -> Result<FileMemory, MemoryError> {
        loop {
            let reply = match allocation.request() {
                Some(request) => self.perform(request),
                None => break,
            };
            allocation.step(reply);
        }
        allocation.finish()
    }

    fn run_unlocking(&mut self, mut unlocking: Unlocking<'_>) -> Result<Buffer, MemoryError> {
        loop {
            let reply = match unlocking.request() {
                Some(request) => self.perform(request),
                None => break,
            };
            unlocking.step(reply);
        }
        unlocking.finish()
    }

    fn run_update(&mut self, mut update: Update) -> Result<FileMemory, MemoryError> {
        loop {
            let reply = match update.request() {
                Some(request) => self.perform(request),
                None => break,
            };
            update.step(reply);
        }
        update.finish()
    }

    fn allocate(&mut self, payload: &[u8], size: usize) -> Result<FileMemory, MemoryError> {
        let allocation = FileMemory::allocate(payload, size)?;
        self.run_allocation(allocation)
    }

    fn unlock(&mut self, memory: &FileMemory) -> Result<Buffer, MemoryError> {
        let unlocking = memory.unlock()?;
        self.run_unlocking(unlocking)
    }

    fn zeroize(&mut self, memory: &mut FileMemory) {
        let scrub = memory.zeroize();
        let _ = self.run_task(scrub);
    }
}

#[test]
fn file_zeroize() {
    let mut disk = Disk::new();
    let fm = disk.allocate(&[1, 2, 3, 4, 5, 6][..], 6);
    assert!(fm.is_ok());
    let mut fm = fm.unwrap();
    let fname = key(fm.fname());
    assert!(disk.files.contains_key(&fname));
    disk.zeroize(&mut fm);

    // Check that file has been removed
    assert!(!disk.files.contains_key(&fname));
    assert!(fm.fname().is_empty());
    assert!(disk.unlock(&fm).is_err());
    assert_eq!(fm.size(), 0);
}

#[test]
fn file_security() {
    let data = [1, 2, 3, 4, 5, 6];
    let mut disk = Disk::new();
    let fm = disk.allocate(&data, 6);
    assert!(fm.is_ok());
    let fm = fm.unwrap();

    // Try to read or write file
    let try_read = disk.perform(&FileRequest::Read { path: fm.fname().duplicate() });
    let try_write =
        disk.perform(&FileRequest::Write { path: fm.fname().duplicate(), bytes: vec![0; 6] });
    assert!(matches!(try_read, FileReply::Denied));
    assert!(matches!(try_write, FileReply::Denied));

    // Check that content of the file has effectively been xored
    assert!(disk.run_task(fm.set_read_only()).is_ok());
    let content = match disk.perform(&FileRequest::Read { path: fm.fname().duplicate() }) {
        FileReply::Content(content) => content,
        _ => panic!("Fail to read file"),
    };
    assert_ne!(content, data);
    assert_eq!(xor(&content, fm.noise(), fm.size()), data);
}

#[test]
fn allocate_refuses_size_zero() {
    let result = FileMemory::allocate(&[1, 2, 3], 0);
    assert!(matches!(result, Err(MemoryError::ZeroSizedNotAllowed)));
    let result = FileMemory::allocate(&[], 0);
    assert!(matches!(result, Err(MemoryError::ZeroSizedNotAllowed)));
}

#[test]
fn allocate_names_the_file_in_the_locked_folder() {
    let allocation = FileMemory::allocate(&[9, 8, 7], 3).unwrap();
    let mut disk = Disk::new();
    let fm = disk.run_allocation(allocation).unwrap();
    assert_eq!(FILENAME_SIZE, 16);
    assert_eq!(fm.fname().name.chars().count(), 16);
    assert!(fm.fname().name.chars().all(|c| c.is_ascii_alphanumeric()));
    assert_eq!(fm.fname().dir.folder, ".locked_memories");
    assert_eq!(fm.size(), 3);
    assert_eq!(fm.noise().len(), 3);
}

#[test]
fn allocate_asks_for_folder_claim_write_lock() {
    let mut disk = Disk::new();
    disk.allocate(&[1, 2, 3, 4], 4).unwrap();
    assert_eq!(disk.log, vec!["mkdir", "chmod 200", "write", "chmod 0"]);
}

#[test]
fn unlock_returns_the_payload() {
    let payload = b"correct horse battery staple".to_vec();
    let mut disk = Disk::new();
    let fm = disk.allocate(&payload, payload.len()).unwrap();
    let buffer = disk.unlock(&fm).unwrap();
    assert_eq!(buffer.borrow(), &payload[..]);
    assert_eq!(buffer.len(), payload.len());
    // unlocking leaves the file locked and can be repeated
    assert_eq!(disk.files[&key(fm.fname())].mode, 0);
    let again = disk.unlock(&fm).unwrap();
    assert_eq!(again.borrow(), &payload[..]);
}

#[test]
fn unlock_returns_the_first_size_bytes() {
    let mut disk = Disk::new();
    let fm = disk.allocate(&[10, 20, 30, 40, 50], 3).unwrap();
    let buffer = disk.unlock(&fm).unwrap();
    assert_eq!(buffer.borrow(), &[10, 20, 30][..]);
}

#[test]
fn unlock_asks_for_read_access_read_lock() {
    let mut disk = Disk::new();
    let fm = disk.allocate(&[1, 2, 3, 4], 4).unwrap();
    disk.log.clear();
    disk.unlock(&fm).unwrap();
    assert_eq!(disk.log, vec!["chmod 400", "read", "chmod 0"]);
}

#[test]
fn file_holds_payload_xor_pad() {
    let payload = [0xde, 0xad, 0xbe, 0xef, 0x00, 0xff];
    let mut disk = Disk::new();
    let fm = disk.allocate(&payload, 6).unwrap();
    let file = &disk.files[&key(fm.fname())];
    assert_eq!(file.mode, Access::Locked.mode());
    assert_eq!(file.content.len(), 6);
    for i in 0..6 {
        assert_eq!(file.content[i] ^ fm.noise()[i], payload[i]);
    }
}

#[test]
fn unlock_fails_when_the_file_is_gone() {
    let mut disk = Disk::new();
    let fm = disk.allocate(&[1, 2, 3], 3).unwrap();
    disk.files.clear();
    assert!(matches!(disk.unlock(&fm), Err(MemoryError::FileSystemError)));
}

#[test]
fn unlock_fails_when_the_file_is_too_short() {
    let mut disk = Disk::new();
    let fm = disk.allocate(&[1, 2, 3], 3).unwrap();
    disk.files.get_mut(&key(fm.fname())).unwrap().content.truncate(2);
    assert!(matches!(disk.unlock(&fm), Err(MemoryError::FileSystemError)));
}

#[test]
fn unlock_before_the_read_has_run_fails() {
    let mut disk = Disk::new();
    let fm = disk.allocate(&[1, 2, 3], 3).unwrap();
    let unlocking = fm.unlock().unwrap();
    assert!(matches!(unlocking.finish(), Err(MemoryError::FileSystemError)));
}

#[test]
fn update_replaces_the_file() {
    let mut disk = Disk::new();
    let fm = disk.allocate(b"first", 5).unwrap();
    let old = key(fm.fname());
    let update = fm.update(Buffer::allocate(b"second payload", 14), 14);
    let fm = disk.run_update(update).unwrap();
    assert!(!disk.files.contains_key(&old));
    assert_ne!(key(fm.fname()), old);
    assert_eq!(disk.files.len(), 1);
    assert_eq!(disk.unlock(&fm).unwrap().borrow(), b"second payload");
}

#[test]
fn update_allocates_before_it_scrubs() {
    let mut disk = Disk::new();
    let fm = disk.allocate(b"first", 5).unwrap();
    disk.log.clear();
    let update = fm.update(Buffer::allocate(b"next", 4), 4);
    disk.run_update(update).unwrap();
    assert_eq!(
        disk.log,
        vec!["mkdir", "chmod 200", "write", "chmod 0", "chmod 200", "write", "remove"]
    );
}

#[test]
fn update_to_size_zero_fails_and_scrubs_the_old_file() {
    let mut disk = Disk::new();
    let fm = disk.allocate(b"first", 5).unwrap();
    let update = fm.update(Buffer::allocate(b"", 0), 0);
    let result = disk.run_update(update);
    assert!(matches!(result, Err(MemoryError::ZeroSizedNotAllowed)));
    assert!(disk.files.is_empty());
}

#[test]
fn scrub_overwrites_with_zeros_before_removing() {
    let mut disk = Disk::new();
    let mut fm = disk.allocate(&[7; 9], 9).unwrap();
    let path = fm.fname().duplicate();
    let mut scrub = fm.zeroize();
    // open for writing
    let reply = disk.perform(scrub.request().unwrap());
    scrub.step(reply);
    // overwrite
    let reply = disk.perform(scrub.request().unwrap());
    scrub.step(reply);
    assert_eq!(disk.files[&key(&path)].content, vec![0u8; 9]);
    // remove
    let reply = disk.perform(scrub.request().unwrap());
    scrub.step(reply);
    assert!(scrub.request().is_none());
    assert!(disk.files.is_empty());
    assert!(scrub.finish().is_ok());
}

#[test]
fn zeroize_twice_is_harmless() {
    let mut disk = Disk::new();
    let mut fm = disk.allocate(&[7; 9], 9).unwrap();
    let mut other = disk.allocate(&[1; 4], 4).unwrap();
    disk.zeroize(&mut fm);
    disk.zeroize(&mut fm);
    assert_eq!(fm.size(), 0);
    assert!(fm.noise().is_empty());
    assert!(fm.fname().is_empty());
    assert_eq!(disk.files.len(), 1);
    assert_eq!(disk.unlock(&other).unwrap().borrow(), &[1; 4][..]);
    disk.zeroize(&mut other);
    assert!(disk.files.is_empty());
}

#[test]
fn unlock_of_an_erased_memory_is_refused() {
    let mut disk = Disk::new();
    let mut fm = disk.allocate(&[7; 9], 9).unwrap();
    disk.zeroize(&mut fm);
    assert!(matches!(fm.unlock(), Err(MemoryError::ZeroSizedNotAllowed)));
}

#[test]
fn duplicate_copies_the_file() {
    let mut disk = Disk::new();
    let fm = disk.allocate(b"twice", 5).unwrap();
    disk.log.clear();
    let copy = disk.run_allocation(fm.duplicate()).unwrap();
    assert_eq!(
        disk.log,
        vec!["mkdir", "chmod 200", "chmod 400", "copy", "chmod 0", "chmod 0"]
    );
    assert_ne!(key(copy.fname()), key(fm.fname()));
    assert_eq!(copy.noise(), fm.noise());
    assert_eq!(copy.size(), 5);
    assert_eq!(disk.files.len(), 2);
    assert_eq!(disk.files[&key(fm.fname())].mode, 0);
    assert_eq!(disk.files[&key(copy.fname())].mode, 0);
    assert_eq!(disk.unlock(&copy).unwrap().borrow(), b"twice");
    assert_eq!(disk.unlock(&fm).unwrap().borrow(), b"twice");
}

#[test]
fn duplicate_of_a_missing_file_fails() {
    let mut disk = Disk::new();
    let fm = disk.allocate(b"twice", 5).unwrap();
    disk.files.clear();
    assert!(matches!(disk.run_allocation(fm.duplicate()), Err(MemoryError::FileSystemError)));
    assert!(disk.files.is_empty());
}

#[test]
fn taken_name_makes_the_allocation_start_over() {
    let mut disk = Disk::new();
    let mut allocation = FileMemory::allocate(b"mine", 4).unwrap();
    // the folder is there
    let reply = disk.perform(allocation.request().unwrap());
    allocation.step(reply);
    // somebody else's locked file sits under the name that was drawn
    let taken = match allocation.request().unwrap() {
        FileRequest::SetAccess { path, access } => {
            assert!(matches!(access, Access::WriteOnly));
            path.duplicate()
        }
        _ => panic!("the claim is a change of access"),
    };
    disk.files.insert(key(&taken), File { mode: 0, content: b"theirs".to_vec() });
    let fm = disk.run_allocation(allocation).unwrap();
    assert_ne!(key(fm.fname()), key(&taken));
    assert_eq!(fm.fname().dir.base, taken.dir.base);
    assert_eq!(fm.fname().dir.folder, taken.dir.folder);
    assert_eq!(fm.fname().name.chars().count(), 16);
    // their file is as it was
    assert_eq!(disk.files[&key(&taken)].mode, 0);
    assert_eq!(disk.files[&key(&taken)].content, b"theirs");
    assert_eq!(disk.files.len(), 2);
    assert_eq!(disk.unlock(&fm).unwrap().borrow(), b"mine");
}

/// Runs an allocation on a store where the first `taken` names that it draws
/// are held by locked files of somebody else. Hands back the memory and the
/// names that were taken.
fn allocate_past(disk: &mut Disk, mut allocation: Allocation, taken: usize) -> (FileMemory, Vec<Key>) {
    let mut names = Vec::new();
    loop {
        let reply = match allocation.request() {
            Some(request) => {
                if let FileRequest::SetAccess { path, access: Access::WriteOnly } = request {
                    if names.len() < taken && !names.contains(&key(path)) {
                        names.push(key(path));
                        disk.files
                            .insert(key(path), File { mode: 0, content: b"theirs".to_vec() });
                    }
                }
                disk.perform(request)
            }
            None => break,
        };
        allocation.step(reply);
    }
    (allocation.finish().unwrap(), names)
}

#[test]
fn allocation_settles_past_several_taken_names() {
    let mut disk = Disk::new();
    let allocation = FileMemory::allocate(b"mine", 4).unwrap();
    let (fm, taken) = allocate_past(&mut disk, allocation, 3);
    assert_eq!(taken.len(), 3);
    assert!(!taken.contains(&key(fm.fname())));
    assert_eq!(disk.files.len(), 4);
    for name in &taken {
        assert_eq!(disk.files[name].mode, 0);
        assert_eq!(disk.files[name].content, b"theirs");
    }
    let file = &disk.files[&key(fm.fname())];
    assert_eq!(file.mode, 0);
    assert_eq!(xor(&file.content, fm.noise(), 4), b"mine");
    assert_eq!(disk.unlock(&fm).unwrap().borrow(), b"mine");
}

#[test]
fn copy_settles_past_a_taken_name() {
    let mut disk = Disk::new();
    let fm = disk.allocate(b"twice", 5).unwrap();
    let (copy, taken) = allocate_past(&mut disk, fm.duplicate(), 2);
    assert_eq!(disk.files.len(), 4);
    for name in &taken {
        assert_eq!(disk.files[name].mode, 0);
        assert_eq!(disk.files[name].content, b"theirs");
    }
    assert_eq!(disk.files[&key(fm.fname())].mode, 0);
    assert_eq!(disk.files[&key(copy.fname())].mode, 0);
    assert_eq!(disk.files[&key(copy.fname())].content, disk.files[&key(fm.fname())].content);
    assert_eq!(disk.unlock(&copy).unwrap().borrow(), b"twice");
    assert_eq!(disk.unlock(&fm).unwrap().borrow(), b"twice");
}

#[test]
fn update_replaces_past_a_taken_name() {
    let mut disk = Disk::new();
    let fm = disk.allocate(b"first", 5).unwrap();
    let old = key(fm.fname());
    let mut update = fm.update(Buffer::allocate(b"second", 6), 6);
    let mut taken: Option<Key> = None;
    loop {
        let reply = match update.request() {
            Some(request) => {
                if let FileRequest::SetAccess { path, access: Access::WriteOnly } = request {
                    if taken.is_none() && key(path) != old {
                        taken = Some(key(path));
                        disk.files
                            .insert(key(path), File { mode: 0, content: b"theirs".to_vec() });
                    }
                }
                disk.perform(request)
            }
            None => break,
        };
        update.step(reply);
    }
    let fm = update.finish().unwrap();
    let taken = taken.unwrap();
    assert!(!disk.files.contains_key(&old));
    assert_ne!(key(fm.fname()), old);
    assert_ne!(key(fm.fname()), taken);
    assert_eq!(disk.files.len(), 2);
    assert_eq!(disk.files[&taken].content, b"theirs");
    assert_eq!(disk.files[&taken].mode, 0);
    assert_eq!(disk.unlock(&fm).unwrap().borrow(), b"second");
}

#[test]
fn failed_write_gives_a_file_system_error() {
    let mut disk = Disk::new();
    disk.fail_writes = true;
    let result = disk.allocate(b"lost", 4);
    assert!(matches!(result, Err(MemoryError::FileSystemError)));
    assert!(disk.files.is_empty());
    // after the failure the allocation tried to scrub what it may have left
    assert_eq!(disk.log, vec!["mkdir", "chmod 200", "write", "chmod 200"]);
}

#[test]
fn failed_lock_scrubs_the_file() {
    let mut disk = Disk::new();
    let mut allocation = FileMemory::allocate(b"half", 4).unwrap();
    for _ in 0..3 {
        let reply = disk.perform(allocation.request().unwrap());
        allocation.step(reply);
    }
    assert_eq!(disk.files.len(), 1);
    // the lock fails
    assert!(matches!(allocation.request(), Some(FileRequest::SetAccess { .. })));
    allocation.step(FileReply::Failed);
    let result = disk.run_allocation(allocation);
    assert!(matches!(result, Err(MemoryError::FileSystemError)));
    assert!(disk.files.is_empty());
}

#[test]
fn failed_folder_gives_a_file_system_error() {
    let mut allocation = FileMemory::allocate(b"none", 4).unwrap();
    assert!(matches!(allocation.request(), Some(FileRequest::CreateDir { .. })));
    allocation.step(FileReply::Denied);
    assert!(allocation.request().is_none());
    assert!(matches!(allocation.finish(), Err(MemoryError::FileSystemError)));
}

#[test]
fn allocation_ended_early_fails() {
    let allocation = FileMemory::allocate(b"none", 4).unwrap();
    assert!(matches!(allocation.finish(), Err(MemoryError::FileSystemError)));
}

#[test]
fn single_step_tasks_set_the_access() {
    let mut disk = Disk::new();
    let fm = disk.allocate(b"bits", 4).unwrap();
    let path = key(fm.fname());
    disk.run_task(fm.set_write_only()).unwrap();
    assert_eq!(disk.files[&path].mode, 0o200);
    disk.run_task(fm.set_read_only()).unwrap();
    assert_eq!(disk.files[&path].mode, 0o400);
    disk.run_task(fm.lock_file()).unwrap();
    assert_eq!(disk.files[&path].mode, 0o000);
}

#[test]
fn write_to_file_overwrites_and_locks() {
    let mut disk = Disk::new();
    let fm = disk.allocate(b"bits", 4).unwrap();
    disk.run_task(fm.write_to_file(&[1, 2, 3, 4])).unwrap();
    let file = &disk.files[&key(fm.fname())];
    assert_eq!(file.content, vec![1, 2, 3, 4]);
    assert_eq!(file.mode, 0);
    assert_eq!(disk.run_task(fm.read_file()).unwrap(), vec![1, 2, 3, 4]);
}

#[test]
fn clear_and_delete_file_needs_the_file() {
    let mut disk = Disk::new();
    let fm = disk.allocate(b"bits", 4).unwrap();
    disk.run_task(fm.clear_and_delete_file()).unwrap();
    assert!(disk.files.is_empty());
    assert!(matches!(
        disk.run_task(fm.clear_and_delete_file()),
        Err(MemoryError::FileSystemError)
    ));
}

#[test]
fn new_fname_draws_different_names() {
    let a = FileMemory::new_fname();
    let b = FileMemory::new_fname();
    assert_ne!(a.name, b.name);
    assert_eq!(a.dir.base, b.dir.base);
    assert_eq!(a.dir.folder, FileMemory::get_dir().folder);
}
