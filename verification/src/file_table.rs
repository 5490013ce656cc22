//! The table of open files: which kind of socket stands behind each file
//! descriptor.

use crate::fail::Fail;
use slab::Slab;
use vstd::prelude::*;

verus! {

/// File Descriptor
pub type FileDescriptor = u32;

/// The largest number of files that can be open at once. Every descriptor is
/// below it.
pub const MAX_OPEN_FILES: usize = 0x10_0000;

/// File Types
#[derive(Clone, Copy, Debug, Eq, PartialEq, Structural)]
pub enum File {
    TcpSocket,
    UdpSocket,
}

#[verifier::external_type_specification]
#[verifier::external_body]
#[verifier::reject_recursive_types(T)]
pub struct ExSlab<T>(Slab<T>);

/// The table without files.
pub open spec fn no_files() -> Map<int, File> {
    Map::empty()
}

/// The files that `slab` holds, each under its key.
pub uninterp spec fn slab_files(slab: Slab<File>) -> Map<int, File>;

/// The key under which `slab` will store the next file.
pub uninterp spec fn slab_vacant_key(slab: Slab<File>) -> int;

/// Calls `Slab::new`, which makes a slab that holds nothing and whose first
/// key is 0.
#[verifier::external_body]
fn slab_new() -> (made: Slab<File>)
    ensures
        slab_files(made) == no_files(),
        slab_vacant_key(made) == 0,
{
    Slab::new()
}

/// Calls `Slab::vacant_key`, which returns the key that the next insertion
/// will use. No value is stored under that key.
#[verifier::external_body]
fn slab_next_key(slab: &Slab<File>) -> (key: usize)
    ensures
        key == slab_vacant_key(*slab),
        !slab_files(*slab).dom().contains(key as int),
{
    slab.vacant_key()
}

/// Calls `Slab::insert`, which stores `file` under the vacant key and
/// returns that key; what was stored before stays under its keys. The slab
/// grows by at most one entry, which cannot exhaust the address space while
/// the key is below the limit on open files.
#[verifier::external_body]
fn slab_insert(slab: &mut Slab<File>, file: File) -> (key: usize)
    requires
        slab_vacant_key(*old(slab)) < MAX_OPEN_FILES,
    ensures
        key == slab_vacant_key(*old(slab)),
        slab_files(*final(slab)) == slab_files(*old(slab)).insert(key as int, file),
{
    slab.insert(file)
}

/// Calls `Slab::contains`, which says whether a value is stored under `key`.
#[verifier::external_body]
fn slab_contains(slab: &Slab<File>, key: usize) -> (found: bool)
    ensures
        found == slab_files(*slab).dom().contains(key as int),
{
    slab.contains(key)
}

/// Calls `Slab::get`, which returns the value stored under `key`, if there
/// is one, and copies it.
#[verifier::external_body]
fn slab_get(slab: &Slab<File>, key: usize) -> (file: Option<File>)
    ensures
        file == if slab_files(*slab).dom().contains(key as int) {
            Some(slab_files(*slab)[key as int])
        } else {
            None::<File>
        },
{
    slab.get(key).cloned()
}

/// Calls `Slab::remove`, which takes the value stored under `key` out of
/// the slab and returns it; the other values stay, and `key` is the key
/// that the next insertion will use. It panics where nothing is stored
/// under `key`.
#[verifier::external_body]
fn slab_remove(slab: &mut Slab<File>, key: usize) -> (file: File)
    requires
        slab_files(*old(slab)).dom().contains(key as int),
    ensures
        file == slab_files(*old(slab))[key as int],
        slab_files(*final(slab)) == slab_files(*old(slab)).remove(key as int),
        slab_vacant_key(*final(slab)) == key,
{
    slab.remove(key)
}

/// File Table
pub struct FileTable {
    table: Slab<File>,
}

impl FileTable {
    /// The open files, each under its descriptor.
    pub closed spec fn view(&self) -> Map<int, File> {
        slab_files(self.table)
    }

    /// The descriptor that the next file gets, if the table has room for it.
    pub closed spec fn next_descriptor(&self) -> int {
        slab_vacant_key(self.table)
    }

    /// Creates a file table.
    pub fn new() -> (table: Self)
        ensures
            table@ == no_files(),
            table.next_descriptor() == 0,
    {
        FileTable { table: slab_new() }
    }

    /// Allocates a new entry in the target file descriptor table. The table
    /// is full, and left as it is, where the next descriptor would reach the
    /// limit on open files.
    pub fn allocate(&mut self, file: File) -> (fd: Result<FileDescriptor, Fail>)
        ensures
            fd is Ok <==> old(self).next_descriptor() < MAX_OPEN_FILES,
            fd matches Ok(descriptor) ==> {
                &&& descriptor == old(self).next_descriptor()
                &&& !old(self)@.dom().contains(descriptor as int)
                &&& final(self)@ == old(self)@.insert(descriptor as int, file)
            },
            fd matches Err(fail) ==> {
                &&& fail matches Fail::ResourceExhausted { details }
                &&& final(self)@ == old(self)@
                &&& final(self).next_descriptor() == old(self).next_descriptor()
            },
    {
        if slab_next_key(&self.table) >= MAX_OPEN_FILES {
            return Err(Fail::ResourceExhausted { details: "too many open files" });
        }
        let ix = slab_insert(&mut self.table, file);
        Ok(ix as FileDescriptor)
    }

    /// Gets the file associated with a file descriptor.
    pub fn get(&self, fd: FileDescriptor) -> (file: Option<File>)
        ensures
            file == if self@.dom().contains(fd as int) {
                Some(self@[fd as int])
            } else {
                None::<File>
            },
    {
        if !slab_contains(&self.table, fd as usize) {
            return None;
        }
        slab_get(&self.table, fd as usize)
    }

    /// Releases an entry in the target file descriptor table.
    pub fn free(&mut self, fd: FileDescriptor) -> (file: Option<File>)
        ensures
            file == if old(self)@.dom().contains(fd as int) {
                Some(old(self)@[fd as int])
            } else {
                None::<File>
            },
            final(self)@ == old(self)@.remove(fd as int),
            final(self).next_descriptor() == if old(self)@.dom().contains(fd as int) {
                fd as int
            } else {
                old(self).next_descriptor()
            },
    {
        if !slab_contains(&self.table, fd as usize) {
            assert(self@ =~= old(self)@.remove(fd as int));
            return None;
        }
        Some(slab_remove(&mut self.table, fd as usize))
    }
}

impl Default for FileTable {
    fn default() -> (table: Self)
        ensures
            table@ == no_files(),
            table.next_descriptor() == 0,
    {
        Self::new()
    }
}

} // verus!
