//! File and filesystem-related syscalls

use super::number::{as_signed, to_isize};
use crate::fs::file::{known_flags, FileRef, OpenFlags, CREATE};
use crate::mm::page_table::{mapped, phys, virtual_to_phys, PageTable};
use crate::task::process::{ProcessControlBlockInner, ProcessState};
use vstd::prelude::*;

verus! {

/// Bytes to be moved between an open file and the buffer `buf` of the address space `token`.
#[derive(Clone, Copy, Debug, PartialEq, Eq, Structural)]
pub struct Transfer {
    pub file: FileRef,
    pub token: usize,
    pub buf: usize,
    pub len: usize,
}

/// How a read or a write goes on.
#[derive(Clone, Copy, Debug, PartialEq, Eq, Structural)]
pub enum TransferStep {
    /// the call returns this
    Done(isize),
    /// the bytes are to be moved; [`transfer_result`] says what the call then returns
    Perform(Transfer),
}

impl ProcessState {
    /// How a write to `fd` goes on: it needs an open file that can be written.
    pub open spec fn write_step(self, fd: usize, buf: usize, len: usize) -> TransferStep {
        if self.is_open(fd as int) && self.fd_table[fd as int]->0.writable {
            TransferStep::Perform(
                Transfer {
                    file: self.fd_table[fd as int]->0,
                    token: self.memory_set.token,
                    buf,
                    len,
                },
            )
        } else {
            TransferStep::Done((-1) as isize)
        }
    }

    /// How a read from `fd` goes on: it needs an open file that can be read.
    pub open spec fn read_step(self, fd: usize, buf: usize, len: usize) -> TransferStep {
        if self.is_open(fd as int) && self.fd_table[fd as int]->0.readable {
            TransferStep::Perform(
                Transfer {
                    file: self.fd_table[fd as int]->0,
                    token: self.memory_set.token,
                    buf,
                    len,
                },
            )
        } else {
            TransferStep::Done((-1) as isize)
        }
    }

    /// The file that a name stands for: what it is linked to, else itself.
    pub open spec fn resolve(self, path: Seq<char>) -> Seq<char> {
        if self.links.contains_key(path) {
            self.links[path]
        } else {
            path
        }
    }

    /// The names that stand for the file `path`.
    pub open spec fn names_of(self, path: Seq<char>) -> Set<Seq<char>> {
        self.links.dom().filter(|name: Seq<char>| self.links[name] == path)
    }

    /// How many names stand for the file `path`.
    pub open spec fn link_count(self, path: Seq<char>) -> nat {
        self.names_of(path).len()
    }

    /// Whether some name stands for the file `path`.
    pub open spec fn has_name(self, path: Seq<char>) -> bool {
        exists|name: Seq<char>| #[trigger]
            self.links.contains_key(name) && self.links[name] == path
    }

    /// The process once `file`, the file that `path` stands for, is open at the descriptor `fd`.
    pub open spec fn after_open(
        self,
        path: Seq<char>,
        flags: u32,
        file: FileRef,
        fd: int,
    ) -> ProcessState {
        let target = self.resolve(path);
        ProcessState {
            fd_table: self.with_fd(fd).fd_table.update(fd, Some(file)),
            names: self.names.insert(target, fd as usize),
            links: if flags & CREATE != 0 {
                self.links.insert(target, target)
            } else {
                self.links
            },
            ..self
        }
    }

    /// The process once the descriptor `fd` is closed: the file is no longer open there, nor
    /// known by a name.
    pub open spec fn after_close(self, fd: usize) -> ProcessState {
        ProcessState {
            fd_table: self.fd_table.update(fd as int, None),
            names: Map::new(
                |name: Seq<char>| self.names.contains_key(name) && self.names[name] != fd,
                |name: Seq<char>| self.names[name],
            ),
            ..self
        }
    }

    /// Whether closing the descriptor `fd` can leave `after`: the file is no longer open there, and
    /// a name that the descriptor had, if there was one, is gone.
    pub open spec fn closes_to(self, fd: usize, after: ProcessState) -> bool {
        let closed = ProcessState { fd_table: self.fd_table.update(fd as int, None), ..self };
        if exists|name: Seq<char>| #[trigger] self.is_name_of(name, fd) {
            exists|name: Seq<char>| #[trigger]
                self.is_name_of(name, fd) && after == (ProcessState {
                    names: self.names.remove(name),
                    ..closed
                })
        } else {
            after == closed
        }
    }

    /// Whether the descriptor `fd` is known by the name `name`.
    pub open spec fn is_name_of(self, name: Seq<char>, fd: usize) -> bool {
        self.names.contains_key(name) && self.names[name] == fd
    }

    /// The process once `old_name` stands for the file `new_name`.
    pub open spec fn after_link(self, old_name: Seq<char>, new_name: Seq<char>) -> ProcessState {
        ProcessState { links: self.links.insert(old_name, new_name), ..self }
    }

    /// What linking `old_name` to `new_name` comes to: two equal names are not linked; and it
    /// fails, with the link made, if `old_name` is known as a descriptor at which no file is open.
    pub open spec fn link_outcome(self, old_name: Seq<char>, new_name: Seq<char>) -> LinkOutcome {
        if old_name == new_name {
            LinkOutcome { ret: (-1) as isize, linked: None }
        } else {
            let linked = self.file_named(old_name);
            LinkOutcome {
                ret: if self.names.contains_key(old_name) && linked is None {
                    (-1) as isize
                } else {
                    0
                },
                linked,
            }
        }
    }

    /// The process once the file that `name` stands for has lost its own name.
    pub open spec fn after_unlink(self, name: Seq<char>) -> ProcessState {
        if self.links.contains_key(name) {
            ProcessState { links: self.links.remove(self.links[name]), ..self }
        } else {
            self
        }
    }

    /// What unlinking `name` comes to: it succeeds if `name` stands for a file that has a name
    /// of its own; the file open under that name loses a link; and what is under `name` is to be
    /// emptied if afterwards no name stands for the file.
    pub open spec fn unlink_outcome(self, name: Seq<char>) -> UnlinkOutcome {
        if self.links.contains_key(name) {
            let path = self.links[name];
            UnlinkOutcome {
                ret: if self.links.contains_key(path) {
                    0
                } else {
                    (-1) as isize
                },
                unlinked: self.file_named(path),
                clear: !self.after_unlink(name).has_name(path),
            }
        } else {
            UnlinkOutcome { ret: (-1) as isize, unlinked: None, clear: false }
        }
    }

    /// The file open under the name `path`.
    pub open spec fn file_named(self, path: Seq<char>) -> Option<FileRef> {
        if self.names.contains_key(path) && self.is_open(self.names[path] as int) {
            self.fd_table[self.names[path] as int]
        } else {
            None
        }
    }
}

/// The count of the names that stand for a file is zero exactly if there are none.
pub proof fn lemma_link_count(process: ProcessState, path: Seq<char>)
    requires
        process.links.dom().finite(),
    ensures
        process.link_count(path) == 0 <==> !process.has_name(path),
{
    let standing = process.names_of(path);
    vstd::set_lib::lemma_set_empty_equivalency_len(standing);
    if process.has_name(path) {
        let name = choose|name: Seq<char>| #[trigger]
            process.links.contains_key(name) && process.links[name] == path;
        assert(standing.contains(name));
    } else {
        assert(standing =~= Set::<Seq<char>>::empty());
    }
}

/// current process writes `len` bytes from `buf` to a file
pub fn sys_write(
    inner: &ProcessControlBlockInner,
    fd: usize,
    buf: usize,
    len: usize,
) -> (result: TransferStep)
    ensures
        result == inner@.write_step(fd, buf, len),
{
    let token: usize = inner.get_user_token();
    if fd >= inner.fd_table.len() {
        return TransferStep::Done(-1);
    }
    if let Some(file) = inner.fd_table[fd] {
        if !file.writable {
            return TransferStep::Done(-1);
        }
        TransferStep::Perform(Transfer { file, token, buf, len })
    } else {
        TransferStep::Done(-1)
    }
}

/// current process reads up to `len` bytes from a file into `buf`
pub fn sys_read(
    inner: &ProcessControlBlockInner,
    fd: usize,
    buf: usize,
    len: usize,
) -> (result: TransferStep)
    ensures
        result == inner@.read_step(fd, buf, len),
{
    let token: usize = inner.get_user_token();
    if fd >= inner.fd_table.len() {
        return TransferStep::Done(-1);
    }
    if let Some(file) = inner.fd_table[fd] {
        if !file.readable {
            return TransferStep::Done(-1);
        }
        TransferStep::Perform(Transfer { file, token, buf, len })
    } else {
        TransferStep::Done(-1)
    }
}

/// What a read or a write returns when `count` bytes were moved.
pub fn transfer_result(count: usize) -> (result: isize)
    ensures
        result == as_signed(count as int),
{
    to_isize(count)
}

/// What opening a file comes to.
#[derive(Clone, Copy, Debug, PartialEq, Eq, Structural)]
pub struct OpenOutcome {
    /// what the call returns: the descriptor, or -1
    pub ret: isize,
    /// by how much the file's link count is to be increased
    pub more_links: usize,
}

/// The file that is to be opened for `path`.
pub fn open_target(inner: &ProcessControlBlockInner, path: &String) -> (result: String)
    ensures
        result@ == inner@.resolve(path@),
{
    match inner.links.get(path) {
        Some(real_path) => real_path.clone(),
        None => path.clone(),
    }
}

/// current process opens the file `path`; `opened` is the file that [`open_target`] names, if it
/// could be opened
pub fn sys_open(
    inner: &mut ProcessControlBlockInner,
    path: &String,
    flags: u32,
    opened: Option<FileRef>,
) -> (outcome: OpenOutcome)
    requires
        known_flags(flags),
    ensures
        old(inner)@.wf() ==> final(inner)@.wf(),
        match opened {
            Some(file) => {
                let fd = old(inner)@.free_fd();
                let after = old(inner)@.after_open(path@, flags, file, fd);
                let links = after.link_count(old(inner)@.resolve(path@)) as int;
                &&& final(inner)@ == after
                &&& after.links.dom().finite()
                &&& outcome.ret == as_signed(fd)
                &&& outcome.more_links == if links > 1 {
                    links - 1
                } else {
                    0
                }
            },
            None => {
                &&& final(inner)@ == old(inner)@
                &&& outcome.ret == -1
                &&& outcome.more_links == 0
            },
        },
{
    let ghost before = inner@;
    let real_path = open_target(inner, path);
    let open_flags = OpenFlags::from_bits(flags).unwrap();
    match opened {
        Some(file) => {
            let fd: usize = inner.alloc_fd();
            proof {
                before.lemma_free_fd(fd as int);
            }
            inner.fd_table[fd] = Some(file);
            inner.names.insert(real_path.clone(), fd);
            if open_flags.creates() {
                inner.links.insert(real_path.clone(), real_path.clone());
            }
            assert(inner@ =~= before.after_open(path@, flags, file, fd as int));
            proof {
                if before.wf() {
                    lemma_open_wf(before, path@, flags, file, fd as int);
                }
            }
            let count: usize = inner.links.count_of(&real_path);
            let more_links: usize = if count > 1 {
                count - 1
            } else {
                0
            };
            OpenOutcome { ret: to_isize(fd), more_links }
        },
        None => OpenOutcome { ret: -1, more_links: 0 },
    }
}

/// Opening a file at a free descriptor keeps the process in order.
proof fn lemma_open_wf(
    process: ProcessState,
    path: Seq<char>,
    flags: u32,
    file: FileRef,
    fd: int,
)
    requires
        process.wf(),
        process.lowest_free(fd),
        fd <= usize::MAX,
    ensures
        process.after_open(path, flags, file, fd).wf(),
{
    let after = process.after_open(path, flags, file, fd);
    let target = process.resolve(path);
    assert forall|name: Seq<char>| #[trigger] after.names.contains_key(name) implies after.is_open(
        after.names[name] as int,
    ) by {
        if name != target {
            assert(process.names.contains_key(name));
        }
    }
    assert forall|a: Seq<char>, b: Seq<char>|
        #![trigger after.names[a], after.names[b]]
        after.names.contains_key(a) && after.names.contains_key(b) && after.names[a]
            == after.names[b] implies a == b by {
        assert(a != target ==> process.names.contains_key(a) && process.names[a] == after.names[a]);
        assert(b != target ==> process.names.contains_key(b) && process.names[b] == after.names[b]);
    }
}

/// current process closes a file
pub fn sys_close(inner: &mut ProcessControlBlockInner, fd: usize) -> (ret: isize)
    ensures
        old(inner)@.wf() ==> final(inner)@.wf(),
        if old(inner)@.is_open(fd as int) {
            &&& ret == 0
            &&& old(inner)@.closes_to(fd, final(inner)@)
            &&& old(inner)@.wf() ==> final(inner)@ == old(inner)@.after_close(fd)
        } else {
            ret == -1 && final(inner)@ == old(inner)@
        },
{
    let ghost before = inner@;
    if fd >= inner.fd_table.len() {
        return -1;
    }
    if inner.fd_table[fd].is_none() {
        return -1;
    }
    inner.fd_table[fd] = None;
    match inner.names.name_of(fd) {
        Some(name) => {
            let _ = inner.names.remove(&name);
            assert(before.is_name_of(name@, fd));
            assert(inner@ =~= ProcessState {
                fd_table: before.fd_table.update(fd as int, None),
                names: before.names.remove(name@),
                ..before
            });
        },
        None => {
            assert(inner@ =~= ProcessState {
                fd_table: before.fd_table.update(fd as int, None),
                ..before
            });
        },
    }
    proof {
        if before.wf() {
            lemma_closes_to(before, fd, inner@);
            lemma_close_wf(before, fd);
        }
    }
    0
}

/// With one name at most for each descriptor, what closing leaves is fixed.
proof fn lemma_closes_to(process: ProcessState, fd: usize, after: ProcessState)
    requires
        process.wf(),
        process.closes_to(fd, after),
    ensures
        after == process.after_close(fd),
{
    assert forall|name: Seq<char>| #[trigger] after.names.contains_key(name) implies {
        &&& process.after_close(fd).names.contains_key(name)
        &&& after.names[name] == process.names[name]
    } by {
        if process.is_name_of(name, fd) {
            let gone = choose|gone: Seq<char>| #[trigger]
                process.is_name_of(gone, fd) && after == (ProcessState {
                    fd_table: process.fd_table.update(fd as int, None),
                    names: process.names.remove(gone),
                    ..process
                });
            assert(process.names[name] == process.names[gone]);
        }
    }
    assert(after.names =~= process.after_close(fd).names);
    assert(after =~= process.after_close(fd));
}

/// Closing a descriptor keeps the process in order.
proof fn lemma_close_wf(process: ProcessState, fd: usize)
    requires
        process.wf(),
        process.is_open(fd as int),
    ensures
        process.after_close(fd).wf(),
{
    let after = process.after_close(fd);
    assert forall|name: Seq<char>| #[trigger] after.names.contains_key(name) implies after.is_open(
        after.names[name] as int,
    ) by {
        assert(process.names.contains_key(name));
    }
    assert forall|a: Seq<char>, b: Seq<char>|
        #![trigger after.names[a], after.names[b]]
        after.names.contains_key(a) && after.names.contains_key(b) && after.names[a]
            == after.names[b] implies a == b by {
        assert(process.names[a] == process.names[b]);
    }
}

/// A file's status to be written at a physical address.
#[derive(Clone, Copy, Debug, PartialEq, Eq, Structural)]
pub struct StatCopy {
    pub file: FileRef,
    pub at: usize,
}

/// What asking for a file's status comes to.
#[derive(Clone, Copy, Debug, PartialEq, Eq, Structural)]
pub struct StatOutcome {
    /// what the call returns
    pub ret: isize,
    /// the status that is to be written first
    pub copy: Option<StatCopy>,
}

/// current process asks for the status of a file, to be left at `st`
pub fn sys_fstat(
    inner: &ProcessControlBlockInner,
    table: &PageTable,
    fd: usize,
    st: usize,
) -> (outcome: StatOutcome)
    requires
        table.wf(),
        fd != inner@.fd_table.len(),
        inner@.is_open(fd as int) ==> mapped(table@, st as int),
    ensures
        outcome == if inner@.is_open(fd as int) {
            StatOutcome {
                ret: 0,
                copy: Some(
                    StatCopy {
                        file: inner@.fd_table[fd as int]->0,
                        at: phys(table@, st as int) as usize,
                    },
                ),
            }
        } else {
            StatOutcome { ret: (-1) as isize, copy: None }
        },
{
    if fd > inner.fd_table.len() {
        return StatOutcome { ret: -1, copy: None };
    }
    if let Some(file) = inner.fd_table[fd] {
        let at: usize = virtual_to_phys(table, st);
        StatOutcome { ret: 0, copy: Some(StatCopy { file, at }) }
    } else {
        StatOutcome { ret: -1, copy: None }
    }
}

/// What linking comes to.
#[derive(Clone, Copy, Debug, PartialEq, Eq, Structural)]
pub struct LinkOutcome {
    /// what the call returns
    pub ret: isize,
    /// the open file whose link count is to be increased by one
    pub linked: Option<FileRef>,
}

/// current process makes `old_name` stand for the file `new_name`
pub fn sys_linkat(
    inner: &mut ProcessControlBlockInner,
    old_name: &String,
    new_name: &String,
) -> (outcome: LinkOutcome)
    requires
        old_name@ != new_name@ && old(inner)@.names.contains_key(old_name@)
            ==> old(inner)@.names[old_name@] != old(inner)@.fd_table.len(),
    ensures
        old(inner)@.wf() ==> final(inner)@.wf(),
        outcome == old(inner)@.link_outcome(old_name@, new_name@),
        final(inner)@ == if old_name@ == new_name@ {
            old(inner)@
        } else {
            old(inner)@.after_link(old_name@, new_name@)
        },
{
    if *old_name == *new_name {
        return LinkOutcome { ret: -1, linked: None };
    }
    inner.links.insert(old_name.clone(), new_name.clone());
    match inner.names.get(old_name) {
        Some(fd) => {
            let fd: usize = *fd;
            if fd > inner.fd_table.len() {
                return LinkOutcome { ret: -1, linked: None };
            }
            if let Some(file) = inner.fd_table[fd] {
                LinkOutcome { ret: 0, linked: Some(file) }
            } else {
                LinkOutcome { ret: -1, linked: None }
            }
        },
        None => LinkOutcome { ret: 0, linked: None },
    }
}

/// What unlinking comes to.
#[derive(Clone, Copy, Debug, PartialEq, Eq, Structural)]
pub struct UnlinkOutcome {
    /// what the call returns
    pub ret: isize,
    /// the open file whose link count is to be decreased by one
    pub unlinked: Option<FileRef>,
    /// whether the file under the name given, if there is one, is to be emptied
    pub clear: bool,
}

/// current process takes out the file that `name` stands for
pub fn sys_unlinkat(
    inner: &mut ProcessControlBlockInner,
    name: &String,
) -> (outcome: UnlinkOutcome)
    requires
        old(inner)@.links.contains_key(name@) && old(inner)@.names.contains_key(
            old(inner)@.links[name@],
        ) ==> old(inner)@.names[old(inner)@.links[name@]] < old(inner)@.fd_table.len(),
    ensures
        old(inner)@.wf() ==> final(inner)@.wf(),
        final(inner)@ == old(inner)@.after_unlink(name@),
        outcome == old(inner)@.unlink_outcome(name@),
{
    let path: String = match inner.links.get(name) {
        Some(path) => path.clone(),
        None => {
            return UnlinkOutcome { ret: -1, unlinked: None, clear: false };
        },
    };
    let removed = inner.links.remove(&path);
    let unlinked: Option<FileRef> = match inner.names.get(&path) {
        Some(fd) => inner.fd_table[*fd],
        None => None,
    };
    let count: usize = inner.links.count_of(&path);
    proof {
        lemma_link_count(inner@, path@);
    }
    let ret: isize = if removed.is_some() {
        0
    } else {
        -1
    };
    UnlinkOutcome { ret, unlinked, clear: count == 0 }
}

} // verus!
