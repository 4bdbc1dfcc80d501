//! Open files, names and links.

use crate::fs::file::{known_flags, FileRef, CREATE};
use crate::syscall::fs::{lemma_link_count, TransferStep};
use crate::task::process::ProcessState;
use vstd::prelude::*;

verus! {

/// There is always a lowest free descriptor.
pub proof fn law_free_fd_exists(process: ProcessState)
    ensures
        process.lowest_free(process.free_fd()),
{
    lemma_first_free(process, 0);
}

/// From `fd` on, with all below open, a lowest free descriptor is found.
proof fn lemma_first_free(process: ProcessState, fd: int)
    requires
        0 <= fd <= process.fd_table.len(),
        forall|k: int| 0 <= k < fd ==> process.is_open(k),
    ensures
        process.lowest_free(process.free_fd()),
    decreases process.fd_table.len() - fd,
{
    if process.is_open(fd) {
        lemma_first_free(process, fd + 1);
    } else {
        assert(process.lowest_free(fd));
    }
}

/// A file is opened at a descriptor that was free. From then on the file is what is open there
/// and what its name leads to, and every other descriptor is as it was.
pub proof fn law_open(process: ProcessState, path: Seq<char>, flags: u32, file: FileRef)
    requires
        process.free_fd() <= usize::MAX,
    ensures
        ({
            let fd = process.free_fd();
            let after = process.after_open(path, flags, file, fd);
            &&& !process.is_open(fd)
            &&& after.is_open(fd)
            &&& after.fd_table[fd] == Some(file)
            &&& after.file_named(process.resolve(path)) == Some(file)
            &&& forall|k: int| k != fd ==> (#[trigger] after.is_open(k) <==> process.is_open(k))
            &&& forall|k: int|
                k != fd && process.is_open(k) ==> #[trigger] after.fd_table[k]
                    == process.fd_table[k]
        }),
{
    law_free_fd_exists(process);
}

/// Closing the descriptor that a file was opened at leaves the open files as they were before,
/// and the descriptor is the one that is handed out next.
pub proof fn law_close_undoes_open(
    process: ProcessState,
    path: Seq<char>,
    flags: u32,
    file: FileRef,
)
    requires
        process.free_fd() <= usize::MAX,
    ensures
        ({
            let fd = process.free_fd();
            let after = process.after_open(path, flags, file, fd).after_close(fd as usize);
            &&& after.fd_table == process.with_fd(fd).fd_table
            &&& forall|k: int| #[trigger] after.is_open(k) <==> process.is_open(k)
            &&& after.free_fd() == fd
            &&& !after.names.contains_key(process.resolve(path))
        }),
{
    law_free_fd_exists(process);
    let fd = process.free_fd();
    let after = process.after_open(path, flags, file, fd).after_close(fd as usize);
    assert(after.fd_table =~= process.with_fd(fd).fd_table);
    assert forall|k: int| #[trigger] after.is_open(k) <==> process.is_open(k) by {}
    after.lemma_free_fd(fd);
}

/// What is closed can neither be read nor written, and cannot be closed again.
pub proof fn law_closed_is_refused(process: ProcessState, fd: usize, buf: usize, len: usize)
    requires
        process.is_open(fd as int),
    ensures
        process.after_close(fd).read_step(fd, buf, len) == TransferStep::Done((-1) as isize),
        process.after_close(fd).write_step(fd, buf, len) == TransferStep::Done((-1) as isize),
        !process.after_close(fd).is_open(fd as int),
{
}

/// A descriptor that is closed is handed out again before any higher one.
pub proof fn law_lowest_descriptor_reused(process: ProcessState, fd: usize)
    requires
        process.is_open(fd as int),
        fd < process.free_fd(),
    ensures
        process.after_close(fd).free_fd() == fd,
{
    law_free_fd_exists(process);
    let after = process.after_close(fd);
    assert(after.lowest_free(fd as int)) by {
        assert forall|k: int| 0 <= k < fd implies after.is_open(k) by {
            assert(process.is_open(k));
        }
    }
    after.lemma_free_fd(fd as int);
}

/// A read moves bytes of the file that is open there into the buffer given, a write from it;
/// neither happens with a file that does not allow it.
pub proof fn law_transfers_as_allowed(process: ProcessState, fd: usize, buf: usize, len: usize)
    ensures
        process.read_step(fd, buf, len) matches TransferStep::Perform(t) ==> {
            &&& process.fd_table[fd as int] == Some(t.file)
            &&& t.file.readable
            &&& t.buf == buf && t.len == len && t.token == process.memory_set.token
        },
        process.write_step(fd, buf, len) matches TransferStep::Perform(t) ==> {
            &&& process.fd_table[fd as int] == Some(t.file)
            &&& t.file.writable
            &&& t.buf == buf && t.len == len && t.token == process.memory_set.token
        },
{
}

/// A file that was created has its own name. Unlinking that succeeds once and leaves every other
/// name as it was.
pub proof fn law_created_can_be_unlinked(
    process: ProcessState,
    path: Seq<char>,
    flags: u32,
    file: FileRef,
    fd: int,
)
    requires
        flags & CREATE != 0,
    ensures
        ({
            let after = process.after_open(path, flags, file, fd);
            let target = process.resolve(path);
            &&& after.resolve(target) == target
            &&& after.unlink_outcome(target).ret == 0
            &&& after.after_unlink(target).unlink_outcome(target).ret == -1
            &&& after.after_unlink(target).links == process.links.remove(target)
        }),
{
    let after = process.after_open(path, flags, file, fd);
    let target = process.resolve(path);
    assert(after.after_unlink(target).links =~= process.links.remove(target));
}

/// Unlinking a name that stands for nothing fails and changes nothing.
pub proof fn law_unknown_name_not_unlinked(process: ProcessState, name: Seq<char>)
    requires
        !process.links.contains_key(name),
    ensures
        process.unlink_outcome(name).ret == -1,
        !process.unlink_outcome(name).clear,
        process.after_unlink(name) == process,
{
}

/// A file is emptied exactly when unlinking leaves no name that stands for it, that is, when their
/// count has come to zero.
pub proof fn law_emptied_with_last_name(process: ProcessState, name: Seq<char>)
    requires
        process.wf(),
        process.links.contains_key(name),
    ensures
        process.unlink_outcome(name).clear <==> forall|other: Seq<char>| #[trigger]
            process.after_unlink(name).links.contains_key(other)
                ==> process.after_unlink(name).links[other] != process.links[name],
        process.unlink_outcome(name).clear <==> process.after_unlink(name).link_count(
            process.links[name],
        ) == 0,
{
    lemma_link_count(process.after_unlink(name), process.links[name]);
}

/// Linking fails with the link made exactly if the name is known as a descriptor at which no file
/// is open; the open files and their names are untouched, and in a process in order it never
/// happens.
pub proof fn law_link_refused(process: ProcessState, old_name: Seq<char>, new_name: Seq<char>)
    requires
        old_name != new_name,
    ensures
        process.link_outcome(old_name, new_name).ret == -1
            <==> process.names.contains_key(old_name) && !process.is_open(
            process.names[old_name] as int,
        ),
        process.link_outcome(old_name, new_name).ret == -1 || process.link_outcome(
            old_name,
            new_name,
        ).ret == 0,
        process.after_link(old_name, new_name).links[old_name] == new_name,
        process.after_link(old_name, new_name).names == process.names,
        process.after_link(old_name, new_name).fd_table == process.fd_table,
        process.wf() ==> process.link_outcome(old_name, new_name).ret == 0,
{
}

/// Once `old_name` is linked to `new_name`, opening it opens that file; what any other name
/// stands for has not changed.
pub proof fn law_link_leads(process: ProcessState, old_name: Seq<char>, new_name: Seq<char>)
    ensures
        process.after_link(old_name, new_name).resolve(old_name) == new_name,
        forall|path: Seq<char>|
            path != old_name ==> #[trigger] process.after_link(old_name, new_name).resolve(path)
                == process.resolve(path),
{
}

/// A file is open at a descriptor if the table has a file there.
pub proof fn law_open_descriptors(process: ProcessState, fd: int)
    ensures
        process.is_open(fd) <==> 0 <= fd < process.fd_table.len() && process.fd_table[fd] is Some,
{
}

/// Bytes are written exactly if the descriptor has a file that can be written: from the buffer
/// given, in the process's own memory, to that file. Else the answer is -1.
pub proof fn law_write(process: ProcessState, fd: usize, buf: usize, len: usize)
    ensures
        fd < process.fd_table.len() && (process.fd_table[fd as int] matches Some(file)
            && file.writable) ==> {
            &&& process.write_step(fd, buf, len) matches TransferStep::Perform(t)
            &&& process.fd_table[fd as int] == Some(t.file)
            &&& t.token == process.memory_set.token
            &&& t.buf == buf
            &&& t.len == len
        },
        !(fd < process.fd_table.len() && (process.fd_table[fd as int] matches Some(file)
            && file.writable)) ==> {
            &&& process.write_step(fd, buf, len) matches TransferStep::Done(ret)
            &&& ret == -1
        },
{
}

/// Bytes are read exactly if the descriptor has a file that can be read: from that file, into the
/// buffer given, in the process's own memory. Else the answer is -1.
pub proof fn law_read(process: ProcessState, fd: usize, buf: usize, len: usize)
    ensures
        fd < process.fd_table.len() && (process.fd_table[fd as int] matches Some(file)
            && file.readable) ==> {
            &&& process.read_step(fd, buf, len) matches TransferStep::Perform(t)
            &&& process.fd_table[fd as int] == Some(t.file)
            &&& t.token == process.memory_set.token
            &&& t.buf == buf
            &&& t.len == len
        },
        !(fd < process.fd_table.len() && (process.fd_table[fd as int] matches Some(file)
            && file.readable)) ==> {
            &&& process.read_step(fd, buf, len) matches TransferStep::Done(ret)
            &&& ret == -1
        },
{
}

/// A name that was linked stands for what it was linked to, any other for itself.
pub proof fn law_resolve(process: ProcessState, path: Seq<char>)
    ensures
        process.links.contains_key(path) ==> process.resolve(path) == process.links[path],
        !process.links.contains_key(path) ==> process.resolve(path) == path,
{
}

/// The files that the console is: the input can be read only, the output written only, and they
/// are two.
pub proof fn law_console()
    ensures
        FileRef::spec_stdin().readable && !FileRef::spec_stdin().writable,
        FileRef::spec_stdout().writable && !FileRef::spec_stdout().readable,
        FileRef::spec_stdin().id != FileRef::spec_stdout().id,
{
}

/// The flags that mean something are the bits 0, 1, 9 and 10.
pub proof fn law_known_flags(flags: u32)
    ensures
        known_flags(flags) <==> {
            &&& flags / 4 % 128 == 0
            &&& flags / 2048 == 0
        },
{
    assert(flags & !(0x1u32 | 0x2u32 | 0x200u32 | 0x400u32) == 0 <==> flags / 4 % 128 == 0 && flags
        / 2048 == 0) by (bit_vector);
}

/// Opening enters the file at the descriptor, whatever stands at the others, and the descriptor
/// under the name of the file that `path` stands for. With bit 9 of the flags that name stands for
/// the file itself from then on; without it no link changes. Nothing else of the process changes.
pub proof fn law_open_enters(
    process: ProcessState,
    path: Seq<char>,
    flags: u32,
    file: FileRef,
    fd: usize,
)
    requires
        fd <= process.fd_table.len(),
    ensures
        ({
            let target = if process.links.contains_key(path) {
                process.links[path]
            } else {
                path
            };
            let after = process.after_open(path, flags, file, fd as int);
            &&& after == (ProcessState {
                fd_table: after.fd_table,
                names: after.names,
                links: after.links,
                ..process
            })
            &&& after.fd_table == if fd < process.fd_table.len() {
                process.fd_table.update(fd as int, Some(file))
            } else {
                process.fd_table.push(Some(file))
            }
            &&& after.names == process.names.insert(target, fd)
            &&& flags / 512 % 2 == 1 ==> after.links == process.links.insert(target, target)
            &&& flags / 512 % 2 == 0 ==> after.links == process.links
        }),
{
    assert(flags & 0x200 != 0 <==> flags / 512 % 2 == 1) by (bit_vector);
    let after = process.after_open(path, flags, file, fd as int);
    if fd == process.fd_table.len() {
        assert(after.fd_table =~= process.fd_table.push(Some(file)));
    }
}

/// The names of a file are those that stand for it, and their count is how many they are; there is
/// a name if some name stands for it.
pub proof fn law_names_of(process: ProcessState, path: Seq<char>)
    ensures
        forall|name: Seq<char>| #[trigger]
            process.names_of(path).contains(name) <==> process.links.contains_key(name)
                && process.links[name] == path,
        process.link_count(path) == process.names_of(path).len(),
        process.has_name(path) <==> exists|name: Seq<char>| #[trigger]
            process.links.contains_key(name) && process.links[name] == path,
{
}

/// The file of a name is the one at the descriptor under which the name is known.
pub proof fn law_file_named(process: ProcessState, path: Seq<char>)
    ensures
        match process.file_named(path) {
            Some(file) => {
                &&& process.names.contains_key(path)
                &&& process.names[path] < process.fd_table.len()
                &&& process.fd_table[process.names[path] as int] == Some(file)
            },
            None => process.names.contains_key(path) && process.names[path]
                < process.fd_table.len() ==> process.fd_table[process.names[path] as int] is None,
        },
{
}

/// Closing leaves no file at the descriptor and takes one name that it had out, if it had any. No
/// other descriptor, no other name and nothing else of the process changes.
pub proof fn law_close_leaves(process: ProcessState, fd: usize, after: ProcessState)
    requires
        fd < process.fd_table.len(),
    ensures
        process.closes_to(fd, after) ==> {
            &&& after == (ProcessState {
                fd_table: process.fd_table.update(fd as int, None),
                names: after.names,
                ..process
            })
            &&& {
                ||| after.names == process.names && forall|name: Seq<char>| #[trigger]
                    process.names.contains_key(name) ==> process.names[name] != fd
                ||| exists|name: Seq<char>| #[trigger]
                    process.names.contains_key(name) && process.names[name] == fd && after.names
                        == process.names.remove(name)
            }
        },
{
    if process.closes_to(fd, after) {
        if exists|name: Seq<char>| #[trigger] process.is_name_of(name, fd) {
            let name = choose|name: Seq<char>| #[trigger]
                process.is_name_of(name, fd) && after == (ProcessState {
                    fd_table: process.fd_table.update(fd as int, None),
                    names: process.names.remove(name),
                    ..process
                });
            assert(process.names.contains_key(name));
        } else {
            assert forall|name: Seq<char>| #[trigger] process.names.contains_key(
                name,
            ) implies process.names[name] != fd by {
                assert(!process.is_name_of(name, fd));
            }
        }
    }
}

/// In a process in order closing leaves every other descriptor with its file and its name, and the
/// descriptor without either. Nothing else of the process changes.
pub proof fn law_close_keeps_others(process: ProcessState, fd: usize)
    requires
        fd < process.fd_table.len(),
    ensures
        ({
            let after = process.after_close(fd);
            &&& after == (ProcessState {
                fd_table: process.fd_table.update(fd as int, None),
                names: after.names,
                ..process
            })
            &&& forall|name: Seq<char>| #[trigger]
                after.names.contains_key(name) <==> process.names.contains_key(name)
                    && process.names[name] != fd
            &&& forall|name: Seq<char>| #[trigger]
                after.names.contains_key(name) ==> after.names[name] == process.names[name]
        }),
{
}

/// Linking enters the new name under the old one and changes nothing else. It is refused for two
/// equal names. Else the answer is 0 if the old name is not known or its descriptor has a file,
/// which then gains a link; and -1 if its descriptor has none.
pub proof fn law_link(process: ProcessState, old_name: Seq<char>, new_name: Seq<char>)
    ensures
        process.after_link(old_name, new_name) == (ProcessState {
            links: process.links.insert(old_name, new_name),
            ..process
        }),
        ({
            let outcome = process.link_outcome(old_name, new_name);
            if old_name == new_name {
                outcome.ret == -1 && outcome.linked is None
            } else if !process.names.contains_key(old_name) {
                outcome.ret == 0 && outcome.linked is None
            } else if process.names[old_name] < process.fd_table.len()
                && process.fd_table[process.names[old_name] as int] is Some {
                outcome.ret == 0 && outcome.linked
                    == process.fd_table[process.names[old_name] as int]
            } else {
                outcome.ret == -1 && outcome.linked is None
            }
        }),
{
}

/// Unlinking a name takes out the entry of the file that it stands for, not its own, and changes
/// nothing else. The answer is 0 exactly if there was such an entry. The file that is open under
/// that entry's name loses a link, and what is under `name` is emptied exactly if afterwards no
/// name stands for the file.
pub proof fn law_unlink(process: ProcessState, name: Seq<char>)
    ensures
        !process.links.contains_key(name) ==> {
            &&& process.after_unlink(name) == process
            &&& process.unlink_outcome(name).ret == -1
            &&& process.unlink_outcome(name).unlinked is None
            &&& !process.unlink_outcome(name).clear
        },
        process.links.contains_key(name) ==> {
            let path = process.links[name];
            let rest = process.links.remove(path);
            let outcome = process.unlink_outcome(name);
            &&& process.after_unlink(name) == (ProcessState { links: rest, ..process })
            &&& process.links.contains_key(path) ==> outcome.ret == 0
            &&& !process.links.contains_key(path) ==> outcome.ret == -1
            &&& outcome.unlinked == if process.names.contains_key(path) && process.names[path]
                < process.fd_table.len() {
                process.fd_table[process.names[path] as int]
            } else {
                None
            }
            &&& outcome.clear <==> forall|other: Seq<char>| #[trigger]
                rest.contains_key(other) ==> rest[other] != path
        },
{
    if process.links.contains_key(name) {
        let path = process.links[name];
        let after = process.after_unlink(name);
        assert(after.links == process.links.remove(path));
        if after.has_name(path) {
            let other = choose|other: Seq<char>| #[trigger]
                after.links.contains_key(other) && after.links[other] == path;
            assert(process.links.remove(path).contains_key(other));
        }
        assert(!after.has_name(path) ==> forall|other: Seq<char>| #[trigger]
            after.links.contains_key(other) ==> after.links[other] != path);
    }
}

} // verus!
