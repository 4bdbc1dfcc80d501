//! How a program starts.

use crate::fs::file::FileRef;
use crate::mm::memory_set::Memory;
use crate::mm::store::{visible, StoreValue, UserStore};
use crate::task::argv::{
    argv_stores, byte_store, bytes_of, frame_size, law_arguments_readable, lemma_count_fits,
    lemma_pointer_places, lemma_string_places, pointer_at, stack_pointer, string_at, strings_size,
    table_at, word_store,
};
use crate::task::process::ProcessState;
use crate::task::thread::{KernelEntry, TaskUserRes, ThreadPlace};
use crate::trap::{law_registers, TrapContext};
use vstd::layout::size_of;
use vstd::prelude::*;
use vstd::utf8::encode_utf8;

verus! {

/// The first context of a program leads into it at `entry`, on the stack `sp`, which register 2
/// holds, with every other register zero; and back into the kernel by its address space, the
/// thread's kernel stack and the handler, each in its place.
pub proof fn law_first_context(
    entry: usize,
    sp: usize,
    kernel_satp: usize,
    kernel_sp: usize,
    trap_handler: usize,
)
    ensures
        ({
            let cx = TrapContext::initial(entry, sp, kernel_satp, kernel_sp, trap_handler);
            &&& cx.sepc == entry
            &&& cx.kernel_satp == kernel_satp
            &&& cx.kernel_sp == kernel_sp
            &&& cx.trap_handler == trap_handler
            &&& cx.x@[2] == sp
            &&& forall|i: int| 0 <= i < 32 && i != 2 ==> #[trigger] cx.x@[i] == 0
        }),
{
    broadcast use vstd::array::group_array_axioms;

}

/// A register that is set holds the value, and nothing else of the context differs.
pub proof fn law_set_register(cx: TrapContext, i: int, value: usize)
    requires
        0 <= i < 32,
    ensures
        ({
            let after = cx.with_reg(i, value);
            &&& after.sepc == cx.sepc
            &&& after.kernel_satp == cx.kernel_satp
            &&& after.kernel_sp == cx.kernel_sp
            &&& after.trap_handler == cx.trap_handler
            &&& after.x@ == cx.x@.update(i, value)
        }),
{
    broadcast use vstd::array::group_array_axioms;

    assert forall|k: int| 0 <= k < 32 implies cx.with_reg(i, value).x@[k] == cx.x@.update(
        i,
        value,
    )[k] by {
        law_registers(cx, i, value, k);
    }
    assert(cx.with_reg(i, value).x@ =~= cx.x@.update(i, value));
}

/// A process that starts a program has the program's memory, no parent, the console as standard
/// input, output and error, and one thread, number 0, at the entry point with an empty stack. It
/// has nothing else.
pub proof fn law_started_process(
    memory_set: Memory,
    ustack_base: usize,
    entry_point: usize,
    place: ThreadPlace,
    entry: KernelEntry,
)
    ensures
        ({
            let process = ProcessState::started(
                memory_set,
                ustack_base,
                entry_point,
                place,
                entry,
            );
            let task = process.tasks[0]->0;
            &&& process.memory_set == memory_set
            &&& process.parent is None
            &&& process.fd_table.len() == 3
            &&& process.fd_table[0] == Some(FileRef { id: 0, readable: true, writable: false })
            &&& process.fd_table[1] == Some(FileRef { id: 1, readable: false, writable: true })
            &&& process.fd_table[2] == process.fd_table[1]
            &&& !process.is_zombie
            &&& process.exit_code == 0
            &&& process.children.len() == 0
            &&& process.names.dom().is_empty()
            &&& process.links.dom().is_empty()
            &&& process.signals.bits == 0
            &&& process.tids.next == 1
            &&& process.tids.recycled.len() == 0
            &&& process.mutex_list.len() == 0
            &&& process.semaphore_list.len() == 0
            &&& process.condvar_list.len() == 0
            &&& !process.deadlock_detect_enabled
            &&& process.mutex_owner.len() == 0
            &&& process.semaphore_alloc.len() == 0
            &&& process.semaphore_count.len() == 0
            &&& process.tasks.len() == 1
            &&& process.tasks[0] is Some
            &&& task.res == Some(
                TaskUserRes { tid: 0, ustack_base, ustack_top: place.ustack_top },
            )
            &&& task.kstack_top == place.kstack_top
            &&& task.trap_cx_ppn == place.trap_cx_ppn
            &&& task.trap_cx.sepc == entry_point
            &&& task.trap_cx.kernel_satp == entry.satp
            &&& task.trap_cx.kernel_sp == place.kstack_top
            &&& task.trap_cx.trap_handler == entry.trap_handler
            &&& task.trap_cx.x@[2] == place.ustack_top
            &&& forall|i: int| 0 <= i < 32 && i != 2 ==> #[trigger] task.trap_cx.x@[i] == 0
        }),
{
    law_first_context(
        entry_point,
        place.ustack_top,
        entry.satp,
        place.kstack_top,
        entry.trap_handler,
    );
}

/// After `exec` the main thread leads back into the kernel: to the kernel's address space, to the
/// handler, and to the thread's own kernel stack, which stays where it was. It enters the program
/// at its entry point, with the stack pointer in register 2, the number of arguments in register
/// 10, the place of their pointers in register 11, and all other registers zero. It keeps its
/// number and has the new program's user stack; the process has the new program's memory. Nothing
/// else of the process changes.
pub proof fn law_exec(
    process: ProcessState,
    memory_set: Memory,
    ustack_base: usize,
    entry_point: usize,
    ustack_top: usize,
    trap_cx_ppn: usize,
    entry: KernelEntry,
    args: Seq<Seq<u8>>,
)
    requires
        process.tasks.len() == 1,
        process.tasks[0] matches Some(main) && main.res is Some,
        frame_size(args) <= ustack_top,
    ensures
        ({
            let main = process.tasks[0]->0;
            let after = process.after_exec(
                memory_set,
                ustack_base,
                entry_point,
                ustack_top,
                trap_cx_ppn,
                entry,
                args,
            );
            let task = after.tasks[0]->0;
            &&& after == (ProcessState { memory_set, tasks: after.tasks, ..process })
            &&& after.tasks.len() == 1
            &&& after.tasks[0] is Some
            &&& task.res == Some(
                TaskUserRes { tid: main.res->0.tid, ustack_base, ustack_top },
            )
            &&& task.kstack_top == main.kstack_top
            &&& task.trap_cx_ppn == trap_cx_ppn
            &&& task.trap_cx.kernel_satp == entry.satp
            &&& task.trap_cx.trap_handler == entry.trap_handler
            &&& task.trap_cx.kernel_sp == main.kstack_top
            &&& task.trap_cx.sepc == entry_point
            &&& task.trap_cx.x@[2] == stack_pointer(args, ustack_top as int)
            &&& task.trap_cx.x@[10] == args.len()
            &&& task.trap_cx.x@[11] == table_at(args, ustack_top as int)
            &&& forall|i: int|
                0 <= i < 32 && i != 2 && i != 10 && i != 11 ==> #[trigger] task.trap_cx.x@[i] == 0
        }),
{
    broadcast use vstd::array::group_array_axioms;

    law_arguments_readable(memory_set.token, args, ustack_top as int);
    lemma_count_fits(args, ustack_top as int);
}

/// Each argument is its text in UTF-8.
pub proof fn law_argument_bytes(args: Seq<String>, i: int)
    requires
        0 <= i < args.len(),
    ensures
        bytes_of(args).len() == args.len(),
        bytes_of(args)[i] == encode_utf8(args[i]@),
{
}

/// The room that strings take is the sum of their lengths with a byte for each end.
proof fn lemma_strings_are_sum(args: Seq<Seq<u8>>, i: int, plus: spec_fn(int, Seq<u8>) -> int)
    requires
        0 <= i <= args.len(),
        forall|sum: int, arg: Seq<u8>| #[trigger] plus(sum, arg) == sum + arg.len() + 1,
    ensures
        strings_size(args, i) == args.take(i).fold_left(0int, plus),
    decreases i,
{
    if i > 0 {
        lemma_strings_are_sum(args, i - 1, plus);
        assert(args.take(i).drop_last() =~= args.take(i - 1));
        assert(args.take(i).last() == args[i - 1]);
    }
}

/// The arguments take a word for each of them, one more, and for each of them its bytes and one
/// more.
pub proof fn law_frame_size(args: Seq<Seq<u8>>)
    ensures
        frame_size(args) == (args.len() + 1) * size_of::<usize>() + args.fold_left(
            0int,
            |sum: int, arg: Seq<u8>| sum + arg.len() + 1,
        ),
{
    lemma_strings_are_sum(
        args,
        args.len() as int,
        |sum: int, arg: Seq<u8>| sum + arg.len() + 1,
    );
    assert(args.take(args.len() as int) =~= args);
}

/// Where everything stands: the pointers, a word each and one more, end at the top of the stack.
/// Right below them the first string ends, right below it the second, and so on, each a byte longer
/// than its argument. The stack pointer is the highest word boundary that is not above any of it.
pub proof fn law_argument_places(args: Seq<Seq<u8>>, top: int)
    requires
        frame_size(args) <= top <= usize::MAX,
    ensures
        ({
            let w = size_of::<usize>() as int;
            let n = args.len() as int;
            let low = if n == 0 {
                table_at(args, top)
            } else {
                string_at(args, top, n - 1)
            };
            &&& table_at(args, top) + (n + 1) * w == top
            &&& forall|i: int| #[trigger] pointer_at(args, top, i) == table_at(args, top) + i * w
            &&& n > 0 ==> string_at(args, top, 0) + args[0].len() + 1 == table_at(args, top)
            &&& forall|i: int|
                0 < i < n ==> #[trigger] string_at(args, top, i) + args[i].len() + 1 == string_at(
                    args,
                    top,
                    i - 1,
                )
            &&& stack_pointer(args, top) % w == 0
            &&& stack_pointer(args, top) <= low < stack_pointer(args, top) + w
            &&& 0 <= stack_pointer(args, top)
        }),
{
    lemma_pointer_places(args, top);
    lemma_string_places(args, top);
    law_arguments_readable(0, args, top);
}

/// What a store leaves is there in the end if no later one in the same address space writes to any
/// of its bytes; a byte is one byte, an integer four, a word a machine word.
pub proof fn law_stores_that_last(stores: Seq<UserStore>, store: UserStore)
    ensures
        StoreValue::Byte(0).size() == 1,
        StoreValue::Int(0).size() == 4,
        StoreValue::Word(0).size() == size_of::<usize>(),
        visible(stores, store) <==> exists|k: int|
            {
                &&& 0 <= k < stores.len()
                &&& #[trigger] stores[k] == store
                &&& forall|l: int|
                    k < l < stores.len() && (#[trigger] stores[l]).token == store.token ==> {
                        ||| stores[l].addr + (match stores[l].value {
                            StoreValue::Byte(_) => 1,
                            StoreValue::Int(_) => 4,
                            StoreValue::Word(_) => size_of::<usize>() as int,
                        }) <= store.addr
                        ||| store.addr + (match store.value {
                            StoreValue::Byte(_) => 1,
                            StoreValue::Int(_) => 4,
                            StoreValue::Word(_) => size_of::<usize>() as int,
                        }) <= stores[l].addr
                    }
            },
{
    if visible(stores, store) {
        let k = choose|k: int|
            {
                &&& 0 <= k < stores.len()
                &&& #[trigger] stores[k] == store
                &&& forall|l: int| k < l < stores.len() ==> !store.overlaps(#[trigger] stores[l])
            };
        assert(stores[k] == store);
    }
    if exists|k: int|
        {
            &&& 0 <= k < stores.len()
            &&& #[trigger] stores[k] == store
            &&& forall|l: int|
                k < l < stores.len() && (#[trigger] stores[l]).token == store.token ==> {
                    ||| stores[l].addr + (match stores[l].value {
                        StoreValue::Byte(_) => 1,
                        StoreValue::Int(_) => 4,
                        StoreValue::Word(_) => size_of::<usize>() as int,
                    }) <= store.addr
                    ||| store.addr + (match store.value {
                        StoreValue::Byte(_) => 1,
                        StoreValue::Int(_) => 4,
                        StoreValue::Word(_) => size_of::<usize>() as int,
                    }) <= stores[l].addr
                }
        } {
        let k = choose|k: int|
            {
                &&& 0 <= k < stores.len()
                &&& #[trigger] stores[k] == store
                &&& forall|l: int|
                    k < l < stores.len() && (#[trigger] stores[l]).token == store.token ==> {
                        ||| stores[l].addr + (match stores[l].value {
                            StoreValue::Byte(_) => 1,
                            StoreValue::Int(_) => 4,
                            StoreValue::Word(_) => size_of::<usize>() as int,
                        }) <= store.addr
                        ||| store.addr + (match store.value {
                            StoreValue::Byte(_) => 1,
                            StoreValue::Int(_) => 4,
                            StoreValue::Word(_) => size_of::<usize>() as int,
                        }) <= stores[l].addr
                    }
            };
        assert(stores[k] == store);
        assert forall|l: int| k < l < stores.len() implies !store.overlaps(#[trigger] stores[l]) by {}
    }
}

/// How many stores the first arguments take.
proof fn lemma_store_count(token: usize, args: Seq<Seq<u8>>, top: int, i: int)
    requires
        0 <= i <= args.len(),
    ensures
        argv_stores(token, args, top, i).len() == 1 + i + strings_size(args, i),
    decreases i,
{
    if i > 0 {
        lemma_store_count(token, args, top, i - 1);
    }
}

/// Nothing is written but a word for each pointer, the null word behind them, and for each string
/// its bytes and a null byte; all of it in the program's address space, between the stack pointer
/// and the top of the stack.
pub proof fn law_nothing_else_written(token: usize, args: Seq<Seq<u8>>, top: int)
    requires
        frame_size(args) <= top <= usize::MAX,
    ensures
        ({
            let stores = argv_stores(token, args, top, args.len() as int);
            &&& stores.len() == 1 + args.len() + args.fold_left(
                0int,
                |sum: int, arg: Seq<u8>| sum + arg.len() + 1,
            )
            &&& forall|l: int|
                0 <= l < stores.len() ==> {
                    &&& (#[trigger] stores[l]).token == token
                    &&& stack_pointer(args, top) <= stores[l].addr
                    &&& stores[l].addr + (match stores[l].value {
                        StoreValue::Byte(_) => 1,
                        StoreValue::Int(_) => 4,
                        StoreValue::Word(_) => size_of::<usize>() as int,
                    }) <= top
                }
        }),
{
    law_arguments_readable(token, args, top);
    lemma_store_count(token, args, top, args.len() as int);
    lemma_strings_are_sum(
        args,
        args.len() as int,
        |sum: int, arg: Seq<u8>| sum + arg.len() + 1,
    );
    assert(args.take(args.len() as int) =~= args);
}

/// What the program finds: at each pointer's place the place of its string, behind the last one a
/// null word; at each string's place the bytes of its argument, and behind them a null byte.
pub proof fn law_arguments_found(token: usize, args: Seq<Seq<u8>>, top: int)
    requires
        frame_size(args) <= top <= usize::MAX,
    ensures
        ({
            let w = size_of::<usize>() as int;
            let n = args.len() as int;
            let stores = argv_stores(token, args, top, n);
            &&& visible(
                stores,
                UserStore { token, addr: (top - w) as usize, value: StoreValue::Word(0) },
            )
            &&& forall|i: int|
                0 <= i < n ==> visible(
                    stores,
                    UserStore {
                        token,
                        addr: #[trigger] pointer_at(args, top, i) as usize,
                        value: StoreValue::Word(string_at(args, top, i) as usize),
                    },
                )
            &&& forall|i: int, k: int|
                0 <= i < n && 0 <= k < args[i].len() ==> visible(
                    stores,
                    UserStore {
                        token,
                        addr: (string_at(args, top, i) + k) as usize,
                        value: StoreValue::Byte(#[trigger] args[i][k]),
                    },
                )
            &&& forall|i: int|
                0 <= i < n ==> visible(
                    stores,
                    UserStore {
                        token,
                        addr: (#[trigger] string_at(args, top, i) + args[i].len()) as usize,
                        value: StoreValue::Byte(0),
                    },
                )
        }),
{
    law_arguments_readable(token, args, top);
    lemma_pointer_places(args, top);
    let n = args.len() as int;
    let stores = argv_stores(token, args, top, n);
    assert forall|i: int| 0 <= i < n implies visible(
        stores,
        UserStore {
            token,
            addr: #[trigger] pointer_at(args, top, i) as usize,
            value: StoreValue::Word(string_at(args, top, i) as usize),
        },
    ) by {
        assert(visible(
            stores,
            word_store(token, pointer_at(args, top, i), string_at(args, top, i)),
        ));
    }
    assert forall|i: int, k: int| 0 <= i < n && 0 <= k < args[i].len() implies visible(
        stores,
        UserStore {
            token,
            addr: (string_at(args, top, i) + k) as usize,
            value: StoreValue::Byte(#[trigger] args[i][k]),
        },
    ) by {
        assert(visible(stores, byte_store(token, string_at(args, top, i) + k, args[i][k])));
    }
    assert forall|i: int| 0 <= i < n implies visible(
        stores,
        UserStore {
            token,
            addr: (#[trigger] string_at(args, top, i) + args[i].len()) as usize,
            value: StoreValue::Byte(0),
        },
    ) by {
        assert(visible(stores, byte_store(token, string_at(args, top, i) + args[i].len(), 0)));
    }
}

} // verus!
