//! The arguments of a program on its stack.
//!
//! From the top of the stack downwards stand the table of argument pointers, ended by a null
//! word, and then the strings, the first argument highest, each ended by a null byte.

use crate::mm::store::{lemma_visible_append, visible, StoreValue, UserStore};
use vstd::layout::size_of;
use vstd::prelude::*;
use vstd::utf8::encode_utf8;

verus! {

/// Bytes of a machine word.
pub open spec fn word() -> int {
    size_of::<usize>() as int
}

/// The bytes of each argument.
pub open spec fn bytes_of(args: Seq<String>) -> Seq<Seq<u8>> {
    Seq::new(args.len(), |i: int| encode_utf8(args[i]@))
}

/// Bytes that the first `i` strings take, with their ends.
pub open spec fn strings_size(args: Seq<Seq<u8>>, i: int) -> int
    decreases i,
{
    if i <= 0 {
        0
    } else {
        strings_size(args, i - 1) + args[i - 1].len() + 1
    }
}

/// Bytes that the pointers and the strings take together.
pub open spec fn frame_size(args: Seq<Seq<u8>>) -> int {
    (args.len() + 1) * word() + strings_size(args, args.len() as int)
}

/// Address of the table of pointers.
pub open spec fn table_at(args: Seq<Seq<u8>>, top: int) -> int {
    top - (args.len() + 1) * word()
}

/// Address of pointer `i` of the table.
pub open spec fn pointer_at(args: Seq<Seq<u8>>, top: int, i: int) -> int {
    table_at(args, top) + i * word()
}

/// Address of string `i`.
pub open spec fn string_at(args: Seq<Seq<u8>>, top: int, i: int) -> int {
    table_at(args, top) - strings_size(args, i + 1)
}

/// The stack pointer below everything, on a word boundary.
pub open spec fn stack_pointer(args: Seq<Seq<u8>>, top: int) -> int {
    let low = table_at(args, top) - strings_size(args, args.len() as int);
    low - low % word()
}

/// A word for the program.
pub open spec fn word_store(token: usize, addr: int, value: int) -> UserStore {
    UserStore { token, addr: addr as usize, value: StoreValue::Word(value as usize) }
}

/// A byte for the program.
pub open spec fn byte_store(token: usize, addr: int, value: u8) -> UserStore {
    UserStore { token, addr: addr as usize, value: StoreValue::Byte(value) }
}

/// Byte `k` of a string with its end.
pub open spec fn byte_of(string: Seq<u8>, k: int) -> u8 {
    if k < string.len() {
        string[k]
    } else {
        0
    }
}

/// The first `n` bytes of a string with its end, from address `at` on.
pub open spec fn string_stores(token: usize, at: int, string: Seq<u8>, n: nat) -> Seq<UserStore> {
    Seq::new(n, |k: int| byte_store(token, at + k, byte_of(string, k)))
}

/// What is written for the first `i` arguments: the null word behind the pointers, then for each
/// argument its pointer and its string.
pub open spec fn argv_stores(
    token: usize,
    args: Seq<Seq<u8>>,
    top: int,
    i: int,
) -> Seq<UserStore>
    decreases i,
{
    if i <= 0 {
        seq![word_store(token, pointer_at(args, top, args.len() as int), 0)]
    } else {
        argv_stores(token, args, top, i - 1).push(
            word_store(token, pointer_at(args, top, i - 1), string_at(args, top, i - 1)),
        ) + string_stores(
            token,
            string_at(args, top, i - 1),
            args[i - 1],
            args[i - 1].len() + 1,
        )
    }
}

/// The arguments on the stack of a new program.
pub struct StackFrame {
    /// where the stack goes on
    pub user_sp: usize,
    /// where the pointers stand
    pub argv_base: usize,
    /// what is to be written
    pub stores: Vec<UserStore>,
}

/// More strings take more room.
proof fn lemma_strings_size(args: Seq<Seq<u8>>, i: int, k: int)
    requires
        i <= k,
    ensures
        0 <= strings_size(args, i) <= strings_size(args, k),
        i < k && 0 <= i ==> strings_size(args, i + 1) <= strings_size(args, k),
    decreases k,
{
    if k > 0 {
        lemma_strings_size(args, if i < k {
            i
        } else {
            k - 1
        }, k - 1);
    }
}

/// Whether the arguments fit below the top of a stack.
pub fn args_fit(ustack_top: usize, args: &Vec<String>) -> (result: bool)
    ensures
        result == (frame_size(bytes_of(args@)) <= ustack_top),
{
    let ghost bytes = bytes_of(args@);
    let n: usize = args.len();
    let size: usize = core::mem::size_of::<usize>();
    proof {
        broadcast use vstd::layout::layout_of_primitives;

        lemma_strings_size(bytes, 0, n as int);
    }
    let words: usize = ustack_top / size;
    assert((n + 1) * size <= ustack_top <==> n + 1 <= words) by (nonlinear_arith)
        requires
            words == ustack_top / size,
            size >= 1,
    ;
    if n >= words {
        return false;
    }
    let mut room: usize = ustack_top - (n + 1) * size;
    let mut i: usize = 0;
    while i < n
        invariant
            n == args.len(),
            bytes == bytes_of(args@),
            size == word(),
            i <= n,
            room == ustack_top - (n + 1) * size - strings_size(bytes, i as int),
        decreases n - i,
    {
        let len: usize = args[i].as_str().as_bytes().len();
        assert(len == bytes[i as int].len());
        proof {
            lemma_strings_size(bytes, i + 1, n as int);
        }
        if room <= len {
            return false;
        }
        room = room - (len + 1);
        i = i + 1;
    }
    true
}

/// Lays the arguments out below the top of a stack.
pub fn push_args(token: usize, ustack_top: usize, args: &Vec<String>) -> (frame: StackFrame)
    requires
        frame_size(bytes_of(args@)) <= ustack_top,
    ensures
        frame.user_sp == stack_pointer(bytes_of(args@), ustack_top as int),
        frame.argv_base == table_at(bytes_of(args@), ustack_top as int),
        frame.stores@ == argv_stores(
            token,
            bytes_of(args@),
            ustack_top as int,
            args.len() as int,
        ),
{
    let ghost bytes = bytes_of(args@);
    let ghost top = ustack_top as int;
    let n: usize = args.len();
    let size: usize = core::mem::size_of::<usize>();
    proof {
        broadcast use vstd::layout::layout_of_primitives;

        lemma_strings_size(bytes, 0, n as int);
        assert((n + 1) * size >= n + 1) by (nonlinear_arith)
            requires
                size >= 1,
                n >= 0,
        ;
    }
    let argv_base: usize = ustack_top - (n + 1) * size;
    let mut user_sp: usize = argv_base;
    let mut stores: Vec<UserStore> = Vec::new();
    assert(argv_base + n * size == top - size) by (nonlinear_arith)
        requires
            argv_base == top - (n + 1) * size,
    ;
    stores.push(UserStore { token, addr: argv_base + n * size, value: StoreValue::Word(0) });
    assert(stores@ =~= argv_stores(token, bytes, top, 0));
    let mut i: usize = 0;
    while i < n
        invariant
            n == args.len(),
            bytes == bytes_of(args@),
            top == ustack_top,
            size == word(),
            size >= 1,
            argv_base == table_at(bytes, top),
            frame_size(bytes) <= top,
            i <= n,
            user_sp == argv_base - strings_size(bytes, i as int),
            stores@ == argv_stores(token, bytes, top, i as int),
        decreases n - i,
    {
        let string = args[i].as_str().as_bytes();
        let len: usize = string.len();
        assert(string@ == bytes[i as int]);
        proof {
            lemma_strings_size(bytes, i as int, n as int);
        }
        user_sp = user_sp - (len + 1);
        assert(user_sp == string_at(bytes, top, i as int));
        assert(0 <= i * size && argv_base + i * size <= top) by (nonlinear_arith)
            requires
                argv_base == top - (n + 1) * size,
                0 <= i <= n,
                size >= 1,
        ;
        stores.push(
            UserStore { token, addr: argv_base + i * size, value: StoreValue::Word(user_sp) },
        );
        let ghost before = stores@;
        let mut p: usize = 0;
        while p < len
            invariant
                len == string.len(),
                user_sp + len + 1 <= usize::MAX,
                p <= len,
                stores@ == before + string_stores(token, user_sp as int, string@, p as nat),
            decreases len - p,
        {
            stores.push(
                UserStore { token, addr: user_sp + p, value: StoreValue::Byte(string[p]) },
            );
            p = p + 1;
            assert(stores@ =~= before + string_stores(token, user_sp as int, string@, p as nat));
        }
        stores.push(UserStore { token, addr: user_sp + p, value: StoreValue::Byte(0) });
        assert(stores@ =~= before + string_stores(token, user_sp as int, string@, (len + 1) as nat));
        i = i + 1;
    }
    assert(user_sp % size <= user_sp) by (nonlinear_arith)
        requires
            size >= 1,
    ;
    user_sp = user_sp - user_sp % size;
    StackFrame { user_sp, argv_base, stores }
}

/// Pointers stand in ascending order, a word apart, between the strings and the top.
proof fn lemma_pointers(args: Seq<Seq<u8>>, top: int, i: int, k: int)
    requires
        0 <= i < k <= args.len(),
    ensures
        word() >= 1,
        table_at(args, top) <= pointer_at(args, top, i),
        pointer_at(args, top, i) + word() <= pointer_at(args, top, k),
        pointer_at(args, top, k) + word() <= top,
{
    broadcast use vstd::layout::layout_of_primitives;

    let w = word();
    let n = args.len() as int;
    assert(0 <= i * w && i * w + w <= k * w && k * w + w <= (n + 1) * w) by (nonlinear_arith)
        requires
            0 <= i < k <= n,
            w >= 1,
    ;
}

/// Strings stand in descending order between the stack pointer and the pointers.
proof fn lemma_strings(args: Seq<Seq<u8>>, top: int, i: int, k: int)
    requires
        0 <= i <= k < args.len(),
    ensures
        string_at(args, top, args.len() - 1) <= string_at(args, top, k),
        i < k ==> string_at(args, top, k) + args[k].len() + 1 <= string_at(args, top, i),
        string_at(args, top, i) + args[i].len() + 1 <= table_at(args, top),
{
    lemma_strings_size(args, k + 1, args.len() as int);
    lemma_strings_size(args, i + 1, k + 1);
    if i < k {
        lemma_strings_size(args, i + 1, k);
    }
    lemma_strings_size(args, 0, i);
}

/// What is written for the first `i` arguments stays readable.
proof fn lemma_argv_visible(token: usize, args: Seq<Seq<u8>>, top: int, i: int)
    requires
        frame_size(args) <= top <= usize::MAX,
        0 <= i <= args.len(),
    ensures
        ({
            let stores = argv_stores(token, args, top, i);
            &&& visible(stores, word_store(token, pointer_at(args, top, args.len() as int), 0))
            &&& forall|j: int|
                0 <= j < i ==> visible(
                    stores,
                    #[trigger] word_store(
                        token,
                        pointer_at(args, top, j),
                        string_at(args, top, j),
                    ),
                )
            &&& forall|j: int, k: int|
                0 <= j < i && 0 <= k <= args[j].len() ==> visible(
                    stores,
                    #[trigger] byte_store(
                        token,
                        string_at(args, top, j) + k,
                        byte_of(args[j], k),
                    ),
                )
            &&& forall|l: int|
                0 <= l < stores.len() ==> {
                    &&& (#[trigger] stores[l]).token == token
                    &&& table_at(args, top) - strings_size(args, args.len() as int)
                        <= stores[l].addr
                    &&& stores[l].addr + stores[l].value.size() <= top
                }
        }),
    decreases i,
{
    let n = args.len() as int;
    let stores = argv_stores(token, args, top, i);
    let end = word_store(token, pointer_at(args, top, n), 0);
    lemma_strings_size(args, 0, n);
    lemma_pointers_end(args, top);
    if i == 0 {
        assert(stores[0] == end);
    } else {
        let before = argv_stores(token, args, top, i - 1);
        lemma_argv_visible(token, args, top, i - 1);
        lemma_pointers(args, top, i - 1, n);
        lemma_strings(args, top, i - 1, i - 1);
        let at = string_at(args, top, i - 1);
        let len = args[i - 1].len();
        let pointer = word_store(token, pointer_at(args, top, i - 1), at);
        let string = string_stores(token, at, args[i - 1], len + 1);
        let middle = before + seq![pointer];
        assert(before.push(pointer) =~= middle);
        assert(stores == middle + string);
        assert forall|s: UserStore|
            visible(before, s) && !s.overlaps(pointer) && (forall|l: int|
                0 <= l < string.len() ==> !s.overlaps(#[trigger] string[l])) implies #[trigger] visible(
            stores,
            s,
        ) by {
            lemma_visible_append(before, seq![pointer], s);
            lemma_visible_append(middle, string, s);
        }
        assert(visible(stores, end));
        assert(visible(stores, pointer)) by {
            assert(middle[before.len() as int] == pointer);
            assert(visible(middle, pointer));
            lemma_visible_append(middle, string, pointer);
        }
        assert forall|j: int| 0 <= j < i implies visible(
            stores,
            #[trigger] word_store(token, pointer_at(args, top, j), string_at(args, top, j)),
        ) by {
            if j < i - 1 {
                lemma_pointers(args, top, j, i - 1);
                lemma_strings(args, top, j, i - 1);
            }
        }
        assert forall|j: int, k: int| 0 <= j < i && 0 <= k <= args[j].len() implies visible(
            stores,
            #[trigger] byte_store(token, string_at(args, top, j) + k, byte_of(args[j], k)),
        ) by {
            let byte = byte_store(token, string_at(args, top, j) + k, byte_of(args[j], k));
            if j < i - 1 {
                lemma_strings(args, top, j, i - 1);
            } else {
                assert(stores[middle.len() + k] == byte);
                assert forall|l: int|
                    middle.len() + k < l < stores.len() implies !byte.overlaps(
                    #[trigger] stores[l],
                ) by {
                    assert(stores[l] == string[l - middle.len()]);
                }
            }
        }
        assert forall|l: int| 0 <= l < stores.len() implies {
            &&& (#[trigger] stores[l]).token == token
            &&& table_at(args, top) - strings_size(args, n) <= stores[l].addr
            &&& stores[l].addr + stores[l].value.size() <= top
        } by {
            if l < before.len() {
                assert(stores[l] == before[l]);
            } else if l == before.len() {
                assert(stores[l] == pointer);
            } else {
                assert(stores[l] == string[l - middle.len()]);
            }
        }
    }
}

/// The null word stands right below the top.
proof fn lemma_pointers_end(args: Seq<Seq<u8>>, top: int)
    ensures
        word() >= 1,
        table_at(args, top) <= pointer_at(args, top, args.len() as int),
        pointer_at(args, top, args.len() as int) + word() == top,
{
    broadcast use vstd::layout::layout_of_primitives;

    let w = word();
    let n = args.len() as int;
    assert(0 <= n * w && n * w + w == (n + 1) * w) by (nonlinear_arith)
        requires
            0 <= n,
            w >= 1,
    ;
}

/// The pointers stand a word apart and end at the top.
pub proof fn lemma_pointer_places(args: Seq<Seq<u8>>, top: int)
    ensures
        table_at(args, top) + (args.len() + 1) * word() == top,
        pointer_at(args, top, args.len() as int) + word() == top,
        forall|i: int| #[trigger] pointer_at(args, top, i) == table_at(args, top) + i * word(),
{
    lemma_pointers_end(args, top);
}

/// Each string ends where the one before it begins, the first where the pointers do, and the
/// stack pointer lies less than a word below the last.
pub proof fn lemma_string_places(args: Seq<Seq<u8>>, top: int)
    requires
        frame_size(args) <= top,
    ensures
        ({
            let n = args.len() as int;
            let low = if n == 0 {
                table_at(args, top)
            } else {
                string_at(args, top, n - 1)
            };
            &&& n > 0 ==> string_at(args, top, 0) + args[0].len() + 1 == table_at(args, top)
            &&& forall|i: int|
                0 < i < n ==> #[trigger] string_at(args, top, i) + args[i].len() + 1 == string_at(
                    args,
                    top,
                    i - 1,
                )
            &&& stack_pointer(args, top) <= low < stack_pointer(args, top) + word()
        }),
{
    let n = args.len() as int;
    let w = word();
    let low = table_at(args, top) - strings_size(args, n);
    lemma_pointers_end(args, top);
    if n > 0 {
        reveal_with_fuel(strings_size, 2);
    }
    assert(0 <= low % w < w) by (nonlinear_arith)
        requires
            w >= 1,
    ;
}

/// The count of arguments and the place of their pointers are machine words.
pub proof fn lemma_count_fits(args: Seq<Seq<u8>>, top: int)
    requires
        frame_size(args) <= top <= usize::MAX,
    ensures
        args.len() <= usize::MAX,
        0 <= table_at(args, top) <= top,
{
    let n = args.len() as int;
    let w = word();
    lemma_strings_size(args, 0, n);
    lemma_pointers_end(args, top);
    assert((n + 1) * w >= n + 1) by (nonlinear_arith)
        requires
            n >= 0,
            w >= 1,
    ;
}

/// A new program finds its arguments: behind the table of pointers stands a null word, each
/// pointer leads to the bytes of its argument, and a null byte ends them. Nothing is written
/// below the stack pointer, which is on a word boundary, nor above the top of the stack.
pub proof fn law_arguments_readable(token: usize, args: Seq<Seq<u8>>, top: int)
    requires
        frame_size(args) <= top <= usize::MAX,
    ensures
        ({
            let n = args.len() as int;
            let stores = argv_stores(token, args, top, n);
            &&& visible(stores, word_store(token, pointer_at(args, top, n), 0))
            &&& forall|i: int|
                0 <= i < n ==> visible(
                    stores,
                    #[trigger] word_store(
                        token,
                        pointer_at(args, top, i),
                        string_at(args, top, i),
                    ),
                )
            &&& forall|i: int, k: int|
                0 <= i < n && 0 <= k < args[i].len() ==> visible(
                    stores,
                    #[trigger] byte_store(token, string_at(args, top, i) + k, args[i][k]),
                )
            &&& forall|i: int|
                0 <= i < n ==> visible(
                    stores,
                    #[trigger] byte_store(token, string_at(args, top, i) + args[i].len(), 0),
                )
            &&& forall|l: int|
                0 <= l < stores.len() ==> {
                    &&& (#[trigger] stores[l]).token == token
                    &&& stack_pointer(args, top) <= stores[l].addr
                    &&& stores[l].addr + stores[l].value.size() <= top
                }
        }),
        0 <= stack_pointer(args, top) < top,
        stack_pointer(args, top) % word() == 0,
{
    let n = args.len() as int;
    let w = word();
    lemma_argv_visible(token, args, top, n);
    lemma_pointers_end(args, top);
    lemma_strings_size(args, 0, n);
    let low = table_at(args, top) - strings_size(args, n);
    assert(0 <= low - low % w <= low && (low - low % w) % w == 0) by (nonlinear_arith)
        requires
            w >= 1,
            low >= 0,
    ;
    let stores = argv_stores(token, args, top, n);
    assert forall|i: int, k: int| 0 <= i < n && 0 <= k < args[i].len() implies visible(
        stores,
        #[trigger] byte_store(token, string_at(args, top, i) + k, args[i][k]),
    ) by {
        assert(byte_of(args[i], k) == args[i][k]);
        assert(visible(
            stores,
            byte_store(token, string_at(args, top, i) + k, byte_of(args[i], k)),
        ));
    }
    assert forall|i: int| 0 <= i < n implies visible(
        stores,
        #[trigger] byte_store(token, string_at(args, top, i) + args[i].len(), 0),
    ) by {
        let k = args[i].len() as int;
        assert(byte_of(args[i], k) == 0);
        assert(visible(
            stores,
            byte_store(token, string_at(args, top, i) + k, byte_of(args[i], k)),
        ));
    }
}

} // verus!
