//! Loading a module whole into memory.
//!
//! In this way of loading, the code is copied beside the data, and the
//! trampolines that the builder has put at the start of the code are
//! finished in place: each entry gets the address of its function, the
//! common tail the module's static base. A function is then entered
//! through its trampoline, and there is no linkage table.

use crate::image::{Image, ImageView};
use crate::instr::{mov_hw1, mov_hw2, wide};
use crate::module::{
    fill_got, lie_apart, regions_apart, tables, LoadError, Module, ModulePtr, ModuleView,
};
use crate::symbol::{views, Symbol, SymbolView};
use vstd::layout::size_of;
use vstd::prelude::*;
use vstd::slice::slice_to_vec;

verus! {

/// Number of bytes of the entry of one function: `push`, `movw`, `movt`
/// and the branch to the tail.
pub const TRAMPOLINE_LEN: usize = 16;

/// The bytes `b` with the `movw` or `movt` at `at` given the immediate `v`:
/// the four fields of `v` are set into the instruction, whose own fields
/// are expected to be zero.
pub open spec fn modified(b: Seq<u8>, at: int, v: u16) -> Seq<u8> {
    b.update(at, b[at] | ((v >> 12) as u8)).update(at + 1, b[at + 1] | (((v >> 11 & 1) as u8) << 2)).update(
        at + 2,
        (v & 255) as u8,
    ).update(at + 3, b[at + 3] | (((v >> 8 & 7) as u8) << 4))
}

/// The bytes `b` with the `movw`/`movt` pair at `at` given the constant `v`.
pub open spec fn modified_pair(b: Seq<u8>, at: int, v: u32) -> Seq<u8> {
    modified(modified(b, at, (v & 0xffff) as u16), at + 4, (v >> 16) as u16)
}

/// Sets the immediate `v` into the `movw` or `movt` at `at`.
pub fn modify(text: &mut Vec<u8>, at: usize, v: u16)
    requires
        at + 4 <= old(text)@.len(),
    ensures
        final(text)@ == modified(old(text)@, at as int, v),
        final(text)@.len() == old(text)@.len(),
{
    let n = text.len();
    assert(at + 4 <= n);
    let imm4 = (v >> 12) as u8;
    let i = (v >> 11 & 1) as u8;
    let imm3 = (v >> 8 & 7) as u8;
    let imm8 = (v & 255) as u8;
    let b0 = text[at];
    let b1 = text[at + 1];
    let b3 = text[at + 3];
    text[at] = b0 | imm4;
    text[at + 1] = b1 | i << 2;
    text[at + 2] = imm8;
    text[at + 3] = b3 | imm3 << 4;
    assert(text@ =~= modified(old(text)@, at as int, v));
}

/// Sets the constant `v` into the `movw`/`movt` pair at `at`.
pub fn modify_pair(text: &mut Vec<u8>, at: usize, v: u32)
    requires
        at + 8 <= old(text)@.len(),
    ensures
        final(text)@ == modified_pair(old(text)@, at as int, v),
        final(text)@.len() == old(text)@.len(),
{
    let n = text.len();
    assert(at + 8 <= n);
    assert(v & 0xffff <= 0xffff && v >> 16 <= 0xffff) by (bit_vector);
    modify(text, at, (v & 0xffff) as u16);
    modify(text, at + 4, (v >> 16) as u16);
}

/// Finishing an instruction whose immediate is zero gives the instruction
/// with the immediate.
pub proof fn lemma_modified_encodes(is_t: bool, reg: u8, v: u16)
    ensures
        modified(wide(mov_hw1(is_t, 0), mov_hw2(reg, 0)), 0, v) == wide(
            mov_hw1(is_t, v),
            mov_hw2(reg, v),
        ),
{
    let zero = wide(mov_hw1(is_t, 0), mov_hw2(reg, 0));
    let want = wide(mov_hw1(is_t, v), mov_hw2(reg, v));
    let a1 = mov_hw1(is_t, 0);
    let a2 = mov_hw2(reg, 0);
    let w1 = mov_hw1(is_t, v);
    let w2 = mov_hw2(reg, v);
    assert(((a1 & 0xff) as u8) | ((v >> 12) as u8) == (w1 & 0xff) as u8 && ((a1 >> 8) as u8) | (((v
        >> 11 & 1) as u8) << 2) == (w1 >> 8) as u8 && (v & 255) as u8 == (w2 & 0xff) as u8 && ((a2
        >> 8) as u8) | (((v >> 8 & 7) as u8) << 4) == (w2 >> 8) as u8) by (bit_vector)
        requires
            a1 == (if is_t { 0xf2c0u16 } else { 0xf240u16 }) | (((0u16 >> 11) & 1) << 10) | (0u16 >> 12),
            a2 == (((0u16 >> 8) & 7) << 12) | ((reg as u16) << 8) | (0u16 & 0xff),
            w1 == (if is_t { 0xf2c0u16 } else { 0xf240u16 }) | (((v >> 11) & 1) << 10) | (v >> 12),
            w2 == (((v >> 8) & 7) << 12) | ((reg as u16) << 8) | (v & 0xff),
    ;
    assert(modified(zero, 0, v) =~= want);
}

/// The code with the trampolines of the first `n` functions finished: the
/// entry of function `i`, at `16 * i`, gets the address `entries[i]`.
pub open spec fn finished(text: Seq<u8>, entries: Seq<u32>, n: int) -> Seq<u8>
    decreases n,
{
    if n <= 0 {
        text
    } else {
        modified_pair(finished(text, entries, n - 1), 16 * (n - 1) + 4, entries[n - 1])
    }
}

/// A module loaded whole: the module, and the contents of its code, of its
/// offset table and of its data.
#[derive(Debug)]
pub struct Loaded {
    pub module: Module,
    /// The code, its trampolines finished.
    pub text: Vec<u8>,
    /// The offset table, `4 * n_reloc` bytes.
    pub got: Vec<u8>,
    /// The data: the initialised data of the image.
    pub data: Vec<u8>,
}

/// The symbol table once the first `n` exported functions have had their
/// first index replaced by the address of their trampoline.
pub open spec fn trampolined(table: Seq<SymbolView>, funcs: Seq<u32>, text_begin: u32, n: int) -> Seq<
    SymbolView,
>
    decreases n,
{
    if n <= 0 {
        table
    } else {
        let t = trampolined(table, funcs, text_begin, n - 1);
        let at = funcs[n - 1] as int;
        t.update(at, SymbolView { index1: (text_begin + 16 * (n - 1) + 1) as u32, ..t[at] })
    }
}

/// The symbol tables of the dependencies as this way of loading reads
/// them: an external symbol is bound to the first index of its provider,
/// which is the address of the provider's trampoline.
pub open spec fn direct(tables: Seq<Seq<SymbolView>>) -> Seq<Seq<SymbolView>> {
    Seq::new(
        tables.len(),
        |d: int|
            Seq::new(
                tables[d].len(),
                |i: int| SymbolView { index2: tables[d][i].index1, ..tables[d][i] },
            ),
    )
}

/// Where the parts of a module loaded whole lie: it has no linkage table.
pub open spec fn resident(img: ImageView, text_begin: u32, got_begin: u32, data_begin: u32) -> ModulePtr {
    ModulePtr {
        got_begin,
        plt_begin: 0,
        data_begin,
        text_begin,
        text_end: (text_begin + img.header.l_text) as u32,
    }
}

/// What is wrong with loading the image whole at these addresses, if
/// anything. The checks come in this order: allocation, alignment, room for
/// the trampolines, the 32-bit range of the regions, the regions among
/// themselves, the 32-bit range of the addresses of the symbols.
pub open spec fn load_error(img: ImageView, text_begin: u32, got_begin: u32, data_begin: u32) -> Option<
    LoadError,
> {
    if text_begin == 0 || got_begin == 0 || data_begin == 0 {
        Some(LoadError::NullRegion)
    } else if text_begin % 4 != 0 || got_begin % 4 != 0 || data_begin % 4 != 0 {
        Some(LoadError::Misaligned)
    } else if 16 * img.header.n_funcs + 8 > img.header.l_text {
        Some(LoadError::NoTrampolines)
    } else if text_begin + img.header.l_text > u32::MAX || got_begin + 4 * img.header.n_reloc
        > u32::MAX || data_begin + img.header.l_data > u32::MAX {
        Some(LoadError::AddressOverflow)
    } else if !regions_apart(text_begin, img.header.l_text as int, got_begin, 4 * img.header.n_reloc)
        || !regions_apart(
        text_begin,
        img.header.l_text as int,
        data_begin,
        img.header.l_data as int,
    ) || !regions_apart(got_begin, 4 * img.header.n_reloc, data_begin, img.header.l_data as int) {
        Some(LoadError::RegionOverlap)
    } else if !img.addresses_fit(resident(img, text_begin, got_begin, data_begin)) {
        Some(LoadError::AddressOverflow)
    } else {
        None
    }
}

/// The addresses of the exported functions.
pub open spec fn entry_words(img: ImageView, ptrs: ModulePtr) -> Seq<u32> {
    Seq::new(img.funcs.len(), |j: int| img.func_address(ptrs, j) as u32)
}

/// Computes the addresses of the exported functions, unless one does not
/// fit in 32 bits.
fn function_words(image: &Image, ptrs: &ModulePtr) -> (r: Option<Vec<u32>>)
    requires
        image@.wf(),
    ensures
        r is Some <==> forall|j: int|
            0 <= j < image@.funcs.len() ==> #[trigger] image@.func_address(*ptrs, j) <= u32::MAX,
        r matches Some(v) ==> v@ == entry_words(image@, *ptrs),
{
    let mut entries: Vec<u32> = Vec::new();
    let mut j: usize = 0;
    while j < image.funcs.len()
        invariant
            image@.wf(),
            0 <= j <= image.funcs@.len(),
            entries@.len() == j,
            forall|i: int| 0 <= i < j ==> #[trigger] image@.func_address(*ptrs, i) <= u32::MAX,
            forall|i: int| 0 <= i < j ==> #[trigger] entries@[i] == image@.func_address(*ptrs, i),
        decreases image.funcs@.len() - j,
    {
        let idx = image.funcs[j] as usize;
        assert(image@.funcs[j as int] < image@.header.n_symbol);
        let payload = image.symbols[idx].index1;
        assert(payload == image@.symbols[idx as int].index1);
        match payload.checked_add(ptrs.text_begin) {
            Some(entry) => {
                entries.push(entry);
            },
            None => {
                assert(image@.func_address(*ptrs, j as int) > u32::MAX);
                return None;
            },
        }
        j += 1;
    }
    assert(entries@ =~= entry_words(image@, *ptrs));
    Some(entries)
}

/// Copies of the dependencies in which the second index of every symbol is
/// its first.
#[verifier::rlimit(40)]
fn direct_copies(dependencies: Option<&Vec<Module>>) -> (copies: Vec<Module>)
    ensures
        tables(Some(&copies)) == direct(tables(dependencies)),
{
    let mut copies: Vec<Module> = Vec::new();
    let deps = match dependencies {
        Some(v) => v,
        None => {
            assert(tables(Some(&copies)) =~= direct(tables(dependencies)));
            return copies;
        },
    };
    let ghost all = tables(dependencies);
    let mut d: usize = 0;
    while d < deps.len()
        invariant
            0 <= d <= deps@.len(),
            dependencies == Some(deps),
            all == tables(dependencies),
            copies@.len() == d,
            forall|x: int|
                0 <= x < d ==> views((#[trigger] copies@[x]).sym_table@) == direct(all)[x],
        decreases deps@.len() - d,
    {
        let dep = &deps[d];
        let mut table: Vec<Symbol> = Vec::new();
        let mut i: usize = 0;
        while i < dep.sym_table.len()
            invariant
                0 <= i <= dep.sym_table@.len(),
                table@.len() == i,
                forall|j: int|
                    0 <= j < i ==> (#[trigger] table@[j])@ == (SymbolView {
                        index2: dep.sym_table@[j]@.index1,
                        ..dep.sym_table@[j]@
                    }),
            decreases dep.sym_table@.len() - i,
        {
            let s = &dep.sym_table[i];
            table.push(
                Symbol {
                    s_type: s.s_type,
                    index1: s.index1,
                    index2: s.index1,
                    s_name: s.s_name.clone(),
                },
            );
            i += 1;
        }
        proof {
            assert(all[d as int] == views(dep.sym_table@));
            assert(views(table@) =~= direct(all)[d as int]);
        }
        copies.push(Module { sym_table: table, ptrs: dep.ptrs });
        d += 1;
    }
    assert(tables(Some(&copies)) =~= direct(all));
    copies
}

/// Finishes the trampolines of the exported functions.
fn finish(text: &mut Vec<u8>, entries: &Vec<u32>)
    requires
        16 * entries@.len() + 8 <= old(text)@.len(),
    ensures
        final(text)@ == finished(old(text)@, entries@, entries@.len() as int),
        final(text)@.len() == old(text)@.len(),
{
    let n = entries.len();
    let len = text.len();
    let mut i: usize = 0;
    while i < n
        invariant
            n == entries@.len(),
            len == text@.len(),
            16 * n + 8 <= len,
            0 <= i <= n,
            text@ == finished(old(text)@, entries@, i as int),
        decreases n - i,
    {
        let trampo_entry = TRAMPOLINE_LEN * i;
        modify_pair(text, trampo_entry + 4, entries[i]);
        i += 1;
    }
}

/// Links the exported functions to their trampolines.
fn link_trampolines(table: &mut Vec<Symbol>, funcs: &Vec<u32>, text_begin: u32)
    requires
        forall|j: int| 0 <= j < funcs@.len() ==> #[trigger] funcs@[j] < old(table)@.len(),
        text_begin + 16 * funcs@.len() <= u32::MAX,
    ensures
        views(final(table)@) == trampolined(
            views(old(table)@),
            funcs@,
            text_begin,
            funcs@.len() as int,
        ),
{
    let n = funcs.len();
    let ghost start = views(table@);
    let mut i: usize = 0;
    while i < n
        invariant
            n == funcs@.len(),
            text_begin + 16 * n <= u32::MAX,
            0 <= i <= n,
            table@.len() == start.len(),
            forall|j: int| 0 <= j < funcs@.len() ==> #[trigger] funcs@[j] < start.len(),
            views(table@) == trampolined(start, funcs@, text_begin, i as int),
        decreases n - i,
    {
        let idx = funcs[i] as usize;
        let step = i as u32;
        assert(step == i && i < n);
        let trampo_entry = 16 * step;
        table[idx].index1 = text_begin + trampo_entry + 1;
        i += 1;
        assert(views(table@) =~= trampolined(start, funcs@, text_begin, i as int));
    }
}

/// Loads an image whole. `text_begin`, `got_begin` and `data_begin` are
/// the regions allocated for the copy of its code, for its offset table and
/// for its data, which must share no byte; the dependencies must have been
/// loaded in the same way.
#[verifier::rlimit(40)]
pub fn dl_load(
    image: &Image,
    dependencies: Option<&Vec<Module>>,
    text_begin: u32,
    got_begin: u32,
    data_begin: u32,
) -> (r: Result<Loaded, LoadError>)
    requires
        image@.wf(),
    ensures
        match load_error(image@, text_begin, got_begin, data_begin) {
            Some(e) => r == Err::<Loaded, LoadError>(e),
            None => {
                let ptrs = resident(image@, text_begin, got_begin, data_begin);
                let n = image@.funcs.len() as int;
                &&& r matches Ok(loaded)
                &&& loaded.text@ == modified_pair(
                    finished(image@.text, entry_words(image@, ptrs), n),
                    16 * n,
                    got_begin,
                )
                &&& loaded.got@ == image@.got_after(
                    ptrs,
                    direct(tables(dependencies)),
                    image@.relocs.len() as int,
                )
                &&& loaded.data@ == image@.data
                &&& loaded.module@ == (ModuleView {
                    sym_table: trampolined(image@.symbols, image@.funcs, text_begin, n),
                    ptrs,
                })
            },
        },
{
    if text_begin == 0 || got_begin == 0 || data_begin == 0 {
        return Err(LoadError::NullRegion);
    }
    if text_begin % 4 != 0 || got_begin % 4 != 0 || data_begin % 4 != 0 {
        return Err(LoadError::Misaligned);
    }
    let header = &image.header;
    let limit = u32::MAX as u64;
    if 16 * (header.n_funcs as u64) + 8 > header.l_text as u64 {
        return Err(LoadError::NoTrampolines);
    }
    if text_begin as u64 + header.l_text as u64 > limit || got_begin as u64 + 4 * (
    header.n_reloc as u64) > limit || data_begin as u64 + header.l_data as u64 > limit {
        return Err(LoadError::AddressOverflow);
    }
    let text_len = header.l_text as u64;
    let got_len = header.got_len();
    let data_len = header.l_data as u64;
    if !lie_apart(text_begin, text_len, got_begin, got_len) || !lie_apart(
        text_begin,
        text_len,
        data_begin,
        data_len,
    ) || !lie_apart(got_begin, got_len, data_begin, data_len) {
        return Err(LoadError::RegionOverlap);
    }
    let ptrs = ModulePtr {
        got_begin,
        plt_begin: 0,
        data_begin,
        text_begin,
        text_end: text_begin + header.l_text,
    };
    let entries = match function_words(image, &ptrs) {
        Some(v) => v,
        None => {
            return Err(LoadError::AddressOverflow);
        },
    };
    let copies = direct_copies(dependencies);
    let got = match fill_got(image, &ptrs, Some(&copies)) {
        Some(v) => v,
        None => {
            return Err(LoadError::AddressOverflow);
        },
    };
    let mut text = slice_to_vec(image.text);
    finish(&mut text, &entries);
    let common_trampo_entry = TRAMPOLINE_LEN * (header.n_funcs as usize);
    modify_pair(&mut text, common_trampo_entry, got_begin);
    let mut sym_table: Vec<Symbol> = Vec::new();
    let mut i: usize = 0;
    while i < image.symbols.len()
        invariant
            0 <= i <= image.symbols@.len(),
            sym_table@.len() == i,
            forall|j: int| 0 <= j < i ==> (#[trigger] sym_table@[j])@ == image.symbols@[j]@,
        decreases image.symbols@.len() - i,
    {
        sym_table.push(image.symbols[i].duplicate());
        i += 1;
    }
    assert(views(sym_table@) =~= image@.symbols);
    link_trampolines(&mut sym_table, &image.funcs, text_begin);
    let data = slice_to_vec(image.data);
    Ok(Loaded { module: Module { sym_table, ptrs }, text, got, data })
}

/// The address of the symbol `name` of a module loaded whole: for an
/// exported function that of its trampoline, with the Thumb bit set.
pub fn dl_entry_by_name(module: &Module, name: &str) -> (r: Option<u32>)
    ensures
        r == match module@.symbol(name@) {
            Some(s) => Some(s.index1),
            None => None,
        },
{
    match module.get_symbol(name) {
        Some(s) => Some(s.index1),
        None => None,
    }
}

/// The value of the variable `name` of a module loaded whole, read from
/// `data`, the present contents of the module's data.
pub fn dl_val_by_name<T, F: Fn(&[u8]) -> T>(module: &Module, name: &str, data: &[u8], bytes_to_t: F) -> (r:
    Result<T, LoadError>)
    requires
        forall|b: &[u8]| b@.len() == size_of::<T>() ==> call_requires(bytes_to_t, (b,)),
    ensures
        match module@.symbol(name@) {
            None => r == Err::<T, LoadError>(LoadError::SymbolNotFound),
            Some(s) => if s.index1 + size_of::<T>() <= data@.len() {
                r matches Ok(v) && exists|b: &[u8]|
                    b@ == data@.subrange(s.index1 as int, s.index1 + size_of::<T>())
                        && call_ensures(bytes_to_t, (b,), v)
            } else {
                r == Err::<T, LoadError>(LoadError::OutOfData)
            },
        },
{
    module.val_by_name(name, data, bytes_to_t)
}

} // verus!
