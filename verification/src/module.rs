//! Loaded modules: laying an image out in memory and looking symbols up.

use crate::image::{reloc_ok, Image, ImageView};
use crate::plt::{generate_plt, plt_bytes, rows, zeros, CROSS_LEN};
use crate::registry::{all_apart, lemma_push_apart, Range, Registry};
use crate::symbol::{views, Symbol, SymbolView, KIND_EXPORTED, KIND_EXTERNAL, KIND_LOCAL};
use crate::word::{read_word, stored, word_bytes, word_to_bytes, write_word};
use vstd::layout::size_of;
use vstd::prelude::*;
use vstd::slice::{slice_subrange, slice_to_vec};

verus! {

/// Why a module cannot be laid out or resolved, or a symbol not be had.
#[derive(Debug, Clone, Copy, PartialEq, Eq, Structural)]
pub enum LoadError {
    /// A region was not allocated: its address is zero.
    NullRegion,
    /// A region does not start at a multiple of four.
    Misaligned,
    /// A region, or an address computed from a symbol, does not fit in the
    /// 32-bit address space.
    AddressOverflow,
    /// Two of the regions of a module share a byte.
    RegionOverlap,
    /// The code of the module shares an address with the code of a module
    /// laid out before.
    CodeOverlap,
    /// The module's symbol table is not that of the image.
    TableMismatch,
    /// The module has no symbol of the name asked for.
    SymbolNotFound,
    /// The value asked for does not lie inside the module's data.
    OutOfData,
    /// The code is too short to start with the trampolines of the
    /// exported functions.
    NoTrampolines,
}

/// Where the parts of a loaded module lie in memory.
#[derive(Debug, Clone, Copy, PartialEq, Eq, Structural)]
pub struct ModulePtr {
    /// The offset table, and so the module's static base.
    pub got_begin: u32,
    /// The linkage table.
    pub plt_begin: u32,
    /// The writable copy of the initialised data.
    pub data_begin: u32,
    /// The code, where the image holds it.
    pub text_begin: u32,
    /// The end of the code.
    pub text_end: u32,
}

/// A loaded module.
#[derive(Debug)]
pub struct Module {
    pub sym_table: Vec<Symbol>,
    pub ptrs: ModulePtr,
}

/// A loaded module as a mathematical value.
pub struct ModuleView {
    pub sym_table: Seq<SymbolView>,
    pub ptrs: ModulePtr,
}

impl View for Module {
    type V = ModuleView;

    open spec fn view(&self) -> ModuleView {
        ModuleView { sym_table: views(self.sym_table@), ptrs: self.ptrs }
    }
}

/// The index of the first record of `table` that bears `name`.
pub open spec fn first_named(table: Seq<SymbolView>, name: Seq<char>) -> Option<int>
    decreases table.len(),
{
    if table.len() == 0 {
        None
    } else {
        match first_named(table.drop_last(), name) {
            Some(i) => Some(i),
            None => if table.last().name == name {
                Some(table.len() - 1)
            } else {
                None
            },
        }
    }
}

/// `first_named` finds a record that bears the name, the first such, and
/// finds one whenever there is one.
pub proof fn lemma_first_named(table: Seq<SymbolView>, name: Seq<char>)
    ensures
        match first_named(table, name) {
            Some(i) => 0 <= i < table.len() && table[i].name == name && forall|j: int|
                0 <= j < i ==> (#[trigger] table[j]).name != name,
            None => forall|j: int| 0 <= j < table.len() ==> (#[trigger] table[j]).name != name,
        },
    decreases table.len(),
{
    if table.len() > 0 {
        let front = table.drop_last();
        lemma_first_named(front, name);
        match first_named(front, name) {
            Some(i) => {
                assert forall|j: int| 0 <= j < i implies (#[trigger] table[j]).name != name by {
                    assert(front[j] == table[j]);
                }
            },
            None => {
                assert forall|j: int| 0 <= j < table.len() - 1 implies (#[trigger] table[j]).name
                    != name by {
                    assert(front[j] == table[j]);
                }
            },
        }
    }
}

/// A record found among the first `n` is the one found among all.
pub proof fn lemma_first_named_extends(table: Seq<SymbolView>, name: Seq<char>, n: int)
    requires
        0 <= n <= table.len(),
        first_named(table.take(n), name) is Some,
    ensures
        first_named(table, name) == first_named(table.take(n), name),
    decreases table.len() - n,
{
    if n < table.len() {
        assert(table.take(n + 1).drop_last() =~= table.take(n));
        lemma_first_named_extends(table, name, n + 1);
    } else {
        assert(table.take(n) =~= table);
    }
}

/// The index of the first record of `table` that bears `name`.
pub fn find_symbol(table: &Vec<Symbol>, name: &str) -> (r: Option<usize>)
    ensures
        match r {
            Some(i) => first_named(views(table@), name@) == Some(i as int),
            None => first_named(views(table@), name@) is None,
        },
{
    let wanted = name.to_owned();
    let ghost t = views(table@);
    let mut i: usize = 0;
    while i < table.len()
        invariant
            0 <= i <= table@.len(),
            t == views(table@),
            wanted@ == name@,
            first_named(t.take(i as int), name@) is None,
        decreases table@.len() - i,
    {
        proof {
            assert(t.take(i + 1).drop_last() =~= t.take(i as int));
            assert(t.take(i + 1).last() == table@[i as int]@);
        }
        if table[i].s_name == wanted {
            proof {
                lemma_first_named_extends(t, name@, i + 1);
            }
            return Some(i);
        }
        i += 1;
    }
    assert(t.take(i as int) =~= t);
    None
}

impl ModuleView {
    /// The record that a search for `name` finds.
    pub open spec fn symbol(self, name: Seq<char>) -> Option<SymbolView> {
        match first_named(self.sym_table, name) {
            Some(i) => Some(self.sym_table[i]),
            None => None,
        }
    }

    /// The address of the manual-entry stub of the function `name`: the
    /// first index of the record found, where that record has stubs.
    pub open spec fn entry(self, name: Seq<char>) -> Option<u32> {
        match self.symbol(name) {
            Some(s) => if s.index2 != 0 {
                Some(s.index1)
            } else {
                None
            },
            None => None,
        }
    }
}

/// The symbol tables of the dependencies, in the order in which they are
/// searched.
pub open spec fn tables(dependencies: Option<&Vec<Module>>) -> Seq<Seq<SymbolView>> {
    match dependencies {
        Some(v) => Seq::new(v@.len(), |i: int| views(v@[i].sym_table@)),
        None => Seq::empty(),
    }
}

/// The record that provides `name`: the first record of that name in the
/// first table that has one.
pub open spec fn provider(deps: Seq<Seq<SymbolView>>, name: Seq<char>) -> Option<SymbolView>
    decreases deps.len(),
{
    if deps.len() == 0 {
        None
    } else {
        match provider(deps.drop_last(), name) {
            Some(s) => Some(s),
            None => match first_named(deps.last(), name) {
                Some(i) => Some(deps.last()[i]),
                None => None,
            },
        }
    }
}

/// A provider found among the first `n` tables is the provider among all.
pub proof fn lemma_provider_extends(deps: Seq<Seq<SymbolView>>, name: Seq<char>, n: int)
    requires
        0 <= n <= deps.len(),
        provider(deps.take(n), name) is Some,
    ensures
        provider(deps, name) == provider(deps.take(n), name),
    decreases deps.len() - n,
{
    if n < deps.len() {
        assert(deps.take(n + 1).drop_last() =~= deps.take(n));
        lemma_provider_extends(deps, name, n + 1);
    } else {
        assert(deps.take(n) =~= deps);
    }
}

/// Whether a symbol is defined by the module that holds it.
pub open spec fn is_own(s: SymbolView) -> bool {
    s.kind() == KIND_LOCAL || s.kind() == KIND_EXPORTED
}

/// The address that a symbol of the module itself stands for: its payload,
/// counted from the code for a function and from the data otherwise.
pub open spec fn own_address(s: SymbolView, ptrs: ModulePtr) -> int {
    s.index1 + if s.is_function() {
        ptrs.text_begin
    } else {
        ptrs.data_begin
    }
}

impl ImageView {
    /// The symbol that relocation `k` refers to.
    pub open spec fn target(self, k: int) -> SymbolView {
        self.symbols[self.relocs[k].symbol as int]
    }

    /// What relocation `k` writes into its slot, if it writes: for a symbol
    /// of the module its address, for an external symbol the second index
    /// of its provider, which is the provider's cross-boundary slot.
    pub open spec fn value(self, ptrs: ModulePtr, deps: Seq<Seq<SymbolView>>, k: int) -> Option<
        u32,
    > {
        let s = self.target(k);
        if is_own(s) {
            Some(own_address(s, ptrs) as u32)
        } else if s.kind() == KIND_EXTERNAL {
            match provider(deps, s.name) {
                Some(p) => Some(p.index2),
                None => None,
            }
        } else {
            None
        }
    }

    /// The offset table after the first `k` relocations have been applied,
    /// in the order of the image, to a table of zeros.
    pub open spec fn got_after(self, ptrs: ModulePtr, deps: Seq<Seq<SymbolView>>, k: int) -> Seq<
        u8,
    >
        decreases k,
    {
        if k <= 0 {
            zeros(4 * self.header.n_reloc)
        } else {
            let before = self.got_after(ptrs, deps, k - 1);
            match self.value(ptrs, deps, k - 1) {
                Some(e) => stored(before, self.slot(k - 1) as int, e),
                None => before,
            }
        }
    }

    /// The address of the code of exported function `j`.
    pub open spec fn func_address(self, ptrs: ModulePtr, j: int) -> int {
        self.symbols[self.funcs[j] as int].index1 + ptrs.text_begin
    }

    /// The addresses of the exported functions, each as four bytes.
    pub open spec fn func_entries(self, ptrs: ModulePtr) -> Seq<Seq<u8>> {
        Seq::new(self.funcs.len(), |j: int| word_bytes(self.func_address(ptrs, j) as u32))
    }

    /// Whether every address that resolving computes fits in 32 bits.
    pub open spec fn addresses_fit(self, ptrs: ModulePtr) -> bool {
        &&& forall|j: int| 0 <= j < self.funcs.len() ==> #[trigger] self.func_address(ptrs, j) <= u32::MAX
        &&& forall|k: int|
            0 <= k < self.relocs.len() && is_own(#[trigger] self.target(k)) ==> own_address(
                self.target(k),
                ptrs,
            ) <= u32::MAX
    }

    /// Whether the linkage table and every address that resolving computes
    /// fit in 32 bits.
    pub open spec fn fits(self, ptrs: ModulePtr) -> bool {
        ptrs.plt_begin + 80 * self.header.n_funcs <= u32::MAX && self.addresses_fit(ptrs)
    }
}

/// The address of the manual-entry stub of function `i`, Thumb bit set.
pub open spec fn manual_entry(plt_begin: u32, i: int) -> int {
    plt_begin + 20 * i + 1
}

/// The address of the cross-boundary slot of function `i` of `n`, Thumb bit
/// set.
pub open spec fn cross_entry(plt_begin: u32, n: int, i: int) -> int {
    plt_begin + 20 * n + 60 * i + 1
}

/// The symbol table once the first `n` exported functions have had their
/// two indices replaced by the addresses of their stubs.
pub open spec fn linked(table: Seq<SymbolView>, funcs: Seq<u32>, plt_begin: u32, n: int) -> Seq<
    SymbolView,
>
    decreases n,
{
    if n <= 0 {
        table
    } else {
        let t = linked(table, funcs, plt_begin, n - 1);
        let at = funcs[n - 1] as int;
        t.update(
            at,
            SymbolView {
                index1: manual_entry(plt_begin, n - 1) as u32,
                index2: cross_entry(plt_begin, funcs.len() as int, n - 1) as u32,
                ..t[at]
            },
        )
    }
}

/// Linking replaces indices only: the table keeps its length, and every
/// record its type and name.
pub proof fn lemma_linked_shape(table: Seq<SymbolView>, funcs: Seq<u32>, plt_begin: u32, n: int)
    requires
        0 <= n <= funcs.len(),
        forall|j: int| 0 <= j < funcs.len() ==> #[trigger] funcs[j] < table.len(),
    ensures
        linked(table, funcs, plt_begin, n).len() == table.len(),
        forall|i: int|
            0 <= i < table.len() ==> (#[trigger] linked(table, funcs, plt_begin, n)[i]).s_type
                == table[i].s_type && linked(table, funcs, plt_begin, n)[i].name == table[i].name,
    decreases n,
{
    if n > 0 {
        lemma_linked_shape(table, funcs, plt_begin, n - 1);
        assert(funcs[n - 1] < table.len());
    }
}

/// Whether two regions, of `a_len` bytes at `a` and of `b_len` bytes at
/// `b`, share no byte.
pub open spec fn regions_apart(a: u32, a_len: int, b: u32, b_len: int) -> bool {
    a_len == 0 || b_len == 0 || a + a_len <= b || b + b_len <= a
}

/// What is wrong with laying the image out at these addresses, beside the
/// modules whose code lies at `ranges`, if anything. The checks come in
/// this order: allocation, alignment, the 32-bit range, the regions among
/// themselves, the code among the code of the other modules.
pub open spec fn layout_error(
    img: ImageView,
    image_base: u32,
    got_begin: u32,
    plt_begin: u32,
    data_begin: u32,
    ranges: Seq<Range>,
) -> Option<LoadError> {
    let got_len = 4 * img.header.n_reloc;
    let plt_len = 80 * img.header.n_funcs;
    let data_len = img.header.l_data as int;
    if got_begin == 0 || plt_begin == 0 || data_begin == 0 {
        Some(LoadError::NullRegion)
    } else if got_begin % 4 != 0 || plt_begin % 4 != 0 || data_begin % 4 != 0 {
        Some(LoadError::Misaligned)
    } else if image_base + img.header.data_at() > u32::MAX || got_begin + got_len > u32::MAX
        || plt_begin + plt_len > u32::MAX || data_begin + data_len > u32::MAX {
        Some(LoadError::AddressOverflow)
    } else if !regions_apart(got_begin, got_len, plt_begin, plt_len) || !regions_apart(
        got_begin,
        got_len,
        data_begin,
        data_len,
    ) || !regions_apart(plt_begin, plt_len, data_begin, data_len) {
        Some(LoadError::RegionOverlap)
    } else if !(forall|i: int|
        0 <= i < ranges.len() ==> (#[trigger] ranges[i]).apart(
            code_range(img, image_base, got_begin),
        )) {
        Some(LoadError::CodeOverlap)
    } else {
        None
    }
}

/// The range that the code of the image takes in the registry.
pub open spec fn code_range(img: ImageView, image_base: u32, got_begin: u32) -> Range {
    Range {
        start: (image_base + img.header.text_at()) as u32,
        end: (image_base + img.header.data_at()) as u32,
        base: got_begin,
    }
}

/// Where the image's parts lie once it is laid out: the code stays where
/// the image holds it.
pub open spec fn placed(
    img: ImageView,
    image_base: u32,
    got_begin: u32,
    plt_begin: u32,
    data_begin: u32,
) -> ModulePtr {
    ModulePtr {
        got_begin,
        plt_begin,
        data_begin,
        text_begin: (image_base + img.header.text_at()) as u32,
        text_end: (image_base + img.header.data_at()) as u32,
    }
}

/// A module that has been laid out, and what its regions hold at first.
#[derive(Debug)]
pub struct Allocated {
    pub module: Module,
    /// The offset table: `4 * n_reloc` zero bytes.
    pub got: Vec<u8>,
    /// The data: the initialised data of the image.
    pub data: Vec<u8>,
}

/// The contents of the two regions that resolving a module fills.
#[derive(Debug)]
pub struct Regions {
    /// The offset table, `4 * n_reloc` bytes.
    pub got: Vec<u8>,
    /// The linkage table, `80 * n_funcs` bytes.
    pub plt: Vec<u8>,
}

/// What is wrong with resolving a module of this symbol table and layout
/// against the image, if anything.
pub open spec fn resolve_error(m: ModuleView, img: ImageView) -> Option<LoadError> {
    if m.sym_table.len() != img.symbols.len() {
        Some(LoadError::TableMismatch)
    } else if !img.fits(m.ptrs) {
        Some(LoadError::AddressOverflow)
    } else {
        None
    }
}

/// Finds the record that provides `name` among the dependencies.
fn find_provider<'a>(dependencies: Option<&'a Vec<Module>>, name: &str) -> (r: Option<&'a Symbol>)
    ensures
        match r {
            Some(s) => provider(tables(dependencies), name@) == Some(s@),
            None => provider(tables(dependencies), name@) is None,
        },
{
    let deps = match dependencies {
        Some(v) => v,
        None => {
            return None;
        },
    };
    let ghost all = tables(dependencies);
    let mut d: usize = 0;
    while d < deps.len()
        invariant
            0 <= d <= deps@.len(),
            dependencies == Some(deps),
            all == tables(dependencies),
            provider(all.take(d as int), name@) is None,
        decreases deps@.len() - d,
    {
        proof {
            assert(all.take(d + 1).drop_last() =~= all.take(d as int));
            assert(all.take(d + 1).last() == views(deps@[d as int].sym_table@));
        }
        match find_symbol(&deps[d].sym_table, name) {
            Some(i) => {
                proof {
                    lemma_first_named(views(deps@[d as int].sym_table@), name@);
                    lemma_provider_extends(all, name@, d + 1);
                }
                return Some(&deps[d].sym_table[i]);
            },
            None => {},
        }
        d += 1;
    }
    assert(all.take(d as int) =~= all);
    None
}

/// Whether two regions share no byte.
pub(crate) fn lie_apart(a: u32, a_len: u64, b: u32, b_len: u64) -> (r: bool)
    requires
        a + a_len <= u32::MAX,
        b + b_len <= u32::MAX,
    ensures
        r == regions_apart(a, a_len as int, b, b_len as int),
{
    a_len == 0 || b_len == 0 || a as u64 + a_len <= b as u64 || b as u64 + b_len <= a as u64
}

/// An offset table of `n_reloc` slots, all zero.
fn zeroed(n_reloc: u32) -> (got: Vec<u8>)
    ensures
        got@ == zeros(4 * n_reloc),
{
    let mut got: Vec<u8> = Vec::new();
    let mut z: u32 = 0;
    while z < n_reloc
        invariant
            0 <= z <= n_reloc,
            got@ =~= zeros(4 * z),
        decreases n_reloc - z,
    {
        got.push(0);
        got.push(0);
        got.push(0);
        got.push(0);
        z += 1;
    }
    got
}

/// Computes the addresses of the exported functions, unless one does not
/// fit in 32 bits.
fn function_entries(image: &Image, ptrs: &ModulePtr) -> (r: Option<Vec<[u8; 4]>>)
    requires
        image@.wf(),
    ensures
        r is Some <==> forall|j: int|
            0 <= j < image@.funcs.len() ==> #[trigger] image@.func_address(*ptrs, j) <= u32::MAX,
        r matches Some(v) ==> rows(v@) == image@.func_entries(*ptrs),
{
    let mut entries: Vec<[u8; 4]> = Vec::new();
    let mut j: usize = 0;
    while j < image.funcs.len()
        invariant
            image@.wf(),
            0 <= j <= image.funcs@.len(),
            entries@.len() == j,
            forall|i: int| 0 <= i < j ==> #[trigger] image@.func_address(*ptrs, i) <= u32::MAX,
            forall|i: int|
                0 <= i < j ==> (#[trigger] entries@[i])@ == word_bytes(
                    image@.func_address(*ptrs, i) as u32,
                ),
        decreases image.funcs@.len() - j,
    {
        let idx = image.funcs[j] as usize;
        assert(image@.funcs[j as int] < image@.header.n_symbol);
        let payload = image.symbols[idx].index1;
        assert(payload == image@.symbols[idx as int].index1);
        match payload.checked_add(ptrs.text_begin) {
            Some(entry) => {
                entries.push(word_to_bytes(entry));
            },
            None => {
                assert(image@.func_address(*ptrs, j as int) > u32::MAX);
                return None;
            },
        }
        j += 1;
    }
    assert(rows(entries@) =~= image@.func_entries(*ptrs));
    Some(entries)
}

/// Applies the relocations of an image to a table of zeros, unless an
/// address does not fit in 32 bits.
#[verifier::rlimit(40)]
pub(crate) fn fill_got(image: &Image, ptrs: &ModulePtr, dependencies: Option<&Vec<Module>>) -> (r: Option<
    Vec<u8>,
>)
    requires
        image@.wf(),
    ensures
        r is Some <==> forall|k: int|
            0 <= k < image@.relocs.len() && is_own(#[trigger] image@.target(k)) ==> own_address(
                image@.target(k),
                *ptrs,
            ) <= u32::MAX,
        r matches Some(got) ==> got@ == image@.got_after(
            *ptrs,
            tables(dependencies),
            image@.relocs.len() as int,
        ),
{
    let n = image.relocs.len();
    let ghost deps = tables(dependencies);
    let mut got = zeroed(image.header.n_reloc);
    let mut k: usize = 0;
    while k < n
        invariant
            image@.wf(),
            n == image.relocs@.len(),
            deps == tables(dependencies),
            0 <= k <= n,
            got@.len() == 4 * n,
            got@ == image@.got_after(*ptrs, deps, k as int),
            forall|i: int|
                0 <= i < k && is_own(#[trigger] image@.target(i)) ==> own_address(
                    image@.target(i),
                    *ptrs,
                ) <= u32::MAX,
        decreases n - k,
    {
        let reloc = image.relocs[k];
        assert(reloc_ok(
            image@.header.n_symbol,
            image@.header.n_reloc,
            image@.text,
            image@.relocs[k as int],
        ));
        let sym = &image.symbols[reloc.symbol as usize];
        assert(sym@ == image@.target(k as int));
        let got_index = read_word(image.text, reloc.offset as usize) as usize;
        let kind = sym.kind();
        if kind == KIND_LOCAL || kind == KIND_EXPORTED {
            let base = if sym.is_function() {
                ptrs.text_begin
            } else {
                ptrs.data_begin
            };
            match sym.index1.checked_add(base) {
                Some(entry) => {
                    write_word(&mut got, got_index, entry);
                },
                None => {
                    return None;
                },
            }
        } else if kind == KIND_EXTERNAL {
            match find_provider(dependencies, sym.s_name.as_str()) {
                Some(symbol) => {
                    write_word(&mut got, got_index, symbol.index2);
                },
                None => {},
            }
        }
        k += 1;
    }
    Some(got)
}

/// Replaces the two indices of every exported function by the addresses of
/// its stubs.
fn link_stubs(table: &mut Vec<Symbol>, funcs: &Vec<u32>, plt_begin: u32)
    requires
        forall|j: int| 0 <= j < funcs@.len() ==> #[trigger] funcs@[j] < old(table)@.len(),
        plt_begin + 80 * funcs@.len() <= u32::MAX,
    ensures
        views(final(table)@) == linked(views(old(table)@), funcs@, plt_begin, funcs@.len() as int),
{
    let n = funcs.len();
    let plt_1_len = (20 * n) as u32;
    let ghost start = views(table@);
    let mut i: usize = 0;
    while i < n
        invariant
            n == funcs@.len(),
            plt_begin + 80 * n <= u32::MAX,
            plt_1_len == 20 * n,
            0 <= i <= n,
            table@.len() == start.len(),
            forall|j: int| 0 <= j < funcs@.len() ==> #[trigger] funcs@[j] < start.len(),
            views(table@) == linked(start, funcs@, plt_begin, i as int),
        decreases n - i,
    {
        let idx = funcs[i] as usize;
        let ghost before = views(table@);
        let step = i as u32;
        assert(step == i && i < n);
        let manual = 20 * step;
        let cross = 60 * step;
        table[idx].index1 = plt_begin + manual + 1;
        table[idx].index2 = plt_begin + cross + plt_1_len + 1;
        i += 1;
        assert(views(table@) =~= linked(start, funcs@, plt_begin, i as int));
    }
}

impl Module {
    /// Lays an image out. The image lies at `image_base` and its code stays
    /// there; `got_begin`, `plt_begin` and `data_begin` are the regions
    /// allocated for its offset table, its linkage table and its data,
    /// which start out as zeros and as the data of the image. The
    /// module's code range joins the registry. The three regions must be
    /// allocated, start at multiples of four and share no byte, and the
    /// code must share no address with the code of a module in the
    /// registry.
    pub fn allocate(
        image: &Image,
        image_base: u32,
        got_begin: u32,
        plt_begin: u32,
        data_begin: u32,
        registry: &mut Registry,
    ) -> (r: Result<Allocated, LoadError>)
        ensures
            match layout_error(
                image@,
                image_base,
                got_begin,
                plt_begin,
                data_begin,
                old(registry)@,
            ) {
                Some(e) => r == Err::<Allocated, LoadError>(e) && final(registry)@ == old(
                    registry,
                )@,
                None => {
                    let ptrs = placed(image@, image_base, got_begin, plt_begin, data_begin);
                    &&& r matches Ok(a)
                    &&& a.module@ == ModuleView { sym_table: image@.symbols, ptrs }
                    &&& a.got@ == zeros(4 * image@.header.n_reloc)
                    &&& a.data@ == image@.data
                    &&& final(registry)@ == old(registry)@.push(
                        code_range(image@, image_base, got_begin),
                    )
                },
            },
            all_apart(old(registry)@) ==> all_apart(final(registry)@),
    {
        if got_begin == 0 || plt_begin == 0 || data_begin == 0 {
            return Err(LoadError::NullRegion);
        }
        if got_begin % 4 != 0 || plt_begin % 4 != 0 || data_begin % 4 != 0 {
            return Err(LoadError::Misaligned);
        }
        let header = &image.header;
        let limit = u32::MAX as u64;
        let text_at = header.text_offset();
        if image_base as u64 + text_at + header.l_text as u64 > limit || got_begin as u64 + 4 * (
        header.n_reloc as u64) > limit || plt_begin as u64 + 80 * (header.n_funcs as u64) > limit
            || data_begin as u64 + header.l_data as u64 > limit {
            return Err(LoadError::AddressOverflow);
        }
        let got_len = header.got_len();
        let plt_len = header.plt_len();
        let data_len = header.l_data as u64;
        if !lie_apart(got_begin, got_len, plt_begin, plt_len) || !lie_apart(
            got_begin,
            got_len,
            data_begin,
            data_len,
        ) || !lie_apart(plt_begin, plt_len, data_begin, data_len) {
            return Err(LoadError::RegionOverlap);
        }
        let text_begin = (image_base as u64 + text_at) as u32;
        let ptrs = ModulePtr {
            got_begin,
            plt_begin,
            data_begin,
            text_begin,
            text_end: text_begin + header.l_text,
        };
        let range = Range { start: ptrs.text_begin, end: ptrs.text_end, base: ptrs.got_begin };
        if !registry.is_apart(range) {
            return Err(LoadError::CodeOverlap);
        }
        proof {
            if all_apart(registry@) {
                lemma_push_apart(registry@, range);
            }
        }
        let mut sym_table: Vec<Symbol> = Vec::new();
        let mut i: usize = 0;
        while i < image.symbols.len()
            invariant
                0 <= i <= image.symbols@.len(),
                sym_table@.len() == i,
                forall|j: int| 0 <= j < i ==> (#[trigger] sym_table@[j])@ == image.symbols@[j]@,
            decreases image.symbols@.len() - i,
        {
            sym_table.push(image.symbols[i].duplicate());
            i += 1;
        }
        assert(views(sym_table@) =~= image@.symbols);
        let got = zeroed(header.n_reloc);
        let data = slice_to_vec(image.data);
        registry.push(range);
        Ok(Allocated { module: Module { sym_table, ptrs }, got, data })
    }

    /// Resolves the module against the image it was laid out from and the
    /// modules it depends on, which must have been resolved before.
    ///
    /// Gives the contents of the offset table and of the linkage table, and
    /// makes the two indices of every exported function the addresses of
    /// its stubs. The relocations are applied in the order of the image, so
    /// that of two that select one slot the later one stays. An external
    /// symbol that no dependency provides leaves its slot as it is.
    pub fn resolve(&mut self, image: &Image, dependencies: Option<&Vec<Module>>) -> (r: Result<
        Regions,
        LoadError,
    >)
        requires
            image@.wf(),
        ensures
            final(self)@.ptrs == old(self)@.ptrs,
            match resolve_error(old(self)@, image@) {
                Some(e) => r == Err::<Regions, LoadError>(e) && final(self)@ == old(self)@,
                None => {
                    &&& r matches Ok(regions)
                    &&& regions.got@ == image@.got_after(
                        old(self)@.ptrs,
                        tables(dependencies),
                        image@.relocs.len() as int,
                    )
                    &&& regions.plt@ == plt_bytes(
                        image@.func_entries(old(self)@.ptrs),
                        old(self)@.ptrs.got_begin,
                        60,
                    )
                    &&& final(self)@.sym_table == linked(
                        old(self)@.sym_table,
                        image@.funcs,
                        old(self)@.ptrs.plt_begin,
                        image@.funcs.len() as int,
                    )
                },
            },
    {
        if self.sym_table.len() != image.symbols.len() {
            return Err(LoadError::TableMismatch);
        }
        if self.ptrs.plt_begin as u64 + 80 * (image.header.n_funcs as u64) > u32::MAX as u64 {
            return Err(LoadError::AddressOverflow);
        }
        let entries = match function_entries(image, &self.ptrs) {
            Some(v) => v,
            None => {
                return Err(LoadError::AddressOverflow);
            },
        };
        let got = match fill_got(image, &self.ptrs, dependencies) {
            Some(v) => v,
            None => {
                return Err(LoadError::AddressOverflow);
            },
        };
        let plt = generate_plt(&entries, CROSS_LEN, self.ptrs.got_begin);
        link_stubs(&mut self.sym_table, &image.funcs, self.ptrs.plt_begin);
        Ok(Regions { got, plt })
    }

    /// The first symbol of the module that bears `name`.
    pub fn get_symbol(&self, name: &str) -> (r: Option<&Symbol>)
        ensures
            match r {
                Some(s) => self@.symbol(name@) == Some(s@),
                None => self@.symbol(name@) is None,
            },
    {
        match find_symbol(&self.sym_table, name) {
            Some(i) => {
                proof {
                    lemma_first_named(self@.sym_table, name@);
                }
                Some(&self.sym_table[i])
            },
            None => None,
        }
    }

    /// The address, with the Thumb bit set, at which to call the exported
    /// function `name` through a plain function pointer; nothing where the
    /// module has no such symbol, or where the symbol has no stubs.
    pub fn entry_by_name(&self, name: &str) -> (r: Option<u32>)
        ensures
            r == self@.entry(name@),
    {
        match self.get_symbol(name) {
            Some(s) => if s.index2 != 0 {
                Some(s.index1)
            } else {
                None
            },
            None => None,
        }
    }

    /// The value of the variable `name`, read from `data`, the present
    /// contents of the module's data: `bytes_to_t` gets the bytes that the
    /// variable occupies, as many as a `T` has, and makes the value of them.
    pub fn val_by_name<T, F: Fn(&[u8]) -> T>(&self, name: &str, data: &[u8], bytes_to_t: F) -> (r:
        Result<T, LoadError>)
        requires
            forall|b: &[u8]| b@.len() == size_of::<T>() ==> call_requires(bytes_to_t, (b,)),
        ensures
            match self@.symbol(name@) {
                None => r == Err::<T, LoadError>(LoadError::SymbolNotFound),
                Some(s) => if s.index1 + size_of::<T>() <= data@.len() {
                    r matches Ok(v) && exists|b: &[u8]|
                        b@ == data@.subrange(s.index1 as int, s.index1 + size_of::<T>())
                            && call_ensures(bytes_to_t, (b,), v)
                } else {
                    r == Err::<T, LoadError>(LoadError::OutOfData)
                },
            },
    {
        let offset = match self.get_symbol(name) {
            Some(s) => s.index1 as usize,
            None => {
                return Err(LoadError::SymbolNotFound);
            },
        };
        let size = core::mem::size_of::<T>();
        if offset > data.len() || size > data.len() - offset {
            return Err(LoadError::OutOfData);
        }
        let b = slice_subrange(data, offset, offset + size);
        Ok(bytes_to_t(b))
    }
}

} // verus!
