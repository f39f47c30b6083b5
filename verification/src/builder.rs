//! Building an image from a linked object.
//!
//! The symbols of the object are sifted and tagged, those the image needs
//! are given their places in the symbol table behind the record that stands
//! for the module itself, and relocations and exported functions are
//! rewritten to refer to those places.

use crate::elf::{
    get_symbol_type, name_views, relocation_views, symbol_views, tag, ElfSymbol, ElfSymbolView,
    Relocation, RelocationView,
};
use crate::encode::{
    image_bytes, lemma_records_len, lemma_roundtrip, plain_name, plain_symbol, pool, pool_size,
    table_bytes,
};
use crate::image::{
    reloc_ok, spec_decode, Image, ImageError, ImageView, ModuleHeader, RelocEntry,
};
use crate::symbol::{
    is_named, views, Symbol, SymbolType, SymbolView, FUNCTION_FLAG, KIND_MODULE,
};
use crate::text::{has_prefix, same, starts_with};
use crate::word::read_word;
use vstd::prelude::*;

verus! {

/// A symbol that the builder has admitted and tagged.
#[derive(Debug)]
pub struct Entry {
    pub name: String,
    pub kind: SymbolType,
    pub section: Option<usize>,
    pub address: u64,
}

/// An admitted symbol as a mathematical value.
pub struct EntryView {
    pub name: Seq<char>,
    pub kind: SymbolType,
    pub section: Option<usize>,
    pub address: u64,
}

impl View for Entry {
    type V = EntryView;

    open spec fn view(&self) -> EntryView {
        EntryView {
            name: self.name@,
            kind: self.kind,
            section: self.section,
            address: self.address,
        }
    }
}

/// The views of a list of admitted symbols.
pub open spec fn entry_views(entries: Seq<Entry>) -> Seq<EntryView> {
    Seq::new(entries.len(), |i: int| entries[i]@)
}

/// Whether the builder admits a symbol: it has a name, the name is no Thumb
/// mapping symbol and not the module's own name, and the symbol has a tag.
pub open spec fn admitted(s: ElfSymbolView, module_name: Seq<char>) -> bool {
    &&& s.name.len() > 0
    &&& !starts_with(s.name, "$t"@)
    &&& !starts_with(s.name, "$d"@)
    &&& s.name != module_name
    &&& tag(s) is Some
}

/// The entry that an admitted symbol becomes.
pub open spec fn entry_of(s: ElfSymbolView) -> EntryView {
    EntryView { name: s.name, kind: tag(s).unwrap(), section: s.section, address: s.address }
}

/// The index of the first entry of `entries` that bears `name`.
pub open spec fn position(entries: Seq<EntryView>, name: Seq<char>) -> Option<int>
    decreases entries.len(),
{
    if entries.len() == 0 {
        None
    } else {
        match position(entries.drop_last(), name) {
            Some(i) => Some(i),
            None => if entries.last().name == name {
                Some(entries.len() - 1)
            } else {
                None
            },
        }
    }
}

/// `position` finds an entry that bears the name, the first such, and finds
/// one whenever there is one.
pub proof fn lemma_position(entries: Seq<EntryView>, name: Seq<char>)
    ensures
        match position(entries, name) {
            Some(i) => 0 <= i < entries.len() && entries[i].name == name && forall|j: int|
                0 <= j < i ==> (#[trigger] entries[j]).name != name,
            None => forall|j: int| 0 <= j < entries.len() ==> (#[trigger] entries[j]).name != name,
        },
    decreases entries.len(),
{
    if entries.len() > 0 {
        let front = entries.drop_last();
        lemma_position(front, name);
        match position(front, name) {
            Some(i) => {
                assert forall|j: int| 0 <= j < i implies (#[trigger] entries[j]).name != name by {
                    assert(front[j] == entries[j]);
                }
            },
            None => {
                assert forall|j: int| 0 <= j < entries.len() - 1 implies (#[trigger] entries[j]).name
                    != name by {
                    assert(front[j] == entries[j]);
                }
            },
        }
    }
}

/// A position found among the first `n` entries is the position among all.
pub proof fn lemma_position_extends(entries: Seq<EntryView>, name: Seq<char>, n: int)
    requires
        0 <= n <= entries.len(),
        position(entries.take(n), name) is Some,
    ensures
        position(entries, name) == position(entries.take(n), name),
    decreases entries.len() - n,
{
    if n < entries.len() {
        assert(entries.take(n + 1).drop_last() =~= entries.take(n));
        lemma_position_extends(entries, name, n + 1);
    } else {
        assert(entries.take(n) =~= entries);
    }
}

/// Finds the first entry that bears `name`.
pub fn find_entry(entries: &Vec<Entry>, name: &str) -> (r: Option<usize>)
    ensures
        match r {
            Some(i) => position(entry_views(entries@), name@) == Some(i as int),
            None => position(entry_views(entries@), name@) is None,
        },
{
    let wanted = name.to_owned();
    let ghost all = entry_views(entries@);
    let mut i: usize = 0;
    while i < entries.len()
        invariant
            0 <= i <= entries@.len(),
            all == entry_views(entries@),
            wanted@ == name@,
            position(all.take(i as int), name@) is None,
        decreases entries@.len() - i,
    {
        proof {
            assert(all.take(i + 1).drop_last() =~= all.take(i as int));
            assert(all.take(i + 1).last() == entries@[i as int]@);
        }
        if entries[i].name == wanted {
            proof {
                lemma_position_extends(all, name@, i + 1);
            }
            return Some(i);
        }
        i += 1;
    }
    assert(all.take(i as int) =~= all);
    None
}

/// The admitted symbols of an object, one entry per name: the names stand
/// in the order in which the file first has them, and each entry is that of
/// the last admitted symbol of its name.
pub open spec fn catalog(symbols: Seq<ElfSymbolView>, module_name: Seq<char>) -> Seq<EntryView>
    decreases symbols.len(),
{
    if symbols.len() == 0 {
        Seq::empty()
    } else {
        let front = catalog(symbols.drop_last(), module_name);
        let s = symbols.last();
        if !admitted(s, module_name) {
            front
        } else {
            match position(front, s.name) {
                Some(p) => front.update(p, entry_of(s)),
                None => front.push(entry_of(s)),
            }
        }
    }
}

/// Sifts and tags the symbols of an object.
#[verifier::rlimit(40)]
pub fn make_catalog(symbols: &Vec<ElfSymbol>, module_name: &str) -> (entries: Vec<Entry>)
    ensures
        entry_views(entries@) == catalog(symbol_views(symbols@), module_name@),
{
    let ghost all = symbol_views(symbols@);
    let mut entries: Vec<Entry> = Vec::new();
    let mut i: usize = 0;
    while i < symbols.len()
        invariant
            0 <= i <= symbols@.len(),
            all == symbol_views(symbols@),
            entry_views(entries@) == catalog(all.take(i as int), module_name@),
        decreases symbols@.len() - i,
    {
        let symbol = &symbols[i];
        let ghost before = entry_views(entries@);
        proof {
            assert(all.take(i + 1).drop_last() =~= all.take(i as int));
            assert(all.take(i + 1).last() == symbol@);
        }
        let name = symbol.name.as_str();
        let named = name.unicode_len() > 0;
        if named && !has_prefix(name, "$t") && !has_prefix(name, "$d") && !same(name, module_name) {
            match get_symbol_type(symbol) {
                Some(symbol_type) => {
                    let entry = Entry {
                        name: symbol.name.clone(),
                        kind: symbol_type,
                        section: symbol.section,
                        address: symbol.address,
                    };
                    proof {
                        lemma_position(before, symbol@.name);
                    }
                    match find_entry(&entries, name) {
                        Some(p) => {
                            entries[p] = entry;
                            assert(entry_views(entries@) =~= before.update(
                                p as int,
                                entry_of(symbol@),
                            ));
                        },
                        None => {
                            entries.push(entry);
                            assert(entry_views(entries@) =~= before.push(entry_of(symbol@)));
                        },
                    }
                },
                None => {},
            }
        }
        i += 1;
    }
    assert(all.take(i as int) =~= all);
    entries
}

impl Entry {
    /// A copy of the entry.
    pub fn duplicate(&self) -> (e: Entry)
        ensures
            e@ == self@,
    {
        Entry {
            name: self.name.clone(),
            kind: self.kind,
            section: self.section,
            address: self.address,
        }
    }
}

/// Whether a relocation refers to a symbol of this name.
pub open spec fn mentioned(relocations: Seq<RelocationView>, name: Seq<char>) -> bool {
    exists|k: int| 0 <= k < relocations.len() && (#[trigger] relocations[k]).name == name
}

/// Whether a relocation refers to a symbol of this name.
pub fn is_mentioned(relocations: &Vec<Relocation>, name: &str) -> (r: bool)
    ensures
        r == mentioned(relocation_views(relocations@), name@),
{
    let ghost all = relocation_views(relocations@);
    let mut k: usize = 0;
    while k < relocations.len()
        invariant
            0 <= k <= relocations@.len(),
            all == relocation_views(relocations@),
            forall|j: int| 0 <= j < k ==> (#[trigger] all[j]).name != name@,
        decreases relocations@.len() - k,
    {
        if same(relocations[k].name.as_str(), name) {
            assert(all[k as int].name == name@);
            return true;
        }
        k += 1;
    }
    false
}

/// Whether the image needs an admitted symbol: a relocation refers to it,
/// or it is exported or external.
pub open spec fn needed(e: EntryView, relocations: Seq<RelocationView>) -> bool {
    mentioned(relocations, e.name) || e.kind == SymbolType::External || e.kind
        == SymbolType::Exported
}

/// The entries that the image needs, in their order.
pub open spec fn selection(entries: Seq<EntryView>, relocations: Seq<RelocationView>) -> Seq<
    EntryView,
>
    decreases entries.len(),
{
    if entries.len() == 0 {
        Seq::empty()
    } else {
        let front = selection(entries.drop_last(), relocations);
        if needed(entries.last(), relocations) {
            front.push(entries.last())
        } else {
            front
        }
    }
}

/// Picks the entries that the image needs.
pub fn select(entries: &Vec<Entry>, relocations: &Vec<Relocation>) -> (sym_names: Vec<Entry>)
    ensures
        entry_views(sym_names@) == selection(entry_views(entries@), relocation_views(relocations@)),
{
    let ghost all = entry_views(entries@);
    let ghost relocs = relocation_views(relocations@);
    let mut sym_names: Vec<Entry> = Vec::new();
    let mut i: usize = 0;
    while i < entries.len()
        invariant
            0 <= i <= entries@.len(),
            all == entry_views(entries@),
            relocs == relocation_views(relocations@),
            entry_views(sym_names@) == selection(all.take(i as int), relocs),
        decreases entries@.len() - i,
    {
        let entry = &entries[i];
        let ghost before = entry_views(sym_names@);
        proof {
            assert(all.take(i + 1).drop_last() =~= all.take(i as int));
            assert(all.take(i + 1).last() == entry@);
        }
        let wanted = is_mentioned(relocations, entry.name.as_str()) || match entry.kind {
            SymbolType::External => true,
            SymbolType::Exported => true,
            SymbolType::Local => false,
        };
        if wanted {
            sym_names.push(entry.duplicate());
            assert(entry_views(sym_names@) =~= before.push(entry@));
        }
        i += 1;
    }
    assert(all.take(i as int) =~= all);
    sym_names
}

/// Whether an entry is defined in the section of the code.
pub open spec fn in_text(e: EntryView, text_section: usize) -> bool {
    e.section == Some(text_section)
}

/// The payload of an entry: nothing for an external symbol, the address for
/// a symbol in the code, and for any other the address less the length of
/// the code, which is its offset in the data.
pub open spec fn payload(e: EntryView, text_section: usize, text_len: int) -> int {
    if e.kind == SymbolType::External {
        0
    } else if in_text(e, text_section) {
        e.address as int
    } else {
        e.address - text_len
    }
}

/// The record that an entry becomes. Only exported and external symbols
/// keep their names.
pub open spec fn record(e: EntryView, text_section: usize, text_len: int) -> SymbolView {
    SymbolView {
        s_type: (e.kind.spec_code() + if in_text(e, text_section) {
            4int
        } else {
            0int
        }) as u8,
        index1: payload(e, text_section, text_len) as u32,
        index2: 0,
        name: if e.kind == SymbolType::Local {
            Seq::empty()
        } else {
            e.name
        },
    }
}

/// The record that stands for the module itself.
pub open spec fn module_record() -> SymbolView {
    SymbolView { s_type: KIND_MODULE, index1: 0, index2: 0, name: Seq::empty() }
}

/// The symbol table of the image: the module's record, then the records of
/// the entries.
pub open spec fn symbol_table(entries: Seq<EntryView>, text_section: usize, text_len: int) -> Seq<
    SymbolView,
> {
    Seq::new(
        entries.len() + 1,
        |i: int|
            if i == 0 {
                module_record()
            } else {
                record(entries[i - 1], text_section, text_len)
            },
    )
}

/// Whether every payload is an unsigned 32-bit number.
pub open spec fn payloads_fit(entries: Seq<EntryView>, text_section: usize, text_len: int) -> bool {
    forall|i: int|
        0 <= i < entries.len() ==> 0 <= #[trigger] payload(entries[i], text_section, text_len)
            <= u32::MAX
}

/// Makes the symbol table, unless a payload does not fit.
pub fn make_symbols(entries: &Vec<Entry>, text_section: usize, text_len: usize) -> (r: Option<
    Vec<Symbol>,
>)
    ensures
        r is Some <==> payloads_fit(entry_views(entries@), text_section, text_len as int),
        r matches Some(v) ==> views(v@) == symbol_table(
            entry_views(entries@),
            text_section,
            text_len as int,
        ),
{
    let ghost all = entry_views(entries@);
    let mut table: Vec<Symbol> = Vec::new();
    table.push(Symbol { s_type: KIND_MODULE, index1: 0, index2: 0, s_name: String::new() });
    let mut i: usize = 0;
    while i < entries.len()
        invariant
            0 <= i <= entries@.len(),
            all == entry_views(entries@),
            table@.len() == i + 1,
            table@[0]@ == module_record(),
            forall|j: int|
                0 <= j < i ==> 0 <= #[trigger] payload(all[j], text_section, text_len as int)
                    <= u32::MAX,
            forall|j: int|
                1 <= j <= i ==> (#[trigger] table@[j])@ == record(
                    all[j - 1],
                    text_section,
                    text_len as int,
                ),
        decreases entries@.len() - i,
    {
        let entry = &entries[i];
        assert(entry@ == all[i as int]);
        let is_code = match entry.section {
            Some(index) => index == text_section,
            None => false,
        };
        let addr_offset: u64 = if is_code {
            0
        } else {
            text_len as u64
        };
        let is_external = match entry.kind {
            SymbolType::External => true,
            _ => false,
        };
        let addr: u64 = if is_external {
            0
        } else if entry.address >= addr_offset {
            entry.address - addr_offset
        } else {
            assert(payload(all[i as int], text_section, text_len as int) < 0);
            return None;
        };
        if addr > u32::MAX as u64 {
            assert(payload(all[i as int], text_section, text_len as int) > u32::MAX);
            return None;
        }
        let type_data = entry.kind.code() + if is_code {
            FUNCTION_FLAG
        } else {
            0
        };
        let s_name = match entry.kind {
            SymbolType::Local => String::new(),
            _ => entry.name.clone(),
        };
        table.push(Symbol { s_type: type_data, index1: addr as u32, index2: 0, s_name });
        i += 1;
    }
    assert(views(table@) =~= symbol_table(all, text_section, text_len as int));
    Some(table)
}

/// Whether every relocation refers to an entry.
pub open spec fn all_found(entries: Seq<EntryView>, relocations: Seq<RelocationView>) -> bool {
    forall|k: int|
        0 <= k < relocations.len() ==> position(entries, (#[trigger] relocations[k]).name) is Some
}

/// The place in the symbol table of the entry that bears `name`.
pub open spec fn place(entries: Seq<EntryView>, name: Seq<char>) -> u32 {
    (position(entries, name).unwrap() + 1) as u32
}

/// The relocation table of the image.
pub open spec fn reloc_entries(entries: Seq<EntryView>, relocations: Seq<RelocationView>) -> Seq<
    RelocEntry,
> {
    Seq::new(
        relocations.len(),
        |k: int|
            RelocEntry { offset: relocations[k].r_offset, symbol: place(entries, relocations[k].name) },
    )
}

/// Makes the relocation table, unless a relocation refers to no entry.
fn make_relocs(entries: &Vec<Entry>, relocations: &Vec<Relocation>) -> (r: Option<
    Vec<RelocEntry>,
>)
    requires
        entries@.len() < u32::MAX,
    ensures
        r is Some <==> all_found(entry_views(entries@), relocation_views(relocations@)),
        r matches Some(v) ==> v@ == reloc_entries(
            entry_views(entries@),
            relocation_views(relocations@),
        ),
{
    let ghost all = entry_views(entries@);
    let ghost relocs = relocation_views(relocations@);
    let mut table: Vec<RelocEntry> = Vec::new();
    let mut k: usize = 0;
    while k < relocations.len()
        invariant
            0 <= k <= relocations@.len(),
            entries@.len() < u32::MAX,
            all == entry_views(entries@),
            relocs == relocation_views(relocations@),
            table@.len() == k,
            forall|j: int| 0 <= j < k ==> position(all, (#[trigger] relocs[j]).name) is Some,
            forall|j: int|
                0 <= j < k ==> #[trigger] table@[j] == (RelocEntry {
                    offset: relocs[j].r_offset,
                    symbol: place(all, relocs[j].name),
                }),
        decreases relocations@.len() - k,
    {
        let reloc = &relocations[k];
        assert(reloc@ == relocs[k as int]);
        match find_entry(entries, reloc.name.as_str()) {
            Some(p) => {
                proof {
                    lemma_position(all, reloc@.name);
                }
                table.push(RelocEntry { offset: reloc.r_offset, symbol: (p + 1) as u32 });
            },
            None => {
                return None;
            },
        }
        k += 1;
    }
    assert(table@ =~= reloc_entries(all, relocs));
    Some(table)
}

/// Whether every exported function is an entry.
pub open spec fn funcs_found(entries: Seq<EntryView>, funcs: Seq<Seq<char>>) -> bool {
    forall|j: int| 0 <= j < funcs.len() ==> position(entries, #[trigger] funcs[j]) is Some
}

/// The function table of the image.
pub open spec fn func_entries(entries: Seq<EntryView>, funcs: Seq<Seq<char>>) -> Seq<u32> {
    Seq::new(funcs.len(), |j: int| place(entries, funcs[j]))
}

/// Makes the function table, unless a function is no entry.
fn make_funcs(entries: &Vec<Entry>, glb_funcs: &Vec<String>) -> (r: Option<Vec<u32>>)
    requires
        entries@.len() < u32::MAX,
    ensures
        r is Some <==> funcs_found(entry_views(entries@), name_views(glb_funcs@)),
        r matches Some(v) ==> v@ == func_entries(entry_views(entries@), name_views(glb_funcs@)),
{
    let ghost all = entry_views(entries@);
    let ghost funcs = name_views(glb_funcs@);
    let mut table: Vec<u32> = Vec::new();
    let mut j: usize = 0;
    while j < glb_funcs.len()
        invariant
            0 <= j <= glb_funcs@.len(),
            entries@.len() < u32::MAX,
            all == entry_views(entries@),
            funcs == name_views(glb_funcs@),
            table@.len() == j,
            forall|i: int| 0 <= i < j ==> position(all, #[trigger] funcs[i]) is Some,
            forall|i: int| 0 <= i < j ==> #[trigger] table@[i] == place(all, funcs[i]),
        decreases glb_funcs@.len() - j,
    {
        assert(glb_funcs@[j as int]@ == funcs[j as int]);
        match find_entry(entries, glb_funcs[j].as_str()) {
            Some(p) => {
                proof {
                    lemma_position(all, funcs[j as int]);
                }
                table.push((p + 1) as u32);
            },
            None => {
                return None;
            },
        }
        j += 1;
    }
    assert(table@ =~= func_entries(all, funcs));
    Some(table)
}

/// Whether every relocation lies inside the code and finds there a word
/// that selects a slot of the offset table.
pub open spec fn all_placed(relocs: Seq<RelocEntry>, n_symbol: u32, text: Seq<u8>) -> bool {
    forall|k: int|
        0 <= k < relocs.len() ==> reloc_ok(
            n_symbol,
            relocs.len() as u32,
            text,
            #[trigger] relocs[k],
        )
}

/// Checks the relocations against the code.
fn check_relocs(relocs: &Vec<RelocEntry>, n_symbol: u32, text: &[u8]) -> (r: bool)
    requires
        relocs@.len() <= u32::MAX,
    ensures
        r == all_placed(relocs@, n_symbol, text@),
{
    let n = relocs.len();
    let len = text.len();
    let mut k: usize = 0;
    while k < n
        invariant
            n == relocs@.len(),
            n <= u32::MAX,
            len == text@.len(),
            0 <= k <= n,
            forall|j: int|
                0 <= j < k ==> reloc_ok(n_symbol, n as u32, text@, #[trigger] relocs@[j]),
        decreases n - k,
    {
        let r = relocs[k];
        if r.symbol >= n_symbol || r.offset as u64 + 4 > len as u64 {
            return false;
        }
        let g = read_word(text, r.offset as usize);
        if g % 4 != 0 || g as u64 + 4 > 4 * (n as u64) {
            return false;
        }
        k += 1;
    }
    true
}

/// A linked object as plain values: what the builder reads of it.
#[derive(Debug)]
pub struct LinkedObject {
    /// Every symbol of the object, in the order of the file.
    pub symbols: Vec<ElfSymbol>,
    /// The relocations that the image keeps, in the order of the file.
    pub relocations: Vec<Relocation>,
    /// The code.
    pub text: Vec<u8>,
    /// The index of the section that holds the code.
    pub text_section: usize,
    /// The initialised data.
    pub data: Vec<u8>,
    /// The number of bytes of zero-initialised data.
    pub l_bss: u32,
}

/// A linked object as a mathematical value.
pub struct LinkedObjectView {
    pub symbols: Seq<ElfSymbolView>,
    pub relocations: Seq<RelocationView>,
    pub text: Seq<u8>,
    pub text_section: usize,
    pub data: Seq<u8>,
    pub l_bss: u32,
}

impl View for LinkedObject {
    type V = LinkedObjectView;

    open spec fn view(&self) -> LinkedObjectView {
        LinkedObjectView {
            symbols: symbol_views(self.symbols@),
            relocations: relocation_views(self.relocations@),
            text: self.text@,
            text_section: self.text_section,
            data: self.data@,
            l_bss: self.l_bss,
        }
    }
}

/// Why no image can be built of an object.
#[derive(Debug, Clone, Copy, PartialEq, Eq, Structural)]
pub enum BuildError {
    /// The address of a symbol gives no 32-bit payload.
    BadAddress,
    /// A table or a region is larger than its header field can say.
    TooLarge,
    /// A relocation refers to a symbol that the table does not hold.
    UnknownSymbol,
    /// A relocation lies outside the code or selects no slot.
    BadRelocation,
    /// An exported function has no symbol in the table.
    UnknownFunction,
}

impl LinkedObjectView {
    /// The entries of the image's symbol table.
    pub open spec fn entries(self, module_name: Seq<char>) -> Seq<EntryView> {
        selection(catalog(self.symbols, module_name), self.relocations)
    }

    /// The image's symbol table.
    pub open spec fn table(self, module_name: Seq<char>) -> Seq<SymbolView> {
        symbol_table(self.entries(module_name), self.text_section, self.text.len() as int)
    }

    /// Whether the header can say how large everything is.
    pub open spec fn sizes_fit(self, funcs: Seq<Seq<char>>, module_name: Seq<char>) -> bool {
        let table = self.table(module_name);
        &&& table.len() <= u32::MAX
        &&& self.relocations.len() <= u32::MAX
        &&& funcs.len() <= u32::MAX
        &&& self.text.len() <= u32::MAX
        &&& self.data.len() <= u32::MAX
        &&& pool(table).len() < 0x1000_0000
        &&& table_bytes(table).len() <= u32::MAX
    }

    /// What keeps an image from being built, if anything. The checks come
    /// in this order: payloads, sizes, the symbols of the relocations, the
    /// places of the relocations, the symbols of the functions.
    pub open spec fn build_error(self, funcs: Seq<Seq<char>>, module_name: Seq<char>) -> Option<
        BuildError,
    > {
        let entries = self.entries(module_name);
        if !payloads_fit(entries, self.text_section, self.text.len() as int) {
            Some(BuildError::BadAddress)
        } else if !self.sizes_fit(funcs, module_name) {
            Some(BuildError::TooLarge)
        } else if !all_found(entries, self.relocations) {
            Some(BuildError::UnknownSymbol)
        } else if !all_placed(
            reloc_entries(entries, self.relocations),
            self.table(module_name).len() as u32,
            self.text,
        ) {
            Some(BuildError::BadRelocation)
        } else if !funcs_found(entries, funcs) {
            Some(BuildError::UnknownFunction)
        } else {
            None
        }
    }

    /// The image built of the object.
    pub open spec fn built(self, funcs: Seq<Seq<char>>, module_name: Seq<char>) -> ImageView {
        let entries = self.entries(module_name);
        let table = self.table(module_name);
        ImageView {
            header: ModuleHeader {
                n_funcs: funcs.len() as u32,
                n_reloc: self.relocations.len() as u32,
                l_symt: table_bytes(table).len() as u32,
                l_text: self.text.len() as u32,
                l_data: self.data.len() as u32,
                l_bss: self.l_bss,
                n_symbol: table.len() as u32,
            },
            relocs: reloc_entries(entries, self.relocations),
            funcs: func_entries(entries, funcs),
            symbols: table,
            text: self.text,
            data: self.data,
        }
    }
}

/// An image that is built is canonical and in order.
pub proof fn lemma_built_wf(o: LinkedObjectView, funcs: Seq<Seq<char>>, module_name: Seq<char>)
    requires
        o.build_error(funcs, module_name) is None,
    ensures
        o.built(funcs, module_name).canonical(),
        o.built(funcs, module_name).wf(),
{
    let entries = o.entries(module_name);
    let table = o.table(module_name);
    let v = o.built(funcs, module_name);
    lemma_records_len(table);
    assert forall|i: int| 0 <= i < table.len() implies (#[trigger] table[i]).s_type < 8 by {
        if i > 0 {
            let e = entries[i - 1];
            assert(table[i] == record(e, o.text_section, o.text.len() as int));
        }
    }
    assert forall|j: int| 0 <= j < v.funcs.len() implies #[trigger] v.funcs[j] < v.header.n_symbol by {
        lemma_position(entries, funcs[j]);
        assert(position(entries, funcs[j]) is Some);
    }
    assert forall|k: int| 0 <= k < v.relocs.len() implies reloc_ok(
        v.header.n_symbol,
        v.header.n_reloc,
        v.text,
        #[trigger] v.relocs[k],
    ) by {
        assert(reloc_ok(table.len() as u32, v.relocs.len() as u32, o.text, v.relocs[k]));
    }
}

/// Builds the image of a linked object whose exported functions are
/// `glb_funcs` and whose own name is `module_name`.
#[verifier::rlimit(40)]
pub fn build_image<'a>(obj: &'a LinkedObject, glb_funcs: &Vec<String>, module_name: &str) -> (r:
    Result<Image<'a>, BuildError>)
    ensures
        match obj@.build_error(name_views(glb_funcs@), module_name@) {
            Some(e) => r == Err::<Image<'a>, BuildError>(e),
            None => {
                &&& r matches Ok(img)
                &&& img@ == obj@.built(name_views(glb_funcs@), module_name@)
                &&& img@.canonical()
                &&& img@.wf()
            },
        },
{
    let entries = make_catalog(&obj.symbols, module_name);
    let sym_names = select(&entries, &obj.relocations);
    let symbols = match make_symbols(&sym_names, obj.text_section, obj.text.len()) {
        Some(v) => v,
        None => {
            return Err(BuildError::BadAddress);
        },
    };
    let limit = u32::MAX as u64;
    let pool_len = match pool_size(&symbols) {
        Some(n) => n,
        None => {
            return Err(BuildError::TooLarge);
        },
    };
    proof {
        lemma_records_len(views(symbols@));
    }
    if symbols.len() as u64 > limit || obj.relocations.len() as u64 > limit || glb_funcs.len() as u64
        > limit || obj.text.len() as u64 > limit || obj.data.len() as u64 > limit {
        return Err(BuildError::TooLarge);
    }
    let pad = (4 - pool_len % 4) % 4;
    let sym_table_len = 8 * (symbols.len() as u64) + pool_len as u64 + pad as u64;
    if sym_table_len > limit {
        return Err(BuildError::TooLarge);
    }
    let n_symbol = symbols.len() as u32;
    let relocs = match make_relocs(&sym_names, &obj.relocations) {
        Some(v) => v,
        None => {
            return Err(BuildError::UnknownSymbol);
        },
    };
    if !check_relocs(&relocs, n_symbol, obj.text.as_slice()) {
        return Err(BuildError::BadRelocation);
    }
    let funcs = match make_funcs(&sym_names, glb_funcs) {
        Some(v) => v,
        None => {
            return Err(BuildError::UnknownFunction);
        },
    };
    let header = ModuleHeader {
        n_funcs: glb_funcs.len() as u32,
        n_reloc: obj.relocations.len() as u32,
        l_symt: sym_table_len as u32,
        l_text: obj.text.len() as u32,
        l_data: obj.data.len() as u32,
        l_bss: obj.l_bss,
        n_symbol,
    };
    let img = Image {
        header,
        relocs,
        funcs,
        symbols,
        text: obj.text.as_slice(),
        data: obj.data.as_slice(),
    };
    proof {
        assert(img@ == obj@.built(name_views(glb_funcs@), module_name@));
        lemma_built_wf(obj@, name_views(glb_funcs@), module_name@);
    }
    Ok(img)
}

/// Every entry of the catalog is the entry of an admitted symbol.
#[verifier::rlimit(40)]
pub proof fn lemma_catalog_origin(symbols: Seq<ElfSymbolView>, module_name: Seq<char>, i: int)
    requires
        0 <= i < catalog(symbols, module_name).len(),
    ensures
        exists|j: int|
            0 <= j < symbols.len() && admitted(#[trigger] symbols[j], module_name) && catalog(
                symbols,
                module_name,
            )[i] == entry_of(symbols[j]),
    decreases symbols.len(),
{
    let front = catalog(symbols.drop_last(), module_name);
    let s = symbols.last();
    let last = symbols.len() - 1;
    let c = catalog(symbols, module_name);
    if admitted(s, module_name) && (match position(front, s.name) {
        Some(p) => p == i,
        None => i == front.len(),
    }) {
        lemma_position(front, s.name);
        assert(c[i] == entry_of(symbols[last]));
    } else {
        if admitted(s, module_name) {
            lemma_position(front, s.name);
        }
        assert(c[i] == front[i]);
        lemma_catalog_origin(symbols.drop_last(), module_name, i);
        let j = choose|j: int|
            0 <= j < symbols.drop_last().len() && admitted(
                #[trigger] symbols.drop_last()[j],
                module_name,
            ) && front[i] == entry_of(symbols.drop_last()[j]);
        assert(symbols[j] == symbols.drop_last()[j]);
    }
}

/// The catalog has each name once.
pub proof fn lemma_catalog_unique(symbols: Seq<ElfSymbolView>, module_name: Seq<char>, i: int, j: int)
    requires
        0 <= i < j < catalog(symbols, module_name).len(),
    ensures
        catalog(symbols, module_name)[i].name != catalog(symbols, module_name)[j].name,
    decreases symbols.len(),
{
    let front = catalog(symbols.drop_last(), module_name);
    let s = symbols.last();
    let c = catalog(symbols, module_name);
    if !admitted(s, module_name) {
        lemma_catalog_unique(symbols.drop_last(), module_name, i, j);
    } else {
        lemma_position(front, s.name);
        match position(front, s.name) {
            Some(p) => {
                lemma_catalog_unique(symbols.drop_last(), module_name, i, j);
                assert(c[i].name == front[i].name);
                assert(c[j].name == front[j].name);
            },
            None => {
                if j < front.len() {
                    lemma_catalog_unique(symbols.drop_last(), module_name, i, j);
                } else {
                    assert(c[i] == front[i]);
                    assert(c[j].name == s.name);
                }
            },
        }
    }
}

/// Where the entries have each name once, so has the selection.
pub proof fn lemma_selection_unique(
    entries: Seq<EntryView>,
    relocations: Seq<RelocationView>,
    i: int,
    j: int,
)
    requires
        forall|a: int, b: int|
            0 <= a < b < entries.len() ==> (#[trigger] entries[a]).name != (
            #[trigger] entries[b]).name,
        0 <= i < j < selection(entries, relocations).len(),
    ensures
        selection(entries, relocations)[i].name != selection(entries, relocations)[j].name,
    decreases entries.len(),
{
    let front = entries.drop_last();
    let sel = selection(entries, relocations);
    let fsel = selection(front, relocations);
    let last = entries.len() - 1;
    assert forall|a: int, b: int| 0 <= a < b < front.len() implies (#[trigger] front[a]).name != (
    #[trigger] front[b]).name by {
        assert(front[a] == entries[a] && front[b] == entries[b]);
    }
    if j < fsel.len() {
        lemma_selection_unique(front, relocations, i, j);
        assert(sel[i] == fsel[i] && sel[j] == fsel[j]);
    } else {
        lemma_selected_needed(front, relocations, i);
        let x = choose|x: int|
            0 <= x < front.len() && #[trigger] front[x] == fsel[i] && needed(front[x], relocations);
        assert(entries[x] == front[x]);
        assert(sel[i] == fsel[i]);
        assert(sel[j] == entries[last]);
        assert(entries[x].name != entries[last].name);
    }
}

/// The image that is built stores each name once: no two records that
/// have a name have the same.
pub proof fn lemma_names_once(o: LinkedObjectView, module_name: Seq<char>, i: int, j: int)
    requires
        0 <= i < j < o.table(module_name).len(),
        is_named(o.table(module_name)[i].s_type),
        is_named(o.table(module_name)[j].s_type),
    ensures
        o.table(module_name)[i].name != o.table(module_name)[j].name,
{
    let c = catalog(o.symbols, module_name);
    let entries = o.entries(module_name);
    let table = o.table(module_name);
    assert(i > 0);
    assert(table[i] == record(entries[i - 1], o.text_section, o.text.len() as int));
    assert(table[j] == record(entries[j - 1], o.text_section, o.text.len() as int));
    assert forall|a: int, b: int| 0 <= a < b < c.len() implies (#[trigger] c[a]).name != (
    #[trigger] c[b]).name by {
        lemma_catalog_unique(o.symbols, module_name, a, b);
    }
    lemma_selection_unique(c, o.relocations, i - 1, j - 1);
}

/// Each entry selected is a needed entry of the catalog.
pub proof fn lemma_selected_needed(
    entries: Seq<EntryView>,
    relocations: Seq<RelocationView>,
    i: int,
)
    requires
        0 <= i < selection(entries, relocations).len(),
    ensures
        exists|j: int|
            0 <= j < entries.len() && #[trigger] entries[j] == selection(entries, relocations)[i]
                && needed(entries[j], relocations),
    decreases entries.len(),
{
    let front = entries.drop_last();
    let sel = selection(entries, relocations);
    let fsel = selection(front, relocations);
    let last = entries.len() - 1;
    if i < fsel.len() {
        lemma_selected_needed(front, relocations, i);
        let j = choose|j: int|
            0 <= j < front.len() && #[trigger] front[j] == fsel[i] && needed(front[j], relocations);
        assert(entries[j] == front[j]);
        assert(sel[i] == fsel[i]);
    } else {
        assert(entries[last] == sel[i]);
    }
}

/// Each needed entry of the catalog is selected.
pub proof fn lemma_needed_selected(
    entries: Seq<EntryView>,
    relocations: Seq<RelocationView>,
    j: int,
)
    requires
        0 <= j < entries.len(),
        needed(entries[j], relocations),
    ensures
        exists|i: int|
            0 <= i < selection(entries, relocations).len() && #[trigger] selection(
                entries,
                relocations,
            )[i] == entries[j],
    decreases entries.len(),
{
    let front = entries.drop_last();
    let sel = selection(entries, relocations);
    let fsel = selection(front, relocations);
    let last = entries.len() - 1;
    if j < last {
        assert(front[j] == entries[j]);
        lemma_needed_selected(front, relocations, j);
        let i = choose|i: int| 0 <= i < fsel.len() && #[trigger] fsel[i] == front[j];
        assert(sel[i] == fsel[i]);
    } else {
        assert(sel[sel.len() - 1] == entries[j]);
    }
}

/// No record of the image that is built bears the module's own name.
pub proof fn lemma_self_name_absent(o: LinkedObjectView, module_name: Seq<char>, i: int)
    requires
        module_name.len() > 0,
        0 <= i < o.table(module_name).len(),
    ensures
        o.table(module_name)[i].name != module_name,
{
    let c = catalog(o.symbols, module_name);
    let entries = o.entries(module_name);
    if i > 0 {
        lemma_selected_needed(c, o.relocations, i - 1);
        let j = choose|j: int|
            0 <= j < c.len() && #[trigger] c[j] == entries[i - 1] && needed(c[j], o.relocations);
        lemma_catalog_origin(o.symbols, module_name, j);
    }
}

/// The names that the image stores are the names of the exported and the
/// external symbols among the admitted ones, no more and no less.
#[verifier::rlimit(40)]
pub proof fn lemma_names_preserved(o: LinkedObjectView, module_name: Seq<char>, name: Seq<char>)
    ensures
        (exists|i: int|
            0 <= i < o.table(module_name).len() && is_named(
                (#[trigger] o.table(module_name)[i]).s_type,
            ) && o.table(module_name)[i].name == name) <==> (exists|j: int|
            0 <= j < catalog(o.symbols, module_name).len() && (#[trigger] catalog(
                o.symbols,
                module_name,
            )[j]).name == name && catalog(o.symbols, module_name)[j].kind != SymbolType::Local),
{
    let c = catalog(o.symbols, module_name);
    let entries = o.entries(module_name);
    let table = o.table(module_name);
    if exists|i: int| 0 <= i < table.len() && is_named((#[trigger] table[i]).s_type) && table[i].name
        == name {
        let i = choose|i: int|
            0 <= i < table.len() && is_named((#[trigger] table[i]).s_type) && table[i].name == name;
        assert(i > 0);
        let e = entries[i - 1];
        assert(table[i] == record(e, o.text_section, o.text.len() as int));
        lemma_selected_needed(c, o.relocations, i - 1);
        let j = choose|j: int| 0 <= j < c.len() && #[trigger] c[j] == e && needed(c[j], o.relocations);
        assert(c[j].name == name && c[j].kind != SymbolType::Local);
    }
    if exists|j: int| 0 <= j < c.len() && (#[trigger] c[j]).name == name && c[j].kind
        != SymbolType::Local {
        let j = choose|j: int|
            0 <= j < c.len() && (#[trigger] c[j]).name == name && c[j].kind != SymbolType::Local;
        assert(needed(c[j], o.relocations));
        lemma_needed_selected(c, o.relocations, j);
        let i = choose|i: int| 0 <= i < entries.len() && #[trigger] entries[i] == c[j];
        assert(table[i + 1] == record(entries[i], o.text_section, o.text.len() as int));
        assert(is_named(table[i + 1].s_type) && table[i + 1].name == name);
    }
}

/// Every exported or external symbol among the admitted ones has a record
/// in the image that bears its name and holds its payload: nothing for an
/// external symbol, the address for a symbol in the code, the address less
/// the length of the code for any other.
pub proof fn lemma_payload_preserved(o: LinkedObjectView, module_name: Seq<char>, j: int)
    requires
        0 <= j < catalog(o.symbols, module_name).len(),
        catalog(o.symbols, module_name)[j].kind != SymbolType::Local,
    ensures
        exists|i: int|
            0 <= i < o.table(module_name).len() && #[trigger] o.table(module_name)[i] == record(
                catalog(o.symbols, module_name)[j],
                o.text_section,
                o.text.len() as int,
            ),
{
    let c = catalog(o.symbols, module_name);
    let entries = o.entries(module_name);
    let table = o.table(module_name);
    assert(needed(c[j], o.relocations));
    lemma_needed_selected(c, o.relocations, j);
    let i = choose|i: int| 0 <= i < entries.len() && #[trigger] entries[i] == c[j];
    assert(table[i + 1] == record(entries[i], o.text_section, o.text.len() as int));
}

/// The records of an image built of an object whose symbols have plain
/// names are plain.
#[verifier::rlimit(40)]
proof fn lemma_record_plain(o: LinkedObjectView, module_name: Seq<char>, i: int)
    requires
        0 <= i < o.table(module_name).len(),
        forall|j: int| 0 <= j < o.symbols.len() ==> plain_name((#[trigger] o.symbols[j]).name),
    ensures
        plain_symbol(o.table(module_name)[i]),
{
    let c = catalog(o.symbols, module_name);
    let entries = o.entries(module_name);
    let table = o.table(module_name);
    if i > 0 {
        let e = entries[i - 1];
        assert(table[i] == record(e, o.text_section, o.text.len() as int));
        lemma_selected_needed(c, o.relocations, i - 1);
        let j = choose|j: int| 0 <= j < c.len() && #[trigger] c[j] == e && needed(c[j], o.relocations);
        lemma_catalog_origin(o.symbols, module_name, j);
        let x = choose|x: int|
            0 <= x < o.symbols.len() && admitted(#[trigger] o.symbols[x], module_name) && c[j]
                == entry_of(o.symbols[x]);
        assert(plain_name(o.symbols[x].name));
        assert(e.name == o.symbols[x].name);
        if e.kind == SymbolType::Local {
            assert(table[i].name =~= Seq::<char>::empty());
            assert(plain_name(table[i].name));
        } else {
            assert(table[i].name == e.name);
        }
    } else {
        assert(table[0] == module_record());
        assert(plain_name(table[0].name));
    }
}

/// An image built of an object whose symbols have names of ASCII
/// characters other than NUL comes back from its bytes as it was built.
pub proof fn lemma_build_roundtrip(o: LinkedObjectView, funcs: Seq<Seq<char>>, module_name: Seq<char>)
    requires
        o.build_error(funcs, module_name) is None,
        forall|j: int| 0 <= j < o.symbols.len() ==> plain_name((#[trigger] o.symbols[j]).name),
    ensures
        spec_decode(image_bytes(o.built(funcs, module_name))) == Ok::<ImageView, ImageError>(
            o.built(funcs, module_name),
        ),
{
    let v = o.built(funcs, module_name);
    lemma_built_wf(o, funcs, module_name);
    assert forall|i: int| 0 <= i < v.symbols.len() implies plain_symbol(#[trigger] v.symbols[i]) by {
        lemma_record_plain(o, module_name, i);
    }
    lemma_roundtrip(v);
}

} // verus!
