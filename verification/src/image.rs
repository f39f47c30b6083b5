//! The binary image of a module: its layout, and reading it in place.
//!
//! An image is a header of seven little-endian words, the relocation table,
//! the table of exported functions, the symbol table with its pool of names,
//! and then the module's code and initialised data.

use crate::symbol::{is_named, views, Symbol, SymbolView};
use crate::word::{read_word, word_at};
use vstd::prelude::*;
use vstd::slice::slice_subrange;

verus! {

/// Number of bytes of an image header.
pub const HEADER_LEN: usize = 28;

/// The seven words an image starts with.
#[derive(Debug, Clone, Copy, PartialEq, Eq, Structural)]
pub struct ModuleHeader {
    /// Number of exported functions.
    pub n_funcs: u32,
    /// Number of relocations, and of slots of the offset table.
    pub n_reloc: u32,
    /// Bytes taken by the symbol records and the pool of names together.
    pub l_symt: u32,
    /// Bytes of code.
    pub l_text: u32,
    /// Bytes of initialised data.
    pub l_data: u32,
    /// Bytes of zero-initialised data, which the image does not store.
    pub l_bss: u32,
    /// Number of symbol records.
    pub n_symbol: u32,
}

impl ModuleHeader {
    /// Offset of the table of exported functions.
    pub open spec fn funcs_at(self) -> int {
        28 + 8 * self.n_reloc
    }

    /// Offset of the symbol records.
    pub open spec fn symbols_at(self) -> int {
        self.funcs_at() + 4 * self.n_funcs
    }

    /// Offset of the code.
    pub open spec fn text_at(self) -> int {
        self.symbols_at() + self.l_symt
    }

    /// Offset of the initialised data.
    pub open spec fn data_at(self) -> int {
        self.text_at() + self.l_text
    }

    /// Number of bytes of the whole image.
    pub open spec fn image_len(self) -> int {
        self.data_at() + self.l_data
    }

    /// Number of bytes of the offset table: one word for each relocation.
    pub fn got_len(&self) -> (n: u64)
        ensures
            n == 4 * self.n_reloc,
    {
        4 * (self.n_reloc as u64)
    }

    /// Number of bytes of the linkage table: a manual-entry stub of 20
    /// bytes and a cross-boundary slot of 60 for each exported function.
    pub fn plt_len(&self) -> (n: u64)
        ensures
            n == 80 * self.n_funcs,
    {
        80 * (self.n_funcs as u64)
    }

    /// Offset of the code, computed.
    pub fn text_offset(&self) -> (at: u64)
        ensures
            at == self.text_at(),
    {
        28 + 8 * (self.n_reloc as u64) + 4 * (self.n_funcs as u64) + self.l_symt as u64
    }

    /// Number of bytes of the whole image, computed.
    pub fn total_len(&self) -> (n: u64)
        ensures
            n == self.image_len(),
    {
        self.text_offset() + self.l_text as u64 + self.l_data as u64
    }
}

/// The header that the first 28 bytes of `b` spell.
pub open spec fn header_of(b: Seq<u8>) -> ModuleHeader {
    ModuleHeader {
        n_funcs: word_at(b, 0),
        n_reloc: word_at(b, 4),
        l_symt: word_at(b, 8),
        l_text: word_at(b, 12),
        l_data: word_at(b, 16),
        l_bss: word_at(b, 20),
        n_symbol: word_at(b, 24),
    }
}

/// Reads the header of an image, if `b` is long enough to hold one.
pub fn parse_header(b: &[u8]) -> (r: Option<ModuleHeader>)
    ensures
        r == if b@.len() >= HEADER_LEN {
            Some(header_of(b@))
        } else {
            None
        },
{
    if b.len() < HEADER_LEN {
        return None;
    }
    Some(
        ModuleHeader {
            n_funcs: read_word(b, 0),
            n_reloc: read_word(b, 4),
            l_symt: read_word(b, 8),
            l_text: read_word(b, 12),
            l_data: read_word(b, 16),
            l_bss: read_word(b, 20),
            n_symbol: read_word(b, 24),
        },
    )
}

/// Why a byte string is no image.
#[derive(Debug, Clone, Copy, PartialEq, Eq, Structural)]
pub enum ImageError {
    /// The bytes end before the header or before a region the header announces.
    Truncated,
    /// The symbol table is too short for the records the header announces.
    BadSymbolTable,
    /// A symbol's name starts outside the pool or is not terminated inside it.
    BadName,
    /// A relocation names no symbol, lies outside the code, or selects no
    /// slot of the offset table.
    BadRelocation,
    /// An entry of the function table names no symbol.
    BadFunction,
}

/// One relocation: the word of code at `offset` selects the slot of the
/// offset table that receives the address of symbol number `symbol`.
#[derive(Debug, Clone, Copy, PartialEq, Eq, Structural)]
pub struct RelocEntry {
    pub offset: u32,
    pub symbol: u32,
}

/// Number of bytes of the name that starts at `from` in a symbol table `t`:
/// the bytes before the first zero byte, or before the table's end.
pub open spec fn name_len(t: Seq<u8>, from: int) -> int
    decreases t.len() - from,
{
    if from < 0 || from >= t.len() || t[from] == 0 {
        0
    } else {
        1 + name_len(t, from + 1)
    }
}

/// Whether a name starts at `from` inside the table and is terminated by a
/// zero byte inside it.
pub open spec fn name_ok(t: Seq<u8>, from: int) -> bool {
    0 <= from && from + name_len(t, from) < t.len()
}

/// The name that starts at `from`, one character per byte.
pub open spec fn name_chars(t: Seq<u8>, from: int) -> Seq<char> {
    Seq::new(name_len(t, from) as nat, |k: int| t[from + k] as char)
}

/// The type bits in the first word of a symbol record: bits 28 to 30.
pub open spec fn type_bits(x: u32) -> u8 {
    (x / 0x1000_0000 % 8) as u8
}

/// The offset into the pool of names in the first word of a symbol record:
/// the word without its type bits.
pub open spec fn name_offset(x: u32) -> int {
    x % 0x1000_0000 + 0x8000_0000 * (x / 0x8000_0000)
}

/// Record `i` of the table `t` of `n` records.
pub open spec fn table_symbol(t: Seq<u8>, n: int, i: int) -> SymbolView {
    let x = word_at(t, 8 * i);
    SymbolView {
        s_type: type_bits(x),
        index1: word_at(t, 8 * i + 4),
        index2: 0,
        name: if is_named(type_bits(x)) {
            name_chars(t, 8 * n + name_offset(x))
        } else {
            Seq::empty()
        },
    }
}

/// Whether record `i` of the table `t` of `n` records has its name, if it
/// has one, inside the pool.
pub open spec fn table_symbol_ok(t: Seq<u8>, n: int, i: int) -> bool {
    let x = word_at(t, 8 * i);
    is_named(type_bits(x)) ==> name_ok(t, 8 * n + name_offset(x))
}

/// The records of the table `t` of `n` records.
pub open spec fn table_symbols(t: Seq<u8>, n: int) -> Seq<SymbolView> {
    Seq::new(n as nat, |i: int| table_symbol(t, n, i))
}

/// What is wrong with the table `t` of `n` records, if anything.
pub open spec fn table_error(t: Seq<u8>, n: int) -> Option<ImageError> {
    if 8 * n > t.len() {
        Some(ImageError::BadSymbolTable)
    } else if !(forall|i: int| 0 <= i < n ==> table_symbol_ok(t, n, i)) {
        Some(ImageError::BadName)
    } else {
        None
    }
}

/// A name that runs over non-zero bytes from `from` up to `to`, where a zero
/// byte or the table's end stops it, has `to - from` bytes.
pub proof fn lemma_name_len(t: Seq<u8>, from: int, to: int)
    requires
        0 <= from <= to <= t.len(),
        forall|k: int| from <= k < to ==> t[k] != 0,
        to == t.len() || t[to] == 0,
    ensures
        name_len(t, from) == to - from,
    decreases to - from,
{
    if from < to {
        lemma_name_len(t, from + 1, to);
    }
}

/// `String::push` appends the character to the string.
pub assume_specification[ String::push ](s: &mut String, ch: char)
    ensures
        final(s)@ == old(s)@.push(ch),
;

/// Reads the name that starts at `from` in the table `data`.
fn parse_name(data: &[u8], from: usize) -> (r: Option<String>)
    requires
        from < data@.len(),
    ensures
        r is Some <==> name_ok(data@, from as int),
        r matches Some(s) ==> s@ == name_chars(data@, from as int),
{
    let mut s_name = String::new();
    let mut q = from;
    while q < data.len() && data[q] != 0
        invariant
            from <= q <= data@.len(),
            forall|k: int| from <= k < q ==> data@[k] != 0,
            s_name@ == Seq::new((q - from) as nat, |k: int| data@[from + k] as char),
        decreases data@.len() - q,
    {
        s_name.push(data[q] as char);
        q += 1;
        assert(s_name@ =~= Seq::new((q - from) as nat, |k: int| data@[from + k] as char));
    }
    proof {
        lemma_name_len(data@, from as int, q as int);
    }
    if q < data.len() {
        Some(s_name)
    } else {
        None
    }
}

/// Reads the `n_symbol` records of the symbol table `data`, which holds the
/// records and, behind them, the pool of names.
#[verifier::rlimit(40)]
pub fn parse_symtable(n_symbol: u32, data: &[u8]) -> (r: Result<Vec<Symbol>, ImageError>)
    ensures
        match r {
            Ok(v) => table_error(data@, n_symbol as int) is None && views(v@) == table_symbols(
                data@,
                n_symbol as int,
            ),
            Err(e) => table_error(data@, n_symbol as int) == Some(e),
        },
{
    let n = n_symbol as usize;
    let len = data.len();
    if (len as u64) < 8 * (n_symbol as u64) {
        return Err(ImageError::BadSymbolTable);
    }
    let mut symbols: Vec<Symbol> = Vec::new();
    let mut i: usize = 0;
    while i < n
        invariant
            n == n_symbol,
            len == data@.len(),
            8 * n <= len,
            0 <= i <= n,
            symbols@.len() == i,
            forall|j: int| 0 <= j < i ==> table_symbol_ok(data@, n as int, j),
            forall|j: int| 0 <= j < i ==> (#[trigger] symbols@[j])@ == table_symbol(data@, n as int, j),
        decreases n - i,
    {
        let p = i * 8;
        let x = read_word(data, p);
        let index = read_word(data, p + 4);
        let s_type = ((x & (7 << 28)) >> 28) as u8;
        let n_pos = x & !(7u32 << 28);
        assert(((x & (7u32 << 28)) >> 28) as u8 == (x / 0x1000_0000 % 8) as u8) by (bit_vector);
        assert(x & !(7u32 << 28) == x % 0x1000_0000 + 0x8000_0000 * (x / 0x8000_0000)) by (bit_vector);
        assert(s_type & 3 == s_type % 4) by (bit_vector);
        let kind = s_type & 3;
        let mut s_name = String::new();
        if kind == 1 || kind == 2 {
            let room = len - 8 * n;
            if (n_pos as u64) >= room as u64 {
                assert(!table_symbol_ok(data@, n as int, i as int));
                return Err(ImageError::BadName);
            }
            match parse_name(data, 8 * n + n_pos as usize) {
                Some(name) => {
                    s_name = name;
                },
                None => {
                    assert(!table_symbol_ok(data@, n as int, i as int));
                    return Err(ImageError::BadName);
                },
            }
        }
        symbols.push(Symbol { s_type, index1: index, index2: 0, s_name });
        i += 1;
    }
    assert(views(symbols@) =~= table_symbols(data@, n as int));
    Ok(symbols)
}

/// Whether `g`, the word a relocation finds in the code, selects one of the
/// `n_reloc` four-byte slots of the offset table by its byte offset.
pub open spec fn slot_ok(n_reloc: u32, g: u32) -> bool {
    g % 4 == 0 && g + 4 <= 4 * n_reloc
}

/// Whether a relocation names one of `n_symbol` symbols, lies inside the
/// code, and finds there a word that selects a slot of the offset table.
pub open spec fn reloc_ok(n_symbol: u32, n_reloc: u32, text: Seq<u8>, r: RelocEntry) -> bool {
    &&& r.symbol < n_symbol
    &&& r.offset + 4 <= text.len()
    &&& slot_ok(n_reloc, word_at(text, r.offset as int))
}

/// An image read in place: the tables are parsed, the code and the data are
/// the bytes of the image themselves.
#[derive(Debug)]
pub struct Image<'a> {
    pub header: ModuleHeader,
    pub relocs: Vec<RelocEntry>,
    pub funcs: Vec<u32>,
    pub symbols: Vec<Symbol>,
    pub text: &'a [u8],
    pub data: &'a [u8],
}

/// An image as a mathematical value.
pub struct ImageView {
    pub header: ModuleHeader,
    pub relocs: Seq<RelocEntry>,
    pub funcs: Seq<u32>,
    pub symbols: Seq<SymbolView>,
    pub text: Seq<u8>,
    pub data: Seq<u8>,
}

impl<'a> View for Image<'a> {
    type V = ImageView;

    open spec fn view(&self) -> ImageView {
        ImageView {
            header: self.header,
            relocs: self.relocs@,
            funcs: self.funcs@,
            symbols: views(self.symbols@),
            text: self.text@,
            data: self.data@,
        }
    }
}

impl ImageView {
    /// The image's invariant: the header counts what the tables hold, every
    /// index names a symbol, and every relocation selects a slot.
    pub open spec fn wf(self) -> bool {
        &&& self.relocs.len() == self.header.n_reloc
        &&& self.funcs.len() == self.header.n_funcs
        &&& self.symbols.len() == self.header.n_symbol
        &&& self.text.len() == self.header.l_text
        &&& self.data.len() == self.header.l_data
        &&& 8 * self.header.n_symbol <= self.header.l_symt
        &&& forall|k: int|
            0 <= k < self.relocs.len() ==> reloc_ok(
                self.header.n_symbol,
                self.header.n_reloc,
                self.text,
                #[trigger] self.relocs[k],
            )
        &&& forall|j: int| 0 <= j < self.funcs.len() ==> #[trigger] self.funcs[j] < self.header.n_symbol
    }

    /// The word of code that relocation `k` points at: the byte offset of
    /// the slot it fills.
    pub open spec fn slot(self, k: int) -> u32 {
        word_at(self.text, self.relocs[k].offset as int)
    }
}

/// Relocation `k` of the image `b`.
pub open spec fn reloc_at(b: Seq<u8>, k: int) -> RelocEntry {
    RelocEntry { offset: word_at(b, 28 + 8 * k), symbol: word_at(b, 28 + 8 * k + 4) }
}

/// Entry `j` of the function table of the image `b`.
pub open spec fn func_at(b: Seq<u8>, j: int) -> u32 {
    word_at(b, header_of(b).funcs_at() + 4 * j)
}

/// The symbol table of the image `b`: records and names.
pub open spec fn table_of(b: Seq<u8>) -> Seq<u8> {
    b.subrange(header_of(b).symbols_at(), header_of(b).text_at())
}

/// The code of the image `b`.
pub open spec fn text_of(b: Seq<u8>) -> Seq<u8> {
    b.subrange(header_of(b).text_at(), header_of(b).data_at())
}

/// The image that the bytes `b` spell.
pub open spec fn image_of(b: Seq<u8>) -> ImageView {
    let h = header_of(b);
    ImageView {
        header: h,
        relocs: Seq::new(h.n_reloc as nat, |k: int| reloc_at(b, k)),
        funcs: Seq::new(h.n_funcs as nat, |j: int| func_at(b, j)),
        symbols: table_symbols(table_of(b), h.n_symbol as int),
        text: text_of(b),
        data: b.subrange(h.data_at(), h.image_len()),
    }
}

/// Whether every relocation of the image `b` is in order.
pub open spec fn relocs_ok(b: Seq<u8>) -> bool {
    let h = header_of(b);
    forall|k: int| 0 <= k < h.n_reloc ==> reloc_ok(h.n_symbol, h.n_reloc, text_of(b), reloc_at(b, k))
}

/// Whether every entry of the function table of the image `b` names a symbol.
pub open spec fn funcs_ok(b: Seq<u8>) -> bool {
    let h = header_of(b);
    forall|j: int| 0 <= j < h.n_funcs ==> func_at(b, j) < h.n_symbol
}

/// What is wrong with the bytes `b` as an image, if anything. The checks
/// come in this order: length, symbol table, names, relocations, functions.
pub open spec fn decode_error(b: Seq<u8>) -> Option<ImageError> {
    let h = header_of(b);
    if b.len() < 28 || b.len() < h.image_len() {
        Some(ImageError::Truncated)
    } else if table_error(table_of(b), h.n_symbol as int) is Some {
        table_error(table_of(b), h.n_symbol as int)
    } else if !relocs_ok(b) {
        Some(ImageError::BadRelocation)
    } else if !funcs_ok(b) {
        Some(ImageError::BadFunction)
    } else {
        None
    }
}

/// What reading the bytes `b` as an image gives.
pub open spec fn spec_decode(b: Seq<u8>) -> Result<ImageView, ImageError> {
    match decode_error(b) {
        Some(e) => Err(e),
        None => Ok(image_of(b)),
    }
}

/// Bytes that read as an image read as a well-formed one.
pub proof fn lemma_decoded_wf(b: Seq<u8>)
    requires
        decode_error(b) is None,
    ensures
        image_of(b).wf(),
{
    let h = header_of(b);
    let v = image_of(b);
    assert forall|k: int| 0 <= k < v.relocs.len() implies reloc_ok(
        h.n_symbol,
        h.n_reloc,
        v.text,
        #[trigger] v.relocs[k],
    ) by {
        assert(v.relocs[k] == reloc_at(b, k));
    }
    assert forall|j: int| 0 <= j < v.funcs.len() implies #[trigger] v.funcs[j] < h.n_symbol by {
        assert(v.funcs[j] == func_at(b, j));
    }
}

/// The next `length` bytes of `buf` at the cursor `begin`, which moves past
/// them; nothing, and the cursor stays, where `buf` ends before that.
pub fn acquire_vec<'a>(buf: &'a [u8], begin: &mut usize, length: usize) -> (r: Option<&'a [u8]>)
    ensures
        match r {
            Some(s) => *old(begin) + length <= buf@.len() && s@ == buf@.subrange(
                *old(begin) as int,
                *old(begin) + length,
            ) && *final(begin) == *old(begin) + length,
            None => *old(begin) + length > buf@.len() && *final(begin) == *old(begin),
        },
{
    let start = *begin;
    if start > buf.len() || length > buf.len() - start {
        return None;
    }
    let s = slice_subrange(buf, start, start + length);
    *begin = start + length;
    Some(s)
}

/// Reads the relocation table of the image `bytes`, whose code is `text`.
fn parse_relocs(bytes: &[u8], header: &ModuleHeader, text: &[u8]) -> (r: Option<Vec<RelocEntry>>)
    requires
        *header == header_of(bytes@),
        28 + 8 * header.n_reloc <= bytes@.len(),
        text@ == text_of(bytes@),
        text@.len() == header.l_text,
    ensures
        r is Some <==> relocs_ok(bytes@),
        r matches Some(v) ==> v@ == image_of(bytes@).relocs,
{
    let n_reloc = header.n_reloc as usize;
    let len = bytes.len();
    let mut relocs: Vec<RelocEntry> = Vec::new();
    let mut k: usize = 0;
    while k < n_reloc
        invariant
            n_reloc == header.n_reloc,
            *header == header_of(bytes@),
            len == bytes@.len(),
            28 + 8 * n_reloc <= len,
            text@ == text_of(bytes@),
            text@.len() == header.l_text,
            0 <= k <= n_reloc,
            relocs@.len() == k,
            forall|i: int| 0 <= i < k ==> #[trigger] relocs@[i] == reloc_at(bytes@, i),
            forall|i: int|
                0 <= i < k ==> reloc_ok(header.n_symbol, header.n_reloc, text@, reloc_at(bytes@, i)),
        decreases n_reloc - k,
    {
        let offset = read_word(bytes, 28 + 8 * k);
        let symbol = read_word(bytes, 28 + 8 * k + 4);
        let entry = RelocEntry { offset, symbol };
        assert(entry == reloc_at(bytes@, k as int));
        if symbol >= header.n_symbol || offset as u64 + 4 > header.l_text as u64 {
            return None;
        }
        let g = read_word(text, offset as usize);
        if g % 4 != 0 || g as u64 + 4 > 4 * (header.n_reloc as u64) {
            return None;
        }
        relocs.push(entry);
        k += 1;
    }
    assert(relocs@ =~= image_of(bytes@).relocs);
    Some(relocs)
}

/// Reads the function table of the image `bytes`.
fn parse_funcs(bytes: &[u8], header: &ModuleHeader) -> (r: Option<Vec<u32>>)
    requires
        *header == header_of(bytes@),
        header.symbols_at() <= bytes@.len(),
    ensures
        r is Some <==> funcs_ok(bytes@),
        r matches Some(v) ==> v@ == image_of(bytes@).funcs,
{
    let n_funcs = header.n_funcs as usize;
    let len = bytes.len();
    let base = 28 + 8 * (header.n_reloc as usize);
    let mut funcs: Vec<u32> = Vec::new();
    let mut j: usize = 0;
    while j < n_funcs
        invariant
            n_funcs == header.n_funcs,
            *header == header_of(bytes@),
            len == bytes@.len(),
            base == header.funcs_at(),
            base + 4 * n_funcs <= len,
            0 <= j <= n_funcs,
            funcs@.len() == j,
            forall|i: int| 0 <= i < j ==> #[trigger] funcs@[i] == func_at(bytes@, i),
            forall|i: int| 0 <= i < j ==> func_at(bytes@, i) < header.n_symbol,
        decreases n_funcs - j,
    {
        let idx = read_word(bytes, base + 4 * j);
        assert(idx == func_at(bytes@, j as int));
        if idx >= header.n_symbol {
            return None;
        }
        funcs.push(idx);
        j += 1;
    }
    assert(funcs@ =~= image_of(bytes@).funcs);
    Some(funcs)
}

impl<'a> Image<'a> {
    /// Whether the image is in order: the header counts what the tables
    /// hold, every index names a symbol, and every relocation selects a slot.
    pub fn is_wf(&self) -> (b: bool)
        ensures
            b == self@.wf(),
    {
        let h = &self.header;
        if self.relocs.len() as u64 != h.n_reloc as u64 || self.funcs.len() as u64 != h.n_funcs as u64
            || self.symbols.len() as u64 != h.n_symbol as u64 || self.text.len() as u64
            != h.l_text as u64 || self.data.len() as u64 != h.l_data as u64 || 8 * (
        h.n_symbol as u64) > h.l_symt as u64 {
            return false;
        }
        let mut k: usize = 0;
        while k < self.relocs.len()
            invariant
                0 <= k <= self.relocs@.len(),
                self.relocs@.len() == self.header.n_reloc,
                self.text@.len() == self.header.l_text,
                forall|i: int|
                    0 <= i < k ==> reloc_ok(
                        self.header.n_symbol,
                        self.header.n_reloc,
                        self.text@,
                        #[trigger] self.relocs@[i],
                    ),
            decreases self.relocs@.len() - k,
        {
            let r = self.relocs[k];
            if r.symbol >= self.header.n_symbol || r.offset as u64 + 4 > self.header.l_text as u64 {
                return false;
            }
            let g = read_word(self.text, r.offset as usize);
            if g % 4 != 0 || g as u64 + 4 > 4 * (self.header.n_reloc as u64) {
                return false;
            }
            k += 1;
        }
        let mut j: usize = 0;
        while j < self.funcs.len()
            invariant
                0 <= j <= self.funcs@.len(),
                forall|i: int| 0 <= i < j ==> #[trigger] self.funcs@[i] < self.header.n_symbol,
            decreases self.funcs@.len() - j,
        {
            if self.funcs[j] >= self.header.n_symbol {
                return false;
            }
            j += 1;
        }
        true
    }

    /// Reads an image in place. The result borrows the code and the data
    /// from `bytes`; bytes behind the data are not looked at.
    #[verifier::rlimit(40)]
    pub fn decode(bytes: &'a [u8]) -> (r: Result<Image<'a>, ImageError>)
        ensures
            match r {
                Ok(img) => spec_decode(bytes@) == Ok::<ImageView, ImageError>(img@) && img@.wf(),
                Err(e) => spec_decode(bytes@) == Err::<ImageView, ImageError>(e),
            },
    {
        let header = match parse_header(bytes) {
            Some(h) => h,
            None => {
                return Err(ImageError::Truncated);
            },
        };
        if (bytes.len() as u64) < header.total_len() {
            return Err(ImageError::Truncated);
        }
        let mut cursor: usize = HEADER_LEN;
        let _ = acquire_vec(bytes, &mut cursor, 8 * (header.n_reloc as usize));
        let _ = acquire_vec(bytes, &mut cursor, 4 * (header.n_funcs as usize));
        let raw_table = acquire_vec(bytes, &mut cursor, header.l_symt as usize).unwrap();
        let text = acquire_vec(bytes, &mut cursor, header.l_text as usize).unwrap();
        let data = acquire_vec(bytes, &mut cursor, header.l_data as usize).unwrap();
        let symbols = parse_symtable(header.n_symbol, raw_table)?;
        let relocs = match parse_relocs(bytes, &header, text) {
            Some(v) => v,
            None => {
                return Err(ImageError::BadRelocation);
            },
        };
        let funcs = match parse_funcs(bytes, &header) {
            Some(v) => v,
            None => {
                return Err(ImageError::BadFunction);
            },
        };
        let img = Image { header, relocs, funcs, symbols, text, data };
        proof {
            assert(img@ == image_of(bytes@));
            lemma_decoded_wf(bytes@);
        }
        Ok(img)
    }
}

} // verus!
