//! Writing an image out, and the proof that reading gives it back.

use crate::image::{
    lemma_name_len, func_at, funcs_ok, header_of, image_of, name_chars, name_offset, name_ok, reloc_at, relocs_ok,
    spec_decode, table_error, table_symbol, table_symbol_ok, table_symbols, type_bits, Image,
    ImageError, ImageView, ModuleHeader, RelocEntry,
};
use crate::plt::zeros;
use crate::symbol::{is_named, views, Symbol, SymbolView};
use crate::word::{lemma_word_roundtrip, push_word, word_at, word_bytes};
use vstd::prelude::*;
use vstd::string::StringSliceAdditionalSpecFns;
use vstd::utf8::{encode_utf8, is_ascii_chars, is_ascii_chars_encode_utf8};

verus! {

/// The bytes of a sequence of words, each little-endian.
pub open spec fn words_bytes(w: Seq<u32>) -> Seq<u8>
    decreases w.len(),
{
    if w.len() == 0 {
        Seq::empty()
    } else {
        words_bytes(w.drop_last()) + word_bytes(w.last())
    }
}

/// The seven words of a header.
pub open spec fn header_words(h: ModuleHeader) -> Seq<u32> {
    seq![h.n_funcs, h.n_reloc, h.l_symt, h.l_text, h.l_data, h.l_bss, h.n_symbol]
}

/// The relocation table: per relocation its offset, then its symbol.
pub open spec fn relocs_bytes(r: Seq<RelocEntry>) -> Seq<u8>
    decreases r.len(),
{
    if r.len() == 0 {
        Seq::empty()
    } else {
        relocs_bytes(r.drop_last()) + word_bytes(r.last().offset) + word_bytes(r.last().symbol)
    }
}

/// What a symbol adds to the pool of names: its name and a zero byte where
/// it is exported or external, nothing otherwise.
pub open spec fn pool_entry(s: SymbolView) -> Seq<u8> {
    if is_named(s.s_type) {
        encode_utf8(s.name) + seq![0u8]
    } else {
        Seq::empty()
    }
}

/// The pool of names of a symbol table.
pub open spec fn pool(symbols: Seq<SymbolView>) -> Seq<u8>
    decreases symbols.len(),
{
    if symbols.len() == 0 {
        Seq::empty()
    } else {
        pool(symbols.drop_last()) + pool_entry(symbols.last())
    }
}

/// The first word of a symbol record: the type bits above the offset of the
/// name in the pool.
pub open spec fn first_word(s_type: u8, name_at: int) -> u32 {
    (s_type * 0x1000_0000 + name_at) as u32
}

/// The symbol records: per symbol its first word, then its payload. The
/// name of symbol `i` lies in the pool behind the names of the symbols
/// before it.
pub open spec fn records_bytes(symbols: Seq<SymbolView>) -> Seq<u8>
    decreases symbols.len(),
{
    if symbols.len() == 0 {
        Seq::empty()
    } else {
        records_bytes(symbols.drop_last()) + word_bytes(
            first_word(symbols.last().s_type, pool(symbols.drop_last()).len() as int),
        ) + word_bytes(symbols.last().index1)
    }
}

/// The number of zero bytes that bring `n` bytes to the next word boundary.
pub open spec fn padding(n: int) -> int {
    (4 - n % 4) % 4
}

/// The symbol table of an image: the records, the pool, and the padding.
pub open spec fn table_bytes(symbols: Seq<SymbolView>) -> Seq<u8> {
    records_bytes(symbols) + pool(symbols) + zeros(padding(pool(symbols).len() as int))
}

/// The bytes of an image.
pub open spec fn image_bytes(v: ImageView) -> Seq<u8> {
    words_bytes(header_words(v.header)) + relocs_bytes(v.relocs) + words_bytes(v.funcs)
        + table_bytes(v.symbols) + v.text + v.data
}

impl ImageView {
    /// Whether the header says what the image holds and the symbol records
    /// are such as an image can store: three type bits, the payload in the
    /// first index, and a pool of names that the 28 bits of an offset reach.
    pub open spec fn canonical(self) -> bool {
        &&& self.relocs.len() == self.header.n_reloc
        &&& self.funcs.len() == self.header.n_funcs
        &&& self.symbols.len() == self.header.n_symbol
        &&& self.text.len() == self.header.l_text
        &&& self.data.len() == self.header.l_data
        &&& self.header.l_symt == table_bytes(self.symbols).len()
        &&& pool(self.symbols).len() < 0x1000_0000
        &&& forall|i: int| 0 <= i < self.symbols.len() ==> (#[trigger] self.symbols[i]).s_type < 8
    }

    /// Whether reading gives every symbol back as it is: no second index,
    /// and a name only where the image stores one, made of ASCII characters
    /// other than NUL.
    pub open spec fn plain(self) -> bool {
        forall|i: int| 0 <= i < self.symbols.len() ==> plain_symbol(#[trigger] self.symbols[i])
    }
}

/// In a canonical image the code starts at a multiple of four bytes from
/// the start of the image: the padding behind the names sees to that.
pub proof fn lemma_text_aligned(v: ImageView)
    requires
        v.canonical(),
    ensures
        v.header.text_at() % 4 == 0,
{
    lemma_records_len(v.symbols);
}

/// The pool only grows along the table.
pub proof fn lemma_pool_grows(symbols: Seq<SymbolView>, i: int)
    requires
        0 <= i <= symbols.len(),
    ensures
        pool(symbols.take(i)).len() <= pool(symbols).len(),
        pool(symbols.take(i)) == pool(symbols).take(pool(symbols.take(i)).len() as int),
    decreases symbols.len() - i,
{
    if i < symbols.len() {
        assert(symbols.take(i + 1).drop_last() =~= symbols.take(i));
        lemma_pool_grows(symbols, i + 1);
        assert(pool(symbols.take(i)) =~= pool(symbols).take(pool(symbols.take(i)).len() as int));
    } else {
        assert(symbols.take(i) =~= symbols);
        assert(pool(symbols) =~= pool(symbols).take(pool(symbols).len() as int));
    }
}

proof fn lemma_words_len(w: Seq<u32>)
    ensures
        words_bytes(w).len() == 4 * w.len(),
    decreases w.len(),
{
    if w.len() > 0 {
        lemma_words_len(w.drop_last());
    }
}

proof fn lemma_relocs_len(r: Seq<RelocEntry>)
    ensures
        relocs_bytes(r).len() == 8 * r.len(),
    decreases r.len(),
{
    if r.len() > 0 {
        lemma_relocs_len(r.drop_last());
    }
}

pub proof fn lemma_records_len(symbols: Seq<SymbolView>)
    ensures
        records_bytes(symbols).len() == 8 * symbols.len(),
    decreases symbols.len(),
{
    if symbols.len() > 0 {
        lemma_records_len(symbols.drop_last());
    }
}

/// Word `i` of the bytes of a sequence of words is word `i` of the sequence.
proof fn lemma_words_at(w: Seq<u32>, i: int)
    requires
        0 <= i < w.len(),
    ensures
        word_at(words_bytes(w), 4 * i) == w[i],
    decreases w.len(),
{
    let front = w.drop_last();
    lemma_words_len(front);
    if i == w.len() - 1 {
        lemma_word_roundtrip(w.last());
        assert(word_at(words_bytes(w), 4 * i) == word_at(word_bytes(w.last()), 0));
    } else {
        lemma_words_at(front, i);
        assert(word_at(words_bytes(w), 4 * i) == word_at(words_bytes(front), 4 * i));
    }
}

/// The two words of relocation `k` in the bytes of a relocation table.
proof fn lemma_relocs_at(r: Seq<RelocEntry>, k: int)
    requires
        0 <= k < r.len(),
    ensures
        word_at(relocs_bytes(r), 8 * k) == r[k].offset,
        word_at(relocs_bytes(r), 8 * k + 4) == r[k].symbol,
    decreases r.len(),
{
    let front = r.drop_last();
    lemma_relocs_len(front);
    if k == r.len() - 1 {
        lemma_word_roundtrip(r.last().offset);
        lemma_word_roundtrip(r.last().symbol);
        assert(word_at(relocs_bytes(r), 8 * k) == word_at(word_bytes(r.last().offset), 0));
        assert(word_at(relocs_bytes(r), 8 * k + 4) == word_at(word_bytes(r.last().symbol), 0));
    } else {
        lemma_relocs_at(front, k);
        assert(word_at(relocs_bytes(r), 8 * k) == word_at(relocs_bytes(front), 8 * k));
        assert(word_at(relocs_bytes(r), 8 * k + 4) == word_at(relocs_bytes(front), 8 * k + 4));
    }
}

/// The two words of record `i` in the bytes of the symbol records.
proof fn lemma_records_at(symbols: Seq<SymbolView>, i: int)
    requires
        0 <= i < symbols.len(),
    ensures
        word_at(records_bytes(symbols), 8 * i) == first_word(
            symbols[i].s_type,
            pool(symbols.take(i)).len() as int,
        ),
        word_at(records_bytes(symbols), 8 * i + 4) == symbols[i].index1,
    decreases symbols.len(),
{
    let front = symbols.drop_last();
    lemma_records_len(front);
    if i == symbols.len() - 1 {
        let x = first_word(symbols.last().s_type, pool(front).len() as int);
        lemma_word_roundtrip(x);
        lemma_word_roundtrip(symbols.last().index1);
        assert(symbols.take(i) =~= front);
        assert(word_at(records_bytes(symbols), 8 * i) == word_at(word_bytes(x), 0));
        assert(word_at(records_bytes(symbols), 8 * i + 4) == word_at(
            word_bytes(symbols.last().index1),
            0,
        ));
    } else {
        lemma_records_at(front, i);
        assert(front.take(i) =~= symbols.take(i));
        assert(word_at(records_bytes(symbols), 8 * i) == word_at(records_bytes(front), 8 * i));
        assert(word_at(records_bytes(symbols), 8 * i + 4) == word_at(
            records_bytes(front),
            8 * i + 4,
        ));
    }
}

/// The first word of a record gives back its type bits and its offset.
proof fn lemma_first_word(s_type: u8, name_at: int)
    requires
        s_type < 8,
        0 <= name_at < 0x1000_0000,
    ensures
        type_bits(first_word(s_type, name_at)) == s_type,
        name_offset(first_word(s_type, name_at)) == name_at,
{
    let x = first_word(s_type, name_at);
    assert(x == s_type * 0x1000_0000 + name_at);
    assert(x / 0x1000_0000 == s_type as int);
    assert(x % 0x1000_0000 == name_at);
    assert(x / 0x8000_0000 == 0);
}

/// The entry of symbol `i` lies in the pool behind the entries before it.
proof fn lemma_pool_entry(symbols: Seq<SymbolView>, i: int, k: int)
    requires
        0 <= i < symbols.len(),
        0 <= k < pool_entry(symbols[i]).len(),
    ensures
        pool(symbols.take(i)).len() + pool_entry(symbols[i]).len() <= pool(symbols).len(),
        pool(symbols)[pool(symbols.take(i)).len() + k] == pool_entry(symbols[i])[k],
{
    lemma_pool_grows(symbols, i + 1);
    assert(symbols.take(i + 1).drop_last() =~= symbols.take(i));
    assert(symbols.take(i + 1).last() == symbols[i]);
    let upto = pool(symbols.take(i + 1));
    assert(upto == pool(symbols.take(i)) + pool_entry(symbols[i]));
    assert(upto[pool(symbols.take(i)).len() + k] == pool_entry(symbols[i])[k]);
    assert(pool(symbols).take(upto.len() as int)[pool(symbols.take(i)).len() + k] == pool(
        symbols,
    )[pool(symbols.take(i)).len() + k]);
}

/// A word that lies inside the first of two byte strings is a word of it.
proof fn lemma_word_front(a: Seq<u8>, b: Seq<u8>, i: int)
    requires
        0 <= i,
        i + 4 <= a.len(),
    ensures
        word_at(a + b, i) == word_at(a, i),
{
}

/// A word behind the first of two byte strings is a word of the second.
proof fn lemma_word_back(a: Seq<u8>, b: Seq<u8>, i: int)
    requires
        0 <= i,
        i + 4 <= b.len(),
    ensures
        word_at(a + b, a.len() + i) == word_at(b, i),
{
}

/// Byte `k` of the entry of symbol `i`, found in the symbol table.
#[verifier::rlimit(40)]
proof fn lemma_table_byte(symbols: Seq<SymbolView>, i: int, k: int)
    requires
        0 <= i < symbols.len(),
        0 <= k < pool_entry(symbols[i]).len(),
    ensures
        8 * symbols.len() + pool(symbols.take(i)).len() + k < table_bytes(symbols).len(),
        table_bytes(symbols)[8 * symbols.len() + pool(symbols.take(i)).len() + k] == pool_entry(
            symbols[i],
        )[k],
{
    lemma_records_len(symbols);
    lemma_pool_entry(symbols, i, k);
    let r = records_bytes(symbols);
    let p = pool(symbols);
    let at = pool(symbols.take(i)).len() + k;
    assert((r + p)[r.len() + at] == p[at]);
    assert(table_bytes(symbols)[r.len() + at] == (r + p)[r.len() + at]);
}

/// The two words of record `i`, found in the symbol table.
#[verifier::rlimit(40)]
proof fn lemma_table_words(symbols: Seq<SymbolView>, i: int)
    requires
        0 <= i < symbols.len(),
    ensures
        word_at(table_bytes(symbols), 8 * i) == first_word(
            symbols[i].s_type,
            pool(symbols.take(i)).len() as int,
        ),
        word_at(table_bytes(symbols), 8 * i + 4) == symbols[i].index1,
{
    lemma_records_len(symbols);
    lemma_records_at(symbols, i);
    let r = records_bytes(symbols);
    let rest = pool(symbols) + zeros(padding(pool(symbols).len() as int));
    assert(table_bytes(symbols) =~= r + rest);
    lemma_word_front(r, rest, 8 * i);
    lemma_word_front(r, rest, 8 * i + 4);
}

/// Whether a name is made of ASCII characters other than NUL.
pub open spec fn plain_name(name: Seq<char>) -> bool {
    is_ascii_chars(name) && forall|k: int| 0 <= k < name.len() ==> name[k] != '\0'
}

/// Whether reading gives a symbol back as it is: no second index, and a
/// name only where the image stores one, made of ASCII characters other
/// than NUL.
pub open spec fn plain_symbol(s: SymbolView) -> bool {
    &&& s.index2 == 0
    &&& plain_name(s.name)
    &&& !is_named(s.s_type) ==> s.name.len() == 0
}

/// Where the name of symbol `i` starts in the symbol table.
pub open spec fn name_start(symbols: Seq<SymbolView>, i: int) -> int {
    (8 * symbols.len() + pool(symbols.take(i)).len()) as int
}

/// The name of a named symbol `i`, read from the symbol table.
#[verifier::rlimit(40)]
proof fn lemma_table_name(symbols: Seq<SymbolView>, i: int)
    requires
        0 <= i < symbols.len(),
        is_named(symbols[i].s_type),
        plain_symbol(symbols[i]),
    ensures
        name_ok(table_bytes(symbols), name_start(symbols, i)),
        name_chars(table_bytes(symbols), name_start(symbols, i)) == symbols[i].name,
{
    let t = table_bytes(symbols);
    let s = symbols[i];
    let bytes = encode_utf8(s.name);
    let from = name_start(symbols, i);
    let to = from + s.name.len();
    is_ascii_chars_encode_utf8(s.name);
    assert(pool_entry(s) == bytes + seq![0u8]);
    assert(pool_entry(s).len() == s.name.len() + 1);
    assert forall|k: int| from <= k < to implies t[k] != 0 by {
        lemma_table_byte(symbols, i, k - from);
        assert(pool_entry(s)[k - from] == bytes[k - from]);
        assert(bytes[k - from] == s.name[k - from] as u8);
        assert(s.name[k - from] != '\0');
    }
    lemma_table_byte(symbols, i, s.name.len() as int);
    assert(pool_entry(s)[s.name.len() as int] == 0);
    assert(t[to] == 0);
    lemma_name_len(t, from, to);
    assert forall|k: int| 0 <= k < s.name.len() implies t[from + k] as char == s.name[k] by {
        lemma_table_byte(symbols, i, k);
        assert(pool_entry(s)[k] == bytes[k]);
        assert(bytes[k] == s.name[k] as u8);
    }
    assert(name_chars(t, from) =~= s.name);
}

/// Record `i`, read from the symbol table, is symbol `i`.
#[verifier::rlimit(40)]
proof fn lemma_symbol_roundtrip(symbols: Seq<SymbolView>, i: int)
    requires
        0 <= i < symbols.len(),
        pool(symbols).len() < 0x1000_0000,
        symbols[i].s_type < 8,
        plain_symbol(symbols[i]),
    ensures
        table_symbol_ok(table_bytes(symbols), symbols.len() as int, i),
        table_symbol(table_bytes(symbols), symbols.len() as int, i) == symbols[i],
{
    let s = symbols[i];
    let at = pool(symbols.take(i)).len() as int;
    lemma_table_words(symbols, i);
    lemma_pool_grows(symbols, i);
    lemma_first_word(s.s_type, at);
    if is_named(s.s_type) {
        lemma_table_name(symbols, i);
    } else {
        assert(s.name =~= Seq::<char>::empty());
    }
}

/// Reading the symbol table that `table_bytes` writes gives the symbols back.
#[verifier::rlimit(40)]
proof fn lemma_table_roundtrip(symbols: Seq<SymbolView>)
    requires
        pool(symbols).len() < 0x1000_0000,
        forall|i: int| 0 <= i < symbols.len() ==> (#[trigger] symbols[i]).s_type < 8,
        forall|i: int| 0 <= i < symbols.len() ==> plain_symbol(#[trigger] symbols[i]),
    ensures
        table_error(table_bytes(symbols), symbols.len() as int) is None,
        table_symbols(table_bytes(symbols), symbols.len() as int) == symbols,
{
    let t = table_bytes(symbols);
    let n = symbols.len() as int;
    assert(8 * n <= t.len()) by {
        lemma_records_len(symbols);
    }
    assert forall|i: int| 0 <= i < n implies #[trigger] table_symbol_ok(t, n, i) by {
        lemma_symbol_roundtrip(symbols, i);
    }
    assert forall|i: int| 0 <= i < n implies #[trigger] table_symbol(t, n, i) == symbols[i] by {
        lemma_symbol_roundtrip(symbols, i);
    }
    assert(table_symbols(t, n) =~= symbols);
}

/// The header, read from the bytes of an image.
#[verifier::rlimit(40)]
proof fn lemma_header_roundtrip(h: ModuleHeader, rest: Seq<u8>)
    ensures
        header_of(words_bytes(header_words(h)) + rest) == h,
{
    let w = header_words(h);
    let a = words_bytes(w);
    lemma_words_len(w);
    lemma_words_at(w, 0);
    lemma_words_at(w, 1);
    lemma_words_at(w, 2);
    lemma_words_at(w, 3);
    lemma_words_at(w, 4);
    lemma_words_at(w, 5);
    lemma_words_at(w, 6);
    lemma_word_front(a, rest, 0);
    lemma_word_front(a, rest, 4);
    lemma_word_front(a, rest, 8);
    lemma_word_front(a, rest, 12);
    lemma_word_front(a, rest, 16);
    lemma_word_front(a, rest, 20);
    lemma_word_front(a, rest, 24);
}

/// Relocation `k`, read from the bytes of an image.
#[verifier::rlimit(40)]
proof fn lemma_reloc_roundtrip(v: ImageView, k: int)
    requires
        v.canonical(),
        0 <= k < v.relocs.len(),
    ensures
        reloc_at(image_bytes(v), k) == v.relocs[k],
{
    let a = words_bytes(header_words(v.header));
    let b = relocs_bytes(v.relocs);
    let rest = words_bytes(v.funcs) + table_bytes(v.symbols) + v.text + v.data;
    lemma_words_len(header_words(v.header));
    lemma_relocs_len(v.relocs);
    lemma_relocs_at(v.relocs, k);
    assert(image_bytes(v) =~= a + (b + rest));
    lemma_word_back(a, b + rest, 8 * k);
    lemma_word_back(a, b + rest, 8 * k + 4);
    lemma_word_front(b, rest, 8 * k);
    lemma_word_front(b, rest, 8 * k + 4);
}

/// Entry `j` of the function table, read from the bytes of an image.
#[verifier::rlimit(40)]
proof fn lemma_func_roundtrip(v: ImageView, j: int)
    requires
        v.canonical(),
        0 <= j < v.funcs.len(),
    ensures
        word_at(image_bytes(v), v.header.funcs_at() + 4 * j) == v.funcs[j],
{
    let ab = words_bytes(header_words(v.header)) + relocs_bytes(v.relocs);
    let c = words_bytes(v.funcs);
    let rest = table_bytes(v.symbols) + v.text + v.data;
    lemma_words_len(header_words(v.header));
    lemma_relocs_len(v.relocs);
    lemma_words_len(v.funcs);
    lemma_words_at(v.funcs, j);
    assert(image_bytes(v) =~= ab + (c + rest));
    lemma_word_back(ab, c + rest, 4 * j);
    lemma_word_front(c, rest, 4 * j);
}

/// The three regions behind the tables, read from the bytes of an image.
#[verifier::rlimit(40)]
proof fn lemma_regions_roundtrip(v: ImageView)
    requires
        v.canonical(),
    ensures
        image_bytes(v).len() == v.header.image_len(),
        image_bytes(v).subrange(v.header.symbols_at(), v.header.text_at()) == table_bytes(
            v.symbols,
        ),
        image_bytes(v).subrange(v.header.text_at(), v.header.data_at()) == v.text,
        image_bytes(v).subrange(v.header.data_at(), v.header.image_len()) == v.data,
{
    let e = image_bytes(v);
    let h = v.header;
    let abc = words_bytes(header_words(h)) + relocs_bytes(v.relocs) + words_bytes(v.funcs);
    let t = table_bytes(v.symbols);
    lemma_words_len(header_words(h));
    lemma_relocs_len(v.relocs);
    lemma_words_len(v.funcs);
    assert(abc.len() == h.symbols_at());
    assert(e == abc + t + v.text + v.data);
    assert(e.subrange(h.symbols_at(), h.text_at()) =~= t);
    assert(e.subrange(h.text_at(), h.data_at()) =~= v.text);
    assert(e.subrange(h.data_at(), h.image_len()) =~= v.data);
}

/// The header, read from the bytes of an image.
proof fn lemma_header_of_image(v: ImageView)
    ensures
        header_of(image_bytes(v)) == v.header,
{
    let rest = relocs_bytes(v.relocs) + words_bytes(v.funcs) + table_bytes(v.symbols) + v.text
        + v.data;
    assert(image_bytes(v) =~= words_bytes(header_words(v.header)) + rest);
    lemma_header_roundtrip(v.header, rest);
}

/// Reading an image that `image_bytes` writes gives the image back: an image
/// whose header is canonical, whose indices are in order and whose symbols
/// are plain survives the way through its bytes.
#[verifier::rlimit(40)]
pub proof fn lemma_roundtrip(v: ImageView)
    requires
        v.canonical(),
        v.wf(),
        v.plain(),
    ensures
        spec_decode(image_bytes(v)) == Ok::<ImageView, ImageError>(v),
{
    let e = image_bytes(v);
    let h = v.header;
    lemma_header_of_image(v);
    lemma_regions_roundtrip(v);
    lemma_table_roundtrip(v.symbols);
    assert forall|k: int| 0 <= k < h.n_reloc implies #[trigger] reloc_at(e, k) == v.relocs[k] by {
        lemma_reloc_roundtrip(v, k);
    }
    assert forall|j: int| 0 <= j < h.n_funcs implies #[trigger] func_at(e, j) == v.funcs[j] by {
        lemma_func_roundtrip(v, j);
    }
    assert(image_of(e).relocs =~= v.relocs);
    assert(image_of(e).funcs =~= v.funcs);
    assert(image_of(e) == v);
    assert(relocs_ok(e));
    assert(funcs_ok(e));
}

fn push_all(out: &mut Vec<u8>, bytes: &[u8])
    ensures
        final(out)@ == old(out)@ + bytes@,
{
    let mut i: usize = 0;
    while i < bytes.len()
        invariant
            0 <= i <= bytes@.len(),
            out@ == old(out)@ + bytes@.take(i as int),
        decreases bytes@.len() - i,
    {
        out.push(bytes[i]);
        i += 1;
        assert(out@ =~= old(out)@ + bytes@.take(i as int));
    }
    assert(bytes@.take(i as int) =~= bytes@);
}

fn encode_header(out: &mut Vec<u8>, h: &ModuleHeader)
    requires
        old(out)@.len() == 0,
    ensures
        final(out)@ == words_bytes(header_words(*h)),
{
    let ghost w = header_words(*h);
    push_word(out, h.n_funcs);
    push_word(out, h.n_reloc);
    push_word(out, h.l_symt);
    push_word(out, h.l_text);
    push_word(out, h.l_data);
    push_word(out, h.l_bss);
    push_word(out, h.n_symbol);
    proof {
        reveal_with_fuel(words_bytes, 8);
        assert(w.drop_last() =~= seq![h.n_funcs, h.n_reloc, h.l_symt, h.l_text, h.l_data, h.l_bss]);
        assert(w.drop_last().drop_last() =~= seq![h.n_funcs, h.n_reloc, h.l_symt, h.l_text, h.l_data]);
        assert(w.drop_last().drop_last().drop_last() =~= seq![
            h.n_funcs,
            h.n_reloc,
            h.l_symt,
            h.l_text,
        ]);
        assert(w.drop_last().drop_last().drop_last().drop_last() =~= seq![
            h.n_funcs,
            h.n_reloc,
            h.l_symt,
        ]);
        assert(w.drop_last().drop_last().drop_last().drop_last().drop_last() =~= seq![
            h.n_funcs,
            h.n_reloc,
        ]);
        assert(w.drop_last().drop_last().drop_last().drop_last().drop_last().drop_last() =~= seq![
            h.n_funcs,
        ]);
        assert(out@ =~= words_bytes(w));
    }
}

fn encode_relocs(out: &mut Vec<u8>, relocs: &Vec<RelocEntry>)
    ensures
        final(out)@ == old(out)@ + relocs_bytes(relocs@),
{
    let mut k: usize = 0;
    while k < relocs.len()
        invariant
            0 <= k <= relocs@.len(),
            out@ == old(out)@ + relocs_bytes(relocs@.take(k as int)),
        decreases relocs@.len() - k,
    {
        push_word(out, relocs[k].offset);
        push_word(out, relocs[k].symbol);
        proof {
            assert(relocs@.take(k + 1).drop_last() =~= relocs@.take(k as int));
            assert(out@ =~= old(out)@ + relocs_bytes(relocs@.take(k + 1)));
        }
        k += 1;
    }
    assert(relocs@.take(k as int) =~= relocs@);
}

fn encode_funcs(out: &mut Vec<u8>, funcs: &Vec<u32>)
    ensures
        final(out)@ == old(out)@ + words_bytes(funcs@),
{
    let mut j: usize = 0;
    while j < funcs.len()
        invariant
            0 <= j <= funcs@.len(),
            out@ == old(out)@ + words_bytes(funcs@.take(j as int)),
        decreases funcs@.len() - j,
    {
        push_word(out, funcs[j]);
        proof {
            assert(funcs@.take(j + 1).drop_last() =~= funcs@.take(j as int));
            assert(out@ =~= old(out)@ + words_bytes(funcs@.take(j + 1)));
        }
        j += 1;
    }
    assert(funcs@.take(j as int) =~= funcs@);
}

#[verifier::rlimit(40)]
fn encode_records(out: &mut Vec<u8>, symbols: &Vec<Symbol>) -> (pool_len: u32)
    requires
        pool(views(symbols@)).len() < 0x1000_0000,
        forall|i: int|
            0 <= i < symbols@.len() ==> (#[trigger] views(symbols@)[i]).s_type < 8,
    ensures
        final(out)@ == old(out)@ + records_bytes(views(symbols@)),
        pool_len == pool(views(symbols@)).len(),
{
    let ghost all = views(symbols@);
    let mut at: u32 = 0;
    let mut i: usize = 0;
    while i < symbols.len()
        invariant
            0 <= i <= symbols@.len(),
            all == views(symbols@),
            pool(all).len() < 0x1000_0000,
            forall|j: int| 0 <= j < symbols@.len() ==> (#[trigger] all[j]).s_type < 8,
            at == pool(all.take(i as int)).len(),
            out@ == old(out)@ + records_bytes(all.take(i as int)),
        decreases symbols@.len() - i,
    {
        let sym = &symbols[i];
        let s_type = sym.s_type;
        proof {
            lemma_pool_grows(all, i as int);
            lemma_pool_grows(all, i + 1);
            assert(all.take(i + 1).drop_last() =~= all.take(i as int));
            assert(all.take(i + 1).last() == sym@);
            assert(all[i as int].s_type < 8);
        }
        let x = ((s_type as u32) << 28) | at;
        assert(x == s_type as u32 * 0x1000_0000 + at) by (bit_vector)
            requires
                x == ((s_type as u32) << 28) | at,
                s_type < 8,
                at < 0x1000_0000,
        ;
        push_word(out, x);
        push_word(out, sym.index1);
        assert(s_type & 3 == s_type % 4) by (bit_vector);
        let kind = s_type & 3;
        if kind == 1 || kind == 2 {
            let n = sym.s_name.as_str().as_bytes().len();
            at = at + n as u32 + 1;
        }
        proof {
            assert(out@ =~= old(out)@ + records_bytes(all.take(i + 1)));
        }
        i += 1;
    }
    assert(all.take(i as int) =~= all);
    at
}

fn encode_pool(out: &mut Vec<u8>, symbols: &Vec<Symbol>)
    ensures
        final(out)@ == old(out)@ + pool(views(symbols@)),
{
    let ghost all = views(symbols@);
    let mut i: usize = 0;
    while i < symbols.len()
        invariant
            0 <= i <= symbols@.len(),
            all == views(symbols@),
            out@ == old(out)@ + pool(all.take(i as int)),
        decreases symbols@.len() - i,
    {
        let sym = &symbols[i];
        let s_type = sym.s_type;
        assert(s_type & 3 == s_type % 4) by (bit_vector);
        let kind = s_type & 3;
        if kind == 1 || kind == 2 {
            push_all(out, sym.s_name.as_str().as_bytes());
            out.push(0);
        }
        proof {
            assert(all.take(i + 1).drop_last() =~= all.take(i as int));
            assert(all.take(i + 1).last() == sym@);
            assert(out@ =~= old(out)@ + pool(all.take(i + 1)));
        }
        i += 1;
    }
    assert(all.take(i as int) =~= all);
}

/// The number of bytes of the pool of names, where 28 bits can count them.
pub fn pool_size(symbols: &Vec<Symbol>) -> (r: Option<u32>)
    ensures
        match r {
            Some(n) => n == pool(views(symbols@)).len() && n < 0x1000_0000,
            None => pool(views(symbols@)).len() >= 0x1000_0000,
        },
{
    let ghost all = views(symbols@);
    let mut size: u64 = 0;
    let mut i: usize = 0;
    while i < symbols.len()
        invariant
            0 <= i <= symbols@.len(),
            all == views(symbols@),
            size == pool(all.take(i as int)).len(),
            size < 0x1000_0000,
        decreases symbols@.len() - i,
    {
        let sym = &symbols[i];
        proof {
            assert(all.take(i + 1).drop_last() =~= all.take(i as int));
            assert(all.take(i + 1).last() == sym@);
            lemma_pool_grows(all, i + 1);
        }
        let kind = sym.kind();
        if kind == 1 || kind == 2 {
            let n = sym.s_name.as_str().as_bytes().len();
            if n as u64 >= 0x1000_0000 {
                return None;
            }
            size = size + n as u64 + 1;
            if size >= 0x1000_0000 {
                return None;
            }
        }
        i += 1;
    }
    assert(all.take(i as int) =~= all);
    Some(size as u32)
}

impl<'a> Image<'a> {
    /// Whether the image can be written out: the header says what the
    /// image holds, and the symbol records are such as an image can store.
    pub fn is_canonical(&self) -> (b: bool)
        ensures
            b == self@.canonical(),
    {
        let h = &self.header;
        if self.relocs.len() as u64 != h.n_reloc as u64 || self.funcs.len() as u64 != h.n_funcs as u64
            || self.symbols.len() as u64 != h.n_symbol as u64 || self.text.len() as u64
            != h.l_text as u64 || self.data.len() as u64 != h.l_data as u64 {
            return false;
        }
        let ghost all = views(self.symbols@);
        let mut i: usize = 0;
        while i < self.symbols.len()
            invariant
                0 <= i <= self.symbols@.len(),
                all == views(self.symbols@),
                forall|j: int| 0 <= j < i ==> (#[trigger] all[j]).s_type < 8,
            decreases self.symbols@.len() - i,
        {
            if self.symbols[i].s_type >= 8 {
                assert(all[i as int].s_type >= 8);
                return false;
            }
            i += 1;
        }
        proof {
            lemma_records_len(all);
        }
        match pool_size(&self.symbols) {
            Some(pool_len) => {
                let pad = (4 - pool_len % 4) % 4;
                h.l_symt as u64 == 8 * (h.n_symbol as u64) + pool_len as u64 + pad as u64
            },
            None => false,
        }
    }

    /// Writes the image out.
    pub fn encode(&self) -> (out: Vec<u8>)
        requires
            self@.canonical(),
        ensures
            out@ == image_bytes(self@),
    {
        let mut out: Vec<u8> = Vec::new();
        encode_header(&mut out, &self.header);
        encode_relocs(&mut out, &self.relocs);
        encode_funcs(&mut out, &self.funcs);
        let pool_len = encode_records(&mut out, &self.symbols);
        encode_pool(&mut out, &self.symbols);
        let ghost before = out@;
        let pad = (4 - pool_len % 4) % 4;
        let mut i: u32 = 0;
        while i < pad
            invariant
                0 <= i <= pad,
                out@ == before + zeros(i as int),
            decreases pad - i,
        {
            out.push(0);
            i += 1;
            assert(out@ =~= before + zeros(i as int));
        }
        push_all(&mut out, self.text);
        push_all(&mut out, self.data);
        assert(out@ =~= image_bytes(self@));
        out
    }
}

} // verus!
