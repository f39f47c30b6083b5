//! What holds of a module once it is resolved.

use crate::image::{reloc_ok, slot_ok, ImageView};
use crate::module::{
    cross_entry, first_named, is_own, layout_error, lemma_first_named, lemma_linked_shape, linked,
    manual_entry, own_address, placed, provider, resolve_error, ModulePtr, ModuleView,
};
use crate::registry::Range;
use crate::plt::{lemma_plt_len, plt_bytes, zeros};
use crate::symbol::{SymbolView, KIND_EXPORTED, KIND_EXTERNAL};
use crate::word::{lemma_stored, stored, word_at};
use vstd::prelude::*;

verus! {

impl ImageView {
    /// Whether relocation `k` fills its slot with an address: its symbol is
    /// the module's own, or it is external and a dependency provides it
    /// with a cross-boundary slot.
    pub open spec fn live(self, ptrs: ModulePtr, deps: Seq<Seq<SymbolView>>, k: int) -> bool {
        let s = self.target(k);
        if is_own(s) {
            true
        } else if s.kind() == KIND_EXTERNAL {
            match provider(deps, s.name) {
                Some(p) => p.index2 != 0,
                None => false,
            }
        } else {
            false
        }
    }

    /// The word in the slot at byte offset `g` after the first `k`
    /// relocations: what the last of them that selects the slot and writes
    /// has written, and zero where none does.
    pub open spec fn slot_after(
        self,
        ptrs: ModulePtr,
        deps: Seq<Seq<SymbolView>>,
        g: int,
        k: int,
    ) -> u32
        decreases k,
    {
        if k <= 0 {
            0
        } else if self.slot(k - 1) == g && self.value(ptrs, deps, k - 1) is Some {
            self.value(ptrs, deps, k - 1).unwrap()
        } else {
            self.slot_after(ptrs, deps, g, k - 1)
        }
    }
}

/// A word of zeros is zero.
proof fn lemma_zero_word(n: int, g: int)
    requires
        0 <= g,
        g + 4 <= n,
    ensures
        word_at(zeros(n), g) == 0,
{
}

/// A store into one slot of a table changes that slot and no other.
proof fn lemma_slot_step(before: Seq<u8>, at: int, e: u32, g: int)
    requires
        0 <= at,
        at % 4 == 0,
        at + 4 <= before.len(),
        0 <= g,
        g % 4 == 0,
        g + 4 <= before.len(),
    ensures
        stored(before, at, e).len() == before.len(),
        word_at(stored(before, at, e), g) == if at == g {
            e
        } else {
            word_at(before, g)
        },
{
    lemma_stored(before, at, e, g);
}

/// The offset table keeps its length, and each of its slots holds what the
/// last relocation that selected it wrote.
#[verifier::rlimit(40)]
pub proof fn lemma_got_slots(
    img: ImageView,
    ptrs: ModulePtr,
    deps: Seq<Seq<SymbolView>>,
    g: int,
    k: int,
)
    requires
        img.wf(),
        0 <= k <= img.relocs.len(),
        0 <= g,
        g % 4 == 0,
        g + 4 <= 4 * img.header.n_reloc,
    ensures
        img.got_after(ptrs, deps, k).len() == 4 * img.header.n_reloc,
        word_at(img.got_after(ptrs, deps, k), g) == img.slot_after(ptrs, deps, g, k),
    decreases k,
{
    if k == 0 {
        lemma_zero_word(4 * img.header.n_reloc, g);
    } else {
        lemma_got_slots(img, ptrs, deps, g, k - 1);
        let before = img.got_after(ptrs, deps, k - 1);
        let at = img.slot(k - 1) as int;
        assert(slot_ok(img.header.n_reloc, img.slot(k - 1))) by {
            assert(reloc_ok(img.header.n_symbol, img.header.n_reloc, img.text, img.relocs[k - 1]));
        }
        match img.value(ptrs, deps, k - 1) {
            Some(e) => {
                lemma_slot_step(before, at, e, g);
            },
            None => {},
        }
    }
}

/// Where every relocation that selects the slot `g` writes nothing, the
/// slot stays zero.
proof fn lemma_slot_untouched(
    img: ImageView,
    ptrs: ModulePtr,
    deps: Seq<Seq<SymbolView>>,
    g: int,
    k: int,
)
    requires
        0 <= k <= img.relocs.len(),
        forall|j: int| 0 <= j < k && img.slot(j) == g ==> img.value(ptrs, deps, j) is None,
    ensures
        img.slot_after(ptrs, deps, g, k) == 0,
    decreases k,
{
    if k > 0 {
        lemma_slot_untouched(img, ptrs, deps, g, k - 1);
    }
}

/// Where every relocation that selects the slot `g` writes `e`, and one of
/// the first `k` does select it, the slot holds `e`.
proof fn lemma_slot_written(
    img: ImageView,
    ptrs: ModulePtr,
    deps: Seq<Seq<SymbolView>>,
    g: int,
    e: u32,
    k: int,
    witness: int,
)
    requires
        0 <= witness < k <= img.relocs.len(),
        img.slot(witness) == g,
        forall|j: int| 0 <= j < k && img.slot(j) == g ==> img.value(ptrs, deps, j) == Some(e),
    ensures
        img.slot_after(ptrs, deps, g, k) == e,
    decreases k,
{
    if witness < k - 1 && !(img.slot(k - 1) == g) {
        lemma_slot_written(img, ptrs, deps, g, e, k - 1, witness);
    }
}

/// After resolving, the slot that a relocation selects is non-zero exactly
/// when the relocation's symbol is the module's own or an external one that
/// a dependency provides with a cross-boundary slot.
///
/// This holds where the regions of the module are allocated, the addresses
/// fit in 32 bits, and the relocations that share the slot write the same
/// value, as the two halves of a `movw`/`movt` pair do.
pub proof fn lemma_slot_nonzero(
    img: ImageView,
    ptrs: ModulePtr,
    deps: Seq<Seq<SymbolView>>,
    k: int,
)
    requires
        img.wf(),
        img.fits(ptrs),
        ptrs.text_begin != 0,
        ptrs.data_begin != 0,
        0 <= k < img.relocs.len(),
        forall|j: int|
            0 <= j < img.relocs.len() && img.slot(j) == img.slot(k) ==> img.value(ptrs, deps, j)
                == img.value(ptrs, deps, k),
    ensures
        word_at(img.got_after(ptrs, deps, img.relocs.len() as int), img.slot(k) as int) != 0
            <==> img.live(ptrs, deps, k),
{
    let n = img.relocs.len() as int;
    let g = img.slot(k) as int;
    assert(reloc_ok(img.header.n_symbol, img.header.n_reloc, img.text, img.relocs[k]));
    lemma_got_slots(img, ptrs, deps, g, n);
    let s = img.target(k);
    match img.value(ptrs, deps, k) {
        Some(e) => {
            lemma_slot_written(img, ptrs, deps, g, e, n, k);
            if is_own(s) {
                assert(own_address(s, ptrs) <= u32::MAX);
                assert(own_address(s, ptrs) > 0);
            }
        },
        None => {
            lemma_slot_untouched(img, ptrs, deps, g, n);
        },
    }
}

/// Resolving a resolved module again, against the same image and the same
/// dependencies, gives the same offset table and the same linkage table,
/// byte for byte: both depend on the image, the layout and the dependencies
/// only, and resolving changes none of them.
pub proof fn lemma_resolve_again(img: ImageView, m: ModuleView, deps: Seq<Seq<SymbolView>>)
    requires
        img.wf(),
        resolve_error(m, img) is None,
    ensures
        ({
            let again = ModuleView {
                sym_table: linked(m.sym_table, img.funcs, m.ptrs.plt_begin, img.funcs.len() as int),
                ptrs: m.ptrs,
            };
            &&& resolve_error(again, img) is None
            &&& img.got_after(again.ptrs, deps, img.relocs.len() as int) == img.got_after(
                m.ptrs,
                deps,
                img.relocs.len() as int,
            )
            &&& plt_bytes(img.func_entries(again.ptrs), again.ptrs.got_begin, 60) == plt_bytes(
                img.func_entries(m.ptrs),
                m.ptrs.got_begin,
                60,
            )
        }),
{
    lemma_linked_shape(m.sym_table, img.funcs, m.ptrs.plt_begin, img.funcs.len() as int);
}

/// What linking does to each record: a record that the function table
/// names gets the addresses of the stubs of one of the functions that name
/// it, and every other record stays as it is.
#[verifier::rlimit(40)]
pub proof fn lemma_linked_records(
    table: Seq<SymbolView>,
    funcs: Seq<u32>,
    plt_begin: u32,
    n: int,
    i: int,
)
    requires
        0 <= n <= funcs.len(),
        0 <= i < table.len(),
        forall|j: int| 0 <= j < funcs.len() ==> #[trigger] funcs[j] < table.len(),
    ensures
        ({
            let t = linked(table, funcs, plt_begin, n);
            if exists|j: int| 0 <= j < n && funcs[j] == i {
                exists|j: int|
                    0 <= j < n && #[trigger] funcs[j] == i && t[i].index1 == manual_entry(
                        plt_begin,
                        j,
                    ) as u32 && t[i].index2 == cross_entry(plt_begin, funcs.len() as int, j) as u32
            } else {
                t[i] == table[i]
            }
        }),
    decreases n,
{
    if n > 0 {
        lemma_linked_records(table, funcs, plt_begin, n - 1, i);
        lemma_linked_shape(table, funcs, plt_begin, n - 1);
        let t = linked(table, funcs, plt_begin, n);
        if funcs[n - 1] == i {
            assert(funcs[n - 1] == i && t[i].index1 == manual_entry(plt_begin, n - 1) as u32);
        } else {
            let before = linked(table, funcs, plt_begin, n - 1);
            assert(t[i] == before[i]);
            if exists|j: int| 0 <= j < n - 1 && funcs[j] == i {
                let j = choose|j: int|
                    0 <= j < n - 1 && #[trigger] funcs[j] == i && before[i].index1 == manual_entry(
                        plt_begin,
                        j,
                    ) as u32 && before[i].index2 == cross_entry(
                        plt_begin,
                        funcs.len() as int,
                        j,
                    ) as u32;
                assert(0 <= j < n && funcs[j] == i);
            } else {
                assert forall|j: int| 0 <= j < n implies funcs[j] != i by {}
            }
        }
    }
}

/// After resolving, the address that `entry_by_name` gives for an exported
/// function has the Thumb bit set and is the start of one of the
/// manual-entry stubs of the module's linkage table. This holds of every
/// function whose name no earlier record of the symbol table bears, in a
/// module whose linkage table starts at a multiple of four.
#[verifier::rlimit(40)]
pub proof fn lemma_entry_in_plt(img: ImageView, m: ModuleView, f: int)
    requires
        img.wf(),
        resolve_error(m, img) is None,
        m.ptrs.plt_begin % 4 == 0,
        0 <= f < img.funcs.len(),
        first_named(m.sym_table, m.sym_table[img.funcs[f] as int].name) == Some(
            img.funcs[f] as int,
        ),
    ensures
        ({
            let after = ModuleView {
                sym_table: linked(m.sym_table, img.funcs, m.ptrs.plt_begin, img.funcs.len() as int),
                ptrs: m.ptrs,
            };
            let name = m.sym_table[img.funcs[f] as int].name;
            &&& after.entry(name) matches Some(e)
            &&& e % 2 == 1
            &&& exists|j: int|
                0 <= j < img.funcs.len() && e == #[trigger] manual_entry(m.ptrs.plt_begin, j)
            &&& m.ptrs.plt_begin < e < m.ptrs.plt_begin + 20 * img.funcs.len()
        }),
{
    let n = img.funcs.len() as int;
    let i = img.funcs[f] as int;
    let table = m.sym_table;
    let t = linked(table, img.funcs, m.ptrs.plt_begin, n);
    let name = table[i].name;
    lemma_linked_shape(table, img.funcs, m.ptrs.plt_begin, n);
    lemma_linked_records(table, img.funcs, m.ptrs.plt_begin, n, i);
    assert(img.funcs[f] == i);
    let j = choose|j: int|
        0 <= j < n && #[trigger] img.funcs[j] == i && t[i].index1 == manual_entry(
            m.ptrs.plt_begin,
            j,
        ) as u32 && t[i].index2 == cross_entry(m.ptrs.plt_begin, n, j) as u32;
    lemma_first_named(table, name);
    lemma_first_named(t, name);
    assert(first_named(t, name) == Some(i)) by {
        assert(t[i].name == name);
        assert forall|x: int| 0 <= x < i implies (#[trigger] t[x]).name != name by {
            assert(t[x].name == table[x].name);
        }
    }
    assert(manual_entry(m.ptrs.plt_begin, j) <= u32::MAX);
    assert(cross_entry(m.ptrs.plt_begin, n, j) <= u32::MAX);
    assert(t[i].index1 == manual_entry(m.ptrs.plt_begin, j));
    assert(t[i].index2 != 0);
}

/// A module without exported functions has an empty linkage table, keeps
/// its symbol table when it is resolved, and has no entry of any name.
pub proof fn lemma_no_functions(img: ImageView, m: ModuleView, name: Seq<char>)
    requires
        img.wf(),
        img.funcs.len() == 0,
        forall|i: int| 0 <= i < m.sym_table.len() ==> (#[trigger] m.sym_table[i]).index2 == 0,
    ensures
        plt_bytes(img.func_entries(m.ptrs), m.ptrs.got_begin, 60).len() == 0,
        linked(m.sym_table, img.funcs, m.ptrs.plt_begin, 0) == m.sym_table,
        m.entry(name) is None,
{
    lemma_plt_len(img.func_entries(m.ptrs), m.ptrs.got_begin, 60);
    lemma_first_named(m.sym_table, name);
}

/// A relocation by which the module refers to a function that it exports
/// fills its slot with the address of the function's code, which is the
/// address that the function's manual-entry stub jumps to. This holds where
/// the addresses fit in 32 bits and the relocations that share the slot
/// write the same value.
pub proof fn lemma_self_reference(
    img: ImageView,
    ptrs: ModulePtr,
    deps: Seq<Seq<SymbolView>>,
    k: int,
    f: int,
)
    requires
        img.wf(),
        img.fits(ptrs),
        0 <= k < img.relocs.len(),
        0 <= f < img.funcs.len(),
        img.relocs[k].symbol == img.funcs[f],
        img.target(k).kind() == KIND_EXPORTED,
        img.target(k).is_function(),
        forall|j: int|
            0 <= j < img.relocs.len() && img.slot(j) == img.slot(k) ==> img.value(ptrs, deps, j)
                == img.value(ptrs, deps, k),
    ensures
        word_at(img.got_after(ptrs, deps, img.relocs.len() as int), img.slot(k) as int)
            == img.func_address(ptrs, f),
{
    let n = img.relocs.len() as int;
    let g = img.slot(k) as int;
    assert(reloc_ok(img.header.n_symbol, img.header.n_reloc, img.text, img.relocs[k]));
    lemma_got_slots(img, ptrs, deps, g, n);
    assert(is_own(img.target(k)));
    assert(own_address(img.target(k), ptrs) <= u32::MAX);
    let e = img.value(ptrs, deps, k).unwrap();
    lemma_slot_written(img, ptrs, deps, g, e, n, k);
}

impl ImageView {
    /// Whether the payload of every symbol of the module itself that a
    /// relocation or the function table refers to lies inside its section:
    /// that of a function inside the code, that of a variable inside the
    /// data.
    pub open spec fn payloads_inside(self) -> bool {
        &&& forall|j: int|
            0 <= j < self.funcs.len() ==> (#[trigger] self.symbols[self.funcs[j] as int]).index1
                <= self.header.l_text
        &&& forall|k: int|
            0 <= k < self.relocs.len() && is_own(#[trigger] self.target(k)) ==> self.target(
                k,
            ).index1 <= if self.target(k).is_function() {
                self.header.l_text
            } else {
                self.header.l_data
            }
    }
}

/// A module that has been laid out resolves, whatever its dependencies,
/// where the payloads of its symbols lie inside their sections: no address
/// leaves the 32-bit range then.
pub proof fn lemma_laid_out_resolves(
    img: ImageView,
    image_base: u32,
    got_begin: u32,
    plt_begin: u32,
    data_begin: u32,
    ranges: Seq<Range>,
)
    requires
        img.wf(),
        img.payloads_inside(),
        layout_error(img, image_base, got_begin, plt_begin, data_begin, ranges) is None,
    ensures
        resolve_error(
            ModuleView {
                sym_table: img.symbols,
                ptrs: placed(img, image_base, got_begin, plt_begin, data_begin),
            },
            img,
        ) is None,
{
    let ptrs = placed(img, image_base, got_begin, plt_begin, data_begin);
    assert(ptrs.text_begin + img.header.l_text <= u32::MAX);
    assert(ptrs.data_begin + img.header.l_data <= u32::MAX);
    assert forall|j: int| 0 <= j < img.funcs.len() implies #[trigger] img.func_address(ptrs, j)
        <= u32::MAX by {
        assert(img.symbols[img.funcs[j] as int].index1 <= img.header.l_text);
    }
    assert forall|k: int| 0 <= k < img.relocs.len() && is_own(#[trigger] img.target(k)) implies
        own_address(img.target(k), ptrs) <= u32::MAX by {}
}

/// A relocation against a variable of the module whose payload lies inside
/// the data fills its slot with an address inside the module's data. This
/// holds where the addresses fit in 32 bits and the relocations that share
/// the slot write the same value.
pub proof fn lemma_data_slot_in_data(
    img: ImageView,
    ptrs: ModulePtr,
    deps: Seq<Seq<SymbolView>>,
    k: int,
)
    requires
        img.wf(),
        img.fits(ptrs),
        0 <= k < img.relocs.len(),
        is_own(img.target(k)),
        !img.target(k).is_function(),
        img.target(k).index1 < img.header.l_data,
        forall|j: int|
            0 <= j < img.relocs.len() && img.slot(j) == img.slot(k) ==> img.value(ptrs, deps, j)
                == img.value(ptrs, deps, k),
    ensures
        ptrs.data_begin <= word_at(
            img.got_after(ptrs, deps, img.relocs.len() as int),
            img.slot(k) as int,
        ) < ptrs.data_begin + img.header.l_data,
{
    let n = img.relocs.len() as int;
    let g = img.slot(k) as int;
    assert(reloc_ok(img.header.n_symbol, img.header.n_reloc, img.text, img.relocs[k]));
    lemma_got_slots(img, ptrs, deps, g, n);
    assert(own_address(img.target(k), ptrs) <= u32::MAX);
    let e = img.value(ptrs, deps, k).unwrap();
    lemma_slot_written(img, ptrs, deps, g, e, n, k);
}

} // verus!
