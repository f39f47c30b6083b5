//! The static part of a module's procedure linkage table.
//!
//! Each exported function gets two stubs. The manual-entry stub serves
//! callers that hold a plain function pointer: it loads the module's static
//! base and jumps. The cross-boundary slot serves other modules: it starts as
//! a supervisor call, which the binding handler later replaces by a chain of
//! cases, one per call site.

use crate::instr::{bx_hw, halfword, svc, svc_hw, wide};
use crate::word::{word_bytes, word_to_bytes};
use vstd::prelude::*;

verus! {

/// Number of bytes of a manual-entry stub.
pub const MANUAL_LEN: usize = 20;

/// Number of bytes of a cross-boundary slot.
pub const CROSS_LEN: usize = 60;

/// Number of bytes of the body a cross-boundary slot starts with: the
/// supervisor call and the two words behind it.
pub const DEFAULT_LEN: usize = 10;

/// `n` zero bytes.
pub open spec fn zeros(n: int) -> Seq<u8> {
    Seq::new(n as nat, |i: int| 0u8)
}

/// The code of a manual-entry stub, before its two literals:
/// `ldr.w r12, [pc, #8]`, `ldr.w r9, [pc, #8]`, `bx r12`, `bx lr`.
pub open spec fn manual_code() -> Seq<u8> {
    wide(0xf8df, 0xc008) + wide(0xf8df, 0x9008) + halfword(bx_hw(12)) + halfword(bx_hw(14))
}

/// The manual-entry stub of the function at `entry` (its address as four
/// little-endian bytes) in the module whose static base is `got`.
pub open spec fn manual_stub(entry: Seq<u8>, got: u32) -> Seq<u8> {
    manual_code() + entry + word_bytes(got)
}

/// The initial cross-boundary slot of that function: `svc #0`, the static
/// base, the entry, and zero bytes up to `block_size`.
pub open spec fn cross_slot(entry: Seq<u8>, got: u32, block_size: int) -> Seq<u8> {
    halfword(svc_hw()) + word_bytes(got) + entry + zeros(block_size - 10)
}

/// The manual-entry stubs of all functions, in order.
pub open spec fn manual_part(entries: Seq<Seq<u8>>, got: u32) -> Seq<u8>
    decreases entries.len(),
{
    if entries.len() == 0 {
        Seq::empty()
    } else {
        manual_part(entries.drop_last(), got) + manual_stub(entries.last(), got)
    }
}

/// The cross-boundary slots of all functions, in order.
pub open spec fn cross_part(entries: Seq<Seq<u8>>, got: u32, block_size: int) -> Seq<u8>
    decreases entries.len(),
{
    if entries.len() == 0 {
        Seq::empty()
    } else {
        cross_part(entries.drop_last(), got, block_size) + cross_slot(
            entries.last(),
            got,
            block_size,
        )
    }
}

/// The whole table: every manual-entry stub, then every cross-boundary slot.
pub open spec fn plt_bytes(entries: Seq<Seq<u8>>, got: u32, block_size: int) -> Seq<u8> {
    manual_part(entries, got) + cross_part(entries, got, block_size)
}

/// The entries of a table as byte strings.
pub open spec fn rows(entries: Seq<[u8; 4]>) -> Seq<Seq<u8>> {
    Seq::new(entries.len(), |i: int| entries[i]@)
}

/// The table of `n` functions takes `n` times 20 plus `block_size` bytes.
pub proof fn lemma_plt_len(entries: Seq<Seq<u8>>, got: u32, block_size: int)
    requires
        block_size >= 10,
        forall|i: int| 0 <= i < entries.len() ==> (#[trigger] entries[i]).len() == 4,
    ensures
        manual_part(entries, got).len() == 20 * entries.len(),
        cross_part(entries, got, block_size).len() == block_size * entries.len(),
        plt_bytes(entries, got, block_size).len() == (20 + block_size) * entries.len(),
    decreases entries.len(),
{
    if entries.len() > 0 {
        lemma_plt_len(entries.drop_last(), got, block_size);
        assert(block_size * (entries.len() - 1) + block_size == block_size * entries.len())
            by (nonlinear_arith);
        assert((20 + block_size) * entries.len() == 20 * entries.len() + block_size * entries.len())
            by (nonlinear_arith);
    } else {
        assert(block_size * 0 == 0);
        assert((20 + block_size) * 0 == 0);
    }
}

/// The template of a manual-entry stub, its two literals still zero.
pub fn no_recov_func_call() -> (r: [u8; 20])
    ensures
        r@ == manual_code() + zeros(8),
{
    let r = [
        0xdf, 0xf8, 0x08, 0xc0,
        0xdf, 0xf8, 0x08, 0x90,
        0x60, 0x47,
        0x70, 0x47,
        0x00, 0x00, 0x00, 0x00,
        0x00, 0x00, 0x00, 0x00,
    ];
    proof {
        assert(0xf8dfu16 & 0xff == 0xdf && 0xf8dfu16 >> 8 == 0xf8 && 0xc008u16 & 0xff == 0x08 && 0xc008u16 >> 8 == 0xc0 && 0x9008u16 & 0xff == 0x08
            && 0x9008u16 >> 8 == 0x90) by (bit_vector);
        assert((0x4700u16 | ((12u8 << 3) as u16)) & 0xff == 0x60 && (0x4700u16 | ((12u8 << 3) as u16)) >> 8 == 0x47 && (0x4700u16 | ((14u8
            << 3) as u16)) & 0xff == 0x70 && (0x4700u16 | ((14u8 << 3) as u16)) >> 8 == 0x47)
            by (bit_vector);
        assert(r@ =~= manual_code() + zeros(8));
    }
    r
}

/// Builds the table for the functions at `func_entries`, each address given
/// as four little-endian bytes, with cross-boundary slots of `block_size`
/// bytes, for the module whose static base is `got_begin`.
pub fn generate_plt(func_entries: &Vec<[u8; 4]>, block_size: usize, got_begin: u32) -> (plt: Vec<u8>)
    requires
        block_size >= DEFAULT_LEN,
    ensures
        plt@ == plt_bytes(rows(func_entries@), got_begin, block_size as int),
{
    let ghost all = rows(func_entries@);
    let cur_obj_base = word_to_bytes(got_begin);
    let template = no_recov_func_call();
    let mut plt: Vec<u8> = Vec::new();
    let mut f: usize = 0;
    while f < func_entries.len()
        invariant
            0 <= f <= func_entries@.len(),
            cur_obj_base@ == word_bytes(got_begin),
            template@ == manual_code() + zeros(8),
            all == rows(func_entries@),
            plt@ == manual_part(all.take(f as int), got_begin),
        decreases func_entries@.len() - f,
    {
        let entry = func_entries[f];
        let ghost before = plt@;
        let mut i: usize = 0;
        while i < 12
            invariant
                0 <= i <= 12,
                template@ == manual_code() + zeros(8),
                plt@ == before + template@.subrange(0, i as int),
            decreases 12 - i,
        {
            plt.push(template[i]);
            i += 1;
            assert(plt@ =~= before + template@.subrange(0, i as int));
        }
        let mut i: usize = 0;
        while i < 4
            invariant
                0 <= i <= 4,
                plt@ == before + manual_code() + entry@.subrange(0, i as int),
            decreases 4 - i,
        {
            plt.push(entry[i]);
            i += 1;
            assert(plt@ =~= before + manual_code() + entry@.subrange(0, i as int));
        }
        let mut i: usize = 0;
        while i < 4
            invariant
                0 <= i <= 4,
                plt@ == before + manual_code() + entry@ + cur_obj_base@.subrange(0, i as int),
            decreases 4 - i,
        {
            plt.push(cur_obj_base[i]);
            i += 1;
            assert(plt@ =~= before + manual_code() + entry@ + cur_obj_base@.subrange(0, i as int));
        }
        proof {
            assert(all.take(f + 1).drop_last() =~= all.take(f as int));
            assert(all.take(f + 1).last() == entry@);
            assert(plt@ =~= before + manual_stub(entry@, got_begin));
        }
        f += 1;
    }
    assert(all.take(f as int) =~= all);
    let ghost manual = plt@;
    let call = svc();
    let mut f: usize = 0;
    while f < func_entries.len()
        invariant
            0 <= f <= func_entries@.len(),
            block_size >= 10,
            cur_obj_base@ == word_bytes(got_begin),
            call@ == halfword(svc_hw()),
            all == rows(func_entries@),
            plt@ == manual + cross_part(all.take(f as int), got_begin, block_size as int),
        decreases func_entries@.len() - f,
    {
        let function_entry = func_entries[f];
        let ghost before = plt@;
        plt.push(call[0]);
        plt.push(call[1]);
        plt.push(cur_obj_base[0]);
        plt.push(cur_obj_base[1]);
        plt.push(cur_obj_base[2]);
        plt.push(cur_obj_base[3]);
        plt.push(function_entry[0]);
        plt.push(function_entry[1]);
        plt.push(function_entry[2]);
        plt.push(function_entry[3]);
        assert(plt@ =~= before + halfword(svc_hw()) + word_bytes(got_begin) + function_entry@);
        let ghost head = plt@;
        let mut i: usize = DEFAULT_LEN;
        while i < block_size
            invariant
                10 <= i <= block_size,
                plt@ == head + zeros(i - 10),
            decreases block_size - i,
        {
            plt.push(0);
            i += 1;
            assert(plt@ =~= head + zeros(i - 10));
        }
        proof {
            assert(all.take(f + 1).drop_last() =~= all.take(f as int));
            assert(all.take(f + 1).last() == function_entry@);
            assert(plt@ =~= before + cross_slot(function_entry@, got_begin, block_size as int));
        }
        f += 1;
    }
    assert(all.take(f as int) =~= all);
    plt
}

} // verus!
