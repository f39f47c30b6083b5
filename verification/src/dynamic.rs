//! The dynamic part of the linkage table: binding a call site on first use.
//!
//! A cross-boundary slot starts as a supervisor call. When a call from
//! another module traps there, the handler turns the slot into a chain of
//! cases: it moves the trapping body elsewhere and puts in its place a case
//! that recognises this caller by its return address, calls the function
//! under the callee's static base, and returns under the caller's. Any other
//! caller branches on to the moved body and traps in turn.

use crate::instr::{
    b_w, b_w_hw1, b_w_hw2, b_w_offset, beq, beq_hw, blx, blx_hw, bx, bx_hw, cmp_lr_r12,
    compare_lr_r12_hw, halfword, halfword_at, ldr, lemma_b_w_decodes, lemma_halfword,
    lemma_load_const_decodes, load_const, loaded_const, nop, nop_hw, svc_hw, wide,
};
use crate::plt::cross_slot;
use crate::word::{lemma_word_roundtrip, word_bytes};
use crate::registry::{base_for, Range, Registry};
use crate::word::{read_word, word_at};
use vstd::prelude::*;
use vstd::slice::slice_subrange;

verus! {

/// Number of bytes of a case, and of the region that receives the moved body.
pub const CASE_LEN: usize = 58;

/// Offset of the long branch inside a case.
pub const BRANCH_AT: usize = 16;

/// Offset of the body inside a case.
pub const BODY_AT: usize = 20;

/// The test a case starts with: load the return address it stands for,
/// compare it with the caller's, and skip the long branch where they agree.
pub open spec fn case_test(lr: u32) -> Seq<u8> {
    halfword(nop_hw()) + halfword(nop_hw()) + load_const(12, lr) + halfword(compare_lr_r12_hw())
        + halfword(beq_hw(2))
}

/// The body of a case: call the function at `func_entry` under the static
/// base `def_static_base`, then return to `lr` under `call_static_base`.
pub open spec fn case_call(def_static_base: u32, func_entry: u32, call_static_base: u32, lr: u32) -> Seq<
    u8,
> {
    load_const(9, def_static_base) + load_const(12, func_entry) + halfword(blx_hw(12))
        + load_const(9, call_static_base) + load_const(12, lr) + halfword(bx_hw(12)) + halfword(
        nop_hw(),
    )
}

/// A whole case: the test, the long branch over `dist` bytes taken by every
/// other caller, and the body.
pub open spec fn case_block(
    lr: u32,
    def_static_base: u32,
    func_entry: u32,
    call_static_base: u32,
    dist: i32,
) -> Seq<u8> {
    case_test(lr) + wide(b_w_hw1(dist), b_w_hw2(dist)) + case_call(
        def_static_base,
        func_entry,
        call_static_base,
        lr,
    )
}

/// The distance that the long branch of a case written at `old_default`
/// covers to reach `new_default`: the difference of the target and the
/// branch's address plus four, as a 32-bit two's complement number.
pub open spec fn branch_distance(old_default: u32, new_default: u32) -> i32 {
    let d = new_default - old_default - 20;
    if d >= 0x8000_0000 {
        (d - 0x1_0000_0000) as i32
    } else if d < -0x8000_0000 {
        (d + 0x1_0000_0000) as i32
    } else {
        d as i32
    }
}

/// Whether the long branch of a case at `from` reaches a block at `to`:
/// both lie at even addresses, and the branch has to cover less than
/// sixteen mebibytes either way.
pub open spec fn in_reach(from: u32, to: u32) -> bool {
    &&& from % 2 == 0
    &&& to % 2 == 0
    &&& -0x100_0000 <= to - from - 20 < 0x100_0000
}

/// Computes `in_reach`.
pub fn reaches(from: u32, to: u32) -> (r: bool)
    ensures
        r == in_reach(from, to),
{
    let d: i64 = to as i64 - from as i64 - 20;
    from % 2 == 0 && to % 2 == 0 && -0x100_0000 <= d && d < 0x100_0000
}

/// Computes `branch_distance`.
pub fn distance(old_default: u32, new_default: u32) -> (d: i32)
    ensures
        d == branch_distance(old_default, new_default),
{
    let d: i64 = new_default as i64 - old_default as i64 - 20;
    if d >= 0x8000_0000 {
        (d - 0x1_0000_0000) as i32
    } else if d < -0x8000_0000 {
        (d + 0x1_0000_0000) as i32
    } else {
        d as i32
    }
}

/// What the handler asks to be written, in this order: first `moved` at
/// `new_default`, then `case` at `old_default`.
#[derive(Debug)]
pub struct Rebind {
    /// Where the trapping body lies, and the case will.
    pub old_default: u32,
    /// Where the trapping body goes.
    pub new_default: u32,
    /// The trapping body, unchanged.
    pub moved: Vec<u8>,
    /// The case for the caller that trapped.
    pub case: Vec<u8>,
}

/// The static base in a trapping body: the word behind the supervisor call.
pub open spec fn body_static_base(default_block: Seq<u8>) -> u32 {
    word_at(default_block, 2)
}

/// The function entry in a trapping body: the second word behind the
/// supervisor call.
pub open spec fn body_func_entry(default_block: Seq<u8>) -> u32 {
    word_at(default_block, 6)
}

/// The bytes of the trapping body that move: all that are given, up to the
/// size of a case.
pub open spec fn moved_bytes(default_block: Seq<u8>) -> Seq<u8> {
    if default_block.len() <= 58 {
        default_block
    } else {
        default_block.take(58)
    }
}

/// The case that binds the caller returning to `lr` into the body
/// `default_block` lying at `pc`, which moves to `next_default`.
pub open spec fn bound_case(
    lr: u32,
    pc: u32,
    default_block: Seq<u8>,
    ranges: Seq<Range>,
    next_default: u32,
) -> Seq<u8> {
    case_block(
        lr,
        body_static_base(default_block),
        body_func_entry(default_block),
        base_for(ranges, lr),
        branch_distance(pc, next_default),
    )
}

fn append2(out: &mut Vec<u8>, b: [u8; 2])
    ensures
        final(out)@ == old(out)@ + b@,
{
    out.push(b[0]);
    out.push(b[1]);
    assert(out@ =~= old(out)@ + b@);
}

fn append4(out: &mut Vec<u8>, b: [u8; 4])
    ensures
        final(out)@ == old(out)@ + b@,
{
    out.push(b[0]);
    out.push(b[1]);
    out.push(b[2]);
    out.push(b[3]);
    assert(out@ =~= old(out)@ + b@);
}

fn append8(out: &mut Vec<u8>, b: [u8; 8])
    ensures
        final(out)@ == old(out)@ + b@,
{
    out.push(b[0]);
    out.push(b[1]);
    out.push(b[2]);
    out.push(b[3]);
    out.push(b[4]);
    out.push(b[5]);
    out.push(b[6]);
    out.push(b[7]);
    assert(out@ =~= old(out)@ + b@);
}

/// Assembles the case for the caller returning to `lr`.
pub fn build_case(
    lr: u32,
    def_static_base: u32,
    func_entry: u32,
    call_static_base: u32,
    dist: i32,
) -> (case: Vec<u8>)
    ensures
        case@ == case_block(lr, def_static_base, func_entry, call_static_base, dist),
{
    let mut case: Vec<u8> = Vec::new();
    append2(&mut case, nop());
    append2(&mut case, nop());
    append8(&mut case, ldr(12, lr));
    append2(&mut case, cmp_lr_r12());
    append2(&mut case, beq(2));
    assert(case@ =~= case_test(lr));
    let mut case_body: Vec<u8> = Vec::new();
    append8(&mut case_body, ldr(9, def_static_base));
    append8(&mut case_body, ldr(12, func_entry));
    append2(&mut case_body, blx(12));
    append8(&mut case_body, ldr(9, call_static_base));
    append8(&mut case_body, ldr(12, lr));
    append2(&mut case_body, bx(12));
    append2(&mut case_body, nop());
    assert(case_body@ =~= case_call(def_static_base, func_entry, call_static_base, lr));
    append4(&mut case, b_w(dist));
    case.append(&mut case_body);
    case
}

/// Handles the supervisor call of a cross-boundary slot.
///
/// `sp` is the exception frame: its word 5 is the caller's return address,
/// its word 6 the address of the supervisor call that trapped, where the
/// trapping body `default_block` lies. `next_default` is the region
/// allocated for the moved body. Nothing is bound where the frame has fewer
/// than seven words or the body fewer than ten bytes, nor where the long
/// branch of a case in the place of the body could not reach the region.
pub fn svcall_handler(sp: &[u32], default_block: &[u8], registry: &Registry, next_default: u32) -> (r:
    Option<Rebind>)
    ensures
        match r {
            Some(b) => {
                &&& sp@.len() >= 7
                &&& default_block@.len() >= 10
                &&& in_reach(sp@[6], next_default)
                &&& b.old_default == sp@[6]
                &&& b.new_default == next_default
                &&& b.moved@ == moved_bytes(default_block@)
                &&& b.case@ == bound_case(
                    sp@[5],
                    sp@[6],
                    default_block@,
                    registry@,
                    next_default,
                )
            },
            None => sp@.len() < 7 || default_block@.len() < 10 || !in_reach(sp@[6], next_default),
        },
{
    if sp.len() < 7 || default_block.len() < 10 {
        return None;
    }
    let lr = sp[5];
    let pc = sp[6];
    if !reaches(pc, next_default) {
        return None;
    }
    let def_static_base = read_word(default_block, 2);
    let func_entry = read_word(default_block, 6);
    let call_static_base = registry.base_of(lr);
    let dist = distance(pc, next_default);
    let case = build_case(lr, def_static_base, func_entry, call_static_base, dist);
    let keep = if default_block.len() <= CASE_LEN {
        default_block.len()
    } else {
        CASE_LEN
    };
    let moved = vstd::slice::slice_to_vec(slice_subrange(default_block, 0, keep));
    assert(moved@ =~= moved_bytes(default_block@));
    Some(Rebind { old_default: pc, new_default: next_default, moved, case })
}

/// How a processor that enters a block of the chain goes on.
pub enum Dispatch {
    /// The block is a trapping body: the handler is called.
    Trap,
    /// The block is the case of this caller: the function at `entry` runs
    /// under `static_base`, and control returns to `return_to` under
    /// `restore_base`.
    Call { static_base: u32, entry: u32, restore_base: u32, return_to: u32 },
    /// The block is the case of another caller: control goes on at `at`.
    Next { at: int },
}

/// How a processor that enters the block `block` at address `at` with the
/// return address `lr` goes on: a block that starts with a supervisor call
/// traps; any other is a case, which compares the constant it loads first
/// with `lr` and either runs its body or takes its long branch.
pub open spec fn dispatch(block: Seq<u8>, at: u32, lr: u32) -> Dispatch {
    if halfword_at(block, 0) == svc_hw() {
        Dispatch::Trap
    } else if loaded_const(block, 4) == lr {
        Dispatch::Call {
            static_base: loaded_const(block, 20),
            entry: loaded_const(block, 28),
            restore_base: loaded_const(block, 38),
            return_to: loaded_const(block, 46),
        }
    } else {
        Dispatch::Next { at: at + 20 + b_w_offset(halfword_at(block, 16), halfword_at(block, 18)) }
    }
}

/// The constant that a part of a block loads is the constant that the part
/// alone loads.
proof fn lemma_const_inside(before: Seq<u8>, part: Seq<u8>, after: Seq<u8>)
    requires
        part.len() == 8,
    ensures
        loaded_const(before + part + after, before.len() as int) == loaded_const(part, 0),
{
    let b = before + part + after;
    let n = before.len() as int;
    assert(b[n] == part[0] && b[n + 1] == part[1] && b[n + 2] == part[2] && b[n + 3] == part[3]
        && b[n + 4] == part[4] && b[n + 5] == part[5] && b[n + 6] == part[6] && b[n + 7]
        == part[7]);
}

/// The five constants of a case, its first halfword and its long branch.
#[verifier::rlimit(40)]
proof fn lemma_case_parts(
    lr: u32,
    def_static_base: u32,
    func_entry: u32,
    call_static_base: u32,
    dist: i32,
)
    ensures
        ({
            let c = case_block(lr, def_static_base, func_entry, call_static_base, dist);
            &&& c.len() == 58
            &&& halfword_at(c, 0) == nop_hw()
            &&& loaded_const(c, 4) == lr
            &&& halfword_at(c, 16) == b_w_hw1(dist)
            &&& halfword_at(c, 18) == b_w_hw2(dist)
            &&& loaded_const(c, 20) == def_static_base
            &&& loaded_const(c, 28) == func_entry
            &&& loaded_const(c, 38) == call_static_base
            &&& loaded_const(c, 46) == lr
        }),
{
    let c = case_block(lr, def_static_base, func_entry, call_static_base, dist);
    let n = halfword(nop_hw());
    lemma_halfword(nop_hw());
    lemma_halfword(compare_lr_r12_hw());
    lemma_halfword(beq_hw(2));
    lemma_halfword(blx_hw(12));
    lemma_halfword(bx_hw(12));
    lemma_halfword(b_w_hw1(dist));
    lemma_halfword(b_w_hw2(dist));
    lemma_load_const_decodes(12, lr);
    lemma_load_const_decodes(9, def_static_base);
    lemma_load_const_decodes(12, func_entry);
    lemma_load_const_decodes(9, call_static_base);
    let test = case_test(lr);
    let branch = wide(b_w_hw1(dist), b_w_hw2(dist));
    let call = case_call(def_static_base, func_entry, call_static_base, lr);
    assert(test.len() == 16 && branch.len() == 4 && call.len() == 38);
    assert(halfword_at(c, 0) == halfword_at(n, 0));
    assert(halfword_at(c, 16) == halfword_at(halfword(b_w_hw1(dist)), 0));
    assert(halfword_at(c, 18) == halfword_at(halfword(b_w_hw2(dist)), 0));
    let rest = branch + call;
    assert(c =~= (n + n) + load_const(12, lr) + (halfword(compare_lr_r12_hw()) + halfword(
        beq_hw(2),
    ) + rest));
    lemma_const_inside(
        n + n,
        load_const(12, lr),
        halfword(compare_lr_r12_hw()) + halfword(beq_hw(2)) + rest,
    );
    let head = test + branch;
    let a = load_const(9, def_static_base);
    let b = load_const(12, func_entry);
    let x = halfword(blx_hw(12));
    let d = load_const(9, call_static_base);
    let e = load_const(12, lr);
    let tail = halfword(bx_hw(12)) + n;
    assert(c =~= head + a + (b + x + d + e + tail));
    lemma_const_inside(head, a, b + x + d + e + tail);
    assert(c =~= (head + a) + b + (x + d + e + tail));
    lemma_const_inside(head + a, b, x + d + e + tail);
    assert(c =~= (head + a + b + x) + d + (e + tail));
    lemma_const_inside(head + a + b + x, d, e + tail);
    assert(c =~= (head + a + b + x + d) + e + tail);
    lemma_const_inside(head + a + b + x + d, e, tail);
}

/// A case is 58 bytes long.
pub proof fn lemma_case_len(
    lr: u32,
    def_static_base: u32,
    func_entry: u32,
    call_static_base: u32,
    dist: i32,
)
    ensures
        case_block(lr, def_static_base, func_entry, call_static_base, dist).len() == 58,
{
    lemma_case_parts(lr, def_static_base, func_entry, call_static_base, dist);
}

/// Entered with the return address it stands for, a case runs its body.
pub proof fn lemma_case_runs(
    lr: u32,
    def_static_base: u32,
    func_entry: u32,
    call_static_base: u32,
    dist: i32,
    at: u32,
)
    ensures
        dispatch(case_block(lr, def_static_base, func_entry, call_static_base, dist), at, lr)
            == (Dispatch::Call {
            static_base: def_static_base,
            entry: func_entry,
            restore_base: call_static_base,
            return_to: lr,
        }),
{
    lemma_case_parts(lr, def_static_base, func_entry, call_static_base, dist);
    assert(nop_hw() != svc_hw());
}

/// Entered with another return address, a case branches on to the block
/// that its long branch was made for, where that block is within reach.
#[verifier::rlimit(40)]
pub proof fn lemma_case_goes_on(
    lr: u32,
    def_static_base: u32,
    func_entry: u32,
    call_static_base: u32,
    at: u32,
    next: u32,
    other: u32,
)
    requires
        other != lr,
        in_reach(at, next),
    ensures
        dispatch(
            case_block(
                lr,
                def_static_base,
                func_entry,
                call_static_base,
                branch_distance(at, next),
            ),
            at,
            other,
        ) == (Dispatch::Next { at: next as int }),
{
    let dist = branch_distance(at, next);
    let c = case_block(lr, def_static_base, func_entry, call_static_base, dist);
    lemma_case_parts(lr, def_static_base, func_entry, call_static_base, dist);
    lemma_distance_in_reach(at, next);
    lemma_b_w_decodes(dist);
    assert(halfword_at(c, 0) != svc_hw());
    assert(loaded_const(c, 4) != other);
    assert(b_w_offset(halfword_at(c, 16), halfword_at(c, 18)) == dist);
    assert(at + 20 + dist == next);
}

/// The caller that the handler has bound does not trap again: entering the
/// slot with its return address runs the body of its case, which calls the
/// function under the static base found in the trapping body and returns
/// to the caller under the static base that the registry has for it.
pub proof fn lemma_bound_caller_runs(
    lr: u32,
    pc: u32,
    default_block: Seq<u8>,
    ranges: Seq<Range>,
    next_default: u32,
)
    ensures
        dispatch(bound_case(lr, pc, default_block, ranges, next_default), pc, lr)
            == (Dispatch::Call {
            static_base: body_static_base(default_block),
            entry: body_func_entry(default_block),
            restore_base: base_for(ranges, lr),
            return_to: lr,
        }),
{
    lemma_case_parts(
        lr,
        body_static_base(default_block),
        body_func_entry(default_block),
        base_for(ranges, lr),
        branch_distance(pc, next_default),
    );
    assert(nop_hw() != svc_hw());
}

/// The long branch of the case that the handler installs goes to the moved
/// body: to the region that the handler was given for it.
pub proof fn lemma_branch_reaches(
    lr: u32,
    pc: u32,
    default_block: Seq<u8>,
    ranges: Seq<Range>,
    next_default: u32,
)
    requires
        in_reach(pc, next_default),
    ensures
        ({
            let c = bound_case(lr, pc, default_block, ranges, next_default);
            pc + 16 + 4 + b_w_offset(halfword_at(c, 16), halfword_at(c, 18)) == next_default
        }),
{
    let dist = branch_distance(pc, next_default);
    lemma_case_parts(
        lr,
        body_static_base(default_block),
        body_func_entry(default_block),
        base_for(ranges, lr),
        dist,
    );
    lemma_distance_in_reach(pc, next_default);
    lemma_b_w_decodes(dist);
}

/// Any other caller goes on to the moved body, which the handler has seen
/// to be within reach.
#[verifier::rlimit(40)]
pub proof fn lemma_other_caller_goes_on(
    lr: u32,
    pc: u32,
    default_block: Seq<u8>,
    ranges: Seq<Range>,
    next_default: u32,
    other: u32,
)
    requires
        other != lr,
        in_reach(pc, next_default),
    ensures
        dispatch(bound_case(lr, pc, default_block, ranges, next_default), pc, other)
            == (Dispatch::Next { at: next_default as int }),
{
    let dist = branch_distance(pc, next_default);
    let c = bound_case(lr, pc, default_block, ranges, next_default);
    lemma_case_parts(
        lr,
        body_static_base(default_block),
        body_func_entry(default_block),
        base_for(ranges, lr),
        dist,
    );
    lemma_distance_in_reach(pc, next_default);
    lemma_b_w_decodes(dist);
    assert(halfword_at(c, 0) != svc_hw());
    assert(loaded_const(c, 4) != other);
    assert(b_w_offset(halfword_at(c, 16), halfword_at(c, 18)) == dist);
    assert(pc + 20 + dist == next_default);
}

/// Within reach, the distance is the plain difference, and even.
proof fn lemma_distance_in_reach(pc: u32, next_default: u32)
    requires
        in_reach(pc, next_default),
    ensures
        branch_distance(pc, next_default) == next_default - pc - 20,
        branch_distance(pc, next_default) % 2 == 0,
{
}

/// The slot that the loader writes for a function traps, and holds the
/// static base of the function's module and the function's entry where the
/// handler looks for them.
#[verifier::rlimit(40)]
pub proof fn lemma_fresh_slot(entry: u32, got: u32, block_size: int, at: u32, lr: u32)
    requires
        block_size >= 10,
    ensures
        dispatch(cross_slot(word_bytes(entry), got, block_size), at, lr) == Dispatch::Trap,
        body_static_base(cross_slot(word_bytes(entry), got, block_size)) == got,
        body_func_entry(cross_slot(word_bytes(entry), got, block_size)) == entry,
{
    let slot = cross_slot(word_bytes(entry), got, block_size);
    lemma_halfword(svc_hw());
    lemma_word_roundtrip(got);
    lemma_word_roundtrip(entry);
    assert(halfword_at(slot, 0) == halfword_at(halfword(svc_hw()), 0));
    let g = word_bytes(got);
    let e = word_bytes(entry);
    assert(slot[2] == g[0] && slot[3] == g[1] && slot[4] == g[2] && slot[5] == g[3]);
    assert(slot[6] == e[0] && slot[7] == e[1] && slot[8] == e[2] && slot[9] == e[3]);
}

/// The moved body is the trapping body in its first ten bytes, so that it
/// traps in its new place and holds the same two words.
pub proof fn lemma_moved_body(default_block: Seq<u8>, at: u32, lr: u32)
    requires
        default_block.len() >= 10,
    ensures
        dispatch(moved_bytes(default_block), at, lr) is Trap <==> dispatch(default_block, at, lr)
            is Trap,
        body_static_base(moved_bytes(default_block)) == body_static_base(default_block),
        body_func_entry(moved_bytes(default_block)) == body_func_entry(default_block),
{
}

} // verus!
