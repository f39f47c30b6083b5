//! Thumb-2 instruction encoding for the handful of mnemonics the linkage
//! stubs are made of.
//!
//! Every encoder is specified against the halfword layout of the
//! instruction; a Thumb instruction stream stores each halfword little-endian.

use vstd::prelude::*;

verus! {

/// The two bytes that store one halfword in the instruction stream.
pub open spec fn halfword(hw: u16) -> Seq<u8> {
    seq![(hw & 0xff) as u8, (hw >> 8) as u8]
}

/// The four bytes that store a 32-bit Thumb instruction: first halfword
/// first, each halfword little-endian.
pub open spec fn wide(hw1: u16, hw2: u16) -> Seq<u8> {
    halfword(hw1) + halfword(hw2)
}

/// First halfword of `movw` (`is_t == false`) or `movt` carrying the
/// immediate `v`: `11110 i 10 T100 imm4`.
pub open spec fn mov_hw1(is_t: bool, v: u16) -> u16 {
    (if is_t { 0xf2c0u16 } else { 0xf240u16 }) | (((v >> 11) & 1) << 10) | (v >> 12)
}

/// Second halfword of `movw`/`movt`: `0 imm3 Rd imm8`.
pub open spec fn mov_hw2(reg: u8, v: u16) -> u16 {
    (((v >> 8) & 7) << 12) | ((reg as u16) << 8) | (v & 0xff)
}

/// The 16-bit immediate that a `movw`/`movt` with these halfwords loads.
pub open spec fn mov_imm16(hw1: u16, hw2: u16) -> u16 {
    ((hw1 & 0xf) << 12) | (((hw1 >> 10) & 1) << 11) | (((hw2 >> 12) & 7) << 8) | (hw2 & 0xff)
}

/// The destination register of a `movw`/`movt` with this second halfword.
pub open spec fn mov_reg(hw2: u16) -> u8 {
    ((hw2 >> 8) & 0xf) as u8
}

/// Whether a first halfword is that of `movt` rather than `movw`.
pub open spec fn mov_is_top(hw1: u16) -> bool {
    (hw1 >> 7) & 1 == 1
}

/// Encodes `movw reg, #v` or, with `is_t`, `movt reg, #v`.
pub fn mov_t_w(is_t: bool, reg: u8, v: u16) -> (r: [u8; 4])
    ensures
        r@ == wide(mov_hw1(is_t, v), mov_hw2(reg, v)),
{
    let imm4 = (v >> 12) as u8;
    let i = (v >> 11 & 1) as u8;
    let imm3 = (v >> 8 & 7) as u8;
    let imm8 = (v & 255) as u8;
    let top: u8 = if is_t { 0xc0 } else { 0x40 };
    let r = [top | imm4, 0xf2 | i << 2, imm8, reg | (imm3 << 4)];
    proof {
        let hw1 = mov_hw1(is_t, v);
        let hw2 = mov_hw2(reg, v);
        assert((hw1 & 0xff) as u8 == top | imm4 && (hw1 >> 8) as u8 == 0xf2u8 | i << 2) by (bit_vector)
            requires
                hw1 == (if is_t { 0xf2c0u16 } else { 0xf240u16 }) | (((v >> 11) & 1) << 10) | (v >> 12),
                top == (if is_t { 0xc0u8 } else { 0x40u8 }),
                imm4 == (v >> 12) as u8,
                i == (v >> 11 & 1) as u8,
        ;
        assert((hw2 & 0xff) as u8 == imm8 && (hw2 >> 8) as u8 == reg | (imm3 << 4)) by (bit_vector)
            requires
                hw2 == (((v >> 8) & 7) << 12) | ((reg as u16) << 8) | (v & 0xff),
                imm3 == (v >> 8 & 7) as u8,
                imm8 == (v & 255) as u8,
        ;
        assert(r@ =~= wide(hw1, hw2));
    }
    r
}

/// Halfword of `blx reg`: `0100 0111 1 Rm 000`.
pub open spec fn blx_hw(reg: u8) -> u16 {
    0x4780u16 | ((reg << 3) as u16)
}

/// Halfword of `bx reg`: `0100 0111 0 Rm 000`.
pub open spec fn bx_hw(reg: u8) -> u16 {
    0x4700u16 | ((reg << 3) as u16)
}

/// The register that a `bx`/`blx` halfword branches to.
pub open spec fn branch_reg(hw: u16) -> u8 {
    ((hw >> 3) & 0xf) as u8
}

/// Halfword of `beq` over a forward distance of `imm` bytes: `1101 0000 imm8`,
/// where `imm8` counts halfwords.
pub open spec fn beq_hw(imm: u8) -> u16 {
    0xd000u16 | ((imm >> 1) as u16)
}

/// Halfword of `cmp lr, r12`.
pub open spec fn compare_lr_r12_hw() -> u16 {
    0x45e6
}

/// Halfword of `svc #0`.
pub open spec fn svc_hw() -> u16 {
    0xdf00
}

/// Halfword of `nop`.
pub open spec fn nop_hw() -> u16 {
    0xbf00
}

/// First halfword of the `b.w` that `b_w` emits for `imm24`:
/// `11110 S imm10`, with `S` bit 24 and `imm10` bits 21..12 of the offset.
pub open spec fn b_w_hw1(imm24: i32) -> u16 {
    0xf000u16 | ((((imm24 >> 24) & 1) as u16) << 10) | (((imm24 >> 12) & 0x3ff) as u16)
}

/// Second halfword of the `b.w` that `b_w` emits for `imm24`:
/// `10 J1 1 J2 imm11`, with `imm11` bits 11..1 of the offset,
/// `J1 = !(bit 23 ^ S)` and `J2 = !(bit 22 ^ S)`.
pub open spec fn b_w_hw2(imm24: i32) -> u16 {
    let s = ((imm24 >> 24) & 1) as u16;
    let j1 = (((imm24 >> 23) & 1) as u16) ^ s ^ 1;
    let j2 = (((imm24 >> 22) & 1) as u16) ^ s ^ 1;
    0x9000u16 | (j1 << 13) | (j2 << 11) | (((imm24 >> 1) & 0x7ff) as u16)
}

/// The byte offset, relative to the address of the instruction plus four,
/// that a processor branches over when it executes a `b.w` with these
/// halfwords: `SignExtend(S : I1 : I2 : imm10 : imm11 : 0)` with
/// `I1 = !(J1 ^ S)` and `I2 = !(J2 ^ S)`.
pub open spec fn b_w_offset(hw1: u16, hw2: u16) -> int {
    let s = (hw1 >> 10) & 1;
    let i1 = ((hw2 >> 13) & 1) ^ s ^ 1;
    let i2 = ((hw2 >> 11) & 1) ^ s ^ 1;
    let low = (((i1 as u32) << 23) | ((i2 as u32) << 22) | (((hw1 & 0x3ff) as u32) << 12) | (((hw2
        & 0x7ff) as u32) << 1)) as int;
    if s == 1 {
        low - 0x100_0000
    } else {
        low
    }
}

/// Encodes `b.w` over `imm24` bytes, counted from the address of the
/// instruction plus four.
pub fn b_w(imm24: i32) -> (r: [u8; 4])
    ensures
        r@ == wide(b_w_hw1(imm24), b_w_hw2(imm24)),
{
    let imm11 = ((imm24 >> 1) & 0x7ff) as u16;
    let imm11_h = (imm11 >> 8) as u8;
    let imm11_l = (imm11 & 0xff) as u8;
    let imm10 = ((imm24 >> 12) & 0x3ff) as u16;
    let imm10_h = (imm10 >> 8) as u8;
    let imm10_l = (imm10 & 0xff) as u8;
    let s = ((imm24 >> 24) & 0x1) as u8;
    let j1 = (((imm24 >> 23) & 0x1) as u8) ^ s ^ 1;
    let j2 = (((imm24 >> 22) & 0x1) as u8) ^ s ^ 1;
    let r = [imm10_l, imm10_h | (s << 2) | (0x1e << 3), imm11_l, imm11_h | (j2 << 3) | (j1 << 5) | 0x90];
    proof {
        let hw1 = b_w_hw1(imm24);
        let hw2 = b_w_hw2(imm24);
        assert((hw1 & 0xff) as u8 == imm10_l && (hw1 >> 8) as u8 == imm10_h | (s << 2) | (0x1eu8
            << 3)) by (bit_vector)
            requires
                hw1 == 0xf000u16 | ((((imm24 >> 24) & 1) as u16) << 10) | (((imm24 >> 12) & 0x3ff) as u16),
                imm10 == ((imm24 >> 12) & 0x3ff) as u16,
                imm10_h == (imm10 >> 8) as u8,
                imm10_l == (imm10 & 0xff) as u8,
                s == ((imm24 >> 24) & 0x1) as u8,
        ;
        assert((hw2 & 0xff) as u8 == imm11_l && (hw2 >> 8) as u8 == imm11_h | (j2 << 3) | (j1 << 5)
            | 0x90u8) by (bit_vector)
            requires
                hw2 == 0x9000u16 | (((((imm24 >> 23) & 1) as u16) ^ (((imm24 >> 24) & 1) as u16) ^ 1)
                    << 13) | (((((imm24 >> 22) & 1) as u16) ^ (((imm24 >> 24) & 1) as u16) ^ 1) << 11)
                    | (((imm24 >> 1) & 0x7ff) as u16),
                imm11 == ((imm24 >> 1) & 0x7ff) as u16,
                imm11_h == (imm11 >> 8) as u8,
                imm11_l == (imm11 & 0xff) as u8,
                s == ((imm24 >> 24) & 0x1) as u8,
                j1 == (((imm24 >> 23) & 0x1) as u8) ^ s ^ 1,
                j2 == (((imm24 >> 22) & 0x1) as u8) ^ s ^ 1,
        ;
        assert(r@ =~= wide(hw1, hw2));
    }
    r
}

/// The bytes of `movw reg, #lo16(x)` followed by `movt reg, #hi16(x)`.
pub open spec fn load_const(reg: u8, x: u32) -> Seq<u8> {
    wide(mov_hw1(false, (x & 0xffff) as u16), mov_hw2(reg, (x & 0xffff) as u16)) + wide(
        mov_hw1(true, (x >> 16) as u16),
        mov_hw2(reg, (x >> 16) as u16),
    )
}

/// Encodes the pair `movw`/`movt` that loads the 32-bit constant `imm32`
/// into `reg`.
pub fn ldr(reg: u8, imm32: u32) -> (r: [u8; 8])
    ensures
        r@ == load_const(reg, imm32),
{
    let low = (imm32 & 0xffff) as u16;
    let high = ((imm32 >> 16) & 0xffff) as u16;
    assert(((imm32 >> 16) & 0xffff) as u16 == (imm32 >> 16) as u16) by (bit_vector);
    let w = mov_t_w(false, reg, low);
    let t = mov_t_w(true, reg, high);
    let r = [w[0], w[1], w[2], w[3], t[0], t[1], t[2], t[3]];
    assert(r@ =~= w@ + t@);
    r
}

/// Encodes `blx reg`.
pub fn blx(reg: u8) -> (r: [u8; 2])
    ensures
        r@ == halfword(blx_hw(reg)),
{
    let r = [0x80 | (reg << 3), 0x47];
    proof {
        let hw = blx_hw(reg);
        assert((hw & 0xff) as u8 == 0x80u8 | (reg << 3) && (hw >> 8) as u8 == 0x47u8) by (bit_vector)
            requires
                hw == 0x4780u16 | ((reg << 3) as u16),
        ;
        assert(r@ =~= halfword(hw));
    }
    r
}

/// Encodes `bx reg`.
pub fn bx(reg: u8) -> (r: [u8; 2])
    ensures
        r@ == halfword(bx_hw(reg)),
{
    let r = [reg << 3, 0x47];
    proof {
        let hw = bx_hw(reg);
        assert((hw & 0xff) as u8 == reg << 3 && (hw >> 8) as u8 == 0x47u8) by (bit_vector)
            requires
                hw == 0x4700u16 | ((reg << 3) as u16),
        ;
        assert(r@ =~= halfword(hw));
    }
    r
}

/// Encodes `cmp lr, r12`.
pub fn cmp_lr_r12() -> (r: [u8; 2])
    ensures
        r@ == halfword(compare_lr_r12_hw()),
{
    let r = [0xe6, 0x45];
    proof {
        assert((0x45e6u16 & 0xff) == 0xe6 && (0x45e6u16 >> 8) == 0x45) by (bit_vector);
        assert(r@ =~= halfword(0x45e6u16));
    }
    r
}

/// Encodes `beq` over `imm` bytes, counted from the address of the
/// instruction plus four.
pub fn beq(imm: u8) -> (r: [u8; 2])
    ensures
        r@ == halfword(beq_hw(imm)),
{
    let r = [imm >> 1, 0xd0];
    proof {
        let hw = beq_hw(imm);
        assert((hw & 0xff) as u8 == imm >> 1 && (hw >> 8) as u8 == 0xd0u8) by (bit_vector)
            requires
                hw == 0xd000u16 | ((imm >> 1) as u16),
        ;
        assert(r@ =~= halfword(hw));
    }
    r
}

/// Encodes `svc #0`.
pub fn svc() -> (r: [u8; 2])
    ensures
        r@ == halfword(svc_hw()),
{
    let r = [0x00, 0xdf];
    proof {
        assert((0xdf00u16 & 0xff) == 0 && (0xdf00u16 >> 8) == 0xdf) by (bit_vector);
        assert(r@ =~= halfword(0xdf00u16));
    }
    r
}

/// Encodes `nop`.
pub fn nop() -> (r: [u8; 2])
    ensures
        r@ == halfword(nop_hw()),
{
    let r = [0x00, 0xbf];
    proof {
        assert((0xbf00u16 & 0xff) == 0 && (0xbf00u16 >> 8) == 0xbf) by (bit_vector);
        assert(r@ =~= halfword(0xbf00u16));
    }
    r
}

/// The halfword that the two bytes at `at` store.
pub open spec fn halfword_at(b: Seq<u8>, at: int) -> u16 {
    (b[at] as u16) | ((b[at + 1] as u16) << 8)
}

/// The constant that a `movw`/`movt` pair stored at `at` loads.
pub open spec fn loaded_const(b: Seq<u8>, at: int) -> u32 {
    ((mov_imm16(halfword_at(b, at + 4), halfword_at(b, at + 6)) as u32) << 16) | (mov_imm16(
        halfword_at(b, at),
        halfword_at(b, at + 2),
    ) as u32)
}

/// The register that a `movw`/`movt` pair stored at `at` loads.
pub open spec fn loaded_reg(b: Seq<u8>, at: int) -> u8 {
    mov_reg(halfword_at(b, at + 2))
}

/// The two bytes of a halfword give the halfword back.
pub proof fn lemma_halfword(hw: u16)
    ensures
        halfword(hw).len() == 2,
        halfword_at(halfword(hw), 0) == hw,
{
    assert((((hw & 0xff) as u8) as u16) | ((((hw >> 8) as u8) as u16) << 8) == hw) by (bit_vector);
}

/// A `movw` or `movt` of one of the sixteen registers gives back its
/// immediate, its register and which of the two it is.
pub proof fn lemma_mov_decodes(is_t: bool, reg: u8, v: u16)
    requires
        reg < 16,
    ensures
        mov_imm16(mov_hw1(is_t, v), mov_hw2(reg, v)) == v,
        mov_reg(mov_hw2(reg, v)) == reg,
        mov_is_top(mov_hw1(is_t, v)) == is_t,
{
    let hw1 = mov_hw1(is_t, v);
    let hw2 = mov_hw2(reg, v);
    assert(((hw1 & 0xf) << 12) | (((hw1 >> 10) & 1) << 11) | (((hw2 >> 12) & 7) << 8) | (hw2 & 0xff)
        == v && ((hw2 >> 8) & 0xf) as u8 == reg && (((hw1 >> 7) & 1 == 1) == is_t)) by (bit_vector)
        requires
            reg < 16,
            hw1 == (if is_t { 0xf2c0u16 } else { 0xf240u16 }) | (((v >> 11) & 1) << 10) | (v >> 12),
            hw2 == (((v >> 8) & 7) << 12) | ((reg as u16) << 8) | (v & 0xff),
    ;
}

/// The pair that `ldr` emits loads the constant it was given into the
/// register it was given.
pub proof fn lemma_load_const_decodes(reg: u8, x: u32)
    requires
        reg < 16,
    ensures
        load_const(reg, x).len() == 8,
        loaded_const(load_const(reg, x), 0) == x,
        loaded_reg(load_const(reg, x), 0) == reg,
        loaded_reg(load_const(reg, x), 4) == reg,
{
    let low = (x & 0xffff) as u16;
    let high = (x >> 16) as u16;
    let b = load_const(reg, x);
    lemma_halfword(mov_hw1(false, low));
    lemma_halfword(mov_hw2(reg, low));
    lemma_halfword(mov_hw1(true, high));
    lemma_halfword(mov_hw2(reg, high));
    lemma_mov_decodes(false, reg, low);
    lemma_mov_decodes(true, reg, high);
    assert(halfword_at(b, 0) == halfword_at(halfword(mov_hw1(false, low)), 0));
    assert(halfword_at(b, 2) == halfword_at(halfword(mov_hw2(reg, low)), 0));
    assert(halfword_at(b, 4) == halfword_at(halfword(mov_hw1(true, high)), 0));
    assert(halfword_at(b, 6) == halfword_at(halfword(mov_hw2(reg, high)), 0));
    assert((((x >> 16) as u16) as u32) << 16 | (((x & 0xffff) as u16) as u32) == x) by (bit_vector);
}

/// Over every even distance that a `b.w` reaches, sixteen mebibytes either
/// way, the `b.w` that `b_w` emits branches over exactly that distance.
pub proof fn lemma_b_w_decodes(imm24: i32)
    requires
        -0x100_0000 <= imm24 < 0x100_0000,
        imm24 % 2 == 0,
    ensures
        b_w_offset(b_w_hw1(imm24), b_w_hw2(imm24)) == imm24,
{
    let hw1 = b_w_hw1(imm24);
    let hw2 = b_w_hw2(imm24);
    let s = (hw1 >> 10) & 1;
    let i1 = ((hw2 >> 13) & 1) ^ s ^ 1;
    let i2 = ((hw2 >> 11) & 1) ^ s ^ 1;
    let low = ((i1 as u32) << 23) | ((i2 as u32) << 22) | (((hw1 & 0x3ff) as u32) << 12) | (((hw2
        & 0x7ff) as u32) << 1);
    assert((s == 1 <==> imm24 < 0) && (imm24 >= 0 ==> low == imm24 as u32) && (imm24 < 0 ==> low
        == (imm24 + 0x100_0000) as u32)) by (bit_vector)
        requires
            -0x100_0000 <= imm24 < 0x100_0000,
            imm24 % 2 == 0,
            hw1 == 0xf000u16 | ((((imm24 >> 24) & 1) as u16) << 10) | (((imm24 >> 12) & 0x3ff) as u16),
            hw2 == 0x9000u16 | (((((imm24 >> 23) & 1) as u16) ^ (((imm24 >> 24) & 1) as u16) ^ 1)
                << 13) | (((((imm24 >> 22) & 1) as u16) ^ (((imm24 >> 24) & 1) as u16) ^ 1) << 11)
                | (((imm24 >> 1) & 0x7ff) as u16),
            s == (hw1 >> 10) & 1,
            i1 == ((hw2 >> 13) & 1) ^ s ^ 1,
            i2 == ((hw2 >> 11) & 1) ^ s ^ 1,
            low == ((i1 as u32) << 23) | ((i2 as u32) << 22) | (((hw1 & 0x3ff) as u32) << 12) | (((
            hw2 & 0x7ff) as u32) << 1),
    ;
}

} // verus!
