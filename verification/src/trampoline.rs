//! The assembly source of the trampolines that keep the static base intact
//! across calls into a module.
//!
//! Every public function gets an entry that saves the caller's static base
//! and return address, leaves room for the function's address, and branches
//! to a tail common to the object. The tail leaves room for the module's
//! static base, calls the function and restores what the entry saved. The
//! labels carry a prefix derived from the MD5 digest of the name, which keeps
//! them from clashing with the symbols of the object.

use crate::elf::name_views;
use vstd::prelude::*;
use vstd::string::{StringExecFns, StringSliceAdditionalSpecFns};
use vstd::utf8::encode_utf8;

verus! {

/// The MD5 digest of a byte string, sixteen bytes.
pub uninterp spec fn md5_of(data: Seq<u8>) -> Seq<u8>;

/// Computes an MD5 digest with `md5::compute`: the result is the digest of
/// exactly the bytes given.
#[verifier::external_body]
fn md5_digest(data: &[u8]) -> (digest: [u8; 16])
    ensures
        digest@ == md5_of(data@),
{
    md5::compute(data).0
}

/// The lower-case hexadecimal digit of a number below sixteen.
pub open spec fn hex_char(n: u8) -> char {
    if n < 10 {
        (48 + n) as char
    } else {
        (87 + n) as char
    }
}

/// The two lower-case hexadecimal digits of each of the first `n` bytes.
pub open spec fn hex(bytes: Seq<u8>, n: int) -> Seq<char>
    decreases n,
{
    if n <= 0 {
        Seq::empty()
    } else {
        hex(bytes, n - 1).push(hex_char(bytes[n - 1] / 16)).push(hex_char(bytes[n - 1] % 16))
    }
}

/// The label of the trampoline of `func`, given the digest of its name: two
/// underscores, the first eight hexadecimal digits of the digest, two
/// underscores, and the name.
pub open spec fn entry_name(digest: Seq<u8>, func: Seq<char>) -> Seq<char> {
    "__"@ + hex(digest, 4) + "__"@ + func
}

fn hex_digit(n: u8) -> (c: char)
    requires
        n < 16,
    ensures
        c == hex_char(n),
{
    if n < 10 {
        (48 + n) as char
    } else {
        (87 + n) as char
    }
}

/// Makes the label of the trampoline of `func` from the digest of its name.
pub fn entry_name_for(digest: &[u8; 16], func: &str) -> (name: String)
    ensures
        name@ == entry_name(digest@, func@),
{
    let mut name = String::from_str("__");
    let mut i: usize = 0;
    while i < 4
        invariant
            0 <= i <= 4,
            name@ == "__"@ + hex(digest@, i as int),
        decreases 4 - i,
    {
        let b = digest[i];
        name.push(hex_digit(b / 16));
        name.push(hex_digit(b % 16));
        i += 1;
        assert(name@ =~= "__"@ + hex(digest@, i as int));
    }
    name.append("__");
    name.append(func);
    name
}

/// The label of the trampoline of `func`: the digest is that of the UTF-8
/// bytes of the name.
pub open spec fn label(func: Seq<char>) -> Seq<char> {
    entry_name(md5_of(encode_utf8(func)), func)
}

/// The label of the trampoline of `func`.
pub fn trampoline_entry_name(func: &str) -> (name: String)
    ensures
        name@ == label(func@),
{
    let digest = md5_digest(func.as_bytes());
    entry_name_for(&digest, func)
}

/// The entry of one function, labelled `s`, that branches to the tail
/// labelled `modulename`.
pub open spec fn entry_block(s: Seq<char>, modulename: Seq<char>) -> Seq<char> {
    "\n    .thumb_func\n    .align 4\n    .globl "@ + s + "\n    .type "@ + s
        + ", %function\n    .extern "@ + modulename + "\n    .type "@ + s + ", %function\n    "@
        + s + ":\n    push    {r9, lr}\n    movw r11, #0\n    movt r11, #0\n    b "@ + modulename
        + "\n    .size "@ + s + ", . - "@ + s + "\n    "@
}

/// The tail common to the entries of an object, labelled `s`.
pub open spec fn tail_block(s: Seq<char>) -> Seq<char> {
    "\n    .thumb_func\n    .align 4\n    .globl "@ + s + "\n    .type "@ + s
        + ", %function\n    "@ + s
        + ":\n    movw r9, #0\n    movt r9, #0\n    blx r11\n    pop {r9, pc}\n    bx lr \n    .size "@
        + s + ", . - "@ + s + "\n    "@
}

/// The entries of the functions labelled `labels`, in order.
pub open spec fn entry_blocks(labels: Seq<Seq<char>>, modulename: Seq<char>) -> Seq<char>
    decreases labels.len(),
{
    if labels.len() == 0 {
        Seq::empty()
    } else {
        entry_blocks(labels.drop_last(), modulename) + entry_block(labels.last(), modulename)
    }
}

/// The whole source: the head, the entries, the tail, the end.
pub open spec fn source(labels: Seq<Seq<char>>, modulename: Seq<char>) -> Seq<char> {
    "    .syntax unified\n    .arch armv7-m\n\n    .text\n    .thumb\n"@ + entry_blocks(
        labels,
        modulename,
    ) + tail_block(modulename) + "\n    \n    .end\n"@
}

fn push_entry(out: &mut String, s: &str, modulename: &str)
    ensures
        final(out)@ == old(out)@ + entry_block(s@, modulename@),
{
    out.append("\n    .thumb_func\n    .align 4\n    .globl ");
    out.append(s);
    out.append("\n    .type ");
    out.append(s);
    out.append(", %function\n    .extern ");
    out.append(modulename);
    out.append("\n    .type ");
    out.append(s);
    out.append(", %function\n    ");
    out.append(s);
    out.append(":\n    push    {r9, lr}\n    movw r11, #0\n    movt r11, #0\n    b ");
    out.append(modulename);
    out.append("\n    .size ");
    out.append(s);
    out.append(", . - ");
    out.append(s);
    out.append("\n    ");
    assert(out@ =~= old(out)@ + entry_block(s@, modulename@));
}

fn push_tail(out: &mut String, s: &str)
    ensures
        final(out)@ == old(out)@ + tail_block(s@),
{
    out.append("\n    .thumb_func\n    .align 4\n    .globl ");
    out.append(s);
    out.append("\n    .type ");
    out.append(s);
    out.append(", %function\n    ");
    out.append(s);
    out.append(
        ":\n    movw r9, #0\n    movt r9, #0\n    blx r11\n    pop {r9, pc}\n    bx lr \n    .size ",
    );
    out.append(s);
    out.append(", . - ");
    out.append(s);
    out.append("\n    ");
    assert(out@ =~= old(out)@ + tail_block(s@));
}

/// Writes the source of the trampolines whose labels are `labels`, with the
/// common tail labelled `modulename`.
pub fn trampoline_source(labels: &Vec<String>, modulename: &str) -> (out: String)
    ensures
        out@ == source(name_views(labels@), modulename@),
{
    let ghost all = name_views(labels@);
    let mut out = String::from_str("    .syntax unified\n    .arch armv7-m\n\n    .text\n    .thumb\n");
    let ghost head = out@;
    let mut i: usize = 0;
    while i < labels.len()
        invariant
            0 <= i <= labels@.len(),
            all == name_views(labels@),
            out@ == head + entry_blocks(all.take(i as int), modulename@),
        decreases labels@.len() - i,
    {
        proof {
            assert(all.take(i + 1).drop_last() =~= all.take(i as int));
            assert(all.take(i + 1).last() == labels@[i as int]@);
        }
        push_entry(&mut out, labels[i].as_str(), modulename);
        i += 1;
        assert(out@ =~= head + entry_blocks(all.take(i as int), modulename@));
    }
    assert(all.take(i as int) =~= all);
    push_tail(&mut out, modulename);
    out.append("\n    \n    .end\n");
    out
}

/// The labels of the trampolines of the functions `pub_funcs`.
pub open spec fn labels_of(pub_funcs: Seq<Seq<char>>) -> Seq<Seq<char>> {
    Seq::new(pub_funcs.len(), |i: int| label(pub_funcs[i]))
}

/// Writes the source of the trampolines of an object: one entry for each
/// of its public functions `pub_funcs`, and the tail named after
/// `module_name`.
pub fn compile_trampoline(pub_funcs: &Vec<String>, module_name: &str) -> (out: String)
    ensures
        out@ == source(labels_of(name_views(pub_funcs@)), label(module_name@)),
{
    let mut labels: Vec<String> = Vec::new();
    let mut i: usize = 0;
    while i < pub_funcs.len()
        invariant
            0 <= i <= pub_funcs@.len(),
            labels@.len() == i,
            forall|j: int| 0 <= j < i ==> (#[trigger] labels@[j])@ == label(pub_funcs@[j]@),
        decreases pub_funcs@.len() - i,
    {
        labels.push(trampoline_entry_name(pub_funcs[i].as_str()));
        i += 1;
    }
    let tail = trampoline_entry_name(module_name);
    assert(name_views(labels@) =~= labels_of(name_views(pub_funcs@)));
    trampoline_source(&labels, tail.as_str())
}

} // verus!
