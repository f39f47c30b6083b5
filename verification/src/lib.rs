//! A two-stage dynamic linker for position-independent Thumb-2 code.
//!
//! The builder side turns a linked ELF32 object into a compact image; the
//! loader side lays such an image out in memory, fills its global offset
//! table, and synthesises the procedure linkage table that swaps the static
//! base register around every call into a module.

pub mod builder;
pub mod chain;
pub mod dynamic;
pub mod elf;
pub mod encode;
pub mod image;
pub mod instr;
pub mod module;
pub mod plt;
pub mod reader;
pub mod registry;
pub mod resident;
pub mod resolved;
pub mod symbol;
pub mod text;
pub mod trampoline;
pub mod word;
