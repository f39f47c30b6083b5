//! Symbol records as the image stores them and as a loaded module keeps them.

use vstd::prelude::*;

verus! {

/// How a symbol of an object relates to the module built from it.
#[derive(Debug, Clone, Copy, PartialEq, Eq, Structural)]
pub enum SymbolType {
    /// Defined here and visible to other modules.
    Exported,
    /// Defined here and private.
    Local,
    /// Referenced here, defined by a dependency.
    External,
}

/// Kind code of a private symbol.
pub const KIND_LOCAL: u8 = 0;

/// Kind code of a symbol other modules may bind to.
pub const KIND_EXPORTED: u8 = 1;

/// Kind code of a symbol a dependency has to provide.
pub const KIND_EXTERNAL: u8 = 2;

/// Kind code of the reserved record that stands for the module itself.
pub const KIND_MODULE: u8 = 3;

/// Flag, beside the kind code, that marks a symbol as code rather than data.
pub const FUNCTION_FLAG: u8 = 4;

impl SymbolType {
    /// The kind code that stands for this type in an image.
    pub open spec fn spec_code(self) -> u8 {
        match self {
            SymbolType::Local => KIND_LOCAL,
            SymbolType::Exported => KIND_EXPORTED,
            SymbolType::External => KIND_EXTERNAL,
        }
    }

    /// The kind code that stands for this type in an image.
    #[verifier::when_used_as_spec(spec_code)]
    pub fn code(self) -> (c: u8)
        ensures
            c == self.spec_code(),
    {
        match self {
            SymbolType::Local => KIND_LOCAL,
            SymbolType::Exported => KIND_EXPORTED,
            SymbolType::External => KIND_EXTERNAL,
        }
    }
}

/// The kind code in a symbol's type bits.
pub open spec fn kind_of(s_type: u8) -> u8 {
    s_type % 4
}

/// Whether a symbol's type bits mark it as code.
pub open spec fn function_bit(s_type: u8) -> bool {
    s_type / 4 % 2 == 1
}

/// Whether an image stores a name for symbols with these type bits: it does
/// for exported and external symbols only.
pub open spec fn is_named(s_type: u8) -> bool {
    kind_of(s_type) == KIND_EXPORTED || kind_of(s_type) == KIND_EXTERNAL
}

/// One record of a symbol table.
///
/// Fresh from an image, `index1` is the symbol's payload (an offset into the
/// module's code or data) and `index2` is zero. Resolving a module replaces
/// the two indices of each function it exports by the addresses of the
/// function's two linkage stubs.
#[derive(Debug)]
pub struct Symbol {
    pub s_type: u8,
    pub index1: u32,
    pub index2: u32,
    pub s_name: String,
}

/// A symbol record as a mathematical value.
pub struct SymbolView {
    pub s_type: u8,
    pub index1: u32,
    pub index2: u32,
    pub name: Seq<char>,
}

impl View for Symbol {
    type V = SymbolView;

    open spec fn view(&self) -> SymbolView {
        SymbolView {
            s_type: self.s_type,
            index1: self.index1,
            index2: self.index2,
            name: self.s_name@,
        }
    }
}

impl SymbolView {
    /// The symbol's kind code.
    pub open spec fn kind(self) -> u8 {
        kind_of(self.s_type)
    }

    /// Whether the symbol is code.
    pub open spec fn is_function(self) -> bool {
        function_bit(self.s_type)
    }
}

impl Symbol {
    /// The symbol's kind code.
    pub fn kind(&self) -> (k: u8)
        ensures
            k == self@.kind(),
    {
        let t = self.s_type;
        assert(t & 3 == t % 4) by (bit_vector);
        self.s_type & 3
    }

    /// Whether the symbol is code.
    pub fn is_function(&self) -> (f: bool)
        ensures
            f == self@.is_function(),
    {
        let t = self.s_type;
        assert((t & 4 != 0) == (t / 4 % 2 == 1)) by (bit_vector);
        self.s_type & FUNCTION_FLAG != 0
    }

    /// A copy of the record.
    pub fn duplicate(&self) -> (s: Symbol)
        ensures
            s@ == self@,
    {
        Symbol {
            s_type: self.s_type,
            index1: self.index1,
            index2: self.index2,
            s_name: self.s_name.clone(),
        }
    }
}

/// The views of a list of symbol records.
pub open spec fn views(symbols: Seq<Symbol>) -> Seq<SymbolView> {
    Seq::new(symbols.len(), |i: int| symbols[i]@)
}

} // verus!
