//! What the builder reads from an ELF32 object: symbols and relocations as
//! plain values, and the rules that pick among them.

use crate::symbol::SymbolType;
use crate::text::{ends_with, has_suffix};
use vstd::prelude::*;

verus! {

/// A symbol of an object file.
#[derive(Debug)]
pub struct ElfSymbol {
    pub name: String,
    /// Whether the symbol is visible outside its compilation unit.
    pub is_global: bool,
    /// Whether the symbol is referenced but not defined.
    pub is_undefined: bool,
    /// Whether the symbol stands for executable code.
    pub is_text: bool,
    /// Whether the symbol names a source file.
    pub is_file: bool,
    /// The index of the section that defines the symbol, if one does.
    pub section: Option<usize>,
    pub address: u64,
}

/// A symbol of an object file as a mathematical value.
pub struct ElfSymbolView {
    pub name: Seq<char>,
    pub is_global: bool,
    pub is_undefined: bool,
    pub is_text: bool,
    pub is_file: bool,
    pub section: Option<usize>,
    pub address: u64,
}

impl View for ElfSymbol {
    type V = ElfSymbolView;

    open spec fn view(&self) -> ElfSymbolView {
        ElfSymbolView {
            name: self.name@,
            is_global: self.is_global,
            is_undefined: self.is_undefined,
            is_text: self.is_text,
            is_file: self.is_file,
            section: self.section,
            address: self.address,
        }
    }
}

/// The views of a list of symbols.
pub open spec fn symbol_views(symbols: Seq<ElfSymbol>) -> Seq<ElfSymbolView> {
    Seq::new(symbols.len(), |i: int| symbols[i]@)
}

/// How a symbol relates to the module: a defined global symbol is exported,
/// an undefined global one external, the name of a source file is nothing
/// to the module, and every other symbol is local.
pub open spec fn tag(s: ElfSymbolView) -> Option<SymbolType> {
    if s.is_global && !s.is_undefined {
        Some(SymbolType::Exported)
    } else if s.is_global {
        Some(SymbolType::External)
    } else if s.is_file {
        None
    } else {
        Some(SymbolType::Local)
    }
}

/// Tags a symbol as exported, external or local, or drops it.
pub fn get_symbol_type(symbol: &ElfSymbol) -> (t: Option<SymbolType>)
    ensures
        t == tag(symbol@),
{
    if symbol.is_global && !symbol.is_undefined {
        Some(SymbolType::Exported)
    } else if symbol.is_global {
        Some(SymbolType::External)
    } else if symbol.is_file {
        None
    } else {
        Some(SymbolType::Local)
    }
}

/// The kinds of relocation the builder tells apart.
#[allow(non_camel_case_types)]
#[derive(Debug, Clone, Copy, PartialEq, Eq, Structural)]
pub enum RelocationType {
    MOVW_BREL_NC,
    MOVT_BREL,
    CALL,
    ABS32,
    NONE,
}

/// The kind that an ELF relocation type number stands for.
pub open spec fn relocation_type(r_type: u32) -> RelocationType {
    if r_type == 87 {
        RelocationType::MOVW_BREL_NC
    } else if r_type == 88 {
        RelocationType::MOVT_BREL
    } else if r_type == 10 {
        RelocationType::CALL
    } else if r_type == 2 {
        RelocationType::ABS32
    } else {
        RelocationType::NONE
    }
}

/// The kind that an ELF relocation type number stands for.
pub fn get_relocation_type(r_type: u32) -> (t: RelocationType)
    ensures
        t == relocation_type(r_type),
{
    match r_type {
        87 => RelocationType::MOVW_BREL_NC,
        88 => RelocationType::MOVT_BREL,
        10 => RelocationType::CALL,
        2 => RelocationType::ABS32,
        _ => RelocationType::NONE,
    }
}

/// Whether the image keeps relocations of this kind.
pub open spec fn is_known(t: RelocationType) -> bool {
    t == RelocationType::MOVT_BREL || t == RelocationType::MOVW_BREL_NC || t
        == RelocationType::ABS32
}

/// A relocation together with the symbol it refers to.
#[derive(Debug)]
pub struct Relocation {
    pub r_offset: u32,
    /// The value of the symbol.
    pub r_value: u32,
    pub r_info: u32,
    pub r_type: RelocationType,
    /// The name of the symbol.
    pub name: String,
}

/// A relocation as a mathematical value.
pub struct RelocationView {
    pub r_offset: u32,
    pub r_value: u32,
    pub r_info: u32,
    pub r_type: RelocationType,
    pub name: Seq<char>,
}

impl View for Relocation {
    type V = RelocationView;

    open spec fn view(&self) -> RelocationView {
        RelocationView {
            r_offset: self.r_offset,
            r_value: self.r_value,
            r_info: self.r_info,
            r_type: self.r_type,
            name: self.name@,
        }
    }
}

/// The views of a list of relocations.
pub open spec fn relocation_views(relocations: Seq<Relocation>) -> Seq<RelocationView> {
    Seq::new(relocations.len(), |i: int| relocations[i]@)
}

/// Why an object cannot be read.
#[derive(Debug, Clone, Copy, PartialEq, Eq, Structural)]
pub enum ElfError {
    /// The parser refused the file or a table in it.
    Malformed,
    /// The name of a symbol that is needed cannot be read or is not UTF-8.
    BadName,
    /// The object lacks one of the sections `.text`, `.data`, `.bss`.
    MissingSection,
    /// The zero-initialised data is larger than 32 bits can say.
    TooLarge,
}

/// A symbol of an object file as the file gives it: its name may be
/// unreadable.
#[derive(Debug)]
pub struct RawSymbol {
    /// The name, where it can be read and is UTF-8.
    pub name: Option<String>,
    pub is_global: bool,
    pub is_undefined: bool,
    pub is_text: bool,
    pub is_file: bool,
    pub section: Option<usize>,
    pub address: u64,
}

/// A symbol as the file gives it, as a mathematical value.
pub struct RawSymbolView {
    pub name: Option<Seq<char>>,
    pub is_global: bool,
    pub is_undefined: bool,
    pub is_text: bool,
    pub is_file: bool,
    pub section: Option<usize>,
    pub address: u64,
}

impl View for RawSymbol {
    type V = RawSymbolView;

    open spec fn view(&self) -> RawSymbolView {
        RawSymbolView {
            name: match self.name {
                Some(n) => Some(n@),
                None => None,
            },
            is_global: self.is_global,
            is_undefined: self.is_undefined,
            is_text: self.is_text,
            is_file: self.is_file,
            section: self.section,
            address: self.address,
        }
    }
}

/// The views of a list of symbols as the file gives them.
pub open spec fn raw_symbol_views(symbols: Seq<RawSymbol>) -> Seq<RawSymbolView> {
    Seq::new(symbols.len(), |i: int| symbols[i]@)
}

/// Whether a symbol is a public function: global, and code.
pub open spec fn is_pub_func(s: RawSymbolView) -> bool {
    s.is_global && s.is_text
}

/// The names of the public functions among `symbols`, in the order of the
/// file. Only where every public function has a name do the names count.
pub open spec fn pub_func_names(symbols: Seq<RawSymbolView>) -> Seq<Seq<char>>
    decreases symbols.len(),
{
    if symbols.len() == 0 {
        Seq::empty()
    } else {
        let front = pub_func_names(symbols.drop_last());
        if is_pub_func(symbols.last()) {
            front.push(symbols.last().name.unwrap())
        } else {
            front
        }
    }
}

/// The public functions of an object: their names, unless one of them has
/// a name that cannot be read. The names of other symbols are not looked
/// at.
pub open spec fn pub_funcs(symbols: Seq<RawSymbolView>) -> Result<Seq<Seq<char>>, ElfError> {
    if exists|i: int|
        0 <= i < symbols.len() && is_pub_func(#[trigger] symbols[i]) && symbols[i].name is None {
        Err(ElfError::BadName)
    } else {
        Ok(pub_func_names(symbols))
    }
}

/// The views of a list of names.
pub open spec fn name_views(names: Seq<String>) -> Seq<Seq<char>> {
    Seq::new(names.len(), |i: int| names[i]@)
}

/// Picks the public functions among the symbols of an object.
pub fn pub_funcs_of(symbols: &Vec<RawSymbol>) -> (r: Result<Vec<String>, ElfError>)
    ensures
        match pub_funcs(raw_symbol_views(symbols@)) {
            Ok(names) => r matches Ok(v) && name_views(v@) == names,
            Err(e) => r == Err::<Vec<String>, ElfError>(e),
        },
{
    let ghost all = raw_symbol_views(symbols@);
    let mut results: Vec<String> = Vec::new();
    let mut i: usize = 0;
    while i < symbols.len()
        invariant
            0 <= i <= symbols@.len(),
            all == raw_symbol_views(symbols@),
            forall|j: int| 0 <= j < i && is_pub_func(#[trigger] all[j]) ==> all[j].name is Some,
            name_views(results@) == pub_func_names(all.take(i as int)),
        decreases symbols@.len() - i,
    {
        let sym = &symbols[i];
        let ghost before = name_views(results@);
        proof {
            assert(all.take(i + 1).drop_last() =~= all.take(i as int));
            assert(all.take(i + 1).last() == sym@);
            assert(all[i as int] == sym@);
        }
        if sym.is_global && sym.is_text {
            match &sym.name {
                Some(name) => {
                    results.push(name.clone());
                    assert(name_views(results@) =~= before.push(sym@.name.unwrap()));
                },
                None => {
                    return Err(ElfError::BadName);
                },
            }
        }
        i += 1;
    }
    assert(all.take(i as int) =~= all);
    Ok(results)
}

/// The symbol that a symbol with a name is.
pub open spec fn with_name(s: RawSymbolView) -> ElfSymbolView {
    ElfSymbolView {
        name: s.name.unwrap(),
        is_global: s.is_global,
        is_undefined: s.is_undefined,
        is_text: s.is_text,
        is_file: s.is_file,
        section: s.section,
        address: s.address,
    }
}

/// The symbols of an object with their names, unless one of them has a
/// name that cannot be read.
pub open spec fn named_symbols(symbols: Seq<RawSymbolView>) -> Result<Seq<ElfSymbolView>, ElfError> {
    if exists|i: int| 0 <= i < symbols.len() && (#[trigger] symbols[i]).name is None {
        Err(ElfError::BadName)
    } else {
        Ok(Seq::new(symbols.len(), |i: int| with_name(symbols[i])))
    }
}

/// Gives every symbol its name.
pub fn symbols_of(raw: Vec<RawSymbol>) -> (r: Result<Vec<ElfSymbol>, ElfError>)
    ensures
        match named_symbols(raw_symbol_views(raw@)) {
            Ok(symbols) => r matches Ok(v) && symbol_views(v@) == symbols,
            Err(e) => r == Err::<Vec<ElfSymbol>, ElfError>(e),
        },
{
    let ghost all = raw_symbol_views(raw@);
    let mut symbols: Vec<ElfSymbol> = Vec::new();
    let mut i: usize = 0;
    while i < raw.len()
        invariant
            0 <= i <= raw@.len(),
            all == raw_symbol_views(raw@),
            symbols@.len() == i,
            forall|j: int| 0 <= j < i ==> (#[trigger] all[j]).name is Some,
            forall|j: int| 0 <= j < i ==> (#[trigger] symbols@[j])@ == with_name(all[j]),
        decreases raw@.len() - i,
    {
        let sym = &raw[i];
        assert(all[i as int] == sym@);
        match &sym.name {
            Some(name) => {
                symbols.push(
                    ElfSymbol {
                        name: name.clone(),
                        is_global: sym.is_global,
                        is_undefined: sym.is_undefined,
                        is_text: sym.is_text,
                        is_file: sym.is_file,
                        section: sym.section,
                        address: sym.address,
                    },
                );
            },
            None => {
                return Err(ElfError::BadName);
            },
        }
        i += 1;
    }
    assert(symbol_views(symbols@) =~= Seq::new(all.len(), |i: int| with_name(all[i])));
    Ok(symbols)
}

/// A relocation entry as the file holds it, joined with the name and the
/// value of the symbol it refers to.
#[derive(Debug)]
pub struct RawRelocation {
    pub r_offset: u32,
    pub r_info: u32,
    /// The relocation type number in `r_info`.
    pub r_type: u32,
    pub name: String,
    pub value: u32,
}

/// A joined relocation entry as a mathematical value.
pub struct RawRelocationView {
    pub r_offset: u32,
    pub r_info: u32,
    pub r_type: u32,
    pub name: Seq<char>,
    pub value: u32,
}

impl View for RawRelocation {
    type V = RawRelocationView;

    open spec fn view(&self) -> RawRelocationView {
        RawRelocationView {
            r_offset: self.r_offset,
            r_info: self.r_info,
            r_type: self.r_type,
            name: self.name@,
            value: self.value,
        }
    }
}

/// The views of a list of joined relocation entries.
pub open spec fn raw_views(raw: Seq<RawRelocation>) -> Seq<RawRelocationView> {
    Seq::new(raw.len(), |i: int| raw[i]@)
}

/// The relocation that a joined entry becomes.
pub open spec fn lifted(r: RawRelocationView) -> RelocationView {
    RelocationView {
        r_offset: r.r_offset,
        r_value: r.value,
        r_info: r.r_info,
        r_type: relocation_type(r.r_type),
        name: r.name,
    }
}

/// Whether the image keeps a joined entry: its kind is known and the name
/// of its symbol does not end in the module's own name.
pub open spec fn retained(r: RawRelocationView, module_name: Seq<char>) -> bool {
    is_known(relocation_type(r.r_type)) && !ends_with(r.name, module_name)
}

/// The relocations that the image keeps, in the order of the file.
pub open spec fn known_relocations(raw: Seq<RawRelocationView>, module_name: Seq<char>) -> Seq<
    RelocationView,
>
    decreases raw.len(),
{
    if raw.len() == 0 {
        Seq::empty()
    } else {
        let front = known_relocations(raw.drop_last(), module_name);
        if retained(raw.last(), module_name) {
            front.push(lifted(raw.last()))
        } else {
            front
        }
    }
}

/// Picks the relocations that the image keeps.
pub fn known_relocations_of(raw: &Vec<RawRelocation>, module_name: &str) -> (relocations: Vec<
    Relocation,
>)
    ensures
        relocation_views(relocations@) == known_relocations(raw_views(raw@), module_name@),
{
    let ghost all = raw_views(raw@);
    let mut vec_relocations: Vec<Relocation> = Vec::new();
    let mut i: usize = 0;
    while i < raw.len()
        invariant
            0 <= i <= raw@.len(),
            all == raw_views(raw@),
            relocation_views(vec_relocations@) == known_relocations(
                all.take(i as int),
                module_name@,
            ),
        decreases raw@.len() - i,
    {
        let r = &raw[i];
        let ghost before = relocation_views(vec_relocations@);
        proof {
            assert(all.take(i + 1).drop_last() =~= all.take(i as int));
            assert(all.take(i + 1).last() == r@);
        }
        let r_type = get_relocation_type(r.r_type);
        let known = match r_type {
            RelocationType::MOVT_BREL => true,
            RelocationType::MOVW_BREL_NC => true,
            RelocationType::ABS32 => true,
            _ => false,
        };
        if known && !has_suffix(r.name.as_str(), module_name) {
            vec_relocations.push(
                Relocation {
                    r_offset: r.r_offset,
                    r_value: r.value,
                    r_type,
                    r_info: r.r_info,
                    name: r.name.clone(),
                },
            );
            assert(relocation_views(vec_relocations@) =~= before.push(lifted(r@)));
        }
        i += 1;
    }
    assert(all.take(i as int) =~= all);
    vec_relocations
}

/// A joined entry that qualifies is among the relocations that the image
/// keeps. So is, in particular, a relocation of kind `ABS32` by which a
/// function refers to itself, whatever the function's name, unless it ends
/// in the module's own.
pub proof fn lemma_retained_kept(raw: Seq<RawRelocationView>, module_name: Seq<char>, k: int)
    requires
        0 <= k < raw.len(),
        retained(raw[k], module_name),
    ensures
        exists|i: int|
            0 <= i < known_relocations(raw, module_name).len() && #[trigger] known_relocations(
                raw,
                module_name,
            )[i] == lifted(raw[k]),
    decreases raw.len(),
{
    let front = raw.drop_last();
    let known = known_relocations(raw, module_name);
    let fknown = known_relocations(front, module_name);
    if k < raw.len() - 1 {
        assert(front[k] == raw[k]);
        lemma_retained_kept(front, module_name, k);
        let i = choose|i: int| 0 <= i < fknown.len() && #[trigger] fknown[i] == lifted(front[k]);
        assert(known[i] == fknown[i]);
    } else {
        assert(known[known.len() - 1] == lifted(raw[k]));
    }
}

} // verus!
