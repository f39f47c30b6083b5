//! Reading a linked ELF32 object into plain values.
//!
//! The parsing itself is the work of the `object` crate; what it returns is
//! known here by name only. Everything that is decided on what it returns
//! is decided in verified code.

use crate::builder::{build_image, BuildError, LinkedObject, LinkedObjectView};
use crate::elf::{
    known_relocations, known_relocations_of, name_views, named_symbols, pub_funcs, pub_funcs_of,
    raw_symbol_views, raw_views, relocation_views, symbols_of, ElfError, RawRelocation,
    RawRelocationView, RawSymbol, RawSymbolView, Relocation,
};
use crate::encode::image_bytes;
use object::elf::FileHeader32;
use object::read::elf::{FileHeader, Rel, SectionHeader, Sym};
use object::{Endianness, Object, ObjectSection, ObjectSymbol, SectionIndex, SymbolIndex};
use vstd::prelude::*;
use vstd::utf8::{decode_utf8, valid_utf8};

verus! {

/// The error of the `object` crate's reader; nothing is known of a value
/// of it but that reading failed.
#[verifier::external_type_specification]
#[verifier::external_body]
pub struct ExObjectError(object::read::Error);

/// The symbols of the object `data` in the order of its symbol table, or
/// nothing where the parser refuses the object. A symbol whose name the
/// parser refuses is there without a name.
pub uninterp spec fn elf_symbols(data: Seq<u8>) -> Option<Seq<RawSymbolView>>;

/// Reads the symbols of an object with `object::File::parse` and
/// `Object::symbols`. Each symbol is handed on by its name, where
/// `ObjectSymbol::name` gives one, its global and undefined flags, whether
/// its kind is code or file name, the index of its section and its address,
/// as the accessors of `ObjectSymbol` give them.
#[verifier::external_body]
fn read_symbols(data: &[u8]) -> (r: Result<Vec<RawSymbol>, object::read::Error>)
    ensures
        match r {
            Ok(v) => elf_symbols(data@) == Some(raw_symbol_views(v@)),
            Err(_) => elf_symbols(data@) is None,
        },
{
    let file = object::File::parse(data)?;
    let mut out = Vec::new();
    for s in file.symbols() {
        out.push(RawSymbol {
            name: s.name().ok().map(|n| n.to_string()),
            is_global: s.is_global(),
            is_undefined: s.is_undefined(),
            is_text: matches!(s.kind(), object::SymbolKind::Text),
            is_file: matches!(s.kind(), object::SymbolKind::File),
            section: s.section_index().map(|i| i.0),
            address: s.address(),
        });
    }
    Ok(out)
}

/// A section of an object.
#[derive(Debug)]
pub struct Section {
    /// The index of the section in the object.
    pub index: usize,
    /// The size that the section header states.
    pub size: u64,
    /// The bytes that the file holds for the section.
    pub data: Vec<u8>,
}

/// A section as a mathematical value.
pub struct SectionView {
    pub index: usize,
    pub size: u64,
    pub data: Seq<u8>,
}

impl View for Section {
    type V = SectionView;

    open spec fn view(&self) -> SectionView {
        SectionView { index: self.index, size: self.size, data: self.data@ }
    }
}

/// The section of the object `data` that bears `name`: nothing where the
/// parser refuses the object or the section's contents, and nothing inside
/// where the object has no such section.
pub uninterp spec fn elf_section(data: Seq<u8>, name: Seq<char>) -> Option<Option<SectionView>>;

/// Looks a section up with `Object::section_by_name` and hands on its
/// index, its size and its data, as `ObjectSection` gives them.
#[verifier::external_body]
fn read_section(data: &[u8], name: &str) -> (r: Result<Option<Section>, object::read::Error>)
    ensures
        match r {
            Ok(Some(s)) => elf_section(data@, name@) == Some(Some(s@)),
            Ok(None) => elf_section(data@, name@) == Some(None::<SectionView>),
            Err(_) => elf_section(data@, name@) is None,
        },
{
    let file = object::File::parse(data)?;
    match file.section_by_name(name) {
        Some(s) => Ok(Some(Section { index: s.index().0, size: s.size(), data: s.data()?.to_vec() })),
        None => Ok(None),
    }
}

/// One entry of a relocation section, as the file holds it.
#[derive(Debug, Clone, Copy, PartialEq, Eq, Structural)]
pub struct RawRel {
    pub r_offset: u32,
    pub r_info: u32,
    /// The relocation type number in `r_info`.
    pub r_type: u32,
    /// The symbol index in `r_info`.
    pub r_sym: u32,
}

/// The entries of a relocation section and the index of the section that
/// holds the symbols they refer to.
#[derive(Debug)]
pub struct RelSection {
    pub link: usize,
    pub entries: Vec<RawRel>,
}

/// A relocation section as a mathematical value.
pub struct RelSectionView {
    pub link: usize,
    pub entries: Seq<RawRel>,
}

/// The view of a section that may hold relocations.
pub open spec fn rel_section_view(s: Option<RelSection>) -> Option<RelSectionView> {
    match s {
        Some(s) => Some(RelSectionView { link: s.link, entries: s.entries@ }),
        None => None,
    }
}

/// The views of a list of sections.
pub open spec fn rel_section_views(v: Seq<Option<RelSection>>) -> Seq<Option<RelSectionView>> {
    Seq::new(v.len(), |i: int| rel_section_view(v[i]))
}

/// For each section of the object `data`, in order, its relocation entries
/// where it is a section of relocations without addends, and nothing where
/// it is not; nothing at all where the parser refuses the object or such a
/// section.
pub uninterp spec fn elf_rel_sections(data: Seq<u8>) -> Option<Seq<Option<RelSectionView>>>;

/// Reads the relocation sections of an ELF32 object with
/// `FileHeader32::parse`, `FileHeader::sections` and `SectionHeader::rel`.
/// Each entry is handed on by what `Rel::r_offset`, `r_info`, `r_type` and
/// `r_sym` give, each section with the index of its linked symbol table.
#[verifier::external_body]
fn read_rel_sections(data: &[u8]) -> (r: Result<Vec<Option<RelSection>>, object::read::Error>)
    ensures
        match r {
            Ok(v) => elf_rel_sections(data@) == Some(rel_section_views(v@)),
            Err(_) => elf_rel_sections(data@) is None,
        },
{
    let elf = FileHeader32::<Endianness>::parse(data)?;
    let endian = elf.endian()?;
    let mut out = Vec::new();
    for section in elf.sections(endian, data)?.iter() {
        out.push(section.rel(endian, data)?.map(|(rels, link)| RelSection {
            link: link.0,
            entries: rels.iter().map(|r| RawRel {
                r_offset: r.r_offset(endian),
                r_info: r.r_info(endian),
                r_type: r.r_type(endian).0,
                r_sym: r.r_sym(endian),
            }).collect(),
        }));
    }
    Ok(out)
}

/// The name, as bytes, and the value of symbol `index` of the symbol table
/// in section `table` of the object `data`; nothing where the parser
/// refuses the object, the table, the index or the name.
pub uninterp spec fn elf_rel_symbol(data: Seq<u8>, table: usize, index: u32) -> Option<
    (Seq<u8>, u32),
>;

/// Reads one symbol of one symbol table of an ELF32 object with
/// `SectionTable::symbol_table_by_index`, `SymbolTable::symbol`,
/// `Sym::name` and `Sym::st_value`.
#[verifier::external_body]
fn read_rel_symbol(data: &[u8], table: usize, index: u32) -> (r: Result<
    (Vec<u8>, u32),
    object::read::Error,
>)
    ensures
        match r {
            Ok(s) => elf_rel_symbol(data@, table, index) == Some((s.0@, s.1)),
            Err(_) => elf_rel_symbol(data@, table, index) is None,
        },
{
    let elf = FileHeader32::<Endianness>::parse(data)?;
    let endian = elf.endian()?;
    let sections = elf.sections(endian, data)?;
    let symbols = sections.symbol_table_by_index(endian, data, SectionIndex(table))?;
    let symbol = symbols.symbol(SymbolIndex(index as usize))?;
    Ok((symbol.name(endian, symbols.strings())?.to_vec(), symbol.st_value(endian)))
}

/// Turns bytes into a string with `String::from_utf8`, which gives the
/// string that the bytes encode where they are valid UTF-8 and fails
/// otherwise.
#[verifier::external_body]
fn string_from_utf8(bytes: Vec<u8>) -> (r: Option<String>)
    ensures
        match r {
            Some(s) => valid_utf8(bytes@) && s@ == decode_utf8(bytes@),
            None => !valid_utf8(bytes@),
        },
{
    match String::from_utf8(bytes) {
        Ok(s) => Some(s),
        Err(_) => None,
    }
}

/// The public functions of the object `data`. Only their names are read.
pub fn get_pub_funcs(data: &[u8]) -> (r: Result<Vec<String>, ElfError>)
    ensures
        match elf_symbols(data@) {
            Some(symbols) => match pub_funcs(symbols) {
                Ok(names) => r matches Ok(v) && name_views(v@) == names,
                Err(e) => r == Err::<Vec<String>, ElfError>(e),
            },
            None => r == Err::<Vec<String>, ElfError>(ElfError::Malformed),
        },
{
    match read_symbols(data) {
        Ok(symbols) => pub_funcs_of(&symbols),
        Err(_) => Err(ElfError::Malformed),
    }
}

/// A relocation entry of a section linked to the symbol table in section
/// `link`, joined with its symbol.
pub open spec fn join_entry(data: Seq<u8>, link: usize, e: RawRel) -> Result<
    RawRelocationView,
    ElfError,
> {
    match elf_rel_symbol(data, link, e.r_sym) {
        None => Err(ElfError::Malformed),
        Some((name, value)) => if valid_utf8(name) {
            Ok(
                RawRelocationView {
                    r_offset: e.r_offset,
                    r_info: e.r_info,
                    r_type: e.r_type,
                    name: decode_utf8(name),
                    value,
                },
            )
        } else {
            Err(ElfError::BadName)
        },
    }
}

/// The first `n` entries of a relocation section, joined; the first entry
/// that cannot be joined fails the lot.
pub open spec fn join_section(data: Seq<u8>, section: RelSectionView, n: int) -> Result<
    Seq<RawRelocationView>,
    ElfError,
>
    decreases n,
{
    if n <= 0 {
        Ok(Seq::empty())
    } else {
        match join_section(data, section, n - 1) {
            Err(e) => Err(e),
            Ok(front) => match join_entry(data, section.link, section.entries[n - 1]) {
                Err(e) => Err(e),
                Ok(r) => Ok(front.push(r)),
            },
        }
    }
}

/// The joined entries of the first `n` sections, in order.
pub open spec fn join_all(data: Seq<u8>, sections: Seq<Option<RelSectionView>>, n: int) -> Result<
    Seq<RawRelocationView>,
    ElfError,
>
    decreases n,
{
    if n <= 0 {
        Ok(Seq::empty())
    } else {
        match join_all(data, sections, n - 1) {
            Err(e) => Err(e),
            Ok(front) => match sections[n - 1] {
                None => Ok(front),
                Some(section) => match join_section(data, section, section.entries.len() as int) {
                    Err(e) => Err(e),
                    Ok(rs) => Ok(front + rs),
                },
            },
        }
    }
}

/// Every relocation entry of the object `data`, joined with its symbol.
pub open spec fn raw_relocations(data: Seq<u8>) -> Result<Seq<RawRelocationView>, ElfError> {
    match elf_rel_sections(data) {
        None => Err(ElfError::Malformed),
        Some(sections) => join_all(data, sections, sections.len() as int),
    }
}

/// Joins the entries of one relocation section and appends them to `out`.
fn join_into(data: &[u8], section: &RelSection, out: &mut Vec<RawRelocation>) -> (r: Result<
    (),
    ElfError,
>)
    ensures
        match join_section(
            data@,
            RelSectionView { link: section.link, entries: section.entries@ },
            section.entries@.len() as int,
        ) {
            Ok(rs) => r is Ok && raw_views(final(out)@) == raw_views(old(out)@) + rs,
            Err(e) => r == Err::<(), ElfError>(e),
        },
{
    let ghost view = RelSectionView { link: section.link, entries: section.entries@ };
    let ghost before = raw_views(out@);
    let mut i: usize = 0;
    while i < section.entries.len()
        invariant
            0 <= i <= section.entries@.len(),
            view == (RelSectionView { link: section.link, entries: section.entries@ }),
            join_section(data@, view, i as int) is Ok,
            raw_views(out@) == before + join_section(data@, view, i as int).unwrap(),
        decreases section.entries@.len() - i,
    {
        let relocation = section.entries[i];
        let ghost sofar = raw_views(out@);
        let (name, value) = match read_rel_symbol(data, section.link, relocation.r_sym) {
            Ok(s) => s,
            Err(_) => {
                proof {
                    lemma_join_fails(data@, view, i + 1, section.entries@.len() as int);
                }
                return Err(ElfError::Malformed);
            },
        };
        let name = match string_from_utf8(name) {
            Some(s) => s,
            None => {
                proof {
                    lemma_join_fails(data@, view, i + 1, section.entries@.len() as int);
                }
                return Err(ElfError::BadName);
            },
        };
        out.push(
            RawRelocation {
                r_offset: relocation.r_offset,
                r_info: relocation.r_info,
                r_type: relocation.r_type,
                name,
                value,
            },
        );
        i += 1;
        assert(raw_views(out@) =~= sofar.push(join_entry(data@, view.link, relocation).unwrap()));
        assert(raw_views(out@) =~= before + join_section(data@, view, i as int).unwrap());
    }
    Ok(())
}

/// A section whose first `n` entries cannot be joined cannot be joined.
proof fn lemma_join_fails(data: Seq<u8>, section: RelSectionView, n: int, m: int)
    requires
        0 <= n <= m,
        join_section(data, section, n) is Err,
    ensures
        join_section(data, section, m) == join_section(data, section, n),
    decreases m - n,
{
    if n < m {
        lemma_join_fails(data, section, n, m - 1);
    }
}

/// An object whose first `n` sections cannot be joined cannot be joined.
proof fn lemma_join_all_fails(data: Seq<u8>, sections: Seq<Option<RelSectionView>>, n: int, m: int)
    requires
        0 <= n <= m,
        join_all(data, sections, n) is Err,
    ensures
        join_all(data, sections, m) == join_all(data, sections, n),
    decreases m - n,
{
    if n < m {
        lemma_join_all_fails(data, sections, n, m - 1);
    }
}

/// Reads every relocation entry of an object and joins it with its symbol.
pub fn read_relocations(data: &[u8]) -> (r: Result<Vec<RawRelocation>, ElfError>)
    ensures
        match raw_relocations(data@) {
            Ok(raw) => r matches Ok(v) && raw_views(v@) == raw,
            Err(e) => r == Err::<Vec<RawRelocation>, ElfError>(e),
        },
{
    let sections = match read_rel_sections(data) {
        Ok(v) => v,
        Err(_) => {
            return Err(ElfError::Malformed);
        },
    };
    let ghost all = rel_section_views(sections@);
    let mut out: Vec<RawRelocation> = Vec::new();
    let mut i: usize = 0;
    while i < sections.len()
        invariant
            0 <= i <= sections@.len(),
            all == rel_section_views(sections@),
            elf_rel_sections(data@) == Some(all),
            join_all(data@, all, i as int) is Ok,
            raw_views(out@) == join_all(data@, all, i as int).unwrap(),
        decreases sections@.len() - i,
    {
        assert(all[i as int] == rel_section_view(sections@[i as int]));
        match &sections[i] {
            Some(section) => {
                match join_into(data, section, &mut out) {
                    Ok(()) => {},
                    Err(e) => {
                        proof {
                            let view = RelSectionView {
                                link: section.link,
                                entries: section.entries@,
                            };
                            assert(all[i as int] == Some(view));
                            assert(join_all(data@, all, i + 1) == Err::<
                                Seq<RawRelocationView>,
                                ElfError,
                            >(e));
                            lemma_join_all_fails(data@, all, i + 1, sections@.len() as int);
                        }
                        return Err(e);
                    },
                }
            },
            None => {},
        }
        i += 1;
    }
    Ok(out)
}

/// The relocations of the object `data` that an image keeps, where the
/// module's own name is `module_name`.
pub fn get_known_relocations(data: &[u8], module_name: &str) -> (r: Result<
    Vec<Relocation>,
    ElfError,
>)
    ensures
        match raw_relocations(data@) {
            Ok(raw) => r matches Ok(v) && relocation_views(v@) == known_relocations(
                raw,
                module_name@,
            ),
            Err(e) => r == Err::<Vec<Relocation>, ElfError>(e),
        },
{
    let raw = read_relocations(data)?;
    Ok(known_relocations_of(&raw, module_name))
}

/// The section `name` of the object `data`, which an image cannot do
/// without.
pub open spec fn required_section(data: Seq<u8>, name: Seq<char>) -> Result<SectionView, ElfError> {
    match elf_section(data, name) {
        None => Err(ElfError::Malformed),
        Some(None) => Err(ElfError::MissingSection),
        Some(Some(s)) => Ok(s),
    }
}

/// The object `data` as plain values: its sections `.text`, `.data` and
/// `.bss`, its symbols with their names, and the relocations that an image
/// keeps. What fails first, in this order, decides the error; the size of
/// `.bss` is looked at as soon as the section is found.
pub open spec fn object_of(data: Seq<u8>, module_name: Seq<char>) -> Result<
    LinkedObjectView,
    ElfError,
> {
    match required_section(data, ".text"@) {
        Err(e) => Err(e),
        Ok(text) => match required_section(data, ".data"@) {
            Err(e) => Err(e),
            Ok(init) => match required_section(data, ".bss"@) {
                Err(e) => Err(e),
                Ok(bss) => if bss.size > u32::MAX {
                    Err(ElfError::TooLarge)
                } else {
                    match elf_symbols(data) {
                        None => Err(ElfError::Malformed),
                        Some(found) => match named_symbols(found) {
                            Err(e) => Err(e),
                            Ok(symbols) => match raw_relocations(data) {
                                Err(e) => Err(e),
                                Ok(raw) => Ok(
                                    LinkedObjectView {
                                        symbols,
                                        relocations: known_relocations(raw, module_name),
                                        text: text.data,
                                        text_section: text.index,
                                        data: init.data,
                                        l_bss: bss.size as u32,
                                    },
                                ),
                            },
                        },
                    }
                },
            },
        },
    }
}

fn require_section(data: &[u8], name: &str) -> (r: Result<Section, ElfError>)
    ensures
        match required_section(data@, name@) {
            Ok(s) => r matches Ok(v) && v@ == s,
            Err(e) => r == Err::<Section, ElfError>(e),
        },
{
    match read_section(data, name) {
        Ok(Some(s)) => Ok(s),
        Ok(None) => Err(ElfError::MissingSection),
        Err(_) => Err(ElfError::Malformed),
    }
}

/// Reads a linked object.
pub fn read_object(data: &[u8], module_name: &str) -> (r: Result<LinkedObject, ElfError>)
    ensures
        match object_of(data@, module_name@) {
            Ok(o) => r matches Ok(v) && v@ == o,
            Err(e) => r == Err::<LinkedObject, ElfError>(e),
        },
{
    let code_section = require_section(data, ".text")?;
    let data_section = require_section(data, ".data")?;
    let bss_section = require_section(data, ".bss")?;
    if bss_section.size > u32::MAX as u64 {
        return Err(ElfError::TooLarge);
    }
    let found = match read_symbols(data) {
        Ok(v) => v,
        Err(_) => {
            return Err(ElfError::Malformed);
        },
    };
    let symbols = symbols_of(found)?;
    let relocations = get_known_relocations(data, module_name)?;
    Ok(
        LinkedObject {
            symbols,
            relocations,
            text: code_section.data,
            text_section: code_section.index,
            data: data_section.data,
            l_bss: bss_section.size as u32,
        },
    )
}

/// Why no image was made of an object.
#[derive(Debug, Clone, Copy, PartialEq, Eq, Structural)]
pub enum MakeError {
    /// The object could not be read.
    Elf(ElfError),
    /// The object was read, and no image can be built of it.
    Build(BuildError),
}

/// What making an image of the object `data` gives.
pub open spec fn made(data: Seq<u8>, funcs: Seq<Seq<char>>, module_name: Seq<char>) -> Result<
    Seq<u8>,
    MakeError,
> {
    match object_of(data, module_name) {
        Err(e) => Err(MakeError::Elf(e)),
        Ok(o) => match o.build_error(funcs, module_name) {
            Some(e) => Err(MakeError::Build(e)),
            None => Ok(image_bytes(o.built(funcs, module_name))),
        },
    }
}

/// Makes the image of the linked object `data`, whose exported functions
/// are `glb_funcs` and whose own name is `module_name`.
pub fn make_image(data: &[u8], glb_funcs: Vec<String>, module_name: &str) -> (r: Result<
    Vec<u8>,
    MakeError,
>)
    ensures
        match made(data@, name_views(glb_funcs@), module_name@) {
            Ok(bytes) => r matches Ok(v) && v@ == bytes,
            Err(e) => r == Err::<Vec<u8>, MakeError>(e),
        },
{
    let obj = match read_object(data, module_name) {
        Ok(o) => o,
        Err(e) => {
            return Err(MakeError::Elf(e));
        },
    };
    match build_image(&obj, &glb_funcs, module_name) {
        Ok(image) => Ok(image.encode()),
        Err(e) => Err(MakeError::Build(e)),
    }
}

} // verus!
