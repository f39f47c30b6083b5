use dl_lib::builder::{
    build_image, make_catalog, select, BuildError, Entry, LinkedObject,
};
use dl_lib::elf::{
    get_relocation_type, get_symbol_type, known_relocations_of, pub_funcs_of, symbols_of, ElfError,
    ElfSymbol, RawRelocation, RawSymbol, Relocation, RelocationType,
};
use dl_lib::image::Image;
use dl_lib::reader::{
    get_known_relocations, get_pub_funcs, make_image, read_object, read_relocations, MakeError,
};
use dl_lib::symbol::SymbolType;
use dl_lib::trampoline::{compile_trampoline, trampoline_entry_name};

/// A linked object: the trampoline of `test`, the common tail, `test`
/// itself and three slot words in `.text`; two words in `.data`.
fn elf() -> Vec<u8> {
    vec![
        127, 69, 76, 70, 1, 1, 1, 0, 0, 0, 0, 0, 0, 0, 0, 0, 2, 0, 40, 0,
        1, 0, 0, 0, 0, 0, 0, 0, 0, 0, 0, 0, 252, 1, 0, 0, 0, 0, 0, 5,
        52, 0, 0, 0, 0, 0, 40, 0, 8, 0, 7, 0, 45, 233, 0, 66, 64, 242, 0, 11,
        192, 242, 0, 11, 0, 240, 0, 184, 64, 242, 0, 9, 192, 242, 0, 9, 216, 71, 189, 232,
        0, 130, 112, 71, 0, 191, 0, 191, 112, 71, 0, 191, 0, 0, 0, 0, 4, 0, 0, 0,
        8, 0, 0, 0, 20, 0, 0, 0, 31, 0, 0, 0, 0, 0, 0, 0, 0, 0, 0, 0,
        0, 0, 0, 0, 0, 0, 0, 0, 1, 0, 0, 0, 0, 0, 0, 0, 0, 0, 0, 0,
        4, 0, 241, 255, 10, 0, 0, 0, 0, 0, 0, 0, 0, 0, 0, 0, 0, 0, 1, 0,
        13, 0, 0, 0, 40, 0, 0, 0, 0, 0, 0, 0, 0, 0, 1, 0, 16, 0, 0, 0,
        37, 0, 0, 0, 2, 0, 0, 0, 2, 0, 1, 0, 23, 0, 0, 0, 56, 0, 0, 0,
        4, 0, 0, 0, 1, 0, 2, 0, 30, 0, 0, 0, 56, 0, 0, 0, 4, 0, 0, 0,
        1, 0, 2, 0, 38, 0, 0, 0, 1, 0, 0, 0, 16, 0, 0, 0, 18, 0, 1, 0,
        55, 0, 0, 0, 17, 0, 0, 0, 16, 0, 0, 0, 18, 0, 1, 0, 74, 0, 0, 0,
        33, 0, 0, 0, 8, 0, 0, 0, 18, 0, 1, 0, 79, 0, 0, 0, 52, 0, 0, 0,
        4, 0, 0, 0, 17, 0, 2, 0, 88, 0, 0, 0, 0, 0, 0, 0, 0, 0, 0, 0,
        16, 0, 0, 0, 0, 109, 111, 100, 117, 108, 101, 46, 99, 0, 36, 116, 0, 36, 100, 0,
        104, 101, 108, 112, 101, 114, 0, 117, 110, 117, 115, 101, 100, 0, 99, 111, 117, 110, 116, 101,
        114, 0, 95, 95, 48, 57, 56, 102, 54, 98, 99, 100, 95, 95, 116, 101, 115, 116, 0, 95,
        95, 50, 50, 56, 56, 52, 100, 98, 49, 95, 95, 109, 111, 100, 117, 108, 101, 0, 116, 101,
        115, 116, 0, 71, 76, 79, 66, 65, 76, 95, 88, 0, 105, 110, 99, 0, 40, 0, 0, 0,
        87, 11, 0, 0, 40, 0, 0, 0, 88, 11, 0, 0, 12, 0, 0, 0, 30, 8, 0, 0,
        44, 0, 0, 0, 2, 10, 0, 0, 48, 0, 0, 0, 2, 6, 0, 0, 32, 0, 0, 0,
        10, 9, 0, 0, 16, 0, 0, 0, 2, 8, 0, 0, 0, 46, 116, 101, 120, 116, 0, 46,
        100, 97, 116, 97, 0, 46, 98, 115, 115, 0, 46, 115, 121, 109, 116, 97, 98, 0, 46, 115,
        116, 114, 116, 97, 98, 0, 46, 114, 101, 108, 46, 116, 101, 120, 116, 0, 46, 115, 104, 115,
        116, 114, 116, 97, 98, 0, 0, 0, 0, 0, 0, 0, 0, 0, 0, 0, 0, 0, 0, 0,
        0, 0, 0, 0, 0, 0, 0, 0, 0, 0, 0, 0, 0, 0, 0, 0, 0, 0, 0, 0,
        0, 0, 0, 0, 0, 0, 0, 0, 1, 0, 0, 0, 1, 0, 0, 0, 6, 0, 0, 0,
        0, 0, 0, 0, 52, 0, 0, 0, 52, 0, 0, 0, 0, 0, 0, 0, 0, 0, 0, 0,
        4, 0, 0, 0, 0, 0, 0, 0, 7, 0, 0, 0, 1, 0, 0, 0, 3, 0, 0, 0,
        52, 0, 0, 0, 104, 0, 0, 0, 8, 0, 0, 0, 0, 0, 0, 0, 0, 0, 0, 0,
        4, 0, 0, 0, 0, 0, 0, 0, 13, 0, 0, 0, 8, 0, 0, 0, 3, 0, 0, 0,
        60, 0, 0, 0, 112, 0, 0, 0, 16, 0, 0, 0, 0, 0, 0, 0, 0, 0, 0, 0,
        4, 0, 0, 0, 0, 0, 0, 0, 18, 0, 0, 0, 2, 0, 0, 0, 0, 0, 0, 0,
        0, 0, 0, 0, 112, 0, 0, 0, 192, 0, 0, 0, 5, 0, 0, 0, 7, 0, 0, 0,
        4, 0, 0, 0, 16, 0, 0, 0, 26, 0, 0, 0, 3, 0, 0, 0, 0, 0, 0, 0,
        0, 0, 0, 0, 48, 1, 0, 0, 92, 0, 0, 0, 0, 0, 0, 0, 0, 0, 0, 0,
        1, 0, 0, 0, 0, 0, 0, 0, 34, 0, 0, 0, 9, 0, 0, 0, 64, 0, 0, 0,
        0, 0, 0, 0, 140, 1, 0, 0, 56, 0, 0, 0, 4, 0, 0, 0, 1, 0, 0, 0,
        4, 0, 0, 0, 8, 0, 0, 0, 44, 0, 0, 0, 3, 0, 0, 0, 0, 0, 0, 0,
        0, 0, 0, 0, 196, 1, 0, 0, 54, 0, 0, 0, 0, 0, 0, 0, 0, 0, 0, 0,
        1, 0, 0, 0, 0, 0, 0, 0,
    ]
}

/// The image of that object, with `test` as its only exported function.
fn image() -> Vec<u8> {
    vec![
        1, 0, 0, 0, 4, 0, 0, 0, 84, 0, 0, 0, 52, 0, 0, 0, 8, 0, 0, 0,
        16, 0, 0, 0, 6, 0, 0, 0, 40, 0, 0, 0, 5, 0, 0, 0, 40, 0, 0, 0,
        5, 0, 0, 0, 44, 0, 0, 0, 4, 0, 0, 0, 48, 0, 0, 0, 1, 0, 0, 0,
        3, 0, 0, 0, 0, 0, 0, 48, 0, 0, 0, 0, 0, 0, 0, 0, 4, 0, 0, 0,
        0, 0, 0, 80, 1, 0, 0, 0, 17, 0, 0, 80, 33, 0, 0, 0, 22, 0, 0, 16,
        0, 0, 0, 0, 31, 0, 0, 32, 0, 0, 0, 0, 95, 95, 48, 57, 56, 102, 54, 98,
        99, 100, 95, 95, 116, 101, 115, 116, 0, 116, 101, 115, 116, 0, 71, 76, 79, 66, 65, 76,
        95, 88, 0, 105, 110, 99, 0, 0, 45, 233, 0, 66, 64, 242, 0, 11, 192, 242, 0, 11,
        0, 240, 0, 184, 64, 242, 0, 9, 192, 242, 0, 9, 216, 71, 189, 232, 0, 130, 112, 71,
        0, 191, 0, 191, 112, 71, 0, 191, 0, 0, 0, 0, 4, 0, 0, 0, 8, 0, 0, 0,
        20, 0, 0, 0, 31, 0, 0, 0,
    ]
}

/// A 64-bit object whose `.bss` takes four gibibytes.
fn wide_elf() -> Vec<u8> {
    vec![
        127, 69, 76, 70, 2, 1, 1, 0, 0, 0, 0, 0, 0, 0, 0, 0, 1, 0, 183, 0,
        1, 0, 0, 0, 0, 0, 0, 0, 0, 0, 0, 0, 0, 0, 0, 0, 0, 0, 0, 0,
        104, 0, 0, 0, 0, 0, 0, 0, 0, 0, 0, 0, 64, 0, 0, 0, 0, 0, 64, 0,
        5, 0, 4, 0, 112, 71, 0, 191, 1, 2, 3, 4, 0, 46, 116, 101, 120, 116, 0, 46,
        100, 97, 116, 97, 0, 46, 98, 115, 115, 0, 46, 115, 104, 115, 116, 114, 116, 97, 98, 0,
        0, 0, 0, 0, 0, 0, 0, 0, 0, 0, 0, 0, 0, 0, 0, 0, 0, 0, 0, 0,
        0, 0, 0, 0, 0, 0, 0, 0, 0, 0, 0, 0, 0, 0, 0, 0, 0, 0, 0, 0,
        0, 0, 0, 0, 0, 0, 0, 0, 0, 0, 0, 0, 0, 0, 0, 0, 0, 0, 0, 0,
        0, 0, 0, 0, 0, 0, 0, 0, 1, 0, 0, 0, 1, 0, 0, 0, 6, 0, 0, 0,
        0, 0, 0, 0, 0, 0, 0, 0, 0, 0, 0, 0, 64, 0, 0, 0, 0, 0, 0, 0,
        4, 0, 0, 0, 0, 0, 0, 0, 0, 0, 0, 0, 0, 0, 0, 0, 4, 0, 0, 0,
        0, 0, 0, 0, 0, 0, 0, 0, 0, 0, 0, 0, 7, 0, 0, 0, 1, 0, 0, 0,
        3, 0, 0, 0, 0, 0, 0, 0, 4, 0, 0, 0, 0, 0, 0, 0, 68, 0, 0, 0,
        0, 0, 0, 0, 4, 0, 0, 0, 0, 0, 0, 0, 0, 0, 0, 0, 0, 0, 0, 0,
        4, 0, 0, 0, 0, 0, 0, 0, 0, 0, 0, 0, 0, 0, 0, 0, 13, 0, 0, 0,
        8, 0, 0, 0, 3, 0, 0, 0, 0, 0, 0, 0, 8, 0, 0, 0, 0, 0, 0, 0,
        72, 0, 0, 0, 0, 0, 0, 0, 0, 0, 0, 0, 1, 0, 0, 0, 0, 0, 0, 0,
        0, 0, 0, 0, 4, 0, 0, 0, 0, 0, 0, 0, 0, 0, 0, 0, 0, 0, 0, 0,
        18, 0, 0, 0, 3, 0, 0, 0, 0, 0, 0, 0, 0, 0, 0, 0, 0, 0, 0, 0,
        0, 0, 0, 0, 72, 0, 0, 0, 0, 0, 0, 0, 28, 0, 0, 0, 0, 0, 0, 0,
        0, 0, 0, 0, 0, 0, 0, 0, 1, 0, 0, 0, 0, 0, 0, 0, 0, 0, 0, 0,
        0, 0, 0, 0,
    ]
}

const TAIL: &str = "__22884db1__module";

fn symbol(name: &str, global: bool, undefined: bool, section: Option<usize>, address: u64) -> ElfSymbol {
    ElfSymbol {
        name: name.to_string(),
        is_global: global,
        is_undefined: undefined,
        is_text: section == Some(1),
        is_file: false,
        section,
        address,
    }
}

fn raw(name: Option<&str>, global: bool, text: bool) -> RawSymbol {
    RawSymbol {
        name: name.map(|n| n.to_string()),
        is_global: global,
        is_undefined: false,
        is_text: text,
        is_file: false,
        section: Some(if text { 1 } else { 2 }),
        address: 8,
    }
}

fn relocation(offset: u32, name: &str) -> Relocation {
    Relocation {
        r_offset: offset,
        r_value: 0,
        r_info: 2,
        r_type: RelocationType::ABS32,
        name: name.to_string(),
    }
}

fn object() -> LinkedObject {
    LinkedObject {
        symbols: vec![
            symbol("f", true, false, Some(1), 1),
            symbol("G", true, false, Some(2), 8),
            symbol("ext", true, true, None, 0),
            symbol("loc", false, false, Some(2), 12),
        ],
        relocations: vec![relocation(0, "G"), relocation(4, "ext")],
        text: vec![0, 0, 0, 0, 4, 0, 0, 0],
        text_section: 1,
        data: vec![1, 2, 3, 4, 5, 6, 7, 8],
        l_bss: 0,
    }
}

#[test]
fn labels_carry_the_digest_of_the_name() {
    assert_eq!(trampoline_entry_name("test"), "__098f6bcd__test");
    assert_eq!(trampoline_entry_name("inc"), "__cf9f3fde__inc");
    assert_eq!(trampoline_entry_name("module"), TAIL);
    assert_eq!(trampoline_entry_name(""), "__d41d8cd9__");
}

#[test]
fn the_trampolines_are_written_out() {
    let source = compile_trampoline(&vec!["test".to_string(), "inc".to_string()], "module");
    let entry = |s: &str| {
        format!(
            "\n    .thumb_func\n    .align 4\n    .globl {s}\n    .type {s}, %function\n    .extern {m}\n    .type {s}, %function\n    {s}:\n    push    {{r9, lr}}\n    movw r11, #0\n    movt r11, #0\n    b {m}\n    .size {s}, . - {s}\n    ",
            s = s,
            m = TAIL
        )
    };
    let tail = format!(
        "\n    .thumb_func\n    .align 4\n    .globl {s}\n    .type {s}, %function\n    {s}:\n    movw r9, #0\n    movt r9, #0\n    blx r11\n    pop {{r9, pc}}\n    bx lr \n    .size {s}, . - {s}\n    ",
        s = TAIL
    );
    let expected = format!(
        "{}{}{}{}{}",
        "    .syntax unified\n    .arch armv7-m\n\n    .text\n    .thumb\n",
        entry("__098f6bcd__test"),
        entry("__cf9f3fde__inc"),
        tail,
        "\n    \n    .end\n"
    );
    assert_eq!(source, expected);
}

#[test]
fn an_object_without_functions_has_the_tail_only() {
    let source = compile_trampoline(&Vec::new(), "m");
    assert!(source.starts_with("    .syntax unified\n    .arch armv7-m\n\n    .text\n    .thumb\n\n    .thumb_func"));
    assert!(!source.contains("push"));
    assert!(source.ends_with("\n    \n    .end\n"));
}

#[test]
fn relocation_types_by_number() {
    assert_eq!(get_relocation_type(87), RelocationType::MOVW_BREL_NC);
    assert_eq!(get_relocation_type(88), RelocationType::MOVT_BREL);
    assert_eq!(get_relocation_type(10), RelocationType::CALL);
    assert_eq!(get_relocation_type(2), RelocationType::ABS32);
    assert_eq!(get_relocation_type(0), RelocationType::NONE);
    assert_eq!(get_relocation_type(30), RelocationType::NONE);
}

#[test]
fn symbols_are_tagged() {
    assert_eq!(get_symbol_type(&symbol("a", true, false, Some(1), 0)), Some(SymbolType::Exported));
    assert_eq!(get_symbol_type(&symbol("a", true, true, None, 0)), Some(SymbolType::External));
    assert_eq!(get_symbol_type(&symbol("a", false, false, Some(1), 0)), Some(SymbolType::Local));
    assert_eq!(get_symbol_type(&symbol("a", false, true, None, 0)), Some(SymbolType::Local));
    let mut file = symbol("a.c", false, false, None, 0);
    file.is_file = true;
    assert_eq!(get_symbol_type(&file), None);
    file.is_global = true;
    assert_eq!(get_symbol_type(&file), Some(SymbolType::Exported));
}

#[test]
fn public_functions_are_the_global_code_symbols() {
    let symbols = vec![
        raw(Some("a"), true, true),
        raw(Some("b"), false, true),
        raw(Some("c"), true, false),
        raw(None, false, true),
        raw(None, true, false),
        raw(Some("d"), true, true),
    ];
    assert_eq!(pub_funcs_of(&symbols), Ok(vec!["a".to_string(), "d".to_string()]));
    assert_eq!(symbols_of(symbols).unwrap_err(), ElfError::BadName);
    let symbols = vec![raw(Some("a"), true, true), raw(None, true, true)];
    assert_eq!(pub_funcs_of(&symbols), Err(ElfError::BadName));
    let named = symbols_of(vec![raw(Some("a"), true, true), raw(Some("b"), false, false)]).unwrap();
    assert_eq!(named.len(), 2);
    assert_eq!(named[1].name, "b");
    assert!(!named[1].is_global && !named[1].is_text);
    assert_eq!(named[1].section, Some(2));
    assert_eq!(named[1].address, 8);
    assert!(named[0].is_global && named[0].is_text);
    assert_eq!(
        get_pub_funcs(&elf()),
        Ok(vec!["__098f6bcd__test".to_string(), TAIL.to_string(), "test".to_string()])
    );
    assert_eq!(get_pub_funcs(&[1, 2, 3]), Err(ElfError::Malformed));
}

#[test]
fn relocations_are_read_and_joined() {
    let raw = read_relocations(&elf()).unwrap();
    let seen: Vec<(u32, u32, u32, &str, u32)> =
        raw.iter().map(|r| (r.r_offset, r.r_info, r.r_type, r.name.as_str(), r.value)).collect();
    assert_eq!(
        seen,
        vec![
            (40, 0xb57, 87, "inc", 0),
            (40, 0xb58, 88, "inc", 0),
            (12, 0x81e, 30, TAIL, 17),
            (44, 0xa02, 2, "GLOBAL_X", 52),
            (48, 0x602, 2, "counter", 56),
            (32, 0x90a, 10, "test", 33),
            (16, 0x802, 2, TAIL, 17),
        ]
    );
    assert_eq!(read_relocations(&[0x7f, b'E', b'L', b'F']).unwrap_err(), ElfError::Malformed);
}

#[test]
fn known_relocations_are_kept() {
    for name in ["module", TAIL] {
        let known = get_known_relocations(&elf(), name).unwrap();
        let seen: Vec<(u32, u32, u32, RelocationType, &str)> = known
            .iter()
            .map(|r| (r.r_offset, r.r_value, r.r_info, r.r_type, r.name.as_str()))
            .collect();
        assert_eq!(
            seen,
            vec![
                (40, 0, 0xb57, RelocationType::MOVW_BREL_NC, "inc"),
                (40, 0, 0xb58, RelocationType::MOVT_BREL, "inc"),
                (44, 52, 0xa02, RelocationType::ABS32, "GLOBAL_X"),
                (48, 56, 0x602, RelocationType::ABS32, "counter"),
            ]
        );
    }
    // with another name for the module, the reference to the tail stays
    let known = get_known_relocations(&elf(), "other").unwrap();
    assert_eq!(known.len(), 5);
    assert_eq!(known[4].name, TAIL);
    assert_eq!(known[4].r_offset, 16);
}

#[test]
fn a_function_that_refers_to_itself_keeps_its_relocation() {
    let raw = vec![RawRelocation {
        r_offset: 8,
        r_info: (9 << 8) | 2,
        r_type: 2,
        name: "test".to_string(),
        value: 33,
    }];
    let known = known_relocations_of(&raw, "module");
    assert_eq!(known.len(), 1);
    assert_eq!(known[0].name, "test");
    assert_eq!(known[0].r_type, RelocationType::ABS32);
    assert_eq!(known[0].r_value, 33);
    assert!(known_relocations_of(&raw, "st").is_empty());
}

#[test]
fn the_object_is_read() {
    let obj = read_object(&elf(), TAIL).unwrap();
    assert_eq!(obj.text.len(), 52);
    assert_eq!(obj.text_section, 1);
    assert_eq!(obj.data, vec![20, 0, 0, 0, 31, 0, 0, 0]);
    assert_eq!(obj.l_bss, 16);
    assert_eq!(obj.relocations.len(), 4);
    let names: Vec<&str> = obj.symbols.iter().map(|s| s.name.as_str()).collect();
    assert_eq!(
        names,
        vec![
            "module.c", "$t", "$d", "helper", "unused", "counter", "__098f6bcd__test", TAIL, "test",
            "GLOBAL_X", "inc",
        ]
    );
    assert!(obj.symbols[0].is_file);
    assert!(!obj.symbols[3].is_global && obj.symbols[3].is_text);
    assert_eq!(obj.symbols[3].section, Some(1));
    assert_eq!(obj.symbols[3].address, 37);
    assert!(obj.symbols[9].is_global && !obj.symbols[9].is_text && !obj.symbols[9].is_undefined);
    assert_eq!(obj.symbols[9].section, Some(2));
    assert_eq!(obj.symbols[9].address, 52);
    assert!(obj.symbols[10].is_undefined);
    assert_eq!(obj.symbols[10].section, None);
}

#[test]
fn an_object_without_data_is_refused() {
    // rename .data in the section name table
    let mut bytes = elf();
    let at = bytes.windows(5).position(|w| w == b".data").unwrap();
    bytes[at + 1] = b'x';
    assert_eq!(read_object(&bytes, TAIL).unwrap_err(), ElfError::MissingSection);
    assert_eq!(
        make_image(&bytes, vec!["test".to_string()], TAIL),
        Err(MakeError::Elf(ElfError::MissingSection))
    );
}

#[test]
fn zero_initialised_data_beyond_32_bits_is_refused() {
    assert_eq!(read_object(&wide_elf(), TAIL).unwrap_err(), ElfError::TooLarge);
    // the relocation tables of such an object are not those of a 32-bit one
    assert_eq!(read_relocations(&wide_elf()).unwrap_err(), ElfError::Malformed);
}

#[test]
fn a_symbol_name_that_is_not_utf8_is_refused() {
    let mut bytes = elf();
    let at = bytes.windows(8).position(|w| w == b"counter\0").unwrap();
    bytes[at] = 0xff;
    assert_eq!(read_relocations(&bytes).unwrap_err(), ElfError::BadName);
    assert_eq!(get_known_relocations(&bytes, TAIL).unwrap_err(), ElfError::BadName);
    assert_eq!(read_object(&bytes, TAIL).unwrap_err(), ElfError::BadName);
    assert_eq!(
        make_image(&bytes, vec!["test".to_string()], TAIL),
        Err(MakeError::Elf(ElfError::BadName))
    );
    // the symbol is no public function: its name is not looked at
    assert_eq!(
        get_pub_funcs(&bytes),
        Ok(vec!["__098f6bcd__test".to_string(), TAIL.to_string(), "test".to_string()])
    );
    // the name of a public function is
    let mut bytes = elf();
    let at = bytes.windows(6).position(|w| w == b"\0test\0").unwrap();
    bytes[at + 1] = 0xff;
    assert_eq!(get_pub_funcs(&bytes), Err(ElfError::BadName));
}

#[test]
fn a_pool_of_names_beyond_28_bits_is_refused() {
    let mut obj = object();
    obj.symbols[1].name = "n".repeat(0x1000_0000);
    obj.relocations.clear();
    assert_eq!(build_image(&obj, &Vec::new(), "module").unwrap_err(), BuildError::TooLarge);
}

#[test]
fn the_image_is_made() {
    assert_eq!(make_image(&elf(), vec!["test".to_string()], TAIL), Ok(image()));
}

#[test]
fn the_image_made_reads_back() {
    let bytes = make_image(&elf(), vec!["test".to_string()], TAIL).unwrap();
    let image = Image::decode(&bytes).unwrap();
    assert_eq!(image.header.n_funcs, 1);
    assert_eq!(image.header.n_reloc, 4);
    assert_eq!(image.header.l_symt, 84);
    assert_eq!(image.header.l_bss, 16);
    assert_eq!(image.header.n_symbol, 6);
    let table: Vec<(u8, u32, &str)> =
        image.symbols.iter().map(|s| (s.s_type, s.index1, s.s_name.as_str())).collect();
    assert_eq!(
        table,
        vec![
            (3, 0, ""),
            (0, 4, ""),
            (5, 1, "__098f6bcd__test"),
            (5, 33, "test"),
            (1, 0, "GLOBAL_X"),
            (2, 0, "inc"),
        ]
    );
    assert_eq!(image.funcs, vec![3]);
    let relocs: Vec<(u32, u32)> = image.relocs.iter().map(|r| (r.offset, r.symbol)).collect();
    assert_eq!(relocs, vec![(40, 5), (40, 5), (44, 4), (48, 1)]);
    // the names stored are the names of the global symbols that were admitted
    let mut stored: Vec<&str> =
        image.symbols.iter().filter(|s| s.s_type & 3 == 1 || s.s_type & 3 == 2).map(|s| s.s_name.as_str()).collect();
    stored.sort();
    assert_eq!(stored, vec!["GLOBAL_X", "__098f6bcd__test", "inc", "test"]);
    // the module's own name is in none of the records
    assert!(image.symbols.iter().all(|s| s.s_name != TAIL));
    assert!(!bytes.windows(6).any(|w| w == b"module"));
}

#[test]
fn a_function_that_is_no_symbol_fails_the_image() {
    assert_eq!(
        make_image(&elf(), vec!["nope".to_string()], TAIL),
        Err(MakeError::Build(BuildError::UnknownFunction))
    );
    // the tail is no symbol of the image
    assert_eq!(
        make_image(&elf(), vec![TAIL.to_string()], TAIL),
        Err(MakeError::Build(BuildError::UnknownFunction))
    );
    assert_eq!(make_image(&[], Vec::new(), TAIL), Err(MakeError::Elf(ElfError::Malformed)));
}

#[test]
fn the_catalog_has_each_name_once() {
    let symbols = vec![
        symbol("a", false, false, Some(2), 4),
        symbol("", false, false, Some(1), 0),
        symbol("$t", false, false, Some(1), 0),
        symbol("$d.1", false, false, Some(1), 0),
        symbol("b", true, false, Some(1), 9),
        symbol("self", true, false, Some(1), 17),
        symbol("a", true, true, None, 0),
        symbol("$x", false, false, Some(1), 3),
    ];
    let entries = make_catalog(&symbols, "self");
    let seen: Vec<(&str, SymbolType, Option<usize>, u64)> =
        entries.iter().map(|e| (e.name.as_str(), e.kind, e.section, e.address)).collect();
    assert_eq!(
        seen,
        vec![
            ("a", SymbolType::External, None, 0),
            ("b", SymbolType::Exported, Some(1), 9),
            ("$x", SymbolType::Local, Some(1), 3),
        ]
    );
}

#[test]
fn the_selection_keeps_what_the_image_needs() {
    let entry = |name: &str, kind: SymbolType| Entry {
        name: name.to_string(),
        kind,
        section: Some(2),
        address: 0,
    };
    let entries = vec![
        entry("a", SymbolType::Local),
        entry("b", SymbolType::Local),
        entry("c", SymbolType::Exported),
        entry("d", SymbolType::External),
    ];
    let picked = select(&entries, &vec![relocation(0, "b"), relocation(4, "zz")]);
    let names: Vec<&str> = picked.iter().map(|e| e.name.as_str()).collect();
    assert_eq!(names, vec!["b", "c", "d"]);
}

#[test]
fn an_image_is_built_of_plain_values() {
    let obj = object();
    let image = build_image(&obj, &vec!["f".to_string()], "module").unwrap();
    let table: Vec<(u8, u32, u32, &str)> =
        image.symbols.iter().map(|s| (s.s_type, s.index1, s.index2, s.s_name.as_str())).collect();
    // data payloads are counted from the end of the eight bytes of code
    assert_eq!(table, vec![(3, 0, 0, ""), (5, 1, 0, "f"), (1, 0, 0, "G"), (2, 0, 0, "ext")]);
    assert_eq!(image.funcs, vec![1]);
    let relocs: Vec<(u32, u32)> = image.relocs.iter().map(|r| (r.offset, r.symbol)).collect();
    assert_eq!(relocs, vec![(0, 2), (4, 3)]);
    // the pool holds f, G and ext with their terminators, eight bytes
    assert_eq!(image.header.l_symt, 4 * 8 + 8);
    assert_eq!(image.header.n_symbol, 4);
    assert_eq!(image.header.n_reloc, 2);
    assert_eq!(image.header.n_funcs, 1);
    assert_eq!(image.header.l_text, 8);
    assert_eq!(image.header.l_data, 8);
    let bytes = image.encode();
    let back = Image::decode(&bytes).unwrap();
    assert_eq!(back.header, image.header);
    assert_eq!(back.relocs, image.relocs);
    assert_eq!(back.funcs, image.funcs);
    assert_eq!(back.text, image.text);
    assert_eq!(back.data, image.data);
    let again: Vec<(u8, u32, u32, &str)> =
        back.symbols.iter().map(|s| (s.s_type, s.index1, s.index2, s.s_name.as_str())).collect();
    assert_eq!(again, table);
}

#[test]
fn a_local_symbol_that_is_referred_to_loses_its_name() {
    let mut obj = object();
    obj.relocations = vec![relocation(0, "loc")];
    let image = build_image(&obj, &Vec::new(), "module").unwrap();
    let table: Vec<(u8, u32, &str)> =
        image.symbols.iter().map(|s| (s.s_type, s.index1, s.s_name.as_str())).collect();
    assert_eq!(table, vec![(3, 0, ""), (5, 1, "f"), (1, 0, "G"), (2, 0, "ext"), (0, 4, "")]);
    assert_eq!(image.relocs[0].symbol, 4);
    assert_eq!(image.header.n_funcs, 0);
}

#[test]
fn what_cannot_be_built() {
    let funcs = vec!["f".to_string()];
    // a data symbol below the end of the code
    let mut obj = object();
    obj.symbols[1].address = 7;
    assert_eq!(build_image(&obj, &funcs, "module").unwrap_err(), BuildError::BadAddress);
    // an address beyond 32 bits
    let mut obj = object();
    obj.symbols[0].address = 0x1_0000_0000;
    assert_eq!(build_image(&obj, &funcs, "module").unwrap_err(), BuildError::BadAddress);
    // a relocation against a symbol that was not admitted
    let mut obj = object();
    obj.relocations.push(relocation(0, "$t"));
    assert_eq!(build_image(&obj, &funcs, "module").unwrap_err(), BuildError::UnknownSymbol);
    // a relocation outside the code
    let mut obj = object();
    obj.relocations[1].r_offset = 5;
    assert_eq!(build_image(&obj, &funcs, "module").unwrap_err(), BuildError::BadRelocation);
    // a relocation whose word selects no slot
    let mut obj = object();
    obj.text[4] = 8;
    assert_eq!(build_image(&obj, &funcs, "module").unwrap_err(), BuildError::BadRelocation);
    let mut obj = object();
    obj.text[0] = 2;
    assert_eq!(build_image(&obj, &funcs, "module").unwrap_err(), BuildError::BadRelocation);
    // a function that is no symbol
    let obj = object();
    assert_eq!(
        build_image(&obj, &vec!["g".to_string()], "module").unwrap_err(),
        BuildError::UnknownFunction
    );
    // the payload is looked at first, the function last
    let mut obj = object();
    obj.symbols[1].address = 7;
    assert_eq!(
        build_image(&obj, &vec!["g".to_string()], "module").unwrap_err(),
        BuildError::BadAddress
    );
}

#[test]
fn the_own_name_is_sifted_out() {
    let mut obj = object();
    obj.symbols.push(symbol("module", true, false, Some(1), 5));
    let image = build_image(&obj, &vec!["f".to_string()], "module").unwrap();
    assert!(image.symbols.iter().all(|s| s.s_name != "module"));
    assert_eq!(image.header.n_symbol, 4);
    // under another name for the module, the symbol is exported
    let image = build_image(&obj, &vec!["f".to_string()], "other").unwrap();
    assert_eq!(image.header.n_symbol, 5);
    assert_eq!(image.symbols[4].s_name, "module");
}
