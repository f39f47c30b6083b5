use dl_lib::image::{acquire_vec, parse_header, parse_symtable, Image, ImageError, ModuleHeader, RelocEntry};
use dl_lib::symbol::Symbol;

fn bin_def() -> Vec<u8> {
    vec![
        1, 0, 0, 0, 1, 0, 0, 0, 53, 0, 0, 0, 52, 0, 0, 0, 4, 0, 0, 0, 0, 0, 0, 0, 3, 0, 0, 0, 48,
        0, 0, 0, 2, 0, 0, 0, 1, 0, 0, 0, 0, 0, 0, 80, 1, 0, 0, 0, 16, 0, 0, 80, 33, 0, 0, 0, 20, 0,
        0, 16, 0, 0, 0, 0, 95, 95, 99, 102, 57, 102, 51, 102, 100, 101, 95, 95, 105, 110, 99, 0,
        105, 110, 99, 0, 71, 76, 79, 66, 65, 76, 95, 88, 0, 45, 233, 0, 66, 64, 242, 0, 11, 192,
        242, 0, 11, 0, 240, 0, 184, 64, 242, 0, 9, 192, 242, 0, 9, 216, 71, 189, 232, 0, 130, 112,
        71, 3, 75, 89, 248, 3, 48, 26, 104, 16, 68, 24, 96, 112, 71, 0, 191, 0, 0, 0, 0, 20, 0, 0,
        0,
    ]
}

fn bin_call() -> Vec<u8> {
    vec![
        1, 0, 0, 0, 3, 0, 0, 0, 84, 0, 0, 0, 84, 0, 0, 0, 8, 0, 0, 0, 0, 0, 0, 0, 5, 0, 0, 0, 72,
        0, 0, 0, 1, 0, 0, 0, 76, 0, 0, 0, 0, 0, 0, 0, 80, 0, 0, 0, 3, 0, 0, 0, 4, 0, 0, 0, 0, 0, 0,
        16, 0, 0, 0, 0, 9, 0, 0, 32, 0, 0, 0, 0, 13, 0, 0, 80, 1, 0, 0, 0, 30, 0, 0, 16, 4, 0, 0,
        0, 39, 0, 0, 80, 33, 0, 0, 0, 71, 76, 79, 66, 65, 76, 95, 90, 0, 105, 110, 99, 0, 95, 95,
        48, 57, 56, 102, 54, 98, 99, 100, 95, 95, 116, 101, 115, 116, 0, 71, 76, 79, 66, 65, 76,
        95, 89, 0, 116, 101, 115, 116, 0, 45, 233, 0, 66, 64, 242, 0, 11, 192, 242, 0, 11, 0, 240,
        0, 184, 64, 242, 0, 9, 192, 242, 0, 9, 216, 71, 189, 232, 0, 130, 112, 71, 8, 181, 9, 75,
        89, 248, 3, 48, 152, 71, 8, 74, 8, 75, 89, 248, 2, 32, 89, 248, 3, 48, 18, 104, 27, 104,
        16, 68, 192, 26, 176, 250, 128, 240, 64, 9, 8, 189, 0, 191, 0, 0, 0, 0, 4, 0, 0, 0, 8, 0,
        0, 0, 10, 0, 0, 0, 31, 0, 0, 0,
    ]
}

fn put(bytes: &mut Vec<u8>, at: usize, word: u32) {
    bytes[at..at + 4].copy_from_slice(&word.to_le_bytes());
}

#[test]
fn the_header_is_seven_words() {
    let bytes = bin_call();
    assert_eq!(
        parse_header(&bytes),
        Some(ModuleHeader {
            n_funcs: 1,
            n_reloc: 3,
            l_symt: 84,
            l_text: 84,
            l_data: 8,
            l_bss: 0,
            n_symbol: 5,
        })
    );
    assert_eq!(parse_header(&bytes[..28]).unwrap().n_symbol, 5);
    assert_eq!(parse_header(&bytes[..27]), None);
    let h = parse_header(&bytes).unwrap();
    assert_eq!(h.text_offset(), 28 + 24 + 4 + 84);
    assert_eq!(h.total_len(), bytes.len() as u64);
}

#[test]
fn the_cursor_moves_over_what_it_hands_out() {
    let buf = [1u8, 2, 3, 4, 5];
    let mut at = 1;
    assert_eq!(acquire_vec(&buf, &mut at, 3), Some(&buf[1..4]));
    assert_eq!(at, 4);
    assert_eq!(acquire_vec(&buf, &mut at, 2), None);
    assert_eq!(at, 4);
    assert_eq!(acquire_vec(&buf, &mut at, 1), Some(&buf[4..5]));
    assert_eq!(at, 5);
    assert_eq!(acquire_vec(&buf, &mut at, 0), Some(&buf[5..5]));
}

#[test]
fn the_symbol_table_is_parsed() {
    let bytes = bin_call();
    let table = &bytes[56..140];
    let symbols = parse_symtable(5, table).unwrap();
    let seen: Vec<(u8, u32, u32, &str)> =
        symbols.iter().map(|s| (s.s_type, s.index1, s.index2, s.s_name.as_str())).collect();
    assert_eq!(
        seen,
        vec![
            (1, 0, 0, "GLOBAL_Z"),
            (2, 0, 0, "inc"),
            (5, 1, 0, "__098f6bcd__test"),
            (1, 4, 0, "GLOBAL_Y"),
            (5, 33, 0, "test"),
        ]
    );
    assert_eq!(parse_symtable(11, table).unwrap_err(), ImageError::BadSymbolTable);
    assert_eq!(parse_symtable(0, table).unwrap().len(), 0);
}

#[test]
fn names_are_read_byte_by_byte() {
    // one exported symbol whose name holds a byte above 127
    let table = [0, 0, 0, 0x10, 7, 0, 0, 0, b'a', 0xe9, 0];
    let symbols = parse_symtable(1, &table).unwrap();
    assert_eq!(symbols[0].s_name, "a\u{e9}");
    assert_eq!(symbols[0].index1, 7);
}

#[test]
fn local_and_module_records_have_no_name() {
    // a local function, the module's record, and an exported symbol
    let table = [
        0, 0, 0, 0x40, 9, 0, 0, 0, 0, 0, 0, 0x30, 0, 0, 0, 0, 0, 0, 0, 0x10, 4, 0, 0, 0, b'x', 0,
    ];
    let symbols = parse_symtable(3, &table).unwrap();
    let seen: Vec<(u8, &str)> = symbols.iter().map(|s| (s.s_type, s.s_name.as_str())).collect();
    assert_eq!(seen, vec![(4, ""), (3, ""), (1, "x")]);
    assert!(symbols[0].is_function());
    assert_eq!(symbols[0].kind(), 0);
    assert!(!symbols[2].is_function());
    assert_eq!(symbols[1].kind(), 3);
}

#[test]
fn a_short_symbol_table_is_refused() {
    let mut bytes = bin_def();
    put(&mut bytes, 8, 23);
    assert_eq!(Image::decode(&bytes).unwrap_err(), ImageError::BadSymbolTable);
}

#[test]
fn a_name_outside_the_pool_is_refused() {
    // GLOBAL_X is moved to the end of the pool
    let mut bytes = bin_def();
    put(&mut bytes, 56, 0x1000_0000 | 29);
    assert_eq!(Image::decode(&bytes).unwrap_err(), ImageError::BadName);
    // bit 31 belongs to the offset
    let mut bytes = bin_def();
    put(&mut bytes, 56, 0x9000_0014);
    assert_eq!(Image::decode(&bytes).unwrap_err(), ImageError::BadName);
    // the last name loses its terminator
    let mut bytes = bin_def();
    assert_eq!(bytes[92], 0);
    bytes[92] = b'!';
    assert_eq!(Image::decode(&bytes).unwrap_err(), ImageError::BadName);
    // a local symbol has no name to go wrong
    let mut bytes = bin_def();
    put(&mut bytes, 56, 29);
    assert_eq!(Image::decode(&bytes).unwrap().symbols[2].s_name, "");
}

#[test]
fn a_relocation_out_of_order_is_refused() {
    // no such symbol
    let mut bytes = bin_def();
    put(&mut bytes, 32, 3);
    assert_eq!(Image::decode(&bytes).unwrap_err(), ImageError::BadRelocation);
    // outside the code
    let mut bytes = bin_def();
    put(&mut bytes, 28, 49);
    assert_eq!(Image::decode(&bytes).unwrap_err(), ImageError::BadRelocation);
    // the word selects a slot behind the table
    let mut bytes = bin_def();
    put(&mut bytes, 93 + 48, 4);
    assert_eq!(Image::decode(&bytes).unwrap_err(), ImageError::BadRelocation);
    // the word selects half a slot
    let mut bytes = bin_def();
    put(&mut bytes, 93 + 48, 2);
    assert_eq!(Image::decode(&bytes).unwrap_err(), ImageError::BadRelocation);
    // the last word of the code is still inside
    let mut bytes = bin_def();
    put(&mut bytes, 28, 48);
    assert!(Image::decode(&bytes).is_ok());
}

#[test]
fn a_function_that_is_no_symbol_is_refused() {
    let mut bytes = bin_def();
    put(&mut bytes, 36, 3);
    assert_eq!(Image::decode(&bytes).unwrap_err(), ImageError::BadFunction);
}

#[test]
fn the_checks_come_in_order() {
    // a bad function and a bad relocation: the relocation is reported
    let mut bytes = bin_def();
    put(&mut bytes, 36, 3);
    put(&mut bytes, 32, 3);
    assert_eq!(Image::decode(&bytes).unwrap_err(), ImageError::BadRelocation);
    // and a bad name before both
    put(&mut bytes, 56, 0x1000_0000 | 29);
    assert_eq!(Image::decode(&bytes).unwrap_err(), ImageError::BadName);
}

#[test]
fn bytes_behind_the_data_are_not_looked_at() {
    let mut bytes = bin_def();
    bytes.extend([1, 2, 3]);
    let image = Image::decode(&bytes).unwrap();
    assert_eq!(image.data, &[20, 0, 0, 0]);
}

#[test]
fn an_image_without_functions_is_an_image() {
    let header = ModuleHeader { n_funcs: 0, n_reloc: 0, l_symt: 0, l_text: 0, l_data: 0, l_bss: 0, n_symbol: 0 };
    let image = Image { header, relocs: Vec::new(), funcs: Vec::new(), symbols: Vec::new(), text: &[], data: &[] };
    let bytes = image.encode();
    assert_eq!(bytes, vec![0u8; 28]);
    let back = Image::decode(&bytes).unwrap();
    assert_eq!(back.header, header);
    assert!(back.funcs.is_empty());
}

#[test]
fn writing_what_was_read_gives_the_same_bytes() {
    let bytes = bin_call();
    let image = Image::decode(&bytes).unwrap();
    assert_eq!(image.encode(), bytes);
}

#[test]
fn reading_what_was_written_gives_the_same_image() {
    let text = [0u8, 0, 0, 0, 0xaa, 0xbb, 0xcc, 0xdd];
    let data = [9u8, 8, 7];
    let symbol = |s_type: u8, index1: u32, name: &str| Symbol {
        s_type,
        index1,
        index2: 0,
        s_name: name.to_string(),
    };
    let image = Image {
        // two records, a pool of "ab\0" and "c\0", three bytes of padding
        header: ModuleHeader { n_funcs: 2, n_reloc: 1, l_symt: 24 + 8, l_text: 8, l_data: 3, l_bss: 5, n_symbol: 3 },
        relocs: vec![RelocEntry { offset: 0, symbol: 2 }],
        funcs: vec![1, 1],
        symbols: vec![symbol(3, 0, ""), symbol(5, 5, "ab"), symbol(2, 0, "c")],
        text: &text,
        data: &data,
    };
    let bytes = image.encode();
    let mut expected = Vec::new();
    for word in [2u32, 1, 32, 8, 3, 5, 3, 0, 2, 1, 1, 0x3000_0000, 0, 0x5000_0000, 5, 0x2000_0003, 0] {
        expected.extend(word.to_le_bytes());
    }
    expected.extend(b"ab\0c\0\0\0\0");
    expected.extend(text);
    expected.extend(data);
    assert_eq!(bytes, expected);
    let back = Image::decode(&bytes).unwrap();
    assert_eq!(back.header, image.header);
    assert_eq!(back.relocs, image.relocs);
    assert_eq!(back.funcs, image.funcs);
    assert_eq!(back.text, image.text);
    assert_eq!(back.data, image.data);
    let seen: Vec<(u8, u32, u32, &str)> =
        back.symbols.iter().map(|s| (s.s_type, s.index1, s.index2, s.s_name.as_str())).collect();
    assert_eq!(seen, vec![(3, 0, 0, ""), (5, 5, 0, "ab"), (2, 0, 0, "c")]);
}
