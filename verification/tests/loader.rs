use dl_lib::image::{Image, ImageError};
use dl_lib::module::{LoadError, Module};
use dl_lib::plt::generate_plt;
use dl_lib::registry::{Range, Registry};

fn bin_def() -> Vec<u8> {
    vec![
        1, 0, 0, 0, 1, 0, 0, 0, 53, 0, 0, 0, 52, 0, 0, 0, 4, 0, 0, 0, 0, 0, 0, 0, 3, 0, 0, 0, 48,
        0, 0, 0, 2, 0, 0, 0, 1, 0, 0, 0, 0, 0, 0, 80, 1, 0, 0, 0, 16, 0, 0, 80, 33, 0, 0, 0, 20, 0,
        0, 16, 0, 0, 0, 0, 95, 95, 99, 102, 57, 102, 51, 102, 100, 101, 95, 95, 105, 110, 99, 0,
        105, 110, 99, 0, 71, 76, 79, 66, 65, 76, 95, 88, 0, 45, 233, 0, 66, 64, 242, 0, 11, 192,
        242, 0, 11, 0, 240, 0, 184, 64, 242, 0, 9, 192, 242, 0, 9, 216, 71, 189, 232, 0, 130, 112,
        71, 3, 75, 89, 248, 3, 48, 26, 104, 16, 68, 24, 96, 112, 71, 0, 191, 0, 0, 0, 0, 20, 0, 0,
        0,
    ]
}

fn bin_call() -> Vec<u8> {
    vec![
        1, 0, 0, 0, 3, 0, 0, 0, 84, 0, 0, 0, 84, 0, 0, 0, 8, 0, 0, 0, 0, 0, 0, 0, 5, 0, 0, 0, 72,
        0, 0, 0, 1, 0, 0, 0, 76, 0, 0, 0, 0, 0, 0, 0, 80, 0, 0, 0, 3, 0, 0, 0, 4, 0, 0, 0, 0, 0, 0,
        16, 0, 0, 0, 0, 9, 0, 0, 32, 0, 0, 0, 0, 13, 0, 0, 80, 1, 0, 0, 0, 30, 0, 0, 16, 4, 0, 0,
        0, 39, 0, 0, 80, 33, 0, 0, 0, 71, 76, 79, 66, 65, 76, 95, 90, 0, 105, 110, 99, 0, 95, 95,
        48, 57, 56, 102, 54, 98, 99, 100, 95, 95, 116, 101, 115, 116, 0, 71, 76, 79, 66, 65, 76,
        95, 89, 0, 116, 101, 115, 116, 0, 45, 233, 0, 66, 64, 242, 0, 11, 192, 242, 0, 11, 0, 240,
        0, 184, 64, 242, 0, 9, 192, 242, 0, 9, 216, 71, 189, 232, 0, 130, 112, 71, 8, 181, 9, 75,
        89, 248, 3, 48, 152, 71, 8, 74, 8, 75, 89, 248, 2, 32, 89, 248, 3, 48, 18, 104, 27, 104,
        16, 68, 192, 26, 176, 250, 128, 240, 64, 9, 8, 189, 0, 191, 0, 0, 0, 0, 4, 0, 0, 0, 8, 0,
        0, 0, 10, 0, 0, 0, 31, 0, 0, 0,
    ]
}

#[test]
fn decode_reads_the_definition_image() {
    let bytes = bin_def();
    let image = Image::decode(&bytes).unwrap();
    assert_eq!(image.header.n_funcs, 1);
    assert_eq!(image.header.n_reloc, 1);
    assert_eq!(image.header.l_symt, 53);
    assert_eq!(image.header.l_text, 52);
    assert_eq!(image.header.l_data, 4);
    assert_eq!(image.header.l_bss, 0);
    assert_eq!(image.header.n_symbol, 3);
    assert_eq!(image.relocs.len(), 1);
    assert_eq!(image.relocs[0].offset, 48);
    assert_eq!(image.relocs[0].symbol, 2);
    assert_eq!(image.funcs, vec![1]);
    let names: Vec<&str> = image.symbols.iter().map(|s| s.s_name.as_str()).collect();
    assert_eq!(names, vec!["__cf9f3fde__inc", "inc", "GLOBAL_X"]);
    assert_eq!(image.symbols[0].s_type, 5);
    assert_eq!(image.symbols[1].s_type, 5);
    assert_eq!(image.symbols[1].index1, 33);
    assert_eq!(image.symbols[2].s_type, 1);
    assert_eq!(image.symbols[2].index1, 0);
    assert_eq!(image.text.len(), 52);
    assert_eq!(image.data, &[20, 0, 0, 0]);
}

#[test]
fn decode_rejects_a_truncated_image() {
    let bytes = bin_def();
    assert_eq!(Image::decode(&bytes[..27]).unwrap_err(), ImageError::Truncated);
    assert_eq!(Image::decode(&bytes[..bytes.len() - 1]).unwrap_err(), ImageError::Truncated);
}

#[test]
fn two_modules_resolve_across_the_boundary() {
    let def_bytes = bin_def();
    let call_bytes = bin_call();
    let def_image = Image::decode(&def_bytes).unwrap();
    let call_image = Image::decode(&call_bytes).unwrap();
    let mut registry = Registry::new();

    let mut def =
        Module::allocate(&def_image, 0x0800_0000, 0x2000_0000, 0x2000_0100, 0x2000_0200, &mut registry)
            .unwrap()
            .module;
    let def_regions = def.resolve(&def_image, None).unwrap();
    // text of the definition starts behind header, tables and names
    assert_eq!(def.ptrs.text_begin, 0x0800_0000 + 28 + 8 + 4 + 53);
    assert_eq!(def.ptrs.text_end, def.ptrs.text_begin + 52);
    // GLOBAL_X is exported data at offset 0
    assert_eq!(def_regions.got, 0x2000_0200u32.to_le_bytes().to_vec());
    assert_eq!(def_regions.plt.len(), 80);
    assert_eq!(def.entry_by_name("inc"), Some(0x2000_0100 + 1));
    assert_eq!(def.sym_table[1].index2, 0x2000_0100 + 20 + 1);
    assert_eq!(def.entry_by_name("GLOBAL_X"), None);
    assert_eq!(def.entry_by_name("missing"), None);

    let mut call = Module::allocate(
        &call_image,
        0x0800_1000,
        0x2000_1000,
        0x2000_1100,
        0x2000_1200,
        &mut registry,
    )
    .unwrap()
            .module;
    let deps = vec![def];
    let call_regions = call.resolve(&call_image, Some(&deps)).unwrap();
    let mut got = Vec::new();
    // slot 0: inc, provided by the definition's cross-boundary slot
    got.extend(&(0x2000_0100u32 + 20 + 1).to_le_bytes());
    // slot 4: GLOBAL_Z, exported data at offset 0
    got.extend(&0x2000_1200u32.to_le_bytes());
    // slot 8: GLOBAL_Y, exported data at offset 4
    got.extend(&0x2000_1204u32.to_le_bytes());
    assert_eq!(call_regions.got, got);
    let entry = call.entry_by_name("test").unwrap();
    assert_eq!(entry & 1, 1);
    assert_eq!(entry, 0x2000_1100 + 1);

    assert_eq!(
        registry.ranges,
        vec![
            Range { start: deps[0].ptrs.text_begin, end: deps[0].ptrs.text_end, base: 0x2000_0000 },
            Range { start: call.ptrs.text_begin, end: call.ptrs.text_end, base: 0x2000_1000 },
        ]
    );
    assert_eq!(registry.base_of(call.ptrs.text_begin + 10), 0x2000_1000);
    assert_eq!(registry.base_of(call.ptrs.text_end), 0);
}

#[test]
fn an_unresolved_external_leaves_its_slot_zero() {
    let call_bytes = bin_call();
    let call_image = Image::decode(&call_bytes).unwrap();
    let mut registry = Registry::new();
    let mut call = Module::allocate(
        &call_image,
        0x0800_1000,
        0x2000_1000,
        0x2000_1100,
        0x2000_1200,
        &mut registry,
    )
    .unwrap()
            .module;
    let regions = call.resolve(&call_image, None).unwrap();
    assert_eq!(&regions.got[0..4], &[0, 0, 0, 0]);
    assert_eq!(&regions.got[4..8], &0x2000_1200u32.to_le_bytes());
}

#[test]
fn the_linkage_table_is_laid_out() {
    let def_bytes = bin_def();
    let image = Image::decode(&def_bytes).unwrap();
    let mut registry = Registry::new();
    let mut module =
        Module::allocate(&image, 0x0800_0000, 0x2000_0000, 0x2000_0100, 0x2000_0200, &mut registry)
            .unwrap()
            .module;
    let regions = module.resolve(&image, None).unwrap();
    // inc lies at 33 in the code, which starts at 0x0800005d
    let entry = (0x0800_005du32 + 33).to_le_bytes();
    let mut plt = vec![
        0xdf, 0xf8, 0x08, 0xc0, // ldr.w r12, [pc, #8]
        0xdf, 0xf8, 0x08, 0x90, // ldr.w r9, [pc, #8]
        0x60, 0x47, // bx r12
        0x70, 0x47, // bx lr
    ];
    plt.extend(entry);
    plt.extend(0x2000_0000u32.to_le_bytes());
    plt.extend([0x00, 0xdf]);
    plt.extend(0x2000_0000u32.to_le_bytes());
    plt.extend(entry);
    plt.extend([0u8; 50]);
    assert_eq!(regions.plt, plt);
    assert_eq!(generate_plt(&vec![entry], 60, 0x2000_0000), plt);
    assert_eq!(generate_plt(&Vec::new(), 60, 0x2000_0000), Vec::<u8>::new());
    assert_eq!(generate_plt(&vec![entry], 10, 1).len(), 30);
}

#[test]
fn resolving_again_gives_the_same_tables() {
    let def_bytes = bin_def();
    let call_bytes = bin_call();
    let def_image = Image::decode(&def_bytes).unwrap();
    let call_image = Image::decode(&call_bytes).unwrap();
    let mut registry = Registry::new();
    let mut def =
        Module::allocate(&def_image, 0x0800_0000, 0x2000_0000, 0x2000_0100, 0x2000_0200, &mut registry)
            .unwrap()
            .module;
    def.resolve(&def_image, None).unwrap();
    let mut call = Module::allocate(
        &call_image,
        0x0800_1000,
        0x2000_1000,
        0x2000_1100,
        0x2000_1200,
        &mut registry,
    )
    .unwrap()
            .module;
    let deps = vec![def];
    let first = call.resolve(&call_image, Some(&deps)).unwrap();
    let entry = call.entry_by_name("test");
    let second = call.resolve(&call_image, Some(&deps)).unwrap();
    assert_eq!(first.got, second.got);
    assert_eq!(first.plt, second.plt);
    assert_eq!(call.entry_by_name("test"), entry);
}

#[test]
fn the_first_dependency_that_has_the_symbol_provides_it() {
    let def_bytes = bin_def();
    let call_bytes = bin_call();
    let def_image = Image::decode(&def_bytes).unwrap();
    let call_image = Image::decode(&call_bytes).unwrap();
    let mut registry = Registry::new();
    let mut one =
        Module::allocate(&def_image, 0x0800_0000, 0x2000_0000, 0x2000_0100, 0x2000_0200, &mut registry)
            .unwrap()
            .module;
    one.resolve(&def_image, None).unwrap();
    let mut two =
        Module::allocate(&def_image, 0x0800_4000, 0x2000_4000, 0x2000_4100, 0x2000_4200, &mut registry)
            .unwrap()
            .module;
    two.resolve(&def_image, None).unwrap();
    let mut call = Module::allocate(
        &call_image,
        0x0800_1000,
        0x2000_1000,
        0x2000_1100,
        0x2000_1200,
        &mut registry,
    )
    .unwrap()
            .module;
    let deps = vec![one, two];
    let regions = call.resolve(&call_image, Some(&deps)).unwrap();
    assert_eq!(&regions.got[0..4], &(0x2000_0100u32 + 21).to_le_bytes());
    let deps = vec![deps.into_iter().nth(1).unwrap()];
    let regions = call.resolve(&call_image, Some(&deps)).unwrap();
    assert_eq!(&regions.got[0..4], &(0x2000_4100u32 + 21).to_le_bytes());
}

#[test]
fn a_module_without_functions_has_no_entries() {
    let mut bytes = bin_def();
    // no functions: the table of functions goes, and the header says so
    bytes[0] = 0;
    bytes.drain(36..40);
    let image = Image::decode(&bytes).unwrap();
    assert_eq!(image.header.n_funcs, 0);
    let mut registry = Registry::new();
    let mut module =
        Module::allocate(&image, 0x0800_0000, 0x2000_0000, 0x2000_0100, 0x2000_0200, &mut registry)
            .unwrap()
            .module;
    let regions = module.resolve(&image, None).unwrap();
    assert_eq!(regions.plt.len(), 0);
    assert_eq!(regions.got.len(), 4);
    for name in ["inc", "__cf9f3fde__inc", "GLOBAL_X", ""] {
        assert_eq!(module.entry_by_name(name), None);
    }
}

#[test]
fn what_cannot_be_laid_out_or_resolved() {
    let bytes = bin_def();
    let image = Image::decode(&bytes).unwrap();
    let mut registry = Registry::new();
    let lay = |base: u32, got: u32, plt: u32, data: u32, registry: &mut Registry| {
        Module::allocate(&image, base, got, plt, data, registry).map(|a| a.module.ptrs)
    };
    let r = &mut registry;
    assert_eq!(lay(0, 0x2000_0000, 0, 0x2000_0200, r), Err(LoadError::NullRegion));
    assert_eq!(lay(0, 0x2000_0000, 0x2000_0100, 0, r), Err(LoadError::NullRegion));
    assert_eq!(lay(0, 0x2000_0002, 0x2000_0100, 0x2000_0200, r), Err(LoadError::Misaligned));
    assert_eq!(lay(0, 0x2000_0000, 0x2000_0101, 0x2000_0200, r), Err(LoadError::Misaligned));
    assert_eq!(lay(0, 0x2000_0000, 0x2000_0100, 0x2000_0203, r), Err(LoadError::Misaligned));
    // the code ends 145 bytes behind the start of the image
    assert_eq!(
        lay(0xffff_ff6f, 0x2000_0000, 0x2000_0100, 0x2000_0200, r),
        Err(LoadError::AddressOverflow)
    );
    assert_eq!(lay(0, 0xffff_fffc, 0x2000_0100, 0x2000_0200, r), Err(LoadError::AddressOverflow));
    assert_eq!(lay(0, 0x2000_0000, 0xffff_ffb0, 0x2000_0200, r), Err(LoadError::AddressOverflow));
    assert_eq!(lay(0, 0x2000_0000, 0x2000_0100, 0xffff_fffc, r), Err(LoadError::AddressOverflow));
    assert!(r.ranges.is_empty());
    let ptrs = lay(0xffff_ff6e, 0xffff_fff8, 0xffff_ffa0, 0xffff_fff0, r).unwrap();
    assert_eq!(ptrs.text_begin, 0xffff_ff6e + 93);
    assert_eq!(ptrs.text_end, 0xffff_ffff);
    assert_eq!(r.ranges.len(), 1);

    let mut module =
        Module::allocate(&image, 0x0800_0000, 0x2000_0000, 0x2000_0100, 0x2000_0200, &mut registry)
            .unwrap()
            .module;
    module.sym_table.pop();
    assert_eq!(module.resolve(&image, None).map(|_| ()), Err(LoadError::TableMismatch));
    // a data region so high that GLOBAL_X plus its base would pass 32 bits
    let mut wide = bin_def();
    wide[60..64].copy_from_slice(&8u32.to_le_bytes());
    let image = Image::decode(&wide).unwrap();
    let mut module =
        Module::allocate(&image, 0x0800_1000, 0x2000_0000, 0x2000_0100, 0xffff_fff8, &mut registry)
            .unwrap()
            .module;
    let before: Vec<u32> = module.sym_table.iter().map(|s| s.index1).collect();
    assert_eq!(module.resolve(&image, None).map(|_| ()), Err(LoadError::AddressOverflow));
    let after: Vec<u32> = module.sym_table.iter().map(|s| s.index1).collect();
    assert_eq!(before, after);
}

#[test]
fn regions_that_share_a_byte_are_refused() {
    // one relocation, one function, four bytes of data
    let bytes = bin_def();
    let image = Image::decode(&bytes).unwrap();
    let mut registry = Registry::new();
    let lay = |got: u32, plt: u32, data: u32, registry: &mut Registry| {
        Module::allocate(&image, 0x0800_0000, got, plt, data, registry).map(|a| a.module.ptrs)
    };
    let r = &mut registry;
    assert_eq!(lay(0x2000_0000, 0x2000_0000, 0x2000_0000, r), Err(LoadError::RegionOverlap));
    assert_eq!(lay(0x2000_0000, 0x2000_0100, 0x2000_0000, r), Err(LoadError::RegionOverlap));
    assert_eq!(lay(0x2000_0000, 0x2000_0100, 0x2000_014c, r), Err(LoadError::RegionOverlap));
    assert_eq!(lay(0x2000_0104, 0x2000_0100, 0x2000_0000, r), Err(LoadError::RegionOverlap));
    assert_eq!(lay(0x2000_0000, 0x2000_0004, 0x2000_0050, r), Err(LoadError::RegionOverlap));
    assert!(r.ranges.is_empty());
    // side by side
    assert!(lay(0x2000_0000, 0x2000_0004, 0x2000_0054, r).is_ok());
    assert_eq!(r.ranges.len(), 1);

    // an image without relocations and functions has two empty regions
    let mut empty = bin_def();
    empty[0] = 0;
    empty[4] = 0;
    empty.drain(28..40);
    let image = Image::decode(&empty).unwrap();
    let mut registry = Registry::new();
    let laid_out =
        Module::allocate(&image, 0x0800_0000, 0x2000_0000, 0x2000_0000, 0x2000_0000, &mut registry);
    assert!(laid_out.is_ok());
}

#[test]
fn code_that_is_laid_out_twice_is_refused() {
    let bytes = bin_def();
    let image = Image::decode(&bytes).unwrap();
    let mut registry = Registry::new();
    Module::allocate(&image, 0x0800_0000, 0x2000_0000, 0x2000_0100, 0x2000_0200, &mut registry)
        .unwrap();
    let again =
        Module::allocate(&image, 0x0800_0000, 0x2000_1000, 0x2000_1100, 0x2000_1200, &mut registry);
    assert_eq!(again.unwrap_err(), LoadError::CodeOverlap);
    // the code takes the 52 bytes from 93 on
    let near =
        Module::allocate(&image, 0x0800_0033, 0x2000_1000, 0x2000_1100, 0x2000_1200, &mut registry);
    assert_eq!(near.unwrap_err(), LoadError::CodeOverlap);
    assert_eq!(registry.ranges.len(), 1);
    Module::allocate(&image, 0x0800_0034, 0x2000_1000, 0x2000_1100, 0x2000_1200, &mut registry)
        .unwrap();
    assert_eq!(registry.ranges.len(), 2);
    for addr in 0x0800_0000u32..0x0800_0200 {
        assert!(registry.ranges.iter().filter(|r| r.contains(addr)).count() <= 1);
    }
}

#[test]
fn of_two_relocations_for_one_slot_the_later_stays() {
    // a second relocation, for the same slot, against inc
    let mut bytes = bin_def();
    bytes[4] = 2;
    let mut grown = bytes[..36].to_vec();
    grown.extend([48, 0, 0, 0, 1, 0, 0, 0]);
    grown.extend(&bytes[36..]);
    let image = Image::decode(&grown).unwrap();
    assert_eq!(image.relocs.len(), 2);
    let mut registry = Registry::new();
    let mut module =
        Module::allocate(&image, 0x0800_0000, 0x2000_0000, 0x2000_0100, 0x2000_0200, &mut registry)
            .unwrap()
            .module;
    let regions = module.resolve(&image, None).unwrap();
    assert_eq!(regions.got.len(), 8);
    // inc: the code starts at 0x08000065 now
    assert_eq!(&regions.got[0..4], &(0x0800_0065u32 + 33).to_le_bytes());
    assert_eq!(&regions.got[4..8], &[0, 0, 0, 0]);
}

#[test]
fn at_most_one_module_owns_an_address() {
    let def_bytes = bin_def();
    let call_bytes = bin_call();
    let def_image = Image::decode(&def_bytes).unwrap();
    let call_image = Image::decode(&call_bytes).unwrap();
    let mut registry = Registry::new();
    Module::allocate(&def_image, 0x0800_0000, 0x2000_0000, 0x2000_0100, 0x2000_0200, &mut registry)
        .unwrap();
    let next = Range { start: 0x0800_0095 + 140, end: 0x0800_0095 + 224, base: 0x2000_1000 };
    assert!(registry.is_apart(next));
    Module::allocate(&call_image, 0x0800_0095, 0x2000_1000, 0x2000_1100, 0x2000_1200, &mut registry)
        .unwrap();
    assert_eq!(registry.ranges[1], next);
    for addr in 0x0800_0000u32..0x0800_0200 {
        let owners = registry.ranges.iter().filter(|r| r.contains(addr)).count();
        assert!(owners <= 1);
        let base = registry.ranges.iter().find(|r| r.contains(addr)).map(|r| r.base).unwrap_or(0);
        assert_eq!(registry.base_of(addr), base);
    }
}

#[test]
fn ranges_that_lie_apart() {
    let mut registry = Registry::new();
    registry.push(Range { start: 100, end: 200, base: 1 });
    registry.push(Range { start: 300, end: 300, base: 2 });
    assert!(registry.is_apart(Range { start: 200, end: 300, base: 3 }));
    assert!(registry.is_apart(Range { start: 0, end: 100, base: 3 }));
    assert!(registry.is_apart(Range { start: 150, end: 150, base: 3 }));
    assert!(!registry.is_apart(Range { start: 199, end: 201, base: 3 }));
    assert!(!registry.is_apart(Range { start: 0, end: 101, base: 3 }));
    assert!(Range { start: 100, end: 200, base: 1 }.contains(100));
    assert!(!Range { start: 100, end: 200, base: 1 }.contains(200));
    assert_eq!(Range { start: 100, end: 200, base: 7 }.base(), 7);
    registry.push(Range { start: 150, end: 250, base: 4 });
    // the first range that holds the address gives the base
    assert_eq!(registry.base_of(160), 1);
    assert_eq!(registry.base_of(210), 4);
    assert_eq!(registry.base_of(300), 0);
}

#[test]
fn the_regions_start_out_as_zeros_and_as_the_data_of_the_image() {
    let bytes = bin_call();
    let image = Image::decode(&bytes).unwrap();
    let mut registry = Registry::new();
    let laid_out =
        Module::allocate(&image, 0x0800_1000, 0x2000_1000, 0x2000_1100, 0x2000_1200, &mut registry)
            .unwrap();
    assert_eq!(laid_out.got, vec![0u8; 12]);
    assert_eq!(laid_out.data, vec![10, 0, 0, 0, 31, 0, 0, 0]);
    assert_eq!(laid_out.module.ptrs.got_begin, 0x2000_1000);
    assert_eq!(laid_out.module.ptrs.plt_begin, 0x2000_1100);
    assert_eq!(laid_out.module.ptrs.data_begin, 0x2000_1200);
    assert_eq!(laid_out.module.sym_table.len(), 5);
    assert_eq!(image.header.got_len(), 12);
    assert_eq!(image.header.plt_len(), 80);
    assert!(image.is_wf());
    assert!(image.is_canonical());
    // the other image has a symbol table that is not padded
    let bytes = bin_def();
    let image = Image::decode(&bytes).unwrap();
    assert!(image.is_wf());
    assert!(!image.is_canonical());
}

#[test]
fn an_image_out_of_order_is_told() {
    let bytes = bin_def();
    let mut image = Image::decode(&bytes).unwrap();
    image.funcs[0] = 3;
    assert!(!image.is_wf());
    image.funcs[0] = 2;
    assert!(image.is_wf());
    image.relocs[0].offset = 49;
    assert!(!image.is_wf());
    image.relocs[0].offset = 44;
    assert!(!image.is_wf());
    image.relocs[0].offset = 48;
    image.relocs[0].symbol = 3;
    assert!(!image.is_wf());
    image.relocs[0].symbol = 0;
    assert!(image.is_wf());
    image.relocs.pop();
    assert!(!image.is_wf());
    image.header.n_reloc = 0;
    assert!(image.is_wf());
    image.header.l_symt = 23;
    assert!(!image.is_wf());
    image.header.l_symt = 56;
    assert!(image.is_canonical());
    image.symbols[0].s_type = 8;
    assert!(!image.is_canonical());
}

#[test]
fn allocate_rejects_a_null_region() {
    let bytes = bin_def();
    let image = Image::decode(&bytes).unwrap();
    let mut registry = Registry::new();
    let r = Module::allocate(&image, 0x0800_0000, 0, 0x2000_0100, 0x2000_0200, &mut registry);
    assert_eq!(r.unwrap_err(), LoadError::NullRegion);
    assert!(registry.ranges.is_empty());
}

#[test]
fn val_by_name_reads_the_data_as_it_is_now() {
    let bytes = bin_call();
    let image = Image::decode(&bytes).unwrap();
    let mut registry = Registry::new();
    let laid_out =
        Module::allocate(&image, 0x0800_1000, 0x2000_1000, 0x2000_1100, 0x2000_1200, &mut registry)
            .unwrap();
    // the module has run and changed its variables
    let mut live = laid_out.data.clone();
    live[0] = 31;
    live[4..8].copy_from_slice(&23_456_789u32.to_le_bytes());
    let z = laid_out.module.val_by_name("GLOBAL_Z", &live, |b: &[u8]| {
        u8::from_le_bytes(b.try_into().unwrap())
    });
    assert_eq!(z, Ok(31));
    let y = laid_out.module.val_by_name("GLOBAL_Y", &live, |b: &[u8]| {
        u32::from_le_bytes(b.try_into().unwrap())
    });
    assert_eq!(y, Ok(23_456_789));
    // the image still has what it was built with
    let y = laid_out.module.val_by_name("GLOBAL_Y", image.data, |b: &[u8]| {
        u32::from_le_bytes(b.try_into().unwrap())
    });
    assert_eq!(y, Ok(31));
}

#[test]
fn a_resolved_module_has_its_data_slots_inside_its_data() {
    let bytes = bin_call();
    let image = Image::decode(&bytes).unwrap();
    let mut registry = Registry::new();
    let mut module =
        Module::allocate(&image, 0x0800_1000, 0x2000_1000, 0x2000_1100, 0x2000_1200, &mut registry)
            .unwrap()
            .module;
    let regions = module.resolve(&image, None).unwrap();
    for slot in [4usize, 8] {
        let word = u32::from_le_bytes(regions.got[slot..slot + 4].try_into().unwrap());
        assert!(0x2000_1200 <= word && word < 0x2000_1200 + image.header.l_data);
    }
}

#[test]
fn val_by_name_reads_the_data() {
    let bytes = bin_call();
    let image = Image::decode(&bytes).unwrap();
    let mut registry = Registry::new();
    let module =
        Module::allocate(&image, 0x0800_1000, 0x2000_1000, 0x2000_1100, 0x2000_1200, &mut registry)
            .unwrap()
            .module;
    let y = module.val_by_name("GLOBAL_Y", image.data, |b: &[u8]| {
        u32::from_le_bytes([b[0], b[1], b[2], b[3]])
    });
    assert_eq!(y, Ok(31));
    let z = module.val_by_name("GLOBAL_Z", image.data, |b: &[u8]| {
        u32::from_le_bytes([b[0], b[1], b[2], b[3]])
    });
    assert_eq!(z, Ok(10));
    let missing = module.val_by_name("GLOBAL_W", image.data, |b: &[u8]| b[0]);
    assert_eq!(missing, Err(LoadError::SymbolNotFound));
    let wide = module.val_by_name("GLOBAL_Y", image.data, |b: &[u8]| {
        u64::from_le_bytes([b[0], b[1], b[2], b[3], b[4], b[5], b[6], b[7]])
    });
    assert_eq!(wide, Err(LoadError::OutOfData));
}
