use kernel::exec::symbol::{convert_slice_to_array, SymbolTable};

#[test]
fn convert_pads_short_names() {
    let a = convert_slice_to_array(b"print");
    assert_eq!(&a[..5], b"print");
    assert!(a[5..].iter().all(|&b| b == 0));
    assert_eq!(convert_slice_to_array(b""), [0u8; 24]);
}

#[test]
fn convert_cuts_long_names() {
    let long = b"a_rather_long_symbol_name_of_more_than_24";
    let a = convert_slice_to_array(long);
    assert_eq!(&a[..], &long[..24]);
    let exact = b"exactly_twenty_four_byte";
    assert_eq!(exact.len(), 24);
    assert_eq!(&convert_slice_to_array(exact)[..], &exact[..]);
}

#[test]
fn lookup_finds_registered_symbol() {
    let mut table = SymbolTable::new();
    table.symbol_register(b"serial_print", 0x1000);
    table.symbol_register(b"alloc_page", 0x2000);
    assert_eq!(table.get_symbol_ptr(b"serial_print"), 0x1000);
    assert_eq!(table.get_symbol_ptr(b"alloc_page"), 0x2000);
}

#[test]
fn lookup_stops_at_nul_and_matches_prefix() {
    let mut table = SymbolTable::new();
    table.symbol_register(b"alloc_page", 0x2000);
    table.symbol_register(b"alloc", 0x3000);
    // the key is cut before the first zero byte
    assert_eq!(table.get_symbol_ptr(b"alloc_page\0garbage"), 0x2000);
    // "alloc" is a prefix of the first symbol's name, which wins
    assert_eq!(table.get_symbol_ptr(b"alloc\0"), 0x2000);
    // an empty key matches the first symbol
    assert_eq!(table.get_symbol_ptr(b"\0xyz"), 0x2000);
}

#[test]
fn lookup_of_long_name_uses_first_24_bytes() {
    let mut table = SymbolTable::new();
    table.symbol_register(b"a_rather_long_symbol_name_of_more_than_24", 0x4000);
    assert_eq!(table.get_symbol_ptr(b"a_rather_long_symbol_name_differs_after"), 0x4000);
    assert_eq!(table.get_symbol_ptr(b"a_rather_long_symbol_nam"), 0x4000);
}

#[test]
fn earlier_registration_wins() {
    let mut table = SymbolTable::new();
    table.symbol_register(b"dup", 1);
    table.symbol_register(b"dup", 2);
    assert_eq!(table.get_symbol_ptr(b"dup"), 1);
}

#[test]
fn contains_symbol_tells_whether_lookup_succeeds() {
    let mut table = SymbolTable::new();
    assert!(!table.contains_symbol(b"x"));
    table.symbol_register(b"alloc_page", 0x2000);
    assert!(table.contains_symbol(b"alloc"));
    assert!(table.contains_symbol(b"alloc_page\0tail"));
    assert!(!table.contains_symbol(b"alloc_pages"));
    assert!(!table.contains_symbol(b"free"));
}
