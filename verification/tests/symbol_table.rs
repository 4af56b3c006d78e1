use ntt_assembler::symbol_table::SymbolTable;

#[test]
fn test_new() {
    let table = SymbolTable::new();

    assert_eq!(table.get_address("SP"), 0);
    assert_eq!(table.get_address("R2"), 2);
    assert_eq!(table.get_address("THAT"), 4);
    assert_eq!(table.get_address("SCREEN"), 16384);
    assert_eq!(table.get_address("KBD"), 24576);
}

#[test]
fn test_add_entry() {
    let mut table = SymbolTable::new();

    table.add_entry(String::from("Xxx.yyy"), 50);
    assert_eq!(table.get_address("Xxx.yyy"), 50);
}

#[test]
fn test_contains() {
    let mut table = SymbolTable::new();

    table.add_entry(String::from("Xxx.yyy"), 50);
    assert_eq!(table.contains("Xxx.yyy"), true);
}

#[test]
fn test_get_address() {
    let mut table = SymbolTable::new();

    table.add_entry(String::from("Xxx.yyy"), 50);
    assert_eq!(table.get_address("Xxx.yyy"), 50);
}

#[test]
fn test_predefined_symbols_all() {
    let table = SymbolTable::new();

    assert_eq!(table.get_address("SP"), 0);
    assert_eq!(table.get_address("LCL"), 1);
    assert_eq!(table.get_address("ARG"), 2);
    assert_eq!(table.get_address("THIS"), 3);
    assert_eq!(table.get_address("THAT"), 4);
    for r in 0..16 {
        assert_eq!(table.get_address(&format!("R{}", r)), r);
    }
    assert_eq!(table.get_address("SCREEN"), 16384);
    assert_eq!(table.get_address("KBD"), 24576);
    assert!(!table.contains("LOOP"));
}

#[test]
fn test_add_entry_overwrites() {
    let mut table = SymbolTable::new();

    table.add_entry(String::from("x"), 7);
    table.add_entry(String::from("x"), 7);
    assert_eq!(table.get_address("x"), 7);
    table.add_entry(String::from("x"), 9);
    assert_eq!(table.get_address("x"), 9);
    assert_eq!(table.get_address("SP"), 0);
}
