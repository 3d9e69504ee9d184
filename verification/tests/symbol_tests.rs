//! Tests for the symbol-library grammar.

use kiparse::symbol::symbol_parser::parse_symbol_lib;

#[test]
fn test_simple_symbol() {
    let content = r#"
    (symbol "Resistor"
      (property "Description" "Basic resistor component")
    )
    "#;

    let symbols = parse_symbol_lib(content).unwrap();
    assert_eq!(symbols.len(), 1);
    assert_eq!(symbols[0].name, "Resistor");
    assert_eq!(symbols[0].description, "Basic resistor component");
}

#[test]
fn test_symbol_with_variant() {
    let content = r#"
    (symbol "Resistor_SMD_0805"
      (property "Description" "0805 SMD resistor")
    )
    "#;

    let symbols = parse_symbol_lib(content).unwrap();
    assert_eq!(symbols.len(), 1);
    assert_eq!(symbols[0].name, "Resistor");
    assert_eq!(symbols[0].description, "0805 SMD resistor");
}

#[test]
fn test_multiple_symbols() {
    let content = r#"
    (symbol "Resistor"
      (property "Description" "Basic resistor")
    )
    (symbol "Capacitor"
      (property "Description" "Basic capacitor")
    )
    "#;

    let symbols = parse_symbol_lib(content).unwrap();
    assert_eq!(symbols.len(), 2);
    assert_eq!(symbols[0].name, "Resistor");
    assert_eq!(symbols[1].name, "Capacitor");
}

#[test]
fn test_symbol_without_description() {
    let content = r#"
    (symbol "Unknown"
      (property "Value" "Some value")
    )
    "#;

    let symbols = parse_symbol_lib(content).unwrap();
    assert_eq!(symbols.len(), 1);
    assert_eq!(symbols[0].name, "Unknown");
    assert_eq!(symbols[0].description, "");
}

#[test]
fn test_symbol_variant_collapsing() {
    // Two graphical variants of one logical part collapse to one entry
    // whose description comes from the first record.
    let content = r#"
    (symbol "LED_0603" (property "Description" "red LED"))
    (symbol "LED_0805" (property "Description" "alt"))
    "#;

    let symbols = parse_symbol_lib(content).unwrap();
    assert_eq!(symbols.len(), 1);
    assert_eq!(symbols[0].name, "LED");
    assert_eq!(symbols[0].description, "red LED");
}

#[test]
fn test_nested_symbols_are_found() {
    let content = r#"
    (kicad_symbol_lib
      (symbol "Diode" (property "Description" "generic diode"))
    )
    "#;
    let symbols = parse_symbol_lib(content).unwrap();
    assert_eq!(symbols.len(), 1);
    assert_eq!(symbols[0].name, "Diode");
}

#[test]
fn test_first_description_wins() {
    let content = r#"
    (symbol "Part"
      (property "Description" "first")
      (property "Description" "second")
    )
    "#;
    let symbols = parse_symbol_lib(content).unwrap();
    assert_eq!(symbols.len(), 1);
    assert_eq!(symbols[0].description, "first");
}

#[test]
fn test_symbol_name_missing_is_error() {
    let symbols = parse_symbol_lib("(symbol 42)");
    assert!(symbols.is_err());
}
