use snarkledger::plaintext::{Literal, LiteralType, Plaintext};

#[test]
fn test_parse_literal() {
    let (remainder, candidate) = Plaintext::parse("5u8").unwrap();
    assert_eq!("5u8", candidate.to_string());
    assert_eq!("", remainder);
}

#[test]
fn test_parse_interface() {
    let (remainder, candidate) = Plaintext::parse("{ foo: 5u8 }").unwrap();
    assert_eq!("{ foo: 5u8 }", candidate.to_string());
    assert_eq!("", remainder);
}

#[test]
fn test_parse_fails() {
    // Must be non-empty.
    assert!(Plaintext::parse("").is_err());
    assert!(Plaintext::parse("{}").is_err());

    // Invalid characters.
    assert!(Plaintext::parse("_").is_err());
    assert!(Plaintext::parse("__").is_err());
    assert!(Plaintext::parse("___").is_err());
    assert!(Plaintext::parse("-").is_err());
    assert!(Plaintext::parse("--").is_err());
    assert!(Plaintext::parse("---").is_err());
    assert!(Plaintext::parse("*").is_err());
    assert!(Plaintext::parse("**").is_err());
    assert!(Plaintext::parse("***").is_err());

    // Must not start with a number.
    assert!(Plaintext::parse("1").is_err());
    assert!(Plaintext::parse("2").is_err());
    assert!(Plaintext::parse("3").is_err());
    assert!(Plaintext::parse("1foo").is_err());
    assert!(Plaintext::parse("12").is_err());
    assert!(Plaintext::parse("111").is_err());

    // Must fit within the data capacity of a base field element.
    let plaintext = Plaintext::parse("foo_bar_baz_qux_quux_quuz_corge_grault_garply_waldo_fred_plugh_xyzzy");
    assert!(plaintext.is_err());
}

#[test]
fn parse_nested_interface_and_remainder() {
    let (remainder, candidate) = Plaintext::parse("  { a: true, b: { c: -7i16 } } rest").unwrap();
    assert_eq!(" rest", remainder);
    assert_eq!("{ a: true, b: { c: -7i16 } }", candidate.to_string());
}

#[test]
fn parse_interface_members() {
    let (_, p) = Plaintext::parse("{ foo: 5u8 }").unwrap();
    match p {
        Plaintext::Interface(members) => {
            assert_eq!(members.len(), 1);
            assert_eq!(members[0].0.name, vec!['f', 'o', 'o']);
            match members[0].1 {
                Plaintext::Literal(l) => {
                    assert_eq!(l, Literal::Number { ty: LiteralType::U8, negative: false, magnitude: 5 })
                }
                _ => panic!("expected a literal member"),
            }
        }
        _ => panic!("expected an interface"),
    }
}

#[test]
fn parse_rejects_duplicate_members() {
    assert!(Plaintext::parse("{ a: 1u8, a: 2u8 }").is_err());
}

#[test]
fn parse_rejects_out_of_range_numbers() {
    assert!(Plaintext::parse("256u8").is_err());
    assert!(Plaintext::parse("255u8").is_ok());
    assert!(Plaintext::parse("-128i8").is_ok());
    assert!(Plaintext::parse("-129i8").is_err());
    assert!(Plaintext::parse("-1u8").is_err());
}

#[test]
fn parse_rejects_too_many_members() {
    let mut text = String::from("{ ");
    for i in 0..33 {
        if i > 0 {
            text.push_str(", ");
        }
        text.push_str(&format!("m{}: {}u8", i, i));
    }
    text.push_str(" }");
    assert!(Plaintext::parse(&text).is_err());
    let short = "{ m0: 0u8, m1: 1u8 }";
    assert!(Plaintext::parse(short).is_ok());
}

#[test]
fn parse_literal_values() {
    let (_, p) = Plaintext::parse("42field").unwrap();
    match p {
        Plaintext::Literal(Literal::Number { ty, negative, magnitude }) => {
            assert_eq!(ty, LiteralType::Field);
            assert!(!negative);
            assert_eq!(magnitude, 42);
        }
        _ => panic!("expected a literal"),
    }
    let whole = Plaintext::from_str("false").unwrap();
    assert_eq!("false", whole.to_string());
    assert!(Plaintext::from_str("false x").is_err());
}
