use erc_core::passive_value::{
    parse_resistance_value, Ohm, PassiveValueParseError, PassiveValueParseWarning,
};

fn ohms(v: &Ohm) -> f64 {
    v.0 as f64 / 1_000_000.0
}

#[test]
fn resistance_values() {
    let (v, w) = parse_resistance_value("100").unwrap();
    assert_eq!(ohms(&v), 100.0);
    assert!(w.is_none());

    let (v, w) = parse_resistance_value("5k").unwrap();
    assert_eq!(ohms(&v), 5000.0);
    assert!(w.is_none());

    let (v, w) = parse_resistance_value("5M").unwrap();
    assert_eq!(ohms(&v), 5_000_000.0);
    assert!(w.is_none());

    let (v, w) = parse_resistance_value("5G").unwrap();
    assert_eq!(ohms(&v), 5_000_000_000.0);
    assert!(w.is_none());

    let (v, w) = parse_resistance_value("1R").unwrap();
    assert_eq!(ohms(&v), 1.0);
    assert!(w.is_none());

    let (v, w) = parse_resistance_value("15.5").unwrap();
    assert_eq!(ohms(&v), 15.5);
    assert!(w.is_none());

    let (v, w) = parse_resistance_value("5.53R").unwrap();
    assert_eq!(ohms(&v), 5.53);
    assert!(w.is_none());

    let (v, w) = parse_resistance_value("1.0k").unwrap();
    assert_eq!(ohms(&v), 1000.0);
    assert!(w.is_none());

    let (v, w) = parse_resistance_value("1k2").unwrap();
    assert_eq!(ohms(&v), 1200.0);
    assert!(w.is_none());

    let (v, w) = parse_resistance_value("10 kΩ").unwrap();
    assert_eq!(ohms(&v), 10_000.0);
    assert!(w.is_none());

    let (v, w) = parse_resistance_value("5Ω").unwrap();
    assert_eq!(ohms(&v), 5.0);
    assert!(w.is_none());

    let (v, w) = parse_resistance_value("1mΩ").unwrap();
    assert_eq!(ohms(&v), 0.001);
    assert!(w.is_none());

    let (v, w) = parse_resistance_value("1μΩ").unwrap();
    assert_eq!(ohms(&v), 0.000001);
    assert!(w.is_none());

    let (v, w) = parse_resistance_value(" 0 ").unwrap();
    assert_eq!(ohms(&v), 0.0);
    assert!(w.is_none());

    let (v, w) = parse_resistance_value(" 0  R ").unwrap();
    assert_eq!(ohms(&v), 0.0);
    assert!(matches!(w, Some(PassiveValueParseWarning::RedundantSpace)));

    let (v, w) = parse_resistance_value("49r").unwrap();
    assert_eq!(ohms(&v), 49.0);
    assert!(matches!(w, Some(PassiveValueParseWarning::SmallR)));

    let (v, w) = parse_resistance_value(" 499kR ").unwrap();
    assert_eq!(ohms(&v), 499_000.0);
    assert!(matches!(
        w,
        Some(PassiveValueParseWarning::BigRInsteadOfOhmSymbol)
    ));
}

#[test]
fn canonical_forms_have_exact_values() {
    let cases: [(&str, u64); 7] = [
        ("100", 100_000_000),
        ("5k", 5_000_000_000),
        ("1k2", 1_200_000_000),
        ("4R7", 4_700_000),
        ("10 kΩ", 10_000_000_000),
        ("1mΩ", 1_000),
        ("0", 0),
    ];
    for (text, micro) in cases {
        assert_eq!(parse_resistance_value(text), Ok((Ohm(micro), None)));
    }
    assert_eq!(
        parse_resistance_value("49r"),
        Ok((Ohm(49_000_000), Some(PassiveValueParseWarning::SmallR)))
    );
    assert_eq!(
        parse_resistance_value("499kR"),
        Ok((Ohm(499_000_000_000), Some(PassiveValueParseWarning::BigRInsteadOfOhmSymbol)))
    );
    assert_eq!(
        parse_resistance_value("0  R"),
        Ok((Ohm(0), Some(PassiveValueParseWarning::RedundantSpace)))
    );
}

#[test]
fn digits_finer_than_a_micro_ohm_are_dropped() {
    assert_eq!(parse_resistance_value("1.0000019"), Ok((Ohm(1_000_001), None)));
    assert_eq!(parse_resistance_value("1.5µ"), Ok((Ohm(1), None)));
    assert_eq!(parse_resistance_value("2.5m"), Ok((Ohm(2_500), None)));
}

#[test]
fn unrecognized_values_are_rejected() {
    for text in ["", "  ", "k", "abc", "1k2k", "1.", "1.k", "1 2", "1kΩΩ", "-5", "1k2Ω"] {
        assert_eq!(
            parse_resistance_value(text),
            Err(PassiveValueParseError::Unrecognized),
            "{text}"
        );
    }
}

#[test]
fn values_beyond_64_bits_are_rejected() {
    assert_eq!(
        parse_resistance_value("99999999999999999999999"),
        Err(PassiveValueParseError::OutOfRange)
    );
    assert_eq!(parse_resistance_value("18447G"), Err(PassiveValueParseError::OutOfRange));
    assert_eq!(parse_resistance_value("18446G"), Ok((Ohm(18_446_000_000_000_000_000), None)));
    assert_eq!(
        PassiveValueParseError::OutOfRange.message(),
        "resistance value out of range"
    );
}

#[test]
fn trailing_spaces_without_unit_raise_no_warning() {
    assert_eq!(parse_resistance_value("10   "), Ok((Ohm(10_000_000), None)));
    assert_eq!(
        parse_resistance_value("10   k"),
        Ok((Ohm(10_000_000_000), Some(PassiveValueParseWarning::RedundantSpace)))
    );
    assert_eq!(
        parse_resistance_value("5rR"),
        Ok((Ohm(5_000_000), Some(PassiveValueParseWarning::BigRInsteadOfOhmSymbol)))
    );
}
