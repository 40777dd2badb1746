use erc_core::collections::Dict;
use erc_core::model::{Component, LibName, LibPart, LibPartName, Pin, PinType};
use erc_core::names::{Designator, PinId, PinName};
use erc_core::netlist::Netlist;
use erc_core::passive_value::PassiveValueParseWarning;
use erc_core::style::{check_style, check_value, Severity, StyleDiagnostic, StyleDiagnosticKind};

fn key(part: &str) -> (LibName, LibPartName) {
    (LibName("Device".to_string()), LibPartName(part.to_string()))
}

fn part(netlist: &mut Netlist, designator: &str, value: &str, lib_part: &str) {
    netlist.insert_component(
        Designator(designator.to_string()),
        Component {
            value: value.to_string(),
            description: String::new(),
            lib_source: key(lib_part),
            fields: Dict::new(),
            sections: vec![],
        },
    );
}

fn fet(netlist: &mut Netlist, name: &str, description: &str, pins: &[&str]) {
    let mut part = LibPart::empty();
    part.description = description.to_string();
    for (i, pin) in pins.iter().enumerate() {
        part.pins.insert(PinId(format!("{}", i + 1)), Pin::plain(PinName(pin.to_string()), PinType::Passive));
    }
    netlist.insert_lib_part(key(name), part);
}

fn remark(value: &str, designator: &str) -> Option<(Severity, String)> {
    let mut diagnostics: Vec<StyleDiagnostic> = Vec::new();
    check_value(&Designator(designator.to_string()), value, &mut diagnostics);
    assert!(diagnostics.len() <= 1);
    diagnostics.pop().map(|d| (d.severity, format!("{:?}", d.kind)))
}

#[test]
fn values_are_checked() {
    assert_eq!(remark("", "C1"), Some((Severity::Error, "NoValue".to_string())));
    assert_eq!(remark("?10k", "R1"), Some((Severity::Warning, "CalculateLaterValue".to_string())));
    assert_eq!(remark("10k?", "C1"), Some((Severity::Warning, "CalculateLaterValue".to_string())));
    assert_eq!(remark("DNM", "R1"), None);
    assert_eq!(remark("DNP", "R1"), None);
    assert_eq!(remark("10k", "R1"), None);
    assert_eq!(remark("whatever", "C1"), None);
    assert_eq!(
        remark("10r", "R1"),
        Some((Severity::Warning, "NonStandardValue(SmallR)".to_string()))
    );
    assert_eq!(
        remark("abc", "R1"),
        Some((Severity::Error, "WrongValue(\"unrecognized resistance value\")".to_string()))
    );
}

#[test]
fn able_to_find_style_diagnostics() {
    let mut netlist = Netlist::new();
    fet(&mut netlist, "NMOS", "N-Channel MOSFET 60V", &["G", "S", "D"]);
    fet(&mut netlist, "PMOS", "P channel enhancement", &["1", "2", "3"]);
    fet(&mut netlist, "LONG", "Power mosfet", &["GATE", "SOURCE", "DRAIN"]);
    fet(&mut netlist, "BJT", "NPN transistor", &["B", "C", "E"]);
    part(&mut netlist, "Q1", "BSS138", "NMOS");
    part(&mut netlist, "Q2", "BSS84", "PMOS");
    part(&mut netlist, "Q3", "IRF", "LONG");
    part(&mut netlist, "Q4", "BC847", "BJT");
    part(&mut netlist, "Q5", "X", "MISSING");
    part(&mut netlist, "R1", "10  k", "NMOS");
    part(&mut netlist, "U1", "", "NMOS");
    let mut diagnostics = Vec::new();
    check_style(&netlist, &mut diagnostics);
    let found: Vec<(String, Severity, String)> = diagnostics
        .iter()
        .map(|d| (d.designator.0.clone(), d.severity, format!("{:?}", d.kind)))
        .collect();
    assert_eq!(
        found,
        vec![
            ("R1".to_string(), Severity::Warning, "NonStandardValue(RedundantSpace)".to_string()),
            ("U1".to_string(), Severity::Error, "NoValue".to_string()),
            ("Q2".to_string(), Severity::Warning, "MosfetPinsNotNamed".to_string()),
        ]
    );
    assert!(matches!(
        diagnostics[0].kind,
        StyleDiagnosticKind::NonStandardValue(PassiveValueParseWarning::RedundantSpace)
    ));
}
