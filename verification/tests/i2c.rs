use erc_core::collections::KeySet;
use erc_core::i2c::find_i2c_buses;
use erc_core::i2c_model::{I2cBuses, I2cDiagnostic, I2cDiagnosticKind, I2cNode};
use erc_core::model::{Component, LibName, LibPart, LibPartName, Net, Pin, PinType};
use erc_core::names::{Designator, NetName, PinId, PinName};
use erc_core::netlist::Netlist;
use erc_core::passive_value::Ohm;
use erc_core::collections::Dict;
use std::collections::HashSet;

fn d(s: &str) -> Designator {
    Designator(s.to_string())
}

fn lib_key(part: &str) -> (LibName, LibPartName) {
    (LibName("Device".to_string()), LibPartName(part.to_string()))
}

/// A netlist with the library parts that the fixtures use: a two-pin resistor, a
/// MOSFET with named pins, a plain IC and a level translator.
fn empty_board() -> Netlist {
    let mut netlist = Netlist::new();
    let mut resistor = LibPart::empty();
    resistor.description = "Resistor".to_string();
    resistor.pins.insert(PinId("1".into()), Pin::plain(PinName("~".into()), PinType::Passive));
    resistor.pins.insert(PinId("2".into()), Pin::plain(PinName("~".into()), PinType::Passive));
    netlist.insert_lib_part(lib_key("R"), resistor);
    let mut fet = LibPart::empty();
    fet.description = "N-channel MOSFET".to_string();
    fet.pins.insert(PinId("1".into()), Pin::plain(PinName("G".into()), PinType::Passive));
    fet.pins.insert(PinId("2".into()), Pin::plain(PinName("S".into()), PinType::Passive));
    fet.pins.insert(PinId("3".into()), Pin::plain(PinName("D".into()), PinType::Passive));
    netlist.insert_lib_part(lib_key("Q"), fet);
    let mut ic = LibPart::empty();
    ic.description = "Temperature sensor".to_string();
    netlist.insert_lib_part(lib_key("IC"), ic);
    let mut shifter = LibPart::empty();
    shifter.description = "I2C level Translator, dual supply".to_string();
    netlist.insert_lib_part(lib_key("LSF"), shifter);
    netlist
}

fn part(netlist: &mut Netlist, designator: &str, value: &str, lib_part: &str) {
    netlist.insert_component(
        d(designator),
        Component {
            value: value.to_string(),
            description: String::new(),
            lib_source: lib_key(lib_part),
            fields: Dict::new(),
            sections: vec![],
        },
    );
}

fn net(netlist: &mut Netlist, name: &str, nodes: &[(&str, &str)]) {
    let mut net = Net::new();
    for (designator, pin) in nodes {
        net.add_node(d(designator), PinId(pin.to_string()));
    }
    assert!(netlist.insert_net(NetName(name.to_string()), net));
}

/// A bus with two pull-ups to `rail` and one device on both lines.
fn plain_bus(netlist: &mut Netlist, scl: &str, sda: &str, rail: &str, r: [&str; 2], value: &str, u: &str) {
    part(netlist, r[0], value, "R");
    part(netlist, r[1], value, "R");
    part(netlist, u, "SENSOR", "IC");
    net(netlist, scl, &[(r[0], "1"), (u, "1")]);
    net(netlist, sda, &[(r[1], "1"), (u, "2")]);
    net(netlist, rail, &[(r[0], "2"), (r[1], "2"), (u, "3")]);
}

fn names(set: &KeySet<String>) -> HashSet<String> {
    set.items.iter().cloned().collect()
}

fn has_segment(segments: &Vec<KeySet<String>>, expected: &[&str]) -> bool {
    let expected: HashSet<String> = expected.iter().map(|s| s.to_string()).collect();
    segments.iter().any(|s| names(s) == expected)
}

fn parts(set: &KeySet<Designator>) -> HashSet<String> {
    set.items.iter().map(|d| d.0.clone()).collect()
}

fn has(diagnostics: &Vec<I2cDiagnostic>, bus: &str, kind: impl Fn(&I2cDiagnosticKind) -> bool) -> bool {
    diagnostics.iter().any(|d| d.derived_name == bus && kind(&d.kind))
}

fn bus<'a>(buses: &'a I2cBuses, name: &str) -> &'a erc_core::i2c_model::I2cBus {
    buses.by_name.get(&name.to_string()).unwrap()
}

fn segments_board() -> Netlist {
    let mut n = empty_board();
    for (r, v) in [
        ("R401", "10k"), ("R403", "10k"), ("R415", "4k7"), ("R416", "4k7"), ("R410", "0R"),
        ("R411", "0R"), ("R420", "1k"), ("R421", "1k"), ("R430", "4k7"), ("R431", "4k7"),
        ("R440", "2k2"), ("R441", "2k2"), ("R450", "10k"), ("R451", "10k"), ("R460", "4k7"),
        ("R461", "4k7"),
    ] {
        part(&mut n, r, v, "R");
    }
    for u in ["U1", "U7", "U408", "U9", "U10", "U11", "U12"] {
        part(&mut n, u, "IC", "IC");
    }
    part(&mut n, "U5", "LSF0102", "LSF");
    part(&mut n, "U6", "LSF0102", "LSF");
    part(&mut n, "Q1", "BSS138", "Q");
    part(&mut n, "Q2", "BSS138", "Q");
    net(&mut n, "/SCL1_3V3", &[("R401", "1"), ("U1", "1"), ("R410", "1"), ("R420", "1"), ("U5", "1"), ("U6", "1")]);
    net(&mut n, "/SDA1_3V3", &[("R403", "1"), ("U1", "2"), ("R411", "1"), ("R421", "1"), ("U5", "2"), ("U6", "2")]);
    net(&mut n, "/SCL_U7", &[("R410", "2"), ("U7", "1"), ("R415", "1")]);
    net(&mut n, "/SDA_U7", &[("R411", "2"), ("U7", "2"), ("R416", "1")]);
    net(&mut n, "Net-(R420-Pad2)", &[("R420", "2"), ("U408", "1")]);
    net(&mut n, "Net-(R421-Pad2)", &[("R421", "2"), ("U408", "2")]);
    net(&mut n, "/SCL1_1V8", &[("U5", "3"), ("R430", "1"), ("U10", "1"), ("Q1", "2")]);
    net(&mut n, "/SDA1_1V8", &[("U5", "4"), ("R431", "1"), ("U10", "2"), ("Q2", "2")]);
    net(&mut n, "/SCL1_3V3_VCC2", &[("Q1", "3"), ("R440", "1"), ("U11", "1")]);
    net(&mut n, "/SDA1_3V3_VCC2", &[("Q2", "3"), ("R441", "1"), ("U11", "2")]);
    net(&mut n, "/SCL1_1V2", &[("U6", "3"), ("R460", "1"), ("U12", "1")]);
    net(&mut n, "/SDA1_1V2", &[("U6", "4"), ("R461", "1"), ("U12", "2")]);
    net(&mut n, "/SCL2_3V3", &[("R450", "1"), ("U9", "1")]);
    net(&mut n, "/SDA2_3V3", &[("R451", "1"), ("U9", "2")]);
    net(&mut n, "+3V3", &[
        ("R401", "2"), ("R403", "2"), ("R415", "2"), ("R416", "2"), ("R450", "2"), ("R451", "2"),
        ("U1", "3"), ("U7", "3"), ("U9", "3"),
    ]);
    net(&mut n, "+1V8", &[("R430", "2"), ("R431", "2"), ("Q1", "1"), ("Q2", "1"), ("U10", "3")]);
    net(&mut n, "VCC2", &[("R440", "2"), ("R441", "2"), ("U11", "3")]);
    net(&mut n, "+1V2", &[("R460", "2"), ("R461", "2"), ("U12", "3")]);
    n
}

#[test]
fn able_to_recognize_i2c_bus_segments() {
    let netlist = segments_board();
    let mut diagnostics = Vec::new();
    let buses = find_i2c_buses(&netlist, &mut diagnostics);
    assert!(has_segment(&buses.direct_segments, &["/I2C1_1V8"]));
    assert!(has_segment(&buses.direct_segments, &["/I2C1_3V3_VCC2"]));
    assert!(has_segment(
        &buses.direct_segments,
        &["/I2C1_3V3", "/I2C1_3V3_to_U408", "/I2C_U7"]
    ));
    assert!(has_segment(&buses.direct_segments, &["/I2C1_1V2"]));
    assert!(has_segment(&buses.direct_segments, &["/I2C2_3V3"]));
    assert!(has_segment(&buses.same_bus_segments, &["/I2C2_3V3"]));
    assert!(has_segment(
        &buses.same_bus_segments,
        &[
            "/I2C_U7",
            "/I2C1_1V8",
            "/I2C1_3V3_VCC2",
            "/I2C1_3V3_to_U408",
            "/I2C1_3V3",
            "/I2C1_1V2"
        ]
    ));
    assert!(has(&diagnostics, "/I2C1_3V3_VCC2", |k| matches!(
        k,
        I2cDiagnosticKind::NonStandardPullUps { resistance } if *resistance == Ohm::from_ohms(2200)
    )));
    assert!(has(&diagnostics, "/I2C1_3V3", |k| matches!(
        k,
        I2cDiagnosticKind::NonStandardPullUps { resistance } if *resistance == Ohm::from_ohms(10_000)
    )));
    assert!(has(&diagnostics, "/I2C2_3V3", |k| matches!(
        k,
        I2cDiagnosticKind::NonStandardPullUps { resistance } if *resistance == Ohm::from_ohms(10_000)
    )));
    assert!(has(&diagnostics, "/I2C1_3V3", |k| matches!(
        k,
        I2cDiagnosticKind::TieTooHighValue { resistance, other_side }
            if *resistance == Ohm::from_ohms(1000) && other_side == "/I2C1_3V3_to_U408"
    )));

    let expected: HashSet<String> =
        ["R401", "R403", "R415", "R416"].iter().map(|s| s.to_string()).collect();
    let mut found = false;
    for d in &diagnostics {
        if let I2cDiagnosticKind::RedundantPullUps { redundant_pull_ups } = &d.kind {
            assert_eq!(parts(redundant_pull_ups), expected);
            found = true;
        }
    }
    assert!(found);
}

#[test]
fn segments_board_nodes_have_their_roles() {
    let netlist = segments_board();
    let mut diagnostics = Vec::new();
    let buses = find_i2c_buses(&netlist, &mut diagnostics);
    let main = bus(&buses, "/I2C1_3V3");
    assert!(main.nodes.iter().any(|n| matches!(n, I2cNode::Device(d) if d.0 == "U1")));
    assert!(main.nodes.iter().any(|n| matches!(
        n,
        I2cNode::Tie { scl_tie, sda_tie, other_side }
            if scl_tie.0 == "R410" && sda_tie.0 == "R411" && other_side == "/I2C_U7"
    )));
    assert!(main.nodes.iter().any(|n| matches!(
        n,
        I2cNode::VoltageTranslator { part, other_side } if part.0 == "U5" && other_side == "/I2C1_1V8"
    )));
    assert!(main.nodes.iter().any(|n| matches!(
        n,
        I2cNode::VoltageTranslator { part, other_side } if part.0 == "U6" && other_side == "/I2C1_1V2"
    )));
    assert!(!main.nodes.iter().any(|n| matches!(n, I2cNode::Unknown(_))));
    let low = bus(&buses, "/I2C1_1V8");
    assert!(low.nodes.iter().any(|n| matches!(
        n,
        I2cNode::VoltageTranslatorDiscrete { scl_fet, sda_fet, other_side }
            if scl_fet.0 == "Q1" && sda_fet.0 == "Q2" && other_side == "/I2C1_3V3_VCC2"
    )));
    let adhoc = bus(&buses, "/I2C1_3V3_to_U408");
    assert_eq!(adhoc.scl_net.0, "Net-(R420-Pad2)");
    assert_eq!(adhoc.sda_net.0, "Net-(R421-Pad2)");
    assert!(adhoc.pull_up.is_none());
    assert!(adhoc.nodes.iter().any(|n| matches!(n, I2cNode::Device(d) if d.0 == "U408")));
    assert!(!diagnostics.iter().any(|d| matches!(d.kind, I2cDiagnosticKind::UnknownNode { .. })));
}

#[test]
fn able_to_find_missing_i2c_pull_ups() {
    let mut n = empty_board();
    part(&mut n, "U1", "IC", "IC");
    part(&mut n, "U2", "IC", "IC");
    part(&mut n, "U3", "IC", "IC");
    for r in ["R1", "R2", "R3", "R4", "R5"] {
        part(&mut n, r, "4k7", "R");
    }
    net(&mut n, "/SCL1", &[("U1", "1")]);
    net(&mut n, "/SDA1", &[("U1", "2")]);
    net(&mut n, "/SCL2", &[("U2", "1"), ("R1", "1")]);
    net(&mut n, "/SDA2", &[("U2", "2"), ("R2", "1")]);
    net(&mut n, "Net-(R1-Pad2)", &[("R1", "2"), ("R2", "2")]);
    net(&mut n, "/SCL3", &[("U3", "1"), ("R3", "1")]);
    net(&mut n, "/SDA3", &[("U3", "2"), ("R4", "1")]);
    net(&mut n, "Net-(R3-Pad2)", &[("R3", "2"), ("R4", "2"), ("R5", "1")]);
    net(&mut n, "unconnected-(R5-Pad2)", &[("R5", "2")]);
    let mut diagnostics = Vec::new();
    let _buses = find_i2c_buses(&n, &mut diagnostics);
    assert!(has(&diagnostics, "/I2C1", |k| matches!(k, I2cDiagnosticKind::NoPullUps)));
    assert!(has(&diagnostics, "/I2C2", |k| matches!(k, I2cDiagnosticKind::PullUpToNowhere)));
    assert!(has(&diagnostics, "/I2C3", |k| matches!(k, I2cDiagnosticKind::PullUpToNowhere)));
    assert!(!has(&diagnostics, "/I2C2", |k| matches!(k, I2cDiagnosticKind::NoPullUps)));
}

#[test]
fn able_to_find_non_standard_pull_ups() {
    let mut n = empty_board();
    plain_bus(&mut n, "/SCL", "/SDA", "+3V3", ["R1", "R2"], "1k", "U1");
    let mut diagnostics = Vec::new();
    let _buses = find_i2c_buses(&n, &mut diagnostics);
    assert_eq!(diagnostics[0].derived_name, "/I2C");
    assert!(matches!(
        diagnostics[0].kind,
        I2cDiagnosticKind::NonStandardPullUps { resistance } if resistance == Ohm::from_ohms(1000)
    ));
}

#[test]
fn able_to_find_non_equal_pull_ups() {
    let mut n = empty_board();
    plain_bus(&mut n, "/SCL", "/SDA", "+3V3", ["R1", "R2"], "3k", "U1");
    part(&mut n, "R2", "3k3", "R");
    let mut diagnostics = Vec::new();
    let _buses = find_i2c_buses(&n, &mut diagnostics);
    assert_eq!(diagnostics[0].derived_name, "/I2C");
    assert!(matches!(
        diagnostics[0].kind,
        I2cDiagnosticKind::NonEqualPullUps { scl_resistance, sda_resistance }
            if scl_resistance == Ohm::from_ohms(3000) && sda_resistance == Ohm::from_ohms(3300)
    ));
}

#[test]
fn able_to_find_multiple_i2c_pull_ups() {
    let mut n = empty_board();
    part(&mut n, "U1", "IC", "IC");
    for r in ["R507", "R508", "R509", "R510", "R511"] {
        part(&mut n, r, "4k7", "R");
    }
    net(&mut n, "/SCL1_1V8", &[("U1", "1"), ("R507", "1"), ("R508", "1")]);
    net(&mut n, "/SDA1_1V8", &[("U1", "2"), ("R509", "1"), ("R510", "1"), ("R511", "1")]);
    net(&mut n, "+1V8", &[
        ("R507", "2"), ("R508", "2"), ("R509", "2"), ("R510", "2"), ("R511", "2"), ("U1", "3"),
    ]);
    let mut diagnostics = Vec::new();
    let buses = find_i2c_buses(&n, &mut diagnostics);

    let i2c1_1v8_bus = bus(&buses, "/I2C1_1V8");
    let pull_up = i2c1_1v8_bus.pull_up.as_ref().unwrap();
    let diagnostic = diagnostics.iter().find(|d| d.derived_name == "/I2C1_1V8").unwrap();
    let I2cDiagnosticKind::RedundantPullUps { redundant_pull_ups } = &diagnostic.kind else {
        panic!("Wrong diagnostic kind");
    };
    let mut expected_redundant_pull_ups: HashSet<String> =
        ["R507", "R508", "R509", "R510", "R511"].iter().map(|s| s.to_string()).collect();
    expected_redundant_pull_ups.remove(&pull_up.scl.0);
    expected_redundant_pull_ups.remove(&pull_up.sda.0);
    assert_eq!(expected_redundant_pull_ups, parts(redundant_pull_ups));
    assert_eq!(expected_redundant_pull_ups.len(), 3);
    assert_eq!(pull_up.v_net.0, "+1V8");
}

#[test]
fn wrong_pull_up_values_are_reported() {
    let mut n = empty_board();
    plain_bus(&mut n, "/SCL", "/SDA", "+3V3", ["R1", "R2"], "4k7", "U1");
    part(&mut n, "R1", "abc", "R");
    part(&mut n, "R2", "", "R");
    let mut diagnostics = Vec::new();
    let _buses = find_i2c_buses(&n, &mut diagnostics);
    assert!(matches!(
        &diagnostics[0].kind,
        I2cDiagnosticKind::WrongPullUpValue { parse_message } if parse_message == "unrecognized resistance value"
    ));
    assert!(matches!(
        &diagnostics[1].kind,
        I2cDiagnosticKind::WrongPullUpValue { parse_message } if parse_message == "part has no value"
    ));
}

#[test]
fn unknown_nodes_are_reported() {
    let mut n = empty_board();
    plain_bus(&mut n, "/SCL", "/SDA", "+3V3", ["R1", "R2"], "4k7", "U1");
    let mut n2 = Netlist::new();
    n2.lib_parts = n.lib_parts;
    n2.components = n.components;
    part(&mut n2, "C1", "100n", "IC");
    part(&mut n2, "J1", "CONN", "IC");
    part(&mut n2, "TP1", "TP", "IC");
    net(&mut n2, "/SCL", &[("R1", "1"), ("U1", "1"), ("C1", "1"), ("J1", "1"), ("TP1", "1"), ("U99", "1")]);
    net(&mut n2, "/SDA", &[("R2", "1"), ("U1", "2")]);
    net(&mut n2, "+3V3", &[("R1", "2"), ("R2", "2"), ("U1", "3")]);
    let mut diagnostics = Vec::new();
    let buses = find_i2c_buses(&n2, &mut diagnostics);
    let b = bus(&buses, "/I2C");
    assert!(b.nodes.iter().any(|x| matches!(x, I2cNode::Connector(d) if d.0 == "J1")));
    assert!(b.nodes.iter().any(|x| matches!(x, I2cNode::TestPoint(d) if d.0 == "TP1")));
    assert!(b.nodes.iter().any(|x| matches!(x, I2cNode::Unknown(d) if d.0 == "C1")));
    assert!(has(&diagnostics, "/I2C", |k| matches!(
        k,
        I2cDiagnosticKind::UnknownNode { designator } if designator.0 == "C1"
    )));
    assert!(has(&diagnostics, "/I2C", |k| matches!(
        k,
        I2cDiagnosticKind::UnknownNode { designator } if designator.0 == "U99"
    )));
}

#[test]
fn segments_are_the_same_when_found_again() {
    let netlist = segments_board();
    let mut first = Vec::new();
    let a = find_i2c_buses(&netlist, &mut first);
    let mut second = Vec::new();
    let b = find_i2c_buses(&netlist, &mut second);
    let partition = |s: &Vec<KeySet<String>>| {
        let mut p: Vec<Vec<String>> = s
            .iter()
            .map(|k| {
                let mut v: Vec<String> = k.items.clone();
                v.sort();
                v
            })
            .collect();
        p.sort();
        p
    };
    assert_eq!(partition(&a.direct_segments), partition(&b.direct_segments));
    assert_eq!(partition(&a.same_bus_segments), partition(&b.same_bus_segments));
    assert_eq!(first.len(), second.len());
}

#[test]
fn underscores_in_bus_names_collapse() {
    let mut n = empty_board();
    plain_bus(&mut n, "/A__SCL__B", "/A__SDA__B", "+3V3", ["R1", "R2"], "4k7", "U1");
    let mut diagnostics = Vec::new();
    let buses = find_i2c_buses(&n, &mut diagnostics);
    assert!(buses.by_name.get(&"/A_I2C_B".to_string()).is_some());
    assert_eq!(buses.by_name.keys.len(), 1);
}
