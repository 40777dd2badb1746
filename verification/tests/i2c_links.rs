use erc_core::collections::{Dict, KeySet};
use erc_core::i2c::find_i2c_buses;
use erc_core::i2c_interconnect::look_for_bus_interconnects;
use erc_core::i2c_model::{I2cBus, I2cBuses, I2cDiagnosticKind, I2cNode};
use erc_core::i2c_segments::merge_into;
use erc_core::model::{Component, LibName, LibPart, LibPartName, Net, Pin, PinType};
use erc_core::names::{Designator, NetName, PinId, PinName};
use erc_core::netlist::Netlist;
use erc_core::passive_value::Ohm;
use std::collections::HashSet;

fn d(s: &str) -> Designator {
    Designator(s.to_string())
}

fn lib_key(part: &str) -> (LibName, LibPartName) {
    (LibName("Device".to_string()), LibPartName(part.to_string()))
}

fn board() -> Netlist {
    let mut netlist = Netlist::new();
    let mut resistor = LibPart::empty();
    resistor.description = "Resistor".to_string();
    resistor.pins.insert(PinId("1".into()), Pin::plain(PinName("~".into()), PinType::Passive));
    resistor.pins.insert(PinId("2".into()), Pin::plain(PinName("~".into()), PinType::Passive));
    netlist.insert_lib_part(lib_key("R"), resistor);
    let mut fet = LibPart::empty();
    fet.description = "N-channel MOSFET".to_string();
    fet.pins.insert(PinId("1".into()), Pin::plain(PinName("G".into()), PinType::Passive));
    fet.pins.insert(PinId("2".into()), Pin::plain(PinName("S".into()), PinType::Passive));
    fet.pins.insert(PinId("3".into()), Pin::plain(PinName("D".into()), PinType::Passive));
    netlist.insert_lib_part(lib_key("Q"), fet);
    let mut ic = LibPart::empty();
    ic.description = "Temperature sensor".to_string();
    netlist.insert_lib_part(lib_key("IC"), ic);
    netlist
}

fn part(netlist: &mut Netlist, designator: &str, value: &str, lib_part: &str) {
    netlist.insert_component(
        d(designator),
        Component {
            value: value.to_string(),
            description: String::new(),
            lib_source: lib_key(lib_part),
            fields: Dict::new(),
            sections: vec![],
        },
    );
}

fn net(netlist: &mut Netlist, name: &str, nodes: &[(&str, &str)]) {
    let mut net = Net::new();
    for (designator, pin) in nodes {
        net.add_node(d(designator), PinId(pin.to_string()));
    }
    assert!(netlist.insert_net(NetName(name.to_string()), net));
}

/// Two buses joined by `R1` on the clock lines and `R2` on the data lines.
fn tied_board() -> Netlist {
    let mut n = board();
    part(&mut n, "R1", "5k", "R");
    part(&mut n, "R2", "0R", "R");
    part(&mut n, "U1", "IC", "IC");
    part(&mut n, "U2", "IC", "IC");
    net(&mut n, "/SCL_A", &[("U1", "1"), ("R1", "1")]);
    net(&mut n, "/SDA_A", &[("U1", "2"), ("R2", "1")]);
    net(&mut n, "/SCL_B", &[("U2", "1"), ("R1", "2")]);
    net(&mut n, "/SDA_B", &[("U2", "2"), ("R2", "2")]);
    n
}

fn bare_bus(name: &str, scl: &str, sda: &str, nodes: Vec<I2cNode>) -> I2cBus {
    I2cBus {
        derived_name: name.to_string(),
        scl_net: NetName(scl.to_string()),
        sda_net: NetName(sda.to_string()),
        pull_up: None,
        nodes,
    }
}

fn is_tie(node: &I2cNode, scl: &str, sda: &str, other: &str) -> bool {
    matches!(node, I2cNode::Tie { scl_tie, sda_tie, other_side }
        if scl_tie.0 == scl && sda_tie.0 == sda && other_side == other)
}

fn tied_buses(data_line_first: bool) -> Vec<I2cBus> {
    let order = |a: &str, b: &str| {
        if data_line_first {
            vec![I2cNode::Unknown(d(b)), I2cNode::Unknown(d(a))]
        } else {
            vec![I2cNode::Unknown(d(a)), I2cNode::Unknown(d(b))]
        }
    };
    vec![
        bare_bus("/I2C_A", "/SCL_A", "/SDA_A", order("R1", "R2")),
        bare_bus("/I2C_B", "/SCL_B", "/SDA_B", order("R1", "R2")),
    ]
}

#[test]
fn a_tie_names_the_part_on_the_clock_lines_first() {
    for data_line_first in [false, true] {
        let netlist = tied_board();
        let mut buses = tied_buses(data_line_first);
        let mut diagnostics = Vec::new();
        look_for_bus_interconnects(&netlist, &mut buses, &mut diagnostics);
        assert_eq!(buses.len(), 2);
        assert_eq!(buses[0].nodes.len(), 1);
        assert_eq!(buses[1].nodes.len(), 1);
        assert!(is_tie(&buses[0].nodes[0], "R1", "R2", "/I2C_B"));
        assert!(is_tie(&buses[1].nodes[0], "R1", "R2", "/I2C_A"));
        assert_eq!(diagnostics.len(), 1);
        assert_eq!(diagnostics[0].derived_name, "/I2C_A");
        assert!(matches!(
            &diagnostics[0].kind,
            I2cDiagnosticKind::TieTooHighValue { resistance, other_side }
                if *resistance == Ohm::from_ohms(5000) && other_side == "/I2C_B"
        ));
    }
}

#[test]
fn a_tie_is_found_from_the_netlist_alone() {
    let netlist = tied_board();
    let mut diagnostics = Vec::new();
    let buses = find_i2c_buses(&netlist, &mut diagnostics);
    let a = buses.by_name.get(&"/I2C_A".to_string()).unwrap();
    let b = buses.by_name.get(&"/I2C_B".to_string()).unwrap();
    assert_eq!(a.scl_net.0, "/SCL_A");
    assert_eq!(a.sda_net.0, "/SDA_A");
    assert_eq!(b.scl_net.0, "/SCL_B");
    assert_eq!(b.sda_net.0, "/SDA_B");
    assert!(a.nodes.iter().any(|n| is_tie(n, "R1", "R2", "/I2C_B")));
    assert!(b.nodes.iter().any(|n| is_tie(n, "R1", "R2", "/I2C_A")));
    assert_eq!(a.nodes.iter().filter(|n| matches!(n, I2cNode::Tie { .. })).count(), 1);
    assert_eq!(buses.direct_segments.len(), 1);
    assert_eq!(buses.same_bus_segments.len(), 1);
    let ties: Vec<_> = diagnostics
        .iter()
        .filter(|f| matches!(f.kind, I2cDiagnosticKind::TieTooHighValue { .. }))
        .collect();
    assert_eq!(ties.len(), 1);
    assert_eq!(ties[0].derived_name, "/I2C_A");
}

#[test]
fn a_discrete_translator_names_the_transistor_on_the_clock_lines_first() {
    let mut n = board();
    part(&mut n, "Q1", "BSS138", "Q");
    part(&mut n, "Q2", "BSS138", "Q");
    net(&mut n, "/SCL_A", &[("Q1", "2")]);
    net(&mut n, "/SDA_A", &[("Q2", "2")]);
    net(&mut n, "/SCL_B", &[("Q1", "3")]);
    net(&mut n, "/SDA_B", &[("Q2", "3")]);
    net(&mut n, "+1V8", &[("Q1", "1"), ("Q2", "1")]);
    let mut buses = vec![
        bare_bus("/I2C_A", "/SCL_A", "/SDA_A", vec![I2cNode::Unknown(d("Q2")), I2cNode::Unknown(d("Q1"))]),
        bare_bus("/I2C_B", "/SCL_B", "/SDA_B", vec![I2cNode::Unknown(d("Q2")), I2cNode::Unknown(d("Q1"))]),
    ];
    let mut diagnostics = Vec::new();
    look_for_bus_interconnects(&n, &mut buses, &mut diagnostics);
    assert!(diagnostics.is_empty());
    assert!(matches!(&buses[0].nodes[0], I2cNode::VoltageTranslatorDiscrete { scl_fet, sda_fet, other_side }
        if scl_fet.0 == "Q1" && sda_fet.0 == "Q2" && other_side == "/I2C_B"));
    assert!(matches!(&buses[1].nodes[0], I2cNode::VoltageTranslatorDiscrete { scl_fet, sda_fet, other_side }
        if scl_fet.0 == "Q1" && sda_fet.0 == "Q2" && other_side == "/I2C_A"));
}

#[test]
fn a_bus_made_for_a_link_is_named_after_the_far_part() {
    let mut n = board();
    part(&mut n, "R20", "0R", "R");
    part(&mut n, "R21", "0R", "R");
    part(&mut n, "U1", "IC", "IC");
    part(&mut n, "U8", "IC", "IC");
    net(&mut n, "/SCL_A", &[("U1", "1"), ("R20", "1")]);
    net(&mut n, "/SDA_A", &[("U1", "2"), ("R21", "1")]);
    net(&mut n, "Net-(R20-Pad2)", &[("R20", "2"), ("U8", "1")]);
    net(&mut n, "Net-(R21-Pad2)", &[("R21", "2"), ("U8", "2")]);
    let mut diagnostics = Vec::new();
    let buses = find_i2c_buses(&n, &mut diagnostics);
    let made = buses.by_name.get(&"/I2C_A_to_U8".to_string()).unwrap();
    assert_eq!(made.scl_net.0, "Net-(R20-Pad2)");
    assert_eq!(made.sda_net.0, "Net-(R21-Pad2)");
    assert!(made.nodes.iter().any(|x| is_tie(x, "R20", "R21", "/I2C_A")));
    let a = buses.by_name.get(&"/I2C_A".to_string()).unwrap();
    assert!(a.nodes.iter().any(|x| is_tie(x, "R20", "R21", "/I2C_A_to_U8")));
    assert_eq!(buses.by_name.keys.len(), 2);
}

fn set_of(names: &[&str]) -> KeySet<String> {
    let mut s = KeySet::new();
    for n in names {
        s.insert(n.to_string());
    }
    s
}

fn partition(segments: &Vec<KeySet<String>>) -> Vec<Vec<String>> {
    let mut p: Vec<Vec<String>> = segments
        .iter()
        .map(|k| {
            let mut v: Vec<String> = k.items.clone();
            v.sort();
            v
        })
        .collect();
    p.sort();
    p
}

#[test]
fn merging_joins_every_segment_that_shares_a_name() {
    let mut segments = vec![set_of(&["A", "B"]), set_of(&["C", "D"]), set_of(&["E"])];
    merge_into(set_of(&["B", "C"]), &mut segments);
    assert_eq!(segments.len(), 2);
    assert_eq!(segments[0].items, vec!["E".to_string()]);
    let joined: HashSet<String> = segments[1].items.iter().cloned().collect();
    let expected: HashSet<String> = ["A", "B", "C", "D"].iter().map(|s| s.to_string()).collect();
    assert_eq!(joined, expected);
    merge_into(set_of(&["F"]), &mut segments);
    assert_eq!(segments.len(), 3);
    assert_eq!(segments[2].items, vec!["F".to_string()]);
}

#[test]
fn segments_are_a_partition_whatever_the_order_of_the_buses() {
    let tie = |other: &str| I2cNode::Tie {
        scl_tie: d("R1"),
        sda_tie: d("R2"),
        other_side: other.to_string(),
    };
    let mut by_name: Dict<String, I2cBus> = Dict::new();
    by_name.insert("A".to_string(), bare_bus("A", "a1", "a2", vec![tie("B")]));
    by_name.insert("C".to_string(), bare_bus("C", "c1", "c2", vec![tie("D")]));
    by_name.insert("B".to_string(), bare_bus("B", "b1", "b2", vec![tie("A"), tie("C")]));
    by_name.insert("D".to_string(), bare_bus("D", "d1", "d2", vec![tie("C")]));
    let mut buses = I2cBuses { by_name, direct_segments: vec![], same_bus_segments: vec![] };
    buses.collect_segments();
    let all = vec![vec!["A".to_string(), "B".to_string(), "C".to_string(), "D".to_string()]];
    assert_eq!(partition(&buses.direct_segments), all);
    assert_eq!(partition(&buses.same_bus_segments), all);
}

fn part_of(node: &I2cNode) -> String {
    match node {
        I2cNode::Device(d) | I2cNode::Connector(d) | I2cNode::TestPoint(d) | I2cNode::Unknown(d) => {
            d.0.clone()
        }
        I2cNode::VoltageTranslator { part, .. } => part.0.clone(),
        I2cNode::VoltageTranslatorDiscrete { scl_fet, .. } => scl_fet.0.clone(),
        I2cNode::Tie { scl_tie, .. } => scl_tie.0.clone(),
    }
}

#[test]
fn of_several_pull_ups_the_first_by_designator_is_taken() {
    for swapped in [false, true] {
        let mut n = board();
        for r in ["R5", "R6", "R1", "R2"] {
            part(&mut n, r, "4k7", "R");
        }
        part(&mut n, "U1", "IC", "IC");
        let (a, b) = if swapped { (("R1", "R2"), ("R5", "R6")) } else { (("R5", "R6"), ("R1", "R2")) };
        net(&mut n, "/SCL_A", &[(a.0, "1"), ("U1", "1"), (b.0, "1")]);
        net(&mut n, "/SDA_A", &[(a.1, "1"), ("U1", "2"), (b.1, "1")]);
        if swapped {
            net(&mut n, "+1V8", &[("R1", "2"), ("R2", "2")]);
            net(&mut n, "+3V3", &[("R5", "2"), ("R6", "2")]);
        } else {
            net(&mut n, "+3V3", &[("R5", "2"), ("R6", "2")]);
            net(&mut n, "+1V8", &[("R1", "2"), ("R2", "2")]);
        }
        let mut diagnostics = Vec::new();
        let buses = find_i2c_buses(&n, &mut diagnostics);
        let bus = buses.by_name.get(&"/I2C_A".to_string()).unwrap();
        let pull_up = bus.pull_up.as_ref().unwrap();
        assert_eq!(pull_up.scl.0, "R1");
        assert_eq!(pull_up.sda.0, "R2");
        assert_eq!(pull_up.v_net.0, "+1V8");
        assert!(bus.nodes.iter().all(|x| part_of(x) != "R1" && part_of(x) != "R2"));
    }
}

#[test]
fn nodes_follow_the_nodes_of_the_clock_line_and_then_of_the_data_line() {
    let mut n = board();
    part(&mut n, "R1", "4k7", "R");
    part(&mut n, "R2", "4k7", "R");
    for u in ["U1", "U2", "U3", "U4"] {
        part(&mut n, u, "IC", "IC");
    }
    net(&mut n, "/SDA_A", &[("U4", "2"), ("U1", "2"), ("R2", "1"), ("U3", "2")]);
    net(&mut n, "/SCL_A", &[("U2", "1"), ("R1", "1"), ("U1", "1"), ("U2", "5")]);
    net(&mut n, "+3V3", &[("R1", "2"), ("R2", "2")]);
    let mut diagnostics = Vec::new();
    let buses = find_i2c_buses(&n, &mut diagnostics);
    let bus = buses.by_name.get(&"/I2C_A".to_string()).unwrap();
    let order: Vec<String> = bus.nodes.iter().map(part_of).collect();
    assert_eq!(order, vec!["U2", "U1", "U4", "U3"]);
}

#[test]
fn buses_and_segments_are_the_same_when_found_again() {
    let netlist = tied_board();
    let mut first = Vec::new();
    let a = find_i2c_buses(&netlist, &mut first);
    let mut second = Vec::new();
    let b = find_i2c_buses(&netlist, &mut second);
    assert_eq!(a.by_name.keys, b.by_name.keys);
    for (x, y) in a.by_name.values.iter().zip(b.by_name.values.iter()) {
        assert_eq!(x.scl_net.0, y.scl_net.0);
        assert_eq!(x.sda_net.0, y.sda_net.0);
        assert_eq!(x.nodes.iter().map(part_of).collect::<Vec<_>>(), y.nodes.iter().map(part_of).collect::<Vec<_>>());
    }
    let items = |s: &Vec<KeySet<String>>| s.iter().map(|k| k.items.clone()).collect::<Vec<_>>();
    assert_eq!(items(&a.direct_segments), items(&b.direct_segments));
    assert_eq!(items(&a.same_bus_segments), items(&b.same_bus_segments));
    assert_eq!(first.len(), second.len());
}

#[test]
fn a_part_on_the_clock_lines_takes_the_first_partner_by_designator() {
    let mut n = board();
    for r in ["R9", "R3", "R1"] {
        part(&mut n, r, "0R", "R");
    }
    net(&mut n, "/SCL_A", &[("R1", "1")]);
    net(&mut n, "/SDA_A", &[("R9", "1"), ("R3", "1")]);
    net(&mut n, "/SCL_B", &[("R1", "2")]);
    net(&mut n, "/SDA_B", &[("R9", "2"), ("R3", "2")]);
    let mut buses = vec![
        bare_bus("/I2C_A", "/SCL_A", "/SDA_A", vec![
            I2cNode::Unknown(d("R1")),
            I2cNode::Unknown(d("R9")),
            I2cNode::Unknown(d("R3")),
        ]),
        bare_bus("/I2C_B", "/SCL_B", "/SDA_B", vec![]),
    ];
    let mut diagnostics = Vec::new();
    look_for_bus_interconnects(&n, &mut buses, &mut diagnostics);
    assert_eq!(buses[0].nodes.len(), 2);
    assert!(is_tie(&buses[0].nodes[0], "R1", "R3", "/I2C_B"));
    assert!(is_tie(&buses[0].nodes[1], "R1", "R9", "/I2C_B"));
    assert_eq!(buses[1].nodes.len(), 2);
    assert!(is_tie(&buses[1].nodes[0], "R1", "R3", "/I2C_A"));
    assert!(is_tie(&buses[1].nodes[1], "R1", "R9", "/I2C_A"));
}
