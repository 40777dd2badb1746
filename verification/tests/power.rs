use erc_core::collections::{Dict, KeySet};
use erc_core::model::{Component, LibName, LibPart, LibPartName, Net, Pin, PinType};
use erc_core::names::{Designator, NetName, PinId, PinName};
use erc_core::netlist::Netlist;
use erc_core::pcba::{find_switching_nodes, Pcba};
use erc_core::power::{derive_power_structure, rail_voltage, PowerRail, Volt};
use std::collections::HashSet;

fn d(s: &str) -> Designator {
    Designator(s.to_string())
}

fn n(s: &str) -> NetName {
    NetName(s.to_string())
}

fn key(part: &str) -> (LibName, LibPartName) {
    (LibName("Device".to_string()), LibPartName(part.to_string()))
}

fn part(netlist: &mut Netlist, designator: &str, value: &str, lib_part: &str) {
    netlist.insert_component(
        d(designator),
        Component {
            value: value.to_string(),
            description: String::new(),
            lib_source: key(lib_part),
            fields: Dict::new(),
            sections: vec![],
        },
    );
}

fn lib_part(netlist: &mut Netlist, name: &str, pins: &[(&str, &str, PinType)]) {
    let mut part = LibPart::empty();
    for (id, pin_name, ty) in pins {
        part.pins.insert(PinId(id.to_string()), Pin::plain(PinName(pin_name.to_string()), *ty));
    }
    netlist.insert_lib_part(key(name), part);
}

fn net(netlist: &mut Netlist, name: &str, nodes: &[(&str, &str)]) {
    let mut net = Net::new();
    for (designator, pin) in nodes {
        net.add_node(d(designator), PinId(pin.to_string()));
    }
    assert!(netlist.insert_net(n(name), net));
}

fn names(set: &KeySet<NetName>) -> HashSet<String> {
    set.items.iter().map(|x| x.0.clone()).collect()
}

fn set(items: &[&str]) -> HashSet<String> {
    items.iter().map(|s| s.to_string()).collect()
}

fn rails(power: &erc_core::power::Power) -> HashSet<String> {
    power.power_rails.keys.iter().map(|x| x.0.clone()).collect()
}

fn named(names: &[&str]) -> Netlist {
    let mut b = Netlist::new();
    for (i, name) in names.iter().enumerate() {
        net(&mut b, name, &[(&format!("TP{i}"), "1")]);
    }
    b
}

fn volts(v: Volt) -> f32 {
    (v.0 as f64 / 1_000_000.0) as f32
}

#[test]
fn rails_and_grounds_by_name() {
    let b = named(&["+3V3", "3V3", "GND", "AGND", "ISO_GND", "VDD_CORE", "/MCU/VCC", "+VBAT", "/SIG"]);
    let power = derive_power_structure(&b, true);
    assert_eq!(rails(&power), set(&["+3V3", "VDD_CORE", "/MCU/VCC", "+VBAT"]));
    assert_eq!(
        power.power_rails.get(&n("+3V3")),
        Some(&PowerRail { voltage: Some(Volt(3_300_000)) })
    );
    assert_eq!(volts(power.power_rails.get(&n("+3V3")).unwrap().voltage.unwrap()), 3.3);
    assert_eq!(power.power_rails.get(&n("VDD_CORE")), Some(&PowerRail { voltage: None }));
    assert!(power.power_rails.get(&n("3V3")).is_none());
    assert_eq!(names(&power.ground_nets), set(&["GND", "AGND", "ISO_GND"]));
    assert!(power.is_power_net(&n("GND")));
    assert!(power.is_power_net(&n("+3V3")));
    assert!(!power.is_power_net(&n("3V3")));
    assert!(!power.is_power_net(&n("/SIG")));
}

#[test]
fn loose_rails_need_no_plus() {
    let b = named(&["3V3", "/A1V25B", "ISO1", "VSS", "VEE", "/SIG"]);
    let power = derive_power_structure(&b, false);
    assert_eq!(rails(&power), set(&["3V3", "/A1V25B"]));
    assert_eq!(power.power_rails.get(&n("3V3")).unwrap().voltage, Some(Volt(3_300_000)));
    assert_eq!(power.power_rails.get(&n("/A1V25B")).unwrap().voltage, Some(Volt(1_250_000)));
    assert_eq!(names(&power.ground_nets), set(&["ISO1", "VSS", "VEE"]));
}

#[test]
fn voltage_is_whole_plus_decimal_fraction() {
    let g = |w: &str, f: &str| vec!["x".to_string(), w.to_string(), f.to_string()];
    assert_eq!(rail_voltage(&g("3", "3")), Some(Volt(3_300_000)));
    assert_eq!(rail_voltage(&g("1", "25")), Some(Volt(1_250_000)));
    assert_eq!(rail_voltage(&g("1", "05")), Some(Volt(1_050_000)));
    assert_eq!(rail_voltage(&g("2", "1234567")), Some(Volt(2_123_456)));
    assert_eq!(rail_voltage(&g("2", "00000000000000000000009")), Some(Volt(2_000_000)));
    assert_eq!(rail_voltage(&g("12", "0")), Some(Volt(12_000_000)));
    assert_eq!(rail_voltage(&g("0", "9")), Some(Volt(900_000)));
    assert_eq!(rail_voltage(&g("5", "123")), Some(Volt(5_123_000)));
    assert_eq!(rail_voltage(&g("99999999999", "3")), None);
    assert_eq!(rail_voltage(&g("3", "٣")), None);
    assert_eq!(rail_voltage(&g("", "3")), None);
    assert_eq!(rail_voltage(&vec!["x".to_string()]), None);
}

#[test]
fn a_rail_with_unreadable_voltage_has_none() {
    let b = named(&["+99999999999V3"]);
    let power = derive_power_structure(&b, true);
    assert_eq!(power.power_rails.get(&n("+99999999999V3")), Some(&PowerRail { voltage: None }));
}

/// A buck regulator U1 with inductor L1, and an RF amplifier U2 with choke L2.
fn regulator_board() -> Netlist {
    let mut b = Netlist::new();
    lib_part(
        &mut b,
        "REG",
        &[
            ("1", "VIN", PinType::PowerIn),
            ("2", "LX", PinType::PowerOut),
            ("3", "GND", PinType::PowerIn),
        ],
    );
    lib_part(&mut b, "L", &[("1", "~", PinType::Passive), ("2", "~", PinType::Passive)]);
    part(&mut b, "U1", "REG", "REG");
    part(&mut b, "L1", "10u", "L");
    part(&mut b, "U2", "LNA", "L");
    part(&mut b, "L2", "100n", "L");
    part(&mut b, "C1", "10u", "L");
    part(&mut b, "R1", "10k", "L");
    net(&mut b, "VIN", &[("U1", "1"), ("C1", "1")]);
    net(&mut b, "/LX", &[("U1", "2"), ("L1", "1")]);
    net(&mut b, "+5V0", &[("L1", "2"), ("C1", "2"), ("R1", "1")]);
    net(&mut b, "GND", &[("U1", "3"), ("R1", "2")]);
    net(&mut b, "/RF_OUT", &[("U2", "1"), ("L2", "1")]);
    net(&mut b, "/ANT", &[("L2", "2")]);
    b
}

#[test]
fn pin_typed_nets_are_rails_unless_ground() {
    let b = regulator_board();
    let power = derive_power_structure(&b, true);
    assert_eq!(rails(&power), set(&["VIN", "/LX", "+5V0"]));
    assert_eq!(power.power_rails.get(&n("/LX")), Some(&PowerRail { voltage: None }));
    assert_eq!(power.power_rails.get(&n("+5V0")), Some(&PowerRail { voltage: Some(Volt(5_000_000)) }));
    assert_eq!(power.power_rails.get(&n("VIN")), Some(&PowerRail { voltage: None }));
    assert_eq!(names(&power.ground_nets), set(&["GND"]));
}

#[test]
fn switching_nodes_are_not_rails() {
    let pcba = Pcba::new(regulator_board());
    assert_eq!(names(&pcba.switching_nodes), set(&["/LX"]));
    for node in &pcba.switching_nodes.items {
        assert!(pcba.power.power_rails.get(node).is_none());
    }
    assert_eq!(rails(&pcba.power), set(&["VIN", "+5V0"]));
    assert_eq!(names(&pcba.power.ground_nets), set(&["GND"]));
    assert!(names(&find_switching_nodes(&pcba)).contains("/LX"));
}

#[test]
fn connected_parts_may_ignore_power_nets() {
    let pcba = Pcba::new(regulator_board());
    let any = |_: &Designator| true;
    let all: HashSet<String> =
        pcba.find_connected_parts(&d("R1"), &any, false).items.iter().map(|x| x.0.clone()).collect();
    assert_eq!(all, set(&["U1", "L1", "C1", "R1"]));
    let signal: HashSet<String> =
        pcba.find_connected_parts(&d("R1"), &any, true).items.iter().map(|x| x.0.clone()).collect();
    assert_eq!(signal, set(&[]));
    let inductors: HashSet<String> = pcba
        .find_connected_parts(&d("U1"), &Designator::is_inductor, true)
        .items
        .iter()
        .map(|x| x.0.clone())
        .collect();
    assert_eq!(inductors, set(&["L1"]));
    assert!(pcba.are_joined(&d("U1"), &d("L1"), true));
    assert!(!pcba.are_joined(&d("U1"), &d("C1"), true));
    assert!(pcba.are_joined(&d("U1"), &d("C1"), false));
}

#[test]
fn part_chains_follow_connections() {
    let pcba = Pcba::new(regulator_board());
    let ic = |x: &Designator| x.is_ic();
    let inductor = |x: &Designator| x.is_inductor();
    let preds: [&dyn Fn(&Designator) -> bool; 2] = [&ic, &inductor];
    let chains = pcba.find_part_chains(&preds, false);
    let found: HashSet<Vec<String>> =
        chains.iter().map(|c| c.iter().map(|x| x.0.clone()).collect()).collect();
    let expected: HashSet<Vec<String>> = [vec!["U1", "L1"], vec!["U2", "L2"]]
        .iter()
        .map(|c| c.iter().map(|s| s.to_string()).collect())
        .collect();
    assert_eq!(found, expected);
    assert!(pcba.find_part_chains(&preds[..1], false).is_empty());
    let none: [&dyn Fn(&Designator) -> bool; 0] = [];
    assert!(pcba.find_part_chains(&none, false).is_empty());
    let three: [&dyn Fn(&Designator) -> bool; 3] = [&ic, &inductor, &|x: &Designator| x.is_resistor()];
    let chains = pcba.find_part_chains(&three, false);
    assert_eq!(chains.len(), 1);
    assert_eq!(chains[0], vec![d("U1"), d("L1"), d("R1")]);
}

#[test]
fn bus_lines_are_not_rails() {
    let mut b = Netlist::new();
    lib_part(&mut b, "R", &[("1", "~", PinType::Passive), ("2", "~", PinType::Passive)]);
    part(&mut b, "R1", "4k7", "R");
    part(&mut b, "R2", "4k7", "R");
    part(&mut b, "U1", "IC", "R");
    net(&mut b, "/SCL+3V3", &[("R1", "1"), ("U1", "1")]);
    net(&mut b, "/SDA+3V3", &[("R2", "1"), ("U1", "2")]);
    net(&mut b, "+3V3", &[("R1", "2"), ("R2", "2"), ("U1", "3")]);
    let power = derive_power_structure(&b, true);
    assert_eq!(rails(&power), set(&["/SCL+3V3", "/SDA+3V3", "+3V3"]));
    let pcba = Pcba::new(b);
    assert_eq!(rails(&pcba.power), set(&["+3V3"]));
    assert_eq!(pcba.i2c_buses.by_name.keys, vec!["/I2C+3V3".to_string()]);
    assert!(pcba.diagnostics.style.is_empty());
}
