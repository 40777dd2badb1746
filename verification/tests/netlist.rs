use erc_core::chains::Link;
use erc_core::collections::{Dict, KeySet};
use erc_core::model::{Component, LibName, LibPart, LibPartName, Net, Pin, PinType};
use erc_core::names::{Designator, NetName, PinId, PinName};
use erc_core::netlist::{Netlist, ResistanceError};
use erc_core::passive_value::{Ohm, PassiveValueParseError};
use std::collections::HashSet;

fn d(s: &str) -> Designator {
    Designator(s.to_string())
}

fn n(s: &str) -> NetName {
    NetName(s.to_string())
}

fn p(s: &str) -> PinId {
    PinId(s.to_string())
}

fn key(part: &str) -> (LibName, LibPartName) {
    (LibName("Device".to_string()), LibPartName(part.to_string()))
}

fn part(netlist: &mut Netlist, designator: &str, value: &str, lib_part: &str) {
    netlist.insert_component(
        d(designator),
        Component {
            value: value.to_string(),
            description: String::new(),
            lib_source: key(lib_part),
            fields: Dict::new(),
            sections: vec![],
        },
    );
}

fn lib_part(netlist: &mut Netlist, name: &str, pins: &[(&str, &str, PinType)]) {
    let mut part = LibPart::empty();
    for (id, pin_name, ty) in pins {
        part.pins.insert(p(id), Pin::plain(PinName(pin_name.to_string()), *ty));
    }
    netlist.insert_lib_part(key(name), part);
}

fn net(netlist: &mut Netlist, name: &str, nodes: &[(&str, &str)]) {
    let mut net = Net::new();
    for (designator, pin) in nodes {
        net.add_node(d(designator), p(pin));
    }
    assert!(netlist.insert_net(n(name), net));
}

fn names(set: &KeySet<NetName>) -> HashSet<String> {
    set.items.iter().map(|x| x.0.clone()).collect()
}

fn parts(set: &KeySet<Designator>) -> HashSet<String> {
    set.items.iter().map(|x| x.0.clone()).collect()
}

fn set(items: &[&str]) -> HashSet<String> {
    items.iter().map(|s| s.to_string()).collect()
}

fn links(set: &KeySet<Link>) -> HashSet<(String, String)> {
    set.items.iter().map(|l| (l.0 .0.clone(), l.1 .0.clone())).collect()
}

/// A regulator U1 with inductor L1, a divider R1/R2, a FET Q1 and an LED.
fn board() -> Netlist {
    let mut b = Netlist::new();
    lib_part(&mut b, "R", &[("1", "~", PinType::Passive), ("2", "~", PinType::Passive)]);
    lib_part(
        &mut b,
        "Q",
        &[("1", "G", PinType::Passive), ("2", "S", PinType::Passive), ("3", "D", PinType::Passive)],
    );
    lib_part(
        &mut b,
        "REG",
        &[
            ("1", "VIN", PinType::PowerIn),
            ("2", "SW", PinType::PowerOut),
            ("3", "FB", PinType::AnalogInput),
            ("4", "GND", PinType::PowerIn),
        ],
    );
    part(&mut b, "U1", "TPS5430", "REG");
    part(&mut b, "L1", "10u", "R");
    part(&mut b, "R1", "10k", "R");
    part(&mut b, "R2", "3k3", "R");
    part(&mut b, "Q1", "BSS138", "Q");
    part(&mut b, "LED1", "RED", "R");
    net(&mut b, "VIN", &[("U1", "1"), ("Q1", "3")]);
    net(&mut b, "Net-(U1-SW)", &[("U1", "2"), ("L1", "1")]);
    net(&mut b, "+5V", &[("L1", "2"), ("R1", "1"), ("LED1", "1")]);
    net(&mut b, "/FB", &[("U1", "3"), ("R1", "2"), ("R2", "1")]);
    net(&mut b, "GND", &[("U1", "4"), ("R2", "2"), ("Q1", "2")]);
    net(&mut b, "/EN", &[("Q1", "1"), ("LED1", "2")]);
    b
}

#[test]
fn designator_predicates() {
    assert!(d("R12").is_resistor());
    assert!(!d("C12").is_resistor());
    assert!(d("C1").is_capacitor());
    assert!(d("L1").is_inductor());
    assert!(d("L12").is_inductor());
    assert!(!d("LED1").is_inductor());
    assert!(!d("LD3").is_inductor());
    assert!(!d("L").is_inductor());
    assert!(!d("").is_inductor());
    assert!(d("Q3").is_transistor());
    assert!(d("U7").is_ic());
    assert!(!d("").is_ic());
}

#[test]
fn lengths_are_counted_in_bytes() {
    assert_eq!(d("R12").len(), 3);
    assert_eq!(n("/I2C_Ω").len(), 7);
    assert_eq!(p("").len(), 0);
    assert_eq!(PinName("GATE".to_string()).len(), 4);
}

#[test]
fn names_compare_exactly() {
    assert_eq!(d("R1"), d("R1"));
    assert_ne!(d("R1"), d("r1"));
    assert_eq!(d("R1").clone(), d("R1"));
}

#[test]
fn pin_net_finds_the_net_of_a_pin() {
    let b = board();
    assert_eq!(b.pin_net(&d("U1"), &p("2")), Some(n("Net-(U1-SW)")));
    assert_eq!(b.pin_net(&d("U1"), &p("9")), None);
    assert_eq!(b.pin_net(&d("X1"), &p("1")), None);
}

#[test]
fn part_nets_lists_all_nets_of_a_part() {
    let b = board();
    assert_eq!(names(&b.part_nets(&d("R1"))), set(&["+5V", "/FB"]));
    assert_eq!(names(&b.part_nets(&d("X1"))), set(&[]));
}

#[test]
fn is_connected_looks_at_one_net() {
    let b = board();
    assert!(b.is_connected(&d("R1"), &n("/FB")));
    assert!(!b.is_connected(&d("R1"), &n("GND")));
    assert!(!b.is_connected(&d("R1"), &n("NOPE")));
}

#[test]
fn parts_are_connected_exactly_when_they_share_a_net() {
    let b = board();
    let all = ["U1", "L1", "R1", "R2", "Q1", "LED1", "X1"];
    for a in all {
        for c in all {
            let common = b.parts_common_nets(&d(a), &d(c));
            assert_eq!(b.are_parts_connected(&d(a), &d(c)), !common.is_empty(), "{a} {c}");
        }
    }
    assert_eq!(names(&b.parts_common_nets(&d("R1"), &d("R2"))), set(&["/FB"]));
    assert!(!b.are_parts_connected(&d("R2"), &d("L1")));
}

#[test]
fn any_net_parts_unites_the_parts_of_nets() {
    let b = board();
    let vin = n("VIN");
    let en = n("/EN");
    let missing = n("NOPE");
    assert_eq!(parts(&b.any_net_parts(&[&vin, &en, &missing])), set(&["U1", "Q1", "LED1"]));
    assert_eq!(parts(&b.any_net_parts(&[])), set(&[]));
}

#[test]
fn gate_nets_can_be_left_out() {
    let b = board();
    let g = PinName("G".to_string());
    let gate = PinName("GATE".to_string());
    let nets: HashSet<String> =
        b.part_nets_exclude_pin_names(&d("Q1"), &[&g, &gate]).iter().map(|x| x.0.clone()).collect();
    assert_eq!(nets, set(&["VIN", "GND"]));
    let all: HashSet<String> =
        b.part_nets_exclude_pin_names(&d("Q1"), &[]).iter().map(|x| x.0.clone()).collect();
    assert_eq!(all, set(&["VIN", "GND", "/EN"]));
    assert!(b.part_nets_exclude_pin_names(&d("X1"), &[]).is_empty());
}

#[test]
fn nets_with_pin_types_are_found() {
    let b = board();
    assert_eq!(
        names(&b.find_nets_with_pin_types(&[PinType::PowerIn, PinType::PowerOut])),
        set(&["VIN", "Net-(U1-SW)", "GND"])
    );
    assert_eq!(names(&b.find_nets_with_pin_types(&[PinType::AnalogInput])), set(&["/FB"]));
    assert_eq!(names(&b.find_nets_with_pin_types(&[])), set(&[]));
}

#[test]
fn resistance_is_read_from_the_value() {
    let mut b = board();
    assert_eq!(b.resistance(&d("R1")), Ok(Ohm::from_ohms(10_000)));
    assert_eq!(b.resistance(&d("R2")), Ok(Ohm::from_ohms(3300)));
    assert_eq!(b.resistance(&d("U1")), Err(ResistanceError::NotAResistor));
    assert_eq!(b.resistance(&d("R9")), Err(ResistanceError::NotFound));
    part(&mut b, "R3", "", "R");
    assert_eq!(b.resistance(&d("R3")), Err(ResistanceError::NoValue));
    part(&mut b, "R4", "DNP", "R");
    assert_eq!(
        b.resistance(&d("R4")),
        Err(ResistanceError::Value(PassiveValueParseError::Unrecognized))
    );
    part(&mut b, "R5", "99999999G", "R");
    assert_eq!(
        b.resistance(&d("R5")),
        Err(ResistanceError::Value(PassiveValueParseError::OutOfRange))
    );
    assert_eq!(
        ResistanceError::Value(PassiveValueParseError::OutOfRange).message(),
        "resistance value out of range"
    );
    assert_eq!(ResistanceError::NoValue.message(), "part has no value");
    assert_eq!(ResistanceError::NotFound.message(), "part not found");
    assert_eq!(ResistanceError::NotAResistor.message(), "not a resistor");
}

#[test]
fn reachable_pins_skip_the_entry_pin() {
    let b = board();
    let any = |_: &Designator| true;
    assert_eq!(
        links(&b.find_reachable_pins(&d("R1"), &p("1"), &any)),
        [("3", "U1"), ("1", "R2")].iter().map(|(a, c)| (a.to_string(), c.to_string())).collect()
    );
    assert_eq!(
        links(&b.find_reachable_pins(&d("R1"), &p("1"), &Designator::is_resistor)),
        [("1", "R2")].iter().map(|(a, c)| (a.to_string(), c.to_string())).collect()
    );
    assert!(b.find_reachable_pins(&d("X1"), &p("1"), &any).is_empty());
}

#[test]
fn chains_start_and_end_on_their_nets() {
    let b = board();
    let preds = [Designator::is_resistor, Designator::is_resistor];
    let start = n("+5V");
    let end = n("GND");
    let chains = b.find_net_chains(&start, &preds, &end);
    assert_eq!(chains.len(), 1);
    for chain in &chains {
        assert_eq!(chain.len(), preds.len());
        assert!(b.is_connected(&chain[0].1, &start));
        assert!(b.is_connected(&chain[chain.len() - 1].1, &end));
        for (i, link) in chain.iter().enumerate() {
            assert!(preds[i](&link.1));
        }
        for w in chain.windows(2) {
            assert!(b.are_parts_connected(&w[0].1, &w[1].1));
        }
    }
    assert_eq!(chains[0][0], (p("1"), d("R1")));
    assert_eq!(chains[0][1], (p("1"), d("R2")));
}

#[test]
fn chains_of_different_kinds() {
    let b = board();
    let ic = |x: &Designator| x.is_ic();
    let chains = b.find_net_chains(&n("VIN"), &[ic], &n("GND"));
    assert_eq!(chains.len(), 1);
    assert_eq!(chains[0][0].1, d("U1"));
    let chains = b.find_net_chains(&n("VIN"), &[Designator::is_transistor], &n("/EN"));
    assert_eq!(chains.len(), 1);
    assert_eq!(chains[0][0], (p("3"), d("Q1")));
}

#[test]
fn no_chain_without_predicates_or_start_net() {
    let b = board();
    let none: [fn(&Designator) -> bool; 0] = [];
    assert!(b.find_net_chains(&n("+5V"), &none, &n("GND")).is_empty());
    assert!(b.find_net_chains(&n("NOPE"), &[Designator::is_resistor], &n("GND")).is_empty());
    assert!(b.find_net_chains(&n("+5V"), &[Designator::is_resistor], &n("NOPE")).is_empty());
    assert!(b.find_net_chains(&n("+5V"), &[Designator::is_capacitor], &n("/FB")).is_empty());
}

#[test]
fn first_net_of_a_name_wins() {
    let mut b = board();
    let mut other = Net::new();
    other.add_node(d("X9"), p("1"));
    assert!(!b.insert_net(n("GND"), other));
    assert_eq!(names(&b.part_nets(&d("X9"))), set(&[]));
    assert_eq!(b.nets.keys.len(), 6);
}

#[test]
fn nodes_of_a_net_are_a_set() {
    let mut net = Net::new();
    assert!(net.add_node(d("R1"), p("1")));
    assert!(!net.add_node(d("R1"), p("1")));
    assert!(net.add_node(d("R1"), p("2")));
    assert_eq!(net.nodes.len(), 2);
    assert!(net.contains_node(&d("R1"), &p("2")));
    assert!(!net.contains_node(&d("R2"), &p("2")));
    assert!(net.touches_part(&d("R1")));
}

#[test]
fn dangling_nodes_are_counted() {
    let mut b = board();
    assert!(b.dangling_nodes().is_empty());
    net(&mut b, "/X", &[("R1", "7"), ("X1", "1"), ("U1", "3")]);
    let dangling = b.dangling_nodes();
    assert_eq!(dangling.len(), 1);
    assert_eq!(dangling[0].designator, d("R1"));
    assert_eq!(dangling[0].pin_id, p("7"));
    assert!(b.pin_dangles(&d("R1"), &p("7")));
    assert!(!b.pin_dangles(&d("X1"), &p("1")));
}

#[test]
fn able_to_find_unconnected_inputs() {
    let mut b = board();
    lib_part(
        &mut b,
        "BUF",
        &[("1", "A", PinType::DigitalInput), ("2", "Y", PinType::DigitalOutput)],
    );
    part(&mut b, "U2", "74LVC1G17", "BUF");
    net(&mut b, "/IN", &[("U2", "1"), ("X1", "1")]);
    net(&mut b, "/OUT", &[("U2", "2"), ("U2", "9")]);
    let inputs = erc_core::general::input_without_driving_source(&b);
    assert_eq!(inputs, vec![(n("/IN"), d("U2"), p("1"))]);
    assert_eq!(
        erc_core::general::pin_type(&b, &d("U1"), &p("3")),
        Some(PinType::AnalogInput)
    );
    assert_eq!(erc_core::general::pin_type(&b, &d("U1"), &p("9")), None);
}

#[test]
fn parts_without_library_part_are_listed() {
    let mut b = board();
    assert!(b.unresolved_components().is_empty());
    part(&mut b, "X1", "?", "NOPE");
    part(&mut b, "X2", "?", "NOPE2");
    assert_eq!(b.unresolved_components(), vec![d("X1"), d("X2")]);
    let board = erc_core::pcb_assembly::PcbAssembly::new("demo".to_string(), b);
    assert_eq!(board.name, "demo");
    assert_eq!(board.pnp.len(), 0);
    assert_eq!(board.netlist.components.len(), 8);
}

#[test]
fn key_sets_and_dicts_keep_insertion_order() {
    let mut set: KeySet<String> = KeySet::new();
    assert!(set.insert("b".to_string()));
    assert!(set.insert("a".to_string()));
    assert!(!set.insert("b".to_string()));
    assert_eq!(set.items, vec!["b".to_string(), "a".to_string()]);
    assert!(set.remove(&"b".to_string()));
    assert!(!set.remove(&"b".to_string()));
    assert_eq!(set.len(), 1);
    assert!(set.contains(&"a".to_string()));
    let mut dict: Dict<String, u8> = Dict::new();
    dict.insert("x".to_string(), 1);
    dict.insert("y".to_string(), 2);
    dict.insert("x".to_string(), 3);
    assert_eq!(dict.keys, vec!["x".to_string(), "y".to_string()]);
    assert_eq!(dict.get(&"x".to_string()), Some(&3));
    assert!(!dict.insert_if_absent("y".to_string(), 9));
    assert_eq!(dict.get(&"y".to_string()), Some(&2));
    assert!(dict.remove(&"x".to_string()));
    assert_eq!(dict.get(&"x".to_string()), None);
    assert_eq!(dict.len(), 1);
}
