use erc_core::edif_text::EdifError;
use erc_core::model::{LibName, LibPartName, PinType};
use erc_core::names::{Designator, NetName, PinId};
use erc_core::orcad_text::{
    load_orcad_texts, parse_orcad_nets, parse_orcad_parts, parse_orcad_primitives, OrcadError,
};
use erc_core::sexp::SexpError;
use erc_core::wirelist_text::{load_altium_texts, parse_wirelist, AltiumError, WirelistError};

const NETS: &str = r#"
(net (net_name "TOUCH_INT_N") (c_signal "@board.sch(sch_1):touch_int_n")
  (node (designator R610) (pin_id 2) (instance_name "@board.sch(sch_1):ins1@res(chips)") (pin_name "2"))
  (node (designator Q34) (pin_id 3) (pin_name "D")))
(net (net_name EMMC_D0)
  (node (designator U5) (pin_id A3))
  (node (designator U5)))
(net (c_signal "nameless") (node (designator R1) (pin_id 1)))
(exporter "passed over")
(net (net_name GND) (node (designator R610) (pin_id 1)))
"#;

const PARTS: &str = r#"
(part R610 RES_0402 (section "" "@board.sch(sch_1):page3_i5@res(chips)"))
(part U5 EMMC_BGA153
  (section A "@board.sch(sch_1):page12_i1@emmc(chips)")
  (section B "@board.sch(sch_1):pagex"))
(part) (part R9)
"#;

const CHIPS: &str = r#"
(primitive RES_0402
  (pins
    (pin 1 (param PIN_NUMBER "(1)"))
    (pin 2 (param PIN_NUMBER "(2)") (param PINUSE POWER))
    (pin X (param PINUSE POWER)))
  (body (param VALUE 10k) (param JEDEC_TYPE R0402)))
(primitive EMMC_BGA153
  (pins
    (pin DAT0 (param PIN_NUMBER "(A3,0)") (param BIDIRECTIONAL TRUE))
    (pin VCC (param PIN_NUMBER "(0,E6)") (param PINUSE POWER)))
  (body (param VALUE "")))
"#;

#[test]
fn nets_are_read_from_text() {
    let nets = parse_orcad_nets(NETS).unwrap();
    assert_eq!(nets.len(), 4);
    assert_eq!(nets[0].name, Some("TOUCH_INT_N".to_string()));
    assert_eq!(nets[0].nodes.len(), 2);
    assert_eq!(nets[0].nodes[1].designator, Some("Q34".to_string()));
    assert_eq!(nets[0].nodes[1].pin_id, Some("3".to_string()));
    assert_eq!(nets[1].nodes[1].designator, Some("U5".to_string()));
    assert_eq!(nets[1].nodes[1].pin_id, None);
    assert_eq!(nets[2].name, None);
    assert_eq!(nets[3].name, Some("GND".to_string()));
}

#[test]
fn parts_are_read_from_text() {
    let parts = parse_orcad_parts(PARTS).unwrap();
    assert_eq!(parts.len(), 2);
    assert_eq!(parts[0].designator, "R610");
    assert_eq!(parts[0].lib_part_name, "RES_0402");
    assert_eq!(parts[0].sections.len(), 1);
    assert_eq!(parts[1].sections[0].name, "A");
    assert_eq!(parts[1].sections[1].p_path, "@board.sch(sch_1):pagex");
}

#[test]
fn primitives_are_read_from_text() {
    let primitives = parse_orcad_primitives(CHIPS).unwrap();
    assert_eq!(primitives.len(), 2);
    assert_eq!(primitives[0].name, "RES_0402");
    assert_eq!(primitives[0].pins.len(), 3);
    assert_eq!(primitives[0].pins[1].params.len(), 2);
    assert_eq!(primitives[0].pins[1].params[1].name, "PINUSE");
    assert_eq!(primitives[0].pins[1].params[1].value, "POWER");
    assert_eq!(primitives[0].body[0].value, "10k");
    assert_eq!(primitives[1].body[0].value, "");
    assert_eq!(primitives[1].pins[0].params[0].value, "(A3,0)");
}

#[test]
fn texts_that_are_no_forms_are_refused() {
    assert_eq!(parse_orcad_nets("(net (net_name \"A)").unwrap_err(), OrcadError::Syntax(SexpError::OpenQuote));
    assert_eq!(parse_orcad_nets("(net (net_name A)").unwrap_err(), OrcadError::Syntax(SexpError::Unbalanced));
    assert_eq!(parse_orcad_parts("(part R1 X))").unwrap_err(), OrcadError::Syntax(SexpError::Unbalanced));
    assert_eq!(parse_orcad_primitives("\"").unwrap_err(), OrcadError::Syntax(SexpError::OpenQuote));
    assert!(parse_orcad_nets("").unwrap().is_empty());
    assert_eq!(parse_wirelist("COMPONENT_LIST (").unwrap_err(), WirelistError::Syntax(SexpError::Unbalanced));
    assert_eq!(parse_wirelist("COMPONENT_LIST \"x").unwrap_err(), WirelistError::Syntax(SexpError::OpenQuote));
}

#[test]
fn an_orcad_netlist_is_built_from_its_three_texts() {
    let netlist = load_orcad_texts(NETS, Some(PARTS), Some(CHIPS)).unwrap();
    assert_eq!(netlist.nets.len(), 3);
    assert_eq!(netlist.components.len(), 2);
    let r610 = netlist.components.get(&Designator("R610".into())).unwrap();
    assert_eq!(r610.value, "10k");
    assert_eq!(r610.sections[0].page_number, Some(3));
    let u5 = netlist.components.get(&Designator("U5".into())).unwrap();
    assert_eq!(u5.sections[0].page_number, Some(12));
    assert_eq!(u5.sections[1].page_number, None);
    let emmc = netlist
        .lib_parts
        .get(&(LibName("pstchip".into()), LibPartName("EMMC_BGA153".into())))
        .unwrap();
    let dat0 = emmc.pins.get(&PinId("A3".into())).unwrap();
    assert_eq!(dat0.section_name, Some("A".to_string()));
    assert_eq!(dat0.default_mode.ty, PinType::DigitalIO);
    let vcc = emmc.pins.get(&PinId("E6".into())).unwrap();
    assert_eq!(vcc.section_name, Some("B".to_string()));
    let net = netlist.nets.get(&NetName("EMMC_D0".into())).unwrap();
    assert_eq!(net.nodes.items.len(), 1);
    assert!(netlist.dangling_nodes().iter().all(|n| n.designator.0 != "U5"));
}

#[test]
fn a_missing_companion_file_is_told() {
    assert_eq!(load_orcad_texts(NETS, None, Some(CHIPS)).unwrap_err(), OrcadError::MissingCompanionFile);
    assert_eq!(load_orcad_texts(NETS, Some(PARTS), None).unwrap_err(), OrcadError::MissingCompanionFile);
    assert_eq!(load_orcad_texts("(", None, None).unwrap_err(), OrcadError::MissingCompanionFile);
    assert_eq!(
        load_orcad_texts("(", Some(PARTS), Some(CHIPS)).unwrap_err(),
        OrcadError::Syntax(SexpError::Unbalanced)
    );
    assert_eq!(
        load_orcad_texts(NETS, Some("\""), Some("(")).unwrap_err(),
        OrcadError::Syntax(SexpError::OpenQuote)
    );
    assert_eq!(load_altium_texts(EDIF, None).unwrap_err(), AltiumError::MissingCompanionFile);
    assert_eq!(load_altium_texts("(", None).unwrap_err(), AltiumError::MissingCompanionFile);
}

const WIRELIST: &str = r#"
Wire List
COMPONENT_LIST {
  ("RC0402 10k" R13 "RES 0402")
  (95278-101A06LF J2 HDR2X3)
  (short line)
}
WIRE_LIST {
  (1 NetR13_1
    (R13 1 A PASSIVE "10k"))
  (2 "+3V3"
    (R13 2 B PASSIVE "10k")
    (J2 1 VDD POWER "95278")
    (J2 3 IRQ "OPEN COLLECTOR" "95278")
    (broken))
  (3)
}
"#;

const EDIF: &str = r#"(edif Board
  (library COMPONENT_LIB
    (cell CONN
      (view netListView (interface (port &1 (direction INOUT)) (port &2 (direction INPUT)) (port &3))))
    (cell RES
      (view netListView (interface (port &1 (direction INOUT)) (port &2 (direction INOUT))))))
  (library SHEET_LIB
    (cell SHEET1
      (view netListView
        (interface)
        (contents
          (instance J2 (viewRef NetlistView (cellRef CONN (LibraryRef COMPONENT_LIB))))
          (instance R13 (viewRef NetlistView (cellRef RES (LibraryRef COMPONENT_LIB))))
          (net NetR13_1 (joined (portRef &1 (instanceRef R13))))
          (net P3V3 (joined (portRef &2 (instanceRef R13)) (portRef &1 (instanceRef J2)))))))))
"#;

#[test]
fn a_wirelist_is_read_from_text() {
    let wirelist = parse_wirelist(WIRELIST).unwrap();
    assert_eq!(wirelist.components.len(), 2);
    assert_eq!(wirelist.components[0].part_number, "RC0402 10k");
    assert_eq!(wirelist.components[0].designator, "R13");
    assert_eq!(wirelist.components[0].footprint, "RES 0402");
    assert_eq!(wirelist.components[1].designator, "J2");
    assert_eq!(wirelist.nets.len(), 2);
    assert_eq!(wirelist.nets[0].name, "NetR13_1");
    assert_eq!(wirelist.nets[1].name, "+3V3");
    assert_eq!(wirelist.nets[1].connections.len(), 3);
    let last = &wirelist.nets[1].connections[2];
    assert_eq!(last.designator, "J2");
    assert_eq!(last.pin_id, "3");
    assert_eq!(last.pin_name, "IRQ");
    assert_eq!(last.io_type, "OPEN COLLECTOR");
    assert_eq!(last.part_value, "95278");
}

#[test]
fn a_wirelist_needs_both_sections() {
    assert_eq!(parse_wirelist("").unwrap_err(), WirelistError::NoComponentList);
    assert_eq!(parse_wirelist("WIRE_LIST { }").unwrap_err(), WirelistError::NoComponentList);
    assert_eq!(parse_wirelist("(COMPONENT_LIST) WIRE_LIST").unwrap_err(), WirelistError::NoComponentList);
    assert_eq!(parse_wirelist("COMPONENT_LIST { (a b c) }").unwrap_err(), WirelistError::NoWireList);
    assert_eq!(parse_wirelist("WIRE_LIST COMPONENT_LIST").unwrap_err(), WirelistError::NoWireList);
    let empty = parse_wirelist("COMPONENT_LIST WIRE_LIST").unwrap();
    assert!(empty.components.is_empty() && empty.nets.is_empty());
    let after = parse_wirelist("COMPONENT_LIST (a b c) WIRE_LIST (1 N) (d e f)").unwrap();
    assert_eq!(after.components.len(), 1);
    assert_eq!(after.nets.len(), 2);
    assert_eq!(after.nets[1].name, "e");
}

#[test]
fn an_altium_netlist_is_built_from_its_two_texts() {
    let netlist = load_altium_texts(EDIF, Some(WIRELIST)).unwrap();
    let conn = netlist
        .lib_parts
        .get(&(LibName("COMPONENT_LIB".into()), LibPartName("CONN".into())))
        .unwrap();
    let first = conn.pins.get(&PinId("1".into())).unwrap();
    assert_eq!(first.name.0, "VDD");
    assert_eq!(first.default_mode.ty, PinType::PowerUnspecified);
    let third = conn.pins.get(&PinId("3".into())).unwrap();
    assert_eq!(third.name.0, "IRQ");
    assert_eq!(third.default_mode.ty, PinType::OpenCollector);
    let second = conn.pins.get(&PinId("2".into())).unwrap();
    assert_eq!(second.default_mode.ty, PinType::DigitalInput);
    let res = netlist
        .lib_parts
        .get(&(LibName("COMPONENT_LIB".into()), LibPartName("RES".into())))
        .unwrap();
    assert_eq!(res.pins.get(&PinId("2".into())).unwrap().name.0, "B");
    assert_eq!(res.pins.get(&PinId("2".into())).unwrap().default_mode.ty, PinType::Passive);
    assert_eq!(netlist.nets.len(), 2);
    assert!(netlist.dangling_nodes().is_empty());
}

#[test]
fn an_altium_pair_that_cannot_be_read_says_which_file() {
    assert_eq!(
        load_altium_texts("(edif", Some(WIRELIST)).unwrap_err(),
        AltiumError::Edif(EdifError::Syntax(SexpError::Unbalanced))
    );
    assert_eq!(load_altium_texts("(other)", Some(WIRELIST)).unwrap_err(), AltiumError::Edif(EdifError::NotEdif));
    assert_eq!(
        load_altium_texts(EDIF, Some("COMPONENT_LIST")).unwrap_err(),
        AltiumError::Wirelist(WirelistError::NoWireList)
    );
    assert_eq!(
        load_altium_texts(EDIF, Some("\"")).unwrap_err(),
        AltiumError::Wirelist(WirelistError::Syntax(SexpError::OpenQuote))
    );
}
