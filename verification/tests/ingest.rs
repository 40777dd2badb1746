use erc_core::altium_netlist::{load_altium_netlist, merge_wirelist};
use erc_core::collections::KeySet;
use erc_core::edif_netlist::{
    load_edif_netlist, EdifCell, EdifContent, EdifInstance, EdifLibrary, EdifNet, EdifPort,
    EdifPortRef, EdifProperty, Symbol,
};
use erc_core::kicad_netlist::{
    load_kicad_netlist, ComponentEntry, ComponentField, KicadNetListExport, LibPartPiece, NetPiece,
    PinEntry,
};
use erc_core::model::{LibName, LibPartName, Node, PinType};
use erc_core::names::{Designator, NetName, PinId};
use erc_core::orcad_netlist::{
    find_nonzero_slot, load_orcad_netlist, page_number, OrcadNet, OrcadNode, OrcadParam, OrcadPart,
    OrcadPin, OrcadPrimitive, OrcadSection,
};
use erc_core::wirelist::{
    load_wirelist_netlist, Wirelist, WirelistComponent, WirelistConnection, WirelistNet,
};
use std::collections::HashSet;

fn s(text: &str) -> Option<String> {
    Some(text.to_string())
}

fn nodes(set: &KeySet<Node>) -> HashSet<(String, String)> {
    set.items.iter().map(|n| (n.designator.0.clone(), n.pin_id.0.clone())).collect()
}

fn pairs(items: &[(&str, &str)]) -> HashSet<(String, String)> {
    items.iter().map(|(a, b)| (a.to_string(), b.to_string())).collect()
}

fn kicad_node(reference: &str, pin: &str) -> NetPiece {
    NetPiece::Node { reference: s(reference), pin: s(pin), pinfunction: None, pintype: s("passive") }
}

fn kicad_net(code: &str, name: &str, nodes: &[(&str, &str)]) -> Vec<NetPiece> {
    let mut pieces = vec![NetPiece::Code(s(code)), NetPiece::Name(s(name))];
    pieces.extend(nodes.iter().map(|(r, p)| kicad_node(r, p)));
    pieces
}

fn kicad_export() -> KicadNetListExport {
    KicadNetListExport {
        version: s("E"),
        components: vec![
            vec![
                ComponentEntry::Ref(s("R21")),
                ComponentEntry::Value(s("49.9")),
                ComponentEntry::Footprint(s("Resistor_SMD:R_0402_1005Metric")),
                ComponentEntry::Datasheet(s("~")),
                ComponentEntry::Fields(vec![
                    ComponentField("MPN".to_string(), s("RC0402FR-0749R9L")),
                    ComponentField("Empty".to_string(), None),
                ]),
                ComponentEntry::LibSource { lib: s("Device"), part: s("R"), description: s("Resistor") },
                ComponentEntry::Property { name: s("Sheetname"), value: s("Eth") },
                ComponentEntry::Property { name: s("Sheetfile"), value: s("eth.kicad_sch") },
                ComponentEntry::Property { name: s("Tolerance"), value: s("1%") },
                ComponentEntry::SheetPath { name: s("/Eth/"), tstamps: vec!["/1/".to_string()] },
                ComponentEntry::Tstamps(vec!["2".to_string()]),
                ComponentEntry::Description(s("Termination")),
            ],
            vec![ComponentEntry::Ref(s("R29")), ComponentEntry::Value(s("49.9"))],
            vec![ComponentEntry::Ref(s("U2")), ComponentEntry::Value(s("LAN8742A"))],
            vec![ComponentEntry::Value(s("no designator"))],
        ],
        libparts: vec![vec![
            LibPartPiece::Lib(s("Device")),
            LibPartPiece::Part(s("R")),
            LibPartPiece::Description(s("Resistor")),
            LibPartPiece::Docs(s("~")),
            LibPartPiece::Footprints(vec![s("R_*"), None, s("")]),
            LibPartPiece::Fields(vec![ComponentField("Reference".to_string(), s("R"))]),
            LibPartPiece::Pins(vec![
                PinEntry { num: s("1"), name: s("a"), ty: s("passive") },
                PinEntry { num: s("2"), name: None, ty: s("passive") },
            ]),
        ]],
        nets: vec![
            kicad_net("1", "/Eth/RXD0", &[("R21", "2"), ("R29", "2"), ("U2", "11")]),
            kicad_net("2", "/Eth/RXD1", &[("U2", "10")]),
            kicad_net("3", "GND", &[("R29", "1")]),
            kicad_net("4", "/Eth/RXD0", &[("X1", "1")]),
            kicad_net("5", "", &[("X2", "1")]),
            kicad_net("6", "+3V3", &[("R21", "1")]),
        ],
    }
}

#[test]
fn can_read_netlist_kicad() {
    let netlist = load_kicad_netlist(&kicad_export());
    assert_eq!(netlist.nets.len(), 4);
    let net = netlist.nets.get(&NetName("/Eth/RXD0".into())).unwrap();
    assert_eq!(nodes(&net.nodes), pairs(&[("R21", "2"), ("R29", "2"), ("U2", "11")]));
    assert_eq!(net.properties.len(), 0);
}

#[test]
fn kicad_components_and_lib_parts() {
    let netlist = load_kicad_netlist(&kicad_export());
    assert_eq!(netlist.components.len(), 3);
    let r21 = netlist.components.get(&Designator("R21".into())).unwrap();
    assert_eq!(r21.value, "49.9");
    assert_eq!(r21.description, "Termination");
    assert_eq!(r21.lib_source, (LibName("Device".into()), LibPartName("R".into())));
    assert_eq!(
        r21.fields.get(&"Footprint".to_string()),
        Some(&"Resistor_SMD:R_0402_1005Metric".to_string())
    );
    assert_eq!(r21.fields.get(&"MPN".to_string()), Some(&"RC0402FR-0749R9L".to_string()));
    assert_eq!(r21.fields.get(&"Tolerance".to_string()), Some(&"1%".to_string()));
    assert_eq!(r21.fields.get(&"Datasheet".to_string()), Some(&"~".to_string()));
    assert_eq!(r21.fields.get(&"Sheetname".to_string()), None);
    assert_eq!(r21.fields.get(&"Empty".to_string()), None);
    let part =
        netlist.lib_parts.get(&(LibName("Device".into()), LibPartName("R".into()))).unwrap();
    assert_eq!(part.description, "Resistor");
    assert_eq!(part.footprints, vec!["R_*".to_string()]);
    assert_eq!(part.pins.len(), 2);
    let pin = part.pins.get(&PinId("1".into())).unwrap();
    assert_eq!(pin.name.0, "A");
    assert_eq!(pin.default_mode.ty, PinType::DigitalInput);
    assert!(netlist.dangling_nodes().is_empty());
}

fn sym(name: &str) -> Symbol {
    Symbol { name: name.to_string(), renamed: None }
}

fn renamed(from: &str, to: &str) -> Symbol {
    Symbol { name: from.to_string(), renamed: Some(to.to_string()) }
}

fn port(name: &str, direction: &str) -> EdifPort {
    EdifPort { name: sym(name), direction: direction.to_string() }
}

fn property(name: Symbol, value: &str) -> EdifProperty {
    EdifProperty { name, value: value.to_string() }
}

fn port_ref(pin: &str, designator: &str) -> EdifPortRef {
    EdifPortRef { pin_id: pin.to_string(), designator: designator.to_string() }
}

fn edif_libraries() -> Vec<EdifLibrary> {
    vec![
        EdifLibrary {
            name: "COMPONENT_LIB".to_string(),
            cells: vec![
                EdifCell {
                    name: renamed("CONN_2_3__6_", "CONN 2*3 (6)"),
                    ports: vec![
                        port("&1", "INOUT"),
                        port("&2", "INPUT"),
                        port("&3", "OUTPUT"),
                        port("&4", "PASSIVE"),
                        port("&5", "INOUT"),
                        port("&6", "INOUT"),
                    ],
                    contents: vec![],
                },
                EdifCell {
                    name: sym("RES"),
                    ports: vec![port("&1", "INOUT"), port("&2", "INOUT")],
                    contents: vec![],
                },
            ],
        },
        EdifLibrary {
            name: "SHEET_LIB".to_string(),
            cells: vec![EdifCell {
                name: sym("SHEET"),
                ports: vec![],
                contents: vec![
                    EdifContent::Instance(EdifInstance {
                        designator: "J2".to_string(),
                        lib_part_name: "CONN_2_3__6_".to_string(),
                        properties: vec![
                            property(sym("Comment"), "95278-101A06LF"),
                            property(sym("ChannelOffset"), "1"),
                            property(sym("Footprint"), "HDR2X3"),
                            property(renamed("Component_Kind", "Component Kind"), "Standard"),
                            property(sym("Description"), "Header"),
                            property(sym("Blank"), ""),
                        ],
                    }),
                    EdifContent::Instance(EdifInstance {
                        designator: "R13".to_string(),
                        lib_part_name: "RES".to_string(),
                        properties: vec![
                            property(sym("Comment"), "RC0402"),
                            property(sym("Value"), "10k"),
                        ],
                    }),
                    EdifContent::Other,
                    EdifContent::Net(EdifNet {
                        name: sym("NetR13_1"),
                        joined: vec![port_ref("&1", "R13"), port_ref("&4", "SW4")],
                        properties: vec![],
                    }),
                    EdifContent::Net(EdifNet {
                        name: renamed("P3V3", "+3V3"),
                        joined: vec![port_ref("&2", "R13"), port_ref("&1", "J2")],
                        properties: vec![property(sym("Class"), "")],
                    }),
                    EdifContent::Net(EdifNet {
                        name: sym("GND"),
                        joined: vec![port_ref("&2", "J2")],
                        properties: vec![],
                    }),
                    EdifContent::Net(EdifNet {
                        name: sym("GND"),
                        joined: vec![port_ref("&3", "J2")],
                        properties: vec![],
                    }),
                ],
            }],
        },
        EdifLibrary { name: "OTHER".to_string(), cells: vec![EdifCell { name: sym("X"), ports: vec![port("&1", "INOUT")], contents: vec![] }] },
    ]
}

#[test]
fn can_read_edif_netlist() {
    let netlist = load_edif_netlist(&edif_libraries());
    let part = netlist
        .lib_parts
        .get(&(LibName("COMPONENT_LIB".to_string()), LibPartName("CONN_2_3__6_".into())))
        .unwrap();
    assert_eq!(part.pins.len(), 6);
    let pin = part.pins.get(&PinId("1".into())).unwrap();
    assert_eq!(pin.default_mode.ty, PinType::DigitalIO);

    assert_eq!(netlist.nets.len(), 3);
    let net = netlist.nets.get(&NetName("NetR13_1".into())).unwrap();
    assert_eq!(nodes(&net.nodes), pairs(&[("R13", "1"), ("SW4", "4")]));

    assert_eq!(netlist.components.len(), 2);
    let component = netlist.components.get(&Designator("J2".into())).unwrap();
    assert_eq!(component.value, "95278-101A06LF");
    assert_eq!(component.fields.get(&"ChannelOffset".to_string()).unwrap(), "1");
}

#[test]
fn edif_details() {
    let netlist = load_edif_netlist(&edif_libraries());
    let part = netlist
        .lib_parts
        .get(&(LibName("COMPONENT_LIB".to_string()), LibPartName("CONN_2_3__6_".into())))
        .unwrap();
    assert_eq!(part.pins.get(&PinId("2".into())).unwrap().default_mode.ty, PinType::DigitalInput);
    assert_eq!(part.pins.get(&PinId("3".into())).unwrap().default_mode.ty, PinType::DigitalOutput);
    assert_eq!(part.pins.get(&PinId("4".into())).unwrap().default_mode.ty, PinType::Passive);
    assert_eq!(part.footprints, vec!["HDR2X3".to_string()]);
    assert_eq!(netlist.lib_parts.len(), 2);
    let j2 = netlist.components.get(&Designator("J2".into())).unwrap();
    assert_eq!(j2.description, "Header");
    assert_eq!(j2.fields.get(&"Component Kind".to_string()).unwrap(), "Standard");
    assert!(j2.fields.get(&"Blank".to_string()).is_none());
    let r13 = netlist.components.get(&Designator("R13".into())).unwrap();
    assert_eq!(r13.value, "10k");
    let rail = netlist.nets.get(&NetName("+3V3".into())).unwrap();
    assert_eq!(rail.properties.get(&"Class".to_string()).unwrap(), "");
    let gnd = netlist.nets.get(&NetName("GND".into())).unwrap();
    assert_eq!(nodes(&gnd.nodes), pairs(&[("J2", "2")]));
    for net in &netlist.nets.values {
        for node in &net.nodes.items {
            assert!(!node.pin_id.0.starts_with('&'));
        }
    }
}

fn connection(designator: &str, pin: &str, name: &str, io: &str) -> WirelistConnection {
    WirelistConnection {
        designator: designator.to_string(),
        pin_id: pin.to_string(),
        pin_name: name.to_string(),
        io_type: io.to_string(),
        part_value: "x".to_string(),
    }
}

fn wirelist() -> Wirelist {
    Wirelist {
        components: vec![
            WirelistComponent {
                part_number: "95278-101A06LF".to_string(),
                designator: "J2".to_string(),
                footprint: "HDR2X3".to_string(),
            },
            WirelistComponent {
                part_number: "RC0402".to_string(),
                designator: "R13".to_string(),
                footprint: "0402".to_string(),
            },
        ],
        nets: vec![
            WirelistNet {
                name: "+3V3".to_string(),
                connections: vec![
                    connection("R13", "2", "2", "PASSIVE"),
                    connection("J2", "1", "VCC", "POWER"),
                ],
            },
            WirelistNet {
                name: "GND".to_string(),
                connections: vec![
                    connection("J2", "2", "TX", "OUTPUT"),
                    connection("J2", "3", "RX", "INPUT"),
                    connection("J2", "4", "IO", "I/O"),
                    connection("J2", "5", "OC", "OPEN COLLECTOR"),
                    connection("J2", "6", "OE", "OPEN EMITTER"),
                    connection("J2", "7", "ODD", "SOMETHING"),
                ],
            },
        ],
    }
}

#[test]
fn can_read_altium_wirelist_netlist() {
    let netlist = load_wirelist_netlist(&wirelist());
    assert_eq!(netlist.components.len(), 2);
    assert_eq!(netlist.nets.len(), 2);
    let j2 = netlist.components.get(&Designator("J2".into())).unwrap();
    assert_eq!(j2.value, "95278-101A06LF");
    assert_eq!(j2.fields.get(&"Footprint".to_string()).unwrap(), "HDR2X3");
    let part = netlist.lib_parts.get(&(LibName("".into()), LibPartName("J2".into()))).unwrap();
    let ty = |id: &str| part.pins.get(&PinId(id.into())).unwrap().default_mode.ty;
    assert_eq!(ty("1"), PinType::PowerUnspecified);
    assert_eq!(ty("2"), PinType::DigitalOutput);
    assert_eq!(ty("3"), PinType::DigitalInput);
    assert_eq!(ty("4"), PinType::DigitalIO);
    assert_eq!(ty("5"), PinType::OpenCollector);
    assert_eq!(ty("6"), PinType::OpenEmitter);
    assert_eq!(ty("7"), PinType::Passive);
    assert_eq!(part.pins.get(&PinId("1".into())).unwrap().name.0, "VCC");
    let net = netlist.nets.get(&NetName("+3V3".into())).unwrap();
    assert_eq!(nodes(&net.nodes), pairs(&[("R13", "2"), ("J2", "1")]));
}

#[test]
fn wirelist_names_the_pins_of_edif() {
    let netlist = load_altium_netlist(&edif_libraries(), &wirelist());
    let part = netlist
        .lib_parts
        .get(&(LibName("COMPONENT_LIB".to_string()), LibPartName("CONN_2_3__6_".into())))
        .unwrap();
    let pin = part.pins.get(&PinId("1".into())).unwrap();
    assert_eq!(pin.name.0, "VCC");
    assert_eq!(pin.default_mode.ty, PinType::PowerUnspecified);
    assert_eq!(part.pins.get(&PinId("5".into())).unwrap().default_mode.ty, PinType::OpenCollector);
    assert_eq!(part.pins.len(), 6);
    assert!(part.pins.get(&PinId("7".into())).is_none());
    assert_eq!(netlist.nets.len(), 3);
    assert_eq!(netlist.components.len(), 2);
    let again = merge_wirelist(load_edif_netlist(&edif_libraries()), &load_wirelist_netlist(&wirelist()));
    assert_eq!(again.lib_parts.len(), netlist.lib_parts.len());
}

fn param(name: &str, value: &str) -> OrcadParam {
    OrcadParam { name: name.to_string(), value: value.to_string() }
}

fn orcad_node(designator: &str, pin: &str) -> OrcadNode {
    OrcadNode { designator: s(designator), pin_id: s(pin) }
}

fn section(page: &str, name: &str) -> OrcadSection {
    OrcadSection { p_path: format!("@design.sch(sch_1):{page}_ins123@emmc.normal(chips)"), name: name.to_string() }
}

fn orcad() -> (Vec<OrcadNet>, Vec<OrcadPart>, Vec<OrcadPrimitive>) {
    let nets = vec![
        OrcadNet {
            name: s("TOUCH_INT_N"),
            nodes: vec![orcad_node("R610", "2"), orcad_node("Q34", "3"), orcad_node("R636", "1")],
        },
        OrcadNet {
            name: s("EMMC_D0"),
            nodes: vec![orcad_node("U5", "A3"), OrcadNode { designator: s("U5"), pin_id: None }],
        },
        OrcadNet { name: s("GND"), nodes: vec![orcad_node("R610", "1")] },
        OrcadNet { name: None, nodes: vec![orcad_node("R1", "1")] },
        OrcadNet { name: s("GND"), nodes: vec![orcad_node("R9", "1")] },
    ];
    let parts = vec![
        OrcadPart {
            designator: "R610".to_string(),
            lib_part_name: "RES_0402".to_string(),
            sections: vec![section("page3", "")],
        },
        OrcadPart {
            designator: "U5".to_string(),
            lib_part_name: "EMMC_BGA153".to_string(),
            sections: vec![section("page12", "A"), section("pagex", "B")],
        },
    ];
    let primitives = vec![
        OrcadPrimitive {
            name: "RES_0402".to_string(),
            pins: vec![
                OrcadPin { name: "1".to_string(), params: vec![param("PIN_NUMBER", "(1)")] },
                OrcadPin { name: "2".to_string(), params: vec![param("PIN_NUMBER", "(2)"), param("PINUSE", "POWER")] },
                OrcadPin { name: "X".to_string(), params: vec![param("PINUSE", "POWER")] },
            ],
            body: vec![param("VALUE", "10k"), param("JEDEC_TYPE", "R0402")],
        },
        OrcadPrimitive {
            name: "EMMC_BGA153".to_string(),
            pins: vec![
                OrcadPin {
                    name: "DAT0".to_string(),
                    params: vec![param("PIN_NUMBER", "(A3,0)"), param("BIDIRECTIONAL", "TRUE")],
                },
                OrcadPin {
                    name: "VCC".to_string(),
                    params: vec![param("PIN_NUMBER", "(0,E6)"), param("PINUSE", "POWER")],
                },
                OrcadPin {
                    name: "CLK".to_string(),
                    params: vec![param("PIN_NUMBER", "(M6,0)"), param("INPUT_LOAD", "(1,1)")],
                },
                OrcadPin {
                    name: "DS".to_string(),
                    params: vec![param("PIN_NUMBER", "(H5,0)"), param("OUTPUT_LOAD", "(1,1)")],
                },
                OrcadPin {
                    name: "INT".to_string(),
                    params: vec![
                        param("PIN_NUMBER", "(H6,0)"),
                        param("OUTPUT_LOAD", "(1,1)"),
                        param("OUTPUT_TYPE", "(OC,AND)"),
                    ],
                },
                OrcadPin { name: "NC".to_string(), params: vec![param("PIN_NUMBER", "(0,0)")] },
            ],
            body: vec![param("VALUE", "")],
        },
    ];
    (nets, parts, primitives)
}

#[test]
fn can_load_orcad_netlist() {
    let (nets, parts, primitives) = orcad();
    let netlist = load_orcad_netlist(&nets, &parts, &primitives);
    assert_eq!(netlist.nets.len(), 3);
    let net = netlist.nets.get(&NetName("TOUCH_INT_N".into())).unwrap();
    assert_eq!(nodes(&net.nodes), pairs(&[("R610", "2"), ("Q34", "3"), ("R636", "1")]));
    let mut found = false;
    for (i, key) in netlist.lib_parts.keys.iter().enumerate() {
        if !key.1 .0.contains("EMMC") {
            continue;
        }
        found = true;
        let part = &netlist.lib_parts.values[i];
        let pin = part.pins.get(&PinId("A3".into())).unwrap();
        assert_eq!(pin.section_name, Some("A".to_string()));
        assert_eq!(pin.default_mode.ty, PinType::DigitalIO);
    }
    assert!(found);
}

#[test]
fn orcad_details() {
    let (nets, parts, primitives) = orcad();
    let netlist = load_orcad_netlist(&nets, &parts, &primitives);
    let r610 = netlist.components.get(&Designator("R610".into())).unwrap();
    assert_eq!(r610.value, "10k");
    assert_eq!(r610.lib_source, (LibName("pstchip".into()), LibPartName("RES_0402".into())));
    assert_eq!(r610.sections[0].page_number, Some(3));
    let u5 = netlist.components.get(&Designator("U5".into())).unwrap();
    assert_eq!(u5.value, "");
    assert_eq!(u5.sections[0].page_number, Some(12));
    assert_eq!(u5.sections[1].page_number, None);
    assert_eq!(u5.sections[1].name, "B");
    let res = netlist.lib_parts.get(&(LibName("pstchip".into()), LibPartName("RES_0402".into()))).unwrap();
    assert_eq!(res.footprints, vec!["R0402".to_string()]);
    assert_eq!(res.pins.len(), 2);
    assert_eq!(res.pins.get(&PinId("2".into())).unwrap().default_mode.ty, PinType::PowerUnspecified);
    assert_eq!(res.pins.get(&PinId("1".into())).unwrap().default_mode.ty, PinType::Passive);
    assert_eq!(res.pins.get(&PinId("1".into())).unwrap().section_name, None);
    let emmc = netlist.lib_parts.get(&(LibName("pstchip".into()), LibPartName("EMMC_BGA153".into()))).unwrap();
    let pin = |id: &str| emmc.pins.get(&PinId(id.into())).unwrap();
    assert_eq!(pin("E6").section_name, Some("B".to_string()));
    assert_eq!(pin("E6").default_mode.ty, PinType::PowerUnspecified);
    assert_eq!(pin("M6").default_mode.ty, PinType::DigitalInput);
    assert_eq!(pin("H5").default_mode.ty, PinType::DigitalOutput);
    assert_eq!(pin("H6").default_mode.ty, PinType::OpenCollector);
    assert_eq!(pin("0,0").section_name, None);
    assert_eq!(pin("A3").name.0, "DAT0");
    let d0 = netlist.nets.get(&NetName("EMMC_D0".into())).unwrap();
    assert_eq!(nodes(&d0.nodes), pairs(&[("U5", "A3")]));
    let gnd = netlist.nets.get(&NetName("GND".into())).unwrap();
    assert_eq!(nodes(&gnd.nodes), pairs(&[("R610", "1")]));
}

#[test]
fn pages_and_slots() {
    assert_eq!(page_number("@DESIGN.SCH(SCH_1):PAGE7_INS1@X"), None);
    assert_eq!(page_number("@design.sch(sch_1):page7_ins1@x"), Some(7));
    assert_eq!(page_number("@a:page42"), Some(42));
    assert_eq!(page_number("@a:page99999999999"), None);
    assert_eq!(page_number("nothing"), None);
    let slot = |t: &str| find_nonzero_slot(&t.chars().collect());
    assert_eq!(slot("0,0,A3,0"), Some((2, 4, 6)));
    assert_eq!(slot("A3"), Some((0, 0, 2)));
    assert_eq!(slot("0,0"), None);
    assert_eq!(slot(""), Some((0, 0, 0)));
    assert_eq!(slot("0,"), Some((1, 2, 2)));
    assert_eq!(slot("00,1"), Some((0, 0, 2)));
}
