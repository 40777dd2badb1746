use erc_core::edif_text::{load_edif_text, parse_edif, EdifError};
use erc_core::model::{LibName, LibPartName, PinType};
use erc_core::names::{Designator, NetName, PinId};
use erc_core::sexp::{parse_sexp, tokenize, Sexp, SexpError, Token};
use std::collections::HashSet;

const EDIF: &str = r#"(edif Board
  (edifVersion 2 0 0)
  (edifLevel 0)
  (keywordMap (keywordLevel 0))
  (status (written (timeStamp 2024 1 2 10 0 0) (program "Altium Designer" (version "24.0"))))
  (library COMPONENT_LIB
    (edifLevel 0)
    (technology (numberDefinition (scale 1 1 (unit distance))))
    (cell (rename CONN_2_3__6_ "CONN 2*3 (6)")
      (cellType GENERIC)
      (view netListView
        (viewType NETLIST)
        (interface
          (port &1 (direction INOUT))
          (port &2 (direction INPUT))
          (port &3 (direction OUTPUT))
          (port &4 (direction INOUT))
          (port &5 (direction INOUT))
          (port &6)
        )
      )
    )
    (cell RES
      (cellType GENERIC)
      (view netListView
        (viewType NETLIST)
        (interface (port &1 (direction INOUT)) (port &2 (direction INOUT)))
      )
    )
  )
  (library SHEET_LIB
    (edifLevel 0)
    (technology (numberDefinition (scale 1 1 (unit distance))))
    (cell SHEET1
      (cellType GENERIC)
      (view netListView
        (viewType NETLIST)
        (interface)
        (contents
          (instance J2
            (viewRef NetlistView (cellRef CONN_2_3__6_ (LibraryRef COMPONENT_LIB)))
            (property Comment (string "95278-101A06LF"))
            (property ChannelOffset (string "1"))
            (property (rename Component_Kind "Component Kind") (string "Standard"))
            (property Footprint (string "HDR2X3"))
          )
          (instance R13
            (viewRef NetlistView (cellRef RES (LibraryRef COMPONENT_LIB)))
            (property Value (string "10k"))
            (property Comment (string "RC0402"))
          )
          (net NetR13_1
            (joined
              (portRef &1 (instanceRef R13))
              (portRef &4 (instanceRef SW4))
            )
          )
          (net (rename P3V3 "+3V3")
            (joined
              (portRef &2 (instanceRef R13))
              (portRef &1 (instanceRef J2))
            )
            (property Class (string "Power"))
          )
          (net GND (joined (portRef &2 (instanceRef J2))))
        )
      )
    )
  )
  (design Board (cellRef SHEET1 (libraryRef SHEET_LIB)))
)
"#;

#[test]
fn can_read_edif_netlist_from_text() {
    let netlist = load_edif_text(EDIF).unwrap();
    let part = netlist
        .lib_parts
        .get(&(LibName("COMPONENT_LIB".to_string()), LibPartName("CONN_2_3__6_".into())))
        .unwrap();
    assert_eq!(part.pins.len(), 6);
    let pin = part.pins.get(&PinId("1".into())).unwrap();
    assert_eq!(pin.default_mode.ty, PinType::DigitalIO);
    assert_eq!(part.pins.get(&PinId("6".into())).unwrap().default_mode.ty, PinType::Passive);
    assert_eq!(part.footprints, vec!["HDR2X3".to_string()]);

    assert_eq!(netlist.nets.len(), 3);
    let net = netlist.nets.get(&NetName("NetR13_1".into())).unwrap();
    let nodes: HashSet<(String, String)> =
        net.nodes.items.iter().map(|n| (n.designator.0.clone(), n.pin_id.0.clone())).collect();
    let expected: HashSet<(String, String)> =
        [("R13", "1"), ("SW4", "4")].iter().map(|(a, b)| (a.to_string(), b.to_string())).collect();
    assert_eq!(nodes, expected);
    let rail = netlist.nets.get(&NetName("+3V3".into())).unwrap();
    assert_eq!(rail.properties.get(&"Class".to_string()).unwrap(), "Power");

    assert_eq!(netlist.components.len(), 2);
    let component = netlist.components.get(&Designator("J2".into())).unwrap();
    assert_eq!(component.value, "95278-101A06LF");
    assert_eq!(component.fields.get(&"ChannelOffset".to_string()).unwrap(), "1");
    assert_eq!(component.fields.get(&"Component Kind".to_string()).unwrap(), "Standard");
    assert_eq!(netlist.components.get(&Designator("R13".into())).unwrap().value, "10k");
}

#[test]
fn pin_identifiers_lose_their_ampersands() {
    let text = "(edif x (library COMPONENT_LIB (cell C (view v (interface (port &&7 (direction INPUT)) (port & (direction INPUT))))))
        (library SHEET_LIB (cell S (view v (interface) (contents (net N (joined (portRef &&7 (instanceRef U1)) (portRef &A&1 (instanceRef U1)))))))))";
    let netlist = load_edif_text(text).unwrap();
    let part = netlist.lib_parts.get(&(LibName("COMPONENT_LIB".into()), LibPartName("C".into()))).unwrap();
    assert!(part.pins.get(&PinId("7".into())).is_some());
    assert!(part.pins.get(&PinId("".into())).is_some());
    let net = netlist.nets.get(&NetName("N".into())).unwrap();
    let pins: Vec<&str> = net.nodes.items.iter().map(|n| n.pin_id.0.as_str()).collect();
    assert_eq!(pins, vec!["7", "A&1"]);
}

#[test]
fn libraries_are_read_in_order() {
    let libraries = parse_edif(EDIF).unwrap();
    let names: Vec<&str> = libraries.iter().map(|l| l.name.as_str()).collect();
    assert_eq!(names, vec!["COMPONENT_LIB", "SHEET_LIB"]);
    assert_eq!(libraries[0].cells.len(), 2);
    assert_eq!(libraries[0].cells[0].name.name, "CONN_2_3__6_");
    assert_eq!(libraries[0].cells[0].name.renamed, Some("CONN 2*3 (6)".to_string()));
    assert_eq!(libraries[0].cells[0].ports[0].name.name, "&1");
    assert_eq!(libraries[1].cells[0].contents.len(), 5);
}

#[test]
fn texts_that_are_no_edif() {
    assert_eq!(parse_edif("(a (b)").unwrap_err(), EdifError::Syntax(SexpError::Unbalanced));
    assert_eq!(parse_edif("(a))").unwrap_err(), EdifError::Syntax(SexpError::Unbalanced));
    assert_eq!(parse_edif("(a \"b)").unwrap_err(), EdifError::Syntax(SexpError::OpenQuote));
    assert_eq!(parse_edif("(export (x))").unwrap_err(), EdifError::NotEdif);
    assert_eq!(parse_edif("").unwrap_err(), EdifError::NotEdif);
    assert_eq!(parse_edif("(edif)").unwrap().len(), 0);
    assert_eq!(load_edif_text("(edif x (library L))").unwrap().nets.len(), 0);
    assert_eq!(parse_edif("(edif x (library L) (library) (cell c))").unwrap().len(), 1);
}

fn show(e: &Sexp) -> String {
    match e {
        Sexp::Word(w) => w.clone(),
        Sexp::Quoted(q) => format!("{q:?}"),
        Sexp::List(items) => format!("[{}]", items.iter().map(show).collect::<Vec<_>>().join(" ")),
    }
}

#[test]
fn forms_are_read_from_tokens() {
    let forms = parse_sexp("a (b \"c d\" (e)\t())\n\"\" f(g)h").unwrap();
    let shown: Vec<String> = forms.iter().map(show).collect();
    assert_eq!(shown, vec!["a", "[b \"c d\" [e] []]", "\"\"", "f", "[g]", "h"]);
    let tokens = tokenize("(a\"b\")").unwrap();
    assert!(matches!(
        tokens.as_slice(),
        [Token::Open, Token::Word(a), Token::Quoted(b), Token::Close] if a == "a" && b == "b"
    ));
    assert_eq!(parse_sexp("  ").unwrap().len(), 0);
    assert_eq!(parse_sexp(")").unwrap_err(), SexpError::Unbalanced);
    assert_eq!(parse_sexp("(").unwrap_err(), SexpError::Unbalanced);
    assert_eq!(parse_sexp("\"").unwrap_err(), SexpError::OpenQuote);
}
