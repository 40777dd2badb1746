use erc_core::collections::Dict;
use erc_core::csv_util::{determine_separator, find_column_idx, find_header_row};
use erc_core::names::Designator;
use erc_core::pnp::{
    compare_positions, find_columns, load_component_positions, read_side, strip_unit, Column,
    ComponentPosition, PnpError, Side,
};
use erc_core::text_util::read_with_unknown_encoding;

const POSSIBLE_PNP_COLUMN_NAMES: [&str; 13] = [
    "RefDes",
    "Ref",
    "Designator",
    "Center-X",
    "PosX",
    "Center-X(mm)",
    "Center-Y",
    "PosY",
    "Center-Y(mm)",
    "Rotation",
    "Rot",
    "Layer",
    "Side",
];

const MINIMUM_PNP_COLUMNS_REQUIRED: usize = 5;

const PNP_KICAD: &str = "Ref,Val,Package,PosX,PosY,Rot,Side
\"C1\",\"100n\",\"C_0402_1005Metric\",12.300000,5.850000,90.000000,top
\"R1\",\"10k\",\"R_0402_1005Metric\",56.600000,-7.100000,0.000000,bottom
";

const PNP_ALTIUM_NO_UNITS: &str = "Altium Designer Pick and Place Locations
C:\\Projects\\board\\pnp.csv

========================================================================================================================
File Design Information:

Date:       01/02/24
Time:       10:00
Revision:   Not in VersionControl
Variant:    No variations
Units used: mm

\"Designator\",\"Comment\",\"Layer\",\"Footprint\",\"Center-X(mm)\",\"Center-Y(mm)\",\"Rotation\",\"Description\"
\"J1\",\"Header 6\",\"TopLayer\",\"HDR1X6\",\"1.3943\",\"20.0000\",\"270\",\"Header, 6-Pin\"
\"R1\",\"10k\",\"BottomLayer\",\"0402\",\"30.0200\",\"15.1000\",\"90\",\"Resistor\"
";

const PNP_ALTIUM_WITH_UNITS: &str = "Altium Designer Pick and Place Locations
C:\\Projects\\board\\pnp.csv

========================================================================================================================
File Design Information:

Date:       01/02/24
Time:       10:00
Revision:   Not in VersionControl
Variant:    No variations
Units used: mm

\"Designator\",\"Comment\",\"Layer\",\"Footprint\",\"Center-X(mm)\",\"Center-Y(mm)\",\"Rotation\",\"Description\"
\"J1\",\"Header 6\",\"TopLayer\",\"HDR1X6\",\"1.3943mm\",\"20.0000mm\",\"270\",\"Header, 6-Pin\"
\"R1\",\"10k\",\"BottomLayer\",\"0402\",\"30.0200mm\",\"15.1000mm\",\"90\",\"Resistor\"
";

const PNP_ALLEGRO: &str = "UUNITS = MILLIMETERS
#
# Allegro placement report
#
# board.brd
# generated
RefDes;Center-X;Center-Y;Rotation;Side;Val
C1;12.3000;-7.8000;90;TOP;100n
R1;30.0200;15.1000;0;BOTTOM;10k
";

#[test]
fn can_find_header_row_kicad() {
    let header_row = find_header_row(
        MINIMUM_PNP_COLUMNS_REQUIRED,
        &POSSIBLE_PNP_COLUMN_NAMES,
        PNP_KICAD.as_bytes(),
    )
    .unwrap();
    assert_eq!(header_row.0, 0);
    assert_eq!(header_row.1, &["Ref", "Val", "Package", "PosX", "PosY", "Rot", "Side"]);
}

#[test]
fn can_find_header_row_altium() {
    let header_row = find_header_row(
        MINIMUM_PNP_COLUMNS_REQUIRED,
        &POSSIBLE_PNP_COLUMN_NAMES,
        PNP_ALTIUM_NO_UNITS.as_bytes(),
    )
    .unwrap();
    assert_eq!(header_row.0, 9);
}

#[test]
fn can_find_header_row_allegro() {
    let header_row = find_header_row(
        MINIMUM_PNP_COLUMNS_REQUIRED,
        &POSSIBLE_PNP_COLUMN_NAMES,
        PNP_ALLEGRO.as_bytes(),
    )
    .unwrap();
    assert_eq!(header_row.0, 6);
}

#[test]
fn no_header_row_below_the_threshold() {
    assert_eq!(find_header_row(8, &POSSIBLE_PNP_COLUMN_NAMES, PNP_KICAD.as_bytes()), None);
    assert_eq!(find_header_row(1, &POSSIBLE_PNP_COLUMN_NAMES, b""), None);
    assert_eq!(
        find_header_row(0, &POSSIBLE_PNP_COLUMN_NAMES, b"a,b\n").map(|r| r.0),
        Some(0)
    );
}

#[test]
fn separator_is_the_most_frequent() {
    assert_eq!(determine_separator(b"a,b,c;d"), b',');
    assert_eq!(determine_separator(b"a\tb\tc;d,e"), b'\t');
    assert_eq!(determine_separator(b"a;b;c,d"), b';');
    assert_eq!(determine_separator(b""), b';');
    assert_eq!(determine_separator(b"a,b\tc"), b'\t');
    assert_eq!(determine_separator(b"a,b;c"), b';');
    assert_eq!(determine_separator(b"a\tb;c"), b';');
}

#[test]
fn columns_are_found_by_synonym() {
    let header: Vec<String> = ["Val", "Rot", "Ref", "RefDes"].iter().map(|s| s.to_string()).collect();
    assert_eq!(find_column_idx(&header, &["Ref", "RefDes", "Designator"]), Some(2));
    assert_eq!(find_column_idx(&header, &["Rotation", "Rot"]), Some(1));
    assert_eq!(find_column_idx(&header, &["Side", "Layer"]), None);
    assert_eq!(find_column_idx(&[], &["Side"]), None);
    assert_eq!(find_columns(&header).unwrap_err(), PnpError::MissingColumn(Column::X));
}

#[test]
fn can_read_pnp_kicad() {
    let positions = load_component_positions(PNP_KICAD.as_bytes()).unwrap();
    let pos_r1 = positions.get(&Designator("R1".to_string())).unwrap();
    assert_eq!(pos_r1.x_str, "56.600000");
    assert_eq!(pos_r1.side, Side::Bottom);
    let pos_c1 = positions.get(&Designator("C1".to_string())).unwrap();
    assert_eq!(pos_c1.y_str, "5.850000");
    assert_eq!(pos_c1.side, Side::Top);
}

#[test]
fn can_read_pnp_altium() {
    let positions = load_component_positions(PNP_ALTIUM_NO_UNITS.as_bytes()).unwrap();
    let pos_j1 = positions.get(&Designator("J1".to_string())).unwrap();
    assert_eq!(pos_j1.x_str, "1.3943");
    assert_eq!(pos_j1.side, Side::Top);
    let pos_r1 = positions.get(&Designator("R1".to_string())).unwrap();
    assert_eq!(pos_r1.y_str, "15.1000");
    assert_eq!(pos_r1.side, Side::Bottom);
}

#[test]
fn can_read_pnp_altium_with_units() {
    let positions = load_component_positions(PNP_ALTIUM_WITH_UNITS.as_bytes()).unwrap();
    let pos_r1 = positions.get(&Designator("J1".to_string())).unwrap();
    assert_eq!(pos_r1.x_str, "1.3943");
    assert_eq!(pos_r1.side, Side::Top);
    let pos_c1 = positions.get(&Designator("R1".to_string())).unwrap();
    assert_eq!(pos_c1.y_str, "15.1000");
    assert_eq!(pos_c1.side, Side::Bottom);
}

#[test]
fn can_read_pnp_allegro() {
    let positions = load_component_positions(PNP_ALLEGRO.as_bytes()).unwrap();
    let pos_r1 = positions.get(&Designator("R1".to_string())).unwrap();
    assert_eq!(pos_r1.x_str, "30.0200");
    assert_eq!(pos_r1.side, Side::Bottom);
    let pos_c1 = positions.get(&Designator("C1".to_string())).unwrap();
    assert_eq!(pos_c1.y_str, "-7.8000");
    assert_eq!(pos_c1.side, Side::Top);
    assert_eq!(pos_c1.value, Some("100n".to_string()));
    assert_eq!(pos_c1.package, None);
    assert_eq!(pos_c1.rotation_str, "90");
}

#[test]
fn compare_positions_works() {
    let positions_a = load_component_positions(PNP_ALLEGRO.as_bytes()).unwrap();
    let positions_b = load_component_positions(PNP_ALTIUM_NO_UNITS.as_bytes()).unwrap();
    let change_list = compare_positions(&positions_a, &positions_b);
    assert_eq!(change_list.changed[0], Designator("R1".into()));
    assert_eq!(change_list.removed[0], Designator("C1".into()));
    assert_eq!(change_list.added[0], Designator("J1".into()));
    let same = compare_positions(&positions_a, &positions_a);
    assert!(same.changed.is_empty() && same.removed.is_empty() && same.added.is_empty());
}

#[test]
fn positions_that_cannot_be_read() {
    assert_eq!(load_component_positions(b"a,b,c\n1,2,3\n").unwrap_err(), PnpError::HeaderNotFound);
    assert_eq!(
        load_component_positions(b"Ref,PosX,PosY,Rot,Layer,Center-X\nR1,1,2,3,4,5\n").unwrap_err(),
        PnpError::UnknownSide(0)
    );
    assert_eq!(
        load_component_positions(b"Ref,PosX,PosY,Rot,Side\nR1,1,2,3,top\nR2,1,2\n").unwrap_err(),
        PnpError::ShortRow(1)
    );
    assert_eq!(
        load_component_positions(b"Ref,PosX,PosY,Rot,RefDes,Designator\nR1,1,2,3,4,5\n").unwrap_err(),
        PnpError::MissingColumn(Column::Side)
    );
    assert_eq!(
        load_component_positions(b"Ref,PosX,Center-X,Rot,Side\n").unwrap_err(),
        PnpError::MissingColumn(Column::Y)
    );
    assert_eq!(
        load_component_positions(b"Ref,PosX,PosY,Rotation,Side,Layer\n").map(|p| p.len()),
        Ok(0)
    );
    assert_eq!(
        load_component_positions(b"PosX,PosY,Rot,Side,Layer,Center-X\n").unwrap_err(),
        PnpError::MissingColumn(Column::Designator)
    );
    assert_eq!(
        load_component_positions(b"Ref,PosX,PosY,Side,Layer,Center-X\n").unwrap_err(),
        PnpError::MissingColumn(Column::Rotation)
    );
}

#[test]
fn sides_and_units() {
    for word in ["Top", "TOP", "top", "TopLayer"] {
        assert_eq!(read_side(word), Some(Side::Top));
    }
    for word in ["Bottom", "BOTTOM", "bottom", "BottomLayer"] {
        assert_eq!(read_side(word), Some(Side::Bottom));
    }
    assert_eq!(read_side("Inner"), None);
    assert_eq!(strip_unit("1.25mm"), "1.25");
    assert_eq!(strip_unit("1.25"), "1.25");
    assert_eq!(strip_unit("mm"), "");
    assert_eq!(strip_unit("m"), "m");
}

#[test]
fn positions_compare_as_written() {
    let a = ComponentPosition {
        x_str: "1.0".into(),
        y_str: "2".into(),
        rotation_str: "0".into(),
        side: Side::Top,
        value: None,
        package: Some("0402".into()),
    };
    let mut b = ComponentPosition {
        x_str: "1.0".into(),
        y_str: "2".into(),
        rotation_str: "0".into(),
        side: Side::Top,
        value: None,
        package: Some("0402".into()),
    };
    assert!(a.same(&b));
    b.x_str = "1.00".into();
    assert!(!a.same(&b));
    let mut one: Dict<Designator, ComponentPosition> = Dict::new();
    one.insert(Designator("R1".into()), a);
    let mut other: Dict<Designator, ComponentPosition> = Dict::new();
    other.insert(Designator("R1".into()), b);
    assert_eq!(compare_positions(&one, &other).changed, vec![Designator("R1".into())]);
}

#[test]
fn text_is_decoded_in_its_encoding() {
    assert_eq!(read_with_unknown_encoding(b"plain ascii"), "plain ascii");
    assert_eq!(read_with_unknown_encoding("10 k\u{3a9} caf\u{e9}".as_bytes()), "10 k\u{3a9} caf\u{e9}");
    let latin1 = b"Stra\xdfe f\xfcr Gr\xf6\xdfe und L\xe4nge, Stra\xdfe f\xfcr Gr\xf6\xdfe";
    assert_eq!(
        read_with_unknown_encoding(latin1),
        "Stra\u{df}e f\u{fc}r Gr\u{f6}\u{df}e und L\u{e4}nge, Stra\u{df}e f\u{fc}r Gr\u{f6}\u{df}e"
    );
}
