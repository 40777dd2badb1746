//! Netlists in the form that KiCad exports: an `export` form with
//! components, library parts and nets, each a list of entries.
//!
//! The entries are taken as they stand in the file. Entries of one record
//! may come in any order and more than once; of two that set the same thing
//! the later one counts. A part without designator and a net without name are
//! skipped. Of two nets with one name the first is kept.
use vstd::prelude::*;
use crate::collections::{set_string, string_map, Dict, Key, KeySet};
use crate::model::{
    Component, ComponentView, LibName, LibPart, LibPartName, LibPartView, Net, NetView, Pin,
    PinMode, PinType, PinView,
};
use crate::names::{Designator, NetName, PinId, PinName};
use crate::netlist::{Netlist, NetlistView};
use crate::text::{to_uppercase, uppercase};

verus! {

/// A field of a part: `(field (name "…") "value")`.
#[derive(Debug)]
pub struct ComponentField(pub String, pub Option<String>);

/// One entry of a `(comp …)` form.
#[derive(Debug)]
pub enum ComponentEntry {
    Ref(Option<String>),
    Value(Option<String>),
    Footprint(Option<String>),
    Fields(Vec<ComponentField>),
    LibSource { lib: Option<String>, part: Option<String>, description: Option<String> },
    Property { name: Option<String>, value: Option<String> },
    SheetPath { name: Option<String>, tstamps: Vec<String> },
    Tstamps(Vec<String>),
    Datasheet(Option<String>),
    Description(Option<String>),
}

/// One pin of a `(pins …)` form.
#[derive(Debug)]
pub struct PinEntry {
    pub num: Option<String>,
    pub name: Option<String>,
    pub ty: Option<String>,
}

/// One entry of a `(libpart …)` form.
#[derive(Debug)]
pub enum LibPartPiece {
    Lib(Option<String>),
    Part(Option<String>),
    Description(Option<String>),
    Docs(Option<String>),
    Footprints(Vec<Option<String>>),
    Fields(Vec<ComponentField>),
    Pins(Vec<PinEntry>),
}

/// One entry of a `(net …)` form.
#[derive(Debug)]
pub enum NetPiece {
    Code(Option<String>),
    Name(Option<String>),
    Node {
        reference: Option<String>,
        pin: Option<String>,
        pinfunction: Option<String>,
        pintype: Option<String>,
    },
}

/// The `(export …)` form.
#[derive(Debug)]
pub struct KicadNetListExport {
    pub version: Option<String>,
    pub components: Vec<Vec<ComponentEntry>>,
    pub libparts: Vec<Vec<LibPartPiece>>,
    pub nets: Vec<Vec<NetPiece>>,
}

/// The characters of an optional string; none where it is absent.
pub open spec fn text(s: Option<String>) -> Seq<char> {
    match s {
        Some(s) => s@,
        None => Seq::empty(),
    }
}

/// The map with `value` under `key`, where `value` is not empty.
pub open spec fn with_text(
    fields: Map<Seq<char>, Seq<char>>,
    key: Seq<char>,
    value: Seq<char>,
) -> Map<Seq<char>, Seq<char>> {
    if value.len() > 0 {
        fields.insert(key, value)
    } else {
        fields
    }
}

/// The map after the first `n` fields have been stored, empty ones left out.
pub open spec fn with_fields(
    fields: Map<Seq<char>, Seq<char>>,
    list: Seq<ComponentField>,
    n: nat,
) -> Map<Seq<char>, Seq<char>>
    decreases n,
{
    if n == 0 {
        fields
    } else {
        with_text(with_fields(fields, list, (n - 1) as nat), list[n - 1].0@, text(list[n - 1].1))
    }
}

/// A part as read so far: its designator and the rest.
pub struct ComponentRecord {
    pub designator: Seq<char>,
    pub component: ComponentView,
}

/// The record after one more entry.
pub open spec fn component_step(r: ComponentRecord, entry: ComponentEntry) -> ComponentRecord {
    let c = r.component;
    match entry {
        ComponentEntry::Ref(d) => ComponentRecord { designator: text(d), ..r },
        ComponentEntry::Value(v) => ComponentRecord {
            component: ComponentView { value: text(v), ..c },
            ..r
        },
        ComponentEntry::Footprint(f) => ComponentRecord {
            component: ComponentView { fields: with_text(c.fields, "Footprint"@, text(f)), ..c },
            ..r
        },
        ComponentEntry::Fields(list) => ComponentRecord {
            component: ComponentView { fields: with_fields(c.fields, list@, list@.len()), ..c },
            ..r
        },
        ComponentEntry::LibSource { lib, part, .. } => ComponentRecord {
            component: ComponentView { lib_source: (text(lib), text(part)), ..c },
            ..r
        },
        ComponentEntry::Property { name, value } => if text(name).len() > 0 && text(name)
            != "Sheetname"@ && text(name) != "Sheetfile"@ {
            ComponentRecord {
                component: ComponentView { fields: with_text(c.fields, text(name), text(value)), ..c },
                ..r
            }
        } else {
            r
        },
        ComponentEntry::SheetPath { .. } => r,
        ComponentEntry::Tstamps(_) => r,
        ComponentEntry::Datasheet(d) => ComponentRecord {
            component: ComponentView { fields: with_text(c.fields, "Datasheet"@, text(d)), ..c },
            ..r
        },
        ComponentEntry::Description(d) => ComponentRecord {
            component: ComponentView { description: text(d), ..c },
            ..r
        },
    }
}

/// The record that the first `n` entries of a part give.
pub open spec fn component_record(entries: Seq<ComponentEntry>, n: nat) -> ComponentRecord
    decreases n,
{
    if n == 0 {
        ComponentRecord { designator: Seq::empty(), component: Component::spec_empty() }
    } else {
        component_step(component_record(entries, (n - 1) as nat), entries[n - 1])
    }
}

/// The parts that the first `n` records give, by designator.
pub open spec fn kicad_components(records: Seq<Vec<ComponentEntry>>, n: nat) -> Map<
    Seq<char>,
    ComponentView,
>
    decreases n,
{
    if n == 0 {
        Map::empty()
    } else {
        let before = kicad_components(records, (n - 1) as nat);
        let r = component_record(records[n - 1]@, records[n - 1]@.len());
        if r.designator.len() == 0 {
            before
        } else {
            before.insert(r.designator, r.component)
        }
    }
}

/// A library part as read so far: its two names and the rest.
pub struct LibPartRecord {
    pub source: (Seq<char>, Seq<char>),
    pub part: LibPartView,
}

/// The footprints after the first `n` of the list have been added, empty ones left out.
pub open spec fn with_footprints(
    footprints: Seq<Seq<char>>,
    list: Seq<Option<String>>,
    n: nat,
) -> Seq<Seq<char>>
    decreases n,
{
    if n == 0 {
        footprints
    } else {
        let before = with_footprints(footprints, list, (n - 1) as nat);
        if text(list[n - 1]).len() > 0 {
            before.push(text(list[n - 1]))
        } else {
            before
        }
    }
}

/// The pin that a pin entry stands for: its name in upper case, as a digital input.
pub open spec fn pin_of(entry: PinEntry) -> PinView {
    Pin::spec_plain(uppercase(text(entry.name)), PinType::DigitalInput)
}

/// The pins after the first `n` of the list have been stored.
pub open spec fn with_pins(pins: Map<Seq<char>, PinView>, list: Seq<PinEntry>, n: nat) -> Map<
    Seq<char>,
    PinView,
>
    decreases n,
{
    if n == 0 {
        pins
    } else {
        with_pins(pins, list, (n - 1) as nat).insert(text(list[n - 1].num), pin_of(list[n - 1]))
    }
}

/// The record after one more piece.
pub open spec fn lib_part_step(r: LibPartRecord, piece: LibPartPiece) -> LibPartRecord {
    let p = r.part;
    match piece {
        LibPartPiece::Lib(lib) => LibPartRecord { source: (text(lib), r.source.1), ..r },
        LibPartPiece::Part(part) => LibPartRecord { source: (r.source.0, text(part)), ..r },
        LibPartPiece::Description(d) => LibPartRecord {
            part: LibPartView { description: text(d), ..p },
            ..r
        },
        LibPartPiece::Docs(_) => r,
        LibPartPiece::Footprints(list) => LibPartRecord {
            part: LibPartView {
                footprints: with_footprints(p.footprints, list@, list@.len()),
                ..p
            },
            ..r
        },
        LibPartPiece::Fields(list) => LibPartRecord {
            part: LibPartView { fields: with_fields(p.fields, list@, list@.len()), ..p },
            ..r
        },
        LibPartPiece::Pins(list) => LibPartRecord {
            part: LibPartView { pins: with_pins(p.pins, list@, list@.len()), ..p },
            ..r
        },
    }
}

/// The record that the first `n` pieces of a library part give.
pub open spec fn lib_part_record(pieces: Seq<LibPartPiece>, n: nat) -> LibPartRecord
    decreases n,
{
    if n == 0 {
        LibPartRecord { source: (Seq::empty(), Seq::empty()), part: LibPart::spec_empty() }
    } else {
        lib_part_step(lib_part_record(pieces, (n - 1) as nat), pieces[n - 1])
    }
}

/// The library parts that the first `n` records give, by their two names.
pub open spec fn kicad_lib_parts(records: Seq<Vec<LibPartPiece>>, n: nat) -> Map<
    (Seq<char>, Seq<char>),
    LibPartView,
>
    decreases n,
{
    if n == 0 {
        Map::empty()
    } else {
        let r = lib_part_record(records[n - 1]@, records[n - 1]@.len());
        kicad_lib_parts(records, (n - 1) as nat).insert(r.source, r.part)
    }
}

/// A net as read so far: its name and the rest.
pub struct NetRecord {
    pub name: Seq<char>,
    pub net: NetView,
}

/// The record after one more piece.
pub open spec fn net_step(r: NetRecord, piece: NetPiece) -> NetRecord {
    match piece {
        NetPiece::Code(_) => r,
        NetPiece::Name(name) => NetRecord { name: text(name), ..r },
        NetPiece::Node { reference, pin, .. } => NetRecord {
            net: NetView { nodes: r.net.nodes.insert((text(reference), text(pin))), ..r.net },
            ..r
        },
    }
}

/// The record that the first `n` pieces of a net give.
pub open spec fn net_record(pieces: Seq<NetPiece>, n: nat) -> NetRecord
    decreases n,
{
    if n == 0 {
        NetRecord { name: Seq::empty(), net: Net::spec_empty() }
    } else {
        net_step(net_record(pieces, (n - 1) as nat), pieces[n - 1])
    }
}

/// The nets that the first `n` records give, by name: nameless ones left
/// out, and of two with one name the first kept.
pub open spec fn kicad_nets(records: Seq<Vec<NetPiece>>, n: nat) -> Map<Seq<char>, NetView>
    decreases n,
{
    if n == 0 {
        Map::empty()
    } else {
        let before = kicad_nets(records, (n - 1) as nat);
        let r = net_record(records[n - 1]@, records[n - 1]@.len());
        if r.name.len() == 0 || before.dom().contains(r.name) {
            before
        } else {
            before.insert(r.name, r.net)
        }
    }
}

/// The string, or the empty string where it is absent.
pub fn text_of(s: &Option<String>) -> (r: String)
    ensures
        r@ == text(*s),
{
    match s {
        Some(s) => s.clone(),
        None => String::new(),
    }
}

/// Stores `value` under `key`, where `value` is not empty.
pub fn set_text(fields: &mut Dict<String, String>, key: &str, value: &str)
    requires
        old(fields).wf(),
    ensures
        final(fields).wf(),
        string_map(*final(fields)) == with_text(string_map(*old(fields)), key@, value@),
{
    if !value.is_empty() {
        set_string(fields, key, value);
    }
}

/// Stores the fields of the list, empty ones left out.
pub fn set_fields(fields: &mut Dict<String, String>, list: &Vec<ComponentField>)
    requires
        old(fields).wf(),
    ensures
        final(fields).wf(),
        string_map(*final(fields)) == with_fields(string_map(*old(fields)), list@, list@.len()),
{
    let mut i: usize = 0;
    while i < list.len()
        invariant
            fields.wf(),
            i <= list@.len(),
            string_map(*fields) == with_fields(string_map(*old(fields)), list@, i as nat),
        decreases list@.len() - i,
    {
        let value = text_of(&list[i].1);
        set_text(fields, list[i].0.as_str(), value.as_str());
        i = i + 1;
    }
}

/// Reads one `(comp …)` form.
pub fn read_component(entries: &Vec<ComponentEntry>) -> (r: (String, Component))
    ensures
        r.1.wf(),
        r.0@ == component_record(entries@, entries@.len()).designator,
        r.1@ == component_record(entries@, entries@.len()).component,
{
    let mut designator = String::new();
    let mut component = Component::empty();
    let mut i: usize = 0;
    while i < entries.len()
        invariant
            i <= entries@.len(),
            component.wf(),
            designator@ == component_record(entries@, i as nat).designator,
            component@ == component_record(entries@, i as nat).component,
        decreases entries@.len() - i,
    {
        match &entries[i] {
            ComponentEntry::Ref(d) => {
                designator = text_of(d);
            },
            ComponentEntry::Value(v) => {
                component.value = text_of(v);
            },
            ComponentEntry::Footprint(f) => {
                set_text(&mut component.fields, "Footprint", text_of(f).as_str());
            },
            ComponentEntry::Fields(list) => {
                set_fields(&mut component.fields, list);
            },
            ComponentEntry::LibSource { lib, part, .. } => {
                component.lib_source = (LibName(text_of(lib)), LibPartName(text_of(part)));
            },
            ComponentEntry::Property { name, value } => {
                let name = text_of(name);
                let sheet_name = String::from_str("Sheetname");
                let sheet_file = String::from_str("Sheetfile");
                if !name.as_str().is_empty() && name != sheet_name && name != sheet_file {
                    set_text(&mut component.fields, name.as_str(), text_of(value).as_str());
                }
            },
            ComponentEntry::SheetPath { .. } => {},
            ComponentEntry::Tstamps(_) => {},
            ComponentEntry::Datasheet(d) => {
                set_text(&mut component.fields, "Datasheet", text_of(d).as_str());
            },
            ComponentEntry::Description(d) => {
                component.description = text_of(d);
            },
        }
        i = i + 1;
    }
    (designator, component)
}

/// Adds the footprints of the list, empty ones left out.
fn add_footprints(footprints: &mut Vec<String>, list: &Vec<Option<String>>)
    ensures
        crate::model::texts(final(footprints)@) == with_footprints(
            crate::model::texts(old(footprints)@),
            list@,
            list@.len(),
        ),
{
    let mut i: usize = 0;
    while i < list.len()
        invariant
            i <= list@.len(),
            crate::model::texts(footprints@) == with_footprints(
                crate::model::texts(old(footprints)@),
                list@,
                i as nat,
            ),
        decreases list@.len() - i,
    {
        let name = text_of(&list[i]);
        let ghost before = footprints@;
        if !name.as_str().is_empty() {
            footprints.push(name);
            assert(crate::model::texts(footprints@) =~= crate::model::texts(before).push(name@));
        }
        i = i + 1;
    }
}

/// Stores the pins of the list.
fn set_pins(pins: &mut Dict<PinId, Pin>, list: &Vec<PinEntry>)
    requires
        old(pins).wf(),
    ensures
        final(pins).wf(),
        final(pins).map_of(|p: Pin| p@) == with_pins(
            old(pins).map_of(|p: Pin| p@),
            list@,
            list@.len(),
        ),
{
    let mut i: usize = 0;
    while i < list.len()
        invariant
            pins.wf(),
            i <= list@.len(),
            pins.map_of(|p: Pin| p@) == with_pins(old(pins).map_of(|p: Pin| p@), list@, i as nat),
        decreases list@.len() - i,
    {
        let name = to_uppercase(text_of(&list[i].name).as_str());
        let pin = Pin::plain(PinName(name), PinType::DigitalInput);
        let id = PinId(text_of(&list[i].num));
        let ghost before = *pins;
        pins.insert(id, pin);
        proof {
            Dict::lemma_insert_map(&before, pins, id@, pin, |p: Pin| p@);
        }
        i = i + 1;
    }
}

/// Reads one `(libpart …)` form.
pub fn read_lib_part(pieces: &Vec<LibPartPiece>) -> (r: ((LibName, LibPartName), LibPart))
    ensures
        r.1.wf(),
        r.0@ == lib_part_record(pieces@, pieces@.len()).source,
        r.1@ == lib_part_record(pieces@, pieces@.len()).part,
{
    let mut lib = String::new();
    let mut name = String::new();
    let mut part = LibPart::empty();
    let mut i: usize = 0;
    while i < pieces.len()
        invariant
            i <= pieces@.len(),
            part.wf(),
            (lib@, name@) == lib_part_record(pieces@, i as nat).source,
            part@ == lib_part_record(pieces@, i as nat).part,
        decreases pieces@.len() - i,
    {
        match &pieces[i] {
            LibPartPiece::Lib(l) => {
                lib = text_of(l);
            },
            LibPartPiece::Part(p) => {
                name = text_of(p);
            },
            LibPartPiece::Description(d) => {
                part.description = text_of(d);
            },
            LibPartPiece::Docs(_) => {},
            LibPartPiece::Footprints(list) => {
                add_footprints(&mut part.footprints, list);
            },
            LibPartPiece::Fields(list) => {
                set_fields(&mut part.fields, list);
            },
            LibPartPiece::Pins(list) => {
                set_pins(&mut part.pins, list);
            },
        }
        i = i + 1;
    }
    ((LibName(lib), LibPartName(name)), part)
}

/// Reads one `(net …)` form.
pub fn read_net(pieces: &Vec<NetPiece>) -> (r: (String, Net))
    ensures
        r.1.wf(),
        r.0@ == net_record(pieces@, pieces@.len()).name,
        r.1@ == net_record(pieces@, pieces@.len()).net,
{
    let mut name = String::new();
    let mut net = Net::new();
    let mut i: usize = 0;
    while i < pieces.len()
        invariant
            i <= pieces@.len(),
            net.wf(),
            name@ == net_record(pieces@, i as nat).name,
            net@ == net_record(pieces@, i as nat).net,
        decreases pieces@.len() - i,
    {
        match &pieces[i] {
            NetPiece::Code(_) => {},
            NetPiece::Name(n) => {
                name = text_of(n);
            },
            NetPiece::Node { reference, pin, .. } => {
                net.add_node(Designator(text_of(reference)), PinId(text_of(pin)));
            },
        }
        i = i + 1;
    }
    (name, net)
}

/// Builds the netlist of an `(export …)` form. Referential integrity holds
/// of the netlist exactly when it holds of what the form says: when every
/// node of a net whose part and library part the form gives is a pin of that
/// library part.
pub fn load_kicad_netlist(export: &KicadNetListExport) -> (r: Netlist)
    ensures
        r.wf(),
        r@ == (NetlistView {
            components: kicad_components(export.components@, export.components@.len()),
            lib_parts: kicad_lib_parts(export.libparts@, export.libparts@.len()),
            nets: kicad_nets(export.nets@, export.nets@.len()),
        }),
        r.referential_integrity() == (NetlistView {
            components: kicad_components(export.components@, export.components@.len()),
            lib_parts: kicad_lib_parts(export.libparts@, export.libparts@.len()),
            nets: kicad_nets(export.nets@, export.nets@.len()),
        }).integral(),
{
    let mut netlist = Netlist::new();
    proof {
        assert(netlist.components.map_of(|c: Component| c@) =~= Map::empty());
        assert(netlist.lib_parts.map_of(|p: LibPart| p@) =~= Map::empty());
        assert(netlist.nets.map_of(|n: Net| n@) =~= Map::empty());
    }
    let mut i: usize = 0;
    while i < export.components.len()
        invariant
            netlist.wf(),
            i <= export.components@.len(),
            netlist.components.map_of(|c: Component| c@) == kicad_components(
                export.components@,
                i as nat,
            ),
            netlist.lib_parts.map_of(|p: LibPart| p@) == Map::<
                (Seq<char>, Seq<char>),
                LibPartView,
            >::empty(),
            netlist.nets.map_of(|n: Net| n@) == Map::<Seq<char>, NetView>::empty(),
        decreases export.components@.len() - i,
    {
        let (designator, component) = read_component(&export.components[i]);
        if !designator.as_str().is_empty() {
            let ghost before = netlist.components;
            netlist.insert_component(Designator(designator), component);
            proof {
                Dict::lemma_insert_map(
                    &before,
                    &netlist.components,
                    designator@,
                    component,
                    |c: Component| c@,
                );
            }
        }
        i = i + 1;
    }
    let mut i: usize = 0;
    while i < export.libparts.len()
        invariant
            netlist.wf(),
            i <= export.libparts@.len(),
            netlist.components.map_of(|c: Component| c@) == kicad_components(
                export.components@,
                export.components@.len(),
            ),
            netlist.lib_parts.map_of(|p: LibPart| p@) == kicad_lib_parts(
                export.libparts@,
                i as nat,
            ),
            netlist.nets.map_of(|n: Net| n@) == Map::<Seq<char>, NetView>::empty(),
        decreases export.libparts@.len() - i,
    {
        let (source, part) = read_lib_part(&export.libparts[i]);
        let ghost before = netlist.lib_parts;
        netlist.insert_lib_part(source, part);
        proof {
            Dict::lemma_insert_map(&before, &netlist.lib_parts, source@, part, |p: LibPart| p@);
        }
        i = i + 1;
    }
    let mut i: usize = 0;
    while i < export.nets.len()
        invariant
            netlist.wf(),
            i <= export.nets@.len(),
            netlist.components.map_of(|c: Component| c@) == kicad_components(
                export.components@,
                export.components@.len(),
            ),
            netlist.lib_parts.map_of(|p: LibPart| p@) == kicad_lib_parts(
                export.libparts@,
                export.libparts@.len(),
            ),
            netlist.nets.map_of(|n: Net| n@) == kicad_nets(export.nets@, i as nat),
        decreases export.nets@.len() - i,
    {
        let (name, net) = read_net(&export.nets[i]);
        if !name.as_str().is_empty() {
            let ghost before = netlist.nets;
            let added = netlist.insert_net(NetName(name), net);
            proof {
                if added {
                    Dict::lemma_insert_map(&before, &netlist.nets, name@, net, |n: Net| n@);
                }
            }
        }
        i = i + 1;
    }
    proof {
        netlist.lemma_integrity_in_view();
    }
    netlist
}

} // verus!
