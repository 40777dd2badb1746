//! Netlists in EDIF, as Altium exports them.
//!
//! Two libraries carry meaning. The cells of `COMPONENT_LIB` are library
//! parts, and their ports are pins. The cells of `SHEET_LIB` hold the placed
//! parts, as instances, and the nets. A symbol may be renamed; the name it was
//! renamed from is the key, and the name it was renamed to is shown.
use vstd::prelude::*;
use crate::collections::{set_string, string_map, Dict, Key, KeySet};
use crate::kicad_netlist::{set_text, with_text};
use crate::model::{
    texts, Component, ComponentView, LibName, LibPart, LibPartName, LibPartView, Net, NetView,
    Pin, PinType, PinView,
};
use crate::names::{Designator, NetName, PinId, PinName};
use crate::netlist::{Netlist, NetlistView};
use crate::text::{lemma_stripped, str_eq, strip_ampersand, without_ampersand};

verus! {

/// A symbol, plain or renamed.
#[derive(Debug)]
pub struct Symbol {
    /// The symbol itself: the key.
    pub name: String,
    /// What it was renamed to, if it was.
    pub renamed: Option<String>,
}

/// A symbol, in characters.
pub struct SymbolView {
    pub name: Seq<char>,
    pub renamed: Option<Seq<char>>,
}

impl View for Symbol {
    type V = SymbolView;

    open spec fn view(&self) -> SymbolView {
        SymbolView { name: self.name@, renamed: crate::model::opt_view(self.renamed) }
    }
}

impl Symbol {
    /// The name to show: what the symbol was renamed to, or the symbol itself.
    pub open spec fn shown(self) -> Seq<char> {
        match self.renamed {
            Some(to) => to@,
            None => self.name@,
        }
    }

    /// The name to show.
    pub fn display(&self) -> (r: &str)
        ensures
            r@ == self.shown(),
    {
        match &self.renamed {
            Some(to) => to.as_str(),
            None => self.name.as_str(),
        }
    }
}

/// A port of a cell's interface.
#[derive(Debug)]
pub struct EdifPort {
    pub name: Symbol,
    pub direction: String,
}

/// A port, in characters.
pub struct EdifPortView {
    pub name: SymbolView,
    pub direction: Seq<char>,
}

impl View for EdifPort {
    type V = EdifPortView;

    open spec fn view(&self) -> EdifPortView {
        EdifPortView { name: self.name@, direction: self.direction@ }
    }
}

/// A property of an instance or a net.
#[derive(Debug)]
pub struct EdifProperty {
    pub name: Symbol,
    pub value: String,
}

/// A property, in characters.
pub struct EdifPropertyView {
    pub name: SymbolView,
    pub value: Seq<char>,
}

impl View for EdifProperty {
    type V = EdifPropertyView;

    open spec fn view(&self) -> EdifPropertyView {
        EdifPropertyView { name: self.name@, value: self.value@ }
    }
}

/// The views of a list of properties.
pub open spec fn properties_view(p: Seq<EdifProperty>) -> Seq<EdifPropertyView> {
    p.map_values(|x: EdifProperty| x@)
}

/// A placed part.
#[derive(Debug)]
pub struct EdifInstance {
    pub designator: String,
    /// The cell of `COMPONENT_LIB` that the instance refers to.
    pub lib_part_name: String,
    pub properties: Vec<EdifProperty>,
}

/// A placed part, in characters.
pub struct EdifInstanceView {
    pub designator: Seq<char>,
    pub lib_part_name: Seq<char>,
    pub properties: Seq<EdifPropertyView>,
}

impl View for EdifInstance {
    type V = EdifInstanceView;

    open spec fn view(&self) -> EdifInstanceView {
        EdifInstanceView {
            designator: self.designator@,
            lib_part_name: self.lib_part_name@,
            properties: properties_view(self.properties@),
        }
    }
}

/// One pin that a net joins.
#[derive(Debug)]
pub struct EdifPortRef {
    pub pin_id: String,
    pub designator: String,
}

/// One pin that a net joins, in characters.
pub struct EdifPortRefView {
    pub pin_id: Seq<char>,
    pub designator: Seq<char>,
}

impl View for EdifPortRef {
    type V = EdifPortRefView;

    open spec fn view(&self) -> EdifPortRefView {
        EdifPortRefView { pin_id: self.pin_id@, designator: self.designator@ }
    }
}

/// A net.
#[derive(Debug)]
pub struct EdifNet {
    pub name: Symbol,
    pub joined: Vec<EdifPortRef>,
    pub properties: Vec<EdifProperty>,
}

/// A net, in characters.
pub struct EdifNetView {
    pub name: SymbolView,
    pub joined: Seq<EdifPortRefView>,
    pub properties: Seq<EdifPropertyView>,
}

impl View for EdifNet {
    type V = EdifNetView;

    open spec fn view(&self) -> EdifNetView {
        EdifNetView {
            name: self.name@,
            joined: self.joined@.map_values(|x: EdifPortRef| x@),
            properties: properties_view(self.properties@),
        }
    }
}

/// One item of a cell's contents.
#[derive(Debug)]
pub enum EdifContent {
    Instance(EdifInstance),
    Net(EdifNet),
    Other,
}

/// One item of a cell's contents, in characters.
pub enum EdifContentView {
    Instance(EdifInstanceView),
    Net(EdifNetView),
    Other,
}

impl View for EdifContent {
    type V = EdifContentView;

    open spec fn view(&self) -> EdifContentView {
        match *self {
            EdifContent::Instance(i) => EdifContentView::Instance(i@),
            EdifContent::Net(n) => EdifContentView::Net(n@),
            EdifContent::Other => EdifContentView::Other,
        }
    }
}

/// A cell of a library.
#[derive(Debug)]
pub struct EdifCell {
    pub name: Symbol,
    pub ports: Vec<EdifPort>,
    pub contents: Vec<EdifContent>,
}

/// A cell, in characters.
pub struct EdifCellView {
    pub name: SymbolView,
    pub ports: Seq<EdifPortView>,
    pub contents: Seq<EdifContentView>,
}

impl View for EdifCell {
    type V = EdifCellView;

    open spec fn view(&self) -> EdifCellView {
        EdifCellView {
            name: self.name@,
            ports: self.ports@.map_values(|x: EdifPort| x@),
            contents: self.contents@.map_values(|x: EdifContent| x@),
        }
    }
}

/// A library.
#[derive(Debug)]
pub struct EdifLibrary {
    pub name: String,
    pub cells: Vec<EdifCell>,
}

/// A library, in characters.
pub struct EdifLibraryView {
    pub name: Seq<char>,
    pub cells: Seq<EdifCellView>,
}

impl View for EdifLibrary {
    type V = EdifLibraryView;

    open spec fn view(&self) -> EdifLibraryView {
        EdifLibraryView { name: self.name@, cells: self.cells@.map_values(|x: EdifCell| x@) }
    }
}

/// The views of a list of libraries.
pub open spec fn libraries_view(l: Seq<EdifLibrary>) -> Seq<EdifLibraryView> {
    l.map_values(|x: EdifLibrary| x@)
}

/// The type of a pin whose port has the given direction.
pub open spec fn port_type(direction: Seq<char>) -> PinType {
    if direction == "INOUT"@ {
        PinType::DigitalIO
    } else if direction == "INPUT"@ {
        PinType::DigitalInput
    } else if direction == "OUTPUT"@ {
        PinType::DigitalOutput
    } else {
        PinType::Passive
    }
}

/// The pins that the first `n` ports give. A pin is identified by the
/// port's symbol without a leading `&`, and has no name yet.
pub open spec fn port_pins(ports: Seq<EdifPort>, n: nat) -> Map<Seq<char>, PinView>
    decreases n,
{
    if n == 0 {
        Map::empty()
    } else {
        port_pins(ports, (n - 1) as nat).insert(
            strip_ampersand(ports[n - 1].name.name@),
            Pin::spec_plain(Seq::empty(), port_type(ports[n - 1].direction@)),
        )
    }
}

/// The library part that a cell of `COMPONENT_LIB` gives.
pub open spec fn cell_part(cell: EdifCell) -> LibPartView {
    LibPartView { pins: port_pins(cell.ports@, cell.ports@.len()), ..LibPart::spec_empty() }
}

/// The fields that the first `n` properties give: each non-empty value under
/// the shown name of its property.
pub open spec fn property_fields(properties: Seq<EdifProperty>, n: nat) -> Map<Seq<char>, Seq<char>>
    decreases n,
{
    if n == 0 {
        Map::empty()
    } else {
        with_text(
            property_fields(properties, (n - 1) as nat),
            properties[n - 1].name.shown(),
            properties[n - 1].value@,
        )
    }
}

/// The properties of a net: each value, empty or not, under the shown name
/// of its property.
pub open spec fn net_properties(properties: Seq<EdifProperty>, n: nat) -> Map<Seq<char>, Seq<char>>
    decreases n,
{
    if n == 0 {
        Map::empty()
    } else {
        net_properties(properties, (n - 1) as nat).insert(
            properties[n - 1].name.shown(),
            properties[n - 1].value@,
        )
    }
}

/// The value under `key`, or nothing where there is none.
pub open spec fn field_or_empty(fields: Map<Seq<char>, Seq<char>>, key: Seq<char>) -> Seq<char> {
    if fields.dom().contains(key) {
        fields[key]
    } else {
        Seq::empty()
    }
}

/// The key of the library part that an instance refers to.
pub open spec fn instance_source(instance: EdifInstance) -> (Seq<char>, Seq<char>) {
    ("COMPONENT_LIB"@, instance.lib_part_name@)
}

/// The part that an instance gives. Its value is the field `Value`, or
/// `Comment` where there is no `Value`.
pub open spec fn instance_component(instance: EdifInstance) -> ComponentView {
    let fields = property_fields(instance.properties@, instance.properties@.len());
    ComponentView {
        value: if fields.dom().contains("Value"@) {
            fields["Value"@]
        } else {
            field_or_empty(fields, "Comment"@)
        },
        description: field_or_empty(fields, "Description"@),
        lib_source: instance_source(instance),
        fields,
        sections: Seq::empty(),
    }
}

/// The nodes that the first `n` port references give.
pub open spec fn joined_nodes(joined: Seq<EdifPortRef>, n: nat) -> Set<(Seq<char>, Seq<char>)>
    decreases n,
{
    if n == 0 {
        Set::empty()
    } else {
        joined_nodes(joined, (n - 1) as nat).insert(
            (joined[n - 1].designator@, strip_ampersand(joined[n - 1].pin_id@)),
        )
    }
}

/// The net that a net form gives.
pub open spec fn net_of(net: EdifNet) -> NetView {
    NetView {
        nodes: joined_nodes(net.joined@, net.joined@.len()),
        properties: net_properties(net.properties@, net.properties@.len()),
    }
}

/// What has been read after one more item of a sheet. An instance is a
/// part; its footprint, if it names one, is added to its library part, if
/// that is known. A net is kept unless one of the same name is there.
pub open spec fn content_step(s: NetlistView, content: EdifContent) -> NetlistView {
    match content {
        EdifContent::Instance(instance) => {
            let c = instance_component(instance);
            let k = instance_source(instance);
            NetlistView {
                lib_parts: if c.fields.dom().contains("Footprint"@) && s.lib_parts.dom().contains(
                    k,
                ) {
                    s.lib_parts.insert(
                        k,
                        LibPartView {
                            footprints: s.lib_parts[k].footprints.push(c.fields["Footprint"@]),
                            ..s.lib_parts[k]
                        },
                    )
                } else {
                    s.lib_parts
                },
                components: s.components.insert(instance.designator@, c),
                ..s
            }
        },
        EdifContent::Net(net) => if s.nets.dom().contains(net.name.shown()) {
            s
        } else {
            NetlistView { nets: s.nets.insert(net.name.shown(), net_of(net)), ..s }
        },
        EdifContent::Other => s,
    }
}

/// What has been read after the first `n` items of a sheet.
pub open spec fn contents_state(s: NetlistView, contents: Seq<EdifContent>, n: nat) -> NetlistView
    decreases n,
{
    if n == 0 {
        s
    } else {
        content_step(contents_state(s, contents, (n - 1) as nat), contents[n - 1])
    }
}

/// What has been read after one more cell of the library named `library`.
pub open spec fn cell_step(s: NetlistView, library: Seq<char>, cell: EdifCell) -> NetlistView {
    if library == "COMPONENT_LIB"@ {
        NetlistView {
            lib_parts: s.lib_parts.insert(("COMPONENT_LIB"@, cell.name.name@), cell_part(cell)),
            ..s
        }
    } else if library == "SHEET_LIB"@ {
        contents_state(s, cell.contents@, cell.contents@.len())
    } else {
        s
    }
}

/// What has been read after the first `n` cells of a library.
pub open spec fn cells_state(s: NetlistView, library: Seq<char>, cells: Seq<EdifCell>, n: nat) -> NetlistView
    decreases n,
{
    if n == 0 {
        s
    } else {
        cell_step(cells_state(s, library, cells, (n - 1) as nat), library, cells[n - 1])
    }
}

/// What has been read after the first `n` libraries.
pub open spec fn edif_state(libraries: Seq<EdifLibrary>, n: nat) -> NetlistView
    decreases n,
{
    if n == 0 {
        NetlistView::empty()
    } else {
        cells_state(
            edif_state(libraries, (n - 1) as nat),
            libraries[n - 1].name@,
            libraries[n - 1].cells@,
            libraries[n - 1].cells@.len(),
        )
    }
}

/// The pin identifier does not begin with an ampersand.
pub open spec fn clean_pin(p: Seq<char>) -> bool {
    p.len() == 0 || p[0] != '&'
}

/// No pin identifier of the netlist begins with an ampersand, be it on a
/// net or in a library part.
pub open spec fn clean_pins(s: NetlistView) -> bool {
    &&& forall|n: Seq<char>, d: Seq<char>, p: Seq<char>|
        s.nets.dom().contains(n) && #[trigger] s.nets[n].nodes.contains((d, p)) ==> clean_pin(p)
    &&& forall|k: (Seq<char>, Seq<char>), p: Seq<char>|
        s.lib_parts.dom().contains(k) && #[trigger] s.lib_parts[k].pins.dom().contains(p)
            ==> clean_pin(p)
}

proof fn lemma_joined_clean(joined: Seq<EdifPortRef>, n: nat, d: Seq<char>, p: Seq<char>)
    requires
        joined_nodes(joined, n).contains((d, p)),
    ensures
        clean_pin(p),
    decreases n,
{
    if n > 0 {
        if (d, p) == (joined[n - 1].designator@, strip_ampersand(joined[n - 1].pin_id@)) {
            lemma_stripped(joined[n - 1].pin_id@);
        } else {
            lemma_joined_clean(joined, (n - 1) as nat, d, p);
        }
    }
}

proof fn lemma_ports_clean(ports: Seq<EdifPort>, n: nat, p: Seq<char>)
    requires
        port_pins(ports, n).dom().contains(p),
    ensures
        clean_pin(p),
    decreases n,
{
    if n > 0 {
        if p == strip_ampersand(ports[n - 1].name.name@) {
            lemma_stripped(ports[n - 1].name.name@);
        } else {
            lemma_ports_clean(ports, (n - 1) as nat, p);
        }
    }
}

proof fn lemma_content_clean(s: NetlistView, content: EdifContent)
    requires
        clean_pins(s),
    ensures
        clean_pins(content_step(s, content)),
{
    let t = content_step(s, content);
    assert forall|n: Seq<char>, d: Seq<char>, p: Seq<char>|
        t.nets.dom().contains(n) && #[trigger] t.nets[n].nodes.contains((d, p)) implies clean_pin(
        p,
    ) by {
        if let EdifContent::Net(net) = content {
            if !s.nets.dom().contains(net.name.shown()) && n == net.name.shown() {
                lemma_joined_clean(net.joined@, net.joined@.len(), d, p);
            } else {
                assert(s.nets[n].nodes.contains((d, p)));
            }
        } else {
            assert(s.nets[n].nodes.contains((d, p)));
        }
    }
    assert forall|k: (Seq<char>, Seq<char>), p: Seq<char>|
        t.lib_parts.dom().contains(k) && #[trigger] t.lib_parts[k].pins.dom().contains(p)
        implies clean_pin(p) by {
        assert(s.lib_parts.dom().contains(k));
        assert(s.lib_parts[k].pins.dom().contains(p));
    }
}

proof fn lemma_contents_clean(s: NetlistView, contents: Seq<EdifContent>, n: nat)
    requires
        clean_pins(s),
    ensures
        clean_pins(contents_state(s, contents, n)),
    decreases n,
{
    if n > 0 {
        lemma_contents_clean(s, contents, (n - 1) as nat);
        lemma_content_clean(contents_state(s, contents, (n - 1) as nat), contents[n - 1]);
    }
}

proof fn lemma_cells_clean(s: NetlistView, library: Seq<char>, cells: Seq<EdifCell>, n: nat)
    requires
        clean_pins(s),
    ensures
        clean_pins(cells_state(s, library, cells, n)),
    decreases n,
{
    if n > 0 {
        lemma_cells_clean(s, library, cells, (n - 1) as nat);
        let before = cells_state(s, library, cells, (n - 1) as nat);
        let cell = cells[n - 1];
        let t = cell_step(before, library, cell);
        if library == "COMPONENT_LIB"@ {
            assert forall|k: (Seq<char>, Seq<char>), p: Seq<char>|
                t.lib_parts.dom().contains(k) && #[trigger] t.lib_parts[k].pins.dom().contains(p)
                implies clean_pin(p) by {
                if k == ("COMPONENT_LIB"@, cell.name.name@) {
                    lemma_ports_clean(cell.ports@, cell.ports@.len(), p);
                } else {
                    assert(before.lib_parts[k].pins.dom().contains(p));
                }
            }
            assert forall|m: Seq<char>, d: Seq<char>, p: Seq<char>|
                t.nets.dom().contains(m) && #[trigger] t.nets[m].nodes.contains((d, p))
                implies clean_pin(p) by {
                assert(before.nets[m].nodes.contains((d, p)));
            }
        } else if library == "SHEET_LIB"@ {
            lemma_contents_clean(before, cell.contents@, cell.contents@.len());
        }
    }
}

/// No pin identifier read from EDIF begins with an ampersand.
pub proof fn lemma_edif_pins_clean(libraries: Seq<EdifLibrary>, n: nat)
    ensures
        clean_pins(edif_state(libraries, n)),
    decreases n,
{
    if n > 0 {
        lemma_edif_pins_clean(libraries, (n - 1) as nat);
        lemma_cells_clean(
            edif_state(libraries, (n - 1) as nat),
            libraries[n - 1].name@,
            libraries[n - 1].cells@,
            libraries[n - 1].cells@.len(),
        );
    }
}

/// The type of a pin whose port has the given direction.
pub fn port_pin_type(direction: &str) -> (r: PinType)
    ensures
        r == port_type(direction@),
{
    if str_eq(direction, "INOUT") {
        PinType::DigitalIO
    } else if str_eq(direction, "INPUT") {
        PinType::DigitalInput
    } else if str_eq(direction, "OUTPUT") {
        PinType::DigitalOutput
    } else {
        PinType::Passive
    }
}

/// The library part that a cell of `COMPONENT_LIB` gives.
pub fn read_cell_part(cell: &EdifCell) -> (r: LibPart)
    ensures
        r.wf(),
        r@ == cell_part(*cell),
{
    let mut part = LibPart::empty();
    let mut i: usize = 0;
    assert(part.pins.map_of(|p: Pin| p@) =~= port_pins(cell.ports@, 0));
    while i < cell.ports.len()
        invariant
            part.wf(),
            i <= cell.ports@.len(),
            part@ == (LibPartView { pins: port_pins(cell.ports@, i as nat), ..LibPart::spec_empty() }),
        decreases cell.ports@.len() - i,
    {
        let port = &cell.ports[i];
        let id = PinId(without_ampersand(port.name.name.as_str()));
        let pin = Pin::plain(PinName(String::new()), port_pin_type(port.direction.as_str()));
        let ghost before = part.pins;
        part.pins.insert(id, pin);
        proof {
            Dict::lemma_insert_map(&before, &part.pins, id@, pin, |p: Pin| p@);
        }
        i = i + 1;
    }
    part
}

/// The value under `key`, or the empty string where there is none.
pub fn field_of(fields: &Dict<String, String>, key: &str) -> (r: String)
    requires
        fields.wf(),
    ensures
        r@ == field_or_empty(string_map(*fields), key@),
{
    match fields.get(&String::from_str(key)) {
        Some(v) => v.clone(),
        None => String::new(),
    }
}

/// The part that an instance gives.
pub fn read_instance(instance: &EdifInstance) -> (r: Component)
    ensures
        r.wf(),
        r@ == instance_component(*instance),
{
    let mut fields: Dict<String, String> = Dict::new();
    assert(string_map(fields) =~= property_fields(instance.properties@, 0));
    let mut i: usize = 0;
    while i < instance.properties.len()
        invariant
            fields.wf(),
            i <= instance.properties@.len(),
            string_map(fields) == property_fields(instance.properties@, i as nat),
        decreases instance.properties@.len() - i,
    {
        let property = &instance.properties[i];
        set_text(&mut fields, property.name.display(), property.value.as_str());
        i = i + 1;
    }
    let value = if fields.contains_key(&String::from_str("Value")) {
        field_of(&fields, "Value")
    } else {
        field_of(&fields, "Comment")
    };
    let description = field_of(&fields, "Description");
    let r = Component {
        value,
        description,
        lib_source: (
            LibName(String::from_str("COMPONENT_LIB")),
            LibPartName(instance.lib_part_name.clone()),
        ),
        fields,
        sections: Vec::new(),
    };
    assert(r@.sections =~= Seq::empty());
    r
}

/// The net that a net form gives.
pub fn read_net(net: &EdifNet) -> (r: Net)
    ensures
        r.wf(),
        r@ == net_of(*net),
{
    let mut result = Net::new();
    assert(result@.nodes =~= joined_nodes(net.joined@, 0));
    let mut i: usize = 0;
    while i < net.joined.len()
        invariant
            result.wf(),
            i <= net.joined@.len(),
            result@.nodes == joined_nodes(net.joined@, i as nat),
            result@.properties == Map::<Seq<char>, Seq<char>>::empty(),
        decreases net.joined@.len() - i,
    {
        let port = &net.joined[i];
        result.add_node(
            Designator(port.designator.clone()),
            PinId(without_ampersand(port.pin_id.as_str())),
        );
        i = i + 1;
    }
    let mut k: usize = 0;
    assert(string_map(result.properties) =~= net_properties(net.properties@, 0));
    while k < net.properties.len()
        invariant
            result.wf(),
            k <= net.properties@.len(),
            result@.nodes == joined_nodes(net.joined@, net.joined@.len()),
            string_map(result.properties) == net_properties(net.properties@, k as nat),
        decreases net.properties@.len() - k,
    {
        let property = &net.properties[k];
        set_string(&mut result.properties, property.name.display(), property.value.as_str());
        k = k + 1;
    }
    result
}

/// Adds a footprint to the library part under `source`, if there is one.
fn add_footprint(netlist: &mut Netlist, source: &(LibName, LibPartName), footprint: String)
    requires
        old(netlist).wf(),
    ensures
        final(netlist).wf(),
        final(netlist).components == old(netlist).components,
        final(netlist).nets == old(netlist).nets,
        final(netlist).lib_parts.map_of(|p: LibPart| p@) == (if old(netlist).lib_parts.has_key(
            source@,
        ) {
            let was = old(netlist).lib_parts.value_of(source@)@;
            old(netlist).lib_parts.map_of(|p: LibPart| p@).insert(
                source@,
                LibPartView { footprints: was.footprints.push(footprint@), ..was },
            )
        } else {
            old(netlist).lib_parts.map_of(|p: LibPart| p@)
        }),
{
    let ghost before = netlist.lib_parts;
    let Some(i) = netlist.lib_parts.find(source) else {
        return ;
    };
    let mut part = netlist.lib_parts.values.remove(i);
    let ghost was = part;
    part.footprints.push(footprint);
    assert(texts(part.footprints@) =~= texts(was.footprints@).push(footprint@));
    netlist.lib_parts.values.insert(i, part);
    proof {
        assert(netlist.lib_parts.values@ =~= before.values@.update(i as int, part));
        assert(netlist.lib_parts.keys@ == before.keys@);
        assert forall|j: int| 0 <= j < netlist.lib_parts.values@.len() implies (
        #[trigger] netlist.lib_parts.values@[j]).wf() by {
            if j != i {
                assert(netlist.lib_parts.values@[j] == before.values@[j]);
            } else {
                assert(before.values@[i as int].wf());
            }
        }
        netlist.lib_parts.lemma_index_of(i as int);
        assert forall|x: (Seq<char>, Seq<char>)|
            before.has_key(x) && x != source@ implies netlist.lib_parts.value_of(x)
            == before.value_of(x) by {
            let j = before.index_of(x);
            netlist.lib_parts.lemma_index_of(j);
        }
        Dict::lemma_insert_map(&before, &netlist.lib_parts, source@, part, |p: LibPart| p@);
    }
}

/// Takes one item of a sheet into the netlist.
fn take_content(netlist: &mut Netlist, content: &EdifContent)
    requires
        old(netlist).wf(),
    ensures
        final(netlist).wf(),
        final(netlist)@ == content_step(old(netlist)@, *content),
{
    let ghost before = *netlist;
    match content {
        EdifContent::Instance(instance) => {
            let component = read_instance(instance);
            let source = (
                LibName(String::from_str("COMPONENT_LIB")),
                LibPartName(instance.lib_part_name.clone()),
            );
            if component.fields.contains_key(&String::from_str("Footprint")) {
                let footprint = field_of(&component.fields, "Footprint");
                add_footprint(netlist, &source, footprint);
            }
            let ghost middle = netlist.components;
            netlist.insert_component(Designator(instance.designator.clone()), component);
            proof {
                Dict::lemma_insert_map(
                    &middle,
                    &netlist.components,
                    instance.designator@,
                    component,
                    |c: Component| c@,
                );
                assert(netlist@.lib_parts =~= content_step(
                    before@,
                    *content,
                ).lib_parts);
            }
        },
        EdifContent::Net(net) => {
            let read = read_net(net);
            let name = NetName(String::from_str(net.name.display()));
            let ghost nets = netlist.nets;
            let added = netlist.insert_net(name, read);
            proof {
                if added {
                    Dict::lemma_insert_map(&nets, &netlist.nets, name@, read, |n: Net| n@);
                }
            }
        },
        EdifContent::Other => {},
    }
}

/// Builds the netlist of the libraries of an EDIF file.
pub fn load_edif_netlist(libraries: &Vec<EdifLibrary>) -> (r: Netlist)
    ensures
        r.wf(),
        r@ == edif_state(libraries@, libraries@.len()),
        clean_pins(r@),
{
    proof {
        lemma_edif_pins_clean(libraries@, libraries@.len());
    }
    let mut netlist = Netlist::new();
    let mut l: usize = 0;
    while l < libraries.len()
        invariant
            netlist.wf(),
            l <= libraries@.len(),
            netlist@ == edif_state(libraries@, l as nat),
        decreases libraries@.len() - l,
    {
        let library = &libraries[l];
        let ghost start = netlist@;
        let component_lib = str_eq(library.name.as_str(), "COMPONENT_LIB");
        let sheet_lib = str_eq(library.name.as_str(), "SHEET_LIB");
        let mut c: usize = 0;
        while c < library.cells.len()
            invariant
                netlist.wf(),
                c <= library.cells@.len(),
                component_lib == (library.name@ == "COMPONENT_LIB"@),
                sheet_lib == (library.name@ == "SHEET_LIB"@),
                netlist@ == cells_state(start, library.name@, library.cells@, c as nat),
            decreases library.cells@.len() - c,
        {
            let cell = &library.cells[c];
            if component_lib {
                let part = read_cell_part(cell);
                let source = (
                    LibName(String::from_str("COMPONENT_LIB")),
                    LibPartName(cell.name.name.clone()),
                );
                let ghost before = netlist.lib_parts;
                netlist.insert_lib_part(source, part);
                proof {
                    Dict::lemma_insert_map(
                        &before,
                        &netlist.lib_parts,
                        source@,
                        part,
                        |p: LibPart| p@,
                    );
                }
            } else if sheet_lib {
                let ghost sheet = netlist@;
                let mut k: usize = 0;
                while k < cell.contents.len()
                    invariant
                        netlist.wf(),
                        k <= cell.contents@.len(),
                        netlist@ == contents_state(sheet, cell.contents@, k as nat),
                    decreases cell.contents@.len() - k,
                {
                    take_content(&mut netlist, &cell.contents[k]);
                    k = k + 1;
                }
            }
            c = c + 1;
        }
        l = l + 1;
    }
    netlist
}

} // verus!
