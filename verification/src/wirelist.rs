//! Netlists in the wirelist form that accompanies an EDIF file: a list of
//! parts and a list of nets, each net with its connections.
//!
//! The wirelist knows what EDIF does not: the name and the type of every
//! pin. It keeps them in one library part per placed part, named like the part.
use vstd::prelude::*;
use crate::collections::{set_string, string_map, Dict, Key, KeySet};
use crate::model::{
    Component, ComponentView, LibName, LibPart, LibPartName, LibPartView, Net, NetView, Pin,
    PinType, PinView,
};
use crate::names::{Designator, NetName, PinId, PinName};
use crate::netlist::{Netlist, NetlistView};
use crate::text::str_eq;

verus! {

/// A line of the list of parts.
#[derive(Debug)]
pub struct WirelistComponent {
    pub part_number: String,
    pub designator: String,
    pub footprint: String,
}

/// One pin on a net.
#[derive(Debug)]
pub struct WirelistConnection {
    pub designator: String,
    pub pin_id: String,
    pub pin_name: String,
    pub io_type: String,
    pub part_value: String,
}

/// A net with its connections.
#[derive(Debug)]
pub struct WirelistNet {
    pub name: String,
    pub connections: Vec<WirelistConnection>,
}

/// The two lists of a wirelist file.
#[derive(Debug)]
pub struct Wirelist {
    pub components: Vec<WirelistComponent>,
    pub nets: Vec<WirelistNet>,
}

/// The type of a pin by the words of the wirelist.
pub open spec fn io_type(words: Seq<char>) -> PinType {
    if words == "PASSIVE"@ {
        PinType::Passive
    } else if words == "OUTPUT"@ {
        PinType::DigitalOutput
    } else if words == "INPUT"@ {
        PinType::DigitalInput
    } else if words == "I/O"@ {
        PinType::DigitalIO
    } else if words == "OPEN COLLECTOR"@ {
        PinType::OpenCollector
    } else if words == "OPEN EMITTER"@ {
        PinType::OpenEmitter
    } else if words == "POWER"@ {
        PinType::PowerUnspecified
    } else {
        PinType::Passive
    }
}

/// The part that a line of the list of parts gives: its value is the part
/// number, and its footprint is a field.
pub open spec fn listed_component(line: WirelistComponent) -> ComponentView {
    ComponentView {
        value: line.part_number@,
        fields: Map::<Seq<char>, Seq<char>>::empty().insert("Footprint"@, line.footprint@),
        ..Component::spec_empty()
    }
}

/// The parts that the first `n` lines give.
pub open spec fn listed_components(lines: Seq<WirelistComponent>, n: nat) -> Map<
    Seq<char>,
    ComponentView,
>
    decreases n,
{
    if n == 0 {
        Map::empty()
    } else {
        listed_components(lines, (n - 1) as nat).insert(
            lines[n - 1].designator@,
            listed_component(lines[n - 1]),
        )
    }
}

/// The key of the library part that stands for the placed part `designator`.
pub open spec fn own_part(designator: Seq<char>) -> (Seq<char>, Seq<char>) {
    (Seq::empty(), designator)
}

/// The library parts after one more connection: the pin of the connection
/// is stored in the library part of its placed part.
pub open spec fn connection_step(
    parts: Map<(Seq<char>, Seq<char>), LibPartView>,
    c: WirelistConnection,
) -> Map<(Seq<char>, Seq<char>), LibPartView> {
    let k = own_part(c.designator@);
    let part = if parts.dom().contains(k) {
        parts[k]
    } else {
        LibPart::spec_empty()
    };
    parts.insert(
        k,
        LibPartView {
            pins: part.pins.insert(c.pin_id@, Pin::spec_plain(c.pin_name@, io_type(c.io_type@))),
            ..part
        },
    )
}

/// The library parts after the first `n` connections of a net.
pub open spec fn connections_parts(
    parts: Map<(Seq<char>, Seq<char>), LibPartView>,
    connections: Seq<WirelistConnection>,
    n: nat,
) -> Map<(Seq<char>, Seq<char>), LibPartView>
    decreases n,
{
    if n == 0 {
        parts
    } else {
        connection_step(connections_parts(parts, connections, (n - 1) as nat), connections[n - 1])
    }
}

/// The nodes that the first `n` connections give.
pub open spec fn connection_nodes(connections: Seq<WirelistConnection>, n: nat) -> Set<
    (Seq<char>, Seq<char>),
>
    decreases n,
{
    if n == 0 {
        Set::empty()
    } else {
        connection_nodes(connections, (n - 1) as nat).insert(
            (connections[n - 1].designator@, connections[n - 1].pin_id@),
        )
    }
}

/// What has been read after one more net. Of two nets with one name the
/// first is kept; the pins of both are stored.
pub open spec fn wire_step(s: NetlistView, net: WirelistNet) -> NetlistView {
    NetlistView {
        lib_parts: connections_parts(s.lib_parts, net.connections@, net.connections@.len()),
        nets: if s.nets.dom().contains(net.name@) {
            s.nets
        } else {
            s.nets.insert(
                net.name@,
                NetView {
                    nodes: connection_nodes(net.connections@, net.connections@.len()),
                    properties: Map::empty(),
                },
            )
        },
        ..s
    }
}

/// What has been read after the first `n` nets.
pub open spec fn wires_state(s: NetlistView, nets: Seq<WirelistNet>, n: nat) -> NetlistView
    decreases n,
{
    if n == 0 {
        s
    } else {
        wire_step(wires_state(s, nets, (n - 1) as nat), nets[n - 1])
    }
}

/// What a wirelist holds.
pub open spec fn wirelist_state(wirelist: Wirelist) -> NetlistView {
    wires_state(
        NetlistView {
            components: listed_components(wirelist.components@, wirelist.components@.len()),
            ..NetlistView::empty()
        },
        wirelist.nets@,
        wirelist.nets@.len(),
    )
}

/// The names of the library parts, in the order in which they are held.
pub open spec fn keys_of(parts: Dict<(LibName, LibPartName), LibPart>) -> Seq<
    (Seq<char>, Seq<char>),
> {
    parts.keys@.map_values(|k: (LibName, LibPartName)| k@)
}

/// The names `order`, followed by those of the library parts of the first
/// `n` connections that did not come before, in order.
pub open spec fn connections_order(
    order: Seq<(Seq<char>, Seq<char>)>,
    connections: Seq<WirelistConnection>,
    n: nat,
) -> Seq<(Seq<char>, Seq<char>)>
    decreases n,
{
    if n == 0 {
        order
    } else {
        let before = connections_order(order, connections, (n - 1) as nat);
        let k = own_part(connections[n - 1].designator@);
        if before.contains(k) {
            before
        } else {
            before.push(k)
        }
    }
}

/// The names `order`, followed by those of the library parts of the first
/// `n` nets that did not come before, in order.
pub open spec fn wires_order(
    order: Seq<(Seq<char>, Seq<char>)>,
    nets: Seq<WirelistNet>,
    n: nat,
) -> Seq<(Seq<char>, Seq<char>)>
    decreases n,
{
    if n == 0 {
        order
    } else {
        connections_order(
            wires_order(order, nets, (n - 1) as nat),
            nets[n - 1].connections@,
            nets[n - 1].connections@.len(),
        )
    }
}

/// The names of the library parts of a wirelist, in the order in which its
/// connections first speak of them.
pub open spec fn part_order(wirelist: Wirelist) -> Seq<(Seq<char>, Seq<char>)> {
    wires_order(Seq::empty(), wirelist.nets@, wirelist.nets@.len())
}

/// A library part is held exactly where its name is among the names.
pub proof fn lemma_keys_of(parts: Dict<(LibName, LibPartName), LibPart>, k: (Seq<char>, Seq<char>))
    ensures
        parts.has_key(k) == keys_of(parts).contains(k),
{
    let names = keys_of(parts);
    if parts.has_key(k) {
        let i = choose|i: int| 0 <= i < parts.keys@.len() && #[trigger] parts.keys@[i]@ == k;
        assert(names[i] == k);
    }
    if names.contains(k) {
        let i = choose|i: int| 0 <= i < names.len() && names[i] == k;
        assert(parts.keys@[i]@ == k);
    }
}

/// The type of a pin by the words of the wirelist.
pub fn pin_io_type(words: &str) -> (r: PinType)
    ensures
        r == io_type(words@),
{
    if str_eq(words, "PASSIVE") {
        PinType::Passive
    } else if str_eq(words, "OUTPUT") {
        PinType::DigitalOutput
    } else if str_eq(words, "INPUT") {
        PinType::DigitalInput
    } else if str_eq(words, "I/O") {
        PinType::DigitalIO
    } else if str_eq(words, "OPEN COLLECTOR") {
        PinType::OpenCollector
    } else if str_eq(words, "OPEN EMITTER") {
        PinType::OpenEmitter
    } else if str_eq(words, "POWER") {
        PinType::PowerUnspecified
    } else {
        PinType::Passive
    }
}

/// Stores a pin in the library part under `source`, which is made where
/// it is not there.
pub fn store_pin(netlist: &mut Netlist, source: (LibName, LibPartName), id: PinId, pin: Pin)
    requires
        old(netlist).wf(),
    ensures
        final(netlist).wf(),
        final(netlist)@ == (NetlistView {
            lib_parts: {
                let parts = old(netlist)@.lib_parts;
                let part = if parts.dom().contains(source@) {
                    parts[source@]
                } else {
                    LibPart::spec_empty()
                };
                parts.insert(source@, LibPartView { pins: part.pins.insert(id@, pin@), ..part })
            },
            ..old(netlist)@
        }),
        keys_of(final(netlist).lib_parts) == (if keys_of(old(netlist).lib_parts).contains(source@) {
            keys_of(old(netlist).lib_parts)
        } else {
            keys_of(old(netlist).lib_parts).push(source@)
        }),
{
    let ghost before = netlist.lib_parts;
    proof {
        lemma_keys_of(before, source@);
    }
    match netlist.lib_parts.find(&source) {
        None => {
            let mut part = LibPart::empty();
            let ghost pins = part.pins;
            part.pins.insert(id, pin);
            proof {
                Dict::lemma_insert_map(&pins, &part.pins, id@, pin, |p: Pin| p@);
            }
            netlist.insert_lib_part(source, part);
            assert(keys_of(netlist.lib_parts) =~= keys_of(before).push(source@));
        },
        Some(i) => {
            let mut part = netlist.lib_parts.values.remove(i);
            let ghost was = part;
            assert(was == before.values@[i as int]);
            assert(was.wf());
            let ghost pins = part.pins;
            part.pins.insert(id, pin);
            netlist.lib_parts.values.insert(i, part);
            proof {
                Dict::lemma_insert_map(&pins, &part.pins, id@, pin, |p: Pin| p@);
                assert(netlist.lib_parts.values@ =~= before.values@.update(i as int, part));
                assert forall|j: int| 0 <= j < netlist.lib_parts.values@.len() implies (
                #[trigger] netlist.lib_parts.values@[j]).wf() by {
                    if j != i {
                        assert(netlist.lib_parts.values@[j] == before.values@[j]);
                    }
                }
                netlist.lib_parts.lemma_index_of(i as int);
                assert forall|x: (Seq<char>, Seq<char>)|
                    before.has_key(x) && x != source@ implies netlist.lib_parts.value_of(x)
                    == before.value_of(x) by {
                    let j = before.index_of(x);
                    netlist.lib_parts.lemma_index_of(j);
                }
                Dict::lemma_insert_map(&before, &netlist.lib_parts, source@, part, |p: LibPart| p@);
            }
        },
    }
}

/// Takes one net into the netlist.
fn take_net(netlist: &mut Netlist, net: &WirelistNet)
    requires
        old(netlist).wf(),
    ensures
        final(netlist).wf(),
        final(netlist)@ == wire_step(old(netlist)@, *net),
        keys_of(final(netlist).lib_parts) == connections_order(
            keys_of(old(netlist).lib_parts),
            net.connections@,
            net.connections@.len(),
        ),
{
    let ghost start = netlist@;
    let ghost first = keys_of(netlist.lib_parts);
    let mut read = Net::new();
    let mut i: usize = 0;
    while i < net.connections.len()
        invariant
            netlist.wf(),
            read.wf(),
            i <= net.connections@.len(),
            read@ == (NetView {
                nodes: connection_nodes(net.connections@, i as nat),
                properties: Map::empty(),
            }),
            netlist@ == (NetlistView {
                lib_parts: connections_parts(start.lib_parts, net.connections@, i as nat),
                ..start
            }),
            keys_of(netlist.lib_parts) == connections_order(first, net.connections@, i as nat),
        decreases net.connections@.len() - i,
    {
        let c = &net.connections[i];
        read.add_node(Designator(c.designator.clone()), PinId(c.pin_id.clone()));
        store_pin(
            netlist,
            (LibName(String::new()), LibPartName(c.designator.clone())),
            PinId(c.pin_id.clone()),
            Pin::plain(PinName(c.pin_name.clone()), pin_io_type(c.io_type.as_str())),
        );
        i = i + 1;
    }
    netlist.insert_net(NetName(net.name.clone()), read);
}

/// Builds the netlist of a wirelist.
pub fn load_wirelist_netlist(wirelist: &Wirelist) -> (r: Netlist)
    ensures
        r.wf(),
        r@ == wirelist_state(*wirelist),
        keys_of(r.lib_parts) == part_order(*wirelist),
{
    let mut netlist = Netlist::new();
    assert(keys_of(netlist.lib_parts) =~= Seq::empty());
    let mut i: usize = 0;
    while i < wirelist.components.len()
        invariant
            netlist.wf(),
            i <= wirelist.components@.len(),
            netlist@ == (NetlistView {
                components: listed_components(wirelist.components@, i as nat),
                ..NetlistView::empty()
            }),
            keys_of(netlist.lib_parts) == Seq::<(Seq<char>, Seq<char>)>::empty(),
        decreases wirelist.components@.len() - i,
    {
        let line = &wirelist.components[i];
        let mut component = Component::empty();
        component.value = line.part_number.clone();
        set_string(&mut component.fields, "Footprint", line.footprint.as_str());
        netlist.insert_component(Designator(line.designator.clone()), component);
        i = i + 1;
    }
    let ghost start = netlist@;
    let mut k: usize = 0;
    while k < wirelist.nets.len()
        invariant
            netlist.wf(),
            k <= wirelist.nets@.len(),
            netlist@ == wires_state(start, wirelist.nets@, k as nat),
            keys_of(netlist.lib_parts) == wires_order(Seq::empty(), wirelist.nets@, k as nat),
        decreases wirelist.nets@.len() - k,
    {
        take_net(&mut netlist, &wirelist.nets[k]);
        k = k + 1;
    }
    netlist
}

} // verus!
