//! The parts on an I2C bus, by the role they play there.
use vstd::prelude::*;
use crate::collections::{Key, KeySet};
use crate::i2c_model::{
    buses_view, nodes_view, I2cBus, I2cBusView, I2cBuses, I2cNode, I2cNodeView,
};
use crate::names::{starts_with_char, Designator};
use crate::netlist::Netlist;
use crate::text::{contains, lowercase, starts_with, str_contains, str_starts_with, to_lowercase};

verus! {

/// The description is that of a level shifter: in lower case it holds
/// `shifter` or `translator`.
pub open spec fn shifter_text(description: Seq<char>) -> bool {
    contains(lowercase(description), "shifter"@) || contains(lowercase(description), "translator"@)
}

/// The part `d` resolves to a library part.
pub open spec fn resolves(netlist: &Netlist, d: Seq<char>) -> bool {
    netlist.components.has_key(d) && netlist.lib_parts.has_key(
        netlist.components.value_of(d).lib_source@,
    )
}

/// The description of the library part of `d`.
pub open spec fn description_of(netlist: &Netlist, d: Seq<char>) -> Seq<char> {
    netlist.lib_parts.value_of(netlist.components.value_of(d).lib_source@).description@
}

/// The part `d` is an integrated circuit whose library part is described as a level shifter.
pub open spec fn is_level_shifter(netlist: &Netlist, d: Seq<char>) -> bool {
    starts_with_char(d, 'U') && resolves(netlist, d) && shifter_text(description_of(netlist, d))
}

/// The role that the label and the library give the part `d`: `J…` is a
/// connector, `TP…` a test point, `U…` a device unless it is a level shifter
/// or does not resolve; all else is unknown.
pub open spec fn classify(netlist: &Netlist, d: Seq<char>) -> I2cNodeView {
    if starts_with_char(d, 'J') {
        I2cNodeView::Connector(d)
    } else if starts_with_char(d, 'U') {
        if resolves(netlist, d) && !shifter_text(description_of(netlist, d)) {
            I2cNodeView::Device(d)
        } else {
            I2cNodeView::Unknown(d)
        }
    } else if starts_with(d, "TP"@) {
        I2cNodeView::TestPoint(d)
    } else {
        I2cNodeView::Unknown(d)
    }
}

/// Whether the part is an integrated circuit described as a level shifter.
pub fn level_shifter(netlist: &Netlist, designator: &Designator) -> (r: bool)
    requires
        netlist.wf(),
    ensures
        r == is_level_shifter(netlist, designator@),
{
    if !designator.starts_with('U') {
        return false;
    }
    let Some(component) = netlist.components.get(designator) else {
        return false;
    };
    let Some(lib_part) = netlist.lib_parts.get(&component.lib_source) else {
        return false;
    };
    let d = to_lowercase(lib_part.description.as_str());
    str_contains(d.as_str(), "shifter") || str_contains(d.as_str(), "translator")
}

/// The node that stands for a part, by its label and its library part.
pub fn part_to_node(netlist: &Netlist, designator: Designator) -> (r: I2cNode)
    requires
        netlist.wf(),
    ensures
        r@ == classify(netlist, designator@),
{
    if designator.starts_with('J') {
        I2cNode::Connector(designator)
    } else if designator.starts_with('U') {
        let mut device = false;
        if let Some(component) = netlist.components.get(&designator) {
            if let Some(lib_part) = netlist.lib_parts.get(&component.lib_source) {
                let d = to_lowercase(lib_part.description.as_str());
                device = !(str_contains(d.as_str(), "shifter") || str_contains(
                    d.as_str(),
                    "translator",
                ));
            }
        }
        if device {
            I2cNode::Device(designator)
        } else {
            I2cNode::Unknown(designator)
        }
    } else if str_starts_with(designator.0.as_str(), "TP") {
        I2cNode::TestPoint(designator)
    } else {
        I2cNode::Unknown(designator)
    }
}

/// The nodes that stand for the parts, in their order.
pub fn parts_to_nodes(netlist: &Netlist, parts: KeySet<Designator>) -> (r: Vec<I2cNode>)
    requires
        netlist.wf(),
    ensures
        r@.len() == parts.items@.len(),
        forall|i: int|
            0 <= i < r@.len() ==> (#[trigger] r@[i])@ == classify(netlist, parts.items@[i]@),
{
    let mut nodes: Vec<I2cNode> = Vec::new();
    let mut i: usize = 0;
    while i < parts.items.len()
        invariant
            netlist.wf(),
            i <= parts.items@.len(),
            nodes@.len() == i,
            forall|j: int|
                0 <= j < i ==> (#[trigger] nodes@[j])@ == classify(netlist, parts.items@[j]@),
        decreases parts.items@.len() - i,
    {
        nodes.push(part_to_node(netlist, parts.items[i].clone()));
        i = i + 1;
    }
    nodes
}

/// The part `d` on the bus `bus` also sits on the clock line of `other`,
/// which is neither line of `bus`.
pub open spec fn leads_to_bus(netlist: &Netlist, bus: I2cBusView, d: Seq<char>, other: I2cBusView) -> bool {
    netlist.on_net(other.scl_net, d) && other.scl_net != bus.scl_net && other.scl_net
        != bus.sda_net
}

/// The names of those of the first `n` buses to which the part `d` on `bus` leads.
pub open spec fn other_sides(
    netlist: &Netlist,
    buses: Seq<I2cBusView>,
    bus: I2cBusView,
    d: Seq<char>,
    n: nat,
) -> Seq<Seq<char>>
    decreases n,
{
    if n == 0 {
        Seq::empty()
    } else {
        let before = other_sides(netlist, buses, bus, d, (n - 1) as nat);
        if leads_to_bus(netlist, bus, d, buses[n - 1]) {
            before.push(buses[n - 1].derived_name)
        } else {
            before
        }
    }
}

/// What becomes of a node when level shifters are told from devices: an
/// unknown level shifter that leads to exactly one other bus is a voltage
/// translator to it, any other unknown level shifter is a device, and every
/// other node stays what it is.
pub open spec fn promoted(
    netlist: &Netlist,
    buses: Seq<I2cBusView>,
    bus: I2cBusView,
    node: I2cNodeView,
) -> I2cNodeView {
    match node {
        I2cNodeView::Unknown(d) => if is_level_shifter(netlist, d) {
            let others = other_sides(netlist, buses, bus, d, buses.len());
            if others.len() == 1 {
                I2cNodeView::VoltageTranslator { part: d, other_side: others[0] }
            } else {
                I2cNodeView::Device(d)
            }
        } else {
            node
        },
        _ => node,
    }
}

/// The bus with every node promoted.
pub open spec fn promoted_bus(netlist: &Netlist, buses: Seq<I2cBusView>, bus: I2cBusView) -> I2cBusView {
    I2cBusView {
        nodes: Seq::new(bus.nodes.len(), |i: int| promoted(netlist, buses, bus, bus.nodes[i])),
        ..bus
    }
}

/// The names of the buses to which the part on `bus` leads.
fn find_other_sides(netlist: &Netlist, buses: &Vec<I2cBus>, bus: &I2cBus, part: &Designator) -> (r:
    Vec<String>)
    requires
        netlist.wf(),
    ensures
        r@.len() == other_sides(netlist, buses_view(buses@), bus@, part@, buses@.len()).len(),
        forall|i: int|
            0 <= i < r@.len() ==> (#[trigger] r@[i])@ == other_sides(
                netlist,
                buses_view(buses@),
                bus@,
                part@,
                buses@.len(),
            )[i],
{
    let mut found: Vec<String> = Vec::new();
    let mut k: usize = 0;
    while k < buses.len()
        invariant
            netlist.wf(),
            k <= buses@.len(),
            found@.len() == other_sides(netlist, buses_view(buses@), bus@, part@, k as nat).len(),
            forall|i: int|
                0 <= i < found@.len() ==> (#[trigger] found@[i])@ == other_sides(
                    netlist,
                    buses_view(buses@),
                    bus@,
                    part@,
                    k as nat,
                )[i],
        decreases buses@.len() - k,
    {
        let other = &buses[k];
        assert(buses_view(buses@)[k as int] == other@);
        if netlist.is_connected(part, &other.scl_net) && !other.scl_net.same(&bus.scl_net)
            && !other.scl_net.same(&bus.sda_net) {
            found.push(other.derived_name.clone());
        }
        k = k + 1;
    }
    found
}

/// Tells a level shifter that was left unknown from a device.
fn promote(netlist: &Netlist, buses: &Vec<I2cBus>, bus: &I2cBus, node: &I2cNode) -> (r: I2cNode)
    requires
        netlist.wf(),
    ensures
        r@ == promoted(netlist, buses_view(buses@), bus@, node@),
{
    if let I2cNode::Unknown(d) = node {
        if level_shifter(netlist, d) {
            let mut others = find_other_sides(netlist, buses, bus, d);
            if others.len() == 1 {
                let other_side = others.pop().unwrap();
                return I2cNode::VoltageTranslator { part: d.clone(), other_side };
            } else {
                return I2cNode::Device(d.clone());
            }
        }
    }
    node.clone()
}

/// The bus with every node promoted.
fn promote_bus(netlist: &Netlist, buses: &Vec<I2cBus>, bus: &I2cBus) -> (r: I2cBus)
    requires
        netlist.wf(),
    ensures
        r@ == promoted_bus(netlist, buses_view(buses@), bus@),
{
    let mut nodes: Vec<I2cNode> = Vec::new();
    let mut i: usize = 0;
    while i < bus.nodes.len()
        invariant
            netlist.wf(),
            i <= bus.nodes@.len(),
            nodes@.len() == i,
            forall|j: int|
                0 <= j < i ==> (#[trigger] nodes@[j])@ == promoted(
                    netlist,
                    buses_view(buses@),
                    bus@,
                    bus.nodes@[j]@,
                ),
        decreases bus.nodes@.len() - i,
    {
        nodes.push(promote(netlist, buses, bus, &bus.nodes[i]));
        i = i + 1;
    }
    let pull_up = match &bus.pull_up {
        Some(p) => Some(p.clone()),
        None => None,
    };
    let r = I2cBus {
        derived_name: bus.derived_name.clone(),
        scl_net: bus.scl_net.clone(),
        sda_net: bus.sda_net.clone(),
        pull_up,
        nodes,
    };
    assert(r@.nodes =~= promoted_bus(netlist, buses_view(buses@), bus@).nodes);
    r
}

impl I2cBuses {
    /// Tells the level shifters that were left unknown from devices, on every
    /// bus: one that leads to exactly one other bus becomes a voltage
    /// translator to it, any other becomes a device.
    pub fn collect_nodes(&mut self, netlist: &Netlist)
        requires
            netlist.wf(),
            old(self).by_name.wf(),
        ensures
            final(self).by_name.wf(),
            final(self).by_name.keys@ == old(self).by_name.keys@,
            final(self).direct_segments@ == old(self).direct_segments@,
            final(self).same_bus_segments@ == old(self).same_bus_segments@,
            final(self).by_name.values@.len() == old(self).by_name.values@.len(),
            forall|i: int|
                0 <= i < final(self).by_name.values@.len() ==> (
                #[trigger] final(self).by_name.values@[i])@ == promoted_bus(
                    netlist,
                    buses_view(old(self).by_name.values@),
                    old(self).by_name.values@[i]@,
                ),
    {
        let mut renewed: Vec<I2cBus> = Vec::new();
        let mut i: usize = 0;
        while i < self.by_name.values.len()
            invariant
                netlist.wf(),
                *self == *old(self),
                i <= self.by_name.values@.len(),
                renewed@.len() == i,
                forall|j: int|
                    0 <= j < i ==> (#[trigger] renewed@[j])@ == promoted_bus(
                        netlist,
                        buses_view(self.by_name.values@),
                        self.by_name.values@[j]@,
                    ),
            decreases self.by_name.values@.len() - i,
        {
            renewed.push(promote_bus(netlist, &self.by_name.values, &self.by_name.values[i]));
            i = i + 1;
        }
        self.by_name.values = renewed;
    }
}

} // verus!
