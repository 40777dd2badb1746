//! Interconnects between I2C buses: ties through resistors and discrete
//! voltage translators through transistors.
use vstd::prelude::*;
use crate::chains::{chain_view, has_chain, one, Link};
use crate::collections::{seq_has, Key, KeySet};
use crate::i2c_discovery::{build_bus, bus_of, fresh_bus};
use crate::i2c_model::{
    buses_view, diagnostics_view, nodes_view, I2cBus, I2cBusView, I2cDiagnostic,
    I2cDiagnosticKindView, I2cDiagnosticView, I2cNode, I2cNodeView,
};
use crate::i2c_pull_ups::{chain_of_one, check_tie_resistance, tie_diagnostics};
use crate::i2c_rules::{first_other_net, first_other_net_at};
use crate::order::{lemma_not_after_chain, lemma_one_comes_first, lemma_same_place, not_after, text_before};
use crate::netlist::has_pin_name;
use crate::names::{
    holds, lemma_designator_predicates_pure, pure_predicate, spec_is_resistor,
    spec_is_transistor, Designator, NetName, PinName,
};
use crate::netlist::Netlist;

verus! {


/// The node joins two buses: it is a tie or a discrete voltage translator.
pub open spec fn is_link(n: I2cNodeView) -> bool {
    n is Tie || n is VoltageTranslatorDiscrete
}

/// `after` is `before` with links added and unknown nodes taken out: every
/// node of `before` with a known role is still there, and every node of
/// `after` was there before or is a link.
pub open spec fn rewired(before: Seq<I2cNodeView>, after: Seq<I2cNodeView>) -> bool {
    &&& forall|i: int|
        0 <= i < before.len() && !(#[trigger] before[i] is Unknown) ==> after.contains(before[i])
    &&& forall|j: int|
        0 <= j < after.len() ==> before.contains(#[trigger] after[j]) || is_link(after[j])
}

/// The bus `after` is the bus `before` with its nodes rewired.
pub open spec fn bus_rewired(before: I2cBusView, after: I2cBusView) -> bool {
    &&& after.derived_name == before.derived_name
    &&& after.scl_net == before.scl_net
    &&& after.sda_net == before.sda_net
    &&& after.pull_up == before.pull_up
    &&& rewired(before.nodes, after.nodes)
}

/// The bus was built from two lines and then rewired.
pub open spec fn adhoc_bus(netlist: &Netlist, bus: I2cBusView) -> bool {
    exists|fresh: I2cBusView| #[trigger] fresh_bus(netlist, fresh) && bus_rewired(fresh, bus)
}

/// Nodes that stay as they are count as rewired.
pub proof fn lemma_rewired_reflexive(nodes: Seq<I2cNodeView>)
    ensures
        rewired(nodes, nodes),
{
}

/// Rewiring what was rewired is rewiring.
pub proof fn lemma_rewired_transitive(
    a: Seq<I2cNodeView>,
    b: Seq<I2cNodeView>,
    c: Seq<I2cNodeView>,
)
    requires
        rewired(a, b),
        rewired(b, c),
    ensures
        rewired(a, c),
{
    assert forall|i: int| 0 <= i < a.len() && !(#[trigger] a[i] is Unknown) implies c.contains(
        a[i],
    ) by {
        let k = choose|k: int| 0 <= k < b.len() && b[k] == a[i];
        assert(!(b[k] is Unknown));
    }
    assert forall|j: int| 0 <= j < c.len() implies a.contains(#[trigger] c[j]) || is_link(c[j]) by {
        if b.contains(c[j]) {
            let k = choose|k: int| 0 <= k < b.len() && b[k] == c[j];
            assert(a.contains(b[k]) || is_link(b[k]));
        }
    }
}

/// Some change adds a node made of the part `d`.
pub open spec fn mentioned_in(changes: Seq<(String, I2cNode)>, d: Seq<char>) -> bool {
    exists|k: int| 0 <= k < changes.len() && (#[trigger] changes[k]).1@.mentions(d)
}

/// Whether some change adds a node made of the part.
fn mentioned(changes: &Vec<(String, I2cNode)>, designator: &Designator) -> (r: bool)
    ensures
        r == mentioned_in(changes@, designator@),
{
    let mut k: usize = 0;
    while k < changes.len()
        invariant
            k <= changes@.len(),
            forall|m: int| 0 <= m < k ==> !(#[trigger] changes@[m]).1@.mentions(designator@),
        decreases changes@.len() - k,
    {
        if changes[k].1.mentions_part(designator) {
            return true;
        }
        k = k + 1;
    }
    false
}

/// `net` is a line of the bus, which stands at position `i`, not at `except`.
pub open spec fn has_line(bus: I2cBusView, net: Seq<char>, except: int, i: int) -> bool {
    i != except && (bus.scl_net == net || bus.sda_net == net)
}

/// The part `d` alone, accepted by `pred`, joins the nets `from` and `to`.
pub open spec fn joins<F: Fn(&Designator) -> bool>(
    netlist: &Netlist,
    from: Seq<char>,
    pred: F,
    to: Seq<char>,
    d: Seq<char>,
) -> bool {
    exists|p: Seq<char>| #[trigger] netlist.is_chain(from, one(pred), to, chain_of_one(p, d))
}

/// The name of a pin is that of a gate.
pub open spec fn is_gate(name: Seq<char>) -> bool {
    name == "G"@ || name == "GATE"@
}

/// The part `d` sits on the net `o` with a pin that is no gate.
pub open spec fn ungated(netlist: &Netlist, d: Seq<char>, o: Seq<char>) -> bool {
    exists|j: int|
        (#[trigger] netlist.pin_name_on_net(o, j, d)) matches Some(name) && !is_gate(name)
}

/// The line of the bus on which the part `d` sits: the clock line where it
/// sits there with a pin that is no gate, else the data line.
pub open spec fn near_net(netlist: &Netlist, bus: I2cBusView, d: Seq<char>) -> Seq<char> {
    if ungated(netlist, d, bus.scl_net) {
        bus.scl_net
    } else {
        bus.sda_net
    }
}

/// The other line of the bus.
pub open spec fn opposite_net(netlist: &Netlist, bus: I2cBusView, d: Seq<char>) -> Seq<char> {
    if ungated(netlist, d, bus.scl_net) {
        bus.sda_net
    } else {
        bus.scl_net
    }
}

/// The net `o` leads the part `d` away from its line of the bus.
pub open spec fn leads_away(netlist: &Netlist, bus: I2cBusView, d: Seq<char>, o: Seq<char>) -> bool {
    ungated(netlist, d, o) && o != near_net(netlist, bus, d)
}

/// The line of the bus `other` that the second half of an interconnect
/// joins to the other line of `bus`: its data line where `d` sits on the clock
/// line of `bus`, else its clock line.
pub open spec fn other_line(
    netlist: &Netlist,
    bus: I2cBusView,
    d: Seq<char>,
    other: I2cBusView,
) -> Seq<char> {
    if ungated(netlist, d, bus.scl_net) {
        other.sda_net
    } else {
        other.scl_net
    }
}

/// The part `t` sits on the net `o`, is not `d`, and the part `c` may be
/// the second half of an interconnect that begins with `d` and leads to `t`.
pub open spec fn far_pair(
    netlist: &Netlist,
    bus: I2cBusView,
    d: Seq<char>,
    o: Seq<char>,
    t: Seq<char>,
    c: Seq<char>,
) -> bool {
    netlist.on_net(o, t) && t != d && may_pair(netlist, bus, d, t, c)
}

/// The part `c` may be the second half of an interconnect that begins with
/// `d`: it is another node of the bus with unknown role, a resistor or a
/// transistor, and connected to the part `t`.
pub open spec fn may_pair(
    netlist: &Netlist,
    bus: I2cBusView,
    d: Seq<char>,
    t: Seq<char>,
    c: Seq<char>,
) -> bool {
    &&& bus.nodes.contains(I2cNodeView::Unknown(c))
    &&& c != d
    &&& (spec_is_resistor(c) || spec_is_transistor(c))
    &&& netlist.connected(c, t)
}

/// For the part that begins an interconnect, finds the parts that may be
/// its second half, each with the part on the far side to which it leads.
pub fn adhoc_targets(
    netlist: &Netlist,
    bus: &I2cBus,
    designator: &Designator,
    far_parts: &KeySet<Designator>,
) -> (r: KeySet<(Designator, Designator)>)
    requires
        netlist.wf(),
    ensures
        r.wf(),
        forall|t: Seq<char>, c: Seq<char>| #[trigger]
            r.has((t, c)) <==> (far_parts.has(t) && may_pair(netlist, bus@, designator@, t, c)),
{
    let mut pairs: KeySet<(Designator, Designator)> = KeySet::new();
    let mut i: usize = 0;
    while i < bus.nodes.len()
        invariant
            netlist.wf(),
            pairs.wf(),
            i <= bus.nodes@.len(),
            forall|t: Seq<char>, c: Seq<char>| #[trigger]
                pairs.has((t, c)) <==> (far_parts.has(t) && c != designator@ && (spec_is_resistor(
                    c,
                ) || spec_is_transistor(c)) && netlist.connected(c, t) && exists|m: int|
                    0 <= m < i && (#[trigger] bus.nodes@[m])@ == I2cNodeView::Unknown(c)),
        decreases bus.nodes@.len() - i,
    {
        let ghost outer = pairs;
        if let I2cNode::Unknown(part) = &bus.nodes[i] {
            if !part.same(designator) && (part.is_resistor() || part.is_transistor()) {
                let mut k: usize = 0;
                while k < far_parts.items.len()
                    invariant
                        netlist.wf(),
                        pairs.wf(),
                        k <= far_parts.items@.len(),
                        forall|t: Seq<char>, c: Seq<char>| #[trigger]
                            pairs.has((t, c)) <==> (outer.has((t, c)) || (c == part@
                                && netlist.connected(c, t) && exists|m: int|
                                0 <= m < k && (#[trigger] far_parts.items@[m])@ == t)),
                    decreases far_parts.items@.len() - k,
                {
                    let ghost inner = pairs;
                    let far = &far_parts.items[k];
                    let linked = netlist.are_parts_connected(part, far);
                    if linked {
                        pairs.insert((far.clone(), part.clone()));
                    }
                    proof {
                        assert forall|t: Seq<char>, c: Seq<char>| #[trigger]
                            pairs.has((t, c)) <==> (outer.has((t, c)) || (c == part@
                                && netlist.connected(c, t) && exists|m: int|
                                0 <= m < k + 1 && (#[trigger] far_parts.items@[m])@ == t)) by {
                            assert(pairs.has((t, c)) <==> (inner.has((t, c)) || (linked && (t, c)
                                == (far@, part@))));
                            if inner.has((t, c)) && !outer.has((t, c)) {
                                let m = choose|m: int|
                                    0 <= m < k && (#[trigger] far_parts.items@[m])@ == t;
                                assert(0 <= m < k + 1 && far_parts.items@[m]@ == t);
                            }
                            if linked && (t, c) == (far@, part@) {
                                assert(0 <= k < k + 1 && far_parts.items@[k as int]@ == t);
                            }
                            if c == part@ && netlist.connected(c, t) && exists|m: int|
                                0 <= m < k + 1 && (#[trigger] far_parts.items@[m])@ == t {
                                let m = choose|m: int|
                                    0 <= m < k + 1 && (#[trigger] far_parts.items@[m])@ == t;
                                if m < k {
                                    assert(inner.has((t, c)));
                                }
                            }
                        }
                    }
                    k = k + 1;
                }
            }
        }
        proof {
            assert forall|t: Seq<char>, c: Seq<char>| #[trigger]
                pairs.has((t, c)) <==> (far_parts.has(t) && c != designator@ && (spec_is_resistor(
                    c,
                ) || spec_is_transistor(c)) && netlist.connected(c, t) && exists|m: int|
                    0 <= m < i + 1 && (#[trigger] bus.nodes@[m])@ == I2cNodeView::Unknown(c)) by {
                if outer.has((t, c)) {
                    let m = choose|m: int|
                        0 <= m < i && (#[trigger] bus.nodes@[m])@ == I2cNodeView::Unknown(c);
                    assert(0 <= m < i + 1 && bus.nodes@[m]@ == I2cNodeView::Unknown(c));
                }
                if pairs.has((t, c)) && !outer.has((t, c)) {
                    assert(0 <= i < i + 1 && bus.nodes@[i as int]@ == I2cNodeView::Unknown(c));
                    let m = choose|m: int|
                        0 <= m < far_parts.items@.len() && (#[trigger] far_parts.items@[m])@ == t;
                    assert(far_parts.has(t));
                }
                if far_parts.has(t) && c != designator@ && (spec_is_resistor(c)
                    || spec_is_transistor(c)) && netlist.connected(c, t) && exists|m: int|
                    0 <= m < i + 1 && (#[trigger] bus.nodes@[m])@ == I2cNodeView::Unknown(c) {
                    let m = choose|m: int|
                        0 <= m < i + 1 && (#[trigger] bus.nodes@[m])@ == I2cNodeView::Unknown(c);
                    if m < i {
                        assert(outer.has((t, c)));
                    } else {
                        let q = choose|q: int|
                            0 <= q < far_parts.items@.len() && #[trigger] far_parts.items@[q]@ == t;
                        assert(pairs.has((t, c)));
                    }
                }
            }
        }
        i = i + 1;
    }
    proof {
        assert forall|t: Seq<char>, c: Seq<char>| #[trigger]
            pairs.has((t, c)) <==> (far_parts.has(t) && may_pair(
                netlist,
                bus@,
                designator@,
                t,
                c,
            )) by {
            let u = I2cNodeView::Unknown(c);
            if exists|m: int| 0 <= m < i && (#[trigger] bus.nodes@[m])@ == u {
                let m = choose|m: int| 0 <= m < i && (#[trigger] bus.nodes@[m])@ == u;
                assert(bus@.nodes[m] == u);
            }
            if bus@.nodes.contains(u) {
                let m = choose|m: int| 0 <= m < bus@.nodes.len() && bus@.nodes[m] == u;
                assert(0 <= m < i && bus.nodes@[m]@ == u);
            }
        }
    }
    pairs
}

/// The first `n` nodes without those that have an unknown role and stand
/// for a part of the link, in order.
pub open spec fn without(nodes: Seq<I2cNodeView>, link: I2cNodeView, n: nat) -> Seq<I2cNodeView>
    decreases n,
{
    if n == 0 {
        Seq::empty()
    } else if unknown_of(nodes[n - 1], link) {
        without(nodes, link, (n - 1) as nat)
    } else {
        without(nodes, link, (n - 1) as nat).push(nodes[n - 1])
    }
}

/// The nodes of a bus that is given a link: the nodes with unknown role
/// that stand for a part of the link are gone, the others keep their order,
/// and the link comes last.
pub open spec fn with_link(nodes: Seq<I2cNodeView>, link: I2cNodeView) -> Seq<I2cNodeView> {
    without(nodes, link, nodes.len()).push(link)
}

/// The bus at position `i` is the first with the name `name`.
pub open spec fn named_at(buses: Seq<I2cBusView>, name: Seq<char>, i: int) -> bool {
    &&& 0 <= i < buses.len()
    &&& buses[i].derived_name == name
    &&& forall|j: int| 0 <= j < i ==> (#[trigger] buses[j]).derived_name != name
}

/// The buses after the first bus named `name` has been given the link;
/// the buses as they are where none has that name.
pub open spec fn given(buses: Seq<I2cBusView>, name: Seq<char>, link: I2cNodeView) -> Seq<
    I2cBusView,
> {
    if exists|i: int| named_at(buses, name, i) {
        let i = choose|i: int| named_at(buses, name, i);
        buses.update(i, I2cBusView { nodes: with_link(buses[i].nodes, link), ..buses[i] })
    } else {
        buses
    }
}

/// The buses after the first `k` changes, each a name with a link for the
/// first bus of that name.
pub open spec fn all_given(
    buses: Seq<I2cBusView>,
    changes: Seq<(Seq<char>, I2cNodeView)>,
    k: nat,
) -> Seq<I2cBusView>
    decreases k,
{
    if k == 0 {
        buses
    } else {
        given(all_given(buses, changes, (k - 1) as nat), changes[k - 1].0, changes[k - 1].1)
    }
}

/// What changes are, in characters.
pub open spec fn changes_view(changes: Seq<(String, I2cNode)>) -> Seq<(Seq<char>, I2cNodeView)> {
    changes.map_values(|c: (String, I2cNode)| (c.0@, c.1@))
}

/// Adds a link to the bus. The nodes with unknown role that stand for a
/// part of the link leave the bus; the others keep their order, and the link
/// comes last.
pub fn apply_change(bus: &mut I2cBus, node: I2cNode)
    requires
        is_link(node@),
    ensures
        bus_rewired(old(bus)@, final(bus)@),
        final(bus)@.nodes == with_link(old(bus)@.nodes, node@),
        final(bus)@.nodes.len() > 0,
        final(bus)@.nodes.last() == node@,
        forall|j: int|
            0 <= j < final(bus)@.nodes.len() - 1 ==> old(bus)@.nodes.contains(
                #[trigger] final(bus)@.nodes[j],
            ),
        forall|j: int|
            0 <= j < final(bus)@.nodes.len() - 1 ==> !unknown_of(
                #[trigger] final(bus)@.nodes[j],
                node@,
            ),
        forall|i: int|
            0 <= i < old(bus)@.nodes.len() && !unknown_of(#[trigger] old(bus)@.nodes[i], node@)
                ==> final(bus)@.nodes.drop_last().contains(old(bus)@.nodes[i]),
{
    let ghost before = bus@.nodes;
    let mut kept: Vec<I2cNode> = Vec::new();
    let mut i: usize = 0;
    assert(nodes_view(kept@) =~= without(before, node@, 0));
    while i < bus.nodes.len()
        invariant
            *bus == *old(bus),
            before == bus@.nodes,
            i <= bus.nodes@.len(),
            nodes_view(kept@) == without(before, node@, i as nat),
            forall|j: int|
                0 <= j < kept@.len() ==> before.contains((#[trigger] kept@[j])@) && !unknown_of(
                    kept@[j]@,
                    node@,
                ),
            forall|m: int|
                0 <= m < i && !unknown_of(#[trigger] before[m], node@) ==> nodes_view(
                    kept@,
                ).contains(before[m]),
        decreases bus.nodes@.len() - i,
    {
        let current = &bus.nodes[i];
        assert(before[i as int] == current@);
        let drop = match current {
            I2cNode::Unknown(d) => node.mentions_part(d),
            _ => false,
        };
        let ghost so_far = nodes_view(kept@);
        if !drop {
            kept.push(current.clone());
            assert(nodes_view(kept@) =~= so_far.push(current@));
        }
        proof {
            assert forall|m: int|
                0 <= m < i + 1 && !unknown_of(#[trigger] before[m], node@) implies nodes_view(
                kept@,
            ).contains(before[m]) by {
                if m < i {
                    let q = choose|q: int| 0 <= q < so_far.len() && so_far[q] == before[m];
                    assert(nodes_view(kept@)[q] == before[m]);
                } else {
                    assert(nodes_view(kept@)[kept@.len() - 1] == before[m]);
                }
            }
        }
        i = i + 1;
    }
    let ghost kept_view = nodes_view(kept@);
    kept.push(node);
    bus.nodes = kept;
    proof {
        let after = bus@.nodes;
        assert(after.drop_last() =~= kept_view);
        assert(after =~= with_link(before, node@));
        assert forall|i: int| 0 <= i < before.len() && !unknown_of(
            #[trigger] before[i],
            node@,
        ) implies after.drop_last().contains(before[i]) by {}
        assert forall|i: int|
            0 <= i < before.len() && !(#[trigger] before[i] is Unknown) implies after.contains(
            before[i],
        ) by {
            let q = choose|q: int| 0 <= q < kept_view.len() && kept_view[q] == before[i];
            assert(after[q] == before[i]);
        }
        assert forall|j: int| 0 <= j < after.len() implies before.contains(#[trigger] after[j])
            || is_link(after[j]) by {
            if j < after.len() - 1 {
                assert(after[j] == kept_view[j]);
            }
        }
        assert forall|j: int| 0 <= j < after.len() - 1 implies !unknown_of(
            #[trigger] after[j],
            node@,
        ) by {
            assert(after[j] == kept_view[j]);
        }
        assert forall|j: int| 0 <= j < after.len() - 1 implies before.contains(
            #[trigger] after[j],
        ) by {
            assert(after[j] == kept_view[j]);
        }
    }
}

/// The node `n` has an unknown role and stands for a part of the link.
pub open spec fn unknown_of(n: I2cNodeView, link: I2cNodeView) -> bool {
    match n {
        I2cNodeView::Unknown(d) => link.mentions(d),
        _ => false,
    }
}

/// A list is a prefix of itself with more appended.
pub proof fn lemma_prefix_of_sum<A>(a: Seq<A>, more: Seq<A>)
    ensures
        a.is_prefix_of(a + more),
{
    assert((a + more).subrange(0, a.len() as int) =~= a);
}

/// A prefix of a prefix is a prefix.
pub proof fn lemma_prefix_transitive<A>(a: Seq<A>, b: Seq<A>, c: Seq<A>)
    requires
        a.is_prefix_of(b),
        b.is_prefix_of(c),
    ensures
        a.is_prefix_of(c),
{
    assert(c.subrange(0, a.len() as int) =~= b.subrange(0, a.len() as int));
}

/// The bus that a link leads to.
pub open spec fn link_target(n: I2cNodeView) -> Seq<char> {
    match n {
        I2cNodeView::Tie { other_side, .. } => other_side,
        I2cNodeView::VoltageTranslatorDiscrete { other_side, .. } => other_side,
        _ => Seq::empty(),
    }
}

/// The link made to lead to the bus `to`.
pub open spec fn turned(n: I2cNodeView, to: Seq<char>) -> I2cNodeView {
    match n {
        I2cNodeView::Tie { scl_tie, sda_tie, .. } => I2cNodeView::Tie {
            scl_tie,
            sda_tie,
            other_side: to,
        },
        I2cNodeView::VoltageTranslatorDiscrete {
            scl_fet,
            sda_fet,
            ..
        } => I2cNodeView::VoltageTranslatorDiscrete { scl_fet, sda_fet, other_side: to },
        _ => n,
    }
}

/// The link is of the kind of the part that it began with: a tie holds a
/// resistor, a discrete voltage translator a transistor.
pub open spec fn sound_link(n: I2cNodeView) -> bool {
    match n {
        I2cNodeView::Tie { scl_tie, sda_tie, .. } => spec_is_resistor(scl_tie) || spec_is_resistor(
            sda_tie,
        ),
        I2cNodeView::VoltageTranslatorDiscrete { scl_fet, sda_fet, .. } => spec_is_transistor(
            scl_fet,
        ) || spec_is_transistor(sda_fet),
        _ => false,
    }
}

/// The two changes record one link: the first gives it to a bus, and the
/// second gives its counterpart to the bus that it leads to.
pub open spec fn is_pair(x: (String, I2cNode), y: (String, I2cNode)) -> bool {
    sound_link(x.1@) && y.0@ == link_target(x.1@) && y.1@ == turned(x.1@, x.0@)
}

/// Every change adds a link.
pub open spec fn all_links(changes: Seq<(String, I2cNode)>) -> bool {
    forall|k: int| 0 <= k < changes.len() ==> is_link((#[trigger] changes[k]).1@)
}

/// The changes come in pairs, each recording one link.
pub open spec fn paired(changes: Seq<(String, I2cNode)>) -> bool {
    changes.len() % 2 == 0 && forall|m: int|
        0 <= m < changes.len() && m % 2 == 0 ==> is_pair(#[trigger] changes[m], changes[m + 1])
}

/// Some bus has the name `name`.
pub open spec fn has_name(buses: Seq<I2cBusView>, name: Seq<char>) -> bool {
    exists|i: int| 0 <= i < buses.len() && (#[trigger] buses[i]).derived_name == name
}

/// Every change is for a bus that there is.
pub open spec fn names_known(changes: Seq<(String, I2cNode)>, buses: Seq<I2cBusView>) -> bool {
    forall|m: int| 0 <= m < changes.len() ==> has_name(buses, (#[trigger] changes[m]).0@)
}

/// Some bus named `name` holds the node `y`.
pub open spec fn holds_link(buses: Seq<I2cBusView>, name: Seq<char>, y: I2cNodeView) -> bool {
    exists|i: int|
        0 <= i < buses.len() && (#[trigger] buses[i]).derived_name == name && buses[i].nodes.contains(
            y,
        )
}

/// Some change gives the node `y` to the bus named `name`.
pub open spec fn recorded(changes: Seq<(String, I2cNode)>, name: Seq<char>, y: I2cNodeView) -> bool {
    exists|m: int| 0 <= m < changes.len() && (#[trigger] changes[m]).0@ == name && changes[m].1@ == y
}

/// The bus at position `i` got the link `y`: it was not there before.
pub open spec fn got_link(before: Seq<I2cBusView>, after: Seq<I2cBusView>, i: int, y: I2cNodeView) -> bool {
    &&& 0 <= i < after.len()
    &&& after[i].nodes.contains(y)
    &&& is_link(y)
    &&& i < before.len() ==> !before[i].nodes.contains(y)
}

/// No node of the list has an unknown role and stands for a part of the link.
pub open spec fn absorbed(nodes: Seq<I2cNodeView>, link: I2cNodeView) -> bool {
    forall|j: int| 0 <= j < nodes.len() ==> !unknown_of(#[trigger] nodes[j], link)
}

/// Every link that a bus got is of the kind of its first part, the bus
/// that it leads to holds its counterpart, and the parts of the link are no
/// longer among the nodes with unknown role.
pub open spec fn links_mirrored(before: Seq<I2cBusView>, after: Seq<I2cBusView>) -> bool {
    forall|i: int, y: I2cNodeView| #[trigger]
        got_link(before, after, i, y) ==> sound_link(y) && absorbed(after[i].nodes, y)
            && holds_link(after, link_target(y), turned(y, after[i].derived_name))
}

/// Every bus is as its two lines make it.
pub open spec fn all_fresh(netlist: &Netlist, buses: Seq<I2cBus>) -> bool {
    forall|k: int| 0 <= k < buses.len() ==> fresh_bus(netlist, (#[trigger] buses[k])@)
}

/// The link between two buses made of the parts `first` and `second`: a
/// tie where they are resistors, a discrete voltage translator where they are
/// transistors.
pub open spec fn link_view(
    resistor: bool,
    first: Seq<char>,
    second: Seq<char>,
    other_side: Seq<char>,
) -> I2cNodeView {
    if resistor {
        I2cNodeView::Tie { scl_tie: first, sda_tie: second, other_side }
    } else {
        I2cNodeView::VoltageTranslatorDiscrete { scl_fet: first, sda_fet: second, other_side }
    }
}

/// One link that the search made: the bus at position `at` had the part
/// `first` as a node of unknown role, `second` is the other half of the link,
/// and the link leads to the bus named `target`. Where that bus was made for
/// the link, `built` is the bus as it was made.
pub struct LinkMade {
    pub at: int,
    pub first: Seq<char>,
    pub second: Seq<char>,
    pub target: Seq<char>,
    pub built: Option<I2cBusView>,
}

/// The link between the bus `bus` and the bus named `other` that the part
/// `d` of `bus` and its other half `c` make. The part on the clock line comes
/// first: that is `d` where it sits on the clock line of `bus`, else `c`.
pub open spec fn link_of(
    netlist: &Netlist,
    bus: I2cBusView,
    d: Seq<char>,
    c: Seq<char>,
    other: Seq<char>,
) -> I2cNodeView {
    if ungated(netlist, d, bus.scl_net) {
        link_view(spec_is_resistor(d), d, c, other)
    } else {
        link_view(spec_is_resistor(d), c, d, other)
    }
}

/// The name of the bus that is made for a link from the bus `bus` to the part `t`.
pub open spec fn adhoc_name(bus: Seq<char>, t: Seq<char>) -> Seq<char> {
    bus + "_to_"@ + t
}

/// The node that the link gives to the bus it began on, with the name of that bus.
pub open spec fn near_change(netlist: &Netlist, buses: Seq<I2cBusView>, e: LinkMade) -> (
    Seq<char>,
    I2cNodeView,
) {
    let bus = buses[e.at];
    (bus.derived_name, link_of(netlist, bus, e.first, e.second, e.target))
}

/// The node that the link gives to the bus it leads to, with the name of that bus.
pub open spec fn far_change(netlist: &Netlist, buses: Seq<I2cBusView>, e: LinkMade) -> (
    Seq<char>,
    I2cNodeView,
) {
    let bus = buses[e.at];
    (e.target, link_of(netlist, bus, e.first, e.second, bus.derived_name))
}

/// The findings that come with a link: those of the bus that was made for
/// it, if one was, and then, for a tie, the finding on the values of its two
/// resistors, the one on the clock lines first.
pub open spec fn link_findings(netlist: &Netlist, buses: Seq<I2cBusView>, e: LinkMade) -> Seq<
    I2cDiagnosticView,
> {
    let bus = buses[e.at];
    let made = match e.built {
        Some(b) => crate::i2c_discovery::fresh_diagnostics(netlist, b),
        None => Seq::empty(),
    };
    let tie = if !spec_is_resistor(e.first) {
        Seq::empty()
    } else if ungated(netlist, e.first, bus.scl_net) {
        tie_diagnostics(netlist, bus.derived_name, e.first, e.target, e.second)
    } else {
        tie_diagnostics(netlist, bus.derived_name, e.second, e.target, e.first)
    };
    made + tie
}

/// The findings of the first `n` links, in order.
pub open spec fn all_link_findings(
    netlist: &Netlist,
    buses: Seq<I2cBusView>,
    links: Seq<LinkMade>,
    n: nat,
) -> Seq<I2cDiagnosticView>
    decreases n,
{
    if n == 0 {
        Seq::empty()
    } else {
        all_link_findings(netlist, buses, links, (n - 1) as nat) + link_findings(
            netlist,
            buses,
            links[n - 1],
        )
    }
}

/// A bus that was made for one of the first `n` links is the bus of that link.
pub proof fn lemma_made_for(links: Seq<LinkMade>, n: nat, z: int)
    requires
        n <= links.len(),
        0 <= z < buses_made(links, n).len(),
    ensures
        exists|j: int| 0 <= j < n && (#[trigger] links[j]).built == Some(buses_made(links, n)[z]),
    decreases n,
{
    if n > 0 {
        let earlier = buses_made(links, (n - 1) as nat);
        if links[n - 1].built is Some && z == earlier.len() {
            assert(links[n - 1].built == Some(buses_made(links, n)[z]));
        } else {
            lemma_made_for(links, (n - 1) as nat, z);
            let j = choose|j: int| 0 <= j < n - 1 && (#[trigger] links[j]).built == Some(earlier[z]);
            assert(links[j].built == Some(buses_made(links, n)[z]));
        }
    }
}

/// The buses that were made for the first `n` links, in order.
pub open spec fn buses_made(links: Seq<LinkMade>, n: nat) -> Seq<I2cBusView>
    decreases n,
{
    if n == 0 {
        Seq::empty()
    } else {
        match links[n - 1].built {
            Some(b) => buses_made(links, (n - 1) as nat).push(b),
            None => buses_made(links, (n - 1) as nat),
        }
    }
}

/// The changes are those of the links, two for each, in order.
pub open spec fn changes_of(
    netlist: &Netlist,
    buses: Seq<I2cBusView>,
    links: Seq<LinkMade>,
    changes: Seq<(String, I2cNode)>,
) -> bool {
    &&& changes.len() == 2 * links.len()
    &&& forall|j: int|
        0 <= j < links.len() ==> (changes[2 * j].0@, changes[2 * j].1@) == near_change(
            netlist,
            buses,
            #[trigger] links[j],
        ) && (changes[2 * j + 1].0@, changes[2 * j + 1].1@) == far_change(netlist, buses, links[j])
}

/// One of the links is made of the part `d`.
pub open spec fn part_of_link(links: Seq<LinkMade>, d: Seq<char>) -> bool {
    exists|j: int| 0 <= j < links.len() && ((#[trigger] links[j]).first == d || links[j].second == d)
}

/// The net at position `k` is the first net of the netlist that leads the
/// part `d` away from its line of the bus.
pub open spec fn far_net_at(netlist: &Netlist, bus: I2cBusView, d: Seq<char>, k: int) -> bool {
    &&& 0 <= k < netlist.nets.keys@.len()
    &&& leads_away(netlist, bus, d, netlist.nets.keys@[k]@)
    &&& forall|j: int| 0 <= j < k ==> !leads_away(netlist, bus, d, (#[trigger] netlist.nets.keys@[j])@)
}

/// The net over which the part `d` may link the bus to another: the first
/// net of the netlist that leads `d` away from its line of the bus.
pub open spec fn far_net(netlist: &Netlist, bus: I2cBusView, d: Seq<char>) -> Option<Seq<char>> {
    if exists|k: int| far_net_at(netlist, bus, d, k) {
        Some(netlist.nets.keys@[choose|k: int| far_net_at(netlist, bus, d, k)]@)
    } else {
        None
    }
}

/// The bus at position `i` is the first, other than the one at `except`,
/// of which `net` is a line.
pub open spec fn line_bus_at(buses: Seq<I2cBusView>, net: Seq<char>, except: int, i: int) -> bool {
    &&& 0 <= i < buses.len()
    &&& has_line(buses[i], net, except, i)
    &&& forall|j: int| 0 <= j < i ==> !has_line(#[trigger] buses[j], net, except, j)
}

/// The position of the first bus, other than the one at `except`, of which
/// `net` is a line.
pub open spec fn line_bus(buses: Seq<I2cBusView>, net: Seq<char>, except: int) -> Option<int> {
    if exists|i: int| line_bus_at(buses, net, except, i) {
        Some(choose|i: int| line_bus_at(buses, net, except, i))
    } else {
        None
    }
}

/// The part `c` is the first of the parts that `pred` accepts and that
/// alone join the nets `from` and `to`: none of them comes before it.
pub open spec fn first_joining<F: Fn(&Designator) -> bool>(
    netlist: &Netlist,
    from: Seq<char>,
    pred: F,
    to: Seq<char>,
    c: Seq<char>,
) -> bool {
    joins(netlist, from, pred, to, c) && forall|x: Seq<char>| #[trigger]
        joins(netlist, from, pred, to, x) ==> not_after(c, x)
}

/// The first of the parts that `pred` accepts and that alone join the nets
/// `from` and `to`, where there is such a part.
pub open spec fn joining<F: Fn(&Designator) -> bool>(
    netlist: &Netlist,
    from: Seq<char>,
    pred: F,
    to: Seq<char>,
) -> Option<Seq<char>> {
    if exists|c: Seq<char>| joins(netlist, from, pred, to, c) {
        Some(choose|c: Seq<char>| first_joining(netlist, from, pred, to, c))
    } else {
        None
    }
}

/// The other half of a link that begins with the part `d`: the first part
/// of the kind of `d`, a resistor or a transistor, that alone joins the nets
/// `from` and `to`.
pub open spec fn partner_of(netlist: &Netlist, d: Seq<char>, from: Seq<char>, to: Seq<char>) -> Option<
    Seq<char>,
> {
    if spec_is_resistor(d) {
        joining(netlist, from, Designator::is_resistor, to)
    } else {
        joining(netlist, from, Designator::is_transistor, to)
    }
}

/// Over the net `o` the part `d` leads to exactly one part `t` beyond the
/// bus, with `c` as the other half of the link.
pub open spec fn only_pair(
    netlist: &Netlist,
    bus: I2cBusView,
    d: Seq<char>,
    o: Seq<char>,
    t: Seq<char>,
    c: Seq<char>,
) -> bool {
    &&& far_pair(netlist, bus, d, o, t, c)
    &&& forall|t2: Seq<char>, c2: Seq<char>| #[trigger]
        far_pair(netlist, bus, d, o, t2, c2) ==> t2 == t && c2 == c
}

/// The one part beyond the bus to which `d` leads over the net `o`, with
/// the other half of the link; none where there is no such part or more than one.
pub open spec fn the_pair(netlist: &Netlist, bus: I2cBusView, d: Seq<char>, o: Seq<char>) -> Option<
    (Seq<char>, Seq<char>),
> {
    if exists|t: Seq<char>, c: Seq<char>| only_pair(netlist, bus, d, o, t, c) {
        Some(choose|pair: (Seq<char>, Seq<char>)| only_pair(netlist, bus, d, o, pair.0, pair.1))
    } else {
        None
    }
}

/// The first net of the netlist, other than `except`, that holds a pin of the part `c`.
pub open spec fn other_net(netlist: &Netlist, c: Seq<char>, except: Seq<char>) -> Option<Seq<char>> {
    if exists|k: int| first_other_net_at(netlist, c, except, k) {
        Some(netlist.nets.keys@[choose|k: int| first_other_net_at(netlist, c, except, k)]@)
    } else {
        None
    }
}

/// What is decided for a part that may begin a link: the other half of the
/// link, and the bus that the link leads to. That is the bus at position
/// `other`, or, where `other` is none, a bus that is to be made under the name
/// `name` of the lines `scl_net` and `sda_net`.
pub struct Plan {
    pub second: Seq<char>,
    pub other: Option<int>,
    pub name: Seq<char>,
    pub scl_net: Seq<char>,
    pub sda_net: Seq<char>,
}

/// The plan for a part `d` whose far net is a line of the bus at position
/// `i`: the other half of the link is the first part of the kind of `d` that
/// joins the other line of that bus to the other line of this one.
pub open spec fn plan_known(
    netlist: &Netlist,
    buses: Seq<I2cBusView>,
    at: int,
    d: Seq<char>,
    i: int,
) -> Option<Plan> {
    match partner_of(
        netlist,
        d,
        other_line(netlist, buses[at], d, buses[i]),
        opposite_net(netlist, buses[at], d),
    ) {
        Some(c) => Some(
            Plan {
                second: c,
                other: Some(i),
                name: buses[i].derived_name,
                scl_net: buses[i].scl_net,
                sda_net: buses[i].sda_net,
            },
        ),
        None => None,
    }
}

/// The plan for a part `d` whose far net `o` is no line of a bus: where `d`
/// leads over `o` to exactly one part `t`, with `c` as the other half, and `c`
/// has a net other than the other line of the bus, a bus is to be made of `o`
/// and the first such net of `c`, under the name of this bus, `_to_` and `t`.
/// The clock line of the new bus is the one that continues the clock line of
/// this bus.
pub open spec fn plan_beyond(netlist: &Netlist, bus: I2cBusView, d: Seq<char>, o: Seq<char>) -> Option<
    Plan,
> {
    match the_pair(netlist, bus, d, o) {
        Some(pair) => match other_net(netlist, pair.1, opposite_net(netlist, bus, d)) {
            Some(far) => Some(
                Plan {
                    second: pair.1,
                    other: None,
                    name: adhoc_name(bus.derived_name, pair.0),
                    scl_net: if ungated(netlist, d, bus.scl_net) {
                        o
                    } else {
                        far
                    },
                    sda_net: if ungated(netlist, d, bus.scl_net) {
                        far
                    } else {
                        o
                    },
                },
            ),
            None => None,
        },
        None => None,
    }
}

/// The plan for the part `d` of the bus at position `at`, a resistor or a
/// transistor: none where no net leads it away from its line or where the
/// other half of a link is not found.
pub open spec fn link_plan(netlist: &Netlist, buses: Seq<I2cBusView>, at: int, d: Seq<char>) -> Option<
    Plan,
> {
    match far_net(netlist, buses[at], d) {
        Some(o) => match line_bus(buses, o, at) {
            Some(i) => plan_known(netlist, buses, at, d, i),
            None => plan_beyond(netlist, buses[at], d, o),
        },
        None => None,
    }
}

/// The link that the part `d` of the bus at position `at` begins, if it
/// begins one. A bus that is made for the link is the bus of its two lines.
pub open spec fn link_for(netlist: &Netlist, buses: Seq<I2cBusView>, at: int, d: Seq<char>) -> Option<
    LinkMade,
> {
    match link_plan(netlist, buses, at, d) {
        Some(p) => Some(
            LinkMade {
                at,
                first: d,
                second: p.second,
                target: p.name,
                built: if p.other is None {
                    Some(bus_of(netlist, p.name, p.scl_net, p.sda_net))
                } else {
                    None
                },
            },
        ),
        None => None,
    }
}

/// The links after one more node: the node at position `m` of the bus at
/// position `at` begins a link where it is a resistor or a transistor of
/// unknown role of which no earlier link is made, and where a link is found for it.
pub open spec fn step_links(
    netlist: &Netlist,
    buses: Seq<I2cBusView>,
    before: Seq<LinkMade>,
    at: int,
    m: int,
) -> Seq<LinkMade> {
    if 0 <= at < buses.len() && 0 <= m < buses[at].nodes.len() {
        match buses[at].nodes[m] {
            I2cNodeView::Unknown(d) => if !part_of_link(before, d) && (spec_is_resistor(d)
                || spec_is_transistor(d)) {
                match link_for(netlist, buses, at, d) {
                    Some(e) => before.push(e),
                    None => before,
                }
            } else {
                before
            },
            _ => before,
        }
    } else {
        before
    }
}

/// The links that are made while the buses before position `at`, and the
/// first `n` nodes of the bus at that position, are gone through in order.
pub open spec fn links_upto(netlist: &Netlist, buses: Seq<I2cBusView>, at: nat, n: nat) -> Seq<
    LinkMade,
>
    decreases at, n,
{
    if n > 0 {
        step_links(netlist, buses, links_upto(netlist, buses, at, (n - 1) as nat), at as int, n - 1)
    } else if at > 0 && at <= buses.len() {
        links_upto(netlist, buses, (at - 1) as nat, buses[at - 1].nodes.len())
    } else {
        Seq::empty()
    }
}

/// The links between the buses, in the order in which they are made.
pub open spec fn links_of(netlist: &Netlist, buses: Seq<I2cBusView>) -> Seq<LinkMade> {
    links_upto(netlist, buses, buses.len(), 0)
}

/// What one step of the search leaves behind. Where no link was made,
/// nothing has changed. Where the link `e` was made, the bus that was made for
/// it, if one was, comes last among the buses made; the two changes that
/// record it come last among the changes; and its findings come last among the
/// findings.
pub open spec fn step_outcome(
    netlist: &Netlist,
    buses: Seq<I2cBusView>,
    made: Option<LinkMade>,
    changes_before: Seq<(String, I2cNode)>,
    changes_after: Seq<(String, I2cNode)>,
    created_before: Seq<I2cBus>,
    created_after: Seq<I2cBus>,
    findings_before: Seq<I2cDiagnosticView>,
    findings_after: Seq<I2cDiagnosticView>,
) -> bool {
    match made {
        None => changes_after == changes_before && created_after == created_before
            && findings_after == findings_before,
        Some(e) => {
            &&& match e.built {
                None => created_after == created_before,
                Some(b) => created_after.len() == created_before.len() + 1 && created_after.last()@
                    == b,
            }
            &&& changes_after.len() == changes_before.len() + 2
            &&& forall|m: int| 0 <= m < changes_before.len() ==> changes_after[m] == changes_before[m]
            &&& (
                changes_after[changes_before.len() as int].0@,
                changes_after[changes_before.len() as int].1@,
            ) == near_change(netlist, buses, e)
            &&& (
                changes_after[(changes_before.len() + 1) as int].0@,
                changes_after[(changes_before.len() + 1) as int].1@,
            ) == far_change(netlist, buses, e)
            &&& findings_after == findings_before + link_findings(netlist, buses, e)
        },
    }
}

/// Makes the link between two buses.
pub fn make_link(resistor: bool, first: &Designator, second: &Designator, other_side: &str) -> (r:
    I2cNode)
    ensures
        r@ == link_view(resistor, first@, second@, other_side@),
        is_link(r@),
{
    if resistor {
        I2cNode::Tie {
            scl_tie: first.clone(),
            sda_tie: second.clone(),
            other_side: String::from_str(other_side),
        }
    } else {
        I2cNode::VoltageTranslatorDiscrete {
            scl_fet: first.clone(),
            sda_fet: second.clone(),
            other_side: String::from_str(other_side),
        }
    }
}

/// Records the link between two buses, once for each of them.
fn record_link(
    changes: &mut Vec<(String, I2cNode)>,
    resistor: bool,
    scl_part: &Designator,
    sda_part: &Designator,
    bus: &str,
    other: &str,
    Ghost(buses): Ghost<Seq<I2cBusView>>,
)
    requires
        paired(old(changes)@),
        names_known(old(changes)@, buses),
        has_name(buses, bus@),
        has_name(buses, other@),
        resistor ==> spec_is_resistor(scl_part@) || spec_is_resistor(sda_part@),
        !resistor ==> spec_is_transistor(scl_part@) || spec_is_transistor(sda_part@),
    ensures
        paired(final(changes)@),
        names_known(final(changes)@, buses),
        mentioned_in(final(changes)@, scl_part@),
        mentioned_in(final(changes)@, sda_part@),
        forall|x: Seq<char>| mentioned_in(old(changes)@, x) ==> mentioned_in(final(changes)@, x),
        final(changes)@.len() == old(changes)@.len() + 2,
        forall|m: int| 0 <= m < old(changes)@.len() ==> final(changes)@[m] == old(changes)@[m],
        final(changes)@[old(changes)@.len() as int].0@ == bus@,
        final(changes)@[old(changes)@.len() as int].1@ == link_view(
            resistor,
            scl_part@,
            sda_part@,
            other@,
        ),
        final(changes)@[(old(changes)@.len() + 1) as int].0@ == other@,
        final(changes)@[(old(changes)@.len() + 1) as int].1@ == link_view(
            resistor,
            scl_part@,
            sda_part@,
            bus@,
        ),
{
    let ghost before = changes@;
    changes.push((String::from_str(bus), make_link(resistor, scl_part, sda_part, other)));
    changes.push((String::from_str(other), make_link(resistor, scl_part, sda_part, bus)));
    proof {
        let n = before.len() as int;
        assert forall|m: int| 0 <= m < changes@.len() && m % 2 == 0 implies is_pair(
            #[trigger] changes@[m],
            changes@[m + 1],
        ) by {
            if m < n {
                assert(changes@[m] == before[m] && changes@[m + 1] == before[m + 1]);
            }
        }
        assert forall|m: int| 0 <= m < changes@.len() implies has_name(
            buses,
            (#[trigger] changes@[m]).0@,
        ) by {
            if m < n {
                assert(changes@[m] == before[m]);
            }
        }
        assert(changes@[n].1@.mentions(scl_part@));
        assert(changes@[n].1@.mentions(sda_part@));
        assert forall|x: Seq<char>| mentioned_in(before, x) implies mentioned_in(changes@, x) by {
            let m = choose|m: int| 0 <= m < before.len() && (#[trigger] before[m]).1@.mentions(x);
            assert(changes@[m] == before[m]);
        }
    }
}

/// The position of the first bus with the given name.
fn bus_named(buses: &Vec<I2cBus>, name: &String) -> (r: Option<usize>)
    ensures
        match r {
            Some(i) => i < buses@.len() && buses@[i as int].derived_name@ == name@ && forall|j: int|
                0 <= j < i ==> buses@[j].derived_name@ != name@,
            None => forall|i: int| 0 <= i < buses@.len() ==> buses@[i].derived_name@ != name@,
        },
{
    let mut i: usize = 0;
    while i < buses.len()
        invariant
            i <= buses@.len(),
            forall|j: int| 0 <= j < i ==> buses@[j].derived_name@ != name@,
        decreases buses@.len() - i,
    {
        if buses[i].derived_name.same(name) {
            return Some(i);
        }
        i = i + 1;
    }
    None
}

/// Changes that are for buses that there are stay so when more buses come.
proof fn lemma_wider_names(
    changes: Seq<(String, I2cNode)>,
    buses: Seq<I2cBus>,
    fewer: Seq<I2cBus>,
    more: Seq<I2cBus>,
)
    requires
        names_known(changes, buses_view(buses + fewer)),
        fewer.is_prefix_of(more),
    ensures
        names_known(changes, buses_view(buses + more)),
{
    assert forall|m: int| 0 <= m < changes.len() implies has_name(
        buses_view(buses + more),
        (#[trigger] changes[m]).0@,
    ) by {
        let narrow = buses_view(buses + fewer);
        let i = choose|i: int|
            0 <= i < narrow.len() && (#[trigger] narrow[i]).derived_name == changes[m].0@;
        assert(fewer == more.subrange(0, fewer.len() as int));
        if i >= buses.len() {
            assert(fewer[i - buses.len()] == more.subrange(0, fewer.len() as int)[i - buses.len()]);
        }
        assert(buses_view(buses + more)[i] == narrow[i]);
    }
}

/// What the first `n` links give does not change when a link is added.
proof fn lemma_links_prefix(
    netlist: &Netlist,
    buses: Seq<I2cBusView>,
    links: Seq<LinkMade>,
    e: LinkMade,
    n: nat,
)
    requires
        n <= links.len(),
    ensures
        all_link_findings(netlist, buses, links.push(e), n) == all_link_findings(
            netlist,
            buses,
            links,
            n,
        ),
        buses_made(links.push(e), n) == buses_made(links, n),
    decreases n,
{
    if n > 0 {
        lemma_links_prefix(netlist, buses, links, e, (n - 1) as nat);
        assert(links.push(e)[n - 1] == links[n - 1]);
    }
}

/// What is decided for a part that may begin a link.
pub struct Decision {
    pub second: Designator,
    pub other: Option<usize>,
    pub name: String,
    pub scl_net: NetName,
    pub sda_net: NetName,
    pub on_clock_line: bool,
}

impl View for Decision {
    type V = Plan;

    open spec fn view(&self) -> Plan {
        Plan {
            second: self.second@,
            other: match self.other {
                Some(i) => Some(i as int),
                None => None,
            },
            name: self.name@,
            scl_net: self.scl_net@,
            sda_net: self.sda_net@,
        }
    }
}

/// What a decision is, in characters.
pub open spec fn decision_view(r: Option<Decision>) -> Option<Plan> {
    match r {
        Some(x) => Some(x@),
        None => None,
    }
}

/// The nets of a part, without those that it reaches through a gate pin only.
fn ungated_nets(netlist: &Netlist, designator: &Designator) -> (nets: Vec<NetName>)
    requires
        netlist.wf(),
    ensures
        forall|o: Seq<char>| seq_has(nets@, o) <==> #[trigger] ungated(netlist, designator@, o),
{
    let ghost d = designator@;
    let gate = PinName(String::from_str("G"));
    let gate_long = PinName(String::from_str("GATE"));
    let mut exclude: Vec<&PinName> = Vec::new();
    exclude.push(&gate);
    exclude.push(&gate_long);
    let nets = netlist.part_nets_exclude_pin_names(designator, exclude.as_slice());
    proof {
        assert forall|name: Seq<char>| has_pin_name(exclude@, name) <==> is_gate(name) by {
            if is_gate(name) {
                if name == "G"@ {
                    assert(exclude@[0]@ == name);
                } else {
                    assert(exclude@[1]@ == name);
                }
            }
        }
        assert forall|o: Seq<char>| seq_has(nets@, o) <==> #[trigger] ungated(netlist, d, o) by {
            if seq_has(nets@, o) {
                let j = choose|j: int| netlist.named_pin_on_net(o, j, d, exclude@);
                assert(netlist.pin_name_on_net(o, j, d) is Some);
            }
            if ungated(netlist, d, o) {
                let j = choose|j: int|
                    (#[trigger] netlist.pin_name_on_net(o, j, d)) matches Some(name) && !is_gate(
                        name,
                    );
                assert(netlist.named_pin_on_net(o, j, d, exclude@));
            }
        }
    }
    nets
}

/// Tells whether the part sits on the clock line of the bus, and finds the
/// first net of the netlist that leads it away from its line.
fn find_far_net(netlist: &Netlist, bus: &I2cBus, designator: &Designator) -> (r: (bool, Option<usize>))
    requires
        netlist.wf(),
    ensures
        r.0 == ungated(netlist, designator@, bus@.scl_net),
        match r.1 {
            Some(k) => far_net_at(netlist, bus@, designator@, k as int) && far_net(
                netlist,
                bus@,
                designator@,
            ) == Some(netlist.nets.keys@[k as int]@),
            None => far_net(netlist, bus@, designator@) is None,
        },
{
    let ghost d = designator@;
    let nets = ungated_nets(netlist, designator);
    let on_clock_line = crate::collections::position(&nets, &bus.scl_net).is_some();
    assert(on_clock_line == ungated(netlist, d, bus@.scl_net));
    let mut k: usize = 0;
    while k < netlist.nets.len()
        invariant
            netlist.wf(),
            k <= netlist.nets.keys@.len(),
            d == designator@,
            on_clock_line == ungated(netlist, d, bus@.scl_net),
            forall|o: Seq<char>| seq_has(nets@, o) <==> #[trigger] ungated(netlist, d, o),
            forall|j: int| 0 <= j < k ==> !leads_away(netlist, bus@, d, (#[trigger] netlist.nets.keys@[j])@),
        decreases netlist.nets.keys@.len() - k,
    {
        let name = netlist.nets.key_at(k);
        let near = if on_clock_line {
            &bus.scl_net
        } else {
            &bus.sda_net
        };
        assert(near@ == near_net(netlist, bus@, d));
        if crate::collections::position(&nets, name).is_some() && !name.same(near) {
            proof {
                assert(far_net_at(netlist, bus@, d, k as int));
                let c = choose|c: int| far_net_at(netlist, bus@, d, c);
                assert(c == k);
            }
            return (on_clock_line, Some(k));
        }
        k = k + 1;
    }
    (on_clock_line, None)
}

/// Finds the first other bus of which `net` is a line.
pub fn bus_of_line(buses: &Vec<I2cBus>, net: &NetName, except: usize) -> (r: Option<usize>)
    ensures
        match r {
            Some(i) => i < buses@.len() && line_bus(buses_view(buses@), net@, except as int) == Some(
                i as int,
            ),
            None => line_bus(buses_view(buses@), net@, except as int) is None,
        },
{
    let ghost views = buses_view(buses@);
    let mut i: usize = 0;
    while i < buses.len()
        invariant
            i <= buses@.len(),
            views == buses_view(buses@),
            forall|j: int| 0 <= j < i ==> !has_line(#[trigger] views[j], net@, except as int, j),
        decreases buses@.len() - i,
    {
        assert(views[i as int] == buses@[i as int]@);
        if i != except && (buses[i].scl_net.same(net) || buses[i].sda_net.same(net)) {
            proof {
                assert(line_bus_at(views, net@, except as int, i as int));
                let c = choose|c: int| line_bus_at(views, net@, except as int, c);
                assert(c == i);
            }
            return Some(i);
        }
        i = i + 1;
    }
    None
}

/// Finds the first of the parts that `pred` accepts and that alone join two nets.
pub fn least_between<F: Fn(&Designator) -> bool>(
    netlist: &Netlist,
    from: &NetName,
    pred: F,
    to: &NetName,
) -> (r: Option<Designator>)
    requires
        netlist.wf(),
        pure_predicate(pred),
    ensures
        match r {
            Some(c) => joining(netlist, from@, pred, to@) == Some(c@),
            None => joining(netlist, from@, pred, to@) is None,
        },
{
    let chains = netlist.chains_through_one(from, pred, to);
    if chains.len() == 0 {
        proof {
            assert forall|d: Seq<char>| !joins(netlist, from@, pred, to@, d) by {
                if joins(netlist, from@, pred, to@, d) {
                    let p = choose|p: Seq<char>| #[trigger]
                        netlist.is_chain(from@, one(pred), to@, chain_of_one(p, d));
                    assert(has_chain(chains@, chain_of_one(p, d)));
                }
            }
        }
        return None;
    }
    let mut best: usize = 0;
    let mut k: usize = 1;
    while k < chains.len()
        invariant
            1 <= k <= chains@.len(),
            best < k,
            forall|j: int| 0 <= j < chains@.len() ==> (#[trigger] chains@[j])@.len() == 1,
            forall|j: int|
                0 <= j < k ==> not_after(chains@[best as int]@[0].1@, (#[trigger] chains@[j])@[0].1@),
        decreases chains@.len() - k,
    {
        let ghost was = chains@[best as int]@[0].1@;
        let ghost now = chains@[k as int]@[0].1@;
        proof {
            lemma_one_comes_first(now, was);
        }
        if text_before(chains[k][0].1.0.as_str(), chains[best][0].1.0.as_str()) {
            proof {
                assert forall|j: int| 0 <= j < k + 1 implies not_after(
                    now,
                    (#[trigger] chains@[j])@[0].1@,
                ) by {
                    if j < k {
                        lemma_not_after_chain(now, was, chains@[j]@[0].1@);
                    }
                }
            }
            best = k;
        }
        k = k + 1;
    }
    let part = chains[best][0].1.clone();
    proof {
        let cv = chain_view(chains@[best as int]@);
        assert(netlist.is_chain(from@, one(pred), to@, cv));
        assert(cv[0] == chains@[best as int]@[0]@);
        assert(cv =~= chain_of_one(cv[0].0, part@));
        assert(joins(netlist, from@, pred, to@, part@));
        assert forall|x: Seq<char>| #[trigger] joins(netlist, from@, pred, to@, x) implies not_after(
            part@,
            x,
        ) by {
            let p = choose|p: Seq<char>| #[trigger]
                netlist.is_chain(from@, one(pred), to@, chain_of_one(p, x));
            assert(has_chain(chains@, chain_of_one(p, x)));
            let j = choose|j: int|
                0 <= j < chains@.len() && chain_view((#[trigger] chains@[j])@) == chain_of_one(p, x);
            assert(chain_view(chains@[j]@)[0] == chains@[j]@[0]@);
        }
        assert(first_joining(netlist, from@, pred, to@, part@));
        let c = choose|c: Seq<char>| first_joining(netlist, from@, pred, to@, c);
        lemma_same_place(c, part@);
    }
    Some(part)
}

/// Decides on a link for a part whose far net is a line of another bus.
fn decide_known(
    netlist: &Netlist,
    buses: &Vec<I2cBus>,
    at: usize,
    designator: &Designator,
    on_clock_line: bool,
    other_at: usize,
) -> (r: Option<Decision>)
    requires
        netlist.wf(),
        at < buses@.len(),
        other_at < buses@.len(),
        on_clock_line == ungated(netlist, designator@, buses@[at as int]@.scl_net),
    ensures
        decision_view(r) == plan_known(
            netlist,
            buses_view(buses@),
            at as int,
            designator@,
            other_at as int,
        ),
        r matches Some(x) ==> x.other == Some(other_at) && x.on_clock_line == on_clock_line,
{
    let bus = &buses[at];
    let other_bus = &buses[other_at];
    proof {
        assert(buses_view(buses@)[at as int] == buses@[at as int]@);
        assert(buses_view(buses@)[other_at as int] == buses@[other_at as int]@);
        lemma_designator_predicates_pure();
    }
    let complementary_net = if on_clock_line {
        &bus.sda_net
    } else {
        &bus.scl_net
    };
    let other_complementary_net = if on_clock_line {
        &other_bus.sda_net
    } else {
        &other_bus.scl_net
    };
    let second = if designator.is_resistor() {
        least_between(netlist, other_complementary_net, Designator::is_resistor, complementary_net)
    } else {
        least_between(netlist, other_complementary_net, Designator::is_transistor, complementary_net)
    };
    match second {
        Some(c) => Some(
            Decision {
                second: c,
                other: Some(other_at),
                name: other_bus.derived_name.clone(),
                scl_net: other_bus.scl_net.clone(),
                sda_net: other_bus.sda_net.clone(),
                on_clock_line,
            },
        ),
        None => None,
    }
}

/// Decides on a link for a part whose far net is no line of a bus.
fn decide_beyond(
    netlist: &Netlist,
    bus: &I2cBus,
    designator: &Designator,
    on_clock_line: bool,
    other_side: &NetName,
) -> (r: Option<Decision>)
    requires
        netlist.wf(),
        on_clock_line == ungated(netlist, designator@, bus@.scl_net),
    ensures
        decision_view(r) == plan_beyond(netlist, bus@, designator@, other_side@),
        r matches Some(x) ==> x.other is None && x.on_clock_line == on_clock_line,
{
    let ghost d = designator@;
    let ghost here = bus@;
    let ghost o = other_side@;
    let mut far_nets: Vec<&NetName> = Vec::new();
    far_nets.push(other_side);
    let mut far_parts = netlist.any_net_parts(far_nets.as_slice());
    far_parts.remove(designator);
    let targets = adhoc_targets(netlist, bus, designator, &far_parts);
    proof {
        assert forall|t: Seq<char>| far_parts.has(t) <==> (netlist.on_net(o, t) && t != d) by {
            if netlist.on_net(o, t) {
                assert(netlist.on_net(far_nets@[0]@, t));
            }
        }
        assert forall|t: Seq<char>, c: Seq<char>| #[trigger]
            targets.has((t, c)) <==> far_pair(netlist, here, d, o, t, c) by {}
    }
    if targets.len() != 1 {
        proof {
            if exists|t: Seq<char>, c: Seq<char>| only_pair(netlist, here, d, o, t, c) {
                let (t, c) = choose|t: Seq<char>, c: Seq<char>| only_pair(netlist, here, d, o, t, c);
                assert(targets.has((t, c)));
                if targets.items@.len() >= 2 {
                    let x = targets.items@[0]@;
                    let y = targets.items@[1]@;
                    assert(targets.has((x.0, x.1)) && targets.has((y.0, y.1)));
                    assert(far_pair(netlist, here, d, o, x.0, x.1));
                    assert(far_pair(netlist, here, d, o, y.0, y.1));
                }
            }
        }
        return None;
    }
    let target = &targets.items[0].0;
    let second = &targets.items[0].1;
    proof {
        let pair = targets.items@[0]@;
        assert(targets.has((pair.0, pair.1)));
        assert(far_pair(netlist, here, d, o, pair.0, pair.1));
        assert forall|t2: Seq<char>, c2: Seq<char>| #[trigger]
            far_pair(netlist, here, d, o, t2, c2) implies t2 == pair.0 && c2 == pair.1 by {
            assert(targets.has((t2, c2)));
        }
        assert(only_pair(netlist, here, d, o, pair.0, pair.1));
        let chosen = choose|chosen: (Seq<char>, Seq<char>)|
            only_pair(netlist, here, d, o, chosen.0, chosen.1);
        assert(far_pair(netlist, here, d, o, chosen.0, chosen.1));
        assert(chosen.0 == pair.0 && chosen.1 == pair.1);
        assert(the_pair(netlist, here, d, o) == Some((target@, second@)));
    }
    let complementary_net = if on_clock_line {
        &bus.sda_net
    } else {
        &bus.scl_net
    };
    let Some(k) = first_other_net(netlist, second, complementary_net) else {
        return None;
    };
    proof {
        let c = choose|c: int| first_other_net_at(netlist, second@, complementary_net@, c);
        assert(c == k);
    }
    let far = netlist.nets.key_at(k).clone();
    let name = bus.derived_name.clone().concat("_to_").concat(target.0.as_str());
    let (scl_net, sda_net) = if on_clock_line {
        (other_side.clone(), far)
    } else {
        (far, other_side.clone())
    };
    Some(Decision { second: second.clone(), other: None, name, scl_net, sda_net, on_clock_line })
}

/// Decides whether a part of a bus, a resistor or a transistor whose role
/// is unknown, begins a link, and with what.
///
/// The part leads from one line of the bus to another net. Where that net is
/// a line of another bus and a part of the same kind joins the two other
/// lines, the two parts link the two buses. Where it is no line of a bus, and
/// exactly one other unknown resistor or transistor of the bus leads to a part
/// on that net, a bus is to be made of the two far nets and linked to this one.
fn decide(netlist: &Netlist, buses: &Vec<I2cBus>, at: usize, designator: &Designator) -> (r: Option<
    Decision,
>)
    requires
        netlist.wf(),
        at < buses@.len(),
    ensures
        decision_view(r) == link_plan(netlist, buses_view(buses@), at as int, designator@),
        r matches Some(x) ==> x.on_clock_line == ungated(
            netlist,
            designator@,
            buses@[at as int]@.scl_net,
        ) && (x.other matches Some(i) ==> i < buses@.len()),
{
    assert(buses_view(buses@)[at as int] == buses@[at as int]@);
    let (on_clock_line, far) = find_far_net(netlist, &buses[at], designator);
    let Some(k) = far else {
        return None;
    };
    let other_side = netlist.nets.key_at(k);
    match bus_of_line(buses, other_side, at) {
        Some(i) => decide_known(netlist, buses, at, designator, on_clock_line, i),
        None => decide_beyond(netlist, &buses[at], designator, on_clock_line, other_side),
    }
}

/// Makes the link that is decided for a part of a bus, if one is: records
/// it for both buses, makes the bus that it leads to where that is to be made,
/// and checks the resistance of a tie.
fn interconnect(
    netlist: &Netlist,
    buses: &Vec<I2cBus>,
    at: usize,
    designator: &Designator,
    changes: &mut Vec<(String, I2cNode)>,
    created: &mut Vec<I2cBus>,
    diagnostics: &mut Vec<I2cDiagnostic>,
) -> (made: Ghost<Option<LinkMade>>)
    requires
        netlist.wf(),
        at < buses@.len(),
        spec_is_resistor(designator@) || spec_is_transistor(designator@),
        paired(old(changes)@),
        names_known(old(changes)@, buses_view(buses@ + old(created)@)),
        all_fresh(netlist, old(created)@),
    ensures
        paired(final(changes)@),
        names_known(final(changes)@, buses_view(buses@ + final(created)@)),
        old(created)@.is_prefix_of(final(created)@),
        all_fresh(netlist, final(created)@),
        made@ == link_for(netlist, buses_view(buses@), at as int, designator@),
        step_outcome(
            netlist,
            buses_view(buses@),
            made@,
            old(changes)@,
            final(changes)@,
            old(created)@,
            final(created)@,
            diagnostics_view(old(diagnostics)@),
            diagnostics_view(final(diagnostics)@),
        ),
{
    let ghost before = diagnostics_view(diagnostics@);
    let ghost views = buses_view(buses@);
    let ghost known = buses_view(buses@ + created@);
    let ghost d = designator@;
    let ghost here = buses@[at as int]@;
    proof {
        assert(views[at as int] == here);
        assert(known[at as int] == here);
        assert(has_name(known, here.derived_name));
    }
    let Some(plan) = decide(netlist, buses, at, designator) else {
        return Ghost(None);
    };
    let bus = &buses[at];
    let resistor = designator.is_resistor();
    let (scl_part, sda_part) = if plan.on_clock_line {
        (designator, &plan.second)
    } else {
        (&plan.second, designator)
    };
    match plan.other {
        Some(other_at) => {
            let ghost e = LinkMade {
                at: at as int,
                first: d,
                second: plan.second@,
                target: plan.name@,
                built: None,
            };
            proof {
                assert(views[other_at as int] == buses@[other_at as int]@);
                assert(known[other_at as int] == buses@[other_at as int]@);
                assert(has_name(known, plan.name@));
            }
            record_link(
                changes,
                resistor,
                scl_part,
                sda_part,
                bus.derived_name.as_str(),
                plan.name.as_str(),
                Ghost(known),
            );
            if resistor {
                check_tie_resistance(
                    netlist,
                    diagnostics,
                    bus.derived_name.as_str(),
                    scl_part,
                    plan.name.as_str(),
                    sda_part,
                );
            }
            proof {
                assert(diagnostics_view(diagnostics@) =~= before + link_findings(netlist, views, e));
            }
            Ghost(Some(e))
        },
        None => {
            let adhoc = build_bus(
                netlist,
                diagnostics,
                plan.name.clone(),
                plan.scl_net.clone(),
                plan.sda_net.clone(),
            );
            let ghost made_bus = adhoc@;
            let ghost earlier = created@;
            created.push(adhoc);
            let ghost wider = buses_view(buses@ + created@);
            proof {
                assert forall|k: int| 0 <= k < created@.len() implies fresh_bus(
                    netlist,
                    (#[trigger] created@[k])@,
                ) by {
                    if k < earlier.len() {
                        assert(created@[k] == earlier[k]);
                    }
                }
                assert(earlier.is_prefix_of(created@)) by {
                    assert(created@.subrange(0, earlier.len() as int) =~= earlier);
                }
                lemma_wider_names(changes@, buses@, earlier, created@);
                assert(wider[at as int] == buses@[at as int]@);
                assert(has_name(wider, bus.derived_name@));
                let z = (buses@.len() + earlier.len()) as int;
                assert(wider[z] == made_bus);
                assert(has_name(wider, plan.name@));
            }
            if resistor {
                check_tie_resistance(
                    netlist,
                    diagnostics,
                    bus.derived_name.as_str(),
                    scl_part,
                    plan.name.as_str(),
                    sda_part,
                );
            }
            record_link(
                changes,
                resistor,
                scl_part,
                sda_part,
                bus.derived_name.as_str(),
                plan.name.as_str(),
                Ghost(wider),
            );
            let ghost e = LinkMade {
                at: at as int,
                first: d,
                second: plan.second@,
                target: plan.name@,
                built: Some(made_bus),
            };
            proof {
                assert(diagnostics_view(diagnostics@) =~= before + link_findings(netlist, views, e));
            }
            Ghost(Some(e))
        },
    }
}

/// A change adds a node made of a part exactly where one of the links is
/// made of that part.
proof fn lemma_mentions(
    netlist: &Netlist,
    buses: Seq<I2cBusView>,
    links: Seq<LinkMade>,
    changes: Seq<(String, I2cNode)>,
    x: Seq<char>,
)
    requires
        changes_of(netlist, buses, links, changes),
    ensures
        mentioned_in(changes, x) == part_of_link(links, x),
{
    if mentioned_in(changes, x) {
        let m = choose|m: int| 0 <= m < changes.len() && (#[trigger] changes[m]).1@.mentions(x);
        let j = m / 2;
        assert(0 <= j < links.len());
        if m % 2 == 0 {
            assert(m == 2 * j);
            assert(changes[m].1@ == near_change(netlist, buses, links[j]).1);
        } else {
            assert(m == 2 * j + 1);
            assert(changes[m].1@ == far_change(netlist, buses, links[j]).1);
        }
        assert(links[j].first == x || links[j].second == x);
    }
    if part_of_link(links, x) {
        let j = choose|j: int|
            0 <= j < links.len() && ((#[trigger] links[j]).first == x || links[j].second == x);
        assert(changes[2 * j].1@ == near_change(netlist, buses, links[j]).1);
        assert(changes[2 * j].1@.mentions(x));
    }
}

/// Looks through the buses for interconnects. Every resistor or
/// transistor of a bus whose role is unknown may begin one, unless a link
/// found before is made of it. The links come back as changes, two for each
/// link, and with them the buses that were made along the way.
fn find_interconnects(
    netlist: &Netlist,
    buses: &Vec<I2cBus>,
    diagnostics: &mut Vec<I2cDiagnostic>,
) -> (r: (Vec<(String, I2cNode)>, Vec<I2cBus>, Ghost<Seq<LinkMade>>))
    requires
        netlist.wf(),
    ensures
        paired(r.0@),
        names_known(r.0@, buses_view(buses@ + r.1@)),
        all_fresh(netlist, r.1@),
        r.2@ == links_of(netlist, buses_view(buses@)),
        changes_of(netlist, buses_view(buses@), r.2@, r.0@),
        buses_view(r.1@) == buses_made(r.2@, r.2@.len()),
        diagnostics_view(final(diagnostics)@) == diagnostics_view(old(diagnostics)@)
            + all_link_findings(netlist, buses_view(buses@), r.2@, r.2@.len()),
{
    let ghost before = diagnostics_view(diagnostics@);
    let ghost views = buses_view(buses@);
    let mut changes: Vec<(String, I2cNode)> = Vec::new();
    let mut created: Vec<I2cBus> = Vec::new();
    let ghost mut links: Seq<LinkMade> = Seq::empty();
    proof {
        assert(before + Seq::empty() =~= before);
        assert(buses_view(created@) =~= buses_made(links, 0));
    }
    let mut at: usize = 0;
    while at < buses.len()
        invariant
            netlist.wf(),
            at <= buses@.len(),
            views == buses_view(buses@),
            paired(changes@),
            names_known(changes@, buses_view(buses@ + created@)),
            all_fresh(netlist, created@),
            links == links_upto(netlist, views, at as nat, 0),
            changes_of(netlist, views, links, changes@),
            buses_view(created@) == buses_made(links, links.len()),
            diagnostics_view(diagnostics@) == before + all_link_findings(
                netlist,
                views,
                links,
                links.len(),
            ),
        decreases buses@.len() - at,
    {
        let mut n: usize = 0;
        assert(views[at as int] == buses@[at as int]@);
        while n < buses[at].nodes.len()
            invariant
                netlist.wf(),
                at < buses@.len(),
                views == buses_view(buses@),
                views[at as int] == buses@[at as int]@,
                n <= buses@[at as int].nodes@.len(),
                paired(changes@),
                names_known(changes@, buses_view(buses@ + created@)),
                all_fresh(netlist, created@),
                links == links_upto(netlist, views, at as nat, n as nat),
                changes_of(netlist, views, links, changes@),
                buses_view(created@) == buses_made(links, links.len()),
                diagnostics_view(diagnostics@) == before + all_link_findings(
                    netlist,
                    views,
                    links,
                    links.len(),
                ),
            decreases buses@[at as int].nodes@.len() - n,
        {
            let ghost earlier = changes@;
            let ghost had = created@;
            let ghost so_far = links;
            assert(views[at as int].nodes[n as int] == buses@[at as int].nodes@[n as int]@);
            if let I2cNode::Unknown(designator) = &buses[at].nodes[n] {
                proof {
                    lemma_mentions(netlist, views, links, changes@, designator@);
                }
                if !mentioned(&changes, designator) && (designator.is_resistor()
                    || designator.is_transistor()) {
                    let made = interconnect(
                        netlist,
                        buses,
                        at,
                        designator,
                        &mut changes,
                        &mut created,
                        diagnostics,
                    );
                    proof {
                        if let Some(e) = made@ {
                            let grown = links.push(e);
                            let count = links.len();
                            lemma_links_prefix(netlist, views, links, e, count);
                            assert(grown[count as int] == e);
                            assert forall|j: int| 0 <= j < grown.len() implies (
                                changes@[2 * j].0@,
                                changes@[2 * j].1@,
                            ) == near_change(netlist, views, #[trigger] grown[j]) && (
                                changes@[2 * j + 1].0@,
                                changes@[2 * j + 1].1@,
                            ) == far_change(netlist, views, grown[j]) by {
                                if j < count {
                                    assert(grown[j] == links[j]);
                                    assert(changes@[2 * j] == earlier[2 * j]);
                                    assert(changes@[2 * j + 1] == earlier[2 * j + 1]);
                                }
                            }
                            assert(buses_view(created@) =~= buses_made(grown, grown.len())) by {
                                match e.built {
                                    Some(b) => {
                                        assert forall|z: int| 0 <= z < had.len() implies created@[z]
                                            == had[z] by {
                                            assert(had == created@.subrange(0, had.len() as int));
                                            assert(created@.subrange(0, had.len() as int)[z]
                                                == created@[z]);
                                        }
                                        assert(buses_view(created@) =~= buses_view(had).push(b));
                                    },
                                    None => {},
                                }
                            }
                            assert(diagnostics_view(diagnostics@) =~= before + all_link_findings(
                                netlist,
                                views,
                                grown,
                                grown.len(),
                            ));
                            links = grown;
                        }
                    }
                }
            }
            proof {
                assert(links == step_links(netlist, views, so_far, at as int, n as int));
            }
            n = n + 1;
        }
        at = at + 1;
    }
    (changes, created, Ghost(links))
}

/// Gives every link to the first bus of the name it is recorded for. The
/// buses keep their names, lines and pull-ups; their nodes are rewired. A
/// link that a bus holds afterwards and did not hold before is one of the
/// changes for its name, and every change for a name that some bus has is
/// held by a bus of that name.
pub fn apply_changes(buses: &mut Vec<I2cBus>, changes: &Vec<(String, I2cNode)>)
    requires
        all_links(changes@),
    ensures
        final(buses)@.len() == old(buses)@.len(),
        forall|i: int|
            0 <= i < final(buses)@.len() ==> bus_rewired(
                old(buses)@[i]@,
                (#[trigger] final(buses)@[i])@,
            ),
        forall|i: int, y: I2cNodeView| #[trigger]
            got_link(buses_view(old(buses)@), buses_view(final(buses)@), i, y) ==> recorded(
                changes@,
                final(buses)@[i].derived_name@,
                y,
            ) && absorbed(final(buses)@[i]@.nodes, y),
        forall|m: int|
            0 <= m < changes@.len() && has_name(
                buses_view(old(buses)@),
                (#[trigger] changes@[m]).0@,
            ) ==> holds_link(buses_view(final(buses)@), changes@[m].0@, changes@[m].1@),
        buses_view(final(buses)@) == all_given(
            buses_view(old(buses)@),
            changes_view(changes@),
            changes@.len(),
        ),
{
    let ghost base = buses_view(buses@);
    proof {
        assert forall|i: int| 0 <= i < buses@.len() implies bus_rewired(
            base[i],
            (#[trigger] buses@[i])@,
        ) by {
            lemma_rewired_reflexive(base[i].nodes);
        }
    }
    let mut k: usize = 0;
    while k < changes.len()
        invariant
            k <= changes@.len(),
            all_links(changes@),
            buses@.len() == base.len(),
            base.len() == old(buses)@.len(),
            base == buses_view(old(buses)@),
            buses_view(buses@) == all_given(base, changes_view(changes@), k as nat),
            forall|i: int| 0 <= i < buses@.len() ==> bus_rewired(base[i], (#[trigger] buses@[i])@),
            forall|i: int, y: I2cNodeView| #[trigger]
                got_link(base, buses_view(buses@), i, y) ==> recorded(
                    changes@.take(k as int),
                    base[i].derived_name,
                    y,
                ) && absorbed(buses_view(buses@)[i].nodes, y),
            forall|m: int|
                0 <= m < k && has_name(base, (#[trigger] changes@[m]).0@) ==> holds_link(
                    buses_view(buses@),
                    changes@[m].0@,
                    changes@[m].1@,
                ),
        decreases changes@.len() - k,
    {
        let ghost earlier = buses@;
        let ghost view_before = buses_view(buses@);
        let ghost name = changes@[k as int].0@;
        let ghost link = changes@[k as int].1@;
        match bus_named(buses, &changes[k].0) {
            Some(i) => {
                let mut bus = buses.remove(i);
                let ghost was = bus@;
                apply_change(&mut bus, changes[k].1.clone());
                let ghost now = bus@;
                proof {
                    lemma_rewired_transitive(base[i as int].nodes, was.nodes, now.nodes);
                }
                buses.insert(i, bus);
                proof {
                    let view_after = buses_view(buses@);
                    assert(view_before[i as int] == was);
                    assert(view_after[i as int] == now);
                    assert(changes_view(changes@)[k as int] == (name, link));
                    assert(named_at(view_before, name, i as int)) by {
                        assert forall|j: int| 0 <= j < i implies (#[trigger] view_before[j]).derived_name
                            != name by {
                            assert(view_before[j] == earlier[j]@);
                        }
                    }
                    let c = choose|c: int| named_at(view_before, name, c);
                    assert(c == i);
                    assert(view_after =~= given(view_before, name, link)) by {
                        assert forall|j: int| 0 <= j < view_after.len() implies view_after[j] == given(
                            view_before,
                            name,
                            link,
                        )[j] by {
                            if j != i {
                                assert(buses@[j] == earlier[j]);
                                assert(view_before[j] == earlier[j]@);
                            }
                        }
                    }
                    assert forall|j: int| 0 <= j < buses@.len() implies bus_rewired(
                        base[j],
                        (#[trigger] buses@[j])@,
                    ) by {
                        if j != i {
                            assert(buses@[j] == earlier[j]);
                        }
                    }
                    assert forall|j: int| 0 <= j < buses@.len() && j != i implies view_after[j]
                        == view_before[j] by {
                        assert(buses@[j] == earlier[j]);
                    }
                    assert forall|j: int, y: I2cNodeView| #[trigger]
                        got_link(base, view_after, j, y) implies recorded(
                        changes@.take(k + 1),
                        base[j].derived_name,
                        y,
                    ) && absorbed(view_after[j].nodes, y) by {
                        let wider = changes@.take(k + 1);
                        if j == i && y == link {
                            assert(wider[k as int] == changes@[k as int]);
                            assert(base[j].derived_name == name);
                            assert forall|q: int| 0 <= q < now.nodes.len() implies !unknown_of(
                                #[trigger] now.nodes[q],
                                y,
                            ) by {}
                        } else {
                            if j == i {
                                let q = choose|q: int| 0 <= q < now.nodes.len() && now.nodes[q] == y;
                                assert(q < now.nodes.len() - 1);
                                assert(was.nodes.contains(now.nodes[q]));
                            }
                            assert(got_link(base, view_before, j, y));
                            let m = choose|m: int|
                                0 <= m < changes@.take(k as int).len() && (#[trigger] changes@.take(
                                    k as int,
                                )[m]).0@ == base[j].derived_name && changes@.take(k as int)[m].1@
                                    == y;
                            assert(wider[m] == changes@.take(k as int)[m]);
                            if j == i {
                                assert forall|q: int| 0 <= q < now.nodes.len() implies !unknown_of(
                                    #[trigger] now.nodes[q],
                                    y,
                                ) by {
                                    if q < now.nodes.len() - 1 {
                                        assert(was.nodes.contains(now.nodes[q]));
                                        let z = choose|z: int|
                                            0 <= z < was.nodes.len() && was.nodes[z]
                                                == now.nodes[q];
                                        assert(!unknown_of(was.nodes[z], y));
                                    }
                                }
                            }
                        }
                    }
                    assert forall|m: int|
                        0 <= m < k + 1 && has_name(base, (#[trigger] changes@[m]).0@)
                        implies holds_link(view_after, changes@[m].0@, changes@[m].1@) by {
                        if m < k {
                            let j = choose|j: int|
                                0 <= j < view_before.len() && (#[trigger] view_before[j]).derived_name
                                    == changes@[m].0@ && view_before[j].nodes.contains(
                                    changes@[m].1@,
                                );
                            if j == i {
                                let q = choose|q: int|
                                    0 <= q < was.nodes.len() && was.nodes[q] == changes@[m].1@;
                                assert(!unknown_of(was.nodes[q], link));
                                assert(now.nodes.drop_last().contains(was.nodes[q]));
                                let z = choose|z: int|
                                    0 <= z < now.nodes.drop_last().len() && now.nodes.drop_last()[z]
                                        == was.nodes[q];
                                assert(now.nodes[z] == changes@[m].1@);
                            }
                            assert(view_after[j].derived_name == changes@[m].0@
                                && view_after[j].nodes.contains(changes@[m].1@));
                        } else {
                            assert(now.nodes[now.nodes.len() - 1] == link);
                            assert(view_after[i as int].derived_name == name
                                && view_after[i as int].nodes.contains(link));
                        }
                    }
                }
            },
            None => {
                proof {
                    assert(changes_view(changes@)[k as int] == (name, link));
                    assert forall|c: int| !named_at(view_before, name, c) by {
                        if named_at(view_before, name, c) {
                            assert(view_before[c] == buses@[c]@);
                        }
                    }
                    assert(view_before == given(view_before, name, link));
                    assert forall|j: int, y: I2cNodeView| #[trigger]
                        got_link(base, view_before, j, y) implies recorded(
                        changes@.take(k + 1),
                        base[j].derived_name,
                        y,
                    ) && absorbed(view_before[j].nodes, y) by {
                        let m = choose|m: int|
                            0 <= m < changes@.take(k as int).len() && (#[trigger] changes@.take(
                                k as int,
                            )[m]).0@ == base[j].derived_name && changes@.take(k as int)[m].1@ == y;
                        assert(changes@.take(k + 1)[m] == changes@.take(k as int)[m]);
                    }
                    assert forall|m: int|
                        0 <= m < k + 1 && has_name(base, (#[trigger] changes@[m]).0@)
                        implies holds_link(view_before, changes@[m].0@, changes@[m].1@) by {
                        if m == k {
                            let j = choose|j: int|
                                0 <= j < base.len() && (#[trigger] base[j]).derived_name == name;
                            assert(base[j] == old(buses)@[j]@);
                            assert(bus_rewired(base[j], buses@[j]@));
                            assert(buses@[j].derived_name@ == name);
                        }
                    }
                }
            },
        }
        k = k + 1;
    }
    proof {
        assert(changes@.take(k as int) =~= changes@);
        assert forall|i: int, y: I2cNodeView| #[trigger]
            got_link(base, buses_view(buses@), i, y) implies recorded(
            changes@,
            buses@[i].derived_name@,
            y,
        ) && absorbed(buses@[i]@.nodes, y) by {
            assert(bus_rewired(base[i], buses@[i]@));
            assert(buses_view(buses@)[i] == buses@[i]@);
        }
    }
}

/// The counterpart of the counterpart of a link is the link itself.
pub proof fn lemma_pair_turned(x: (String, I2cNode), y: (String, I2cNode))
    requires
        is_pair(x, y),
    ensures
        is_link(x.1@),
        is_link(y.1@),
        sound_link(y.1@),
        x.0@ == link_target(y.1@),
        x.1@ == turned(y.1@, y.0@),
{
}

/// The node `y` under the name `name` is what one of the links gives to
/// the bus it began on or to the bus it leads to.
pub open spec fn link_from(
    netlist: &Netlist,
    buses: Seq<I2cBusView>,
    links: Seq<LinkMade>,
    name: Seq<char>,
    y: I2cNodeView,
) -> bool {
    exists|j: int|
        0 <= j < links.len() && ((name, y) == near_change(netlist, buses, #[trigger] links[j]) || (
            name,
            y,
        ) == far_change(netlist, buses, links[j]))
}

/// Both buses of the link hold it.
pub open spec fn link_held(netlist: &Netlist, buses: Seq<I2cBusView>, after: Seq<I2cBusView>, e: LinkMade) -> bool {
    holds_link(after, near_change(netlist, buses, e).0, near_change(netlist, buses, e).1)
        && holds_link(after, far_change(netlist, buses, e).0, far_change(netlist, buses, e).1)
}

/// The changes that the first `n` links make, two for each link, in order.
pub open spec fn changes_from(
    netlist: &Netlist,
    buses: Seq<I2cBusView>,
    links: Seq<LinkMade>,
    n: nat,
) -> Seq<(Seq<char>, I2cNodeView)>
    decreases n,
{
    if n == 0 {
        Seq::empty()
    } else {
        changes_from(netlist, buses, links, (n - 1) as nat).push(
            near_change(netlist, buses, links[n - 1]),
        ).push(far_change(netlist, buses, links[n - 1]))
    }
}

/// The buses after the search for interconnects: the buses that were
/// there, followed by those that were made for links, each link given to the
/// first bus of the name it began on and to the first bus of the name it
/// leads to.
pub open spec fn linked_of(netlist: &Netlist, buses: Seq<I2cBusView>) -> Seq<I2cBusView> {
    let links = links_of(netlist, buses);
    let changes = changes_from(netlist, buses, links, links.len());
    all_given(buses + buses_made(links, links.len()), changes, changes.len())
}

/// Changes that are those of the links are the changes that the links make.
pub proof fn lemma_changes_from(
    netlist: &Netlist,
    buses: Seq<I2cBusView>,
    links: Seq<LinkMade>,
    changes: Seq<(String, I2cNode)>,
    n: nat,
)
    requires
        changes_of(netlist, buses, links, changes),
        n <= links.len(),
    ensures
        changes_from(netlist, buses, links, n) == changes_view(changes).take((2 * n) as int),
    decreases n,
{
    if n == 0 {
        assert(changes_view(changes).take(0) =~= Seq::empty());
    } else {
        lemma_changes_from(netlist, buses, links, changes, (n - 1) as nat);
        let j = n - 1;
        assert(changes_view(changes)[2 * j] == near_change(netlist, buses, links[j]));
        assert(changes_view(changes)[2 * j + 1] == far_change(netlist, buses, links[j]));
        assert(changes_view(changes).take((2 * n) as int) =~= changes_view(changes).take(2 * j).push(
            changes_view(changes)[2 * j],
        ).push(changes_view(changes)[2 * j + 1]));
    }
}

/// What the search for interconnects does to the buses `before` and to the
/// findings.
///
/// The links are those between the buses, in the order in which they are
/// made. The findings that were added are those of the links, in order. The
/// buses are the buses that were there and the buses that were made, with
/// every link given to its two buses. The buses that were there stay in place,
/// rewired; the buses that were made for
/// links follow them, in order, rewired. Every link that a bus got is what one
/// of the links gives to a bus of that name, and what a link gives to its two
/// buses is held by a bus of each name.
pub open spec fn search_explained(
    netlist: &Netlist,
    before: Seq<I2cBusView>,
    after: Seq<I2cBusView>,
    findings_before: Seq<I2cDiagnosticView>,
    findings_after: Seq<I2cDiagnosticView>,
) -> bool {
    let links = links_of(netlist, before);
    let made = buses_made(links, links.len());
    &&& findings_after == findings_before + all_link_findings(netlist, before, links, links.len())
    &&& after == linked_of(netlist, before)
    &&& after.len() == before.len() + made.len()
    &&& forall|i: int| 0 <= i < before.len() ==> bus_rewired(#[trigger] before[i], after[i])
    &&& forall|z: int| 0 <= z < made.len() ==> bus_rewired(#[trigger] made[z], after[before.len() + z])
    &&& forall|i: int, y: I2cNodeView| #[trigger]
        got_link(before, after, i, y) ==> link_from(netlist, before, links, after[i].derived_name, y)
    &&& forall|j: int| 0 <= j < links.len() ==> link_held(netlist, before, after, #[trigger] links[j])
}

/// Finds the interconnects between buses and records them as nodes of the
/// buses they join.
///
/// The buses that were there keep their names, lines and pull-ups; their
/// nodes are rewired: links come in, and the unknown nodes that the links are
/// made of go out. Buses made along the way follow at the end. Every link
/// that came in is a tie where it began with a resistor and a discrete
/// voltage translator where it began with a transistor, the part on the clock
/// lines comes first in it, and the bus that it leads to holds its
/// counterpart. The links are those that the netlist and the buses give: they
/// account for the partner and the target of each link, for the name and the
/// lines of each bus that was made, and for the findings that were added, in
/// order.
#[verifier::rlimit(60)]
pub fn look_for_bus_interconnects(
    netlist: &Netlist,
    buses: &mut Vec<I2cBus>,
    diagnostics: &mut Vec<I2cDiagnostic>,
)
    requires
        netlist.wf(),
    ensures
        final(buses)@.len() >= old(buses)@.len(),
        forall|i: int|
            0 <= i < old(buses)@.len() ==> bus_rewired(
                old(buses)@[i]@,
                (#[trigger] final(buses)@[i])@,
            ),
        forall|i: int|
            old(buses)@.len() <= i < final(buses)@.len() ==> adhoc_bus(
                netlist,
                (#[trigger] final(buses)@[i])@,
            ),
        links_mirrored(buses_view(old(buses)@), buses_view(final(buses)@)),
        search_explained(
            netlist,
            buses_view(old(buses)@),
            buses_view(final(buses)@),
            diagnostics_view(old(diagnostics)@),
            diagnostics_view(final(diagnostics)@),
        ),
{
    let (changes, mut created, Ghost(links)) = find_interconnects(netlist, buses, diagnostics);
    let ghost fresh = created@;
    let ghost start = buses_view(buses@);
    buses.append(&mut created);
    let ghost base = buses_view(buses@);
    proof {
        assert(buses@ =~= old(buses)@ + fresh);
        assert forall|m: int| 0 <= m < changes@.len() implies is_link((#[trigger] changes@[m]).1@) by {
            if m % 2 == 0 {
                lemma_pair_turned(changes@[m], changes@[m + 1]);
            } else {
                lemma_pair_turned(changes@[m - 1], changes@[m]);
            }
        }
    }
    apply_changes(buses, &changes);
    proof {
        let after = buses_view(buses@);
        assert forall|i: int| 0 <= i < old(buses)@.len() implies bus_rewired(
            old(buses)@[i]@,
            (#[trigger] buses@[i])@,
        ) by {
            assert(base[i] == old(buses)@[i]@);
        }
        assert forall|i: int| old(buses)@.len() <= i < buses@.len() implies adhoc_bus(
            netlist,
            (#[trigger] buses@[i])@,
        ) by {
            assert(base[i] == fresh[i - old(buses)@.len()]@);
            assert(fresh_bus(netlist, base[i]) && bus_rewired(base[i], buses@[i]@));
        }
        lemma_links_recorded(netlist, start, fresh, base, after, changes@, links);
        lemma_changes_from(netlist, start, links, changes@, links.len());
        assert(changes_view(changes@).take((2 * links.len()) as int) =~= changes_view(changes@));
        assert(base =~= start + buses_made(links, links.len()));
    }
}

/// What the changes give to the buses is what the links give.
proof fn lemma_links_recorded(
    netlist: &Netlist,
    start: Seq<I2cBusView>,
    fresh: Seq<I2cBus>,
    base: Seq<I2cBusView>,
    after: Seq<I2cBusView>,
    changes: Seq<(String, I2cNode)>,
    links: Seq<LinkMade>,
)
    requires
        base =~= start + buses_view(fresh),
        after.len() == base.len(),
        all_fresh(netlist, fresh),
        paired(changes),
        names_known(changes, base),
        changes_of(netlist, start, links, changes),
        buses_view(fresh) == buses_made(links, links.len()),
        forall|i: int| 0 <= i < after.len() ==> bus_rewired(#[trigger] base[i], after[i]),
        forall|i: int, y: I2cNodeView| #[trigger]
            got_link(base, after, i, y) ==> recorded(changes, after[i].derived_name, y) && absorbed(
                after[i].nodes,
                y,
            ),
        forall|m: int|
            0 <= m < changes.len() && has_name(base, (#[trigger] changes[m]).0@) ==> holds_link(
                after,
                changes[m].0@,
                changes[m].1@,
            ),
    ensures
        links_mirrored(start, after),
        after.len() == start.len() + buses_made(links, links.len()).len(),
        forall|i: int| 0 <= i < start.len() ==> bus_rewired(#[trigger] start[i], after[i]),
        forall|z: int|
            0 <= z < buses_made(links, links.len()).len() ==> bus_rewired(
                #[trigger] buses_made(links, links.len())[z],
                after[start.len() + z],
            ),
        forall|i: int, y: I2cNodeView| #[trigger]
            got_link(start, after, i, y) ==> link_from(netlist, start, links, after[i].derived_name, y),
        forall|j: int| 0 <= j < links.len() ==> link_held(netlist, start, after, #[trigger] links[j]),
{
    let made = buses_made(links, links.len());
    assert forall|i: int| 0 <= i < start.len() implies bus_rewired(#[trigger] start[i], after[i]) by {
        assert(base[i] == start[i]);
    }
    assert forall|z: int| 0 <= z < made.len() implies bus_rewired(
        #[trigger] made[z],
        after[start.len() + z],
    ) by {
        assert(base[start.len() + z] == made[z]);
    }
    assert forall|i: int, y: I2cNodeView| #[trigger] got_link(start, after, i, y) implies got_link(
        base,
        after,
        i,
        y,
    ) by {
        if i < start.len() {
            assert(base[i] == start[i]);
        } else {
            let b = fresh[i - start.len()];
            assert(base[i] == buses_view(fresh)[i - start.len()]);
            assert(base[i] == b@);
            assert(fresh_bus(netlist, b@));
            if base[i].nodes.contains(y) {
                let q = choose|q: int| 0 <= q < base[i].nodes.len() && base[i].nodes[q] == y;
                assert(base[i].nodes[q] == crate::i2c_nodes::classify(
                    netlist,
                    crate::i2c_discovery::node_part(base[i].nodes[q]),
                ));
            }
        }
    }
    assert forall|i: int, y: I2cNodeView| #[trigger]
        got_link(start, after, i, y) implies sound_link(y) && absorbed(after[i].nodes, y)
        && holds_link(after, link_target(y), turned(y, after[i].derived_name)) && link_from(
        netlist,
        start,
        links,
        after[i].derived_name,
        y,
    ) by {
        let name = after[i].derived_name;
        assert(got_link(base, after, i, y));
        assert(recorded(changes, name, y));
        let m = choose|m: int|
            0 <= m < changes.len() && (#[trigger] changes[m]).0@ == name && changes[m].1@ == y;
        let j = m / 2;
        assert(0 <= j < links.len());
        let partner = if m % 2 == 0 {
            m + 1
        } else {
            m - 1
        };
        if m % 2 == 0 {
            assert(m == 2 * j);
            assert(is_pair(changes[m], changes[m + 1]));
            assert((name, y) == near_change(netlist, start, links[j]));
        } else {
            assert(m == 2 * j + 1);
            assert(is_pair(changes[m - 1], changes[m]));
            lemma_pair_turned(changes[m - 1], changes[m]);
            assert((name, y) == far_change(netlist, start, links[j]));
        }
        assert(changes[partner].0@ == link_target(y));
        assert(changes[partner].1@ == turned(y, name));
        assert(has_name(base, changes[partner].0@));
    }
    assert forall|j: int| 0 <= j < links.len() implies link_held(
        netlist,
        start,
        after,
        #[trigger] links[j],
    ) by {
        assert(has_name(base, changes[2 * j].0@));
        assert(has_name(base, changes[2 * j + 1].0@));
        assert(holds_link(after, changes[2 * j].0@, changes[2 * j].1@));
        assert(holds_link(after, changes[2 * j + 1].0@, changes[2 * j + 1].1@));
    }
}

/// A bus that was made for a link has the name of the bus that the link
/// leads to.
pub proof fn lemma_target_of_made(netlist: &Netlist, buses: Seq<I2cBusView>, at: nat, n: nat, j: int)
    requires
        0 <= j < links_upto(netlist, buses, at, n).len(),
    ensures
        links_upto(netlist, buses, at, n)[j].built matches Some(b) ==> b.derived_name == links_upto(
            netlist,
            buses,
            at,
            n,
        )[j].target,
    decreases at, n,
{
    if n > 0 {
        let before = links_upto(netlist, buses, at, (n - 1) as nat);
        if j < before.len() {
            lemma_target_of_made(netlist, buses, at, (n - 1) as nat, j);
        }
    } else if at > 0 && at <= buses.len() {
        lemma_target_of_made(netlist, buses, (at - 1) as nat, buses[at - 1].nodes.len(), j);
    }
}

} // verus!
