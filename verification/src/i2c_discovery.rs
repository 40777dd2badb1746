//! Discovery of I2C buses from the names of the nets.
use vstd::prelude::*;
use crate::collections::{Key, KeySet};
use crate::i2c_model::{
    buses_view, diagnostics_view, I2cBus, I2cBusView, I2cDiagnostic, I2cDiagnosticView, I2cNode,
    I2cNodeView,
};
use crate::i2c_nodes::{classify, parts_to_nodes};
use crate::i2c_pull_ups::{
    find_pull_ups, has_pull_up_chain, is_pull_up, pull_up_of, redundant_diagnostics,
    redundant_pull_up,
};
use crate::model::Node;
use crate::names::{Designator, NetName};
use crate::netlist::Netlist;
use crate::pattern::{regex_replace_all, regex_replaced};
use crate::text::{contains, find_chars, first_occurrence, from_chars, to_chars};

verus! {

/// The position of the first `SCL` in the name.
pub open spec fn scl_position(name: Seq<char>) -> int {
    choose|i: int| first_occurrence(name, "SCL"@, i)
}

/// The name with the three characters at position `i` replaced by `line`.
pub open spec fn with_line(name: Seq<char>, i: int, line: Seq<char>) -> Seq<char> {
    name.subrange(0, i) + line + name.subrange(i + 3, name.len() as int)
}

/// The name of the data line that goes with the clock line `name`: `SDA`
/// in place of the first `SCL`.
pub open spec fn companion(name: Seq<char>) -> Seq<char> {
    with_line(name, scl_position(name), "SDA"@)
}

/// The name of the bus whose clock line is `name`: `I2C` in place of the
/// first `SCL`, and every run of underscores collapsed into one.
pub open spec fn bus_name(name: Seq<char>) -> Seq<char> {
    regex_replaced("_+"@, with_line(name, scl_position(name), "I2C"@), "_"@)
}

/// The part that a plain node stands for.
pub open spec fn node_part(node: I2cNodeView) -> Seq<char> {
    match node {
        I2cNodeView::Device(d) => d,
        I2cNodeView::Connector(d) => d,
        I2cNodeView::TestPoint(d) => d,
        I2cNodeView::Unknown(d) => d,
        I2cNodeView::VoltageTranslator { part, .. } => part,
        I2cNodeView::VoltageTranslatorDiscrete { scl_fet, .. } => scl_fet,
        I2cNodeView::Tie { scl_tie, .. } => scl_tie,
    }
}

/// The part `d` counts as a part on the bus: it sits on one of the two
/// lines and is no pull-up.
pub open spec fn on_bus(netlist: &Netlist, bus: I2cBusView, d: Seq<char>) -> bool {
    (netlist.on_net(bus.scl_net, d) || netlist.on_net(bus.sda_net, d)) && match bus.pull_up {
        Some(p) => d != p.scl && d != p.sda && !redundant_pull_up(
            netlist,
            bus.scl_net,
            bus.sda_net,
            p,
            d,
        ),
        None => true,
    }
}

/// Some node of the bus stands for the part `d`.
pub open spec fn has_node_for(bus: I2cBusView, d: Seq<char>) -> bool {
    exists|i: int| 0 <= i < bus.nodes.len() && node_part(#[trigger] bus.nodes[i]) == d
}

/// The bus is as its two lines make it: it has a pull-up exactly where a
/// chain of two resistors joins the lines, and its nodes are the parts on the
/// lines, pull-ups left out, each in the role that its label gives it.
pub open spec fn fresh_bus(netlist: &Netlist, bus: I2cBusView) -> bool {
    &&& bus.pull_up is Some == has_pull_up_chain(netlist, bus.scl_net, bus.sda_net)
    &&& bus.pull_up matches Some(p) ==> is_pull_up(netlist, bus.scl_net, bus.sda_net, p)
    &&& forall|i: int|
        0 <= i < bus.nodes.len() ==> #[trigger] bus.nodes[i] == classify(
            netlist,
            node_part(bus.nodes[i]),
        )
    &&& forall|d: Seq<char>| #[trigger] has_node_for(bus, d) <==> on_bus(netlist, bus, d)
}

/// The finding that comes with a fresh bus: the one on further pull-ups, if any.
pub open spec fn fresh_diagnostics(netlist: &Netlist, bus: I2cBusView) -> Seq<I2cDiagnosticView> {
    match bus.pull_up {
        Some(p) => redundant_diagnostics(netlist, bus.derived_name, bus.scl_net, bus.sda_net, p),
        None => Seq::empty(),
    }
}

/// The net at position `k` is a clock line with its data line beside it.
pub open spec fn is_clock_line(netlist: &Netlist, k: int) -> bool {
    contains(netlist.nets.keys@[k]@, "SCL"@) && netlist.has_net(companion(netlist.nets.keys@[k]@))
}

/// `buses` are the buses of the clock lines among the first `n` nets, in
/// the order of the nets, each as its lines make it.
pub open spec fn discovered(netlist: &Netlist, buses: Seq<I2cBusView>, n: nat) -> bool
    decreases n,
{
    if n == 0 {
        buses.len() == 0
    } else if is_clock_line(netlist, n - 1) {
        let name = netlist.nets.keys@[n - 1]@;
        &&& buses.len() > 0
        &&& buses.last().scl_net == name
        &&& buses.last().sda_net == companion(name)
        &&& buses.last().derived_name == bus_name(name)
        &&& fresh_bus(netlist, buses.last())
        &&& buses.last() == bus_of(netlist, bus_name(name), name, companion(name))
        &&& discovered(netlist, buses.drop_last(), (n - 1) as nat)
    } else {
        discovered(netlist, buses, (n - 1) as nat)
    }
}

/// The findings that come with the first `n` of the buses.
pub open spec fn all_fresh_diagnostics(netlist: &Netlist, buses: Seq<I2cBusView>, n: nat) -> Seq<
    I2cDiagnosticView,
>
    decreases n,
{
    if n == 0 {
        Seq::empty()
    } else {
        all_fresh_diagnostics(netlist, buses, (n - 1) as nat) + fresh_diagnostics(
            netlist,
            buses[n - 1],
        )
    }
}

/// The findings of a list of buses do not depend on what follows the list.
pub proof fn lemma_fresh_diagnostics_prefix(
    netlist: &Netlist,
    buses: Seq<I2cBusView>,
    more: I2cBusView,
    n: nat,
)
    requires
        n <= buses.len(),
    ensures
        all_fresh_diagnostics(netlist, buses.push(more), n) == all_fresh_diagnostics(
            netlist,
            buses,
            n,
        ),
    decreases n,
{
    if n > 0 {
        lemma_fresh_diagnostics_prefix(netlist, buses, more, (n - 1) as nat);
        assert(buses.push(more)[n - 1] == buses[n - 1]);
    }
}

/// The names of the data line and of the bus that go with a clock line.
pub fn line_names(scl: &NetName) -> (r: Option<(NetName, String)>)
    ensures
        match r {
            Some(names) => contains(scl@, "SCL"@) && names.0@ == companion(scl@) && names.1@
                == bus_name(scl@),
            None => !contains(scl@, "SCL"@),
        },
{
    let name = to_chars(scl.0.as_str());
    let pattern = to_chars("SCL");
    proof {
        reveal_strlit("SCL");
        assert("SCL"@.len() == 3);
    }
    let Some(i) = find_chars(&name, &pattern) else {
        return None;
    };
    proof {
        let c = scl_position(scl@);
        assert(first_occurrence(scl@, "SCL"@, c));
        assert(c == i);
    }
    let end = name.len();
    let prefix = from_chars(&name, 0, i);
    let suffix = from_chars(&name, i + 3, end);
    let sda = prefix.clone().concat("SDA").concat(suffix.as_str());
    let plain = prefix.concat("I2C").concat(suffix.as_str());
    let derived = regex_replace_all("_+", plain.as_str(), "_");
    Some((NetName(sda), derived))
}

/// The parts of the nodes of a net, in the order of its nodes; none where
/// there is no such net.
pub open spec fn line_parts(netlist: &Netlist, n: Seq<char>) -> Seq<Seq<char>> {
    if netlist.has_net(n) {
        netlist.nets.value_of(n).nodes.items@.map_values(|x: Node| x.designator@)
    } else {
        Seq::empty()
    }
}

/// The parts `start`, followed by those of the first `n` of `parts` that
/// count as parts on the bus and did not come before, in order.
pub open spec fn gathered(
    netlist: &Netlist,
    bus: I2cBusView,
    start: Seq<Seq<char>>,
    parts: Seq<Seq<char>>,
    n: nat,
) -> Seq<Seq<char>>
    decreases n,
{
    if n == 0 {
        start
    } else {
        let before = gathered(netlist, bus, start, parts, (n - 1) as nat);
        if on_bus(netlist, bus, parts[n - 1]) && !before.contains(parts[n - 1]) {
            before.push(parts[n - 1])
        } else {
            before
        }
    }
}

/// The parts on the bus, each once: first those on the clock line in the
/// order of its nodes, then those on the data line in the order of its nodes.
pub open spec fn bus_parts(netlist: &Netlist, bus: I2cBusView) -> Seq<Seq<char>> {
    let clock = line_parts(netlist, bus.scl_net);
    let data = line_parts(netlist, bus.sda_net);
    gathered(netlist, bus, gathered(netlist, bus, Seq::empty(), clock, clock.len()), data, data.len())
}

/// The bus of the two lines under the given name: its pull-up is the first
/// pull-up of the lines, and its nodes are the parts on the bus in their
/// order, each in the role that its label gives it.
pub open spec fn bus_of(netlist: &Netlist, name: Seq<char>, scl: Seq<char>, sda: Seq<char>) -> I2cBusView {
    let bare = I2cBusView {
        derived_name: name,
        scl_net: scl,
        sda_net: sda,
        pull_up: pull_up_of(netlist, scl, sda),
        nodes: Seq::empty(),
    };
    I2cBusView {
        nodes: bus_parts(netlist, bare).map_values(|d: Seq<char>| classify(netlist, d)),
        ..bare
    }
}

/// What is gathered holds each part once, where `start` did; and it holds
/// the parts of `start` and those of the first `n` parts that count as parts on
/// the bus.
pub proof fn lemma_gathered(
    netlist: &Netlist,
    bus: I2cBusView,
    start: Seq<Seq<char>>,
    parts: Seq<Seq<char>>,
    n: nat,
)
    requires
        n <= parts.len(),
        start.no_duplicates(),
    ensures
        gathered(netlist, bus, start, parts, n).no_duplicates(),
        forall|d: Seq<char>| #[trigger]
            gathered(netlist, bus, start, parts, n).contains(d) <==> (start.contains(d) || (on_bus(
                netlist,
                bus,
                d,
            ) && exists|j: int| 0 <= j < n && #[trigger] parts[j] == d)),
    decreases n,
{
    if n > 0 {
        lemma_gathered(netlist, bus, start, parts, (n - 1) as nat);
        let before = gathered(netlist, bus, start, parts, (n - 1) as nat);
        let now = gathered(netlist, bus, start, parts, n);
        let x = parts[n - 1];
        assert forall|d: Seq<char>| #[trigger]
            now.contains(d) <==> (start.contains(d) || (on_bus(netlist, bus, d) && exists|j: int|
                0 <= j < n && #[trigger] parts[j] == d)) by {
            if now.contains(d) {
                let i = choose|i: int| 0 <= i < now.len() && now[i] == d;
                if i < before.len() {
                    assert(before[i] == d);
                    assert(before.contains(d));
                    if !start.contains(d) {
                        let j = choose|j: int| 0 <= j < n - 1 && #[trigger] parts[j] == d;
                        assert(0 <= j < n && parts[j] == d);
                    }
                } else {
                    assert(0 <= n - 1 < n && parts[n - 1] == d);
                }
            }
            if before.contains(d) {
                let i = choose|i: int| 0 <= i < before.len() && before[i] == d;
                assert(now[i] == d);
            }
            if on_bus(netlist, bus, d) && exists|j: int| 0 <= j < n && #[trigger] parts[j] == d {
                let j = choose|j: int| 0 <= j < n && #[trigger] parts[j] == d;
                if j < n - 1 {
                    assert(0 <= j < n - 1 && parts[j] == d);
                    assert(before.contains(d));
                } else if !before.contains(d) {
                    assert(now[before.len() as int] == d);
                }
            }
        }
    }
}

/// Adds to `found` the parts of a line that are among `keep` and did not
/// come before.
fn add_line(
    netlist: &Netlist,
    line: &NetName,
    keep: &KeySet<Designator>,
    found: &mut KeySet<Designator>,
    Ghost(bus): Ghost<I2cBusView>,
)
    requires
        netlist.wf(),
        keep.wf(),
        old(found).wf(),
        forall|d: Seq<char>| keep.has(d) <==> on_bus(netlist, bus, d),
    ensures
        final(found).wf(),
        final(found).items@.map_values(|d: Designator| d@) == gathered(
            netlist,
            bus,
            old(found).items@.map_values(|d: Designator| d@),
            line_parts(netlist, line@),
            line_parts(netlist, line@).len(),
        ),
{
    let ghost start = found.items@.map_values(|d: Designator| d@);
    let ghost parts = line_parts(netlist, line@);
    let Some(net) = netlist.nets.get(line) else {
        return ;
    };
    let mut i: usize = 0;
    while i < net.nodes.items.len()
        invariant
            keep.wf(),
            found.wf(),
            i <= net.nodes.items@.len(),
            parts == net.nodes.items@.map_values(|x: Node| x.designator@),
            forall|d: Seq<char>| keep.has(d) <==> on_bus(netlist, bus, d),
            found.items@.map_values(|d: Designator| d@) == gathered(
                netlist,
                bus,
                start,
                parts,
                i as nat,
            ),
        decreases net.nodes.items@.len() - i,
    {
        let part = &net.nodes.items[i].designator;
        let ghost before = found.items@.map_values(|d: Designator| d@);
        assert(parts[i as int] == part@);
        proof {
            if before.contains(part@) {
                let j = choose|j: int| 0 <= j < before.len() && before[j] == part@;
                assert(found.items@[j]@ == part@);
            }
            if found.has(part@) {
                let j = choose|j: int| 0 <= j < found.items@.len() && #[trigger] found.items@[j]@
                    == part@;
                assert(before[j] == part@);
            }
        }
        if keep.contains(part) {
            found.insert(part.clone());
            proof {
                if !before.contains(part@) {
                    assert(found.items@.map_values(|d: Designator| d@) =~= before.push(part@));
                }
            }
        }
        i = i + 1;
    }
}

/// Builds the bus of two lines: finds its pull-ups, and gives every other
/// part on the lines its role.
pub fn build_bus(
    netlist: &Netlist,
    diagnostics: &mut Vec<I2cDiagnostic>,
    derived_name: String,
    scl_net: NetName,
    sda_net: NetName,
) -> (r: I2cBus)
    requires
        netlist.wf(),
    ensures
        r@.derived_name == derived_name@,
        r@.scl_net == scl_net@,
        r@.sda_net == sda_net@,
        fresh_bus(netlist, r@),
        r@ == bus_of(netlist, derived_name@, scl_net@, sda_net@),
        diagnostics_view(final(diagnostics)@) == diagnostics_view(old(diagnostics)@)
            + fresh_diagnostics(netlist, r@),
{
    let ghost before = diagnostics_view(diagnostics@);
    let mut lines: Vec<&NetName> = Vec::new();
    lines.push(&scl_net);
    lines.push(&sda_net);
    let mut connected_parts = netlist.any_net_parts(lines.as_slice());
    proof {
        assert forall|d: Seq<char>| #[trigger]
            connected_parts.has(d) <==> (netlist.on_net(scl_net@, d) || netlist.on_net(
                sda_net@,
                d,
            )) by {
            if netlist.on_net(scl_net@, d) {
                assert(netlist.on_net(lines@[0]@, d));
            }
            if netlist.on_net(sda_net@, d) {
                assert(netlist.on_net(lines@[1]@, d));
            }
        }
    }
    let ghost all_parts = connected_parts;
    let pull_up = find_pull_ups(
        netlist,
        diagnostics,
        &scl_net,
        &sda_net,
        derived_name.as_str(),
        &mut connected_parts,
    );
    let ghost kept = connected_parts;
    let ghost bare = I2cBusView {
        derived_name: derived_name@,
        scl_net: scl_net@,
        sda_net: sda_net@,
        pull_up: crate::i2c_model::pull_up_view(pull_up),
        nodes: Seq::empty(),
    };
    proof {
        assert forall|d: Seq<char>| kept.has(d) <==> on_bus(netlist, bare, d) by {
            assert(all_parts.has(d) <==> (netlist.on_net(scl_net@, d) || netlist.on_net(
                sda_net@,
                d,
            )));
            match pull_up {
                Some(p) => {
                    assert(kept.has(d) <==> (all_parts.has(d) && d != p.scl@ && d != p.sda@
                        && !redundant_pull_up(netlist, scl_net@, sda_net@, p@, d)));
                },
                None => {
                    assert(kept.items@ == all_parts.items@);
                    assert(kept.has(d) == all_parts.has(d));
                },
            }
        }
    }
    let mut ordered: KeySet<Designator> = KeySet::new();
    assert(ordered.items@.map_values(|d: Designator| d@) =~= Seq::empty());
    add_line(netlist, &scl_net, &connected_parts, &mut ordered, Ghost(bare));
    add_line(netlist, &sda_net, &connected_parts, &mut ordered, Ghost(bare));
    let ghost parts = ordered;
    let nodes = parts_to_nodes(netlist, ordered);
    let bus = I2cBus { derived_name, scl_net, sda_net, pull_up, nodes };
    proof {
        let clock = line_parts(netlist, scl_net@);
        let data = line_parts(netlist, sda_net@);
        let first = gathered(netlist, bare, Seq::empty(), clock, clock.len());
        assert(parts.items@.map_values(|d: Designator| d@) == bus_parts(netlist, bare));
        lemma_gathered(netlist, bare, Seq::empty(), clock, clock.len());
        lemma_gathered(netlist, bare, first, data, data.len());
        assert(bus@.nodes =~= bus_parts(netlist, bare).map_values(
            |d: Seq<char>| classify(netlist, d),
        )) by {
            assert forall|i: int| 0 <= i < bus@.nodes.len() implies bus@.nodes[i] == classify(
                netlist,
                bus_parts(netlist, bare)[i],
            ) by {
                assert(bus@.nodes[i] == nodes@[i]@);
                assert(parts.items@.map_values(|d: Designator| d@)[i] == parts.items@[i]@);
            }
        }
        assert forall|d: Seq<char>| parts.has(d) <==> kept.has(d) by {
            let names = parts.items@.map_values(|d: Designator| d@);
            if parts.has(d) {
                let i = choose|i: int| 0 <= i < parts.items@.len() && #[trigger] parts.items@[i]@ == d;
                assert(names[i] == d);
                assert(names.contains(d));
            }
            if names.contains(d) {
                let i = choose|i: int| 0 <= i < names.len() && names[i] == d;
                assert(parts.items@[i]@ == d);
            }
            if on_bus(netlist, bare, d) {
                if netlist.on_net(scl_net@, d) {
                    let net = netlist.nets.value_of(scl_net@);
                    let j = choose|j: int|
                        0 <= j < net.nodes.items@.len() && #[trigger] net.nodes.items@[j].designator@
                            == d;
                    assert(clock[j] == d);
                    assert(first.contains(d));
                } else {
                    let net = netlist.nets.value_of(sda_net@);
                    let j = choose|j: int|
                        0 <= j < net.nodes.items@.len() && #[trigger] net.nodes.items@[j].designator@
                            == d;
                    assert(data[j] == d);
                }
            }
        }
        assert(crate::i2c_model::pull_up_view(pull_up) == pull_up_of(netlist, scl_net@, sda_net@));
        assert(bus@ == bus_of(netlist, bus@.derived_name, scl_net@, sda_net@));
    }
    proof {
        assert(diagnostics_view(diagnostics@) =~= before + fresh_diagnostics(netlist, bus@));
        assert forall|i: int| 0 <= i < bus@.nodes.len() implies #[trigger] bus@.nodes[i]
            == classify(netlist, node_part(bus@.nodes[i])) by {
            assert(bus@.nodes[i] == nodes@[i]@);
        }
        assert forall|d: Seq<char>| #[trigger] has_node_for(bus@, d) <==> on_bus(
            netlist,
            bus@,
            d,
        ) by {
            assert(all_parts.has(d) <==> (netlist.on_net(scl_net@, d) || netlist.on_net(
                sda_net@,
                d,
            )));
            assert(parts.has(d) <==> kept.has(d));
            assert(kept.has(d) <==> on_bus(netlist, bare, d));
            assert(on_bus(netlist, bare, d) == on_bus(netlist, bus@, d));
            assert(parts.has(d) <==> on_bus(netlist, bus@, d));
            if has_node_for(bus@, d) {
                let i = choose|i: int|
                    0 <= i < bus@.nodes.len() && node_part(#[trigger] bus@.nodes[i]) == d;
                assert(bus@.nodes[i] == nodes@[i]@);
                assert(parts.items@[i]@ == d);
            }
            if parts.has(d) {
                let i = choose|i: int| 0 <= i < parts.items@.len() && #[trigger] parts.items@[i]@ == d;
                assert(bus@.nodes[i] == nodes@[i]@);
                assert(node_part(bus@.nodes[i]) == d);
            }
        }
    }
    bus
}

/// Finds the buses by the names of the nets: every net with `SCL` in its
/// name whose companion with `SDA` in the same place exists is the clock line
/// of a bus.
pub fn discover_buses(netlist: &Netlist, diagnostics: &mut Vec<I2cDiagnostic>) -> (r: Vec<I2cBus>)
    requires
        netlist.wf(),
    ensures
        discovered(netlist, buses_view(r@), netlist.nets.keys@.len()),
        diagnostics_view(final(diagnostics)@) == diagnostics_view(old(diagnostics)@)
            + all_fresh_diagnostics(netlist, buses_view(r@), r@.len()),
{
    let ghost before = diagnostics_view(diagnostics@);
    let mut buses: Vec<I2cBus> = Vec::new();
    let mut k: usize = 0;
    assert(diagnostics_view(diagnostics@) =~= before + all_fresh_diagnostics(
        netlist,
        buses_view(buses@),
        0,
    ));
    while k < netlist.nets.len()
        invariant
            netlist.wf(),
            k <= netlist.nets.keys@.len(),
            discovered(netlist, buses_view(buses@), k as nat),
            diagnostics_view(diagnostics@) == before + all_fresh_diagnostics(
                netlist,
                buses_view(buses@),
                buses@.len(),
            ),
        decreases netlist.nets.keys@.len() - k,
    {
        let scl_net = netlist.nets.key_at(k);
        let ghost found = buses_view(buses@);
        let ghost so_far = diagnostics_view(diagnostics@);
        let mut clock_line = false;
        if let Some(names) = line_names(scl_net) {
            if netlist.nets.contains_key(&names.0) {
                clock_line = true;
                let bus = build_bus(netlist, diagnostics, names.1, scl_net.clone(), names.0);
                buses.push(bus);
                proof {
                    let now = buses_view(buses@);
                    assert(now =~= found.push(bus@));
                    assert(now.drop_last() =~= found);
                    lemma_fresh_diagnostics_prefix(netlist, found, bus@, found.len());
                    assert(diagnostics_view(diagnostics@) =~= before + all_fresh_diagnostics(
                        netlist,
                        now,
                        now.len(),
                    ));
                }
            }
        }
        assert(clock_line == is_clock_line(netlist, k as int));
        k = k + 1;
    }
    buses
}

/// The buses of the clock lines are determined by the netlist.
pub proof fn lemma_discovered_once(
    netlist: &Netlist,
    a: Seq<I2cBusView>,
    b: Seq<I2cBusView>,
    n: nat,
)
    requires
        discovered(netlist, a, n),
        discovered(netlist, b, n),
    ensures
        a == b,
    decreases n,
{
    if n == 0 {
        assert(a =~= b);
    } else if is_clock_line(netlist, n - 1) {
        lemma_discovered_once(netlist, a.drop_last(), b.drop_last(), (n - 1) as nat);
        assert(a =~= a.drop_last().push(a.last()));
        assert(b =~= b.drop_last().push(b.last()));
    } else {
        lemma_discovered_once(netlist, a, b, (n - 1) as nat);
    }
}

} // verus!
