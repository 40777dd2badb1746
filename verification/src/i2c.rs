//! Discovery and checking of I2C buses.
//!
//! The buses are found by the names of their lines, their pull-ups are
//! found and checked, interconnects between buses are looked for, level
//! shifters are told from devices, the buses are gathered into segments, and
//! the rules on whole segments are checked.
use vstd::prelude::*;
use crate::collections::{Dict, Key, KeySet};
use crate::i2c_discovery::{
    bus_name, companion, discover_buses, discovered, fresh_bus, has_node_for,
    is_clock_line, node_part, on_bus,
};
use crate::i2c_interconnect::{
    adhoc_bus, all_link_findings, bus_rewired, buses_made, got_link, has_name, is_link,
    lemma_made_for, lemma_prefix_of_sum, lemma_prefix_transitive, lemma_target_of_made,
    link_from, linked_of,
    links_of, look_for_bus_interconnects, search_explained, LinkMade,
};
use crate::i2c_discovery::lemma_discovered_once;
use crate::i2c_model::{
    buses_view, diagnostics_view, I2cBus, I2cBusView, I2cBuses, I2cDiagnostic,
    I2cDiagnosticView, I2cNodeView,
};
use crate::i2c_nodes::{classify, is_level_shifter, promoted, promoted_bus};
use crate::i2c_pull_ups::{has_pull_up_chain, is_pull_up};
use crate::i2c_pull_ups::{all_value_diagnostics, look_for_non_standard_pull_ups};
use crate::i2c_rules::{pull_up_diagnostics, unknown_nodes};
use crate::i2c_segments::{brought, covered, segments_of, segments_view};
use crate::netlist::Netlist;

pub use crate::i2c_model::{I2cDiagnosticKind, I2cNode, I2cPullUp};

verus! {

/// Some bus of the list has the view `b`.
pub open spec fn has_bus(buses: Seq<I2cBus>, b: I2cBusView) -> bool {
    exists|j: int| 0 <= j < buses.len() && (#[trigger] buses[j])@ == b
}

/// Every bus stands under its own name.
pub open spec fn keyed_by_name(by_name: Dict<String, I2cBus>) -> bool {
    forall|i: int|
        0 <= i < by_name.keys@.len() ==> (#[trigger] by_name.keys@[i])@
            == by_name.values@[i].derived_name@
}

/// `tail` are the last elements of `all`.
pub open spec fn ends_with<A>(all: Seq<A>, tail: Seq<A>) -> bool {
    tail.len() <= all.len() && all.subrange(all.len() - tail.len(), all.len() as int) == tail
}

/// The node has its place on the finished bus: it is a link to another
/// bus, or it stands for a part on the lines of the bus. Such a part is a
/// level shifter that was told apart as a voltage translator or a device, or
/// it has the role that its label gives it.
pub open spec fn settled_node(netlist: &Netlist, bus: I2cBusView, n: I2cNodeView) -> bool {
    let d = node_part(n);
    is_link(n) || (on_bus(netlist, bus, d) && (if is_level_shifter(netlist, d) {
        n == I2cNodeView::Device(d) || (n matches I2cNodeView::VoltageTranslator { part, .. }
            && part == d)
    } else {
        n == classify(netlist, d)
    }))
}

/// The bus is finished: its pull-up is a pull-up of its lines, there
/// exactly where a chain of two resistors joins them; every node has its
/// place; and every part on the lines whose label gives it a known role is there
/// in that role.
pub open spec fn settled_bus(netlist: &Netlist, bus: I2cBusView) -> bool {
    &&& bus.pull_up is Some == has_pull_up_chain(netlist, bus.scl_net, bus.sda_net)
    &&& bus.pull_up matches Some(p) ==> is_pull_up(netlist, bus.scl_net, bus.sda_net, p)
    &&& forall|j: int| 0 <= j < bus.nodes.len() ==> settled_node(netlist, bus, #[trigger] bus.nodes[j])
    &&& forall|d: Seq<char>|
        on_bus(netlist, bus, d) && !(#[trigger] classify(netlist, d) is Unknown)
            ==> bus.nodes.contains(classify(netlist, d))
}

/// A bus that was built from its lines, rewired, and had its level
/// shifters told apart is finished.
pub proof fn lemma_settled(
    netlist: &Netlist,
    fresh: I2cBusView,
    wired: I2cBusView,
    buses: Seq<I2cBusView>,
)
    requires
        fresh_bus(netlist, fresh),
        bus_rewired(fresh, wired),
    ensures
        settled_bus(netlist, promoted_bus(netlist, buses, wired)),
{
    let done = promoted_bus(netlist, buses, wired);
    assert forall|d: Seq<char>| on_bus(netlist, done, d) == on_bus(netlist, fresh, d) by {}
    assert forall|j: int| 0 <= j < done.nodes.len() implies settled_node(
        netlist,
        done,
        #[trigger] done.nodes[j],
    ) by {
        let w = wired.nodes[j];
        assert(done.nodes[j] == promoted(netlist, buses, wired, w));
        if !is_link(w) {
            let k = choose|k: int| 0 <= k < fresh.nodes.len() && fresh.nodes[k] == w;
            let d = node_part(w);
            assert(w == classify(netlist, d));
            assert(has_node_for(fresh, d));
            assert(on_bus(netlist, fresh, d));
        }
    }
    assert forall|d: Seq<char>|
        on_bus(netlist, done, d) && !(#[trigger] classify(netlist, d) is Unknown)
        implies done.nodes.contains(classify(netlist, d)) by {
        assert(has_node_for(fresh, d));
        let k = choose|k: int|
            0 <= k < fresh.nodes.len() && node_part(#[trigger] fresh.nodes[k]) == d;
        assert(fresh.nodes[k] == classify(netlist, d));
        let m = choose|m: int| 0 <= m < wired.nodes.len() && wired.nodes[m] == fresh.nodes[k];
        assert(done.nodes[m] == promoted(netlist, buses, wired, wired.nodes[m]));
    }
}

/// Every discovered bus is as its lines make it.
pub proof fn lemma_discovered_fresh(netlist: &Netlist, buses: Seq<I2cBusView>, n: nat, j: int)
    requires
        discovered(netlist, buses, n),
        0 <= j < buses.len(),
    ensures
        fresh_bus(netlist, buses[j]),
    decreases n,
{
    if n > 0 {
        if is_clock_line(netlist, n - 1) {
            if j < buses.len() - 1 {
                lemma_discovered_fresh(netlist, buses.drop_last(), (n - 1) as nat, j);
                assert(buses[j] == buses.drop_last()[j]);
            }
        } else {
            lemma_discovered_fresh(netlist, buses, (n - 1) as nat, j);
        }
    }
}

/// The bus is that of a clock line: it has the name that the line gives,
/// the line is its clock line, and the line beside it is its data line.
pub open spec fn from_lines(netlist: &Netlist, bus: I2cBusView) -> bool {
    exists|k: int|
        0 <= k < netlist.nets.keys@.len() && #[trigger] is_clock_line(netlist, k)
            && bus.derived_name == bus_name(netlist.nets.keys@[k]@) && bus.scl_net
            == netlist.nets.keys@[k]@ && bus.sda_net == companion(netlist.nets.keys@[k]@)
}

/// The bus was made for one of the links: it has the name, the lines and
/// the pull-up of the bus of that link.
pub open spec fn made_for(links: Seq<LinkMade>, bus: I2cBusView) -> bool {
    exists|j: int| 0 <= j < links.len() && same_frame((#[trigger] links[j]).built, bus)
}

/// A bus was made, with the name, the lines and the pull-up of `bus`.
pub open spec fn same_frame(made: Option<I2cBusView>, bus: I2cBusView) -> bool {
    match made {
        Some(b) => b.derived_name == bus.derived_name && b.scl_net == bus.scl_net && b.sda_net
            == bus.sda_net && b.pull_up == bus.pull_up,
        None => false,
    }
}

/// Every tie and every discrete voltage translator among the nodes of the
/// bus is what one of the links gives to a bus of its name.
pub open spec fn links_explained(
    netlist: &Netlist,
    found: Seq<I2cBusView>,
    links: Seq<LinkMade>,
    bus: I2cBusView,
) -> bool {
    forall|q: int|
        0 <= q < bus.nodes.len() && is_link(#[trigger] bus.nodes[q]) ==> link_from(
            netlist,
            found,
            links,
            bus.derived_name,
            bus.nodes[q],
        )
}

/// The buses `found` account for the result and for the findings.
///
/// `found` are the buses of the clock lines, in the order of the nets, and
/// the links are those between them. The buses of the result are those buses,
/// linked, put by name, with their level shifters told apart, and the segments
/// are those that these buses give. The findings that were added are, in this
/// order: those on further pull-ups of the buses found, those on the values of
/// their pull-ups, those of the links, those on nodes whose role stayed
/// unknown, and those on the pull-ups of the direct segments. Every bus of the
/// result is the bus of a clock line or was made for a link, and every link
/// among its nodes is what one of the links gives.
pub open spec fn accounted(
    netlist: &Netlist,
    before: Seq<I2cDiagnosticView>,
    after: Seq<I2cDiagnosticView>,
    r: I2cBuses,
    found: Seq<I2cBus>,
) -> bool {
    let links = links_of(netlist, buses_view(found));
    &&& discovered(netlist, buses_view(found), netlist.nets.keys@.len())
    &&& buses_view(r.by_name.values@) == buses_of(netlist, buses_view(found))
    &&& segments_view(r.direct_segments@) == segments_of(
        Seq::empty(),
        buses_view(r.by_name.values@),
        true,
        r.by_name.values@.len(),
    )
    &&& segments_view(r.same_bus_segments@) == segments_of(
        Seq::empty(),
        buses_view(r.by_name.values@),
        false,
        r.by_name.values@.len(),
    )
    &&& after == before + crate::i2c_discovery::all_fresh_diagnostics(
        netlist,
        buses_view(found),
        found.len(),
    ) + all_value_diagnostics(netlist, found, found.len()) + all_link_findings(
        netlist,
        buses_view(found),
        links,
        links.len(),
    ) + unknown_nodes(r.by_name, r.by_name.keys@.len()) + pull_up_diagnostics(
        netlist,
        r.by_name,
        r.direct_segments@,
        r.direct_segments@.len(),
    )
    &&& forall|i: int|
        0 <= i < r.by_name.values@.len() ==> (from_lines(netlist, (#[trigger] r.by_name.values@[i])@)
            || made_for(links, r.by_name.values@[i]@)) && links_explained(
            netlist,
            buses_view(found),
            links,
            r.by_name.values@[i]@,
        )
}

/// The bus at position `j` of the discovered buses is the bus of a clock line.
pub proof fn lemma_discovered_lines(netlist: &Netlist, buses: Seq<I2cBusView>, n: nat, j: int)
    requires
        discovered(netlist, buses, n),
        n <= netlist.nets.keys@.len(),
        0 <= j < buses.len(),
    ensures
        from_lines(netlist, buses[j]),
    decreases n,
{
    if n > 0 {
        if is_clock_line(netlist, n - 1) {
            if j < buses.len() - 1 {
                lemma_discovered_lines(netlist, buses.drop_last(), (n - 1) as nat, j);
                assert(buses[j] == buses.drop_last()[j]);
            } else {
                assert(is_clock_line(netlist, n - 1) && buses[j].derived_name == bus_name(
                    netlist.nets.keys@[n - 1]@,
                ));
            }
        } else {
            lemma_discovered_lines(netlist, buses, (n - 1) as nat, j);
        }
    }
}

/// A bus that the search for interconnects left, with its level shifters
/// told apart, is the bus of a clock line or was made for a link, and every
/// link among its nodes is what one of the links gives.
pub proof fn lemma_bus_accounted(
    netlist: &Netlist,
    found: Seq<I2cBusView>,
    linked: Seq<I2cBusView>,
    findings_before: Seq<I2cDiagnosticView>,
    findings_after: Seq<I2cDiagnosticView>,
    named: Seq<I2cBusView>,
    j: int,
)
    requires
        discovered(netlist, found, netlist.nets.keys@.len()),
        search_explained(netlist, found, linked, findings_before, findings_after),
        0 <= j < linked.len(),
    ensures
        from_lines(netlist, promoted_bus(netlist, named, linked[j])) || made_for(
            links_of(netlist, found),
            promoted_bus(netlist, named, linked[j]),
        ),
        links_explained(
            netlist,
            found,
            links_of(netlist, found),
            promoted_bus(netlist, named, linked[j]),
        ),
{
    let links = links_of(netlist, found);
    let done = promoted_bus(netlist, named, linked[j]);
    let made = buses_made(links, links.len());
    if j < found.len() {
        lemma_discovered_lines(netlist, found, netlist.nets.keys@.len(), j);
        lemma_discovered_fresh(netlist, found, netlist.nets.keys@.len(), j);
        assert(bus_rewired(found[j], linked[j]));
        let k = choose|k: int|
            0 <= k < netlist.nets.keys@.len() && #[trigger] is_clock_line(netlist, k)
                && found[j].derived_name == bus_name(netlist.nets.keys@[k]@) && found[j].scl_net
                == netlist.nets.keys@[k]@ && found[j].sda_net == companion(netlist.nets.keys@[k]@);
        assert(is_clock_line(netlist, k) && done.derived_name == bus_name(netlist.nets.keys@[k]@));
        assert(from_lines(netlist, done));
    } else {
        let z = j - found.len();
        assert(bus_rewired(made[z], linked[found.len() + z]));
        lemma_made_for(links, links.len(), z);
        let m = choose|m: int| 0 <= m < links.len() && (#[trigger] links[m]).built == Some(made[z]);
        assert(same_frame(links[m].built, done));
        assert(made_for(links, done));
    }
    assert forall|q: int| 0 <= q < done.nodes.len() && is_link(#[trigger] done.nodes[q]) implies link_from(
        netlist,
        found,
        links,
        done.derived_name,
        done.nodes[q],
    ) by {
        let w = linked[j].nodes[q];
        assert(done.nodes[q] == promoted(netlist, named, linked[j], w));
        assert(w == done.nodes[q]);
        if j < found.len() {
            if found[j].nodes.contains(w) {
                let x = choose|x: int| 0 <= x < found[j].nodes.len() && found[j].nodes[x] == w;
                assert(found[j].nodes[x] == classify(netlist, node_part(found[j].nodes[x])));
            }
        }
        assert(got_link(found, linked, j, w));
    }
}

/// The buses by name, after the last `m` buses have been taken from the
/// end of the list: a bus stays where no bus taken before has its name.
pub open spec fn named_last(buses: Seq<I2cBusView>, m: nat) -> Seq<I2cBusView>
    decreases m,
{
    if m == 0 || m > buses.len() {
        Seq::empty()
    } else {
        let before = named_last(buses, (m - 1) as nat);
        let bus = buses[buses.len() - m];
        if has_name(before, bus.derived_name) {
            before
        } else {
            before.push(bus)
        }
    }
}

/// The buses as the result holds them: the buses of the clock lines `found`
/// are linked, put by name, and their level shifters are told apart.
pub open spec fn buses_of(netlist: &Netlist, found: Seq<I2cBusView>) -> Seq<I2cBusView> {
    let linked = linked_of(netlist, found);
    let named = named_last(linked, linked.len());
    Seq::new(named.len(), |i: int| promoted_bus(netlist, named, named[i]))
}

/// Puts the buses into a map by name, from the last to the first. Of two
/// buses with one name the later stays.
pub fn buses_by_name(buses: Vec<I2cBus>) -> (r: Dict<String, I2cBus>)
    ensures
        r.wf(),
        keyed_by_name(r),
        forall|i: int| 0 <= i < r.values@.len() ==> has_bus(buses@, (#[trigger] r.values@[i])@),
        forall|j: int| 0 <= j < buses@.len() ==> r.has_key((#[trigger] buses@[j]).derived_name@),
        buses_view(r.values@) == named_last(buses_view(buses@), buses@.len()),
{
    let mut rest = buses;
    let mut by_name: Dict<String, I2cBus> = Dict::new();
    let ghost views = buses_view(buses@);
    assert(buses_view(by_name.values@) =~= named_last(views, 0));
    while rest.len() > 0
        invariant
            by_name.wf(),
            keyed_by_name(by_name),
            views == buses_view(buses@),
            rest@.len() <= buses@.len(),
            rest@ == buses@.take(rest@.len() as int),
            buses_view(by_name.values@) == named_last(views, (buses@.len() - rest@.len()) as nat),
            forall|i: int|
                0 <= i < by_name.values@.len() ==> has_bus(buses@, (#[trigger] by_name.values@[i])@),
            forall|j: int|
                rest@.len() <= j < buses@.len() ==> by_name.has_key(
                    (#[trigger] buses@[j]).derived_name@,
                ),
        decreases rest@.len(),
    {
        let ghost earlier = by_name;
        let ghost n = rest@.len() - 1;
        let ghost held = buses_view(by_name.values@);
        let bus = rest.pop().unwrap();
        assert(bus == buses@[n]);
        assert(rest@ =~= buses@.take(n));
        assert(views[n] == bus@);
        let name = bus.derived_name.clone();
        proof {
            if has_name(held, name@) {
                let i = choose|i: int| 0 <= i < held.len() && (#[trigger] held[i]).derived_name
                    == name@;
                assert(held[i] == earlier.values@[i]@);
                assert(earlier.keys@[i]@ == name@);
                assert(earlier.has_key(name@));
            }
            if earlier.has_key(name@) {
                let i = earlier.index_of(name@);
                assert(earlier.keys@[i]@ == earlier.values@[i].derived_name@);
                assert(held[i] == earlier.values@[i]@);
                assert(has_name(held, name@));
            }
        }
        by_name.insert_if_absent(name, bus);
        proof {
            assert(buses_view(by_name.values@) =~= named_last(views, (buses@.len() - n) as nat)) by {
                if !has_name(held, bus@.derived_name) {
                    assert(buses_view(by_name.values@) =~= held.push(bus@));
                }
            }
            assert forall|i: int| 0 <= i < by_name.values@.len() implies has_bus(
                buses@,
                (#[trigger] by_name.values@[i])@,
            ) by {
                if i < earlier.values@.len() {
                    assert(by_name.values@[i] == earlier.values@[i]);
                } else {
                    assert(buses@[n]@ == by_name.values@[i]@);
                }
            }
            assert forall|i: int| 0 <= i < by_name.keys@.len() implies (
            #[trigger] by_name.keys@[i])@ == by_name.values@[i].derived_name@ by {
                if i < earlier.keys@.len() {
                    assert(by_name.keys@[i] == earlier.keys@[i]);
                    assert(by_name.values@[i] == earlier.values@[i]);
                }
            }
        }
    }
    by_name
}

/// Finds the I2C buses of a netlist and checks them.
///
/// The result holds the buses by name and the two partitions of their
/// names. Every net that is a clock line with its data line beside it has its
/// bus. The segments are those that the buses, in the order of the map, give:
/// no name is in two segments of one kind, and the names in the segments are
/// those of the buses and of the buses that their nodes lead to. The buses
/// found on clock lines and the links between them account for every bus, for
/// every link among the nodes, and for every finding that was added.
pub fn find_i2c_buses(netlist: &Netlist, diagnostics: &mut Vec<I2cDiagnostic>) -> (r: I2cBuses)
    requires
        netlist.wf(),
    ensures
        r.wf(),
        keyed_by_name(r.by_name),
        forall|i: int|
            0 <= i < r.by_name.values@.len() ==> settled_bus(
                netlist,
                (#[trigger] r.by_name.values@[i])@,
            ),
        forall|k: int|
            0 <= k < netlist.nets.keys@.len() && is_clock_line(netlist, k) ==> r.by_name.has_key(
                bus_name((#[trigger] netlist.nets.keys@[k])@),
            ),
        segments_view(r.direct_segments@) == segments_of(
            Seq::empty(),
            buses_view(r.by_name.values@),
            true,
            r.by_name.values@.len(),
        ),
        segments_view(r.same_bus_segments@) == segments_of(
            Seq::empty(),
            buses_view(r.by_name.values@),
            false,
            r.by_name.values@.len(),
        ),
        forall|x: Seq<char>| #[trigger]
            covered(segments_view(r.direct_segments@), x) <==> brought(
                buses_view(r.by_name.values@),
                true,
                r.by_name.values@.len() as int,
                x,
            ),
        forall|x: Seq<char>| #[trigger]
            covered(segments_view(r.same_bus_segments@), x) <==> brought(
                buses_view(r.by_name.values@),
                false,
                r.by_name.values@.len() as int,
                x,
            ),
        diagnostics_view(old(diagnostics)@).is_prefix_of(diagnostics_view(final(diagnostics)@)),
        exists|found: Seq<I2cBus>| #[trigger]
            accounted(
                netlist,
                diagnostics_view(old(diagnostics)@),
                diagnostics_view(final(diagnostics)@),
                r,
                found,
            ),
        ends_with(
            diagnostics_view(final(diagnostics)@),
            unknown_nodes(r.by_name, r.by_name.keys@.len()) + pull_up_diagnostics(
                netlist,
                r.by_name,
                r.direct_segments@,
                r.direct_segments@.len(),
            ),
        ),
{
    let ghost before = diagnostics_view(diagnostics@);
    let mut buses = discover_buses(netlist, diagnostics);
    let ghost found = buses@;
    let ghost d1 = diagnostics_view(diagnostics@);
    look_for_non_standard_pull_ups(netlist, &buses, diagnostics);
    let ghost d2 = diagnostics_view(diagnostics@);
    look_for_bus_interconnects(netlist, &mut buses, diagnostics);
    let ghost d3 = diagnostics_view(diagnostics@);
    let ghost linked = buses@;
    let ghost links = links_of(netlist, buses_view(found));
    proof {
        lemma_prefix_of_sum(
            before,
            crate::i2c_discovery::all_fresh_diagnostics(netlist, buses_view(found), found.len()),
        );
        lemma_prefix_of_sum(d1, all_value_diagnostics(netlist, found, found.len()));
        lemma_prefix_transitive(before, d1, d2);
        lemma_prefix_transitive(before, d2, d3);
        assert forall|k: int|
            0 <= k < netlist.nets.keys@.len() && is_clock_line(netlist, k) implies exists|j: int|
            0 <= j < linked.len() && (#[trigger] linked[j]).derived_name@ == bus_name(
                netlist.nets.keys@[k]@,
            ) by {
            lemma_discovered_has(netlist, buses_view(found), netlist.nets.keys@.len(), k);
            let j = choose|j: int|
                0 <= j < buses_view(found).len() && (#[trigger] buses_view(found)[j]).derived_name
                    == bus_name(netlist.nets.keys@[k]@);
            assert(buses_view(found)[j] == found[j]@);
            assert(bus_rewired(found[j]@, linked[j]@));
        }
        assert forall|j: int| 0 <= j < linked.len() implies adhoc_bus(
            netlist,
            (#[trigger] linked[j])@,
        ) by {
            if j < found.len() {
                lemma_discovered_fresh(netlist, buses_view(found), netlist.nets.keys@.len(), j);
                assert(buses_view(found)[j] == found[j]@);
                assert(fresh_bus(netlist, found[j]@) && bus_rewired(found[j]@, linked[j]@));
            }
        }
    }
    let by_name = buses_by_name(buses);
    let mut all = I2cBuses {
        by_name,
        direct_segments: Vec::new(),
        same_bus_segments: Vec::new(),
    };
    let ghost named = all.by_name;
    all.collect_nodes(netlist);
    proof {
        assert forall|i: int| 0 <= i < all.by_name.keys@.len() implies (
        #[trigger] all.by_name.keys@[i])@ == all.by_name.values@[i].derived_name@ by {
            assert(named.keys@[i]@ == named.values@[i].derived_name@);
            assert(all.by_name.values@[i]@ == promoted_bus(
                netlist,
                buses_view(named.values@),
                named.values@[i]@,
            ));
        }
        assert forall|i: int| 0 <= i < all.by_name.values@.len() implies settled_bus(
            netlist,
            (#[trigger] all.by_name.values@[i])@,
        ) by {
            assert(has_bus(linked, named.values@[i]@));
            let j = choose|j: int| 0 <= j < linked.len() && (#[trigger] linked[j])@
                == named.values@[i]@;
            assert(adhoc_bus(netlist, linked[j]@));
            let fresh = choose|fresh: I2cBusView| #[trigger]
                fresh_bus(netlist, fresh) && bus_rewired(fresh, linked[j]@);
            lemma_settled(netlist, fresh, linked[j]@, buses_view(named.values@));
        }
        assert(segments_view(all.direct_segments@) =~= Seq::empty());
        assert(segments_view(all.same_bus_segments@) =~= Seq::empty());
    }
    all.collect_segments();
    all.warning_unknown_nodes(diagnostics);
    let ghost d4 = diagnostics_view(diagnostics@);
    all.check_pull_ups(netlist, diagnostics);
    proof {
        let d5 = diagnostics_view(diagnostics@);
        let unknown = unknown_nodes(all.by_name, all.by_name.keys@.len());
        let pulls = pull_up_diagnostics(
            netlist,
            all.by_name,
            all.direct_segments@,
            all.direct_segments@.len(),
        );
        lemma_prefix_of_sum(d3, unknown);
        lemma_prefix_of_sum(d4, pulls);
        lemma_prefix_transitive(before, d3, d4);
        lemma_prefix_transitive(before, d4, d5);
        lemma_prefix_transitive(d2, d3, d4);
        lemma_prefix_transitive(d2, d4, d5);
        assert(d5 =~= d3 + (unknown + pulls));
        assert(d5.subrange(d5.len() - (unknown + pulls).len(), d5.len() as int) =~= unknown
            + pulls);
        assert(buses_view(found).len() == found.len());
        let head = before + crate::i2c_discovery::all_fresh_diagnostics(
            netlist,
            buses_view(found),
            found.len(),
        ) + all_value_diagnostics(netlist, found, found.len());
        assert(head == d2);
        assert(d5 =~= d3 + unknown + pulls);
        assert(ends_with(d5, unknown + pulls));
        assert forall|i: int| 0 <= i < all.by_name.values@.len() implies (from_lines(
            netlist,
            (#[trigger] all.by_name.values@[i])@,
        ) || made_for(links, all.by_name.values@[i]@)) && links_explained(
            netlist,
            buses_view(found),
            links,
            all.by_name.values@[i]@,
        ) by {
            assert(has_bus(linked, named.values@[i]@));
            let j = choose|j: int| 0 <= j < linked.len() && (#[trigger] linked[j])@
                == named.values@[i]@;
            assert(buses_view(linked)[j] == linked[j]@);
            lemma_bus_accounted(
                netlist,
                buses_view(found),
                buses_view(linked),
                d2,
                d3,
                buses_view(named.values@),
                j,
            );
        }
        assert(buses_view(linked) == linked_of(netlist, buses_view(found)));
        assert(buses_view(named.values@) == named_last(buses_view(linked), linked.len()));
        assert(buses_view(all.by_name.values@) =~= buses_of(netlist, buses_view(found))) by {
            assert forall|i: int| 0 <= i < all.by_name.values@.len() implies buses_view(
                all.by_name.values@,
            )[i] == buses_of(netlist, buses_view(found))[i] by {
                assert(buses_view(named.values@)[i] == named.values@[i]@);
            }
        }
        assert(accounted(netlist, before, d5, all, found));
    }
    all
}

/// The bus of a clock line among the first `n` nets is among the discovered buses.
pub proof fn lemma_discovered_has(netlist: &Netlist, buses: Seq<I2cBusView>, n: nat, k: int)
    requires
        crate::i2c_discovery::discovered(netlist, buses, n),
        0 <= k < n,
        is_clock_line(netlist, k),
    ensures
        exists|j: int|
            0 <= j < buses.len() && (#[trigger] buses[j]).derived_name == bus_name(
                netlist.nets.keys@[k]@,
            ),
    decreases n,
{
    if is_clock_line(netlist, n - 1) {
        if k == n - 1 {
            assert(buses[buses.len() - 1].derived_name == bus_name(netlist.nets.keys@[k]@));
        } else {
            lemma_discovered_has(netlist, buses.drop_last(), (n - 1) as nat, k);
            let j = choose|j: int|
                0 <= j < buses.drop_last().len() && (#[trigger] buses.drop_last()[j]).derived_name
                    == bus_name(netlist.nets.keys@[k]@);
            assert(buses[j] == buses.drop_last()[j]);
        }
    } else {
        lemma_discovered_has(netlist, buses, (n - 1) as nat, k);
    }
}

/// Finding the buses of one netlist again gives the same buses and the
/// same segments: what accounts for one result accounts for the other.
pub proof fn lemma_found_again(
    netlist: &Netlist,
    first: I2cBuses,
    first_before: Seq<I2cDiagnosticView>,
    first_after: Seq<I2cDiagnosticView>,
    first_found: Seq<I2cBus>,
    second: I2cBuses,
    second_before: Seq<I2cDiagnosticView>,
    second_after: Seq<I2cDiagnosticView>,
    second_found: Seq<I2cBus>,
)
    requires
        accounted(netlist, first_before, first_after, first, first_found),
        accounted(netlist, second_before, second_after, second, second_found),
    ensures
        buses_view(first.by_name.values@) == buses_view(second.by_name.values@),
        segments_view(first.direct_segments@) == segments_view(second.direct_segments@),
        segments_view(first.same_bus_segments@) == segments_view(second.same_bus_segments@),
{
    lemma_discovered_once(
        netlist,
        buses_view(first_found),
        buses_view(second_found),
        netlist.nets.keys@.len(),
    );
    assert(buses_view(first.by_name.values@).len() == first.by_name.values@.len());
    assert(buses_view(second.by_name.values@).len() == second.by_name.values@.len());
}

/// The bus of a clock line stands under the name that the line gives, with
/// the line as its clock line and the line beside it as its data line, where
/// no other clock line gives that name and no bus made for a link has it.
pub proof fn lemma_bus_of_clock_line(
    netlist: &Netlist,
    r: I2cBuses,
    before: Seq<I2cDiagnosticView>,
    after: Seq<I2cDiagnosticView>,
    found: Seq<I2cBus>,
    k: int,
)
    requires
        accounted(netlist, before, after, r, found),
        r.by_name.wf(),
        keyed_by_name(r.by_name),
        0 <= k < netlist.nets.keys@.len(),
        is_clock_line(netlist, k),
        r.by_name.has_key(bus_name(netlist.nets.keys@[k]@)),
        forall|j: int|
            0 <= j < netlist.nets.keys@.len() && #[trigger] is_clock_line(netlist, j) && bus_name(
                netlist.nets.keys@[j]@,
            ) == bus_name(netlist.nets.keys@[k]@) ==> j == k,
        forall|m: int|
            0 <= m < links_of(netlist, buses_view(found)).len() ==> (#[trigger] links_of(
                netlist,
                buses_view(found),
            )[m]).target != bus_name(netlist.nets.keys@[k]@),
    ensures
        r.by_name.value_of(bus_name(netlist.nets.keys@[k]@))@.scl_net == netlist.nets.keys@[k]@,
        r.by_name.value_of(bus_name(netlist.nets.keys@[k]@))@.sda_net == companion(
            netlist.nets.keys@[k]@,
        ),
{
    let name = bus_name(netlist.nets.keys@[k]@);
    let links = links_of(netlist, buses_view(found));
    let i = r.by_name.index_of(name);
    let bus = r.by_name.values@[i]@;
    assert(r.by_name.keys@[i]@ == name);
    assert(bus.derived_name == name);
    assert(from_lines(netlist, bus) || made_for(links, bus));
    if made_for(links, bus) {
        let j = choose|j: int| 0 <= j < links.len() && same_frame((#[trigger] links[j]).built, bus);
        lemma_target_of_made(netlist, buses_view(found), found.len(), 0, j);
        assert(buses_view(found).len() == found.len());
        assert(links[j].target == name);
    }
    let j = choose|j: int|
        0 <= j < netlist.nets.keys@.len() && #[trigger] is_clock_line(netlist, j) && bus.derived_name
            == bus_name(netlist.nets.keys@[j]@) && bus.scl_net == netlist.nets.keys@[j]@
            && bus.sda_net == companion(netlist.nets.keys@[j]@);
    assert(j == k);
}

} // verus!
