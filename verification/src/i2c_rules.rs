//! Rules checked on the buses once they are known: pull-ups per direct
//! segment, and nodes whose role stayed unknown.
use vstd::prelude::*;
use crate::collections::{Dict, Key, KeySet};
use crate::i2c_model::{
    diagnostics_view, report, I2cBus, I2cBuses, I2cDiagnostic, I2cDiagnosticKind,
    I2cDiagnosticKindView, I2cDiagnosticView, I2cNode, I2cNodeView, I2cPullUp, I2cPullUpView,
};
use crate::model::Net;
use crate::names::{spec_is_resistor, Designator, NetName};
use crate::netlist::Netlist;

verus! {

/// The findings on the first `m` nodes of a bus: one for each node whose
/// role is unknown.
pub open spec fn unknown_nodes_of(bus: Seq<char>, nodes: Seq<I2cNode>, m: nat) -> Seq<
    I2cDiagnosticView,
>
    decreases m,
{
    if m == 0 {
        Seq::empty()
    } else {
        let before = unknown_nodes_of(bus, nodes, (m - 1) as nat);
        match nodes[m - 1]@ {
            I2cNodeView::Unknown(d) => before.push(
                I2cDiagnosticView {
                    derived_name: bus,
                    kind: I2cDiagnosticKindView::UnknownNode { designator: d },
                },
            ),
            _ => before,
        }
    }
}

/// The findings on the unknown nodes of the first `n` buses, in order.
pub open spec fn unknown_nodes(by_name: Dict<String, I2cBus>, n: nat) -> Seq<I2cDiagnosticView>
    decreases n,
{
    if n == 0 {
        Seq::empty()
    } else {
        unknown_nodes(by_name, (n - 1) as nat) + unknown_nodes_of(
            by_name.keys@[n - 1]@,
            by_name.values@[n - 1].nodes@,
            by_name.values@[n - 1].nodes@.len(),
        )
    }
}

/// The node at position `j` of the net is the first that belongs to a
/// resistor other than the two of the pull-up.
pub open spec fn third_resistor_at(net: Net, p: I2cPullUpView, j: int) -> bool {
    &&& 0 <= j < net.nodes.items@.len()
    &&& other_resistor(net.nodes.items@[j].designator@, p)
    &&& forall|k: int| 0 <= k < j ==> !other_resistor((#[trigger] net.nodes.items@[k]).designator@, p)
}

/// `d` is a resistor other than the two of the pull-up.
pub open spec fn other_resistor(d: Seq<char>, p: I2cPullUpView) -> bool {
    spec_is_resistor(d) && d != p.scl && d != p.sda
}

/// The net at position `i` is the first, other than the net named
/// `except`, that holds a pin of the part `d`.
pub open spec fn first_other_net_at(netlist: &Netlist, d: Seq<char>, except: Seq<char>, i: int) -> bool {
    &&& 0 <= i < netlist.nets.keys@.len()
    &&& other_net_of(netlist, d, except, i)
    &&& forall|k: int| 0 <= k < i ==> !other_net_of(netlist, d, except, k)
}

/// The net at position `i` holds a pin of the part `d` and is not named `except`.
pub open spec fn other_net_of(netlist: &Netlist, d: Seq<char>, except: Seq<char>, i: int) -> bool {
    netlist.nets.values@[i].touches(d) && netlist.nets.keys@[i]@ != except
}

/// The net that the pull-up pulls to holds three nodes, and the third is a
/// resistor whose first other net holds nothing but that resistor.
pub open spec fn third_dangles(netlist: &Netlist, p: I2cPullUpView) -> bool {
    let net = netlist.nets.value_of(p.v_net);
    exists|j: int, i: int|
        #![trigger third_resistor_at(net, p, j), first_other_net_at(netlist, net.nodes.items@[j].designator@, p.v_net, i)]
        third_resistor_at(net, p, j) && first_other_net_at(
            netlist,
            net.nodes.items@[j].designator@,
            p.v_net,
            i,
        ) && netlist.nets.values@[i].nodes.items@.len() == 1
}

/// The pull-up pulls to nowhere: its net holds only its two resistors, or
/// these and a third resistor that leads to a net with nothing else on it.
pub open spec fn pulls_to_nowhere(netlist: &Netlist, p: I2cPullUpView) -> bool {
    netlist.has_net(p.v_net) && {
        let count = netlist.nets.value_of(p.v_net).nodes.items@.len();
        count == 2 || (count == 3 && third_dangles(netlist, p))
    }
}

/// What the buses of a segment add up to.
pub struct Tally {
    /// How many buses of the segment have a pull-up.
    pub count: nat,
    /// The resistors of all these pull-ups.
    pub pull_ups: Set<Seq<char>>,
    /// The findings on pull-ups that pull to nowhere.
    pub findings: Seq<I2cDiagnosticView>,
}

/// The tally over the first `m` names of a segment. A name that is not
/// that of a bus adds nothing. `first` is the name under which findings are
/// reported.
pub open spec fn tally(
    netlist: &Netlist,
    by_name: Dict<String, I2cBus>,
    segment: Seq<String>,
    first: Seq<char>,
    m: nat,
) -> Tally
    decreases m,
{
    if m == 0 {
        Tally { count: 0, pull_ups: Set::empty(), findings: Seq::empty() }
    } else {
        let before = tally(netlist, by_name, segment, first, (m - 1) as nat);
        let name = segment[m - 1]@;
        if by_name.has_key(name) && by_name.value_of(name).pull_up is Some {
            let p = by_name.value_of(name).pull_up->0@;
            Tally {
                count: before.count + 1,
                pull_ups: before.pull_ups.insert(p.scl).insert(p.sda),
                findings: if pulls_to_nowhere(netlist, p) {
                    before.findings.push(
                        I2cDiagnosticView {
                            derived_name: first,
                            kind: I2cDiagnosticKindView::PullUpToNowhere,
                        },
                    )
                } else {
                    before.findings
                },
            }
        } else {
            before
        }
    }
}

/// The name under which the findings on a segment are reported: its first
/// name, or the empty name where it has none.
pub open spec fn segment_name(segment: Seq<String>) -> Seq<char> {
    if segment.len() > 0 {
        segment[0]@
    } else {
        Seq::empty()
    }
}

/// The findings on one direct segment: those on pull-ups to nowhere, then
/// one where no bus of the segment has a pull-up, or one where more than one has.
pub open spec fn segment_diagnostics(
    netlist: &Netlist,
    by_name: Dict<String, I2cBus>,
    segment: Seq<String>,
) -> Seq<I2cDiagnosticView> {
    let first = segment_name(segment);
    let t = tally(netlist, by_name, segment, first, segment.len());
    if t.count == 0 {
        t.findings.push(
            I2cDiagnosticView { derived_name: first, kind: I2cDiagnosticKindView::NoPullUps },
        )
    } else if t.count > 1 {
        t.findings.push(
            I2cDiagnosticView {
                derived_name: first,
                kind: I2cDiagnosticKindView::RedundantPullUps { redundant_pull_ups: t.pull_ups },
            },
        )
    } else {
        t.findings
    }
}

/// The findings on the first `n` direct segments, in order.
pub open spec fn pull_up_diagnostics(
    netlist: &Netlist,
    by_name: Dict<String, I2cBus>,
    segments: Seq<KeySet<String>>,
    n: nat,
) -> Seq<I2cDiagnosticView>
    decreases n,
{
    if n == 0 {
        Seq::empty()
    } else {
        pull_up_diagnostics(netlist, by_name, segments, (n - 1) as nat) + segment_diagnostics(
            netlist,
            by_name,
            segments[n - 1].items@,
        )
    }
}

/// The position of the first node of the net that belongs to a resistor
/// other than the two of the pull-up.
fn third_resistor(net: &Net, pull_up: &I2cPullUp) -> (r: Option<usize>)
    ensures
        match r {
            Some(j) => third_resistor_at(*net, pull_up@, j as int),
            None => forall|j: int| !third_resistor_at(*net, pull_up@, j),
        },
{
    let mut j: usize = 0;
    while j < net.nodes.items.len()
        invariant
            j <= net.nodes.items@.len(),
            forall|k: int|
                0 <= k < j ==> !other_resistor(
                    (#[trigger] net.nodes.items@[k]).designator@,
                    pull_up@,
                ),
        decreases net.nodes.items@.len() - j,
    {
        let d = &net.nodes.items[j].designator;
        if d.is_resistor() && !d.same(&pull_up.scl) && !d.same(&pull_up.sda) {
            return Some(j);
        }
        j = j + 1;
    }
    None
}

/// The position of the first net, other than `except`, that holds a pin of the part.
pub fn first_other_net(netlist: &Netlist, part: &Designator, except: &NetName) -> (r: Option<usize>)
    requires
        netlist.wf(),
    ensures
        match r {
            Some(i) => first_other_net_at(netlist, part@, except@, i as int),
            None => forall|i: int| !first_other_net_at(netlist, part@, except@, i),
        },
{
    let mut i: usize = 0;
    while i < netlist.nets.len()
        invariant
            netlist.wf(),
            i <= netlist.nets.keys@.len(),
            forall|k: int| 0 <= k < i ==> !other_net_of(netlist, part@, except@, k),
        decreases netlist.nets.keys@.len() - i,
    {
        if netlist.nets.value_at(i).touches_part(part) && !netlist.nets.key_at(i).same(except) {
            return Some(i);
        }
        i = i + 1;
    }
    None
}

/// Whether the pull-up pulls to nowhere.
pub fn pull_up_to_nowhere(netlist: &Netlist, pull_up: &I2cPullUp) -> (r: bool)
    requires
        netlist.wf(),
    ensures
        r == pulls_to_nowhere(netlist, pull_up@),
{
    let Some(net) = netlist.nets.get(&pull_up.v_net) else {
        return false;
    };
    let count = net.nodes.items.len();
    if count == 2 {
        return true;
    }
    if count != 3 {
        return false;
    }
    let Some(j) = third_resistor(net, pull_up) else {
        return false;
    };
    let third = &net.nodes.items[j].designator;
    let Some(i) = first_other_net(netlist, third, &pull_up.v_net) else {
        proof {
            assert forall|j2: int, i2: int|
                #![trigger third_resistor_at(*net, pull_up@, j2), first_other_net_at(netlist, net.nodes.items@[j2].designator@, pull_up@.v_net, i2)]
                !(third_resistor_at(*net, pull_up@, j2) && first_other_net_at(
                    netlist,
                    net.nodes.items@[j2].designator@,
                    pull_up@.v_net,
                    i2,
                )) by {
                if third_resistor_at(*net, pull_up@, j2) {
                    assert(j2 == j);
                }
            }
        }
        return false;
    };
    let dangling = netlist.nets.value_at(i).nodes.items.len() == 1;
    proof {
        if third_dangles(netlist, pull_up@) {
            let (j2, i2) = choose|j2: int, i2: int|
                #![trigger third_resistor_at(*net, pull_up@, j2), first_other_net_at(netlist, net.nodes.items@[j2].designator@, pull_up@.v_net, i2)]
                third_resistor_at(*net, pull_up@, j2) && first_other_net_at(
                    netlist,
                    net.nodes.items@[j2].designator@,
                    pull_up@.v_net,
                    i2,
                ) && netlist.nets.values@[i2].nodes.items@.len() == 1;
            assert(j2 == j);
            assert(i2 == i);
        }
    }
    dangling
}

impl I2cBuses {
    /// Reports every node whose role stayed unknown, bus by bus.
    pub fn warning_unknown_nodes(&self, diagnostics: &mut Vec<I2cDiagnostic>)
        requires
            self.by_name.wf(),
        ensures
            diagnostics_view(final(diagnostics)@) == diagnostics_view(old(diagnostics)@)
                + unknown_nodes(self.by_name, self.by_name.keys@.len()),
    {
        let ghost before = diagnostics_view(diagnostics@);
        assert(diagnostics_view(diagnostics@) =~= before + unknown_nodes(self.by_name, 0));
        let mut i: usize = 0;
        while i < self.by_name.len()
            invariant
                self.by_name.wf(),
                i <= self.by_name.keys@.len(),
                diagnostics_view(diagnostics@) == before + unknown_nodes(self.by_name, i as nat),
            decreases self.by_name.keys@.len() - i,
        {
            let bus_name = self.by_name.key_at(i);
            let bus = self.by_name.value_at(i);
            let ghost outer = diagnostics_view(diagnostics@);
            assert(diagnostics_view(diagnostics@) =~= outer + unknown_nodes_of(
                bus_name@,
                bus.nodes@,
                0,
            ));
            let mut m: usize = 0;
            while m < bus.nodes.len()
                invariant
                    m <= bus.nodes@.len(),
                    diagnostics_view(diagnostics@) == outer + unknown_nodes_of(
                        bus_name@,
                        bus.nodes@,
                        m as nat,
                    ),
                decreases bus.nodes@.len() - m,
            {
                let ghost inner = diagnostics_view(diagnostics@);
                if let I2cNode::Unknown(designator) = &bus.nodes[m] {
                    report(
                        diagnostics,
                        bus_name.as_str(),
                        I2cDiagnosticKind::UnknownNode { designator: designator.clone() },
                    );
                }
                assert(diagnostics_view(diagnostics@) =~= outer + unknown_nodes_of(
                    bus_name@,
                    bus.nodes@,
                    (m + 1) as nat,
                ));
                m = m + 1;
            }
            assert(diagnostics_view(diagnostics@) =~= before + unknown_nodes(
                self.by_name,
                (i + 1) as nat,
            ));
            i = i + 1;
        }
    }

    /// Checks the pull-ups of every direct segment: there must be exactly
    /// one bus with pull-ups in it, and these must pull to somewhere.
    pub fn check_pull_ups(&self, netlist: &Netlist, diagnostics: &mut Vec<I2cDiagnostic>)
        requires
            netlist.wf(),
            self.by_name.wf(),
        ensures
            diagnostics_view(final(diagnostics)@) == diagnostics_view(old(diagnostics)@)
                + pull_up_diagnostics(
                netlist,
                self.by_name,
                self.direct_segments@,
                self.direct_segments@.len(),
            ),
    {
        let ghost before = diagnostics_view(diagnostics@);
        assert(diagnostics_view(diagnostics@) =~= before + pull_up_diagnostics(
            netlist,
            self.by_name,
            self.direct_segments@,
            0,
        ));
        let mut i: usize = 0;
        while i < self.direct_segments.len()
            invariant
                netlist.wf(),
                self.by_name.wf(),
                i <= self.direct_segments@.len(),
                diagnostics_view(diagnostics@) == before + pull_up_diagnostics(
                    netlist,
                    self.by_name,
                    self.direct_segments@,
                    i as nat,
                ),
            decreases self.direct_segments@.len() - i,
        {
            self.check_segment(netlist, &self.direct_segments[i], diagnostics);
            assert(diagnostics_view(diagnostics@) =~= before + pull_up_diagnostics(
                netlist,
                self.by_name,
                self.direct_segments@,
                (i + 1) as nat,
            ));
            i = i + 1;
        }
    }

    /// Checks the pull-ups of one direct segment.
    fn check_segment(
        &self,
        netlist: &Netlist,
        segment: &KeySet<String>,
        diagnostics: &mut Vec<I2cDiagnostic>,
    )
        requires
            netlist.wf(),
            self.by_name.wf(),
        ensures
            diagnostics_view(final(diagnostics)@) == diagnostics_view(old(diagnostics)@)
                + segment_diagnostics(netlist, self.by_name, segment.items@),
    {
        let ghost before = diagnostics_view(diagnostics@);
        let first = if segment.items.len() > 0 {
            segment.items[0].clone()
        } else {
            String::new()
        };
        assert(first@ == segment_name(segment.items@));
        let mut count: usize = 0;
        let mut pull_ups: KeySet<Designator> = KeySet::new();
        let mut m: usize = 0;
        assert(pull_ups.as_set() =~= Set::<Seq<char>>::empty());
        assert(diagnostics_view(diagnostics@) =~= before + tally(
            netlist,
            self.by_name,
            segment.items@,
            first@,
            0,
        ).findings);
        while m < segment.items.len()
            invariant
                netlist.wf(),
                self.by_name.wf(),
                pull_ups.wf(),
                m <= segment.items@.len(),
                count <= m,
                count == tally(netlist, self.by_name, segment.items@, first@, m as nat).count,
                pull_ups.as_set() == tally(
                    netlist,
                    self.by_name,
                    segment.items@,
                    first@,
                    m as nat,
                ).pull_ups,
                diagnostics_view(diagnostics@) == before + tally(
                    netlist,
                    self.by_name,
                    segment.items@,
                    first@,
                    m as nat,
                ).findings,
            decreases segment.items@.len() - m,
        {
            let ghost t0 = tally(netlist, self.by_name, segment.items@, first@, m as nat);
            let ghost t1 = tally(netlist, self.by_name, segment.items@, first@, (m + 1) as nat);
            if let Some(bus) = self.by_name.get(&segment.items[m]) {
                if let Some(pull_up) = &bus.pull_up {
                    let ghost set0 = pull_ups.as_set();
                    pull_ups.insert(pull_up.scl.clone());
                    pull_ups.insert(pull_up.sda.clone());
                    assert(pull_ups.as_set() =~= set0.insert(pull_up.scl@).insert(pull_up.sda@));
                    if pull_up_to_nowhere(netlist, pull_up) {
                        report(diagnostics, first.as_str(), I2cDiagnosticKind::PullUpToNowhere);
                    }
                    count = count + 1;
                }
            }
            assert(count == t1.count);
            assert(pull_ups.as_set() == t1.pull_ups);
            assert(diagnostics_view(diagnostics@) =~= before + t1.findings);
            m = m + 1;
        }
        let ghost t = tally(netlist, self.by_name, segment.items@, first@, segment.items@.len());
        if count == 0 {
            report(diagnostics, first.as_str(), I2cDiagnosticKind::NoPullUps);
        } else if count > 1 {
            report(
                diagnostics,
                first.as_str(),
                I2cDiagnosticKind::RedundantPullUps { redundant_pull_ups: pull_ups },
            );
        }
        assert(diagnostics_view(diagnostics@) =~= before + segment_diagnostics(
            netlist,
            self.by_name,
            segment.items@,
        ));
    }
}

} // verus!
