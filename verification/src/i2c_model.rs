//! I2C buses, their nodes, and the findings about them.
use vstd::prelude::*;
use crate::collections::{Dict, Key, KeySet};
use crate::names::{Designator, NetName};
use crate::passive_value::Ohm;

verus! {

/// The two resistors that pull the lines of a bus up, and the net they pull to.
#[derive(Debug)]
pub struct I2cPullUp {
    pub scl: Designator,
    pub sda: Designator,
    pub v_net: NetName,
}

/// What a pull-up is, in characters.
pub struct I2cPullUpView {
    pub scl: Seq<char>,
    pub sda: Seq<char>,
    pub v_net: Seq<char>,
}

impl View for I2cPullUp {
    type V = I2cPullUpView;

    open spec fn view(&self) -> I2cPullUpView {
        I2cPullUpView { scl: self.scl@, sda: self.sda@, v_net: self.v_net@ }
    }
}

impl Clone for I2cPullUp {
    fn clone(&self) -> (r: Self)
        ensures
            r@ == self@,
    {
        I2cPullUp { scl: self.scl.clone(), sda: self.sda.clone(), v_net: self.v_net.clone() }
    }
}

/// The view of an optional pull-up.
pub open spec fn pull_up_view(p: Option<I2cPullUp>) -> Option<I2cPullUpView> {
    match p {
        Some(p) => Some(p@),
        None => None,
    }
}

/// A part on a bus, by the role it plays there.
#[derive(Debug)]
pub enum I2cNode {
    Device(Designator),
    VoltageTranslator { part: Designator, other_side: String },
    VoltageTranslatorDiscrete { scl_fet: Designator, sda_fet: Designator, other_side: String },
    Connector(Designator),
    /// 0R, net tie, solder tie
    Tie { scl_tie: Designator, sda_tie: Designator, other_side: String },
    TestPoint(Designator),
    Unknown(Designator),
}

/// What a node is, in characters.
pub enum I2cNodeView {
    Device(Seq<char>),
    VoltageTranslator { part: Seq<char>, other_side: Seq<char> },
    VoltageTranslatorDiscrete { scl_fet: Seq<char>, sda_fet: Seq<char>, other_side: Seq<char> },
    Connector(Seq<char>),
    Tie { scl_tie: Seq<char>, sda_tie: Seq<char>, other_side: Seq<char> },
    TestPoint(Seq<char>),
    Unknown(Seq<char>),
}

impl View for I2cNode {
    type V = I2cNodeView;

    open spec fn view(&self) -> I2cNodeView {
        match *self {
            I2cNode::Device(d) => I2cNodeView::Device(d@),
            I2cNode::VoltageTranslator { part, other_side } => I2cNodeView::VoltageTranslator {
                part: part@,
                other_side: other_side@,
            },
            I2cNode::VoltageTranslatorDiscrete {
                scl_fet,
                sda_fet,
                other_side,
            } => I2cNodeView::VoltageTranslatorDiscrete {
                scl_fet: scl_fet@,
                sda_fet: sda_fet@,
                other_side: other_side@,
            },
            I2cNode::Connector(d) => I2cNodeView::Connector(d@),
            I2cNode::Tie { scl_tie, sda_tie, other_side } => I2cNodeView::Tie {
                scl_tie: scl_tie@,
                sda_tie: sda_tie@,
                other_side: other_side@,
            },
            I2cNode::TestPoint(d) => I2cNodeView::TestPoint(d@),
            I2cNode::Unknown(d) => I2cNodeView::Unknown(d@),
        }
    }
}

impl I2cNodeView {
    /// The node is a tie or a discrete translator made of the part `d`.
    pub open spec fn mentions(self, d: Seq<char>) -> bool {
        match self {
            I2cNodeView::VoltageTranslatorDiscrete { scl_fet, sda_fet, .. } => scl_fet == d
                || sda_fet == d,
            I2cNodeView::Tie { scl_tie, sda_tie, .. } => scl_tie == d || sda_tie == d,
            _ => false,
        }
    }
}

impl Clone for I2cNode {
    fn clone(&self) -> (r: Self)
        ensures
            r@ == self@,
    {
        match self {
            I2cNode::Device(d) => I2cNode::Device(d.clone()),
            I2cNode::VoltageTranslator { part, other_side } => I2cNode::VoltageTranslator {
                part: part.clone(),
                other_side: other_side.clone(),
            },
            I2cNode::VoltageTranslatorDiscrete {
                scl_fet,
                sda_fet,
                other_side,
            } => I2cNode::VoltageTranslatorDiscrete {
                scl_fet: scl_fet.clone(),
                sda_fet: sda_fet.clone(),
                other_side: other_side.clone(),
            },
            I2cNode::Connector(d) => I2cNode::Connector(d.clone()),
            I2cNode::Tie { scl_tie, sda_tie, other_side } => I2cNode::Tie {
                scl_tie: scl_tie.clone(),
                sda_tie: sda_tie.clone(),
                other_side: other_side.clone(),
            },
            I2cNode::TestPoint(d) => I2cNode::TestPoint(d.clone()),
            I2cNode::Unknown(d) => I2cNode::Unknown(d.clone()),
        }
    }
}

impl I2cNode {
    /// Whether the node is a tie or a discrete translator made of the part.
    pub fn mentions_part(&self, designator: &Designator) -> (r: bool)
        ensures
            r == self@.mentions(designator@),
    {
        match self {
            I2cNode::VoltageTranslatorDiscrete { scl_fet, sda_fet, .. } => scl_fet.same(designator)
                || sda_fet.same(designator),
            I2cNode::Tie { scl_tie, sda_tie, .. } => scl_tie.same(designator) || sda_tie.same(
                designator,
            ),
            _ => false,
        }
    }
}

/// The views of a list of nodes.
pub open spec fn nodes_view(nodes: Seq<I2cNode>) -> Seq<I2cNodeView> {
    nodes.map_values(|n: I2cNode| n@)
}

/// A clock line and a data line, with the parts on them.
#[derive(Debug)]
pub struct I2cBus {
    pub derived_name: String,
    pub scl_net: NetName,
    pub sda_net: NetName,
    pub pull_up: Option<I2cPullUp>,
    pub nodes: Vec<I2cNode>,
}

/// What a bus is, in characters.
pub struct I2cBusView {
    pub derived_name: Seq<char>,
    pub scl_net: Seq<char>,
    pub sda_net: Seq<char>,
    pub pull_up: Option<I2cPullUpView>,
    pub nodes: Seq<I2cNodeView>,
}

impl View for I2cBus {
    type V = I2cBusView;

    open spec fn view(&self) -> I2cBusView {
        I2cBusView {
            derived_name: self.derived_name@,
            scl_net: self.scl_net@,
            sda_net: self.sda_net@,
            pull_up: pull_up_view(self.pull_up),
            nodes: nodes_view(self.nodes@),
        }
    }
}

/// The views of a list of buses.
pub open spec fn buses_view(buses: Seq<I2cBus>) -> Seq<I2cBusView> {
    buses.map_values(|b: I2cBus| b@)
}

/// A finding about a bus.
#[derive(Debug)]
pub enum I2cDiagnosticKind {
    RedundantPullUps { redundant_pull_ups: KeySet<Designator> },
    NoPullUps,
    PullUpToNowhere,
    WrongPullUpValue { parse_message: String },
    NonStandardPullUps { resistance: Ohm },
    NonEqualPullUps { scl_resistance: Ohm, sda_resistance: Ohm },
    TieTooHighValue { resistance: Ohm, other_side: String },
    UnknownNode { designator: Designator },
}

/// What a finding says, in characters and sets.
pub enum I2cDiagnosticKindView {
    RedundantPullUps { redundant_pull_ups: Set<Seq<char>> },
    NoPullUps,
    PullUpToNowhere,
    WrongPullUpValue { parse_message: Seq<char> },
    NonStandardPullUps { resistance: Ohm },
    NonEqualPullUps { scl_resistance: Ohm, sda_resistance: Ohm },
    TieTooHighValue { resistance: Ohm, other_side: Seq<char> },
    UnknownNode { designator: Seq<char> },
}

impl View for I2cDiagnosticKind {
    type V = I2cDiagnosticKindView;

    open spec fn view(&self) -> I2cDiagnosticKindView {
        match *self {
            I2cDiagnosticKind::RedundantPullUps {
                redundant_pull_ups,
            } => I2cDiagnosticKindView::RedundantPullUps {
                redundant_pull_ups: redundant_pull_ups.as_set(),
            },
            I2cDiagnosticKind::NoPullUps => I2cDiagnosticKindView::NoPullUps,
            I2cDiagnosticKind::PullUpToNowhere => I2cDiagnosticKindView::PullUpToNowhere,
            I2cDiagnosticKind::WrongPullUpValue {
                parse_message,
            } => I2cDiagnosticKindView::WrongPullUpValue { parse_message: parse_message@ },
            I2cDiagnosticKind::NonStandardPullUps {
                resistance,
            } => I2cDiagnosticKindView::NonStandardPullUps { resistance },
            I2cDiagnosticKind::NonEqualPullUps {
                scl_resistance,
                sda_resistance,
            } => I2cDiagnosticKindView::NonEqualPullUps { scl_resistance, sda_resistance },
            I2cDiagnosticKind::TieTooHighValue {
                resistance,
                other_side,
            } => I2cDiagnosticKindView::TieTooHighValue { resistance, other_side: other_side@ },
            I2cDiagnosticKind::UnknownNode {
                designator,
            } => I2cDiagnosticKindView::UnknownNode { designator: designator@ },
        }
    }
}

/// A finding, with the name of the bus it is about.
#[derive(Debug)]
pub struct I2cDiagnostic {
    pub derived_name: String,
    pub kind: I2cDiagnosticKind,
}

/// What a finding is, in characters and sets.
pub struct I2cDiagnosticView {
    pub derived_name: Seq<char>,
    pub kind: I2cDiagnosticKindView,
}

impl View for I2cDiagnostic {
    type V = I2cDiagnosticView;

    open spec fn view(&self) -> I2cDiagnosticView {
        I2cDiagnosticView { derived_name: self.derived_name@, kind: self.kind@ }
    }
}

/// The views of a list of findings.
pub open spec fn diagnostics_view(d: Seq<I2cDiagnostic>) -> Seq<I2cDiagnosticView> {
    d.map_values(|x: I2cDiagnostic| x@)
}

/// Appends one finding.
pub fn report(diagnostics: &mut Vec<I2cDiagnostic>, bus_name: &str, kind: I2cDiagnosticKind)
    ensures
        diagnostics_view(final(diagnostics)@) == diagnostics_view(old(diagnostics)@).push(
            I2cDiagnosticView { derived_name: bus_name@, kind: kind@ },
        ),
{
    let ghost before = diagnostics@;
    let d = I2cDiagnostic { derived_name: String::from_str(bus_name), kind };
    diagnostics.push(d);
    assert(diagnostics_view(diagnostics@) =~= diagnostics_view(before).push(
        I2cDiagnosticView { derived_name: bus_name@, kind: kind@ },
    ));
}

/// The buses of a board, and how they hang together.
#[derive(Debug)]
pub struct I2cBuses {
    pub by_name: Dict<String, I2cBus>,
    pub direct_segments: Vec<KeySet<String>>,
    pub same_bus_segments: Vec<KeySet<String>>,
}

} // verus!
