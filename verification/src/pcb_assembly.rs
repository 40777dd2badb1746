//! A board with all that is known of it.
use vstd::prelude::*;
use crate::collections::Dict;
use crate::names::Designator;
use crate::netlist::Netlist;
use crate::pnp::ComponentPosition;

verus! {

/// A board: its name, its netlist and the positions of its parts.
#[derive(Debug)]
pub struct PcbAssembly {
    pub name: String,
    pub netlist: Netlist,
    pub pnp: Dict<Designator, ComponentPosition>,
}

impl PcbAssembly {
    /// The netlist is well formed, and no part has two positions.
    pub open spec fn wf(&self) -> bool {
        self.netlist.wf() && self.pnp.wf()
    }

    /// A board of the given name and netlist, with no positions known.
    pub fn new(name: String, netlist: Netlist) -> (r: Self)
        requires
            netlist.wf(),
        ensures
            r.wf(),
            r.name == name,
            r.netlist == netlist,
            r.pnp.keys@.len() == 0,
    {
        PcbAssembly { name, netlist, pnp: Dict::new() }
    }
}

} // verus!
