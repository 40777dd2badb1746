//! The netlist and its connectivity queries.
//!
//! The graph is held as adjacency through nets: every query walks the nets
//! and looks at their nodes.
use vstd::prelude::*;
use crate::collections::{seq_has, Dict, Key, KeySet};
use crate::model::{
    Component, ComponentView, LibName, LibPart, LibPartName, LibPartView, Net, NetView, PinType,
};
use crate::model::Node;
use crate::names::{spec_is_resistor, Designator, NetName, PinId, PinName};
use crate::passive_value::{
    parse_resistance_value, spec_parse_resistance, Ohm, PassiveValueParseError,
};

verus! {

/// The connectivity of a board: library parts, placed parts and nets.
#[derive(Debug)]
pub struct Netlist {
    pub lib_parts: Dict<(LibName, LibPartName), LibPart>,
    pub nets: Dict<NetName, Net>,
    pub components: Dict<Designator, Component>,
}

/// What a netlist holds, in characters: three maps.
pub struct NetlistView {
    pub lib_parts: Map<(Seq<char>, Seq<char>), LibPartView>,
    pub components: Map<Seq<char>, ComponentView>,
    pub nets: Map<Seq<char>, NetView>,
}

impl NetlistView {
    /// The view of a netlist that holds nothing.
    pub open spec fn empty() -> NetlistView {
        NetlistView { lib_parts: Map::empty(), components: Map::empty(), nets: Map::empty() }
    }

    /// The pin `p` of the part `d` is on the net `n`, the part and its
    /// library part are known, and the library part has no such pin.
    pub open spec fn breaks(self, n: Seq<char>, d: Seq<char>, p: Seq<char>) -> bool {
        &&& self.nets.dom().contains(n)
        &&& self.nets[n].nodes.contains((d, p))
        &&& self.components.dom().contains(d)
        &&& self.lib_parts.dom().contains(self.components[d].lib_source)
        &&& !self.lib_parts[self.components[d].lib_source].pins.dom().contains(p)
    }

    /// Every node of every net whose part and library part are known is a
    /// pin of that library part.
    pub open spec fn integral(self) -> bool {
        forall|n: Seq<char>, d: Seq<char>, p: Seq<char>| !#[trigger] self.breaks(n, d, p)
    }
}

impl View for Netlist {
    type V = NetlistView;

    open spec fn view(&self) -> NetlistView {
        NetlistView {
            lib_parts: self.lib_parts.map_of(|p: LibPart| p@),
            components: self.components.map_of(|c: Component| c@),
            nets: self.nets.map_of(|n: Net| n@),
        }
    }
}

/// Why a part has no resistance to give.
#[derive(Debug, PartialEq, Eq, Copy, Clone, Structural)]
pub enum ResistanceError {
    /// The designator is not that of a resistor.
    NotAResistor,
    /// No part has this designator.
    NotFound,
    /// The part's value is empty.
    NoValue,
    /// The part's value is not a resistance.
    Value(PassiveValueParseError),
}

impl ResistanceError {
    /// The error in words.
    pub open spec fn spec_message(self) -> Seq<char> {
        match self {
            ResistanceError::NotAResistor => "not a resistor"@,
            ResistanceError::NotFound => "part not found"@,
            ResistanceError::NoValue => "part has no value"@,
            ResistanceError::Value(PassiveValueParseError::Unrecognized) =>
                "unrecognized resistance value"@,
            ResistanceError::Value(PassiveValueParseError::OutOfRange) =>
                "resistance value out of range"@,
        }
    }

    /// The error in words.
    pub fn message(&self) -> (r: String)
        ensures
            r@ == self.spec_message(),
    {
        match self {
            ResistanceError::NotAResistor => String::from_str("not a resistor"),
            ResistanceError::NotFound => String::from_str("part not found"),
            ResistanceError::NoValue => String::from_str("part has no value"),
            ResistanceError::Value(e) => e.message(),
        }
    }
}

/// The view of an optional net name.
pub open spec fn name_view(n: Option<NetName>) -> Option<Seq<char>> {
    match n {
        Some(n) => Some(n@),
        None => None,
    }
}

/// Whether `t` is one of `types`.
pub open spec fn has_type(types: Seq<PinType>, t: PinType) -> bool {
    exists|k: int| 0 <= k < types.len() && #[trigger] types[k] == t
}

/// Whether `name` is one of the pin names `names`.
pub open spec fn has_pin_name(names: Seq<&PinName>, name: Seq<char>) -> bool {
    exists|k: int| 0 <= k < names.len() && (#[trigger] names[k])@ == name
}

/// Whether `t` is one of `types`.
pub fn type_in(types: &[PinType], t: PinType) -> (r: bool)
    ensures
        r == has_type(types@, t),
{
    let mut k: usize = 0;
    while k < types.len()
        invariant
            k <= types@.len(),
            forall|m: int| 0 <= m < k ==> types@[m] != t,
        decreases types@.len() - k,
    {
        if types[k] == t {
            return true;
        }
        k = k + 1;
    }
    false
}

/// Whether `name` is one of the pin names `names`.
pub fn pin_name_in(names: &[&PinName], name: &PinName) -> (r: bool)
    ensures
        r == has_pin_name(names@, name@),
{
    let mut k: usize = 0;
    while k < names.len()
        invariant
            k <= names@.len(),
            forall|m: int| 0 <= m < k ==> names@[m]@ != name@,
        decreases names@.len() - k,
    {
        if names[k].same(name) {
            return true;
        }
        k = k + 1;
    }
    false
}

impl Netlist {
    /// The three maps have unique keys, and so have the maps and sets inside
    /// every entry.
    pub open spec fn wf(&self) -> bool {
        &&& self.lib_parts.wf()
        &&& self.nets.wf()
        &&& self.components.wf()
        &&& forall|i: int| 0 <= i < self.nets.values@.len() ==> (#[trigger] self.nets.values@[i]).wf()
        &&& forall|i: int|
            0 <= i < self.lib_parts.values@.len() ==> (#[trigger] self.lib_parts.values@[i]).wf()
        &&& forall|i: int|
            0 <= i < self.components.values@.len() ==> (#[trigger] self.components.values@[i]).wf()
    }

    /// A net named `n` exists.
    pub open spec fn has_net(&self, n: Seq<char>) -> bool {
        self.nets.has_key(n)
    }

    /// The pin `p` of part `d` is on the net named `n`.
    pub open spec fn node_on_net(&self, n: Seq<char>, d: Seq<char>, p: Seq<char>) -> bool {
        self.has_net(n) && self.nets.value_of(n).has_node(d, p)
    }

    /// Some pin of part `d` is on the net named `n`.
    pub open spec fn on_net(&self, n: Seq<char>, d: Seq<char>) -> bool {
        self.has_net(n) && self.nets.value_of(n).touches(d)
    }

    /// Some net holds pins of both parts.
    pub open spec fn connected(&self, a: Seq<char>, b: Seq<char>) -> bool {
        exists|n: Seq<char>| #[trigger] self.on_net(n, a) && self.on_net(n, b)
    }

    /// The names of the nets that hold pins of both parts.
    pub open spec fn common_nets(&self, a: Seq<char>, b: Seq<char>) -> Set<Seq<char>> {
        Set::new(|n: Seq<char>| self.on_net(n, a) && self.on_net(n, b))
    }

    /// The net at position `i` is the first, in the order of the netlist,
    /// that holds the pin `p` of part `d`.
    pub open spec fn first_net_of_pin(&self, d: Seq<char>, p: Seq<char>, i: int) -> bool {
        &&& 0 <= i < self.nets.keys@.len()
        &&& self.nets.values@[i].has_node(d, p)
        &&& forall|j: int| 0 <= j < i ==> !(#[trigger] self.nets.values@[j]).has_node(d, p)
    }

    /// The name of the first net that holds the pin `p` of part `d`.
    pub open spec fn spec_pin_net(&self, d: Seq<char>, p: Seq<char>) -> Option<Seq<char>> {
        if exists|i: int| self.first_net_of_pin(d, p, i) {
            Some(self.nets.keys@[choose|i: int| self.first_net_of_pin(d, p, i)]@)
        } else {
            None
        }
    }

    /// The net `n` is where a pin of one of `types` of some placed part attaches:
    /// the part at position `ci` resolves to a library part whose pin at position
    /// `pi` has such a default type, and `n` is the net of that pin.
    pub open spec fn typed_pin_on_net(
        &self,
        types: Seq<PinType>,
        ci: int,
        pi: int,
        n: Seq<char>,
    ) -> bool {
        &&& 0 <= ci < self.components.keys@.len()
        &&& self.lib_parts.has_key(self.components.values@[ci].lib_source@)
        &&& {
            let part = self.lib_parts.value_of(self.components.values@[ci].lib_source@);
            &&& 0 <= pi < part.pins.keys@.len()
            &&& has_type(types, part.pins.values@[pi].default_mode.ty)
            &&& self.spec_pin_net(self.components.keys@[ci]@, part.pins.keys@[pi]@) == Some(n)
        }
    }

    /// Some pin of one of `types` of some placed part attaches to the net `n`.
    pub open spec fn typed_net(&self, types: Seq<PinType>, n: Seq<char>) -> bool {
        exists|ci: int, pi: int| self.typed_pin_on_net(types, ci, pi, n)
    }

    /// The net of a typed pin is a net of the netlist.
    pub proof fn lemma_typed_pin_net_exists(
        &self,
        types: Seq<PinType>,
        ci: int,
        pi: int,
        n: Seq<char>,
    )
        requires
            self.wf(),
            self.typed_pin_on_net(types, ci, pi, n),
        ensures
            self.has_net(n),
    {
        let part = self.lib_parts.value_of(self.components.values@[ci].lib_source@);
        let d = self.components.keys@[ci]@;
        let p = part.pins.keys@[pi]@;
        let i = choose|i: int| self.first_net_of_pin(d, p, i);
        self.lemma_net_at(i);
    }

    /// The name of the library pin that the node at position `j` of the net
    /// named `n` resolves to, where that node is a pin of part `d` and resolves
    /// through the part and its library part.
    pub open spec fn pin_name_on_net(&self, n: Seq<char>, j: int, d: Seq<char>) -> Option<Seq<char>> {
        if self.has_net(n) && 0 <= j < self.nets.value_of(n).nodes.items@.len()
            && self.nets.value_of(n).nodes.items@[j].designator@ == d && self.components.has_key(d)
            && self.lib_parts.has_key(self.components.value_of(d).lib_source@)
            && self.lib_parts.value_of(self.components.value_of(d).lib_source@).pins.has_key(
            self.nets.value_of(n).nodes.items@[j].pin_id@,
        ) {
            Some(
                self.lib_parts.value_of(self.components.value_of(d).lib_source@).pins.value_of(
                    self.nets.value_of(n).nodes.items@[j].pin_id@,
                ).name@,
            )
        } else {
            None
        }
    }

    /// The node at position `j` of the net named `n` is a pin of part `d` that
    /// resolves, through the part and its library part, to a pin whose name is
    /// not among `exclude`.
    pub open spec fn named_pin_on_net(
        &self,
        n: Seq<char>,
        j: int,
        d: Seq<char>,
        exclude: Seq<&PinName>,
    ) -> bool {
        self.pin_name_on_net(n, j, d) matches Some(name) && !has_pin_name(exclude, name)
    }

    /// The resistance of the part `d`: it must be labelled as a resistor, exist,
    /// and have a value that reads as a resistance.
    pub open spec fn spec_resistance(&self, d: Seq<char>) -> Result<Ohm, ResistanceError> {
        if !spec_is_resistor(d) {
            Err(ResistanceError::NotAResistor)
        } else if !self.components.has_key(d) {
            Err(ResistanceError::NotFound)
        } else if self.components.value_of(d).value@.len() == 0 {
            Err(ResistanceError::NoValue)
        } else {
            match spec_parse_resistance(self.components.value_of(d).value@) {
                Ok(parsed) => Ok(parsed.0),
                Err(e) => Err(ResistanceError::Value(e)),
            }
        }
    }

    /// The pin `p` of the part `d` dangles: the part and its library part
    /// are known, but the library part has no such pin.
    pub open spec fn dangles(&self, d: Seq<char>, p: Seq<char>) -> bool {
        &&& self.components.has_key(d)
        &&& self.lib_parts.has_key(self.components.value_of(d).lib_source@)
        &&& !self.lib_parts.value_of(self.components.value_of(d).lib_source@).pins.has_key(p)
    }

    /// Every node of every net whose part and library part are known is a
    /// pin of that library part.
    pub open spec fn referential_integrity(&self) -> bool {
        forall|n: Seq<char>, d: Seq<char>, p: Seq<char>| #[trigger]
            self.node_on_net(n, d, p) ==> !self.dangles(d, p)
    }

    /// Whether referential integrity holds can be read from what the
    /// netlist holds: it holds of the netlist exactly when it holds of its view.
    pub proof fn lemma_integrity_in_view(&self)
        requires
            self.wf(),
        ensures
            self.referential_integrity() == self@.integral(),
    {
        let v = self@;
        assert forall|n: Seq<char>, d: Seq<char>, p: Seq<char>|
            v.breaks(n, d, p) == (self.node_on_net(n, d, p) && self.dangles(d, p)) by {
            if self.components.has_key(d) {
                let source = self.components.value_of(d).lib_source;
                assert(v.components[d].lib_source == source@);
            }
        }
        if self.referential_integrity() {
            assert forall|n: Seq<char>, d: Seq<char>, p: Seq<char>| !#[trigger] v.breaks(n, d, p) by {
                assert(v.breaks(n, d, p) == (self.node_on_net(n, d, p) && self.dangles(d, p)));
            }
        }
        if v.integral() {
            assert forall|n: Seq<char>, d: Seq<char>, p: Seq<char>| #[trigger]
                self.node_on_net(n, d, p) implies !self.dangles(d, p) by {
                assert(!v.breaks(n, d, p));
                assert(v.breaks(n, d, p) == (self.node_on_net(n, d, p) && self.dangles(d, p)));
            }
        }
    }

    /// The entry at position `i` of the nets is the net of its name.
    pub proof fn lemma_net_at(&self, i: int)
        requires
            self.wf(),
            0 <= i < self.nets.keys@.len(),
        ensures
            self.has_net(self.nets.keys@[i]@),
            self.nets.index_of(self.nets.keys@[i]@) == i,
            self.nets.value_of(self.nets.keys@[i]@) == self.nets.values@[i],
            self.nets.values@[i].wf(),
    {
        self.nets.lemma_index_of(i);
    }

    /// A net that exists stands at some position.
    pub proof fn lemma_net_named(&self, n: Seq<char>) -> (i: int)
        requires
            self.wf(),
            self.has_net(n),
        ensures
            0 <= i < self.nets.keys@.len(),
            self.nets.keys@[i]@ == n,
            i == self.nets.index_of(n),
            self.nets.value_of(n) == self.nets.values@[i],
    {
        self.nets.index_of(n)
    }

    /// An empty netlist.
    pub fn new() -> (r: Self)
        ensures
            r.wf(),
            r@ == NetlistView::empty(),
            r.nets.keys@.len() == 0,
            r.components.keys@.len() == 0,
            r.lib_parts.keys@.len() == 0,
    {
        let r = Netlist { lib_parts: Dict::new(), nets: Dict::new(), components: Dict::new() };
        assert(r@.lib_parts =~= Map::empty());
        assert(r@.components =~= Map::empty());
        assert(r@.nets =~= Map::empty());
        r
    }

    /// Adds a net, unless one of that name is there: the first writer wins.
    /// Returns whether the net was added.
    pub fn insert_net(&mut self, name: NetName, net: Net) -> (added: bool)
        requires
            old(self).wf(),
            net.wf(),
        ensures
            final(self).wf(),
            added == !old(self).has_net(name@),
            final(self).components == old(self).components,
            final(self).lib_parts == old(self).lib_parts,
            !added ==> final(self).nets == old(self).nets,
            added ==> final(self).nets.keys@ == old(self).nets.keys@.push(name)
                && final(self).nets.values@ == old(self).nets.values@.push(net),
            forall|n: Seq<char>| #[trigger]
                final(self).nets.has_key(n) <==> (old(self).nets.has_key(n) || n == name@),
            added ==> final(self).nets.value_of(name@) == net,
            final(self)@ == (if old(self)@.nets.dom().contains(name@) {
                old(self)@
            } else {
                NetlistView { nets: old(self)@.nets.insert(name@, net@), ..old(self)@ }
            }),
            forall|n: Seq<char>| #[trigger]
                old(self).nets.has_key(n) ==> final(self).nets.value_of(n) == old(
                    self,
                ).nets.value_of(n),
    {
        let ghost before = self.nets.values@;
        let ghost nets = self.nets;
        let added = self.nets.insert_if_absent(name, net);
        proof {
            if added {
                Dict::lemma_insert_map(&nets, &self.nets, name@, net, |n: Net| n@);
            }
            assert forall|i: int| 0 <= i < self.nets.values@.len() implies (
            #[trigger] self.nets.values@[i]).wf() by {
                if i < before.len() {
                    assert(self.nets.values@[i] == before[i]);
                }
            }
        }
        added
    }

    /// Adds a part. A part that was there under the same designator is
    /// replaced and keeps its place; a new part comes last.
    pub fn insert_component(&mut self, designator: Designator, component: Component)
        requires
            old(self).wf(),
            component.wf(),
        ensures
            final(self).wf(),
            final(self).nets == old(self).nets,
            final(self).lib_parts == old(self).lib_parts,
            forall|d: Seq<char>|
                final(self).components.has_key(d) <==> (old(self).components.has_key(d) || d
                    == designator@),
            final(self).components.value_of(designator@) == component,
            final(self)@ == (NetlistView {
                components: old(self)@.components.insert(designator@, component@),
                ..old(self)@
            }),
            forall|d: Seq<char>|
                old(self).components.has_key(d) && d != designator@ ==> final(self).components.value_of(d)
                    == old(self).components.value_of(d),
            old(self).components.has_key(designator@) ==> final(self).components.keys@ == old(
                self,
            ).components.keys@ && final(self).components.values@ == old(
                self,
            ).components.values@.update(old(self).components.index_of(designator@), component),
            !old(self).components.has_key(designator@) ==> final(self).components.keys@ == old(
                self,
            ).components.keys@.push(designator) && final(self).components.values@ == old(
                self,
            ).components.values@.push(component),
    {
        let ghost before = self.components;
        self.components.insert(designator, component);
        proof {
            Dict::lemma_insert_map(
                &before,
                &self.components,
                designator@,
                component,
                |c: Component| c@,
            );
            assert forall|i: int| 0 <= i < self.components.values@.len() implies (
            #[trigger] self.components.values@[i]).wf() by {
                if before.has_key(designator@) {
                    if i != before.index_of(designator@) {
                        assert(self.components.values@[i] == before.values@[i]);
                    }
                } else if i < before.values@.len() {
                    assert(self.components.values@[i] == before.values@[i]);
                }
            }
        }
    }

    /// Adds a library part. One that was there under the same names is
    /// replaced and keeps its place; a new one comes last.
    pub fn insert_lib_part(&mut self, source: (LibName, LibPartName), part: LibPart)
        requires
            old(self).wf(),
            part.wf(),
        ensures
            final(self).wf(),
            final(self).nets == old(self).nets,
            final(self).components == old(self).components,
            forall|k: (Seq<char>, Seq<char>)|
                final(self).lib_parts.has_key(k) <==> (old(self).lib_parts.has_key(k) || k
                    == source@),
            final(self).lib_parts.value_of(source@) == part,
            final(self)@ == (NetlistView {
                lib_parts: old(self)@.lib_parts.insert(source@, part@),
                ..old(self)@
            }),
            forall|k: (Seq<char>, Seq<char>)|
                old(self).lib_parts.has_key(k) && k != source@ ==> final(self).lib_parts.value_of(k)
                    == old(self).lib_parts.value_of(k),
            old(self).lib_parts.has_key(source@) ==> final(self).lib_parts.keys@ == old(
                self,
            ).lib_parts.keys@,
            !old(self).lib_parts.has_key(source@) ==> final(self).lib_parts.keys@ == old(
                self,
            ).lib_parts.keys@.push(source),
    {
        let ghost before = self.lib_parts;
        self.lib_parts.insert(source, part);
        proof {
            Dict::lemma_insert_map(&before, &self.lib_parts, source@, part, |p: LibPart| p@);
            assert forall|i: int| 0 <= i < self.lib_parts.values@.len() implies (
            #[trigger] self.lib_parts.values@[i]).wf() by {
                if before.has_key(source@) {
                    if i != before.index_of(source@) {
                        assert(self.lib_parts.values@[i] == before.values@[i]);
                    }
                } else if i < before.values@.len() {
                    assert(self.lib_parts.values@[i] == before.values@[i]);
                }
            }
        }
    }

    /// Whether the pin of the part dangles.
    pub fn pin_dangles(&self, part: &Designator, pin: &PinId) -> (r: bool)
        requires
            self.wf(),
        ensures
            r == self.dangles(part@, pin@),
    {
        let Some(component) = self.components.get(part) else {
            return false;
        };
        let Some(lib_part) = self.lib_parts.get(&component.lib_source) else {
            return false;
        };
        proof {
            let li = self.lib_parts.index_of(component.lib_source@);
            assert(self.lib_parts.values@[li].wf());
        }
        !lib_part.pins.contains_key(pin)
    }

    /// Returns the nodes that break referential integrity: those that name a
    /// pin which the library part of their part does not have. A node is
    /// listed once for each net it is on. The list is empty exactly when
    /// referential integrity holds.
    pub fn dangling_nodes(&self) -> (r: Vec<Node>)
        requires
            self.wf(),
        ensures
            forall|d: Seq<char>, p: Seq<char>| #[trigger]
                seq_has(r@, (d, p)) <==> (self.dangles(d, p) && exists|n: Seq<char>|
                    self.node_on_net(n, d, p)),
            r@.len() == 0 <==> self.referential_integrity(),
    {
        let mut found: Vec<Node> = Vec::new();
        let mut i: usize = 0;
        while i < self.nets.len()
            invariant
                self.wf(),
                i <= self.nets.keys@.len(),
                forall|d: Seq<char>, p: Seq<char>| #[trigger]
                    seq_has(found@, (d, p)) <==> (self.dangles(d, p) && exists|j: int|
                        0 <= j < i && (#[trigger] self.nets.values@[j]).has_node(d, p)),
            decreases self.nets.keys@.len() - i,
        {
            let net = self.nets.value_at(i);
            let ghost outer = found@;
            let mut m: usize = 0;
            while m < net.nodes.items.len()
                invariant
                    self.wf(),
                    m <= net.nodes.items@.len(),
                    forall|d: Seq<char>, p: Seq<char>| #[trigger]
                        seq_has(found@, (d, p)) <==> (seq_has(outer, (d, p)) || (self.dangles(d, p)
                            && exists|q: int|
                            0 <= q < m && (#[trigger] net.nodes.items@[q])@ == (d, p))),
                decreases net.nodes.items@.len() - m,
            {
                let node = &net.nodes.items[m];
                let ghost inner = found@;
                let taken = self.pin_dangles(&node.designator, &node.pin_id);
                if taken {
                    found.push(node.clone());
                }
                proof {
                    assert forall|d: Seq<char>, p: Seq<char>| #[trigger]
                        seq_has(found@, (d, p)) <==> (seq_has(outer, (d, p)) || (self.dangles(d, p)
                            && exists|q: int|
                            0 <= q < m + 1 && (#[trigger] net.nodes.items@[q])@ == (d, p))) by {
                        if seq_has(found@, (d, p)) {
                            let u = choose|u: int|
                                0 <= u < found@.len() && #[trigger] found@[u]@ == (d, p);
                            if u < inner.len() {
                                assert(inner[u]@ == (d, p));
                                assert(seq_has(inner, (d, p)));
                                if !seq_has(outer, (d, p)) {
                                    let q = choose|q: int|
                                        0 <= q < m && (#[trigger] net.nodes.items@[q])@ == (d, p);
                                    assert(0 <= q < m + 1 && net.nodes.items@[q]@ == (d, p));
                                }
                            } else {
                                assert(0 <= m < m + 1 && net.nodes.items@[m as int]@ == (d, p));
                            }
                        }
                        if seq_has(inner, (d, p)) {
                            let u = choose|u: int|
                                0 <= u < inner.len() && #[trigger] inner[u]@ == (d, p);
                            assert(found@[u]@ == (d, p));
                        }
                        if self.dangles(d, p) && exists|q: int|
                            0 <= q < m + 1 && (#[trigger] net.nodes.items@[q])@ == (d, p) {
                            let q = choose|q: int|
                                0 <= q < m + 1 && (#[trigger] net.nodes.items@[q])@ == (d, p);
                            if q < m {
                                assert(seq_has(inner, (d, p)));
                            } else {
                                assert(found@[inner.len() as int]@ == (d, p));
                            }
                        }
                    }
                }
                m = m + 1;
            }
            proof {
                assert forall|d: Seq<char>, p: Seq<char>| #[trigger]
                    seq_has(found@, (d, p)) <==> (self.dangles(d, p) && exists|j: int|
                        0 <= j < i + 1 && (#[trigger] self.nets.values@[j]).has_node(d, p)) by {
                    if seq_has(outer, (d, p)) {
                        let j = choose|j: int|
                            0 <= j < i && (#[trigger] self.nets.values@[j]).has_node(d, p);
                        assert(0 <= j < i + 1 && self.nets.values@[j].has_node(d, p));
                    }
                    if seq_has(found@, (d, p)) && !seq_has(outer, (d, p)) {
                        let q = choose|q: int|
                            0 <= q < net.nodes.items@.len() && (#[trigger] net.nodes.items@[q])@
                                == (d, p);
                        assert(net.has_node(d, p));
                        assert(0 <= i < i + 1 && self.nets.values@[i as int].has_node(d, p));
                    }
                    if self.dangles(d, p) && exists|j: int|
                        0 <= j < i + 1 && (#[trigger] self.nets.values@[j]).has_node(d, p) {
                        let j = choose|j: int|
                            0 <= j < i + 1 && (#[trigger] self.nets.values@[j]).has_node(d, p);
                        if j < i {
                            assert(seq_has(outer, (d, p)));
                        } else {
                            assert(net.has_node(d, p));
                            let q = choose|q: int|
                                0 <= q < net.nodes.items@.len() && (
                                #[trigger] net.nodes.items@[q])@ == (d, p);
                            assert(seq_has(found@, (d, p)));
                        }
                    }
                }
            }
            i = i + 1;
        }
        proof {
            assert forall|d: Seq<char>, p: Seq<char>| #[trigger]
                seq_has(found@, (d, p)) <==> (self.dangles(d, p) && exists|n: Seq<char>|
                    self.node_on_net(n, d, p)) by {
                if seq_has(found@, (d, p)) {
                    let j = choose|j: int|
                        0 <= j < i && (#[trigger] self.nets.values@[j]).has_node(d, p);
                    self.lemma_net_at(j);
                    assert(self.node_on_net(self.nets.keys@[j]@, d, p));
                }
                if self.dangles(d, p) && exists|n: Seq<char>| self.node_on_net(n, d, p) {
                    let n = choose|n: Seq<char>| self.node_on_net(n, d, p);
                    let j = self.lemma_net_named(n);
                    assert(0 <= j < i && self.nets.values@[j].has_node(d, p));
                }
            }
            if found@.len() > 0 {
                let x = found@[0]@;
                assert(seq_has(found@, (x.0, x.1)));
                let n = choose|n: Seq<char>| self.node_on_net(n, x.0, x.1);
                assert(self.node_on_net(n, x.0, x.1) && self.dangles(x.0, x.1));
            }
            if !self.referential_integrity() {
                let (n, d, p) = choose|n: Seq<char>, d: Seq<char>, p: Seq<char>| #[trigger]
                    self.node_on_net(n, d, p) && self.dangles(d, p);
                assert(seq_has(found@, (d, p)));
            }
        }
        found
    }

    /// Returns the parts whose library part is not known, in the order of the parts.
    pub fn unresolved_components(&self) -> (r: Vec<Designator>)
        requires
            self.wf(),
        ensures
            forall|d: Seq<char>|
                seq_has(r@, d) <==> (self.components.has_key(d) && !self.lib_parts.has_key(
                    self.components.value_of(d).lib_source@,
                )),
    {
        let mut found: Vec<Designator> = Vec::new();
        let mut i: usize = 0;
        while i < self.components.len()
            invariant
                self.wf(),
                i <= self.components.keys@.len(),
                forall|d: Seq<char>| #[trigger]
                    seq_has(found@, d) <==> (self.components.has_key(d)
                        && self.components.index_of(d) < i && !self.lib_parts.has_key(
                        self.components.value_of(d).lib_source@,
                    )),
            decreases self.components.keys@.len() - i,
        {
            let ghost before = found@;
            let designator = self.components.key_at(i);
            proof {
                self.components.lemma_index_of(i as int);
            }
            let missing = !self.lib_parts.contains_key(&self.components.value_at(i).lib_source);
            if missing {
                found.push(designator.clone());
            }
            proof {
                assert forall|d: Seq<char>| #[trigger]
                    seq_has(found@, d) <==> (self.components.has_key(d)
                        && self.components.index_of(d) < i + 1 && !self.lib_parts.has_key(
                        self.components.value_of(d).lib_source@,
                    )) by {
                    if seq_has(found@, d) {
                        let u = choose|u: int| 0 <= u < found@.len() && #[trigger] found@[u]@ == d;
                        if u < before.len() {
                            assert(before[u]@ == d);
                            assert(seq_has(before, d));
                        }
                    }
                    if seq_has(before, d) {
                        let u = choose|u: int| 0 <= u < before.len() && #[trigger] before[u]@ == d;
                        assert(found@[u]@ == d);
                    }
                    if self.components.has_key(d) && self.components.index_of(d) == i && missing {
                        assert(found@[before.len() as int]@ == d);
                    }
                }
            }
            i = i + 1;
        }
        found
    }

    /// Returns the resistance of a resistor, read from its value.
    pub fn resistance(&self, designator: &Designator) -> (r: Result<Ohm, ResistanceError>)
        requires
            self.wf(),
        ensures
            r == self.spec_resistance(designator@),
    {
        if !designator.is_resistor() {
            return Err(ResistanceError::NotAResistor);
        }
        let Some(component) = self.components.get(designator) else {
            return Err(ResistanceError::NotFound);
        };
        if component.value.as_str().is_empty() {
            return Err(ResistanceError::NoValue);
        }
        match parse_resistance_value(component.value.as_str()) {
            Ok(parsed) => Ok(parsed.0),
            Err(e) => Err(ResistanceError::Value(e)),
        }
    }

    /// Returns true if part is connected to net via any of its pins.
    pub fn is_connected(&self, part: &Designator, target_net: &NetName) -> (r: bool)
        requires
            self.wf(),
        ensures
            r == self.on_net(target_net@, part@),
    {
        match self.nets.get(target_net) {
            Some(net) => net.touches_part(part),
            None => false,
        }
    }

    /// Returns true if two parts are connected via any of their pins.
    pub fn are_parts_connected(&self, part_a: &Designator, part_b: &Designator) -> (r: bool)
        requires
            self.wf(),
        ensures
            r == self.connected(part_a@, part_b@),
    {
        let mut i: usize = 0;
        while i < self.nets.len()
            invariant
                self.wf(),
                i <= self.nets.keys@.len(),
                forall|j: int|
                    0 <= j < i ==> !((#[trigger] self.nets.values@[j]).touches(part_a@)
                        && self.nets.values@[j].touches(part_b@)),
            decreases self.nets.keys@.len() - i,
        {
            let net = self.nets.value_at(i);
            if net.touches_part(part_a) && net.touches_part(part_b) {
                proof {
                    self.lemma_net_at(i as int);
                    assert(self.on_net(self.nets.keys@[i as int]@, part_a@));
                }
                return true;
            }
            i = i + 1;
        }
        proof {
            if self.connected(part_a@, part_b@) {
                let n = choose|n: Seq<char>| #[trigger]
                    self.on_net(n, part_a@) && self.on_net(n, part_b@);
                let j = self.lemma_net_named(n);
                assert(self.nets.values@[j].touches(part_a@));
            }
        }
        false
    }

    /// Returns the name of the net of the part's pin: the first net, in the
    /// order of the netlist, that holds it.
    pub fn pin_net(&self, part: &Designator, pin: &PinId) -> (r: Option<NetName>)
        requires
            self.wf(),
        ensures
            name_view(r) == self.spec_pin_net(part@, pin@),
            r matches Some(n) ==> self.node_on_net(n@, part@, pin@),
            r is None ==> forall|n: Seq<char>| !self.node_on_net(n, part@, pin@),
    {
        let mut i: usize = 0;
        while i < self.nets.len()
            invariant
                self.wf(),
                i <= self.nets.keys@.len(),
                forall|j: int| 0 <= j < i ==> !(#[trigger] self.nets.values@[j]).has_node(part@, pin@),
            decreases self.nets.keys@.len() - i,
        {
            if self.nets.value_at(i).contains_node(part, pin) {
                proof {
                    self.lemma_net_at(i as int);
                    assert(self.first_net_of_pin(part@, pin@, i as int));
                    let c = choose|c: int| self.first_net_of_pin(part@, pin@, c);
                    assert(c == i);
                }
                return Some(self.nets.key_at(i).clone());
            }
            i = i + 1;
        }
        proof {
            assert forall|n: Seq<char>| !self.node_on_net(n, part@, pin@) by {
                if self.node_on_net(n, part@, pin@) {
                    let j = self.lemma_net_named(n);
                    assert(self.nets.values@[j].has_node(part@, pin@));
                }
            }
        }
        None
    }

    /// The nets that hold pins of both parts.
    fn nets_of_both(&self, part_a: &Designator, part_b: &Designator) -> (r: KeySet<NetName>)
        requires
            self.wf(),
        ensures
            r.wf(),
            forall|n: Seq<char>| r.has(n) <==> (self.on_net(n, part_a@) && self.on_net(n, part_b@)),
    {
        let mut found: KeySet<NetName> = KeySet::new();
        let mut i: usize = 0;
        while i < self.nets.len()
            invariant
                self.wf(),
                found.wf(),
                i <= self.nets.keys@.len(),
                forall|n: Seq<char>|
                    found.has(n) <==> exists|j: int|
                        0 <= j < i && (#[trigger] self.nets.keys@[j])@ == n
                            && self.nets.values@[j].touches(part_a@) && self.nets.values@[j].touches(
                            part_b@,
                        ),
            decreases self.nets.keys@.len() - i,
        {
            let net = self.nets.value_at(i);
            if net.touches_part(part_a) && net.touches_part(part_b) {
                let ghost before = found;
                found.insert(self.nets.key_at(i).clone());
                proof {
                    assert forall|n: Seq<char>|
                        found.has(n) <==> exists|j: int|
                            0 <= j < i + 1 && (#[trigger] self.nets.keys@[j])@ == n
                                && self.nets.values@[j].touches(part_a@)
                                && self.nets.values@[j].touches(part_b@) by {
                        if before.has(n) {
                            let j = choose|j: int|
                                0 <= j < i && (#[trigger] self.nets.keys@[j])@ == n
                                    && self.nets.values@[j].touches(part_a@)
                                    && self.nets.values@[j].touches(part_b@);
                            assert(0 <= j < i + 1 && self.nets.keys@[j]@ == n);
                        }
                        if n == self.nets.keys@[i as int]@ {
                            assert(0 <= i < i + 1 && self.nets.keys@[i as int]@ == n);
                        }
                    }
                }
            }
            i = i + 1;
        }
        proof {
            assert forall|n: Seq<char>|
                found.has(n) <==> (self.on_net(n, part_a@) && self.on_net(n, part_b@)) by {
                if found.has(n) {
                    let j = choose|j: int|
                        0 <= j < i && (#[trigger] self.nets.keys@[j])@ == n
                            && self.nets.values@[j].touches(part_a@) && self.nets.values@[j].touches(
                            part_b@,
                        );
                    self.lemma_net_at(j);
                }
                if self.on_net(n, part_a@) && self.on_net(n, part_b@) {
                    let j = self.lemma_net_named(n);
                    assert(self.nets.keys@[j]@ == n);
                }
            }
        }
        found
    }

    /// Returns the nets the part is connected to.
    pub fn part_nets(&self, part: &Designator) -> (r: KeySet<NetName>)
        requires
            self.wf(),
        ensures
            r.wf(),
            forall|n: Seq<char>| r.has(n) <==> self.on_net(n, part@),
    {
        self.nets_of_both(part, part)
    }

    /// Returns the nets between two parts.
    pub fn parts_common_nets(&self, part_a: &Designator, part_b: &Designator) -> (r: KeySet<
        NetName,
    >)
        requires
            self.wf(),
        ensures
            r.wf(),
            forall|n: Seq<char>| r.has(n) <==> (self.on_net(n, part_a@) && self.on_net(n, part_b@)),
            r.as_set() == self.common_nets(part_a@, part_b@),
    {
        let r = self.nets_of_both(part_a, part_b);
        assert(r.as_set() =~= self.common_nets(part_a@, part_b@));
        r
    }

    /// Two parts are connected exactly when the set of their common nets is
    /// not empty.
    pub proof fn lemma_connected_iff_common_net(&self, a: Seq<char>, b: Seq<char>)
        ensures
            self.connected(a, b) <==> self.common_nets(a, b) != Set::<Seq<char>>::empty(),
    {
        if self.connected(a, b) {
            let n = choose|n: Seq<char>| #[trigger] self.on_net(n, a) && self.on_net(n, b);
            assert(self.common_nets(a, b).contains(n));
        }
        if self.common_nets(a, b) != Set::<Seq<char>>::empty() {
            assert(!(self.common_nets(a, b) =~= Set::<Seq<char>>::empty()));
            let n = choose|n: Seq<char>| self.common_nets(a, b).contains(n);
            assert(self.on_net(n, a) && self.on_net(n, b));
        }
    }

    /// Returns the parts that have a connection to any of the given nets.
    pub fn any_net_parts(&self, nets: &[&NetName]) -> (r: KeySet<Designator>)
        requires
            self.wf(),
        ensures
            r.wf(),
            forall|d: Seq<char>|
                r.has(d) <==> exists|k: int|
                    0 <= k < nets@.len() && self.on_net((#[trigger] nets@[k])@, d),
    {
        let mut parts: KeySet<Designator> = KeySet::new();
        let mut k: usize = 0;
        while k < nets.len()
            invariant
                self.wf(),
                parts.wf(),
                k <= nets@.len(),
                forall|d: Seq<char>|
                    parts.has(d) <==> exists|m: int|
                        0 <= m < k && self.on_net((#[trigger] nets@[m])@, d),
            decreases nets@.len() - k,
        {
            let ghost outer = parts;
            match self.nets.get(nets[k]) {
                None => {},
                Some(net) => {
                    let mut j: usize = 0;
                    while j < net.nodes.items.len()
                        invariant
                            parts.wf(),
                            j <= net.nodes.items@.len(),
                            forall|d: Seq<char>|
                                parts.has(d) <==> (outer.has(d) || exists|m: int|
                                    0 <= m < j && (#[trigger] net.nodes.items@[m]).designator@ == d),
                        decreases net.nodes.items@.len() - j,
                    {
                        let ghost before = parts;
                        parts.insert(net.nodes.items[j].designator.clone());
                        proof {
                            assert forall|d: Seq<char>|
                                parts.has(d) <==> (outer.has(d) || exists|m: int|
                                    0 <= m < j + 1 && (#[trigger] net.nodes.items@[m]).designator@
                                        == d) by {
                                if before.has(d) && !outer.has(d) {
                                    let m = choose|m: int|
                                        0 <= m < j && (#[trigger] net.nodes.items@[m]).designator@
                                            == d;
                                    assert(0 <= m < j + 1 && net.nodes.items@[m].designator@ == d);
                                }
                                if d == net.nodes.items@[j as int].designator@ {
                                    assert(0 <= j < j + 1 && net.nodes.items@[j as int].designator@
                                        == d);
                                }
                            }
                        }
                        j = j + 1;
                    }
                },
            }
            proof {
                assert forall|d: Seq<char>|
                    parts.has(d) <==> exists|m: int|
                        0 <= m < k + 1 && self.on_net((#[trigger] nets@[m])@, d) by {
                    if outer.has(d) {
                        let m = choose|m: int| 0 <= m < k && self.on_net((#[trigger] nets@[m])@, d);
                        assert(0 <= m < k + 1 && self.on_net(nets@[m]@, d));
                    }
                    if self.on_net(nets@[k as int]@, d) {
                        assert(0 <= k < k + 1 && self.on_net(nets@[k as int]@, d));
                    }
                    if exists|m: int| 0 <= m < k + 1 && self.on_net((#[trigger] nets@[m])@, d) {
                        let m = choose|m: int|
                            0 <= m < k + 1 && self.on_net((#[trigger] nets@[m])@, d);
                        if m < k {
                            assert(outer.has(d));
                        }
                    }
                }
            }
            k = k + 1;
        }
        parts
    }

    /// The name of the net at position `i`, once for each of its first `j`
    /// nodes that is a pin of the part `d` whose name is not among `exclude`.
    pub open spec fn pin_nets_within(
        &self,
        d: Seq<char>,
        exclude: Seq<&PinName>,
        i: int,
        j: nat,
    ) -> Seq<Seq<char>>
        decreases j,
    {
        if j == 0 {
            Seq::empty()
        } else {
            let before = self.pin_nets_within(d, exclude, i, (j - 1) as nat);
            if self.named_pin_on_net(self.nets.keys@[i]@, j - 1, d, exclude) {
                before.push(self.nets.keys@[i]@)
            } else {
                before
            }
        }
    }

    /// The names of the first `i` nets, each once for each of its nodes
    /// that is a pin of the part `d` whose name is not among `exclude`, in
    /// the order of the nets.
    pub open spec fn pin_nets_upto(&self, d: Seq<char>, exclude: Seq<&PinName>, i: nat) -> Seq<
        Seq<char>,
    >
        decreases i,
    {
        if i == 0 {
            Seq::empty()
        } else {
            self.pin_nets_upto(d, exclude, (i - 1) as nat) + self.pin_nets_within(
                d,
                exclude,
                i - 1,
                self.nets.values@[i - 1].nodes.items@.len(),
            )
        }
    }

    /// A part that does not resolve to a library part lists no net.
    pub proof fn lemma_no_pin_nets(&self, d: Seq<char>, exclude: Seq<&PinName>, i: nat, j: nat)
        requires
            !(self.components.has_key(d) && self.lib_parts.has_key(
                self.components.value_of(d).lib_source@,
            )),
        ensures
            self.pin_nets_upto(d, exclude, i).len() == 0,
            self.pin_nets_within(d, exclude, i as int, j).len() == 0,
        decreases i, j,
    {
        if j > 0 {
            self.lemma_no_pin_nets(d, exclude, i, (j - 1) as nat);
        }
        if i > 0 {
            self.lemma_no_pin_nets(
                d,
                exclude,
                (i - 1) as nat,
                self.nets.values@[i - 1].nodes.items@.len(),
            );
        }
    }

    /// Returns the nets the part is connected to through pins that resolve to
    /// a library pin whose name is not among `exclude`. A net is listed once
    /// for each such pin, in the order of the nets and of their nodes.
    pub fn part_nets_exclude_pin_names(&self, part: &Designator, exclude: &[&PinName]) -> (r: Vec<
        NetName,
    >)
        requires
            self.wf(),
        ensures
            forall|n: Seq<char>|
                seq_has(r@, n) <==> exists|j: int| self.named_pin_on_net(n, j, part@, exclude@),
            r@.map_values(|n: NetName| n@) == self.pin_nets_upto(
                part@,
                exclude@,
                self.nets.keys@.len(),
            ),
    {
        let mut found: Vec<NetName> = Vec::new();
        assert(found@.map_values(|n: NetName| n@) =~= Seq::empty());
        let Some(component) = self.components.get(part) else {
            proof {
                self.lemma_no_pin_nets(part@, exclude@, self.nets.keys@.len(), 0);
                assert(self.pin_nets_upto(part@, exclude@, self.nets.keys@.len()) =~= Seq::empty());
            }
            return found;
        };
        let Some(lib_part) = self.lib_parts.get(&component.lib_source) else {
            proof {
                self.lemma_no_pin_nets(part@, exclude@, self.nets.keys@.len(), 0);
                assert(self.pin_nets_upto(part@, exclude@, self.nets.keys@.len()) =~= Seq::empty());
            }
            return found;
        };
        proof {
            let ci = self.components.index_of(part@);
            let li = self.lib_parts.index_of(component.lib_source@);
            assert(self.lib_parts.values@[li].wf());
        }
        let mut i: usize = 0;
        while i < self.nets.len()
            invariant
                self.wf(),
                lib_part.wf(),
                i <= self.nets.keys@.len(),
                self.components.has_key(part@),
                *component == self.components.value_of(part@),
                self.lib_parts.has_key(component.lib_source@),
                *lib_part == self.lib_parts.value_of(component.lib_source@),
                found@.map_values(|n: NetName| n@) == self.pin_nets_upto(part@, exclude@, i as nat),
                forall|n: Seq<char>|
                    seq_has(found@, n) <==> exists|j: int|
                        self.nets.index_of(n) < i && #[trigger] self.named_pin_on_net(
                            n,
                            j,
                            part@,
                            exclude@,
                        ),
            decreases self.nets.keys@.len() - i,
        {
            let net = self.nets.value_at(i);
            let ghost name = self.nets.keys@[i as int]@;
            let ghost outer = found@;
            proof {
                self.lemma_net_at(i as int);
            }
            let mut j: usize = 0;
            assert(found@.map_values(|n: NetName| n@) =~= outer.map_values(|n: NetName| n@)
                + self.pin_nets_within(part@, exclude@, i as int, 0));
            while j < net.nodes.items.len()
                invariant
                    self.wf(),
                    lib_part.wf(),
                    i < self.nets.keys@.len(),
                    name == self.nets.keys@[i as int]@,
                    found@.map_values(|n: NetName| n@) == outer.map_values(|n: NetName| n@)
                        + self.pin_nets_within(part@, exclude@, i as int, j as nat),
                    self.has_net(name),
                    self.nets.index_of(name) == i,
                    *net == self.nets.value_of(name),
                    j <= net.nodes.items@.len(),
                    self.components.has_key(part@),
                    *component == self.components.value_of(part@),
                    self.lib_parts.has_key(component.lib_source@),
                    *lib_part == self.lib_parts.value_of(component.lib_source@),
                    forall|n: Seq<char>|
                        #[trigger] seq_has(found@, n) <==> (seq_has(outer, n) || (n == name && exists|m: int|
                            0 <= m < j && #[trigger] self.named_pin_on_net(
                                name,
                                m,
                                part@,
                                exclude@,
                            ))),
                decreases net.nodes.items@.len() - j,
            {
                let node = &net.nodes.items[j];
                let mut keep = false;
                if node.designator.same(part) {
                    if let Some(pin) = lib_part.pins.get(&node.pin_id) {
                        if !pin_name_in(exclude, &pin.name) {
                            keep = true;
                        }
                    }
                }
                assert(keep == self.named_pin_on_net(name, j as int, part@, exclude@));
                let ghost before = found@;
                if keep {
                    found.push(self.nets.key_at(i).clone());
                    assert(found@.map_values(|n: NetName| n@) =~= before.map_values(
                        |n: NetName| n@,
                    ).push(name));
                }
                assert(found@.map_values(|n: NetName| n@) =~= outer.map_values(|n: NetName| n@)
                    + self.pin_nets_within(part@, exclude@, i as int, (j + 1) as nat));
                proof {
                    assert forall|n: Seq<char>|
                        #[trigger] seq_has(found@, n) <==> (seq_has(outer, n) || (n == name && exists|m: int|
                            0 <= m < j + 1 && #[trigger] self.named_pin_on_net(
                                name,
                                m,
                                part@,
                                exclude@,
                            ))) by {
                        if seq_has(before, n) {
                            let q = choose|q: int| 0 <= q < before.len() && #[trigger] before[q]@ == n;
                            assert(found@[q]@ == n);
                        }
                        if keep && n == name {
                            assert(found@[before.len() as int]@ == n);
                        }
                        if seq_has(found@, n) {
                            let q = choose|q: int| 0 <= q < found@.len() && #[trigger] found@[q]@ == n;
                            if q < before.len() {
                                assert(before[q]@ == n);
                            }
                        }
                        if n == name && exists|m: int|
                            0 <= m < j + 1 && #[trigger] self.named_pin_on_net(
                                name,
                                m,
                                part@,
                                exclude@,
                            ) {
                            let m = choose|m: int|
                                0 <= m < j + 1 && #[trigger] self.named_pin_on_net(
                                    name,
                                    m,
                                    part@,
                                    exclude@,
                                );
                            if m < j {
                                assert(seq_has(before, n));
                            }
                        }
                    }
                }
                j = j + 1;
            }
            proof {
                assert forall|n: Seq<char>|
                    seq_has(found@, n) <==> exists|m: int|
                        self.nets.index_of(n) < i + 1 && #[trigger] self.named_pin_on_net(
                            n,
                            m,
                            part@,
                            exclude@,
                        ) by {
                    if seq_has(outer, n) {
                        let m = choose|m: int|
                            self.nets.index_of(n) < i && #[trigger] self.named_pin_on_net(
                                n,
                                m,
                                part@,
                                exclude@,
                            );
                        assert(self.nets.index_of(n) < i + 1 && self.named_pin_on_net(
                            n,
                            m,
                            part@,
                            exclude@,
                        ));
                    }
                    if exists|m: int|
                        self.nets.index_of(n) < i + 1 && #[trigger] self.named_pin_on_net(
                            n,
                            m,
                            part@,
                            exclude@,
                        ) {
                        let m = choose|m: int|
                            self.nets.index_of(n) < i + 1 && #[trigger] self.named_pin_on_net(
                                n,
                                m,
                                part@,
                                exclude@,
                            );
                        let q = self.lemma_net_named(n);
                        if q < i {
                            assert(seq_has(outer, n));
                        } else {
                            assert(n == name);
                        }
                    }
                }
            }
            i = i + 1;
        }
        proof {
            assert forall|n: Seq<char>|
                seq_has(found@, n) <==> exists|j: int|
                    self.named_pin_on_net(n, j, part@, exclude@) by {
                if exists|j: int| self.named_pin_on_net(n, j, part@, exclude@) {
                    let j = choose|j: int| self.named_pin_on_net(n, j, part@, exclude@);
                    let q = self.lemma_net_named(n);
                    assert(self.nets.index_of(n) < i && self.named_pin_on_net(n, j, part@, exclude@));
                }
            }
        }
        found
    }

    /// Returns all the nets that have pins of the given types on them.
    pub fn find_nets_with_pin_types(&self, pin_types: &[PinType]) -> (r: KeySet<NetName>)
        requires
            self.wf(),
        ensures
            r.wf(),
            forall|n: Seq<char>| #[trigger] r.has(n) <==> self.typed_net(pin_types@, n),
            forall|n: Seq<char>| #[trigger] r.has(n) ==> self.has_net(n),
    {
        let mut found: KeySet<NetName> = KeySet::new();
        let mut ci: usize = 0;
        while ci < self.components.len()
            invariant
                self.wf(),
                found.wf(),
                ci <= self.components.keys@.len(),
                forall|n: Seq<char>|
                    found.has(n) <==> exists|c: int, p: int|
                        c < ci && #[trigger] self.typed_pin_on_net(pin_types@, c, p, n),
            decreases self.components.keys@.len() - ci,
        {
            let designator = self.components.key_at(ci);
            let component = self.components.value_at(ci);
            let ghost outer = found;
            if let Some(lib_part) = self.lib_parts.get(&component.lib_source) {
                proof {
                    let li = self.lib_parts.index_of(component.lib_source@);
                    assert(self.lib_parts.values@[li].wf());
                }
                let mut pi: usize = 0;
                while pi < lib_part.pins.len()
                    invariant
                        self.wf(),
                        found.wf(),
                        lib_part.wf(),
                        ci < self.components.keys@.len(),
                        *designator == self.components.keys@[ci as int],
                        *component == self.components.values@[ci as int],
                        self.lib_parts.has_key(component.lib_source@),
                        *lib_part == self.lib_parts.value_of(component.lib_source@),
                        pi <= lib_part.pins.keys@.len(),
                        forall|n: Seq<char>|
                            found.has(n) <==> (outer.has(n) || exists|p: int|
                                p < pi && #[trigger] self.typed_pin_on_net(
                                    pin_types@,
                                    ci as int,
                                    p,
                                    n,
                                )),
                    decreases lib_part.pins.keys@.len() - pi,
                {
                    let pin_id = lib_part.pins.key_at(pi);
                    let pin = lib_part.pins.value_at(pi);
                    let ghost before = found;
                    let mut added: Option<NetName> = None;
                    if type_in(pin_types, pin.default_mode.ty) {
                        if let Some(net) = self.pin_net(designator, pin_id) {
                            added = Some(net.clone());
                            found.insert(net);
                        }
                    }
                    proof {
                        assert forall|n: Seq<char>|
                            self.typed_pin_on_net(pin_types@, ci as int, pi as int, n) <==> name_view(
                                added,
                            ) == Some(n) by {}
                        assert forall|n: Seq<char>|
                            found.has(n) <==> (outer.has(n) || exists|p: int|
                                p < pi + 1 && #[trigger] self.typed_pin_on_net(
                                    pin_types@,
                                    ci as int,
                                    p,
                                    n,
                                )) by {
                            if before.has(n) && !outer.has(n) {
                                let p = choose|p: int|
                                    p < pi && #[trigger] self.typed_pin_on_net(
                                        pin_types@,
                                        ci as int,
                                        p,
                                        n,
                                    );
                                assert(p < pi + 1 && self.typed_pin_on_net(
                                    pin_types@,
                                    ci as int,
                                    p,
                                    n,
                                ));
                            }
                            if name_view(added) == Some(n) {
                                assert(pi < pi + 1 && self.typed_pin_on_net(
                                    pin_types@,
                                    ci as int,
                                    pi as int,
                                    n,
                                ));
                            }
                            if exists|p: int|
                                p < pi + 1 && #[trigger] self.typed_pin_on_net(
                                    pin_types@,
                                    ci as int,
                                    p,
                                    n,
                                ) {
                                let p = choose|p: int|
                                    p < pi + 1 && #[trigger] self.typed_pin_on_net(
                                        pin_types@,
                                        ci as int,
                                        p,
                                        n,
                                    );
                                if p < pi {
                                    assert(before.has(n));
                                }
                            }
                        }
                    }
                    pi = pi + 1;
                }
            }
            proof {
                assert forall|n: Seq<char>|
                    found.has(n) <==> exists|c: int, p: int|
                        c < ci + 1 && #[trigger] self.typed_pin_on_net(pin_types@, c, p, n) by {
                    if outer.has(n) {
                        let (c, p) = choose|c: int, p: int|
                            c < ci && #[trigger] self.typed_pin_on_net(pin_types@, c, p, n);
                        assert(c < ci + 1 && self.typed_pin_on_net(pin_types@, c, p, n));
                    }
                    if found.has(n) && !outer.has(n) {
                        let p = choose|p: int| #[trigger]
                            self.typed_pin_on_net(pin_types@, ci as int, p, n);
                        assert(ci < ci + 1 && self.typed_pin_on_net(pin_types@, ci as int, p, n));
                    }
                    if exists|c: int, p: int|
                        c < ci + 1 && #[trigger] self.typed_pin_on_net(pin_types@, c, p, n) {
                        let (c, p) = choose|c: int, p: int|
                            c < ci + 1 && #[trigger] self.typed_pin_on_net(pin_types@, c, p, n);
                        if c < ci {
                            assert(outer.has(n));
                        }
                    }
                }
            }
            ci = ci + 1;
        }
        proof {
            assert forall|n: Seq<char>| #[trigger] found.has(n) <==> self.typed_net(
                pin_types@,
                n,
            ) by {
                if self.typed_net(pin_types@, n) {
                    let (c, p) = choose|c: int, p: int| self.typed_pin_on_net(pin_types@, c, p, n);
                    assert(c < ci && self.typed_pin_on_net(pin_types@, c, p, n));
                }
            }
            assert forall|n: Seq<char>| #[trigger] found.has(n) implies self.has_net(n) by {
                let (c, p) = choose|c: int, p: int| self.typed_pin_on_net(pin_types@, c, p, n);
                self.lemma_typed_pin_net_exists(pin_types@, c, p, n);
            }
        }
        found
    }
}

} // verus!
