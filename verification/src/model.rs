//! The unified netlist model: parts, library parts, pins, nets and nodes.
use vstd::prelude::*;
use vstd::std_specs::cmp::PartialEqSpecImpl;
use crate::collections::{string_map, Dict, Key, KeySet};
use crate::names::{Designator, NetName, PinId, PinName};
use crate::passive_value::Ohm;

verus! {

/// The name of a symbol library.
#[derive(Debug, Eq, Hash)]
pub struct LibName(pub String);

impl View for LibName {
    type V = Seq<char>;

    open spec fn view(&self) -> Seq<char> {
        self.0@
    }
}

impl Clone for LibName {
    fn clone(&self) -> (r: Self)
        ensures
            r == *self,
    {
        LibName(self.0.clone())
    }
}

impl Key for LibName {
    fn same(&self, other: &Self) -> (r: bool) {
        self.0 == other.0
    }

    fn dup(&self) -> (r: Self) {
        self.clone()
    }
}

impl PartialEq for LibName {
    fn eq(&self, other: &Self) -> (r: bool) {
        self.0 == other.0
    }
}

impl PartialEqSpecImpl for LibName {
    open spec fn obeys_eq_spec() -> bool {
        true
    }

    open spec fn eq_spec(&self, other: &Self) -> bool {
        self@ == other@
    }
}

/// The name of a part within a symbol library.
#[derive(Debug, Eq, Hash)]
pub struct LibPartName(pub String);

impl View for LibPartName {
    type V = Seq<char>;

    open spec fn view(&self) -> Seq<char> {
        self.0@
    }
}

impl Clone for LibPartName {
    fn clone(&self) -> (r: Self)
        ensures
            r == *self,
    {
        LibPartName(self.0.clone())
    }
}

impl Key for LibPartName {
    fn same(&self, other: &Self) -> (r: bool) {
        self.0 == other.0
    }

    fn dup(&self) -> (r: Self) {
        self.clone()
    }
}

impl PartialEq for LibPartName {
    fn eq(&self, other: &Self) -> (r: bool) {
        self.0 == other.0
    }
}

impl PartialEqSpecImpl for LibPartName {
    open spec fn obeys_eq_spec() -> bool {
        true
    }

    open spec fn eq_spec(&self, other: &Self) -> bool {
        self@ == other@
    }
}

/// The electrical kind of a pin.
#[derive(Debug, PartialEq, Eq, Copy, Clone, Structural)]
pub enum PinType {
    DigitalInput,
    DigitalOutput,
    DigitalIO,
    AnalogInput,
    AnalogOutput,
    AnalogIO,
    PowerIn,
    PowerOut,
    PowerIO,
    PowerUnspecified,
    OpenCollector,
    OpenEmitter,
    /// High, low or high impedance.
    TriState,
    /// Physically left unconnected; may be used to route other signals.
    Unconnected,
    /// Unknown.
    Unspecified,
    /// Unpowered (resistor, capacitor, ...).
    Passive,
}

/// The signalling standard of a pin.
#[derive(Debug, PartialEq, Eq, Copy, Clone, Structural)]
pub enum IOStandard {
    LVTTL,
    LVCMOS33,
    LVCMOS18,
    LVCMOS15,
    LVCMOS12,
}

/// A pull-up or pull-down built into a pin.
#[derive(Debug, PartialEq, Eq, Copy, Clone, Structural)]
pub enum Pull {
    Unknown,
    Resistor { resistance: Ohm },
    /// A current source or sink, in microamperes.
    Current { microamperes: u64 },
}

/// The supply limits of a bank of pins, in microamperes.
#[derive(Debug, PartialEq, Eq, Copy, Clone, Structural)]
pub struct Bank {
    pub total_source_current: u64,
    pub total_sink_current: u64,
}

/// One mode in which a pin can operate.
#[derive(Debug, PartialEq, Eq, Copy, Clone, Structural)]
pub struct PinMode {
    pub ty: PinType,
    pub pull_up: Option<Pull>,
    pub pull_down: Option<Pull>,
    pub io_standard: Option<IOStandard>,
}

impl PinMode {
    /// The mode of the given type without pulls and without an I/O standard.
    pub open spec fn spec_plain(ty: PinType) -> PinMode {
        PinMode { ty, pull_up: None, pull_down: None, io_standard: None }
    }

    /// A mode of the given type, without pulls and without an I/O standard.
    pub fn plain(ty: PinType) -> (r: Self)
        ensures
            r == Self::spec_plain(ty),
    {
        PinMode { ty, pull_up: None, pull_down: None, io_standard: None }
    }
}

/// A pin of a library part.
#[derive(Debug)]
pub struct Pin {
    pub name: PinName,
    pub default_mode: PinMode,
    pub alternate_modes: Dict<String, PinMode>,
    pub bank_name: Option<String>,
    pub section_name: Option<String>,
}

/// What a pin is, in characters: its name, its modes, its bank and its section.
pub struct PinView {
    pub name: Seq<char>,
    pub default_mode: PinMode,
    pub alternate_modes: Map<Seq<char>, PinMode>,
    pub bank_name: Option<Seq<char>>,
    pub section_name: Option<Seq<char>>,
}

/// The characters of an optional string.
pub open spec fn opt_view(s: Option<String>) -> Option<Seq<char>> {
    match s {
        Some(s) => Some(s@),
        None => None,
    }
}

/// The characters of a list of strings.
pub open spec fn texts(v: Seq<String>) -> Seq<Seq<char>> {
    v.map_values(|s: String| s@)
}

impl View for Pin {
    type V = PinView;

    open spec fn view(&self) -> PinView {
        PinView {
            name: self.name@,
            default_mode: self.default_mode,
            alternate_modes: self.alternate_modes.map_of(|m: PinMode| m),
            bank_name: opt_view(self.bank_name),
            section_name: opt_view(self.section_name),
        }
    }
}

impl Pin {
    /// The view of a pin with the given name and default type, and nothing else.
    pub open spec fn spec_plain(name: Seq<char>, ty: PinType) -> PinView {
        PinView {
            name,
            default_mode: PinMode::spec_plain(ty),
            alternate_modes: Map::empty(),
            bank_name: None,
            section_name: None,
        }
    }

    /// A pin with the given name and default type, and nothing else.
    pub fn plain(name: PinName, ty: PinType) -> (r: Self)
        ensures
            r.name == name,
            r@ == Pin::spec_plain(name@, ty),
            r.default_mode == PinMode::spec_plain(ty),
            r.alternate_modes.wf(),
            r.alternate_modes.keys@.len() == 0,
            r.bank_name is None,
            r.section_name is None,
    {
        let r = Pin {
            name,
            default_mode: PinMode::plain(ty),
            alternate_modes: Dict::new(),
            bank_name: None,
            section_name: None,
        };
        assert(r@.alternate_modes =~= Map::empty());
        r
    }
}

/// A part as its library describes it.
#[derive(Debug)]
pub struct LibPart {
    pub description: String,
    pub footprints: Vec<String>,
    pub fields: Dict<String, String>,
    pub pins: Dict<PinId, Pin>,
    pub banks: Dict<String, Bank>,
}

/// What a library part is, in characters: its description, footprints,
/// fields, pins and banks.
pub struct LibPartView {
    pub description: Seq<char>,
    pub footprints: Seq<Seq<char>>,
    pub fields: Map<Seq<char>, Seq<char>>,
    pub pins: Map<Seq<char>, PinView>,
    pub banks: Map<Seq<char>, Bank>,
}

impl View for LibPart {
    type V = LibPartView;

    open spec fn view(&self) -> LibPartView {
        LibPartView {
            description: self.description@,
            footprints: texts(self.footprints@),
            fields: string_map(self.fields),
            pins: self.pins.map_of(|p: Pin| p@),
            banks: self.banks.map_of(|b: Bank| b),
        }
    }
}

impl LibPart {
    /// The maps of the part have unique keys.
    pub open spec fn wf(&self) -> bool {
        self.fields.wf() && self.pins.wf() && self.banks.wf()
    }

    /// The view of a part without description, footprints, fields or pins.
    pub open spec fn spec_empty() -> LibPartView {
        LibPartView {
            description: Seq::empty(),
            footprints: Seq::empty(),
            fields: Map::empty(),
            pins: Map::empty(),
            banks: Map::empty(),
        }
    }

    /// A part without description, footprints, fields, pins or banks.
    pub fn empty() -> (r: Self)
        ensures
            r.wf(),
            r@ == LibPart::spec_empty(),
            r.description@.len() == 0,
            r.footprints@.len() == 0,
            r.fields.keys@.len() == 0,
            r.pins.keys@.len() == 0,
            r.banks.keys@.len() == 0,
    {
        let r = LibPart {
            description: String::new(),
            footprints: Vec::new(),
            fields: Dict::new(),
            pins: Dict::new(),
            banks: Dict::new(),
        };
        assert(r@.footprints =~= Seq::empty());
        assert(r@.fields =~= Map::empty());
        assert(r@.pins =~= Map::empty());
        assert(r@.banks =~= Map::empty());
        r
    }
}

/// One section of a multi-section part.
#[derive(Debug)]
pub struct ComponentSection {
    pub name: String,
    pub page_number: Option<u32>,
}

/// A part placed on the board.
#[derive(Debug)]
pub struct Component {
    pub value: String,
    pub description: String,
    pub lib_source: (LibName, LibPartName),
    pub fields: Dict<String, String>,
    pub sections: Vec<ComponentSection>,
}

/// What a section is, in characters.
pub struct ComponentSectionView {
    pub name: Seq<char>,
    pub page_number: Option<u32>,
}

impl View for ComponentSection {
    type V = ComponentSectionView;

    open spec fn view(&self) -> ComponentSectionView {
        ComponentSectionView { name: self.name@, page_number: self.page_number }
    }
}

/// What a placed part is, in characters.
pub struct ComponentView {
    pub value: Seq<char>,
    pub description: Seq<char>,
    pub lib_source: (Seq<char>, Seq<char>),
    pub fields: Map<Seq<char>, Seq<char>>,
    pub sections: Seq<ComponentSectionView>,
}

impl View for Component {
    type V = ComponentView;

    open spec fn view(&self) -> ComponentView {
        ComponentView {
            value: self.value@,
            description: self.description@,
            lib_source: self.lib_source@,
            fields: string_map(self.fields),
            sections: self.sections@.map_values(|s: ComponentSection| s@),
        }
    }
}

impl Component {
    /// The fields of the part have unique keys.
    pub open spec fn wf(&self) -> bool {
        self.fields.wf()
    }

    /// The view of a part with nothing filled in.
    pub open spec fn spec_empty() -> ComponentView {
        ComponentView {
            value: Seq::empty(),
            description: Seq::empty(),
            lib_source: (Seq::empty(), Seq::empty()),
            fields: Map::empty(),
            sections: Seq::empty(),
        }
    }

    /// A part with nothing filled in.
    pub fn empty() -> (r: Self)
        ensures
            r.wf(),
            r@ == Component::spec_empty(),
            r.sections@.len() == 0,
    {
        let r = Component {
            value: String::new(),
            description: String::new(),
            lib_source: (LibName(String::new()), LibPartName(String::new())),
            fields: Dict::new(),
            sections: Vec::new(),
        };
        assert(r@.fields =~= Map::empty());
        assert(r@.sections =~= Seq::empty());
        r
    }
}

/// One pin of one part: where a net attaches.
#[derive(Debug, Eq, Hash)]
pub struct Node {
    pub designator: Designator,
    pub pin_id: PinId,
}

impl View for Node {
    type V = (Seq<char>, Seq<char>);

    open spec fn view(&self) -> (Seq<char>, Seq<char>) {
        (self.designator@, self.pin_id@)
    }
}

impl Clone for Node {
    fn clone(&self) -> (r: Self)
        ensures
            r == *self,
    {
        Node { designator: self.designator.clone(), pin_id: self.pin_id.clone() }
    }
}

impl Key for Node {
    fn same(&self, other: &Self) -> (r: bool) {
        self.designator.same(&other.designator) && self.pin_id.same(&other.pin_id)
    }

    fn dup(&self) -> (r: Self) {
        self.clone()
    }
}

impl PartialEq for Node {
    fn eq(&self, other: &Self) -> (r: bool) {
        self.designator.same(&other.designator) && self.pin_id.same(&other.pin_id)
    }
}

impl PartialEqSpecImpl for Node {
    open spec fn obeys_eq_spec() -> bool {
        true
    }

    open spec fn eq_spec(&self, other: &Self) -> bool {
        self@ == other@
    }
}

/// An equipotential set of pins.
#[derive(Debug)]
pub struct Net {
    pub nodes: KeySet<Node>,
    pub properties: Dict<String, String>,
}

/// What a net is, in characters.
pub struct NetView {
    pub nodes: Set<(Seq<char>, Seq<char>)>,
    pub properties: Map<Seq<char>, Seq<char>>,
}

impl View for Net {
    type V = NetView;

    open spec fn view(&self) -> NetView {
        NetView { nodes: self.nodes.as_set(), properties: string_map(self.properties) }
    }
}

impl Net {
    /// The nodes are a set, and the properties have unique keys.
    pub open spec fn wf(&self) -> bool {
        self.nodes.wf() && self.properties.wf()
    }

    /// The pin `p` of part `d` is on this net.
    pub open spec fn has_node(&self, d: Seq<char>, p: Seq<char>) -> bool {
        self.nodes.has((d, p))
    }

    /// Some pin of part `d` is on this net.
    pub open spec fn touches(&self, d: Seq<char>) -> bool {
        exists|j: int|
            0 <= j < self.nodes.items@.len() && #[trigger] self.nodes.items@[j].designator@ == d
    }

    /// The view of a net without nodes or properties.
    pub open spec fn spec_empty() -> NetView {
        NetView { nodes: Set::empty(), properties: Map::empty() }
    }

    /// A net without nodes or properties.
    pub fn new() -> (r: Self)
        ensures
            r.wf(),
            r@ == Net::spec_empty(),
            r.nodes.items@.len() == 0,
            r.properties.keys@.len() == 0,
    {
        let r = Net { nodes: KeySet::new(), properties: Dict::new() };
        assert(r@.nodes =~= Set::empty());
        assert(r@.properties =~= Map::empty());
        r
    }

    /// Puts the pin `pin_id` of `designator` on the net, unless it is there already.
    pub fn add_node(&mut self, designator: Designator, pin_id: PinId) -> (added: bool)
        requires
            old(self).wf(),
        ensures
            final(self).wf(),
            final(self).properties == old(self).properties,
            final(self)@.nodes == old(self)@.nodes.insert((designator@, pin_id@)),
            added == !old(self).has_node(designator@, pin_id@),
            added ==> final(self).nodes.items@ == old(self).nodes.items@.push(
                Node { designator, pin_id },
            ),
            !added ==> final(self).nodes.items@ == old(self).nodes.items@,
            forall|d: Seq<char>, p: Seq<char>|
                final(self).has_node(d, p) <==> (old(self).has_node(d, p) || (d == designator@ && p
                    == pin_id@)),
    {
        let ghost dv = designator@;
        let ghost pv = pin_id@;
        let added = self.nodes.insert(Node { designator, pin_id });
        proof {
            assert forall|d: Seq<char>, p: Seq<char>|
                self.has_node(d, p) <==> (old(self).has_node(d, p) || (d == dv && p == pv)) by {
                assert(((d, p) == (dv, pv)) <==> (d == dv && p == pv));
            }
            assert(self@.nodes =~= old(self)@.nodes.insert((dv, pv)));
        }
        added
    }

    /// Whether the pin `pin` of `part` is on this net.
    pub fn contains_node(&self, part: &Designator, pin: &PinId) -> (r: bool)
        ensures
            r == self.has_node(part@, pin@),
    {
        let mut j: usize = 0;
        while j < self.nodes.items.len()
            invariant
                j <= self.nodes.items@.len(),
                forall|k: int| 0 <= k < j ==> self.nodes.items@[k]@ != (part@, pin@),
            decreases self.nodes.items@.len() - j,
        {
            let node = &self.nodes.items[j];
            if node.designator.same(part) && node.pin_id.same(pin) {
                assert(self.nodes.items@[j as int]@ == (part@, pin@));
                return true;
            }
            j = j + 1;
        }
        false
    }

    /// Whether some pin of `part` is on this net.
    pub fn touches_part(&self, part: &Designator) -> (r: bool)
        ensures
            r == self.touches(part@),
    {
        let mut j: usize = 0;
        while j < self.nodes.items.len()
            invariant
                j <= self.nodes.items@.len(),
                forall|k: int| 0 <= k < j ==> self.nodes.items@[k].designator@ != part@,
            decreases self.nodes.items@.len() - j,
        {
            if self.nodes.items[j].designator.same(part) {
                return true;
            }
            j = j + 1;
        }
        false
    }

    /// A node on the net is a pin of the part it names.
    pub proof fn lemma_node_touches(&self, d: Seq<char>, p: Seq<char>)
        requires
            self.has_node(d, p),
        ensures
            self.touches(d),
    {
        let j = choose|j: int|
            0 <= j < self.nodes.items@.len() && #[trigger] self.nodes.items@[j]@ == (d, p);
        assert(self.nodes.items@[j].designator@ == d);
    }
}

} // verus!
