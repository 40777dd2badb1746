//! Netlists of OrCAD Capture: a list of parts, a list of primitives and a
//! list of nets, from three files that belong together.
//!
//! A part names its primitive and lists its sections. A primitive lists its
//! pins with their parameters, and parameters of its own. Where a part has
//! more than one section, the pin number of a primitive has one slot for each
//! section, and the slot that is not `0` holds the pin.
use vstd::prelude::*;
use crate::collections::{set_string, string_map, Dict, Key, KeySet};
use crate::model::{
    texts, Component, ComponentSection, ComponentSectionView, ComponentView, LibName, LibPart,
    LibPartName, LibPartView, Net, NetView, Pin, PinMode, PinType, PinView,
};
use crate::names::{Designator, NetName, PinId, PinName};
use crate::netlist::{Netlist, NetlistView};
use crate::passive_value::digits_value;
use crate::pattern::{regex_captures, regex_groups, strings_view};
use crate::power::{is_number, small_number};
use crate::text::{from_chars, run_len, same_chars, scan, str_eq, to_chars, CharClass};

verus! {

/// A section of a part, with the path that tells its page.
#[derive(Debug)]
pub struct OrcadSection {
    pub p_path: String,
    pub name: String,
}

/// A part of the list of parts.
#[derive(Debug)]
pub struct OrcadPart {
    pub designator: String,
    pub lib_part_name: String,
    pub sections: Vec<OrcadSection>,
}

/// A parameter: a name with its value.
#[derive(Debug)]
pub struct OrcadParam {
    pub name: String,
    pub value: String,
}

/// A pin of a primitive.
#[derive(Debug)]
pub struct OrcadPin {
    pub name: String,
    pub params: Vec<OrcadParam>,
}

/// A primitive of the list of primitives.
#[derive(Debug)]
pub struct OrcadPrimitive {
    pub name: String,
    pub pins: Vec<OrcadPin>,
    pub body: Vec<OrcadParam>,
}

/// A node of a net.
#[derive(Debug)]
pub struct OrcadNode {
    pub designator: Option<String>,
    pub pin_id: Option<String>,
}

/// A net of the list of nets.
#[derive(Debug)]
pub struct OrcadNet {
    pub name: Option<String>,
    pub nodes: Vec<OrcadNode>,
}

/// The expression that finds the page in the path of a section.
pub open spec fn page_pattern() -> Seq<char> {
    "@[\\w.()]+:page(\\d+).*"@
}

/// The page that the capture groups of a path give: the second group, where
/// it is a number of at most 32 bits.
pub open spec fn page_of(groups: Option<Seq<Seq<char>>>) -> Option<u32> {
    match groups {
        Some(g) => if g.len() == 2 && is_number(g[1]) && digits_value(g[1]) <= u32::MAX {
            Some(digits_value(g[1]) as u32)
        } else {
            None
        },
        None => None,
    }
}

/// The section of a part.
pub open spec fn section_of(s: OrcadSection) -> ComponentSectionView {
    ComponentSectionView {
        name: s.name@,
        page_number: page_of(regex_groups(page_pattern(), s.p_path@)),
    }
}

/// The placed part that a part of the list gives.
pub open spec fn part_component(part: OrcadPart) -> ComponentView {
    ComponentView {
        lib_source: ("pstchip"@, part.lib_part_name@),
        sections: part.sections@.map_values(|s: OrcadSection| section_of(s)),
        ..Component::spec_empty()
    }
}

/// The placed parts that the first `n` parts of the list give.
pub open spec fn orcad_components(parts: Seq<OrcadPart>, n: nat) -> Map<Seq<char>, ComponentView>
    decreases n,
{
    if n == 0 {
        Map::empty()
    } else {
        orcad_components(parts, (n - 1) as nat).insert(
            parts[n - 1].designator@,
            part_component(parts[n - 1]),
        )
    }
}

/// The designators and the placed parts, in order, that the first `n` parts
/// of the list give. A part whose designator came before takes the place of
/// the earlier part; any other comes last.
pub open spec fn listing(parts: Seq<OrcadPart>, n: nat) -> (Seq<Seq<char>>, Seq<ComponentView>)
    decreases n,
{
    if n == 0 {
        (Seq::empty(), Seq::empty())
    } else {
        let before = listing(parts, (n - 1) as nat);
        let d = parts[n - 1].designator@;
        if before.0.contains(d) {
            (before.0, before.1.update(before.0.index_of(d), part_component(parts[n - 1])))
        } else {
            (before.0.push(d), before.1.push(part_component(parts[n - 1])))
        }
    }
}

/// The designators of the placed parts, in the order in which they are held.
pub open spec fn designators_of(c: Dict<Designator, Component>) -> Seq<Seq<char>> {
    c.keys@.map_values(|d: Designator| d@)
}

/// The placed parts, in the order in which they are held.
pub open spec fn placed(c: Dict<Designator, Component>) -> Seq<ComponentView> {
    c.values@.map_values(|x: Component| x@)
}

/// The placed parts are held in the order of the list of parts.
pub open spec fn in_order(parts: Seq<OrcadPart>, c: Dict<Designator, Component>) -> bool {
    designators_of(c) == listing(parts, parts.len()).0 && placed(c) == listing(parts, parts.len()).1
}

/// The parameters by name, of the first `n`; of two with one name the later counts.
pub open spec fn param_map(params: Seq<OrcadParam>, n: nat) -> Map<Seq<char>, Seq<char>>
    decreases n,
{
    if n == 0 {
        Map::empty()
    } else {
        param_map(params, (n - 1) as nat).insert(params[n - 1].name@, params[n - 1].value@)
    }
}

/// The type of a pin by its parameters.
pub open spec fn param_pin_type(p: Map<Seq<char>, Seq<char>>) -> PinType {
    if p.dom().contains("BIDIRECTIONAL"@) && p["BIDIRECTIONAL"@] == "TRUE"@ {
        PinType::DigitalIO
    } else if p.dom().contains("PINUSE"@) && p["PINUSE"@] == "POWER"@ {
        PinType::PowerUnspecified
    } else if p.dom().contains("OUTPUT_LOAD"@) {
        if p.dom().contains("OUTPUT_TYPE"@) && p["OUTPUT_TYPE"@] == "(OC,AND)"@ {
            PinType::OpenCollector
        } else {
            PinType::DigitalOutput
        }
    } else if p.dom().contains("INPUT_LOAD"@) {
        PinType::DigitalInput
    } else {
        PinType::Passive
    }
}

/// A slot of a pin number: its position among the slots, and where it
/// begins and ends in the text.
pub struct Slot {
    pub index: nat,
    pub from: int,
    pub to: int,
}

/// The first slot, from position `from` on, that does not hold `0`. Slots
/// are parted by commas; `index` is the position of the slot that begins at `from`.
pub open spec fn nonzero_slot(s: Seq<char>, from: int, index: nat) -> Option<Slot>
    decreases s.len() - from,
{
    let to = from + run_len(s, from, CharClass::NotComma);
    if 0 <= from <= s.len() {
        if s.subrange(from, to) != "0"@ {
            Some(Slot { index, from, to })
        } else if to < s.len() {
            nonzero_slot(s, to + 1, index + 1)
        } else {
            None
        }
    } else {
        None
    }
}

/// The number of a pin as the library part holds it, and the position of
/// its section. `inner` is the pin number without its brackets. With more
/// than one section, the first slot that does not hold `0` is the number, and
/// its position is that of the section.
pub open spec fn pin_number(inner: Seq<char>, sections: Option<nat>) -> (Seq<char>, Option<nat>) {
    match sections {
        Some(count) => if count > 1 {
            match nonzero_slot(inner, 0, 0) {
                Some(slot) => (inner.subrange(slot.from, slot.to), Some(slot.index)),
                None => (inner, None),
            }
        } else {
            (inner, None)
        },
        None => (inner, None),
    }
}

/// The position of the first part that is an instance of the primitive `name`.
pub open spec fn first_instance(c: Seq<ComponentView>, name: Seq<char>, i: int) -> bool {
    &&& 0 <= i < c.len()
    &&& c[i].lib_source.1 == name
    &&& forall|j: int| 0 <= j < i ==> (#[trigger] c[j]).lib_source.1 != name
}

/// The sections of the first part that is an instance of the primitive
/// `name`, if there is such a part.
pub open spec fn instance_sections(c: Seq<ComponentView>, name: Seq<char>) -> Option<
    Seq<ComponentSectionView>,
> {
    if exists|i: int| first_instance(c, name, i) {
        Some(c[choose|i: int| first_instance(c, name, i)].sections)
    } else {
        None
    }
}

/// The sections of a list, in characters.
pub open spec fn section_views(sections: Seq<ComponentSection>) -> Seq<ComponentSectionView> {
    sections.map_values(|s: ComponentSection| s@)
}

/// The sections of an optional list, in characters.
pub open spec fn optional_sections(sections: Option<&Vec<ComponentSection>>) -> Option<
    Seq<ComponentSectionView>,
> {
    match sections {
        Some(s) => Some(section_views(s@)),
        None => None,
    }
}

/// The pin that a pin of a primitive gives, with its number; nothing where
/// it has no parameter `PIN_NUMBER` or where that is shorter than its brackets.
pub open spec fn primitive_pin(pin: OrcadPin, sections: Option<Seq<ComponentSectionView>>) -> Option<
    (Seq<char>, PinView),
> {
    let p = param_map(pin.params@, pin.params@.len());
    if p.dom().contains("PIN_NUMBER"@) && p["PIN_NUMBER"@].len() >= 2 {
        let raw = p["PIN_NUMBER"@];
        let inner = raw.subrange(1, raw.len() - 1);
        let count = match sections {
            Some(s) => Some(s.len()),
            None => None,
        };
        let number = pin_number(inner, count);
        Some(
            (
                number.0,
                PinView {
                    name: pin.name@,
                    default_mode: PinMode::spec_plain(param_pin_type(p)),
                    alternate_modes: Map::empty(),
                    bank_name: None,
                    section_name: match number.1 {
                        Some(i) => if i < sections->0.len() {
                            Some(sections->0[i as int].name)
                        } else {
                            None
                        },
                        None => None,
                    },
                },
            ),
        )
    } else {
        None
    }
}

/// The pins that the first `n` pins of a primitive give.
pub open spec fn primitive_pins(
    pins: Seq<OrcadPin>,
    sections: Option<Seq<ComponentSectionView>>,
    n: nat,
) -> Map<Seq<char>, PinView>
    decreases n,
{
    if n == 0 {
        Map::empty()
    } else {
        let before = primitive_pins(pins, sections, (n - 1) as nat);
        match primitive_pin(pins[n - 1], sections) {
            Some(p) => before.insert(p.0, p.1),
            None => before,
        }
    }
}

/// The library part that a primitive gives. Its footprint is the parameter
/// `JEDEC_TYPE`, where it has one.
pub open spec fn primitive_part(c: Seq<ComponentView>, primitive: OrcadPrimitive) -> LibPartView {
    let fields = param_map(primitive.body@, primitive.body@.len());
    LibPartView {
        description: Seq::empty(),
        footprints: if fields.dom().contains("JEDEC_TYPE"@) {
            seq![fields["JEDEC_TYPE"@]]
        } else {
            Seq::empty()
        },
        fields,
        pins: primitive_pins(
            primitive.pins@,
            instance_sections(c, primitive.name@),
            primitive.pins@.len(),
        ),
        banks: Map::empty(),
    }
}

/// The placed parts with the value `value` given to every instance of the
/// primitive `name`.
pub open spec fn with_value(
    components: Map<Seq<char>, ComponentView>,
    name: Seq<char>,
    value: Seq<char>,
) -> Map<Seq<char>, ComponentView> {
    components.map_values(
        |c: ComponentView|
            if c.lib_source.1 == name {
                ComponentView { value, ..c }
            } else {
                c
            },
    )
}

/// What has been read after one more primitive: it is a library part, and
/// its value, where it has one, is that of all its instances.
pub open spec fn primitive_step(
    s: NetlistView,
    c: Seq<ComponentView>,
    primitive: OrcadPrimitive,
) -> NetlistView {
    let fields = param_map(primitive.body@, primitive.body@.len());
    NetlistView {
        lib_parts: s.lib_parts.insert(("pstchip"@, primitive.name@), primitive_part(c, primitive)),
        components: if fields.dom().contains("VALUE"@) && fields["VALUE"@].len() > 0 {
            with_value(s.components, primitive.name@, fields["VALUE"@])
        } else {
            s.components
        },
        ..s
    }
}

/// What has been read after the first `n` primitives.
pub open spec fn primitives_state(
    s: NetlistView,
    c: Seq<ComponentView>,
    primitives: Seq<OrcadPrimitive>,
    n: nat,
) -> NetlistView
    decreases n,
{
    if n == 0 {
        s
    } else {
        primitive_step(primitives_state(s, c, primitives, (n - 1) as nat), c, primitives[n - 1])
    }
}

/// The nodes that the first `n` nodes of a net give: those with both a
/// designator and a pin.
pub open spec fn net_nodes(nodes: Seq<OrcadNode>, n: nat) -> Set<(Seq<char>, Seq<char>)>
    decreases n,
{
    if n == 0 {
        Set::empty()
    } else {
        let before = net_nodes(nodes, (n - 1) as nat);
        match (nodes[n - 1].designator, nodes[n - 1].pin_id) {
            (Some(d), Some(p)) => before.insert((d@, p@)),
            _ => before,
        }
    }
}

/// The nets that the first `n` nets of the list give: nameless ones left
/// out, and of two with one name the first kept.
pub open spec fn orcad_nets(nets: Seq<OrcadNet>, n: nat) -> Map<Seq<char>, NetView>
    decreases n,
{
    if n == 0 {
        Map::empty()
    } else {
        let before = orcad_nets(nets, (n - 1) as nat);
        match nets[n - 1].name {
            Some(name) => if before.dom().contains(name@) {
                before
            } else {
                before.insert(
                    name@,
                    NetView {
                        nodes: net_nodes(nets[n - 1].nodes@, nets[n - 1].nodes@.len()),
                        properties: Map::empty(),
                    },
                )
            },
            None => before,
        }
    }
}

/// The page that the path of a section tells.
pub fn page_number(p_path: &str) -> (r: Option<u32>)
    ensures
        r == page_of(regex_groups(page_pattern(), p_path@)),
{
    let Some(groups) = regex_captures("@[\\w.()]+:page(\\d+).*", p_path) else {
        return None;
    };
    if groups.len() != 2 {
        return None;
    }
    let digits = to_chars(groups[1].as_str());
    assert(strings_view(groups@)[1] == digits@);
    match small_number(&digits) {
        Some(v) => Some(v as u32),
        None => None,
    }
}

/// Reads one part of the list of parts.
pub fn read_part(part: &OrcadPart) -> (r: Component)
    ensures
        r.wf(),
        r@ == part_component(*part),
{
    let mut component = Component::empty();
    component.lib_source = (
        LibName(String::from_str("pstchip")),
        LibPartName(part.lib_part_name.clone()),
    );
    let mut i: usize = 0;
    while i < part.sections.len()
        invariant
            component.wf(),
            i <= part.sections@.len(),
            component.sections@.len() == i,
            forall|j: int|
                0 <= j < i ==> (#[trigger] component.sections@[j])@ == section_of(part.sections@[j]),
            component@.value == Seq::<char>::empty(),
            component@.description == Seq::<char>::empty(),
            component@.lib_source == ("pstchip"@, part.lib_part_name@),
            component@.fields == Map::<Seq<char>, Seq<char>>::empty(),
        decreases part.sections@.len() - i,
    {
        let section = &part.sections[i];
        component.sections.push(
            ComponentSection {
                name: section.name.clone(),
                page_number: page_number(section.p_path.as_str()),
            },
        );
        i = i + 1;
    }
    assert(component@.sections =~= part_component(*part).sections);
    component
}

/// Reads the list of parts. The placed parts are held in the order of the list.
pub fn load_parts(parts: &Vec<OrcadPart>) -> (r: Netlist)
    ensures
        r.wf(),
        r@ == (NetlistView {
            components: orcad_components(parts@, parts@.len()),
            ..NetlistView::empty()
        }),
        in_order(parts@, r.components),
{
    let mut netlist = Netlist::new();
    assert(designators_of(netlist.components) =~= listing(parts@, 0).0);
    assert(placed(netlist.components) =~= listing(parts@, 0).1);
    let mut i: usize = 0;
    while i < parts.len()
        invariant
            netlist.wf(),
            i <= parts@.len(),
            netlist@ == (NetlistView {
                components: orcad_components(parts@, i as nat),
                ..NetlistView::empty()
            }),
            designators_of(netlist.components) == listing(parts@, i as nat).0,
            placed(netlist.components) == listing(parts@, i as nat).1,
        decreases parts@.len() - i,
    {
        let component = read_part(&parts[i]);
        let ghost before = netlist.components;
        let ghost d = parts@[i as int].designator@;
        netlist.insert_component(Designator(parts[i].designator.clone()), component);
        proof {
            let names = designators_of(before);
            assert(before.wf());
            assert(names.len() == before.keys@.len());
            if before.has_key(d) {
                let at = before.index_of(d);
                assert(names[at] == d);
                assert(names.contains(d));
                let spot = names.index_of(d);
                assert(names[spot] == before.keys@[spot]@);
                assert(spot == at);
                assert(designators_of(netlist.components) =~= names);
                assert(placed(netlist.components) =~= placed(before).update(at, component@));
            } else {
                if names.contains(d) {
                    let spot = names.index_of(d);
                    assert(before.keys@[spot]@ == d);
                }
                assert(designators_of(netlist.components) =~= names.push(d));
                assert(placed(netlist.components) =~= placed(before).push(component@));
            }
        }
        i = i + 1;
    }
    netlist
}

/// Reads parameters into a map by name.
pub fn read_params(params: &Vec<OrcadParam>) -> (r: Dict<String, String>)
    ensures
        r.wf(),
        string_map(r) == param_map(params@, params@.len()),
{
    let mut map: Dict<String, String> = Dict::new();
    assert(string_map(map) =~= param_map(params@, 0));
    let mut i: usize = 0;
    while i < params.len()
        invariant
            map.wf(),
            i <= params@.len(),
            string_map(map) == param_map(params@, i as nat),
        decreases params@.len() - i,
    {
        set_string(&mut map, params[i].name.as_str(), params[i].value.as_str());
        i = i + 1;
    }
    map
}

/// Whether the parameter `name` has the value `value`.
fn param_is(params: &Dict<String, String>, name: &str, value: &str) -> (r: bool)
    requires
        params.wf(),
    ensures
        r == (string_map(*params).dom().contains(name@) && string_map(*params)[name@] == value@),
{
    match params.get(&String::from_str(name)) {
        Some(v) => str_eq(v.as_str(), value),
        None => false,
    }
}

/// Whether there is a parameter `name`.
fn has_param(params: &Dict<String, String>, name: &str) -> (r: bool)
    requires
        params.wf(),
    ensures
        r == string_map(*params).dom().contains(name@),
{
    params.contains_key(&String::from_str(name))
}

/// The type of a pin by its parameters.
pub fn pin_type_of(params: &Dict<String, String>) -> (r: PinType)
    requires
        params.wf(),
    ensures
        r == param_pin_type(string_map(*params)),
{
    if param_is(params, "BIDIRECTIONAL", "TRUE") {
        PinType::DigitalIO
    } else if param_is(params, "PINUSE", "POWER") {
        PinType::PowerUnspecified
    } else if has_param(params, "OUTPUT_LOAD") {
        if param_is(params, "OUTPUT_TYPE", "(OC,AND)") {
            PinType::OpenCollector
        } else {
            PinType::DigitalOutput
        }
    } else if has_param(params, "INPUT_LOAD") {
        PinType::DigitalInput
    } else {
        PinType::Passive
    }
}

/// Finds the first slot that does not hold `0`.
pub fn find_nonzero_slot(s: &Vec<char>) -> (r: Option<(usize, usize, usize)>)
    ensures
        match r {
            Some(slot) => nonzero_slot(s@, 0, 0) == Some(
                Slot { index: slot.0 as nat, from: slot.1 as int, to: slot.2 as int },
            ) && slot.1 <= slot.2 <= s@.len(),
            None => nonzero_slot(s@, 0, 0) is None,
        },
{
    let zero = to_chars("0");
    proof {
        reveal_strlit("0");
    }
    let mut from: usize = 0;
    let mut index: usize = 0;
    loop
        invariant
            from <= s@.len(),
            index <= from,
            zero@ == "0"@,
            nonzero_slot(s@, 0, 0) == nonzero_slot(s@, from as int, index as nat),
        decreases s@.len() - from,
    {
        let to = scan(s, from, CharClass::NotComma);
        let slot = from_chars(s, from, to);
        if !same_chars(&to_chars(slot.as_str()), &zero) {
            return Some((index, from, to));
        }
        if to >= s.len() {
            return None;
        }
        from = to + 1;
        index = index + 1;
    }
}

/// The position of the first part that is an instance of the primitive.
fn find_instance(components: &Dict<Designator, Component>, name: &str) -> (r: Option<usize>)
    ensures
        match r {
            Some(i) => first_instance(placed(*components), name@, i as int),
            None => forall|i: int| !first_instance(placed(*components), name@, i),
        },
{
    let mut i: usize = 0;
    while i < components.values.len()
        invariant
            i <= components.values@.len(),
            forall|j: int| 0 <= j < i ==> (#[trigger] placed(*components)[j]).lib_source.1 != name@,
        decreases components.values@.len() - i,
    {
        assert(placed(*components)[i as int] == components.values@[i as int]@);
        if str_eq(components.values[i].lib_source.1.0.as_str(), name) {
            return Some(i);
        }
        i = i + 1;
    }
    None
}

/// Reads one pin of a primitive.
fn read_pin(pin: &OrcadPin, sections: Option<&Vec<ComponentSection>>) -> (r: Option<(PinId, Pin)>)
    ensures
        match r {
            Some(p) => primitive_pin(*pin, optional_sections(sections)) == Some((p.0@, p.1@)),
            None => primitive_pin(*pin, optional_sections(sections)) is None,
        },
{
    let params = read_params(&pin.params);
    let Some(raw) = params.get(&String::from_str("PIN_NUMBER")) else {
        return None;
    };
    let raw = to_chars(raw.as_str());
    let n = raw.len();
    if n < 2 {
        return None;
    }
    let inner = to_chars(from_chars(&raw, 1, n - 1).as_str());
    let mut id = from_chars(&inner, 0, inner.len());
    assert(inner@.subrange(0, inner@.len() as int) =~= inner@);
    let mut section_name: Option<String> = None;
    if let Some(sections) = sections {
        if sections.len() > 1 {
            if let Some(slot) = find_nonzero_slot(&inner) {
                id = from_chars(&inner, slot.1, slot.2);
                if slot.0 < sections.len() {
                    section_name = Some(sections[slot.0].name.clone());
                    assert(section_views(sections@)[slot.0 as int] == sections@[slot.0 as int]@);
                }
            }
        }
    }
    let pin = Pin {
        name: PinName(pin.name.clone()),
        default_mode: PinMode::plain(pin_type_of(&params)),
        alternate_modes: Dict::new(),
        bank_name: None,
        section_name,
    };
    assert(pin@.alternate_modes =~= Map::empty());
    Some((PinId(id), pin))
}

/// Reads one primitive.
fn read_primitive(components: &Dict<Designator, Component>, primitive: &OrcadPrimitive) -> (r: (
    LibPart,
    Option<String>,
))
    ensures
        r.0.wf(),
        r.0@ == primitive_part(placed(*components), *primitive),
        match r.1 {
            Some(v) => {
                let fields = param_map(primitive.body@, primitive.body@.len());
                fields.dom().contains("VALUE"@) && fields["VALUE"@] == v@ && v@.len() > 0
            },
            None => {
                let fields = param_map(primitive.body@, primitive.body@.len());
                !(fields.dom().contains("VALUE"@) && fields["VALUE"@].len() > 0)
            },
        },
{
    let at = find_instance(components, primitive.name.as_str());
    let sections: Option<&Vec<ComponentSection>> = match at {
        Some(i) => Some(&components.values[i].sections),
        None => None,
    };
    let ghost spec_sections = instance_sections(placed(*components), primitive.name@);
    proof {
        if let Some(i) = at {
            let c = choose|c: int| first_instance(placed(*components), primitive.name@, c);
            assert(c == i);
            assert(placed(*components)[i as int] == components.values@[i as int]@);
            assert(placed(*components)[i as int].sections =~= section_views(
                components.values@[i as int].sections@,
            ));
        }
    }
    let mut pins: Dict<PinId, Pin> = Dict::new();
    assert(pins.map_of(|p: Pin| p@) =~= primitive_pins(primitive.pins@, spec_sections, 0));
    let mut i: usize = 0;
    while i < primitive.pins.len()
        invariant
            pins.wf(),
            i <= primitive.pins@.len(),
            spec_sections == optional_sections(sections),
            pins.map_of(|p: Pin| p@) == primitive_pins(primitive.pins@, spec_sections, i as nat),
        decreases primitive.pins@.len() - i,
    {
        if let Some((id, pin)) = read_pin(&primitive.pins[i], sections) {
            let ghost before = pins;
            pins.insert(id, pin);
            proof {
                Dict::lemma_insert_map(&before, &pins, id@, pin, |p: Pin| p@);
            }
        }
        i = i + 1;
    }
    let fields = read_params(&primitive.body);
    let mut footprints: Vec<String> = Vec::new();
    if let Some(f) = fields.get(&String::from_str("JEDEC_TYPE")) {
        footprints.push(f.clone());
    }
    let value = match fields.get(&String::from_str("VALUE")) {
        Some(v) => if v.as_str().is_empty() {
            None
        } else {
            Some(v.clone())
        },
        None => None,
    };
    let part = LibPart {
        description: String::new(),
        footprints,
        fields,
        pins,
        banks: Dict::new(),
    };
    assert(part@.footprints =~= primitive_part(placed(*components), *primitive).footprints);
    assert(part@.banks =~= Map::empty());
    (part, value)
}

/// Gives the value to every instance of the primitive `name`.
fn set_values(netlist: &mut Netlist, name: &str, value: &str)
    requires
        old(netlist).wf(),
    ensures
        final(netlist).wf(),
        final(netlist).lib_parts == old(netlist).lib_parts,
        final(netlist).nets == old(netlist).nets,
        final(netlist).components.keys@ == old(netlist).components.keys@,
        final(netlist).components.values@.len() == old(netlist).components.values@.len(),
        forall|i: int|
            0 <= i < final(netlist).components.values@.len() ==> (
            #[trigger] final(netlist).components.values@[i]).lib_source == old(
                netlist,
            ).components.values@[i].lib_source && final(netlist).components.values@[i].sections
                == old(netlist).components.values@[i].sections,
        final(netlist)@ == (NetlistView {
            components: with_value(old(netlist)@.components, name@, value@),
            ..old(netlist)@
        }),
{
    let ghost before = netlist.components;
    let mut i: usize = 0;
    while i < netlist.components.values.len()
        invariant
            netlist.wf(),
            netlist.lib_parts == old(netlist).lib_parts,
            netlist.nets == old(netlist).nets,
            netlist.components.keys@ == before.keys@,
            netlist.components.values@.len() == before.values@.len(),
            i <= netlist.components.values@.len(),
            forall|j: int|
                0 <= j < before.values@.len() ==> (
                #[trigger] netlist.components.values@[j]).lib_source
                    == before.values@[j].lib_source && netlist.components.values@[j].sections
                    == before.values@[j].sections && netlist.components.values@[j].fields
                    == before.values@[j].fields && netlist.components.values@[j].description
                    == before.values@[j].description,
            forall|j: int|
                0 <= j < i ==> (#[trigger] netlist.components.values@[j]).value@ == (
                if before.values@[j].lib_source.1@ == name@ {
                    value@
                } else {
                    before.values@[j].value@
                }),
            forall|j: int|
                i <= j < before.values@.len() ==> (#[trigger] netlist.components.values@[j]).value
                    == before.values@[j].value,
        decreases netlist.components.values@.len() - i,
    {
        if str_eq(netlist.components.values[i].lib_source.1.0.as_str(), name) {
            let ghost earlier = netlist.components.values@;
            let mut component = netlist.components.values.remove(i);
            component.value = String::from_str(value);
            netlist.components.values.insert(i, component);
            proof {
                assert(netlist.components.values@ =~= earlier.update(i as int, component));
                assert forall|j: int| 0 <= j < netlist.components.values@.len() implies (
                #[trigger] netlist.components.values@[j]).wf() by {
                    if j != i {
                        assert(netlist.components.values@[j] == earlier[j]);
                    } else {
                        assert(earlier[i as int].wf());
                    }
                }
            }
        }
        i = i + 1;
    }
    proof {
        let after = netlist.components;
        let expected = with_value(before.map_of(|c: Component| c@), name@, value@);
        assert forall|x: Seq<char>| after.has_key(x) implies after.map_of(|c: Component| c@)[x]
            == expected[x] by {
            let j = after.index_of(x);
            after.lemma_index_of(j);
            before.lemma_index_of(j);
            assert(after.values@[j]@.sections == before.values@[j]@.sections);
        }
        assert(after.map_of(|c: Component| c@) =~= expected);
    }
}

/// Reads the list of primitives into the netlist that holds the parts. A
/// primitive becomes a library part; its value, where it has one, becomes the
/// value of all its instances.
pub fn load_lib_parts(netlist: &mut Netlist, primitives: &Vec<OrcadPrimitive>)
    requires
        old(netlist).wf(),
    ensures
        final(netlist).wf(),
        final(netlist)@ == primitives_state(
            old(netlist)@,
            placed(old(netlist).components),
            primitives@,
            primitives@.len(),
        ),
{
    let ghost start = netlist@;
    let ghost held = netlist.components;
    let ghost parts = placed(netlist.components);
    let mut i: usize = 0;
    while i < primitives.len()
        invariant
            netlist.wf(),
            i <= primitives@.len(),
            parts == placed(held),
            netlist.components.keys@ == held.keys@,
            netlist.components.values@.len() == held.values@.len(),
            forall|j: int|
                0 <= j < held.values@.len() ==> (
                #[trigger] netlist.components.values@[j]).lib_source
                    == held.values@[j].lib_source && netlist.components.values@[j].sections
                    == held.values@[j].sections,
            netlist@ == primitives_state(start, parts, primitives@, i as nat),
        decreases primitives@.len() - i,
    {
        let primitive = &primitives[i];
        let (part, value) = read_primitive(&netlist.components, primitive);
        proof {
            let now = placed(netlist.components);
            assert forall|j: int| 0 <= j < now.len() implies (#[trigger] now[j]).lib_source
                == parts[j].lib_source && now[j].sections == parts[j].sections by {
                assert(now[j] == netlist.components.values@[j]@);
                assert(parts[j] == held.values@[j]@);
                assert(netlist.components.values@[j].lib_source == held.values@[j].lib_source);
            }
            lemma_same_instances(now, parts, primitive.name@);
            assert(part@ == primitive_part(parts, *primitive));
        }
        if let Some(value) = value {
            set_values(netlist, primitive.name.as_str(), value.as_str());
        }
        netlist.insert_lib_part(
            (LibName(String::from_str("pstchip")), LibPartName(primitive.name.clone())),
            part,
        );
        i = i + 1;
    }
}

/// Parts that agree in their primitives and sections have the same first
/// instance of a primitive, with the same sections.
pub proof fn lemma_same_instances(a: Seq<ComponentView>, b: Seq<ComponentView>, name: Seq<char>)
    requires
        a.len() == b.len(),
        forall|j: int|
            0 <= j < a.len() ==> (#[trigger] a[j]).lib_source == b[j].lib_source && a[j].sections
                == b[j].sections,
    ensures
        instance_sections(a, name) == instance_sections(b, name),
{
    if exists|i: int| first_instance(a, name, i) {
        let i = choose|i: int| first_instance(a, name, i);
        assert(first_instance(b, name, i)) by {
            assert(a[i].lib_source == b[i].lib_source);
            assert forall|j: int| 0 <= j < i implies (#[trigger] b[j]).lib_source.1 != name by {
                assert(a[j].lib_source == b[j].lib_source);
            }
        }
        let k = choose|k: int| first_instance(b, name, k);
        assert(k == i);
        assert(a[i].sections == b[i].sections);
    } else if exists|k: int| first_instance(b, name, k) {
        let k = choose|k: int| first_instance(b, name, k);
        assert(first_instance(a, name, k)) by {
            assert(a[k].lib_source == b[k].lib_source);
            assert forall|j: int| 0 <= j < k implies (#[trigger] a[j]).lib_source.1 != name by {
                assert(a[j].lib_source == b[j].lib_source);
            }
        }
    }
}

/// Reads one net of the list of nets.
pub fn read_net(net: &OrcadNet) -> (r: Net)
    ensures
        r.wf(),
        r@ == (NetView {
            nodes: net_nodes(net.nodes@, net.nodes@.len()),
            properties: Map::empty(),
        }),
{
    let mut read = Net::new();
    let mut i: usize = 0;
    while i < net.nodes.len()
        invariant
            read.wf(),
            i <= net.nodes@.len(),
            read@ == (NetView { nodes: net_nodes(net.nodes@, i as nat), properties: Map::empty() }),
        decreases net.nodes@.len() - i,
    {
        match (&net.nodes[i].designator, &net.nodes[i].pin_id) {
            (Some(d), Some(p)) => {
                read.add_node(Designator(d.clone()), PinId(p.clone()));
            },
            _ => {},
        }
        i = i + 1;
    }
    read
}

/// What the three lists give: the placed parts of the list of parts, with
/// the library parts and the values that the primitives give, and the nets.
/// The sections of the pins of a primitive are those of its first instance in
/// the order of the list of parts.
pub open spec fn orcad_view(
    nets: Seq<OrcadNet>,
    parts: Seq<OrcadPart>,
    primitives: Seq<OrcadPrimitive>,
) -> NetlistView {
    let read = primitives_state(
        NetlistView {
            components: orcad_components(parts, parts.len()),
            ..NetlistView::empty()
        },
        listing(parts, parts.len()).1,
        primitives,
        primitives.len(),
    );
    NetlistView { nets: orcad_nets(nets, nets.len()), ..read }
}

/// Builds the netlist of the three lists. The parts come first, then the
/// primitives, which give the parts their values, then the nets.
/// Referential integrity holds of the netlist exactly when it holds of what
/// the three lists give.
pub fn load_orcad_netlist(
    nets: &Vec<OrcadNet>,
    parts: &Vec<OrcadPart>,
    primitives: &Vec<OrcadPrimitive>,
) -> (r: Netlist)
    ensures
        r.wf(),
        r@ == orcad_view(nets@, parts@, primitives@),
        r.referential_integrity() == orcad_view(nets@, parts@, primitives@).integral(),
{
    let mut netlist = load_parts(parts);
    let ghost listed = netlist@;
    let ghost order = placed(netlist.components);
    load_lib_parts(&mut netlist, primitives);
    let ghost read = netlist@;
    proof {
        lemma_primitives_keep_nets(listed, order, primitives@, primitives@.len());
        assert(read.nets =~= orcad_nets(nets@, 0));
    }
    let mut i: usize = 0;
    while i < nets.len()
        invariant
            netlist.wf(),
            i <= nets@.len(),
            netlist@ == (NetlistView { nets: orcad_nets(nets@, i as nat), ..read }),
        decreases nets@.len() - i,
    {
        if let Some(name) = &nets[i].name {
            let net = read_net(&nets[i]);
            netlist.insert_net(NetName(name.clone()), net);
        }
        i = i + 1;
    }
    proof {
        netlist.lemma_integrity_in_view();
    }
    netlist
}

/// Reading primitives leaves the nets as they are.
pub proof fn lemma_primitives_keep_nets(
    s: NetlistView,
    c: Seq<ComponentView>,
    primitives: Seq<OrcadPrimitive>,
    n: nat,
)
    ensures
        primitives_state(s, c, primitives, n).nets == s.nets,
    decreases n,
{
    if n > 0 {
        lemma_primitives_keep_nets(s, c, primitives, (n - 1) as nat);
    }
}

} // verus!
