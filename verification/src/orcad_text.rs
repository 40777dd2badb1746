//! The three files of an OrCAD netlist as text.
//!
//! Each file is a sequence of forms. The file of primitives holds forms
//! `(primitive NAME (pins (pin NAME (param NAME VALUE)*)*) (body (param NAME VALUE)*))`,
//! the file of parts holds forms `(part DESIGNATOR PRIMITIVE (section NAME PATH)*)`,
//! and the file of nets holds forms
//! `(net (net_name NAME) … (node (designator D) (pin_id P) …)*)`. A name or
//! a value is a word or a quoted text. A form that has none of these shapes is
//! passed over, and so is an item inside a form that has not the shape that
//! belongs there.
use vstd::prelude::*;
use crate::edif_text::{
    find_form, form_is, is_form, item_text, items_of, items_under, list_items, text_at, text_of,
    under,
};
use crate::model::opt_view;
use crate::netlist::Netlist;
use crate::orcad_netlist::{
    load_orcad_netlist, orcad_view, OrcadNet, OrcadNode, OrcadParam, OrcadPart, OrcadPin,
    OrcadPrimitive, OrcadSection,
};
use crate::sexp::{forms_of, parse_sexp, syntax_error, Sexp, SexpError};
use crate::text::opt_text;

verus! {

/// A parameter in characters: its name and its value.
pub type ParamText = (Seq<char>, Seq<char>);

/// A pin of a primitive in characters: its name and its parameters.
pub type PinText = (Seq<char>, Seq<ParamText>);

/// A primitive in characters: its name, its pins and the parameters of its body.
pub type PrimitiveText = (Seq<char>, Seq<PinText>, Seq<ParamText>);

/// A section in characters: its name and its path.
pub type SectionText = (Seq<char>, Seq<char>);

/// A part in characters: its designator, its primitive and its sections.
pub type PartText = (Seq<char>, Seq<char>, Seq<SectionText>);

/// A node in characters: its designator and its pin, as far as it has them.
pub type NodeText = (Option<Seq<char>>, Option<Seq<char>>);

/// A net in characters: its name, if it has one, and its nodes.
pub type NetText = (Option<Seq<char>>, Seq<NodeText>);

/// What a parameter is, in characters.
pub open spec fn param_text(p: OrcadParam) -> ParamText {
    (p.name@, p.value@)
}

/// What parameters are, in characters.
pub open spec fn params_text(s: Seq<OrcadParam>) -> Seq<ParamText> {
    s.map_values(|p: OrcadParam| param_text(p))
}

/// What a pin is, in characters.
pub open spec fn pin_text(p: OrcadPin) -> PinText {
    (p.name@, params_text(p.params@))
}

/// What pins are, in characters.
pub open spec fn pins_text(s: Seq<OrcadPin>) -> Seq<PinText> {
    s.map_values(|p: OrcadPin| pin_text(p))
}

/// What a primitive is, in characters.
pub open spec fn primitive_text(p: OrcadPrimitive) -> PrimitiveText {
    (p.name@, pins_text(p.pins@), params_text(p.body@))
}

/// What primitives are, in characters.
pub open spec fn primitives_text(s: Seq<OrcadPrimitive>) -> Seq<PrimitiveText> {
    s.map_values(|p: OrcadPrimitive| primitive_text(p))
}

/// What a section is, in characters.
pub open spec fn section_text(x: OrcadSection) -> SectionText {
    (x.name@, x.p_path@)
}

/// What sections are, in characters.
pub open spec fn sections_text(s: Seq<OrcadSection>) -> Seq<SectionText> {
    s.map_values(|x: OrcadSection| section_text(x))
}

/// What a part is, in characters.
pub open spec fn part_text(p: OrcadPart) -> PartText {
    (p.designator@, p.lib_part_name@, sections_text(p.sections@))
}

/// What parts are, in characters.
pub open spec fn parts_text(s: Seq<OrcadPart>) -> Seq<PartText> {
    s.map_values(|p: OrcadPart| part_text(p))
}

/// What a node is, in characters.
pub open spec fn node_text(n: OrcadNode) -> NodeText {
    (opt_view(n.designator), opt_view(n.pin_id))
}

/// What nodes are, in characters.
pub open spec fn nodes_text(s: Seq<OrcadNode>) -> Seq<NodeText> {
    s.map_values(|n: OrcadNode| node_text(n))
}

/// What a net is, in characters.
pub open spec fn net_text(n: OrcadNet) -> NetText {
    (opt_view(n.name), nodes_text(n.nodes@))
}

/// What nets are, in characters.
pub open spec fn nets_text(s: Seq<OrcadNet>) -> Seq<NetText> {
    s.map_values(|n: OrcadNet| net_text(n))
}

/// The text at position 1 of the first item of the form that begins with
/// `keyword`; none where there is no such item or where it holds no text there.
pub open spec fn field_of(e: Sexp, keyword: Seq<char>) -> Option<Seq<char>> {
    let inner = items_under(items_of(e), keyword);
    if inner.len() >= 2 {
        text_of(inner[1])
    } else {
        None
    }
}

/// The parameter that a form `(param NAME VALUE)` gives.
pub open spec fn param_of(e: Sexp) -> Option<ParamText> {
    if is_form(e, "param"@) && item_text(e, 1) is Some && item_text(e, 2) is Some {
        Some((item_text(e, 1)->0, item_text(e, 2)->0))
    } else {
        None
    }
}

/// The section that a form `(section NAME PATH)` gives.
pub open spec fn section_form_of(e: Sexp) -> Option<SectionText> {
    if is_form(e, "section"@) && item_text(e, 1) is Some && item_text(e, 2) is Some {
        Some((item_text(e, 1)->0, item_text(e, 2)->0))
    } else {
        None
    }
}

/// The node that a form `(node (designator D) (pin_id P) …)` gives.
pub open spec fn node_of(e: Sexp) -> Option<NodeText> {
    if is_form(e, "node"@) {
        Some((field_of(e, "designator"@), field_of(e, "pin_id"@)))
    } else {
        None
    }
}

/// Reads the text of the first item that begins with `keyword`.
fn read_field(e: &Sexp, keyword: &str) -> (r: Option<String>)
    ensures
        opt_view(r) == field_of(*e, keyword@),
{
    let Some(items) = list_items(e) else {
        assert(items_under(items_of(*e), keyword@).len() == 0);
        return None;
    };
    let Some(inner) = under(items, keyword) else {
        return None;
    };
    if inner.len() < 2 {
        return None;
    }
    crate::edif_text::text(&inner[1])
}

/// Reads a form `(param NAME VALUE)`.
fn read_param(e: &Sexp) -> (r: Option<OrcadParam>)
    ensures
        match r {
            Some(p) => param_of(*e) == Some(param_text(p)),
            None => param_of(*e) is None,
        },
{
    if !form_is(e, "param") {
        return None;
    }
    let Some(name) = text_at(e, 1) else {
        return None;
    };
    let Some(value) = text_at(e, 2) else {
        return None;
    };
    Some(OrcadParam { name, value })
}

/// Reads a form `(section NAME PATH)`.
fn read_section_form(e: &Sexp) -> (r: Option<OrcadSection>)
    ensures
        match r {
            Some(x) => section_form_of(*e) == Some(section_text(x)),
            None => section_form_of(*e) is None,
        },
{
    if !form_is(e, "section") {
        return None;
    }
    let Some(name) = text_at(e, 1) else {
        return None;
    };
    let Some(p_path) = text_at(e, 2) else {
        return None;
    };
    Some(OrcadSection { p_path, name })
}

/// Reads a form `(node (designator D) (pin_id P) …)`.
fn read_node(e: &Sexp) -> (r: Option<OrcadNode>)
    ensures
        match r {
            Some(n) => node_of(*e) == Some(node_text(n)),
            None => node_of(*e) is None,
        },
{
    if !form_is(e, "node") {
        return None;
    }
    Some(OrcadNode { designator: read_field(e, "designator"), pin_id: read_field(e, "pin_id") })
}

/// The parameters among the items from `from` up to `n`, in order.
pub open spec fn params_from(items: Seq<Sexp>, from: int, n: int) -> Seq<ParamText>
    decreases n - from,
{
    if n <= from || n > items.len() || from < 0 {
        Seq::empty()
    } else {
        let before = params_from(items, from, n - 1);
        match param_of(items[n - 1]) {
            Some(x) => before.push(x),
            None => before,
        }
    }
}

/// Reads the parameters among the items from `from` on.
fn read_params(items: &Vec<Sexp>, from: usize) -> (r: Vec<OrcadParam>)
    ensures
        params_text(r@) == params_from(items@, from as int, items@.len() as int),
{
    let mut found: Vec<OrcadParam> = Vec::new();
    if items.len() <= from {
        assert(params_text(found@) =~= Seq::empty());
        return found;
    }
    let mut i: usize = from;
    assert(params_text(found@) =~= params_from(items@, from as int, from as int));
    while i < items.len()
        invariant
            from <= i <= items@.len(),
            params_text(found@) == params_from(items@, from as int, i as int),
        decreases items@.len() - i,
    {
        let ghost before = found@;
        if let Some(x) = read_param(&items[i]) {
            found.push(x);
            assert(params_text(found@) =~= params_text(before).push(param_text(x)));
        }
        i = i + 1;
    }
    found
}

/// The sections among the items from `from` up to `n`, in order.
pub open spec fn sections_from(items: Seq<Sexp>, from: int, n: int) -> Seq<SectionText>
    decreases n - from,
{
    if n <= from || n > items.len() || from < 0 {
        Seq::empty()
    } else {
        let before = sections_from(items, from, n - 1);
        match section_form_of(items[n - 1]) {
            Some(x) => before.push(x),
            None => before,
        }
    }
}

/// Reads the sections among the items from `from` on.
fn read_sections(items: &Vec<Sexp>, from: usize) -> (r: Vec<OrcadSection>)
    ensures
        sections_text(r@) == sections_from(items@, from as int, items@.len() as int),
{
    let mut found: Vec<OrcadSection> = Vec::new();
    if items.len() <= from {
        assert(sections_text(found@) =~= Seq::empty());
        return found;
    }
    let mut i: usize = from;
    assert(sections_text(found@) =~= sections_from(items@, from as int, from as int));
    while i < items.len()
        invariant
            from <= i <= items@.len(),
            sections_text(found@) == sections_from(items@, from as int, i as int),
        decreases items@.len() - i,
    {
        let ghost before = found@;
        if let Some(x) = read_section_form(&items[i]) {
            found.push(x);
            assert(sections_text(found@) =~= sections_text(before).push(section_text(x)));
        }
        i = i + 1;
    }
    found
}

/// The nodes among the items from `from` up to `n`, in order.
pub open spec fn nodes_from(items: Seq<Sexp>, from: int, n: int) -> Seq<NodeText>
    decreases n - from,
{
    if n <= from || n > items.len() || from < 0 {
        Seq::empty()
    } else {
        let before = nodes_from(items, from, n - 1);
        match node_of(items[n - 1]) {
            Some(x) => before.push(x),
            None => before,
        }
    }
}

/// Reads the nodes among the items from `from` on.
fn read_nodes(items: &Vec<Sexp>, from: usize) -> (r: Vec<OrcadNode>)
    ensures
        nodes_text(r@) == nodes_from(items@, from as int, items@.len() as int),
{
    let mut found: Vec<OrcadNode> = Vec::new();
    if items.len() <= from {
        assert(nodes_text(found@) =~= Seq::empty());
        return found;
    }
    let mut i: usize = from;
    assert(nodes_text(found@) =~= nodes_from(items@, from as int, from as int));
    while i < items.len()
        invariant
            from <= i <= items@.len(),
            nodes_text(found@) == nodes_from(items@, from as int, i as int),
        decreases items@.len() - i,
    {
        let ghost before = found@;
        if let Some(x) = read_node(&items[i]) {
            found.push(x);
            assert(nodes_text(found@) =~= nodes_text(before).push(node_text(x)));
        }
        i = i + 1;
    }
    found
}

/// The pin that a form `(pin NAME (param NAME VALUE)*)` gives.
pub open spec fn pin_of(e: Sexp) -> Option<PinText> {
    if is_form(e, "pin"@) && item_text(e, 1) is Some {
        Some((item_text(e, 1)->0, params_from(items_of(e), 2, items_of(e).len() as int)))
    } else {
        None
    }
}

/// The part that a form `(part DESIGNATOR PRIMITIVE (section NAME PATH)*)` gives.
pub open spec fn part_of(e: Sexp) -> Option<PartText> {
    if is_form(e, "part"@) && item_text(e, 1) is Some && item_text(e, 2) is Some {
        Some(
            (
                item_text(e, 1)->0,
                item_text(e, 2)->0,
                sections_from(items_of(e), 3, items_of(e).len() as int),
            ),
        )
    } else {
        None
    }
}

/// The net that a form `(net (net_name NAME) … (node …)*)` gives.
pub open spec fn net_of(e: Sexp) -> Option<NetText> {
    if is_form(e, "net"@) {
        Some((field_of(e, "net_name"@), nodes_from(items_of(e), 1, items_of(e).len() as int)))
    } else {
        None
    }
}

/// Reads a form `(pin NAME (param NAME VALUE)*)`.
fn read_pin_form(e: &Sexp) -> (r: Option<OrcadPin>)
    ensures
        match r {
            Some(p) => pin_of(*e) == Some(pin_text(p)),
            None => pin_of(*e) is None,
        },
{
    if !form_is(e, "pin") {
        return None;
    }
    let Some(name) = text_at(e, 1) else {
        return None;
    };
    let Some(items) = list_items(e) else {
        return None;
    };
    Some(OrcadPin { name, params: read_params(items, 2) })
}

/// Reads a form `(part DESIGNATOR PRIMITIVE (section NAME PATH)*)`.
fn read_part_form(e: &Sexp) -> (r: Option<OrcadPart>)
    ensures
        match r {
            Some(p) => part_of(*e) == Some(part_text(p)),
            None => part_of(*e) is None,
        },
{
    if !form_is(e, "part") {
        return None;
    }
    let Some(designator) = text_at(e, 1) else {
        return None;
    };
    let Some(lib_part_name) = text_at(e, 2) else {
        return None;
    };
    let Some(items) = list_items(e) else {
        return None;
    };
    Some(OrcadPart { designator, lib_part_name, sections: read_sections(items, 3) })
}

/// Reads a form `(net (net_name NAME) … (node …)*)`.
fn read_net_form(e: &Sexp) -> (r: Option<OrcadNet>)
    ensures
        match r {
            Some(n) => net_of(*e) == Some(net_text(n)),
            None => net_of(*e) is None,
        },
{
    if !form_is(e, "net") {
        return None;
    }
    let Some(items) = list_items(e) else {
        return None;
    };
    Some(OrcadNet { name: read_field(e, "net_name"), nodes: read_nodes(items, 1) })
}

/// The pins among the items from `from` up to `n`, in order.
pub open spec fn pins_from(items: Seq<Sexp>, from: int, n: int) -> Seq<PinText>
    decreases n - from,
{
    if n <= from || n > items.len() || from < 0 {
        Seq::empty()
    } else {
        let before = pins_from(items, from, n - 1);
        match pin_of(items[n - 1]) {
            Some(x) => before.push(x),
            None => before,
        }
    }
}

/// Reads the pins among the items from `from` on.
fn read_pins(items: &Vec<Sexp>, from: usize) -> (r: Vec<OrcadPin>)
    ensures
        pins_text(r@) == pins_from(items@, from as int, items@.len() as int),
{
    let mut found: Vec<OrcadPin> = Vec::new();
    if items.len() <= from {
        assert(pins_text(found@) =~= Seq::empty());
        return found;
    }
    let mut i: usize = from;
    assert(pins_text(found@) =~= pins_from(items@, from as int, from as int));
    while i < items.len()
        invariant
            from <= i <= items@.len(),
            pins_text(found@) == pins_from(items@, from as int, i as int),
        decreases items@.len() - i,
    {
        let ghost before = found@;
        if let Some(x) = read_pin_form(&items[i]) {
            found.push(x);
            assert(pins_text(found@) =~= pins_text(before).push(pin_text(x)));
        }
        i = i + 1;
    }
    found
}

/// The parts among the items from `from` up to `n`, in order.
pub open spec fn parts_from(items: Seq<Sexp>, from: int, n: int) -> Seq<PartText>
    decreases n - from,
{
    if n <= from || n > items.len() || from < 0 {
        Seq::empty()
    } else {
        let before = parts_from(items, from, n - 1);
        match part_of(items[n - 1]) {
            Some(x) => before.push(x),
            None => before,
        }
    }
}

/// Reads the parts among the items from `from` on.
fn read_parts(items: &Vec<Sexp>, from: usize) -> (r: Vec<OrcadPart>)
    ensures
        parts_text(r@) == parts_from(items@, from as int, items@.len() as int),
{
    let mut found: Vec<OrcadPart> = Vec::new();
    if items.len() <= from {
        assert(parts_text(found@) =~= Seq::empty());
        return found;
    }
    let mut i: usize = from;
    assert(parts_text(found@) =~= parts_from(items@, from as int, from as int));
    while i < items.len()
        invariant
            from <= i <= items@.len(),
            parts_text(found@) == parts_from(items@, from as int, i as int),
        decreases items@.len() - i,
    {
        let ghost before = found@;
        if let Some(x) = read_part_form(&items[i]) {
            found.push(x);
            assert(parts_text(found@) =~= parts_text(before).push(part_text(x)));
        }
        i = i + 1;
    }
    found
}

/// The nets among the items from `from` up to `n`, in order.
pub open spec fn nets_from(items: Seq<Sexp>, from: int, n: int) -> Seq<NetText>
    decreases n - from,
{
    if n <= from || n > items.len() || from < 0 {
        Seq::empty()
    } else {
        let before = nets_from(items, from, n - 1);
        match net_of(items[n - 1]) {
            Some(x) => before.push(x),
            None => before,
        }
    }
}

/// Reads the nets among the items from `from` on.
fn read_nets(items: &Vec<Sexp>, from: usize) -> (r: Vec<OrcadNet>)
    ensures
        nets_text(r@) == nets_from(items@, from as int, items@.len() as int),
{
    let mut found: Vec<OrcadNet> = Vec::new();
    if items.len() <= from {
        assert(nets_text(found@) =~= Seq::empty());
        return found;
    }
    let mut i: usize = from;
    assert(nets_text(found@) =~= nets_from(items@, from as int, from as int));
    while i < items.len()
        invariant
            from <= i <= items@.len(),
            nets_text(found@) == nets_from(items@, from as int, i as int),
        decreases items@.len() - i,
    {
        let ghost before = found@;
        if let Some(x) = read_net_form(&items[i]) {
            found.push(x);
            assert(nets_text(found@) =~= nets_text(before).push(net_text(x)));
        }
        i = i + 1;
    }
    found
}

/// The primitive that a form
/// `(primitive NAME (pins (pin …)*) (body (param …)*))` gives.
pub open spec fn primitive_of(e: Sexp) -> Option<PrimitiveText> {
    if is_form(e, "primitive"@) && item_text(e, 1) is Some {
        let pins = items_under(items_of(e), "pins"@);
        let body = items_under(items_of(e), "body"@);
        Some(
            (
                item_text(e, 1)->0,
                pins_from(pins, 1, pins.len() as int),
                params_from(body, 1, body.len() as int),
            ),
        )
    } else {
        None
    }
}

/// Reads a form `(primitive NAME (pins (pin …)*) (body (param …)*))`.
fn read_primitive_form(e: &Sexp) -> (r: Option<OrcadPrimitive>)
    ensures
        match r {
            Some(p) => primitive_of(*e) == Some(primitive_text(p)),
            None => primitive_of(*e) is None,
        },
{
    if !form_is(e, "primitive") {
        return None;
    }
    let Some(name) = text_at(e, 1) else {
        return None;
    };
    let Some(items) = list_items(e) else {
        return None;
    };
    let pins = match under(items, "pins") {
        Some(inner) => read_pins(inner, 1),
        None => {
            let none: Vec<OrcadPin> = Vec::new();
            assert(pins_text(none@) =~= Seq::empty());
            none
        },
    };
    let body = match under(items, "body") {
        Some(inner) => read_params(inner, 1),
        None => {
            let none: Vec<OrcadParam> = Vec::new();
            assert(params_text(none@) =~= Seq::empty());
            none
        },
    };
    Some(OrcadPrimitive { name, pins, body })
}

/// The primitives among the items from `from` up to `n`, in order.
pub open spec fn primitives_from(items: Seq<Sexp>, from: int, n: int) -> Seq<PrimitiveText>
    decreases n - from,
{
    if n <= from || n > items.len() || from < 0 {
        Seq::empty()
    } else {
        let before = primitives_from(items, from, n - 1);
        match primitive_of(items[n - 1]) {
            Some(x) => before.push(x),
            None => before,
        }
    }
}

/// Reads the primitives among the items from `from` on.
fn read_primitives(items: &Vec<Sexp>, from: usize) -> (r: Vec<OrcadPrimitive>)
    ensures
        primitives_text(r@) == primitives_from(items@, from as int, items@.len() as int),
{
    let mut found: Vec<OrcadPrimitive> = Vec::new();
    if items.len() <= from {
        assert(primitives_text(found@) =~= Seq::empty());
        return found;
    }
    let mut i: usize = from;
    assert(primitives_text(found@) =~= primitives_from(items@, from as int, from as int));
    while i < items.len()
        invariant
            from <= i <= items@.len(),
            primitives_text(found@) == primitives_from(items@, from as int, i as int),
        decreases items@.len() - i,
    {
        let ghost before = found@;
        if let Some(x) = read_primitive_form(&items[i]) {
            found.push(x);
            assert(primitives_text(found@) =~= primitives_text(before).push(primitive_text(x)));
        }
        i = i + 1;
    }
    found
}

/// Why the files of an OrCAD netlist cannot be read.
#[derive(Debug, PartialEq, Eq, Copy, Clone, Structural)]
pub enum OrcadError {
    /// A file is no sequence of forms.
    Syntax(SexpError),
    /// The file of parts or the file of primitives is not there.
    MissingCompanionFile,
}

/// The nets `nets` are what the text holds: the text is a sequence of
/// forms, and the nets are those that its forms give, in order.
pub open spec fn holds_nets(text: Seq<char>, nets: Seq<OrcadNet>) -> bool {
    exists|forms: Seq<Sexp>| #[trigger]
        forms_of(text, forms) && nets_text(nets) == nets_from(forms, 0, forms.len() as int)
}

/// The parts `parts` are what the text holds.
pub open spec fn holds_parts(text: Seq<char>, parts: Seq<OrcadPart>) -> bool {
    exists|forms: Seq<Sexp>| #[trigger]
        forms_of(text, forms) && parts_text(parts) == parts_from(forms, 0, forms.len() as int)
}

/// The primitives `primitives` are what the text holds.
pub open spec fn holds_primitives(text: Seq<char>, primitives: Seq<OrcadPrimitive>) -> bool {
    exists|forms: Seq<Sexp>| #[trigger]
        forms_of(text, forms) && primitives_text(primitives) == primitives_from(
            forms,
            0,
            forms.len() as int,
        )
}

/// Reads the file of nets. It fails exactly where the text is no sequence
/// of forms, and says why.
pub fn parse_orcad_nets(text: &str) -> (r: Result<Vec<OrcadNet>, OrcadError>)
    ensures
        match r {
            Ok(nets) => syntax_error(text@) is None && holds_nets(text@, nets@),
            Err(e) => syntax_error(text@) matches Some(why) && e == OrcadError::Syntax(why),
        },
{
    match parse_sexp(text) {
        Ok(forms) => {
            let nets = read_nets(&forms, 0);
            assert(forms_of(text@, forms@) && nets_text(nets@) == nets_from(
                forms@,
                0,
                forms@.len() as int,
            ));
            Ok(nets)
        },
        Err(e) => Err(OrcadError::Syntax(e)),
    }
}

/// Reads the file of parts. It fails exactly where the text is no sequence
/// of forms, and says why.
pub fn parse_orcad_parts(text: &str) -> (r: Result<Vec<OrcadPart>, OrcadError>)
    ensures
        match r {
            Ok(parts) => syntax_error(text@) is None && holds_parts(text@, parts@),
            Err(e) => syntax_error(text@) matches Some(why) && e == OrcadError::Syntax(why),
        },
{
    match parse_sexp(text) {
        Ok(forms) => {
            let parts = read_parts(&forms, 0);
            assert(forms_of(text@, forms@) && parts_text(parts@) == parts_from(
                forms@,
                0,
                forms@.len() as int,
            ));
            Ok(parts)
        },
        Err(e) => Err(OrcadError::Syntax(e)),
    }
}

/// Reads the file of primitives. It fails exactly where the text is no
/// sequence of forms, and says why.
pub fn parse_orcad_primitives(text: &str) -> (r: Result<Vec<OrcadPrimitive>, OrcadError>)
    ensures
        match r {
            Ok(primitives) => syntax_error(text@) is None && holds_primitives(text@, primitives@),
            Err(e) => syntax_error(text@) matches Some(why) && e == OrcadError::Syntax(why),
        },
{
    match parse_sexp(text) {
        Ok(forms) => {
            let primitives = read_primitives(&forms, 0);
            assert(forms_of(text@, forms@) && primitives_text(primitives@) == primitives_from(
                forms@,
                0,
                forms@.len() as int,
            ));
            Ok(primitives)
        },
        Err(e) => Err(OrcadError::Syntax(e)),
    }
}

/// The error that reading the three files gives, if it gives one: a file
/// that is not there comes before a file that cannot be read, and of the
/// files that cannot be read the file of parts comes first, then the file of
/// primitives, then the file of nets.
pub open spec fn orcad_failure(
    nets: Seq<char>,
    parts: Option<Seq<char>>,
    primitives: Option<Seq<char>>,
) -> Option<OrcadError> {
    if parts is None || primitives is None {
        Some(OrcadError::MissingCompanionFile)
    } else if syntax_error(parts->0) is Some {
        Some(OrcadError::Syntax(syntax_error(parts->0)->0))
    } else if syntax_error(primitives->0) is Some {
        Some(OrcadError::Syntax(syntax_error(primitives->0)->0))
    } else if syntax_error(nets) is Some {
        Some(OrcadError::Syntax(syntax_error(nets)->0))
    } else {
        None
    }
}

/// The netlist is that of lists which the three texts hold.
pub open spec fn holds_orcad(
    nets: Seq<char>,
    parts: Seq<char>,
    primitives: Seq<char>,
    netlist: Netlist,
) -> bool {
    exists|n: Seq<OrcadNet>, p: Seq<OrcadPart>, c: Seq<OrcadPrimitive>|
        holds_nets(nets, n) && holds_parts(parts, p) && holds_primitives(primitives, c)
            && netlist@ == #[trigger] orcad_view(n, p, c)
}

/// Builds the netlist of the texts of the three files. The file of nets is
/// given; the other two are given where they are there.
pub fn load_orcad_texts(nets: &str, parts: Option<&str>, primitives: Option<&str>) -> (r: Result<
    Netlist,
    OrcadError,
>)
    ensures
        match r {
            Ok(netlist) => netlist.wf() && orcad_failure(
                nets@,
                opt_text(parts),
                opt_text(primitives),
            ) is None && holds_orcad(nets@, parts->0@, primitives->0@, netlist),
            Err(e) => orcad_failure(
                nets@,
                opt_text(parts),
                opt_text(primitives),
            ) == Some(e),
        },
{
    let Some(parts) = parts else {
        return Err(OrcadError::MissingCompanionFile);
    };
    let Some(primitives) = primitives else {
        return Err(OrcadError::MissingCompanionFile);
    };
    let p = match parse_orcad_parts(parts) {
        Ok(p) => p,
        Err(e) => {
            return Err(e);
        },
    };
    let c = match parse_orcad_primitives(primitives) {
        Ok(c) => c,
        Err(e) => {
            return Err(e);
        },
    };
    let n = match parse_orcad_nets(nets) {
        Ok(n) => n,
        Err(e) => {
            return Err(e);
        },
    };
    let netlist = load_orcad_netlist(&n, &p, &c);
    assert(holds_nets(nets@, n@) && holds_parts(parts@, p@) && holds_primitives(primitives@, c@)
        && netlist@ == orcad_view(n@, p@, c@));
    Ok(netlist)
}

} // verus!
