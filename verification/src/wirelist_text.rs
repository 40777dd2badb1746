//! The wirelist that accompanies an EDIF file, as text.
//!
//! The text is a sequence of forms. After the word `COMPONENT_LIST` come
//! the parts, one list `(PART_NUMBER DESIGNATOR FOOTPRINT)` each. After the
//! word `WIRE_LIST` come the nets, one list
//! `(INDEX NAME (DESIGNATOR PIN_ID PIN_NAME IO_TYPE PART_VALUE)*)` each. A
//! field is a word or a quoted text. Anything else between the lists, such as
//! the braces that frame the two sections, is passed over.
use vstd::prelude::*;
use crate::altium_netlist::{altium_view, load_altium_netlist};
use crate::edif_netlist::EdifLibrary;
use crate::edif_text::{
    holds_libraries, holds_no_edif, item_text, items_of, list_items, parse_edif, text_at,
    word_of, EdifError,
};
use crate::netlist::Netlist;
use crate::sexp::{forms_of, parse_sexp, syntax_error, Sexp, SexpError};
use crate::text::str_eq;
use crate::wirelist::{Wirelist, WirelistComponent, WirelistConnection, WirelistNet};

verus! {

/// A part of the list of parts in characters: part number, designator, footprint.
pub type ComponentText = (Seq<char>, Seq<char>, Seq<char>);

/// A connection in characters: designator, pin, name of the pin, type of
/// the pin, value of the part.
pub type ConnectionText = (Seq<char>, Seq<char>, Seq<char>, Seq<char>, Seq<char>);

/// A net in characters: its name and its connections.
pub type NetBlockText = (Seq<char>, Seq<ConnectionText>);

/// A wirelist in characters: its parts and its nets.
pub type WirelistText = (Seq<ComponentText>, Seq<NetBlockText>);

/// What a part of the list is, in characters.
pub open spec fn component_text(c: WirelistComponent) -> ComponentText {
    (c.part_number@, c.designator@, c.footprint@)
}

/// What parts of the list are, in characters.
pub open spec fn components_text(s: Seq<WirelistComponent>) -> Seq<ComponentText> {
    s.map_values(|c: WirelistComponent| component_text(c))
}

/// What a connection is, in characters.
pub open spec fn connection_text(c: WirelistConnection) -> ConnectionText {
    (c.designator@, c.pin_id@, c.pin_name@, c.io_type@, c.part_value@)
}

/// What connections are, in characters.
pub open spec fn connections_text(s: Seq<WirelistConnection>) -> Seq<ConnectionText> {
    s.map_values(|c: WirelistConnection| connection_text(c))
}

/// What a net is, in characters.
pub open spec fn net_block_text(n: WirelistNet) -> NetBlockText {
    (n.name@, connections_text(n.connections@))
}

/// What nets are, in characters.
pub open spec fn net_blocks_text(s: Seq<WirelistNet>) -> Seq<NetBlockText> {
    s.map_values(|n: WirelistNet| net_block_text(n))
}

/// What a wirelist is, in characters.
pub open spec fn wirelist_text(w: Wirelist) -> WirelistText {
    (components_text(w.components@), net_blocks_text(w.nets@))
}

/// The part that a list `(PART_NUMBER DESIGNATOR FOOTPRINT)` gives.
pub open spec fn component_of(e: Sexp) -> Option<ComponentText> {
    if item_text(e, 0) is Some && item_text(e, 1) is Some && item_text(e, 2) is Some {
        Some((item_text(e, 0)->0, item_text(e, 1)->0, item_text(e, 2)->0))
    } else {
        None
    }
}

/// The connection that a list
/// `(DESIGNATOR PIN_ID PIN_NAME IO_TYPE PART_VALUE)` gives.
pub open spec fn connection_of(e: Sexp) -> Option<ConnectionText> {
    if item_text(e, 0) is Some && item_text(e, 1) is Some && item_text(e, 2) is Some && item_text(
        e,
        3,
    ) is Some && item_text(e, 4) is Some {
        Some(
            (
                item_text(e, 0)->0,
                item_text(e, 1)->0,
                item_text(e, 2)->0,
                item_text(e, 3)->0,
                item_text(e, 4)->0,
            ),
        )
    } else {
        None
    }
}

/// Reads a list `(PART_NUMBER DESIGNATOR FOOTPRINT)`.
fn read_component(e: &Sexp) -> (r: Option<WirelistComponent>)
    ensures
        match r {
            Some(c) => component_of(*e) == Some(component_text(c)),
            None => component_of(*e) is None,
        },
{
    let Some(part_number) = text_at(e, 0) else {
        return None;
    };
    let Some(designator) = text_at(e, 1) else {
        return None;
    };
    let Some(footprint) = text_at(e, 2) else {
        return None;
    };
    Some(WirelistComponent { part_number, designator, footprint })
}

/// Reads a list `(DESIGNATOR PIN_ID PIN_NAME IO_TYPE PART_VALUE)`.
fn read_connection(e: &Sexp) -> (r: Option<WirelistConnection>)
    ensures
        match r {
            Some(c) => connection_of(*e) == Some(connection_text(c)),
            None => connection_of(*e) is None,
        },
{
    let Some(designator) = text_at(e, 0) else {
        return None;
    };
    let Some(pin_id) = text_at(e, 1) else {
        return None;
    };
    let Some(pin_name) = text_at(e, 2) else {
        return None;
    };
    let Some(io_type) = text_at(e, 3) else {
        return None;
    };
    let Some(part_value) = text_at(e, 4) else {
        return None;
    };
    Some(WirelistConnection { designator, pin_id, pin_name, io_type, part_value })
}

/// The parts among the items from `from` up to `n`, in order.
pub open spec fn components_from(items: Seq<Sexp>, from: int, n: int) -> Seq<ComponentText>
    decreases n - from,
{
    if n <= from || n > items.len() || from < 0 {
        Seq::empty()
    } else {
        let before = components_from(items, from, n - 1);
        match component_of(items[n - 1]) {
            Some(x) => before.push(x),
            None => before,
        }
    }
}

/// Reads the parts among the items from `from` up to `to`.
fn read_components(items: &Vec<Sexp>, from: usize, to: usize) -> (r: Vec<WirelistComponent>)
    requires
        to <= items@.len(),
    ensures
        components_text(r@) == components_from(items@, from as int, to as int),
{
    let mut found: Vec<WirelistComponent> = Vec::new();
    if to <= from {
        assert(components_text(found@) =~= Seq::empty());
        return found;
    }
    let mut i: usize = from;
    assert(components_text(found@) =~= components_from(items@, from as int, from as int));
    while i < to
        invariant
            from <= i <= to <= items@.len(),
            components_text(found@) == components_from(items@, from as int, i as int),
        decreases to - i,
    {
        let ghost before = found@;
        if let Some(x) = read_component(&items[i]) {
            found.push(x);
            assert(components_text(found@) =~= components_text(before).push(component_text(x)));
        }
        i = i + 1;
    }
    found
}

/// The connections among the items from `from` up to `n`, in order.
pub open spec fn connections_from(items: Seq<Sexp>, from: int, n: int) -> Seq<ConnectionText>
    decreases n - from,
{
    if n <= from || n > items.len() || from < 0 {
        Seq::empty()
    } else {
        let before = connections_from(items, from, n - 1);
        match connection_of(items[n - 1]) {
            Some(x) => before.push(x),
            None => before,
        }
    }
}

/// Reads the connections among the items from `from` up to `to`.
fn read_connections(items: &Vec<Sexp>, from: usize, to: usize) -> (r: Vec<WirelistConnection>)
    requires
        to <= items@.len(),
    ensures
        connections_text(r@) == connections_from(items@, from as int, to as int),
{
    let mut found: Vec<WirelistConnection> = Vec::new();
    if to <= from {
        assert(connections_text(found@) =~= Seq::empty());
        return found;
    }
    let mut i: usize = from;
    assert(connections_text(found@) =~= connections_from(items@, from as int, from as int));
    while i < to
        invariant
            from <= i <= to <= items@.len(),
            connections_text(found@) == connections_from(items@, from as int, i as int),
        decreases to - i,
    {
        let ghost before = found@;
        if let Some(x) = read_connection(&items[i]) {
            found.push(x);
            assert(connections_text(found@) =~= connections_text(before).push(connection_text(x)));
        }
        i = i + 1;
    }
    found
}

/// The net that a list `(INDEX NAME (…)*)` gives.
pub open spec fn net_block_of(e: Sexp) -> Option<NetBlockText> {
    if item_text(e, 0) is Some && item_text(e, 1) is Some {
        Some((item_text(e, 1)->0, connections_from(items_of(e), 2, items_of(e).len() as int)))
    } else {
        None
    }
}

/// Reads a list `(INDEX NAME (…)*)`.
fn read_net_block(e: &Sexp) -> (r: Option<WirelistNet>)
    ensures
        match r {
            Some(n) => net_block_of(*e) == Some(net_block_text(n)),
            None => net_block_of(*e) is None,
        },
{
    let Some(_index) = text_at(e, 0) else {
        return None;
    };
    let Some(name) = text_at(e, 1) else {
        return None;
    };
    let Some(items) = list_items(e) else {
        return None;
    };
    Some(WirelistNet { name, connections: read_connections(items, 2, items.len()) })
}

/// The nets among the items from `from` up to `n`, in order.
pub open spec fn net_blocks_from(items: Seq<Sexp>, from: int, n: int) -> Seq<NetBlockText>
    decreases n - from,
{
    if n <= from || n > items.len() || from < 0 {
        Seq::empty()
    } else {
        let before = net_blocks_from(items, from, n - 1);
        match net_block_of(items[n - 1]) {
            Some(x) => before.push(x),
            None => before,
        }
    }
}

/// Reads the nets among the items from `from` up to `to`.
fn read_net_blocks(items: &Vec<Sexp>, from: usize, to: usize) -> (r: Vec<WirelistNet>)
    requires
        to <= items@.len(),
    ensures
        net_blocks_text(r@) == net_blocks_from(items@, from as int, to as int),
{
    let mut found: Vec<WirelistNet> = Vec::new();
    if to <= from {
        assert(net_blocks_text(found@) =~= Seq::empty());
        return found;
    }
    let mut i: usize = from;
    assert(net_blocks_text(found@) =~= net_blocks_from(items@, from as int, from as int));
    while i < to
        invariant
            from <= i <= to <= items@.len(),
            net_blocks_text(found@) == net_blocks_from(items@, from as int, i as int),
        decreases to - i,
    {
        let ghost before = found@;
        if let Some(x) = read_net_block(&items[i]) {
            found.push(x);
            assert(net_blocks_text(found@) =~= net_blocks_text(before).push(net_block_text(x)));
        }
        i = i + 1;
    }
    found
}

/// The position of the first form from `from` on that is the word `word`;
/// the number of forms where there is none.
pub open spec fn word_index(forms: Seq<Sexp>, word: Seq<char>, from: int) -> int
    decreases forms.len() - from,
{
    if from < 0 || from >= forms.len() {
        forms.len() as int
    } else if word_of(forms[from]) == Some(word) {
        from
    } else {
        word_index(forms, word, from + 1)
    }
}

/// Finds the first form from `from` on that is the word `word`.
fn find_word(forms: &Vec<Sexp>, word: &str, from: usize) -> (r: usize)
    ensures
        r == word_index(forms@, word@, from as int),
        from <= r || r == forms@.len(),
        r <= forms@.len(),
    decreases forms@.len() - from,
{
    if from >= forms.len() {
        return forms.len();
    }
    let found = match &forms[from] {
        Sexp::Word(w) => str_eq(w.as_str(), word),
        _ => false,
    };
    if found {
        from
    } else {
        find_word(forms, word, from + 1)
    }
}

/// Why a text is no wirelist.
#[derive(Debug, PartialEq, Eq, Copy, Clone, Structural)]
pub enum WirelistError {
    /// The text is no sequence of forms.
    Syntax(SexpError),
    /// The word `COMPONENT_LIST` is not among the forms.
    NoComponentList,
    /// The word `WIRE_LIST` does not follow the word `COMPONENT_LIST`.
    NoWireList,
}

/// What the forms hold: the parts between the words `COMPONENT_LIST` and
/// `WIRE_LIST`, and the nets after `WIRE_LIST`; or which of the two words is missing.
pub open spec fn wirelist_of(forms: Seq<Sexp>) -> Result<WirelistText, WirelistError> {
    let c = word_index(forms, "COMPONENT_LIST"@, 0);
    let w = word_index(forms, "WIRE_LIST"@, c + 1);
    if c >= forms.len() {
        Err(WirelistError::NoComponentList)
    } else if w >= forms.len() {
        Err(WirelistError::NoWireList)
    } else {
        Ok((components_from(forms, c + 1, w), net_blocks_from(forms, w + 1, forms.len() as int)))
    }
}

/// What a reading is, in characters.
pub open spec fn reading_text(r: Result<Wirelist, WirelistError>) -> Result<
    WirelistText,
    WirelistError,
> {
    match r {
        Ok(w) => Ok(wirelist_text(w)),
        Err(e) => Err(e),
    }
}

/// The text is a sequence of forms that hold `outcome`.
pub open spec fn holds_wirelist(text: Seq<char>, outcome: Result<WirelistText, WirelistError>) -> bool {
    exists|forms: Seq<Sexp>| #[trigger] forms_of(text, forms) && wirelist_of(forms) == outcome
}

/// Reads a wirelist. Where the text is no sequence of forms the error says
/// why; where it is one, the result is what its forms hold, or the error that
/// tells which of the two sections is missing.
pub fn parse_wirelist(text: &str) -> (r: Result<Wirelist, WirelistError>)
    ensures
        match r {
            Err(WirelistError::Syntax(why)) => syntax_error(text@) == Some(why),
            _ => syntax_error(text@) is None && holds_wirelist(text@, reading_text(r)),
        },
{
    let forms = match parse_sexp(text) {
        Ok(forms) => forms,
        Err(e) => {
            return Err(WirelistError::Syntax(e));
        },
    };
    let c = find_word(&forms, "COMPONENT_LIST", 0);
    if c >= forms.len() {
        assert(forms_of(text@, forms@) && wirelist_of(forms@) == Err::<WirelistText, WirelistError>(
            WirelistError::NoComponentList,
        ));
        return Err(WirelistError::NoComponentList);
    }
    let w = find_word(&forms, "WIRE_LIST", c + 1);
    if w >= forms.len() {
        assert(forms_of(text@, forms@) && wirelist_of(forms@) == Err::<WirelistText, WirelistError>(
            WirelistError::NoWireList,
        ));
        return Err(WirelistError::NoWireList);
    }
    let components = read_components(&forms, c + 1, w);
    let nets = read_net_blocks(&forms, w + 1, forms.len());
    let wirelist = Wirelist { components, nets };
    assert(forms_of(text@, forms@) && wirelist_of(forms@) == Ok::<WirelistText, WirelistError>(
        wirelist_text(wirelist),
    ));
    Ok(wirelist)
}

/// Why the two files of an Altium netlist cannot be read.
#[derive(Debug, PartialEq, Eq, Copy, Clone, Structural)]
pub enum AltiumError {
    /// The wirelist is not there.
    MissingCompanionFile,
    /// The EDIF file cannot be read.
    Edif(EdifError),
    /// The wirelist cannot be read.
    Wirelist(WirelistError),
}

/// The netlist is that of libraries which the text of the EDIF file holds,
/// with what a wirelist which the other text holds knows of the pins.
pub open spec fn holds_altium(edif: Seq<char>, wirelist: Seq<char>, netlist: Netlist) -> bool {
    exists|l: Seq<EdifLibrary>, w: Wirelist|
        holds_libraries(edif, l) && holds_wirelist(
            wirelist,
            Ok::<WirelistText, WirelistError>(wirelist_text(w)),
        ) && netlist@ == #[trigger] altium_view(l, w)
}

/// Builds the netlist of the texts of an EDIF file and of the wirelist that
/// accompanies it. The wirelist is given where it is there. A wirelist that is
/// not there is told first, then an EDIF file that cannot be read, then a
/// wirelist that cannot be read.
pub fn load_altium_texts(edif: &str, wirelist: Option<&str>) -> (r: Result<Netlist, AltiumError>)
    ensures
        r is Ok ==> r->Ok_0.wf(),
        wirelist is None <==> r == Err::<Netlist, AltiumError>(AltiumError::MissingCompanionFile),
        match r {
            Ok(netlist) => wirelist is Some && syntax_error(edif@) is None && syntax_error(
                wirelist->0@,
            ) is None && holds_altium(edif@, wirelist->0@, netlist),
            Err(AltiumError::MissingCompanionFile) => wirelist is None,
            Err(AltiumError::Edif(EdifError::Syntax(why))) => syntax_error(edif@) == Some(why),
            Err(AltiumError::Edif(EdifError::NotEdif)) => syntax_error(edif@) is None
                && holds_no_edif(edif@),
            Err(AltiumError::Wirelist(WirelistError::Syntax(why))) => syntax_error(wirelist->0@)
                == Some(why),
            Err(AltiumError::Wirelist(e)) => syntax_error(wirelist->0@) is None && holds_wirelist(
                wirelist->0@,
                Err(e),
            ),
        },
{
    let Some(wirelist) = wirelist else {
        return Err(AltiumError::MissingCompanionFile);
    };
    let libraries = match parse_edif(edif) {
        Ok(l) => l,
        Err(e) => {
            return Err(AltiumError::Edif(e));
        },
    };
    let listed = match parse_wirelist(wirelist) {
        Ok(w) => w,
        Err(e) => {
            return Err(AltiumError::Wirelist(e));
        },
    };
    let netlist = load_altium_netlist(&libraries, &listed);
    assert(holds_libraries(edif@, libraries@) && holds_wirelist(
        wirelist@,
        Ok::<WirelistText, WirelistError>(wirelist_text(listed)),
    ) && netlist@ == altium_view(libraries@, listed));
    Ok(netlist)
}

} // verus!
