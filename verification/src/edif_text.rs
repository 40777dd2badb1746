//! EDIF as text: the forms of a file, and the libraries that they describe.
//!
//! A file is one form `(edif NAME …)`. Of its items, the forms
//! `(library NAME … (cell …)*)` count. A cell is
//! `(cell NAME … (view NAME … (interface (port NAME (direction D))*)
//! (contents (instance …)* (net …)*)))`. An instance is
//! `(instance NAME (viewRef NAME (cellRef NAME …)) (property NAME (TYPE VALUE))*)`,
//! and a net is `(net NAME (joined (portRef PIN (instanceRef NAME))*)
//! (property …)*)`. A name is a word or `(rename WORD "shown")`. An item that
//! has none of these shapes is passed over.
use vstd::prelude::*;
use crate::edif_netlist::{
    edif_state, libraries_view, load_edif_netlist, properties_view, EdifCell, EdifCellView,
    EdifContent, EdifContentView, EdifInstance, EdifInstanceView, EdifLibrary, EdifLibraryView,
    EdifNet, EdifNetView, EdifPort, EdifPortRef, EdifPortRefView, EdifPortView, EdifProperty,
    EdifPropertyView, Symbol, SymbolView,
};
use crate::netlist::Netlist;
use crate::sexp::{balanced, flat_all, parse_sexp, tokens_from, Sexp, SexpError};
use crate::text::str_eq;

verus! {

/// The items of a list; none for a word or a quoted text.
pub open spec fn items_of(e: Sexp) -> Seq<Sexp> {
    match e {
        Sexp::List(items) => items@,
        _ => Seq::empty(),
    }
}

/// The characters of a word.
pub open spec fn word_of(e: Sexp) -> Option<Seq<char>> {
    match e {
        Sexp::Word(w) => Some(w@),
        _ => None,
    }
}

/// The characters of a word or of a quoted text.
pub open spec fn text_of(e: Sexp) -> Option<Seq<char>> {
    match e {
        Sexp::Word(w) => Some(w@),
        Sexp::Quoted(q) => Some(q@),
        Sexp::List(_) => None,
    }
}

/// The form is a list that begins with the word `keyword`.
pub open spec fn is_form(e: Sexp, keyword: Seq<char>) -> bool {
    items_of(e).len() > 0 && word_of(items_of(e)[0]) == Some(keyword)
}

/// The characters of the item at position `i`, where that is a word or a quoted text.
pub open spec fn item_text(e: Sexp, i: int) -> Option<Seq<char>> {
    if 0 <= i < items_of(e).len() {
        text_of(items_of(e)[i])
    } else {
        None
    }
}

/// The name that a form gives: a word, or `(rename WORD shown)`.
pub open spec fn symbol_of(e: Sexp) -> Option<SymbolView> {
    match e {
        Sexp::Word(w) => Some(SymbolView { name: w@, renamed: None }),
        Sexp::Quoted(_) => None,
        Sexp::List(_) => if is_form(e, "rename"@) && item_text(e, 1) is Some && item_text(e, 2)
            is Some {
            Some(SymbolView { name: item_text(e, 1)->0, renamed: item_text(e, 2) })
        } else {
            None
        },
    }
}

/// The name at position 1 of a form.
pub open spec fn name_of(e: Sexp) -> Option<SymbolView> {
    if items_of(e).len() >= 2 {
        symbol_of(items_of(e)[1])
    } else {
        None
    }
}

/// The text at position 1 of the item at position `i`, where that item
/// begins with `keyword`; the empty text otherwise.
pub open spec fn inner_text(e: Sexp, i: int, keyword: Option<Seq<char>>) -> Seq<char> {
    if 0 <= i < items_of(e).len() && (keyword is None || is_form(items_of(e)[i], keyword->0))
        && item_text(items_of(e)[i], 1) is Some {
        item_text(items_of(e)[i], 1)->0
    } else {
        Seq::empty()
    }
}

/// The port that a form `(port NAME (direction D))` gives.
pub open spec fn port_of(e: Sexp) -> Option<EdifPortView> {
    if is_form(e, "port"@) && name_of(e) is Some {
        Some(EdifPortView { name: name_of(e)->0, direction: inner_text(e, 2, Some("direction"@)) })
    } else {
        None
    }
}

/// The property that a form `(property NAME (TYPE VALUE))` gives.
pub open spec fn property_of(e: Sexp) -> Option<EdifPropertyView> {
    if is_form(e, "property"@) && name_of(e) is Some {
        Some(EdifPropertyView { name: name_of(e)->0, value: inner_text(e, 2, None) })
    } else {
        None
    }
}

/// The pin that a form `(portRef PIN (instanceRef NAME))` gives.
pub open spec fn port_ref_of(e: Sexp) -> Option<EdifPortRefView> {
    if is_form(e, "portRef"@) && item_text(e, 1) is Some && items_of(e).len() >= 3 && is_form(
        items_of(e)[2],
        "instanceRef"@,
    ) && item_text(items_of(e)[2], 1) is Some {
        Some(
            EdifPortRefView {
                pin_id: item_text(e, 1)->0,
                designator: item_text(items_of(e)[2], 1)->0,
            },
        )
    } else {
        None
    }
}

/// The ports among the items from `from` up to `n`.
pub open spec fn ports_from(items: Seq<Sexp>, from: int, n: int) -> Seq<EdifPortView>
    decreases n - from,
{
    if n <= from || n > items.len() || from < 0 {
        Seq::empty()
    } else {
        let before = ports_from(items, from, n - 1);
        match port_of(items[n - 1]) {
            Some(p) => before.push(p),
            None => before,
        }
    }
}

/// The properties among the items from `from` up to `n`.
pub open spec fn properties_from(items: Seq<Sexp>, from: int, n: int) -> Seq<EdifPropertyView>
    decreases n - from,
{
    if n <= from || n > items.len() || from < 0 {
        Seq::empty()
    } else {
        let before = properties_from(items, from, n - 1);
        match property_of(items[n - 1]) {
            Some(p) => before.push(p),
            None => before,
        }
    }
}

/// The pins among the items from `from` up to `n`.
pub open spec fn port_refs_from(items: Seq<Sexp>, from: int, n: int) -> Seq<EdifPortRefView>
    decreases n - from,
{
    if n <= from || n > items.len() || from < 0 {
        Seq::empty()
    } else {
        let before = port_refs_from(items, from, n - 1);
        match port_ref_of(items[n - 1]) {
            Some(p) => before.push(p),
            None => before,
        }
    }
}

/// The cell that a form `(viewRef NAME (cellRef NAME …))` refers to.
pub open spec fn cell_ref_of(e: Sexp) -> Option<Seq<char>> {
    if is_form(e, "viewRef"@) && items_of(e).len() >= 3 && is_form(items_of(e)[2], "cellRef"@) {
        item_text(items_of(e)[2], 1)
    } else {
        None
    }
}

/// The placed part that a form `(instance NAME (viewRef …) (property …)*)` gives.
pub open spec fn instance_of(e: Sexp) -> Option<EdifInstanceView> {
    if is_form(e, "instance"@) && name_of(e) is Some && items_of(e).len() >= 3 && cell_ref_of(
        items_of(e)[2],
    ) is Some {
        Some(
            EdifInstanceView {
                designator: name_of(e)->0.name,
                lib_part_name: cell_ref_of(items_of(e)[2])->0,
                properties: properties_from(items_of(e), 3, items_of(e).len() as int),
            },
        )
    } else {
        None
    }
}

/// The net that a form `(net NAME (joined …) (property …)*)` gives.
pub open spec fn net_form_of(e: Sexp) -> Option<EdifNetView> {
    if is_form(e, "net"@) && name_of(e) is Some {
        Some(
            EdifNetView {
                name: name_of(e)->0,
                joined: if items_of(e).len() >= 3 && is_form(items_of(e)[2], "joined"@) {
                    port_refs_from(
                        items_of(items_of(e)[2]),
                        1,
                        items_of(items_of(e)[2]).len() as int,
                    )
                } else {
                    Seq::empty()
                },
                properties: properties_from(items_of(e), 2, items_of(e).len() as int),
            },
        )
    } else {
        None
    }
}

/// The item of a sheet that a form gives: an instance or a net.
pub open spec fn content_of(e: Sexp) -> Option<EdifContentView> {
    if instance_of(e) is Some {
        Some(EdifContentView::Instance(instance_of(e)->0))
    } else if net_form_of(e) is Some {
        Some(EdifContentView::Net(net_form_of(e)->0))
    } else {
        None
    }
}

/// The items of a sheet among the items from `from` up to `n`.
pub open spec fn contents_from(items: Seq<Sexp>, from: int, n: int) -> Seq<EdifContentView>
    decreases n - from,
{
    if n <= from || n > items.len() || from < 0 {
        Seq::empty()
    } else {
        let before = contents_from(items, from, n - 1);
        match content_of(items[n - 1]) {
            Some(c) => before.push(c),
            None => before,
        }
    }
}

/// The position of the first item from `from` on that begins with
/// `keyword`; the number of items where there is none.
pub open spec fn form_index(items: Seq<Sexp>, keyword: Seq<char>, from: int) -> int
    decreases items.len() - from,
{
    if from < 0 || from >= items.len() {
        items.len() as int
    } else if is_form(items[from], keyword) {
        from
    } else {
        form_index(items, keyword, from + 1)
    }
}

/// The items of the first item that begins with `keyword`; none where
/// there is no such item.
pub open spec fn items_under(items: Seq<Sexp>, keyword: Seq<char>) -> Seq<Sexp> {
    let i = form_index(items, keyword, 0);
    if i < items.len() {
        items_of(items[i])
    } else {
        Seq::empty()
    }
}

/// The cell that a form `(cell NAME … (view …))` gives.
pub open spec fn cell_of(e: Sexp) -> Option<EdifCellView> {
    if is_form(e, "cell"@) && name_of(e) is Some {
        let view = items_under(items_of(e), "view"@);
        let interface = items_under(view, "interface"@);
        let contents = items_under(view, "contents"@);
        Some(
            EdifCellView {
                name: name_of(e)->0,
                ports: ports_from(interface, 1, interface.len() as int),
                contents: contents_from(contents, 1, contents.len() as int),
            },
        )
    } else {
        None
    }
}

/// The cells among the items from `from` up to `n`.
pub open spec fn cells_from(items: Seq<Sexp>, from: int, n: int) -> Seq<EdifCellView>
    decreases n - from,
{
    if n <= from || n > items.len() || from < 0 {
        Seq::empty()
    } else {
        let before = cells_from(items, from, n - 1);
        match cell_of(items[n - 1]) {
            Some(c) => before.push(c),
            None => before,
        }
    }
}

/// The library that a form `(library NAME … (cell …)*)` gives.
pub open spec fn library_of(e: Sexp) -> Option<EdifLibraryView> {
    if is_form(e, "library"@) && item_text(e, 1) is Some {
        Some(
            EdifLibraryView {
                name: item_text(e, 1)->0,
                cells: cells_from(items_of(e), 2, items_of(e).len() as int),
            },
        )
    } else {
        None
    }
}

/// The libraries among the items from `from` up to `n`.
pub open spec fn libraries_from(items: Seq<Sexp>, from: int, n: int) -> Seq<EdifLibraryView>
    decreases n - from,
{
    if n <= from || n > items.len() || from < 0 {
        Seq::empty()
    } else {
        let before = libraries_from(items, from, n - 1);
        match library_of(items[n - 1]) {
            Some(l) => before.push(l),
            None => before,
        }
    }
}

/// The libraries of a file: those of its first form `(edif …)`; none where
/// it has no such form.
pub open spec fn edif_libraries(forms: Seq<Sexp>) -> Option<Seq<EdifLibraryView>> {
    let i = form_index(forms, "edif"@, 0);
    if i < forms.len() {
        Some(libraries_from(items_of(forms[i]), 1, items_of(forms[i]).len() as int))
    } else {
        None
    }
}

/// The items of a list.
pub fn list_items(e: &Sexp) -> (r: Option<&Vec<Sexp>>)
    ensures
        match r {
            Some(items) => items@ == items_of(*e) && *e == Sexp::List(*items),
            None => items_of(*e).len() == 0 && !(*e is List),
        },
{
    match e {
        Sexp::List(items) => Some(items),
        _ => None,
    }
}

/// The characters of a word or of a quoted text.
pub fn text(e: &Sexp) -> (r: Option<String>)
    ensures
        crate::model::opt_view(r) == text_of(*e),
{
    match e {
        Sexp::Word(w) => Some(w.clone()),
        Sexp::Quoted(q) => Some(q.clone()),
        Sexp::List(_) => None,
    }
}

/// Whether the form is a list that begins with the word `keyword`.
pub fn form_is(e: &Sexp, keyword: &str) -> (r: bool)
    ensures
        r == is_form(*e, keyword@),
{
    match e {
        Sexp::List(items) => {
            if items.len() == 0 {
                return false;
            }
            match &items[0] {
                Sexp::Word(w) => str_eq(w.as_str(), keyword),
                _ => false,
            }
        },
        _ => false,
    }
}

/// The characters of the item at position `i`.
pub fn text_at(e: &Sexp, i: usize) -> (r: Option<String>)
    ensures
        crate::model::opt_view(r) == item_text(*e, i as int),
{
    match e {
        Sexp::List(items) => if i < items.len() {
            text(&items[i])
        } else {
            None
        },
        _ => None,
    }
}

/// The name that a form gives.
fn symbol(e: &Sexp) -> (r: Option<Symbol>)
    ensures
        match r {
            Some(s) => symbol_of(*e) == Some(s@),
            None => symbol_of(*e) is None,
        },
{
    match e {
        Sexp::Word(w) => Some(Symbol { name: w.clone(), renamed: None }),
        Sexp::Quoted(_) => None,
        Sexp::List(_) => {
            if !form_is(e, "rename") {
                return None;
            }
            let Some(name) = text_at(e, 1) else {
                return None;
            };
            let Some(shown) = text_at(e, 2) else {
                return None;
            };
            Some(Symbol { name, renamed: Some(shown) })
        },
    }
}

/// The name at position 1 of a form.
fn name(e: &Sexp) -> (r: Option<Symbol>)
    ensures
        match r {
            Some(s) => name_of(*e) == Some(s@),
            None => name_of(*e) is None,
        },
{
    match e {
        Sexp::List(items) => if items.len() >= 2 {
            symbol(&items[1])
        } else {
            None
        },
        _ => None,
    }
}

/// The text at position 1 of the item at position `i`.
fn inner(e: &Sexp, i: usize, keyword: Option<&str>) -> (r: String)
    ensures
        r@ == inner_text(
            *e,
            i as int,
            match keyword {
                Some(k) => Some(k@),
                None => None,
            },
        ),
{
    let Some(items) = list_items(e) else {
        return String::new();
    };
    if i >= items.len() {
        return String::new();
    }
    let fits = match keyword {
        Some(k) => form_is(&items[i], k),
        None => true,
    };
    if !fits {
        return String::new();
    }
    match text_at(&items[i], 1) {
        Some(t) => t,
        None => String::new(),
    }
}

/// Reads a form `(port NAME (direction D))`.
fn read_port(e: &Sexp) -> (r: Option<EdifPort>)
    ensures
        match r {
            Some(p) => port_of(*e) == Some(p@),
            None => port_of(*e) is None,
        },
{
    if !form_is(e, "port") {
        return None;
    }
    let Some(name) = name(e) else {
        return None;
    };
    Some(EdifPort { name, direction: inner(e, 2, Some("direction")) })
}

/// Reads a form `(property NAME (TYPE VALUE))`.
fn read_property(e: &Sexp) -> (r: Option<EdifProperty>)
    ensures
        match r {
            Some(p) => property_of(*e) == Some(p@),
            None => property_of(*e) is None,
        },
{
    if !form_is(e, "property") {
        return None;
    }
    let Some(name) = name(e) else {
        return None;
    };
    Some(EdifProperty { name, value: inner(e, 2, None) })
}

/// Reads a form `(portRef PIN (instanceRef NAME))`.
fn read_port_ref(e: &Sexp) -> (r: Option<EdifPortRef>)
    ensures
        match r {
            Some(p) => port_ref_of(*e) == Some(p@),
            None => port_ref_of(*e) is None,
        },
{
    if !form_is(e, "portRef") {
        return None;
    }
    let Some(pin_id) = text_at(e, 1) else {
        return None;
    };
    let Some(items) = list_items(e) else {
        return None;
    };
    if items.len() < 3 || !form_is(&items[2], "instanceRef") {
        return None;
    }
    let Some(designator) = text_at(&items[2], 1) else {
        return None;
    };
    Some(EdifPortRef { pin_id, designator })
}

/// Reads the properties among the items from `from` on.
fn read_properties(items: &Vec<Sexp>, from: usize) -> (r: Vec<EdifProperty>)
    ensures
        properties_view(r@) == properties_from(items@, from as int, items@.len() as int),
{
    let mut found: Vec<EdifProperty> = Vec::new();
    if from > items.len() {
        assert(properties_view(found@) =~= Seq::empty());
        return found;
    }
    let mut i: usize = from;
    assert(properties_view(found@) =~= properties_from(items@, from as int, from as int));
    while i < items.len()
        invariant
            from <= i <= items@.len(),
            properties_view(found@) == properties_from(items@, from as int, i as int),
        decreases items@.len() - i,
    {
        let ghost before = found@;
        if let Some(p) = read_property(&items[i]) {
            found.push(p);
            assert(properties_view(found@) =~= properties_view(before).push(p@));
        }
        i = i + 1;
    }
    found
}

/// Reads the ports among the items from position 1 on.
fn read_ports(items: &Vec<Sexp>) -> (r: Vec<EdifPort>)
    ensures
        r@.map_values(|x: EdifPort| x@) == ports_from(items@, 1, items@.len() as int),
{
    let mut found: Vec<EdifPort> = Vec::new();
    if items.len() < 1 {
        assert(found@.map_values(|x: EdifPort| x@) =~= Seq::empty());
        return found;
    }
    let mut i: usize = 1;
    assert(found@.map_values(|x: EdifPort| x@) =~= ports_from(items@, 1, 1));
    while i < items.len()
        invariant
            1 <= i <= items@.len(),
            found@.map_values(|x: EdifPort| x@) == ports_from(items@, 1, i as int),
        decreases items@.len() - i,
    {
        let ghost before = found@;
        if let Some(p) = read_port(&items[i]) {
            found.push(p);
            assert(found@.map_values(|x: EdifPort| x@) =~= before.map_values(|x: EdifPort| x@).push(
                p@,
            ));
        }
        i = i + 1;
    }
    found
}

/// Reads the pins among the items from position 1 on.
fn read_port_refs(items: &Vec<Sexp>) -> (r: Vec<EdifPortRef>)
    ensures
        r@.map_values(|x: EdifPortRef| x@) == port_refs_from(items@, 1, items@.len() as int),
{
    let mut found: Vec<EdifPortRef> = Vec::new();
    if items.len() < 1 {
        assert(found@.map_values(|x: EdifPortRef| x@) =~= Seq::empty());
        return found;
    }
    let mut i: usize = 1;
    assert(found@.map_values(|x: EdifPortRef| x@) =~= port_refs_from(items@, 1, 1));
    while i < items.len()
        invariant
            1 <= i <= items@.len(),
            found@.map_values(|x: EdifPortRef| x@) == port_refs_from(items@, 1, i as int),
        decreases items@.len() - i,
    {
        let ghost before = found@;
        if let Some(p) = read_port_ref(&items[i]) {
            found.push(p);
            assert(found@.map_values(|x: EdifPortRef| x@) =~= before.map_values(
                |x: EdifPortRef| x@,
            ).push(p@));
        }
        i = i + 1;
    }
    found
}

/// Reads a form `(viewRef NAME (cellRef NAME …))`.
fn read_cell_ref(e: &Sexp) -> (r: Option<String>)
    ensures
        crate::model::opt_view(r) == cell_ref_of(*e),
{
    if !form_is(e, "viewRef") {
        return None;
    }
    let Some(items) = list_items(e) else {
        return None;
    };
    if items.len() < 3 || !form_is(&items[2], "cellRef") {
        return None;
    }
    text_at(&items[2], 1)
}

/// Reads a form `(instance NAME (viewRef …) (property …)*)`.
fn read_instance_form(e: &Sexp) -> (r: Option<EdifInstance>)
    ensures
        match r {
            Some(i) => instance_of(*e) == Some(i@),
            None => instance_of(*e) is None,
        },
{
    if !form_is(e, "instance") {
        return None;
    }
    let Some(name) = name(e) else {
        return None;
    };
    let Some(items) = list_items(e) else {
        return None;
    };
    if items.len() < 3 {
        return None;
    }
    let Some(lib_part_name) = read_cell_ref(&items[2]) else {
        return None;
    };
    Some(
        EdifInstance {
            designator: name.name,
            lib_part_name,
            properties: read_properties(items, 3),
        },
    )
}

/// Reads a form `(net NAME (joined …) (property …)*)`.
fn read_net_form(e: &Sexp) -> (r: Option<EdifNet>)
    ensures
        match r {
            Some(n) => net_form_of(*e) == Some(n@),
            None => net_form_of(*e) is None,
        },
{
    if !form_is(e, "net") {
        return None;
    }
    let Some(name) = name(e) else {
        return None;
    };
    let Some(items) = list_items(e) else {
        return None;
    };
    let mut joined: Vec<EdifPortRef> = Vec::new();
    assert(joined@.map_values(|x: EdifPortRef| x@) =~= Seq::empty());
    if items.len() >= 3 && form_is(&items[2], "joined") {
        if let Some(refs) = list_items(&items[2]) {
            joined = read_port_refs(refs);
        }
    }
    Some(EdifNet { name, joined, properties: read_properties(items, 2) })
}

/// Reads an item of a sheet.
fn read_content(e: &Sexp) -> (r: Option<EdifContent>)
    ensures
        match r {
            Some(c) => content_of(*e) == Some(c@),
            None => content_of(*e) is None,
        },
{
    if let Some(i) = read_instance_form(e) {
        return Some(EdifContent::Instance(i));
    }
    if let Some(n) = read_net_form(e) {
        return Some(EdifContent::Net(n));
    }
    None
}

/// Reads the items of a sheet among the items from position 1 on.
fn read_contents(items: &Vec<Sexp>) -> (r: Vec<EdifContent>)
    ensures
        r@.map_values(|x: EdifContent| x@) == contents_from(items@, 1, items@.len() as int),
{
    let mut found: Vec<EdifContent> = Vec::new();
    if items.len() < 1 {
        assert(found@.map_values(|x: EdifContent| x@) =~= Seq::empty());
        return found;
    }
    let mut i: usize = 1;
    assert(found@.map_values(|x: EdifContent| x@) =~= contents_from(items@, 1, 1));
    while i < items.len()
        invariant
            1 <= i <= items@.len(),
            found@.map_values(|x: EdifContent| x@) == contents_from(items@, 1, i as int),
        decreases items@.len() - i,
    {
        let ghost before = found@;
        if let Some(c) = read_content(&items[i]) {
            found.push(c);
            assert(found@.map_values(|x: EdifContent| x@) =~= before.map_values(
                |x: EdifContent| x@,
            ).push(c@));
        }
        i = i + 1;
    }
    found
}

/// Finds the first item from `from` on that begins with `keyword`.
pub fn find_form(items: &Vec<Sexp>, keyword: &str, from: usize) -> (r: usize)
    ensures
        r == form_index(items@, keyword@, from as int),
        r <= items@.len(),
        r < items@.len() ==> is_form(items@[r as int], keyword@),
    decreases items@.len() - from,
{
    if from >= items.len() {
        items.len()
    } else if form_is(&items[from], keyword) {
        from
    } else {
        find_form(items, keyword, from + 1)
    }
}

/// The items of the first item that begins with `keyword`.
pub fn under<'a>(items: &'a Vec<Sexp>, keyword: &str) -> (r: Option<&'a Vec<Sexp>>)
    ensures
        match r {
            Some(v) => v@ == items_under(items@, keyword@),
            None => items_under(items@, keyword@).len() == 0,
        },
{
    let i = find_form(items, keyword, 0);
    if i < items.len() {
        list_items(&items[i])
    } else {
        None
    }
}

/// Reads a form `(cell NAME … (view …))`.
fn read_cell(e: &Sexp) -> (r: Option<EdifCell>)
    ensures
        match r {
            Some(c) => cell_of(*e) == Some(c@),
            None => cell_of(*e) is None,
        },
{
    if !form_is(e, "cell") {
        return None;
    }
    let Some(name) = name(e) else {
        return None;
    };
    let Some(items) = list_items(e) else {
        return None;
    };
    let mut ports: Vec<EdifPort> = Vec::new();
    let mut contents: Vec<EdifContent> = Vec::new();
    assert(ports@.map_values(|x: EdifPort| x@) =~= Seq::empty());
    assert(contents@.map_values(|x: EdifContent| x@) =~= Seq::empty());
    if let Some(view) = under(items, "view") {
        if let Some(interface) = under(view, "interface") {
            ports = read_ports(interface);
        }
        if let Some(sheet) = under(view, "contents") {
            contents = read_contents(sheet);
        }
    }
    Some(EdifCell { name, ports, contents })
}

/// Reads a form `(library NAME … (cell …)*)`.
fn read_library(e: &Sexp) -> (r: Option<EdifLibrary>)
    ensures
        match r {
            Some(l) => library_of(*e) == Some(l@),
            None => library_of(*e) is None,
        },
{
    if !form_is(e, "library") {
        return None;
    }
    let Some(name) = text_at(e, 1) else {
        return None;
    };
    let Some(items) = list_items(e) else {
        return None;
    };
    let mut cells: Vec<EdifCell> = Vec::new();
    if items.len() >= 2 {
        let mut i: usize = 2;
        assert(cells@.map_values(|x: EdifCell| x@) =~= cells_from(items@, 2, 2));
        while i < items.len()
            invariant
                2 <= i <= items@.len(),
                cells@.map_values(|x: EdifCell| x@) == cells_from(items@, 2, i as int),
            decreases items@.len() - i,
        {
            let ghost before = cells@;
            if let Some(c) = read_cell(&items[i]) {
                cells.push(c);
                assert(cells@.map_values(|x: EdifCell| x@) =~= before.map_values(
                    |x: EdifCell| x@,
                ).push(c@));
            }
            i = i + 1;
        }
    } else {
        assert(cells@.map_values(|x: EdifCell| x@) =~= Seq::empty());
    }
    Some(EdifLibrary { name, cells })
}

/// Reads the libraries of a file from its forms.
pub fn read_libraries(forms: &Vec<Sexp>) -> (r: Option<Vec<EdifLibrary>>)
    ensures
        match r {
            Some(l) => edif_libraries(forms@) == Some(libraries_view(l@)),
            None => edif_libraries(forms@) is None,
        },
{
    let at = find_form(forms, "edif", 0);
    if at >= forms.len() {
        return None;
    }
    let Some(items) = list_items(&forms[at]) else {
        return None;
    };
    let mut libraries: Vec<EdifLibrary> = Vec::new();
    let mut i: usize = 1;
    assert(libraries_view(libraries@) =~= libraries_from(items@, 1, 1));
    while i < items.len()
        invariant
            1 <= i <= items@.len(),
            libraries_view(libraries@) == libraries_from(items@, 1, i as int),
        decreases items@.len() - i,
    {
        let ghost before = libraries@;
        if let Some(l) = read_library(&items[i]) {
            libraries.push(l);
            assert(libraries_view(libraries@) =~= libraries_view(before).push(l@));
        }
        i = i + 1;
    }
    Some(libraries)
}

/// Why a text is no EDIF file.
#[derive(Debug, PartialEq, Eq, Copy, Clone, Structural)]
pub enum EdifError {
    /// The text is no sequence of forms.
    Syntax(SexpError),
    /// No form of the text begins with `edif`.
    NotEdif,
}

/// The libraries `l` are what the text holds.
pub open spec fn holds_libraries(text: Seq<char>, l: Seq<EdifLibrary>) -> bool {
    exists|forms: Seq<Sexp>| #[trigger]
        flat_all(forms, forms.len()) == tokens_from(text, 0)->0 && edif_libraries(forms) == Some(
            libraries_view(l),
        )
}

/// No sequence of forms with the tokens of the text holds a form that
/// begins with `edif`.
pub open spec fn holds_no_edif(text: Seq<char>) -> bool {
    exists|forms: Seq<Sexp>| #[trigger]
        flat_all(forms, forms.len()) == tokens_from(text, 0)->0 && edif_libraries(forms) is None
}

/// Reads the libraries of an EDIF file. The text must be a sequence of
/// forms, and one of them must begin with `edif`.
pub fn parse_edif(text: &str) -> (r: Result<Vec<EdifLibrary>, EdifError>)
    ensures
        match r {
            Ok(l) => tokens_from(text@, 0) is Some && balanced(tokens_from(text@, 0)->0)
                && holds_libraries(text@, l@),
            Err(EdifError::Syntax(SexpError::OpenQuote)) => tokens_from(text@, 0) is None,
            Err(EdifError::Syntax(SexpError::Unbalanced)) => tokens_from(text@, 0) is Some
                && !balanced(tokens_from(text@, 0)->0),
            Err(EdifError::NotEdif) => tokens_from(text@, 0) is Some && balanced(
                tokens_from(text@, 0)->0,
            ) && holds_no_edif(text@),
        },
{
    let forms = match parse_sexp(text) {
        Ok(forms) => forms,
        Err(e) => {
            return Err(EdifError::Syntax(e));
        },
    };
    match read_libraries(&forms) {
        Some(l) => {
            assert(flat_all(forms@, forms@.len()) == tokens_from(text@, 0)->0 && edif_libraries(
                forms@,
            ) == Some(libraries_view(l@)));
            Ok(l)
        },
        None => {
            assert(flat_all(forms@, forms@.len()) == tokens_from(text@, 0)->0 && edif_libraries(
                forms@,
            ) is None);
            Err(EdifError::NotEdif)
        },
    }
}

/// The netlist is that of libraries which the text holds.
pub open spec fn holds_netlist(text: Seq<char>, netlist: Netlist) -> bool {
    exists|l: Seq<EdifLibrary>| #[trigger]
        holds_libraries(text, l) && netlist@ == edif_state(l, l.len())
}

/// Builds the netlist of an EDIF file from its text.
pub fn load_edif_text(text: &str) -> (r: Result<Netlist, EdifError>)
    ensures
        match r {
            Ok(netlist) => netlist.wf() && tokens_from(text@, 0) is Some && balanced(
                tokens_from(text@, 0)->0,
            ) && holds_netlist(text@, netlist),
            Err(EdifError::Syntax(SexpError::OpenQuote)) => tokens_from(text@, 0) is None,
            Err(EdifError::Syntax(SexpError::Unbalanced)) => tokens_from(text@, 0) is Some
                && !balanced(tokens_from(text@, 0)->0),
            Err(EdifError::NotEdif) => tokens_from(text@, 0) is Some && balanced(
                tokens_from(text@, 0)->0,
            ) && holds_no_edif(text@),
        },
{
    match parse_edif(text) {
        Ok(libraries) => {
            let netlist = load_edif_netlist(&libraries);
            assert(holds_libraries(text@, libraries@) && netlist@ == edif_state(
                libraries@,
                libraries@.len(),
            ));
            Ok(netlist)
        },
        Err(e) => Err(e),
    }
}

} // verus!
