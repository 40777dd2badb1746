//! Netlists of Altium: an EDIF file with the wirelist that accompanies it.
//!
//! EDIF gives the parts, the library parts and the nets. The wirelist adds
//! the name and the type of every pin that EDIF knows.
use vstd::prelude::*;
use crate::collections::{Dict, Key};
use crate::edif_netlist::{edif_state, load_edif_netlist, EdifLibrary};
use crate::model::{LibName, LibPart, LibPartName, LibPartView, Pin, PinView};
use crate::names::{Designator, PinId};
use crate::netlist::{Netlist, NetlistView};
use crate::wirelist::{keys_of, load_wirelist_netlist, part_order, wirelist_state, Wirelist};

verus! {

/// The pin with the name and the type of `from`.
pub open spec fn renamed_pin(pin: PinView, from: Pin) -> PinView {
    PinView { name: from.name@, default_mode: from.default_mode, ..pin }
}

/// The pins after the first `n` pins of the wirelist have given their
/// names and types to the pins of the same identifier.
pub open spec fn merged_pins(pins: Map<Seq<char>, PinView>, from: Dict<PinId, Pin>, n: nat) -> Map<
    Seq<char>,
    PinView,
>
    decreases n,
{
    if n == 0 {
        pins
    } else {
        let before = merged_pins(pins, from, (n - 1) as nat);
        let id = from.keys@[n - 1]@;
        if before.dom().contains(id) {
            before.insert(id, renamed_pin(before[id], from.values@[n - 1]))
        } else {
            before
        }
    }
}

/// The library parts after the first `n` library parts of the wirelist
/// have been merged in. A library part of the wirelist stands for the placed
/// part of its name; its pins go to the library part of that placed part.
pub open spec fn merged_parts(
    edif: NetlistView,
    from: Dict<(LibName, LibPartName), LibPart>,
    n: nat,
) -> Map<(Seq<char>, Seq<char>), LibPartView>
    decreases n,
{
    if n == 0 {
        edif.lib_parts
    } else {
        let before = merged_parts(edif, from, (n - 1) as nat);
        let d = from.keys@[n - 1].1@;
        if edif.components.dom().contains(d) && before.dom().contains(
            edif.components[d].lib_source,
        ) {
            let source = edif.components[d].lib_source;
            before.insert(
                source,
                LibPartView {
                    pins: merged_pins(
                        before[source].pins,
                        from.values@[n - 1].pins,
                        from.values@[n - 1].pins.keys@.len(),
                    ),
                    ..before[source]
                },
            )
        } else {
            before
        }
    }
}

/// Gives the pin with the identifier `id` the name and the type of `from`.
fn rename_pin(pins: &mut Dict<PinId, Pin>, id: &PinId, from: &Pin)
    requires
        old(pins).wf(),
    ensures
        final(pins).wf(),
        final(pins).map_of(|p: Pin| p@) == (if old(pins).map_of(|p: Pin| p@).dom().contains(id@) {
            old(pins).map_of(|p: Pin| p@).insert(
                id@,
                renamed_pin(old(pins).map_of(|p: Pin| p@)[id@], *from),
            )
        } else {
            old(pins).map_of(|p: Pin| p@)
        }),
{
    let ghost before = *pins;
    let Some(i) = pins.find(id) else {
        return ;
    };
    let mut pin = pins.values.remove(i);
    assert(pin == before.values@[i as int]);
    let ghost was = pin@;
    pin.name = from.name.clone();
    pin.default_mode = from.default_mode;
    pins.values.insert(i, pin);
    proof {
        assert(pins.values@ =~= before.values@.update(i as int, pin));
        pins.lemma_index_of(i as int);
        assert forall|x: Seq<char>| before.has_key(x) && x != id@ implies pins.value_of(x)
            == before.value_of(x) by {
            let j = before.index_of(x);
            pins.lemma_index_of(j);
        }
        Dict::lemma_insert_map(&before, pins, id@, pin, |p: Pin| p@);
    }
}

/// Merges the pins of a library part of the wirelist into the library part
/// under `source`.
fn merge_part(netlist: &mut Netlist, source: &(LibName, LibPartName), from: &LibPart)
    requires
        old(netlist).wf(),
        from.wf(),
        old(netlist).lib_parts.has_key(source@),
    ensures
        final(netlist).wf(),
        final(netlist)@ == (NetlistView {
            lib_parts: old(netlist)@.lib_parts.insert(
                source@,
                LibPartView {
                    pins: merged_pins(
                        old(netlist)@.lib_parts[source@].pins,
                        from.pins,
                        from.pins.keys@.len(),
                    ),
                    ..old(netlist)@.lib_parts[source@]
                },
            ),
            ..old(netlist)@
        }),
{
    let ghost before = netlist.lib_parts;
    let Some(i) = netlist.lib_parts.find(source) else {
        return ;
    };
    let mut part = netlist.lib_parts.values.remove(i);
    let ghost was = part;
    assert(was == before.values@[i as int]);
    assert(was.wf());
    let mut j: usize = 0;
    while j < from.pins.len()
        invariant
            from.wf(),
            part.wf(),
            j <= from.pins.keys@.len(),
            part@ == (LibPartView { pins: merged_pins(was@.pins, from.pins, j as nat), ..was@ }),
        decreases from.pins.keys@.len() - j,
    {
        rename_pin(&mut part.pins, from.pins.key_at(j), from.pins.value_at(j));
        j = j + 1;
    }
    netlist.lib_parts.values.insert(i, part);
    proof {
        assert(netlist.lib_parts.values@ =~= before.values@.update(i as int, part));
        assert forall|k: int| 0 <= k < netlist.lib_parts.values@.len() implies (
        #[trigger] netlist.lib_parts.values@[k]).wf() by {
            if k != i {
                assert(netlist.lib_parts.values@[k] == before.values@[k]);
            }
        }
        netlist.lib_parts.lemma_index_of(i as int);
        assert forall|x: (Seq<char>, Seq<char>)|
            before.has_key(x) && x != source@ implies netlist.lib_parts.value_of(x)
            == before.value_of(x) by {
            let k = before.index_of(x);
            netlist.lib_parts.lemma_index_of(k);
        }
        Dict::lemma_insert_map(&before, &netlist.lib_parts, source@, part, |p: LibPart| p@);
    }
}

/// Gives the pins of the netlist read from EDIF the names and types that
/// the netlist read from the wirelist has for them.
pub fn merge_wirelist(edif: Netlist, wirelist: &Netlist) -> (r: Netlist)
    requires
        edif.wf(),
        wirelist.wf(),
    ensures
        r.wf(),
        r@ == (NetlistView {
            lib_parts: merged_parts(edif@, wirelist.lib_parts, wirelist.lib_parts.keys@.len()),
            ..edif@
        }),
{
    let mut netlist = edif;
    let mut i: usize = 0;
    assert(netlist@.lib_parts =~= merged_parts(edif@, wirelist.lib_parts, 0));
    while i < wirelist.lib_parts.len()
        invariant
            netlist.wf(),
            wirelist.wf(),
            i <= wirelist.lib_parts.keys@.len(),
            netlist@ == (NetlistView {
                lib_parts: merged_parts(edif@, wirelist.lib_parts, i as nat),
                ..edif@
            }),
        decreases wirelist.lib_parts.keys@.len() - i,
    {
        let name = &wirelist.lib_parts.key_at(i).1;
        let from = wirelist.lib_parts.value_at(i);
        let designator = Designator(name.0.clone());
        let source = match netlist.components.get(&designator) {
            Some(component) => Some(
                (component.lib_source.0.clone(), component.lib_source.1.clone()),
            ),
            None => None,
        };
        if let Some(source) = source {
            if netlist.lib_parts.contains_key(&source) {
                merge_part(&mut netlist, &source, from);
            }
        }
        i = i + 1;
    }
    netlist
}

/// The pin with the name and the type of `from`.
pub open spec fn renamed_as(pin: PinView, from: PinView) -> PinView {
    PinView { name: from.name, default_mode: from.default_mode, ..pin }
}

/// The pins with the names and types that `from` has for them: a pin whose
/// identifier `from` knows takes its name and its type from there.
pub open spec fn pins_merged(pins: Map<Seq<char>, PinView>, from: Map<Seq<char>, PinView>) -> Map<
    Seq<char>,
    PinView,
> {
    Map::new(
        |id: Seq<char>| pins.dom().contains(id),
        |id: Seq<char>|
            if from.dom().contains(id) {
                renamed_as(pins[id], from[id])
            } else {
                pins[id]
            },
    )
}

/// The library parts after the first `n` library parts of the wirelist,
/// taken in the order `order`, have been merged in. A library part of the
/// wirelist stands for the placed part of its name; its pins go to the library
/// part of that placed part.
pub open spec fn parts_merged(
    edif: NetlistView,
    order: Seq<(Seq<char>, Seq<char>)>,
    from: Map<(Seq<char>, Seq<char>), LibPartView>,
    n: nat,
) -> Map<(Seq<char>, Seq<char>), LibPartView>
    decreases n,
{
    if n == 0 {
        edif.lib_parts
    } else {
        let before = parts_merged(edif, order, from, (n - 1) as nat);
        let d = order[n - 1].1;
        if edif.components.dom().contains(d) && before.dom().contains(
            edif.components[d].lib_source,
        ) {
            let source = edif.components[d].lib_source;
            before.insert(
                source,
                LibPartView {
                    pins: pins_merged(before[source].pins, from[order[n - 1]].pins),
                    ..before[source]
                },
            )
        } else {
            before
        }
    }
}

/// What an EDIF file and the wirelist that accompanies it give: what the
/// libraries say, with the names and types of the pins that the wirelist
/// knows. The library parts of the wirelist are merged in the order in which
/// its connections first speak of them.
pub open spec fn altium_view(libraries: Seq<EdifLibrary>, wirelist: Wirelist) -> NetlistView {
    let edif = edif_state(libraries, libraries.len());
    let order = part_order(wirelist);
    NetlistView {
        lib_parts: parts_merged(edif, order, wirelist_state(wirelist).lib_parts, order.len()),
        ..edif
    }
}

/// Merging pin by pin gives every pin that the wirelist knows its name and
/// type from there.
pub proof fn lemma_pins_merged(pins: Map<Seq<char>, PinView>, from: Dict<PinId, Pin>, n: nat)
    requires
        from.wf(),
        n <= from.keys@.len(),
    ensures
        merged_pins(pins, from, n) == Map::new(
            |id: Seq<char>| pins.dom().contains(id),
            |id: Seq<char>|
                if exists|m: int| 0 <= m < n && #[trigger] from.keys@[m]@ == id {
                    renamed_as(pins[id], from.value_of(id)@)
                } else {
                    pins[id]
                },
        ),
    decreases n,
{
    let goal = Map::new(
        |id: Seq<char>| pins.dom().contains(id),
        |id: Seq<char>|
            if exists|m: int| 0 <= m < n && #[trigger] from.keys@[m]@ == id {
                renamed_as(pins[id], from.value_of(id)@)
            } else {
                pins[id]
            },
    );
    if n == 0 {
        assert(merged_pins(pins, from, n) =~= goal);
    } else {
        lemma_pins_merged(pins, from, (n - 1) as nat);
        let before = merged_pins(pins, from, (n - 1) as nat);
        let now = merged_pins(pins, from, n);
        let last = from.keys@[n - 1]@;
        from.lemma_index_of(n - 1);
        assert forall|id: Seq<char>| pins.dom().contains(id) implies now[id] == goal[id] by {
            if id == last {
                assert(0 <= n - 1 < n && from.keys@[n - 1]@ == id);
                if exists|m: int| 0 <= m < n - 1 && #[trigger] from.keys@[m]@ == id {
                    let m = choose|m: int| 0 <= m < n - 1 && #[trigger] from.keys@[m]@ == id;
                    assert(from.keys@[m]@ == from.keys@[n - 1]@);
                }
                assert(before[id] == pins[id]);
            } else {
                if exists|m: int| 0 <= m < n && #[trigger] from.keys@[m]@ == id {
                    let m = choose|m: int| 0 <= m < n && #[trigger] from.keys@[m]@ == id;
                    assert(0 <= m < n - 1 && from.keys@[m]@ == id);
                }
                if exists|m: int| 0 <= m < n - 1 && #[trigger] from.keys@[m]@ == id {
                    let m = choose|m: int| 0 <= m < n - 1 && #[trigger] from.keys@[m]@ == id;
                    assert(0 <= m < n && from.keys@[m]@ == id);
                }
            }
        }
        assert(now =~= goal);
    }
}

/// Merging the library parts of a netlist read from a wirelist, one after
/// the other, is merging what that netlist holds in the order of its library parts.
pub proof fn lemma_parts_merged(edif: NetlistView, from: &Netlist, n: nat)
    requires
        from.wf(),
        n <= from.lib_parts.keys@.len(),
    ensures
        merged_parts(edif, from.lib_parts, n) == parts_merged(
            edif,
            keys_of(from.lib_parts),
            from@.lib_parts,
            n,
        ),
    decreases n,
{
    if n > 0 {
        lemma_parts_merged(edif, from, (n - 1) as nat);
        let before = merged_parts(edif, from.lib_parts, (n - 1) as nat);
        let key = from.lib_parts.keys@[n - 1]@;
        let part = from.lib_parts.values@[n - 1];
        from.lib_parts.lemma_index_of(n - 1);
        assert(keys_of(from.lib_parts)[n - 1] == key);
        assert(from@.lib_parts[key] == part@);
        assert(part.wf());
        let d = key.1;
        if edif.components.dom().contains(d) && before.dom().contains(edif.components[d].lib_source) {
            let source = edif.components[d].lib_source;
            let pins = before[source].pins;
            lemma_pins_merged(pins, part.pins, part.pins.keys@.len());
            assert(merged_pins(pins, part.pins, part.pins.keys@.len()) =~= pins_merged(
                pins,
                part@.pins,
            )) by {
                assert forall|id: Seq<char>| pins.dom().contains(id) implies merged_pins(
                    pins,
                    part.pins,
                    part.pins.keys@.len(),
                )[id] == pins_merged(pins, part@.pins)[id] by {
                    if part.pins.has_key(id) {
                        let m = part.pins.index_of(id);
                        assert(0 <= m < part.pins.keys@.len() && part.pins.keys@[m]@ == id);
                    }
                    if exists|m: int| 0 <= m < part.pins.keys@.len() && #[trigger] part.pins.keys@[m]@ == id {
                        let m = choose|m: int|
                            0 <= m < part.pins.keys@.len() && #[trigger] part.pins.keys@[m]@ == id;
                        assert(part.pins.has_key(id));
                    }
                }
            }
        }
    }
}

/// Builds the netlist of an EDIF file and the wirelist that accompanies it.
pub fn load_altium_netlist(libraries: &Vec<EdifLibrary>, wirelist: &Wirelist) -> (r: Netlist)
    ensures
        r.wf(),
        r@ == altium_view(libraries@, *wirelist),
{
    let edif = load_edif_netlist(libraries);
    let ghost read = edif@;
    let from = load_wirelist_netlist(wirelist);
    let r = merge_wirelist(edif, &from);
    proof {
        lemma_parts_merged(read, &from, from.lib_parts.keys@.len());
        assert(keys_of(from.lib_parts).len() == from.lib_parts.keys@.len());
    }
    r
}

} // verus!
