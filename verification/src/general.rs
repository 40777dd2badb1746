//! General checks on the pins of a netlist.
use vstd::prelude::*;
use crate::collections::Key;
use crate::model::PinType;
use crate::names::{Designator, NetName, PinId};
use crate::netlist::Netlist;

verus! {

/// The pin `p` of the part `d` resolves, through the part and its library
/// part, to a pin whose default type is `ty`.
pub open spec fn pin_has_type(netlist: &Netlist, d: Seq<char>, p: Seq<char>, ty: PinType) -> bool {
    &&& netlist.components.has_key(d)
    &&& netlist.lib_parts.has_key(netlist.components.value_of(d).lib_source@)
    &&& netlist.lib_parts.value_of(netlist.components.value_of(d).lib_source@).pins.has_key(p)
    &&& netlist.lib_parts.value_of(netlist.components.value_of(d).lib_source@).pins.value_of(
        p,
    ).default_mode.ty == ty
}

/// The list names the pin `p` of the part `d` on the net `n`.
pub open spec fn names_pin(
    list: Seq<(NetName, Designator, PinId)>,
    n: Seq<char>,
    d: Seq<char>,
    p: Seq<char>,
) -> bool {
    exists|i: int|
        0 <= i < list.len() && (#[trigger] list[i]).0@ == n && list[i].1@ == d && list[i].2@ == p
}

/// The type of the pin of the part, where both resolve.
pub fn pin_type(netlist: &Netlist, part: &Designator, pin: &PinId) -> (r: Option<PinType>)
    requires
        netlist.wf(),
    ensures
        forall|ty: PinType| r == Some(ty) <==> pin_has_type(netlist, part@, pin@, ty),
{
    let Some(component) = netlist.components.get(part) else {
        return None;
    };
    let Some(lib_part) = netlist.lib_parts.get(&component.lib_source) else {
        return None;
    };
    proof {
        let li = netlist.lib_parts.index_of(component.lib_source@);
        assert(netlist.lib_parts.values@[li].wf());
    }
    match lib_part.pins.get(pin) {
        Some(p) => Some(p.default_mode.ty),
        None => None,
    }
}

/// What a list of pins with their nets is, in characters.
pub open spec fn pins_view(list: Seq<(NetName, Designator, PinId)>) -> Seq<
    (Seq<char>, Seq<char>, Seq<char>),
> {
    list.map_values(|x: (NetName, Designator, PinId)| (x.0@, x.1@, x.2@))
}

/// The digital inputs among the first `m` nodes of the net at position
/// `i`, each with the name of the net, in the order of the nodes.
pub open spec fn inputs_within(netlist: &Netlist, i: int, m: nat) -> Seq<
    (Seq<char>, Seq<char>, Seq<char>),
>
    decreases m,
{
    if m == 0 {
        Seq::empty()
    } else {
        let before = inputs_within(netlist, i, (m - 1) as nat);
        let node = netlist.nets.values@[i].nodes.items@[m - 1]@;
        if pin_has_type(netlist, node.0, node.1, PinType::DigitalInput) {
            before.push((netlist.nets.keys@[i]@, node.0, node.1))
        } else {
            before
        }
    }
}

/// The digital inputs on the first `i` nets, each with the name of its
/// net, in the order of the nets and of their nodes.
pub open spec fn inputs_upto(netlist: &Netlist, i: nat) -> Seq<(Seq<char>, Seq<char>, Seq<char>)>
    decreases i,
{
    if i == 0 {
        Seq::empty()
    } else {
        inputs_upto(netlist, (i - 1) as nat) + inputs_within(
            netlist,
            i - 1,
            netlist.nets.values@[i - 1].nodes.items@.len(),
        )
    }
}

/// Lists the digital inputs with the nets they are on: the nets on which
/// to look for a driving source. They come in the order of the nets and of
/// their nodes.
pub fn input_without_driving_source(netlist: &Netlist) -> (r: Vec<(NetName, Designator, PinId)>)
    requires
        netlist.wf(),
    ensures
        forall|n: Seq<char>, d: Seq<char>, p: Seq<char>| #[trigger]
            names_pin(r@, n, d, p) <==> (netlist.node_on_net(n, d, p) && pin_has_type(
                netlist,
                d,
                p,
                PinType::DigitalInput,
            )),
        pins_view(r@) == inputs_upto(netlist, netlist.nets.keys@.len()),
{
    let mut found: Vec<(NetName, Designator, PinId)> = Vec::new();
    assert(pins_view(found@) =~= inputs_upto(netlist, 0));
    let mut i: usize = 0;
    while i < netlist.nets.len()
        invariant
            netlist.wf(),
            i <= netlist.nets.keys@.len(),
            pins_view(found@) == inputs_upto(netlist, i as nat),
            forall|n: Seq<char>, d: Seq<char>, p: Seq<char>| #[trigger]
                names_pin(found@, n, d, p) <==> (netlist.node_on_net(n, d, p) && pin_has_type(
                    netlist,
                    d,
                    p,
                    PinType::DigitalInput,
                ) && netlist.nets.index_of(n) < i),
        decreases netlist.nets.keys@.len() - i,
    {
        let name = netlist.nets.key_at(i);
        let net = netlist.nets.value_at(i);
        let ghost outer = found@;
        proof {
            netlist.lemma_net_at(i as int);
        }
        let mut m: usize = 0;
        assert(pins_view(found@) =~= pins_view(outer) + inputs_within(netlist, i as int, 0));
        while m < net.nodes.items.len()
            invariant
                netlist.wf(),
                i < netlist.nets.keys@.len(),
                *name == netlist.nets.keys@[i as int],
                *net == netlist.nets.values@[i as int],
                m <= net.nodes.items@.len(),
                pins_view(found@) == pins_view(outer) + inputs_within(netlist, i as int, m as nat),
                forall|n: Seq<char>, d: Seq<char>, p: Seq<char>| #[trigger]
                    names_pin(found@, n, d, p) <==> (names_pin(outer, n, d, p) || (n == name@
                        && pin_has_type(netlist, d, p, PinType::DigitalInput) && exists|q: int|
                        0 <= q < m && (#[trigger] net.nodes.items@[q])@ == (d, p))),
            decreases net.nodes.items@.len() - m,
        {
            let node = &net.nodes.items[m];
            let ghost inner = found@;
            let taken = match pin_type(netlist, &node.designator, &node.pin_id) {
                Some(PinType::DigitalInput) => true,
                _ => false,
            };
            assert(taken == pin_has_type(
                netlist,
                node.designator@,
                node.pin_id@,
                PinType::DigitalInput,
            ));
            if taken {
                found.push((name.clone(), node.designator.clone(), node.pin_id.clone()));
                assert(pins_view(found@) =~= pins_view(inner).push(
                    (name@, node.designator@, node.pin_id@),
                ));
            }
            assert(pins_view(found@) =~= pins_view(outer) + inputs_within(
                netlist,
                i as int,
                (m + 1) as nat,
            ));
            proof {
                assert forall|n: Seq<char>, d: Seq<char>, p: Seq<char>| #[trigger]
                    names_pin(found@, n, d, p) <==> (names_pin(outer, n, d, p) || (n == name@
                        && pin_has_type(netlist, d, p, PinType::DigitalInput) && exists|q: int|
                        0 <= q < m + 1 && (#[trigger] net.nodes.items@[q])@ == (d, p))) by {
                    if names_pin(found@, n, d, p) {
                        let u = choose|u: int|
                            0 <= u < found@.len() && (#[trigger] found@[u]).0@ == n && found@[u].1@
                                == d && found@[u].2@ == p;
                        if u < inner.len() {
                            assert(inner[u].0@ == n && inner[u].1@ == d && inner[u].2@ == p);
                            assert(names_pin(inner, n, d, p));
                            if !names_pin(outer, n, d, p) {
                                let q = choose|q: int|
                                    0 <= q < m && (#[trigger] net.nodes.items@[q])@ == (d, p);
                                assert(0 <= q < m + 1 && net.nodes.items@[q]@ == (d, p));
                            }
                        } else {
                            assert(0 <= m < m + 1 && net.nodes.items@[m as int]@ == (d, p));
                        }
                    }
                    if names_pin(inner, n, d, p) {
                        let u = choose|u: int|
                            0 <= u < inner.len() && (#[trigger] inner[u]).0@ == n && inner[u].1@
                                == d && inner[u].2@ == p;
                        assert(found@[u].0@ == n && found@[u].1@ == d && found@[u].2@ == p);
                    }
                    if n == name@ && pin_has_type(netlist, d, p, PinType::DigitalInput)
                        && exists|q: int|
                        0 <= q < m + 1 && (#[trigger] net.nodes.items@[q])@ == (d, p) {
                        let q = choose|q: int|
                            0 <= q < m + 1 && (#[trigger] net.nodes.items@[q])@ == (d, p);
                        if q < m {
                            assert(names_pin(inner, n, d, p));
                        } else {
                            let z = inner.len() as int;
                            assert(found@[z].0@ == n && found@[z].1@ == d && found@[z].2@ == p);
                        }
                    }
                }
            }
            m = m + 1;
        }
        proof {
            assert forall|n: Seq<char>, d: Seq<char>, p: Seq<char>| #[trigger]
                names_pin(found@, n, d, p) <==> (netlist.node_on_net(n, d, p) && pin_has_type(
                    netlist,
                    d,
                    p,
                    PinType::DigitalInput,
                ) && netlist.nets.index_of(n) < i + 1) by {
                if names_pin(found@, n, d, p) && !names_pin(outer, n, d, p) {
                    let q = choose|q: int|
                        0 <= q < net.nodes.items@.len() && (#[trigger] net.nodes.items@[q])@ == (
                            d,
                            p,
                        );
                    assert(net.has_node(d, p));
                }
                if netlist.node_on_net(n, d, p) && netlist.nets.index_of(n) < i + 1 {
                    let j = netlist.lemma_net_named(n);
                    if j == i {
                        assert(net.has_node(d, p));
                        let q = choose|q: int|
                            0 <= q < net.nodes.items@.len() && (#[trigger] net.nodes.items@[q])@
                                == (d, p);
                    }
                }
            }
        }
        i = i + 1;
    }
    proof {
        assert forall|n: Seq<char>, d: Seq<char>, p: Seq<char>| #[trigger]
            names_pin(found@, n, d, p) <==> (netlist.node_on_net(n, d, p) && pin_has_type(
                netlist,
                d,
                p,
                PinType::DigitalInput,
            )) by {
            if netlist.node_on_net(n, d, p) {
                let j = netlist.lemma_net_named(n);
            }
        }
    }
    found
}

} // verus!
