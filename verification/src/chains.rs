//! Layered search for chains of parts between two nets.
use vstd::prelude::*;
use itertools::Itertools;
use crate::collections::{distinct_keys, seq_has, Key, KeySet};
use crate::names::{holds, pure_predicate, Designator, NetName, PinId};
use crate::netlist::Netlist;

verus! {

/// One link of a chain: the pin through which a part was reached, and the part.
pub type Link = (PinId, Designator);

/// The views of the links of a chain: pairs of a pin and a designator.
pub open spec fn chain_view(c: Seq<Link>) -> Seq<(Seq<char>, Seq<char>)> {
    c.map_values(|e: Link| e@)
}

/// Some chain of `chains` has the links `c`.
pub open spec fn has_chain(chains: Seq<Vec<Link>>, c: Seq<(Seq<char>, Seq<char>)>) -> bool {
    exists|k: int| 0 <= k < chains.len() && chain_view((#[trigger] chains[k])@) == c
}

/// `sel` picks one position in every layer.
pub open spec fn selects(layers: Seq<Vec<Link>>, sel: Seq<int>) -> bool {
    sel.len() == layers.len() && forall|i: int|
        0 <= i < sel.len() ==> 0 <= #[trigger] sel[i] < layers[i]@.len()
}

/// `c` is the combination that `sel` picks: its link `i` is the link at
/// position `sel[i]` of layer `i`.
pub open spec fn picked(layers: Seq<Vec<Link>>, sel: Seq<int>, c: Seq<Link>) -> bool {
    selects(layers, sel) && c.len() == layers.len() && forall|i: int|
        0 <= i < c.len() ==> (#[trigger] c[i])@ == layers[i]@[sel[i]]@
}

/// The combination at each position of `r` is the one that the selection
/// at the same position of `sels` picks.
pub open spec fn each_picked(layers: Seq<Vec<Link>>, sels: Seq<Seq<int>>, r: Seq<Vec<Link>>) -> bool {
    sels.len() == r.len() && forall|k: int|
        0 <= k < r.len() ==> picked(layers, #[trigger] sels[k], r[k]@)
}

/// No selection stands at two positions.
pub open spec fn all_differ(sels: Seq<Seq<int>>) -> bool {
    forall|a: int, b: int| 0 <= a < b < sels.len() ==> #[trigger] sels[a] != #[trigger] sels[b]
}

/// The combinations of `r` come from the selections `sels`, position by
/// position, and no selection stands at two positions.
pub open spec fn once_each(layers: Seq<Vec<Link>>, sels: Seq<Seq<int>>, r: Seq<Vec<Link>>) -> bool {
    each_picked(layers, sels, r) && all_differ(sels)
}

/// No two chains of the list have the same links.
pub open spec fn no_chain_twice(chains: Seq<Vec<Link>>) -> bool {
    forall|a: int, b: int|
        0 <= a < b < chains.len() ==> chain_view((#[trigger] chains[a])@) != chain_view(
            (#[trigger] chains[b])@,
        )
}

/// `Itertools::multi_cartesian_product` over the layers, collected: every
/// element of the result takes one link from each layer, in the order of the
/// layers, every such combination is in the result, and each selection of
/// positions comes out once: the elements of the result come from
/// selections that differ from one another.
#[verifier::external_body]
fn cartesian_product(layers: &Vec<Vec<Link>>) -> (r: Vec<Vec<Link>>)
    ensures
        forall|k: int|
            0 <= k < r@.len() ==> exists|sel: Seq<int>| picked(layers@, sel, (#[trigger] r@[k])@),
        forall|sel: Seq<int>| #[trigger]
            selects(layers@, sel) ==> exists|k: int|
                0 <= k < r@.len() && picked(layers@, sel, (#[trigger] r@[k])@),
        exists|sels: Seq<Seq<int>>| once_each(layers@, sels, r@),
{
    layers.iter().map(|layer| layer.iter().cloned()).multi_cartesian_product().collect()
}

impl Netlist {
    /// The net at position `j` leads from `start` to the pin `p` of part `d`:
    /// it holds a pin of `start`, but not its pin `except_pin`, and it holds
    /// the pin `p` of `d`.
    pub open spec fn leads_to(
        &self,
        j: int,
        start: Seq<char>,
        except_pin: Seq<char>,
        p: Seq<char>,
        d: Seq<char>,
    ) -> bool {
        &&& 0 <= j < self.nets.keys@.len()
        &&& self.nets.values@[j].touches(start)
        &&& !self.nets.values@[j].has_node(start, except_pin)
        &&& self.nets.values@[j].has_node(d, p)
    }

    /// The pin `p` of another part `d` is on a net of `start` that does not
    /// hold the pin `except_pin` of `start`.
    pub open spec fn reaches(
        &self,
        start: Seq<char>,
        except_pin: Seq<char>,
        p: Seq<char>,
        d: Seq<char>,
    ) -> bool {
        d != start && exists|j: int| self.leads_to(j, start, except_pin, p, d)
    }

    /// The link `(p, d)` is in layer `i` of the search from the net `start`.
    /// Layer 0 holds the pins on `start` of the parts that the first predicate
    /// accepts. Layer `i` holds what is reachable from a link of layer `i - 1`,
    /// other than through the pin of that link, and accepted by predicate `i`.
    pub open spec fn in_layer<F: Fn(&Designator) -> bool>(
        &self,
        start: Seq<char>,
        preds: Seq<F>,
        i: nat,
        p: Seq<char>,
        d: Seq<char>,
    ) -> bool
        decreases i,
    {
        if i >= preds.len() {
            false
        } else if i == 0 {
            self.node_on_net(start, d, p) && holds(preds[0], d)
        } else {
            holds(preds[i as int], d) && exists|q: Seq<char>, e: Seq<char>|
                #![trigger self.reaches(e, q, p, d)]
                self.in_layer(start, preds, (i - 1) as nat, q, e) && self.reaches(e, q, p, d)
        }
    }

    /// The link is in layer `i`, and where that is the last layer its part
    /// sits on the net `end`.
    pub open spec fn in_end_layer<F: Fn(&Designator) -> bool>(
        &self,
        start: Seq<char>,
        preds: Seq<F>,
        end: Seq<char>,
        i: nat,
        p: Seq<char>,
        d: Seq<char>,
    ) -> bool {
        self.in_layer(start, preds, i, p, d) && (i + 1 == preds.len() ==> self.on_net(end, d))
    }

    /// `c` is a chain from `start` to `end` through `preds`: one link from
    /// each layer, each part connected to the next.
    pub open spec fn is_chain<F: Fn(&Designator) -> bool>(
        &self,
        start: Seq<char>,
        preds: Seq<F>,
        end: Seq<char>,
        c: Seq<(Seq<char>, Seq<char>)>,
    ) -> bool {
        &&& c.len() == preds.len()
        &&& c.len() > 0
        &&& self.links_connected(c)
        &&& forall|i: int|
            0 <= i < c.len() ==> self.in_end_layer(
                start,
                preds,
                end,
                i as nat,
                (#[trigger] c[i]).0,
                c[i].1,
            )
    }

    /// Each part of `c` is connected to the next.
    pub open spec fn links_connected(&self, c: Seq<(Seq<char>, Seq<char>)>) -> bool {
        forall|i: int| 0 <= i < c.len() - 1 ==> self.connected((#[trigger] c[i]).1, c[i + 1].1)
    }

    /// The links of `layer` are those of layer `i` of the search.
    pub open spec fn is_layer<F: Fn(&Designator) -> bool>(
        &self,
        start: Seq<char>,
        preds: Seq<F>,
        end: Seq<char>,
        i: nat,
        layer: Seq<Link>,
    ) -> bool {
        forall|p: Seq<char>, d: Seq<char>| #[trigger]
            seq_has(layer, (p, d)) <==> self.in_end_layer(start, preds, end, i, p, d)
    }

    /// Every link of a layer names a part that the layer's predicate accepts,
    /// and a link of layer 0 is a pin on the start net.
    pub proof fn lemma_layer_accepts<F: Fn(&Designator) -> bool>(
        &self,
        start: Seq<char>,
        preds: Seq<F>,
        i: nat,
        p: Seq<char>,
        d: Seq<char>,
    )
        requires
            self.in_layer(start, preds, i, p, d),
        ensures
            i < preds.len(),
            holds(preds[i as int], d),
            i == 0 ==> self.node_on_net(start, d, p),
    {
    }

    /// Returns the pins of other parts that are reachable from any pin of
    /// `start` except through its pin `except_pin`, on parts that `end_filter` accepts.
    pub fn find_reachable_pins<F: Fn(&Designator) -> bool>(
        &self,
        start: &Designator,
        except_pin: &PinId,
        end_filter: &F,
    ) -> (r: KeySet<Link>)
        requires
            self.wf(),
            pure_predicate(*end_filter),
        ensures
            r.wf(),
            forall|p: Seq<char>, d: Seq<char>| #[trigger]
                r.has((p, d)) <==> (holds(*end_filter, d) && self.reaches(
                    start@,
                    except_pin@,
                    p,
                    d,
                )),
    {
        let mut found: KeySet<Link> = KeySet::new();
        let mut i: usize = 0;
        while i < self.nets.len()
            invariant
                self.wf(),
                pure_predicate(*end_filter),
                found.wf(),
                i <= self.nets.keys@.len(),
                forall|p: Seq<char>, d: Seq<char>| #[trigger]
                    found.has((p, d)) <==> (holds(*end_filter, d) && d != start@ && exists|j: int|
                        j < i && #[trigger] self.leads_to(j, start@, except_pin@, p, d)),
            decreases self.nets.keys@.len() - i,
        {
            let net = self.nets.value_at(i);
            let ghost outer = found;
            if !net.contains_node(start, except_pin) && net.touches_part(start) {
                let mut m: usize = 0;
                while m < net.nodes.items.len()
                    invariant
                        pure_predicate(*end_filter),
                        found.wf(),
                        m <= net.nodes.items@.len(),
                        forall|p: Seq<char>, d: Seq<char>| #[trigger]
                            found.has((p, d)) <==> (outer.has((p, d)) || (holds(*end_filter, d) && d
                                != start@ && exists|q: int|
                                0 <= q < m && (#[trigger] net.nodes.items@[q])@ == (d, p))),
                    decreases net.nodes.items@.len() - m,
                {
                    let node = &net.nodes.items[m];
                    let ghost before = found;
                    let mut taken = false;
                    if !node.designator.same(start) {
                        if end_filter(&node.designator) {
                            taken = true;
                            found.insert((node.pin_id.clone(), node.designator.clone()));
                        }
                    }
                    proof {
                        let nd = node.designator@;
                        let np = node.pin_id@;
                        assert(taken == (holds(*end_filter, nd) && nd != start@));
                        assert forall|p: Seq<char>, d: Seq<char>| #[trigger]
                            found.has((p, d)) <==> (outer.has((p, d)) || (holds(*end_filter, d) && d
                                != start@ && exists|q: int|
                                0 <= q < m + 1 && (#[trigger] net.nodes.items@[q])@ == (d, p))) by {
                            if exists|q: int|
                                0 <= q < m + 1 && (#[trigger] net.nodes.items@[q])@ == (d, p) {
                                let q = choose|q: int|
                                    0 <= q < m + 1 && (#[trigger] net.nodes.items@[q])@ == (d, p);
                                if q < m {
                                    assert(0 <= q < m && net.nodes.items@[q]@ == (d, p));
                                } else {
                                    assert(d == nd && p == np);
                                }
                            }
                            if before.has((p, d)) && !outer.has((p, d)) {
                                let q = choose|q: int|
                                    0 <= q < m && (#[trigger] net.nodes.items@[q])@ == (d, p);
                                assert(0 <= q < m + 1 && net.nodes.items@[q]@ == (d, p));
                            }
                            if taken && (p, d) == (np, nd) {
                                assert(net.nodes.items@[m as int]@ == (d, p));
                            }
                        }
                    }
                    m = m + 1;
                }
            }
            proof {
                assert forall|p: Seq<char>, d: Seq<char>| #[trigger]
                    found.has((p, d)) <==> (holds(*end_filter, d) && d != start@ && exists|j: int|
                        j < i + 1 && #[trigger] self.leads_to(j, start@, except_pin@, p, d)) by {
                    if outer.has((p, d)) {
                        let j = choose|j: int|
                            j < i && #[trigger] self.leads_to(j, start@, except_pin@, p, d);
                        assert(j < i + 1 && self.leads_to(j, start@, except_pin@, p, d));
                    }
                    if found.has((p, d)) && !outer.has((p, d)) {
                        let q = choose|q: int|
                            0 <= q < net.nodes.items@.len() && (#[trigger] net.nodes.items@[q])@ == (
                                d,
                                p,
                            );
                        assert(net.has_node(d, p));
                        assert(i < i + 1 && self.leads_to(i as int, start@, except_pin@, p, d));
                    }
                    if holds(*end_filter, d) && d != start@ && exists|j: int|
                        j < i + 1 && #[trigger] self.leads_to(j, start@, except_pin@, p, d) {
                        let j = choose|j: int|
                            j < i + 1 && #[trigger] self.leads_to(j, start@, except_pin@, p, d);
                        if j < i {
                            assert(outer.has((p, d)));
                        } else {
                            assert(net.has_node(d, p));
                            let q = choose|q: int|
                                0 <= q < net.nodes.items@.len() && (
                                #[trigger] net.nodes.items@[q])@ == (d, p);
                            assert(found.has((p, d)));
                        }
                    }
                }
            }
            i = i + 1;
        }
        proof {
            assert forall|p: Seq<char>, d: Seq<char>| #[trigger]
                found.has((p, d)) <==> (holds(*end_filter, d) && self.reaches(
                    start@,
                    except_pin@,
                    p,
                    d,
                )) by {
                if self.reaches(start@, except_pin@, p, d) {
                    let j = choose|j: int| self.leads_to(j, start@, except_pin@, p, d);
                    assert(j < i && self.leads_to(j, start@, except_pin@, p, d));
                }
            }
        }
        found
    }
    /// The pins on the net `start` of the parts that `pred` accepts.
    fn first_layer<F: Fn(&Designator) -> bool>(&self, start: &NetName, pred: &F) -> (r: KeySet<
        Link,
    >)
        requires
            self.wf(),
            pure_predicate(*pred),
        ensures
            r.wf(),
            forall|p: Seq<char>, d: Seq<char>| #[trigger]
                r.has((p, d)) <==> (self.node_on_net(start@, d, p) && holds(*pred, d)),
    {
        let mut found: KeySet<Link> = KeySet::new();
        let Some(net) = self.nets.get(start) else {
            return found;
        };
        let mut m: usize = 0;
        while m < net.nodes.items.len()
            invariant
                pure_predicate(*pred),
                found.wf(),
                m <= net.nodes.items@.len(),
                forall|p: Seq<char>, d: Seq<char>| #[trigger]
                    found.has((p, d)) <==> (holds(*pred, d) && exists|q: int|
                        0 <= q < m && (#[trigger] net.nodes.items@[q])@ == (d, p)),
            decreases net.nodes.items@.len() - m,
        {
            let node = &net.nodes.items[m];
            let ghost before = found;
            let taken = pred(&node.designator);
            if taken {
                found.insert((node.pin_id.clone(), node.designator.clone()));
            }
            proof {
                let nd = node.designator@;
                let np = node.pin_id@;
                assert forall|p: Seq<char>, d: Seq<char>| #[trigger]
                    found.has((p, d)) <==> (holds(*pred, d) && exists|q: int|
                        0 <= q < m + 1 && (#[trigger] net.nodes.items@[q])@ == (d, p)) by {
                    if exists|q: int|
                        0 <= q < m + 1 && (#[trigger] net.nodes.items@[q])@ == (d, p) {
                        let q = choose|q: int|
                            0 <= q < m + 1 && (#[trigger] net.nodes.items@[q])@ == (d, p);
                        if q < m {
                            assert(0 <= q < m && net.nodes.items@[q]@ == (d, p));
                        } else {
                            assert(d == nd && p == np);
                        }
                    }
                    if before.has((p, d)) {
                        let q = choose|q: int|
                            0 <= q < m && (#[trigger] net.nodes.items@[q])@ == (d, p);
                        assert(0 <= q < m + 1 && net.nodes.items@[q]@ == (d, p));
                    }
                    if taken && (p, d) == (np, nd) {
                        assert(net.nodes.items@[m as int]@ == (d, p));
                    }
                }
            }
            m = m + 1;
        }
        found
    }

    /// What is reachable from the links of `current`, each other than through
    /// its own pin, on parts that `pred` accepts.
    fn next_layer<F: Fn(&Designator) -> bool>(&self, current: &KeySet<Link>, pred: &F) -> (r:
        KeySet<Link>)
        requires
            self.wf(),
            pure_predicate(*pred),
        ensures
            r.wf(),
            forall|p: Seq<char>, d: Seq<char>| #[trigger]
                r.has((p, d)) <==> (holds(*pred, d) && exists|q: int|
                    0 <= q < current.items@.len() && #[trigger] self.reaches(
                        current.items@[q].1@,
                        current.items@[q].0@,
                        p,
                        d,
                    )),
    {
        let mut found: KeySet<Link> = KeySet::new();
        let mut m: usize = 0;
        while m < current.items.len()
            invariant
                self.wf(),
                pure_predicate(*pred),
                found.wf(),
                m <= current.items@.len(),
                forall|p: Seq<char>, d: Seq<char>| #[trigger]
                    found.has((p, d)) <==> (holds(*pred, d) && exists|q: int|
                        0 <= q < m && #[trigger] self.reaches(
                            current.items@[q].1@,
                            current.items@[q].0@,
                            p,
                            d,
                        )),
            decreases current.items@.len() - m,
        {
            let link = &current.items[m];
            let reach = self.find_reachable_pins(&link.1, &link.0, pred);
            let ghost outer = found;
            let mut t: usize = 0;
            while t < reach.items.len()
                invariant
                    found.wf(),
                    t <= reach.items@.len(),
                    forall|x: (Seq<char>, Seq<char>)| #[trigger]
                        found.has(x) <==> (outer.has(x) || exists|u: int|
                            0 <= u < t && (#[trigger] reach.items@[u])@ == x),
                decreases reach.items@.len() - t,
            {
                let ghost before = found;
                found.insert(reach.items[t].dup());
                proof {
                    assert forall|x: (Seq<char>, Seq<char>)| #[trigger]
                        found.has(x) <==> (outer.has(x) || exists|u: int|
                            0 <= u < t + 1 && (#[trigger] reach.items@[u])@ == x) by {
                        if exists|u: int| 0 <= u < t + 1 && (#[trigger] reach.items@[u])@ == x {
                            let u = choose|u: int|
                                0 <= u < t + 1 && (#[trigger] reach.items@[u])@ == x;
                            if u < t {
                                assert(0 <= u < t && reach.items@[u]@ == x);
                            }
                        }
                        if before.has(x) && !outer.has(x) {
                            let u = choose|u: int| 0 <= u < t && (#[trigger] reach.items@[u])@ == x;
                            assert(0 <= u < t + 1 && reach.items@[u]@ == x);
                        }
                        if x == reach.items@[t as int]@ {
                            assert(0 <= t < t + 1 && reach.items@[t as int]@ == x);
                        }
                    }
                }
                t = t + 1;
            }
            proof {
                assert forall|p: Seq<char>, d: Seq<char>| #[trigger]
                    found.has((p, d)) <==> (holds(*pred, d) && exists|q: int|
                        0 <= q < m + 1 && #[trigger] self.reaches(
                            current.items@[q].1@,
                            current.items@[q].0@,
                            p,
                            d,
                        )) by {
                    let here = self.reaches(link.1@, link.0@, p, d);
                    assert(reach.has((p, d)) <==> (holds(*pred, d) && here));
                    if outer.has((p, d)) {
                        let q = choose|q: int|
                            0 <= q < m && #[trigger] self.reaches(
                                current.items@[q].1@,
                                current.items@[q].0@,
                                p,
                                d,
                            );
                        assert(0 <= q < m + 1 && self.reaches(
                            current.items@[q].1@,
                            current.items@[q].0@,
                            p,
                            d,
                        ));
                    }
                    if found.has((p, d)) && !outer.has((p, d)) {
                        assert(reach.has((p, d)));
                        assert(0 <= m < m + 1 && self.reaches(
                            current.items@[m as int].1@,
                            current.items@[m as int].0@,
                            p,
                            d,
                        ));
                    }
                    if holds(*pred, d) && exists|q: int|
                        0 <= q < m + 1 && #[trigger] self.reaches(
                            current.items@[q].1@,
                            current.items@[q].0@,
                            p,
                            d,
                        ) {
                        let q = choose|q: int|
                            0 <= q < m + 1 && #[trigger] self.reaches(
                                current.items@[q].1@,
                                current.items@[q].0@,
                                p,
                                d,
                            );
                        if q < m {
                            assert(outer.has((p, d)));
                        } else {
                            assert(reach.has((p, d)));
                            let u = choose|u: int|
                                0 <= u < reach.items@.len() && (#[trigger] reach.items@[u])@ == (
                                    p,
                                    d,
                                );
                            assert(found.has((p, d)));
                        }
                    }
                }
            }
            m = m + 1;
        }
        found
    }

    /// The links of `layer` whose part sits on the net `end`.
    fn on_end_net(&self, layer: &KeySet<Link>, end: &NetName) -> (r: Vec<Link>)
        requires
            self.wf(),
            layer.wf(),
        ensures
            forall|p: Seq<char>, d: Seq<char>| #[trigger]
                seq_has(r@, (p, d)) <==> (layer.has((p, d)) && self.on_net(end@, d)),
            distinct_keys(r@),
    {
        let mut kept: Vec<Link> = Vec::new();
        let mut m: usize = 0;
        while m < layer.items.len()
            invariant
                self.wf(),
                layer.wf(),
                m <= layer.items@.len(),
                forall|p: Seq<char>, d: Seq<char>| #[trigger]
                    seq_has(kept@, (p, d)) <==> (self.on_net(end@, d) && exists|q: int|
                        0 <= q < m && (#[trigger] layer.items@[q])@ == (p, d)),
                distinct_keys(kept@),
            decreases layer.items@.len() - m,
        {
            let link = &layer.items[m];
            let ghost before = kept@;
            let taken = self.is_connected(&link.1, end);
            if taken {
                kept.push(link.dup());
                proof {
                    let fresh = layer.items@[m as int]@;
                    assert forall|j: int| 0 <= j < before.len() implies (#[trigger] before[j])@
                        != fresh by {
                        let x = before[j]@;
                        assert(seq_has(before, (x.0, x.1)));
                        let q = choose|q: int| 0 <= q < m && (#[trigger] layer.items@[q])@ == (x.0, x.1);
                        assert(layer.items@[q]@ != layer.items@[m as int]@);
                    }
                    assert forall|i: int, j: int|
                        0 <= i < kept@.len() && 0 <= j < kept@.len() && i != j implies kept@[i]@
                        != kept@[j]@ by {
                        if i < before.len() {
                            assert(kept@[i] == before[i]);
                        }
                        if j < before.len() {
                            assert(kept@[j] == before[j]);
                        }
                    }
                }
            }
            proof {
                assert forall|p: Seq<char>, d: Seq<char>| #[trigger]
                    seq_has(kept@, (p, d)) <==> (self.on_net(end@, d) && exists|q: int|
                        0 <= q < m + 1 && (#[trigger] layer.items@[q])@ == (p, d)) by {
                    if seq_has(kept@, (p, d)) {
                        let u = choose|u: int| 0 <= u < kept@.len() && #[trigger] kept@[u]@ == (p, d);
                        if u < before.len() {
                            assert(before[u]@ == (p, d));
                            assert(seq_has(before, (p, d)));
                            let q = choose|q: int|
                                0 <= q < m && (#[trigger] layer.items@[q])@ == (p, d);
                            assert(0 <= q < m + 1 && layer.items@[q]@ == (p, d));
                        } else {
                            assert(0 <= m < m + 1 && layer.items@[m as int]@ == (p, d));
                        }
                    }
                    if self.on_net(end@, d) && exists|q: int|
                        0 <= q < m + 1 && (#[trigger] layer.items@[q])@ == (p, d) {
                        let q = choose|q: int|
                            0 <= q < m + 1 && (#[trigger] layer.items@[q])@ == (p, d);
                        if q < m {
                            assert(seq_has(before, (p, d)));
                            let u = choose|u: int|
                                0 <= u < before.len() && #[trigger] before[u]@ == (p, d);
                            assert(kept@[u]@ == (p, d));
                        } else {
                            assert(kept@[before.len() as int]@ == (p, d));
                        }
                    }
                }
            }
            m = m + 1;
        }
        kept
    }

    /// Whether each part of the chain is connected to the next.
    fn links_hold(&self, chain: &Vec<Link>) -> (r: bool)
        requires
            self.wf(),
        ensures
            r == self.links_connected(chain_view(chain@)),
    {
        if chain.len() == 0 {
            return true;
        }
        let mut w: usize = 0;
        while w < chain.len() - 1
            invariant
                self.wf(),
                chain@.len() > 0,
                forall|i: int|
                    0 <= i < w ==> self.connected(
                        (#[trigger] chain_view(chain@)[i]).1,
                        chain_view(chain@)[i + 1].1,
                    ),
            decreases chain@.len() - w,
        {
            if !self.are_parts_connected(&chain[w].1, &chain[w + 1].1) {
                assert(!self.connected(
                    chain_view(chain@)[w as int].1,
                    chain_view(chain@)[w + 1].1,
                ));
                return false;
            }
            w = w + 1;
        }
        true
    }

    /// A combination picked from the layers of the search has one link of
    /// each layer.
    proof fn lemma_picked_in_layers<F: Fn(&Designator) -> bool>(
        &self,
        start: Seq<char>,
        preds: Seq<F>,
        end: Seq<char>,
        layers: Seq<Vec<Link>>,
        sel: Seq<int>,
        c: Seq<Link>,
    )
        requires
            layers.len() == preds.len(),
            forall|l: int|
                0 <= l < layers.len() ==> self.is_layer(
                    start,
                    preds,
                    end,
                    l as nat,
                    (#[trigger] layers[l])@,
                ),
            picked(layers, sel, c),
        ensures
            chain_view(c).len() == preds.len(),
            forall|i: int|
                0 <= i < c.len() ==> self.in_end_layer(
                    start,
                    preds,
                    end,
                    i as nat,
                    (#[trigger] chain_view(c)[i]).0,
                    chain_view(c)[i].1,
                ),
    {
        assert forall|i: int| 0 <= i < c.len() implies self.in_end_layer(
            start,
            preds,
            end,
            i as nat,
            (#[trigger] chain_view(c)[i]).0,
            chain_view(c)[i].1,
        ) by {
            let x = chain_view(c)[i];
            assert(x == c[i]@);
            assert(0 <= sel[i] < layers[i]@.len());
            assert(layers[i]@[sel[i]]@ == x);
            assert(seq_has(layers[i]@, (x.0, x.1)));
        }
    }

    /// A chain is the combination that some selection picks from the layers.
    proof fn lemma_chain_is_picked<F: Fn(&Designator) -> bool>(
        &self,
        start: Seq<char>,
        preds: Seq<F>,
        end: Seq<char>,
        layers: Seq<Vec<Link>>,
        cv: Seq<(Seq<char>, Seq<char>)>,
    ) -> (sel: Seq<int>)
        requires
            layers.len() == preds.len(),
            forall|l: int|
                0 <= l < layers.len() ==> self.is_layer(
                    start,
                    preds,
                    end,
                    l as nat,
                    (#[trigger] layers[l])@,
                ),
            self.is_chain(start, preds, end, cv),
        ensures
            selects(layers, sel),
            forall|c: Seq<Link>| picked(layers, sel, c) ==> chain_view(c) == cv,
    {
        let sel = Seq::new(
            cv.len(),
            |i: int| choose|j: int| 0 <= j < layers[i]@.len() && #[trigger] layers[i]@[j]@ == cv[i],
        );
        assert forall|i: int| 0 <= i < sel.len() implies 0 <= #[trigger] sel[i] < layers[i]@.len()
            && layers[i]@[sel[i]]@ == cv[i] by {
            let x = cv[i];
            assert(self.in_end_layer(start, preds, end, i as nat, x.0, x.1));
            assert(self.is_layer(start, preds, end, i as nat, layers[i]@));
            assert(seq_has(layers[i]@, (x.0, x.1)));
        }
        assert forall|c: Seq<Link>| picked(layers, sel, c) implies chain_view(c) == cv by {
            assert forall|i: int| 0 <= i < c.len() implies chain_view(c)[i] == cv[i] by {
                assert(c[i]@ == layers[i]@[sel[i]]@);
            }
            assert(chain_view(c) =~= cv);
        }
        sel
    }

    /// Layer `i > 0` holds what predicate `i` accepts and a link of layer
    /// `i - 1` reaches.
    pub proof fn lemma_layer_step<F: Fn(&Designator) -> bool>(
        &self,
        start: Seq<char>,
        preds: Seq<F>,
        i: nat,
        p: Seq<char>,
        d: Seq<char>,
    )
        requires
            0 < i < preds.len(),
        ensures
            self.in_layer(start, preds, i, p, d) <==> (holds(preds[i as int], d) && exists|
                q: Seq<char>,
                e: Seq<char>,
            |
                #![trigger self.reaches(e, q, p, d)]
                self.in_layer(start, preds, (i - 1) as nat, q, e) && self.reaches(e, q, p, d)),
    {
        let prev = (i - 1) as nat;
        if self.in_layer(start, preds, i, p, d) {
            assert(holds(preds[i as int], d));
            let (q, e) = choose|q: Seq<char>, e: Seq<char>|
                #![trigger self.reaches(e, q, p, d)]
                self.in_layer(start, preds, (i - 1) as nat, q, e) && self.reaches(e, q, p, d);
            assert(self.in_layer(start, preds, prev, q, e) && self.reaches(e, q, p, d));
        }
    }

    /// The layers of the search, in order.
    fn search_layers<F: Fn(&Designator) -> bool>(
        &self,
        start: &NetName,
        goes_through: &[F],
        end: &NetName,
    ) -> (layers: Vec<Vec<Link>>)
        requires
            self.wf(),
            goes_through@.len() > 0,
            forall|i: int| 0 <= i < goes_through@.len() ==> pure_predicate(#[trigger] goes_through@[i]),
        ensures
            layers@.len() == goes_through@.len(),
            forall|l: int|
                0 <= l < layers@.len() ==> self.is_layer(
                    start@,
                    goes_through@,
                    end@,
                    l as nat,
                    (#[trigger] layers@[l])@,
                ),
            forall|l: int| 0 <= l < layers@.len() ==> distinct_keys((#[trigger] layers@[l])@),
    {
        let n = goes_through.len();
        let ghost preds = goes_through@;
        let mut layers: Vec<Vec<Link>> = Vec::new();
        let mut current = self.first_layer(start, &goes_through[0]);
        let mut i: usize = 1;
        while i < n
            invariant
                self.wf(),
                preds == goes_through@,
                n == preds.len(),
                1 <= i <= n,
                forall|i: int| 0 <= i < preds.len() ==> pure_predicate(#[trigger] preds[i]),
                layers@.len() == i - 1,
                current.wf(),
                forall|p: Seq<char>, d: Seq<char>| #[trigger]
                    current.has((p, d)) <==> self.in_layer(start@, preds, (i - 1) as nat, p, d),
                forall|l: int|
                    0 <= l < i - 1 ==> self.is_layer(
                        start@,
                        preds,
                        end@,
                        l as nat,
                        (#[trigger] layers@[l])@,
                    ),
                forall|l: int| 0 <= l < i - 1 ==> distinct_keys((#[trigger] layers@[l])@),
            decreases n - i,
        {
            let next = self.next_layer(&current, &goes_through[i]);
            proof {
                let prev = (i - 1) as nat;
                assert forall|p: Seq<char>, d: Seq<char>| #[trigger]
                    next.has((p, d)) <==> self.in_layer(start@, preds, i as nat, p, d) by {
                    self.lemma_layer_step(start@, preds, i as nat, p, d);
                    if next.has((p, d)) {
                        let q = choose|q: int|
                            0 <= q < current.items@.len() && #[trigger] self.reaches(
                                current.items@[q].1@,
                                current.items@[q].0@,
                                p,
                                d,
                            );
                        let link = current.items@[q];
                        assert(link@ == (link.0@, link.1@));
                        assert(current.has((link.0@, link.1@)));
                        assert(self.in_layer(start@, preds, prev, link.0@, link.1@));
                    }
                    if self.in_layer(start@, preds, i as nat, p, d) {
                        let (q, e) = choose|q: Seq<char>, e: Seq<char>|
                            #![trigger self.reaches(e, q, p, d)]
                            self.in_layer(start@, preds, prev, q, e) && self.reaches(e, q, p, d);
                        assert(current.has((q, e)));
                        let u = choose|u: int|
                            0 <= u < current.items@.len() && #[trigger] current.items@[u]@ == (q, e);
                        assert(self.reaches(current.items@[u].1@, current.items@[u].0@, p, d));
                    }
                }
                assert forall|p: Seq<char>, d: Seq<char>| #[trigger]
                    seq_has(current.items@, (p, d)) <==> self.in_end_layer(
                        start@,
                        preds,
                        end@,
                        prev,
                        p,
                        d,
                    ) by {
                    assert(current.has((p, d)) == seq_has(current.items@, (p, d)));
                }
                assert(self.is_layer(start@, preds, end@, prev, current.items@));
            }
            let ghost done = layers@;
            layers.push(current.items);
            proof {
                assert forall|l: int| 0 <= l < i implies distinct_keys((#[trigger] layers@[l])@) by {
                    if l < i - 1 {
                        assert(layers@[l] == done[l]);
                    }
                }
                assert forall|l: int| 0 <= l < i implies self.is_layer(
                    start@,
                    preds,
                    end@,
                    l as nat,
                    (#[trigger] layers@[l])@,
                ) by {
                    if l < i - 1 {
                        assert(layers@[l] == done[l]);
                    }
                }
            }
            current = next;
            i = i + 1;
        }
        let last = self.on_end_net(&current, end);
        proof {
            assert forall|p: Seq<char>, d: Seq<char>| #[trigger]
                seq_has(last@, (p, d)) <==> self.in_end_layer(
                    start@,
                    preds,
                    end@,
                    (n - 1) as nat,
                    p,
                    d,
                ) by {
                assert(current.has((p, d)) <==> self.in_layer(
                    start@,
                    preds,
                    (n - 1) as nat,
                    p,
                    d,
                ));
            }
            assert(self.is_layer(start@, preds, end@, (n - 1) as nat, last@));
        }
        let ghost done = layers@;
        layers.push(last);
        proof {
            assert forall|l: int| 0 <= l < n implies distinct_keys((#[trigger] layers@[l])@) by {
                if l < n - 1 {
                    assert(layers@[l] == done[l]);
                }
            }
            assert forall|l: int| 0 <= l < n implies self.is_layer(
                start@,
                preds,
                end@,
                l as nat,
                (#[trigger] layers@[l])@,
            ) by {
                if l < n - 1 {
                    assert(layers@[l] == done[l]);
                }
            }
        }
        layers
    }

    /// The combinations in which each part is connected to the next.
    fn connected_only(&self, product: &Vec<Vec<Link>>) -> (r: Vec<Vec<Link>>)
        requires
            self.wf(),
        ensures
            forall|j: int|
                0 <= j < r@.len() ==> self.links_connected(chain_view((#[trigger] r@[j])@))
                    && has_chain(product@, chain_view(r@[j]@)),
            forall|m: int|
                0 <= m < product@.len() && self.links_connected(
                    chain_view((#[trigger] product@[m])@),
                ) ==> has_chain(r@, chain_view(product@[m]@)),
            no_chain_twice(product@) ==> no_chain_twice(r@),
    {
        let mut chains: Vec<Vec<Link>> = Vec::new();
        let mut k: usize = 0;
        while k < product.len()
            invariant
                self.wf(),
                k <= product@.len(),
                no_chain_twice(product@) ==> no_chain_twice(chains@),
                forall|j: int|
                    0 <= j < chains@.len() ==> exists|m: int|
                        0 <= m < k && chain_view((#[trigger] product@[m])@) == chain_view(
                            (#[trigger] chains@[j])@,
                        ),
                forall|j: int|
                    0 <= j < chains@.len() ==> self.links_connected(
                        chain_view((#[trigger] chains@[j])@),
                    ) && has_chain(product@, chain_view(chains@[j]@)),
                forall|m: int|
                    0 <= m < k && self.links_connected(chain_view((#[trigger] product@[m])@))
                        ==> has_chain(chains@, chain_view(product@[m]@)),
            decreases product@.len() - k,
        {
            let ghost before = chains@;
            if self.links_hold(&product[k]) {
                let copy = dup_chain(&product[k]);
                chains.push(copy);
                proof {
                    assert(chains@[before.len() as int] == copy);
                    assert forall|j: int| 0 <= j < chains@.len() implies exists|m: int|
                        0 <= m < k + 1 && chain_view((#[trigger] product@[m])@) == chain_view(
                            (#[trigger] chains@[j])@,
                        ) by {
                        if j < before.len() {
                            assert(chains@[j] == before[j]);
                            let m = choose|m: int|
                                0 <= m < k && chain_view((#[trigger] product@[m])@) == chain_view(
                                    (#[trigger] before[j])@,
                                );
                            assert(0 <= m < k + 1 && chain_view(product@[m]@) == chain_view(
                                chains@[j]@,
                            ));
                        } else {
                            assert(0 <= k < k + 1 && chain_view(product@[k as int]@) == chain_view(
                                chains@[j]@,
                            ));
                        }
                    }
                    if no_chain_twice(product@) {
                        assert forall|a: int, b: int| 0 <= a < b < chains@.len() implies chain_view(
                            (#[trigger] chains@[a])@,
                        ) != chain_view((#[trigger] chains@[b])@) by {
                            assert(chains@[a] == before[a]);
                            if b < before.len() {
                                assert(chains@[b] == before[b]);
                            } else {
                                let m = choose|m: int|
                                    0 <= m < k && chain_view((#[trigger] product@[m])@)
                                        == chain_view((#[trigger] before[a])@);
                                assert(chain_view(product@[m]@) != chain_view(product@[k as int]@));
                            }
                        }
                    }
                    assert forall|m: int|
                        0 <= m < k + 1 && self.links_connected(
                            chain_view((#[trigger] product@[m])@),
                        ) implies has_chain(chains@, chain_view(product@[m]@)) by {
                        if m < k {
                            let j = choose|j: int|
                                0 <= j < before.len() && chain_view((#[trigger] before[j])@)
                                    == chain_view(product@[m]@);
                            assert(chains@[j] == before[j]);
                        } else {
                            assert(chain_view(chains@[before.len() as int]@) == chain_view(
                                product@[m]@,
                            ));
                        }
                    }
                    assert forall|j: int| 0 <= j < chains@.len() implies self.links_connected(
                        chain_view((#[trigger] chains@[j])@),
                    ) && has_chain(product@, chain_view(chains@[j]@)) by {
                        if j < before.len() {
                            assert(chains@[j] == before[j]);
                        } else {
                            assert(chain_view(product@[k as int]@) == chain_view(chains@[j]@));
                        }
                    }
                }
            }
            k = k + 1;
        }
        chains
    }

    /// Finds all the chains of parts between two nets, each part accepted by
    /// the predicate of its position.
    ///
    /// The search goes by layers. Layer 0 holds the parts on `start` that the
    /// first predicate accepts; layer `i` holds what is reachable from layer
    /// `i - 1` and accepted by predicate `i`; the last layer keeps only parts on
    /// `end`. A chain takes one link from each layer, and each of its parts is
    /// connected to the next. With no predicate, or without a net `start`,
    /// there is no chain.
    pub fn find_net_chains<F: Fn(&Designator) -> bool>(
        &self,
        start: &NetName,
        goes_through: &[F],
        end: &NetName,
    ) -> (r: Vec<Vec<Link>>)
        requires
            self.wf(),
            forall|i: int| 0 <= i < goes_through@.len() ==> pure_predicate(#[trigger] goes_through@[i]),
        ensures
            forall|k: int|
                0 <= k < r@.len() ==> self.is_chain(
                    start@,
                    goes_through@,
                    end@,
                    chain_view((#[trigger] r@[k])@),
                ),
            forall|c: Seq<(Seq<char>, Seq<char>)>| #[trigger]
                self.is_chain(start@, goes_through@, end@, c) ==> has_chain(r@, c),
            forall|k: int|
                0 <= k < r@.len() ==> {
                    let c = #[trigger] r@[k];
                    &&& c@.len() == goes_through@.len()
                    &&& c@.len() > 0
                    &&& self.on_net(start@, c@[0].1@)
                    &&& self.on_net(end@, c@[c@.len() - 1].1@)
                    &&& forall|i: int| 0 <= i < c@.len() ==> holds(goes_through@[i], (#[trigger] c@[i]).1@)
                },
            no_chain_twice(r@),
    {
        if goes_through.len() == 0 {
            return Vec::new();
        }
        let ghost preds = goes_through@;
        let layers = self.search_layers(start, goes_through, end);
        let product = cartesian_product(&layers);
        proof {
            lemma_product_differs(layers@, product@);
        }
        let chains = self.connected_only(&product);
        proof {
            assert forall|k: int| 0 <= k < chains@.len() implies self.is_chain(
                start@,
                preds,
                end@,
                chain_view((#[trigger] chains@[k])@),
            ) by {
                assert(has_chain(product@, chain_view(chains@[k]@)));
                let m = choose|m: int|
                    0 <= m < product@.len() && chain_view((#[trigger] product@[m])@) == chain_view(
                        chains@[k]@,
                    );
                let sel = choose|sel: Seq<int>| picked(layers@, sel, product@[m]@);
                self.lemma_picked_in_layers(start@, preds, end@, layers@, sel, product@[m]@);
            }
            assert forall|c: Seq<(Seq<char>, Seq<char>)>| #[trigger]
                self.is_chain(start@, preds, end@, c) implies has_chain(chains@, c) by {
                let sel = self.lemma_chain_is_picked(start@, preds, end@, layers@, c);
                let j = choose|j: int|
                    0 <= j < product@.len() && picked(layers@, sel, (#[trigger] product@[j])@);
                assert(chain_view(product@[j]@) == c);
                assert(has_chain(chains@, chain_view(product@[j]@)));
            }
            assert forall|m: int| 0 <= m < chains@.len() implies {
                let c = #[trigger] chains@[m];
                &&& c@.len() == preds.len()
                &&& c@.len() > 0
                &&& self.on_net(start@, c@[0].1@)
                &&& self.on_net(end@, c@[c@.len() - 1].1@)
                &&& forall|i: int| 0 <= i < c@.len() ==> holds(preds[i], (#[trigger] c@[i]).1@)
            } by {
                self.lemma_chain_ends(start@, preds, end@, chains@[m]@);
            }
        }
        chains
    }

    /// A chain starts on the start net and ends on the end net, and each of
    /// its parts is accepted by the predicate of its position.
    pub proof fn lemma_chain_ends<F: Fn(&Designator) -> bool>(
        &self,
        start: Seq<char>,
        preds: Seq<F>,
        end: Seq<char>,
        c: Seq<Link>,
    )
        requires
            self.is_chain(start, preds, end, chain_view(c)),
        ensures
            c.len() == preds.len(),
            c.len() > 0,
            self.on_net(start, c[0].1@),
            self.on_net(end, c[c.len() - 1].1@),
            forall|i: int| 0 <= i < c.len() ==> holds(preds[i], (#[trigger] c[i]).1@),
    {
        let cv = chain_view(c);
        assert(cv.len() == c.len());
        assert forall|i: int| 0 <= i < c.len() implies holds(preds[i], (#[trigger] c[i]).1@) by {
            assert(cv[i] == c[i]@);
            assert(self.in_end_layer(start, preds, end, i as nat, cv[i].0, cv[i].1));
            self.lemma_layer_accepts(start, preds, i as nat, cv[i].0, cv[i].1);
        }
        assert(cv[0] == c[0]@);
        assert(self.in_end_layer(start, preds, end, 0, cv[0].0, cv[0].1));
        self.lemma_layer_accepts(start, preds, 0, cv[0].0, cv[0].1);
        self.nets.value_of(start).lemma_node_touches(cv[0].1, cv[0].0);
        let z = c.len() - 1;
        assert(cv[z] == c[z]@);
        assert(self.in_end_layer(start, preds, end, z as nat, cv[z].0, cv[z].1));
    }
}

/// Where no layer holds a link twice and the combinations come from
/// selections that differ from one another, no combination comes twice.
pub proof fn lemma_product_differs(layers: Seq<Vec<Link>>, product: Seq<Vec<Link>>)
    requires
        forall|l: int| 0 <= l < layers.len() ==> distinct_keys((#[trigger] layers[l])@),
        exists|sels: Seq<Seq<int>>| once_each(layers, sels, product),
    ensures
        no_chain_twice(product),
{
    let sels = choose|sels: Seq<Seq<int>>| once_each(layers, sels, product);
    assert forall|a: int, b: int| 0 <= a < b < product.len() implies chain_view(
        (#[trigger] product[a])@,
    ) != chain_view((#[trigger] product[b])@) by {
        if chain_view(product[a]@) == chain_view(product[b]@) {
            assert(picked(layers, sels[a], product[a]@));
            assert(picked(layers, sels[b], product[b]@));
            assert forall|i: int| 0 <= i < layers.len() implies sels[a][i] == sels[b][i] by {
                assert(chain_view(product[a]@)[i] == product[a]@[i]@);
                assert(chain_view(product[b]@)[i] == product[b]@[i]@);
                assert(distinct_keys(layers[i]@));
                assert(layers[i]@[sels[a][i]]@ == layers[i]@[sels[b][i]]@);
            }
            assert(sels[a] =~= sels[b]);
        }
    }
}

/// The list of one predicate.
pub open spec fn one<F>(f: F) -> Seq<F> {
    seq![f]
}

/// The list of the same predicate twice.
pub open spec fn two<F>(f: F) -> Seq<F> {
    seq![f, f]
}

impl Netlist {
    /// The chains of one part that `pred` accepts between two nets.
    pub fn chains_through_one<F: Fn(&Designator) -> bool>(
        &self,
        start: &NetName,
        pred: F,
        end: &NetName,
    ) -> (r: Vec<Vec<Link>>)
        requires
            self.wf(),
            pure_predicate(pred),
        ensures
            forall|k: int|
                0 <= k < r@.len() ==> self.is_chain(
                    start@,
                    one(pred),
                    end@,
                    chain_view((#[trigger] r@[k])@),
                ),
            forall|c: Seq<(Seq<char>, Seq<char>)>| #[trigger]
                self.is_chain(start@, one(pred), end@, c) ==> has_chain(r@, c),
            forall|k: int| 0 <= k < r@.len() ==> (#[trigger] r@[k])@.len() == 1,
    {
        let mut preds: Vec<F> = Vec::new();
        preds.push(pred);
        assert(preds@ =~= one(pred));
        self.find_net_chains(start, preds.as_slice(), end)
    }

    /// The chains of two parts, both accepted by `pred`, between two nets.
    pub fn chains_through_two<F: Fn(&Designator) -> bool + Copy>(
        &self,
        start: &NetName,
        pred: F,
        end: &NetName,
    ) -> (r: Vec<Vec<Link>>)
        requires
            self.wf(),
            pure_predicate(pred),
        ensures
            forall|k: int|
                0 <= k < r@.len() ==> self.is_chain(
                    start@,
                    two(pred),
                    end@,
                    chain_view((#[trigger] r@[k])@),
                ),
            forall|c: Seq<(Seq<char>, Seq<char>)>| #[trigger]
                self.is_chain(start@, two(pred), end@, c) ==> has_chain(r@, c),
            forall|k: int| 0 <= k < r@.len() ==> (#[trigger] r@[k])@.len() == 2,
    {
        let mut preds: Vec<F> = Vec::new();
        preds.push(pred);
        preds.push(pred);
        assert(preds@ =~= two(pred));
        self.find_net_chains(start, preds.as_slice(), end)
    }
}

/// A copy of the chain with the same views.
fn dup_chain(chain: &Vec<Link>) -> (r: Vec<Link>)
    ensures
        chain_view(r@) == chain_view(chain@),
{
    let mut copy: Vec<Link> = Vec::new();
    let mut i: usize = 0;
    while i < chain.len()
        invariant
            i <= chain@.len(),
            copy@.len() == i,
            forall|j: int| 0 <= j < i ==> copy@[j]@ == chain@[j]@,
        decreases chain@.len() - i,
    {
        copy.push(chain[i].dup());
        i = i + 1;
    }
    assert(chain_view(copy@) =~= chain_view(chain@));
    copy
}

} // verus!
