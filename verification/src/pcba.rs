//! The board as a whole: its netlist with the structure derived from it.
use vstd::prelude::*;
use crate::collections::{seq_has, Dict, Key, KeySet};
use crate::diagnostics::Diagnostics;
use crate::i2c_model::I2cBuses;
use crate::i2c::{accounted, ends_with, find_i2c_buses, keyed_by_name, settled_bus};
use crate::i2c_model::diagnostics_view;
use crate::i2c_rules::{pull_up_diagnostics, unknown_nodes};
use crate::i2c_rules::{first_other_net, first_other_net_at};
use crate::i2c_model::{buses_view, I2cBus};
use crate::i2c_segments::{segments_of, segments_view};
use crate::names::{
    holds, pure_predicate, spec_is_ic, spec_is_inductor, Designator, NetName,
};
use crate::netlist::Netlist;
use crate::power::{
    derive_power_structure, ground_name, is_power_of, is_rail, named_voltage, Power, PowerRail,
};
use crate::style::{check_style, mosfet_remarks, style_view, value_remarks};
use crate::text::{contains, str_contains};

verus! {

/// A board: the netlist, its power structure, its I2C buses, and what was
/// found on the way.
#[derive(Debug)]
pub struct Pcba {
    pub netlist: Netlist,
    pub power: Power,
    pub switching_nodes: KeySet<NetName>,
    pub i2c_buses: I2cBuses,
    pub diagnostics: Diagnostics,
}

/// The views of a list of designators.
pub open spec fn parts_view(c: Seq<Designator>) -> Seq<Seq<char>> {
    c.map_values(|d: Designator| d@)
}

/// Some chain of `chains` names the parts `c`.
pub open spec fn has_part_chain(chains: Seq<Vec<Designator>>, c: Seq<Seq<char>>) -> bool {
    exists|k: int| 0 <= k < chains.len() && parts_view((#[trigger] chains[k])@) == c
}

/// One of the first `n` chains names the parts `c`.
pub open spec fn has_part_chain_within(chains: Seq<Vec<Designator>>, n: int, c: Seq<Seq<char>>) -> bool {
    exists|k: int| 0 <= k < n && parts_view((#[trigger] chains[k])@) == c
}

/// One of the first `n` parts has the view `d`.
pub open spec fn has_part_within(parts: Seq<Designator>, n: int, d: Seq<char>) -> bool {
    exists|k: int| 0 <= k < n && (#[trigger] parts[k])@ == d
}

/// A copy of the chain with one more part at its end.
fn chain_with(chain: &Vec<Designator>, part: &Designator) -> (r: Vec<Designator>)
    ensures
        parts_view(r@) == parts_view(chain@).push(part@),
{
    let mut copy: Vec<Designator> = Vec::new();
    let mut i: usize = 0;
    while i < chain.len()
        invariant
            i <= chain@.len(),
            copy@.len() == i,
            forall|j: int| 0 <= j < i ==> copy@[j]@ == chain@[j]@,
        decreases chain@.len() - i,
    {
        copy.push(chain[i].clone());
        i = i + 1;
    }
    copy.push(part.clone());
    assert(parts_view(copy@) =~= parts_view(chain@).push(part@));
    copy
}

impl Pcba {
    /// All parts of the board are well formed.
    pub open spec fn wf(&self) -> bool {
        &&& self.netlist.wf()
        &&& self.power.wf()
        &&& self.switching_nodes.wf()
        &&& self.i2c_buses.wf()
    }

    /// The parts `a` and `b` share a net; with `ignore_power_nets`, one that
    /// is neither a rail nor a ground.
    pub open spec fn joined(&self, a: Seq<char>, b: Seq<char>, ignore_power_nets: bool) -> bool {
        exists|n: Seq<char>| #[trigger]
            self.netlist.on_net(n, a) && self.netlist.on_net(n, b) && (ignore_power_nets
                ==> !self.power.spec_is_power_net(n))
    }

    /// The first `len` parts of `c` form a chain: each is a part of the
    /// board that the predicate of its position accepts, and each is joined to
    /// the next.
    pub open spec fn chain_so_far<F: Fn(&Designator) -> bool>(
        &self,
        preds: Seq<F>,
        ignore_power_nets: bool,
        len: int,
        c: Seq<Seq<char>>,
    ) -> bool {
        &&& c.len() == len
        &&& len <= preds.len()
        &&& forall|i: int|
            0 <= i < len ==> self.netlist.components.has_key(#[trigger] c[i]) && holds(
                preds[i],
                c[i],
            )
        &&& forall|i: int| 0 <= i < len - 1 ==> self.joined(#[trigger] c[i], c[i + 1], ignore_power_nets)
    }

    /// `c` is a chain of parts through all the predicates.
    pub open spec fn is_part_chain<F: Fn(&Designator) -> bool>(
        &self,
        preds: Seq<F>,
        ignore_power_nets: bool,
        c: Seq<Seq<char>>,
    ) -> bool {
        self.chain_so_far(preds, ignore_power_nets, preds.len() as int, c)
    }

    /// Whether the parts share a net; with `ignore_power_nets`, one that is
    /// neither a rail nor a ground.
    pub fn are_joined(&self, a: &Designator, b: &Designator, ignore_power_nets: bool) -> (r: bool)
        requires
            self.wf(),
        ensures
            r == self.joined(a@, b@, ignore_power_nets),
    {
        let common = self.netlist.parts_common_nets(a, b);
        let mut i: usize = 0;
        while i < common.items.len()
            invariant
                self.wf(),
                i <= common.items@.len(),
                forall|n: Seq<char>| #[trigger]
                    common.has(n) <==> (self.netlist.on_net(n, a@) && self.netlist.on_net(n, b@)),
                forall|j: int|
                    0 <= j < i ==> ignore_power_nets && self.power.spec_is_power_net(
                        (#[trigger] common.items@[j])@,
                    ),
            decreases common.items@.len() - i,
        {
            let net = &common.items[i];
            assert(common.has(net@));
            if !ignore_power_nets || !self.power.is_power_net(net) {
                assert(self.netlist.on_net(net@, a@));
                return true;
            }
            i = i + 1;
        }
        proof {
            if self.joined(a@, b@, ignore_power_nets) {
                let n = choose|n: Seq<char>| #[trigger]
                    self.netlist.on_net(n, a@) && self.netlist.on_net(n, b@) && (ignore_power_nets
                        ==> !self.power.spec_is_power_net(n));
                assert(common.has(n));
                let j = choose|j: int| 0 <= j < common.items@.len() && #[trigger] common.items@[j]@ == n;
                assert(self.power.spec_is_power_net(common.items@[j]@));
            }
        }
        false
    }

    /// Returns the parts that `to_filter` accepts and that are connected to
    /// `from`. With `ignore_power_nets`, a connection through a rail or a
    /// ground does not count.
    pub fn find_connected_parts<F: Fn(&Designator) -> bool>(
        &self,
        from: &Designator,
        to_filter: &F,
        ignore_power_nets: bool,
    ) -> (r: KeySet<Designator>)
        requires
            self.wf(),
            pure_predicate(*to_filter),
        ensures
            r.wf(),
            forall|d: Seq<char>| #[trigger]
                r.has(d) <==> (self.netlist.components.has_key(d) && holds(*to_filter, d)
                    && self.joined(from@, d, ignore_power_nets)),
    {
        let mut parts: KeySet<Designator> = KeySet::new();
        let mut i: usize = 0;
        while i < self.netlist.components.len()
            invariant
                self.wf(),
                pure_predicate(*to_filter),
                parts.wf(),
                i <= self.netlist.components.keys@.len(),
                forall|d: Seq<char>| #[trigger]
                    parts.has(d) <==> (holds(*to_filter, d) && self.joined(
                        from@,
                        d,
                        ignore_power_nets,
                    ) && exists|j: int|
                        0 <= j < i && (#[trigger] self.netlist.components.keys@[j])@ == d),
            decreases self.netlist.components.keys@.len() - i,
        {
            let designator = self.netlist.components.key_at(i);
            let ghost before = parts;
            if to_filter(designator) {
                if self.are_joined(from, designator, ignore_power_nets) {
                    parts.insert(designator.clone());
                }
            }
            proof {
                assert forall|d: Seq<char>| #[trigger]
                    parts.has(d) <==> (holds(*to_filter, d) && self.joined(
                        from@,
                        d,
                        ignore_power_nets,
                    ) && exists|j: int|
                        0 <= j < i + 1 && (#[trigger] self.netlist.components.keys@[j])@ == d) by {
                    if before.has(d) {
                        let j = choose|j: int|
                            0 <= j < i && (#[trigger] self.netlist.components.keys@[j])@ == d;
                        assert(0 <= j < i + 1 && self.netlist.components.keys@[j]@ == d);
                    }
                    if d == designator@ {
                        assert(0 <= i < i + 1 && self.netlist.components.keys@[i as int]@ == d);
                    }
                    if exists|j: int|
                        0 <= j < i + 1 && (#[trigger] self.netlist.components.keys@[j])@ == d {
                        let j = choose|j: int|
                            0 <= j < i + 1 && (#[trigger] self.netlist.components.keys@[j])@ == d;
                        if j < i {
                            assert(0 <= j < i && self.netlist.components.keys@[j]@ == d);
                        }
                    }
                }
            }
            i = i + 1;
        }
        proof {
            assert forall|d: Seq<char>| #[trigger]
                parts.has(d) <==> (self.netlist.components.has_key(d) && holds(*to_filter, d)
                    && self.joined(from@, d, ignore_power_nets)) by {
                if self.netlist.components.has_key(d) {
                    let j = self.netlist.components.index_of(d);
                    assert(0 <= j < i && self.netlist.components.keys@[j]@ == d);
                }
                if parts.has(d) {
                    let j = choose|j: int|
                        0 <= j < i && (#[trigger] self.netlist.components.keys@[j])@ == d;
                    self.netlist.components.lemma_index_of(j);
                }
            }
        }
        parts
    }
    /// The chains of one part: the parts of the board that `pred` accepts.
    fn chain_starts<F: Fn(&Designator) -> bool>(&self, preds: &[F], ignore_power_nets: bool) -> (r:
        Vec<Vec<Designator>>)
        requires
            self.wf(),
            preds@.len() >= 1,
            pure_predicate(preds@[0]),
        ensures
            forall|k: int|
                0 <= k < r@.len() ==> self.chain_so_far(
                    preds@,
                    ignore_power_nets,
                    1,
                    parts_view((#[trigger] r@[k])@),
                ),
            forall|c: Seq<Seq<char>>| #[trigger]
                self.chain_so_far(preds@, ignore_power_nets, 1, c) ==> has_part_chain(r@, c),
    {
        let mut chains: Vec<Vec<Designator>> = Vec::new();
        let mut i: usize = 0;
        while i < self.netlist.components.len()
            invariant
                self.wf(),
                preds@.len() >= 1,
                pure_predicate(preds@[0]),
                i <= self.netlist.components.keys@.len(),
                forall|k: int|
                    0 <= k < chains@.len() ==> self.chain_so_far(
                        preds@,
                        ignore_power_nets,
                        1,
                        parts_view((#[trigger] chains@[k])@),
                    ),
                forall|c: Seq<Seq<char>>| #[trigger]
                    self.chain_so_far(preds@, ignore_power_nets, 1, c) && has_part_within(
                        self.netlist.components.keys@,
                        i as int,
                        c[0],
                    ) ==> has_part_chain(chains@, c),
            decreases self.netlist.components.keys@.len() - i,
        {
            let designator = self.netlist.components.key_at(i);
            let ghost before = chains@;
            let is_start = &preds[0];
            let taken = is_start(designator);
            if taken {
                let mut chain: Vec<Designator> = Vec::new();
                chain.push(designator.clone());
                proof {
                    self.netlist.components.lemma_index_of(i as int);
                    assert(parts_view(chain@)[0] == designator@);
                }
                chains.push(chain);
            }
            proof {
                assert forall|k: int| 0 <= k < chains@.len() implies self.chain_so_far(
                    preds@,
                    ignore_power_nets,
                    1,
                    parts_view((#[trigger] chains@[k])@),
                ) by {
                    if k < before.len() {
                        assert(chains@[k] == before[k]);
                    }
                }
                assert forall|c: Seq<Seq<char>>| #[trigger]
                    self.chain_so_far(preds@, ignore_power_nets, 1, c) && has_part_within(
                        self.netlist.components.keys@,
                        i + 1,
                        c[0],
                    ) implies has_part_chain(chains@, c) by {
                    let j = choose|j: int|
                        0 <= j < i + 1 && (#[trigger] self.netlist.components.keys@[j])@ == c[0];
                    if j < i {
                        assert(has_part_within(self.netlist.components.keys@, i as int, c[0]));
                        let k = choose|k: int|
                            0 <= k < before.len() && parts_view((#[trigger] before[k])@) == c;
                        assert(chains@[k] == before[k]);
                    } else {
                        assert(taken);
                        assert(parts_view(chains@[before.len() as int]@) =~= c);
                    }
                }
            }
            i = i + 1;
        }
        proof {
            assert forall|c: Seq<Seq<char>>| #[trigger]
                self.chain_so_far(preds@, ignore_power_nets, 1, c) implies has_part_chain(
                chains@,
                c,
            ) by {
                let j = self.netlist.components.index_of(c[0]);
                assert(0 <= j < i && self.netlist.components.keys@[j]@ == c[0]);
            }
        }
        chains
    }

    /// The chains of `level + 1` parts that extend the chains of `level` parts.
    fn extend_chains<F: Fn(&Designator) -> bool>(
        &self,
        chains: &Vec<Vec<Designator>>,
        preds: &[F],
        level: usize,
        ignore_power_nets: bool,
    ) -> (r: Vec<Vec<Designator>>)
        requires
            self.wf(),
            1 <= level < preds@.len(),
            pure_predicate(preds@[level as int]),
            forall|k: int|
                0 <= k < chains@.len() ==> self.chain_so_far(
                    preds@,
                    ignore_power_nets,
                    level as int,
                    parts_view((#[trigger] chains@[k])@),
                ),
            forall|c: Seq<Seq<char>>| #[trigger]
                self.chain_so_far(preds@, ignore_power_nets, level as int, c) ==> has_part_chain(
                    chains@,
                    c,
                ),
        ensures
            forall|k: int|
                0 <= k < r@.len() ==> self.chain_so_far(
                    preds@,
                    ignore_power_nets,
                    level + 1,
                    parts_view((#[trigger] r@[k])@),
                ),
            forall|c: Seq<Seq<char>>| #[trigger]
                self.chain_so_far(preds@, ignore_power_nets, level + 1, c) ==> has_part_chain(
                    r@,
                    c,
                ),
    {
        let mut next: Vec<Vec<Designator>> = Vec::new();
        let mut k: usize = 0;
        while k < chains.len()
            invariant
                self.wf(),
                1 <= level < preds@.len(),
                pure_predicate(preds@[level as int]),
                k <= chains@.len(),
                forall|m: int|
                    0 <= m < chains@.len() ==> self.chain_so_far(
                        preds@,
                        ignore_power_nets,
                        level as int,
                        parts_view((#[trigger] chains@[m])@),
                    ),
                forall|m: int|
                    0 <= m < next@.len() ==> self.chain_so_far(
                        preds@,
                        ignore_power_nets,
                        level + 1,
                        parts_view((#[trigger] next@[m])@),
                    ),
                forall|c: Seq<Seq<char>>| #[trigger]
                    self.chain_so_far(preds@, ignore_power_nets, level + 1, c)
                        && has_part_chain_within(chains@, k as int, c.take(level as int))
                        ==> has_part_chain(next@, c),
            decreases chains@.len() - k,
        {
            let chain = &chains[k];
            let ghost cv = parts_view(chain@);
            assert(self.chain_so_far(preds@, ignore_power_nets, level as int, cv));
            let last = &chain[level - 1];
            assert(cv[level - 1] == last@);
            let parts = self.find_connected_parts(last, &preds[level], ignore_power_nets);
            let ghost outer = next@;
            let mut t: usize = 0;
            while t < parts.items.len()
                invariant
                    self.wf(),
                    1 <= level < preds@.len(),
                    k < chains@.len(),
                    *chain == chains@[k as int],
                    cv == parts_view(chain@),
                    self.chain_so_far(preds@, ignore_power_nets, level as int, cv),
                    *last == chain@[level - 1],
                    t <= parts.items@.len(),
                    forall|d: Seq<char>| #[trigger]
                        parts.has(d) <==> (self.netlist.components.has_key(d) && holds(
                            preds@[level as int],
                            d,
                        ) && self.joined(last@, d, ignore_power_nets)),
                    forall|m: int|
                        0 <= m < next@.len() ==> self.chain_so_far(
                            preds@,
                            ignore_power_nets,
                            level + 1,
                            parts_view((#[trigger] next@[m])@),
                        ),
                    forall|c: Seq<Seq<char>>| #[trigger]
                        has_part_chain(outer, c) ==> has_part_chain(next@, c),
                    forall|c: Seq<Seq<char>>| #[trigger]
                        self.chain_so_far(preds@, ignore_power_nets, level + 1, c) && c.take(
                            level as int,
                        ) == cv && has_part_within(parts.items@, t as int, c[level as int])
                            ==> has_part_chain(next@, c),
                decreases parts.items@.len() - t,
            {
                let part = &parts.items[t];
                let ghost inner = next@;
                let longer = chain_with(chain, part);
                proof {
                    let lv = parts_view(longer@);
                    assert(parts.has(part@));
                    assert(cv[level - 1] == last@);
                    assert forall|i: int| 0 <= i < level + 1 implies 
                        self.netlist.components.has_key(#[trigger] lv[i]) && holds(
                            preds@[i],
                            lv[i],
                        ) by {
                        if i < level {
                            assert(lv[i] == cv[i]);
                        }
                    }
                    assert forall|i: int| 0 <= i < level implies self.joined(
                        #[trigger] lv[i],
                        lv[i + 1],
                        ignore_power_nets,
                    ) by {
                        if i < level - 1 {
                            assert(lv[i] == cv[i] && lv[i + 1] == cv[i + 1]);
                            assert(self.joined(cv[i], cv[i + 1], ignore_power_nets));
                        }
                    }
                }
                next.push(longer);
                proof {
                    assert forall|m: int| 0 <= m < next@.len() implies self.chain_so_far(
                        preds@,
                        ignore_power_nets,
                        level + 1,
                        parts_view((#[trigger] next@[m])@),
                    ) by {
                        if m < inner.len() {
                            assert(next@[m] == inner[m]);
                        }
                    }
                    assert forall|c: Seq<Seq<char>>| #[trigger]
                        has_part_chain(inner, c) implies has_part_chain(next@, c) by {
                        let m = choose|m: int|
                            0 <= m < inner.len() && parts_view((#[trigger] inner[m])@) == c;
                        assert(next@[m] == inner[m]);
                    }
                    assert forall|c: Seq<Seq<char>>| #[trigger]
                        self.chain_so_far(preds@, ignore_power_nets, level + 1, c) && c.take(
                            level as int,
                        ) == cv && has_part_within(parts.items@, t + 1, c[level as int])
                        implies has_part_chain(next@, c) by {
                        let u = choose|u: int|
                            0 <= u < t + 1 && (#[trigger] parts.items@[u])@ == c[level as int];
                        if u < t {
                            assert(has_part_within(parts.items@, t as int, c[level as int]));
                        } else {
                            assert(parts_view(next@[inner.len() as int]@) =~= c) by {
                                assert(c =~= c.take(level as int).push(c[level as int]));
                            }
                        }
                    }
                }
                t = t + 1;
            }
            proof {
                assert forall|c: Seq<Seq<char>>| #[trigger]
                    self.chain_so_far(preds@, ignore_power_nets, level + 1, c)
                        && has_part_chain_within(chains@, k + 1, c.take(level as int))
                    implies has_part_chain(next@, c) by {
                    let m = choose|m: int|
                        0 <= m < k + 1 && parts_view((#[trigger] chains@[m])@) == c.take(
                            level as int,
                        );
                    if m < k {
                        assert(has_part_chain_within(chains@, k as int, c.take(level as int)));
                        assert(has_part_chain(outer, c));
                    } else {
                        assert(c.take(level as int)[level - 1] == c[level - 1]);
                        assert(self.joined(c[level - 1], c[level as int], ignore_power_nets));
                        assert(parts.has(c[level as int]));
                        let u = choose|u: int|
                            0 <= u < parts.items@.len() && #[trigger] parts.items@[u]@
                                == c[level as int];
                        assert(has_part_within(parts.items@, t as int, c[level as int]));
                    }
                }
            }
            k = k + 1;
        }
        proof {
            assert forall|c: Seq<Seq<char>>| #[trigger]
                self.chain_so_far(preds@, ignore_power_nets, level + 1, c) implies has_part_chain(
                next@,
                c,
            ) by {
                let p = c.take(level as int);
                assert forall|i: int| 0 <= i < level implies self.netlist.components.has_key(
                    #[trigger] p[i],
                ) && holds(preds@[i], p[i]) by {
                    assert(p[i] == c[i]);
                }
                assert forall|i: int| 0 <= i < level - 1 implies self.joined(
                    #[trigger] p[i],
                    p[i + 1],
                    ignore_power_nets,
                ) by {
                    assert(p[i] == c[i] && p[i + 1] == c[i + 1]);
                    assert(self.joined(c[i], c[i + 1], ignore_power_nets));
                }
                assert(self.chain_so_far(preds@, ignore_power_nets, level as int, p));
                assert(has_part_chain(chains@, p));
                let m = choose|m: int|
                    0 <= m < chains@.len() && parts_view((#[trigger] chains@[m])@) == p;
                assert(has_part_chain_within(chains@, k as int, p));
            }
        }
        next
    }

    /// Finds the chains of connected parts, each part accepted by the
    /// predicate of its position. It starts from every part that the first
    /// predicate accepts and extends by connected parts. With fewer than two
    /// predicates there is no chain.
    pub fn find_part_chains<F: Fn(&Designator) -> bool>(
        &self,
        goes_through: &[F],
        ignore_power_nets: bool,
    ) -> (r: Vec<Vec<Designator>>)
        requires
            self.wf(),
            forall|i: int| 0 <= i < goes_through@.len() ==> pure_predicate(#[trigger] goes_through@[i]),
        ensures
            goes_through@.len() < 2 ==> r@.len() == 0,
            forall|k: int|
                0 <= k < r@.len() ==> self.is_part_chain(
                    goes_through@,
                    ignore_power_nets,
                    parts_view((#[trigger] r@[k])@),
                ),
            forall|c: Seq<Seq<char>>| #[trigger]
                self.is_part_chain(goes_through@, ignore_power_nets, c) && goes_through@.len() >= 2
                    ==> has_part_chain(r@, c),
    {
        if goes_through.len() < 2 {
            return Vec::new();
        }
        let mut chains = self.chain_starts(goes_through, ignore_power_nets);
        let mut level: usize = 1;
        while level < goes_through.len()
            invariant
                self.wf(),
                1 <= level <= goes_through@.len(),
                forall|i: int|
                    0 <= i < goes_through@.len() ==> pure_predicate(#[trigger] goes_through@[i]),
                forall|k: int|
                    0 <= k < chains@.len() ==> self.chain_so_far(
                        goes_through@,
                        ignore_power_nets,
                        level as int,
                        parts_view((#[trigger] chains@[k])@),
                    ),
                forall|c: Seq<Seq<char>>| #[trigger]
                    self.chain_so_far(goes_through@, ignore_power_nets, level as int, c)
                        ==> has_part_chain(chains@, c),
            decreases goes_through@.len() - level,
        {
            chains = self.extend_chains(&chains, goes_through, level, ignore_power_nets);
            level = level + 1;
        }
        chains
    }
}

/// The net stays a candidate for a switching node: it is no ground, and it
/// is no rail unless its name holds `LX` or `SW`.
pub open spec fn survives(power: &Power, n: Seq<char>) -> bool {
    !power.ground_nets.has(n) && (power.power_rails.has_key(n) ==> (contains(n, "LX"@) || contains(
        n,
        "SW"@,
    )))
}

/// The net at position `i` is the first that holds pins of both parts and
/// survives as a candidate for a switching node.
pub open spec fn first_common_surviving(
    netlist: &Netlist,
    power: &Power,
    a: Seq<char>,
    b: Seq<char>,
    i: int,
) -> bool {
    &&& 0 <= i < netlist.nets.keys@.len()
    &&& common_surviving(netlist, power, a, b, i)
    &&& forall|j: int| 0 <= j < i ==> !common_surviving(netlist, power, a, b, j)
}

/// The net at position `i` holds pins of both parts and survives as a
/// candidate for a switching node.
pub open spec fn common_surviving(
    netlist: &Netlist,
    power: &Power,
    a: Seq<char>,
    b: Seq<char>,
    i: int,
) -> bool {
    netlist.nets.values@[i].touches(a) && netlist.nets.values@[i].touches(b) && survives(
        power,
        netlist.nets.keys@[i]@,
    )
}

/// The net `n` is the switching node between the integrated circuit `ic`
/// and the inductor `l`: it is the first of their common nets that survives as
/// a candidate, the inductor has another net, and neither the name of `n` nor
/// that of the first other net of the inductor holds `RF`.
pub open spec fn switches_between(
    netlist: &Netlist,
    power: &Power,
    ic: Seq<char>,
    l: Seq<char>,
    n: Seq<char>,
) -> bool {
    exists|i: int, j: int|
        #![trigger first_common_surviving(netlist, power, ic, l, i), first_other_net_at(netlist, l, n, j)]
        {
            &&& first_common_surviving(netlist, power, ic, l, i)
            &&& netlist.nets.keys@[i]@ == n
            &&& first_other_net_at(netlist, l, n, j)
            &&& !contains(n, "RF"@)
            &&& !contains(netlist.nets.keys@[j]@, "RF"@)
        }
}

/// The net `n` is a switching node: that between some integrated circuit
/// and some inductor of the board.
pub open spec fn is_switching_node(netlist: &Netlist, power: &Power, n: Seq<char>) -> bool {
    exists|ic: Seq<char>, l: Seq<char>| #[trigger]
        switches_between(netlist, power, ic, l, n) && netlist.components.has_key(ic)
            && netlist.components.has_key(l) && spec_is_ic(ic) && spec_is_inductor(l)
}

/// The net `n` is the switching node between two parts of the board, an
/// integrated circuit at a position before `a`, or at `a` with the inductor at
/// a position before `b`.
pub open spec fn switching_within(
    netlist: &Netlist,
    power: &Power,
    a: int,
    b: int,
    n: Seq<char>,
) -> bool {
    exists|x: int, y: int|
        #![trigger netlist.components.keys@[x], netlist.components.keys@[y]]
        {
            &&& 0 <= x < netlist.components.keys@.len()
            &&& 0 <= y < netlist.components.keys@.len()
            &&& x < a || (x == a && y < b)
            &&& spec_is_ic(netlist.components.keys@[x]@)
            &&& spec_is_inductor(netlist.components.keys@[y]@)
            &&& switches_between(
                netlist,
                power,
                netlist.components.keys@[x]@,
                netlist.components.keys@[y]@,
                n,
            )
        }
}

/// Some bus has the net `n` as one of its lines.
pub open spec fn is_bus_line(buses: Seq<I2cBus>, n: Seq<char>) -> bool {
    exists|i: int|
        0 <= i < buses.len() && ((#[trigger] buses[i]).scl_net@ == n || buses[i].sda_net@ == n)
}

/// One of the first `k` nets of the list has the name `n`.
pub open spec fn named_within(nets: Seq<NetName>, k: int, n: Seq<char>) -> bool {
    exists|j: int| 0 <= j < k && (#[trigger] nets[j])@ == n
}

/// One of the first `k` buses has the net `n` as one of its lines.
pub open spec fn is_bus_line_within(buses: Seq<I2cBus>, k: int, n: Seq<char>) -> bool {
    exists|i: int|
        0 <= i < k && ((#[trigger] buses[i]).scl_net@ == n || buses[i].sda_net@ == n)
}

/// The position of the first net that holds pins of both parts and
/// survives as a candidate for a switching node.
fn find_common_surviving(pcba: &Pcba, a: &Designator, b: &Designator) -> (r: Option<usize>)
    requires
        pcba.wf(),
    ensures
        match r {
            Some(i) => first_common_surviving(&pcba.netlist, &pcba.power, a@, b@, i as int),
            None => forall|i: int|
                !first_common_surviving(&pcba.netlist, &pcba.power, a@, b@, i),
        },
{
    let mut i: usize = 0;
    while i < pcba.netlist.nets.len()
        invariant
            pcba.wf(),
            i <= pcba.netlist.nets.keys@.len(),
            forall|j: int|
                0 <= j < i ==> !common_surviving(&pcba.netlist, &pcba.power, a@, b@, j),
        decreases pcba.netlist.nets.keys@.len() - i,
    {
        let net = pcba.netlist.nets.value_at(i);
        let name = pcba.netlist.nets.key_at(i);
        if net.touches_part(a) && net.touches_part(b) && !pcba.power.ground_nets.contains(name) {
            let text = name.0.as_str();
            if !pcba.power.power_rails.contains_key(name) || str_contains(text, "LX")
                || str_contains(text, "SW") {
                return Some(i);
            }
        }
        i = i + 1;
    }
    None
}

/// The switching node between an integrated circuit and an inductor, if there is one.
pub fn switching_node_between(pcba: &Pcba, ic: &Designator, inductor: &Designator) -> (r: Option<
    NetName,
>)
    requires
        pcba.wf(),
    ensures
        match r {
            Some(n) => switches_between(&pcba.netlist, &pcba.power, ic@, inductor@, n@),
            None => forall|n: Seq<char>|
                !switches_between(&pcba.netlist, &pcba.power, ic@, inductor@, n),
        },
{
    let Some(i) = find_common_surviving(pcba, ic, inductor) else {
        return None;
    };
    let switching_net = pcba.netlist.nets.key_at(i);
    proof {
        assert forall|i2: int| #[trigger]
            first_common_surviving(&pcba.netlist, &pcba.power, ic@, inductor@, i2) implies i2
            == i by {}
    }
    let Some(j) = first_other_net(&pcba.netlist, inductor, switching_net) else {
        return None;
    };
    let other_side_net = pcba.netlist.nets.key_at(j);
    proof {
        assert forall|j2: int| #[trigger]
            first_other_net_at(&pcba.netlist, inductor@, switching_net@, j2) implies j2 == j by {}
    }
    if !str_contains(switching_net.0.as_str(), "RF") && !str_contains(
        other_side_net.0.as_str(),
        "RF",
    ) {
        Some(switching_net.clone())
    } else {
        None
    }
}

/// Finds the switching nodes: the nets between a switching regulator and
/// its inductor. For every integrated circuit and inductor of the board, the
/// first of their common nets that survives as a candidate is taken, unless
/// its name or that of the first other net of the inductor holds `RF`, or the
/// inductor has no other net.
pub fn find_switching_nodes(pcba: &Pcba) -> (r: KeySet<NetName>)
    requires
        pcba.wf(),
    ensures
        r.wf(),
        forall|n: Seq<char>| #[trigger]
            r.has(n) <==> is_switching_node(&pcba.netlist, &pcba.power, n),
{
    let mut switching: KeySet<NetName> = KeySet::new();
    let parts = &pcba.netlist.components;
    let count = parts.len();
    let mut a: usize = 0;
    while a < count
        invariant
            pcba.wf(),
            switching.wf(),
            *parts == pcba.netlist.components,
            count == parts.keys@.len(),
            a <= count,
            forall|n: Seq<char>| #[trigger]
                switching.has(n) <==> switching_within(&pcba.netlist, &pcba.power, a as int, 0, n),
        decreases count - a,
    {
        let ic = parts.key_at(a);
        if ic.is_ic() {
            let mut b: usize = 0;
            while b < count
                invariant
                    pcba.wf(),
                    switching.wf(),
                    *parts == pcba.netlist.components,
                    count == parts.keys@.len(),
                    a < count,
                    b <= count,
                    *ic == parts.keys@[a as int],
                    spec_is_ic(ic@),
                    forall|n: Seq<char>| #[trigger]
                        switching.has(n) <==> switching_within(
                            &pcba.netlist,
                            &pcba.power,
                            a as int,
                            b as int,
                            n,
                        ),
                decreases count - b,
            {
                let inductor = parts.key_at(b);
                let ghost before = switching;
                let mut taken: Option<NetName> = None;
                if inductor.is_inductor() {
                    taken = switching_node_between(pcba, ic, inductor);
                    if let Some(net) = &taken {
                        switching.insert(net.clone());
                    }
                }
                proof {
                    assert forall|n: Seq<char>| #[trigger]
                        switching.has(n) <==> switching_within(
                            &pcba.netlist,
                            &pcba.power,
                            a as int,
                            b + 1,
                            n,
                        ) by {
                        let here = spec_is_inductor(inductor@) && switches_between(
                            &pcba.netlist,
                            &pcba.power,
                            ic@,
                            inductor@,
                            n,
                        );
                        assert(switching.has(n) <==> (before.has(n) || here));
                        if switching_within(&pcba.netlist, &pcba.power, a as int, b + 1, n) {
                            let (x, y) = choose|x: int, y: int|
                                #![trigger parts.keys@[x], parts.keys@[y]]
                                {
                                    &&& 0 <= x < parts.keys@.len()
                                    &&& 0 <= y < parts.keys@.len()
                                    &&& x < a || (x == a && y < b + 1)
                                    &&& spec_is_ic(parts.keys@[x]@)
                                    &&& spec_is_inductor(parts.keys@[y]@)
                                    &&& switches_between(
                                        &pcba.netlist,
                                        &pcba.power,
                                        parts.keys@[x]@,
                                        parts.keys@[y]@,
                                        n,
                                    )
                                };
                            if !(x == a && y == b) {
                                assert(x < a || (x == a && y < b));
                                assert(switching_within(
                                    &pcba.netlist,
                                    &pcba.power,
                                    a as int,
                                    b as int,
                                    n,
                                ));
                            }
                        }
                        if before.has(n) {
                            let (x, y) = choose|x: int, y: int|
                                #![trigger parts.keys@[x], parts.keys@[y]]
                                {
                                    &&& 0 <= x < parts.keys@.len()
                                    &&& 0 <= y < parts.keys@.len()
                                    &&& x < a || (x == a && y < b)
                                    &&& spec_is_ic(parts.keys@[x]@)
                                    &&& spec_is_inductor(parts.keys@[y]@)
                                    &&& switches_between(
                                        &pcba.netlist,
                                        &pcba.power,
                                        parts.keys@[x]@,
                                        parts.keys@[y]@,
                                        n,
                                    )
                                };
                            assert(x < a || (x == a && y < b + 1));
                        }
                        if here {
                            assert(parts.keys@[a as int] == *ic && parts.keys@[b as int]
                                == *inductor);
                        }
                    }
                }
                b = b + 1;
            }
        }
        proof {
            assert forall|n: Seq<char>| #[trigger]
                switching_within(&pcba.netlist, &pcba.power, a + 1, 0, n) <==> switching.has(n) by {
                let full = switching_within(&pcba.netlist, &pcba.power, a as int, count as int, n);
                let none = switching_within(&pcba.netlist, &pcba.power, a as int, 0, n);
                if switching_within(&pcba.netlist, &pcba.power, a + 1, 0, n) {
                    let (x, y) = choose|x: int, y: int|
                        #![trigger parts.keys@[x], parts.keys@[y]]
                        {
                            &&& 0 <= x < parts.keys@.len()
                            &&& 0 <= y < parts.keys@.len()
                            &&& x < a + 1 || (x == a + 1 && y < 0)
                            &&& spec_is_ic(parts.keys@[x]@)
                            &&& spec_is_inductor(parts.keys@[y]@)
                            &&& switches_between(
                                &pcba.netlist,
                                &pcba.power,
                                parts.keys@[x]@,
                                parts.keys@[y]@,
                                n,
                            )
                        };
                    assert(x < a || (x == a && y < count));
                    assert(full);
                    if !spec_is_ic(ic@) {
                        assert(x < a || (x == a && y < 0));
                    }
                }
                if full {
                    let (x, y) = choose|x: int, y: int|
                        #![trigger parts.keys@[x], parts.keys@[y]]
                        {
                            &&& 0 <= x < parts.keys@.len()
                            &&& 0 <= y < parts.keys@.len()
                            &&& x < a || (x == a && y < count)
                            &&& spec_is_ic(parts.keys@[x]@)
                            &&& spec_is_inductor(parts.keys@[y]@)
                            &&& switches_between(
                                &pcba.netlist,
                                &pcba.power,
                                parts.keys@[x]@,
                                parts.keys@[y]@,
                                n,
                            )
                        };
                    assert(x < a + 1 || (x == a + 1 && y < 0));
                }
                if none {
                    let (x, y) = choose|x: int, y: int|
                        #![trigger parts.keys@[x], parts.keys@[y]]
                        {
                            &&& 0 <= x < parts.keys@.len()
                            &&& 0 <= y < parts.keys@.len()
                            &&& x < a || (x == a && y < 0)
                            &&& spec_is_ic(parts.keys@[x]@)
                            &&& spec_is_inductor(parts.keys@[y]@)
                            &&& switches_between(
                                &pcba.netlist,
                                &pcba.power,
                                parts.keys@[x]@,
                                parts.keys@[y]@,
                                n,
                            )
                        };
                    assert(x < a + 1 || (x == a + 1 && y < 0));
                }
            }
        }
        a = a + 1;
    }
    proof {
        assert forall|n: Seq<char>| #[trigger]
            switching.has(n) <==> is_switching_node(&pcba.netlist, &pcba.power, n) by {
            if switching.has(n) {
                let (x, y) = choose|x: int, y: int|
                    #![trigger parts.keys@[x], parts.keys@[y]]
                    {
                        &&& 0 <= x < parts.keys@.len()
                        &&& 0 <= y < parts.keys@.len()
                        &&& x < a || (x == a && y < 0)
                        &&& spec_is_ic(parts.keys@[x]@)
                        &&& spec_is_inductor(parts.keys@[y]@)
                        &&& switches_between(
                            &pcba.netlist,
                            &pcba.power,
                            parts.keys@[x]@,
                            parts.keys@[y]@,
                            n,
                        )
                    };
                parts.lemma_index_of(x);
                parts.lemma_index_of(y);
                assert(switches_between(
                    &pcba.netlist,
                    &pcba.power,
                    parts.keys@[x]@,
                    parts.keys@[y]@,
                    n,
                ));
            }
            if is_switching_node(&pcba.netlist, &pcba.power, n) {
                let (ic, l) = choose|ic: Seq<char>, l: Seq<char>| #[trigger]
                    switches_between(&pcba.netlist, &pcba.power, ic, l, n) && parts.has_key(ic)
                        && parts.has_key(l) && spec_is_ic(ic) && spec_is_inductor(l);
                let x = parts.index_of(ic);
                let y = parts.index_of(l);
                assert(parts.keys@[x]@ == ic && parts.keys@[y]@ == l);
                assert(x < a || (x == a && y < 0));
            }
        }
    }
    switching
}

/// A switching node is a net of the board that is no ground, whose name
/// does not hold `RF`, and that is a rail only where its name holds `LX` or `SW`.
pub proof fn lemma_switching_node(netlist: &Netlist, power: &Power, n: Seq<char>)
    requires
        netlist.wf(),
        is_switching_node(netlist, power, n),
    ensures
        netlist.has_net(n),
        survives(power, n),
        !contains(n, "RF"@),
{
    let (ic, l) = choose|ic: Seq<char>, l: Seq<char>| #[trigger]
        switches_between(netlist, power, ic, l, n) && netlist.components.has_key(ic)
            && netlist.components.has_key(l) && spec_is_ic(ic) && spec_is_inductor(l);
    let (i, j) = choose|i: int, j: int|
        #![trigger first_common_surviving(netlist, power, ic, l, i), first_other_net_at(netlist, l, n, j)]
        {
            &&& first_common_surviving(netlist, power, ic, l, i)
            &&& netlist.nets.keys@[i]@ == n
            &&& first_other_net_at(netlist, l, n, j)
            &&& !contains(n, "RF"@)
            &&& !contains(netlist.nets.keys@[j]@, "RF"@)
        };
    netlist.lemma_net_at(i);
}

impl Pcba {
    /// Analyses a netlist.
    ///
    /// Rails and grounds are derived, strictly by name. The I2C buses are
    /// found and checked, and the style of the parts is checked. Then the
    /// switching nodes are found; they, and the lines of the I2C buses, are
    /// no rails whatever their names say.
    pub fn new(netlist: Netlist) -> (r: Self)
        requires
            netlist.wf(),
        ensures
            r.wf(),
            r.netlist == netlist,
            keyed_by_name(r.i2c_buses.by_name),
            forall|i: int|
                0 <= i < r.i2c_buses.by_name.values@.len() ==> settled_bus(
                    &netlist,
                    (#[trigger] r.i2c_buses.by_name.values@[i])@,
                ),
            segments_view(r.i2c_buses.direct_segments@) == segments_of(
                Seq::empty(),
                buses_view(r.i2c_buses.by_name.values@),
                true,
                r.i2c_buses.by_name.values@.len(),
            ),
            segments_view(r.i2c_buses.same_bus_segments@) == segments_of(
                Seq::empty(),
                buses_view(r.i2c_buses.by_name.values@),
                false,
                r.i2c_buses.by_name.values@.len(),
            ),
            exists|found: Seq<I2cBus>| #[trigger]
                accounted(
                    &netlist,
                    Seq::empty(),
                    diagnostics_view(r.diagnostics.i2c@),
                    r.i2c_buses,
                    found,
                ),
            style_view(r.diagnostics.style@) == value_remarks(
                &netlist,
                netlist.components.keys@.len(),
            ) + mosfet_remarks(&netlist, netlist.components.keys@.len()),
            forall|n: Seq<char>| #[trigger]
                r.power.ground_nets.has(n) <==> (netlist.has_net(n) && ground_name(n)),
            forall|n: Seq<char>| #[trigger]
                r.power.power_rails.has_key(n) <==> (is_rail(&netlist, n, true)
                    && !r.switching_nodes.has(n) && !is_bus_line(r.i2c_buses.by_name.values@, n)),
            forall|n: Seq<char>| #[trigger]
                r.power.power_rails.has_key(n) ==> r.power.power_rails.value_of(n).voltage
                    == named_voltage(n, true),
            forall|n: Seq<char>| #[trigger]
                r.switching_nodes.has(n) ==> !r.power.power_rails.has_key(n),
            exists|derived: Power| #[trigger]
                is_power_of(&netlist, &derived, true) && forall|n: Seq<char>| #[trigger]
                    r.switching_nodes.has(n) <==> is_switching_node(&netlist, &derived, n),
            forall|n: Seq<char>| #[trigger]
                r.switching_nodes.has(n) ==> netlist.has_net(n) && !ground_name(n) && !contains(
                    n,
                    "RF"@,
                ) && (is_rail(&netlist, n, true) ==> (contains(n, "LX"@) || contains(n, "SW"@))),
    {
        let mut diagnostics = Diagnostics::new();
        let power = derive_power_structure(&netlist, true);
        assert(diagnostics_view(diagnostics.i2c@) =~= Seq::empty());
        let i2c_buses = find_i2c_buses(&netlist, &mut diagnostics.i2c);
        let ghost findings = diagnostics_view(diagnostics.i2c@);
        let ghost buses_found = i2c_buses;
        let ghost found = choose|found: Seq<I2cBus>| #[trigger]
            accounted(&netlist, Seq::empty(), findings, buses_found, found);
        check_style(&netlist, &mut diagnostics.style);
        assert(style_view(diagnostics.style@) =~= value_remarks(
            &netlist,
            netlist.components.keys@.len(),
        ) + mosfet_remarks(&netlist, netlist.components.keys@.len()));
        let mut pcba = Pcba {
            netlist,
            power,
            switching_nodes: KeySet::new(),
            i2c_buses,
            diagnostics,
        };
        let switching_nodes = find_switching_nodes(&pcba);
        let ghost derived = pcba.power;
        proof {
            assert(is_power_of(&netlist, &derived, true) && forall|n: Seq<char>| #[trigger]
                switching_nodes.has(n) <==> is_switching_node(&netlist, &derived, n));
            assert forall|n: Seq<char>| #[trigger] switching_nodes.has(n) implies netlist.has_net(n)
                && !ground_name(n) && !contains(n, "RF"@) && (is_rail(&netlist, n, true) ==> (
            contains(n, "LX"@) || contains(n, "SW"@))) by {
                lemma_switching_node(&pcba.netlist, &pcba.power, n);
            }
        }
        let mut rails = pcba.power.power_rails;
        let ghost initial = rails;
        let mut i: usize = 0;
        while i < switching_nodes.items.len()
            invariant
                rails.wf(),
                i <= switching_nodes.items@.len(),
                forall|n: Seq<char>| #[trigger]
                    rails.has_key(n) <==> (initial.has_key(n) && !named_within(
                        switching_nodes.items@,
                        i as int,
                        n,
                    )),
                forall|n: Seq<char>| #[trigger]
                    rails.has_key(n) ==> rails.value_of(n) == initial.value_of(n),
            decreases switching_nodes.items@.len() - i,
        {
            let ghost before = rails;
            rails.remove(&switching_nodes.items[i]);
            proof {
                assert forall|n: Seq<char>| #[trigger]
                    named_within(switching_nodes.items@, i + 1, n) <==> (named_within(
                        switching_nodes.items@,
                        i as int,
                        n,
                    ) || n == switching_nodes.items@[i as int]@) by {
                    if named_within(switching_nodes.items@, i + 1, n) {
                        let j = choose|j: int|
                            0 <= j < i + 1 && (#[trigger] switching_nodes.items@[j])@ == n;
                        if j < i {
                            assert(0 <= j < i && switching_nodes.items@[j]@ == n);
                        }
                    }
                    if named_within(switching_nodes.items@, i as int, n) {
                        let j = choose|j: int|
                            0 <= j < i && (#[trigger] switching_nodes.items@[j])@ == n;
                        assert(0 <= j < i + 1 && switching_nodes.items@[j]@ == n);
                    }
                    if n == switching_nodes.items@[i as int]@ {
                        assert(0 <= i < i + 1 && switching_nodes.items@[i as int]@ == n);
                    }
                }
                assert forall|n: Seq<char>| #[trigger]
                    rails.has_key(n) <==> (initial.has_key(n) && !named_within(
                        switching_nodes.items@,
                        i + 1,
                        n,
                    )) by {
                    assert(before.has_key(n) <==> (initial.has_key(n) && !named_within(
                        switching_nodes.items@,
                        i as int,
                        n,
                    )));
                }
                assert forall|n: Seq<char>| #[trigger] rails.has_key(n) implies rails.value_of(n)
                    == initial.value_of(n) by {
                    assert(before.has_key(n));
                }
            }
            i = i + 1;
        }
        let ghost unswitched = rails;
        let mut b: usize = 0;
        while b < pcba.i2c_buses.by_name.values.len()
            invariant
                rails.wf(),
                b <= pcba.i2c_buses.by_name.values@.len(),
                forall|n: Seq<char>| #[trigger]
                    rails.has_key(n) <==> (unswitched.has_key(n) && !is_bus_line_within(
                        pcba.i2c_buses.by_name.values@,
                        b as int,
                        n,
                    )),
                forall|n: Seq<char>| #[trigger]
                    rails.has_key(n) ==> rails.value_of(n) == unswitched.value_of(n),
            decreases pcba.i2c_buses.by_name.values@.len() - b,
        {
            let ghost before = rails;
            let bus = &pcba.i2c_buses.by_name.values[b];
            rails.remove(&bus.scl_net);
            let ghost middle = rails;
            rails.remove(&bus.sda_net);
            proof {
                let buses = pcba.i2c_buses.by_name.values@;
                assert forall|n: Seq<char>| #[trigger]
                    is_bus_line_within(buses, b + 1, n) <==> (is_bus_line_within(buses, b as int, n)
                        || n == bus.scl_net@ || n == bus.sda_net@) by {
                    if is_bus_line_within(buses, b + 1, n) {
                        let j = choose|j: int|
                            0 <= j < b + 1 && ((#[trigger] buses[j]).scl_net@ == n
                                || buses[j].sda_net@ == n);
                        if j < b {
                            assert(0 <= j < b && (buses[j].scl_net@ == n || buses[j].sda_net@ == n));
                        }
                    }
                    if is_bus_line_within(buses, b as int, n) {
                        let j = choose|j: int|
                            0 <= j < b && ((#[trigger] buses[j]).scl_net@ == n || buses[j].sda_net@
                                == n);
                        assert(0 <= j < b + 1 && (buses[j].scl_net@ == n || buses[j].sda_net@
                            == n));
                    }
                    if n == bus.scl_net@ || n == bus.sda_net@ {
                        assert(0 <= b < b + 1 && (buses[b as int].scl_net@ == n
                            || buses[b as int].sda_net@ == n));
                    }
                }
                assert forall|n: Seq<char>| #[trigger]
                    rails.has_key(n) <==> (unswitched.has_key(n) && !is_bus_line_within(
                        buses,
                        b + 1,
                        n,
                    )) by {
                    assert(before.has_key(n) <==> (unswitched.has_key(n) && !is_bus_line_within(
                        buses,
                        b as int,
                        n,
                    )));
                    assert(middle.has_key(n) <==> (before.has_key(n) && n != bus.scl_net@));
                }
                assert forall|n: Seq<char>| #[trigger] rails.has_key(n) implies rails.value_of(n)
                    == unswitched.value_of(n) by {
                    assert(middle.has_key(n));
                    assert(before.has_key(n));
                }
            }
            b = b + 1;
        }
        proof {
            let buses = pcba.i2c_buses.by_name.values@;
            assert forall|n: Seq<char>| #[trigger]
                rails.has_key(n) <==> (is_rail(&netlist, n, true) && !switching_nodes.has(n)
                    && !is_bus_line(buses, n)) by {
                assert(unswitched.has_key(n) <==> (initial.has_key(n) && !named_within(
                    switching_nodes.items@,
                    switching_nodes.items@.len() as int,
                    n,
                )));
                assert(named_within(
                    switching_nodes.items@,
                    switching_nodes.items@.len() as int,
                    n,
                ) <==> switching_nodes.has(n));
                assert(is_bus_line_within(buses, buses.len() as int, n) <==> is_bus_line(buses, n));
            }
            assert forall|n: Seq<char>| #[trigger] rails.has_key(n) implies rails.value_of(n).voltage
                == named_voltage(n, true) by {
                assert(unswitched.has_key(n));
                assert(initial.has_key(n));
            }
        }
        pcba.power.power_rails = rails;
        pcba.switching_nodes = switching_nodes;
        proof {
            assert(pcba.i2c_buses == buses_found);
            assert(diagnostics_view(pcba.diagnostics.i2c@) == findings);
            assert(accounted(
                &netlist,
                Seq::empty(),
                diagnostics_view(pcba.diagnostics.i2c@),
                pcba.i2c_buses,
                found,
            ));
        }
        pcba
    }
}

} // verus!
