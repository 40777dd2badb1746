//! Segments of I2C buses: which buses are one net after ties collapse, and
//! which carry the same traffic across translators.
use vstd::prelude::*;
use crate::collections::{Key, KeySet};
use crate::i2c_model::{buses_view, I2cBus, I2cBusView, I2cBuses, I2cNode, I2cNodeView};

verus! {

/// The bus that a node leads to. With `direct`, only a tie leads anywhere;
/// without, a voltage translator does too.
pub open spec fn other_side_of(node: I2cNodeView, direct: bool) -> Option<Seq<char>> {
    match node {
        I2cNodeView::Tie { other_side, .. } => Some(other_side),
        I2cNodeView::VoltageTranslator { other_side, .. } => if direct {
            None
        } else {
            Some(other_side)
        },
        I2cNodeView::VoltageTranslatorDiscrete { other_side, .. } => if direct {
            None
        } else {
            Some(other_side)
        },
        _ => None,
    }
}

/// One of the first `n` nodes of the bus leads to the bus named `x`.
pub open spec fn leads_within(bus: I2cBusView, direct: bool, n: int, x: Seq<char>) -> bool {
    exists|k: int| 0 <= k < n && other_side_of(#[trigger] bus.nodes[k], direct) == Some(x)
}

/// The names that a bus brings together: its own, and those of the buses
/// that its nodes lead to.
pub open spec fn sides(bus: I2cBusView, direct: bool) -> Set<Seq<char>> {
    Set::new(
        |x: Seq<char>| x == bus.derived_name || leads_within(bus, direct, bus.nodes.len() as int, x),
    )
}

/// Two sets share a name.
pub open spec fn meets(a: Set<Seq<char>>, b: Set<Seq<char>>) -> bool {
    exists|x: Seq<char>| #[trigger] a.contains(x) && b.contains(x)
}

/// Those of the first `n` segments that share no name with `sub`, in order.
pub open spec fn kept(segments: Seq<Set<Seq<char>>>, sub: Set<Seq<char>>, n: nat) -> Seq<
    Set<Seq<char>>,
>
    decreases n,
{
    if n == 0 {
        Seq::empty()
    } else if meets(segments[n - 1], sub) {
        kept(segments, sub, (n - 1) as nat)
    } else {
        kept(segments, sub, (n - 1) as nat).push(segments[n - 1])
    }
}

/// The names of `sub`, and of those of the first `n` segments that share a
/// name with it.
pub open spec fn gathered(segments: Seq<Set<Seq<char>>>, sub: Set<Seq<char>>, n: nat) -> Set<
    Seq<char>,
> {
    Set::new(
        |x: Seq<char>|
            sub.contains(x) || exists|k: int|
                0 <= k < n && meets(#[trigger] segments[k], sub) && segments[k].contains(x),
    )
}

/// Every segment that shares a name with `sub` leaves the list, and one
/// segment that holds their names and those of `sub` is added at the end.
pub open spec fn merge_or_push(segments: Seq<Set<Seq<char>>>, sub: Set<Seq<char>>) -> Seq<
    Set<Seq<char>>,
> {
    kept(segments, sub, segments.len()).push(gathered(segments, sub, segments.len()))
}

/// The position among `segments` of the segment that is at `j` among the kept.
pub open spec fn origin(segments: Seq<Set<Seq<char>>>, sub: Set<Seq<char>>, n: nat, j: int) -> int
    decreases n,
{
    if n == 0 {
        0
    } else if !meets(segments[n - 1], sub) && j == kept(segments, sub, (n - 1) as nat).len() {
        n - 1
    } else {
        origin(segments, sub, (n - 1) as nat, j)
    }
}

/// No two segments share a name, and none is empty.
pub open spec fn is_partition(segments: Seq<Set<Seq<char>>>) -> bool {
    &&& forall|i: int, j: int|
        0 <= i < j < segments.len() ==> !meets(#[trigger] segments[i], #[trigger] segments[j])
    &&& forall|i: int| 0 <= i < segments.len() ==> meets(#[trigger] segments[i], segments[i])
}

/// The segments after the first `n` buses have been brought in, in order,
/// starting from `start`.
pub open spec fn segments_of(
    start: Seq<Set<Seq<char>>>,
    buses: Seq<I2cBusView>,
    direct: bool,
    n: nat,
) -> Seq<Set<Seq<char>>>
    decreases n,
{
    if n == 0 {
        start
    } else {
        merge_or_push(segments_of(start, buses, direct, (n - 1) as nat), sides(buses[n - 1], direct))
    }
}

/// The sets of names of a list of segments.
pub open spec fn segments_view(segments: Seq<KeySet<String>>) -> Seq<Set<Seq<char>>> {
    segments.map_values(|s: KeySet<String>| s.as_set())
}

/// Every segment holds each name once.
pub open spec fn segments_wf(segments: Seq<KeySet<String>>) -> bool {
    forall|i: int| 0 <= i < segments.len() ==> (#[trigger] segments[i]).wf()
}

/// The bus that a node leads to, if any.
fn node_other_side(node: &I2cNode, direct: bool) -> (r: Option<String>)
    ensures
        match r {
            Some(s) => other_side_of(node@, direct) == Some(s@),
            None => other_side_of(node@, direct) is None,
        },
{
    match node {
        I2cNode::Tie { other_side, .. } => Some(other_side.clone()),
        I2cNode::VoltageTranslator { other_side, .. } => if direct {
            None
        } else {
            Some(other_side.clone())
        },
        I2cNode::VoltageTranslatorDiscrete { other_side, .. } => if direct {
            None
        } else {
            Some(other_side.clone())
        },
        _ => None,
    }
}

/// The names that a bus brings together.
fn bus_sides(bus: &I2cBus, direct: bool) -> (r: KeySet<String>)
    ensures
        r.wf(),
        r.as_set() == sides(bus@, direct),
{
    let mut names: KeySet<String> = KeySet::new();
    names.insert(bus.derived_name.clone());
    let mut i: usize = 0;
    while i < bus.nodes.len()
        invariant
            names.wf(),
            i <= bus.nodes@.len(),
            forall|x: Seq<char>| #[trigger]
                names.has(x) <==> (x == bus.derived_name@ || leads_within(
                    bus@,
                    direct,
                    i as int,
                    x,
                )),
        decreases bus.nodes@.len() - i,
    {
        let found = node_other_side(&bus.nodes[i], direct);
        proof {
            assert(bus@.nodes[i as int] == bus.nodes@[i as int]@);
            assert forall|x: Seq<char>| #[trigger]
                leads_within(bus@, direct, i + 1, x) <==> (leads_within(bus@, direct, i as int, x)
                    || other_side_of(bus@.nodes[i as int], direct) == Some(x)) by {
                if leads_within(bus@, direct, i + 1, x) {
                    let k = choose|k: int|
                        0 <= k < i + 1 && other_side_of(#[trigger] bus@.nodes[k], direct) == Some(
                            x,
                        );
                    if k < i {
                        assert(0 <= k < i && other_side_of(bus@.nodes[k], direct) == Some(x));
                    }
                }
                if leads_within(bus@, direct, i as int, x) {
                    let k = choose|k: int|
                        0 <= k < i && other_side_of(#[trigger] bus@.nodes[k], direct) == Some(x);
                    assert(0 <= k < i + 1 && other_side_of(bus@.nodes[k], direct) == Some(x));
                }
                if other_side_of(bus@.nodes[i as int], direct) == Some(x) {
                    assert(0 <= i < i + 1 && other_side_of(bus@.nodes[i as int], direct) == Some(
                        x,
                    ));
                }
            }
        }
        if let Some(name) = found {
            names.insert(name);
        }
        i = i + 1;
    }
    assert(names.as_set() =~= sides(bus@, direct));
    names
}

/// Whether two sets share a name.
fn share_a_name(a: &KeySet<String>, b: &KeySet<String>) -> (r: bool)
    ensures
        r == meets(a.as_set(), b.as_set()),
{
    let mut i: usize = 0;
    while i < a.items.len()
        invariant
            i <= a.items@.len(),
            forall|k: int| 0 <= k < i ==> !b.has((#[trigger] a.items@[k])@),
        decreases a.items@.len() - i,
    {
        if b.contains(&a.items[i]) {
            let ghost x = a.items@[i as int]@;
            assert(a.has(x));
            assert(a.as_set().contains(x) && b.as_set().contains(x));
            return true;
        }
        i = i + 1;
    }
    proof {
        if exists|x: Seq<char>| #[trigger] a.as_set().contains(x) && b.as_set().contains(x) {
            let x = choose|x: Seq<char>| #[trigger] a.as_set().contains(x) && b.as_set().contains(x);
            let k = choose|k: int| 0 <= k < a.items@.len() && #[trigger] a.items@[k]@ == x;
            assert(!b.has(a.items@[k]@));
        }
    }
    false
}

/// Puts every name of `from` into `target`.
fn add_all(target: &mut KeySet<String>, from: &KeySet<String>)
    requires
        old(target).wf(),
        from.wf(),
    ensures
        final(target).wf(),
        final(target).as_set() == old(target).as_set().union(from.as_set()),
{
    let ghost start = target.as_set();
    let mut k: usize = 0;
    while k < from.items.len()
        invariant
            from.wf(),
            target.wf(),
            k <= from.items@.len(),
            forall|x: Seq<char>| #[trigger]
                target.has(x) <==> (start.contains(x) || exists|m: int|
                    0 <= m < k && (#[trigger] from.items@[m])@ == x),
        decreases from.items@.len() - k,
    {
        let ghost so_far = *target;
        target.insert(from.items[k].clone());
        proof {
            assert forall|x: Seq<char>| #[trigger]
                target.has(x) <==> (start.contains(x) || exists|m: int|
                    0 <= m < k + 1 && (#[trigger] from.items@[m])@ == x) by {
                if so_far.has(x) && !start.contains(x) {
                    let m = choose|m: int| 0 <= m < k && (#[trigger] from.items@[m])@ == x;
                    assert(0 <= m < k + 1 && from.items@[m]@ == x);
                }
                if x == from.items@[k as int]@ {
                    assert(0 <= k < k + 1 && from.items@[k as int]@ == x);
                }
                if exists|m: int| 0 <= m < k + 1 && (#[trigger] from.items@[m])@ == x {
                    let m = choose|m: int| 0 <= m < k + 1 && (#[trigger] from.items@[m])@ == x;
                    if m < k {
                        assert(0 <= m < k && from.items@[m]@ == x);
                    }
                }
            }
        }
        k = k + 1;
    }
    proof {
        assert(target.as_set() =~= start.union(from.as_set())) by {
            assert forall|x: Seq<char>| target.has(x) <==> (start.contains(x) || from.has(x)) by {
                if from.has(x) {
                    let m = choose|m: int|
                        0 <= m < from.items@.len() && #[trigger] from.items@[m]@ == x;
                    assert(0 <= m < k && from.items@[m]@ == x);
                }
            }
        }
    }
}

/// Takes every segment that shares a name with `sub` out of the list, and
/// adds one segment at the end that holds their names and those of `sub`.
pub fn merge_into(sub: KeySet<String>, segments: &mut Vec<KeySet<String>>)
    requires
        sub.wf(),
        segments_wf(old(segments)@),
    ensures
        segments_wf(final(segments)@),
        segments_view(final(segments)@) == merge_or_push(
            segments_view(old(segments)@),
            sub.as_set(),
        ),
{
    let ghost before = segments_view(segments@);
    let ghost subset = sub.as_set();
    let mut joined: KeySet<String> = KeySet::new();
    add_all(&mut joined, &sub);
    assert(joined.as_set() =~= gathered(before, subset, 0));
    let mut i: usize = 0;
    let ghost mut n: nat = 0;
    let ghost mut next: nat = 1;
    while i < segments.len()
        invariant
            sub.wf(),
            joined.wf(),
            segments_wf(segments@),
            subset == sub.as_set(),
            i <= segments@.len(),
            before.len() == n + segments@.len() - i,
            i == kept(before, subset, n).len(),
            segments_view(segments@) =~= kept(before, subset, n) + before.subrange(
                n as int,
                before.len() as int,
            ),
            joined.as_set() =~= gathered(before, subset, n),
            next == n + 1,
        decreases segments@.len() - i,
    {
        let ghost current = segments@;
        assert(segments_view(current)[i as int] == before.subrange(n as int, before.len() as int)[0]);
        assert(current[i as int].as_set() == before[n as int]);
        if share_a_name(&segments[i], &sub) {
            let segment = segments.remove(i);
            add_all(&mut joined, &segment);
            proof {
                assert(kept(before, subset, next) == kept(before, subset, n));
                assert(joined.as_set() =~= gathered(before, subset, next)) by {
                    assert forall|x: Seq<char>|
                        gathered(before, subset, next).contains(x) implies gathered(before, subset, n).contains(x) || before[n as int].contains(x) by {
                        if !subset.contains(x) {
                            let k = choose|k: int|
                                0 <= k < n + 1 && meets(#[trigger] before[k], subset) && before[k].contains(
                                    x,
                                );
                            if k < n {
                                assert(0 <= k < n && meets(before[k], subset) && before[k].contains(x));
                            }
                        }
                    }
                    assert forall|x: Seq<char>|
                        gathered(before, subset, n).contains(x) || before[n as int].contains(
                            x,
                        ) implies gathered(before, subset, next).contains(x) by {
                        if before[n as int].contains(x) {
                            assert(0 <= n < n + 1 && meets(before[n as int], subset)
                                && before[n as int].contains(x));
                        } else if !subset.contains(x) {
                            let k = choose|k: int|
                                0 <= k < n && meets(#[trigger] before[k], subset) && before[k].contains(
                                    x,
                                );
                            assert(0 <= k < n + 1 && meets(before[k], subset) && before[k].contains(x));
                        }
                    }
                }
                assert forall|j: int| 0 <= j < segments@.len() implies (#[trigger] segments@[j]).wf() by {
                    if j < i {
                        assert(segments@[j] == current[j]);
                    } else {
                        assert(segments@[j] == current[j + 1]);
                    }
                }
                assert(segments_view(segments@) =~= kept(before, subset, next) + before.subrange(next as int,
                    before.len() as int,
                )) by {
                    assert forall|j: int| 0 <= j < segments@.len() implies segments_view(
                        segments@,
                    )[j] == (kept(before, subset, next) + before.subrange(next as int,
                        before.len() as int,
                    ))[j] by {
                        if j < i {
                            assert(segments@[j] == current[j]);
                            assert(segments_view(current)[j] == kept(before, subset, n)[j]);
                        } else {
                            assert(segments@[j] == current[j + 1]);
                            assert(segments_view(current)[j + 1] == before.subrange(
                                n as int,
                                before.len() as int,
                            )[j + 1 - i]);
                        }
                    }
                }
            }
        } else {
            proof {
                assert(kept(before, subset, next) == kept(before, subset, n).push(before[n as int]));
                assert(joined.as_set() =~= gathered(before, subset, next)) by {
                    assert forall|x: Seq<char>|
                        gathered(before, subset, next).contains(x) implies gathered(before, subset, n).contains(x) by {
                        if !subset.contains(x) {
                            let k = choose|k: int|
                                0 <= k < n + 1 && meets(#[trigger] before[k], subset) && before[k].contains(
                                    x,
                                );
                            assert(0 <= k < n && meets(before[k], subset) && before[k].contains(x));
                        }
                    }
                    assert forall|x: Seq<char>|
                        gathered(before, subset, n).contains(x) implies gathered(before, subset, next).contains(x) by {
                        if !subset.contains(x) {
                            let k = choose|k: int|
                                0 <= k < n && meets(#[trigger] before[k], subset) && before[k].contains(
                                    x,
                                );
                            assert(0 <= k < n + 1 && meets(before[k], subset) && before[k].contains(x));
                        }
                    }
                }
                assert(segments_view(segments@) =~= kept(before, subset, next) + before.subrange(next as int,
                    before.len() as int,
                )) by {
                    assert forall|j: int| 0 <= j < segments@.len() implies segments_view(
                        segments@,
                    )[j] == (kept(before, subset, next) + before.subrange(next as int,
                        before.len() as int,
                    ))[j] by {
                        if j < i {
                            assert(segments_view(current)[j] == kept(before, subset, n)[j]);
                        } else {
                            assert(segments_view(current)[j] == before.subrange(
                                n as int,
                                before.len() as int,
                            )[j - i]);
                        }
                    }
                }
            }
            i = i + 1;
        }
        proof {
            n = next;
            next = n + 1;
        }
    }
    let ghost rest = segments@;
    segments.push(joined);
    proof {
        assert(n == before.len());
        assert(segments_view(rest) =~= kept(before, subset, n));
        assert(segments_view(segments@) =~= merge_or_push(before, subset)) by {
            assert forall|j: int| 0 <= j < segments@.len() implies segments_view(segments@)[j]
                == merge_or_push(before, subset)[j] by {
                if j < rest.len() {
                    assert(segments@[j] == rest[j]);
                    assert(segments_view(rest)[j] == rest[j].as_set());
                }
            }
        }
        assert forall|j: int| 0 <= j < segments@.len() implies (#[trigger] segments@[j]).wf() by {
            if j < rest.len() {
                assert(segments@[j] == rest[j]);
            }
        }
    }
}

impl I2cBuses {
    /// The map of buses holds each name once. The direct segments are a
    /// partition of names, and so are the same-bus segments; each direct
    /// segment lies within one same-bus segment.
    pub open spec fn wf(&self) -> bool {
        &&& self.by_name.wf()
        &&& segments_wf(self.direct_segments@)
        &&& segments_wf(self.same_bus_segments@)
        &&& is_partition(segments_view(self.direct_segments@))
        &&& is_partition(segments_view(self.same_bus_segments@))
        &&& within(segments_view(self.direct_segments@), segments_view(self.same_bus_segments@))
    }

    /// Brings every bus into the segments, in the order of the buses. Buses
    /// joined by a tie share a direct segment; buses joined by a tie or by a
    /// voltage translator share a same-bus segment. Afterwards no name is in
    /// two segments of one kind, and the names in the segments are those that
    /// were there and those of the buses and of the buses they lead to.
    pub fn collect_segments(&mut self)
        requires
            old(self).wf(),
        ensures
            final(self).wf(),
            final(self).by_name == old(self).by_name,
            forall|x: Seq<char>| #[trigger]
                covered(segments_view(final(self).direct_segments@), x) <==> (covered(
                    segments_view(old(self).direct_segments@),
                    x,
                ) || brought(
                    buses_view(old(self).by_name.values@),
                    true,
                    old(self).by_name.values@.len() as int,
                    x,
                )),
            forall|x: Seq<char>| #[trigger]
                covered(segments_view(final(self).same_bus_segments@), x) <==> (covered(
                    segments_view(old(self).same_bus_segments@),
                    x,
                ) || brought(
                    buses_view(old(self).by_name.values@),
                    false,
                    old(self).by_name.values@.len() as int,
                    x,
                )),
            segments_view(final(self).direct_segments@) == segments_of(
                segments_view(old(self).direct_segments@),
                buses_view(old(self).by_name.values@),
                true,
                old(self).by_name.values@.len(),
            ),
            segments_view(final(self).same_bus_segments@) == segments_of(
                segments_view(old(self).same_bus_segments@),
                buses_view(old(self).by_name.values@),
                false,
                old(self).by_name.values@.len(),
            ),
    {
        let ghost buses = buses_view(self.by_name.values@);
        let ghost direct_start = segments_view(self.direct_segments@);
        let ghost same_start = segments_view(self.same_bus_segments@);
        let mut i: usize = 0;
        proof {
            assert(buses.len() == self.by_name.values@.len());
            lemma_segments_partition(direct_start, buses, true, buses.len());
            lemma_segments_partition(same_start, buses, false, buses.len());
        }
        while i < self.by_name.values.len()
            invariant
                self.by_name.wf(),
                segments_wf(self.direct_segments@),
                segments_wf(self.same_bus_segments@),
                is_partition(direct_start),
                is_partition(same_start),
                within(direct_start, same_start),
                self.by_name == old(self).by_name,
                buses == buses_view(self.by_name.values@),
                i <= self.by_name.values@.len(),
                segments_view(self.direct_segments@) == segments_of(
                    direct_start,
                    buses,
                    true,
                    i as nat,
                ),
                segments_view(self.same_bus_segments@) == segments_of(
                    same_start,
                    buses,
                    false,
                    i as nat,
                ),
            decreases self.by_name.values@.len() - i,
        {
            let bus = &self.by_name.values[i];
            assert(buses[i as int] == bus@);
            let tie = bus_sides(bus, true);
            let translate = bus_sides(bus, false);
            merge_into(tie, &mut self.direct_segments);
            merge_into(translate, &mut self.same_bus_segments);
            i = i + 1;
        }
        proof {
            lemma_segments_within(direct_start, same_start, buses, buses.len());
        }
    }
}

/// Some segment holds the name `x`.
pub open spec fn covered(segments: Seq<Set<Seq<char>>>, x: Seq<char>) -> bool {
    exists|k: int| 0 <= k < segments.len() && (#[trigger] segments[k]).contains(x)
}

/// One of the first `n` buses brings in the name `x`: it is the bus's own
/// name or that of a bus that one of its nodes leads to.
pub open spec fn brought(buses: Seq<I2cBusView>, direct: bool, n: int, x: Seq<char>) -> bool {
    exists|i: int| 0 <= i < n && sides(#[trigger] buses[i], direct).contains(x)
}

/// The set `s` lies within one segment of `coarse`.
pub open spec fn lies_in(coarse: Seq<Set<Seq<char>>>, s: Set<Seq<char>>) -> bool {
    exists|j: int| 0 <= j < coarse.len() && s.subset_of(#[trigger] coarse[j])
}

/// Every segment of `fine` lies within one segment of `coarse`.
pub open spec fn within(fine: Seq<Set<Seq<char>>>, coarse: Seq<Set<Seq<char>>>) -> bool {
    forall|i: int| 0 <= i < fine.len() ==> lies_in(coarse, #[trigger] fine[i])
}

/// A kept segment is one of the segments, and shares no name with `sub`.
pub proof fn lemma_origin(segments: Seq<Set<Seq<char>>>, sub: Set<Seq<char>>, n: nat, j: int)
    requires
        n <= segments.len(),
        0 <= j < kept(segments, sub, n).len(),
    ensures
        0 <= origin(segments, sub, n, j) < n,
        kept(segments, sub, n)[j] == segments[origin(segments, sub, n, j)],
        !meets(segments[origin(segments, sub, n, j)], sub),
    decreases n,
{
    if n > 0 {
        if !meets(segments[n - 1], sub) && j == kept(segments, sub, (n - 1) as nat).len() {
        } else {
            lemma_origin(segments, sub, (n - 1) as nat, j);
        }
    }
}

/// The kept segments stand in the order in which they stood before.
pub proof fn lemma_origin_order(
    segments: Seq<Set<Seq<char>>>,
    sub: Set<Seq<char>>,
    n: nat,
    a: int,
    b: int,
)
    requires
        n <= segments.len(),
        0 <= a < b < kept(segments, sub, n).len(),
    ensures
        origin(segments, sub, n, a) < origin(segments, sub, n, b),
    decreases n,
{
    if n > 0 {
        if !meets(segments[n - 1], sub) && b == kept(segments, sub, (n - 1) as nat).len() {
            lemma_origin(segments, sub, (n - 1) as nat, a);
        } else {
            lemma_origin_order(segments, sub, (n - 1) as nat, a, b);
        }
    }
}

/// A segment that shares no name with `sub` is kept.
pub proof fn lemma_kept_has(segments: Seq<Set<Seq<char>>>, sub: Set<Seq<char>>, n: nat, k: int)
    requires
        0 <= k < n <= segments.len(),
        !meets(segments[k], sub),
    ensures
        exists|j: int|
            0 <= j < kept(segments, sub, n).len() && #[trigger] kept(segments, sub, n)[j]
                == segments[k],
    decreases n,
{
    let now = kept(segments, sub, n);
    let earlier = kept(segments, sub, (n - 1) as nat);
    if k == n - 1 {
        assert(now[earlier.len() as int] == segments[k]);
    } else {
        lemma_kept_has(segments, sub, (n - 1) as nat, k);
        let j = choose|j: int| 0 <= j < earlier.len() && #[trigger] earlier[j] == segments[k];
        assert(now[j] == segments[k]);
    }
}

/// Merging keeps a partition a partition, and the names that the segments
/// hold afterwards are those that they held before and those of `sub`.
pub proof fn lemma_merge_partition(segments: Seq<Set<Seq<char>>>, sub: Set<Seq<char>>)
    requires
        is_partition(segments),
        meets(sub, sub),
    ensures
        is_partition(merge_or_push(segments, sub)),
        forall|x: Seq<char>| #[trigger]
            covered(merge_or_push(segments, sub), x) <==> (covered(segments, x) || sub.contains(x)),
{
    let n = segments.len();
    let rest = kept(segments, sub, n);
    let joined = gathered(segments, sub, n);
    let merged = merge_or_push(segments, sub);
    let w = choose|x: Seq<char>| #[trigger] sub.contains(x) && sub.contains(x);
    assert(joined.contains(w));
    assert forall|i: int| 0 <= i < merged.len() implies meets(#[trigger] merged[i], merged[i]) by {
        if i < rest.len() {
            lemma_origin(segments, sub, n, i);
            let o = origin(segments, sub, n, i);
            assert(meets(segments[o], segments[o]));
        }
    }
    assert forall|i: int, j: int| 0 <= i < j < merged.len() implies !meets(
        #[trigger] merged[i],
        #[trigger] merged[j],
    ) by {
        lemma_origin(segments, sub, n, i);
        let oi = origin(segments, sub, n, i);
        if j < rest.len() {
            lemma_origin(segments, sub, n, j);
            lemma_origin_order(segments, sub, n, i, j);
        } else if meets(merged[i], merged[j]) {
            let x = choose|x: Seq<char>| #[trigger] merged[i].contains(x) && merged[j].contains(x);
            if sub.contains(x) {
                assert(segments[oi].contains(x) && sub.contains(x));
            } else {
                let k = choose|k: int|
                    0 <= k < n && meets(#[trigger] segments[k], sub) && segments[k].contains(x);
                assert(segments[oi].contains(x) && segments[k].contains(x));
                if k < oi {
                    assert(meets(segments[k], segments[oi]));
                } else {
                    assert(meets(segments[oi], segments[k]));
                }
            }
        }
    }
    assert forall|x: Seq<char>| #[trigger]
        covered(merged, x) <==> (covered(segments, x) || sub.contains(x)) by {
        if covered(merged, x) {
            let k = choose|k: int| 0 <= k < merged.len() && (#[trigger] merged[k]).contains(x);
            if k < rest.len() {
                lemma_origin(segments, sub, n, k);
                assert(segments[origin(segments, sub, n, k)].contains(x));
            } else if !sub.contains(x) {
                let m = choose|m: int|
                    0 <= m < n && meets(#[trigger] segments[m], sub) && segments[m].contains(x);
                assert(segments[m].contains(x));
            }
        }
        if sub.contains(x) {
            assert(merged[rest.len() as int].contains(x));
        } else if covered(segments, x) {
            let k = choose|k: int| 0 <= k < segments.len() && (#[trigger] segments[k]).contains(x);
            if meets(segments[k], sub) {
                assert(merged[rest.len() as int].contains(x));
            } else {
                lemma_kept_has(segments, sub, n, k);
                let j = choose|j: int| 0 <= j < rest.len() && #[trigger] rest[j] == segments[k];
                assert(merged[j].contains(x));
            }
        }
    }
}

/// Bringing buses into a partition gives a partition: no name is in two
/// segments, no segment is empty, and the names in the segments are those
/// that were there and those that the buses bring.
pub proof fn lemma_segments_partition(
    start: Seq<Set<Seq<char>>>,
    buses: Seq<I2cBusView>,
    direct: bool,
    n: nat,
)
    requires
        is_partition(start),
        n <= buses.len(),
    ensures
        is_partition(segments_of(start, buses, direct, n)),
        forall|x: Seq<char>| #[trigger]
            covered(segments_of(start, buses, direct, n), x) <==> (covered(start, x) || brought(
                buses,
                direct,
                n as int,
                x,
            )),
    decreases n,
{
    if n > 0 {
        let before = segments_of(start, buses, direct, (n - 1) as nat);
        let sub = sides(buses[n - 1], direct);
        lemma_segments_partition(start, buses, direct, (n - 1) as nat);
        assert(sub.contains(buses[n - 1].derived_name));
        assert(meets(sub, sub));
        lemma_merge_partition(before, sub);
        assert forall|x: Seq<char>| #[trigger]
            covered(segments_of(start, buses, direct, n), x) <==> (covered(start, x) || brought(
                buses,
                direct,
                n as int,
                x,
            )) by {
            if brought(buses, direct, n as int, x) {
                let i = choose|i: int| 0 <= i < n && sides(#[trigger] buses[i], direct).contains(x);
                if i < n - 1 {
                    assert(brought(buses, direct, n - 1, x));
                }
            }
            if brought(buses, direct, n - 1, x) {
                let i = choose|i: int|
                    0 <= i < n - 1 && sides(#[trigger] buses[i], direct).contains(x);
                assert(0 <= i < n && sides(buses[i], direct).contains(x));
            }
            if sub.contains(x) {
                assert(0 <= n - 1 < n && sides(buses[n - 1], direct).contains(x));
            }
        }
    }
}

/// Merging a smaller set into the finer segments and a larger one into the
/// coarser keeps the finer within the coarser.
pub proof fn lemma_merge_within(
    fine: Seq<Set<Seq<char>>>,
    coarse: Seq<Set<Seq<char>>>,
    small: Set<Seq<char>>,
    large: Set<Seq<char>>,
)
    requires
        within(fine, coarse),
        small.subset_of(large),
    ensures
        within(merge_or_push(fine, small), merge_or_push(coarse, large)),
{
    let merged_fine = merge_or_push(fine, small);
    let merged_coarse = merge_or_push(coarse, large);
    let kept_coarse = kept(coarse, large, coarse.len());
    let last = kept_coarse.len() as int;
    assert forall|i: int| 0 <= i < merged_fine.len() implies lies_in(
        merged_coarse,
        #[trigger] merged_fine[i],
    ) by {
        if i < kept(fine, small, fine.len()).len() {
            lemma_origin(fine, small, fine.len(), i);
            let o = origin(fine, small, fine.len(), i);
            assert(lies_in(coarse, fine[o]));
            let j = choose|j: int| 0 <= j < coarse.len() && fine[o].subset_of(#[trigger] coarse[j]);
            if meets(coarse[j], large) {
                assert forall|x: Seq<char>| coarse[j].contains(x) implies merged_coarse[last].contains(
                    x,
                ) by {
                    assert(0 <= j < coarse.len() && meets(coarse[j], large) && coarse[j].contains(x));
                }
                assert(merged_fine[i].subset_of(merged_coarse[last]));
            } else {
                lemma_kept_has(coarse, large, coarse.len(), j);
                let m = choose|m: int| 0 <= m < kept_coarse.len() && #[trigger] kept_coarse[m] == coarse[j];
                assert(merged_fine[i].subset_of(merged_coarse[m]));
            }
        } else {
            assert forall|x: Seq<char>| merged_fine[i].contains(x) implies merged_coarse[last].contains(
                x,
            ) by {
                if !small.contains(x) {
                    let k = choose|k: int|
                        0 <= k < fine.len() && meets(#[trigger] fine[k], small) && fine[k].contains(x);
                    assert(lies_in(coarse, fine[k]));
                    let j = choose|j: int|
                        0 <= j < coarse.len() && fine[k].subset_of(#[trigger] coarse[j]);
                    let y = choose|y: Seq<char>| #[trigger] fine[k].contains(y) && small.contains(y);
                    assert(coarse[j].contains(y) && large.contains(y));
                    assert(0 <= j < coarse.len() && meets(coarse[j], large) && coarse[j].contains(x));
                }
            }
            assert(merged_fine[i].subset_of(merged_coarse[last]));
        }
    }
}

/// Buses joined by a tie are joined by a tie or a voltage translator: each
/// direct segment lies within one same-bus segment.
pub proof fn lemma_segments_within(
    fine: Seq<Set<Seq<char>>>,
    coarse: Seq<Set<Seq<char>>>,
    buses: Seq<I2cBusView>,
    n: nat,
)
    requires
        within(fine, coarse),
        n <= buses.len(),
    ensures
        within(segments_of(fine, buses, true, n), segments_of(coarse, buses, false, n)),
    decreases n,
{
    if n > 0 {
        lemma_segments_within(fine, coarse, buses, (n - 1) as nat);
        let bus = buses[n - 1];
        assert forall|x: Seq<char>| sides(bus, true).contains(x) implies sides(bus, false).contains(
            x,
        ) by {
            if x != bus.derived_name {
                let k = choose|k: int|
                    0 <= k < bus.nodes.len() && other_side_of(#[trigger] bus.nodes[k], true) == Some(x);
                assert(other_side_of(bus.nodes[k], false) == Some(x));
            }
        }
        lemma_merge_within(
            segments_of(fine, buses, true, (n - 1) as nat),
            segments_of(coarse, buses, false, (n - 1) as nat),
            sides(bus, true),
            sides(bus, false),
        );
    }
}


} // verus!
