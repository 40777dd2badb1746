//! Pull-up resistors of I2C buses: finding them and checking their values.
use vstd::prelude::*;
use crate::chains::{chain_view, has_chain, one, two, Link};
use crate::collections::{Key, KeySet};
use crate::config::{I2C_PULL_UP_MAX, I2C_PULL_UP_MIN, MAX_TIE_RESISTANCE};
use crate::i2c_model::{
    diagnostics_view, report, I2cBus, I2cDiagnostic, I2cDiagnosticKind, I2cDiagnosticKindView,
    I2cDiagnosticView, I2cPullUp, I2cPullUpView,
};
use crate::i2c_model::pull_up_view;
use crate::names::{
    holds, lemma_designator_predicates_pure, pure_predicate, Designator, NetName,
};
use crate::netlist::{Netlist, ResistanceError};
use crate::order::{
    comes_before, lemma_before_chain, lemma_not_after_chain, lemma_not_both,
    lemma_one_comes_first, not_after, text_before,
};
use crate::passive_value::Ohm;

verus! {

/// The finding that a pull-up of `value` on the bus `bus` earns: one where
/// the value is not strictly between 2.2 kΩ and 10 kΩ.
pub open spec fn range_diagnostics(value: Ohm, bus: Seq<char>) -> Seq<I2cDiagnosticView> {
    if value.0 <= I2C_PULL_UP_MIN || value.0 >= I2C_PULL_UP_MAX {
        seq![
            I2cDiagnosticView {
                derived_name: bus,
                kind: I2cDiagnosticKindView::NonStandardPullUps { resistance: value },
            },
        ]
    } else {
        Seq::empty()
    }
}

/// The finding that a value which does not read as a resistance earns.
pub open spec fn wrong_value(bus: Seq<char>, e: ResistanceError) -> I2cDiagnosticView {
    I2cDiagnosticView {
        derived_name: bus,
        kind: I2cDiagnosticKindView::WrongPullUpValue { parse_message: e.spec_message() },
    }
}

/// The findings on the values of the two pull-ups of a bus.
pub open spec fn value_diagnostics(
    bus: Seq<char>,
    scl: Result<Ohm, ResistanceError>,
    sda: Result<Ohm, ResistanceError>,
) -> Seq<I2cDiagnosticView> {
    match (scl, sda) {
        (Ok(a), Ok(b)) => if a != b {
            range_diagnostics(a, bus) + range_diagnostics(b, bus) + seq![
                I2cDiagnosticView {
                    derived_name: bus,
                    kind: I2cDiagnosticKindView::NonEqualPullUps {
                        scl_resistance: a,
                        sda_resistance: b,
                    },
                },
            ]
        } else {
            range_diagnostics(a, bus)
        },
        (Err(e), Ok(v)) => range_diagnostics(v, bus).push(wrong_value(bus, e)),
        (Ok(v), Err(e)) => range_diagnostics(v, bus).push(wrong_value(bus, e)),
        (Err(e1), Err(e2)) => seq![wrong_value(bus, e1), wrong_value(bus, e2)],
    }
}

/// The findings on the pull-up values of one bus: none where it has no pull-up.
pub open spec fn bus_value_diagnostics(netlist: &Netlist, bus: I2cBus) -> Seq<I2cDiagnosticView> {
    match bus.pull_up {
        None => Seq::empty(),
        Some(p) => value_diagnostics(
            bus.derived_name@,
            netlist.spec_resistance(p.scl@),
            netlist.spec_resistance(p.sda@),
        ),
    }
}

/// The findings on the pull-up values of the first `n` buses, in order.
pub open spec fn all_value_diagnostics(netlist: &Netlist, buses: Seq<I2cBus>, n: nat) -> Seq<
    I2cDiagnosticView,
>
    decreases n,
{
    if n == 0 {
        Seq::empty()
    } else {
        all_value_diagnostics(netlist, buses, (n - 1) as nat) + bus_value_diagnostics(
            netlist,
            buses[n - 1],
        )
    }
}

/// The resistance of a tie: zero where the part's value does not give one.
pub open spec fn tie_resistance(r: Result<Ohm, ResistanceError>) -> u64 {
    match r {
        Ok(v) => v.0,
        Err(_) => 0,
    }
}

/// The finding that a pair of ties between two buses earns: one where
/// either is above 100 Ω, with the larger of the two values.
pub open spec fn tie_diagnostics(
    netlist: &Netlist,
    bus: Seq<char>,
    scl_tie: Seq<char>,
    other_side: Seq<char>,
    sda_tie: Seq<char>,
) -> Seq<I2cDiagnosticView> {
    let a = tie_resistance(netlist.spec_resistance(scl_tie));
    let b = tie_resistance(netlist.spec_resistance(sda_tie));
    if a > MAX_TIE_RESISTANCE || b > MAX_TIE_RESISTANCE {
        seq![
            I2cDiagnosticView {
                derived_name: bus,
                kind: I2cDiagnosticKindView::TieTooHighValue {
                    resistance: Ohm(if a >= b { a } else { b }),
                    other_side,
                },
            },
        ]
    } else {
        Seq::empty()
    }
}

/// Reports a pull-up whose value is not strictly between 2.2 kΩ and 10 kΩ.
pub fn check_pull_up_range(value: Ohm, bus_name: &str, diagnostics: &mut Vec<I2cDiagnostic>)
    ensures
        diagnostics_view(final(diagnostics)@) == diagnostics_view(old(diagnostics)@)
            + range_diagnostics(value, bus_name@),
{
    let ghost before = diagnostics_view(diagnostics@);
    if value.0 <= I2C_PULL_UP_MIN || value.0 >= I2C_PULL_UP_MAX {
        report(diagnostics, bus_name, I2cDiagnosticKind::NonStandardPullUps { resistance: value });
        assert(diagnostics_view(diagnostics@) =~= before + range_diagnostics(value, bus_name@));
    } else {
        assert(diagnostics_view(diagnostics@) =~= before + range_diagnostics(value, bus_name@));
    }
}

/// Reports what is found on the values of the two pull-ups of a bus.
pub fn check_pull_up_values(
    bus_name: &str,
    scl: Result<Ohm, ResistanceError>,
    sda: Result<Ohm, ResistanceError>,
    diagnostics: &mut Vec<I2cDiagnostic>,
)
    ensures
        diagnostics_view(final(diagnostics)@) == diagnostics_view(old(diagnostics)@)
            + value_diagnostics(bus_name@, scl, sda),
{
    let ghost before = diagnostics_view(diagnostics@);
    let ghost expected = value_diagnostics(bus_name@, scl, sda);
    match (scl, sda) {
        (Ok(a), Ok(b)) => {
            check_pull_up_range(a, bus_name, diagnostics);
            if a.0 != b.0 {
                check_pull_up_range(b, bus_name, diagnostics);
                report(
                    diagnostics,
                    bus_name,
                    I2cDiagnosticKind::NonEqualPullUps { scl_resistance: a, sda_resistance: b },
                );
            }
        },
        (Err(e), Ok(v)) => {
            check_pull_up_range(v, bus_name, diagnostics);
            report(
                diagnostics,
                bus_name,
                I2cDiagnosticKind::WrongPullUpValue { parse_message: e.message() },
            );
        },
        (Ok(v), Err(e)) => {
            check_pull_up_range(v, bus_name, diagnostics);
            report(
                diagnostics,
                bus_name,
                I2cDiagnosticKind::WrongPullUpValue { parse_message: e.message() },
            );
        },
        (Err(e1), Err(e2)) => {
            report(
                diagnostics,
                bus_name,
                I2cDiagnosticKind::WrongPullUpValue { parse_message: e1.message() },
            );
            report(
                diagnostics,
                bus_name,
                I2cDiagnosticKind::WrongPullUpValue { parse_message: e2.message() },
            );
        },
    }
    assert(diagnostics_view(diagnostics@) =~= before + expected);
}

/// Checks the values of the pull-ups of every bus that has them: each must
/// lie strictly between 2.2 kΩ and 10 kΩ, the two must be equal, and both
/// must read as resistances.
pub fn look_for_non_standard_pull_ups(
    netlist: &Netlist,
    buses: &Vec<I2cBus>,
    diagnostics: &mut Vec<I2cDiagnostic>,
)
    requires
        netlist.wf(),
    ensures
        diagnostics_view(final(diagnostics)@) == diagnostics_view(old(diagnostics)@)
            + all_value_diagnostics(netlist, buses@, buses@.len()),
{
    let ghost before = diagnostics_view(diagnostics@);
    let mut i: usize = 0;
    assert(diagnostics_view(diagnostics@) =~= before + all_value_diagnostics(netlist, buses@, 0));
    while i < buses.len()
        invariant
            netlist.wf(),
            i <= buses@.len(),
            diagnostics_view(diagnostics@) == before + all_value_diagnostics(
                netlist,
                buses@,
                i as nat,
            ),
        decreases buses@.len() - i,
    {
        let bus = &buses[i];
        let ghost so_far = diagnostics_view(diagnostics@);
        if let Some(pull_up) = &bus.pull_up {
            let scl_value = netlist.resistance(&pull_up.scl);
            let sda_value = netlist.resistance(&pull_up.sda);
            check_pull_up_values(bus.derived_name.as_str(), scl_value, sda_value, diagnostics);
        }
        assert(diagnostics_view(diagnostics@) =~= so_far + bus_value_diagnostics(netlist, *bus));
        assert(diagnostics_view(diagnostics@) =~= before + all_value_diagnostics(
            netlist,
            buses@,
            (i + 1) as nat,
        ));
        i = i + 1;
    }
}

/// Reports a pair of ties of which either is above 100 Ω. A tie whose value
/// does not read as a resistance counts as 0 Ω.
pub fn check_tie_resistance(
    netlist: &Netlist,
    diagnostics: &mut Vec<I2cDiagnostic>,
    bus_name: &str,
    scl_tie: &Designator,
    other_side: &str,
    sda_tie: &Designator,
)
    requires
        netlist.wf(),
    ensures
        diagnostics_view(final(diagnostics)@) == diagnostics_view(old(diagnostics)@)
            + tie_diagnostics(netlist, bus_name@, scl_tie@, other_side@, sda_tie@),
{
    let ghost before = diagnostics_view(diagnostics@);
    let a = match netlist.resistance(scl_tie) {
        Ok(v) => v.0,
        Err(_) => 0,
    };
    let b = match netlist.resistance(sda_tie) {
        Ok(v) => v.0,
        Err(_) => 0,
    };
    if a > MAX_TIE_RESISTANCE || b > MAX_TIE_RESISTANCE {
        let larger = if a >= b {
            a
        } else {
            b
        };
        report(
            diagnostics,
            bus_name,
            I2cDiagnosticKind::TieTooHighValue {
                resistance: Ohm(larger),
                other_side: String::from_str(other_side),
            },
        );
    }
    assert(diagnostics_view(diagnostics@) =~= before + tie_diagnostics(
        netlist,
        bus_name@,
        scl_tie@,
        other_side@,
        sda_tie@,
    ));
}

/// The chain of the one link `(p, d)`.
pub open spec fn chain_of_one(p: Seq<char>, d: Seq<char>) -> Seq<(Seq<char>, Seq<char>)> {
    seq![(p, d)]
}

/// The chain of the two links `(first_pin, first_part)` and `(second_pin, second_part)`.
pub open spec fn chain_of_two(first_pin: Seq<char>, first_part: Seq<char>, second_pin: Seq<char>, second_part: Seq<char>) -> Seq<
    (Seq<char>, Seq<char>),
> {
    seq![(first_pin, first_part), (second_pin, second_part)]
}

/// The part `d` is a resistor that sits on both nets `from` and `to`.
pub open spec fn resistor_between(
    netlist: &Netlist,
    from: Seq<char>,
    to: Seq<char>,
    d: Seq<char>,
) -> bool {
    exists|p: Seq<char>| #[trigger]
        netlist.is_chain(from, one(Designator::is_resistor), to, chain_of_one(p, d))
}

/// Some chain of two resistors leads from the clock line to the data line.
pub open spec fn has_pull_up_chain(netlist: &Netlist, scl: Seq<char>, sda: Seq<char>) -> bool {
    exists|c: Seq<(Seq<char>, Seq<char>)>| #[trigger]
        netlist.is_chain(scl, two(Designator::is_resistor), sda, c)
}

/// `p` is a pull-up of the bus: its two resistors form a chain from the clock
/// line to the data line, and its net is the net of the pin through which the
/// second resistor was reached.
pub open spec fn is_pull_up(
    netlist: &Netlist,
    scl: Seq<char>,
    sda: Seq<char>,
    p: I2cPullUpView,
) -> bool {
    exists|first_pin: Seq<char>, second_pin: Seq<char>| #[trigger]
        netlist.is_chain(
            scl,
            two(Designator::is_resistor),
            sda,
            chain_of_two(first_pin, p.scl, second_pin, p.sda),
        )
            && netlist.spec_pin_net(p.sda, second_pin) == Some(p.v_net)
}

/// The part `d` is a further pull-up beside `p`: a resistor between one of
/// the lines and the net that `p` pulls to, other than the two of `p`.
pub open spec fn redundant_pull_up(
    netlist: &Netlist,
    scl: Seq<char>,
    sda: Seq<char>,
    p: I2cPullUpView,
    d: Seq<char>,
) -> bool {
    (resistor_between(netlist, scl, p.v_net, d) || resistor_between(netlist, sda, p.v_net, d))
        && d != p.scl && d != p.sda
}

/// The finding on further pull-ups beside `p`: one that names them all,
/// where there are any.
pub open spec fn redundant_diagnostics(
    netlist: &Netlist,
    bus: Seq<char>,
    scl: Seq<char>,
    sda: Seq<char>,
    p: I2cPullUpView,
) -> Seq<I2cDiagnosticView> {
    if exists|d: Seq<char>| redundant_pull_up(netlist, scl, sda, p, d) {
        seq![
            I2cDiagnosticView {
                derived_name: bus,
                kind: I2cDiagnosticKindView::RedundantPullUps {
                    redundant_pull_ups: Set::new(
                        |d: Seq<char>| redundant_pull_up(netlist, scl, sda, p, d),
                    ),
                },
            },
        ]
    } else {
        Seq::empty()
    }
}

/// One of the first `n` chains begins with the part `d`.
pub open spec fn begins_with(chains: Seq<Vec<Link>>, n: int, d: Seq<char>) -> bool {
    exists|k: int| 0 <= k < n && (#[trigger] chains[k])@[0].1@ == d
}

/// The chains of one resistor from `from` to `to`.
fn resistor_chains(netlist: &Netlist, from: &NetName, to: &NetName) -> (r: Vec<Vec<Link>>)
    requires
        netlist.wf(),
    ensures
        forall|k: int| 0 <= k < r@.len() ==> (#[trigger] r@[k])@.len() == 1,
        forall|d: Seq<char>|
            resistor_between(netlist, from@, to@, d) <==> #[trigger] begins_with(
                r@,
                r@.len() as int,
                d,
            ),
{
    proof {
        lemma_designator_predicates_pure();
    }
    let chains = netlist.chains_through_one(from, Designator::is_resistor, to);
    proof {
        let ps = one(Designator::is_resistor);
        assert forall|d: Seq<char>|
            resistor_between(netlist, from@, to@, d) <==> #[trigger] begins_with(
                chains@,
                chains@.len() as int,
                d,
            ) by {
            if resistor_between(netlist, from@, to@, d) {
                let p = choose|p: Seq<char>| #[trigger]
                    netlist.is_chain(from@, ps, to@, chain_of_one(p, d));
                assert(has_chain(chains@, chain_of_one(p, d)));
                let k = choose|k: int|
                    0 <= k < chains@.len() && chain_view((#[trigger] chains@[k])@) == chain_of_one(p, d);
                assert(chain_view(chains@[k]@)[0] == chains@[k]@[0]@);
            }
            if begins_with(chains@, chains@.len() as int, d) {
                let k = choose|k: int| 0 <= k < chains@.len() && (#[trigger] chains@[k])@[0].1@ == d;
                let cv = chain_view(chains@[k]@);
                assert(netlist.is_chain(from@, ps, to@, cv));
                assert(cv =~= chain_of_one(cv[0].0, d));
            }
        }
    }
    chains
}

/// Takes the resistors of `chains`, other than the two of `pull_up`, out of
/// `connected_parts` and into `redundant`.
fn set_aside(
    chains: &Vec<Vec<Link>>,
    pull_up: &I2cPullUp,
    connected_parts: &mut KeySet<Designator>,
    redundant: &mut KeySet<Designator>,
)
    requires
        old(connected_parts).wf(),
        old(redundant).wf(),
        forall|k: int| 0 <= k < chains@.len() ==> (#[trigger] chains@[k])@.len() == 1,
    ensures
        final(connected_parts).wf(),
        final(redundant).wf(),
        forall|d: Seq<char>| #[trigger]
            final(redundant).has(d) <==> (old(redundant).has(d) || (d != pull_up.scl@ && d
                != pull_up.sda@ && begins_with(chains@, chains@.len() as int, d))),
        forall|d: Seq<char>| #[trigger]
            final(connected_parts).has(d) <==> (old(connected_parts).has(d) && !(d != pull_up.scl@
                && d != pull_up.sda@ && begins_with(chains@, chains@.len() as int, d))),
{
    let mut i: usize = 0;
    while i < chains.len()
        invariant
            i <= chains@.len(),
            connected_parts.wf(),
            redundant.wf(),
            forall|k: int| 0 <= k < chains@.len() ==> (#[trigger] chains@[k])@.len() == 1,
            forall|d: Seq<char>| #[trigger]
                redundant.has(d) <==> (old(redundant).has(d) || (d != pull_up.scl@ && d
                    != pull_up.sda@ && begins_with(chains@, i as int, d))),
            forall|d: Seq<char>| #[trigger]
                connected_parts.has(d) <==> (old(connected_parts).has(d) && !(d != pull_up.scl@
                    && d != pull_up.sda@ && begins_with(chains@, i as int, d))),
        decreases chains@.len() - i,
    {
        let part = &chains[i][0].1;
        if !part.same(&pull_up.scl) && !part.same(&pull_up.sda) {
            connected_parts.remove(part);
            redundant.insert(part.clone());
        }
        proof {
            assert forall|d: Seq<char>| #[trigger]
                begins_with(chains@, i + 1, d) <==> (begins_with(chains@, i as int, d) || d
                    == part@) by {
                if begins_with(chains@, i + 1, d) {
                    let k = choose|k: int| 0 <= k < i + 1 && (#[trigger] chains@[k])@[0].1@ == d;
                    if k < i {
                        assert(0 <= k < i && chains@[k]@[0].1@ == d);
                    }
                }
                if begins_with(chains@, i as int, d) {
                    let k = choose|k: int| 0 <= k < i && (#[trigger] chains@[k])@[0].1@ == d;
                    assert(0 <= k < i + 1 && chains@[k]@[0].1@ == d);
                }
                if d == part@ {
                    assert(0 <= i < i + 1 && chains@[i as int]@[0].1@ == d);
                }
            }
            assert forall|d: Seq<char>| #[trigger]
                redundant.has(d) <==> (old(redundant).has(d) || (d != pull_up.scl@ && d
                    != pull_up.sda@ && begins_with(chains@, i + 1, d))) by {
                assert(begins_with(chains@, i + 1, d) <==> (begins_with(chains@, i as int, d) || d
                    == part@));
            }
            assert forall|d: Seq<char>| #[trigger]
                connected_parts.has(d) <==> (old(connected_parts).has(d) && !(d != pull_up.scl@
                    && d != pull_up.sda@ && begins_with(chains@, i + 1, d))) by {
                assert(begins_with(chains@, i + 1, d) <==> (begins_with(chains@, i as int, d) || d
                    == part@));
            }
        }
        i = i + 1;
    }
}

/// Looks for further pull-ups beside `pull_up`: resistors between one of the
/// lines and the net that `pull_up` pulls to. They leave `connected_parts`,
/// and one finding names them all.
pub fn look_for_redundant_pull_ups(
    netlist: &Netlist,
    diagnostics: &mut Vec<I2cDiagnostic>,
    scl_net: &NetName,
    sda_net: &NetName,
    derived_name: &str,
    connected_parts: &mut KeySet<Designator>,
    pull_up: &I2cPullUp,
)
    requires
        netlist.wf(),
        old(connected_parts).wf(),
    ensures
        final(connected_parts).wf(),
        forall|d: Seq<char>| #[trigger]
            final(connected_parts).has(d) <==> (old(connected_parts).has(d) && !redundant_pull_up(
                netlist,
                scl_net@,
                sda_net@,
                pull_up@,
                d,
            )),
        diagnostics_view(final(diagnostics)@) == diagnostics_view(old(diagnostics)@)
            + redundant_diagnostics(netlist, derived_name@, scl_net@, sda_net@, pull_up@),
{
    let ghost before = diagnostics_view(diagnostics@);
    let from_scl = resistor_chains(netlist, scl_net, &pull_up.v_net);
    let from_sda = resistor_chains(netlist, sda_net, &pull_up.v_net);
    let mut redundant: KeySet<Designator> = KeySet::new();
    set_aside(&from_scl, pull_up, connected_parts, &mut redundant);
    set_aside(&from_sda, pull_up, connected_parts, &mut redundant);
    proof {
        assert forall|d: Seq<char>| #[trigger]
            redundant.has(d) <==> redundant_pull_up(netlist, scl_net@, sda_net@, pull_up@, d) by {
            assert(resistor_between(netlist, scl_net@, pull_up.v_net@, d) <==> begins_with(
                from_scl@,
                from_scl@.len() as int,
                d,
            ));
            assert(resistor_between(netlist, sda_net@, pull_up.v_net@, d) <==> begins_with(
                from_sda@,
                from_sda@.len() as int,
                d,
            ));
        }
    }
    let ghost expected = redundant_diagnostics(
        netlist,
        derived_name@,
        scl_net@,
        sda_net@,
        pull_up@,
    );
    if !redundant.is_empty() {
        proof {
            let d = redundant.items@[0]@;
            assert(redundant.has(d));
            assert(redundant_pull_up(netlist, scl_net@, sda_net@, pull_up@, d));
            assert(redundant.as_set() =~= Set::new(
                |d: Seq<char>| redundant_pull_up(netlist, scl_net@, sda_net@, pull_up@, d),
            ));
        }
        report(
            diagnostics,
            derived_name,
            I2cDiagnosticKind::RedundantPullUps { redundant_pull_ups: redundant },
        );
        assert(diagnostics_view(diagnostics@) =~= before + expected);
    } else {
        proof {
            assert forall|d: Seq<char>| !redundant_pull_up(
                netlist,
                scl_net@,
                sda_net@,
                pull_up@,
                d,
            ) by {
                if redundant.has(d) {
                    let j = choose|j: int|
                        0 <= j < redundant.items@.len() && #[trigger] redundant.items@[j]@ == d;
                }
            }
            assert(diagnostics_view(diagnostics@) =~= before + expected);
        }
    }
}

/// The pull-up `p` is not after the pull-up `q`: its resistor on the clock
/// line comes before that of `q`; or they are the same and its resistor on the
/// data line comes before that of `q`; or those are the same too and its net
/// is not after that of `q`.
pub open spec fn pull_not_after(p: I2cPullUpView, q: I2cPullUpView) -> bool {
    if p.scl != q.scl {
        comes_before(p.scl, q.scl)
    } else if p.sda != q.sda {
        comes_before(p.sda, q.sda)
    } else {
        not_after(p.v_net, q.v_net)
    }
}

/// `p` is the first of the pull-ups of the two lines.
pub open spec fn first_pull_up(
    netlist: &Netlist,
    scl: Seq<char>,
    sda: Seq<char>,
    p: I2cPullUpView,
) -> bool {
    is_pull_up(netlist, scl, sda, p) && forall|q: I2cPullUpView| #[trigger]
        is_pull_up(netlist, scl, sda, q) ==> pull_not_after(p, q)
}

/// The pull-up of the two lines: the first of their pull-ups, where they
/// have one.
pub open spec fn pull_up_of(netlist: &Netlist, scl: Seq<char>, sda: Seq<char>) -> Option<
    I2cPullUpView,
> {
    if has_pull_up_chain(netlist, scl, sda) {
        Some(choose|p: I2cPullUpView| first_pull_up(netlist, scl, sda, p))
    } else {
        None
    }
}

/// Of two pull-ups one is not after the other, and two of which neither is
/// after the other are one.
pub proof fn lemma_pull_order(p: I2cPullUpView, q: I2cPullUpView)
    ensures
        pull_not_after(p, q) || pull_not_after(q, p),
        pull_not_after(p, q) && pull_not_after(q, p) ==> p == q,
{
    lemma_one_comes_first(p.scl, q.scl);
    lemma_one_comes_first(p.sda, q.sda);
    lemma_one_comes_first(p.v_net, q.v_net);
    lemma_not_both(p.scl, q.scl);
    lemma_not_both(p.sda, q.sda);
    lemma_not_both(p.v_net, q.v_net);
}

/// A pull-up that is not after a second is not after any that the second is not after.
pub proof fn lemma_pull_chain(p: I2cPullUpView, q: I2cPullUpView, r: I2cPullUpView)
    requires
        pull_not_after(p, q),
        pull_not_after(q, r),
    ensures
        pull_not_after(p, r),
{
    lemma_not_both(p.scl, q.scl);
    lemma_not_both(q.scl, r.scl);
    lemma_not_both(p.sda, q.sda);
    lemma_not_both(q.sda, r.sda);
    if p.scl != q.scl && q.scl != r.scl {
        lemma_before_chain(p.scl, q.scl, r.scl);
        lemma_not_both(p.scl, r.scl);
    } else if p.scl == q.scl && q.scl == r.scl {
        if p.sda != q.sda && q.sda != r.sda {
            lemma_before_chain(p.sda, q.sda, r.sda);
            lemma_not_both(p.sda, r.sda);
        } else if p.sda == q.sda && q.sda == r.sda {
            lemma_not_after_chain(p.v_net, q.v_net, r.v_net);
        }
    }
}

/// The first pull-up of two lines is one pull-up.
pub proof fn lemma_first_pull_up(
    netlist: &Netlist,
    scl: Seq<char>,
    sda: Seq<char>,
    p: I2cPullUpView,
)
    requires
        first_pull_up(netlist, scl, sda, p),
    ensures
        pull_up_of(netlist, scl, sda) == Some(p),
{
    let (a, b) = choose|a: Seq<char>, b: Seq<char>| #[trigger]
        netlist.is_chain(scl, two(Designator::is_resistor), sda, chain_of_two(a, p.scl, b, p.sda))
            && netlist.spec_pin_net(p.sda, b) == Some(p.v_net);
    assert(has_pull_up_chain(netlist, scl, sda));
    let q = choose|q: I2cPullUpView| first_pull_up(netlist, scl, sda, q);
    assert(pull_not_after(p, q) && pull_not_after(q, p));
    lemma_pull_order(p, q);
}

/// Whether the pull-up `a` is not after the pull-up `b`.
fn pull_up_not_after(a: &I2cPullUp, b: &I2cPullUp) -> (r: bool)
    ensures
        r == pull_not_after(a@, b@),
{
    if !a.scl.same(&b.scl) {
        text_before(a.scl.0.as_str(), b.scl.0.as_str())
    } else if !a.sda.same(&b.sda) {
        text_before(a.sda.0.as_str(), b.sda.0.as_str())
    } else {
        a.v_net.same(&b.v_net) || text_before(a.v_net.0.as_str(), b.v_net.0.as_str())
    }
}

/// The pull-up that a chain of two resistors between the lines gives: its
/// net is the net of the pin through which the second resistor was reached.
fn pull_up_of_chain(netlist: &Netlist, scl_net: &NetName, sda_net: &NetName, chain: &Vec<Link>) -> (r:
    I2cPullUp)
    requires
        netlist.wf(),
        chain@.len() == 2,
        netlist.is_chain(scl_net@, two(Designator::is_resistor), sda_net@, chain_view(chain@)),
    ensures
        is_pull_up(netlist, scl_net@, sda_net@, r@),
        r@.scl == chain@[0].1@,
        r@.sda == chain@[1].1@,
        netlist.spec_pin_net(chain@[1].1@, chain@[1].0@) == Some(r@.v_net),
{
    let ghost ps = two(Designator::is_resistor);
    let ghost cv = chain_view(chain@);
    proof {
        assert(cv[0] == chain@[0]@);
        assert(cv[1] == chain@[1]@);
        assert(cv =~= chain_of_two(cv[0].0, cv[0].1, cv[1].0, cv[1].1));
    }
    let v_net = match netlist.pin_net(&chain[1].1, &chain[1].0) {
        Some(v) => v,
        None => {
            proof {
                assert(netlist.in_end_layer(scl_net@, ps, sda_net@, 1, cv[1].0, cv[1].1));
                netlist.lemma_layer_step(scl_net@, ps, 1, cv[1].0, cv[1].1);
                let (q, e) = choose|q: Seq<char>, e: Seq<char>|
                    #![trigger netlist.reaches(e, q, cv[1].0, cv[1].1)]
                    netlist.in_layer(scl_net@, ps, 0, q, e) && netlist.reaches(
                        e,
                        q,
                        cv[1].0,
                        cv[1].1,
                    );
                let j = choose|j: int| netlist.leads_to(j, e, q, cv[1].0, cv[1].1);
                netlist.lemma_net_at(j);
                assert(netlist.node_on_net(netlist.nets.keys@[j]@, cv[1].1, cv[1].0));
                assert(false);
            }
            NetName(String::new())
        },
    };
    let r = I2cPullUp { scl: chain[0].1.clone(), sda: chain[1].1.clone(), v_net };
    proof {
        assert(netlist.is_chain(
            scl_net@,
            two(Designator::is_resistor),
            sda_net@,
            chain_of_two(cv[0].0, r@.scl, cv[1].0, r@.sda),
        ) && netlist.spec_pin_net(r@.sda, cv[1].0) == Some(r@.v_net));
    }
    r
}

/// The first of the pull-ups that the chains give.
fn first_of_chains(
    netlist: &Netlist,
    scl_net: &NetName,
    sda_net: &NetName,
    chains: &Vec<Vec<Link>>,
) -> (r: I2cPullUp)
    requires
        netlist.wf(),
        chains@.len() > 0,
        forall|k: int| 0 <= k < chains@.len() ==> (#[trigger] chains@[k])@.len() == 2,
        forall|k: int|
            0 <= k < chains@.len() ==> netlist.is_chain(
                scl_net@,
                two(Designator::is_resistor),
                sda_net@,
                chain_view((#[trigger] chains@[k])@),
            ),
        forall|c: Seq<(Seq<char>, Seq<char>)>| #[trigger]
            netlist.is_chain(scl_net@, two(Designator::is_resistor), sda_net@, c) ==> has_chain(
                chains@,
                c,
            ),
    ensures
        first_pull_up(netlist, scl_net@, sda_net@, r@),
{
    let mut best = pull_up_of_chain(netlist, scl_net, sda_net, &chains[0]);
    let mut k: usize = 1;
    while k < chains.len()
        invariant
            netlist.wf(),
            1 <= k <= chains@.len(),
            is_pull_up(netlist, scl_net@, sda_net@, best@),
            forall|j: int| 0 <= j < chains@.len() ==> (#[trigger] chains@[j])@.len() == 2,
            forall|j: int|
                0 <= j < chains@.len() ==> netlist.is_chain(
                    scl_net@,
                    two(Designator::is_resistor),
                    sda_net@,
                    chain_view((#[trigger] chains@[j])@),
                ),
            forall|j: int, q: I2cPullUpView|
                0 <= j < k && q.scl == (#[trigger] chains@[j])@[0].1@ && q.sda == chains@[j]@[1].1@
                    && netlist.spec_pin_net(chains@[j]@[1].1@, chains@[j]@[1].0@) == Some(q.v_net)
                    ==> #[trigger] pull_not_after(best@, q),
        decreases chains@.len() - k,
    {
        let other = pull_up_of_chain(netlist, scl_net, sda_net, &chains[k]);
        let ghost was = best@;
        proof {
            lemma_pull_order(was, other@);
        }
        if !pull_up_not_after(&best, &other) {
            best = other;
        }
        proof {
            assert forall|j: int, q: I2cPullUpView|
                0 <= j < k + 1 && q.scl == (#[trigger] chains@[j])@[0].1@ && q.sda
                    == chains@[j]@[1].1@ && netlist.spec_pin_net(
                    chains@[j]@[1].1@,
                    chains@[j]@[1].0@,
                ) == Some(q.v_net) implies #[trigger] pull_not_after(best@, q) by {
                if j < k {
                    assert(pull_not_after(was, q));
                    if best@ != was {
                        lemma_pull_chain(best@, was, q);
                    }
                } else {
                    assert(q == other@);
                    lemma_pull_order(other@, other@);
                }
            }
        }
        k = k + 1;
    }
    proof {
        assert forall|q: I2cPullUpView| #[trigger]
            is_pull_up(netlist, scl_net@, sda_net@, q) implies pull_not_after(best@, q) by {
            let (a, b) = choose|a: Seq<char>, b: Seq<char>| #[trigger]
                netlist.is_chain(
                    scl_net@,
                    two(Designator::is_resistor),
                    sda_net@,
                    chain_of_two(a, q.scl, b, q.sda),
                ) && netlist.spec_pin_net(q.sda, b) == Some(q.v_net);
            let c = chain_of_two(a, q.scl, b, q.sda);
            assert(has_chain(chains@, c));
            let j = choose|j: int| 0 <= j < chains@.len() && chain_view((#[trigger] chains@[j])@) == c;
            assert(chain_view(chains@[j]@)[0] == chains@[j]@[0]@);
            assert(chain_view(chains@[j]@)[1] == chains@[j]@[1]@);
            assert(chain_view(chains@[j]@).len() == chains@[j]@.len());
        }
    }
    best
}

/// Finds the pull-ups of a bus: two resistors in a chain from the clock line
/// to the data line. Where there are several, the first is taken: the one
/// whose resistor on the clock line comes first by its designator, then the
/// one whose resistor on the data line does, then the one whose net does by
/// its name. The two resistors, and any further pull-ups to the same net,
/// leave `connected_parts`; the further ones are reported.
pub fn find_pull_ups(
    netlist: &Netlist,
    diagnostics: &mut Vec<I2cDiagnostic>,
    scl_net: &NetName,
    sda_net: &NetName,
    derived_name: &str,
    connected_parts: &mut KeySet<Designator>,
) -> (r: Option<I2cPullUp>)
    requires
        netlist.wf(),
        old(connected_parts).wf(),
    ensures
        final(connected_parts).wf(),
        r is Some == has_pull_up_chain(netlist, scl_net@, sda_net@),
        pull_up_view(r) == pull_up_of(netlist, scl_net@, sda_net@),
        match r {
            Some(p) => {
                &&& is_pull_up(netlist, scl_net@, sda_net@, p@)
                &&& forall|d: Seq<char>| #[trigger]
                    final(connected_parts).has(d) <==> (old(connected_parts).has(d) && d != p.scl@
                        && d != p.sda@ && !redundant_pull_up(netlist, scl_net@, sda_net@, p@, d))
                &&& diagnostics_view(final(diagnostics)@) == diagnostics_view(old(diagnostics)@)
                    + redundant_diagnostics(netlist, derived_name@, scl_net@, sda_net@, p@)
            },
            None => {
                &&& final(connected_parts).items@ == old(connected_parts).items@
                &&& diagnostics_view(final(diagnostics)@) == diagnostics_view(old(diagnostics)@)
            },
        },
{
    let ghost ps = two(Designator::is_resistor);
    proof {
        lemma_designator_predicates_pure();
    }
    let chains = netlist.chains_through_two(scl_net, Designator::is_resistor, sda_net);
    if chains.len() == 0 {
        proof {
            if has_pull_up_chain(netlist, scl_net@, sda_net@) {
                let c = choose|c: Seq<(Seq<char>, Seq<char>)>| #[trigger]
                    netlist.is_chain(scl_net@, ps, sda_net@, c);
                assert(has_chain(chains@, c));
            }
        }
        return None;
    }
    let pull_up = first_of_chains(netlist, scl_net, sda_net, &chains);
    proof {
        lemma_first_pull_up(netlist, scl_net@, sda_net@, pull_up@);
    }
    connected_parts.remove(&pull_up.scl);
    connected_parts.remove(&pull_up.sda);
    look_for_redundant_pull_ups(
        netlist,
        diagnostics,
        scl_net,
        sda_net,
        derived_name,
        connected_parts,
        &pull_up,
    );
    Some(pull_up)
}

} // verus!

