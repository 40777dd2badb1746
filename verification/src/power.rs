//! Power structure: which nets are rails, and which are ground.
use vstd::prelude::*;
use crate::collections::{Dict, Key, KeySet};
use crate::model::PinType;
use crate::names::NetName;
use crate::netlist::Netlist;
use crate::passive_value::{digits_to_number, digits_value, lemma_pow10_monotone, pow10};
use crate::pattern::{regex_captures, regex_groups, strings_view};
use crate::text::{
    contains, is_digit, lemma_run, scan, starts_with, str_contains, str_starts_with, to_chars,
    CharClass,
};

verus! {

/// A voltage, counted in microvolts.
#[derive(Debug, PartialEq, Eq, Copy, Clone, Structural)]
pub struct Volt(pub u64);

/// A power net, with its voltage where the name tells it.
#[derive(Debug, PartialEq, Eq, Copy, Clone, Structural)]
pub struct PowerRail {
    pub voltage: Option<Volt>,
}

/// The power nets of a board.
#[derive(Debug)]
pub struct Power {
    pub power_rails: Dict<NetName, PowerRail>,
    pub ground_nets: KeySet<NetName>,
}

/// The expression that finds a voltage in a net name. The strict one asks
/// for a plus sign before the number.
pub open spec fn rail_pattern(strict: bool) -> Seq<char> {
    if strict {
        ".*\\+(\\d+)V(\\d+).*"@
    } else {
        ".*(\\d+)V(\\d+).*"@
    }
}

/// All characters of `s` are decimal digits, and there is at least one.
pub open spec fn is_number(s: Seq<char>) -> bool {
    s.len() > 0 && forall|i: int| 0 <= i < s.len() ==> is_digit(#[trigger] s[i])
}

/// The microvolts of `whole` volts and the decimal fraction that `frac`,
/// written with `digits` digits, adds: `frac / 10^digits` volts, cut off below
/// one microvolt.
pub open spec fn microvolts(whole: nat, frac: nat, digits: nat) -> nat {
    whole * 1_000_000 + ((frac * 1_000_000) as nat) / pow10(digits)
}

/// The voltage that the capture groups of a rail name give: the second is
/// the whole volts and the third the fraction. None where the groups are not
/// two numbers of at most 32 bits.
pub open spec fn spec_rail_voltage(groups: Seq<Seq<char>>) -> Option<Volt> {
    if groups.len() == 3 && is_number(groups[1]) && is_number(groups[2]) && digits_value(groups[1])
        <= u32::MAX && digits_value(groups[2]) <= u32::MAX {
        Some(
            Volt(
                microvolts(digits_value(groups[1]), digits_value(groups[2]), groups[2].len()) as u64,
            ),
        )
    } else {
        None
    }
}

/// The name carries a voltage, or one of the marks `+V`, `VDD`, `VCC`.
pub open spec fn named_rail(n: Seq<char>, strict: bool) -> bool {
    regex_groups(rail_pattern(strict), n) is Some || contains(n, "+V"@) || contains(n, "VDD"@)
        || contains(n, "VCC"@)
}

/// The voltage that the name carries, if any.
pub open spec fn named_voltage(n: Seq<char>, strict: bool) -> Option<Volt> {
    match regex_groups(rail_pattern(strict), n) {
        Some(groups) => spec_rail_voltage(groups),
        None => None,
    }
}

/// The name is that of a ground: it holds `GND`, `VSS` or `VEE`, or begins with `ISO`.
pub open spec fn ground_name(n: Seq<char>) -> bool {
    contains(n, "GND"@) || contains(n, "VSS"@) || contains(n, "VEE"@) || starts_with(n, "ISO"@)
}

/// The pin types that make a net a power net.
pub open spec fn power_pin_types() -> Seq<PinType> {
    seq![PinType::PowerIn, PinType::PowerOut, PinType::PowerUnspecified, PinType::PowerIO]
}

/// The number that `s` writes, where it is a number of at most 32 bits.
pub fn small_number(s: &Vec<char>) -> (r: Option<u64>)
    ensures
        match r {
            Some(v) => is_number(s@) && v == digits_value(s@) && v <= u32::MAX,
            None => !(is_number(s@) && digits_value(s@) <= u32::MAX),
        },
{
    let end = scan(s, 0, CharClass::Digit);
    proof {
        lemma_run(s@, 0, CharClass::Digit);
    }
    if s.len() == 0 || end != s.len() {
        return None;
    }
    assert(s@.subrange(0, s@.len() as int) =~= s@);
    match digits_to_number(s, 0, end) {
        Some(v) => if v <= 4_294_967_295 {
            Some(v)
        } else {
            None
        },
        None => None,
    }
}

/// The voltage that the capture groups of a rail name give.
pub fn rail_voltage(groups: &Vec<String>) -> (r: Option<Volt>)
    ensures
        r == spec_rail_voltage(strings_view(groups@)),
{
    if groups.len() != 3 {
        return None;
    }
    let whole_digits = to_chars(groups[1].as_str());
    let frac_digits = to_chars(groups[2].as_str());
    assert(strings_view(groups@)[1] == whole_digits@);
    assert(strings_view(groups@)[2] == frac_digits@);
    let Some(whole) = small_number(&whole_digits) else {
        return None;
    };
    let Some(frac) = small_number(&frac_digits) else {
        return None;
    };
    let fraction = fraction_microvolts(frac, frac_digits.len());
    Some(Volt(whole * 1_000_000 + fraction))
}

/// The microvolts of the decimal fraction `frac`, written with `digits`
/// digits.
fn fraction_microvolts(frac: u64, digits: usize) -> (r: u64)
    requires
        frac <= u32::MAX,
    ensures
        r == ((frac * 1_000_000) as nat) / pow10(digits as nat),
        r <= frac * 1_000_000,
{
    let scaled: u64 = frac * 1_000_000;
    let mut divisor: u64 = 1;
    let mut i: usize = 0;
    while i < digits
        invariant
            i <= digits,
            divisor == pow10(i as nat),
            1 <= divisor <= 50_000_000_000_000_000,
            scaled == frac * 1_000_000,
            frac <= u32::MAX,
        decreases digits - i,
    {
        if divisor > scaled {
            proof {
                lemma_pow10_monotone(i as nat, digits as nat);
                vstd::arithmetic::div_mod::lemma_basic_div(scaled as int, pow10(digits as nat) as int);
            }
            return 0;
        }
        divisor = divisor * 10;
        i = i + 1;
    }
    let r: u64 = scaled / divisor;
    assert(r <= scaled) by (nonlinear_arith)
        requires
            r == scaled / divisor,
            divisor >= 1,
    ;
    r
}

impl Power {
    /// No net is listed twice as a rail or as a ground.
    pub open spec fn wf(&self) -> bool {
        self.power_rails.wf() && self.ground_nets.wf()
    }

    /// The net is a power rail or a ground.
    pub open spec fn spec_is_power_net(&self, n: Seq<char>) -> bool {
        self.power_rails.has_key(n) || self.ground_nets.has(n)
    }

    /// Returns true if the net is a power or ground net.
    pub fn is_power_net(&self, net_name: &NetName) -> (r: bool)
        requires
            self.wf(),
        ensures
            r == self.spec_is_power_net(net_name@),
    {
        self.power_rails.contains_key(net_name) || self.ground_nets.contains(net_name)
    }
}

/// Whether the name is that of a ground.
pub fn is_ground_name(name: &NetName) -> (r: bool)
    ensures
        r == ground_name(name@),
{
    let n = name.0.as_str();
    str_contains(n, "GND") || str_contains(n, "VSS") || str_contains(n, "VEE") || str_starts_with(
        n,
        "ISO",
    )
}

/// What the name of a net says of it as a rail: whether it is one, and its voltage.
pub fn rail_by_name(name: &NetName, strict: bool) -> (r: Option<PowerRail>)
    ensures
        r is Some == named_rail(name@, strict),
        r matches Some(rail) ==> rail.voltage == named_voltage(name@, strict),
{
    let n = name.0.as_str();
    let groups = if strict {
        regex_captures(".*\\+(\\d+)V(\\d+).*", n)
    } else {
        regex_captures(".*(\\d+)V(\\d+).*", n)
    };
    match groups {
        Some(groups) => Some(PowerRail { voltage: rail_voltage(&groups) }),
        None => {
            if str_contains(n, "+V") || str_contains(n, "VDD") || str_contains(n, "VCC") {
                Some(PowerRail { voltage: None })
            } else {
                None
            }
        },
    }
}

/// The net `n` of the netlist is a rail: by its name, or by a power pin on
/// it; a ground is a rail only by its name.
pub open spec fn is_rail(netlist: &Netlist, n: Seq<char>, strict: bool) -> bool {
    netlist.has_net(n) && (named_rail(n, strict) || (netlist.typed_net(power_pin_types(), n)
        && !ground_name(n)))
}

/// `power` is the power structure of the netlist: its grounds are the nets
/// with the name of a ground, its rails are the nets that are rails, and a
/// rail has the voltage that its name carries.
pub open spec fn is_power_of(netlist: &Netlist, power: &Power, strict: bool) -> bool {
    &&& power.wf()
    &&& forall|n: Seq<char>| #[trigger]
        power.ground_nets.has(n) <==> (netlist.has_net(n) && ground_name(n))
    &&& forall|n: Seq<char>| #[trigger] power.power_rails.has_key(n) <==> is_rail(netlist, n, strict)
    &&& forall|n: Seq<char>| #[trigger]
        power.power_rails.has_key(n) ==> power.power_rails.value_of(n).voltage == named_voltage(
            n,
            strict,
        )
}

/// The nets that are rails by their name.
fn named_rails(netlist: &Netlist, strict: bool) -> (r: Dict<NetName, PowerRail>)
    requires
        netlist.wf(),
    ensures
        r.wf(),
        forall|n: Seq<char>| #[trigger] r.has_key(n) <==> (netlist.has_net(n) && named_rail(n, strict)),
        forall|n: Seq<char>| #[trigger]
            r.has_key(n) ==> r.value_of(n).voltage == named_voltage(n, strict),
{
    let mut rails: Dict<NetName, PowerRail> = Dict::new();
    let mut i: usize = 0;
    while i < netlist.nets.len()
        invariant
            netlist.wf(),
            rails.wf(),
            i <= netlist.nets.keys@.len(),
            forall|n: Seq<char>| #[trigger]
                rails.has_key(n) <==> (named_rail(n, strict) && exists|j: int|
                    0 <= j < i && (#[trigger] netlist.nets.keys@[j])@ == n),
            forall|n: Seq<char>| #[trigger]
                rails.has_key(n) ==> rails.value_of(n).voltage == named_voltage(n, strict),
        decreases netlist.nets.keys@.len() - i,
    {
        let name = netlist.nets.key_at(i);
        let ghost before = rails;
        let found = rail_by_name(name, strict);
        if let Some(rail) = found {
            rails.insert(name.clone(), rail);
        }
        proof {
            assert forall|n: Seq<char>| #[trigger]
                rails.has_key(n) <==> (named_rail(n, strict) && exists|j: int|
                    0 <= j < i + 1 && (#[trigger] netlist.nets.keys@[j])@ == n) by {
                if before.has_key(n) {
                    let j = choose|j: int| 0 <= j < i && (#[trigger] netlist.nets.keys@[j])@ == n;
                    assert(0 <= j < i + 1 && netlist.nets.keys@[j]@ == n);
                }
                if n == name@ {
                    assert(0 <= i < i + 1 && netlist.nets.keys@[i as int]@ == n);
                }
                if exists|j: int| 0 <= j < i + 1 && (#[trigger] netlist.nets.keys@[j])@ == n {
                    let j = choose|j: int|
                        0 <= j < i + 1 && (#[trigger] netlist.nets.keys@[j])@ == n;
                    if j < i {
                        assert(0 <= j < i && netlist.nets.keys@[j]@ == n);
                    }
                }
            }
        }
        i = i + 1;
    }
    proof {
        assert forall|n: Seq<char>| #[trigger]
            rails.has_key(n) <==> (netlist.has_net(n) && named_rail(n, strict)) by {
            if rails.has_key(n) {
                let j = choose|j: int| 0 <= j < i && (#[trigger] netlist.nets.keys@[j])@ == n;
                netlist.lemma_net_at(j);
            }
            if netlist.has_net(n) {
                let j = netlist.lemma_net_named(n);
                assert(0 <= j < i && netlist.nets.keys@[j]@ == n);
            }
        }
    }
    rails
}

/// The nets that are grounds by their name.
fn named_grounds(netlist: &Netlist) -> (r: KeySet<NetName>)
    requires
        netlist.wf(),
    ensures
        r.wf(),
        forall|n: Seq<char>| #[trigger] r.has(n) <==> (netlist.has_net(n) && ground_name(n)),
{
    let mut grounds: KeySet<NetName> = KeySet::new();
    let mut i: usize = 0;
    while i < netlist.nets.len()
        invariant
            netlist.wf(),
            grounds.wf(),
            i <= netlist.nets.keys@.len(),
            forall|n: Seq<char>| #[trigger]
                grounds.has(n) <==> (ground_name(n) && exists|j: int|
                    0 <= j < i && (#[trigger] netlist.nets.keys@[j])@ == n),
        decreases netlist.nets.keys@.len() - i,
    {
        let name = netlist.nets.key_at(i);
        let ghost before = grounds;
        if is_ground_name(name) {
            grounds.insert(name.clone());
        }
        proof {
            assert forall|n: Seq<char>| #[trigger]
                grounds.has(n) <==> (ground_name(n) && exists|j: int|
                    0 <= j < i + 1 && (#[trigger] netlist.nets.keys@[j])@ == n) by {
                if before.has(n) {
                    let j = choose|j: int| 0 <= j < i && (#[trigger] netlist.nets.keys@[j])@ == n;
                    assert(0 <= j < i + 1 && netlist.nets.keys@[j]@ == n);
                }
                if n == name@ {
                    assert(0 <= i < i + 1 && netlist.nets.keys@[i as int]@ == n);
                }
                if exists|j: int| 0 <= j < i + 1 && (#[trigger] netlist.nets.keys@[j])@ == n {
                    let j = choose|j: int|
                        0 <= j < i + 1 && (#[trigger] netlist.nets.keys@[j])@ == n;
                    if j < i {
                        assert(0 <= j < i && netlist.nets.keys@[j]@ == n);
                    }
                }
            }
        }
        i = i + 1;
    }
    proof {
        assert forall|n: Seq<char>| #[trigger]
            grounds.has(n) <==> (netlist.has_net(n) && ground_name(n)) by {
            if grounds.has(n) {
                let j = choose|j: int| 0 <= j < i && (#[trigger] netlist.nets.keys@[j])@ == n;
                netlist.lemma_net_at(j);
            }
            if netlist.has_net(n) {
                let j = netlist.lemma_net_named(n);
                assert(0 <= j < i && netlist.nets.keys@[j]@ == n);
            }
        }
    }
    grounds
}

/// Classifies the nets as rails and grounds.
///
/// A net is a ground where its name says so. It is a rail where its name
/// carries a voltage (with `strict`, only after a plus sign) or one of the
/// marks `+V`, `VDD`, `VCC`, or where a power pin attaches to it and it is no
/// ground. A rail has a voltage only where its name carries one.
pub fn derive_power_structure(netlist: &Netlist, strict: bool) -> (r: Power)
    requires
        netlist.wf(),
    ensures
        r.wf(),
        is_power_of(netlist, &r, strict),
        forall|n: Seq<char>| #[trigger]
            r.ground_nets.has(n) <==> (netlist.has_net(n) && ground_name(n)),
        forall|n: Seq<char>| #[trigger] r.power_rails.has_key(n) <==> is_rail(netlist, n, strict),
        forall|n: Seq<char>| #[trigger]
            r.power_rails.has_key(n) ==> r.power_rails.value_of(n).voltage == named_voltage(
                n,
                strict,
            ),
{
    let mut rails = named_rails(netlist, strict);
    let grounds = named_grounds(netlist);
    let mut types: Vec<PinType> = Vec::new();
    types.push(PinType::PowerIn);
    types.push(PinType::PowerOut);
    types.push(PinType::PowerUnspecified);
    types.push(PinType::PowerIO);
    assert(types@ =~= power_pin_types());
    let typed = netlist.find_nets_with_pin_types(types.as_slice());
    let ghost base = rails;
    let mut t: usize = 0;
    while t < typed.items.len()
        invariant
            netlist.wf(),
            rails.wf(),
            grounds.wf(),
            t <= typed.items@.len(),
            forall|n: Seq<char>| #[trigger] typed.has(n) ==> netlist.has_net(n),
            forall|n: Seq<char>| #[trigger]
                base.has_key(n) <==> (netlist.has_net(n) && named_rail(n, strict)),
            forall|n: Seq<char>| #[trigger]
                grounds.has(n) <==> (netlist.has_net(n) && ground_name(n)),
            forall|n: Seq<char>| #[trigger]
                rails.has_key(n) <==> (base.has_key(n) || (!grounds.has(n) && exists|u: int|
                    0 <= u < t && (#[trigger] typed.items@[u])@ == n)),
            forall|n: Seq<char>| #[trigger]
                rails.has_key(n) ==> rails.value_of(n).voltage == named_voltage(n, strict),
        decreases typed.items@.len() - t,
    {
        let net = &typed.items[t];
        let ghost before = rails;
        assert(typed.has(net@));
        if !rails.contains_key(net) && !grounds.contains(net) {
            rails.insert(net.clone(), PowerRail { voltage: None });
        }
        proof {
            assert forall|n: Seq<char>| #[trigger]
                rails.has_key(n) <==> (base.has_key(n) || (!grounds.has(n) && exists|u: int|
                    0 <= u < t + 1 && (#[trigger] typed.items@[u])@ == n)) by {
                if before.has_key(n) && !base.has_key(n) {
                    let u = choose|u: int| 0 <= u < t && (#[trigger] typed.items@[u])@ == n;
                    assert(0 <= u < t + 1 && typed.items@[u]@ == n);
                }
                if n == net@ {
                    assert(0 <= t < t + 1 && typed.items@[t as int]@ == n);
                }
                if exists|u: int| 0 <= u < t + 1 && (#[trigger] typed.items@[u])@ == n {
                    let u = choose|u: int| 0 <= u < t + 1 && (#[trigger] typed.items@[u])@ == n;
                    if u < t {
                        assert(0 <= u < t && typed.items@[u]@ == n);
                    }
                }
            }
        }
        t = t + 1;
    }
    proof {
        assert forall|n: Seq<char>| #[trigger] rails.has_key(n) <==> is_rail(
            netlist,
            n,
            strict,
        ) by {
            if rails.has_key(n) && !base.has_key(n) {
                let u = choose|u: int| 0 <= u < t && (#[trigger] typed.items@[u])@ == n;
                assert(typed.has(n));
            }
            if netlist.typed_net(power_pin_types(), n) {
                assert(typed.has(n));
                let u = choose|u: int|
                    0 <= u < typed.items@.len() && (#[trigger] typed.items@[u])@ == n;
                assert(0 <= u < t && typed.items@[u]@ == n);
            }
        }
    }
    Power { power_rails: rails, ground_nets: grounds }
}

} // verus!
