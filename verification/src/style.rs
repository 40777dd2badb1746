//! Style rules on the values and pin names of parts.
use vstd::prelude::*;
use crate::collections::{Dict, Key};
use crate::model::{LibPart, Pin};
use crate::names::{spec_is_resistor, spec_is_transistor, Designator, PinId};
use crate::netlist::Netlist;
use crate::passive_value::{
    parse_resistance_value, spec_parse_resistance, PassiveValueParseError,
    PassiveValueParseWarning,
};
use crate::text::{contains, lowercase, same_chars, str_contains, to_chars, to_lowercase};

verus! {

/// How much a finding weighs.
#[derive(Debug, Copy, Clone, PartialEq, Eq, Structural)]
pub enum Severity {
    Error,
    SevereWarning,
    Warning,
    Info,
    Suggestion,
}

/// What is remarked on a part.
#[derive(Debug)]
pub enum StyleDiagnosticKind {
    WrongValue(String),
    NonStandardValue(PassiveValueParseWarning),
    NoValue,
    CalculateLaterValue,
    MosfetPinsNotNamed,
}

/// What is remarked on a part, in characters.
pub enum StyleDiagnosticKindView {
    WrongValue(Seq<char>),
    NonStandardValue(PassiveValueParseWarning),
    NoValue,
    CalculateLaterValue,
    MosfetPinsNotNamed,
}

impl View for StyleDiagnosticKind {
    type V = StyleDiagnosticKindView;

    open spec fn view(&self) -> StyleDiagnosticKindView {
        match *self {
            StyleDiagnosticKind::WrongValue(m) => StyleDiagnosticKindView::WrongValue(m@),
            StyleDiagnosticKind::NonStandardValue(w) => StyleDiagnosticKindView::NonStandardValue(
                w,
            ),
            StyleDiagnosticKind::NoValue => StyleDiagnosticKindView::NoValue,
            StyleDiagnosticKind::CalculateLaterValue => StyleDiagnosticKindView::CalculateLaterValue,
            StyleDiagnosticKind::MosfetPinsNotNamed => StyleDiagnosticKindView::MosfetPinsNotNamed,
        }
    }
}

/// A remark on the style of a part.
#[derive(Debug)]
pub struct StyleDiagnostic {
    pub severity: Severity,
    pub designator: Designator,
    pub kind: StyleDiagnosticKind,
}

/// A remark on the style of a part, in characters.
pub struct StyleDiagnosticView {
    pub severity: Severity,
    pub designator: Seq<char>,
    pub kind: StyleDiagnosticKindView,
}

impl View for StyleDiagnostic {
    type V = StyleDiagnosticView;

    open spec fn view(&self) -> StyleDiagnosticView {
        StyleDiagnosticView {
            severity: self.severity,
            designator: self.designator@,
            kind: self.kind@,
        }
    }
}

/// The views of a list of remarks.
pub open spec fn style_view(d: Seq<StyleDiagnostic>) -> Seq<StyleDiagnosticView> {
    d.map_values(|x: StyleDiagnostic| x@)
}

/// The value is marked as still to be calculated: it begins or ends with `?`.
pub open spec fn calculate_later(value: Seq<char>) -> bool {
    value.len() > 0 && (value[0] == '?' || value[value.len() - 1] == '?')
}

/// The remark that the value of a part earns, if any. An empty value is an
/// error. A value still to be calculated is warned of. `DNM` and `DNP` pass.
/// The value of a resistor must read as a resistance, and is warned of where
/// it is written unusually.
pub open spec fn value_remark(d: Seq<char>, value: Seq<char>) -> Option<StyleDiagnosticView> {
    if value.len() == 0 {
        Some(
            StyleDiagnosticView {
                severity: Severity::Error,
                designator: d,
                kind: StyleDiagnosticKindView::NoValue,
            },
        )
    } else if calculate_later(value) {
        Some(
            StyleDiagnosticView {
                severity: Severity::Warning,
                designator: d,
                kind: StyleDiagnosticKindView::CalculateLaterValue,
            },
        )
    } else if value == "DNM"@ || value == "DNP"@ || !spec_is_resistor(d) {
        None
    } else {
        match spec_parse_resistance(value) {
            Ok((_, Some(w))) => Some(
                StyleDiagnosticView {
                    severity: Severity::Warning,
                    designator: d,
                    kind: StyleDiagnosticKindView::NonStandardValue(w),
                },
            ),
            Ok((_, None)) => None,
            Err(e) => Some(
                StyleDiagnosticView {
                    severity: Severity::Error,
                    designator: d,
                    kind: StyleDiagnosticKindView::WrongValue(e.spec_message()),
                },
            ),
        }
    }
}

/// The remarks on the values of the first `n` parts, in order.
pub open spec fn value_remarks(netlist: &Netlist, n: nat) -> Seq<StyleDiagnosticView>
    decreases n,
{
    if n == 0 {
        Seq::empty()
    } else {
        let before = value_remarks(netlist, (n - 1) as nat);
        match value_remark(
            netlist.components.keys@[n - 1]@,
            netlist.components.values@[n - 1].value@,
        ) {
            Some(r) => before.push(r),
            None => before,
        }
    }
}

/// The description is that of a MOSFET.
pub open spec fn mosfet_text(description: Seq<char>) -> bool {
    let d = lowercase(description);
    contains(d, "mosfet"@) || contains(d, "p-channel"@) || contains(d, "n-channel"@) || contains(
        d,
        "n channel"@,
    ) || contains(d, "p channel"@)
}

/// Some pin of the part is named `a` or `b`.
pub open spec fn has_pin_named(part: LibPart, a: Seq<char>, b: Seq<char>) -> bool {
    exists|i: int|
        0 <= i < part.pins.values@.len() && ((#[trigger] part.pins.values@[i]).name@ == a
            || part.pins.values@[i].name@ == b)
}

/// The part at position `i` is a transistor described as a MOSFET whose
/// library part does not name a gate, a source and a drain.
pub open spec fn mosfet_unnamed(netlist: &Netlist, i: int) -> bool {
    let d = netlist.components.keys@[i]@;
    let source = netlist.components.values@[i].lib_source@;
    &&& spec_is_transistor(d)
    &&& netlist.lib_parts.has_key(source)
    &&& mosfet_text(netlist.lib_parts.value_of(source).description@)
    &&& !(has_pin_named(netlist.lib_parts.value_of(source), "G"@, "GATE"@) && has_pin_named(
        netlist.lib_parts.value_of(source),
        "S"@,
        "SOURCE"@,
    ) && has_pin_named(netlist.lib_parts.value_of(source), "D"@, "DRAIN"@))
}

/// The remarks on the pin names of the first `n` parts, in order.
pub open spec fn mosfet_remarks(netlist: &Netlist, n: nat) -> Seq<StyleDiagnosticView>
    decreases n,
{
    if n == 0 {
        Seq::empty()
    } else {
        let before = mosfet_remarks(netlist, (n - 1) as nat);
        if mosfet_unnamed(netlist, n - 1) {
            before.push(
                StyleDiagnosticView {
                    severity: Severity::Warning,
                    designator: netlist.components.keys@[n - 1]@,
                    kind: StyleDiagnosticKindView::MosfetPinsNotNamed,
                },
            )
        } else {
            before
        }
    }
}

/// Appends one remark.
fn remark(
    diagnostics: &mut Vec<StyleDiagnostic>,
    severity: Severity,
    designator: &Designator,
    kind: StyleDiagnosticKind,
)
    ensures
        style_view(final(diagnostics)@) == style_view(old(diagnostics)@).push(
            StyleDiagnosticView { severity, designator: designator@, kind: kind@ },
        ),
{
    let ghost before = diagnostics@;
    diagnostics.push(StyleDiagnostic { severity, designator: designator.clone(), kind });
    assert(style_view(diagnostics@) =~= style_view(before).push(
        StyleDiagnosticView { severity, designator: designator@, kind: kind@ },
    ));
}

/// Checks the value of one part.
pub fn check_value(designator: &Designator, value: &str, diagnostics: &mut Vec<StyleDiagnostic>)
    ensures
        style_view(final(diagnostics)@) == match value_remark(designator@, value@) {
            Some(r) => style_view(old(diagnostics)@).push(r),
            None => style_view(old(diagnostics)@),
        },
{
    let chars = to_chars(value);
    if chars.len() == 0 {
        remark(diagnostics, Severity::Error, designator, StyleDiagnosticKind::NoValue);
        return ;
    }
    if chars[0] == '?' || chars[chars.len() - 1] == '?' {
        remark(
            diagnostics,
            Severity::Warning,
            designator,
            StyleDiagnosticKind::CalculateLaterValue,
        );
        return ;
    }
    let dnm = to_chars("DNM");
    let dnp = to_chars("DNP");
    if same_chars(&chars, &dnm) || same_chars(&chars, &dnp) {
        return ;
    }
    if designator.is_resistor() {
        match parse_resistance_value(value) {
            Ok((_, Some(w))) => {
                remark(
                    diagnostics,
                    Severity::Warning,
                    designator,
                    StyleDiagnosticKind::NonStandardValue(w),
                );
            },
            Ok((_, None)) => {},
            Err(e) => {
                remark(
                    diagnostics,
                    Severity::Error,
                    designator,
                    StyleDiagnosticKind::WrongValue(e.message()),
                );
            },
        }
    }
}

/// Whether some pin of the part is named `a` or `b`.
fn pin_named(part: &LibPart, a: &str, b: &str) -> (r: bool)
    requires
        part.wf(),
    ensures
        r == has_pin_named(*part, a@, b@),
{
    let mut i: usize = 0;
    while i < part.pins.len()
        invariant
            part.wf(),
            i <= part.pins.values@.len(),
            forall|j: int|
                0 <= j < i ==> !((#[trigger] part.pins.values@[j]).name@ == a@
                    || part.pins.values@[j].name@ == b@),
        decreases part.pins.values@.len() - i,
    {
        let name = part.pins.value_at(i).name.0.as_str();
        let name_chars = to_chars(name);
        if same_chars(&name_chars, &to_chars(a)) || same_chars(&name_chars, &to_chars(b)) {
            return true;
        }
        i = i + 1;
    }
    false
}

/// Checks the values of all parts, then the pin names of the MOSFETs.
pub fn check_style(netlist: &Netlist, diagnostics: &mut Vec<StyleDiagnostic>)
    requires
        netlist.wf(),
    ensures
        style_view(final(diagnostics)@) == style_view(old(diagnostics)@) + value_remarks(
            netlist,
            netlist.components.keys@.len(),
        ) + mosfet_remarks(netlist, netlist.components.keys@.len()),
{
    let ghost before = style_view(diagnostics@);
    assert(style_view(diagnostics@) =~= before + value_remarks(netlist, 0));
    let mut i: usize = 0;
    while i < netlist.components.len()
        invariant
            netlist.wf(),
            i <= netlist.components.keys@.len(),
            style_view(diagnostics@) == before + value_remarks(netlist, i as nat),
        decreases netlist.components.keys@.len() - i,
    {
        check_value(
            netlist.components.key_at(i),
            netlist.components.value_at(i).value.as_str(),
            diagnostics,
        );
        assert(style_view(diagnostics@) =~= before + value_remarks(netlist, (i + 1) as nat));
        i = i + 1;
    }
    check_for_transistors_to_have_pin_names(netlist, diagnostics);
}

/// Checks that the library part of every MOSFET names a gate, a source and a drain.
pub fn check_for_transistors_to_have_pin_names(
    netlist: &Netlist,
    diagnostics: &mut Vec<StyleDiagnostic>,
)
    requires
        netlist.wf(),
    ensures
        style_view(final(diagnostics)@) == style_view(old(diagnostics)@) + mosfet_remarks(
            netlist,
            netlist.components.keys@.len(),
        ),
{
    let ghost before = style_view(diagnostics@);
    assert(style_view(diagnostics@) =~= before + mosfet_remarks(netlist, 0));
    let mut i: usize = 0;
    while i < netlist.components.len()
        invariant
            netlist.wf(),
            i <= netlist.components.keys@.len(),
            style_view(diagnostics@) == before + mosfet_remarks(netlist, i as nat),
        decreases netlist.components.keys@.len() - i,
    {
        let designator = netlist.components.key_at(i);
        let component = netlist.components.value_at(i);
        let mut unnamed = false;
        if designator.is_transistor() {
            if let Some(lib_part) = netlist.lib_parts.get(&component.lib_source) {
                proof {
                    let li = netlist.lib_parts.index_of(component.lib_source@);
                    assert(netlist.lib_parts.values@[li].wf());
                }
                let d = to_lowercase(lib_part.description.as_str());
                let d = d.as_str();
                if str_contains(d, "mosfet") || str_contains(d, "p-channel") || str_contains(
                    d,
                    "n-channel",
                ) || str_contains(d, "n channel") || str_contains(d, "p channel") {
                    unnamed = !(pin_named(lib_part, "G", "GATE") && pin_named(
                        lib_part,
                        "S",
                        "SOURCE",
                    ) && pin_named(lib_part, "D", "DRAIN"));
                }
            }
        }
        assert(unnamed == mosfet_unnamed(netlist, i as int));
        if unnamed {
            remark(
                diagnostics,
                Severity::Warning,
                designator,
                StyleDiagnosticKind::MosfetPinsNotNamed,
            );
        }
        assert(style_view(diagnostics@) =~= before + mosfet_remarks(netlist, (i + 1) as nat));
        i = i + 1;
    }
}

} // verus!
