//! Identifier types of the netlist model.
//!
//! Each identifier is a distinct wrapper over a string. Its view is the
//! sequence of characters; equality is exact and case-sensitive.
use vstd::prelude::*;
use vstd::std_specs::cmp::PartialEqSpecImpl;
use crate::collections::Key;
use crate::text::{char_at, to_chars};

verus! {

/// A component's printed label, such as `R12` or `U3`.
#[derive(Debug, Eq, Hash)]
pub struct Designator(pub String);

impl View for Designator {
    type V = Seq<char>;

    open spec fn view(&self) -> Seq<char> {
        self.0@
    }
}

impl Clone for Designator {
    fn clone(&self) -> (r: Self)
        ensures
            r == *self,
    {
        Designator(self.0.clone())
    }
}

impl Key for Designator {
    fn same(&self, other: &Self) -> (r: bool) {
        self.0 == other.0
    }

    fn dup(&self) -> (r: Self) {
        self.clone()
    }
}

impl PartialEq for Designator {
    fn eq(&self, other: &Self) -> (r: bool) {
        self.0 == other.0
    }
}

impl PartialEqSpecImpl for Designator {
    open spec fn obeys_eq_spec() -> bool {
        true
    }

    open spec fn eq_spec(&self, other: &Self) -> bool {
        self@ == other@
    }
}

impl Designator {
    /// Length of the identifier in bytes of its UTF-8 encoding.
    pub fn len(&self) -> (n: usize)
        ensures
            n == vstd::utf8::encode_utf8(self@).len() as usize,
    {
        self.0.as_str().len()
    }
}

/// The name of a net, such as `/I2C1_SCL` or `GND`.
#[derive(Debug, Eq, Hash)]
pub struct NetName(pub String);

impl View for NetName {
    type V = Seq<char>;

    open spec fn view(&self) -> Seq<char> {
        self.0@
    }
}

impl Clone for NetName {
    fn clone(&self) -> (r: Self)
        ensures
            r == *self,
    {
        NetName(self.0.clone())
    }
}

impl Key for NetName {
    fn same(&self, other: &Self) -> (r: bool) {
        self.0 == other.0
    }

    fn dup(&self) -> (r: Self) {
        self.clone()
    }
}

impl PartialEq for NetName {
    fn eq(&self, other: &Self) -> (r: bool) {
        self.0 == other.0
    }
}

impl PartialEqSpecImpl for NetName {
    open spec fn obeys_eq_spec() -> bool {
        true
    }

    open spec fn eq_spec(&self, other: &Self) -> bool {
        self@ == other@
    }
}

impl NetName {
    /// Length of the identifier in bytes of its UTF-8 encoding.
    pub fn len(&self) -> (n: usize)
        ensures
            n == vstd::utf8::encode_utf8(self@).len() as usize,
    {
        self.0.as_str().len()
    }
}

/// The human name of a pin, such as `GATE` or `VCC`.
#[derive(Debug, Eq, Hash)]
pub struct PinName(pub String);

impl View for PinName {
    type V = Seq<char>;

    open spec fn view(&self) -> Seq<char> {
        self.0@
    }
}

impl Clone for PinName {
    fn clone(&self) -> (r: Self)
        ensures
            r == *self,
    {
        PinName(self.0.clone())
    }
}

impl Key for PinName {
    fn same(&self, other: &Self) -> (r: bool) {
        self.0 == other.0
    }

    fn dup(&self) -> (r: Self) {
        self.clone()
    }
}

impl PartialEq for PinName {
    fn eq(&self, other: &Self) -> (r: bool) {
        self.0 == other.0
    }
}

impl PartialEqSpecImpl for PinName {
    open spec fn obeys_eq_spec() -> bool {
        true
    }

    open spec fn eq_spec(&self, other: &Self) -> bool {
        self@ == other@
    }
}

impl PinName {
    /// Length of the identifier in bytes of its UTF-8 encoding.
    pub fn len(&self) -> (n: usize)
        ensures
            n == vstd::utf8::encode_utf8(self@).len() as usize,
    {
        self.0.as_str().len()
    }
}

/// The identifier of a pin within its part, such as `1` or `A3`.
#[derive(Debug, Eq, Hash)]
pub struct PinId(pub String);

impl View for PinId {
    type V = Seq<char>;

    open spec fn view(&self) -> Seq<char> {
        self.0@
    }
}

impl Clone for PinId {
    fn clone(&self) -> (r: Self)
        ensures
            r == *self,
    {
        PinId(self.0.clone())
    }
}

impl Key for PinId {
    fn same(&self, other: &Self) -> (r: bool) {
        self.0 == other.0
    }

    fn dup(&self) -> (r: Self) {
        self.clone()
    }
}

impl PartialEq for PinId {
    fn eq(&self, other: &Self) -> (r: bool) {
        self.0 == other.0
    }
}

impl PartialEqSpecImpl for PinId {
    open spec fn obeys_eq_spec() -> bool {
        true
    }

    open spec fn eq_spec(&self, other: &Self) -> bool {
        self@ == other@
    }
}

impl PinId {
    /// Length of the identifier in bytes of its UTF-8 encoding.
    pub fn len(&self) -> (n: usize)
        ensures
            n == vstd::utf8::encode_utf8(self@).len() as usize,
    {
        self.0.as_str().len()
    }
}

/// True when `d` begins with the character `c`.
pub open spec fn starts_with_char(d: Seq<char>, c: char) -> bool {
    d.len() > 0 && d[0] == c
}

/// True for an ASCII decimal digit.
pub open spec fn is_ascii_digit(c: char) -> bool {
    '0' <= c && c <= '9'
}

/// Resistors are labelled `R…`.
pub open spec fn spec_is_resistor(d: Seq<char>) -> bool {
    starts_with_char(d, 'R')
}

/// Capacitors are labelled `C…`.
pub open spec fn spec_is_capacitor(d: Seq<char>) -> bool {
    starts_with_char(d, 'C')
}

/// Inductors are labelled `L` followed by a digit, which leaves out `LED…` and `LD…`.
pub open spec fn spec_is_inductor(d: Seq<char>) -> bool {
    d.len() > 1 && d[0] == 'L' && is_ascii_digit(d[1])
}

/// Transistors are labelled `Q…`.
pub open spec fn spec_is_transistor(d: Seq<char>) -> bool {
    starts_with_char(d, 'Q')
}

/// Integrated circuits are labelled `U…`.
pub open spec fn spec_is_ic(d: Seq<char>) -> bool {
    starts_with_char(d, 'U')
}

impl Designator {
    /// Whether the label begins with `c`.
    pub fn starts_with(&self, c: char) -> (r: bool)
        ensures
            r == starts_with_char(self@, c),
    {
        let s = self.0.as_str();
        !s.is_empty() && char_at(s, 0) == c
    }

    /// Whether the label is that of a resistor: `R…`.
    pub fn is_resistor(&self) -> (r: bool)
        ensures
            r == spec_is_resistor(self@),
    {
        self.starts_with('R')
    }

    /// Whether the label is that of a capacitor: `C…`.
    pub fn is_capacitor(&self) -> (r: bool)
        ensures
            r == spec_is_capacitor(self@),
    {
        self.starts_with('C')
    }

    /// Whether the label is that of an inductor: `L` followed by a digit.
    pub fn is_inductor(&self) -> (r: bool)
        ensures
            r == spec_is_inductor(self@),
    {
        let chars = to_chars(self.0.as_str());
        chars.len() > 1 && chars[0] == 'L' && '0' <= chars[1] && chars[1] <= '9'
    }

    /// Whether the label is that of a transistor: `Q…`.
    pub fn is_transistor(&self) -> (r: bool)
        ensures
            r == spec_is_transistor(self@),
    {
        self.starts_with('Q')
    }

    /// Whether the label is that of an integrated circuit: `U…`.
    pub fn is_ic(&self) -> (r: bool)
        ensures
            r == spec_is_ic(self@),
    {
        self.starts_with('U')
    }
}

/// What a predicate over designators says of the label `d`: true when some
/// designator with these characters is accepted.
pub open spec fn holds<F: Fn(&Designator) -> bool>(f: F, d: Seq<char>) -> bool {
    exists|x: Designator| x@ == d && call_ensures(f, (&x,), true)
}

/// A predicate that may be called on every designator and whose answer
/// depends on the characters of the label alone.
pub open spec fn pure_predicate<F: Fn(&Designator) -> bool>(f: F) -> bool {
    &&& forall|x: &Designator| call_requires(f, (x,))
    &&& forall|x: &Designator, b: bool| call_ensures(f, (x,), b) ==> b == holds(f, x@)
}

/// The five designator predicates are pure, and `holds` of each is its spec function.
pub proof fn lemma_designator_predicates_pure()
    ensures
        pure_predicate(Designator::is_resistor),
        pure_predicate(Designator::is_capacitor),
        pure_predicate(Designator::is_inductor),
        pure_predicate(Designator::is_transistor),
        pure_predicate(Designator::is_ic),
        forall|d: Seq<char>| #[trigger] holds(Designator::is_resistor, d) ==> spec_is_resistor(d),
        forall|d: Seq<char>| #[trigger] holds(Designator::is_capacitor, d) ==> spec_is_capacitor(d),
        forall|d: Seq<char>| #[trigger] holds(Designator::is_inductor, d) ==> spec_is_inductor(d),
        forall|d: Seq<char>| #[trigger] holds(Designator::is_transistor, d) ==> spec_is_transistor(d),
        forall|d: Seq<char>| #[trigger] holds(Designator::is_ic, d) ==> spec_is_ic(d),
{
    assert forall|x: &Designator, b: bool| call_ensures(Designator::is_resistor, (x,), b)
        implies b == holds(Designator::is_resistor, x@) by {}
    assert forall|x: &Designator, b: bool| call_ensures(Designator::is_capacitor, (x,), b)
        implies b == holds(Designator::is_capacitor, x@) by {}
    assert forall|x: &Designator, b: bool| call_ensures(Designator::is_inductor, (x,), b)
        implies b == holds(Designator::is_inductor, x@) by {}
    assert forall|x: &Designator, b: bool| call_ensures(Designator::is_transistor, (x,), b)
        implies b == holds(Designator::is_transistor, x@) by {}
    assert forall|x: &Designator, b: bool| call_ensures(Designator::is_ic, (x,), b)
        implies b == holds(Designator::is_ic, x@) by {}
}

} // verus!
