//! Resistance values, and the parser for the ways they are written on schematics.
//!
//! Three shapes are read, each with optional spaces around it:
//!
//! * not delimited: digits, optional spaces, optional prefix, optional ohm
//!   sign (`100`, `10 kΩ`, `5M`);
//! * letter delimited: digits, a prefix in place of the decimal point, digits
//!   (`1k2`, `4R7`);
//! * dot delimited: digits, `.`, digits, optional spaces, optional prefix,
//!   optional ohm sign (`5.53R`, `1.0k`).
//!
//! Values are exact: a resistance is a whole number of micro-ohms. Digits
//! finer than a micro-ohm are dropped, and a value that does not fit in 64 bits
//! is rejected.
use vstd::prelude::*;
use crate::text::{class_of, is_digit, lemma_run, run_len, scan, to_chars, CharClass};

verus! {

/// A resistance, counted in micro-ohms.
#[derive(Debug, PartialEq, Eq, Copy, Clone, Structural)]
pub struct Ohm(pub u64);

/// Micro-ohms in one ohm.
pub const MICRO_OHMS_PER_OHM: u64 = 1_000_000;

impl Ohm {
    /// The resistance of `ohms` whole ohms.
    pub fn from_ohms(ohms: u32) -> (r: Ohm)
        ensures
            r.0 == ohms * 1_000_000,
    {
        Ohm(ohms as u64 * MICRO_OHMS_PER_OHM)
    }
}

/// A stylistic remark on a value that was nevertheless understood.
#[derive(Debug, PartialEq, Eq, Copy, Clone, Structural)]
pub enum PassiveValueParseWarning {
    /// More than one space stands between the number and its unit.
    RedundantSpace,
    /// A lower-case `r` stands for the ohm.
    SmallR,
    /// `R` follows a prefix where the ohm sign belongs.
    BigRInsteadOfOhmSymbol,
}

/// Why a value was not understood.
#[derive(Debug, PartialEq, Eq, Copy, Clone, Structural)]
pub enum PassiveValueParseError {
    /// The text has none of the three shapes.
    Unrecognized,
    /// The value is larger than 64 bits of micro-ohms hold.
    OutOfRange,
}

impl PassiveValueParseError {
    /// The error in words.
    pub open spec fn spec_message(self) -> Seq<char> {
        match self {
            PassiveValueParseError::Unrecognized => "unrecognized resistance value"@,
            PassiveValueParseError::OutOfRange => "resistance value out of range"@,
        }
    }

    /// The error in words.
    pub fn message(&self) -> (r: String)
        ensures
            r@ == self.spec_message(),
    {
        match self {
            PassiveValueParseError::Unrecognized => String::from_str(
                "unrecognized resistance value",
            ),
            PassiveValueParseError::OutOfRange => String::from_str("resistance value out of range"),
        }
    }
}

/// A prefix letter: `µ` (either code point), `m`, `R`, `r`, `k`, `M` or `G`.
pub open spec fn is_prefix(c: char) -> bool {
    c == '\u{b5}' || c == '\u{3bc}' || c == 'm' || c == 'R' || c == 'r' || c == 'k' || c == 'M'
        || c == 'G'
}

/// An ohm sign: `Ω` (either code point) or `R`.
pub open spec fn is_ohm(c: char) -> bool {
    c == '\u{3a9}' || c == '\u{2126}' || c == 'R'
}

/// The number of decimal places by which a prefix shifts a value in
/// micro-ohms: 0 for `µ`, 3 for `m`, 6 for none, `R` and `r`, 9 for `k`, 12
/// for `M`, 15 for `G`.
pub open spec fn places(prefix: Option<char>) -> nat {
    match prefix {
        None => 6,
        Some(c) => if c == '\u{b5}' || c == '\u{3bc}' {
            0
        } else if c == 'm' {
            3
        } else if c == 'k' {
            9
        } else if c == 'M' {
            12
        } else if c == 'G' {
            15
        } else {
            6
        },
    }
}

/// Ten to the power of `n`.
pub open spec fn pow10(n: nat) -> nat
    decreases n,
{
    if n == 0 {
        1
    } else {
        10 * pow10((n - 1) as nat)
    }
}

/// The value of a decimal digit.
pub open spec fn digit_value(c: char) -> nat {
    (c as int - '0' as int) as nat
}

/// The number that the decimal digits `s` write.
pub open spec fn digits_value(s: Seq<char>) -> nat
    decreases s.len(),
{
    if s.len() == 0 {
        0
    } else {
        digits_value(s.drop_last()) * 10 + digit_value(s.last())
    }
}

/// The first `n` digits of `frac`, with zeros appended where `frac` is shorter.
pub open spec fn padded(frac: Seq<char>, n: nat) -> Seq<char> {
    Seq::new(n, |i: int| if i < frac.len() { frac[i] } else { '0' })
}

/// The value in micro-ohms of `whole.frac` under a prefix that shifts by `n`
/// places. Digits of `frac` beyond the `n`-th are dropped.
pub open spec fn micro_ohms(whole: Seq<char>, frac: Seq<char>, n: nat) -> nat {
    digits_value(whole) * pow10(n) + digits_value(padded(frac, n))
}

/// The remark that a unit written with `gap` spaces before it, the prefix
/// `prefix` and the ohm sign `ohm` earns. A later part overrides an earlier one.
pub open spec fn unit_warning(gap: nat, prefix: Option<char>, ohm: Option<char>) -> Option<
    PassiveValueParseWarning,
> {
    if ohm == Some('R') {
        Some(PassiveValueParseWarning::BigRInsteadOfOhmSymbol)
    } else if prefix == Some('r') {
        Some(PassiveValueParseWarning::SmallR)
    } else if gap > 1 && (prefix is Some || ohm is Some) {
        Some(PassiveValueParseWarning::RedundantSpace)
    } else {
        None
    }
}

/// The result for a value that was recognized.
pub open spec fn finish(
    whole: Seq<char>,
    frac: Seq<char>,
    prefix: Option<char>,
    warning: Option<PassiveValueParseWarning>,
) -> Result<(Ohm, Option<PassiveValueParseWarning>), PassiveValueParseError> {
    let v = micro_ohms(whole, frac, places(prefix));
    if v > u64::MAX {
        Err(PassiveValueParseError::OutOfRange)
    } else {
        Ok((Ohm(v as u64), warning))
    }
}

/// What follows the number in the shapes that are not letter delimited:
/// spaces, an optional prefix, an optional ohm sign, spaces, and the end.
/// `c` is where the number ends.
pub open spec fn parse_unit(s: Seq<char>, whole: Seq<char>, frac: Seq<char>, c: int) -> Result<
    (Ohm, Option<PassiveValueParseWarning>),
    PassiveValueParseError,
> {
    let gap = run_len(s, c, CharClass::Space);
    let c1 = c + gap;
    let prefix = if c1 < s.len() && is_prefix(s[c1]) {
        Some(s[c1])
    } else {
        None
    };
    let c2 = if prefix is Some {
        c1 + 1
    } else {
        c1
    };
    let ohm = if c2 < s.len() && is_ohm(s[c2]) {
        Some(s[c2])
    } else {
        None
    };
    let c3 = if ohm is Some {
        c2 + 1
    } else {
        c2
    };
    if c3 + run_len(s, c3, CharClass::Space) != s.len() {
        Err(PassiveValueParseError::Unrecognized)
    } else {
        finish(whole, frac, prefix, unit_warning(gap, prefix, ohm))
    }
}

/// What the text `s` means as a resistance.
pub open spec fn spec_parse_resistance(s: Seq<char>) -> Result<
    (Ohm, Option<PassiveValueParseWarning>),
    PassiveValueParseError,
> {
    let a = run_len(s, 0, CharClass::Space) as int;
    let n = run_len(s, a, CharClass::Digit) as int;
    let b = a + n;
    let whole = s.subrange(a, b);
    if n == 0 {
        Err(PassiveValueParseError::Unrecognized)
    } else if b + 1 < s.len() && is_prefix(s[b]) && is_digit(s[b + 1]) {
        let f = run_len(s, b + 1, CharClass::Digit) as int;
        let e = b + 1 + f;
        if e + run_len(s, e, CharClass::Space) != s.len() {
            Err(PassiveValueParseError::Unrecognized)
        } else {
            finish(
                whole,
                s.subrange(b + 1, e),
                Some(s[b]),
                if s[b] == 'r' {
                    Some(PassiveValueParseWarning::SmallR)
                } else {
                    None
                },
            )
        }
    } else if b < s.len() && s[b] == '.' {
        let f = run_len(s, b + 1, CharClass::Digit) as int;
        if f == 0 {
            Err(PassiveValueParseError::Unrecognized)
        } else {
            parse_unit(s, whole, s.subrange(b + 1, b + 1 + f), b + 1 + f)
        }
    } else {
        parse_unit(s, whole, Seq::<char>::empty(), b)
    }
}

/// A number is at least the number that any of its leading digits write.
pub proof fn lemma_digits_prefix(s: Seq<char>, k: int)
    requires
        0 <= k <= s.len(),
    ensures
        digits_value(s.take(k)) <= digits_value(s),
    decreases s.len() - k,
{
    if k == s.len() {
        assert(s.take(k) =~= s);
    } else {
        lemma_digits_prefix(s.drop_last(), k);
        assert(s.drop_last().take(k) =~= s.take(k));
    }
}

/// Powers of ten grow with the exponent, and are at least one.
pub proof fn lemma_pow10_monotone(a: nat, b: nat)
    requires
        a <= b,
    ensures
        pow10(a) <= pow10(b),
        pow10(a) >= 1,
    decreases b,
{
    if a < b {
        lemma_pow10_monotone(a, (b - 1) as nat);
    } else if a > 0 {
        lemma_pow10_monotone((a - 1) as nat, (a - 1) as nat);
    }
}

/// The powers of ten that the prefixes stand for.
pub proof fn lemma_pow10_values()
    ensures
        pow10(0) == 1,
        pow10(3) == 1_000,
        pow10(6) == 1_000_000,
        pow10(9) == 1_000_000_000,
        pow10(12) == 1_000_000_000_000,
        pow10(15) == 1_000_000_000_000_000,
{
    reveal_with_fuel(pow10, 16);
}

fn prefix_char(c: char) -> (r: bool)
    ensures
        r == is_prefix(c),
{
    c == '\u{b5}' || c == '\u{3bc}' || c == 'm' || c == 'R' || c == 'r' || c == 'k' || c == 'M'
        || c == 'G'
}

fn ohm_char(c: char) -> (r: bool)
    ensures
        r == is_ohm(c),
{
    c == '\u{3a9}' || c == '\u{2126}' || c == 'R'
}

/// The places by which `prefix` shifts, and ten to that power.
fn scale_of(prefix: Option<char>) -> (r: (usize, u64))
    ensures
        r.0 == places(prefix),
        r.1 == pow10(places(prefix)),
        r.0 <= 15,
{
    proof {
        lemma_pow10_values();
    }
    match prefix {
        None => (6, 1_000_000),
        Some(c) => if c == '\u{b5}' || c == '\u{3bc}' {
            (0, 1)
        } else if c == 'm' {
            (3, 1_000)
        } else if c == 'k' {
            (9, 1_000_000_000)
        } else if c == 'M' {
            (12, 1_000_000_000_000)
        } else if c == 'G' {
            (15, 1_000_000_000_000_000)
        } else {
            (6, 1_000_000)
        },
    }
}

fn digit_of(c: char) -> (d: u64)
    requires
        is_digit(c),
    ensures
        d == digit_value(c),
        d <= 9,
{
    (c as u32 - '0' as u32) as u64
}

/// The number that the digits `s[from..to]` write, unless it passes 64 bits.
pub fn digits_to_number(s: &Vec<char>, from: usize, to: usize) -> (r: Option<u64>)
    requires
        from <= to <= s@.len(),
        forall|i: int| from <= i < to ==> is_digit(#[trigger] s@[i]),
    ensures
        match r {
            Some(v) => v == digits_value(s@.subrange(from as int, to as int)),
            None => digits_value(s@.subrange(from as int, to as int)) > u64::MAX,
        },
{
    let ghost whole = s@.subrange(from as int, to as int);
    let mut acc: u64 = 0;
    let mut i: usize = from;
    while i < to
        invariant
            from <= i <= to <= s@.len(),
            whole == s@.subrange(from as int, to as int),
            forall|j: int| from <= j < to ==> is_digit(#[trigger] s@[j]),
            acc == digits_value(s@.subrange(from as int, i as int)),
        decreases to - i,
    {
        let d = digit_of(s[i]);
        proof {
            let next = s@.subrange(from as int, i + 1);
            assert(next.drop_last() =~= s@.subrange(from as int, i as int));
            assert(next.last() == s@[i as int]);
            assert(digits_value(next) == acc * 10 + d);
            assert(whole.take(i + 1 - from) =~= next);
            lemma_digits_prefix(whole, i + 1 - from);
        }
        if acc > (u64::MAX - d) / 10 {
            return None;
        }
        acc = acc * 10 + d;
        i = i + 1;
    }
    assert(s@.subrange(from as int, i as int) =~= whole);
    Some(acc)
}

/// The number that the first `n` digits of `s[from..to]` write, zeros
/// standing in where there are fewer.
fn fraction_to_number(s: &Vec<char>, from: usize, to: usize, n: usize) -> (r: u64)
    requires
        from <= to <= s@.len(),
        forall|i: int| from <= i < to ==> is_digit(#[trigger] s@[i]),
        n <= 15,
    ensures
        r == digits_value(padded(s@.subrange(from as int, to as int), n as nat)),
        r < pow10(n as nat),
{
    let ghost frac = s@.subrange(from as int, to as int);
    let ghost pad = padded(frac, n as nat);
    let mut acc: u64 = 0;
    let mut i: usize = 0;
    proof {
        assert(pad.take(0) =~= Seq::<char>::empty());
    }
    while i < n
        invariant
            from <= to <= s@.len(),
            forall|j: int| from <= j < to ==> is_digit(#[trigger] s@[j]),
            frac == s@.subrange(from as int, to as int),
            pad == padded(frac, n as nat),
            i <= n <= 15,
            acc == digits_value(pad.take(i as int)),
            acc < pow10(i as nat),
        decreases n - i,
    {
        let d = if i < to - from {
            digit_of(s[from + i])
        } else {
            0
        };
        proof {
            lemma_pow10_monotone((i + 1) as nat, 15);
            lemma_pow10_values();
            let next = pad.take(i + 1);
            assert(next.drop_last() =~= pad.take(i as int));
            assert(next.last() == pad[i as int]);
            assert(digit_value(pad[i as int]) == d);
            assert(pow10((i + 1) as nat) == 10 * pow10(i as nat));
        }
        acc = acc * 10 + d;
        i = i + 1;
    }
    assert(pad.take(n as int) =~= pad);
    acc
}

/// Puts the parts of a recognized value together.
fn finish_value(
    s: &Vec<char>,
    a: usize,
    b: usize,
    f0: usize,
    f1: usize,
    prefix: Option<char>,
    warning: Option<PassiveValueParseWarning>,
) -> (r: Result<(Ohm, Option<PassiveValueParseWarning>), PassiveValueParseError>)
    requires
        a <= b <= s@.len(),
        f0 <= f1 <= s@.len(),
        forall|i: int| a <= i < b ==> is_digit(#[trigger] s@[i]),
        forall|i: int| f0 <= i < f1 ==> is_digit(#[trigger] s@[i]),
    ensures
        r == finish(
            s@.subrange(a as int, b as int),
            s@.subrange(f0 as int, f1 as int),
            prefix,
            warning,
        ),
{
    let (n, scale) = scale_of(prefix);
    let fraction = fraction_to_number(s, f0, f1, n);
    let ghost iv = digits_value(s@.subrange(a as int, b as int));
    proof {
        lemma_pow10_monotone(n as nat, 15);
        lemma_pow10_values();
    }
    let Some(whole) = digits_to_number(s, a, b) else {
        assert(iv * pow10(n as nat) >= iv) by (nonlinear_arith)
            requires
                pow10(n as nat) >= 1,
        ;
        return Err(PassiveValueParseError::OutOfRange);
    };
    let Some(shifted) = whole.checked_mul(scale) else {
        return Err(PassiveValueParseError::OutOfRange);
    };
    let Some(total) = shifted.checked_add(fraction) else {
        return Err(PassiveValueParseError::OutOfRange);
    };
    Ok((Ohm(total), warning))
}

/// Reads the unit that follows a number ending at `c`.
fn read_unit(s: &Vec<char>, a: usize, b: usize, f0: usize, f1: usize, c: usize) -> (r: Result<
    (Ohm, Option<PassiveValueParseWarning>),
    PassiveValueParseError,
>)
    requires
        a <= b <= s@.len(),
        f0 <= f1 <= s@.len(),
        c <= s@.len(),
        forall|i: int| a <= i < b ==> is_digit(#[trigger] s@[i]),
        forall|i: int| f0 <= i < f1 ==> is_digit(#[trigger] s@[i]),
    ensures
        r == parse_unit(
            s@,
            s@.subrange(a as int, b as int),
            s@.subrange(f0 as int, f1 as int),
            c as int,
        ),
{
    let c1 = scan(s, c, CharClass::Space);
    let gap = c1 - c;
    let mut prefix: Option<char> = None;
    let mut c2 = c1;
    if c1 < s.len() && prefix_char(s[c1]) {
        prefix = Some(s[c1]);
        c2 = c1 + 1;
    }
    let mut ohm: Option<char> = None;
    let mut c3 = c2;
    if c2 < s.len() && ohm_char(s[c2]) {
        ohm = Some(s[c2]);
        c3 = c2 + 1;
    }
    let end = scan(s, c3, CharClass::Space);
    if end != s.len() {
        return Err(PassiveValueParseError::Unrecognized);
    }
    let warning = if matches!(ohm, Some('R')) {
        Some(PassiveValueParseWarning::BigRInsteadOfOhmSymbol)
    } else if matches!(prefix, Some('r')) {
        Some(PassiveValueParseWarning::SmallR)
    } else if gap > 1 && (prefix.is_some() || ohm.is_some()) {
        Some(PassiveValueParseWarning::RedundantSpace)
    } else {
        None
    };
    assert(warning == unit_warning(gap as nat, prefix, ohm));
    finish_value(s, a, b, f0, f1, prefix, warning)
}

/// Parses a resistance as it is written on a schematic.
///
/// Returns the value and, where the text is understood but unusual, a
/// remark. Fails where the text has none of the three shapes, or where the
/// value does not fit.
pub fn parse_resistance_value(value: &str) -> (r: Result<
    (Ohm, Option<PassiveValueParseWarning>),
    PassiveValueParseError,
>)
    ensures
        r == spec_parse_resistance(value@),
{
    let s = to_chars(value);
    let a = scan(&s, 0, CharClass::Space);
    let b = scan(&s, a, CharClass::Digit);
    proof {
        lemma_run(s@, a as int, CharClass::Digit);
    }
    if b == a {
        return Err(PassiveValueParseError::Unrecognized);
    }
    if b < s.len() - 1 && prefix_char(s[b]) && class_of(s[b + 1], CharClass::Digit) {
        let e = scan(&s, b + 1, CharClass::Digit);
        proof {
            lemma_run(s@, b + 1, CharClass::Digit);
        }
        let end = scan(&s, e, CharClass::Space);
        if end != s.len() {
            return Err(PassiveValueParseError::Unrecognized);
        }
        let warning = if s[b] == 'r' {
            Some(PassiveValueParseWarning::SmallR)
        } else {
            None
        };
        finish_value(&s, a, b, b + 1, e, Some(s[b]), warning)
    } else if b < s.len() && s[b] == '.' {
        let e = scan(&s, b + 1, CharClass::Digit);
        proof {
            lemma_run(s@, b + 1, CharClass::Digit);
        }
        if e == b + 1 {
            return Err(PassiveValueParseError::Unrecognized);
        }
        read_unit(&s, a, b, b + 1, e, e)
    } else {
        assert(s@.subrange(b as int, b as int) =~= Seq::<char>::empty());
        read_unit(&s, a, b, b, b, b)
    }
}

} // verus!
