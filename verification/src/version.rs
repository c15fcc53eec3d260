//! The version triple that every frame and every handshake carries.

use vstd::prelude::*;

verus! {

/// Major component of the version this library speaks.
pub const VERSION_MAJOR: u8 = 0;

/// Minor component of the version this library speaks.
pub const VERSION_MINOR: u8 = 8;

/// Patch component of the version this library speaks.
pub const VERSION_PATCH: u8 = 0;

/// A `(major, minor, patch)` triple.
#[derive(Debug, Copy, Clone, PartialEq, Eq, Structural)]
pub struct Version {
    pub major: u8,
    pub minor: u8,
    pub patch: u8,
}

impl View for Version {
    type V = (u8, u8, u8);

    open spec fn view(&self) -> (u8, u8, u8) {
        (self.major, self.minor, self.patch)
    }
}

/// Compatibility of two triples: below major version one every minor release
/// may break the wire format, so two `0.x` versions agree only on equal minors;
/// from major version one on, equal majors suffice.
pub open spec fn compatible_triples(a: (u8, u8, u8), b: (u8, u8, u8)) -> bool {
    if a.0 == 0 && b.0 == 0 {
        a.1 == b.1
    } else {
        a.0 == b.0
    }
}

impl Version {
    /// Builds a version from its three components.
    pub fn new(major: u8, minor: u8, patch: u8) -> (v: Version)
        ensures
            v@ == (major, minor, patch),
    {
        Version { major, minor, patch }
    }

    /// Whether a peer speaking `rhs` can exchange frames with one speaking
    /// `self`.
    pub fn compatible(&self, rhs: Version) -> (ok: bool)
        ensures
            ok == compatible_triples(self@, rhs@),
    {
        if self.major() == 0 && rhs.major() == 0 {
            self.minor() == rhs.minor()
        } else {
            self.major() == rhs.major()
        }
    }

    /// The version as it is written, such as `1.2.3`.
    pub fn to_string(&self) -> (text: String)
        ensures
            text@ == dotted(self@),
    {
        proof {
            reveal_strlit(".");
        }
        let mut text = String::new();
        append_decimal(&mut text, self.major);
        text.append(".");
        append_decimal(&mut text, self.minor);
        text.append(".");
        append_decimal(&mut text, self.patch);
        text
    }

    pub fn major(&self) -> (m: u8)
        ensures
            m == self@.0,
    {
        self.major
    }

    pub fn minor(&self) -> (m: u8)
        ensures
            m == self@.1,
    {
        self.minor
    }

    pub fn patch(&self) -> (p: u8)
        ensures
            p == self@.2,
    {
        self.patch
    }
}

/// The triple of this library's version.
pub open spec fn own_version() -> (u8, u8, u8) {
    (VERSION_MAJOR, VERSION_MINOR, VERSION_PATCH)
}

/// The character of the digit `d`.
pub open spec fn digit_char(d: nat) -> char {
    if d == 0 {
        '0'
    } else if d == 1 {
        '1'
    } else if d == 2 {
        '2'
    } else if d == 3 {
        '3'
    } else if d == 4 {
        '4'
    } else if d == 5 {
        '5'
    } else if d == 6 {
        '6'
    } else if d == 7 {
        '7'
    } else if d == 8 {
        '8'
    } else {
        '9'
    }
}

/// The number `n` in decimal digits, without leading zeros.
pub open spec fn decimal(n: nat) -> Seq<char>
    decreases n,
{
    if n < 10 {
        seq![digit_char(n)]
    } else {
        decimal(n / 10).push(digit_char(n % 10))
    }
}

/// A version as it is written: its three parts in decimal, with dots
/// between them.
pub open spec fn dotted(v: (u8, u8, u8)) -> Seq<char> {
    decimal(v.0 as nat) + seq!['.'] + decimal(v.1 as nat) + seq!['.'] + decimal(v.2 as nat)
}

/// The digit `d` as a string.
fn digit_str(d: u8) -> (s: &'static str)
    requires
        d < 10,
    ensures
        s@ == seq![digit_char(d as nat)],
{
    proof {
        reveal_strlit("0");
        reveal_strlit("1");
        reveal_strlit("2");
        reveal_strlit("3");
        reveal_strlit("4");
        reveal_strlit("5");
        reveal_strlit("6");
        reveal_strlit("7");
        reveal_strlit("8");
        reveal_strlit("9");
    }
    let s = if d == 0 {
        "0"
    } else if d == 1 {
        "1"
    } else if d == 2 {
        "2"
    } else if d == 3 {
        "3"
    } else if d == 4 {
        "4"
    } else if d == 5 {
        "5"
    } else if d == 6 {
        "6"
    } else if d == 7 {
        "7"
    } else if d == 8 {
        "8"
    } else {
        "9"
    };
    s
}

/// Appends `n` in decimal to `text`.
fn append_decimal(text: &mut String, n: u8)
    ensures
        final(text)@ == old(text)@ + decimal(n as nat),
{
    reveal_with_fuel(decimal, 3);
    if n >= 100 {
        text.append(digit_str(n / 100));
    }
    if n >= 10 {
        text.append(digit_str((n / 10) % 10));
    }
    text.append(digit_str(n % 10));
}

/// This library's version as a value.
pub open spec fn own_version_value() -> Version {
    Version { major: VERSION_MAJOR, minor: VERSION_MINOR, patch: VERSION_PATCH }
}

/// The version of this library.
pub fn version() -> (v: Version)
    ensures
        v == own_version_value(),
        v@ == own_version(),
{
    Version::new(VERSION_MAJOR, VERSION_MINOR, VERSION_PATCH)
}

/// The pre-release tag of this library's version; empty for a release.
pub fn version_pre() -> (s: String)
    ensures
        s@ == Seq::<char>::empty(),
{
    String::new()
}

/// Compatibility is symmetric: it does not matter which side asks.
pub proof fn lemma_compatible_symmetric(a: Version, b: Version)
    ensures
        compatible_triples(a@, b@) == compatible_triples(b@, a@),
{
}

/// Every version is compatible with itself.
pub proof fn lemma_compatible_reflexive(a: Version)
    ensures
        compatible_triples(a@, a@),
{
}

} // verus!
