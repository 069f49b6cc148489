//! OS versions as Mach-O load commands and `simctl` report them.
use vstd::prelude::*;

use crate::text::{
    decimal, find_char, first_index_of, lemma_decimal_facts, lemma_first_index_of_at,
    lemma_parse_decimal, parse_decimal, parse_unsigned, push_decimal, slice_chars, chars_of,
    string_from_chars,
};

verus! {

/// An OS version (`major.minor.patch`), ordered by major, then minor, then
/// patch version.
#[derive(Debug, Clone, Copy, PartialEq, Eq, Structural, Hash, PartialOrd, Ord)]
pub struct OSVersion {
    pub major: u16,
    pub minor: u8,
    pub patch: u8,
}

/// Why a version string could not be read.
#[derive(Debug, Clone, Copy, PartialEq, Eq, Structural)]
pub enum VersionParseError {
    /// The string holds no `.`.
    MissingSeparator,
    /// A component is not a decimal number in range.
    InvalidNumber,
}

/// The version that `packed` (`major << 16 | minor << 8 | patch`) encodes.
pub open spec fn unpack(packed: u32) -> OSVersion {
    OSVersion {
        major: (packed / 0x10000) as u16,
        minor: ((packed / 0x100) % 0x100) as u8,
        patch: (packed % 0x100) as u8,
    }
}

/// The packed encoding of `v`.
pub open spec fn pack(v: OSVersion) -> int {
    v.major * 0x10000 + v.minor * 0x100 + v.patch
}

/// `a` comes strictly before `b` (lexicographically by major, minor, patch).
pub open spec fn version_lt(a: OSVersion, b: OSVersion) -> bool {
    a.major < b.major || (a.major == b.major && (a.minor < b.minor || (a.minor == b.minor
        && a.patch < b.patch)))
}

/// The text of a version: `major.minor`, followed by `.patch` when the patch
/// version is not zero.
pub open spec fn version_text(v: OSVersion) -> Seq<char> {
    let base = decimal(v.major as nat) + seq!['.'] + decimal(v.minor as nat);
    if v.patch != 0 {
        base + seq!['.'] + decimal(v.patch as nat)
    } else {
        base
    }
}

/// The version that `s` denotes: `major.minor` or `major.minor.patch`, each
/// component read as `str::parse` reads `u16` (major) or `u8` (minor and
/// patch). A missing patch version is zero.
pub open spec fn parse_version(s: Seq<char>) -> Option<OSVersion> {
    match first_index_of(s, '.') {
        None => None,
        Some(i) => {
            let major = parse_unsigned(s.take(i), 0xFFFF);
            let rest = s.skip(i + 1);
            match first_index_of(rest, '.') {
                Some(j) => {
                    let minor = parse_unsigned(rest.take(j), 0xFF);
                    let patch = parse_unsigned(rest.skip(j + 1), 0xFF);
                    if major is Some && minor is Some && patch is Some {
                        Some(
                            OSVersion {
                                major: major->0 as u16,
                                minor: minor->0 as u8,
                                patch: patch->0 as u8,
                            },
                        )
                    } else {
                        None
                    }
                },
                None => {
                    let minor = parse_unsigned(rest, 0xFF);
                    if major is Some && minor is Some {
                        Some(OSVersion { major: major->0 as u16, minor: minor->0 as u8, patch: 0 })
                    } else {
                        None
                    }
                },
            }
        },
    }
}

impl OSVersion {
    /// The smallest version, `0.0.0`.
    pub fn min_version() -> (v: OSVersion)
        ensures
            v == unpack(0),
            forall|w: OSVersion| !version_lt(w, v),
    {
        OSVersion { major: 0, minor: 0, patch: 0 }
    }

    /// The largest version, `65535.255.255`.
    pub fn max_version() -> (v: OSVersion)
        ensures
            v == unpack(0xFFFF_FFFF),
            forall|w: OSVersion| !version_lt(v, w),
    {
        OSVersion { major: 0xFFFF, minor: 0xFF, patch: 0xFF }
    }

    /// Decodes `major << 16 | minor << 8 | patch`.
    pub fn from_packed(packed: u32) -> (v: OSVersion)
        ensures
            v == unpack(packed),
    {
        let major = ((packed >> 16) & 0xFFFF) as u16;
        let minor = ((packed >> 8) & 0xFF) as u8;
        let patch = (packed & 0xFF) as u8;
        assert(((packed >> 16) & 0xFFFF) == packed / 0x10000) by (bit_vector);
        assert(((packed >> 8) & 0xFF) == (packed / 0x100) % 0x100) by (bit_vector);
        assert((packed & 0xFF) == packed % 0x100) by (bit_vector);
        OSVersion { major, minor, patch }
    }

    /// Whether `self` comes strictly before `other`.
    pub fn precedes(&self, other: &OSVersion) -> (res: bool)
        ensures
            res == version_lt(*self, *other),
    {
        self.major < other.major || (self.major == other.major && (self.minor < other.minor || (
        self.minor == other.minor && self.patch < other.patch)))
    }

    /// Whether `self` comes before `other` or equals it.
    pub fn at_most(&self, other: &OSVersion) -> (res: bool)
        ensures
            res == !version_lt(*other, *self),
    {
        !other.precedes(self)
    }

    /// Reads a version written as `major.minor` or `major.minor.patch`.
    pub fn parse(s: &str) -> (res: Result<OSVersion, VersionParseError>)
        ensures
            res is Ok <==> parse_version(s@) is Some,
            res matches Ok(v) ==> parse_version(s@) == Some(v),
            res is Err && res->Err_0 == VersionParseError::MissingSeparator <==> !s@.contains(
                '.',
            ),
            s@.contains('.') ==> match parse_version(s@) {
                Some(v) => res == Ok::<OSVersion, VersionParseError>(v),
                None => res == Err::<OSVersion, VersionParseError>(
                    VersionParseError::InvalidNumber,
                ),
            },
    {
        let cs = chars_of(s);
        proof {
            crate::text::lemma_first_index_of(s@, '.');
        }
        let i = match find_char(&cs, '.') {
            Some(i) => i,
            None => {
                return Err(VersionParseError::MissingSeparator);
            },
        };
        let n = cs.len();
        let major_text = slice_chars(&cs, 0, i);
        let rest = slice_chars(&cs, i + 1, cs.len());
        assert(major_text@ =~= s@.take(i as int));
        assert(rest@ =~= s@.skip(i + 1));
        assert(first_index_of(s@, '.') == Some(i as int));
        let major = match parse_decimal(&major_text, 0xFFFF) {
            Some(m) => m,
            None => {
                return Err(VersionParseError::InvalidNumber);
            },
        };
        match find_char(&rest, '.') {
            Some(j) => {
                let minor_text = slice_chars(&rest, 0, j);
                let patch_text = slice_chars(&rest, j + 1, rest.len());
                assert(minor_text@ =~= rest@.take(j as int));
                assert(patch_text@ =~= rest@.skip(j + 1));
                assert(first_index_of(rest@, '.') == Some(j as int));
                let minor = match parse_decimal(&minor_text, 0xFF) {
                    Some(m) => m,
                    None => {
                        return Err(VersionParseError::InvalidNumber);
                    },
                };
                let patch = match parse_decimal(&patch_text, 0xFF) {
                    Some(p) => p,
                    None => {
                        return Err(VersionParseError::InvalidNumber);
                    },
                };
                Ok(OSVersion { major: major as u16, minor: minor as u8, patch: patch as u8 })
            },
            None => {
                assert(first_index_of(rest@, '.') is None);
                let minor = match parse_decimal(&rest, 0xFF) {
                    Some(m) => m,
                    None => {
                        return Err(VersionParseError::InvalidNumber);
                    },
                };
                Ok(OSVersion { major: major as u16, minor: minor as u8, patch: 0 })
            },
        }
    }

    /// The characters of `version_text(self)`.
    pub fn text_chars(&self) -> (res: Vec<char>)
        ensures
            res@ == version_text(*self),
    {
        let mut out: Vec<char> = Vec::new();
        push_decimal(&mut out, self.major as u32);
        out.push('.');
        push_decimal(&mut out, self.minor as u32);
        if self.patch != 0 {
            out.push('.');
            push_decimal(&mut out, self.patch as u32);
        }
        assert(out@ =~= version_text(*self));
        out
    }

    /// The version as text, as it is shown to users and written into
    /// `Info.plist` files.
    pub fn to_version_string(&self) -> (res: String)
        ensures
            res@ == version_text(*self),
    {
        let cs = self.text_chars();
        string_from_chars(&cs)
    }
}

impl Default for OSVersion {
    fn default() -> (v: OSVersion)
        ensures
            v == unpack(0),
    {
        OSVersion { major: 0, minor: 0, patch: 0 }
    }
}

impl core::str::FromStr for OSVersion {
    type Err = VersionParseError;

    fn from_str(s: &str) -> (res: Result<OSVersion, VersionParseError>)
        ensures
            !s@.contains('.') ==> res == Err::<OSVersion, VersionParseError>(
                VersionParseError::MissingSeparator,
            ),
            s@.contains('.') ==> match parse_version(s@) {
                Some(v) => res == Ok::<OSVersion, VersionParseError>(v),
                None => res == Err::<OSVersion, VersionParseError>(
                    VersionParseError::InvalidNumber,
                ),
            },
    {
        OSVersion::parse(s)
    }
}

/// Unpacking is a bijection: every packed value decodes to a version that
/// packs back to it, and every version is decoded from its packed form.
pub proof fn lemma_packed_roundtrip(packed: u32, v: OSVersion)
    ensures
        pack(unpack(packed)) == packed,
        0 <= pack(v) <= 0xFFFF_FFFF,
        unpack(pack(v) as u32) == v,
{
    let p = packed as int;
    assert(p == (p / 0x10000) * 0x10000 + ((p / 0x100) % 0x100) * 0x100 + p % 0x100)
        by (nonlinear_arith);
    assert(0 <= p / 0x10000 < 0x10000) by (nonlinear_arith)
        requires
            0 <= p <= 0xFFFF_FFFF,
    ;
    let q = pack(v);
    let (a, b, c) = (v.major as int, v.minor as int, v.patch as int);
    assert(0 <= q <= 0xFFFF_FFFF && q / 0x10000 == a && (q / 0x100) % 0x100 == b && q % 0x100
        == c) by (nonlinear_arith)
        requires
            q == a * 0x10000 + b * 0x100 + c,
            0 <= a < 0x10000,
            0 <= b < 0x100,
            0 <= c < 0x100,
    ;
}

/// Reading the text of a version gives the version back.
pub proof fn lemma_text_roundtrip(v: OSVersion)
    ensures
        parse_version(version_text(v)) == Some(v),
{
    let dm = decimal(v.major as nat);
    let dn = decimal(v.minor as nat);
    let dp = decimal(v.patch as nat);
    lemma_decimal_facts(v.major as nat);
    lemma_decimal_facts(v.minor as nat);
    lemma_decimal_facts(v.patch as nat);
    lemma_parse_decimal(v.major as nat, 0xFFFF);
    lemma_parse_decimal(v.minor as nat, 0xFF);
    lemma_parse_decimal(v.patch as nat, 0xFF);
    let s = version_text(v);
    let i = dm.len() as int;
    assert(s[i] == '.');
    assert(s.take(i) =~= dm);
    lemma_first_index_of_at(s, '.', i);
    let rest = s.skip(i + 1);
    if v.patch != 0 {
        assert(rest =~= dn + seq!['.'] + dp);
        let j = dn.len() as int;
        assert(rest[j] == '.');
        assert(rest.take(j) =~= dn);
        lemma_first_index_of_at(rest, '.', j);
        assert(rest.skip(j + 1) =~= dp);
    } else {
        assert(rest =~= dn);
        crate::text::lemma_first_index_of(rest, '.');
    }
}

/// The order on versions is a strict total order.
pub proof fn lemma_version_order(a: OSVersion, b: OSVersion, c: OSVersion)
    ensures
        !version_lt(a, a),
        version_lt(a, b) && version_lt(b, c) ==> version_lt(a, c),
        a == b || version_lt(a, b) || version_lt(b, a),
{
}

} // verus!
