//! Lean versions (`major.minor.patch`, with an optional pre-release suffix on the patch).
use vstd::prelude::*;
use vstd::string::*;
use crate::text::{
    chars_of, decimal_digits, lemma_decimal_digits, lemma_parse_decimal, lemma_split_char_concat,
    lemma_split_char_no_sep, parse_u32, parse_u32_spec, push_decimal, split_char, split_chars,
    string_from_chars, all_digits,
};

verus! {

/// Parsed Lean version (e.g. 4.25.2).
#[derive(Debug, Clone, Copy, PartialEq, Eq, Structural, PartialOrd, Ord, Hash)]
pub struct LeanVersion {
    pub major: u32,
    pub minor: u32,
    pub patch: u32,
}

/// Why a version string was rejected; each variant holds the offending text.
#[derive(Debug, Clone)]
pub enum VersionError {
    /// Fewer than three dot-separated parts; holds the whole input.
    MissingParts(String),
    /// The major part is not a `u32`; holds that part.
    InvalidMajor(String),
    /// The minor part is not a `u32`; holds that part.
    InvalidMinor(String),
    /// The patch part (before any `-` suffix) is not a `u32`; holds the whole third part.
    InvalidPatch(String),
}

pub enum VersionErrorView {
    MissingParts(Seq<char>),
    InvalidMajor(Seq<char>),
    InvalidMinor(Seq<char>),
    InvalidPatch(Seq<char>),
}

impl View for VersionError {
    type V = VersionErrorView;

    open spec fn view(&self) -> VersionErrorView {
        match self {
            VersionError::MissingParts(s) => VersionErrorView::MissingParts(s@),
            VersionError::InvalidMajor(s) => VersionErrorView::InvalidMajor(s@),
            VersionError::InvalidMinor(s) => VersionErrorView::InvalidMinor(s@),
            VersionError::InvalidPatch(s) => VersionErrorView::InvalidPatch(s@),
        }
    }
}

/// The human-readable text of a version error.
pub open spec fn version_error_text(e: VersionErrorView) -> Seq<char> {
    match e {
        VersionErrorView::MissingParts(s) => "invalid version '"@ + s
            + "': expected major.minor.patch"@,
        VersionErrorView::InvalidMajor(s) => "invalid major version '"@ + s + "'"@,
        VersionErrorView::InvalidMinor(s) => "invalid minor version '"@ + s + "'"@,
        VersionErrorView::InvalidPatch(s) => "invalid patch version '"@ + s + "'"@,
    }
}

impl VersionError {
    pub fn message(&self) -> (r: String)
        ensures
            r@ == version_error_text(self@),
    {
        let mut out = String::new();
        match self {
            VersionError::MissingParts(s) => {
                out.append("invalid version '");
                out.append(s.as_str());
                out.append("': expected major.minor.patch");
            },
            VersionError::InvalidMajor(s) => {
                out.append("invalid major version '");
                out.append(s.as_str());
                out.append("'");
            },
            VersionError::InvalidMinor(s) => {
                out.append("invalid minor version '");
                out.append(s.as_str());
                out.append("'");
            },
            VersionError::InvalidPatch(s) => {
                out.append("invalid patch version '");
                out.append(s.as_str());
                out.append("'");
            },
        }
        out
    }
}

/// How a version string parses: three or more dot-separated parts, the first
/// two `u32`s, the third a `u32` up to its first `-` (a pre-release suffix such
/// as `0-nightly-2026-02-13` is dropped); parts after the third are ignored.
pub open spec fn parse_version_spec(s: Seq<char>) -> Result<LeanVersion, VersionErrorView> {
    let parts = split_char(s, '.');
    if parts.len() < 3 {
        Err(VersionErrorView::MissingParts(s))
    } else {
        match parse_u32_spec(parts[0]) {
            None => Err(VersionErrorView::InvalidMajor(parts[0])),
            Some(major) => match parse_u32_spec(parts[1]) {
                None => Err(VersionErrorView::InvalidMinor(parts[1])),
                Some(minor) => match parse_u32_spec(split_char(parts[2], '-')[0]) {
                    None => Err(VersionErrorView::InvalidPatch(parts[2])),
                    Some(patch) => Ok(LeanVersion { major, minor, patch }),
                },
            },
        }
    }
}

/// The `major.minor.patch` text of a version.
pub open spec fn version_text(v: LeanVersion) -> Seq<char> {
    decimal_digits(v.major as nat) + "."@ + decimal_digits(v.minor as nat) + "."@ + decimal_digits(
        v.patch as nat,
    )
}

/// Versions compare by major, then minor, then patch.
pub open spec fn version_order(a: LeanVersion, b: LeanVersion) -> core::cmp::Ordering {
    if a.major < b.major {
        core::cmp::Ordering::Less
    } else if a.major > b.major {
        core::cmp::Ordering::Greater
    } else if a.minor < b.minor {
        core::cmp::Ordering::Less
    } else if a.minor > b.minor {
        core::cmp::Ordering::Greater
    } else if a.patch < b.patch {
        core::cmp::Ordering::Less
    } else if a.patch > b.patch {
        core::cmp::Ordering::Greater
    } else {
        core::cmp::Ordering::Equal
    }
}

impl LeanVersion {
    /// Parse a version such as `4.25.2` or `4.29.0-nightly-2026-02-13-rev2`.
    pub fn parse(s: &str) -> (r: Result<LeanVersion, VersionError>)
        ensures
            match r {
                Ok(v) => parse_version_spec(s@) == Ok::<LeanVersion, VersionErrorView>(v),
                Err(e) => parse_version_spec(s@) == Err::<LeanVersion, VersionErrorView>(e@),
            },
    {
        let cs = chars_of(s);
        let parts = split_chars(cs.as_slice(), '.');
        assert(parts@.map_values(|f: Vec<char>| f@).len() == parts@.len());
        if parts.len() < 3 {
            return Err(VersionError::MissingParts(s.to_owned()));
        }
        assert(parts@.map_values(|f: Vec<char>| f@)[0] == parts@[0]@);
        assert(parts@.map_values(|f: Vec<char>| f@)[1] == parts@[1]@);
        assert(parts@.map_values(|f: Vec<char>| f@)[2] == parts@[2]@);
        let major = match parse_u32(parts[0].as_slice()) {
            Some(v) => v,
            None => {
                return Err(VersionError::InvalidMajor(string_from_chars(parts[0].as_slice())));
            },
        };
        let minor = match parse_u32(parts[1].as_slice()) {
            Some(v) => v,
            None => {
                return Err(VersionError::InvalidMinor(string_from_chars(parts[1].as_slice())));
            },
        };
        let patch_fields = split_chars(parts[2].as_slice(), '-');
        assert(patch_fields@.map_values(|f: Vec<char>| f@)[0] == patch_fields@[0]@);
        let patch = match parse_u32(patch_fields[0].as_slice()) {
            Some(v) => v,
            None => {
                return Err(VersionError::InvalidPatch(string_from_chars(parts[2].as_slice())));
            },
        };
        Ok(LeanVersion { major, minor, patch })
    }

    /// The version as `major.minor.patch`.
    pub fn to_string(&self) -> (r: String)
        ensures
            r@ == version_text(*self),
    {
        let mut out = String::new();
        push_decimal(&mut out, self.major as u64);
        out.append(".");
        push_decimal(&mut out, self.minor as u64);
        out.append(".");
        push_decimal(&mut out, self.patch as u64);
        out
    }

    /// Compare by major, then minor, then patch.
    pub fn compare(&self, other: &LeanVersion) -> (r: core::cmp::Ordering)
        ensures
            r == version_order(*self, *other),
    {
        if self.major < other.major {
            core::cmp::Ordering::Less
        } else if self.major > other.major {
            core::cmp::Ordering::Greater
        } else if self.minor < other.minor {
            core::cmp::Ordering::Less
        } else if self.minor > other.minor {
            core::cmp::Ordering::Greater
        } else if self.patch < other.patch {
            core::cmp::Ordering::Less
        } else if self.patch > other.patch {
            core::cmp::Ordering::Greater
        } else {
            core::cmp::Ordering::Equal
        }
    }
}

impl core::str::FromStr for LeanVersion {
    type Err = VersionError;

    fn from_str(s: &str) -> (r: Result<LeanVersion, VersionError>)
        ensures
            match r {
                Ok(v) => parse_version_spec(s@) == Ok::<LeanVersion, VersionErrorView>(v),
                Err(e) => parse_version_spec(s@) == Err::<LeanVersion, VersionErrorView>(e@),
            },
    {
        LeanVersion::parse(s)
    }
}

proof fn lemma_digits_have_no(n: nat, c: char)
    requires
        !('0' <= c <= '9'),
    ensures
        forall|i: int| 0 <= i < decimal_digits(n).len() ==> decimal_digits(n)[i] != c,
{
    lemma_decimal_digits(n);
    let d = decimal_digits(n);
    assert forall|i: int| 0 <= i < d.len() implies d[i] != c by {
        assert('0' <= d[i] <= '9');
    }
}

/// Law: the text of a version parses back to the same version.
pub proof fn lemma_version_text_roundtrip(v: LeanVersion)
    ensures
        parse_version_spec(version_text(v)) == Ok::<LeanVersion, VersionErrorView>(v),
{
    let a = decimal_digits(v.major as nat);
    let b = decimal_digits(v.minor as nat);
    let c = decimal_digits(v.patch as nat);
    reveal_strlit(".");
    assert("."@ =~= seq!['.']);
    lemma_digits_have_no(v.major as nat, '.');
    lemma_digits_have_no(v.minor as nat, '.');
    lemma_digits_have_no(v.patch as nat, '.');
    lemma_digits_have_no(v.patch as nat, '-');
    lemma_split_char_no_sep(a, '.');
    lemma_split_char_no_sep(b, '.');
    lemma_split_char_no_sep(c, '.');
    lemma_split_char_no_sep(c, '-');
    lemma_split_char_concat(b, '.', c);
    lemma_split_char_concat(a, '.', b + seq!['.'] + c);
    assert(version_text(v) =~= a + seq!['.'] + (b + seq!['.'] + c));
    let parts = split_char(version_text(v), '.');
    assert(parts =~= seq![a, b, c]);
    lemma_parse_decimal(v.major);
    lemma_parse_decimal(v.minor);
    lemma_parse_decimal(v.patch);
}

/// A version as one number: major, then minor, then patch, each in its own
/// 32-bit digit.
pub open spec fn version_rank(v: LeanVersion) -> int {
    v.major * 0x1_0000_0000_0000_0000int + v.minor * 0x1_0000_0000int + v.patch
}

/// Law: versions compare lexicographically by (major, minor, patch): one is
/// less than another exactly when its rank is smaller, greater exactly when
/// its rank is larger.
pub proof fn lemma_version_order_lexicographic(a: LeanVersion, b: LeanVersion)
    ensures
        version_order(a, b) == core::cmp::Ordering::Less <==> version_rank(a) < version_rank(b),
        version_order(a, b) == core::cmp::Ordering::Greater <==> version_rank(a) > version_rank(b),
        version_order(a, b) == core::cmp::Ordering::Equal <==> version_rank(a) == version_rank(b),
{
}

/// Law: the version order is a total order that agrees with equality.
pub proof fn lemma_version_order_total(a: LeanVersion, b: LeanVersion, c: LeanVersion)
    ensures
        version_order(a, b) == core::cmp::Ordering::Equal <==> a == b,
        version_order(a, b) == core::cmp::Ordering::Less <==> version_order(b, a)
            == core::cmp::Ordering::Greater,
        version_order(a, b) == core::cmp::Ordering::Less && version_order(b, c)
            == core::cmp::Ordering::Less ==> version_order(a, c) == core::cmp::Ordering::Less,
{
}

} // verus!
