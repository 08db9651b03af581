//! The detected Lean installation, its `key=value` text form and the hex
//! transport used to pass it between build scripts.
use vstd::prelude::*;
use vstd::string::*;
use vstd::utf8::{decode_utf8, encode_utf8, valid_utf8};
use crate::text::{
    owned, chars_of, decimal_digits, parse_u32, parse_u32_spec, push_decimal, split_char, split_chars,
    string_from_chars, str_eq, trim, trim_chars, chars_eq_str, lemma_split_first, hex_digit,
    is_white_space, trim_start, trim_end, lemma_split_char_concat, lemma_split_char_no_sep,
    lemma_decimal_digits, lemma_parse_decimal, utf8_error_message, utf8_to_string,
};
use crate::version::lemma_version_text_roundtrip;
use crate::version::{
    parse_version_spec, version_text, LeanVersion, VersionError, VersionErrorView,
};

verus! {

/// Build-time allocator backend configured by `lean/config.h`.
#[derive(Debug, Clone, Copy, PartialEq, Eq, Structural)]
pub enum LeanAllocator {
    /// Lean's page-based small-object allocator is enabled.
    Small,
    /// Lean routes small-object allocation through mimalloc.
    Mimalloc,
    /// Lean falls back to the generic malloc-based small-object path.
    System,
}

/// The name of an allocator in the config text.
pub open spec fn allocator_text(a: LeanAllocator) -> Seq<char> {
    match a {
        LeanAllocator::Small => "small"@,
        LeanAllocator::Mimalloc => "mimalloc"@,
        LeanAllocator::System => "system"@,
    }
}

/// How an allocator name parses.
pub open spec fn parse_allocator_spec(s: Seq<char>) -> Option<LeanAllocator> {
    if s == "small"@ {
        Some(LeanAllocator::Small)
    } else if s == "mimalloc"@ {
        Some(LeanAllocator::Mimalloc)
    } else if s == "system"@ {
        Some(LeanAllocator::System)
    } else {
        None
    }
}

impl LeanAllocator {
    /// The allocator's name: `small`, `mimalloc` or `system`.
    pub fn to_string(&self) -> (r: String)
        ensures
            r@ == allocator_text(*self),
    {
        match self {
            LeanAllocator::Small => "small".to_owned(),
            LeanAllocator::Mimalloc => "mimalloc".to_owned(),
            LeanAllocator::System => "system".to_owned(),
        }
    }

    /// Parse an allocator name; anything else is rejected.
    pub fn parse(s: &str) -> (r: Option<LeanAllocator>)
        ensures
            r == parse_allocator_spec(s@),
    {
        if str_eq(s, "small") {
            Some(LeanAllocator::Small)
        } else if str_eq(s, "mimalloc") {
            Some(LeanAllocator::Mimalloc)
        } else if str_eq(s, "system") {
            Some(LeanAllocator::System)
        } else {
            None
        }
    }
}

/// Law: an allocator's name parses back to the same allocator.
pub proof fn lemma_allocator_roundtrip(a: LeanAllocator)
    ensures
        parse_allocator_spec(allocator_text(a)) == Some(a),
{
    reveal_strlit("small");
    reveal_strlit("mimalloc");
    reveal_strlit("system");
    assert("small"@ != "mimalloc"@) by {
        assert("small"@.len() != "mimalloc"@.len());
    }
    assert("small"@ != "system"@) by {
        assert("small"@[1] != "system"@[1]);
    }
    assert("mimalloc"@ != "system"@) by {
        assert("mimalloc"@.len() != "system"@.len());
    }
}

/// Whether a line of `lean/config.h` (after leading white space) starts with `directive`.
pub open spec fn config_h_defines(config: Seq<char>, directive: Seq<char>) -> bool {
    exists|i: int|
        0 <= i < split_char(config, '\n').len() && directive.is_prefix_of(
            crate::text::trim_start(#[trigger] split_char(config, '\n')[i]),
        )
}

/// The allocator a `lean/config.h` selects: the small allocator when it
/// defines `LEAN_SMALL_ALLOCATOR`, else mimalloc when it defines
/// `LEAN_MIMALLOC`, else the system allocator.
pub open spec fn config_h_allocator(config: Seq<char>) -> LeanAllocator {
    if config_h_defines(config, "#define LEAN_SMALL_ALLOCATOR"@) {
        LeanAllocator::Small
    } else if config_h_defines(config, "#define LEAN_MIMALLOC"@) {
        LeanAllocator::Mimalloc
    } else {
        LeanAllocator::System
    }
}

/// Any whole line of a text is one of its `\n`-separated fields.
proof fn lemma_line_is_field(before: Seq<char>, line: Seq<char>, after: Seq<char>) -> (i: int)
    requires
        forall|k: int| 0 <= k < line.len() ==> line[k] != '\n',
        before.len() == 0 || before.last() == '\n',
        after.len() == 0 || after[0] == '\n',
    ensures
        0 <= i < split_char(before + line + after, '\n').len(),
        split_char(before + line + after, '\n')[i] == line,
{
    lemma_split_char_no_sep(line, '\n');
    let tail = line + after;
    if after.len() > 0 {
        let a2 = after.drop_first();
        assert(tail =~= line + seq!['\n'] + a2);
        lemma_split_char_concat(line, '\n', a2);
    } else {
        assert(tail =~= line);
    }
    assert(split_char(tail, '\n')[0] == line);
    if before.len() > 0 {
        let b2 = before.drop_last();
        assert(before + line + after =~= b2 + seq!['\n'] + tail);
        lemma_split_char_concat(b2, '\n', tail);
        let n = split_char(b2, '\n').len() as int;
        assert(split_char(before + line + after, '\n')[n] == split_char(tail, '\n')[0]);
        n
    } else {
        assert(before + line + after =~= tail);
        0
    }
}

/// Law: a define on any line of `lean/config.h` is found, not only on the
/// first: a whole line that starts (after white space) with
/// `#define LEAN_SMALL_ALLOCATOR` selects the small allocator, and one that
/// starts with `#define LEAN_MIMALLOC` selects a non-system allocator,
/// whatever lines come before and after it.
pub proof fn lemma_config_h_define_on_any_line(before: Seq<char>, line: Seq<char>, after: Seq<char>)
    requires
        forall|k: int| 0 <= k < line.len() ==> line[k] != '\n',
        before.len() == 0 || before.last() == '\n',
        after.len() == 0 || after[0] == '\n',
    ensures
        "#define LEAN_SMALL_ALLOCATOR"@.is_prefix_of(trim_start(line)) ==> config_h_allocator(
            before + line + after,
        ) == LeanAllocator::Small,
        "#define LEAN_MIMALLOC"@.is_prefix_of(trim_start(line)) ==> config_h_allocator(
            before + line + after,
        ) != LeanAllocator::System,
{
    let i = lemma_line_is_field(before, line, after);
    let text = before + line + after;
    assert(split_char(text, '\n')[i] == line);
    if "#define LEAN_SMALL_ALLOCATOR"@.is_prefix_of(trim_start(line)) {
        assert(config_h_defines(text, "#define LEAN_SMALL_ALLOCATOR"@));
    }
    if "#define LEAN_MIMALLOC"@.is_prefix_of(trim_start(line)) {
        assert(config_h_defines(text, "#define LEAN_MIMALLOC"@));
    }
}

fn starts_with_chars(s: &Vec<char>, prefix: &str) -> (r: bool)
    ensures
        r == prefix@.is_prefix_of(s@),
{
    let p = chars_of(prefix);
    if p.len() > s.len() {
        return false;
    }
    let mut i: usize = 0;
    while i < p.len()
        invariant
            p@ == prefix@,
            p.len() <= s.len(),
            i <= p.len(),
            forall|k: int| 0 <= k < i ==> s@[k] == p@[k],
        decreases p.len() - i,
    {
        if s[i] != p[i] {
            return false;
        }
        i = i + 1;
    }
    true
}

fn trim_start_chars(s: &Vec<char>) -> (r: Vec<char>)
    ensures
        r@ == crate::text::trim_start(s@),
{
    let mut a: usize = 0;
    assert(s@.skip(0) =~= s@);
    while a < s.len() && crate::text::is_white_space_char(s[a])
        invariant
            a <= s.len(),
            crate::text::trim_start(s@) == crate::text::trim_start(s@.skip(a as int)),
        decreases s.len() - a,
    {
        assert(s@.skip(a as int).drop_first() =~= s@.skip(a + 1));
        a = a + 1;
    }
    let mut r: Vec<char> = Vec::new();
    let mut k: usize = a;
    while k < s.len()
        invariant
            a <= k <= s.len(),
            r@ == s@.subrange(a as int, k as int),
        decreases s.len() - k,
    {
        r.push(s[k]);
        assert(r@ =~= s@.subrange(a as int, k + 1));
        k = k + 1;
    }
    assert(r@ =~= s@.skip(a as int));
    r
}

/// Detect the allocator selected by the contents of `lean/config.h`.
pub fn parse_allocator_from_config_h(config: &str) -> (r: LeanAllocator)
    ensures
        r == config_h_allocator(config@),
{
    let cs = chars_of(config);
    let lines = split_chars(cs.as_slice(), '\n');
    let ghost ls = split_char(config@, '\n');
    let mut small = false;
    let mut mimalloc = false;
    let mut i: usize = 0;
    while i < lines.len()
        invariant
            lines@.map_values(|f: Vec<char>| f@) == ls,
            i <= lines.len(),
            small == exists|k: int| 0 <= k < i && "#define LEAN_SMALL_ALLOCATOR"@.is_prefix_of(
                crate::text::trim_start(#[trigger] ls[k]),
            ),
            mimalloc == exists|k: int| 0 <= k < i && "#define LEAN_MIMALLOC"@.is_prefix_of(
                crate::text::trim_start(#[trigger] ls[k]),
            ),
        decreases lines.len() - i,
    {
        assert(ls[i as int] == lines@[i as int]@);
        let line = trim_start_chars(&lines[i]);
        if starts_with_chars(&line, "#define LEAN_SMALL_ALLOCATOR") {
            small = true;
        }
        if starts_with_chars(&line, "#define LEAN_MIMALLOC") {
            mimalloc = true;
        }
        i = i + 1;
    }
    if small {
        LeanAllocator::Small
    } else if mimalloc {
        LeanAllocator::Mimalloc
    } else {
        LeanAllocator::System
    }
}

// ---------------------------------------------------------------------------
// LeanConfig and its key=value text form
// ---------------------------------------------------------------------------

/// Configuration for a detected Lean4 installation.
#[derive(Debug, Clone)]
pub struct LeanConfig {
    pub lean_home: String,
    pub lean_lib_dir: String,
    pub lean_include_dir: String,
    pub version: LeanVersion,
    pub shared: bool,
    pub allocator: LeanAllocator,
    pub pointer_width: Option<u32>,
}

pub struct LeanConfigView {
    pub lean_home: Seq<char>,
    pub lean_lib_dir: Seq<char>,
    pub lean_include_dir: Seq<char>,
    pub version: LeanVersion,
    pub shared: bool,
    pub allocator: LeanAllocator,
    pub pointer_width: Option<u32>,
}

impl View for LeanConfig {
    type V = LeanConfigView;

    open spec fn view(&self) -> LeanConfigView {
        LeanConfigView {
            lean_home: self.lean_home@,
            lean_lib_dir: self.lean_lib_dir@,
            lean_include_dir: self.lean_include_dir@,
            version: self.version,
            shared: self.shared,
            allocator: self.allocator,
            pointer_width: self.pointer_width,
        }
    }
}

pub open spec fn bool_text(b: bool) -> Seq<char> {
    if b {
        "true"@
    } else {
        "false"@
    }
}

pub open spec fn pointer_width_text(w: Option<u32>) -> Seq<char> {
    match w {
        Some(w) => decimal_digits(w as nat),
        None => Seq::empty(),
    }
}

/// One newline-terminated `key=value` line (`key` includes the `=`).
pub open spec fn config_line(key: Seq<char>, value: Seq<char>) -> Seq<char> {
    key + value + "\n"@
}

/// The `key=value` text of a configuration, one newline-terminated line per field.
pub open spec fn config_text(c: LeanConfigView) -> Seq<char> {
    config_line("lean_home="@, c.lean_home) + config_line("lean_lib_dir="@, c.lean_lib_dir)
        + config_line("lean_include_dir="@, c.lean_include_dir) + config_line(
        "version="@,
        version_text(c.version),
    ) + config_line("shared="@, bool_text(c.shared)) + config_line(
        "allocator="@,
        allocator_text(c.allocator),
    ) + config_line("pointer_width="@, pointer_width_text(c.pointer_width))
}

fn push_line(out: &mut String, key: &str, value: &str)
    ensures
        final(out)@ == old(out)@ + config_line(key@, value@),
{
    out.append(key);
    out.append(value);
    out.append("\n");
    assert(final(out)@ =~= old(out)@ + config_line(key@, value@));
}

/// A required field that a config text did not provide.
#[derive(Debug, Clone, Copy, PartialEq, Eq, Structural)]
pub enum MissingField {
    LeanIncludeDir,
    LeanHome,
    LeanLibDir,
    Version,
    Shared,
    PointerWidth,
}

/// Why a configuration could not be read.
#[derive(Debug, Clone)]
pub enum ConfigError {
    /// A non-empty line without `=`; holds the trimmed line.
    InvalidLine(String),
    /// The `version` value did not parse.
    Version(VersionError),
    /// The `allocator` value is not a known allocator; holds the value.
    InvalidAllocator(String),
    /// The `pointer_width` value is neither empty nor a `u32`; holds the value.
    InvalidPointerWidth(String),
    /// A required key never appeared.
    Missing(MissingField),
    /// The decoded transport bytes are not UTF-8; holds std's error text.
    NotUtf8(String),
    /// The hex transport has an odd number of bytes.
    OddHexLength,
    /// The hex transport holds a byte that is not a hex digit.
    InvalidHexChar(u8),
}

pub enum ConfigErrorView {
    InvalidLine(Seq<char>),
    Version(VersionErrorView),
    InvalidAllocator(Seq<char>),
    InvalidPointerWidth(Seq<char>),
    Missing(MissingField),
    NotUtf8(Seq<char>),
    OddHexLength,
    InvalidHexChar(u8),
}

impl View for ConfigError {
    type V = ConfigErrorView;

    open spec fn view(&self) -> ConfigErrorView {
        match self {
            ConfigError::InvalidLine(s) => ConfigErrorView::InvalidLine(s@),
            ConfigError::Version(e) => ConfigErrorView::Version(e@),
            ConfigError::InvalidAllocator(s) => ConfigErrorView::InvalidAllocator(s@),
            ConfigError::InvalidPointerWidth(s) => ConfigErrorView::InvalidPointerWidth(s@),
            ConfigError::Missing(f) => ConfigErrorView::Missing(*f),
            ConfigError::NotUtf8(s) => ConfigErrorView::NotUtf8(s@),
            ConfigError::OddHexLength => ConfigErrorView::OddHexLength,
            ConfigError::InvalidHexChar(b) => ConfigErrorView::InvalidHexChar(*b),
        }
    }
}

/// The config key a missing field is read from.
pub open spec fn missing_field_key(f: MissingField) -> Seq<char> {
    match f {
        MissingField::LeanIncludeDir => "lean_include_dir"@,
        MissingField::LeanHome => "lean_home"@,
        MissingField::LeanLibDir => "lean_lib_dir"@,
        MissingField::Version => "version"@,
        MissingField::Shared => "shared"@,
        MissingField::PointerWidth => "pointer_width"@,
    }
}

/// The human-readable text of a configuration error.
pub open spec fn config_error_text(e: ConfigErrorView) -> Seq<char> {
    match e {
        ConfigErrorView::InvalidLine(l) => "invalid config line: "@ + l,
        ConfigErrorView::Version(v) => crate::version::version_error_text(v),
        ConfigErrorView::InvalidAllocator(v) => "invalid allocator '"@ + v + "'"@,
        ConfigErrorView::InvalidPointerWidth(v) => "invalid pointer_width '"@ + v + "'"@,
        ConfigErrorView::Missing(f) => "missing "@ + missing_field_key(f),
        ConfigErrorView::NotUtf8(m) => "reading config: "@ + m,
        ConfigErrorView::OddHexLength => "hex string has odd length"@,
        ConfigErrorView::InvalidHexChar(b) => "invalid hex char '"@ + seq![b as char] + "'"@,
    }
}

impl MissingField {
    /// The config key this field is read from.
    pub fn key(&self) -> (r: &'static str)
        ensures
            r@ == missing_field_key(*self),
    {
        match self {
            MissingField::LeanIncludeDir => "lean_include_dir",
            MissingField::LeanHome => "lean_home",
            MissingField::LeanLibDir => "lean_lib_dir",
            MissingField::Version => "version",
            MissingField::Shared => "shared",
            MissingField::PointerWidth => "pointer_width",
        }
    }
}

impl ConfigError {
    /// The human-readable text of this error.
    pub fn message(&self) -> (r: String)
        ensures
            r@ == config_error_text(self@),
    {
        let mut out = String::new();
        match self {
            ConfigError::InvalidLine(l) => {
                out.append("invalid config line: ");
                out.append(l.as_str());
            },
            ConfigError::Version(v) => {
                out = v.message();
            },
            ConfigError::InvalidAllocator(v) => {
                out.append("invalid allocator '");
                out.append(v.as_str());
                out.append("'");
            },
            ConfigError::InvalidPointerWidth(v) => {
                out.append("invalid pointer_width '");
                out.append(v.as_str());
                out.append("'");
            },
            ConfigError::Missing(f) => {
                out.append("missing ");
                out.append(f.key());
            },
            ConfigError::NotUtf8(m) => {
                out.append("reading config: ");
                out.append(m.as_str());
            },
            ConfigError::OddHexLength => {
                out.append("hex string has odd length");
            },
            ConfigError::InvalidHexChar(b) => {
                out.append("invalid hex char '");
                crate::text::push_char(&mut out, *b as char);
                out.append("'");
            },
        }
        out
    }
}

/// The fields read so far; the last occurrence of a key wins.
pub struct ConfigFields {
    pub lean_home: Option<Seq<char>>,
    pub lean_lib_dir: Option<Seq<char>>,
    pub lean_include_dir: Option<Seq<char>>,
    pub version: Option<LeanVersion>,
    pub shared: Option<bool>,
    pub allocator: Option<LeanAllocator>,
    pub pointer_width: Option<Option<u32>>,
}

pub open spec fn no_fields() -> ConfigFields {
    ConfigFields {
        lean_home: None,
        lean_lib_dir: None,
        lean_include_dir: None,
        version: None,
        shared: None,
        allocator: None,
        pointer_width: None,
    }
}

/// The key of a trimmed `key=value` line (text before the first `=`).
pub open spec fn line_key(t: Seq<char>) -> Seq<char> {
    split_char(t, '=')[0]
}

/// The value of a trimmed `key=value` line (text after the first `=`).
pub open spec fn line_value(t: Seq<char>) -> Seq<char> {
    t.skip(line_key(t).len() + 1int)
}

/// The effect of a `key=value` pair: unknown keys are ignored, and a bad value
/// for a typed key is an error.
pub open spec fn apply_key_value(st: ConfigFields, key: Seq<char>, value: Seq<char>) -> Result<
    ConfigFields,
    ConfigErrorView,
> {
    if key == "lean_home"@ {
        Ok(ConfigFields { lean_home: Some(value), ..st })
    } else if key == "lean_lib_dir"@ {
        Ok(ConfigFields { lean_lib_dir: Some(value), ..st })
    } else if key == "lean_include_dir"@ {
        Ok(ConfigFields { lean_include_dir: Some(value), ..st })
    } else if key == "version"@ {
        match parse_version_spec(value) {
            Ok(v) => Ok(ConfigFields { version: Some(v), ..st }),
            Err(e) => Err(ConfigErrorView::Version(e)),
        }
    } else if key == "shared"@ {
        Ok(ConfigFields { shared: Some(value == "true"@), ..st })
    } else if key == "allocator"@ {
        match parse_allocator_spec(value) {
            Some(a) => Ok(ConfigFields { allocator: Some(a), ..st }),
            None => Err(ConfigErrorView::InvalidAllocator(value)),
        }
    } else if key == "pointer_width"@ {
        if value.len() == 0 {
            Ok(ConfigFields { pointer_width: Some(None), ..st })
        } else {
            match parse_u32_spec(value) {
                Some(w) => Ok(ConfigFields { pointer_width: Some(Some(w)), ..st }),
                None => Err(ConfigErrorView::InvalidPointerWidth(value)),
            }
        }
    } else {
        Ok(st)
    }
}

/// The effect of one line: blank lines are skipped, a line without `=` is an
/// error, and otherwise its key and value apply.
pub open spec fn apply_config_line(st: ConfigFields, line: Seq<char>) -> Result<
    ConfigFields,
    ConfigErrorView,
> {
    let t = trim(line);
    if t.len() == 0 {
        Ok(st)
    } else if split_char(t, '=').len() < 2 {
        Err(ConfigErrorView::InvalidLine(t))
    } else {
        apply_key_value(st, line_key(t), line_value(t))
    }
}

/// The fields read from a sequence of lines; the first bad line is the error.
pub open spec fn apply_config_lines(lines: Seq<Seq<char>>) -> Result<ConfigFields, ConfigErrorView>
    decreases lines.len(),
{
    if lines.len() == 0 {
        Ok(no_fields())
    } else {
        match apply_config_lines(lines.drop_last()) {
            Err(e) => Err(e),
            Ok(st) => apply_config_line(st, lines.last()),
        }
    }
}

/// The fields of a config text, checked for the required keys (in the order
/// include dir, home, lib dir, version, shared, pointer width). The allocator
/// stays optional: a text without one leaves it to detection.
pub open spec fn read_config_spec(text: Seq<char>) -> Result<ConfigFields, ConfigErrorView> {
    match apply_config_lines(split_char(text, '\n')) {
        Err(e) => Err(e),
        Ok(st) => if st.lean_include_dir is None {
            Err(ConfigErrorView::Missing(MissingField::LeanIncludeDir))
        } else if st.lean_home is None {
            Err(ConfigErrorView::Missing(MissingField::LeanHome))
        } else if st.lean_lib_dir is None {
            Err(ConfigErrorView::Missing(MissingField::LeanLibDir))
        } else if st.version is None {
            Err(ConfigErrorView::Missing(MissingField::Version))
        } else if st.shared is None {
            Err(ConfigErrorView::Missing(MissingField::Shared))
        } else if st.pointer_width is None {
            Err(ConfigErrorView::Missing(MissingField::PointerWidth))
        } else {
            Ok(st)
        },
    }
}

/// Whether a configuration agrees with fully read fields (the allocator only
/// where the text named one).
pub open spec fn config_matches_fields(c: LeanConfigView, st: ConfigFields) -> bool {
    &&& st.lean_home == Some(c.lean_home)
    &&& st.lean_lib_dir == Some(c.lean_lib_dir)
    &&& st.lean_include_dir == Some(c.lean_include_dir)
    &&& st.version == Some(c.version)
    &&& st.shared == Some(c.shared)
    &&& st.pointer_width == Some(c.pointer_width)
    &&& (st.allocator matches Some(a) ==> c.allocator == a)
}

struct FieldsExec {
    lean_home: Option<String>,
    lean_lib_dir: Option<String>,
    lean_include_dir: Option<String>,
    version: Option<LeanVersion>,
    shared: Option<bool>,
    allocator: Option<LeanAllocator>,
    pointer_width: Option<Option<u32>>,
}

impl FieldsExec {
    spec fn fields(&self) -> ConfigFields {
        ConfigFields {
            lean_home: crate::model::opt_str_view(self.lean_home),
            lean_lib_dir: crate::model::opt_str_view(self.lean_lib_dir),
            lean_include_dir: crate::model::opt_str_view(self.lean_include_dir),
            version: self.version,
            shared: self.shared,
            allocator: self.allocator,
            pointer_width: self.pointer_width,
        }
    }
}

fn apply_line_exec(st: &mut FieldsExec, line: &Vec<char>) -> (r: Result<(), ConfigError>)
    ensures
        match apply_config_line(old(st).fields(), line@) {
            Ok(next) => r is Ok && final(st).fields() == next,
            Err(e) => r matches Err(x) && x@ == e,
        },
{
    let t = trim_chars(line.as_slice());
    if t.len() == 0 {
        return Ok(());
    }
    let fields = split_chars(t.as_slice(), '=');
    assert(fields@.map_values(|f: Vec<char>| f@).len() == fields@.len());
    if fields.len() < 2 {
        return Err(ConfigError::InvalidLine(string_from_chars(t.as_slice())));
    }
    proof {
        lemma_split_first(t@, '=');
    }
    assert(fields@.map_values(|f: Vec<char>| f@)[0] == fields@[0]@);
    let key = &fields[0];
    let mut value_chars: Vec<char> = Vec::new();
    let mut k: usize = key.len() + 1;
    while k < t.len()
        invariant
            key.len() + 1 <= k <= t.len(),
            value_chars@ == t@.subrange(key.len() + 1, k as int),
        decreases t.len() - k,
    {
        value_chars.push(t[k]);
        assert(value_chars@ =~= t@.subrange(key.len() + 1, k + 1));
        k = k + 1;
    }
    assert(value_chars@ =~= line_value(t@));
    let value = string_from_chars(value_chars.as_slice());
    if chars_eq_str(key, "lean_home") {
        st.lean_home = Some(value);
    } else if chars_eq_str(key, "lean_lib_dir") {
        st.lean_lib_dir = Some(value);
    } else if chars_eq_str(key, "lean_include_dir") {
        st.lean_include_dir = Some(value);
    } else if chars_eq_str(key, "version") {
        match LeanVersion::parse(value.as_str()) {
            Ok(v) => {
                st.version = Some(v);
            },
            Err(e) => {
                return Err(ConfigError::Version(e));
            },
        }
    } else if chars_eq_str(key, "shared") {
        st.shared = Some(str_eq(value.as_str(), "true"));
    } else if chars_eq_str(key, "allocator") {
        match LeanAllocator::parse(value.as_str()) {
            Some(a) => {
                st.allocator = Some(a);
            },
            None => {
                return Err(ConfigError::InvalidAllocator(value));
            },
        }
    } else if chars_eq_str(key, "pointer_width") {
        if value_chars.len() == 0 {
            st.pointer_width = Some(None);
        } else {
            match parse_u32(value_chars.as_slice()) {
                Some(w) => {
                    st.pointer_width = Some(Some(w));
                },
                None => {
                    return Err(ConfigError::InvalidPointerWidth(value));
                },
            }
        }
    }
    Ok(())
}

impl LeanConfig {
    /// Write the configuration in its `key=value` text form.
    pub fn to_writer(&self, out: &mut String)
        ensures
            final(out)@ == old(out)@ + config_text(self@),
    {
        let ghost start = out@;
        push_line(out, "lean_home=", self.lean_home.as_str());
        push_line(out, "lean_lib_dir=", self.lean_lib_dir.as_str());
        push_line(out, "lean_include_dir=", self.lean_include_dir.as_str());
        let v = self.version.to_string();
        push_line(out, "version=", v.as_str());
        push_line(out, "shared=", if self.shared { "true" } else { "false" });
        let a = self.allocator.to_string();
        push_line(out, "allocator=", a.as_str());
        let mut w = String::new();
        match self.pointer_width {
            Some(x) => push_decimal(&mut w, x as u64),
            None => {},
        }
        assert(w@ =~= pointer_width_text(self.pointer_width));
        push_line(out, "pointer_width=", w.as_str());
        assert(out@ =~= start + config_text(self@));
    }

    /// Read a configuration from its `key=value` text form.
    ///
    /// Lines are trimmed and blank ones skipped; unknown keys are ignored for
    /// forward compatibility. When the text names no allocator, `detect` is
    /// asked for one, given the include directory.
    pub fn from_reader<F: Fn(&String) -> LeanAllocator>(text: &str, detect: F) -> (r: Result<
        LeanConfig,
        ConfigError,
    >)
        requires
            forall|s: &String| #[trigger] detect.requires((s,)),
        ensures
            match read_config_spec(text@) {
                Ok(st) => r matches Ok(c) && config_matches_fields(c@, st) && (st.allocator is None
                    ==> detect.ensures((&c.lean_include_dir,), c.allocator)),
                Err(e) => r matches Err(x) && x@ == e,
            },
    {
        let cs = chars_of(text);
        let lines = split_chars(cs.as_slice(), '\n');
        let ghost ls = split_char(text@, '\n');
        let mut st = FieldsExec {
            lean_home: None,
            lean_lib_dir: None,
            lean_include_dir: None,
            version: None,
            shared: None,
            allocator: None,
            pointer_width: None,
        };
        let mut i: usize = 0;
        assert(ls.take(0) =~= Seq::<Seq<char>>::empty());
        while i < lines.len()
            invariant
                lines@.map_values(|f: Vec<char>| f@) == ls,
                ls == split_char(text@, '\n'),
                i <= lines.len(),
                apply_config_lines(ls.take(i as int)) == Ok::<ConfigFields, ConfigErrorView>(
                    st.fields(),
                ),
            decreases lines.len() - i,
        {
            assert(ls[i as int] == lines@[i as int]@);
            assert(ls.take(i + 1).drop_last() =~= ls.take(i as int));
            assert(ls.take(i + 1).last() == ls[i as int]);
            let res = apply_line_exec(&mut st, &lines[i]);
            match res {
                Ok(()) => {},
                Err(e) => {
                    assert(apply_config_lines(ls.take(i + 1)) == Err::<ConfigFields, ConfigErrorView>(
                        e@,
                    ));
                    proof {
                        lemma_apply_lines_err_extends(ls, i + 1);
                    }
                    assert(read_config_spec(text@) == Err::<ConfigFields, ConfigErrorView>(e@));
                    return Err(e);
                },
            }
            i = i + 1;
        }
        assert(ls.take(lines.len() as int) =~= ls);
        let lean_include_dir = match st.lean_include_dir {
            Some(d) => d,
            None => {
                return Err(ConfigError::Missing(MissingField::LeanIncludeDir));
            },
        };
        let allocator = match st.allocator {
            Some(a) => a,
            None => detect(&lean_include_dir),
        };
        let lean_home = match st.lean_home {
            Some(d) => d,
            None => {
                return Err(ConfigError::Missing(MissingField::LeanHome));
            },
        };
        let lean_lib_dir = match st.lean_lib_dir {
            Some(d) => d,
            None => {
                return Err(ConfigError::Missing(MissingField::LeanLibDir));
            },
        };
        let version = match st.version {
            Some(v) => v,
            None => {
                return Err(ConfigError::Missing(MissingField::Version));
            },
        };
        let shared = match st.shared {
            Some(v) => v,
            None => {
                return Err(ConfigError::Missing(MissingField::Shared));
            },
        };
        let pointer_width = match st.pointer_width {
            Some(v) => v,
            None => {
                return Err(ConfigError::Missing(MissingField::PointerWidth));
            },
        };
        Ok(LeanConfig {
            lean_home,
            lean_lib_dir,
            lean_include_dir,
            version,
            shared,
            allocator,
            pointer_width,
        })
    }
}

/// Whether a typed key's value is rejected: a version that does not parse,
/// an unknown allocator name, or a non-empty pointer width that is not a
/// `u32`.
pub open spec fn value_rejected(key: Seq<char>, value: Seq<char>) -> bool {
    ||| key == "version"@ && parse_version_spec(value) is Err
    ||| key == "allocator"@ && parse_allocator_spec(value) is None
    ||| key == "pointer_width"@ && value.len() > 0 && parse_u32_spec(value) is None
}

/// Whether a line makes reading fail: after trimming it is non-blank and
/// either has no `=` or gives a typed key a rejected value.
pub open spec fn bad_config_line(l: Seq<char>) -> bool {
    let t = trim(l);
    t.len() > 0 && (split_char(t, '=').len() < 2 || value_rejected(line_key(t), line_value(t)))
}

/// Whether a line (trimmed, non-blank, with a `=`) sets key `k`.
pub open spec fn line_sets_key(l: Seq<char>, k: Seq<char>) -> bool {
    let t = trim(l);
    t.len() > 0 && split_char(t, '=').len() >= 2 && line_key(t) == k
}

/// Whether some line sets key `k`.
pub open spec fn names_key(ls: Seq<Seq<char>>, k: Seq<char>) -> bool {
    exists|i: int| 0 <= i < ls.len() && #[trigger] line_sets_key(ls[i], k)
}

/// Whether some line makes reading fail.
pub open spec fn has_bad_line(ls: Seq<Seq<char>>) -> bool {
    exists|i: int| 0 <= i < ls.len() && #[trigger] bad_config_line(ls[i])
}

/// What reading a list of lines leaves in the fields: an error exactly on a
/// bad line, and otherwise each field set exactly when some line sets its key.
proof fn lemma_apply_lines_shape(ls: Seq<Seq<char>>)
    ensures
        apply_config_lines(ls) is Err <==> has_bad_line(ls),
        apply_config_lines(ls) matches Ok(st) ==> {
            &&& (st.lean_home is Some <==> names_key(ls, "lean_home"@))
            &&& (st.lean_lib_dir is Some <==> names_key(ls, "lean_lib_dir"@))
            &&& (st.lean_include_dir is Some <==> names_key(ls, "lean_include_dir"@))
            &&& (st.version is Some <==> names_key(ls, "version"@))
            &&& (st.shared is Some <==> names_key(ls, "shared"@))
            &&& (st.allocator is Some <==> names_key(ls, "allocator"@))
            &&& (st.pointer_width is Some <==> names_key(ls, "pointer_width"@))
        },
    decreases ls.len(),
{
    lemma_key_names();
    if ls.len() == 0 {
        assert(!has_bad_line(ls));
        assert(!names_key(ls, "lean_home"@));
        assert(!names_key(ls, "lean_lib_dir"@));
        assert(!names_key(ls, "lean_include_dir"@));
        assert(!names_key(ls, "version"@));
        assert(!names_key(ls, "shared"@));
        assert(!names_key(ls, "allocator"@));
        assert(!names_key(ls, "pointer_width"@));
    } else {
        let p = ls.drop_last();
        let l = ls.last();
        lemma_apply_lines_shape(p);
        assert forall|i: int| 0 <= i < p.len() implies p[i] == ls[i] by {}
        assert(ls[ls.len() - 1] == l);
        assert(has_bad_line(ls) <==> (has_bad_line(p) || bad_config_line(l))) by {
            if has_bad_line(ls) {
                let i = choose|i: int| 0 <= i < ls.len() && #[trigger] bad_config_line(ls[i]);
                if i < p.len() {
                    assert(bad_config_line(p[i]));
                }
            }
            if has_bad_line(p) {
                let i = choose|i: int| 0 <= i < p.len() && #[trigger] bad_config_line(p[i]);
                assert(bad_config_line(ls[i]));
            }
        }
        assert forall|k: Seq<char>| #[trigger] names_key(ls, k) <==> (names_key(p, k) || line_sets_key(l, k)) by {
            if names_key(ls, k) {
                let i = choose|i: int| 0 <= i < ls.len() && #[trigger] line_sets_key(ls[i], k);
                if i < p.len() {
                    assert(line_sets_key(p[i], k));
                }
            }
            if names_key(p, k) {
                let i = choose|i: int| 0 <= i < p.len() && #[trigger] line_sets_key(p[i], k);
                assert(line_sets_key(ls[i], k));
            }
        }
    }
}

/// Law: reading a configuration text fails exactly when some line, trimmed,
/// is non-blank and has no `=` or gives `version`, `allocator` or a non-empty
/// `pointer_width` a value that does not parse, or when one of `lean_home`,
/// `lean_lib_dir`, `lean_include_dir`, `version`, `shared` and
/// `pointer_width` is never set. A missing `allocator` is never an error: it
/// is left to detection exactly when no line sets it.
pub proof fn lemma_config_read_errors(text: Seq<char>)
    ensures
        ({
            let ls = split_char(text, '\n');
            &&& read_config_spec(text) is Err <==> (has_bad_line(ls) || !names_key(ls, "lean_home"@)
                || !names_key(ls, "lean_lib_dir"@) || !names_key(ls, "lean_include_dir"@)
                || !names_key(ls, "version"@) || !names_key(ls, "shared"@) || !names_key(
                ls,
                "pointer_width"@,
            ))
            &&& read_config_spec(text) matches Ok(st) ==> (st.allocator is None <==> !names_key(
                ls,
                "allocator"@,
            ))
        }),
{
    lemma_apply_lines_shape(split_char(text, '\n'));
}

/// Reading a line that sets a key nobody reads changes nothing.
proof fn lemma_unknown_line_ignored(a: Seq<Seq<char>>, x: Seq<char>, b: Seq<Seq<char>>)
    requires
        unknown_key_line(x),
    ensures
        apply_config_lines(a.push(x) + b) == apply_config_lines(a + b),
    decreases b.len(),
{
    lemma_key_names();
    if b.len() == 0 {
        assert(a.push(x) + b =~= a.push(x));
        assert(a + b =~= a);
        assert(a.push(x).drop_last() =~= a);
    } else {
        lemma_unknown_line_ignored(a, x, b.drop_last());
        assert((a.push(x) + b).drop_last() =~= a.push(x) + b.drop_last());
        assert((a + b).drop_last() =~= a + b.drop_last());
        assert((a.push(x) + b).last() == b.last());
        assert((a + b).last() == b.last());
    }
}

/// A line that, trimmed, is `k=v` with a key `k` that the text form does not
/// know.
pub open spec fn unknown_key_line(x: Seq<char>) -> bool {
    let t = trim(x);
    &&& t.len() > 0
    &&& split_char(t, '=').len() >= 2
    &&& line_key(t) != "lean_home"@
    &&& line_key(t) != "lean_lib_dir"@
    &&& line_key(t) != "lean_include_dir"@
    &&& line_key(t) != "version"@
    &&& line_key(t) != "shared"@
    &&& line_key(t) != "allocator"@
    &&& line_key(t) != "pointer_width"@
}

/// Law: inserting a line `k=v` whose key `k` the text form does not know
/// (at the start of the text or after any newline) changes nothing read:
/// the same error, or the same fields.
pub proof fn lemma_unknown_key_inserted(p: Seq<char>, x: Seq<char>, q: Seq<char>)
    requires
        p.len() == 0 || p.last() == '\n',
        forall|i: int| 0 <= i < x.len() ==> x[i] != '\n',
        unknown_key_line(x),
    ensures
        read_config_spec(p + x + seq!['\n'] + q) == read_config_spec(p + q),
{
    lemma_split_char_no_sep(x, '\n');
    lemma_split_char_concat(x, '\n', q);
    let sx = split_char(x + seq!['\n'] + q, '\n');
    assert(sx == seq![x] + split_char(q, '\n'));
    if p.len() == 0 {
        assert(p + x + seq!['\n'] + q =~= x + seq!['\n'] + q);
        assert(p + q =~= q);
        lemma_unknown_line_ignored(Seq::empty(), x, split_char(q, '\n'));
        assert(Seq::<Seq<char>>::empty().push(x) + split_char(q, '\n') =~= sx);
        assert(Seq::<Seq<char>>::empty() + split_char(q, '\n') =~= split_char(q, '\n'));
    } else {
        let p0 = p.drop_last();
        assert(p =~= p0 + seq!['\n']);
        assert(p + x + seq!['\n'] + q =~= p0 + seq!['\n'] + (x + seq!['\n'] + q));
        assert(p + q =~= p0 + seq!['\n'] + q);
        lemma_split_char_concat(p0, '\n', x + seq!['\n'] + q);
        lemma_split_char_concat(p0, '\n', q);
        let a = split_char(p0, '\n');
        lemma_unknown_line_ignored(a, x, split_char(q, '\n'));
        assert(a + sx =~= a.push(x) + split_char(q, '\n'));
    }
}

proof fn lemma_apply_lines_err_extends(ls: Seq<Seq<char>>, k: int)
    requires
        0 <= k <= ls.len(),
        apply_config_lines(ls.take(k)) is Err,
    ensures
        apply_config_lines(ls) == apply_config_lines(ls.take(k)),
    decreases ls.len() - k,
{
    if k < ls.len() {
        assert(ls.take(k + 1).drop_last() =~= ls.take(k));
        lemma_apply_lines_err_extends(ls, k + 1);
    } else {
        assert(ls.take(k) =~= ls);
    }
}

// ---------------------------------------------------------------------------
// Hex transport for Cargo `DEP_*` variables
// ---------------------------------------------------------------------------

/// Lower-case hex text of some bytes, two digits per byte, high nibble first.
pub open spec fn hex_text(b: Seq<u8>) -> Seq<char>
    decreases b.len(),
{
    if b.len() == 0 {
        Seq::empty()
    } else {
        hex_text(b.drop_last()) + seq![
            hex_digit((b.last() / 16) as nat),
            hex_digit((b.last() % 16) as nat),
        ]
    }
}

/// The value of a hex digit byte (either case).
pub open spec fn hex_nibble_spec(b: u8) -> Option<u8> {
    if 48 <= b <= 57 {
        Some((b - 48) as u8)
    } else if 97 <= b <= 102 {
        Some((b - 97 + 10) as u8)
    } else if 65 <= b <= 70 {
        Some((b - 65 + 10) as u8)
    } else {
        None
    }
}

/// Decoding whole pairs of hex digits; the first bad byte (high nibble
/// before low) is the error.
pub open spec fn hex_pairs(h: Seq<u8>) -> Result<Seq<u8>, ConfigErrorView>
    decreases h.len(),
{
    if h.len() < 2 {
        Ok(Seq::empty())
    } else {
        match hex_pairs(h.take(h.len() - 2)) {
            Err(e) => Err(e),
            Ok(acc) => match hex_nibble_spec(h[h.len() - 2]) {
                None => Err(ConfigErrorView::InvalidHexChar(h[h.len() - 2])),
                Some(hi) => match hex_nibble_spec(h[h.len() - 1]) {
                    None => Err(ConfigErrorView::InvalidHexChar(h[h.len() - 1])),
                    Some(lo) => Ok(acc.push((hi * 16 + lo) as u8)),
                },
            },
        }
    }
}

/// Decoding hex text given as bytes: an odd length is an error.
pub open spec fn hex_decode_spec(h: Seq<u8>) -> Result<Seq<u8>, ConfigErrorView> {
    if h.len() % 2 == 1 {
        Err(ConfigErrorView::OddHexLength)
    } else {
        hex_pairs(h)
    }
}

fn hex_digit_of(d: u8) -> (c: char)
    requires
        d < 16,
    ensures
        c == hex_digit(d as nat),
{
    if d < 10 {
        (48 + d) as char
    } else {
        (97 + d - 10) as char
    }
}

/// Encode bytes as lower-case hex.
pub fn hex_encode(bytes: &[u8]) -> (r: String)
    ensures
        r@ == hex_text(bytes@),
{
    let mut out = String::new();
    let mut i: usize = 0;
    assert(bytes@.take(0) =~= Seq::<u8>::empty());
    while i < bytes.len()
        invariant
            i <= bytes.len(),
            out@ == hex_text(bytes@.take(i as int)),
        decreases bytes.len() - i,
    {
        let b = bytes[i];
        crate::text::push_char(&mut out, hex_digit_of(b / 16));
        crate::text::push_char(&mut out, hex_digit_of(b % 16));
        assert(bytes@.take(i + 1).drop_last() =~= bytes@.take(i as int));
        assert(bytes@.take(i + 1).last() == b);
        assert(out@ =~= hex_text(bytes@.take(i + 1)));
        i = i + 1;
    }
    assert(bytes@.take(bytes.len() as int) =~= bytes@);
    out
}

/// The value of one hex digit byte.
pub fn hex_nibble(b: u8) -> (r: Result<u8, ConfigError>)
    ensures
        match hex_nibble_spec(b) {
            Some(v) => r matches Ok(x) && x == v,
            None => r matches Err(e) && e@ == ConfigErrorView::InvalidHexChar(b),
        },
{
    if 48 <= b && b <= 57 {
        Ok(b - 48)
    } else if 97 <= b && b <= 102 {
        Ok(b - 97 + 10)
    } else if 65 <= b && b <= 70 {
        Ok(b - 65 + 10)
    } else {
        Err(ConfigError::InvalidHexChar(b))
    }
}

proof fn lemma_hex_pairs_err_extends(h: Seq<u8>, k: int)
    requires
        0 <= k <= h.len(),
        k % 2 == 0,
        h.len() % 2 == 0,
        hex_pairs(h.take(k)) is Err,
    ensures
        hex_pairs(h) == hex_pairs(h.take(k)),
    decreases h.len() - k,
{
    if k < h.len() {
        assert(h.take(k + 2).take(k) =~= h.take(k));
        lemma_hex_pairs_err_extends(h, k + 2);
    } else {
        assert(h.take(k) =~= h);
    }
}

/// Decode hex text (either case) into bytes.
pub fn hex_decode(hex: &str) -> (r: Result<Vec<u8>, ConfigError>)
    ensures
        match hex_decode_spec(encode_utf8(hex@)) {
            Ok(b) => r matches Ok(v) && v@ == b,
            Err(e) => r matches Err(x) && x@ == e,
        },
{
    let bytes = hex.as_bytes();
    let ghost h = bytes@;
    if bytes.len() % 2 == 1 {
        return Err(ConfigError::OddHexLength);
    }
    let mut out: Vec<u8> = Vec::new();
    let mut i: usize = 0;
    assert(h.take(0) =~= Seq::<u8>::empty());
    while i < bytes.len()
        invariant
            h == bytes@,
            h == encode_utf8(hex@),
            h.len() % 2 == 0,
            i <= bytes.len(),
            i % 2 == 0,
            hex_pairs(h.take(i as int)) == Ok::<Seq<u8>, ConfigErrorView>(out@),
        decreases bytes.len() - i,
    {
        let ghost prefix = h.take(i + 2);
        assert(prefix.take(prefix.len() - 2) =~= h.take(i as int));
        assert(prefix[prefix.len() - 2] == bytes@[i as int]);
        assert(prefix[prefix.len() - 1] == bytes@[i + 1]);
        let hi = match hex_nibble(bytes[i]) {
            Ok(v) => v,
            Err(e) => {
                proof {
                    lemma_hex_pairs_err_extends(h, i + 2);
                }
                return Err(e);
            },
        };
        let lo = match hex_nibble(bytes[i + 1]) {
            Ok(v) => v,
            Err(e) => {
                proof {
                    lemma_hex_pairs_err_extends(h, i + 2);
                }
                return Err(e);
            },
        };
        out.push(hi * 16 + lo);
        i = i + 2;
    }
    assert(h.take(bytes.len() as int) =~= h);
    Ok(out)
}

/// The byte codes of hex text.
pub open spec fn hex_code_bytes(b: Seq<u8>) -> Seq<u8>
    decreases b.len(),
{
    if b.len() == 0 {
        Seq::empty()
    } else {
        hex_code_bytes(b.drop_last()) + seq![
            hex_digit((b.last() / 16) as nat) as u8,
            hex_digit((b.last() % 16) as nat) as u8,
        ]
    }
}

proof fn lemma_hex_digit(d: nat)
    requires
        d < 16,
    ensures
        (hex_digit(d) as u8) == (if d < 10 {
            48 + d
        } else {
            87 + d
        }),
        '\0' <= hex_digit(d) <= '\u{7f}',
        hex_nibble_spec(hex_digit(d) as u8) == Some(d as u8),
{
}

proof fn lemma_hex_text_codes(b: Seq<u8>)
    ensures
        hex_text(b).len() == 2 * b.len(),
        hex_code_bytes(b).len() == 2 * b.len(),
        forall|i: int| 0 <= i < hex_text(b).len() ==> '\0' <= #[trigger] hex_text(b)[i] <= '\u{7f}',
        forall|i: int|
            0 <= i < hex_text(b).len() ==> (#[trigger] hex_text(b)[i]) as u8 == hex_code_bytes(
                b,
            )[i],
    decreases b.len(),
{
    if b.len() > 0 {
        lemma_hex_text_codes(b.drop_last());
        lemma_hex_digit((b.last() / 16) as nat);
        lemma_hex_digit((b.last() % 16) as nat);
        let t = hex_text(b);
        let p = hex_text(b.drop_last());
        assert forall|i: int| 0 <= i < t.len() implies '\0' <= #[trigger] t[i] <= '\u{7f}' && (
        t[i] as u8) == hex_code_bytes(b)[i] by {
            if i < p.len() {
                assert(t[i] == p[i]);
                assert(hex_code_bytes(b)[i] == hex_code_bytes(b.drop_last())[i]);
            }
        }
    }
}

proof fn lemma_hex_pairs_codes(b: Seq<u8>)
    ensures
        hex_pairs(hex_code_bytes(b)) == Ok::<Seq<u8>, ConfigErrorView>(b),
    decreases b.len(),
{
    lemma_hex_text_codes(b);
    if b.len() > 0 {
        lemma_hex_pairs_codes(b.drop_last());
        lemma_hex_text_codes(b.drop_last());
        let h = hex_code_bytes(b);
        assert(h.take(h.len() - 2) =~= hex_code_bytes(b.drop_last()));
        let x = b.last();
        lemma_hex_digit((x / 16) as nat);
        lemma_hex_digit((x % 16) as nat);
        assert(h[h.len() - 2] == hex_digit((x / 16) as nat) as u8);
        assert(h[h.len() - 1] == hex_digit((x % 16) as nat) as u8);
        assert(((x / 16) * 16 + x % 16) as u8 == x);
        assert(hex_pairs(h) == Ok::<Seq<u8>, ConfigErrorView>(b.drop_last().push(x)));
        assert(b.drop_last().push(b.last()) =~= b);
    } else {
        assert(hex_code_bytes(b) =~= Seq::<u8>::empty());
        assert(b =~= Seq::<u8>::empty());
    }
}

/// Law: hex-encoding bytes and decoding the text gives the bytes back.
pub proof fn lemma_hex_roundtrip(b: Seq<u8>)
    ensures
        hex_decode_spec(encode_utf8(hex_text(b))) == Ok::<Seq<u8>, ConfigErrorView>(b),
{
    lemma_hex_text_codes(b);
    let t = hex_text(b);
    assert(vstd::utf8::is_ascii_chars(t));
    vstd::utf8::is_ascii_chars_encode_utf8(t);
    assert(encode_utf8(t) =~= hex_code_bytes(b));
    lemma_hex_pairs_codes(b);
}

/// Whether a byte is a hex digit (either case).
pub open spec fn is_hex_byte(b: u8) -> bool {
    hex_nibble_spec(b) is Some
}

/// The byte a pair of hex digits stands for, the first the high nibble.
pub open spec fn hex_pair_value(hi: u8, lo: u8) -> int {
    16 * (hex_nibble_spec(hi)->Some_0 as int) + (hex_nibble_spec(lo)->Some_0 as int)
}

/// Law: the hex text of some bytes has two lower-case hex digits per byte,
/// and each pair decodes (high digit first) to its byte.
pub proof fn lemma_hex_text_pairs(b: Seq<u8>)
    ensures
        hex_text(b).len() == 2 * b.len(),
        forall|i: int|
            0 <= i < hex_text(b).len() ==> ('0' <= #[trigger] hex_text(b)[i] <= '9' || 'a'
                <= hex_text(b)[i] <= 'f'),
        forall|i: int|
            0 <= i < b.len() ==> (is_hex_byte(hex_text(b)[2 * i] as u8) && is_hex_byte(
                hex_text(b)[2 * i + 1] as u8,
            ) && #[trigger] b[i] == hex_pair_value(hex_text(b)[2 * i] as u8, hex_text(b)[2 * i + 1] as u8)),
    decreases b.len(),
{
    lemma_hex_text_codes(b);
    if b.len() > 0 {
        let p = b.drop_last();
        lemma_hex_text_pairs(p);
        let x = b.last();
        lemma_hex_digit((x / 16) as nat);
        lemma_hex_digit((x % 16) as nat);
        let t = hex_text(b);
        let pt = hex_text(p);
        assert(t == pt + seq![hex_digit((x / 16) as nat), hex_digit((x % 16) as nat)]);
        assert forall|i: int| 0 <= i < t.len() implies ('0' <= #[trigger] t[i] <= '9' || 'a' <= t[i]
            <= 'f') by {
            if i < pt.len() {
                assert(t[i] == pt[i]);
            }
        }
        assert forall|i: int| 0 <= i < b.len() implies (is_hex_byte(t[2 * i] as u8) && is_hex_byte(
            t[2 * i + 1] as u8,
        ) && #[trigger] b[i] == hex_pair_value(t[2 * i] as u8, t[2 * i + 1] as u8)) by {
            if i < p.len() {
                assert(t[2 * i] == pt[2 * i]);
                assert(t[2 * i + 1] == pt[2 * i + 1]);
                assert(b[i] == p[i]);
            } else {
                assert(i == p.len());
                assert(t[2 * i] == hex_digit((x / 16) as nat));
                assert(t[2 * i + 1] == hex_digit((x % 16) as nat));
            }
        }
    }
}

proof fn lemma_hex_pairs_shape(h: Seq<u8>)
    requires
        h.len() % 2 == 0,
    ensures
        hex_pairs(h) is Ok <==> (forall|j: int| 0 <= j < h.len() ==> #[trigger] is_hex_byte(h[j])),
        hex_pairs(h) matches Ok(v) ==> v.len() == h.len() / 2 && forall|i: int|
            0 <= i < v.len() ==> (is_hex_byte(h[2 * i]) && is_hex_byte(h[2 * i + 1]) && #[trigger] v[i] == hex_pair_value(h[2 * i], h[2 * i + 1])),
    decreases h.len(),
{
    if h.len() >= 2 {
        let q = h.take(h.len() - 2);
        lemma_hex_pairs_shape(q);
        assert forall|j: int| 0 <= j < q.len() implies q[j] == h[j] by {}
        if hex_pairs(h) is Ok {
            let v = hex_pairs(h)->Ok_0;
            let acc = hex_pairs(q)->Ok_0;
            assert forall|j: int| 0 <= j < h.len() implies #[trigger] is_hex_byte(h[j]) by {
                if j < q.len() {
                    assert(is_hex_byte(q[j]));
                }
            }
            assert forall|i: int| 0 <= i < v.len() implies (is_hex_byte(h[2 * i]) && is_hex_byte(h[2 * i + 1]) && #[trigger] v[i] == hex_pair_value(h[2 * i], h[2 * i + 1])) by {
                if i < acc.len() {
                    assert(v[i] == acc[i]);
                    assert(h[2 * i] == q[2 * i]);
                    assert(h[2 * i + 1] == q[2 * i + 1]);
                }
            }
        } else {
            if forall|j: int| 0 <= j < h.len() ==> #[trigger] is_hex_byte(h[j]) {
                assert forall|j: int| 0 <= j < q.len() implies #[trigger] is_hex_byte(q[j]) by {
                    assert(is_hex_byte(h[j]));
                }
                assert(is_hex_byte(h[h.len() - 2]));
                assert(is_hex_byte(h[h.len() - 1]));
            }
        }
    } else {
        assert(h.len() == 0);
    }
}

/// Law: hex decoding succeeds exactly on text of even length made of hex
/// digits (either case), and then gives one byte per pair of digits, the
/// first digit the high nibble.
pub proof fn lemma_hex_decode_shape(h: Seq<u8>)
    ensures
        hex_decode_spec(h) is Ok <==> (h.len() % 2 == 0 && forall|j: int|
            0 <= j < h.len() ==> #[trigger] is_hex_byte(h[j])),
        hex_decode_spec(h) matches Ok(v) ==> v.len() == h.len() / 2 && forall|i: int|
            0 <= i < v.len() ==> (is_hex_byte(h[2 * i]) && is_hex_byte(h[2 * i + 1]) && #[trigger] v[i] == hex_pair_value(h[2 * i], h[2 * i + 1])),
{
    if h.len() % 2 == 0 {
        lemma_hex_pairs_shape(h);
    }
}

// ---------------------------------------------------------------------------
// Transport through Cargo `DEP_*` variables
// ---------------------------------------------------------------------------

/// Reading a configuration from its hex transport: hex decoding, then UTF-8
/// decoding, then the text form.
pub open spec fn dep_env_spec(hex: Seq<char>) -> Result<ConfigFields, ConfigErrorView> {
    match hex_decode_spec(encode_utf8(hex)) {
        Err(e) => Err(e),
        Ok(b) => read_config_bytes_spec(b),
    }
}

/// The fields of `s` separated by the byte `c`.
pub open spec fn split_byte(s: Seq<u8>, c: u8) -> Seq<Seq<u8>>
    decreases s.len(),
{
    if s.len() == 0 {
        seq![Seq::empty()]
    } else {
        let p = split_byte(s.drop_last(), c);
        if s.last() == c {
            p.push(Seq::empty())
        } else {
            p.update(p.len() - 1, p.last().push(s.last()))
        }
    }
}

proof fn lemma_split_byte_nonempty(s: Seq<u8>, c: u8)
    ensures
        split_byte(s, c).len() >= 1,
    decreases s.len(),
{
    if s.len() > 0 {
        lemma_split_byte_nonempty(s.drop_last(), c);
    }
}

/// The byte lines of `s` (separated by `\n`).
fn split_byte_lines(s: &[u8]) -> (r: Vec<Vec<u8>>)
    ensures
        r@.map_values(|f: Vec<u8>| f@) == split_byte(s@, 10u8),
{
    let mut cur: Vec<u8> = Vec::new();
    let mut done: Vec<Vec<u8>> = Vec::new();
    let mut i: usize = 0;
    assert(s@.take(0) =~= Seq::<u8>::empty());
    assert(done@.map_values(|f: Vec<u8>| f@).push(cur@) =~= seq![Seq::<u8>::empty()]);
    while i < s.len()
        invariant
            i <= s.len(),
            done@.map_values(|f: Vec<u8>| f@).push(cur@) == split_byte(s@.take(i as int), 10u8),
        decreases s.len() - i,
    {
        let ghost p = split_byte(s@.take(i as int), 10u8);
        assert(s@.take(i + 1).drop_last() =~= s@.take(i as int));
        assert(s@.take(i + 1).last() == s@[i as int]);
        proof {
            lemma_split_byte_nonempty(s@.take(i as int), 10u8);
        }
        if s[i] == 10u8 {
            let finished = cur;
            let ghost dv = done@.map_values(|f: Vec<u8>| f@);
            done.push(finished);
            cur = Vec::new();
            assert(done@.map_values(|f: Vec<u8>| f@) =~= dv.push(finished@));
            assert(done@.map_values(|f: Vec<u8>| f@).push(cur@) =~= p.push(Seq::empty()));
        } else {
            let ghost dv = done@.map_values(|f: Vec<u8>| f@);
            cur.push(s[i]);
            assert(dv.push(cur@) =~= p.update(p.len() - 1, p.last().push(s@[i as int])));
        }
        i = i + 1;
    }
    assert(s@.take(s.len() as int) =~= s@);
    let ghost dv = done@.map_values(|f: Vec<u8>| f@);
    done.push(cur);
    assert(done@.map_values(|f: Vec<u8>| f@) =~= dv.push(cur@));
    done
}

/// The index of the first line from `i` on that is not valid UTF-8 (the
/// number of lines when there is none).
pub open spec fn first_invalid_line(ls: Seq<Seq<u8>>, i: int) -> int
    decreases ls.len() - i,
{
    if i < 0 || i >= ls.len() {
        ls.len() as int
    } else if !valid_utf8(ls[i]) {
        i
    } else {
        first_invalid_line(ls, i + 1)
    }
}

proof fn lemma_first_invalid_at_least(ls: Seq<Seq<u8>>, i: int)
    requires
        0 <= i <= ls.len(),
    ensures
        i <= first_invalid_line(ls, i) <= ls.len(),
    decreases ls.len() - i,
{
    if i < ls.len() && valid_utf8(ls[i]) {
        lemma_first_invalid_at_least(ls, i + 1);
    }
}

/// The text of the I/O error a line reader gives on a line that is not
/// valid UTF-8.
pub open spec fn stream_utf8_error() -> Seq<char> {
    "stream did not contain valid UTF-8"@
}

/// Reading the text form from bytes line by line: valid UTF-8 reads as its
/// text; otherwise the lines before the first one that is not valid UTF-8
/// are applied (their own error comes first) and that line is the error.
pub open spec fn read_config_bytes_spec(b: Seq<u8>) -> Result<ConfigFields, ConfigErrorView> {
    if valid_utf8(b) {
        read_config_spec(decode_utf8(b))
    } else {
        let ls = split_byte(b, 10u8);
        let k = first_invalid_line(ls, 0);
        match apply_config_lines(ls.take(k).map_values(|l: Seq<u8>| decode_utf8(l))) {
            Err(e) => Err(e),
            Ok(_) => Err(ConfigErrorView::NotUtf8(stream_utf8_error())),
        }
    }
}

/// The error of reading bytes that are not valid UTF-8, line by line.
fn read_invalid_stream(bytes: &[u8]) -> (r: ConfigError)
    requires
        !valid_utf8(bytes@),
    ensures
        read_config_bytes_spec(bytes@) == Err::<ConfigFields, ConfigErrorView>(r@),
{
    let lines = split_byte_lines(bytes);
    let ghost ls = split_byte(bytes@, 10u8);
    let ghost k = first_invalid_line(ls, 0);
    let ghost dl = ls.take(k).map_values(|l: Seq<u8>| decode_utf8(l));
    let mut st = FieldsExec {
        lean_home: None,
        lean_lib_dir: None,
        lean_include_dir: None,
        version: None,
        shared: None,
        allocator: None,
        pointer_width: None,
    };
    let mut i: usize = 0;
    assert(ls.take(0).map_values(|l: Seq<u8>| decode_utf8(l)) =~= Seq::<Seq<char>>::empty());
    while i < lines.len()
        invariant
            !valid_utf8(bytes@),
            lines@.map_values(|f: Vec<u8>| f@) == ls,
            ls == split_byte(bytes@, 10u8),
            k == first_invalid_line(ls, 0),
            dl == ls.take(k).map_values(|l: Seq<u8>| decode_utf8(l)),
            i <= lines.len(),
            first_invalid_line(ls, i as int) == k,
            apply_config_lines(ls.take(i as int).map_values(|l: Seq<u8>| decode_utf8(l))) == Ok::<
                ConfigFields,
                ConfigErrorView,
            >(st.fields()),
        decreases lines.len() - i,
    {
        assert(ls[i as int] == lines@[i as int]@);
        match utf8_to_string(lines[i].as_slice()) {
            Err(_) => {
                assert(k == i);
                return ConfigError::NotUtf8(owned("stream did not contain valid UTF-8"));
            },
            Ok(text) => {
                let cs = chars_of(text.as_str());
                let ghost prev = ls.take(i as int).map_values(|l: Seq<u8>| decode_utf8(l));
                let ghost next = ls.take(i + 1).map_values(|l: Seq<u8>| decode_utf8(l));
                assert(next =~= prev.push(cs@));
                assert(next.drop_last() =~= prev);
                let res = apply_line_exec(&mut st, &cs);
                match res {
                    Ok(()) => {},
                    Err(e) => {
                        proof {
                            lemma_first_invalid_at_least(ls, i + 1);
                            assert(k >= i + 1);
                            assert(dl.take(i + 1) =~= next);
                            lemma_apply_lines_err_extends(dl, i + 1);
                        }
                        return e;
                    },
                }
            },
        }
        i = i + 1;
    }
    assert(k == ls.len());
    assert(ls.take(ls.len() as int) =~= ls);
    ConfigError::NotUtf8(owned("stream did not contain valid UTF-8"))
}

impl LeanConfig {
    /// Hex-encode the text form for transport in a Cargo `DEP_*` variable.
    pub fn to_cargo_dep_env(&self) -> (r: String)
        ensures
            r@ == hex_text(encode_utf8(config_text(self@))),
    {
        let mut text = String::new();
        self.to_writer(&mut text);
        assert(text@ =~= config_text(self@));
        hex_encode(text.as_str().as_bytes())
    }

    /// Decode a configuration produced by [`LeanConfig::to_cargo_dep_env`].
    pub fn from_cargo_dep_env<F: Fn(&String) -> LeanAllocator>(hex: &str, detect: F) -> (r: Result<
        LeanConfig,
        ConfigError,
    >)
        requires
            forall|s: &String| #[trigger] detect.requires((s,)),
        ensures
            match dep_env_spec(hex@) {
                Ok(st) => r matches Ok(c) && config_matches_fields(c@, st) && (st.allocator is None
                    ==> detect.ensures((&c.lean_include_dir,), c.allocator)),
                Err(e) => r matches Err(x) && x@ == e,
            },
    {
        let bytes = hex_decode(hex)?;
        match utf8_to_string(bytes.as_slice()) {
            Err(_) => Err(read_invalid_stream(bytes.as_slice())),
            Ok(text) => LeanConfig::from_reader(text.as_str(), detect),
        }
    }
}

// ---------------------------------------------------------------------------
// Round trip of the text form
// ---------------------------------------------------------------------------

/// A path that survives the line-oriented text form: no newline, and no
/// trailing white space (lines are trimmed when read).
pub open spec fn text_safe(p: Seq<char>) -> bool {
    &&& forall|i: int| 0 <= i < p.len() ==> p[i] != '\n'
    &&& (p.len() == 0 || !is_white_space(p.last()))
}

/// Lines, each followed by a newline.
pub open spec fn lines_text(ls: Seq<Seq<char>>) -> Seq<char>
    decreases ls.len(),
{
    if ls.len() == 0 {
        Seq::empty()
    } else {
        ls[0] + seq!['\n'] + lines_text(ls.drop_first())
    }
}

proof fn lemma_split_lines_text(ls: Seq<Seq<char>>)
    requires
        forall|k: int, i: int|
            0 <= k < ls.len() && 0 <= i < ls[k].len() ==> (#[trigger] ls[k][i]) != '\n',
    ensures
        split_char(lines_text(ls), '\n') == ls.push(Seq::empty()),
    decreases ls.len(),
{
    if ls.len() == 0 {
        assert(split_char(lines_text(ls), '\n') =~= seq![Seq::<char>::empty()]);
        assert(ls.push(Seq::empty()) =~= seq![Seq::<char>::empty()]);
    } else {
        let rest = ls.drop_first();
        assert forall|k: int, i: int|
            0 <= k < rest.len() && 0 <= i < rest[k].len() implies (#[trigger] rest[k][i]) != '\n' by {
            assert(rest[k] == ls[k + 1]);
        }
        lemma_split_lines_text(rest);
        assert forall|i: int| 0 <= i < ls[0].len() implies ls[0][i] != '\n' by {
            assert(ls[0][i] == ls[0][i]);
        }
        lemma_split_char_no_sep(ls[0], '\n');
        lemma_split_char_concat(ls[0], '\n', lines_text(rest));
        assert(seq![ls[0]] + rest.push(Seq::empty()) =~= ls.push(Seq::empty()));
    }
}

proof fn lemma_trim_clean(t: Seq<char>)
    requires
        t.len() > 0,
        !is_white_space(t[0]),
        !is_white_space(t.last()),
    ensures
        trim(t) == t,
{
    assert(trim_start(t) == t);
    assert(trim_end(t) == t);
}

/// Facts about a `name=value` line whose name is plain text.
proof fn lemma_line_fields(name: Seq<char>, v: Seq<char>)
    requires
        name.len() > 0,
        forall|i: int|
            0 <= i < name.len() ==> 'a' <= #[trigger] name[i] <= 'z' || name[i] == '_',
        text_safe(v),
    ensures
        trim(name + seq!['='] + v) == name + seq!['='] + v,
        split_char(name + seq!['='] + v, '=').len() >= 2,
        line_key(name + seq!['='] + v) == name,
        line_value(name + seq!['='] + v) == v,
        forall|st: ConfigFields|
            #[trigger] apply_config_line(st, name + seq!['='] + v) == apply_key_value(st, name, v),
        forall|i: int|
            0 <= i < (name + seq!['='] + v).len() ==> (#[trigger] (name + seq!['='] + v)[i]) != '\n',
{
    let t = name + seq!['='] + v;
    assert(t[0] == name[0]);
    assert('a' <= name[0] <= 'z' || name[0] == '_');
    if v.len() > 0 {
        assert(t.last() == v.last());
    } else {
        assert(t.last() == '=');
    }
    lemma_trim_clean(t);
    assert forall|i: int| 0 <= i < name.len() implies name[i] != '=' by {
        assert('a' <= name[i] <= 'z' || name[i] == '_');
    }
    lemma_split_char_no_sep(name, '=');
    lemma_split_char_concat(name, '=', v);
    crate::text::lemma_split_char_nonempty(v, '=');
    assert(t.skip(name.len() + 1int) =~= v);
    assert forall|i: int| 0 <= i < t.len() implies (#[trigger] t[i]) != '\n' by {
        if i < name.len() {
            assert(t[i] == name[i]);
            assert('a' <= name[i] <= 'z' || name[i] == '_');
        } else if i > name.len() {
            assert(t[i] == v[i - name.len() - 1]);
        }
    }
}

proof fn lemma_digits_text_safe(n: nat)
    ensures
        text_safe(decimal_digits(n)),
        decimal_digits(n).len() > 0,
{
    lemma_decimal_digits(n);
    let d = decimal_digits(n);
    assert forall|i: int| 0 <= i < d.len() implies d[i] != '\n' by {
        assert('0' <= d[i] <= '9');
    }
    assert('0' <= d[d.len() - 1] <= '9');
}

proof fn lemma_version_text_safe(v: LeanVersion)
    ensures
        text_safe(version_text(v)),
{
    lemma_digits_text_safe(v.major as nat);
    lemma_digits_text_safe(v.minor as nat);
    lemma_digits_text_safe(v.patch as nat);
    reveal_strlit(".");
    let t = version_text(v);
    let a = decimal_digits(v.major as nat);
    let b = decimal_digits(v.minor as nat);
    let c = decimal_digits(v.patch as nat);
    assert(t =~= a + seq!['.'] + b + seq!['.'] + c);
    assert forall|i: int| 0 <= i < t.len() implies t[i] != '\n' by {
        if i < a.len() {
            assert(t[i] == a[i]);
        } else if a.len() < i < a.len() + 1 + b.len() {
            assert(t[i] == b[i - a.len() - 1]);
        } else if i > a.len() + 1 + b.len() {
            assert(t[i] == c[i - a.len() - 2 - b.len()]);
        }
    }
    assert(t.last() == c.last());
}

/// The fields a configuration's text reads back as.
pub open spec fn fields_of(c: LeanConfigView) -> ConfigFields {
    ConfigFields {
        lean_home: Some(c.lean_home),
        lean_lib_dir: Some(c.lean_lib_dir),
        lean_include_dir: Some(c.lean_include_dir),
        version: Some(c.version),
        shared: Some(c.shared),
        allocator: Some(c.allocator),
        pointer_width: Some(c.pointer_width),
    }
}

/// The seven `name=value` lines of a configuration's text form.
pub open spec fn config_lines(c: LeanConfigView) -> Seq<Seq<char>> {
    seq![
        "lean_home"@ + seq!['='] + c.lean_home,
        "lean_lib_dir"@ + seq!['='] + c.lean_lib_dir,
        "lean_include_dir"@ + seq!['='] + c.lean_include_dir,
        "version"@ + seq!['='] + version_text(c.version),
        "shared"@ + seq!['='] + bool_text(c.shared),
        "allocator"@ + seq!['='] + allocator_text(c.allocator),
        "pointer_width"@ + seq!['='] + pointer_width_text(c.pointer_width),
    ]
}

proof fn lemma_config_text_lines(c: LeanConfigView)
    ensures
        config_text(c) == lines_text(config_lines(c)),
{
    reveal_strlit("lean_home=");
    reveal_strlit("lean_lib_dir=");
    reveal_strlit("lean_include_dir=");
    reveal_strlit("version=");
    reveal_strlit("shared=");
    reveal_strlit("allocator=");
    reveal_strlit("pointer_width=");
    reveal_strlit("lean_home");
    reveal_strlit("lean_lib_dir");
    reveal_strlit("lean_include_dir");
    reveal_strlit("version");
    reveal_strlit("shared");
    reveal_strlit("allocator");
    reveal_strlit("pointer_width");
    reveal_strlit("\n");
    let ls = config_lines(c);
    reveal_with_fuel(lines_text, 8);
    assert(ls.drop_first().drop_first().drop_first().drop_first().drop_first().drop_first().drop_first()
        =~= Seq::<Seq<char>>::empty());
    assert(config_line("lean_home="@, c.lean_home) =~= ls[0] + seq!['\n']);
    assert(config_line("lean_lib_dir="@, c.lean_lib_dir) =~= ls[1] + seq!['\n']);
    assert(config_line("lean_include_dir="@, c.lean_include_dir) =~= ls[2] + seq!['\n']);
    assert(config_line("version="@, version_text(c.version)) =~= ls[3] + seq!['\n']);
    assert(config_line("shared="@, bool_text(c.shared)) =~= ls[4] + seq!['\n']);
    assert(config_line("allocator="@, allocator_text(c.allocator)) =~= ls[5] + seq!['\n']);
    assert(config_line("pointer_width="@, pointer_width_text(c.pointer_width)) =~= ls[6] + seq![
        '\n',
    ]);
    assert(lines_text(ls) =~= config_text(c));
}

proof fn lemma_apply_lines_push(ls: Seq<Seq<char>>, x: Seq<char>)
    ensures
        apply_config_lines(ls.push(x)) == match apply_config_lines(ls) {
            Err(e) => Err(e),
            Ok(st) => apply_config_line(st, x),
        },
{
    assert(ls.push(x).drop_last() =~= ls);
}

proof fn lemma_key_names()
    ensures
        "lean_home"@.len() == 9,
        "lean_lib_dir"@.len() == 12,
        "lean_include_dir"@.len() == 16,
        "version"@.len() == 7,
        "shared"@.len() == 6,
        "allocator"@.len() == 9,
        "pointer_width"@.len() == 13,
        "lean_home"@ != "allocator"@,
        forall|i: int| 0 <= i < "lean_home"@.len() ==> 'a' <= #[trigger] "lean_home"@[i] <= 'z' || "lean_home"@[i] == '_',
        forall|i: int| 0 <= i < "lean_lib_dir"@.len() ==> 'a' <= #[trigger] "lean_lib_dir"@[i] <= 'z' || "lean_lib_dir"@[i] == '_',
        forall|i: int| 0 <= i < "lean_include_dir"@.len() ==> 'a' <= #[trigger] "lean_include_dir"@[i] <= 'z' || "lean_include_dir"@[i] == '_',
        forall|i: int| 0 <= i < "version"@.len() ==> 'a' <= #[trigger] "version"@[i] <= 'z' || "version"@[i] == '_',
        forall|i: int| 0 <= i < "shared"@.len() ==> 'a' <= #[trigger] "shared"@[i] <= 'z' || "shared"@[i] == '_',
        forall|i: int| 0 <= i < "allocator"@.len() ==> 'a' <= #[trigger] "allocator"@[i] <= 'z' || "allocator"@[i] == '_',
        forall|i: int| 0 <= i < "pointer_width"@.len() ==> 'a' <= #[trigger] "pointer_width"@[i] <= 'z' || "pointer_width"@[i] == '_',
{
    reveal_strlit("lean_home");
    reveal_strlit("lean_lib_dir");
    reveal_strlit("lean_include_dir");
    reveal_strlit("version");
    reveal_strlit("shared");
    reveal_strlit("allocator");
    reveal_strlit("pointer_width");
    assert("lean_home"@[0] != "allocator"@[0]);
}

proof fn lemma_keyed_paths(s0: ConfigFields, s1: ConfigFields, s2: ConfigFields, c: LeanConfigView)
    requires
        s1 == (ConfigFields { lean_home: Some(c.lean_home), ..s0 }),
        s2 == (ConfigFields { lean_lib_dir: Some(c.lean_lib_dir), ..s1 }),
    ensures
        apply_key_value(s0, "lean_home"@, c.lean_home) == Ok::<ConfigFields, ConfigErrorView>(s1),
        apply_key_value(s1, "lean_lib_dir"@, c.lean_lib_dir) == Ok::<ConfigFields, ConfigErrorView>(s2),
        apply_key_value(s2, "lean_include_dir"@, c.lean_include_dir) == Ok::<ConfigFields, ConfigErrorView>(
            ConfigFields { lean_include_dir: Some(c.lean_include_dir), ..s2 },
        ),
{
    lemma_key_names();
}

proof fn lemma_keyed_typed(s3: ConfigFields, c: LeanConfigView)
    ensures
        ({
            let s4 = ConfigFields { version: Some(c.version), ..s3 };
            let s5 = ConfigFields { shared: Some(c.shared), ..s4 };
            let s6 = ConfigFields { allocator: Some(c.allocator), ..s5 };
            let s7 = ConfigFields { pointer_width: Some(c.pointer_width), ..s6 };
            &&& apply_key_value(s3, "version"@, version_text(c.version)) == Ok::<ConfigFields, ConfigErrorView>(s4)
            &&& apply_key_value(s4, "shared"@, bool_text(c.shared)) == Ok::<ConfigFields, ConfigErrorView>(s5)
            &&& apply_key_value(s5, "allocator"@, allocator_text(c.allocator)) == Ok::<ConfigFields, ConfigErrorView>(s6)
            &&& apply_key_value(s6, "pointer_width"@, pointer_width_text(c.pointer_width)) == Ok::<ConfigFields, ConfigErrorView>(s7)
        }),
{
    lemma_key_names();
    reveal_strlit("true");
    reveal_strlit("false");
    lemma_version_text_roundtrip(c.version);
    lemma_allocator_roundtrip(c.allocator);
    if c.pointer_width is Some {
        lemma_parse_decimal(c.pointer_width->0);
        lemma_digits_text_safe(c.pointer_width->0 as nat);
    }
    assert(bool_text(c.shared) == "true"@ <==> c.shared) by {
        assert("true"@.len() != "false"@.len());
    }
}

proof fn lemma_values_text_safe(c: LeanConfigView)
    ensures
        text_safe(version_text(c.version)),
        text_safe(bool_text(c.shared)),
        text_safe(allocator_text(c.allocator)),
        text_safe(pointer_width_text(c.pointer_width)),
{
    reveal_strlit("true");
    reveal_strlit("false");
    reveal_strlit("small");
    reveal_strlit("mimalloc");
    reveal_strlit("system");
    lemma_version_text_safe(c.version);
    if c.pointer_width is Some {
        lemma_digits_text_safe(c.pointer_width->0 as nat);
    }
}

/// Each line of the text form has no newline and applies its own key and value.
proof fn lemma_config_lines_apply(c: LeanConfigView)
    requires
        text_safe(c.lean_home),
        text_safe(c.lean_lib_dir),
        text_safe(c.lean_include_dir),
    ensures
        ({
            let ls = config_lines(c);
            &&& forall|k: int, i: int|
                0 <= k < ls.len() && 0 <= i < ls[k].len() ==> (#[trigger] ls[k][i]) != '\n'
            &&& forall|st: ConfigFields| #[trigger] apply_config_line(st, ls[0]) == apply_key_value(st, "lean_home"@, c.lean_home)
            &&& forall|st: ConfigFields| #[trigger] apply_config_line(st, ls[1]) == apply_key_value(st, "lean_lib_dir"@, c.lean_lib_dir)
            &&& forall|st: ConfigFields| #[trigger] apply_config_line(st, ls[2]) == apply_key_value(st, "lean_include_dir"@, c.lean_include_dir)
            &&& forall|st: ConfigFields| #[trigger] apply_config_line(st, ls[3]) == apply_key_value(st, "version"@, version_text(c.version))
            &&& forall|st: ConfigFields| #[trigger] apply_config_line(st, ls[4]) == apply_key_value(st, "shared"@, bool_text(c.shared))
            &&& forall|st: ConfigFields| #[trigger] apply_config_line(st, ls[5]) == apply_key_value(st, "allocator"@, allocator_text(c.allocator))
            &&& forall|st: ConfigFields| #[trigger] apply_config_line(st, ls[6]) == apply_key_value(st, "pointer_width"@, pointer_width_text(c.pointer_width))
        }),
{
    lemma_key_names();
    lemma_values_text_safe(c);
    let ls = config_lines(c);
    lemma_line_fields("lean_home"@, c.lean_home);
    lemma_line_fields("lean_lib_dir"@, c.lean_lib_dir);
    lemma_line_fields("lean_include_dir"@, c.lean_include_dir);
    lemma_line_fields("version"@, version_text(c.version));
    lemma_line_fields("shared"@, bool_text(c.shared));
    lemma_line_fields("allocator"@, allocator_text(c.allocator));
    lemma_line_fields("pointer_width"@, pointer_width_text(c.pointer_width));
    assert forall|k: int, i: int| 0 <= k < ls.len() && 0 <= i < ls[k].len() implies (#[trigger] ls[k][i])
        != '\n' by {
        if k == 0 {
        } else if k == 1 {
        } else if k == 2 {
        } else if k == 3 {
        } else if k == 4 {
        } else if k == 5 {
        } else {
        }
    }
}

/// Law: the text form of a configuration reads back as the same fields
/// (paths must have no newline and no trailing white space).
#[verifier::spinoff_prover]
#[verifier::rlimit(40)]
pub proof fn lemma_config_text_roundtrip(c: LeanConfigView)
    requires
        text_safe(c.lean_home),
        text_safe(c.lean_lib_dir),
        text_safe(c.lean_include_dir),
    ensures
        read_config_spec(config_text(c)) == Ok::<ConfigFields, ConfigErrorView>(fields_of(c)),
{
    let ls = config_lines(c);
    lemma_config_lines_apply(c);
    lemma_config_text_lines(c);
    lemma_split_lines_text(ls);
    let s1 = ConfigFields { lean_home: Some(c.lean_home), ..no_fields() };
    let s2 = ConfigFields { lean_lib_dir: Some(c.lean_lib_dir), ..s1 };
    let s3 = ConfigFields { lean_include_dir: Some(c.lean_include_dir), ..s2 };
    let s4 = ConfigFields { version: Some(c.version), ..s3 };
    let s5 = ConfigFields { shared: Some(c.shared), ..s4 };
    let s6 = ConfigFields { allocator: Some(c.allocator), ..s5 };
    let s7 = ConfigFields { pointer_width: Some(c.pointer_width), ..s6 };
    lemma_keyed_paths(no_fields(), s1, s2, c);
    lemma_keyed_typed(s3, c);
    assert(apply_config_line(no_fields(), ls[0]) == Ok::<ConfigFields, ConfigErrorView>(s1));
    assert(apply_config_line(s1, ls[1]) == Ok::<ConfigFields, ConfigErrorView>(s2));
    assert(apply_config_line(s2, ls[2]) == Ok::<ConfigFields, ConfigErrorView>(s3));
    assert(apply_config_line(s3, ls[3]) == Ok::<ConfigFields, ConfigErrorView>(s4));
    assert(apply_config_line(s4, ls[4]) == Ok::<ConfigFields, ConfigErrorView>(s5));
    assert(apply_config_line(s5, ls[5]) == Ok::<ConfigFields, ConfigErrorView>(s6));
    assert(apply_config_line(s6, ls[6]) == Ok::<ConfigFields, ConfigErrorView>(s7));
    assert(trim(Seq::<char>::empty()) =~= Seq::<char>::empty());
    assert(apply_config_line(s7, Seq::<char>::empty()) == Ok::<ConfigFields, ConfigErrorView>(s7));
    let p0 = Seq::<Seq<char>>::empty();
    let p1 = p0.push(ls[0]);
    let p2 = p1.push(ls[1]);
    let p3 = p2.push(ls[2]);
    let p4 = p3.push(ls[3]);
    let p5 = p4.push(ls[4]);
    let p6 = p5.push(ls[5]);
    lemma_apply_lines_push(p0, ls[0]);
    lemma_apply_lines_push(p1, ls[1]);
    lemma_apply_lines_push(p2, ls[2]);
    lemma_apply_lines_push(p3, ls[3]);
    lemma_apply_lines_push(p4, ls[4]);
    lemma_apply_lines_push(p5, ls[5]);
    lemma_apply_lines_push(p6, ls[6]);
    lemma_apply_lines_push(ls, Seq::<char>::empty());
    assert(p6.push(ls[6]) =~= ls);
    assert(apply_config_lines(ls.push(Seq::empty())) == Ok::<ConfigFields, ConfigErrorView>(s7));
    assert(s7 == fields_of(c));
}

/// Law: a configuration sent through the Cargo `DEP_*` transport arrives
/// unchanged (paths must have no newline and no trailing white space).
pub proof fn lemma_dep_env_roundtrip(c: LeanConfigView)
    requires
        text_safe(c.lean_home),
        text_safe(c.lean_lib_dir),
        text_safe(c.lean_include_dir),
    ensures
        dep_env_spec(hex_text(encode_utf8(config_text(c)))) == Ok::<ConfigFields, ConfigErrorView>(
            fields_of(c),
        ),
{
    let b = encode_utf8(config_text(c));
    lemma_hex_roundtrip(b);
    let h = hex_text(b);
    lemma_hex_text_codes(b);
    assert(vstd::utf8::is_ascii_chars(h));
    vstd::utf8::is_ascii_chars_encode_utf8(h);
    assert(encode_utf8(h) =~= hex_code_bytes(b)) by {
        lemma_hex_text_codes(b);
    }
    vstd::utf8::encode_utf8_valid_utf8(config_text(c));
    vstd::utf8::encode_utf8_decode_utf8(config_text(c));
    lemma_config_text_roundtrip(c);
}

} // verus!
