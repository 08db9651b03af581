//! The decisions of Lean host detection. The build script probes the file
//! system and runs `lean`, `lake`, `elan` and `which`; these functions turn
//! what it found into configurations and error messages.
use vstd::prelude::*;
use vstd::string::*;
use crate::lean_config::{
    config_h_allocator, config_matches_fields, dep_env_spec, parse_allocator_from_config_h,
    read_config_spec, ConfigError, LeanAllocator, LeanConfig, LeanConfigView,
};
use crate::resolution::{LeanConfigSource, ResolvedLeanConfig, ResolvedLeanConfigView};
use crate::text::{
    chars_of, is_white_space, is_white_space_char, owned, string_from_chars, trim, trim_chars,
};
use crate::version::{parse_version_spec, version_error_text, LeanVersion};

verus! {

/// A [`LeanConfig`] paired with its source.
pub fn resolved(source: LeanConfigSource, config: LeanConfig) -> (r: ResolvedLeanConfig)
    ensures
        r@ == (ResolvedLeanConfigView { source, config: config@ }),
{
    ResolvedLeanConfig { source, config }
}

/// Cross-compilation configuration from `LEO3_CROSS_LIB_DIR` and
/// `LEO3_CROSS_LEAN_VERSION`.
#[derive(Debug, Clone)]
pub struct CrossCompileConfig {
    pub lib_dir: String,
    pub version: LeanVersion,
}

/// Why the cross-compilation variables do not make a configuration.
pub open spec fn cross_compile_spec(lib_dir: Option<Seq<char>>, version: Option<Seq<char>>) -> Result<
    (Seq<char>, LeanVersion),
    Seq<char>,
> {
    match lib_dir {
        None => Err("LEO3_CROSS_LIB_DIR not set"@),
        Some(d) => match version {
            None => Err("LEO3_CROSS_LEAN_VERSION not set"@),
            Some(v) => match parse_version_spec(v) {
                Ok(ver) => Ok((d, ver)),
                Err(e) => Err("parsing LEO3_CROSS_LEAN_VERSION: "@ + version_error_text(e)),
            },
        },
    }
}

/// The library directory as the config's paths; the Lean home and include
/// directory are the best-effort guesses the build script derived from it.
pub open spec fn cross_compile_config(
    lib_dir: Seq<char>,
    version: LeanVersion,
    lean_home: Seq<char>,
    include_dir: Seq<char>,
    shared: bool,
    allocator: LeanAllocator,
) -> LeanConfigView {
    LeanConfigView {
        lean_home,
        lean_lib_dir: lib_dir,
        lean_include_dir: include_dir,
        version,
        shared,
        allocator,
        pointer_width: None,
    }
}

impl CrossCompileConfig {
    /// Read the cross-compile configuration from the values of
    /// `LEO3_CROSS_LIB_DIR` and `LEO3_CROSS_LEAN_VERSION`.
    pub fn from_values(lib_dir: Option<String>, version: Option<String>) -> (r: Result<Self, String>)
        ensures
            match cross_compile_spec(
                crate::model::opt_str_view(lib_dir),
                crate::model::opt_str_view(version),
            ) {
                Ok((d, v)) => r matches Ok(c) && c.lib_dir@ == d && c.version == v,
                Err(e) => r matches Err(m) && m@ == e,
            },
    {
        let lib_dir = match lib_dir {
            Some(d) => d,
            None => return Err(owned("LEO3_CROSS_LIB_DIR not set")),
        };
        let version = match version {
            Some(v) => v,
            None => return Err(owned("LEO3_CROSS_LEAN_VERSION not set")),
        };
        match LeanVersion::parse(version.as_str()) {
            Ok(v) => Ok(CrossCompileConfig { lib_dir, version: v }),
            Err(e) => {
                let mut m = owned("parsing LEO3_CROSS_LEAN_VERSION: ");
                m.append(e.message().as_str());
                Err(m)
            },
        }
    }

    /// Convert into a full configuration. `lib_dir_exists` is whether the
    /// library directory exists; `lean_home` and `include_dir` are derived from
    /// it (its grandparent, and `include` below that); `shared` and
    /// `allocator` are what the directories hold.
    pub fn into_lean_config(
        self,
        lib_dir_exists: bool,
        lean_home: String,
        include_dir: String,
        shared: bool,
        allocator: LeanAllocator,
    ) -> (r: Result<LeanConfig, String>)
        ensures
            !lib_dir_exists ==> (r matches Err(m) && m@ == "LEO3_CROSS_LIB_DIR does not exist: "@
                + self.lib_dir@),
            lib_dir_exists ==> (r matches Ok(c) && c@ == cross_compile_config(
                self.lib_dir@,
                self.version,
                lean_home@,
                include_dir@,
                shared,
                allocator,
            )),
    {
        if !lib_dir_exists {
            let mut m = owned("LEO3_CROSS_LIB_DIR does not exist: ");
            m.append(self.lib_dir.as_str());
            return Err(m);
        }
        Ok(
            LeanConfig {
                lean_home,
                lean_lib_dir: self.lib_dir,
                lean_include_dir: include_dir,
                version: self.version,
                shared,
                allocator,
                pointer_width: None,
            },
        )
    }
}

/// The Lean binary of a home: `bin/lean`, else `bin/lean.exe`.
pub fn lean_binary_in_home(lean: String, lean_exe: String, lean_exists: bool, lean_exe_exists: bool) -> (r:
    Result<String, String>)
    ensures
        lean_exists ==> (r matches Ok(p) && p@ == lean@),
        !lean_exists && lean_exe_exists ==> (r matches Ok(p) && p@ == lean_exe@),
        !lean_exists && !lean_exe_exists ==> (r matches Err(m) && m@ == "lean binary not found: "@
            + lean@ + " or "@ + lean_exe@),
{
    if lean_exists {
        return Ok(lean);
    }
    if lean_exe_exists {
        return Ok(lean_exe);
    }
    let mut m = owned("lean binary not found: ");
    m.append(lean.as_str());
    m.append(" or ");
    m.append(lean_exe.as_str());
    Err(m)
}

/// The file names whose presence in the library directory means Lean was
/// built with shared libraries.
pub fn shared_lib_names() -> (r: Vec<&'static str>)
    ensures
        r@.map_values(|s: &str| s@) == seq![
            "libleanshared.so"@,
            "libleanshared.dylib"@,
            "libleanshared.dll.a"@,
            "leanshared.dll"@,
        ],
{
    let mut r: Vec<&'static str> = Vec::new();
    r.push("libleanshared.so");
    r.push("libleanshared.dylib");
    r.push("libleanshared.dll.a");
    r.push("leanshared.dll");
    assert(r@.map_values(|s: &str| s@) =~= seq![
        "libleanshared.so"@,
        "libleanshared.dylib"@,
        "libleanshared.dll.a"@,
        "leanshared.dll"@,
    ]);
    r
}

/// Whether the library directory holds shared libraries: any of the probes
/// of [`shared_lib_names`] found its file.
pub fn has_shared_libs(found: &[bool]) -> (r: bool)
    ensures
        r == exists|i: int| 0 <= i < found@.len() && #[trigger] found@[i],
{
    let mut i: usize = 0;
    while i < found.len()
        invariant
            i <= found.len(),
            forall|k: int| 0 <= k < i ==> !found@[k],
        decreases found.len() - i,
    {
        if found[i] {
            return true;
        }
        i = i + 1;
    }
    false
}

/// The allocator a Lean build was configured with, from the text of its
/// `lean/config.h`; when that could not be read, the system allocator.
pub fn detect_allocator_from_include_dir_best_effort(config_h: Result<String, String>) -> (r:
    LeanAllocator)
    ensures
        r == match config_h {
            Ok(t) => config_h_allocator(t@),
            Err(_) => LeanAllocator::System,
        },
{
    match config_h {
        Ok(text) => parse_allocator_from_config_h(text.as_str()),
        Err(_) => LeanAllocator::System,
    }
}

/// The allocator chosen from what reading `lean/config.h` gave: its
/// configured allocator, or the system allocator when it could not be read.
pub open spec fn best_effort_allocator(config_h: Result<String, String>) -> LeanAllocator {
    match config_h {
        Ok(t) => config_h_allocator(t@),
        Err(_) => LeanAllocator::System,
    }
}

/// Read a configuration from its text form, detecting the allocator from
/// the include directory's `lean/config.h` when the text names none.
/// `read_config_h` reads that file's text for an include directory.
///
/// A missing `allocator` key is never an error: the configuration then has
/// the allocator `config.h` names, or the system allocator when the file
/// could not be read.
pub fn read_config_detecting_allocator<R: Fn(&String) -> Result<String, String>>(
    text: &str,
    read_config_h: R,
) -> (r: Result<LeanConfig, ConfigError>)
    requires
        forall|d: &String| #[trigger] read_config_h.requires((d,)),
    ensures
        match read_config_spec(text@) {
            Ok(st) => r matches Ok(c) && config_matches_fields(c@, st) && (st.allocator is None
                ==> exists|t: Result<String, String>|
                #![trigger read_config_h.ensures((&c.lean_include_dir,), t)]
                read_config_h.ensures((&c.lean_include_dir,), t) && c.allocator == best_effort_allocator(t)),
            Err(e) => r matches Err(x) && x@ == e,
        },
{
    let rd = &read_config_h;
    let detect = move |d: &String| -> (a: LeanAllocator)
        requires
            rd.requires((d,)),
        ensures
            exists|t: Result<String, String>|
                #![trigger rd.ensures((d,), t)]
                rd.ensures((d,), t) && a == best_effort_allocator(t),
    {
        let t = rd(d);
        let a = detect_allocator_from_include_dir_best_effort(t);
        a
    };
    LeanConfig::from_reader(text, detect)
}

/// Read a configuration from its hex transport, detecting a missing
/// allocator as [`read_config_detecting_allocator`] does.
pub fn dep_env_config_detecting_allocator<R: Fn(&String) -> Result<String, String>>(
    hex: &str,
    read_config_h: R,
) -> (r: Result<LeanConfig, ConfigError>)
    requires
        forall|d: &String| #[trigger] read_config_h.requires((d,)),
    ensures
        match dep_env_spec(hex@) {
            Ok(st) => r matches Ok(c) && config_matches_fields(c@, st) && (st.allocator is None
                ==> exists|t: Result<String, String>|
                #![trigger read_config_h.ensures((&c.lean_include_dir,), t)]
                read_config_h.ensures((&c.lean_include_dir,), t) && c.allocator == best_effort_allocator(t)),
            Err(e) => r matches Err(x) && x@ == e,
        },
{
    let rd = &read_config_h;
    let detect = move |d: &String| -> (a: LeanAllocator)
        requires
            rd.requires((d,)),
        ensures
            exists|t: Result<String, String>|
                #![trigger rd.ensures((d,), t)]
                rd.ensures((d,), t) && a == best_effort_allocator(t),
    {
        let t = rd(d);
        let a = detect_allocator_from_include_dir_best_effort(t);
        a
    };
    LeanConfig::from_cargo_dep_env(hex, detect)
}

/// The first problem with a Lean installation: its home, include directory
/// or library directory missing, in that order.
pub open spec fn installation_problem(
    home: Seq<char>,
    include_dir: Seq<char>,
    lib_dir: Seq<char>,
    home_exists: bool,
    include_exists: bool,
    lib_exists: bool,
) -> Option<Seq<char>> {
    if !home_exists {
        Some("Lean home does not exist: "@ + home)
    } else if !include_exists {
        Some("include directory not found: "@ + include_dir)
    } else if !lib_exists {
        Some("library directory not found: "@ + lib_dir)
    } else {
        None
    }
}

/// Check a Lean installation's directories.
pub fn check_lean_installation(
    home: &str,
    include_dir: &str,
    lib_dir: &str,
    home_exists: bool,
    include_exists: bool,
    lib_exists: bool,
) -> (r: Result<(), String>)
    ensures
        match installation_problem(
            home@,
            include_dir@,
            lib_dir@,
            home_exists,
            include_exists,
            lib_exists,
        ) {
            Some(m) => r matches Err(e) && e@ == m,
            None => r is Ok,
        },
{
    if !home_exists {
        let mut m = owned("Lean home does not exist: ");
        m.append(home);
        return Err(m);
    }
    if !include_exists {
        let mut m = owned("include directory not found: ");
        m.append(include_dir);
        return Err(m);
    }
    if !lib_exists {
        let mut m = owned("library directory not found: ");
        m.append(lib_dir);
        return Err(m);
    }
    Ok(())
}

/// A configuration for a validated installation (`pointer_width` unknown).
pub fn installation_config(
    home: String,
    lib_dir: String,
    include_dir: String,
    version: LeanVersion,
    shared: bool,
    allocator: LeanAllocator,
) -> (r: LeanConfig)
    ensures
        r@ == (LeanConfigView {
            lean_home: home@,
            lean_lib_dir: lib_dir@,
            lean_include_dir: include_dir@,
            version,
            shared,
            allocator,
            pointer_width: None,
        }),
{
    LeanConfig {
        lean_home: home,
        lean_lib_dir: lib_dir,
        lean_include_dir: include_dir,
        version,
        shared,
        allocator,
        pointer_width: None,
    }
}

// ---------------------------------------------------------------------------
// Command output
// ---------------------------------------------------------------------------

/// The white-space separated words of a text (`str::split_whitespace`).
pub open spec fn words(s: Seq<char>) -> Seq<Seq<char>>
    decreases s.len(),
{
    if s.len() == 0 {
        Seq::empty()
    } else {
        let w = words(s.drop_last());
        let c = s.last();
        if is_white_space(c) {
            w
        } else if s.len() >= 2 && !is_white_space(s[s.len() - 2]) {
            w.update(w.len() - 1, w.last().push(c))
        } else {
            w.push(seq![c])
        }
    }
}

/// A word without its trailing commas (`trim_end_matches(',')`).
pub open spec fn trim_commas(w: Seq<char>) -> Seq<char>
    decreases w.len(),
{
    if w.len() > 0 && w.last() == ',' {
        trim_commas(w.drop_last())
    } else {
        w
    }
}

/// Whether a trimmed word looks like a Lean 4 version.
pub open spec fn version_like(t: Seq<char>) -> bool {
    t.len() > 0 && t[0] == '4' && t.contains('.')
}

/// The first version-like word of `lean --version` output, from word `k` on.
pub open spec fn first_version_word(ws: Seq<Seq<char>>, k: int) -> Option<Seq<char>>
    decreases ws.len() - k,
{
    if k >= ws.len() {
        None
    } else if version_like(trim_commas(ws[k])) {
        Some(trim_commas(ws[k]))
    } else {
        first_version_word(ws, k + 1)
    }
}

/// The version `lean --version` reports, e.g. from `Lean (version 4.25.2, ...)`.
pub open spec fn lean_version_spec(out: Seq<char>) -> Result<LeanVersion, Seq<char>> {
    match first_version_word(words(out), 0) {
        None => Err("could not parse Lean version from output"@),
        Some(w) => match parse_version_spec(w) {
            Ok(v) => Ok(v),
            Err(e) => Err(version_error_text(e)),
        },
    }
}

proof fn lemma_words_nonempty(s: Seq<char>)
    ensures
        forall|i: int| 0 <= i < words(s).len() ==> #[trigger] words(s)[i].len() > 0,
        s.len() > 0 && !is_white_space(s.last()) ==> words(s).len() > 0,
    decreases s.len(),
{
    if s.len() > 0 {
        lemma_words_nonempty(s.drop_last());
        let w = words(s.drop_last());
        let c = s.last();
        if !is_white_space(c) && s.len() >= 2 && !is_white_space(s[s.len() - 2]) {
            assert(s.drop_last().last() == s[s.len() - 2]);
            assert(w.len() > 0);
            let u = w.update(w.len() - 1, w.last().push(c));
            assert forall|i: int| 0 <= i < u.len() implies #[trigger] u[i].len() > 0 by {
                if i < w.len() - 1 {
                    assert(u[i] == w[i]);
                }
            }
        }
    }
}

fn words_exec(s: &str) -> (r: Vec<Vec<char>>)
    ensures
        r@.map_values(|w: Vec<char>| w@) == words(s@),
{
    let cs = chars_of(s);
    let mut out: Vec<Vec<char>> = Vec::new();
    let mut i: usize = 0;
    assert(cs@.take(0) =~= Seq::<char>::empty());
    while i < cs.len()
        invariant
            i <= cs.len(),
            cs@ == s@,
            out@.map_values(|w: Vec<char>| w@) == words(cs@.take(i as int)),
        decreases cs.len() - i,
    {
        let ghost before = out@.map_values(|w: Vec<char>| w@);
        let c = cs[i];
        let ghost t = cs@.take(i + 1);
        assert(t.drop_last() =~= cs@.take(i as int));
        assert(t.last() == c);
        if is_white_space_char(c) {
        } else if i >= 1 && !is_white_space_char(cs[i - 1]) {
            proof {
                assert(t[t.len() - 2] == cs@[i - 1]);
                lemma_words_nonempty(cs@.take(i as int));
                assert(cs@.take(i as int).last() == cs@[i - 1]);
            }
            let mut w = out.pop().unwrap();
            w.push(c);
            out.push(w);
            assert(out@.map_values(|w: Vec<char>| w@) =~= before.update(
                before.len() - 1,
                before.last().push(c),
            ));
        } else {
            let mut w: Vec<char> = Vec::new();
            w.push(c);
            out.push(w);
            assert(out@.map_values(|w: Vec<char>| w@) =~= before.push(seq![c]));
        }
        i = i + 1;
    }
    assert(cs@.take(i as int) =~= cs@);
    out
}

/// Parse the version from `lean --version` output.
pub fn lean_version_from_output(out: &str) -> (r: Result<LeanVersion, String>)
    ensures
        match lean_version_spec(out@) {
            Ok(v) => r == Ok::<LeanVersion, String>(v),
            Err(e) => r matches Err(m) && m@ == e,
        },
{
    let ws = words_exec(out);
    let ghost wv = ws@.map_values(|w: Vec<char>| w@);
    let mut k: usize = 0;
    while k < ws.len()
        invariant
            k <= ws.len(),
            wv == ws@.map_values(|w: Vec<char>| w@),
            wv == words(out@),
            first_version_word(wv, 0) == first_version_word(wv, k as int),
        decreases ws.len() - k,
    {
        let w = &ws[k];
        assert(w@ == wv[k as int]);
        let mut end = w.len();
        assert(w@.take(end as int) =~= w@);
        while end > 0 && w[end - 1] == ','
            invariant
                end <= w.len(),
                trim_commas(w@) == trim_commas(w@.take(end as int)),
            decreases end,
        {
            assert(w@.take(end as int).drop_last() =~= w@.take(end - 1));
            end = end - 1;
        }
        assert(trim_commas(w@.take(end as int)) == w@.take(end as int));
        let trimmed = &w.as_slice()[0..end];
        assert(trimmed@ =~= trim_commas(w@));
        let mut has_dot = false;
        let mut j: usize = 0;
        while j < end
            invariant
                j <= end <= w.len(),
                trimmed@ == w@.take(end as int),
                has_dot == w@.take(j as int).contains('.'),
            decreases end - j,
        {
            let ghost was = has_dot;
            if trimmed[j] == '.' {
                assert(w@.take(j + 1)[j as int] == '.');
                has_dot = true;
            }
            proof {
                if was {
                    let q = choose|q: int| 0 <= q < j && #[trigger] w@.take(j as int)[q] == '.';
                    assert(w@.take(j + 1)[q] == '.');
                }
                if !has_dot && w@.take(j + 1).contains('.') {
                    let q = choose|q: int| 0 <= q < j + 1 && #[trigger] w@.take(j + 1)[q] == '.';
                    assert(w@.take(j as int)[q] == '.');
                }
            }
            j = j + 1;
        }
        assert(w@.take(end as int) =~= trimmed@);
        if end > 0 && trimmed[0] == '4' && has_dot {
            let text = string_from_chars(trimmed);
            return match LeanVersion::parse(text.as_str()) {
                Ok(v) => Ok(v),
                Err(e) => Err(e.message()),
            };
        }
        k = k + 1;
    }
    Err(owned("could not parse Lean version from output"))
}

/// The details of a failed command: its exit status, then its trimmed
/// stderr and stdout where not empty, joined by `", "`.
pub open spec fn command_failure_text(status: Seq<char>, stderr: Seq<char>, stdout: Seq<char>) -> Seq<
    char,
> {
    "exit status "@ + status + (if trim(stderr).len() > 0 {
        ", stderr: "@ + trim(stderr)
    } else {
        Seq::empty()
    }) + (if trim(stdout).len() > 0 {
        ", stdout: "@ + trim(stdout)
    } else {
        Seq::empty()
    })
}

/// Describe a failed command from its exit status text and its (lossily
/// decoded) stderr and stdout.
pub fn format_command_failure(status: &str, stderr: &str, stdout: &str) -> (r: String)
    ensures
        r@ == command_failure_text(status@, stderr@, stdout@),
{
    let mut out = owned("exit status ");
    out.append(status);
    let e = trim_chars(chars_of(stderr).as_slice());
    if e.len() > 0 {
        out.append(", stderr: ");
        out.append(string_from_chars(e.as_slice()).as_str());
    }
    let o = trim_chars(chars_of(stdout).as_slice());
    if o.len() > 0 {
        out.append(", stdout: ");
        out.append(string_from_chars(o.as_slice()).as_str());
    }
    out
}

/// The error of a command that ran but failed.
pub fn command_failed_message(description: &str, details: &str) -> (r: String)
    ensures
        r@ == description@ + " failed: "@ + details@,
{
    let mut m = owned(description);
    m.append(" failed: ");
    m.append(details);
    m
}

/// The Lean home `lean --print-prefix` printed, if it printed one.
pub fn lean_home_from_prefix(stdout: &str) -> (r: Option<String>)
    ensures
        trim(stdout@).len() > 0 ==> (r matches Some(h) && h@ == trim(stdout@)),
        trim(stdout@).len() == 0 ==> r is None,
{
    let t = trim_chars(chars_of(stdout).as_slice());
    if t.len() > 0 {
        Some(string_from_chars(t.as_slice()))
    } else {
        None
    }
}

/// The first line of `which`/`where.exe` output, trimmed (`where.exe` may
/// print several; a `\r` before the newline is white space and trimmed too).
pub open spec fn first_line_spec(out: Seq<char>) -> Seq<char> {
    trim(crate::text::split_char(out, '\n')[0])
}

/// The first line of a command's output, trimmed.
pub fn first_line_trimmed(out: &str) -> (r: String)
    ensures
        r@ == first_line_spec(out@),
{
    let cs = chars_of(out);
    let mut k: usize = 0;
    while k < cs.len() && cs[k] != '\n'
        invariant
            k <= cs.len(),
            cs@ == out@,
            forall|j: int| 0 <= j < k ==> cs@[j] != '\n',
        decreases cs.len() - k,
    {
        k = k + 1;
    }
    proof {
        crate::windows_imports::lemma_split_at_first(out@, '\n', k as int);
        if k == cs.len() {
            crate::text::lemma_split_first(out@, '\n');
            assert(out@.take(k as int) =~= out@);
        }
        assert(cs@.subrange(0, k as int) =~= out@.take(k as int));
    }
    let line = trim_chars(&cs.as_slice()[0..k]);
    string_from_chars(line.as_slice())
}

} // verus!
