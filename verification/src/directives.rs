//! The `cargo:` lines a build script prints for a Lean configuration.
use vstd::prelude::*;
use vstd::string::*;
use crate::lean_config::{LeanAllocator, LeanConfig, LeanConfigView};
use crate::resolution::{
    warning_lines_spec, LeanConfigSource, ResolutionError, ResolvedLeanConfig,
};
use crate::text::{decimal_digits, owned, push_decimal, strings_view};

verus! {

/// The newest `lean_4_N` minor version cfg flag that is declared.
pub const CFG_MAX_MINOR: u32 = 40;

fn push_line(v: &mut Vec<String>, s: String)
    ensures
        strings_view(final(v)@) == strings_view(old(v)@).push(s@),
{
    v.push(s);
    assert(strings_view(final(v)@) =~= strings_view(old(v)@).push(s@));
}

fn append_lines(v: &mut Vec<String>, w: Vec<String>)
    ensures
        strings_view(final(v)@) == strings_view(old(v)@) + strings_view(w@),
{
    let mut i: usize = 0;
    let ghost start = strings_view(v@);
    while i < w.len()
        invariant
            i <= w.len(),
            strings_view(v@) == start + strings_view(w@).take(i as int),
        decreases w.len() - i,
    {
        let ghost prev = strings_view(v@);
        v.push(w[i].clone());
        assert(strings_view(v@) =~= prev.push(w@[i as int]@));
        assert(strings_view(w@).take(i + 1) =~= strings_view(w@).take(i as int).push(w@[i as int]@));
        i = i + 1;
    }
    assert(strings_view(w@).take(i as int) =~= strings_view(w@));
}

/// `prefix` followed by the decimal digits of `n` and `suffix`.
fn numbered(prefix: &str, n: u64, suffix: &str) -> (r: String)
    ensures
        r@ == prefix@ + decimal_digits(n as nat) + suffix@,
{
    let mut s = owned(prefix);
    push_decimal(&mut s, n);
    s.append(suffix);
    s
}

/// `prefix` followed by `text`.
fn prefixed(prefix: &str, text: &str) -> (r: String)
    ensures
        r@ == prefix@ + text@,
{
    let mut s = owned(prefix);
    s.append(text);
    s
}

/// The lines `0..n` of `f`.
pub open spec fn numbered_lines(prefix: Seq<char>, n: nat, suffix: Seq<char>) -> Seq<Seq<char>> {
    Seq::new(n, |m: int| prefix + decimal_digits(m as nat) + suffix)
}

fn numbered_range(prefix: &str, count: u64, suffix: &str) -> (r: Vec<String>)
    ensures
        strings_view(r@) == numbered_lines(prefix@, count as nat, suffix@),
{
    let mut r: Vec<String> = Vec::new();
    let mut m: u64 = 0;
    while m < count
        invariant
            m <= count,
            strings_view(r@) == numbered_lines(prefix@, m as nat, suffix@),
        decreases count - m,
    {
        push_line(&mut r, numbered(prefix, m, suffix));
        assert(numbered_lines(prefix@, (m + 1) as nat, suffix@) =~= numbered_lines(
            prefix@,
            m as nat,
            suffix@,
        ).push(prefix@ + decimal_digits(m as nat) + suffix@));
        m = m + 1;
    }
    r
}

/// `cargo:rustc-check-cfg` for every `lean_4_N` flag up to `CFG_MAX_MINOR` and
/// for the allocator flags.
pub open spec fn expected_cfg_spec() -> Seq<Seq<char>> {
    numbered_lines("cargo:rustc-check-cfg=cfg(lean_4_"@, (CFG_MAX_MINOR + 1) as nat, ")"@) + seq![
        "cargo:rustc-check-cfg=cfg(lean_small_allocator)"@,
        "cargo:rustc-check-cfg=cfg(lean_mimalloc)"@,
    ]
}

/// The lines `print_expected_cfgs` prints.
pub fn expected_cfg_lines() -> (r: Vec<String>)
    ensures
        strings_view(r@) == expected_cfg_spec(),
{
    let mut r = numbered_range("cargo:rustc-check-cfg=cfg(lean_4_", (CFG_MAX_MINOR as u64) + 1, ")");
    push_line(&mut r, owned("cargo:rustc-check-cfg=cfg(lean_small_allocator)"));
    push_line(&mut r, owned("cargo:rustc-check-cfg=cfg(lean_mimalloc)"));
    assert(strings_view(r@) =~= expected_cfg_spec());
    r
}

/// The environment variables the configuration depends on.
pub open spec fn watched_env_vars() -> Seq<Seq<char>> {
    seq![
        "DEP_LEAN4_LEO3_CONFIG"@,
        "LEO3_NO_LEAN"@,
        "LEAN_HOME"@,
        "ELAN_HOME"@,
        "LEAN_LIB_DIR"@,
        "LEAN_INCLUDE_DIR"@,
        "LEO3_CONFIG_FILE"@,
        "LEO3_CROSS_LIB_DIR"@,
        "LEO3_CROSS_LEAN_VERSION"@,
        "PATH"@,
    ]
}

/// The lines `print_rerun_if_env_changed` prints: one per watched variable.
pub fn rerun_if_env_changed_lines() -> (r: Vec<String>)
    ensures
        strings_view(r@) == watched_env_vars().map_values(
            |v: Seq<char>| "cargo:rerun-if-env-changed="@ + v,
        ),
{
    let vars: [&str; 10] = [
        "DEP_LEAN4_LEO3_CONFIG",
        "LEO3_NO_LEAN",
        "LEAN_HOME",
        "ELAN_HOME",
        "LEAN_LIB_DIR",
        "LEAN_INCLUDE_DIR",
        "LEO3_CONFIG_FILE",
        "LEO3_CROSS_LIB_DIR",
        "LEO3_CROSS_LEAN_VERSION",
        "PATH",
    ];
    let ghost want = watched_env_vars().map_values(|v: Seq<char>| "cargo:rerun-if-env-changed="@ + v);
    assert(vars@.map_values(|s: &str| s@) =~= watched_env_vars());
    let mut r: Vec<String> = Vec::new();
    let mut i: usize = 0;
    while i < 10
        invariant
            i <= 10,
            vars@.len() == 10,
            vars@.map_values(|s: &str| s@) == watched_env_vars(),
            want == watched_env_vars().map_values(|v: Seq<char>| "cargo:rerun-if-env-changed="@ + v),
            strings_view(r@) == want.take(i as int),
        decreases 10 - i,
    {
        assert(vars@.map_values(|s: &str| s@)[i as int] == vars@[i as int]@);
        push_line(&mut r, prefixed("cargo:rerun-if-env-changed=", vars[i]));
        assert(want.take(i + 1) =~= want.take(i as int).push(want[i as int]));
        i = i + 1;
    }
    assert(want.take(10) =~= want);
    r
}

/// The link argument of `LEO3_NO_LEAN` builds on Apple targets, where the
/// host Lean executable provides the runtime symbols at load time.
pub fn no_lean_dynamic_lookup_link_args(target_os: &str) -> (r: Vec<String>)
    ensures
        strings_view(r@) == if target_os@ == "macos"@ {
            seq!["cargo:rustc-link-arg=-Wl,-undefined,dynamic_lookup"@]
        } else {
            Seq::<Seq<char>>::empty()
        },
{
    let mut r: Vec<String> = Vec::new();
    if crate::text::str_eq(target_os, "macos") {
        push_line(&mut r, owned("cargo:rustc-link-arg=-Wl,-undefined,dynamic_lookup"));
    }
    assert(strings_view(r@) =~= if target_os@ == "macos"@ {
        seq!["cargo:rustc-link-arg=-Wl,-undefined,dynamic_lookup"@]
    } else {
        Seq::<Seq<char>>::empty()
    });
    r
}

/// Which optional split shared libraries the library directory holds.
#[derive(Debug, Clone, Copy, PartialEq, Eq, Structural)]
pub struct SplitSharedLibs {
    pub init_shared: bool,
    pub leanshared_2: bool,
    pub leanshared_1: bool,
}

/// The files whose presence means each split library is there, for a target
/// (`windows` or not): `Init_shared`, `leanshared_2`, `leanshared_1`.
pub open spec fn split_lib_files(windows: bool) -> Seq<Seq<Seq<char>>> {
    if windows {
        seq![
            seq!["libInit_shared.dll.a"@],
            seq!["libleanshared_2.dll.a"@],
            seq!["libleanshared_1.dll.a"@],
        ]
    } else {
        seq![
            seq!["libInit_shared.so"@, "libInit_shared.dylib"@],
            seq!["libleanshared_2.so"@, "libleanshared_2.dylib"@],
            seq!["libleanshared_1.so"@, "libleanshared_1.dylib"@],
        ]
    }
}

/// The files to probe for each split library (see [`split_lib_files`]).
pub fn split_lib_probe_files(target_os: &str) -> (r: Vec<Vec<&'static str>>)
    ensures
        r@.map_values(|v: Vec<&str>| v@.map_values(|s: &str| s@)) == split_lib_files(
            target_os@ == "windows"@,
        ),
{
    let mut r: Vec<Vec<&'static str>> = Vec::new();
    if crate::text::str_eq(target_os, "windows") {
        r.push(vec!["libInit_shared.dll.a"]);
        r.push(vec!["libleanshared_2.dll.a"]);
        r.push(vec!["libleanshared_1.dll.a"]);
    } else {
        r.push(vec!["libInit_shared.so", "libInit_shared.dylib"]);
        r.push(vec!["libleanshared_2.so", "libleanshared_2.dylib"]);
        r.push(vec!["libleanshared_1.so", "libleanshared_1.dylib"]);
    }
    let ghost w = split_lib_files(target_os@ == "windows"@);
    assert(r@[0]@.map_values(|s: &str| s@) =~= w[0]);
    assert(r@[1]@.map_values(|s: &str| s@) =~= w[1]);
    assert(r@[2]@.map_values(|s: &str| s@) =~= w[2]);
    assert(r@.map_values(|v: Vec<&str>| v@.map_values(|s: &str| s@)) =~= w);
    r
}

pub open spec fn opt_line(b: bool, l: Seq<char>) -> Seq<Seq<char>> {
    if b {
        seq![l]
    } else {
        Seq::empty()
    }
}

/// The `rustc-link-lib` lines: the split libraries present, then `leanshared`.
pub open spec fn link_lib_spec(windows: bool, libs: SplitSharedLibs) -> Seq<Seq<char>> {
    if windows {
        opt_line(libs.init_shared, "cargo:rustc-link-lib=dylib:+verbatim=libInit_shared.dll.a"@)
            + opt_line(libs.leanshared_2, "cargo:rustc-link-lib=dylib:+verbatim=libleanshared_2.dll.a"@)
            + opt_line(libs.leanshared_1, "cargo:rustc-link-lib=dylib:+verbatim=libleanshared_1.dll.a"@)
            + seq!["cargo:rustc-link-lib=dylib:+verbatim=libleanshared.dll.a"@]
    } else {
        opt_line(libs.init_shared, "cargo:rustc-link-lib=dylib=Init_shared"@) + opt_line(
            libs.leanshared_2,
            "cargo:rustc-link-lib=dylib=leanshared_2"@,
        ) + opt_line(libs.leanshared_1, "cargo:rustc-link-lib=dylib=leanshared_1"@) + seq![
            "cargo:rustc-link-lib=dylib=leanshared"@,
        ]
    }
}

/// The Windows system libraries, or the rpath elsewhere.
pub open spec fn link_system_spec(windows: bool, lib_dir: Seq<char>) -> Seq<Seq<char>> {
    if windows {
        seq![
            "cargo:rustc-link-lib=dylib=Ws2_32"@,
            "cargo:rustc-link-lib=dylib=Bcrypt"@,
            "cargo:rustc-link-lib=dylib=Userenv"@,
        ]
    } else {
        seq!["cargo:rustc-link-arg=-Wl,-rpath,"@ + lib_dir]
    }
}

/// The `cargo:` link lines for a configuration: the search paths, the
/// split libraries present, `leanshared`, the Windows system libraries, the
/// rpath elsewhere, and the include directory for dependents. `bin_dir` is
/// the home's `bin` directory.
pub open spec fn link_config_spec(
    c: LeanConfigView,
    target_os: Seq<char>,
    bin_dir: Seq<char>,
    libs: SplitSharedLibs,
) -> Seq<Seq<char>> {
    let windows = target_os == "windows"@;
    seq!["cargo:rustc-link-search=native="@ + c.lean_lib_dir] + opt_line(
        windows,
        "cargo:rustc-link-search=native="@ + bin_dir,
    ) + link_lib_spec(windows, libs) + link_system_spec(windows, c.lean_lib_dir) + seq![
        "cargo:include="@ + c.lean_include_dir,
    ]
}

/// Law: off Windows the link lines are, in order, the library search path,
/// one `dylib` line for each of `Init_shared`, `leanshared_2` and
/// `leanshared_1` that is present, `leanshared` always, the rpath and the
/// include directory, and nothing else.
pub proof fn lemma_link_lines_off_windows(
    c: LeanConfigView,
    target_os: Seq<char>,
    bin_dir: Seq<char>,
    libs: SplitSharedLibs,
)
    requires
        target_os != "windows"@,
    ensures
        link_config_spec(c, target_os, bin_dir, libs) == seq![
            "cargo:rustc-link-search=native="@ + c.lean_lib_dir,
        ] + opt_line(libs.init_shared, "cargo:rustc-link-lib=dylib=Init_shared"@) + opt_line(
            libs.leanshared_2,
            "cargo:rustc-link-lib=dylib=leanshared_2"@,
        ) + opt_line(libs.leanshared_1, "cargo:rustc-link-lib=dylib=leanshared_1"@) + seq![
            "cargo:rustc-link-lib=dylib=leanshared"@,
            "cargo:rustc-link-arg=-Wl,-rpath,"@ + c.lean_lib_dir,
            "cargo:include="@ + c.lean_include_dir,
        ],
{
    let o = opt_line(false, "cargo:rustc-link-search=native="@ + bin_dir);
    assert(o =~= Seq::<Seq<char>>::empty());
    assert(link_config_spec(c, target_os, bin_dir, libs) =~= seq![
        "cargo:rustc-link-search=native="@ + c.lean_lib_dir,
    ] + opt_line(libs.init_shared, "cargo:rustc-link-lib=dylib=Init_shared"@) + opt_line(
        libs.leanshared_2,
        "cargo:rustc-link-lib=dylib=leanshared_2"@,
    ) + opt_line(libs.leanshared_1, "cargo:rustc-link-lib=dylib=leanshared_1"@) + seq![
        "cargo:rustc-link-lib=dylib=leanshared"@,
        "cargo:rustc-link-arg=-Wl,-rpath,"@ + c.lean_lib_dir,
        "cargo:include="@ + c.lean_include_dir,
    ]);
}

fn opt_push(r: &mut Vec<String>, b: bool, l: &str)
    ensures
        strings_view(final(r)@) == strings_view(old(r)@) + opt_line(b, l@),
{
    if b {
        push_line(r, owned(l));
    }
    assert(strings_view(final(r)@) =~= strings_view(old(r)@) + opt_line(b, l@));
}

fn push_link_libs(r: &mut Vec<String>, windows: bool, libs: SplitSharedLibs)
    ensures
        strings_view(final(r)@) == strings_view(old(r)@) + link_lib_spec(windows, libs),
{
    let ghost start = strings_view(r@);
    if windows {
        opt_push(r, libs.init_shared, "cargo:rustc-link-lib=dylib:+verbatim=libInit_shared.dll.a");
        opt_push(r, libs.leanshared_2, "cargo:rustc-link-lib=dylib:+verbatim=libleanshared_2.dll.a");
        opt_push(r, libs.leanshared_1, "cargo:rustc-link-lib=dylib:+verbatim=libleanshared_1.dll.a");
        push_line(r, owned("cargo:rustc-link-lib=dylib:+verbatim=libleanshared.dll.a"));
    } else {
        opt_push(r, libs.init_shared, "cargo:rustc-link-lib=dylib=Init_shared");
        opt_push(r, libs.leanshared_2, "cargo:rustc-link-lib=dylib=leanshared_2");
        opt_push(r, libs.leanshared_1, "cargo:rustc-link-lib=dylib=leanshared_1");
        push_line(r, owned("cargo:rustc-link-lib=dylib=leanshared"));
    }
    assert(strings_view(r@) =~= start + link_lib_spec(windows, libs));
}

fn push_link_system(r: &mut Vec<String>, windows: bool, lib_dir: &str)
    ensures
        strings_view(final(r)@) == strings_view(old(r)@) + link_system_spec(windows, lib_dir@),
{
    let ghost start = strings_view(r@);
    if windows {
        push_line(r, owned("cargo:rustc-link-lib=dylib=Ws2_32"));
        push_line(r, owned("cargo:rustc-link-lib=dylib=Bcrypt"));
        push_line(r, owned("cargo:rustc-link-lib=dylib=Userenv"));
    } else {
        push_line(r, prefixed("cargo:rustc-link-arg=-Wl,-rpath,", lib_dir));
    }
    assert(strings_view(r@) =~= start + link_system_spec(windows, lib_dir@));
}

/// The lines `emit_link_config` prints.
pub fn link_config_lines(
    config: &LeanConfig,
    target_os: &str,
    bin_dir: &str,
    libs: SplitSharedLibs,
) -> (r: Vec<String>)
    ensures
        strings_view(r@) == link_config_spec(config@, target_os@, bin_dir@, libs),
{
    let windows = crate::text::str_eq(target_os, "windows");
    let mut r: Vec<String> = Vec::new();
    push_line(&mut r, prefixed("cargo:rustc-link-search=native=", config.lean_lib_dir.as_str()));
    let search = prefixed("cargo:rustc-link-search=native=", bin_dir);
    opt_push(&mut r, windows, search.as_str());
    push_link_libs(&mut r, windows, libs);
    push_link_system(&mut r, windows, config.lean_lib_dir.as_str());
    push_line(&mut r, prefixed("cargo:include=", config.lean_include_dir.as_str()));
    assert(strings_view(r@) =~= link_config_spec(config@, target_os@, bin_dir@, libs));
    r
}

/// `cargo:rustc-cfg=lean_4_N` for the detected minor version and every
/// earlier one; nothing for a major version other than 4.
pub open spec fn version_cfg_spec(c: LeanConfigView) -> Seq<Seq<char>> {
    if c.version.major != 4 {
        Seq::empty()
    } else {
        numbered_lines("cargo:rustc-cfg=lean_4_"@, (c.version.minor + 1) as nat, Seq::empty())
    }
}

/// The lines `emit_version_cfgs` prints.
pub fn version_cfg_lines(config: &LeanConfig) -> (r: Vec<String>)
    ensures
        strings_view(r@) == version_cfg_spec(config@),
{
    if config.version.major != 4 {
        let r: Vec<String> = Vec::new();
        assert(strings_view(r@) =~= Seq::<Seq<char>>::empty());
        return r;
    }
    proof {
        reveal_strlit("");
    }
    numbered_range("cargo:rustc-cfg=lean_4_", (config.version.minor as u64) + 1, "")
}

/// The allocator cfg flag of a configuration, if any.
pub open spec fn allocator_cfg_spec(c: LeanConfigView) -> Seq<Seq<char>> {
    match c.allocator {
        LeanAllocator::Small => seq!["cargo:rustc-cfg=lean_small_allocator"@],
        LeanAllocator::Mimalloc => seq!["cargo:rustc-cfg=lean_mimalloc"@],
        LeanAllocator::System => Seq::empty(),
    }
}

/// Law: the small allocator and mimalloc each get their own cfg line, and
/// only they: the line `lean_small_allocator` is emitted exactly for the
/// small allocator, `lean_mimalloc` exactly for mimalloc, and the system
/// allocator gets none. At most one allocator line is ever emitted.
pub proof fn lemma_allocator_cfg_lines(c: LeanConfigView)
    ensures
        allocator_cfg_spec(c).contains("cargo:rustc-cfg=lean_small_allocator"@) <==> c.allocator
            == LeanAllocator::Small,
        allocator_cfg_spec(c).contains("cargo:rustc-cfg=lean_mimalloc"@) <==> c.allocator
            == LeanAllocator::Mimalloc,
        allocator_cfg_spec(c).len() == 0 <==> c.allocator == LeanAllocator::System,
        allocator_cfg_spec(c).len() <= 1,
{
    reveal_strlit("cargo:rustc-cfg=lean_small_allocator");
    reveal_strlit("cargo:rustc-cfg=lean_mimalloc");
    let small = "cargo:rustc-cfg=lean_small_allocator"@;
    let mima = "cargo:rustc-cfg=lean_mimalloc"@;
    assert(small != mima) by {
        assert(small.len() != mima.len());
    }
    let lines = allocator_cfg_spec(c);
    match c.allocator {
        LeanAllocator::Small => {
            assert(lines[0] == small);
            assert(!lines.contains(mima));
        },
        LeanAllocator::Mimalloc => {
            assert(lines[0] == mima);
            assert(!lines.contains(small));
        },
        LeanAllocator::System => {
            assert(!lines.contains(small));
            assert(!lines.contains(mima));
        },
    }
}

/// The lines `emit_allocator_cfgs` prints.
pub fn allocator_cfg_lines(config: &LeanConfig) -> (r: Vec<String>)
    ensures
        strings_view(r@) == allocator_cfg_spec(config@),
{
    let mut r: Vec<String> = Vec::new();
    match config.allocator {
        LeanAllocator::Small => push_line(&mut r, owned("cargo:rustc-cfg=lean_small_allocator")),
        LeanAllocator::Mimalloc => push_line(&mut r, owned("cargo:rustc-cfg=lean_mimalloc")),
        LeanAllocator::System => {},
    }
    assert(strings_view(r@) =~= allocator_cfg_spec(config@));
    r
}

/// The config file to watch: `LEO3_CONFIG_FILE`, when the configuration came
/// from it.
pub fn resolved_config_rerun_lines(resolved: &ResolvedLeanConfig, config_file: Option<&str>) -> (r:
    Vec<String>)
    ensures
        strings_view(r@) == match config_file {
            Some(p) => if resolved.source == LeanConfigSource::ConfigFile {
                seq!["cargo:rerun-if-changed="@ + p@]
            } else {
                Seq::<Seq<char>>::empty()
            },
            None => Seq::<Seq<char>>::empty(),
        },
{
    let mut r: Vec<String> = Vec::new();
    if resolved.source == LeanConfigSource::ConfigFile {
        match config_file {
            Some(p) => push_line(&mut r, prefixed("cargo:rerun-if-changed=", p)),
            None => {},
        }
    }
    assert(strings_view(r@) =~= match config_file {
        Some(p) => if resolved.source == LeanConfigSource::ConfigFile {
            seq!["cargo:rerun-if-changed="@ + p@]
        } else {
            Seq::<Seq<char>>::empty()
        },
        None => Seq::<Seq<char>>::empty(),
    });
    r
}

/// Everything a resolved configuration emits: the link lines, the version and
/// allocator cfgs, and a watch on the Lean home.
pub open spec fn resolved_config_spec(
    c: LeanConfigView,
    target_os: Seq<char>,
    bin_dir: Seq<char>,
    libs: SplitSharedLibs,
) -> Seq<Seq<char>> {
    link_config_spec(c, target_os, bin_dir, libs) + version_cfg_spec(c) + allocator_cfg_spec(c) + seq![
        "cargo:rerun-if-changed="@ + c.lean_home,
    ]
}

/// The lines a build script prints for a resolved configuration.
pub fn resolved_config_lines(
    config: &LeanConfig,
    target_os: &str,
    bin_dir: &str,
    libs: SplitSharedLibs,
) -> (r: Vec<String>)
    ensures
        strings_view(r@) == resolved_config_spec(config@, target_os@, bin_dir@, libs),
{
    let mut r = link_config_lines(config, target_os, bin_dir, libs);
    append_lines(&mut r, version_cfg_lines(config));
    append_lines(&mut r, allocator_cfg_lines(config));
    push_line(&mut r, prefixed("cargo:rerun-if-changed=", config.lean_home.as_str()));
    r
}

/// The `cargo:warning=` lines that report a resolution error.
pub fn warn_resolution_error(error: &ResolutionError) -> (r: Vec<String>)
    ensures
        strings_view(r@) == warning_lines_spec(error@).map_values(
            |l: Seq<char>| "cargo:warning="@ + l,
        ),
{
    let lines = error.warning_lines();
    let ghost want = warning_lines_spec(error@).map_values(|l: Seq<char>| "cargo:warning="@ + l);
    let mut r: Vec<String> = Vec::new();
    let mut i: usize = 0;
    while i < lines.len()
        invariant
            i <= lines.len(),
            strings_view(lines@) == warning_lines_spec(error@),
            want == warning_lines_spec(error@).map_values(|l: Seq<char>| "cargo:warning="@ + l),
            strings_view(r@) == want.take(i as int),
        decreases lines.len() - i,
    {
        assert(strings_view(lines@)[i as int] == lines@[i as int]@);
        push_line(&mut r, prefixed("cargo:warning=", lines[i].as_str()));
        assert(want.take(i + 1) =~= want.take(i as int).push(want[i as int]));
        i = i + 1;
    }
    assert(want.take(i as int) =~= want);
    r
}

} // verus!
