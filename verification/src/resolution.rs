//! Where a Lean configuration comes from, and the policy that picks one.
//!
//! Resolution order: `DEP_LEAN4_LEO3_CONFIG`, then `LEO3_CONFIG_FILE`, then
//! host discovery (`LEO3_CROSS_*`, `LEAN_HOME`, lake, elan, PATH). Explicit
//! higher-priority inputs are authoritative: when one is present but fails,
//! its error is reported instead of falling back to a lower-priority source.
//! The build script performs each detection; [`Resolver`] decides which one
//! comes next and what the outcome is.
use vstd::prelude::*;
use vstd::string::*;
use crate::lean_config::{LeanConfig, LeanConfigView};
use crate::text::{owned, seq_join, strings_view};

verus! {

/// Where a [`LeanConfig`] was resolved from.
#[derive(Debug, Clone, Copy, PartialEq, Eq, Structural)]
pub enum LeanConfigSource {
    /// Cargo metadata exported by an upstream `links = "lean4"` crate.
    CargoDepEnv,
    /// A user-supplied key=value config file.
    ConfigFile,
    /// Cross-compilation environment variables.
    CrossCompileEnv,
    /// `LEAN_HOME` (plus optional `LEAN_LIB_DIR` / `LEAN_INCLUDE_DIR`).
    LeanHomeEnv,
    /// `lake env printenv LEAN_HOME`.
    Lake,
    /// `elan which lean`.
    Elan,
    /// `which lean` / `where.exe lean`.
    Path,
}

/// The name a source is shown under in diagnostics.
pub open spec fn source_label(s: LeanConfigSource) -> Seq<char> {
    match s {
        LeanConfigSource::CargoDepEnv => "DEP_LEAN4_LEO3_CONFIG"@,
        LeanConfigSource::ConfigFile => "LEO3_CONFIG_FILE"@,
        LeanConfigSource::CrossCompileEnv => "LEO3_CROSS_LIB_DIR + LEO3_CROSS_LEAN_VERSION"@,
        LeanConfigSource::LeanHomeEnv => "LEAN_HOME"@,
        LeanConfigSource::Lake => "lake env printenv LEAN_HOME"@,
        LeanConfigSource::Elan => "elan which lean"@,
        LeanConfigSource::Path => "PATH (lean)"@,
    }
}

impl LeanConfigSource {
    /// The name this source is shown under in diagnostics.
    pub fn label(self) -> (r: &'static str)
        ensures
            r@ == source_label(self),
    {
        match self {
            LeanConfigSource::CargoDepEnv => "DEP_LEAN4_LEO3_CONFIG",
            LeanConfigSource::ConfigFile => "LEO3_CONFIG_FILE",
            LeanConfigSource::CrossCompileEnv => "LEO3_CROSS_LIB_DIR + LEO3_CROSS_LEAN_VERSION",
            LeanConfigSource::LeanHomeEnv => "LEAN_HOME",
            LeanConfigSource::Lake => "lake env printenv LEAN_HOME",
            LeanConfigSource::Elan => "elan which lean",
            LeanConfigSource::Path => "PATH (lean)",
        }
    }
}

/// A [`LeanConfig`] paired with the source that produced it.
#[derive(Debug, Clone)]
pub struct ResolvedLeanConfig {
    pub source: LeanConfigSource,
    pub config: LeanConfig,
}

pub struct ResolvedLeanConfigView {
    pub source: LeanConfigSource,
    pub config: LeanConfigView,
}

impl View for ResolvedLeanConfig {
    type V = ResolvedLeanConfigView;

    open spec fn view(&self) -> ResolvedLeanConfigView {
        ResolvedLeanConfigView { source: self.source, config: self.config@ }
    }
}

/// One failed configuration attempt.
#[derive(Debug, Clone, PartialEq, Eq)]
pub struct ResolutionAttempt {
    pub source: LeanConfigSource,
    pub error: String,
}

pub struct ResolutionAttemptView {
    pub source: LeanConfigSource,
    pub error: Seq<char>,
}

impl View for ResolutionAttempt {
    type V = ResolutionAttemptView;

    open spec fn view(&self) -> ResolutionAttemptView {
        ResolutionAttemptView { source: self.source, error: self.error@ }
    }
}

pub open spec fn attempts_view(a: Seq<ResolutionAttempt>) -> Seq<ResolutionAttemptView> {
    a.map_values(|x: ResolutionAttempt| x@)
}

/// Rich error describing the resolution policy and every failed attempt.
#[derive(Debug, Clone, PartialEq, Eq)]
pub struct ResolutionError {
    pub summary: String,
    pub attempts: Vec<ResolutionAttempt>,
    pub hints: Vec<String>,
}

pub struct ResolutionErrorView {
    pub summary: Seq<char>,
    pub attempts: Seq<ResolutionAttemptView>,
    pub hints: Seq<Seq<char>>,
}

impl View for ResolutionError {
    type V = ResolutionErrorView;

    open spec fn view(&self) -> ResolutionErrorView {
        ResolutionErrorView {
            summary: self.summary@,
            attempts: attempts_view(self.attempts@),
            hints: strings_view(self.hints@),
        }
    }
}

/// An error that names one failed source.
pub open spec fn single_error(
    summary: Seq<char>,
    source: LeanConfigSource,
    error: Seq<char>,
    hints: Seq<Seq<char>>,
) -> ResolutionErrorView {
    ResolutionErrorView {
        summary,
        attempts: seq![ResolutionAttemptView { source, error }],
        hints,
    }
}

/// The hints given when every host discovery source failed.
pub open spec fn host_detection_hints() -> Seq<Seq<char>> {
    seq![
        "Host discovery order: LEO3_CROSS_* -> LEAN_HOME -> lake -> elan -> PATH"@,
        "Set LEO3_CONFIG_FILE=/path/to/leo3-build-config.txt to bypass host discovery"@,
        "Set LEO3_NO_LEAN=1 for compile-only builds that should not link Lean4"@,
    ]
}

/// The error given when every host discovery source failed.
pub open spec fn host_detection_error(attempts: Seq<ResolutionAttemptView>) -> ResolutionErrorView {
    ResolutionErrorView {
        summary: "failed to detect Lean4 via host discovery"@,
        attempts,
        hints: host_detection_hints(),
    }
}

pub open spec fn attempt_line(a: ResolutionAttemptView) -> Seq<char> {
    "  "@ + source_label(a.source) + ": "@ + a.error
}

pub open spec fn hint_line(h: Seq<char>) -> Seq<char> {
    "  hint: "@ + h
}

/// The warning lines of an error: the summary, one line per attempt, one per hint.
pub open spec fn warning_lines_spec(e: ResolutionErrorView) -> Seq<Seq<char>> {
    seq!["Failed to resolve Lean4 configuration: "@ + e.summary] + e.attempts.map_values(
        |a: ResolutionAttemptView| attempt_line(a),
    ) + e.hints.map_values(|h: Seq<char>| hint_line(h))
}

fn push_owned(v: &mut Vec<String>, s: &str)
    ensures
        strings_view(final(v)@) == strings_view(old(v)@).push(s@),
{
    v.push(owned(s));
    assert(strings_view(final(v)@) =~= strings_view(old(v)@).push(s@));
}

impl ResolutionError {
    /// An error naming one failed source.
    pub fn single(summary: &str, source: LeanConfigSource, error: String, hints: Vec<String>) -> (r:
        Self)
        ensures
            r@ == single_error(summary@, source, error@, strings_view(hints@)),
    {
        let mut attempts: Vec<ResolutionAttempt> = Vec::new();
        attempts.push(ResolutionAttempt { source, error });
        let r = ResolutionError { summary: owned(summary), attempts, hints };
        assert(r@.attempts =~= seq![ResolutionAttemptView { source, error: error@ }]);
        r
    }

    /// The error for a host discovery in which every source failed.
    pub fn host_detection(attempts: Vec<ResolutionAttempt>) -> (r: Self)
        ensures
            r@ == host_detection_error(attempts_view(attempts@)),
    {
        let mut hints: Vec<String> = Vec::new();
        push_owned(
            &mut hints,
            "Host discovery order: LEO3_CROSS_* -> LEAN_HOME -> lake -> elan -> PATH",
        );
        push_owned(
            &mut hints,
            "Set LEO3_CONFIG_FILE=/path/to/leo3-build-config.txt to bypass host discovery",
        );
        push_owned(&mut hints, "Set LEO3_NO_LEAN=1 for compile-only builds that should not link Lean4");
        assert(strings_view(hints@) =~= host_detection_hints());
        let r = ResolutionError {
            summary: owned("failed to detect Lean4 via host discovery"),
            attempts,
            hints,
        };
        assert(r@.hints =~= host_detection_hints());
        r
    }

    /// The lines a build script prints as `cargo:warning=`.
    pub fn warning_lines(&self) -> (r: Vec<String>)
        ensures
            strings_view(r@) == warning_lines_spec(self@),
    {
        let mut lines: Vec<String> = Vec::new();
        let mut first = owned("Failed to resolve Lean4 configuration: ");
        first.append(self.summary.as_str());
        lines.push(first);
        let ghost head = seq!["Failed to resolve Lean4 configuration: "@ + self.summary@];
        assert(strings_view(lines@) =~= head);
        let mut i: usize = 0;
        while i < self.attempts.len()
            invariant
                i <= self.attempts.len(),
                strings_view(lines@) == head + attempts_view(self.attempts@).take(i as int).map_values(
                    |a: ResolutionAttemptView| attempt_line(a),
                ),
            decreases self.attempts.len() - i,
        {
            let ghost prev = lines@;
            let a = &self.attempts[i];
            let mut line = owned("  ");
            line.append(a.source.label());
            line.append(": ");
            line.append(a.error.as_str());
            lines.push(line);
            proof {
                let av = attempts_view(self.attempts@);
                assert(av.take(i + 1) =~= av.take(i as int).push(av[i as int]));
                assert(strings_view(lines@) =~= strings_view(prev).push(line@));
                assert(line@ == attempt_line(av[i as int]));
                assert(strings_view(lines@) =~= head + av.take(i + 1).map_values(
                    |a: ResolutionAttemptView| attempt_line(a),
                ));
            }
            i = i + 1;
        }
        let ghost mid = head + attempts_view(self.attempts@).map_values(
            |a: ResolutionAttemptView| attempt_line(a),
        );
        assert(attempts_view(self.attempts@).take(i as int) =~= attempts_view(self.attempts@));
        let mut j: usize = 0;
        while j < self.hints.len()
            invariant
                j <= self.hints.len(),
                strings_view(lines@) == mid + strings_view(self.hints@).take(j as int).map_values(
                    |h: Seq<char>| hint_line(h),
                ),
            decreases self.hints.len() - j,
        {
            let ghost prev = lines@;
            let mut line = owned("  hint: ");
            line.append(self.hints[j].as_str());
            lines.push(line);
            proof {
                let hv = strings_view(self.hints@);
                assert(hv.take(j + 1) =~= hv.take(j as int).push(hv[j as int]));
                assert(strings_view(lines@) =~= strings_view(prev).push(line@));
                assert(line@ == hint_line(hv[j as int]));
                assert(strings_view(lines@) =~= mid + hv.take(j + 1).map_values(
                    |h: Seq<char>| hint_line(h),
                ));
            }
            j = j + 1;
        }
        assert(strings_view(self.hints@).take(j as int) =~= strings_view(self.hints@));
        lines
    }

    /// The whole error as text: its warning lines, one per line.
    pub fn message(&self) -> (r: String)
        ensures
            r@ == seq_join(warning_lines_spec(self@), "\n"@),
    {
        let lines = self.warning_lines();
        crate::text::join_strings(&lines, "\n")
    }
}

// ---------------------------------------------------------------------------
// The resolution policy
// ---------------------------------------------------------------------------

/// Which entry point is resolving.
#[derive(Debug, Clone, Copy, PartialEq, Eq, Structural)]
pub enum ResolutionPolicy {
    /// `DEP_LEAN4_LEO3_CONFIG`, then `LEO3_CONFIG_FILE`, then host discovery.
    Full,
    /// `LEO3_CONFIG_FILE`, then host discovery.
    UserOrDetect,
    /// Host discovery only.
    Host,
    /// Only the config exported by the upstream `links = "lean4"` crate.
    Upstream,
}

/// What the policy reads from the build environment.
#[derive(Debug, Clone)]
pub struct ResolutionInputs {
    /// `DEP_LEAN4_LEO3_CONFIG` is set.
    pub dep_config_set: bool,
    /// The value of `LEO3_CONFIG_FILE`, if set.
    pub config_file: Option<String>,
    /// `LEO3_CROSS_LIB_DIR` or `LEO3_CROSS_LEAN_VERSION` is set.
    pub cross_compile_set: bool,
    /// `LEAN_HOME` is set.
    pub lean_home_set: bool,
}

pub struct ResolutionInputsView {
    pub dep_config_set: bool,
    pub config_file: Option<Seq<char>>,
    pub cross_compile_set: bool,
    pub lean_home_set: bool,
}

impl View for ResolutionInputs {
    type V = ResolutionInputsView;

    open spec fn view(&self) -> ResolutionInputsView {
        ResolutionInputsView {
            dep_config_set: self.dep_config_set,
            config_file: crate::model::opt_str_view(self.config_file),
            cross_compile_set: self.cross_compile_set,
            lean_home_set: self.lean_home_set,
        }
    }
}

/// The sources host discovery tries, in order.
pub open spec fn host_route(i: ResolutionInputsView) -> Seq<LeanConfigSource> {
    if i.cross_compile_set {
        seq![LeanConfigSource::CrossCompileEnv]
    } else if i.lean_home_set {
        seq![LeanConfigSource::LeanHomeEnv]
    } else {
        seq![LeanConfigSource::Lake, LeanConfigSource::Elan, LeanConfigSource::Path]
    }
}

/// The sources a policy tries, in order; an explicit input stands alone.
pub open spec fn route(p: ResolutionPolicy, i: ResolutionInputsView) -> Seq<LeanConfigSource> {
    match p {
        ResolutionPolicy::Full => if i.dep_config_set {
            seq![LeanConfigSource::CargoDepEnv]
        } else if i.config_file is Some {
            seq![LeanConfigSource::ConfigFile]
        } else {
            host_route(i)
        },
        ResolutionPolicy::UserOrDetect => if i.config_file is Some {
            seq![LeanConfigSource::ConfigFile]
        } else {
            host_route(i)
        },
        ResolutionPolicy::Host => host_route(i),
        ResolutionPolicy::Upstream => if i.dep_config_set {
            seq![LeanConfigSource::CargoDepEnv]
        } else {
            Seq::empty()
        },
    }
}

/// Lake, elan and PATH: the sources that fall through to the next on failure.
pub open spec fn is_discovery(s: LeanConfigSource) -> bool {
    s is Lake || s is Elan || s is Path
}

/// The summary when an explicit source fails.
pub open spec fn failure_summary(s: LeanConfigSource) -> Seq<char> {
    match s {
        LeanConfigSource::CargoDepEnv => "DEP_LEAN4_LEO3_CONFIG was present but invalid"@,
        LeanConfigSource::ConfigFile => "LEO3_CONFIG_FILE was set but could not be loaded"@,
        LeanConfigSource::CrossCompileEnv => "LEO3_CROSS_* was set but could not be resolved"@,
        LeanConfigSource::LeanHomeEnv => "LEAN_HOME was set but could not be resolved"@,
        _ => "failed to detect Lean4 via host discovery"@,
    }
}

/// The hints when an explicit source fails (`path` is `LEO3_CONFIG_FILE`'s value).
pub open spec fn failure_hints(p: ResolutionPolicy, s: LeanConfigSource, path: Seq<char>) -> Seq<
    Seq<char>,
> {
    match s {
        LeanConfigSource::CargoDepEnv => if p is Upstream {
            seq![
                "Rebuild leo3-ffi so it can re-export a fresh Lean4 config"@,
                "If you set LEO3_CONFIG_FILE, set it for the leo3-ffi build so the propagated config stays in sync"@,
            ]
        } else {
            seq![
                "Rebuild the upstream links = \"lean4\" crate so it can export a fresh config"@,
                "Unset DEP_LEAN4_LEO3_CONFIG only if you intentionally want local discovery to run instead"@,
            ]
        },
        LeanConfigSource::ConfigFile => seq![
            "Unset LEO3_CONFIG_FILE to fall back to host discovery (current value: "@ + path + ")"@,
            "Set LEO3_NO_LEAN=1 for compile-only builds that should not link Lean4"@,
        ],
        LeanConfigSource::CrossCompileEnv => seq![
            "Unset LEO3_CROSS_LIB_DIR and LEO3_CROSS_LEAN_VERSION to fall back to host discovery"@,
            "Set LEO3_CONFIG_FILE=/path/to/leo3-build-config.txt to bypass host discovery entirely"@,
        ],
        LeanConfigSource::LeanHomeEnv => seq![
            "Unset LEAN_HOME to fall back to lake / elan / PATH discovery"@,
            "If you use LEAN_LIB_DIR or LEAN_INCLUDE_DIR, verify those override paths exist"@,
        ],
        _ => Seq::empty(),
    }
}

/// The error when the upstream policy finds no exported config.
pub open spec fn upstream_missing_error() -> ResolutionErrorView {
    single_error(
        "leo3 expects leo3-ffi to export DEP_LEAN4_LEO3_CONFIG"@,
        LeanConfigSource::CargoDepEnv,
        "not set"@,
        seq![
            "Build leo3 together with leo3-ffi so Cargo can propagate the shared Lean4 config"@,
            "If leo3-ffi could not detect Lean4, check its warnings or set LEO3_CONFIG_FILE / LEAN_HOME before building"@,
            "Set LEO3_NO_LEAN=1 for compile-only builds that should not link Lean4"@,
        ],
    )
}

/// What the build script does next.
#[derive(Debug)]
pub enum ResolutionStep {
    /// Detect from this source and report the outcome with [`Resolver::record`].
    Try(LeanConfigSource),
    /// Resolution has finished.
    Done(Result<ResolvedLeanConfig, ResolutionError>),
}

/// The state of one resolution: the route, the source being tried and the
/// discovery attempts that failed so far.
pub struct Resolver {
    policy: ResolutionPolicy,
    config_file: String,
    route: Vec<LeanConfigSource>,
    next: usize,
    attempts: Vec<ResolutionAttempt>,
}

impl Resolver {
    pub closed spec fn policy(&self) -> ResolutionPolicy {
        self.policy
    }

    /// `LEO3_CONFIG_FILE`'s value (empty when unset).
    pub closed spec fn config_file(&self) -> Seq<char> {
        self.config_file@
    }

    pub closed spec fn route_of(&self) -> Seq<LeanConfigSource> {
        self.route@
    }

    /// How many sources of the route were tried before the current one.
    pub closed spec fn position(&self) -> nat {
        self.next as nat
    }

    /// The failed discovery attempts so far.
    pub closed spec fn failed(&self) -> Seq<ResolutionAttemptView> {
        attempts_view(self.attempts@)
    }

    /// The source being tried.
    pub open spec fn pending(&self) -> LeanConfigSource {
        self.route_of()[self.position() as int]
    }

    /// A resolution that is waiting for the outcome of its pending source.
    pub closed spec fn wf(&self) -> bool {
        &&& self.next < self.route@.len()
        &&& self.route@.len() <= 3
        &&& self.attempts@.len() == self.next
        &&& forall|k: int| 0 <= k < self.next ==> #[trigger] self.failed()[k].source == self.route@[k]
    }

    /// Begin resolving under `policy`: the first source to try, or at once the
    /// error when the policy has nothing to try.
    pub fn start(policy: ResolutionPolicy, inputs: &ResolutionInputs) -> (r: (Resolver, ResolutionStep))
        ensures
            route(policy, inputs@).len() == 0 ==> (r.1 matches ResolutionStep::Done(Err(e)) && e@
                == upstream_missing_error()),
            route(policy, inputs@).len() > 0 ==> {
                &&& r.1 == ResolutionStep::Try(route(policy, inputs@)[0])
                &&& r.0.wf()
                &&& r.0.policy() == policy
                &&& r.0.route_of() == route(policy, inputs@)
                &&& r.0.position() == 0
                &&& r.0.failed() == Seq::<ResolutionAttemptView>::empty()
                &&& r.0.config_file() == match inputs@.config_file {
                    Some(p) => p,
                    None => Seq::<char>::empty(),
                }
            },
    {
        let mut order: Vec<LeanConfigSource> = Vec::new();
        let host_only = match policy {
            ResolutionPolicy::Full => !inputs.dep_config_set && inputs.config_file.is_none(),
            ResolutionPolicy::UserOrDetect => inputs.config_file.is_none(),
            ResolutionPolicy::Host => true,
            ResolutionPolicy::Upstream => false,
        };
        if host_only {
            if inputs.cross_compile_set {
                order.push(LeanConfigSource::CrossCompileEnv);
            } else if inputs.lean_home_set {
                order.push(LeanConfigSource::LeanHomeEnv);
            } else {
                order.push(LeanConfigSource::Lake);
                order.push(LeanConfigSource::Elan);
                order.push(LeanConfigSource::Path);
            }
        } else if inputs.dep_config_set && !(policy == ResolutionPolicy::UserOrDetect) {
            order.push(LeanConfigSource::CargoDepEnv);
        } else if policy == ResolutionPolicy::Full || policy == ResolutionPolicy::UserOrDetect {
            order.push(LeanConfigSource::ConfigFile);
        }
        assert(order@ =~= route(policy, inputs@));
        let config_file = match &inputs.config_file {
            Some(p) => p.clone(),
            None => String::new(),
        };
        let resolver = Resolver {
            policy,
            config_file,
            route: order,
            next: 0,
            attempts: Vec::new(),
        };
        if resolver.route.len() == 0 {
            let mut hints: Vec<String> = Vec::new();
            push_owned(
                &mut hints,
                "Build leo3 together with leo3-ffi so Cargo can propagate the shared Lean4 config",
            );
            push_owned(
                &mut hints,
                "If leo3-ffi could not detect Lean4, check its warnings or set LEO3_CONFIG_FILE / LEAN_HOME before building",
            );
            push_owned(
                &mut hints,
                "Set LEO3_NO_LEAN=1 for compile-only builds that should not link Lean4",
            );
            assert(strings_view(hints@) =~= upstream_missing_error().hints);
            let e = ResolutionError::single(
                "leo3 expects leo3-ffi to export DEP_LEAN4_LEO3_CONFIG",
                LeanConfigSource::CargoDepEnv,
                owned("not set"),
                hints,
            );
            assert(e@ =~= upstream_missing_error());
            (resolver, ResolutionStep::Done(Err(e)))
        } else {
            assert(resolver.failed() =~= Seq::<ResolutionAttemptView>::empty());
            let first = resolver.route[0];
            (resolver, ResolutionStep::Try(first))
        }
    }

    fn failure_hint_lines(&self, source: LeanConfigSource) -> (r: Vec<String>)
        ensures
            strings_view(r@) == failure_hints(self.policy(), source, self.config_file()),
    {
        let mut v: Vec<String> = Vec::new();
        match source {
            LeanConfigSource::CargoDepEnv => {
                if self.policy == ResolutionPolicy::Upstream {
                    push_owned(&mut v, "Rebuild leo3-ffi so it can re-export a fresh Lean4 config");
                    push_owned(
                        &mut v,
                        "If you set LEO3_CONFIG_FILE, set it for the leo3-ffi build so the propagated config stays in sync",
                    );
                } else {
                    push_owned(
                        &mut v,
                        "Rebuild the upstream links = \"lean4\" crate so it can export a fresh config",
                    );
                    push_owned(
                        &mut v,
                        "Unset DEP_LEAN4_LEO3_CONFIG only if you intentionally want local discovery to run instead",
                    );
                }
            },
            LeanConfigSource::ConfigFile => {
                let mut first = owned(
                    "Unset LEO3_CONFIG_FILE to fall back to host discovery (current value: ",
                );
                first.append(self.config_file.as_str());
                first.append(")");
                v.push(first);
                push_owned(&mut v, "Set LEO3_NO_LEAN=1 for compile-only builds that should not link Lean4");
            },
            LeanConfigSource::CrossCompileEnv => {
                push_owned(
                    &mut v,
                    "Unset LEO3_CROSS_LIB_DIR and LEO3_CROSS_LEAN_VERSION to fall back to host discovery",
                );
                push_owned(
                    &mut v,
                    "Set LEO3_CONFIG_FILE=/path/to/leo3-build-config.txt to bypass host discovery entirely",
                );
            },
            LeanConfigSource::LeanHomeEnv => {
                push_owned(&mut v, "Unset LEAN_HOME to fall back to lake / elan / PATH discovery");
                push_owned(
                    &mut v,
                    "If you use LEAN_LIB_DIR or LEAN_INCLUDE_DIR, verify those override paths exist",
                );
            },
            _ => {},
        }
        assert(strings_view(v@) =~= failure_hints(self.policy(), source, self.config_file()));
        v
    }

    fn failure_summary_text(source: LeanConfigSource) -> (r: &'static str)
        ensures
            r@ == failure_summary(source),
    {
        match source {
            LeanConfigSource::CargoDepEnv => "DEP_LEAN4_LEO3_CONFIG was present but invalid",
            LeanConfigSource::ConfigFile => "LEO3_CONFIG_FILE was set but could not be loaded",
            LeanConfigSource::CrossCompileEnv => "LEO3_CROSS_* was set but could not be resolved",
            LeanConfigSource::LeanHomeEnv => "LEAN_HOME was set but could not be resolved",
            _ => "failed to detect Lean4 via host discovery",
        }
    }

    /// Report the outcome of the pending source. A success ends resolution
    /// with that source. A failure of an explicit source ends it with that
    /// source's error alone; a failed discovery source moves on to the next,
    /// and when none is left all discovery attempts are reported.
    pub fn record(&mut self, outcome: Result<LeanConfig, String>) -> (r: ResolutionStep)
        requires
            old(self).wf(),
        ensures
            ({
                let s = old(self).pending();
                match outcome {
                    Ok(c) => (r matches ResolutionStep::Done(Ok(rc)) && rc.source == s && rc.config@
                        == c@),
                    Err(e) => if !is_discovery(s) {
                        (r matches ResolutionStep::Done(Err(err)) && err@ == single_error(
                            failure_summary(s),
                            s,
                            e@,
                            failure_hints(old(self).policy(), s, old(self).config_file()),
                        ))
                    } else {
                        let failed = old(self).failed().push(ResolutionAttemptView { source: s, error: e@ });
                        if old(self).position() + 1 < old(self).route_of().len() {
                            &&& r == ResolutionStep::Try(old(self).route_of()[old(self).position() + 1int])
                            &&& final(self).wf()
                            &&& final(self).policy() == old(self).policy()
                            &&& final(self).config_file() == old(self).config_file()
                            &&& final(self).route_of() == old(self).route_of()
                            &&& final(self).position() == old(self).position() + 1
                            &&& final(self).failed() == failed
                        } else {
                            (r matches ResolutionStep::Done(Err(err)) && err@ == host_detection_error(failed))
                        }
                    },
                }
            }),
    {
        let source = self.route[self.next];
        match outcome {
            Ok(config) => ResolutionStep::Done(Ok(ResolvedLeanConfig { source, config })),
            Err(error) => {
                let discovery = match source {
                    LeanConfigSource::Lake | LeanConfigSource::Elan | LeanConfigSource::Path => true,
                    _ => false,
                };
                if !discovery {
                    let hints = self.failure_hint_lines(source);
                    let e = ResolutionError::single(
                        Resolver::failure_summary_text(source),
                        source,
                        error,
                        hints,
                    );
                    ResolutionStep::Done(Err(e))
                } else {
                    let ghost before = attempts_view(self.attempts@);
                    self.attempts.push(ResolutionAttempt { source, error });
                    proof {
                        assert(attempts_view(self.attempts@) =~= before.push(
                            ResolutionAttemptView { source, error: error@ },
                        ));
                    }
                    if self.next + 1 < self.route.len() {
                        self.next = self.next + 1;
                        let next = self.route[self.next];
                        ResolutionStep::Try(next)
                    } else {
                        let mut attempts: Vec<ResolutionAttempt> = Vec::new();
                        std::mem::swap(&mut attempts, &mut self.attempts);
                        ResolutionStep::Done(Err(ResolutionError::host_detection(attempts)))
                    }
                }
            },
        }
    }
}

/// Law: an explicit input is authoritative. When the policy reads it, it is
/// the only source tried, and it is never a discovery source, so its failure
/// ends resolution (see [`Resolver::record`]).
pub proof fn lemma_explicit_input_authoritative(p: ResolutionPolicy, i: ResolutionInputsView)
    ensures
        (p is Full || p is Upstream) && i.dep_config_set ==> route(p, i) == seq![
            LeanConfigSource::CargoDepEnv,
        ],
        (p is UserOrDetect || (p is Full && !i.dep_config_set)) && i.config_file is Some ==> route(
            p,
            i,
        ) == seq![LeanConfigSource::ConfigFile],
        !(p is Upstream) && !((p is Full && i.dep_config_set) || (!(p is Host)
            && i.config_file is Some)) && i.cross_compile_set ==> route(p, i) == seq![
            LeanConfigSource::CrossCompileEnv,
        ],
        route(p, i).len() == 1 ==> !is_discovery(route(p, i)[0]),
        route(p, i).len() <= 3,
{
}

/// Law: without explicit inputs, host discovery tries lake, then elan, then
/// PATH, and nothing else.
pub proof fn lemma_discovery_order(p: ResolutionPolicy, i: ResolutionInputsView)
    requires
        !(p is Upstream),
        !(p is Full && i.dep_config_set),
        p is Host || i.config_file is None,
        !i.cross_compile_set,
        !i.lean_home_set,
    ensures
        route(p, i) == seq![LeanConfigSource::Lake, LeanConfigSource::Elan, LeanConfigSource::Path],
        forall|k: int| 0 <= k < route(p, i).len() ==> is_discovery(#[trigger] route(p, i)[k]),
{
}

/// The attempts recorded for the tried sources of a route.
pub open spec fn tried_attempts(rt: Seq<LeanConfigSource>, outs: Seq<Result<LeanConfig, String>>) -> Seq<
    ResolutionAttemptView,
> {
    Seq::new(
        outs.len(),
        |k: int| ResolutionAttemptView {
            source: rt[k],
            error: match outs[k] {
                Ok(_) => Seq::<char>::empty(),
                Err(e) => e@,
            },
        },
    )
}

/// Whether `outs` are the detection outcomes of the sources a resolution
/// tries along route `rt`: every outcome but the last is a failed discovery
/// source, and the walk stops at the first success, at the first failure of
/// an explicit source, or at the end of the route.
pub open spec fn tried_walk(rt: Seq<LeanConfigSource>, outs: Seq<Result<LeanConfig, String>>) -> bool {
    &&& 1 <= outs.len() <= rt.len()
    &&& forall|k: int| 0 <= k < outs.len() - 1 ==> (#[trigger] outs[k]) is Err && is_discovery(rt[k])
    &&& (outs.last() is Ok || !is_discovery(rt[outs.len() - 1]) || outs.len() == rt.len())
}

/// The result of a resolution that tried `outs` along route `rt`: the last
/// outcome's success, that explicit source's error, or every discovery
/// attempt.
pub open spec fn walk_result(
    p: ResolutionPolicy,
    path: Seq<char>,
    rt: Seq<LeanConfigSource>,
    outs: Seq<Result<LeanConfig, String>>,
) -> Result<ResolvedLeanConfigView, ResolutionErrorView> {
    let s = rt[outs.len() - 1];
    match outs.last() {
        Ok(c) => Ok(ResolvedLeanConfigView { source: s, config: c@ }),
        Err(e) => if !is_discovery(s) {
            Err(single_error(failure_summary(s), s, e@, failure_hints(p, s, path)))
        } else {
            Err(host_detection_error(tried_attempts(rt, outs)))
        },
    }
}

/// Run a resolution under `policy`, asking `detect` for each source the
/// resolver tries, in route order.
pub fn resolve_with<D: Fn(LeanConfigSource) -> Result<LeanConfig, String>>(
    policy: ResolutionPolicy,
    inputs: &ResolutionInputs,
    detect: D,
) -> (r: Result<ResolvedLeanConfig, ResolutionError>)
    requires
        forall|s: LeanConfigSource| #[trigger] detect.requires((s,)),
    ensures
        route(policy, inputs@).len() == 0 ==> (r matches Err(e) && e@ == upstream_missing_error()),
        route(policy, inputs@).len() > 0 ==> exists|outs: Seq<Result<LeanConfig, String>>|
            #![trigger tried_walk(route(policy, inputs@), outs)]
            {
                &&& tried_walk(route(policy, inputs@), outs)
                &&& forall|k: int|
                    0 <= k < outs.len() ==> detect.ensures((route(policy, inputs@)[k],), #[trigger] outs[k])
                &&& resolved_result_view(r) == walk_result(
                    policy,
                    match inputs@.config_file {
                        Some(p) => p,
                        None => Seq::<char>::empty(),
                    },
                    route(policy, inputs@),
                    outs,
                )
            },
{
    let ghost rt = route(policy, inputs@);
    let ghost path = match inputs@.config_file {
        Some(p) => p,
        None => Seq::<char>::empty(),
    };
    let (mut resolver, mut step) = Resolver::start(policy, inputs);
    let ghost mut outs: Seq<Result<LeanConfig, String>> = Seq::empty();
    loop
        invariant
            forall|s: LeanConfigSource| #[trigger] detect.requires((s,)),
            rt == route(policy, inputs@),
            path == match inputs@.config_file {
                Some(p) => p,
                None => Seq::<char>::empty(),
            },
            rt.len() == 0 ==> (step matches ResolutionStep::Done(Err(e)) && e@ == upstream_missing_error()),
            step matches ResolutionStep::Try(src) ==> {
                &&& resolver.wf()
                &&& resolver.policy() == policy
                &&& resolver.config_file() == path
                &&& resolver.route_of() == rt
                &&& resolver.position() == outs.len()
                &&& src == resolver.pending()
                &&& resolver.failed() == tried_attempts(rt, outs)
                &&& forall|k: int| 0 <= k < outs.len() ==> (#[trigger] outs[k]) is Err && is_discovery(rt[k])
                &&& forall|k: int| 0 <= k < outs.len() ==> detect.ensures((rt[k],), #[trigger] outs[k])
            },
            step is Done && rt.len() > 0 ==> {
                &&& tried_walk(rt, outs)
                &&& forall|k: int| 0 <= k < outs.len() ==> detect.ensures((rt[k],), #[trigger] outs[k])
                &&& resolved_result_view(step->Done_0) == walk_result(policy, path, rt, outs)
            },
        decreases rt.len() - outs.len(),
    {
        match step {
            ResolutionStep::Done(result) => {
                proof {
                    if rt.len() > 0 {
                        assert(tried_walk(rt, outs));
                        assert(resolved_result_view(result) == walk_result(policy, path, rt, outs));
                    }
                }
                return result;
            },
            ResolutionStep::Try(source) => {
                let outcome = detect(source);
                proof {
                    let old_outs = outs;
                    outs = outs.push(outcome);
                    assert forall|k: int| 0 <= k < old_outs.len() implies outs[k] == old_outs[k] by {}
                    assert(tried_attempts(rt, old_outs).push(
                        ResolutionAttemptView {
                            source: rt[old_outs.len() as int],
                            error: match outcome {
                                Ok(_) => Seq::<char>::empty(),
                                Err(e) => e@,
                            },
                        },
                    ) =~= tried_attempts(rt, outs));
                }
                step = resolver.record(outcome);
            },
        }
    }
}

/// Law: with no explicit input, a host resolution returns the first
/// success among lake, elan and PATH (the later ones are not tried), and
/// when all three fail, the host discovery error with their three attempts
/// in that order and its three hints.
pub proof fn lemma_host_resolution(
    p: ResolutionPolicy,
    i: ResolutionInputsView,
    outs: Seq<Result<LeanConfig, String>>,
)
    requires
        !(p is Upstream),
        !(p is Full && i.dep_config_set),
        p is Host || i.config_file is None,
        !i.cross_compile_set,
        !i.lean_home_set,
        tried_walk(route(p, i), outs),
    ensures
        ({
            let path = match i.config_file {
                Some(f) => f,
                None => Seq::<char>::empty(),
            };
            let hosts = seq![LeanConfigSource::Lake, LeanConfigSource::Elan, LeanConfigSource::Path];
            match walk_result(p, path, route(p, i), outs) {
                Ok(rc) => outs.last() matches Ok(c) && rc.source == hosts[outs.len() - 1] && rc.config
                    == c@ && forall|k: int| 0 <= k < outs.len() - 1 ==> (#[trigger] outs[k]) is Err,
                Err(e) => {
                    &&& outs.len() == 3
                    &&& e.summary == "failed to detect Lean4 via host discovery"@
                    &&& e.attempts.len() == 3
                    &&& forall|k: int| 0 <= k < 3 ==> (#[trigger] e.attempts[k]).source == hosts[k]
                    &&& e.hints.len() == 3
                },
            }
        }),
{
    lemma_discovery_order(p, i);
    let rt = route(p, i);
    assert(is_discovery(rt[outs.len() - 1]));
}

/// Law: when `LEO3_CONFIG_FILE` is set (and the policy reads it before
/// anything else), the file is the only source tried: its configuration, or
/// its failure with one attempt; host discovery never runs.
pub proof fn lemma_config_file_resolution(
    p: ResolutionPolicy,
    i: ResolutionInputsView,
    outs: Seq<Result<LeanConfig, String>>,
)
    requires
        p is UserOrDetect || (p is Full && !i.dep_config_set),
        i.config_file is Some,
        tried_walk(route(p, i), outs),
    ensures
        outs.len() == 1,
        match walk_result(p, i.config_file->Some_0, route(p, i), outs) {
            Ok(rc) => rc.source == LeanConfigSource::ConfigFile && (outs[0] matches Ok(c) && rc.config == c@),
            Err(e) => {
                &&& e.summary == "LEO3_CONFIG_FILE was set but could not be loaded"@
                &&& e.attempts.len() == 1
                &&& e.attempts[0].source == LeanConfigSource::ConfigFile
                &&& outs[0] matches Err(m) && e.attempts[0].error == m@
            },
        },
{
    lemma_explicit_input_authoritative(p, i);
}

/// Law: when `DEP_LEAN4_LEO3_CONFIG` is not set, the full policy resolves
/// exactly as the user-or-detect policy: the same sources in the same order,
/// and the same result for the same detection outcomes.
pub proof fn lemma_full_without_dep_env(
    i: ResolutionInputsView,
    outs: Seq<Result<LeanConfig, String>>,
    path: Seq<char>,
)
    requires
        !i.dep_config_set,
    ensures
        route(ResolutionPolicy::Full, i) == route(ResolutionPolicy::UserOrDetect, i),
        tried_walk(route(ResolutionPolicy::Full, i), outs) ==> walk_result(
            ResolutionPolicy::Full,
            path,
            route(ResolutionPolicy::Full, i),
            outs,
        ) == walk_result(ResolutionPolicy::UserOrDetect, path, route(ResolutionPolicy::UserOrDetect, i), outs),
{
    let rt = route(ResolutionPolicy::Full, i);
    if tried_walk(rt, outs) {
        assert(rt[outs.len() - 1] != LeanConfigSource::CargoDepEnv);
    }
}

/// Law: when `DEP_LEAN4_LEO3_CONFIG` is set, the full and upstream policies
/// try it alone: its configuration, or its failure with one attempt and the
/// summary that names it.
pub proof fn lemma_dep_env_resolution(
    p: ResolutionPolicy,
    i: ResolutionInputsView,
    outs: Seq<Result<LeanConfig, String>>,
    path: Seq<char>,
)
    requires
        p is Full || p is Upstream,
        i.dep_config_set,
        tried_walk(route(p, i), outs),
    ensures
        outs.len() == 1,
        match walk_result(p, path, route(p, i), outs) {
            Ok(rc) => rc.source == LeanConfigSource::CargoDepEnv && (outs[0] matches Ok(c) && rc.config == c@),
            Err(e) => {
                &&& e.summary == "DEP_LEAN4_LEO3_CONFIG was present but invalid"@
                &&& e.attempts.len() == 1
                &&& e.attempts[0].source == LeanConfigSource::CargoDepEnv
                &&& outs[0] matches Err(m) && e.attempts[0].error == m@
            },
        },
{
    lemma_explicit_input_authoritative(p, i);
}

// ---------------------------------------------------------------------------
// The per-build cache
// ---------------------------------------------------------------------------

/// A resolved configuration remembered across calls within one build script.
pub struct LeanConfigCache {
    entry: Option<ResolvedLeanConfig>,
}

/// The view of a resolution result.
pub open spec fn resolved_result_view(r: Result<ResolvedLeanConfig, ResolutionError>) -> Result<
    ResolvedLeanConfigView,
    ResolutionErrorView,
> {
    match r {
        Ok(x) => Ok(x@),
        Err(e) => Err(e@),
    }
}

/// The configuration part of a resolution result.
pub open spec fn config_result_view(r: Result<ResolvedLeanConfig, ResolutionError>) -> Result<
    LeanConfigView,
    ResolutionErrorView,
> {
    match r {
        Ok(x) => Ok(x.config@),
        Err(e) => Err(e@),
    }
}

fn copy_config(c: &LeanConfig) -> (r: LeanConfig)
    ensures
        r@ == c@,
{
    LeanConfig {
        lean_home: c.lean_home.clone(),
        lean_lib_dir: c.lean_lib_dir.clone(),
        lean_include_dir: c.lean_include_dir.clone(),
        version: c.version,
        shared: c.shared,
        allocator: c.allocator,
        pointer_width: c.pointer_width,
    }
}

impl LeanConfigCache {
    /// An empty cache.
    pub fn new() -> (c: Self)
        ensures
            c.cached() is None,
    {
        LeanConfigCache { entry: None }
    }

    /// The remembered resolution, if any.
    pub closed spec fn cached(&self) -> Option<ResolvedLeanConfigView> {
        match self.entry {
            Some(x) => Some(x@),
            None => None,
        }
    }
}

/// Detect the Lean configuration once, returning the source too: a remembered
/// success is returned again without resolving; otherwise `resolve` runs and a
/// success is remembered.
pub fn get_lean_config_with_source<F: FnOnce() -> Result<ResolvedLeanConfig, ResolutionError>>(
    cache: &mut LeanConfigCache,
    resolve: F,
) -> (r: Result<ResolvedLeanConfig, ResolutionError>)
    requires
        resolve.requires(()),
    ensures
        match old(cache).cached() {
            Some(c) => (r matches Ok(x) && x@ == c) && final(cache).cached() == old(cache).cached(),
            None => {
                &&& resolve.ensures((), r)
                &&& final(cache).cached() == match r {
                    Ok(x) => Some(x@),
                    Err(_) => None::<ResolvedLeanConfigView>,
                }
            },
        },
{
    match &cache.entry {
        Some(c) => {
            return Ok(ResolvedLeanConfig { source: c.source, config: copy_config(&c.config) });
        },
        None => {},
    }
    let r = resolve();
    match &r {
        Ok(x) => {
            cache.entry = Some(ResolvedLeanConfig { source: x.source, config: copy_config(&x.config) });
        },
        Err(_) => {},
    }
    r
}

/// Detect the Lean configuration once, with a typed error.
pub fn resolve_lean_config<F: FnOnce() -> Result<ResolvedLeanConfig, ResolutionError>>(
    cache: &mut LeanConfigCache,
    resolve: F,
) -> (r: Result<LeanConfig, ResolutionError>)
    requires
        resolve.requires(()),
    ensures
        match old(cache).cached() {
            Some(c) => (r matches Ok(x) && x@ == c.config) && final(cache).cached()
                == old(cache).cached(),
            None => exists|y: Result<ResolvedLeanConfig, ResolutionError>|
                #![trigger resolve.ensures((), y)]
                {
                    &&& resolve.ensures((), y)
                    &&& config_result_view(y) == match r {
                        Ok(x) => Ok::<LeanConfigView, ResolutionErrorView>(x@),
                        Err(e) => Err(e@),
                    }
                    &&& final(cache).cached() == match y {
                        Ok(x) => Some(x@),
                        Err(_) => None::<ResolvedLeanConfigView>,
                    }
                },
        },
{
    match get_lean_config_with_source(cache, resolve) {
        Ok(resolved) => Ok(resolved.config),
        Err(e) => Err(e),
    }
}

/// Detect the Lean configuration once (same as [`resolve_lean_config`]).
pub fn get_lean_config<F: FnOnce() -> Result<ResolvedLeanConfig, ResolutionError>>(
    cache: &mut LeanConfigCache,
    resolve: F,
) -> (r: Result<LeanConfig, ResolutionError>)
    requires
        resolve.requires(()),
    ensures
        match old(cache).cached() {
            Some(c) => (r matches Ok(x) && x@ == c.config) && final(cache).cached()
                == old(cache).cached(),
            None => exists|y: Result<ResolvedLeanConfig, ResolutionError>|
                #![trigger resolve.ensures((), y)]
                {
                    &&& resolve.ensures((), y)
                    &&& config_result_view(y) == match r {
                        Ok(x) => Ok::<LeanConfigView, ResolutionErrorView>(x@),
                        Err(e) => Err(e@),
                    }
                    &&& final(cache).cached() == match y {
                        Ok(x) => Some(x@),
                        Err(_) => None::<ResolvedLeanConfigView>,
                    }
                },
        },
{
    resolve_lean_config(cache, resolve)
}

/// Detect the Lean configuration once, with the error as its text.
pub fn get_lean_config_string<F: FnOnce() -> Result<ResolvedLeanConfig, ResolutionError>>(
    cache: &mut LeanConfigCache,
    resolve: F,
) -> (r: Result<LeanConfig, String>)
    requires
        resolve.requires(()),
    ensures
        match old(cache).cached() {
            Some(c) => (r matches Ok(x) && x@ == c.config) && final(cache).cached()
                == old(cache).cached(),
            None => exists|y: Result<ResolvedLeanConfig, ResolutionError>|
                #![trigger resolve.ensures((), y)]
                {
                    &&& resolve.ensures((), y)
                    &&& match y {
                        Ok(x) => r matches Ok(c) && c@ == x.config@,
                        Err(e) => r matches Err(m) && m@ == seq_join(
                            warning_lines_spec(e@),
                            "\n"@,
                        ),
                    }
                    &&& final(cache).cached() == match y {
                        Ok(x) => Some(x@),
                        Err(_) => None::<ResolvedLeanConfigView>,
                    }
                },
        },
{
    match get_lean_config_with_source(cache, resolve) {
        Ok(resolved) => Ok(resolved.config),
        Err(e) => Err(e.message()),
    }
}


/// The Lean configuration of a host resolution: the configuration of a
/// success, or the resolution error as its text. `resolve` performs the
/// host resolution (discovery in its fixed order).
pub fn detect_lean_config<F: FnOnce() -> Result<ResolvedLeanConfig, ResolutionError>>(
    resolve: F,
) -> (r: Result<LeanConfig, String>)
    requires
        resolve.requires(()),
    ensures
        exists|y: Result<ResolvedLeanConfig, ResolutionError>|
            #![trigger resolve.ensures((), y)]
            {
                &&& resolve.ensures((), y)
                &&& match y {
                    Ok(x) => r matches Ok(c) && c@ == x.config@,
                    Err(e) => r matches Err(m) && m@ == seq_join(warning_lines_spec(e@), "\n"@),
                }
            },
{
    match resolve() {
        Ok(resolved) => Ok(resolved.config),
        Err(e) => Err(e.message()),
    }
}
} // verus!
