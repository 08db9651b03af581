use leo3_tooling::detection::{
    check_lean_installation, command_failed_message, detect_allocator_from_include_dir_best_effort,
    first_line_trimmed, format_command_failure, has_shared_libs, installation_config,
    lean_binary_in_home, lean_home_from_prefix, lean_version_from_output, resolved,
    shared_lib_names, CrossCompileConfig,
};
use leo3_tooling::directives::{
    allocator_cfg_lines, no_lean_dynamic_lookup_link_args, rerun_if_env_changed_lines,
    version_cfg_lines,
};
use leo3_tooling::lean_config::{LeanAllocator, LeanConfig};
use leo3_tooling::resolution::{
    resolve_with, LeanConfigSource, ResolutionInputs, ResolutionPolicy, ResolutionStep, Resolver,
};
use leo3_tooling::version::LeanVersion;

fn config(v: &str) -> LeanConfig {
    LeanConfig {
        lean_home: "/opt/lean".to_string(),
        lean_lib_dir: "/opt/lean/lib/lean".to_string(),
        lean_include_dir: "/opt/lean/include".to_string(),
        version: LeanVersion::parse(v).unwrap(),
        shared: true,
        allocator: LeanAllocator::Mimalloc,
        pointer_width: Some(64),
    }
}

fn inputs(dep: bool, file: Option<&str>, cross: bool, home: bool) -> ResolutionInputs {
    ResolutionInputs {
        dep_config_set: dep,
        config_file: file.map(str::to_string),
        cross_compile_set: cross,
        lean_home_set: home,
    }
}

fn expect_try(step: &ResolutionStep) -> LeanConfigSource {
    match step {
        ResolutionStep::Try(s) => *s,
        ResolutionStep::Done(_) => panic!("expected another source to try"),
    }
}

#[test]
fn dep_env_is_tried_first_and_alone() {
    let (mut r, step) = Resolver::start(ResolutionPolicy::Full, &inputs(true, Some("/x.txt"), false, true));
    assert_eq!(expect_try(&step), LeanConfigSource::CargoDepEnv);
    match r.record(Ok(config("4.25.2"))) {
        ResolutionStep::Done(Ok(resolved)) => {
            assert_eq!(resolved.source, LeanConfigSource::CargoDepEnv);
            assert_eq!(resolved.config.version, LeanVersion { major: 4, minor: 25, patch: 2 });
        }
        other => panic!("unexpected {other:?}"),
    }
}

#[test]
fn config_file_failure_stops_with_its_error() {
    let (mut r, step) = Resolver::start(ResolutionPolicy::Full, &inputs(false, Some("/nope.txt"), false, false));
    assert_eq!(expect_try(&step), LeanConfigSource::ConfigFile);
    match r.record(Err("cannot read".to_string())) {
        ResolutionStep::Done(Err(e)) => {
            assert_eq!(e.summary, "LEO3_CONFIG_FILE was set but could not be loaded");
            assert_eq!(e.attempts.len(), 1);
            assert_eq!(e.attempts[0].source, LeanConfigSource::ConfigFile);
            assert_eq!(e.attempts[0].error, "cannot read");
            assert!(e.hints[0].contains("(current value: /nope.txt)"));
        }
        other => panic!("unexpected {other:?}"),
    }
}

#[test]
fn user_or_detect_prefers_the_config_file() {
    let (_, step) = Resolver::start(ResolutionPolicy::UserOrDetect, &inputs(true, Some("/c.txt"), true, true));
    assert_eq!(expect_try(&step), LeanConfigSource::ConfigFile);
}

#[test]
fn lean_home_failure_is_the_only_attempt() {
    let (mut r, step) = Resolver::start(ResolutionPolicy::Host, &inputs(false, None, false, true));
    assert_eq!(expect_try(&step), LeanConfigSource::LeanHomeEnv);
    let problem = check_lean_installation("/definitely/not/here", "/i", "/l", false, false, false)
        .unwrap_err();
    match r.record(Err(problem)) {
        ResolutionStep::Done(Err(e)) => {
            assert_eq!(e.attempts.len(), 1);
            assert_eq!(e.attempts[0].source, LeanConfigSource::LeanHomeEnv);
            assert!(e.attempts[0].error.contains("Lean home does not exist"));
        }
        other => panic!("unexpected {other:?}"),
    }
}

#[test]
fn partial_cross_compile_env_is_the_only_attempt() {
    let (mut r, step) = Resolver::start(ResolutionPolicy::Host, &inputs(false, None, true, true));
    assert_eq!(expect_try(&step), LeanConfigSource::CrossCompileEnv);
    let problem = CrossCompileConfig::from_values(Some("/definitely/not/here".to_string()), None)
        .unwrap_err();
    match r.record(Err(problem)) {
        ResolutionStep::Done(Err(e)) => {
            assert_eq!(e.attempts.len(), 1);
            assert_eq!(e.attempts[0].source, LeanConfigSource::CrossCompileEnv);
            assert!(e.attempts[0].error.contains("LEO3_CROSS_LEAN_VERSION not set"));
        }
        other => panic!("unexpected {other:?}"),
    }
}

#[test]
fn discovery_falls_through_lake_elan_path() {
    let (mut r, step) = Resolver::start(ResolutionPolicy::Host, &inputs(false, None, false, false));
    assert_eq!(expect_try(&step), LeanConfigSource::Lake);
    let step = r.record(Err("lake not found".to_string()));
    assert_eq!(expect_try(&step), LeanConfigSource::Elan);
    let step = r.record(Err("elan not found".to_string()));
    assert_eq!(expect_try(&step), LeanConfigSource::Path);
    match r.record(Err("lean not on PATH".to_string())) {
        ResolutionStep::Done(Err(e)) => {
            let sources: Vec<_> = e.attempts.iter().map(|a| a.source).collect();
            assert_eq!(
                sources,
                vec![LeanConfigSource::Lake, LeanConfigSource::Elan, LeanConfigSource::Path]
            );
            assert_eq!(e.summary, "failed to detect Lean4 via host discovery");
            assert!(e.warning_lines().iter().any(|l| l.contains("Host discovery order")));
        }
        other => panic!("unexpected {other:?}"),
    }
}

#[test]
fn discovery_success_ends_the_walk() {
    let (mut r, _) = Resolver::start(ResolutionPolicy::Full, &inputs(false, None, false, false));
    let step = r.record(Err("lake not found".to_string()));
    assert_eq!(expect_try(&step), LeanConfigSource::Elan);
    match r.record(Ok(config("4.30.0"))) {
        ResolutionStep::Done(Ok(resolved)) => assert_eq!(resolved.source, LeanConfigSource::Elan),
        other => panic!("unexpected {other:?}"),
    }
}

#[test]
fn upstream_without_dep_env_fails_at_once() {
    match Resolver::start(ResolutionPolicy::Upstream, &inputs(false, Some("/c.txt"), false, true)).1 {
        ResolutionStep::Done(Err(e)) => {
            assert_eq!(e.summary, "leo3 expects leo3-ffi to export DEP_LEAN4_LEO3_CONFIG");
            assert_eq!(e.attempts[0].source, LeanConfigSource::CargoDepEnv);
            assert_eq!(e.attempts[0].error, "not set");
        }
        other => panic!("unexpected {other:?}"),
    }
}

#[test]
fn installation_checks_in_order() {
    assert_eq!(
        check_lean_installation("/h", "/h/include", "/h/missing-lib", true, true, false),
        Err("library directory not found: /h/missing-lib".to_string())
    );
    assert_eq!(
        check_lean_installation("/h", "/h/include", "/h/lib", true, false, false),
        Err("include directory not found: /h/include".to_string())
    );
    assert!(check_lean_installation("/h", "/h/include", "/h/lib", true, true, true).is_ok());
}

#[test]
fn lean_binary_prefers_plain_name_then_exe() {
    assert_eq!(
        lean_binary_in_home("/h/bin/lean".into(), "/h/bin/lean.exe".into(), false, true),
        Ok("/h/bin/lean.exe".to_string())
    );
    assert_eq!(
        lean_binary_in_home("/h/bin/lean".into(), "/h/bin/lean.exe".into(), true, true),
        Ok("/h/bin/lean".to_string())
    );
    assert_eq!(
        lean_binary_in_home("/h/bin/lean".into(), "/h/bin/lean.exe".into(), false, false),
        Err("lean binary not found: /h/bin/lean or /h/bin/lean.exe".to_string())
    );
}

#[test]
fn cross_compile_values_build_a_config() {
    let cross =
        CrossCompileConfig::from_values(Some("/t/lib/lean".to_string()), Some("4.25.2".to_string()))
            .unwrap();
    assert_eq!(cross.lib_dir, "/t/lib/lean");
    let c = cross
        .into_lean_config(true, "/t".to_string(), "/t/include".to_string(), false, LeanAllocator::Small)
        .unwrap();
    assert_eq!(c.lean_home, "/t");
    assert_eq!(c.pointer_width, None);
    let bad = CrossCompileConfig::from_values(Some("/t".to_string()), Some("4.x.1".to_string()));
    assert_eq!(bad.unwrap_err(), "parsing LEO3_CROSS_LEAN_VERSION: invalid minor version 'x'");
    let missing = CrossCompileConfig::from_values(Some("/t/lib".to_string()), Some("4.1.0".to_string()))
        .unwrap()
        .into_lean_config(false, String::new(), String::new(), false, LeanAllocator::System);
    assert_eq!(missing.unwrap_err(), "LEO3_CROSS_LIB_DIR does not exist: /t/lib");
}

#[test]
fn lean_version_output_is_parsed() {
    assert_eq!(
        lean_version_from_output("Lean (version 4.25.2, x86_64-unknown-linux-gnu, commit abc, Release)"),
        Ok(LeanVersion { major: 4, minor: 25, patch: 2 })
    );
    assert_eq!(
        lean_version_from_output("no version here"),
        Err("could not parse Lean version from output".to_string())
    );
}

#[test]
fn command_output_helpers() {
    assert_eq!(
        format_command_failure("1", "  boom \n", ""),
        "exit status 1, stderr: boom"
    );
    assert_eq!(command_failed_message("lean --version", "exit status 2"), "lean --version failed: exit status 2");
    assert_eq!(lean_home_from_prefix("  /opt/lean\n"), Some("/opt/lean".to_string()));
    assert_eq!(lean_home_from_prefix(" \n"), None);
    assert_eq!(first_line_trimmed("C:\\lean\\bin\\lean.exe\r\nC:\\other\\lean.exe\r\n"), "C:\\lean\\bin\\lean.exe");
}

#[test]
fn shared_library_probes() {
    assert_eq!(
        shared_lib_names(),
        vec!["libleanshared.so", "libleanshared.dylib", "libleanshared.dll.a", "leanshared.dll"]
    );
    assert!(has_shared_libs(&[false, false, true, false]));
    assert!(!has_shared_libs(&[false, false, false, false]));
    assert_eq!(
        detect_allocator_from_include_dir_best_effort(Ok("#define LEAN_SMALL_ALLOCATOR".to_string())),
        LeanAllocator::Small
    );
    assert_eq!(
        detect_allocator_from_include_dir_best_effort(Err("no file".to_string())),
        LeanAllocator::System
    );
}

#[test]
fn installation_config_has_unknown_pointer_width() {
    let c = installation_config(
        "/h".into(),
        "/h/lib/lean".into(),
        "/h/include".into(),
        LeanVersion { major: 4, minor: 1, patch: 0 },
        true,
        LeanAllocator::System,
    );
    assert_eq!(c.pointer_width, None);
    let r = resolved(LeanConfigSource::Path, c);
    assert_eq!(r.source, LeanConfigSource::Path);
}

#[test]
fn version_cfgs_cover_every_minor_up_to_the_current_one() {
    let lines = version_cfg_lines(&config("4.2.0"));
    assert_eq!(
        lines,
        vec![
            "cargo:rustc-cfg=lean_4_0",
            "cargo:rustc-cfg=lean_4_1",
            "cargo:rustc-cfg=lean_4_2",
        ]
    );
    assert_eq!(allocator_cfg_lines(&config("4.2.0")), vec!["cargo:rustc-cfg=lean_mimalloc"]);
}

#[test]
fn rerun_lines_watch_the_config_variables() {
    let lines = rerun_if_env_changed_lines();
    assert!(lines.contains(&"cargo:rerun-if-env-changed=LEAN_HOME".to_string()));
    assert!(lines.contains(&"cargo:rerun-if-env-changed=LEO3_CONFIG_FILE".to_string()));
    assert!(lines.iter().all(|l| l.starts_with("cargo:rerun-if-env-changed=")));
}

#[test]
fn dynamic_lookup_only_on_macos() {
    assert!(no_lean_dynamic_lookup_link_args("linux").is_empty());
    assert!(!no_lean_dynamic_lookup_link_args("macos").is_empty());
}

fn elan_only(source: LeanConfigSource) -> Result<LeanConfig, String> {
    match source {
        LeanConfigSource::Elan => Ok(config("4.25.2")),
        LeanConfigSource::Path => panic!("PATH must not be tried after a success"),
        other => Err(format!("{} failed", other.label())),
    }
}

fn nothing_found(source: LeanConfigSource) -> Result<LeanConfig, String> {
    Err(format!("{} failed", source.label()))
}

#[test]
fn resolve_with_returns_the_first_discovery_success() {
    let r = resolve_with(ResolutionPolicy::Host, &inputs(false, None, false, false), elan_only).unwrap();
    assert_eq!(r.source, LeanConfigSource::Elan);
    assert_eq!(r.config.version, LeanVersion::parse("4.25.2").unwrap());
}

#[test]
fn resolve_with_reports_every_discovery_attempt() {
    let e = resolve_with(ResolutionPolicy::Host, &inputs(false, None, false, false), nothing_found).unwrap_err();
    assert_eq!(e.summary, "failed to detect Lean4 via host discovery");
    let sources: Vec<LeanConfigSource> = e.attempts.iter().map(|a| a.source).collect();
    assert_eq!(sources, vec![LeanConfigSource::Lake, LeanConfigSource::Elan, LeanConfigSource::Path]);
    assert_eq!(e.hints.len(), 3);
}

#[test]
fn resolve_with_tries_a_set_config_file_alone() {
    let e = resolve_with(ResolutionPolicy::UserOrDetect, &inputs(false, Some("/cfg.txt"), false, false), nothing_found)
        .unwrap_err();
    assert_eq!(e.summary, "LEO3_CONFIG_FILE was set but could not be loaded");
    assert_eq!(e.attempts.len(), 1);
    assert_eq!(e.attempts[0].source, LeanConfigSource::ConfigFile);
    let e = resolve_with(ResolutionPolicy::Full, &inputs(true, Some("/cfg.txt"), false, false), nothing_found)
        .unwrap_err();
    assert_eq!(e.summary, "DEP_LEAN4_LEO3_CONFIG was present but invalid");
    assert_eq!(e.attempts[0].source, LeanConfigSource::CargoDepEnv);
}
