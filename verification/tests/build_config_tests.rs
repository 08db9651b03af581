use leo3_tooling::detection::{dep_env_config_detecting_allocator, read_config_detecting_allocator};
use leo3_tooling::directives::{expected_cfg_lines, warn_resolution_error, CFG_MAX_MINOR};
use leo3_tooling::lean_config::{
    hex_decode, hex_encode, parse_allocator_from_config_h, ConfigError, LeanAllocator, LeanConfig,
    MissingField,
};
use leo3_tooling::resolution::{
    detect_lean_config, get_lean_config, get_lean_config_string, get_lean_config_with_source,
    resolve_lean_config,
    LeanConfigCache, LeanConfigSource, ResolutionAttempt, ResolutionError, ResolvedLeanConfig,
};
use leo3_tooling::version::{LeanVersion, VersionError};

fn version(s: &str) -> LeanVersion {
    LeanVersion::parse(s).unwrap()
}

fn sample_config(v: &str) -> LeanConfig {
    LeanConfig {
        lean_home: "/opt/lean".to_string(),
        lean_lib_dir: "/opt/lean/lib/lean".to_string(),
        lean_include_dir: "/opt/lean/include".to_string(),
        version: version(v),
        shared: true,
        allocator: LeanAllocator::Mimalloc,
        pointer_width: Some(64),
    }
}

fn no_detect(_: &String) -> LeanAllocator {
    LeanAllocator::System
}

#[test]
fn test_lean_version_parse() {
    let v = version("4.25.2");
    assert_eq!(v.major, 4);
    assert_eq!(v.minor, 25);
    assert_eq!(v.patch, 2);
    assert_eq!(v.to_string(), "4.25.2");

    let v = version("4.29.0-nightly-2026-02-13-rev2");
    assert_eq!(v.major, 4);
    assert_eq!(v.minor, 29);
    assert_eq!(v.patch, 0);

    assert!(LeanVersion::parse("abc").is_err());
    assert!(LeanVersion::parse("4").is_err());
    assert!(LeanVersion::parse("4.25").is_err());
}

#[test]
fn test_lean_version_ord() {
    let v1 = version("4.20.0");
    let v2 = version("4.25.2");
    let v3 = version("4.25.3");
    assert!(v1 < v2);
    assert!(v2 < v3);
    assert_eq!(v2, version("4.25.2"));
    assert_eq!(v1.compare(&v2), std::cmp::Ordering::Less);
    assert_eq!(v3.compare(&v2), std::cmp::Ordering::Greater);
    assert_eq!(v2.compare(&version("4.25.2")), std::cmp::Ordering::Equal);
}

#[test]
fn version_errors_name_the_offending_part() {
    assert!(matches!(LeanVersion::parse("4.25"), Err(VersionError::MissingParts(s)) if s == "4.25"));
    assert!(matches!(LeanVersion::parse("x.1.2"), Err(VersionError::InvalidMajor(s)) if s == "x"));
    assert!(matches!(LeanVersion::parse("1.y.2"), Err(VersionError::InvalidMinor(s)) if s == "y"));
    assert!(matches!(LeanVersion::parse("1.2.z-rc"), Err(VersionError::InvalidPatch(s)) if s == "z-rc"));
    let e = LeanVersion::parse("4").unwrap_err();
    assert_eq!(e.message(), "invalid version '4': expected major.minor.patch");
}

#[test]
fn test_lean_config_serialization_roundtrip() {
    let config = sample_config("4.25.2");
    let mut buf = String::new();
    config.to_writer(&mut buf);
    let restored = LeanConfig::from_reader(&buf, no_detect).unwrap();
    assert_eq!(restored.lean_home, config.lean_home);
    assert_eq!(restored.lean_lib_dir, config.lean_lib_dir);
    assert_eq!(restored.lean_include_dir, config.lean_include_dir);
    assert_eq!(restored.version, config.version);
    assert_eq!(restored.shared, config.shared);
    assert_eq!(restored.pointer_width, config.pointer_width);
}

#[test]
fn test_cargo_dep_env_roundtrip() {
    let config = LeanConfig {
        lean_home: "/home/user/.elan/toolchains/leanprover-lean4-v4.25.2".to_string(),
        lean_lib_dir: "/home/user/.elan/toolchains/leanprover-lean4-v4.25.2/lib/lean".to_string(),
        lean_include_dir: "/home/user/.elan/toolchains/leanprover-lean4-v4.25.2/include"
            .to_string(),
        version: version("4.25.2"),
        shared: false,
        allocator: LeanAllocator::System,
        pointer_width: None,
    };
    let hex = config.to_cargo_dep_env();
    let restored = LeanConfig::from_cargo_dep_env(&hex, no_detect).unwrap();
    assert_eq!(restored.lean_home, config.lean_home);
    assert_eq!(restored.version, config.version);
    assert_eq!(restored.shared, config.shared);
    assert_eq!(restored.allocator, config.allocator);
    assert_eq!(restored.pointer_width, config.pointer_width);
}

#[test]
fn config_text_has_one_line_per_key() {
    let mut buf = String::new();
    sample_config("4.25.2").to_writer(&mut buf);
    assert_eq!(
        buf,
        "lean_home=/opt/lean\nlean_lib_dir=/opt/lean/lib/lean\nlean_include_dir=/opt/lean/include\n\
         version=4.25.2\nshared=true\nallocator=mimalloc\npointer_width=64\n"
    );
}

#[test]
fn config_without_allocator_asks_detection() {
    let text = "lean_home=/a\nlean_lib_dir=/a/lib\nlean_include_dir=/a/include\nversion=4.1.0\nshared=false\npointer_width=\n";
    let c = LeanConfig::from_reader(text, |dir: &String| {
        assert_eq!(dir, "/a/include");
        LeanAllocator::Small
    })
    .unwrap();
    assert_eq!(c.allocator, LeanAllocator::Small);
    assert_eq!(c.pointer_width, None);
    assert!(!c.shared);
}

#[test]
fn config_missing_version_is_an_error() {
    let text = "lean_home=/a\nlean_lib_dir=/a/lib\nlean_include_dir=/a/include\nshared=true\n";
    let e = LeanConfig::from_reader(text, no_detect).unwrap_err();
    assert!(matches!(e, ConfigError::Missing(MissingField::Version)));
}

#[test]
fn test_parse_allocator_from_config_h() {
    assert_eq!(parse_allocator_from_config_h("#define LEAN_MIMALLOC\n"), LeanAllocator::Mimalloc);
    assert_eq!(
        parse_allocator_from_config_h("#define LEAN_SMALL_ALLOCATOR\n"),
        LeanAllocator::Small
    );
    assert_eq!(parse_allocator_from_config_h("/* none */\n"), LeanAllocator::System);
}

#[test]
fn allocator_names_round_trip() {
    for a in [LeanAllocator::Small, LeanAllocator::Mimalloc, LeanAllocator::System] {
        assert_eq!(LeanAllocator::parse(&a.to_string()), Some(a));
    }
    assert_eq!(LeanAllocator::parse("jemalloc"), None);
}

#[test]
fn test_print_expected_cfgs_count() {
    let count = (0..=CFG_MAX_MINOR).count();
    assert_eq!(count, 41);
    let lines = expected_cfg_lines();
    assert_eq!(lines.len(), count + 2);
    assert_eq!(lines[0], "cargo:rustc-check-cfg=cfg(lean_4_0)");
    assert_eq!(lines[40], "cargo:rustc-check-cfg=cfg(lean_4_40)");
}

#[test]
fn test_hex_roundtrip() {
    let data = b"hello world\nversion=4.25.2\n";
    let encoded = hex_encode(data);
    let decoded = hex_decode(&encoded).unwrap();
    assert_eq!(decoded, data);
}

#[test]
fn hex_encode_is_lowercase_pairs() {
    assert_eq!(hex_encode(&[0x00, 0xab, 0x7f]), "00ab7f");
    assert_eq!(hex_decode("00AB7f").unwrap(), vec![0x00, 0xab, 0x7f]);
}

#[test]
fn test_hex_decode_invalid() {
    assert!(hex_decode("0").is_err());
    assert!(hex_decode("zz").is_err());
}

#[test]
fn test_resolution_error_warning_lines() {
    let error = ResolutionError::host_detection(vec![ResolutionAttempt {
        source: LeanConfigSource::LeanHomeEnv,
        error: "LEAN_HOME not set".to_string(),
    }]);

    let lines = error.warning_lines();
    assert!(lines[0].contains("Failed to resolve Lean4 configuration"));
    assert!(lines.iter().any(|line| line.contains("LEAN_HOME: LEAN_HOME not set")));
    assert!(lines.iter().any(|line| line.contains("Host discovery order")));
}

fn boom_error() -> ResolutionError {
    ResolutionError {
        summary: "boom".to_string(),
        attempts: vec![ResolutionAttempt {
            source: LeanConfigSource::Lake,
            error: "lake not found".to_string(),
        }],
        hints: vec!["hint one".to_string()],
    }
}

#[test]
fn test_warn_resolution_error_prints_lines() {
    let error = boom_error();
    let lines = warn_resolution_error(&error);
    assert!(!lines.is_empty());
    assert!(lines.iter().all(|l| l.starts_with("cargo:warning=")));
    assert_eq!(lines.len(), error.warning_lines().len());
    assert!(lines.iter().any(|l| l.contains("lake env printenv LEAN_HOME: lake not found")));
    assert!(lines.iter().any(|l| l.contains("hint one")));
}

#[test]
fn get_lean_config_has_typed_error() {
    let _typed: fn(
        &mut LeanConfigCache,
        fn() -> Result<ResolvedLeanConfig, ResolutionError>,
    ) -> Result<LeanConfig, ResolutionError> = get_lean_config;
}

#[test]
fn test_version_parsing() {}

fn resolve_ok() -> Result<ResolvedLeanConfig, ResolutionError> {
    Ok(ResolvedLeanConfig { source: LeanConfigSource::ConfigFile, config: sample_config("4.25.2") })
}

fn resolve_err() -> Result<ResolvedLeanConfig, ResolutionError> {
    Err(boom_error())
}

#[test]
fn cache_returns_the_first_success_again() {
    let mut cache = LeanConfigCache::new();
    assert!(get_lean_config_with_source(&mut cache, resolve_err).is_err());
    let first = get_lean_config_with_source(&mut cache, resolve_ok).unwrap();
    assert_eq!(first.source, LeanConfigSource::ConfigFile);
    // A later resolver is not consulted: the remembered value comes back.
    let again = get_lean_config_with_source(&mut cache, resolve_err).unwrap();
    assert_eq!(again.config.version, first.config.version);
    assert!(resolve_lean_config(&mut cache, resolve_err).is_ok());
    assert!(get_lean_config(&mut cache, resolve_err).is_ok());
    assert!(get_lean_config_string(&mut cache, resolve_err).is_ok());
}

#[test]
fn string_error_joins_the_warning_lines() {
    let mut cache = LeanConfigCache::new();
    let e = get_lean_config_string(&mut cache, resolve_err).unwrap_err();
    assert_eq!(e, boom_error().warning_lines().join("\n"));
}

#[test]
fn detect_lean_config_projects_the_host_resolution() {
    let c = detect_lean_config(resolve_ok).unwrap();
    assert_eq!(c.version, sample_config("4.25.2").version);
    assert_eq!(c.lean_home, "/opt/lean");
    let e = detect_lean_config(resolve_err).unwrap_err();
    assert_eq!(e, boom_error().warning_lines().join("\n"));
}

#[test]
fn dep_env_reads_lines_before_the_first_bad_utf8_line() {
    // A bad line before the invalid bytes is the error.
    let hex = hex_encode(b"junk\n\xff\nlean_home=/x\n");
    let e = LeanConfig::from_cargo_dep_env(&hex, no_detect).unwrap_err();
    assert_eq!(e.message(), "invalid config line: junk");
    // Otherwise the line that is not UTF-8 is the error, before any missing key.
    let hex = hex_encode(b"lean_home=/x\n\xff\nversion=bad\n");
    let e = LeanConfig::from_cargo_dep_env(&hex, no_detect).unwrap_err();
    assert_eq!(e.message(), "reading config: stream did not contain valid UTF-8");
}

#[test]
fn hex_decode_accepts_even_hex_of_either_case() {
    assert_eq!(hex_decode("0aFF").unwrap(), vec![0x0a, 0xff]);
    assert_eq!(hex_decode("").unwrap(), Vec::<u8>::new());
    assert_eq!(hex_decode("0").unwrap_err().message(), "hex string has odd length");
    assert_eq!(hex_decode("zz").unwrap_err().message(), "invalid hex char 'z'");
    let hex = hex_encode(&[0x00, 0x7f, 0xa5]);
    assert_eq!(hex, "007fa5");
}

#[test]
fn unknown_keys_do_not_change_what_is_read() {
    let config = sample_config("4.25.2");
    let mut text = String::new();
    config.to_writer(&mut text);
    let with_extra = format!("future_key=1\n{text}another=thing\n");
    let a = LeanConfig::from_reader(&text, no_detect).unwrap();
    let b = LeanConfig::from_reader(&with_extra, no_detect).unwrap();
    assert_eq!(a.lean_home, b.lean_home);
    assert_eq!(a.version, b.version);
    assert_eq!(a.allocator, b.allocator);
    assert_eq!(a.pointer_width, b.pointer_width);
}

fn detect_small(dir: &String) -> LeanAllocator {
    assert_eq!(dir, "/opt/lean/include");
    LeanAllocator::Small
}

#[test]
fn missing_allocator_is_detected_not_an_error() {
    let text = "lean_home=/opt/lean\nlean_lib_dir=/opt/lean/lib/lean\nlean_include_dir=/opt/lean/include\n\
                version=4.25.2\nshared=true\npointer_width=64\n";
    let c = LeanConfig::from_reader(text, detect_small).unwrap();
    assert_eq!(c.allocator, LeanAllocator::Small);
    let e = LeanConfig::from_reader("lean_home=/opt/lean\n", detect_small).unwrap_err();
    assert_eq!(e.message(), "missing lean_include_dir");
}

fn mimalloc_config_h(dir: &String) -> Result<String, String> {
    assert_eq!(dir, "/opt/lean/include");
    Ok("#define LEAN_MIMALLOC\n".to_string())
}

fn unreadable_config_h(_: &String) -> Result<String, String> {
    Err("No such file or directory".to_string())
}

#[test]
fn missing_allocator_falls_back_to_config_h_then_system() {
    let text = "lean_home=/opt/lean\nlean_lib_dir=/opt/lean/lib/lean\nlean_include_dir=/opt/lean/include\n\
                version=4.25.2\nshared=true\npointer_width=64\n";
    let c = read_config_detecting_allocator(text, mimalloc_config_h).unwrap();
    assert_eq!(c.allocator, LeanAllocator::Mimalloc);
    let c = read_config_detecting_allocator(text, unreadable_config_h).unwrap();
    assert_eq!(c.allocator, LeanAllocator::System);
    let named = format!("{text}allocator=small\n");
    let c = read_config_detecting_allocator(&named, mimalloc_config_h).unwrap();
    assert_eq!(c.allocator, LeanAllocator::Small);
    let c = dep_env_config_detecting_allocator(&hex_encode(text.as_bytes()), unreadable_config_h).unwrap();
    assert_eq!(c.allocator, LeanAllocator::System);
}
