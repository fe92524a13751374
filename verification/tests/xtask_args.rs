use dispersion_equalizer::xtask::{
    command_args, parse_release_profile, profile_flag, ProfileError, CONFLICTING_PROFILES_TEXT,
    UNKNOWN_ARGUMENT_TEXT, USAGE_TEXT,
};

fn args(values: &[&str]) -> Vec<String> {
    values.iter().map(|value| value.to_string()).collect()
}

#[test]
fn auv2_defaults_to_release() {
    assert!(parse_release_profile(&[]).unwrap());
}

#[test]
fn auv2_accepts_explicit_release() {
    assert!(parse_release_profile(&args(&["--release"])).unwrap());
}

#[test]
fn auv2_accepts_debug_override() {
    assert!(!parse_release_profile(&args(&["--debug"])).unwrap());
}

#[test]
fn auv2_rejects_conflicting_profiles() {
    assert!(parse_release_profile(&args(&["--release", "--debug"])).is_err());
}

#[test]
fn auv2_rejects_unknown_flags() {
    assert!(parse_release_profile(&args(&["--profile", "release"])).is_err());
}

#[test]
fn repeated_debug_flag_selects_debug() {
    assert!(!parse_release_profile(&args(&["--debug", "--debug"])).unwrap());
}

#[test]
fn help_flags_give_usage() {
    assert!(matches!(parse_release_profile(&args(&["--help"])), Err(ProfileError::Usage)));
    assert!(matches!(parse_release_profile(&args(&["-h"])), Err(ProfileError::Usage)));
    assert!(matches!(
        parse_release_profile(&args(&["--release", "-h", "--debug"])),
        Err(ProfileError::Usage)
    ));
}

#[test]
fn unknown_flag_is_reported_before_conflict() {
    match parse_release_profile(&args(&["--release", "--debug", "--fast"])) {
        Err(ProfileError::UnknownArgument(arg)) => assert_eq!(arg, "--fast"),
        other => panic!("unexpected result {:?}", other),
    }
}

#[test]
fn conflict_is_its_own_error() {
    assert!(matches!(
        parse_release_profile(&args(&["--debug", "--release"])),
        Err(ProfileError::ConflictingProfiles)
    ));
}

#[test]
fn error_messages() {
    assert_eq!(
        ProfileError::Usage.message(),
        "Usage: cargo auv2 [--release|--debug]\n\n`cargo auv2` builds release AUv2 bundles by default so Logic Pro sees the same optimized arm64 slice that is merged with the x86_64 release slice."
    );
    assert_eq!(ProfileError::Usage.message(), USAGE_TEXT);
    assert_eq!(
        ProfileError::UnknownArgument("--profile".to_string()).message(),
        "Unknown argument for `cargo auv2`: --profile"
    );
    assert_eq!(
        ProfileError::UnknownArgument("x".to_string()).message(),
        format!("{}x", UNKNOWN_ARGUMENT_TEXT)
    );
    assert_eq!(
        ProfileError::ConflictingProfiles.message(),
        "`cargo auv2` cannot use both --release and --debug"
    );
    assert_eq!(ProfileError::ConflictingProfiles.message(), CONFLICTING_PROFILES_TEXT);
}

#[test]
fn profile_flags() {
    assert_eq!(profile_flag(true), "--release");
    assert_eq!(profile_flag(false), "");
}

#[test]
fn command_args_drop_empty_strings() {
    assert_eq!(
        command_args(&["xtask", "bundle", "dispersion_equalizer", ""]),
        vec!["xtask", "bundle", "dispersion_equalizer"]
    );
    assert_eq!(command_args(&["", "", "a", "", "b"]), vec!["a", "b"]);
    assert!(command_args(&[]).is_empty());
}
