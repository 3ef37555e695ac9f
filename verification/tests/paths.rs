use nexxus::paths::{validate_private_dir, xdg_or_home, NexxusPaths, PathError, PathInputs};

fn inputs<'a>(home: Option<&'a str>, runtime: Option<&'a str>) -> PathInputs<'a> {
    PathInputs {
        home,
        config_home: None,
        data_home: None,
        cache_home: None,
        state_home: None,
        runtime_dir: runtime,
        temp_dir: "/tmp",
    }
}

#[test]
fn private_directory_requires_user_only_permissions() {
    assert!(matches!(
        validate_private_dir("/run/x", false, true, 1000, 0o40755, 1000),
        Err(PathError::InsecureRuntime { .. })
    ));
    assert!(validate_private_dir("/run/x", false, true, 1000, 0o40700, 1000).is_ok());
}

#[test]
fn private_directory_rejects_symlink_even_to_private_target() {
    assert!(matches!(
        validate_private_dir("/run/link", true, true, 1000, 0o700, 1000),
        Err(PathError::InsecureRuntime { path }) if path == "/run/link"
    ));
    assert!(validate_private_dir("/run/x", false, true, 1001, 0o700, 1000).is_err());
    assert!(validate_private_dir("/run/x", false, false, 1000, 0o700, 1000).is_err());
}

#[test]
fn absolute_overrides_win_and_relative_ones_are_ignored() {
    assert_eq!(xdg_or_home(Some("/cfg"), Some("/home/u"), ".config").unwrap(), "/cfg");
    assert_eq!(xdg_or_home(Some("cfg"), Some("/home/u"), ".config").unwrap(), "/home/u/.config");
    assert_eq!(xdg_or_home(None, Some("home/u"), ".config"), Err(PathError::MissingHome));
    assert_eq!(xdg_or_home(None, None, ".config"), Err(PathError::MissingHome));
}

#[test]
fn paths_follow_the_home_directory() {
    let paths = NexxusPaths::from_values(&inputs(Some("/home/u"), Some("/run/user/1000")), Err("no uid".into()))
        .unwrap();
    assert_eq!(paths.config_dir(), "/home/u/.config/nexxus");
    assert_eq!(paths.data_dir(), "/home/u/.local/share/nexxus");
    assert_eq!(paths.cache_dir(), "/home/u/.cache/nexxus");
    assert_eq!(paths.state_dir(), "/home/u/.local/state/nexxus");
    assert_eq!(paths.runtime_dir(), "/run/user/1000/nexxus");
    assert!(!paths.uses_runtime_fallback());
}

#[test]
fn runtime_falls_back_to_a_per_user_temp_directory() {
    let paths = NexxusPaths::from_values(&inputs(Some("/home/u"), Some("relative")), Ok(1000)).unwrap();
    assert_eq!(paths.runtime_base(), "/tmp/nexxus-runtime-1000");
    assert!(paths.uses_runtime_fallback());
    assert_eq!(
        NexxusPaths::from_values(&inputs(Some("/home/u"), None), Err("denied".into())),
        Err(PathError::CurrentUid("denied".into()))
    );
    assert_eq!(
        NexxusPaths::from_values(&inputs(None, None), Ok(1)),
        Err(PathError::MissingHome)
    );
}
