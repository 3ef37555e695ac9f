use nexxus::backend_api::BackendKind;
use nexxus::session::{
    backend_name, default_config_path, join_path, parse_backend, parse_cli, SessionConfig,
    SessionConfigError,
};

#[test]
fn cli_backend_has_precedence_without_silent_fallback() {
    let config = SessionConfig {
        backend: Some(BackendKind::Wayland),
    };
    assert_eq!(
        config.resolve_backend(Some(BackendKind::X11)).unwrap(),
        BackendKind::X11
    );
}

#[test]
fn missing_backend_is_explicit_error() {
    assert!(matches!(
        SessionConfig::default().resolve_backend(None),
        Err(SessionConfigError::BackendRequired)
    ));
}

#[test]
fn accepts_both_backend_argument_forms() {
    let cli = parse_cli(vec!["--backend=x11".to_owned()]).unwrap();
    assert_eq!(cli.backend, Some(BackendKind::X11));
    let cli = parse_cli(vec!["--backend".to_owned(), "wayland".to_owned()]).unwrap();
    assert_eq!(cli.backend, Some(BackendKind::Wayland));
}

#[test]
fn rejects_unknown_arguments() {
    assert!(parse_cli(vec!["--mystery".to_owned()]).is_err());
}

#[test]
fn explicit_backend_contract_accepts_only_supported_names() {
    assert_eq!(parse_backend("x11").unwrap(), BackendKind::X11);
    assert_eq!(parse_backend("wayland").unwrap(), BackendKind::Wayland);
    assert!(matches!(
        parse_backend("auto"),
        Err(SessionConfigError::InvalidBackend(_))
    ));
}

#[test]
fn configuration_never_invents_a_backend() {
    assert!(matches!(
        SessionConfig::default().resolve_backend(None),
        Err(SessionConfigError::BackendRequired)
    ));
}

#[test]
fn configured_backend_is_used_without_command_line_choice() {
    let config = SessionConfig {
        backend: Some(BackendKind::Wayland),
    };
    assert_eq!(config.resolve_backend(None).unwrap(), BackendKind::Wayland);
}

#[test]
fn invalid_backend_keeps_the_rejected_name() {
    match parse_backend("X11") {
        Err(SessionConfigError::InvalidBackend(name)) => assert_eq!(name, "X11"),
        other => panic!("unexpected {other:?}"),
    }
}

#[test]
fn backend_names_round_trip() {
    assert_eq!(backend_name(BackendKind::X11), "x11");
    assert_eq!(backend_name(BackendKind::Wayland), "wayland");
    for kind in [BackendKind::X11, BackendKind::Wayland] {
        assert_eq!(parse_backend(backend_name(kind)).unwrap(), kind);
    }
}

#[test]
fn config_path_is_joined_inside_the_directory() {
    assert_eq!(default_config_path("/home/u/.config/nexxus"), "/home/u/.config/nexxus/session.toml");
    assert_eq!(default_config_path("/etc/"), "/etc/session.toml");
    assert_eq!(default_config_path(""), "session.toml");
    assert_eq!(join_path("/run/user/1000/nexxus", "session.sock"), "/run/user/1000/nexxus/session.sock");
}

#[test]
fn cli_reads_every_option() {
    let cli = parse_cli(vec![
        "--config".to_owned(),
        "/tmp/a.toml".to_owned(),
        "--check".to_owned(),
        "-h".to_owned(),
        "--backend=wayland".to_owned(),
    ])
    .unwrap();
    assert_eq!(cli.backend, Some(BackendKind::Wayland));
    assert_eq!(cli.config.as_deref(), Some("/tmp/a.toml"));
    assert!(cli.check);
    assert!(cli.help);

    let cli = parse_cli(vec!["--config=/x/y.toml".to_owned(), "--help".to_owned()]).unwrap();
    assert_eq!(cli.config.as_deref(), Some("/x/y.toml"));
    assert!(cli.help);
    assert_eq!(cli.backend, None);
    assert!(!cli.check);

    let cli = parse_cli(Vec::new()).unwrap();
    assert_eq!(cli.backend, None);
    assert_eq!(cli.config, None);
}

#[test]
fn later_backend_option_overrides_earlier_one() {
    let cli = parse_cli(vec!["--backend=x11".to_owned(), "--backend".to_owned(), "wayland".to_owned()]).unwrap();
    assert_eq!(cli.backend, Some(BackendKind::Wayland));
}

#[test]
fn cli_errors_name_the_problem() {
    assert_eq!(
        parse_cli(vec!["--mystery".to_owned()]).unwrap_err(),
        "unknown argument '--mystery'"
    );
    assert_eq!(
        parse_cli(vec!["--backend=auto".to_owned()]).unwrap_err(),
        "invalid backend 'auto'; expected 'x11' or 'wayland'"
    );
    assert_eq!(
        parse_cli(vec!["--backend".to_owned(), "vnc".to_owned()]).unwrap_err(),
        "invalid backend 'vnc'; expected 'x11' or 'wayland'"
    );
    assert_eq!(
        parse_cli(vec!["--backend".to_owned()]).unwrap_err(),
        "--backend requires x11 or wayland"
    );
    assert_eq!(
        parse_cli(vec!["--config".to_owned()]).unwrap_err(),
        "--config requires a path"
    );
}
