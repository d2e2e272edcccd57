use mihomo_core::{
    get_config_path, CommonSettings, Os, PathResolver, PlatformConfig, PlatformError, PlatformPaths,
    PlatformSettings,
};

fn settings(binary: &str, config_dir: &str) -> PlatformSettings {
    PlatformSettings {
        mihomo_binary: binary.to_string(),
        service_name: "mihomo".to_string(),
        service_wrapper: None,
        config_dir: config_dir.to_string(),
        backup_dir: "${HOME}/.config/mihomo/backups".to_string(),
        log_dir: "${HOME}/.local/share/mihomo/logs".to_string(),
        system_paths: vec!["/usr/local/bin/mihomo".to_string(), "${HOME}/bin/mihomo".to_string()],
        kill_command: "pkill".to_string(),
        kill_args: vec!["mihomo".to_string()],
        service_install_command: "systemctl".to_string(),
        service_start_command: "systemctl".to_string(),
        service_stop_command: "systemctl".to_string(),
        service_query_command: "systemctl".to_string(),
        service_unit_dir: None,
        service_plist_dir: None,
        autostart_registry_key: None,
        autostart_value_name: None,
        autostart_dir: None,
        autostart_file: None,
    }
}

fn config() -> PlatformConfig {
    PlatformConfig {
        windows: Some(settings("mihomo.exe", "${APPDATA}/mihomo")),
        linux: Some(settings("mihomo", "${HOME}/.config/mihomo")),
        macos: Some(settings("mihomo", "${HOME}/Library/Application Support/mihomo")),
        common: CommonSettings {
            config_filename: "config.yaml".to_string(),
            backup_prefix: "config.yaml.backup.".to_string(),
            max_backups: 5,
            api_host: "127.0.0.1".to_string(),
            api_port: 9090,
        },
    }
}

fn env() -> Vec<(String, String)> {
    vec![
        ("HOME".to_string(), "/home/ada".to_string()),
        ("APPDATA".to_string(), "C:/Users/ada/AppData/Roaming".to_string()),
    ]
}

#[test]
fn test_current_platform() {
    let config = config();
    for os in [Os::Windows, Os::Linux, Os::MacOs] {
        let platform = config.current_platform(os);
        assert!(platform.is_ok());
        let platform = platform.unwrap();
        assert!(!platform.mihomo_binary.is_empty());
    }
}

#[test]
fn missing_platform_section() {
    let mut c = config();
    c.macos = None;
    assert!(matches!(c.current_platform(Os::MacOs), Err(PlatformError::MissingPlatform)));
    assert_eq!(c.common().api_port, 9090);
}

#[test]
fn test_path_resolver() {
    let env = vec![("TEST_VAR".to_string(), "/test/path".to_string())];
    let resolved = PathResolver::resolve("${TEST_VAR}/config", &env);
    assert!(resolved.is_ok());
    assert_eq!(resolved.unwrap(), "/test/path/config");
}

#[test]
fn resolver_edge_cases() {
    let env = env();
    assert_eq!(PathResolver::resolve("/etc/mihomo", &env).unwrap(), "/etc/mihomo");
    assert_eq!(PathResolver::resolve("${HOME}${HOME}", &env).unwrap(), "/home/ada/home/ada");
    assert_eq!(PathResolver::resolve("a/${HOME", &env).unwrap(), "a/${HOME");
    assert_eq!(PathResolver::resolve("$HOME/x", &env).unwrap(), "$HOME/x");
    assert_eq!(PathResolver::resolve("", &env).unwrap(), "");
    let dup = vec![
        ("X".to_string(), "first".to_string()),
        ("X".to_string(), "second".to_string()),
    ];
    assert_eq!(PathResolver::resolve("${X}", &dup).unwrap(), "first");
    match PathResolver::resolve("${NOPE}/x", &env) {
        Err(PlatformError::MissingVariable { name }) => assert_eq!(name, "NOPE"),
        other => panic!("unexpected {:?}", other),
    }
}

#[test]
fn platform_paths_resolve() {
    let paths = PlatformPaths { config: config(), os: Os::Linux, env: env() };
    assert_eq!(paths.config_dir().unwrap(), "/home/ada/.config/mihomo");
    assert_eq!(paths.config_file().unwrap(), "/home/ada/.config/mihomo/config.yaml");
    assert_eq!(paths.backup_dir().unwrap(), "/home/ada/.config/mihomo/backups");
    assert_eq!(paths.log_dir().unwrap(), "/home/ada/.local/share/mihomo/logs");
    assert_eq!(
        paths.system_paths().unwrap(),
        vec!["/usr/local/bin/mihomo".to_string(), "/home/ada/bin/mihomo".to_string()]
    );
    assert_eq!(get_config_path(&paths).unwrap(), "/home/ada/.config/mihomo/config.yaml");
    let win = PlatformPaths { config: config(), os: Os::Windows, env: env() };
    assert_eq!(win.config_dir().unwrap(), "C:/Users/ada/AppData/Roaming/mihomo");
}

#[test]
fn platform_paths_errors() {
    let bare = PlatformPaths { config: config(), os: Os::Linux, env: Vec::new() };
    assert!(matches!(bare.config_dir(), Err(PlatformError::MissingVariable { .. })));
    assert!(matches!(bare.system_paths(), Err(PlatformError::MissingVariable { .. })));
    let mut c = config();
    c.linux = None;
    let none = PlatformPaths { config: c, os: Os::Linux, env: env() };
    assert!(matches!(none.config_file(), Err(PlatformError::MissingPlatform)));
    assert!(matches!(get_config_path(&none), Err(PlatformError::MissingPlatform)));
}

#[test]
fn engine_search_order() {
    let system = vec!["/usr/local/bin/mihomo".to_string(), "/usr/bin/mihomo".to_string()];
    let c = mihomo_core::platform::engine_candidates(&system, "/opt/app", "mihomo");
    assert_eq!(
        c,
        vec![
            "/usr/local/bin/mihomo".to_string(),
            "/usr/bin/mihomo".to_string(),
            "/opt/app/mihomo".to_string(),
            "/opt/app/resources/mihomo".to_string(),
        ]
    );
    let none = mihomo_core::platform::engine_candidates(&Vec::new(), "/opt/app/", "m.exe");
    assert_eq!(none, vec!["/opt/app/m.exe".to_string(), "/opt/app/resources/m.exe".to_string()]);
}

fn vars(pairs: &[(&str, &str)]) -> Vec<(String, String)> {
    pairs.iter().map(|(k, v)| (k.to_string(), v.to_string())).collect()
}

#[test]
fn resolver_expands_brought_in_references() {
    let env = vars(&[("A", "${B}/a"), ("B", "/b")]);
    assert_eq!(PathResolver::resolve("${A}/c", &env).unwrap(), "/b/a/c");
    let formed = vars(&[("A", "{x}"), ("x", "/y")]);
    assert_eq!(PathResolver::resolve("$${A}", &formed).unwrap(), "/y");
}

#[test]
fn resolver_fails_on_unset_brought_in_reference() {
    let env = vars(&[("A", "{x}")]);
    match PathResolver::resolve("$${A}", &env) {
        Err(PlatformError::MissingVariable { name }) => assert_eq!(name, "x"),
        other => panic!("unexpected {:?}", other),
    }
}

#[test]
fn resolver_refuses_self_reference() {
    let env = vars(&[("A", "${A}")]);
    assert!(matches!(
        PathResolver::resolve("${A}", &env),
        Err(PlatformError::TooManySubstitutions)
    ));
}
