use pm::config::{AppConfig, Config};

fn app(name: &str, cmd: &str, args: &[&str], enabled: bool, logdir: Option<&str>) -> AppConfig {
    AppConfig {
        name: name.to_string(),
        cmd: cmd.to_string(),
        args: args.iter().map(|a| a.to_string()).collect(),
        cwd: "/".to_string(),
        enabled,
        logdir: logdir.map(|d| d.to_string()),
    }
}

fn assert_same_app(a: &AppConfig, b: &AppConfig) {
    assert_eq!(a.name, b.name);
    assert_eq!(a.cmd, b.cmd);
    assert_eq!(a.args, b.args);
    assert_eq!(a.cwd, b.cwd);
    assert_eq!(a.enabled, b.enabled);
    assert_eq!(a.logdir, b.logdir);
}

#[test]
fn save_then_load_round_trips() {
    let mut cfg = Config::new("/tmp/pm-test.conf".to_string());
    cfg.add_config(app("foo", "/bin/sleep", &["100"], true, None));
    cfg.add_config(app("bar", "/bin/echo", &["hello world", "x"], false, Some("/var/log")));
    let text = cfg.save();
    let mut cfg2 = Config::new("/tmp/pm-test.conf".to_string());
    assert!(cfg2.load(Some(text.as_str())).is_ok());
    assert_eq!(cfg2.apps.len(), 2);
    assert_same_app(&cfg2.apps[0], &cfg.apps[0]);
    assert_same_app(&cfg2.apps[1], &cfg.apps[1]);
}

#[test]
fn round_trip_survives_separators_in_payload() {
    let mut cfg = Config::new("p".to_string());
    cfg.add_config(app("my app", "/bin/a b", &["one two", "back\\slash", "new\nline"], true, Some("/dir with space")));
    let text = cfg.save();
    let mut cfg2 = Config::new("p".to_string());
    assert!(cfg2.load(Some(text.as_str())).is_ok());
    assert_eq!(cfg2.apps.len(), 1);
    assert_same_app(&cfg2.apps[0], &cfg.apps[0]);
}

#[test]
fn save_writes_expected_text() {
    let mut cfg = Config::new("p".to_string());
    cfg.add_config(app("foo", "/bin/sleep", &["100"], true, None));
    assert_eq!(cfg.save(), "foo /bin/sleep / e n 100 \n");
}

#[test]
fn save_escapes_spaces() {
    let mut cfg = Config::new("p".to_string());
    cfg.add_config(app("my app", "/bin/x", &[], false, Some("/l/d")));
    assert_eq!(cfg.save(), "my\\sapp /bin/x / d l/l/d \n");
}

#[test]
fn load_of_absent_file_is_empty_registry() {
    let mut cfg = Config::new("p".to_string());
    cfg.add_config(app("foo", "/bin/x", &[], true, None));
    assert!(cfg.load(None).is_ok());
    assert_eq!(cfg.apps.len(), 0);
}

#[test]
fn load_rejects_malformed_text() {
    let mut cfg = Config::new("p".to_string());
    cfg.add_config(app("keep", "/bin/x", &[], true, None));
    assert!(cfg.load(Some("garbage")).is_err());
    // the registry is left unmodified
    assert_eq!(cfg.apps.len(), 1);
    assert_eq!(cfg.apps[0].name, "keep");
}

#[test]
fn load_rejects_missing_final_newline() {
    let mut cfg = Config::new("p".to_string());
    assert!(cfg.load(Some("foo /bin/x / e n ")).is_err());
}

#[test]
fn load_rejects_duplicate_names() {
    let mut cfg = Config::new("p".to_string());
    assert!(cfg.load(Some("foo /bin/a / e n \nfoo /bin/b / e n \n")).is_err());
}

#[test]
fn load_accepts_the_empty_file() {
    let mut cfg = Config::new("p".to_string());
    cfg.add_config(app("foo", "/bin/x", &[], true, None));
    assert!(cfg.load(Some("")).is_ok());
    assert_eq!(cfg.apps.len(), 0);
}

#[test]
fn add_config_overwrites_by_name() {
    let mut cfg = Config::new("p".to_string());
    cfg.add_config(app("foo", "/bin/first", &["1"], true, None));
    cfg.add_config(app("other", "/bin/o", &[], true, None));
    cfg.add_config(app("foo", "/bin/second", &["2"], false, None));
    assert_eq!(cfg.apps.len(), 2);
    assert_eq!(cfg.apps[0].name, "foo");
    assert_eq!(cfg.apps[0].cmd, "/bin/second");
    assert_eq!(cfg.apps[0].args, vec!["2".to_string()]);
    assert!(!cfg.apps[0].enabled);
    assert_eq!(cfg.apps[1].name, "other");
}

#[test]
fn enable_sets_the_flag_and_ignores_unknown_names() {
    let mut cfg = Config::new("p".to_string());
    cfg.add_config(app("foo", "/bin/x", &[], true, None));
    cfg.enable("foo", false);
    assert!(!cfg.apps[0].enabled);
    cfg.enable("foo", true);
    assert!(cfg.apps[0].enabled);
    cfg.enable("nope", false);
    assert_eq!(cfg.apps.len(), 1);
    assert!(cfg.apps[0].enabled);
}

#[test]
fn find_config_finds_by_name() {
    let mut cfg = Config::new("p".to_string());
    cfg.add_config(app("foo", "/bin/x", &[], true, None));
    cfg.add_config(app("bar", "/bin/y", &[], false, None));
    let found = cfg.find_config("bar").expect("bar is configured");
    assert_eq!(found.cmd, "/bin/y");
    assert!(cfg.find_config("baz").is_none());
    let fresh = cfg.default();
    assert_eq!(fresh.apps.len(), 0);
    assert_eq!(fresh.filepath(), "p");
}
