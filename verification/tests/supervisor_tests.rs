use pm::config::{AppConfig, Config};
use pm::protocol::Request;
use pm::supervisor::{StartCheck, StopOutcome, Supervisor};
use pm::table::ProcessTable;

// A pid far above any real pid_max: signalling it reports "no such process",
// so stop and terminate take their already-gone paths without touching a
// live process.
const GHOST_PID: i32 = i32::MAX;
const GHOST_PID_2: i32 = i32::MAX - 1;
const GRACE: u64 = 100;

fn app(name: &str, cmd: &str, enabled: bool) -> AppConfig {
    AppConfig {
        name: name.to_string(),
        cmd: cmd.to_string(),
        args: Vec::new(),
        cwd: "/".to_string(),
        enabled,
        logdir: None,
    }
}

fn fresh() -> Supervisor {
    Supervisor { config: Config::new("/tmp/pm-test.conf".to_string()), table: ProcessTable::new() }
}

fn req_add(name: &str, cmd: &str, args: &[&str]) -> Request {
    Request::Add {
        name: name.to_string(),
        cmd: cmd.to_string(),
        args: args.iter().map(|a| a.to_string()).collect(),
    }
}

#[test]
fn start_check_reports_each_failure() {
    let mut sup = fresh();
    assert!(matches!(sup.start_check("nope"), StartCheck::AppNotFound));
    sup.config.add_config(app("off", "/bin/x", false));
    assert!(matches!(sup.start_check("off"), StartCheck::AppDisabled));
    sup.config.add_config(app("run", "/bin/y", true));
    assert!(sup.record_spawn("run".to_string(), GHOST_PID));
    assert!(matches!(sup.start_check("run"), StartCheck::AlreadyRunning));
}

#[test]
fn start_check_builds_the_spawn_plan() {
    let mut sup = fresh();
    let mut a = app("web", "/bin/serve", true);
    a.args = vec!["-p".to_string(), "80".to_string()];
    sup.config.add_config(a);
    match sup.start_check("web") {
        StartCheck::Spawn(plan) => {
            assert_eq!(plan.name, "web");
            assert_eq!(plan.cmd, "/bin/serve");
            assert_eq!(plan.args, vec!["-p".to_string(), "80".to_string()]);
            assert_eq!(plan.log_path, "/tmp/web.log");
        }
        _ => panic!("expected a spawn plan"),
    }
}

#[test]
fn log_path_honours_the_configured_logdir() {
    let mut sup = fresh();
    let mut a = app("web", "/bin/serve", true);
    a.logdir = Some("/var/log".to_string());
    sup.config.add_config(a);
    match sup.start_check("web") {
        StartCheck::Spawn(plan) => assert_eq!(plan.log_path, "/var/log/web.log"),
        _ => panic!("expected a spawn plan"),
    }
}

#[test]
fn record_spawn_never_replaces_a_running_entry() {
    // start on an already-running app leaves the existing handle in place
    let mut sup = fresh();
    assert!(sup.record_spawn("x".to_string(), GHOST_PID));
    assert!(!sup.record_spawn("x".to_string(), GHOST_PID_2));
    assert_eq!(sup.table.find("x"), Some(GHOST_PID));
    assert_eq!(sup.table.len(), 1);
}

#[test]
fn stop_of_a_not_running_app_changes_nothing() {
    let mut sup = fresh();
    assert!(sup.record_spawn("x".to_string(), GHOST_PID));
    let r = sup.stop("nothere", GRACE);
    assert!(matches!(r, StopOutcome::NotRunning));
    assert_eq!(sup.table.len(), 1);
    assert_eq!(sup.table.find("x"), Some(GHOST_PID));
}

#[test]
fn stop_removes_the_entry_even_when_the_process_is_gone() {
    let mut sup = fresh();
    assert!(sup.record_spawn("x".to_string(), GHOST_PID));
    match sup.stop("x", GRACE) {
        StopOutcome::Stopped(res) => {
            assert!(matches!(res, Err(pm::osproc::TermError::NoSuchProcess)));
        }
        StopOutcome::NotRunning => panic!("x was running"),
    }
    assert_eq!(sup.table.len(), 0);
}

#[test]
fn stop_all_empties_the_table() {
    let mut sup = fresh();
    assert!(sup.record_spawn("a".to_string(), GHOST_PID));
    assert!(sup.record_spawn("b".to_string(), GHOST_PID_2));
    sup.stop_all(GRACE);
    assert_eq!(sup.table.len(), 0);
}

#[test]
fn start_all_plans_spawn_enabled_apps_that_are_not_running() {
    let mut sup = fresh();
    sup.config.add_config(app("a", "/bin/a", true));
    sup.config.add_config(app("b", "/bin/b", false));
    sup.config.add_config(app("c", "/bin/c", true));
    assert!(sup.record_spawn("c".to_string(), GHOST_PID));
    let plans = sup.start_all_plans();
    assert_eq!(plans.len(), 1);
    assert_eq!(plans[0].name, "a");
}

#[test]
fn status_and_unknown_lines() {
    let mut sup = fresh();
    let r = sup.handle_request(&Request::Status, GRACE);
    assert_eq!(r.lines, vec!["Daemon is running.".to_string()]);
    assert!(r.plan.is_none());
    assert!(!r.quit);
    let r = sup.handle_request(&Request::Unknown { token: "off".to_string() }, GRACE);
    assert_eq!(r.lines, vec!["Unknown command: off".to_string()]);
}

#[test]
fn add_registers_and_plans_a_start() {
    let mut sup = fresh();
    let r = sup.handle_request(&req_add("foo", "/bin/sleep", &["100"]), GRACE);
    assert!(!r.quit);
    assert_eq!(r.lines[0], "Add new App foo");
    let plan = r.plan.expect("a spawn is planned");
    assert_eq!(plan.name, "foo");
    assert_eq!(plan.cmd, "/bin/sleep");
    assert_eq!(plan.args, vec!["100".to_string()]);
    let lines = sup.finish_spawn(&"foo".to_string(), Some(GHOST_PID));
    assert_eq!(lines, vec!["Spawn successfully".to_string()]);
    assert_eq!(sup.table.find("foo"), Some(GHOST_PID));
}

#[test]
fn failed_spawn_is_reported_and_leaves_the_table_alone() {
    let mut sup = fresh();
    let r = sup.handle_request(&req_add("foo", "/no/such/file", &[]), GRACE);
    assert!(r.plan.is_some());
    let lines = sup.finish_spawn(&"foo".to_string(), None);
    assert_eq!(lines, vec!["Spawn failed".to_string()]);
    assert_eq!(sup.table.len(), 0);
}

#[test]
fn restart_with_no_apps_reports_no_apps_available() {
    // no app named anywhere and nothing configured: a message, not a panic
    let mut sup = fresh();
    let r = sup.handle_request(&Request::Restart { name: Some("nope".to_string()) }, GRACE);
    assert_eq!(r.lines, vec!["No apps available".to_string()]);
    assert!(r.plan.is_none());
    assert!(!r.quit);
}

#[test]
fn restart_defaults_to_the_first_configured_app() {
    let mut sup = fresh();
    sup.config.add_config(app("first", "/bin/a", true));
    sup.config.add_config(app("second", "/bin/b", true));
    let r = sup.handle_request(&Request::Restart { name: None }, GRACE);
    assert_eq!(r.lines[0], "Restarting first... ");
    assert_eq!(r.lines[1], "Seems not started, do nothing");
    let plan = r.plan.expect("restart plans a start");
    assert_eq!(plan.name, "first");
}

#[test]
fn restart_stops_the_running_process_first() {
    let mut sup = fresh();
    sup.config.add_config(app("svc", "/bin/s", true));
    assert!(sup.record_spawn("svc".to_string(), GHOST_PID));
    let r = sup.handle_request(&Request::Restart { name: Some("svc".to_string()) }, GRACE);
    assert_eq!(r.lines[1], "The process was already gone");
    assert!(r.plan.is_some());
    assert_eq!(sup.table.len(), 0);
}

#[test]
fn restart_of_an_unknown_name_reports_it() {
    let mut sup = fresh();
    sup.config.add_config(app("real", "/bin/a", true));
    let r = sup.handle_request(&Request::Restart { name: Some("nope".to_string()) }, GRACE);
    assert_eq!(r.lines[0], "Restarting nope... ");
    assert_eq!(r.lines[1], "Seems not started, do nothing");
    assert_eq!(r.lines[2], "The App name can't be found in config");
    assert!(r.plan.is_none());
}

#[test]
fn full_lifecycle_scenario() {
    // add foo -> running; disable foo -> stopped and disabled; enable foo ->
    // running again; quit -> empty table, daemon shutting down
    let mut sup = fresh();
    let r = sup.handle_request(&req_add("foo", "/bin/sleep", &["100"]), GRACE);
    let plan = r.plan.expect("spawn planned");
    sup.finish_spawn(&plan.name, Some(GHOST_PID));

    let r = sup.handle_request(&Request::List, GRACE);
    assert!(r.lines.contains(&"* foo pid 2147483647".to_string()));
    assert!(r.lines.contains(&"- foo enabled cmd /bin/sleep".to_string()));

    let r = sup.handle_request(&Request::Disable { name: "foo".to_string() }, GRACE);
    assert_eq!(r.lines[0], "Disable foo");
    assert!(r.plan.is_none());
    assert_eq!(sup.table.len(), 0);
    let r = sup.handle_request(&Request::List, GRACE);
    assert!(!r.lines.contains(&"* foo pid 2147483647".to_string()));
    assert!(r.lines.contains(&"- foo disabled cmd /bin/sleep".to_string()));

    let r = sup.handle_request(&Request::Enable { name: "foo".to_string() }, GRACE);
    assert_eq!(r.lines[0], "Enable foo");
    let plan = r.plan.expect("enable plans a start");
    assert_eq!(plan.name, "foo");
    sup.finish_spawn(&plan.name, Some(GHOST_PID_2));
    assert_eq!(sup.table.find("foo"), Some(GHOST_PID_2));

    let r = sup.handle_request(&Request::Quit, GRACE);
    assert!(r.quit);
    assert_eq!(r.lines, vec!["Stop all...".to_string(), "Bye~".to_string()]);
    assert_eq!(sup.table.len(), 0);
}

#[test]
fn enable_of_an_unknown_app_reports_it() {
    let mut sup = fresh();
    let r = sup.handle_request(&Request::Enable { name: "ghost".to_string() }, GRACE);
    assert_eq!(r.lines[0], "Enable ghost");
    assert_eq!(r.lines[1], "The App name can't be found in config");
    assert!(r.plan.is_none());
}

#[test]
fn usage_lines() {
    let mut sup = fresh();
    let r = sup.handle_request(&Request::AddUsage, GRACE);
    assert_eq!(r.lines, vec!["usage: add <name> </path/to/app> <param1> <param2> ...".to_string()]);
    let r = sup.handle_request(&Request::EnableUsage, GRACE);
    assert_eq!(r.lines, vec!["usage: enable <name>".to_string()]);
    let r = sup.handle_request(&Request::DisableUsage, GRACE);
    assert_eq!(r.lines, vec!["usage: disable <name>".to_string()]);
    let r = sup.handle_request(&Request::Remove, GRACE);
    assert!(r.lines.is_empty());
    let r = sup.handle_request(&Request::On, GRACE);
    assert!(r.lines.is_empty());
}
