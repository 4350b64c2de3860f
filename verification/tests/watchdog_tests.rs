use pm::config::{AppConfig, Config};
use pm::supervisor::Supervisor;
use pm::table::ProcessTable;
use pm::watchdog::{watchdog_plan, watchdog_tick};

const GHOST_PID: i32 = i32::MAX;
const GHOST_PID_2: i32 = i32::MAX - 1;
const GHOST_PID_3: i32 = i32::MAX - 2;

fn app(name: &str, cmd: &str, enabled: bool) -> AppConfig {
    AppConfig {
        name: name.to_string(),
        cmd: cmd.to_string(),
        args: Vec::new(),
        cwd: "/".to_string(),
        enabled,
        logdir: None,
    }
}

fn fresh() -> Supervisor {
    Supervisor { config: Config::new("/tmp/pm-test.conf".to_string()), table: ProcessTable::new() }
}

#[test]
fn exited_app_with_config_is_planned_for_respawn() {
    let mut sup = fresh();
    sup.config.add_config(app("bar", "/bin/false", true));
    assert!(sup.record_spawn("bar".to_string(), GHOST_PID));
    let exited = vec!["bar".to_string()];
    let plans = watchdog_plan(&mut sup, &exited);
    assert_eq!(plans.len(), 1);
    assert_eq!(plans[0].name, "bar");
    assert_eq!(plans[0].cmd, "/bin/false");
    // the stale entry is gone until the respawn is recorded
    assert_eq!(sup.table.len(), 0);
}

#[test]
fn exited_app_without_config_is_only_unregistered() {
    let mut sup = fresh();
    assert!(sup.record_spawn("stale".to_string(), GHOST_PID));
    let exited = vec!["stale".to_string()];
    let plans = watchdog_plan(&mut sup, &exited);
    assert!(plans.is_empty());
    assert_eq!(sup.table.len(), 0);
}

#[test]
fn repeated_exits_respawn_without_duplicating_the_entry() {
    // a command that exits immediately is observed, respawned, observed
    // again: the table holds exactly one entry for the name throughout
    let mut sup = fresh();
    sup.config.add_config(app("bar", "/bin/false", true));
    assert!(sup.record_spawn("bar".to_string(), GHOST_PID));
    assert_eq!(sup.table.len(), 1);

    let exited = vec!["bar".to_string()];
    let plans = watchdog_plan(&mut sup, &exited);
    assert_eq!(plans.len(), 1);
    sup.finish_spawn(&"bar".to_string(), Some(GHOST_PID_2));
    assert_eq!(sup.table.len(), 1);
    assert_eq!(sup.table.find("bar"), Some(GHOST_PID_2));

    let plans = watchdog_plan(&mut sup, &exited);
    assert_eq!(plans.len(), 1);
    sup.finish_spawn(&"bar".to_string(), Some(GHOST_PID_3));
    assert_eq!(sup.table.len(), 1);
    assert_eq!(sup.table.find("bar"), Some(GHOST_PID_3));
}

#[test]
fn a_tick_reaps_entries_whose_process_is_gone() {
    // the recorded pid does not exist, so the poll reports it gone and the
    // tick both unregisters it and plans its respawn
    let mut sup = fresh();
    sup.config.add_config(app("bar", "/bin/false", true));
    assert!(sup.record_spawn("bar".to_string(), GHOST_PID));
    let plans = watchdog_tick(&mut sup);
    assert_eq!(plans.len(), 1);
    assert_eq!(plans[0].name, "bar");
    assert_eq!(sup.table.len(), 0);
    // recording the respawn brings the name back, exactly once
    sup.finish_spawn(&"bar".to_string(), Some(GHOST_PID_2));
    assert_eq!(sup.table.len(), 1);
}

#[test]
fn a_tick_respawns_a_disabled_app_that_was_still_running() {
    // a respawn is not a start: it follows the table, not the enabled flag
    let mut sup = fresh();
    sup.config.add_config(app("bar", "/bin/false", false));
    assert!(sup.record_spawn("bar".to_string(), GHOST_PID));
    let plans = watchdog_tick(&mut sup);
    assert_eq!(plans.len(), 1);
}
