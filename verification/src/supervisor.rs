//! The supervisor: the owner of the configuration registry and the process
//! table. It decides every start, stop, restart, enable and disable, and it
//! answers client commands. Spawning an OS process is the one thing it cannot
//! do itself: a start hands back a `SpawnPlan`, the surrounding program
//! performs the spawn, and `finish_spawn` records the outcome.

use vstd::prelude::*;

use vstd::string::StringExecFns;

use crate::config::{
    has_app, lemma_set_enabled_names, lemma_set_enabled_the_app, lemma_the_app,
    lemma_upsert_the_app, set_enabled_spec, the_app, unique_names, upsert_spec, AppConfig,
    AppConfigView, Config,
};
use crate::osproc::{terminate, TermError, TermOk};
use crate::protocol::{Request, RequestView};
use crate::table::{
    lemma_remove_absent, remove_spec, table_has, table_wf, ProcessEntryView, ProcessTable,
};
use crate::text::{dec_digits, dec_str, push_char};

verus! {

/// Everything the surrounding program needs in order to spawn one process:
/// the executable, its arguments, and the log file that receives the combined
/// standard output and error of the new process.
pub struct SpawnPlan {
    pub name: String,
    pub cmd: String,
    pub args: Vec<String>,
    pub log_path: String,
}

/// The mathematical value of a `SpawnPlan`.
pub struct SpawnPlanView {
    pub name: Seq<char>,
    pub cmd: Seq<char>,
    pub args: Seq<Seq<char>>,
    pub log_path: Seq<char>,
}

impl View for SpawnPlan {
    type V = SpawnPlanView;

    open spec fn view(&self) -> SpawnPlanView {
        SpawnPlanView {
            name: self.name@,
            cmd: self.cmd@,
            args: self.args.deep_view(),
            log_path: self.log_path@,
        }
    }
}

/// The log file of an application: `<logdir or the system temp directory>/
/// <name>.log`.
pub open spec fn log_path_of(a: AppConfigView) -> Seq<char> {
    (match a.logdir {
        Some(d) => d,
        None => seq!['/', 't', 'm', 'p'],
    }) + seq!['/'] + a.name + seq!['.', 'l', 'o', 'g']
}

/// The spawn plan of an application.
pub open spec fn plan_of(a: AppConfigView) -> SpawnPlanView {
    SpawnPlanView { name: a.name, cmd: a.cmd, args: a.args, log_path: log_path_of(a) }
}

/// Build the spawn plan for one application.
pub(crate) fn build_plan(a: &AppConfig) -> (r: SpawnPlan)
    ensures
        r@ == plan_of(a@),
{
    let mut log_path: String = match &a.logdir {
        Some(d) => d.clone(),
        None => {
            let mut t = String::new();
            push_char(&mut t, '/');
            push_char(&mut t, 't');
            push_char(&mut t, 'm');
            push_char(&mut t, 'p');
            proof {
                assert(t@ =~= seq!['/', 't', 'm', 'p']);
            }
            t
        },
    };
    push_char(&mut log_path, '/');
    log_path.append(a.name.as_str());
    push_char(&mut log_path, '.');
    push_char(&mut log_path, 'l');
    push_char(&mut log_path, 'o');
    push_char(&mut log_path, 'g');
    proof {
        assert(log_path@ =~= log_path_of(a@));
    }
    let r = SpawnPlan {
        name: a.name.clone(),
        cmd: a.cmd.clone(),
        args: a.args.clone(),
        log_path,
    };
    proof {
        assert(r.args.deep_view() =~= a@.args);
    }
    r
}

/// Why a start did not spawn, or the plan to spawn.
pub enum StartCheck {
    /// No application of that name is configured.
    AppNotFound,
    /// The application is configured but disabled.
    AppDisabled,
    /// The table already holds a live process for the name.
    AlreadyRunning,
    /// All preconditions hold: spawn this.
    Spawn(SpawnPlan),
}

/// How a stop ended.
pub enum StopOutcome {
    /// The name had no table entry: nothing was done.
    NotRunning,
    /// The name had a table entry: the process was terminated (with the given
    /// protocol result) and the entry was removed regardless, since even a
    /// nonexistent process is certainly not running.
    Stopped(Result<TermOk, TermError>),
}

/// The supervisor: one configuration registry and one process table.
pub struct Supervisor {
    pub config: Config,
    pub table: ProcessTable,
}

impl Supervisor {
    /// The supervisor's invariant: configured names are unique, and the table
    /// is well-formed (unique names, plausible pids).
    pub open spec fn wf(&self) -> bool {
        unique_names(self.config@) && table_wf(self.table@)
    }

    /// Decide a start: the application must be configured, enabled, and not
    /// already running; then the result carries the plan to spawn.
    pub fn start_check(&self, name: &str) -> (r: StartCheck)
        requires
            self.wf(),
        ensures
            match r {
                StartCheck::AppNotFound => !has_app(self.config@, name@),
                StartCheck::AppDisabled => has_app(self.config@, name@) && !the_app(
                    self.config@,
                    name@,
                ).enabled,
                StartCheck::AlreadyRunning => has_app(self.config@, name@) && the_app(
                    self.config@,
                    name@,
                ).enabled && table_has(self.table@, name@),
                StartCheck::Spawn(plan) => has_app(self.config@, name@) && the_app(
                    self.config@,
                    name@,
                ).enabled && !table_has(self.table@, name@) && plan@ == plan_of(
                    the_app(self.config@, name@),
                ),
            },
    {
        match self.config.find_config(name) {
            None => StartCheck::AppNotFound,
            Some(a) => {
                proof {
                    let i = choose|i: int|
                        0 <= i < self.config@.len() && self.config@[i] == a@;
                    lemma_the_app(self.config@, name@, i);
                    assert(the_app(self.config@, name@) == a@);
                }
                if !a.enabled {
                    StartCheck::AppDisabled
                } else {
                    match self.table.find(name) {
                        Some(_) => StartCheck::AlreadyRunning,
                        None => StartCheck::Spawn(build_plan(a)),
                    }
                }
            },
        }
    }

    /// Record a process that the surrounding program spawned for a plan. An
    /// entry already bearing the name is never replaced: the fresh pid is
    /// refused instead and the caller must terminate the orphan (under the
    /// supervisor's lock this does not happen, since a plan is only issued
    /// while the name is absent).
    pub fn record_spawn(&mut self, name: String, pid: i32) -> (r: bool)
        requires
            old(self).wf(),
            1 <= pid,
        ensures
            final(self).wf(),
            final(self).config == old(self).config,
            r == !table_has(old(self).table@, name@),
            r ==> final(self).table@ == old(self).table@.push(
                (ProcessEntryView { name: name@, pid: pid as int }),
            ),
            !r ==> final(self).table@ == old(self).table@,
    {
        self.table.insert(name, pid)
    }

    /// Stop the named application: terminate its process gracefully and take
    /// the entry out of the table. A name that is not running is reported and
    /// nothing changes.
    pub fn stop(&mut self, name: &str, grace_ms: u64) -> (r: StopOutcome)
        requires
            old(self).wf(),
        ensures
            final(self).wf(),
            final(self).config == old(self).config,
            match r {
                StopOutcome::NotRunning => !table_has(old(self).table@, name@)
                    && final(self).table@ == old(self).table@,
                StopOutcome::Stopped(_) => table_has(old(self).table@, name@)
                    && final(self).table@ == remove_spec(old(self).table@, name@)
                    && !table_has(final(self).table@, name@),
            },
    {
        match self.table.find(name) {
            None => StopOutcome::NotRunning,
            Some(pid) => {
                proof {
                    let i = choose|i: int|
                        0 <= i < self.table@.len() && self.table@[i].name == name@
                            && self.table@[i].pid == pid as int;
                    assert(1 <= self.table@[i].pid <= i32::MAX);
                }
                let (res, _) = terminate(pid, grace_ms);
                let _ = self.table.remove(name);
                StopOutcome::Stopped(res)
            },
        }
    }

    /// Stop every running process, in table order, best-effort: each one is
    /// terminated and its entry taken out; afterwards the table is empty.
    pub fn stop_all(&mut self, grace_ms: u64)
        requires
            old(self).wf(),
        ensures
            final(self).wf(),
            final(self).config == old(self).config,
            final(self).table@.len() == 0,
    {
        while self.table.len() > 0
            invariant
                self.wf(),
                self.config == old(self).config,
            decreases self.table@.len(),
        {
            let ghost t0 = self.table@;
            match self.table.pop() {
                None => {},
                Some(e) => {
                    proof {
                        assert(e@ == t0[0]);
                        assert(1 <= t0[0].pid <= i32::MAX);
                    }
                    let (_res, _g) = terminate(e.pid, grace_ms);
                },
            }
        }
    }

    /// The plans for booting the daemon: one spawn for every configured,
    /// enabled application that is not already running, in registry order.
    pub fn start_all_plans(&self) -> (r: Vec<SpawnPlan>)
        requires
            self.wf(),
        ensures
            r.deep_view() == start_plans_spec(self.config@, self.table@),
    {
        proof {
            assert(self.config@.skip(0) =~= self.config@);
        }
        self.start_plans_from(0)
    }

    /// The boot plans for the applications from registry position `i` on.
    fn start_plans_from(&self, i: usize) -> (r: Vec<SpawnPlan>)
        requires
            self.wf(),
            i <= self.config.apps.len(),
        ensures
            r.deep_view() == start_plans_spec(self.config@.skip(i as int), self.table@),
        decreases self.config.apps.len() - i,
    {
        if i == self.config.apps.len() {
            let v: Vec<SpawnPlan> = Vec::new();
            proof {
                assert(self.config@.skip(i as int) =~= Seq::<AppConfigView>::empty());
                assert(v.deep_view() =~= Seq::<SpawnPlanView>::empty());
            }
            v
        } else {
            proof {
                assert(self.config@.skip(i as int)[0] == self.config@[i as int]);
                assert(self.config@.skip(i as int).drop_first() =~= self.config@.skip(i + 1));
            }
            let a = &self.config.apps[i];
            let mut rest = self.start_plans_from(i + 1);
            let ghost prior = rest.deep_view();
            let wanted = if a.enabled {
                match self.table.find(a.name.as_str()) {
                    Some(_) => false,
                    None => true,
                }
            } else {
                false
            };
            if wanted {
                let p = build_plan(a);
                rest.insert(0, p);
                proof {
                    assert(rest.deep_view() =~= seq![plan_of(self.config@[i as int])] + prior);
                }
            }
            rest
        }
    }
}

impl DeepView for SpawnPlan {
    type V = SpawnPlanView;

    open spec fn deep_view(&self) -> SpawnPlanView {
        self.view()
    }
}

/// One line of the dump, for one live process.
pub open spec fn table_line(e: ProcessEntryView) -> Seq<char> {
    "* "@ + e.name + " pid "@ + dec_digits(e.pid)
}

/// The dump lines of the process table, in table order.
pub open spec fn table_lines(t: Seq<ProcessEntryView>) -> Seq<Seq<char>>
    decreases t.len(),
{
    if t.len() == 0 {
        Seq::empty()
    } else {
        seq![table_line(t[0])] + table_lines(t.drop_first())
    }
}

/// One line of the dump, for one configured application.
pub open spec fn config_line(a: AppConfigView) -> Seq<char> {
    "- "@ + a.name + (if a.enabled {
        " enabled cmd "@
    } else {
        " disabled cmd "@
    }) + a.cmd
}

/// The dump lines of the registry, in registry order.
pub open spec fn config_lines(apps: Seq<AppConfigView>) -> Seq<Seq<char>>
    decreases apps.len(),
{
    if apps.len() == 0 {
        Seq::empty()
    } else {
        seq![config_line(apps[0])] + config_lines(apps.drop_first())
    }
}

/// The whole dump that a list command answers: the live processes under one
/// header, then the configured applications under another.
pub open spec fn render_spec(t: Seq<ProcessEntryView>, apps: Seq<AppConfigView>) -> Seq<Seq<char>> {
    seq!["Processes:"@] + table_lines(t) + seq!["Configs:"@] + config_lines(apps)
}

/// `table_lines` adds one line per added entry.
proof fn lemma_table_lines_push(t: Seq<ProcessEntryView>, e: ProcessEntryView)
    ensures
        table_lines(t.push(e)) == table_lines(t).push(table_line(e)),
    decreases t.len(),
{
    let p = t.push(e);
    if t.len() == 0 {
        assert(p[0] == e);
        assert(p.drop_first() =~= Seq::<ProcessEntryView>::empty());
        assert(table_lines(p.drop_first()) == Seq::<Seq<char>>::empty());
        assert(table_lines(p) == seq![table_line(p[0])] + table_lines(p.drop_first()));
        assert(table_lines(p) =~= table_lines(t).push(table_line(e)));
    } else {
        lemma_table_lines_push(t.drop_first(), e);
        assert(p[0] == t[0]);
        assert(p.drop_first() =~= t.drop_first().push(e));
        assert(table_lines(p) == seq![table_line(t[0])] + table_lines(t.drop_first().push(e)));
        assert(table_lines(t) == seq![table_line(t[0])] + table_lines(t.drop_first()));
        assert(table_lines(p) =~= table_lines(t).push(table_line(e)));
    }
}

/// `config_lines` adds one line per added application.
proof fn lemma_config_lines_push(apps: Seq<AppConfigView>, a: AppConfigView)
    ensures
        config_lines(apps.push(a)) == config_lines(apps).push(config_line(a)),
    decreases apps.len(),
{
    let p = apps.push(a);
    if apps.len() == 0 {
        assert(p[0] == a);
        assert(p.drop_first() =~= Seq::<AppConfigView>::empty());
        assert(config_lines(p.drop_first()) == Seq::<Seq<char>>::empty());
        assert(config_lines(p) == seq![config_line(p[0])] + config_lines(p.drop_first()));
        assert(config_lines(p) =~= config_lines(apps).push(config_line(a)));
    } else {
        lemma_config_lines_push(apps.drop_first(), a);
        assert(p[0] == apps[0]);
        assert(p.drop_first() =~= apps.drop_first().push(a));
        assert(config_lines(p) == seq![config_line(apps[0])] + config_lines(
            apps.drop_first().push(a),
        ));
        assert(config_lines(apps) == seq![config_line(apps[0])] + config_lines(apps.drop_first()));
        assert(config_lines(p) =~= config_lines(apps).push(config_line(a)));
    }
}

/// The application record that an `add` command registers: enabled, with the
/// default working directory and no log directory of its own.
pub open spec fn added_app(name: Seq<char>, cmd: Seq<char>, args: Seq<Seq<char>>) -> AppConfigView {
    AppConfigView { name, cmd, args, cwd: seq!['/'], enabled: true, logdir: None }
}

/// Neither the registry nor the table changed.
pub open spec fn no_change(pre: Supervisor, post: Supervisor) -> bool {
    post.config@ == pre.config@ && post.table@ == pre.table@
}

/// What the daemon answers over one connection: the text lines to stream
/// back, at most one spawn for the surrounding program to perform, and
/// whether the daemon is to shut down.
pub struct Response {
    pub lines: Vec<String>,
    pub plan: Option<SpawnPlan>,
    pub quit: bool,
}

impl Supervisor {
    /// Try to start: either the plan to spawn, or the status line that says
    /// why not.
    fn start_attempt(&self, name: &str) -> (r: (Option<String>, Option<SpawnPlan>))
        requires
            self.wf(),
        ensures
            (r.1 is Some) <==> (has_app(self.config@, name@) && the_app(self.config@, name@).enabled
                && !table_has(self.table@, name@)),
            r.1 is Some ==> r.1->Some_0@ == plan_of(the_app(self.config@, name@)),
            (r.1 is Some) <==> (r.0 is None),
    {
        match self.start_check(name) {
            StartCheck::AppNotFound => (
                Some(String::from_str("The App name can't be found in config")),
                None,
            ),
            StartCheck::AppDisabled => (Some(String::from_str("The App is disabled")), None),
            StartCheck::AlreadyRunning => (
                Some(String::from_str("The process has already been started")),
                None,
            ),
            StartCheck::Spawn(p) => (None, Some(p)),
        }
    }

    /// The status line of a stop.
    fn stop_line(r: &StopOutcome) -> (l: String) {
        match r {
            StopOutcome::NotRunning => String::from_str("Seems not started, do nothing"),
            StopOutcome::Stopped(Ok(_)) => String::from_str("Kill successfully"),
            StopOutcome::Stopped(Err(TermError::PermissionDenied)) => String::from_str(
                "Insufficient permissions to signal the process",
            ),
            StopOutcome::Stopped(Err(TermError::NoSuchProcess)) => String::from_str(
                "The process was already gone",
            ),
            StopOutcome::Stopped(Err(TermError::Failed)) => String::from_str(
                "Failed to terminate the process",
            ),
        }
    }

    /// The process table and the registry, dumped as text.
    fn render_lines(&self) -> (lines: Vec<String>)
        requires
            self.wf(),
        ensures
            lines.deep_view() == render_spec(self.table@, self.config@),
    {
        let mut lines: Vec<String> = Vec::new();
        lines.push(String::from_str("Processes:"));
        proof {
            assert(self.table@.take(0) =~= Seq::<ProcessEntryView>::empty());
            assert(lines.deep_view() =~= seq!["Processes:"@] + table_lines(self.table@.take(0)));
        }
        let n = self.table.len();
        for i in 0..n
            invariant
                n == self.table@.len(),
                table_wf(self.table@),
                lines.deep_view() == seq!["Processes:"@] + table_lines(self.table@.take(i as int)),
        {
            let e = self.table.get(i);
            proof {
                assert(1 <= self.table@[i as int].pid <= i32::MAX);
            }
            let mut l = String::from_str("* ");
            l.append(e.name.as_str());
            l.append(" pid ");
            let d = dec_str(e.pid as i64);
            l.append(d.as_str());
            let ghost prior = lines.deep_view();
            lines.push(l);
            proof {
                assert(l@ == table_line(self.table@[i as int]));
                lemma_table_lines_push(self.table@.take(i as int), self.table@[i as int]);
                assert(self.table@.take(i + 1) =~= self.table@.take(i as int).push(
                    self.table@[i as int],
                ));
                assert(lines.deep_view() =~= prior.push(l@));
                assert(lines.deep_view() =~= seq!["Processes:"@] + table_lines(
                    self.table@.take(i + 1),
                ));
            }
        }
        proof {
            assert(self.table@.take(n as int) =~= self.table@);
        }
        lines.push(String::from_str("Configs:"));
        let ghost head = seq!["Processes:"@] + table_lines(self.table@) + seq!["Configs:"@];
        proof {
            assert(self.config@.take(0) =~= Seq::<AppConfigView>::empty());
            assert(lines.deep_view() =~= head + config_lines(self.config@.take(0)));
        }
        let m = self.config.apps.len();
        for j in 0..m
            invariant
                m == self.config.apps.len(),
                lines.deep_view() == head + config_lines(self.config@.take(j as int)),
                head == seq!["Processes:"@] + table_lines(self.table@) + seq!["Configs:"@],
        {
            let a = &self.config.apps[j];
            let mut l = String::from_str("- ");
            l.append(a.name.as_str());
            if a.enabled {
                l.append(" enabled cmd ");
            } else {
                l.append(" disabled cmd ");
            }
            l.append(a.cmd.as_str());
            let ghost prior = lines.deep_view();
            lines.push(l);
            proof {
                assert(a@ == self.config@[j as int]);
                assert(l@ == config_line(self.config@[j as int]));
                lemma_config_lines_push(self.config@.take(j as int), self.config@[j as int]);
                assert(self.config@.take(j + 1) =~= self.config@.take(j as int).push(
                    self.config@[j as int],
                ));
                assert(lines.deep_view() =~= prior.push(l@));
                assert(lines.deep_view() =~= head + config_lines(self.config@.take(j + 1)));
            }
        }
        proof {
            assert(self.config@.take(m as int) =~= self.config@);
            assert(lines.deep_view() =~= render_spec(self.table@, self.config@));
        }
        lines
    }

    /// Record the outcome of a spawn that the surrounding program performed:
    /// a fresh pid is inserted into the table, unless the name is running
    /// after all, in which case the existing entry stays untouched.
    pub fn finish_spawn(&mut self, name: &String, pid: Option<i32>) -> (lines: Vec<String>)
        requires
            old(self).wf(),
            match pid {
                Some(p) => 1 <= p,
                None => true,
            },
        ensures
            final(self).wf(),
            final(self).config == old(self).config,
            lines@.len() == 1,
            match pid {
                None => final(self).table@ == old(self).table@ && lines@[0]@ == "Spawn failed"@,
                Some(p) => (!table_has(old(self).table@, name@)
                    ==> final(self).table@ == old(self).table@.push(
                        (ProcessEntryView { name: name@, pid: p as int }),
                    ) && lines@[0]@ == "Spawn successfully"@) && (table_has(
                    old(self).table@,
                    name@,
                ) ==> final(self).table@ == old(self).table@ && lines@[0]@
                    == "The process has already been started"@),
            },
    {
        let mut lines: Vec<String> = Vec::new();
        match pid {
            None => {
                lines.push(String::from_str("Spawn failed"));
            },
            Some(p) => {
                let ok = self.record_spawn(name.clone(), p);
                if ok {
                    lines.push(String::from_str("Spawn successfully"));
                } else {
                    lines.push(String::from_str("The process has already been started"));
                }
            },
        }
        lines
    }

    /// Answer one client command: mutate the registry and the table as the
    /// command demands, and hand back the response lines, the spawn the
    /// surrounding program still has to perform, and whether to shut down.
    pub fn handle_request(&mut self, req: &Request, grace_ms: u64) -> (r: Response)
        requires
            old(self).wf(),
        ensures
            final(self).wf(),
            match req@ {
                RequestView::Status => no_change(*old(self), *final(self)) && r.plan is None
                    && !r.quit && r.lines@.len() == 1 && r.lines@[0]@ == "Daemon is running."@,
                RequestView::AddUsage => no_change(*old(self), *final(self)) && r.plan is None
                    && !r.quit && r.lines@.len() == 1 && r.lines@[0]@
                    == "usage: add <name> </path/to/app> <param1> <param2> ..."@,
                RequestView::Remove => no_change(*old(self), *final(self)) && r.plan is None
                    && !r.quit && r.lines@.len() == 0,
                RequestView::List => no_change(*old(self), *final(self)) && r.plan is None
                    && !r.quit && r.lines.deep_view() == render_spec(
                    old(self).table@,
                    old(self).config@,
                ),
                RequestView::EnableUsage => no_change(*old(self), *final(self)) && r.plan is None
                    && !r.quit && r.lines@.len() == 1 && r.lines@[0]@ == "usage: enable <name>"@,
                RequestView::DisableUsage => no_change(*old(self), *final(self)) && r.plan is None
                    && !r.quit && r.lines@.len() == 1 && r.lines@[0]@
                    == "usage: disable <name>"@,
                RequestView::On => no_change(*old(self), *final(self)) && r.plan is None
                    && !r.quit && r.lines@.len() == 0,
                RequestView::Unknown { token } => no_change(*old(self), *final(self))
                    && r.plan is None && !r.quit && r.lines@.len() == 1 && r.lines@[0]@
                    == "Unknown command: "@ + token,
                RequestView::Add { name, cmd, args } => {
                    &&& final(self).config@ == upsert_spec(
                        old(self).config@,
                        added_app(name, cmd, args),
                    )
                    &&& final(self).table@ == old(self).table@
                    &&& !r.quit
                    &&& ((r.plan is Some) <==> !table_has(old(self).table@, name))
                    &&& (r.plan is Some ==> r.plan->Some_0@ == plan_of(added_app(name, cmd, args)))
                    &&& r.lines@.len() >= 1
                    &&& r.lines@[0]@ == "Add new App "@ + name
                },
                RequestView::Restart { name } => {
                    if old(self).config@.len() == 0 {
                        no_change(*old(self), *final(self)) && r.plan is None && !r.quit
                            && r.lines@.len() == 1 && r.lines@[0]@ == "No apps available"@
                    } else {
                        let target = if name is Some {
                            name->Some_0
                        } else {
                            old(self).config@[0].name
                        };
                        &&& final(self).config@ == old(self).config@
                        &&& final(self).table@ == remove_spec(old(self).table@, target)
                        &&& !r.quit
                        &&& ((r.plan is Some) <==> (has_app(old(self).config@, target) && the_app(
                            old(self).config@,
                            target,
                        ).enabled))
                        &&& (r.plan is Some ==> r.plan->Some_0@ == plan_of(
                            the_app(old(self).config@, target),
                        ))
                        &&& r.lines@.len() >= 1
                        &&& r.lines@[0]@ == "Restarting "@ + target + "... "@
                    }
                },
                RequestView::Enable { name } => {
                    &&& final(self).config@ == set_enabled_spec(old(self).config@, name, true)
                    &&& final(self).table@ == old(self).table@
                    &&& !r.quit
                    &&& ((r.plan is Some) <==> (has_app(old(self).config@, name) && !table_has(
                        old(self).table@,
                        name,
                    )))
                    &&& (r.plan is Some ==> r.plan->Some_0@ == plan_of(
                        (AppConfigView { enabled: true, ..the_app(old(self).config@, name) }),
                    ))
                    &&& r.lines@.len() >= 1
                    &&& r.lines@[0]@ == "Enable "@ + name
                },
                RequestView::Disable { name } => {
                    &&& final(self).config@ == set_enabled_spec(old(self).config@, name, false)
                    &&& final(self).table@ == remove_spec(old(self).table@, name)
                    &&& r.plan is None
                    &&& !r.quit
                    &&& r.lines@.len() == 2
                    &&& r.lines@[0]@ == "Disable "@ + name
                },
                RequestView::Quit => {
                    &&& final(self).config@ == old(self).config@
                    &&& final(self).table@.len() == 0
                    &&& r.plan is None
                    &&& r.quit
                    &&& r.lines@.len() == 2
                    &&& r.lines@[0]@ == "Stop all..."@
                    &&& r.lines@[1]@ == "Bye~"@
                },
            },
    {
        match req {
            Request::Status => Response {
                lines: vec![String::from_str("Daemon is running.")],
                plan: None,
                quit: false,
            },
            Request::AddUsage => Response {
                lines: vec![
                    String::from_str("usage: add <name> </path/to/app> <param1> <param2> ..."),
                ],
                plan: None,
                quit: false,
            },
            Request::Remove => Response { lines: Vec::new(), plan: None, quit: false },
            Request::On => Response { lines: Vec::new(), plan: None, quit: false },
            Request::List => Response { lines: self.render_lines(), plan: None, quit: false },
            Request::EnableUsage => Response {
                lines: vec![String::from_str("usage: enable <name>")],
                plan: None,
                quit: false,
            },
            Request::DisableUsage => Response {
                lines: vec![String::from_str("usage: disable <name>")],
                plan: None,
                quit: false,
            },
            Request::Unknown { token } => {
                let mut l = String::from_str("Unknown command: ");
                l.append(token.as_str());
                Response { lines: vec![l], plan: None, quit: false }
            },
            Request::Add { name, cmd, args } => {
                let mut lines: Vec<String> = Vec::new();
                let mut l = String::from_str("Add new App ");
                l.append(name.as_str());
                lines.push(l);
                let mut cwd = String::new();
                push_char(&mut cwd, '/');
                let app = AppConfig {
                    name: name.clone(),
                    cmd: cmd.clone(),
                    args: args.clone(),
                    cwd,
                    enabled: true,
                    logdir: None,
                };
                let ghost av = added_app(name@, cmd@, args.deep_view());
                proof {
                    assert(app.args.deep_view() =~= args.deep_view());
                    assert(cwd@ =~= seq!['/']);
                    assert(app@ == av);
                }
                let ghost pre_cfg = self.config@;
                self.config.add_config(app);
                proof {
                    lemma_upsert_the_app(pre_cfg, av);
                }
                let (msg, plan) = self.start_attempt(name.as_str());
                match msg {
                    Some(m) => {
                        lines.push(m);
                    },
                    None => {},
                }
                Response { lines, plan, quit: false }
            },
            Request::Restart { name } => {
                let mut lines: Vec<String> = Vec::new();
                if self.config.apps.len() == 0 {
                    lines.push(String::from_str("No apps available"));
                    Response { lines, plan: None, quit: false }
                } else {
                    let target: String = match name {
                        Some(n) => n.clone(),
                        None => self.config.apps[0].name.clone(),
                    };
                    proof {
                        assert(self.config@[0] == self.config.apps@[0]@);
                    }
                    let mut l = String::from_str("Restarting ");
                    l.append(target.as_str());
                    l.append("... ");
                    lines.push(l);
                    let ghost pre_table = self.table@;
                    let s = self.stop(target.as_str(), grace_ms);
                    lines.push(Self::stop_line(&s));
                    proof {
                        match s {
                            StopOutcome::NotRunning => {
                                assert(!table_has(pre_table, target@));
                                assert forall|j: int|
                                    0 <= j < pre_table.len() implies pre_table[j].name
                                    != target@ by {
                                    assert(!table_has(pre_table, target@));
                                }
                                lemma_remove_absent(pre_table, target@);
                            },
                            StopOutcome::Stopped(_) => {},
                        }
                    }
                    let (msg, plan) = self.start_attempt(target.as_str());
                    match msg {
                        Some(m) => {
                            lines.push(m);
                        },
                        None => {},
                    }
                    Response { lines, plan, quit: false }
                }
            },
            Request::Enable { name } => {
                let mut lines: Vec<String> = Vec::new();
                let mut l = String::from_str("Enable ");
                l.append(name.as_str());
                lines.push(l);
                let ghost pre_cfg = self.config@;
                self.config.enable(name.as_str(), true);
                proof {
                    lemma_set_enabled_names(pre_cfg, name@, true);
                    if has_app(pre_cfg, name@) {
                        lemma_set_enabled_the_app(pre_cfg, name@, true);
                    } else {
                        assert(!has_app(self.config@, name@)) by {
                            if has_app(self.config@, name@) {
                                let w = choose|w: int|
                                    0 <= w < self.config@.len() && self.config@[w].name == name@;
                                assert(self.config@[w].name == pre_cfg[w].name);
                            }
                        }
                    }
                }
                let (msg, plan) = self.start_attempt(name.as_str());
                match msg {
                    Some(m) => {
                        lines.push(m);
                    },
                    None => {},
                }
                Response { lines, plan, quit: false }
            },
            Request::Disable { name } => {
                let mut lines: Vec<String> = Vec::new();
                let mut l = String::from_str("Disable ");
                l.append(name.as_str());
                lines.push(l);
                let ghost pre_cfg = self.config@;
                self.config.enable(name.as_str(), false);
                proof {
                    lemma_set_enabled_names(pre_cfg, name@, false);
                }
                let ghost pre_table = self.table@;
                let s = self.stop(name.as_str(), grace_ms);
                lines.push(Self::stop_line(&s));
                proof {
                    match s {
                        StopOutcome::NotRunning => {
                            assert forall|j: int|
                                0 <= j < pre_table.len() implies pre_table[j].name != name@ by {
                                assert(!table_has(pre_table, name@));
                            }
                            lemma_remove_absent(pre_table, name@);
                        },
                        StopOutcome::Stopped(_) => {},
                    }
                }
                Response { lines, plan: None, quit: false }
            },
            Request::Quit => {
                let mut lines: Vec<String> = Vec::new();
                lines.push(String::from_str("Stop all..."));
                self.stop_all(grace_ms);
                lines.push(String::from_str("Bye~"));
                Response { lines, plan: None, quit: true }
            },
        }
    }
}

/// The plans that boot the daemon, for the applications of the registry in
/// order: every enabled one without a table entry.
pub open spec fn start_plans_spec(
    apps: Seq<AppConfigView>,
    t: Seq<ProcessEntryView>,
) -> Seq<SpawnPlanView>
    decreases apps.len(),
{
    if apps.len() == 0 {
        Seq::empty()
    } else {
        let rest = start_plans_spec(apps.drop_first(), t);
        if apps[0].enabled && !table_has(t, apps[0].name) {
            seq![plan_of(apps[0])] + rest
        } else {
            rest
        }
    }
}

} // verus!
