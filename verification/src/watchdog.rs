//! The watchdog's per-tick logic. Each tick polls every table entry without
//! blocking; an entry whose process has exited is taken out of the table, and
//! when its application is still configured, a respawn plan is produced for
//! it (using the current configuration, whether or not it is still enabled,
//! as a respawn is not a start). An exited entry whose configuration is gone
//! is only removed, so that a later `add` can start the name afresh. The
//! table never holds two entries for one name: a respawned process is
//! recorded by `finish_spawn`, which refuses a duplicate.

use vstd::prelude::*;

use crate::config::{has_app, lemma_the_app, the_app, AppConfigView};
use crate::osproc::{poll_child, PollOutcome};
use crate::supervisor::{plan_of, SpawnPlan, SpawnPlanView, Supervisor};
use crate::table::{
    lemma_remove_absent, lemma_remove_at, lemma_remove_wf, remove_spec, table_has, table_wf,
    ProcessEntryView,
};

verus! {

/// The table after the named entries have been taken out, first name first.
pub open spec fn remove_names(
    t: Seq<ProcessEntryView>,
    names: Seq<Seq<char>>,
) -> Seq<ProcessEntryView>
    decreases names.len(),
{
    if names.len() == 0 {
        t
    } else {
        remove_names(remove_spec(t, names[0]), names.drop_first())
    }
}

/// The respawn plans for the exited names, in order: one plan per name that
/// is still configured.
pub open spec fn respawn_plans(
    apps: Seq<AppConfigView>,
    names: Seq<Seq<char>>,
) -> Seq<SpawnPlanView>
    decreases names.len(),
{
    if names.len() == 0 {
        Seq::empty()
    } else {
        let rest = respawn_plans(apps, names.drop_first());
        if has_app(apps, names[0]) {
            seq![plan_of(the_app(apps, names[0]))] + rest
        } else {
            rest
        }
    }
}

/// Poll every table entry without blocking: the names whose processes were
/// observed to have exited (and were thereby reaped), each of them a name
/// the table holds.
pub fn watchdog_poll(sup: &Supervisor) -> (exited: Vec<String>)
    requires
        sup.wf(),
    ensures
        forall|k: int|
            0 <= k < exited.deep_view().len() ==> table_has(
                sup.table@,
                #[trigger] exited.deep_view()[k],
            ),
{
    let mut exited: Vec<String> = Vec::new();
    let n = sup.table.len();
    for i in 0..n
        invariant
            n == sup.table@.len(),
            sup.wf(),
            forall|k: int|
                0 <= k < exited.deep_view().len() ==> table_has(
                    sup.table@,
                    #[trigger] exited.deep_view()[k],
                ),
    {
        let e = sup.table.get(i);
        proof {
            assert(1 <= sup.table@[i as int].pid <= i32::MAX);
        }
        let p = poll_child(e.pid);
        let observed_gone: bool = match p {
            PollOutcome::Exited => true,
            PollOutcome::Gone => true,
            PollOutcome::Running => false,
            PollOutcome::Failed => false,
        };
        if observed_gone {
            let ghost prior = exited.deep_view();
            exited.push(e.name.clone());
            proof {
                assert(exited.deep_view() =~= prior.push(e@.name));
                assert(table_has(sup.table@, sup.table@[i as int].name));
            }
        }
    }
    exited
}

/// React to the exited names: take each out of the table, and plan a respawn
/// for each one that is still configured.
pub fn watchdog_plan(sup: &mut Supervisor, exited: &Vec<String>) -> (plans: Vec<SpawnPlan>)
    requires
        old(sup).wf(),
    ensures
        final(sup).wf(),
        final(sup).config == old(sup).config,
        final(sup).table@ == remove_names(old(sup).table@, exited.deep_view()),
        plans.deep_view() == respawn_plans(old(sup).config@, exited.deep_view()),
{
    proof {
        assert(exited.deep_view().skip(0) =~= exited.deep_view());
    }
    watchdog_plan_from(sup, exited, 0)
}

/// React to the exited names from position `i` on.
fn watchdog_plan_from(sup: &mut Supervisor, exited: &Vec<String>, i: usize) -> (plans: Vec<
    SpawnPlan,
>)
    requires
        old(sup).wf(),
        i <= exited.len(),
    ensures
        final(sup).wf(),
        final(sup).config == old(sup).config,
        final(sup).table@ == remove_names(old(sup).table@, exited.deep_view().skip(i as int)),
        plans.deep_view() == respawn_plans(old(sup).config@, exited.deep_view().skip(i as int)),
    decreases exited.len() - i,
{
    if i == exited.len() {
        let v: Vec<SpawnPlan> = Vec::new();
        proof {
            assert(exited.deep_view().skip(i as int) =~= Seq::<Seq<char>>::empty());
            assert(v.deep_view() =~= Seq::<SpawnPlanView>::empty());
        }
        v
    } else {
        let ghost names = exited.deep_view().skip(i as int);
        proof {
            assert(names[0] == exited@[i as int]@);
            assert(names.drop_first() =~= exited.deep_view().skip(i + 1));
        }
        let name = &exited[i];
        let _ = sup.table.remove(name.as_str());
        let planned: Option<SpawnPlan> = match sup.config.find_config(name.as_str()) {
            Some(a) => {
                proof {
                    let w = choose|w: int|
                        0 <= w < sup.config@.len() && sup.config@[w] == a@;
                    lemma_the_app(sup.config@, name@, w);
                }
                Some(crate::supervisor::build_plan(a))
            },
            None => None,
        };
        let mut rest = watchdog_plan_from(sup, exited, i + 1);
        let ghost prior = rest.deep_view();
        match planned {
            Some(p) => {
                let ghost pv = p@;
                rest.insert(0, p);
                proof {
                    assert(rest.deep_view() =~= seq![pv] + prior);
                }
            },
            None => {},
        }
        rest
    }
}

/// One watchdog tick: poll everything, reap and unregister what exited, and
/// hand back the respawn plans for the surrounding program to perform (each
/// recorded afterwards through `finish_spawn`, which never duplicates a
/// name). Which processes were observed to exit is the OS's choice, so the
/// contract holds for some sequence of observed names, each of them from the
/// table.
pub fn watchdog_tick(sup: &mut Supervisor) -> (plans: Vec<SpawnPlan>)
    requires
        old(sup).wf(),
    ensures
        final(sup).wf(),
        final(sup).config == old(sup).config,
        exists|ex: Seq<Seq<char>>|
            #![auto]
            (forall|k: int| 0 <= k < ex.len() ==> table_has(old(sup).table@, ex[k]))
                && final(sup).table@ == remove_names(old(sup).table@, ex) && plans.deep_view()
                == respawn_plans(old(sup).config@, ex),
{
    let exited = watchdog_poll(sup);
    let plans = watchdog_plan(sup, &exited);
    proof {
        let ex = exited.deep_view();
        assert(forall|k: int| 0 <= k < ex.len() ==> table_has(old(sup).table@, #[trigger] ex[k]));
        assert(sup.table@ == remove_names(old(sup).table@, ex));
        assert(plans.deep_view() == respawn_plans(old(sup).config@, ex));
    }
    plans
}

/// A respawn replaces, and never duplicates: when an exited entry has been
/// taken out of the table and the fresh process has been recorded, the table
/// holds exactly one entry for the name, bearing the new process id.
pub proof fn lemma_respawn_replaces(t: Seq<ProcessEntryView>, name: Seq<char>, pid: int)
    requires
        table_wf(t),
        1 <= pid <= i32::MAX,
    ensures
        ({
            let t2 = remove_spec(t, name).push((ProcessEntryView { name, pid }));
            &&& table_wf(t2)
            &&& table_has(t2, name)
            &&& forall|i: int|
                0 <= i < t2.len() && #[trigger] t2[i].name == name ==> t2[i]
                    == (ProcessEntryView { name, pid })
        }),
{
    let t1 = remove_spec(t, name);
    if table_has(t, name) {
        let w = choose|w: int| 0 <= w < t.len() && t[w].name == name;
        assert forall|j: int| 0 <= j < w implies t[j].name != name by {
            assert(t[j].name != t[w].name);
        }
        lemma_remove_at(t, name, w);
        lemma_remove_wf(t, name, w);
    } else {
        assert forall|j: int| 0 <= j < t.len() implies t[j].name != name by {
            assert(!table_has(t, name));
        }
        lemma_remove_absent(t, name);
        assert forall|j: int| 0 <= j < t1.len() implies t1[j].name != name by {
            assert(!table_has(t, name));
        }
    }
    assert(table_wf(t1));
    assert(forall|j: int| 0 <= j < t1.len() ==> #[trigger] t1[j].name != name);
    let e = ProcessEntryView { name, pid };
    let t2 = t1.push(e);
    assert(t2[t2.len() - 1] == e);
    assert forall|i: int, j: int| 0 <= i < j < t2.len() implies t2[i].name != t2[j].name by {
        if j < t2.len() - 1 {
            assert(t2[i] == t1[i]);
            assert(t2[j] == t1[j]);
        } else {
            assert(t2[i] == t1[i]);
        }
    }
    assert forall|i: int| 0 <= i < t2.len() implies 1 <= #[trigger] t2[i].pid <= i32::MAX by {
        if i < t2.len() - 1 {
            assert(t2[i] == t1[i]);
        }
    }
    assert forall|i: int|
        0 <= i < t2.len() && #[trigger] t2[i].name == name implies t2[i] == e by {
        if i < t2.len() - 1 {
            assert(t2[i] == t1[i]);
        }
    }
}

} // verus!
