//! What an invocation does with the circuits it was given, from the first task to the last.
use crate::campaign::{
    answers, assigns, course, fatal, goes_on, warning, Campaign, Mode, Phase, Report,
    Task,
};
use crate::pipeline::label;
use crate::report::CompareEntry;
use vstd::prelude::*;

verus! {

/// Whether tasks were given out for the states that they were asked in, and the reports answer
/// them.
pub open spec fn carried_out(
    states: Seq<Campaign>,
    tasks: Seq<Task>,
    reports: Seq<Report>,
) -> bool {
    &&& course(states, reports)
    &&& tasks.len() == reports.len()
    &&& forall|n: int|
        0 <= n < tasks.len() ==> assigns(states[n].dirs@, states[n].phase, #[trigger] tasks[n])
}

/// The directories of the benchmark tasks, in the order in which they were given out.
pub open spec fn benchmarked(tasks: Seq<Task>) -> Seq<Seq<char>>
    decreases tasks.len(),
{
    if tasks.len() == 0 {
        Seq::empty()
    } else {
        let before = benchmarked(tasks.drop_last());
        match tasks.last() {
            Task::Benchmark { dir } => before.push(dir@),
            _ => before,
        }
    }
}

/// What came of the benchmark tasks, in order.
pub open spec fn came(reports: Seq<Report>) -> Seq<Report>
    decreases reports.len(),
{
    if reports.len() == 0 {
        Seq::empty()
    } else {
        let before = came(reports.drop_last());
        match reports.last() {
            Report::Measured { .. } => before.push(reports.last()),
            Report::NotMeasured { .. } => before.push(reports.last()),
            _ => before,
        }
    }
}

/// Whether an entry is what came of measuring a circuit: its outcome, or its error.
pub open spec fn recorded(report: Report, entry: CompareEntry) -> bool {
    match (report, entry) {
        (Report::Measured { outcome }, CompareEntry::Measured(o)) => o == outcome,
        (Report::NotMeasured { cause }, CompareEntry::Failed { error, .. }) => error@ == cause@,
        _ => false,
    }
}

proof fn lemma_carried_out(
    states: Seq<Campaign>,
    tasks: Seq<Task>,
    reports: Seq<Report>,
    n: int,
)
    requires
        carried_out(states, tasks, reports),
        0 <= n < states.len(),
    ensures
        states[n].mode == states[0].mode,
        states[n].dirs == states[0].dirs,
        states[n].entries@.len() <= states[0].dirs@.len(),
        benchmarked(tasks.take(n)).len() == states[n].entries@.len(),
        came(reports.take(n)).len() == states[n].entries@.len(),
        forall|i: int|
            0 <= i < states[n].entries@.len() ==> #[trigger] benchmarked(tasks.take(n))[i]
                == states[0].dirs@[i]@,
        forall|i: int|
            0 <= i < states[n].entries@.len() ==> recorded(
                came(reports.take(n))[i],
                #[trigger] states[n].entries@[i],
            ),
        forall|i: int|
            0 <= i < states[n].entries@.len() ==> (#[trigger] states[n].entries@[i] matches CompareEntry::Failed {
                label: l,
                ..
            } ==> l@ == label(states[0].dirs@[i]@)),
    decreases n,
{
    if n == 0 {
        assert(tasks.take(0) =~= Seq::<Task>::empty());
        assert(reports.take(0) =~= Seq::<Report>::empty());
    } else {
        let m = n - 1;
        lemma_carried_out(states, tasks, reports, m);
        let before = states[m];
        assert(goes_on(before, reports[m], states[m + 1]));
        assert(assigns(before.dirs@, before.phase, tasks[m]));
        assert(answers(before.phase, reports[m]));
        assert(before.dirs.len() == before.dirs@.len());
        assert(before.wf() && states[n].wf());
        assert(tasks.take(n).drop_last() =~= tasks.take(m));
        assert(tasks.take(n).last() == tasks[m]);
        assert(reports.take(n).drop_last() =~= reports.take(m));
        assert(reports.take(n).last() == reports[m]);
        let done = before.entries@.len() as int;
        assert forall|i: int| 0 <= i < states[n].entries@.len() implies recorded(
            came(reports.take(n))[i],
            #[trigger] states[n].entries@[i],
        ) by {
            if i < done {
                assert(recorded(came(reports.take(m))[i], before.entries@[i]));
                assert(states[n].entries@ == before.entries@ || states[n].entries@.take(done)[i]
                    == states[n].entries@[i]);
            }
        }
        assert forall|i: int| 0 <= i < states[n].entries@.len() implies #[trigger] benchmarked(
            tasks.take(n),
        )[i] == states[0].dirs@[i]@ by {
            if i < done {
                assert(benchmarked(tasks.take(m))[i] == states[0].dirs@[i]@);
            }
        }
    }
}

/// Every circuit that was given is measured, once, in the order given: when the results are shown,
/// the benchmark tasks have named exactly the directories that the user gave, and the entries are
/// what came of them, each at its place; one that failed is labelled after its directory.
pub proof fn law_every_circuit_is_measured_in_turn(
    states: Seq<Campaign>,
    tasks: Seq<Task>,
    reports: Seq<Report>,
)
    requires
        carried_out(states, tasks, reports),
        states.last().phase == Phase::Show || states.last().phase == Phase::Done,
    ensures
        benchmarked(tasks) == states[0].dirs@.map_values(|d: String| d@),
        states.last().entries@.len() == states[0].dirs@.len(),
        came(reports).len() == states[0].dirs@.len(),
        forall|i: int|
            0 <= i < states[0].dirs@.len() ==> recorded(
                came(reports)[i],
                #[trigger] states.last().entries@[i],
            ),
        forall|i: int|
            0 <= i < states[0].dirs@.len() ==> (#[trigger] states.last().entries@[i] matches CompareEntry::Failed {
                label: l,
                ..
            } ==> l@ == label(states[0].dirs@[i]@)),
{
    let n = reports.len() as int;
    lemma_carried_out(states, tasks, reports, n);
    assert(states[n] == states.last());
    assert(states[n].wf());
    assert(tasks.take(n) =~= tasks);
    assert(reports.take(n) =~= reports);
    assert(benchmarked(tasks) =~= states[0].dirs@.map_values(|d: String| d@)) by {
        assert forall|i: int| 0 <= i < states[0].dirs@.len() implies benchmarked(tasks)[i]
            == states[0].dirs@[i]@ by {
            assert(benchmarked(tasks.take(n))[i] == states[0].dirs@[i]@);
        }
    }
}

/// The toolchain comes first, then the warm-up with the first circuit, then the first measurement.
pub proof fn law_warm_up_comes_first(states: Seq<Campaign>, tasks: Seq<Task>, reports: Seq<Report>)
    requires
        carried_out(states, tasks, reports),
    ensures
        tasks.len() > 0 ==> tasks[0] is Preflight,
        tasks.len() > 1 ==> (tasks[1] matches Task::WarmUp { dir } && dir@ == states[0].dirs@[0]@),
        tasks.len() > 2 ==> (tasks[2] matches Task::Benchmark { dir } && dir@
            == states[0].dirs@[0]@),
        forall|n: int| 2 <= n < tasks.len() ==> !(#[trigger] tasks[n] is Preflight) && !(tasks[n] is WarmUp),
{
    let first = states[0];
    if tasks.len() > 0 {
        assert(assigns(first.dirs@, first.phase, tasks[0]));
        assert(goes_on(states[0], reports[0], states[1]));
    }
    if tasks.len() > 1 {
        assert(assigns(states[1].dirs@, states[1].phase, tasks[1]));
        assert(answers(states[0].phase, reports[0]));
        assert(goes_on(states[1], reports[1], states[2]));
    }
    if tasks.len() > 2 {
        assert(assigns(states[2].dirs@, states[2].phase, tasks[2]));
    }
    assert forall|n: int| 2 <= n < tasks.len() implies !(#[trigger] tasks[n] is Preflight) && !(
    tasks[n] is WarmUp) by {
        lemma_past_warm_up(states, reports, n);
        assert(assigns(states[n].dirs@, states[n].phase, tasks[n]));
    }
}

proof fn lemma_past_warm_up(states: Seq<Campaign>, reports: Seq<Report>, n: int)
    requires
        course(states, reports),
        2 <= n < states.len(),
    ensures
        states[n].phase != Phase::Preflight,
        states[n].phase != Phase::WarmUp,
    decreases n,
{
    assert(goes_on(states[n - 1], reports[n - 1], states[n - 1 + 1]));
    if n == 2 {
        assert(goes_on(states[0], reports[0], states[1]));
    } else {
        lemma_past_warm_up(states, reports, n - 1);
    }
}

/// Measuring one circuit is five tasks: toolchain, warm-up, measurement, report, and saving.
pub proof fn law_tasks_of_a_run(states: Seq<Campaign>, tasks: Seq<Task>, reports: Seq<Report>)
    requires
        carried_out(states, tasks, reports),
        states[0].mode == Mode::Run,
        states.last().phase == Phase::Done,
    ensures
        tasks.len() == 5,
        tasks[0] is Preflight,
        tasks[1] is WarmUp,
        tasks[2] is Benchmark,
        tasks[3] is Show,
        tasks[4] is Save,
        reports[2] is Measured,
        reports[4] is Saved,
{
    let n = reports.len() as int;
    assert(states[n] == states.last());
    if n < 5 {
        lemma_run(states, tasks, reports, n);
    } else {
        lemma_run(states, tasks, reports, 5);
        if n > 5 {
            assert(answers(states[5].phase, reports[5]));
        }
    }
    lemma_run(states, tasks, reports, 2);
    lemma_run(states, tasks, reports, 4);
    assert(answers(states[2].phase, reports[2]));
    assert(fatal(states[2].mode, reports[2]) is None);
    assert(fatal(states[4].mode, reports[4]) is None);
}

proof fn lemma_run(states: Seq<Campaign>, tasks: Seq<Task>, reports: Seq<Report>, n: int)
    requires
        carried_out(states, tasks, reports),
        states[0].mode == Mode::Run,
        0 <= n < states.len(),
        n <= 5,
    ensures
        states[n].mode == Mode::Run,
        states[n].phase == if n == 0 {
            Phase::Preflight
        } else if n == 1 {
            Phase::WarmUp
        } else if n == 2 {
            Phase::Benchmark { at: 0 }
        } else if n == 3 {
            Phase::Show
        } else if n == 4 {
            Phase::Save { at: 0 }
        } else {
            Phase::Done
        },
        forall|k: int|
            0 <= k < n ==> match #[trigger] tasks[k] {
                Task::Preflight => k == 0,
                Task::WarmUp { .. } => k == 1,
                Task::Benchmark { .. } => k == 2,
                Task::Show => k == 3,
                Task::Save => k == 4,
                Task::Nothing => false,
            },
    decreases n,
{
    if n > 0 {
        lemma_run(states, tasks, reports, n - 1);
        assert(goes_on(states[n - 1], reports[n - 1], states[n - 1 + 1]));
        assert(assigns(states[n - 1].dirs@, states[n - 1].phase, tasks[n - 1]));
    }
}

/// Comparing circuits, each outcome is saved as soon as it is there, and the comparison is shown
/// last.
pub proof fn law_outcomes_are_saved_at_once(
    states: Seq<Campaign>,
    tasks: Seq<Task>,
    reports: Seq<Report>,
    n: int,
)
    requires
        carried_out(states, tasks, reports),
        states[0].mode == Mode::Compare,
        0 <= n < tasks.len() - 1,
    ensures
        reports[n] is Measured <==> tasks[n + 1] is Save,
        tasks[n + 1] is Save ==> states[n + 1].entries@.len() > 0 && recorded(
            reports[n],
            states[n + 1].entries@.last(),
        ),
        !(tasks[n] is Show),
{
    lemma_carried_out(states, tasks, reports, n);
    assert(goes_on(states[n], reports[n], states[n + 1]));
    assert(answers(states[n].phase, reports[n]));
    assert(assigns(states[n].dirs@, states[n].phase, tasks[n]));
    assert(assigns(states[n + 1].dirs@, states[n + 1].phase, tasks[n + 1]));
    assert(answers(states[n + 1].phase, reports[n + 1]));
    assert(states[n].dirs.len() == states[n].dirs@.len());
}

/// What ends an invocation, and with which message: a toolchain that is not there always does;
/// a circuit that fails, or a result that cannot be saved, only where a single circuit is measured.
pub proof fn law_what_is_fatal(mode: Mode, report: Report)
    ensures
        fatal(mode, report) == match report {
            Report::NotReady { cause } => Some(cause@),
            Report::NotMeasured { cause } => if mode == Mode::Run {
                Some(cause@)
            } else {
                None
            },
            Report::NotSaved { cause } => if mode == Mode::Run {
                Some("failed to write result JSON"@ + ": "@ + cause@)
            } else {
                None
            },
            _ => None,
        },
{
}

/// What is warned of: a warm-up that failed, and a result that could not be saved.
pub proof fn law_what_is_warned_of(report: Report)
    ensures
        warning(report) == match report {
            Report::NotWarmedUp { cause } => Some(
                "warning: global warm-up skipped ("@ + cause@
                    + "); the first measured circuit may include cold-start cost"@,
            ),
            Report::NotSaved { cause } => Some("warning: failed to write result JSON: "@ + cause@),
            _ => None,
        },
{
}

} // verus!
