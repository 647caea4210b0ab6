//! A whole invocation: preparations, the circuits one after the other, and what is shown of them.
//!
//! Two modes share everything but what a failure means. Measuring one circuit, a failure is the
//! end. Comparing several, a failure becomes a row of the table and the remaining circuits still
//! run.
use crate::circuit::{chain, chained};
use crate::pipeline::{label, path_label, Outcome};
use crate::report::CompareEntry;
use vstd::prelude::*;

verus! {

/// What the circuits are measured for.
#[derive(Clone, Copy, Debug, PartialEq, Eq, Structural)]
pub enum Mode {
    /// Measure one circuit and print its report.
    Run,
    /// Measure several circuits and print them side by side.
    Compare,
}

/// How far an invocation has come.
#[derive(Clone, Copy, Debug, PartialEq, Eq, Structural)]
pub enum Phase {
    /// Look for the toolchain.
    Preflight,
    /// Absorb session-level cold costs, with the first circuit.
    WarmUp,
    /// Measure a circuit.
    Benchmark { at: usize },
    /// Persist the outcome of a circuit.
    Save { at: usize },
    /// Show the report, or the comparison.
    Show,
    /// Nothing is left to do.
    Done,
}

/// A task for the outside world.
#[derive(Debug)]
pub enum Task {
    Preflight,
    WarmUp { dir: String },
    Benchmark { dir: String },
    /// Persist the outcome that was measured last.
    Save,
    Show,
    Nothing,
}

/// What came of a task.
#[derive(Debug)]
pub enum Report {
    /// The toolchain is there.
    Ready,
    NotReady { cause: String },
    WarmedUp,
    NotWarmedUp { cause: String },
    Measured { outcome: Outcome },
    NotMeasured { cause: String },
    Saved,
    NotSaved { cause: String },
    Shown,
}

/// Whether a report can come of the task of a phase.
pub open spec fn answers(phase: Phase, report: Report) -> bool {
    match phase {
        Phase::Preflight => report is Ready || report is NotReady,
        Phase::WarmUp => report is WarmedUp || report is NotWarmedUp,
        Phase::Benchmark { .. } => report is Measured || report is NotMeasured,
        Phase::Save { .. } => report is Saved || report is NotSaved,
        Phase::Show => report is Shown,
        Phase::Done => false,
    }
}

/// Why an invocation ends early, if it does.
pub open spec fn fatal(mode: Mode, report: Report) -> Option<Seq<char>> {
    match report {
        Report::NotReady { cause } => Some(cause@),
        Report::NotMeasured { cause } => if mode == Mode::Run {
            Some(cause@)
        } else {
            None
        },
        Report::NotSaved { cause } => if mode == Mode::Run {
            Some(chained("failed to write result JSON"@, Some(cause@)))
        } else {
            None
        },
        _ => None,
    }
}

/// What the user is warned of.
pub open spec fn warning(report: Report) -> Option<Seq<char>> {
    match report {
        Report::NotWarmedUp { cause } => Some(
            "warning: global warm-up skipped ("@ + cause@
                + "); the first measured circuit may include cold-start cost"@,
        ),
        Report::NotSaved { cause } => Some("warning: failed to write result JSON: "@ + cause@),
        _ => None,
    }
}

/// What follows the circuit at a place, of `count` circuits.
pub open spec fn after_circuit(count: nat, at: usize) -> Phase {
    if at + 1 < count {
        Phase::Benchmark { at: (at + 1) as usize }
    } else {
        Phase::Show
    }
}

/// The phase that follows another, where a report does not end the invocation.
pub open spec fn next_phase(mode: Mode, count: nat, phase: Phase, report: Report) -> Phase {
    match phase {
        Phase::Preflight => Phase::WarmUp,
        Phase::WarmUp => Phase::Benchmark { at: 0 },
        Phase::Benchmark { at } => match mode {
            Mode::Run => Phase::Show,
            Mode::Compare => if report is Measured {
                Phase::Save { at }
            } else {
                after_circuit(count, at)
            },
        },
        Phase::Save { at } => match mode {
            Mode::Run => Phase::Done,
            Mode::Compare => after_circuit(count, at),
        },
        Phase::Show => match mode {
            Mode::Run => Phase::Save { at: 0 },
            Mode::Compare => Phase::Done,
        },
        Phase::Done => Phase::Done,
    }
}

/// Whether `task` is the task of a phase.
pub open spec fn assigns(dirs: Seq<String>, phase: Phase, task: Task) -> bool {
    match phase {
        Phase::Preflight => task is Preflight,
        Phase::WarmUp => task matches Task::WarmUp { dir } && dir@ == dirs[0]@,
        Phase::Benchmark { at } => task matches Task::Benchmark { dir } && dir@ == dirs[at as int]@,
        Phase::Save { .. } => task is Save,
        Phase::Show => task is Show,
        Phase::Done => task is Nothing,
    }
}

/// Whether an entry tells what came of measuring the circuit in a directory.
pub open spec fn tells_of(dir: Seq<char>, report: Report, entry: CompareEntry) -> bool {
    match report {
        Report::Measured { outcome } => entry == CompareEntry::Measured(outcome),
        Report::NotMeasured { cause } => entry matches CompareEntry::Failed { label: l, error }
            && l@ == label(dir) && error == cause,
        _ => false,
    }
}

/// Whether a report that does not end an invocation takes it from one state to another: to the
/// next phase, with an entry for the circuit where one was measured or failed.
pub open spec fn goes_on(before: Campaign, report: Report, after: Campaign) -> bool {
    let done = before.entries@.len() as int;
    &&& after.mode == before.mode
    &&& after.dirs == before.dirs
    &&& after.repeats == before.repeats
    &&& after.phase == next_phase(before.mode, before.dirs@.len(), before.phase, report)
    &&& if report is Measured || report is NotMeasured {
        &&& after.entries@.len() == done + 1
        &&& after.entries@.take(done) == before.entries@
        &&& tells_of(before.dirs@[done]@, report, after.entries@[done])
    } else {
        after.entries@ == before.entries@
    }
}

/// An invocation on its way.
#[derive(Debug)]
pub struct Campaign {
    pub mode: Mode,
    pub dirs: Vec<String>,
    pub repeats: usize,
    pub phase: Phase,
    /// One entry for each circuit that is through, in the order of the circuits.
    pub entries: Vec<CompareEntry>,
}

impl Campaign {
    /// There is one entry for each circuit that is through; one that failed carries the label of
    /// its path; a single circuit that failed has no entry.
    pub open spec fn wf(self) -> bool {
        let count = self.dirs@.len();
        &&& count > 0
        &&& self.mode == Mode::Run ==> count == 1
        &&& self.repeats > 0
        &&& self.entries@.len() == (match self.phase {
            Phase::Preflight => 0,
            Phase::WarmUp => 0,
            Phase::Benchmark { at } => at as int,
            Phase::Save { at } => at + 1,
            Phase::Show => count as int,
            Phase::Done => count as int,
        })
        &&& match self.phase {
            Phase::Benchmark { at } => at < count,
            Phase::Save { at } => at < count && self.entries@[at as int] is Measured,
            _ => true,
        }
        &&& forall|i: int|
            0 <= i < self.entries@.len() ==> (#[trigger] self.entries@[i] matches CompareEntry::Failed {
                label: l,
                ..
            } ==> self.mode == Mode::Compare && l@ == label(self.dirs@[i]@))
    }

    /// An invocation before its first phase. It takes at least one repeat.
    pub fn begin(mode: Mode, dirs: Vec<String>, repeats: usize) -> (r: Result<Campaign, String>)
        requires
            repeats > 0 ==> dirs@.len() > 0,
            repeats > 0 && mode == Mode::Run ==> dirs@.len() == 1,
        ensures
            match r {
                Ok(c) => repeats > 0 && c.wf() && c.mode == mode && c.dirs == dirs && c.repeats
                    == repeats && c.phase == Phase::Preflight,
                Err(e) => repeats == 0 && e@ == "--repeats must be at least 1"@,
            },
    {
        if repeats == 0 {
            return Err(String::from_str("--repeats must be at least 1"));
        }
        Ok(Campaign { mode, dirs, repeats, phase: Phase::Preflight, entries: Vec::new() })
    }

    /// The task of the current phase.
    pub fn task(&self) -> (r: Task)
        requires
            self.wf(),
        ensures
            assigns(self.dirs@, self.phase, r),
            r matches Task::Benchmark { dir } ==> self.phase matches Phase::Benchmark { at } && dir@
                == self.dirs@[at as int]@,
            r matches Task::WarmUp { dir } ==> dir@ == self.dirs@[0]@,
    {
        match self.phase {
            Phase::Preflight => Task::Preflight,
            Phase::WarmUp => Task::WarmUp { dir: self.dirs[0].clone() },
            Phase::Benchmark { at } => Task::Benchmark { dir: self.dirs[at].clone() },
            Phase::Save { .. } => Task::Save,
            Phase::Show => Task::Show,
            Phase::Done => Task::Nothing,
        }
    }

    /// Takes in what came of the task of the current phase. Gives the error that ends the
    /// invocation, or else moves on, with a warning where there is something to warn of.
    pub fn step(&mut self, report: Report) -> (r: Result<Option<String>, String>)
        requires
            old(self).wf(),
            answers(old(self).phase, report),
        ensures
            final(self).wf(),
            match fatal(old(self).mode, report) {
                Some(t) => r matches Err(e) && e@ == t && *final(self) == *old(self),
                None => {
                    &&& r matches Ok(w) && match warning(report) {
                        Some(t) => w matches Some(m) && m@ == t,
                        None => w is None,
                    }
                    &&& goes_on(*old(self), report, *final(self))
                },
            },
    {
        let phase = self.phase;
        let count = self.dirs.len();
        match report {
            Report::Ready => {
                self.phase = Phase::WarmUp;
                Ok(None)
            },
            Report::NotReady { cause } => Err(cause),
            Report::WarmedUp => {
                self.phase = Phase::Benchmark { at: 0 };
                Ok(None)
            },
            Report::NotWarmedUp { cause } => {
                self.phase = Phase::Benchmark { at: 0 };
                let mut m = String::from_str("warning: global warm-up skipped (");
                m.append(&cause);
                m.append("); the first measured circuit may include cold-start cost");
                Ok(Some(m))
            },
            Report::Measured { outcome } => {
                let at = self.entries.len();
                self.entries.push(CompareEntry::Measured(outcome));
                assert(self.entries@.take(at as int) =~= old(self).entries@);
                self.phase = match self.mode {
                    Mode::Run => Phase::Show,
                    Mode::Compare => Phase::Save { at },
                };
                Ok(None)
            },
            Report::NotMeasured { cause } => match self.mode {
                Mode::Run => Err(cause),
                Mode::Compare => {
                    let at = self.entries.len();
                    let entry = CompareEntry::Failed {
                        label: path_label(&self.dirs[at]),
                        error: cause,
                    };
                    self.entries.push(entry);
                    assert(self.entries@.take(at as int) =~= old(self).entries@);
                    self.phase = circuit_done(count, at);
                    Ok(None)
                },
            },
            Report::Saved => {
                self.phase = match self.mode {
                    Mode::Run => Phase::Done,
                    Mode::Compare => circuit_done(count, self.entries.len() - 1),
                };
                Ok(None)
            },
            Report::NotSaved { cause } => match self.mode {
                Mode::Run => Err(chain(String::from_str("failed to write result JSON"), &cause)),
                Mode::Compare => {
                    self.phase = circuit_done(count, self.entries.len() - 1);
                    let m = String::from_str("warning: failed to write result JSON: ");
                    Ok(Some(m.concat(&cause)))
                },
            },
            Report::Shown => {
                self.phase = match self.mode {
                    Mode::Run => Phase::Save { at: 0 },
                    Mode::Compare => Phase::Done,
                };
                Ok(None)
            },
        }
    }
}

fn circuit_done(count: usize, at: usize) -> (r: Phase)
    requires
        at < count,
    ensures
        r == after_circuit(count as nat, at),
{
    if at + 1 < count {
        Phase::Benchmark { at: at + 1 }
    } else {
        Phase::Show
    }
}

/// How far a phase is from the start.
pub open spec fn progress(mode: Mode, count: nat, phase: Phase) -> nat {
    match phase {
        Phase::Preflight => 0,
        Phase::WarmUp => 1,
        Phase::Benchmark { at } => 2 + 2 * at as nat,
        Phase::Save { at } => match mode {
            Mode::Run => 2 * count + 3,
            Mode::Compare => 3 + 2 * at as nat,
        },
        Phase::Show => 2 * count + 2,
        Phase::Done => 2 * count + 4,
    }
}

/// Every step moves on: an invocation that no failure ends takes each of its phases at most once,
/// the warm-up before any measurement, and comes to its end.
pub proof fn law_invocation_moves_on(c: Campaign, report: Report)
    requires
        c.wf(),
        answers(c.phase, report),
        fatal(c.mode, report) is None,
    ensures
        ({
            let count = c.dirs@.len();
            let next = next_phase(c.mode, count, c.phase, report);
            &&& progress(c.mode, count, c.phase) < progress(c.mode, count, next)
            &&& progress(c.mode, count, next) <= progress(c.mode, count, Phase::Done)
            &&& progress(c.mode, count, next) == progress(c.mode, count, Phase::Done) ==> next
                == Phase::Done
        }),
{
    assert(c.dirs.len() == c.dirs@.len());
}

/// Comparing circuits, a failure of one does not stop the others: whatever comes of measuring
/// the circuit at a place, and of saving its outcome, the invocation goes on to the next circuit,
/// or to the comparison after the last.
pub proof fn law_failure_does_not_stop_the_others(
    count: nat,
    at: usize,
    measured: Report,
    saved: Report,
)
    requires
        at < count,
        answers(Phase::Benchmark { at }, measured),
        answers(Phase::Save { at }, saved),
    ensures
        ({
            let next = next_phase(Mode::Compare, count, Phase::Benchmark { at }, measured);
            &&& fatal(Mode::Compare, measured) is None
            &&& fatal(Mode::Compare, saved) is None
            &&& measured is NotMeasured ==> next == after_circuit(count, at)
            &&& measured is Measured ==> next == (Phase::Save { at }) && next_phase(
                Mode::Compare,
                count,
                next,
                saved,
            ) == after_circuit(count, at)
        }),
{
}

/// A warm-up that fails is no error: it is warned of, and the measurement begins all the same.
pub proof fn law_warm_up_is_best_effort(mode: Mode, count: nat, report: Report)
    requires
        answers(Phase::WarmUp, report),
    ensures
        fatal(mode, report) is None,
        next_phase(mode, count, Phase::WarmUp, report) == (Phase::Benchmark { at: 0 }),
        warning(report) is Some <==> report is NotWarmedUp,
{
}

/// Whether the states follow one another by the reports, none of which ends the invocation.
pub open spec fn course(states: Seq<Campaign>, reports: Seq<Report>) -> bool {
    &&& states.len() == reports.len() + 1
    &&& states[0].phase == Phase::Preflight
    &&& forall|n: int| 0 <= n < states.len() ==> (#[trigger] states[n]).wf()
    &&& forall|n: int|
        #![trigger reports[n]]
        0 <= n < reports.len() ==> answers(states[n].phase, reports[n]) && fatal(
            states[n].mode,
            reports[n],
        ) is None && goes_on(states[n], reports[n], states[n + 1])
}

/// Whether measuring the circuit at a place came to its entry at some point before `n`.
spec fn entered(states: Seq<Campaign>, reports: Seq<Report>, n: int, at: int) -> bool {
    exists|k: int|
        #![trigger reports[k]]
        0 <= k < n && states[k].phase == (Phase::Benchmark { at: at as usize }) && tells_of(
            states[0].dirs@[at]@,
            reports[k],
            states[n].entries@[at],
        )
}

proof fn lemma_entries(states: Seq<Campaign>, reports: Seq<Report>, n: int)
    requires
        course(states, reports),
        0 <= n < states.len(),
    ensures
        states[n].mode == states[0].mode,
        states[n].dirs == states[0].dirs,
        forall|at: int|
            0 <= at < states[n].entries@.len() ==> #[trigger] entered(states, reports, n, at),
    decreases n,
{
    if n > 0 {
        let m = n - 1;
        lemma_entries(states, reports, m);
        let before = states[m];
        let report = reports[m];
        let done = before.entries@.len() as int;
        assert(goes_on(before, report, states[m + 1]));
        assert(before.dirs.len() == before.dirs@.len());
        assert forall|at: int| 0 <= at < states[n].entries@.len() implies #[trigger] entered(
            states,
            reports,
            n,
            at,
        ) by {
            if at < done {
                assert(entered(states, reports, m, at));
                let k = choose|k: int|
                    #![trigger reports[k]]
                    0 <= k < m && states[k].phase == (Phase::Benchmark { at: at as usize })
                        && tells_of(states[0].dirs@[at]@, reports[k], before.entries@[at]);
                assert(states[n].entries@.take(done)[at] == states[n].entries@[at]
                    || states[n].entries@ == before.entries@);
                assert(tells_of(states[0].dirs@[at]@, reports[k], states[n].entries@[at]));
            } else {
                assert(tells_of(states[0].dirs@[at]@, reports[m], states[n].entries@[at]));
            }
        }
    }
}

proof fn lemma_progress(states: Seq<Campaign>, reports: Seq<Report>, m: int, n: int)
    requires
        course(states, reports),
        0 <= m < n < states.len(),
    ensures
        states[m].phase != states[n].phase,
        progress(states[0].mode, states[0].dirs@.len(), states[m].phase) < progress(
            states[0].mode,
            states[0].dirs@.len(),
            states[n].phase,
        ),
    decreases n - m,
{
    let c = n - 1;
    lemma_entries(states, reports, c);
    assert(goes_on(states[c], reports[c], states[c + 1]));
    law_invocation_moves_on(states[c], reports[c]);
    if m < c {
        lemma_progress(states, reports, m, c);
    }
}

/// Every circuit has its own entry: when the results are shown there are as many entries as
/// circuits, each circuit was measured once, and its entry, at its own place, tells what came of
/// that.
pub proof fn law_every_circuit_has_an_entry(
    states: Seq<Campaign>,
    reports: Seq<Report>,
    i: int,
)
    requires
        course(states, reports),
        states.last().phase == Phase::Show,
        0 <= i < states[0].dirs@.len(),
    ensures
        states.last().entries@.len() == states[0].dirs@.len(),
        exists|k: int|
            0 <= k < reports.len() && (#[trigger] states[k]).phase == (Phase::Benchmark {
                at: i as usize,
            }),
        forall|k: int|
            0 <= k < reports.len() && (#[trigger] states[k]).phase == (Phase::Benchmark {
                at: i as usize,
            }) ==> tells_of(states[0].dirs@[i]@, reports[k], states.last().entries@[i]),
        forall|j: int, k: int|
            0 <= j < reports.len() && 0 <= k < reports.len() && (#[trigger] states[j]).phase == (
            Phase::Benchmark { at: i as usize }) && (#[trigger] states[k]).phase == states[j].phase
                ==> j == k,
{
    let n = reports.len() as int;
    lemma_entries(states, reports, n);
    assert(states[n] == states.last());
    assert(entered(states, reports, n, i));
    let e = choose|k: int|
        #![trigger reports[k]]
        0 <= k < n && states[k].phase == (Phase::Benchmark { at: i as usize }) && tells_of(
            states[0].dirs@[i]@,
            reports[k],
            states[n].entries@[i],
        );
    assert(states[e].phase == (Phase::Benchmark { at: i as usize }));
    assert forall|j: int, k: int|
        0 <= j < reports.len() && 0 <= k < reports.len() && (#[trigger] states[j]).phase == (
        Phase::Benchmark { at: i as usize }) && (#[trigger] states[k]).phase
            == states[j].phase implies j == k by {
        if j < k {
            lemma_progress(states, reports, j, k);
        } else if k < j {
            lemma_progress(states, reports, k, j);
        }
    }
    assert forall|k: int|
        0 <= k < reports.len() && (#[trigger] states[k]).phase == (Phase::Benchmark {
            at: i as usize,
        }) implies tells_of(states[0].dirs@[i]@, reports[k], states.last().entries@[i]) by {
        assert(states[e].phase == states[k].phase);
    }
}

} // verus!
