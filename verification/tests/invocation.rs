use zkbench::campaign::{Campaign, Mode, Phase, Report, Task};
use zkbench::cli::{Cli, Command};
use zkbench::measure::Sample;
use zkbench::pipeline::Outcome;
use zkbench::report::CompareEntry;

fn outcome(name: &str) -> Outcome {
    Outcome {
        circuit: name.to_string(),
        backend: "ultra_honk",
        constraints: 1,
        acir_opcodes: 1,
        witness: Sample { time_ms: 1, peak_kb: 1 },
        prove: Sample { time_ms: 1, peak_kb: 1 },
        repeats: 1,
        samples_used: 1,
        nargo_version: String::new(),
        bb_version: String::new(),
    }
}

fn dirs(names: &[&str]) -> Vec<String> {
    names.iter().map(|n| n.to_string()).collect()
}

fn cause(text: &str) -> String {
    text.to_string()
}

#[test]
fn repeats_must_be_at_least_one() {
    let e = Campaign::begin(Mode::Run, dirs(&["a"]), 0).unwrap_err();
    assert_eq!(e, "--repeats must be at least 1");
    let e = Campaign::begin(Mode::Compare, dirs(&["a", "b"]), 0).unwrap_err();
    assert_eq!(e, "--repeats must be at least 1");
    let e = Campaign::begin(Mode::Compare, vec![], 0).unwrap_err();
    assert_eq!(e, "--repeats must be at least 1");
}

#[test]
fn one_circuit_is_shown_and_saved() {
    let mut c = Campaign::begin(Mode::Run, dirs(&["a"]), 3).unwrap();
    assert!(matches!(c.task(), Task::Preflight));
    assert_eq!(c.step(Report::Ready), Ok(None));
    assert!(matches!(c.task(), Task::WarmUp { dir } if dir == "a"));
    assert_eq!(c.step(Report::WarmedUp), Ok(None));
    assert!(matches!(c.task(), Task::Benchmark { dir } if dir == "a"));
    assert_eq!(c.step(Report::Measured { outcome: outcome("a") }), Ok(None));
    assert!(matches!(c.task(), Task::Show));
    assert_eq!(c.step(Report::Shown), Ok(None));
    assert!(matches!(c.task(), Task::Save));
    let e = c.step(Report::NotSaved { cause: cause("disk full") }).unwrap_err();
    assert_eq!(e, "failed to write result JSON: disk full");
    assert_eq!(c.step(Report::Saved), Ok(None));
    assert!(matches!(c.task(), Task::Nothing));
}

#[test]
fn one_circuit_that_fails_is_an_error() {
    let mut c = Campaign::begin(Mode::Run, dirs(&["a"]), 3).unwrap();
    let e = c.step(Report::NotReady { cause: cause("nargo not found") }).unwrap_err();
    assert_eq!(e, "nargo not found");
    c.step(Report::Ready).unwrap();
    c.step(Report::WarmedUp).unwrap();
    let e = c.step(Report::NotMeasured { cause: cause("compile failed") }).unwrap_err();
    assert_eq!(e, "compile failed");
    assert!(c.entries.is_empty());
}

#[test]
fn warm_up_that_fails_only_warns() {
    let mut c = Campaign::begin(Mode::Run, dirs(&["a"]), 3).unwrap();
    c.step(Report::Ready).unwrap();
    let w = c.step(Report::NotWarmedUp { cause: cause("no CRS") }).unwrap();
    assert_eq!(
        w.as_deref(),
        Some("warning: global warm-up skipped (no CRS); the first measured circuit may include cold-start cost")
    );
    assert_eq!(c.phase, Phase::Benchmark { at: 0 });
}

#[test]
fn failure_of_one_circuit_does_not_stop_the_others() {
    let mut c = Campaign::begin(Mode::Compare, dirs(&["x/a", "x/b/", "c"]), 1).unwrap();
    c.step(Report::Ready).unwrap();
    assert!(matches!(c.task(), Task::WarmUp { dir } if dir == "x/a"));
    c.step(Report::WarmedUp).unwrap();
    c.step(Report::Measured { outcome: outcome("a") }).unwrap();
    assert!(matches!(c.task(), Task::Save));
    let w = c.step(Report::NotSaved { cause: cause("disk full") }).unwrap();
    assert_eq!(w.as_deref(), Some("warning: failed to write result JSON: disk full"));
    assert!(matches!(c.task(), Task::Benchmark { dir } if dir == "x/b/"));
    assert_eq!(c.step(Report::NotMeasured { cause: cause("path not found: x/b/") }), Ok(None));
    assert!(matches!(c.task(), Task::Benchmark { dir } if dir == "c"));
    c.step(Report::Measured { outcome: outcome("c") }).unwrap();
    c.step(Report::Saved).unwrap();
    assert!(matches!(c.task(), Task::Show));
    assert_eq!(c.entries.len(), 3);
    assert!(matches!(&c.entries[0], CompareEntry::Measured(o) if o.circuit == "a"));
    match &c.entries[1] {
        CompareEntry::Failed { label, error } => {
            assert_eq!(label, "b");
            assert_eq!(error, "path not found: x/b/");
        }
        other => panic!("{other:?}"),
    }
    assert!(matches!(&c.entries[2], CompareEntry::Measured(o) if o.circuit == "c"));
    c.step(Report::Shown).unwrap();
    assert_eq!(c.phase, Phase::Done);
}

#[test]
fn commands_carry_their_arguments() {
    let cli = Cli { command: Command::Run { circuit_dir: "a".to_string(), repeats: 3 } };
    assert!(matches!(cli.command, Command::Run { repeats: 3, .. }));
}
