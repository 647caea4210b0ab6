//! The measurement of a circuit, stage by stage.
//!
//! A [`Bench`] says which job comes next and takes in what came of it. It never asks for two
//! jobs at once: witness and prove running side by side would contend for the machine and
//! corrupt both the wall-clock and the memory numbers.
use crate::circuit::{chain, chained, Circuit};
use crate::gates::{gates_in, json_document, parse_gates, reports_gates, Gates, GatesError};
use crate::measure::Sample;
use crate::path::joined;
use crate::pipeline::{conclude, concludes, prove_args, prove_arguments, Outcome, BACKEND};
use crate::text::{decimal, digits, trim};
use crate::tools::{lossy_text, output_text, texts, Tool, ToolRun, Versions};
use vstd::prelude::*;

verus! {

/// What a circuit is taken through the stages for.
#[derive(Clone, Copy, Debug, PartialEq, Eq, Structural)]
pub enum Purpose {
    /// To absorb one-time costs of the session; nothing is kept.
    WarmUp,
    /// To measure it, so many times.
    Measure { repeats: usize },
}

/// A stage of the pipeline.
#[derive(Clone, Copy, Debug, PartialEq, Eq, Structural)]
pub enum Stage {
    /// Compile, so that the measured `nargo execute` does not pay for it.
    Compile,
    /// Write the verification key, so that the measured `bb prove` does not pay for it.
    VerificationKey,
    /// Read the circuit size.
    Size,
    /// Make the directory that proofs go to.
    ProofDir,
    /// Generate the witness, for the given run.
    Witness { run: usize },
    /// Generate the proof, for the given run.
    Prove { run: usize },
    /// Nothing is left to do.
    Done,
}

/// How many runs a purpose takes.
pub open spec fn runs(purpose: Purpose) -> nat {
    match purpose {
        Purpose::WarmUp => 1,
        Purpose::Measure { repeats } => repeats as nat,
    }
}

/// The stage that follows another.
pub open spec fn following(purpose: Purpose, stage: Stage) -> Stage {
    match purpose {
        Purpose::WarmUp => match stage {
            Stage::Compile => Stage::ProofDir,
            Stage::ProofDir => Stage::Witness { run: 1 },
            Stage::Witness { run } => Stage::VerificationKey,
            Stage::VerificationKey => Stage::Prove { run: 1 },
            _ => Stage::Done,
        },
        Purpose::Measure { repeats } => match stage {
            Stage::Compile => Stage::VerificationKey,
            Stage::VerificationKey => Stage::Size,
            Stage::Size => Stage::ProofDir,
            Stage::ProofDir => Stage::Witness { run: 1 },
            Stage::Witness { run } => Stage::Prove { run },
            Stage::Prove { run } => if run < repeats {
                Stage::Witness { run: (run + 1) as usize }
            } else {
                Stage::Done
            },
            Stage::Done => Stage::Done,
        },
    }
}

/// The stage after `n` others.
pub open spec fn nth_stage(purpose: Purpose, n: nat) -> Stage
    decreases n,
{
    if n == 0 {
        Stage::Compile
    } else {
        following(purpose, nth_stage(purpose, (n - 1) as nat))
    }
}

/// How many witness samples there are when a stage begins.
pub open spec fn witness_before(purpose: Purpose, stage: Stage) -> nat {
    match stage {
        Stage::Witness { run } => (run - 1) as nat,
        Stage::Prove { run } => run as nat,
        Stage::VerificationKey => if purpose == Purpose::WarmUp {
            1
        } else {
            0
        },
        Stage::Done => runs(purpose),
        _ => 0,
    }
}

/// How many prove samples there are when a stage begins.
pub open spec fn prove_before(purpose: Purpose, stage: Stage) -> nat {
    match stage {
        Stage::Witness { run } => (run - 1) as nat,
        Stage::Prove { run } => (run - 1) as nat,
        Stage::Done => runs(purpose),
        _ => 0,
    }
}

/// Whether a stage occurs for a purpose.
pub open spec fn occurs_for(purpose: Purpose, stage: Stage) -> bool {
    match stage {
        Stage::Size => purpose != Purpose::WarmUp,
        Stage::Witness { run } => 1 <= run <= runs(purpose),
        Stage::Prove { run } => 1 <= run <= runs(purpose),
        _ => true,
    }
}

/// Whether the circuit size is known when a stage begins.
pub open spec fn size_known(stage: Stage) -> bool {
    match stage {
        Stage::ProofDir => true,
        Stage::Witness { .. } => true,
        Stage::Prove { .. } => true,
        Stage::Done => true,
        _ => false,
    }
}

/// A job for the outside world.
#[derive(Debug)]
pub enum Job {
    /// Run a tool to its end.
    Run { tool: Tool },
    /// Make a directory, with the directories above it, and run a tool to its end.
    RunInto { dir: String, tool: Tool },
    /// Make a directory, with the directories above it.
    MakeDir { dir: String },
    /// Run a tool to its end and measure it.
    Measure { tool: Tool },
    /// Nothing is left to do.
    Nothing,
}

/// Whether a tool is the given program with the given arguments, run in the given directory.
pub open spec fn is_tool(
    tool: Tool,
    program: Seq<char>,
    args: Seq<Seq<char>>,
    dir: Option<Seq<char>>,
) -> bool {
    &&& tool.program@ == program
    &&& texts(tool.args@) == args
    &&& match dir {
        Some(d) => tool.dir matches Some(t) && t@ == d,
        None => tool.dir is None,
    }
}

/// Whether `job` is what a stage asks for.
pub open spec fn asks_for(circuit: Circuit, stage: Stage, job: Job) -> bool {
    match stage {
        Stage::Compile => job matches Job::Run { tool } && is_tool(
            tool,
            "nargo"@,
            seq!["compile"@],
            Some(circuit.dir@),
        ),
        Stage::VerificationKey => job matches Job::RunInto { dir, tool } && dir@ == circuit.vk_dir@
            && is_tool(
            tool,
            "bb"@,
            seq![
                "write_vk"@,
                "-s"@,
                BACKEND@,
                "-b"@,
                circuit.bytecode@,
                "-o"@,
                circuit.vk_dir@,
            ],
            None,
        ),
        Stage::Size => job matches Job::Run { tool } && is_tool(
            tool,
            "bb"@,
            seq!["gates"@, "-s"@, BACKEND@, "-b"@, circuit.bytecode@],
            None,
        ),
        Stage::ProofDir => job matches Job::MakeDir { dir } && dir@ == circuit.proof_dir@,
        Stage::Witness { .. } => job matches Job::Measure { tool } && is_tool(
            tool,
            "nargo"@,
            seq!["execute"@],
            Some(circuit.dir@),
        ),
        Stage::Prove { .. } => job matches Job::Measure { tool } && is_tool(
            tool,
            "bb"@,
            prove_arguments(circuit),
            Some(circuit.dir@),
        ),
        Stage::Done => job is Nothing,
    }
}

/// The announcement of a run of a stage: `[name] measuring <what> (run/repeats)...`.
pub open spec fn measuring_text(
    name: Seq<char>,
    what: Seq<char>,
    run: nat,
    repeats: nat,
) -> Seq<char> {
    "["@ + name + "] measuring "@ + what + " ("@ + digits(run) + "/"@ + digits(repeats) + ")..."@
}

/// What is announced while a stage is under way. The stages of a warm-up, and making a directory,
/// are not announced one by one.
pub open spec fn announced(name: Seq<char>, purpose: Purpose, stage: Stage) -> Option<Seq<char>> {
    match purpose {
        Purpose::WarmUp => None,
        Purpose::Measure { repeats } => match stage {
            Stage::Compile => Some("["@ + name + "] compiling (warm-up)..."@),
            Stage::VerificationKey => Some(
                "["@ + name + "] writing verification key (warm-up)..."@,
            ),
            Stage::Size => Some("["@ + name + "] reading circuit size..."@),
            Stage::Witness { run } => Some(
                measuring_text(name, "witness"@, run as nat, repeats as nat),
            ),
            Stage::Prove { run } => Some(
                measuring_text(name, "prove"@, run as nat, repeats as nat),
            ),
            _ => None,
        },
    }
}

fn stage_text(name: &str, rest: &str) -> (r: String)
    ensures
        r@ == "["@ + name@ + rest@,
{
    let mut r = String::from_str("[");
    r.append(name);
    r.append(rest);
    r
}

fn measuring(name: &str, what: &str, run: usize, repeats: usize) -> (r: String)
    ensures
        r@ == measuring_text(name@, what@, run as nat, repeats as nat),
{
    let mut r = stage_text(name, "] measuring ");
    r.append(what);
    r.append(" (");
    r.append(&decimal(run as u128));
    r.append("/");
    r.append(&decimal(repeats as u128));
    r.append(")...");
    r
}

/// What came of a job.
#[derive(Debug)]
pub enum Event {
    /// A tool was run.
    Ran { run: ToolRun },
    /// A directory was made.
    DirMade,
    /// A directory could not be made.
    DirFailed { cause: String },
    /// A tool was run and measured.
    Measured { sample: Sample },
    /// A tool could not be measured.
    MeasureFailed { cause: String },
}

/// Why a measurement stops.
#[derive(Debug)]
pub enum StageError {
    /// The tool of the stage could not be started.
    NotStarted { stage: Stage, cause: String },
    /// The tool of the stage failed, and said why.
    Failed { stage: Stage, stderr: String },
    /// The directory of the stage could not be made.
    NoDir { stage: Stage, cause: String },
    /// The circuit size could not be read.
    NoSize { error: GatesError },
    /// Witness or prove could not be measured.
    NotMeasured { cause: String },
}

/// Whether an event can come of the job of a stage.
pub open spec fn fits(stage: Stage, event: Event) -> bool {
    match stage {
        Stage::Compile => event is Ran,
        Stage::VerificationKey => event is Ran || event is DirFailed,
        Stage::Size => event is Ran,
        Stage::ProofDir => event is DirMade || event is DirFailed,
        Stage::Witness { .. } => event is Measured || event is MeasureFailed,
        Stage::Prove { .. } => event is Measured || event is MeasureFailed,
        Stage::Done => false,
    }
}

/// Whether an event means that the job of a stage is done.
pub open spec fn succeeds(stage: Stage, event: Event) -> bool {
    match event {
        Event::Ran { run } => run matches ToolRun::Exited { success, stdout, .. } && success && (
        stage == Stage::Size ==> gates_in(stdout@) is Some),
        Event::DirMade => true,
        Event::DirFailed { .. } => false,
        Event::Measured { .. } => true,
        Event::MeasureFailed { .. } => false,
    }
}

/// Whether `error` says what an event reports of a stage that did not succeed.
pub open spec fn tells(stage: Stage, event: Event, error: StageError) -> bool {
    match event {
        Event::Ran { run: ToolRun::NotStarted { cause: c } } => error matches StageError::NotStarted {
            stage: s,
            cause,
        } && s == stage && cause == c,
        Event::Ran { run: ToolRun::Exited { success, stdout, stderr } } => if success {
            error matches StageError::NoSize { error: e } && match json_document(stdout@) {
                Ok(report) => reports_gates(report, Err::<Gates, GatesError>(e)),
                Err(m) => e matches GatesError::NotJson { cause } && cause@ == m,
            }
        } else {
            error matches StageError::Failed { stage: s, stderr: t } && s == stage && t@ == trim(
                lossy_text(stderr@),
            )
        },
        Event::DirFailed { cause: c } => error matches StageError::NoDir { stage: s, cause } && s
            == stage && cause == c,
        Event::MeasureFailed { cause: c } => error matches StageError::NotMeasured { cause } && cause
            == c,
        _ => false,
    }
}

/// A circuit on its way through the stages.
#[derive(Debug)]
pub struct Bench {
    pub circuit: Circuit,
    pub purpose: Purpose,
    pub stage: Stage,
    pub gates: Option<Gates>,
    pub witness: Vec<Sample>,
    pub prove: Vec<Sample>,
}

impl Bench {
    /// The stage occurs, and everything that comes before it is there.
    pub open spec fn wf(self) -> bool {
        &&& runs(self.purpose) > 0
        &&& occurs_for(self.purpose, self.stage)
        &&& self.witness@.len() == witness_before(self.purpose, self.stage)
        &&& self.prove@.len() == prove_before(self.purpose, self.stage)
        &&& self.purpose != Purpose::WarmUp && size_known(self.stage) ==> self.gates is Some
    }

    /// A circuit before its first stage.
    pub fn start(circuit: Circuit, purpose: Purpose) -> (r: Bench)
        requires
            runs(purpose) > 0,
        ensures
            r.wf(),
            r.circuit == circuit,
            r.purpose == purpose,
            r.stage == nth_stage(purpose, 0),
            r.gates is None,
    {
        Bench {
            circuit,
            purpose,
            stage: Stage::Compile,
            gates: None,
            witness: Vec::new(),
            prove: Vec::new(),
        }
    }

    /// The job of the current stage.
    pub fn job(&self) -> (r: Job)
        ensures
            asks_for(self.circuit, self.stage, r),
    {
        let circuit = &self.circuit;
        match self.stage {
            Stage::Compile => {
                let args = vec![String::from_str("compile")];
                assert(texts(args@) =~= seq!["compile"@]);
                Job::Run {
                    tool: Tool {
                        program: String::from_str("nargo"),
                        args,
                        dir: Some(circuit.dir.clone()),
                    },
                }
            },
            Stage::VerificationKey => {
                let args = vec![
                    String::from_str("write_vk"),
                    String::from_str("-s"),
                    String::from_str(BACKEND),
                    String::from_str("-b"),
                    circuit.bytecode.clone(),
                    String::from_str("-o"),
                    circuit.vk_dir.clone(),
                ];
                assert(texts(args@) =~= seq![
                    "write_vk"@,
                    "-s"@,
                    BACKEND@,
                    "-b"@,
                    circuit.bytecode@,
                    "-o"@,
                    circuit.vk_dir@,
                ]);
                Job::RunInto {
                    dir: circuit.vk_dir.clone(),
                    tool: Tool { program: String::from_str("bb"), args, dir: None },
                }
            },
            Stage::Size => {
                let args = vec![
                    String::from_str("gates"),
                    String::from_str("-s"),
                    String::from_str(BACKEND),
                    String::from_str("-b"),
                    circuit.bytecode.clone(),
                ];
                assert(texts(args@) =~= seq![
                    "gates"@,
                    "-s"@,
                    BACKEND@,
                    "-b"@,
                    circuit.bytecode@,
                ]);
                Job::Run { tool: Tool { program: String::from_str("bb"), args, dir: None } }
            },
            Stage::ProofDir => Job::MakeDir { dir: circuit.proof_dir.clone() },
            Stage::Witness { .. } => {
                let args = vec![String::from_str("execute")];
                assert(texts(args@) =~= seq!["execute"@]);
                Job::Measure {
                    tool: Tool {
                        program: String::from_str("nargo"),
                        args,
                        dir: Some(circuit.dir.clone()),
                    },
                }
            },
            Stage::Prove { .. } => Job::Measure {
                tool: Tool {
                    program: String::from_str("bb"),
                    args: prove_args(circuit),
                    dir: Some(circuit.dir.clone()),
                },
            },
            Stage::Done => Job::Nothing,
        }
    }

    /// What to show while the job of the current stage is under way.
    pub fn announcement(&self) -> (r: Option<String>)
        ensures
            match announced(self.circuit.name@, self.purpose, self.stage) {
                Some(t) => r matches Some(m) && m@ == t,
                None => r is None,
            },
    {
        let name = &self.circuit.name;
        match self.purpose {
            Purpose::WarmUp => None,
            Purpose::Measure { repeats } => match self.stage {
                Stage::Compile => Some(stage_text(name, "] compiling (warm-up)...")),
                Stage::VerificationKey => Some(
                    stage_text(name, "] writing verification key (warm-up)..."),
                ),
                Stage::Size => Some(stage_text(name, "] reading circuit size...")),
                Stage::Witness { run } => Some(measuring(name, "witness", run, repeats)),
                Stage::Prove { run } => Some(measuring(name, "prove", run, repeats)),
                _ => None,
            },
        }
    }

    /// Takes in what came of the job of the current stage, and moves to the next stage if that
    /// was success.
    pub fn advance(&mut self, event: Event) -> (r: Result<(), StageError>)
        requires
            old(self).wf(),
            fits(old(self).stage, event),
        ensures
            final(self).wf(),
            r is Ok <==> succeeds(old(self).stage, event),
            r matches Err(e) ==> tells(old(self).stage, event, e) && *final(self) == *old(self),
            r is Ok ==> moves(*old(self), event, *final(self)),
    {
        let stage = self.stage;
        match event {
            Event::Ran { run } => match run {
                ToolRun::NotStarted { cause } => {
                    return Err(StageError::NotStarted { stage, cause });
                },
                ToolRun::Exited { success, stdout, stderr } => {
                    if !success {
                        return Err(
                            StageError::Failed { stage, stderr: output_text(stderr.as_slice()) },
                        );
                    }
                    if let Stage::Size = stage {
                        match parse_gates(stdout.as_slice()) {
                            Ok(gates) => {
                                self.gates = Some(gates);
                            },
                            Err(error) => {
                                return Err(StageError::NoSize { error });
                            },
                        }
                    }
                },
            },
            Event::DirMade => {},
            Event::DirFailed { cause } => {
                return Err(StageError::NoDir { stage, cause });
            },
            Event::Measured { sample } => {
                if let Stage::Witness { .. } = stage {
                    self.witness.push(sample);
                } else {
                    self.prove.push(sample);
                }
            },
            Event::MeasureFailed { cause } => {
                return Err(StageError::NotMeasured { cause });
            },
        }
        self.stage = next_stage(self.purpose, stage);
        Ok(())
    }

    /// The outcome of a measurement that is done.
    pub fn finish(&self, versions: &Versions) -> (r: Outcome)
        requires
            self.wf(),
            self.stage == Stage::Done,
            self.purpose != Purpose::WarmUp,
        ensures
            self.gates matches Some(gates) && concludes(
                r,
                self.circuit.name@,
                gates,
                *versions,
                self.witness@,
                self.prove@,
            ),
            self.purpose == (Purpose::Measure { repeats: r.repeats }),
    {
        let gates = self.gates.unwrap();
        conclude(&self.circuit.name, gates, versions, &self.witness, &self.prove)
    }
}

/// Whether an event that means success takes a measurement from one state to another: to the
/// next stage, with the sample or the circuit size that the event brings.
pub open spec fn moves(before: Bench, event: Event, after: Bench) -> bool {
    &&& after.circuit == before.circuit
    &&& after.purpose == before.purpose
    &&& after.stage == following(before.purpose, before.stage)
    &&& after.gates == (match event {
        Event::Ran { run: ToolRun::Exited { stdout, .. } } => if before.stage == Stage::Size {
            gates_in(stdout@)
        } else {
            before.gates
        },
        _ => before.gates,
    })
    &&& after.witness@ == (match event {
        Event::Measured { sample } => if before.stage is Witness {
            before.witness@.push(sample)
        } else {
            before.witness@
        },
        _ => before.witness@,
    })
    &&& after.prove@ == (match event {
        Event::Measured { sample } => if before.stage is Prove {
            before.prove@.push(sample)
        } else {
            before.prove@
        },
        _ => before.prove@,
    })
}

/// The stage that follows another.
pub fn next_stage(purpose: Purpose, stage: Stage) -> (r: Stage)
    ensures
        r == following(purpose, stage),
{
    match purpose {
        Purpose::WarmUp => match stage {
            Stage::Compile => Stage::ProofDir,
            Stage::ProofDir => Stage::Witness { run: 1 },
            Stage::Witness { .. } => Stage::VerificationKey,
            Stage::VerificationKey => Stage::Prove { run: 1 },
            _ => Stage::Done,
        },
        Purpose::Measure { repeats } => match stage {
            Stage::Compile => Stage::VerificationKey,
            Stage::VerificationKey => Stage::Size,
            Stage::Size => Stage::ProofDir,
            Stage::ProofDir => Stage::Witness { run: 1 },
            Stage::Witness { run } => Stage::Prove { run },
            Stage::Prove { run } => if run < repeats {
                Stage::Witness { run: run + 1 }
            } else {
                Stage::Done
            },
            Stage::Done => Stage::Done,
        },
    }
}

impl StageError {
    /// The message and, where there is one, its cause.
    pub open spec fn text(self) -> Seq<char> {
        match self {
            StageError::NotStarted { stage, cause } => chained(
                match stage {
                    Stage::Compile => "failed to run nargo compile"@,
                    Stage::VerificationKey => "failed to run bb write_vk"@,
                    _ => "failed to run bb gates"@,
                },
                Some(cause@),
            ),
            StageError::Failed { stage, stderr } => (match stage {
                Stage::Compile => "compile failed:\n"@,
                Stage::VerificationKey => "bb write_vk failed:\n"@,
                _ => "bb gates failed:\n"@,
            }) + stderr@,
            StageError::NoDir { stage, cause } => chained(
                match stage {
                    Stage::VerificationKey => "failed to create vk output directory"@,
                    _ => "failed to create proof output directory"@,
                },
                Some(cause@),
            ),
            StageError::NoSize { error } => match error {
                GatesError::NotJson { cause } => chained(
                    "failed to parse bb gates JSON"@,
                    Some(cause@),
                ),
                GatesError::NoCircuitSize => "bb gates output has no circuit_size"@,
                GatesError::NoAcirOpcodes => "bb gates output has no acir_opcodes"@,
            },
            StageError::NotMeasured { cause } => cause@,
        }
    }

    /// The message and, where there is one, its cause.
    pub fn describe(&self) -> (r: String)
        ensures
            r@ == self.text(),
    {
        match self {
            StageError::NotStarted { stage, cause } => {
                let message = match stage {
                    Stage::Compile => "failed to run nargo compile",
                    Stage::VerificationKey => "failed to run bb write_vk",
                    _ => "failed to run bb gates",
                };
                chain(String::from_str(message), cause)
            },
            StageError::Failed { stage, stderr } => {
                let message = match stage {
                    Stage::Compile => "compile failed:\n",
                    Stage::VerificationKey => "bb write_vk failed:\n",
                    _ => "bb gates failed:\n",
                };
                String::from_str(message).concat(stderr)
            },
            StageError::NoDir { stage, cause } => {
                let message = match stage {
                    Stage::VerificationKey => "failed to create vk output directory",
                    _ => "failed to create proof output directory",
                };
                chain(String::from_str(message), cause)
            },
            StageError::NoSize { error } => match error {
                GatesError::NotJson { cause } => chain(
                    String::from_str("failed to parse bb gates JSON"),
                    cause,
                ),
                GatesError::NoCircuitSize => String::from_str("bb gates output has no circuit_size"),
                GatesError::NoAcirOpcodes => String::from_str("bb gates output has no acir_opcodes"),
            },
            StageError::NotMeasured { cause } => cause.clone(),
        }
    }
}

/// The stages of a measurement, in order: the unmeasured ones first, each of them once, then
/// witness and prove in turn, as often as asked for, then nothing.
pub proof fn law_measurement_order(repeats: usize, run: nat)
    requires
        1 <= run <= repeats,
    ensures
        ({
            let purpose = Purpose::Measure { repeats };
            &&& nth_stage(purpose, 0) == Stage::Compile
            &&& nth_stage(purpose, 1) == Stage::VerificationKey
            &&& nth_stage(purpose, 2) == Stage::Size
            &&& nth_stage(purpose, 3) == Stage::ProofDir
            &&& nth_stage(purpose, (2 + 2 * run) as nat) == (Stage::Witness { run: run as usize })
            &&& nth_stage(purpose, (3 + 2 * run) as nat) == (Stage::Prove { run: run as usize })
            &&& run == repeats ==> nth_stage(purpose, (4 + 2 * run) as nat) == Stage::Done
        }),
    decreases run,
{
    let purpose = Purpose::Measure { repeats };
    reveal_with_fuel(nth_stage, 5);
    if run > 1 {
        law_measurement_order(repeats, (run - 1) as nat);
        assert(3 + 2 * (run - 1) == 1 + 2 * run);
        assert(nth_stage(purpose, (2 + 2 * run) as nat) == following(
            purpose,
            nth_stage(purpose, (1 + 2 * run) as nat),
        ));
    }
    assert(nth_stage(purpose, (3 + 2 * run) as nat) == following(
        purpose,
        nth_stage(purpose, (2 + 2 * run) as nat),
    ));
    assert(nth_stage(purpose, (4 + 2 * run) as nat) == following(
        purpose,
        nth_stage(purpose, (3 + 2 * run) as nat),
    ));
}

/// Whether the states follow one another by the events, each of which means success.
pub open spec fn history(states: Seq<Bench>, events: Seq<Event>) -> bool {
    &&& states.len() == events.len() + 1
    &&& states[0].wf()
    &&& states[0].stage == Stage::Compile
    &&& forall|i: int|
        #![trigger events[i]]
        0 <= i < events.len() ==> fits(states[i].stage, events[i]) && succeeds(
            states[i].stage,
            events[i],
        ) && moves(states[i], events[i], states[i + 1])
}

/// The sample that an event brings.
pub open spec fn sample_of(event: Event) -> Sample {
    match event {
        Event::Measured { sample } => sample,
        _ => arbitrary(),
    }
}

proof fn lemma_history(states: Seq<Bench>, events: Seq<Event>, repeats: usize, n: int)
    requires
        history(states, events),
        states[0].purpose == (Purpose::Measure { repeats }),
        0 <= n <= events.len(),
        events.len() <= 4 + 2 * repeats,
    ensures
        states[n].purpose == states[0].purpose,
        states[n].circuit == states[0].circuit,
        states[n].stage == nth_stage(states[0].purpose, n as nat),
        states[n].witness@.len() == if n <= 4 { 0 } else { (n - 3) / 2 },
        states[n].prove@.len() == if n <= 4 { 0 } else { (n - 4) / 2 },
        forall|k: int|
            #![trigger states[n].witness@[k]]
            0 <= k < states[n].witness@.len() ==> states[n].witness@[k] == sample_of(events[4 + 2 * k]),
        forall|k: int|
            #![trigger states[n].prove@[k]]
            0 <= k < states[n].prove@.len() ==> states[n].prove@[k] == sample_of(events[5 + 2 * k]),
        n > 2 ==> states[n].gates == (match events[2] {
            Event::Ran { run: ToolRun::Exited { stdout, .. } } => gates_in(stdout@),
            _ => None,
        }),
    decreases n,
{
    let purpose = Purpose::Measure { repeats };
    if n > 0 {
        lemma_history(states, events, repeats, n - 1);
        assert(moves(states[n - 1], events[n - 1], states[n - 1 + 1]));
        if repeats > 0 {
            law_measurement_order(repeats, 1);
        }
        if n - 1 >= 4 {
            let run = ((n - 1) / 2 - 1) as nat;
            law_measurement_order(repeats, run);
            assert(n - 1 == 2 + 2 * run || n - 1 == 3 + 2 * run);
        }
        let before = states[n - 1];
        assert forall|k: int|
            #![trigger states[n].witness@[k]]
            0 <= k < states[n].witness@.len() implies states[n].witness@[k] == sample_of(
            events[4 + 2 * k],
        ) by {
            if k < before.witness@.len() {
                assert(before.witness@[k] == sample_of(events[4 + 2 * k]));
            } else {
                assert(n - 1 == 4 + 2 * k);
            }
        }
        assert forall|k: int|
            #![trigger states[n].prove@[k]]
            0 <= k < states[n].prove@.len() implies states[n].prove@[k] == sample_of(
            events[5 + 2 * k],
        ) by {
            if k < before.prove@.len() {
                assert(before.prove@[k] == sample_of(events[5 + 2 * k]));
            } else {
                assert(n - 1 == 5 + 2 * k);
            }
        }
    }
}

/// What a measurement keeps is what was measured: after all its stages the witness samples are
/// those of the witness runs, in order, the prove samples those of the prove runs, and the size
/// is the one that was read.
pub proof fn law_measurement_keeps_every_sample(
    states: Seq<Bench>,
    events: Seq<Event>,
    repeats: usize,
)
    requires
        history(states, events),
        states[0].purpose == (Purpose::Measure { repeats }),
        events.len() == 4 + 2 * repeats,
    ensures
        states.last().stage == Stage::Done,
        states.last().witness@ == Seq::new(repeats as nat, |k: int| sample_of(events[4 + 2 * k])),
        states.last().prove@ == Seq::new(repeats as nat, |k: int| sample_of(events[5 + 2 * k])),
        events[2] matches Event::Ran { run: ToolRun::Exited { stdout, .. } }
            && states.last().gates == gates_in(stdout@),
{
    lemma_history(states, events, repeats, 2);
    lemma_history(states, events, repeats, events.len() as int);
    law_measurement_order(repeats, repeats as nat);
    assert(fits(states[2].stage, events[2]));
}

/// A measurement goes through its stages as laid down: after so many events that mean success it
/// compiles, writes the key, reads the size, makes the directory, then witnesses and proves in
/// turn, and ends after as many runs as asked for.
pub proof fn law_measurement_goes_through_its_stages(
    states: Seq<Bench>,
    events: Seq<Event>,
    repeats: usize,
    n: int,
)
    requires
        history(states, events),
        states[0].purpose == (Purpose::Measure { repeats }),
        0 <= n <= events.len() <= 4 + 2 * repeats,
    ensures
        states[n].circuit == states[0].circuit,
        states[n].purpose == states[0].purpose,
        states[n].stage == if n == 0 {
            Stage::Compile
        } else if n == 1 {
            Stage::VerificationKey
        } else if n == 2 {
            Stage::Size
        } else if n == 3 {
            Stage::ProofDir
        } else if n == 4 + 2 * repeats {
            Stage::Done
        } else if n % 2 == 0 {
            Stage::Witness { run: ((n - 2) / 2) as usize }
        } else {
            Stage::Prove { run: ((n - 3) / 2) as usize }
        },
{
    lemma_history(states, events, repeats, n);
    law_measurement_order(repeats, 1);
    if 4 <= n < 4 + 2 * repeats {
        let run = (n / 2 - 1) as nat;
        law_measurement_order(repeats, run);
        assert(n == 2 + 2 * run || n == 3 + 2 * run);
    } else if n == 4 + 2 * repeats {
        law_measurement_order(repeats, repeats as nat);
    }
}

/// A warm-up goes through its stages as laid down, up to a whole proof.
pub proof fn law_warm_up_goes_through_its_stages(states: Seq<Bench>, events: Seq<Event>, n: int)
    requires
        history(states, events),
        states[0].purpose == Purpose::WarmUp,
        0 <= n <= events.len() <= 5,
    ensures
        states[n].circuit == states[0].circuit,
        states[n].purpose == states[0].purpose,
        states[n].stage == if n == 0 {
            Stage::Compile
        } else if n == 1 {
            Stage::ProofDir
        } else if n == 2 {
            Stage::Witness { run: 1 }
        } else if n == 3 {
            Stage::VerificationKey
        } else if n == 4 {
            Stage::Prove { run: 1 }
        } else {
            Stage::Done
        },
    decreases n,
{
    if n > 0 {
        law_warm_up_goes_through_its_stages(states, events, n - 1);
        assert(moves(states[n - 1], events[n - 1], states[n - 1 + 1]));
    }
}

/// Proving reads the key that was written for the same bytecode: the key is the file `vk` in the
/// directory that `bb write_vk` writes to.
pub proof fn law_prove_reads_the_written_key(circuit: Circuit, run: usize, write: Job, prove: Job)
    requires
        asks_for(circuit, Stage::VerificationKey, write),
        asks_for(circuit, Stage::Prove { run }, prove),
    ensures
        write matches Job::RunInto { dir, tool: w } && prove matches Job::Measure { tool: p } && {
            &&& texts(w.args@)[5] == "-o"@ && texts(w.args@)[6] == dir@
            &&& texts(p.args@)[9] == "-k"@ && texts(p.args@)[10] == joined(dir@, "vk"@)
            &&& texts(w.args@)[3] == "-b"@ && texts(p.args@)[3] == "-b"@
            &&& texts(w.args@)[4] == texts(p.args@)[4]
        },
{
}

/// The stages of a warm-up, in order: everything a measurement does, once, up to a whole proof.
pub proof fn law_warm_up_order()
    ensures
        nth_stage(Purpose::WarmUp, 0) == Stage::Compile,
        nth_stage(Purpose::WarmUp, 1) == Stage::ProofDir,
        nth_stage(Purpose::WarmUp, 2) == (Stage::Witness { run: 1 }),
        nth_stage(Purpose::WarmUp, 3) == Stage::VerificationKey,
        nth_stage(Purpose::WarmUp, 4) == (Stage::Prove { run: 1 }),
        nth_stage(Purpose::WarmUp, 5) == Stage::Done,
{
    reveal_with_fuel(nth_stage, 6);
}

} // verus!
