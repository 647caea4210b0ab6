//! What a measurement reports: the size that was read, the medians of what was measured, and what
//! went wrong where something did.
use crate::bench::{
    announced, asks_for, fits, history, law_measurement_goes_through_its_stages,
    law_measurement_keeps_every_sample, sample_of, succeeds, tells, Bench, Event, Job, Purpose,
    Stage, StageError,
};
use crate::circuit::Circuit;
use crate::gates::{
    first_function, gates_in, json_document, reports_gates, Gates, GatesError, Json,
};
use crate::measure::{
    ascending, count_within, law_median_resists_outliers, lemma_ascending, middle, Sample,
};
use crate::pipeline::{concludes, Outcome};
use crate::text::{digits, trim};
use crate::tools::{lossy_text, texts, Tool, ToolRun, Versions};
use vstd::prelude::*;

verus! {

/// The median: the middle value of the sorted ones, or the mean of the two middle ones, rounded
/// down.
pub open spec fn median_of(s: Seq<u64>) -> int {
    let t = s.sort_by(|a: u64, b: u64| a <= b);
    let h = s.len() as int / 2;
    if s.len() % 2 == 1 {
        t[h] as int
    } else {
        (t[h - 1] + t[h]) / 2
    }
}

/// The times of samples.
pub open spec fn times_of(samples: Seq<Sample>) -> Seq<u64> {
    Seq::new(samples.len(), |i: int| samples[i].time_ms)
}

/// The peaks of samples.
pub open spec fn peaks_of(samples: Seq<Sample>) -> Seq<u64> {
    Seq::new(samples.len(), |i: int| samples[i].peak_kb)
}

/// The middle value is that of the sorted sequence.
pub proof fn law_middle_is_the_median(s: Seq<u64>)
    requires
        s.len() > 0,
    ensures
        middle(s) == median_of(s),
{
    broadcast use vstd::seq_lib::group_to_multiset_ensures;

    let leq = |a: u64, b: u64| a <= b;
    lemma_ascending(s);
    s.lemma_sort_by_ensures(leq);
    assert(vstd::relations::sorted_by(ascending(s), leq));
    vstd::seq_lib::lemma_sorted_unique(ascending(s), s.sort_by(leq), leq);
    let t = ascending(s);
    let h = s.len() as int / 2;
    if s.len() % 2 == 0 {
        assert((t[h - 1] + t[h]) / 2 <= u64::MAX);
    }
}

/// Of several samples exactly the first is left out, and what is reported of each metric is the
/// median of all the others. A single sample is reported as it is. The rest of an outcome is the
/// circuit's name, the proving scheme, the size, and the versions.
pub proof fn law_all_but_the_cold_run_count(
    o: Outcome,
    circuit: Seq<char>,
    gates: Gates,
    versions: Versions,
    witness: Seq<Sample>,
    prove: Seq<Sample>,
)
    requires
        concludes(o, circuit, gates, versions, witness, prove),
        0 < witness.len() == prove.len(),
    ensures
        o.repeats == witness.len(),
        witness.len() == 1 ==> {
            &&& o.samples_used == 1
            &&& o.witness == witness[0]
            &&& o.prove == prove[0]
        },
        witness.len() > 1 ==> {
            &&& o.samples_used == witness.len() - 1
            &&& o.witness.time_ms == median_of(times_of(witness.skip(1)))
            &&& o.witness.peak_kb == median_of(peaks_of(witness.skip(1)))
            &&& o.prove.time_ms == median_of(times_of(prove.skip(1)))
            &&& o.prove.peak_kb == median_of(peaks_of(prove.skip(1)))
        },
        o.circuit@ == circuit,
        o.backend@ == "ultra_honk"@,
        o.constraints == gates.constraints,
        o.acir_opcodes == gates.acir_opcodes,
        o.nargo_version@ == versions.nargo@,
        o.bb_version@ == versions.bb@,
{
    if witness.len() > 1 {
        lemma_kept(witness.skip(1));
        lemma_kept(prove.skip(1));
    } else {
        assert(witness.skip(0) =~= seq![witness[0]]);
        assert(prove.skip(0) =~= seq![prove[0]]);
        lemma_kept(witness.skip(0));
        lemma_kept(prove.skip(0));
        lemma_single(witness[0]);
        lemma_single(prove[0]);
    }
}

proof fn lemma_kept(kept: Seq<Sample>)
    requires
        kept.len() > 0,
    ensures
        kept.map_values(|s: Sample| s.time_ms) == times_of(kept),
        kept.map_values(|s: Sample| s.peak_kb) == peaks_of(kept),
        middle(times_of(kept)) == median_of(times_of(kept)),
        middle(peaks_of(kept)) == median_of(peaks_of(kept)),
{
    assert(kept.map_values(|s: Sample| s.time_ms) =~= times_of(kept));
    assert(kept.map_values(|s: Sample| s.peak_kb) =~= peaks_of(kept));
    law_middle_is_the_median(times_of(kept));
    law_middle_is_the_median(peaks_of(kept));
}

proof fn lemma_single(s: Sample)
    ensures
        middle(times_of(seq![s])) == s.time_ms,
        middle(peaks_of(seq![s])) == s.peak_kb,
{
    reveal_with_fuel(count_within, 2);
    let t = times_of(seq![s]);
    let p = peaks_of(seq![s]);
    law_median_resists_outliers(t, s.time_ms, s.time_ms);
    law_median_resists_outliers(p, s.peak_kb, s.peak_kb);
}

/// A noisy run cannot skew the result: where more than half of the samples after the first lie
/// between `lo` and `hi`, so does what is reported, in time and in memory.
pub proof fn law_noise_does_not_skew(
    o: Outcome,
    circuit: Seq<char>,
    gates: Gates,
    versions: Versions,
    witness: Seq<Sample>,
    prove: Seq<Sample>,
    lo: u64,
    hi: u64,
)
    requires
        concludes(o, circuit, gates, versions, witness, prove),
        1 < witness.len() == prove.len(),
    ensures
        2 * count_within(times_of(witness.skip(1)), lo, hi) > witness.len() - 1 ==> lo
            <= o.witness.time_ms <= hi,
        2 * count_within(peaks_of(witness.skip(1)), lo, hi) > witness.len() - 1 ==> lo
            <= o.witness.peak_kb <= hi,
        2 * count_within(times_of(prove.skip(1)), lo, hi) > prove.len() - 1 ==> lo
            <= o.prove.time_ms <= hi,
        2 * count_within(peaks_of(prove.skip(1)), lo, hi) > prove.len() - 1 ==> lo
            <= o.prove.peak_kb <= hi,
{
    law_all_but_the_cold_run_count(o, circuit, gates, versions, witness, prove);
    lemma_noise(witness.skip(1), lo, hi);
    lemma_noise(prove.skip(1), lo, hi);
}

proof fn lemma_noise(kept: Seq<Sample>, lo: u64, hi: u64)
    requires
        kept.len() > 0,
    ensures
        2 * count_within(times_of(kept), lo, hi) > kept.len() ==> lo <= median_of(times_of(kept))
            <= hi,
        2 * count_within(peaks_of(kept), lo, hi) > kept.len() ==> lo <= median_of(peaks_of(kept))
            <= hi,
{
    lemma_kept(kept);
    if 2 * count_within(times_of(kept), lo, hi) > kept.len() {
        law_median_resists_outliers(times_of(kept), lo, hi);
    }
    if 2 * count_within(peaks_of(kept), lo, hi) > kept.len() {
        law_median_resists_outliers(peaks_of(kept), lo, hi);
    }
}

/// Whether a document is an object whose member `functions` is an array that starts with an
/// object that has this number under this key.
pub open spec fn holds_number(report: Json, key: Seq<char>, n: u64) -> bool {
    &&& report matches Json::Object(top)
    &&& top.dom().contains("functions"@)
    &&& top["functions"@] matches Json::Array(functions)
    &&& functions.len() > 0
    &&& functions[0] matches Json::Object(f)
    &&& f.dom().contains(key)
    &&& f[key] == Json::Number(Some(n))
}

/// Whether a document tells this size and this number of opcodes.
pub open spec fn says(report: Json, size: u64, opcodes: u64) -> bool {
    holds_number(report, "circuit_size"@, size) && holds_number(report, "acir_opcodes"@, opcodes)
}

/// The circuit size is read as it stands in the document, and no size is read that does not stand
/// there.
pub proof fn law_size_is_read_as_it_stands(
    report: Json,
    r: Result<Gates, GatesError>,
    size: u64,
    opcodes: u64,
)
    requires
        reports_gates(report, r),
    ensures
        says(report, size, opcodes) <==> r == Ok::<Gates, GatesError>(
            Gates { constraints: size, acir_opcodes: opcodes },
        ),
{
}

/// What the output of `bb gates` tells is what its document says.
pub proof fn law_size_in_an_output(output: Seq<u8>, size: u64, opcodes: u64)
    ensures
        gates_in(output) == Some(Gates { constraints: size, acir_opcodes: opcodes }) <==> (
        json_document(output) matches Ok(report) && says(report, size, opcodes)),
{
}

/// The outcome of a measurement tells what was measured: the size that `bb gates` printed, and
/// for each metric the median of all runs but the first.
pub proof fn law_outcome_tells_what_was_measured(
    states: Seq<Bench>,
    events: Seq<Event>,
    repeats: usize,
    output: Seq<u8>,
    size: u64,
    opcodes: u64,
    versions: Versions,
    o: Outcome,
)
    requires
        history(states, events),
        states[0].purpose == (Purpose::Measure { repeats }),
        events.len() == 4 + 2 * repeats,
        events[2] matches Event::Ran { run: ToolRun::Exited { stdout, .. } } && stdout@ == output,
        json_document(output) matches Ok(report) && says(report, size, opcodes),
        states.last().gates matches Some(gates) && concludes(
            o,
            states.last().circuit.name@,
            gates,
            versions,
            states.last().witness@,
            states.last().prove@,
        ),
    ensures
        o.constraints == size,
        o.acir_opcodes == opcodes,
        o.repeats == repeats,
        repeats == 1 ==> o.witness == sample_of(events[4]) && o.prove == sample_of(events[5]),
        repeats > 1 ==> ({
            let n = (repeats - 1) as nat;
            &&& o.samples_used == n
            &&& o.witness.time_ms == median_of(
                Seq::new(n, |k: int| sample_of(events[6 + 2 * k]).time_ms),
            )
            &&& o.witness.peak_kb == median_of(
                Seq::new(n, |k: int| sample_of(events[6 + 2 * k]).peak_kb),
            )
            &&& o.prove.time_ms == median_of(
                Seq::new(n, |k: int| sample_of(events[7 + 2 * k]).time_ms),
            )
            &&& o.prove.peak_kb == median_of(
                Seq::new(n, |k: int| sample_of(events[7 + 2 * k]).peak_kb),
            )
        }),
        o.circuit@ == states[0].circuit.name@,
{
    law_measurement_keeps_every_sample(states, events, repeats);
    law_measurement_goes_through_its_stages(states, events, repeats, events.len() as int);
    let last = states.last();
    law_size_in_an_output(output, size, opcodes);
    law_all_but_the_cold_run_count(
        o,
        last.circuit.name@,
        last.gates->0,
        versions,
        last.witness@,
        last.prove@,
    );
    if repeats > 1 {
        let n = (repeats - 1) as nat;
        let w = last.witness@.skip(1);
        let p = last.prove@.skip(1);
        assert forall|k: int| 0 <= k < n implies w[k] == sample_of(events[6 + 2 * k]) && p[k]
            == sample_of(events[7 + 2 * k]) by {
            assert(4 + 2 * (k + 1) == 6 + 2 * k && 5 + 2 * (k + 1) == 7 + 2 * k);
        }
        assert(times_of(w) =~= Seq::new(n, |k: int| sample_of(events[6 + 2 * k]).time_ms));
        assert(peaks_of(w) =~= Seq::new(n, |k: int| sample_of(events[6 + 2 * k]).peak_kb));
        assert(times_of(p) =~= Seq::new(n, |k: int| sample_of(events[7 + 2 * k]).time_ms));
        assert(peaks_of(p) =~= Seq::new(n, |k: int| sample_of(events[7 + 2 * k]).peak_kb));
    }
}

/// A stage succeeds exactly where its tool ran and ended well, its directory was made, or its
/// sample was taken; reading the size also takes a document that tells it.
pub proof fn law_success(stage: Stage, event: Event)
    requires
        fits(stage, event),
    ensures
        succeeds(stage, event) <==> match event {
            Event::Ran { run: ToolRun::NotStarted { .. } } => false,
            Event::Ran { run: ToolRun::Exited { success, stdout, .. } } => success && (stage
                == Stage::Size ==> json_document(stdout@) is Ok && exists|size: u64, opcodes: u64|
                #[trigger] says(json_document(stdout@)->Ok_0, size, opcodes)),
            Event::DirMade => true,
            Event::DirFailed { .. } => false,
            Event::Measured { .. } => true,
            Event::MeasureFailed { .. } => false,
        },
{
    if stage == Stage::Size {
        if let Event::Ran { run: ToolRun::Exited { success, stdout, .. } } = event {
            if let Some(g) = gates_in(stdout@) {
                law_size_in_an_output(stdout@, g.constraints, g.acir_opcodes);
                assert(says(json_document(stdout@)->Ok_0, g.constraints, g.acir_opcodes));
            } else {
                assert forall|size: u64, opcodes: u64|
                    json_document(stdout@) is Ok implies !#[trigger] says(
                    json_document(stdout@)->Ok_0,
                    size,
                    opcodes,
                ) by {
                    law_size_in_an_output(stdout@, size, opcodes);
                }
            }
        }
    }
}

/// What is said of a stage that did not succeed names the step and hands on what the tool or the
/// system said.
pub proof fn law_failure_is_told(stage: Stage, event: Event, error: StageError)
    requires
        fits(stage, event),
        tells(stage, event, error),
    ensures
        match event {
            Event::Ran { run: ToolRun::NotStarted { cause } } => error.text() == (if stage
                == Stage::Compile {
                "failed to run nargo compile"@
            } else if stage == Stage::VerificationKey {
                "failed to run bb write_vk"@
            } else {
                "failed to run bb gates"@
            }) + ": "@ + cause@,
            Event::Ran { run: ToolRun::Exited { success, stdout, stderr } } => if !success {
                error.text() == (if stage == Stage::Compile {
                    "compile failed:\n"@
                } else if stage == Stage::VerificationKey {
                    "bb write_vk failed:\n"@
                } else {
                    "bb gates failed:\n"@
                }) + trim(lossy_text(stderr@))
            } else {
                match json_document(stdout@) {
                    Err(cause) => error.text() == "failed to parse bb gates JSON"@ + ": "@ + cause,
                    Ok(report) => error.text() == if exists|n: u64|
                        holds_number(report, "circuit_size"@, n) {
                        "bb gates output has no acir_opcodes"@
                    } else {
                        "bb gates output has no circuit_size"@
                    },
                }
            },
            Event::DirFailed { cause } => error.text() == (if stage == Stage::VerificationKey {
                "failed to create vk output directory"@
            } else {
                "failed to create proof output directory"@
            }) + ": "@ + cause@,
            Event::MeasureFailed { cause } => error.text() == cause@,
            _ => false,
        },
{
    if let Event::Ran { run: ToolRun::Exited { success, stdout, stderr } } = event {
        if success {
            if let Ok(report) = json_document(stdout@) {
                if let Some(n) = first_function(report, "circuit_size"@) {
                    assert(holds_number(report, "circuit_size"@, n));
                } else {
                    assert forall|n: u64| !holds_number(report, "circuit_size"@, n) by {}
                }
            }
        }
    }
}

/// What is announced names the circuit, the step and, where there are several, the run.
pub proof fn law_announcements(name: Seq<char>, repeats: usize, run: usize, stage: Stage)
    ensures
        announced(name, Purpose::WarmUp, stage) is None,
        ({
            let purpose = Purpose::Measure { repeats };
            &&& announced(name, purpose, Stage::Compile) == Some(
                "["@ + name + "] compiling (warm-up)..."@,
            )
            &&& announced(name, purpose, Stage::VerificationKey) == Some(
                "["@ + name + "] writing verification key (warm-up)..."@,
            )
            &&& announced(name, purpose, Stage::Size) == Some(
                "["@ + name + "] reading circuit size..."@,
            )
            &&& announced(name, purpose, Stage::ProofDir) is None
            &&& announced(name, purpose, Stage::Witness { run }) == Some(
                "["@ + name + "] measuring "@ + "witness"@ + " ("@ + digits(run as nat) + "/"@
                    + digits(repeats as nat) + ")..."@,
            )
            &&& announced(name, purpose, Stage::Prove { run }) == Some(
                "["@ + name + "] measuring "@ + "prove"@ + " ("@ + digits(run as nat) + "/"@
                    + digits(repeats as nat) + ")..."@,
            )
            &&& announced(name, purpose, Stage::Done) is None
        }),
{
}

/// Whether a tool is a program with arguments, run in a directory where one is given.
pub open spec fn calls(
    tool: Tool,
    program: Seq<char>,
    args: Seq<Seq<char>>,
    dir: Option<Seq<char>>,
) -> bool {
    &&& tool.program@ == program
    &&& tool.args@.len() == args.len()
    &&& forall|i: int| 0 <= i < args.len() ==> (#[trigger] tool.args@[i])@ == args[i]
    &&& match (tool.dir, dir) {
        (Some(t), Some(d)) => t@ == d,
        (None, None) => true,
        _ => false,
    }
}

/// The tools of a circuit are called on its own artifacts, all of them under `target` in its
/// directory, in every run alike: `nargo` compiles and executes in the directory, and `bb` writes
/// the key, tells the size and proves, with the key that was written.
pub proof fn law_jobs_of_a_circuit(
    circuit: Circuit,
    dir: Seq<char>,
    name: Seq<char>,
    stage: Stage,
    job: Job,
)
    requires
        circuit.stands_in(dir, name),
        asks_for(circuit, stage, job),
        dir.len() > 0,
        dir.last() != '/',
        name.len() > 0 ==> name[0] != '/',
    ensures
        ({
            let bytecode = dir + "/target/"@ + name + ".json"@;
            let witness = dir + "/target/"@ + name + ".gz"@;
            let proof_dir = dir + "/target/proof"@;
            let vk_dir = dir + "/target/vk"@;
            let scheme = "ultra_honk"@;
            match stage {
                Stage::Compile => job matches Job::Run { tool } && calls(
                    tool,
                    "nargo"@,
                    seq!["compile"@],
                    Some(dir),
                ),
                Stage::VerificationKey => job matches Job::RunInto { dir: d, tool } && d@ == vk_dir
                    && calls(
                    tool,
                    "bb"@,
                    seq!["write_vk"@, "-s"@, scheme, "-b"@, bytecode, "-o"@, vk_dir],
                    None,
                ),
                Stage::Size => job matches Job::Run { tool } && calls(
                    tool,
                    "bb"@,
                    seq!["gates"@, "-s"@, scheme, "-b"@, bytecode],
                    None,
                ),
                Stage::ProofDir => job matches Job::MakeDir { dir: d } && d@ == proof_dir,
                Stage::Witness { .. } => job matches Job::Measure { tool } && calls(
                    tool,
                    "nargo"@,
                    seq!["execute"@],
                    Some(dir),
                ),
                Stage::Prove { .. } => job matches Job::Measure { tool } && calls(
                    tool,
                    "bb"@,
                    seq![
                        "prove"@,
                        "-s"@,
                        scheme,
                        "-b"@,
                        bytecode,
                        "-w"@,
                        witness,
                        "-o"@,
                        proof_dir,
                        "-k"@,
                        vk_dir + "/vk"@,
                    ],
                    Some(dir),
                ),
                Stage::Done => job is Nothing,
            }
        }),
{
    law_artifacts(circuit, dir, name);
    let tool = match job {
        Job::Run { tool } => tool,
        Job::RunInto { tool, .. } => tool,
        Job::Measure { tool } => tool,
        _ => arbitrary(),
    };
    let args = tool.args@;
    assert forall|i: int| 0 <= i < args.len() implies (#[trigger] args[i])@ == texts(args)[i] by {}
    assert(texts(args).len() == args.len());
    reveal_strlit("/target/vk");
    reveal_strlit("vk");
    reveal_strlit("/vk");
    let vk_dir = dir + "/target/vk"@;
    assert(vk_dir.push('/') + "vk"@ =~= vk_dir + "/vk"@);
    assert(crate::path::joined(vk_dir, "vk"@) == vk_dir + "/vk"@);
}

/// The artifacts of a circuit lie under `target` in its directory, named after the package.
pub proof fn law_artifacts(circuit: Circuit, dir: Seq<char>, name: Seq<char>)
    requires
        circuit.stands_in(dir, name),
        dir.len() > 0,
        dir.last() != '/',
        name.len() > 0 ==> name[0] != '/',
    ensures
        circuit.name@ == name,
        circuit.dir@ == dir,
        circuit.bytecode@ == dir + "/target/"@ + name + ".json"@,
        circuit.witness@ == dir + "/target/"@ + name + ".gz"@,
        circuit.proof_dir@ == dir + "/target/proof"@,
        circuit.vk_dir@ == dir + "/target/vk"@,
{
    reveal_strlit("target");
    reveal_strlit("/target/");
    reveal_strlit(".json");
    reveal_strlit(".gz");
    reveal_strlit("proof");
    reveal_strlit("/target/proof");
    reveal_strlit("vk");
    reveal_strlit("/target/vk");
    let target = dir.push('/') + "target"@;
    assert(target.last() == 't');
    assert((name + ".json"@)[0] != '/');
    assert((name + ".gz"@)[0] != '/');
    assert(target.push('/') + (name + ".json"@) =~= dir + "/target/"@ + name + ".json"@);
    assert(target.push('/') + (name + ".gz"@) =~= dir + "/target/"@ + name + ".gz"@);
    assert(target.push('/') + "proof"@ =~= dir + "/target/proof"@);
    assert(target.push('/') + "vk"@ =~= dir + "/target/vk"@);
}

} // verus!
