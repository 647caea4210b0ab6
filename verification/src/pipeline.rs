//! Measurement of one circuit: the stages, their order, and what is made of the samples.
//!
//! Stages of a measurement:
//!   - warm-up compile: NOT measured, keeps compile time out of witness time
//!   - warm-up write_vk: NOT measured, so prove measures pure proving (bb 5.x
//!     requires a verification key; precomputing it keeps vk cost out of prove)
//!   - circuit size: `bb gates` -> constraints + acir_opcodes
//!   - repeated loop: measure witness (nargo execute) + prove (bb prove)
//!
//! Reproducibility: repeat `repeats` times, drop the first (cold) run, and
//! reduce the rest to their median.
use crate::circuit::Circuit;
use crate::gates::Gates;
use crate::measure::{median, middle, Sample};
use crate::path::{file_name, final_name, join, joined};
use crate::tools::{texts, Versions};
use vstd::prelude::*;
use vstd::slice::slice_subrange;

verus! {

/// The proving scheme.
pub const BACKEND: &'static str = "ultra_honk";

/// Everything a report needs after a run. Time and memory values are the medians over the kept
/// samples.
#[derive(Debug)]
pub struct Outcome {
    pub circuit: String,
    pub backend: &'static str,
    pub constraints: u64,
    pub acir_opcodes: u64,
    pub witness: Sample,
    pub prove: Sample,
    pub repeats: usize,
    pub samples_used: usize,
    pub nargo_version: String,
    pub bb_version: String,
}

/// The label of a path: its last component, or all of it where that names nothing.
pub open spec fn label(dir: Seq<char>) -> Seq<char> {
    match final_name(dir) {
        Some(name) => name,
        None => dir,
    }
}

/// Human-friendly label for a circuit path (its final component), used in the
/// comparison table when a circuit fails before its package name is known.
pub fn path_label(dir: &str) -> (r: String)
    ensures
        r@ == label(dir@),
{
    match file_name(dir) {
        Some(name) => name,
        None => String::from_str(dir),
    }
}

/// The arguments of `bb prove` for a circuit.
pub open spec fn prove_arguments(circuit: Circuit) -> Seq<Seq<char>> {
    seq![
        "prove"@,
        "-s"@,
        BACKEND@,
        "-b"@,
        circuit.bytecode@,
        "-w"@,
        circuit.witness@,
        "-o"@,
        circuit.proof_dir@,
        "-k"@,
        joined(circuit.vk_dir@, "vk"@),
    ]
}

/// The `bb prove` argument vector for a circuit, using the precomputed vk so
/// the measured (or warm-up) prove is pure proving.
pub fn prove_args(circuit: &Circuit) -> (r: Vec<String>)
    ensures
        texts(r@) == prove_arguments(*circuit),
{
    let r = vec![
        String::from_str("prove"),
        String::from_str("-s"),
        String::from_str(BACKEND),
        String::from_str("-b"),
        circuit.bytecode.clone(),
        String::from_str("-w"),
        circuit.witness.clone(),
        String::from_str("-o"),
        circuit.proof_dir.clone(),
        String::from_str("-k"),
        join(&circuit.vk_dir, "vk"),
    ];
    assert(texts(r@) =~= prove_arguments(*circuit));
    r
}

/// The median time and the median memory, each taken by itself.
pub open spec fn reduced(samples: Seq<Sample>) -> Sample {
    Sample {
        time_ms: middle(samples.map_values(|s: Sample| s.time_ms)),
        peak_kb: middle(samples.map_values(|s: Sample| s.peak_kb)),
    }
}

/// Reduces a set of samples to per-metric medians.
pub fn reduce(samples: &[Sample]) -> (r: Sample)
    requires
        samples@.len() > 0,
    ensures
        r == reduced(samples@),
{
    let mut times: Vec<u64> = Vec::new();
    let mut mems: Vec<u64> = Vec::new();
    let mut i: usize = 0;
    while i < samples.len()
        invariant
            i <= samples.len(),
            times@ == samples@.take(i as int).map_values(|s: Sample| s.time_ms),
            mems@ == samples@.take(i as int).map_values(|s: Sample| s.peak_kb),
        decreases samples.len() - i,
    {
        times.push(samples[i].time_ms);
        mems.push(samples[i].peak_kb);
        i = i + 1;
    }
    assert(samples@.take(i as int) == samples@);
    Sample { time_ms: median(times.as_slice()), peak_kb: median(mems.as_slice()) }
}

/// How many samples are dropped: the first (cold) one, where there is another.
pub open spec fn dropped(repeats: nat) -> nat {
    if repeats > 1 {
        1
    } else {
        0
    }
}

/// What is reported of the samples of one stage.
pub open spec fn reported(samples: Seq<Sample>) -> Sample {
    reduced(samples.skip(dropped(samples.len()) as int))
}

/// Whether `o` is the outcome of measuring the named circuit.
pub open spec fn concludes(
    o: Outcome,
    circuit: Seq<char>,
    gates: Gates,
    versions: Versions,
    witness: Seq<Sample>,
    prove: Seq<Sample>,
) -> bool {
    &&& o.circuit@ == circuit
    &&& o.backend@ == BACKEND@
    &&& o.constraints == gates.constraints
    &&& o.acir_opcodes == gates.acir_opcodes
    &&& o.witness == reported(witness)
    &&& o.prove == reported(prove)
    &&& o.repeats == witness.len()
    &&& o.samples_used == witness.len() - dropped(witness.len())
    &&& o.nargo_version@ == versions.nargo@
    &&& o.bb_version@ == versions.bb@
}

/// The outcome of measuring a circuit, from its size and its samples.
pub fn conclude(
    circuit: &str,
    gates: Gates,
    versions: &Versions,
    witness: &Vec<Sample>,
    prove: &Vec<Sample>,
) -> (r: Outcome)
    requires
        0 < witness@.len() == prove@.len(),
    ensures
        concludes(r, circuit@, gates, *versions, witness@, prove@),
{
    let repeats = witness.len();
    let first: usize = if repeats > 1 {
        1
    } else {
        0
    };
    let kept_witness = slice_subrange(witness.as_slice(), first, repeats);
    let kept_prove = slice_subrange(prove.as_slice(), first, repeats);
    assert(kept_witness@ == witness@.skip(first as int));
    assert(kept_prove@ == prove@.skip(first as int));
    Outcome {
        circuit: String::from_str(circuit),
        backend: BACKEND,
        constraints: gates.constraints,
        acir_opcodes: gates.acir_opcodes,
        witness: reduce(kept_witness),
        prove: reduce(kept_prove),
        repeats,
        samples_used: repeats - first,
        nargo_version: versions.nargo.clone(),
        bb_version: versions.bb.clone(),
    }
}

/// The cold run does not count: with more than one sample, what is reported does not depend on
/// the first.
pub proof fn law_cold_sample_does_not_count(samples: Seq<Sample>, other: Sample)
    requires
        samples.len() > 1,
    ensures
        reported(samples.update(0, other)) == reported(samples),
{
    assert(samples.update(0, other).skip(1) == samples.skip(1));
}

} // verus!
