use zkbench::bench::{next_stage, Bench, Event, Job, Purpose, Stage, StageError};
use zkbench::circuit::Circuit;
use zkbench::gates::{gates_of, parse_gates, Gates, GatesError};
use zkbench::measure::{median, Sample};
use zkbench::order::stable_order;
use zkbench::pipeline::{conclude, reduce, BACKEND};
use zkbench::tools::{ToolRun, Versions};

fn sample(time_ms: u64, peak_kb: u64) -> Sample {
    Sample { time_ms, peak_kb }
}

fn versions() -> Versions {
    Versions { nargo: "n".to_string(), bb: "b".to_string() }
}

fn demo() -> Circuit {
    Circuit::locate("/c".to_string(), "demo".to_string())
}

fn ran(stdout: &str) -> Event {
    Event::Ran {
        run: ToolRun::Exited { success: true, stdout: stdout.as_bytes().to_vec(), stderr: vec![] },
    }
}

fn failed(stderr: &str) -> Event {
    Event::Ran {
        run: ToolRun::Exited { success: false, stdout: vec![], stderr: stderr.as_bytes().to_vec() },
    }
}

fn not_started() -> Event {
    Event::Ran { run: ToolRun::NotStarted { cause: "not found".to_string() } }
}

const REPORT: &str = "{\"functions\":[{\"circuit_size\":2812,\"acir_opcodes\":5}]}";

#[test]
fn median_is_the_middle_value() {
    assert_eq!(median(&[7]), 7);
    assert_eq!(median(&[9, 1, 5]), 5);
    assert_eq!(median(&[4, 1, 3, 2]), 2);
    assert_eq!(median(&[10, 20]), 15);
    assert_eq!(median(&[u64::MAX, u64::MAX]), u64::MAX);
    assert_eq!(median(&[5, 1, 1, 900, 5]), 5);
}

#[test]
fn median_ignores_order_and_outliers() {
    assert_eq!(median(&[3, 1, 2]), median(&[2, 3, 1]));
    for noise in [0, 1, 100, 1_000_000] {
        let m = median(&[100, noise, 102]);
        assert!((100..=102).contains(&m), "{m}");
    }
}

#[test]
fn metrics_are_reduced_by_themselves() {
    let r = reduce(&[sample(1, 30), sample(3, 10), sample(2, 20)]);
    assert_eq!(r, sample(2, 20));
    let r = reduce(&[sample(1, 9), sample(5, 1)]);
    assert_eq!(r, sample(3, 5));
}

#[test]
fn cold_sample_is_dropped() {
    let gates = Gates { constraints: 8, acir_opcodes: 9 };
    let w = vec![sample(1000, 1000), sample(10, 1), sample(20, 3)];
    let p = vec![sample(0, 0), sample(30, 5), sample(40, 7)];
    let o = conclude("demo", gates, &versions(), &w, &p);
    assert_eq!(o.witness, sample(15, 2));
    assert_eq!(o.prove, sample(35, 6));
    assert_eq!((o.repeats, o.samples_used), (3, 2));
    assert_eq!((o.constraints, o.acir_opcodes), (8, 9));
    assert_eq!(o.backend, BACKEND);
    assert_eq!((o.nargo_version.as_str(), o.bb_version.as_str()), ("n", "b"));
    let hotter = vec![sample(5, 5), sample(10, 1), sample(20, 3)];
    assert_eq!(conclude("demo", gates, &versions(), &hotter, &p).witness, o.witness);
}

#[test]
fn single_sample_is_kept() {
    let gates = Gates { constraints: 8, acir_opcodes: 9 };
    let o = conclude("demo", gates, &versions(), &vec![sample(7, 1)], &vec![sample(8, 2)]);
    assert_eq!((o.witness, o.prove), (sample(7, 1), sample(8, 2)));
    assert_eq!((o.repeats, o.samples_used), (1, 1));
}

#[test]
fn ordering_is_stable() {
    assert_eq!(stable_order(&vec![3, 1, 2, 1, 3]), [1, 3, 2, 0, 4]);
    assert!(stable_order(&vec![]).is_empty());
}

#[test]
fn circuit_size_is_that_of_the_first_function() {
    let g = parse_gates(REPORT.as_bytes()).unwrap();
    assert_eq!((g.constraints, g.acir_opcodes), (2812, 5));
    let two = "{\"functions\":[{\"circuit_size\":1,\"acir_opcodes\":2},{\"circuit_size\":3}]}";
    assert_eq!(parse_gates(two.as_bytes()).unwrap(), Gates { constraints: 1, acir_opcodes: 2 });
    let value: serde_json::Value = serde_json::from_str(REPORT).unwrap();
    assert_eq!(gates_of(&value).unwrap(), g);
}

#[test]
fn circuit_size_that_is_missing_is_an_error() {
    for text in [
        "null",
        "[]",
        "{}",
        "{\"functions\":[]}",
        "{\"functions\":{\"0\":{\"circuit_size\":1,\"acir_opcodes\":2}}}",
        "{\"functions\":[{\"acir_opcodes\":2}]}",
        "{\"functions\":[{\"circuit_size\":-1,\"acir_opcodes\":2}]}",
        "{\"functions\":[{\"circuit_size\":1.0,\"acir_opcodes\":2}]}",
        "{\"functions\":[{\"circuit_size\":\"1\",\"acir_opcodes\":2}]}",
    ] {
        let r = parse_gates(text.as_bytes());
        assert!(matches!(r, Err(GatesError::NoCircuitSize)), "{text}");
    }
    let r = parse_gates(b"{\"functions\":[{\"circuit_size\":1}]}");
    assert!(matches!(r, Err(GatesError::NoAcirOpcodes)));
    match parse_gates(b"oops") {
        Err(GatesError::NotJson { cause }) => {
            let want = serde_json::from_slice::<serde_json::Value>(b"oops").unwrap_err();
            assert_eq!(cause, want.to_string());
        }
        other => panic!("{other:?}"),
    }
}

#[test]
fn measurement_goes_through_its_stages() {
    let mut bench = Bench::start(demo(), Purpose::Measure { repeats: 2 });
    let mut seen = vec![];
    let mut said = vec![];
    let mut clock = 0;
    loop {
        seen.push(bench.stage);
        said.push(bench.announcement());
        let event = match bench.job() {
            Job::Run { tool } if tool.program == "nargo" => {
                assert_eq!(tool.args, ["compile"]);
                assert_eq!(tool.dir.as_deref(), Some("/c"));
                ran("")
            }
            Job::Run { tool } => {
                assert_eq!(tool.program, "bb");
                assert_eq!(tool.args, ["gates", "-s", "ultra_honk", "-b", "/c/target/demo.json"]);
                assert_eq!(tool.dir, None);
                ran(REPORT)
            }
            Job::RunInto { dir, tool } => {
                assert_eq!(dir, "/c/target/vk");
                assert_eq!(
                    tool.args,
                    ["write_vk", "-s", "ultra_honk", "-b", "/c/target/demo.json", "-o", "/c/target/vk"]
                );
                assert_eq!(tool.dir, None);
                ran("")
            }
            Job::MakeDir { dir } => {
                assert_eq!(dir, "/c/target/proof");
                Event::DirMade
            }
            Job::Measure { tool } => {
                assert_eq!(tool.dir.as_deref(), Some("/c"));
                clock += 10;
                if tool.program == "nargo" {
                    assert_eq!(tool.args, ["execute"]);
                } else {
                    assert_eq!(tool.args[0], "prove");
                }
                Event::Measured { sample: sample(clock, clock + 1) }
            }
            Job::Nothing => break,
        };
        bench.advance(event).unwrap();
    }
    assert_eq!(
        seen,
        [
            Stage::Compile,
            Stage::VerificationKey,
            Stage::Size,
            Stage::ProofDir,
            Stage::Witness { run: 1 },
            Stage::Prove { run: 1 },
            Stage::Witness { run: 2 },
            Stage::Prove { run: 2 },
            Stage::Done,
        ]
    );
    let said: Vec<_> = said.iter().map(|s| s.as_deref()).collect();
    assert_eq!(
        said,
        [
            Some("[demo] compiling (warm-up)..."),
            Some("[demo] writing verification key (warm-up)..."),
            Some("[demo] reading circuit size..."),
            None,
            Some("[demo] measuring witness (1/2)..."),
            Some("[demo] measuring prove (1/2)..."),
            Some("[demo] measuring witness (2/2)..."),
            Some("[demo] measuring prove (2/2)..."),
            None,
        ]
    );
    let o = bench.finish(&versions());
    assert_eq!(o.circuit, "demo");
    assert_eq!((o.constraints, o.acir_opcodes), (2812, 5));
    assert_eq!((o.witness, o.prove), (sample(30, 31), sample(40, 41)));
    assert_eq!((o.repeats, o.samples_used), (2, 1));
}

#[test]
fn warm_up_goes_through_a_whole_proof() {
    let mut stage = Stage::Compile;
    let mut seen = vec![stage];
    while stage != Stage::Done {
        stage = next_stage(Purpose::WarmUp, stage);
        seen.push(stage);
    }
    assert_eq!(
        seen,
        [
            Stage::Compile,
            Stage::ProofDir,
            Stage::Witness { run: 1 },
            Stage::VerificationKey,
            Stage::Prove { run: 1 },
            Stage::Done,
        ]
    );
    let bench = Bench::start(demo(), Purpose::WarmUp);
    assert_eq!(bench.announcement(), None);
}

#[test]
fn failures_stop_a_measurement_where_it_stands() {
    let mut bench = Bench::start(demo(), Purpose::Measure { repeats: 1 });
    let e = bench.advance(not_started()).unwrap_err();
    assert_eq!(e.describe(), "failed to run nargo compile: not found");
    let e = bench.advance(failed(" error: bad\n")).unwrap_err();
    assert_eq!(e.describe(), "compile failed:\nerror: bad");
    assert_eq!(bench.stage, Stage::Compile);
    bench.advance(ran("")).unwrap();

    let e = bench.advance(Event::DirFailed { cause: "full".to_string() }).unwrap_err();
    assert_eq!(e.describe(), "failed to create vk output directory: full");
    let e = bench.advance(not_started()).unwrap_err();
    assert_eq!(e.describe(), "failed to run bb write_vk: not found");
    let e = bench.advance(failed("x")).unwrap_err();
    assert_eq!(e.describe(), "bb write_vk failed:\nx");
    bench.advance(ran("")).unwrap();

    let e = bench.advance(not_started()).unwrap_err();
    assert_eq!(e.describe(), "failed to run bb gates: not found");
    let e = bench.advance(failed("x\n")).unwrap_err();
    assert_eq!(e.describe(), "bb gates failed:\nx");
    let e = bench.advance(ran("{}")).unwrap_err();
    assert_eq!(e.describe(), "bb gates output has no circuit_size");
    let e = bench.advance(ran("{\"functions\":[{\"circuit_size\":1}]}")).unwrap_err();
    assert_eq!(e.describe(), "bb gates output has no acir_opcodes");
    let e = bench.advance(ran("}")).unwrap_err();
    assert!(matches!(e, StageError::NoSize { error: GatesError::NotJson { .. } }));
    assert!(e.describe().starts_with("failed to parse bb gates JSON: "));
    assert_eq!(bench.gates, None);
    bench.advance(ran(REPORT)).unwrap();

    let e = bench.advance(Event::DirFailed { cause: "full".to_string() }).unwrap_err();
    assert_eq!(e.describe(), "failed to create proof output directory: full");
    bench.advance(Event::DirMade).unwrap();

    let e = bench.advance(Event::MeasureFailed { cause: "nargo exited".to_string() }).unwrap_err();
    assert_eq!(e.describe(), "nargo exited");
    assert_eq!(bench.stage, Stage::Witness { run: 1 });
    bench.advance(Event::Measured { sample: sample(1, 2) }).unwrap();
    bench.advance(Event::Measured { sample: sample(3, 4) }).unwrap();
    assert_eq!(bench.stage, Stage::Done);
}
