use zkbench::measure::Sample;
use zkbench::page::render_page;
use zkbench::pipeline::Outcome;
use zkbench::report::bench_result;
use zkbench::report_html::{
    choose_records, is_wsl, is_wsl_version, opening_line, parse_timestamp_millis, select,
    select_latest, skip_warning, windows_path, Content, Record,
};
use zkbench::tools::ToolRun;

fn record(circuit: &str, timestamp: &str, constraints: u64) -> Record {
    Record {
        circuit: circuit.to_string(),
        backend: "ultra_honk".to_string(),
        timestamp: timestamp.to_string(),
        repeats: 3,
        samples_used: 2,
        nargo_version: "1.0.0".to_string(),
        bb_version: "5.0.0".to_string(),
        constraints,
        acir_opcodes: 17,
        witness_time_ms: 10,
        prove_time_ms: 20,
    }
}

#[test]
fn timestamps_are_read_as_rfc_3339() {
    assert_eq!(parse_timestamp_millis("1970-01-01T00:00:01.444Z"), 1444);
    assert_eq!(parse_timestamp_millis("2001-09-09T01:46:40.555+00:00"), 1_000_000_000_555);
    assert_eq!(parse_timestamp_millis("1996-12-19T16:39:57-08:00"), 851_042_397_000);
    assert_eq!(parse_timestamp_millis("yesterday"), i64::MIN);
    assert_eq!(parse_timestamp_millis(""), i64::MIN);
}

#[test]
fn newest_record_of_each_circuit_is_selected() {
    let records = vec![
        record("big", "2026-01-01T00:00:00+00:00", 500),
        record("small", "2026-01-01T00:00:00+00:00", 7),
        record("big", "2026-01-02T00:00:00+00:00", 400),
        record("small", "2025-01-01T00:00:00+00:00", 9),
        record("mid", "2026-01-01T00:00:00+00:00", 50),
    ];
    assert_eq!(select(&records), [1, 4, 2]);
}

#[test]
fn valid_timestamp_wins_over_unreadable_one() {
    let records = vec![
        record("a", "garbage", 1),
        record("a", "0000-01-01T00:00:00+00:00", 2),
        record("a", "junk", 3),
    ];
    assert_eq!(select(&records), [1]);
    let records = vec![record("a", "garbage", 1), record("a", "junk", 3)];
    assert_eq!(select(&records), [0]);
}

#[test]
fn offsets_are_taken_into_account() {
    let records = vec![
        record("a", "2026-01-01T12:00:00+09:00", 1),
        record("a", "2026-01-01T04:00:00+00:00", 2),
    ];
    assert_eq!(select(&records), [1]);
}

#[test]
fn equal_timestamps_keep_the_first() {
    let records = vec![record("a", "", 5), record("a", "", 6), record("b", "", 5)];
    assert_eq!(select_latest(&records, &vec![3, 3, 9]), [0, 2]);
    assert_eq!(select_latest(&records, &vec![3, 4, 9]), [2, 1]);
    assert!(select_latest(&vec![], &vec![]).is_empty());
}

#[test]
fn nothing_to_report_is_an_error() {
    assert_eq!(
        choose_records(&vec![], "results").unwrap_err(),
        "no measurement JSON found in results (run `zkbench run` or `compare` first)"
    );
    let records = vec![record("a", "2026-01-01T00:00:00Z", 5)];
    assert_eq!(choose_records(&records, "results").unwrap(), [0]);
}

#[test]
fn page_inlines_time_and_data() {
    let page = render_page("2026-01-02 03:04:05 +00:00", "[{\"circuit\":\"__DATA__\"}]");
    assert!(page.starts_with("<!doctype html>\n<html lang=\"en\">"));
    assert!(page.ends_with("</body>\n</html>\n"));
    assert!(page.contains("<div class=\"sub\">generated 2026-01-02 03:04:05 +00:00</div>"));
    assert!(page.contains("const DATA = [{\"circuit\":\"__DATA__\"}];\n"));
    assert!(!page.contains("__GENERATED_AT__"));
}

#[test]
fn wsl_is_detected() {
    assert!(is_wsl(true, false, None));
    assert!(is_wsl(false, true, None));
    assert!(!is_wsl(false, false, None));
    assert!(is_wsl(false, false, Some("Linux version 5.15 (root@x) MICROSOFT-standard-WSL2")));
    assert!(!is_wsl(false, false, Some("Linux version 6.1 (debian)")));
    assert!(is_wsl_version("5.15-microsoft"));
    assert!(!is_wsl_version("5.15-Microsoft"));
}

#[test]
fn windows_path_is_what_wslpath_prints() {
    let run = ToolRun::Exited {
        success: true,
        stdout: b"\\\\wsl$\\Debian\\tmp\\report.html\r\n".to_vec(),
        stderr: vec![],
    };
    assert_eq!(windows_path(&run).unwrap(), "\\\\wsl$\\Debian\\tmp\\report.html");
    let run = ToolRun::Exited { success: false, stdout: vec![], stderr: b"wslpath: x\n".to_vec() };
    assert_eq!(windows_path(&run).unwrap_err(), "wslpath failed: wslpath: x");
    let run = ToolRun::NotStarted { cause: "not found".to_string() };
    assert_eq!(
        windows_path(&run).unwrap_err(),
        "failed to run wslpath (is this really WSL?): not found"
    );
}

#[test]
fn useless_files_are_passed_over() {
    let content = Content::Unreadable { cause: "permission denied".to_string() };
    assert_eq!(
        skip_warning("results/a.json", &content).unwrap(),
        "warning: skipping results/a.json (permission denied)"
    );
    assert_eq!(
        skip_warning("results/b.json", &Content::Foreign).unwrap(),
        "warning: skipping unparseable results/b.json"
    );
    let content = Content::Parsed { record: record("a", "", 1) };
    assert_eq!(skip_warning("results/c.json", &content), None);
}

#[test]
fn report_that_cannot_be_opened_is_only_a_warning() {
    assert_eq!(opening_line(&Ok(()), "results/report.html"), "opening in browser...");
    assert_eq!(
        opening_line(&Err("no handler".to_string()), "results/report.html"),
        "warning: could not open the report automatically (no handler); open results/report.html manually"
    );
}

#[test]
fn saved_result_is_shown() {
    let outcome = Outcome {
        circuit: "demo".to_string(),
        backend: "ultra_honk",
        constraints: 2812,
        acir_opcodes: 5,
        witness: Sample { time_ms: 210, peak_kb: 9 },
        prove: Sample { time_ms: 250, peak_kb: 36864 },
        repeats: 3,
        samples_used: 2,
        nargo_version: "1.0.0".to_string(),
        bb_version: "5.0.0".to_string(),
    };
    let now = "2026-01-02T03:04:05+09:00";
    let r = bench_result(&outcome, now);
    let read = Record {
        circuit: r.circuit,
        backend: r.backend,
        timestamp: r.timestamp,
        repeats: r.repeats,
        samples_used: r.samples_used,
        nargo_version: r.nargo_version,
        bb_version: r.bb_version,
        constraints: r.constraints,
        acir_opcodes: r.acir_opcodes,
        witness_time_ms: r.witness_time_ms,
        prove_time_ms: r.prove_time_ms,
    };
    let records = vec![read];
    assert_eq!(choose_records(&records, "results").unwrap(), [0]);
    let shown = &records[0];
    assert_eq!(shown.circuit, "demo");
    assert_eq!(shown.backend, "ultra_honk");
    assert_eq!(shown.timestamp, now);
    assert_eq!((shown.repeats, shown.samples_used), (3, 2));
    assert_eq!((shown.nargo_version.as_str(), shown.bb_version.as_str()), ("1.0.0", "5.0.0"));
    assert_eq!((shown.constraints, shown.acir_opcodes), (2812, 5));
    assert_eq!((shown.witness_time_ms, shown.prove_time_ms), (210, 250));
}
