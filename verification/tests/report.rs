use zkbench::chart::{bar_chart, time_breakdown, BarRow, TimeRow};
use zkbench::double::Double;
use zkbench::measure::Sample;
use zkbench::paint::Hue;
use zkbench::pipeline::Outcome;
use zkbench::report::{
    bench_result, comparison, entry_order, heaviness_ratio, kb_to_mb, kb_to_mb_hundredths,
    result_path, saved_line, summary, CompareEntry,
};

fn outcome(name: &str, constraints: u64, witness: (u64, u64), prove: (u64, u64)) -> Outcome {
    Outcome {
        circuit: name.to_string(),
        backend: "ultra_honk",
        constraints,
        acir_opcodes: 17,
        witness: Sample { time_ms: witness.0, peak_kb: witness.1 },
        prove: Sample { time_ms: prove.0, peak_kb: prove.1 },
        repeats: 3,
        samples_used: 2,
        nargo_version: "1.0.0".to_string(),
        bb_version: "5.0.0".to_string(),
    }
}

fn mb(kb: u64) -> f64 {
    (kb as f64 / 1024.0 * 100.0).round() / 100.0
}

fn hue(code: u32, text: &str) -> String {
    format!("\u{1b}[{code}m{text}\u{1b}[39m")
}

fn chart_in_floats(title: &str, rows: &[(String, f64, String)]) -> Vec<String> {
    if rows.is_empty() {
        return vec![];
    }
    let mut lines = vec![String::new(), format!("\u{1b}[1m{title}\u{1b}[0m")];
    let label_w = rows.iter().map(|r| r.0.chars().count()).max().unwrap_or(0);
    let max_val = rows.iter().map(|r| r.1).fold(0.0_f64, f64::max);
    for row in rows {
        let ratio = if max_val > 0.0 { row.1 / max_val } else { 0.0 };
        let filled = ((ratio * 24f64).round() as usize).min(24);
        let bar = format!("{}{}", "█".repeat(filled), "░".repeat(24 - filled));
        let code = if ratio >= 0.66 {
            31
        } else if ratio >= 0.33 {
            33
        } else {
            32
        };
        lines.push(format!("  {:<label_w$}  {}  {}", row.0, hue(code, &bar), row.2));
    }
    lines
}

fn breakdown_in_floats(rows: &[(String, u64, u64)]) -> Vec<String> {
    if rows.is_empty() {
        return vec![];
    }
    let mut lines = vec![
        String::new(),
        "\u{1b}[1mtime breakdown (witness + prove)\u{1b}[0m".to_string(),
        format!("  {} witness   {} prove", hue(34, "██"), hue(31, "██")),
    ];
    let label_w = rows.iter().map(|(l, _, _)| l.chars().count()).max().unwrap_or(0);
    let max_total = rows.iter().map(|(_, w, p)| w + p).max().unwrap_or(0);
    for (label, w, p) in rows {
        let total = w + p;
        let bar_len = if max_total > 0 {
            (((total as f64) / max_total as f64) * 24f64).round() as usize
        } else {
            0
        };
        let bar_len = bar_len.min(24);
        let witness_len = if total > 0 {
            (((*w as f64) / total as f64) * bar_len as f64).round() as usize
        } else {
            0
        };
        let witness_len = witness_len.min(bar_len);
        lines.push(format!(
            "  {:<label_w$}  {}{}{}  W{}ms P{}ms",
            label,
            hue(34, &"█".repeat(witness_len)),
            hue(31, &"█".repeat(bar_len - witness_len)),
            " ".repeat(24 - bar_len),
            w,
            p,
        ));
    }
    lines
}

fn number(seed: &mut u64) -> u64 {
    *seed = seed.wrapping_mul(6364136223846793005).wrapping_add(1442695040888963407);
    *seed >> 33
}

#[test]
fn megabytes_are_rounded_to_two_decimals() {
    assert_eq!(kb_to_mb_hundredths(0), 0);
    assert_eq!(kb_to_mb_hundredths(1024), 100);
    assert_eq!(kb_to_mb_hundredths(36864), 3600);
    assert_eq!(kb_to_mb_hundredths(5), 0);
    assert_eq!(kb_to_mb_hundredths(6), 1);
    assert_eq!(kb_to_mb_hundredths(128), 13);
    let mut seed = 7;
    for i in 0..5000u64 {
        for kb in [i, number(&mut seed), number(&mut seed) << 20, u64::MAX - i] {
            assert_eq!(kb_to_mb_hundredths(kb) as f64 / 100.0, mb(kb), "{kb}");
            let d = kb_to_mb(kb);
            assert_eq!(d.significand as f64 * 2f64.powi(d.exponent), mb(kb), "{kb}");
        }
    }
}

#[test]
fn bar_charts_match_float_arithmetic() {
    let mut seed = 1;
    for n in 0..200u64 {
        let limit = [3, 49, 100, 5000, u64::MAX][(n % 5) as usize];
        let count = (n % 7) as usize;
        let mut rows = vec![];
        let mut want = vec![];
        for i in 0..count {
            let v = number(&mut seed) % limit;
            let label = "x".repeat(i * 2 + 1);
            let display = format!("{v} ms");
            rows.push(BarRow {
                label: label.clone(),
                value: Double::from_integer(v),
                display: display.clone(),
            });
            want.push((label, v as f64, display));
        }
        assert_eq!(bar_chart("prove time (ms)", &rows), chart_in_floats("prove time (ms)", &want));
    }
}

#[test]
fn memory_charts_match_float_arithmetic() {
    let mut seed = 3;
    for _ in 0..200 {
        let mut rows = vec![];
        let mut want = vec![];
        for i in 0..4 {
            let kb = number(&mut seed) % 300000;
            rows.push(BarRow {
                label: format!("c{i}"),
                value: kb_to_mb(kb),
                display: format!("{:.2} MB", mb(kb)),
            });
            want.push((format!("c{i}"), mb(kb), format!("{:.2} MB", mb(kb))));
        }
        assert_eq!(bar_chart("m", &rows), chart_in_floats("m", &want));
    }
}

#[test]
fn breakdowns_match_float_arithmetic() {
    let mut seed = 5;
    for n in 0..300u64 {
        let limit = [1, 3, 49, 100, 5000][(n % 5) as usize];
        let mut rows = vec![];
        let mut want = vec![];
        for i in 0..(n % 6) {
            let w = number(&mut seed) % limit;
            let p = number(&mut seed) % limit;
            let label = format!("circuit_{}", i * 99);
            rows.push(TimeRow { label: label.clone(), witness_ms: w, prove_ms: p });
            want.push((label, w, p));
        }
        assert_eq!(time_breakdown(&rows), breakdown_in_floats(&want));
    }
}

#[test]
fn largest_bar_is_full_and_zeros_are_empty() {
    let row = |v: u64| BarRow {
        label: "a".to_string(),
        value: Double::from_integer(v),
        display: v.to_string(),
    };
    let lines = bar_chart("t", &vec![row(1), row(u64::MAX)]);
    assert_eq!(lines[3], format!("  a  {}  18446744073709551615", hue(31, &"█".repeat(24))));
    let lines = bar_chart("t", &vec![row(0)]);
    assert_eq!(lines[2], format!("  a  {}  0", hue(32, &"░".repeat(24))));
    assert!(bar_chart("t", &vec![]).is_empty());
    assert!(time_breakdown(&vec![]).is_empty());
}

#[test]
fn summary_of_a_circuit() {
    let s = summary(&outcome("demo", 2812, (200, 36864), (250, 39424)));
    assert_eq!(
        s.heading,
        [
            "",
            "\u{1b}[1m● demo\u{1b}[0m",
            "  backend \u{1b}[2multra_honk\u{1b}[0m   nargo \u{1b}[2m1.0.0\u{1b}[0m   bb \u{1b}[2m5.0.0\u{1b}[0m",
            "  constraints \u{1b}[1m2812\u{1b}[0m   acir_opcodes \u{1b}[1m17\u{1b}[0m   (median of 2 run(s), 3 repeat(s))",
            "",
        ]
    );
    assert_eq!(s.header, ["stage", "wall-clock (ms)", "peak mem (MB)"]);
    assert_eq!(s.rows[0].cells, ["witness", "200", "36.00"]);
    assert_eq!(s.rows[0].hue, None);
    assert_eq!(s.rows[1].cells, ["prove", "250", "38.50"]);
    assert_eq!(s.rows[1].hue, Some(Hue::Yellow));
    assert_eq!(
        s.closing[0],
        hue(33, "→ prove is 1.2x heavier than witness in time (1.1x in memory)")
    );
    let want = chart_in_floats(
        "wall-clock (ms)",
        &[
            ("witness".to_string(), 200.0, "200 ms".to_string()),
            ("prove".to_string(), 250.0, "250 ms".to_string()),
        ],
    );
    assert_eq!(s.closing[1..], want[..]);
}

#[test]
fn prove_is_coloured_by_its_weight() {
    for (witness, prove) in [(100, 200), (0, 2), (1, 2), (3, 6)] {
        let s = summary(&outcome("c", 1, (witness, 0), (prove, 0)));
        assert_eq!(s.rows[1].hue, Some(Hue::Red), "{witness} {prove}");
    }
    for (witness, prove) in [(100, 199), (0, 1), (100, 100)] {
        let s = summary(&outcome("c", 1, (witness, 0), (prove, 0)));
        assert_eq!(s.rows[1].hue, Some(Hue::Yellow), "{witness} {prove}");
    }
    for (witness, prove) in [(100, 99), (0, 0), (1, 0)] {
        let s = summary(&outcome("c", 1, (witness, 0), (prove, 0)));
        assert_eq!(s.rows[1].hue, Some(Hue::Green), "{witness} {prove}");
    }
    let r = heaviness_ratio(&outcome("c", 1, (0, 0), (7, 0)));
    assert_eq!(r, Double::from_integer(7));
}

#[test]
fn comparison_sorts_and_sinks_failures() {
    let entries = vec![
        CompareEntry::Failed { label: "broken".to_string(), error: "compile failed:\nx".to_string() },
        CompareEntry::Measured(outcome("big", 67428, (390, 9), (660, 146432))),
        CompareEntry::Measured(outcome("small", 2812, (210, 9), (250, 36864))),
        CompareEntry::Failed { label: "gone".to_string(), error: "path not found: gone".to_string() },
        CompareEntry::Measured(outcome("twin", 2812, (1, 9), (2, 3))),
    ];
    assert_eq!(entry_order(&entries), [2, 4, 1, 0, 3]);
    let c = comparison(&entries);
    assert_eq!(c.heading, ["", "\u{1b}[1m● circuit comparison\u{1b}[0m"]);
    assert_eq!(c.header, ["circuit", "constraints", "witness (ms)", "prove (ms)", "prove (MB)"]);
    assert_eq!(c.order, [2, 4, 1, 0, 3]);
    assert_eq!(c.rows[0].cells, ["small", "2812", "210", "250", "36.00"]);
    assert_eq!(c.rows[2].cells, ["big", "67428", "390", "660", "143.00"]);
    assert_eq!(c.rows[2].hue, None);
    assert_eq!(c.rows[3].cells, ["broken", "FAILED", "FAILED", "FAILED", "FAILED"]);
    assert_eq!(c.rows[4].hue, Some(Hue::Red));
    let measured = [("small", 210, 250, 36864), ("twin", 1, 2, 3), ("big", 390, 660, 146432)];
    let mut want = vec![];
    let times: Vec<_> = measured
        .iter()
        .map(|m| (m.0.to_string(), m.2 as f64, format!("{} ms", m.2)))
        .collect();
    want.extend(chart_in_floats("prove time (ms)", &times));
    let mems: Vec<_> = measured
        .iter()
        .map(|m| (m.0.to_string(), mb(m.3), format!("{:.2} MB", mb(m.3))))
        .collect();
    want.extend(chart_in_floats("prove memory (MB)", &mems));
    let parts: Vec<_> = measured.iter().map(|m| (m.0.to_string(), m.1, m.2)).collect();
    want.extend(breakdown_in_floats(&parts));
    let failed = "\u{1b}[1m\u{1b}[31mFAILED\u{1b}[39m\u{1b}[0m";
    want.push(format!("{failed} broken: compile failed:\nx"));
    want.push(format!("{failed} gone: path not found: gone"));
    assert_eq!(c.closing, want);
}

#[test]
fn comparison_of_failures_has_no_charts() {
    let entries =
        vec![CompareEntry::Failed { label: "a".to_string(), error: "e".to_string() }];
    let c = comparison(&entries);
    assert_eq!(c.closing.len(), 1);
    assert!(comparison(&vec![]).rows.is_empty());
}

#[test]
fn results_keep_raw_and_rounded_memory() {
    let r = bench_result(&outcome("demo", 5, (10, 1030), (20, 2048)), "2026-01-02T03:04:05+00:00");
    assert_eq!(r.circuit, "demo");
    assert_eq!(r.backend, "ultra_honk");
    assert_eq!(r.timestamp, "2026-01-02T03:04:05+00:00");
    assert_eq!((r.repeats, r.samples_used), (3, 2));
    assert_eq!((r.nargo_version.as_str(), r.bb_version.as_str()), ("1.0.0", "5.0.0"));
    assert_eq!((r.constraints, r.acir_opcodes), (5, 17));
    assert_eq!((r.witness_time_ms, r.prove_time_ms), (10, 20));
    assert_eq!((r.witness_mb_hundredths, r.prove_mb_hundredths), (101, 200));
    assert_eq!((r.witness_kb, r.prove_kb), (1030, 2048));
}

#[test]
fn results_are_saved_where_reports_look() {
    let path = result_path("demo", "20260102T030405");
    assert_eq!(path, "results/demo_20260102T030405.json");
    assert!(zkbench::path::has_json_extension(&path));
    assert_eq!(saved_line(&path), format!("\u{1b}[2msaved:\u{1b}[0m {path}"));
}
