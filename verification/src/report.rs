//! Human-facing output, and what is persisted of an outcome.
//!
//! Everything that is shown is computed here as text, down to its colours; only the frames of the
//! tables are drawn elsewhere, since they follow the width of the terminal.
use crate::chart::{
    bar_chart, bar_lines, bars, time_breakdown, time_lines, total, Bar, BarRow, TimeRow,
};
use crate::double::{
    at_least, in_units, law_nearest_errs_by_half_a_unit, lemma_at_least, lemma_nearest_positive,
    lemma_power_order, lemma_powers, lemma_rounded_bound, lemma_scaled, moderate, nearest, normal,
    product, quotient, rounded, scaled, Double, LEAST, LIMIT,
};
use crate::order::{goes_before, lists_in_order, stable_order};
use crate::paint::{bold, bold_text, dimmed, dimmed_text, paint, painted, red, red_text, Hue};
use crate::path::{final_name, join, joined, lemma_last_piece, named_json};
use crate::pipeline::Outcome;
use crate::precision::{
    law_nearest_scales, law_quotient_of_small_integers, law_small_integers_are_exact,
    law_threshold_is_exact, lemma_half_even_near, lemma_rounded_invariant,
};
use crate::text::{
    decimal, decimal_hundredths, decimal_tenths, digits, hundredths_text, tenths_text,
};
use crate::tools::texts;
use vstd::arithmetic::power2::pow2;
use vstd::prelude::*;

verus! {

/// One row of the comparison table: either a measured circuit or one that
/// failed (compile error, missing folder, …) and could not be measured.
#[derive(Debug)]
pub enum CompareEntry {
    Measured(Outcome),
    Failed { label: String, error: String },
}

/// 1024 as a double.
pub open spec fn kib() -> (nat, int) {
    (LEAST as nat, -42)
}

/// 1 as a double.
pub open spec fn one() -> (nat, int) {
    (LEAST as nat, -52)
}

/// 2 as a double.
pub open spec fn two() -> (nat, int) {
    (LEAST as nat, -51)
}

/// KB in hundredths of MB, to the nearest hundredth.
pub open spec fn mb_hundredths(kb: u64) -> nat {
    rounded(product(quotient(nearest(kb as nat, 1), kib()), 100))
}

/// KB in MB, rounded to two decimals.
pub open spec fn mb(kb: u64) -> (nat, int) {
    nearest(mb_hundredths(kb), 100)
}

/// KB in MB, as text with two decimals.
pub open spec fn mb_text(kb: u64) -> Seq<char> {
    hundredths_text(in_units(mb(kb), 100))
}

/// How many times `part` is `base`; a base of zero counts as one.
pub open spec fn ratio(part: u64, base: u64) -> (nat, int) {
    quotient(
        nearest(part as nat, 1),
        nearest(
            if base > 1 {
                base as nat
            } else {
                1
            },
            1,
        ),
    )
}

/// The colour of the prove stage, by how heavy it is relative to witness.
pub open spec fn prove_hue(ratio: (nat, int)) -> Hue {
    if at_least(ratio, two()) {
        Hue::Red
    } else if at_least(ratio, one()) {
        Hue::Yellow
    } else {
        Hue::Green
    }
}

/// KB in hundredths of MB, to the nearest hundredth.
pub fn kb_to_mb_hundredths(kb: u64) -> (r: u128)
    ensures
        r == mb_hundredths(kb),
        r < 0x80_0000_0000_0000_0000_0000_0000_0000,
{
    let x = Double::from_integer(kb).over(Double { significand: LEAST, exponent: -42 }).times(100);
    proof {
        lemma_rounded_bound(x@, 63);
    }
    x.round()
}

/// KB -> MB with two-decimal rounding.
pub fn kb_to_mb(kb: u64) -> (r: Double)
    ensures
        r@ == mb(kb),
        moderate(r@),
        r.exponent <= 67,
{
    Double::from_fraction(kb_to_mb_hundredths(kb), 100)
}

fn mb_display(kb: u64) -> (r: String)
    ensures
        r@ == mb_text(kb),
{
    decimal_hundredths(kb_to_mb(kb).to_units(100))
}

fn ratio_of(part: u64, base: u64) -> (r: Double)
    ensures
        r@ == ratio(part, base),
        normal(r@),
        r.exponent <= 65,
{
    let base = if base > 1 {
        base
    } else {
        1
    };
    Double::from_integer(part).over(Double::from_integer(base))
}

/// Time heaviness of prove relative to witness (guarded against divide-by-zero).
pub fn heaviness_ratio(o: &Outcome) -> (r: Double)
    ensures
        r@ == ratio(o.prove.time_ms, o.witness.time_ms),
        normal(r@),
        r.exponent <= 65,
{
    ratio_of(o.prove.time_ms, o.witness.time_ms)
}

fn hue_of(ratio: Double) -> (r: Hue)
    requires
        normal(ratio@),
    ensures
        r == prove_hue(ratio@),
{
    if ratio.reaches(Double { significand: LEAST, exponent: -51 }) {
        Hue::Red
    } else if ratio.reaches(Double { significand: LEAST, exponent: -52 }) {
        Hue::Yellow
    } else {
        Hue::Green
    }
}

/// The colour tells the truth: for times below 2^53 milliseconds the prove stage is red exactly
/// where it takes at least twice as long as witness, yellow where it takes as long but not twice
/// as long, and green where it takes less. A witness time of zero counts as one.
pub proof fn law_prove_hue_is_exact(prove: u64, witness: u64)
    requires
        prove < LIMIT,
        witness < LIMIT,
    ensures
        ({
            let base = if witness > 1 {
                witness
            } else {
                1
            };
            let hue = prove_hue(ratio(prove, witness));
            &&& hue == Hue::Red <==> prove >= 2 * base
            &&& hue == Hue::Yellow <==> base <= prove < 2 * base
            &&& hue == Hue::Green <==> prove < base
        }),
{
    let base: nat = if witness > 1 {
        witness as nat
    } else {
        1
    };
    lemma_powers();
    if prove == 0 {
        lemma_at_least(ratio(prove, witness), two());
        lemma_at_least(ratio(prove, witness), one());
    } else {
        law_quotient_of_small_integers(prove as nat, base);
        law_threshold_is_exact(prove as nat, base, 0);
        law_threshold_is_exact(prove as nat, base, 1);
        assert(base * pow2(0) == base && base * pow2(1) == 2 * base) by (nonlinear_arith)
            requires
                pow2(0) == 1,
                pow2(1) == 2,
        ;
    }
}

/// Memory is rounded to the nearest hundredth of a MB, halves up, and shown as such: for less
/// than 2^46 KB neither the arithmetic nor the text loses anything.
pub proof fn law_mb_is_the_nearest_hundredth(kb: u64)
    requires
        kb < 0x4000_0000_0000,
    ensures
        mb_hundredths(kb) == (kb * 100 + 512) / 1024,
        mb_text(kb) == hundredths_text(mb_hundredths(kb)),
{
    lemma_powers();
    vstd::arithmetic::power2::lemma2_to64();
    vstd::arithmetic::power2::lemma2_to64_rest();
    if kb > 0 {
        let n = kb as nat;
        let x = nearest(n, 1);
        law_small_integers_are_exact(n);
        lemma_nearest_positive(n, 1);
        let i = (-x.1) as nat;
        // Dividing by 1024 moves the exponent.
        law_nearest_scales(x.0, 1, 52);
        law_small_integers_are_exact(x.0);
        let y = nearest(x.0, 1);
        if y.1 < 0 {
            lemma_power_order(1, (-y.1) as nat);
            let w = pow2((-y.1) as nat);
            assert(x.0 * w >= 2 * x.0) by (nonlinear_arith)
                requires
                    w >= 2,
            ;
        }
        assert(1 * pow2(52) == LEAST);
        assert(x.0 * 1 == x.0);
        assert(quotient(x, kib()) == (x.0, x.1 - 10));
        // So does multiplying by a hundred, up to the new significand.
        let z = nearest(n * 100, 1);
        law_nearest_scales(n * 100, 1, i);
        law_small_integers_are_exact(n * 100);
        lemma_nearest_positive(n * 100, 1);
        assert(x.0 * 100 == (n * 100) * pow2(i)) by (nonlinear_arith)
            requires
                x.0 == n * pow2(i),
        ;
        assert(product((x.0, x.1 - 10), 100) == (z.0, z.1 - 10));
        lemma_rounded_invariant(n * 100, -10, (-z.1) as nat);
        assert(mb_hundredths(kb) == rounded((n * 100, -10int)));
        assert(pow2(10) == 1024);
        assert((2 * (n * 100) + 1024) / 2048 == (n * 100 + 512) / 1024);
    } else {
        assert(0nat * 100 == 0);
        assert(0nat * pow2(0) == 0);
    }
    let h = mb_hundredths(kb);
    if h > 0 {
        law_nearest_errs_by_half_a_unit(h, 100);
        lemma_scaled(h, 100, 0);
        let x = nearest(h, 100);
        let s = scaled(h, 100, 0);
        assert(s.2 < -10) by {
            if s.2 >= -10 {
                let k = (-s.2) as nat;
                assert(s.2 <= 0);
                lemma_power_order(k, 10);
                assert(h * pow2(k) < 100 * LEAST) by (nonlinear_arith)
                    requires
                        h < 0x800_0000_0000,
                        pow2(k) <= 1024,
                        LEAST == 0x10_0000_0000_0000,
                ;
            }
        }
        let p = pow2((-x.1) as nat);
        lemma_power_order(10, (-x.1) as nat);
        lemma_half_even_near(x.0 * 100, p, h);
    } else {
        assert(0nat * 100 == 0);
        assert(0nat * pow2(0) == 0);
    }
}

/// A row of a table: its cells and, where it has one, its colour.
#[derive(Debug)]
pub struct Row {
    pub cells: Vec<String>,
    pub hue: Option<Hue>,
}

/// Whether a row has the given cells and colour.
pub open spec fn is_row(row: Row, cells: Seq<Seq<char>>, hue: Option<Hue>) -> bool {
    texts(row.cells@) == cells && row.hue == hue
}

/// The report of one circuit: lines, a table, lines.
#[derive(Debug)]
pub struct Summary {
    pub heading: Vec<String>,
    pub header: Vec<String>,
    pub rows: Vec<Row>,
    pub closing: Vec<String>,
}

/// The lines above the table of a circuit.
pub open spec fn summary_heading(o: Outcome) -> Seq<Seq<char>> {
    seq![
        ""@,
        bold_text("● "@ + o.circuit@),
        "  backend "@ + dimmed_text(o.backend@) + "   nargo "@ + dimmed_text(o.nargo_version@)
            + "   bb "@ + dimmed_text(o.bb_version@),
        "  constraints "@ + bold_text(digits(o.constraints as nat)) + "   acir_opcodes "@
            + bold_text(digits(o.acir_opcodes as nat)) + "   (median of "@ + digits(
            o.samples_used as nat,
        ) + " run(s), "@ + digits(o.repeats as nat) + " repeat(s))"@,
        ""@,
    ]
}

/// The one-line interpretation of an outcome.
pub open spec fn interpretation(o: Outcome) -> Seq<char> {
    "→ prove is "@ + tenths_text(in_units(ratio(o.prove.time_ms, o.witness.time_ms), 10))
        + "x heavier than witness in time ("@ + tenths_text(
        in_units(ratio(o.prove.peak_kb, o.witness.peak_kb), 10),
    ) + "x in memory)"@
}

/// The bar of a time.
pub open spec fn time_bar(label: Seq<char>, ms: u64) -> Bar {
    Bar { label, value: nearest(ms as nat, 1), display: digits(ms as nat) + " ms"@ }
}

/// The colour of the prove stage of an outcome.
pub open spec fn outcome_hue(o: Outcome) -> Hue {
    prove_hue(ratio(o.prove.time_ms, o.witness.time_ms))
}

/// The lines below the table of a circuit.
pub open spec fn summary_closing(o: Outcome) -> Seq<Seq<char>> {
    seq![painted(outcome_hue(o), interpretation(o))] + bar_lines(
        "wall-clock (ms)"@,
        seq![time_bar("witness"@, o.witness.time_ms), time_bar("prove"@, o.prove.time_ms)],
    )
}

fn time_row(label: &str, ms: u64) -> (r: BarRow)
    ensures
        r@ == time_bar(label@, ms),
        moderate(r.value@),
{
    BarRow {
        label: String::from_str(label),
        value: Double::from_integer(ms),
        display: decimal(ms as u128).concat(" ms"),
    }
}

fn heading_of(o: &Outcome) -> (r: Vec<String>)
    ensures
        texts(r@) == summary_heading(*o),
{
    let title = bold(&String::from_str("● ").concat(&o.circuit));
    let mut tools = String::from_str("  backend ");
    tools.append(&dimmed(o.backend));
    tools.append("   nargo ");
    tools.append(&dimmed(&o.nargo_version));
    tools.append("   bb ");
    tools.append(&dimmed(&o.bb_version));
    let mut size = String::from_str("  constraints ");
    size.append(&bold(&decimal(o.constraints as u128)));
    size.append("   acir_opcodes ");
    size.append(&bold(&decimal(o.acir_opcodes as u128)));
    size.append("   (median of ");
    size.append(&decimal(o.samples_used as u128));
    size.append(" run(s), ");
    size.append(&decimal(o.repeats as u128));
    size.append(" repeat(s))");
    let r = vec![String::from_str(""), title, tools, size, String::from_str("")];
    assert(texts(r@) =~= summary_heading(*o));
    r
}

/// The full report of a circuit: header, facts, per-stage table, one interpretation line, and a
/// small witness-vs-prove bar chart.
pub fn summary(o: &Outcome) -> (r: Summary)
    ensures
        texts(r.heading@) == summary_heading(*o),
        texts(r.header@) == seq!["stage"@, "wall-clock (ms)"@, "peak mem (MB)"@],
        r.rows@.len() == 2,
        is_row(
            r.rows@[0],
            seq!["witness"@, digits(o.witness.time_ms as nat), mb_text(o.witness.peak_kb)],
            None,
        ),
        is_row(
            r.rows@[1],
            seq!["prove"@, digits(o.prove.time_ms as nat), mb_text(o.prove.peak_kb)],
            Some(outcome_hue(*o)),
        ),
        texts(r.closing@) == summary_closing(*o),
{
    let ratio = heaviness_ratio(o);
    let hue = hue_of(ratio);
    let header = vec![
        String::from_str("stage"),
        String::from_str("wall-clock (ms)"),
        String::from_str("peak mem (MB)"),
    ];
    assert(texts(header@) =~= seq!["stage"@, "wall-clock (ms)"@, "peak mem (MB)"@]);
    let witness = vec![
        String::from_str("witness"),
        decimal(o.witness.time_ms as u128),
        mb_display(o.witness.peak_kb),
    ];
    assert(texts(witness@) =~= seq![
        "witness"@,
        digits(o.witness.time_ms as nat),
        mb_text(o.witness.peak_kb),
    ]);
    let prove = vec![
        String::from_str("prove"),
        decimal(o.prove.time_ms as u128),
        mb_display(o.prove.peak_kb),
    ];
    assert(texts(prove@) =~= seq![
        "prove"@,
        digits(o.prove.time_ms as nat),
        mb_text(o.prove.peak_kb),
    ]);
    let mem_ratio = ratio_of(o.prove.peak_kb, o.witness.peak_kb);
    let mut line = String::from_str("→ prove is ");
    line.append(&decimal_tenths(ratio.to_units(10)));
    line.append("x heavier than witness in time (");
    line.append(&decimal_tenths(mem_ratio.to_units(10)));
    line.append("x in memory)");
    let split = vec![
        time_row("witness", o.witness.time_ms),
        time_row("prove", o.prove.time_ms),
    ];
    assert(bars(split@) =~= seq![
        time_bar("witness"@, o.witness.time_ms),
        time_bar("prove"@, o.prove.time_ms),
    ]);
    let mut chart = bar_chart("wall-clock (ms)", &split);
    let mut closing = vec![paint(hue, &line)];
    let ghost first = closing@;
    let ghost rest = chart@;
    closing.append(&mut chart);
    assert(texts(closing@) =~= texts(first) + texts(rest));
    assert(texts(first) =~= seq![painted(outcome_hue(*o), interpretation(*o))]);
    Summary {
        heading: heading_of(o),
        header,
        rows: vec![Row { cells: witness, hue: None }, Row { cells: prove, hue: Some(hue) }],
        closing,
    }
}

/// The line that tells where a result was written.
pub open spec fn saved_text(path: Seq<char>) -> Seq<char> {
    dimmed_text("saved:"@) + " "@ + path
}

/// The line that tells where a result was written.
pub fn saved_line(path: &str) -> (r: String)
    ensures
        r@ == saved_text(path@),
{
    let mut r = dimmed("saved:");
    r.append(" ");
    r.append(path);
    r
}

/// What a row of the comparison is ordered by: constraints, and failures after everything else.
pub open spec fn entry_key(e: CompareEntry) -> u128 {
    match e {
        CompareEntry::Measured(o) => o.constraints as u128,
        CompareEntry::Failed { .. } => 0x1_0000_0000_0000_0000,
    }
}

/// What the rows of the comparison are ordered by.
pub open spec fn entry_keys(entries: Seq<CompareEntry>) -> Seq<u128> {
    entries.map_values(|e: CompareEntry| entry_key(e))
}

/// Whether a row shows an entry.
pub open spec fn shows(row: Row, e: CompareEntry) -> bool {
    match e {
        CompareEntry::Measured(o) => is_row(
            row,
            seq![
                o.circuit@,
                digits(o.constraints as nat),
                digits(o.witness.time_ms as nat),
                digits(o.prove.time_ms as nat),
                mb_text(o.prove.peak_kb),
            ],
            None,
        ),
        CompareEntry::Failed { label, .. } => is_row(
            row,
            seq![label@, "FAILED"@, "FAILED"@, "FAILED"@, "FAILED"@],
            Some(Hue::Red),
        ),
    }
}

/// The outcomes among the entries at the given places, in the order of the places.
pub open spec fn measured_at(entries: Seq<CompareEntry>, places: Seq<usize>) -> Seq<Outcome>
    decreases places.len(),
{
    if places.len() == 0 {
        Seq::empty()
    } else {
        let before = measured_at(entries, places.drop_last());
        match entries[places.last() as int] {
            CompareEntry::Measured(o) => before.push(o),
            CompareEntry::Failed { .. } => before,
        }
    }
}

/// The bars of proving time.
pub open spec fn prove_time_bars(outcomes: Seq<Outcome>) -> Seq<Bar> {
    outcomes.map_values(|o: Outcome| time_bar(o.circuit@, o.prove.time_ms))
}

/// The bar of the memory of a circuit.
pub open spec fn memory_bar(o: Outcome) -> Bar {
    Bar {
        label: o.circuit@,
        value: mb(o.prove.peak_kb),
        display: mb_text(o.prove.peak_kb) + " MB"@,
    }
}

/// The bars of proving memory.
pub open spec fn prove_memory_bars(outcomes: Seq<Outcome>) -> Seq<Bar> {
    outcomes.map_values(|o: Outcome| memory_bar(o))
}

/// How the time of a circuit splits.
pub open spec fn split_of(o: Outcome) -> TimeRow {
    TimeRow { label: o.circuit, witness_ms: o.witness.time_ms, prove_ms: o.prove.time_ms }
}

/// How the time of each circuit splits.
pub open spec fn splits(outcomes: Seq<Outcome>) -> Seq<TimeRow> {
    outcomes.map_values(|o: Outcome| split_of(o))
}

/// The line that details a failure.
pub open spec fn failure_line(label: Seq<char>, error: Seq<char>) -> Seq<char> {
    bold_text(red_text("FAILED"@)) + " "@ + label + ": "@ + error
}

/// The lines that detail the failures, in the order of the entries.
pub open spec fn failure_lines(entries: Seq<CompareEntry>) -> Seq<Seq<char>>
    decreases entries.len(),
{
    if entries.len() == 0 {
        Seq::empty()
    } else {
        let before = failure_lines(entries.drop_last());
        match entries.last() {
            CompareEntry::Measured(_) => before,
            CompareEntry::Failed { label, error } => before.push(failure_line(label@, error@)),
        }
    }
}

/// The charts of measured circuits.
pub open spec fn chart_lines(outcomes: Seq<Outcome>) -> Seq<Seq<char>> {
    bar_lines("prove time (ms)"@, prove_time_bars(outcomes)) + bar_lines(
        "prove memory (MB)"@,
        prove_memory_bars(outcomes),
    ) + time_lines(splits(outcomes))
}

/// Several circuits side by side: lines, a table, lines.
#[derive(Debug)]
pub struct Comparison {
    pub heading: Vec<String>,
    pub header: Vec<String>,
    /// Which entry each row shows.
    pub order: Vec<usize>,
    pub rows: Vec<Row>,
    pub closing: Vec<String>,
}

fn entry_row(e: &CompareEntry) -> (r: Row)
    ensures
        shows(r, *e),
{
    match e {
        CompareEntry::Measured(o) => {
            let cells = vec![
                o.circuit.clone(),
                decimal(o.constraints as u128),
                decimal(o.witness.time_ms as u128),
                decimal(o.prove.time_ms as u128),
                mb_display(o.prove.peak_kb),
            ];
            assert(texts(cells@) =~= seq![
                o.circuit@,
                digits(o.constraints as nat),
                digits(o.witness.time_ms as nat),
                digits(o.prove.time_ms as nat),
                mb_text(o.prove.peak_kb),
            ]);
            Row { cells, hue: None }
        },
        CompareEntry::Failed { label, .. } => {
            let cells = vec![
                label.clone(),
                String::from_str("FAILED"),
                String::from_str("FAILED"),
                String::from_str("FAILED"),
                String::from_str("FAILED"),
            ];
            assert(texts(cells@) =~= seq![
                label@,
                "FAILED"@,
                "FAILED"@,
                "FAILED"@,
                "FAILED"@,
            ]);
            Row { cells, hue: Some(Hue::Red) }
        },
    }
}

/// The order in which entries are shown: by ascending constraints, failures last.
pub fn entry_order(entries: &Vec<CompareEntry>) -> (r: Vec<usize>)
    ensures
        lists_in_order(entry_keys(entries@), r@, entries@.len() as int),
{
    let mut keys: Vec<u128> = Vec::new();
    let mut i: usize = 0;
    while i < entries.len()
        invariant
            i <= entries.len(),
            keys@ == entry_keys(entries@.take(i as int)),
        decreases entries.len() - i,
    {
        let key: u128 = match &entries[i] {
            CompareEntry::Measured(o) => o.constraints as u128,
            CompareEntry::Failed { .. } => 0x1_0000_0000_0000_0000,
        };
        keys.push(key);
        assert(keys@ =~= entry_keys(entries@.take(i + 1)));
        i = i + 1;
    }
    assert(entries@.take(i as int) == entries@);
    stable_order(&keys)
}

fn chart_block(entries: &Vec<CompareEntry>, order: &Vec<usize>) -> (r: Vec<String>)
    requires
        forall|i: int| 0 <= i < order@.len() ==> #[trigger] order@[i] < entries@.len(),
        forall|i: int|
            0 <= i < entries@.len() ==> (#[trigger] entries@[i] matches CompareEntry::Measured(o)
                ==> total(split_of(o)) <= u64::MAX),
    ensures
        texts(r@) == chart_lines(measured_at(entries@, order@)),
{
    let mut times: Vec<BarRow> = Vec::new();
    let mut mems: Vec<BarRow> = Vec::new();
    let mut parts: Vec<TimeRow> = Vec::new();
    let mut i: usize = 0;
    while i < order.len()
        invariant
            i <= order.len(),
            forall|k: int| 0 <= k < order@.len() ==> #[trigger] order@[k] < entries@.len(),
            forall|k: int|
                0 <= k < entries@.len() ==> (#[trigger] entries@[k] matches CompareEntry::Measured(
                    o,
                ) ==> total(split_of(o)) <= u64::MAX),
            ({
                let m = measured_at(entries@, order@.take(i as int));
                &&& bars(times@) == prove_time_bars(m)
                &&& bars(mems@) == prove_memory_bars(m)
                &&& parts@ == splits(m)
            }),
            forall|k: int| 0 <= k < times@.len() ==> moderate(#[trigger] times@[k].value@),
            forall|k: int| 0 <= k < mems@.len() ==> moderate(#[trigger] mems@[k].value@),
            forall|k: int| 0 <= k < parts@.len() ==> total(#[trigger] parts@[k]) <= u64::MAX,
        decreases order.len() - i,
    {
        let ghost m = measured_at(entries@, order@.take(i as int));
        let ghost times_before = times@;
        let ghost mems_before = mems@;
        assert(order@.take(i + 1).drop_last() == order@.take(i as int));
        match &entries[order[i]] {
            CompareEntry::Measured(o) => {
                times.push(time_row(&o.circuit, o.prove.time_ms));
                mems.push(
                    BarRow {
                        label: o.circuit.clone(),
                        value: kb_to_mb(o.prove.peak_kb),
                        display: mb_display(o.prove.peak_kb).concat(" MB"),
                    },
                );
                parts.push(
                    TimeRow {
                        label: o.circuit.clone(),
                        witness_ms: o.witness.time_ms,
                        prove_ms: o.prove.time_ms,
                    },
                );
                proof {
                    let time = time_bar(o.circuit@, o.prove.time_ms);
                    assert(bars(times@) =~= bars(times_before).push(time));
                    assert(prove_time_bars(m.push(*o)) =~= prove_time_bars(m).push(time));
                    assert(bars(mems@) =~= bars(mems_before).push(memory_bar(*o)));
                    assert(prove_memory_bars(m.push(*o)) =~= prove_memory_bars(m).push(
                        memory_bar(*o),
                    ));
                }
                assert(parts@ =~= splits(m.push(*o)));
            },
            CompareEntry::Failed { .. } => {},
        }
        i = i + 1;
    }
    assert(order@.take(i as int) == order@);
    let mut r = bar_chart("prove time (ms)", &times);
    let mut memory = bar_chart("prove memory (MB)", &mems);
    let mut split = time_breakdown(&parts);
    let ghost a = r@;
    let ghost b = memory@;
    let ghost c = split@;
    r.append(&mut memory);
    r.append(&mut split);
    assert(texts(r@) =~= texts(a) + texts(b) + texts(c));
    r
}

fn failure_block(entries: &Vec<CompareEntry>) -> (r: Vec<String>)
    ensures
        texts(r@) == failure_lines(entries@),
{
    let mut r: Vec<String> = Vec::new();
    let mut i: usize = 0;
    assert(texts(r@) =~= failure_lines(entries@.take(0)));
    while i < entries.len()
        invariant
            i <= entries.len(),
            texts(r@) == failure_lines(entries@.take(i as int)),
        decreases entries.len() - i,
    {
        let ghost before = r@;
        assert(entries@.take(i + 1).drop_last() == entries@.take(i as int));
        match &entries[i] {
            CompareEntry::Measured(_) => {},
            CompareEntry::Failed { label, error } => {
                let mut line = bold(&red("FAILED"));
                line.append(" ");
                line.append(label);
                line.append(": ");
                line.append(error);
                r.push(line);
                assert(texts(r@) =~= texts(before).push(failure_line(label@, error@)));
            },
        }
        i = i + 1;
    }
    assert(entries@.take(i as int) == entries@);
    r
}

/// All circuits side by side. Rows are sorted by constraint count ascending;
/// failed circuits sink to the bottom and show "FAILED", with the underlying
/// error detailed beneath the table. Bar charts of the measured circuits, in the
/// order of the table, make the relative magnitudes easy to eyeball.
pub fn comparison(entries: &Vec<CompareEntry>) -> (r: Comparison)
    requires
        forall|i: int|
            0 <= i < entries@.len() ==> (#[trigger] entries@[i] matches CompareEntry::Measured(o)
                ==> total(split_of(o)) <= u64::MAX),
    ensures
        texts(r.heading@) == seq![""@, bold_text("● circuit comparison"@)],
        texts(r.header@) == seq![
            "circuit"@,
            "constraints"@,
            "witness (ms)"@,
            "prove (ms)"@,
            "prove (MB)"@,
        ],
        lists_in_order(entry_keys(entries@), r.order@, entries@.len() as int),
        r.rows@.len() == entries@.len(),
        forall|i: int|
            0 <= i < r.rows@.len() ==> shows(#[trigger] r.rows@[i], entries@[r.order@[i] as int]),
        texts(r.closing@) == chart_lines(measured_at(entries@, r.order@)) + failure_lines(entries@),
{
    let heading = vec![String::from_str(""), bold("● circuit comparison")];
    assert(texts(heading@) =~= seq![""@, bold_text("● circuit comparison"@)]);
    let header = vec![
        String::from_str("circuit"),
        String::from_str("constraints"),
        String::from_str("witness (ms)"),
        String::from_str("prove (ms)"),
        String::from_str("prove (MB)"),
    ];
    assert(texts(header@) =~= seq![
        "circuit"@,
        "constraints"@,
        "witness (ms)"@,
        "prove (ms)"@,
        "prove (MB)"@,
    ]);
    let order = entry_order(entries);
    let mut rows: Vec<Row> = Vec::new();
    let mut i: usize = 0;
    while i < order.len()
        invariant
            i <= order.len(),
            lists_in_order(entry_keys(entries@), order@, entries@.len() as int),
            rows@.len() == i,
            forall|k: int|
                0 <= k < i ==> shows(#[trigger] rows@[k], entries@[order@[k] as int]),
        decreases order.len() - i,
    {
        rows.push(entry_row(&entries[order[i]]));
        i = i + 1;
    }
    let mut closing = chart_block(entries, &order);
    let mut failures = failure_block(entries);
    let ghost a = closing@;
    let ghost b = failures@;
    closing.append(&mut failures);
    assert(texts(closing@) =~= texts(a) + texts(b));
    Comparison { heading, header, order, rows, closing }
}

/// Rows of the comparison ascend by constraint count, and failed circuits stand below all
/// others.
pub proof fn law_comparison_order(entries: Seq<CompareEntry>, order: Seq<usize>, i: int, j: int)
    requires
        lists_in_order(entry_keys(entries), order, entries.len() as int),
        0 <= i < j < order.len(),
    ensures
        entries[order[i] as int] is Failed ==> entries[order[j] as int] is Failed,
        (entries[order[i] as int], entries[order[j] as int]) matches (
            CompareEntry::Measured(a),
            CompareEntry::Measured(b),
        ) ==> a.constraints <= b.constraints,
{
    let keys = entry_keys(entries);
    assert(goes_before(keys, order[i] as int, order[j] as int));
}

/// What is persisted of an outcome. Raw KB values are retained alongside the MB values, which are
/// counted in hundredths.
#[derive(Debug)]
pub struct BenchResult {
    pub circuit: String,
    pub backend: String,
    pub timestamp: String,
    pub repeats: usize,
    pub samples_used: usize,
    pub nargo_version: String,
    pub bb_version: String,
    pub constraints: u64,
    pub acir_opcodes: u64,
    pub witness_time_ms: u64,
    pub prove_time_ms: u64,
    pub witness_mb_hundredths: u128,
    pub prove_mb_hundredths: u128,
    pub witness_kb: u64,
    pub prove_kb: u64,
}

/// Whether `r` is what is persisted of an outcome that was saved at the given time.
pub open spec fn persists(r: BenchResult, o: Outcome, timestamp: Seq<char>) -> bool {
    &&& r.circuit@ == o.circuit@
    &&& r.backend@ == o.backend@
    &&& r.timestamp@ == timestamp
    &&& r.repeats == o.repeats
    &&& r.samples_used == o.samples_used
    &&& r.nargo_version@ == o.nargo_version@
    &&& r.bb_version@ == o.bb_version@
    &&& r.constraints == o.constraints
    &&& r.acir_opcodes == o.acir_opcodes
    &&& r.witness_time_ms == o.witness.time_ms
    &&& r.prove_time_ms == o.prove.time_ms
    &&& r.witness_mb_hundredths == mb_hundredths(o.witness.peak_kb)
    &&& r.prove_mb_hundredths == mb_hundredths(o.prove.peak_kb)
    &&& r.witness_kb == o.witness.peak_kb
    &&& r.prove_kb == o.prove.peak_kb
}

/// What is persisted of an outcome.
pub fn bench_result(o: &Outcome, timestamp: &str) -> (r: BenchResult)
    ensures
        persists(r, *o, timestamp@),
{
    BenchResult {
        circuit: o.circuit.clone(),
        backend: String::from_str(o.backend),
        timestamp: String::from_str(timestamp),
        repeats: o.repeats,
        samples_used: o.samples_used,
        nargo_version: o.nargo_version.clone(),
        bb_version: o.bb_version.clone(),
        constraints: o.constraints,
        acir_opcodes: o.acir_opcodes,
        witness_time_ms: o.witness.time_ms,
        prove_time_ms: o.prove.time_ms,
        witness_mb_hundredths: kb_to_mb_hundredths(o.witness.peak_kb),
        prove_mb_hundredths: kb_to_mb_hundredths(o.prove.peak_kb),
        witness_kb: o.witness.peak_kb,
        prove_kb: o.prove.peak_kb,
    }
}

/// The directory that results go to, relative to the current one.
pub const RESULTS_DIR: &'static str = "results";

/// The name of the file of a result: `<circuit>_<stamp>.json`.
pub open spec fn result_name(circuit: Seq<char>, stamp: Seq<char>) -> Seq<char> {
    circuit + "_"@ + stamp + ".json"@
}

/// Where the result of a circuit goes: `results/<circuit>_<stamp>.json`.
pub open spec fn result_location(circuit: Seq<char>, stamp: Seq<char>) -> Seq<char> {
    joined(RESULTS_DIR@, result_name(circuit, stamp))
}

/// What is saved lies where a report looks: directly in the results directory, in a file with the
/// extension that a report reads. A name with a `/` in it would lead out of that directory.
pub proof fn law_saved_result_is_found(circuit: Seq<char>, stamp: Seq<char>)
    requires
        !result_name(circuit, stamp).contains('/'),
    ensures
        result_location(circuit, stamp) == RESULTS_DIR@ + "/"@ + result_name(circuit, stamp),
        final_name(result_location(circuit, stamp)) == Some(result_name(circuit, stamp)),
        named_json(result_location(circuit, stamp)),
{
    reveal_strlit("_");
    reveal_strlit(".json");
    reveal_strlit("results");
    reveal_strlit("/");
    let name = result_name(circuit, stamp);
    let path = result_location(circuit, stamp);
    assert(name.contains(name[0]));
    assert(path =~= RESULTS_DIR@ + "/"@ + name);
    assert forall|i: int| 8 <= i < path.len() implies path[i] != '/' by {
        assert(path[i] == name[i - 8]);
        assert(name.contains(name[i - 8]));
    }
    lemma_last_piece(path, 8);
    assert(path.skip(8) =~= name);
    let end = seq!['.', 'j', 's', 'o', 'n'];
    assert(name.skip(name.len() - 5) =~= end);
}

/// Where the result of a circuit goes.
pub fn result_path(circuit: &str, stamp: &str) -> (r: String)
    ensures
        r@ == result_location(circuit@, stamp@),
{
    let mut name = String::from_str(circuit);
    name.append("_");
    name.append(stamp);
    name.append(".json");
    join(RESULTS_DIR, &name)
}

} // verus!
