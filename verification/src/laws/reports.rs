//! What reports say of the outcomes they are made of.
use crate::double::{
    half_even, in_units, law_nearest_errs_by_half_a_unit, lemma_powers, nearest, LEAST, LIMIT,
};
use crate::laws::charts::{colour, hundredths};
use crate::order::{goes_before, lists_in_order};
use crate::page::{page_text, PAGE_BODY, PAGE_HEAD, PAGE_SCRIPT};
use crate::paint::{painted, Hue};
use crate::pipeline::Outcome;
use crate::precision::law_quotient_of_small_integers;
use crate::report::{
    entry_key, entry_keys, failure_lines, interpretation, law_mb_is_the_nearest_hundredth,
    law_prove_hue_is_exact, mb, mb_text, measured_at, outcome_hue, ratio, saved_text, shows,
    summary_closing, summary_heading, CompareEntry, Row,
};
use crate::text::{digits, hundredths_text, tenths_text};
use crate::tools::{ended_text, texts};
use vstd::arithmetic::power2::{lemma_pow2_pos, pow2};
use vstd::prelude::*;

verus! {

/// The heading of the report of a circuit tells its name, the toolchain, its size, and how many
/// runs were taken and counted.
pub proof fn law_heading(o: Outcome)
    ensures
        summary_heading(o).len() == 5,
        summary_heading(o)[0] == ""@,
        summary_heading(o)[1] == "\u{1b}[1m"@ + ("● "@ + o.circuit@) + "\u{1b}[0m"@,
        summary_heading(o)[2] == "  backend "@ + ("\u{1b}[2m"@ + o.backend@ + "\u{1b}[0m"@)
            + "   nargo "@ + ("\u{1b}[2m"@ + o.nargo_version@ + "\u{1b}[0m"@) + "   bb "@ + (
        "\u{1b}[2m"@ + o.bb_version@ + "\u{1b}[0m"@),
        summary_heading(o)[3] == "  constraints "@ + ("\u{1b}[1m"@ + digits(o.constraints as nat)
            + "\u{1b}[0m"@) + "   acir_opcodes "@ + ("\u{1b}[1m"@ + digits(o.acir_opcodes as nat)
            + "\u{1b}[0m"@) + "   (median of "@ + digits(o.samples_used as nat) + " run(s), "@
            + digits(o.repeats as nat) + " repeat(s))"@,
        summary_heading(o)[4] == ""@,
{
}

/// Memory is shown in MB, to the nearest hundredth.
pub proof fn law_memory_text(kb: u64)
    requires
        kb < 0x4000_0000_0000,
    ensures
        mb_text(kb) == hundredths_text(hundredths(kb) as nat),
{
    law_mb_is_the_nearest_hundredth(kb);
}

/// The colours are those of the terminal.
pub proof fn law_colours(s: Seq<char>)
    ensures
        painted(Hue::Red, s) == "\u{1b}[31m"@ + s + "\u{1b}[39m"@,
        painted(Hue::Yellow, s) == "\u{1b}[33m"@ + s + "\u{1b}[39m"@,
        painted(Hue::Green, s) == "\u{1b}[32m"@ + s + "\u{1b}[39m"@,
{
}

/// A ratio of times or memory, and memory in MB, are the doubles nearest to the exact figures; a
/// base of zero counts as one.
pub proof fn law_figures_are_rounded_once(part: u64, base: u64, kb: u64)
    requires
        part < LIMIT,
        base < LIMIT,
        kb < 0x4000_0000_0000,
    ensures
        ratio(part, base) == nearest(
            part as nat,
            if base > 1 {
                base as nat
            } else {
                1
            },
        ),
        mb(kb) == nearest(hundredths(kb) as nat, 100),
{
    let b: nat = if base > 1 {
        base as nat
    } else {
        1
    };
    if part > 0 {
        law_quotient_of_small_integers(part as nat, b);
    }
    law_mb_is_the_nearest_hundredth(kb);
}

proof fn lemma_half_even_bounds(n: nat, d: nat)
    requires
        d > 0,
    ensures
        -d <= 2 * (half_even(n, d) * d - n) <= d,
{
    let q = n / d;
    let r = n % d;
    assert(n == q * d + r && r < d) by (nonlinear_arith)
        requires
            d > 0,
            q == n / d,
            r == n % d,
    ;
    assert((q + 1) * d == q * d + d) by (nonlinear_arith);
}

/// A ratio is shown to the nearest tenth: `t` tenths are no further from `10 * part / base` than
/// half a tenth.
pub open spec fn nearest_tenth(t: nat, part: u64, base: u64) -> bool {
    let b = if base > 1 {
        base as int
    } else {
        1
    };
    -b <= 2 * (t * b - 10 * part) <= b
}

proof fn lemma_ratio_in_tenths(part: u64, base: u64)
    requires
        part < 0x1_0000_0000_0000,
        base < 0x1_0000_0000_0000,
    ensures
        nearest_tenth(in_units(ratio(part, base), 10), part, base),
{
    lemma_powers();
    vstd::arithmetic::power2::lemma2_to64_rest();
    let a = part as nat;
    let b: nat = if base > 1 {
        base as nat
    } else {
        1
    };
    if a == 0 {
        assert(ratio(part, base) == (0nat, 0int));
        assert(0nat * 10 * pow2(0) == 0);
        assert(0nat * b == 0);
    } else {
        law_quotient_of_small_integers(a, b);
        let x = nearest(a, b);
        law_nearest_errs_by_half_a_unit(a, b);
        if x.1 > 0 {
            let p = b * pow2(x.1 as nat);
            lemma_pow2_pos(x.1 as nat);
            assert(p >= 1) by (nonlinear_arith)
                requires
                    p == b * pow2(x.1 as nat),
                    b >= 1,
                    pow2(x.1 as nat) >= 1,
            ;
            assert(2 * (x.0 * p) >= 2 * LEAST * p) by (nonlinear_arith)
                requires
                    x.0 >= LEAST,
                    p >= 1,
            ;
            assert(false);
        }
        let k = pow2((-x.1) as nat);
        let m = x.0;
        lemma_pow2_pos((-x.1) as nat);
        // The power of two is large beside the base.
        assert(10 * b < k) by (nonlinear_arith)
            requires
                -b <= 2 * (a * k - m * b),
                m >= LEAST,
                0 < a < 0x1_0000_0000_0000,
                b >= 1,
                k >= 1,
                LEAST == 0x10_0000_0000_0000,
        ;
        if x.1 == 0 {
            assert(k == 1);
            assert(false);
        }
        lemma_half_even_bounds(m * 10, k);
        let t = half_even(m * 10, k);
        let far = t * b - 10 * a;
        let u = t * k - m * 10;
        let v = a * k - m * b;
        assert(far * k == u * b - 10 * v) by (nonlinear_arith)
            requires
                far == t * b - 10 * a,
                u == t * k - m * 10,
                v == a * k - m * b,
        ;
        assert(-(k * b) <= 2 * (u * b) <= k * b) by (nonlinear_arith)
            requires
                -k <= 2 * u <= k,
                b >= 1,
        ;
        assert(-b <= 2 * far <= b) by (nonlinear_arith)
            requires
                -(k * b + k) < 2 * (far * k) < k * b + k,
                k > 0,
        ;
    }
}

/// The line of interpretation tells both ratios to the nearest tenth, in the colour that goes by
/// the ratio of the times: red from twice as long, yellow from as long, green below.
pub proof fn law_interpretation(o: Outcome) -> (r: (nat, nat))
    requires
        o.witness.time_ms < 0x1_0000_0000_0000,
        o.prove.time_ms < 0x1_0000_0000_0000,
        o.witness.peak_kb < 0x1_0000_0000_0000,
        o.prove.peak_kb < 0x1_0000_0000_0000,
    ensures
        nearest_tenth(r.0, o.prove.time_ms, o.witness.time_ms),
        nearest_tenth(r.1, o.prove.peak_kb, o.witness.peak_kb),
        ({
            let base = if o.witness.time_ms > 1 {
                o.witness.time_ms as int
            } else {
                1
            };
            let hue = if o.prove.time_ms >= 2 * base {
                Hue::Red
            } else if o.prove.time_ms >= base {
                Hue::Yellow
            } else {
                Hue::Green
            };
            &&& outcome_hue(o) == hue
            &&& summary_closing(o)[0] == colour(hue) + ("→ prove is "@ + tenths_text(r.0)
                + "x heavier than witness in time ("@ + tenths_text(r.1) + "x in memory)"@)
                + "\u{1b}[39m"@
        }),
{
    let t = in_units(ratio(o.prove.time_ms, o.witness.time_ms), 10);
    let u = in_units(ratio(o.prove.peak_kb, o.witness.peak_kb), 10);
    lemma_ratio_in_tenths(o.prove.time_ms, o.witness.time_ms);
    lemma_ratio_in_tenths(o.prove.peak_kb, o.witness.peak_kb);
    law_prove_hue_is_exact(o.prove.time_ms, o.witness.time_ms);
    law_colours(interpretation(o));
    (t, u)
}

/// A row of the comparison shows its entry: the figures of a circuit that was measured, or the
/// label of one that failed, in red.
pub proof fn law_rows(row: Row, e: CompareEntry)
    requires
        shows(row, e),
    ensures
        row.cells@.len() == 5,
        match e {
            CompareEntry::Measured(o) => {
                &&& row.hue is None
                &&& row.cells@[0]@ == o.circuit@
                &&& row.cells@[1]@ == digits(o.constraints as nat)
                &&& row.cells@[2]@ == digits(o.witness.time_ms as nat)
                &&& row.cells@[3]@ == digits(o.prove.time_ms as nat)
                &&& o.prove.peak_kb < 0x4000_0000_0000 ==> row.cells@[4]@ == hundredths_text(
                    hundredths(o.prove.peak_kb) as nat,
                )
            },
            CompareEntry::Failed { label, .. } => {
                &&& row.hue == Some(Hue::Red)
                &&& row.cells@[0]@ == label@
                &&& forall|k: int| 1 <= k < 5 ==> (#[trigger] row.cells@[k])@ == "FAILED"@
            },
        },
{
    let cells = row.cells@;
    assert(texts(cells).len() == cells.len());
    assert(forall|k: int| 0 <= k < cells.len() ==> (#[trigger] cells[k])@ == texts(cells)[k]);
    if let CompareEntry::Measured(o) = e {
        if o.prove.peak_kb < 0x4000_0000_0000 {
            law_mb_is_the_nearest_hundredth(o.prove.peak_kb);
        }
    }
}

/// A stable order lists every position once, by ascending keys, and by position where keys are
/// equal.
pub proof fn law_stable_order(keys: Seq<u128>, order: Seq<usize>)
    requires
        lists_in_order(keys, order, keys.len() as int),
    ensures
        order.len() == keys.len(),
        forall|k: int| 0 <= k < keys.len() ==> #[trigger] order.contains(k as usize),
        forall|i: int, j: int|
            0 <= i < j < order.len() ==> {
                let a = #[trigger] order[i];
                let b = #[trigger] order[j];
                &&& a < keys.len() && b < keys.len()
                &&& keys[a as int] <= keys[b as int]
                &&& keys[a as int] == keys[b as int] ==> a < b
            },
{
    assert forall|i: int, j: int| 0 <= i < j < order.len() implies {
        let a = #[trigger] order[i];
        let b = #[trigger] order[j];
        &&& a < keys.len() && b < keys.len()
        &&& keys[a as int] <= keys[b as int]
        &&& keys[a as int] == keys[b as int] ==> a < b
    } by {
        assert(goes_before(keys, order[i] as int, order[j] as int));
    }
}

/// The rows of the comparison are all entries, each once, the measured ones by ascending
/// constraints and in the order given where these are equal, then the failed ones in the order
/// given.
pub proof fn law_order_of_rows(entries: Seq<CompareEntry>, order: Seq<usize>)
    requires
        lists_in_order(entry_keys(entries), order, entries.len() as int),
        entries.len() <= usize::MAX,
    ensures
        order.len() == entries.len(),
        forall|k: int| 0 <= k < entries.len() ==> #[trigger] order.contains(k as usize),
        forall|i: int, j: int|
            0 <= i < j < order.len() ==> {
                let a = entries[#[trigger] order[i] as int];
                let b = entries[#[trigger] order[j] as int];
                &&& order[i] < entries.len() && order[i] != order[j]
                &&& match (a, b) {
                    (CompareEntry::Measured(x), CompareEntry::Measured(y)) => x.constraints
                        <= y.constraints && (x.constraints == y.constraints ==> order[i]
                        < order[j]),
                    (CompareEntry::Measured(_), CompareEntry::Failed { .. }) => true,
                    (CompareEntry::Failed { .. }, CompareEntry::Measured(_)) => false,
                    (CompareEntry::Failed { .. }, CompareEntry::Failed { .. }) => order[i]
                        < order[j],
                }
            },
{
    let keys = entry_keys(entries);
    assert forall|i: int, j: int| 0 <= i < j < order.len() implies {
        let a = entries[#[trigger] order[i] as int];
        let b = entries[#[trigger] order[j] as int];
        &&& order[i] < entries.len() && order[i] != order[j]
        &&& match (a, b) {
            (CompareEntry::Measured(x), CompareEntry::Measured(y)) => x.constraints
                <= y.constraints && (x.constraints == y.constraints ==> order[i] < order[j]),
            (CompareEntry::Measured(_), CompareEntry::Failed { .. }) => true,
            (CompareEntry::Failed { .. }, CompareEntry::Measured(_)) => false,
            (CompareEntry::Failed { .. }, CompareEntry::Failed { .. }) => order[i] < order[j],
        }
    } by {
        assert(goes_before(keys, order[i] as int, order[j] as int));
        assert(keys[order[i] as int] == entry_key(entries[order[i] as int]));
        assert(keys[order[j] as int] == entry_key(entries[order[j] as int]));
    }
}

/// The charts are of the measured circuits among the rows, in the order of the rows.
pub proof fn law_charted_circuits(entries: Seq<CompareEntry>, places: Seq<usize>)
    ensures
        measured_at(entries, places) == places.map_values(
            |p: usize| entries[p as int],
        ).filter(|e: CompareEntry| e is Measured).map_values(|e: CompareEntry| e->Measured_0),
    decreases places.len(),
{
    reveal(Seq::filter);
    let at = |p: usize| entries[p as int];
    let kept = |e: CompareEntry| e is Measured;
    let outcome = |e: CompareEntry| e->Measured_0;
    let all = places.map_values(at);
    if places.len() > 0 {
        let before = places.drop_last();
        law_charted_circuits(entries, before);
        assert(all.drop_last() =~= before.map_values(at));
        let rest = before.map_values(at).filter(kept);
        if entries[places.last() as int] is Measured {
            assert(rest.push(all.last()).map_values(outcome) =~= rest.map_values(outcome).push(
                outcome(all.last()),
            ));
        }
    } else {
        assert(all.filter(kept).map_values(outcome) =~= Seq::empty());
    }
}

/// Every failure is detailed, in the order in which the circuits were given.
pub proof fn law_failures_are_detailed(entries: Seq<CompareEntry>)
    ensures
        failure_lines(entries) == entries.filter(|e: CompareEntry| e is Failed).map_values(
            |e: CompareEntry|
                "\u{1b}[1m"@ + ("\u{1b}[31m"@ + "FAILED"@ + "\u{1b}[39m"@) + "\u{1b}[0m"@ + " "@
                    + e->label@ + ": "@ + e->error@,
        ),
    decreases entries.len(),
{
    reveal(Seq::filter);
    let kept = |e: CompareEntry| e is Failed;
    let line = |e: CompareEntry|
        "\u{1b}[1m"@ + ("\u{1b}[31m"@ + "FAILED"@ + "\u{1b}[39m"@) + "\u{1b}[0m"@ + " "@ + e->label@
            + ": "@ + e->error@;
    if entries.len() > 0 {
        law_failures_are_detailed(entries.drop_last());
        let rest = entries.drop_last().filter(kept);
        if entries.last() is Failed {
            assert(rest.push(entries.last()).map_values(line) =~= rest.map_values(line).push(
                line(entries.last()),
            ));
        }
    } else {
        assert(entries.filter(kept).map_values(line) =~= Seq::empty());
    }
}

/// Where a result was written, and how a spinner ends.
pub proof fn law_short_lines(path: Seq<char>, message: Seq<char>)
    ensures
        saved_text(path) == "\u{1b}[2m"@ + "saved:"@ + "\u{1b}[0m"@ + " "@ + path,
        ended_text(message, true) == "✓ "@ + message,
        ended_text(message, false) == "✗ "@ + message,
{
}

/// The page holds the time and the data as they were given, each in its own place, and is
/// otherwise always the same.
pub proof fn law_page(time: Seq<char>, data: Seq<char>)
    ensures
        page_text(time, data) == PAGE_HEAD@ + time + PAGE_BODY@ + data + PAGE_SCRIPT@,
{
}

} // verus!
