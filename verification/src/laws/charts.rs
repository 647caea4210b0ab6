//! What the charts show, from the figures of the outcomes to the blocks on the terminal.
use crate::chart::{
    bar_hue, bar_labels, bar_length, bar_line, bar_lines, largest, law_heavier_bar_is_no_shorter,
    law_largest_bar_is_full, law_largest_is_greatest, law_longest_total_is_full, lemma_longest,
    longest, part_of, share, time_labels, time_line, time_lines, total, total_length, widest,
    witness_length, Bar, TimeRow,
};
use crate::double::{
    at_least, law_nearest_errs_by_half_a_unit, lemma_at_least, lemma_powers, nearest, normal,
    product, quotient, LEAST,
};
use crate::laws::scaling::{
    law_nearest_reduces, lemma_bar_is_nearest, lemma_hue, lemma_hue_at_threshold,
    lemma_nearest_stands, lemma_quotient_of_hundredths_stands, nearest_block,
};
use crate::paint::{painted, Hue};
use crate::pipeline::Outcome;
use crate::precision::{
    law_nearest_keeps_order, law_product_keeps_order, law_quotient_keeps_order,
    law_quotient_of_equals, law_quotient_of_small_integers, law_rounding_keeps_order,
};
use crate::report::{
    chart_lines, interpretation, kib, law_mb_is_the_nearest_hundredth, mb, mb_hundredths, mb_text,
    prove_memory_bars, prove_time_bars, splits, summary_closing, time_bar,
};
use crate::text::{digits, hundredths_text};
use vstd::arithmetic::power2::pow2;
use vstd::prelude::*;

verus! {

/// The sequence that begins a colour.
pub open spec fn colour(hue: Hue) -> Seq<char> {
    match hue {
        Hue::Red => "\u{1b}[31m"@,
        Hue::Yellow => "\u{1b}[33m"@,
        Hue::Green => "\u{1b}[32m"@,
    }
}

/// So many times a character.
pub open spec fn run_of(c: char, n: int) -> Seq<char> {
    Seq::new(n as nat, |i: int| c)
}

/// How a bar is drawn.
pub struct Drawn {
    pub blocks: nat,
    pub hue: Hue,
}

/// Whether a line is a label, padded to a width, a bar of 24 blocks with so many of them full, in
/// its colour, and a text.
pub open spec fn bar_drawn(
    line: Seq<char>,
    label: Seq<char>,
    width: nat,
    bar: Drawn,
    display: Seq<char>,
) -> bool {
    &&& label.len() <= width
    &&& bar.blocks <= 24
    &&& line == "  "@ + label + run_of(' ', width - label.len()) + "  "@ + colour(bar.hue) + run_of(
        '█',
        bar.blocks as int,
    ) + run_of('░', 24 - bar.blocks) + "\u{1b}[39m"@ + "  "@ + display
}

/// Whether a colour is that of a share: red from 66 hundredths on, yellow from 33, green below.
pub open spec fn hue_of_share(hue: Hue, part: int, whole: int) -> bool {
    hue == if 100 * part >= 66 * whole {
        Hue::Red
    } else if 100 * part >= 33 * whole {
        Hue::Yellow
    } else {
        Hue::Green
    }
}

/// Whether a colour is that of a share that lies on neither threshold.
pub open spec fn hue_off_thresholds(hue: Hue, part: int, whole: int) -> bool {
    100 * part != 66 * whole && 100 * part != 33 * whole ==> hue_of_share(hue, part, whole)
}

proof fn lemma_widest(labels: Seq<Seq<char>>, i: int)
    requires
        0 <= i < labels.len(),
    ensures
        labels[i].len() <= widest(labels),
    decreases labels.len(),
{
    if i < labels.len() - 1 {
        lemma_widest(labels.drop_last(), i);
    }
}

proof fn lemma_bar_drawn(row: Bar, width: nat, most: (nat, int))
    requires
        row.label.len() <= width,
    ensures
        bar_drawn(
            bar_line(row, width, most),
            row.label,
            width,
            Drawn {
                blocks: bar_length(share(row.value, most), 24),
                hue: bar_hue(share(row.value, most)),
            },
            row.display,
        ),
{
    let s = share(row.value, most);
    let n = bar_length(s, 24);
    let hue = bar_hue(s);
    let bar = run_of('█', n as int) + run_of('░', 24 - n);
    assert(painted(hue, bar) =~= colour(hue) + bar + "\u{1b}[39m"@);
    let line = "  "@ + row.label + run_of(' ', width - row.label.len()) + "  "@ + colour(hue)
        + run_of('█', n as int) + run_of('░', 24 - n) + "\u{1b}[39m"@ + "  "@ + row.display;
    assert(bar_line(row, width, most) =~= line);
}

proof fn lemma_antisymmetric(x: (nat, int), y: (nat, int))
    requires
        normal(x),
        normal(y),
        at_least(x, y),
        at_least(y, x),
    ensures
        x == y,
{
    lemma_at_least(x, y);
    lemma_at_least(y, x);
}

/// Two bars of a chart: how they are drawn, that a heavier one is no shorter, and that the
/// heaviest is full and red.
proof fn lemma_chart(title: Seq<char>, rows: Seq<Bar>, i: int, j: int) -> (r: (nat, Drawn, Drawn))
    requires
        0 <= i < rows.len(),
        0 <= j < rows.len(),
        forall|k: int| 0 <= k < rows.len() ==> normal(#[trigger] rows[k].value),
    ensures
        bar_lines(title, rows).len() == rows.len() + 2,
        bar_lines(title, rows)[0] == ""@,
        bar_lines(title, rows)[1] == "\u{1b}[1m"@ + title + "\u{1b}[0m"@,
        r.0 == widest(bar_labels(rows)),
        bar_drawn(bar_lines(title, rows)[2 + i], rows[i].label, r.0, r.1, rows[i].display),
        bar_drawn(bar_lines(title, rows)[2 + j], rows[j].label, r.0, r.2, rows[j].display),
        r.1.blocks == bar_length(share(rows[i].value, largest(rows)), 24),
        r.2.blocks == bar_length(share(rows[j].value, largest(rows)), 24),
        r.2.hue == bar_hue(share(rows[j].value, largest(rows))),
        at_least(rows[i].value, rows[j].value) ==> r.1.blocks >= r.2.blocks,
        (forall|k: int| 0 <= k < rows.len() ==> at_least(rows[i].value, #[trigger] rows[k].value))
            && rows[i].value.0 > 0 ==> {
            &&& largest(rows) == rows[i].value
            &&& r.1.blocks == 24
            &&& r.1.hue == Hue::Red
        },
        (forall|k: int| 0 <= k < rows.len() ==> #[trigger] rows[k].value == (0nat, 0int)) ==> {
            &&& r.1.blocks == 0
            &&& r.1.hue == Hue::Green
        },
{
    let width = widest(bar_labels(rows));
    let most = largest(rows);
    let lines = bar_lines(title, rows);
    assert(bar_labels(rows)[i] == rows[i].label && bar_labels(rows)[j] == rows[j].label);
    lemma_widest(bar_labels(rows), i);
    lemma_widest(bar_labels(rows), j);
    lemma_bar_drawn(rows[i], width, most);
    lemma_bar_drawn(rows[j], width, most);
    assert(lines[2 + i] == bar_line(rows[i], width, most));
    assert(lines[2 + j] == bar_line(rows[j], width, most));
    let a = Drawn {
        blocks: bar_length(share(rows[i].value, most), 24),
        hue: bar_hue(share(rows[i].value, most)),
    };
    let b = Drawn {
        blocks: bar_length(share(rows[j].value, most), 24),
        hue: bar_hue(share(rows[j].value, most)),
    };
    law_largest_is_greatest(rows, i);
    if at_least(rows[i].value, rows[j].value) {
        law_heavier_bar_is_no_shorter(rows[j].value, rows[i].value, most, 24);
    }
    if (forall|k: int| 0 <= k < rows.len() ==> at_least(rows[i].value, #[trigger] rows[k].value))
        && rows[i].value.0 > 0 {
        law_largest_bar_is_full(rows, i);
        lemma_at_least(most, rows[i].value);
        let k = choose|k: int| 0 <= k < rows.len() && #[trigger] rows[k].value == most;
        assert(at_least(rows[i].value, rows[k].value));
        lemma_antisymmetric(most, rows[i].value);
        law_quotient_of_equals(most);
        lemma_one_is_red();
    }
    if forall|k: int| 0 <= k < rows.len() ==> #[trigger] rows[k].value == (0nat, 0int) {
        lemma_zero_share(24);
        assert(most.0 == 0) by {
            if most.0 > 0 {
                let k = choose|k: int| 0 <= k < rows.len() && #[trigger] rows[k].value == most;
                assert(rows[k].value == (0nat, 0int));
            }
        }
    }
    (width, a, b)
}

proof fn lemma_one_is_red()
    ensures
        bar_hue((LEAST as nat, -52int)) == Hue::Red,
{
    law_nearest_keeps_order(66, 100, 100);
    law_nearest_errs_by_half_a_unit(66, 100);
    law_nearest_reduces(1, 1, 100);
    lemma_one();
}

proof fn lemma_one()
    ensures
        nearest(1, 1) == (LEAST as nat, -52int),
{
    let x = (LEAST as nat, -52int);
    law_quotient_of_equals(x);
    law_nearest_reduces(1, 1, LEAST as nat);
}

/// A share of nothing is an empty, green bar.
proof fn lemma_zero_share(width: nat)
    ensures
        bar_length((0nat, 0int), width) == 0,
        bar_hue((0nat, 0int)) == Hue::Green,
{
    lemma_powers();
    assert(0nat * width == 0) by (nonlinear_arith);
    assert(0nat * pow2(0) == 0);
    law_nearest_errs_by_half_a_unit(66, 100);
    law_nearest_errs_by_half_a_unit(33, 100);
    lemma_at_least((0nat, 0int), nearest(66, 100));
    lemma_at_least((0nat, 0int), nearest(33, 100));
}

/// The double nearest to a fraction is in normal form, and zero only for zero.
proof fn lemma_nearest_normal(n: nat, d: nat)
    requires
        d > 0,
    ensures
        normal(nearest(n, d)),
        nearest(n, d).0 == 0 <==> n == 0,
        n == 0 ==> nearest(n, d) == (0nat, 0int),
{
    if n > 0 {
        law_nearest_errs_by_half_a_unit(n, d);
    }
}

proof fn lemma_nearest_order(m: nat, n: nat, d: nat)
    requires
        m <= n,
        d > 0,
    ensures
        at_least(nearest(n, d), nearest(m, d)),
{
    lemma_nearest_normal(m, d);
    lemma_nearest_normal(n, d);
    lemma_at_least(nearest(n, d), nearest(m, d));
    if m > 0 {
        law_nearest_keeps_order(m, n, d);
    }
}

/// A share of small integers, with its length and colour.
proof fn lemma_integer_share(a: nat, b: nat, width: nat)
    requires
        a <= b,
        0 < b < 0x800_0000_0000,
        width <= 24,
    ensures
        nearest_block(bar_length(quotient(nearest(a, 1), nearest(b, 1)), width), a, b, width),
        hue_of_share(bar_hue(quotient(nearest(a, 1), nearest(b, 1))), a as int, b as int),
{
    if a == 0 {
        lemma_nearest_normal(b, 1);
        assert(quotient(nearest(0, 1), nearest(b, 1)) == (0nat, 0int));
        lemma_zero_share(width);
        assert(0nat * b == 0 && width * 0 == 0);
    } else {
        law_quotient_of_small_integers(a, b);
        lemma_nearest_stands(a, b);
        lemma_bar_is_nearest(nearest(a, b), a, b, width);
        lemma_hue(nearest(a, b), a, b);
        lemma_hue_at_threshold(a, b);
    }
}

/// Two bars of a chart of times.
proof fn lemma_time_chart(
    title: Seq<char>,
    rows: Seq<Bar>,
    times: Seq<u64>,
    i: int,
    j: int,
) -> (r: (nat, Drawn, Drawn))
    requires
        rows.len() == times.len(),
        0 <= i < rows.len(),
        0 <= j < rows.len(),
        forall|k: int|
            0 <= k < rows.len() ==> #[trigger] rows[k].value == nearest(times[k] as nat, 1),
    ensures
        bar_lines(title, rows).len() == rows.len() + 2,
        bar_lines(title, rows)[0] == ""@,
        bar_lines(title, rows)[1] == "\u{1b}[1m"@ + title + "\u{1b}[0m"@,
        r.0 == widest(bar_labels(rows)),
        bar_drawn(bar_lines(title, rows)[2 + i], rows[i].label, r.0, r.1, rows[i].display),
        bar_drawn(bar_lines(title, rows)[2 + j], rows[j].label, r.0, r.2, rows[j].display),
        bars_scale(times, i, j, r.1, r.2),
{
    assert forall|k: int| 0 <= k < rows.len() implies normal(#[trigger] rows[k].value) by {
        lemma_nearest_normal(times[k] as nat, 1);
    }
    let r = lemma_chart(title, rows, i, j);
    let a = times[i] as nat;
    let b = times[j] as nat;
    assert(rows[i].value == nearest(a, 1) && rows[j].value == nearest(b, 1));
    if a >= b {
        lemma_nearest_order(b, a, 1);
    }
    lemma_nearest_normal(a, 1);
    if is_greatest(times, i) {
        assert forall|k: int| 0 <= k < rows.len() implies at_least(
            rows[i].value,
            #[trigger] rows[k].value,
        ) by {
            assert(times[k] <= times[i]);
            lemma_nearest_order(times[k] as nat, a, 1);
        }
        assert(times[j] <= times[i]);
        if 0 < a < 0x800_0000_0000 {
            lemma_integer_share(b, a, 24);
        }
        if a == 0 {
            assert forall|k: int| 0 <= k < rows.len() implies #[trigger] rows[k].value == (
            0nat,
            0int) by {
                assert(times[k] <= times[i]);
            }
        }
    }
    r
}

/// Whether a figure is the greatest of all.
pub open spec fn is_greatest(figures: Seq<u64>, i: int) -> bool {
    forall|k: int| 0 <= k < figures.len() ==> #[trigger] figures[k] <= figures[i]
}

/// Whether bars `a` and `b`, of figures `i` and `j`, are in proportion: the one of the greater
/// figure is no shorter; the greatest fills all 24 blocks, in red, unless it is zero, in which
/// case its bar is empty and green; and the length and colour of the other are those of its share
/// of the greatest, as long as that is less than 2^43.
pub open spec fn bars_scale(figures: Seq<u64>, i: int, j: int, a: Drawn, b: Drawn) -> bool {
    &&& figures[i] >= figures[j] ==> a.blocks >= b.blocks
    &&& is_greatest(figures, i) && figures[i] > 0 ==> a.blocks == 24 && a.hue == Hue::Red
    &&& is_greatest(figures, i) && figures[i] == 0 ==> a.blocks == 0 && a.hue == Hue::Green
    &&& is_greatest(figures, i) && 0 < figures[i] < 0x800_0000_0000 ==> {
        &&& nearest_block(b.blocks, figures[j] as nat, figures[i] as nat, 24)
        &&& hue_of_share(b.hue, figures[j] as int, figures[i] as int)
    }
}

/// The chart of a run shows its two times in proportion: below the line of interpretation stand a
/// title and a bar for each of witness and prove, with the time in milliseconds.
pub proof fn law_wall_clock_chart(o: Outcome) -> (r: (Drawn, Drawn))
    ensures
        summary_closing(o).len() == 5,
        summary_closing(o)[1] == ""@,
        summary_closing(o)[2] == "\u{1b}[1m"@ + "wall-clock (ms)"@ + "\u{1b}[0m"@,
        bar_drawn(
            summary_closing(o)[3],
            "witness"@,
            7,
            r.0,
            digits(o.witness.time_ms as nat) + " ms"@,
        ),
        bar_drawn(
            summary_closing(o)[4],
            "prove"@,
            7,
            r.1,
            digits(o.prove.time_ms as nat) + " ms"@,
        ),
        bars_scale(seq![o.witness.time_ms, o.prove.time_ms], 0, 1, r.0, r.1),
        bars_scale(seq![o.witness.time_ms, o.prove.time_ms], 1, 0, r.1, r.0),
{
    let title = "wall-clock (ms)"@;
    let rows = seq![time_bar("witness"@, o.witness.time_ms), time_bar("prove"@, o.prove.time_ms)];
    let times = seq![o.witness.time_ms, o.prove.time_ms];
    let r = lemma_time_chart(title, rows, times, 0, 1);
    let s = lemma_time_chart(title, rows, times, 1, 0);
    lemma_same_bar(bar_lines(title, rows)[2], "witness"@, r.0, r.1, s.2, rows[0].display);
    lemma_same_bar(bar_lines(title, rows)[3], "prove"@, r.0, r.2, s.1, rows[1].display);
    reveal_strlit("witness");
    reveal_strlit("prove");
    assert(bar_labels(rows) =~= seq!["witness"@, "prove"@]);
    reveal_with_fuel(widest, 3);
    assert(seq!["witness"@, "prove"@].drop_last() =~= seq!["witness"@]);
    assert(seq!["witness"@].drop_last() =~= Seq::<Seq<char>>::empty());
    assert(r.0 == 7);
    (r.1, r.2)
}

/// A line is drawn in one way only.
proof fn lemma_same_bar(
    line: Seq<char>,
    label: Seq<char>,
    width: nat,
    a: Drawn,
    b: Drawn,
    display: Seq<char>,
)
    requires
        bar_drawn(line, label, width, a, display),
        bar_drawn(line, label, width, b, display),
    ensures
        a == b,
{
    reveal_strlit("\u{1b}[31m");
    reveal_strlit("\u{1b}[32m");
    reveal_strlit("\u{1b}[33m");
    reveal_strlit("  ");
    let p = width as int + 4;
    assert(line[p + 3] == colour(a.hue)[3]);
    assert(line[p + 3] == colour(b.hue)[3]);
    assert(a.hue == b.hue);
    if a.blocks < b.blocks {
        assert(line[p + 5 + a.blocks] == '░');
        assert(line[p + 5 + a.blocks] == '█');
    } else if b.blocks < a.blocks {
        assert(line[p + 5 + b.blocks] == '░');
        assert(line[p + 5 + b.blocks] == '█');
    }
}

/// The names of circuits are padded to the length of the longest of them.
pub open spec fn common_width(outcomes: Seq<Outcome>, width: nat) -> bool {
    &&& forall|k: int| 0 <= k < outcomes.len() ==> (#[trigger] outcomes[k]).circuit@.len() <= width
    &&& exists|k: int| 0 <= k < outcomes.len() && (#[trigger] outcomes[k]).circuit@.len() == width
}

proof fn lemma_widest_is_there(labels: Seq<Seq<char>>)
    requires
        labels.len() > 0,
    ensures
        exists|k: int| 0 <= k < labels.len() && (#[trigger] labels[k]).len() == widest(labels),
    decreases labels.len(),
{
    let before = labels.drop_last();
    let n = labels.len() - 1;
    if labels[n].len() > widest(before) || n == 0 {
        assert(labels[n].len() == widest(labels));
    } else {
        lemma_widest_is_there(before);
        let k = choose|k: int| 0 <= k < before.len() && (#[trigger] before[k]).len() == widest(
            before,
        );
        assert(labels[k] == before[k]);
    }
}

proof fn lemma_common_width(outcomes: Seq<Outcome>, labels: Seq<Seq<char>>)
    requires
        outcomes.len() > 0,
        labels.len() == outcomes.len(),
        forall|k: int| 0 <= k < labels.len() ==> #[trigger] labels[k] == outcomes[k].circuit@,
    ensures
        common_width(outcomes, widest(labels)),
{
    lemma_widest_is_there(labels);
    let k = choose|k: int| 0 <= k < labels.len() && (#[trigger] labels[k]).len() == widest(labels);
    assert(outcomes[k].circuit@.len() == widest(labels));
    assert forall|k: int| 0 <= k < outcomes.len() implies (#[trigger] outcomes[k]).circuit@.len()
        <= widest(labels) by {
        lemma_widest(labels, k);
        assert(labels[k] == outcomes[k].circuit@);
    }
}

/// How many lines the charts of a comparison take: none without circuits.
pub proof fn law_number_of_chart_lines(outcomes: Seq<Outcome>)
    ensures
        chart_lines(outcomes).len() == if outcomes.len() == 0 {
            0
        } else {
            3 * outcomes.len() + 7
        },
{
}

/// The first chart of a comparison shows the proving times of the circuits in proportion.
pub proof fn law_prove_time_chart(outcomes: Seq<Outcome>, i: int, j: int) -> (r: (
    nat,
    Drawn,
    Drawn,
))
    requires
        0 <= i < outcomes.len(),
        0 <= j < outcomes.len(),
    ensures
        ({
            let lines = chart_lines(outcomes);
            let times = Seq::new(outcomes.len(), |k: int| outcomes[k].prove.time_ms);
            &&& lines[0] == ""@
            &&& lines[1] == "\u{1b}[1m"@ + "prove time (ms)"@ + "\u{1b}[0m"@
            &&& common_width(outcomes, r.0)
            &&& bar_drawn(
                lines[2 + i],
                outcomes[i].circuit@,
                r.0,
                r.1,
                digits(outcomes[i].prove.time_ms as nat) + " ms"@,
            )
            &&& bar_drawn(
                lines[2 + j],
                outcomes[j].circuit@,
                r.0,
                r.2,
                digits(outcomes[j].prove.time_ms as nat) + " ms"@,
            )
            &&& bars_scale(times, i, j, r.1, r.2)
        }),
{
    let title = "prove time (ms)"@;
    let rows = prove_time_bars(outcomes);
    let times = Seq::new(outcomes.len(), |k: int| outcomes[k].prove.time_ms);
    let lines = chart_lines(outcomes);
    let r = lemma_time_chart(title, rows, times, i, j);
    lemma_common_width(outcomes, bar_labels(rows));
    assert(forall|k: int| 0 <= k < rows.len() + 2 ==> lines[k] == bar_lines(title, rows)[k]);
    r
}

proof fn lemma_hundredths_order(a: u64, b: u64)
    requires
        a <= b,
    ensures
        mb_hundredths(a) <= mb_hundredths(b),
        b >= 6 ==> mb_hundredths(b) > 0,
{
    lemma_hundredths_monotone(a, b);
    if b >= 6 {
        lemma_hundredths_monotone(6, b);
        law_mb_is_the_nearest_hundredth(6);
    }
}

proof fn lemma_hundredths_monotone(a: u64, b: u64)
    requires
        a <= b,
    ensures
        mb_hundredths(a) <= mb_hundredths(b),
{
    let x = nearest(a as nat, 1);
    let y = nearest(b as nat, 1);
    lemma_nearest_normal(a as nat, 1);
    lemma_nearest_normal(b as nat, 1);
    lemma_nearest_order(a as nat, b as nat, 1);
    law_quotient_keeps_order(x, y, kib());
    law_product_keeps_order(quotient(x, kib()), quotient(y, kib()), 100);
    law_rounding_keeps_order(
        product(quotient(x, kib()), 100),
        product(quotient(y, kib()), 100),
    );
}

/// KB in hundredths of MB, to the nearest, halves up.
pub open spec fn hundredths(kb: u64) -> int {
    (kb * 100 + 512) / 1024
}

/// Whether bars `a` and `b`, of the memory of circuits `i` and `j`, are in proportion, as far as
/// hundredths of a MB tell them apart.
pub open spec fn memory_bars_scale(kbs: Seq<u64>, i: int, j: int, a: Drawn, b: Drawn) -> bool {
    &&& kbs[i] >= kbs[j] ==> a.blocks >= b.blocks
    &&& is_greatest(kbs, i) && kbs[i] >= 6 ==> a.blocks == 24 && a.hue == Hue::Red
    &&& is_greatest(kbs, i) && kbs[i] < 6 ==> a.blocks == 0 && a.hue == Hue::Green
    &&& is_greatest(kbs, i) && 6 <= kbs[i] < 0x4000_0000_0000 ==> {
        &&& nearest_block(
            b.blocks,
            hundredths(kbs[j]) as nat,
            hundredths(kbs[i]) as nat,
            24,
        )
        &&& hue_off_thresholds(b.hue, hundredths(kbs[j]), hundredths(kbs[i]))
    }
}

/// The second chart of a comparison shows the proving memory of the circuits in proportion, in MB
/// with two decimals.
pub proof fn law_prove_memory_chart(outcomes: Seq<Outcome>, i: int, j: int) -> (r: (
    nat,
    Drawn,
    Drawn,
))
    requires
        0 <= i < outcomes.len(),
        0 <= j < outcomes.len(),
    ensures
        ({
            let lines = chart_lines(outcomes);
            let n = outcomes.len() as int;
            let kbs = Seq::new(outcomes.len(), |k: int| outcomes[k].prove.peak_kb);
            &&& lines[n + 2] == ""@
            &&& lines[n + 3] == "\u{1b}[1m"@ + "prove memory (MB)"@ + "\u{1b}[0m"@
            &&& common_width(outcomes, r.0)
            &&& exists|display: Seq<char>|
                #![trigger bar_drawn(lines[n + 4 + i], outcomes[i].circuit@, r.0, r.1, display)]
                bar_drawn(lines[n + 4 + i], outcomes[i].circuit@, r.0, r.1, display) && (kbs[i]
                    < 0x4000_0000_0000 ==> display == hundredths_text(hundredths(kbs[i]) as nat)
                    + " MB"@)
            &&& exists|display: Seq<char>|
                #![trigger bar_drawn(lines[n + 4 + j], outcomes[j].circuit@, r.0, r.2, display)]
                bar_drawn(lines[n + 4 + j], outcomes[j].circuit@, r.0, r.2, display) && (kbs[j]
                    < 0x4000_0000_0000 ==> display == hundredths_text(hundredths(kbs[j]) as nat)
                    + " MB"@)
            &&& memory_bars_scale(kbs, i, j, r.1, r.2)
        }),
{
    let title = "prove memory (MB)"@;
    let rows = prove_memory_bars(outcomes);
    let n = outcomes.len() as int;
    let kbs = Seq::new(outcomes.len(), |k: int| outcomes[k].prove.peak_kb);
    let lines = chart_lines(outcomes);
    let part = bar_lines(title, rows);
    let r = lemma_memory_chart(title, rows, kbs, i, j);
    lemma_common_width(outcomes, bar_labels(rows));
    assert(forall|k: int| 0 <= k < part.len() ==> #[trigger] lines[n + 2 + k] == part[k]);
    assert(lines[n + 2 + 0] == part[0]);
    assert(lines[n + 2 + 1] == part[1]);
    assert(lines[n + 2 + (2 + i)] == part[2 + i]);
    assert(lines[n + 2 + (2 + j)] == part[2 + j]);
    lemma_memory_text(kbs[i]);
    lemma_memory_text(kbs[j]);
    assert(bar_drawn(lines[n + 4 + i], outcomes[i].circuit@, r.0, r.1, rows[i].display));
    assert(bar_drawn(lines[n + 4 + j], outcomes[j].circuit@, r.0, r.2, rows[j].display));
    r
}

/// Two bars of a chart of memory.
proof fn lemma_memory_chart(
    title: Seq<char>,
    rows: Seq<Bar>,
    kbs: Seq<u64>,
    i: int,
    j: int,
) -> (r: (nat, Drawn, Drawn))
    requires
        rows.len() == kbs.len(),
        0 <= i < rows.len(),
        0 <= j < rows.len(),
        forall|k: int| 0 <= k < rows.len() ==> #[trigger] rows[k].value == mb(kbs[k]),
    ensures
        bar_lines(title, rows).len() == rows.len() + 2,
        bar_lines(title, rows)[0] == ""@,
        bar_lines(title, rows)[1] == "\u{1b}[1m"@ + title + "\u{1b}[0m"@,
        r.0 == widest(bar_labels(rows)),
        bar_drawn(bar_lines(title, rows)[2 + i], rows[i].label, r.0, r.1, rows[i].display),
        bar_drawn(bar_lines(title, rows)[2 + j], rows[j].label, r.0, r.2, rows[j].display),
        memory_bars_scale(kbs, i, j, r.1, r.2),
{
    assert forall|k: int| 0 <= k < rows.len() implies normal(#[trigger] rows[k].value) by {
        lemma_nearest_normal(mb_hundredths(kbs[k]), 100);
    }
    let r = lemma_chart(title, rows, i, j);
    let a = mb_hundredths(kbs[i]);
    let b = mb_hundredths(kbs[j]);
    assert(rows[i].value == nearest(a, 100) && rows[j].value == nearest(b, 100));
    if kbs[i] >= kbs[j] {
        lemma_hundredths_order(kbs[j], kbs[i]);
        lemma_nearest_order(b, a, 100);
    }
    if is_greatest(kbs, i) {
        assert forall|k: int| 0 <= k < rows.len() implies at_least(
            rows[i].value,
            #[trigger] rows[k].value,
        ) by {
            assert(kbs[k] <= kbs[i]);
            lemma_hundredths_order(kbs[k], kbs[i]);
            lemma_nearest_order(mb_hundredths(kbs[k]), a, 100);
        }
        assert(kbs[j] <= kbs[i]);
        lemma_hundredths_order(kbs[j], kbs[i]);
        lemma_nearest_normal(a, 100);
        if kbs[i] < 6 {
            assert forall|k: int| 0 <= k < rows.len() implies #[trigger] rows[k].value == (
            0nat,
            0int) by {
                assert(kbs[k] <= kbs[i]);
                law_mb_is_the_nearest_hundredth(kbs[k]);
            }
        } else if kbs[i] < 0x4000_0000_0000 {
            lemma_memory_share(kbs[j], kbs[i]);
        }
    }
    r
}

/// The share that the memory of one circuit has of the memory of another.
proof fn lemma_memory_share(part: u64, whole: u64)
    requires
        part <= whole,
        6 <= whole < 0x4000_0000_0000,
    ensures
        ({
            let x = quotient(mb(part), mb(whole));
            &&& nearest_block(
                bar_length(x, 24),
                hundredths(part) as nat,
                hundredths(whole) as nat,
                24,
            )
            &&& hue_off_thresholds(bar_hue(x), hundredths(part), hundredths(whole))
        }),
{
    law_mb_is_the_nearest_hundredth(part);
    law_mb_is_the_nearest_hundredth(whole);
    let a = mb_hundredths(part);
    let b = mb_hundredths(whole);
    if a == 0 {
        assert(quotient(nearest(0, 100), nearest(b, 100)) == (0nat, 0int));
        lemma_zero_share(24);
    } else {
        lemma_quotient_of_hundredths_stands(a, b);
        let x = quotient(nearest(a, 100), nearest(b, 100));
        lemma_bar_is_nearest(x, a, b, 24);
        lemma_hue(x, a, b);
    }
}

proof fn lemma_memory_text(kb: u64)
    ensures
        kb < 0x4000_0000_0000 ==> mb_text(kb) == hundredths_text(hundredths(kb) as nat),
{
    if kb < 0x4000_0000_0000 {
        law_mb_is_the_nearest_hundredth(kb);
    }
}

/// Whether a line is a label, padded to a width, a blue segment for witness and a red one for
/// prove, as much space as 24 blocks leave, and both times.
pub open spec fn stack_drawn(
    line: Seq<char>,
    label: Seq<char>,
    width: nat,
    witness: nat,
    prove: nat,
    witness_ms: u64,
    prove_ms: u64,
) -> bool {
    &&& label.len() <= width
    &&& witness + prove <= 24
    &&& line == "  "@ + label + run_of(' ', width - label.len()) + "  "@ + "\u{1b}[34m"@ + run_of(
        '█',
        witness as int,
    ) + "\u{1b}[39m"@ + "\u{1b}[31m"@ + run_of('█', prove as int) + "\u{1b}[39m"@ + run_of(
        ' ',
        24 - witness - prove,
    ) + "  W"@ + digits(witness_ms as nat) + "ms P"@ + digits(prove_ms as nat) + "ms"@
}

/// Witness and prove time of an outcome together.
pub open spec fn time_of(o: Outcome) -> int {
    o.witness.time_ms + o.prove.time_ms
}

/// Whether an outcome took longest.
pub open spec fn took_longest(outcomes: Seq<Outcome>, i: int) -> bool {
    forall|k: int| 0 <= k < outcomes.len() ==> time_of(#[trigger] outcomes[k]) <= time_of(outcomes[i])
}

/// The last chart of a comparison shows how the time of each circuit splits: the whole bar goes by
/// the total, the circuit with the longest total fills it, and the segments go by the shares.
pub proof fn law_time_breakdown(outcomes: Seq<Outcome>, i: int, j: int) -> (r: (
    nat,
    (nat, nat),
    (nat, nat),
))
    requires
        0 <= i < outcomes.len(),
        0 <= j < outcomes.len(),
    ensures
        ({
            let lines = chart_lines(outcomes);
            let n = outcomes.len() as int;
            let (a, b) = (outcomes[i], outcomes[j]);
            &&& lines[2 * n + 4] == ""@
            &&& lines[2 * n + 5] == "\u{1b}[1m"@ + "time breakdown (witness + prove)"@ + "\u{1b}[0m"@
            &&& lines[2 * n + 6] == "  "@ + ("\u{1b}[34m"@ + "██"@ + "\u{1b}[39m"@)
                + " witness   "@ + ("\u{1b}[31m"@ + "██"@ + "\u{1b}[39m"@) + " prove"@
            &&& common_width(outcomes, r.0)
            &&& stack_drawn(
                lines[2 * n + 7 + i],
                a.circuit@,
                r.0,
                r.1.0,
                r.1.1,
                a.witness.time_ms,
                a.prove.time_ms,
            )
            &&& stack_drawn(
                lines[2 * n + 7 + j],
                b.circuit@,
                r.0,
                r.2.0,
                r.2.1,
                b.witness.time_ms,
                b.prove.time_ms,
            )
            &&& time_of(a) >= time_of(b) ==> r.1.0 + r.1.1 >= r.2.0 + r.2.1
            &&& took_longest(outcomes, i) && time_of(a) > 0 ==> r.1.0 + r.1.1 == 24
            &&& took_longest(outcomes, i) && 0 < time_of(a) < 0x800_0000_0000 ==> nearest_block(
                r.2.0 + r.2.1,
                time_of(b) as nat,
                time_of(a) as nat,
                24,
            )
            &&& 0 < time_of(b) < 0x800_0000_0000 ==> nearest_block(
                r.2.0,
                b.witness.time_ms as nat,
                time_of(b) as nat,
                r.2.0 + r.2.1,
            )
            &&& time_of(b) == 0 ==> r.2.0 + r.2.1 == 0
        }),
{
    let rows = splits(outcomes);
    let most = longest(rows);
    lemma_breakdown_head(outcomes);
    lemma_breakdown_line(outcomes, i);
    lemma_breakdown_line(outcomes, j);
    lemma_breakdown_lengths(outcomes, i, j);
    let (wi, wj) = (witness_length(rows[i], most), witness_length(rows[j], most));
    let (ti, tj) = (total_length(rows[i], most), total_length(rows[j], most));
    (widest(time_labels(rows)), (wi, (ti - wi) as nat), (wj, (tj - wj) as nat))
}

proof fn lemma_breakdown_head(outcomes: Seq<Outcome>)
    requires
        outcomes.len() > 0,
    ensures
        ({
            let lines = chart_lines(outcomes);
            let n = outcomes.len() as int;
            &&& lines[2 * n + 4] == ""@
            &&& lines[2 * n + 5] == "\u{1b}[1m"@ + "time breakdown (witness + prove)"@ + "\u{1b}[0m"@
            &&& lines[2 * n + 6] == "  "@ + ("\u{1b}[34m"@ + "██"@ + "\u{1b}[39m"@)
                + " witness   "@ + ("\u{1b}[31m"@ + "██"@ + "\u{1b}[39m"@) + " prove"@
        }),
        common_width(outcomes, widest(time_labels(splits(outcomes)))),
{
    let n = outcomes.len() as int;
    let lines = chart_lines(outcomes);
    let part = time_lines(splits(outcomes));
    lemma_common_width(outcomes, time_labels(splits(outcomes)));
    assert(lines[2 * n + 4] == part[0]);
    assert(lines[2 * n + 5] == part[1]);
    assert(lines[2 * n + 6] == part[2]);
}

proof fn lemma_breakdown_line(outcomes: Seq<Outcome>, i: int)
    requires
        0 <= i < outcomes.len(),
    ensures
        ({
            let o = outcomes[i];
            let row = splits(outcomes)[i];
            let most = longest(splits(outcomes));
            stack_drawn(
                chart_lines(outcomes)[2 * outcomes.len() + 7 + i],
                o.circuit@,
                widest(time_labels(splits(outcomes))),
                witness_length(row, most),
                (total_length(row, most) - witness_length(row, most)) as nat,
                o.witness.time_ms,
                o.prove.time_ms,
            )
        }),
{
    let rows = splits(outcomes);
    let part = time_lines(rows);
    let width = widest(time_labels(rows));
    let most = longest(rows);
    assert(time_labels(rows)[i] == rows[i].label@);
    lemma_widest(time_labels(rows), i);
    lemma_stack_drawn(rows[i], width, most);
    assert(part[3 + i] == time_line(rows[i], width, most));
    assert(chart_lines(outcomes)[2 * outcomes.len() + 7 + i] == part[3 + i]);
}

proof fn lemma_breakdown_lengths(outcomes: Seq<Outcome>, i: int, j: int)
    requires
        0 <= i < outcomes.len(),
        0 <= j < outcomes.len(),
    ensures
        ({
            let rows = splits(outcomes);
            let most = longest(rows);
            let (a, b) = (outcomes[i], outcomes[j]);
            let (s, t) = (total_length(rows[i], most), total_length(rows[j], most));
            &&& s <= 24 && t <= 24
            &&& witness_length(rows[i], most) <= s && witness_length(rows[j], most) <= t
            &&& time_of(a) >= time_of(b) ==> s >= t
            &&& took_longest(outcomes, i) && time_of(a) > 0 ==> s == 24
            &&& took_longest(outcomes, i) && 0 < time_of(a) < 0x800_0000_0000 ==> nearest_block(
                t,
                time_of(b) as nat,
                time_of(a) as nat,
                24,
            )
            &&& 0 < time_of(b) < 0x800_0000_0000 ==> nearest_block(
                witness_length(rows[j], most),
                b.witness.time_ms as nat,
                time_of(b) as nat,
                t,
            )
            &&& time_of(b) == 0 ==> t == 0
        }),
{
    let rows = splits(outcomes);
    let most = longest(rows);
    let (a, b) = (total(rows[i]), total(rows[j]));
    assert(a == time_of(outcomes[i]) && b == time_of(outcomes[j]));
    lemma_longest_bounds(rows, i);
    lemma_longest_bounds(rows, j);
    if a >= b {
        lemma_part_order(b, a, most, 24);
    }
    if took_longest(outcomes, i) {
        assert forall|k: int| 0 <= k < rows.len() implies total(#[trigger] rows[k]) <= total(
            rows[i],
        ) by {
            assert(time_of(outcomes[k]) <= time_of(outcomes[i]));
        }
        if a > 0 {
            law_longest_total_is_full(rows, i);
            lemma_longest(rows, i);
            assert(time_of(outcomes[j]) <= time_of(outcomes[i]));
            if a < 0x800_0000_0000 {
                lemma_integer_share(b, a, 24);
            }
        }
    }
    if 0 < b < 0x800_0000_0000 {
        lemma_integer_share(
            outcomes[j].witness.time_ms as nat,
            b,
            total_length(rows[j], most),
        );
    }
    if b == 0 {
        lemma_zero_share(24);
        assert(part_of(0, most) == (0nat, 0int)) by {
            if most > 0 {
                lemma_nearest_normal(most, 1);
            }
        }
    }
}

proof fn lemma_stack_drawn(row: TimeRow, width: nat, most: nat)
    requires
        row.label@.len() <= width,
    ensures
        stack_drawn(
            time_line(row, width, most),
            row.label@,
            width,
            witness_length(row, most),
            (total_length(row, most) - witness_length(row, most)) as nat,
            row.witness_ms,
            row.prove_ms,
        ),
{
    let w = witness_length(row, most);
    let t = total_length(row, most);
    let p = t - w;
    let line = "  "@ + row.label@ + run_of(' ', width - row.label@.len()) + "  "@ + "\u{1b}[34m"@
        + run_of('█', w as int) + "\u{1b}[39m"@ + "\u{1b}[31m"@ + run_of('█', p) + "\u{1b}[39m"@
        + run_of(' ', 24 - w - p) + "  W"@ + digits(row.witness_ms as nat) + "ms P"@ + digits(
        row.prove_ms as nat,
    ) + "ms"@;
    assert(time_line(row, width, most) =~= line);
}

proof fn lemma_longest_bounds(rows: Seq<TimeRow>, i: int)
    requires
        0 <= i < rows.len(),
    ensures
        total(rows[i]) <= longest(rows),
    decreases rows.len(),
{
    if i < rows.len() - 1 {
        lemma_longest_bounds(rows.drop_last(), i);
    }
}

proof fn lemma_part_order(a: nat, b: nat, whole: nat, width: nat)
    requires
        a <= b,
    ensures
        bar_length(part_of(a, whole), width) <= bar_length(part_of(b, whole), width),
{
    if whole > 0 {
        lemma_nearest_normal(a, 1);
        lemma_nearest_normal(b, 1);
        lemma_nearest_normal(whole, 1);
        lemma_nearest_order(a, b, 1);
        law_heavier_bar_is_no_shorter(nearest(a, 1), nearest(b, 1), nearest(whole, 1), width);
    }
}

} // verus!
