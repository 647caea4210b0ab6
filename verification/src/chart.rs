//! Bar charts of block characters.
//!
//! Lengths are computed in double precision, as described in [`crate::double`].
use crate::double::{
    at_least, half_even, law_nearest_errs_by_half_a_unit, lemma_at_least, lemma_power_order,
    lemma_scaled, moderate, nearest, normal, product, quotient, rounded, scaled, Double, LEAST,
    LIMIT,
};
use crate::paint::{blue, blue_text, bold, bold_text, paint, painted, red, red_text, Hue};
use crate::precision::{
    law_product_keeps_order, law_quotient_keeps_order, law_quotient_of_equals,
    law_rounding_keeps_order,
};
use crate::text::{copies, decimal, digits, left_aligned, pad_right, push_copies, repeat};
use crate::tools::texts;
use vstd::arithmetic::power2::pow2;
use vstd::prelude::*;

verus! {

/// Full-bar width in block characters. Fixed (fits comfortably in ~80 columns
/// alongside the label and value), so the terminal size is not asked for.
pub const BAR_WIDTH: u32 = 24;

/// One horizontal bar: a label, the number it is scaled by, and the text shown at its end.
#[derive(Debug)]
pub struct BarRow {
    pub label: String,
    pub value: Double,
    pub display: String,
}

/// What a [`BarRow`] says.
pub struct Bar {
    pub label: Seq<char>,
    pub value: (nat, int),
    pub display: Seq<char>,
}

impl View for BarRow {
    type V = Bar;

    open spec fn view(&self) -> Bar {
        Bar { label: self.label@, value: self.value@, display: self.display@ }
    }
}

/// What rows say.
pub open spec fn bars(rows: Seq<BarRow>) -> Seq<Bar> {
    rows.map_values(|r: BarRow| r@)
}

/// The greatest length of the labels.
pub open spec fn widest(labels: Seq<Seq<char>>) -> nat
    decreases labels.len(),
{
    if labels.len() == 0 {
        0
    } else {
        let w = widest(labels.drop_last());
        if labels.last().len() > w {
            labels.last().len()
        } else {
            w
        }
    }
}

/// The greatest of the values; zero where there is none.
pub open spec fn largest(rows: Seq<Bar>) -> (nat, int)
    decreases rows.len(),
{
    if rows.len() == 0 {
        (0, 0)
    } else {
        let m = largest(rows.drop_last());
        if at_least(m, rows.last().value) {
            m
        } else {
            rows.last().value
        }
    }
}

/// A number, or `cap` where that is smaller.
pub open spec fn capped(n: nat, cap: nat) -> nat {
    if n <= cap {
        n
    } else {
        cap
    }
}

/// The share that a value has of the greatest one; nothing in a chart of zeros.
pub open spec fn share(value: (nat, int), most: (nat, int)) -> (nat, int) {
    if most.0 > 0 {
        quotient(value, most)
    } else {
        (0, 0)
    }
}

/// The length of a bar that stands for a share of `width` blocks.
pub open spec fn bar_length(share: (nat, int), width: nat) -> nat {
    capped(rounded(product(share, width)), width)
}

/// The colour of a bar: heaviest red, lightest green, with amber in between.
pub open spec fn bar_hue(share: (nat, int)) -> Hue {
    if at_least(share, nearest(66, 100)) {
        Hue::Red
    } else if at_least(share, nearest(33, 100)) {
        Hue::Yellow
    } else {
        Hue::Green
    }
}

/// A line of a bar chart: label, bar, value.
pub open spec fn bar_line(row: Bar, width: nat, most: (nat, int)) -> Seq<char> {
    let s = share(row.value, most);
    let filled = bar_length(s, BAR_WIDTH as nat);
    "  "@ + left_aligned(row.label, width) + "  "@ + painted(
        bar_hue(s),
        copies('█', filled) + copies('░', (BAR_WIDTH - filled) as nat),
    ) + "  "@ + row.display
}

/// The labels of rows.
pub open spec fn bar_labels(rows: Seq<Bar>) -> Seq<Seq<char>> {
    rows.map_values(|r: Bar| r.label)
}

/// The lines of a bar chart. A chart without rows has none.
pub open spec fn bar_lines(title: Seq<char>, rows: Seq<Bar>) -> Seq<Seq<char>> {
    if rows.len() == 0 {
        Seq::empty()
    } else {
        let width = widest(bar_labels(rows));
        let most = largest(rows);
        seq![""@, bold_text(title)] + rows.map_values(|r: Bar| bar_line(r, width, most))
    }
}

/// A circuit in the breakdown of time.
#[derive(Debug)]
pub struct TimeRow {
    pub label: String,
    pub witness_ms: u64,
    pub prove_ms: u64,
}

/// The labels of rows.
pub open spec fn time_labels(rows: Seq<TimeRow>) -> Seq<Seq<char>> {
    rows.map_values(|r: TimeRow| r.label@)
}

/// Witness and prove time together.
pub open spec fn total(row: TimeRow) -> nat {
    (row.witness_ms + row.prove_ms) as nat
}

/// The greatest total.
pub open spec fn longest(rows: Seq<TimeRow>) -> nat
    decreases rows.len(),
{
    if rows.len() == 0 {
        0
    } else {
        let m = longest(rows.drop_last());
        if total(rows.last()) > m {
            total(rows.last())
        } else {
            m
        }
    }
}

/// The share that `part` has of `whole`; nothing where the whole is zero.
pub open spec fn part_of(part: nat, whole: nat) -> (nat, int) {
    if whole > 0 {
        quotient(nearest(part, 1), nearest(whole, 1))
    } else {
        (0, 0)
    }
}

/// The length of the whole bar of a row.
pub open spec fn total_length(row: TimeRow, most: nat) -> nat {
    bar_length(part_of(total(row), most), BAR_WIDTH as nat)
}

/// The length of the witness segment of a row.
pub open spec fn witness_length(row: TimeRow, most: nat) -> nat {
    bar_length(part_of(row.witness_ms as nat, total(row)), total_length(row, most))
}

/// A line of the breakdown: label, witness segment, prove segment, padding, both times.
pub open spec fn time_line(row: TimeRow, width: nat, most: nat) -> Seq<char> {
    let whole = total_length(row, most);
    let witness = witness_length(row, most);
    "  "@ + left_aligned(row.label@, width) + "  "@ + blue_text(copies('█', witness)) + red_text(
        copies('█', (whole - witness) as nat),
    ) + copies(' ', (BAR_WIDTH - whole) as nat) + "  W"@ + digits(row.witness_ms as nat) + "ms P"@
        + digits(row.prove_ms as nat) + "ms"@
}

/// The lines of the breakdown of time. Without rows there are none.
pub open spec fn time_lines(rows: Seq<TimeRow>) -> Seq<Seq<char>> {
    if rows.len() == 0 {
        Seq::empty()
    } else {
        let width = widest(time_labels(rows));
        let most = longest(rows);
        seq![
            ""@,
            bold_text("time breakdown (witness + prove)"@),
            "  "@ + blue_text("██"@) + " witness   "@ + red_text("██"@) + " prove"@,
        ] + rows.map_values(|r: TimeRow| time_line(r, width, most))
    }
}

proof fn lemma_texts_push(v: Seq<String>, s: String)
    ensures
        texts(v.push(s)) == texts(v).push(s@),
{
    assert(texts(v.push(s)) =~= texts(v).push(s@));
}

fn bar_text(row: &BarRow, width: usize, most: Double) -> (r: String)
    requires
        moderate(row.value@),
        moderate(most@),
    ensures
        r@ == bar_line(row@, width as nat, most@),
{
    let s = if most.significand > 0 {
        row.value.over(most)
    } else {
        Double::zero()
    };
    let filled = s.times(BAR_WIDTH).round_at_most(BAR_WIDTH);
    let hue = if s.reaches(Double::from_fraction(66, 100)) {
        Hue::Red
    } else if s.reaches(Double::from_fraction(33, 100)) {
        Hue::Yellow
    } else {
        Hue::Green
    };
    let mut bar = repeat('█', filled as usize);
    push_copies(&mut bar, '░', (BAR_WIDTH - filled) as usize);
    let mut r = String::from_str("  ");
    r.append(&pad_right(&row.label, width));
    r.append("  ");
    r.append(&paint(hue, &bar));
    r.append("  ");
    r.append(&row.display);
    r
}

/// Draws a horizontal bar chart. The largest value fills [`BAR_WIDTH`] blocks;
/// the rest scale proportionally. Bars are colored by magnitude (heaviest red,
/// lightest green), so the expensive circuit pops out at a glance.
pub fn bar_chart(title: &str, rows: &Vec<BarRow>) -> (r: Vec<String>)
    requires
        forall|i: int| 0 <= i < rows@.len() ==> moderate(#[trigger] rows@[i].value@),
    ensures
        texts(r@) == bar_lines(title@, bars(rows@)),
{
    let mut r: Vec<String> = Vec::new();
    if rows.len() == 0 {
        assert(texts(r@) =~= Seq::<Seq<char>>::empty());
        return r;
    }
    let mut width: usize = 0;
    let mut most = Double::zero();
    let mut i: usize = 0;
    let ghost b = bars(rows@);
    let ghost names = bar_labels(b);
    while i < rows.len()
        invariant
            i <= rows.len(),
            b == bars(rows@),
            names == bar_labels(b),
            width == widest(names.take(i as int)),
            most@ == largest(b.take(i as int)),
            moderate(most@),
            forall|k: int| 0 <= k < rows@.len() ==> moderate(#[trigger] rows@[k].value@),
        decreases rows.len() - i,
    {
        let n = rows[i].label.as_str().unicode_len();
        assert(names.take(i + 1).drop_last() == names.take(i as int));
        assert(b.take(i + 1).drop_last() == b.take(i as int));
        if n > width {
            width = n;
        }
        if !most.reaches(rows[i].value) {
            most = rows[i].value;
        }
        i = i + 1;
    }
    assert(names.take(i as int) == names);
    assert(b.take(i as int) == b);
    r.push(String::new());
    r.push(bold(title));
    let ghost head = seq![""@, bold_text(title@)];
    let ghost f = |x: Bar| bar_line(x, width as nat, most@);
    proof {
        reveal_strlit("");
        assert(""@ =~= Seq::<char>::empty());
    }
    assert(texts(r@) =~= head + b.take(0).map_values(f));
    let mut i: usize = 0;
    while i < rows.len()
        invariant
            i <= rows.len(),
            b == bars(rows@),
            moderate(most@),
            forall|k: int| 0 <= k < rows@.len() ==> moderate(#[trigger] rows@[k].value@),
            f == (|x: Bar| bar_line(x, width as nat, most@)),
            texts(r@) == head + b.take(i as int).map_values(f),
        decreases rows.len() - i,
    {
        let line = bar_text(&rows[i], width, most);
        proof {
            lemma_texts_push(r@, line);
            assert((head + b.take(i as int).map_values(f)).push(line@) =~= head + b.take(
                i + 1,
            ).map_values(f));
        }
        r.push(line);
        i = i + 1;
    }
    assert(b.take(i as int) == b);
    r
}

fn part_length(part: u64, whole: u64, width: u32) -> (r: u32)
    requires
        width <= BAR_WIDTH,
    ensures
        r == bar_length(part_of(part as nat, whole as nat), width as nat),
        r <= width,
{
    let s = if whole > 0 {
        Double::from_integer(part).over(Double::from_integer(whole))
    } else {
        Double::zero()
    };
    s.times(width).round_at_most(width)
}

fn time_text(row: &TimeRow, width: usize, most: u64) -> (r: String)
    requires
        total(*row) <= u64::MAX,
    ensures
        r@ == time_line(*row, width as nat, most as nat),
{
    let sum = row.witness_ms + row.prove_ms;
    let whole = part_length(sum, most, BAR_WIDTH);
    let witness = part_length(row.witness_ms, sum, whole);
    let mut r = String::from_str("  ");
    r.append(&pad_right(&row.label, width));
    r.append("  ");
    r.append(&blue(&repeat('█', witness as usize)));
    r.append(&red(&repeat('█', (whole - witness) as usize)));
    push_copies(&mut r, ' ', (BAR_WIDTH - whole) as usize);
    r.append("  W");
    r.append(&decimal(row.witness_ms as u128));
    r.append("ms P");
    r.append(&decimal(row.prove_ms as u128));
    r.append("ms");
    r
}

/// Draws a stacked witness+prove time bar per circuit: a blue witness segment
/// joined to a red prove segment. The whole bar's length is proportional to the
/// sum (witness + prove), so the circuit with the largest total fills the full
/// width; within each bar the two colors show how the time splits.
pub fn time_breakdown(rows: &Vec<TimeRow>) -> (r: Vec<String>)
    requires
        forall|i: int| 0 <= i < rows@.len() ==> total(#[trigger] rows@[i]) <= u64::MAX,
    ensures
        texts(r@) == time_lines(rows@),
{
    let mut r: Vec<String> = Vec::new();
    if rows.len() == 0 {
        assert(texts(r@) =~= Seq::<Seq<char>>::empty());
        return r;
    }
    let mut width: usize = 0;
    let mut most: u64 = 0;
    let mut i: usize = 0;
    let ghost names = time_labels(rows@);
    while i < rows.len()
        invariant
            i <= rows.len(),
            names == time_labels(rows@),
            width == widest(names.take(i as int)),
            most == longest(rows@.take(i as int)),
            forall|k: int| 0 <= k < rows@.len() ==> total(#[trigger] rows@[k]) <= u64::MAX,
        decreases rows.len() - i,
    {
        let n = rows[i].label.as_str().unicode_len();
        assert(names.take(i + 1).drop_last() == names.take(i as int));
        assert(rows@.take(i + 1).drop_last() == rows@.take(i as int));
        assert(total(rows@[i as int]) <= u64::MAX);
        let sum = rows[i].witness_ms + rows[i].prove_ms;
        if n > width {
            width = n;
        }
        if sum > most {
            most = sum;
        }
        i = i + 1;
    }
    assert(names.take(i as int) == names);
    assert(rows@.take(i as int) == rows@);
    let mut legend = String::from_str("  ");
    legend.append(&blue("██"));
    legend.append(" witness   ");
    legend.append(&red("██"));
    legend.append(" prove");
    r.push(String::new());
    r.push(bold("time breakdown (witness + prove)"));
    r.push(legend);
    let ghost head = seq![
        ""@,
        bold_text("time breakdown (witness + prove)"@),
        "  "@ + blue_text("██"@) + " witness   "@ + red_text("██"@) + " prove"@,
    ];
    let ghost f = |x: TimeRow| time_line(x, width as nat, most as nat);
    proof {
        reveal_strlit("");
        assert(""@ =~= Seq::<char>::empty());
    }
    assert(texts(r@) =~= head + rows@.take(0).map_values(f));
    let mut i: usize = 0;
    while i < rows.len()
        invariant
            i <= rows.len(),
            forall|k: int| 0 <= k < rows@.len() ==> total(#[trigger] rows@[k]) <= u64::MAX,
            f == (|x: TimeRow| time_line(x, width as nat, most as nat)),
            texts(r@) == head + rows@.take(i as int).map_values(f),
        decreases rows.len() - i,
    {
        let line = time_text(&rows[i], width, most);
        proof {
            lemma_texts_push(r@, line);
            assert((head + rows@.take(i as int).map_values(f)).push(line@) =~= head + rows@.take(
                i + 1,
            ).map_values(f));
        }
        r.push(line);
        i = i + 1;
    }
    assert(rows@.take(i as int) == rows@);
    r
}

/// The whole fills the full width.
proof fn lemma_whole_bar()
    ensures
        bar_length((LEAST as nat, -52int), BAR_WIDTH as nat) == BAR_WIDTH,
{
    vstd::arithmetic::power2::lemma2_to64();
    vstd::arithmetic::power2::lemma2_to64_rest();
    let n = (LEAST * BAR_WIDTH) as nat;
    lemma_scaled(n, 1, 0);
    let s = scaled(n, 1, 0);
    let p = pow2(s.2 as nat);
    assert(1 * p == p);
    assert(12 < p <= 24) by (nonlinear_arith)
        requires
            p * LEAST <= n < p * LIMIT,
            n == 24 * LEAST,
            LIMIT == 2 * LEAST,
            LEAST == 0x10_0000_0000_0000,
    ;
    lemma_power_order(3, s.2 as nat);
    lemma_power_order(s.2 as nat, 5);
    assert(s.2 == 4);
    assert(half_even(n, 16) == 3 * LEAST / 2);
    assert(nearest(n, 1) == (0x18_0000_0000_0000nat, 4int));
    assert((LEAST as nat) * (BAR_WIDTH as nat) == n);
    assert(product((LEAST as nat, -52int), BAR_WIDTH as nat) == (0x18_0000_0000_0000nat, -48int));
    assert(pow2(48) == 0x1_0000_0000_0000);
    let q = pow2((-(-48int)) as nat);
    assert(q == 0x1_0000_0000_0000);
    assert((2 * 0x18_0000_0000_0000nat + q) / (2 * q) == 24) by (nonlinear_arith)
        requires
            q == 0x1_0000_0000_0000,
    ;
}

/// The bars scale with the values: a heavier one is never shorter.
pub proof fn law_heavier_bar_is_no_shorter(
    light: (nat, int),
    heavy: (nat, int),
    most: (nat, int),
    width: nat,
)
    requires
        normal(light),
        normal(heavy),
        normal(most),
        at_least(heavy, light),
    ensures
        bar_length(share(light, most), width) <= bar_length(share(heavy, most), width),
{
    if most.0 > 0 {
        law_quotient_keeps_order(light, heavy, most);
        let a = quotient(light, most);
        let b = quotient(heavy, most);
        law_product_keeps_order(a, b, width);
        law_rounding_keeps_order(product(a, width), product(b, width));
    }
}

/// The greatest of the values is one of them, and none is greater.
pub proof fn law_largest_is_greatest(rows: Seq<Bar>, i: int)
    requires
        0 <= i < rows.len(),
        forall|k: int| 0 <= k < rows.len() ==> normal(#[trigger] rows[k].value),
    ensures
        normal(largest(rows)),
        at_least(largest(rows), rows[i].value),
        largest(rows).0 > 0 ==> exists|k: int|
            0 <= k < rows.len() && #[trigger] rows[k].value == largest(rows),
    decreases rows.len(),
{
    let before = rows.drop_last();
    let m = largest(before);
    let n = rows.len() - 1;
    assert(forall|k: int| 0 <= k < n ==> before[k] == rows[k]);
    assert(forall|k: int| 0 <= k < n ==> normal(#[trigger] before[k].value));
    if n == 0 {
        lemma_at_least(m, rows[n].value);
        lemma_at_least(rows[n].value, rows[n].value);
        assert(rows[n].value == rows.last().value);
    } else {
        let j = if i < n {
            i
        } else {
            0
        };
        law_largest_is_greatest(before, j);
        lemma_at_least(m, rows[n].value);
        lemma_at_least(rows[n].value, rows[n].value);
        lemma_at_least(m, rows[j].value);
        lemma_at_least(rows[n].value, rows[j].value);
        if largest(rows).0 > 0 {
            if at_least(m, rows.last().value) {
                let k = choose|k: int| 0 <= k < before.len() && #[trigger] before[k].value == m;
                assert(rows[k].value == m);
            } else {
                assert(rows[n].value == largest(rows));
            }
        }
    }
}

/// The largest value fills the whole bar.
pub proof fn law_largest_bar_is_full(rows: Seq<Bar>, i: int)
    requires
        0 <= i < rows.len(),
        forall|k: int| 0 <= k < rows.len() ==> normal(#[trigger] rows[k].value),
        forall|k: int| 0 <= k < rows.len() ==> at_least(rows[i].value, #[trigger] rows[k].value),
        rows[i].value.0 > 0,
    ensures
        bar_length(share(rows[i].value, largest(rows)), BAR_WIDTH as nat) == BAR_WIDTH,
{
    let most = largest(rows);
    law_largest_is_greatest(rows, i);
    lemma_at_least(most, rows[i].value);
    law_quotient_of_equals(most);
    lemma_whole_bar();
    law_heavier_bar_is_no_shorter(most, rows[i].value, most, BAR_WIDTH as nat);
}

/// The greatest total is that of a row that no other exceeds.
pub proof fn lemma_longest(rows: Seq<TimeRow>, i: int)
    requires
        0 <= i < rows.len(),
        forall|k: int| 0 <= k < rows.len() ==> total(#[trigger] rows[k]) <= total(rows[i]),
    ensures
        longest(rows) == total(rows[i]),
    decreases rows.len(),
{
    let before = rows.drop_last();
    if i < rows.len() - 1 {
        assert forall|k: int| 0 <= k < before.len() implies total(#[trigger] before[k]) <= total(
            before[i],
        ) by {
            assert(total(rows[k]) <= total(rows[i]));
        }
        lemma_longest(before, i);
    } else {
        assert forall|k: int| 0 <= k < before.len() implies total(#[trigger] before[k]) <= total(
            rows[i],
        ) by {
            assert(total(rows[k]) <= total(rows[i]));
        }
        lemma_longest_bound(before, total(rows[i]));
    }
}

proof fn lemma_longest_bound(rows: Seq<TimeRow>, bound: nat)
    requires
        forall|k: int| 0 <= k < rows.len() ==> total(#[trigger] rows[k]) <= bound,
    ensures
        longest(rows) <= bound,
    decreases rows.len(),
{
    if rows.len() > 0 {
        let before = rows.drop_last();
        assert(forall|k: int| 0 <= k < before.len() ==> #[trigger] before[k] == rows[k]);
        lemma_longest_bound(before, bound);
    }
}

/// The circuit with the largest total fills the whole bar of the breakdown.
pub proof fn law_longest_total_is_full(rows: Seq<TimeRow>, i: int)
    requires
        0 <= i < rows.len(),
        forall|k: int| 0 <= k < rows.len() ==> total(#[trigger] rows[k]) <= total(rows[i]),
        total(rows[i]) > 0,
    ensures
        total_length(rows[i], longest(rows)) == BAR_WIDTH,
{
    lemma_longest(rows, i);
    law_nearest_errs_by_half_a_unit(total(rows[i]), 1);
    law_quotient_of_equals(nearest(total(rows[i]), 1));
    lemma_whole_bar();
}

/// The bars line up: every label is brought to the same length.
pub proof fn law_bars_line_up(labels: Seq<Seq<char>>, i: int)
    requires
        0 <= i < labels.len(),
    ensures
        left_aligned(labels[i], widest(labels)).len() == widest(labels),
    decreases labels.len(),
{
    if i < labels.len() - 1 {
        law_bars_line_up(labels.drop_last(), i);
    }
}

} // verus!
