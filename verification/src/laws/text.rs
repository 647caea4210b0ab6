//! Text can be read back: numbers from their digits, what was padded, trimmed or searched for.
use crate::text::{
    copies, digit, digits, hundredths_text, is_white, left_aligned, occurs, occurs_at, tenths_text,
    trim, trim_end, trim_start,
};
use vstd::prelude::*;

verus! {

/// The number that a text of decimal digits stands for.
pub open spec fn number(s: Seq<char>) -> int
    decreases s.len(),
{
    if s.len() == 0 {
        0
    } else {
        number(s.drop_last()) * 10 + (s.last() as int - '0' as int)
    }
}

/// Whether a text consists of decimal digits.
pub open spec fn numeric(s: Seq<char>) -> bool {
    forall|i: int| 0 <= i < s.len() ==> '0' <= #[trigger] s[i] <= '9'
}

proof fn lemma_digit(d: nat)
    requires
        d < 10,
    ensures
        digit(d) as int == '0' as int + d,
        '0' <= digit(d) <= '9',
{
}

/// A number in decimal reads back as that number, without needless zeros.
pub proof fn law_decimal_reads_back(n: nat)
    ensures
        numeric(digits(n)),
        number(digits(n)) == n,
        digits(n).len() > 0,
        digits(n)[0] == '0' ==> digits(n).len() == 1,
    decreases n,
{
    let s = digits(n);
    lemma_digit(n % 10);
    if n < 10 {
        lemma_digit(n);
        assert(s.drop_last() =~= Seq::<char>::empty());
        assert(number(s.drop_last()) == 0);
    } else {
        law_decimal_reads_back(n / 10);
        assert(s.drop_last() =~= digits(n / 10));
        if digits(n / 10)[0] == '0' {
            assert(digits(n / 10) =~= seq!['0']);
            assert(seq!['0'].drop_last() =~= Seq::<char>::empty());
            assert(number(seq!['0'].drop_last()) == 0);
            assert(number(seq!['0']) == 0);
        }
    }
}

/// A count of tenths reads back: a whole number, a point, and one digit.
pub proof fn law_tenths_read_back(n: nat)
    ensures
        ({
            let s = tenths_text(n);
            let w = s.len() - 2;
            &&& w > 0
            &&& s.take(w) == digits(n / 10)
            &&& s[w] == '.'
            &&& numeric(s.skip(w + 1))
            &&& number(s.take(w)) * 10 + number(s.skip(w + 1)) == n
        }),
{
    let s = tenths_text(n);
    let w = s.len() - 2;
    law_decimal_reads_back(n / 10);
    lemma_digit(n % 10);
    let t = seq![digit(n % 10)];
    assert(s.take(w) =~= digits(n / 10));
    assert(s.skip(w + 1) =~= t);
    assert(t.drop_last() =~= Seq::<char>::empty());
    assert(number(t.drop_last()) == 0);
}

/// A count of hundredths reads back: a whole number, a point, and two digits.
pub proof fn law_hundredths_read_back(n: nat)
    ensures
        ({
            let s = hundredths_text(n);
            let w = s.len() - 3;
            &&& w > 0
            &&& s.take(w) == digits(n / 100)
            &&& s[w] == '.'
            &&& numeric(s.skip(w + 1))
            &&& number(s.take(w)) * 100 + number(s.skip(w + 1)) == n
        }),
{
    let s = hundredths_text(n);
    let w = s.len() - 3;
    law_decimal_reads_back(n / 100);
    lemma_digit(n % 100 / 10);
    lemma_digit(n % 10);
    let t = seq![digit(n % 100 / 10), digit(n % 10)];
    let u = seq![digit(n % 100 / 10)];
    assert(s.take(w) =~= digits(n / 100));
    assert(s.skip(w + 1) =~= t);
    assert(t.drop_last() =~= u);
    assert(u.drop_last() =~= Seq::<char>::empty());
    assert(number(u.drop_last()) == 0);
    assert(number(u) == n % 100 / 10);
    assert(n % 100 / 10 * 10 + n % 10 == n % 100);
}

/// Padded text starts with the text, has the width asked for, and holds nothing but spaces beyond.
pub proof fn law_padding(s: Seq<char>, width: nat)
    ensures
        left_aligned(s, width).len() == if s.len() < width {
            width
        } else {
            s.len()
        },
        left_aligned(s, width).take(s.len() as int) == s,
        forall|i: int|
            s.len() <= i < left_aligned(s, width).len() ==> #[trigger] left_aligned(s, width)[i]
                == ' ',
{
}

/// Copies of a character are as many as asked for, and nothing else.
pub proof fn law_copies(c: char, n: nat)
    ensures
        copies(c, n).len() == n,
        forall|i: int| 0 <= i < n ==> #[trigger] copies(c, n)[i] == c,
{
}

/// Trimming takes white space off both ends, all of it, and nothing else.
pub proof fn law_trim(s: Seq<char>) -> (r: (int, int))
    ensures
        0 <= r.0 <= r.1 <= s.len(),
        trim(s) == s.subrange(r.0, r.1),
        forall|i: int| 0 <= i < r.0 || r.1 <= i < s.len() ==> is_white(#[trigger] s[i]),
        r.0 < r.1 ==> !is_white(s[r.0]) && !is_white(s[r.1 - 1]),
{
    let a = lemma_trim_start(s);
    let t = s.skip(a);
    let b = lemma_trim_end(t);
    assert(t.take(b) =~= s.subrange(a, a + b));
    assert forall|i: int| 0 <= i < a || a + b <= i < s.len() implies is_white(#[trigger] s[i]) by {
        if i >= a {
            assert(t[i - a] == s[i]);
        }
    }
    if b > 0 {
        assert(t[b - 1] == s[a + b - 1]);
    }
    (a, a + b)
}

proof fn lemma_trim_start(s: Seq<char>) -> (a: int)
    ensures
        0 <= a <= s.len(),
        trim_start(s) == s.skip(a),
        forall|i: int| 0 <= i < a ==> is_white(#[trigger] s[i]),
        a < s.len() ==> !is_white(s[a]),
    decreases s.len(),
{
    if s.len() > 0 && is_white(s.first()) {
        let b = lemma_trim_start(s.drop_first());
        assert(s.drop_first().skip(b) =~= s.skip(b + 1));
        assert forall|i: int| 0 <= i < b + 1 implies is_white(#[trigger] s[i]) by {
            if i > 0 {
                assert(s.drop_first()[i - 1] == s[i]);
            }
        }
        b + 1
    } else {
        assert(s.skip(0) =~= s);
        0
    }
}

proof fn lemma_trim_end(s: Seq<char>) -> (b: int)
    ensures
        0 <= b <= s.len(),
        trim_end(s) == s.take(b),
        forall|i: int| b <= i < s.len() ==> is_white(#[trigger] s[i]),
        b > 0 ==> !is_white(s[b - 1]),
    decreases s.len(),
{
    if s.len() > 0 && is_white(s.last()) {
        let b = lemma_trim_end(s.drop_last());
        assert(s.drop_last().take(b) =~= s.take(b));
        assert forall|i: int| b <= i < s.len() implies is_white(#[trigger] s[i]) by {
            if i < s.len() - 1 {
                assert(s.drop_last()[i] == s[i]);
            }
        }
        b
    } else {
        assert(s.take(s.len() as int) =~= s);
        s.len() as int
    }
}

/// A text is found wherever it stands.
pub proof fn law_text_is_found(before: Seq<char>, part: Seq<char>, after: Seq<char>)
    ensures
        occurs(before + part + after, part),
{
    let s = before + part + after;
    let i = before.len() as int;
    assert(s.subrange(i, i + part.len()) =~= part);
    assert(occurs_at(s, part, i));
}

/// A text that is found stands somewhere.
pub proof fn law_found_text_stands_somewhere(s: Seq<char>, part: Seq<char>) -> (r: (
    Seq<char>,
    Seq<char>,
))
    requires
        occurs(s, part),
    ensures
        s == r.0 + part + r.1,
{
    let i = choose|i: int| occurs_at(s, part, i);
    let r = (s.take(i), s.skip(i + part.len()));
    let p = s.subrange(i, i + part.len());
    assert(p == part);
    assert(s =~= r.0 + p + r.1);
    r
}

} // verus!
