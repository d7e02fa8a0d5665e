//! Formatting of the console lines: decimal rendering of durations and
//! run numbers, the per-run output banners (the closing banner sized to
//! the digit width of the run index so that it matches the opening
//! banner), the per-run progress notice, and the final report lines
//! with total, average, highest and lowest.

use vstd::prelude::*;
use crate::stats::AggregateResult;

verus! {

/// The decimal digit character for `d`.
pub open spec fn spec_digit_char(d: int) -> char {
    if d == 0 {
        '0'
    } else if d == 1 {
        '1'
    } else if d == 2 {
        '2'
    } else if d == 3 {
        '3'
    } else if d == 4 {
        '4'
    } else if d == 5 {
        '5'
    } else if d == 6 {
        '6'
    } else if d == 7 {
        '7'
    } else if d == 8 {
        '8'
    } else {
        '9'
    }
}

/// The base-10 rendering of a non-negative number, most significant
/// digit first, with no leading zeros (and `0` rendered as itself).
pub open spec fn dec_str(n: int) -> Seq<char>
    decreases n,
{
    if n < 10 {
        seq![spec_digit_char(n)]
    } else {
        dec_str(n / 10).push(spec_digit_char(n % 10))
    }
}

/// How many decimal digits the rendering of `n` has.
pub open spec fn spec_digits(n: int) -> int
    decreases n,
{
    if n < 10 {
        1
    } else {
        1 + spec_digits(n / 10)
    }
}

pub proof fn lemma_spec_digits_pos(n: int)
    ensures
        spec_digits(n) >= 1,
    decreases n,
{
    if n >= 10 {
        lemma_spec_digits_pos(n / 10);
    }
}

/// The rendering is exactly as long as the digit count says.
pub proof fn lemma_dec_str_len(n: int)
    ensures
        dec_str(n).len() == spec_digits(n),
    decreases n,
{
    if n >= 10 {
        lemma_dec_str_len(n / 10);
    }
}

/// Ten to the `k`.
pub open spec fn spec_pow10(k: nat) -> int
    decreases k,
{
    if k == 0 {
        1
    } else {
        10 * spec_pow10((k - 1) as nat)
    }
}

proof fn lemma_spec_digits_le(n: int, k: int)
    requires
        0 <= n,
        1 <= k,
        n < spec_pow10(k as nat),
    ensures
        spec_digits(n) <= k,
    decreases k,
{
    if n >= 10 {
        assert(spec_pow10(k as nat) == 10 * spec_pow10((k - 1) as nat));
        if k == 1 {
            assert(spec_pow10(0nat) == 1);
        } else {
            assert(10 * (n / 10) <= n);
            lemma_spec_digits_le(n / 10, k - 1);
        }
    }
}

proof fn lemma_spec_digits_u32(n: int)
    requires
        0 <= n <= u32::MAX,
    ensures
        spec_digits(n) <= 10,
{
    assert(spec_pow10(0) == 1);
    assert(spec_pow10(1) == 10);
    assert(spec_pow10(2) == 100);
    assert(spec_pow10(3) == 1000);
    assert(spec_pow10(4) == 10000);
    assert(spec_pow10(5) == 100000);
    assert(spec_pow10(6) == 1000000);
    assert(spec_pow10(7) == 10000000);
    assert(spec_pow10(8) == 100000000);
    assert(spec_pow10(9) == 1000000000);
    assert(spec_pow10(10) == 10000000000);
    lemma_spec_digits_le(n, 10);
}

/// The digit width of a run index: the number of decimal digits its
/// rendering occupies, used to size the closing banner to the opening
/// one.
pub fn digit_width(i: u32) -> (r: u32)
    ensures
        r as int == spec_digits(i as int),
{
    let mut n: u32 = if i == 0 {
        1
    } else {
        i
    };
    let mut r: u32 = 1;
    proof {
        lemma_spec_digits_u32(i as int);
    }
    while n >= 10
        invariant
            r >= 1,
            (r - 1) + spec_digits(n as int) == spec_digits(i as int),
            spec_digits(i as int) <= 10,
        decreases n,
    {
        proof {
            lemma_spec_digits_pos(n as int / 10);
        }
        n = n / 10;
        r = r + 1;
    }
    r
}

/// The decimal digit as a one-character string slice.
fn digit_str(d: u128) -> (r: &'static str)
    requires
        d < 10,
    ensures
        r@ == seq![spec_digit_char(d as int)],
{
    proof {
        reveal_strlit("0");
        reveal_strlit("1");
        reveal_strlit("2");
        reveal_strlit("3");
        reveal_strlit("4");
        reveal_strlit("5");
        reveal_strlit("6");
        reveal_strlit("7");
        reveal_strlit("8");
        reveal_strlit("9");
    }
    let r = if d == 0 {
        "0"
    } else if d == 1 {
        "1"
    } else if d == 2 {
        "2"
    } else if d == 3 {
        "3"
    } else if d == 4 {
        "4"
    } else if d == 5 {
        "5"
    } else if d == 6 {
        "6"
    } else if d == 7 {
        "7"
    } else if d == 8 {
        "8"
    } else {
        "9"
    };
    proof {
        assert(r@ =~= seq![spec_digit_char(d as int)]);
    }
    r
}

/// Append the decimal rendering of `n` to `out`.
fn push_decimal(n: u128, out: &mut String)
    ensures
        final(out)@ == old(out)@ + dec_str(n as int),
    decreases n,
{
    if n >= 10 {
        push_decimal(n / 10, out);
    }
    out.append(digit_str(n % 10));
    proof {
        assert(out@ =~= old(out)@ + dec_str(n as int));
    }
}

/// The decimal rendering of a duration in milliseconds.
pub fn u128_to_decimal(n: u128) -> (r: String)
    ensures
        r@ == dec_str(n as int),
{
    let mut s = String::new();
    push_decimal(n, &mut s);
    proof {
        assert(s@ =~= dec_str(n as int));
    }
    s
}

/// The banner line printed above a run's echoed output.
pub open spec fn spec_run_banner(i: int) -> Seq<char> {
    "---------- Run "@ + dec_str(i) + " Output ----------"@
}

/// The dash-only line printed below a run's echoed output: its middle
/// dashes stand where the banner above put the run number.
pub open spec fn spec_run_banner_close(i: int) -> Seq<char> {
    "---------------"@ + Seq::new(spec_digits(i) as nat, |j: int| '-') + "------------------"@
}

/// The opening banner naming run `i` above its echoed output.
pub fn run_banner(i: u32) -> (r: String)
    ensures
        r@ == spec_run_banner(i as int),
{
    let mut s = String::from_str("---------- Run ");
    push_decimal(i as u128, &mut s);
    s.append(" Output ----------");
    s
}

/// The closing banner under a run's echoed output, sized to the digit
/// width of the run index so that it is exactly as long as the opening
/// banner.
pub fn run_banner_close(i: u32) -> (r: String)
    ensures
        r@ == spec_run_banner_close(i as int),
        r@.len() == spec_run_banner(i as int).len(),
{
    let width = digit_width(i);
    let mut s = String::from_str("---------------");
    let mut j: u32 = 0;
    while j < width
        invariant
            j <= width,
            width as int == spec_digits(i as int),
            s@ == "---------------"@ + Seq::new(j as nat, |k: int| '-'),
        decreases width - j,
    {
        s.append("-");
        proof {
            reveal_strlit("-");
            assert(s@ =~= "---------------"@ + Seq::new((j + 1) as nat, |k: int| '-'));
        }
        j = j + 1;
    }
    proof {
        assert(s@ == "---------------"@ + Seq::new(spec_digits(i as int) as nat, |k: int| '-'));
    }
    s.append("------------------");
    proof {
        reveal_strlit("---------- Run ");
        reveal_strlit(" Output ----------");
        reveal_strlit("---------------");
        reveal_strlit("------------------");
        lemma_dec_str_len(i as int);
    }
    s
}

/// The final report: one line each for the total and the floor-average
/// duration, and for the highest and the lowest duration with the
/// one-based number of the run that produced it.
pub fn report_lines(agg: &AggregateResult) -> (r: Vec<String>)
    requires
        agg.highest.index < u32::MAX,
        agg.lowest.index < u32::MAX,
    ensures
        r@.len() == 4,
        r@[0]@ == "Total time: "@ + dec_str(agg.total as int) + "ms"@,
        r@[1]@ == "Average time: "@ + dec_str(agg.average as int) + "ms"@,
        r@[2]@ == "Highest time was "@ + dec_str(agg.highest.value as int) + "ms on run "@
            + dec_str(agg.highest.index as int + 1),
        r@[3]@ == "Lowest time was "@ + dec_str(agg.lowest.value as int) + "ms on run "@
            + dec_str(agg.lowest.index as int + 1),
{
    let mut lines: Vec<String> = Vec::new();
    let mut total_line = String::from_str("Total time: ");
    push_decimal(agg.total, &mut total_line);
    total_line.append("ms");
    lines.push(total_line);
    let mut average_line = String::from_str("Average time: ");
    push_decimal(agg.average, &mut average_line);
    average_line.append("ms");
    lines.push(average_line);
    let mut highest_line = String::from_str("Highest time was ");
    push_decimal(agg.highest.value, &mut highest_line);
    highest_line.append("ms on run ");
    push_decimal((agg.highest.index as u128) + 1, &mut highest_line);
    lines.push(highest_line);
    let mut lowest_line = String::from_str("Lowest time was ");
    push_decimal(agg.lowest.value, &mut lowest_line);
    lowest_line.append("ms on run ");
    push_decimal((agg.lowest.index as u128) + 1, &mut lowest_line);
    lines.push(lowest_line);
    lines
}

/// The progress notice emitted before run `i` starts, naming it by its
/// one-based number.
pub fn progress_line(i: u32) -> (r: String)
    requires
        i < u32::MAX,
    ensures
        r@ == "Run "@ + dec_str(i as int + 1) + "..."@,
{
    let mut s = String::from_str("Run ");
    push_decimal((i as u128) + 1, &mut s);
    s.append("...");
    s
}

} // verus!
