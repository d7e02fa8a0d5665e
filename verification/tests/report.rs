use runbench::report::{
    digit_width, progress_line, report_lines, run_banner, run_banner_close, u128_to_decimal,
};
use runbench::stats::{AggregateResult, SingleResult};

#[test]
fn digit_width_counts_decimal_digits() {
    assert_eq!(digit_width(0), 1);
    assert_eq!(digit_width(9), 1);
    assert_eq!(digit_width(10), 2);
    assert_eq!(digit_width(99), 2);
    assert_eq!(digit_width(100), 3);
    assert_eq!(digit_width(u32::MAX), 10);
}

#[test]
fn decimal_rendering_is_exact() {
    assert_eq!(u128_to_decimal(0), "0");
    assert_eq!(u128_to_decimal(7), "7");
    assert_eq!(u128_to_decimal(12345), "12345");
    assert_eq!(
        u128_to_decimal(u128::MAX),
        "340282366920938463463374607431768211455"
    );
}

#[test]
fn banners_name_the_run_and_match_in_width() {
    assert_eq!(run_banner(3), "---------- Run 3 Output ----------");
    assert_eq!(run_banner_close(3), "----------------------------------");
    assert_eq!(run_banner(3).len(), run_banner_close(3).len());
    assert_eq!(run_banner(12), "---------- Run 12 Output ----------");
    assert_eq!(run_banner(12).len(), run_banner_close(12).len());
}

#[test]
fn progress_lines_use_one_based_run_numbers() {
    assert_eq!(progress_line(0), "Run 1...");
    assert_eq!(progress_line(41), "Run 42...");
}

#[test]
fn report_lines_show_totals_and_one_based_extremes() {
    let agg = AggregateResult {
        total: 21,
        average: 7,
        highest: SingleResult { value: 9, index: 1 },
        lowest: SingleResult { value: 5, index: 0 },
    };
    let lines = report_lines(&agg);
    assert_eq!(lines.len(), 4);
    assert_eq!(lines[0], "Total time: 21ms");
    assert_eq!(lines[1], "Average time: 7ms");
    assert_eq!(lines[2], "Highest time was 9ms on run 2");
    assert_eq!(lines[3], "Lowest time was 5ms on run 1");
}
