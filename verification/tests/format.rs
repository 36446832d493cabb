use bench_rs::{fmt_thousands_sep, fmt_thousands_sep_wide};

#[test]
fn formats_millions_with_commas() {
    assert_eq!(fmt_thousands_sep(1234567, ','), "1,234,567");
}

#[test]
fn formats_small_numbers_without_separator() {
    assert_eq!(fmt_thousands_sep(42, ','), "42");
    assert_eq!(fmt_thousands_sep(7, ','), "7");
    assert_eq!(fmt_thousands_sep(999, ','), "999");
}

#[test]
fn formats_zero() {
    assert_eq!(fmt_thousands_sep(0, ','), "0");
}

#[test]
fn pads_lower_groups_with_zeros() {
    assert_eq!(fmt_thousands_sep(1000, ','), "1,000");
    assert_eq!(fmt_thousands_sep(1001, ','), "1,001");
    assert_eq!(fmt_thousands_sep(20_030, ','), "20,030");
    assert_eq!(fmt_thousands_sep(1_000_000, ','), "1,000,000");
    assert_eq!(fmt_thousands_sep(5_000_042, ','), "5,000,042");
    assert_eq!(fmt_thousands_sep(1_000_000_000, ','), "1,000,000,000");
    assert_eq!(fmt_thousands_sep(4_294_967_295, ','), "4,294,967,295");
}

#[test]
fn uses_the_separator_it_is_given() {
    assert_eq!(fmt_thousands_sep(1234567, '_'), "1_234_567");
    assert_eq!(fmt_thousands_sep(1234567, ' '), "1 234 567");
    assert_eq!(fmt_thousands_sep(1234567, '\u{2009}'), "1\u{2009}234\u{2009}567");
}

#[test]
fn keeps_everything_from_a_billion_up_in_the_leading_group() {
    if usize::BITS >= 64 {
        let trillion = 1_000_000_000_000u64 as usize;
        assert_eq!(fmt_thousands_sep(trillion, ','), "1000,000,000,000");
        assert_eq!(fmt_thousands_sep(trillion + 5, ','), "1000,000,000,005");
        assert_eq!(
            fmt_thousands_sep(u64::MAX as usize, ','),
            "18446744073,709,551,615"
        );
    }
}

#[test]
fn agrees_with_plain_decimal_once_separators_are_removed() {
    let samples: [usize; 8] = [0, 9, 10, 99, 100, 12_345, 999_999, 123_456_789];
    for n in samples {
        let grouped = fmt_thousands_sep(n, ',');
        let plain: String = grouped.chars().filter(|c| *c != ',').collect();
        assert_eq!(plain, format!("{}", n));
    }
}

#[test]
fn formats_wide_numbers_like_narrow_ones() {
    assert_eq!(fmt_thousands_sep_wide(0, ','), "0");
    assert_eq!(fmt_thousands_sep_wide(1234567, ','), "1,234,567");
    assert_eq!(fmt_thousands_sep_wide(999_999_999_999, '.'), "999.999.999.999");
    assert_eq!(fmt_thousands_sep_wide(1_000_000_000_000, ','), "1000,000,000,000");
}
