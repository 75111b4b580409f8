use mistralrs_bench::text::{decimal_string, parse_usize};

#[test]
fn numbers_are_printed_in_decimal() {
    for n in [0, 1, 9, 10, 42, 100, 1_000_000_007, usize::MAX] {
        assert_eq!(decimal_string(n), n.to_string());
    }
    assert_eq!(decimal_string(105), "105");
}

#[test]
fn printed_numbers_read_back() {
    for n in [0, 7, 10, 99, 65_536, usize::MAX] {
        assert_eq!(parse_usize(&decimal_string(n)), Some(n));
        assert_eq!(parse_usize(&format!("+{}", decimal_string(n))), Some(n));
    }
}

#[test]
fn numbers_are_read_as_std_reads_them() {
    let texts = [
        "",
        "0",
        "00",
        "007",
        "12",
        "+",
        "+5",
        "++5",
        "-0",
        "-5",
        " 5",
        "5 ",
        "1_000",
        "0x10",
        "٣",
        "5:6",
        "18446744073709551615",
        "18446744073709551616",
        "99999999999999999999999999",
        "18446744073709551616x",
    ];
    for text in texts {
        assert_eq!(parse_usize(text), text.parse::<usize>().ok(), "{text:?}");
    }
}
