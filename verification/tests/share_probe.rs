use droidvm::share_probe::{parse_number, parse_share_probe, pattern, ShareProbe};

fn probe(gpa: Option<u64>, size_kib: u64) -> ShareProbe {
    ShareProbe { gpa, size_kib }
}

#[test]
fn shares_are_read_from_text() {
    assert_eq!(
        parse_share_probe(" 0x80000000:64, 4096 ,, 0XfF : 8 "),
        vec![probe(Some(0x8000_0000), 64), probe(Some(4096), 2048), probe(Some(255), 8)]
    );
    assert_eq!(parse_share_probe(""), vec![]);
    assert_eq!(parse_share_probe(" \u{3000},\t"), vec![]);
}

#[test]
fn what_cannot_be_read_is_kept_without_an_address() {
    assert_eq!(
        parse_share_probe("no,0x,:7,12:many:9,18446744073709551616"),
        vec![
            probe(None, 2048),
            probe(None, 2048),
            probe(None, 7),
            probe(Some(12), 2048),
            probe(None, 2048),
        ]
    );
}

#[test]
fn numbers_are_decimal_and_fit() {
    assert_eq!(parse_number("18446744073709551615"), Some(u64::MAX));
    assert_eq!(parse_number("00000000000000000000000001"), Some(1));
    assert_eq!(parse_number("+12"), Some(12));
    assert_eq!(parse_number("18446744073709551616"), None);
    assert_eq!(parse_number("+"), None);
    assert_eq!(parse_number("++1"), None);
    assert_eq!(parse_number("-1"), None);
    assert_eq!(parse_number(""), None);
    assert_eq!(parse_number("1f"), None);
    assert_eq!(parse_number(" 1"), None);
}

#[test]
fn a_share_is_filled_with_its_address() {
    let bytes = pattern(0x0807_0605_0403_0201);
    assert_eq!(bytes.len(), 4096);
    assert_eq!(bytes[..9], [1, 2, 3, 4, 5, 6, 7, 8, 1]);
    assert_eq!(bytes[4095], 8);
}
