use tx_gen::text::{after_prefix, chars_of, contains, parse_u64, same, same_ignoring_ascii_case};

#[test]
fn chars_are_those_of_the_text() {
    assert_eq!(chars_of("aé√"), vec!['a', 'é', '√']);
    assert_eq!(chars_of(""), vec![]);
}

#[test]
fn texts_are_compared() {
    assert!(same("--net", "--net"));
    assert!(!same("--net", "--ne"));
    assert!(!same("--net", "--Net"));
    assert!(same("", ""));
}

#[test]
fn ascii_case_is_ignored() {
    assert!(same_ignoring_ascii_case("TestNet10", "testnet10"));
    assert!(same_ignoring_ascii_case("@[`{", "@[`{"));
    assert!(!same_ignoring_ascii_case("@", "`"));
    assert!(!same_ignoring_ascii_case("É", "é"));
    assert!(!same_ignoring_ascii_case("dev", "devnet"));
}

#[test]
fn prefix_is_taken_off() {
    assert_eq!(after_prefix("--net=tn10", "--net="), Some("tn10".to_string()));
    assert_eq!(after_prefix("--net=", "--net="), Some(String::new()));
    assert_eq!(after_prefix("--net", "--net="), None);
    assert_eq!(after_prefix("é=√x", "é="), Some("√x".to_string()));
}

#[test]
fn parts_are_found() {
    assert!(contains("kaspa-testnet-10", "testnet-10"));
    assert!(contains("testnet-10", ""));
    assert!(contains("", ""));
    assert!(contains("aab", "ab"));
    assert!(!contains("testnet-11", "testnet-10"));
    assert!(!contains("net", "devnet"));
}

#[test]
fn numbers_are_read() {
    assert_eq!(parse_u64("0"), Some(0));
    assert_eq!(parse_u64("2000"), Some(2000));
    assert_eq!(parse_u64("+007"), Some(7));
    assert_eq!(parse_u64("18446744073709551615"), Some(u64::MAX));
    assert_eq!(parse_u64("000018446744073709551615"), Some(u64::MAX));
}

#[test]
fn other_texts_are_no_numbers() {
    let texts = [
        "", "+", "-", "-1", "++1", "1 ", " 1", "1_000", "0x10", "1.0", "18446744073709551616",
        "99999999999999999999999", "٣",
    ];
    for text in texts {
        assert_eq!(parse_u64(text), None, "{text}");
        assert_eq!(text.parse::<u64>().ok(), None, "{text}");
    }
}
