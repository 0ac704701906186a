use cic2nf::cic::numeric::{find_dot, CustomParseError, PacketPartParser};
use cic2nf::cic::record::CICParserConfig;

#[test]
fn a_fractional_count_turns_the_state_and_the_state_stays() {
    let mut parser = PacketPartParser::default();
    assert!(!parser.is_last_float);
    assert_eq!(parser.parse_usize("123", "45.0"), Ok([123, 45]));
    assert!(parser.is_last_float);
    assert_eq!(parser.parse_usize("9", "9"), Ok([9, 9]));
    assert!(parser.is_last_float);
}

#[test]
fn plain_counts_leave_the_state_plain() {
    let mut parser = PacketPartParser::default();
    assert_eq!(parser.parse_usize("1", "2"), Ok([1, 2]));
    assert!(!parser.is_last_float);
    assert_eq!(parser.parse_usize("3.7", "4"), Ok([3, 4]));
    assert!(parser.is_last_float);
}

#[test]
fn the_value_does_not_depend_on_what_is_expected() {
    let parser = PacketPartParser::default();
    for text in ["0", "12", "12.0", "12.999", "7.", "+3", "1.2.3"] {
        let plain = parser.parse_str_usize(text, false).unwrap();
        let float = parser.parse_str_usize(text, true).unwrap();
        assert_eq!(plain.0, float.0, "{:?}", text);
        assert!(float.1, "{:?}", text);
        assert_eq!(plain.1, text.contains('.'), "{:?}", text);
    }
}

#[test]
fn the_reading_with_a_point_takes_what_stands_before_it() {
    let parser = PacketPartParser::default();
    assert_eq!(parser.parse_float_str("45.0"), Ok(45));
    assert_eq!(parser.parse_float_str("45.9"), Ok(45));
    assert_eq!(parser.parse_float_str("45"), Ok(45));
    assert_eq!(parser.parse_float_str("1.2.3"), Ok(1));
    assert_eq!(parser.parse_float_str(".5"), Err(CustomParseError { was_parsing_float: false }));
    assert_eq!(parser.parse_float_str("x.5"), Err(CustomParseError { was_parsing_float: false }));
    assert_eq!(parser.parse_float_str("abc"), Err(CustomParseError { was_parsing_float: true }));
    assert_eq!(parser.parse_float_str(""), Err(CustomParseError { was_parsing_float: true }));
    assert_eq!(find_dot(&"12.5".chars().collect()), 2);
    assert_eq!(find_dot(&"125".chars().collect()), 3);
}

#[test]
fn what_is_no_number_is_an_error_and_changes_nothing() {
    let mut parser = PacketPartParser { is_last_float: true };
    assert!(parser.parse_usize("1", "x").is_err());
    assert!(parser.is_last_float);
    assert!(parser.parse_usize("", "1").is_err());
    assert!(parser.parse_isize("-", "1").is_err());
    let mut parser = PacketPartParser { is_last_float: false };
    assert_eq!(
        parser.parse_str_usize("abc", false),
        Err(CustomParseError { was_parsing_float: true })
    );
    assert_eq!(
        parser.parse_str_usize("abc", true),
        Err(CustomParseError { was_parsing_float: false })
    );
    assert_eq!(
        parser.parse_str_usize("a.c", false),
        Err(CustomParseError { was_parsing_float: false })
    );
    assert!(parser.parse_usize("-1", "1").is_err());
    assert!(!parser.is_last_float);
}

#[test]
fn the_texts_of_the_errors() {
    assert_eq!(
        CustomParseError { was_parsing_float: true }.message(),
        "Cannot parse the string as a float."
    );
    assert_eq!(
        CustomParseError { was_parsing_float: false }.message(),
        "Cannot parse the string as an integer."
    );
}

#[test]
fn signs_are_taken_off_and_put_back() {
    let mut parser = PacketPartParser::default();
    assert_eq!(parser.parse_isize("-20", "32"), Ok([-20, 32]));
    assert!(!parser.is_last_float);
    assert_eq!(parser.parse_isize("-20.0", "-0"), Ok([-20, 0]));
    assert!(parser.is_last_float);
    assert_eq!(parser.parse_str_isize("-7.9", false), Ok((-7, true)));
    assert_eq!(parser.parse_str_isize("7", true), Ok((7, true)));
    assert_eq!(parser.parse_str_isize("9223372036854775807", false), Ok((isize::MAX, false)));
    assert!(parser.parse_str_isize("9223372036854775808", false).is_err());
    assert!(parser.parse_str_isize("-9223372036854775808", false).is_err());
}

#[test]
fn packet_counts_have_to_fit() {
    let mut config = CICParserConfig::default();
    assert_eq!(config.get_counts("3", "0"), Ok([3, 0]));
    assert_eq!(config.get_counts("4294967295", "1.0"), Ok([u32::MAX, 1]));
    assert!(config.packet_count.is_last_float);
    assert!(!config.packet_bytes.is_last_float);
    let before = config;
    assert!(config.get_counts("4294967296", "1").is_err());
    assert_eq!(config, before);
    assert!(config.get_counts("1", "").is_err());
    assert_eq!(config, before);
}

#[test]
fn byte_totals_are_sums_that_do_not_go_below_zero() {
    let mut config = CICParserConfig::default();
    assert_eq!(config.get_bytes("20", "32", "100", "0"), Ok([120, 32]));
    assert!(!config.packet_bytes.is_last_float);
    assert_eq!(config.get_bytes("-40", "32.0", "30", "8"), Ok([0, 40]));
    assert!(config.packet_bytes.is_last_float);
    let mut config = CICParserConfig::default();
    assert_eq!(config.get_bytes("1", "2", "3.5", "4"), Ok([4, 6]));
    assert!(config.packet_bytes.is_last_float);
    assert!(!config.packet_count.is_last_float);
    assert_eq!(
        config.get_bytes("9223372036854775807", "0", "9223372036854775807", "0"),
        Ok([18446744073709551614, 0])
    );
    let before = config;
    assert!(config.get_bytes("1", "2", "x", "4").is_err());
    assert_eq!(config, before);
    assert!(config.get_bytes("1", "y", "3", "4").is_err());
    assert_eq!(config, before);
}
