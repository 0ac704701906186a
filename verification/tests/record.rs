use cic2nf::cic::dataset_name::{ColumnLayout, DatasetName, ParseDatasetNameError};
use cic2nf::cic::flag_count::{CICFlagCount, FlagCountError};
use cic2nf::cic::label::Label;
use cic2nf::cic::parser::{
    fix_dashes, is_blank_row, parse_bytes, parse_counts, parse_integer_isize, parse_integer_u32,
    parse_row, repair_row, CICDdos2019Parser, CICIds2017Parser, CICParser, FuzzyTimePeriod,
};
use cic2nf::cic::record::{
    is_negative_duration, read_numbers, text_le, CICParserConfig, CICRecord, RecordError,
};
use cic2nf::cic::time::FlowTimeStamp;
use cic2nf::nf::flags::Flags;
use std::str::FromStr;

const DAY: i64 = 1_499_040_000; // 2017-07-03 00:00:00

fn ids_row() -> Vec<String> {
    let mut row = vec!["0".to_string(); 85];
    row[0] = "192.168.10.5-104.16.207.165-54865-443-6".to_string();
    row[1] = "192.168.10.5".to_string();
    row[2] = "54865".to_string();
    row[3] = "104.16.207.165".to_string();
    row[4] = "443".to_string();
    row[5] = "6".to_string();
    row[6] = "3/7/2017 8:55".to_string();
    row[7] = "1500".to_string();
    row[8] = "3".to_string();
    row[9] = "7".to_string();
    row[10] = "100".to_string();
    row[11] = "200.0".to_string();
    row[40] = "60".to_string();
    row[41] = "140".to_string();
    row[36] = "1".to_string();
    row[50] = "2".to_string();
    row[53] = "9".to_string();
    row[84] = "BENIGN".to_string();
    row
}

fn ddos_row() -> Vec<String> {
    let mut row = vec!["0".to_string(); 88];
    row[2] = "172.16.0.5".to_string();
    row[3] = "634".to_string();
    row[4] = "192.168.50.1".to_string();
    row[5] = "60495".to_string();
    row[6] = "17".to_string();
    row[7] = "2018-12-01 10:51:39.813448".to_string();
    row[8] = "-5000".to_string();
    row[9] = "2".to_string();
    row[10] = "0".to_string();
    row[11] = "2944".to_string();
    row[12] = "0".to_string();
    row[41] = "-2".to_string();
    row[42] = "0".to_string();
    row[87] = "DrDoS_DNS".to_string();
    row
}

#[test]
fn the_names_of_the_datasets() {
    assert_eq!(DatasetName::get_all_enum(), vec![DatasetName::IDS2017, DatasetName::DDoS2019]);
    assert_eq!(DatasetName::IDS2017.name(), "CIC-IDS-2017");
    assert_eq!(DatasetName::DDoS2019.name(), "CIC-DDoS-2019");
    assert_eq!(DatasetName::from_name("CIC-IDS-2017"), Ok(DatasetName::IDS2017));
    assert_eq!(DatasetName::from_str("CIC-DDoS-2019"), Ok(DatasetName::DDoS2019));
    assert_eq!("CIC-IDS-2017".parse::<DatasetName>(), Ok(DatasetName::IDS2017));
    assert_eq!(DatasetName::from_name("cic-ids-2017"), Err(ParseDatasetNameError));
    assert_eq!(DatasetName::from_name("CIC-IDS-2017 "), Err(ParseDatasetNameError));
    assert_eq!(DatasetName::from_name(""), Err(ParseDatasetNameError));
    for name in DatasetName::get_all_enum() {
        assert_eq!(DatasetName::from_name(name.name()), Ok(name));
    }
}

#[test]
fn the_layout_of_each_dataset() {
    assert_eq!(DatasetName::IDS2017.n_csv_columns(), 85);
    assert_eq!(DatasetName::DDoS2019.n_csv_columns(), 88);
    let benign = DatasetName::IDS2017.benign_label();
    assert_eq!(benign, Label::new(1, "BENIGN".to_string()));
    assert_eq!(DatasetName::DDoS2019.benign_label(), benign);
    let ids: ColumnLayout = DatasetName::IDS2017.layout();
    assert_eq!(
        (ids.width, ids.src_ip, ids.src_port, ids.dst_ip, ids.dst_port, ids.protocol),
        (85, 1, 2, 3, 4, 5)
    );
    assert_eq!((ids.timestamp, ids.duration, ids.fwd_packets, ids.bwd_packets), (6, 7, 8, 9));
    assert_eq!(
        (ids.fwd_payload, ids.bwd_payload, ids.fwd_header, ids.bwd_header),
        (10, 11, 40, 41)
    );
    assert_eq!((ids.direction_flags, ids.flow_flags, ids.label), (36, 49, 84));
    let ddos = DatasetName::DDoS2019.layout();
    assert_eq!(
        (ddos.width, ddos.src_ip, ddos.src_port, ddos.dst_ip, ddos.dst_port, ddos.protocol),
        (88, 2, 3, 4, 5, 6)
    );
    assert_eq!((ddos.timestamp, ddos.duration, ddos.fwd_packets, ddos.bwd_packets), (7, 8, 9, 10));
    assert_eq!(
        (ddos.fwd_payload, ddos.bwd_payload, ddos.fwd_header, ddos.bwd_header),
        (11, 12, 41, 42)
    );
    assert_eq!((ddos.direction_flags, ddos.flow_flags, ddos.label), (37, 50, 87));
}

#[test]
fn labels() {
    let mut label = Label::new_with_name("Bot".to_string());
    assert_eq!(label.index(), 0);
    assert_eq!(label.name(), "Bot");
    label.set_index_mut(7);
    assert_eq!(label.index(), 7);
    assert_eq!(label.name(), "Bot");
    assert_eq!(label, Label::new(7, "Bot".to_string()));
    assert_eq!(label.clone(), label);
    assert_eq!(Label::default(), Label::new(0, String::new()));
}

#[test]
fn flag_counters_are_read_in_their_order() {
    let texts = ["1", "2", "3", "4", "5", "6", "7", "8", "9", "10", "11", "12"];
    let counts = CICFlagCount::new(texts).unwrap();
    assert_eq!(
        counts,
        CICFlagCount {
            fwd_psh: 1,
            bwd_psh: 2,
            fwd_urg: 3,
            bwd_urg: 4,
            fin: 5,
            syn: 6,
            rst: 7,
            psh: 8,
            ack: 9,
            urg: 10,
            cwr: 11,
            ece: 12,
        }
    );
    let mut bad = texts;
    bad[7] = "1.0";
    bad[9] = "x";
    assert_eq!(CICFlagCount::new(bad), Err(FlagCountError { position: 7 }));
    bad[0] = "-1";
    assert_eq!(CICFlagCount::new(bad), Err(FlagCountError { position: 0 }));
}

#[test]
fn flag_counters_collapse_to_eight_flags() {
    let zero = CICFlagCount::new(["0"; 12]).unwrap();
    assert_eq!(zero.to_flags().to_text(), "........");
    let one = |position: usize| {
        let mut texts = ["0"; 12];
        texts[position] = "3";
        CICFlagCount::new(texts).unwrap().to_flags().to_text()
    };
    assert_eq!(one(0), "....P...");
    assert_eq!(one(1), "....P...");
    assert_eq!(one(2), "..U.....");
    assert_eq!(one(3), "..U.....");
    assert_eq!(one(4), ".......F");
    assert_eq!(one(5), "......S.");
    assert_eq!(one(6), ".....R..");
    assert_eq!(one(7), "....P...");
    assert_eq!(one(8), "...A....");
    assert_eq!(one(9), "..U.....");
    assert_eq!(one(10), "C.......");
    assert_eq!(one(11), ".E......");
    assert_eq!(CICFlagCount::new(["1"; 12]).unwrap().to_flags().to_text(), "CEUAPRSF");
}

#[test]
fn flags_from_bits_and_from_text() {
    let flags = Flags::from([true, false, false, true, false, false, true, false]);
    assert_eq!(flags.to_text(), "C..A..S.");
    assert_eq!(Flags::from_text("C..A..S."), Some(flags));
    assert_eq!(Flags::from_text("x..y..z."), Some(flags));
    assert_eq!(Flags::from_text("C..A"), Some(Flags::from([true, false, false, true, false, false, false, false])));
    assert_eq!(Flags::from_text(""), Some(Flags::from([false; 8])));
    assert_eq!(Flags::from_text("........."), None);
    assert_eq!(Flags::from_bools(&vec![false, true]), Some(Flags::from([false, true, false, false, false, false, false, false])));
    assert_eq!(Flags::from_bools(&vec![true; 9]), None);
    assert_eq!(Flags::from_chars(&"CEUAPRSF".chars().collect()), Some(Flags::from([true; 8])));
    for bits in 0u16..256 {
        let mut list = [false; 8];
        for (i, bit) in list.iter_mut().enumerate() {
            *bit = bits & (1 << i) != 0;
        }
        let flags = Flags::from(list);
        assert_eq!(Flags::from_text(&flags.to_text()), Some(flags));
        assert_eq!(Flags::from_bools(&list.to_vec()), Some(flags));
    }
}

#[test]
fn the_plain_integers_of_a_row() {
    let layout = DatasetName::IDS2017.layout();
    let numbers = read_numbers(&ids_row(), &layout).unwrap();
    assert_eq!(numbers.src_port, 54865);
    assert_eq!(numbers.dst_port, 443);
    assert_eq!(numbers.protocol, 6);
    assert_eq!(numbers.duration, 1500);
    assert_eq!(numbers.flag_count.fwd_psh, 1);
    assert_eq!(numbers.flag_count.syn, 2);
    assert_eq!(numbers.flag_count.ack, 9);
    assert_eq!(numbers.flag_count.fin, 0);
}

#[test]
fn the_first_integer_that_fails_is_reported() {
    let layout = DatasetName::IDS2017.layout();
    let failure = |column: usize, text: &str| {
        let mut row = ids_row();
        row[column] = text.to_string();
        read_numbers(&row, &layout).err()
    };
    assert_eq!(failure(2, "65536"), Some(RecordError::BadInteger { column: 2 }));
    assert_eq!(failure(2, "65535"), None);
    assert_eq!(failure(4, "https"), Some(RecordError::BadInteger { column: 4 }));
    assert_eq!(failure(5, "256"), Some(RecordError::BadInteger { column: 5 }));
    assert_eq!(failure(7, "1.5"), Some(RecordError::BadInteger { column: 7 }));
    assert_eq!(failure(36, ""), Some(RecordError::BadInteger { column: 36 }));
    assert_eq!(failure(39, "-1"), Some(RecordError::BadInteger { column: 39 }));
    assert_eq!(failure(49, "x"), Some(RecordError::BadInteger { column: 49 }));
    assert_eq!(failure(56, "4294967296"), Some(RecordError::BadInteger { column: 56 }));
    assert_eq!(failure(57, "x"), None);
    let mut row = ids_row();
    row[4] = "x".to_string();
    row[2] = "y".to_string();
    row[50] = "z".to_string();
    assert_eq!(read_numbers(&row, &layout).err(), Some(RecordError::BadInteger { column: 2 }));
    row.truncate(84);
    assert_eq!(read_numbers(&row, &layout).err(), Some(RecordError::MissingColumn { found: 84 }));
    assert_eq!(
        read_numbers(&Vec::new(), &layout).err(),
        Some(RecordError::MissingColumn { found: 0 })
    );
}

#[test]
fn a_record_from_a_row_with_a_hint() {
    let mut config = CICParserConfig::default();
    let (record, index) = CICRecord::from_ids_csv(&ids_row(), &Some(true), 0, &mut config).unwrap();
    assert_eq!(index, 0);
    assert_eq!(record.src_ip(), "192.168.10.5");
    assert_eq!(record.src_port(), 54865);
    assert_eq!(record.dst_ip(), "104.16.207.165");
    assert_eq!(record.dst_port(), 443);
    assert_eq!(record.protocol(), 6);
    assert_eq!(*record.timestamp(), FlowTimeStamp::new(DAY + 8 * 3600 + 55 * 60, 0));
    assert_eq!(record.duration(), 1500);
    assert_eq!(*record.n_packet(), [3, 7]);
    assert_eq!(*record.n_bytes_packet(), [160, 340]);
    assert_eq!(record.flag_count().to_flags().to_text(), "...AP.S.");
    assert_eq!(*record.label(), Label::new(0, "BENIGN".to_string()));
    assert!(!config.packet_count.is_last_float);
    assert!(config.packet_bytes.is_last_float);
    let (evening, _) = CICRecord::from_ids_csv(&ids_row(), &Some(false), 0, &mut config).unwrap();
    assert_eq!(*evening.timestamp(), FlowTimeStamp::new(DAY + 20 * 3600 + 55 * 60, 0));
}

#[test]
fn a_record_from_a_row_that_needs_no_hint() {
    let mut config = CICParserConfig::default();
    let (record, index) = CICRecord::from_ddos_csv(&ddos_row(), &None, 0, &mut config).unwrap();
    assert_eq!(index, 4);
    assert_eq!(record.src_ip(), "172.16.0.5");
    assert_eq!(record.src_port(), 634);
    assert_eq!(record.dst_ip(), "192.168.50.1");
    assert_eq!(record.dst_port(), 60495);
    assert_eq!(record.protocol(), 17);
    let t = chrono::NaiveDate::from_ymd_opt(2018, 12, 1)
        .unwrap()
        .and_hms_micro_opt(10, 51, 39, 813_448)
        .unwrap();
    assert_eq!(*record.timestamp(), FlowTimeStamp::new(t.and_utc().timestamp(), 813_448_000));
    assert_eq!(record.duration(), 0);
    assert_eq!(*record.n_packet(), [2, 0]);
    assert_eq!(*record.n_bytes_packet(), [2942, 0]);
    assert_eq!(record.label().name(), "DrDoS_DNS");
}

#[test]
fn a_negative_duration_counts_as_zero() {
    let record = CICRecord::new(
        "a".to_string(),
        1,
        "b".to_string(),
        2,
        6,
        FlowTimeStamp::new(0, 0),
        -5000,
        [1, 1],
        [0, 0],
        CICFlagCount::new(["0"; 12]).unwrap(),
        "L".to_string(),
    );
    assert_eq!(record.duration(), 0);
    let record = CICRecord::new(
        "a".to_string(),
        1,
        "b".to_string(),
        2,
        6,
        FlowTimeStamp::new(0, 0),
        5000,
        [1, 1],
        [0, 0],
        CICFlagCount::new(["0"; 12]).unwrap(),
        "L".to_string(),
    );
    assert_eq!(record.duration(), 5000);
    assert_eq!(record.label().index(), 0);
    assert!(is_negative_duration("-5000"));
    assert!(!is_negative_duration("-0"));
    assert!(!is_negative_duration("5000"));
    assert!(!is_negative_duration("-"));
    assert!(!is_negative_duration("-1.5"));
    let mut config = CICParserConfig::default();
    let mut row = ids_row();
    row[7] = "-1".to_string();
    let (record, _) = CICRecord::from_ids_csv(&row, &Some(true), 0, &mut config).unwrap();
    assert_eq!(record.duration(), 0);
}

#[test]
fn what_fails_in_a_row_is_reported_and_changes_nothing() {
    let failure = |column: usize, text: &str, is_am: Option<bool>| {
        let mut config = CICParserConfig::default();
        config.packet_bytes.is_last_float = true;
        let before = config;
        let mut row = ids_row();
        row[column] = text.to_string();
        let out = CICRecord::from_ids_csv(&row, &is_am, 0, &mut config).err();
        assert_eq!(config, before);
        out
    };
    assert_eq!(failure(6, "3/7/2017 8:55", None), Some(RecordError::MissingHint { column: 6 }));
    assert_eq!(failure(6, "soon", Some(true)), Some(RecordError::BadTimestamp { column: 6 }));
    assert_eq!(failure(8, "many", Some(true)), Some(RecordError::BadPacketCount));
    assert_eq!(failure(9, "-1", Some(true)), Some(RecordError::BadPacketCount));
    assert_eq!(failure(11, "x", Some(true)), Some(RecordError::BadByteCount));
    assert_eq!(failure(40, "", Some(true)), Some(RecordError::BadByteCount));
    assert_eq!(failure(2, "x", None), Some(RecordError::BadInteger { column: 2 }));
    let mut config = CICParserConfig::default();
    let short = vec!["0".to_string(); 10];
    assert_eq!(
        CICRecord::from_ddos_csv(&short, &None, 0, &mut config).err(),
        Some(RecordError::MissingColumn { found: 10 })
    );
}

#[test]
fn replacement_characters_in_a_label_become_dashes() {
    assert_eq!(CICRecord::fix_invalid_utf8_str("Web Attack \u{FFFD} XSS"), "Web Attack - XSS");
    assert_eq!(CICRecord::fix_invalid_utf8_str("\u{FFFD}\u{FFFD}"), "--");
    assert_eq!(CICRecord::fix_invalid_utf8_str("BENIGN"), "BENIGN");
    assert_eq!(CICRecord::fix_invalid_utf8_str(""), "");
    let mut config = CICParserConfig::default();
    let mut row = ids_row();
    row[84] = "Web Attack \u{FFFD} Brute Force".to_string();
    let (record, _) = CICRecord::from_ids_csv(&row, &Some(true), 0, &mut config).unwrap();
    assert_eq!(record.label().name(), "Web Attack - Brute Force");
}

fn record(src_ip: &str, src_port: u32, dst_ip: &str, dst_port: u32) -> CICRecord {
    CICRecord::new(
        src_ip.to_string(),
        src_port,
        dst_ip.to_string(),
        dst_port,
        6,
        FlowTimeStamp::new(0, 0),
        0,
        [1, 1],
        [0, 0],
        CICFlagCount::new(["0"; 12]).unwrap(),
        "L".to_string(),
    )
}

#[test]
fn both_directions_of_a_connection_have_the_same_id() {
    assert_eq!(record("10.0.0.1", 80, "10.0.0.2", 5000).id(), "10.0.0.1-10.0.0.2-80-5000-6");
    assert_eq!(record("10.0.0.2", 5000, "10.0.0.1", 80).id(), "10.0.0.1-10.0.0.2-80-5000-6");
    assert_eq!(record("10.0.0.1", 5000, "10.0.0.1", 80).id(), "10.0.0.1-10.0.0.1-80-5000-6");
    assert_eq!(record("10.0.0.1", 80, "10.0.0.1", 5000).id(), "10.0.0.1-10.0.0.1-80-5000-6");
    assert_eq!(record("10.0.0.1", 80, "10.0.0.1", 80).id(), "10.0.0.1-10.0.0.1-80-80-6");
    assert_eq!(record("9.0.0.1", 1, "10.0.0.1", 2).id(), "10.0.0.1-9.0.0.1-2-1-6");
    assert_eq!(record("", 1, "a", 2).id(), "-a-1-2-6");
    for (a, b) in [("a", "b"), ("a", "ab"), ("", "a"), ("10.0.0.1", "9.9.9.9"), ("é", "z"), ("x", "x")] {
        let a_chars: Vec<char> = a.chars().collect();
        let b_chars: Vec<char> = b.chars().collect();
        assert_eq!(text_le(&a_chars, &b_chars), a <= b, "{:?} {:?}", a, b);
        assert_eq!(text_le(&b_chars, &a_chars), b <= a, "{:?} {:?}", b, a);
        assert_eq!(record(a, 7, b, 9).id(), record(b, 9, a, 7).id());
    }
}

#[test]
fn the_label_of_a_record_can_be_changed() {
    let mut record = record("a", 1, "b", 2);
    record.label_mut().set_index_mut(4);
    assert_eq!(*record.label(), Label::new(4, "L".to_string()));
    let copy = record.clone();
    assert_eq!(copy.id(), record.id());
    assert_eq!(copy.label(), record.label());
}

#[test]
fn blank_rows_and_rows_of_the_wrong_width_are_dropped() {
    let row: Vec<Vec<u8>> = vec![b"a".to_vec(), Vec::new(), b"c".to_vec()];
    assert_eq!(repair_row(row.clone(), 3, false), Some(row.clone()));
    assert_eq!(repair_row(row.clone(), 3, true), Some(row.clone()));
    assert_eq!(repair_row(row.clone(), 2, false), None);
    assert_eq!(repair_row(row.clone(), 4, true), None);
    let blank: Vec<Vec<u8>> = vec![Vec::new(); 3];
    assert!(is_blank_row(&blank));
    assert!(!is_blank_row(&row));
    assert!(is_blank_row(&Vec::new()));
    assert_eq!(repair_row(blank.clone(), 3, false), None);
    assert_eq!(repair_row(blank, 3, true), None);
    assert_eq!(repair_row(Vec::new(), 0, true), None);
}

#[test]
fn the_dashes_of_the_label_are_repaired_and_nothing_else() {
    assert_eq!(fix_dashes(&b"Web Attack \x96 XSS".to_vec()), b"Web Attack - XSS".to_vec());
    assert_eq!(fix_dashes(&vec![0x96, 0x96, 0x2d, 0x95]), vec![0x2d, 0x2d, 0x2d, 0x95]);
    let row: Vec<Vec<u8>> = vec![vec![0x96, 1], vec![2, 0x96], b"a\x96b".to_vec()];
    assert_eq!(
        repair_row(row.clone(), 3, true),
        Some(vec![vec![0x96, 1], vec![2, 0x96], b"a-b".to_vec()])
    );
    assert_eq!(repair_row(row.clone(), 3, false), Some(row));
    let ids = CICIds2017Parser::from_file_name(&"Monday.csv".to_string());
    let mut raw: Vec<Vec<u8>> = vec![b"0".to_vec(); 85];
    raw[84] = b"Web Attack \x96 XSS".to_vec();
    let fixed = ids.fix_byte_record(raw.clone()).unwrap();
    assert_eq!(fixed[84], b"Web Attack - XSS".to_vec());
    assert_eq!(fixed[..84], raw[..84]);
    assert_eq!(ids.fix_byte_record(vec![b"0".to_vec(); 88]), None);
    assert_eq!(ids.fix_byte_record(vec![Vec::new(); 85]), None);
    let ddos = CICDdos2019Parser::new();
    let mut raw: Vec<Vec<u8>> = vec![b"0".to_vec(); 88];
    raw[87] = b"a\x96b".to_vec();
    assert_eq!(ddos.fix_byte_record(raw.clone()), Some(raw));
    assert_eq!(ddos.fix_byte_record(vec![b"0".to_vec(); 85]), None);
    assert_eq!(ddos.fix_byte_record(vec![Vec::new(); 88]), None);
}

#[test]
fn counts_with_a_decimal_point_lose_what_follows_it() {
    assert_eq!(parse_integer_u32("12"), Some(12));
    assert_eq!(parse_integer_u32("12.9"), Some(12));
    assert_eq!(parse_integer_u32("12.x"), Some(12));
    assert_eq!(parse_integer_u32(".5"), None);
    assert_eq!(parse_integer_u32("-1"), None);
    assert_eq!(parse_integer_u32("4294967296"), None);
    assert_eq!(parse_integer_isize("-12.9"), Some(-12));
    assert_eq!(parse_integer_isize("+12"), Some(12));
    assert_eq!(parse_integer_isize("x"), None);
    assert_eq!(parse_counts("3.0", "7"), Some([3, 7]));
    assert_eq!(parse_counts("3.0", ""), None);
    assert_eq!(parse_counts("-3", "7"), None);
    assert_eq!(parse_bytes("100", "200.0", "60", "140"), Some([160, 340]));
    assert_eq!(parse_bytes("100", "200", "-160", "-140"), Some([0, 60]));
    assert_eq!(parse_bytes("100", "200", "-60", "x"), None);
    assert_eq!(
        parse_bytes("9223372036854775807", "0", "9223372036854775807", "0"),
        Some([18446744073709551614, 0])
    );
}

#[test]
fn a_record_from_a_row_on_a_clock_of_twelve_hours() {
    let mut parser = CICIds2017Parser::from_file_name(
        &"Friday-WorkingHours-Afternoon-DDos.pcap_ISCX.csv".to_string(),
    );
    let mut row = ids_row();
    row[6] = "7/7/2017 3:30".to_string();
    let record = parser.parse_string_record(&row).unwrap();
    let t = chrono::NaiveDate::from_ymd_opt(2017, 7, 7).unwrap().and_hms_opt(15, 30, 0).unwrap();
    assert_eq!(*record.timestamp(), FlowTimeStamp::new(t.and_utc().timestamp(), 0));
    assert_eq!(record.src_ip(), "192.168.10.5");
    assert_eq!(*record.n_packet(), [3, 7]);
    assert_eq!(*record.n_bytes_packet(), [160, 340]);
    assert_eq!(record.duration(), 1500);
    assert_eq!(record.label().name(), "BENIGN");
    assert_eq!(parser.timestamp_parser.time_period, FuzzyTimePeriod::Afternoon);
    row[6] = "7/7/2017 12:01".to_string();
    row[8] = "x".to_string();
    assert_eq!(parser.parse_string_record(&row).err(), Some(RecordError::BadPacketCount));
    assert_eq!(parser.timestamp_parser.time_period, FuzzyTimePeriod::Afternoon);
    row[8] = "1".to_string();
    row[41] = "x".to_string();
    assert_eq!(parser.parse_string_record(&row).err(), Some(RecordError::BadByteCount));
    assert_eq!(parser.timestamp_parser.time_period, FuzzyTimePeriod::Afternoon);
    row[41] = "1".to_string();
    let record = parser.parse_string_record(&row).unwrap();
    let t = chrono::NaiveDate::from_ymd_opt(2017, 7, 7).unwrap().and_hms_opt(0, 1, 0).unwrap();
    assert_eq!(*record.timestamp(), FlowTimeStamp::new(t.and_utc().timestamp(), 0));
    assert_eq!(parser.timestamp_parser.time_period, FuzzyTimePeriod::Midnight);
    row[6] = "7/7/2017 3:30 PM".to_string();
    assert_eq!(
        parser.parse_string_record(&row).err(),
        Some(RecordError::BadTimestamp { column: 6 })
    );
    let mut parser = CICIds2017Parser::from_file_name(&"Friday-Afternoon.csv".to_string());
    row[6] = "31/12/+262142 13:30".to_string();
    assert_eq!(
        parser.parse_string_record(&row).err(),
        Some(RecordError::TimeOutOfRange { column: 6 })
    );
    assert_eq!(parser.timestamp_parser.time_period, FuzzyTimePeriod::Afternoon);
}

#[test]
fn a_record_from_a_row_on_a_clock_of_24_hours() {
    let mut parser = CICDdos2019Parser::new();
    let record = parser.parse_string_record(&ddos_row()).unwrap();
    assert_eq!(record.src_ip(), "172.16.0.5");
    assert_eq!(record.duration(), 0);
    assert_eq!(*record.n_packet(), [2, 0]);
    assert_eq!(*record.n_bytes_packet(), [2942, 0]);
    let mut timestamps = CICDdos2019Parser::new().timestamp_parser;
    let layout = DatasetName::DDoS2019.layout();
    let again = parse_row(&mut timestamps, &ddos_row(), &layout).unwrap();
    assert_eq!(again.timestamp(), record.timestamp());
    assert_eq!(again.id(), record.id());
}
