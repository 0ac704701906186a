use cic2nf::cic::label::Label;
use cic2nf::cic::time::FlowTimeStamp;
use cic2nf::nf::flags::Flags;
use cic2nf::nf::flow::NetFlow;
use cic2nf::nf::io::{
    format_lines, read_duration, read_endpoint, read_nf_lines, remove_dots, LineError,
    NetFlowReader,
};

const DAY: i64 = 1_499_040_000; // 2017-07-03 00:00:00

fn flow() -> NetFlow {
    NetFlow {
        timestamp: FlowTimeStamp::new(DAY + 9 * 3600 + 59 * 60, 123_000_000),
        duration: 1_005_000,
        width_duration_str: 7,
        protocol: 6,
        src_ip: "192.168.10.5".to_string(),
        src_port: 54865,
        dst_ip: "104.16.207.165".to_string(),
        dst_port: 443,
        flags: Flags::from([false, false, false, true, true, false, true, false]),
        qos: 0,
        n_packet: 3,
        n_bytes_packet: 160,
        width_n_bytes_packet: 5,
        n_flow: 1,
        label: Label::new(1, "BENIGN".to_string()),
    }
}

fn c(s: &str) -> Vec<char> {
    s.chars().collect()
}

#[test]
fn a_flow_on_a_line() {
    assert_eq!(
        flow().to_line().unwrap(),
        "2017-07-03 09:59:00.123   1.005   6    192.168.10.5:54865 ->  104.16.207.165:443   ...AP.S.   0   3   160     1"
    );
    assert_eq!(flow().format_duration(), "  1.005");
    assert_eq!(flow().format_n_bytes_packet(), "  160");
    assert_eq!(
        flow().format_fields().iter().collect::<String>(),
        "  1.005   6    192.168.10.5:54865 ->  104.16.207.165:443   ...AP.S.   0   3   160     1"
    );
}

#[test]
fn columns_that_are_too_narrow_grow() {
    let mut f = flow();
    f.width_duration_str = 0;
    f.width_n_bytes_packet = 0;
    f.duration = 999;
    f.protocol = 255;
    f.src_ip = "2001:db8:85a3::8a2e:370:7334".to_string();
    f.src_port = 4_000_000_000;
    f.dst_ip = "".to_string();
    f.dst_port = 0;
    f.qos = 255;
    f.n_packet = 123_456;
    f.n_bytes_packet = 0;
    f.n_flow = 1_234_567;
    f.flags = Flags::from([true; 8]);
    assert_eq!(
        f.to_line().unwrap(),
        "2017-07-03 09:59:00.123 0.000 255 2001:db8:85a3::8a2e:370:7334:4000000000 ->                :0     CEUAPRSF 255 123456 0 1234567"
    );
    f.duration = u64::MAX;
    assert_eq!(f.format_duration(), "18446744073709.551");
    f.duration = 59_999;
    assert_eq!(f.format_duration(), "0.059");
}

#[test]
fn a_flow_whose_timestamp_cannot_be_written_has_no_line() {
    let mut f = flow();
    f.timestamp = FlowTimeStamp::new(i64::MAX, 0);
    assert_eq!(f.to_line(), None);
    assert_eq!(format_lines(&vec![flow(), f, flow()]), None);
    let lines = format_lines(&vec![flow(), flow()]).unwrap();
    assert_eq!(lines.len(), 2);
    assert_eq!(lines[0], flow().to_line().unwrap());
    assert_eq!(lines[1], lines[0]);
    assert_eq!(format_lines(&Vec::new()), Some(Vec::new()));
}

#[test]
fn a_written_line_is_read_back() {
    let label = Label::new(0, "NoLabel".to_string());
    let reader = NetFlowReader::new();
    let mut written = flow();
    for (duration, stamp_nanos) in [(1_005_000, 123_000_000), (0, 0), (86_400_000_000, 999_000_000)] {
        written.duration = duration;
        written.timestamp = FlowTimeStamp::new(DAY + 17, stamp_nanos);
        let line = written.to_line().unwrap();
        let read = reader.read_line(&line, &label).unwrap();
        assert_eq!(read.timestamp, written.timestamp);
        assert_eq!(read.duration, written.duration);
        assert_eq!(read.protocol, written.protocol);
        assert_eq!(read.src_ip, written.src_ip);
        assert_eq!(read.src_port, written.src_port);
        assert_eq!(read.dst_ip, written.dst_ip);
        assert_eq!(read.dst_port, written.dst_port);
        assert_eq!(read.flags, written.flags);
        assert_eq!(read.qos, written.qos);
        assert_eq!(read.n_packet, written.n_packet);
        assert_eq!(read.n_bytes_packet, written.n_bytes_packet);
        assert_eq!(read.n_flow, written.n_flow);
        assert_eq!(read.label, label);
        assert_eq!(read.width_duration_str, 0);
        assert_eq!(read.width_n_bytes_packet, 0);
    }
}

#[test]
fn what_is_less_than_a_millisecond_is_not_read_back() {
    let label = Label::new(0, "NoLabel".to_string());
    let mut written = flow();
    written.duration = 1_005_999;
    written.timestamp = FlowTimeStamp::new(DAY, 123_456_789);
    let read = NetFlowReader::new().read_line(&written.to_line().unwrap(), &label).unwrap();
    assert_eq!(read.duration, 1_005_000);
    assert_eq!(read.timestamp, FlowTimeStamp::new(DAY, 123_000_000));
}

#[test]
fn a_line_in_any_spacing() {
    let label = Label::new(5, "Bot".to_string());
    let line = "\t2017-07-03 09:59:00.500 12.5 17 a:1 <- b:2:3 .x 1 2 3 4 and more ".to_string();
    let read = NetFlowReader::new().read_line(&line, &label).unwrap();
    assert_eq!(read.timestamp, FlowTimeStamp::new(DAY + 9 * 3600 + 59 * 60, 500_000_000));
    assert_eq!(read.duration, 125_000);
    assert_eq!(read.protocol, 17);
    assert_eq!((read.src_ip.as_str(), read.src_port), ("a", 1));
    assert_eq!((read.dst_ip.as_str(), read.dst_port), ("b", 2));
    assert_eq!(read.flags.to_text(), ".E......");
    assert_eq!((read.qos, read.n_packet, read.n_bytes_packet, read.n_flow), (1, 2, 3, 4));
    assert_eq!(read.label, label);
}

#[test]
fn what_cannot_be_read_on_a_line() {
    let good = "2017-07-03 09:59:00.123 1.005 6 10.0.0.1:80 -> 10.0.0.2:443 ...AP.S. 0 3 160 1";
    let label = Label::new(0, "NoLabel".to_string());
    let reader = NetFlowReader::new();
    assert!(reader.read_line(&good.to_string(), &label).is_ok());
    let error = |word: usize, text: &str| {
        let mut words: Vec<&str> = good.split(' ').collect();
        words[word] = text;
        reader.read_line(&words.join(" "), &label).err()
    };
    assert_eq!(error(0, "03/07/2017"), Some(LineError::BadTimestamp));
    assert_eq!(error(1, "9:59"), Some(LineError::BadTimestamp));
    assert_eq!(error(1, "09:59:00.5"), Some(LineError::BadTimestamp));
    assert_eq!(error(2, "-1.005"), Some(LineError::BadDuration));
    assert_eq!(error(2, "1,005"), Some(LineError::BadDuration));
    assert_eq!(error(2, "."), Some(LineError::BadDuration));
    assert_eq!(error(2, "18446744073709552"), Some(LineError::BadDuration));
    assert_eq!(error(2, "18446744073709551"), None);
    assert_eq!(error(3, "256"), Some(LineError::BadProtocol));
    assert_eq!(error(4, "10.0.0.1"), Some(LineError::BadSource));
    assert_eq!(error(4, "10.0.0.1:"), Some(LineError::BadSource));
    assert_eq!(error(5, "anything"), None);
    assert_eq!(error(6, "10.0.0.2:https"), Some(LineError::BadDestination));
    assert_eq!(error(6, "::1"), Some(LineError::BadDestination));
    assert_eq!(error(7, "...AP.S.."), Some(LineError::BadFlags));
    assert_eq!(error(8, "256"), Some(LineError::BadQos));
    assert_eq!(error(9, "-3"), Some(LineError::BadPacketCount));
    assert_eq!(error(10, "1e3"), Some(LineError::BadByteTotal));
    assert_eq!(error(11, "4294967296"), Some(LineError::BadFlowCount));
    assert_eq!(error(11, ""), Some(LineError::TooShort));
    assert_eq!(reader.read_line(&"".to_string(), &label).err(), Some(LineError::TooShort));
    assert_eq!(
        reader.read_line(&"2017-07-03 09:59:00.123".to_string(), &label).err(),
        Some(LineError::TooShort)
    );
    let mut words: Vec<&str> = good.split(' ').collect();
    words[2] = "x";
    words[3] = "y";
    words[11] = "z";
    assert_eq!(reader.read_line(&words.join(" "), &label).err(), Some(LineError::BadDuration));
}

#[test]
fn the_parts_of_a_line() {
    assert_eq!(remove_dots(&c("1.005")), c("1005"));
    assert_eq!(remove_dots(&c("..1..")), c("1"));
    assert_eq!(read_duration(&c("1.005")), Some(1_005_000));
    assert_eq!(read_duration(&c("0.000")), Some(0));
    assert_eq!(read_duration(&c("+7")), Some(7_000));
    assert_eq!(read_duration(&c("-0")), Some(0));
    assert_eq!(read_duration(&c("")), None);
    assert_eq!(read_endpoint(&c("10.0.0.1:80")), Some((c("10.0.0.1"), 80)));
    assert_eq!(read_endpoint(&c(":80")), Some((c(""), 80)));
    assert_eq!(read_endpoint(&c("a:80:90")), Some((c("a"), 80)));
    assert_eq!(read_endpoint(&c("a:80x")), None);
    assert_eq!(read_endpoint(&c("a")), None);
    assert_eq!(
        NetFlowReader::extract_ip_port("10.0.0.1:4294967295"),
        Some(("10.0.0.1".to_string(), u32::MAX))
    );
    assert_eq!(NetFlowReader::extract_ip_port("10.0.0.1:4294967296"), None);
    assert_eq!(
        NetFlowReader::unable_to_parse_str("1e3"),
        "Unable to parse the string \"1e3\" as a number."
    );
}

#[test]
fn the_words_of_a_line_with_a_given_timestamp() {
    let words: Vec<Vec<char>> =
        "d t 0.250 6 a:1 -> b:2 ........ 0 1 2 3".split(' ').map(c).collect();
    let label = Label::new(1, "BENIGN".to_string());
    let read = NetFlowReader::read_words(&words, FlowTimeStamp::new(7, 8), &label).unwrap();
    assert_eq!(read.timestamp, FlowTimeStamp::new(7, 8));
    assert_eq!(read.duration, 250_000);
    assert_eq!(read.label, label);
    assert_eq!(read.n_flow, 3);
}

#[test]
fn the_lines_of_a_file_become_a_batch() {
    let lines: Vec<String> = vec![
        "2017-07-03 09:59:02.000 12.500 6 10.0.0.1:80 -> 10.0.0.2:443 ........ 0 3 160 1",
        "2017-07-03 09:59:01.000 0.005 6 10.0.0.2:443 -> 10.0.0.1:80 ........ 0 7 1234 1",
        "2017-07-03 09:59:02.000 0.000 17 10.0.0.3:53 -> 10.0.0.1:99 ........ 0 1 1 1",
    ]
    .into_iter()
    .map(String::from)
    .collect();
    let flows = read_nf_lines(&lines).unwrap();
    assert_eq!(
        flows.iter().map(|f| f.n_packet).collect::<Vec<_>>(),
        vec![7, 3, 1]
    );
    for f in &flows {
        assert_eq!(f.label, Label::new(0, "NoLabel".to_string()));
        assert_eq!(f.width_duration_str, 6);
        assert_eq!(f.width_n_bytes_packet, 4);
    }
    assert_eq!(
        format_lines(&flows).unwrap(),
        vec![
            "2017-07-03 09:59:01.000  0.005   6        10.0.0.2:443   ->        10.0.0.1:80    ........   0   7 1234     1",
            "2017-07-03 09:59:02.000 12.500   6        10.0.0.1:80    ->        10.0.0.2:443   ........   0   3  160     1",
            "2017-07-03 09:59:02.000  0.000  17        10.0.0.3:53    ->        10.0.0.1:99    ........   0   1    1     1",
        ]
    );
    let mut bad = lines.clone();
    bad[1] = "nothing".to_string();
    bad[2] = "nothing at all".to_string();
    assert_eq!(read_nf_lines(&bad).err(), Some((1, LineError::TooShort)));
    assert!(read_nf_lines(&Vec::new()).unwrap().is_empty());
}
