use cic2nf::cic::flag_count::CICFlagCount;
use cic2nf::cic::label::Label;
use cic2nf::cic::record::CICRecord;
use cic2nf::cic::time::FlowTimeStamp;
use cic2nf::nf::flags::Flags;
use cic2nf::nf::flow::{
    categorize_nf, cic_to_nf_batch, get_n_digit_in_decimal, insert_by_time, largest_byte_total,
    longest_duration_ms, set_nf_format, NetFlow,
};

fn record(n_packet: [u32; 2], n_bytes: [usize; 2], duration: i64) -> CICRecord {
    let mut record = CICRecord::new(
        "192.168.10.5".to_string(),
        54865,
        "104.16.207.165".to_string(),
        443,
        6,
        FlowTimeStamp::new(1_499_040_000, 250),
        duration,
        n_packet,
        n_bytes,
        CICFlagCount::new(["0", "0", "0", "0", "1", "1", "0", "0", "1", "0", "0", "0"]).unwrap(),
        "BENIGN".to_string(),
    );
    record.label_mut().set_index_mut(1);
    record
}

fn flow(secs: i64, duration: u64, n_bytes: usize, label: &str, mark: u32) -> NetFlow {
    NetFlow {
        timestamp: FlowTimeStamp::new(secs, 0),
        duration,
        width_duration_str: 0,
        protocol: 6,
        src_ip: "10.0.0.1".to_string(),
        src_port: mark,
        dst_ip: "10.0.0.2".to_string(),
        dst_port: 80,
        flags: Flags::from([false; 8]),
        qos: 0,
        n_packet: 1,
        n_bytes_packet: n_bytes,
        width_n_bytes_packet: 0,
        n_flow: 1,
        label: Label::new(2, label.to_string()),
    }
}

fn marks(flows: &[NetFlow]) -> Vec<u32> {
    flows.iter().map(|f| f.src_port).collect()
}

#[test]
fn a_record_with_packets_both_ways_gives_two_flows() {
    let [forward, backward] = NetFlow::from_cic(record([3, 7], [160, 340], 1500));
    let forward = forward.unwrap();
    let backward = backward.unwrap();
    assert_eq!(forward.src_ip, "192.168.10.5");
    assert_eq!(forward.src_port, 54865);
    assert_eq!(forward.dst_ip, "104.16.207.165");
    assert_eq!(forward.dst_port, 443);
    assert_eq!(backward.src_ip, forward.dst_ip);
    assert_eq!(backward.src_port, forward.dst_port);
    assert_eq!(backward.dst_ip, forward.src_ip);
    assert_eq!(backward.dst_port, forward.src_port);
    assert_eq!(forward.n_packet, 3);
    assert_eq!(backward.n_packet, 7);
    assert_eq!(forward.n_bytes_packet, 160);
    assert_eq!(backward.n_bytes_packet, 340);
    for f in [&forward, &backward] {
        assert_eq!(f.timestamp, FlowTimeStamp::new(1_499_040_000, 250));
        assert_eq!(f.duration, 1500);
        assert_eq!(f.protocol, 6);
        assert_eq!(f.flags.to_text(), "...A..SF");
        assert_eq!(f.qos, 0);
        assert_eq!(f.n_flow, 1);
        assert_eq!(f.width_duration_str, 0);
        assert_eq!(f.width_n_bytes_packet, 0);
        assert_eq!(*f.label(), Label::new(1, "BENIGN".to_string()));
        assert_eq!(f.duration_ms(), 1);
    }
}

#[test]
fn a_direction_without_packets_gives_no_flow() {
    let [forward, backward] = NetFlow::from_cic(record([3, 0], [160, 340], 0));
    assert!(backward.is_none());
    let forward = forward.unwrap();
    let [both, _] = NetFlow::from_cic(record([3, 7], [160, 1], 0));
    let both = both.unwrap();
    assert_eq!(format!("{:?}", forward), format!("{:?}", both));

    let [forward, backward] = NetFlow::from_cic(record([0, 7], [160, 340], 0));
    assert!(forward.is_none());
    let backward = backward.unwrap();
    assert_eq!(backward.src_ip, "104.16.207.165");
    assert_eq!(backward.n_packet, 7);
    assert_eq!(backward.n_bytes_packet, 340);

    let [forward, backward] = NetFlow::from_cic(record([0, 0], [160, 340], 0));
    assert!(forward.is_none() && backward.is_none());
}

#[test]
fn a_negative_duration_gives_flows_of_duration_zero() {
    let [forward, backward] = NetFlow::from_cic(record([1, 1], [0, 0], -5000));
    assert_eq!(forward.unwrap().duration, 0);
    assert_eq!(backward.unwrap().duration, 0);
}

#[test]
fn the_number_of_digits() {
    assert_eq!(get_n_digit_in_decimal(0), 1);
    assert_eq!(get_n_digit_in_decimal(7), 1);
    assert_eq!(get_n_digit_in_decimal(10), 2);
    assert_eq!(get_n_digit_in_decimal(999), 3);
    assert_eq!(get_n_digit_in_decimal(1000), 4);
    assert_eq!(get_n_digit_in_decimal(-1000), 4);
    assert_eq!(get_n_digit_in_decimal(i64::MAX), 19);
    assert_eq!(get_n_digit_in_decimal(i64::MIN), 19);
}

#[test]
fn the_widths_fit_the_longest_duration_and_the_largest_total() {
    let widths = |durations: &[u64], totals: &[usize]| {
        let mut batch: Vec<NetFlow> = durations
            .iter()
            .zip(totals)
            .map(|(d, t)| flow(0, *d, *t, "L", 0))
            .collect();
        set_nf_format(&mut batch, None, None);
        let first = (batch[0].width_duration_str, batch[0].width_n_bytes_packet);
        for f in &batch {
            assert_eq!((f.width_duration_str, f.width_n_bytes_packet), first);
        }
        first
    };
    assert_eq!(widths(&[0], &[0]), (3, 1));
    assert_eq!(widths(&[999], &[9]), (3, 1));
    assert_eq!(widths(&[5_000], &[10]), (3, 2));
    assert_eq!(widths(&[999_999], &[999]), (5, 3));
    assert_eq!(widths(&[1_000_000], &[1000]), (5, 4));
    assert_eq!(widths(&[1_234_567, 12_345_678_000, 5], &[1, 123_456, 7]), (9, 6));
    let mut batch = vec![flow(0, 1_000_000, 5, "L", 0)];
    set_nf_format(&mut batch, Some(123_456), Some(1_000_000));
    assert_eq!((batch[0].width_duration_str, batch[0].width_n_bytes_packet), (7, 7));
    set_nf_format(&mut batch, Some(0), None);
    assert_eq!((batch[0].width_duration_str, batch[0].width_n_bytes_packet), (3, 1));
    let mut empty: Vec<NetFlow> = Vec::new();
    set_nf_format(&mut empty, None, None);
    assert!(empty.is_empty());
    assert_eq!(longest_duration_ms(&empty), 0);
    assert_eq!(largest_byte_total(&empty), 0);
    let batch = vec![flow(0, 1_999, 5, "L", 0), flow(0, 17_000, 9, "L", 0), flow(0, 3, 2, "L", 0)];
    assert_eq!(longest_duration_ms(&batch), 17);
    assert_eq!(largest_byte_total(&batch), 9);
}

#[test]
fn flows_are_ordered_by_time_and_stay_in_order_at_the_same_time() {
    let mut batch = vec![
        flow(30, 0, 0, "L", 1),
        flow(10, 0, 0, "L", 2),
        flow(20, 0, 0, "L", 3),
        flow(10, 0, 0, "L", 4),
        flow(30, 0, 0, "L", 5),
        flow(10, 0, 0, "L", 6),
        flow(5, 0, 0, "L", 7),
    ];
    set_nf_format(&mut batch, None, None);
    assert_eq!(marks(&batch), vec![7, 2, 4, 6, 3, 1, 5]);
    let mut sorted = batch.clone();
    set_nf_format(&mut sorted, None, None);
    assert_eq!(marks(&sorted), marks(&batch));
    let mut by_nanos = vec![flow(1, 0, 0, "L", 1), flow(1, 0, 0, "L", 2)];
    by_nanos[0].timestamp = FlowTimeStamp::new(1, 500);
    by_nanos[1].timestamp = FlowTimeStamp::new(1, 499);
    set_nf_format(&mut by_nanos, None, None);
    assert_eq!(marks(&by_nanos), vec![2, 1]);
}

#[test]
fn ordering_agrees_with_a_stable_sort() {
    let mut seed: u64 = 12345;
    let mut batch: Vec<NetFlow> = Vec::new();
    for mark in 0..200u32 {
        seed = seed.wrapping_mul(6364136223846793005).wrapping_add(1442695040888963407);
        batch.push(flow(((seed >> 33) % 17) as i64, 0, 0, "L", mark));
    }
    let mut expected = batch.clone();
    expected.sort_by(|a, b| a.timestamp.cmp(&b.timestamp));
    set_nf_format(&mut batch, None, None);
    assert_eq!(marks(&batch), marks(&expected));
}

#[test]
fn a_flow_is_put_behind_the_last_that_is_not_later() {
    let mut batch = vec![flow(1, 0, 0, "L", 1), flow(3, 0, 0, "L", 2), flow(3, 0, 0, "L", 3)];
    insert_by_time(&mut batch, flow(3, 0, 0, "L", 4));
    insert_by_time(&mut batch, flow(2, 0, 0, "L", 5));
    insert_by_time(&mut batch, flow(0, 0, 0, "L", 6));
    insert_by_time(&mut batch, flow(9, 0, 0, "L", 7));
    assert_eq!(marks(&batch), vec![6, 1, 5, 2, 3, 4, 7]);
}

#[test]
fn a_batch_of_records_becomes_a_batch_of_flows() {
    let mut late = record([3, 7], [1200, 34], 2_500_000);
    late.timestamp = FlowTimeStamp::new(1_499_040_009, 0);
    let early = record([0, 1], [5, 6], -1);
    let none = record([0, 0], [5, 6], 0);
    let flows = cic_to_nf_batch(vec![late, none, early]);
    assert_eq!(flows.len(), 3);
    assert_eq!(
        flows.iter().map(|f| (f.timestamp.secs, f.n_packet)).collect::<Vec<_>>(),
        vec![(1_499_040_000, 1), (1_499_040_009, 3), (1_499_040_009, 7)]
    );
    for f in &flows {
        assert_eq!(f.width_duration_str, 5);
        assert_eq!(f.width_n_bytes_packet, 4);
    }
    assert_eq!(flows[0].duration, 0);
    assert_eq!(flows[0].src_ip, "104.16.207.165");
    assert!(cic_to_nf_batch(Vec::new()).is_empty());
}

#[test]
fn flows_fall_into_groups_by_the_name_of_their_label() {
    let batch = vec![
        flow(1, 0, 0, "BENIGN", 1),
        flow(2, 0, 0, "Bot", 2),
        flow(3, 0, 0, "BENIGN", 3),
        flow(4, 0, 0, "DDoS", 4),
        flow(5, 0, 0, "Bot", 5),
        flow(6, 0, 0, "BENIGN", 6),
    ];
    let groups = categorize_nf(batch.clone());
    assert_eq!(groups.len(), 3);
    assert_eq!(marks(&groups[0]), vec![1, 3, 6]);
    assert_eq!(marks(&groups[1]), vec![2, 5]);
    assert_eq!(marks(&groups[2]), vec![4]);
    let names: Vec<&str> = groups.iter().map(|g| g[0].label().name().as_str()).collect();
    assert_eq!(names, vec!["BENIGN", "Bot", "DDoS"]);
    for group in &groups {
        assert!(!group.is_empty());
        for f in group {
            assert_eq!(f.label().name(), group[0].label().name());
        }
    }
    let mut all: Vec<u32> = groups.iter().flat_map(|g| marks(g)).collect();
    all.sort();
    assert_eq!(all, marks(&batch));
    assert!(categorize_nf(Vec::new()).is_empty());
}

#[test]
fn labels_with_the_same_name_and_other_numbers_share_a_group() {
    let mut a = flow(1, 0, 0, "Bot", 1);
    a.label = Label::new(3, "Bot".to_string());
    let mut b = flow(2, 0, 0, "Bot", 2);
    b.label = Label::new(9, "Bot".to_string());
    let c = flow(3, 0, 0, "bot", 3);
    let groups = categorize_nf(vec![a, b, c]);
    assert_eq!(groups.len(), 2);
    assert_eq!(marks(&groups[0]), vec![1, 2]);
    assert_eq!(marks(&groups[1]), vec![3]);
}
