//! Unidirectional flows: how a record of a dataset is split into them, how
//! a batch of them is laid out and ordered, and how it is sorted by label.

use vstd::multiset::Multiset;
use vstd::prelude::*;
use vstd::seq_lib::{to_multiset_build, to_multiset_insert};
use crate::cic::label::{Label, LabelView};
use crate::cic::record::{CICRecord, CICRecordView};
use crate::cic::time::FlowTimeStamp;
use crate::decimal::{count_digits, digit_count, magnitude};
use crate::nf::flags::Flags;

verus! {

/// One direction of a flow, as it stands on one output line.
#[derive(Debug)]
pub struct NetFlow {
    pub timestamp: FlowTimeStamp,
    /// How long the flow lasted, in microseconds.
    pub duration: u64,
    /// The width of the duration column.
    pub width_duration_str: u8,
    pub protocol: u8,
    pub src_ip: String,
    pub src_port: u32,
    pub dst_ip: String,
    pub dst_port: u32,
    pub flags: Flags,
    /// The quality-of-service byte.
    pub qos: u8,
    pub n_packet: u32,
    pub n_bytes_packet: usize,
    /// The width of the byte-total column.
    pub width_n_bytes_packet: u8,
    /// How many flows the line stands for.
    pub n_flow: u32,
    pub label: Label,
}

/// A flow as plain values.
pub struct NetFlowView {
    pub timestamp: FlowTimeStamp,
    pub duration: u64,
    pub width_duration_str: u8,
    pub protocol: u8,
    pub src_ip: Seq<char>,
    pub src_port: u32,
    pub dst_ip: Seq<char>,
    pub dst_port: u32,
    pub flags: Flags,
    pub qos: u8,
    pub n_packet: u32,
    pub n_bytes_packet: usize,
    pub width_n_bytes_packet: u8,
    pub n_flow: u32,
    pub label: LabelView,
}

impl View for NetFlow {
    type V = NetFlowView;

    open spec fn view(&self) -> NetFlowView {
        NetFlowView {
            timestamp: self.timestamp,
            duration: self.duration,
            width_duration_str: self.width_duration_str,
            protocol: self.protocol,
            src_ip: self.src_ip@,
            src_port: self.src_port,
            dst_ip: self.dst_ip@,
            dst_port: self.dst_port,
            flags: self.flags,
            qos: self.qos,
            n_packet: self.n_packet,
            n_bytes_packet: self.n_bytes_packet,
            width_n_bytes_packet: self.width_n_bytes_packet,
            n_flow: self.n_flow,
            label: self.label@,
        }
    }
}

/// The flows as plain values.
pub open spec fn flow_views(s: Seq<NetFlow>) -> Seq<NetFlowView> {
    s.map_values(|nf: NetFlow| nf@)
}

/// A slot as plain values.
pub open spec fn slot_view(slot: Option<NetFlow>) -> Option<NetFlowView> {
    match slot {
        Some(nf) => Some(nf@),
        None => None,
    }
}

/// The records as plain values.
pub open spec fn record_views(s: Seq<CICRecord>) -> Seq<CICRecordView> {
    s.map_values(|cr: CICRecord| cr@)
}

impl Clone for NetFlow {
    fn clone(&self) -> (out: Self)
        ensures
            out == *self,
    {
        NetFlow {
            timestamp: self.timestamp,
            duration: self.duration,
            width_duration_str: self.width_duration_str,
            protocol: self.protocol,
            src_ip: self.src_ip.clone(),
            src_port: self.src_port,
            dst_ip: self.dst_ip.clone(),
            dst_port: self.dst_port,
            flags: self.flags,
            qos: self.qos,
            n_packet: self.n_packet,
            n_bytes_packet: self.n_bytes_packet,
            width_n_bytes_packet: self.width_n_bytes_packet,
            n_flow: self.n_flow,
            label: self.label.clone(),
        }
    }
}

/// The forward direction of a record: from its source to its destination,
/// with the forward packet count and byte total. The column widths are not
/// set yet, the quality-of-service byte is 0 and the line stands for one
/// flow.
pub open spec fn forward_flow(cr: CICRecordView) -> NetFlowView {
    NetFlowView {
        timestamp: cr.timestamp,
        duration: cr.duration,
        width_duration_str: 0,
        protocol: cr.protocol,
        src_ip: cr.src_ip,
        src_port: cr.src_port,
        dst_ip: cr.dst_ip,
        dst_port: cr.dst_port,
        flags: cr.flag_count.flags(),
        qos: 0,
        n_packet: cr.n_packet.0,
        n_bytes_packet: cr.n_bytes_packet.0,
        width_n_bytes_packet: 0,
        n_flow: 1,
        label: cr.label,
    }
}

/// The backward direction of a record: from its destination to its source,
/// with the backward packet count and byte total.
pub open spec fn backward_flow(cr: CICRecordView) -> NetFlowView {
    NetFlowView {
        timestamp: cr.timestamp,
        duration: cr.duration,
        width_duration_str: 0,
        protocol: cr.protocol,
        src_ip: cr.dst_ip,
        src_port: cr.dst_port,
        dst_ip: cr.src_ip,
        dst_port: cr.src_port,
        flags: cr.flag_count.flags(),
        qos: 0,
        n_packet: cr.n_packet.1,
        n_bytes_packet: cr.n_bytes_packet.1,
        width_n_bytes_packet: 0,
        n_flow: 1,
        label: cr.label,
    }
}

/// The forward slot of a split record: empty where no packet went forward.
pub open spec fn forward_slot(cr: CICRecordView) -> Option<NetFlowView> {
    if cr.n_packet.0 == 0 {
        None
    } else {
        Some(forward_flow(cr))
    }
}

/// The backward slot of a split record: empty where no packet went backward.
pub open spec fn backward_slot(cr: CICRecordView) -> Option<NetFlowView> {
    if cr.n_packet.1 == 0 {
        None
    } else {
        Some(backward_flow(cr))
    }
}

/// The flows that a record is split into, the forward one first.
pub open spec fn split(cr: CICRecordView) -> Seq<NetFlowView> {
    let forward = if cr.n_packet.0 == 0 {
        Seq::<NetFlowView>::empty()
    } else {
        seq![forward_flow(cr)]
    };
    let backward = if cr.n_packet.1 == 0 {
        Seq::<NetFlowView>::empty()
    } else {
        seq![backward_flow(cr)]
    };
    forward + backward
}

/// The flows of a sequence of records, in the order of the records.
pub open spec fn flows_of(records: Seq<CICRecordView>) -> Seq<NetFlowView>
    decreases records.len(),
{
    if records.len() == 0 {
        Seq::empty()
    } else {
        flows_of(records.drop_last()) + split(records.last())
    }
}

impl NetFlow {
    /// Splits a record into its two directions: the forward slot first, then
    /// the backward one. A direction in which no packet went has an empty
    /// slot.
    pub fn from_cic(cr: CICRecord) -> (out: [Option<NetFlow>; 2])
        ensures
            slot_view(out[0]) == forward_slot(cr@),
            slot_view(out[1]) == backward_slot(cr@),
    {
        let (nf1, nf2) = split_record(&cr);
        [nf1, nf2]
    }

    /// The label of the flow.
    pub fn label(&self) -> (out: &Label)
        ensures
            *out == self.label,
    {
        &self.label
    }

    /// The duration in whole milliseconds.
    pub fn duration_ms(&self) -> (out: u64)
        ensures
            out == self.duration / 1000,
    {
        self.duration / 1000
    }
}

/// A record with packets in both directions gives two flows. Their endpoints
/// are swapped, each has the count and total of its own direction, and all
/// that is left they share.
pub proof fn lemma_split_both_directions(cr: CICRecordView)
    requires
        cr.n_packet.0 > 0,
        cr.n_packet.1 > 0,
    ensures
        split(cr).len() == 2,
        forward_slot(cr) == Some(split(cr)[0]),
        backward_slot(cr) == Some(split(cr)[1]),
        split(cr)[0].src_ip == split(cr)[1].dst_ip,
        split(cr)[0].src_port == split(cr)[1].dst_port,
        split(cr)[0].dst_ip == split(cr)[1].src_ip,
        split(cr)[0].dst_port == split(cr)[1].src_port,
        split(cr)[0].src_ip == cr.src_ip && split(cr)[0].src_port == cr.src_port,
        split(cr)[0].dst_ip == cr.dst_ip && split(cr)[0].dst_port == cr.dst_port,
        split(cr)[0].timestamp == split(cr)[1].timestamp,
        split(cr)[0].duration == split(cr)[1].duration,
        split(cr)[0].protocol == split(cr)[1].protocol,
        split(cr)[0].flags == split(cr)[1].flags,
        split(cr)[0].label == split(cr)[1].label,
        split(cr)[0].qos == 0 && split(cr)[1].qos == 0,
        split(cr)[0].n_flow == 1 && split(cr)[1].n_flow == 1,
        split(cr)[0].n_packet == cr.n_packet.0,
        split(cr)[1].n_packet == cr.n_packet.1,
        split(cr)[0].n_bytes_packet == cr.n_bytes_packet.0,
        split(cr)[1].n_bytes_packet == cr.n_bytes_packet.1,
{
}

/// Every flow of a record has the duration of the record, which is never
/// negative: a record of duration zero gives flows of duration zero.
pub proof fn lemma_split_keeps_duration(cr: CICRecordView)
    ensures
        forall|k: int| 0 <= k < split(cr).len() ==> (#[trigger] split(cr)[k]).duration == cr.duration,
{
}

/// A direction without packets has an empty slot, and what stands in a slot
/// does not depend on the count or the total of the other direction.
pub proof fn lemma_split_one_direction(cr: CICRecordView, other: CICRecordView)
    requires
        other.src_ip == cr.src_ip,
        other.src_port == cr.src_port,
        other.dst_ip == cr.dst_ip,
        other.dst_port == cr.dst_port,
        other.protocol == cr.protocol,
        other.timestamp == cr.timestamp,
        other.duration == cr.duration,
        other.flag_count == cr.flag_count,
        other.label == cr.label,
    ensures
        cr.n_packet.0 == 0 <==> forward_slot(cr) is None,
        cr.n_packet.1 == 0 <==> backward_slot(cr) is None,
        other.n_packet.0 == cr.n_packet.0 && other.n_bytes_packet.0 == cr.n_bytes_packet.0
            ==> forward_slot(other) == forward_slot(cr),
        other.n_packet.1 == cr.n_packet.1 && other.n_bytes_packet.1 == cr.n_bytes_packet.1
            ==> backward_slot(other) == backward_slot(cr),
        split(cr).len() == (if cr.n_packet.0 == 0 { 0int } else { 1int }) + (if cr.n_packet.1
            == 0 { 0int } else { 1int }),
{
}

/// The number of decimal digits of `x`, whatever its sign; 0 has one digit.
pub fn get_n_digit_in_decimal(x: i64) -> (n: u8)
    ensures
        n == digit_count(magnitude(x as int)),
        1 <= n <= 20,
{
    let m: u64 = if x >= 0 {
        x as u64
    } else if x == i64::MIN {
        0x8000_0000_0000_0000u64
    } else {
        (-x) as u64
    };
    count_digits(m)
}

/// The longest duration of a batch, in whole milliseconds; 0 for an empty
/// batch.
pub open spec fn max_duration_ms(s: Seq<NetFlowView>) -> u64
    decreases s.len(),
{
    if s.len() == 0 {
        0
    } else if max_duration_ms(s.drop_last()) >= s.last().duration / 1000 {
        max_duration_ms(s.drop_last())
    } else {
        s.last().duration / 1000
    }
}

/// The largest byte total of a batch; 0 for an empty batch.
pub open spec fn max_bytes(s: Seq<NetFlowView>) -> usize
    decreases s.len(),
{
    if s.len() == 0 {
        0
    } else if max_bytes(s.drop_last()) >= s.last().n_bytes_packet {
        max_bytes(s.drop_last())
    } else {
        s.last().n_bytes_packet
    }
}

/// The width of the duration column for a batch whose longest duration is
/// `max_ms` milliseconds: the digits of `max_ms` and the decimal point, and
/// one more below a second, where the seconds are a single 0.
pub open spec fn duration_width(max_ms: u64) -> u8 {
    (digit_count(max_ms as nat) + 1 + if max_ms < 1000 { 1int } else { 0int }) as u8
}

/// The width of the byte-total column for a batch whose largest total is
/// `max_total`: its number of digits.
pub open spec fn bytes_width(max_total: usize) -> u8 {
    digit_count(max_total as nat) as u8
}

/// The flow with the two column widths set.
pub open spec fn stamped(nf: NetFlowView, duration_width: u8, bytes_width: u8) -> NetFlowView {
    NetFlowView { width_duration_str: duration_width, width_n_bytes_packet: bytes_width, ..nf }
}

/// The batch with the two column widths set on each flow.
pub open spec fn stamped_all(s: Seq<NetFlowView>, duration_width: u8, bytes_width: u8) -> Seq<
    NetFlowView,
> {
    Seq::new(s.len(), |i: int| stamped(s[i], duration_width, bytes_width))
}

/// How many flows at the end of `s` come strictly after the time `t`.
pub open spec fn late_count(s: Seq<NetFlowView>, t: FlowTimeStamp) -> nat
    decreases s.len(),
{
    if s.len() == 0 || !t.spec_precedes(s.last().timestamp) {
        0
    } else {
        1 + late_count(s.drop_last(), t)
    }
}

/// `s` with `x` put in behind the last flow that does not come after it.
pub open spec fn placed(s: Seq<NetFlowView>, x: NetFlowView) -> Seq<NetFlowView> {
    s.insert(s.len() - late_count(s, x.timestamp), x)
}

/// The flows of `s` by ascending timestamp, flows with the same timestamp in
/// the order in which they stand in `s`.
pub open spec fn ordered(s: Seq<NetFlowView>) -> Seq<NetFlowView>
    decreases s.len(),
{
    if s.len() == 0 {
        s
    } else {
        placed(ordered(s.drop_last()), s.last())
    }
}

/// The batch as it is written: the column widths for the given maxima set on
/// each flow, and the flows ordered by timestamp.
pub open spec fn laid_out(s: Seq<NetFlowView>, max_ms: u64, max_total: usize) -> Seq<NetFlowView> {
    ordered(stamped_all(s, duration_width(max_ms), bytes_width(max_total)))
}

/// `late_count` never counts more flows than there are.
pub proof fn lemma_late_count_bound(s: Seq<NetFlowView>, t: FlowTimeStamp)
    ensures
        late_count(s, t) <= s.len(),
    decreases s.len(),
{
    if s.len() > 0 {
        lemma_late_count_bound(s.drop_last(), t);
    }
}

/// Putting a flow in place adds one flow.
pub proof fn lemma_ordered_len(s: Seq<NetFlowView>)
    ensures
        ordered(s).len() == s.len(),
    decreases s.len(),
{
    if s.len() > 0 {
        lemma_ordered_len(s.drop_last());
        lemma_late_count_bound(ordered(s.drop_last()), s.last().timestamp);
    }
}

/// The views of a batch with one more flow are the views of the batch with
/// the view of that flow behind them.
pub proof fn lemma_flow_views_push(s: Seq<NetFlow>, x: NetFlow)
    ensures
        flow_views(s.push(x)) == flow_views(s).push(x@),
{
    assert(flow_views(s.push(x)) =~= flow_views(s).push(x@));
}

/// Puts `x` into `out` behind the last flow that does not come after it.
pub fn insert_by_time(out: &mut Vec<NetFlow>, x: NetFlow)
    ensures
        flow_views(final(out)@) == placed(flow_views(old(out)@), x@),
{
    let ghost views = flow_views(out@);
    let mut p: usize = out.len();
    assert(views.take(p as int) == views);
    while p > 0 && x.timestamp.precedes(out[p - 1].timestamp)
        invariant
            p <= out.len(),
            out@ == old(out)@,
            views == flow_views(out@),
            late_count(views, x@.timestamp) == (out.len() - p) + late_count(
                views.take(p as int),
                x@.timestamp,
            ),
        decreases p,
    {
        assert(views.take(p as int).drop_last() == views.take(p - 1));
        assert(views.take(p as int).last() == out[p - 1]@);
        p -= 1;
    }
    proof {
        if p > 0 {
            assert(views.take(p as int).last() == out[p - 1]@);
        }
    }
    out.insert(p, x);
    assert(flow_views(final(out)@) =~= views.insert(p as int, x@));
}

/// The longest duration of a batch, in whole milliseconds.
pub fn longest_duration_ms(nf_records: &Vec<NetFlow>) -> (out: u64)
    ensures
        out == max_duration_ms(flow_views(nf_records@)),
{
    let ghost views = flow_views(nf_records@);
    let mut out: u64 = 0;
    let mut i: usize = 0;
    assert(views.take(0) == Seq::<NetFlowView>::empty());
    while i < nf_records.len()
        invariant
            i <= nf_records.len(),
            views == flow_views(nf_records@),
            out == max_duration_ms(views.take(i as int)),
        decreases nf_records.len() - i,
    {
        assert(views.take(i + 1).drop_last() == views.take(i as int));
        assert(views.take(i + 1).last() == nf_records[i as int]@);
        let ms = nf_records[i].duration_ms();
        if ms > out {
            out = ms;
        }
        i += 1;
    }
    assert(views.take(nf_records.len() as int) == views);
    out
}

/// The largest byte total of a batch.
pub fn largest_byte_total(nf_records: &Vec<NetFlow>) -> (out: usize)
    ensures
        out == max_bytes(flow_views(nf_records@)),
{
    let ghost views = flow_views(nf_records@);
    let mut out: usize = 0;
    let mut i: usize = 0;
    assert(views.take(0) == Seq::<NetFlowView>::empty());
    while i < nf_records.len()
        invariant
            i <= nf_records.len(),
            views == flow_views(nf_records@),
            out == max_bytes(views.take(i as int)),
        decreases nf_records.len() - i,
    {
        assert(views.take(i + 1).drop_last() == views.take(i as int));
        assert(views.take(i + 1).last() == nf_records[i as int]@);
        let total = nf_records[i].n_bytes_packet;
        if total > out {
            out = total;
        }
        i += 1;
    }
    assert(views.take(nf_records.len() as int) == views);
    out
}

/// The flows of `v` in the opposite order.
fn reversed(v: Vec<NetFlow>) -> (out: Vec<NetFlow>)
    ensures
        out.len() == v.len(),
        forall|j: int| 0 <= j < out.len() ==> out[j] == v[v.len() - 1 - j],
{
    let mut v = v;
    let ghost before = v@;
    let mut out: Vec<NetFlow> = Vec::new();
    while v.len() > 0
        invariant
            v.len() + out.len() == before.len(),
            v@ == before.take(v.len() as int),
            forall|j: int| 0 <= j < out.len() ==> out[j] == before[before.len() - 1 - j],
        decreases v.len(),
    {
        let x = v.pop().unwrap();
        out.push(x);
    }
    out
}

/// Lays out a batch: finds the widths of the duration and byte-total columns
/// from the given maxima, or from the batch itself where none is given, sets
/// them on every flow, and orders the flows by timestamp, flows with the
/// same timestamp staying in their order.
pub fn set_nf_format(
    nf_records: &mut Vec<NetFlow>,
    max_duration_ms_in: Option<u64>,
    max_packet_bytes_in: Option<usize>,
)
    ensures
        flow_views(final(nf_records)@) == laid_out(
            flow_views(old(nf_records)@),
            match max_duration_ms_in {
                Some(ms) => ms,
                None => max_duration_ms(flow_views(old(nf_records)@)),
            },
            match max_packet_bytes_in {
                Some(total) => total,
                None => max_bytes(flow_views(old(nf_records)@)),
            },
        ),
{
    let max_ms: u64 = match max_duration_ms_in {
        Some(ms) => ms,
        None => longest_duration_ms(nf_records),
    };
    let max_total: usize = match max_packet_bytes_in {
        Some(total) => total,
        None => largest_byte_total(nf_records),
    };
    let mut width_duration: u8 = count_digits(max_ms) + 1;
    if max_ms < 1000 {
        width_duration += 1;
    }
    let width_bytes: u8 = count_digits(max_total as u64);
    let ghost before = nf_records@;
    let ghost all = stamped_all(flow_views(before), width_duration, width_bytes);
    let n = nf_records.len();
    let mut taken: Vec<NetFlow> = Vec::new();
    core::mem::swap(nf_records, &mut taken);
    let mut rest = reversed(taken);
    assert(all.take(0) == Seq::<NetFlowView>::empty());
    assert(flow_views(nf_records@) =~= Seq::<NetFlowView>::empty());
    while rest.len() > 0
        invariant
            nf_records.len() + rest.len() == n,
            n == before.len(),
            all == stamped_all(flow_views(before), width_duration, width_bytes),
            forall|j: int| 0 <= j < rest.len() ==> rest[j] == before[n - 1 - j],
            flow_views(nf_records@) == ordered(all.take(nf_records.len() as int)),
        decreases rest.len(),
    {
        let ghost k = nf_records.len() as int;
        let mut x = rest.pop().unwrap();
        x.width_duration_str = width_duration;
        x.width_n_bytes_packet = width_bytes;
        assert(x@ == all[k]);
        assert(all.take(k + 1).drop_last() == all.take(k));
        proof {
            lemma_ordered_len(all.take(k));
            lemma_late_count_bound(ordered(all.take(k)), x@.timestamp);
        }
        let ghost placed_views = placed(ordered(all.take(k)), x@);
        insert_by_time(nf_records, x);
        assert(flow_views(nf_records@).len() == nf_records.len());
        assert(placed_views.len() == k + 1);
    }
    assert(all.take(n as int) == all);
}

/// The flows that a record is split into, each slot on its own.
fn split_record(cr: &CICRecord) -> (out: (Option<NetFlow>, Option<NetFlow>))
    ensures
        slot_view(out.0) == forward_slot(cr@),
        slot_view(out.1) == backward_slot(cr@),
{
    let flags: Flags = cr.flag_count.to_flags();
    let nf1: Option<NetFlow> = if cr.n_packet[0] == 0 {
        None
    } else {
        Some(
            NetFlow {
                timestamp: cr.timestamp,
                duration: cr.duration,
                width_duration_str: 0,
                protocol: cr.protocol,
                src_ip: cr.src_ip.clone(),
                src_port: cr.src_port,
                dst_ip: cr.dst_ip.clone(),
                dst_port: cr.dst_port,
                flags,
                qos: 0,
                n_packet: cr.n_packet[0],
                n_bytes_packet: cr.n_bytes_packet[0],
                width_n_bytes_packet: 0,
                n_flow: 1,
                label: cr.label.clone(),
            },
        )
    };
    let nf2: Option<NetFlow> = if cr.n_packet[1] == 0 {
        None
    } else {
        Some(
            NetFlow {
                timestamp: cr.timestamp,
                duration: cr.duration,
                width_duration_str: 0,
                protocol: cr.protocol,
                src_ip: cr.dst_ip.clone(),
                src_port: cr.dst_port,
                dst_ip: cr.src_ip.clone(),
                dst_port: cr.src_port,
                flags,
                qos: 0,
                n_packet: cr.n_packet[1],
                n_bytes_packet: cr.n_bytes_packet[1],
                width_n_bytes_packet: 0,
                n_flow: 1,
                label: cr.label.clone(),
            },
        )
    };
    (nf1, nf2)
}

/// Splits every record of a batch into its directions, then lays the flows
/// out: the column widths fit the longest duration and the largest byte
/// total of the batch, and the flows are ordered by timestamp.
pub fn cic_to_nf_batch(cic_records: Vec<CICRecord>) -> (out: Vec<NetFlow>)
    ensures
        flow_views(out@) == laid_out(
            flows_of(record_views(cic_records@)),
            max_duration_ms(flows_of(record_views(cic_records@))),
            max_bytes(flows_of(record_views(cic_records@))),
        ),
{
    let ghost records = record_views(cic_records@);
    let mut netflow_storage: Vec<NetFlow> = Vec::new();
    let mut max_ms: u64 = 0;
    let mut max_total: usize = 0;
    let mut i: usize = 0;
    assert(records.take(0) == Seq::<CICRecordView>::empty());
    assert(flow_views(netflow_storage@) =~= Seq::<NetFlowView>::empty());
    while i < cic_records.len()
        invariant
            i <= cic_records.len(),
            records == record_views(cic_records@),
            flow_views(netflow_storage@) == flows_of(records.take(i as int)),
            max_ms == max_duration_ms(flow_views(netflow_storage@)),
            max_total == max_bytes(flow_views(netflow_storage@)),
        decreases cic_records.len() - i,
    {
        assert(records.take(i + 1).drop_last() == records.take(i as int));
        assert(records.take(i + 1).last() == cic_records[i as int]@);
        let ghost before = flow_views(netflow_storage@);
        let (forward, backward) = split_record(&cic_records[i]);
        match forward {
            Some(nf) => {
                let ms = nf.duration_ms();
                if ms > max_ms {
                    max_ms = ms;
                }
                if nf.n_bytes_packet > max_total {
                    max_total = nf.n_bytes_packet;
                }
                let ghost pushed = nf@;
                proof {
                    lemma_flow_views_push(netflow_storage@, nf);
                }
                netflow_storage.push(nf);
                assert(flow_views(netflow_storage@).drop_last() == before);
                assert(flow_views(netflow_storage@).last() == pushed);
                assert(max_ms == max_duration_ms(flow_views(netflow_storage@)));
                assert(max_total == max_bytes(flow_views(netflow_storage@)));
            },
            None => {},
        }
        let ghost middle = flow_views(netflow_storage@);
        match backward {
            Some(nf) => {
                let ms = nf.duration_ms();
                if ms > max_ms {
                    max_ms = ms;
                }
                if nf.n_bytes_packet > max_total {
                    max_total = nf.n_bytes_packet;
                }
                let ghost pushed = nf@;
                proof {
                    lemma_flow_views_push(netflow_storage@, nf);
                }
                netflow_storage.push(nf);
                assert(flow_views(netflow_storage@).drop_last() == middle);
                assert(flow_views(netflow_storage@).last() == pushed);
                assert(max_ms == max_duration_ms(flow_views(netflow_storage@)));
                assert(max_total == max_bytes(flow_views(netflow_storage@)));
            },
            None => {},
        }
        assert(flow_views(netflow_storage@) =~= before + split(cic_records@[i as int]@));
        i += 1;
    }
    assert(records.take(cic_records.len() as int) == records);
    set_nf_format(&mut netflow_storage, Some(max_ms), Some(max_total));
    netflow_storage
}

/// The flows of `s` whose label has the given name, in their order.
pub open spec fn with_label(s: Seq<NetFlowView>, name: Seq<char>) -> Seq<NetFlowView>
    decreases s.len(),
{
    if s.len() == 0 {
        s
    } else if s.last().label.name == name {
        with_label(s.drop_last(), name).push(s.last())
    } else {
        with_label(s.drop_last(), name)
    }
}

/// The names of the labels that occur in `s`, each once, in the order in
/// which they first occur.
pub open spec fn labels_seen(s: Seq<NetFlowView>) -> Seq<Seq<char>>
    decreases s.len(),
{
    if s.len() == 0 {
        Seq::empty()
    } else if labels_seen(s.drop_last()).contains(s.last().label.name) {
        labels_seen(s.drop_last())
    } else {
        labels_seen(s.drop_last()).push(s.last().label.name)
    }
}

/// The groups that a batch falls into: one for each label name that occurs,
/// in the order of first occurrence, holding the flows of that name in their
/// order.
pub open spec fn categorized(s: Seq<NetFlowView>) -> Seq<Seq<NetFlowView>> {
    Seq::new(labels_seen(s).len(), |k: int| with_label(s, labels_seen(s)[k]))
}

/// The groups as plain values.
pub open spec fn groups_of(groups: Seq<Vec<NetFlow>>) -> Seq<Seq<NetFlowView>> {
    groups.map_values(|g: Vec<NetFlow>| flow_views(g@))
}

/// Sorts the flows of a batch into groups by the name of their label. Each
/// name that occurs has one group, the groups stand in the order in which
/// their names first occur, and within a group the flows keep their order.
pub fn categorize_nf(nf_records: Vec<NetFlow>) -> (out: Vec<Vec<NetFlow>>)
    ensures
        groups_of(out@) == categorized(flow_views(nf_records@)),
{
    let ghost all = flow_views(nf_records@);
    let ghost given = nf_records@;
    let n = nf_records.len();
    let mut rest = reversed(nf_records);
    let mut groups: Vec<Vec<NetFlow>> = Vec::new();
    let ghost mut names: Seq<Seq<char>> = Seq::empty();
    assert(all.take(0) == Seq::<NetFlowView>::empty());
    while rest.len() > 0
        invariant
            rest.len() <= n,
            n == all.len(),
            all == flow_views(given),
            forall|j: int| 0 <= j < rest.len() ==> rest[j] == given[n - 1 - j],
            names == labels_seen(all.take(n - rest.len())),
            groups.len() == names.len(),
            forall|a: int, b: int| 0 <= a < b < names.len() ==> names[a] != names[b],
            forall|k: int|
                0 <= k < groups.len() ==> flow_views((#[trigger] groups[k])@) == with_label(
                    all.take(n - rest.len()),
                    names[k],
                ),
            forall|k: int|
                0 <= k < groups.len() ==> (#[trigger] groups[k]).len() > 0 && groups[k][0].label.name@
                    == names[k],
        decreases rest.len(),
    {
        let ghost i = n - rest.len();
        let ghost seen = all.take(i);
        let nf = rest.pop().unwrap();
        assert(nf == given[i]);
        assert(nf@ == all[i]);
        assert(all.take(i + 1).drop_last() == seen);
        assert(all.take(i + 1).last() == nf@);
        let mut k: usize = 0;
        while k < groups.len() && groups[k][0].label.name != nf.label.name
            invariant
                k <= groups.len(),
                groups.len() == names.len(),
                forall|j: int|
                    0 <= j < groups.len() ==> (#[trigger] groups[j]).len() > 0
                        && groups[j][0].label.name@ == names[j],
                forall|j: int| 0 <= j < k ==> names[j] != nf.label.name@,
            decreases groups.len() - k,
        {
            k += 1;
        }
        if k < groups.len() {
            assert(names[k as int] == nf.label.name@);
            assert(names.contains(nf.label.name@));
            let mut group = groups.remove(k);
            proof {
                lemma_flow_views_push(group@, nf);
            }
            group.push(nf);
            groups.insert(k, group);
        } else {
            assert(!names.contains(nf.label.name@));
            let mut group: Vec<NetFlow> = Vec::new();
            assert(with_label(seen, nf.label.name@).len() == 0) by {
                lemma_unseen_label(seen, nf.label.name@);
            }
            proof {
                lemma_flow_views_push(group@, nf);
            }
            group.push(nf);
            groups.push(group);
            proof {
                names = names.push(nf.label.name@);
            }
        }
    }
    assert(all.take(n as int) == all);
    assert(groups_of(groups@) =~= categorized(all));
    groups
}

/// A name that was not seen among the labels of `s` has no flows in `s`.
pub proof fn lemma_unseen_label(s: Seq<NetFlowView>, name: Seq<char>)
    requires
        !labels_seen(s).contains(name),
    ensures
        with_label(s, name).len() == 0,
    decreases s.len(),
{
    if s.len() > 0 {
        let before = labels_seen(s.drop_last());
        let last = s.last().label.name;
        if before.contains(last) {
            assert(last != name);
        } else {
            assert(before.push(last)[before.len() as int] == last);
            assert(last != name);
            assert forall|j: int| 0 <= j < before.len() implies before[j] != name by {
                assert(before.push(last)[j] == before[j]);
            }
        }
        lemma_unseen_label(s.drop_last(), name);
    }
}

/// All the flows of the groups together, each as often as it occurs.
pub open spec fn group_union(groups: Seq<Seq<NetFlowView>>) -> Multiset<NetFlowView>
    decreases groups.len(),
{
    if groups.len() == 0 {
        Multiset::empty()
    } else {
        group_union(groups.drop_last()).add(groups.last().to_multiset())
    }
}

/// No label name is seen twice.
pub proof fn lemma_labels_seen_once(s: Seq<NetFlowView>)
    ensures
        forall|a: int, b: int|
            0 <= a < b < labels_seen(s).len() ==> labels_seen(s)[a] != labels_seen(s)[b],
        forall|i: int| 0 <= i < s.len() ==> labels_seen(s).contains(#[trigger] s[i].label.name),
    decreases s.len(),
{
    if s.len() > 0 {
        let t = s.drop_last();
        let name = s.last().label.name;
        let before = labels_seen(t);
        lemma_labels_seen_once(t);
        if !before.contains(name) {
            assert(before.push(name)[before.len() as int] == name);
        }
        assert forall|i: int| 0 <= i < s.len() implies labels_seen(s).contains(
            #[trigger] s[i].label.name,
        ) by {
            if i < t.len() {
                assert(t[i] == s[i]);
                let j = choose|j: int| 0 <= j < before.len() && before[j] == t[i].label.name;
                assert(labels_seen(s)[j] == before[j]);
            }
        }
    }
}

/// Every flow that `with_label` picks has the name asked for.
pub proof fn lemma_with_label_members(s: Seq<NetFlowView>, name: Seq<char>)
    ensures
        forall|j: int|
            0 <= j < with_label(s, name).len() ==> (#[trigger] with_label(s, name)[j]).label.name
                == name,
    decreases s.len(),
{
    if s.len() > 0 {
        let before = with_label(s.drop_last(), name);
        lemma_with_label_members(s.drop_last(), name);
        assert forall|j: int| 0 <= j < with_label(s, name).len() implies (#[trigger] with_label(
            s,
            name,
        )[j]).label.name == name by {
            if j < before.len() {
                assert(with_label(s, name)[j] == before[j]);
            }
        }
    }
}

/// A name that was seen among the labels of `s` has a flow in `s`.
pub proof fn lemma_seen_label(s: Seq<NetFlowView>, name: Seq<char>)
    requires
        labels_seen(s).contains(name),
    ensures
        with_label(s, name).len() > 0,
    decreases s.len(),
{
    if s.len() > 0 && s.last().label.name != name {
        let before = labels_seen(s.drop_last());
        let k = choose|k: int| 0 <= k < labels_seen(s).len() && labels_seen(s)[k] == name;
        if !before.contains(s.last().label.name) {
            assert(labels_seen(s) == before.push(s.last().label.name));
            assert(k < before.len());
            assert(before[k] == name);
        }
        lemma_seen_label(s.drop_last(), name);
    }
}

/// One more flow in one of the groups is one more flow in their union.
pub proof fn lemma_group_union_grows(groups: Seq<Seq<NetFlowView>>, k: int, x: NetFlowView)
    requires
        0 <= k < groups.len(),
    ensures
        group_union(groups.update(k, groups[k].push(x))) == group_union(groups).insert(x),
    decreases groups.len(),
{
    let grown = groups.update(k, groups[k].push(x));
    if k == groups.len() - 1 {
        assert(grown.drop_last() == groups.drop_last());
        to_multiset_build(groups[k], x);
        assert(group_union(grown) =~= group_union(groups).insert(x));
    } else {
        assert(grown.drop_last() == groups.drop_last().update(
            k,
            groups.drop_last()[k].push(x),
        ));
        lemma_group_union_grows(groups.drop_last(), k, x);
        assert(grown.last() == groups.last());
        assert(group_union(grown) =~= group_union(groups).insert(x));
    }
}

/// Sorting by label is a partition: the groups together hold exactly the
/// flows of the batch, each as often as the batch holds it; no group is
/// empty; every flow of a group has the name of that group; no two groups
/// have the same name; and the name of every flow of the batch is the name of
/// a group.
pub proof fn lemma_categorized_is_partition(s: Seq<NetFlowView>)
    ensures
        group_union(categorized(s)) == s.to_multiset(),
        categorized(s).len() == labels_seen(s).len(),
        forall|k: int| 0 <= k < categorized(s).len() ==> (#[trigger] categorized(s)[k]).len() > 0,
        forall|k: int, j: int|
            0 <= k < categorized(s).len() && 0 <= j < categorized(s)[k].len()
                ==> (#[trigger] categorized(s)[k][j]).label.name == labels_seen(s)[k],
        forall|a: int, b: int|
            0 <= a < b < labels_seen(s).len() ==> labels_seen(s)[a] != labels_seen(s)[b],
        forall|i: int| 0 <= i < s.len() ==> labels_seen(s).contains(#[trigger] s[i].label.name),
    decreases s.len(),
{
    lemma_labels_seen_once(s);
    assert forall|k: int| 0 <= k < categorized(s).len() implies (#[trigger] categorized(s)[k]).len()
        > 0 by {
        assert(labels_seen(s).contains(labels_seen(s)[k]));
        lemma_seen_label(s, labels_seen(s)[k]);
    }
    assert forall|k: int, j: int|
        0 <= k < categorized(s).len() && 0 <= j < categorized(s)[k].len() implies (
    #[trigger] categorized(s)[k][j]).label.name == labels_seen(s)[k] by {
        lemma_with_label_members(s, labels_seen(s)[k]);
    }
    if s.len() == 0 {
        assert(s.to_multiset() =~= Multiset::<NetFlowView>::empty()) by {
            s.to_multiset_ensures();
            assert(s.to_multiset().len() == 0);
        }
    } else {
        let t = s.drop_last();
        let x = s.last();
        let name = x.label.name;
        let before = labels_seen(t);
        lemma_categorized_is_partition(t);
        assert(s == t.push(x));
        to_multiset_build(t, x);
        if before.contains(name) {
            let k = choose|k: int| 0 <= k < before.len() && before[k] == name;
            assert(categorized(s) =~= categorized(t).update(k, categorized(t)[k].push(x)));
            lemma_group_union_grows(categorized(t), k, x);
        } else {
            lemma_unseen_label(t, name);
            assert(with_label(s, name) =~= seq![x]);
            assert(categorized(s) =~= categorized(t).push(seq![x]));
            assert(categorized(s).drop_last() == categorized(t));
            assert(seq![x] =~= Seq::<NetFlowView>::empty().push(x));
            to_multiset_build(Seq::<NetFlowView>::empty(), x);
            assert(Seq::<NetFlowView>::empty().to_multiset() =~= Multiset::<NetFlowView>::empty()) by {
                Seq::<NetFlowView>::empty().to_multiset_ensures();
                assert(Seq::<NetFlowView>::empty().to_multiset().len() == 0);
            }
            assert(group_union(categorized(s)) =~= group_union(categorized(t)).insert(x));
        }
    }
}

/// Whether no flow of `s` comes before a flow that stands before it.
pub open spec fn is_ordered(s: Seq<NetFlowView>) -> bool {
    forall|i: int, j: int|
        0 <= i < j < s.len() ==> !(#[trigger] s[j]).timestamp.spec_precedes(
            (#[trigger] s[i]).timestamp,
        )
}

/// The flows of `s` that have the timestamp `t`, in their order.
pub open spec fn at_time(s: Seq<NetFlowView>, t: FlowTimeStamp) -> Seq<NetFlowView>
    decreases s.len(),
{
    if s.len() == 0 {
        s
    } else if s.last().timestamp == t {
        at_time(s.drop_last(), t).push(s.last())
    } else {
        at_time(s.drop_last(), t)
    }
}

/// What `late_count` counts: the flows that it counts come after `t`, and
/// the flow before them does not.
pub proof fn lemma_late_count(s: Seq<NetFlowView>, t: FlowTimeStamp)
    ensures
        late_count(s, t) <= s.len(),
        forall|j: int|
            s.len() - late_count(s, t) <= j < s.len() ==> t.spec_precedes(
                (#[trigger] s[j]).timestamp,
            ),
        late_count(s, t) < s.len() ==> !t.spec_precedes(
            s[s.len() - late_count(s, t) - 1].timestamp,
        ),
    decreases s.len(),
{
    if s.len() > 0 && t.spec_precedes(s.last().timestamp) {
        let front = s.drop_last();
        lemma_late_count(front, t);
        assert forall|j: int| s.len() - late_count(s, t) <= j < s.len() implies t.spec_precedes(
            (#[trigger] s[j]).timestamp,
        ) by {
            if j < front.len() {
                assert(s[j] == front[j]);
            }
        }
        if late_count(s, t) < s.len() {
            assert(s[s.len() - late_count(s, t) - 1] == front[front.len() - late_count(front, t)
                - 1]);
        }
    }
}

/// The flows of a batch that was put in order stand by ascending timestamp.
pub proof fn lemma_ordered_is_sorted(s: Seq<NetFlowView>)
    ensures
        is_ordered(ordered(s)),
    decreases s.len(),
{
    if s.len() > 0 {
        let r = ordered(s.drop_last());
        let x = s.last();
        let p = r.len() - late_count(r, x.timestamp);
        let q = ordered(s);
        lemma_ordered_is_sorted(s.drop_last());
        lemma_late_count(r, x.timestamp);
        assert(q == r.insert(p, x));
        assert forall|i: int, j: int| 0 <= i < j < q.len() implies !(#[trigger] q[j]).timestamp.spec_precedes(
            (#[trigger] q[i]).timestamp,
        ) by {
            if j < p {
                assert(q[i] == r[i] && q[j] == r[j]);
            } else if j == p {
                assert(q[i] == r[i]);
                assert(q[j] == x);
                if i < p - 1 {
                    assert(!r[p - 1].timestamp.spec_precedes(r[i].timestamp));
                }
            } else if i < p {
                assert(q[i] == r[i] && q[j] == r[j - 1]);
            } else if i == p {
                assert(q[i] == x);
                assert(q[j] == r[j - 1]);
            } else {
                assert(q[i] == r[i - 1] && q[j] == r[j - 1]);
            }
        }
    }
}

/// Putting a batch in order neither adds a flow nor loses one.
pub proof fn lemma_ordered_is_permutation(s: Seq<NetFlowView>)
    ensures
        ordered(s).to_multiset() == s.to_multiset(),
        ordered(s).len() == s.len(),
    decreases s.len(),
{
    lemma_ordered_len(s);
    if s.len() > 0 {
        let r = ordered(s.drop_last());
        let x = s.last();
        lemma_ordered_is_permutation(s.drop_last());
        lemma_late_count(r, x.timestamp);
        to_multiset_insert(r, r.len() - late_count(r, x.timestamp), x);
        assert(s == s.drop_last().push(x));
        to_multiset_build(s.drop_last(), x);
    }
}

/// The flows at one time of two batches, one behind the other.
pub proof fn lemma_at_time_concat(a: Seq<NetFlowView>, b: Seq<NetFlowView>, t: FlowTimeStamp)
    ensures
        at_time(a + b, t) == at_time(a, t) + at_time(b, t),
    decreases b.len(),
{
    if b.len() == 0 {
        assert(a + b == a);
        assert(at_time(a, t) + at_time(b, t) == at_time(a, t));
    } else {
        assert((a + b).drop_last() == a + b.drop_last());
        assert((a + b).last() == b.last());
        lemma_at_time_concat(a, b.drop_last(), t);
        if b.last().timestamp == t {
            assert((at_time(a, t) + at_time(b.drop_last(), t)).push(b.last()) == at_time(a, t)
                + at_time(b.drop_last(), t).push(b.last()));
        }
    }
}

/// A batch in which no flow has the timestamp `t` has no flows at `t`.
pub proof fn lemma_at_time_none(s: Seq<NetFlowView>, t: FlowTimeStamp)
    requires
        forall|j: int| 0 <= j < s.len() ==> (#[trigger] s[j]).timestamp != t,
    ensures
        at_time(s, t).len() == 0,
    decreases s.len(),
{
    if s.len() > 0 {
        assert(s.last() == s[s.len() - 1]);
        assert forall|j: int| 0 <= j < s.drop_last().len() implies (#[trigger] s.drop_last()[j]).timestamp
            != t by {
            assert(s.drop_last()[j] == s[j]);
        }
        lemma_at_time_none(s.drop_last(), t);
    }
}

/// Putting a batch in order leaves the flows of each timestamp in the order
/// in which they stood.
pub proof fn lemma_ordered_is_stable(s: Seq<NetFlowView>, t: FlowTimeStamp)
    ensures
        at_time(ordered(s), t) == at_time(s, t),
    decreases s.len(),
{
    if s.len() > 0 {
        let r = ordered(s.drop_last());
        let x = s.last();
        let p = r.len() - late_count(r, x.timestamp);
        lemma_ordered_is_stable(s.drop_last(), t);
        lemma_late_count(r, x.timestamp);
        let front = r.take(p);
        let back = r.skip(p);
        assert(r == front + back);
        assert(ordered(s) == front + seq![x] + back);
        lemma_at_time_concat(front, back, t);
        lemma_at_time_concat(front + seq![x], back, t);
        lemma_at_time_concat(front, seq![x], t);
        assert(seq![x].drop_last() == Seq::<NetFlowView>::empty());
        assert(seq![x].last() == x);
        assert(at_time(Seq::<NetFlowView>::empty(), t) == Seq::<NetFlowView>::empty());
        if x.timestamp == t {
            assert forall|j: int| 0 <= j < back.len() implies (#[trigger] back[j]).timestamp
                != t by {
                assert(back[j] == r[p + j]);
            }
            lemma_at_time_none(back, t);
            assert(at_time(seq![x], t) == seq![x]);
            assert(at_time(back, t) == Seq::<NetFlowView>::empty());
            assert(at_time(front, t) + seq![x] + Seq::<NetFlowView>::empty() == at_time(front, t).push(
                x,
            ));
            assert(at_time(front, t) + Seq::<NetFlowView>::empty() == at_time(front, t));
        } else {
            assert(at_time(seq![x], t) == Seq::<NetFlowView>::empty());
            assert(at_time(front, t) + Seq::<NetFlowView>::empty() == at_time(front, t));
        }
    }
}

} // verus!
