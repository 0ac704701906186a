//! The record of one bidirectional flow, and how it is built from the fields
//! of a dataset row.

use vstd::prelude::*;
use crate::cic::dataset_name::{ColumnLayout, DatasetName};
use crate::cic::flag_count::CICFlagCount;
use crate::cic::label::{Label, LabelView};
use crate::cic::numeric::{
    pair_error,
    resolved_pair,
    resolved_signed_pair,
    signed_pair_error,
    CustomParseError,
    PacketPartParser,
};
use crate::cic::time::{
    datetime_read,
    hinted,
    matching_format,
    stamp_of,
    str_to_timestamp,
    time_format,
    FlowTimeStamp,
    TimestampError,
};
use crate::decimal::{
    decimal_text,
    parse_i64,
    parse_u8,
    push_decimal,
    signed_value,
    unsigned_value,
};
use crate::text::{chars_of, push_all, string_of};

verus! {

/// Why a row cannot be turned into a record.
#[derive(Clone, Copy, Debug, PartialEq, Eq, Structural)]
pub enum RecordError {
    /// The row has fewer columns than the layout asks for; `found` is how
    /// many it has.
    MissingColumn { found: usize },
    /// The field in this column is not the integer that it has to be.
    BadInteger { column: usize },
    /// The forward or the backward packet count is no number or is too large.
    BadPacketCount,
    /// One of the header and payload byte counts is no number or is too
    /// large.
    BadByteCount,
    /// The timestamp in this column matches no known pattern.
    BadTimestamp { column: usize },
    /// The timestamp in this column matches no known pattern, and the caller
    /// gave no hint on the half of the day that it lies in.
    MissingHint { column: usize },
    /// The timestamp in this column cannot be moved by twelve hours.
    TimeOutOfRange { column: usize },
}

/// The largest port number.
pub const MAX_PORT: u32 = 65_535;

/// The fields of a row as plain text.
pub open spec fn texts(row: Seq<String>) -> Seq<Seq<char>> {
    row.map_values(|s: String| s@)
}

/// `s` with every Unicode replacement character turned into a dash.
pub open spec fn dashed(s: Seq<char>) -> Seq<char> {
    s.map_values(|c: char| if c == '\u{FFFD}' { '-' } else { c })
}

/// Whether `a` comes before `b` in the order of a dictionary, or equals it.
pub open spec fn lex_le(a: Seq<char>, b: Seq<char>) -> bool
    decreases a.len(),
{
    if a.len() == 0 {
        true
    } else if b.len() == 0 {
        false
    } else if a[0] != b[0] {
        a[0] < b[0]
    } else {
        lex_le(a.skip(1), b.skip(1))
    }
}

/// A record as plain values.
pub struct CICRecordView {
    pub src_ip: Seq<char>,
    pub src_port: u32,
    pub dst_ip: Seq<char>,
    pub dst_port: u32,
    pub protocol: u8,
    pub timestamp: FlowTimeStamp,
    pub duration: u64,
    pub n_packet: (u32, u32),
    pub n_bytes_packet: (usize, usize),
    pub flag_count: CICFlagCount,
    pub label: LabelView,
}

/// One row of a dataset: a flow in both directions. Of each pair the first
/// entry belongs to the forward direction and the second to the backward one.
#[derive(Debug)]
pub struct CICRecord {
    pub src_ip: String,
    pub src_port: u32,
    pub dst_ip: String,
    pub dst_port: u32,
    pub protocol: u8,
    pub timestamp: FlowTimeStamp,
    /// How long the flow lasted, in microseconds.
    pub duration: u64,
    pub n_packet: [u32; 2],
    pub n_bytes_packet: [usize; 2],
    pub flag_count: CICFlagCount,
    pub label: Label,
}

impl View for CICRecord {
    type V = CICRecordView;

    open spec fn view(&self) -> CICRecordView {
        CICRecordView {
            src_ip: self.src_ip@,
            src_port: self.src_port,
            dst_ip: self.dst_ip@,
            dst_port: self.dst_port,
            protocol: self.protocol,
            timestamp: self.timestamp,
            duration: self.duration,
            n_packet: (self.n_packet[0], self.n_packet[1]),
            n_bytes_packet: (self.n_bytes_packet[0], self.n_bytes_packet[1]),
            flag_count: self.flag_count,
            label: self.label@,
        }
    }
}

impl Clone for CICRecord {
    fn clone(&self) -> (out: Self)
        ensures
            out@ == self@,
    {
        CICRecord {
            src_ip: self.src_ip.clone(),
            src_port: self.src_port,
            dst_ip: self.dst_ip.clone(),
            dst_port: self.dst_port,
            protocol: self.protocol,
            timestamp: self.timestamp,
            duration: self.duration,
            n_packet: [self.n_packet[0], self.n_packet[1]],
            n_bytes_packet: [self.n_bytes_packet[0], self.n_bytes_packet[1]],
            flag_count: self.flag_count,
            label: self.label.clone(),
        }
    }
}

/// A duration in microseconds as a row gives it, a negative one counting as
/// zero.
pub open spec fn clamped(micros: int) -> int {
    if micros < 0 {
        0
    } else {
        micros
    }
}

/// Tests whether a duration as a row gives it is negative, so that it counts
/// as zero.
pub fn is_negative_duration(text: &str) -> (out: bool)
    ensures
        out == (signed_value(text@, i64::MIN as int, i64::MAX as int) matches Some(micros)
            && micros < 0),
{
    match parse_i64(&chars_of(text)) {
        Some(micros) => micros < 0,
        None => false,
    }
}

/// The text that identifies a connection whichever way it was captured. The
/// two endpoints stand in a fixed order: with equal addresses the lower port
/// first, otherwise the address that comes first in the dictionary.
pub open spec fn connection_id(
    src_ip: Seq<char>,
    src_port: u32,
    dst_ip: Seq<char>,
    dst_port: u32,
    protocol: u8,
) -> Seq<char> {
    if src_ip == dst_ip && dst_port < src_port {
        joined(src_ip, dst_ip, dst_port, src_port, protocol)
    } else if lex_le(src_ip, dst_ip) {
        joined(src_ip, dst_ip, src_port, dst_port, protocol)
    } else {
        joined(dst_ip, src_ip, dst_port, src_port, protocol)
    }
}

/// Two addresses, two ports and the protocol, joined by dashes.
pub open spec fn joined(
    first_ip: Seq<char>,
    second_ip: Seq<char>,
    first_port: u32,
    second_port: u32,
    protocol: u8,
) -> Seq<char> {
    first_ip + seq!['-'] + second_ip + seq!['-'] + decimal_text(first_port as nat) + seq!['-']
        + decimal_text(second_port as nat) + seq!['-'] + decimal_text(protocol as nat)
}

/// Tests whether `a` comes before `b` in the order of a dictionary, or equals
/// it.
pub fn text_le(a: &Vec<char>, b: &Vec<char>) -> (r: bool)
    ensures
        r == lex_le(a@, b@),
{
    let mut i: usize = 0;
    assert(a@.skip(0) == a@ && b@.skip(0) == b@);
    loop
        invariant
            i <= a.len(),
            i <= b.len(),
            lex_le(a@, b@) == lex_le(a@.skip(i as int), b@.skip(i as int)),
        decreases a.len() - i,
    {
        if i == a.len() {
            return true;
        }
        if i == b.len() {
            return false;
        }
        if a[i] != b[i] {
            return a[i] < b[i];
        }
        assert(a@.skip(i as int).skip(1) == a@.skip(i + 1));
        assert(b@.skip(i as int).skip(1) == b@.skip(i + 1));
        i += 1;
    }
}

fn joined_chars(
    first_ip: &Vec<char>,
    second_ip: &Vec<char>,
    first_port: u32,
    second_port: u32,
    protocol: u8,
) -> (out: Vec<char>)
    ensures
        out@ == joined(first_ip@, second_ip@, first_port, second_port, protocol),
{
    let mut out: Vec<char> = Vec::new();
    push_all(&mut out, first_ip);
    out.push('-');
    push_all(&mut out, second_ip);
    out.push('-');
    push_decimal(&mut out, first_port as u64);
    out.push('-');
    push_decimal(&mut out, second_port as u64);
    out.push('-');
    push_decimal(&mut out, protocol as u64);
    assert(out@ =~= joined(first_ip@, second_ip@, first_port, second_port, protocol));
    out
}

impl CICRecord {
    /// The record with the given fields. A negative duration, in
    /// microseconds, counts as zero; the label has the given name and no
    /// number yet.
    pub fn new(
        src_ip: String,
        src_port: u32,
        dst_ip: String,
        dst_port: u32,
        protocol: u8,
        timestamp: FlowTimeStamp,
        duration: i64,
        n_packet: [u32; 2],
        n_bytes_packet: [usize; 2],
        flag_count: CICFlagCount,
        label: String,
    ) -> (out: CICRecord)
        ensures
            out@ == (CICRecordView {
                src_ip: src_ip@,
                src_port,
                dst_ip: dst_ip@,
                dst_port,
                protocol,
                timestamp,
                duration: clamped(duration as int) as u64,
                n_packet: (n_packet[0], n_packet[1]),
                n_bytes_packet: (n_bytes_packet[0], n_bytes_packet[1]),
                flag_count,
                label: LabelView { index: 0, name: label@ },
            }),
    {
        CICRecord {
            src_ip,
            src_port,
            dst_ip,
            dst_port,
            protocol,
            timestamp,
            duration: if duration < 0 {
                0
            } else {
                duration as u64
            },
            n_packet,
            n_bytes_packet,
            flag_count,
            label: Label::new_with_name(label),
        }
    }

    /// `input` with every Unicode replacement character turned into a dash.
    pub fn fix_invalid_utf8_str(input: &str) -> (out: String)
        ensures
            out@ == dashed(input@),
    {
        let chars = chars_of(input);
        let mut fixed: Vec<char> = Vec::new();
        let mut i: usize = 0;
        while i < chars.len()
            invariant
                i <= chars.len(),
                chars@ == input@,
                fixed@ == dashed(chars@.take(i as int)),
            decreases chars.len() - i,
        {
            let c = chars[i];
            fixed.push(if c == '\u{FFFD}' { '-' } else { c });
            assert(chars@.take(i + 1) == chars@.take(i as int).push(c));
            assert(fixed@ =~= dashed(chars@.take(i + 1)));
            i += 1;
        }
        assert(chars@.take(chars.len() as int) == chars@);
        string_of(&fixed)
    }

    /// The text that identifies the connection of this record, the same for
    /// both directions of capture.
    pub fn id(&self) -> (out: String)
        ensures
            out@ == connection_id(
                self@.src_ip,
                self@.src_port,
                self@.dst_ip,
                self@.dst_port,
                self@.protocol,
            ),
    {
        let src = chars_of(self.src_ip.as_str());
        let dst = chars_of(self.dst_ip.as_str());
        let same = crate::text::same_text(&src, &dst);
        let chars = if same && self.dst_port < self.src_port {
            joined_chars(&src, &dst, self.dst_port, self.src_port, self.protocol)
        } else if text_le(&src, &dst) {
            joined_chars(&src, &dst, self.src_port, self.dst_port, self.protocol)
        } else {
            joined_chars(&dst, &src, self.dst_port, self.src_port, self.protocol)
        };
        string_of(&chars)
    }

    /// The address of the source.
    pub fn src_ip(&self) -> (out: &String)
        ensures
            out@ == self@.src_ip,
    {
        &self.src_ip
    }

    /// The port of the source.
    pub fn src_port(&self) -> (out: u32)
        ensures
            out == self@.src_port,
    {
        self.src_port
    }

    /// The address of the destination.
    pub fn dst_ip(&self) -> (out: &String)
        ensures
            out@ == self@.dst_ip,
    {
        &self.dst_ip
    }

    /// The port of the destination.
    pub fn dst_port(&self) -> (out: u32)
        ensures
            out == self@.dst_port,
    {
        self.dst_port
    }

    /// The number of the protocol.
    pub fn protocol(&self) -> (out: u8)
        ensures
            out == self@.protocol,
    {
        self.protocol
    }

    /// When the flow began.
    pub fn timestamp(&self) -> (out: &FlowTimeStamp)
        ensures
            *out == self@.timestamp,
    {
        &self.timestamp
    }

    /// How long the flow lasted, in microseconds.
    pub fn duration(&self) -> (out: u64)
        ensures
            out == self@.duration,
    {
        self.duration
    }

    /// The packets that went forward and backward.
    pub fn n_packet(&self) -> (out: &[u32; 2])
        ensures
            (out[0], out[1]) == self@.n_packet,
    {
        &self.n_packet
    }

    /// The bytes that went forward and backward.
    pub fn n_bytes_packet(&self) -> (out: &[usize; 2])
        ensures
            (out[0], out[1]) == self@.n_bytes_packet,
    {
        &self.n_bytes_packet
    }

    /// The flag counters of the flow.
    pub fn flag_count(&self) -> (out: &CICFlagCount)
        ensures
            *out == self@.flag_count,
    {
        &self.flag_count
    }

    /// The label of the flow.
    pub fn label(&self) -> (out: &Label)
        ensures
            *out == self.label,
    {
        &self.label
    }

    /// The label of the flow, to be changed; nothing else changes with it.
    pub fn label_mut(&mut self) -> (out: &mut Label)
        ensures
            *out == old(self).label,
            final(self).label == *final(out),
            final(self).src_ip == old(self).src_ip,
            final(self).src_port == old(self).src_port,
            final(self).dst_ip == old(self).dst_ip,
            final(self).dst_port == old(self).dst_port,
            final(self).protocol == old(self).protocol,
            final(self).timestamp == old(self).timestamp,
            final(self).duration == old(self).duration,
            final(self).n_packet == old(self).n_packet,
            final(self).n_bytes_packet == old(self).n_bytes_packet,
            final(self).flag_count == old(self).flag_count,
    {
        &mut self.label
    }
}

/// The forward and the backward packet count of a row and the state that
/// reading them leaves behind. Counts above `u32::MAX` have no value.
pub open spec fn counts_of(fwd: Seq<char>, bwd: Seq<char>, expect_float: bool) -> Option<
    (u32, u32, bool),
> {
    match resolved_pair(fwd, bwd, expect_float) {
        Some((a, b, f)) => if a <= u32::MAX && b <= u32::MAX {
            Some((a as u32, b as u32, f))
        } else {
            None
        },
        None => None,
    }
}

/// The error for packet counts that have no value: that of the pair, or,
/// where a count is too large, that of a text that is no integer.
pub open spec fn counts_error(fwd: Seq<char>, bwd: Seq<char>, expect_float: bool) -> CustomParseError {
    if resolved_pair(fwd, bwd, expect_float) is None {
        pair_error(fwd, bwd, expect_float)
    } else {
        CustomParseError { was_parsing_float: false }
    }
}

/// The bytes of one direction: header bytes and payload bytes together, a
/// negative sum counting as zero.
pub open spec fn byte_total(header: int, payload: int) -> int {
    if header + payload < 0 {
        0
    } else {
        header + payload
    }
}

/// The forward and the backward byte total of a row and the state that
/// reading them leaves behind. The two header fields are read first, then the
/// two payload fields.
pub open spec fn bytes_of(
    fwd_header: Seq<char>,
    bwd_header: Seq<char>,
    fwd_payload: Seq<char>,
    bwd_payload: Seq<char>,
    expect_float: bool,
) -> Option<(usize, usize, bool)> {
    match resolved_signed_pair(fwd_header, bwd_header, expect_float) {
        Some((hf, hb, f1)) => match resolved_signed_pair(fwd_payload, bwd_payload, f1) {
            Some((pf, pb, f2)) => Some(
                (byte_total(hf, pf) as usize, byte_total(hb, pb) as usize, f2),
            ),
            None => None,
        },
        None => None,
    }
}

/// The error for byte totals that have no value: that of the header pair
/// where it has none, otherwise that of the payload pair.
pub open spec fn bytes_error(
    fwd_header: Seq<char>,
    bwd_header: Seq<char>,
    fwd_payload: Seq<char>,
    bwd_payload: Seq<char>,
    expect_float: bool,
) -> CustomParseError {
    match resolved_signed_pair(fwd_header, bwd_header, expect_float) {
        Some((_, _, state)) => signed_pair_error(fwd_payload, bwd_payload, state),
        None => signed_pair_error(fwd_header, bwd_header, expect_float),
    }
}

/// The state that reading the counts of a file carries from row to row: one
/// parser for the packet counts and one for the byte counts.
#[derive(Clone, Copy, Debug, PartialEq, Eq, Structural)]
pub struct CICParserConfig {
    pub packet_count: PacketPartParser,
    pub packet_bytes: PacketPartParser,
}

impl Default for CICParserConfig {
    fn default() -> (out: Self)
        ensures
            !out.packet_count.is_last_float,
            !out.packet_bytes.is_last_float,
    {
        CICParserConfig {
            packet_count: PacketPartParser { is_last_float: false },
            packet_bytes: PacketPartParser { is_last_float: false },
        }
    }
}

impl CICParserConfig {
    /// Reads the forward and the backward packet count. Where one of them is
    /// no number, or does not fit, the state stays as it was.
    pub fn get_counts(&mut self, fwd: &str, bwd: &str) -> (out: Result<
        [u32; 2],
        CustomParseError,
    >)
        ensures
            final(self).packet_bytes == old(self).packet_bytes,
            match out {
                Ok(v) => counts_of(fwd@, bwd@, old(self).packet_count.is_last_float) == Some(
                    (v[0], v[1], final(self).packet_count.is_last_float),
                ),
                Err(e) => {
                    &&& counts_of(fwd@, bwd@, old(self).packet_count.is_last_float) is None
                    &&& e == counts_error(fwd@, bwd@, old(self).packet_count.is_last_float)
                    &&& *final(self) == *old(self)
                },
            },
    {
        let before = self.packet_count;
        let output = match self.packet_count.parse_usize(fwd, bwd) {
            Ok(v) => v,
            Err(e) => {
                return Err(e);
            },
        };
        if output[0] > u32::MAX as usize || output[1] > u32::MAX as usize {
            self.packet_count = before;
            return Err(CustomParseError { was_parsing_float: false });
        }
        Ok([output[0] as u32, output[1] as u32])
    }

    /// Reads the header and payload byte counts of both directions and adds
    /// them up per direction. Where one of them is no number, or does not
    /// fit, the state stays as it was.
    pub fn get_bytes(
        &mut self,
        fwd_header: &str,
        bwd_header: &str,
        fwd_payload: &str,
        bwd_payload: &str,
    ) -> (out: Result<[usize; 2], CustomParseError>)
        ensures
            final(self).packet_count == old(self).packet_count,
            match out {
                Ok(v) => bytes_of(
                    fwd_header@,
                    bwd_header@,
                    fwd_payload@,
                    bwd_payload@,
                    old(self).packet_bytes.is_last_float,
                ) == Some((v[0], v[1], final(self).packet_bytes.is_last_float)),
                Err(e) => {
                    &&& bytes_of(
                        fwd_header@,
                        bwd_header@,
                        fwd_payload@,
                        bwd_payload@,
                        old(self).packet_bytes.is_last_float,
                    ) is None
                    &&& e == bytes_error(
                        fwd_header@,
                        bwd_header@,
                        fwd_payload@,
                        bwd_payload@,
                        old(self).packet_bytes.is_last_float,
                    )
                    &&& *final(self) == *old(self)
                },
            },
    {
        let before = self.packet_bytes;
        let header = match self.packet_bytes.parse_isize(fwd_header, bwd_header) {
            Ok(v) => v,
            Err(e) => {
                return Err(e);
            },
        };
        let payload = match self.packet_bytes.parse_isize(fwd_payload, bwd_payload) {
            Ok(v) => v,
            Err(e) => {
                self.packet_bytes = before;
                return Err(e);
            },
        };
        let fwd: i128 = header[0] as i128 + payload[0] as i128;
        let bwd: i128 = header[1] as i128 + payload[1] as i128;
        let fwd_out: usize = if fwd < 0 {
            0
        } else {
            fwd as usize
        };
        let bwd_out: usize = if bwd < 0 {
            0
        } else {
            bwd as usize
        };
        Ok([fwd_out, bwd_out])
    }
}

/// The numbers of a row that are spelled as plain integers.
pub struct RowNumbers {
    pub src_port: u32,
    pub dst_port: u32,
    pub protocol: u8,
    /// The duration in microseconds, a negative one counted as zero.
    pub duration: u64,
    pub flag_count: CICFlagCount,
}

/// The text of the flag counter at `position` among the twelve of a row.
pub open spec fn flag_text(row: Seq<Seq<char>>, layout: ColumnLayout, position: int) -> Seq<char> {
    row[layout.flag_column(position)]
}

/// The position of the first flag counter from `from` on that is no number,
/// or 12 where all are numbers.
pub open spec fn first_bad_flag(row: Seq<Seq<char>>, layout: ColumnLayout, from: int) -> int
    decreases 12 - from,
{
    if from >= 12 {
        12
    } else if unsigned_value(flag_text(row, layout, from), u32::MAX as nat) is None {
        from
    } else {
        first_bad_flag(row, layout, from + 1)
    }
}

/// The value of the flag counter at `position`.
pub open spec fn flag_number(row: Seq<Seq<char>>, layout: ColumnLayout, position: int) -> u32 {
    unsigned_value(flag_text(row, layout, position), u32::MAX as nat)->0 as u32
}

/// The twelve flag counters of a row.
pub open spec fn flag_counts(row: Seq<Seq<char>>, layout: ColumnLayout) -> CICFlagCount {
    CICFlagCount {
        fwd_psh: flag_number(row, layout, 0),
        bwd_psh: flag_number(row, layout, 1),
        fwd_urg: flag_number(row, layout, 2),
        bwd_urg: flag_number(row, layout, 3),
        fin: flag_number(row, layout, 4),
        syn: flag_number(row, layout, 5),
        rst: flag_number(row, layout, 6),
        psh: flag_number(row, layout, 7),
        ack: flag_number(row, layout, 8),
        urg: flag_number(row, layout, 9),
        cwr: flag_number(row, layout, 10),
        ece: flag_number(row, layout, 11),
    }
}

/// The plain integers of a row, or the first of them that fails: too few
/// columns, then the source port, the destination port, the protocol, the
/// duration and the twelve flag counters in their order. A port is an
/// integer up to 65535, the protocol one up to 255, the duration an `i64` in
/// microseconds.
pub open spec fn row_numbers(row: Seq<Seq<char>>, layout: ColumnLayout) -> Result<
    RowNumbers,
    RecordError,
> {
    if row.len() < layout.width {
        Err(RecordError::MissingColumn { found: row.len() as usize })
    } else if unsigned_value(row[layout.src_port as int], MAX_PORT as nat) is None {
        Err(RecordError::BadInteger { column: layout.src_port })
    } else if unsigned_value(row[layout.dst_port as int], MAX_PORT as nat) is None {
        Err(RecordError::BadInteger { column: layout.dst_port })
    } else if unsigned_value(row[layout.protocol as int], u8::MAX as nat) is None {
        Err(RecordError::BadInteger { column: layout.protocol })
    } else if signed_value(row[layout.duration as int], i64::MIN as int, i64::MAX as int) is None {
        Err(RecordError::BadInteger { column: layout.duration })
    } else if first_bad_flag(row, layout, 0) < 12 {
        Err(
            RecordError::BadInteger {
                column: layout.flag_column(first_bad_flag(row, layout, 0)) as usize,
            },
        )
    } else {
        Ok(
            RowNumbers {
                src_port: unsigned_value(row[layout.src_port as int], MAX_PORT as nat)->0 as u32,
                dst_port: unsigned_value(row[layout.dst_port as int], MAX_PORT as nat)->0 as u32,
                protocol: unsigned_value(row[layout.protocol as int], u8::MAX as nat)->0 as u8,
                duration: clamped(
                    signed_value(
                        row[layout.duration as int],
                        i64::MIN as int,
                        i64::MAX as int,
                    )->0,
                ) as u64,
                flag_count: flag_counts(row, layout),
            },
        )
    }
}

/// What `first_bad_flag` finds, given the position of the first counter that
/// fails.
pub proof fn lemma_first_bad_flag(row: Seq<Seq<char>>, layout: ColumnLayout, from: int, bad: int)
    requires
        0 <= from <= bad <= 12,
        forall|i: int|
            from <= i < bad ==> unsigned_value(
                #[trigger] flag_text(row, layout, i),
                u32::MAX as nat,
            ) is Some,
        bad < 12 ==> unsigned_value(flag_text(row, layout, bad), u32::MAX as nat) is None,
    ensures
        first_bad_flag(row, layout, from) == bad,
    decreases bad - from,
{
    if from < bad {
        assert(unsigned_value(flag_text(row, layout, from), u32::MAX as nat) is Some);
        lemma_first_bad_flag(row, layout, from + 1, bad);
    }
}

/// Reads the plain integers of a row.
pub fn read_numbers(row: &Vec<String>, layout: &ColumnLayout) -> (out: Result<
    RowNumbers,
    RecordError,
>)
    requires
        layout.wf(),
    ensures
        out == row_numbers(texts(row@), *layout),
{
    let ghost t = texts(row@);
    if row.len() < layout.width {
        return Err(RecordError::MissingColumn { found: row.len() });
    }
    assert forall|i: int| 0 <= i < row.len() implies #[trigger] t[i] == row[i]@ by {}
    let src_port_text = chars_of(row[layout.src_port].as_str());
    let src_port = match crate::decimal::parse_unsigned(&src_port_text, MAX_PORT as u64) {
        Some(v) => v as u32,
        None => {
            return Err(RecordError::BadInteger { column: layout.src_port });
        },
    };
    let dst_port_text = chars_of(row[layout.dst_port].as_str());
    let dst_port = match crate::decimal::parse_unsigned(&dst_port_text, MAX_PORT as u64) {
        Some(v) => v as u32,
        None => {
            return Err(RecordError::BadInteger { column: layout.dst_port });
        },
    };
    let protocol_text = chars_of(row[layout.protocol].as_str());
    let protocol = match parse_u8(&protocol_text) {
        Some(v) => v,
        None => {
            return Err(RecordError::BadInteger { column: layout.protocol });
        },
    };
    let duration_text = chars_of(row[layout.duration].as_str());
    let duration: u64 = match parse_i64(&duration_text) {
        Some(v) => if v < 0 {
            0
        } else {
            v as u64
        },
        None => {
            return Err(RecordError::BadInteger { column: layout.duration });
        },
    };
    let d = layout.direction_flags;
    let f = layout.flow_flags;
    let flag_texts: [&str; 12] = [
        row[d].as_str(),
        row[d + 1].as_str(),
        row[d + 2].as_str(),
        row[d + 3].as_str(),
        row[f].as_str(),
        row[f + 1].as_str(),
        row[f + 2].as_str(),
        row[f + 3].as_str(),
        row[f + 4].as_str(),
        row[f + 5].as_str(),
        row[f + 6].as_str(),
        row[f + 7].as_str(),
    ];
    assert forall|i: int| 0 <= i < 12 implies #[trigger] flag_texts[i]@ == flag_text(
        t,
        *layout,
        i,
    ) by {}
    match CICFlagCount::new(flag_texts) {
        Ok(flag_count) => {
            proof {
                assert forall|i: int| 0 <= i < 12 implies unsigned_value(
                    #[trigger] flag_text(t, *layout, i),
                    u32::MAX as nat,
                ) == Some(flag_count.counts()[i] as nat) by {
                    assert(flag_texts[i]@ == flag_text(t, *layout, i));
                }
                lemma_first_bad_flag(t, *layout, 0, 12);
                assert(flag_count.counts()[0] == flag_number(t, *layout, 0));
                assert(flag_count.counts()[1] == flag_number(t, *layout, 1));
                assert(flag_count.counts()[2] == flag_number(t, *layout, 2));
                assert(flag_count.counts()[3] == flag_number(t, *layout, 3));
                assert(flag_count.counts()[4] == flag_number(t, *layout, 4));
                assert(flag_count.counts()[5] == flag_number(t, *layout, 5));
                assert(flag_count.counts()[6] == flag_number(t, *layout, 6));
                assert(flag_count.counts()[7] == flag_number(t, *layout, 7));
                assert(flag_count.counts()[8] == flag_number(t, *layout, 8));
                assert(flag_count.counts()[9] == flag_number(t, *layout, 9));
                assert(flag_count.counts()[10] == flag_number(t, *layout, 10));
                assert(flag_count.counts()[11] == flag_number(t, *layout, 11));
            }
            Ok(RowNumbers { src_port, dst_port, protocol, duration, flag_count })
        },
        Err(e) => {
            proof {
                assert forall|i: int| 0 <= i < e.position implies unsigned_value(
                    #[trigger] flag_text(t, *layout, i),
                    u32::MAX as nat,
                ) is Some by {
                    assert(flag_texts[i]@ == flag_text(t, *layout, i));
                }
                assert(flag_texts[e.position as int]@ == flag_text(t, *layout, e.position as int));
                lemma_first_bad_flag(t, *layout, 0, e.position as int);
            }
            let column = if e.position < 4 {
                d + e.position
            } else {
                f + (e.position - 4)
            };
            Err(RecordError::BadInteger { column })
        },
    }
}

/// The record that the fields of a row give once its plain integers, its
/// timestamp, its packet counts and its byte totals are known. In the label
/// each Unicode replacement character becomes a dash.
pub open spec fn assembled(
    row: Seq<Seq<char>>,
    layout: ColumnLayout,
    numbers: RowNumbers,
    timestamp: FlowTimeStamp,
    n_packet: (u32, u32),
    n_bytes_packet: (usize, usize),
) -> CICRecordView {
    CICRecordView {
        src_ip: row[layout.src_ip as int],
        src_port: numbers.src_port,
        dst_ip: row[layout.dst_ip as int],
        dst_port: numbers.dst_port,
        protocol: numbers.protocol,
        timestamp,
        duration: numbers.duration,
        n_packet,
        n_bytes_packet,
        flag_count: numbers.flag_count,
        label: LabelView { index: 0, name: dashed(row[layout.label as int]) },
    }
}

/// What a row gives where its timestamp says on which half of the day it
/// lies: the record, the index of the pattern that the timestamp matched, and
/// the state of the count parsers after the row. The plain integers are read
/// first, then the timestamp with the caller's hint, then the packet counts,
/// then the byte totals; the first that fails is the error.
pub open spec fn explicit_record(
    row: Seq<Seq<char>>,
    layout: ColumnLayout,
    is_am: Option<bool>,
    guess: int,
    config: CICParserConfig,
) -> Result<(CICRecordView, int, CICParserConfig), RecordError> {
    match row_numbers(row, layout) {
        Err(e) => Err(e),
        Ok(numbers) => {
            let stamp = hinted(row[layout.timestamp as int], is_am);
            match matching_format(stamp, guess) {
                None => Err(
                    if is_am is None {
                        RecordError::MissingHint { column: layout.timestamp }
                    } else {
                        RecordError::BadTimestamp { column: layout.timestamp }
                    },
                ),
                Some(i) => match counts_of(
                    row[layout.fwd_packets as int],
                    row[layout.bwd_packets as int],
                    config.packet_count.is_last_float,
                ) {
                    None => Err(RecordError::BadPacketCount),
                    Some((cf, cb, count_state)) => match bytes_of(
                        row[layout.fwd_header as int],
                        row[layout.bwd_header as int],
                        row[layout.fwd_payload as int],
                        row[layout.bwd_payload as int],
                        config.packet_bytes.is_last_float,
                    ) {
                        None => Err(RecordError::BadByteCount),
                        Some((bf, bb, byte_state)) => Ok(
                            (
                                assembled(
                                    row,
                                    layout,
                                    numbers,
                                    stamp_of(datetime_read(stamp, time_format(i))->0),
                                    (cf, cb),
                                    (bf, bb),
                                ),
                                i,
                                CICParserConfig {
                                    packet_count: PacketPartParser { is_last_float: count_state },
                                    packet_bytes: PacketPartParser { is_last_float: byte_state },
                                },
                            ),
                        ),
                    },
                },
            }
        },
    }
}

impl CICRecord {
    /// Builds the record of a row whose columns stand as `layout` says and
    /// whose timestamp says on which half of the day it lies, or counts its
    /// hours up to 24. The index that comes back with the record is the
    /// guess to hand in with the next row. On an error the count parsers
    /// stay as they were.
    pub fn from_csv(
        record: &Vec<String>,
        layout: &ColumnLayout,
        is_am: &Option<bool>,
        guessed_time_format_index: usize,
        packet_parser_config: &mut CICParserConfig,
    ) -> (out: Result<(CICRecord, usize), RecordError>)
        requires
            layout.wf(),
        ensures
            match explicit_record(
                texts(record@),
                *layout,
                *is_am,
                guessed_time_format_index as int,
                *old(packet_parser_config),
            ) {
                Ok((view, index, config)) => {
                    &&& out matches Ok((r, i))
                    &&& r@ == view
                    &&& i == index
                    &&& *final(packet_parser_config) == config
                },
                Err(e) => {
                    &&& out matches Err(x)
                    &&& x == e
                    &&& *final(packet_parser_config) == *old(packet_parser_config)
                },
            },
    {
        let ghost t = texts(record@);
        let numbers = match read_numbers(record, layout) {
            Ok(n) => n,
            Err(e) => {
                return Err(e);
            },
        };
        assert forall|i: int| 0 <= i < record.len() implies #[trigger] t[i] == record[i]@ by {}
        let (timestamp, index) = match str_to_timestamp(
            record[layout.timestamp].as_str(),
            is_am,
            guessed_time_format_index,
        ) {
            Ok(p) => p,
            Err(TimestampError::MissingHint) => {
                return Err(RecordError::MissingHint { column: layout.timestamp });
            },
            Err(_) => {
                return Err(RecordError::BadTimestamp { column: layout.timestamp });
            },
        };
        let before = *packet_parser_config;
        let n_packet = match packet_parser_config.get_counts(
            record[layout.fwd_packets].as_str(),
            record[layout.bwd_packets].as_str(),
        ) {
            Ok(v) => v,
            Err(_) => {
                return Err(RecordError::BadPacketCount);
            },
        };
        let n_bytes_packet = match packet_parser_config.get_bytes(
            record[layout.fwd_header].as_str(),
            record[layout.bwd_header].as_str(),
            record[layout.fwd_payload].as_str(),
            record[layout.bwd_payload].as_str(),
        ) {
            Ok(v) => v,
            Err(_) => {
                *packet_parser_config = before;
                return Err(RecordError::BadByteCount);
            },
        };
        let cic_record = CICRecord {
            src_ip: record[layout.src_ip].clone(),
            src_port: numbers.src_port,
            dst_ip: record[layout.dst_ip].clone(),
            dst_port: numbers.dst_port,
            protocol: numbers.protocol,
            timestamp,
            duration: numbers.duration,
            n_packet,
            n_bytes_packet,
            flag_count: numbers.flag_count,
            label: Label::new_with_name(
                CICRecord::fix_invalid_utf8_str(record[layout.label].as_str()),
            ),
        };
        Ok((cic_record, index))
    }

    /// Builds the record of a row of the dataset CIC-IDS-2017 by `from_csv`.
    pub fn from_ids_csv(
        record: &Vec<String>,
        is_am: &Option<bool>,
        guessed_time_format_index: usize,
        packet_parser_config: &mut CICParserConfig,
    ) -> (out: Result<(CICRecord, usize), RecordError>)
        ensures
            match explicit_record(
                texts(record@),
                DatasetName::IDS2017.spec_layout(),
                *is_am,
                guessed_time_format_index as int,
                *old(packet_parser_config),
            ) {
                Ok((view, index, config)) => {
                    &&& out matches Ok((r, i))
                    &&& r@ == view
                    &&& i == index
                    &&& *final(packet_parser_config) == config
                },
                Err(e) => {
                    &&& out matches Err(x)
                    &&& x == e
                    &&& *final(packet_parser_config) == *old(packet_parser_config)
                },
            },
    {
        let layout = DatasetName::IDS2017.layout();
        CICRecord::from_csv(
            record,
            &layout,
            is_am,
            guessed_time_format_index,
            packet_parser_config,
        )
    }

    /// Builds the record of a row of the dataset CIC-DDoS-2019 by `from_csv`.
    pub fn from_ddos_csv(
        record: &Vec<String>,
        is_am: &Option<bool>,
        guessed_time_format_index: usize,
        packet_parser_config: &mut CICParserConfig,
    ) -> (out: Result<(CICRecord, usize), RecordError>)
        ensures
            match explicit_record(
                texts(record@),
                DatasetName::DDoS2019.spec_layout(),
                *is_am,
                guessed_time_format_index as int,
                *old(packet_parser_config),
            ) {
                Ok((view, index, config)) => {
                    &&& out matches Ok((r, i))
                    &&& r@ == view
                    &&& i == index
                    &&& *final(packet_parser_config) == config
                },
                Err(e) => {
                    &&& out matches Err(x)
                    &&& x == e
                    &&& *final(packet_parser_config) == *old(packet_parser_config)
                },
            },
    {
        let layout = DatasetName::DDoS2019.layout();
        CICRecord::from_csv(
            record,
            &layout,
            is_am,
            guessed_time_format_index,
            packet_parser_config,
        )
    }
}

/// Of two texts one comes before the other in the dictionary or equals it.
pub proof fn lemma_lex_le_total(a: Seq<char>, b: Seq<char>)
    ensures
        lex_le(a, b) || lex_le(b, a),
    decreases a.len(),
{
    if a.len() > 0 && b.len() > 0 && a[0] == b[0] {
        lemma_lex_le_total(a.skip(1), b.skip(1));
    }
}

/// Two texts each of which comes before the other or equals it are equal.
pub proof fn lemma_lex_le_antisymmetric(a: Seq<char>, b: Seq<char>)
    requires
        lex_le(a, b),
        lex_le(b, a),
    ensures
        a == b,
    decreases a.len(),
{
    if a.len() == 0 {
        assert(b.len() == 0);
        assert(a =~= b);
    } else {
        assert(b.len() > 0);
        assert(a[0] == b[0]);
        lemma_lex_le_antisymmetric(a.skip(1), b.skip(1));
        assert(a =~= seq![a[0]] + a.skip(1));
        assert(b =~= seq![b[0]] + b.skip(1));
    }
}

/// A connection has the same id whichever of its endpoints is the source.
pub proof fn lemma_connection_id_symmetric(
    first_ip: Seq<char>,
    first_port: u32,
    second_ip: Seq<char>,
    second_port: u32,
    protocol: u8,
)
    ensures
        connection_id(first_ip, first_port, second_ip, second_port, protocol) == connection_id(
            second_ip,
            second_port,
            first_ip,
            first_port,
            protocol,
        ),
{
    lemma_lex_le_total(first_ip, second_ip);
    if first_ip != second_ip {
        if lex_le(first_ip, second_ip) && lex_le(second_ip, first_ip) {
            lemma_lex_le_antisymmetric(first_ip, second_ip);
        }
    }
}

/// A row whose duration is negative gives a record of duration zero.
pub proof fn lemma_negative_duration_is_zero(
    row: Seq<Seq<char>>,
    layout: ColumnLayout,
    is_am: Option<bool>,
    guess: int,
    config: CICParserConfig,
)
    requires
        explicit_record(row, layout, is_am, guess, config) is Ok,
        signed_value(row[layout.duration as int], i64::MIN as int, i64::MAX as int)->0 < 0,
    ensures
        explicit_record(row, layout, is_am, guess, config) matches Ok((record, _, _))
            && record.duration == 0,
{
}

} // verus!
