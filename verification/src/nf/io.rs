//! Flows as lines of text: how a flow is written, and how a line is read
//! back.

use vstd::prelude::*;
use crate::cic::label::{Label, LabelView};
use crate::cic::time::{
    datetime_read,
    datetime_text,
    line_pattern,
    read_datetime,
    stamp_of,
    FlowTimeStamp,
};
use crate::decimal::{
    decimal_chars,
    decimal_text,
    digit_count,
    lemma_decimal_text,
    lemma_digit_count_bound,
    lemma_digit_count_grows,
    lemma_digit_count_u64,
    parse_i64,
    parse_u32,
    parse_u8,
    parse_usize,
    pow10,
    push_decimal,
    signed_value,
    unsigned_value,
};
use crate::nf::flags::Flags;
use crate::nf::flow::{
    bytes_width,
    duration_width,
    flow_views,
    laid_out,
    lemma_flow_views_push,
    max_bytes,
    max_duration_ms,
    set_nf_format,
    NetFlow,
    NetFlowView,
};
use crate::text::{
    chars_of,
    find_char,
    first_index,
    left_aligned,
    prefix,
    push_all,
    push_left_aligned,
    push_right_aligned,
    push_zero_filled,
    right_aligned,
    split_words,
    string_of,
    suffix,
    word_texts,
    words,
    zero_filled,
};

verus! {

/// A duration as it is written: the seconds, a decimal point, and the
/// milliseconds in three digits. What is less than a millisecond is dropped.
pub open spec fn seconds_text(micros: u64) -> Seq<char> {
    decimal_text((micros / 1000 / 1000) as nat) + seq!['.'] + zero_filled(
        decimal_text((micros / 1000 % 1000) as nat),
        3,
    )
}

/// An endpoint as one word: the address, a colon and the port.
pub open spec fn endpoint_word(ip: Seq<char>, port: u32) -> Seq<char> {
    ip + seq![':'] + decimal_text(port as nat)
}

/// An endpoint as it is written: the address at the right end of a column
/// of 15, a colon, and the port at the left end of a column of 5.
pub open spec fn endpoint_cell(ip: Seq<char>, port: u32) -> Seq<char> {
    right_aligned(ip, 15) + seq![':'] + left_aligned(decimal_text(port as nat), 5)
}

/// The arrow that stands between the two endpoints.
pub open spec fn arrow() -> Seq<char> {
    seq!['-', '>']
}

/// What stands on the line of a flow behind its timestamp, each field
/// separated from the next by one space: the duration at the right end of
/// its column, the protocol in a column of 3, the source, the arrow, the
/// destination, the eight flags, the quality-of-service byte and the packet
/// count in columns of 3, the byte total at the right end of its column, and
/// the number of flows in a column of 5.
pub open spec fn fields_text(nf: NetFlowView) -> Seq<char> {
    right_aligned(seconds_text(nf.duration), nf.width_duration_str as nat) + seq![' ']
        + right_aligned(decimal_text(nf.protocol as nat), 3) + seq![' '] + endpoint_cell(
        nf.src_ip,
        nf.src_port,
    ) + seq![' '] + arrow() + seq![' '] + endpoint_cell(nf.dst_ip, nf.dst_port) + seq![' ']
        + nf.flags.text() + seq![' '] + right_aligned(decimal_text(nf.qos as nat), 3) + seq![' ']
        + right_aligned(decimal_text(nf.n_packet as nat), 3) + seq![' '] + right_aligned(
        decimal_text(nf.n_bytes_packet as nat),
        nf.width_n_bytes_packet as nat,
    ) + seq![' '] + right_aligned(decimal_text(nf.n_flow as nat), 5)
}

/// The line of a flow whose timestamp is written as `stamp`.
pub open spec fn line_text(stamp: Seq<char>, nf: NetFlowView) -> Seq<char> {
    stamp + seq![' '] + fields_text(nf)
}

/// The lines of a batch, or `None` where a timestamp cannot be written.
pub open spec fn lines_of(s: Seq<NetFlowView>) -> Option<Seq<Seq<char>>>
    decreases s.len(),
{
    if s.len() == 0 {
        Some(Seq::empty())
    } else {
        match (
            lines_of(s.drop_last()),
            datetime_text(
                s.last().timestamp.secs as int,
                s.last().timestamp.nanos as int,
                line_pattern(),
            ),
        ) {
            (Some(before), Some(stamp)) => Some(before.push(line_text(stamp, s.last()))),
            _ => None,
        }
    }
}

/// Appends an endpoint to `out`.
fn push_endpoint(out: &mut Vec<char>, ip: &String, port: u32)
    ensures
        final(out)@ == old(out)@ + endpoint_cell(ip@, port),
{
    let ip_chars = chars_of(ip.as_str());
    push_right_aligned(out, &ip_chars, 15);
    out.push(':');
    let port_chars = decimal_chars(port as u64);
    push_left_aligned(out, &port_chars, 5);
    assert(final(out)@ =~= old(out)@ + endpoint_cell(ip@, port));
}

/// Appends a duration to `out`.
fn push_seconds(out: &mut Vec<char>, micros: u64)
    ensures
        final(out)@ == old(out)@ + seconds_text(micros),
{
    let ms: u64 = micros / 1000;
    push_decimal(out, ms / 1000);
    out.push('.');
    let fraction = decimal_chars(ms % 1000);
    push_zero_filled(out, &fraction, 3);
    assert(final(out)@ =~= old(out)@ + seconds_text(micros));
}

impl NetFlow {
    /// The duration as it is written, at the right end of its column.
    pub fn format_duration(&self) -> (out: String)
        ensures
            out@ == right_aligned(seconds_text(self.duration), self.width_duration_str as nat),
    {
        let mut text: Vec<char> = Vec::new();
        push_seconds(&mut text, self.duration);
        let mut out: Vec<char> = Vec::new();
        push_right_aligned(&mut out, &text, self.width_duration_str as usize);
        string_of(&out)
    }

    /// The byte total as it is written, at the right end of its column.
    pub fn format_n_bytes_packet(&self) -> (out: String)
        ensures
            out@ == right_aligned(
                decimal_text(self.n_bytes_packet as nat),
                self.width_n_bytes_packet as nat,
            ),
    {
        let text = decimal_chars(self.n_bytes_packet as u64);
        let mut out: Vec<char> = Vec::new();
        push_right_aligned(&mut out, &text, self.width_n_bytes_packet as usize);
        string_of(&out)
    }

    /// What stands on the line of the flow behind its timestamp.
    pub fn format_fields(&self) -> (out: Vec<char>)
        ensures
            out@ == fields_text(self@),
    {
        let mut out: Vec<char> = Vec::new();
        let mut duration: Vec<char> = Vec::new();
        push_seconds(&mut duration, self.duration);
        push_right_aligned(&mut out, &duration, self.width_duration_str as usize);
        out.push(' ');
        push_right_aligned(&mut out, &decimal_chars(self.protocol as u64), 3);
        out.push(' ');
        push_endpoint(&mut out, &self.src_ip, self.src_port);
        out.push(' ');
        out.push('-');
        out.push('>');
        out.push(' ');
        push_endpoint(&mut out, &self.dst_ip, self.dst_port);
        out.push(' ');
        self.flags.push_text(&mut out);
        out.push(' ');
        push_right_aligned(&mut out, &decimal_chars(self.qos as u64), 3);
        out.push(' ');
        push_right_aligned(&mut out, &decimal_chars(self.n_packet as u64), 3);
        out.push(' ');
        push_right_aligned(
            &mut out,
            &decimal_chars(self.n_bytes_packet as u64),
            self.width_n_bytes_packet as usize,
        );
        out.push(' ');
        push_right_aligned(&mut out, &decimal_chars(self.n_flow as u64), 5);
        assert(out@ =~= fields_text(self@));
        out
    }

    /// The line of the flow, or `None` where its timestamp cannot be
    /// written.
    pub fn to_line(&self) -> (out: Option<String>)
        ensures
            match datetime_text(
                self.timestamp.secs as int,
                self.timestamp.nanos as int,
                line_pattern(),
            ) {
                Some(stamp) => out matches Some(line) && line@ == line_text(stamp, self@),
                None => out is None,
            },
    {
        let stamp = match self.timestamp.to_text() {
            Some(s) => s,
            None => {
                return None;
            },
        };
        let mut line = chars_of(stamp.as_str());
        line.push(' ');
        let fields = self.format_fields();
        push_all(&mut line, &fields);
        assert(line@ =~= line_text(stamp@, self@));
        Some(string_of(&line))
    }
}

/// The texts of a list of lines.
pub open spec fn line_texts(lines: Seq<String>) -> Seq<Seq<char>> {
    lines.map_values(|l: String| l@)
}

/// The lines of a batch, one for each flow and in the order of the flows, or
/// `None` where the timestamp of a flow cannot be written.
pub fn format_lines(nf_records: &Vec<NetFlow>) -> (out: Option<Vec<String>>)
    ensures
        match lines_of(flow_views(nf_records@)) {
            Some(lines) => out matches Some(v) && line_texts(v@) == lines,
            None => out is None,
        },
{
    let ghost views = flow_views(nf_records@);
    let mut lines: Vec<String> = Vec::new();
    let mut i: usize = 0;
    assert(views.take(0) == Seq::<NetFlowView>::empty());
    assert(line_texts(lines@) =~= Seq::<Seq<char>>::empty());
    while i < nf_records.len()
        invariant
            i <= nf_records.len(),
            views == flow_views(nf_records@),
            lines_of(views.take(i as int)) == Some(line_texts(lines@)),
        decreases nf_records.len() - i,
    {
        assert(views.take(i + 1).drop_last() == views.take(i as int));
        assert(views.take(i + 1).last() == nf_records[i as int]@);
        let ghost before = line_texts(lines@);
        match nf_records[i].to_line() {
            Some(line) => {
                let ghost text = line@;
                lines.push(line);
                assert(line_texts(lines@) =~= before.push(text));
            },
            None => {
                proof {
                    lemma_lines_of_prefix(views, i + 1);
                }
                return None;
            },
        }
        i += 1;
    }
    assert(views.take(nf_records.len() as int) == views);
    Some(lines)
}

/// Where the first flows of a batch cannot all be written, the batch cannot.
pub proof fn lemma_lines_of_prefix(s: Seq<NetFlowView>, k: int)
    requires
        0 <= k <= s.len(),
        lines_of(s.take(k)) is None,
    ensures
        lines_of(s) is None,
    decreases s.len() - k,
{
    if k == s.len() {
        assert(s.take(k) == s);
    } else {
        assert(s.drop_last().take(k) == s.take(k));
        lemma_lines_of_prefix(s.drop_last(), k);
    }
}

/// Why a line gives no flow.
#[derive(Clone, Copy, Debug, PartialEq, Eq, Structural)]
pub enum LineError {
    /// The line has fewer than twelve words.
    TooShort,
    /// The first two words are no timestamp.
    BadTimestamp,
    /// The duration is no number of seconds, or is negative or too long.
    BadDuration,
    /// The protocol is no number up to 255.
    BadProtocol,
    /// The source is no address with a port behind a colon.
    BadSource,
    /// The destination is no address with a port behind a colon.
    BadDestination,
    /// The flags are more than eight characters.
    BadFlags,
    /// The quality-of-service byte is no number up to 255.
    BadQos,
    /// The packet count is no number.
    BadPacketCount,
    /// The byte total is no number.
    BadByteTotal,
    /// The number of flows is no number.
    BadFlowCount,
}

/// `s` without its decimal points.
pub open spec fn without_dots(s: Seq<char>) -> Seq<char>
    decreases s.len(),
{
    if s.len() == 0 {
        s
    } else if s.last() == '.' {
        without_dots(s.drop_last())
    } else {
        without_dots(s.drop_last()).push(s.last())
    }
}

/// The duration that a word stands for, in microseconds: the word without
/// its decimal points is a number of milliseconds, read as `str::parse`
/// reads an `i64`. A negative number, or one whose microseconds do not fit
/// in 64 bits, is no duration.
pub open spec fn duration_of(word: Seq<char>) -> Option<u64> {
    match signed_value(without_dots(word), i64::MIN as int, i64::MAX as int) {
        Some(ms) => if 0 <= ms && ms * 1000 <= u64::MAX {
            Some((ms * 1000) as u64)
        } else {
            None
        },
        None => None,
    }
}

/// What stands in `word` between its first colon and its second, or its end
/// where it has one colon only.
pub open spec fn port_text(word: Seq<char>) -> Seq<char> {
    let rest = word.skip(first_index(word, ':') as int + 1);
    rest.take(first_index(rest, ':') as int)
}

/// The endpoint that a word stands for: the address is what comes before the
/// first colon, the port what follows it, read as `str::parse` reads a
/// `u32`. A word without a colon is no endpoint.
pub open spec fn endpoint_of(word: Seq<char>) -> Option<(Seq<char>, u32)> {
    if first_index(word, ':') >= word.len() {
        None
    } else {
        match unsigned_value(port_text(word), u32::MAX as nat) {
            Some(port) => Some((word.take(first_index(word, ':') as int), port as u32)),
            None => None,
        }
    }
}

/// The flow that the words of a line give, from the third word on, with the
/// given timestamp and label: duration, protocol, source, a word that is
/// passed over, destination, flags, quality-of-service byte, packet count,
/// byte total and number of flows. The column widths are not set. The first
/// word that cannot be read is the error.
pub open spec fn fields_read(w: Seq<Seq<char>>, timestamp: FlowTimeStamp, label: LabelView) -> Result<
    NetFlowView,
    LineError,
> {
    if duration_of(w[2]) is None {
        Err(LineError::BadDuration)
    } else if unsigned_value(w[3], u8::MAX as nat) is None {
        Err(LineError::BadProtocol)
    } else if endpoint_of(w[4]) is None {
        Err(LineError::BadSource)
    } else if endpoint_of(w[6]) is None {
        Err(LineError::BadDestination)
    } else if w[7].len() > 8 {
        Err(LineError::BadFlags)
    } else if unsigned_value(w[8], u8::MAX as nat) is None {
        Err(LineError::BadQos)
    } else if unsigned_value(w[9], u32::MAX as nat) is None {
        Err(LineError::BadPacketCount)
    } else if unsigned_value(w[10], usize::MAX as nat) is None {
        Err(LineError::BadByteTotal)
    } else if unsigned_value(w[11], u32::MAX as nat) is None {
        Err(LineError::BadFlowCount)
    } else {
        Ok(
            NetFlowView {
                timestamp,
                duration: duration_of(w[2])->0,
                width_duration_str: 0,
                protocol: unsigned_value(w[3], u8::MAX as nat)->0 as u8,
                src_ip: endpoint_of(w[4]).unwrap().0,
                src_port: endpoint_of(w[4]).unwrap().1,
                dst_ip: endpoint_of(w[6]).unwrap().0,
                dst_port: endpoint_of(w[6]).unwrap().1,
                flags: Flags::of_bits(Flags::bits_of_text(w[7])),
                qos: unsigned_value(w[8], u8::MAX as nat)->0 as u8,
                n_packet: unsigned_value(w[9], u32::MAX as nat)->0 as u32,
                n_bytes_packet: unsigned_value(w[10], usize::MAX as nat)->0 as usize,
                width_n_bytes_packet: 0,
                n_flow: unsigned_value(w[11], u32::MAX as nat)->0 as u32,
                label,
            },
        )
    }
}

/// The text of the timestamp of a line: its first two words with a space
/// between them.
pub open spec fn stamp_text(w: Seq<Seq<char>>) -> Seq<char> {
    w[0] + seq![' '] + w[1]
}

/// The flow that a line gives: the line is split at white space, the first
/// two words are read as the timestamp, and the rest as `fields_read` says.
pub open spec fn line_read(line: Seq<char>, label: LabelView) -> Result<NetFlowView, LineError> {
    let w = words(line);
    if w.len() < 12 {
        Err(LineError::TooShort)
    } else {
        match datetime_read(stamp_text(w), line_pattern()) {
            None => Err(LineError::BadTimestamp),
            Some(v) => fields_read(w, stamp_of(v), label),
        }
    }
}

/// The flows that the lines of a file give, each with the given label, or
/// the index of the first line that gives none and the reason.
pub open spec fn lines_read(lines: Seq<Seq<char>>, label: LabelView) -> Result<
    Seq<NetFlowView>,
    (int, LineError),
>
    decreases lines.len(),
{
    if lines.len() == 0 {
        Ok(Seq::empty())
    } else {
        match lines_read(lines.drop_last(), label) {
            Err(e) => Err(e),
            Ok(before) => match line_read(lines.last(), label) {
                Err(e) => Err((lines.len() - 1, e)),
                Ok(nf) => Ok(before.push(nf)),
            },
        }
    }
}

/// Takes the decimal points out of `s`.
pub fn remove_dots(s: &Vec<char>) -> (out: Vec<char>)
    ensures
        out@ == without_dots(s@),
{
    let mut out: Vec<char> = Vec::new();
    let mut i: usize = 0;
    assert(s@.take(0) == Seq::<char>::empty());
    while i < s.len()
        invariant
            i <= s.len(),
            out@ == without_dots(s@.take(i as int)),
        decreases s.len() - i,
    {
        assert(s@.take(i + 1).drop_last() == s@.take(i as int));
        if s[i] != '.' {
            out.push(s[i]);
        }
        i += 1;
    }
    assert(s@.take(s.len() as int) == s@);
    out
}

/// Reads the duration of a line.
pub fn read_duration(word: &Vec<char>) -> (out: Option<u64>)
    ensures
        out == duration_of(word@),
{
    let digits = remove_dots(word);
    match parse_i64(&digits) {
        Some(ms) => {
            if ms < 0 || ms as u64 > u64::MAX / 1000 {
                None
            } else {
                Some(ms as u64 * 1000)
            }
        },
        None => None,
    }
}

/// Reads an endpoint of a line.
pub fn read_endpoint(word: &Vec<char>) -> (out: Option<(Vec<char>, u32)>)
    ensures
        match out {
            Some((ip, port)) => endpoint_of(word@) == Some((ip@, port)),
            None => endpoint_of(word@) is None,
        },
{
    let colon = find_char(word, ':');
    if colon >= word.len() {
        return None;
    }
    let rest = suffix(word, colon + 1);
    let end = find_char(&rest, ':');
    let port_chars = prefix(&rest, end);
    match parse_u32(&port_chars) {
        Some(port) => Some((prefix(word, colon), port)),
        None => None,
    }
}

/// Reads the lines of flows.
#[derive(Clone, Copy, Debug)]
pub struct NetFlowReader;

impl NetFlowReader {
    /// A reader.
    pub fn new() -> (out: Self) {
        NetFlowReader
    }

    /// The text of the error for a word that is no number.
    pub fn unable_to_parse_str(s: &str) -> (out: String)
        ensures
            out@ == "Unable to parse the string \""@ + s@ + "\" as a number."@,
    {
        let out = "Unable to parse the string \"".to_owned();
        let out = out.concat(s);
        out.concat("\" as a number.")
    }

    /// An address and a port from a word that holds them with a colon
    /// between.
    pub fn extract_ip_port(ip_port_pair: &str) -> (out: Option<(String, u32)>)
        ensures
            match out {
                Some((ip, port)) => endpoint_of(ip_port_pair@) == Some((ip@, port)),
                None => endpoint_of(ip_port_pair@) is None,
            },
    {
        let word = chars_of(ip_port_pair);
        match read_endpoint(&word) {
            Some((ip, port)) => Some((string_of(&ip), port)),
            None => None,
        }
    }

    /// The flow that the words of a line give from the third word on, with
    /// the given timestamp and label.
    pub fn read_words(w: &Vec<Vec<char>>, timestamp: FlowTimeStamp, label: &Label) -> (out: Result<
        NetFlow,
        LineError,
    >)
        requires
            w.len() >= 12,
        ensures
            match fields_read(word_texts(w@), timestamp, label@) {
                Ok(view) => out matches Ok(nf) && nf@ == view,
                Err(e) => out matches Err(x) && x == e,
            },
    {
        let ghost t = word_texts(w@);
        assert forall|i: int| 0 <= i < w.len() implies #[trigger] t[i] == w[i]@ by {}
        let duration = match read_duration(&w[2]) {
            Some(d) => d,
            None => {
                return Err(LineError::BadDuration);
            },
        };
        let protocol = match parse_u8(&w[3]) {
            Some(p) => p,
            None => {
                return Err(LineError::BadProtocol);
            },
        };
        let (src_ip, src_port) = match read_endpoint(&w[4]) {
            Some(e) => e,
            None => {
                return Err(LineError::BadSource);
            },
        };
        let (dst_ip, dst_port) = match read_endpoint(&w[6]) {
            Some(e) => e,
            None => {
                return Err(LineError::BadDestination);
            },
        };
        let flags = match Flags::from_chars(&w[7]) {
            Some(f) => f,
            None => {
                return Err(LineError::BadFlags);
            },
        };
        let qos = match parse_u8(&w[8]) {
            Some(q) => q,
            None => {
                return Err(LineError::BadQos);
            },
        };
        let n_packet = match parse_u32(&w[9]) {
            Some(n) => n,
            None => {
                return Err(LineError::BadPacketCount);
            },
        };
        let n_bytes_packet = match parse_usize(&w[10]) {
            Some(n) => n,
            None => {
                return Err(LineError::BadByteTotal);
            },
        };
        let n_flow = match parse_u32(&w[11]) {
            Some(n) => n,
            None => {
                return Err(LineError::BadFlowCount);
            },
        };
        Ok(
            NetFlow {
                timestamp,
                duration,
                width_duration_str: 0,
                protocol,
                src_ip: string_of(&src_ip),
                src_port,
                dst_ip: string_of(&dst_ip),
                dst_port,
                flags,
                qos,
                n_packet,
                n_bytes_packet,
                width_n_bytes_packet: 0,
                n_flow,
                label: label.clone(),
            },
        )
    }

    /// The flow that a line gives, with the given label.
    pub fn read_line(&self, input_line: &String, label: &Label) -> (out: Result<NetFlow, LineError>)
        ensures
            match line_read(input_line@, label@) {
                Ok(view) => out matches Ok(nf) && nf@ == view,
                Err(e) => out matches Err(x) && x == e,
            },
    {
        let line = chars_of(input_line.as_str());
        let w = split_words(&line);
        if w.len() < 12 {
            return Err(LineError::TooShort);
        }
        let ghost t = word_texts(w@);
        assert(t[0] == w[0]@ && t[1] == w[1]@);
        let mut stamp: Vec<char> = Vec::new();
        push_all(&mut stamp, &w[0]);
        stamp.push(' ');
        push_all(&mut stamp, &w[1]);
        assert(stamp@ =~= stamp_text(t));
        let stamp_string = string_of(&stamp);
        let timestamp = match read_datetime(stamp_string.as_str(), "%Y-%m-%d %H:%M:%S%.3f") {
            Some(ts) => ts,
            None => {
                return Err(LineError::BadTimestamp);
            },
        };
        NetFlowReader::read_words(&w, timestamp, label)
    }
}

/// The label of a flow that was read from a file of flows: the name
/// `NoLabel` and the number 0.
pub open spec fn no_label() -> LabelView {
    LabelView { index: 0, name: "NoLabel"@ }
}

/// The flows that the lines of a file give, laid out as a batch: every flow
/// has the label `NoLabel` with the number 0, the column widths fit the
/// batch, and the flows are ordered by timestamp. The error names the first
/// line, counted from 0, that gives no flow.
pub fn read_nf_lines(lines: &Vec<String>) -> (out: Result<Vec<NetFlow>, (usize, LineError)>)
    ensures
        match lines_read(line_texts(lines@), no_label()) {
            Ok(read) => out matches Ok(flows) && flow_views(flows@) == laid_out(
                read,
                max_duration_ms(read),
                max_bytes(read),
            ),
            Err((i, e)) => out matches Err((j, x)) && j == i && x == e,
        },
{
    let label = Label::new(0, "NoLabel".to_owned());
    let mut flow_storage: Vec<NetFlow> = Vec::new();
    let nf_reader = NetFlowReader::new();
    let ghost texts = line_texts(lines@);
    let mut i: usize = 0;
    assert(texts.take(0) == Seq::<Seq<char>>::empty());
    assert(flow_views(flow_storage@) =~= Seq::<NetFlowView>::empty());
    while i < lines.len()
        invariant
            i <= lines.len(),
            texts == line_texts(lines@),
            label@ == no_label(),
            lines_read(texts.take(i as int), no_label()) == Ok::<
                Seq<NetFlowView>,
                (int, LineError),
            >(flow_views(flow_storage@)),
        decreases lines.len() - i,
    {
        assert(texts.take(i + 1).drop_last() == texts.take(i as int));
        assert(texts.take(i + 1).last() == lines[i as int]@);
        match nf_reader.read_line(&lines[i], &label) {
            Ok(flow) => {
                proof {
                    lemma_flow_views_push(flow_storage@, flow);
                }
                flow_storage.push(flow);
            },
            Err(e) => {
                proof {
                    lemma_lines_read_prefix(texts, no_label(), i + 1);
                }
                return Err((i, e));
            },
        }
        i += 1;
    }
    assert(texts.take(lines.len() as int) == texts);
    set_nf_format(&mut flow_storage, None, None);
    Ok(flow_storage)
}

/// Where the first lines of a file give an error, the file gives that
/// error.
pub proof fn lemma_lines_read_prefix(lines: Seq<Seq<char>>, label: LabelView, k: int)
    requires
        0 <= k <= lines.len(),
        lines_read(lines.take(k), label) is Err,
    ensures
        lines_read(lines, label) == lines_read(lines.take(k), label),
    decreases lines.len() - k,
{
    if k == lines.len() {
        assert(lines.take(k) == lines);
    } else {
        assert(lines.drop_last().take(k) == lines.take(k));
        lemma_lines_read_prefix(lines.drop_last(), label, k);
    }
}

/// No flow of a batch lasts longer than the longest, nor has a larger byte
/// total than the largest.
pub proof fn lemma_maxima(s: Seq<NetFlowView>, k: int)
    requires
        0 <= k < s.len(),
    ensures
        s[k].duration / 1000 <= max_duration_ms(s),
        s[k].n_bytes_packet <= max_bytes(s),
    decreases s.len(),
{
    if k < s.len() - 1 {
        lemma_maxima(s.drop_last(), k);
    }
}

/// The byte-total column is wide enough for every flow of the batch that it
/// was laid out for.
pub proof fn lemma_byte_totals_fit(s: Seq<NetFlowView>, k: int)
    requires
        0 <= k < s.len(),
    ensures
        decimal_text(s[k].n_bytes_packet as nat).len() <= bytes_width(max_bytes(s)),
{
    lemma_maxima(s, k);
    lemma_digit_count_grows(s[k].n_bytes_packet as nat, max_bytes(s) as nat);
    lemma_digit_count_u64(max_bytes(s) as u64);
}

/// The duration column is wide enough for every flow of the batch that it
/// was laid out for, provided the longest flow lasts a tenth of a second or
/// more. Below that the column is narrower than a duration is written.
pub proof fn lemma_durations_fit(s: Seq<NetFlowView>, k: int)
    requires
        0 <= k < s.len(),
        max_duration_ms(s) >= 100,
    ensures
        seconds_text(s[k].duration).len() <= duration_width(max_duration_ms(s)),
{
    let ms = (s[k].duration / 1000) as nat;
    let max = max_duration_ms(s) as nat;
    lemma_maxima(s, k);
    lemma_digit_count_u64(max as u64);
    lemma_digit_count_grows(ms, max);
    lemma_decimal_text(ms / 1000);
    lemma_decimal_text(ms % 1000);
    assert(pow10(3) == 1000) by {
        reveal_with_fuel(pow10, 4);
    }
    lemma_digit_count_bound(ms % 1000, 3);
    lemma_digit_count_grows(100, max);
    assert(digit_count(100) == 3) by {
        reveal_with_fuel(decimal_text, 4);
    }
    assert(zero_filled(decimal_text(ms % 1000), 3).len() == 3);
    if ms >= 1000 {
        lemma_digits_of_thousands(ms);
    } else {
        assert(digit_count(ms / 1000) == 1);
        if max >= 1000 {
            lemma_digit_count_grows(1000, max);
            assert(digit_count(1000) == 4) by {
                reveal_with_fuel(decimal_text, 5);
            }
        }
    }
}

/// A number of a thousand or more has three digits more than its thousands.
pub proof fn lemma_digits_of_thousands(n: nat)
    requires
        n >= 1000,
    ensures
        digit_count(n) == digit_count(n / 1000) + 3,
{
    assert(n / 10 / 10 / 10 == n / 1000);
    assert(n / 10 >= 100 && n / 10 / 10 >= 10);
    reveal_with_fuel(decimal_text, 4);
}

} // verus!
