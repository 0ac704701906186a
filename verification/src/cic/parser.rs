//! Parsers for the rows of each dataset: the repair of a raw row, and the
//! reading of timestamps that do not say on which half of the day they lie.

use vstd::prelude::*;
use crate::cic::dataset_name::{ColumnLayout, DatasetName};
use crate::cic::label::Label;
use crate::cic::numeric::{find_dot, integer_part};
use crate::cic::record::{
    assembled,
    byte_total,
    row_numbers,
    read_numbers,
    texts,
    CICRecord,
    CICRecordView,
    RecordError,
};
use crate::cic::time::{
    datetime_moved,
    datetime_read,
    read_datetime,
    stamp_of,
    FlowTimeStamp,
    TimestampError,
    NANOS_PER_SECOND,
    TWELVE_HOURS,
};
use crate::decimal::{parse_isize, parse_u32, signed_value, unsigned_value};
use crate::text::{chars_of, contains, has_infix, has_prefix, prefix, starts_with};

verus! {

/// The part of the day in which a twelve-hour clock without `am` or `pm` is
/// taken to be.
#[derive(Clone, Copy, Debug, PartialEq, Eq, Structural)]
pub enum FuzzyTimePeriod {
    /// The hours 01 to 11 before noon.
    Morning,
    /// The hours 11, 12 and 01 around noon.
    Noon,
    /// The hours 01 to 11 after noon.
    Afternoon,
    /// The hours 11, 12 and 01 around midnight.
    Midnight,
}

/// What is done to a time that was read as if its hours counted up to 24.
#[derive(Clone, Copy, Debug, PartialEq, Eq, Structural)]
pub enum Correction {
    /// The time stays as it was read.
    Keep,
    /// Twelve hours are added.
    Later,
    /// Twelve hours are taken off.
    Earlier,
}

/// The correction that the part of the day asks for, given the hour as read.
pub open spec fn correction_for(period: FuzzyTimePeriod, hour: int) -> Correction {
    match period {
        FuzzyTimePeriod::Morning => Correction::Keep,
        FuzzyTimePeriod::Noon => if hour < 11 {
            Correction::Later
        } else {
            Correction::Keep
        },
        FuzzyTimePeriod::Afternoon => if hour == 12 {
            Correction::Earlier
        } else {
            Correction::Later
        },
        FuzzyTimePeriod::Midnight => if hour == 11 {
            Correction::Later
        } else if hour == 12 {
            Correction::Earlier
        } else {
            Correction::Keep
        },
    }
}

/// The part of the day after a row, given the hour as read and the hour
/// after correction. Morning ends when the hour 12 is read, noon when the
/// corrected hour is 2, the afternoon when the hour 12 is read, and midnight
/// when the corrected hour is 2.
pub open spec fn period_after(
    period: FuzzyTimePeriod,
    read_hour: int,
    corrected_hour: int,
) -> FuzzyTimePeriod {
    match period {
        FuzzyTimePeriod::Morning => if read_hour == 12 {
            FuzzyTimePeriod::Noon
        } else {
            FuzzyTimePeriod::Morning
        },
        FuzzyTimePeriod::Noon => if corrected_hour == 2 {
            FuzzyTimePeriod::Afternoon
        } else {
            FuzzyTimePeriod::Noon
        },
        FuzzyTimePeriod::Afternoon => if read_hour == 12 {
            FuzzyTimePeriod::Midnight
        } else {
            FuzzyTimePeriod::Afternoon
        },
        FuzzyTimePeriod::Midnight => if corrected_hour == 2 {
            FuzzyTimePeriod::Morning
        } else {
            FuzzyTimePeriod::Midnight
        },
    }
}

/// By how many seconds a correction moves a time.
pub open spec fn shift_of(c: Correction) -> int {
    match c {
        Correction::Keep => 0,
        Correction::Later => TWELVE_HOURS as int,
        Correction::Earlier => -(TWELVE_HOURS as int),
    }
}

/// The time `t` after the correction `c`, or `None` where the corrected
/// time is out of range.
pub open spec fn corrected_by(t: FlowTimeStamp, c: Correction) -> Option<FlowTimeStamp> {
    match c {
        Correction::Keep => Some(t),
        Correction::Later => match datetime_moved(
            t.secs as int,
            t.nanos as int,
            TWELVE_HOURS as int,
        ) {
            Some(v) => Some(stamp_of(v)),
            None => None,
        },
        Correction::Earlier => match datetime_moved(
            t.secs as int,
            t.nanos as int,
            -(TWELVE_HOURS as int),
        ) {
            Some(v) => Some(stamp_of(v)),
            None => None,
        },
    }
}

/// What a time as read becomes, and the part of the day after it. A clock
/// that counts its hours up to 24 leaves both as they are.
pub open spec fn resolved(
    is_twelve_hour_clock: bool,
    period: FuzzyTimePeriod,
    read: FlowTimeStamp,
) -> Option<(FlowTimeStamp, FuzzyTimePeriod)> {
    if !is_twelve_hour_clock {
        Some((read, period))
    } else {
        match corrected_by(read, correction_for(period, read.spec_hour())) {
            Some(t) => Some((t, period_after(period, read.spec_hour(), t.spec_hour()))),
            None => None,
        }
    }
}

/// What a sequence of times as read becomes, one after the other, starting
/// in the given part of the day: the corrected times, `None` standing for
/// one that is out of range and leaves the part of the day as it is.
pub open spec fn resolved_all(
    is_twelve_hour_clock: bool,
    period: FuzzyTimePeriod,
    read: Seq<FlowTimeStamp>,
) -> (Seq<Option<FlowTimeStamp>>, FuzzyTimePeriod)
    decreases read.len(),
{
    if read.len() == 0 {
        (Seq::empty(), period)
    } else {
        let (before, p) = resolved_all(is_twelve_hour_clock, period, read.drop_last());
        match resolved(is_twelve_hour_clock, p, read.last()) {
            Some((t, q)) => (before.push(Some(t)), q),
            None => (before.push(None), p),
        }
    }
}

/// Chooses the correction for a time read in the given part of the day.
pub fn choose_correction(period: FuzzyTimePeriod, hour: u32) -> (out: Correction)
    ensures
        out == correction_for(period, hour as int),
{
    match period {
        FuzzyTimePeriod::Morning => Correction::Keep,
        FuzzyTimePeriod::Noon => if hour < 11 {
            Correction::Later
        } else {
            Correction::Keep
        },
        FuzzyTimePeriod::Afternoon => if hour == 12 {
            Correction::Earlier
        } else {
            Correction::Later
        },
        FuzzyTimePeriod::Midnight => if hour == 11 {
            Correction::Later
        } else if hour == 12 {
            Correction::Earlier
        } else {
            Correction::Keep
        },
    }
}

/// The part of the day after a row.
pub fn next_period(period: FuzzyTimePeriod, read_hour: u32, corrected_hour: u32) -> (out:
    FuzzyTimePeriod)
    ensures
        out == period_after(period, read_hour as int, corrected_hour as int),
{
    match period {
        FuzzyTimePeriod::Morning => if read_hour == 12 {
            FuzzyTimePeriod::Noon
        } else {
            FuzzyTimePeriod::Morning
        },
        FuzzyTimePeriod::Noon => if corrected_hour == 2 {
            FuzzyTimePeriod::Afternoon
        } else {
            FuzzyTimePeriod::Noon
        },
        FuzzyTimePeriod::Afternoon => if read_hour == 12 {
            FuzzyTimePeriod::Midnight
        } else {
            FuzzyTimePeriod::Afternoon
        },
        FuzzyTimePeriod::Midnight => if corrected_hour == 2 {
            FuzzyTimePeriod::Morning
        } else {
            FuzzyTimePeriod::Midnight
        },
    }
}

/// Reads the timestamps of one file. For a twelve-hour clock without `am` or
/// `pm` it keeps track, from row to row, of the part of the day.
#[derive(Debug)]
pub struct TimestampParser {
    pub is_twelve_hour_clock: bool,
    pub time_period: FuzzyTimePeriod,
    /// The strftime pattern of the timestamps.
    pub timestamp_pattern: String,
}

impl TimestampParser {
    /// Corrects a time that was read as if its hours counted up to 24, and
    /// moves on to the next part of the day where the row asks for it. Where
    /// the corrected time is out of range the parser stays as it was. A
    /// corrected time lies twelve hours after or before the time as read, or
    /// is that time, unless the time as read lies in a leap second.
    pub fn resolve(&mut self, read: FlowTimeStamp) -> (out: Option<FlowTimeStamp>)
        ensures
            final(self).is_twelve_hour_clock == old(self).is_twelve_hour_clock,
            final(self).timestamp_pattern == old(self).timestamp_pattern,
            match resolved(old(self).is_twelve_hour_clock, old(self).time_period, read) {
                Some((t, p)) => out == Some(t) && final(self).time_period == p,
                None => out is None && final(self).time_period == old(self).time_period,
            },
            out matches Some(t) ==> (old(self).is_twelve_hour_clock && read.nanos
                < NANOS_PER_SECOND ==> t.nanos == read.nanos && t.secs == read.secs + shift_of(
                correction_for(old(self).time_period, read.spec_hour()),
            )),
    {
        if !self.is_twelve_hour_clock {
            return Some(read);
        }
        let hour = read.hour();
        let corrected = match choose_correction(self.time_period, hour) {
            Correction::Keep => read,
            Correction::Later => match read.moved(TWELVE_HOURS) {
                Some(t) => t,
                None => {
                    return None;
                },
            },
            Correction::Earlier => match read.moved(-TWELVE_HOURS) {
                Some(t) => t,
                None => {
                    return None;
                },
            },
        };
        self.time_period = next_period(self.time_period, hour, corrected.hour());
        Some(corrected)
    }

    /// Corrects a sequence of times one after the other.
    pub fn resolve_all(&mut self, read: &Vec<FlowTimeStamp>) -> (out: Vec<Option<FlowTimeStamp>>)
        ensures
            final(self).is_twelve_hour_clock == old(self).is_twelve_hour_clock,
            final(self).timestamp_pattern == old(self).timestamp_pattern,
            (out@, final(self).time_period) == resolved_all(
                old(self).is_twelve_hour_clock,
                old(self).time_period,
                read@,
            ),
    {
        let mut out: Vec<Option<FlowTimeStamp>> = Vec::new();
        let mut i: usize = 0;
        assert(read@.take(0) == Seq::<FlowTimeStamp>::empty());
        while i < read.len()
            invariant
                i <= read.len(),
                self.is_twelve_hour_clock == old(self).is_twelve_hour_clock,
                self.timestamp_pattern == old(self).timestamp_pattern,
                (out@, self.time_period) == resolved_all(
                    old(self).is_twelve_hour_clock,
                    old(self).time_period,
                    read@.take(i as int),
                ),
            decreases read.len() - i,
        {
            assert(read@.take(i + 1).drop_last() == read@.take(i as int));
            assert(read@.take(i + 1).last() == read@[i as int]);
            let t = self.resolve(read[i]);
            out.push(t);
            i += 1;
        }
        assert(read@.take(read.len() as int) == read@);
        out
    }

    /// Reads a timestamp under the parser's pattern and corrects it.
    pub fn parse(&mut self, timestamp: &str) -> (out: Result<FlowTimeStamp, TimestampError>)
        ensures
            final(self).is_twelve_hour_clock == old(self).is_twelve_hour_clock,
            final(self).timestamp_pattern == old(self).timestamp_pattern,
            match datetime_read(timestamp@, old(self).timestamp_pattern@) {
                None => {
                    &&& out == Err::<FlowTimeStamp, TimestampError>(TimestampError::UnknownFormat)
                    &&& final(self).time_period == old(self).time_period
                },
                Some(v) => match resolved(
                    old(self).is_twelve_hour_clock,
                    old(self).time_period,
                    stamp_of(v),
                ) {
                    Some((t, p)) => {
                        &&& out == Ok::<FlowTimeStamp, TimestampError>(t)
                        &&& final(self).time_period == p
                    },
                    None => {
                        &&& out == Err::<FlowTimeStamp, TimestampError>(TimestampError::OutOfRange)
                        &&& final(self).time_period == old(self).time_period
                    },
                },
            },
    {
        let read = match read_datetime(timestamp, self.timestamp_pattern.as_str()) {
            Some(t) => t,
            None => {
                return Err(TimestampError::UnknownFormat);
            },
        };
        match self.resolve(read) {
            Some(t) => Ok(t),
            None => Err(TimestampError::OutOfRange),
        }
    }
}

/// The hour of a time that was moved by a correction, given the hour before.
pub open spec fn hour_after(c: Correction, hour: int) -> int {
    (hour + shift_of(c) / 3600) % 24
}

/// Where a correction moves by twelve hours exactly, noon does not end: the
/// hour after correction lies between 11 and 22 and is never 2. Midnight
/// ends when the hour 2 is read, and at no other hour.
pub proof fn lemma_periods_that_end(hour: int)
    requires
        0 <= hour < 24,
    ensures
        period_after(
            FuzzyTimePeriod::Noon,
            hour,
            hour_after(correction_for(FuzzyTimePeriod::Noon, hour), hour),
        ) == FuzzyTimePeriod::Noon,
        period_after(
            FuzzyTimePeriod::Midnight,
            hour,
            hour_after(correction_for(FuzzyTimePeriod::Midnight, hour), hour),
        ) == (if hour == 2 {
            FuzzyTimePeriod::Morning
        } else {
            FuzzyTimePeriod::Midnight
        }),
{
}

/// The hour of a time that lies a number of whole hours after another.
pub proof fn lemma_hour_of_moved(t: FlowTimeStamp, m: FlowTimeStamp, c: Correction)
    requires
        m.secs == t.secs + shift_of(c),
    ensures
        m.spec_hour() == hour_after(c, t.spec_hour()),
{
}

/// The same start and the same times as read give the same corrected times
/// and the same part of the day at the end.
pub proof fn lemma_resolver_is_a_function(
    is_twelve_hour_clock: bool,
    first_seed: FuzzyTimePeriod,
    second_seed: FuzzyTimePeriod,
    first_run: Seq<FlowTimeStamp>,
    second_run: Seq<FlowTimeStamp>,
)
    requires
        first_seed == second_seed,
        first_run == second_run,
    ensures
        resolved_all(is_twelve_hour_clock, first_seed, first_run) == resolved_all(
            is_twelve_hour_clock,
            second_seed,
            second_run,
        ),
{
}

/// The byte that stands for a dash in the Windows-1252 encoding.
pub const WINDOWS_1252_DASH: u8 = 0x96;

/// The ASCII dash.
pub const ASCII_DASH: u8 = 0x2d;

/// The fields of a raw row as plain bytes.
pub open spec fn cells(row: Seq<Vec<u8>>) -> Seq<Seq<u8>> {
    row.map_values(|f: Vec<u8>| f@)
}

/// Whether every field of the row is empty.
pub open spec fn all_empty(row: Seq<Seq<u8>>) -> bool {
    forall|i: int| 0 <= i < row.len() ==> (#[trigger] row[i]).len() == 0
}

/// `field` with every Windows-1252 dash turned into an ASCII dash.
pub open spec fn dash_fixed(field: Seq<u8>) -> Seq<u8> {
    field.map_values(|b: u8| if b == WINDOWS_1252_DASH { ASCII_DASH } else { b })
}

/// The row as it goes on to be decoded, or `None` where it is dropped: a row
/// that has not `width` fields is dropped, and so is one whose fields are
/// all empty. Where `fix_label` is set the dashes of the last field, the
/// label, are repaired; no other byte changes.
pub open spec fn repaired(row: Seq<Seq<u8>>, width: nat, fix_label: bool) -> Option<Seq<Seq<u8>>> {
    if row.len() != width || all_empty(row) {
        None
    } else if fix_label {
        Some(row.update(row.len() - 1, dash_fixed(row.last())))
    } else {
        Some(row)
    }
}

/// Tests whether every field of the row is empty.
pub fn is_blank_row(record: &Vec<Vec<u8>>) -> (r: bool)
    ensures
        r == all_empty(cells(record@)),
{
    let mut i: usize = 0;
    while i < record.len()
        invariant
            i <= record.len(),
            forall|j: int| 0 <= j < i ==> (#[trigger] cells(record@)[j]).len() == 0,
        decreases record.len() - i,
    {
        if record[i].len() != 0 {
            assert(cells(record@)[i as int].len() != 0);
            return false;
        }
        i += 1;
    }
    true
}

/// Turns every Windows-1252 dash of `field` into an ASCII dash.
pub fn fix_dashes(field: &Vec<u8>) -> (out: Vec<u8>)
    ensures
        out@ == dash_fixed(field@),
{
    let mut out: Vec<u8> = Vec::new();
    let mut i: usize = 0;
    while i < field.len()
        invariant
            i <= field.len(),
            out@ == dash_fixed(field@.take(i as int)),
        decreases field.len() - i,
    {
        let b = field[i];
        out.push(if b == WINDOWS_1252_DASH { ASCII_DASH } else { b });
        assert(field@.take(i + 1) == field@.take(i as int).push(b));
        assert(out@ =~= dash_fixed(field@.take(i + 1)));
        i += 1;
    }
    assert(field@.take(field.len() as int) == field@);
    out
}

/// Checks a raw row and repairs its label: see `repaired`.
pub fn repair_row(record: Vec<Vec<u8>>, width: usize, fix_label: bool) -> (out: Option<
    Vec<Vec<u8>>,
>)
    ensures
        match out {
            Some(row) => repaired(cells(record@), width as nat, fix_label) == Some(cells(row@)),
            None => repaired(cells(record@), width as nat, fix_label) is None,
        },
{
    if record.len() != width {
        return None;
    }
    if is_blank_row(&record) {
        return None;
    }
    if !fix_label {
        return Some(record);
    }
    let mut row = record;
    let ghost before = row@;
    assert(row.len() > 0) by {
        if row.len() == 0 {
            assert(all_empty(cells(row@)));
        }
    }
    let label = row.pop().unwrap();
    let fixed = fix_dashes(&label);
    row.push(fixed);
    assert(cells(row@) =~= cells(before).update(before.len() - 1, dash_fixed(before.last()@)));
    Some(row)
}

/// The value of `s` as a packet count: the integer before its decimal point,
/// read as a `u32`.
pub open spec fn whole_count(s: Seq<char>) -> Option<nat> {
    unsigned_value(integer_part(s), u32::MAX as nat)
}

/// The value of `s` as a byte count: the integer before its decimal point,
/// read as an `isize`.
pub open spec fn whole_bytes(s: Seq<char>) -> Option<int> {
    signed_value(integer_part(s), isize::MIN as int, isize::MAX as int)
}

/// The forward and the backward packet count of a row.
pub open spec fn plain_counts(fwd: Seq<char>, bwd: Seq<char>) -> Option<(u32, u32)> {
    match (whole_count(fwd), whole_count(bwd)) {
        (Some(a), Some(b)) => Some((a as u32, b as u32)),
        _ => None,
    }
}

/// The forward and the backward byte total of a row: per direction the
/// payload bytes and the header bytes together, a negative sum counting as
/// zero.
pub open spec fn plain_bytes(
    fwd_payload: Seq<char>,
    bwd_payload: Seq<char>,
    fwd_header: Seq<char>,
    bwd_header: Seq<char>,
) -> Option<(usize, usize)> {
    match (
        whole_bytes(fwd_payload),
        whole_bytes(fwd_header),
        whole_bytes(bwd_payload),
        whole_bytes(bwd_header),
    ) {
        (Some(fp), Some(fh), Some(bp), Some(bh)) => Some(
            (byte_total(fh, fp) as usize, byte_total(bh, bp) as usize),
        ),
        _ => None,
    }
}

/// Reads `s` as a `u32`, dropping a decimal point and what follows it.
pub fn parse_integer_u32(s: &str) -> (out: Option<u32>)
    ensures
        match out {
            Some(v) => whole_count(s@) == Some(v as nat),
            None => whole_count(s@) is None,
        },
{
    let chars = chars_of(s);
    let dot = find_dot(&chars);
    let whole = prefix(&chars, dot);
    parse_u32(&whole)
}

/// Reads `s` as an `isize`, dropping a decimal point and what follows it.
pub fn parse_integer_isize(s: &str) -> (out: Option<isize>)
    ensures
        match out {
            Some(v) => whole_bytes(s@) == Some(v as int),
            None => whole_bytes(s@) is None,
        },
{
    let chars = chars_of(s);
    let dot = find_dot(&chars);
    let whole = prefix(&chars, dot);
    parse_isize(&whole)
}

/// Reads the forward and the backward packet count of a row.
pub fn parse_counts(fwd: &str, bwd: &str) -> (out: Option<[u32; 2]>)
    ensures
        match out {
            Some(v) => plain_counts(fwd@, bwd@) == Some((v[0], v[1])),
            None => plain_counts(fwd@, bwd@) is None,
        },
{
    let a = match parse_integer_u32(fwd) {
        Some(v) => v,
        None => {
            return None;
        },
    };
    let b = match parse_integer_u32(bwd) {
        Some(v) => v,
        None => {
            return None;
        },
    };
    Some([a, b])
}

/// Reads the byte counts of a row and adds them up per direction.
pub fn parse_bytes(fwd_payload: &str, bwd_payload: &str, fwd_header: &str, bwd_header: &str) -> (out:
    Option<[usize; 2]>)
    ensures
        match out {
            Some(v) => plain_bytes(fwd_payload@, bwd_payload@, fwd_header@, bwd_header@) == Some(
                (v[0], v[1]),
            ),
            None => plain_bytes(fwd_payload@, bwd_payload@, fwd_header@, bwd_header@) is None,
        },
{
    let fp = match parse_integer_isize(fwd_payload) {
        Some(v) => v,
        None => {
            return None;
        },
    };
    let fh = match parse_integer_isize(fwd_header) {
        Some(v) => v,
        None => {
            return None;
        },
    };
    let bp = match parse_integer_isize(bwd_payload) {
        Some(v) => v,
        None => {
            return None;
        },
    };
    let bh = match parse_integer_isize(bwd_header) {
        Some(v) => v,
        None => {
            return None;
        },
    };
    let fwd: i128 = fp as i128 + fh as i128;
    let bwd: i128 = bp as i128 + bh as i128;
    Some([
        if fwd >= 0 {
            fwd as usize
        } else {
            0
        },
        if bwd >= 0 {
            bwd as usize
        } else {
            0
        },
    ])
}

/// What a row gives where its timestamp is read under one pattern and then
/// corrected for the part of the day: the record and the part of the day
/// after the row. The plain integers are read first, then the timestamp,
/// then the packet counts, then the byte totals; the first that fails is the
/// error.
pub open spec fn bare_record(
    row: Seq<Seq<char>>,
    layout: ColumnLayout,
    is_twelve_hour_clock: bool,
    period: FuzzyTimePeriod,
    pattern: Seq<char>,
) -> Result<(CICRecordView, FuzzyTimePeriod), RecordError> {
    match row_numbers(row, layout) {
        Err(e) => Err(e),
        Ok(numbers) => match datetime_read(row[layout.timestamp as int], pattern) {
            None => Err(RecordError::BadTimestamp { column: layout.timestamp }),
            Some(v) => match resolved(is_twelve_hour_clock, period, stamp_of(v)) {
                None => Err(RecordError::TimeOutOfRange { column: layout.timestamp }),
                Some((t, p)) => match plain_counts(
                    row[layout.fwd_packets as int],
                    row[layout.bwd_packets as int],
                ) {
                    None => Err(RecordError::BadPacketCount),
                    Some(counts) => match plain_bytes(
                        row[layout.fwd_payload as int],
                        row[layout.bwd_payload as int],
                        row[layout.fwd_header as int],
                        row[layout.bwd_header as int],
                    ) {
                        None => Err(RecordError::BadByteCount),
                        Some(bytes) => Ok((assembled(row, layout, numbers, t, counts, bytes), p)),
                    },
                },
            },
        },
    }
}

/// Builds the record of a row whose columns stand as `layout` says, reading
/// its timestamp with `parser`. On an error the parser stays as it was.
pub fn parse_row(parser: &mut TimestampParser, record: &Vec<String>, layout: &ColumnLayout) -> (out:
    Result<CICRecord, RecordError>)
    requires
        layout.wf(),
    ensures
        final(parser).is_twelve_hour_clock == old(parser).is_twelve_hour_clock,
        final(parser).timestamp_pattern == old(parser).timestamp_pattern,
        match bare_record(
            texts(record@),
            *layout,
            old(parser).is_twelve_hour_clock,
            old(parser).time_period,
            old(parser).timestamp_pattern@,
        ) {
            Ok((view, period)) => {
                &&& out matches Ok(r)
                &&& r@ == view
                &&& final(parser).time_period == period
            },
            Err(e) => {
                &&& out matches Err(x)
                &&& x == e
                &&& final(parser).time_period == old(parser).time_period
            },
        },
{
    let ghost t = texts(record@);
    let numbers = match read_numbers(record, layout) {
        Ok(n) => n,
        Err(e) => {
            return Err(e);
        },
    };
    assert forall|i: int| 0 <= i < record.len() implies #[trigger] t[i] == record[i]@ by {}
    let before = parser.time_period;
    let timestamp = match parser.parse(record[layout.timestamp].as_str()) {
        Ok(t) => t,
        Err(TimestampError::OutOfRange) => {
            return Err(RecordError::TimeOutOfRange { column: layout.timestamp });
        },
        Err(_) => {
            return Err(RecordError::BadTimestamp { column: layout.timestamp });
        },
    };
    let n_packet = match parse_counts(
        record[layout.fwd_packets].as_str(),
        record[layout.bwd_packets].as_str(),
    ) {
        Some(v) => v,
        None => {
            parser.time_period = before;
            return Err(RecordError::BadPacketCount);
        },
    };
    let n_bytes_packet = match parse_bytes(
        record[layout.fwd_payload].as_str(),
        record[layout.bwd_payload].as_str(),
        record[layout.fwd_header].as_str(),
        record[layout.bwd_header].as_str(),
    ) {
        Some(v) => v,
        None => {
            parser.time_period = before;
            return Err(RecordError::BadByteCount);
        },
    };
    Ok(
        CICRecord {
            src_ip: record[layout.src_ip].clone(),
            src_port: numbers.src_port,
            dst_ip: record[layout.dst_ip].clone(),
            dst_port: numbers.dst_port,
            protocol: numbers.protocol,
            timestamp,
            duration: numbers.duration,
            n_packet,
            n_bytes_packet,
            flag_count: numbers.flag_count,
            label: Label::new_with_name(
                CICRecord::fix_invalid_utf8_str(record[layout.label].as_str()),
            ),
        },
    )
}

/// Whether the name of an input file says that its rows begin in the
/// morning: it holds `Morning`, or begins with `Morning` or with one of the
/// days whose file covers the day from its morning on.
pub open spec fn seeds_morning(name: Seq<char>) -> bool {
    has_infix(name, "Morning"@) || has_prefix(name, "Morning"@) || has_prefix(name, "Monday"@)
        || has_prefix(name, "Tuesday"@) || has_prefix(name, "Wednesday"@)
}

/// Whether the name of an input file says in which part of the day its rows
/// begin.
pub open spec fn is_standard_name(name: Seq<char>) -> bool {
    seeds_morning(name) || has_infix(name, "Afternoon"@)
}

/// The part of the day in which the rows of a file begin, by its name: the
/// afternoon where the name holds `Afternoon` and nothing says morning, the
/// morning otherwise.
pub open spec fn seeded_period(name: Seq<char>) -> FuzzyTimePeriod {
    if seeds_morning(name) {
        FuzzyTimePeriod::Morning
    } else if has_infix(name, "Afternoon"@) {
        FuzzyTimePeriod::Afternoon
    } else {
        FuzzyTimePeriod::Morning
    }
}

/// The pattern of the timestamps of a file, by its name.
pub open spec fn seeded_pattern(name: Seq<char>) -> Seq<char> {
    if has_prefix(name, "Monday"@) {
        "%d/%m/%Y %H:%M:%S"@
    } else {
        "%e/%m/%Y %k:%M"@
    }
}

/// The pattern of the timestamps of the dataset CIC-DDoS-2019.
pub open spec fn ddos_pattern() -> Seq<char> {
    "%Y-%m-%d %H:%M:%S%.6f"@
}

/// Calls `std::path::Path::file_name` and turns the name into a string as
/// `to_string_lossy` does. What a file name is depends on the platform, so
/// nothing is claimed of the outcome.
#[verifier::external_body]
fn file_name_of(path: &str) -> (out: Option<String>) {
    match std::path::Path::new(path).file_name() {
        Some(name) => Some(name.to_string_lossy().into_owned()),
        None => None,
    }
}

/// A parser for the rows of one file of one dataset.
pub trait CICParser: Sized {
    /// The dataset whose rows the parser reads.
    spec fn dataset(&self) -> DatasetName;

    /// Whether the parser repairs the dashes of the label.
    spec fn fixes_label(&self) -> bool;

    /// The parser of the timestamps.
    spec fn clock(&self) -> TimestampParser;

    /// Checks a raw row and repairs it byte by byte. `None` says that the
    /// row is to be dropped.
    fn fix_byte_record(&self, record: Vec<Vec<u8>>) -> (out: Option<Vec<Vec<u8>>>)
        ensures
            match out {
                Some(row) => repaired(
                    cells(record@),
                    self.dataset().spec_layout().width as nat,
                    self.fixes_label(),
                ) == Some(cells(row@)),
                None => repaired(
                    cells(record@),
                    self.dataset().spec_layout().width as nat,
                    self.fixes_label(),
                ) is None,
            },
    ;

    /// Builds the record of a decoded row and moves the timestamp parser on.
    /// On an error the parser stays as it was.
    fn parse_string_record(&mut self, record: &Vec<String>) -> (out: Result<CICRecord, RecordError>)
        ensures
            final(self).dataset() == old(self).dataset(),
            final(self).fixes_label() == old(self).fixes_label(),
            final(self).clock().is_twelve_hour_clock == old(self).clock().is_twelve_hour_clock,
            final(self).clock().timestamp_pattern == old(self).clock().timestamp_pattern,
            match bare_record(
                texts(record@),
                old(self).dataset().spec_layout(),
                old(self).clock().is_twelve_hour_clock,
                old(self).clock().time_period,
                old(self).clock().timestamp_pattern@,
            ) {
                Ok((view, period)) => {
                    &&& out matches Ok(r)
                    &&& r@ == view
                    &&& final(self).clock().time_period == period
                },
                Err(e) => {
                    &&& out matches Err(x)
                    &&& x == e
                    &&& final(self).clock().time_period == old(self).clock().time_period
                },
            },
    ;
}

/// The parser for the dataset CIC-IDS-2017, whose timestamps come on a
/// twelve-hour clock without `am` or `pm`.
#[derive(Debug)]
pub struct CICIds2017Parser {
    pub timestamp_parser: TimestampParser,
}

impl CICIds2017Parser {
    /// Whether the parser is the one that `from_file_name` makes for a file of
    /// the given name.
    pub open spec fn seeded_by(self, name: Seq<char>) -> bool {
        &&& self.timestamp_parser.is_twelve_hour_clock
        &&& self.timestamp_parser.time_period == seeded_period(name)
        &&& self.timestamp_parser.timestamp_pattern@ == seeded_pattern(name)
    }

    /// The parser for the file at `input_path`, seeded by the name of the
    /// file; `None` where the path ends in no file name.
    pub fn new(input_path: &String) -> (out: Option<Self>)
        ensures
            out matches Some(p) ==> exists|name: Seq<char>| p.seeded_by(name),
    {
        match file_name_of(input_path.as_str()) {
            Some(filename) => {
                let p = CICIds2017Parser::from_file_name(&filename);
                assert(p.seeded_by(filename@));
                Some(p)
            },
            None => None,
        }
    }

    /// The parser for a file of the given name.
    pub fn from_file_name(filename: &String) -> (out: Self)
        ensures
            out.seeded_by(filename@),
    {
        CICIds2017Parser {
            timestamp_parser: TimestampParser {
                is_twelve_hour_clock: true,
                time_period: CICIds2017Parser::infer_time_period(filename),
                timestamp_pattern: CICIds2017Parser::infer_timestamp_pattern(filename),
            },
        }
    }

    /// Tests whether the name of a file says in which part of the day its
    /// rows begin. Where it does not, the morning is assumed.
    pub fn has_standard_name(filename: &String) -> (out: bool)
        ensures
            out == is_standard_name(filename@),
    {
        let name = chars_of(filename.as_str());
        contains(&name, &chars_of("Morning")) || starts_with(&name, &chars_of("Morning"))
            || starts_with(&name, &chars_of("Monday")) || starts_with(&name, &chars_of("Tuesday"))
            || starts_with(&name, &chars_of("Wednesday")) || contains(
            &name,
            &chars_of("Afternoon"),
        )
    }

    /// The part of the day in which the rows of a file begin, by its name.
    pub fn infer_time_period(filename: &String) -> (out: FuzzyTimePeriod)
        ensures
            out == seeded_period(filename@),
    {
        let name = chars_of(filename.as_str());
        if contains(&name, &chars_of("Morning")) || starts_with(&name, &chars_of("Morning"))
            || starts_with(&name, &chars_of("Monday")) || starts_with(&name, &chars_of("Tuesday"))
            || starts_with(&name, &chars_of("Wednesday")) {
            FuzzyTimePeriod::Morning
        } else if contains(&name, &chars_of("Afternoon")) {
            FuzzyTimePeriod::Afternoon
        } else {
            FuzzyTimePeriod::Morning
        }
    }

    /// The pattern of the timestamps of a file, by its name.
    pub fn infer_timestamp_pattern(filename: &String) -> (out: String)
        ensures
            out@ == seeded_pattern(filename@),
    {
        let name = chars_of(filename.as_str());
        if starts_with(&name, &chars_of("Monday")) {
            "%d/%m/%Y %H:%M:%S".to_owned()
        } else {
            "%e/%m/%Y %k:%M".to_owned()
        }
    }
}

impl CICParser for CICIds2017Parser {
    open spec fn dataset(&self) -> DatasetName {
        DatasetName::IDS2017
    }

    open spec fn fixes_label(&self) -> bool {
        true
    }

    open spec fn clock(&self) -> TimestampParser {
        self.timestamp_parser
    }

    fn fix_byte_record(&self, record: Vec<Vec<u8>>) -> (out: Option<Vec<Vec<u8>>>) {
        repair_row(record, DatasetName::IDS2017.n_csv_columns(), true)
    }

    fn parse_string_record(&mut self, record: &Vec<String>) -> (out: Result<
        CICRecord,
        RecordError,
    >) {
        let layout = DatasetName::IDS2017.layout();
        parse_row(&mut self.timestamp_parser, record, &layout)
    }
}

/// The parser for the dataset CIC-DDoS-2019, whose timestamps count their
/// hours up to 24.
#[derive(Debug)]
pub struct CICDdos2019Parser {
    pub timestamp_parser: TimestampParser,
}

impl CICDdos2019Parser {
    /// The parser for a file of the dataset.
    pub fn new() -> (out: Self)
        ensures
            !out.timestamp_parser.is_twelve_hour_clock,
            out.timestamp_parser.time_period == FuzzyTimePeriod::Morning,
            out.timestamp_parser.timestamp_pattern@ == ddos_pattern(),
    {
        CICDdos2019Parser {
            timestamp_parser: TimestampParser {
                is_twelve_hour_clock: false,
                time_period: FuzzyTimePeriod::Morning,
                timestamp_pattern: "%Y-%m-%d %H:%M:%S%.6f".to_owned(),
            },
        }
    }
}

impl Default for CICDdos2019Parser {
    fn default() -> (out: Self)
        ensures
            !out.timestamp_parser.is_twelve_hour_clock,
            out.timestamp_parser.time_period == FuzzyTimePeriod::Morning,
            out.timestamp_parser.timestamp_pattern@ == ddos_pattern(),
    {
        CICDdos2019Parser::new()
    }
}

impl CICParser for CICDdos2019Parser {
    open spec fn dataset(&self) -> DatasetName {
        DatasetName::DDoS2019
    }

    open spec fn fixes_label(&self) -> bool {
        false
    }

    open spec fn clock(&self) -> TimestampParser {
        self.timestamp_parser
    }

    fn fix_byte_record(&self, record: Vec<Vec<u8>>) -> (out: Option<Vec<Vec<u8>>>) {
        repair_row(record, DatasetName::DDoS2019.n_csv_columns(), false)
    }

    fn parse_string_record(&mut self, record: &Vec<String>) -> (out: Result<
        CICRecord,
        RecordError,
    >) {
        let layout = DatasetName::DDoS2019.layout();
        parse_row(&mut self.timestamp_parser, record, &layout)
    }
}

/// A row whose duration is negative gives a record of duration zero, on
/// whichever clock its timestamp is read.
pub proof fn lemma_negative_duration_is_zero(
    row: Seq<Seq<char>>,
    layout: ColumnLayout,
    is_twelve_hour_clock: bool,
    period: FuzzyTimePeriod,
    pattern: Seq<char>,
)
    requires
        bare_record(row, layout, is_twelve_hour_clock, period, pattern) is Ok,
        signed_value(row[layout.duration as int], i64::MIN as int, i64::MAX as int)->0 < 0,
    ensures
        bare_record(row, layout, is_twelve_hour_clock, period, pattern) matches Ok((record, _))
            && record.duration == 0,
{
}

} // verus!
