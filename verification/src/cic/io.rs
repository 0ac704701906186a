//! Reading the rows of one file: every row is checked and repaired, decoded,
//! built into a record, and given the number of its label.

use vstd::prelude::*;
use crate::cic::dataset_name::DatasetName;
use crate::cic::label::LabelView;
use crate::cic::numeric::PacketPartParser;
use crate::cic::parser::{bare_record, cells, repair_row, repaired, CICParser, FuzzyTimePeriod};
use crate::cic::record::{
    explicit_record,
    texts,
    CICParserConfig,
    CICRecord,
    CICRecordView,
    RecordError,
};
use crate::nf::flow::record_views;

verus! {

/// The text that `csv` decodes from the bytes of one field: the bytes read
/// as UTF-8, with each stretch that is no valid UTF-8 replaced by the
/// Unicode replacement character.
pub uninterp spec fn lossy_text(bytes: Seq<u8>) -> Seq<char>;

/// The fields of a raw row, decoded.
pub open spec fn decoded(row: Seq<Seq<u8>>) -> Seq<Seq<char>> {
    row.map_values(|f: Seq<u8>| lossy_text(f))
}

/// Calls `csv::StringRecord::from_byte_record_lossy` on the row. The
/// decoded row has as many fields as the raw one, and the text of each field
/// depends on the bytes of that field alone; the contract names that text.
#[verifier::external_body]
pub(crate) fn decode_row(row: &Vec<Vec<u8>>) -> (out: Vec<String>)
    ensures
        out.len() == row.len(),
        forall|i: int| 0 <= i < row.len() ==> (#[trigger] out[i])@ == lossy_text(row[i]@),
{
    let record = csv::ByteRecord::from(row.as_slice());
    let decoded = csv::StringRecord::from_byte_record_lossy(record);
    decoded.iter().map(|field| field.to_string()).collect()
}

/// Why the rows of a file give no records.
#[derive(Clone, Copy, Debug, PartialEq, Eq, Structural)]
pub enum ReadError {
    /// The row with this index, counted from 0, cannot be turned into a
    /// record.
    Record { row: usize, error: RecordError },
    /// The row with this index has a label that would be the 256th of the
    /// file.
    TooManyLabels { row: usize },
}

/// The index of the first entry of `names` that equals `name`, or the length
/// of `names` where none does.
pub open spec fn position(names: Seq<Seq<char>>, name: Seq<char>) -> nat
    decreases names.len(),
{
    if names.len() == 0 || names[0] == name {
        0
    } else {
        1 + position(names.skip(1), name)
    }
}

/// `position` is where the first equal entry stands.
pub proof fn lemma_position(names: Seq<Seq<char>>, name: Seq<char>, i: int)
    requires
        0 <= i <= names.len(),
        forall|j: int| 0 <= j < i ==> #[trigger] names[j] != name,
        i == names.len() || names[i] == name,
    ensures
        position(names, name) == i,
    decreases i,
{
    if i > 0 {
        let t = names.skip(1);
        assert forall|j: int| 0 <= j < i - 1 implies #[trigger] t[j] != name by {
            assert(t[j] == names[j + 1]);
        }
        lemma_position(t, name, i - 1);
    }
}

/// The names of the labels of a file after `name` was met: `name` is put
/// behind the others where it is new.
pub open spec fn names_with(names: Seq<Seq<char>>, name: Seq<char>) -> Seq<Seq<char>> {
    if position(names, name) < names.len() {
        names
    } else {
        names.push(name)
    }
}

/// The number of the label `name` in a file whose label names are `names`:
/// one more than its position among them, so that the first name has the
/// number 1.
pub open spec fn number_of(names: Seq<Seq<char>>, name: Seq<char>) -> int {
    position(names, name) as int + 1
}

/// The labels that were met in a file, in the order in which they were first
/// met. The label at position `i` has the number `i + 1`; the first is the
/// label of benign traffic.
#[derive(Debug)]
pub struct LabelMap {
    pub names: Vec<String>,
}

impl LabelMap {
    /// The names of the labels.
    pub open spec fn spec_names(&self) -> Seq<Seq<char>> {
        texts(self.names@)
    }

    /// The map that holds the label of benign traffic only.
    pub fn new(dataset_name: &DatasetName) -> (out: Self)
        ensures
            out.spec_names() == seq![DatasetName::benign_name()],
    {
        let mut names: Vec<String> = Vec::new();
        let benign = dataset_name.benign_label();
        names.push(benign.name);
        let out = LabelMap { names };
        assert(out.spec_names() =~= seq![DatasetName::benign_name()]);
        out
    }

    /// How many labels were met.
    pub fn len(&self) -> (out: usize)
        ensures
            out == self.spec_names().len(),
    {
        self.names.len()
    }

    /// The number of the label with the given name, if it was met.
    pub fn get(&self, name: &String) -> (out: Option<usize>)
        ensures
            match out {
                Some(index) => position(self.spec_names(), name@) < self.spec_names().len()
                    && index == number_of(self.spec_names(), name@),
                None => position(self.spec_names(), name@) == self.spec_names().len(),
            },
    {
        let ghost names = self.spec_names();
        let mut i: usize = 0;
        while i < self.names.len()
            invariant
                i <= self.names.len(),
                names == self.spec_names(),
                forall|j: int| 0 <= j < i ==> #[trigger] names[j] != name@,
            decreases self.names.len() - i,
        {
            assert(names[i as int] == self.names[i as int]@);
            if self.names[i] == *name {
                proof {
                    lemma_position(names, name@, i as int);
                }
                return Some(i + 1);
            }
            i += 1;
        }
        proof {
            lemma_position(names, name@, i as int);
        }
        None
    }
}

/// The record with the number of its label set.
pub open spec fn numbered(record: CICRecordView, index: u8) -> CICRecordView {
    CICRecordView { label: LabelView { index, name: record.label.name }, ..record }
}

/// Gives the label of a record its number: the number under which the name
/// is known, or the next free number, under which the name is then known.
/// `false` says that no number up to 255 was free; nothing has changed
/// then.
pub fn update_label_and_index_mut(label_map: &mut LabelMap, cic_record: &mut CICRecord) -> (out:
    bool)
    ensures
        out == (number_of(old(label_map).spec_names(), old(cic_record)@.label.name) <= u8::MAX),
        out ==> final(label_map).spec_names() == names_with(
            old(label_map).spec_names(),
            old(cic_record)@.label.name,
        ),
        out ==> final(cic_record)@ == numbered(
            old(cic_record)@,
            number_of(old(label_map).spec_names(), old(cic_record)@.label.name) as u8,
        ),
        !out ==> final(label_map).spec_names() == old(label_map).spec_names(),
        !out ==> final(cic_record)@ == old(cic_record)@,
{
    let ghost names = label_map.spec_names();
    let known = label_map.get(&cic_record.label.name);
    let index: usize = match known {
        Some(index) => index,
        None => {
            if label_map.names.len() >= 255 {
                return false;
            }
            label_map.names.len() + 1
        },
    };
    if index > 255 {
        return false;
    }
    if known.is_none() {
        let name = cic_record.label.name.clone();
        label_map.names.push(name);
        assert(label_map.spec_names() =~= names.push(cic_record@.label.name));
    }
    cic_record.label.index = index as u8;
    true
}

/// What has been read of a file: the records so far, the names of the labels
/// met, the index of the pattern that the last timestamp matched, and the
/// state of the count parsers.
pub struct ReadState {
    pub records: Seq<CICRecordView>,
    pub labels: Seq<Seq<char>>,
    pub guess: int,
    pub config: CICParserConfig,
}

/// Whether the dashes of the label are repaired in the rows of a dataset.
pub open spec fn fixes_label(dataset_name: DatasetName) -> bool {
    dataset_name == DatasetName::IDS2017
}

/// What is known before the first row is read.
pub open spec fn first_state() -> ReadState {
    ReadState {
        records: Seq::empty(),
        labels: seq![DatasetName::benign_name()],
        guess: 0,
        config: CICParserConfig {
            packet_count: PacketPartParser { is_last_float: false },
            packet_bytes: PacketPartParser { is_last_float: false },
        },
    }
}

/// What one row adds. A row that is dropped at the repair adds nothing. Any
/// other row is decoded and built into a record whose label gets its
/// number; a row that gives no record, or whose label finds no free number,
/// ends the reading.
#[verifier::opaque]
pub open spec fn read_step(
    state: ReadState,
    row: Seq<Seq<u8>>,
    index: int,
    dataset_name: DatasetName,
    is_am: Option<bool>,
) -> Result<ReadState, ReadError> {
    match repaired(row, dataset_name.spec_layout().width as nat, fixes_label(dataset_name)) {
        None => Ok(state),
        Some(fixed) => match explicit_record(
            decoded(fixed),
            dataset_name.spec_layout(),
            is_am,
            state.guess,
            state.config,
        ) {
            Err(error) => Err(ReadError::Record { row: index as usize, error }),
            Ok((record, guess, config)) => if number_of(state.labels, record.label.name)
                > u8::MAX {
                Err(ReadError::TooManyLabels { row: index as usize })
            } else {
                Ok(
                    ReadState {
                        records: state.records.push(
                            numbered(record, number_of(state.labels, record.label.name) as u8),
                        ),
                        labels: names_with(state.labels, record.label.name),
                        guess,
                        config,
                    },
                )
            },
        },
    }
}

/// What the rows of a file give, read one after the other.
pub open spec fn read_all(rows: Seq<Seq<Seq<u8>>>, dataset_name: DatasetName, is_am: Option<bool>) -> Result<
    ReadState,
    ReadError,
>
    decreases rows.len(),
{
    if rows.len() == 0 {
        Ok(first_state())
    } else {
        match read_all(rows.drop_last(), dataset_name, is_am) {
            Err(e) => Err(e),
            Ok(state) => read_step(state, rows.last(), rows.len() - 1, dataset_name, is_am),
        }
    }
}

/// The rows of a file as plain bytes.
pub open spec fn row_cells(rows: Seq<Vec<Vec<u8>>>) -> Seq<Seq<Seq<u8>>> {
    rows.map_values(|row: Vec<Vec<u8>>| cells(row@))
}

/// Where the first rows of a file end the reading, the file ends it so.
pub proof fn lemma_read_all_prefix(
    rows: Seq<Seq<Seq<u8>>>,
    dataset_name: DatasetName,
    is_am: Option<bool>,
    k: int,
)
    requires
        0 <= k <= rows.len(),
        read_all(rows.take(k), dataset_name, is_am) is Err,
    ensures
        read_all(rows, dataset_name, is_am) == read_all(rows.take(k), dataset_name, is_am),
    decreases rows.len() - k,
{
    if k == rows.len() {
        assert(rows.take(k) == rows);
    } else {
        assert(rows.drop_last().take(k) == rows.take(k));
        lemma_read_all_prefix(rows.drop_last(), dataset_name, is_am, k);
    }
}

/// What has been read of a file.
#[derive(Debug)]
pub struct Reading {
    pub records: Vec<CICRecord>,
    pub labels: LabelMap,
    /// The index of the pattern that the last timestamp matched.
    pub guess: usize,
    pub config: CICParserConfig,
}

impl Reading {
    /// What has been read, as plain values.
    pub open spec fn state(&self) -> ReadState {
        ReadState {
            records: record_views(self.records@),
            labels: self.labels.spec_names(),
            guess: self.guess as int,
            config: self.config,
        }
    }

    /// The reading of a file of which no row has been read yet.
    pub fn new(dataset_name: &DatasetName) -> (out: Self)
        ensures
            out.state() == first_state(),
    {
        let out = Reading {
            records: Vec::new(),
            labels: LabelMap::new(dataset_name),
            guess: 0,
            config: CICParserConfig::default(),
        };
        assert(record_views(out.records@) =~= Seq::<CICRecordView>::empty());
        out
    }

    /// Reads one more row, which is the row with the given index. On an
    /// error the reading stays as it was.
    pub fn read_row(
        &mut self,
        dataset_name: &DatasetName,
        row: Vec<Vec<u8>>,
        index: usize,
        is_am: &Option<bool>,
    ) -> (out: Result<(), ReadError>)
        ensures
            match read_step(old(self).state(), cells(row@), index as int, *dataset_name, *is_am) {
                Ok(state) => out is Ok && final(self).state() == state,
                Err(e) => out matches Err(x) && x == e && final(self).state() == old(self).state(),
            },
    {
        reveal(read_step);
        let layout = dataset_name.layout();
        let fix_label = match dataset_name {
            DatasetName::IDS2017 => true,
            DatasetName::DDoS2019 => false,
        };
        let fixed = match repair_row(row, layout.width, fix_label) {
            None => {
                return Ok(());
            },
            Some(fixed) => fixed,
        };
        let text_row = decode_row(&fixed);
        assert(texts(text_row@) =~= decoded(cells(fixed@)));
        let ghost before = record_views(self.records@);
        let config = self.config;
        let (cic_record, guess) = match CICRecord::from_csv(
            &text_row,
            &layout,
            is_am,
            self.guess,
            &mut self.config,
        ) {
            Err(error) => {
                return Err(ReadError::Record { row: index, error });
            },
            Ok(built) => built,
        };
        let mut cic_record = cic_record;
        if !update_label_and_index_mut(&mut self.labels, &mut cic_record) {
            self.config = config;
            return Err(ReadError::TooManyLabels { row: index });
        }
        self.guess = guess;
        let ghost pushed = cic_record@;
        self.records.push(cic_record);
        assert(record_views(self.records@) =~= before.push(pushed));
        Ok(())
    }
}

/// The rows in the opposite order.
fn reversed_rows(v: Vec<Vec<Vec<u8>>>) -> (out: Vec<Vec<Vec<u8>>>)
    ensures
        out.len() == v.len(),
        forall|j: int| 0 <= j < out.len() ==> out[j] == v[v.len() - 1 - j],
{
    let mut v = v;
    let ghost before = v@;
    let mut out: Vec<Vec<Vec<u8>>> = Vec::new();
    while v.len() > 0
        invariant
            v.len() + out.len() == before.len(),
            v@ == before.take(v.len() as int),
            forall|j: int| 0 <= j < out.len() ==> out[j] == before[before.len() - 1 - j],
        decreases v.len(),
    {
        let x = v.pop().unwrap();
        out.push(x);
    }
    out
}

/// Reads the rows of one file of the given dataset, the header row left
/// out. `is_am` is the caller's hint on the half of the day in which the
/// timestamps lie, for a file whose timestamps do not say so themselves.
/// Rows of the wrong width and rows without content are passed over. The
/// records come back in the order of their rows, with the labels that were
/// met.
pub fn read_rows(dataset_name: &DatasetName, rows: Vec<Vec<Vec<u8>>>, is_am: &Option<bool>) -> (out:
    Result<(Vec<CICRecord>, LabelMap), ReadError>)
    ensures
        match read_all(row_cells(rows@), *dataset_name, *is_am) {
            Ok(state) => {
                &&& out matches Ok((records, labels))
                &&& record_views(records@) == state.records
                &&& labels.spec_names() == state.labels
            },
            Err(e) => out matches Err(x) && x == e,
        },
{
    let ghost all = row_cells(rows@);
    let n = rows.len();
    let mut rest = reversed_rows(rows);
    let mut reading = Reading::new(dataset_name);
    assert(all.take(0) == Seq::<Seq<Seq<u8>>>::empty());
    while rest.len() > 0
        invariant
            rest.len() <= n,
            n == rows.len(),
            all == row_cells(rows@),
            forall|j: int| 0 <= j < rest.len() ==> rest[j] == rows[n - 1 - j],
            read_all(all.take(n - rest.len()), *dataset_name, *is_am) == Ok::<
                ReadState,
                ReadError,
            >(reading.state()),
        decreases rest.len(),
    {
        let i: usize = n - rest.len();
        assert(all.take(i + 1).drop_last() == all.take(i as int));
        assert(all.take(i + 1).last() == cells(rows[i as int]@));
        let row = rest.pop().unwrap();
        match reading.read_row(dataset_name, row, i, is_am) {
            Ok(()) => {},
            Err(e) => {
                proof {
                    lemma_read_all_prefix(all, *dataset_name, *is_am, i + 1);
                }
                return Err(e);
            },
        }
    }
    assert(all.take(n as int) == all);
    Ok((reading.records, reading.labels))
}

/// What has been read of a file by a parser: the records so far, the names
/// of the labels met, and the part of the day that the parser is in.
pub struct ParseState {
    pub records: Seq<CICRecordView>,
    pub labels: Seq<Seq<char>>,
    pub period: FuzzyTimePeriod,
}

/// What one row adds where a parser reads it. A row that the parser drops
/// adds nothing. Any other row is decoded and built into a record whose
/// label gets its number; a row that gives no record, or whose label finds
/// no free number, ends the reading.
#[verifier::opaque]
pub open spec fn parse_step(
    state: ParseState,
    row: Seq<Seq<u8>>,
    index: int,
    dataset_name: DatasetName,
    fix_label: bool,
    is_twelve_hour_clock: bool,
    pattern: Seq<char>,
) -> Result<ParseState, ReadError> {
    match repaired(row, dataset_name.spec_layout().width as nat, fix_label) {
        None => Ok(state),
        Some(fixed) => match bare_record(
            decoded(fixed),
            dataset_name.spec_layout(),
            is_twelve_hour_clock,
            state.period,
            pattern,
        ) {
            Err(error) => Err(ReadError::Record { row: index as usize, error }),
            Ok((record, period)) => if number_of(state.labels, record.label.name) > u8::MAX {
                Err(ReadError::TooManyLabels { row: index as usize })
            } else {
                Ok(
                    ParseState {
                        records: state.records.push(
                            numbered(record, number_of(state.labels, record.label.name) as u8),
                        ),
                        labels: names_with(state.labels, record.label.name),
                        period,
                    },
                )
            },
        },
    }
}

/// What the rows of a file give where a parser reads them one after the
/// other, starting in the given part of the day.
pub open spec fn parse_all(
    rows: Seq<Seq<Seq<u8>>>,
    dataset_name: DatasetName,
    fix_label: bool,
    is_twelve_hour_clock: bool,
    period: FuzzyTimePeriod,
    pattern: Seq<char>,
) -> Result<ParseState, ReadError>
    decreases rows.len(),
{
    if rows.len() == 0 {
        Ok(
            ParseState {
                records: Seq::empty(),
                labels: seq![DatasetName::benign_name()],
                period,
            },
        )
    } else {
        match parse_all(
            rows.drop_last(),
            dataset_name,
            fix_label,
            is_twelve_hour_clock,
            period,
            pattern,
        ) {
            Err(e) => Err(e),
            Ok(state) => parse_step(
                state,
                rows.last(),
                rows.len() - 1,
                dataset_name,
                fix_label,
                is_twelve_hour_clock,
                pattern,
            ),
        }
    }
}

/// Where the first rows of a file end the reading, the file ends it so.
pub proof fn lemma_parse_all_prefix(
    rows: Seq<Seq<Seq<u8>>>,
    dataset_name: DatasetName,
    fix_label: bool,
    is_twelve_hour_clock: bool,
    period: FuzzyTimePeriod,
    pattern: Seq<char>,
    k: int,
)
    requires
        0 <= k <= rows.len(),
        parse_all(rows.take(k), dataset_name, fix_label, is_twelve_hour_clock, period, pattern)
            is Err,
    ensures
        parse_all(rows, dataset_name, fix_label, is_twelve_hour_clock, period, pattern)
            == parse_all(
            rows.take(k),
            dataset_name,
            fix_label,
            is_twelve_hour_clock,
            period,
            pattern,
        ),
    decreases rows.len() - k,
{
    if k == rows.len() {
        assert(rows.take(k) == rows);
    } else {
        assert(rows.drop_last().take(k) == rows.take(k));
        lemma_parse_all_prefix(
            rows.drop_last(),
            dataset_name,
            fix_label,
            is_twelve_hour_clock,
            period,
            pattern,
            k,
        );
    }
}

/// Reads one more row with the given parser, which is the row with the
/// given index.
pub fn parse_row_with<P: CICParser>(
    parser: &mut P,
    row: Vec<Vec<u8>>,
    index: usize,
    records: &mut Vec<CICRecord>,
    labels: &mut LabelMap,
) -> (out: Result<(), ReadError>)
    ensures
        final(parser).dataset() == old(parser).dataset(),
        final(parser).fixes_label() == old(parser).fixes_label(),
        final(parser).clock().is_twelve_hour_clock == old(parser).clock().is_twelve_hour_clock,
        final(parser).clock().timestamp_pattern == old(parser).clock().timestamp_pattern,
        match parse_step(
            ParseState {
                records: record_views(old(records)@),
                labels: old(labels).spec_names(),
                period: old(parser).clock().time_period,
            },
            cells(row@),
            index as int,
            old(parser).dataset(),
            old(parser).fixes_label(),
            old(parser).clock().is_twelve_hour_clock,
            old(parser).clock().timestamp_pattern@,
        ) {
            Ok(state) => {
                &&& out is Ok
                &&& record_views(final(records)@) == state.records
                &&& final(labels).spec_names() == state.labels
                &&& final(parser).clock().time_period == state.period
            },
            Err(e) => out matches Err(x) && x == e,
        },
{
    reveal(parse_step);
    let fixed = match parser.fix_byte_record(row) {
        None => {
            return Ok(());
        },
        Some(fixed) => fixed,
    };
    let text_row = decode_row(&fixed);
    assert(texts(text_row@) =~= decoded(cells(fixed@)));
    let ghost before = record_views(records@);
    let mut cic_record = match parser.parse_string_record(&text_row) {
        Err(error) => {
            return Err(ReadError::Record { row: index, error });
        },
        Ok(cic_record) => cic_record,
    };
    if !update_label_and_index_mut(labels, &mut cic_record) {
        return Err(ReadError::TooManyLabels { row: index });
    }
    let ghost pushed = cic_record@;
    records.push(cic_record);
    assert(record_views(records@) =~= before.push(pushed));
    Ok(())
}

/// Reads the rows of one file with the given parser, the header row left
/// out. Rows that the parser drops are passed over. The records come back in
/// the order of their rows, with the labels that were met, and the parser is
/// left in the part of the day that the last row ended in. After an error
/// the parser may have moved on and is not to be used any more.
pub fn parse_rows<P: CICParser>(parser: &mut P, rows: Vec<Vec<Vec<u8>>>) -> (out: Result<
    (Vec<CICRecord>, LabelMap),
    ReadError,
>)
    ensures
        match parse_all(
            row_cells(rows@),
            old(parser).dataset(),
            old(parser).fixes_label(),
            old(parser).clock().is_twelve_hour_clock,
            old(parser).clock().time_period,
            old(parser).clock().timestamp_pattern@,
        ) {
            Ok(state) => {
                &&& out matches Ok((records, labels))
                &&& record_views(records@) == state.records
                &&& labels.spec_names() == state.labels
                &&& final(parser).clock().time_period == state.period
            },
            Err(e) => out matches Err(x) && x == e,
        },
{
    let ghost all = row_cells(rows@);
    let ghost dataset_name = parser.dataset();
    let ghost fix_label = parser.fixes_label();
    let ghost is_twelve = parser.clock().is_twelve_hour_clock;
    let ghost first = parser.clock().time_period;
    let ghost pattern = parser.clock().timestamp_pattern@;
    let n = rows.len();
    let mut rest = reversed_rows(rows);
    let mut records: Vec<CICRecord> = Vec::new();
    let mut names: Vec<String> = Vec::new();
    names.push("BENIGN".to_owned());
    let mut labels = LabelMap { names };
    assert(labels.spec_names() =~= seq![DatasetName::benign_name()]);
    assert(all.take(0) == Seq::<Seq<Seq<u8>>>::empty());
    assert(record_views(records@) =~= Seq::<CICRecordView>::empty());
    while rest.len() > 0
        invariant
            rest.len() <= n,
            n == rows.len(),
            all == row_cells(rows@),
            parser.dataset() == dataset_name,
            parser.fixes_label() == fix_label,
            parser.clock().is_twelve_hour_clock == is_twelve,
            parser.clock().timestamp_pattern@ == pattern,
            dataset_name == old(parser).dataset(),
            fix_label == old(parser).fixes_label(),
            is_twelve == old(parser).clock().is_twelve_hour_clock,
            first == old(parser).clock().time_period,
            pattern == old(parser).clock().timestamp_pattern@,
            forall|j: int| 0 <= j < rest.len() ==> rest[j] == rows[n - 1 - j],
            parse_all(
                all.take(n - rest.len()),
                dataset_name,
                fix_label,
                is_twelve,
                first,
                pattern,
            ) == Ok::<ParseState, ReadError>(
                ParseState {
                    records: record_views(records@),
                    labels: labels.spec_names(),
                    period: parser.clock().time_period,
                },
            ),
        decreases rest.len(),
    {
        let i: usize = n - rest.len();
        assert(all.take(i + 1).drop_last() == all.take(i as int));
        assert(all.take(i + 1).last() == cells(rows[i as int]@));
        let row = rest.pop().unwrap();
        match parse_row_with(parser, row, i, &mut records, &mut labels) {
            Ok(()) => {},
            Err(e) => {
                proof {
                    lemma_parse_all_prefix(
                        all,
                        dataset_name,
                        fix_label,
                        is_twelve,
                        first,
                        pattern,
                        i + 1,
                    );
                }
                return Err(e);
            },
        }
    }
    assert(all.take(n as int) == all);
    Ok((records, labels))
}

} // verus!
