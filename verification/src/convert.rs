//! From the rows of one input file to the lines of its output files.

use vstd::prelude::*;
use crate::cic::dataset_name::DatasetName;
use crate::cic::io::{read_all, read_rows, row_cells, ReadError};
use crate::nf::flow::{
    categorize_nf,
    categorized,
    cic_to_nf_batch,
    flow_views,
    flows_of,
    groups_of,
    laid_out,
    max_bytes,
    max_duration_ms,
    NetFlow,
    NetFlowView,
};
use crate::nf::io::{format_lines, line_texts, lines_of};

verus! {

/// The lines that go to the file of one label.
#[derive(Debug)]
pub struct LabelFile {
    /// The name of the label, after which the file is named.
    pub label: String,
    /// The lines of the flows of that label, ordered by timestamp.
    pub lines: Vec<String>,
}

/// The lines of one label as plain values.
pub struct LabelFileView {
    pub label: Seq<char>,
    pub lines: Seq<Seq<char>>,
}

impl View for LabelFile {
    type V = LabelFileView;

    open spec fn view(&self) -> LabelFileView {
        LabelFileView { label: self.label@, lines: line_texts(self.lines@) }
    }
}

/// Why the rows of a file give no output.
#[derive(Clone, Copy, Debug, PartialEq, Eq, Structural)]
pub enum ConvertError {
    /// The rows cannot be read.
    Read(ReadError),
    /// The timestamp of a flow cannot be written.
    Timestamp,
}

/// The files as plain values.
pub open spec fn file_views(files: Seq<LabelFile>) -> Seq<LabelFileView> {
    files.map_values(|f: LabelFile| f@)
}

/// The files that groups of flows give: one for each group that is not
/// empty, named after the label of its first flow and holding the lines of
/// its flows. `None` where the timestamp of a flow cannot be written.
pub open spec fn files_of(groups: Seq<Seq<NetFlowView>>) -> Option<Seq<LabelFileView>>
    decreases groups.len(),
{
    if groups.len() == 0 {
        Some(Seq::empty())
    } else {
        match (files_of(groups.drop_last()), lines_of(groups.last())) {
            (Some(before), Some(lines)) => if groups.last().len() == 0 {
                Some(before)
            } else {
                Some(before.push(LabelFileView { label: groups.last()[0].label.name, lines }))
            },
            _ => None,
        }
    }
}

/// The batch of flows that the records of a file give: every record split
/// into its directions, the column widths fit to the batch, the flows
/// ordered by timestamp.
pub open spec fn batch_of(flows: Seq<NetFlowView>) -> Seq<NetFlowView> {
    laid_out(flows, max_duration_ms(flows), max_bytes(flows))
}

/// What the rows of one input file give: for each label that occurs, in the
/// order of first occurrence in the ordered batch, the lines of its flows.
pub open spec fn converted(
    rows: Seq<Seq<Seq<u8>>>,
    dataset_name: DatasetName,
    is_am: Option<bool>,
) -> Result<Seq<LabelFileView>, ConvertError> {
    match read_all(rows, dataset_name, is_am) {
        Err(e) => Err(ConvertError::Read(e)),
        Ok(state) => match files_of(categorized(batch_of(flows_of(state.records)))) {
            Some(files) => Ok(files),
            None => Err(ConvertError::Timestamp),
        },
    }
}

/// Where the first groups cannot all be written, the groups cannot.
pub proof fn lemma_files_of_prefix(groups: Seq<Seq<NetFlowView>>, k: int)
    requires
        0 <= k <= groups.len(),
        files_of(groups.take(k)) is None,
    ensures
        files_of(groups) is None,
    decreases groups.len() - k,
{
    if k == groups.len() {
        assert(groups.take(k) == groups);
    } else {
        assert(groups.drop_last().take(k) == groups.take(k));
        lemma_files_of_prefix(groups.drop_last(), k);
    }
}

/// Writes each group of flows as the lines of one file. An empty group gets
/// no file.
pub fn write_groups(groups: &Vec<Vec<NetFlow>>) -> (out: Option<Vec<LabelFile>>)
    ensures
        match files_of(groups_of(groups@)) {
            Some(files) => out matches Some(v) && file_views(v@) == files,
            None => out is None,
        },
{
    let ghost views = groups_of(groups@);
    let mut files: Vec<LabelFile> = Vec::new();
    let mut i: usize = 0;
    assert(views.take(0) == Seq::<Seq<NetFlowView>>::empty());
    assert(file_views(files@) =~= Seq::<LabelFileView>::empty());
    while i < groups.len()
        invariant
            i <= groups.len(),
            views == groups_of(groups@),
            files_of(views.take(i as int)) == Some(file_views(files@)),
        decreases groups.len() - i,
    {
        assert(views.take(i + 1).drop_last() == views.take(i as int));
        assert(views.take(i + 1).last() == flow_views(groups[i as int]@));
        let ghost before = file_views(files@);
        match format_lines(&groups[i]) {
            Some(lines) => {
                if groups[i].len() > 0 {
                    assert(flow_views(groups[i as int]@)[0] == groups[i as int][0]@);
                    let file = LabelFile { label: groups[i][0].label.name.clone(), lines };
                    let ghost pushed = file@;
                    files.push(file);
                    assert(file_views(files@) =~= before.push(pushed));
                }
            },
            None => {
                proof {
                    lemma_files_of_prefix(views, i + 1);
                }
                return None;
            },
        }
        i += 1;
    }
    assert(views.take(groups.len() as int) == views);
    Some(files)
}

/// Converts the rows of one input file of the given dataset, the header row
/// left out, into the lines of its output files: the rows are read into
/// records, the records split into flows, the flows laid out and ordered as
/// one batch and sorted by label, and each group written line by line.
pub fn convert_rows(dataset_name: &DatasetName, rows: Vec<Vec<Vec<u8>>>, is_am: &Option<bool>) -> (out:
    Result<Vec<LabelFile>, ConvertError>)
    ensures
        match converted(row_cells(rows@), *dataset_name, *is_am) {
            Ok(files) => out matches Ok(v) && file_views(v@) == files,
            Err(e) => out matches Err(x) && x == e,
        },
{
    let records = match read_rows(dataset_name, rows, is_am) {
        Ok((records, _)) => records,
        Err(e) => {
            return Err(ConvertError::Read(e));
        },
    };
    let nf_records = cic_to_nf_batch(records);
    let groups = categorize_nf(nf_records);
    match write_groups(&groups) {
        Some(files) => Ok(files),
        None => Err(ConvertError::Timestamp),
    }
}

} // verus!
