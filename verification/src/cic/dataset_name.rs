//! The supported datasets and the layout of their rows.

use vstd::prelude::*;
use crate::cic::label::Label;
use crate::text::{chars_of, same_text};

verus! {

/// A dataset whose CSV export can be read.
#[derive(Clone, Copy, Debug, PartialEq, Eq, Structural)]
pub enum DatasetName {
    IDS2017,
    DDoS2019,
}

/// A text that names no supported dataset.
#[derive(Clone, Copy, Debug, PartialEq, Eq, Structural)]
pub struct ParseDatasetNameError;

/// Where the fields that a record is built from stand in a row, each as the
/// index of its column, counted from 0.
#[derive(Clone, Copy, Debug, PartialEq, Eq, Structural)]
pub struct ColumnLayout {
    /// How many columns a row must have.
    pub width: usize,
    pub src_ip: usize,
    pub src_port: usize,
    pub dst_ip: usize,
    pub dst_port: usize,
    pub protocol: usize,
    pub timestamp: usize,
    pub duration: usize,
    pub fwd_packets: usize,
    pub bwd_packets: usize,
    pub fwd_payload: usize,
    pub bwd_payload: usize,
    pub fwd_header: usize,
    pub bwd_header: usize,
    /// The first of the four per-direction flag columns: forward PSH,
    /// backward PSH, forward URG, backward URG.
    pub direction_flags: usize,
    /// The first of the eight overall flag columns: FIN, SYN, RST, PSH, ACK,
    /// URG, CWR, ECE.
    pub flow_flags: usize,
    pub label: usize,
}

impl ColumnLayout {
    /// Every column that the layout names lies within the row.
    pub open spec fn wf(self) -> bool {
        &&& self.src_ip < self.width
        &&& self.src_port < self.width
        &&& self.dst_ip < self.width
        &&& self.dst_port < self.width
        &&& self.protocol < self.width
        &&& self.timestamp < self.width
        &&& self.duration < self.width
        &&& self.fwd_packets < self.width
        &&& self.bwd_packets < self.width
        &&& self.fwd_payload < self.width
        &&& self.bwd_payload < self.width
        &&& self.fwd_header < self.width
        &&& self.bwd_header < self.width
        &&& self.direction_flags + 4 <= self.width
        &&& self.flow_flags + 8 <= self.width
        &&& self.label < self.width
    }

    /// The column of the flag counter at `position` among the twelve that
    /// `CICFlagCount::new` takes.
    pub open spec fn flag_column(self, position: int) -> int {
        if position < 4 {
            self.direction_flags + position
        } else {
            self.flow_flags + (position - 4)
        }
    }
}

impl DatasetName {
    /// The name under which the dataset is known.
    pub open spec fn spec_name(self) -> Seq<char> {
        match self {
            DatasetName::IDS2017 => "CIC-IDS-2017"@,
            DatasetName::DDoS2019 => "CIC-DDoS-2019"@,
        }
    }

    /// The layout of a row of the dataset.
    pub open spec fn spec_layout(self) -> ColumnLayout {
        match self {
            DatasetName::IDS2017 => ColumnLayout {
                width: 85,
                src_ip: 1,
                src_port: 2,
                dst_ip: 3,
                dst_port: 4,
                protocol: 5,
                timestamp: 6,
                duration: 7,
                fwd_packets: 8,
                bwd_packets: 9,
                fwd_payload: 10,
                bwd_payload: 11,
                fwd_header: 40,
                bwd_header: 41,
                direction_flags: 36,
                flow_flags: 49,
                label: 84,
            },
            DatasetName::DDoS2019 => ColumnLayout {
                width: 88,
                src_ip: 2,
                src_port: 3,
                dst_ip: 4,
                dst_port: 5,
                protocol: 6,
                timestamp: 7,
                duration: 8,
                fwd_packets: 9,
                bwd_packets: 10,
                fwd_payload: 11,
                bwd_payload: 12,
                fwd_header: 41,
                bwd_header: 42,
                direction_flags: 37,
                flow_flags: 50,
                label: 87,
            },
        }
    }

    /// The name of the class of benign traffic.
    pub open spec fn benign_name() -> Seq<char> {
        "BENIGN"@
    }

    /// Every supported dataset.
    pub fn get_all_enum() -> (all: Vec<DatasetName>)
        ensures
            all@ == seq![DatasetName::IDS2017, DatasetName::DDoS2019],
    {
        let mut all: Vec<DatasetName> = Vec::new();
        all.push(DatasetName::IDS2017);
        all.push(DatasetName::DDoS2019);
        assert(all@ =~= seq![DatasetName::IDS2017, DatasetName::DDoS2019]);
        all
    }

    /// The name under which the dataset is known.
    pub fn name(&self) -> (out: &'static str)
        ensures
            out@ == self.spec_name(),
    {
        match self {
            DatasetName::IDS2017 => "CIC-IDS-2017",
            DatasetName::DDoS2019 => "CIC-DDoS-2019",
        }
    }

    /// The dataset that `input` names, letter for letter.
    pub fn from_name(input: &str) -> (out: Result<DatasetName, ParseDatasetNameError>)
        ensures
            match out {
                Ok(d) => input@ == d.spec_name(),
                Err(_) => forall|d: DatasetName| input@ != d.spec_name(),
            },
    {
        let text = chars_of(input);
        let pool = DatasetName::get_all_enum();
        let mut i: usize = 0;
        while i < pool.len()
            invariant
                i <= pool.len(),
                pool@ == seq![DatasetName::IDS2017, DatasetName::DDoS2019],
                text@ == input@,
                forall|j: int| 0 <= j < i ==> input@ != (#[trigger] pool[j]).spec_name(),
            decreases pool.len() - i,
        {
            let name = chars_of(pool[i].name());
            if same_text(&text, &name) {
                return Ok(pool[i]);
            }
            i += 1;
        }
        assert forall|d: DatasetName| input@ != d.spec_name() by {
            match d {
                DatasetName::IDS2017 => {
                    assert(pool[0] == d);
                },
                DatasetName::DDoS2019 => {
                    assert(pool[1] == d);
                },
            }
        }
        Err(ParseDatasetNameError)
    }

    /// How many columns a row of the dataset has.
    pub fn n_csv_columns(&self) -> (out: usize)
        ensures
            out == self.spec_layout().width,
    {
        match self {
            DatasetName::IDS2017 => 85,
            DatasetName::DDoS2019 => 88,
        }
    }

    /// The label of benign traffic, which has the number 1 in every file.
    pub fn benign_label(&self) -> (out: Label)
        ensures
            out.index == 1,
            out.name@ == DatasetName::benign_name(),
    {
        Label::new(1, "BENIGN".to_owned())
    }

    /// The layout of a row of the dataset.
    pub fn layout(&self) -> (out: ColumnLayout)
        ensures
            out == self.spec_layout(),
            out.wf(),
    {
        match self {
            DatasetName::IDS2017 => ColumnLayout {
                width: 85,
                src_ip: 1,
                src_port: 2,
                dst_ip: 3,
                dst_port: 4,
                protocol: 5,
                timestamp: 6,
                duration: 7,
                fwd_packets: 8,
                bwd_packets: 9,
                fwd_payload: 10,
                bwd_payload: 11,
                fwd_header: 40,
                bwd_header: 41,
                direction_flags: 36,
                flow_flags: 49,
                label: 84,
            },
            DatasetName::DDoS2019 => ColumnLayout {
                width: 88,
                src_ip: 2,
                src_port: 3,
                dst_ip: 4,
                dst_port: 5,
                protocol: 6,
                timestamp: 7,
                duration: 8,
                fwd_packets: 9,
                bwd_packets: 10,
                fwd_payload: 11,
                bwd_payload: 12,
                fwd_header: 41,
                bwd_header: 42,
                direction_flags: 37,
                flow_flags: 50,
                label: 87,
            },
        }
    }
}

impl std::str::FromStr for DatasetName {
    type Err = ParseDatasetNameError;

    fn from_str(input: &str) -> (out: Result<Self, Self::Err>)
        ensures
            match out {
                Ok(d) => input@ == d.spec_name(),
                Err(_) => forall|d: DatasetName| input@ != d.spec_name(),
            },
    {
        DatasetName::from_name(input)
    }
}

} // verus!
