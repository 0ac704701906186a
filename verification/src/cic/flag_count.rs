//! The twelve flag counters of a dataset row.

use vstd::prelude::*;
use crate::decimal::{parse_u32, unsigned_value};
use crate::nf::flags::Flags;
use crate::text::chars_of;

verus! {

/// How often each TCP control bit was counted in a flow. PSH and URG are
/// counted per direction as well as for the flow as a whole.
#[derive(Clone, Copy, Debug, PartialEq, Eq, Structural)]
pub struct CICFlagCount {
    pub fwd_psh: u32,
    pub bwd_psh: u32,
    pub fwd_urg: u32,
    pub bwd_urg: u32,
    pub fin: u32,
    pub syn: u32,
    pub rst: u32,
    pub psh: u32,
    pub ack: u32,
    pub urg: u32,
    pub cwr: u32,
    pub ece: u32,
}

/// A flag counter that is not a number.
#[derive(Clone, Copy, Debug, PartialEq, Eq, Structural)]
pub struct FlagCountError {
    /// Which of the twelve texts could not be read, counted from 0.
    pub position: usize,
}

impl CICFlagCount {
    /// The counters in the order in which `new` takes them.
    pub open spec fn counts(self) -> Seq<u32> {
        seq![
            self.fwd_psh,
            self.bwd_psh,
            self.fwd_urg,
            self.bwd_urg,
            self.fin,
            self.syn,
            self.rst,
            self.psh,
            self.ack,
            self.urg,
            self.cwr,
            self.ece,
        ]
    }

    /// The eight flags that the counters stand for: PSH and URG are set where
    /// the forward, the backward or the overall counter is not zero, each
    /// other flag where its own counter is not zero.
    pub open spec fn flags(self) -> Flags {
        Flags {
            cwr: self.cwr != 0,
            ece: self.ece != 0,
            urg: self.fwd_urg != 0 || self.bwd_urg != 0 || self.urg != 0,
            ack: self.ack != 0,
            psh: self.fwd_psh != 0 || self.bwd_psh != 0 || self.psh != 0,
            rst: self.rst != 0,
            syn: self.syn != 0,
            fin: self.fin != 0,
        }
    }

    /// Reads the twelve counters from their texts, in this order: forward
    /// PSH, backward PSH, forward URG, backward URG, FIN, SYN, RST, PSH, ACK,
    /// URG, CWR, ECE. Each text is read as `str::parse` reads a `u32`; the
    /// first one that is no such number is reported.
    pub fn new(s: [&str; 12]) -> (out: Result<CICFlagCount, FlagCountError>)
        ensures
            match out {
                Ok(c) => forall|i: int|
                    0 <= i < 12 ==> unsigned_value(#[trigger] s[i]@, u32::MAX as nat) == Some(
                        c.counts()[i] as nat,
                    ),
                Err(e) => {
                    &&& e.position < 12
                    &&& unsigned_value(s[e.position as int]@, u32::MAX as nat) is None
                    &&& forall|i: int|
                        0 <= i < e.position ==> unsigned_value(
                            #[trigger] s[i]@,
                            u32::MAX as nat,
                        ) is Some
                },
            },
    {
        let mut v: Vec<u32> = Vec::new();
        let mut i: usize = 0;
        while i < 12
            invariant
                i <= 12,
                v.len() == i,
                forall|j: int|
                    0 <= j < i ==> unsigned_value(#[trigger] s[j]@, u32::MAX as nat) == Some(
                        v[j] as nat,
                    ),
            decreases 12 - i,
        {
            let chars = chars_of(s[i]);
            match parse_u32(&chars) {
                Some(n) => v.push(n),
                None => {
                    return Err(FlagCountError { position: i });
                },
            }
            i += 1;
        }
        let c = CICFlagCount {
            fwd_psh: v[0],
            bwd_psh: v[1],
            fwd_urg: v[2],
            bwd_urg: v[3],
            fin: v[4],
            syn: v[5],
            rst: v[6],
            psh: v[7],
            ack: v[8],
            urg: v[9],
            cwr: v[10],
            ece: v[11],
        };
        assert(c.counts() =~= v@);
        Ok(c)
    }

    /// The eight flags that the counters stand for.
    pub fn to_flags(&self) -> (out: Flags)
        ensures
            out == self.flags(),
    {
        Flags {
            cwr: self.cwr != 0,
            ece: self.ece != 0,
            urg: self.fwd_urg != 0 || self.bwd_urg != 0 || self.urg != 0,
            ack: self.ack != 0,
            psh: self.fwd_psh != 0 || self.bwd_psh != 0 || self.psh != 0,
            rst: self.rst != 0,
            syn: self.syn != 0,
            fin: self.fin != 0,
        }
    }
}

} // verus!
