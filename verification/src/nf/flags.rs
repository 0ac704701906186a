//! The eight TCP control bits of a flow.

use vstd::prelude::*;
use vstd::std_specs::convert::FromSpecImpl;

verus! {

/// Which of the eight TCP control bits were seen in a flow.
#[derive(Clone, Copy, Debug, PartialEq, Eq, Structural)]
pub struct Flags {
    pub cwr: bool,
    pub ece: bool,
    pub urg: bool,
    pub ack: bool,
    pub psh: bool,
    pub rst: bool,
    pub syn: bool,
    pub fin: bool,
}

/// The letter of a bit that is set, or a dot for one that is not.
pub open spec fn flag_char(set: bool, letter: char) -> char {
    if set {
        letter
    } else {
        '.'
    }
}

impl Flags {
    /// The bits in the order in which they are written: C, E, U, A, P, R, S, F.
    pub open spec fn bits(self) -> Seq<bool> {
        seq![self.cwr, self.ece, self.urg, self.ack, self.psh, self.rst, self.syn, self.fin]
    }

    /// The flags whose bits are the first eight entries of `b`, an entry that
    /// `b` lacks counting as unset.
    pub open spec fn of_bits(b: Seq<bool>) -> Flags {
        Flags {
            cwr: 0 < b.len() && b[0],
            ece: 1 < b.len() && b[1],
            urg: 2 < b.len() && b[2],
            ack: 3 < b.len() && b[3],
            psh: 4 < b.len() && b[4],
            rst: 5 < b.len() && b[5],
            syn: 6 < b.len() && b[6],
            fin: 7 < b.len() && b[7],
        }
    }

    /// The bitmap as it stands on an output line: eight characters, each the
    /// letter of its bit or a dot.
    pub open spec fn text(self) -> Seq<char> {
        seq![
            flag_char(self.cwr, 'C'),
            flag_char(self.ece, 'E'),
            flag_char(self.urg, 'U'),
            flag_char(self.ack, 'A'),
            flag_char(self.psh, 'P'),
            flag_char(self.rst, 'R'),
            flag_char(self.syn, 'S'),
            flag_char(self.fin, 'F'),
        ]
    }

    /// The bits that a bitmap text stands for: every character but the dot
    /// counts as set.
    pub open spec fn bits_of_text(s: Seq<char>) -> Seq<bool> {
        Seq::new(s.len(), |i: int| s[i] != '.')
    }

    /// Appends the bitmap to `out`.
    pub fn push_text(&self, out: &mut Vec<char>)
        ensures
            final(out)@ == old(out)@ + self.text(),
    {
        out.push(if self.cwr { 'C' } else { '.' });
        out.push(if self.ece { 'E' } else { '.' });
        out.push(if self.urg { 'U' } else { '.' });
        out.push(if self.ack { 'A' } else { '.' });
        out.push(if self.psh { 'P' } else { '.' });
        out.push(if self.rst { 'R' } else { '.' });
        out.push(if self.syn { 'S' } else { '.' });
        out.push(if self.fin { 'F' } else { '.' });
        assert(final(out)@ =~= old(out)@ + self.text());
    }

    /// The bitmap as a string.
    pub fn to_text(&self) -> (out: String)
        ensures
            out@ == self.text(),
    {
        let mut chars: Vec<char> = Vec::new();
        self.push_text(&mut chars);
        crate::text::string_of(&chars)
    }

    /// The flags of a list of at most eight bits, in the order C, E, U, A, P,
    /// R, S, F; bits that the list lacks are unset. A longer list has no flags.
    pub fn from_bools(list: &Vec<bool>) -> (out: Option<Flags>)
        ensures
            out == if list@.len() <= 8 {
                Some(Flags::of_bits(list@))
            } else {
                None
            },
    {
        let n = list.len();
        if n > 8 {
            return None;
        }
        Some(
            Flags {
                cwr: 0 < n && list[0],
                ece: 1 < n && list[1],
                urg: 2 < n && list[2],
                ack: 3 < n && list[3],
                psh: 4 < n && list[4],
                rst: 5 < n && list[5],
                syn: 6 < n && list[6],
                fin: 7 < n && list[7],
            },
        )
    }

    /// The flags that a bitmap of at most eight characters stands for. A
    /// longer text has no flags.
    pub fn from_chars(s: &Vec<char>) -> (out: Option<Flags>)
        ensures
            out == if s@.len() <= 8 {
                Some(Flags::of_bits(Flags::bits_of_text(s@)))
            } else {
                None
            },
    {
        let n = s.len();
        if n > 8 {
            return None;
        }
        Some(
            Flags {
                cwr: 0 < n && s[0] != '.',
                ece: 1 < n && s[1] != '.',
                urg: 2 < n && s[2] != '.',
                ack: 3 < n && s[3] != '.',
                psh: 4 < n && s[4] != '.',
                rst: 5 < n && s[5] != '.',
                syn: 6 < n && s[6] != '.',
                fin: 7 < n && s[7] != '.',
            },
        )
    }

    /// The flags that a bitmap text of at most eight characters stands for.
    pub fn from_text(s: &str) -> (out: Option<Flags>)
        ensures
            out == if s@.len() <= 8 {
                Some(Flags::of_bits(Flags::bits_of_text(s@)))
            } else {
                None
            },
    {
        let chars = crate::text::chars_of(s);
        Flags::from_chars(&chars)
    }

    /// Reading back a written bitmap gives the flags that were written.
    pub proof fn lemma_text_round_trip(self)
        ensures
            self.text().len() == 8,
            Flags::of_bits(Flags::bits_of_text(self.text())) == self,
            forall|i: int| 0 <= i < 8 ==> !crate::text::is_space(#[trigger] self.text()[i]),
    {
    }
}

impl From<[bool; 8]> for Flags {
    fn from(b: [bool; 8]) -> (out: Flags) {
        Flags {
            cwr: b[0],
            ece: b[1],
            urg: b[2],
            ack: b[3],
            psh: b[4],
            rst: b[5],
            syn: b[6],
            fin: b[7],
        }
    }
}

impl FromSpecImpl<[bool; 8]> for Flags {
    open spec fn obeys_from_spec() -> bool {
        true
    }

    open spec fn from_spec(b: [bool; 8]) -> Flags {
        Flags::of_bits(b@)
    }
}

} // verus!
