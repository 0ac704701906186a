//! The caller's hints on the half of the day in which the timestamps of each
//! input file lie.

use vstd::prelude::*;
use crate::text::chars_of;

verus! {

/// Why a list of hints cannot be used.
#[derive(Clone, Copy, Debug, PartialEq, Eq, Structural)]
pub enum HintError {
    /// The entry at this position, counted from 0, is no hint.
    InvalidEntry { position: usize },
    /// The list is empty although there are input files.
    NoEntry,
}

/// The hint that an entry stands for: `0` or `n` for no hint, `1` or `a` for
/// the morning, `2` or `p` for the evening. Any other entry is no hint.
pub open spec fn hint_of(entry: Seq<char>) -> Option<Option<bool>> {
    if entry.len() != 1 {
        None
    } else if entry[0] == '0' || entry[0] == 'n' {
        Some(None)
    } else if entry[0] == '1' || entry[0] == 'a' {
        Some(Some(true))
    } else if entry[0] == '2' || entry[0] == 'p' {
        Some(Some(false))
    } else {
        None
    }
}

/// The position of the first of the first `n` entries from `from` on that is
/// no hint, or `n` where all are hints.
pub open spec fn first_invalid(list: Seq<Seq<char>>, from: int, n: int) -> int
    decreases n - from,
{
    if from >= n {
        n
    } else if hint_of(list[from]) is None {
        from
    } else {
        first_invalid(list, from + 1, n)
    }
}

/// The hints for `n_input` files that a list of entries gives. Entries
/// beyond the number of files are dropped unread. Where the list is shorter
/// than the number of files, its last hint stands for each file that is
/// left.
pub open spec fn fixed_hints(list: Seq<Seq<char>>, n_input: nat) -> Result<
    Seq<Option<bool>>,
    HintError,
> {
    let used = if list.len() > n_input {
        n_input as int
    } else {
        list.len() as int
    };
    if first_invalid(list, 0, used) < used {
        Err(HintError::InvalidEntry { position: first_invalid(list, 0, used) as usize })
    } else if list.len() == 0 && n_input > 0 {
        Err(HintError::NoEntry)
    } else {
        Ok(
            Seq::new(
                n_input,
                |i: int|
                    if i < list.len() {
                        hint_of(list[i])->0
                    } else {
                        hint_of(list[list.len() - 1])->0
                    },
            ),
        )
    }
}

/// The entries of a list as plain text.
pub open spec fn entry_texts(list: Seq<&String>) -> Seq<Seq<char>> {
    list.map_values(|s: &String| s@)
}

/// What `first_invalid` finds, given the position of the first entry that is
/// no hint.
pub proof fn lemma_first_invalid(list: Seq<Seq<char>>, from: int, n: int, bad: int)
    requires
        0 <= from <= bad <= n,
        forall|i: int| from <= i < bad ==> hint_of(#[trigger] list[i]) is Some,
        bad < n ==> hint_of(list[bad]) is None,
    ensures
        first_invalid(list, from, n) == bad,
    decreases bad - from,
{
    if from < bad {
        assert(hint_of(list[from]) is Some);
        lemma_first_invalid(list, from + 1, n, bad);
    }
}

/// Calls `itertools::concat` on the two lists, which extends the first by
/// the items of the second.
#[verifier::external_body]
pub(crate) fn concat_hints(first: Vec<Option<bool>>, second: Vec<Option<bool>>) -> (out: Vec<
    Option<bool>,
>)
    ensures
        out@ == first@ + second@,
{
    itertools::concat([first, second])
}

/// Reads one entry of a list of hints.
pub fn parse_flag(flag: &str) -> (out: Option<Option<bool>>)
    ensures
        out == hint_of(flag@),
{
    let chars = chars_of(flag);
    if chars.len() != 1 {
        return None;
    }
    let c = chars[0];
    if c == '0' || c == 'n' {
        Some(None)
    } else if c == '1' || c == 'a' {
        Some(Some(true))
    } else if c == '2' || c == 'p' {
        Some(Some(false))
    } else {
        None
    }
}

/// Turns a list of entries into one hint for each of `n_input` files: see
/// `fixed_hints`.
#[verifier::loop_isolation(false)]
pub fn parse_and_fix_is_am_list(is_am_list: Vec<&String>, n_input: usize) -> (out: Result<
    Vec<Option<bool>>,
    HintError,
>)
    ensures
        match fixed_hints(entry_texts(is_am_list@), n_input as nat) {
            Ok(hints) => out matches Ok(v) && v@ == hints,
            Err(e) => out matches Err(x) && x == e,
        },
{
    let ghost list = entry_texts(is_am_list@);
    let used: usize = if is_am_list.len() > n_input {
        n_input
    } else {
        is_am_list.len()
    };
    let mut first_part: Vec<Option<bool>> = Vec::new();
    let mut i: usize = 0;
    while i < used
        invariant
            i <= used <= is_am_list.len(),
            list == entry_texts(is_am_list@),
            first_part.len() == i,
            forall|j: int| 0 <= j < i ==> hint_of(#[trigger] list[j]) == Some(first_part[j]),
        decreases used - i,
    {
        assert(list[i as int] == is_am_list[i as int]@);
        match parse_flag(is_am_list[i].as_str()) {
            Some(hint) => {
                first_part.push(hint);
            },
            None => {
                proof {
                    lemma_first_invalid(list, 0, used as int, i as int);
                }
                return Err(HintError::InvalidEntry { position: i });
            },
        }
        i += 1;
    }
    proof {
        lemma_first_invalid(list, 0, used as int, used as int);
    }
    if is_am_list.len() >= n_input {
        assert(first_part@ =~= fixed_hints(list, n_input as nat)->Ok_0);
        return Ok(first_part);
    }
    if first_part.len() == 0 {
        return Err(HintError::NoEntry);
    }
    let n_missing: usize = n_input - is_am_list.len();
    let last: Option<bool> = first_part[first_part.len() - 1];
    let mut last_part: Vec<Option<bool>> = Vec::new();
    let mut k: usize = 0;
    while k < n_missing
        invariant
            k <= n_missing,
            last_part.len() == k,
            forall|j: int| 0 <= j < k ==> last_part[j] == last,
        decreases n_missing - k,
    {
        last_part.push(last);
        k += 1;
    }
    let ghost head = first_part@;
    let ghost tail = last_part@;
    let out = concat_hints(first_part, last_part);
    assert(out@ =~= fixed_hints(list, n_input as nat)->Ok_0) by {
        assert(out@ == head + tail);
    }
    Ok(out)
}

} // verus!
