use cic2nf::hints::{parse_and_fix_is_am_list, parse_flag, HintError};

fn fixed(entries: &[&str], n_input: usize) -> Result<Vec<Option<bool>>, HintError> {
    let owned: Vec<String> = entries.iter().map(|e| e.to_string()).collect();
    parse_and_fix_is_am_list(owned.iter().collect(), n_input)
}

#[test]
fn the_entries_of_a_list_of_hints() {
    assert_eq!(parse_flag("0"), Some(None));
    assert_eq!(parse_flag("n"), Some(None));
    assert_eq!(parse_flag("1"), Some(Some(true)));
    assert_eq!(parse_flag("a"), Some(Some(true)));
    assert_eq!(parse_flag("2"), Some(Some(false)));
    assert_eq!(parse_flag("p"), Some(Some(false)));
    for entry in ["", "3", "A", "am", "00", " 0", "n "] {
        assert_eq!(parse_flag(entry), None, "{:?}", entry);
    }
}

#[test]
fn a_list_as_long_as_the_files() {
    assert_eq!(fixed(&["0", "a", "p"], 3), Ok(vec![None, Some(true), Some(false)]));
    assert_eq!(fixed(&["n", "1", "2"], 3), Ok(vec![None, Some(true), Some(false)]));
    assert_eq!(fixed(&[], 0), Ok(vec![]));
}

#[test]
fn a_list_that_is_too_long_loses_its_end() {
    assert_eq!(fixed(&["a", "p", "n", "a"], 2), Ok(vec![Some(true), Some(false)]));
    assert_eq!(fixed(&["a", "p", "junk"], 2), Ok(vec![Some(true), Some(false)]));
    assert_eq!(fixed(&["junk"], 0), Ok(vec![]));
}

#[test]
fn a_list_that_is_too_short_repeats_its_last_hint() {
    assert_eq!(
        fixed(&["a", "p"], 5),
        Ok(vec![Some(true), Some(false), Some(false), Some(false), Some(false)])
    );
    assert_eq!(fixed(&["n"], 3), Ok(vec![None, None, None]));
    assert_eq!(fixed(&["p", "a"], 3), Ok(vec![Some(false), Some(true), Some(true)]));
}

#[test]
fn a_list_that_cannot_be_used() {
    assert_eq!(fixed(&["a", "x", "y"], 3), Err(HintError::InvalidEntry { position: 1 }));
    assert_eq!(fixed(&["a", "p", ""], 5), Err(HintError::InvalidEntry { position: 2 }));
    assert_eq!(fixed(&["x", "p", "a"], 1), Err(HintError::InvalidEntry { position: 0 }));
    assert_eq!(fixed(&[], 2), Err(HintError::NoEntry));
}
