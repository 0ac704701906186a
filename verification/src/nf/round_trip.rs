//! Reading back what was written: the words of a written line are its
//! fields, and each field is read as the value it was written from.

use vstd::prelude::*;
use crate::cic::label::LabelView;
use crate::cic::time::{datetime_read, line_pattern, stamp_of, FlowTimeStamp};
use crate::decimal::{
    all_digits,
    decimal_text,
    digits_value,
    is_digit,
    lemma_decimal_round_trip,
    lemma_decimal_text,
    lemma_digit_count_bound,
    lemma_digits_value_concat,
    lemma_zeros_value,
    pow10,
    signed_value,
    without_plus,
};
use crate::nf::flow::NetFlowView;
use crate::nf::io::{
    arrow,
    duration_of,
    endpoint_cell,
    endpoint_of,
    endpoint_word,
    fields_read,
    fields_text,
    line_read,
    line_text,
    port_text,
    seconds_text,
    stamp_text,
    without_dots,
    LineError,
};
use crate::text::{
    is_space,
    is_word,
    lemma_first_index,
    lemma_words_after_joined,
    lemma_words_of_padded,
    repeated,
    right_aligned,
    words,
    zero_filled,
};

verus! {

/// Whether `s` holds no colon.
pub open spec fn has_no_colon(s: Seq<char>) -> bool {
    forall|i: int| 0 <= i < s.len() ==> #[trigger] s[i] != ':'
}

/// A run of digits is one word and holds neither a colon nor a decimal
/// point.
pub proof fn lemma_digits_are_plain(s: Seq<char>)
    requires
        all_digits(s),
    ensures
        is_word(s),
        has_no_colon(s),
        without_dots(s) == s,
    decreases s.len(),
{
    assert forall|i: int| 0 <= i < s.len() implies !is_space(#[trigger] s[i]) by {
        assert(is_digit(s[i]));
    }
    assert forall|i: int| 0 <= i < s.len() implies #[trigger] s[i] != ':' by {
        assert(is_digit(s[i]));
    }
    if s.len() > 0 {
        assert(is_digit(s.last()));
        assert(all_digits(s.drop_last())) by {
            assert forall|i: int| 0 <= i < s.drop_last().len() implies is_digit(
                #[trigger] s.drop_last()[i],
            ) by {
                assert(s.drop_last()[i] == s[i]);
            }
        }
        lemma_digits_are_plain(s.drop_last());
        assert(s.drop_last().push(s.last()) == s);
    }
}

/// A word at the right end of a column is that word.
pub proof fn lemma_words_right_aligned(w: Seq<char>, width: nat)
    requires
        is_word(w),
        w.len() > 0,
    ensures
        words(right_aligned(w, width)) == seq![w],
{
    let before = if w.len() >= width {
        0nat
    } else {
        (width - w.len()) as nat
    };
    assert(right_aligned(w, width) =~= repeated(' ', before) + w + repeated(' ', 0));
    lemma_words_of_padded(before, w, 0);
}

/// What the words of an endpoint cell are.
pub proof fn lemma_words_endpoint(ip: Seq<char>, port: u32)
    requires
        is_word(ip),
    ensures
        words(endpoint_cell(ip, port)) == seq![endpoint_word(ip, port)],
        is_word(endpoint_word(ip, port)),
        endpoint_word(ip, port).len() > 0,
{
    let digits = decimal_text(port as nat);
    lemma_decimal_text(port as nat);
    lemma_digits_are_plain(digits);
    let w = endpoint_word(ip, port);
    assert forall|i: int| 0 <= i < w.len() implies !is_space(#[trigger] w[i]) by {
        if i < ip.len() {
            assert(w[i] == ip[i]);
        } else if i == ip.len() {
            assert(w[i] == ':');
        } else {
            assert(w[i] == digits[i - ip.len() - 1]);
        }
    }
    let before = if ip.len() >= 15 {
        0nat
    } else {
        (15 - ip.len()) as nat
    };
    let behind = if digits.len() >= 5 {
        0nat
    } else {
        (5 - digits.len()) as nat
    };
    assert(endpoint_cell(ip, port) =~= repeated(' ', before) + w + repeated(' ', behind));
    lemma_words_of_padded(before, w, behind);
}

/// A text that ends in a cell of one word has the words of what stands
/// before the cell and then that word.
pub proof fn lemma_words_then_cell(front: Seq<char>, cell: Seq<char>, w: Seq<char>)
    requires
        words(cell) == seq![w],
    ensures
        words(front + seq![' '] + cell) == words(front).push(w),
{
    lemma_words_after_joined(front, cell, Seq::empty());
    assert(words(front) + seq![w] == words(front).push(w));
}

/// The duration as it is written is one word that is read back as the
/// duration, provided the duration is a whole number of milliseconds.
pub proof fn lemma_duration_round_trip(micros: u64)
    requires
        micros % 1000 == 0,
    ensures
        is_word(seconds_text(micros)),
        seconds_text(micros).len() > 0,
        duration_of(seconds_text(micros)) == Some(micros),
{
    let ms = (micros / 1000) as nat;
    let whole = decimal_text(ms / 1000);
    let part = decimal_text(ms % 1000);
    let filled = zero_filled(part, 3);
    let text = seconds_text(micros);
    lemma_decimal_text(ms / 1000);
    lemma_decimal_text(ms % 1000);
    assert(pow10(3) == 1000) by {
        reveal_with_fuel(pow10, 4);
    }
    lemma_digit_count_bound(ms % 1000, 3);
    let zeros = repeated('0', (3 - part.len()) as nat);
    lemma_zeros_value((3 - part.len()) as nat);
    assert(filled =~= zeros + part);
    assert(filled.len() == 3);
    lemma_digits_value_concat(zeros, part);
    assert(digits_value(filled) == ms % 1000) by {
        assert(0 * pow10(part.len()) == 0);
    }
    assert(all_digits(filled)) by {
        assert forall|i: int| 0 <= i < filled.len() implies is_digit(#[trigger] filled[i]) by {
            if i < zeros.len() {
                assert(filled[i] == zeros[i]);
            } else {
                assert(filled[i] == part[i - zeros.len()]);
            }
        }
    }
    lemma_digits_are_plain(whole);
    lemma_digits_are_plain(filled);
    assert(text == whole + seq!['.'] + filled);
    assert forall|i: int| 0 <= i < text.len() implies !is_space(#[trigger] text[i]) by {
        if i < whole.len() {
            assert(text[i] == whole[i]);
        } else if i == whole.len() {
            assert(text[i] == '.');
        } else {
            assert(text[i] == filled[i - whole.len() - 1]);
        }
    }
    let joined = whole + filled;
    assert(without_dots(text) == joined) by {
        lemma_without_dots_concat(whole + seq!['.'], filled);
        assert((whole + seq!['.']).drop_last() == whole);
        assert(without_dots(whole + seq!['.']) == whole);
    }
    lemma_digits_value_concat(whole, filled);
    assert(digits_value(joined) == ms) by {
        assert(digits_value(joined) == (ms / 1000) * 1000 + ms % 1000);
    }
    assert(all_digits(joined)) by {
        assert forall|i: int| 0 <= i < joined.len() implies is_digit(#[trigger] joined[i]) by {
            if i < whole.len() {
                assert(joined[i] == whole[i]);
            } else {
                assert(joined[i] == filled[i - whole.len()]);
            }
        }
    }
    assert(is_digit(joined[0]));
    assert(without_plus(joined) == joined);
    assert(signed_value(joined, i64::MIN as int, i64::MAX as int) == Some(ms as int));
}

/// Taking the decimal points out of two texts, one behind the other.
pub proof fn lemma_without_dots_concat(a: Seq<char>, b: Seq<char>)
    ensures
        without_dots(a + b) == without_dots(a) + without_dots(b),
    decreases b.len(),
{
    if b.len() == 0 {
        assert(a + b == a);
        assert(without_dots(a) + without_dots(b) == without_dots(a));
    } else {
        assert((a + b).drop_last() == a + b.drop_last());
        assert((a + b).last() == b.last());
        lemma_without_dots_concat(a, b.drop_last());
        if b.last() != '.' {
            assert((without_dots(a) + without_dots(b.drop_last())).push(b.last()) == without_dots(
                a,
            ) + without_dots(b.drop_last()).push(b.last()));
        }
    }
}

/// An endpoint as it is written is read back as the same address and port,
/// provided the address holds no colon.
pub proof fn lemma_endpoint_round_trip(ip: Seq<char>, port: u32)
    requires
        has_no_colon(ip),
    ensures
        endpoint_of(endpoint_word(ip, port)) == Some((ip, port)),
{
    let digits = decimal_text(port as nat);
    let w = endpoint_word(ip, port);
    lemma_decimal_text(port as nat);
    lemma_digits_are_plain(digits);
    lemma_decimal_round_trip(port as nat, u32::MAX as nat);
    assert(w[ip.len() as int] == ':');
    assert forall|j: int| 0 <= j < ip.len() implies #[trigger] w[j] != ':' by {
        assert(w[j] == ip[j]);
    }
    lemma_first_index(w, ':', ip.len() as int);
    let rest = w.skip(ip.len() as int + 1);
    assert(rest == digits);
    lemma_first_index(rest, ':', rest.len() as int);
    assert(rest.take(rest.len() as int) == rest);
    assert(port_text(w) == digits);
    assert(w.take(ip.len() as int) == ip);
}

/// Whether a flow is read back from its line as it was written: its
/// addresses hold neither white space nor a colon, and its duration is a
/// whole number of milliseconds.
pub open spec fn can_be_read_back(nf: NetFlowView) -> bool {
    &&& is_word(nf.src_ip)
    &&& has_no_colon(nf.src_ip)
    &&& is_word(nf.dst_ip)
    &&& has_no_colon(nf.dst_ip)
    &&& nf.duration % 1000 == 0
}

/// The flow as it is read back: the timestamp and the label are those given
/// at reading, and the column widths are not set.
pub open spec fn read_back(nf: NetFlowView, timestamp: FlowTimeStamp, label: LabelView) -> NetFlowView {
    NetFlowView { timestamp, label, width_duration_str: 0, width_n_bytes_packet: 0, ..nf }
}

/// The ten words that stand on the line of a flow behind its timestamp.
pub open spec fn field_words(nf: NetFlowView) -> Seq<Seq<char>> {
    seq![
        seconds_text(nf.duration),
        decimal_text(nf.protocol as nat),
        endpoint_word(nf.src_ip, nf.src_port),
        arrow(),
        endpoint_word(nf.dst_ip, nf.dst_port),
        nf.flags.text(),
        decimal_text(nf.qos as nat),
        decimal_text(nf.n_packet as nat),
        decimal_text(nf.n_bytes_packet as nat),
        decimal_text(nf.n_flow as nat),
    ]
}

/// A number at the right end of a column is one word, its numeral.
pub proof fn lemma_words_number(n: nat, width: nat)
    ensures
        words(right_aligned(decimal_text(n), width)) == seq![decimal_text(n)],
{
    lemma_decimal_text(n);
    lemma_digits_are_plain(decimal_text(n));
    lemma_words_right_aligned(decimal_text(n), width);
}

/// What stands behind the timestamp falls into the ten words of the fields.
pub proof fn lemma_words_of_fields(nf: NetFlowView)
    requires
        is_word(nf.src_ip),
        is_word(nf.dst_ip),
        nf.duration % 1000 == 0,
    ensures
        words(fields_text(nf)) == field_words(nf),
{
    let sp = seq![' '];
    let w = field_words(nf);
    let cell1 = right_aligned(seconds_text(nf.duration), nf.width_duration_str as nat);
    let cell2 = right_aligned(decimal_text(nf.protocol as nat), 3);
    let cell3 = endpoint_cell(nf.src_ip, nf.src_port);
    let cell4 = arrow();
    let cell5 = endpoint_cell(nf.dst_ip, nf.dst_port);
    let cell6 = nf.flags.text();
    let cell7 = right_aligned(decimal_text(nf.qos as nat), 3);
    let cell8 = right_aligned(decimal_text(nf.n_packet as nat), 3);
    let cell9 = right_aligned(
        decimal_text(nf.n_bytes_packet as nat),
        nf.width_n_bytes_packet as nat,
    );
    let cell10 = right_aligned(decimal_text(nf.n_flow as nat), 5);
    let upto1 = cell1;
    let upto2 = upto1 + sp + cell2;
    let upto3 = upto2 + sp + cell3;
    let upto4 = upto3 + sp + cell4;
    let upto5 = upto4 + sp + cell5;
    let upto6 = upto5 + sp + cell6;
    let upto7 = upto6 + sp + cell7;
    let upto8 = upto7 + sp + cell8;
    let upto9 = upto8 + sp + cell9;
    let upto10 = upto9 + sp + cell10;
    assert(fields_text(nf) == upto10);
    assert(words(upto1) == seq![w[0]]) by {
        lemma_duration_round_trip(nf.duration);
        lemma_words_right_aligned(seconds_text(nf.duration), nf.width_duration_str as nat);
    }
    assert(words(upto2) == seq![w[0], w[1]]) by {
        lemma_words_number(nf.protocol as nat, 3);
        lemma_words_then_cell(upto1, cell2, w[1]);
        assert(seq![w[0]].push(w[1]) == seq![w[0], w[1]]);
    }
    assert(words(upto3) == seq![w[0], w[1], w[2]]) by {
        lemma_words_endpoint(nf.src_ip, nf.src_port);
        lemma_words_then_cell(upto2, cell3, w[2]);
        assert(seq![w[0], w[1]].push(w[2]) == seq![w[0], w[1], w[2]]);
    }
    assert(words(upto4) == seq![w[0], w[1], w[2], w[3]]) by {
        assert(is_word(cell4));
        assert(cell4 =~= repeated(' ', 0) + cell4 + repeated(' ', 0));
        lemma_words_of_padded(0, cell4, 0);
        lemma_words_then_cell(upto3, cell4, w[3]);
        assert(seq![w[0], w[1], w[2]].push(w[3]) == seq![w[0], w[1], w[2], w[3]]);
    }
    assert(words(upto5) == seq![w[0], w[1], w[2], w[3], w[4]]) by {
        lemma_words_endpoint(nf.dst_ip, nf.dst_port);
        lemma_words_then_cell(upto4, cell5, w[4]);
        assert(seq![w[0], w[1], w[2], w[3]].push(w[4]) == seq![w[0], w[1], w[2], w[3], w[4]]);
    }
    assert(words(upto6) == seq![w[0], w[1], w[2], w[3], w[4], w[5]]) by {
        nf.flags.lemma_text_round_trip();
        assert(is_word(cell6)) by {
            assert forall|i: int| 0 <= i < cell6.len() implies !is_space(#[trigger] cell6[i]) by {}
        }
        assert(cell6 =~= repeated(' ', 0) + cell6 + repeated(' ', 0));
        lemma_words_of_padded(0, cell6, 0);
        lemma_words_then_cell(upto5, cell6, w[5]);
        assert(seq![w[0], w[1], w[2], w[3], w[4]].push(w[5]) == seq![
            w[0],
            w[1],
            w[2],
            w[3],
            w[4],
            w[5],
        ]);
    }
    assert(words(upto7) == seq![w[0], w[1], w[2], w[3], w[4], w[5], w[6]]) by {
        lemma_words_number(nf.qos as nat, 3);
        lemma_words_then_cell(upto6, cell7, w[6]);
        assert(seq![w[0], w[1], w[2], w[3], w[4], w[5]].push(w[6]) == seq![
            w[0],
            w[1],
            w[2],
            w[3],
            w[4],
            w[5],
            w[6],
        ]);
    }
    assert(words(upto8) == seq![w[0], w[1], w[2], w[3], w[4], w[5], w[6], w[7]]) by {
        lemma_words_number(nf.n_packet as nat, 3);
        lemma_words_then_cell(upto7, cell8, w[7]);
        assert(seq![w[0], w[1], w[2], w[3], w[4], w[5], w[6]].push(w[7]) == seq![
            w[0],
            w[1],
            w[2],
            w[3],
            w[4],
            w[5],
            w[6],
            w[7],
        ]);
    }
    assert(words(upto9) == seq![w[0], w[1], w[2], w[3], w[4], w[5], w[6], w[7], w[8]]) by {
        lemma_words_number(nf.n_bytes_packet as nat, nf.width_n_bytes_packet as nat);
        lemma_words_then_cell(upto8, cell9, w[8]);
        assert(seq![w[0], w[1], w[2], w[3], w[4], w[5], w[6], w[7]].push(w[8]) == seq![
            w[0],
            w[1],
            w[2],
            w[3],
            w[4],
            w[5],
            w[6],
            w[7],
            w[8],
        ]);
    }
    assert(words(upto10) == w) by {
        lemma_words_number(nf.n_flow as nat, 5);
        lemma_words_then_cell(upto9, cell10, w[9]);
        assert(seq![w[0], w[1], w[2], w[3], w[4], w[5], w[6], w[7], w[8]].push(w[9]) == w);
    }
}

/// A written line falls into the two words of its timestamp and the ten
/// words of its fields.
pub proof fn lemma_words_of_line(date: Seq<char>, time: Seq<char>, nf: NetFlowView)
    requires
        is_word(date),
        date.len() > 0,
        is_word(time),
        time.len() > 0,
        is_word(nf.src_ip),
        is_word(nf.dst_ip),
        nf.duration % 1000 == 0,
    ensures
        words(line_text(date + seq![' '] + time, nf)) == seq![date, time] + field_words(nf),
{
    let stamp = date + seq![' '] + time;
    lemma_words_of_fields(nf);
    lemma_words_after_joined(stamp, fields_text(nf), Seq::empty());
    assert(words(date) == seq![date]) by {
        assert(date =~= repeated(' ', 0) + date + repeated(' ', 0));
        lemma_words_of_padded(0, date, 0);
    }
    assert(words(time) == seq![time]) by {
        assert(time =~= repeated(' ', 0) + time + repeated(' ', 0));
        lemma_words_of_padded(0, time, 0);
    }
    lemma_words_after_joined(date, time, Seq::empty());
    assert(seq![date] + seq![time] == seq![date, time]);
}

/// What was written behind the timestamp is read back as it was: from the
/// words of a written line `fields_read` gives the flow that was written,
/// with the timestamp and the label given at reading and without column
/// widths.
pub proof fn lemma_fields_round_trip(
    date: Seq<char>,
    time: Seq<char>,
    nf: NetFlowView,
    timestamp: FlowTimeStamp,
    label: LabelView,
)
    requires
        is_word(date),
        date.len() > 0,
        is_word(time),
        time.len() > 0,
        can_be_read_back(nf),
    ensures
        words(line_text(date + seq![' '] + time, nf)).len() == 12,
        stamp_text(words(line_text(date + seq![' '] + time, nf))) == date + seq![' '] + time,
        fields_read(words(line_text(date + seq![' '] + time, nf)), timestamp, label) == Ok::<
            NetFlowView,
            LineError,
        >(read_back(nf, timestamp, label)),
{
    let w = words(line_text(date + seq![' '] + time, nf));
    lemma_words_of_line(date, time, nf);
    let f = field_words(nf);
    assert(w.len() == 12);
    assert(w[0] == date && w[1] == time);
    assert(w[2] == f[0] && w[3] == f[1] && w[4] == f[2] && w[5] == f[3] && w[6] == f[4] && w[7]
        == f[5]);
    assert(w[8] == f[6] && w[9] == f[7] && w[10] == f[8] && w[11] == f[9]);
    lemma_duration_round_trip(nf.duration);
    lemma_decimal_round_trip(nf.protocol as nat, u8::MAX as nat);
    lemma_endpoint_round_trip(nf.src_ip, nf.src_port);
    lemma_endpoint_round_trip(nf.dst_ip, nf.dst_port);
    nf.flags.lemma_text_round_trip();
    lemma_decimal_round_trip(nf.qos as nat, u8::MAX as nat);
    lemma_decimal_round_trip(nf.n_packet as nat, u32::MAX as nat);
    lemma_decimal_round_trip(nf.n_bytes_packet as nat, usize::MAX as nat);
    lemma_decimal_round_trip(nf.n_flow as nat, u32::MAX as nat);
}

/// A flow that was written to a line and is read back from it is the flow
/// that was written, but for the label, which is given at reading, and the
/// column widths, which are not set. This holds of a flow that
/// `can_be_read_back`, where the timestamp was written as a date and a time
/// with a space between them and is read from that text as it was.
pub proof fn lemma_line_round_trip(
    date: Seq<char>,
    time: Seq<char>,
    nf: NetFlowView,
    label: LabelView,
)
    requires
        is_word(date),
        date.len() > 0,
        is_word(time),
        time.len() > 0,
        can_be_read_back(nf),
        datetime_read(date + seq![' '] + time, line_pattern()) == Some(
            (nf.timestamp.secs as int, nf.timestamp.nanos as int),
        ),
    ensures
        line_read(line_text(date + seq![' '] + time, nf), label) == Ok::<NetFlowView, LineError>(
            read_back(nf, nf.timestamp, label),
        ),
{
    lemma_fields_round_trip(date, time, nf, nf.timestamp, label);
    assert(stamp_of((nf.timestamp.secs as int, nf.timestamp.nanos as int)) == nf.timestamp);
}

} // verus!
