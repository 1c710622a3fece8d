//! Counting established TCP connections in the text of `/proc/net/tcp`.
use vstd::prelude::*;

use crate::text::{chars_of, split_lines, split_words, text_lines, words_of};

verus! {

/// The state column of a row for an established connection (`TCP_ESTABLISHED`).
pub open spec fn established_state() -> Seq<char> {
    seq!['0', '1']
}

/// The fourth whitespace-separated field of `line` (the `st` column) is `01`.
pub open spec fn row_is_established(line: Seq<char>) -> bool {
    words_of(line).len() > 3 && words_of(line)[3] == established_state()
}

/// The lines after the first (the header).
pub open spec fn rows_after_header(lines: Seq<Seq<char>>) -> Seq<Seq<char>> {
    if lines.len() == 0 {
        lines
    } else {
        lines.skip(1)
    }
}

/// The rows whose state is `01`.
pub open spec fn established_rows(rows: Seq<Seq<char>>) -> Seq<Seq<char>> {
    rows.filter(|line: Seq<char>| row_is_established(line))
}

/// The rows after the header line whose state is `01`, counted.
pub open spec fn established_count(contents: Seq<char>) -> nat {
    established_rows(rows_after_header(text_lines(contents))).len()
}

/// The count goes row by row: no rows count nothing, and one more row adds
/// one exactly when its fourth whitespace-separated field is `01`; a row in
/// any other state (`06`, `0A`, ...) or with fewer fields adds nothing.
pub proof fn lemma_established_rows_count_by_state(rows: Seq<Seq<char>>, line: Seq<char>)
    ensures
        established_rows(Seq::empty()).len() == 0,
        established_rows(rows.push(line)).len() == established_rows(rows).len() + if words_of(
            line,
        ).len() > 3 && words_of(line)[3] == seq!['0', '1'] {
            1nat
        } else {
            0nat
        },
{
    reveal(Seq::filter);
    assert(rows.push(line).drop_last() =~= rows);
}

pub struct NetworkProcCollector;

impl NetworkProcCollector {
    /// The number of established connections listed in `contents`, the text of
    /// `/proc/net/tcp`.
    pub fn active_connection_count(contents: &str) -> (r: usize)
        ensures
            r == established_count(contents@),
    {
        parse_active_connection_count(contents)
    }
}

/// The number of rows, after the header, whose fourth field is `01`; rows
/// with fewer fields count as not established.
pub fn parse_active_connection_count(contents: &str) -> (r: usize)
    ensures
        r == established_count(contents@),
{
    let chars = chars_of(contents);
    let lines = split_lines(&chars);
    let ghost all = text_lines(contents@);
    let ghost rows = rows_after_header(all);
    let mut count: usize = 0;
    let mut i: usize = 1;
    if lines.len() == 0 {
        proof {
            assert(rows =~= Seq::<Seq<char>>::empty());
            reveal(Seq::filter);
        }
        return 0;
    }
    while i < lines.len()
        invariant
            1 <= i <= lines@.len(),
            lines@.len() == all.len(),
            forall|k: int| 0 <= k < lines@.len() ==> #[trigger] lines@[k]@ == all[k],
            rows == all.skip(1),
            count == established_rows(rows.take(i - 1)).len(),
            count <= i - 1,
        decreases lines@.len() - i,
    {
        let established = is_established_row(&lines[i]);
        proof {
            reveal(Seq::filter);
            assert(rows.take(i as int).drop_last() =~= rows.take(i - 1));
            assert(rows.take(i as int).last() == all[i as int]);
            
        }
        if established {
            count = count + 1;
        }
        i = i + 1;
    }
    proof {
        assert(rows.take(i - 1) =~= rows);
    }
    count
}

/// The fourth field of a row (its state), if it has one.
fn parse_tcp_state(line: &Vec<char>) -> (r: Option<Vec<char>>)
    ensures
        r is Some <==> words_of(line@).len() > 3,
        r matches Some(state) ==> state@ == words_of(line@)[3],
{
    let mut words = split_words(line);
    if words.len() > 3 {
        Some(words.swap_remove(3))
    } else {
        None
    }
}

fn is_established_row(line: &Vec<char>) -> (r: bool)
    ensures
        r == row_is_established(line@),
{
    match parse_tcp_state(line) {
        Some(state) => {
            let established = state.len() == 2 && state[0] == '0' && state[1] == '1';
            proof {
                if established {
                    assert(state@ =~= established_state());
                }
            }
            established
        },
        None => false,
    }
}

} // verus!
