//! Extraction of a backlog length from a socket listing, and of a process
//! identifier from the runtime's process lookup.
//!
//! The socket listing is line-oriented text: one listening socket per line,
//! whitespace-delimited columns, the receive-queue length in the third
//! column. The line of interest is the first one naming the monitored
//! workload's well-known socket path. Every failure to find or read the
//! value degrades to a backlog of zero, never to an error.

use crate::text::{
    contains_seq, contains_str, parse_u32_dec, spec_parse_u32, spec_split, spec_tokens, spec_trim,
    split_char, split_ws_tokens, trim_str,
};
use vstd::prelude::*;

verus! {

/// The well-known path of the monitored workload's listening socket.
pub open spec fn socket_path() -> Seq<char> {
    "/var/run/php-fpm/www.socket"@
}

/// The backlog value one socket line carries: its third whitespace-
/// delimited field read as a decimal integer, zero when the line has fewer
/// than three fields or the field is not such an integer.
pub open spec fn line_queue(line: Seq<char>) -> nat {
    let toks = spec_tokens(line);
    if toks.len() >= 3 {
        match spec_parse_u32(toks[2]) {
            Some(v) => v as nat,
            None => 0,
        }
    } else {
        0
    }
}

/// The first line of a listing that names the well-known socket path.
pub open spec fn first_match(lines: Seq<Seq<char>>) -> Option<Seq<char>>
    decreases lines.len(),
{
    if lines.len() == 0 {
        None
    } else if contains_seq(lines[0], socket_path()) {
        Some(lines[0])
    } else {
        first_match(lines.drop_first())
    }
}

/// The backlog length a socket listing reports for the monitored socket:
/// the value carried by the first line naming the well-known path, zero
/// when no line names it.
pub open spec fn spec_queue_from_listing(s: Seq<char>) -> nat {
    match first_match(spec_split(s, '\n')) {
        Some(l) => line_queue(l),
        None => 0,
    }
}

/// The reported backlog always fits in `u32`.
pub proof fn lemma_queue_bound(s: Seq<char>)
    ensures
        spec_queue_from_listing(s) <= u32::MAX,
{
}

/// Reads the monitored socket's backlog length out of a socket listing.
pub fn queue_length_from_listing(s: &str) -> (r: u32)
    ensures
        r as nat == spec_queue_from_listing(s@),
{
    let lines = split_char(s, '\n');
    let mut i: usize = 0;
    proof {
        assert(lines.deep_view().skip(0) =~= lines.deep_view());
    }
    while i < lines.len()
        invariant
            i <= lines@.len(),
            lines.deep_view() == spec_split(s@, '\n'),
            first_match(spec_split(s@, '\n')) == first_match(lines.deep_view().skip(i as int)),
        decreases lines@.len() - i,
    {
        let ghost lv = lines.deep_view();
        let line = &lines[i];
        proof {
            assert(lv.skip(i as int)[0] == lv[i as int]);
            assert(lv.skip(i as int).drop_first() =~= lv.skip(i as int + 1));
        }
        if contains_str(line.as_str(), "/var/run/php-fpm/www.socket") {
            proof {
                assert(first_match(lv.skip(i as int)) == Some(line@));
            }
            let toks = split_ws_tokens(line.as_str());
            if toks.len() >= 3 {
                let field = &toks[2];
                proof {
                    assert(toks.deep_view()[2] == toks@[2]@);
                }
                match parse_u32_dec(field.as_str()) {
                    Some(v) => {
                        return v;
                    },
                    None => {
                        return 0;
                    },
                }
            } else {
                return 0;
            }
        }
        i += 1;
    }
    proof {
        assert(lines.deep_view().skip(lines@.len() as int) =~= Seq::<Seq<char>>::empty());
    }
    0
}

/// The process identifier a lookup output denotes: the output trimmed of
/// surrounding whitespace and read as a decimal integer.
pub open spec fn spec_parse_pid(s: Seq<char>) -> Option<u32> {
    spec_parse_u32(spec_trim(s))
}

/// Parses the runtime's process-identifier lookup output.
pub fn parse_pid(s: &str) -> (r: Option<u32>)
    ensures
        r == spec_parse_pid(s@),
{
    let t = trim_str(s);
    parse_u32_dec(t.as_str())
}

/// No line: no match.
proof fn lemma_first_match_none(lines: Seq<Seq<char>>)
    requires
        forall|i: int| 0 <= i < lines.len() ==> !contains_seq(#[trigger] lines[i], socket_path()),
    ensures
        first_match(lines) is None,
    decreases lines.len(),
{
    if lines.len() > 0 {
        assert(forall|i: int|
            0 <= i < lines.drop_first().len() ==> #[trigger] lines.drop_first()[i] == lines[i
                + 1]);
        lemma_first_match_none(lines.drop_first());
    }
}

/// Parsing robustness, the no-match half: a listing none of whose lines
/// names the well-known socket path yields a backlog of zero.
pub proof fn lemma_no_match_zero(s: Seq<char>)
    requires
        forall|i: int|
            0 <= i < spec_split(s, '\n').len() ==> !contains_seq(
                #[trigger] spec_split(s, '\n')[i],
                socket_path(),
            ),
    ensures
        spec_queue_from_listing(s) == 0,
{
    lemma_first_match_none(spec_split(s, '\n'));
}

} // verus!
