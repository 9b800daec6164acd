//! Parsing of the container runtime's enumeration output.
//!
//! The enumeration lists one running container identifier per line. An
//! identifier is an opaque token; surrounding whitespace is shed and blank
//! lines carry nothing.

use crate::text::{spec_split, spec_trim, split_char, trim_str};
use vstd::prelude::*;
use vstd::string::StrSliceExecFns;

verus! {

/// The identifiers carried by a sequence of raw lines: each line trimmed
/// of surrounding whitespace, blank lines dropped.
pub open spec fn spec_clean_lines(lines: Seq<Seq<char>>) -> Seq<Seq<char>>
    decreases lines.len(),
{
    if lines.len() == 0 {
        Seq::empty()
    } else {
        let t = spec_trim(lines[0]);
        let rest = spec_clean_lines(lines.drop_first());
        if t.len() == 0 {
            rest
        } else {
            seq![t] + rest
        }
    }
}

/// The container identifiers named by an enumeration listing.
pub open spec fn spec_container_ids(s: Seq<char>) -> Seq<Seq<char>> {
    spec_clean_lines(spec_split(s, '\n'))
}

/// Parses the container runtime's enumeration output: one identifier per
/// line, trimmed, with blank lines dropped.
pub fn parse_container_ids(s: &str) -> (r: Vec<String>)
    ensures
        r.deep_view() == spec_container_ids(s@),
{
    let lines = split_char(s, '\n');
    let mut out: Vec<String> = Vec::new();
    let mut i: usize = 0;
    proof {
        assert(out.deep_view() =~= Seq::<Seq<char>>::empty());
        assert(lines.deep_view().skip(0) =~= lines.deep_view());
        assert(Seq::<Seq<char>>::empty() + spec_clean_lines(lines.deep_view())
            =~= spec_clean_lines(lines.deep_view()));
    }
    while i < lines.len()
        invariant
            i <= lines@.len(),
            lines.deep_view() == spec_split(s@, '\n'),
            spec_container_ids(s@) == out.deep_view() + spec_clean_lines(
                lines.deep_view().skip(i as int),
            ),
        decreases lines@.len() - i,
    {
        let ghost lv = lines.deep_view();
        let ghost prev = out.deep_view();
        let line = &lines[i];
        let t = trim_str(line.as_str());
        proof {
            assert(lv.skip(i as int)[0] == lv[i as int]);
            assert(lv.skip(i as int).drop_first() =~= lv.skip(i as int + 1));
        }
        if t.as_str().unicode_len() > 0 {
            out.push(t);
            proof {
                let rest = spec_clean_lines(lv.skip(i as int + 1));
                assert(out.deep_view() =~= prev.push(out@[out@.len() - 1]@));
                assert(prev + (seq![out@[out@.len() - 1]@] + rest) =~= out.deep_view() + rest);
            }
        }
        i += 1;
    }
    proof {
        assert(lines.deep_view().skip(lines@.len() as int) =~= Seq::<Seq<char>>::empty());
        assert(out.deep_view() + spec_clean_lines(Seq::<Seq<char>>::empty()) =~= out.deep_view());
    }
    out
}

} // verus!
