//! The reporting decision and the metric's dimensions.
//!
//! A tick's aggregate is emitted only when it is strictly positive, and in
//! dry-run mode it is never emitted, only logged. A metric dimension is
//! written `key=value`; a string without `=` is malformed and denotes no
//! pair, and its loss touches neither the other dimensions nor the tick.

use crate::text::{first_at, spec_trim, find_char_from, trim_str};
use vstd::prelude::*;
use vstd::string::StrSliceExecFns;

verus! {

/// True when the aggregate of a tick must be handed to the metrics sink:
/// only a strictly positive aggregate is emitted, and never in dry-run
/// mode.
pub open spec fn spec_should_emit(aggregate: u64, dry_run: bool) -> bool {
    aggregate > 0 && !dry_run
}

/// Decides whether a tick's aggregate is emitted as a metric.
pub fn should_emit(aggregate: u64, dry_run: bool) -> (r: bool)
    ensures
        r == spec_should_emit(aggregate, dry_run),
{
    aggregate > 0 && !dry_run
}

/// Dry-run non-emission: in dry-run mode no aggregate, however large, is
/// ever emitted.
pub proof fn lemma_dry_run_never_emits(aggregate: u64)
    ensures
        !spec_should_emit(aggregate, true),
{
}

/// The dimension pair a `key=value` string denotes: the text split at its
/// first `=`, both sides trimmed. A string without `=` denotes no pair.
pub open spec fn spec_parse_dimension(s: Seq<char>) -> Option<(Seq<char>, Seq<char>)> {
    let k = first_at(s, '=') as int;
    if k >= s.len() {
        None
    } else {
        Some((spec_trim(s.take(k)), spec_trim(s.skip(k + 1))))
    }
}

/// Parses one `key=value` dimension string.
pub fn parse_dimension(s: &str) -> (r: Option<(String, String)>)
    ensures
        r.deep_view() == spec_parse_dimension(s@),
{
    let n = s.unicode_len();
    let k = find_char_from(s, '=', 0);
    proof {
        assert(s@.skip(0) =~= s@);
    }
    if k == n {
        None
    } else {
        let key = trim_str(s.substring_char(0, k));
        let val = trim_str(s.substring_char(k + 1, n));
        proof {
            assert(s@.subrange(0, k as int) =~= s@.take(k as int));
            assert(s@.subrange(k as int + 1, n as int) =~= s@.skip(k as int + 1));
        }
        Some((key, val))
    }
}

/// The dimension pairs a sequence of `key=value` strings denotes, in
/// order, the malformed ones dropped.
pub open spec fn spec_parse_dimensions(ss: Seq<Seq<char>>) -> Seq<(Seq<char>, Seq<char>)>
    decreases ss.len(),
{
    if ss.len() == 0 {
        Seq::empty()
    } else {
        let rest = spec_parse_dimensions(ss.drop_first());
        match spec_parse_dimension(ss[0]) {
            Some(p) => seq![p] + rest,
            None => rest,
        }
    }
}

/// Parses a tick's dimension strings, dropping the malformed ones.
pub fn parse_dimensions(ss: &Vec<String>) -> (r: Vec<(String, String)>)
    ensures
        r.deep_view() == spec_parse_dimensions(ss.deep_view()),
{
    let mut out: Vec<(String, String)> = Vec::new();
    let mut i: usize = 0;
    proof {
        assert(out.deep_view() =~= Seq::<(Seq<char>, Seq<char>)>::empty());
        assert(ss.deep_view().skip(0) =~= ss.deep_view());
        assert(Seq::<(Seq<char>, Seq<char>)>::empty() + spec_parse_dimensions(ss.deep_view())
            =~= spec_parse_dimensions(ss.deep_view()));
    }
    while i < ss.len()
        invariant
            i <= ss@.len(),
            spec_parse_dimensions(ss.deep_view()) == out.deep_view() + spec_parse_dimensions(
                ss.deep_view().skip(i as int),
            ),
        decreases ss@.len() - i,
    {
        let ghost sv = ss.deep_view();
        let ghost prev = out.deep_view();
        proof {
            assert(sv.skip(i as int)[0] == sv[i as int]);
            assert(sv.skip(i as int).drop_first() =~= sv.skip(i as int + 1));
        }
        let s = &ss[i];
        match parse_dimension(s.as_str()) {
            Some(p) => {
                let ghost pv = (p.0@, p.1@);
                out.push(p);
                proof {
                    let rest = spec_parse_dimensions(sv.skip(i as int + 1));
                    assert(out.deep_view() =~= prev.push(pv));
                    assert(prev + (seq![pv] + rest) =~= out.deep_view() + rest);
                }
            },
            None => {},
        }
        i += 1;
    }
    proof {
        assert(ss.deep_view().skip(ss@.len() as int) =~= Seq::<Seq<char>>::empty());
        assert(out.deep_view() + spec_parse_dimensions(Seq::<Seq<char>>::empty())
            =~= out.deep_view());
    }
    out
}

/// A malformed dimension string is dropped on its own: removing it from
/// the tick's dimension strings leaves the parsed pairs of the others
/// exactly as they were.
pub proof fn lemma_malformed_dimension_dropped(ss: Seq<Seq<char>>, i: int)
    requires
        0 <= i < ss.len(),
        spec_parse_dimension(ss[i]) is None,
    ensures
        spec_parse_dimensions(ss.remove(i)) == spec_parse_dimensions(ss),
    decreases ss.len(),
{
    if i == 0 {
        assert(ss.remove(0) =~= ss.drop_first());
    } else {
        lemma_malformed_dimension_dropped(ss.drop_first(), i - 1);
        assert(ss.remove(i).drop_first() =~= ss.drop_first().remove(i - 1));
        assert(ss.remove(i)[0] == ss[0]);
    }
}

} // verus!
