//! Classification of a container's launch command.
//!
//! The container runtime reports a launch command as JSON: an array of
//! strings, one per token. A container runs the monitored workload exactly
//! when one of those tokens equals the marker token — whole-token equality,
//! never a substring or prefix match.

use crate::text::{spec_trim, trim_str};
use vstd::prelude::*;

verus! {

/// The marker token that identifies the monitored workload in a launch
/// command.
pub open spec fn marker() -> Seq<char> {
    "php-fpm"@
}

/// The marker token as an owned string.
pub fn marker_string() -> (r: String)
    ensures
        r@ == marker(),
{
    "php-fpm".to_owned()
}

/// The parse of a launch-command description: the token sequence when the
/// text is a JSON array of strings, nothing for any other text.
pub uninterp spec fn json_tokens_of(s: Seq<char>) -> Option<Seq<Seq<char>>>;

/// Relies on serde_json::from_str::<Vec<String>>: deserialises a JSON
/// array of strings and rejects any other JSON text; the result is a
/// function of the input text alone.
#[verifier::external_body]
fn parse_command_tokens(s: &str) -> (r: Option<Vec<String>>)
    ensures
        match r {
            Some(toks) => json_tokens_of(s@) == Some(toks.deep_view()),
            None => json_tokens_of(s@) is None,
        },
{
    serde_json::from_str::<Vec<String>>(s).ok()
}

/// What classification concluded about one container.
#[derive(Clone, Copy, Debug, PartialEq, Eq, Structural)]
pub enum Classification {
    /// The launch command carries the marker token: the container runs the
    /// monitored workload.
    Workload,
    /// The launch command parsed but carries no marker token.
    OtherCommand,
    /// The inspection output is not a JSON array of strings; such a
    /// container is excluded from the sample, never an error.
    Unparseable,
}

/// Some token of the sequence is exactly the marker.
pub open spec fn spec_has_marker(toks: Seq<Seq<char>>) -> bool {
    exists|i: int| 0 <= i < toks.len() && toks[i] == marker()
}

/// The classification a launch-command description denotes.
pub open spec fn spec_classify(s: Seq<char>) -> Classification {
    match json_tokens_of(spec_trim(s)) {
        Some(toks) => if spec_has_marker(toks) {
            Classification::Workload
        } else {
            Classification::OtherCommand
        },
        None => Classification::Unparseable,
    }
}

/// Decides whether a token sequence carries the marker: an exact,
/// whole-token equality test against the marker string.
pub fn command_has_marker(toks: &Vec<String>) -> (r: bool)
    ensures
        r == spec_has_marker(toks.deep_view()),
{
    let m: String = marker_string();
    let mut i: usize = 0;
    while i < toks.len()
        invariant
            i <= toks@.len(),
            m@ == marker(),
            forall|j: int| 0 <= j < i ==> toks.deep_view()[j] != marker(),
        decreases toks@.len() - i,
    {
        if toks[i] == m {
            proof {
                assert(toks.deep_view()[i as int] == marker());
            }
            return true;
        }
        i += 1;
    }
    false
}

/// Classifies one container's launch-command description: trims it, reads
/// it as a JSON array of tokens, and tests the tokens for the marker.
pub fn classify_command(desc: &str) -> (r: Classification)
    ensures
        r == spec_classify(desc@),
{
    let trimmed = trim_str(desc);
    match parse_command_tokens(trimmed.as_str()) {
        Some(toks) => if command_has_marker(&toks) {
            Classification::Workload
        } else {
            Classification::OtherCommand
        },
        None => Classification::Unparseable,
    }
}

/// Marker exactness: a command none of whose tokens equals the marker is
/// never classified as the workload — however many of its tokens contain
/// the marker as a proper substring, or are themselves contained in it.
pub proof fn lemma_marker_exactness(toks: Seq<Seq<char>>)
    requires
        forall|i: int| 0 <= i < toks.len() ==> toks[i] != marker(),
    ensures
        !spec_has_marker(toks),
{
}

} // verus!
