//! Character-level text utilities shared by the parsers in this crate.
//!
//! Everything here works on `&str` values viewed as sequences of characters.
//! Whitespace is the ASCII whitespace set, which covers all the separators
//! the monitored tools emit.

use vstd::prelude::*;
use vstd::string::StrSliceExecFns;

verus! {

/// The whitespace characters recognised by the parsers in this crate: the
/// ASCII whitespace set (tab, line feed, vertical tab, form feed, carriage
/// return, space).
pub open spec fn is_ws_char(c: char) -> bool {
    c == ' ' || c == '\t' || c == '\n' || c == '\r' || c == '\u{b}' || c == '\u{c}'
}

/// Decides whether `c` is whitespace in the sense of [`is_ws_char`].
pub fn is_ws(c: char) -> (r: bool)
    ensures
        r == is_ws_char(c),
{
    c == ' ' || c == '\t' || c == '\n' || c == '\r' || c == '\u{b}' || c == '\u{c}'
}

/// Index of the first occurrence of `sep` in `s`, or `s.len()` when `sep`
/// does not occur.
pub open spec fn first_at(s: Seq<char>, sep: char) -> nat
    decreases s.len(),
{
    if s.len() == 0 {
        0
    } else if s[0] == sep {
        0
    } else {
        (1 + first_at(s.drop_first(), sep)) as nat
    }
}

/// `first_at` indeed names the first occurrence: everything before it
/// differs from `sep`, and it points at `sep` unless `sep` is absent.
pub proof fn lemma_first_at(s: Seq<char>, sep: char)
    ensures
        first_at(s, sep) <= s.len(),
        first_at(s, sep) < s.len() ==> s[first_at(s, sep) as int] == sep,
        forall|j: int| 0 <= j < first_at(s, sep) ==> s[j] != sep,
    decreases s.len(),
{
    if s.len() == 0 {
    } else if s[0] == sep {
    } else {
        lemma_first_at(s.drop_first(), sep);
        assert forall|j: int| 0 <= j < first_at(s, sep) implies s[j] != sep by {
            if j > 0 {
                assert(s.drop_first()[j - 1] != sep);
                assert(s[j] == s.drop_first()[j - 1]);
            }
        }
    }
}

/// Finds the first occurrence of `sep` in `s` at or after position `from`.
pub fn find_char_from(s: &str, sep: char, from: usize) -> (r: usize)
    requires
        from <= s@.len(),
    ensures
        from <= r <= s@.len(),
        r < s@.len() ==> s@[r as int] == sep,
        forall|j: int| from <= j < r ==> s@[j] != sep,
        r - from == first_at(s@.skip(from as int), sep),
    {
    let n = s.unicode_len();
    let mut i = from;
    while i < n
        invariant
            from <= i <= n,
            n == s@.len(),
            forall|j: int| from <= j < i ==> s@[j] != sep,
        decreases n - i,
    {
        if s.get_char(i) == sep {
            proof {
                lemma_first_at_agrees(s@, sep, from as int, i as int);
            }
            return i;
        }
        i += 1;
    }
    proof {
        lemma_first_at_agrees(s@, sep, from as int, i as int);
    }
    i
}

/// The characterisation of a first occurrence is unique, so a scan that
/// stops at `r` has found exactly `first_at` of the remaining suffix.
proof fn lemma_first_at_agrees(s: Seq<char>, sep: char, from: int, r: int)
    requires
        0 <= from <= r <= s.len(),
        r < s.len() ==> s[r] == sep,
        forall|j: int| from <= j < r ==> s[j] != sep,
    ensures
        r - from == first_at(s.skip(from), sep),
{
    let sk = s.skip(from);
    lemma_first_at(sk, sep);
    let f = first_at(sk, sep) as int;
    if f < r - from {
        assert(s[from + f] == sk[f]);
        assert(false);
    }
    if r - from < f {
        assert(sk[r - from] == s[r]);
        assert(false);
    }
}

/// `s` with leading and trailing whitespace removed.
pub open spec fn spec_trim(s: Seq<char>) -> Seq<char>
    decreases s.len(),
{
    if s.len() == 0 {
        s
    } else if is_ws_char(s[0]) {
        spec_trim(s.drop_first())
    } else if is_ws_char(s[s.len() - 1]) {
        spec_trim(s.drop_last())
    } else {
        s
    }
}

/// Removes leading and trailing whitespace from `s`.
pub fn trim_str(s: &str) -> (r: String)
    ensures
        r@ == spec_trim(s@),
{
    let n = s.unicode_len();
    let mut a: usize = 0;
    let mut b: usize = n;
    proof {
        assert(s@.subrange(0, n as int) =~= s@);
    }
    while a < b && is_ws(s.get_char(a))
        invariant
            a <= b <= n,
            n == s@.len(),
            spec_trim(s@) == spec_trim(s@.subrange(a as int, b as int)),
        decreases b - a,
    {
        proof {
            let t = s@.subrange(a as int, b as int);
            assert(t.drop_first() =~= s@.subrange(a as int + 1, b as int));
        }
        a += 1;
    }
    while a < b && is_ws(s.get_char(b - 1))
        invariant
            a <= b <= n,
            n == s@.len(),
            spec_trim(s@) == spec_trim(s@.subrange(a as int, b as int)),
            a < b ==> !is_ws_char(s@[a as int]),
        decreases b,
    {
        proof {
            let t = s@.subrange(a as int, b as int);
            assert(t.drop_last() =~= s@.subrange(a as int, b as int - 1));
        }
        b -= 1;
    }
    s.substring_char(a, b).to_owned()
}

/// `s` split at every occurrence of `sep`; the separator itself is dropped.
/// An input without `sep` (the empty input included) yields one segment.
pub open spec fn spec_split(s: Seq<char>, sep: char) -> Seq<Seq<char>>
    decreases s.len(),
{
    let k = first_at(s, sep) as int;
    if k >= s.len() {
        seq![s]
    } else {
        seq![s.take(k)] + spec_split(s.skip(k + 1), sep)
    }
}

/// Splits `s` at every occurrence of `sep`.
pub fn split_char(s: &str, sep: char) -> (r: Vec<String>)
    ensures
        r.deep_view() == spec_split(s@, sep),
{
    let n = s.unicode_len();
    let mut out: Vec<String> = Vec::new();
    let mut pos: usize = 0;
    proof {
        assert(out.deep_view() =~= Seq::<Seq<char>>::empty());
        assert(s@.skip(0) =~= s@);
        assert(Seq::<Seq<char>>::empty() + spec_split(s@, sep) =~= spec_split(s@, sep));
    }
    loop
        invariant
            pos <= n,
            n == s@.len(),
            spec_split(s@, sep) == out.deep_view() + spec_split(s@.skip(pos as int), sep),
        decreases n - pos,
    {
        let k = find_char_from(s, sep, pos);
        let ghost prev = out.deep_view();
        let ghost t = s@.skip(pos as int);
        if k < n {
            let seg = s.substring_char(pos, k).to_owned();
            proof {
                assert(t.take(k - pos as int) =~= s@.subrange(pos as int, k as int));
                assert(t.skip(k - pos as int + 1) =~= s@.skip(k as int + 1));
                assert(spec_split(t, sep) == seq![seg@] + spec_split(s@.skip(k as int + 1), sep));
            }
            out.push(seg);
            proof {
                assert(out.deep_view() =~= prev.push(seg@));
                assert(prev + (seq![seg@] + spec_split(s@.skip(k as int + 1), sep)) =~= prev.push(
                    seg@,
                ) + spec_split(s@.skip(k as int + 1), sep));
            }
            pos = k + 1;
        } else {
            let seg = s.substring_char(pos, n).to_owned();
            proof {
                assert(t =~= s@.subrange(pos as int, n as int));
                assert(spec_split(t, sep) == seq![seg@]);
            }
            out.push(seg);
            proof {
                assert(out.deep_view() =~= prev.push(seg@));
                assert(prev + seq![seg@] =~= prev.push(seg@));
            }
            return out;
        }
    }
}

/// Length of the leading non-whitespace run of `s`.
pub open spec fn tok_run(s: Seq<char>) -> nat
    decreases s.len(),
{
    if s.len() == 0 {
        0
    } else if !is_ws_char(s[0]) {
        (1 + tok_run(s.drop_first())) as nat
    } else {
        0
    }
}

/// `tok_run` names the first whitespace position: everything before it is
/// non-whitespace, and it points at whitespace unless the run covers `s`.
pub proof fn lemma_tok_run(s: Seq<char>)
    ensures
        tok_run(s) <= s.len(),
        tok_run(s) < s.len() ==> is_ws_char(s[tok_run(s) as int]),
        forall|j: int| 0 <= j < tok_run(s) ==> !is_ws_char(s[j]),
    decreases s.len(),
{
    if s.len() == 0 {
    } else if !is_ws_char(s[0]) {
        lemma_tok_run(s.drop_first());
        assert forall|j: int| 0 <= j < tok_run(s) implies !is_ws_char(s[j]) by {
            if j > 0 {
                assert(!is_ws_char(s.drop_first()[j - 1]));
                assert(s[j] == s.drop_first()[j - 1]);
            }
        }
    }
}

/// The whitespace-delimited tokens of `s`, in order: the maximal runs of
/// non-whitespace characters.
pub open spec fn spec_tokens(s: Seq<char>) -> Seq<Seq<char>>
    decreases s.len(),
{
    if s.len() == 0 {
        Seq::empty()
    } else if is_ws_char(s[0]) {
        spec_tokens(s.drop_first())
    } else {
        let k = tok_run(s) as int;
        if k >= s.len() {
            seq![s]
        } else {
            seq![s.take(k)] + spec_tokens(s.skip(k))
        }
    }
}

/// Splits `s` into its whitespace-delimited tokens.
pub fn split_ws_tokens(s: &str) -> (r: Vec<String>)
    ensures
        r.deep_view() == spec_tokens(s@),
{
    let n = s.unicode_len();
    let mut out: Vec<String> = Vec::new();
    let mut pos: usize = 0;
    proof {
        assert(out.deep_view() =~= Seq::<Seq<char>>::empty());
        assert(s@.skip(0) =~= s@);
        assert(Seq::<Seq<char>>::empty() + spec_tokens(s@) =~= spec_tokens(s@));
    }
    while pos < n
        invariant
            pos <= n,
            n == s@.len(),
            spec_tokens(s@) == out.deep_view() + spec_tokens(s@.skip(pos as int)),
        decreases n - pos,
    {
        let ghost t = s@.skip(pos as int);
        if is_ws(s.get_char(pos)) {
            proof {
                assert(t.drop_first() =~= s@.skip(pos as int + 1));
            }
            pos += 1;
        } else {
            let mut end = pos + 1;
            while end < n && !is_ws(s.get_char(end))
                invariant
                    pos < end <= n,
                    n == s@.len(),
                    forall|j: int| pos <= j < end ==> !is_ws_char(s@[j]),
                decreases n - end,
            {
                end += 1;
            }
            let tok = s.substring_char(pos, end).to_owned();
            let ghost prev = out.deep_view();
            proof {
                lemma_tok_run(t);
                let f = tok_run(t) as int;
                assert forall|j: int| 0 <= j < end - pos implies !is_ws_char(t[j]) by {
                    assert(t[j] == s@[pos + j]);
                }
                if f < end - pos {
                    assert(false);
                }
                if end - pos < f {
                    assert(t[end - pos] == s@[end as int]);
                    assert(false);
                }
                assert(t.take(f) =~= s@.subrange(pos as int, end as int));
                if f < t.len() {
                    assert(t.skip(f) =~= s@.skip(end as int));
                    assert(spec_tokens(t) == seq![tok@] + spec_tokens(s@.skip(end as int)));
                } else {
                    assert(t =~= s@.subrange(pos as int, end as int));
                    assert(s@.skip(end as int) =~= Seq::<char>::empty());
                    assert(spec_tokens(t) == seq![tok@]);
                    assert(spec_tokens(s@.skip(end as int)) =~= Seq::<Seq<char>>::empty());
                    assert(seq![tok@] + spec_tokens(s@.skip(end as int)) =~= seq![tok@]);
                }
            }
            out.push(tok);
            proof {
                assert(out.deep_view() =~= prev.push(tok@));
                assert(prev + (seq![tok@] + spec_tokens(s@.skip(end as int))) =~= prev.push(tok@)
                    + spec_tokens(s@.skip(end as int)));
            }
            pos = end;
        }
    }
    proof {
        assert(s@.skip(n as int) =~= Seq::<char>::empty());
        assert(out.deep_view() + spec_tokens(s@.skip(n as int)) =~= out.deep_view());
    }
    out
}

/// An ASCII decimal digit.
pub open spec fn is_digit_char(c: char) -> bool {
    48 <= c as u32 <= 57
}

/// The numeric value of an ASCII decimal digit.
pub open spec fn digit_val(c: char) -> nat {
    (c as u32 - 48) as nat
}

/// Every character of `s` is an ASCII decimal digit.
pub open spec fn all_digits(s: Seq<char>) -> bool {
    forall|i: int| 0 <= i < s.len() ==> is_digit_char(s[i])
}

/// The value of `s` read as a base-ten numeral.
pub open spec fn dec_value(s: Seq<char>) -> nat
    decreases s.len(),
{
    if s.len() == 0 {
        0
    } else {
        dec_value(s.drop_last()) * 10 + digit_val(s.last())
    }
}

/// A numeral's value only grows as digits are appended.
proof fn lemma_dec_value_mono(s: Seq<char>, k: int)
    requires
        0 <= k <= s.len(),
    ensures
        dec_value(s.take(k)) <= dec_value(s),
    decreases s.len() - k,
{
    if k < s.len() {
        assert(s.take(k + 1).drop_last() =~= s.take(k));
        lemma_dec_value_mono(s, k + 1);
    } else {
        assert(s.take(k) =~= s);
    }
}

/// The parse of `s` as an unsigned decimal integer: its decimal value when
/// `s` is one or more ASCII digits whose value fits in `u32`, nothing
/// otherwise.
pub open spec fn spec_parse_u32(s: Seq<char>) -> Option<u32> {
    if s.len() > 0 && all_digits(s) && dec_value(s) <= u32::MAX {
        Some(dec_value(s) as u32)
    } else {
        None
    }
}

/// Parses `s` as an unsigned decimal integer.
pub fn parse_u32_dec(s: &str) -> (r: Option<u32>)
    ensures
        r == spec_parse_u32(s@),
{
    let n = s.unicode_len();
    if n == 0 {
        return None;
    }
    let mut acc: u64 = 0;
    let mut i: usize = 0;
    proof {
        assert(s@.take(0) =~= Seq::<char>::empty());
    }
    while i < n
        invariant
            i <= n,
            n == s@.len(),
            forall|j: int| 0 <= j < i ==> is_digit_char(s@[j]),
            acc == dec_value(s@.take(i as int)),
            acc <= u32::MAX,
        decreases n - i,
    {
        let c = s.get_char(i);
        let d = c as u32;
        if d < 48 || d > 57 {
            return None;
        }
        acc = acc * 10 + ((d - 48) as u64);
        proof {
            assert(s@.take(i as int + 1).drop_last() =~= s@.take(i as int));
            assert(s@.take(i as int + 1).last() == s@[i as int]);
        }
        if acc > 0xffff_ffff {
            proof {
                lemma_dec_value_mono(s@, i as int + 1);
            }
            return None;
        }
        i += 1;
    }
    proof {
        assert(s@.take(n as int) =~= s@);
    }
    Some(acc as u32)
}

/// `n` occurs in `h` as a contiguous run of characters.
pub open spec fn contains_seq(h: Seq<char>, n: Seq<char>) -> bool {
    exists|i: int| 0 <= i <= h.len() - n.len() && #[trigger] h.subrange(i, i + n.len()) == n
}

/// Compares the run of `h` starting at `i` against the whole of `n`.
fn match_at(h: &str, n: &str, i: usize) -> (r: bool)
    requires
        i + n@.len() <= h@.len(),
        h@.len() <= usize::MAX,
    ensures
        r == (h@.subrange(i as int, i as int + n@.len()) == n@),
{
    let nn = n.unicode_len();
    let mut j: usize = 0;
    while j < nn
        invariant
            j <= nn,
            nn == n@.len(),
            i + nn <= h@.len() <= usize::MAX,
            forall|t: int| 0 <= t < j ==> h@[i + t] == n@[t],
        decreases nn - j,
    {
        if h.get_char(i + j) != n.get_char(j) {
            proof {
                assert(h@.subrange(i as int, i as int + nn as int)[j as int] == h@[i + j]);
            }
            return false;
        }
        j += 1;
    }
    proof {
        assert(h@.subrange(i as int, i as int + nn as int) =~= n@);
    }
    true
}

/// Decides whether `n` occurs in `h` as a contiguous run of characters.
pub fn contains_str(h: &str, n: &str) -> (r: bool)
    ensures
        r == contains_seq(h@, n@),
{
    let hn = h.unicode_len();
    let nn = n.unicode_len();
    if nn > hn {
        return false;
    }
    if nn == 0 {
        proof {
            assert(h@.subrange(0, 0 + n@.len() as int) =~= n@);
        }
        return true;
    }
    let mut i: usize = 0;
    while i <= hn - nn
        invariant
            1 <= nn <= hn,
            hn == h@.len(),
            nn == n@.len(),
            i <= hn - nn + 1,
            forall|k: int| 0 <= k < i ==> #[trigger] h@.subrange(k, k + n@.len()) != n@,
        decreases hn - nn - i + 1,
    {
        if match_at(h, n, i) {
            return true;
        }
        i += 1;
    }
    false
}

} // verus!
