use vstd::prelude::*;
use vstd::utf8::{decode_utf8, valid_utf8};

verus! {

/// `pat` occurs in `text` starting at position `i`.
pub open spec fn occurs_at(text: Seq<char>, pat: Seq<char>, i: int) -> bool {
    0 <= i && i + pat.len() <= text.len() && text.subrange(i, i + pat.len()) == pat
}

/// Number of occurrences of a non-empty `pat` in `text[i..]`, found by scanning left to
/// right and resuming after the end of each occurrence (so occurrences never overlap).
pub open spec fn occurrences_from(text: Seq<char>, pat: Seq<char>, i: int) -> nat
    decreases text.len() - i,
{
    if pat.len() == 0 || i < 0 || i + pat.len() > text.len() {
        0
    } else if occurs_at(text, pat, i) {
        1 + occurrences_from(text, pat, i + pat.len())
    } else {
        occurrences_from(text, pat, i + 1)
    }
}

/// How many times `pat` matches in `text`, the way `str::matches` counts: leftmost,
/// non-overlapping occurrences; the empty pattern matches at every character boundary.
pub open spec fn occurrence_count(text: Seq<char>, pat: Seq<char>) -> nat {
    if pat.len() == 0 {
        text.len() + 1
    } else {
        occurrences_from(text, pat, 0)
    }
}

/// The characters of `s`, in order.
pub fn chars_of(s: &str) -> (v: Vec<char>)
    ensures
        v@ == s@,
{
    let mut v: Vec<char> = Vec::new();
    for c in it: s.chars()
        invariant
            v@ == it.seq().take(it.index()),
    {
        v.push(c);
    }
    v
}

/// Whether `pat` occurs in `text` at position `i`.
fn occurs_at_exec(text: &Vec<char>, pat: &Vec<char>, i: usize) -> (b: bool)
    requires
        i + pat.len() <= text.len(),
    ensures
        b == occurs_at(text@, pat@, i as int),
{
    let mut k: usize = 0;
    while k < pat.len()
        invariant
            k <= pat.len(),
            i + pat.len() <= text.len(),
            forall|j: int| 0 <= j < k ==> text@[i + j] == pat@[j],
        decreases pat.len() - k,
    {
        if text[i + k] != pat[k] {
            assert(text@.subrange(i as int, i + pat.len())[k as int] != pat@[k as int]);
            return false;
        }
        k = k + 1;
    }
    assert(text@.subrange(i as int, i + pat.len()) =~= pat@);
    true
}

/// Number of leftmost non-overlapping occurrences of a non-empty `pat` in `text`.
pub fn count_occurrences_nonempty(text: &Vec<char>, pat: &Vec<char>) -> (n: usize)
    requires
        pat.len() > 0,
    ensures
        n == occurrence_count(text@, pat@),
        n <= text.len(),
{
    let mut i: usize = 0;
    let mut n: usize = 0;
    while pat.len() <= text.len() - i
        invariant
            pat.len() > 0,
            i <= text.len(),
            n <= i,
            n + occurrences_from(text@, pat@, i as int) == occurrences_from(text@, pat@, 0),
        decreases text.len() - i,
    {
        if occurs_at_exec(text, pat, i) {
            n = n + 1;
            i = i + pat.len();
        } else {
            i = i + 1;
        }
    }
    n
}

/// Calls `std::str::from_utf8`: the bytes are accepted exactly when they are valid UTF-8,
/// and then the text is the characters they encode.
#[verifier::external_body]
pub(crate) fn utf8_text(bytes: &[u8]) -> (r: Option<&str>)
    ensures
        r is Some <==> valid_utf8(bytes@),
        r matches Some(s) ==> s@ == decode_utf8(bytes@),
{
    std::str::from_utf8(bytes).ok()
}

} // verus!
