use vstd::prelude::*;

use num_format::{Locale, ToFormattedString};

use crate::delta::{blob_text, change_mode, is_searched, is_searched_entry, Change};
use crate::text::{chars_of, count_occurrences_nonempty, occurrence_count, utf8_text};

verus! {

/// The blob a change points at: the new blob of an addition or modification, the removed
/// blob of a deletion.
pub open spec fn change_content(c: Change) -> Option<Vec<u8>> {
    match c {
        Change::Addition { content, .. } => content,
        Change::Deletion { content, .. } => content,
        Change::Modification { content, .. } => content,
    }
}

/// The matches a change contributes to a scan: the occurrences of `search` in the text
/// of its blob, when the entry is searched and the blob is valid UTF-8.
pub open spec fn scanned_count(search: Seq<char>, c: Change) -> int {
    if is_searched(change_mode(c)) {
        match blob_text(change_content(c)) {
            Some(text) => occurrence_count(text, search) as int,
            None => 0,
        }
    } else {
        0
    }
}

/// Sum of the scan counts of the changes.
pub open spec fn scan_sum(search: Seq<char>, cs: Seq<Change>) -> int
    decreases cs.len(),
{
    if cs.len() == 0 {
        0
    } else {
        scan_sum(search, cs.drop_last()) + scanned_count(search, cs.last())
    }
}

/// Every running total of the scan fits in a `usize`.
pub open spec fn scan_sums_fit(search: Seq<char>, cs: Seq<Change>) -> bool {
    forall|k: int| 0 <= k <= cs.len() ==> #[trigger] scan_sum(search, cs.take(k)) <= usize::MAX
}

/// Sum of a list of counts.
pub open spec fn count_sum(s: Seq<usize>) -> int
    decreases s.len(),
{
    if s.len() == 0 {
        0
    } else {
        count_sum(s.drop_last()) + s.last()
    }
}

/// Occurrences of `pat` in `text`, when the number fits in a `usize`.
fn count_str_matches(text: &str, pat: &str) -> (r: Option<usize>)
    ensures
        r is Some <==> occurrence_count(text@, pat@) <= usize::MAX,
        r matches Some(n) ==> n == occurrence_count(text@, pat@),
{
    let t = chars_of(text);
    let p = chars_of(pat);
    if p.len() == 0 {
        if t.len() < usize::MAX {
            Some(t.len() + 1)
        } else {
            None
        }
    } else {
        Some(count_occurrences_nonempty(&t, &p))
    }
}

/// Counts the occurrences of `search_string` in the blobs of a commit's changes (only
/// searched entries; blobs that are not UTF-8 count nothing). `None` when a running total
/// exceeds the `usize` range.
pub fn scan_changes(changes: &Vec<Change>, search_string: &str) -> (r: Option<usize>)
    requires
        forall|i: int|
            0 <= i < changes@.len() && is_searched(change_mode(changes@[i])) ==> change_content(
                #[trigger] changes@[i],
            ) is Some,
    ensures
        r is Some <==> scan_sums_fit(search_string@, changes@),
        r matches Some(n) ==> n == scan_sum(search_string@, changes@),
{
    let mut total: usize = 0;
    let mut i: usize = 0;
    assert(changes@.take(0) =~= Seq::<Change>::empty());
    while i < changes.len()
        invariant
            i <= changes.len(),
            total == scan_sum(search_string@, changes@.take(i as int)),
            forall|k: int|
                0 <= k <= i ==> #[trigger] scan_sum(search_string@, changes@.take(k))
                    <= usize::MAX,
        decreases changes.len() - i,
    {
        let change = &changes[i];
        proof {
            assert(changes@.take(i + 1).drop_last() =~= changes@.take(i as int));
            assert(changes@.take(i + 1).last() == changes@[i as int]);
        }
        let mut n: usize = 0;
        if is_searched_entry(change.mode()) {
            let content = match change {
                Change::Addition { content, .. } => content,
                Change::Deletion { content, .. } => content,
                Change::Modification { content, .. } => content,
            };
            if let Some(bytes) = content {
                if let Some(text) = utf8_text(bytes.as_slice()) {
                    n = match count_str_matches(text, search_string) {
                        Some(c) => c,
                        None => {
                            assert(scan_sum(search_string@, changes@.take(i + 1)) > usize::MAX);
                            return None;
                        },
                    };
                }
            }
        }
        total = match total.checked_add(n) {
            Some(v) => v,
            None => {
                assert(scan_sum(search_string@, changes@.take(i + 1)) > usize::MAX);
                return None;
            },
        };
        i = i + 1;
    }
    assert(changes@.take(changes.len() as int) =~= changes@);
    Some(total)
}

/// Adds up per-commit counts; `None` when a running total exceeds the `usize` range.
pub fn sum_counts(counts: &Vec<usize>) -> (r: Option<usize>)
    ensures
        r is Some <==> forall|k: int|
            0 <= k <= counts@.len() ==> #[trigger] count_sum(counts@.take(k)) <= usize::MAX,
        r matches Some(n) ==> n == count_sum(counts@),
{
    let mut total: usize = 0;
    let mut i: usize = 0;
    assert(counts@.take(0) =~= Seq::<usize>::empty());
    while i < counts.len()
        invariant
            i <= counts.len(),
            total == count_sum(counts@.take(i as int)),
            forall|k: int| 0 <= k <= i ==> #[trigger] count_sum(counts@.take(k)) <= usize::MAX,
        decreases counts.len() - i,
    {
        assert(counts@.take(i + 1).drop_last() =~= counts@.take(i as int));
        total = match total.checked_add(counts[i]) {
            Some(v) => v,
            None => {
                assert(count_sum(counts@.take(i + 1)) > usize::MAX);
                return None;
            },
        };
        i = i + 1;
    }
    assert(counts@.take(counts.len() as int) =~= counts@);
    Some(total)
}

/// The character of a decimal digit.
pub open spec fn digit_char(d: nat) -> char {
    seq!['0', '1', '2', '3', '4', '5', '6', '7', '8', '9'][d as int]
}

/// The decimal digits of `n`.
pub open spec fn decimal(n: nat) -> Seq<char>
    decreases n,
{
    if n < 10 {
        seq![digit_char(n)]
    } else {
        decimal(n / 10).push(digit_char(n % 10))
    }
}

/// The three decimal digits of `n < 1000`, zero-padded.
pub open spec fn three_digits(n: nat) -> Seq<char> {
    seq![digit_char(n / 100), digit_char((n / 10) % 10), digit_char(n % 10)]
}

/// `n` in decimal with a comma between each group of three digits, counted from the
/// right (English grouping, as in "1,234,567").
pub open spec fn grouped_decimal(n: nat) -> Seq<char>
    decreases n,
{
    if n < 1000 {
        decimal(n)
    } else {
        grouped_decimal(n / 1000) + seq![','] + three_digits(n % 1000)
    }
}

/// Calls num-format's `to_formatted_string` with the English locale, whose separator is
/// "," and whose grouping is by three digits.
#[verifier::external_body]
fn format_grouped(n: usize) -> (s: String)
    ensures
        s@ == grouped_decimal(n as nat),
{
    n.to_formatted_string(&Locale::en)
}

/// A count written for people: decimal digits grouped by three with commas.
pub fn format_count(n: usize) -> (s: String)
    ensures
        s@ == grouped_decimal(n as nat),
{
    format_grouped(n)
}

/// The line announcing how many commits a scan walks: "Got N commits".
pub fn commits_found_message(n: usize) -> (s: String)
    ensures
        s@ == "Got "@ + grouped_decimal(n as nat) + " commits"@,
{
    let mut s = String::from_str("Got ");
    let count = format_count(n);
    s.append(count.as_str());
    s.append(" commits");
    s
}

/// The line reporting the result of a scan.
pub fn scan_summary(search_string: &str, total: usize) -> (s: String)
    ensures
        s@ == "Number of times '"@ + search_string@ + "' appears in files anywhere in git history: "@
            + grouped_decimal(total as nat),
{
    let mut s = String::from_str("Number of times '");
    s.append(search_string);
    s.append("' appears in files anywhere in git history: ");
    let count = format_count(total);
    s.append(count.as_str());
    s
}

} // verus!
