use vstd::prelude::*;

use crate::delta::{
    blob_count, change_delta, change_location, credit, delta_sum, lemma_credit_none, owner_deltas,
    searched_delta, Change, EntryMode,
};
use crate::owners::{chosen_codeowners, codeowners_lookup, owners_for, unowned_name, CodeownersCandidate};
use crate::scan::{decimal, grouped_decimal, scan_sum, scanned_count, three_digits};
use crate::search::{lowercase, match_count, regex_match_count, SearchOptions};
use crate::syntax::codeowners_glob;
use crate::text::{occurrence_count, occurrences_from, occurs_at};
use crate::tally::{merged, value_or_zero};
use crate::timeline::{
    commit_delta_sum, commit_owner_deltas, insert_by_timestamp, lemma_sorted_multiset,
    owner_totals, sorted_by_timestamp, CommitData,
};

verus! {

/// The timestamps of the sequence never decrease.
pub open spec fn timestamps_ascending(s: Seq<CommitData>) -> bool {
    forall|i: int, j: int| 0 <= i <= j < s.len() ==> s[i].timestamp <= s[j].timestamp
}

proof fn lemma_insert_ascending(s: Seq<CommitData>, c: CommitData)
    requires
        timestamps_ascending(s),
    ensures
        timestamps_ascending(insert_by_timestamp(s, c)),
    decreases s.len(),
{
    broadcast use vstd::seq_lib::group_to_multiset_ensures;

    if s.len() == 0 || s.last().timestamp <= c.timestamp {
    } else {
        let t = s.drop_last();
        lemma_insert_ascending(t, c);
        let u = insert_by_timestamp(t, c);
        crate::timeline::lemma_insert_multiset(t, c);
        assert forall|i: int| 0 <= i < u.len() implies u[i].timestamp <= s.last().timestamp by {
            assert(u.to_multiset().count(u[i]) > 0);
            if u[i] != c {
                assert(t.to_multiset().count(u[i]) > 0);
                assert(t.contains(u[i]));
                let w = choose|w: int| 0 <= w < t.len() && t[w] == u[i];
                assert(s[w] == u[i]);
            }
        }
    }
}

/// The timeline order is ascending in the commit timestamps (oldest first).
pub proof fn law_timeline_sorted(s: Seq<CommitData>)
    ensures
        timestamps_ascending(sorted_by_timestamp(s)),
    decreases s.len(),
{
    if s.len() > 0 {
        law_timeline_sorted(s.drop_last());
        lemma_insert_ascending(sorted_by_timestamp(s.drop_last()), s.last());
    }
}

/// Ordering the commits by timestamp neither drops nor duplicates a commit.
pub proof fn law_timeline_keeps_commits(s: Seq<CommitData>)
    ensures
        sorted_by_timestamp(s).to_multiset() == s.to_multiset(),
        sorted_by_timestamp(s).len() == s.len(),
{
    lemma_sorted_multiset(s);
}

/// The commits of the sequence with timestamp `t`, in order.
pub open spec fn with_timestamp(s: Seq<CommitData>, t: i64) -> Seq<CommitData> {
    s.filter(|c: CommitData| c.timestamp == t)
}

proof fn lemma_insert_same_timestamp(s: Seq<CommitData>, c: CommitData, t: i64)
    ensures
        with_timestamp(insert_by_timestamp(s, c), t) == if c.timestamp == t {
            with_timestamp(s, t).push(c)
        } else {
            with_timestamp(s, t)
        },
    decreases s.len(),
{
    reveal_with_fuel(Seq::filter, 1);
    if s.len() == 0 || s.last().timestamp <= c.timestamp {
        assert(s.push(c).drop_last() =~= s);
    } else {
        let u = insert_by_timestamp(s.drop_last(), c);
        lemma_insert_same_timestamp(s.drop_last(), c, t);
        assert(u.push(s.last()).drop_last() =~= u);
        if c.timestamp == t {
            assert(s.last().timestamp != t);
        }
    }
}

/// The ordering is stable: commits that share a timestamp keep their relative order.
pub proof fn law_timeline_stable(s: Seq<CommitData>, t: i64)
    ensures
        with_timestamp(sorted_by_timestamp(s), t) == with_timestamp(s, t),
    decreases s.len(),
{
    reveal_with_fuel(Seq::filter, 1);
    if s.len() > 0 {
        law_timeline_stable(s.drop_last(), t);
        lemma_insert_same_timestamp(sorted_by_timestamp(s.drop_last()), s.last(), t);
    }
}

proof fn lemma_insert_sum(s: Seq<CommitData>, c: CommitData)
    ensures
        commit_delta_sum(insert_by_timestamp(s, c)) == commit_delta_sum(s) + c.delta,
    decreases s.len(),
{
    if s.len() == 0 || s.last().timestamp <= c.timestamp {
        assert(s.push(c).drop_last() =~= s);
    } else {
        lemma_insert_sum(s.drop_last(), c);
        let u = insert_by_timestamp(s.drop_last(), c);
        assert(u.push(s.last()).drop_last() =~= u);
    }
}

/// The final running count of the timeline does not depend on the order in which the
/// commits were processed: it is the sum of all their deltas.
pub proof fn law_final_count_is_total(s: Seq<CommitData>)
    ensures
        commit_delta_sum(sorted_by_timestamp(s)) == commit_delta_sum(s),
    decreases s.len(),
{
    if s.len() > 0 {
        law_final_count_is_total(s.drop_last());
        lemma_insert_sum(sorted_by_timestamp(s.drop_last()), s.last());
    }
}

proof fn lemma_merged_swap(a: Map<Seq<char>, int>, b: Map<Seq<char>, int>, c: Map<Seq<char>, int>)
    ensures
        merged(merged(a, b), c) == merged(merged(a, c), b),
{
    assert(merged(merged(a, b), c) =~= merged(merged(a, c), b));
}

proof fn lemma_insert_owner_totals(s: Seq<CommitData>, c: CommitData)
    ensures
        owner_totals(insert_by_timestamp(s, c)) == merged(owner_totals(s), commit_owner_deltas(c)),
    decreases s.len(),
{
    if s.len() == 0 || s.last().timestamp <= c.timestamp {
        assert(s.push(c).drop_last() =~= s);
    } else {
        let t = s.drop_last();
        lemma_insert_owner_totals(t, c);
        let u = insert_by_timestamp(t, c);
        assert(u.push(s.last()).drop_last() =~= u);
        lemma_merged_swap(owner_totals(t), commit_owner_deltas(c), commit_owner_deltas(s.last()));
    }
}

/// The final per-owner totals of the timeline do not depend on the order in which the
/// commits were processed.
pub proof fn law_final_owner_totals(s: Seq<CommitData>)
    ensures
        owner_totals(sorted_by_timestamp(s)) == owner_totals(s),
    decreases s.len(),
{
    if s.len() > 0 {
        law_final_owner_totals(s.drop_last());
        lemma_insert_owner_totals(sorted_by_timestamp(s.drop_last()), s.last());
    }
}

/// Each timeline count is the previous one plus the delta of its commit.
pub proof fn law_running_count_step(s: Seq<CommitData>, k: int)
    requires
        0 <= k < s.len(),
    ensures
        commit_delta_sum(s.take(k + 1)) == commit_delta_sum(s.take(k)) + s[k].delta,
{
    assert(s.take(k + 1).drop_last() =~= s.take(k));
}

/// Each owner's total after a commit is its total before plus what the commit credited
/// to it.
pub proof fn law_running_owner_step(s: Seq<CommitData>, k: int, owner: Seq<char>)
    requires
        0 <= k < s.len(),
    ensures
        value_or_zero(owner_totals(s.take(k + 1)), owner) == value_or_zero(
            owner_totals(s.take(k)),
            owner,
        ) + value_or_zero(commit_owner_deltas(s[k]), owner),
{
    assert(s.take(k + 1).drop_last() =~= s.take(k));
}

/// Deleting a blob undoes adding it: the two deltas cancel.
pub proof fn law_deletion_undoes_addition(
    opts: &SearchOptions,
    location: String,
    mode: EntryMode,
    content: Option<Vec<u8>>,
)
    ensures
        change_delta(opts, Change::Addition { location, mode, content }) is Some <==> change_delta(
            opts,
            Change::Deletion { location, mode, content },
        ) is Some,
        change_delta(opts, Change::Addition { location, mode, content }) matches Some(a)
            ==> change_delta(opts, Change::Deletion { location, mode, content }) == Some(-a),
{
}

/// A modification counts as deleting the old blob and adding the new one.
pub proof fn law_modification_is_deletion_plus_addition(
    opts: &SearchOptions,
    location: String,
    mode: EntryMode,
    previous_content: Option<Vec<u8>>,
    content: Option<Vec<u8>>,
)
    ensures
        ({
            let m = change_delta(
                opts,
                Change::Modification { location, mode, previous_content, content },
            );
            let d = change_delta(opts, Change::Deletion { location, mode, content: previous_content });
            let a = change_delta(opts, Change::Addition { location, mode, content });
            match (d, a) {
                (Some(dv), Some(av)) => m == Some(dv + av),
                _ => m is None,
            }
        }),
{
}

/// Changing a file and changing it back leaves the count where it was.
pub proof fn law_modification_round_trip(
    opts: &SearchOptions,
    location: String,
    mode: EntryMode,
    first: Option<Vec<u8>>,
    second: Option<Vec<u8>>,
)
    ensures
        ({
            let there = change_delta(
                opts,
                Change::Modification { location, mode, previous_content: first, content: second },
            );
            let back = change_delta(
                opts,
                Change::Modification { location, mode, previous_content: second, content: first },
            );
            (there is Some <==> back is Some) && (there matches Some(x) ==> back == Some(-x))
        }),
{
}

/// The delta of a list of changes is the sum of the deltas of its parts.
pub proof fn law_commit_delta_additive(opts: &SearchOptions, a: Seq<Change>, b: Seq<Change>)
    ensures
        delta_sum(opts, a + b) == delta_sum(opts, a) + delta_sum(opts, b),
    decreases b.len(),
{
    if b.len() == 0 {
        assert(a + b =~= a);
    } else {
        law_commit_delta_additive(opts, a, b.drop_last());
        assert((a + b).drop_last() =~= a + b.drop_last());
        assert((a + b).last() == b.last());
    }
}

/// Without CODEOWNERS rules every delta is credited to `unowned` alone, so its total is the
/// commit's delta.
pub proof fn law_without_rules_all_unowned(opts: &SearchOptions, cs: Seq<Change>)
    ensures
        owner_deltas(opts, None, cs) matches Some(m) ==> {
            &&& forall|k: Seq<char>| m.dom().contains(k) ==> k == unowned_name()
            &&& value_or_zero(m, unowned_name()) == delta_sum(opts, cs)
        },
    decreases cs.len(),
{
    if cs.len() > 0 {
        law_without_rules_all_unowned(opts, cs.drop_last());
        let prev = owner_deltas(opts, None, cs.drop_last());
        if let Some(d) = searched_delta(opts, cs.last()) {
            let os = owners_for(None, crate::delta::change_location(cs.last()));
            assert(os == seq![unowned_name()]);
            assert(os.drop_last() =~= Seq::<Seq<char>>::empty());
            assert(credit(prev, os.drop_last(), d) == prev);
        }
    }
}

/// A case-insensitive search counts the literal matches of the lowercased pattern in the
/// lowercased text.
pub proof fn law_case_insensitive_is_lowercase_literal(lower_pattern: String, text: Seq<char>)
    ensures
        match_count(&SearchOptions::CaseInsensitive { lower_pattern }, text) == match_count(
            &SearchOptions::Literal { pattern: lower_pattern },
            lowercase(text),
        ),
{
}

proof fn lemma_occurrences_room(t: Seq<char>, p: Seq<char>, i: int)
    requires
        p.len() > 0,
        0 <= i <= t.len(),
    ensures
        occurrences_from(t, p, i) * p.len() <= t.len() - i,
    decreases t.len() - i,
{
    if i + p.len() > t.len() {
        assert(occurrences_from(t, p, i) == 0);
    } else if crate::text::occurs_at(t, p, i) {
        lemma_occurrences_room(t, p, i + p.len());
        let n = occurrences_from(t, p, i + p.len());
        assert(occurrences_from(t, p, i) == 1 + n);
        assert((1 + n) * p.len() == p.len() + n * p.len()) by (nonlinear_arith);
    } else {
        lemma_occurrences_room(t, p, i + 1);
        assert(occurrences_from(t, p, i) == occurrences_from(t, p, i + 1));
    }
}

/// Occurrences of a non-empty pattern never overlap: together they take no more room than
/// the text has. In particular a pattern longer than the text never matches.
pub proof fn law_occurrences_fit_in_text(text: Seq<char>, pat: Seq<char>)
    requires
        pat.len() > 0,
    ensures
        occurrence_count(text, pat) * pat.len() <= text.len(),
        pat.len() > text.len() ==> occurrence_count(text, pat) == 0,
{
    lemma_occurrences_room(text, pat, 0);
    if pat.len() > text.len() {
        let n = occurrence_count(text, pat);
        if n > 0 {
            assert(n * pat.len() >= pat.len()) by (nonlinear_arith)
                requires
                    n > 0,
                    pat.len() > 0,
            ;
        }
    }
}

/// The text of a count without its thousands separators.
pub open spec fn without_commas(s: Seq<char>) -> Seq<char> {
    s.filter(|c: char| c != ',')
}

proof fn lemma_decimal_split(n: nat)
    requires
        n >= 1000,
    ensures
        decimal(n) == decimal(n / 1000) + three_digits(n % 1000),
{
    let a = n / 1000;
    assert(n / 10 / 10 == n / 100);
    assert(n / 100 / 10 == a);
    assert((n % 1000) / 100 == (n / 100) % 10);
    assert(((n % 1000) / 10) % 10 == (n / 10) % 10);
    assert((n % 1000) % 10 == n % 10);
    assert(n / 100 >= 10);
    assert(decimal(n / 10) == decimal(n / 100).push(crate::scan::digit_char((n / 10) % 10)));
    assert(decimal(n / 100) == decimal(a).push(crate::scan::digit_char((n / 100) % 10)));
    assert(decimal(n) =~= decimal(a) + three_digits(n % 1000));
}

proof fn lemma_digits_no_commas(s: Seq<char>)
    requires
        forall|i: int| 0 <= i < s.len() ==> s[i] != ',',
    ensures
        without_commas(s) == s,
    decreases s.len(),
{
    if s.len() > 0 {
        lemma_digits_no_commas(s.drop_last());
        assert(s =~= s.drop_last().push(s.last()));
        reveal_with_fuel(Seq::filter, 1);
    }
}

proof fn lemma_decimal_digits(n: nat)
    ensures
        forall|i: int| 0 <= i < decimal(n).len() ==> decimal(n)[i] != ',',
    decreases n,
{
    let digits = seq!['0', '1', '2', '3', '4', '5', '6', '7', '8', '9'];
    assert(forall|d: int| 0 <= d < 10 ==> digits[d] != ',');
    assert(crate::scan::digit_char(n % 10) == digits[(n % 10) as int]);
    if n >= 10 {
        lemma_decimal_digits(n / 10);
        let s = decimal(n);
        assert(s == decimal(n / 10).push(crate::scan::digit_char(n % 10)));
        assert forall|i: int| 0 <= i < s.len() implies s[i] != ',' by {
            if i < s.len() - 1 {
                assert(s[i] == decimal(n / 10)[i]);
            }
        }
    } else {
        assert(decimal(n) == seq![crate::scan::digit_char(n)]);
        assert(n % 10 == n);
    }
}

/// Dropping the separators from a formatted count gives back its plain decimal digits.
pub proof fn law_grouping_only_adds_separators(n: nat)
    ensures
        without_commas(grouped_decimal(n)) == decimal(n),
    decreases n,
{
    broadcast use Seq::filter_distributes_over_add;

    if n < 1000 {
        lemma_decimal_digits(n);
        lemma_digits_no_commas(decimal(n));
    } else {
        law_grouping_only_adds_separators(n / 1000);
        lemma_decimal_split(n);
        let g = grouped_decimal(n / 1000);
        let t = three_digits(n % 1000);
        assert(without_commas(seq![',']) =~= Seq::<char>::empty()) by {
            reveal_with_fuel(Seq::filter, 2);
        }
        lemma_digits_no_commas(t);
        assert(without_commas(g + seq![','] + t) == without_commas(g + seq![',']) + without_commas(t));
        assert(without_commas(g + seq![',']) == without_commas(g) + without_commas(seq![',']));
        assert(without_commas(g) + Seq::<char>::empty() + t =~= decimal(n / 1000) + t);
    }
}

/// The count of a scan over several commits is the sum of their counts.
pub proof fn law_scan_additive(search: Seq<char>, a: Seq<Change>, b: Seq<Change>)
    ensures
        scan_sum(search, a + b) == scan_sum(search, a) + scan_sum(search, b),
    decreases b.len(),
{
    if b.len() == 0 {
        assert(a + b =~= a);
    } else {
        law_scan_additive(search, a, b.drop_last());
        assert((a + b).drop_last() =~= a + b.drop_last());
        assert((a + b).last() == b.last());
    }
}

/// Modifying a file into the very same blob moves nothing: the delta is zero whenever the
/// blob has a count.
pub proof fn law_unchanged_blob_has_zero_delta(
    opts: &SearchOptions,
    location: String,
    mode: EntryMode,
    content: Option<Vec<u8>>,
)
    ensures
        change_delta(
            opts,
            Change::Modification { location, mode, previous_content: content, content },
        ) == if blob_count(opts, content) is Some {
            Some(0int)
        } else {
            None
        },
{
}

/// The matches of one file of a tree: those of its blob, or none when it has no count.
pub open spec fn file_count(opts: &SearchOptions, blob: Option<Vec<u8>>) -> int {
    match blob_count(opts, blob) {
        Some(n) => n,
        None => 0,
    }
}

/// The matches over all files of a tree, given as (path, blob) pairs.
pub open spec fn tree_total(opts: &SearchOptions, t: Seq<(Seq<char>, Option<Vec<u8>>)>) -> int
    decreases t.len(),
{
    if t.len() == 0 {
        0
    } else {
        tree_total(opts, t.drop_last()) + file_count(opts, t.last().1)
    }
}

/// The tree has a file at `p`.
pub open spec fn has_path(t: Seq<(Seq<char>, Option<Vec<u8>>)>, p: Seq<char>) -> bool {
    exists|i: int| 0 <= i < t.len() && t[i].0 == p
}

/// The position of the file at `p` (meaningful when `has_path(t, p)`).
pub open spec fn path_index(t: Seq<(Seq<char>, Option<Vec<u8>>)>, p: Seq<char>) -> int {
    choose|i: int| 0 <= i < t.len() && t[i].0 == p
}

/// The change fits the tree: an added path is absent, a deleted or modified path is
/// present with the change's old blob.
pub open spec fn applies(t: Seq<(Seq<char>, Option<Vec<u8>>)>, c: Change) -> bool {
    match c {
        Change::Addition { location, .. } => !has_path(t, location@),
        Change::Deletion { location, content, .. } => has_path(t, location@) && t[path_index(
            t,
            location@,
        )].1 == content,
        Change::Modification { location, previous_content, .. } => has_path(t, location@)
            && t[path_index(t, location@)].1 == previous_content,
    }
}

/// The tree after the change.
pub open spec fn apply(t: Seq<(Seq<char>, Option<Vec<u8>>)>, c: Change) -> Seq<
    (Seq<char>, Option<Vec<u8>>),
> {
    match c {
        Change::Addition { location, content, .. } => t.push((location@, content)),
        Change::Deletion { location, .. } => t.remove(path_index(t, location@)),
        Change::Modification { location, content, .. } => t.update(
            path_index(t, location@),
            (location@, content),
        ),
    }
}

/// The tree after the changes, applied in order.
pub open spec fn apply_all(t: Seq<(Seq<char>, Option<Vec<u8>>)>, cs: Seq<Change>) -> Seq<
    (Seq<char>, Option<Vec<u8>>),
>
    decreases cs.len(),
{
    if cs.len() == 0 {
        t
    } else {
        apply(apply_all(t, cs.drop_last()), cs.last())
    }
}

/// Each change fits the tree that the changes before it produce: the changes are a diff
/// from `t` to `apply_all(t, cs)`.
pub open spec fn applies_all(t: Seq<(Seq<char>, Option<Vec<u8>>)>, cs: Seq<Change>) -> bool
    decreases cs.len(),
{
    if cs.len() == 0 {
        true
    } else {
        applies_all(t, cs.drop_last()) && applies(apply_all(t, cs.drop_last()), cs.last())
    }
}

proof fn lemma_tree_total_push(
    opts: &SearchOptions,
    t: Seq<(Seq<char>, Option<Vec<u8>>)>,
    x: (Seq<char>, Option<Vec<u8>>),
)
    ensures
        tree_total(opts, t.push(x)) == tree_total(opts, t) + file_count(opts, x.1),
{
    assert(t.push(x).drop_last() =~= t);
}

proof fn lemma_tree_total_remove(opts: &SearchOptions, t: Seq<(Seq<char>, Option<Vec<u8>>)>, i: int)
    requires
        0 <= i < t.len(),
    ensures
        tree_total(opts, t.remove(i)) == tree_total(opts, t) - file_count(opts, t[i].1),
    decreases t.len(),
{
    if i == t.len() - 1 {
        assert(t.remove(i) =~= t.drop_last());
    } else {
        lemma_tree_total_remove(opts, t.drop_last(), i);
        assert(t.remove(i) =~= t.drop_last().remove(i).push(t.last()));
        lemma_tree_total_push(opts, t.drop_last().remove(i), t.last());
    }
}

proof fn lemma_tree_total_update(
    opts: &SearchOptions,
    t: Seq<(Seq<char>, Option<Vec<u8>>)>,
    i: int,
    x: (Seq<char>, Option<Vec<u8>>),
)
    requires
        0 <= i < t.len(),
    ensures
        tree_total(opts, t.update(i, x)) == tree_total(opts, t) - file_count(opts, t[i].1)
            + file_count(opts, x.1),
    decreases t.len(),
{
    if i == t.len() - 1 {
        assert(t.update(i, x) =~= t.drop_last().push(x));
        lemma_tree_total_push(opts, t.drop_last(), x);
    } else {
        lemma_tree_total_update(opts, t.drop_last(), i, x);
        assert(t.update(i, x) =~= t.drop_last().update(i, x).push(t.last()));
        lemma_tree_total_push(opts, t.drop_last().update(i, x), t.last());
    }
}

proof fn lemma_apply_total(opts: &SearchOptions, t: Seq<(Seq<char>, Option<Vec<u8>>)>, c: Change)
    requires
        applies(t, c),
        change_delta(opts, c) is Some,
    ensures
        tree_total(opts, apply(t, c)) == tree_total(opts, t) + change_delta(opts, c)->0,
{
    match c {
        Change::Addition { location, content, .. } => {
            lemma_tree_total_push(opts, t, (location@, content));
        },
        Change::Deletion { location, .. } => {
            lemma_tree_total_remove(opts, t, path_index(t, location@));
        },
        Change::Modification { location, content, .. } => {
            lemma_tree_total_update(opts, t, path_index(t, location@), (location@, content));
        },
    }
}

/// The delta of a diff between two trees is the number of matches in the new tree minus
/// the number in the old one, when every change is of a searched file whose blobs have
/// counts (as for a history of non-executable UTF-8 text files).
pub proof fn law_diff_delta_is_tree_difference(
    opts: &SearchOptions,
    t0: Seq<(Seq<char>, Option<Vec<u8>>)>,
    cs: Seq<Change>,
)
    requires
        applies_all(t0, cs),
        forall|j: int| 0 <= j < cs.len() ==> #[trigger] searched_delta(opts, cs[j]) is Some,
    ensures
        delta_sum(opts, cs) == tree_total(opts, apply_all(t0, cs)) - tree_total(opts, t0),
    decreases cs.len(),
{
    if cs.len() > 0 {
        let init = cs.drop_last();
        assert forall|j: int| 0 <= j < init.len() implies #[trigger] searched_delta(opts, init[j]) is Some by {
            assert(init[j] == cs[j]);
        }
        law_diff_delta_is_tree_difference(opts, t0, init);
        assert(searched_delta(opts, cs[cs.len() - 1]) is Some);
        lemma_apply_total(opts, apply_all(t0, init), cs.last());
    }
}

/// A commit in ascending timestamp order is already where the timeline puts it.
pub proof fn law_sorted_history_keeps_its_order(s: Seq<CommitData>)
    requires
        timestamps_ascending(s),
    ensures
        sorted_by_timestamp(s) == s,
    decreases s.len(),
{
    if s.len() > 0 {
        let t = s.drop_last();
        assert(timestamps_ascending(t));
        law_sorted_history_keeps_its_order(t);
        if t.len() > 0 {
            assert(t.last() == s[s.len() - 2]);
        }
        assert(t.push(s.last()) =~= s);
    }
}

/// Along a history of trees that starts empty, where commit `j` carries the delta of the
/// diff from tree `j` to tree `j + 1`, the running count after commit `k` is the number of
/// matches in the whole tree of commit `k`; and with ascending commit times that is the
/// count of the `k`-th timeline entry.
pub proof fn law_timeline_counts_whole_trees(
    opts: &SearchOptions,
    s: Seq<CommitData>,
    diffs: Seq<Seq<Change>>,
    trees: Seq<Seq<(Seq<char>, Option<Vec<u8>>)>>,
    k: int,
)
    requires
        diffs.len() == s.len(),
        trees.len() == s.len() + 1,
        trees[0].len() == 0,
        forall|j: int|
            0 <= j < s.len() ==> applies_all(trees[j], #[trigger] diffs[j]) && trees[j + 1]
                == apply_all(trees[j], diffs[j]) && s[j].delta == delta_sum(opts, diffs[j]),
        forall|j: int, i: int|
            0 <= j < s.len() && 0 <= i < diffs[j].len() ==> #[trigger] searched_delta(
                opts,
                diffs[j][i],
            ) is Some,
        0 <= k <= s.len(),
    ensures
        commit_delta_sum(s.take(k)) == tree_total(opts, trees[k]),
        timestamps_ascending(s) ==> sorted_by_timestamp(s) == s,
    decreases k,
{
    if timestamps_ascending(s) {
        law_sorted_history_keeps_its_order(s);
    }
    if k == 0 {
        assert(s.take(0).len() == 0);
    } else {
        law_timeline_counts_whole_trees(opts, s, diffs, trees, k - 1);
        law_running_count_step(s, k - 1);
        let j = k - 1;
        assert(applies_all(trees[j], diffs[j]));
        assert forall|i: int| 0 <= i < diffs[j].len() implies #[trigger] searched_delta(
            opts,
            diffs[j][i],
        ) is Some by {}
        law_diff_delta_is_tree_difference(opts, trees[j], diffs[j]);
    }
}

/// The credit an owner gets from one delta: `d` for each time it is listed.
pub open spec fn listed_credit(os: Seq<Seq<char>>, k: Seq<char>, d: int) -> int
    decreases os.len(),
{
    if os.len() == 0 {
        0
    } else {
        listed_credit(os.drop_last(), k, d) + if os.last() == k {
            d
        } else {
            0
        }
    }
}

/// The sum, over the changes with a delta, of the delta times the number of times `k` is
/// listed among the owners of the change's path.
pub open spec fn owner_share(
    opts: &SearchOptions,
    rules: Option<Seq<char>>,
    cs: Seq<Change>,
    k: Seq<char>,
) -> int
    decreases cs.len(),
{
    if cs.len() == 0 {
        0
    } else {
        owner_share(opts, rules, cs.drop_last(), k) + match searched_delta(opts, cs.last()) {
            Some(d) => listed_credit(owners_for(rules, change_location(cs.last())), k, d),
            None => 0,
        }
    }
}

proof fn lemma_credit_values(
    m1: Map<Seq<char>, int>,
    os: Seq<Seq<char>>,
    d: int,
    m2: Map<Seq<char>, int>,
    k: Seq<char>,
)
    requires
        credit(Some(m1), os, d) == Some(m2),
    ensures
        value_or_zero(m2, k) == value_or_zero(m1, k) + listed_credit(os, k, d),
    decreases os.len(),
{
    if os.len() > 0 {
        let m3 = credit(Some(m1), os.drop_last(), d)->0;
        assert(credit(Some(m1), os.drop_last(), d) is Some);
        lemma_credit_values(m1, os.drop_last(), d, m3, k);
    }
}

/// Each owner's delta is the sum, over the files with a delta, of the file's delta once
/// per listing of the owner among the owners of the file's path (files no rule covers
/// count for `unowned`, deleted files by the commit's own rules).
pub proof fn law_owner_delta_is_sum_over_files(
    opts: &SearchOptions,
    rules: Option<Seq<char>>,
    cs: Seq<Change>,
    k: Seq<char>,
)
    ensures
        owner_deltas(opts, rules, cs) matches Some(m) ==> value_or_zero(m, k) == owner_share(
            opts,
            rules,
            cs,
            k,
        ),
    decreases cs.len(),
{
    if cs.len() > 0 {
        law_owner_delta_is_sum_over_files(opts, rules, cs.drop_last(), k);
        let prev = owner_deltas(opts, rules, cs.drop_last());
        if let Some(d) = searched_delta(opts, cs.last()) {
            let os = owners_for(rules, change_location(cs.last()));
            if let Some(m) = owner_deltas(opts, rules, cs) {
                if prev is None {
                    lemma_credit_none(os, d);
                }
                lemma_credit_values(prev->0, os, d, m, k);
            }
        }
    }
}

/// A scan counts, for a modification, the occurrences in its new blob only: the same as
/// for adding that blob, whatever the previous blob was. A deletion counts its removed blob
/// like an addition of it.
pub proof fn law_scan_counts_the_blob_a_change_points_at(
    search: Seq<char>,
    location: String,
    mode: EntryMode,
    previous_content: Option<Vec<u8>>,
    content: Option<Vec<u8>>,
)
    ensures
        scanned_count(
            search,
            Change::Modification { location, mode, previous_content, content },
        ) == scanned_count(search, Change::Addition { location, mode, content }),
        scanned_count(search, Change::Deletion { location, mode, content }) == scanned_count(
            search,
            Change::Addition { location, mode, content },
        ),
        (mode.is_blob && !mode.is_executable && content is Some && vstd::utf8::valid_utf8(
            content->0@,
        )) ==> scanned_count(search, Change::Addition { location, mode, content })
            == occurrence_count(vstd::utf8::decode_utf8(content->0@), search),
        !(mode.is_blob && !mode.is_executable) ==> scanned_count(
            search,
            Change::Addition { location, mode, content },
        ) == 0,
{
}

/// A regex search counts exactly the `find_iter` matches of the regex compiled from the
/// user's own pattern.
pub proof fn law_regex_counts_its_own_pattern(regex: crate::search::RegexMatcher, text: Seq<char>)
    ensures
        match_count(&SearchOptions::Regex { regex }, text) == regex_match_count(regex@, text),
{
}

proof fn lemma_occurrences_shift(x: Seq<char>, y: Seq<char>, p: Seq<char>, j: int)
    requires
        p.len() > 0,
        0 <= j,
    ensures
        occurrences_from(x + y, p, x.len() + j) == occurrences_from(y, p, j),
    decreases y.len() - j,
{
    let t = x + y;
    if j + p.len() <= y.len() {
        assert(t.subrange(x.len() + j, x.len() + j + p.len()) =~= y.subrange(j, j + p.len()));
        assert(occurs_at(t, p, x.len() + j) == occurs_at(y, p, j));
        if occurs_at(y, p, j) {
            lemma_occurrences_shift(x, y, p, j + p.len());
        } else {
            lemma_occurrences_shift(x, y, p, j + 1);
        }
    }
}

proof fn lemma_occurrences_before_separator(
    a: Seq<char>,
    sep: char,
    b: Seq<char>,
    p: Seq<char>,
    i: int,
)
    requires
        p.len() > 0,
        !p.contains(sep),
        0 <= i <= a.len() + 1,
    ensures
        occurrences_from(a.push(sep) + b, p, i) == occurrences_from(a, p, i) + occurrences_from(
            a.push(sep) + b,
            p,
            (a.len() + 1) as int,
        ),
    decreases a.len() + 1 - i,
{
    let t = a.push(sep) + b;
    let l = a.len() as int;
    if i <= l {
        if i + p.len() <= l {
            assert(t.subrange(i, i + p.len()) =~= a.subrange(i, i + p.len()));
            if occurs_at(a, p, i) {
                lemma_occurrences_before_separator(a, sep, b, p, i + p.len());
            } else {
                lemma_occurrences_before_separator(a, sep, b, p, i + 1);
            }
        } else {
            if occurs_at(t, p, i) {
                assert(t.subrange(i, i + p.len())[l - i] == sep);
                assert(p[l - i] == sep);
                assert(false);
            }
            assert(occurrences_from(a, p, i + 1) == 0);
            lemma_occurrences_before_separator(a, sep, b, p, i + 1);
        }
    }
}

/// Occurrences are counted over the whole text: around a character that no occurrence can
/// contain (say a newline, for a pattern without one), the counts of the two sides add up.
pub proof fn law_occurrences_add_across_separator(a: Seq<char>, sep: char, b: Seq<char>, p: Seq<char>)
    requires
        p.len() > 0,
        !p.contains(sep),
    ensures
        occurrence_count(a.push(sep) + b, p) == occurrence_count(a, p) + occurrence_count(b, p),
{
    lemma_occurrences_before_separator(a, sep, b, p, 0);
    lemma_occurrences_shift(a.push(sep), b, p, 0);
}

/// A literal search counts the matches of the whole text: for a pattern without a newline,
/// the count over two lines is the sum of the counts over each.
pub proof fn law_literal_search_spans_lines(pattern: String, a: Seq<char>, b: Seq<char>)
    requires
        pattern@.len() > 0,
        !pattern@.contains('\n'),
    ensures
        match_count(&SearchOptions::Literal { pattern }, a.push('\n') + b) == match_count(
            &SearchOptions::Literal { pattern },
            a,
        ) + match_count(&SearchOptions::Literal { pattern }, b),
{
    law_occurrences_add_across_separator(a, '\n', b, pattern@);
}

/// A pattern occurs once in itself.
pub proof fn law_pattern_occurs_once_in_itself(p: Seq<char>)
    ensures
        occurrence_count(p, p) == 1,
{
    if p.len() > 0 {
        assert(p.subrange(0, p.len() as int) =~= p);
        assert(occurs_at(p, p, 0));
        assert(occurrences_from(p, p, p.len() as int) == 0);
    }
}

/// Merging two tallies keeps every owner of either, with the sum of its totals (an owner
/// at zero stays).
pub proof fn law_merge_keeps_every_owner(m1: Map<Seq<char>, int>, m2: Map<Seq<char>, int>, k: Seq<char>)
    ensures
        merged(m1, m2).dom() == m1.dom().union(m2.dom()),
        value_or_zero(merged(m1, m2), k) == value_or_zero(m1, k) + value_or_zero(m2, k),
{
    assert(merged(m1, m2).dom() =~= m1.dom().union(m2.dom()));
}

/// The owners in the running totals are exactly those some commit so far credited, and
/// each total is the sum of what the commits credited it.
pub proof fn law_running_owners_are_all_credited(s: Seq<CommitData>, k: Seq<char>)
    ensures
        owner_totals(s).dom().contains(k) <==> exists|j: int|
            0 <= j < s.len() && #[trigger] commit_owner_deltas(s[j]).dom().contains(k),
    decreases s.len(),
{
    if s.len() > 0 {
        let t = s.drop_last();
        law_running_owners_are_all_credited(t, k);
        law_merge_keeps_every_owner(owner_totals(t), commit_owner_deltas(s.last()), k);
        if exists|j: int| 0 <= j < s.len() && #[trigger] commit_owner_deltas(s[j]).dom().contains(k) {
            let j = choose|j: int| 0 <= j < s.len() && #[trigger] commit_owner_deltas(s[j]).dom().contains(k);
            if j < s.len() - 1 {
                assert(t[j] == s[j]);
            }
        }
        if owner_totals(t).dom().contains(k) {
            let j = choose|j: int| 0 <= j < t.len() && #[trigger] commit_owner_deltas(t[j]).dom().contains(k);
            assert(s[j] == t[j]);
        }
    }
}

/// The glob of a CODEOWNERS rule path gets "**" appended only after a trailing '/': a path
/// starting with '*' and not ending with '/' is its own glob; a path starting with neither
/// '*' nor '/' gets the prefix "**/".
pub proof fn law_codeowners_glob_shape(p: Seq<char>)
    ensures
        p.len() > 0 && p[0] == '*' && p.last() != '/' ==> codeowners_glob(p) == p,
        p.len() > 0 && p[0] != '*' && p[0] != '/' && p.last() != '/' ==> codeowners_glob(p)
            == seq!['*', '*', '/'] + p,
        p.len() > 0 && p[0] != '*' && p[0] != '/' && p.last() == '/' ==> codeowners_glob(p)
            == seq!['*', '*', '/'] + p + seq!['*', '*'],
{
    if p.len() > 0 && p[0] == '*' {
        assert(crate::syntax::trim_leading_slashes(p) == p);
    }
    if p.len() > 0 && p[0] != '*' && p[0] != '/' {
        let q = seq!['*', '*', '/'] + p;
        assert(crate::syntax::trim_leading_slashes(q) == q);
        assert(q.last() == p.last());
    }
}

/// A path is credited to the owners of the rule that covers it, and to "unowned" alone
/// when there are no rules or no rule covers it.
pub proof fn law_owners_of_a_path(rules: Seq<char>, path: Seq<char>)
    ensures
        owners_for(None, path) == seq!["unowned"@],
        codeowners_lookup(rules, path) matches Some(o) ==> owners_for(Some(rules), path) == o,
        codeowners_lookup(rules, path) is None ==> owners_for(Some(rules), path) == seq!["unowned"@],
{
    reveal_strlit("unowned");
    assert(unowned_name() =~= "unowned"@);
}

/// The CODEOWNERS locations are tried in order: a location without a blob (missing, or not
/// a blob) passes on to the next, one holding UTF-8 text is chosen, and an unreadable one
/// ends the search with nothing.
pub proof fn law_codeowners_locations_in_order(
    first: CodeownersCandidate,
    rest: Seq<CodeownersCandidate>,
)
    ensures
        first is Missing || first is NotBlob ==> chosen_codeowners(seq![first] + rest)
            == chosen_codeowners(rest),
        first is Unreadable ==> chosen_codeowners(seq![first] + rest) is None,
        first matches CodeownersCandidate::Blob(b) ==> chosen_codeowners(seq![first] + rest) == if vstd::utf8::valid_utf8(b@) {
            Some(vstd::utf8::decode_utf8(b@))
        } else {
            chosen_codeowners(rest)
        },
        chosen_codeowners(Seq::<CodeownersCandidate>::empty()) is None,
{
    let s = seq![first] + rest;
    assert(s[0] == first);
    assert(s.drop_first() =~= rest);
}

} // verus!
