use vstd::prelude::*;

use rayon::slice::ParallelSliceMut;

use crate::delta::DeltaResult;
use crate::tally::{all_fit, distinct_names, fits_i64, merged, pairs_map, OwnerTally};

verus! {

/// A commit with its metadata and the deltas it contributed.
pub struct CommitData {
    pub timestamp: i64,
    pub date: String,
    pub commit_id: String,
    pub message: String,
    pub author_name: String,
    pub author_email: String,
    pub delta: i64,
    pub owner_deltas: Option<OwnerTally>,
}

/// One line of the timeline: a commit and the running totals after it.
pub struct TimelineEntry {
    pub date: String,
    pub commit_id: String,
    pub message: String,
    pub author_name: String,
    pub author_email: String,
    pub count: i64,
    pub codeowners: Option<Vec<(String, i64)>>,
}

/// The date of a commit time (seconds since the Unix epoch and offset from UTC in
/// seconds) as gix's `Time::format_or_unix` writes it in the ISO8601_STRICT format
/// (`2022-08-17T21:43:13+08:00`), or as the plain seconds when the offset is invalid.
pub uninterp spec fn iso8601_date(seconds: i64, offset: i32) -> Seq<char>;

/// The summary of a raw commit message as gix's `MessageRef::summary` gives it (its title,
/// with the lines of the title paragraph joined), displayed as a string.
pub uninterp spec fn message_summary(message: Seq<u8>) -> Seq<char>;

/// Calls gix's `Time::format_or_unix` with the ISO8601_STRICT format.
#[verifier::external_body]
fn format_commit_date(seconds: i64, offset: i32) -> (r: String)
    ensures
        r@ == iso8601_date(seconds, offset),
{
    gix::date::Time::new(seconds, offset).format_or_unix(gix::date::time::format::ISO8601_STRICT)
}

/// Calls gix's `MessageRef::from_bytes(message).summary()` and displays the summary.
#[verifier::external_body]
fn summarize_message(message: &[u8]) -> (r: String)
    ensures
        r@ == message_summary(message@),
{
    gix::objs::commit::MessageRef::from_bytes(message).summary().to_string()
}

/// The fields of a commit as read from the repository.
pub struct CommitMetadata {
    pub commit_id: String,
    pub seconds: i64,
    pub offset: i32,
    pub message: Vec<u8>,
    pub author_name: String,
    pub author_email: String,
}

/// Combines a commit's metadata with its deltas: the timestamp is the commit time, the
/// date its ISO 8601 form, the message the summary of the commit message.
pub fn extract_commit_metadata(metadata: CommitMetadata, result: DeltaResult) -> (c: CommitData)
    ensures
        c.timestamp == metadata.seconds,
        c.date@ == iso8601_date(metadata.seconds, metadata.offset),
        c.commit_id == metadata.commit_id,
        c.message@ == message_summary(metadata.message@),
        c.author_name == metadata.author_name,
        c.author_email == metadata.author_email,
        c.delta == result.delta,
        c.owner_deltas == result.owner_deltas,
{
    let date = format_commit_date(metadata.seconds, metadata.offset);
    let message = summarize_message(metadata.message.as_slice());
    CommitData {
        timestamp: metadata.seconds,
        date,
        commit_id: metadata.commit_id,
        message,
        author_name: metadata.author_name,
        author_email: metadata.author_email,
        delta: result.delta,
        owner_deltas: result.owner_deltas,
    }
}

/// Inserts `c` into the timestamp-sorted `s` after every element whose timestamp is not
/// larger than its own.
pub open spec fn insert_by_timestamp(s: Seq<CommitData>, c: CommitData) -> Seq<CommitData>
    decreases s.len(),
{
    if s.len() == 0 || s.last().timestamp <= c.timestamp {
        s.push(c)
    } else {
        insert_by_timestamp(s.drop_last(), c).push(s.last())
    }
}

/// The commits ordered by timestamp, oldest first, commits with equal timestamps keeping
/// their relative order (a stable sort).
pub open spec fn sorted_by_timestamp(s: Seq<CommitData>) -> Seq<CommitData>
    decreases s.len(),
{
    if s.len() == 0 {
        s
    } else {
        insert_by_timestamp(sorted_by_timestamp(s.drop_last()), s.last())
    }
}

/// Sum of the deltas of the commits.
pub open spec fn commit_delta_sum(s: Seq<CommitData>) -> int
    decreases s.len(),
{
    if s.len() == 0 {
        0
    } else {
        commit_delta_sum(s.drop_last()) + s.last().delta
    }
}

/// The owner deltas a commit carries (none when owners were not tracked).
pub open spec fn commit_owner_deltas(c: CommitData) -> Map<Seq<char>, int> {
    match c.owner_deltas {
        Some(t) => t@,
        None => Map::empty(),
    }
}

/// The per-owner sums of the owner deltas of the commits.
pub open spec fn owner_totals(s: Seq<CommitData>) -> Map<Seq<char>, int>
    decreases s.len(),
{
    if s.len() == 0 {
        Map::empty()
    } else {
        merged(owner_totals(s.drop_last()), commit_owner_deltas(s.last()))
    }
}

/// The owner tally of the commit, if any, is well formed.
pub open spec fn commit_wf(c: CommitData) -> bool {
    c.owner_deltas matches Some(t) ==> t.wf()
}

/// Every running total of the timeline fits in an `i64`.
pub open spec fn timeline_fits(s: Seq<CommitData>, track_owners: bool) -> bool {
    &&& forall|k: int| 0 <= k <= s.len() ==> fits_i64(#[trigger] commit_delta_sum(s.take(k)))
    &&& track_owners ==> forall|k: int|
        0 <= k <= s.len() ==> all_fit(#[trigger] owner_totals(s.take(k)))
}

/// The `k`-th entry of the timeline of the sorted commits `s` describes commit `s[k]`
/// with the running totals up to and including it.
pub open spec fn entry_matches(e: TimelineEntry, s: Seq<CommitData>, k: int, track_owners: bool) -> bool {
    &&& e.date@ == s[k].date@
    &&& e.commit_id@ == s[k].commit_id@
    &&& e.message@ == s[k].message@
    &&& e.author_name@ == s[k].author_name@
    &&& e.author_email@ == s[k].author_email@
    &&& e.count == commit_delta_sum(s.take(k + 1))
    &&& (e.codeowners is Some <==> track_owners)
    &&& (e.codeowners matches Some(v) ==> distinct_names(v@) && pairs_map(v@) == owner_totals(
        s.take(k + 1),
    ))
}

/// Sorts the commits with rayon's `par_sort_by_key` on the timestamp, which is a stable
/// sort: the result is `sorted_by_timestamp` of the input.
#[verifier::external_body]
fn sort_by_timestamp(v: &mut Vec<CommitData>)
    ensures
        final(v)@ == sorted_by_timestamp(old(v)@),
{
    v.par_sort_by_key(|data| data.timestamp);
}

/// Builds the timeline: the commits oldest first (stable in the timestamp), each with the
/// running total of the match count and, when owners are tracked, the running totals per
/// owner. `None` when a running total leaves the `i64` range.
pub fn build_timeline(commits: Vec<CommitData>, track_owners: bool) -> (r: Option<Vec<TimelineEntry>>)
    requires
        forall|i: int| 0 <= i < commits@.len() ==> commit_wf(#[trigger] commits@[i]),
    ensures
        r is Some <==> timeline_fits(sorted_by_timestamp(commits@), track_owners),
        r matches Some(es) ==> es@.len() == commits@.len() && forall|k: int|
            0 <= k < es@.len() ==> entry_matches(
                #[trigger] es@[k],
                sorted_by_timestamp(commits@),
                k,
                track_owners,
            ),
{
    let mut sorted = commits;
    sort_by_timestamp(&mut sorted);
    let ghost s = sorted@;
    proof {
        lemma_sorted_multiset(commits@);
        assert forall|j: int| 0 <= j < s.len() implies commit_wf(#[trigger] s[j]) by {
            broadcast use vstd::seq_lib::group_to_multiset_ensures;

            assert(s.contains(s[j]));
            assert(s.to_multiset().count(s[j]) > 0);
            assert(commits@.to_multiset().count(s[j]) > 0);
            assert(commits@.contains(s[j]));
            let w = choose|w: int| 0 <= w < commits@.len() && commits@[w] == s[j];
            assert(commit_wf(commits@[w]));
        }
        assert(s.take(0) =~= Seq::<CommitData>::empty());
    }
    let mut entries: Vec<TimelineEntry> = Vec::new();
    let mut running_total: i64 = 0;
    let mut running_owners = OwnerTally::new();
    let mut i: usize = 0;
    while i < sorted.len()
        invariant
            s == sorted@,
            s == sorted_by_timestamp(commits@),
            i <= s.len(),
            forall|j: int| 0 <= j < s.len() ==> commit_wf(#[trigger] s[j]),
            running_total == commit_delta_sum(s.take(i as int)),
            forall|k: int| 0 <= k <= i ==> fits_i64(#[trigger] commit_delta_sum(s.take(k))),
            running_owners.wf(),
            track_owners ==> running_owners@ == owner_totals(s.take(i as int)),
            track_owners ==> forall|k: int|
                0 <= k <= i ==> all_fit(#[trigger] owner_totals(s.take(k))),
            entries@.len() == i,
            forall|k: int|
                0 <= k < i ==> entry_matches(#[trigger] entries@[k], s, k, track_owners),
        decreases s.len() - i,
    {
        let c = &sorted[i];
        proof {
            assert(s.take(i + 1).drop_last() =~= s.take(i as int));
            assert(s.take(i + 1).last() == s[i as int]);
        }
        proof {
            assert(commit_delta_sum(s.take(i + 1)) == running_total + c.delta);
        }
        running_total = match running_total.checked_add(c.delta) {
            Some(v) => v,
            None => {
                assert(!fits_i64(commit_delta_sum(s.take(i + 1))));
                return None;
            },
        };
        let codeowners = if track_owners {
            proof {
                assert(owner_totals(s.take(i + 1)) == merged(
                    running_owners@,
                    commit_owner_deltas(s[i as int]),
                ));
            }
            let next = match &c.owner_deltas {
                Some(t) => running_owners.merged_with(t),
                None => {
                    let empty = OwnerTally::new();
                    proof {
                        assert(commit_owner_deltas(s[i as int]) == empty@);
                    }
                    running_owners.merged_with(&empty)
                },
            };
            match next {
                Some(t) => {
                    running_owners = t;
                    Some(running_owners.to_vec())
                },
                None => {
                    assert(!all_fit(owner_totals(s.take(i + 1))));
                    return None;
                },
            }
        } else {
            None
        };
        let entry = TimelineEntry {
            date: c.date.clone(),
            commit_id: c.commit_id.clone(),
            message: c.message.clone(),
            author_name: c.author_name.clone(),
            author_email: c.author_email.clone(),
            count: running_total,
            codeowners,
        };
        entries.push(entry);
        i = i + 1;
    }
    proof {
        assert(s.take(s.len() as int) =~= s);
    }
    Some(entries)
}

pub(crate) proof fn lemma_insert_multiset(s: Seq<CommitData>, c: CommitData)
    ensures
        insert_by_timestamp(s, c).to_multiset() =~= s.to_multiset().insert(c),
        insert_by_timestamp(s, c).len() == s.len() + 1,
    decreases s.len(),
{
    broadcast use vstd::seq_lib::group_to_multiset_ensures;

    if s.len() == 0 || s.last().timestamp <= c.timestamp {
    } else {
        lemma_insert_multiset(s.drop_last(), c);
        assert(s =~= s.drop_last().push(s.last()));
    }
}

/// Sorting keeps the commits: the same multiset, hence the same length.
pub proof fn lemma_sorted_multiset(s: Seq<CommitData>)
    ensures
        sorted_by_timestamp(s).to_multiset() =~= s.to_multiset(),
        sorted_by_timestamp(s).len() == s.len(),
    decreases s.len(),
{
    broadcast use vstd::seq_lib::group_to_multiset_ensures;

    if s.len() > 0 {
        lemma_sorted_multiset(s.drop_last());
        lemma_insert_multiset(sorted_by_timestamp(s.drop_last()), s.last());
        assert(s =~= s.drop_last().push(s.last()));
    }
}

} // verus!
