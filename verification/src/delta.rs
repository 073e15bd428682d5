use vstd::prelude::*;
use vstd::utf8::{decode_utf8, valid_utf8};

use crate::owners::{
    chosen_codeowners, codeowners_candidates_usable, codeowners_usable, determine_owners, opt_rules_view, owners_for, read_codeowners,
    string_views, CodeOwners, CodeownersCandidate,
};
use crate::search::{match_count, SearchOptions};
use crate::tally::{fits_i64, value_or_zero, OwnerTally};
use crate::text::utf8_text;

verus! {

/// The kind of a tree entry, as far as counting cares.
#[derive(Clone, Copy)]
pub struct EntryMode {
    pub is_blob: bool,
    pub is_executable: bool,
}

/// One change between a commit's tree and its parent's tree. A content is `None` when the
/// blob could not be read from the repository.
pub enum Change {
    Addition { location: String, mode: EntryMode, content: Option<Vec<u8>> },
    Deletion { location: String, mode: EntryMode, content: Option<Vec<u8>> },
    Modification {
        location: String,
        mode: EntryMode,
        previous_content: Option<Vec<u8>>,
        content: Option<Vec<u8>>,
    },
}

/// The path of the changed entry.
pub open spec fn change_location(c: Change) -> Seq<char> {
    match c {
        Change::Addition { location, .. } => location@,
        Change::Deletion { location, .. } => location@,
        Change::Modification { location, .. } => location@,
    }
}

/// The mode of the changed entry.
pub open spec fn change_mode(c: Change) -> EntryMode {
    match c {
        Change::Addition { mode, .. } => mode,
        Change::Deletion { mode, .. } => mode,
        Change::Modification { mode, .. } => mode,
    }
}

/// Only non-executable blobs are searched.
pub open spec fn is_searched(mode: EntryMode) -> bool {
    mode.is_blob && !mode.is_executable
}

/// The text of a blob, when it was read and is valid UTF-8.
pub open spec fn blob_text(blob: Option<Vec<u8>>) -> Option<Seq<char>> {
    match blob {
        Some(bytes) => if valid_utf8(bytes@) {
            Some(decode_utf8(bytes@))
        } else {
            None
        },
        None => None,
    }
}

/// The number of matches in a blob; `None` when the blob has no text or the number does
/// not fit in an `i64`.
pub open spec fn blob_count(opts: &SearchOptions, blob: Option<Vec<u8>>) -> Option<int> {
    match blob_text(blob) {
        Some(text) => if match_count(opts, text) <= i64::MAX {
            Some(match_count(opts, text) as int)
        } else {
            None
        },
        None => None,
    }
}

/// How a change moves the number of matches: an addition adds the matches of the new
/// blob, a deletion removes those of the old one, a modification adds the difference.
/// `None` when a blob involved has no count.
pub open spec fn change_delta(opts: &SearchOptions, c: Change) -> Option<int> {
    match c {
        Change::Addition { content, .. } => blob_count(opts, content),
        Change::Deletion { content, .. } => match blob_count(opts, content) {
            Some(n) => Some(-n),
            None => None,
        },
        Change::Modification { previous_content, content, .. } => match (
            blob_count(opts, previous_content),
            blob_count(opts, content),
        ) {
            (Some(old_n), Some(new_n)) => Some(new_n - old_n),
            _ => None,
        },
    }
}

/// The delta a change contributes to its commit: none unless its entry is searched.
pub open spec fn searched_delta(opts: &SearchOptions, c: Change) -> Option<int> {
    if is_searched(change_mode(c)) {
        change_delta(opts, c)
    } else {
        None
    }
}

/// An optional `i64` as an optional integer.
pub open spec fn opt_int(r: Option<i64>) -> Option<int> {
    match r {
        Some(v) => Some(v as int),
        None => None,
    }
}

/// The sum of the deltas of a list of changes.
pub open spec fn delta_sum(opts: &SearchOptions, cs: Seq<Change>) -> int
    decreases cs.len(),
{
    if cs.len() == 0 {
        0
    } else {
        delta_sum(opts, cs.drop_last()) + match searched_delta(opts, cs.last()) {
            Some(d) => d,
            None => 0,
        }
    }
}

/// Every running total of the deltas fits in an `i64`.
pub open spec fn running_sums_fit(opts: &SearchOptions, cs: Seq<Change>) -> bool {
    forall|k: int| 0 <= k <= cs.len() ==> fits_i64(#[trigger] delta_sum(opts, cs.take(k)))
}

/// Credits `d` to each owner in turn (an owner listed twice is credited twice); `None`
/// once a total leaves the `i64` range.
pub open spec fn credit(m: Option<Map<Seq<char>, int>>, owners: Seq<Seq<char>>, d: int) -> Option<
    Map<Seq<char>, int>,
>
    decreases owners.len(),
{
    if owners.len() == 0 {
        m
    } else {
        match credit(m, owners.drop_last(), d) {
            Some(m2) => {
                let v = value_or_zero(m2, owners.last()) + d;
                if fits_i64(v) {
                    Some(m2.insert(owners.last(), v))
                } else {
                    None
                }
            },
            None => None,
        }
    }
}

/// The per-owner deltas of a list of changes: each change with a delta credits it to the
/// owners of its path; `None` once a total leaves the `i64` range.
pub open spec fn owner_deltas(
    opts: &SearchOptions,
    rules: Option<Seq<char>>,
    cs: Seq<Change>,
) -> Option<Map<Seq<char>, int>>
    decreases cs.len(),
{
    if cs.len() == 0 {
        Some(Map::empty())
    } else {
        match searched_delta(opts, cs.last()) {
            Some(d) => credit(
                owner_deltas(opts, rules, cs.drop_last()),
                owners_for(rules, change_location(cs.last())),
                d,
            ),
            None => owner_deltas(opts, rules, cs.drop_last()),
        }
    }
}

pub(crate) proof fn lemma_credit_none(owners: Seq<Seq<char>>, d: int)
    ensures
        credit(None, owners, d) is None,
    decreases owners.len(),
{
    if owners.len() > 0 {
        lemma_credit_none(owners.drop_last(), d);
    }
}

proof fn lemma_credit_prefix_none(m: Option<Map<Seq<char>, int>>, owners: Seq<Seq<char>>, j: int, d: int)
    requires
        0 <= j <= owners.len(),
        credit(m, owners.take(j), d) is None,
    ensures
        credit(m, owners, d) is None,
    decreases owners.len() - j,
{
    if j < owners.len() {
        assert(owners.take(j + 1).drop_last() =~= owners.take(j));
        lemma_credit_prefix_none(m, owners, j + 1, d);
    } else {
        assert(owners.take(j) =~= owners);
    }
}

proof fn lemma_owner_deltas_prefix_none(
    opts: &SearchOptions,
    rules: Option<Seq<char>>,
    cs: Seq<Change>,
    k: int,
)
    requires
        0 <= k <= cs.len(),
        owner_deltas(opts, rules, cs.take(k)) is None,
    ensures
        owner_deltas(opts, rules, cs) is None,
    decreases cs.len() - k,
{
    if k < cs.len() {
        let t = cs.take(k + 1);
        assert(t.drop_last() =~= cs.take(k));
        if let Some(d) = searched_delta(opts, t.last()) {
            lemma_credit_none(owners_for(rules, change_location(t.last())), d);
        }
        lemma_owner_deltas_prefix_none(opts, rules, cs, k + 1);
    } else {
        assert(cs.take(k) =~= cs);
    }
}

impl Change {
    /// The path of the changed entry.
    pub fn location(&self) -> (r: &String)
        ensures
            r@ == change_location(*self),
    {
        match self {
            Change::Addition { location, .. } => location,
            Change::Deletion { location, .. } => location,
            Change::Modification { location, .. } => location,
        }
    }

    /// The mode of the changed entry.
    pub fn mode(&self) -> (r: EntryMode)
        ensures
            r == change_mode(*self),
    {
        match self {
            Change::Addition { mode, .. } => *mode,
            Change::Deletion { mode, .. } => *mode,
            Change::Modification { mode, .. } => *mode,
        }
    }
}

/// Whether entries of this mode are searched.
pub fn is_searched_entry(mode: EntryMode) -> (b: bool)
    ensures
        b == is_searched(mode),
{
    mode.is_blob && !mode.is_executable
}

/// The number of matches in a blob, when it has text and the number fits in an `i64`.
pub fn count_matches_in_blob(opts: &SearchOptions, blob: &Option<Vec<u8>>) -> (r: Option<i64>)
    ensures
        opt_int(r) == blob_count(opts, *blob),
{
    match blob {
        Some(bytes) => match utf8_text(bytes.as_slice()) {
            Some(text) => opts.count_matches(text),
            None => None,
        },
        None => None,
    }
}

/// How a change moves the number of matches (see `change_delta`).
pub fn calculate_change_delta(opts: &SearchOptions, change: &Change) -> (r: Option<i64>)
    ensures
        opt_int(r) == change_delta(opts, *change),
{
    match change {
        Change::Addition { content, .. } => count_matches_in_blob(opts, content),
        Change::Deletion { content, .. } => match count_matches_in_blob(opts, content) {
            Some(n) => Some(-n),
            None => None,
        },
        Change::Modification { previous_content, content, .. } => {
            let old_count = match count_matches_in_blob(opts, previous_content) {
                Some(n) => n,
                None => {
                    return None;
                },
            };
            let new_count = match count_matches_in_blob(opts, content) {
                Some(n) => n,
                None => {
                    return None;
                },
            };
            Some(new_count - old_count)
        },
    }
}

/// Credits `delta` to each owner in turn.
fn credit_owners(tally: &mut OwnerTally, owners: &Vec<String>, delta: i64) -> (ok: bool)
    requires
        old(tally).wf(),
    ensures
        final(tally).wf(),
        ok <==> credit(Some(old(tally)@), string_views(owners@), delta as int) is Some,
        ok ==> credit(Some(old(tally)@), string_views(owners@), delta as int) == Some(
            final(tally)@,
        ),
{
    let ghost m0 = tally@;
    let ghost os = string_views(owners@);
    let mut j: usize = 0;
    assert(os.take(0) =~= Seq::<Seq<char>>::empty());
    while j < owners.len()
        invariant
            j <= owners.len(),
            os == string_views(owners@),
            m0 == old(tally)@,
            tally.wf(),
            credit(Some(m0), os.take(j as int), delta as int) == Some(tally@),
        decreases owners.len() - j,
    {
        assert(os.take(j + 1).drop_last() =~= os.take(j as int));
        assert(os.take(j + 1).last() == owners@[j as int]@);
        if !tally.add(&owners[j], delta) {
            proof {
                assert(credit(Some(m0), os.take(j + 1), delta as int) is None);
                lemma_credit_prefix_none(Some(m0), os, j + 1, delta as int);
            }
            return false;
        }
        j = j + 1;
    }
    assert(os.take(owners.len() as int) =~= os);
    true
}

/// What a commit changed: the delta of its match count and, when owners are tracked,
/// the delta credited to each owner.
pub struct DeltaResult {
    pub delta: i64,
    pub owner_deltas: Option<OwnerTally>,
}

/// Sums the deltas of a commit's changes (only searched entries count, and changes whose
/// blobs have no count are skipped). When `owner_files` is given (what was found at each
/// CODEOWNERS location of the commit), each delta is also credited to the owners of the
/// changed path. `None` when a running total leaves the `i64` range.
pub fn calculate_commit_delta(
    search_options: &SearchOptions,
    changes: &Vec<Change>,
    owner_files: Option<&Vec<CodeownersCandidate>>,
) -> (r: Option<DeltaResult>)
    requires
        owner_files matches Some(f) ==> codeowners_usable(f@),
    ensures
        r is Some <==> running_sums_fit(search_options, changes@) && (owner_files matches Some(
            f,
        ) ==> owner_deltas(search_options, chosen_codeowners(f@), changes@) is Some),
        r matches Some(res) ==> {
            &&& res.delta == delta_sum(search_options, changes@)
            &&& (res.owner_deltas is Some <==> owner_files is Some)
            &&& (res.owner_deltas matches Some(t) ==> owner_files matches Some(f) && t.wf()
                && owner_deltas(search_options, chosen_codeowners(f@), changes@) == Some(t@))
        },
{
    let codeowners_file: Option<CodeOwners> = match owner_files {
        Some(f) => read_codeowners(f),
        None => None,
    };
    let ghost rules = opt_rules_view(codeowners_file);
    let tracking = owner_files.is_some();
    let mut total: i64 = 0;
    let mut tally = OwnerTally::new();
    let mut i: usize = 0;
    assert(changes@.take(0) =~= Seq::<Change>::empty());
    while i < changes.len()
        invariant
            i <= changes.len(),
            tracking == owner_files is Some,
            owner_files matches Some(f) ==> rules == chosen_codeowners(f@),
            rules == opt_rules_view(codeowners_file),
            total == delta_sum(search_options, changes@.take(i as int)),
            forall|k: int|
                0 <= k <= i ==> fits_i64(#[trigger] delta_sum(search_options, changes@.take(k))),
            tally.wf(),
            tracking ==> owner_deltas(search_options, rules, changes@.take(i as int)) == Some(
                tally@,
            ),
        decreases changes.len() - i,
    {
        let change = &changes[i];
        let ghost t = changes@.take(i + 1);
        assert(t.drop_last() =~= changes@.take(i as int));
        assert(t.last() == changes@[i as int]);
        if is_searched_entry(change.mode()) {
            if let Some(delta) = calculate_change_delta(search_options, change) {
                match total.checked_add(delta) {
                    Some(v) => {
                        total = v;
                    },
                    None => {
                        assert(!fits_i64(delta_sum(search_options, changes@.take(i + 1))));
                        return None;
                    },
                }
                if tracking {
                    let path = change.location();
                    let owners = determine_owners(&codeowners_file, path.as_str());
                    if !credit_owners(&mut tally, &owners, delta) {
                        proof {
                            lemma_owner_deltas_prefix_none(
                                search_options,
                                rules,
                                changes@,
                                i + 1,
                            );
                        }
                        return None;
                    }
                }
            }
        }
        i = i + 1;
    }
    assert(changes@.take(changes.len() as int) =~= changes@);
    Some(
        DeltaResult {
            delta: total,
            owner_deltas: if tracking {
                Some(tally)
            } else {
                None
            },
        },
    )
}

/// Like `calculate_commit_delta`, but first checks that the chosen CODEOWNERS file, if any,
/// parses (where parsing would panic), and gives `None` when it does not.
pub fn try_calculate_commit_delta(
    search_options: &SearchOptions,
    changes: &Vec<Change>,
    owner_files: Option<&Vec<CodeownersCandidate>>,
) -> (r: Option<DeltaResult>)
    ensures
        (owner_files matches Some(f) && !codeowners_usable(f@)) ==> r is None,
        r is Some <==> (owner_files matches Some(f) ==> codeowners_usable(f@)) && running_sums_fit(
            search_options,
            changes@,
        ) && (owner_files matches Some(f) ==> owner_deltas(
            search_options,
            chosen_codeowners(f@),
            changes@,
        ) is Some),
        r matches Some(res) ==> {
            &&& res.delta == delta_sum(search_options, changes@)
            &&& (res.owner_deltas is Some <==> owner_files is Some)
            &&& (res.owner_deltas matches Some(t) ==> owner_files matches Some(f) && t.wf()
                && owner_deltas(search_options, chosen_codeowners(f@), changes@) == Some(t@))
        },
{
    if let Some(f) = owner_files {
        if !codeowners_candidates_usable(f) {
            return None;
        }
    }
    calculate_commit_delta(search_options, changes, owner_files)
}

} // verus!
