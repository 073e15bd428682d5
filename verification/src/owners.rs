use vstd::prelude::*;
use vstd::utf8::{decode_utf8, valid_utf8};

use crate::syntax::{codeowners_parse_ok, codeowners_parses};
use crate::text::utf8_text;

verus! {

#[verifier::external_type_specification]
#[verifier::external_body]
pub struct ExOwners(codeowners::Owners);

/// The owners that `codeowners::Owners::of` gives for `path` once the CODEOWNERS text
/// `rules` has been parsed with `codeowners::from_reader`, each owner as displayed
/// (`None` when no rule matches the path).
pub uninterp spec fn codeowners_lookup(rules: Seq<char>, path: Seq<char>) -> Option<
    Seq<Seq<char>>,
>;

/// The texts of a sequence of strings.
pub open spec fn string_views(v: Seq<String>) -> Seq<Seq<char>> {
    v.map_values(|s: String| s@)
}

/// The texts of an optional list of strings.
pub open spec fn opt_string_views(v: Option<Vec<String>>) -> Option<Seq<Seq<char>>> {
    match v {
        Some(v) => Some(string_views(v@)),
        None => None,
    }
}

/// A parsed CODEOWNERS file, together with the text it was parsed from.
/// The two fields are only ever set together, by `CodeOwners::parse`.
pub struct CodeOwners {
    source: String,
    rules: codeowners::Owners,
}

impl View for CodeOwners {
    type V = Seq<char>;

    /// The text of the CODEOWNERS file.
    closed spec fn view(&self) -> Seq<char> {
        self.source@
    }
}

/// Calls `codeowners::from_reader` on the text; it panics (on a rule whose pattern glob
/// rejects) unless `codeowners_parses` holds, which is therefore required.
#[verifier::external_body]
fn parse_rules(content: &str) -> codeowners::Owners
    requires
        codeowners_parses(content@),
{
    codeowners::from_reader(content.as_bytes())
}

/// Calls `codeowners::Owners::of` on the rules of `c`, which were parsed from `c@`, and
/// displays each owner it returns; the answer is the one named by `codeowners_lookup`.
#[verifier::external_body]
fn lookup_owners(c: &CodeOwners, path: &str) -> (r: Option<Vec<String>>)
    ensures
        opt_string_views(r) == codeowners_lookup(c@, path@),
{
    c.rules.of(path).map(|owners| owners.iter().map(|o| o.to_string()).collect())
}

impl CodeOwners {
    /// Parses the text of a CODEOWNERS file.
    pub fn parse(content: &str) -> (r: CodeOwners)
        requires
            codeowners_parses(content@),
        ensures
            r@ == content@,
    {
        CodeOwners { source: content.to_owned(), rules: parse_rules(content) }
    }

    /// Parses the text of a CODEOWNERS file, or gives `None` when a rule's pattern is not a
    /// valid glob (on which `parse` would panic).
    pub fn try_parse(content: &str) -> (r: Option<CodeOwners>)
        ensures
            r is Some <==> codeowners_parses(content@),
            r matches Some(c) ==> c@ == content@,
    {
        if codeowners_parse_ok(content) {
            Some(CodeOwners::parse(content))
        } else {
            None
        }
    }

    /// The owners of `path` according to the last matching rule, if a rule matches.
    pub fn of(&self, path: &str) -> (r: Option<Vec<String>>)
        ensures
            opt_string_views(r) == codeowners_lookup(self@, path@),
    {
        lookup_owners(self, path)
    }
}

/// The owner name credited for paths that no CODEOWNERS rule covers.
pub open spec fn unowned_name() -> Seq<char> {
    seq!['u', 'n', 'o', 'w', 'n', 'e', 'd']
}

/// The owners credited for a change at `path`: those of the matching rule, or
/// `unowned` when there are no rules or none matches.
pub open spec fn owners_for(rules: Option<Seq<char>>, path: Seq<char>) -> Seq<Seq<char>> {
    match rules {
        Some(text) => match codeowners_lookup(text, path) {
            Some(owners) => owners,
            None => seq![unowned_name()],
        },
        None => seq![unowned_name()],
    }
}

/// The text of an optional CODEOWNERS file.
pub open spec fn opt_rules_view(c: Option<CodeOwners>) -> Option<Seq<char>> {
    match c {
        Some(c) => Some(c@),
        None => None,
    }
}

fn unowned() -> (s: String)
    ensures
        s@ == unowned_name(),
{
    let s = "unowned";
    proof {
        reveal_strlit("unowned");
    }
    s.to_owned()
}

/// The owners to credit for a change at `path`.
pub fn determine_owners(codeowners_file: &Option<CodeOwners>, path: &str) -> (r: Vec<String>)
    ensures
        string_views(r@) == owners_for(opt_rules_view(*codeowners_file), path@),
{
    if let Some(owners_file) = codeowners_file {
        if let Some(owners) = owners_file.of(path) {
            return owners;
        }
    }
    let mut v: Vec<String> = Vec::new();
    v.push(unowned());
    assert(string_views(v@) =~= seq![unowned_name()]);
    v
}

/// What looking up one of the CODEOWNERS locations in a commit's tree found.
pub enum CodeownersCandidate {
    /// No entry at that path.
    Missing,
    /// An entry exists but its object could not be read.
    Unreadable,
    /// The entry is not a blob (for instance a directory).
    NotBlob,
    /// A blob with these bytes.
    Blob(Vec<u8>),
}

/// The CODEOWNERS text chosen from the candidates, tried in order: the first readable
/// blob that is valid UTF-8; the search stops with nothing at an unreadable entry.
pub open spec fn chosen_codeowners(cands: Seq<CodeownersCandidate>) -> Option<Seq<char>>
    decreases cands.len(),
{
    if cands.len() == 0 {
        None
    } else {
        match cands[0] {
            CodeownersCandidate::Unreadable => None,
            CodeownersCandidate::Blob(bytes) => if valid_utf8(bytes@) {
                Some(decode_utf8(bytes@))
            } else {
                chosen_codeowners(cands.drop_first())
            },
            _ => chosen_codeowners(cands.drop_first()),
        }
    }
}

/// The chosen CODEOWNERS text, if any, parses.
pub open spec fn codeowners_usable(cands: Seq<CodeownersCandidate>) -> bool {
    chosen_codeowners(cands) matches Some(t) ==> codeowners_parses(t)
}

/// Whether the CODEOWNERS file chosen from the candidates, if any, parses.
pub fn codeowners_candidates_usable(candidates: &Vec<CodeownersCandidate>) -> (b: bool)
    ensures
        b == codeowners_usable(candidates@),
{
    let mut i: usize = 0;
    assert(candidates@.skip(0) =~= candidates@);
    while i < candidates.len()
        invariant
            i <= candidates.len(),
            chosen_codeowners(candidates@) == chosen_codeowners(candidates@.skip(i as int)),
        decreases candidates.len() - i,
    {
        assert(candidates@.skip(i as int).drop_first() =~= candidates@.skip(i + 1));
        match &candidates[i] {
            CodeownersCandidate::Unreadable => {
                return true;
            },
            CodeownersCandidate::Blob(bytes) => {
                if let Some(text) = utf8_text(bytes.as_slice()) {
                    return codeowners_parse_ok(text);
                }
            },
            _ => {},
        }
        i = i + 1;
    }
    true
}

/// Where a CODEOWNERS file is looked for, in priority order.
pub fn codeowners_locations() -> (r: Vec<&'static str>)
    ensures
        r@.map_values(|s: &str| s@) == seq![
            "CODEOWNERS"@,
            ".github/CODEOWNERS"@,
            "docs/CODEOWNERS"@,
        ],
{
    let v = vec!["CODEOWNERS", ".github/CODEOWNERS", "docs/CODEOWNERS"];
    assert(v@.map_values(|s: &str| s@) =~= seq![
        "CODEOWNERS"@,
        ".github/CODEOWNERS"@,
        "docs/CODEOWNERS"@,
    ]);
    v
}

/// Picks and parses the CODEOWNERS file of a commit from what was found at each of the
/// locations, in priority order.
pub fn read_codeowners(candidates: &Vec<CodeownersCandidate>) -> (r: Option<CodeOwners>)
    requires
        codeowners_usable(candidates@),
    ensures
        opt_rules_view(r) == chosen_codeowners(candidates@),
{
    let mut i: usize = 0;
    assert(candidates@.skip(0) =~= candidates@);
    while i < candidates.len()
        invariant
            i <= candidates.len(),
            codeowners_usable(candidates@),
            chosen_codeowners(candidates@) == chosen_codeowners(candidates@.skip(i as int)),
        decreases candidates.len() - i,
    {
        assert(candidates@.skip(i as int).drop_first() =~= candidates@.skip(i + 1));
        match &candidates[i] {
            CodeownersCandidate::Unreadable => {
                return None;
            },
            CodeownersCandidate::Blob(bytes) => {
                if let Some(text) = utf8_text(bytes.as_slice()) {
                    return Some(CodeOwners::parse(text));
                }
            },
            _ => {},
        }
        i = i + 1;
    }
    None
}

} // verus!
