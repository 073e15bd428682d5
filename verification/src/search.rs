use vstd::prelude::*;

use crate::text::{chars_of, count_occurrences_nonempty, occurrence_count};

verus! {

#[verifier::external_type_specification]
#[verifier::external_body]
pub struct ExRegex(regex::Regex);

#[verifier::external_type_specification]
#[verifier::external_body]
pub struct ExRegexError(regex::Error);

/// Whether `regex::Regex::new` accepts the pattern: it parses, and compiles within the
/// default size limit.
pub uninterp spec fn regex_accepts(pattern: Seq<char>) -> bool;

/// How many successive non-overlapping matches `Regex::find_iter` yields in `text` for the
/// regex compiled from `pattern`.
pub uninterp spec fn regex_match_count(pattern: Seq<char>, text: Seq<char>) -> nat;

/// The Unicode lowercase mapping that `str::to_lowercase` applies.
pub uninterp spec fn lowercase(s: Seq<char>) -> Seq<char>;

/// Calls `regex::Regex::new`, which returns `Ok` exactly when it accepts the pattern.
#[verifier::external_body]
fn compile_regex(pattern: &str) -> (r: Result<regex::Regex, regex::Error>)
    ensures
        r is Ok <==> regex_accepts(pattern@),
{
    regex::Regex::new(pattern)
}

/// Calls `str::to_lowercase`; the result is the lowercase mapping of the text.
#[verifier::external_body]
fn to_lowercase(s: &str) -> (r: String)
    ensures
        r@ == lowercase(s@),
{
    s.to_lowercase()
}

/// A regular expression together with the pattern it was compiled from.
/// The two fields are only ever set together, by `RegexMatcher::new`.
#[derive(Debug)]
pub struct RegexMatcher {
    pattern: String,
    compiled: regex::Regex,
}

impl View for RegexMatcher {
    type V = Seq<char>;

    /// The pattern the regex was compiled from.
    closed spec fn view(&self) -> Seq<char> {
        self.pattern@
    }
}

/// Calls `find_iter(text).count()` on the compiled regex of `m`, which was compiled from
/// `m@`; the count is the number of matches named by `regex_match_count`.
#[verifier::external_body]
fn regex_count(m: &RegexMatcher, text: &str) -> (n: usize)
    ensures
        n == regex_match_count(m@, text@),
{
    m.compiled.find_iter(text).count()
}

impl RegexMatcher {
    /// Compiles `pattern`; fails exactly when `regex::Regex::new` rejects it.
    pub fn new(pattern: &str) -> (r: Result<RegexMatcher, regex::Error>)
        ensures
            r is Ok <==> regex_accepts(pattern@),
            r matches Ok(m) ==> m@ == pattern@,
    {
        match compile_regex(pattern) {
            Ok(compiled) => Ok(RegexMatcher { pattern: pattern.to_owned(), compiled }),
            Err(e) => Err(e),
        }
    }

    /// The pattern this regex was compiled from.
    pub fn as_str(&self) -> (s: &str)
        ensures
            s@ == self@,
    {
        self.pattern.as_str()
    }
}

/// Why a search could not be set up.
#[derive(Debug)]
pub enum SearchError {
    /// The regular expression was rejected by the regex engine.
    InvalidRegex(regex::Error),
}

/// How a search string is matched against file contents.
#[derive(Debug)]
pub enum SearchOptions {
    /// Case-sensitive substring search.
    Literal { pattern: String },
    /// Substring search on lowercased text, with the pattern lowercased up front.
    CaseInsensitive { lower_pattern: String },
    /// Regular-expression search.
    Regex { regex: RegexMatcher },
}

/// The number of matches of `opts` in `text`.
pub open spec fn match_count(opts: &SearchOptions, text: Seq<char>) -> nat {
    match opts {
        SearchOptions::Literal { pattern } => occurrence_count(text, pattern@),
        SearchOptions::CaseInsensitive { lower_pattern } => occurrence_count(
            lowercase(text),
            lower_pattern@,
        ),
        SearchOptions::Regex { regex } => regex_match_count(regex@, text),
    }
}

/// A non-negative count as an `i64`, when it fits.
pub open spec fn count_as_i64(n: nat) -> Option<i64> {
    if n <= i64::MAX {
        Some(n as i64)
    } else {
        None
    }
}

/// `n` as an `i64`, when it fits.
fn usize_count(n: usize) -> (r: Option<i64>)
    ensures
        r == count_as_i64(n as nat),
{
    if (n as u64) <= 0x7fff_ffff_ffff_ffffu64 {
        Some(n as i64)
    } else {
        None
    }
}

/// Counts the leftmost non-overlapping occurrences of `pat` in `text`, as an `i64` when
/// the count fits.
fn count_in(text: &str, pat: &str) -> (r: Option<i64>)
    ensures
        r == count_as_i64(occurrence_count(text@, pat@)),
{
    let t = chars_of(text);
    let p = chars_of(pat);
    if p.len() == 0 {
        if (t.len() as u64) < 0x7fff_ffff_ffff_ffffu64 {
            Some(t.len() as i64 + 1)
        } else {
            None
        }
    } else {
        usize_count(count_occurrences_nonempty(&t, &p))
    }
}

impl SearchOptions {
    /// Picks the matching mode: a regex when `use_regex` (then `case_insensitive` is
    /// ignored), otherwise a case-insensitive or a literal substring search.
    pub fn new(pattern: &str, case_insensitive: bool, use_regex: bool) -> (r: Result<
        SearchOptions,
        SearchError,
    >)
        ensures
            use_regex ==> (r is Ok <==> regex_accepts(pattern@)),
            use_regex ==> (r matches Ok(o) ==> o matches SearchOptions::Regex { regex } && regex@
                == pattern@),
            !use_regex && case_insensitive ==> (r matches Ok(o) && o matches SearchOptions::CaseInsensitive { lower_pattern } && lower_pattern@ == lowercase(pattern@)),
            !use_regex && !case_insensitive ==> (r matches Ok(o) && o matches SearchOptions::Literal { pattern: p } && p@ == pattern@),
    {
        if use_regex {
            Self::regex(pattern)
        } else if case_insensitive {
            Ok(Self::case_insensitive(pattern))
        } else {
            Ok(Self::literal(pattern))
        }
    }

    /// A case-sensitive substring search for `pattern`.
    pub fn literal(pattern: &str) -> (r: SearchOptions)
        ensures
            r matches SearchOptions::Literal { pattern: p } && p@ == pattern@,
    {
        SearchOptions::Literal { pattern: pattern.to_owned() }
    }

    /// A case-insensitive substring search: the pattern is stored lowercased.
    pub fn case_insensitive(pattern: &str) -> (r: SearchOptions)
        ensures
            r matches SearchOptions::CaseInsensitive { lower_pattern } && lower_pattern@
                == lowercase(pattern@),
    {
        SearchOptions::CaseInsensitive { lower_pattern: to_lowercase(pattern) }
    }

    /// A regular-expression search; fails exactly when the regex engine rejects `pattern`.
    pub fn regex(pattern: &str) -> (r: Result<SearchOptions, SearchError>)
        ensures
            r is Ok <==> regex_accepts(pattern@),
            r matches Ok(o) ==> o matches SearchOptions::Regex { regex } && regex@ == pattern@,
    {
        match RegexMatcher::new(pattern) {
            Ok(m) => Ok(SearchOptions::Regex { regex: m }),
            Err(e) => Err(SearchError::InvalidRegex(e)),
        }
    }

    /// Number of matches in `text`, as an `i64` when it fits: literal and case-insensitive
    /// searches count leftmost non-overlapping occurrences (after lowercasing the text in
    /// the case-insensitive mode); a regex search counts the matches of `find_iter`.
    pub fn count_matches(&self, text: &str) -> (r: Option<i64>)
        ensures
            r == count_as_i64(match_count(self, text@)),
    {
        match self {
            SearchOptions::Regex { regex } => {
                usize_count(regex_count(regex, text))
            },
            SearchOptions::CaseInsensitive { lower_pattern } => {
                let lower_text = to_lowercase(text);
                count_in(lower_text.as_str(), lower_pattern.as_str())
            },
            SearchOptions::Literal { pattern } => count_in(text, pattern.as_str()),
        }
    }
}

} // verus!
