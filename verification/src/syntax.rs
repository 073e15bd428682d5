use vstd::prelude::*;

use crate::text::chars_of;

verus! {

/// Whether `glob::Pattern::new` (glob 0.2, the version the codeowners crate builds its
/// patterns with) accepts the pattern.
pub uninterp spec fn glob_accepts(pattern: Seq<char>) -> bool;

/// Calls `glob::Pattern::new` on the pattern written out from its characters.
#[verifier::external_body]
fn glob_pattern_ok(pattern: &[char]) -> (b: bool)
    ensures
        b == glob_accepts(pattern@),
{
    let text: String = pattern.iter().collect();
    glob::Pattern::new(&text).is_ok()
}

/// `char::is_whitespace`: the characters with the Unicode White_Space property.
pub open spec fn is_white_space(c: char) -> bool {
    let u = c as u32;
    ||| 0x9 <= u <= 0xd
    ||| u == 0x20
    ||| u == 0x85
    ||| u == 0xa0
    ||| u == 0x1680
    ||| 0x2000 <= u <= 0x200a
    ||| u == 0x2028
    ||| u == 0x2029
    ||| u == 0x202f
    ||| u == 0x205f
    ||| u == 0x3000
}

fn white_space(c: char) -> (b: bool)
    ensures
        b == is_white_space(c),
{
    let u = c as u32;
    (0x9 <= u && u <= 0xd) || u == 0x20 || u == 0x85 || u == 0xa0 || u == 0x1680 || (0x2000 <= u
        && u <= 0x200a) || u == 0x2028 || u == 0x2029 || u == 0x202f || u == 0x205f || u == 0x3000
}

/// The index of the first newline at or after `i`, or the end of the text.
pub open spec fn line_end(t: Seq<char>, i: int) -> int
    decreases t.len() - i,
{
    if i < 0 || i >= t.len() || t[i] == '\n' {
        i
    } else {
        line_end(t, i + 1)
    }
}

/// The first index in `[j, e)` that is not white space, or `e`.
pub open spec fn skip_white(t: Seq<char>, j: int, e: int) -> int
    decreases e - j,
{
    if j < 0 || j >= e || !is_white_space(t[j]) {
        j
    } else {
        skip_white(t, j + 1, e)
    }
}

/// The first index in `[j, e)` that is white space, or `e`.
pub open spec fn token_end(t: Seq<char>, j: int, e: int) -> int
    decreases e - j,
{
    if j < 0 || j >= e || is_white_space(t[j]) {
        j
    } else {
        token_end(t, j + 1, e)
    }
}

/// The text with every leading '/' removed.
pub open spec fn trim_leading_slashes(p: Seq<char>) -> Seq<char>
    decreases p.len(),
{
    if p.len() > 0 && p[0] == '/' {
        trim_leading_slashes(p.drop_first())
    } else {
        p
    }
}

/// The glob the codeowners crate builds from a rule's path: a path not starting with
/// '*' or '/' gets the prefix "**/", leading slashes are then removed, and a trailing '/'
/// gets "**" appended.
pub open spec fn codeowners_glob(path: Seq<char>) -> Seq<char> {
    let prefixed = if path.len() > 0 && (path[0] == '*' || path[0] == '/') {
        path
    } else {
        seq!['*', '*', '/'] + path
    };
    let trimmed = trim_leading_slashes(prefixed);
    if trimmed.len() > 0 && trimmed.last() == '/' {
        trimmed + seq!['*', '*']
    } else {
        trimmed
    }
}

/// The line `t[i..e)` is no rule (it is empty, a comment, or blank), or the glob built from
/// its first word is accepted.
pub open spec fn line_parses(t: Seq<char>, i: int, e: int) -> bool {
    let s = skip_white(t, i, e);
    let is_rule = i < e && t[i] != '#' && s < e;
    is_rule ==> glob_accepts(codeowners_glob(t.subrange(s, token_end(t, s, e))))
}

/// A line ends at the first newline after its start, or at the end of the text.
pub proof fn lemma_line_end_bounds(t: Seq<char>, i: int)
    requires
        0 <= i <= t.len(),
    ensures
        i <= line_end(t, i) <= t.len(),
        line_end(t, i) < t.len() ==> t[line_end(t, i)] == '\n',
        forall|k: int| i <= k < line_end(t, i) ==> t[k] != '\n',
    decreases t.len() - i,
{
    if i < t.len() && t[i] != '\n' {
        lemma_line_end_bounds(t, i + 1);
    }
}

/// Every line from position `i` on parses.
pub open spec fn lines_parse_from(t: Seq<char>, i: int) -> bool
    decreases t.len() + 1 - i,
    via lines_parse_from_decreases
{
    if i < 0 || i >= t.len() {
        true
    } else {
        line_parses(t, i, line_end(t, i)) && lines_parse_from(t, line_end(t, i) + 1)
    }
}

#[via_fn]
proof fn lines_parse_from_decreases(t: Seq<char>, i: int) {
    if 0 <= i < t.len() {
        lemma_line_end_bounds(t, i);
    }
}

/// `codeowners::from_reader` parses the text without panicking: for every line that is
/// neither empty, a comment (starting with '#') nor blank, glob accepts the pattern built
/// from the line's first whitespace-separated word. (Reading lines, a carriage return
/// before the newline is white space and so never part of a word.)
pub open spec fn codeowners_parses(t: Seq<char>) -> bool {
    lines_parse_from(t, 0)
}

fn line_end_exec(t: &Vec<char>, i: usize) -> (e: usize)
    requires
        i <= t.len(),
    ensures
        e == line_end(t@, i as int),
        i <= e <= t.len(),
{
    let mut k = i;
    while k < t.len() && t[k] != '\n'
        invariant
            i <= k <= t.len(),
            line_end(t@, i as int) == line_end(t@, k as int),
        decreases t.len() - k,
    {
        k = k + 1;
    }
    k
}

fn skip_white_exec(t: &Vec<char>, j: usize, e: usize) -> (r: usize)
    requires
        j <= e <= t.len(),
    ensures
        r == skip_white(t@, j as int, e as int),
        j <= r <= e,
{
    let mut k = j;
    while k < e && white_space(t[k])
        invariant
            j <= k <= e,
            e <= t.len(),
            skip_white(t@, j as int, e as int) == skip_white(t@, k as int, e as int),
        decreases e - k,
    {
        k = k + 1;
    }
    k
}

fn token_end_exec(t: &Vec<char>, j: usize, e: usize) -> (r: usize)
    requires
        j <= e <= t.len(),
    ensures
        r == token_end(t@, j as int, e as int),
        j <= r <= e,
{
    let mut k = j;
    while k < e && !white_space(t[k])
        invariant
            j <= k <= e,
            e <= t.len(),
            token_end(t@, j as int, e as int) == token_end(t@, k as int, e as int),
        decreases e - k,
    {
        k = k + 1;
    }
    k
}

fn push_range(out: &mut Vec<char>, t: &Vec<char>, a: usize, b: usize)
    requires
        a <= b <= t.len(),
    ensures
        final(out)@ == old(out)@ + t@.subrange(a as int, b as int),
{
    let mut k = a;
    while k < b
        invariant
            a <= k <= b,
            b <= t.len(),
            out@ == old(out)@ + t@.subrange(a as int, k as int),
        decreases b - k,
    {
        out.push(t[k]);
        assert(t@.subrange(a as int, k + 1) =~= t@.subrange(a as int, k as int).push(t@[k as int]));
        k = k + 1;
    }
}

proof fn lemma_trim_leading_slashes(p: Seq<char>, k: int)
    requires
        0 <= k <= p.len(),
        forall|j: int| 0 <= j < k ==> p[j] == '/',
        k == p.len() || p[k] != '/',
    ensures
        trim_leading_slashes(p) == p.skip(k),
    decreases k,
{
    if k == 0 {
        assert(p.skip(0) =~= p);
    } else {
        lemma_trim_leading_slashes(p.drop_first(), k - 1);
        assert(p.drop_first().skip(k - 1) =~= p.skip(k));
    }
}

/// The glob built from the rule path `t[s..e)`.
fn codeowners_glob_exec(t: &Vec<char>, s: usize, e: usize) -> (g: Vec<char>)
    requires
        s <= e <= t.len(),
    ensures
        g@ == codeowners_glob(t@.subrange(s as int, e as int)),
{
    let ghost path = t@.subrange(s as int, e as int);
    let mut prefixed: Vec<char> = Vec::new();
    if !(s < e && (t[s] == '*' || t[s] == '/')) {
        prefixed.push('*');
        prefixed.push('*');
        prefixed.push('/');
    }
    push_range(&mut prefixed, t, s, e);
    proof {
        if path.len() > 0 && (path[0] == '*' || path[0] == '/') {
            assert(prefixed@ =~= path);
        } else {
            assert(prefixed@ =~= seq!['*', '*', '/'] + path);
        }
    }
    let mut k: usize = 0;
    while k < prefixed.len() && prefixed[k] == '/'
        invariant
            k <= prefixed.len(),
            forall|j: int| 0 <= j < k ==> prefixed@[j] == '/',
        decreases prefixed.len() - k,
    {
        k = k + 1;
    }
    proof {
        lemma_trim_leading_slashes(prefixed@, k as int);
    }
    let mut g: Vec<char> = Vec::new();
    push_range(&mut g, &prefixed, k, prefixed.len());
    assert(g@ =~= prefixed@.skip(k as int));
    if g.len() > 0 && g[g.len() - 1] == '/' {
        g.push('*');
        g.push('*');
        assert(g@ =~= prefixed@.skip(k as int) + seq!['*', '*']);
    }
    g
}

/// Whether `codeowners::from_reader` parses the text without panicking (see
/// `codeowners_parses`).
pub fn codeowners_parse_ok(content: &str) -> (b: bool)
    ensures
        b == codeowners_parses(content@),
{
    let t = chars_of(content);
    let mut i: usize = 0;
    while i < t.len()
        invariant
            i <= t.len(),
            t@ == content@,
            codeowners_parses(t@) == lines_parse_from(t@, i as int),
        decreases t.len() - i,
    {
        let e = line_end_exec(&t, i);
        let s = skip_white_exec(&t, i, e);
        if i < e && t[i] != '#' && s < e {
            let te = token_end_exec(&t, s, e);
            let g = codeowners_glob_exec(&t, s, te);
            if !glob_pattern_ok(g.as_slice()) {
                return false;
            }
        }
        if e == t.len() {
            assert(lines_parse_from(t@, e + 1));
            return true;
        }
        i = e + 1;
    }
    true
}

} // verus!
