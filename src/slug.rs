//! URL slugs for product names, and the name-based filters of the catalogue.

use vstd::prelude::*;
use crate::chars::{chars_of, contains_chars, occurs_in, string_of};

verus! {

/// What `deunicode::deunicode` makes of a text: its closest ASCII spelling.
pub uninterp spec fn transliterated(s: Seq<char>) -> Seq<char>;

/// What `str::to_lowercase` makes of a text (full Unicode lower-casing).
pub uninterp spec fn lower_of(s: Seq<char>) -> Seq<char>;

/// What `str::trim` makes of a text: leading and trailing white space removed.
pub uninterp spec fn trimmed(s: Seq<char>) -> Seq<char>;

/// One character lower-cased the ASCII way: `A`..=`Z` become `a`..=`z`, every
/// other character stays.
pub open spec fn ascii_lower_char(c: char) -> char {
    if 'A' <= c && c <= 'Z' {
        ((c as u32) + 32) as char
    } else {
        c
    }
}

/// A text lower-cased the ASCII way.
pub open spec fn ascii_lower(s: Seq<char>) -> Seq<char> {
    s.map_values(|c: char| ascii_lower_char(c))
}

/// The characters a slug keeps as they are: ASCII letters, digits and `-`.
pub open spec fn is_slug_char(c: char) -> bool {
    ('a' <= c && c <= 'z') || ('A' <= c && c <= 'Z') || ('0' <= c && c <= '9') || c == '-'
}

/// `s` with every maximal run of characters that are not slug characters
/// replaced by a single `-`.
pub open spec fn collapse_runs(s: Seq<char>) -> Seq<char>
    decreases s.len(),
{
    if s.len() == 0 {
        Seq::empty()
    } else {
        let front = collapse_runs(s.drop_last());
        if is_slug_char(s.last()) {
            front.push(s.last())
        } else if s.len() >= 2 && !is_slug_char(s[s.len() - 2]) {
            front
        } else {
            front.push('-')
        }
    }
}

/// The regular expression that matches a run of non-slug characters.
pub open spec fn non_slug_run_pattern() -> Seq<char> {
    "[^a-zA-Z0-9-]+"@
}

/// `s` without its leading `-` characters.
pub open spec fn drop_leading_hyphens(s: Seq<char>) -> Seq<char>
    decreases s.len(),
{
    if s.len() > 0 && s[0] == '-' {
        drop_leading_hyphens(s.drop_first())
    } else {
        s
    }
}

/// `s` without its trailing `-` characters.
pub open spec fn drop_trailing_hyphens(s: Seq<char>) -> Seq<char>
    decreases s.len(),
{
    if s.len() > 0 && s.last() == '-' {
        drop_trailing_hyphens(s.drop_last())
    } else {
        s
    }
}

/// The slug of a name: transliterated to ASCII, lower-cased, trimmed, every
/// run of characters outside `[a-zA-Z0-9-]` collapsed into one `-`, and no
/// `-` left at either end.
pub open spec fn slug_of(name: Seq<char>) -> Seq<char> {
    drop_trailing_hyphens(
        drop_leading_hyphens(collapse_runs(trimmed(ascii_lower(transliterated(name))))),
    )
}

proof fn lemma_leading_dropped(s: Seq<char>)
    ensures
        drop_leading_hyphens(s).len() > 0 ==> drop_leading_hyphens(s)[0] != '-',
    decreases s.len(),
{
    if s.len() > 0 && s[0] == '-' {
        lemma_leading_dropped(s.drop_first());
    }
}

proof fn lemma_trailing_dropped(s: Seq<char>)
    ensures
        drop_trailing_hyphens(s) == s.subrange(0, drop_trailing_hyphens(s).len() as int),
        drop_trailing_hyphens(s).len() <= s.len(),
        drop_trailing_hyphens(s).len() > 0 ==> drop_trailing_hyphens(s).last() != '-',
    decreases s.len(),
{
    if s.len() > 0 && s.last() == '-' {
        lemma_trailing_dropped(s.drop_last());
        assert(s.drop_last().subrange(0, drop_trailing_hyphens(s).len() as int) =~= s.subrange(
            0,
            drop_trailing_hyphens(s).len() as int,
        ));
    } else {
        assert(s.subrange(0, s.len() as int) =~= s);
    }
}

/// A slug neither starts nor ends with `-`.
pub proof fn lemma_slug_has_no_edge_hyphen(name: Seq<char>)
    ensures
        slug_of(name).len() > 0 ==> slug_of(name)[0] != '-' && slug_of(name).last() != '-',
{
    let t = drop_leading_hyphens(collapse_runs(trimmed(ascii_lower(transliterated(name)))));
    lemma_leading_dropped(collapse_runs(trimmed(ascii_lower(transliterated(name)))));
    lemma_trailing_dropped(t);
    if slug_of(name).len() > 0 {
        assert(slug_of(name)[0] == t[0]);
    }
}

/// `s` without `-` at either end.
fn strip_hyphens(s: &str) -> (r: String)
    ensures
        r@ == drop_trailing_hyphens(drop_leading_hyphens(s@)),
{
    let c = chars_of(s);
    let n = c.len();
    let mut lo: usize = 0;
    assert(c@.subrange(0, n as int) =~= c@);
    while lo < n && c[lo] == '-'
        invariant
            n == c@.len(),
            lo <= n,
            drop_leading_hyphens(c@) == drop_leading_hyphens(c@.subrange(lo as int, n as int)),
        decreases n - lo,
    {
        assert(c@.subrange(lo as int, n as int).drop_first() =~= c@.subrange(lo + 1, n as int));
        lo = lo + 1;
    }
    let mut hi: usize = n;
    while hi > lo && c[hi - 1] == '-'
        invariant
            n == c@.len(),
            lo <= hi <= n,
            drop_leading_hyphens(c@) == c@.subrange(lo as int, n as int),
            drop_trailing_hyphens(c@.subrange(lo as int, n as int)) == drop_trailing_hyphens(
                c@.subrange(lo as int, hi as int),
            ),
        decreases hi - lo,
    {
        assert(c@.subrange(lo as int, hi as int).drop_last() =~= c@.subrange(lo as int, hi - 1));
        hi = hi - 1;
    }
    let mut out: Vec<char> = Vec::new();
    let mut k: usize = lo;
    while k < hi
        invariant
            lo <= k <= hi <= n,
            n == c@.len(),
            out@ == c@.subrange(lo as int, k as int),
        decreases hi - k,
    {
        out.push(c[k]);
        assert(out@ =~= c@.subrange(lo as int, k + 1));
        k = k + 1;
    }
    string_of(&out)
}

/// The marker of rows that only served for testing the old shop.
pub open spec fn test_marker() -> Seq<char> {
    seq!['t', 'e', 's', 't']
}

/// Whether a name, lower-cased, contains `test`.
pub open spec fn names_test(name: Seq<char>) -> bool {
    occurs_in(test_marker(), lower_of(name))
}

/// Relies on `deunicode::deunicode`: the closest ASCII spelling of `s`,
/// which holds ASCII characters only.
#[verifier::external_body]
fn transliterate(s: &str) -> (r: String)
    ensures
        r@ == transliterated(s@),
        forall|i: int| 0 <= i < r@.len() ==> (#[trigger] r@[i] as u32) < 128,
{
    deunicode::deunicode(s)
}

/// Relies on `str::to_ascii_lowercase`: ASCII upper-case letters are mapped
/// to lower case, every other character is kept.
#[verifier::external_body]
fn to_ascii_lower(s: &str) -> (r: String)
    ensures
        r@ == ascii_lower(s@),
{
    s.to_ascii_lowercase()
}

/// Relies on `str::to_lowercase`: the lower-case form of `s`.
#[verifier::external_body]
pub(crate) fn to_lower(s: &str) -> (r: String)
    ensures
        r@ == lower_of(s@),
{
    s.to_lowercase()
}

/// Relies on `str::trim`: `s` without leading and trailing white space.
#[verifier::external_body]
fn trim_text(s: &str) -> (r: &str)
    ensures
        r@ == trimmed(s@),
{
    s.trim()
}

/// Relies on `regex::Regex::new` and `regex::Regex::replace_all`: compiles
/// `pattern` and replaces each leftmost-first match in `text` by `with`. With
/// the pattern `[^a-zA-Z0-9-]+` (which compiles) the matches are the maximal
/// runs of characters outside the class, each replaced once.
#[verifier::external_body]
fn replace_matches(pattern: &str, text: &str, with: &str) -> (r: Option<String>)
    ensures
        pattern@ == non_slug_run_pattern() && with@ == seq!['-'] ==> r is Some,
        pattern@ == non_slug_run_pattern() && with@ == seq!['-'] ==> r->0@ == collapse_runs(
            text@,
        ),
{
    match regex::Regex::new(pattern) {
        Ok(re) => Some(re.replace_all(text, with).into_owned()),
        Err(_) => None,
    }
}

/// The URL slug of a product name.
pub fn slugify(name: &str) -> (r: String)
    ensures
        r@ == slug_of(name@),
{
    let ascii = transliterate(name);
    let lower = to_ascii_lower(ascii.as_str());
    let bare = trim_text(lower.as_str());
    let hyphen = "-";
    let pattern = "[^a-zA-Z0-9-]+";
    proof {
        reveal_strlit("-");
        reveal_strlit("[^a-zA-Z0-9-]+");
        assert(hyphen@ =~= seq!['-']);
    }
    match replace_matches(pattern, bare, hyphen) {
        Some(out) => strip_hyphens(out.as_str()),
        None => String::new(),
    }
}

/// Whether a name, compared case-insensitively, contains `test`.
pub fn mentions_test(name: &str) -> (r: bool)
    ensures
        r == names_test(name@),
{
    let lower = to_lower(name);
    let text = chars_of(lower.as_str());
    let marker = vec!['t', 'e', 's', 't'];
    assert(marker@ =~= test_marker());
    contains_chars(&text, &marker)
}

} // verus!
