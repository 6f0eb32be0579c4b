//! Pattern queries: which records of a tree a search pattern selects.
//!
//! A pattern is a regular expression in which `*` stands for `.*`. It must
//! match the whole path of a record, after the path is turned to lower case.

use crate::idx::{record_views, FileRecord, FileRecordView};
use crate::types::UnpackError;
use vstd::prelude::*;
use vstd::string::*;

verus! {

/// The error type of the regex crate.
#[verifier::external_type_specification]
#[verifier::external_body]
pub struct ExRegexError(regex::Error);

/// The lower-case form of a text, as `str::to_lowercase` gives it.
pub uninterp spec fn lowercase(text: Seq<char>) -> Seq<char>;

/// Whether the regex crate accepts `pattern` as a regular expression.
pub uninterp spec fn regex_valid(pattern: Seq<char>) -> bool;

/// Whether the regular expression `pattern` matches somewhere in `text`, as
/// the regex crate decides it.
pub uninterp spec fn regex_matches(pattern: Seq<char>, text: Seq<char>) -> bool;

/// The pattern that matches every text without a line feed: `^(?:.*)$`.
pub open spec fn match_all() -> Seq<char> {
    seq!['^', '(', '?', ':', '.', '*', ')', '$']
}

/// Calls `str::to_lowercase`. What it returns depends on the text alone; it
/// is not stated here but named `lowercase`.
#[verifier::external_body]
fn to_lowercase(text: &str) -> (lower: String)
    ensures
        lower@ == lowercase(text@),
{
    text.to_lowercase()
}

/// Compiles `pattern` with `regex::Regex::new` and asks `Regex::is_match` for
/// `text`. Fails exactly when the pattern does not compile. Which patterns
/// compile and what they match is not stated here but named `regex_valid` and
/// `regex_matches`, but for one fact.
///
/// By the syntax of the regex crate, `^` and `$` match only at the ends of
/// the text and `.` matches any character but a line feed, so the pattern
/// `^(?:.*)$` matches every text that holds no line feed.
#[verifier::external_body]
fn regex_is_match(pattern: &str, text: &str) -> (r: Result<bool, regex::Error>)
    ensures
        r is Ok <==> regex_valid(pattern@),
        r is Ok ==> r->Ok_0 == regex_matches(pattern@, text@),
        pattern@ == match_all() && !text@.contains('\n') ==> r is Ok && r->Ok_0,
{
    regex::Regex::new(pattern).map(|re| re.is_match(text))
}

/// The query with every `*` replaced by `.*`.
pub open spec fn glob_pattern(query: Seq<char>) -> Seq<char>
    decreases query.len(),
{
    if query.len() == 0 {
        Seq::empty()
    } else if query.last() == '*' {
        glob_pattern(query.drop_last()) + seq!['.', '*']
    } else {
        glob_pattern(query.drop_last()).push(query.last())
    }
}

/// A pattern made to match whole texts only: `^(?:pattern)$`.
pub open spec fn anchored(pattern: Seq<char>) -> Seq<char> {
    seq!['^', '(', '?', ':'] + pattern + seq![')', '$']
}

/// The regular expression that a query stands for.
pub open spec fn query_pattern(query: Seq<char>) -> Seq<char> {
    anchored(glob_pattern(query))
}

/// The query `*` stands for the pattern that matches every text without a
/// line feed.
pub proof fn lemma_star_is_match_all()
    ensures
        query_pattern(seq!['*']) == match_all(),
{
    let star = seq!['*'];
    assert(glob_pattern(star.drop_last()) =~= Seq::<char>::empty());
}

/// Translates a query into the regular expression it stands for.
pub fn translate(query: &str) -> (pattern: String)
    ensures
        pattern@ == query_pattern(query@),
{
    let mut inner = String::new();
    for c in it: query.chars()
        invariant
            it.seq() == query@,
            inner@ == glob_pattern(query@.take(it.index() as int)),
    {
        let ghost seen = query@.take(it.index() + 1);
        assert(seen.drop_last() =~= query@.take(it.index() as int));
        if c == '*' {
            inner.push('.');
            inner.push('*');
        } else {
            inner.push(c);
        }
    }
    assert(query@.take(query@.len() as int) =~= query@);
    let mut pattern = String::new();
    pattern.push('^');
    pattern.push('(');
    pattern.push('?');
    pattern.push(':');
    pattern.append(inner.as_str());
    pattern.push(')');
    pattern.push('$');
    pattern
}

/// Whether `pattern` selects `record`: it matches the path in lower case.
pub open spec fn is_hit(pattern: Seq<char>, record: FileRecordView) -> bool {
    regex_matches(pattern, lowercase(record.path))
}

/// For each of `leaves`, whether `pattern` selects it.
pub open spec fn verdicts_of(pattern: Seq<char>, leaves: Seq<FileRecordView>) -> Seq<bool> {
    Seq::new(leaves.len(), |i: int| is_hit(pattern, leaves[i]))
}

/// Those among the first `n` of `leaves` whose verdict is true, in order. A
/// leaf without a verdict is left out.
pub open spec fn kept(leaves: Seq<FileRecordView>, verdicts: Seq<bool>, n: int) -> Seq<
    FileRecordView,
>
    decreases n,
{
    if n <= 0 {
        Seq::empty()
    } else if n <= verdicts.len() && verdicts[n - 1] {
        kept(leaves, verdicts, n - 1).push(leaves[n - 1])
    } else {
        kept(leaves, verdicts, n - 1)
    }
}

/// The leaves that `pattern` selects, in order.
pub open spec fn hits(pattern: Seq<char>, leaves: Seq<FileRecordView>) -> Seq<FileRecordView> {
    kept(leaves, verdicts_of(pattern, leaves), leaves.len() as int)
}

/// Where every verdict is true, every leaf is kept.
pub proof fn lemma_all_kept(leaves: Seq<FileRecordView>, verdicts: Seq<bool>, n: int)
    requires
        0 <= n <= leaves.len(),
        n <= verdicts.len(),
        forall|i: int| 0 <= i < n ==> verdicts[i],
    ensures
        kept(leaves, verdicts, n) == leaves.take(n),
    decreases n,
{
    if n > 0 {
        lemma_all_kept(leaves, verdicts, n - 1);
    }
}

/// Every leaf that is kept is one of the leaves, and its verdict is true.
pub proof fn lemma_kept_are_hits(leaves: Seq<FileRecordView>, verdicts: Seq<bool>, n: int)
    requires
        0 <= n <= leaves.len(),
    ensures
        forall|r: FileRecordView|
            kept(leaves, verdicts, n).contains(r) <==> exists|i: int|
                0 <= i < n && i < verdicts.len() && verdicts[i] && #[trigger] leaves[i] == r,
    decreases n,
{
    if n > 0 {
        lemma_kept_are_hits(leaves, verdicts, n - 1);
        let before = kept(leaves, verdicts, n - 1);
        assert forall|r: FileRecordView| kept(leaves, verdicts, n).contains(r) implies exists|
            i: int,
        |
            0 <= i < n && i < verdicts.len() && verdicts[i] && #[trigger] leaves[i] == r by {
            let k = choose|k: int|
                0 <= k < kept(leaves, verdicts, n).len() && kept(leaves, verdicts, n)[k] == r;
            if k < before.len() {
                assert(before.contains(before[k]));
                let i = choose|i: int|
                    0 <= i < n - 1 && i < verdicts.len() && verdicts[i] && #[trigger] leaves[i]
                        == r;
                assert(0 <= i < n && leaves[i] == r);
            } else {
                assert(leaves[n - 1] == r);
            }
        }
        assert forall|r: FileRecordView|
            (exists|i: int|
                0 <= i < n && i < verdicts.len() && verdicts[i] && #[trigger] leaves[i]
                    == r) implies kept(leaves, verdicts, n).contains(r) by {
            let i = choose|i: int|
                0 <= i < n && i < verdicts.len() && verdicts[i] && #[trigger] leaves[i] == r;
            if i < n - 1 {
                assert(before.contains(r));
                let k = choose|k: int| 0 <= k < before.len() && before[k] == r;
                assert(kept(leaves, verdicts, n)[k] == r);
            } else {
                assert(kept(leaves, verdicts, n)[before.len() as int] == r);
            }
        }
    }
}

/// Decides for each leaf whether `pattern` selects it. Fails with
/// `InvalidPattern` exactly when the pattern is no valid regular expression.
///
/// Where the pattern is the one that matches everything, and no path holds a
/// line feed once in lower case, every leaf is selected.
pub fn match_verdicts(pattern: &str, leaves: &Vec<FileRecord>) -> (r: Result<
    Vec<bool>,
    UnpackError,
>)
    ensures
        match r {
            Ok(verdicts) => regex_valid(pattern@) && verdicts@ == verdicts_of(
                pattern@,
                record_views(leaves@),
            ),
            Err(e) => e == UnpackError::InvalidPattern && !regex_valid(pattern@),
        },
        pattern@ == match_all() && (forall|i: int|
            0 <= i < leaves@.len() ==> !lowercase((#[trigger] leaves@[i])@.path).contains('\n'))
            ==> r is Ok && forall|i: int| 0 <= i < leaves@.len() ==> r->Ok_0@[i],
{
    proof {
        reveal_strlit("");
    }
    if regex_is_match(pattern, "").is_err() {
        return Err(UnpackError::InvalidPattern);
    }
    let mut verdicts: Vec<bool> = Vec::new();
    let mut i: usize = 0;
    while i < leaves.len()
        invariant
            i <= leaves@.len(),
            regex_valid(pattern@),
            verdicts@.len() == i,
            forall|j: int|
                0 <= j < i ==> verdicts@[j] == is_hit(pattern@, (#[trigger] leaves@[j])@),
            pattern@ == match_all() && (forall|j: int|
                0 <= j < leaves@.len() ==> !lowercase((#[trigger] leaves@[j])@.path).contains(
                    '\n',
                )) ==> forall|j: int| 0 <= j < i ==> verdicts@[j],
        decreases leaves@.len() - i,
    {
        let lower = to_lowercase(leaves[i].path.as_str());
        match regex_is_match(pattern, lower.as_str()) {
            Ok(verdict) => {
                verdicts.push(verdict);
            },
            Err(_) => {
                return Err(UnpackError::InvalidPattern);
            },
        }
        i = i + 1;
    }
    Ok(verdicts)
}

/// Keeps the leaves whose verdict is true, in order. A leaf without a verdict
/// is left out.
pub fn select(leaves: &Vec<FileRecord>, verdicts: &Vec<bool>) -> (found: Vec<FileRecord>)
    ensures
        record_views(found@) == kept(record_views(leaves@), verdicts@, leaves@.len() as int),
{
    let mut found: Vec<FileRecord> = Vec::new();
    let mut i: usize = 0;
    while i < leaves.len()
        invariant
            i <= leaves@.len(),
            record_views(found@) == kept(record_views(leaves@), verdicts@, i as int),
        decreases leaves@.len() - i,
    {
        if i < verdicts.len() && verdicts[i] {
            found.push(leaves[i].clone());
        }
        i = i + 1;
    }
    found
}

/// The leaves that the query selects, in order. Fails with `InvalidPattern`
/// exactly when the query stands for no valid regular expression.
///
/// The query `*` selects every leaf, provided that no path holds a line feed
/// once in lower case.
pub fn select_matches(query: &str, leaves: &Vec<FileRecord>) -> (r: Result<
    Vec<FileRecord>,
    UnpackError,
>)
    ensures
        match r {
            Ok(found) => regex_valid(query_pattern(query@)) && record_views(found@) == hits(
                query_pattern(query@),
                record_views(leaves@),
            ),
            Err(e) => e == UnpackError::InvalidPattern && !regex_valid(query_pattern(query@)),
        },
        query@ == seq!['*'] && (forall|i: int|
            0 <= i < leaves@.len() ==> !lowercase((#[trigger] leaves@[i])@.path).contains('\n'))
            ==> r is Ok && record_views(r->Ok_0@) == record_views(leaves@),
{
    let pattern = translate(query);
    proof {
        if query@ == seq!['*'] {
            lemma_star_is_match_all();
        }
    }
    match match_verdicts(pattern.as_str(), leaves) {
        Ok(verdicts) => {
            let found = select(leaves, &verdicts);
            proof {
                if query@ == seq!['*'] && (forall|i: int|
                    0 <= i < leaves@.len() ==> !lowercase(
                        (#[trigger] leaves@[i])@.path,
                    ).contains('\n')) {
                    lemma_all_kept(record_views(leaves@), verdicts@, leaves@.len() as int);
                }
            }
            Ok(found)
        },
        Err(e) => Err(e),
    }
}

} // verus!
