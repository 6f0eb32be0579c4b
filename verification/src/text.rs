//! Paths as text: splitting a path into its segments, joining names into a
//! path, and finding or replacing a part of a text.

use vstd::prelude::*;
use vstd::string::*;

verus! {

/// `String::push` appends one character to the string.
pub assume_specification[ String::push ](s: &mut String, c: char)
    ensures
        final(s)@ == old(s)@.push(c),
;

/// The texts of a sequence of strings.
pub open spec fn texts(strings: Seq<String>) -> Seq<Seq<char>> {
    strings.map_values(|s: String| s@)
}

/// The texts behind a sequence of borrowed strings.
pub open spec fn borrowed_texts(strings: Seq<&String>) -> Seq<Seq<char>> {
    strings.map_values(|s: &String| s@)
}

/// The names joined into one path, with a `/` between neighbours.
pub open spec fn join_path(names: Seq<Seq<char>>) -> Seq<char>
    decreases names.len(),
{
    if names.len() == 0 {
        Seq::empty()
    } else if names.len() == 1 {
        names[0]
    } else {
        join_path(names.drop_last()) + seq!['/'] + names.last()
    }
}

/// What a left-to-right scan of a path has seen: the segments that a `/` has
/// closed, and the characters read since the last `/`.
pub struct Scan {
    pub closed: Seq<Seq<char>>,
    pub open: Seq<char>,
}

/// The state of the scan after all of `s`. A `/` closes the open segment,
/// unless that is empty; any other character extends it.
pub open spec fn scan(s: Seq<char>) -> Scan
    decreases s.len(),
{
    if s.len() == 0 {
        Scan { closed: Seq::empty(), open: Seq::empty() }
    } else {
        let before = scan(s.drop_last());
        if s.last() != '/' {
            Scan { closed: before.closed, open: before.open.push(s.last()) }
        } else if before.open.len() > 0 {
            Scan { closed: before.closed.push(before.open), open: Seq::empty() }
        } else {
            before
        }
    }
}

/// The segments of a path: the maximal runs of characters other than `/`, in
/// order. Leading, trailing and repeated slashes yield no segment.
pub open spec fn path_segments(s: Seq<char>) -> Seq<Seq<char>> {
    let end = scan(s);
    if end.open.len() > 0 {
        end.closed.push(end.open)
    } else {
        end.closed
    }
}

/// A text that can stand as one segment of a path: not empty, and free of `/`.
pub open spec fn is_segment(name: Seq<char>) -> bool {
    name.len() > 0 && !name.contains('/')
}

/// Every segment that a scan closes or holds open is free of `/`, and the
/// closed ones are not empty.
pub proof fn lemma_scan_segments(s: Seq<char>)
    ensures
        forall|i: int| 0 <= i < scan(s).closed.len() ==> is_segment(#[trigger] scan(s).closed[i]),
        !scan(s).open.contains('/'),
    decreases s.len(),
{
    if s.len() > 0 {
        lemma_scan_segments(s.drop_last());
        let before = scan(s.drop_last());
        if s.last() != '/' {
            assert forall|c: char| before.open.push(s.last()).contains(c) implies c != '/' by {
                let i = choose|i: int|
                    0 <= i < before.open.push(s.last()).len() && before.open.push(s.last())[i] == c;
                if i < before.open.len() {
                    assert(before.open.contains(before.open[i]));
                }
            }
        }
    }
}

/// Every segment of a path is a non-empty text without `/`.
pub proof fn lemma_path_segments_are_segments(s: Seq<char>)
    ensures
        forall|i: int|
            0 <= i < path_segments(s).len() ==> is_segment(#[trigger] path_segments(s)[i]),
{
    lemma_scan_segments(s);
}

/// Splits a path on `/` into its segments, skipping empty ones.
pub fn split_path(path: &str) -> (segments: Vec<String>)
    ensures
        texts(segments@) == path_segments(path@),
{
    let mut closed: Vec<String> = Vec::new();
    let mut open = String::new();
    for c in it: path.chars()
        invariant
            it.seq() == path@,
            texts(closed@) == scan(path@.take(it.index() as int)).closed,
            open@ == scan(path@.take(it.index() as int)).open,
    {
        let ghost seen = path@.take(it.index() + 1);
        assert(seen.drop_last() =~= path@.take(it.index() as int));
        if c != '/' {
            open.push(c);
        } else if !open.as_str().is_empty() {
            closed.push(open);
            open = String::new();
        }
    }
    assert(path@.take(path@.len() as int) =~= path@);
    if !open.as_str().is_empty() {
        closed.push(open);
    }
    closed
}

/// Joins names into one path, with a `/` between neighbours.
pub fn join_names(names: &Vec<String>) -> (path: String)
    ensures
        path@ == join_path(texts(names@)),
{
    let mut path = String::new();
    let mut i: usize = 0;
    while i < names.len()
        invariant
            i <= names.len(),
            path@ == join_path(texts(names@).take(i as int)),
        decreases names.len() - i,
    {
        let ghost next = texts(names@).take(i + 1);
        assert(next.drop_last() =~= texts(names@).take(i as int));
        if i > 0 {
            path.push('/');
        }
        path.append(names[i].as_str());
        assert(path@ =~= join_path(next));
        i = i + 1;
    }
    assert(texts(names@).take(names@.len() as int) =~= texts(names@));
    path
}

/// Two texts with a `/` between them.
pub open spec fn slash_join(head: Seq<char>, tail: Seq<char>) -> Seq<char> {
    head + seq!['/'] + tail
}

/// Puts a `/` between two texts.
pub fn join_with_slash(head: &str, tail: &str) -> (joined: String)
    ensures
        joined@ == slash_join(head@, tail@),
{
    let mut joined = String::from_str(head);
    joined.push('/');
    joined.append(tail);
    joined
}

/// Whether `pattern` stands somewhere in `text`.
pub open spec fn occurs_in(pattern: Seq<char>, text: Seq<char>) -> bool {
    exists|i: int|
        0 <= i <= text.len() - pattern.len() && #[trigger] text.subrange(i, i + pattern.len())
            == pattern
}

/// `text` with every occurrence of `from` replaced by `to`. Occurrences are
/// taken from left to right and do not overlap.
pub open spec fn replace_all(text: Seq<char>, from: Seq<char>, to: Seq<char>) -> Seq<char>
    decreases text.len(),
{
    if from.len() == 0 || text.len() < from.len() {
        text
    } else if text.subrange(0, from.len() as int) == from {
        to + replace_all(text.skip(from.len() as int), from, to)
    } else {
        seq![text[0]] + replace_all(text.skip(1), from, to)
    }
}

/// The characters of a text, one by one.
pub fn characters(text: &str) -> (chars: Vec<char>)
    ensures
        chars@ == text@,
{
    let mut chars: Vec<char> = Vec::new();
    for c in it: text.chars()
        invariant
            it.seq() == text@,
            chars@ == text@.take(it.index() as int),
    {
        chars.push(c);
    }
    chars
}

/// Whether `pattern` stands in `text` at `at`.
pub open spec fn stands_at(pattern: Seq<char>, text: Seq<char>, at: int) -> bool {
    0 <= at <= text.len() - pattern.len() && text.subrange(at, at + pattern.len()) == pattern
}

/// Tells whether `pattern` stands in `text` at `at`.
pub fn matches_at(pattern: &Vec<char>, text: &Vec<char>, at: usize) -> (r: bool)
    ensures
        r == stands_at(pattern@, text@, at as int),
{
    let size = pattern.len();
    if text.len() < size || at > text.len() - size {
        return false;
    }
    let mut k: usize = 0;
    while k < size
        invariant
            k <= size,
            size == pattern@.len(),
            at + size <= text@.len() <= usize::MAX,
            forall|j: int| 0 <= j < k ==> text@[at + j] == pattern@[j],
        decreases size - k,
    {
        if text[at + k] != pattern[k] {
            return false;
        }
        k = k + 1;
    }
    assert(text@.subrange(at as int, at + size) =~= pattern@);
    true
}

/// Tells whether `pattern` stands somewhere in `text`.
pub fn contains_text(text: &str, pattern: &str) -> (r: bool)
    ensures
        r == occurs_in(pattern@, text@),
{
    let chars = characters(text);
    let wanted = characters(pattern);
    if chars.len() < wanted.len() {
        return false;
    }
    let last = chars.len() - wanted.len();
    let mut at: usize = 0;
    loop
        invariant
            at <= last,
            chars@ == text@,
            wanted@ == pattern@,
            last == text@.len() - pattern@.len(),
            forall|i: int| 0 <= i < at ==> !stands_at(pattern@, text@, i),
        decreases last - at,
    {
        if matches_at(&wanted, &chars, at) {
            return true;
        }
        if at == last {
            assert forall|i: int| 0 <= i <= text@.len() - pattern@.len() implies #[trigger]
                text@.subrange(i, i + pattern@.len()) != pattern@ by {
                assert(!stands_at(pattern@, text@, i));
            }
            return false;
        }
        at = at + 1;
    }
}

/// Replaces every occurrence of `from` in `text` by `to`. Occurrences are
/// taken from left to right and do not overlap. With an empty `from` the text
/// is returned as it is.
pub fn replace_text(text: &str, from: &str, to: &str) -> (r: String)
    ensures
        r@ == replace_all(text@, from@, to@),
{
    let chars = characters(text);
    let pattern = characters(from);
    let size = pattern.len();
    let mut out = String::new();
    let mut at: usize = 0;
    assert(chars@.skip(0) =~= chars@);
    while at < chars.len()
        invariant
            at <= chars@.len(),
            chars@ == text@,
            pattern@ == from@,
            size == pattern@.len(),
            out@ + replace_all(text@.skip(at as int), from@, to@) == replace_all(
                text@,
                from@,
                to@,
            ),
        decreases chars@.len() - at,
    {
        let ghost rest = text@.skip(at as int);
        if size > 0 && matches_at(&pattern, &chars, at) {
            assert(rest.subrange(0, size as int) =~= text@.subrange(at as int, at + size));
            assert(rest.skip(size as int) =~= text@.skip(at + size));
            out.append(to);
            at = at + size;
        } else {
            proof {
                if size > 0 && rest.len() >= size {
                    assert(rest.subrange(0, size as int) =~= text@.subrange(
                        at as int,
                        at + size,
                    ));
                }
                assert(rest.skip(1) =~= text@.skip(at + 1));
                lemma_replace_step(rest, from@, to@);
            }
            out.push(chars[at]);
            at = at + 1;
        }
    }
    out
}

/// Where `from` does not stand at the start of a non-empty text, replacing
/// keeps the first character and goes on behind it.
pub proof fn lemma_replace_step(text: Seq<char>, from: Seq<char>, to: Seq<char>)
    requires
        text.len() > 0,
        from.len() == 0 || text.len() < from.len() || text.subrange(0, from.len() as int) != from,
    ensures
        replace_all(text, from, to) == seq![text[0]] + replace_all(text.skip(1), from, to),
{
    if from.len() == 0 || text.len() < from.len() {
        lemma_replace_short(text.skip(1), from, to);
    }
}

/// A text that is shorter than `from`, or any text where `from` is empty, is
/// left as it is.
pub proof fn lemma_replace_short(text: Seq<char>, from: Seq<char>, to: Seq<char>)
    requires
        from.len() == 0 || text.len() < from.len(),
    ensures
        replace_all(text, from, to) == text,
{
}

/// Scanning on over a text without `/` extends the open segment by it.
pub proof fn lemma_scan_name(s: Seq<char>, name: Seq<char>)
    requires
        !name.contains('/'),
    ensures
        scan(s + name) == (Scan { closed: scan(s).closed, open: scan(s).open + name }),
    decreases name.len(),
{
    if name.len() == 0 {
        assert(s + name =~= s);
        assert(scan(s).open + name =~= scan(s).open);
    } else {
        let init = name.drop_last();
        assert(!init.contains('/')) by {
            if init.contains('/') {
                let i = choose|i: int| 0 <= i < init.len() && init[i] == '/';
                assert(name[i] == '/');
            }
        }
        assert(name.last() != '/') by {
            assert(name.contains(name[name.len() - 1]));
        }
        lemma_scan_name(s, init);
        assert((s + name).drop_last() =~= s + init);
        assert(scan(s).open + name =~= (scan(s).open + init).push(name.last()));
    }
}

/// The scan of names joined with `/` has closed all names but the last, which
/// it holds open.
pub proof fn lemma_scan_joined(names: Seq<Seq<char>>)
    requires
        names.len() > 0,
        forall|i: int| 0 <= i < names.len() ==> is_segment(#[trigger] names[i]),
    ensures
        scan(join_path(names)) == (Scan { closed: names.drop_last(), open: names.last() }),
    decreases names.len(),
{
    let empty = Seq::<char>::empty();
    if names.len() == 1 {
        lemma_scan_name(empty, names[0]);
        assert(names.drop_last() =~= scan(empty).closed);
    } else {
        let init = names.drop_last();
        lemma_scan_joined(init);
        let head = join_path(init) + seq!['/'];
        assert(head.drop_last() =~= join_path(init));
        assert(init.drop_last().push(init.last()) =~= init);
        lemma_scan_name(head, names.last());
    }
}

/// Joining names with `/` and splitting the path again gives the names back,
/// provided that each is not empty and holds no `/`.
pub proof fn lemma_split_joined(names: Seq<Seq<char>>)
    requires
        forall|i: int| 0 <= i < names.len() ==> is_segment(#[trigger] names[i]),
    ensures
        path_segments(join_path(names)) == names,
{
    if names.len() > 0 {
        lemma_scan_joined(names);
    }
}

} // verus!
