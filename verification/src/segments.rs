//! Separator-delimited text: trimming, splitting and joining.
//!
//! Request paths and route templates are read as sequences of segments cut at
//! `/`; a request line is cut at single spaces. The functions here define that
//! reading once, over `Seq<char>`, and implement it on `&str`.

use vstd::prelude::*;

verus! {

/// The separator of path segments.
pub const SLASH: char = '/';

/// The views of a sequence of strings.
pub open spec fn texts(strings: Seq<String>) -> Seq<Seq<char>> {
    strings.map_values(|s: String| s@)
}

/// `s` without its leading run of `sep`.
pub open spec fn trim_start(s: Seq<char>, sep: char) -> Seq<char>
    decreases s.len(),
{
    if s.len() > 0 && s[0] == sep {
        trim_start(s.drop_first(), sep)
    } else {
        s
    }
}

/// `s` without its trailing run of `sep`.
pub open spec fn trim_end(s: Seq<char>, sep: char) -> Seq<char>
    decreases s.len(),
{
    if s.len() > 0 && s.last() == sep {
        trim_end(s.drop_last(), sep)
    } else {
        s
    }
}

/// `s` without its leading and trailing runs of `sep`.
pub open spec fn trim(s: Seq<char>, sep: char) -> Seq<char> {
    trim_end(trim_start(s, sep), sep)
}

/// Position of the first `sep` in `s`, or `s.len()` when `s` holds none.
pub open spec fn find(s: Seq<char>, sep: char) -> nat
    decreases s.len(),
{
    if s.len() == 0 || s[0] == sep {
        0
    } else {
        1 + find(s.drop_first(), sep)
    }
}

/// The parts of `s` between occurrences of `sep`. There is always at least
/// one part; adjacent separators delimit empty parts.
pub open spec fn split(s: Seq<char>, sep: char) -> Seq<Seq<char>>
    decreases s.len(),
{
    let i = find(s, sep) as int;
    if i >= s.len() {
        seq![s]
    } else {
        seq![s.take(i)] + split(s.skip(i + 1), sep)
    }
}

/// The parts written one after another with `sep` between neighbours.
pub open spec fn join(parts: Seq<Seq<char>>, sep: char) -> Seq<char>
    decreases parts.len(),
{
    if parts.len() == 0 {
        Seq::empty()
    } else if parts.len() == 1 {
        parts[0]
    } else {
        parts[0] + seq![sep] + join(parts.drop_first(), sep)
    }
}

/// The segments of a path or template: surrounding slashes are dropped, then
/// the rest is cut at every remaining slash.
pub open spec fn segments_of(path: Seq<char>) -> Seq<Seq<char>> {
    split(trim(path, SLASH), SLASH)
}

/// `find` returns the position `at` when no earlier character is `sep` and
/// `at` is either the end of `s` or holds `sep`.
pub proof fn lemma_find(s: Seq<char>, sep: char, at: int)
    requires
        0 <= at <= s.len(),
        forall|j: int| 0 <= j < at ==> s[j] != sep,
        at < s.len() ==> s[at] == sep,
    ensures
        find(s, sep) == at,
    decreases at,
{
    if at > 0 {
        lemma_find(s.drop_first(), sep, at - 1);
    }
}

/// `trim_start` drops exactly the first `run` characters when these are all
/// `sep` and the next one, if any, is not.
pub proof fn lemma_trim_start(s: Seq<char>, sep: char, run: int)
    requires
        0 <= run <= s.len(),
        forall|j: int| 0 <= j < run ==> s[j] == sep,
        run < s.len() ==> s[run] != sep,
    ensures
        trim_start(s, sep) == s.skip(run),
    decreases run,
{
    if run > 0 {
        lemma_trim_start(s.drop_first(), sep, run - 1);
        assert(s.drop_first().skip(run - 1) =~= s.skip(run));
    } else {
        assert(s.skip(0) =~= s);
    }
}

/// `trim_end` keeps exactly the first `keep` characters when all later ones
/// are `sep` and the last kept one, if any, is not.
pub proof fn lemma_trim_end(s: Seq<char>, sep: char, keep: int)
    requires
        0 <= keep <= s.len(),
        forall|j: int| keep <= j < s.len() ==> s[j] == sep,
        keep > 0 ==> s[keep - 1] != sep,
    ensures
        trim_end(s, sep) == s.take(keep),
    decreases s.len() - keep,
{
    if keep < s.len() {
        lemma_trim_end(s.drop_last(), sep, keep);
        assert(s.drop_last().take(keep) =~= s.take(keep));
    } else {
        assert(s.take(keep) =~= s);
    }
}

/// Splitting never yields an empty list of parts.
pub proof fn lemma_split_nonempty(s: Seq<char>, sep: char)
    ensures
        split(s, sep).len() >= 1,
    decreases s.len(),
{
    let i = find(s, sep) as int;
    if i < s.len() {
        lemma_split_nonempty(s.skip(i + 1), sep);
    }
}

/// No part of a split holds the separator.
pub proof fn lemma_split_parts_hold_no_separator(s: Seq<char>, sep: char)
    ensures
        forall|k: int, j: int|
            0 <= k < split(s, sep).len() && 0 <= j < split(s, sep)[k].len() ==> split(
                s,
                sep,
            )[k][j] != sep,
    decreases s.len(),
{
    let i = find(s, sep) as int;
    let parts = split(s, sep);
    lemma_find_bounds(s, sep);
    if i < s.len() {
        let rest = split(s.skip(i + 1), sep);
        lemma_split_parts_hold_no_separator(s.skip(i + 1), sep);
        assert forall|k: int, j: int| 0 <= k < parts.len() && 0 <= j < parts[k].len() implies
            parts[k][j] != sep by {
            if k > 0 {
                assert(parts[k] == rest[k - 1]);
            }
        }
    }
}

/// `find` stays within `s`, passes over no separator and stops on one.
pub proof fn lemma_find_bounds(s: Seq<char>, sep: char)
    ensures
        find(s, sep) <= s.len(),
        forall|j: int| 0 <= j < find(s, sep) ==> s[j] != sep,
        find(s, sep) < s.len() ==> s[find(s, sep) as int] == sep,
    decreases s.len(),
{
    if s.len() > 0 && s[0] != sep {
        let rest = s.drop_first();
        lemma_find_bounds(rest, sep);
        assert forall|j: int| 0 <= j < find(s, sep) implies s[j] != sep by {
            if j > 0 {
                assert(s[j] == rest[j - 1]);
            }
        }
    }
}

/// Joining the parts of a split gives the text back.
pub proof fn lemma_join_split(s: Seq<char>, sep: char)
    ensures
        join(split(s, sep), sep) == s,
    decreases s.len(),
{
    let i = find(s, sep) as int;
    lemma_find_bounds(s, sep);
    if i < s.len() {
        let rest = s.skip(i + 1);
        let parts = split(s, sep);
        lemma_join_split(rest, sep);
        lemma_split_nonempty(rest, sep);
        assert(parts.drop_first() =~= split(rest, sep));
        assert(s.take(i) + seq![sep] + rest =~= s);
    }
}

/// Appending a part to a list appends it to the joined text, after a
/// separator unless the list was empty.
pub proof fn lemma_join_push(parts: Seq<Seq<char>>, last: Seq<char>, sep: char)
    ensures
        join(parts.push(last), sep) == if parts.len() == 0 {
            last
        } else {
            join(parts, sep) + seq![sep] + last
        },
    decreases parts.len(),
{
    let all = parts.push(last);
    if parts.len() == 0 {
    } else if parts.len() == 1 {
        assert(all.drop_first() =~= seq![last]);
        assert(join(all.drop_first(), sep) == last);
    } else {
        lemma_join_push(parts.drop_first(), last, sep);
        assert(all.drop_first() =~= parts.drop_first().push(last));
        assert(parts[0] + seq![sep] + (join(parts.drop_first(), sep) + seq![sep] + last) =~= (
        parts[0] + seq![sep] + join(parts.drop_first(), sep)) + seq![sep] + last);
    }
}

/// A text without slash is its own single segment.
pub proof fn lemma_segments_of_plain(word: Seq<char>)
    requires
        forall|i: int| 0 <= i < word.len() ==> word[i] != SLASH,
    ensures
        segments_of(word) == seq![word],
{
    lemma_trim_start(word, SLASH, 0);
    assert(word.skip(0) =~= word);
    lemma_trim_end(word, SLASH, word.len() as int);
    assert(word.take(word.len() as int) =~= word);
    lemma_find(word, SLASH, word.len() as int);
}

/// Every path has at least one segment.
pub proof fn lemma_segments_nonempty(path: Seq<char>)
    ensures
        segments_of(path).len() >= 1,
{
    lemma_split_nonempty(trim(path, SLASH), SLASH);
}

/// The characters of `text`, in order.
pub fn chars_of(text: &str) -> (chars: Vec<char>)
    ensures
        chars@ == text@,
{
    let mut chars: Vec<char> = Vec::new();
    for c in it: text.chars()
        invariant
            chars@ == it.seq().take(it.index()),
            it.seq() == text@,
    {
        chars.push(c);
    }
    chars
}

/// Whether two strings hold the same characters.
pub fn same_text(a: &str, b: &str) -> (same: bool)
    ensures
        same == (a@ == b@),
{
    let left = chars_of(a);
    let right = chars_of(b);
    if left.len() != right.len() {
        return false;
    }
    let mut i: usize = 0;
    while i < left.len()
        invariant
            left@ == a@,
            right@ == b@,
            left.len() == right.len(),
            i <= left.len(),
            forall|j: int| 0 <= j < i ==> left@[j] == right@[j],
        decreases left.len() - i,
    {
        if left[i] != right[i] {
            return false;
        }
        i += 1;
    }
    assert(a@ =~= b@);
    true
}

/// Cuts the characters `from..to` of `text` at every `sep`.
fn split_range(text: &str, chars: &Vec<char>, from: usize, to: usize, sep: char) -> (parts: Vec<
    String,
>)
    requires
        chars@ == text@,
        from <= to <= chars.len(),
    ensures
        texts(parts@) == split(text@.subrange(from as int, to as int), sep),
{
    let mut parts: Vec<String> = Vec::new();
    let mut start: usize = from;
    let mut i: usize = from;
    while i < to
        invariant
            chars@ == text@,
            from <= start <= i <= to <= chars.len(),
            forall|j: int| start <= j < i ==> chars@[j] != sep,
            split(text@.subrange(from as int, to as int), sep) == texts(parts@) + split(
                text@.subrange(start as int, to as int),
                sep,
            ),
        decreases to - i,
    {
        if chars[i] == sep {
            let part = text.substring_char(start, i).to_owned();
            proof {
                let tail = text@.subrange(start as int, to as int);
                lemma_find(tail, sep, i - start);
                assert(tail.take(i - start) =~= text@.subrange(start as int, i as int));
                assert(tail.skip(i - start + 1) =~= text@.subrange(i + 1, to as int));
                assert(texts(parts@.push(part)) =~= texts(parts@).push(part@));
                assert(texts(parts@).push(part@) + split(text@.subrange(i + 1, to as int), sep)
                    =~= texts(parts@) + split(tail, sep));
            }
            parts.push(part);
            start = i + 1;
        }
        i += 1;
    }
    let part = text.substring_char(start, to).to_owned();
    proof {
        let tail = text@.subrange(start as int, to as int);
        lemma_find(tail, sep, to - start);
        assert(texts(parts@.push(part)) =~= texts(parts@).push(part@));
        assert(texts(parts@).push(part@) =~= texts(parts@) + split(tail, sep));
    }
    parts.push(part);
    parts
}

/// Cuts `text` at every `sep`.
pub fn split_text(text: &str, sep: char) -> (parts: Vec<String>)
    ensures
        texts(parts@) == split(text@, sep),
{
    let chars = chars_of(text);
    assert(text@.subrange(0, chars.len() as int) =~= text@);
    split_range(text, &chars, 0, chars.len(), sep)
}

/// The segments of `path`: see [`segments_of`].
pub fn path_segments(path: &str) -> (segments: Vec<String>)
    ensures
        texts(segments@) == segments_of(path@),
{
    let chars = chars_of(path);
    let n = chars.len();
    let mut from: usize = 0;
    while from < n && chars[from] == SLASH
        invariant
            from <= n == chars.len(),
            forall|j: int| 0 <= j < from ==> chars@[j] == SLASH,
        decreases n - from,
    {
        from += 1;
    }
    let mut to: usize = n;
    while to > from && chars[to - 1] == SLASH
        invariant
            from <= to <= n == chars.len(),
            forall|j: int| to <= j < n ==> chars@[j] == SLASH,
        decreases to,
    {
        to -= 1;
    }
    proof {
        lemma_trim_start(path@, SLASH, from as int);
        let rest = path@.skip(from as int);
        lemma_trim_end(rest, SLASH, to - from);
        assert(rest.take(to - from) =~= path@.subrange(from as int, to as int));
    }
    split_range(path, &chars, from, to, SLASH)
}

/// Joins the segments from index `from` on with `/` between neighbours.
pub fn join_segments(segments: &Vec<String>, from: usize) -> (joined: String)
    requires
        from <= segments.len(),
    ensures
        joined@ == join(texts(segments@).skip(from as int), SLASH),
{
    let mut joined = String::new();
    let mut i: usize = from;
    while i < segments.len()
        invariant
            from <= i <= segments.len(),
            joined@ == join(texts(segments@).subrange(from as int, i as int), SLASH),
        decreases segments.len() - i,
    {
        proof {
            reveal_strlit("/");
            let done = texts(segments@).subrange(from as int, i as int);
            lemma_join_push(done, segments@[i as int]@, SLASH);
            assert(done.push(segments@[i as int]@) =~= texts(segments@).subrange(
                from as int,
                i + 1,
            ));
            assert("/"@ =~= seq![SLASH]);
        }
        if i > from {
            joined.append("/");
        }
        joined.append(segments[i].as_str());
        i += 1;
    }
    assert(texts(segments@).subrange(from as int, segments.len() as int) =~= texts(segments@).skip(
        from as int,
    ));
    joined
}

} // verus!
