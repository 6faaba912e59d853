//! Route patterns: a path template parsed into segment matchers, and the
//! matching of request paths against it.

use crate::route_params::RouteParams;
use crate::segments::{
    join, join_segments, lemma_find, lemma_join_split, lemma_segments_nonempty,
    lemma_segments_of_plain, lemma_trim_end, lemma_trim_start, path_segments, segments_of, split,
    texts, trim, SLASH,
};
use vstd::prelude::*;

verus! {

/// One matcher of a route pattern, as stored.
#[derive(Debug, PartialEq)]
pub enum PathSegment {
    /// Matches a path segment equal to the text.
    Static(String),
    /// Matches any path segment and captures it under the name.
    Dynamic(String),
    /// Matches all remaining path segments and ends the match.
    Wildcard,
}

/// One matcher of a route pattern, as a mathematical value.
pub enum Segment {
    Static(Seq<char>),
    Dynamic(Seq<char>),
    Wildcard,
}

impl View for PathSegment {
    type V = Segment;

    open spec fn view(&self) -> Segment {
        match self {
            PathSegment::Static(text) => Segment::Static(text@),
            PathSegment::Dynamic(name) => Segment::Dynamic(name@),
            PathSegment::Wildcard => Segment::Wildcard,
        }
    }
}

/// A parsed path template: the matchers in the order of the template.
#[derive(Debug, PartialEq)]
pub struct RoutePattern {
    pub segments: Vec<PathSegment>,
}

impl View for RoutePattern {
    type V = Seq<Segment>;

    open spec fn view(&self) -> Seq<Segment> {
        self.segments@.map_values(|s: PathSegment| s@)
    }
}

/// The key under which the wildcard's capture is stored.
pub const WILDCARD_KEY: &'static str = "*";

/// The characters of [`WILDCARD_KEY`].
pub open spec fn wildcard_key() -> Seq<char> {
    seq!['*']
}

/// The matcher that a template segment stands for: `:name` captures under
/// `name`, a segment that starts with `*` is the wildcard, anything else
/// (the empty segment too) is literal text.
pub open spec fn classify(segment: Seq<char>) -> Segment {
    if segment.len() > 0 && segment[0] == ':' {
        Segment::Dynamic(segment.skip(1))
    } else if segment.len() > 0 && segment[0] == '*' {
        Segment::Wildcard
    } else {
        Segment::Static(segment)
    }
}

/// The pattern that a template stands for: its segments, each classified.
pub open spec fn parse_template(template: Seq<char>) -> Seq<Segment> {
    segments_of(template).map_values(|s: Seq<char>| classify(s))
}

/// Matches the path segments against the pattern, position by position,
/// adding to the captures made so far.
///
/// A static matcher needs a path segment equal to its text, a dynamic one
/// needs any path segment and captures it, the wildcard captures whatever is
/// left, joined by `/`, and succeeds at once. A pattern that ends without a
/// wildcard succeeds only if the path has ended too.
pub open spec fn match_from(
    pattern: Seq<Segment>,
    path: Seq<Seq<char>>,
    captured: Map<Seq<char>, Seq<char>>,
) -> Option<Map<Seq<char>, Seq<char>>>
    decreases pattern.len(),
{
    if pattern.len() == 0 {
        if path.len() == 0 {
            Some(captured)
        } else {
            None
        }
    } else {
        match pattern[0] {
            Segment::Wildcard => Some(captured.insert(wildcard_key(), join(path, SLASH))),
            Segment::Static(text) => if path.len() > 0 && path[0] == text {
                match_from(pattern.drop_first(), path.drop_first(), captured)
            } else {
                None
            },
            Segment::Dynamic(name) => if path.len() > 0 {
                match_from(pattern.drop_first(), path.drop_first(), captured.insert(name, path[0]))
            } else {
                None
            },
        }
    }
}

/// The captures of matching `path` against `pattern`, or `None` when the
/// path does not match.
pub open spec fn match_path(pattern: Seq<Segment>, path: Seq<char>) -> Option<
    Map<Seq<char>, Seq<char>>,
> {
    match_from(pattern, segments_of(path), Map::empty())
}

/// The view of an optional set of captures.
pub open spec fn captures(found: Option<RouteParams>) -> Option<Map<Seq<char>, Seq<char>>> {
    match found {
        Some(params) => Some(params@),
        None => None,
    }
}

/// No matcher of the pattern is the wildcard.
pub open spec fn wildcard_free(pattern: Seq<Segment>) -> bool {
    forall|i: int| 0 <= i < pattern.len() ==> !(#[trigger] pattern[i] is Wildcard)
}

/// The path has a segment at the position of every static matcher, equal to
/// the matcher's text.
pub open spec fn statics_agree(pattern: Seq<Segment>, path: Seq<Seq<char>>) -> bool {
    forall|i: int|
        0 <= i < pattern.len() && #[trigger] pattern[i] is Static ==> i < path.len() && path[i]
            == pattern[i]->Static_0
}

/// The shape that the matching policy treats every pattern as having: a
/// wildcard, if there is one, is the last matcher.
pub open spec fn wildcard_only_last(pattern: Seq<Segment>) -> bool {
    forall|i: int| 0 <= i < pattern.len() - 1 ==> !(#[trigger] pattern[i] is Wildcard)
}

/// Matching against a pattern without wildcard succeeds exactly when the path
/// has as many segments as the pattern has matchers and agrees with every
/// static matcher, whatever was captured before.
pub proof fn lemma_match_from_without_wildcard(
    pattern: Seq<Segment>,
    path: Seq<Seq<char>>,
    captured: Map<Seq<char>, Seq<char>>,
)
    requires
        wildcard_free(pattern),
    ensures
        match_from(pattern, path, captured) is Some <==> path.len() == pattern.len()
            && statics_agree(pattern, path),
    decreases pattern.len(),
{
    if pattern.len() > 0 {
        let rest = pattern.drop_first();
        let tail = path.drop_first();
        assert(wildcard_free(rest)) by {
            assert forall|i: int| 0 <= i < rest.len() implies !(#[trigger] rest[i] is Wildcard) by {
                assert(rest[i] == pattern[i + 1]);
            }
        }
        assert(!(pattern[0] is Wildcard));
        if path.len() > 0 {
            let next = match pattern[0] {
                Segment::Dynamic(name) => captured.insert(name, path[0]),
                _ => captured,
            };
            lemma_match_from_without_wildcard(rest, tail, next);
            if statics_agree(pattern, path) {
                assert forall|i: int| 0 <= i < rest.len() && #[trigger] rest[i] is Static implies i
                    < tail.len() && tail[i] == rest[i]->Static_0 by {
                    assert(rest[i] == pattern[i + 1]);
                }
            }
            if (pattern[0] is Static ==> path[0] == pattern[0]->Static_0) && statics_agree(
                rest,
                tail,
            ) {
                assert forall|i: int| 0 <= i < pattern.len() && #[trigger] pattern[i] is Static implies i
                    < path.len() && path[i] == pattern[i]->Static_0 by {
                    if i > 0 {
                        assert(pattern[i] == rest[i - 1]);
                    }
                }
            }
        }
    }
}

/// A pattern without wildcard matches a path exactly when the path has as
/// many segments as the pattern and every static matcher equals the path
/// segment at its position.
pub proof fn lemma_match_without_wildcard(pattern: Seq<Segment>, path: Seq<char>)
    requires
        wildcard_free(pattern),
    ensures
        match_path(pattern, path) is Some <==> segments_of(path).len() == pattern.len()
            && statics_agree(pattern, segments_of(path)),
{
    lemma_match_from_without_wildcard(pattern, segments_of(path), Map::empty());
}

/// Matching ends at a wildcard: the matchers behind it change nothing,
/// whatever was captured before.
pub proof fn lemma_match_from_ends_at_wildcard(
    pattern: Seq<Segment>,
    at: int,
    path: Seq<Seq<char>>,
    captured: Map<Seq<char>, Seq<char>>,
)
    requires
        0 <= at < pattern.len(),
        pattern[at] is Wildcard,
    ensures
        match_from(pattern, path, captured) == match_from(pattern.take(at + 1), path, captured),
    decreases at,
{
    let cut = pattern.take(at + 1);
    assert(cut[0] == pattern[0]);
    if at > 0 && path.len() > 0 {
        let next = match pattern[0] {
            Segment::Dynamic(name) => captured.insert(name, path[0]),
            _ => captured,
        };
        lemma_match_from_ends_at_wildcard(pattern.drop_first(), at - 1, path.drop_first(), next);
        assert(cut.drop_first() =~= pattern.drop_first().take(at));
    }
}

/// Matching is terminal at a wildcard: a pattern matches every path as its
/// prefix up to that wildcard does. Cut at its first wildcard, a pattern has
/// the wildcard in the last position only.
pub proof fn lemma_wildcard_is_terminal(pattern: Seq<Segment>, at: int, path: Seq<char>)
    requires
        0 <= at < pattern.len(),
        pattern[at] is Wildcard,
    ensures
        match_path(pattern, path) == match_path(pattern.take(at + 1), path),
        wildcard_free(pattern.take(at)) ==> wildcard_only_last(pattern.take(at + 1)),
{
    lemma_match_from_ends_at_wildcard(pattern, at, segments_of(path), Map::empty());
    if wildcard_free(pattern.take(at)) {
        assert forall|i: int| 0 <= i < pattern.take(at + 1).len() - 1 implies !(
        #[trigger] pattern.take(at + 1)[i] is Wildcard) by {
            assert(pattern.take(at + 1)[i] == pattern.take(at)[i]);
        }
    }
}

/// The wildcard alone captures the path without its surrounding slashes.
pub proof fn lemma_lone_wildcard_captures_trimmed_path(path: Seq<char>)
    ensures
        match_path(seq![Segment::Wildcard], path) == Some(
            Map::<Seq<char>, Seq<char>>::empty().insert(wildcard_key(), trim(path, SLASH)),
        ),
{
    lemma_join_split(trim(path, SLASH), SLASH);
}

/// Parsing and matching are functions of their inputs: two patterns parsed
/// from one template have the same matchers, and give the same result on
/// every path.
pub proof fn lemma_parse_and_match_repeat(
    first: RoutePattern,
    second: RoutePattern,
    template: Seq<char>,
    path: Seq<char>,
)
    requires
        first@ == parse_template(template),
        second@ == parse_template(template),
    ensures
        first@ == second@,
        match_path(first@, path) == match_path(second@, path),
{
}

/// The pattern matches whatever path is requested.
pub open spec fn accepts_every_path(pattern: Seq<Segment>) -> bool {
    forall|path: Seq<char>| #[trigger] match_path(pattern, path) is Some
}

/// The pattern starts with the wildcard, or with one dynamic matcher and the
/// wildcard behind it.
pub open spec fn is_catch_all(pattern: Seq<Segment>) -> bool {
    pattern.len() > 0 && (pattern[0] is Wildcard || (pattern[0] is Dynamic && pattern.len() > 1
        && pattern[1] is Wildcard))
}

/// The patterns that match every path are exactly those that start with the
/// wildcard, or with one dynamic matcher followed by the wildcard.
pub proof fn lemma_catch_all(pattern: Seq<Segment>)
    ensures
        is_catch_all(pattern) <==> accepts_every_path(pattern),
{
    if is_catch_all(pattern) {
        assert forall|path: Seq<char>| #[trigger] match_path(pattern, path) is Some by {
            lemma_segments_nonempty(path);
            if !(pattern[0] is Wildcard) {
                let captured = Map::<Seq<char>, Seq<char>>::empty().insert(
                    pattern[0]->Dynamic_0,
                    segments_of(path)[0],
                );
                assert(pattern.drop_first()[0] == pattern[1]);
                assert(match_from(pattern.drop_first(), segments_of(path).drop_first(), captured)
                    is Some);
            }
        }
    } else {
        let empty = Seq::<char>::empty();
        let word = seq!['x'];
        let pair = seq!['a', '/', 'b'];
        lemma_segments_of_plain(empty);
        lemma_segments_of_plain(word);
        assert(segments_of(pair).len() == 2) by {
            lemma_trim_start(pair, SLASH, 0);
            assert(pair.skip(0) =~= pair);
            lemma_trim_end(pair, SLASH, 3);
            assert(pair.take(3) =~= pair);
            lemma_find(pair, SLASH, 1);
            lemma_find(pair.skip(2), SLASH, 1);
            assert(split(pair.skip(2), SLASH) == seq![pair.skip(2)]);
            assert(split(pair, SLASH) == seq![pair.take(1)] + split(pair.skip(2), SLASH));
        }
        let refused = if pattern.len() == 0 {
            empty
        } else if pattern[0] is Static {
            if pattern[0]->Static_0.len() == 0 {
                word
            } else {
                empty
            }
        } else if pattern.len() == 1 {
            pair
        } else {
            empty
        };
        assert(match_path(pattern, refused) is None) by {
            if pattern.len() > 0 && pattern[0] is Dynamic {
                let rest = pattern.drop_first();
                let left = segments_of(refused).drop_first();
                let captured = Map::<Seq<char>, Seq<char>>::empty().insert(
                    pattern[0]->Dynamic_0,
                    segments_of(refused)[0],
                );
                if pattern.len() > 1 {
                    assert(rest[0] == pattern[1]);
                    assert(left.len() == 0);
                } else {
                    assert(left.len() == 1);
                }
                assert(match_from(rest, left, captured) is None);
            }
        }
    }
}

/// Classifies one template segment.
fn classify_segment(segment: String) -> (matcher: PathSegment)
    ensures
        matcher@ == classify(segment@),
{
    let text = segment.as_str();
    let n = text.unicode_len();
    if n > 0 {
        let first = text.get_char(0);
        if first == ':' {
            let name = text.substring_char(1, n).to_owned();
            assert(name@ =~= segment@.skip(1));
            return PathSegment::Dynamic(name);
        }
        if first == '*' {
            return PathSegment::Wildcard;
        }
    }
    PathSegment::Static(segment)
}

impl RoutePattern {
    /// The pattern without segments. It matches no path: every path has at
    /// least one segment.
    pub fn _new() -> (pattern: RoutePattern)
        ensures
            pattern@ == Seq::<Segment>::empty(),
    {
        let pattern = RoutePattern { segments: Vec::new() };
        assert(pattern@ =~= Seq::<Segment>::empty());
        pattern
    }

    /// Whether the pattern matches every path.
    pub fn accepts_every_path(&self) -> (accepts: bool)
        ensures
            accepts == accepts_every_path(self@),
    {
        proof {
            lemma_catch_all(self@);
        }
        if self.segments.len() == 0 {
            return false;
        }
        match &self.segments[0] {
            PathSegment::Wildcard => true,
            PathSegment::Static(_) => false,
            PathSegment::Dynamic(_) => {
                if self.segments.len() > 1 {
                    match &self.segments[1] {
                        PathSegment::Wildcard => true,
                        _ => false,
                    }
                } else {
                    false
                }
            },
        }
    }

    /// Parses a template. Every template is accepted.
    pub fn parse(template: &str) -> (pattern: RoutePattern)
        ensures
            pattern@ == parse_template(template@),
    {
        let mut parts = path_segments(template);
        let ghost all = texts(parts@);
        let mut segments: Vec<PathSegment> = Vec::new();
        let n = parts.len();
        let mut i: usize = 0;
        while i < n
            invariant
                i <= n == parts.len(),
                all.len() == n,
                segments.len() == i,
                forall|j: int| i <= j < n ==> parts@[j]@ == all[j],
                forall|j: int| 0 <= j < i ==> segments@[j]@ == classify(all[j]),
            decreases n - i,
        {
            let mut part = String::new();
            core::mem::swap(&mut parts[i], &mut part);
            segments.push(classify_segment(part));
            i += 1;
        }
        let pattern = RoutePattern { segments };
        assert(pattern@ =~= parse_template(template@));
        pattern
    }

    /// Matches a request path, returning the captured parameters.
    pub fn matches(&self, path: &str) -> (found: Option<RouteParams>)
        ensures
            captures(found) == match_path(self@, path@),
    {
        let parts = path_segments(path);
        let ghost all = texts(parts@);
        let mut params = RouteParams::new();
        let mut i: usize = 0;
        assert(self@.skip(0) =~= self@ && all.skip(0) =~= all);
        while i < self.segments.len()
            invariant
                i <= self.segments.len(),
                i <= parts.len(),
                all == texts(parts@),
                all == segments_of(path@),
                match_path(self@, path@) == match_from(
                    self@.skip(i as int),
                    all.skip(i as int),
                    params@,
                ),
            decreases self.segments.len() - i,
        {
            proof {
                assert(self@.skip(i as int)[0] == self.segments@[i as int]@);
                assert(self@.skip(i as int).drop_first() =~= self@.skip(i + 1));
                if i < parts.len() {
                    assert(all.skip(i as int).drop_first() =~= all.skip(i + 1));
                    assert(all.skip(i as int)[0] == parts@[i as int]@);
                }
            }
            match &self.segments[i] {
                PathSegment::Static(expected) => {
                    if i >= parts.len() || !(parts[i] == *expected) {
                        return None;
                    }
                },
                PathSegment::Dynamic(name) => {
                    if i >= parts.len() {
                        return None;
                    }
                    params.insert(name.clone(), parts[i].clone());
                },
                PathSegment::Wildcard => {
                    proof {
                        reveal_strlit("*");
                        assert(WILDCARD_KEY@ =~= wildcard_key());
                    }
                    params.insert(WILDCARD_KEY.to_owned(), join_segments(&parts, i));
                    return Some(params);
                },
            }
            i += 1;
        }
        if i == parts.len() {
            Some(params)
        } else {
            None
        }
    }
}

impl core::str::FromStr for RoutePattern {
    type Err = String;

    /// Parses a template; the result is always `Ok`.
    fn from_str(path: &str) -> (parsed: Result<RoutePattern, String>)
        ensures
            parsed matches Ok(pattern) && pattern@ == parse_template(path@),
    {
        Ok(RoutePattern::parse(path))
    }
}

} // verus!
