//! Request dispatch: an ordered route table whose first matching route wins.

use crate::request::{parse_request_line, RequestLine, SPACE};
use crate::route_params::RouteParams;
use crate::route_pattern::{
    accepts_every_path, lemma_catch_all, match_path, parse_template, RoutePattern, Segment,
};
use crate::segments::{
    lemma_find, lemma_trim_end, lemma_trim_start, same_text, segments_of, split, SLASH,
};
use vstd::prelude::*;

verus! {

/// The file served for the path `/`, and by the sleep handler.
pub const INDEX_PAGE: &'static str = "hello.html";

/// Seconds that the sleep handler waits before it answers.
pub const SLEEP_SECS: u64 = 3;

/// What a route does with a request.
#[derive(Clone, Copy, Debug, PartialEq, Eq)]
pub enum Handler {
    /// Waits [`SLEEP_SECS`], then serves the index page.
    Sleep,
    /// Serves the file that the request path names.
    ServeFile,
}

/// What a handler asks of the server: how long to wait first, and which
/// logical path to resolve against the document root.
#[derive(Debug)]
pub struct ServePlan {
    pub delay_secs: u64,
    pub logical_path: String,
}

/// The seconds a handler waits before it answers.
pub open spec fn planned_delay(handler: Handler) -> u64 {
    match handler {
        Handler::Sleep => SLEEP_SECS,
        Handler::ServeFile => 0,
    }
}

/// The logical path a handler serves for a request path: the sleep handler
/// always serves the index page, the file handler serves it for `/` and the
/// request path itself otherwise.
pub open spec fn planned_path(handler: Handler, request_path: Seq<char>) -> Seq<char> {
    match handler {
        Handler::Sleep => INDEX_PAGE@,
        Handler::ServeFile => if request_path == seq![SLASH] {
            INDEX_PAGE@
        } else {
            request_path
        },
    }
}

impl Handler {
    /// The plan of this handler for a request path.
    pub fn plan(self, request_path: &str) -> (plan: ServePlan)
        ensures
            plan.delay_secs == planned_delay(self),
            plan.logical_path@ == planned_path(self, request_path@),
    {
        proof {
            reveal_strlit("/");
            assert("/"@ =~= seq![SLASH]);
        }
        match self {
            Handler::Sleep => ServePlan {
                delay_secs: SLEEP_SECS,
                logical_path: INDEX_PAGE.to_owned(),
            },
            Handler::ServeFile => {
                let logical_path = if same_text(request_path, "/") {
                    INDEX_PAGE.to_owned()
                } else {
                    request_path.to_owned()
                };
                ServePlan { delay_secs: 0, logical_path }
            },
        }
    }
}

/// One entry of the route table.
#[derive(Debug)]
pub struct Route {
    pub pattern: RoutePattern,
    pub handler: Handler,
}

impl View for Route {
    type V = (Seq<Segment>, Handler);

    open spec fn view(&self) -> (Seq<Segment>, Handler) {
        (self.pattern@, self.handler)
    }
}

/// The views of a list of routes.
pub open spec fn route_views(routes: Seq<Route>) -> Seq<(Seq<Segment>, Handler)> {
    routes.map_values(|r: Route| r@)
}

/// The list is not empty and its last pattern matches every path, so that
/// every request finds a route.
pub open spec fn ends_with_catch_all(routes: Seq<(Seq<Segment>, Handler)>) -> bool {
    routes.len() > 0 && accepts_every_path(routes.last().0)
}

/// `index` is the first route, in declaration order, whose pattern matches
/// `path`.
pub open spec fn is_first_match(
    routes: Seq<(Seq<Segment>, Handler)>,
    path: Seq<char>,
    index: int,
) -> bool {
    &&& 0 <= index < routes.len()
    &&& match_path(routes[index].0, path) is Some
    &&& forall|j: int| 0 <= j < index ==> match_path(#[trigger] routes[j].0, path) is None
}

/// The routes that the server comes with: `/sleep` for the sleep handler,
/// then `/*` for the file handler.
pub open spec fn standard_routes() -> Seq<(Seq<Segment>, Handler)> {
    seq![
        (parse_template("/sleep"@), Handler::Sleep),
        (parse_template("/*"@), Handler::ServeFile),
    ]
}

/// The template `/*` is the wildcard alone.
pub proof fn lemma_wildcard_template()
    ensures
        parse_template("/*"@) == seq![Segment::Wildcard],
{
    reveal_strlit("/*");
    let template = "/*"@;
    let star = seq!['*'];
    lemma_trim_start(template, SLASH, 1);
    assert(template.skip(1) =~= star);
    lemma_trim_end(star, SLASH, 1);
    assert(star.take(1) =~= star);
    lemma_find(star, SLASH, 1);
    assert(segments_of(template) == seq![star]);
    assert(parse_template(template) =~= seq![Segment::Wildcard]);
}

/// The outcome of a dispatch: the route chosen, its handler, and what its
/// pattern captured from the request path.
#[derive(Debug)]
pub struct Dispatch {
    pub index: usize,
    pub handler: Handler,
    pub params: RouteParams,
}

/// What the server does for one request: the route chosen for it and the
/// plan of that route's handler.
#[derive(Debug)]
pub struct Routed {
    pub request: RequestLine,
    pub dispatch: Dispatch,
    pub plan: ServePlan,
}

/// The ordered routes of a server. The last route matches every path.
#[derive(Debug)]
pub struct RouteTable {
    routes: Vec<Route>,
}

impl View for RouteTable {
    type V = Seq<(Seq<Segment>, Handler)>;

    closed spec fn view(&self) -> Seq<(Seq<Segment>, Handler)> {
        route_views(self.routes@)
    }
}

impl RouteTable {
    #[verifier::type_invariant]
    spec fn last_route_catches_all(&self) -> bool {
        ends_with_catch_all(route_views(self.routes@))
    }

    /// A table of the given routes, in their order, if the last of them
    /// matches every path.
    pub fn new(routes: Vec<Route>) -> (table: Option<RouteTable>)
        ensures
            table is Some <==> ends_with_catch_all(route_views(routes@)),
            table matches Some(t) ==> t@ == route_views(routes@),
    {
        let n = routes.len();
        if n == 0 || !routes[n - 1].pattern.accepts_every_path() {
            return None;
        }
        Some(RouteTable { routes })
    }

    /// The table that the server comes with: see [`standard_routes`].
    pub fn standard() -> (table: RouteTable)
        ensures
            table@ == standard_routes(),
            ends_with_catch_all(table@),
    {
        let mut routes: Vec<Route> = Vec::new();
        routes.push(Route { pattern: RoutePattern::parse("/sleep"), handler: Handler::Sleep });
        routes.push(Route { pattern: RoutePattern::parse("/*"), handler: Handler::ServeFile });
        proof {
            lemma_wildcard_template();
            lemma_catch_all(parse_template("/*"@));
            assert(route_views(routes@) =~= standard_routes());
        }
        RouteTable { routes }
    }

    /// The number of routes, which is never zero.
    pub fn len(&self) -> (n: usize)
        ensures
            n == self@.len(),
            ends_with_catch_all(self@),
    {
        proof {
            use_type_invariant(self);
        }
        self.routes.len()
    }

    /// Chooses the route for a request: the first one, in declaration order,
    /// whose pattern matches the request path. Later routes are not tried.
    /// Method and version of the request play no part.
    pub fn dispatch(&self, request: &RequestLine) -> (chosen: Dispatch)
        ensures
            is_first_match(self@, request.path@, chosen.index as int),
            chosen.handler == self@[chosen.index as int].1,
            match_path(self@[chosen.index as int].0, request.path@) == Some(chosen.params@),
    {
        proof {
            use_type_invariant(self);
        }
        let last = self.routes.len() - 1;
        let mut i: usize = 0;
        while i < last
            invariant
                i <= last == self.routes.len() - 1,
                forall|j: int|
                    0 <= j < i ==> match_path(#[trigger] self@[j].0, request.path@) is None,
            decreases last - i,
        {
            match self.routes[i].pattern.matches(request.path.as_str()) {
                Some(params) => {
                    return Dispatch { index: i, handler: self.routes[i].handler, params };
                },
                None => {},
            }
            i += 1;
        }
        match self.routes[last].pattern.matches(request.path.as_str()) {
            Some(params) => Dispatch { index: last, handler: self.routes[last].handler, params },
            None => vstd::pervasive::unreached(),
        }
    }

    /// Decides what to do for a request line: `None` for a line that does
    /// not have three parts, else the route that the path is dispatched to
    /// and the plan of its handler for that path.
    pub fn plan_request(&self, line: &str) -> (routed: Option<Routed>)
        ensures
            routed is Some <==> split(line@, SPACE).len() == 3,
            routed matches Some(r) ==> {
                &&& split(line@, SPACE) == seq![r.request.method@, r.request.path@, r.request.version@]
                &&& is_first_match(self@, r.request.path@, r.dispatch.index as int)
                &&& r.dispatch.handler == self@[r.dispatch.index as int].1
                &&& match_path(self@[r.dispatch.index as int].0, r.request.path@) == Some(
                    r.dispatch.params@,
                )
                &&& r.plan.delay_secs == planned_delay(r.dispatch.handler)
                &&& r.plan.logical_path@ == planned_path(r.dispatch.handler, r.request.path@)
            },
    {
        match parse_request_line(line) {
            Some(request) => {
                let dispatch = self.dispatch(&request);
                let plan = dispatch.handler.plan(request.path.as_str());
                Some(Routed { request, dispatch, plan })
            },
            None => None,
        }
    }
}

} // verus!
