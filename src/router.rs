//! The route table: registration in order, first-match-wins selection, and the
//! not-found outcome.
use vstd::prelude::*;
use crate::http::{AppError, Method};
use crate::pattern::{
    PathPattern, PathMatch, Piece, match_pieces, compile_pieces, compile_names, capture_kinds,
    select_captures,
};
use crate::text::concat;
use crate::text_map::{TextMap, zip_pairs};

verus! {

/// What the router knows of a route when it selects one: its method, and its compiled template.
pub struct RouteKey {
    pub method: Method,
    pub pieces: Seq<Piece>,
    pub names: Seq<Seq<char>>,
}

/// Whether the route takes a request with this method and path.
pub open spec fn route_accepts(r: RouteKey, method: Method, path: Seq<char>) -> bool {
    r.method == method && match_pieces(r.pieces, path) is Some
}

/// The first route at or after `i` that takes the request.
pub open spec fn first_match_from(table: Seq<RouteKey>, method: Method, path: Seq<char>, i: int) -> Option<int>
    decreases table.len() - i,
{
    if i < 0 || i >= table.len() {
        None
    } else if route_accepts(table[i], method, path) {
        Some(i)
    } else {
        first_match_from(table, method, path, i + 1)
    }
}

/// The first route of the table, in registration order, that takes the request.
pub open spec fn first_match(table: Seq<RouteKey>, method: Method, path: Seq<char>) -> Option<int> {
    first_match_from(table, method, path, 0)
}

/// The parameters that route `r` extracts from `path`.
pub open spec fn route_params(r: RouteKey, path: Seq<char>) -> Map<Seq<char>, Seq<char>> {
    zip_pairs(r.names, select_captures(capture_kinds(r.pieces), match_pieces(r.pieces, path)->0, true))
}

/// The text of the not-found error for `path`.
pub open spec fn not_found_message(path: Seq<char>) -> Seq<char> {
    "Route not found: "@ + path
}

pub proof fn lemma_first_match_from(table: Seq<RouteKey>, method: Method, path: Seq<char>, i: int)
    requires
        0 <= i <= table.len(),
    ensures
        match first_match_from(table, method, path, i) {
            Some(j) => i <= j < table.len() && route_accepts(table[j], method, path) && forall|x: int|
                i <= x < j ==> !route_accepts(#[trigger] table[x], method, path),
            None => forall|x: int| i <= x < table.len() ==> !route_accepts(#[trigger] table[x], method, path),
        },
    decreases table.len() - i,
{
    if i < table.len() && !route_accepts(table[i], method, path) {
        lemma_first_match_from(table, method, path, i + 1);
    }
}

/// A method bound to a compiled template and a handler.
pub struct Route<H> {
    pub method: Method,
    pub pattern: PathPattern,
    pub handler: H,
}

impl<H> Route<H> {
    pub open spec fn key(&self) -> RouteKey {
        RouteKey {
            method: self.method,
            pieces: self.pattern.pieces@,
            names: self.pattern.param_names.deep_view(),
        }
    }

    /// Binds `method` and the compiled `path` to `handler`.
    pub fn new(method: Method, path: &str, handler: H) -> (r: Route<H>)
        ensures
            r.pattern.wf(),
            r.pattern.path@ == path@,
            r.method == method,
            r.handler == handler,
    {
        Route { method, pattern: PathPattern::new(path), handler }
    }

    /// The parameters of the request if this route takes it: `None` when the
    /// method differs or the path does not match.
    pub fn matches(&self, method: Method, path: &str) -> (r: Option<PathMatch>)
        requires
            self.pattern.wf(),
        ensures
            r is Some <==> route_accepts(self.key(), method, path@),
            r is Some ==> r->0.params.wf() && r->0.params@ == route_params(self.key(), path@),
            r is Some ==> r->0.captures.deep_view() == match_pieces(self.key().pieces, path@)->0,
            r is Some ==> r->0.wildcards.deep_view() == select_captures(
                capture_kinds(self.key().pieces),
                match_pieces(self.key().pieces, path@)->0,
                false,
            ),
    {
        if self.method != method {
            return None;
        }
        self.pattern.match_path(path)
    }
}

/// An ordered route table and an ordered middleware list.
pub struct Router<H, M> {
    routes: Vec<Route<H>>,
    middleware: Vec<M>,
}

impl<H, M> Router<H, M> {
    /// The routes as the selection sees them, in registration order.
    pub closed spec fn table(&self) -> Seq<RouteKey> {
        self.routes@.map_values(|r: Route<H>| r.key())
    }

    /// The handlers, in registration order.
    pub closed spec fn handlers(&self) -> Seq<H> {
        self.routes@.map_values(|r: Route<H>| r.handler)
    }

    /// The middleware, in registration order.
    pub closed spec fn layers(&self) -> Seq<M> {
        self.middleware@
    }

    pub closed spec fn wf(&self) -> bool {
        forall|i: int| 0 <= i < self.routes@.len() ==> (#[trigger] self.routes@[i]).pattern.wf()
    }

    /// A router with no routes and no middleware.
    pub fn new() -> (r: Self)
        ensures
            r.wf(),
            r.table().len() == 0,
            r.handlers().len() == 0,
            r.layers().len() == 0,
    {
        Router { routes: Vec::new(), middleware: Vec::new() }
    }

    /// Appends a route for `method` and `path`; earlier routes take precedence over it.
    pub fn route(self, method: Method, path: &str, handler: H) -> (r: Self)
        requires
            self.wf(),
        ensures
            r.wf(),
            r.table().len() == self.table().len() + 1,
            r.table().subrange(0, self.table().len() as int) == self.table(),
            r.table().last().method == method,
            r.table().last().pieces == compile_pieces(path@),
            r.table().last().names == compile_names(path@),
            r.handlers() == self.handlers().push(handler),
            r.layers() == self.layers(),
    {
        let mut s = self;
        let rt = Route::new(method, path, handler);
        let ghost before = s.routes@;
        s.routes.push(rt);
        proof {
            assert(s.table().subrange(0, before.len() as int) =~= before.map_values(
                |r: Route<H>| r.key(),
            ));
            assert(s.handlers() =~= before.map_values(|r: Route<H>| r.handler).push(handler));
        }
        s
    }

    /// Appends a route for GET requests.
    pub fn get(self, path: &str, handler: H) -> (r: Self)
        requires
            self.wf(),
        ensures
            r.wf(),
            r.table() == self.table().push(r.table().last()),
            r.table().last().method == Method::Get,
            r.table().last().pieces == compile_pieces(path@),
            r.table().last().names == compile_names(path@),
            r.handlers() == self.handlers().push(handler),
            r.layers() == self.layers(),
    {
        let r = self.route(Method::Get, path, handler);
        proof {
            assert(r.table() =~= self.table().push(r.table().last()));
        }
        r
    }

    /// Appends a route for POST requests.
    pub fn post(self, path: &str, handler: H) -> (r: Self)
        requires
            self.wf(),
        ensures
            r.wf(),
            r.table() == self.table().push(r.table().last()),
            r.table().last().method == Method::Post,
            r.table().last().pieces == compile_pieces(path@),
            r.table().last().names == compile_names(path@),
            r.handlers() == self.handlers().push(handler),
            r.layers() == self.layers(),
    {
        let r = self.route(Method::Post, path, handler);
        proof {
            assert(r.table() =~= self.table().push(r.table().last()));
        }
        r
    }

    /// Appends a route for PUT requests.
    pub fn put(self, path: &str, handler: H) -> (r: Self)
        requires
            self.wf(),
        ensures
            r.wf(),
            r.table() == self.table().push(r.table().last()),
            r.table().last().method == Method::Put,
            r.table().last().pieces == compile_pieces(path@),
            r.table().last().names == compile_names(path@),
            r.handlers() == self.handlers().push(handler),
            r.layers() == self.layers(),
    {
        let r = self.route(Method::Put, path, handler);
        proof {
            assert(r.table() =~= self.table().push(r.table().last()));
        }
        r
    }

    /// Appends a route for DELETE requests.
    pub fn delete(self, path: &str, handler: H) -> (r: Self)
        requires
            self.wf(),
        ensures
            r.wf(),
            r.table() == self.table().push(r.table().last()),
            r.table().last().method == Method::Delete,
            r.table().last().pieces == compile_pieces(path@),
            r.table().last().names == compile_names(path@),
            r.handlers() == self.handlers().push(handler),
            r.layers() == self.layers(),
    {
        let r = self.route(Method::Delete, path, handler);
        proof {
            assert(r.table() =~= self.table().push(r.table().last()));
        }
        r
    }

    /// Appends a middleware; the first one registered is the outermost.
    pub fn use_middleware(self, middleware: M) -> (r: Self)
        requires
            self.wf(),
        ensures
            r.wf(),
            r.table() == self.table(),
            r.handlers() == self.handlers(),
            r.layers() == self.layers().push(middleware),
    {
        let mut s = self;
        s.middleware.push(middleware);
        s
    }

    /// The number of routes.
    pub fn route_count(&self) -> (n: usize)
        ensures
            n == self.table().len(),
    {
        self.routes.len()
    }

    /// The handler of route `i`.
    pub fn handler(&self, i: usize) -> (h: &H)
        requires
            i < self.handlers().len(),
        ensures
            *h == self.handlers()[i as int],
    {
        &self.routes[i].handler
    }

    /// The middleware, in registration order.
    pub fn middleware(&self) -> (m: &Vec<M>)
        ensures
            m@ == self.layers(),
    {
        &self.middleware
    }

    /// The first route, in registration order, whose method equals `method`
    /// and whose template matches the whole of `path`, with what it captured.
    pub fn find_route(&self, method: Method, path: &str) -> (r: Option<(usize, PathMatch)>)
        requires
            self.wf(),
        ensures
            match first_match(self.table(), method, path@) {
                Some(i) => match r {
                    Some(found) => found.0 == i && found.1.params.wf() && found.1.params@
                        == route_params(self.table()[i], path@),
                    None => false,
                },
                None => r is None,
            },
    {
        let mut i: usize = 0;
        while i < self.routes.len()
            invariant
                self.wf(),
                i <= self.routes@.len(),
                first_match(self.table(), method, path@) == first_match_from(
                    self.table(),
                    method,
                    path@,
                    i as int,
                ),
            decreases self.routes@.len() - i,
        {
            assert(self.table()[i as int] == self.routes@[i as int].key());
            assert(self.routes@[i as int].pattern.wf());
            match self.routes[i].matches(method, path) {
                Some(m) => {
                    return Some((i, m));
                },
                None => {},
            }
            i += 1;
        }
        None
    }

    /// Selects the route for a request and merges its parameters into
    /// `params` (extracted values replace existing ones of the same name).
    /// Returns the index of the route, or a not-found error naming the path
    /// when no route takes the request; `params` is then left as it was.
    pub fn resolve(&self, method: Method, path: &str, params: &mut TextMap) -> (r: Result<usize, AppError>)
        requires
            self.wf(),
            old(params).wf(),
        ensures
            final(params).wf(),
            match first_match(self.table(), method, path@) {
                Some(i) => r == Ok::<usize, AppError>(i as usize) && final(params)@ == old(
                    params,
                )@.union_prefer_right(route_params(self.table()[i], path@)),
                None => r is Err && r->Err_0 is NotFound && r->Err_0.message_spec()
                    == not_found_message(path@) && final(params)@ == old(params)@,
            },
    {
        match self.find_route(method, path) {
            Some((i, m)) => {
                params.extend_from(&m.params);
                Ok(i)
            },
            None => Err(AppError::NotFound(concat("Route not found: ", path))),
        }
    }

    /// The order in which the middleware wrap the handler: the last registered
    /// wraps it first, so the first registered ends up outermost.
    pub fn wrap_order(&self) -> (r: Vec<usize>)
        ensures
            r@ == crate::chain::wrap_order_spec(self.layers().len()),
    {
        crate::chain::wrap_order(self.middleware.len())
    }
}

/// With no route registered, every request ends in the not-found outcome.
pub proof fn empty_table_matches_nothing(table: Seq<RouteKey>, method: Method, path: Seq<char>)
    requires
        table.len() == 0,
    ensures
        first_match(table, method, path) is None,
{
}

/// Selection depends on the table and the request alone: the same request
/// against the same table selects the same route with the same parameters,
/// however often it is made.
pub proof fn selection_is_repeatable(
    table1: Seq<RouteKey>,
    table2: Seq<RouteKey>,
    method: Method,
    path: Seq<char>,
)
    requires
        table1 == table2,
    ensures
        first_match(table1, method, path) == first_match(table2, method, path),
        first_match(table1, method, path) is Some ==> route_params(
            table1[first_match(table1, method, path)->0],
            path,
        ) == route_params(table2[first_match(table2, method, path)->0], path),
{
}

/// First match wins: a route is selected only if it takes the request and no
/// route registered before it does, however specific the later ones are.
pub proof fn earlier_route_shadows_later(table: Seq<RouteKey>, method: Method, path: Seq<char>, i: int)
    requires
        0 <= i < table.len(),
        route_accepts(table[i], method, path),
    ensures
        first_match(table, method, path) is Some,
        first_match(table, method, path)->0 <= i,
        forall|j: int|
            0 <= j < first_match(table, method, path)->0 ==> !route_accepts(
                #[trigger] table[j],
                method,
                path,
            ),
{
    lemma_first_match_from(table, method, path, 0);
}

} // verus!
