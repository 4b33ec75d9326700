//! The router: a table of (method, path) routes with two fallbacks, and the
//! dispatch of a request to the handler that answers it.

use crate::handler::{Handler, HandlerResult};
use crate::method::Method;
use crate::parse::ParsedRequest;
use crate::response::{push_text, Response, ResponseView};
use crate::response_builder::{server_error_response, ResponseBuilder};
use crate::status::Status;
use vstd::prelude::*;
use vstd::utf8::encode_utf8;

verus! {

/// Why no route was resolved.
#[derive(Debug, Clone, Copy, PartialEq, Eq, Structural)]
pub enum RouterError {
    /// No handler is registered for the method and path.
    HandlerNotFound,
}

impl RouterError {
    /// The error in words.
    pub fn message(&self) -> (text: String)
        ensures
            text@ == "Handler not found"@,
    {
        "Handler not found".to_owned()
    }
}

/// A fallback of the router: the built-in one, or one that the owner supplied.
pub enum Fallback<H> {
    BuiltIn,
    Custom(H),
}

/// One registered route.
struct Route<H> {
    method: Method,
    path: String,
    handler: H,
}

impl<H> Route<H> {
    /// The method and path that the route answers to.
    spec fn key(&self) -> (Method, Seq<char>) {
        (self.method, self.path@)
    }
}

/// The routing table with its fallbacks.
pub struct Router<H> {
    routes: Vec<Route<H>>,
    not_found_handler: Fallback<H>,
    error_handler: Fallback<H>,
}

/// The built-in answer to a request that no route matches.
pub open spec fn not_found_response() -> ResponseView {
    ResponseView {
        code: 404,
        reason: "Not Found"@,
        version: "HTTP/1.1"@,
        headers: Seq::empty(),
        body: Some(encode_utf8("Page not found"@)),
    }
}

/// The response that stands for the outcome of the error handler: its own
/// response, or the built-in 500 where it failed too.
pub open spec fn recovered(outcome: HandlerResult) -> ResponseView {
    match outcome {
        Ok(response) => response@,
        Err(_) => server_error_response(),
    }
}

/// The outcomes that a fallback may give: the built-in one gives exactly its
/// fixed response; a supplied one gives what it admits.
pub open spec fn fallback_admits<H: Handler>(
    fallback: Fallback<H>,
    built_in: ResponseView,
    request: &ParsedRequest,
    outcome: HandlerResult,
) -> bool {
    match fallback {
        Fallback::BuiltIn => outcome matches Ok(response) && response@ == built_in,
        Fallback::Custom(handler) => handler.admits(request, outcome),
    }
}

/// The built-in handler for requests that no route matches: 404 with the
/// body `Page not found`.
pub fn default_not_found_handler(_request: &ParsedRequest) -> (outcome: HandlerResult)
    ensures
        outcome matches Ok(response) && response@ == not_found_response(),
{
    let mut res = Response::new(Status::not_found());
    let mut body: Vec<u8> = Vec::new();
    push_text(&mut body, "Page not found");
    assert(body@ =~= encode_utf8("Page not found"@));
    res.set_body(body);
    Ok(res)
}

/// The built-in handler for failures of a matched handler: a plain 500.
pub fn default_error_handler(_request: &ParsedRequest) -> (outcome: HandlerResult)
    ensures
        outcome matches Ok(response) && response@ == server_error_response(),
{
    Ok(ResponseBuilder::internal_server_error().build())
}

/// Turns the outcome of the error handler into the response to send.
pub fn recover(outcome: HandlerResult) -> (response: Response)
    ensures
        response@ == recovered(outcome),
{
    match outcome {
        Ok(response) => response,
        Err(_) => ResponseBuilder::internal_server_error().build(),
    }
}

/// The table that a list of routes stands for.
spec fn table_of<H>(routes: Seq<Route<H>>) -> Map<(Method, Seq<char>), H> {
    Map::new(
        |k: (Method, Seq<char>)|
            exists|i: int| 0 <= i < routes.len() && #[trigger] routes[i].key() == k,
        |k: (Method, Seq<char>)|
            routes[choose|i: int| 0 <= i < routes.len() && #[trigger] routes[i].key() == k].handler,
    )
}

/// No two routes of the list answer to the same method and path.
spec fn keys_distinct<H>(routes: Seq<Route<H>>) -> bool {
    forall|i: int, j: int|
        0 <= i < j < routes.len() ==> #[trigger] routes[i].key() != #[trigger] routes[j].key()
}

/// In a list without repeated keys, the route at `i` is the one that the
/// table gives for its key.
proof fn lemma_route_at<H>(routes: Seq<Route<H>>, i: int)
    requires
        keys_distinct(routes),
        0 <= i < routes.len(),
    ensures
        table_of(routes).contains_key(routes[i].key()),
        table_of(routes)[routes[i].key()] == routes[i].handler,
{
    let k = routes[i].key();
    let c = choose|c: int| 0 <= c < routes.len() && #[trigger] routes[c].key() == k;
    if c < i {
        assert(routes[c].key() != routes[i].key());
    }
    if i < c {
        assert(routes[i].key() != routes[c].key());
    }
}

/// A key that no route has is not in the table.
proof fn lemma_route_absent<H>(routes: Seq<Route<H>>, key: (Method, Seq<char>))
    requires
        forall|j: int| 0 <= j < routes.len() ==> #[trigger] routes[j].key() != key,
    ensures
        !table_of(routes).contains_key(key),
{
}

/// Replacing the route at `i` by one with the same key gives that key the
/// new handler and leaves the rest of the table as it was.
proof fn lemma_table_update<H>(routes: Seq<Route<H>>, i: int, route: Route<H>)
    requires
        keys_distinct(routes),
        0 <= i < routes.len(),
        routes[i].key() == route.key(),
    ensures
        keys_distinct(routes.update(i, route)),
        table_of(routes.update(i, route)) == table_of(routes).insert(route.key(), route.handler),
{
    let after = routes.update(i, route);
    let key = route.key();
    assert forall|x: int| 0 <= x < routes.len() implies #[trigger] after[x].key()
        == routes[x].key() by {}
    assert(keys_distinct(after)) by {
        assert forall|a: int, b: int| 0 <= a < b < after.len() implies #[trigger] after[a].key()
            != #[trigger] after[b].key() by {
            assert(routes[a].key() != routes[b].key());
        }
    }
    let t0 = table_of(routes).insert(key, route.handler);
    let t1 = table_of(after);
    assert forall|k: (Method, Seq<char>)| t1.contains_key(k) implies t0.contains_key(k) && t1[k]
        == t0[k] by {
        let x = choose|x: int| 0 <= x < after.len() && #[trigger] after[x].key() == k;
        lemma_route_at(after, x);
        assert(routes[x].key() == k);
        lemma_route_at(routes, x);
        if x != i {
            if x < i {
                assert(routes[x].key() != routes[i].key());
            } else {
                assert(routes[i].key() != routes[x].key());
            }
        }
    }
    assert forall|k: (Method, Seq<char>)| t0.contains_key(k) implies t1.contains_key(k) by {
        if k == key {
            assert(after[i].key() == k);
        } else {
            let x = choose|x: int| 0 <= x < routes.len() && #[trigger] routes[x].key() == k;
            assert(after[x].key() == k);
        }
    }
    assert(t1 =~= t0);
}

/// Adding a route with a new key gives that key the new handler and leaves
/// the rest of the table as it was.
proof fn lemma_table_push<H>(routes: Seq<Route<H>>, route: Route<H>)
    requires
        keys_distinct(routes),
        forall|j: int| 0 <= j < routes.len() ==> #[trigger] routes[j].key() != route.key(),
    ensures
        keys_distinct(routes.push(route)),
        table_of(routes.push(route)) == table_of(routes).insert(route.key(), route.handler),
{
    let after = routes.push(route);
    let key = route.key();
    let n = routes.len() as int;
    assert forall|x: int| 0 <= x < n implies #[trigger] after[x].key() == routes[x].key() by {}
    assert(after[n].key() == key);
    assert(keys_distinct(after)) by {
        assert forall|a: int, b: int| 0 <= a < b < after.len() implies #[trigger] after[a].key()
            != #[trigger] after[b].key() by {
            if b < n {
                assert(routes[a].key() != routes[b].key());
            } else {
                assert(routes[a].key() != key);
            }
        }
    }
    let t0 = table_of(routes).insert(key, route.handler);
    let t1 = table_of(after);
    assert forall|k: (Method, Seq<char>)| t1.contains_key(k) implies t0.contains_key(k) && t1[k]
        == t0[k] by {
        let x = choose|x: int| 0 <= x < after.len() && #[trigger] after[x].key() == k;
        lemma_route_at(after, x);
        if x < n {
            assert(routes[x].key() == k);
            lemma_route_at(routes, x);
        }
    }
    assert forall|k: (Method, Seq<char>)| t0.contains_key(k) implies t1.contains_key(k) by {
        if k == key {
            assert(after[n].key() == k);
        } else {
            let x = choose|x: int| 0 <= x < routes.len() && #[trigger] routes[x].key() == k;
            assert(after[x].key() == k);
        }
    }
    assert(t1 =~= t0);
}

impl<H> View for Router<H> {
    type V = Map<(Method, Seq<char>), H>;

    /// The table: which handler answers which method and path.
    closed spec fn view(&self) -> Map<(Method, Seq<char>), H> {
        table_of(self.routes@)
    }
}

impl<H> Router<H> {
    #[verifier::type_invariant]
    spec fn well_formed(self) -> bool {
        keys_distinct(self.routes@)
    }

    /// The fallback for requests that no route matches.
    pub closed spec fn not_found(&self) -> Fallback<H> {
        self.not_found_handler
    }

    /// The fallback for failures of a matched handler.
    pub closed spec fn on_error(&self) -> Fallback<H> {
        self.error_handler
    }

    /// A router with no route and the built-in fallbacks.
    pub fn new() -> (router: Router<H>)
        ensures
            router@ == Map::<(Method, Seq<char>), H>::empty(),
            router.not_found() == Fallback::<H>::BuiltIn,
            router.on_error() == Fallback::<H>::BuiltIn,
    {
        let router = Router {
            routes: Vec::new(),
            not_found_handler: Fallback::BuiltIn,
            error_handler: Fallback::BuiltIn,
        };
        assert(router@ =~= Map::<(Method, Seq<char>), H>::empty());
        router
    }

    /// The router with `handler` as the fallback for unmatched requests.
    pub fn with_not_found_handler(self, handler: H) -> (router: Router<H>)
        ensures
            router@ == self@,
            router.not_found() == Fallback::Custom(handler),
            router.on_error() == self.on_error(),
    {
        proof {
            use_type_invariant(&self);
        }
        let router = Router {
            routes: self.routes,
            not_found_handler: Fallback::Custom(handler),
            error_handler: self.error_handler,
        };
        assert(router@ =~= self@);
        router
    }

    /// The router with `handler` as the fallback for failed handlers.
    pub fn with_error_handler(self, handler: H) -> (router: Router<H>)
        ensures
            router@ == self@,
            router.not_found() == self.not_found(),
            router.on_error() == Fallback::Custom(handler),
    {
        proof {
            use_type_invariant(&self);
        }
        let router = Router {
            routes: self.routes,
            not_found_handler: self.not_found_handler,
            error_handler: Fallback::Custom(handler),
        };
        assert(router@ =~= self@);
        router
    }

    /// The fallback for requests that no route matches.
    pub fn not_found_handler(&self) -> (fallback: &Fallback<H>)
        ensures
            *fallback == self.not_found(),
    {
        &self.not_found_handler
    }

    /// The fallback for failures of a matched handler.
    pub fn error_handler(&self) -> (fallback: &Fallback<H>)
        ensures
            *fallback == self.on_error(),
    {
        &self.error_handler
    }

    /// The index of the route for `method` and `path`.
    fn position(&self, method: &Method, path: &String) -> (at: Option<usize>)
        ensures
            match at {
                Some(i) => i < self.routes@.len() && self.routes@[i as int].key() == (
                    *method,
                    path@,
                ),
                None => forall|j: int|
                    0 <= j < self.routes@.len() ==> #[trigger] self.routes@[j].key() != (
                        *method,
                        path@,
                    ),
            },
    {
        let mut i: usize = 0;
        while i < self.routes.len()
            invariant
                i <= self.routes@.len(),
                forall|j: int|
                    0 <= j < i ==> #[trigger] self.routes@[j].key() != (*method, path@),
            decreases self.routes@.len() - i,
        {
            if self.routes[i].method == *method && self.routes[i].path == *path {
                return Some(i);
            }
            i += 1;
        }
        None
    }

    /// Registers `handler` for the exact pair of `method` and `path`. An
    /// earlier registration for the same pair is replaced.
    pub fn add(&mut self, method: &Method, path: &str, handler: H)
        ensures
            final(self)@ == old(self)@.insert((*method, path@), handler),
            final(self).not_found() == old(self).not_found(),
            final(self).on_error() == old(self).on_error(),
    {
        proof {
            use_type_invariant(&*self);
        }
        let owned = path.to_owned();
        let ghost before = self.routes@;
        let route = Route { method: *method, path: owned, handler };
        let at = self.position(method, &route.path);
        let mut routes: Vec<Route<H>> = Vec::new();
        std::mem::swap(&mut self.routes, &mut routes);
        match at {
            Some(i) => {
                proof {
                    lemma_table_update(before, i as int, route);
                }
                routes.set(i, route);
            },
            None => {
                proof {
                    lemma_table_push(before, route);
                }
                routes.push(route);
            },
        }
        self.routes = routes;
    }

    /// The handler registered for the exact pair of `method` and `path`.
    pub fn resolve_handler(&self, method: &Method, path: &str) -> (r: Result<&H, RouterError>)
        ensures
            match r {
                Ok(handler) => self@.contains_key((*method, path@)) && *handler == self@[(
                    *method,
                    path@,
                )],
                Err(e) => !self@.contains_key((*method, path@)) && e
                    == RouterError::HandlerNotFound,
            },
    {
        proof {
            use_type_invariant(self);
        }
        let owned = path.to_owned();
        match self.position(method, &owned) {
            Some(i) => {
                proof {
                    lemma_route_at(self.routes@, i as int);
                }
                Ok(&self.routes[i].handler)
            },
            None => {
                proof {
                    lemma_route_absent(self.routes@, (*method, path@));
                }
                Err(RouterError::HandlerNotFound)
            },
        }
    }
}

impl<H> Router<H> {
    /// Whom to ask first: the handler of the route that matches the request,
    /// or else the not-found fallback.
    pub fn first_handler(&self, request: &ParsedRequest) -> (r: Result<&H, &Fallback<H>>)
        ensures
            match r {
                Ok(handler) => self@.contains_key((request.method, request.path@)) && *handler
                    == self@[(request.method, request.path@)],
                Err(fallback) => !self@.contains_key((request.method, request.path@))
                    && *fallback == self.not_found(),
            },
    {
        match self.resolve_handler(&request.method, request.path.as_str()) {
            Ok(handler) => Ok(handler),
            Err(_) => Err(&self.not_found_handler),
        }
    }

    /// What follows the first outcome: a response is the answer; after a
    /// failure the error fallback is to be asked.
    pub fn after_first(&self, first: HandlerResult) -> (r: Result<Response, &Fallback<H>>)
        ensures
            match first {
                Ok(response) => r == Ok::<Response, &Fallback<H>>(response),
                Err(_) => r == Err::<Response, &Fallback<H>>(&self.on_error()),
            },
    {
        match first {
            Ok(response) => Ok(response),
            Err(_) => Err(&self.error_handler),
        }
    }
}

/// Asks the not-found fallback: the built-in handler, or the one that was
/// supplied.
pub fn call_not_found<H: Handler>(fallback: &Fallback<H>, request: &ParsedRequest) -> (outcome:
    HandlerResult)
    ensures
        fallback_admits(*fallback, not_found_response(), request, outcome),
{
    match fallback {
        Fallback::BuiltIn => default_not_found_handler(request),
        Fallback::Custom(handler) => handler.call(request),
    }
}

/// Asks the error fallback: the built-in handler, or the one that was
/// supplied.
pub fn call_on_error<H: Handler>(fallback: &Fallback<H>, request: &ParsedRequest) -> (outcome:
    HandlerResult)
    ensures
        fallback_admits(*fallback, server_error_response(), request, outcome),
{
    match fallback {
        Fallback::BuiltIn => default_error_handler(request),
        Fallback::Custom(handler) => handler.call(request),
    }
}

impl<H: Handler> Router<H> {
    /// The outcomes that the first handler asked may give: the handler of
    /// the route that matches the request, or else the not-found fallback.
    pub open spec fn first_admits(&self, request: &ParsedRequest, outcome: HandlerResult) -> bool {
        let key = (request.method, request.path@);
        if self@.contains_key(key) {
            self@[key].admits(request, outcome)
        } else {
            fallback_admits(self.not_found(), not_found_response(), request, outcome)
        }
    }

    /// The outcomes that the error fallback may give.
    pub open spec fn second_admits(&self, request: &ParsedRequest, outcome: HandlerResult) -> bool {
        fallback_admits(self.on_error(), server_error_response(), request, outcome)
    }

    /// `response` is an answer of this router to `request`: the response of
    /// the first handler asked, or, where that handler failed, what the error
    /// fallback made of the same request.
    pub open spec fn answers(&self, request: &ParsedRequest, response: ResponseView) -> bool {
        exists|first: HandlerResult| #[trigger]
            self.first_admits(request, first) && match first {
                Ok(r) => response == r@,
                Err(_) => exists|second: HandlerResult| #[trigger]
                    self.second_admits(request, second) && response == recovered(second),
            }
    }

    /// Answers a request. The handler registered for the request's method
    /// and path is asked; where there is none, the not-found fallback is.
    /// Where the handler asked fails, the error fallback is asked with the
    /// same request. No failure leaves this function.
    pub fn handle_route(&self, request: &ParsedRequest) -> (response: Response)
        ensures
            self.answers(request, response@),
    {
        let first = match self.first_handler(request) {
            Ok(handler) => handler.call(request),
            Err(fallback) => call_not_found(fallback, request),
        };
        assert(self.first_admits(request, first));
        match self.after_first(first) {
            Ok(response) => response,
            Err(fallback) => {
                let second = call_on_error(fallback, request);
                assert(self.second_admits(request, second));
                recover(second)
            },
        }
    }
}

/// A router without routes and with the built-in fallbacks answers every
/// request with the built-in 404 response.
pub proof fn lemma_empty_router_not_found<H: Handler>(
    router: Router<H>,
    request: &ParsedRequest,
    response: ResponseView,
)
    requires
        router@ == Map::<(Method, Seq<char>), H>::empty(),
        router.not_found() == Fallback::<H>::BuiltIn,
        router.answers(request, response),
    ensures
        response == not_found_response(),
{
}

/// Where the handler of the matching route always answers with one fixed
/// response, that response is the router's answer.
pub proof fn lemma_matching_handler_answers<H: Handler>(
    router: Router<H>,
    request: &ParsedRequest,
    fixed: ResponseView,
    response: ResponseView,
)
    requires
        router@.contains_key((request.method, request.path@)),
        forall|outcome: HandlerResult| #[trigger]
            router@[(request.method, request.path@)].admits(request, outcome) ==> (
            outcome matches Ok(r) && r@ == fixed),
        router.answers(request, response),
    ensures
        response == fixed,
{
}

/// Where the handler of the matching route admits no success, every answer
/// of the router comes from the error fallback, and with the built-in error
/// fallback it is the plain 500 response.
pub proof fn lemma_failing_handler_recovered<H: Handler>(
    router: Router<H>,
    request: &ParsedRequest,
    response: ResponseView,
)
    requires
        router@.contains_key((request.method, request.path@)),
        forall|outcome: HandlerResult| #[trigger]
            router@[(request.method, request.path@)].admits(request, outcome)
                ==> outcome.is_err(),
        router.answers(request, response),
    ensures
        exists|second: HandlerResult| #[trigger]
            router.second_admits(request, second) && response == recovered(second),
        router.on_error() == Fallback::<H>::BuiltIn ==> response == server_error_response(),
{
    let first = choose|first: HandlerResult| #[trigger]
        router.first_admits(request, first) && match first {
            Ok(r) => response == r@,
            Err(_) => exists|second: HandlerResult| #[trigger]
                router.second_admits(request, second) && response == recovered(second),
        };
    assert(router@[(request.method, request.path@)].admits(request, first));
}

/// Of two registrations for the same method and path only the second stays:
/// the table is as if the first had never been made.
pub proof fn lemma_last_registration_wins<H>(
    table: Map<(Method, Seq<char>), H>,
    method: Method,
    path: Seq<char>,
    first: H,
    second: H,
)
    ensures
        table.insert((method, path), first).insert((method, path), second) == table.insert(
            (method, path),
            second,
        ),
        table.insert((method, path), first).insert((method, path), second)[(method, path)]
            == second,
{
    assert(table.insert((method, path), first).insert((method, path), second) =~= table.insert(
        (method, path),
        second,
    ));
}

} // verus!
