//! The dispatcher: runs the matcher, hands the request context to the bound
//! handler, and turns the handler's outcome (or a miss) into a response.
use vstd::prelude::*;

use crate::pattern::{
    has_brace, lemma_split_without_slash, parse_spec, path_segments, segment_of, SegmentModel,
};
use crate::router::{
    lemma_first_match_wins, lookup, match_spec, pair_views, Bindings, MatchModel, MatchResult,
    RouteModel, RouteTable,
};

verus! {

/// The standard success status.
pub const STATUS_OK: u16 = 200;

/// The standard not-found status.
pub const STATUS_NOT_FOUND: u16 = 404;

/// The standard server-error status.
pub const STATUS_INTERNAL_ERROR: u16 = 500;

/// A response to one request: a status code and a body.
#[derive(Clone, Debug)]
pub struct Response {
    pub status: u16,
    pub body: String,
}

/// Mathematical model of a [`Response`].
pub ghost struct ResponseModel {
    pub status: u16,
    pub body: Seq<char>,
}

impl View for Response {
    type V = ResponseModel;

    open spec fn view(&self) -> ResponseModel {
        ResponseModel { status: self.status, body: self.body@ }
    }
}

pub open spec fn not_found_model() -> ResponseModel {
    ResponseModel { status: STATUS_NOT_FOUND, body: "Not Found"@ }
}

pub open spec fn internal_error_model() -> ResponseModel {
    ResponseModel { status: STATUS_INTERNAL_ERROR, body: "Internal Server Error"@ }
}

impl Response {
    /// A success response with the given body.
    pub fn ok(body: String) -> (r: Response)
        ensures
            r@ == (ResponseModel { status: STATUS_OK, body: body@ }),
    {
        Response { status: STATUS_OK, body }
    }

    /// The response to a request that no route accepts.
    pub fn not_found() -> (r: Response)
        ensures
            r@ == not_found_model(),
    {
        Response { status: STATUS_NOT_FOUND, body: String::from_str("Not Found") }
    }

    /// The response to a request whose handler failed.
    pub fn internal_error() -> (r: Response)
        ensures
            r@ == internal_error_model(),
    {
        Response { status: STATUS_INTERNAL_ERROR, body: String::from_str("Internal Server Error") }
    }
}

/// A failure raised by a handler.
#[derive(Clone, Debug)]
pub struct HandlerFailure {
    pub message: String,
}

/// What a handler sees of one request.
#[derive(Clone, Debug)]
pub struct RequestContext {
    pub method: String,
    pub path: String,
    pub params: Vec<(String, String)>,
    pub body: Vec<u8>,
}

/// Mathematical model of a [`RequestContext`].
pub ghost struct ContextModel {
    pub method: Seq<char>,
    pub path: Seq<char>,
    pub params: Bindings,
    pub body: Seq<u8>,
}

impl View for RequestContext {
    type V = ContextModel;

    open spec fn view(&self) -> ContextModel {
        ContextModel {
            method: self.method@,
            path: self.path@,
            params: pair_views(self.params@),
            body: self.body@,
        }
    }
}

impl RequestContext {
    /// The value bound to the parameter `name`, if the matched pattern has one.
    pub fn param(&self, name: &str) -> (r: Option<String>)
        ensures
            match r {
                Some(v) => lookup(self@.params, name@) == Some(v@),
                None => lookup(self@.params, name@) is None,
            },
    {
        let key = String::from_str(name);
        let mut i: usize = self.params.len();
        assert(self@.params.take(i as int) =~= self@.params);
        while i > 0
            invariant
                i <= self.params.len(),
                key@ == name@,
                lookup(self@.params, name@) == lookup(self@.params.take(i as int), name@),
            decreases i,
        {
            let ghost ps = self@.params.take(i as int);
            assert(ps.last() == (self.params@[i - 1].0@, self.params@[i - 1].1@));
            assert(ps.drop_last() =~= self@.params.take(i - 1));
            if self.params[i - 1].0 == key {
                return Some(self.params[i - 1].1.clone());
            }
            i = i - 1;
        }
        assert(self@.params.take(0).len() == 0);
        None
    }
}

/// The response for a handler's outcome: its own response on success, an
/// internal-error response on failure.
pub open spec fn response_of(out: Result<Response, HandlerFailure>) -> ResponseModel {
    match out {
        Ok(r) => r@,
        Err(_) => internal_error_model(),
    }
}

/// Converts a handler's outcome into a response, containing any failure.
pub fn respond(out: Result<Response, HandlerFailure>) -> (r: Response)
    ensures
        r@ == response_of(out),
{
    match out {
        Ok(r) => r,
        Err(_) => Response::internal_error(),
    }
}

/// `r` is the response for some outcome of `handler` called with the
/// handler reference `id` and a request context whose model is `cm`.
pub open spec fn handled_as<H: Fn(usize, RequestContext) -> Result<Response, HandlerFailure>>(
    handler: H,
    id: usize,
    cm: ContextModel,
    r: ResponseModel,
) -> bool {
    exists|ctx: RequestContext, out: Result<Response, HandlerFailure>|
        ctx@ == cm && #[trigger] call_ensures(handler, (id, ctx), out) && r == response_of(out)
}

/// What dispatching a request gives: a not-found response when no route
/// matches, and otherwise the response for some outcome of the matched
/// handler on the request context built from the request and the bindings.
pub open spec fn dispatch_post<H: Fn(usize, RequestContext) -> Result<Response, HandlerFailure>>(
    routes: Seq<RouteModel>,
    method: Seq<char>,
    path: Seq<char>,
    body: Seq<u8>,
    handler: H,
    r: ResponseModel,
) -> bool {
    match match_spec(routes, method, path) {
        MatchModel::NoMatch => r == not_found_model(),
        MatchModel::Matched { handler: id, params } => handled_as(
            handler,
            id,
            ContextModel { method, path, params, body },
            r,
        ),
    }
}

/// Serves one request: matches it against `table`, and on a match calls
/// `handler` with the handler reference of the route and the request
/// context. A miss gives a not-found response without calling `handler`; a
/// failure of `handler` gives an internal-error response.
pub fn dispatch<H: Fn(usize, RequestContext) -> Result<Response, HandlerFailure>>(
    table: &RouteTable,
    method: &str,
    path: &str,
    body: Vec<u8>,
    handler: &H,
) -> (r: Response)
    requires
        forall|id: usize, ctx: RequestContext| call_requires(*handler, (id, ctx)),
    ensures
        dispatch_post(table@, method@, path@, body@, *handler, r@),
{
    let m = table.match_route(method, path);
    let ghost mm = m@;
    match m {
        MatchResult::NoMatch => {
            Response::not_found()
        },
        MatchResult::Matched { handler: id, params } => {
            let ctx = RequestContext {
                method: String::from_str(method),
                path: String::from_str(path),
                params,
                body,
            };
            let ghost c = ctx;
            let out = handler(id, ctx);
            let r = respond(out);
            let ghost cm = ContextModel {
                method: method@,
                path: path@,
                params: mm->params,
                body: body@,
            };
            assert(call_ensures(*handler, (id, c), out) && c@ == cm);
            assert(handled_as(*handler, id, cm, r@));
            r
        },
    }
}

/// Repeating a request gives the same response, as long as the handler's
/// response depends on the request context alone.
pub proof fn lemma_dispatch_idempotent<H: Fn(usize, RequestContext) -> Result<Response, HandlerFailure>>(
    routes: Seq<RouteModel>,
    method: Seq<char>,
    path: Seq<char>,
    body: Seq<u8>,
    handler: H,
    r1: ResponseModel,
    r2: ResponseModel,
)
    requires
        forall|
            id: usize,
            c1: RequestContext,
            c2: RequestContext,
            o1: Result<Response, HandlerFailure>,
            o2: Result<Response, HandlerFailure>,
        |
            #![trigger call_ensures(handler, (id, c1), o1), call_ensures(handler, (id, c2), o2)]
            c1@ == c2@ && call_ensures(handler, (id, c1), o1) && call_ensures(handler, (id, c2), o2)
                ==> response_of(o1) == response_of(o2),
        dispatch_post(routes, method, path, body, handler, r1),
        dispatch_post(routes, method, path, body, handler, r2),
    ensures
        r1 == r2,
{
}

/// A handler failure is contained: when every outcome of the matched
/// handler is a failure, dispatching gives exactly the internal-error
/// response.
pub proof fn lemma_failure_gives_internal_error<H: Fn(usize, RequestContext) -> Result<Response, HandlerFailure>>(
    routes: Seq<RouteModel>,
    method: Seq<char>,
    path: Seq<char>,
    body: Seq<u8>,
    handler: H,
    r: ResponseModel,
)
    requires
        match_spec(routes, method, path) is Matched,
        forall|ctx: RequestContext, out: Result<Response, HandlerFailure>|
            #[trigger] call_ensures(handler, (match_spec(routes, method, path)->handler, ctx), out)
                ==> out is Err,
        dispatch_post(routes, method, path, body, handler, r),
    ensures
        r == internal_error_model(),
{
}

/// A request that no route accepts gets the not-found response, whatever
/// the handler would do; in particular, one whose segment count differs from
/// that of every pattern.
pub proof fn lemma_unmatched_gives_not_found<H: Fn(usize, RequestContext) -> Result<Response, HandlerFailure>>(
    routes: Seq<RouteModel>,
    method: Seq<char>,
    path: Seq<char>,
    body: Seq<u8>,
    handler: H,
    r: ResponseModel,
)
    requires
        forall|k: int|
            0 <= k < routes.len() ==> (#[trigger] routes[k]).pattern.len() != path_segments(
                path,
            ).len(),
        dispatch_post(routes, method, path, body, handler, r),
    ensures
        match_spec(routes, method, path) is NoMatch,
        r == not_found_model(),
{
    lemma_first_match_wins(routes, method, path_segments(path));
}

/// The greeting for an optional name: `Hello <name>!`, with `World` when
/// there is no name.
pub open spec fn greeting(name: Option<Seq<char>>) -> Seq<char> {
    let who = match name {
        Some(n) => n,
        None => "World"@,
    };
    "Hello "@ + who + "!"@
}

/// The greeting handler: answers with a greeting to the `name` parameter, or
/// to the world when the route binds none.
pub fn greet(ctx: &RequestContext) -> (r: Response)
    ensures
        r@ == (ResponseModel { status: STATUS_OK, body: greeting(lookup(ctx@.params, "name"@)) }),
{
    let who = match ctx.param("name") {
        Some(n) => n,
        None => String::from_str("World"),
    };
    let body = String::from_str("Hello ").concat(who.as_str()).concat("!");
    Response::ok(body)
}

} // verus!

verus! {

/// The handler reference under which [`greeter_routes`] binds [`greet`].
pub const GREET: usize = 0;

/// The greeting service's routes: `GET /` and `GET /{name}`, both bound to
/// [`GREET`], in that order.
pub fn greeter_routes() -> (r: RouteTable)
    ensures
        r.wf(),
        r@ == seq![
            RouteModel { method: "GET"@, pattern: Seq::<SegmentModel>::empty(), handler: GREET },
            RouteModel { method: "GET"@, pattern: seq![SegmentModel::Param("name"@)], handler: GREET },
        ],
{
    let mut t = RouteTable::new();
    proof {
        reveal_strlit("/");
        reveal_strlit("/{name}");
        reveal_strlit("{name}");
        reveal_strlit("name");
        let root = path_segments("/"@);
        assert(root.len() == 0);
        assert(parse_spec("/"@) == Some(Seq::<SegmentModel>::empty()));
        let s = "/{name}"@;
        let body = s.drop_first();
        assert(body =~= "{name}"@);
        assert(!body.contains('/'));
        lemma_split_without_slash(body);
        assert(has_brace(body)) by {
            assert(body[0] == '{');
        }
        let name = body.subrange(1, body.len() - 1);
        assert(name =~= "name"@);
        assert(!has_brace(name));
        assert(segment_of(body) == Some(SegmentModel::Param("name"@)));
        assert(parse_spec(s) == Some(seq![SegmentModel::Param("name"@)])) by {
            assert(path_segments(s) =~= seq![body]);
            assert(path_segments(s).map_values(|p: Seq<char>| segment_of(p)->0) =~= seq![
                SegmentModel::Param("name"@),
            ]);
        }
    }
    let _root = t.register("GET", "/", GREET);
    let _named = t.register("GET", "/{name}", GREET);
    assert(t@ =~= seq![
        RouteModel { method: "GET"@, pattern: Seq::<SegmentModel>::empty(), handler: GREET },
        RouteModel { method: "GET"@, pattern: seq![SegmentModel::Param("name"@)], handler: GREET },
    ]);
    t
}

} // verus!
