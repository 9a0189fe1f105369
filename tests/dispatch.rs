use std::cell::Cell;

use greeter::dispatch::{
    dispatch, greet, greeter_routes, respond, HandlerFailure, RequestContext, Response,
    STATUS_INTERNAL_ERROR, STATUS_NOT_FOUND, STATUS_OK,
};
use greeter::router::RouteTable;

fn greet_handler(_id: usize, ctx: RequestContext) -> Result<Response, HandlerFailure> {
    Ok(greet(&ctx))
}

fn ctx(params: &[(&str, &str)]) -> RequestContext {
    RequestContext {
        method: "GET".to_string(),
        path: "/".to_string(),
        params: params.iter().map(|(a, b)| (a.to_string(), b.to_string())).collect(),
        body: Vec::new(),
    }
}

#[test]
fn root_gets_default_greeting() {
    let t = greeter_routes();
    let r = dispatch(&t, "GET", "/", Vec::new(), &greet_handler);
    assert_eq!(r.status, STATUS_OK);
    assert_eq!(r.body, "Hello World!");
}

#[test]
fn name_gets_personal_greeting() {
    let t = greeter_routes();
    let r = dispatch(&t, "GET", "/Ada", Vec::new(), &greet_handler);
    assert_eq!(r.status, STATUS_OK);
    assert_eq!(r.body, "Hello Ada!");
}

#[test]
fn two_segments_are_not_found_without_a_call() {
    let calls = Cell::new(0u32);
    let spy = |_id: usize, c: RequestContext| {
        calls.set(calls.get() + 1);
        Ok(greet(&c))
    };
    let t = greeter_routes();
    let r = dispatch(&t, "GET", "/x/y", Vec::new(), &spy);
    assert_eq!(r.status, STATUS_NOT_FOUND);
    assert_eq!(calls.get(), 0);
    let r = dispatch(&t, "GET", "/x", Vec::new(), &spy);
    assert_eq!(r.status, STATUS_OK);
    assert_eq!(calls.get(), 1);
}

#[test]
fn other_method_is_not_found() {
    let t = greeter_routes();
    let r = dispatch(&t, "POST", "/Ada", Vec::new(), &greet_handler);
    assert_eq!(r.status, STATUS_NOT_FOUND);
    assert_eq!(r.body, "Not Found");
}

#[test]
fn failing_handler_is_contained() {
    let mut t = RouteTable::new();
    t.register("GET", "/boom", 1).unwrap();
    t.register("GET", "/{name}", 0).unwrap();
    let h = |id: usize, c: RequestContext| {
        if id == 1 {
            Err(HandlerFailure { message: "boom".to_string() })
        } else {
            Ok(greet(&c))
        }
    };
    let r = dispatch(&t, "GET", "/boom", Vec::new(), &h);
    assert_eq!(r.status, STATUS_INTERNAL_ERROR);
    assert_eq!(r.body, "Internal Server Error");
    let r = dispatch(&t, "GET", "/Grace", Vec::new(), &h);
    assert_eq!(r.status, STATUS_OK);
    assert_eq!(r.body, "Hello Grace!");
}

#[test]
fn repeated_requests_give_identical_responses() {
    let t = greeter_routes();
    let a = dispatch(&t, "GET", "/Ada", b"x".to_vec(), &greet_handler);
    let b = dispatch(&t, "GET", "/Ada", b"x".to_vec(), &greet_handler);
    assert_eq!((a.status, a.body.as_bytes()), (b.status, b.body.as_bytes()));
    let a = dispatch(&t, "GET", "/x/y", Vec::new(), &greet_handler);
    let b = dispatch(&t, "GET", "/x/y", Vec::new(), &greet_handler);
    assert_eq!((a.status, a.body), (b.status, b.body));
}

#[test]
fn handler_sees_request_context() {
    let mut t = RouteTable::new();
    t.register("PUT", "/items/{id}", 7).unwrap();
    let h = |id: usize, c: RequestContext| {
        assert_eq!(id, 7);
        assert_eq!(c.method, "PUT");
        assert_eq!(c.path, "/items/9");
        assert_eq!(c.body, b"payload".to_vec());
        Ok(Response::ok(c.param("id").unwrap()))
    };
    let r = dispatch(&t, "PUT", "/items/9", b"payload".to_vec(), &h);
    assert_eq!(r.status, STATUS_OK);
    assert_eq!(r.body, "9");
}

#[test]
fn param_lookup() {
    let c = ctx(&[("a", "1"), ("b", "2")]);
    assert_eq!(c.param("a"), Some("1".to_string()));
    assert_eq!(c.param("b"), Some("2".to_string()));
    assert_eq!(c.param("c"), None);
}

#[test]
fn greet_defaults_to_world() {
    assert_eq!(greet(&ctx(&[])).body, "Hello World!");
    assert_eq!(greet(&ctx(&[("other", "x")])).body, "Hello World!");
    assert_eq!(greet(&ctx(&[("name", "Bob")])).body, "Hello Bob!");
}

#[test]
fn respond_maps_outcomes() {
    let r = respond(Ok(Response::ok("hi".to_string())));
    assert_eq!((r.status, r.body.as_str()), (200, "hi"));
    let r = respond(Err(HandlerFailure { message: "x".to_string() }));
    assert_eq!((r.status, r.body.as_str()), (500, "Internal Server Error"));
    let r = Response::not_found();
    assert_eq!((r.status, r.body.as_str()), (404, "Not Found"));
}

#[test]
fn greeter_routes_layout() {
    let t = greeter_routes();
    assert_eq!(t.len(), 2);
    assert!(t.entries()[0].pattern.segments().is_empty());
    assert_eq!(t.entries()[1].pattern.segments().len(), 1);
}
