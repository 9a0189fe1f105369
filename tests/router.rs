use greeter::router::{MatchResult, RouteTable};

fn table(routes: &[(&str, &str, usize)]) -> RouteTable {
    let mut t = RouteTable::new();
    for (m, p, h) in routes {
        t.register(m, p, *h).unwrap();
    }
    t
}

fn params(r: &MatchResult) -> Vec<(String, String)> {
    match r {
        MatchResult::Matched { params, .. } => params.clone(),
        MatchResult::NoMatch => panic!("expected a match"),
    }
}

fn handler(r: &MatchResult) -> Option<usize> {
    match r {
        MatchResult::Matched { handler, .. } => Some(*handler),
        MatchResult::NoMatch => None,
    }
}

#[test]
fn register_appends_in_order() {
    let t = table(&[("GET", "/", 0), ("POST", "/{id}", 1)]);
    assert_eq!(t.len(), 2);
    let e = t.entries();
    assert_eq!(e[0].method, "GET");
    assert_eq!(e[1].method, "POST");
    assert_eq!(e[1].handler, 1);
}

#[test]
fn register_rejects_invalid_template_and_keeps_table() {
    let mut t = table(&[("GET", "/", 0)]);
    assert!(t.register("GET", "/{a}/{a}", 1).is_err());
    assert_eq!(t.len(), 1);
}

#[test]
fn earlier_param_route_beats_later_literal() {
    let t = table(&[("GET", "/{name}", 1), ("GET", "/admin", 2)]);
    let r = t.match_route("GET", "/admin");
    assert_eq!(handler(&r), Some(1));
    assert_eq!(params(&r), vec![("name".to_string(), "admin".to_string())]);
}

#[test]
fn earlier_literal_route_beats_later_param() {
    let t = table(&[("GET", "/admin", 2), ("GET", "/{name}", 1)]);
    let r = t.match_route("GET", "/admin");
    assert_eq!(handler(&r), Some(2));
    assert!(params(&r).is_empty());
    assert_eq!(handler(&t.match_route("GET", "/bob")), Some(1));
}

#[test]
fn segment_count_must_agree() {
    let t = table(&[("GET", "/{a}", 1), ("GET", "/x/{b}/z", 2)]);
    assert_eq!(handler(&t.match_route("GET", "/x/y")), None);
    assert_eq!(handler(&t.match_route("GET", "/")), None);
    assert_eq!(handler(&t.match_route("GET", "/x/y/z")), Some(2));
}

#[test]
fn param_binds_exact_segment() {
    let t = table(&[("GET", "/users/{id}/posts/{post}", 3)]);
    let r = t.match_route("GET", "/users/42/posts/Hello%20x");
    assert_eq!(
        params(&r),
        vec![
            ("id".to_string(), "42".to_string()),
            ("post".to_string(), "Hello%20x".to_string()),
        ]
    );
}

#[test]
fn empty_segment_never_matches_param() {
    let t = table(&[("GET", "/{a}/{b}", 1)]);
    assert_eq!(handler(&t.match_route("GET", "/x/")), None);
    assert_eq!(handler(&t.match_route("GET", "//y")), None);
}

#[test]
fn literal_match_is_case_sensitive() {
    let t = table(&[("GET", "/Admin", 1)]);
    assert_eq!(handler(&t.match_route("GET", "/admin")), None);
    assert_eq!(handler(&t.match_route("GET", "/Admin")), Some(1));
}

#[test]
fn method_must_agree() {
    let t = table(&[("POST", "/{a}", 1), ("GET", "/{b}", 2)]);
    let r = t.match_route("GET", "/q");
    assert_eq!(handler(&r), Some(2));
    assert_eq!(params(&r), vec![("b".to_string(), "q".to_string())]);
    assert_eq!(handler(&t.match_route("PUT", "/q")), None);
}

#[test]
fn duplicate_routes_first_wins() {
    let t = table(&[("GET", "/x", 1), ("GET", "/x", 2)]);
    assert_eq!(handler(&t.match_route("GET", "/x")), Some(1));
}

#[test]
fn empty_table_never_matches() {
    let t = RouteTable::new();
    assert_eq!(handler(&t.match_route("GET", "/")), None);
}
