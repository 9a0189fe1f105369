//! The route table and the matcher: registration-ordered routes, and the
//! selection of the first route whose method and pattern fit a request.
use vstd::prelude::*;

use crate::pattern::{
    parse_spec, path_segments, pattern_wf, split_path, views, lemma_parse_wf, PathPattern,
    InvalidPattern, Segment, SegmentModel,
};

verus! {

/// Parameter bindings, in pattern order: pairs of name and path segment.
pub type Bindings = Seq<(Seq<char>, Seq<char>)>;

pub open spec fn pair_views(v: Seq<(String, String)>) -> Bindings {
    v.map_values(|p: (String, String)| (p.0@, p.1@))
}

/// Mathematical model of a [`RouteEntry`].
pub ghost struct RouteModel {
    pub method: Seq<char>,
    pub pattern: Seq<SegmentModel>,
    pub handler: usize,
}

/// One registered route: an HTTP method, a parsed pattern and the reference
/// of the handler bound to them.
#[derive(Clone, Debug)]
pub struct RouteEntry {
    pub method: String,
    pub pattern: PathPattern,
    pub handler: usize,
}

impl View for RouteEntry {
    type V = RouteModel;

    open spec fn view(&self) -> RouteModel {
        RouteModel { method: self.method@, pattern: self.pattern@, handler: self.handler }
    }
}

/// Whether one pattern segment accepts one path segment: a literal only its
/// own text (case-sensitive), a parameter any non-empty segment.
pub open spec fn segment_matches(seg: SegmentModel, p: Seq<char>) -> bool {
    match seg {
        SegmentModel::Literal(t) => t == p,
        SegmentModel::Param(_) => p.len() > 0,
    }
}

/// Whether a pattern accepts a path, given as its segments: the counts are
/// equal and each segment accepts its counterpart.
pub open spec fn pattern_matches(pat: Seq<SegmentModel>, segs: Seq<Seq<char>>) -> bool {
    &&& pat.len() == segs.len()
    &&& forall|i: int| 0 <= i < pat.len() ==> segment_matches(#[trigger] pat[i], segs[i])
}

pub open spec fn route_matches(r: RouteModel, method: Seq<char>, segs: Seq<Seq<char>>) -> bool {
    r.method == method && pattern_matches(r.pattern, segs)
}

/// The index of the first route, in registration order, that accepts the
/// request.
pub open spec fn find_route(routes: Seq<RouteModel>, method: Seq<char>, segs: Seq<Seq<char>>) -> Option<int>
    decreases routes.len(),
{
    if routes.len() == 0 {
        None
    } else {
        match find_route(routes.drop_last(), method, segs) {
            Some(k) => Some(k),
            None => if route_matches(routes.last(), method, segs) {
                Some(routes.len() - 1)
            } else {
                None
            },
        }
    }
}

/// The bindings that a pattern gives a path: for each parameter segment, in
/// order, its name and the path segment at the same position.
pub open spec fn bindings(pat: Seq<SegmentModel>, segs: Seq<Seq<char>>) -> Bindings
    decreases pat.len(),
{
    if pat.len() == 0 {
        Seq::empty()
    } else {
        let rest = bindings(pat.drop_last(), segs);
        match pat.last() {
            SegmentModel::Param(n) => rest.push((n, segs[pat.len() - 1])),
            SegmentModel::Literal(_) => rest,
        }
    }
}

/// The value bound to `name`, if any (the last binding wins; in a
/// well-formed pattern there is at most one).
pub open spec fn lookup(ps: Bindings, name: Seq<char>) -> Option<Seq<char>>
    decreases ps.len(),
{
    if ps.len() == 0 {
        None
    } else if ps.last().0 == name {
        Some(ps.last().1)
    } else {
        lookup(ps.drop_last(), name)
    }
}

/// Mathematical model of a [`MatchResult`].
pub ghost enum MatchModel {
    Matched { handler: usize, params: Bindings },
    NoMatch,
}

/// What matching `path` with `method` against `routes` gives.
pub open spec fn match_spec(routes: Seq<RouteModel>, method: Seq<char>, path: Seq<char>) -> MatchModel {
    let segs = path_segments(path);
    match find_route(routes, method, segs) {
        Some(k) => MatchModel::Matched {
            handler: routes[k].handler,
            params: bindings(routes[k].pattern, segs),
        },
        None => MatchModel::NoMatch,
    }
}

/// The outcome of matching a request against a route table.
#[derive(Clone, Debug)]
pub enum MatchResult {
    /// The handler of the first matching route, with the parameter bindings.
    Matched { handler: usize, params: Vec<(String, String)> },
    /// No route accepts the request.
    NoMatch,
}

impl View for MatchResult {
    type V = MatchModel;

    open spec fn view(&self) -> MatchModel {
        match self {
            MatchResult::Matched { handler, params } => MatchModel::Matched {
                handler: *handler,
                params: pair_views(params@),
            },
            MatchResult::NoMatch => MatchModel::NoMatch,
        }
    }
}

/// Matches path segments against a pattern, returning the bindings when the
/// pattern accepts them.
fn match_pattern(pat: &PathPattern, segs: &Vec<String>) -> (r: Option<Vec<(String, String)>>)
    ensures
        match r {
            Some(ps) => pattern_matches(pat@, views(segs@)) && pair_views(ps@) == bindings(
                pat@,
                views(segs@),
            ),
            None => !pattern_matches(pat@, views(segs@)),
        },
{
    let pv = pat.segments();
    let ghost p = pat@;
    let ghost s = views(segs@);
    if pv.len() != segs.len() {
        return None;
    }
    let mut params: Vec<(String, String)> = Vec::new();
    let mut i: usize = 0;
    assert(bindings(p.take(0), s) =~= Seq::<(Seq<char>, Seq<char>)>::empty());
    while i < pv.len()
        invariant
            pv@.map_values(|x: Segment| x@) == p,
            p == pat@,
            s == views(segs@),
            pv.len() == segs.len(),
            i <= pv.len(),
            forall|j: int| 0 <= j < i ==> segment_matches(#[trigger] p[j], s[j]),
            pair_views(params@) =~= bindings(p.take(i as int), s),
        decreases pv.len() - i,
    {
        assert(p[i as int] == pv@[i as int]@);
        assert(s[i as int] == segs@[i as int]@);
        assert(p.take(i + 1).drop_last() =~= p.take(i as int));
        assert(p.take(i + 1).last() == p[i as int]);
        match &pv[i] {
            Segment::Literal(t) => {
                if !(*t == segs[i]) {
                    assert(!segment_matches(p[i as int], s[i as int]));
                    return None;
                }
            },
            Segment::Param(n) => {
                if segs[i].as_str().unicode_len() == 0 {
                    assert(!segment_matches(p[i as int], s[i as int]));
                    return None;
                }
                params.push((n.clone(), segs[i].clone()));
            },
        }
        i = i + 1;
    }
    assert(p.take(i as int) =~= p);
    Some(params)
}

/// The routes of a server, in registration order.
pub struct RouteTable {
    entries: Vec<RouteEntry>,
}

impl View for RouteTable {
    type V = Seq<RouteModel>;

    closed spec fn view(&self) -> Seq<RouteModel> {
        self.entries@.map_values(|e: RouteEntry| e@)
    }
}

impl RouteTable {
    /// Every registered pattern is well formed.
    pub open spec fn wf(&self) -> bool {
        forall|i: int| 0 <= i < self@.len() ==> pattern_wf(#[trigger] self@[i].pattern)
    }

    /// An empty table.
    pub fn new() -> (r: RouteTable)
        ensures
            r@ == Seq::<RouteModel>::empty(),
            r.wf(),
    {
        let r = RouteTable { entries: Vec::new() };
        assert(r@ =~= Seq::<RouteModel>::empty());
        r
    }

    /// Parses `template` and appends a route for `method` to `handler`. On an
    /// invalid template nothing is added. No conflict with earlier routes is
    /// checked: an earlier route takes precedence.
    pub fn register(&mut self, method: &str, template: &str, handler: usize) -> (r: Result<(), InvalidPattern>)
        ensures
            match r {
                Ok(_) => parse_spec(template@) is Some && final(self)@ == old(self)@.push(
                    RouteModel { method: method@, pattern: parse_spec(template@)->0, handler },
                ),
                Err(_) => parse_spec(template@) is None && final(self)@ == old(self)@,
            },
            old(self).wf() ==> final(self).wf(),
    {
        match PathPattern::parse(template) {
            Ok(pattern) => {
                proof {
                    lemma_parse_wf(template@);
                }
                let entry = RouteEntry { method: String::from_str(method), pattern, handler };
                self.entries.push(entry);
                assert(self@ =~= old(self)@.push(entry@));
                Ok(())
            },
            Err(e) => Err(e),
        }
    }

    /// The number of routes.
    pub fn len(&self) -> (r: usize)
        ensures
            r == self@.len(),
    {
        self.entries.len()
    }

    /// The routes, in registration order.
    pub fn entries(&self) -> (r: &[RouteEntry])
        ensures
            r@.map_values(|e: RouteEntry| e@) == self@,
    {
        self.entries.as_slice()
    }

    /// Selects the first route, in registration order, whose method equals
    /// `method` and whose pattern accepts `path`, with its bindings.
    pub fn match_route(&self, method: &str, path: &str) -> (r: MatchResult)
        ensures
            r@ == match_spec(self@, method@, path@),
    {
        let segs = split_path(path);
        let m = String::from_str(method);
        let ghost routes = self@;
        let ghost sv = path_segments(path@);
        let mut i: usize = 0;
        while i < self.entries.len()
            invariant
                routes == self@,
                sv == views(segs@),
                sv == path_segments(path@),
                m@ == method@,
                i <= self.entries.len(),
                find_route(routes.take(i as int), method@, sv) is None,
            decreases self.entries.len() - i,
        {
            let e = &self.entries[i];
            assert(routes[i as int] == e@);
            assert(routes.take(i + 1).drop_last() =~= routes.take(i as int));
            assert(routes.take(i + 1).last() == e@);
            if e.method == m {
                match match_pattern(&e.pattern, &segs) {
                    Some(params) => {
                        assert(find_route(routes.take(i + 1), method@, sv) == Some(i as int));
                        proof {
                            lemma_find_route_prefix(routes, method@, sv, i as int + 1);
                        }
                        return MatchResult::Matched { handler: e.handler, params };
                    },
                    None => {},
                }
            }
            i = i + 1;
        }
        assert(routes.take(i as int) =~= routes);
        MatchResult::NoMatch
    }
}

/// A match found in a prefix of the table is the match of the whole table.
proof fn lemma_find_route_prefix(routes: Seq<RouteModel>, method: Seq<char>, segs: Seq<Seq<char>>, n: int)
    requires
        0 <= n <= routes.len(),
        find_route(routes.take(n), method, segs) is Some,
    ensures
        find_route(routes, method, segs) == find_route(routes.take(n), method, segs),
    decreases routes.len() - n,
{
    if n < routes.len() {
        assert(routes.take(n + 1).drop_last() =~= routes.take(n));
        lemma_find_route_prefix(routes, method, segs, n + 1);
    } else {
        assert(routes.take(n) =~= routes);
    }
}

/// Registration order decides precedence: the matcher selects route `k`
/// exactly when route `k` accepts the request and no earlier route does, and
/// it reports no match exactly when no route accepts it.
pub proof fn lemma_first_match_wins(routes: Seq<RouteModel>, method: Seq<char>, segs: Seq<Seq<char>>)
    ensures
        match find_route(routes, method, segs) {
            Some(k) => 0 <= k < routes.len() && route_matches(routes[k], method, segs) && forall|j: int|
                0 <= j < k ==> !route_matches(#[trigger] routes[j], method, segs),
            None => forall|j: int|
                0 <= j < routes.len() ==> !route_matches(#[trigger] routes[j], method, segs),
        },
    decreases routes.len(),
{
    if routes.len() > 0 {
        let init = routes.drop_last();
        lemma_first_match_wins(init, method, segs);
        match find_route(init, method, segs) {
            Some(k) => {
                assert forall|j: int| 0 <= j < k implies !route_matches(
                    #[trigger] routes[j],
                    method,
                    segs,
                ) by {
                    assert(init[j] == routes[j]);
                }
                assert(init[k] == routes[k]);
            },
            None => {
                assert forall|j: int| 0 <= j < init.len() implies !route_matches(
                    #[trigger] routes[j],
                    method,
                    segs,
                ) by {
                    assert(init[j] == routes[j]);
                }
            },
        }
    }
}

/// A route never matches a path whose segment count differs from that of
/// its pattern.
pub proof fn lemma_segment_count_must_agree(routes: Seq<RouteModel>, method: Seq<char>, path: Seq<char>, k: int)
    requires
        0 <= k < routes.len(),
        routes[k].pattern.len() != path_segments(path).len(),
    ensures
        !route_matches(routes[k], method, path_segments(path)),
        find_route(routes, method, path_segments(path)) != Some(k),
{
    lemma_first_match_wins(routes, method, path_segments(path));
}

proof fn lemma_lookup_prefix(pat: Seq<SegmentModel>, segs: Seq<Seq<char>>, j: int, n: int)
    requires
        pattern_wf(pat),
        0 <= j < n <= pat.len(),
        pat[j] is Param,
    ensures
        lookup(bindings(pat.take(n), segs), pat[j]->Param_0) == Some(segs[j]),
    decreases n,
{
    let t = pat.take(n);
    assert(t.drop_last() =~= pat.take(n - 1));
    assert(t.last() == pat[n - 1]);
    assert(t.len() == n);
    let rest = bindings(pat.take(n - 1), segs);
    if n - 1 > j {
        lemma_lookup_prefix(pat, segs, j, n - 1);
        if pat[n - 1] is Param {
            assert(pat[j]->Param_0 != pat[n - 1]->Param_0);
            let x = (pat[n - 1]->Param_0, segs[n - 1]);
            assert(bindings(t, segs) == rest.push(x));
            assert(rest.push(x).drop_last() =~= rest);
        }
    } else {
        assert(bindings(t, segs) == rest.push((pat[j]->Param_0, segs[j])));
    }
}

/// In a match, the value bound to each parameter of the selected pattern is
/// exactly the path segment at that parameter's position, and it is
/// non-empty.
pub proof fn lemma_param_binds_segment(routes: Seq<RouteModel>, method: Seq<char>, path: Seq<char>, k: int, j: int)
    requires
        forall|i: int| 0 <= i < routes.len() ==> pattern_wf(#[trigger] routes[i].pattern),
        find_route(routes, method, path_segments(path)) == Some(k),
        0 <= j < routes[k].pattern.len(),
        routes[k].pattern[j] is Param,
    ensures
        match_spec(routes, method, path) is Matched,
        lookup(match_spec(routes, method, path)->params, routes[k].pattern[j]->Param_0) == Some(
            path_segments(path)[j],
        ),
        path_segments(path)[j].len() > 0,
{
    let segs = path_segments(path);
    let pat = routes[k].pattern;
    lemma_first_match_wins(routes, method, segs);
    assert(pattern_wf(routes[k].pattern));
    lemma_lookup_prefix(pat, segs, j, pat.len() as int);
    assert(pat.take(pat.len() as int) =~= pat);
    assert(segment_matches(pat[j], segs[j]));
}

} // verus!
