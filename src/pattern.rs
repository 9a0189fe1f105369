//! Route templates: splitting paths into segments and parsing templates into
//! sequences of literal and parameter segments.
use vstd::prelude::*;

verus! {

/// One `/`-delimited component of a route template.
#[derive(Clone, Debug)]
pub enum Segment {
    /// Matches only a path segment with exactly this text.
    Literal(String),
    /// Matches any non-empty path segment and binds it under this name.
    Param(String),
}

/// Mathematical model of a [`Segment`].
pub ghost enum SegmentModel {
    Literal(Seq<char>),
    Param(Seq<char>),
}

impl View for Segment {
    type V = SegmentModel;

    open spec fn view(&self) -> SegmentModel {
        match self {
            Segment::Literal(t) => SegmentModel::Literal(t@),
            Segment::Param(n) => SegmentModel::Param(n@),
        }
    }
}

/// The error reported when a route template cannot be parsed: it has an
/// empty segment, a duplicate parameter name or malformed parameter syntax.
#[derive(Clone, Copy, Debug, PartialEq, Eq)]
pub struct InvalidPattern;

/// A parsed route template: an ordered sequence of segments whose parameter
/// names are pairwise distinct.
#[derive(Clone, Debug)]
pub struct PathPattern {
    segments: Vec<Segment>,
}

impl View for PathPattern {
    type V = Seq<SegmentModel>;

    closed spec fn view(&self) -> Seq<SegmentModel> {
        self.segments@.map_values(|s: Segment| s@)
    }
}

/// The pieces of `s` between `/` separators, in order. There is always at
/// least one piece; two adjacent separators give an empty piece.
pub open spec fn split_on_slash(s: Seq<char>) -> Seq<Seq<char>>
    decreases s.len(),
{
    if s.len() == 0 {
        seq![Seq::<char>::empty()]
    } else {
        let init = split_on_slash(s.drop_last());
        if s.last() == '/' {
            init.push(Seq::<char>::empty())
        } else {
            init.update(init.len() - 1, init.last().push(s.last()))
        }
    }
}

/// The segments of a path: one leading `/` is dropped, and the rest is split
/// on `/`. The root path `/` (and the empty path) has no segments.
pub open spec fn path_segments(p: Seq<char>) -> Seq<Seq<char>> {
    let body = if p.len() > 0 && p[0] == '/' {
        p.drop_first()
    } else {
        p
    };
    if body.len() == 0 {
        Seq::empty()
    } else {
        split_on_slash(body)
    }
}

/// Text without a separator is a single piece.
pub proof fn lemma_split_without_slash(s: Seq<char>)
    requires
        !s.contains('/'),
    ensures
        split_on_slash(s) == seq![s],
    decreases s.len(),
{
    if s.len() > 0 {
        let init = s.drop_last();
        assert(!init.contains('/')) by {
            if init.contains('/') {
                let i = choose|i: int| 0 <= i < init.len() && init[i] == '/';
                assert(s[i] == '/');
            }
        }
        lemma_split_without_slash(init);
        assert(s.last() != '/') by {
            if s.last() == '/' {
                assert(s[s.len() - 1] == '/');
            }
        }
        assert(init.push(s.last()) =~= s);
        assert(split_on_slash(s) =~= seq![s]);
    } else {
        assert(s =~= Seq::<char>::empty());
    }
}

pub open spec fn has_brace(s: Seq<char>) -> bool {
    s.contains('{') || s.contains('}')
}

/// What one template segment parses to: a literal when it holds no brace, a
/// parameter when it is `{name}` with a non-empty name free of braces, and
/// nothing (malformed or empty) otherwise.
pub open spec fn segment_of(s: Seq<char>) -> Option<SegmentModel> {
    if s.len() == 0 {
        None
    } else if !has_brace(s) {
        Some(SegmentModel::Literal(s))
    } else if s.len() >= 3 && s[0] == '{' && s.last() == '}' && !has_brace(
        s.subrange(1, s.len() - 1),
    ) {
        Some(SegmentModel::Param(s.subrange(1, s.len() - 1)))
    } else {
        None
    }
}

/// No two parameter segments share a name.
pub open spec fn params_unique(segs: Seq<SegmentModel>) -> bool {
    forall|i: int, j: int|
        0 <= i < j < segs.len() && segs[i] is Param && segs[j] is Param ==> segs[i]->Param_0
            != segs[j]->Param_0
}

/// A well-formed pattern: literals are non-empty and brace-free, parameter
/// names are non-empty, brace-free and pairwise distinct.
pub open spec fn pattern_wf(segs: Seq<SegmentModel>) -> bool {
    &&& params_unique(segs)
    &&& forall|i: int|
        0 <= i < segs.len() ==> match #[trigger] segs[i] {
            SegmentModel::Literal(t) => t.len() > 0 && !has_brace(t),
            SegmentModel::Param(n) => n.len() > 0 && !has_brace(n),
        }
}

/// The pattern that a template denotes, or `None` when the template is
/// invalid.
pub open spec fn parse_spec(t: Seq<char>) -> Option<Seq<SegmentModel>> {
    let pieces = path_segments(t);
    if forall|i: int| 0 <= i < pieces.len() ==> (#[trigger] segment_of(pieces[i])) is Some {
        let segs = pieces.map_values(|p: Seq<char>| segment_of(p)->0);
        if params_unique(segs) {
            Some(segs)
        } else {
            None
        }
    } else {
        None
    }
}

pub open spec fn views(v: Seq<String>) -> Seq<Seq<char>> {
    v.map_values(|s: String| s@)
}

/// Splits `s` on every `/`, keeping empty pieces.
fn split_on_slash_exec(s: &str) -> (r: Vec<String>)
    ensures
        views(r@) == split_on_slash(s@),
{
    let n = s.unicode_len();
    let mut pieces: Vec<String> = Vec::new();
    let mut start: usize = 0;
    let mut i: usize = 0;
    assert(s@.take(0).len() == 0);
    assert(s@.subrange(0, 0) =~= Seq::<char>::empty());
    while i < n
        invariant
            n == s@.len(),
            start <= i <= n,
            views(pieces@).push(s@.subrange(start as int, i as int)) == split_on_slash(
                s@.take(i as int),
            ),
        decreases n - i,
    {
        let c = s.get_char(i);
        let ghost prev = s@.take(i as int);
        assert(s@.take(i + 1).drop_last() =~= prev);
        assert(s@.take(i + 1).last() == c);
        if c == '/' {
            let piece = String::from_str(s.substring_char(start, i));
            pieces.push(piece);
            start = i + 1;
            assert(views(pieces@) =~= split_on_slash(prev));
            assert(s@.subrange(start as int, i + 1) =~= Seq::<char>::empty());
        } else {
            assert(s@.subrange(start as int, i + 1) =~= s@.subrange(start as int, i as int).push(
                c,
            ));
        }
        i = i + 1;
        assert(views(pieces@).push(s@.subrange(start as int, i as int)) =~= split_on_slash(
            s@.take(i as int),
        ));
    }
    let last = String::from_str(s.substring_char(start, n));
    pieces.push(last);
    assert(s@.take(n as int) =~= s@);
    assert(views(pieces@) =~= split_on_slash(s@));
    pieces
}

/// Splits a path into its segments as [`path_segments`] defines them.
pub fn split_path(path: &str) -> (r: Vec<String>)
    ensures
        views(r@) == path_segments(path@),
{
    let n = path.unicode_len();
    let body: &str = if n > 0 && path.get_char(0) == '/' {
        path.substring_char(1, n)
    } else {
        path
    };
    assert(path@.len() > 0 && path@[0] == '/' ==> body@ =~= path@.drop_first());
    if body.unicode_len() == 0 {
        let r: Vec<String> = Vec::new();
        assert(views(r@) =~= Seq::<Seq<char>>::empty());
        r
    } else {
        split_on_slash_exec(body)
    }
}

fn has_brace_exec(s: &str) -> (r: bool)
    ensures
        r == has_brace(s@),
{
    let n = s.unicode_len();
    let mut i: usize = 0;
    while i < n
        invariant
            n == s@.len(),
            i <= n,
            forall|j: int| 0 <= j < i ==> s@[j] != '{' && s@[j] != '}',
        decreases n - i,
    {
        let c = s.get_char(i);
        if c == '{' || c == '}' {
            assert(s@[i as int] == c);
            return true;
        }
        i = i + 1;
    }
    false
}

/// Parses one template segment, as [`segment_of`] describes.
fn segment_from(s: &str) -> (r: Option<Segment>)
    ensures
        match r {
            Some(seg) => segment_of(s@) == Some(seg@),
            None => segment_of(s@) is None,
        },
{
    let n = s.unicode_len();
    if n == 0 {
        return None;
    }
    if !has_brace_exec(s) {
        return Some(Segment::Literal(String::from_str(s)));
    }
    if n >= 3 && s.get_char(0) == '{' && s.get_char(n - 1) == '}' {
        let name = s.substring_char(1, n - 1);
        if !has_brace_exec(name) {
            return Some(Segment::Param(String::from_str(name)));
        }
    }
    None
}

/// A parse result is always a well-formed pattern.
pub proof fn lemma_parse_wf(t: Seq<char>)
    requires
        parse_spec(t) is Some,
    ensures
        pattern_wf(parse_spec(t)->0),
{
    let pieces = path_segments(t);
    let segs = parse_spec(t)->0;
    assert forall|i: int| 0 <= i < segs.len() implies match #[trigger] segs[i] {
        SegmentModel::Literal(x) => x.len() > 0 && !has_brace(x),
        SegmentModel::Param(x) => x.len() > 0 && !has_brace(x),
    } by {
        assert(segment_of(pieces[i]) is Some);
    }
}

impl PathPattern {
    /// Parses a route template such as `/users/{id}`. Segments are split on
    /// `/` after one leading `/`; `{name}` is a parameter, a brace-free text a
    /// literal. Fails on an empty segment, malformed braces or a repeated
    /// parameter name.
    pub fn parse(template: &str) -> (r: Result<PathPattern, InvalidPattern>)
        ensures
            match r {
                Ok(p) => parse_spec(template@) == Some(p@),
                Err(_) => parse_spec(template@) is None,
            },
    {
        let pieces = split_path(template);
        let ghost ps = path_segments(template@);
        let mut segments: Vec<Segment> = Vec::new();
        let mut k: usize = 0;
        while k < pieces.len()
            invariant
                ps == path_segments(template@),
                views(pieces@) == ps,
                k <= pieces.len(),
                forall|i: int| 0 <= i < k ==> (#[trigger] segment_of(ps[i])) is Some,
                segments@.map_values(|s: Segment| s@) =~= ps.take(k as int).map_values(
                    |p: Seq<char>| segment_of(p)->0,
                ),
                params_unique(segments@.map_values(|s: Segment| s@)),
            decreases pieces.len() - k,
        {
            assert(pieces@[k as int]@ == ps[k as int]);
            let seg = segment_from(pieces[k].as_str());
            match seg {
                None => {
                    assert(segment_of(ps[k as int]) is None);
                    return Err(InvalidPattern);
                },
                Some(seg) => {
                    let ghost before = segments@.map_values(|s: Segment| s@);
                    assert(before.len() == segments@.len());
                    assert(ps.take(k as int).len() == k);
                    if let Segment::Param(name) = &seg {
                        let mut j: usize = 0;
                        while j < segments.len()
                            invariant
                                j <= segments.len(),
                                k < ps.len(),
                                segments.len() == k,
                                ps == path_segments(template@),
                                segment_of(ps[k as int]) == Some(seg@),
                                seg@ == SegmentModel::Param(name@),
                                before == segments@.map_values(|s: Segment| s@),
                                before =~= ps.take(k as int).map_values(
                                    |p: Seq<char>| segment_of(p)->0,
                                ),
                                forall|x: int|
                                    0 <= x < j && before[x] is Param ==> before[x]->Param_0
                                        != name@,
                            decreases segments.len() - j,
                        {
                            if let Segment::Param(m) = &segments[j] {
                                if *m == *name {
                                    proof {
                                        let full = ps.map_values(|p: Seq<char>| segment_of(p)->0);
                                        if forall|i: int|
                                            0 <= i < ps.len() ==> (#[trigger] segment_of(
                                                ps[i],
                                            )) is Some {
                                            assert(j < k);
                                            assert(ps.take(k as int)[j as int] == ps[j as int]);
                                            assert(full[j as int] == before[j as int]);
                                            assert(full[k as int] == seg@);
                                            assert(!params_unique(full));
                                        }
                                    }
                                    return Err(InvalidPattern);
                                }
                            }
                            j = j + 1;
                        }
                    }
                    segments.push(seg);
                    assert(ps.take(k + 1) =~= ps.take(k as int).push(ps[k as int]));
                    assert(segments@.map_values(|s: Segment| s@) =~= before.push(seg@));
                }
            }
            k = k + 1;
        }
        assert(ps.take(k as int) =~= ps);
        Ok(PathPattern { segments })
    }

    /// The segments, in template order.
    pub fn segments(&self) -> (r: &Vec<Segment>)
        ensures
            r@.map_values(|s: Segment| s@) == self@,
    {
        &self.segments
    }
}

} // verus!
