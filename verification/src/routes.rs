//! The route table and the resolver. A route is a `/`-delimited template —
//! each segment either a literal or a capture wrapped in `{`...`}` — paired
//! with a handler. Resolution scans the bucket for the request's method in
//! registration order, keeps only routes whose segment count equals the
//! path's, compares segment by segment (a capture always matches and records
//! the path segment; a literal must be equal), and returns the first route
//! that matches, writing the recorded captures into the request's `params`.
use vstd::prelude::*;

use crate::HttpMethod;
use crate::request::Request;
use crate::request::RequestView;
use crate::text::join_with;
use crate::text::lemma_split_join;
use crate::text::lemma_split_on_len;
use crate::text::lemma_split_pieces_no_char;
use crate::text::no_char;
use crate::text::split;
use crate::text::split_on;

verus! {

/// Whether a template segment is a capture: wrapped in `{`...`}`.
pub open spec fn is_capture(seg: Seq<char>) -> bool {
    seg.len() > 0 && seg[0] == '{' && seg[seg.len() - 1] == '}'
}

/// Whether one template segment accepts one path segment: a capture accepts
/// anything, a literal only its own text.
pub open spec fn seg_matches(route_seg: Seq<char>, path_seg: Seq<char>) -> bool {
    is_capture(route_seg) || route_seg == path_seg
}

/// Whether a template matches a path: equal segment counts, and every
/// segment accepted.
pub open spec fn template_matches(tmpl: Seq<Seq<char>>, path: Seq<Seq<char>>) -> bool {
    tmpl.len() == path.len() && (forall|k: int|
        0 <= k < tmpl.len() ==> seg_matches(tmpl[k], path[k]))
}

/// The path segments standing at the template's capture positions, in
/// left-to-right order.
pub open spec fn captures_of(tmpl: Seq<Seq<char>>, path: Seq<Seq<char>>) -> Seq<Seq<char>>
    decreases tmpl.len(),
{
    if tmpl.len() == 0 || path.len() == 0 {
        Seq::<Seq<char>>::empty()
    } else {
        let rest = captures_of(tmpl.drop_first(), path.drop_first());
        if is_capture(tmpl[0]) {
            seq![path[0]] + rest
        } else {
            rest
        }
    }
}

/// A registered route: template segments and the handler they lead to. The
/// handler is an opaque value; the embedding application invokes it.
pub struct Route<C> {
    url: Vec<String>,
    controller: C,
}

impl<C> Route<C> {
    /// The template segments of this route.
    pub closed spec fn segments(&self) -> Seq<Seq<char>> {
        self.url.deep_view()
    }

    /// The handler of this route.
    pub closed spec fn spec_controller(&self) -> C {
        self.controller
    }

    /// A route from already-split template segments and a handler.
    pub fn new(url: Vec<String>, controller: C) -> (r: Route<C>)
        ensures
            r.segments() == url.deep_view(),
            r.spec_controller() == controller,
    {
        Route { url, controller }
    }

    /// The handler of this route.
    pub fn controller(&self) -> (r: &C)
        ensures
            *r == self.spec_controller(),
    {
        &self.controller
    }
}

/// The index of the first route in the bucket whose template matches the
/// path, if any: the first-registered-wins policy.
pub open spec fn first_match<C>(routes: Seq<Route<C>>, path: Seq<Seq<char>>) -> Option<int>
    decreases routes.len(),
{
    if routes.len() == 0 {
        None::<int>
    } else if template_matches(routes[0].segments(), path) {
        Some(0int)
    } else {
        match first_match(routes.drop_first(), path) {
            Some(i) => Some(i + 1),
            None => None::<int>,
        }
    }
}

/// Wherever `first_match` reports a route, that route matches and no earlier
/// one does; where it reports none, no route matches.
pub proof fn lemma_first_match_sound<C>(routes: Seq<Route<C>>, path: Seq<Seq<char>>)
    ensures
        match first_match(routes, path) {
            Some(i) => 0 <= i < routes.len() && template_matches(routes[i].segments(), path)
                && forall|k: int|
                0 <= k < i ==> !template_matches(#[trigger] routes[k].segments(), path),
            None => forall|k: int|
                0 <= k < routes.len() ==> !template_matches(#[trigger] routes[k].segments(), path),
        },
    decreases routes.len(),
{
    if routes.len() == 0 {
    } else if template_matches(routes[0].segments(), path) {
    } else {
        let t = routes.drop_first();
        lemma_first_match_sound(t, path);
        match first_match(routes, path) {
            Some(i) => {
                assert(routes[i] == t[i - 1]);
                assert forall|k: int| 0 <= k < i implies !template_matches(
                    #[trigger] routes[k].segments(),
                    path,
                ) by {
                    if k > 0 {
                        assert(routes[k] == t[k - 1]);
                    }
                }
            },
            None => {
                assert forall|k: int| 0 <= k < routes.len() implies !template_matches(
                    #[trigger] routes[k].segments(),
                    path,
                ) by {
                    if k > 0 {
                        assert(routes[k] == t[k - 1]);
                    }
                }
            },
        }
    }
}

/// The route table: one bucket of routes per method, in registration order,
/// and an optional fallback route for paths that match nothing.
pub struct Routes<C> {
    get: Vec<Route<C>>,
    post: Vec<Route<C>>,
    not_found_route: Option<Route<C>>,
}

impl<C> Routes<C> {
    /// The routes registered for a method, in registration order.
    pub closed spec fn bucket(&self, method: HttpMethod) -> Seq<Route<C>> {
        match method {
            HttpMethod::Get => self.get@,
            HttpMethod::Post => self.post@,
        }
    }

    /// The installed fallback route, if any.
    pub closed spec fn fallback(&self) -> Option<Route<C>> {
        self.not_found_route
    }

    /// An empty table: no routes, no fallback.
    pub fn new() -> (r: Routes<C>)
        ensures
            r.bucket(HttpMethod::Get) =~= Seq::<Route<C>>::empty(),
            r.bucket(HttpMethod::Post) =~= Seq::<Route<C>>::empty(),
            r.fallback() is None,
    {
        Routes { get: Vec::new(), post: Vec::new(), not_found_route: None }
    }

    /// Split the template on `/` and append the route to the bucket for the
    /// method; the other bucket and the fallback stay as they were.
    pub fn register_route(&mut self, method: HttpMethod, url: String, controller: C)
        ensures
            final(self).bucket(method).len() == old(self).bucket(method).len() + 1,
            final(self).bucket(method) == old(self).bucket(method).push(
                final(self).bucket(method).last(),
            ),
            final(self).bucket(method).last().segments() == split_on(url@, seq!['/']),
            final(self).bucket(method).last().spec_controller() == controller,
            forall|m: HttpMethod|
                m != method ==> final(self).bucket(m) == old(self).bucket(m),
            final(self).fallback() == old(self).fallback(),
    {
        proof {
            reveal_strlit("/");
            assert("/"@ =~= seq!['/']);
        }
        let url: Vec<String> = split(url.as_str(), "/");
        let route = Route::new(url, controller);
        match method {
            HttpMethod::Get => self.get.push(route),
            HttpMethod::Post => self.post.push(route),
        }
    }

    /// Install the fallback route; its handler is invoked for every request
    /// that matches no registered route.
    pub fn set_not_found_route(&mut self, controller: C)
        ensures
            final(self).fallback() is Some,
            final(self).fallback()->0.segments() =~= Seq::<Seq<char>>::empty(),
            final(self).fallback()->0.spec_controller() == controller,
            forall|m: HttpMethod| final(self).bucket(m) == old(self).bucket(m),
    {
        let route = Route::new(Vec::new(), controller);
        proof {
            assert(route.segments() =~= Seq::<Seq<char>>::empty());
        }
        self.not_found_route = Some(route);
    }

    /// The installed fallback route, if any.
    pub fn get_not_found_route(&self) -> (r: Option<&Route<C>>)
        ensures
            match r {
                Some(route) => self.fallback() == Some(*route),
                None => self.fallback() is None,
            },
    {
        self.not_found_route.as_ref()
    }

    /// Resolve a request against the bucket for its method: return the first
    /// registered route whose template matches the path, writing the matched
    /// captures into the request's `params`; return nothing, and leave the
    /// request as it was, when no route matches.
    #[verifier::loop_isolation(false)]
    pub fn resolve(&self, request: &mut Request) -> (r: Option<&Route<C>>)
        ensures
            ({
                let bucket = self.bucket(old(request)@.method);
                let path_segs = split_on(old(request)@.path, seq!['/']);
                match r {
                    Some(route) => {
                        &&& first_match(bucket, path_segs) is Some
                        &&& *route == bucket[first_match(bucket, path_segs)->0]
                        &&& final(request)@ == (RequestView {
                            params: captures_of(route.segments(), path_segs),
                            ..old(request)@
                        })
                    },
                    None => {
                        &&& first_match(bucket, path_segs) is None
                        &&& final(request)@ == old(request)@
                    },
                }
            }),
    {
        proof {
            reveal_strlit("/");
            assert("/"@ =~= seq!['/']);
        }
        let method = *request.method();
        let path_segs: Vec<String> = split(request.path(), "/");
        let routes: &Vec<Route<C>> = match method {
            HttpMethod::Get => &self.get,
            HttpMethod::Post => &self.post,
        };
        let ghost bucket = self.bucket(old(request)@.method);
        let ghost psegs = path_segs.deep_view();
        proof {
            assert(routes@ == bucket);
            assert(psegs == split_on(old(request)@.path, seq!['/']));
            assert(bucket.skip(0) =~= bucket);
        }
        let mut idx: usize = 0;
        while idx < routes.len()
            invariant
                0 <= idx <= routes.len(),
                routes@ == bucket,
                psegs == path_segs.deep_view(),
                request@ == old(request)@,
                first_match(bucket, psegs) == (match first_match(bucket.skip(idx as int), psegs) {
                    Some(j) => Some(j + idx as int),
                    None => None::<int>,
                }),
            decreases routes.len() - idx,
        {
            proof {
                assert(bucket.skip(idx as int)[0] == bucket[idx as int]);
                assert(bucket.skip(idx as int).drop_first() =~= bucket.skip(idx as int + 1));
            }
            let route = &routes[idx];
            let ghost tmpl = route.segments();
            if route.url.len() == path_segs.len() {
                let n = path_segs.len();
                let mut params: Vec<String> = Vec::new();
                let mut ok = true;
                let mut j: usize = 0;
                while j < n && ok
                    invariant
                        0 <= j <= n,
                        n == psegs.len(),
                        n == tmpl.len(),
                        psegs == path_segs.deep_view(),
                        tmpl == route.segments(),
                        tmpl == route.url.deep_view(),
                        n == route.url.len(),
                        n == path_segs.len(),
                        ok ==> (forall|k: int| 0 <= k < j ==> seg_matches(tmpl[k], psegs[k])),
                        ok ==> params.deep_view() == captures_of(
                            tmpl.take(j as int),
                            psegs.take(j as int),
                        ),
                        !ok ==> !template_matches(tmpl, psegs),
                    decreases n - j,
                {
                    let seg: &String = &route.url[j];
                    proof {
                        assert(seg@ == tmpl[j as int]);
                        assert(path_segs@[j as int]@ == psegs[j as int]);
                    }
                    if is_capture_segment(seg.as_str()) {
                        let ghost old_params = params.deep_view();
                        params.push(path_segs[j].clone());
                        proof {
                            lemma_captures_take_step(tmpl, psegs, j as int);
                            assert(params.deep_view() =~= old_params.push(psegs[j as int]));
                            assert(params.deep_view() =~= captures_of(
                                tmpl.take(j as int + 1),
                                psegs.take(j as int + 1),
                            ));
                        }
                    } else if !strings_equal(seg, &path_segs[j]) {
                        ok = false;
                        proof {
                            assert(!seg_matches(tmpl[j as int], psegs[j as int]));
                        }
                    } else {
                        proof {
                            lemma_captures_take_step(tmpl, psegs, j as int);
                            assert(params.deep_view() =~= captures_of(
                                tmpl.take(j as int + 1),
                                psegs.take(j as int + 1),
                            ));
                        }
                    }
                    j += 1;
                }
                if ok {
                    proof {
                        assert(tmpl.take(n as int) =~= tmpl);
                        assert(psegs.take(n as int) =~= psegs);
                        assert(template_matches(tmpl, psegs));
                        assert(first_match(bucket.skip(idx as int), psegs) == Some(0int));
                        assert(first_match(bucket, psegs) == Some(idx as int));
                        assert(params.deep_view() == captures_of(tmpl, psegs));
                    }
                    request.set_param(params);
                    return Some(route);
                }
            } else {
                proof {
                    assert(tmpl.len() == route.url.len());
                    assert(!template_matches(tmpl, psegs));
                }
            }
            proof {
                assert(!template_matches(bucket.skip(idx as int)[0].segments(), psegs));
                assert(first_match(bucket.skip(idx as int), psegs) == (
                match first_match(bucket.skip(idx as int + 1), psegs) {
                    Some(j) => Some(j + 1int),
                    None => None::<int>,
                }));
            }
            idx += 1;
        }
        proof {
            assert(bucket.skip(idx as int) =~= Seq::<Route<C>>::empty());
            assert(first_match(bucket, psegs) is None);
        }
        None
    }

    /// The route a request is dispatched to: the first matching route of the
    /// bucket for its method, with the captures written into the request's
    /// `params`; the installed fallback where nothing matches; nothing where
    /// no fallback was installed either — the caller then answers with
    /// `Response::default_not_found`.
    pub fn route_for(&self, request: &mut Request) -> (r: Option<&Route<C>>)
        ensures
            ({
                let bucket = self.bucket(old(request)@.method);
                let path_segs = split_on(old(request)@.path, seq!['/']);
                match first_match(bucket, path_segs) {
                    Some(i) => {
                        &&& r == Some(&bucket[i])
                        &&& final(request)@ == (RequestView {
                            params: captures_of(bucket[i].segments(), path_segs),
                            ..old(request)@
                        })
                    },
                    None => {
                        &&& final(request)@ == old(request)@
                        &&& match self.fallback() {
                            Some(f) => r == Some(&f),
                            None => r is None,
                        }
                    },
                }
            }),
    {
        match self.resolve(request) {
            Some(route) => Some(route),
            None => self.get_not_found_route(),
        }
    }
}

/// Whether a template segment is a capture.
pub fn is_capture_segment(seg: &str) -> (r: bool)
    ensures
        r == is_capture(seg@),
{
    let n = seg.unicode_len();
    if n == 0 {
        false
    } else {
        seg.get_char(0) == '{' && seg.get_char(n - 1) == '}'
    }
}

/// Whether two strings hold the same text.
fn strings_equal(a: &String, b: &String) -> (r: bool)
    ensures
        r == (a@ == b@),
{
    *a == *b
}

/// Extending both the template prefix and the path prefix by one segment
/// appends that segment's capture, if it is one, to the recorded captures.
pub proof fn lemma_captures_snoc(
    tmpl: Seq<Seq<char>>,
    path: Seq<Seq<char>>,
    ts: Seq<char>,
    ps: Seq<char>,
)
    requires
        tmpl.len() == path.len(),
    ensures
        captures_of(tmpl.push(ts), path.push(ps)) == captures_of(tmpl, path) + (if is_capture(ts) {
            seq![ps]
        } else {
            Seq::<Seq<char>>::empty()
        }),
    decreases tmpl.len(),
{
    if tmpl.len() == 0 {
        assert(tmpl.push(ts) =~= seq![ts]);
        assert(path.push(ps) =~= seq![ps]);
        assert(seq![ts].drop_first() =~= Seq::<Seq<char>>::empty());
        assert(seq![ps].drop_first() =~= Seq::<Seq<char>>::empty());
        assert(captures_of(seq![ts].drop_first(), seq![ps].drop_first()) =~= Seq::<
            Seq<char>,
        >::empty());
        if is_capture(ts) {
            assert(captures_of(tmpl.push(ts), path.push(ps)) =~= seq![ps]);
            assert(captures_of(tmpl, path) + seq![ps] =~= seq![ps]);
        } else {
            assert(captures_of(tmpl.push(ts), path.push(ps)) =~= Seq::<Seq<char>>::empty());
            assert(captures_of(tmpl, path) + Seq::<Seq<char>>::empty() =~= Seq::<
                Seq<char>,
            >::empty());
        }
    } else {
        assert(tmpl.push(ts).drop_first() =~= tmpl.drop_first().push(ts));
        assert(path.push(ps).drop_first() =~= path.drop_first().push(ps));
        assert(tmpl.push(ts)[0] == tmpl[0]);
        assert(path.push(ps)[0] == path[0]);
        lemma_captures_snoc(tmpl.drop_first(), path.drop_first(), ts, ps);
        if is_capture(tmpl[0]) {
            assert(seq![path[0]] + (captures_of(tmpl.drop_first(), path.drop_first()) + (
            if is_capture(ts) {
                seq![ps]
            } else {
                Seq::<Seq<char>>::empty()
            })) =~= (seq![path[0]] + captures_of(tmpl.drop_first(), path.drop_first())) + (
            if is_capture(ts) {
                seq![ps]
            } else {
                Seq::<Seq<char>>::empty()
            }));
        }
    }
}

/// The number of capture segments of a template.
pub open spec fn capture_count(tmpl: Seq<Seq<char>>) -> nat
    decreases tmpl.len(),
{
    if tmpl.len() == 0 {
        0
    } else {
        (if is_capture(tmpl[0]) {
            1nat
        } else {
            0nat
        }) + capture_count(tmpl.drop_first())
    }
}

/// The template with each capture segment replaced by the next of the values,
/// in left-to-right order.
pub open spec fn substitute(tmpl: Seq<Seq<char>>, vals: Seq<Seq<char>>) -> Seq<Seq<char>>
    decreases tmpl.len(),
{
    if tmpl.len() == 0 {
        Seq::<Seq<char>>::empty()
    } else if is_capture(tmpl[0]) {
        seq![vals[0]] + substitute(tmpl.drop_first(), vals.drop_first())
    } else {
        seq![tmpl[0]] + substitute(tmpl.drop_first(), vals)
    }
}

/// Substituting one value for each capture of a template yields a path of the
/// same segment count that the template matches, and the captures recorded
/// for it are exactly the substituted values.
pub proof fn lemma_substitution(tmpl: Seq<Seq<char>>, vals: Seq<Seq<char>>)
    requires
        vals.len() == capture_count(tmpl),
    ensures
        substitute(tmpl, vals).len() == tmpl.len(),
        template_matches(tmpl, substitute(tmpl, vals)),
        captures_of(tmpl, substitute(tmpl, vals)) == vals,
    decreases tmpl.len(),
{
    let path = substitute(tmpl, vals);
    if tmpl.len() == 0 {
        assert(vals =~= Seq::<Seq<char>>::empty());
        assert(captures_of(tmpl, path) =~= vals);
    } else if is_capture(tmpl[0]) {
        let t = tmpl.drop_first();
        let v = vals.drop_first();
        lemma_substitution(t, v);
        let rest = substitute(t, v);
        assert(path == seq![vals[0]] + rest);
        assert(path.drop_first() =~= rest);
        assert(path[0] == vals[0]);
        assert forall|k: int| 0 <= k < tmpl.len() implies seg_matches(tmpl[k], path[k]) by {
            if k > 0 {
                assert(tmpl[k] == t[k - 1]);
                assert(path[k] == rest[k - 1]);
                assert(seg_matches(t[k - 1], rest[k - 1]));
            }
        }
        assert(captures_of(tmpl, path) == seq![path[0]] + captures_of(t, rest));
        assert(seq![vals[0]] + v =~= vals);
    } else {
        let t = tmpl.drop_first();
        lemma_substitution(t, vals);
        let rest = substitute(t, vals);
        assert(path == seq![tmpl[0]] + rest);
        assert(path.drop_first() =~= rest);
        assert(path[0] == tmpl[0]);
        assert forall|k: int| 0 <= k < tmpl.len() implies seg_matches(tmpl[k], path[k]) by {
            if k > 0 {
                assert(tmpl[k] == t[k - 1]);
                assert(path[k] == rest[k - 1]);
                assert(seg_matches(t[k - 1], rest[k - 1]));
            }
        }
        assert(captures_of(tmpl, path) == captures_of(t, rest));
    }
}

/// Substitution keeps every segment free of a character that neither the
/// template's segments nor the values contain.
proof fn lemma_substitute_no_char(tmpl: Seq<Seq<char>>, vals: Seq<Seq<char>>, c: char)
    requires
        vals.len() == capture_count(tmpl),
        forall|k: int| 0 <= k < tmpl.len() ==> no_char(#[trigger] tmpl[k], c),
        forall|k: int| 0 <= k < vals.len() ==> no_char(#[trigger] vals[k], c),
    ensures
        forall|k: int|
            0 <= k < substitute(tmpl, vals).len() ==> no_char(#[trigger] substitute(tmpl, vals)[k], c),
    decreases tmpl.len(),
{
    let path = substitute(tmpl, vals);
    if tmpl.len() == 0 {
    } else if is_capture(tmpl[0]) {
        let t = tmpl.drop_first();
        let v = vals.drop_first();
        lemma_substitute_no_char(t, v, c);
        assert forall|k: int| 0 <= k < path.len() implies no_char(#[trigger] path[k], c) by {
            if k == 0 {
                assert(path[0] == vals[0]);
            } else {
                assert(path[k] == substitute(t, v)[k - 1]);
            }
        }
    } else {
        let t = tmpl.drop_first();
        lemma_substitute_no_char(t, vals, c);
        assert forall|k: int| 0 <= k < path.len() implies no_char(#[trigger] path[k], c) by {
            if k == 0 {
                assert(path[0] == tmpl[0]);
            } else {
                assert(path[k] == substitute(t, vals)[k - 1]);
            }
        }
    }
}

/// For a route registered from a template text, a path built by substituting
/// each capture with a value free of `/` resolves to that route, with the
/// recorded captures equal to the substituted values in left-to-right order —
/// provided no earlier route of the bucket matches that path (first
/// registered wins otherwise).
pub proof fn lemma_substituted_path_resolves<C>(
    routes: Seq<Route<C>>,
    i: int,
    tmpl_text: Seq<char>,
    vals: Seq<Seq<char>>,
)
    requires
        0 <= i < routes.len(),
        routes[i].segments() == split_on(tmpl_text, seq!['/']),
        vals.len() == capture_count(routes[i].segments()),
        forall|k: int| 0 <= k < vals.len() ==> no_char(#[trigger] vals[k], '/'),
        forall|k: int|
            0 <= k < i ==> !template_matches(
                #[trigger] routes[k].segments(),
                substitute(routes[i].segments(), vals),
            ),
    ensures
        ({
            let path_text = join_with(substitute(routes[i].segments(), vals), '/');
            let path_segs = split_on(path_text, seq!['/']);
            &&& path_segs == substitute(routes[i].segments(), vals)
            &&& first_match(routes, path_segs) == Some(i)
            &&& captures_of(routes[i].segments(), path_segs) == vals
        }),
{
    let tmpl = routes[i].segments();
    let sub = substitute(tmpl, vals);
    lemma_split_on_len(tmpl_text, seq!['/']);
    lemma_substitution(tmpl, vals);
    lemma_split_pieces_no_char(tmpl_text, '/');
    lemma_substitute_no_char(tmpl, vals, '/');
    lemma_split_join(sub, '/');
    lemma_first_match_sound(routes, sub);
    match first_match(routes, sub) {
        Some(k) => {
            if k < i {
                assert(!template_matches(routes[k].segments(), sub));
                assert(false);
            }
            if k > i {
                assert(!template_matches(routes[i].segments(), sub));
                assert(false);
            }
        },
        None => {
            assert(!template_matches(routes[i].segments(), sub));
            assert(false);
        },
    }
}

/// A route template never matches a path with a different segment count,
/// whatever its literal and capture segments are, so resolution never selects
/// it for such a path.
pub proof fn lemma_segment_count_mismatch<C>(routes: Seq<Route<C>>, path: Seq<Seq<char>>, i: int)
    requires
        0 <= i < routes.len(),
        routes[i].segments().len() != path.len(),
    ensures
        !template_matches(routes[i].segments(), path),
        first_match(routes, path) != Some(i),
{
    lemma_first_match_sound(routes, path);
}

/// First registered wins: where two routes of one bucket both match a path,
/// resolution selects one registered no later than the earlier of the two,
/// never the later one.
pub proof fn lemma_first_registered_wins<C>(
    routes: Seq<Route<C>>,
    path: Seq<Seq<char>>,
    i: int,
    j: int,
)
    requires
        0 <= i < j < routes.len(),
        template_matches(routes[i].segments(), path),
        template_matches(routes[j].segments(), path),
    ensures
        first_match(routes, path) is Some,
        first_match(routes, path)->0 <= i,
        first_match(routes, path) != Some(j),
{
    lemma_first_match_sound(routes, path);
    match first_match(routes, path) {
        Some(k) => {
            if k > i {
                assert(!template_matches(routes[i].segments(), path));
                assert(false);
            }
        },
        None => {
            assert(!template_matches(routes[i].segments(), path));
            assert(false);
        },
    }
}

/// Stepping the compared prefix one segment forward extends the recorded
/// captures exactly by that segment's capture, if it is one.
pub proof fn lemma_captures_take_step(tmpl: Seq<Seq<char>>, path: Seq<Seq<char>>, j: int)
    requires
        0 <= j,
        j < tmpl.len(),
        j < path.len(),
    ensures
        captures_of(tmpl.take(j + 1), path.take(j + 1)) == captures_of(
            tmpl.take(j),
            path.take(j),
        ) + (if is_capture(tmpl[j]) {
            seq![path[j]]
        } else {
            Seq::<Seq<char>>::empty()
        }),
{
    assert(tmpl.take(j + 1) =~= tmpl.take(j).push(tmpl[j]));
    assert(path.take(j + 1) =~= path.take(j).push(path[j]));
    lemma_captures_snoc(tmpl.take(j), path.take(j), tmpl[j], path[j]);
}

} // verus!

