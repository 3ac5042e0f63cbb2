//! The route registry and the request dispatcher.
//!
//! The registry is a sequence of routes with pairwise-distinct
//! `method:path` keys, kept in registration order so that route resolution
//! is deterministic. A route is a candidate for a request when its key is
//! a string prefix of the request key `method:path` (the coarse
//! compatibility policy), or when its pattern matches the request path
//! segment by segment, a `{name}` segment matching any path segment.
//! Among the candidates the one with the longest path pattern wins, the
//! earliest registered on a tie.

use vstd::prelude::*;

use crate::provider::{IStartup, ServiceProvider};
use crate::route::{
    check_segment_wf, extract_params_from_path, is_param_segment, is_prefix_str, param_name_of,
    spec_is_param, spec_is_prefix, spec_param_name, spec_route_key, spec_split, split_path, str_eq,
    Handler, Route,
};

verus! {

/// A route segment accepts a path segment when it is a parameter segment
/// or equal to it.
pub open spec fn spec_seg_matches(rseg: Seq<char>, pseg: Seq<char>) -> bool {
    spec_is_param(rseg) || rseg == pseg
}

/// The pattern segments match a leading run of the path segments.
pub open spec fn spec_segs_match(rsegs: Seq<Seq<char>>, psegs: Seq<Seq<char>>) -> bool {
    &&& rsegs.len() <= psegs.len()
    &&& forall|i: int| 0 <= i < rsegs.len() ==> spec_seg_matches(#[trigger] rsegs[i], psegs[i])
}

/// A route is a candidate for a request when its key is a string prefix
/// of the request key, or when its method is the request method and its
/// pattern segments match the request path segments.
pub open spec fn spec_candidate<H>(r: Route<H>, method: Seq<char>, path: Seq<char>) -> bool {
    ||| spec_is_prefix(r.spec_key(), spec_route_key(method, path))
    ||| (r.method@ == method && spec_segs_match(spec_split(r.path@), spec_split(path)))
}

/// The index of the selected route: the candidate with the longest path
/// pattern, the earliest registered on a tie; `None` when no route is a
/// candidate.
pub open spec fn spec_select<H>(routes: Seq<Route<H>>, method: Seq<char>, path: Seq<char>) -> Option<
    int,
>
    decreases routes.len(),
{
    if routes.len() == 0 {
        None
    } else {
        let prev = spec_select(routes.drop_last(), method, path);
        if spec_candidate(routes.last(), method, path) {
            match prev {
                None => Some(routes.len() - 1),
                Some(j) => if routes.last().path@.len() > routes[j].path@.len() {
                    Some(routes.len() - 1)
                } else {
                    Some(j)
                },
            }
        } else {
            prev
        }
    }
}

/// The `(name, value)` pairs the matcher extracts: the two segment
/// sequences are walked pairwise up to the shorter one, and each parameter
/// segment contributes its name and the path segment standing opposite.
pub open spec fn spec_extract(rsegs: Seq<Seq<char>>, psegs: Seq<Seq<char>>) -> Seq<
    (Seq<char>, Seq<char>),
>
    decreases rsegs.len(),
{
    if rsegs.len() == 0 || psegs.len() == 0 {
        Seq::empty()
    } else {
        let rest = spec_extract(rsegs.drop_first(), psegs.drop_first());
        if spec_is_param(rsegs.first()) {
            seq![(spec_param_name(rsegs.first()), psegs.first())] + rest
        } else {
            rest
        }
    }
}

/// Pairwise-distinct registry keys.
pub open spec fn spec_unique_keys<H>(routes: Seq<Route<H>>) -> bool {
    forall|i: int, j: int|
        0 <= i < j < routes.len() ==> (#[trigger] routes[i].spec_key()) != (
        #[trigger] routes[j].spec_key())
}

/// Some route in the registry holds the given key.
pub open spec fn spec_has_key<H>(routes: Seq<Route<H>>, key: Seq<char>) -> bool {
    exists|p: int| 0 <= p < routes.len() && (#[trigger] routes[p].spec_key()) == key
}

/// The first position holding the given key, or `routes.len()` when the
/// key is absent.
pub open spec fn spec_find_key<H>(routes: Seq<Route<H>>, key: Seq<char>) -> int
    decreases routes.len(),
{
    if routes.len() == 0 {
        0
    } else if routes.first().spec_key() == key {
        0
    } else {
        1 + spec_find_key(routes.drop_first(), key)
    }
}

/// Registration of one route: a route with the same key is replaced in
/// place (last registered wins), a new key is appended.
pub open spec fn spec_insert<H>(routes: Seq<Route<H>>, r: Route<H>) -> Seq<Route<H>> {
    let i = spec_find_key(routes, r.spec_key());
    if i < routes.len() {
        routes.update(i, r)
    } else {
        routes.push(r)
    }
}

/// Registration of a sequence of routes, in order.
pub open spec fn spec_insert_all<H>(routes: Seq<Route<H>>, news: Seq<Route<H>>) -> Seq<Route<H>>
    decreases news.len(),
{
    if news.len() == 0 {
        routes
    } else {
        spec_insert_all(spec_insert(routes, news.first()), news.drop_first())
    }
}

pub proof fn lemma_find_key_props<H>(routes: Seq<Route<H>>, key: Seq<char>)
    ensures
        0 <= spec_find_key(routes, key) <= routes.len(),
        spec_find_key(routes, key) < routes.len() ==> routes[spec_find_key(routes, key)].spec_key()
            == key,
        forall|j: int| 0 <= j < spec_find_key(routes, key) ==> (#[trigger] routes[j].spec_key())
            != key,
    decreases routes.len(),
{
    if routes.len() > 0 && routes.first().spec_key() != key {
        lemma_find_key_props(routes.drop_first(), key);
        assert forall|j: int| 0 <= j < spec_find_key(routes, key) implies (
        #[trigger] routes[j].spec_key()) != key by {
            if j > 0 {
                assert(routes.drop_first()[j - 1] == routes[j]);
            }
        }
    }
}

/// Why registry construction was rejected.
#[derive(Clone, Copy, Debug, PartialEq, Eq, Structural)]
pub enum RegistryError {
    /// Some declared route is invalid: its pattern is malformed or its
    /// declared parameter list disagrees with its pattern.
    InvalidRoute,
    /// Two declared routes share the same `method:path` key.
    DuplicateKey,
}

/// Builds the composite key `method:path` of a request or a route.
pub fn make_key(method: &str, path: &str) -> (k: String)
    ensures
        k@ == spec_route_key(method@, path@),
{
    let mut k = String::from_str(method);
    k.append(":");
    k.append(path);
    proof {
        reveal_strlit(":");
        assert(":"@ =~= seq![':']);
        assert(k@ =~= spec_route_key(method@, path@));
    }
    k
}

/// The web host: the built route registry and the scoped-state container.
pub struct WebHost<H> {
    /// The scoped-state collaborator cleared after each matched dispatch.
    pub provider: ServiceProvider,
    /// The registry: routes in registration order, keys pairwise distinct.
    pub routes: Vec<Route<H>>,
}

impl<H: Handler> WebHost<H> {
    /// The registry invariant: every route valid, keys pairwise distinct.
    pub open spec fn wf(self) -> bool {
        &&& forall|i: int| 0 <= i < self.routes@.len() ==> (#[trigger] self.routes@[i]).wf()
        &&& spec_unique_keys(self.routes@)
    }

    /// Builds a host from the complete declared route set, configuring the
    /// service container through the startup type first. Construction
    /// fails fast: an invalid route or a duplicate `method:path` key is
    /// rejected here, not discovered at request time.
    pub fn new<T: IStartup>(routes: Vec<Route<H>>) -> (r: Result<WebHost<H>, RegistryError>)
        ensures
            r is Ok <==> ({
                &&& forall|i: int| 0 <= i < routes@.len() ==> (#[trigger] routes@[i]).wf()
                &&& spec_unique_keys(routes@)
            }),
            r is Ok ==> ({
                let h = r.unwrap();
                &&& h.wf()
                &&& h.routes@ == routes@
            }),
            r == Err::<WebHost<H>, RegistryError>(RegistryError::InvalidRoute) <==> exists|i: int|
                0 <= i < routes@.len() && !(#[trigger] routes@[i]).wf(),
            r == Err::<WebHost<H>, RegistryError>(RegistryError::DuplicateKey) <==> ({
                &&& forall|i: int| 0 <= i < routes@.len() ==> (#[trigger] routes@[i]).wf()
                &&& !spec_unique_keys(routes@)
            }),
    {
        let mut provider = ServiceProvider::new();
        T::configure_services(&mut provider);
        let mut i: usize = 0;
        while i < routes.len()
            invariant
                i <= routes.len(),
                forall|j: int| 0 <= j < i ==> (#[trigger] routes@[j]).wf(),
            decreases routes.len() - i,
        {
            if !check_route_wf(&routes[i]) {
                return Err(RegistryError::InvalidRoute);
            }
            i = i + 1;
        }
        let mut a: usize = 0;
        while a < routes.len()
            invariant
                a <= routes.len(),
                forall|j: int| 0 <= j < routes@.len() ==> (#[trigger] routes@[j]).wf(),
                forall|i1: int, j1: int|
                    0 <= i1 < j1 < a ==> (#[trigger] routes@[i1].spec_key()) != (
                    #[trigger] routes@[j1].spec_key()),
            decreases routes.len() - a,
        {
            let key_a = make_key(routes[a].method.as_str(), routes[a].path.as_str());
            let mut b: usize = 0;
            while b < a
                invariant
                    b <= a < routes.len(),
                    key_a@ == routes@[a as int].spec_key(),
                    forall|j: int| 0 <= j < routes@.len() ==> (#[trigger] routes@[j]).wf(),
                    forall|i1: int, j1: int|
                        0 <= i1 < j1 < a ==> (#[trigger] routes@[i1].spec_key()) != (
                        #[trigger] routes@[j1].spec_key()),
                    forall|i1: int| 0 <= i1 < b ==> (#[trigger] routes@[i1].spec_key())
                        != routes@[a as int].spec_key(),
                decreases a - b,
            {
                let key_b = make_key(routes[b].method.as_str(), routes[b].path.as_str());
                if str_eq(key_b.as_str(), key_a.as_str()) {
                    proof {
                        assert(routes@[b as int].spec_key() == routes@[a as int].spec_key());
                        assert(!spec_unique_keys(routes@));
                    }
                    return Err(RegistryError::DuplicateKey);
                }
                b = b + 1;
            }
            a = a + 1;
        }
        Ok(WebHost { provider, routes })
    }

    /// Registers one route. A route whose `method:path` key is already
    /// present replaces the earlier one in place (last registered wins); a
    /// new key is appended in registration order.
    pub fn register(&mut self, route: Route<H>)
        requires
            old(self).wf(),
            route.wf(),
        ensures
            final(self).routes@ == spec_insert(old(self).routes@, route),
            final(self).provider == old(self).provider,
            final(self).wf(),
    {
        let key = make_key(route.method.as_str(), route.path.as_str());
        let mut i: usize = 0;
        while i < self.routes.len()
            invariant
                *self == *old(self),
                self.wf(),
                route.wf(),
                key@ == route.spec_key(),
                i <= self.routes@.len(),
                forall|j: int| 0 <= j < i ==> (#[trigger] self.routes@[j].spec_key())
                    != route.spec_key(),
            decreases self.routes@.len() - i,
        {
            let k2 = make_key(self.routes[i].method.as_str(), self.routes[i].path.as_str());
            if str_eq(k2.as_str(), key.as_str()) {
                proof {
                    lemma_find_key_props(self.routes@, route.spec_key());
                    assert(self.routes@[i as int].spec_key() == route.spec_key());
                    assert(spec_find_key(self.routes@, route.spec_key()) == i);
                }
                let ghost pre = self.routes@;
                self.routes.set(i, route);
                proof {
                    assert(self.routes@ =~= pre.update(i as int, route));
                    assert forall|j: int| 0 <= j < self.routes@.len() implies (
                    #[trigger] self.routes@[j]).wf() by {
                        if j == i {
                            assert(self.routes@[j] == route);
                        } else {
                            assert(self.routes@[j] == pre[j]);
                            assert(old(self).routes@[j].wf());
                        }
                    }
                    assert forall|i1: int, j1: int| 0 <= i1 < j1 < self.routes@.len() implies (
                    #[trigger] self.routes@[i1].spec_key()) != (
                    #[trigger] self.routes@[j1].spec_key()) by {
                        assert(self.routes@[i1].spec_key() == pre[i1].spec_key());
                        assert(self.routes@[j1].spec_key() == pre[j1].spec_key());
                        assert(pre[i1].spec_key() != pre[j1].spec_key());
                    }
                }
                return ;
            }
            i = i + 1;
        }
        proof {
            lemma_find_key_props(self.routes@, route.spec_key());
            assert(spec_find_key(self.routes@, route.spec_key()) == self.routes@.len());
        }
        self.routes.push(route);
    }

    /// Registers every given route, in order, with the replace-on-equal-key
    /// semantics of `register`.
    pub fn add_controllers(&mut self, routes: Vec<Route<H>>)
        requires
            old(self).wf(),
            forall|i: int| 0 <= i < routes@.len() ==> (#[trigger] routes@[i]).wf(),
        ensures
            final(self).routes@ == spec_insert_all(old(self).routes@, routes@),
            final(self).provider == old(self).provider,
            final(self).wf(),
    {
        let ghost all = routes@;
        let mut news = routes;
        while news.len() > 0
            invariant
                self.wf(),
                self.provider == old(self).provider,
                forall|i: int| 0 <= i < news@.len() ==> (#[trigger] news@[i]).wf(),
                spec_insert_all(old(self).routes@, all) == spec_insert_all(
                    self.routes@,
                    news@,
                ),
            decreases news@.len(),
        {
            let ghost pre = news@;
            let r = news.remove(0);
            proof {
                assert(news@ =~= pre.drop_first());
                assert(r == pre.first());
            }
            self.register(r);
        }
    }

    /// Finds the selected route for a request, if any.
    pub fn find_route(&self, method: &str, path: &str) -> (r: Option<usize>)
        ensures
            match r {
                Some(i) => i < self.routes@.len() && spec_select(self.routes@, method@, path@)
                    == Some(i as int),
                None => spec_select(self.routes@, method@, path@) is None,
            },
    {
        let psegs = split_path(path);
        let req_key = make_key(method, path);
        let mut best: Option<usize> = None;
        let mut i: usize = 0;
        while i < self.routes.len()
            invariant
                psegs.deep_view() == spec_split(path@),
                req_key@ == spec_route_key(method@, path@),
                i <= self.routes@.len(),
                match best {
                    Some(b) => b < i && spec_select(self.routes@.take(i as int), method@, path@)
                        == Some(b as int),
                    None => spec_select(self.routes@.take(i as int), method@, path@) is None,
                },
            decreases self.routes@.len() - i,
        {
            proof {
                assert(self.routes@.take(i + 1).drop_last() =~= self.routes@.take(i as int));
                assert(self.routes@.take(i + 1).last() == self.routes@[i as int]);
            }
            let rt_key = make_key(self.routes[i].method.as_str(), self.routes[i].path.as_str());
            let mut cand = is_prefix_str(rt_key.as_str(), req_key.as_str());
            if !cand {
                if str_eq(self.routes[i].method.as_str(), method) {
                    let rsegs = split_path(self.routes[i].path.as_str());
                    cand = segs_match(&rsegs, &psegs);
                }
            }
            proof {
                assert(cand == spec_candidate(self.routes@[i as int], method@, path@));
            }
            if cand {
                match best {
                    None => {
                        best = Some(i);
                    },
                    Some(b) => {
                        if self.routes[i].path.as_str().unicode_len() > self.routes[
                            b
                        ].path.as_str().unicode_len() {
                            best = Some(i);
                        }
                    },
                }
            }
            i = i + 1;
        }
        proof {
            assert(self.routes@.take(self.routes@.len() as int) =~= self.routes@);
        }
        best
    }

    /// The path matcher: walks the pattern segments of `route` and the
    /// segments of `path` pairwise up to the shorter sequence, and records
    /// `(name, value)` for each `{name}` pattern segment.
    pub fn extract_params(&self, path: &str, route: &Route<H>) -> (r: Vec<(String, String)>)
        ensures
            r.deep_view() == spec_extract(spec_split(route.path@), spec_split(path@)),
    {
        let psegs = split_path(path);
        let rsegs = split_path(route.path.as_str());
        let n = if rsegs.len() < psegs.len() {
            rsegs.len()
        } else {
            psegs.len()
        };
        let mut r: Vec<(String, String)> = Vec::new();
        let mut i: usize = 0;
        proof {
            assert(rsegs.deep_view().skip(0) =~= rsegs.deep_view());
            assert(psegs.deep_view().skip(0) =~= psegs.deep_view());
            assert(r.deep_view() =~= Seq::<(Seq<char>, Seq<char>)>::empty());
            assert(r.deep_view() + spec_extract(rsegs.deep_view(), psegs.deep_view()) =~= spec_extract(
                rsegs.deep_view(),
                psegs.deep_view(),
            ));
        }
        while i < n
            invariant
                psegs.deep_view() == spec_split(path@),
                rsegs.deep_view() == spec_split(route.path@),
                i <= n,
                n <= rsegs@.len(),
                n <= psegs@.len(),
                n == if rsegs@.len() < psegs@.len() {
                    rsegs@.len()
                } else {
                    psegs@.len()
                },
                spec_extract(rsegs.deep_view(), psegs.deep_view()) == r.deep_view() + spec_extract(
                    rsegs.deep_view().skip(i as int),
                    psegs.deep_view().skip(i as int),
                ),
            decreases n - i,
        {
            proof {
                let rs = rsegs.deep_view().skip(i as int);
                let ps = psegs.deep_view().skip(i as int);
                assert(rs.first() == rsegs.deep_view()[i as int]);
                assert(ps.first() == psegs.deep_view()[i as int]);
                assert(rs.drop_first() =~= rsegs.deep_view().skip(i + 1));
                assert(ps.drop_first() =~= psegs.deep_view().skip(i + 1));
            }
            if is_param_segment(rsegs[i].as_str()) {
                let name = param_name_of(rsegs[i].as_str());
                let value = psegs[i].clone();
                let ghost old_r = r.deep_view();
                r.push((name, value));
                proof {
                    assert(r.deep_view() =~= old_r.push((name@, value@)));
                    assert(old_r + (seq![(name@, value@)] + spec_extract(
                        rsegs.deep_view().skip(i + 1),
                        psegs.deep_view().skip(i + 1),
                    )) =~= r.deep_view() + spec_extract(
                        rsegs.deep_view().skip(i + 1),
                        psegs.deep_view().skip(i + 1),
                    ));
                }
            }
            i = i + 1;
        }
        proof {
            assert(spec_extract(
                rsegs.deep_view().skip(i as int),
                psegs.deep_view().skip(i as int),
            ) =~= Seq::<(Seq<char>, Seq<char>)>::empty());
            assert(r.deep_view() + Seq::<(Seq<char>, Seq<char>)>::empty() =~= r.deep_view());
        }
        r
    }

    /// Dispatches a request. When some route is a candidate, the selected
    /// route's handler is invoked with the extracted parameters and the
    /// body, the scoped state is cleared exactly once, and the handler's
    /// response is returned; otherwise nothing happens and the result is
    /// absent.
    pub fn handle_request(&mut self, method: &str, path: &str, body: Option<String>) -> (r: Option<
        String,
    >)
        requires
            old(self).provider.cleared_count < u64::MAX,
        ensures
            final(self).routes == old(self).routes,
            r is Some <==> spec_select(old(self).routes@, method@, path@) is Some,
            spec_select(old(self).routes@, method@, path@) is None ==> *final(self) == *old(self),
            spec_select(old(self).routes@, method@, path@) is Some ==> ({
                &&& final(self).provider.cleared_count == old(self).provider.cleared_count + 1
                &&& final(self).provider.scoped_instances@ == Seq::<String>::empty()
                &&& final(self).provider.services == old(self).provider.services
            }),
    {
        match self.find_route(method, path) {
            None => None,
            Some(i) => {
                let params = self.extract_params(path, &self.routes[i]);
                let resp = self.routes[i].handler.invoke(&params, body);
                self.provider.clear_scoped_instances();
                Some(resp)
            },
        }
    }

    /// The startup self-test: invokes every registered handler once with
    /// no parameters and no body, and reports each route key with the
    /// response it produced. A diagnostic, not part of request serving.
    pub fn self_test(&self) -> (r: Vec<(String, String)>)
        ensures
            r@.len() == self.routes@.len(),
            forall|i: int| 0 <= i < r@.len() ==> (#[trigger] r@[i].0)@
                == self.routes@[i].spec_key(),
    {
        let empty_params: Vec<(String, String)> = Vec::new();
        let mut r: Vec<(String, String)> = Vec::new();
        let mut i: usize = 0;
        while i < self.routes.len()
            invariant
                r@.len() == i <= self.routes@.len(),
                forall|j: int| 0 <= j < i ==> (#[trigger] r@[j].0)@
                    == self.routes@[j].spec_key(),
            decreases self.routes@.len() - i,
        {
            let key = make_key(self.routes[i].method.as_str(), self.routes[i].path.as_str());
            let resp = self.routes[i].handler.invoke(&empty_params, None);
            r.push((key, resp));
            i = i + 1;
        }
        r
    }
}

/// Decides whether the pattern segments match a leading run of the path
/// segments.
pub fn segs_match(rsegs: &Vec<String>, psegs: &Vec<String>) -> (b: bool)
    ensures
        b == spec_segs_match(rsegs.deep_view(), psegs.deep_view()),
{
    if rsegs.len() > psegs.len() {
        return false;
    }
    let mut i: usize = 0;
    while i < rsegs.len()
        invariant
            rsegs@.len() <= psegs@.len(),
            i <= rsegs@.len(),
            forall|j: int| 0 <= j < i ==> spec_seg_matches(
                #[trigger] rsegs.deep_view()[j],
                psegs.deep_view()[j],
            ),
        decreases rsegs@.len() - i,
    {
        let ok = is_param_segment(rsegs[i].as_str()) || str_eq(
            rsegs[i].as_str(),
            psegs[i].as_str(),
        );
        if !ok {
            proof {
                assert(!spec_seg_matches(rsegs.deep_view()[i as int], psegs.deep_view()[i as int]));
            }
            return false;
        }
        i = i + 1;
    }
    true
}

/// Checks the route invariant: a well-formed pattern and a declared
/// parameter list that agrees with it.
pub fn check_route_wf<H>(route: &Route<H>) -> (b: bool)
    ensures
        b == route.wf(),
{
    let segs = split_path(route.path.as_str());
    let mut i: usize = 0;
    while i < segs.len()
        invariant
            segs.deep_view() == spec_split(route.path@),
            i <= segs.len(),
            forall|j: int| 0 <= j < i ==> crate::route::spec_wf_segment(
                #[trigger] segs.deep_view()[j],
            ),
        decreases segs.len() - i,
    {
        if !check_segment_wf(segs[i].as_str()) {
            proof {
                assert(!crate::route::spec_wf_segment(spec_split(route.path@)[i as int]));
                assert(!crate::route::spec_wf_pattern(route.path@));
            }
            return false;
        }
        i = i + 1;
    }
    let names = extract_params_from_path(route.path.as_str());
    if names.len() != route.params.len() {
        proof {
            assert(names.deep_view().len() == names@.len());
            assert(route.params.deep_view().len() == route.params@.len());
        }
        return false;
    }
    let mut k: usize = 0;
    while k < names.len()
        invariant
            names.deep_view() == crate::route::spec_params_of(route.path@),
            names@.len() == route.params@.len(),
            k <= names.len(),
            forall|j: int| 0 <= j < spec_split(route.path@).len() ==> crate::route::spec_wf_segment(
                #[trigger] spec_split(route.path@)[j],
            ),
            forall|j: int| 0 <= j < k ==> names.deep_view()[j] == route.params.deep_view()[j],
        decreases names.len() - k,
    {
        if !str_eq(names[k].as_str(), route.params[k].as_str()) {
            proof {
                assert(names.deep_view()[k as int] != route.params.deep_view()[k as int]);
            }
            return false;
        }
        k = k + 1;
    }
    // The declared list equals the computed one; name uniqueness remains.
    proof {
        assert(names.deep_view() =~= route.params.deep_view());
    }
    let mut x: usize = 0;
    while x < names.len()
        invariant
            names.deep_view() == crate::route::spec_params_of(route.path@),
            names.deep_view() == route.params.deep_view(),
            x <= names.len(),
            forall|j: int| 0 <= j < spec_split(route.path@).len() ==> crate::route::spec_wf_segment(
                #[trigger] spec_split(route.path@)[j],
            ),
            forall|i1: int, j1: int|
                0 <= i1 < j1 < x ==> names.deep_view()[i1] != names.deep_view()[j1],
        decreases names.len() - x,
    {
        let mut y: usize = 0;
        while y < x
            invariant
                names.deep_view() == crate::route::spec_params_of(route.path@),
                names.deep_view() == route.params.deep_view(),
                y <= x < names.len(),
                forall|j: int| 0 <= j < spec_split(route.path@).len()
                    ==> crate::route::spec_wf_segment(#[trigger] spec_split(route.path@)[j]),
                forall|i1: int, j1: int|
                    0 <= i1 < j1 < x ==> names.deep_view()[i1] != names.deep_view()[j1],
                forall|i1: int| 0 <= i1 < y ==> names.deep_view()[i1] != names.deep_view()[x as int],
            decreases x - y,
        {
            if str_eq(names[y].as_str(), names[x].as_str()) {
                proof {
                    assert(names.deep_view()[y as int] == names.deep_view()[x as int]);
                }
                return false;
            }
            y = y + 1;
        }
        x = x + 1;
    }
    true
}

} // verus!
