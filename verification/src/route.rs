//! The route entity and the path-pattern model.
//!
//! A path pattern is a string of segments separated by `/`. A segment of the
//! form `{name}` is a parameter segment; any other segment is a literal.

use vstd::prelude::*;

verus! {

/// The segments of `s`, split on `/`. The empty string splits into one
/// empty segment, and every `/` contributes a segment boundary, so the
/// result always holds at least one segment.
pub open spec fn spec_split(s: Seq<char>) -> Seq<Seq<char>>
    decreases s.len(),
{
    if s.len() == 0 {
        seq![Seq::<char>::empty()]
    } else if s.last() == '/' {
        spec_split(s.drop_last()).push(Seq::<char>::empty())
    } else {
        let r = spec_split(s.drop_last());
        r.update(r.len() - 1, r.last().push(s.last()))
    }
}

/// A parameter segment: `{` then the parameter name then `}`.
pub open spec fn spec_is_param(seg: Seq<char>) -> bool {
    seg.len() >= 2 && seg.first() == '{' && seg.last() == '}'
}

/// The name of a parameter segment: the segment with its braces trimmed.
pub open spec fn spec_param_name(seg: Seq<char>) -> Seq<char> {
    seg.subrange(1, seg.len() - 1)
}

/// The declared parameter names of a segment sequence, in order.
pub open spec fn spec_params_of_segs(segs: Seq<Seq<char>>) -> Seq<Seq<char>>
    decreases segs.len(),
{
    if segs.len() == 0 {
        Seq::empty()
    } else if spec_is_param(segs.last()) {
        spec_params_of_segs(segs.drop_last()).push(spec_param_name(segs.last()))
    } else {
        spec_params_of_segs(segs.drop_last())
    }
}

/// The declared parameter names of a path pattern, in order.
pub open spec fn spec_params_of(path: Seq<char>) -> Seq<Seq<char>> {
    spec_params_of_segs(spec_split(path))
}

/// A well-formed segment either holds no brace at all, or is a parameter
/// segment whose name holds no brace.
pub open spec fn spec_wf_segment(seg: Seq<char>) -> bool {
    if spec_is_param(seg) {
        forall|i: int| 1 <= i < seg.len() - 1 ==> #[trigger] seg[i] != '{' && seg[i] != '}'
    } else {
        forall|i: int| 0 <= i < seg.len() ==> #[trigger] seg[i] != '{' && seg[i] != '}'
    }
}

/// A well-formed pattern: every segment is well formed and the declared
/// parameter names are pairwise distinct.
pub open spec fn spec_wf_pattern(path: Seq<char>) -> bool {
    let segs = spec_split(path);
    &&& forall|i: int| 0 <= i < segs.len() ==> spec_wf_segment(#[trigger] segs[i])
    &&& forall|i: int, j: int|
        0 <= i < j < spec_params_of_segs(segs).len()
            ==> spec_params_of_segs(segs)[i] != spec_params_of_segs(segs)[j]
}

/// Splits a path on `/` into its segments.
pub fn split_path(s: &str) -> (r: Vec<String>)
    ensures
        r.deep_view() == spec_split(s@),
{
    let n = s.unicode_len();
    let mut r: Vec<String> = Vec::new();
    let mut start: usize = 0;
    let mut i: usize = 0;
    proof {
        assert(s@.take(0) =~= Seq::<char>::empty());
        assert(s@.subrange(0, 0) =~= Seq::<char>::empty());
        assert(spec_split(s@.take(0)) =~= r.deep_view().push(s@.subrange(0, 0)));
    }
    while i < n
        invariant
            start <= i <= n,
            n == s@.len(),
            spec_split(s@.take(i as int)) == r.deep_view().push(
                s@.subrange(start as int, i as int),
            ),
        decreases n - i,
    {
        proof {
            assert(s@.take(i + 1).drop_last() =~= s@.take(i as int));
            assert(s@.take(i + 1).last() == s@[i as int]);
        }
        let c = s.get_char(i);
        if c == '/' {
            let seg = String::from_str(s.substring_char(start, i));
            let ghost old_r = r.deep_view();
            r.push(seg);
            proof {
                assert(r.deep_view() =~= old_r.push(seg@));
                assert(s@.subrange(i + 1, i + 1) =~= Seq::<char>::empty());
                assert(spec_split(s@.take(i + 1)) =~= r.deep_view().push(
                    s@.subrange(i + 1, i + 1),
                ));
            }
            start = i + 1;
        } else {
            proof {
                let q = spec_split(s@.take(i as int));
                assert(q.last() == s@.subrange(start as int, i as int));
                assert(q.last().push(s@[i as int]) =~= s@.subrange(start as int, i + 1));
                assert(spec_split(s@.take(i + 1)) =~= r.deep_view().push(
                    s@.subrange(start as int, i + 1),
                ));
            }
        }
        i = i + 1;
    }
    let seg = String::from_str(s.substring_char(start, n));
    let ghost old_r = r.deep_view();
    r.push(seg);
    proof {
        assert(s@.take(n as int) =~= s@);
        assert(r.deep_view() =~= old_r.push(s@.subrange(start as int, n as int)));
    }
    r
}

/// Decides whether a segment is a `{name}` parameter segment.
pub fn is_param_segment(seg: &str) -> (b: bool)
    ensures
        b == spec_is_param(seg@),
{
    let n = seg.unicode_len();
    n >= 2 && seg.get_char(0) == '{' && seg.get_char(n - 1) == '}'
}

/// The name of a parameter segment, with its braces trimmed.
pub fn param_name_of(seg: &str) -> (r: String)
    requires
        spec_is_param(seg@),
    ensures
        r@ == spec_param_name(seg@),
{
    let n = seg.unicode_len();
    String::from_str(seg.substring_char(1, n - 1))
}

/// Collects the `{name}` parameter names declared in a path pattern, in
/// the order of their segments.
pub fn extract_params_from_path(path: &str) -> (r: Vec<String>)
    ensures
        r.deep_view() == spec_params_of(path@),
{
    let segs = split_path(path);
    let mut r: Vec<String> = Vec::new();
    let mut i: usize = 0;
    while i < segs.len()
        invariant
            i <= segs.len(),
            segs.deep_view() == spec_split(path@),
            r.deep_view() == spec_params_of_segs(segs.deep_view().take(i as int)),
        decreases segs.len() - i,
    {
        proof {
            assert(segs.deep_view().take(i + 1).drop_last() =~= segs.deep_view().take(i as int));
            assert(segs.deep_view().take(i + 1).last() == segs.deep_view()[i as int]);
            assert(segs.deep_view()[i as int] == segs@[i as int]@);
        }
        if is_param_segment(segs[i].as_str()) {
            let name = param_name_of(segs[i].as_str());
            let ghost old_r = r.deep_view();
            r.push(name);
            proof {
                assert(r.deep_view() =~= old_r.push(name@));
            }
        }
        i = i + 1;
    }
    proof {
        assert(segs.deep_view().take(segs.deep_view().len() as int) =~= segs.deep_view());
    }
    r
}

/// Decides whether a single segment is well formed.
pub fn check_segment_wf(seg: &str) -> (b: bool)
    ensures
        b == spec_wf_segment(seg@),
{
    let n = seg.unicode_len();
    if is_param_segment(seg) {
        let mut i: usize = 1;
        while i < n - 1
            invariant
                n == seg@.len(),
                spec_is_param(seg@),
                1 <= i <= n - 1,
                forall|j: int| 1 <= j < i ==> #[trigger] seg@[j] != '{' && seg@[j] != '}',
            decreases n - 1 - i,
        {
            let c = seg.get_char(i);
            if c == '{' || c == '}' {
                return false;
            }
            i = i + 1;
        }
        true
    } else {
        let mut i: usize = 0;
        while i < n
            invariant
                n == seg@.len(),
                !spec_is_param(seg@),
                i <= n,
                forall|j: int| 0 <= j < i ==> #[trigger] seg@[j] != '{' && seg@[j] != '}',
            decreases n - i,
        {
            let c = seg.get_char(i);
            if c == '{' || c == '}' {
                return false;
            }
            i = i + 1;
        }
        true
    }
}

/// Character-for-character string equality.
pub fn str_eq(a: &str, b: &str) -> (r: bool)
    ensures
        r == (a@ == b@),
{
    let na = a.unicode_len();
    let nb = b.unicode_len();
    if na != nb {
        return false;
    }
    let mut i: usize = 0;
    while i < na
        invariant
            i <= na,
            na == a@.len(),
            na == b@.len(),
            forall|j: int| 0 <= j < i ==> a@[j] == b@[j],
        decreases na - i,
    {
        if a.get_char(i) != b.get_char(i) {
            return false;
        }
        i = i + 1;
    }
    proof {
        assert(a@ =~= b@);
    }
    true
}

/// `a` is a prefix of `b`.
pub open spec fn spec_is_prefix(a: Seq<char>, b: Seq<char>) -> bool {
    a.len() <= b.len() && a == b.take(a.len() as int)
}

/// Decides whether `a` is a string prefix of `b`.
pub fn is_prefix_str(a: &str, b: &str) -> (r: bool)
    ensures
        r == spec_is_prefix(a@, b@),
{
    let na = a.unicode_len();
    let nb = b.unicode_len();
    if na > nb {
        return false;
    }
    let mut i: usize = 0;
    while i < na
        invariant
            i <= na,
            na == a@.len(),
            nb == b@.len(),
            na <= nb,
            forall|j: int| 0 <= j < i ==> a@[j] == b@.take(na as int)[j],
        decreases na - i,
    {
        if a.get_char(i) != b.get_char(i) {
            proof {
                assert(b@.take(na as int)[i as int] == b@[i as int]);
            }
            return false;
        }
        i = i + 1;
    }
    proof {
        assert(a@ =~= b@.take(na as int));
    }
    true
}

/// The composite registry key of a method and a path: `method:path`.
pub open spec fn spec_route_key(method: Seq<char>, path: Seq<char>) -> Seq<char> {
    method + seq![':'] + path
}

/// The one capability a route handler must offer: given the extracted
/// `(name, value)` parameter pairs and an optional request body, produce
/// the response body.
pub trait Handler {
    fn invoke(&self, params: &Vec<(String, String)>, body: Option<String>) -> String;
}

/// An immutable description of one registered endpoint.
#[derive(Clone)]
pub struct Route<H> {
    /// The HTTP verb, case-sensitive as declared.
    pub method: String,
    /// The path pattern: literal segments and `{name}` parameter segments.
    pub path: String,
    /// The handler invoked when the route is dispatched.
    pub handler: H,
    /// The parameter names declared in `path`, in order.
    pub params: Vec<String>,
    /// Whether the route expects a request body.
    pub has_body: bool,
}

/// Why a route declaration was rejected.
#[derive(Clone, Copy, Debug, PartialEq, Eq, Structural)]
pub enum RouteError {
    /// Some segment of the pattern holds an unmatched `{` or `}`.
    UnmatchedBrace,
    /// Two parameter segments of the pattern declare the same name.
    DuplicateParam,
}

impl<H> Route<H> {
    /// The registry key of this route: `method:path`.
    pub open spec fn spec_key(self) -> Seq<char> {
        spec_route_key(self.method@, self.path@)
    }

    /// A valid route: a well-formed pattern whose declared parameter list
    /// agrees with the parameter segments of the pattern.
    pub open spec fn wf(self) -> bool {
        &&& spec_wf_pattern(self.path@)
        &&& self.params.deep_view() == spec_params_of(self.path@)
    }

    /// Builds a route, rejecting a malformed pattern. The declared
    /// parameter list is computed from the pattern, so the route invariant
    /// holds by construction.
    pub fn new(method: String, path: String, handler: H, has_body: bool) -> (r: Result<
        Route<H>,
        RouteError,
    >)
        ensures
            r is Ok <==> spec_wf_pattern(path@),
            r is Ok ==> ({
                let rt = r.unwrap();
                &&& rt.method == method
                &&& rt.path == path
                &&& rt.handler == handler
                &&& rt.has_body == has_body
                &&& rt.wf()
            }),
            r == Err::<Route<H>, RouteError>(RouteError::UnmatchedBrace) <==> exists|i: int|
                0 <= i < spec_split(path@).len() && !spec_wf_segment(#[trigger] spec_split(path@)[i]),
            r == Err::<Route<H>, RouteError>(RouteError::DuplicateParam) <==> ({
                &&& forall|i: int|
                    0 <= i < spec_split(path@).len() ==> spec_wf_segment(#[trigger] spec_split(path@)[i])
                &&& exists|i: int, j: int|
                    0 <= i < j < spec_params_of(path@).len() && spec_params_of(path@)[i]
                        == spec_params_of(path@)[j]
            }),
    {
        let segs = split_path(path.as_str());
        let mut i: usize = 0;
        while i < segs.len()
            invariant
                segs.deep_view() == spec_split(path@),
                i <= segs.len(),
                forall|j: int| 0 <= j < i ==> spec_wf_segment(#[trigger] segs.deep_view()[j]),
            decreases segs.len() - i,
        {
            if !check_segment_wf(segs[i].as_str()) {
                proof {
                    assert(!spec_wf_segment(spec_split(path@)[i as int]));
                }
                return Err(RouteError::UnmatchedBrace);
            }
            i = i + 1;
        }
        let names = extract_params_from_path(path.as_str());
        let mut k: usize = 0;
        while k < names.len()
            invariant
                names.deep_view() == spec_params_of(path@),
                k <= names.len(),
                forall|i: int|
                    0 <= i < spec_split(path@).len() ==> spec_wf_segment(
                        #[trigger] spec_split(path@)[i],
                    ),
                forall|i: int, j: int|
                    0 <= i < j < k ==> names.deep_view()[i] != names.deep_view()[j],
            decreases names.len() - k,
        {
            let mut j: usize = 0;
            while j < k
                invariant
                    names.deep_view() == spec_params_of(path@),
                    j <= k < names.len(),
                    forall|i: int|
                        0 <= i < spec_split(path@).len() ==> spec_wf_segment(
                            #[trigger] spec_split(path@)[i],
                        ),
                    forall|i1: int, j1: int|
                        0 <= i1 < j1 < k ==> names.deep_view()[i1] != names.deep_view()[j1],
                    forall|i1: int| 0 <= i1 < j ==> names.deep_view()[i1] != names.deep_view()[k as int],
                decreases k - j,
            {
                if str_eq(names[j].as_str(), names[k].as_str()) {
                    proof {
                        assert(names.deep_view()[j as int] == names.deep_view()[k as int]);
                    }
                    return Err(RouteError::DuplicateParam);
                }
                j = j + 1;
            }
            k = k + 1;
        }
        Ok(Route { method, path, handler, params: names, has_body })
    }
}

/// Declares a `GET` route for the given path pattern: no request body is
/// expected.
pub fn get<H>(path: &str, handler: H) -> (r: Result<Route<H>, RouteError>)
    ensures
        r is Ok <==> spec_wf_pattern(path@),
        r is Ok ==> ({
            let rt = r.unwrap();
            &&& rt.method@ == "GET"@
            &&& rt.path@ == path@
            &&& rt.handler == handler
            &&& !rt.has_body
            &&& rt.wf()
        }),
{
    Route::new(String::from_str("GET"), String::from_str(path), handler, false)
}

/// Declares a `POST` route for the given path pattern: a request body is
/// expected.
pub fn post<H>(path: &str, handler: H) -> (r: Result<Route<H>, RouteError>)
    ensures
        r is Ok <==> spec_wf_pattern(path@),
        r is Ok ==> ({
            let rt = r.unwrap();
            &&& rt.method@ == "POST"@
            &&& rt.path@ == path@
            &&& rt.handler == handler
            &&& rt.has_body
            &&& rt.wf()
        }),
{
    Route::new(String::from_str("POST"), String::from_str(path), handler, true)
}

} // verus!
