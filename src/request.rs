use vstd::prelude::*;
use crate::json::{Json, canonical_json, rendered};
use crate::query::{sort_pairs, sorted_by_key};
use crate::url::{build_url, built_url, pairs_view};
use crate::value_name::{Index, ValueName, extract};

verus! {

/// The HTTP method of a request.
#[derive(Debug)]
pub enum Method {
    Get,
    Post,
}

impl Method {
    pub fn copy(&self) -> (r: Method)
        ensures
            r == *self,
    {
        match self {
            Method::Get => Method::Get,
            Method::Post => Method::Post,
        }
    }
}

/// A value that a request puts into its URL: a constant, or the value of
/// another named request.
#[derive(Debug)]
pub enum RequestArgument {
    Ref(String),
    Const(Json),
}

/// One named HTTP request: its method, URL template, path segments, query
/// parameters (they go into the query sorted by key) and the path of the
/// value taken from its response.
#[derive(Debug)]
pub struct Request {
    pub method: Method,
    pub path: Vec<RequestArgument>,
    pub params: Vec<(String, RequestArgument)>,
    pub url: String,
    pub value_name: ValueName,
}

/// No two query parameters share a key.
pub open spec fn keys_distinct(params: Seq<(String, RequestArgument)>) -> bool {
    forall|i: int, j: int| 0 <= i < j < params.len() ==> #[trigger] params[i].0@ != #[trigger] params[j].0@
}

impl Request {
    pub fn new(
        method: Method,
        path: Vec<RequestArgument>,
        params: Vec<(String, RequestArgument)>,
        url: &str,
        value_name: ValueName,
    ) -> (r: Request)
        requires
            keys_distinct(params@),
        ensures
            r.method == method,
            r.path == path,
            r.params == params,
            r.url@ == url@,
            r.value_name == value_name,
    {
        Request { method, path, params, url: String::from_str(url), value_name }
    }

    pub fn value_name(&self) -> (r: &ValueName)
        ensures
            *r == self.value_name,
    {
        &self.value_name
    }
}

/// Where resolution stands: the value, or the request that has to be sent
/// before it can go on.
#[derive(Debug)]
pub enum Progress<T> {
    Done(T),
    Fetch(Method, String),
}

/// Why a name could not be resolved.
#[derive(Debug)]
pub enum ResolveError {
    /// No request of that name, and no value set for it.
    UndefinedRequest(String),
    /// The selector of the value path that found nothing in the response.
    KeyNotFound(Index),
    /// The URL, before its query, that did not parse.
    UrlBuildError(String),
    /// The name was reached again while it was being resolved.
    CycleDetected(String),
    /// The body of the response to this URL is no JSON.
    JsonDecodeError(String),
}

impl ResolveError {
    pub fn copy(&self) -> (r: ResolveError)
        ensures
            r == *self,
    {
        match self {
            ResolveError::UndefinedRequest(n) => ResolveError::UndefinedRequest(n.clone()),
            ResolveError::KeyNotFound(i) => ResolveError::KeyNotFound(i.copy()),
            ResolveError::UrlBuildError(u) => ResolveError::UrlBuildError(u.clone()),
            ResolveError::CycleDetected(n) => ResolveError::CycleDetected(n.clone()),
            ResolveError::JsonDecodeError(u) => ResolveError::JsonDecodeError(u.clone()),
        }
    }
}

/// The entry last stored under `k`.
pub open spec fn lookup<T>(s: Seq<(String, T)>, k: Seq<char>) -> Option<T>
    decreases s.len(),
{
    if s.len() == 0 {
        None
    } else if s.last().0@ == k {
        Some(s.last().1)
    } else {
        lookup(s.drop_last(), k)
    }
}

/// The JSON text last stored under `k`.
pub open spec fn text_at(s: Seq<(String, Json)>, k: Seq<char>) -> Option<Seq<char>> {
    match lookup(s, k) {
        Some(j) => Some(j@),
        None => None,
    }
}

/// Every key of `before` keeps its entry in `after`.
pub open spec fn keeps(before: Seq<(String, Json)>, after: Seq<(String, Json)>) -> bool {
    forall|k: Seq<char>| #[trigger] lookup(before, k) is Some ==> lookup(after, k) == lookup(before, k)
}

/// The text that an argument puts into a URL, where it is a constant or
/// refers to a value that `data` holds.
pub open spec fn arg_text(a: RequestArgument, data: Seq<(String, Json)>) -> Seq<char> {
    match a {
        RequestArgument::Const(j) => rendered(j@),
        RequestArgument::Ref(n) => match text_at(data, n@) {
            Some(v) => rendered(v),
            None => Seq::empty(),
        },
    }
}

/// The argument is a constant or refers to a value that `data` holds.
pub open spec fn arg_ready(a: RequestArgument, data: Seq<(String, Json)>) -> bool {
    match a {
        RequestArgument::Const(_) => true,
        RequestArgument::Ref(n) => text_at(data, n@) is Some,
    }
}

/// Every argument of the request is ready.
pub open spec fn ready(q: Request, data: Seq<(String, Json)>) -> bool {
    &&& forall|i: int| 0 <= i < q.path.len() ==> arg_ready(#[trigger] q.path@[i], data)
    &&& forall|i: int| 0 <= i < q.params.len() ==> arg_ready(#[trigger] q.params@[i].1, data)
}

/// The URL of a request whose arguments are ready: the template, the path
/// segments, and the query pairs sorted by key.
pub open spec fn request_url(q: Request, data: Seq<(String, Json)>) -> Option<Seq<char>> {
    built_url(
        q.url@,
        q.path@.map_values(|a: RequestArgument| arg_text(a, data)),
        sorted_by_key(q.params@.map_values(|p: (String, RequestArgument)| (p.0@, arg_text(p.1, data)))),
    )
}

/// What resolving a request whose arguments are ready gives, with the
/// resolved values `data` and the responses `cache` at hand.
pub open spec fn ready_outcome(
    q: Request,
    data: Seq<(String, Json)>,
    cache: Seq<(String, Json)>,
    r: Result<Progress<Json>, ResolveError>,
) -> bool {
    match request_url(q, data) {
        None => r matches Err(ResolveError::UrlBuildError(x)) && x@ == q.url@,
        Some(u) => match text_at(cache, u) {
            None => r matches Ok(Progress::Fetch(m, x)) && m == q.method && x@ == u,
            Some(resp) => match extract(q.value_name.path(), resp) {
                Ok(v) => r matches Ok(Progress::Done(w)) && w@ == v,
                Err(e) => r matches Err(ResolveError::KeyNotFound(x)) && x@ == e,
            },
        },
    }
}

/// The position of the entry last stored under `k`.
fn find<T>(s: &Vec<(String, T)>, k: &String) -> (r: Option<usize>)
    ensures
        r matches Some(i) ==> i < s.len() && lookup(s@, k@) == Some(s@[i as int].1),
        r is None ==> lookup(s@, k@) is None,
{
    let mut i: usize = s.len();
    proof {
        assert(s@.subrange(0, i as int) =~= s@);
    }
    while i > 0
        invariant
            i <= s.len(),
            lookup(s@, k@) == lookup(s@.subrange(0, i as int), k@),
        decreases i,
    {
        let ghost pre = s@.subrange(0, i as int);
        proof {
            assert(pre.drop_last() =~= s@.subrange(0, i - 1));
        }
        if s[i - 1].0 == *k {
            return Some(i - 1);
        }
        i = i - 1;
    }
    None
}

/// The memo of resolved values by name and the responses by URL.
#[derive(Debug)]
pub struct Memo {
    pub data: Vec<(String, Json)>,
    pub cache: Vec<(String, Json)>,
}

proof fn lemma_push_keeps(s: Seq<(String, Json)>, e: (String, Json))
    requires
        lookup(s, e.0@) is None,
    ensures
        keeps(s, s.push(e)),
        lookup(s.push(e), e.0@) == Some(e.1),
{
    assert(s.push(e).drop_last() =~= s);
    assert forall|k: Seq<char>| #[trigger] lookup(s, k) is Some implies lookup(s.push(e), k) == lookup(s, k) by {
        assert(s.push(e).drop_last() =~= s);
    }
}

proof fn lemma_keeps_trans(a: Seq<(String, Json)>, b: Seq<(String, Json)>, c: Seq<(String, Json)>)
    requires
        keeps(a, b),
        keeps(b, c),
    ensures
        keeps(a, c),
{
    assert forall|k: Seq<char>| #[trigger] lookup(a, k) is Some implies lookup(c, k) == lookup(a, k) by {
        assert(lookup(b, k) is Some);
    }
}

/// The names whose resolution is under way.
pub open spec fn on_stack(stack: Seq<String>, k: Seq<char>) -> bool {
    stack.map_values(|x: String| x@).contains(k)
}

/// What resolving `name` with the definitions `defs`, at most `depth`
/// levels of references and the names `stack` under way does to the memo, going from `before` to `after`,
/// and gives as `r`.
pub open spec fn resolves(
    defs: Seq<(String, Request)>,
    before: Memo,
    after: Memo,
    name: Seq<char>,
    depth: nat,
    stack: Seq<String>,
    r: Result<Progress<Json>, ResolveError>,
) -> bool {
    &&& keeps(before.data@, after.data@)
    &&& after.cache == before.cache
    &&& r matches Ok(Progress::Fetch(_, u)) ==> text_at(after.cache@, u@) is None
    &&& r matches Ok(Progress::Done(v)) ==> text_at(after.data@, name) == Some(v@)
    &&& text_at(before.data@, name) matches Some(v) ==> (r matches Ok(Progress::Done(w)) && w@ == v
        && after == before)
    &&& (text_at(before.data@, name) is None && lookup(defs, name) is None) ==> (r matches Err(
        ResolveError::UndefinedRequest(n),
    ) && n@ == name && after == before)
    &&& (text_at(before.data@, name) is None && lookup(defs, name) is Some && (depth == 0 || on_stack(
        stack,
        name,
    ))) ==> (r matches Err(ResolveError::CycleDetected(n)) && n@ == name && after == before)
    &&& text_at(before.data@, name) is None ==> (!(r matches Ok(Progress::Done(_))) ==> text_at(
        after.data@,
        name,
    ) is None)
    &&& text_at(before.data@, name) is None ==> (r matches Ok(Progress::Done(v)) ==> (lookup(defs, name) matches Some(
        q,
    ) && taken_from_own_url(q, after.data@, after.cache@, v@)))
    &&& text_at(before.data@, name) is None ==> (r matches Ok(Progress::Fetch(m, x)) ==> (lookup(defs, name) matches Some(
        q,
    ) && (!ready(q, after.data@) || (request_url(q, after.data@) == Some(x@) && m == q.method))))
    &&& (text_at(before.data@, name) is None && depth > 0 && !on_stack(stack, name)) ==> (r is Err ==> (lookup(
        defs,
        name,
    ) matches Some(q) ==> (!ready(q, after.data@) || own_failure(q, after.data@, after.cache@, r))))
    &&& (text_at(before.data@, name) is None && depth > 0 && !on_stack(stack, name)) ==> (lookup(defs, name) matches Some(q) ==> (ready(
        q,
        before.data@,
    ) ==> ready_outcome(q, before.data@, before.cache@, r)))
}

/// The request is ready, and `v` is what its value path takes from the
/// response stored for its URL.
pub open spec fn taken_from_own_url(
    q: Request,
    data: Seq<(String, Json)>,
    cache: Seq<(String, Json)>,
    v: Seq<char>,
) -> bool {
    &&& ready(q, data)
    &&& match request_url(q, data) {
        Some(u) => match text_at(cache, u) {
            Some(resp) => extract(q.value_name.path(), resp) == Ok::<Seq<char>, crate::value_name::Selector>(v),
            None => false,
        },
        None => false,
    }
}

/// The request is ready and fails by itself: its URL does not build, or its
/// value path finds nothing in the response stored for that URL.
pub open spec fn own_failure(
    q: Request,
    data: Seq<(String, Json)>,
    cache: Seq<(String, Json)>,
    r: Result<Progress<Json>, ResolveError>,
) -> bool {
    match request_url(q, data) {
        None => r matches Err(ResolveError::UrlBuildError(x)) && x@ == q.url@,
        Some(u) => match text_at(cache, u) {
            Some(resp) => match extract(q.value_name.path(), resp) {
                Err(e) => r matches Err(ResolveError::KeyNotFound(x)) && x@ == e,
                Ok(_) => false,
            },
            None => false,
        },
    }
}

/// `r` is `r2` with a resolved value rendered as URL text.
pub open spec fn rendered_result(
    r: Result<Progress<String>, ResolveError>,
    r2: Result<Progress<Json>, ResolveError>,
) -> bool {
    match (r, r2) {
        (Ok(Progress::Done(s)), Ok(Progress::Done(v))) => s@ == rendered(v@),
        (Ok(Progress::Fetch(m, u)), Ok(Progress::Fetch(m2, u2))) => m == m2 && u == u2,
        (Err(e), Err(e2)) => e == e2,
        _ => false,
    }
}

/// What evaluating `arg` does, from `before` to `after`, and gives as `r`: a
/// constant renders at once; a reference is resolved and its value rendered.
pub open spec fn evaluates(
    defs: Seq<(String, Request)>,
    before: Memo,
    after: Memo,
    arg: RequestArgument,
    depth: nat,
    stack: Seq<String>,
    r: Result<Progress<String>, ResolveError>,
) -> bool {
    match arg {
        RequestArgument::Const(j) => r matches Ok(Progress::Done(s)) && s@ == rendered(j@) && after == before,
        RequestArgument::Ref(n) => exists|r2: Result<Progress<Json>, ResolveError>|
            #[trigger] resolves(defs, before, after, n@, depth, stack, r2) && rendered_result(r, r2),
    }
}

proof fn lemma_ready_kept(a: RequestArgument, d1: Seq<(String, Json)>, d2: Seq<(String, Json)>)
    requires
        arg_ready(a, d1),
        keeps(d1, d2),
    ensures
        arg_ready(a, d2),
        arg_text(a, d2) == arg_text(a, d1),
{
    if let RequestArgument::Ref(n) = a {
        assert(lookup(d1, n@) is Some);
    }
}

proof fn lemma_eval_step(
    defs: Seq<(String, Request)>,
    m1: Memo,
    m2: Memo,
    a: RequestArgument,
    d: nat,
    stack: Seq<String>,
    r: Result<Progress<String>, ResolveError>,
)
    requires
        evaluates(defs, m1, m2, a, d, stack, r),
    ensures
        keeps(m1.data@, m2.data@),
        m2.cache == m1.cache,
        r matches Ok(Progress::Done(s)) ==> arg_ready(a, m2.data@) && arg_text(a, m2.data@) == s@,
        arg_ready(a, m1.data@) ==> (m2 == m1 && r matches Ok(Progress::Done(_))),
        r matches Ok(Progress::Fetch(_, u)) ==> text_at(m2.cache@, u@) is None,
        r matches Ok(Progress::Fetch(_, _)) ==> !arg_ready(a, m2.data@),
        r is Err ==> !arg_ready(a, m2.data@),
{
    match a {
        RequestArgument::Const(_) => {
            assert forall|k: Seq<char>| #[trigger] lookup(m1.data@, k) is Some implies lookup(m2.data@, k) == lookup(m1.data@, k) by {}
        },
        RequestArgument::Ref(n) => {
            let r2 = choose|r2: Result<Progress<Json>, ResolveError>| #[trigger] resolves(defs, m1, m2, n@, d, stack, r2)
                && rendered_result(r, r2);
        },
    }
}

proof fn lemma_stack_grows(s: Seq<String>, name: String, k: Seq<char>)
    requires
        on_stack(s, k),
    ensures
        on_stack(s.push(name), k),
{
    let sv = s.map_values(|x: String| x@);
    assert(s.push(name).map_values(|x: String| x@) =~= sv.push(name@));
    let j = choose|j: int| 0 <= j < sv.len() && sv[j] == k;
    assert(sv.push(name@)[j] == k);
}

/// Whether `name` is on the stack.
fn stack_holds(stack: &Vec<String>, name: &String) -> (r: bool)
    ensures
        r == on_stack(stack@, name@),
{
    let ghost sv = stack@.map_values(|x: String| x@);
    let mut i: usize = 0;
    while i < stack.len()
        invariant
            i <= stack.len(),
            sv == stack@.map_values(|x: String| x@),
            forall|j: int| 0 <= j < i ==> sv[j] != name@,
        decreases stack.len() - i,
    {
        if stack[i] == *name {
            assert(sv[i as int] == name@);
            return true;
        }
        i = i + 1;
    }
    false
}

/// Renders an argument: a constant at once, a reference by resolving its name.
fn eval_in(
    defs: &Vec<(String, Request)>,
    memo: &mut Memo,
    stack: &mut Vec<String>,
    arg: &RequestArgument,
    depth: usize,
) -> (r: Result<Progress<String>, ResolveError>)
    ensures
        evaluates(defs@, *old(memo), *final(memo), *arg, depth as nat, old(stack)@, r),
        final(stack)@ == old(stack)@,
        forall|k: Seq<char>| on_stack(old(stack)@, k) && text_at(old(memo).data@, k) is None ==> #[trigger] text_at(
            final(memo).data@,
            k,
        ) is None,
    decreases depth, 1usize,
{
    match arg {
        RequestArgument::Const(j) => Ok(Progress::Done(j.render())),
        RequestArgument::Ref(n) => {
            let r2 = resolve_in(defs, memo, stack, n, depth);
            let r = match &r2 {
                Ok(Progress::Done(v)) => Ok(Progress::Done(v.render())),
                Ok(Progress::Fetch(m, u)) => Ok(Progress::Fetch(m.copy(), u.clone())),
                Err(e) => Err(e.copy()),
            };
            assert(resolves(defs@, *old(memo), *memo, n@, depth as nat, old(stack)@, r2) && rendered_result(r, r2));
            r
        },
    }
}

/// Resolves `name` as far as the responses at hand allow, within `depth`
/// levels of references; `stack` holds the names under way, which are not
/// memoized meanwhile.
fn resolve_in(
    defs: &Vec<(String, Request)>,
    memo: &mut Memo,
    stack: &mut Vec<String>,
    name: &String,
    depth: usize,
) -> (r: Result<Progress<Json>, ResolveError>)
    ensures
        resolves(defs@, *old(memo), *final(memo), name@, depth as nat, old(stack)@, r),
        final(stack)@ == old(stack)@,
        forall|k: Seq<char>| on_stack(old(stack)@, k) && text_at(old(memo).data@, k) is None ==> #[trigger] text_at(
            final(memo).data@,
            k,
        ) is None,
    decreases depth, 0usize,
{
    match find(&memo.data, name) {
        Some(i) => {
            return Ok(Progress::Done(memo.data[i].1.copy()));
        },
        None => {},
    }
    let qi = match find(defs, name) {
        Some(qi) => qi,
        None => {
            return Err(ResolveError::UndefinedRequest(name.clone()));
        },
    };
    if depth == 0 || stack_holds(stack, name) {
        return Err(ResolveError::CycleDetected(name.clone()));
    }
    let q = &defs[qi].1;
    let ghost start = *memo;
    let ghost start_stack = stack@;
    stack.push(name.clone());
    proof {
        assert(stack@.map_values(|x: String| x@)[start_stack.len() as int] == name@);
    }
    let mut segments: Vec<String> = Vec::new();
    let mut i: usize = 0;
    while i < q.path.len()
        invariant
            keeps(start.data@, memo.data@),
            memo.cache == start.cache,
            text_at(memo.data@, name@) is None,
            start == *old(memo),
            depth > 0,
            stack@ == start_stack.push(*name),
            on_stack(stack@, name@),
            !on_stack(start_stack, name@),
            start_stack == old(stack)@,
            forall|k: Seq<char>| on_stack(start_stack, k) && text_at(start.data@, k) is None ==> #[trigger] text_at(
                memo.data@,
                k,
            ) is None,
            lookup(defs@, name@) == Some(defs@[qi as int].1),
            *q == defs@[qi as int].1,
            i <= q.path.len(),
            ready(*q, start.data@) ==> *memo == start,
            forall|k: int| 0 <= k < i ==> arg_ready(#[trigger] q.path@[k], memo.data@),
            segments.len() == i,
            forall|k: int| 0 <= k < i ==> #[trigger] segments@[k]@ == arg_text(q.path@[k], memo.data@),
        decreases q.path.len() - i,
    {
        let ghost mid = *memo;
        let step = eval_in(defs, memo, stack, &q.path[i], depth - 1);
        proof {
            lemma_eval_step(defs@, mid, *memo, q.path@[i as int], (depth - 1) as nat, stack@, step);
            lemma_keeps_trans(start.data@, mid.data@, memo.data@);
            assert forall|k: Seq<char>| on_stack(start_stack, k) && text_at(start.data@, k) is None implies #[trigger] text_at(
                memo.data@,
                k,
            ) is None by {
                lemma_stack_grows(start_stack, *name, k);
            }
            assert forall|k: int| 0 <= k < i implies arg_ready(#[trigger] q.path@[k], memo.data@)
                && arg_text(q.path@[k], memo.data@) == arg_text(q.path@[k], mid.data@) by {
                lemma_ready_kept(q.path@[k], mid.data@, memo.data@);
            }
            if ready(*q, start.data@) {
                assert(arg_ready(q.path@[i as int], mid.data@));
            }
        }
        match step {
            Ok(Progress::Done(s)) => {
                let ghost before = segments@;
                segments.push(s);
            },
            Ok(Progress::Fetch(m, u)) => {
                stack.pop();
                proof {
                    assert(stack@ =~= start_stack);
                }
                proof {
                    assert(!ready(*q, memo.data@));
                }
                return Ok(Progress::Fetch(m, u));
            },
            Err(e) => {
                stack.pop();
                proof {
                    assert(stack@ =~= start_stack);
                    assert(!ready(*q, memo.data@));
                }
                return Err(e);
            },
        }
        i = i + 1;
    }
    let ghost seg_data = memo.data@;
    let mut pairs: Vec<(String, String)> = Vec::new();
    let mut i: usize = 0;
    while i < q.params.len()
        invariant
            keeps(start.data@, memo.data@),
            keeps(seg_data, memo.data@),
            memo.cache == start.cache,
            text_at(memo.data@, name@) is None,
            start == *old(memo),
            depth > 0,
            stack@ == start_stack.push(*name),
            on_stack(stack@, name@),
            !on_stack(start_stack, name@),
            start_stack == old(stack)@,
            forall|k: Seq<char>| on_stack(start_stack, k) && text_at(start.data@, k) is None ==> #[trigger] text_at(
                memo.data@,
                k,
            ) is None,
            lookup(defs@, name@) == Some(defs@[qi as int].1),
            *q == defs@[qi as int].1,
            i <= q.params.len(),
            ready(*q, start.data@) ==> *memo == start,
            forall|k: int| 0 <= k < q.path.len() ==> arg_ready(#[trigger] q.path@[k], memo.data@),
            segments.len() == q.path.len(),
            forall|k: int| 0 <= k < q.path.len() ==> #[trigger] segments@[k]@ == arg_text(q.path@[k], memo.data@),
            forall|k: int| 0 <= k < i ==> arg_ready(#[trigger] q.params@[k].1, memo.data@),
            pairs.len() == i,
            forall|k: int| 0 <= k < i ==> #[trigger] pairs@[k].0@ == q.params@[k].0@ && pairs@[k].1@ == arg_text(
                q.params@[k].1,
                memo.data@,
            ),
        decreases q.params.len() - i,
    {
        let ghost mid = *memo;
        let step = eval_in(defs, memo, stack, &q.params[i].1, depth - 1);
        proof {
            lemma_eval_step(defs@, mid, *memo, q.params@[i as int].1, (depth - 1) as nat, stack@, step);
            lemma_keeps_trans(start.data@, mid.data@, memo.data@);
            lemma_keeps_trans(seg_data, mid.data@, memo.data@);
            assert forall|k: Seq<char>| on_stack(start_stack, k) && text_at(start.data@, k) is None implies #[trigger] text_at(
                memo.data@,
                k,
            ) is None by {
                lemma_stack_grows(start_stack, *name, k);
            }
            assert forall|k: int| 0 <= k < q.path.len() implies arg_ready(#[trigger] q.path@[k], memo.data@)
                && arg_text(q.path@[k], memo.data@) == arg_text(q.path@[k], mid.data@) by {
                lemma_ready_kept(q.path@[k], mid.data@, memo.data@);
            }
            assert forall|k: int| 0 <= k < i implies arg_ready(#[trigger] q.params@[k].1, memo.data@)
                && arg_text(q.params@[k].1, memo.data@) == arg_text(q.params@[k].1, mid.data@) by {
                lemma_ready_kept(q.params@[k].1, mid.data@, memo.data@);
            }
            if ready(*q, start.data@) {
                assert(arg_ready(q.params@[i as int].1, mid.data@));
            }
        }
        match step {
            Ok(Progress::Done(s)) => {
                let ghost before = pairs@;
                let k = q.params[i].0.clone();
                pairs.push((k, s));
            },
            Ok(Progress::Fetch(m, u)) => {
                stack.pop();
                proof {
                    assert(stack@ =~= start_stack);
                }
                proof {
                    assert(!ready(*q, memo.data@));
                }
                return Ok(Progress::Fetch(m, u));
            },
            Err(e) => {
                stack.pop();
                proof {
                    assert(stack@ =~= start_stack);
                    assert(!ready(*q, memo.data@));
                }
                return Err(e);
            },
        }
        i = i + 1;
    }
    stack.pop();
    proof {
        assert(stack@ =~= start_stack);
        assert(segments@.map_values(|x: String| x@) =~= q.path@.map_values(|a: RequestArgument| arg_text(a, memo.data@)));
        assert(pairs_view(pairs@) =~= q.params@.map_values(
            |p: (String, RequestArgument)| (p.0@, arg_text(p.1, memo.data@)),
        ));
    }
    let pairs = sort_pairs(pairs);
    let url = match build_url(q.url.as_str(), &segments, &pairs) {
        Some(u) => u,
        None => {
            return Err(ResolveError::UrlBuildError(q.url.clone()));
        },
    };
    let ci = match find(&memo.cache, &url) {
        Some(ci) => ci,
        None => {
            return Ok(Progress::Fetch(q.method.copy(), url));
        },
    };
    match q.value_name.parse(&memo.cache[ci].1) {
        Ok(v) => {
            let ghost before = memo.data@;
            let entry = (name.clone(), v.copy());
            let ghost e = entry;
            memo.data.push(entry);
            proof {
                lemma_push_keeps(before, e);
                lemma_keeps_trans(start.data@, before, memo.data@);
                assert forall|k: int| 0 <= k < q.path.len() implies arg_ready(#[trigger] q.path@[k], memo.data@)
                    && arg_text(q.path@[k], memo.data@) == arg_text(q.path@[k], before) by {
                    lemma_ready_kept(q.path@[k], before, memo.data@);
                }
                assert forall|k: int| 0 <= k < q.params.len() implies arg_ready(#[trigger] q.params@[k].1, memo.data@)
                    && arg_text(q.params@[k].1, memo.data@) == arg_text(q.params@[k].1, before) by {
                    lemma_ready_kept(q.params@[k].1, before, memo.data@);
                }
                assert(q.path@.map_values(|a: RequestArgument| arg_text(a, memo.data@)) =~= q.path@.map_values(
                    |a: RequestArgument| arg_text(a, before),
                ));
                assert(q.params@.map_values(|p: (String, RequestArgument)| (p.0@, arg_text(p.1, memo.data@)))
                    =~= q.params@.map_values(|p: (String, RequestArgument)| (p.0@, arg_text(p.1, before))));
                assert(text_at(memo.cache@, url@) matches Some(resp) && extract(q.value_name.path(), resp)
                    == Ok::<Seq<char>, crate::value_name::Selector>(v@));
                assert forall|k: Seq<char>| on_stack(start_stack, k) && text_at(start.data@, k) is None implies #[trigger] text_at(
                    memo.data@,
                    k,
                ) is None by {
                    assert(memo.data@.drop_last() =~= before);
                    assert(memo.data@.last().0@ == name@);
                    if k == name@ {
                        assert(on_stack(start_stack, name@));
                    } else {
                        assert(text_at(before, k) is None);
                        assert(lookup(memo.data@, k) == lookup(before, k));
                    }
                }
            }
            Ok(Progress::Done(v))
        },
        Err(e) => Err(ResolveError::KeyNotFound(e)),
    }
}

/// A value stays memoized through any later change that keeps the memo's
/// entries: resolving a name again gives the value it gave before.
pub proof fn lemma_memo_persists(
    before: Seq<(String, Json)>,
    after: Seq<(String, Json)>,
    name: Seq<char>,
    v: Seq<char>,
)
    requires
        text_at(before, name) == Some(v),
        keeps(before, after),
    ensures
        text_at(after, name) == Some(v),
{
    assert(lookup(before, name) is Some);
}

/// A request whose URL has a stored response is not sent again: any other
/// name whose URL comes out the same shares that response, and so does the
/// same name after its value was forgotten.
pub proof fn lemma_stored_url_is_not_fetched(
    q: Request,
    data: Seq<(String, Json)>,
    cache: Seq<(String, Json)>,
    u: Seq<char>,
    r: Result<Progress<Json>, ResolveError>,
)
    requires
        request_url(q, data) == Some(u),
        text_at(cache, u) is Some,
        ready_outcome(q, data, cache, r),
    ensures
        !(r matches Ok(Progress::Fetch(_, _))),
{
}

/// Resolution never asks again for a URL whose response is stored: a second
/// name whose URL comes out the same shares the one request.
pub proof fn lemma_no_fetch_of_stored_url(
    defs: Seq<(String, Request)>,
    before: Memo,
    after: Memo,
    name: Seq<char>,
    depth: nat,
    stack: Seq<String>,
    u: Seq<char>,
    r: Result<Progress<Json>, ResolveError>,
)
    requires
        resolves(defs, before, after, name, depth, stack, r),
        text_at(before.cache@, u) is Some,
    ensures
        !(r matches Ok(Progress::Fetch(_, x)) && x@ == u),
{
}

/// With no stored responses, a request whose URL builds is sent.
pub proof fn lemma_empty_cache_fetches(
    q: Request,
    data: Seq<(String, Json)>,
    cache: Seq<(String, Json)>,
    u: Seq<char>,
    r: Result<Progress<Json>, ResolveError>,
)
    requires
        cache.len() == 0,
        request_url(q, data) == Some(u),
        ready_outcome(q, data, cache, r),
    ensures
        r matches Ok(Progress::Fetch(m, x)) && m == q.method && x@ == u,
{
}

/// The request definitions and the two memo layers: resolved values by name,
/// and decoded responses by URL.
#[derive(Debug)]
pub struct ResponsePool {
    pub memo: Memo,
    pub request: Vec<(String, Request)>,
}

impl ResponsePool {
    pub fn new(request: Vec<(String, Request)>) -> (r: ResponsePool)
        ensures
            r.request == request,
            r.memo.data@.len() == 0,
            r.memo.cache@.len() == 0,
    {
        ResponsePool { memo: Memo { data: Vec::new(), cache: Vec::new() }, request }
    }

    /// Forgets every resolved value; the responses stay.
    pub fn clear_data(&mut self)
        ensures
            final(self).memo.data@.len() == 0,
            final(self).memo.cache == old(self).memo.cache,
            final(self).request == old(self).request,
    {
        self.memo.data.clear();
    }

    /// Forgets every response; the resolved values stay.
    pub fn clear_cache(&mut self)
        ensures
            final(self).memo.cache@.len() == 0,
            final(self).memo.data == old(self).memo.data,
            final(self).request == old(self).request,
    {
        self.memo.cache.clear();
    }

    /// Sets the value of `name`, in place of any it had.
    pub fn set_data_value(&mut self, name: &str, value: Json)
        ensures
            text_at(final(self).memo.data@, name@) == Some(value@),
            forall|k: Seq<char>| k != name@ ==> #[trigger] lookup(final(self).memo.data@, k) == lookup(old(self).memo.data@, k),
            final(self).memo.cache == old(self).memo.cache,
            final(self).request == old(self).request,
    {
        let ghost before = self.memo.data@;
        self.memo.data.push((String::from_str(name), value));
        proof {
            assert(self.memo.data@.drop_last() =~= before);
        }
    }

    /// The value of `name`, if it is resolved or was set.
    pub fn data_value(&self, name: &str) -> (r: Option<Json>)
        ensures
            r matches Some(j) ==> text_at(self.memo.data@, name@) == Some(j@),
            r is None ==> text_at(self.memo.data@, name@) is None,
    {
        let key = String::from_str(name);
        match find(&self.memo.data, &key) {
            Some(i) => Some(self.memo.data[i].1.copy()),
            None => None,
        }
    }

    /// Renders an argument: a constant as it stands, a reference by
    /// resolving its name as `get` does.
    pub fn eval(&mut self, v: &RequestArgument) -> (r: Result<Progress<String>, ResolveError>)
        ensures
            final(self).request == old(self).request,
            evaluates(old(self).request@, old(self).memo, final(self).memo, *v, old(self).request.len() as nat, Seq::empty(), r),
            keeps(old(self).memo.data@, final(self).memo.data@),
            final(self).memo.cache == old(self).memo.cache,
            r matches Ok(Progress::Fetch(_, u)) ==> text_at(final(self).memo.cache@, u@) is None,
            v matches RequestArgument::Const(j) ==> (r matches Ok(Progress::Done(s)) && s@ == rendered(j@)
                && *final(self) == *old(self)),
            v matches RequestArgument::Ref(n) ==> (text_at(old(self).memo.data@, n@) matches Some(x) ==> (
                r matches Ok(Progress::Done(s)) && s@ == rendered(x) && *final(self) == *old(self))),
            v matches RequestArgument::Ref(n) ==> (r matches Ok(Progress::Done(s)) ==> (
                text_at(final(self).memo.data@, n@) matches Some(x) && s@ == rendered(x))),
    {
        let mut stack: Vec<String> = Vec::new();
        proof {
            assert(stack@ =~= Seq::<String>::empty());
        }
        let r = eval_in(&self.request, &mut self.memo, &mut stack, v, self.request.len());
        proof {
            lemma_eval_step(old(self).request@, old(self).memo, self.memo, *v, old(self).request.len() as nat, Seq::empty(), r);
            if v is Ref {
                let n = v->Ref_0;
                if r matches Ok(Progress::Done(_)) {
                    let r2 = choose|r2: Result<Progress<Json>, ResolveError>| #[trigger] resolves(old(self).request@, old(self).memo, self.memo, n@, old(self).request.len() as nat, Seq::empty(), r2)
                        && rendered_result(r, r2);
                }
            }
        }
        r
    }

    /// Resolves `name` as far as the stored responses allow. `Done` carries
    /// its value, now memoized; `Fetch` names a request to send, whose body
    /// goes to `store_response` before `get` is called again. A failure
    /// leaves `name` out of the memo; values resolved on the way stay.
    pub fn get(&mut self, name: &str) -> (r: Result<Progress<Json>, ResolveError>)
        ensures
            final(self).request == old(self).request,
            resolves(old(self).request@, old(self).memo, final(self).memo, name@, old(self).request.len() as nat, Seq::empty(), r),
    {
        let key = String::from_str(name);
        let mut stack: Vec<String> = Vec::new();
        proof {
            assert(stack@ =~= Seq::<String>::empty());
            assert(stack@.map_values(|x: String| x@) =~= Seq::<Seq<char>>::empty());
        }
        resolve_in(&self.request, &mut self.memo, &mut stack, &key, self.request.len())
    }

    /// Stores the body of the response to `url`; fails where it is no JSON.
    pub fn store_response(&mut self, url: &str, body: &str) -> (r: Result<(), ResolveError>)
        ensures
            r is Ok <==> canonical_json(body@) is Some,
            r matches Err(e) ==> (e matches ResolveError::JsonDecodeError(u) && u@ == url@),
            r is Ok ==> text_at(final(self).memo.cache@, url@) == canonical_json(body@),
            r is Err ==> final(self).memo.cache == old(self).memo.cache,
            forall|k: Seq<char>| k != url@ ==> #[trigger] lookup(final(self).memo.cache@, k) == lookup(old(self).memo.cache@, k),
            final(self).memo.data == old(self).memo.data,
            final(self).request == old(self).request,
    {
        match Json::decode(body) {
            Some(j) => {
                let ghost before = self.memo.cache@;
                self.memo.cache.push((String::from_str(url), j));
                proof {
                    assert(self.memo.cache@.drop_last() =~= before);
                }
                Ok(())
            },
            None => Err(ResolveError::JsonDecodeError(String::from_str(url))),
        }
    }
}

} // verus!
