use vstd::prelude::*;

verus! {

/// The text of the URL that reqwest's `Url::parse` reads from `s`, or `None`
/// where it refuses `s`.
pub uninterp spec fn parsed_url(s: Seq<char>) -> Option<Seq<char>>;

/// The text of the URL that reqwest's `Url::parse_with_params` builds from `s`
/// and the query pairs `params`, or `None` where it refuses `s`.
pub uninterp spec fn parsed_url_with_params(s: Seq<char>, params: Seq<(Seq<char>, Seq<char>)>) -> Option<Seq<char>>;

pub open spec fn pairs_view(params: Seq<(String, String)>) -> Seq<(Seq<char>, Seq<char>)> {
    params.map_values(|p: (String, String)| (p.0@, p.1@))
}

/// Relies on reqwest::Url::parse and on `Url`'s `Display`, which writes the
/// serialized URL.
#[verifier::external_body]
fn parse_url(s: &str) -> (r: Option<String>)
    ensures
        r matches Some(u) ==> parsed_url(s@) == Some(u@),
        r is None ==> parsed_url(s@) is None,
{
    reqwest::Url::parse(s).ok().map(|u| u.to_string())
}

/// Relies on reqwest::Url::parse_with_params, which parses `s` and appends
/// the pairs, percent-encoded, as its query.
#[verifier::external_body]
fn parse_url_with_params(s: &str, params: &Vec<(String, String)>) -> (r: Option<String>)
    ensures
        r matches Some(u) ==> parsed_url_with_params(s@, pairs_view(params@)) == Some(u@),
        r is None ==> parsed_url_with_params(s@, pairs_view(params@)) is None,
{
    reqwest::Url::parse_with_params(s, params.iter()).ok().map(|u| u.to_string())
}

/// `base` followed by each segment, each after a `/`.
pub open spec fn joined_path(base: Seq<char>, segments: Seq<Seq<char>>) -> Seq<char>
    decreases segments.len(),
{
    if segments.len() == 0 {
        base
    } else {
        joined_path(base, segments.drop_last()) + seq!['/'] + segments.last()
    }
}

/// The URL built from a template, its path segments and its query pairs: the
/// query is left out where there are no pairs.
pub open spec fn built_url(
    base: Seq<char>,
    segments: Seq<Seq<char>>,
    params: Seq<(Seq<char>, Seq<char>)>,
) -> Option<Seq<char>> {
    if params.len() > 0 {
        parsed_url_with_params(joined_path(base, segments), params)
    } else {
        parsed_url(joined_path(base, segments))
    }
}

/// Joins the segments onto `base` with `/` and attaches the query pairs in
/// their order; `None` where the result is no URL.
pub fn build_url(base: &str, segments: &Vec<String>, params: &Vec<(String, String)>) -> (r: Option<
    String,
>)
    ensures
        r matches Some(u) ==> built_url(base@, segments@.map_values(|s: String| s@), pairs_view(params@)) == Some(u@),
        r is None ==> built_url(base@, segments@.map_values(|s: String| s@), pairs_view(params@)) is None,
{
    let ghost segs = segments@.map_values(|s: String| s@);
    let mut path = String::from_str(base);
    let mut i: usize = 0;
    while i < segments.len()
        invariant
            i <= segments.len(),
            segs == segments@.map_values(|s: String| s@),
            path@ == joined_path(base@, segs.subrange(0, i as int)),
        decreases segments.len() - i,
    {
        proof {
            assert(segs.subrange(0, i + 1).drop_last() =~= segs.subrange(0, i as int));
            assert(segs.subrange(0, i + 1).last() == segments@[i as int]@);
            reveal_strlit("/");
        }
        path.append("/");
        path.append(segments[i].as_str());
        i = i + 1;
    }
    proof {
        assert(segs.subrange(0, segments.len() as int) =~= segs);
    }
    if params.len() > 0 {
        parse_url_with_params(path.as_str(), params)
    } else {
        parse_url(path.as_str())
    }
}

} // verus!
