//! The requests to the metric provider: which parameters each carries and the
//! URL they make. Parameters are a map written as a list: a name counts once,
//! with the value that was given for it last.

use vstd::prelude::*;
use crate::entity::optional_text;

verus! {

/// Query parameters as plain values, in order.
pub open spec fn param_views(params: Seq<(String, String)>) -> Seq<(Seq<char>, Seq<char>)> {
    Seq::new(params.len(), |i: int| (params[i].0@, params[i].1@))
}

/// The URL that `url::Url::parse_with_params` makes of a base and query
/// parameters, as text; `None` when it cannot parse the base as an absolute
/// URL.
pub uninterp spec fn url_with_params(base: Seq<char>, params: Seq<(Seq<char>, Seq<char>)>) -> Option<
    Seq<char>,
>;

/// `url::Url::parse_with_params`, its result written out as a string: the
/// base parsed as an absolute URL with the parameters added to its query, in
/// order. The result depends on the base and the parameters alone.
#[verifier::external_body]
fn url_from(base: &str, params: &Vec<(String, String)>) -> (url: Option<String>)
    ensures
        optional_text(url) == url_with_params(base@, param_views(params@)),
{
    url::Url::parse_with_params(base, params).ok().map(|url| String::from(url))
}

/// Where the provider's API stands.
pub open spec fn api_root() -> Seq<char> {
    "https://www.googleapis.com/youtube/v3/"@
}

/// Some parameter at position `from` or behind it carries the name.
pub open spec fn named_from(params: Seq<(Seq<char>, Seq<char>)>, name: Seq<char>, from: int) -> bool {
    exists|j: int| from <= j < params.len() && params[j].0 == name
}

/// Those of the first `n` parameters whose name no later parameter carries,
/// in order.
pub open spec fn last_of_each_name(params: Seq<(Seq<char>, Seq<char>)>, n: int) -> Seq<
    (Seq<char>, Seq<char>),
>
    decreases n,
{
    if n <= 0 {
        Seq::empty()
    } else if named_from(params, params[n - 1].0, n) {
        last_of_each_name(params, n - 1)
    } else {
        last_of_each_name(params, n - 1).push(params[n - 1])
    }
}

/// The parameters as the map they stand for: a name counts once, with the
/// value that was given for it last.
pub open spec fn settled(params: Seq<(Seq<char>, Seq<char>)>) -> Seq<(Seq<char>, Seq<char>)> {
    last_of_each_name(params, params.len() as int)
}

/// The parameters of a request with the API key put among them under the
/// name `key`. A parameter of that name that was given is replaced: the query
/// carries `key` once, with the API key as its value.
pub open spec fn keyed(params: Seq<(Seq<char>, Seq<char>)>, api_key: Seq<char>) -> Seq<
    (Seq<char>, Seq<char>),
> {
    settled(params.push(("key"@, api_key)))
}

/// Settled parameters are a map. No name occurs twice; every pair is the one
/// that was given last for its name; and every name that was given occurs.
pub proof fn law_settled_is_a_map(params: Seq<(Seq<char>, Seq<char>)>)
    ensures
        forall|i: int, j: int|
            0 <= i < j < settled(params).len() ==> settled(params)[i].0 != settled(params)[j].0,
        forall|k: int|
            0 <= k < settled(params).len() ==> exists|i: int|
                0 <= i < params.len() && params[i] == (#[trigger] settled(params)[k])
                    && !named_from(params, params[i].0, i + 1),
        forall|i: int|
            0 <= i < params.len() ==> named_from(settled(params), (#[trigger] params[i]).0, 0),
{
    let n = params.len() as int;
    lemma_last_of_each_name(params, n);
    assert forall|i: int| 0 <= i < params.len() implies named_from(
        settled(params),
        (#[trigger] params[i]).0,
        0,
    ) by {
        let name = params[i].0;
        lemma_last_named(params, name, n, i);
        let last = last_named(params, name, n);
        assert(!named_from(params, params[last].0, last + 1));
        assert(settled(params).contains(params[last]));
        let k = choose|k: int| 0 <= k < settled(params).len() && settled(params)[k] == params[last];
        assert(settled(params)[k].0 == name);
    }
}

/// No two parameters carry the same name.
pub open spec fn distinct_param_names(params: Seq<(Seq<char>, Seq<char>)>) -> bool {
    forall|i: int, j: int| 0 <= i < j < params.len() ==> params[i].0 != params[j].0
}

/// The API key replaces whatever was given under the name `key`: the keyed
/// parameters carry `key` once, with the API key as its value. Parameters
/// without a `key` and without a repeated name are kept as they are, with the
/// key behind them.
pub proof fn law_keyed_carries_the_key_once(params: Seq<(Seq<char>, Seq<char>)>, api_key: Seq<char>)
    ensures
        keyed(params, api_key).contains(("key"@, api_key)),
        forall|k: int|
            0 <= k < keyed(params, api_key).len() && (#[trigger] keyed(params, api_key)[k]).0
                == "key"@ ==> keyed(params, api_key)[k].1 == api_key,
        forall|i: int, j: int|
            0 <= i < j < keyed(params, api_key).len() ==> keyed(params, api_key)[i].0 != keyed(
                params,
                api_key,
            )[j].0,
        distinct_param_names(params) && !named_from(params, "key"@, 0) ==> keyed(params, api_key)
            == params.push(("key"@, api_key)),
{
    let all = params.push(("key"@, api_key));
    let n = all.len() as int;
    law_settled_is_a_map(all);
    lemma_last_of_each_name(all, n);
    assert(!named_from(all, all[n - 1].0, n));
    assert(settled(all).contains(all[n - 1]));
    assert forall|k: int|
        0 <= k < settled(all).len() && (#[trigger] settled(all)[k]).0 == "key"@ implies settled(
        all,
    )[k].1 == api_key by {
        let i = choose|i: int|
            0 <= i < all.len() && all[i] == settled(all)[k] && !named_from(all, all[i].0, i + 1);
        if i < n - 1 {
            assert(all[n - 1].0 == all[i].0);
        }
    }
    if distinct_param_names(params) && !named_from(params, "key"@, 0) {
        assert(distinct_param_names(all)) by {
            assert forall|i: int, j: int| 0 <= i < j < all.len() implies all[i].0 != all[j].0 by {
                if j == n - 1 {
                    assert(params[i].0 != "key"@);
                }
            }
        }
        lemma_distinct_stay(all, n);
        assert(all.take(n) =~= all);
    }
}

proof fn lemma_distinct_stay(params: Seq<(Seq<char>, Seq<char>)>, n: int)
    requires
        0 <= n <= params.len(),
        distinct_param_names(params),
    ensures
        last_of_each_name(params, n) == params.take(n),
    decreases n,
{
    if n > 0 {
        lemma_distinct_stay(params, n - 1);
        assert(!named_from(params, params[n - 1].0, n));
        assert(params.take(n) =~= params.take(n - 1).push(params[n - 1]));
    } else {
        assert(params.take(n) =~= Seq::empty());
    }
}

/// The last position before `n` whose parameter carries the name; `-1` when
/// there is none.
pub open spec fn last_named(params: Seq<(Seq<char>, Seq<char>)>, name: Seq<char>, n: int) -> int
    decreases n,
{
    if n <= 0 {
        -1
    } else if params[n - 1].0 == name {
        n - 1
    } else {
        last_named(params, name, n - 1)
    }
}

proof fn lemma_last_named(params: Seq<(Seq<char>, Seq<char>)>, name: Seq<char>, n: int, i: int)
    requires
        0 <= i < n <= params.len(),
        params[i].0 == name,
    ensures
        i <= last_named(params, name, n) < n,
        params[last_named(params, name, n)].0 == name,
        forall|j: int| last_named(params, name, n) < j < n ==> params[j].0 != name,
    decreases n,
{
    if params[n - 1].0 != name {
        lemma_last_named(params, name, n - 1, i);
    }
}

proof fn lemma_last_of_each_name(params: Seq<(Seq<char>, Seq<char>)>, n: int)
    requires
        0 <= n <= params.len(),
    ensures
        forall|k: int|
            0 <= k < last_of_each_name(params, n).len() ==> exists|i: int|
                0 <= i < n && params[i] == (#[trigger] last_of_each_name(params, n)[k])
                    && !named_from(params, params[i].0, i + 1),
        forall|i: int|
            0 <= i < n && !named_from(params, (#[trigger] params[i]).0, i + 1)
                ==> last_of_each_name(params, n).contains(params[i]),
        forall|i: int, j: int|
            0 <= i < j < last_of_each_name(params, n).len() ==> last_of_each_name(params, n)[i].0
                != last_of_each_name(params, n)[j].0,
    decreases n,
{
    let kept = last_of_each_name(params, n);
    if n > 0 {
        lemma_last_of_each_name(params, n - 1);
        let before = last_of_each_name(params, n - 1);
        let dropped = named_from(params, params[n - 1].0, n);
        assert forall|k: int| 0 <= k < kept.len() implies exists|i: int|
            0 <= i < n && params[i] == (#[trigger] kept[k]) && !named_from(
                params,
                params[i].0,
                i + 1,
            ) by {
            if k < before.len() {
                assert(kept[k] == before[k]);
                let i = choose|i: int|
                    0 <= i < n - 1 && params[i] == before[k] && !named_from(
                        params,
                        params[i].0,
                        i + 1,
                    );
                assert(0 <= i < n);
            } else {
                assert(kept[k] == params[n - 1]);
            }
        }
        assert forall|i: int|
            0 <= i < n && !named_from(params, (#[trigger] params[i]).0, i + 1) implies kept.contains(
            params[i],
        ) by {
            if i < n - 1 {
                assert(before.contains(params[i]));
                let k = choose|k: int| 0 <= k < before.len() && before[k] == params[i];
                assert(kept[k] == params[i]);
            } else {
                assert(kept[kept.len() - 1] == params[i]);
            }
        }
        assert forall|i: int, j: int| 0 <= i < j < kept.len() implies kept[i].0 != kept[j].0 by {
            if j == before.len() && !dropped {
                let w = choose|w: int|
                    0 <= w < n - 1 && params[w] == before[i] && !named_from(
                        params,
                        params[w].0,
                        w + 1,
                    );
                if kept[i].0 == kept[j].0 {
                    assert(params[n - 1].0 == params[w].0);
                    assert(named_from(params, params[w].0, w + 1));
                }
            } else {
                assert(kept[i] == before[i] && kept[j] == before[j]);
            }
        }
    }
}

/// The parameters that ask for the title and the view count of an entity.
pub open spec fn metric_params(id: Seq<char>) -> Seq<(Seq<char>, Seq<char>)> {
    seq![
        ("part"@, "statistics,snippet"@),
        ("fields"@, "items(snippet/title,statistics/viewCount)"@),
        ("id"@, id),
    ]
}

/// The parameters that ask for one page of a group's membership: at most
/// fifty ids, and the token of the page wanted, empty for the first.
pub open spec fn membership_params(list: Seq<char>, page_token: Seq<char>) -> Seq<
    (Seq<char>, Seq<char>),
> {
    seq![
        ("part"@, "snippet"@),
        ("fields"@, "items/snippet/resourceId/videoId,nextPageToken"@),
        ("maxResults"@, "50"@),
        ("playlistId"@, list),
        ("pageToken"@, page_token),
    ]
}

fn param(name: &str, value: &str) -> (pair: (String, String))
    ensures
        pair.0@ == name@,
        pair.1@ == value@,
{
    (name.to_owned(), value.to_owned())
}

/// The parameters of the request for an entity's title and view count.
pub fn metric_query(id: &str) -> (params: Vec<(String, String)>)
    ensures
        param_views(params@) == metric_params(id@),
{
    let mut params: Vec<(String, String)> = Vec::new();
    params.push(param("part", "statistics,snippet"));
    params.push(param("fields", "items(snippet/title,statistics/viewCount)"));
    params.push(param("id", id));
    assert(param_views(params@) =~= metric_params(id@));
    params
}

/// The parameters of the request for one page of a group's membership.
pub fn membership_query(list: &str, page_token: &str) -> (params: Vec<(String, String)>)
    ensures
        param_views(params@) == membership_params(list@, page_token@),
{
    let mut params: Vec<(String, String)> = Vec::new();
    params.push(param("part", "snippet"));
    params.push(param("fields", "items/snippet/resourceId/videoId,nextPageToken"));
    params.push(param("maxResults", "50"));
    params.push(param("playlistId", list));
    params.push(param("pageToken", page_token));
    assert(param_views(params@) =~= membership_params(list@, page_token@));
    params
}

/// Whether a parameter behind position `i` carries the name of the
/// parameter at `i`.
fn named_later(params: &Vec<(String, String)>, i: usize) -> (later: bool)
    requires
        i < params.len(),
    ensures
        later == named_from(param_views(params@), param_views(params@)[i as int].0, i + 1),
{
    let mut j: usize = i + 1;
    while j < params.len()
        invariant
            i < j <= params.len(),
            forall|k: int| i < k < j ==> param_views(params@)[k].0 != param_views(params@)[i as int].0,
        decreases params.len() - j,
    {
        if params[j].0 == params[i].0 {
            assert(param_views(params@)[j as int].0 == param_views(params@)[i as int].0);
            return true;
        }
        j = j + 1;
    }
    false
}

/// The parameters as the map they stand for: of parameters with the same
/// name only the last is kept.
pub fn settle(params: &Vec<(String, String)>) -> (kept: Vec<(String, String)>)
    ensures
        param_views(kept@) == settled(param_views(params@)),
{
    let mut kept: Vec<(String, String)> = Vec::new();
    let mut i: usize = 0;
    while i < params.len()
        invariant
            i <= params.len(),
            param_views(kept@) == last_of_each_name(param_views(params@), i as int),
        decreases params.len() - i,
    {
        let ghost before = param_views(kept@);
        if !named_later(params, i) {
            kept.push((params[i].0.clone(), params[i].1.clone()));
            assert(param_views(kept@) =~= before.push(param_views(params@)[i as int]));
        }
        i = i + 1;
    }
    kept
}

/// The URL of a request to the provider: the API root followed by
/// `api_path`, with the parameters and the API key as its query. The API key
/// goes under the name `key` and takes the place of a parameter of that name;
/// of parameters with the same name only the last counts. `None` when the
/// root and the path do not make an absolute URL.
pub fn api_url(api_path: &str, params: Vec<(String, String)>, api_key: &str) -> (url: Option<
    String,
>)
    ensures
        optional_text(url) == url_with_params(
            api_root() + api_path@,
            keyed(param_views(params@), api_key@),
        ),
{
    let mut params = params;
    let ghost given = param_views(params@);
    params.push(param("key", api_key));
    assert(param_views(params@) =~= given.push(("key"@, api_key@)));
    let query = settle(&params);
    let mut base = "https://www.googleapis.com/youtube/v3/".to_owned();
    base.append(api_path);
    url_from(base.as_str(), &query)
}

} // verus!
