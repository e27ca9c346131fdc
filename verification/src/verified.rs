//! Replies of the fact provider: the answer that one holds, the refusal that it is, and the route
//! that it came by.
use vstd::prelude::*;

use crate::assets;
use crate::json;
use crate::json::{Json, JsonView};
use crate::text::same;
use crate::wire;

verus! {

/// What a successful reply holds, and the route that it came by.
#[derive(Debug)]
pub struct Answer {
    pub value: Json,
    pub route: Option<String>,
}

/// Whether a reply says that it succeeded.
pub open spec fn is_ok(v: JsonView) -> bool {
    json::truth_at(v, "ok"@) == Some(true)
}

/// What a reply holds: its result, or else its hash, or else null.
pub open spec fn answer_value(v: JsonView) -> JsonView {
    match json::member(v, "result"@) {
        Some(w) => w,
        None => assets::or_null(v, "hash"@),
    }
}

/// Whether `r` is what becomes of the reply `v`: its answer where it succeeded, and otherwise
/// the reply itself, as text.
pub open spec fn is_answer(r: Result<Answer, String>, v: JsonView) -> bool {
    match r {
        Ok(answer) => is_ok(v) && answer.value@ == answer_value(v) && assets::maybe(answer.route)
            == json::text_at(v, "route"@),
        Err(e) => !is_ok(v) && e@ == wire::writing(v),
    }
}

/// What becomes of a reply.
pub fn answer_of(reply: &Json) -> (r: Result<Answer, String>)
    ensures
        is_answer(r, reply@),
        r is Err && json::within(reply@, wire::DEPTH as nat) ==> wire::rereads(reply@),
{
    if reply.get_bool("ok") != Some(true) {
        return Err(reply.to_text());
    }
    let value = match reply.get("result") {
        Some(v) => v.clone(),
        None => match reply.get("hash") {
            Some(v) => v.clone(),
            None => Json::Null,
        },
    };
    let route = match reply.get_str("route") {
        Some(s) => Some(s.to_owned()),
        None => None,
    };
    Ok(Answer { value, route })
}

/// What becomes of a reply text: its answer, the refusal that it is, or the message of the reader
/// where it is no JSON.
pub fn unwrap_answer(reply: &str) -> (r: Result<Answer, String>)
    ensures
        match wire::reading(reply@) {
            Err(m) => r matches Err(e) && e@ == m,
            Ok(v) => is_answer(r, v) && (r is Err ==> wire::rereads(v)),
        },
{
    match Json::parse(reply) {
        Err(e) => Err(e),
        Ok(v) => answer_of(&v),
    }
}

/// How much a route is worth: a verified one most, an unknown one nothing.
pub open spec fn worth(route: Seq<char>) -> int {
    if route == "verified"@ {
        3
    } else if route == "proxied"@ {
        2
    } else if route == "direct"@ {
        1
    } else {
        0
    }
}

/// The route that is given, `unknown` where none is.
pub open spec fn route_of(route: Option<&str>) -> Seq<char> {
    match route {
        Some(s) => s@,
        None => "unknown"@,
    }
}

/// The first of the routes that are worth least.
pub open spec fn weakest(routes: Seq<Option<&str>>) -> Seq<char>
    decreases routes.len(),
{
    if routes.len() <= 1 {
        route_of(routes[0])
    } else {
        let rest = weakest(routes.drop_last());
        if worth(route_of(routes.last())) < worth(rest) {
            route_of(routes.last())
        } else {
            rest
        }
    }
}

/// The route that several routes come to: the weakest, `unknown` where that is worth nothing or
/// there is none.
pub open spec fn folded_route(routes: Seq<Option<&str>>) -> Seq<char> {
    if routes.len() == 0 || worth(weakest(routes)) == 0 {
        "unknown"@
    } else {
        weakest(routes)
    }
}

/// How much a route is worth.
fn rank(route: &str) -> (r: u8)
    ensures
        r == worth(route@),
{
    if same(route, "verified") {
        3
    } else if same(route, "proxied") {
        2
    } else if same(route, "direct") {
        1
    } else {
        0
    }
}

/// The weakest of the routes, `unknown` where one of them is not known or there is none.
pub fn fold_route(routes: &[Option<&str>]) -> (r: String)
    ensures
        r@ == folded_route(routes@),
{
    if routes.len() == 0 {
        return "unknown".to_owned();
    }
    let mut least: &str = match routes[0] {
        Some(s) => s,
        None => "unknown",
    };
    let mut i: usize = 1;
    while i < routes.len()
        invariant
            1 <= i <= routes.len(),
            least@ == weakest(routes@.take(i as int)),
        decreases routes.len() - i,
    {
        assert(routes@.take(i + 1).drop_last() =~= routes@.take(i as int));
        let route: &str = match routes[i] {
            Some(s) => s,
            None => "unknown",
        };
        if rank(route) < rank(least) {
            least = route;
        }
        i = i + 1;
    }
    assert(routes@.take(routes@.len() as int) =~= routes@);
    if rank(least) > 0 {
        least.to_owned()
    } else {
        "unknown".to_owned()
    }
}

/// The weakest route is one of the routes, and none is worth less.
proof fn lemma_weakest(routes: Seq<Option<&str>>)
    requires
        routes.len() > 0,
    ensures
        exists|i: int| 0 <= i < routes.len() && route_of(#[trigger] routes[i]) == weakest(routes),
        forall|i: int|
            0 <= i < routes.len() ==> worth(weakest(routes)) <= worth(
                route_of(#[trigger] routes[i]),
            ),
    decreases routes.len(),
{
    if routes.len() > 1 {
        let rest = routes.drop_last();
        lemma_weakest(rest);
        let k = choose|k: int|
            0 <= k < rest.len() && route_of(#[trigger] rest[k]) == weakest(rest);
        assert(route_of(routes[k]) == weakest(rest));
        assert forall|i: int| 0 <= i < routes.len() implies worth(weakest(routes)) <= worth(
            route_of(#[trigger] routes[i]),
        ) by {
            if i < rest.len() {
                assert(rest[i] == routes[i]);
            }
        }
        assert(route_of(routes[routes.len() - 1]) == route_of(routes.last()));
    } else {
        assert(route_of(routes[0]) == weakest(routes));
    }
}

/// The weakest route wins: what routes come to is worth no more than any of them, is one of them
/// where all of them are known, and is `unknown` as soon as one of them is not.
pub proof fn law_the_weakest_route_wins(routes: Seq<Option<&str>>)
    requires
        routes.len() > 0,
    ensures
        forall|i: int|
            0 <= i < routes.len() ==> worth(folded_route(routes)) <= worth(
                route_of(#[trigger] routes[i]),
            ),
        (forall|i: int| 0 <= i < routes.len() ==> worth(route_of(#[trigger] routes[i])) > 0)
            ==> exists|i: int|
            0 <= i < routes.len() && route_of(#[trigger] routes[i]) == folded_route(routes),
        (exists|i: int| 0 <= i < routes.len() && worth(route_of(#[trigger] routes[i])) == 0)
            ==> folded_route(routes) == "unknown"@,
{
    lemma_weakest(routes);
    reveal_strlit("unknown");
    reveal_strlit("verified");
    reveal_strlit("proxied");
    reveal_strlit("direct");
    assert("unknown"@[0] == 'u');
    assert("verified"@[0] == 'v');
    assert("proxied"@[0] == 'p');
    assert("direct"@[0] == 'd');
    let k = choose|k: int|
        0 <= k < routes.len() && route_of(#[trigger] routes[k]) == weakest(routes);
    assert(worth(route_of(routes[k])) == worth(weakest(routes)));
}

/// An answer is the result of a reply that succeeded, or its hash where there is no result, or null.
pub proof fn law_an_answer_is_the_result_or_the_hash(v: JsonView)
    ensures
        is_ok(v) <==> json::member(v, "ok"@) == Some(JsonView::Bool(true)),
        json::member(v, "result"@) matches Some(w) ==> answer_value(v) == w,
        json::member(v, "result"@) is None && json::member(v, "hash"@) is Some ==> answer_value(v)
            == json::member(v, "hash"@)->0,
        json::member(v, "result"@) is None && json::member(v, "hash"@) is None ==> answer_value(v)
            == JsonView::Null,
{
}

/// Routes come to `verified` only where all of them are; to `proxied` where all are verified or
/// proxied and one is proxied; to `direct` where all are known and one is direct; and to `unknown`
/// as soon as one of them is neither, or there is none.
pub proof fn law_what_routes_come_to(routes: Seq<Option<&str>>)
    ensures
        ({
            let r = folded_route(routes);
            let known = |i: int|
                routes[i] is Some && (routes[i]->0@ == "verified"@ || routes[i]->0@ == "proxied"@
                    || routes[i]->0@ == "direct"@);
            &&& r == "unknown"@ || r == "verified"@ || r == "proxied"@ || r == "direct"@
            &&& r == "unknown"@ <==> routes.len() == 0 || exists|i: int|
                0 <= i < routes.len() && !#[trigger] known(i)
            &&& r == "verified"@ ==> forall|i: int|
                0 <= i < routes.len() ==> (#[trigger] routes[i]) is Some && routes[i]->0@
                    == "verified"@
            &&& r == "proxied"@ ==> forall|i: int|
                0 <= i < routes.len() ==> (#[trigger] routes[i]) is Some && routes[i]->0@
                    != "direct"@
            &&& r != "unknown"@ ==> exists|i: int|
                0 <= i < routes.len() && (#[trigger] routes[i]) is Some && routes[i]->0@ == r
        }),
{
    reveal_strlit("unknown");
    reveal_strlit("verified");
    reveal_strlit("proxied");
    reveal_strlit("direct");
    assert("unknown"@[0] == 'u');
    assert("verified"@[0] == 'v');
    assert("proxied"@[0] == 'p');
    assert("direct"@[0] == 'd');
    let known = |i: int|
        routes[i] is Some && (routes[i]->0@ == "verified"@ || routes[i]->0@ == "proxied"@
            || routes[i]->0@ == "direct"@);
    if routes.len() > 0 {
        law_the_weakest_route_wins(routes);
        lemma_weakest(routes);
        let w = weakest(routes);
        let k = choose|k: int| 0 <= k < routes.len() && route_of(#[trigger] routes[k]) == w;
        if worth(w) == 0 {
            assert(!known(k));
        } else {
            assert forall|i: int| 0 <= i < routes.len() implies #[trigger] known(i) by {
                assert(worth(w) <= worth(route_of(routes[i])));
            }
            assert(routes[k] is Some && routes[k]->0@ == w);
            assert forall|i: int| 0 <= i < routes.len() implies (#[trigger] routes[i]) is Some
                && worth(routes[i]->0@) >= worth(w) by {
                assert(worth(w) <= worth(route_of(routes[i])));
            }
        }
    }
}

} // verus!
