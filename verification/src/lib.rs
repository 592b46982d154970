//! Core logic of a small whimsical query API: a TTL read-through cache slot
//! with stampede protection, an HTML/text extraction pipeline for retail
//! search pages, a future-date classifier, an availability dedup/merge, and
//! a stock report builder. Network adapters and response formatting live
//! outside the library and talk to it through plain values.

use vstd::prelude::*;

pub mod cache;
pub mod dates;
pub mod dedup;
pub mod extract;
pub mod report;
pub mod stock;
pub mod text;

use crate::text::str_eq;
use crate::text::views_of_strings;

verus! {

/// Error surfaced to a caller when an upstream adapter fails.
#[derive(Clone, Debug)]
pub struct ApiError {
    pub message: String,
}

/// How an endpoint answers: plain text, the typed value, or an error.
pub enum ApiResponse<T> {
    Plain(String),
    Json(T),
    Error(ApiError),
}

/// The greeting endpoint's payload.
#[derive(Clone, Debug)]
pub struct HelloData {
    pub message: String,
}

/// The congress-beer conversion's payload; the floating-point conversion
/// arithmetic itself lives with the caller.
#[derive(Clone, Debug)]
pub struct CongressBeerData {
    pub congressbeers: i64,
    pub message: String,
}

/// A randomly chosen route.
#[derive(Clone, Debug)]
pub struct RandomRoute {
    pub route: String,
}

/// The caller asked for JSON.
pub open spec fn wants_json(format: Option<String>) -> bool {
    match format {
        Some(f) => f@ == "json"@,
        None => false,
    }
}

/// The greeting: a fixed message, as JSON when asked for, else plain.
pub fn hello(format: Option<String>) -> (r: ApiResponse<HelloData>)
    ensures
        match r {
            ApiResponse::Plain(m) => !wants_json(format) && m@ == "Hello, World!"@,
            ApiResponse::Json(d) => wants_json(format) && d.message@ == "Hello, World!"@,
            ApiResponse::Error(_) => false,
        },
{
    let is_json = match &format {
        Some(f) => str_eq(f.as_str(), "json"),
        None => false,
    };
    let mut msg = String::new();
    msg.append("Hello, World!");
    if is_json {
        ApiResponse::Json(HelloData { message: msg })
    } else {
        ApiResponse::Plain(msg)
    }
}

/// The routes the service mounts, in mounting order.
pub open spec fn spec_routes() -> Seq<Seq<char>> {
    seq![
        "/"@,
        "/mensatoshi"@,
        "/congressbeer"@,
        "/mensabeer"@,
        "/shark"@,
        "/alditowels"@,
        "/teapot"@,
        "/random"@,
    ]
}

/// Every route the service mounts.
pub fn all_routes() -> (r: Vec<String>)
    ensures
        views_of_strings(r@) == spec_routes(),
{
    let mut r: Vec<String> = Vec::new();
    r.push(String::from_str("/"));
    r.push(String::from_str("/mensatoshi"));
    r.push(String::from_str("/congressbeer"));
    r.push(String::from_str("/mensabeer"));
    r.push(String::from_str("/shark"));
    r.push(String::from_str("/alditowels"));
    r.push(String::from_str("/teapot"));
    r.push(String::from_str("/random"));
    proof {
        assert(views_of_strings(r@) =~= spec_routes());
    }
    r
}

/// Relies on `rand::random`: some value; nothing is promised of it.
#[verifier::external_body]
fn random_u64() -> u64 {
    rand::random::<u64>()
}

/// A legitimate answer of the random endpoint: a mounted route other than the
/// random endpoint itself.
pub open spec fn chosen_route_ok(route: Seq<char>) -> bool {
    &&& exists|i: int| 0 <= i < spec_routes().len() && spec_routes()[i] == route
    &&& route != "/random"@
}

/// A route other than the random endpoint itself, chosen at random.
pub fn random(format: Option<String>) -> (r: ApiResponse<RandomRoute>)
    ensures
        match r {
            ApiResponse::Plain(m) => !wants_json(format) && chosen_route_ok(m@),
            ApiResponse::Json(d) => wants_json(format) && chosen_route_ok(d.route@),
            ApiResponse::Error(_) => false,
        },
{
    let routes = all_routes();
    let mut filtered: Vec<String> = Vec::new();
    let mut i: usize = 0;
    while i < routes.len()
        invariant
            i <= routes@.len(),
            views_of_strings(routes@) == spec_routes(),
            forall|j: int| 0 <= j < filtered@.len() ==> chosen_route_ok(#[trigger] filtered@[j]@),
        decreases routes@.len() - i,
    {
        if !str_eq(routes[i].as_str(), "/random") {
            proof {
                assert(spec_routes()[i as int] == routes@[i as int]@);
            }
            filtered.push(routes[i].clone());
        }
        i = i + 1;
    }
    let chosen: String = if filtered.len() > 0 {
        let idx = (random_u64() % (filtered.len() as u64)) as usize;
        filtered[idx].clone()
    } else {
        proof {
            reveal_strlit("/");
            reveal_strlit("/random");
            assert(spec_routes()[0] == "/"@);
            assert("/"@.len() != "/random"@.len());
            assert(chosen_route_ok("/"@));
        }
        String::from_str("/")
    };
    let is_json = match &format {
        Some(f) => str_eq(f.as_str(), "json"),
        None => false,
    };
    if is_json {
        ApiResponse::Json(RandomRoute { route: chosen })
    } else {
        ApiResponse::Plain(chosen)
    }
}

} // verus!
