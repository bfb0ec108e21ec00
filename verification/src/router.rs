//! The request router.
//!
//! A route key is the exact request line `"<METHOD> <PATH> <PROTOCOL>"`; no
//! wildcard or prefix matching. `route_request` maps a request line and body
//! to an action; `respond_to` maps an action and the store's outcome to a
//! status line and the name of the static asset to serve; `handle_request`
//! runs a whole request against an in-memory table.
//!
//! The store runs outside this crate's control, so its outcome arrives as a
//! `StoreOutcome` value: the caller performs the create and reports whether
//! it completed.

use vstd::prelude::*;
use crate::form::after_last;
use crate::form::parse_post_data;
use crate::form::split_on;
use crate::store::Reader;
use crate::store::ReaderTable;
use crate::store::max_or_zero;
use crate::store::next_id;
use crate::store::reader_ids;

verus! {

/// What a routed request asks for.
pub enum RouteAction {
    /// `GET / HTTP/1.1`: serve the index page.
    ServeIndex,
    /// `GET /signup HTTP/1.1`: serve the signup form.
    ServeSignup,
    /// `POST /readers HTTP/1.1` with a well-formed body: create a reader
    /// with this firstname and surname.
    CreateReader(String, String),
    /// `POST /readers HTTP/1.1` whose body decoded to fewer than two values:
    /// rejected with a client-error response instead of failing.
    BadRequest,
    /// Any other request line.
    NotFound,
}

/// Whether the store completed a mutating operation or failed it (for
/// instance because its connection is unavailable).
#[derive(Clone, Copy)]
pub enum StoreOutcome {
    Completed,
    Failed,
}

pub open spec fn is_index_route(line: Seq<char>) -> bool {
    line == "GET / HTTP/1.1"@
}

pub open spec fn is_signup_route(line: Seq<char>) -> bool {
    line == "GET /signup HTTP/1.1"@
}

pub open spec fn is_create_reader_route(line: Seq<char>) -> bool {
    line == "POST /readers HTTP/1.1"@
}

/// No route key matches `line`.
pub open spec fn is_unrouted(line: Seq<char>) -> bool {
    &&& !is_index_route(line)
    &&& !is_signup_route(line)
    &&& !is_create_reader_route(line)
}

fn str_eq(a: &str, b: &str) -> (r: bool)
    ensures
        r == (a@ == b@),
{
    let na = a.unicode_len();
    let nb = b.unicode_len();
    if na != nb {
        return false;
    }
    let mut i: usize = 0;
    while i < na
        invariant
            na == a@.len(),
            na == b@.len(),
            i <= na,
            forall|j: int| 0 <= j < i ==> a@[j] == b@[j],
        decreases na - i,
    {
        if a.get_char(i) != b.get_char(i) {
            return false;
        }
        i = i + 1;
    }
    proof {
        assert(a@ =~= b@);
    }
    true
}

/// Matches the request line against the fixed route table. For the create
/// route the body is decoded positionally; a body with fewer than two
/// segments yields `BadRequest`. Every unrouted request line yields
/// `NotFound`.
pub fn route_request(request_line: &str, body: &str) -> (a: RouteAction)
    ensures
        is_index_route(request_line@) ==> a == RouteAction::ServeIndex,
        is_signup_route(request_line@) ==> a == RouteAction::ServeSignup,
        is_create_reader_route(request_line@) ==> ({
            let segs = split_on(body@, '&');
            if segs.len() >= 2 {
                a matches RouteAction::CreateReader(f, s) && f@ == after_last(
                    segs[segs.len() - 2],
                    '=',
                ) && s@ == after_last(segs[segs.len() - 1], '=')
            } else {
                a == RouteAction::BadRequest
            }
        }),
        is_unrouted(request_line@) ==> a == RouteAction::NotFound,
{
    proof {
        reveal_strlit("GET / HTTP/1.1");
        reveal_strlit("GET /signup HTTP/1.1");
        reveal_strlit("POST /readers HTTP/1.1");
        assert("GET / HTTP/1.1"@.len() == 14);
        assert("GET /signup HTTP/1.1"@.len() == 20);
        assert("POST /readers HTTP/1.1"@.len() == 22);
        assert("GET / HTTP/1.1"@ != "GET /signup HTTP/1.1"@);
        assert("GET / HTTP/1.1"@ != "POST /readers HTTP/1.1"@);
        assert("GET /signup HTTP/1.1"@ != "POST /readers HTTP/1.1"@);
    }
    if str_eq(request_line, "GET / HTTP/1.1") {
        RouteAction::ServeIndex
    } else if str_eq(request_line, "GET /signup HTTP/1.1") {
        RouteAction::ServeSignup
    } else if str_eq(request_line, "POST /readers HTTP/1.1") {
        match parse_post_data(body) {
            Some(pair) => RouteAction::CreateReader(pair.0, pair.1),
            None => RouteAction::BadRequest,
        }
    } else {
        RouteAction::NotFound
    }
}

/// Selects the status line and the asset for an action, given the store's
/// outcome. A failed create degrades the status to a conflict but still
/// serves the success-path asset, as the route table prescribes.
pub fn respond_to(action: &RouteAction, store: StoreOutcome) -> (r: (&'static str, &'static str))
    ensures
        action is ServeIndex ==> r.0@ == "HTTP/1.1 200 OK"@ && r.1@ == "index.html"@,
        action is ServeSignup ==> r.0@ == "HTTP/1.1 200 OK"@ && r.1@ == "signup.html"@,
        action is CreateReader && store is Completed ==> r.0@ == "HTTP/1.1 201 CREATED"@ && r.1@
            == "index.html"@,
        action is CreateReader && store is Failed ==> r.0@ == "HTTP/1.1 409 CONFLICT"@ && r.1@
            == "index.html"@,
        action is BadRequest ==> r.0@ == "HTTP/1.1 400 BAD REQUEST"@ && r.1@ == "404.html"@,
        action is NotFound ==> r.0@ == "HTTP/1.1 404 NOT FOUND"@ && r.1@ == "404.html"@,
{
    match action {
        RouteAction::ServeIndex => ("HTTP/1.1 200 OK", "index.html"),
        RouteAction::ServeSignup => ("HTTP/1.1 200 OK", "signup.html"),
        RouteAction::CreateReader(_, _) => match store {
            StoreOutcome::Completed => ("HTTP/1.1 201 CREATED", "index.html"),
            StoreOutcome::Failed => ("HTTP/1.1 409 CONFLICT", "index.html"),
        },
        RouteAction::BadRequest => ("HTTP/1.1 400 BAD REQUEST", "404.html"),
        RouteAction::NotFound => ("HTTP/1.1 404 NOT FOUND", "404.html"),
    }
}

/// Routes one request against the table and answers with a status line and
/// an asset name. Only a completed create changes the table: it appends
/// exactly the row decoded from the body, with the next id. A failed create
/// answers with a conflict and persists nothing; a request line outside the
/// route table always answers not-found with the not-found asset.
pub fn handle_request(
    table: &mut ReaderTable,
    store: StoreOutcome,
    request_line: &str,
    body: &str,
) -> (r: (&'static str, &'static str))
    requires
        old(table).wf(),
        max_or_zero(reader_ids(old(table)@)) < i32::MAX,
    ensures
        final(table).wf(),
        is_index_route(request_line@) ==> r.0@ == "HTTP/1.1 200 OK"@ && r.1@ == "index.html"@
            && final(table)@ == old(table)@,
        is_signup_route(request_line@) ==> r.0@ == "HTTP/1.1 200 OK"@ && r.1@ == "signup.html"@
            && final(table)@ == old(table)@,
        is_create_reader_route(request_line@) ==> ({
            let segs = split_on(body@, '&');
            if segs.len() < 2 {
                r.0@ == "HTTP/1.1 400 BAD REQUEST"@ && r.1@ == "404.html"@ && final(table)@ == old(
                    table,
                )@
            } else if store is Completed {
                r.0@ == "HTTP/1.1 201 CREATED"@ && r.1@ == "index.html"@ && final(table)@ == old(
                    table,
                )@.push(final(table)@.last()) && final(table)@.last().id == next_id(
                    reader_ids(old(table)@),
                ) && final(table)@.last().firstname == after_last(segs[segs.len() - 2], '=')
                    && final(table)@.last().surname == after_last(segs[segs.len() - 1], '=')
                    && final(table)@.last().read_books == Seq::<int>::empty()
            } else {
                r.0@ == "HTTP/1.1 409 CONFLICT"@ && r.1@ == "index.html"@ && final(table)@ == old(
                    table,
                )@
            }
        }),
        is_unrouted(request_line@) ==> r.0@ == "HTTP/1.1 404 NOT FOUND"@ && r.1@ == "404.html"@
            && final(table)@ == old(table)@,
{
    let action = route_request(request_line, body);
    if let RouteAction::CreateReader(f, s) = &action {
        match store {
            StoreOutcome::Completed => {
                let _created = Reader::create(f.clone(), s.clone(), table);
            },
            StoreOutcome::Failed => {},
        }
    }
    respond_to(&action, store)
}

} // verus!
