use restlib::router::RouteAction;
use restlib::router::StoreOutcome;
use restlib::router::handle_request;
use restlib::router::respond_to;
use restlib::router::route_request;
use restlib::store::ReaderTable;

#[test]
fn index_route_serves_the_index_asset() {
    let mut table = ReaderTable::new();
    let (status, file) = handle_request(&mut table, StoreOutcome::Completed, "GET / HTTP/1.1", "");
    assert_eq!(status, "HTTP/1.1 200 OK");
    assert_eq!(file, "index.html");
    assert!(table.fetch_latest().is_none());
}

#[test]
fn signup_route_serves_the_signup_asset() {
    let mut table = ReaderTable::new();
    let (status, file) = handle_request(
        &mut table,
        StoreOutcome::Completed,
        "GET /signup HTTP/1.1",
        "",
    );
    assert_eq!(status, "HTTP/1.1 200 OK");
    assert_eq!(file, "signup.html");
}

#[test]
fn post_readers_creates_the_decoded_reader() {
    let mut table = ReaderTable::new();
    let (status, file) = handle_request(
        &mut table,
        StoreOutcome::Completed,
        "POST /readers HTTP/1.1",
        "firstname=Ada&surname=Lovelace",
    );
    assert_eq!(status, "HTTP/1.1 201 CREATED");
    assert_eq!(file, "index.html");
    let row = table.fetch_latest().unwrap();
    assert_eq!(row.id, 1);
    assert_eq!(row.firstname, "Ada");
    assert_eq!(row.surname, "Lovelace");
    assert!(row.read_books.is_empty());
}

#[test]
fn post_readers_with_failed_store_persists_nothing() {
    let mut table = ReaderTable::new();
    let (status, file) = handle_request(
        &mut table,
        StoreOutcome::Failed,
        "POST /readers HTTP/1.1",
        "firstname=Ada&surname=Lovelace",
    );
    assert_eq!(status, "HTTP/1.1 409 CONFLICT");
    assert_eq!(file, "index.html");
    assert!(table.fetch_latest().is_none());
}

#[test]
fn post_readers_with_one_field_is_rejected() {
    let mut table = ReaderTable::new();
    let (status, file) = handle_request(
        &mut table,
        StoreOutcome::Completed,
        "POST /readers HTTP/1.1",
        "only_one_field=x",
    );
    assert_eq!(status, "HTTP/1.1 400 BAD REQUEST");
    assert_eq!(file, "404.html");
    assert!(table.fetch_latest().is_none());
}

#[test]
fn every_unknown_route_yields_not_found() {
    let mut table = ReaderTable::new();
    let unknown = [
        "GET /books HTTP/1.1",
        "DELETE / HTTP/1.1",
        "GET / HTTP/1.0",
        "get / http/1.1",
        "",
        "POST /readers HTTP/1.1 ",
    ];
    for line in unknown {
        let (status, file) = handle_request(&mut table, StoreOutcome::Completed, line, "a=b&c=d");
        assert_eq!(status, "HTTP/1.1 404 NOT FOUND");
        assert_eq!(file, "404.html");
    }
    assert!(table.fetch_latest().is_none());
}

#[test]
fn route_request_decodes_the_body_positionally() {
    let action = route_request("POST /readers HTTP/1.1", "firstname=Ada&surname=Lovelace");
    match action {
        RouteAction::CreateReader(firstname, surname) => {
            assert_eq!(firstname, "Ada");
            assert_eq!(surname, "Lovelace");
        }
        _ => panic!("expected a create action"),
    }
}

#[test]
fn respond_to_degrades_a_failed_create_to_conflict() {
    let action = route_request("POST /readers HTTP/1.1", "firstname=Ada&surname=Lovelace");
    let (ok_status, ok_file) = respond_to(&action, StoreOutcome::Completed);
    let (err_status, err_file) = respond_to(&action, StoreOutcome::Failed);
    assert_eq!(ok_status, "HTTP/1.1 201 CREATED");
    assert_eq!(err_status, "HTTP/1.1 409 CONFLICT");
    assert_eq!(ok_file, "index.html");
    assert_eq!(err_file, "index.html");
}
