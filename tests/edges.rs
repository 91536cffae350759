use driver::fetch::{choose_timestamp, scrape_timestamp};
use driver::http::{Route, Svc};
use driver::sql::{create_scalar_sql, insert_scalar_sql, quote_identifier, timestamp_text};

#[test]
fn server_date_wins_over_the_clock() {
    assert_eq!(scrape_timestamp(Some("Wed, 18 Feb 2015 23:16:09 GMT"), 5), 1424301369000);
    assert_eq!(scrape_timestamp(Some("not a date"), 5), 5);
    assert_eq!(scrape_timestamp(None, 5), 5);
}

#[test]
fn timestamp_choice() {
    assert_eq!(choose_timestamp(Some(42), 7), 42);
    assert_eq!(choose_timestamp(Some(-1), 7), 7);
    assert_eq!(choose_timestamp(None, 7), 7);
}

#[test]
fn timestamps_as_text() {
    assert_eq!(timestamp_text(0).as_deref(), Some("1970-01-01T00:00:00+00:00"));
    assert_eq!(timestamp_text(1700000000000).as_deref(), Some("2023-11-14T22:13:20+00:00"));
    assert_eq!(timestamp_text(u64::MAX), None);
}

#[test]
fn identifiers_are_quoted() {
    assert_eq!(quote_identifier("a:b"), "\"a:b\"");
    assert_eq!(quote_identifier("a\"b"), "\"a\"\"b\"");
}

#[test]
fn value_table_statements() {
    assert_eq!(
        create_scalar_sql("up", false),
        "CREATE TABLE \"up\" (series_id INTEGER NOT NULL REFERENCES series(id) ON DELETE CASCADE, timestamp DATETIME NOT NULL, value REAL NOT NULL, PRIMARY KEY (series_id, timestamp))"
    );
    assert!(create_scalar_sql("up", true).starts_with("CREATE VIRTUAL TABLE \"up\" USING stanchion"));
    assert_eq!(insert_scalar_sql("up"), "INSERT INTO \"up\" (series_id, timestamp, value) VALUES (?1, ?2, ?3)");
}

#[test]
fn status_routes() {
    let s = Svc::new();
    assert_eq!(s.route("/"), Route::Index);
    assert_eq!(s.route("/metrics"), Route::Metrics);
    assert_eq!(s.route("/-/healthy").status(), 200);
    assert_eq!(s.route("/-/ready"), Route::Healthy);
    assert_eq!(s.route("/-/reload").status(), 501);
    assert_eq!(s.route("/-/quit"), Route::NotImplemented);
    assert_eq!(s.route("/nope").status(), 404);
}
