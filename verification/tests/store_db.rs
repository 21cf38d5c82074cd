// These tests run the engine's store layer against a real in-memory
// sqlite database: schema creation, the fingerprint table, the counter
// upserts, and the exact-lookup resolution path. The fuzzy vocabulary
// index is a loadable extension of the deployment and is not exercised
// here.

use carddex::lines::parse_line;
use carddex::run::{tally, ListRun};
use carddex::store::{
    begin_tx, ensure_schema, exact_candidates, flush_run, is_applied, resolve_line, EngineError,
    LineOutcome,
};

fn catalog() -> rusqlite::Connection {
    let conn = rusqlite::Connection::open_in_memory().expect("in-memory database");
    conn.execute(
        "CREATE TABLE scryfall (id TEXT PRIMARY KEY NOT NULL, name TEXT NOT NULL, printed_name TEXT, eur TEXT, eur_foil TEXT, uri TEXT NOT NULL, set_name TEXT NOT NULL, promo BOOLEAN NOT NULL, variation BOOLEAN NOT NULL)",
        [],
    )
    .expect("catalog table");
    conn.execute(
        "INSERT INTO scryfall VALUES ('I1', 'Island', NULL, NULL, NULL, 'uri:I1', 'SetA', false, false)",
        [],
    )
    .expect("catalog row");
    conn.execute(
        "INSERT INTO scryfall VALUES ('B1', 'Bolt', 'bolt-printed', NULL, NULL, 'uri:B1', 'SetB', false, false)",
        [],
    )
    .expect("catalog row");
    conn
}

#[test]
fn exact_lookup_matches_canonical_name_without_printed_name() {
    let conn = catalog();
    let found = exact_candidates(&conn, "Island").expect("lookup runs");
    assert_eq!(found.len(), 1);
    assert_eq!(found[0].id, "I1");
    assert_eq!(found[0].set_name, "SetA");
    // a card with a printed name is not matched by its canonical name
    let found = exact_candidates(&conn, "Bolt").expect("lookup runs");
    assert_eq!(found.len(), 0);
    let found = exact_candidates(&conn, "bolt-printed").expect("lookup runs");
    assert_eq!(found.len(), 1);
    assert_eq!(found[0].id, "B1");
}

#[test]
fn literal_line_resolves_without_touching_the_store() {
    // no catalog tables at all: a literal record still resolves
    let conn = rusqlite::Connection::open_in_memory().expect("in-memory database");
    let line = parse_line("[id][F]I1");
    match resolve_line(&conn, &line).expect("no store call") {
        LineOutcome::Done { id, foil } => {
            assert_eq!(id, "I1");
            assert!(foil);
        }
        LineOutcome::Choose { .. } => panic!("a literal record never prompts"),
    }
}

#[test]
fn unique_exact_match_resolves_without_interaction() {
    let conn = catalog();
    let line = parse_line("Island");
    match resolve_line(&conn, &line).expect("lookup runs") {
        LineOutcome::Done { id, foil } => {
            assert_eq!(id, "I1");
            assert!(!foil);
        }
        LineOutcome::Choose { .. } => panic!("a unique exact match never prompts"),
    }
}

#[test]
fn store_error_propagates_with_detail() {
    // no tables: the fingerprint check fails as a store error
    let conn = rusqlite::Connection::open_in_memory().expect("in-memory database");
    match is_applied(&conn, &vec![1, 2, 3]) {
        Err(EngineError::Store { detail }) => assert!(!detail.is_empty()),
        _ => panic!("a missing table is a store error"),
    }
}

#[test]
fn flush_writes_counters_and_fingerprint_atomically() {
    let conn = catalog();
    ensure_schema(&conn).expect("schema");
    let uid = vec![0xab, 0xcd];
    assert!(!is_applied(&conn, &uid).expect("check runs"));

    let mut run = ListRun::new(uid.clone());
    run.record(String::from("I1"), false);
    run.record(String::from("I1"), false);
    run.record(String::from("B1"), true);

    begin_tx(&conn).expect("transaction opens");
    let counts = tally(&run);
    flush_run(&conn, &counts, &uid).expect("flush commits");

    assert!(is_applied(&conn, &uid).expect("check runs"));
    let amount: i64 = conn
        .query_row(
            "SELECT amount FROM cards WHERE id = 'I1' AND foil = false",
            [],
            |row| row.get(0),
        )
        .expect("row present");
    assert_eq!(amount, 2);
    let amount: i64 = conn
        .query_row(
            "SELECT amount FROM cards WHERE id = 'B1' AND foil = true",
            [],
            |row| row.get(0),
        )
        .expect("row present");
    assert_eq!(amount, 1);

    // a second flush of another run increments existing rows
    let uid2 = vec![0x11];
    let mut run2 = ListRun::new(uid2.clone());
    run2.record(String::from("I1"), false);
    begin_tx(&conn).expect("transaction opens");
    let counts2 = tally(&run2);
    flush_run(&conn, &counts2, &uid2).expect("flush commits");
    let amount: i64 = conn
        .query_row(
            "SELECT amount FROM cards WHERE id = 'I1' AND foil = false",
            [],
            |row| row.get(0),
        )
        .expect("row present");
    assert_eq!(amount, 3);
}
