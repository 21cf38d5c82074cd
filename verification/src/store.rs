use vstd::prelude::*;
use vstd::string::*;

use crate::candidate::{Candidate, CandidateModel};
use crate::lines::{Line, LineModel};
use crate::resolve::{pair_faces, select_candidates, DuoMatch, FaceRow};

verus! {

// The catalog store and the durable output tables, reached through
// rusqlite. Every call into rusqlite stands behind a trusted wrapper; what
// comes back from the database is handled by verified code that assumes
// nothing about it.

#[verifier::external_type_specification]
#[verifier::external_body]
pub struct ExConnection(rusqlite::Connection);

#[verifier::external_type_specification]
#[verifier::external_body]
pub struct ExSqlError(rusqlite::Error);

/// An error of the resolution engine.
#[derive(Debug)]
pub enum EngineError {
    /// The `uid=` header of a list was not valid hex.
    BadUid,
    /// A store or index call failed; resolution aborts, nothing is retried.
    Store { detail: String },
}

impl EngineError {
    /// The error, in words.
    pub fn describe(&self) -> (r: String)
        ensures
            match self {
                EngineError::BadUid => r@ == "could not decode uid"@,
                EngineError::Store { detail } => r@ == detail@,
            },
    {
        match self {
            EngineError::BadUid => String::from_str("could not decode uid"),
            EngineError::Store { detail } => detail.clone(),
        }
    }
}

/// Relies on rusqlite's `Error: Display`: the error, in words.
#[verifier::external_body]
fn sql_error_text(e: &rusqlite::Error) -> (r: String) {
    e.to_string()
}

fn store_err(e: rusqlite::Error) -> (r: EngineError)
    ensures
        r is Store,
{
    EngineError::Store { detail: sql_error_text(&e) }
}

/// Relies on rusqlite's Connection::execute: runs one SQL statement without
/// parameters.
#[verifier::external_body]
fn exec_no_params(conn: &rusqlite::Connection, sql: &str) -> (r: Result<usize, rusqlite::Error>) {
    conn.execute(sql, [])
}

/// Relies on rusqlite's Connection::execute_batch: runs SQL statements
/// without parameters (used for BEGIN and COMMIT).
#[verifier::external_body]
fn exec_batch(conn: &rusqlite::Connection, sql: &str) -> (r: Result<(), rusqlite::Error>) {
    conn.execute_batch(sql)
}

/// Relies on rusqlite's Connection::query_row: one COUNT(*) query with one
/// blob parameter.
#[verifier::external_body]
fn query_count_blob(conn: &rusqlite::Connection, sql: &str, uid: &Vec<u8>) -> (r: Result<
    usize,
    rusqlite::Error,
>) {
    conn.query_row(sql, [uid.as_slice()], |row| row.get::<_, i64>(0)).map(|n| n as usize)
}

/// Relies on rusqlite's Connection::query_row: one COUNT(*) query keyed by
/// an identifier and a flag.
#[verifier::external_body]
fn query_count_key(conn: &rusqlite::Connection, sql: &str, id: &str, foil: bool) -> (r: Result<
    usize,
    rusqlite::Error,
>) {
    conn.query_row(sql, (id, foil), |row| row.get::<_, i64>(0)).map(|n| n as usize)
}

/// Relies on rusqlite's Connection::execute: one statement with an
/// identifier, a flag and an amount as parameters.
#[verifier::external_body]
fn exec_key_amount(
    conn: &rusqlite::Connection,
    sql: &str,
    id: &str,
    foil: bool,
    amount: usize,
) -> (r: Result<usize, rusqlite::Error>) {
    conn.execute(sql, (id, foil, amount as i64))
}

/// Relies on rusqlite's Connection::execute: one statement with one blob
/// parameter.
#[verifier::external_body]
fn exec_blob(conn: &rusqlite::Connection, sql: &str, uid: &Vec<u8>) -> (r: Result<
    usize,
    rusqlite::Error,
>) {
    conn.execute(sql, [uid.as_slice()])
}

/// Relies on rusqlite's Statement::query_map: candidate rows of the catalog
/// (name, id, uri, set name, promo flag, score), for one name parameter.
#[verifier::external_body]
fn query_candidates(conn: &rusqlite::Connection, sql: &str, name: &str) -> (r: Result<
    Vec<Candidate>,
    rusqlite::Error,
>) {
    let mut stmt = conn.prepare(sql)?;
    let rows = stmt.query_map([name], |row| {
        Ok(Candidate {
            name: row.get(0)?,
            id: row.get(1)?,
            uri: row.get(2)?,
            set_name: row.get(3)?,
            promo: row.get(4)?,
            score: row.get::<_, u32>(5)? as usize,
        })
    })?;
    rows.collect()
}

/// One fuzzy-matched vocabulary word with its distance score.
pub struct WordScore {
    pub word: String,
    pub score: usize,
}

/// Relies on rusqlite's Statement::query_map: (word, score) rows of a fuzzy
/// vocabulary query, for one token parameter.
#[verifier::external_body]
fn query_word_scores(conn: &rusqlite::Connection, sql: &str, token: &str) -> (r: Result<
    Vec<WordScore>,
    rusqlite::Error,
>) {
    let mut stmt = conn.prepare(sql)?;
    let rows = stmt.query_map([token], |row| {
        Ok(WordScore { word: row.get(0)?, score: row.get::<_, u32>(1)? as usize })
    })?;
    rows.collect()
}

/// Relies on rusqlite's Statement::query_map: single-string rows, for one
/// string parameter.
#[verifier::external_body]
fn query_strings(conn: &rusqlite::Connection, sql: &str, param: &str) -> (r: Result<
    Vec<String>,
    rusqlite::Error,
>) {
    let mut stmt = conn.prepare(sql)?;
    let rows = stmt.query_map([param], |row| row.get(0))?;
    rows.collect()
}

/// One catalog record's metadata.
pub struct CardMeta {
    pub uri: String,
    pub set_name: String,
    pub promo: bool,
}

/// Relies on rusqlite's Statement::query_map: metadata rows (uri, set name,
/// promo) of the catalog, for one identifier parameter.
#[verifier::external_body]
fn query_card_meta(conn: &rusqlite::Connection, sql: &str, id: &str) -> (r: Result<
    Vec<CardMeta>,
    rusqlite::Error,
>) {
    let mut stmt = conn.prepare(sql)?;
    let rows = stmt.query_map([id], |row| {
        Ok(CardMeta { uri: row.get(0)?, set_name: row.get(1)?, promo: row.get(2)? })
    })?;
    rows.collect()
}

// ------------------------------------------------------------------
// Verified composition over the trusted layer.

/// Creates the durable output tables if they are missing.
pub fn ensure_schema(conn: &rusqlite::Connection) -> (r: Result<(), EngineError>)
    ensures
        r matches Err(e) ==> e is Store,
{
    match exec_no_params(
        conn,
        "CREATE TABLE IF NOT EXISTS cards (id TEXT NOT NULL, foil BOOLEAN NOT NULL DEFAULT false, amount INTEGER NOT NULL, PRIMARY KEY (id, foil))",
    ) {
        Ok(_) => {},
        Err(e) => {
            return Err(store_err(e));
        },
    }
    match exec_no_params(
        conn,
        "CREATE TABLE IF NOT EXISTS lists (hash BLOB PRIMARY KEY NOT NULL)",
    ) {
        Ok(_) => Ok(()),
        Err(e) => Err(store_err(e)),
    }
}

/// Opens the transaction that spans one whole list application.
pub fn begin_tx(conn: &rusqlite::Connection) -> (r: Result<(), EngineError>)
    ensures
        r matches Err(e) ==> e is Store,
{
    match exec_batch(conn, "BEGIN") {
        Ok(_) => Ok(()),
        Err(e) => Err(store_err(e)),
    }
}

/// Rolls the open transaction back, discarding every counter change.
pub fn rollback_tx(conn: &rusqlite::Connection) -> (r: Result<(), EngineError>)
    ensures
        r matches Err(e) ==> e is Store,
{
    match exec_batch(conn, "ROLLBACK") {
        Ok(_) => Ok(()),
        Err(e) => Err(store_err(e)),
    }
}

/// Is this list fingerprint already recorded as applied?
pub fn is_applied(conn: &rusqlite::Connection, uid: &Vec<u8>) -> (r: Result<bool, EngineError>)
    ensures
        r matches Err(e) ==> e is Store,
{
    match query_count_blob(conn, "SELECT COUNT(*) FROM lists WHERE hash = ?1", uid) {
        Ok(n) => Ok(n > 0),
        Err(e) => Err(store_err(e)),
    }
}

/// The exact lookup: catalog rows whose localized (printed) name matches,
/// or whose canonical name matches when no localized name exists.
pub fn exact_candidates(conn: &rusqlite::Connection, name: &str) -> (r: Result<
    Vec<Candidate>,
    EngineError,
>)
    ensures
        r matches Err(e) ==> e is Store,
{
    match query_candidates(
        conn,
        "SELECT printed_name, id, uri, set_name, promo, 0 as score FROM scryfall WHERE printed_name = ?1 UNION SELECT name, id, uri, set_name, promo, 0 as score FROM scryfall WHERE name = ?1 AND printed_name IS NULL",
        name,
    ) {
        Ok(v) => Ok(v),
        Err(e) => Err(store_err(e)),
    }
}

/// The fuzzy fallback: vocabulary words near the token, joined back to
/// catalog rows, carrying the index's distance as the score.
pub fn fuzzy_candidates(conn: &rusqlite::Connection, name: &str) -> (r: Result<
    Vec<Candidate>,
    EngineError,
>)
    ensures
        r matches Err(e) ==> e is Store,
{
    match query_candidates(
        conn,
        "SELECT IIF(printed_name IS NULL, name, printed_name) as nm, id, uri, set_name, promo, score FROM scryfall, card_names WHERE word MATCH ?1 AND (printed_name = word OR (name = word AND printed_name IS NULL))",
        name,
    ) {
        Ok(v) => Ok(v),
        Err(e) => Err(store_err(e)),
    }
}

/// The face-name vocabulary words near one half of a double-faced token.
fn face_word_scores(conn: &rusqlite::Connection, token: &str) -> (r: Result<
    Vec<WordScore>,
    EngineError,
>)
    ensures
        r matches Err(e) ==> e is Store,
{
    match query_word_scores(
        conn,
        "SELECT word, score FROM face_names WHERE word MATCH ?1",
        token,
    ) {
        Ok(v) => Ok(v),
        Err(e) => Err(store_err(e)),
    }
}

/// The row carries one of the matched words, with that word's own score.
pub open spec fn carries_word(row: FaceRow, words: Seq<WordScore>) -> bool {
    exists|i: int|
        0 <= i < words.len() && row.word@ == (#[trigger] words[i]).word@ && row.score
            == words[i].score
}

/// The face rows of one matched word: one row per catalog identifier, all
/// carrying the word and its score, the identifiers in their given order.
fn expand_word(w: &WordScore, ids: Vec<String>) -> (r: Vec<FaceRow>)
    ensures
        r@.len() == ids@.len(),
        forall|j: int|
            0 <= j < ids@.len() ==> (#[trigger] r@[j]).word@ == w.word@ && r@[j].score == w.score
                && r@[j].id@ == ids@[j]@,
{
    let mut r: Vec<FaceRow> = Vec::new();
    let mut j: usize = 0;
    while j < ids.len()
        invariant
            j <= ids@.len(),
            r@.len() == j,
            forall|k: int|
                0 <= k < j ==> (#[trigger] r@[k]).word@ == w.word@ && r@[k].score == w.score
                    && r@[k].id@ == ids@[k]@,
        decreases ids@.len() - j,
    {
        r.push(FaceRow { word: w.word.clone(), score: w.score, id: ids[j].clone() });
        j += 1;
    }
    r
}

/// Flattens fuzzy-matched face words into face rows: every produced row
/// carries one of the matched words with that word's own score — words and
/// scores are never mixed across matches.
fn face_rows(conn: &rusqlite::Connection, words: Vec<WordScore>) -> (r: Result<
    Vec<FaceRow>,
    EngineError,
>)
    ensures
        r matches Ok(rows) ==> forall|k: int|
            0 <= k < rows@.len() ==> carries_word(#[trigger] rows@[k], words@),
        r matches Err(e) ==> e is Store,
{
    let mut out: Vec<FaceRow> = Vec::new();
    let mut i: usize = 0;
    while i < words.len()
        invariant
            i <= words@.len(),
            forall|k: int| 0 <= k < out@.len() ==> carries_word(#[trigger] out@[k], words@),
        decreases words@.len() - i,
    {
        let w = &words[i];
        let ids = match query_strings(
            conn,
            "SELECT id FROM scryfall_faces WHERE name = ?1",
            w.word.as_str(),
        ) {
            Ok(v) => v,
            Err(e) => {
                return Err(store_err(e));
            },
        };
        let ghost old_out = out@;
        let mut fresh = expand_word(w, ids);
        let ghost fresh_rows = fresh@;
        out.append(&mut fresh);
        proof {
            assert forall|k: int| 0 <= k < out@.len() implies carries_word(
                #[trigger] out@[k],
                words@,
            ) by {
                if k < old_out.len() {
                    assert(out@[k] == old_out[k]);
                } else {
                    assert(out@[k] == fresh_rows[k - old_out.len()]);
                    let wi = words@[i as int];
                    assert(out@[k].word@ == wi.word@ && out@[k].score == wi.score);
                }
            }
        }
        i += 1;
    }
    Ok(out)
}

/// The candidates of one joined double-faced match: one per catalog
/// metadata row, every field fixed — the joined name, identifier and score
/// from the match; uri, set name and promo flag from the row.
pub fn attach_meta(d: &DuoMatch, metas: Vec<CardMeta>) -> (r: Vec<Candidate>)
    ensures
        r@.len() == metas@.len(),
        forall|j: int|
            0 <= j < metas@.len() ==> (#[trigger] r@[j])@ == (CandidateModel {
                name: d.name@,
                id: d.id@,
                uri: metas@[j].uri@,
                set_name: metas@[j].set_name@,
                promo: metas@[j].promo,
                score: d.score as int,
            }),
{
    let mut r: Vec<Candidate> = Vec::new();
    let mut j: usize = 0;
    while j < metas.len()
        invariant
            j <= metas@.len(),
            r@.len() == j,
            forall|k: int|
                0 <= k < j ==> (#[trigger] r@[k])@ == (CandidateModel {
                    name: d.name@,
                    id: d.id@,
                    uri: metas@[k].uri@,
                    set_name: metas@[k].set_name@,
                    promo: metas@[k].promo,
                    score: d.score as int,
                }),
        decreases metas@.len() - j,
    {
        let m = &metas[j];
        let c = Candidate {
            name: d.name.clone(),
            id: d.id.clone(),
            uri: m.uri.clone(),
            set_name: m.set_name.clone(),
            promo: m.promo,
            score: d.score,
        };
        proof {
            assert(c@ =~= (CandidateModel {
                name: d.name@,
                id: d.id@,
                uri: metas@[j as int].uri@,
                set_name: metas@[j as int].set_name@,
                promo: metas@[j as int].promo,
                score: d.score as int,
            }));
        }
        r.push(c);
        j += 1;
    }
    r
}

/// The double-faced lookup: each half is fuzzy-matched against the
/// face-name vocabulary independently; the verified join keeps one
/// candidate per identifier reached through two different face names, and
/// the catalog supplies the metadata.
pub fn pair_candidates(conn: &rusqlite::Connection, first: &str, second: &str) -> (r: Result<
    Vec<Candidate>,
    EngineError,
>)
    ensures
        r matches Err(e) ==> e is Store,
{
    let m1 = match face_word_scores(conn, first) {
        Ok(v) => v,
        Err(e) => {
            return Err(e);
        },
    };
    let m2 = match face_word_scores(conn, second) {
        Ok(v) => v,
        Err(e) => {
            return Err(e);
        },
    };
    let rows1 = match face_rows(conn, m1) {
        Ok(v) => v,
        Err(e) => {
            return Err(e);
        },
    };
    let rows2 = match face_rows(conn, m2) {
        Ok(v) => v,
        Err(e) => {
            return Err(e);
        },
    };
    let duos = pair_faces(&rows1, &rows2);
    let mut out: Vec<Candidate> = Vec::new();
    let mut i: usize = 0;
    while i < duos.len()
        decreases duos@.len() - i,
    {
        let d = &duos[i];
        let metas = match query_card_meta(
            conn,
            "SELECT uri, set_name, promo FROM scryfall WHERE id = ?1",
            d.id.as_str(),
        ) {
            Ok(v) => v,
            Err(e) => {
                return Err(store_err(e));
            },
        };
        let mut cands = attach_meta(d, metas);
        out.append(&mut cands);
        i += 1;
    }
    Ok(out)
}

/// What resolving one parsed line yields before any operator interaction:
/// either a decision, or a pool the operator must choose from.
pub enum LineOutcome {
    Done { id: String, foil: bool },
    Choose { pool: Vec<Candidate>, foil: bool },
}

/// Decides a fetched candidate pool by its size: exactly one candidate
/// decides with its identifier and no prompt; several are handed to the
/// operator unchanged — ambiguity is never an error; none is left to the
/// caller, which must fetch the fuzzy corrections instead.
pub fn decide_pool(pool: Vec<Candidate>, foil: bool) -> (r: Option<LineOutcome>)
    ensures
        pool@.len() == 1 ==> (r matches Some(o) && o matches LineOutcome::Done {
            id,
            foil: f,
        } && id@ == pool@[0].id@ && f == foil),
        pool@.len() > 1 ==> (r matches Some(o) && o matches LineOutcome::Choose {
            pool: p,
            foil: f,
        } && p@ == pool@ && f == foil),
        pool@.len() == 0 ==> r is None,
{
    if pool.len() == 1 {
        let id = pool[0].id.clone();
        Some(LineOutcome::Done { id, foil })
    } else if pool.len() > 1 {
        Some(LineOutcome::Choose { pool, foil })
    } else {
        None
    }
}

/// Hands a correction pool to the operator unchanged: the zero-match
/// fallback always prompts, even over a single correction.
pub fn present_pool(pool: Vec<Candidate>, foil: bool) -> (r: LineOutcome)
    ensures
        r matches LineOutcome::Choose { pool: p, foil: f } && p@ == pool@ && f == foil,
{
    LineOutcome::Choose { pool, foil }
}

/// Resolves one parsed line as far as the catalog can take it. A literal
/// record decides immediately, with no store call and no failure. A single
/// name takes its exact matches when there are any (score forced to 0 by
/// `select_candidates` — fuzzy search is skipped entirely); `decide_pool`
/// then settles the arity: one match decides, several go to the operator,
/// and only a nameless token falls back to the fuzzy corrections, which
/// `present_pool` always hands to the operator. A double-faced name goes
/// through the two-half join and the same arity decision.
pub fn resolve_line(conn: &rusqlite::Connection, line: &Line) -> (r: Result<
    LineOutcome,
    EngineError,
>)
    ensures
        line@ matches LineModel::Literal { id, foil } ==> (r matches Ok(o) && o matches
            LineOutcome::Done { id: rid, foil: rfoil } && rid@ == id && rfoil == foil),
        line@ matches LineModel::Single { name, foil } ==> (r matches Ok(o) ==> outcome_foil(o)
            == foil),
        line@ matches LineModel::Pair { first, second, raw, foil } ==> (r matches Ok(o)
            ==> outcome_foil(o) == foil),
        r matches Err(e) ==> e is Store,
{
    match line {
        Line::Literal { id, foil } => Ok(LineOutcome::Done { id: id.clone(), foil: *foil }),
        Line::Single { name, foil } => {
            let exact = match exact_candidates(conn, name.as_str()) {
                Ok(v) => v,
                Err(e) => {
                    return Err(e);
                },
            };
            let pool = select_candidates(exact, Vec::new());
            match decide_pool(pool, *foil) {
                Some(o) => Ok(o),
                None => {
                    let fuzzy = match fuzzy_candidates(conn, name.as_str()) {
                        Ok(v) => v,
                        Err(e) => {
                            return Err(e);
                        },
                    };
                    Ok(present_pool(fuzzy, *foil))
                },
            }
        },
        Line::Pair { first, second, raw, foil } => {
            let cands = match pair_candidates(conn, first.as_str(), second.as_str()) {
                Ok(v) => v,
                Err(e) => {
                    return Err(e);
                },
            };
            match decide_pool(cands, *foil) {
                Some(o) => Ok(o),
                None => {
                    let fuzzy = match fuzzy_candidates(conn, raw.as_str()) {
                        Ok(v) => v,
                        Err(e) => {
                            return Err(e);
                        },
                    };
                    Ok(present_pool(fuzzy, *foil))
                },
            }
        },
    }
}

/// The variant flag an outcome carries.
pub open spec fn outcome_foil(o: LineOutcome) -> bool {
    match o {
        LineOutcome::Done { id, foil } => foil,
        LineOutcome::Choose { pool, foil } => foil,
    }
}

/// Writes one run's aggregated counters and its fingerprint into the store
/// and commits the transaction: one insert for a pair first seen, one
/// increment for a pair already counted, the fingerprint recorded last,
/// all atomic with the open transaction.
pub fn flush_run(
    conn: &rusqlite::Connection,
    counts: &crate::run::CountsTable,
    uid: &Vec<u8>,
) -> (r: Result<(), EngineError>)
    requires
        counts.wf(),
    ensures
        r matches Err(e) ==> e is Store,
{
    let rows = counts.entries();
    let mut i: usize = 0;
    while i < rows.len()
        decreases rows@.len() - i,
    {
        let row = &rows[i];
        let present = match query_count_key(
            conn,
            "SELECT COUNT(*) FROM cards WHERE id = ?1 AND foil = ?2",
            row.id.as_str(),
            row.foil,
        ) {
            Ok(n) => n,
            Err(e) => {
                return Err(store_err(e));
            },
        };
        let outcome = if present == 0 {
            exec_key_amount(
                conn,
                "INSERT INTO cards (id, foil, amount) VALUES (?1, ?2, ?3)",
                row.id.as_str(),
                row.foil,
                row.amount,
            )
        } else {
            exec_key_amount(
                conn,
                "UPDATE cards SET amount = amount + ?3 WHERE id = ?1 AND foil = ?2",
                row.id.as_str(),
                row.foil,
                row.amount,
            )
        };
        match outcome {
            Ok(_) => {},
            Err(e) => {
                return Err(store_err(e));
            },
        }
        i += 1;
    }
    match exec_blob(conn, "INSERT OR IGNORE INTO lists (hash) VALUES (?1)", uid) {
        Ok(_) => {},
        Err(e) => {
            return Err(store_err(e));
        },
    }
    match exec_batch(conn, "COMMIT") {
        Ok(_) => Ok(()),
        Err(e) => Err(store_err(e)),
    }
}

} // verus!
