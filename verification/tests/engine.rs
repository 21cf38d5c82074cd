use carddex::candidate::Candidate;
use carddex::chooser::Chooser;
use carddex::codec::{prepare_list, split_lines, uid_header};
use carddex::lines::{literal_line, parse_line, Line};
use carddex::resolve::{pair_faces, select_candidates, DuoMatch, FaceRow};
use carddex::run::{apply_run, tally, AppliedSet, CountsTable, ListRun, StoreModel};
use carddex::session::SessionMemory;
use carddex::store::{attach_meta, decide_pool, present_pool, CardMeta, EngineError, LineOutcome};
use sha2::Digest;

fn cand(name: &str, id: &str, set_name: &str, score: usize) -> Candidate {
    Candidate {
        name: String::from(name),
        id: String::from(id),
        uri: String::from("uri"),
        set_name: String::from(set_name),
        promo: false,
        score,
    }
}

fn fresh_store() -> StoreModel {
    StoreModel { counts: CountsTable::new(), applied: AppliedSet::new() }
}

fn clone_pool(pool: &Vec<Candidate>) -> Vec<Candidate> {
    pool.iter().map(|c| c.duplicate()).collect()
}

#[test]
fn parse_plain_name() {
    match parse_line("Island") {
        Line::Single { name, foil } => {
            assert_eq!(name, "Island");
            assert!(!foil);
        }
        _ => panic!("expected a single name"),
    }
}

#[test]
fn parse_foil_name() {
    match parse_line("[F]Island") {
        Line::Single { name, foil } => {
            assert_eq!(name, "Island");
            assert!(foil);
        }
        _ => panic!("expected a single name"),
    }
}

#[test]
fn parse_double_faced_trims_halves() {
    match parse_line("Fire // Ice") {
        Line::Pair { first, second, raw, foil } => {
            assert_eq!(first, "Fire");
            assert_eq!(second, "Ice");
            assert_eq!(raw, "Fire // Ice");
            assert!(!foil);
        }
        _ => panic!("expected a pair"),
    }
}

#[test]
fn parse_double_faced_tight_spacing() {
    match parse_line("[F]Fire//Ice") {
        Line::Pair { first, second, foil, .. } => {
            assert_eq!(first, "Fire");
            assert_eq!(second, "Ice");
            assert!(foil);
        }
        _ => panic!("expected a pair"),
    }
}

#[test]
fn parse_literal_records() {
    match parse_line("[id]abc-1") {
        Line::Literal { id, foil } => {
            assert_eq!(id, "abc-1");
            assert!(!foil);
        }
        _ => panic!("expected a literal record"),
    }
    match parse_line("[id][F]abc-1") {
        Line::Literal { id, foil } => {
            assert_eq!(id, "abc-1");
            assert!(foil);
        }
        _ => panic!("expected a literal record"),
    }
}

#[test]
fn literal_record_round_trip() {
    for &foil in &[false, true] {
        let line = literal_line("deadbeef", foil);
        match parse_line(line.as_str()) {
            Line::Literal { id, foil: f } => {
                assert_eq!(id, "deadbeef");
                assert_eq!(f, foil);
            }
            _ => panic!("record did not read back as a literal"),
        }
    }
}

#[test]
fn exact_preemption_drops_fuzzy() {
    let exact = vec![cand("Island", "I1", "SetA", 7)];
    let fuzzy = vec![cand("Islang", "Z9", "SetB", 3)];
    let picked = select_candidates(exact, fuzzy);
    assert_eq!(picked.len(), 1);
    assert_eq!(picked[0].id, "I1");
    // exact matches carry score 0, whatever the store row said
    assert_eq!(picked[0].score, 0);
}

#[test]
fn fuzzy_used_only_without_exact() {
    let fuzzy = vec![cand("Islang", "Z9", "SetB", 3)];
    let picked = select_candidates(Vec::new(), fuzzy);
    assert_eq!(picked.len(), 1);
    assert_eq!(picked[0].id, "Z9");
    assert_eq!(picked[0].score, 3);
}

fn face(word: &str, score: usize, id: &str) -> FaceRow {
    FaceRow { word: String::from(word), score, id: String::from(id) }
}

#[test]
fn double_faced_join_requires_shared_id() {
    let left = vec![face("fire", 2, "FI1"), face("fira", 4, "ZZ9")];
    let right = vec![face("ice", 4, "FI1")];
    let joined = pair_faces(&left, &right);
    assert_eq!(joined.len(), 1);
    let d: &DuoMatch = &joined[0];
    assert_eq!(d.id, "FI1");
    assert_eq!(d.name, "fire // ice");
    // the mean of the two distances, rounded down
    assert_eq!(d.score, 3);
}

#[test]
fn double_faced_join_rejects_same_face_twice() {
    let left = vec![face("fire", 0, "FI1")];
    let right = vec![face("fire", 0, "FI1")];
    let joined = pair_faces(&left, &right);
    assert_eq!(joined.len(), 0);
}

#[test]
fn pool_of_one_decides_without_interaction() {
    let pool = vec![cand("Island", "I1", "SetA", 0)];
    match decide_pool(pool, true) {
        Some(LineOutcome::Done { id, foil }) => {
            assert_eq!(id, "I1");
            assert!(foil);
        }
        _ => panic!("a unique candidate must decide"),
    }
}

#[test]
fn pool_of_many_goes_to_the_operator_unchanged() {
    let pool = vec![
        cand("Bolt", "B1", "SetA", 0),
        cand("Bolt", "B2", "SetB", 0),
        cand("Bolt", "B3", "SetC", 0),
    ];
    match decide_pool(clone_pool(&pool), false) {
        Some(LineOutcome::Choose { pool: p, foil }) => {
            assert!(!foil);
            assert_eq!(p.len(), 3);
            for (got, want) in p.iter().zip(pool.iter()) {
                assert_eq!(got.id, want.id);
                assert_eq!(got.score, want.score);
            }
        }
        _ => panic!("an ambiguous pool must be presented"),
    }
}

#[test]
fn empty_pool_defers_to_corrections() {
    assert!(decide_pool(Vec::new(), false).is_none());
    // the correction list is always presented, even a single entry
    match present_pool(vec![cand("Islang", "Z9", "SetB", 3)], false) {
        LineOutcome::Choose { pool, foil } => {
            assert!(!foil);
            assert_eq!(pool.len(), 1);
            assert_eq!(pool[0].id, "Z9");
        }
        LineOutcome::Done { .. } => panic!("a correction never decides by itself"),
    }
}

#[test]
fn attach_meta_fixes_every_field() {
    let d = DuoMatch { id: String::from("FI1"), name: String::from("fire // ice"), score: 3 };
    let metas = vec![
        CardMeta { uri: String::from("uri:FI1"), set_name: String::from("SetA"), promo: false },
        CardMeta { uri: String::from("uri:FI1b"), set_name: String::from("SetB"), promo: true },
    ];
    let cands = attach_meta(&d, metas);
    assert_eq!(cands.len(), 2);
    assert_eq!(cands[0].name, "fire // ice");
    assert_eq!(cands[0].id, "FI1");
    assert_eq!(cands[0].score, 3);
    assert_eq!(cands[0].uri, "uri:FI1");
    assert_eq!(cands[0].set_name, "SetA");
    assert!(!cands[0].promo);
    assert_eq!(cands[1].set_name, "SetB");
    assert!(cands[1].promo);
}

#[test]
fn ranking_ties_break_by_uri_then_promo() {
    let mem = SessionMemory::new();
    let mut a = cand("Bolt", "B1", "SetA", 2);
    a.uri = String::from("uri:b");
    let mut b = cand("Bolt", "B1", "SetA", 2);
    b.uri = String::from("uri:a");
    let c = Chooser::begin(vec![a, b], &mem);
    assert_eq!(c.cards[0].uri, "uri:a");

    let mut p = cand("Bolt", "B1", "SetA", 2);
    p.promo = true;
    let q = cand("Bolt", "B1", "SetA", 2);
    let c = Chooser::begin(vec![p, q], &mem);
    assert!(!c.cards[0].promo);
}

#[test]
fn ranking_prefers_remembered_id_then_set_then_score() {
    let mut mem = SessionMemory::new();
    let pool = vec![
        cand("Bolt", "B1", "SetA", 5),
        cand("Bolt", "B2", "SetB", 1),
        cand("Bolt", "B3", "SetC", 3),
    ];
    // nothing remembered: score decides
    let c = Chooser::begin(clone_pool(&pool), &mem);
    assert_eq!(c.cards[0].id, "B2");

    // remember B1's set: set preference beats score
    mem.record_choice(&String::from("X0"), &String::from("SetA"));
    let c = Chooser::begin(clone_pool(&pool), &mem);
    assert_eq!(c.cards[0].id, "B1");

    // remember B3's id: id preference beats everything
    mem.record_choice(&String::from("B3"), &String::from("SetZ"));
    let c = Chooser::begin(clone_pool(&pool), &mem);
    assert_eq!(c.cards[0].id, "B3");
}

#[test]
fn ranking_ties_break_by_name_then_set() {
    let mem = SessionMemory::new();
    let pool = vec![
        cand("Zebra", "Z1", "SetA", 2),
        cand("Aardvark", "A1", "SetB", 2),
        cand("Aardvark", "A2", "SetA", 2),
    ];
    let c = Chooser::begin(clone_pool(&pool), &mem);
    assert_eq!(c.cards[0].set_name, "SetA");
    assert_eq!(c.cards[0].name, "Aardvark");
    assert_eq!(c.cards[1].name, "Aardvark");
    assert_eq!(c.cards[1].set_name, "SetB");
    assert_eq!(c.cards[2].name, "Zebra");
}

#[test]
fn bad_uid_error_wording() {
    match prepare_list("uid=zz\n") {
        Err(e) => assert_eq!(e.describe(), "could not decode uid"),
        Ok(_) => panic!("a malformed header must be the input error"),
    }
}

#[test]
fn session_bias_after_choice() {
    let mut mem = SessionMemory::new();
    let pool = vec![cand("Bolt", "X1", "SetA", 5), cand("Bolt", "Y2", "SetB", 1)];
    let mut c = Chooser::begin(clone_pool(&pool), &mem);
    // ranked by score: Y2 first; the operator picks the second, X1
    assert_eq!(c.cards[0].id, "Y2");
    let picked = c.answer(2, &mut mem).expect("a valid index picks");
    assert_eq!(picked.id, "X1");
    // the same pool presented again: the remembered id now ranks first
    let c = Chooser::begin(clone_pool(&pool), &mem);
    assert_eq!(c.cards[0].id, "X1");
}

#[test]
fn pagination_reveals_ten_at_a_time() {
    let mem = SessionMemory::new();
    let mut pool = Vec::new();
    for i in 0..25 {
        pool.push(cand(&format!("Card{:02}", i), &format!("ID{:02}", i), "Set", i));
    }
    let mut c = Chooser::begin(pool, &mem);
    assert_eq!(c.shown_count(), 10);
    assert!(c.has_more());
    let mut mem2 = SessionMemory::new();
    assert!(c.answer(0, &mut mem2).is_none());
    assert_eq!(c.shown_count(), 20);
    assert!(c.answer(0, &mut mem2).is_none());
    assert_eq!(c.shown_count(), 25);
    assert!(!c.has_more());
    // revealing past the end is a no-op
    assert!(c.answer(0, &mut mem2).is_none());
    assert_eq!(c.shown_count(), 25);
    // an answer beyond the revealed range does nothing
    assert!(c.answer(26, &mut mem2).is_none());
    // a valid 1-based index picks that candidate
    let picked = c.answer(12, &mut mem2).expect("a valid index picks");
    assert_eq!(picked.id, "ID11");
}

#[test]
fn aggregation_counts_repeats() {
    let mut run = ListRun::new(vec![1, 2, 3]);
    run.record(String::from("I1"), false);
    run.record(String::from("I1"), false);
    run.record(String::from("I1"), false);
    run.record(String::from("I1"), true);
    let t = tally(&run);
    assert_eq!(t.get(&String::from("I1"), false), 3);
    assert_eq!(t.get(&String::from("I1"), true), 1);
    assert_eq!(t.get(&String::from("ZZ"), false), 0);
}

#[test]
fn idempotency_second_apply_unconfirmed_changes_nothing() {
    let mut store = fresh_store();
    let mut run = ListRun::new(vec![0xab]);
    run.record(String::from("I1"), false);
    run.record(String::from("I2"), true);

    let did = apply_run(&mut store, &run, false);
    assert!(did);
    assert_eq!(store.counts.get(&String::from("I1"), false), 1);
    assert_eq!(store.counts.get(&String::from("I2"), true), 1);

    // the same list again, operator declines: no change, no error
    let mut run2 = ListRun::new(vec![0xab]);
    run2.record(String::from("I1"), false);
    run2.record(String::from("I2"), true);
    let did2 = apply_run(&mut store, &run2, false);
    assert!(!did2);
    assert_eq!(store.counts.get(&String::from("I1"), false), 1);
    assert_eq!(store.counts.get(&String::from("I2"), true), 1);
}

#[test]
fn confirmed_reapplication_counts_again() {
    let mut store = fresh_store();
    let mut run = ListRun::new(vec![0xab]);
    run.record(String::from("I1"), false);
    apply_run(&mut store, &run, false);
    let did = apply_run(&mut store, &run, true);
    assert!(did);
    assert_eq!(store.counts.get(&String::from("I1"), false), 2);
}

#[test]
fn resume_log_replays_to_same_counters() {
    // the uninterrupted run: Island then Fire, both resolving cleanly
    let mut full = ListRun::new(vec![7]);
    full.record(String::from("I1"), false);
    full.record(String::from("F1"), false);
    let mut store_full = fresh_store();
    apply_run(&mut store_full, &full, false);

    // the aborted run got through Island only; its resume log holds the
    // header, one literal record, and the unprocessed line verbatim
    let mut aborted = ListRun::new(vec![7]);
    aborted.record(String::from("I1"), false);
    let mut log: Vec<String> = vec![uid_header(&aborted.uid)];
    log.extend(aborted.literal_lines());
    log.push(String::from("Fire"));

    assert_eq!(log[0], "uid=07");
    assert_eq!(log[1], "[id]I1");

    // the log as written to disk, one record per line, reads back as the
    // same records
    let text = log.join("\n") + "\n";
    let log = split_lines(&text);
    assert_eq!(log, vec!["uid=07", "[id]I1", "Fire"]);

    // replay: the literal record resolves with no lookup and no prompt
    let mut replay = ListRun::new(vec![7]);
    for line in &log[1..] {
        match parse_line(line.as_str()) {
            Line::Literal { id, foil } => replay.record(id, foil),
            Line::Single { name, foil } => {
                // the remainder resolves as the uninterrupted run did
                assert_eq!(name, "Fire");
                replay.record(String::from("F1"), foil);
            }
            Line::Pair { .. } => panic!("no pair in this list"),
        }
    }
    let mut store_replay = fresh_store();
    apply_run(&mut store_replay, &replay, false);

    for (id, foil) in [("I1", false), ("F1", false), ("ZZ", true)] {
        assert_eq!(
            store_replay.counts.get(&String::from(id), foil),
            store_full.counts.get(&String::from(id), foil)
        );
    }
}

#[test]
fn scenario_island_foil_island_fire_ice() {
    // catalog: a unique "Island" (I1) and a double-faced card (FI1) with
    // faces "Fire" and "Ice"; all three lines resolve without interaction
    let list = ["Island", "[F]Island", "Fire // Ice"];
    let mut run = ListRun::new(vec![9, 9]);
    for raw in list {
        // each line goes through the same contracted dispatch the resolver
        // uses; every pool here has exactly one candidate, so every line
        // decides with no operator interaction
        let decided = match parse_line(raw) {
            Line::Single { name, foil } => {
                assert_eq!(name, "Island");
                let exact = vec![cand("Island", "I1", "SetA", 0)];
                decide_pool(select_candidates(exact, Vec::new()), foil)
            }
            Line::Pair { first, second, foil, .. } => {
                let left = vec![face(&first.to_lowercase(), 0, "FI1")];
                let right = vec![face(&second.to_lowercase(), 0, "FI1")];
                let joined = pair_faces(&left, &right);
                assert_eq!(joined.len(), 1);
                let metas = vec![CardMeta {
                    uri: String::from("uri:FI1"),
                    set_name: String::from("SetA"),
                    promo: false,
                }];
                decide_pool(attach_meta(&joined[0], metas), foil)
            }
            Line::Literal { .. } => panic!("no literal in this list"),
        };
        match decided {
            Some(LineOutcome::Done { id, foil }) => run.record(id, foil),
            _ => panic!("an unambiguous line never prompts"),
        }
    }
    let mut store = fresh_store();
    apply_run(&mut store, &run, false);
    assert_eq!(store.counts.get(&String::from("I1"), false), 1);
    assert_eq!(store.counts.get(&String::from("I1"), true), 1);
    assert_eq!(store.counts.get(&String::from("FI1"), false), 1);
}

#[test]
fn scenario_uid_list_reapplied_and_declined() {
    let content = "uid=abc123\nIsland\n";
    let input = prepare_list(content).expect("well-formed header");
    assert_eq!(input.uid, vec![0xab, 0xc1, 0x23]);
    assert_eq!(input.lines, vec![String::from("Island")]);

    let mut store = fresh_store();
    let mut run = ListRun::new(input.uid.clone());
    run.record(String::from("I1"), false);
    assert!(apply_run(&mut store, &run, false));
    assert_eq!(store.counts.get(&String::from("I1"), false), 1);

    // second application, operator declines: counters unchanged, and the
    // skip happens before any resolution would run
    let again = prepare_list(content).expect("well-formed header");
    assert!(store.applied.contains(&again.uid));
    let empty_run = ListRun::new(again.uid);
    assert!(!apply_run(&mut store, &empty_run, false));
    assert_eq!(store.counts.get(&String::from("I1"), false), 1);
}

#[test]
fn malformed_uid_header_is_an_input_error() {
    match prepare_list("uid=zz-not-hex\nIsland\n") {
        Err(EngineError::BadUid) => {}
        _ => panic!("a malformed header must be the input error"),
    }
    match prepare_list("uid=abc\n") {
        Err(EngineError::BadUid) => {}
        _ => panic!("odd-length hex must be the input error"),
    }
}

#[test]
fn fingerprint_of_unheadered_list_is_the_content_digest() {
    let input = prepare_list("").expect("empty list reads fine");
    assert_eq!(input.lines.len(), 0);
    // the SHA-256 digest of empty content
    assert_eq!(
        hex::encode(&input.uid),
        "e3b0c44298fc1c149afbf4c8996fb92427ae41e4649b934ca495991b7852b855"
    );

    let input = prepare_list("Island\n").expect("plain list reads fine");
    assert_eq!(input.lines, vec![String::from("Island")]);
    assert_eq!(input.uid, sha2_of(b"Island\n"));
}

fn sha2_of(bytes: &[u8]) -> Vec<u8> {
    sha2::Sha256::digest(bytes).to_vec()
}

#[test]
fn uid_header_encodes_lower_case_hex() {
    assert_eq!(uid_header(&vec![0xab, 0xc1, 0x23]), "uid=abc123");
    assert_eq!(uid_header(&vec![]), "uid=");
}

#[test]
fn split_lines_matches_line_endings() {
    assert_eq!(split_lines(""), Vec::<String>::new());
    assert_eq!(split_lines("a"), vec![String::from("a")]);
    assert_eq!(split_lines("a\nb"), vec![String::from("a"), String::from("b")]);
    assert_eq!(split_lines("a\nb\n"), vec![String::from("a"), String::from("b")]);
    assert_eq!(split_lines("a\r\nb\r\n"), vec![String::from("a"), String::from("b")]);
    assert_eq!(split_lines("a\n\nb"), vec![String::from("a"), String::from(""), String::from("b")]);
}
