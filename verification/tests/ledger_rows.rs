use nzb_core::damage_ledger::{EvidenceKind, ServerEvidence};
use nzb_core::ledger_store::{
    ledger_consult, ledger_file_gone_count, ledger_get, ledger_held_provisionally, ledger_load_file,
    ledger_note, ledger_upsert, FileRow, FoundRow, GoneCount, KeyedRow, StoredRow,
};
use nzb_core::{ArticleKey, ConfirmNeeded, Consult, LedgerRecord, LedgerState, Outcome, Timestamp};

fn at(secs: i64, nanos: u32) -> Timestamp {
    Timestamp::new(secs, nanos).unwrap()
}

fn key() -> ArticleKey {
    ArticleKey::new("job", 4, 9)
}

fn evidence() -> Vec<ServerEvidence> {
    vec![ServerEvidence { server: "a".to_string(), kind: EvidenceKind::Refused, at: at(1, 2) }]
}

fn record() -> LedgerRecord {
    LedgerRecord {
        key: key(),
        message_id: "<m>".to_string(),
        state: LedgerState::ConfirmedMissing,
        evidence: evidence(),
        first_refused_at: Some(at(1_700_000_000, 0)),
        confirmed_at: Some(at(1_700_000_002, 120_000_000)),
        expires_at: Some(at(1_700_086_402, 123_456_789)),
        server_fingerprint: "a,b".to_string(),
    }
}

fn row() -> StoredRow {
    StoredRow {
        message_id: "<m>".to_string(),
        state: "confirmed_missing".to_string(),
        evidence: Some("[..]".to_string()),
        first_refused_at: Some("2023-11-14T22:13:20+00:00".to_string()),
        confirmed_at: Some("2023-11-14T22:13:22.120+00:00".to_string()),
        expires_at: Some("2023-11-15T22:13:22.123456789+00:00".to_string()),
        server_fingerprint: "a,b".to_string(),
    }
}

fn found(columns: StoredRow) -> Option<FoundRow> {
    Some(FoundRow { columns, evidence: Some(evidence()) })
}

fn assert_same(a: &LedgerRecord, b: &LedgerRecord) {
    assert_eq!(a.key, b.key);
    assert_eq!(a.message_id, b.message_id);
    assert_eq!(a.state, b.state);
    assert_eq!(a.evidence, b.evidence);
    assert_eq!(a.first_refused_at, b.first_refused_at);
    assert_eq!(a.confirmed_at, b.confirmed_at);
    assert_eq!(a.expires_at, b.expires_at);
    assert_eq!(a.server_fingerprint, b.server_fingerprint);
}

#[test]
fn record_is_stored_in_its_columns() {
    let stored = ledger_upsert(&record(), Some("[..]".to_string()));
    assert_eq!(
        stored,
        KeyedRow {
            scope_id: "job".to_string(),
            file_index: 4,
            segment_number: 9,
            columns: row(),
        }
    );
    assert_eq!(ledger_upsert(&record(), None).columns.evidence, Some("[]".to_string()));
}

#[test]
fn row_is_read_back_as_the_record() {
    assert_same(&ledger_get(&key(), found(row())).unwrap(), &record());
    assert!(ledger_get(&key(), None).is_none());
}

#[test]
fn write_then_read_gives_the_record_again() {
    for time in [
        at(0, 0),
        at(-1, 1),
        at(59, 1_500_000_000),
        at(253_402_300_799, 1_999_999_999),
        at(-62_167_219_200, 0),
    ] {
        let mut rec = record();
        rec.first_refused_at = Some(time);
        rec.confirmed_at = None;
        rec.expires_at = Some(time);
        let stored = ledger_upsert(&rec, None).columns;
        assert_same(&ledger_get(&key(), found(stored)).unwrap(), &rec);
    }
}

#[test]
fn years_without_four_digits_are_lost() {
    for time in [at(253_402_300_800, 0), at(-62_167_219_201, 0)] {
        let mut rec = record();
        rec.expires_at = Some(time);
        let stored = ledger_upsert(&rec, None).columns;
        assert!(stored.expires_at.is_some());
        assert_eq!(ledger_get(&key(), found(stored)).unwrap().expires_at, None);
    }
}

#[test]
fn leap_seconds_within_a_minute_are_written_as_the_next_second() {
    let mut rec = record();
    rec.confirmed_at = Some(at(30, 1_000_000_005));
    let stored = ledger_upsert(&rec, None).columns;
    assert_eq!(ledger_get(&key(), found(stored)).unwrap().confirmed_at, Some(at(31, 5)));
}

#[test]
fn malformed_columns_count_as_nothing_known() {
    let columns = StoredRow {
        state: "confirmed".to_string(),
        first_refused_at: Some("yesterday".to_string()),
        confirmed_at: Some("2023-11-14T22:13:20".to_string()),
        expires_at: None,
        ..row()
    };
    let rec = ledger_get(&key(), Some(FoundRow { columns, evidence: None })).unwrap();
    assert_eq!(rec.state, LedgerState::Unknown);
    assert!(rec.evidence.is_empty());
    assert_eq!(rec.first_refused_at, None);
    assert_eq!(rec.confirmed_at, None);
    assert_eq!(rec.expires_at, None);
}

#[test]
fn loading_a_file_gets_each_article() {
    let states = ["present", "unknown", "confirmed_missing"];
    let stored: Vec<FoundRow> = states
        .iter()
        .map(|state| found(StoredRow { state: state.to_string(), ..row() }).unwrap())
        .collect();
    let segments = [0, 7, i64::from(u32::MAX)];
    let rows: Vec<FileRow> = (0..3)
        .map(|i| FileRow { segment_number: segments[i], row: stored[i].clone() })
        .collect();
    let recs = ledger_load_file("job", 4, rows);
    assert_eq!(recs.len(), 3);
    for i in 0..3 {
        let key = ArticleKey::new("job", 4, segments[i] as u32);
        assert_same(&recs[i], &ledger_get(&key, Some(stored[i].clone())).unwrap());
    }
    assert!(ledger_load_file("job", 4, Vec::new()).is_empty());
}

#[test]
fn times_are_taken_to_utc() {
    let columns = StoredRow {
        first_refused_at: Some("2023-11-15T00:13:20+02:00".to_string()),
        confirmed_at: Some("2016-12-31T23:59:60.5Z".to_string()),
        ..row()
    };
    let rec = ledger_get(&key(), found(columns)).unwrap();
    assert_eq!(rec.first_refused_at, Some(at(1_700_000_000, 0)));
    assert_eq!(rec.confirmed_at, Some(at(1_483_228_799, 1_500_000_000)));
}

#[test]
fn file_rows_keep_their_order() {
    let rows = [0i64, 7, 4_294_967_295, 4_294_967_296]
        .into_iter()
        .map(|segment_number| FileRow { segment_number, row: found(row()).unwrap() })
        .collect();
    let recs = ledger_load_file("other", 6, rows);
    let keys: Vec<ArticleKey> = recs.iter().map(|rec| rec.key.clone()).collect();
    let expected: Vec<ArticleKey> =
        [0, 7, u32::MAX, 0].into_iter().map(|n| ArticleKey::new("other", 6, n)).collect();
    assert_eq!(keys, expected);
    assert_eq!(recs[1].expires_at, record().expires_at);
}

#[test]
fn noting_fills_in_a_missing_message_id_only() {
    let servers = vec!["a".to_string()];
    let (rec, confirm) = ledger_note(None, &key(), "<new>", &Outcome::Present, &servers, at(5, 0));
    assert_eq!(confirm, ConfirmNeeded(false));
    assert_eq!(rec.key, key());
    assert_eq!(rec.message_id, "<new>");
    assert_eq!(rec.state, LedgerState::Present);
    let (rec, _) = ledger_note(Some(rec), &key(), "<other>", &Outcome::Present, &servers, at(6, 0));
    assert_eq!(rec.message_id, "<new>");
    let blank = LedgerRecord { message_id: String::new(), ..rec };
    let (rec, _) =
        ledger_note(Some(blank), &key(), "<other>", &Outcome::Present, &servers, at(7, 0));
    assert_eq!(rec.message_id, "<other>");
}

#[test]
fn guidance_comes_from_the_row() {
    let end = 1_700_086_402;
    let skip = Consult { skip: true, reprobe: false };
    let reprobe = Consult { skip: false, reprobe: true };
    let fetch = Consult { skip: false, reprobe: false };
    assert_eq!(ledger_consult(&key(), found(row()), at(end, 123_456_788)), skip);
    assert_eq!(ledger_consult(&key(), found(row()), at(end, 123_456_789)), reprobe);
    assert_eq!(ledger_consult(&key(), None, at(end, 0)), fetch);
    assert!(!ledger_held_provisionally(&key(), found(row())));
    let provisional = StoredRow { state: "provisional_missing".to_string(), ..row() };
    assert!(ledger_held_provisionally(&key(), found(provisional)));
    assert!(!ledger_held_provisionally(&key(), None));
}

#[test]
fn verdict_names_round_trip() {
    for (state, name) in [
        (LedgerState::Unknown, "unknown"),
        (LedgerState::ProvisionalMissing, "provisional_missing"),
        (LedgerState::ConfirmedMissing, "confirmed_missing"),
        (LedgerState::Present, "present"),
        (LedgerState::UnservableFile, "unservable_file"),
    ] {
        assert_eq!(state.as_str(), name);
        assert_eq!(LedgerState::from_str(name), state);
    }
    for text in ["", "Present", "present ", "missing"] {
        assert_eq!(LedgerState::from_str(text), LedgerState::Unknown);
    }
}

#[test]
fn only_verdicts_of_gone_articles_are_counted() {
    let states: Vec<String> =
        ["unknown", "confirmed_missing", "present", "unservable_file", "provisional_missing", "?"]
            .iter()
            .map(|s| s.to_string())
            .collect();
    assert_eq!(ledger_file_gone_count(&states), GoneCount { gone: 2, total: 6 });
    assert_eq!(ledger_file_gone_count(&[]), GoneCount { gone: 0, total: 0 });
}
