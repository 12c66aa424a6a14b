use nzb_core::damage_ledger::{EvidenceKind, ServerEvidence, HOLE_TTL_SECS};
use nzb_core::ledger_store::{self, FileRow, FoundRow, GoneCount, StoredRow};
use nzb_core::{ArticleKey, ConfirmNeeded, Consult, LedgerRecord, LedgerState, Outcome, Timestamp};
use rusqlite::{Connection, Error, Row};
use serde_json::Value;

/// The ledger on an in-memory SQLite table.
struct Database {
    conn: Connection,
}

fn evidence_to_json(evidence: &[ServerEvidence]) -> String {
    let entries = evidence
        .iter()
        .map(|e| {
            let mut entry = serde_json::Map::new();
            entry.insert("server".to_string(), Value::from(e.server.clone()));
            entry.insert("refused".to_string(), Value::from(e.kind == EvidenceKind::Refused));
            entry.insert("secs".to_string(), Value::from(e.at.timestamp()));
            entry.insert("nanos".to_string(), Value::from(e.at.timestamp_subsec_nanos()));
            Value::Object(entry)
        })
        .collect();
    serde_json::to_string(&Value::Array(entries)).unwrap()
}

fn evidence_from_json(json: &str) -> Option<Vec<ServerEvidence>> {
    let value: Value = serde_json::from_str(json).ok()?;
    value
        .as_array()?
        .iter()
        .map(|e| {
            Some(ServerEvidence {
                server: e.get("server")?.as_str()?.to_string(),
                kind: if e.get("refused")?.as_bool()? {
                    EvidenceKind::Refused
                } else {
                    EvidenceKind::Transport
                },
                at: Timestamp::new(
                    e.get("secs")?.as_i64()?,
                    e.get("nanos")?.as_u64()? as u32,
                )?,
            })
        })
        .collect()
}

fn found_row(row: &Row, from: usize) -> Result<FoundRow, Error> {
    let evidence: Option<String> = row.get(from + 2)?;
    Ok(FoundRow {
        evidence: evidence_from_json(&evidence.clone().unwrap_or_default()),
        columns: StoredRow {
            message_id: row.get(from)?,
            state: row.get(from + 1)?,
            evidence,
            first_refused_at: row.get(from + 3)?,
            confirmed_at: row.get(from + 4)?,
            expires_at: row.get(from + 5)?,
            server_fingerprint: row.get(from + 6)?,
        },
    })
}

impl Database {
    fn open_memory() -> Result<Self, Error> {
        let conn = Connection::open_in_memory()?;
        conn.execute_batch(
            "CREATE TABLE damage_ledger (
                scope_id TEXT NOT NULL, file_index INTEGER NOT NULL,
                segment_number INTEGER NOT NULL, message_id TEXT NOT NULL,
                state TEXT NOT NULL, evidence TEXT, first_refused_at TEXT,
                confirmed_at TEXT, expires_at TEXT, server_fingerprint TEXT NOT NULL,
                PRIMARY KEY (scope_id, file_index, segment_number))",
        )?;
        Ok(Self { conn })
    }

    fn find(&self, key: &ArticleKey) -> Result<Option<FoundRow>, Error> {
        let result = self.conn.query_row(
            "SELECT message_id, state, evidence, first_refused_at, confirmed_at, expires_at,
                    server_fingerprint
             FROM damage_ledger
             WHERE scope_id = ?1 AND file_index = ?2 AND segment_number = ?3",
            (&key.scope_id, key.file_index, key.segment_number),
            |row| found_row(row, 0),
        );
        match result {
            Ok(row) => Ok(Some(row)),
            Err(Error::QueryReturnedNoRows) => Ok(None),
            Err(e) => Err(e),
        }
    }

    fn ledger_note(
        &self,
        key: &ArticleKey,
        message_id: &str,
        outcome: &Outcome,
        enabled_servers: &[String],
        now: Timestamp,
    ) -> Result<ConfirmNeeded, Error> {
        let stored = ledger_store::ledger_get(key, self.find(key)?);
        let (rec, confirm) =
            ledger_store::ledger_note(stored, key, message_id, outcome, enabled_servers, now);
        let row = ledger_store::ledger_upsert(&rec, Some(evidence_to_json(&rec.evidence)));
        self.conn.execute(
            "INSERT OR REPLACE INTO damage_ledger VALUES (?1, ?2, ?3, ?4, ?5, ?6, ?7, ?8, ?9, ?10)",
            (
                row.scope_id,
                row.file_index,
                row.segment_number,
                row.columns.message_id,
                row.columns.state,
                row.columns.evidence,
                row.columns.first_refused_at,
                row.columns.confirmed_at,
                row.columns.expires_at,
                row.columns.server_fingerprint,
            ),
        )?;
        Ok(confirm)
    }

    fn ledger_consult(&self, key: &ArticleKey, now: Timestamp) -> Result<Consult, Error> {
        Ok(ledger_store::ledger_consult(key, self.find(key)?, now))
    }

    fn ledger_held_provisionally(&self, key: &ArticleKey) -> Result<bool, Error> {
        Ok(ledger_store::ledger_held_provisionally(key, self.find(key)?))
    }

    fn ledger_load_file(
        &self,
        scope_id: &str,
        file_index: u32,
    ) -> Result<Vec<LedgerRecord>, Error> {
        let mut stmt = self.conn.prepare(
            "SELECT segment_number, message_id, state, evidence, first_refused_at, confirmed_at,
                    expires_at, server_fingerprint
             FROM damage_ledger WHERE scope_id = ?1 AND file_index = ?2
             ORDER BY segment_number",
        )?;
        let rows = stmt
            .query_map((scope_id, file_index), |row| {
                Ok(FileRow { segment_number: row.get(0)?, row: found_row(row, 1)? })
            })?
            .collect::<Result<Vec<FileRow>, Error>>()?;
        Ok(ledger_store::ledger_load_file(scope_id, file_index, rows))
    }

    fn gone_count(&self, scope_id: &str, file_index: u32) -> Result<GoneCount, Error> {
        let mut stmt = self
            .conn
            .prepare("SELECT state FROM damage_ledger WHERE scope_id = ?1 AND file_index = ?2")?;
        let states = stmt
            .query_map((scope_id, file_index), |row| row.get(0))?
            .collect::<Result<Vec<String>, Error>>()?;
        Ok(ledger_store::ledger_file_gone_count(&states))
    }

    fn ledger_file_gone_ratio(&self, scope_id: &str, file_index: u32) -> Result<f64, Error> {
        let count = self.gone_count(scope_id, file_index)?;
        if count.total == 0 {
            return Ok(0.0);
        }
        Ok(count.gone as f64 / count.total as f64)
    }
}

fn servers(names: &[&str]) -> Vec<String> {
    names.iter().map(|s| s.to_string()).collect()
}

fn key() -> ArticleKey {
    ArticleKey::new("job-1", 0, 3)
}

fn t(secs: i64) -> Timestamp {
    Timestamp::new(1_700_000_000 + secs, 0).unwrap()
}


#[test]
fn transient_430_then_200_is_present() {
    let db = Database::open_memory().unwrap();
    let srv = servers(&["a", "b"]);

    let c = db
        .ledger_note(
            &key(),
            "<m>",
            &Outcome::Refused { server: "a".into() },
            &srv,
            t(0),
        )
        .unwrap();
    assert_eq!(c, ConfirmNeeded(true));
    assert!(db.ledger_held_provisionally(&key()).unwrap());

    db.ledger_note(&key(), "<m>", &Outcome::Present, &srv, t(1))
        .unwrap();

    assert!(!db.ledger_held_provisionally(&key()).unwrap());
    assert_eq!(
        db.ledger_consult(&key(), t(2)).unwrap(),
        Consult {
            skip: false,
            reprobe: false
        }
    );
    assert_eq!(
        db.ledger_load_file("job-1", 0).unwrap()[0].state,
        LedgerState::Present
    );
}

#[test]
fn refused_on_every_server_confirms_after_delay() {
    let db = Database::open_memory().unwrap();
    let srv = servers(&["a", "b"]);

    db.ledger_note(
        &key(),
        "<m>",
        &Outcome::Refused { server: "a".into() },
        &srv,
        t(0),
    )
    .unwrap();
    // Both refused but within the confirm delay: still provisional.
    let c = db
        .ledger_note(
            &key(),
            "<m>",
            &Outcome::Refused { server: "b".into() },
            &srv,
            t(0),
        )
        .unwrap();
    assert_eq!(c, ConfirmNeeded(true));
    assert!(db.ledger_held_provisionally(&key()).unwrap());

    // A later refusal past the delay confirms the hole.
    let c = db
        .ledger_note(
            &key(),
            "<m>",
            &Outcome::Refused { server: "b".into() },
            &srv,
            t(2),
        )
        .unwrap();
    assert_eq!(c, ConfirmNeeded(false));
    assert_eq!(
        db.ledger_consult(&key(), t(2)).unwrap(),
        Consult {
            skip: true,
            reprobe: false
        }
    );
}

#[test]
fn transport_on_last_server_never_confirms() {
    let db = Database::open_memory().unwrap();
    let srv = servers(&["a", "b"]);

    db.ledger_note(
        &key(),
        "<m>",
        &Outcome::Refused { server: "a".into() },
        &srv,
        t(0),
    )
    .unwrap();
    // b only ever fails transport — it never definitively refused.
    db.ledger_note(
        &key(),
        "<m>",
        &Outcome::Transport { server: "b".into() },
        &srv,
        t(5),
    )
    .unwrap();
    db.ledger_note(
        &key(),
        "<m>",
        &Outcome::Refused { server: "a".into() },
        &srv,
        t(10),
    )
    .unwrap();

    assert!(db.ledger_held_provisionally(&key()).unwrap());
    assert_eq!(
        db.ledger_consult(&key(), t(10)).unwrap(),
        Consult {
            skip: false,
            reprobe: false
        }
    );
}

#[test]
fn confirmed_hole_reprobes_after_ttl() {
    let db = Database::open_memory().unwrap();
    let srv = servers(&["a", "b"]);

    db.ledger_note(
        &key(),
        "<m>",
        &Outcome::Refused { server: "a".into() },
        &srv,
        t(0),
    )
    .unwrap();
    db.ledger_note(
        &key(),
        "<m>",
        &Outcome::Refused { server: "b".into() },
        &srv,
        t(2),
    )
    .unwrap();
    assert_eq!(
        db.ledger_consult(&key(), t(2)).unwrap(),
        Consult {
            skip: true,
            reprobe: false
        }
    );

    // Within TTL: still skip. Past TTL: re-probe.
    assert_eq!(
        db.ledger_consult(&key(), t(2 + HOLE_TTL_SECS - 1)).unwrap(),
        Consult {
            skip: true,
            reprobe: false
        }
    );
    assert_eq!(
        db.ledger_consult(&key(), t(2 + HOLE_TTL_SECS + 1)).unwrap(),
        Consult {
            skip: false,
            reprobe: true
        }
    );
}

#[test]
fn adding_a_server_invalidates_the_hole() {
    let db = Database::open_memory().unwrap();

    // Confirm a hole against {a, b}.
    db.ledger_note(
        &key(),
        "<m>",
        &Outcome::Refused { server: "a".into() },
        &servers(&["a", "b"]),
        t(0),
    )
    .unwrap();
    db.ledger_note(
        &key(),
        "<m>",
        &Outcome::Refused { server: "b".into() },
        &servers(&["a", "b"]),
        t(2),
    )
    .unwrap();
    assert_eq!(
        db.ledger_load_file("job-1", 0).unwrap()[0].state,
        LedgerState::ConfirmedMissing
    );

    // A newly added server c changes the fingerprint: the record resets and
    // a single refusal is provisional again, not confirmed.
    let c = db
        .ledger_note(
            &key(),
            "<m>",
            &Outcome::Refused { server: "a".into() },
            &servers(&["a", "b", "c"]),
            t(3),
        )
        .unwrap();
    assert_eq!(c, ConfirmNeeded(true));
    let rec = &db.ledger_load_file("job-1", 0).unwrap()[0];
    assert_eq!(rec.state, LedgerState::ProvisionalMissing);
    assert_eq!(rec.refused_servers().len(), 1);
}

#[test]
fn file_gone_ratio_counts_confirmed_only() {
    let db = Database::open_memory().unwrap();
    let srv = servers(&["a"]);

    // segment 0: confirmed missing
    let k0 = ArticleKey::new("job-2", 0, 0);
    db.ledger_note(
        &k0,
        "<m0>",
        &Outcome::Refused { server: "a".into() },
        &srv,
        t(0),
    )
    .unwrap();
    db.ledger_note(
        &k0,
        "<m0>",
        &Outcome::Refused { server: "a".into() },
        &srv,
        t(2),
    )
    .unwrap();
    // segment 1: present
    let k1 = ArticleKey::new("job-2", 0, 1);
    db.ledger_note(&k1, "<m1>", &Outcome::Present, &srv, t(0))
        .unwrap();

    assert_eq!(db.ledger_file_gone_ratio("job-2", 0).unwrap(), 0.5);
}
