//! Between ledger records and the rows of the `damage_ledger` table.
//!
//! The store itself runs outside this crate. It reads rows and writes rows;
//! what a row means, what becomes of it when an outcome is noted, and what is
//! written back is decided here. The evidence column holds JSON, which the
//! store takes apart and puts together.

use vstd::prelude::*;

use crate::damage_ledger::{
    apply_outcome, consult, evidence_view, guidance, held_provisionally, ArticleKey,
    ConfirmNeeded, Consult, EvidenceView, KeyView, LedgerRecord, LedgerState, Outcome, RecordView,
    ServerEvidence, HOLE_TTL_SECS,
};
use crate::server_set::names;
use crate::timestamp::{
    moment, parse_from_rfc3339, rfc3339_moment, rfc3339_text, to_rfc3339, Moment, Timestamp,
    MAX_SECS, YEAR_0_SECS, YEAR_9999_SECS,
};

verus! {

/// The columns of a row besides its key, as they are stored.
#[derive(Debug, Clone, PartialEq, Eq)]
pub struct StoredRow {
    pub message_id: String,
    pub state: String,
    pub evidence: Option<String>,
    pub first_refused_at: Option<String>,
    pub confirmed_at: Option<String>,
    pub expires_at: Option<String>,
    pub server_fingerprint: String,
}

/// What a row stands for.
pub struct RowView {
    pub message_id: Seq<char>,
    pub state: Seq<char>,
    pub evidence: Option<Seq<char>>,
    pub first_refused_at: Option<Seq<char>>,
    pub confirmed_at: Option<Seq<char>>,
    pub expires_at: Option<Seq<char>>,
    pub server_fingerprint: Seq<char>,
}

/// What an optional text stands for.
pub open spec fn text_view(text: Option<String>) -> Option<Seq<char>> {
    match text {
        Some(text) => Some(text@),
        None => None,
    }
}

impl View for StoredRow {
    type V = RowView;

    open spec fn view(&self) -> RowView {
        RowView {
            message_id: self.message_id@,
            state: self.state@,
            evidence: text_view(self.evidence),
            first_refused_at: text_view(self.first_refused_at),
            confirmed_at: text_view(self.confirmed_at),
            expires_at: text_view(self.expires_at),
            server_fingerprint: self.server_fingerprint@,
        }
    }
}

/// A row as the store hands it over: its columns, and the evidence that its
/// JSON holds, or `None` where that is no list of evidence.
#[derive(Debug, Clone, PartialEq, Eq)]
pub struct FoundRow {
    pub columns: StoredRow,
    pub evidence: Option<Vec<ServerEvidence>>,
}

/// A row of one file, with the number of its segment.
#[derive(Debug, Clone, PartialEq, Eq)]
pub struct FileRow {
    pub segment_number: i64,
    pub row: FoundRow,
}

/// A row as it is written: its key and its other columns.
#[derive(Debug, Clone, PartialEq, Eq)]
pub struct KeyedRow {
    pub scope_id: String,
    pub file_index: i64,
    pub segment_number: i64,
    pub columns: StoredRow,
}

/// How many articles of a file are recorded, and how many of them are gone.
#[derive(Debug, Clone, Copy, PartialEq, Eq, Structural)]
pub struct GoneCount {
    pub gone: u64,
    pub total: u64,
}

/// The moment in a time column; a text that is no time counts as none.
pub open spec fn column_moment(column: Option<Seq<char>>) -> Option<Moment> {
    match column {
        Some(text) => rfc3339_moment(text),
        None => None,
    }
}

/// The text of a time column.
pub open spec fn moment_column(at: Option<Moment>) -> Option<Seq<char>> {
    match at {
        Some(at) => Some(rfc3339_text(at)),
        None => None,
    }
}

/// What a time column gives back of a moment: the moment as it is written;
/// moments of years without four digits are lost.
pub open spec fn kept(at: Option<Moment>) -> Option<Moment> {
    match at {
        Some(at) if at.four_digit_year() => Some(at.written()),
        _ => None,
    }
}

/// Whether a time column gives a moment back as it is.
pub open spec fn is_storable(at: Option<Moment>) -> bool {
    at matches Some(at) ==> at.four_digit_year() && at.written() == at
}

/// Whether a moment lies in an ordinary second of a year with four digits.
pub open spec fn is_ordinary(at: Moment) -> bool {
    YEAR_0_SECS <= at.secs <= YEAR_9999_SECS && 0 <= at.nanos < 1_000_000_000
}

/// The evidence of a row: none where its JSON holds no list of evidence.
pub open spec fn found_evidence(evidence: Option<Vec<ServerEvidence>>) -> Seq<EvidenceView> {
    match evidence {
        Some(list) => evidence_view(list@),
        None => Seq::empty(),
    }
}

/// The record that a row stands for, given its evidence.
pub open spec fn decoded(key: KeyView, row: RowView, evidence: Seq<EvidenceView>) -> RecordView {
    RecordView {
        key,
        message_id: row.message_id,
        state: LedgerState::named(row.state),
        evidence,
        first_refused_at: column_moment(row.first_refused_at),
        confirmed_at: column_moment(row.confirmed_at),
        expires_at: column_moment(row.expires_at),
        server_fingerprint: row.server_fingerprint,
    }
}

/// The row in which a record is stored, given the JSON of its evidence.
pub open spec fn encoded(rec: RecordView, evidence: Seq<char>) -> RowView {
    RowView {
        message_id: rec.message_id,
        state: rec.state.name(),
        evidence: Some(evidence),
        first_refused_at: moment_column(rec.first_refused_at),
        confirmed_at: moment_column(rec.confirmed_at),
        expires_at: moment_column(rec.expires_at),
        server_fingerprint: rec.server_fingerprint,
    }
}

/// The record that an optional row stands for.
pub open spec fn found_record(key: KeyView, found: Option<FoundRow>) -> Option<RecordView> {
    match found {
        Some(row) => Some(decoded(key, row.columns@, found_evidence(row.evidence))),
        None => None,
    }
}

/// What an optional stored record stands for.
pub open spec fn stored_record(stored: Option<LedgerRecord>) -> Option<RecordView> {
    match stored {
        Some(rec) => Some(rec@),
        None => None,
    }
}

/// The record to which an outcome is applied: the stored one, or a fresh one,
/// in either case with the message id if it has none yet.
pub open spec fn noted_on(
    stored: Option<RecordView>,
    key: KeyView,
    message_id: Seq<char>,
) -> RecordView {
    match stored {
        Some(rec) if rec.message_id.len() == 0 => RecordView { message_id, ..rec },
        Some(rec) => rec,
        None => RecordView::fresh(key, message_id),
    }
}

/// The key of an article of one file, from the segment number in its row.
pub open spec fn file_key(scope_id: Seq<char>, file_index: u32, segment_number: i64) -> KeyView {
    KeyView { scope_id, file_index, segment_number: segment_number as u32 }
}

/// The record that a row of one file stands for.
pub open spec fn file_record(scope_id: Seq<char>, file_index: u32, row: FileRow) -> RecordView {
    decoded(
        file_key(scope_id, file_index, row.segment_number),
        row.row.columns@,
        found_evidence(row.row.evidence),
    )
}

/// Whether rows of a file come in the order of their segments, as written.
pub open spec fn rows_in_order(rows: Seq<FileRow>) -> bool {
    &&& forall|i: int| 0 <= i < rows.len() ==> 0 <= (#[trigger] rows[i]).segment_number <= u32::MAX
    &&& forall|i: int, j: int|
        0 <= i < j < rows.len() ==> (#[trigger] rows[i]).segment_number < (
        #[trigger] rows[j]).segment_number
}

/// Whether records come in the order of their segments.
pub open spec fn records_in_order(recs: Seq<LedgerRecord>) -> bool {
    forall|i: int, j: int|
        0 <= i < j < recs.len() ==> (#[trigger] recs[i])@.key.segment_number < (
        #[trigger] recs[j])@.key.segment_number
}

/// The row that a table holds under a key, if any.
pub open spec fn row_under(table: Map<KeyView, FoundRow>, key: KeyView) -> Option<FoundRow> {
    if table.contains_key(key) {
        Some(table[key])
    } else {
        None
    }
}

/// Whether rows hold a segment.
pub open spec fn has_segment(rows: Seq<FileRow>, segment_number: u32) -> bool {
    exists|i: int| 0 <= i < rows.len() && (#[trigger] rows[i]).segment_number == segment_number
}

/// Whether rows are all those that a table holds of one file, in the order of
/// their segments.
pub open spec fn are_the_rows_of(
    rows: Seq<FileRow>,
    table: Map<KeyView, FoundRow>,
    scope_id: Seq<char>,
    file_index: u32,
) -> bool {
    &&& rows_in_order(rows)
    &&& forall|i: int|
        0 <= i < rows.len() ==> row_under(
            table,
            file_key(scope_id, file_index, (#[trigger] rows[i]).segment_number),
        ) == Some(rows[i].row)
    &&& forall|n: u32|
        table.contains_key(KeyView { scope_id, file_index, segment_number: n })
            ==> #[trigger] has_segment(rows, n)
}

/// Whether one of the records loaded from rows of a file is the given one.
pub open spec fn is_loaded(
    rec: RecordView,
    scope_id: Seq<char>,
    file_index: u32,
    rows: Seq<FileRow>,
) -> bool {
    exists|i: int|
        0 <= i < rows.len() && file_record(scope_id, file_index, #[trigger] rows[i]) == rec
}

/// Loading a file gives the records that getting its articles one by one gives,
/// all of them and no others: from the rows that a table holds of the file, a
/// record with a given key is loaded if and only if it is what is got from the
/// row under that key.
pub proof fn loading_a_file_gets_each_article(
    table: Map<KeyView, FoundRow>,
    rows: Seq<FileRow>,
    key: KeyView,
    rec: RecordView,
)
    requires
        are_the_rows_of(rows, table, key.scope_id, key.file_index),
    ensures
        found_record(key, row_under(table, key)) == Some(rec) <==> rec.key == key && is_loaded(
            rec,
            key.scope_id,
            key.file_index,
            rows,
        ),
{
    let (scope_id, file_index) = (key.scope_id, key.file_index);
    if table.contains_key(key) {
        assert(key == (KeyView { scope_id, file_index, segment_number: key.segment_number }));
        assert(has_segment(rows, key.segment_number));
        let i = choose|i: int|
            0 <= i < rows.len() && (#[trigger] rows[i]).segment_number == key.segment_number;
        assert(file_key(scope_id, file_index, rows[i].segment_number) == key);
        assert(row_under(table, key) == Some(rows[i].row));
        assert(found_record(key, row_under(table, key)) == Some(
            file_record(scope_id, file_index, rows[i]),
        ));
    }
    if rec.key == key && is_loaded(rec, scope_id, file_index, rows) {
        let i = choose|i: int|
            0 <= i < rows.len() && file_record(scope_id, file_index, #[trigger] rows[i]) == rec;
        assert(file_key(scope_id, file_index, rows[i].segment_number) == key);
        assert(row_under(table, key) == Some(rows[i].row));
    }
}

/// The stored verdicts that say an article is gone.
pub open spec fn gone_states(states: Seq<Seq<char>>) -> Seq<Seq<char>> {
    states.filter(|state: Seq<char>| LedgerState::named(state).gone())
}

/// Each verdict is read back from the name it is stored under.
pub proof fn verdict_names_round_trip(state: LedgerState)
    ensures
        LedgerState::named(state.name()) == state,
{
    reveal_strlit("unknown");
    reveal_strlit("provisional_missing");
    reveal_strlit("confirmed_missing");
    reveal_strlit("present");
    reveal_strlit("unservable_file");
    assert("unknown"@.len() == 7);
    assert("provisional_missing"@.len() == 19);
    assert("confirmed_missing"@.len() == 17);
    assert("present"@.len() == 7);
    assert("unservable_file"@.len() == 15);
    assert("unknown"@[0] != "present"@[0]);
}

/// The names of the verdicts of records.
pub open spec fn state_names(recs: Seq<RecordView>) -> Seq<Seq<char>> {
    recs.map_values(|rec: RecordView| rec.state.name())
}

/// The records of articles that are gone.
pub open spec fn gone_records(recs: Seq<RecordView>) -> Seq<RecordView> {
    recs.filter(|rec: RecordView| rec.state.gone())
}

/// Counting stored verdicts counts the records that are confirmed missing or
/// belong to an unservable file, and no others.
pub proof fn gone_count_counts_records_gone(recs: Seq<RecordView>)
    ensures
        gone_states(state_names(recs)).len() == gone_records(recs).len(),
    decreases recs.len(),
{
    reveal(Seq::filter);
    if recs.len() > 0 {
        let init = recs.drop_last();
        gone_count_counts_records_gone(init);
        verdict_names_round_trip(recs.last().state);
        assert(state_names(recs).drop_last() =~= state_names(init));
    }
}

/// The time in a column, if it holds one.
fn parse_dt(column: &Option<String>) -> (at: Option<Timestamp>)
    ensures
        moment(at) == column_moment(text_view(*column)),
{
    match column {
        Some(text) => parse_from_rfc3339(text.as_str()),
        None => None,
    }
}

/// The text of a time, for a column.
fn time_column(at: &Option<Timestamp>) -> (column: Option<String>)
    ensures
        text_view(column) == moment_column(moment(*at)),
        column_moment(text_view(column)) == kept(moment(*at)),
{
    match at {
        Some(at) => Some(to_rfc3339(at)),
        None => None,
    }
}

/// The record that a row stands for.
fn record_from_row(key: ArticleKey, found: FoundRow) -> (rec: LedgerRecord)
    ensures
        rec@ == decoded(key@, found.columns@, found_evidence(found.evidence)),
{
    let evidence = match found.evidence {
        Some(list) => list,
        None => Vec::new(),
    };
    assert(evidence_view(evidence@) =~= found_evidence(found.evidence));
    let row = found.columns;
    LedgerRecord {
        key,
        message_id: row.message_id,
        state: LedgerState::from_str(row.state.as_str()),
        evidence,
        first_refused_at: parse_dt(&row.first_refused_at),
        confirmed_at: parse_dt(&row.confirmed_at),
        expires_at: parse_dt(&row.expires_at),
        server_fingerprint: row.server_fingerprint,
    }
}

/// The record of an article, from the row that the store found under its key.
pub fn ledger_get(key: &ArticleKey, found: Option<FoundRow>) -> (rec: Option<LedgerRecord>)
    ensures
        rec is Some <==> found is Some,
        rec matches Some(rec) ==> Some(rec@) == found_record(key@, found),
{
    match found {
        Some(row) => {
            let own = ArticleKey::new(key.scope_id.clone(), key.file_index, key.segment_number);
            Some(record_from_row(own, row))
        },
        None => None,
    }
}

/// All records of one file, from its rows, in the order of the rows: rows ordered
/// by segment number give records ordered by segment number.
pub fn ledger_load_file(scope_id: &str, file_index: u32, rows: Vec<FileRow>) -> (recs: Vec<
    LedgerRecord,
>)
    ensures
        recs.len() == rows.len(),
        forall|i: int|
            0 <= i < rows.len() ==> (#[trigger] recs[i])@ == file_record(
                scope_id@,
                file_index,
                rows[i],
            ),
        rows_in_order(rows@) ==> records_in_order(recs@),
{
    let mut recs: Vec<LedgerRecord> = Vec::new();
    for file_row in it: rows
        invariant
            it.seq() == rows@,
            recs.len() == it.index(),
            forall|i: int|
                0 <= i < recs.len() ==> (#[trigger] recs[i])@ == file_record(
                    scope_id@,
                    file_index,
                    rows[i],
                ),
    {
        let segment_number: u32 = #[verifier::truncate] (file_row.segment_number as u32);
        let key = ArticleKey::new(scope_id, file_index, segment_number);
        recs.push(record_from_row(key, file_row.row));
    }
    proof {
        if rows_in_order(rows@) {
            assert forall|i: int, j: int| 0 <= i < j < recs.len() implies (
            #[trigger] recs@[i])@.key.segment_number < (
            #[trigger] recs@[j])@.key.segment_number by {
                assert(recs[i]@.key.segment_number == rows@[i].segment_number as u32);
                assert(recs[j]@.key.segment_number == rows@[j].segment_number as u32);
                assert(rows@[i].segment_number < rows@[j].segment_number);
            }
        }
    }
    recs
}

/// The row in which a record is stored. `evidence` is the JSON of its evidence,
/// or `None` where it could not be written, which is stored as an empty list.
///
/// Reading the row back gives the record again, with its times as they are
/// written; times in years without four digits are lost. Where all times lie in
/// ordinary seconds of years with four digits, a row found with the evidence of
/// the record is read as the record itself.
pub fn ledger_upsert(rec: &LedgerRecord, evidence: Option<String>) -> (row: KeyedRow)
    ensures
        row.scope_id@ == rec@.key.scope_id,
        row.file_index == rec@.key.file_index,
        row.segment_number == rec@.key.segment_number,
        row.columns@ == encoded(
            rec@,
            match evidence {
                Some(json) => json@,
                None => "[]"@,
            },
        ),
        decoded(rec@.key, row.columns@, rec@.evidence) == (RecordView {
            first_refused_at: kept(rec@.first_refused_at),
            confirmed_at: kept(rec@.confirmed_at),
            expires_at: kept(rec@.expires_at),
            ..rec@
        }),
        is_storable(rec@.first_refused_at) && is_storable(rec@.confirmed_at) && is_storable(
            rec@.expires_at,
        ) ==> decoded(rec@.key, row.columns@, rec@.evidence) == rec@,
        file_key(row.scope_id@, rec@.key.file_index, row.segment_number) == rec@.key,
        forall|found: FoundRow|
            found.columns@ == row.columns@ && found.evidence == Some(rec.evidence) && (
            rec@.first_refused_at matches Some(at) ==> is_ordinary(at)) && (
            rec@.confirmed_at matches Some(at) ==> is_ordinary(at)) && (
            rec@.expires_at matches Some(at) ==> is_ordinary(at)) ==> #[trigger] found_record(
                rec@.key,
                Some(found),
            ) == Some(rec@),
{
    proof {
        verdict_names_round_trip(rec.state);
    }
    let json = match evidence {
        Some(json) => json,
        None => "[]".to_owned(),
    };
    KeyedRow {
        scope_id: rec.key.scope_id.clone(),
        file_index: rec.key.file_index as i64,
        segment_number: rec.key.segment_number as i64,
        columns: StoredRow {
            message_id: rec.message_id.clone(),
            state: rec.state.as_str().to_owned(),
            evidence: Some(json),
            first_refused_at: time_column(&rec.first_refused_at),
            confirmed_at: time_column(&rec.confirmed_at),
            expires_at: time_column(&rec.expires_at),
            server_fingerprint: rec.server_fingerprint.clone(),
        },
    }
}

/// Notes one fetch outcome for an article on the record that was stored for
/// it, if any. Returns the record to store and whether a confirming re-ask is
/// still needed. `enabled_servers` is the full set of servers this fetch could
/// have used; it fingerprints the record.
pub fn ledger_note(
    stored: Option<LedgerRecord>,
    key: &ArticleKey,
    message_id: &str,
    outcome: &Outcome,
    enabled_servers: &[String],
    now: Timestamp,
) -> (noted: (LedgerRecord, ConfirmNeeded))
    requires
        noted_on(stored_record(stored), key@, message_id@).confirms(
            outcome@,
            now@,
            names(enabled_servers@),
        ) ==> now@.secs + HOLE_TTL_SECS <= MAX_SECS,
    ensures
        noted.0@ == noted_on(stored_record(stored), key@, message_id@).after(
            outcome@,
            now@,
            names(enabled_servers@),
        ),
        noted.1.0 == (outcome@ is Refused && noted.0@.state is ProvisionalMissing),
{
    let mut rec = match stored {
        Some(rec) => rec,
        None => {
            let own = ArticleKey::new(key.scope_id.clone(), key.file_index, key.segment_number);
            LedgerRecord::new(own, message_id.to_owned())
        },
    };
    if rec.message_id.as_str().is_empty() {
        rec.message_id = message_id.to_owned();
    }
    assert(rec@ =~= noted_on(stored_record(stored), key@, message_id@));
    let confirm = apply_outcome(&mut rec, outcome, now, enabled_servers);
    (rec, confirm)
}

/// Guidance before fetching an article, from its row: skip a live hole,
/// re-probe an expired one, otherwise fetch normally.
pub fn ledger_consult(key: &ArticleKey, found: Option<FoundRow>, now: Timestamp) -> (advice:
    Consult)
    ensures
        advice == guidance(found_record(key@, found), now@),
{
    let rec = ledger_get(key, found);
    consult(rec.as_ref(), now)
}

/// Whether the article is held on a provisional refusal, from its row.
pub fn ledger_held_provisionally(key: &ArticleKey, found: Option<FoundRow>) -> (held: bool)
    ensures
        held == (found_record(key@, found) matches Some(rec) && rec.state is ProvisionalMissing),
{
    let rec = ledger_get(key, found);
    held_provisionally(rec.as_ref())
}

/// Counts the recorded articles of a file, and those that are gone, from the
/// verdicts stored for it.
pub fn ledger_file_gone_count(states: &[String]) -> (count: GoneCount)
    ensures
        count.total == states.len(),
        count.gone == gone_states(names(states@)).len(),
        count.gone <= count.total,
{
    let mut gone: u64 = 0;
    let mut i: usize = 0;
    let ghost all = names(states@);
    assert(all.take(0) =~= Seq::empty());
    while i < states.len()
        invariant
            i <= states.len(),
            all == names(states@),
            gone <= i,
            gone == gone_states(all.take(i as int)).len(),
        decreases states.len() - i,
    {
        proof {
            assert(all.take(i + 1).drop_last() =~= all.take(i as int));
            reveal(Seq::filter);
        }
        match LedgerState::from_str(states[i].as_str()) {
            LedgerState::ConfirmedMissing | LedgerState::UnservableFile => {
                gone += 1;
            },
            _ => {},
        }
        i += 1;
    }
    assert(all.take(states.len() as int) =~= all);
    GoneCount { gone, total: states.len() as u64 }
}

} // verus!
