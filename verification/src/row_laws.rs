//! What is read from rows, written to rows and counted in them, column by
//! column, and what noting outcomes through the store comes to.

use vstd::prelude::*;

use crate::damage_ledger::{guidance, KeyView, LedgerRecord, LedgerState, RecordView};
use crate::ledger_laws::{all_asked_of, confirmed_hole_is_never_rediscovered, replay, Attempt};
use crate::ledger_store::{
    encoded, file_record, found_record, gone_states, noted_on, stored_record,
    verdict_names_round_trip, FileRow, FoundRow, StoredRow,
};
use crate::timestamp::{rfc3339_moment, rfc3339_text, Moment};

verus! {

/// Each verdict has its name, and is read from that name alone; any other text
/// reads as unknown.
pub proof fn verdicts_have_their_names(text: Seq<char>)
    ensures
        LedgerState::Unknown.name() == "unknown"@,
        LedgerState::ProvisionalMissing.name() == "provisional_missing"@,
        LedgerState::ConfirmedMissing.name() == "confirmed_missing"@,
        LedgerState::Present.name() == "present"@,
        LedgerState::UnservableFile.name() == "unservable_file"@,
        LedgerState::named(text) is ProvisionalMissing <==> text == "provisional_missing"@,
        LedgerState::named(text) is ConfirmedMissing <==> text == "confirmed_missing"@,
        LedgerState::named(text) is Present <==> text == "present"@,
        LedgerState::named(text) is UnservableFile <==> text == "unservable_file"@,
{
    verdict_names_round_trip(LedgerState::ProvisionalMissing);
    verdict_names_round_trip(LedgerState::ConfirmedMissing);
    verdict_names_round_trip(LedgerState::Present);
    verdict_names_round_trip(LedgerState::UnservableFile);
}

/// What a row stands for holds all of its columns.
pub proof fn row_view_is_whole(row: StoredRow)
    ensures
        row@.message_id == row.message_id@,
        row@.state == row.state@,
        row.evidence is None <==> row@.evidence is None,
        row.evidence matches Some(text) ==> row@.evidence == Some(text@),
        row.first_refused_at is None <==> row@.first_refused_at is None,
        row.first_refused_at matches Some(text) ==> row@.first_refused_at == Some(text@),
        row.confirmed_at is None <==> row@.confirmed_at is None,
        row.confirmed_at matches Some(text) ==> row@.confirmed_at == Some(text@),
        row.expires_at is None <==> row@.expires_at is None,
        row.expires_at matches Some(text) ==> row@.expires_at == Some(text@),
        row@.server_fingerprint == row.server_fingerprint@,
{
}

/// Reading keeps the evidence whole: the record has as many entries as the list
/// found with the row, and the same entry at every position. Where no list was
/// found it has none.
pub proof fn reading_keeps_the_evidence_whole(key: KeyView, found: FoundRow)
    ensures
        ({
            let read = found_record(key, Some(found))->0.evidence;
            &&& found.evidence is None ==> read.len() == 0
            &&& found.evidence matches Some(list) ==> {
                &&& read.len() == list@.len()
                &&& forall|i: int|
                    0 <= i < list@.len() ==> {
                        &&& (#[trigger] read[i]).server == list@[i].server@
                        &&& read[i].kind == list@[i].kind
                        &&& read[i].at == list@[i].at@
                    }
            }
        }),
{
}

/// Reading takes every other field from its own column: a record is read from
/// a row if one was found, under the key it was looked for.
pub proof fn reading_takes_each_field_from_its_column(key: KeyView, found: FoundRow)
    ensures
        found_record(key, None) is None,
        ({
            let row = found.columns;
            let read = found_record(key, Some(found))->0;
            &&& found_record(key, Some(found)) is Some
            &&& read.key == key
            &&& read.message_id == row.message_id@
            &&& read.server_fingerprint == row.server_fingerprint@
            &&& row.state@ == "provisional_missing"@ <==> read.state is ProvisionalMissing
            &&& row.state@ == "confirmed_missing"@ <==> read.state is ConfirmedMissing
            &&& row.state@ == "present"@ <==> read.state is Present
            &&& row.state@ == "unservable_file"@ <==> read.state is UnservableFile
            &&& row.first_refused_at is None ==> read.first_refused_at is None
            &&& row.first_refused_at matches Some(text) ==> read.first_refused_at
                == rfc3339_moment(text@)
            &&& row.confirmed_at is None ==> read.confirmed_at is None
            &&& row.confirmed_at matches Some(text) ==> read.confirmed_at == rfc3339_moment(text@)
            &&& row.expires_at is None ==> read.expires_at is None
            &&& row.expires_at matches Some(text) ==> read.expires_at == rfc3339_moment(text@)
        }),
{
    verdicts_have_their_names(found.columns.state@);
}

/// A row of a file is read as that row is read under its own key: the file's,
/// with the number of the segment.
pub proof fn rows_of_a_file_are_read_under_their_keys(
    scope_id: Seq<char>,
    file_index: u32,
    row: FileRow,
)
    ensures
        ({
            let read = file_record(scope_id, file_index, row);
            &&& read.key.scope_id == scope_id
            &&& read.key.file_index == file_index
            &&& read.key.segment_number == row.segment_number as u32
            &&& found_record(read.key, Some(row.row)) == Some(read)
        }),
{
}

/// Writing puts every field into its own column: the verdict by its name, and
/// each time as text if there is one.
pub proof fn writing_puts_each_field_into_its_column(rec: RecordView, json: Seq<char>)
    ensures
        ({
            let row = encoded(rec, json);
            &&& row.message_id == rec.message_id
            &&& row.server_fingerprint == rec.server_fingerprint
            &&& row.evidence == Some(json)
            &&& rec.state is Unknown ==> row.state == "unknown"@
            &&& rec.state is ProvisionalMissing ==> row.state == "provisional_missing"@
            &&& rec.state is ConfirmedMissing ==> row.state == "confirmed_missing"@
            &&& rec.state is Present ==> row.state == "present"@
            &&& rec.state is UnservableFile ==> row.state == "unservable_file"@
            &&& rec.first_refused_at is None ==> row.first_refused_at is None
            &&& rec.first_refused_at matches Some(at) ==> row.first_refused_at == Some(
                rfc3339_text(at),
            )
            &&& rec.confirmed_at is None ==> row.confirmed_at is None
            &&& rec.confirmed_at matches Some(at) ==> row.confirmed_at == Some(rfc3339_text(at))
            &&& rec.expires_at is None ==> row.expires_at is None
            &&& rec.expires_at matches Some(at) ==> row.expires_at == Some(rfc3339_text(at))
        }),
{
}

/// An outcome is noted on the record that was stored, in every field but a blank
/// message id, which is filled in; and on a blank record if none was stored.
pub proof fn outcomes_are_noted_on_the_stored_record(
    stored: LedgerRecord,
    key: KeyView,
    message_id: Seq<char>,
)
    ensures
        stored_record(Some(stored)) == Some(stored@),
        stored_record(None) is None,
        ({
            let start = noted_on(Some(stored@), key, message_id);
            &&& start.key == stored@.key
            &&& start.state == stored@.state
            &&& start.evidence == stored@.evidence
            &&& start.first_refused_at == stored@.first_refused_at
            &&& start.confirmed_at == stored@.confirmed_at
            &&& start.expires_at == stored@.expires_at
            &&& start.server_fingerprint == stored@.server_fingerprint
            &&& stored@.message_id.len() > 0 ==> start.message_id == stored@.message_id
            &&& stored@.message_id.len() == 0 ==> start.message_id == message_id
        }),
        ({
            let start = noted_on(None, key, message_id);
            &&& start.key == key
            &&& start.message_id == message_id
            &&& start.state is Unknown
            &&& start.evidence.len() == 0
            &&& start.first_refused_at is None
            &&& start.confirmed_at is None
            &&& start.expires_at is None
            &&& start.server_fingerprint.len() == 0
        }),
{
}

/// What is stored after a history was noted attempt by attempt.
pub open spec fn stored_after(
    stored: Option<RecordView>,
    key: KeyView,
    message_id: Seq<char>,
    history: Seq<Attempt>,
) -> Option<RecordView>
    decreases history.len(),
{
    if history.len() == 0 {
        stored
    } else {
        let last = history.last();
        let before = stored_after(stored, key, message_id, history.drop_last());
        Some(noted_on(before, key, message_id).after(last.outcome, last.now, last.servers))
    }
}

/// Noting a history through the store, attempt by attempt, gives what replaying
/// it on the stored record gives, or on a fresh one if none was stored.
pub proof fn noting_a_history_is_replaying_it(
    stored: Option<RecordView>,
    key: KeyView,
    message_id: Seq<char>,
    history: Seq<Attempt>,
)
    requires
        history.len() > 0,
    ensures
        stored is None ==> stored_after(stored, key, message_id, history) == Some(
            replay(RecordView::fresh(key, message_id), history),
        ),
        stored matches Some(rec) ==> stored_after(stored, key, message_id, history) == Some(
            replay(
                RecordView {
                    message_id: if rec.message_id.len() == 0 {
                        message_id
                    } else {
                        rec.message_id
                    },
                    ..rec
                },
                history,
            ),
        ),
    decreases history.len(),
{
    let init = history.drop_last();
    let start = match stored {
        Some(rec) => RecordView {
            message_id: if rec.message_id.len() == 0 {
                message_id
            } else {
                rec.message_id
            },
            ..rec
        },
        None => RecordView::fresh(key, message_id),
    };
    if init.len() > 0 {
        noting_a_history_is_replaying_it(stored, key, message_id, init);
        let before = replay(start, init);
        lemma_replay_keeps_the_message_id(start, init);
        if before.message_id.len() == 0 {
            assert(before.message_id =~= message_id);
        }
        assert(noted_on(Some(before), key, message_id) =~= before);
    } else {
        assert(stored_after(stored, key, message_id, init) == stored);
        assert(replay(start, init) == start);
        assert(noted_on(stored, key, message_id) =~= start);
    }
}

/// No history changes the message id.
proof fn lemma_replay_keeps_the_message_id(rec: RecordView, history: Seq<Attempt>)
    ensures
        replay(rec, history).message_id == rec.message_id,
    decreases history.len(),
{
    if history.len() > 0 {
        lemma_replay_keeps_the_message_id(rec, history.drop_last());
    }
}

/// A confirmed hole that is stored stays confirmed, with its times, however many
/// refusals and transport failures of the same servers are noted on it.
pub proof fn stored_hole_is_never_rediscovered(
    rec: RecordView,
    key: KeyView,
    message_id: Seq<char>,
    history: Seq<Attempt>,
)
    requires
        rec.state is ConfirmedMissing,
        all_asked_of(history, rec.server_fingerprint),
        forall|i: int| 0 <= i < history.len() ==> !((#[trigger] history[i]).outcome is Present),
    ensures
        ({
            let stored = stored_after(Some(rec), key, message_id, history);
            &&& stored is Some
            &&& stored->0.state is ConfirmedMissing
            &&& stored->0.first_refused_at == rec.first_refused_at
            &&& stored->0.confirmed_at == rec.confirmed_at
            &&& stored->0.expires_at == rec.expires_at
            &&& forall|t: Moment| #[trigger] guidance(stored, t) == guidance(Some(rec), t)
        }),
{
    if history.len() > 0 {
        noting_a_history_is_replaying_it(Some(rec), key, message_id, history);
        let start = RecordView {
            message_id: if rec.message_id.len() == 0 {
                message_id
            } else {
                rec.message_id
            },
            ..rec
        };
        confirmed_hole_is_never_rediscovered(start, history);
        assert forall|t: Moment| #[trigger]
            guidance(Some(replay(start, history)), t) == guidance(Some(rec), t) by {
            assert(guidance(Some(start), t) == guidance(Some(rec), t));
        }
    }
}

/// No stored verdicts, none gone; one more adds one exactly if it is the name of
/// a confirmed hole or of an unservable file.
pub proof fn each_gone_verdict_counts_once(states: Seq<Seq<char>>, state: Seq<char>)
    ensures
        gone_states(Seq::empty()).len() == 0,
        gone_states(states.push(state)).len() == gone_states(states).len() + if state
            == "confirmed_missing"@ || state == "unservable_file"@ {
            1int
        } else {
            0int
        },
{
    reveal(Seq::filter);
    verdicts_have_their_names(state);
    assert(states.push(state).drop_last() =~= states);
}

/// A file of whose articles none is a confirmed hole or belongs to an unservable
/// file has none gone.
pub proof fn unconfirmed_refusals_are_not_gone(states: Seq<Seq<char>>)
    requires
        forall|i: int|
            0 <= i < states.len() ==> (#[trigger] states[i]) != "confirmed_missing"@ && states[i]
                != "unservable_file"@,
    ensures
        gone_states(states).len() == 0,
    decreases states.len(),
{
    if states.len() == 0 {
        assert(states =~= Seq::empty());
        each_gone_verdict_counts_once(states, Seq::empty());
    } else {
        let init = states.drop_last();
        assert forall|i: int| 0 <= i < init.len() implies (#[trigger] init[i])
            != "confirmed_missing"@ && init[i] != "unservable_file"@ by {
            assert(init[i] == states[i]);
        }
        unconfirmed_refusals_are_not_gone(init);
        assert(states[states.len() - 1] == states.last());
        each_gone_verdict_counts_once(init, states.last());
        assert(init.push(states.last()) =~= states);
    }
}

} // verus!
