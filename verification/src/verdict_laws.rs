//! What one outcome does to a record, and what a record says before a fetch,
//! field by field.

use vstd::prelude::*;

use crate::damage_ledger::{
    all_refused, guidance, lemma_noted_other, lemma_noted_shape, mentions, noted, record_view,
    refused_by, EvidenceKind, EvidenceView, LedgerRecord, Outcome, OutcomeView, RecordView,
    HOLE_CONFIRM_DELAY_SECS, HOLE_TTL_SECS,
};
use crate::server_set::fingerprint;
use crate::timestamp::Moment;

verus! {

/// What a record stands for holds all that is in it.
pub proof fn record_view_is_whole(rec: LedgerRecord)
    ensures
        rec@.key.scope_id == rec.key.scope_id@,
        rec@.key.file_index == rec.key.file_index,
        rec@.key.segment_number == rec.key.segment_number,
        rec@.message_id == rec.message_id@,
        rec@.state == rec.state,
        rec@.evidence.len() == rec.evidence@.len(),
        forall|i: int|
            0 <= i < rec.evidence@.len() ==> {
                &&& (#[trigger] rec@.evidence[i]).server == rec.evidence@[i].server@
                &&& rec@.evidence[i].kind == rec.evidence@[i].kind
                &&& rec@.evidence[i].at == rec.evidence@[i].at@
            },
        rec.first_refused_at is None <==> rec@.first_refused_at is None,
        rec.first_refused_at matches Some(at) ==> rec@.first_refused_at == Some(at@),
        rec.confirmed_at is None <==> rec@.confirmed_at is None,
        rec.confirmed_at matches Some(at) ==> rec@.confirmed_at == Some(at@),
        rec.expires_at is None <==> rec@.expires_at is None,
        rec.expires_at matches Some(at) ==> rec@.expires_at == Some(at@),
        rec@.server_fingerprint == rec.server_fingerprint@,
        record_view(Some(&rec)) == Some(rec@),
        record_view(None) is None,
{
}

/// What an outcome stands for names the outcome and the server.
pub proof fn outcome_view_is_whole(outcome: Outcome)
    ensures
        outcome is Present <==> outcome@ is Present,
        outcome matches Outcome::Refused { server } ==> outcome@ == (OutcomeView::Refused {
            server: server@,
        }),
        outcome matches Outcome::Transport { server } ==> outcome@ == (OutcomeView::Transport {
            server: server@,
        }),
{
}

/// A fresh record knows nothing of its article.
pub proof fn fresh_record_is_blank(rec: RecordView)
    ensures
        ({
            let fresh = RecordView::fresh(rec.key, rec.message_id);
            &&& fresh.key == rec.key
            &&& fresh.message_id == rec.message_id
            &&& fresh.state is Unknown
            &&& fresh.evidence.len() == 0
            &&& fresh.first_refused_at is None
            &&& fresh.confirmed_at is None
            &&& fresh.expires_at is None
            &&& fresh.server_fingerprint.len() == 0
        }),
{
}

/// An article counts as present exactly if it was delivered, now or before and
/// by the same set of servers. No refusal and no failure makes it present.
pub proof fn only_a_delivery_makes_present(
    rec: RecordView,
    outcome: OutcomeView,
    now: Moment,
    servers: Seq<Seq<char>>,
)
    ensures
        rec.after(outcome, now, servers).state is Present <==> outcome is Present || (
        rec.state is Present && rec.server_fingerprint == fingerprint(servers)),
{
}

/// An article counts as unknown exactly after a transport failure, if nothing
/// was known before or the servers changed.
pub proof fn only_a_failure_leaves_unknown(
    rec: RecordView,
    outcome: OutcomeView,
    now: Moment,
    servers: Seq<Seq<char>>,
)
    ensures
        rec.after(outcome, now, servers).state is Unknown <==> outcome is Transport && (
        rec.state is Unknown || rec.server_fingerprint != fingerprint(servers)),
{
}

/// No outcome makes a file unservable; a transport failure with the same
/// servers leaves it so, and any definite answer ends it.
pub proof fn no_outcome_makes_unservable(
    rec: RecordView,
    outcome: OutcomeView,
    now: Moment,
    servers: Seq<Seq<char>>,
)
    ensures
        rec.after(outcome, now, servers).state is UnservableFile <==> outcome is Transport
            && rec.state is UnservableFile && rec.server_fingerprint == fingerprint(servers),
{
}

/// A hole is confirmed exactly if it was confirmed for the same servers and was
/// not filled now, or if a server refuses now, there are servers, each of the
/// others has refused, and the confirming delay has passed since the first
/// refusal.
pub proof fn hole_is_confirmed_exactly_when_all_refused(
    rec: RecordView,
    outcome: OutcomeView,
    now: Moment,
    servers: Seq<Seq<char>>,
)
    ensures
        rec.after(outcome, now, servers).state is ConfirmedMissing <==> {
            &&& rec.server_fingerprint == fingerprint(servers)
            &&& !(outcome is Present)
            &&& rec.state is ConfirmedMissing || {
                &&& outcome is Refused
                &&& !(rec.state is Present)
                &&& servers.len() > 0
                &&& forall|k: int|
                    0 <= k < servers.len() ==> #[trigger] servers[k] == outcome->Refused_server || (
                    exists|i: int|
                        0 <= i < rec.evidence.len() && #[trigger] rec.evidence[i].server
                            == servers[k] && rec.evidence[i].kind is Refused)
                &&& rec.first_refused_at is Some
                &&& now.nanos_since(rec.first_refused_at->0) >= HOLE_CONFIRM_DELAY_SECS
                    * 1_000_000_000
            }
        },
{
    if outcome is Refused {
        let server = outcome->Refused_server;
        let start = rec.keyed_to(servers);
        lemma_all_refused_but_one(start.evidence, server, now, servers);
        lemma_no_time_since_now(now);
    }
}

/// No time has passed since the present moment.
proof fn lemma_no_time_since_now(now: Moment)
    ensures
        now.nanos_since(now) == 0,
{
}

/// With the refusal of one server noted, all have refused if the others have.
proof fn lemma_all_refused_but_one(
    evidence: Seq<EvidenceView>,
    server: Seq<char>,
    now: Moment,
    servers: Seq<Seq<char>>,
)
    ensures
        all_refused(
            noted(evidence, server, EvidenceKind::Refused, now),
            servers,
        ) <==> servers.len() > 0 && forall|k: int|
            0 <= k < servers.len() ==> #[trigger] servers[k] == server || refused_by(
                evidence,
                servers[k],
            ),
{
    let after = noted(evidence, server, EvidenceKind::Refused, now);
    assert forall|k: int| 0 <= k < servers.len() implies refused_by(after, #[trigger] servers[k])
        == (servers[k] == server || refused_by(evidence, servers[k])) by {
        if servers[k] == server {
            let i = lemma_noted_shape(evidence, server, EvidenceKind::Refused, now);
            assert(after[i].server == server);
        } else {
            lemma_noted_other(evidence, server, EvidenceKind::Refused, now, servers[k]);
        }
    }
}

/// A refusal of a record that is neither present nor a confirmed hole makes it
/// missing, provisionally or for good, and keeps the time of the first refusal.
/// Only the confirming refusal sets the times of the hole.
pub proof fn refusal_keeps_the_first_refusal_time(
    rec: RecordView,
    server: Seq<char>,
    now: Moment,
    servers: Seq<Seq<char>>,
)
    requires
        rec.server_fingerprint == fingerprint(servers),
        !(rec.state is Present),
        !(rec.state is ConfirmedMissing),
    ensures
        ({
            let after = rec.after(OutcomeView::Refused { server }, now, servers);
            &&& after.state is ProvisionalMissing || after.state is ConfirmedMissing
            &&& rec.first_refused_at is Some ==> after.first_refused_at == rec.first_refused_at
            &&& rec.first_refused_at is None ==> after.first_refused_at == Some(now)
            &&& after.state is ProvisionalMissing ==> after.confirmed_at == rec.confirmed_at
                && after.expires_at == rec.expires_at
            &&& after.state is ConfirmedMissing ==> after.confirmed_at == Some(now)
            &&& after.state is ConfirmedMissing ==> (after.expires_at matches Some(end)
                && end.secs == now.secs + HOLE_TTL_SECS && end.nanos == now.nanos % 1_000_000_000)
        }),
{
}

/// The verdict and its times move only by a delivery, a refusal of an unsettled
/// record, or a change of servers: a refusal against a present article or a
/// confirmed hole, and any transport failure, leaves all four as they are.
pub proof fn verdict_and_times_stand(
    rec: RecordView,
    outcome: OutcomeView,
    now: Moment,
    servers: Seq<Seq<char>>,
)
    requires
        rec.server_fingerprint == fingerprint(servers),
        outcome is Transport || (outcome is Refused && (rec.state is Present
            || rec.state is ConfirmedMissing)),
    ensures
        ({
            let after = rec.after(outcome, now, servers);
            &&& after.state == rec.state
            &&& after.first_refused_at == rec.first_refused_at
            &&& after.confirmed_at == rec.confirmed_at
            &&& after.expires_at == rec.expires_at
        }),
{
}

/// A delivery clears the times of a hole, and a change of servers forgets them
/// all: only a refusal now gives a record a time then.
pub proof fn delivery_and_server_change_clear_the_times(
    rec: RecordView,
    outcome: OutcomeView,
    now: Moment,
    servers: Seq<Seq<char>>,
)
    requires
        outcome is Present || rec.server_fingerprint != fingerprint(servers),
    ensures
        ({
            let after = rec.after(outcome, now, servers);
            &&& outcome is Refused ==> after.first_refused_at == Some(now)
            &&& outcome is Refused ==> after.state is ProvisionalMissing
            &&& !(outcome is Refused) ==> after.first_refused_at is None
            &&& after.confirmed_at is None
            &&& after.expires_at is None
        }),
{
    lemma_no_time_since_now(now);
}

/// Whether an outcome is an answer of the given kind by a server.
pub open spec fn is_answer(outcome: OutcomeView, server: Seq<char>, kind: EvidenceKind) -> bool {
    match kind {
        EvidenceKind::Refused => outcome == (OutcomeView::Refused { server }),
        EvidenceKind::Transport => outcome == (OutcomeView::Transport { server }),
    }
}

/// The first answer of a server joins the evidence at the end, and every entry
/// before it stays.
pub proof fn first_answer_of_a_server_joins_the_evidence(
    rec: RecordView,
    outcome: OutcomeView,
    now: Moment,
    servers: Seq<Seq<char>>,
    server: Seq<char>,
    kind: EvidenceKind,
)
    requires
        is_answer(outcome, server, kind),
        rec.server_fingerprint == fingerprint(servers),
        forall|i: int|
            0 <= i < rec.evidence.len() ==> (#[trigger] rec.evidence[i]).server != server,
    ensures
        rec.after(outcome, now, servers).evidence == rec.evidence.push(
            EvidenceView { server, kind, at: now },
        ),
{
    let at = lemma_noted_shape(rec.evidence, server, kind, now);
    if mentions(rec.evidence, server) {
        assert(rec.evidence[at].server == server);
    }
}

/// A further answer of a server takes the place of its first entry, and every
/// other entry stays.
pub proof fn further_answer_of_a_server_replaces_its_entry(
    rec: RecordView,
    outcome: OutcomeView,
    now: Moment,
    servers: Seq<Seq<char>>,
    server: Seq<char>,
    kind: EvidenceKind,
    i: int,
)
    requires
        is_answer(outcome, server, kind),
        rec.server_fingerprint == fingerprint(servers),
        0 <= i < rec.evidence.len(),
        rec.evidence[i].server == server,
        forall|j: int| 0 <= j < i ==> (#[trigger] rec.evidence[j]).server != server,
    ensures
        rec.after(outcome, now, servers).evidence == rec.evidence.update(
            i,
            EvidenceView { server, kind, at: now },
        ),
{
    let at = lemma_noted_shape(rec.evidence, server, kind, now);
    assert(mentions(rec.evidence, server));
    if at < i {
        assert(rec.evidence[at].server == server);
    } else if i < at {
        assert(rec.evidence[i].server == server);
    }
}

/// After a change of servers the evidence is the answer that came now.
pub proof fn answer_of_new_servers_is_the_only_evidence(
    rec: RecordView,
    outcome: OutcomeView,
    now: Moment,
    servers: Seq<Seq<char>>,
    server: Seq<char>,
    kind: EvidenceKind,
)
    requires
        is_answer(outcome, server, kind),
        rec.server_fingerprint != fingerprint(servers),
    ensures
        rec.after(outcome, now, servers).evidence == seq![EvidenceView { server, kind, at: now }],
{
    let start = rec.keyed_to(servers).evidence;
    lemma_noted_shape(start, server, kind, now);
    assert(rec.after(outcome, now, servers).evidence =~= seq![
        EvidenceView { server, kind, at: now },
    ]);
}

/// A delivery adds no evidence and takes none away.
pub proof fn delivery_keeps_the_evidence(rec: RecordView, now: Moment, servers: Seq<Seq<char>>)
    ensures
        ({
            let after = rec.after(OutcomeView::Present, now, servers).evidence;
            &&& rec.server_fingerprint == fingerprint(servers) ==> after == rec.evidence
            &&& rec.server_fingerprint != fingerprint(servers) ==> after.len() == 0
        }),
{
}

/// Every outcome leaves the article and its message id alone, and marks the
/// record with the servers asked.
pub proof fn outcome_marks_the_servers_asked(
    rec: RecordView,
    outcome: OutcomeView,
    now: Moment,
    servers: Seq<Seq<char>>,
)
    ensures
        ({
            let after = rec.after(outcome, now, servers);
            &&& after.key == rec.key
            &&& after.message_id == rec.message_id
            &&& after.server_fingerprint == fingerprint(servers)
        }),
{
}

/// An outcome confirms a hole exactly if it turns a record into a confirmed hole
/// that was none for these servers.
pub proof fn confirming_is_turning_into_a_confirmed_hole(
    rec: RecordView,
    outcome: OutcomeView,
    now: Moment,
    servers: Seq<Seq<char>>,
)
    ensures
        rec.confirms(outcome, now, servers) <==> rec.after(outcome, now, servers).state
            is ConfirmedMissing && !(rec.state is ConfirmedMissing && rec.server_fingerprint
            == fingerprint(servers)),
{
}

/// A fetch is skipped or re-probed only for an article that is gone: a confirmed
/// hole, or one of an unservable file. It is skipped before the expiry, or for
/// ever if there is none, and re-probed from the expiry on.
pub proof fn only_what_is_gone_is_skipped_or_reprobed(rec: RecordView, now: Moment)
    ensures
        ({
            let gone = rec.state is ConfirmedMissing || rec.state is UnservableFile;
            let advice = guidance(Some(rec), now);
            &&& advice.skip <==> gone && (rec.expires_at matches Some(end) ==> now.secs < end.secs
                || (now.secs == end.secs && now.nanos < end.nanos))
            &&& advice.reprobe <==> gone && (rec.expires_at matches Some(end) && (now.secs
                > end.secs || (now.secs == end.secs && now.nanos >= end.nanos)))
        }),
{
}

/// A provisional refusal never keeps an article from being fetched, whatever
/// the evidence, and neither does an article of which nothing is known.
pub proof fn provisional_refusals_are_fetched(rec: RecordView, now: Moment)
    requires
        rec.state is ProvisionalMissing || rec.state is Unknown || rec.state is Present,
    ensures
        !guidance(Some(rec), now).skip,
        !guidance(Some(rec), now).reprobe,
        !guidance(None, now).skip,
        !guidance(None, now).reprobe,
{
}

/// A verdict says that an article is gone exactly if every record with it is
/// skipped or re-probed, at any time.
pub proof fn gone_is_what_is_not_fetched(rec: RecordView, now: Moment)
    ensures
        rec.state.gone() <==> guidance(Some(rec), now).skip || guidance(Some(rec), now).reprobe,
        rec.state.gone() <==> rec.state is ConfirmedMissing || rec.state is UnservableFile,
{
}

/// A refusal by a server is on record exactly if some entry says so.
pub proof fn refusals_on_record_are_entries(evidence: Seq<EvidenceView>, server: Seq<char>)
    ensures
        refused_by(evidence, server) <==> exists|i: int|
            0 <= i < evidence.len() && (#[trigger] evidence[i]).server == server
                && evidence[i].kind is Refused,
{
    if refused_by(evidence, server) {
        let i = choose|i: int|
            0 <= i < evidence.len() && #[trigger] evidence[i].server == server
                && evidence[i].kind is Refused;
        assert(evidence[i].server == server);
    }
    if exists|i: int|
        0 <= i < evidence.len() && (#[trigger] evidence[i]).server == server
            && evidence[i].kind is Refused {
        let i = choose|i: int|
            0 <= i < evidence.len() && (#[trigger] evidence[i]).server == server
                && evidence[i].kind is Refused;
        assert(evidence[i].server == server);
    }
}

} // verus!
