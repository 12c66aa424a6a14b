//! What the ledger promises of all records and all histories.

use vstd::prelude::*;

use crate::damage_ledger::{
    all_refused, guidance, lemma_noted_other, lemma_noted_shape, mentions, noted, refused_by,
    Consult, EvidenceKind, EvidenceView, KeyView, LedgerState, OutcomeView, RecordView,
    HOLE_CONFIRM_DELAY_SECS, HOLE_TTL_SECS,
};
use crate::server_set::{fingerprint, fingerprint_tells_server_sets_apart, same_names};
use crate::timestamp::{Moment, NANOS_PER_SEC};

verus! {

/// Whether a verdict says that the article is missing, confirmed or not.
pub open spec fn is_missing(state: LedgerState) -> bool {
    state is ProvisionalMissing || state is ConfirmedMissing
}

/// Whether two records carry the same verdict with the same times.
pub open spec fn same_verdict(a: RecordView, b: RecordView) -> bool {
    &&& a.state == b.state
    &&& a.first_refused_at == b.first_refused_at
    &&& a.confirmed_at == b.confirmed_at
    &&& a.expires_at == b.expires_at
}

/// Whether a record is keyed to a set of servers.
pub open spec fn is_keyed_to(rec: RecordView, servers: Seq<Seq<char>>) -> bool {
    rec.server_fingerprint == fingerprint(servers)
}

/// Whether at least the confirming delay lies between two moments.
pub open spec fn delay_passed(now: Moment, first: Moment) -> bool {
    now.nanos_since(first) >= HOLE_CONFIRM_DELAY_SECS * NANOS_PER_SEC
}

/// A transport failure never creates or refreshes a missing record, and never
/// makes a fetch be skipped: with the same servers verdict and times stay as
/// they are, and with other servers the record is forgotten.
pub proof fn transport_failure_never_records_missing(
    rec: RecordView,
    server: Seq<char>,
    now: Moment,
    servers: Seq<Seq<char>>,
)
    ensures
        ({
            let after = rec.after(OutcomeView::Transport { server }, now, servers);
            &&& is_keyed_to(rec, servers) ==> same_verdict(after, rec)
            &&& !is_keyed_to(rec, servers) ==> after.state is Unknown
            &&& is_missing(after.state) ==> same_verdict(after, rec)
            &&& forall|t: Moment|
                guidance(Some(after), t).skip ==> #[trigger] guidance(Some(rec), t).skip
        }),
{
}

/// Only a refusal makes a record missing that was not.
pub proof fn only_a_refusal_records_missing(
    rec: RecordView,
    outcome: OutcomeView,
    now: Moment,
    servers: Seq<Seq<char>>,
)
    requires
        !is_missing(rec.state),
        is_missing(rec.after(outcome, now, servers).state),
    ensures
        outcome is Refused,
{
}

/// A hole is confirmed by a refusal only, once every enabled server has a
/// refusal on record and the confirming delay has passed since the first; the
/// hole is then believed for its lifetime from that moment.
pub proof fn confirmation_needs_every_server_and_the_delay(
    rec: RecordView,
    outcome: OutcomeView,
    now: Moment,
    servers: Seq<Seq<char>>,
)
    requires
        rec.after(outcome, now, servers).state is ConfirmedMissing,
        !(rec.state is ConfirmedMissing && is_keyed_to(rec, servers)),
    ensures
        outcome is Refused,
        ({
            let after = rec.after(outcome, now, servers);
            &&& all_refused(after.evidence, servers)
            &&& after.first_refused_at matches Some(first) && delay_passed(now, first)
            &&& after.confirmed_at == Some(now)
            &&& after.expires_at == Some(now.after_secs(HOLE_TTL_SECS as int))
        }),
{
}

/// A refusal confirms the hole as soon as every enabled server has refused and
/// the delay has passed: there is no other obstacle.
pub proof fn refusal_by_all_after_the_delay_confirms(
    rec: RecordView,
    server: Seq<char>,
    now: Moment,
    servers: Seq<Seq<char>>,
)
    requires
        is_keyed_to(rec, servers),
        rec.state is ProvisionalMissing,
        rec.first_refused_at matches Some(first) && delay_passed(now, first),
        servers.len() > 0,
        forall|k: int|
            0 <= k < servers.len() ==> #[trigger] servers[k] == server || refused_by(
                rec.evidence,
                servers[k],
            ),
    ensures
        rec.after(OutcomeView::Refused { server }, now, servers).state is ConfirmedMissing,
{
    let after = noted(rec.evidence, server, EvidenceKind::Refused, now);
    assert forall|k: int| 0 <= k < servers.len() implies refused_by(
        after,
        #[trigger] servers[k],
    ) by {
        if servers[k] == server {
            let i = lemma_noted_shape(rec.evidence, server, EvidenceKind::Refused, now);
            assert(after[i].server == server);
        } else {
            lemma_noted_other(rec.evidence, server, EvidenceKind::Refused, now, servers[k]);
        }
    }
}

/// When the set of servers asked has changed, the record starts over: an
/// outcome does to it what it does to a fresh record of the article.
pub proof fn server_change_starts_over(
    rec: RecordView,
    outcome: OutcomeView,
    now: Moment,
    servers: Seq<Seq<char>>,
)
    requires
        !is_keyed_to(rec, servers),
    ensures
        rec.after(outcome, now, servers) == RecordView::fresh(rec.key, rec.message_id).after(
            outcome,
            now,
            servers,
        ),
{
    let fresh = RecordView::fresh(rec.key, rec.message_id);
    assert(rec.keyed_to(servers) =~= fresh.keyed_to(servers));
}

/// Asking any other set of servers than a record was asked of makes the record
/// start over, whether a provider was added, removed or replaced.
pub proof fn provider_change_invalidates_the_record(
    rec: RecordView,
    asked: Seq<Seq<char>>,
    outcome: OutcomeView,
    now: Moment,
    servers: Seq<Seq<char>>,
)
    requires
        is_keyed_to(rec, asked),
        !same_names(servers, asked),
    ensures
        rec.after(outcome, now, servers) == RecordView::fresh(rec.key, rec.message_id).after(
            outcome,
            now,
            servers,
        ),
{
    fingerprint_tells_server_sets_apart(servers, asked);
    server_change_starts_over(rec, outcome, now, servers);
}

/// Only which servers are enabled counts, not the order in which they are
/// listed, nor repetitions.
pub proof fn server_order_and_repetition_do_not_matter(
    rec: RecordView,
    outcome: OutcomeView,
    now: Moment,
    a: Seq<Seq<char>>,
    b: Seq<Seq<char>>,
)
    requires
        same_names(a, b),
    ensures
        rec.confirms(outcome, now, a) == rec.confirms(outcome, now, b),
        rec.after(outcome, now, a) == rec.after(outcome, now, b),
{
    fingerprint_tells_server_sets_apart(a, b);
    if outcome is Refused {
        let server = outcome->Refused_server;
        let evidence = noted(rec.keyed_to(a).evidence, server, EvidenceKind::Refused, now);
        if all_refused(evidence, a) {
            lemma_all_refused_by_names(evidence, a, b);
        }
        if all_refused(evidence, b) {
            lemma_all_refused_by_names(evidence, b, a);
        }
    }
}

/// Whether all servers have refused depends on their names alone.
proof fn lemma_all_refused_by_names(
    evidence: Seq<EvidenceView>,
    a: Seq<Seq<char>>,
    b: Seq<Seq<char>>,
)
    requires
        same_names(a, b),
        all_refused(evidence, a),
    ensures
        all_refused(evidence, b),
{
    assert(a.contains(a[0]));
    assert(b.contains(a[0]));
    assert forall|k: int| 0 <= k < b.len() implies refused_by(evidence, #[trigger] b[k]) by {
        assert(b.contains(b[k]));
        assert(a.contains(b[k]));
        let i = choose|i: int| 0 <= i < a.len() && a[i] == b[k];
        assert(refused_by(evidence, a[i]));
    }
}

/// Only what a server said last is kept: what it said before it leaves no
/// trace, whatever the kinds and the times.
pub proof fn only_the_last_answer_of_a_server_counts(
    rec: RecordView,
    server: Seq<char>,
    earlier_kind: EvidenceKind,
    earlier: Moment,
    kind: EvidenceKind,
    at: Moment,
)
    ensures
        rec.noting(server, earlier_kind, earlier).noting(server, kind, at) == rec.noting(
            server,
            kind,
            at,
        ),
{
    let once = noted(rec.evidence, server, earlier_kind, earlier);
    let i = lemma_noted_shape(rec.evidence, server, earlier_kind, earlier);
    let j = lemma_noted_shape(once, server, kind, at);
    let k = lemma_noted_shape(rec.evidence, server, kind, at);
    assert(once[i].server == server);
    assert(mentions(once, server));
    assert(i == j && j == k) by {
        assert(forall|n: int| 0 <= n < i ==> once[n] == rec.evidence[n]);
        if mentions(rec.evidence, server) {
            assert(rec.evidence[i].server == server && rec.evidence[k].server == server);
        }
        if j < i {
            assert(once[j].server == server);
            assert(rec.evidence[j].server == server);
        }
    }
    assert(noted(once, server, kind, at) =~= noted(rec.evidence, server, kind, at));
}

/// A transport failure leaves no trace once the same server answers again.
pub proof fn transport_failure_is_forgotten_with_the_next_answer(
    rec: RecordView,
    server: Seq<char>,
    earlier: Moment,
    outcome: OutcomeView,
    now: Moment,
    servers: Seq<Seq<char>>,
)
    requires
        answered_by(outcome) == Some(server),
    ensures
        rec.after(OutcomeView::Transport { server }, earlier, servers).after(outcome, now, servers)
            == rec.after(outcome, now, servers),
{
    let kind = if outcome is Refused {
        EvidenceKind::Refused
    } else {
        EvidenceKind::Transport
    };
    only_the_last_answer_of_a_server_counts(
        rec.keyed_to(servers),
        server,
        EvidenceKind::Transport,
        earlier,
        kind,
        now,
    );
}

/// The first refusal on a record is provisional, whatever the servers, and so
/// is the first one after the set of servers changed: it never skips a fetch.
pub proof fn first_refusal_is_provisional(
    rec: RecordView,
    server: Seq<char>,
    now: Moment,
    servers: Seq<Seq<char>>,
)
    requires
        !is_keyed_to(rec, servers) || (rec.first_refused_at is None && !rec.settled()),
    ensures
        ({
            let after = rec.after(OutcomeView::Refused { server }, now, servers);
            &&& after.state is ProvisionalMissing
            &&& after.first_refused_at == Some(now)
            &&& forall|t: Moment|
                #[trigger] guidance(Some(after), t) == (Consult { skip: false, reprobe: false })
        }),
{
}

/// A hole confirmed now is skipped until its lifetime is over, and re-probed
/// from then on.
pub proof fn confirmed_hole_is_believed_for_its_lifetime(
    rec: RecordView,
    outcome: OutcomeView,
    now: Moment,
    servers: Seq<Seq<char>>,
    t: Moment,
)
    requires
        rec.confirms(outcome, now, servers),
    ensures
        ({
            let expired = t.not_before(now.after_secs(HOLE_TTL_SECS as int));
            guidance(Some(rec.after(outcome, now, servers)), t) == (Consult {
                skip: !expired,
                reprobe: expired,
            })
        }),
{
}

/// A fetch is never both skipped and re-probed.
pub proof fn guidance_is_single(rec: Option<RecordView>, now: Moment)
    ensures
        !(guidance(rec, now).skip && guidance(rec, now).reprobe),
{
}

/// A record that skips its article at some time skips it at every earlier time
/// too, and one that has it re-probed does so at every later time.
pub proof fn expiry_is_final(rec: RecordView, earlier: Moment, later: Moment)
    requires
        later.not_before(earlier),
    ensures
        guidance(Some(rec), later).skip ==> guidance(Some(rec), earlier).skip,
        guidance(Some(rec), earlier).reprobe ==> guidance(Some(rec), later).reprobe,
{
}

/// A definite present answer clears any hole.
pub proof fn present_clears_any_hole(rec: RecordView, now: Moment, servers: Seq<Seq<char>>)
    ensures
        ({
            let after = rec.after(OutcomeView::Present, now, servers);
            &&& after.state is Present
            &&& after.first_refused_at is None
            &&& after.confirmed_at is None
            &&& after.expires_at is None
            &&& forall|t: Moment|
                #[trigger] guidance(Some(after), t) == (Consult { skip: false, reprobe: false })
        }),
{
}

/// An outcome changes neither the article nor its message id, and keys the
/// record to the servers asked.
pub proof fn outcome_keeps_the_article(
    rec: RecordView,
    outcome: OutcomeView,
    now: Moment,
    servers: Seq<Seq<char>>,
)
    ensures
        rec.after(outcome, now, servers).key == rec.key,
        rec.after(outcome, now, servers).message_id == rec.message_id,
        is_keyed_to(rec.after(outcome, now, servers), servers),
{
}

/// One fetch attempt: its outcome, when it was noted, and the servers it could
/// have used.
pub struct Attempt {
    pub outcome: OutcomeView,
    pub now: Moment,
    pub servers: Seq<Seq<char>>,
}

/// The record after a history of attempts.
pub open spec fn replay(rec: RecordView, history: Seq<Attempt>) -> RecordView
    decreases history.len(),
{
    if history.len() == 0 {
        rec
    } else {
        let last = history.last();
        replay(rec, history.drop_last()).after(last.outcome, last.now, last.servers)
    }
}

/// Whether every attempt of a history could have used the same set of servers.
pub open spec fn all_asked_of(history: Seq<Attempt>, asked: Seq<char>) -> bool {
    forall|i: int| 0 <= i < history.len() ==> fingerprint(#[trigger] history[i].servers) == asked
}

/// Present is sticky: as long as the servers stay the same, whatever the
/// later answers, the article counts as present and no times of a hole come up.
pub proof fn present_is_sticky(rec: RecordView, history: Seq<Attempt>)
    requires
        rec.state is Present,
        all_asked_of(history, rec.server_fingerprint),
    ensures
        replay(rec, history).state is Present,
        replay(rec, history).server_fingerprint == rec.server_fingerprint,
        rec.first_refused_at is None ==> replay(rec, history).first_refused_at is None,
        rec.confirmed_at is None ==> replay(rec, history).confirmed_at is None,
        rec.expires_at is None ==> replay(rec, history).expires_at is None,
    decreases history.len(),
{
    if history.len() > 0 {
        let init = history.drop_last();
        assert forall|i: int| 0 <= i < init.len() implies fingerprint(#[trigger] init[i].servers)
            == rec.server_fingerprint by {
            assert(init[i] == history[i]);
        }
        present_is_sticky(rec, init);
        assert(fingerprint(history[history.len() - 1].servers) == rec.server_fingerprint);
    }
}

/// A confirmed hole is never rediscovered: as long as the servers stay the
/// same and none delivers the article, the verdict and its times stay, and
/// with them the guidance at every time.
pub proof fn confirmed_hole_is_never_rediscovered(rec: RecordView, history: Seq<Attempt>)
    requires
        rec.state is ConfirmedMissing,
        all_asked_of(history, rec.server_fingerprint),
        forall|i: int| 0 <= i < history.len() ==> !((#[trigger] history[i]).outcome is Present),
    ensures
        same_verdict(replay(rec, history), rec),
        replay(rec, history).server_fingerprint == rec.server_fingerprint,
        forall|t: Moment|
            #[trigger] guidance(Some(replay(rec, history)), t) == guidance(Some(rec), t),
    decreases history.len(),
{
    if history.len() > 0 {
        let init = history.drop_last();
        let last = history[history.len() - 1];
        assert forall|i: int| 0 <= i < init.len() implies fingerprint(#[trigger] init[i].servers)
            == rec.server_fingerprint by {
            assert(init[i] == history[i]);
        }
        assert forall|i: int| 0 <= i < init.len() implies !(
        (#[trigger] init[i]).outcome is Present) by {
            assert(init[i] == history[i]);
        }
        confirmed_hole_is_never_rediscovered(rec, init);
        assert(fingerprint(last.servers) == rec.server_fingerprint);
        assert(!(last.outcome is Present));
    }
}

/// Without a refusal no history makes an article missing, or skips it.
pub proof fn history_without_refusals_records_nothing_missing(
    key: KeyView,
    message_id: Seq<char>,
    history: Seq<Attempt>,
)
    requires
        forall|i: int| 0 <= i < history.len() ==> !((#[trigger] history[i]).outcome is Refused),
    ensures
        ({
            let rec = replay(RecordView::fresh(key, message_id), history);
            &&& rec.state is Unknown || rec.state is Present
            &&& forall|t: Moment|
                #[trigger] guidance(Some(rec), t) == (Consult { skip: false, reprobe: false })
        }),
    decreases history.len(),
{
    if history.len() > 0 {
        let init = history.drop_last();
        assert forall|i: int| 0 <= i < init.len() implies !(
        (#[trigger] init[i]).outcome is Refused) by {
            assert(init[i] == history[i]);
        }
        history_without_refusals_records_nothing_missing(key, message_id, init);
        assert(!(history[history.len() - 1].outcome is Refused));
    }
}

/// Whether a record is as the ledger leaves it: at most one entry per server,
/// and the times that its verdict calls for and no others.
pub open spec fn is_consistent(rec: RecordView) -> bool {
    &&& forall|i: int, j: int|
        0 <= i < j < rec.evidence.len() ==> #[trigger] rec.evidence[i].server
            != #[trigger] rec.evidence[j].server
    &&& match rec.state {
        LedgerState::Unknown | LedgerState::Present => {
            &&& rec.first_refused_at is None
            &&& rec.confirmed_at is None
            &&& rec.expires_at is None
        },
        LedgerState::ProvisionalMissing => {
            &&& rec.first_refused_at is Some
            &&& rec.confirmed_at is None
            &&& rec.expires_at is None
        },
        LedgerState::ConfirmedMissing => {
            &&& rec.first_refused_at is Some
            &&& rec.confirmed_at is Some
            &&& delay_passed(rec.confirmed_at->0, rec.first_refused_at->0)
            &&& rec.expires_at == Some(rec.confirmed_at->0.after_secs(HOLE_TTL_SECS as int))
        },
        LedgerState::UnservableFile => false,
    }
}

/// Noting an answer leaves one entry per server.
proof fn lemma_noted_distinct(
    evidence: Seq<EvidenceView>,
    server: Seq<char>,
    kind: EvidenceKind,
    at: Moment,
)
    requires
        forall|i: int, j: int|
            0 <= i < j < evidence.len() ==> #[trigger] evidence[i].server
                != #[trigger] evidence[j].server,
    ensures
        ({
            let after = noted(evidence, server, kind, at);
            forall|i: int, j: int|
                0 <= i < j < after.len() ==> #[trigger] after[i].server
                    != #[trigger] after[j].server
        }),
{
    let after = noted(evidence, server, kind, at);
    let at_index = lemma_noted_shape(evidence, server, kind, at);
    assert forall|i: int, j: int| 0 <= i < j < after.len() implies #[trigger] after[i].server
        != #[trigger] after[j].server by {
        if mentions(evidence, server) {
            assert(evidence[i].server != evidence[j].server);
        } else if j < evidence.len() {
            assert(evidence[i].server != evidence[j].server);
        }
    }
}

/// Every outcome keeps a record consistent.
pub proof fn outcome_keeps_the_record_consistent(
    rec: RecordView,
    outcome: OutcomeView,
    now: Moment,
    servers: Seq<Seq<char>>,
)
    requires
        is_consistent(rec),
    ensures
        is_consistent(rec.after(outcome, now, servers)),
{
    let start = rec.keyed_to(servers);
    match outcome {
        OutcomeView::Present => {},
        OutcomeView::Transport { server } => {
            lemma_noted_distinct(start.evidence, server, EvidenceKind::Transport, now);
        },
        OutcomeView::Refused { server } => {
            lemma_noted_distinct(start.evidence, server, EvidenceKind::Refused, now);
        },
    }
}

/// Whatever happens, a record that started fresh stays consistent.
pub proof fn every_history_is_consistent(key: KeyView, message_id: Seq<char>, history: Seq<Attempt>)
    ensures
        is_consistent(replay(RecordView::fresh(key, message_id), history)),
    decreases history.len(),
{
    if history.len() > 0 {
        let last = history.last();
        let init = history.drop_last();
        every_history_is_consistent(key, message_id, init);
        outcome_keeps_the_record_consistent(
            replay(RecordView::fresh(key, message_id), init),
            last.outcome,
            last.now,
            last.servers,
        );
    }
}

/// Whether from an attempt of a history on, to its end, the servers stayed the
/// same.
pub open spec fn in_last_run(history: Seq<Attempt>, j: int) -> bool {
    &&& 0 <= j < history.len()
    &&& forall|i: int|
        j <= i < history.len() ==> fingerprint(#[trigger] history[i].servers) == fingerprint(
            history.last().servers,
        )
}

/// Whether an attempt of the last run was refused by a server.
pub open spec fn refused_in_last_run(history: Seq<Attempt>, server: Seq<char>, j: int) -> bool {
    in_last_run(history, j) && history[j].outcome == (OutcomeView::Refused { server })
}

/// Whether an attempt of the last run was refused by whatever server.
pub open spec fn refusal_in_last_run(history: Seq<Attempt>, j: int) -> bool {
    in_last_run(history, j) && history[j].outcome is Refused
}

/// Whether, up to an attempt, a server has refused the article in the last run.
pub open spec fn has_refused_by(history: Seq<Attempt>, server: Seq<char>, k: int) -> bool {
    exists|j: int| j <= k && #[trigger] refused_in_last_run(history, server, j)
}

/// Whether an attempt is the first refusal of the last run.
pub open spec fn is_first_refusal(history: Seq<Attempt>, j: int) -> bool {
    &&& refusal_in_last_run(history, j)
    &&& forall|i: int|
        i < j && #[trigger] in_last_run(history, i) ==> !(history[i].outcome is Refused)
}

/// Whether the first refusal of the last run lies at least the confirming delay
/// before an attempt.
pub open spec fn was_refused_before(history: Seq<Attempt>, k: int) -> bool {
    exists|j: int|
        j <= k && #[trigger] is_first_refusal(history, j) && delay_passed(
            history[k].now,
            history[j].now,
        )
}

/// Whether an attempt of the last run confirms a hole: it is a refusal, by then
/// every server it could have used has refused the article, and the first
/// refusal lies at least the confirming delay back.
pub open spec fn confirmed_in_last_run(history: Seq<Attempt>, k: int) -> bool {
    &&& refusal_in_last_run(history, k)
    &&& history[k].servers.len() > 0
    &&& forall|n: int|
        0 <= n < history[k].servers.len() ==> has_refused_by(
            history,
            #[trigger] history[k].servers[n],
            k,
        )
    &&& was_refused_before(history, k)
}

/// Whether evidence comes from an attempt of the last run.
pub open spec fn heard_in_last_run(history: Seq<Attempt>, entry: EvidenceView, j: int) -> bool {
    &&& in_last_run(history, j)
    &&& history[j].now == entry.at
    &&& history[j].outcome == match entry.kind {
        EvidenceKind::Refused => OutcomeView::Refused { server: entry.server },
        EvidenceKind::Transport => OutcomeView::Transport { server: entry.server },
    }
}

/// Whether some attempt of the last run gave a piece of evidence.
spec fn was_heard(history: Seq<Attempt>, entry: EvidenceView) -> bool {
    exists|j: int| #[trigger] heard_in_last_run(history, entry, j)
}

/// Whether the last run gave every piece of evidence.
spec fn all_heard(history: Seq<Attempt>, evidence: Seq<EvidenceView>) -> bool {
    forall|e: int| 0 <= e < evidence.len() ==> was_heard(history, #[trigger] evidence[e])
}

/// Whether the first refusal of the last run came at a moment.
spec fn was_refused_at(history: Seq<Attempt>, at: Moment) -> bool {
    exists|j: int| #[trigger] is_first_refusal(history, j) && history[j].now == at
}

/// Whether the last run holds no refusal.
spec fn never_refused(history: Seq<Attempt>) -> bool {
    forall|i: int| #[trigger] in_last_run(history, i) ==> !(history[i].outcome is Refused)
}

/// Whether an attempt of the last run confirmed a hole at a moment.
spec fn was_confirmed_at(history: Seq<Attempt>, at: Option<Moment>) -> bool {
    exists|k: int| #[trigger] confirmed_in_last_run(history, k) && at == Some(history[k].now)
}

/// Whether all that a record holds comes from the last run of a history.
spec fn holds_the_run(rec: RecordView, history: Seq<Attempt>) -> bool {
    &&& all_heard(history, rec.evidence)
    &&& rec.first_refused_at matches Some(first) ==> was_refused_at(history, first)
    &&& rec.state is ConfirmedMissing ==> was_confirmed_at(history, rec.confirmed_at)
}

/// Whether a record is what the last run of a history has led to.
spec fn is_explained(rec: RecordView, history: Seq<Attempt>) -> bool {
    &&& history.len() > 0 ==> rec.server_fingerprint == fingerprint(history.last().servers)
    &&& holds_the_run(rec, history)
    &&& rec.state is Unknown ==> never_refused(history)
}

/// An attempt of the last run stays in it when the next attempt could use the
/// same servers.
proof fn lemma_run_goes_on(history: Seq<Attempt>, next: Attempt, j: int)
    requires
        in_last_run(history, j),
        fingerprint(next.servers) == fingerprint(history.last().servers),
    ensures
        in_last_run(history.push(next), j),
        history.push(next)[j] == history[j],
        is_first_refusal(history, j) ==> is_first_refusal(history.push(next), j),
{
    let longer = history.push(next);
    assert forall|i: int| j <= i < longer.len() implies fingerprint(#[trigger] longer[i].servers)
        == fingerprint(longer.last().servers) by {
        if i < history.len() {
            assert(longer[i] == history[i]);
        }
    }
    if is_first_refusal(history, j) {
        assert forall|i: int| i < j && #[trigger] in_last_run(longer, i) implies !(
        longer[i].outcome is Refused) by {
            lemma_run_went_on(history, next, i);
        }
    }
}

/// An attempt of the last run, other than the last, was in it before the last.
proof fn lemma_run_went_on(history: Seq<Attempt>, next: Attempt, i: int)
    requires
        in_last_run(history.push(next), i),
        i < history.len(),
    ensures
        in_last_run(history, i),
        fingerprint(next.servers) == fingerprint(history.last().servers),
        history.push(next)[i] == history[i],
{
    let longer = history.push(next);
    assert(longer[history.len() - 1] == history.last());
    assert forall|k: int| i <= k < history.len() implies fingerprint(#[trigger] history[k].servers)
        == fingerprint(history.last().servers) by {
        assert(longer[k] == history[k]);
    }
}

/// What explained a record goes on to explain it.
proof fn lemma_explanation_goes_on(rec: RecordView, history: Seq<Attempt>, next: Attempt)
    requires
        history.len() > 0,
        is_explained(rec, history),
        rec.server_fingerprint == fingerprint(next.servers),
    ensures
        holds_the_run(rec, history.push(next)),
        rec.state is Unknown && !(next.outcome is Refused) ==> never_refused(history.push(next)),
{
    let longer = history.push(next);
    if rec.state is Unknown && !(next.outcome is Refused) {
        assert forall|i: int| #[trigger] in_last_run(longer, i) implies !(
        longer[i].outcome is Refused) by {
            if i < history.len() {
                lemma_run_went_on(history, next, i);
            }
        }
    }
    assert forall|e: int| 0 <= e < rec.evidence.len() implies was_heard(
        longer,
        #[trigger] rec.evidence[e],
    ) by {
        assert(was_heard(history, rec.evidence[e]));
        let j = choose|j: int| #[trigger] heard_in_last_run(history, rec.evidence[e], j);
        lemma_run_goes_on(history, next, j);
        assert(heard_in_last_run(longer, rec.evidence[e], j));
    }
    if rec.first_refused_at is Some {
        let j = choose|j: int| #[trigger]
            is_first_refusal(history, j) && history[j].now == rec.first_refused_at->0;
        lemma_run_goes_on(history, next, j);
        assert(is_first_refusal(longer, j));
    }
    if rec.state is ConfirmedMissing {
        let k = choose|k: int| #[trigger]
            confirmed_in_last_run(history, k) && rec.confirmed_at == Some(history[k].now);
        lemma_run_goes_on(history, next, k);
        assert(refusal_in_last_run(longer, k));
        assert forall|n: int| 0 <= n < longer[k].servers.len() implies has_refused_by(
            longer,
            #[trigger] longer[k].servers[n],
            k,
        ) by {
            let server = history[k].servers[n];
            assert(has_refused_by(history, server, k));
            let j = choose|j: int| j <= k && #[trigger] refused_in_last_run(history, server, j);
            lemma_run_goes_on(history, next, j);
            assert(refused_in_last_run(longer, server, j));
        }
        let j = choose|j: int|
            j <= k && #[trigger] is_first_refusal(history, j) && delay_passed(
                history[k].now,
                history[j].now,
            );
        lemma_run_goes_on(history, next, j);
        assert(is_first_refusal(longer, j));
        assert(confirmed_in_last_run(longer, k));
    }
}

/// Noted evidence is explained when the evidence before it is.
proof fn lemma_noted_explained(
    evidence: Seq<EvidenceView>,
    server: Seq<char>,
    kind: EvidenceKind,
    history: Seq<Attempt>,
)
    requires
        history.len() > 0,
        all_heard(history, evidence),
        history.last().outcome == match kind {
            EvidenceKind::Refused => OutcomeView::Refused { server },
            EvidenceKind::Transport => OutcomeView::Transport { server },
        },
    ensures
        all_heard(history, noted(evidence, server, kind, history.last().now)),
{
    let now = history.last().now;
    let after = noted(evidence, server, kind, now);
    let i = lemma_noted_shape(evidence, server, kind, now);
    assert forall|e: int| 0 <= e < after.len() implies was_heard(history, #[trigger] after[e]) by {
        if e == i {
            assert(heard_in_last_run(history, after[e], history.len() - 1));
        } else {
            assert(after[e] == evidence[e]);
        }
    }
}

/// Every record that started fresh is explained by its history.
proof fn lemma_explained(key: KeyView, message_id: Seq<char>, history: Seq<Attempt>)
    ensures
        is_explained(replay(RecordView::fresh(key, message_id), history), history),
    decreases history.len(),
{
    if history.len() > 0 {
        let init = history.drop_last();
        let next = history.last();
        let rec = replay(RecordView::fresh(key, message_id), init);
        let start = rec.keyed_to(next.servers);
        let after = rec.after(next.outcome, next.now, next.servers);
        let end = history.len() - 1;
        lemma_explained(key, message_id, init);
        every_history_is_consistent(key, message_id, init);
        assert(init.push(next) =~= history);
        assert(in_last_run(history, end));
        if init.len() > 0 && rec.server_fingerprint == fingerprint(next.servers) {
            lemma_explanation_goes_on(rec, init, next);
        }
        if next.outcome is Refused && start.state is Unknown {
            assert forall|i: int| i < end && #[trigger] in_last_run(history, i) implies !(
            history[i].outcome is Refused) by {
                lemma_run_went_on(init, next, i);
            }
            assert(is_first_refusal(history, end));
        }
        if start != rec || init.len() == 0 {
            assert forall|i: int| #[trigger] in_last_run(history, i) implies i == end by {
                if i < end {
                    lemma_run_went_on(init, next, i);
                }
            }
        }
        assert(all_heard(history, start.evidence));
        match next.outcome {
            OutcomeView::Present => {},
            OutcomeView::Transport { server } => {
                lemma_noted_explained(start.evidence, server, EvidenceKind::Transport, history);
            },
            OutcomeView::Refused { server } => {
                lemma_noted_explained(start.evidence, server, EvidenceKind::Refused, history);
                if !start.settled() {
                    assert(was_refused_at(history, start.first_refusal(next.now)));
                }
                if rec.confirms(next.outcome, next.now, next.servers) {
                    lemma_confirmation_explained(after, history, start.first_refusal(next.now));
                }
            },
        }
    }
}

/// A record that the last attempt confirmed has its explanation in the run.
proof fn lemma_confirmation_explained(rec: RecordView, history: Seq<Attempt>, first: Moment)
    requires
        history.len() > 0,
        refusal_in_last_run(history, history.len() - 1),
        all_refused(rec.evidence, history.last().servers),
        all_heard(history, rec.evidence),
        was_refused_at(history, first),
        delay_passed(history.last().now, first),
    ensures
        confirmed_in_last_run(history, history.len() - 1),
{
    let k = history.len() - 1;
    let servers = history[k].servers;
    assert forall|n: int| 0 <= n < servers.len() implies has_refused_by(
        history,
        #[trigger] servers[n],
        k,
    ) by {
        assert(refused_by(rec.evidence, servers[n]));
        let e = choose|e: int|
            0 <= e < rec.evidence.len() && #[trigger] rec.evidence[e].server == servers[n]
                && rec.evidence[e].kind is Refused;
        assert(was_heard(history, rec.evidence[e]));
        let j = choose|j: int| #[trigger] heard_in_last_run(history, rec.evidence[e], j);
        assert(refused_in_last_run(history, servers[n], j));
    }
    let j = choose|j: int| #[trigger] is_first_refusal(history, j) && history[j].now == first;
    assert(j <= k && is_first_refusal(history, j) && delay_passed(
        history[k].now,
        history[j].now,
    ));
}

/// Over any history, an article counts as confirmed missing only if, since the
/// set of servers last changed, every enabled server has refused it, and the
/// confirming refusal came at least the confirming delay after the first one.
/// The hole expires its lifetime after that confirming refusal.
pub proof fn confirmed_hole_has_been_refused_by_every_server(
    key: KeyView,
    message_id: Seq<char>,
    history: Seq<Attempt>,
)
    requires
        replay(RecordView::fresh(key, message_id), history).state is ConfirmedMissing,
    ensures
        exists|k: int| #[trigger]
            confirmed_in_last_run(history, k) && replay(
                RecordView::fresh(key, message_id),
                history,
            ).expires_at == Some(history[k].now.after_secs(HOLE_TTL_SECS as int)),
{
    lemma_explained(key, message_id, history);
    every_history_is_consistent(key, message_id, history);
}

/// Over any history, a fetch is skipped or re-probed only if, since the set of
/// servers last changed, every enabled server has refused the article and the
/// confirming refusal came at least the confirming delay after the first one.
/// It is skipped before the end of the hole's lifetime, and re-probed from then
/// on.
pub proof fn skipping_needs_a_refusal_by_every_server(
    key: KeyView,
    message_id: Seq<char>,
    history: Seq<Attempt>,
    t: Moment,
)
    requires
        ({
            let rec = replay(RecordView::fresh(key, message_id), history);
            guidance(Some(rec), t).skip || guidance(Some(rec), t).reprobe
        }),
    ensures
        exists|k: int| #[trigger]
            confirmed_in_last_run(history, k) && {
                let rec = replay(RecordView::fresh(key, message_id), history);
                let end = history[k].now.after_secs(HOLE_TTL_SECS as int);
                &&& guidance(Some(rec), t).reprobe == t.not_before(end)
                &&& guidance(Some(rec), t).skip == !t.not_before(end)
            },
{
    every_history_is_consistent(key, message_id, history);
    confirmed_hole_has_been_refused_by_every_server(key, message_id, history);
    let rec = replay(RecordView::fresh(key, message_id), history);
    let k = choose|k: int| #[trigger]
        confirmed_in_last_run(history, k) && rec.expires_at == Some(
            history[k].now.after_secs(HOLE_TTL_SECS as int),
        );
    assert(confirmed_in_last_run(history, k));
}

/// Whether an attempt of the last run delivered the article.
pub open spec fn delivered_in_last_run(history: Seq<Attempt>, j: int) -> bool {
    in_last_run(history, j) && history[j].outcome is Present
}

/// Over any history, an article counts as present exactly if, since the set of
/// servers last changed, it was delivered.
pub proof fn present_means_delivered(key: KeyView, message_id: Seq<char>, history: Seq<Attempt>)
    ensures
        replay(RecordView::fresh(key, message_id), history).state is Present <==> exists|j: int|
            #[trigger] delivered_in_last_run(history, j),
    decreases history.len(),
{
    let fresh = RecordView::fresh(key, message_id);
    if history.len() > 0 {
        let init = history.drop_last();
        let next = history.last();
        let end = history.len() - 1;
        let rec = replay(fresh, init);
        assert(init.push(next) =~= history);
        assert(in_last_run(history, end));
        present_means_delivered(key, message_id, init);
        lemma_explained(key, message_id, init);
        if next.outcome is Present {
            assert(delivered_in_last_run(history, end));
        } else if replay(fresh, history).state is Present {
            let j = choose|j: int| #[trigger] delivered_in_last_run(init, j);
            lemma_run_goes_on(init, next, j);
            assert(delivered_in_last_run(history, j));
        } else if exists|j: int| #[trigger] delivered_in_last_run(history, j) {
            let j = choose|j: int| #[trigger] delivered_in_last_run(history, j);
            lemma_run_went_on(init, next, j);
            assert(delivered_in_last_run(init, j));
        }
    }
}

/// The server that gave an answer, if one is named.
pub open spec fn answered_by(outcome: OutcomeView) -> Option<Seq<char>> {
    match outcome {
        OutcomeView::Present => None,
        OutcomeView::Refused { server } => Some(server),
        OutcomeView::Transport { server } => Some(server),
    }
}

/// Whether an attempt is the last answer of a server, and of the last run.
pub open spec fn is_last_answer(history: Seq<Attempt>, server: Seq<char>, j: int) -> bool {
    &&& in_last_run(history, j)
    &&& answered_by(history[j].outcome) == Some(server)
    &&& forall|i: int|
        j < i < history.len() ==> answered_by((#[trigger] history[i]).outcome) != Some(server)
}

/// Whether evidence is the last answer of its server.
pub open spec fn is_last_said(history: Seq<Attempt>, entry: EvidenceView) -> bool {
    exists|j: int| #[trigger]
        is_last_answer(history, entry.server, j) && heard_in_last_run(history, entry, j)
}

/// Whether evidence holds the last answer of every server that answered in the
/// last run, and nothing else.
pub open spec fn is_what_servers_last_said(
    evidence: Seq<EvidenceView>,
    history: Seq<Attempt>,
) -> bool {
    &&& forall|e: int| 0 <= e < evidence.len() ==> is_last_said(history, #[trigger] evidence[e])
    &&& forall|j: int, server: Seq<char>| #[trigger]
        is_last_answer(history, server, j) ==> mentions(evidence, server)
}

/// Over any history, the evidence is what each server last said since the set
/// of servers last changed: one entry for each server that answered, with the
/// kind and the time of its last answer.
pub proof fn evidence_is_what_each_server_last_said(
    key: KeyView,
    message_id: Seq<char>,
    history: Seq<Attempt>,
)
    ensures
        ({
            let rec = replay(RecordView::fresh(key, message_id), history);
            &&& is_what_servers_last_said(rec.evidence, history)
            &&& forall|i: int, j: int|
                0 <= i < j < rec.evidence.len() ==> #[trigger] rec.evidence[i].server
                    != #[trigger] rec.evidence[j].server
        }),
    decreases history.len(),
{
    every_history_is_consistent(key, message_id, history);
    if history.len() > 0 {
        let init = history.drop_last();
        let next = history.last();
        let end = history.len() - 1;
        let rec = replay(RecordView::fresh(key, message_id), init);
        let start = rec.keyed_to(next.servers);
        let after = rec.after(next.outcome, next.now, next.servers);
        evidence_is_what_each_server_last_said(key, message_id, init);
        lemma_explained(key, message_id, init);
        assert(init.push(next) =~= history);
        assert(in_last_run(history, end));
        // What other servers said is still the last that they said.
        assert forall|e: int|
            0 <= e < start.evidence.len() && answered_by(next.outcome) != Some(
                (#[trigger] start.evidence[e]).server,
            ) implies is_last_said(history, start.evidence[e]) by {
            let entry = start.evidence[e];
            assert(is_last_said(init, rec.evidence[e]));
            let j = choose|j: int| #[trigger]
                is_last_answer(init, entry.server, j) && heard_in_last_run(init, entry, j);
            lemma_run_goes_on(init, next, j);
            assert forall|i: int| j < i < history.len() implies answered_by(
                (#[trigger] history[i]).outcome,
            ) != Some(entry.server) by {
                if i < end {
                    assert(history[i] == init[i]);
                }
            }
            assert(is_last_answer(history, entry.server, j));
        }
        // Whoever answered before is still mentioned.
        assert forall|j: int, server: Seq<char>|
            #[trigger] is_last_answer(history, server, j) && j < end implies mentions(
            start.evidence,
            server,
        ) by {
            lemma_run_went_on(init, next, j);
            assert forall|i: int| j < i < init.len() implies answered_by(
                (#[trigger] init[i]).outcome,
            ) != Some(server) by {
                assert(history[i] == init[i]);
            }
            assert(is_last_answer(init, server, j));
        }
        match answered_by(next.outcome) {
            None => {
                assert(is_what_servers_last_said(after.evidence, history));
            },
            Some(server) => {
                let kind = if next.outcome is Refused {
                    EvidenceKind::Refused
                } else {
                    EvidenceKind::Transport
                };
                let at = lemma_noted_shape(start.evidence, server, kind, next.now);
                assert(after.evidence == noted(start.evidence, server, kind, next.now));
                assert forall|e: int| 0 <= e < after.evidence.len() implies is_last_said(
                    history,
                    #[trigger] after.evidence[e],
                ) by {
                    if e == at {
                        assert(is_last_answer(history, server, end));
                        assert(heard_in_last_run(history, after.evidence[e], end));
                    } else {
                        assert(after.evidence[e] == start.evidence[e]);
                        assert(after.evidence[e].server != after.evidence[at].server);
                    }
                }
                assert forall|j: int, name: Seq<char>| #[trigger]
                    is_last_answer(history, name, j) implies mentions(after.evidence, name) by {
                    if name == server {
                        assert(after.evidence[at].server == name);
                    } else {
                        assert(j != end);
                        let e = choose|e: int|
                            0 <= e < start.evidence.len() && #[trigger] start.evidence[e].server
                                == name;
                        assert(after.evidence[e].server == name);
                    }
                }
            },
        }
    }
}

} // verus!
