use nzb_core::damage_ledger::{
    apply_outcome, confirms_hole, consult, held_provisionally, EvidenceKind, ServerEvidence,
    HOLE_CONFIRM_DELAY_SECS, HOLE_TTL_SECS,
};
use nzb_core::timestamp::{MAX_SECS, MIN_SECS};
use nzb_core::{ArticleKey, ConfirmNeeded, Consult, LedgerRecord, LedgerState, Outcome, Timestamp};

const FETCH: Consult = Consult { skip: false, reprobe: false };
const SKIP: Consult = Consult { skip: true, reprobe: false };
const REPROBE: Consult = Consult { skip: false, reprobe: true };

fn at(secs: i64, nanos: u32) -> Timestamp {
    Timestamp::new(secs, nanos).unwrap()
}

fn servers(names: &[&str]) -> Vec<String> {
    names.iter().map(|s| s.to_string()).collect()
}

fn refused(server: &str) -> Outcome {
    Outcome::Refused { server: server.to_string() }
}

fn transport(server: &str) -> Outcome {
    Outcome::Transport { server: server.to_string() }
}

fn fresh() -> LedgerRecord {
    LedgerRecord::new(ArticleKey::new("job", 1, 2), "<m>".to_string())
}

/// A hole of {a, b}, confirmed at second 5.
fn hole() -> LedgerRecord {
    let mut rec = fresh();
    let srv = servers(&["a", "b"]);
    apply_outcome(&mut rec, &refused("a"), at(3, 0), &srv);
    apply_outcome(&mut rec, &refused("b"), at(5, 0), &srv);
    assert_eq!(rec.state, LedgerState::ConfirmedMissing);
    rec
}

#[test]
fn constants_are_a_day_and_a_second() {
    assert_eq!(HOLE_TTL_SECS, 86_400);
    assert_eq!(HOLE_CONFIRM_DELAY_SECS, 1);
}

#[test]
fn fresh_records_know_nothing() {
    let rec = fresh();
    assert_eq!(rec.key, ArticleKey::new("job".to_string(), 1, 2));
    assert_eq!(rec.message_id, "<m>");
    assert_eq!(rec.state, LedgerState::Unknown);
    assert!(rec.evidence.is_empty());
    assert_eq!(rec.first_refused_at, None);
    assert_eq!(rec.server_fingerprint, "");
    assert_eq!(consult(Some(&rec), at(0, 0)), FETCH);
    assert_eq!(consult(None, at(0, 0)), FETCH);
    assert!(!held_provisionally(Some(&rec)));
    assert!(!held_provisionally(None));
}

#[test]
fn delay_is_exact() {
    let srv = servers(&["a"]);
    let mut rec = fresh();
    assert_eq!(apply_outcome(&mut rec, &refused("a"), at(10, 500), &srv), ConfirmNeeded(true));
    assert!(held_provisionally(Some(&rec)));
    // One nanosecond short of the delay.
    assert!(!confirms_hole(&rec, &refused("a"), at(11, 499), &srv));
    assert_eq!(apply_outcome(&mut rec, &refused("a"), at(11, 499), &srv), ConfirmNeeded(true));
    assert_eq!(rec.first_refused_at, Some(at(10, 500)));
    assert!(confirms_hole(&rec, &refused("a"), at(11, 500), &srv));
    assert_eq!(apply_outcome(&mut rec, &refused("a"), at(11, 500), &srv), ConfirmNeeded(false));
    assert_eq!(rec.confirmed_at, Some(at(11, 500)));
    assert_eq!(rec.expires_at, Some(at(11 + HOLE_TTL_SECS, 500)));
}

#[test]
fn clock_going_backwards_never_confirms() {
    let srv = servers(&["a"]);
    let mut rec = fresh();
    apply_outcome(&mut rec, &refused("a"), at(100, 0), &srv);
    assert_eq!(apply_outcome(&mut rec, &refused("a"), at(50, 0), &srv), ConfirmNeeded(true));
    assert_eq!(rec.state, LedgerState::ProvisionalMissing);
}

#[test]
fn leap_seconds_count() {
    let srv = servers(&["a"]);
    // From within a leap second at the end of a minute to the next second.
    let mut rec = fresh();
    apply_outcome(&mut rec, &refused("a"), at(59, 1_000_000_000), &srv);
    assert_eq!(apply_outcome(&mut rec, &refused("a"), at(60, 0), &srv), ConfirmNeeded(false));
    assert_eq!(rec.expires_at, Some(at(60 + HOLE_TTL_SECS, 0)));
    // Confirmed within a leap second: the lifetime ends in an ordinary one.
    let mut rec = fresh();
    apply_outcome(&mut rec, &refused("a"), at(59, 0), &srv);
    assert_eq!(
        apply_outcome(&mut rec, &refused("a"), at(59, 1_000_000_007), &srv),
        ConfirmNeeded(false)
    );
    assert_eq!(rec.expires_at, Some(at(59 + HOLE_TTL_SECS, 7)));
}

#[test]
fn leap_second_at_midnight_is_not_counted_against_the_next_day() {
    let srv = servers(&["a"]);
    let mut rec = fresh();
    apply_outcome(&mut rec, &refused("a"), at(86_399, 1_000_000_000), &srv);
    assert_eq!(apply_outcome(&mut rec, &refused("a"), at(86_400, 0), &srv), ConfirmNeeded(true));
    assert_eq!(apply_outcome(&mut rec, &refused("a"), at(86_401, 0), &srv), ConfirmNeeded(false));
}

#[test]
fn transport_failure_never_records_missing() {
    let srv = servers(&["a", "b"]);
    let mut rec = fresh();
    assert_eq!(apply_outcome(&mut rec, &transport("a"), at(1, 0), &srv), ConfirmNeeded(false));
    assert_eq!(rec.state, LedgerState::Unknown);
    assert_eq!(
        rec.evidence,
        vec![ServerEvidence {
            server: "a".to_string(),
            kind: EvidenceKind::Transport,
            at: at(1, 0)
        }]
    );
    let mut rec = hole();
    apply_outcome(&mut rec, &transport("b"), at(50, 0), &srv);
    assert_eq!(rec.state, LedgerState::ConfirmedMissing);
    assert_eq!(rec.expires_at, Some(at(5 + HOLE_TTL_SECS, 0)));
}

#[test]
fn later_answer_replaces_what_a_server_said() {
    let srv = servers(&["a", "b"]);
    let mut rec = fresh();
    apply_outcome(&mut rec, &refused("b"), at(1, 0), &srv);
    apply_outcome(&mut rec, &refused("a"), at(2, 0), &srv);
    assert_eq!(rec.refused_servers(), vec!["a", "b"]);
    apply_outcome(&mut rec, &transport("b"), at(3, 0), &srv);
    assert_eq!(rec.evidence.len(), 2);
    assert_eq!(rec.evidence[0].server, "b");
    assert_eq!(rec.evidence[0].kind, EvidenceKind::Transport);
    assert_eq!(rec.evidence[0].at, at(3, 0));
    assert_eq!(rec.refused_servers(), vec!["a"]);
}

#[test]
fn only_the_last_answer_of_a_server_counts() {
    let srv = servers(&["a", "b"]);
    let answers = [(refused("a"), 4), (transport("a"), 9), (transport("a"), 2), (refused("a"), 1)];
    for first in &answers {
        for last in &answers {
            let mut once = fresh();
            let mut twice = fresh();
            for rec in [&mut once, &mut twice] {
                apply_outcome(rec, &refused("b"), at(0, 0), &srv);
            }
            apply_outcome(&mut twice, &first.0, at(first.1, 0), &srv);
            twice.state = LedgerState::Present;
            once.state = LedgerState::Present;
            for rec in [&mut once, &mut twice] {
                apply_outcome(rec, &last.0, at(last.1, 0), &srv);
            }
            assert_eq!(once.evidence, twice.evidence);
            assert_eq!(once.evidence[1].at, at(last.1, 0));
        }
    }
}

#[test]
fn transport_failure_is_forgotten_with_the_next_answer() {
    let srv = servers(&["a", "b"]);
    for outcome in [refused("a"), transport("a")] {
        let mut once = fresh();
        let mut twice = fresh();
        apply_outcome(&mut once, &refused("b"), at(0, 0), &srv);
        apply_outcome(&mut twice, &refused("b"), at(0, 0), &srv);
        apply_outcome(&mut twice, &transport("a"), at(3, 0), &srv);
        apply_outcome(&mut once, &outcome, at(2, 0), &srv);
        apply_outcome(&mut twice, &outcome, at(2, 0), &srv);
        assert_eq!(once.evidence, twice.evidence);
        assert_eq!(once.state, twice.state);
        assert_eq!(once.expires_at, twice.expires_at);
    }
}

#[test]
fn server_order_and_repetition_do_not_matter() {
    let lists = [servers(&["a", "b"]), servers(&["b", "a"]), servers(&["b", "b", "a", "b"])];
    for outcome in [refused("a"), transport("a"), Outcome::Present] {
        for list in &lists {
            let mut rec = fresh();
            apply_outcome(&mut rec, &refused("b"), at(0, 0), &lists[0]);
            let confirms = confirms_hole(&rec, &outcome, at(7, 0), list);
            assert_eq!(confirms, matches!(outcome, Outcome::Refused { .. }));
            apply_outcome(&mut rec, &outcome, at(7, 0), list);
            let mut same = fresh();
            apply_outcome(&mut same, &refused("b"), at(0, 0), &lists[0]);
            apply_outcome(&mut same, &outcome, at(7, 0), &lists[0]);
            assert_eq!(rec.state, same.state);
            assert_eq!(rec.evidence, same.evidence);
            assert_eq!(rec.expires_at, same.expires_at);
            assert_eq!(rec.server_fingerprint, same.server_fingerprint);
        }
    }
}

#[test]
fn server_named_like_a_list_was_not_asked() {
    let mut rec = hole();
    let srv = servers(&["a,b"]);
    assert_eq!(apply_outcome(&mut rec, &transport("a,b"), at(6, 0), &srv), ConfirmNeeded(false));
    assert_eq!(rec.state, LedgerState::Unknown);
    assert_eq!(consult(Some(&rec), at(6, 0)), FETCH);
}

#[test]
fn refusal_of_an_unlisted_server_confirms_nothing() {
    let mut rec = fresh();
    let none: Vec<String> = Vec::new();
    apply_outcome(&mut rec, &refused("x"), at(0, 0), &none);
    assert_eq!(apply_outcome(&mut rec, &refused("x"), at(9, 0), &none), ConfirmNeeded(true));
    assert_eq!(rec.state, LedgerState::ProvisionalMissing);
    let mut rec = fresh();
    let srv = servers(&["a"]);
    apply_outcome(&mut rec, &refused("x"), at(0, 0), &srv);
    assert_eq!(apply_outcome(&mut rec, &refused("x"), at(9, 0), &srv), ConfirmNeeded(true));
}

#[test]
fn hole_is_believed_for_its_lifetime() {
    let rec = hole();
    let end = 5 + HOLE_TTL_SECS;
    assert_eq!(consult(Some(&rec), at(5, 0)), SKIP);
    assert_eq!(consult(Some(&rec), at(end - 1, 999_999_999)), SKIP);
    assert_eq!(consult(Some(&rec), at(end, 0)), REPROBE);
    assert_eq!(consult(Some(&rec), at(end + 1, 0)), REPROBE);
}

#[test]
fn hole_is_not_refreshed_by_further_refusals() {
    let mut rec = hole();
    let srv = servers(&["b", "a"]);
    let end = 5 + HOLE_TTL_SECS;
    assert_eq!(apply_outcome(&mut rec, &refused("a"), at(end + 9, 0), &srv), ConfirmNeeded(false));
    assert_eq!(rec.expires_at, Some(at(end, 0)));
    assert_eq!(consult(Some(&rec), at(end + 9, 0)), REPROBE);
}

#[test]
fn present_clears_the_hole_and_is_sticky() {
    let mut rec = hole();
    let srv = servers(&["a", "b"]);
    assert_eq!(apply_outcome(&mut rec, &Outcome::Present, at(8, 0), &srv), ConfirmNeeded(false));
    assert_eq!(rec.first_refused_at, None);
    assert_eq!(rec.confirmed_at, None);
    assert_eq!(rec.expires_at, None);
    assert_eq!(apply_outcome(&mut rec, &refused("a"), at(9, 0), &srv), ConfirmNeeded(false));
    assert_eq!(apply_outcome(&mut rec, &refused("b"), at(19, 0), &srv), ConfirmNeeded(false));
    assert_eq!(rec.state, LedgerState::Present);
    assert_eq!((rec.first_refused_at, rec.confirmed_at, rec.expires_at), (None, None, None));
    assert_eq!(consult(Some(&rec), at(20, 0)), FETCH);
}

#[test]
fn server_change_starts_the_record_over() {
    for outcome in [refused("a"), transport("a"), Outcome::Present] {
        let mut rec = hole();
        let mut new = fresh();
        let srv = servers(&["a"]);
        let confirm = apply_outcome(&mut rec, &outcome, at(100, 0), &srv);
        assert_eq!(confirm, apply_outcome(&mut new, &outcome, at(100, 0), &srv));
        assert_eq!(rec.state, new.state);
        assert_eq!(rec.evidence, new.evidence);
        assert_eq!(rec.first_refused_at, new.first_refused_at);
        assert_eq!(rec.expires_at, None);
        assert_eq!(rec.server_fingerprint, "a");
        assert_eq!(rec.message_id, "<m>");
    }
}

#[test]
fn unservable_file_is_skipped_until_it_expires() {
    let mut rec = fresh();
    rec.state = LedgerState::UnservableFile;
    assert_eq!(consult(Some(&rec), at(0, 0)), SKIP);
    rec.expires_at = Some(at(10, 0));
    assert_eq!(consult(Some(&rec), at(9, 0)), SKIP);
    assert_eq!(consult(Some(&rec), at(10, 0)), REPROBE);
}

#[test]
fn calendar_has_ends() {
    assert!(Timestamp::new(MIN_SECS, 0).is_some());
    assert!(Timestamp::new(MIN_SECS - 1, 0).is_none());
    assert!(Timestamp::new(MAX_SECS, 1_999_999_999).is_some());
    assert!(Timestamp::new(MAX_SECS + 1, 0).is_none());
    assert!(Timestamp::new(0, 2_000_000_000).is_none());
    assert_eq!(at(7, 8).timestamp(), 7);
    assert_eq!(at(7, 8).timestamp_subsec_nanos(), 8);
    // The ends are those of chrono.
    assert_eq!(chrono::DateTime::<chrono::Utc>::MIN_UTC.timestamp(), MIN_SECS);
    assert_eq!(chrono::DateTime::<chrono::Utc>::MAX_UTC.timestamp(), MAX_SECS);
}

#[test]
fn hole_can_be_confirmed_up_to_the_last_day() {
    let srv = servers(&["a"]);
    let mut rec = fresh();
    let last = MAX_SECS - HOLE_TTL_SECS;
    apply_outcome(&mut rec, &refused("a"), at(MIN_SECS, 1), &srv);
    let confirm = apply_outcome(&mut rec, &refused("a"), at(last, 1_999_999_999), &srv);
    assert_eq!(confirm, ConfirmNeeded(false));
    assert_eq!(rec.expires_at, Some(at(MAX_SECS, 999_999_999)));
}

#[test]
fn elapsed_time_matches_chrono() {
    let times = [
        (0, 0), (59, 1_500_000_000), (60, 0), (30, 1_999_999_999), (31, 0), (86_399, 1_000_000_000),
        (86_400, 0), (86_401, 999_999_999), (-1, 1_000_000_000), (-86_401, 5), (1, 1_000_000_001),
    ];
    let srv = servers(&["a"]);
    for first in times {
        for now in times {
            let mut rec = fresh();
            apply_outcome(&mut rec, &refused("a"), at(first.0, first.1), &srv);
            let confirmed = confirms_hole(&rec, &refused("a"), at(now.0, now.1), &srv);
            apply_outcome(&mut rec, &refused("a"), at(now.0, now.1), &srv);
            let (f, n) = (utc(first), utc(now));
            assert_eq!(confirmed, n - f >= chrono::Duration::seconds(1), "{first:?} {now:?}");
            assert_eq!(confirmed, rec.state == LedgerState::ConfirmedMissing);
            if confirmed {
                let end = n + chrono::Duration::seconds(HOLE_TTL_SECS);
                assert_eq!(rec.expires_at, Some(at(end.timestamp(), end.timestamp_subsec_nanos())));
            }
            assert_eq!(consult(Some(&expiring(first)), at(now.0, now.1)).reprobe, n >= f);
        }
    }
}

fn utc(time: (i64, u32)) -> chrono::DateTime<chrono::Utc> {
    let second = chrono::DateTime::from_timestamp(time.0, 0).unwrap().naive_utc();
    chrono::Timelike::with_nanosecond(&second, time.1).unwrap().and_utc()
}

fn expiring(time: (i64, u32)) -> LedgerRecord {
    let mut rec = fresh();
    rec.state = LedgerState::ConfirmedMissing;
    rec.expires_at = Some(at(time.0, time.1));
    rec
}

/// A record is as the ledger leaves it: one entry per server, and the times
/// that its verdict calls for.
fn assert_consistent(rec: &LedgerRecord) {
    let mut names: Vec<&str> = rec.evidence.iter().map(|e| e.server.as_str()).collect();
    names.sort_unstable();
    names.dedup();
    assert_eq!(names.len(), rec.evidence.len());
    let times = (rec.first_refused_at, rec.confirmed_at, rec.expires_at);
    match rec.state {
        LedgerState::Unknown | LedgerState::Present => assert_eq!(times, (None, None, None)),
        LedgerState::ProvisionalMissing => {
            assert!(times.0.is_some());
            assert_eq!((times.1, times.2), (None, None));
        }
        LedgerState::ConfirmedMissing => {
            let (first, confirmed, end) = (times.0.unwrap(), times.1.unwrap(), times.2.unwrap());
            assert!(confirmed.timestamp() - first.timestamp() >= HOLE_CONFIRM_DELAY_SECS);
            assert_eq!(end.timestamp(), confirmed.timestamp() + HOLE_TTL_SECS);
        }
        LedgerState::UnservableFile => panic!("nothing marks a file unservable"),
    }
}

#[test]
fn every_short_history_keeps_the_promises() {
    let outcomes =
        [Outcome::Present, refused("a"), refused("b"), transport("a"), transport("b")];
    let sets = [servers(&["a", "b"]), servers(&["a"])];
    let choices = outcomes.len() * sets.len();
    for history in 0..choices.pow(4) {
        let mut rec = fresh();
        // Who refused since the servers changed, and whether the article came.
        let mut asked: Option<&Vec<String>> = None;
        let mut refusals: Vec<(&str, i64)> = Vec::new();
        let mut delivered = false;
        let mut rest = history;
        for step in 0..4i64 {
            let outcome = &outcomes[rest % outcomes.len()];
            let set = &sets[(rest / outcomes.len()) % sets.len()];
            rest /= choices;
            if asked != Some(set) {
                asked = Some(set);
                refusals.clear();
                delivered = false;
            }
            match outcome {
                Outcome::Present => delivered = true,
                Outcome::Refused { server } => refusals.push((server, step)),
                Outcome::Transport { .. } => {}
            }
            let before = rec.clone();
            let confirm = apply_outcome(&mut rec, outcome, at(step, 0), set);
            assert_consistent(&rec);
            let refusal = matches!(outcome, Outcome::Refused { .. });
            assert_eq!(confirm.0, refusal && held_provisionally(Some(&rec)));
            if rec.state == LedgerState::ConfirmedMissing {
                assert!(!delivered);
                assert!(set.iter().all(|s| refusals.iter().any(|r| r.0 == s)));
                assert!(refusals.last().unwrap().1 - refusals[0].1 >= 1);
            }
            if delivered {
                assert_eq!(rec.state, LedgerState::Present);
            }
            if matches!(outcome, Outcome::Transport { .. })
                && before.server_fingerprint == rec.server_fingerprint
            {
                assert_eq!(before.state, rec.state);
                assert_eq!(before.expires_at, rec.expires_at);
            }
            if refusals.is_empty() {
                assert_eq!(consult(Some(&rec), at(step, 0)), FETCH);
            }
        }
    }
}
