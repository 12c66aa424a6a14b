//! Per-article damage ledger.
//!
//! One durable record per article says whether it is `present`, missing, or
//! not yet established, together with the per-server evidence behind that
//! verdict. Both the download engine and the streaming provider consult and
//! update this ledger, so a hole learned once is never rediscovered.
//!
//! The rules that decide a verdict live in exactly one function,
//! [`apply_outcome`]:
//!
//! - A transport failure (timeout, auth error, pool exhaustion, decode error)
//!   NEVER creates or refreshes a missing record. Only a `430` does.
//! - A single `430` is provisional. It confirms only once every enabled server
//!   has refused the article and at least [`HOLE_CONFIRM_DELAY_SECS`] seconds
//!   have passed since the first refusal: a provider is known to answer `430`
//!   for an article it holds while busy.
//! - A confirmed hole is believed for [`HOLE_TTL_SECS`]; after that a caller
//!   re-probes.
//! - The record is keyed to the set of servers that were asked
//!   ([`server_fingerprint`]); adding or removing a provider invalidates it.
//!
//! This crate does not depend on the dispatcher, so callers translate their
//! own failure taxonomy into an [`Outcome`]: a `2xx` body is
//! [`Outcome::Present`], a `430` is [`Outcome::Refused`], and every other
//! failure is [`Outcome::Transport`].

use vstd::prelude::*;

pub use crate::server_set::server_fingerprint;
use crate::server_set::{ascending, fingerprint, holds_name, insert_name, names, texts};
use crate::text::same_text;
use crate::timestamp::{moment, plus_seconds, Moment, Timestamp, MAX_SECS, NANOS_PER_SEC};

verus! {

/// How long a confirmed hole is believed before a re-probe.
pub const HOLE_TTL_SECS: i64 = 24 * 60 * 60;

/// Minimum gap between the first `430` and the confirming `430`.
pub const HOLE_CONFIRM_DELAY_SECS: i64 = 1;

/// The verdict recorded for one article.
#[derive(Debug, Clone, Copy, PartialEq, Eq, Structural)]
pub enum LedgerState {
    /// Never asked, or only inconclusive (transport) answers so far.
    Unknown,
    /// One or more `430`s, but not yet confirmed missing everywhere.
    ProvisionalMissing,
    /// Every enabled server refused it and the busy-provider guard elapsed.
    ConfirmedMissing,
    /// A definite `2xx` body was seen; the article is present.
    Present,
    /// The file this article belongs to is past the unservable threshold.
    UnservableFile,
}

impl LedgerState {
    /// The name under which a verdict is stored.
    pub open spec fn name(self) -> Seq<char> {
        match self {
            LedgerState::Unknown => "unknown"@,
            LedgerState::ProvisionalMissing => "provisional_missing"@,
            LedgerState::ConfirmedMissing => "confirmed_missing"@,
            LedgerState::Present => "present"@,
            LedgerState::UnservableFile => "unservable_file"@,
        }
    }

    /// The verdict stored under a name; any other text stands for `Unknown`.
    pub open spec fn named(text: Seq<char>) -> LedgerState {
        if text == LedgerState::ProvisionalMissing.name() {
            LedgerState::ProvisionalMissing
        } else if text == LedgerState::ConfirmedMissing.name() {
            LedgerState::ConfirmedMissing
        } else if text == LedgerState::Present.name() {
            LedgerState::Present
        } else if text == LedgerState::UnservableFile.name() {
            LedgerState::UnservableFile
        } else {
            LedgerState::Unknown
        }
    }

    /// Whether the verdict says that the article is gone for good.
    pub open spec fn gone(self) -> bool {
        self is ConfirmedMissing || self is UnservableFile
    }

    /// The name under which the verdict is stored.
    pub fn as_str(self) -> (text: &'static str)
        ensures
            text@ == self.name(),
    {
        match self {
            Self::Unknown => "unknown",
            Self::ProvisionalMissing => "provisional_missing",
            Self::ConfirmedMissing => "confirmed_missing",
            Self::Present => "present",
            Self::UnservableFile => "unservable_file",
        }
    }

    /// The verdict stored under a name.
    pub fn from_str(s: &str) -> (state: Self)
        ensures
            state == LedgerState::named(s@),
    {
        if same_text(s, "provisional_missing") {
            Self::ProvisionalMissing
        } else if same_text(s, "confirmed_missing") {
            Self::ConfirmedMissing
        } else if same_text(s, "present") {
            Self::Present
        } else if same_text(s, "unservable_file") {
            Self::UnservableFile
        } else {
            Self::Unknown
        }
    }
}

/// Identity of one article within a job or streamed item.
#[derive(Debug, Clone, PartialEq, Eq)]
pub struct ArticleKey {
    pub scope_id: String,
    pub file_index: u32,
    pub segment_number: u32,
}

/// What an article key stands for.
pub struct KeyView {
    pub scope_id: Seq<char>,
    pub file_index: u32,
    pub segment_number: u32,
}

impl View for ArticleKey {
    type V = KeyView;

    open spec fn view(&self) -> KeyView {
        KeyView {
            scope_id: self.scope_id@,
            file_index: self.file_index,
            segment_number: self.segment_number,
        }
    }
}

/// `String::from(&str)` copies the text.
pub assume_specification<'a>[ <String as From<&'a str>>::from ](s: &str) -> (owned: String)
    ensures
        owned@ == s@,
;

/// The conversion of a type into itself hands the value back unchanged.
pub assume_specification<T>[ <T as From<T>>::from ](t: T) -> (same: T)
    ensures
        same == t,
;

impl ArticleKey {
    /// The key of one article. The scope is whatever the argument converts to.
    pub fn new<S: Into<String>>(scope_id: S, file_index: u32, segment_number: u32) -> (key: Self)
        ensures
            call_ensures(S::into, (scope_id,), key.scope_id),
            key.file_index == file_index,
            key.segment_number == segment_number,
    {
        Self { scope_id: scope_id.into(), file_index, segment_number }
    }
}

/// The result of a single fetch attempt, in the ledger's own vocabulary.
/// Callers map their transport/decode/auth errors onto [`Outcome::Transport`]
/// and only a real `430` onto [`Outcome::Refused`].
#[derive(Debug, Clone)]
pub enum Outcome {
    Present,
    Refused { server: String },
    Transport { server: String },
}

/// What an outcome stands for.
pub enum OutcomeView {
    Present,
    Refused { server: Seq<char> },
    Transport { server: Seq<char> },
}

impl View for Outcome {
    type V = OutcomeView;

    open spec fn view(&self) -> OutcomeView {
        match *self {
            Outcome::Present => OutcomeView::Present,
            Outcome::Refused { server } => OutcomeView::Refused { server: server@ },
            Outcome::Transport { server } => OutcomeView::Transport { server: server@ },
        }
    }
}

/// What kind of answer a server gave.
#[derive(Debug, Clone, Copy, PartialEq, Eq, Structural)]
pub enum EvidenceKind {
    Refused,
    Transport,
}

/// What one server last said about this article.
#[derive(Debug, Clone, PartialEq, Eq)]
pub struct ServerEvidence {
    pub server: String,
    pub kind: EvidenceKind,
    pub at: Timestamp,
}

/// What a piece of evidence stands for.
pub struct EvidenceView {
    pub server: Seq<char>,
    pub kind: EvidenceKind,
    pub at: Moment,
}

impl View for ServerEvidence {
    type V = EvidenceView;

    open spec fn view(&self) -> EvidenceView {
        EvidenceView { server: self.server@, kind: self.kind, at: self.at@ }
    }
}

/// What a list of evidence stands for.
pub open spec fn evidence_view(evidence: Seq<ServerEvidence>) -> Seq<EvidenceView> {
    evidence.map_values(|e: ServerEvidence| e@)
}

/// Whether some evidence is on a server.
pub open spec fn mentions(evidence: Seq<EvidenceView>, server: Seq<char>) -> bool {
    exists|i: int| 0 <= i < evidence.len() && #[trigger] evidence[i].server == server
}

/// Whether a position holds the first evidence on a server.
pub open spec fn is_first_mention(evidence: Seq<EvidenceView>, server: Seq<char>, i: int) -> bool {
    &&& 0 <= i < evidence.len()
    &&& evidence[i].server == server
    &&& forall|j: int| 0 <= j < i ==> #[trigger] evidence[j].server != server
}

/// Evidence with a server's latest answer: it takes the place of what the
/// server said before, or joins at the end.
pub open spec fn noted(
    evidence: Seq<EvidenceView>,
    server: Seq<char>,
    kind: EvidenceKind,
    at: Moment,
) -> Seq<EvidenceView> {
    let entry = EvidenceView { server, kind, at };
    if mentions(evidence, server) {
        evidence.update(choose|i: int| is_first_mention(evidence, server, i), entry)
    } else {
        evidence.push(entry)
    }
}

/// Whether a refusal by a server is on record.
pub open spec fn refused_by(evidence: Seq<EvidenceView>, server: Seq<char>) -> bool {
    exists|i: int|
        0 <= i < evidence.len() && #[trigger] evidence[i].server == server
            && evidence[i].kind is Refused
}

/// Whether there are servers and each has a refusal on record.
pub open spec fn all_refused(evidence: Seq<EvidenceView>, servers: Seq<Seq<char>>) -> bool {
    servers.len() > 0 && forall|k: int|
        0 <= k < servers.len() ==> refused_by(evidence, #[trigger] servers[k])
}

/// What evidence says of one server does not change when another answers.
pub(crate) proof fn lemma_noted_other(
    evidence: Seq<EvidenceView>,
    server: Seq<char>,
    kind: EvidenceKind,
    at: Moment,
    other: Seq<char>,
)
    requires
        other != server,
    ensures
        refused_by(noted(evidence, server, kind, at), other) <==> refused_by(evidence, other),
{
    lemma_noted_shape(evidence, server, kind, at);
    let after = noted(evidence, server, kind, at);
    if refused_by(evidence, other) {
        let k = choose|k: int|
            0 <= k < evidence.len() && #[trigger] evidence[k].server == other
                && evidence[k].kind is Refused;
        assert(after[k].server == other);
    }
    if refused_by(after, other) {
        let k = choose|k: int|
            0 <= k < after.len() && #[trigger] after[k].server == other && after[k].kind is Refused;
        assert(evidence[k].server == other);
    }
}

/// Noting an answer changes the first entry of its server, or adds one.
pub(crate) proof fn lemma_noted_shape(
    evidence: Seq<EvidenceView>,
    server: Seq<char>,
    kind: EvidenceKind,
    at: Moment,
) -> (i: int)
    ensures
        0 <= i < noted(evidence, server, kind, at).len(),
        noted(evidence, server, kind, at)[i] == (EvidenceView { server, kind, at }),
        mentions(evidence, server) ==> is_first_mention(evidence, server, i) && noted(
            evidence,
            server,
            kind,
            at,
        ) == evidence.update(i, EvidenceView { server, kind, at }),
        !mentions(evidence, server) ==> i == evidence.len() && noted(evidence, server, kind, at)
            == evidence.push(EvidenceView { server, kind, at }),
{
    if mentions(evidence, server) {
        let k = choose|k: int| 0 <= k < evidence.len() && #[trigger] evidence[k].server == server;
        lemma_first_mention(evidence, server, k);
        choose|i: int| is_first_mention(evidence, server, i)
    } else {
        evidence.len() as int
    }
}

/// A server that is mentioned has a first mention.
proof fn lemma_first_mention(evidence: Seq<EvidenceView>, server: Seq<char>, k: int)
    requires
        0 <= k < evidence.len(),
        evidence[k].server == server,
    ensures
        exists|i: int| is_first_mention(evidence, server, i),
    decreases k,
{
    if forall|j: int| 0 <= j < k ==> #[trigger] evidence[j].server != server {
        assert(is_first_mention(evidence, server, k));
    } else {
        let j = choose|j: int| 0 <= j < k && #[trigger] evidence[j].server == server;
        lemma_first_mention(evidence, server, j);
    }
}

/// A persisted per-article damage record.
#[derive(Debug, Clone)]
pub struct LedgerRecord {
    pub key: ArticleKey,
    pub message_id: String,
    pub state: LedgerState,
    pub evidence: Vec<ServerEvidence>,
    pub first_refused_at: Option<Timestamp>,
    pub confirmed_at: Option<Timestamp>,
    pub expires_at: Option<Timestamp>,
    pub server_fingerprint: String,
}

/// What a record stands for.
#[verifier::ext_equal]
pub struct RecordView {
    pub key: KeyView,
    pub message_id: Seq<char>,
    pub state: LedgerState,
    pub evidence: Seq<EvidenceView>,
    pub first_refused_at: Option<Moment>,
    pub confirmed_at: Option<Moment>,
    pub expires_at: Option<Moment>,
    pub server_fingerprint: Seq<char>,
}

impl View for LedgerRecord {
    type V = RecordView;

    open spec fn view(&self) -> RecordView {
        RecordView {
            key: self.key@,
            message_id: self.message_id@,
            state: self.state,
            evidence: evidence_view(self.evidence@),
            first_refused_at: moment(self.first_refused_at),
            confirmed_at: moment(self.confirmed_at),
            expires_at: moment(self.expires_at),
            server_fingerprint: self.server_fingerprint@,
        }
    }
}

impl RecordView {
    /// The record of an article of which nothing is known.
    pub open spec fn fresh(key: KeyView, message_id: Seq<char>) -> RecordView {
        RecordView {
            key,
            message_id,
            state: LedgerState::Unknown,
            evidence: Seq::empty(),
            first_refused_at: None,
            confirmed_at: None,
            expires_at: None,
            server_fingerprint: Seq::empty(),
        }
    }

    /// The record as it counts for a set of servers: what was learned from
    /// another set is forgotten.
    pub open spec fn keyed_to(self, servers: Seq<Seq<char>>) -> RecordView {
        if self.server_fingerprint == fingerprint(servers) {
            self
        } else {
            RecordView {
                server_fingerprint: fingerprint(servers),
                ..RecordView::fresh(self.key, self.message_id)
            }
        }
    }

    /// The record with a server's latest answer among its evidence.
    pub open spec fn noting(self, server: Seq<char>, kind: EvidenceKind, at: Moment) -> RecordView {
        RecordView { evidence: noted(self.evidence, server, kind, at), ..self }
    }

    /// When the article was first refused, if it is refused now.
    pub open spec fn first_refusal(self, now: Moment) -> Moment {
        match self.first_refused_at {
            Some(first) => first,
            None => now,
        }
    }

    /// Whether a verdict stands against refusals.
    pub open spec fn settled(self) -> bool {
        self.state is Present || self.state is ConfirmedMissing
    }

    /// Whether an outcome, noted at a given time, confirms a hole.
    pub open spec fn confirms(
        self,
        outcome: OutcomeView,
        now: Moment,
        servers: Seq<Seq<char>>,
    ) -> bool {
        let rec = self.keyed_to(servers);
        match outcome {
            OutcomeView::Refused { server } => {
                &&& !rec.settled()
                &&& all_refused(noted(rec.evidence, server, EvidenceKind::Refused, now), servers)
                &&& now.nanos_since(rec.first_refusal(now)) >= HOLE_CONFIRM_DELAY_SECS
                    * NANOS_PER_SEC
            },
            _ => false,
        }
    }

    /// The record after an outcome, noted at a given time for a set of servers.
    pub open spec fn after(
        self,
        outcome: OutcomeView,
        now: Moment,
        servers: Seq<Seq<char>>,
    ) -> RecordView {
        let rec = self.keyed_to(servers);
        match outcome {
            OutcomeView::Present => RecordView {
                state: LedgerState::Present,
                first_refused_at: None,
                confirmed_at: None,
                expires_at: None,
                ..rec
            },
            OutcomeView::Transport { server } => rec.noting(server, EvidenceKind::Transport, now),
            OutcomeView::Refused { server } => {
                let heard = rec.noting(server, EvidenceKind::Refused, now);
                if rec.settled() {
                    heard
                } else if self.confirms(outcome, now, servers) {
                    RecordView {
                        state: LedgerState::ConfirmedMissing,
                        first_refused_at: Some(rec.first_refusal(now)),
                        confirmed_at: Some(now),
                        expires_at: Some(now.after_secs(HOLE_TTL_SECS as int)),
                        ..heard
                    }
                } else {
                    RecordView {
                        state: LedgerState::ProvisionalMissing,
                        first_refused_at: Some(rec.first_refusal(now)),
                        ..heard
                    }
                }
            },
        }
    }
}

/// What an optional record stands for.
pub open spec fn record_view(rec: Option<&LedgerRecord>) -> Option<RecordView> {
    match rec {
        Some(rec) => Some(rec@),
        None => None,
    }
}

impl LedgerRecord {
    /// The record of an article of which nothing is known.
    pub fn new(key: ArticleKey, message_id: String) -> (rec: Self)
        ensures
            rec@ == RecordView::fresh(key@, message_id@),
    {
        let rec = Self {
            key,
            message_id,
            state: LedgerState::Unknown,
            evidence: Vec::new(),
            first_refused_at: None,
            confirmed_at: None,
            expires_at: None,
            server_fingerprint: String::new(),
        };
        assert(rec@.evidence =~= Seq::empty());
        rec
    }

    /// The servers with a refusal on record, each once, in ascending order.
    pub fn refused_servers(&self) -> (servers: Vec<&str>)
        ensures
            ascending(texts(servers@)),
            forall|server: Seq<char>| #[trigger]
                texts(servers@).contains(server) <==> refused_by(self@.evidence, server),
    {
        let mut servers: Vec<&str> = Vec::new();
        let mut i: usize = 0;
        assert(self@.evidence.take(0) =~= Seq::empty());
        while i < self.evidence.len()
            invariant
                i <= self.evidence.len(),
                ascending(texts(servers@)),
                forall|server: Seq<char>| #[trigger]
                    texts(servers@).contains(server) <==> refused_by(
                        self@.evidence.take(i as int),
                        server,
                    ),
            decreases self.evidence.len() - i,
        {
            let ghost seen = self@.evidence.take(i as int);
            let ghost next = self@.evidence.take(i + 1);
            let ghost held = texts(servers@);
            let entry = &self.evidence[i];
            assert(next =~= seen.push(entry@));
            if entry.kind == EvidenceKind::Refused {
                insert_name(&mut servers, entry.server.as_str());
            }
            assert forall|server: Seq<char>| #[trigger]
                texts(servers@).contains(server) <==> refused_by(next, server) by {
                assert(held.contains(server) <==> refused_by(seen, server));
                if refused_by(seen, server) {
                    let k = choose|k: int|
                        0 <= k < seen.len() && #[trigger] seen[k].server == server
                            && seen[k].kind is Refused;
                    assert(next[k].server == server);
                }
                if refused_by(next, server) {
                    let k = choose|k: int|
                        0 <= k < next.len() && #[trigger] next[k].server == server
                            && next[k].kind is Refused;
                    if k < i {
                        assert(seen[k].server == server);
                    }
                }
                assert(next[i as int].server == entry.server@);
            }
            i += 1;
        }
        assert(self@.evidence.take(self.evidence.len() as int) =~= self@.evidence);
        servers
    }
}

/// Whether the caller should schedule a confirming re-ask before trusting a
/// provisional refusal.
#[derive(Debug, Clone, Copy, PartialEq, Eq, Structural)]
pub struct ConfirmNeeded(pub bool);

/// Guidance before fetching an article.
#[derive(Debug, Clone, Copy, PartialEq, Eq, Structural)]
pub struct Consult {
    /// The article is a confirmed hole within its TTL: do not fetch it.
    pub skip: bool,
    /// The confirmed hole's TTL has expired: one caller should re-probe.
    pub reprobe: bool,
}

/// Guidance that a record gives at a given time: a hole is skipped until its
/// expiry and re-probed from then on; anything else is fetched.
pub open spec fn guidance(rec: Option<RecordView>, now: Moment) -> Consult {
    match rec {
        Some(rec) if rec.state.gone() => {
            let expired = rec.expires_at matches Some(end) && now.not_before(end);
            Consult { skip: !expired, reprobe: expired }
        },
        _ => Consult { skip: false, reprobe: false },
    }
}

/// Records a server's latest answer among the evidence.
fn record_evidence(rec: &mut LedgerRecord, server: &str, kind: EvidenceKind, now: Timestamp)
    ensures
        final(rec)@ == old(rec)@.noting(server@, kind, now@),
{
    let ghost evidence = rec@.evidence;
    let mut i: usize = 0;
    while i < rec.evidence.len()
        invariant
            *rec == *old(rec),
            i <= rec.evidence.len(),
            evidence == evidence_view(rec.evidence@),
            forall|j: int| 0 <= j < i ==> #[trigger] evidence[j].server != server@,
        decreases rec.evidence.len() - i,
    {
        assert(evidence[i as int] == rec.evidence[i as int]@);
        if same_text(rec.evidence[i].server.as_str(), server) {
            rec.evidence[i].kind = kind;
            rec.evidence[i].at = now;
            proof {
                assert(is_first_mention(evidence, server@, i as int));
                let first = choose|k: int| is_first_mention(evidence, server@, k);
                assert(first == i);
                assert(rec@.evidence =~= noted(evidence, server@, kind, now@));
            }
            return ;
        }
        i += 1;
    }
    rec.evidence.push(ServerEvidence { server: server.to_owned(), kind, at: now });
    assert(rec@.evidence =~= noted(evidence, server@, kind, now@));
}

/// Whether there are enabled servers and every one of them has a refusal on
/// record.
fn every_server_refused(rec: &LedgerRecord, enabled_servers: &[String]) -> (all: bool)
    ensures
        all == all_refused(rec@.evidence, names(enabled_servers@)),
{
    let refused = rec.refused_servers();
    let ghost servers = names(enabled_servers@);
    let mut i: usize = 0;
    while i < enabled_servers.len()
        invariant
            i <= enabled_servers.len(),
            servers == names(enabled_servers@),
            forall|server: Seq<char>| #[trigger]
                texts(refused@).contains(server) <==> refused_by(rec@.evidence, server),
            forall|k: int| 0 <= k < i ==> refused_by(rec@.evidence, #[trigger] servers[k]),
        decreases enabled_servers.len() - i,
    {
        assert(servers[i as int] == enabled_servers[i as int]@);
        if !holds_name(&refused, enabled_servers[i].as_str()) {
            assert(!refused_by(rec@.evidence, servers[i as int]));
            return false;
        }
        i += 1;
    }
    enabled_servers.len() > 0
}

/// The single place that decides how one outcome mutates a record. Every rule
/// about what may be recorded as missing lives here and nowhere else. Returns
/// whether a confirming re-ask is still needed.
///
/// A hole must be confirmed at least its lifetime before the calendar ends.
pub fn apply_outcome(
    rec: &mut LedgerRecord,
    outcome: &Outcome,
    now: Timestamp,
    enabled_servers: &[String],
) -> (confirm: ConfirmNeeded)
    requires
        old(rec)@.confirms(outcome@, now@, names(enabled_servers@)) ==> now@.secs + HOLE_TTL_SECS
            <= MAX_SECS,
    ensures
        final(rec)@ == old(rec)@.after(outcome@, now@, names(enabled_servers@)),
        confirm.0 == (outcome@ is Refused && final(rec)@.state is ProvisionalMissing),
{
    let fingerprint = server_fingerprint(enabled_servers);
    if rec.server_fingerprint != fingerprint {
        // The set of servers asked changed; a hole keyed to the old set is no
        // longer trustworthy. Start the record over.
        rec.state = LedgerState::Unknown;
        rec.evidence.clear();
        rec.first_refused_at = None;
        rec.confirmed_at = None;
        rec.expires_at = None;
        rec.server_fingerprint = fingerprint;
    }
    assert(rec@ =~= old(rec)@.keyed_to(names(enabled_servers@)));
    match outcome {
        Outcome::Present => {
            // A definite present answer is terminal and clears any hole.
            rec.state = LedgerState::Present;
            rec.first_refused_at = None;
            rec.confirmed_at = None;
            rec.expires_at = None;
            ConfirmNeeded(false)
        },
        Outcome::Transport { server } => {
            // A transport failure is inconclusive: record who was unreachable,
            // but never let it create or advance a missing verdict.
            record_evidence(rec, server.as_str(), EvidenceKind::Transport, now);
            ConfirmNeeded(false)
        },
        Outcome::Refused { server } => {
            record_evidence(rec, server.as_str(), EvidenceKind::Refused, now);
            // Present is sticky (we already hold the bytes); a confirmed hole
            // stays confirmed until its TTL is handled by consult().
            if rec.state == LedgerState::Present || rec.state == LedgerState::ConfirmedMissing {
                return ConfirmNeeded(false);
            }
            let first = match rec.first_refused_at {
                Some(first) => first,
                None => now,
            };
            rec.first_refused_at = Some(first);
            rec.state = LedgerState::ProvisionalMissing;
            let all_refused = every_server_refused(rec, enabled_servers);
            let elapsed_ok = now.elapsed_at_least(&first, HOLE_CONFIRM_DELAY_SECS);
            if all_refused && elapsed_ok {
                rec.state = LedgerState::ConfirmedMissing;
                rec.confirmed_at = Some(now);
                rec.expires_at = Some(plus_seconds(&now, HOLE_TTL_SECS));
                ConfirmNeeded(false)
            } else {
                ConfirmNeeded(true)
            }
        },
    }
}

/// Whether an outcome, noted now, would confirm a hole. Only then does
/// [`apply_outcome`] reach for the end of the hole's lifetime.
pub fn confirms_hole(
    rec: &LedgerRecord,
    outcome: &Outcome,
    now: Timestamp,
    enabled_servers: &[String],
) -> (confirms: bool)
    ensures
        confirms == rec@.confirms(outcome@, now@, names(enabled_servers@)),
{
    let server = match outcome {
        Outcome::Refused { server } => server,
        _ => {
            return false;
        },
    };
    if rec.server_fingerprint != server_fingerprint(enabled_servers) {
        // The first refusal of a new set of servers.
        return false;
    }
    if rec.state == LedgerState::Present || rec.state == LedgerState::ConfirmedMissing {
        return false;
    }
    let refused = rec.refused_servers();
    let ghost servers = names(enabled_servers@);
    let ghost after = noted(rec@.evidence, server@, EvidenceKind::Refused, now@);
    let mut i: usize = 0;
    while i < enabled_servers.len()
        invariant
            i <= enabled_servers.len(),
            servers == names(enabled_servers@),
            rec@.keyed_to(servers) == rec@,
            outcome@ == (OutcomeView::Refused { server: server@ }),
            after == noted(rec@.evidence, server@, EvidenceKind::Refused, now@),
            forall|name: Seq<char>| #[trigger]
                texts(refused@).contains(name) <==> refused_by(rec@.evidence, name),
            forall|k: int| 0 <= k < i ==> refused_by(after, #[trigger] servers[k]),
        decreases enabled_servers.len() - i,
    {
        let name = enabled_servers[i].as_str();
        proof {
            assert(servers[i as int] == name@);
            if name@ == server@ {
                let at = lemma_noted_shape(rec@.evidence, server@, EvidenceKind::Refused, now@);
                assert(after[at].server == name@);
            } else {
                lemma_noted_other(rec@.evidence, server@, EvidenceKind::Refused, now@, name@);
            }
        }
        if !same_text(name, server.as_str()) && !holds_name(&refused, name) {
            assert(!refused_by(after, servers[i as int]));
            return false;
        }
        i += 1;
    }
    match rec.first_refused_at {
        Some(first) => enabled_servers.len() > 0 && now.elapsed_at_least(
            &first,
            HOLE_CONFIRM_DELAY_SECS,
        ),
        None => false,
    }
}

/// Whether a fetch should be skipped or re-probed given the current record.
pub fn consult(rec: Option<&LedgerRecord>, now: Timestamp) -> (advice: Consult)
    ensures
        advice == guidance(record_view(rec), now@),
{
    match rec {
        Some(r) => match r.state {
            LedgerState::ConfirmedMissing | LedgerState::UnservableFile => {
                let expired = match r.expires_at {
                    Some(exp) => now.not_before(&exp),
                    None => false,
                };
                Consult { skip: !expired, reprobe: expired }
            },
            _ => Consult { skip: false, reprobe: false },
        },
        None => Consult { skip: false, reprobe: false },
    }
}

/// Whether a reader blocked on this article is waiting on a provisional
/// refusal that a confirm may yet clear.
pub fn held_provisionally(rec: Option<&LedgerRecord>) -> (held: bool)
    ensures
        held == (record_view(rec) matches Some(rec) && rec.state is ProvisionalMissing),
{
    match rec {
        Some(r) => r.state == LedgerState::ProvisionalMissing,
        None => false,
    }
}

} // verus!
