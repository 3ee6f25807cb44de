//! The scan engine: the probe of one rule on one domain, the scan of one
//! domain with every rule, and the pacing of a whole scan. The functions
//! here decide; the caller resolves names, sends requests and stores
//! findings, and reports back what came of it.

use crate::config::{validation, ConfigError, ScanConfig};
use crate::distributed::{finding_views, ScanFinding, ScanFindingView};
use crate::rules::{RuleSet, RuleView};
use crate::text::{contains, occurs_in, to_chars};
use crate::utils::{
    build_url, chunk_vector, chunks, entries, first_seen, lookup_key, lookup_name, read_domains,
    texts, url_of,
};
use vstd::prelude::*;

verus! {

/// Whether a status says that the path exists: any 2xx or 3xx.
pub open spec fn status_exists(code: u16) -> bool {
    200 <= code < 400
}

/// Whether a status is a success: any 2xx.
pub open spec fn status_success(code: u16) -> bool {
    200 <= code < 300
}

/// Whether a status says that the server does not take the method of the
/// request: 405 or 501.
pub open spec fn method_refused(code: u16) -> bool {
    code == 405 || code == 501
}

/// Whether a status asks the client to slow down: 429.
pub open spec fn rate_limited(code: u16) -> bool {
    code == 429
}

/// What the answer to an existence check says.
#[derive(Debug, Clone, Copy, PartialEq, Eq, Structural)]
pub enum PathCheck {
    /// The path exists.
    Exists,
    /// The path does not exist, or nothing came back.
    Missing,
    /// The check must be made again with a full fetch.
    Retry,
}

/// What an existence check makes of the answer to its request. `code` is
/// the status, or `None` where no answer came. `head` says whether the
/// request was the light one, which is made first: where the server
/// refuses its method or no answer came, the check is made again with a
/// full fetch. Else a 2xx or 3xx status says that the path exists, and
/// anything else that it does not.
pub open spec fn path_check(code: Option<u16>, head: bool) -> PathCheck {
    match code {
        Some(c) => if head && method_refused(c) {
            PathCheck::Retry
        } else if status_exists(c) {
            PathCheck::Exists
        } else {
            PathCheck::Missing
        },
        None => if head {
            PathCheck::Retry
        } else {
            PathCheck::Missing
        },
    }
}

/// Decides an existence check from the answer to its request.
pub fn check_path(code: Option<u16>, head: bool) -> (r: PathCheck)
    ensures
        r == path_check(code, head),
{
    match code {
        Some(c) => if head && (c == 405 || c == 501) {
            PathCheck::Retry
        } else if 200 <= c && c < 400 {
            PathCheck::Exists
        } else {
            PathCheck::Missing
        },
        None => if head {
            PathCheck::Retry
        } else {
            PathCheck::Missing
        },
    }
}

/// Whether a fetched page shows the signature: the status is a success,
/// the body could be read, and the signature stands in it.
pub open spec fn signature_found(code: u16, body: Option<Seq<char>>, signature: Seq<char>) -> bool {
    status_success(code) && match body {
        Some(text) => occurs_in(text, signature),
        None => false,
    }
}

/// Decides a signature check from the fetched page. `body` is `None` where
/// the body could not be read.
pub fn check_signature(code: u16, body: Option<&str>, signature: &str) -> (r: bool)
    ensures
        r == signature_found(
            code,
            match body {
                Some(text) => Some(text@),
                None => None,
            },
            signature@,
        ),
{
    if !(200 <= code && code < 300) {
        return false;
    }
    match body {
        Some(text) => {
            let hay = to_chars(text);
            let needle = to_chars(signature);
            contains(&hay, &needle)
        },
        None => false,
    }
}

/// Where the scan of one domain stands.
#[derive(Debug, Clone, Copy, PartialEq, Eq, Structural)]
pub enum Phase {
    /// Nothing has been done yet.
    Pending,
    /// The name is being resolved.
    Resolving,
    /// The name did not resolve; no rule is probed. Final.
    Unresolved,
    /// The light existence check of a rule is under way.
    Head { rule: usize },
    /// The existence check of a rule is being made again with a full fetch.
    Get { rule: usize },
    /// The page of a rule is being fetched for the signature check.
    Body { rule: usize },
    /// The finding of a rule is being stored.
    Store { rule: usize },
    /// The scan pauses behind a rule whose probe was told to slow down.
    Backoff { rule: usize },
    /// Every rule has been checked and its finding stored. Final.
    Done,
    /// The cache or the store failed. Final.
    Failed,
}

/// What the caller reports to the scan of a domain.
#[derive(Debug)]
pub enum ScanEvent {
    /// The scan is to begin.
    Start,
    /// The resolver answered: an address, or none.
    Resolved { ip: Option<String> },
    /// The resolver's cache failed.
    ResolveFailed,
    /// A request for the status was answered.
    Status { code: u16 },
    /// A request got no answer.
    RequestFailed,
    /// A page was fetched; `text` is `None` where its body was unreadable.
    Body { code: u16, text: Option<String> },
    /// The store took the finding, or failed.
    Stored { ok: bool },
    /// The pause is over.
    BackoffElapsed,
}

/// An event as plain values.
pub enum ScanEventView {
    Start,
    Resolved { ip: Option<Seq<char>> },
    ResolveFailed,
    Status { code: u16 },
    RequestFailed,
    Body { code: u16, text: Option<Seq<char>> },
    Stored { ok: bool },
    BackoffElapsed,
}

impl View for ScanEvent {
    type V = ScanEventView;

    open spec fn view(&self) -> ScanEventView {
        match self {
            ScanEvent::Start => ScanEventView::Start,
            ScanEvent::Resolved { ip } => ScanEventView::Resolved {
                ip: match ip {
                    Some(a) => Some(a@),
                    None => None,
                },
            },
            ScanEvent::ResolveFailed => ScanEventView::ResolveFailed,
            ScanEvent::Status { code } => ScanEventView::Status { code: *code },
            ScanEvent::RequestFailed => ScanEventView::RequestFailed,
            ScanEvent::Body { code, text } => ScanEventView::Body {
                code: *code,
                text: match text {
                    Some(t) => Some(t@),
                    None => None,
                },
            },
            ScanEvent::Stored { ok } => ScanEventView::Stored { ok: *ok },
            ScanEvent::BackoffElapsed => ScanEventView::BackoffElapsed,
        }
    }
}

/// How the scan of a domain ended.
#[derive(Debug, Clone, Copy, PartialEq, Eq, Structural)]
pub enum DomainResult {
    /// Every rule was checked.
    Scanned,
    /// The name did not resolve.
    Unresolved,
    /// The cache or the store failed.
    Failed,
}

/// What the scan of a domain adds to the counters of the whole scan.
#[derive(Debug, Clone, Copy, PartialEq, Eq, Structural)]
pub struct DomainOutcome {
    pub result: DomainResult,
    /// The checks accounted for: one for each rule, probed or not.
    pub tasks: usize,
    /// The findings that detected their rule.
    pub matches: usize,
}

/// What the scan of a domain asks of the caller.
#[derive(Debug)]
pub enum ScanAction {
    /// Resolve the name, which is the host of the domain in lower case,
    /// and report `Resolved` or `ResolveFailed`.
    Resolve { domain: String },
    /// Ask for the status with the light request; report `Status` or
    /// `RequestFailed`.
    Head { url: String },
    /// Ask for the status with a full fetch; report `Status` or
    /// `RequestFailed`.
    Get { url: String },
    /// Fetch the page; report `Body` or `RequestFailed`.
    FetchBody { url: String },
    /// Store the finding; report `Stored`.
    Store { finding: ScanFinding },
    /// Pause for a random while; report `BackoffElapsed`.
    Backoff,
    /// The scan of the domain is over.
    Finish { outcome: DomainOutcome },
    /// The event does not fit the state. Nothing has changed.
    Unexpected,
}

/// An action as plain values.
pub enum ScanActionView {
    Resolve { domain: Seq<char> },
    Head { url: Seq<char> },
    Get { url: Seq<char> },
    FetchBody { url: Seq<char> },
    Store { finding: ScanFindingView },
    Backoff,
    Finish { outcome: DomainOutcome },
    Unexpected,
}

impl View for ScanAction {
    type V = ScanActionView;

    open spec fn view(&self) -> ScanActionView {
        match self {
            ScanAction::Resolve { domain } => ScanActionView::Resolve { domain: domain@ },
            ScanAction::Head { url } => ScanActionView::Head { url: url@ },
            ScanAction::Get { url } => ScanActionView::Get { url: url@ },
            ScanAction::FetchBody { url } => ScanActionView::FetchBody { url: url@ },
            ScanAction::Store { finding } => ScanActionView::Store { finding: finding@ },
            ScanAction::Backoff => ScanActionView::Backoff,
            ScanAction::Finish { outcome } => ScanActionView::Finish { outcome: *outcome },
            ScanAction::Unexpected => ScanActionView::Unexpected,
        }
    }
}

/// The scan of one domain as plain values.
pub struct DomainScanView {
    pub domain: Seq<char>,
    pub rules: Seq<RuleView>,
    pub phase: Phase,
    /// Whether the probe of the current rule was told to slow down.
    pub limited: bool,
    /// The findings so far, one for each rule that has been checked, in
    /// the order of the rules.
    pub findings: Seq<ScanFindingView>,
    /// How many of the findings detected their rule.
    pub matches: nat,
}

/// The finding for a rule on a domain.
pub open spec fn finding_for(domain: Seq<char>, rule: RuleView, detected: bool) -> ScanFindingView {
    ScanFindingView { domain, rule_name: rule.name, matched_path: rule.path, detected }
}

/// How many findings detected their rule.
pub open spec fn detected_count(findings: Seq<ScanFindingView>) -> nat {
    findings.filter(|f: ScanFindingView| f.detected).len()
}

impl DomainScanView {
    /// The URL that the probe of rule `i` asks for.
    pub open spec fn url(self, i: int) -> Seq<char> {
        url_of(self.domain, self.rules[i].path)
    }

    /// What the scan adds to the counters when it ends with `result`.
    pub open spec fn outcome(self, result: DomainResult) -> DomainOutcome {
        DomainOutcome { result, tasks: self.rules.len() as usize, matches: self.matches as usize }
    }

    /// The state and the action after the probe of rule `i` has ended: its
    /// finding is recorded and handed out to be stored.
    pub open spec fn conclude(self, i: int, detected: bool, limited: bool) -> (
        DomainScanView,
        ScanActionView,
    ) {
        let finding = finding_for(self.domain, self.rules[i], detected);
        (
            DomainScanView {
                phase: Phase::Store { rule: i as usize },
                limited,
                findings: self.findings.push(finding),
                matches: if detected {
                    self.matches + 1
                } else {
                    self.matches
                },
                ..self
            },
            ScanActionView::Store { finding },
        )
    }

    /// The state and the action when rule `i` is behind: the probe of the
    /// next rule begins, or the scan is done.
    pub open spec fn proceed(self, i: int) -> (DomainScanView, ScanActionView) {
        if i + 1 < self.rules.len() {
            (
                DomainScanView { phase: Phase::Head { rule: (i + 1) as usize }, limited: false, ..self },
                ScanActionView::Head { url: self.url(i + 1) },
            )
        } else {
            (
                DomainScanView { phase: Phase::Done, limited: false, ..self },
                ScanActionView::Finish { outcome: self.outcome(DomainResult::Scanned) },
            )
        }
    }

    /// The state and the action that follow an event.
    ///
    /// A pending scan starts by resolving the host of the domain. A name
    /// without an
    /// address ends the scan as unresolved, with no rule probed; a fault
    /// of the cache ends it as failed. With an address the rules are
    /// probed one after the other, each in full: the light existence
    /// check, the same with a full fetch where the first must be made
    /// again, and the fetch of the page where the path exists. Each rule
    /// ends with a finding, detected or not, that is handed out to be
    /// stored. A status 429 at any request of a probe makes the scan pause
    /// behind that rule. An event that does not fit the phase changes
    /// nothing.
    pub open spec fn step(self, event: ScanEventView) -> (DomainScanView, ScanActionView) {
        match (self.phase, event) {
            (Phase::Pending, ScanEventView::Start) => (
                DomainScanView { phase: Phase::Resolving, ..self },
                ScanActionView::Resolve { domain: lookup_name(self.domain) },
            ),
            (Phase::Resolving, ScanEventView::Resolved { ip: Some(_) }) => if self.rules.len() == 0 {
                (
                    DomainScanView { phase: Phase::Done, ..self },
                    ScanActionView::Finish { outcome: self.outcome(DomainResult::Scanned) },
                )
            } else {
                (
                    DomainScanView { phase: Phase::Head { rule: 0 }, ..self },
                    ScanActionView::Head { url: self.url(0) },
                )
            },
            (Phase::Resolving, ScanEventView::Resolved { ip: None }) => (
                DomainScanView { phase: Phase::Unresolved, ..self },
                ScanActionView::Finish { outcome: self.outcome(DomainResult::Unresolved) },
            ),
            (Phase::Resolving, ScanEventView::ResolveFailed) => (
                DomainScanView { phase: Phase::Failed, ..self },
                ScanActionView::Finish { outcome: self.outcome(DomainResult::Failed) },
            ),
            (Phase::Head { rule }, ScanEventView::Status { code }) => match path_check(
                Some(code),
                true,
            ) {
                PathCheck::Retry => (
                    DomainScanView { phase: Phase::Get { rule }, ..self },
                    ScanActionView::Get { url: self.url(rule as int) },
                ),
                PathCheck::Exists => (
                    DomainScanView { phase: Phase::Body { rule }, ..self },
                    ScanActionView::FetchBody { url: self.url(rule as int) },
                ),
                PathCheck::Missing => self.conclude(rule as int, false, rate_limited(code)),
            },
            (Phase::Head { rule }, ScanEventView::RequestFailed) => (
                DomainScanView { phase: Phase::Get { rule }, ..self },
                ScanActionView::Get { url: self.url(rule as int) },
            ),
            (Phase::Get { rule }, ScanEventView::Status { code }) => match path_check(
                Some(code),
                false,
            ) {
                PathCheck::Exists => (
                    DomainScanView { phase: Phase::Body { rule }, ..self },
                    ScanActionView::FetchBody { url: self.url(rule as int) },
                ),
                _ => self.conclude(rule as int, false, rate_limited(code)),
            },
            (Phase::Get { rule }, ScanEventView::RequestFailed) => self.conclude(
                rule as int,
                false,
                false,
            ),
            (Phase::Body { rule }, ScanEventView::Body { code, text }) => self.conclude(
                rule as int,
                signature_found(code, text, self.rules[rule as int].signature),
                rate_limited(code),
            ),
            (Phase::Body { rule }, ScanEventView::RequestFailed) => self.conclude(
                rule as int,
                false,
                false,
            ),
            (Phase::Store { rule }, ScanEventView::Stored { ok }) => if !ok {
                (
                    DomainScanView { phase: Phase::Failed, ..self },
                    ScanActionView::Finish { outcome: self.outcome(DomainResult::Failed) },
                )
            } else if self.limited {
                (DomainScanView { phase: Phase::Backoff { rule }, ..self }, ScanActionView::Backoff)
            } else {
                self.proceed(rule as int)
            },
            (Phase::Backoff { rule }, ScanEventView::BackoffElapsed) => self.proceed(rule as int),
            _ => (self, ScanActionView::Unexpected),
        }
    }

    /// What holds of every state of a scan: the findings are those of the
    /// rules that have been checked, one each and in their order; while a
    /// rule is probed the findings of the rules before it are there, and
    /// once the scan is done those of all rules; a scan that did not
    /// resolve has none.
    pub open spec fn consistent(self) -> bool {
        &&& self.findings.len() <= self.rules.len() <= usize::MAX
        &&& self.matches == detected_count(self.findings)
        &&& forall|j: int|
            0 <= j < self.findings.len() ==> {
                &&& (#[trigger] self.findings[j]).domain == self.domain
                &&& self.findings[j].rule_name == self.rules[j].name
                &&& self.findings[j].matched_path == self.rules[j].path
            }
        &&& match self.phase {
            Phase::Pending | Phase::Resolving | Phase::Unresolved => self.findings.len() == 0,
            Phase::Head { rule } | Phase::Get { rule } | Phase::Body { rule } => {
                &&& rule < self.rules.len()
                &&& self.findings.len() == rule
            },
            Phase::Store { rule } | Phase::Backoff { rule } => {
                &&& rule < self.rules.len()
                &&& self.findings.len() == rule + 1
            },
            Phase::Done => self.findings.len() == self.rules.len(),
            Phase::Failed => true,
        }
    }
}

/// A finding more is counted where it detected its rule.
pub proof fn lemma_detected_count_push(findings: Seq<ScanFindingView>, f: ScanFindingView)
    ensures
        detected_count(findings.push(f)) == detected_count(findings) + if f.detected {
            1nat
        } else {
            0nat
        },
        detected_count(findings) <= findings.len(),
{
    reveal(Seq::filter);
    assert(findings.push(f).drop_last() == findings);
    findings.lemma_filter_len(|f: ScanFindingView| f.detected);
}

/// Every step keeps a scan consistent.
pub proof fn lemma_step_consistent(s: DomainScanView, event: ScanEventView)
    requires
        s.consistent(),
    ensures
        s.step(event).0.consistent(),
        s.step(event).0.domain == s.domain,
        s.step(event).0.rules == s.rules,
{
    let t = s.step(event).0;
    if t.findings != s.findings {
        let i = s.findings.len() as int;
        let f = t.findings.last();
        assert(t.findings == s.findings.push(f));
        lemma_detected_count_push(s.findings, f);
    }
}

/// The scan of one domain with every rule of a rule set.
#[derive(Debug)]
pub struct DomainScan {
    domain: String,
    rules: RuleSet,
    phase: Phase,
    limited: bool,
    findings: Vec<ScanFinding>,
    matches: usize,
}

impl View for DomainScan {
    type V = DomainScanView;

    closed spec fn view(&self) -> DomainScanView {
        DomainScanView {
            domain: self.domain@,
            rules: self.rules@,
            phase: self.phase,
            limited: self.limited,
            findings: finding_views(self.findings@),
            matches: self.matches as nat,
        }
    }
}

impl DomainScan {
    #[verifier::type_invariant]
    spec fn inv(&self) -> bool {
        self@.consistent()
    }

    /// A scan of `domain` with `rules` that has not begun.
    pub fn new(domain: &str, rules: RuleSet) -> (s: Self)
        ensures
            s@ == (DomainScanView {
                domain: domain@,
                rules: rules@,
                phase: Phase::Pending,
                limited: false,
                findings: Seq::empty(),
                matches: 0,
            }),
            s@.consistent(),
    {
        let findings: Vec<ScanFinding> = Vec::new();
        assert(finding_views(findings@) == Seq::<ScanFindingView>::empty());
        assert(detected_count(Seq::<ScanFindingView>::empty()) == 0) by {
            reveal(Seq::filter);
        }
        let n = rules.rules.len();
        assert(rules@.len() == n);
        DomainScan {
            domain: domain.to_owned(),
            rules,
            phase: Phase::Pending,
            limited: false,
            findings,
            matches: 0,
        }
    }

    /// Where the scan stands.
    pub fn phase(&self) -> (p: Phase)
        ensures
            p == self@.phase,
    {
        self.phase
    }

    /// Whether the scan has ended.
    pub fn is_finished(&self) -> (b: bool)
        ensures
            b == (self@.phase == Phase::Done || self@.phase == Phase::Unresolved || self@.phase
                == Phase::Failed),
    {
        match self.phase {
            Phase::Done | Phase::Unresolved | Phase::Failed => true,
            _ => false,
        }
    }

    /// The domain that is scanned.
    pub fn domain(&self) -> (d: &String)
        ensures
            d@ == self@.domain,
    {
        &self.domain
    }

    /// The findings so far, in the order of the rules.
    pub fn findings(&self) -> (f: &Vec<ScanFinding>)
        ensures
            finding_views(f@) == self@.findings,
    {
        &self.findings
    }

    /// Ends the scan and hands out its findings.
    pub fn into_findings(self) -> (f: Vec<ScanFinding>)
        ensures
            finding_views(f@) == self@.findings,
    {
        self.findings
    }

    /// How many findings detected their rule.
    pub fn matches(&self) -> (m: usize)
        ensures
            m == self@.matches,
    {
        self.matches
    }

    fn url(&self, rule: usize) -> (u: String)
        requires
            rule < self@.rules.len(),
        ensures
            u@ == self@.url(rule as int),
    {
        build_url(self.domain.as_str(), self.rules.rules[rule].path.as_str())
    }

    fn outcome(&self, result: DomainResult) -> (o: DomainOutcome)
        ensures
            o == self@.outcome(result),
    {
        DomainOutcome { result, tasks: self.rules.rules.len(), matches: self.matches }
    }

    fn conclude(self, rule: usize, detected: bool, limited: bool) -> (r: (Self, ScanAction))
        requires
            self@.phase == (Phase::Head { rule }) || self@.phase == (Phase::Get { rule })
                || self@.phase == (Phase::Body { rule }),
        ensures
            (r.0@, r.1@) == self@.conclude(rule as int, detected, limited),
    {
        proof {
            use_type_invariant(&self);
        }
        let ghost before = self@;
        let DomainScan { domain, rules, phase: _, limited: _, mut findings, matches } = self;
        let finding = ScanFinding {
            domain: domain.clone(),
            rule_name: rules.rules[rule].name.clone(),
            matched_path: rules.rules[rule].path.clone(),
            detected,
        };
        proof {
            lemma_detected_count_push(before.findings, finding@);
        }
        findings.push(finding.clone());
        assert(finding_views(findings@) == before.findings.push(finding@));
        let matches = if detected {
            matches + 1
        } else {
            matches
        };
        (
            DomainScan { domain, rules, phase: Phase::Store { rule }, limited, findings, matches },
            ScanAction::Store { finding },
        )
    }

    fn proceed(self, rule: usize) -> (r: (Self, ScanAction))
        requires
            self@.phase == (Phase::Store { rule }) || self@.phase == (Phase::Backoff { rule }),
        ensures
            (r.0@, r.1@) == self@.proceed(rule as int),
    {
        proof {
            use_type_invariant(&self);
        }
        if rule + 1 < self.rules.rules.len() {
            let url = self.url(rule + 1);
            let DomainScan { domain, rules, phase: _, limited: _, findings, matches } = self;
            (
                DomainScan {
                    domain,
                    rules,
                    phase: Phase::Head { rule: rule + 1 },
                    limited: false,
                    findings,
                    matches,
                },
                ScanAction::Head { url },
            )
        } else {
            let outcome = self.outcome(DomainResult::Scanned);
            let DomainScan { domain, rules, phase: _, limited: _, findings, matches } = self;
            (
                DomainScan { domain, rules, phase: Phase::Done, limited: false, findings, matches },
                ScanAction::Finish { outcome },
            )
        }
    }

    fn turn(self, phase: Phase, action: ScanAction) -> (r: (Self, ScanAction))
        requires
            (DomainScanView { phase, ..self@ }).consistent(),
        ensures
            r.0@ == (DomainScanView { phase, ..self@ }),
            r.1 == action,
    {
        let DomainScan { domain, rules, phase: _, limited, findings, matches } = self;
        (DomainScan { domain, rules, phase, limited, findings, matches }, action)
    }

    /// Takes an event and gives the state that follows and what the caller
    /// is to do next, as `DomainScanView::step` says.
    pub fn advance(self, event: ScanEvent) -> (r: (Self, ScanAction))
        ensures
            (r.0@, r.1@) == self@.step(event@),
            self@.consistent(),
            r.0@.consistent(),
    {
        proof {
            use_type_invariant(&self);
            lemma_step_consistent(self@, event@);
        }
        match (self.phase, event) {
            (Phase::Pending, ScanEvent::Start) => {
                let domain = lookup_key(self.domain.as_str());
                self.turn(Phase::Resolving, ScanAction::Resolve { domain })
            },
            (Phase::Resolving, ScanEvent::Resolved { ip: Some(_) }) => {
                if self.rules.rules.len() == 0 {
                    let outcome = self.outcome(DomainResult::Scanned);
                    self.turn(Phase::Done, ScanAction::Finish { outcome })
                } else {
                    let url = self.url(0);
                    self.turn(Phase::Head { rule: 0 }, ScanAction::Head { url })
                }
            },
            (Phase::Resolving, ScanEvent::Resolved { ip: None }) => {
                let outcome = self.outcome(DomainResult::Unresolved);
                self.turn(Phase::Unresolved, ScanAction::Finish { outcome })
            },
            (Phase::Resolving, ScanEvent::ResolveFailed) => {
                let outcome = self.outcome(DomainResult::Failed);
                self.turn(Phase::Failed, ScanAction::Finish { outcome })
            },
            (Phase::Head { rule }, ScanEvent::Status { code }) => {
                match check_path(Some(code), true) {
                    PathCheck::Retry => {
                        let url = self.url(rule);
                        self.turn(Phase::Get { rule }, ScanAction::Get { url })
                    },
                    PathCheck::Exists => {
                        let url = self.url(rule);
                        self.turn(Phase::Body { rule }, ScanAction::FetchBody { url })
                    },
                    PathCheck::Missing => self.conclude(rule, false, code == 429),
                }
            },
            (Phase::Head { rule }, ScanEvent::RequestFailed) => {
                let url = self.url(rule);
                self.turn(Phase::Get { rule }, ScanAction::Get { url })
            },
            (Phase::Get { rule }, ScanEvent::Status { code }) => {
                match check_path(Some(code), false) {
                    PathCheck::Exists => {
                        let url = self.url(rule);
                        self.turn(Phase::Body { rule }, ScanAction::FetchBody { url })
                    },
                    _ => self.conclude(rule, false, code == 429),
                }
            },
            (Phase::Get { rule }, ScanEvent::RequestFailed) => self.conclude(rule, false, false),
            (Phase::Body { rule }, ScanEvent::Body { code, text }) => {
                let detected = match &text {
                    Some(t) => check_signature(
                        code,
                        Some(t.as_str()),
                        self.rules.rules[rule].signature.as_str(),
                    ),
                    None => check_signature(code, None, self.rules.rules[rule].signature.as_str()),
                };
                self.conclude(rule, detected, code == 429)
            },
            (Phase::Body { rule }, ScanEvent::RequestFailed) => self.conclude(rule, false, false),
            (Phase::Store { rule }, ScanEvent::Stored { ok }) => {
                if !ok {
                    let outcome = self.outcome(DomainResult::Failed);
                    self.turn(Phase::Failed, ScanAction::Finish { outcome })
                } else if self.limited {
                    self.turn(Phase::Backoff { rule }, ScanAction::Backoff)
                } else {
                    self.proceed(rule)
                }
            },
            (Phase::Backoff { rule }, ScanEvent::BackoffElapsed) => self.proceed(rule),
            _ => (self, ScanAction::Unexpected),
        }
    }
}

/// How many domains a batch holds where none is given.
pub const DEFAULT_BATCH_SIZE: usize = 100;

/// The views of a list of batches.
pub open spec fn batch_views(b: Seq<Vec<String>>) -> Seq<Seq<Seq<char>>> {
    b.map_values(|v: Vec<String>| texts(v@))
}

/// How many domains the first `upto` batches hold.
pub open spec fn domains_in(batches: Seq<Seq<Seq<char>>>, upto: int) -> nat
    decreases upto,
{
    if upto <= 0 || upto > batches.len() {
        0
    } else {
        domains_in(batches, upto - 1) + batches[upto - 1].len()
    }
}

/// The first batches hold no more domains than more of them.
pub proof fn lemma_domains_in_grows(batches: Seq<Seq<Seq<char>>>, a: int, b: int)
    requires
        0 <= a <= b <= batches.len(),
    ensures
        domains_in(batches, a) <= domains_in(batches, b),
    decreases b - a,
{
    if a < b {
        lemma_domains_in_grows(batches, a, b - 1);
    }
}

/// What a scan has done so far, for the report on its progress.
#[derive(Debug, Clone, Copy, PartialEq, Eq, Structural)]
pub struct Progress {
    pub domains_done: usize,
    pub total_domains: usize,
    pub tasks_done: u128,
    pub total_tasks: u128,
    /// `domains_done` in hundredths of `total_domains`, rounded down;
    /// zero where there is no domain.
    pub domains_percent: u128,
    /// `tasks_done` in hundredths of `total_tasks`, rounded down; zero
    /// where there is no task.
    pub tasks_percent: u128,
    /// Whether every domain and every task is done.
    pub complete: bool,
}

/// The figures of a finished scan.
#[derive(Debug, Clone, Copy, PartialEq, Eq, Structural)]
pub struct ScanSummary {
    /// The domains scanned.
    pub domains_scanned: usize,
    /// The checks accounted for: one for each domain and rule.
    pub total_checks: u128,
    /// The findings that detected their rule.
    pub findings: u128,
    /// The domains whose scan did not run through: unresolved or failed.
    pub errors: usize,
}

/// What the engine asks of the caller.
#[derive(Debug)]
pub enum EngineAction {
    /// Start the scan of this domain; report its outcome when it ends.
    Launch { domain: String },
    /// Nothing can be started now: wait for a scan to end.
    Wait,
    /// A batch is through, with so many domains in error.
    BatchDone { batch: usize, errors: usize },
    /// Every batch is through.
    Finished { summary: ScanSummary },
}

/// An action of the engine as plain values.
pub enum EngineActionView {
    Launch { domain: Seq<char> },
    Wait,
    BatchDone { batch: usize, errors: usize },
    Finished { summary: ScanSummary },
}

impl View for EngineAction {
    type V = EngineActionView;

    open spec fn view(&self) -> EngineActionView {
        match self {
            EngineAction::Launch { domain } => EngineActionView::Launch { domain: domain@ },
            EngineAction::Wait => EngineActionView::Wait,
            EngineAction::BatchDone { batch, errors } => EngineActionView::BatchDone {
                batch: *batch,
                errors: *errors,
            },
            EngineAction::Finished { summary } => EngineActionView::Finished { summary: *summary },
        }
    }
}

/// The engine of a scan as plain values.
pub struct ScanEngineView {
    /// The domains, in batches.
    pub batches: Seq<Seq<Seq<char>>>,
    /// How many rules each domain is checked with.
    pub rules: nat,
    /// How many domains may be scanned at a time.
    pub concurrency: nat,
    /// The batch that is being worked on; the number of batches once all
    /// are through.
    pub batch: nat,
    /// The next domain of the batch to start.
    pub next: nat,
    /// The scans that have started and not ended.
    pub in_flight: nat,
    /// The domains of the batch that ended in error.
    pub batch_errors: nat,
    /// The domains whose scan has ended.
    pub processed: nat,
    /// The checks accounted for.
    pub tasks: nat,
    /// The findings that detected their rule.
    pub matches: nat,
    /// The domains that ended in error.
    pub errors: nat,
}

impl ScanEngineView {
    /// How many domains there are in all.
    pub open spec fn total_domains(self) -> nat {
        domains_in(self.batches, self.batches.len() as int)
    }

    /// How many scans have been started.
    pub open spec fn launched(self) -> nat {
        domains_in(self.batches, self.batch as int) + self.next
    }

    /// The figures of the scan.
    pub open spec fn summary(self) -> ScanSummary {
        ScanSummary {
            domains_scanned: self.processed as usize,
            total_checks: self.tasks as u128,
            findings: self.matches as u128,
            errors: self.errors as usize,
        }
    }

    /// What holds of every state of the engine: no more scans run than
    /// the concurrency allows; every scan that was started has ended or
    /// is running; the counters are exact.
    pub open spec fn consistent(self) -> bool {
        &&& self.concurrency > 0
        &&& self.in_flight <= self.concurrency
        &&& self.batch <= self.batches.len()
        &&& self.batch < self.batches.len() ==> self.next <= self.batches[self.batch as int].len()
        &&& self.batch == self.batches.len() ==> self.next == 0 && self.in_flight == 0
        &&& self.in_flight <= self.next
        &&& self.processed + self.in_flight == self.launched()
        &&& self.total_domains() <= usize::MAX
        &&& self.rules <= usize::MAX
        &&& self.tasks == self.processed * self.rules
        &&& self.matches <= self.tasks
        &&& self.batch_errors <= self.errors <= self.processed
    }

    /// The state and the action when the caller asks what to do. While
    /// the batch has domains left and fewer scans run than the concurrency
    /// allows, the next domain is started. A batch is through when all its
    /// scans have ended; only then does the next batch begin.
    pub open spec fn poll(self) -> (ScanEngineView, EngineActionView) {
        if self.batch >= self.batches.len() {
            (self, EngineActionView::Finished { summary: self.summary() })
        } else if self.next < self.batches[self.batch as int].len() {
            if self.in_flight < self.concurrency {
                (
                    ScanEngineView { next: self.next + 1, in_flight: self.in_flight + 1, ..self },
                    EngineActionView::Launch {
                        domain: self.batches[self.batch as int][self.next as int],
                    },
                )
            } else {
                (self, EngineActionView::Wait)
            }
        } else if self.in_flight > 0 {
            (self, EngineActionView::Wait)
        } else {
            (
                ScanEngineView { batch: self.batch + 1, next: 0, batch_errors: 0, ..self },
                EngineActionView::BatchDone {
                    batch: self.batch as usize,
                    errors: self.batch_errors as usize,
                },
            )
        }
    }

    /// Whether the engine takes the outcome of a scan: one must be
    /// running, and the outcome must account for every rule and report no
    /// more matches than rules.
    pub open spec fn accepts(self, outcome: DomainOutcome) -> bool {
        self.in_flight > 0 && outcome.tasks == self.rules && outcome.matches <= outcome.tasks
    }

    /// The state after the scan of a domain has ended with `outcome`: the
    /// domain is counted as processed, each of its rules as a task, its
    /// matches as matches, and the domain as an error unless every rule
    /// was checked.
    pub open spec fn report(self, outcome: DomainOutcome) -> ScanEngineView {
        if self.accepts(outcome) {
            let failed: nat = if outcome.result == DomainResult::Scanned {
                0
            } else {
                1
            };
            ScanEngineView {
                in_flight: (self.in_flight - 1) as nat,
                processed: self.processed + 1,
                tasks: self.tasks + self.rules,
                matches: (self.matches + outcome.matches) as nat,
                errors: self.errors + failed,
                batch_errors: self.batch_errors + failed,
                ..self
            }
        } else {
            self
        }
    }

    /// Hundredths of `total` that `done` makes, rounded down.
    pub open spec fn percent(done: nat, total: nat) -> nat {
        if total == 0 {
            0
        } else {
            (done * 100 / total) as nat
        }
    }

    /// The figures for the report on the progress.
    pub open spec fn progress(self) -> Progress {
        Progress {
            domains_done: self.processed as usize,
            total_domains: self.total_domains() as usize,
            tasks_done: self.tasks as u128,
            total_tasks: (self.total_domains() * self.rules) as u128,
            domains_percent: Self::percent(self.processed, self.total_domains()) as u128,
            tasks_percent: Self::percent(self.tasks, self.total_domains() * self.rules) as u128,
            complete: self.processed >= self.total_domains() && self.tasks >= self.total_domains()
                * self.rules,
        }
    }
}

/// The first `m` batches hold as many domains as they are long when put
/// end to end.
pub proof fn lemma_domains_in_flat(batches: Seq<Seq<Seq<char>>>, m: int)
    requires
        0 <= m <= batches.len(),
    ensures
        domains_in(batches, m) == batches.take(m).flatten_alt().len(),
    decreases m,
{
    if m > 0 {
        lemma_domains_in_flat(batches, m - 1);
        assert(batches.take(m).drop_last() == batches.take(m - 1));
        assert(batches.take(m).last() == batches[m - 1]);
    }
}

/// The batches of a list hold as many domains as the list.
pub proof fn lemma_batches_hold_all(s: Seq<Seq<char>>, k: nat)
    ensures
        domains_in(chunks(s, k), chunks(s, k).len() as int) == s.len(),
{
    let c = chunks(s, k);
    lemma_domains_in_flat(c, c.len() as int);
    assert(c.take(c.len() as int) == c);
    c.lemma_flatten_and_flatten_alt_are_equivalent();
    crate::utils::lemma_chunks_concat(s, k);
}

/// Batching the views of a list gives the views of its batches.
pub proof fn lemma_batch_views(out: Seq<Vec<String>>, list: Seq<String>, k: nat)
    requires
        out.map_values(|c: Vec<String>| c@) == chunks(list, k),
    ensures
        batch_views(out) == chunks(texts(list), k),
{
    let a = batch_views(out);
    let b = chunks(texts(list), k);
    let c = out.map_values(|c: Vec<String>| c@);
    assert(c.len() == out.len());
    assert(texts(list).len() == list.len());
    assert(a.len() == b.len());
    assert forall|j: int| 0 <= j < a.len() implies a[j] == b[j] by {
        assert(c[j] == out[j]@);
        assert(a[j] == texts(out[j]@));
        if k > 0 {
            let lo = j * k;
            let hi = if (j + 1) * k <= list.len() {
                (j + 1) * k
            } else {
                list.len() as int
            };
            assert(0 <= lo) by (nonlinear_arith)
                requires
                    lo == j * k,
                    j >= 0,
                    k > 0,
            ;
            assert(lo <= (j + 1) * k) by (nonlinear_arith)
                requires
                    lo == j * k,
                    k > 0,
            ;
            let n = list.len();
            vstd::arithmetic::div_mod::lemma_fundamental_div_mod(n as int, k as int);
            vstd::arithmetic::div_mod::lemma_mod_bound(n as int, k as int);
            assert(n == (n / k) * k + n % k) by (nonlinear_arith)
                requires
                    n == k * (n / k) + n % k,
            ;
            crate::utils::lemma_chunk_count(n / k, n % k, k);
            assert(lo <= n) by {
                if j < n / k {
                    assert(j * k + k <= (n / k) * k);
                } else {
                    assert(j * k == (n / k) * k);
                }
            }
            assert(texts(list.subrange(lo, hi)) =~= texts(list).subrange(lo, hi));
        } else {
            assert(texts(list) =~= b[j]);
        }
    }
    assert(a =~= b);
}

/// The engine of a scan: it starts the scans of the domains, batch after
/// batch and never more at a time than the concurrency allows, and keeps
/// the counters.
#[derive(Debug)]
pub struct ScanEngine {
    batches: Vec<Vec<String>>,
    rules: usize,
    concurrency: usize,
    total: usize,
    batch: usize,
    next: usize,
    in_flight: usize,
    batch_errors: usize,
    processed: usize,
    tasks: u128,
    matches: u128,
    errors: usize,
}

impl View for ScanEngine {
    type V = ScanEngineView;

    closed spec fn view(&self) -> ScanEngineView {
        ScanEngineView {
            batches: batch_views(self.batches@),
            rules: self.rules as nat,
            concurrency: self.concurrency as nat,
            batch: self.batch as nat,
            next: self.next as nat,
            in_flight: self.in_flight as nat,
            batch_errors: self.batch_errors as nat,
            processed: self.processed as nat,
            tasks: self.tasks as nat,
            matches: self.matches as nat,
            errors: self.errors as nat,
        }
    }
}

/// How a scan begins.
#[derive(Debug)]
pub enum ScanStart {
    /// There is work: the engine for it.
    Ready(ScanEngine),
    /// The rule set is empty: there is nothing to check.
    NoRules,
    /// The list holds no domain: there is nothing to scan.
    NoDomains,
}

/// The state of an engine at the start of a scan.
pub open spec fn initial_engine(domains: Seq<Seq<char>>, rules: nat, concurrency: nat, batch_size: nat) -> ScanEngineView {
    ScanEngineView {
        batches: chunks(domains, batch_size),
        rules,
        concurrency,
        batch: 0,
        next: 0,
        in_flight: 0,
        batch_errors: 0,
        processed: 0,
        tasks: 0,
        matches: 0,
        errors: 0,
    }
}

/// Prepares a scan. The settings are validated first, given whether the
/// two files exist; a fault is returned as the error. An empty rule set
/// and a list without domains end the scan before it begins. Else the
/// domains of the list, each once and in the order in which they are first
/// seen, are put into batches of `batch_size`, and the engine is ready
/// with nothing started.
pub fn plan_scan(
    config: &ScanConfig,
    input_exists: bool,
    rules_exists: bool,
    rules: &RuleSet,
    domain_list: &str,
    batch_size: usize,
) -> (r: Result<ScanStart, ConfigError>)
    ensures
        match validation(config@, input_exists, rules_exists) {
            Err(e) => r matches Err(f) && f@ == e,
            Ok(()) => match r {
                Err(_) => false,
                Ok(ScanStart::NoRules) => rules@.len() == 0,
                Ok(ScanStart::NoDomains) => rules@.len() > 0 && first_seen(entries(domain_list@)).len()
                    == 0,
                Ok(ScanStart::Ready(engine)) => {
                    &&& rules@.len() > 0
                    &&& first_seen(entries(domain_list@)).len() > 0
                    &&& engine@ == initial_engine(
                        first_seen(entries(domain_list@)),
                        rules@.len(),
                        config@.concurrency,
                        batch_size as nat,
                    )
                    &&& engine@.consistent()
                    &&& engine@.total_domains() == first_seen(entries(domain_list@)).len()
                },
            },
        },
{
    match config.validate(input_exists, rules_exists) {
        Err(e) => {
            return Err(e);
        },
        Ok(()) => {},
    }
    let n_rules = rules.rules.len();
    assert(rules@.len() == n_rules);
    if n_rules == 0 {
        return Ok(ScanStart::NoRules);
    }
    let domains = read_domains(domain_list);
    let total = domains.len();
    assert(texts(domains@).len() == total);
    if total == 0 {
        return Ok(ScanStart::NoDomains);
    }
    let ghost list = domains@;
    let batches = chunk_vector(domains, batch_size);
    proof {
        lemma_batch_views(batches@, list, batch_size as nat);
        lemma_batches_hold_all(texts(list), batch_size as nat);
    }
    let engine = ScanEngine {
        batches,
        rules: n_rules,
        concurrency: config.concurrency,
        total,
        batch: 0,
        next: 0,
        in_flight: 0,
        batch_errors: 0,
        processed: 0,
        tasks: 0,
        matches: 0,
        errors: 0,
    };
    Ok(ScanStart::Ready(engine))
}

impl ScanEngine {
    #[verifier::type_invariant]
    spec fn inv(&self) -> bool {
        self@.consistent() && self.total == self@.total_domains()
    }

    /// Asks the engine what to do next, as `ScanEngineView::poll` says.
    pub fn poll(self) -> (r: (Self, EngineAction))
        ensures
            (r.0@, r.1@) == self@.poll(),
            self@.consistent(),
            r.0@.consistent(),
    {
        proof {
            use_type_invariant(&self);
        }
        let ghost before = self@;
        if self.batch >= self.batches.len() {
            let summary = ScanSummary {
                domains_scanned: self.processed,
                total_checks: self.tasks,
                findings: self.matches,
                errors: self.errors,
            };
            return (self, EngineAction::Finished { summary });
        }
        assert(before.batches[self.batch as int] == texts(self.batches@[self.batch as int]@));
        if self.next < self.batches[self.batch].len() {
            if self.in_flight < self.concurrency {
                let domain = self.batches[self.batch][self.next].clone();
                let ScanEngine {
                    batches,
                    rules,
                    concurrency,
                    total,
                    batch,
                    next,
                    in_flight,
                    batch_errors,
                    processed,
                    tasks,
                    matches,
                    errors,
                } = self;
                (
                    ScanEngine {
                        batches,
                        rules,
                        concurrency,
                        total,
                        batch,
                        next: next + 1,
                        in_flight: in_flight + 1,
                        batch_errors,
                        processed,
                        tasks,
                        matches,
                        errors,
                    },
                    EngineAction::Launch { domain },
                )
            } else {
                (self, EngineAction::Wait)
            }
        } else if self.in_flight > 0 {
            (self, EngineAction::Wait)
        } else {
            let action = EngineAction::BatchDone { batch: self.batch, errors: self.batch_errors };
            let ScanEngine {
                batches,
                rules,
                concurrency,
                total,
                batch,
                next: _,
                in_flight,
                batch_errors: _,
                processed,
                tasks,
                matches,
                errors,
            } = self;
            (
                ScanEngine {
                    batches,
                    rules,
                    concurrency,
                    total,
                    batch: batch + 1,
                    next: 0,
                    in_flight,
                    batch_errors: 0,
                    processed,
                    tasks,
                    matches,
                    errors,
                },
                action,
            )
        }
    }

    /// Takes the outcome of a scan that has ended, as
    /// `ScanEngineView::report` says, and tells whether it was accepted.
    pub fn report(self, outcome: DomainOutcome) -> (r: (Self, bool))
        ensures
            r.0@ == self@.report(outcome),
            r.1 == self@.accepts(outcome),
            self@.consistent(),
            r.0@.consistent(),
    {
        proof {
            use_type_invariant(&self);
        }
        let ghost before = self@;
        if !(self.in_flight > 0 && outcome.tasks == self.rules && outcome.matches <= outcome.tasks) {
            return (self, false);
        }
        let failed: usize = match outcome.result {
            DomainResult::Scanned => 0,
            _ => 1,
        };
        let ScanEngine {
            batches,
            rules,
            concurrency,
            total,
            batch,
            next,
            in_flight,
            batch_errors,
            processed,
            tasks,
            matches,
            errors,
        } = self;
        proof {
            lemma_domains_in_grows(before.batches, before.batch as int, before.batches.len() as int);
            if before.batch < before.batches.len() {
                lemma_domains_in_grows(
                    before.batches,
                    (before.batch + 1) as int,
                    before.batches.len() as int,
                );
            }
            assert(processed < total);
            assert((processed + 1) * rules == processed * rules + rules) by (nonlinear_arith);
            assert((processed + 1) * rules <= usize::MAX * usize::MAX) by (nonlinear_arith)
                requires
                    processed + 1 <= usize::MAX,
                    rules <= usize::MAX,
            ;
            assert(usize::MAX * usize::MAX < u128::MAX) by (nonlinear_arith)
                requires
                    usize::MAX <= u64::MAX,
            ;
        }
        (
            ScanEngine {
                batches,
                rules,
                concurrency,
                total,
                batch,
                next,
                in_flight: in_flight - 1,
                batch_errors: batch_errors + failed,
                processed: processed + 1,
                tasks: tasks + rules as u128,
                matches: matches + outcome.matches as u128,
                errors: errors + failed,
            },
            true,
        )
    }
}

impl ScanEngine {
    /// The figures for the report on the progress.
    pub fn progress(&self) -> (p: Progress)
        ensures
            p == self@.progress(),
    {
        proof {
            use_type_invariant(self);
        }
        let ghost v = self@;
        let done = self.processed as u128;
        let total = self.total as u128;
        let rules = self.rules as u128;
        proof {
            lemma_domains_in_grows(v.batches, v.batch as int, v.batches.len() as int);
            if v.batch < v.batches.len() {
                lemma_domains_in_grows(v.batches, (v.batch + 1) as int, v.batches.len() as int);
            }
            assert(total * rules <= usize::MAX * usize::MAX) by (nonlinear_arith)
                requires
                    total <= usize::MAX,
                    rules <= usize::MAX,
            ;
            assert(usize::MAX * usize::MAX < u128::MAX) by (nonlinear_arith)
                requires
                    usize::MAX <= u64::MAX,
            ;
            assert(v.tasks <= total * rules) by (nonlinear_arith)
                requires
                    v.tasks == v.processed * v.rules,
                    v.processed <= total,
                    v.rules == rules,
            ;
        }
        let total_tasks = total * rules;
        let domains_percent = if total == 0 {
            0
        } else {
            done * 100 / total
        };
        let tasks_percent = if total_tasks == 0 {
            0
        } else {
            proof {
                assert(rules > 0 && total > 0) by (nonlinear_arith)
                    requires
                        total * rules != 0,
                        total >= 0,
                        rules >= 0,
                ;
                vstd::arithmetic::div_mod::lemma_div_multiples_vanish_quotient(
                    rules as int,
                    (done * 100) as int,
                    total as int,
                );
                assert(v.tasks * 100 == rules * (done * 100)) by (nonlinear_arith)
                    requires
                        v.tasks == done * rules,
                ;
                assert(total * rules == rules * total) by (nonlinear_arith);
            }
            domains_percent
        };
        Progress {
            domains_done: self.processed,
            total_domains: self.total,
            tasks_done: self.tasks,
            total_tasks,
            domains_percent,
            tasks_percent,
            complete: self.processed >= self.total && self.tasks >= total_tasks,
        }
    }

    /// How many scans are running.
    pub fn in_flight(&self) -> (n: usize)
        ensures
            n == self@.in_flight,
    {
        self.in_flight
    }

    /// How many batches there are.
    pub fn batch_count(&self) -> (n: usize)
        ensures
            n == self@.batches.len(),
    {
        self.batches.len()
    }
}

/// When the engine says that the scan is finished, every domain has been
/// processed, no scan is running, and each pair of a domain and a rule
/// has been accounted for once.
pub proof fn lemma_finished_is_complete(e: ScanEngineView)
    requires
        e.consistent(),
        e.poll().1 is Finished,
    ensures
        e.in_flight == 0,
        e.processed == e.total_domains(),
        e.tasks == e.total_domains() * e.rules,
{
}

/// Polling and reporting keep the engine consistent, and change neither
/// the batches nor the number of rules nor the concurrency.
pub proof fn lemma_engine_consistent(e: ScanEngineView, outcome: DomainOutcome)
    requires
        e.consistent(),
    ensures
        e.poll().0.consistent(),
        e.report(outcome).consistent(),
        e.poll().0.batches == e.batches,
        e.report(outcome).batches == e.batches,
        e.poll().0.processed == e.processed,
        e.report(outcome).processed >= e.processed,
{
    lemma_domains_in_grows(e.batches, e.batch as int, e.batches.len() as int);
    if e.batch < e.batches.len() {
        lemma_domains_in_grows(e.batches, (e.batch + 1) as int, e.batches.len() as int);
    }
    if e.accepts(outcome) {
        assert((e.processed + 1) * e.rules == e.processed * e.rules + e.rules)
            by (nonlinear_arith);
    }
}

/// A scan that is done holds one finding for each rule, in the order of
/// the rules and whether or not the rule was detected. A scan that did
/// not resolve holds none, and still accounts for every rule.
pub proof fn lemma_every_rule_accounted(s: DomainScanView)
    requires
        s.consistent(),
    ensures
        s.phase == Phase::Done ==> s.findings.len() == s.rules.len(),
        s.phase == Phase::Unresolved ==> s.findings.len() == 0,
        forall|j: int|
            0 <= j < s.findings.len() ==> #[trigger] s.findings[j] == finding_for(
                s.domain,
                s.rules[j],
                s.findings[j].detected,
            ),
        s.outcome(DomainResult::Scanned).tasks == s.rules.len(),
        s.outcome(DomainResult::Unresolved).tasks == s.rules.len(),
        s.matches <= s.findings.len(),
{
    s.findings.lemma_filter_len(|f: ScanFindingView| f.detected);
}

/// The domains of all batches, in the order of the batches.
pub open spec fn all_domains(batches: Seq<Seq<Seq<char>>>) -> Seq<Seq<char>> {
    batches.flatten_alt()
}

/// The domains of the first `m` batches are the first of all domains.
pub proof fn lemma_first_batches(batches: Seq<Seq<Seq<char>>>, m: int)
    requires
        0 <= m <= batches.len(),
    ensures
        domains_in(batches, m) <= all_domains(batches).len(),
        all_domains(batches).take(domains_in(batches, m) as int) == batches.take(m).flatten_alt(),
    decreases batches.len() - m,
{
    lemma_domains_in_flat(batches, m);
    if m == batches.len() {
        assert(batches.take(m) == batches);
        assert(all_domains(batches).take(all_domains(batches).len() as int) == all_domains(
            batches,
        ));
    } else {
        lemma_first_batches(batches, m + 1);
        lemma_domains_in_flat(batches, m + 1);
        let longer = batches.take(m + 1);
        assert(longer.drop_last() == batches.take(m));
        assert(longer.last() == batches[m]);
        let shorter = batches.take(m).flatten_alt();
        assert(longer.flatten_alt() == shorter + batches[m]);
        assert(all_domains(batches).take(shorter.len() as int) == longer.flatten_alt().take(
            shorter.len() as int,
        ));
        assert((shorter + batches[m]).take(shorter.len() as int) == shorter);
    }
}

/// The scans are started in the order of the list, each domain once: a
/// scan that the engine starts is that of the domain that follows those
/// started before, and nothing else that the engine does counts as a
/// start.
pub proof fn lemma_launch_order(e: ScanEngineView)
    requires
        e.consistent(),
    ensures
        e.launched() <= e.total_domains(),
        e.total_domains() == all_domains(e.batches).len(),
        match e.poll().1 {
            EngineActionView::Launch { domain } => {
                &&& e.launched() < e.total_domains()
                &&& domain == all_domains(e.batches)[e.launched() as int]
                &&& e.poll().0.launched() == e.launched() + 1
            },
            _ => e.poll().0.launched() == e.launched(),
        },
{
    let b = e.batch as int;
    let n = e.batches.len() as int;
    lemma_first_batches(e.batches, n);
    lemma_domains_in_flat(e.batches, n);
    assert(e.batches.take(n) == e.batches);
    lemma_domains_in_grows(e.batches, b, n);
    if b < n {
        lemma_domains_in_grows(e.batches, b + 1, n);
        lemma_first_batches(e.batches, b + 1);
        lemma_domains_in_flat(e.batches, b);
        let longer = e.batches.take(b + 1);
        assert(longer.drop_last() == e.batches.take(b));
        assert(longer.last() == e.batches[b]);
        let shorter = e.batches.take(b).flatten_alt();
        assert(longer.flatten_alt() == shorter + e.batches[b]);
        if e.next < e.batches[b].len() {
            let at = (shorter.len() + e.next) as int;
            assert(all_domains(e.batches).take(domains_in(e.batches, b + 1) as int)[at]
                == all_domains(e.batches)[at]);
            assert((shorter + e.batches[b])[at] == e.batches[b][e.next as int]);
        }
    }
}

/// How many events a scan can take at most before it has ended.
pub open spec fn steps_left(s: DomainScanView) -> nat {
    let n = s.rules.len() as int;
    (match s.phase {
        Phase::Pending => 5 * n + 2,
        Phase::Resolving => 5 * n + 1,
        Phase::Head { rule } => 5 * (n - rule),
        Phase::Get { rule } => 5 * (n - rule) - 1,
        Phase::Body { rule } => 5 * (n - rule) - 2,
        Phase::Store { rule } => 5 * (n - rule) - 3,
        Phase::Backoff { rule } => 5 * (n - rule) - 4,
        Phase::Unresolved | Phase::Done | Phase::Failed => 0,
    }) as nat
}

/// The scan of a domain ends: every event that it takes brings it nearer
/// to its end, which comes after at most five events to a rule and two
/// more. An event that it does not take changes nothing, and a scan that
/// has ended takes none.
pub proof fn lemma_scan_ends(s: DomainScanView, event: ScanEventView)
    requires
        s.consistent(),
    ensures
        s.step(event).1 != ScanActionView::Unexpected ==> steps_left(s.step(event).0) < steps_left(s),
        s.step(event).1 == ScanActionView::Unexpected ==> s.step(event).0 == s,
        steps_left(s) == 0 ==> s.step(event).1 == ScanActionView::Unexpected,
        s.step(event).1 is Finish <==> steps_left(s) > 0 && steps_left(s.step(event).0) == 0,
{
}

/// The work that the engine has before it: two steps for each domain that
/// has not been started, one for each scan that runs, and one for each
/// batch that is not through.
pub open spec fn work_left(e: ScanEngineView) -> int {
    2 * (e.total_domains() - e.launched()) + e.in_flight + (e.batches.len() - e.batch)
}

/// The engine comes to its end. It waits only while a scan is running,
/// so that a report is always due when it waits. Each start of a scan,
/// each report that it takes and each batch that it closes leaves less
/// work, and when none is left it says that the scan is finished.
pub proof fn lemma_engine_ends(e: ScanEngineView, outcome: DomainOutcome)
    requires
        e.consistent(),
    ensures
        work_left(e) >= 0,
        e.poll().1 is Wait ==> e.in_flight > 0 && e.poll().0 == e,
        e.poll().1 is Launch || e.poll().1 is BatchDone ==> work_left(e.poll().0) == work_left(e) - 1,
        e.poll().1 is Finished <==> work_left(e) == 0,
        e.accepts(outcome) ==> work_left(e.report(outcome)) == work_left(e) - 1,
        !e.accepts(outcome) ==> e.report(outcome) == e,
{
    let b = e.batch as int;
    let n = e.batches.len() as int;
    lemma_domains_in_grows(e.batches, b, n);
    if b < n {
        lemma_domains_in_grows(e.batches, b + 1, n);
    }
}

} // verus!
