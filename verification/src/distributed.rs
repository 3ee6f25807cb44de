//! The protocol between a master and its workers: the messages, their
//! framing on the wire, the master's registry of workers and the two
//! sides' handling of messages.

use crate::keyed::{
    distinct, entry, lemma_position, lemma_position_is, lemma_removed, lemma_upserted, position,
    removed, upserted,
};
use crate::utils::{replace_at, texts};
use vstd::prelude::*;

verus! {

/// The outcome of checking one rule on one domain.
#[derive(Debug)]
pub struct ScanFinding {
    pub domain: String,
    pub rule_name: String,
    pub matched_path: String,
    pub detected: bool,
}

/// A finding as plain values.
pub struct ScanFindingView {
    pub domain: Seq<char>,
    pub rule_name: Seq<char>,
    pub matched_path: Seq<char>,
    pub detected: bool,
}

impl View for ScanFinding {
    type V = ScanFindingView;

    open spec fn view(&self) -> ScanFindingView {
        ScanFindingView {
            domain: self.domain@,
            rule_name: self.rule_name@,
            matched_path: self.matched_path@,
            detected: self.detected,
        }
    }
}

impl Clone for ScanFinding {
    fn clone(&self) -> (r: Self)
        ensures
            r == *self,
    {
        ScanFinding {
            domain: self.domain.clone(),
            rule_name: self.rule_name.clone(),
            matched_path: self.matched_path.clone(),
            detected: self.detected,
        }
    }
}

/// The views of a sequence of findings.
pub open spec fn finding_views(s: Seq<ScanFinding>) -> Seq<ScanFindingView> {
    s.map_values(|f: ScanFinding| f@)
}

/// The settings of a worker.
#[derive(Debug)]
pub struct WorkerConfig {
    /// The worker's id.
    pub worker_id: String,
    /// The address of the master.
    pub master: String,
    /// How many domains the worker scans at a time.
    pub concurrency: usize,
}

impl Clone for WorkerConfig {
    fn clone(&self) -> (r: Self)
        ensures
            r == *self,
    {
        WorkerConfig {
            worker_id: self.worker_id.clone(),
            master: self.master.clone(),
            concurrency: self.concurrency,
        }
    }
}

/// What a worker can do, as it says when it registers.
#[derive(Debug)]
pub struct WorkerCapabilities {
    /// How many domains the worker scans at a time.
    pub max_concurrency: usize,
    /// The version of the worker.
    pub version: String,
}

/// The capabilities of a worker as plain values.
pub struct WorkerCapabilitiesView {
    pub max_concurrency: usize,
    pub version: Seq<char>,
}

impl View for WorkerCapabilities {
    type V = WorkerCapabilitiesView;

    open spec fn view(&self) -> WorkerCapabilitiesView {
        WorkerCapabilitiesView { max_concurrency: self.max_concurrency, version: self.version@ }
    }
}

impl Clone for WorkerCapabilities {
    fn clone(&self) -> (r: Self)
        ensures
            r == *self,
    {
        WorkerCapabilities { max_concurrency: self.max_concurrency, version: self.version.clone() }
    }
}

/// What a worker is doing, as its heartbeats say.
#[derive(Debug, Clone, Copy, PartialEq, Eq, Structural)]
pub struct WorkerStatus {
    /// The batches that are being scanned.
    pub active_scans: usize,
    /// The batches that have been scanned.
    pub completed_scans: usize,
    /// The findings that have been sent.
    pub findings: usize,
    /// Seconds since the worker started.
    pub uptime_seconds: u64,
}

impl Default for WorkerStatus {
    fn default() -> (s: Self)
        ensures
            s == idle_status(),
    {
        WorkerStatus { active_scans: 0, completed_scans: 0, findings: 0, uptime_seconds: 0 }
    }
}

/// The status of a worker that has done nothing yet.
pub open spec fn idle_status() -> WorkerStatus {
    WorkerStatus { active_scans: 0, completed_scans: 0, findings: 0, uptime_seconds: 0 }
}

/// A message between a worker and the master.
#[derive(Debug)]
pub enum WorkerMessage {
    /// A worker makes itself known. The first message on a connection.
    Register { worker_id: String, capabilities: WorkerCapabilities },
    /// A status, pushed or asked for.
    Heartbeat { worker_id: String, status: WorkerStatus },
    /// The master hands a batch of domains to a worker.
    ScanRequest { domains: Vec<String>, batch_id: String },
    /// A worker answers a request with the findings of the batch.
    ScanResult { worker_id: String, batch_id: String, findings: Vec<ScanFinding> },
    /// The receiver is to stop.
    Shutdown { worker_id: String },
}

/// A message as plain values.
pub enum WorkerMessageView {
    Register { worker_id: Seq<char>, capabilities: WorkerCapabilitiesView },
    Heartbeat { worker_id: Seq<char>, status: WorkerStatus },
    ScanRequest { domains: Seq<Seq<char>>, batch_id: Seq<char> },
    ScanResult { worker_id: Seq<char>, batch_id: Seq<char>, findings: Seq<ScanFindingView> },
    Shutdown { worker_id: Seq<char> },
}

impl View for WorkerMessage {
    type V = WorkerMessageView;

    open spec fn view(&self) -> WorkerMessageView {
        match self {
            WorkerMessage::Register { worker_id, capabilities } => WorkerMessageView::Register {
                worker_id: worker_id@,
                capabilities: capabilities@,
            },
            WorkerMessage::Heartbeat { worker_id, status } => WorkerMessageView::Heartbeat {
                worker_id: worker_id@,
                status: *status,
            },
            WorkerMessage::ScanRequest { domains, batch_id } => WorkerMessageView::ScanRequest {
                domains: texts(domains@),
                batch_id: batch_id@,
            },
            WorkerMessage::ScanResult { worker_id, batch_id, findings } => WorkerMessageView::ScanResult {
                worker_id: worker_id@,
                batch_id: batch_id@,
                findings: finding_views(findings@),
            },
            WorkerMessage::Shutdown { worker_id } => WorkerMessageView::Shutdown {
                worker_id: worker_id@,
            },
        }
    }
}

/// A rule in the short form in which it is handed to workers.
#[derive(Debug, Clone)]
pub struct ScanRule {
    pub name: String,
    pub paths: Vec<String>,
    pub severity: String,
}

/// A message from the master in answer to a worker.
#[derive(Debug, Clone)]
pub enum MasterMessage {
    /// Whether the registration was accepted.
    RegisterResponse { accepted: bool, message: Option<String> },
    /// Work for the worker.
    WorkAssignment { batch_id: String, domains: Vec<String>, rules: Vec<ScanRule> },
    /// There is no work.
    NoWorkAvailable,
    /// The worker is to stop.
    Shutdown { reason: Option<String> },
}

/// The four bytes of a length, the most significant first.
pub open spec fn be32(n: nat) -> Seq<u8> {
    seq![
        (n / 0x100_0000 % 0x100) as u8,
        (n / 0x1_0000 % 0x100) as u8,
        (n / 0x100 % 0x100) as u8,
        (n % 0x100) as u8,
    ]
}

/// The length that four bytes stand for, the most significant first.
pub open spec fn be32_value(b: Seq<u8>) -> nat {
    (b[0] * 0x100_0000 + b[1] * 0x1_0000 + b[2] * 0x100 + b[3]) as nat
}

/// A message on the wire: the length of the payload in four bytes, then
/// the payload.
pub open spec fn framed(payload: Seq<u8>) -> Seq<u8> {
    be32(payload.len()) + payload
}

/// The first message in a buffer and the number of bytes it takes, or
/// `None` while the buffer does not hold a whole message.
pub open spec fn unframed(buffer: Seq<u8>) -> Option<(Seq<u8>, nat)> {
    if buffer.len() < 4 {
        None
    } else {
        let n = be32_value(buffer.take(4));
        if buffer.len() < 4 + n {
            None
        } else {
            Some((buffer.subrange(4, (4 + n) as int), 4 + n))
        }
    }
}

/// How many bytes a buffer lacks to hold its first message whole: what is
/// missing of the four bytes of the length, or of the payload once the
/// length is there. Zero where the message is whole.
pub open spec fn missing_bytes(buffer: Seq<u8>) -> nat {
    if buffer.len() < 4 {
        (4 - buffer.len()) as nat
    } else {
        let n = be32_value(buffer.take(4));
        if buffer.len() < 4 + n {
            (4 + n - buffer.len()) as nat
        } else {
            0
        }
    }
}

/// The length in four bytes stands for the length.
pub proof fn lemma_be32_value(n: nat)
    requires
        n <= u32::MAX,
    ensures
        be32(n).len() == 4,
        be32_value(be32(n)) == n,
{
}

/// What is framed comes out unframed, whatever follows it in the buffer.
pub proof fn lemma_unframe_framed(payload: Seq<u8>, rest: Seq<u8>)
    requires
        payload.len() <= u32::MAX,
    ensures
        unframed(framed(payload) + rest) == Some((payload, 4 + payload.len())),
        framed(payload).len() == 4 + payload.len(),
{
    let buffer = framed(payload) + rest;
    lemma_be32_value(payload.len());
    assert(buffer.take(4) == be32(payload.len()));
    assert(buffer.subrange(4, (4 + payload.len()) as int) == payload);
}

/// Puts a payload into a frame. A payload whose length does not fit in
/// four bytes cannot be framed.
pub fn frame(payload: &[u8]) -> (r: Option<Vec<u8>>)
    ensures
        match r {
            Some(f) => payload@.len() <= u32::MAX && f@ == framed(payload@),
            None => payload@.len() > u32::MAX,
        },
{
    let n = payload.len();
    if n > 0xffff_ffff {
        return None;
    }
    let mut out: Vec<u8> = Vec::new();
    out.push((n / 0x100_0000 % 0x100) as u8);
    out.push((n / 0x1_0000 % 0x100) as u8);
    out.push((n / 0x100 % 0x100) as u8);
    out.push((n % 0x100) as u8);
    assert(out@ == be32(n as nat));
    let mut i: usize = 0;
    while i < n
        invariant
            i <= n == payload@.len(),
            out@ == be32(n as nat) + payload@.take(i as int),
        decreases n - i,
    {
        out.push(payload[i]);
        assert(payload@.take(i + 1) == payload@.take(i as int).push(payload@[i as int]));
        i += 1;
    }
    assert(payload@.take(n as int) == payload@);
    Some(out)
}

/// What a buffer of received bytes holds.
#[derive(Debug)]
pub enum Unframed {
    /// No whole message yet: so many bytes are missing.
    Incomplete { missing: usize },
    /// A message, and the number of bytes of the buffer that it took.
    Message { payload: Vec<u8>, consumed: usize },
}

/// Takes the first message out of a buffer of received bytes.
pub fn unframe(buffer: &[u8]) -> (r: Unframed)
    ensures
        match r {
            Unframed::Incomplete { missing } => unframed(buffer@).is_none() && missing
                == missing_bytes(buffer@) && missing > 0,
            Unframed::Message { payload, consumed } => unframed(buffer@) == Some(
                (payload@, consumed as nat),
            ),
        },
{
    let len = buffer.len();
    if len < 4 {
        return Unframed::Incomplete { missing: 4 - len };
    }
    let n: u64 = (buffer[0] as u64) * 0x100_0000 + (buffer[1] as u64) * 0x1_0000 + (buffer[2] as u64)
        * 0x100 + (buffer[3] as u64);
    assert(n == be32_value(buffer@.take(4)));
    let have = (len - 4) as u64;
    if have < n {
        return Unframed::Incomplete { missing: (n - have) as usize };
    }
    let end = 4 + n as usize;
    let mut payload: Vec<u8> = Vec::new();
    let mut i: usize = 4;
    while i < end
        invariant
            4 <= i <= end <= buffer@.len(),
            payload@ == buffer@.subrange(4, i as int),
        decreases end - i,
    {
        payload.push(buffer[i]);
        i += 1;
    }
    Unframed::Message { payload, consumed: end }
}

/// A worker that has registered with the master.
#[derive(Debug)]
pub struct ConnectedWorker {
    /// The worker's id.
    pub id: String,
    /// What the worker said it can do.
    pub capabilities: WorkerCapabilities,
    /// The latest status from its heartbeats.
    pub status: WorkerStatus,
    /// The connection on which it can be reached.
    pub connection: u64,
}

/// A registered worker as plain values.
pub struct ConnectedWorkerView {
    pub id: Seq<char>,
    pub capabilities: WorkerCapabilitiesView,
    pub status: WorkerStatus,
    pub connection: u64,
}

impl View for ConnectedWorker {
    type V = ConnectedWorkerView;

    open spec fn view(&self) -> ConnectedWorkerView {
        ConnectedWorkerView {
            id: self.id@,
            capabilities: self.capabilities@,
            status: self.status,
            connection: self.connection,
        }
    }
}

impl Clone for ConnectedWorker {
    fn clone(&self) -> (r: Self)
        ensures
            r == *self,
    {
        ConnectedWorker {
            id: self.id.clone(),
            capabilities: self.capabilities.clone(),
            status: self.status,
            connection: self.connection,
        }
    }
}

/// The views of a sequence of workers.
pub open spec fn worker_views(s: Seq<ConnectedWorker>) -> Seq<ConnectedWorkerView> {
    s.map_values(|w: ConnectedWorker| w@)
}

/// The key of a worker in the registry: its id.
pub open spec fn by_id() -> spec_fn(ConnectedWorkerView) -> Seq<char> {
    |w: ConnectedWorkerView| w.id
}

/// Whether no two workers have the same id.
pub open spec fn distinct_ids(workers: Seq<ConnectedWorkerView>) -> bool {
    distinct(workers, by_id())
}

/// The worker with the given id, if there is one.
pub open spec fn worker_with(workers: Seq<ConnectedWorkerView>, id: Seq<char>) -> Option<
    ConnectedWorkerView,
> {
    entry(workers, by_id(), id)
}

/// The workers after one has registered: it takes the place of the worker
/// with its id, or comes last where there is none.
pub open spec fn registered(workers: Seq<ConnectedWorkerView>, w: ConnectedWorkerView) -> Seq<
    ConnectedWorkerView,
> {
    upserted(workers, by_id(), w)
}

/// The workers without the one with the given id.
pub open spec fn unregistered(workers: Seq<ConnectedWorkerView>, id: Seq<char>) -> Seq<
    ConnectedWorkerView,
> {
    removed(workers, by_id(), id)
}

/// The workers with the status of one of them replaced.
pub open spec fn with_status(workers: Seq<ConnectedWorkerView>, id: Seq<char>, status: WorkerStatus) -> Seq<
    ConnectedWorkerView,
> {
    match worker_with(workers, id) {
        Some(w) => registered(workers, ConnectedWorkerView { status, ..w }),
        None => workers,
    }
}

/// The workers that the master knows, each under its id.
#[derive(Debug)]
pub struct WorkerRegistry {
    workers: Vec<ConnectedWorker>,
}

impl View for WorkerRegistry {
    type V = Seq<ConnectedWorkerView>;

    closed spec fn view(&self) -> Seq<ConnectedWorkerView> {
        worker_views(self.workers@)
    }
}

impl WorkerRegistry {
    #[verifier::type_invariant]
    spec fn inv(&self) -> bool {
        distinct_ids(self@)
    }

    /// A registry without workers.
    pub fn new() -> (r: Self)
        ensures
            r@ == Seq::<ConnectedWorkerView>::empty(),
    {
        let workers: Vec<ConnectedWorker> = Vec::new();
        assert(worker_views(workers@) == Seq::<ConnectedWorkerView>::empty());
        WorkerRegistry { workers }
    }

    /// The number of workers.
    pub fn len(&self) -> (n: usize)
        ensures
            n == self@.len(),
            distinct_ids(self@),
    {
        proof {
            use_type_invariant(self);
        }
        self.workers.len()
    }

    /// Whether there is no worker.
    pub fn is_empty(&self) -> (b: bool)
        ensures
            b == (self@.len() == 0),
    {
        self.workers.len() == 0
    }

    fn find(&self, id: &str) -> (i: usize)
        ensures
            i == position(self@, by_id(), id@),
            i <= self.workers.len(),
    {
        let ghost all = self@;
        let mut i: usize = 0;
        while i < self.workers.len()
            invariant
                i <= self.workers.len(),
                all == worker_views(self.workers@),
                forall|k: int| 0 <= k < i ==> by_id()(#[trigger] all[k]) != id@,
            decreases self.workers.len() - i,
        {
            assert(all[i as int] == self.workers@[i as int]@);
            if crate::text::same_text(self.workers[i].id.as_str(), id) {
                proof {
                    lemma_position_is(all, by_id(), id@, i as int);
                }
                return i;
            }
            i += 1;
        }
        proof {
            lemma_position_is(all, by_id(), id@, i as int);
        }
        i
    }

    /// The worker with the given id, if it is registered.
    pub fn get(&self, id: &str) -> (r: Option<&ConnectedWorker>)
        ensures
            match r {
                Some(w) => worker_with(self@, id@) == Some(w@),
                None => worker_with(self@, id@).is_none(),
            },
    {
        let i = self.find(id);
        if i < self.workers.len() {
            assert(self@[i as int] == self.workers@[i as int]@);
            Some(&self.workers[i])
        } else {
            None
        }
    }

    /// The workers, in the order in which their ids were first registered.
    pub fn workers(&self) -> (r: &Vec<ConnectedWorker>)
        ensures
            worker_views(r@) == self@,
            distinct_ids(self@),
    {
        proof {
            use_type_invariant(self);
        }
        &self.workers
    }

    /// Registers a worker. A worker that was registered under the same id
    /// is replaced and returned; there is never more than one worker to
    /// an id.
    pub fn register(&mut self, worker: ConnectedWorker) -> (replaced: Option<ConnectedWorker>)
        ensures
            final(self)@ == registered(old(self)@, worker@),
            distinct_ids(final(self)@),
            match replaced {
                Some(w) => worker_with(old(self)@, worker@.id) == Some(w@),
                None => worker_with(old(self)@, worker@.id).is_none(),
            },
    {
        proof {
            use_type_invariant(&*self);
            lemma_position(self@, by_id(), worker@.id);
            lemma_upserted(self@, by_id(), worker@);
        }
        let ghost before = self@;
        let i = self.find(worker.id.as_str());
        let mut all: Vec<ConnectedWorker> = Vec::new();
        core::mem::swap(&mut all, &mut self.workers);
        if i < all.len() {
            assert(before[i as int] == all@[i as int]@);
            let previous = replace_at(&mut all, i, worker);
            assert(worker_views(all@) == before.update(i as int, worker@));
            self.workers = all;
            Some(previous)
        } else {
            all.push(worker);
            assert(worker_views(all@) == before.push(worker@));
            self.workers = all;
            None
        }
    }

    /// Takes the worker with the given id out of the registry and returns
    /// it, if it is registered.
    pub fn remove(&mut self, id: &str) -> (removed: Option<ConnectedWorker>)
        ensures
            final(self)@ == unregistered(old(self)@, id@),
            distinct_ids(final(self)@),
            match removed {
                Some(w) => worker_with(old(self)@, id@) == Some(w@),
                None => worker_with(old(self)@, id@).is_none(),
            },
    {
        proof {
            use_type_invariant(&*self);
            lemma_position(self@, by_id(), id@);
            lemma_removed(self@, by_id(), id@);
        }
        let ghost before = self@;
        let i = self.find(id);
        if i < self.workers.len() {
            let mut all: Vec<ConnectedWorker> = Vec::new();
            core::mem::swap(&mut all, &mut self.workers);
            assert(before[i as int] == all@[i as int]@);
            let previous = all.remove(i);
            assert(worker_views(all@) == before.remove(i as int));
            self.workers = all;
            Some(previous)
        } else {
            None
        }
    }

    /// Records the status of the worker with the given id, and tells
    /// whether it is registered.
    pub fn update_status(&mut self, id: &str, status: WorkerStatus) -> (known: bool)
        ensures
            final(self)@ == with_status(old(self)@, id@, status),
            distinct_ids(final(self)@),
            known == worker_with(old(self)@, id@).is_some(),
    {
        proof {
            use_type_invariant(&*self);
            lemma_position(self@, by_id(), id@);
        }
        let ghost before = self@;
        let i = self.find(id);
        if i < self.workers.len() {
            let mut all: Vec<ConnectedWorker> = Vec::new();
            core::mem::swap(&mut all, &mut self.workers);
            assert(before[i as int] == all@[i as int]@);
            let mut w = all[i].clone();
            w.status = status;
            proof {
                lemma_upserted(before, by_id(), w@);
            }
            replace_at(&mut all, i, w);
            assert(worker_views(all@) == before.update(i as int, w@));
            self.workers = all;
            true
        } else {
            false
        }
    }
}

/// Where the master stands with one connection.
#[derive(Debug)]
pub enum ConnState {
    /// Nothing has come yet; only a registration is accepted.
    AwaitingRegister,
    /// The worker on the connection has registered under this id.
    Registered { worker_id: String },
    /// The connection is done with.
    Closed,
}

/// The state of a connection as plain values.
pub enum ConnStateView {
    AwaitingRegister,
    Registered { worker_id: Seq<char> },
    Closed,
}

impl View for ConnState {
    type V = ConnStateView;

    open spec fn view(&self) -> ConnStateView {
        match self {
            ConnState::AwaitingRegister => ConnStateView::AwaitingRegister,
            ConnState::Registered { worker_id } => ConnStateView::Registered {
                worker_id: worker_id@,
            },
            ConnState::Closed => ConnStateView::Closed,
        }
    }
}

/// What the master does with a connection after a message.
#[derive(Debug)]
pub enum MasterAction {
    /// Send the message on the connection.
    Send { message: WorkerMessage },
    /// Take in the findings of a batch.
    Collect { worker_id: String, batch_id: String, findings: Vec<ScanFinding> },
    /// Close the connection: the worker has said goodbye.
    Close,
    /// Close the connection: the message broke the protocol.
    Reject,
    /// Nothing.
    Nothing,
}

/// An action of the master as plain values.
pub enum MasterActionView {
    Send { message: WorkerMessageView },
    Collect { worker_id: Seq<char>, batch_id: Seq<char>, findings: Seq<ScanFindingView> },
    Close,
    Reject,
    Nothing,
}

impl View for MasterAction {
    type V = MasterActionView;

    open spec fn view(&self) -> MasterActionView {
        match self {
            MasterAction::Send { message } => MasterActionView::Send { message: message@ },
            MasterAction::Collect { worker_id, batch_id, findings } => MasterActionView::Collect {
                worker_id: worker_id@,
                batch_id: batch_id@,
                findings: finding_views(findings@),
            },
            MasterAction::Close => MasterActionView::Close,
            MasterAction::Reject => MasterActionView::Reject,
            MasterAction::Nothing => MasterActionView::Nothing,
        }
    }
}

/// The workers after a connection has ended: the worker that registered
/// on it is taken out, unless it has since registered on another
/// connection.
pub open spec fn released(workers: Seq<ConnectedWorkerView>, state: ConnStateView, connection: u64) -> Seq<
    ConnectedWorkerView,
> {
    match state {
        ConnStateView::Registered { worker_id } => match worker_with(workers, worker_id) {
            Some(w) => if w.connection == connection {
                unregistered(workers, worker_id)
            } else {
                workers
            },
            None => workers,
        },
        _ => workers,
    }
}

/// What the master makes of a message on a connection: the state of the
/// connection, the action and the workers afterwards.
///
/// The first message must be a registration: the worker is entered in the
/// registry under its id, in the place of any worker of that id, and is
/// sent a heartbeat. Anything else first breaks the protocol. From a
/// registered worker the master takes heartbeats, whose status it
/// records, results, whose findings it hands on, and a goodbye. A message
/// under another id than the registered one, a second registration and a
/// request break the protocol. Breaking it ends the connection, and the
/// connection only.
pub open spec fn master_step(
    workers: Seq<ConnectedWorkerView>,
    state: ConnStateView,
    connection: u64,
    message: WorkerMessageView,
) -> (ConnStateView, MasterActionView, Seq<ConnectedWorkerView>) {
    match state {
        ConnStateView::AwaitingRegister => match message {
            WorkerMessageView::Register { worker_id, capabilities } => (
                ConnStateView::Registered { worker_id },
                MasterActionView::Send {
                    message: WorkerMessageView::Heartbeat { worker_id, status: idle_status() },
                },
                registered(
                    workers,
                    ConnectedWorkerView {
                        id: worker_id,
                        capabilities,
                        status: idle_status(),
                        connection,
                    },
                ),
            ),
            _ => (ConnStateView::Closed, MasterActionView::Reject, workers),
        },
        ConnStateView::Registered { worker_id: id } => match message {
            WorkerMessageView::Heartbeat { worker_id, status } if worker_id == id => (
                state,
                MasterActionView::Nothing,
                with_status(workers, id, status),
            ),
            WorkerMessageView::ScanResult { worker_id, batch_id, findings } if worker_id == id => (
                state,
                MasterActionView::Collect { worker_id, batch_id, findings },
                workers,
            ),
            WorkerMessageView::Shutdown { worker_id } if worker_id == id => (
                ConnStateView::Closed,
                MasterActionView::Close,
                released(workers, state, connection),
            ),
            _ => (
                ConnStateView::Closed,
                MasterActionView::Reject,
                released(workers, state, connection),
            ),
        },
        ConnStateView::Closed => (ConnStateView::Closed, MasterActionView::Nothing, workers),
    }
}

/// Takes the worker of an ended connection out of the registry, as
/// `released` says, and returns the state of the connection: closed.
pub fn handle_disconnect(registry: &mut WorkerRegistry, state: ConnState, connection: u64) -> (r:
    ConnState)
    ensures
        r@ == ConnStateView::Closed,
        final(registry)@ == released(old(registry)@, state@, connection),
        distinct_ids(final(registry)@),
{
    proof {
        use_type_invariant(&*registry);
    }
    match state {
        ConnState::Registered { worker_id } => {
            let own = match registry.get(worker_id.as_str()) {
                Some(w) => w.connection == connection,
                None => false,
            };
            if own {
                registry.remove(worker_id.as_str());
            }
        },
        _ => {},
    }
    ConnState::Closed
}

/// Handles a message that came on a connection, as `master_step` says.
pub fn handle_worker_message(
    registry: &mut WorkerRegistry,
    state: ConnState,
    connection: u64,
    message: WorkerMessage,
) -> (r: (ConnState, MasterAction))
    ensures
        (r.0@, r.1@, final(registry)@) == master_step(
            old(registry)@,
            state@,
            connection,
            message@,
        ),
        distinct_ids(final(registry)@),
{
    proof {
        use_type_invariant(&*registry);
    }
    match state {
        ConnState::AwaitingRegister => match message {
            WorkerMessage::Register { worker_id, capabilities } => {
                let worker = ConnectedWorker {
                    id: worker_id.clone(),
                    capabilities,
                    status: WorkerStatus::default(),
                    connection,
                };
                registry.register(worker);
                let reply = WorkerMessage::Heartbeat {
                    worker_id: worker_id.clone(),
                    status: WorkerStatus::default(),
                };
                (ConnState::Registered { worker_id }, MasterAction::Send { message: reply })
            },
            _ => (ConnState::Closed, MasterAction::Reject),
        },
        ConnState::Registered { worker_id: id } => {
            match message {
                WorkerMessage::Heartbeat { worker_id, status } => {
                    if worker_id == id {
                        registry.update_status(id.as_str(), status);
                        return (ConnState::Registered { worker_id: id }, MasterAction::Nothing);
                    }
                },
                WorkerMessage::ScanResult { worker_id, batch_id, findings } => {
                    if worker_id == id {
                        return (
                            ConnState::Registered { worker_id: id },
                            MasterAction::Collect { worker_id, batch_id, findings },
                        );
                    }
                },
                WorkerMessage::Shutdown { worker_id } => {
                    if worker_id == id {
                        let closed = handle_disconnect(
                            registry,
                            ConnState::Registered { worker_id: id },
                            connection,
                        );
                        return (closed, MasterAction::Close);
                    }
                },
                _ => {},
            }
            let closed = handle_disconnect(
                registry,
                ConnState::Registered { worker_id: id },
                connection,
            );
            (closed, MasterAction::Reject)
        },
        ConnState::Closed => (ConnState::Closed, MasterAction::Nothing),
    }
}

/// What it takes to stop a worker: the connection to write to, and the
/// message to write.
pub open spec fn stop_order(workers: Seq<ConnectedWorkerView>, id: Seq<char>) -> Option<
    (u64, WorkerMessageView),
> {
    match worker_with(workers, id) {
        Some(w) => Some((w.connection, WorkerMessageView::Shutdown { worker_id: id })),
        None => None,
    }
}

/// The order to stop the worker with the given id: the connection on
/// which it is reached and the message for it. `None` where no worker is
/// registered under the id.
pub fn stop_worker(registry: &WorkerRegistry, worker_id: &str) -> (r: Option<(u64, WorkerMessage)>)
    ensures
        match r {
            Some((connection, message)) => stop_order(registry@, worker_id@) == Some(
                (connection, message@),
            ),
            None => stop_order(registry@, worker_id@).is_none(),
        },
{
    match registry.get(worker_id) {
        Some(w) => Some((w.connection, WorkerMessage::Shutdown { worker_id: worker_id.to_owned() })),
        None => None,
    }
}

/// What the master reports of one worker.
#[derive(Debug)]
pub struct WorkerReport {
    pub id: String,
    pub active_scans: usize,
    pub completed_scans: usize,
    pub findings: usize,
    pub max_concurrency: usize,
}

/// The report on a worker as plain values.
pub struct WorkerReportView {
    pub id: Seq<char>,
    pub active_scans: usize,
    pub completed_scans: usize,
    pub findings: usize,
    pub max_concurrency: usize,
}

impl View for WorkerReport {
    type V = WorkerReportView;

    open spec fn view(&self) -> WorkerReportView {
        WorkerReportView {
            id: self.id@,
            active_scans: self.active_scans,
            completed_scans: self.completed_scans,
            findings: self.findings,
            max_concurrency: self.max_concurrency,
        }
    }
}

/// The report on one worker.
pub open spec fn report_of(w: ConnectedWorkerView) -> WorkerReportView {
    WorkerReportView {
        id: w.id,
        active_scans: w.status.active_scans,
        completed_scans: w.status.completed_scans,
        findings: w.status.findings,
        max_concurrency: w.capabilities.max_concurrency,
    }
}

/// The report on every registered worker, in the order of the registry.
pub fn worker_status(registry: &WorkerRegistry) -> (r: Vec<WorkerReport>)
    ensures
        r@.map_values(|w: WorkerReport| w@) == registry@.map_values(
            |w: ConnectedWorkerView| report_of(w),
        ),
{
    let workers = registry.workers();
    let mut out: Vec<WorkerReport> = Vec::new();
    let mut i: usize = 0;
    while i < workers.len()
        invariant
            i <= workers.len(),
            worker_views(workers@) == registry@,
            out@.map_values(|w: WorkerReport| w@) == registry@.take(i as int).map_values(
                |w: ConnectedWorkerView| report_of(w),
            ),
        decreases workers.len() - i,
    {
        let w = &workers[i];
        let report = WorkerReport {
            id: w.id.clone(),
            active_scans: w.status.active_scans,
            completed_scans: w.status.completed_scans,
            findings: w.status.findings,
            max_concurrency: w.capabilities.max_concurrency,
        };
        proof {
            assert(registry@[i as int] == workers@[i as int]@);
            assert(registry@.take(i + 1) == registry@.take(i as int).push(registry@[i as int]));
            assert(registry@.take(i as int).push(registry@[i as int]).map_values(
                |w: ConnectedWorkerView| report_of(w),
            ) == registry@.take(i as int).map_values(|w: ConnectedWorkerView| report_of(w)).push(
                report@,
            ));
        }
        let ghost before = out@.map_values(|w: WorkerReport| w@);
        out.push(report);
        assert(out@.map_values(|w: WorkerReport| w@) == before.push(report@));
        i += 1;
    }
    assert(registry@.take(workers.len() as int) == registry@);
    out
}

/// Where a worker stands.
#[derive(Debug)]
pub enum WorkerState {
    /// The connection to the master is being made.
    Connecting,
    /// The registration is being sent.
    Registering,
    /// The worker waits for work.
    Idle,
    /// The worker scans a batch.
    Scanning { batch_id: String },
    /// The worker was told to stop and finishes its batch first.
    ShuttingDown { batch_id: String },
    /// The worker has stopped.
    Closed,
}

/// The state of a worker as plain values.
pub enum WorkerStateView {
    Connecting,
    Registering,
    Idle,
    Scanning { batch_id: Seq<char> },
    ShuttingDown { batch_id: Seq<char> },
    Closed,
}

impl View for WorkerState {
    type V = WorkerStateView;

    open spec fn view(&self) -> WorkerStateView {
        match self {
            WorkerState::Connecting => WorkerStateView::Connecting,
            WorkerState::Registering => WorkerStateView::Registering,
            WorkerState::Idle => WorkerStateView::Idle,
            WorkerState::Scanning { batch_id } => WorkerStateView::Scanning { batch_id: batch_id@ },
            WorkerState::ShuttingDown { batch_id } => WorkerStateView::ShuttingDown {
                batch_id: batch_id@,
            },
            WorkerState::Closed => WorkerStateView::Closed,
        }
    }
}

/// What happens to a worker.
#[derive(Debug)]
pub enum WorkerEvent {
    /// The connection to the master stands.
    Connected,
    /// The registration has been sent.
    RegistrationSent,
    /// A message came from the master.
    Received { message: WorkerMessage },
    /// The scan of the batch has ended with these findings.
    ScanFinished { findings: Vec<ScanFinding> },
    /// The connection broke.
    Disconnected,
}

/// An event of a worker as plain values.
pub enum WorkerEventView {
    Connected,
    RegistrationSent,
    Received { message: WorkerMessageView },
    ScanFinished { findings: Seq<ScanFindingView> },
    Disconnected,
}

impl View for WorkerEvent {
    type V = WorkerEventView;

    open spec fn view(&self) -> WorkerEventView {
        match self {
            WorkerEvent::Connected => WorkerEventView::Connected,
            WorkerEvent::RegistrationSent => WorkerEventView::RegistrationSent,
            WorkerEvent::Received { message } => WorkerEventView::Received { message: message@ },
            WorkerEvent::ScanFinished { findings } => WorkerEventView::ScanFinished {
                findings: finding_views(findings@),
            },
            WorkerEvent::Disconnected => WorkerEventView::Disconnected,
        }
    }
}

/// What a worker is to do.
#[derive(Debug)]
pub enum WorkerAction {
    /// Send the message to the master.
    Send { message: WorkerMessage },
    /// Send the message to the master, then close the connection.
    SendAndClose { message: WorkerMessage },
    /// Scan the domains and report `ScanFinished`.
    Scan { domains: Vec<String>, batch_id: String },
    /// Close the connection.
    Close,
    /// Nothing.
    Nothing,
}

/// An action of a worker as plain values.
pub enum WorkerActionView {
    Send { message: WorkerMessageView },
    SendAndClose { message: WorkerMessageView },
    Scan { domains: Seq<Seq<char>>, batch_id: Seq<char> },
    Close,
    Nothing,
}

impl View for WorkerAction {
    type V = WorkerActionView;

    open spec fn view(&self) -> WorkerActionView {
        match self {
            WorkerAction::Send { message } => WorkerActionView::Send { message: message@ },
            WorkerAction::SendAndClose { message } => WorkerActionView::SendAndClose {
                message: message@,
            },
            WorkerAction::Scan { domains, batch_id } => WorkerActionView::Scan {
                domains: texts(domains@),
                batch_id: batch_id@,
            },
            WorkerAction::Close => WorkerActionView::Close,
            WorkerAction::Nothing => WorkerActionView::Nothing,
        }
    }
}

/// A worker: its identity, where it stands and what it has done.
#[derive(Debug)]
pub struct Worker {
    pub worker_id: String,
    pub capabilities: WorkerCapabilities,
    pub state: WorkerState,
    pub status: WorkerStatus,
}

/// A worker as plain values.
pub struct WorkerView {
    pub worker_id: Seq<char>,
    pub capabilities: WorkerCapabilitiesView,
    pub state: WorkerStateView,
    pub status: WorkerStatus,
}

impl View for Worker {
    type V = WorkerView;

    open spec fn view(&self) -> WorkerView {
        WorkerView {
            worker_id: self.worker_id@,
            capabilities: self.capabilities@,
            state: self.state@,
            status: self.status,
        }
    }
}

/// A count raised by `by`, held at the largest value where it would pass
/// it.
pub open spec fn raised(count: usize, by: nat) -> usize {
    if count + by > usize::MAX {
        usize::MAX
    } else {
        (count + by) as usize
    }
}

impl WorkerView {
    /// The answer to a request: the findings of the batch under the
    /// worker's id.
    pub open spec fn result(self, batch_id: Seq<char>, findings: Seq<ScanFindingView>) -> WorkerMessageView {
        WorkerMessageView::ScanResult { worker_id: self.worker_id, batch_id, findings }
    }

    /// The worker after a batch with so many findings has been answered.
    pub open spec fn after_batch(self, state: WorkerStateView, findings: nat) -> WorkerView {
        WorkerView {
            state,
            status: WorkerStatus {
                active_scans: 0,
                completed_scans: raised(self.status.completed_scans, 1),
                findings: raised(self.status.findings, findings),
                uptime_seconds: self.status.uptime_seconds,
            },
            ..self
        }
    }

    /// The worker and its action after an event, `uptime` seconds after
    /// its start.
    ///
    /// Once connected the worker registers, and then waits for work. A
    /// request makes it scan the batch; when the scan has ended it
    /// answers with the findings and waits again. A request without
    /// domains is answered at once, with no findings. Every request is
    /// answered. A heartbeat is answered with the worker's status. Told
    /// to stop, the worker closes the connection, after the answer to
    /// the batch that it is scanning. Any other message changes nothing.
    pub open spec fn step(self, event: WorkerEventView, uptime: u64) -> (WorkerView, WorkerActionView) {
        let status = WorkerStatus { uptime_seconds: uptime, ..self.status };
        let me = WorkerView { status, ..self };
        match (self.state, event) {
            (WorkerStateView::Closed, _) => (me, WorkerActionView::Nothing),
            (_, WorkerEventView::Disconnected) => (
                WorkerView { state: WorkerStateView::Closed, ..me },
                WorkerActionView::Nothing,
            ),
            (WorkerStateView::Connecting, WorkerEventView::Connected) => (
                WorkerView { state: WorkerStateView::Registering, ..me },
                WorkerActionView::Send {
                    message: WorkerMessageView::Register {
                        worker_id: self.worker_id,
                        capabilities: self.capabilities,
                    },
                },
            ),
            (WorkerStateView::Registering, WorkerEventView::RegistrationSent) => (
                WorkerView { state: WorkerStateView::Idle, ..me },
                WorkerActionView::Nothing,
            ),
            (
                WorkerStateView::Idle,
                WorkerEventView::Received {
                    message: WorkerMessageView::ScanRequest { domains, batch_id },
                },
            ) => if domains.len() == 0 {
                (
                    me.after_batch(WorkerStateView::Idle, 0),
                    WorkerActionView::Send { message: self.result(batch_id, Seq::empty()) },
                )
            } else {
                (
                    WorkerView {
                        state: WorkerStateView::Scanning { batch_id },
                        status: WorkerStatus { active_scans: 1, ..status },
                        ..me
                    },
                    WorkerActionView::Scan { domains, batch_id },
                )
            },
            (
                WorkerStateView::Idle,
                WorkerEventView::Received { message: WorkerMessageView::Shutdown { worker_id } },
            ) => (WorkerView { state: WorkerStateView::Closed, ..me }, WorkerActionView::Close),
            (
                WorkerStateView::Scanning { batch_id },
                WorkerEventView::Received { message: WorkerMessageView::Shutdown { worker_id } },
            ) => (
                WorkerView { state: WorkerStateView::ShuttingDown { batch_id }, ..me },
                WorkerActionView::Nothing,
            ),
            (
                WorkerStateView::Idle | WorkerStateView::Scanning { .. },
                WorkerEventView::Received { message: WorkerMessageView::Heartbeat { .. } },
            ) => (
                me,
                WorkerActionView::Send {
                    message: WorkerMessageView::Heartbeat { worker_id: self.worker_id, status },
                },
            ),
            (WorkerStateView::Scanning { batch_id }, WorkerEventView::ScanFinished { findings }) => (
                me.after_batch(WorkerStateView::Idle, findings.len()),
                WorkerActionView::Send { message: self.result(batch_id, findings) },
            ),
            (WorkerStateView::ShuttingDown { batch_id }, WorkerEventView::ScanFinished { findings }) => (
                me.after_batch(WorkerStateView::Closed, findings.len()),
                WorkerActionView::SendAndClose { message: self.result(batch_id, findings) },
            ),
            _ => (me, WorkerActionView::Nothing),
        }
    }
}

fn raise(count: usize, by: usize) -> (r: usize)
    ensures
        r == raised(count, by as nat),
{
    if by > usize::MAX - count {
        usize::MAX
    } else {
        count + by
    }
}

impl Worker {
    /// A worker with the given settings and version that has not
    /// connected yet.
    pub fn new(config: &WorkerConfig, version: &str) -> (w: Self)
        ensures
            w@ == (WorkerView {
                worker_id: config.worker_id@,
                capabilities: WorkerCapabilitiesView {
                    max_concurrency: config.concurrency,
                    version: version@,
                },
                state: WorkerStateView::Connecting,
                status: idle_status(),
            }),
    {
        Worker {
            worker_id: config.worker_id.clone(),
            capabilities: WorkerCapabilities {
                max_concurrency: config.concurrency,
                version: version.to_owned(),
            },
            state: WorkerState::Connecting,
            status: WorkerStatus::default(),
        }
    }

    fn finish_batch(self, batch_id: String, findings: Vec<ScanFinding>, state: WorkerState) -> (r: (
        Self,
        WorkerMessage,
    ))
        ensures
            r.0@ == self@.after_batch(state@, findings@.len()),
            r.1@ == self@.result(batch_id@, finding_views(findings@)),
    {
        let Worker { worker_id, capabilities, state: _, status } = self;
        let message = WorkerMessage::ScanResult {
            worker_id: worker_id.clone(),
            batch_id,
            findings,
        };
        let done = match &message {
            WorkerMessage::ScanResult { findings, .. } => findings.len(),
            _ => 0,
        };
        (
            Worker {
                worker_id,
                capabilities,
                state,
                status: WorkerStatus {
                    active_scans: 0,
                    completed_scans: raise(status.completed_scans, 1),
                    findings: raise(status.findings, done),
                    uptime_seconds: status.uptime_seconds,
                },
            },
            message,
        )
    }

    /// Takes an event, `uptime` seconds after the worker's start, and
    /// gives the worker as it is afterwards and what it is to do, as
    /// `WorkerView::step` says.
    pub fn step(self, event: WorkerEvent, uptime: u64) -> (r: (Self, WorkerAction))
        ensures
            (r.0@, r.1@) == self@.step(event@, uptime),
    {
        let Worker { worker_id, capabilities, state, status } = self;
        let status = WorkerStatus { uptime_seconds: uptime, ..status };
        match (state, event) {
            (WorkerState::Closed, _) => (
                Worker { worker_id, capabilities, state: WorkerState::Closed, status },
                WorkerAction::Nothing,
            ),
            (_, WorkerEvent::Disconnected) => (
                Worker { worker_id, capabilities, state: WorkerState::Closed, status },
                WorkerAction::Nothing,
            ),
            (WorkerState::Connecting, WorkerEvent::Connected) => {
                let message = WorkerMessage::Register {
                    worker_id: worker_id.clone(),
                    capabilities: capabilities.clone(),
                };
                (
                    Worker { worker_id, capabilities, state: WorkerState::Registering, status },
                    WorkerAction::Send { message },
                )
            },
            (WorkerState::Registering, WorkerEvent::RegistrationSent) => (
                Worker { worker_id, capabilities, state: WorkerState::Idle, status },
                WorkerAction::Nothing,
            ),
            (
                WorkerState::Idle,
                WorkerEvent::Received { message: WorkerMessage::ScanRequest { domains, batch_id } },
            ) => {
                if domains.len() == 0 {
                    let me = Worker { worker_id, capabilities, state: WorkerState::Idle, status };
                    let findings: Vec<ScanFinding> = Vec::new();
                    assert(finding_views(findings@) == Seq::<ScanFindingView>::empty());
                    let (me, message) = me.finish_batch(batch_id, findings, WorkerState::Idle);
                    (me, WorkerAction::Send { message })
                } else {
                    (
                        Worker {
                            worker_id,
                            capabilities,
                            state: WorkerState::Scanning { batch_id: batch_id.clone() },
                            status: WorkerStatus { active_scans: 1, ..status },
                        },
                        WorkerAction::Scan { domains, batch_id },
                    )
                }
            },
            (
                WorkerState::Idle,
                WorkerEvent::Received { message: WorkerMessage::Shutdown { worker_id: _ } },
            ) => (
                Worker { worker_id, capabilities, state: WorkerState::Closed, status },
                WorkerAction::Close,
            ),
            (
                WorkerState::Scanning { batch_id },
                WorkerEvent::Received { message: WorkerMessage::Shutdown { worker_id: _ } },
            ) => (
                Worker {
                    worker_id,
                    capabilities,
                    state: WorkerState::ShuttingDown { batch_id },
                    status,
                },
                WorkerAction::Nothing,
            ),
            (
                WorkerState::Idle,
                WorkerEvent::Received { message: WorkerMessage::Heartbeat { .. } },
            ) => {
                let message = WorkerMessage::Heartbeat { worker_id: worker_id.clone(), status };
                (
                    Worker { worker_id, capabilities, state: WorkerState::Idle, status },
                    WorkerAction::Send { message },
                )
            },
            (
                WorkerState::Scanning { batch_id },
                WorkerEvent::Received { message: WorkerMessage::Heartbeat { .. } },
            ) => {
                let message = WorkerMessage::Heartbeat { worker_id: worker_id.clone(), status };
                (
                    Worker {
                        worker_id,
                        capabilities,
                        state: WorkerState::Scanning { batch_id },
                        status,
                    },
                    WorkerAction::Send { message },
                )
            },
            (WorkerState::Scanning { batch_id }, WorkerEvent::ScanFinished { findings }) => {
                let me = Worker { worker_id, capabilities, state: WorkerState::Idle, status };
                let (me, message) = me.finish_batch(batch_id, findings, WorkerState::Idle);
                (me, WorkerAction::Send { message })
            },
            (WorkerState::ShuttingDown { batch_id }, WorkerEvent::ScanFinished { findings }) => {
                let me = Worker { worker_id, capabilities, state: WorkerState::Idle, status };
                let (me, message) = me.finish_batch(batch_id, findings, WorkerState::Closed);
                (me, WorkerAction::SendAndClose { message })
            },
            (state, _) => (Worker { worker_id, capabilities, state, status }, WorkerAction::Nothing),
        }
    }
}

/// A worker answers every request: with the findings of the batch once
/// its scan has ended, and at once, with no findings, where the request
/// names no domain.
pub proof fn lemma_request_is_answered(
    w: WorkerView,
    domains: Seq<Seq<char>>,
    batch_id: Seq<char>,
    findings: Seq<ScanFindingView>,
    uptime: u64,
    later: u64,
)
    requires
        w.state == WorkerStateView::Idle,
    ensures
        ({
            let request = WorkerEventView::Received {
                message: WorkerMessageView::ScanRequest { domains, batch_id },
            };
            let (next, action) = w.step(request, uptime);
            if domains.len() == 0 {
                &&& action == WorkerActionView::Send { message: w.result(batch_id, Seq::empty()) }
                &&& next.state == WorkerStateView::Idle
            } else {
                &&& action == WorkerActionView::Scan { domains, batch_id }
                &&& next.step(WorkerEventView::ScanFinished { findings }, later).1
                    == WorkerActionView::Send { message: w.result(batch_id, findings) }
                &&& next.step(WorkerEventView::ScanFinished { findings }, later).0.state
                    == WorkerStateView::Idle
            }
        }),
{
}

} // verus!
