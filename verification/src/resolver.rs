//! The DNS cache: answers of the resolver, kept for their time to live,
//! with counters of what was answered from where. The resolver itself is
//! the caller's: the cache says when it must be asked.

use crate::keyed::{distinct, entry, lemma_position, lemma_position_is, lemma_upserted, position, upserted};
use crate::utils::{replace_at, unix_time};
use vstd::prelude::*;

verus! {

/// Seconds for which an address is kept.
pub const DEFAULT_TTL: u64 = 3600;

/// Seconds for which a failure is kept, so that a name that does not
/// resolve is not asked for again at once.
pub const NEGATIVE_TTL: u64 = 60;

/// The address that a resolver for tests gives to every name.
pub const TEST_ADDRESS: &'static str = "192.0.2.1";

/// One answer of the resolver, as it is kept in the cache.
#[derive(Debug)]
pub struct ResolverResult {
    /// The name that was asked for, which is the key of the entry.
    pub domain: String,
    /// The address, or `None` where the name did not resolve.
    pub ip: Option<String>,
    /// Why the name did not resolve.
    pub error: Option<String>,
    /// When the answer came, in seconds since the epoch.
    pub timestamp: u64,
    /// For how many seconds the answer holds.
    pub ttl: u64,
}

/// An answer of the resolver as plain values.
pub struct ResolverResultView {
    pub domain: Seq<char>,
    pub ip: Option<Seq<char>>,
    pub error: Option<Seq<char>>,
    pub timestamp: u64,
    pub ttl: u64,
}

/// The view of an optional text.
pub open spec fn option_view(o: Option<String>) -> Option<Seq<char>> {
    match o {
        Some(s) => Some(s@),
        None => None,
    }
}

/// The view of what the resolver said: an address, or the reason why
/// there is none.
pub open spec fn outcome_view(o: Result<String, String>) -> Result<Seq<char>, Seq<char>> {
    match o {
        Ok(ip) => Ok(ip@),
        Err(e) => Err(e@),
    }
}

impl View for ResolverResult {
    type V = ResolverResultView;

    open spec fn view(&self) -> ResolverResultView {
        ResolverResultView {
            domain: self.domain@,
            ip: option_view(self.ip),
            error: option_view(self.error),
            timestamp: self.timestamp,
            ttl: self.ttl,
        }
    }
}

fn clone_option(o: &Option<String>) -> (r: Option<String>)
    ensures
        r == *o,
{
    match o {
        Some(s) => Some(s.clone()),
        None => None,
    }
}

impl Clone for ResolverResult {
    fn clone(&self) -> (r: Self)
        ensures
            r == *self,
    {
        ResolverResult {
            domain: self.domain.clone(),
            ip: clone_option(&self.ip),
            error: clone_option(&self.error),
            timestamp: self.timestamp,
            ttl: self.ttl,
        }
    }
}

impl ResolverResultView {
    /// Whether the entry still holds at the time `now`: less than its
    /// time to live has gone by since it was made. An entry with a time
    /// to live of zero never holds. An entry that was made after `now`,
    /// as a clock that was set back leaves it, holds.
    pub open spec fn is_fresh(self, now: u64) -> bool {
        self.ttl > 0 && now - self.timestamp < self.ttl
    }
}

impl ResolverResult {
    /// Whether the entry still holds at the time `now`.
    pub fn is_fresh(&self, now: u64) -> (b: bool)
        ensures
            b == self@.is_fresh(now),
    {
        self.ttl > 0 && (now < self.timestamp || now - self.timestamp < self.ttl)
    }
}

/// The counters of a resolver.
#[derive(Debug, Clone, Copy, PartialEq, Eq, Structural)]
pub struct DnsStats {
    /// Lookups that the resolver answered with an address.
    pub resolved: u64,
    /// Lookups that the resolver could not answer.
    pub failed: u64,
    /// Lookups that the cache answered.
    pub cached: u64,
    /// All lookups that were answered.
    pub total: u64,
}

/// A counter raised by one, held at the largest value.
pub open spec fn bumped(n: u64) -> u64 {
    if n == u64::MAX {
        n
    } else {
        (n + 1) as u64
    }
}

fn bump(n: u64) -> (r: u64)
    ensures
        r == bumped(n),
{
    if n == u64::MAX {
        n
    } else {
        n + 1
    }
}

/// Counters that have counted nothing.
pub open spec fn no_stats() -> DnsStats {
    DnsStats { resolved: 0, failed: 0, cached: 0, total: 0 }
}

/// How a lookup ended.
#[derive(Debug, Clone, Copy, PartialEq, Eq, Structural)]
pub enum Source {
    Cache,
    Resolved,
    Failed,
}

impl DnsStats {
    /// The counters after one more lookup was answered from `source`.
    pub open spec fn counted(self, source: Source) -> DnsStats {
        match source {
            Source::Cache => DnsStats {
                cached: bumped(self.cached),
                total: bumped(self.total),
                ..self
            },
            Source::Resolved => DnsStats {
                resolved: bumped(self.resolved),
                total: bumped(self.total),
                ..self
            },
            Source::Failed => DnsStats {
                failed: bumped(self.failed),
                total: bumped(self.total),
                ..self
            },
        }
    }

    /// Counts one more lookup that was answered from `source`.
    pub fn count(self, source: Source) -> (r: DnsStats)
        ensures
            r == self.counted(source),
    {
        match source {
            Source::Cache => DnsStats {
                cached: bump(self.cached),
                total: bump(self.total),
                ..self
            },
            Source::Resolved => DnsStats {
                resolved: bump(self.resolved),
                total: bump(self.total),
                ..self
            },
            Source::Failed => DnsStats {
                failed: bump(self.failed),
                total: bump(self.total),
                ..self
            },
        }
    }
}

/// The key of an entry of the cache: its domain.
pub open spec fn by_domain() -> spec_fn(ResolverResultView) -> Seq<char> {
    |e: ResolverResultView| e.domain
}

/// The views of a sequence of entries.
pub open spec fn entry_views(s: Seq<ResolverResult>) -> Seq<ResolverResultView> {
    s.map_values(|e: ResolverResult| e@)
}

/// The entries after one more has been offered to the cache: it takes the
/// place of the entry of its domain, or comes last. An entry with a time
/// to live of zero is not kept.
pub open spec fn stored(entries: Seq<ResolverResultView>, e: ResolverResultView) -> Seq<
    ResolverResultView,
> {
    if e.ttl == 0 {
        entries
    } else {
        upserted(entries, by_domain(), e)
    }
}

/// The entry that the cache answers a lookup with at the time `now`: the
/// entry of the domain, while it holds.
pub open spec fn fresh_entry(entries: Seq<ResolverResultView>, domain: Seq<char>, now: u64) -> Option<
    ResolverResultView,
> {
    match entry(entries, by_domain(), domain) {
        Some(e) => if e.is_fresh(now) {
            Some(e)
        } else {
            None
        },
        None => None,
    }
}

/// The entry for a name that resolved at the time `now`.
pub open spec fn positive(domain: Seq<char>, ip: Seq<char>, now: u64) -> ResolverResultView {
    ResolverResultView { domain, ip: Some(ip), error: None, timestamp: now, ttl: DEFAULT_TTL }
}

/// The entry for a name that did not resolve at the time `now`.
pub open spec fn negative(domain: Seq<char>, error: Seq<char>, now: u64) -> ResolverResultView {
    ResolverResultView { domain, ip: None, error: Some(error), timestamp: now, ttl: NEGATIVE_TTL }
}

/// A resolver's cache and counters as plain values.
pub struct DnsResolverView {
    /// The entries, at most one to a domain.
    pub entries: Seq<ResolverResultView>,
    pub stats: DnsStats,
    /// Whether the resolver is one for tests, which gives every name the
    /// same address and asks nobody.
    pub is_test: bool,
}

/// What a lookup in the cache says.
#[derive(Debug)]
pub enum Lookup {
    /// The answer: an address, or `None` for a name that does not resolve.
    Answer { ip: Option<String> },
    /// The cache has no answer that holds: the resolver must be asked,
    /// and its answer handed to `complete`.
    Resolve,
}

/// What a lookup says, as plain values.
pub enum LookupView {
    Answer { ip: Option<Seq<char>> },
    Resolve,
}

impl View for Lookup {
    type V = LookupView;

    open spec fn view(&self) -> LookupView {
        match self {
            Lookup::Answer { ip } => LookupView::Answer { ip: option_view(*ip) },
            Lookup::Resolve => LookupView::Resolve,
        }
    }
}

impl DnsResolverView {
    /// The resolver and the answer after a lookup at the time `now`. An
    /// entry of the domain that still holds answers it, with its address
    /// or, for a failure, with none, and counts as answered by the cache.
    /// Else the resolver must be asked and nothing changes, except that a
    /// resolver for tests answers at once with its one address, which it
    /// keeps like any other.
    pub open spec fn lookup_at(self, domain: Seq<char>, now: u64) -> (DnsResolverView, LookupView) {
        match fresh_entry(self.entries, domain, now) {
            Some(e) => (
                DnsResolverView { stats: self.stats.counted(Source::Cache), ..self },
                LookupView::Answer { ip: e.ip },
            ),
            None => if self.is_test {
                (
                    DnsResolverView {
                        entries: stored(self.entries, positive(domain, TEST_ADDRESS@, now)),
                        stats: self.stats.counted(Source::Resolved),
                        ..self
                    },
                    LookupView::Answer { ip: Some(TEST_ADDRESS@) },
                )
            } else {
                (self, LookupView::Resolve)
            },
        }
    }

    /// The entry that is made of what the resolver said of a domain at
    /// the time `now`: the address, or the reason why there is none.
    pub open spec fn record(domain: Seq<char>, outcome: Result<Seq<char>, Seq<char>>, now: u64) -> ResolverResultView {
        match outcome {
            Ok(ip) => positive(domain, ip, now),
            Err(error) => negative(domain, error, now),
        }
    }

    /// The resolver after the answer to a lookup has come at the time
    /// `now`: the answer is kept, a failure too, and counted.
    pub open spec fn complete_at(self, domain: Seq<char>, outcome: Result<Seq<char>, Seq<char>>, now: u64) -> DnsResolverView {
        DnsResolverView {
            entries: stored(self.entries, Self::record(domain, outcome, now)),
            stats: self.stats.counted(
                match outcome {
                    Ok(_) => Source::Resolved,
                    Err(_) => Source::Failed,
                },
            ),
            ..self
        }
    }
}

/// The cache of a resolver, with its counters.
#[derive(Debug)]
pub struct DnsResolver {
    entries: Vec<ResolverResult>,
    stats: DnsStats,
    is_test: bool,
}

impl View for DnsResolver {
    type V = DnsResolverView;

    closed spec fn view(&self) -> DnsResolverView {
        DnsResolverView {
            entries: entry_views(self.entries@),
            stats: self.stats,
            is_test: self.is_test,
        }
    }
}

impl DnsResolver {
    #[verifier::type_invariant]
    spec fn inv(&self) -> bool {
        distinct(self@.entries, by_domain())
    }

    /// A resolver with an empty cache.
    pub fn new() -> (r: Self)
        ensures
            r@ == (DnsResolverView { entries: Seq::empty(), stats: no_stats(), is_test: false }),
    {
        let entries: Vec<ResolverResult> = Vec::new();
        assert(entry_views(entries@) == Seq::<ResolverResultView>::empty());
        DnsResolver {
            entries,
            stats: DnsStats { resolved: 0, failed: 0, cached: 0, total: 0 },
            is_test: false,
        }
    }

    /// A resolver for tests, with an empty cache: it gives every name the
    /// address `TEST_ADDRESS`.
    pub fn new_for_testing() -> (r: Self)
        ensures
            r@ == (DnsResolverView { entries: Seq::empty(), stats: no_stats(), is_test: true }),
    {
        let entries: Vec<ResolverResult> = Vec::new();
        assert(entry_views(entries@) == Seq::<ResolverResultView>::empty());
        DnsResolver {
            entries,
            stats: DnsStats { resolved: 0, failed: 0, cached: 0, total: 0 },
            is_test: true,
        }
    }

    /// Whether the resolver is one for tests.
    pub fn is_test_resolver(&self) -> (b: bool)
        ensures
            b == self@.is_test,
    {
        self.is_test
    }

    /// The counters.
    pub fn stats(&self) -> (s: DnsStats)
        ensures
            s == self@.stats,
    {
        self.stats
    }

    fn find(&self, domain: &str) -> (i: usize)
        ensures
            i == position(self@.entries, by_domain(), domain@),
            i <= self.entries.len(),
    {
        let ghost all = self@.entries;
        let mut i: usize = 0;
        while i < self.entries.len()
            invariant
                i <= self.entries.len(),
                all == entry_views(self.entries@),
                forall|k: int| 0 <= k < i ==> by_domain()(#[trigger] all[k]) != domain@,
            decreases self.entries.len() - i,
        {
            assert(all[i as int] == self.entries@[i as int]@);
            if crate::text::same_text(self.entries[i].domain.as_str(), domain) {
                proof {
                    lemma_position_is(all, by_domain(), domain@, i as int);
                }
                return i;
            }
            i += 1;
        }
        proof {
            lemma_position_is(all, by_domain(), domain@, i as int);
        }
        i
    }

    /// The entry of a domain, if the cache has one that holds at the time
    /// `now`.
    pub fn get_from_cache(&self, domain: &str, now: u64) -> (r: Option<&ResolverResult>)
        ensures
            match r {
                Some(e) => fresh_entry(self@.entries, domain@, now) == Some(e@),
                None => fresh_entry(self@.entries, domain@, now).is_none(),
            },
    {
        let i = self.find(domain);
        if i < self.entries.len() {
            assert(self@.entries[i as int] == self.entries@[i as int]@);
            if self.entries[i].is_fresh(now) {
                return Some(&self.entries[i]);
            }
        }
        None
    }

    /// Offers an entry to the cache. It takes the place of the entry of
    /// its domain. An entry with a time to live of zero is not kept.
    pub fn add_to_cache(&mut self, result: ResolverResult)
        ensures
            final(self)@ == (DnsResolverView {
                entries: stored(old(self)@.entries, result@),
                ..old(self)@
            }),
            distinct(final(self)@.entries, by_domain()),
    {
        proof {
            use_type_invariant(&*self);
            lemma_position(self@.entries, by_domain(), result@.domain);
            lemma_upserted(self@.entries, by_domain(), result@);
        }
        if result.ttl == 0 {
            return ;
        }
        let ghost before = self@.entries;
        let i = self.find(result.domain.as_str());
        let mut all: Vec<ResolverResult> = Vec::new();
        core::mem::swap(&mut all, &mut self.entries);
        if i < all.len() {
            replace_at(&mut all, i, result);
            assert(entry_views(all@) == before.update(i as int, result@));
        } else {
            all.push(result);
            assert(entry_views(all@) == before.push(result@));
        }
        self.entries = all;
    }

    /// Looks a domain up in the cache at the time `now`, as
    /// `DnsResolverView::lookup_at` says.
    pub fn lookup_at(&mut self, domain: &str, now: u64) -> (r: Lookup)
        ensures
            (final(self)@, r@) == old(self)@.lookup_at(domain@, now),
    {
        proof {
            use_type_invariant(&*self);
        }
        let hit = match self.get_from_cache(domain, now) {
            Some(e) => Some(clone_option(&e.ip)),
            None => None,
        };
        match hit {
            Some(ip) => {
                self.stats = self.stats.count(Source::Cache);
                Lookup::Answer { ip }
            },
            None => {
                if self.is_test {
                    self.add_to_cache(
                        ResolverResult {
                            domain: domain.to_owned(),
                            ip: Some(TEST_ADDRESS.to_owned()),
                            error: None,
                            timestamp: now,
                            ttl: DEFAULT_TTL,
                        },
                    );
                    proof {
                        use_type_invariant(&*self);
                    }
                    self.stats = self.stats.count(Source::Resolved);
                    Lookup::Answer { ip: Some(TEST_ADDRESS.to_owned()) }
                } else {
                    Lookup::Resolve
                }
            },
        }
    }

    /// Takes what the resolver said of a domain at the time `now`, an
    /// address or the reason why there is none, as
    /// `DnsResolverView::complete_at` says, and returns the entry that
    /// was made of it.
    pub fn complete_at(&mut self, domain: &str, outcome: Result<String, String>, now: u64) -> (r:
        ResolverResult)
        ensures
            final(self)@ == old(self)@.complete_at(
                domain@,
                outcome_view(outcome),
                now,
            ),
            r@ == DnsResolverView::record(
                domain@,
                outcome_view(outcome),
                now,
            ),
    {
        let (made, source) = match outcome {
            Ok(ip) => (
                ResolverResult {
                    domain: domain.to_owned(),
                    ip: Some(ip),
                    error: None,
                    timestamp: now,
                    ttl: DEFAULT_TTL,
                },
                Source::Resolved,
            ),
            Err(error) => (
                ResolverResult {
                    domain: domain.to_owned(),
                    ip: None,
                    error: Some(error),
                    timestamp: now,
                    ttl: NEGATIVE_TTL,
                },
                Source::Failed,
            ),
        };
        self.add_to_cache(made.clone());
        proof {
            use_type_invariant(&*self);
        }
        self.stats = self.stats.count(source);
        made
    }

    /// Looks a domain up in the cache at the present time.
    pub fn lookup(&mut self, domain: &str) -> (r: Lookup)
        ensures
            exists|now: u64| (final(self)@, r@) == old(self)@.lookup_at(domain@, now),
    {
        let now = unix_time();
        self.lookup_at(domain, now)
    }

    /// Takes what the resolver said of a domain at the present time.
    pub fn complete(&mut self, domain: &str, outcome: Result<String, String>) -> (r: ResolverResult)
        ensures
            exists|now: u64|
                {
                    &&& final(self)@ == #[trigger] old(self)@.complete_at(
                        domain@,
                        outcome_view(outcome),
                        now,
                    )
                    &&& r@.timestamp == now
                },
    {
        let now = unix_time();
        self.complete_at(domain, outcome, now)
    }

    /// Empties the cache and sets the counters back to zero.
    pub fn flush_cache(&mut self)
        ensures
            final(self)@ == (DnsResolverView {
                entries: Seq::empty(),
                stats: no_stats(),
                is_test: old(self)@.is_test,
            }),
    {
        let entries: Vec<ResolverResult> = Vec::new();
        assert(entry_views(entries@) == Seq::<ResolverResultView>::empty());
        self.entries = entries;
        proof {
            use_type_invariant(&*self);
        }
        self.stats = DnsStats { resolved: 0, failed: 0, cached: 0, total: 0 };
    }

    /// How many entries the cache holds, fresh or not.
    pub fn show_cache_status(&self) -> (n: usize)
        ensures
            n == self@.entries.len(),
    {
        self.entries.len()
    }

    /// The entries of the cache, in the order in which their domains were
    /// first entered.
    pub fn entries(&self) -> (r: &Vec<ResolverResult>)
        ensures
            entry_views(r@) == self@.entries,
            distinct(self@.entries, by_domain()),
    {
        proof {
            use_type_invariant(self);
        }
        &self.entries
    }
}

/// An entry that was put into the cache is read back as it was put in,
/// address and error alike, while it holds. Once its time to live has
/// gone by the cache has no answer, and the resolver is asked anew. The
/// entries of other domains are not touched.
pub proof fn lemma_cache_round_trip(r: DnsResolverView, e: ResolverResultView, now: u64, other: Seq<char>)
    requires
        distinct(r.entries, by_domain()),
        e.ttl > 0,
        other != e.domain,
    ensures
        ({
            let after = DnsResolverView { entries: stored(r.entries, e), ..r };
            &&& distinct(after.entries, by_domain())
            &&& e.is_fresh(now) ==> fresh_entry(after.entries, e.domain, now) == Some(e)
            &&& e.is_fresh(now) ==> after.lookup_at(e.domain, now).1 == (LookupView::Answer {
                ip: e.ip,
            })
            &&& !e.is_fresh(now) ==> fresh_entry(after.entries, e.domain, now).is_none()
            &&& !e.is_fresh(now) && !r.is_test ==> after.lookup_at(e.domain, now).1
                == LookupView::Resolve
            &&& fresh_entry(after.entries, other, now) == fresh_entry(r.entries, other, now)
        }),
{
    lemma_upserted(r.entries, by_domain(), e);
}

/// No lookup lowers a counter.
pub proof fn lemma_stats_grow(s: DnsStats, source: Source)
    ensures
        s.counted(source).resolved >= s.resolved,
        s.counted(source).failed >= s.failed,
        s.counted(source).cached >= s.cached,
        s.counted(source).total >= s.total,
{
}

/// What the resolver said is kept: once an answer has come, a lookup of
/// the domain is answered by the cache while the entry holds, with the
/// address for a name that resolved and with none for one that did not.
pub proof fn lemma_answer_is_cached(
    r: DnsResolverView,
    domain: Seq<char>,
    outcome: Result<Seq<char>, Seq<char>>,
    now: u64,
    later: u64,
)
    requires
        distinct(r.entries, by_domain()),
        DnsResolverView::record(domain, outcome, now).is_fresh(later),
    ensures
        r.complete_at(domain, outcome, now).lookup_at(domain, later).1 == (LookupView::Answer {
            ip: match outcome {
                Ok(ip) => Some(ip),
                Err(_) => None,
            },
        }),
        r.complete_at(domain, outcome, now).lookup_at(domain, later).0.stats == r.stats.counted(
            match outcome {
                Ok(_) => Source::Resolved,
                Err(_) => Source::Failed,
            },
        ).counted(Source::Cache),
{
    lemma_upserted(r.entries, by_domain(), DnsResolverView::record(domain, outcome, now));
}

} // verus!
