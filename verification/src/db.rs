//! The findings of a scan: one row to each pair of a domain and a rule,
//! which the latest check of the pair overwrites.

use crate::keyed::{distinct, entry, lemma_position, lemma_position_is, lemma_upserted, position, upserted};
use crate::rules::Severity;
use crate::text::{lowercase, push_str, same_text, to_lowercase, to_text};
use crate::utils::{first_seen, replace_at, texts, unique, unix_time};
use vstd::prelude::*;
use vstd::utf8::{decode_utf8, encode_utf8, is_char_boundary};

verus! {

/// A row of the store of findings.
#[derive(Debug)]
pub struct Finding {
    /// The number of the row, from one.
    pub id: u64,
    pub domain: String,
    pub rule_name: String,
    pub matched_path: String,
    pub detected: bool,
    /// When the pair was last checked, in seconds since the epoch.
    pub scanned_at: u64,
}

/// A row as plain values.
pub struct FindingView {
    pub id: u64,
    pub domain: Seq<char>,
    pub rule_name: Seq<char>,
    pub matched_path: Seq<char>,
    pub detected: bool,
    pub scanned_at: u64,
}

impl View for Finding {
    type V = FindingView;

    open spec fn view(&self) -> FindingView {
        FindingView {
            id: self.id,
            domain: self.domain@,
            rule_name: self.rule_name@,
            matched_path: self.matched_path@,
            detected: self.detected,
            scanned_at: self.scanned_at,
        }
    }
}

impl Clone for Finding {
    fn clone(&self) -> (r: Self)
        ensures
            r == *self,
    {
        Finding {
            id: self.id,
            domain: self.domain.clone(),
            rule_name: self.rule_name.clone(),
            matched_path: self.matched_path.clone(),
            detected: self.detected,
            scanned_at: self.scanned_at,
        }
    }
}

/// The views of a sequence of rows.
pub open spec fn row_views(s: Seq<Finding>) -> Seq<FindingView> {
    s.map_values(|f: Finding| f@)
}

/// The key of a row: its domain and its rule.
pub open spec fn by_pair() -> spec_fn(FindingView) -> (Seq<char>, Seq<char>) {
    |f: FindingView| (f.domain, f.rule_name)
}

/// The row of a pair of a domain and a rule, if there is one.
pub open spec fn row_of(rows: Seq<FindingView>, domain: Seq<char>, rule_name: Seq<char>) -> Option<
    FindingView,
> {
    entry(rows, by_pair(), (domain, rule_name))
}

/// The number of the row that a write to a pair goes to: that of the
/// pair's row, or the next free one.
pub open spec fn row_id(rows: Seq<FindingView>, domain: Seq<char>, rule_name: Seq<char>) -> u64 {
    (position(rows, by_pair(), (domain, rule_name)) + 1) as u64
}

/// The rows after a write: the row of the pair is overwritten with the
/// path, the outcome and the time, or a new row is added behind the
/// others.
pub open spec fn written(
    rows: Seq<FindingView>,
    domain: Seq<char>,
    rule_name: Seq<char>,
    matched_path: Seq<char>,
    detected: bool,
    now: u64,
) -> Seq<FindingView> {
    upserted(
        rows,
        by_pair(),
        FindingView {
            id: row_id(rows, domain, rule_name),
            domain,
            rule_name,
            matched_path,
            detected,
            scanned_at: now,
        },
    )
}

/// Whether the rows are those of a store: at most one to a pair, and
/// numbered from one in their order.
pub open spec fn well_formed(rows: Seq<FindingView>) -> bool {
    &&& distinct(rows, by_pair())
    &&& rows.len() <= usize::MAX
    &&& forall|i: int| 0 <= i < rows.len() ==> (#[trigger] rows[i]).id == i + 1
}

/// Why a write to the store failed.
#[derive(Debug, Clone, Copy, PartialEq, Eq, Structural)]
pub enum StoreError {
    /// The store holds as many rows as can be counted.
    Full,
}

/// Whether the store can take no row for the pair: the pair has none, and
/// there are as many rows as can be counted.
pub open spec fn is_full(rows: Seq<FindingView>, domain: Seq<char>, rule_name: Seq<char>) -> bool {
    row_of(rows, domain, rule_name).is_none() && rows.len() >= usize::MAX
}

/// The store of findings.
#[derive(Debug)]
pub struct FindingStore {
    rows: Vec<Finding>,
}

impl View for FindingStore {
    type V = Seq<FindingView>;

    closed spec fn view(&self) -> Seq<FindingView> {
        row_views(self.rows@)
    }
}

impl FindingStore {
    #[verifier::type_invariant]
    spec fn inv(&self) -> bool {
        well_formed(self@)
    }

    /// A store without rows.
    pub fn new() -> (s: Self)
        ensures
            s@ == Seq::<FindingView>::empty(),
    {
        let rows: Vec<Finding> = Vec::new();
        assert(row_views(rows@) == Seq::<FindingView>::empty());
        FindingStore { rows }
    }

    /// The rows, in the order of their numbers.
    pub fn rows(&self) -> (r: &Vec<Finding>)
        ensures
            row_views(r@) == self@,
            well_formed(self@),
    {
        proof {
            use_type_invariant(self);
        }
        &self.rows
    }

    fn find(&self, domain: &str, rule_name: &str) -> (i: usize)
        ensures
            i == position(self@, by_pair(), (domain@, rule_name@)),
            i <= self.rows.len(),
    {
        let ghost all = self@;
        let mut i: usize = 0;
        while i < self.rows.len()
            invariant
                i <= self.rows.len(),
                all == row_views(self.rows@),
                forall|k: int| 0 <= k < i ==> by_pair()(#[trigger] all[k]) != (domain@, rule_name@),
            decreases self.rows.len() - i,
        {
            assert(all[i as int] == self.rows@[i as int]@);
            if same_text(self.rows[i].domain.as_str(), domain) && same_text(
                self.rows[i].rule_name.as_str(),
                rule_name,
            ) {
                proof {
                    lemma_position_is(all, by_pair(), (domain@, rule_name@), i as int);
                }
                return i;
            }
            i += 1;
        }
        proof {
            lemma_position_is(all, by_pair(), (domain@, rule_name@), i as int);
        }
        i
    }

    /// The row of a pair of a domain and a rule, if there is one.
    pub fn get(&self, domain: &str, rule_name: &str) -> (r: Option<&Finding>)
        ensures
            match r {
                Some(f) => row_of(self@, domain@, rule_name@) == Some(f@),
                None => row_of(self@, domain@, rule_name@).is_none(),
            },
    {
        let i = self.find(domain, rule_name);
        if i < self.rows.len() {
            assert(self@[i as int] == self.rows@[i as int]@);
            Some(&self.rows[i])
        } else {
            None
        }
    }

    /// Writes the outcome of a check at the time `now`, as `written`
    /// says, and returns the number of the row. A store that holds as
    /// many rows as can be counted takes no new pair.
    pub fn upsert(&mut self, domain: &str, rule_name: &str, matched_path: &str, detected: bool, now: u64) -> (r:
        Result<u64, StoreError>)
        ensures
            match r {
                Ok(id) => {
                    &&& !is_full(old(self)@, domain@, rule_name@)
                    &&& final(self)@ == written(
                        old(self)@,
                        domain@,
                        rule_name@,
                        matched_path@,
                        detected,
                        now,
                    )
                    &&& id == row_id(old(self)@, domain@, rule_name@)
                },
                Err(_) => is_full(old(self)@, domain@, rule_name@) && final(self)@ == old(self)@,
            },
            well_formed(old(self)@),
            well_formed(final(self)@),
    {
        proof {
            use_type_invariant(&*self);
        }
        let ghost before = self@;
        let i = self.find(domain, rule_name);
        if i == usize::MAX {
            return Err(StoreError::Full);
        }
        let id = (i + 1) as u64;
        let row = Finding {
            id,
            domain: domain.to_owned(),
            rule_name: rule_name.to_owned(),
            matched_path: matched_path.to_owned(),
            detected,
            scanned_at: now,
        };
        proof {
            lemma_position(before, by_pair(), (domain@, rule_name@));
            lemma_upserted(before, by_pair(), row@);
        }
        let mut all: Vec<Finding> = Vec::new();
        core::mem::swap(&mut all, &mut self.rows);
        if i < all.len() {
            replace_at(&mut all, i, row);
            assert(row_views(all@) == before.update(i as int, row@));
        } else {
            all.push(row);
            assert(row_views(all@) == before.push(row@));
        }
        proof {
            let after = row_views(all@);
            assert(after.len() == all@.len());
            assert forall|k: int| 0 <= k < after.len() implies (#[trigger] after[k]).id == k + 1 by {
                if k != i {
                    assert(after[k] == before[k]);
                }
            }
        }
        self.rows = all;
        Ok(id)
    }
}

/// Writes the outcome of a check into the store at the present time: the
/// row of the pair of domain and rule is overwritten, or a new row is
/// added. Returns the number of the row.
pub fn insert_finding(store: &mut FindingStore, domain: &str, rule_name: &str, matched_path: &str, detected: bool) -> (r:
    Result<u64, StoreError>)
    ensures
        match r {
            Ok(id) => {
                &&& !is_full(old(store)@, domain@, rule_name@)
                &&& exists|now: u64| #[trigger]
                    written(old(store)@, domain@, rule_name@, matched_path@, detected, now)
                        == final(store)@
                &&& id == row_id(old(store)@, domain@, rule_name@)
            },
            Err(_) => is_full(old(store)@, domain@, rule_name@) && final(store)@ == old(store)@,
        },
        well_formed(final(store)@),
{
    let now = unix_time();
    store.upsert(domain, rule_name, matched_path, detected, now)
}

/// Writes a detected finding into the store at the present time. The
/// severity is not kept.
pub fn record_finding(
    store: &mut FindingStore,
    domain: &str,
    matched_path: &str,
    rule_name: &str,
    _severity: Option<Severity>,
) -> (r: Result<u64, StoreError>)
    ensures
        match r {
            Ok(id) => {
                &&& !is_full(old(store)@, domain@, rule_name@)
                &&& exists|now: u64| #[trigger]
                    written(old(store)@, domain@, rule_name@, matched_path@, true, now)
                        == final(store)@
                &&& id == row_id(old(store)@, domain@, rule_name@)
            },
            Err(_) => is_full(old(store)@, domain@, rule_name@) && final(store)@ == old(store)@,
        },
        well_formed(final(store)@),
{
    insert_finding(store, domain, rule_name, matched_path, true)
}

/// The number of rows. The severity makes no difference: it is not kept.
pub fn get_findings_count(store: &FindingStore, _severity: Option<Severity>) -> (n: usize)
    ensures
        n == store@.len(),
{
    store.rows().len()
}

/// The domains of the rows, in the order of the rows.
pub open spec fn row_domains(rows: Seq<FindingView>) -> Seq<Seq<char>> {
    rows.map_values(|f: FindingView| f.domain)
}

/// The number of different domains among the rows.
pub fn get_unique_domains_count(store: &FindingStore) -> (n: usize)
    ensures
        n == first_seen(row_domains(store@)).len(),
{
    let rows = store.rows();
    let mut domains: Vec<String> = Vec::new();
    let mut i: usize = 0;
    while i < rows.len()
        invariant
            i <= rows.len(),
            row_views(rows@) == store@,
            texts(domains@) == row_domains(store@).take(i as int),
        decreases rows.len() - i,
    {
        let ghost before = texts(domains@);
        domains.push(rows[i].domain.clone());
        proof {
            assert(store@[i as int] == rows@[i as int]@);
            assert(texts(domains@) == before.push(rows@[i as int].domain@));
            assert(row_domains(store@).take(i + 1) == row_domains(store@).take(i as int).push(
                row_domains(store@)[i as int],
            ));
        }
        i += 1;
    }
    assert(row_domains(store@).take(rows.len() as int) == row_domains(store@));
    unique(domains).len()
}

/// A text cut to at most `max_length` bytes: the text itself where it is
/// no longer, else its first `max_length - 3` bytes and three dots.
pub open spec fn truncated(s: Seq<char>, max_length: nat) -> Seq<char> {
    if encode_utf8(s).len() <= max_length {
        s
    } else {
        decode_utf8(encode_utf8(s).subrange(0, max_length - 3)) + "..."@
    }
}

/// Cuts a text to at most `max_length` bytes, with three dots for what is
/// left out. A text that is longer can only be cut where `max_length` is
/// three or more and the cut falls between two characters.
pub fn truncate_string(s: &str, max_length: usize) -> (r: String)
    requires
        encode_utf8(s@).len() > max_length ==> max_length >= 3 && is_char_boundary(
            encode_utf8(s@),
            max_length - 3,
        ),
    ensures
        r@ == truncated(s@, max_length as nat),
{
    if s.as_bytes().len() <= max_length {
        return s.to_owned();
    }
    let (head, _) = s.split_at(max_length - 3);
    proof {
        vstd::utf8::encode_utf8_decode_utf8(head@);
    }
    let mut out: Vec<char> = Vec::new();
    push_str(&mut out, head);
    push_str(&mut out, "...");
    to_text(&out)
}

/// Whether `truncate_string` can cut the text to `max_length` bytes.
pub fn can_truncate(s: &str, max_length: usize) -> (b: bool)
    ensures
        b == (encode_utf8(s@).len() > max_length ==> max_length >= 3 && is_char_boundary(
            encode_utf8(s@),
            max_length - 3,
        )),
{
    if s.as_bytes().len() <= max_length {
        true
    } else {
        max_length >= 3 && s.is_char_boundary(max_length - 3)
    }
}

/// Writing a pair twice leaves one row for it, which holds the path, the
/// outcome and the time of the second write under the number that the
/// first write gave it. The second write adds no row, and neither write
/// touches the row of another pair.
pub proof fn lemma_second_write_wins(
    rows: Seq<FindingView>,
    domain: Seq<char>,
    rule_name: Seq<char>,
    first: (Seq<char>, bool, u64),
    second: (Seq<char>, bool, u64),
    other: (Seq<char>, Seq<char>),
)
    requires
        well_formed(rows),
        other != (domain, rule_name),
    ensures
        ({
            let once = written(rows, domain, rule_name, first.0, first.1, first.2);
            let twice = written(once, domain, rule_name, second.0, second.1, second.2);
            &&& twice.len() == once.len()
            &&& distinct(twice, by_pair())
            &&& row_of(twice, domain, rule_name) == Some(
                FindingView {
                    id: row_id(rows, domain, rule_name),
                    domain,
                    rule_name,
                    matched_path: second.0,
                    detected: second.1,
                    scanned_at: second.2,
                },
            )
            &&& forall|i: int|
                0 <= i < twice.len() && by_pair()(#[trigger] twice[i]) == (domain, rule_name) ==> i
                    == position(twice, by_pair(), (domain, rule_name))
            &&& row_of(twice, other.0, other.1) == row_of(rows, other.0, other.1)
        }),
{
    let pair = (domain, rule_name);
    let a = FindingView {
        id: row_id(rows, domain, rule_name),
        domain,
        rule_name,
        matched_path: first.0,
        detected: first.1,
        scanned_at: first.2,
    };
    let once = written(rows, domain, rule_name, first.0, first.1, first.2);
    lemma_position(rows, by_pair(), pair);
    lemma_upserted(rows, by_pair(), a);
    lemma_position(once, by_pair(), pair);
    let p = position(rows, by_pair(), pair);
    // The first write put the row where the pair is found afterwards.
    assert(position(once, by_pair(), pair) == p) by {
        assert forall|i: int| 0 <= i < p implies by_pair()(#[trigger] once[i]) != pair by {
            assert(once[i] == rows[i]);
        }
        assert(once[p] == a);
        lemma_position_is(once, by_pair(), pair, p);
    }
    let b = FindingView {
        id: row_id(once, domain, rule_name),
        domain,
        rule_name,
        matched_path: second.0,
        detected: second.1,
        scanned_at: second.2,
    };
    let twice = written(once, domain, rule_name, second.0, second.1, second.2);
    lemma_upserted(once, by_pair(), b);
    lemma_position(twice, by_pair(), pair);
    assert forall|i: int| 0 <= i < twice.len() && by_pair()(#[trigger] twice[i]) == pair implies i
        == position(twice, by_pair(), pair) by {
        let q = position(twice, by_pair(), pair);
        if i < q {
        } else if i > q {
            assert(by_pair()(twice[q]) != by_pair()(twice[i]));
        }
    }
}

/// A form in which the findings can be written out.
#[derive(Debug, Clone, Copy, PartialEq, Eq, Structural)]
pub enum ExportFormat {
    Csv,
    Json,
}

/// The form that a name in lower case stands for.
pub open spec fn format_named(name: Seq<char>) -> Option<ExportFormat> {
    if name == "csv"@ {
        Some(ExportFormat::Csv)
    } else if name == "json"@ {
        Some(ExportFormat::Json)
    } else {
        None
    }
}

/// The form that a name in lower case stands for: `csv` or `json`.
pub fn named_format(name: &str) -> (r: Option<ExportFormat>)
    ensures
        r == format_named(name@),
{
    if same_text(name, "csv") {
        Some(ExportFormat::Csv)
    } else if same_text(name, "json") {
        Some(ExportFormat::Json)
    } else {
        None
    }
}

/// The form that a name stands for, whatever its case. `None` for a name
/// that stands for none.
pub fn export_format(format: &str) -> (r: Option<ExportFormat>)
    ensures
        r == format_named(lowercase(format@)),
{
    let lower = to_lowercase(format);
    named_format(lower.as_str())
}

} // verus!
