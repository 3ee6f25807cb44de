//! Scan rules and their ordering by severity.

use core::cmp::Ordering;
use vstd::prelude::*;
use vstd::std_specs::cmp::PartialOrdSpec;

verus! {

/// How serious a finding of a rule is.
#[derive(Debug, Clone, Copy, PartialEq, Eq, Structural)]
pub enum Severity {
    Critical,
    High,
    Medium,
    Low,
    Info,
}

impl Severity {
    /// The rank of a severity: the higher, the more serious.
    pub open spec fn rank(self) -> nat {
        match self {
            Severity::Critical => 5,
            Severity::High => 4,
            Severity::Medium => 3,
            Severity::Low => 2,
            Severity::Info => 1,
        }
    }

    /// The rank as a number, for ordering.
    pub fn to_value(&self) -> (v: u8)
        ensures
            v == self.rank(),
    {
        match self {
            Severity::Critical => 5,
            Severity::High => 4,
            Severity::Medium => 3,
            Severity::Low => 2,
            Severity::Info => 1,
        }
    }

    /// The lower-case name of the severity.
    pub fn label(&self) -> (s: &'static str)
        ensures
            s@ == self.label_spec(),
    {
        match self {
            Severity::Critical => "critical",
            Severity::High => "high",
            Severity::Medium => "medium",
            Severity::Low => "low",
            Severity::Info => "info",
        }
    }

    /// The lower-case name of the severity, as a sequence of characters.
    pub open spec fn label_spec(self) -> Seq<char> {
        match self {
            Severity::Critical => "critical"@,
            Severity::High => "high"@,
            Severity::Medium => "medium"@,
            Severity::Low => "low"@,
            Severity::Info => "info"@,
        }
    }
}

impl PartialOrd for Severity {
    fn partial_cmp(&self, other: &Self) -> (r: Option<Ordering>) {
        let a = self.to_value();
        let b = other.to_value();
        if a < b {
            Some(Ordering::Less)
        } else if a == b {
            Some(Ordering::Equal)
        } else {
            Some(Ordering::Greater)
        }
    }
}

impl vstd::std_specs::cmp::PartialOrdSpecImpl for Severity {
    open spec fn obeys_partial_cmp_spec() -> bool {
        true
    }

    open spec fn partial_cmp_spec(&self, other: &Self) -> Option<Ordering> {
        if self.rank() < other.rank() {
            Some(Ordering::Less)
        } else if self.rank() == other.rank() {
            Some(Ordering::Equal)
        } else {
            Some(Ordering::Greater)
        }
    }
}

/// One thing to look for on a domain: a path to fetch and a text that the
/// answer must hold.
#[derive(Debug)]
pub struct Rule {
    pub name: String,
    pub path: String,
    pub signature: String,
    pub description: Option<String>,
    pub severity: Option<Severity>,
}

/// A rule as plain values.
pub struct RuleView {
    pub name: Seq<char>,
    pub path: Seq<char>,
    pub signature: Seq<char>,
    pub description: Option<Seq<char>>,
    pub severity: Option<Severity>,
}

impl View for Rule {
    type V = RuleView;

    open spec fn view(&self) -> RuleView {
        RuleView {
            name: self.name@,
            path: self.path@,
            signature: self.signature@,
            description: match self.description {
                Some(d) => Some(d@),
                None => None,
            },
            severity: self.severity,
        }
    }
}

impl Clone for Rule {
    fn clone(&self) -> (r: Self)
        ensures
            r == *self,
    {
        Rule {
            name: self.name.clone(),
            path: self.path.clone(),
            signature: self.signature.clone(),
            description: match &self.description {
                Some(d) => Some(d.clone()),
                None => None,
            },
            severity: self.severity,
        }
    }
}

impl Rule {
    /// A rule with a description and a severity.
    pub fn new(name: &str, path: &str, signature: &str, description: &str, severity: Severity) -> (r:
        Self)
        ensures
            r@ == (RuleView {
                name: name@,
                path: path@,
                signature: signature@,
                description: Some(description@),
                severity: Some(severity),
            }),
    {
        Rule {
            name: name.to_owned(),
            path: path.to_owned(),
            signature: signature.to_owned(),
            description: Some(description.to_owned()),
            severity: Some(severity),
        }
    }
}

/// The views of a sequence of rules.
pub open spec fn rule_views(s: Seq<Rule>) -> Seq<RuleView> {
    s.map_values(|r: Rule| r@)
}

/// The place of a rule in the order: the rank of its severity, and zero
/// for a rule without one.
pub open spec fn sort_rank(r: RuleView) -> nat {
    match r.severity {
        Some(s) => s.rank(),
        None => 0,
    }
}

/// The rules of `s` whose place in the order is `k`, in the order in which
/// they stand in `s`.
pub open spec fn bucket(s: Seq<RuleView>, k: nat) -> Seq<RuleView> {
    s.filter(|r: RuleView| sort_rank(r) == k)
}

/// The rules ordered by severity, the most serious first and those without
/// a severity last; rules of equal severity keep their order.
pub open spec fn by_severity(s: Seq<RuleView>) -> Seq<RuleView> {
    bucket(s, 5) + bucket(s, 4) + bucket(s, 3) + bucket(s, 2) + bucket(s, 1) + bucket(s, 0)
}

/// The rules of a scan, in the order in which they are checked.
#[derive(Debug)]
pub struct RuleSet {
    pub rules: Vec<Rule>,
}

impl View for RuleSet {
    type V = Seq<RuleView>;

    open spec fn view(&self) -> Seq<RuleView> {
        rule_views(self.rules@)
    }
}

impl Clone for RuleSet {
    fn clone(&self) -> (r: Self)
        ensures
            r.rules@ == self.rules@,
    {
        let mut rules: Vec<Rule> = Vec::new();
        let mut i: usize = 0;
        while i < self.rules.len()
            invariant
                i <= self.rules.len(),
                rules@ == self.rules@.take(i as int),
            decreases self.rules.len() - i,
        {
            rules.push(self.rules[i].clone());
            assert(self.rules@.take(i + 1) == self.rules@.take(i as int).push(self.rules@[i as int]));
            i += 1;
        }
        assert(self.rules@.take(self.rules@.len() as int) == self.rules@);
        RuleSet { rules }
    }
}

/// Adding a rule to a sequence adds it to the bucket of its rank and to no
/// other.
pub proof fn lemma_bucket_push(s: Seq<RuleView>, r: RuleView, k: nat)
    ensures
        bucket(s.push(r), k) == if sort_rank(r) == k {
            bucket(s, k).push(r)
        } else {
            bucket(s, k)
        },
{
    reveal(Seq::filter);
    assert(s.push(r).drop_last() == s);
}

fn rank_of(r: &Rule) -> (k: u8)
    ensures
        k == sort_rank(r@),
{
    match &r.severity {
        Some(s) => s.to_value(),
        None => 0,
    }
}

impl RuleSet {
    /// Orders the rules by severity, the most serious first. Rules without
    /// a severity come last, and rules of equal severity keep their order.
    pub fn sort_by_severity(&mut self)
        ensures
            final(self)@ == by_severity(old(self)@),
    {
        let mut src: Vec<Rule> = Vec::new();
        core::mem::swap(&mut src, &mut self.rules);
        let ghost all = rule_views(src@);
        let mut b5: Vec<Rule> = Vec::new();
        let mut b4: Vec<Rule> = Vec::new();
        let mut b3: Vec<Rule> = Vec::new();
        let mut b2: Vec<Rule> = Vec::new();
        let mut b1: Vec<Rule> = Vec::new();
        let mut b0: Vec<Rule> = Vec::new();
        let ghost mut seen: Seq<RuleView> = Seq::empty();
        for r in it: src
            invariant
                rule_views(it.seq()) == all,
                seen == all.take(it.index()),
                rule_views(b5@) == bucket(seen, 5),
                rule_views(b4@) == bucket(seen, 4),
                rule_views(b3@) == bucket(seen, 3),
                rule_views(b2@) == bucket(seen, 2),
                rule_views(b1@) == bucket(seen, 1),
                rule_views(b0@) == bucket(seen, 0),
        {
            proof {
                lemma_bucket_push(seen, r@, 5);
                lemma_bucket_push(seen, r@, 4);
                lemma_bucket_push(seen, r@, 3);
                lemma_bucket_push(seen, r@, 2);
                lemma_bucket_push(seen, r@, 1);
                lemma_bucket_push(seen, r@, 0);
                assert(all.take(it.index() + 1) == seen.push(r@));
                seen = seen.push(r@);
            }
            let k = rank_of(&r);
            if k == 5 {
                b5.push(r);
                assert(rule_views(b5@) == bucket(seen, 5));
            } else if k == 4 {
                b4.push(r);
                assert(rule_views(b4@) == bucket(seen, 4));
            } else if k == 3 {
                b3.push(r);
                assert(rule_views(b3@) == bucket(seen, 3));
            } else if k == 2 {
                b2.push(r);
                assert(rule_views(b2@) == bucket(seen, 2));
            } else if k == 1 {
                b1.push(r);
                assert(rule_views(b1@) == bucket(seen, 1));
            } else {
                b0.push(r);
                assert(rule_views(b0@) == bucket(seen, 0));
            }
        }
        assert(seen == all) by {
            assert(all.take(all.len() as int) == all);
        }
        b5.append(&mut b4);
        b5.append(&mut b3);
        b5.append(&mut b2);
        b5.append(&mut b1);
        b5.append(&mut b0);
        assert(rule_views(b5@) == by_severity(all));
        self.rules = b5;
    }
}

/// A rule set of the given rules, ordered by severity.
pub fn load_rules(rules: Vec<Rule>) -> (set: RuleSet)
    ensures
        set@ == by_severity(rule_views(rules@)),
{
    let mut set = RuleSet { rules };
    set.sort_by_severity();
    set
}

/// The order of the severities is strict and total: of two severities
/// exactly one is the lesser unless they are the same, what is below the
/// lesser is below the greater, and from the most serious down they are
/// critical, high, medium, low, info.
pub proof fn lemma_severity_order(a: Severity, b: Severity, c: Severity)
    ensures
        a.partial_cmp_spec(&a) == Some(Ordering::Equal),
        a.partial_cmp_spec(&b) == Some(Ordering::Equal) <==> a == b,
        a.partial_cmp_spec(&b) == Some(Ordering::Less) <==> b.partial_cmp_spec(&a) == Some(
            Ordering::Greater,
        ),
        a.partial_cmp_spec(&b).is_some(),
        a.partial_cmp_spec(&b) == Some(Ordering::Less) && b.partial_cmp_spec(&c) == Some(
            Ordering::Less,
        ) ==> a.partial_cmp_spec(&c) == Some(Ordering::Less),
        Severity::Critical.partial_cmp_spec(&Severity::High) == Some(Ordering::Greater),
        Severity::High.partial_cmp_spec(&Severity::Medium) == Some(Ordering::Greater),
        Severity::Medium.partial_cmp_spec(&Severity::Low) == Some(Ordering::Greater),
        Severity::Low.partial_cmp_spec(&Severity::Info) == Some(Ordering::Greater),
{
}

/// The rules of one rank among the rules of another rank: all of them
/// where the ranks are the same, none where they differ.
pub proof fn lemma_bucket_of_bucket(s: Seq<RuleView>, j: nat, k: nat)
    ensures
        bucket(bucket(s, j), k) == if j == k {
            bucket(s, j)
        } else {
            Seq::empty()
        },
    decreases s.len(),
{
    reveal(Seq::filter);
    if s.len() > 0 {
        let t = s.drop_last();
        let r = s.last();
        assert(s == t.push(r));
        lemma_bucket_of_bucket(t, j, k);
        lemma_bucket_push(t, r, j);
        if sort_rank(r) == j {
            lemma_bucket_push(bucket(t, j), r, k);
        }
    }
}

/// The rules of one rank in the ordered rules are the rules of that rank
/// in the order in which they stood before.
pub proof fn lemma_bucket_of_sorted(s: Seq<RuleView>, k: nat)
    ensures
        bucket(by_severity(s), k) == bucket(s, k),
{
    let p = |r: RuleView| sort_rank(r) == k;
    let b5 = bucket(s, 5);
    let b4 = bucket(s, 4);
    let b3 = bucket(s, 3);
    let b2 = bucket(s, 2);
    let b1 = bucket(s, 1);
    let b0 = bucket(s, 0);
    Seq::filter_distributes_over_add(b5 + b4 + b3 + b2 + b1, b0, p);
    Seq::filter_distributes_over_add(b5 + b4 + b3 + b2, b1, p);
    Seq::filter_distributes_over_add(b5 + b4 + b3, b2, p);
    Seq::filter_distributes_over_add(b5 + b4, b3, p);
    Seq::filter_distributes_over_add(b5, b4, p);
    lemma_bucket_of_bucket(s, 5, k);
    lemma_bucket_of_bucket(s, 4, k);
    lemma_bucket_of_bucket(s, 3, k);
    lemma_bucket_of_bucket(s, 2, k);
    lemma_bucket_of_bucket(s, 1, k);
    lemma_bucket_of_bucket(s, 0, k);
    if k > 5 {
        assert(bucket(s, k) == Seq::<RuleView>::empty()) by {
            lemma_no_rank_above_five(s, k);
        }
    }
    assert(bucket(by_severity(s), k) =~= bucket(s, k));
}

/// No rule has a rank above five.
pub proof fn lemma_no_rank_above_five(s: Seq<RuleView>, k: nat)
    requires
        k > 5,
    ensures
        bucket(s, k) == Seq::<RuleView>::empty(),
    decreases s.len(),
{
    reveal(Seq::filter);
    if s.len() > 0 {
        lemma_no_rank_above_five(s.drop_last(), k);
    }
}

/// Ordering rules that are ordered changes nothing.
pub proof fn lemma_sort_idempotent(s: Seq<RuleView>)
    ensures
        by_severity(by_severity(s)) == by_severity(s),
{
    lemma_bucket_of_sorted(s, 5);
    lemma_bucket_of_sorted(s, 4);
    lemma_bucket_of_sorted(s, 3);
    lemma_bucket_of_sorted(s, 2);
    lemma_bucket_of_sorted(s, 1);
    lemma_bucket_of_sorted(s, 0);
}

/// In the ordered rules no rule stands before a more serious one, and
/// rules of equal rank, those without a severity among them, stand in
/// the order in which they stood before. The ordered rules are the same
/// rules, each as often as before.
pub proof fn lemma_sort_stable(s: Seq<RuleView>)
    ensures
        forall|i: int, j: int|
            0 <= i < j < by_severity(s).len() ==> sort_rank(#[trigger] by_severity(s)[i])
                >= sort_rank(#[trigger] by_severity(s)[j]),
        forall|k: nat| #[trigger] bucket(by_severity(s), k) == bucket(s, k),
        by_severity(s).len() == s.len(),
        by_severity(s).to_multiset() == s.to_multiset(),
{
    let out = by_severity(s);
    assert forall|k: nat| #[trigger] bucket(out, k) == bucket(s, k) by {
        lemma_bucket_of_sorted(s, k);
    }
    let b5 = bucket(s, 5);
    let b4 = bucket(s, 4);
    let b3 = bucket(s, 3);
    let b2 = bucket(s, 2);
    let b1 = bucket(s, 1);
    let b0 = bucket(s, 0);
    assert forall|i: int| 0 <= i < out.len() implies sort_rank(#[trigger] out[i]) == (if i
        < b5.len() {
        5nat
    } else if i < b5.len() + b4.len() {
        4nat
    } else if i < b5.len() + b4.len() + b3.len() {
        3nat
    } else if i < b5.len() + b4.len() + b3.len() + b2.len() {
        2nat
    } else if i < b5.len() + b4.len() + b3.len() + b2.len() + b1.len() {
        1nat
    } else {
        0nat
    }) by {
        if i < b5.len() {
            s.lemma_filter_pred(|r: RuleView| sort_rank(r) == 5, i);
        } else if i < b5.len() + b4.len() {
            s.lemma_filter_pred(|r: RuleView| sort_rank(r) == 4, i - b5.len());
        } else if i < b5.len() + b4.len() + b3.len() {
            s.lemma_filter_pred(|r: RuleView| sort_rank(r) == 3, i - b5.len() - b4.len());
        } else if i < b5.len() + b4.len() + b3.len() + b2.len() {
            s.lemma_filter_pred(|r: RuleView| sort_rank(r) == 2, i - b5.len() - b4.len() - b3.len());
        } else if i < b5.len() + b4.len() + b3.len() + b2.len() + b1.len() {
            s.lemma_filter_pred(
                |r: RuleView| sort_rank(r) == 1,
                i - b5.len() - b4.len() - b3.len() - b2.len(),
            );
        } else {
            s.lemma_filter_pred(
                |r: RuleView| sort_rank(r) == 0,
                i - b5.len() - b4.len() - b3.len() - b2.len() - b1.len(),
            );
        }
    }
    lemma_same_rules(s);
}

/// The ordered rules are the same rules, each as often as before.
pub proof fn lemma_same_rules(s: Seq<RuleView>)
    ensures
        by_severity(s).to_multiset() == s.to_multiset(),
        by_severity(s).len() == s.len(),
    decreases s.len(),
{
    broadcast use vstd::seq_lib::group_to_multiset_ensures;

    let out = by_severity(s);
    if s.len() == 0 {
        reveal(Seq::filter);
        assert(out =~= s);
    } else {
        let t = s.drop_last();
        let r = s.last();
        assert(s == t.push(r));
        lemma_same_rules(t);
        lemma_bucket_push(t, r, 5);
        lemma_bucket_push(t, r, 4);
        lemma_bucket_push(t, r, 3);
        lemma_bucket_push(t, r, 2);
        lemma_bucket_push(t, r, 1);
        lemma_bucket_push(t, r, 0);
        let b5 = bucket(t, 5);
        let b4 = bucket(t, 4);
        let b3 = bucket(t, 3);
        let b2 = bucket(t, 2);
        let b1 = bucket(t, 1);
        let b0 = bucket(t, 0);
        let k = sort_rank(r);
        // The new rule goes in behind the rules of its rank.
        let front = if k == 5 {
            b5
        } else if k == 4 {
            b5 + b4
        } else if k == 3 {
            b5 + b4 + b3
        } else if k == 2 {
            b5 + b4 + b3 + b2
        } else if k == 1 {
            b5 + b4 + b3 + b2 + b1
        } else {
            b5 + b4 + b3 + b2 + b1 + b0
        };
        let back = if k == 5 {
            b4 + b3 + b2 + b1 + b0
        } else if k == 4 {
            b3 + b2 + b1 + b0
        } else if k == 3 {
            b2 + b1 + b0
        } else if k == 2 {
            b1 + b0
        } else if k == 1 {
            b0
        } else {
            Seq::empty()
        };
        assert(by_severity(t) =~= front + back);
        assert(out =~= front.push(r) + back);
        vstd::seq_lib::lemma_multiset_commutative(front, back);
        vstd::seq_lib::lemma_multiset_commutative(front.push(r), back);
        assert(front.push(r).to_multiset() == front.to_multiset().insert(r));
        assert(s.to_multiset() == t.to_multiset().insert(r));
        assert(out.to_multiset() =~= s.to_multiset());
    }
}

/// Whether a rule of the given name is among the rules.
pub open spec fn has_name(rules: Seq<RuleView>, name: Seq<char>) -> bool {
    exists|i: int| 0 <= i < rules.len() && (#[trigger] rules[i]).name == name
}

/// The rules after others have been added: each incoming rule, in its
/// turn, comes last unless a rule of its name is there already.
pub open spec fn merged(existing: Seq<RuleView>, incoming: Seq<RuleView>) -> Seq<RuleView>
    decreases incoming.len(),
{
    if incoming.len() == 0 {
        existing
    } else {
        let m = merged(existing, incoming.drop_last());
        if has_name(m, incoming.last().name) {
            m
        } else {
            m.push(incoming.last())
        }
    }
}

/// The rules without those of the given name.
pub open spec fn without_name(rules: Seq<RuleView>, name: Seq<char>) -> Seq<RuleView> {
    rules.filter(|r: RuleView| r.name != name)
}

fn names(rules: &Vec<Rule>, name: &String) -> (r: bool)
    ensures
        r == has_name(rule_views(rules@), name@),
{
    let mut i: usize = 0;
    while i < rules.len()
        invariant
            i <= rules.len(),
            forall|k: int| 0 <= k < i ==> (#[trigger] rule_views(rules@)[k]).name != name@,
        decreases rules.len() - i,
    {
        if rules[i].name == *name {
            assert(rule_views(rules@)[i as int].name == name@);
            return true;
        }
        i += 1;
    }
    false
}

/// Adds the incoming rules to a rule set, but for those whose name is
/// taken, and returns how many were added. The set is not ordered anew.
pub fn add_rule(existing: &mut RuleSet, incoming: RuleSet) -> (added: usize)
    ensures
        final(existing)@ == merged(old(existing)@, incoming@),
        added == final(existing)@.len() - old(existing)@.len(),
{
    let ghost before = existing@;
    let ghost all = incoming@;
    let mut added: usize = 0;
    let RuleSet { rules } = incoming;
    let count = rules.len();
    for rule in it: rules
        invariant
            it.seq().len() == count,
            rule_views(it.seq()) == all,
            existing@ == merged(before, all.take(it.index())),
            added == existing@.len() - before.len(),
            added <= it.index(),
    {
        proof {
            assert(all.take(it.index() + 1).drop_last() == all.take(it.index()));
            assert(all.take(it.index() + 1).last() == rule@);
        }
        if !names(&existing.rules, &rule.name) {
            let ghost held = existing@;
            existing.rules.push(rule);
            assert(existing@ == held.push(rule@));
            added += 1;
        }
    }
    assert(all.take(all.len() as int) == all);
    added
}

/// Takes the rules of the given name out of a rule set, and tells whether
/// there was one.
pub fn remove_rule(ruleset: &mut RuleSet, rule_name: &str) -> (found: bool)
    ensures
        final(ruleset)@ == without_name(old(ruleset)@, rule_name@),
        found == has_name(old(ruleset)@, rule_name@),
{
    let ghost all = ruleset@;
    let ghost keep = |r: RuleView| r.name != rule_name@;
    let mut src: Vec<Rule> = Vec::new();
    core::mem::swap(&mut src, &mut ruleset.rules);
    let mut kept: Vec<Rule> = Vec::new();
    let mut found = false;
    for rule in it: src
        invariant
            rule_views(it.seq()) == all,
            keep == (|r: RuleView| r.name != rule_name@),
            rule_views(kept@) == all.take(it.index()).filter(keep),
            found == has_name(all.take(it.index()), rule_name@),
    {
        proof {
            reveal(Seq::filter);
            assert(all.take(it.index() + 1).drop_last() == all.take(it.index()));
            assert(all.take(it.index() + 1).last() == rule@);
            let longer = all.take(it.index() + 1);
            let shorter = all.take(it.index());
            if has_name(shorter, rule_name@) {
                let k = choose|k: int| 0 <= k < shorter.len() && (#[trigger] shorter[k]).name
                    == rule_name@;
                assert(longer[k].name == rule_name@);
            }
            if has_name(longer, rule_name@) && rule@.name != rule_name@ {
                let k = choose|k: int| 0 <= k < longer.len() && (#[trigger] longer[k]).name
                    == rule_name@;
                assert(shorter[k].name == rule_name@);
            }
            if rule@.name == rule_name@ {
                assert(longer[it.index()].name == rule_name@);
            }
        }
        if crate::text::same_text(rule.name.as_str(), rule_name) {
            found = true;
        } else {
            let ghost held = rule_views(kept@);
            kept.push(rule);
            assert(rule_views(kept@) == held.push(rule@));
        }
    }
    assert(all.take(all.len() as int) == all);
    ruleset.rules = kept;
    found
}

} // verus!
