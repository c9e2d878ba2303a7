//! The audit report's data model, severity filtering and ordering, and the
//! per-severity counts.

use vstd::prelude::*;
use crate::name_map::NameMap;

verus! {

/// How serious a vulnerability is, in increasing order.
#[derive(Debug, Clone, Copy, PartialEq, Eq, Structural, PartialOrd, Ord, Hash)]
pub enum Severity {
    Info,
    Low,
    Moderate,
    High,
    Critical,
}

impl Severity {
    /// Position in the order `Info < Low < Moderate < High < Critical`.
    pub open spec fn level(self) -> nat {
        match self {
            Severity::Info => 0,
            Severity::Low => 1,
            Severity::Moderate => 2,
            Severity::High => 3,
            Severity::Critical => 4,
        }
    }

    /// The lowercase name npm uses for the severity.
    pub open spec fn label(self) -> Seq<char> {
        match self {
            Severity::Info => "info"@,
            Severity::Low => "low"@,
            Severity::Moderate => "moderate"@,
            Severity::High => "high"@,
            Severity::Critical => "critical"@,
        }
    }

    /// Position in the severity order, as a number.
    pub fn rank(&self) -> (r: u8)
        ensures
            r == self.level(),
    {
        match self {
            Severity::Info => 0,
            Severity::Low => 1,
            Severity::Moderate => 2,
            Severity::High => 3,
            Severity::Critical => 4,
        }
    }

    /// The lowercase name npm uses for the severity.
    pub fn as_str(&self) -> (r: &'static str)
        ensures
            r@ == self.label(),
    {
        match self {
            Severity::Info => "info",
            Severity::Low => "low",
            Severity::Moderate => "moderate",
            Severity::High => "high",
            Severity::Critical => "critical",
        }
    }
}

/// Whether the vulnerable package is a direct dependency of the project.
#[derive(Debug, Clone, Copy, PartialEq, Eq, Structural)]
pub enum DependencyType {
    Direct,
    Indirect,
}

impl DependencyType {
    /// The name shown for the dependency type.
    pub open spec fn label(self) -> Seq<char> {
        match self {
            DependencyType::Direct => "direct"@,
            DependencyType::Indirect => "indirect"@,
        }
    }

    /// The name shown for the dependency type.
    pub fn as_str(&self) -> (r: &'static str)
        ensures
            r@ == self.label(),
    {
        match self {
            DependencyType::Direct => "direct",
            DependencyType::Indirect => "indirect",
        }
    }
}

/// npm's `isDirect` flag as a dependency type.
pub open spec fn dependency_type_of(is_direct: bool) -> DependencyType {
    if is_direct {
        DependencyType::Direct
    } else {
        DependencyType::Indirect
    }
}

impl From<bool> for DependencyType {
    fn from(is_direct: bool) -> (r: Self) {
        if is_direct {
            DependencyType::Direct
        } else {
            DependencyType::Indirect
        }
    }
}

impl vstd::std_specs::convert::FromSpecImpl<bool> for DependencyType {
    open spec fn obeys_from_spec() -> bool {
        true
    }

    open spec fn from_spec(is_direct: bool) -> Self {
        dependency_type_of(is_direct)
    }
}

/// An advisory that a vulnerability comes from.
#[derive(Debug, Clone)]
pub struct Advisory {
    pub title: String,
    pub url: String,
    pub range: String,
}

/// The fix that npm proposes: a package version to install.
#[derive(Debug, Clone)]
pub struct Fix {
    pub name: String,
    pub version: String,
}

/// Where a vulnerability comes from: an advisory, or another vulnerable
/// package named by reference.
#[derive(Debug, Clone)]
pub enum Via {
    Advisory(Advisory),
    Reference(String),
}

/// npm's `fixAvailable`: a flag, or the fix itself.
#[derive(Debug, Clone)]
pub enum FixAvailable {
    Bool(bool),
    Fix(Fix),
}

/// One vulnerable package of the report.
#[derive(Debug, Clone)]
pub struct Vulnerability {
    pub name: String,
    pub severity: Severity,
    pub is_direct: DependencyType,
    pub via: Vec<Via>,
    pub range: String,
    pub fix_available: FixAvailable,
}

/// Number of vulnerabilities at each severity, and in all.
#[derive(Debug, Clone, Copy, PartialEq, Eq, Structural, Default)]
pub struct VulnCount {
    pub info: u32,
    pub low: u32,
    pub moderate: u32,
    pub high: u32,
    pub critical: u32,
    pub total: u32,
}

/// The report's metadata.
#[derive(Debug, Clone, Copy, Default)]
pub struct Metadata {
    pub vulnerabilities: VulnCount,
}

/// An `npm audit --json` report: vulnerabilities keyed by package name.
#[derive(Debug)]
pub struct AuditReport {
    pub vulnerabilities: NameMap<Vulnerability>,
    pub metadata: Metadata,
}

/// An entry of `npm outdated --json`.
#[derive(Debug, Clone, PartialEq, Eq)]
pub struct OutdatedEntry {
    pub current: Option<String>,
    pub latest: String,
}

/// The lowest severity that a filter keeps: `Info` when none is given.
pub open spec fn floor_level(min_severity: Option<Severity>) -> nat {
    match min_severity {
        Some(s) => s.level(),
        None => Severity::Info.level(),
    }
}

/// `v` is at or above the filter's lowest severity.
pub open spec fn passes(v: Vulnerability, min_severity: Option<Severity>) -> bool {
    v.severity.level() >= floor_level(min_severity)
}

/// The vulnerabilities of `s` that are at or above the filter's lowest severity, in order.
pub open spec fn at_or_above(s: Seq<Vulnerability>, min_severity: Option<Severity>) -> Seq<Vulnerability> {
    s.filter(|v: Vulnerability| passes(v, min_severity))
}

/// The vulnerabilities of `s` with severity `sev`, in order.
pub open spec fn with_severity(s: Seq<Vulnerability>, sev: Severity) -> Seq<Vulnerability> {
    s.filter(|v: Vulnerability| v.severity == sev)
}

/// `s` ordered by severity, lowest first, keeping the order of `s` among
/// vulnerabilities of equal severity (a stable sort by severity).
pub open spec fn by_severity(s: Seq<Vulnerability>) -> Seq<Vulnerability> {
    with_severity(s, Severity::Info) + with_severity(s, Severity::Low) + with_severity(
        s,
        Severity::Moderate,
    ) + with_severity(s, Severity::High) + with_severity(s, Severity::Critical)
}

/// The vulnerabilities that a sequence of references points to.
pub open spec fn targets(s: Seq<&Vulnerability>) -> Seq<Vulnerability> {
    s.map_values(|r: &Vulnerability| *r)
}

/// The counts of each severity among the vulnerabilities of `s`.
pub open spec fn count_of(s: Seq<Vulnerability>) -> VulnCount {
    VulnCount {
        info: with_severity(s, Severity::Info).len() as u32,
        low: with_severity(s, Severity::Low).len() as u32,
        moderate: with_severity(s, Severity::Moderate).len() as u32,
        high: with_severity(s, Severity::High).len() as u32,
        critical: with_severity(s, Severity::Critical).len() as u32,
        total: s.len() as u32,
    }
}

proof fn lemma_filter_step<A>(s: Seq<A>, pred: spec_fn(A) -> bool, i: int)
    requires
        0 <= i < s.len(),
    ensures
        s.take(i + 1).filter(pred) == if pred(s[i]) {
            s.take(i).filter(pred).push(s[i])
        } else {
            s.take(i).filter(pred)
        },
{
    reveal_with_fuel(Seq::<_>::filter, 1);
    assert(s.take(i + 1).drop_last() =~= s.take(i));
}

proof fn lemma_targets_push<'a>(s: Seq<&'a Vulnerability>, r: &'a Vulnerability)
    ensures
        targets(s.push(r)) == targets(s).push(*r),
{
    assert(targets(s.push(r)) =~= targets(s).push(*r));
}

/// Appends to `out` the vulnerabilities of `src` with severity `sev`, in order.
fn append_with_severity<'a>(out: &mut Vec<&'a Vulnerability>, src: &Vec<&'a Vulnerability>, sev: Severity)
    ensures
        targets(final(out)@) == targets(old(out)@) + with_severity(targets(src@), sev),
{
    let n = src.len();
    let ghost s = targets(src@);
    let ghost start = targets(out@);
    let ghost pred = |v: Vulnerability| v.severity == sev;
    for i in 0..n
        invariant
            n == src@.len(),
            s == targets(src@),
            pred == (|v: Vulnerability| v.severity == sev),
            targets(out@) == start + s.take(i as int).filter(pred),
    {
        proof {
            lemma_filter_step(s, pred, i as int);
        }
        let v = src[i];
        assert(s[i as int] == *v);
        assert(pred(s[i as int]) == (v.severity == sev));
        if v.severity == sev {
            proof {
                lemma_targets_push(out@, v);
            }
            out.push(v);
        }
    }
    assert(s.take(n as int) =~= s);
}

impl AuditReport {
    /// The vulnerabilities at or above `min_severity` (all of them when it is
    /// `None`), in the order of the report.
    pub fn filtered_vulnerabilities(&self, min_severity: Option<Severity>) -> (r: Vec<&Vulnerability>)
        ensures
            targets(r@) == at_or_above(self.vulnerabilities.values(), min_severity),
            forall|i: int| 0 <= i < r@.len() ==> match min_severity {
                Some(m) => (#[trigger] r@[i]).severity.level() >= m.level(),
                None => true,
            },
            forall|i: int| 0 <= i < self.vulnerabilities.values().len() ==> match min_severity {
                Some(m) => (#[trigger] self.vulnerabilities.values()[i]).severity.level() >= m.level(),
                None => true,
            } ==> targets(r@).contains(self.vulnerabilities.values()[i]),
    {
        let floor = min_severity.unwrap_or(Severity::Info);
        let floor_rank = floor.rank();
        let n = self.vulnerabilities.len();
        let ghost s = self.vulnerabilities.values();
        let ghost pred = |v: Vulnerability| passes(v, min_severity);
        let mut out: Vec<&Vulnerability> = Vec::new();
        for i in 0..n
            invariant
                n == s.len(),
                s == self.vulnerabilities.values(),
                floor_rank == floor_level(min_severity),
                pred == (|v: Vulnerability| passes(v, min_severity)),
                targets(out@) == s.take(i as int).filter(pred),
        {
            proof {
                lemma_filter_step(s, pred, i as int);
            }
            let v = self.vulnerabilities.value_at(i);
            assert(s[i as int] == *v);
            assert(pred(s[i as int]) == (v.severity.level() >= floor_rank));
            if v.severity.rank() >= floor_rank {
                proof {
                    lemma_targets_push(out@, v);
                }
                out.push(v);
            }
        }
        assert(s.take(n as int) =~= s);
        proof {
            lemma_filter_exact(s, min_severity);
            assert forall|i: int| 0 <= i < out@.len() implies match min_severity {
                Some(m) => (#[trigger] out@[i]).severity.level() >= m.level(),
                None => true,
            } by {
                assert(targets(out@)[i] == *out@[i]);
                assert(passes(targets(out@)[i], min_severity));
            }
        }
        out
    }

    /// The vulnerabilities at or above `min_severity`, ordered by severity,
    /// lowest first; equal severities keep the order of the report.
    pub fn sorted_vulnerabilities(&self, min_severity: Option<Severity>) -> (r: Vec<&Vulnerability>)
        ensures
            targets(r@) == by_severity(at_or_above(self.vulnerabilities.values(), min_severity)),
            targets(r@).to_multiset() == at_or_above(self.vulnerabilities.values(), min_severity).to_multiset(),
            forall|i: int, j: int|
                0 <= i <= j < r@.len() ==> (#[trigger] r@[i]).severity.level() <= (#[trigger] r@[j]).severity.level(),
            forall|i: int| 0 <= i < r@.len() ==> match min_severity {
                Some(m) => (#[trigger] r@[i]).severity.level() >= m.level(),
                None => true,
            },
            forall|i: int| 0 <= i < self.vulnerabilities.values().len() ==> match min_severity {
                Some(m) => (#[trigger] self.vulnerabilities.values()[i]).severity.level() >= m.level(),
                None => true,
            } ==> targets(r@).contains(self.vulnerabilities.values()[i]),
    {
        let filtered = self.filtered_vulnerabilities(min_severity);
        let mut out: Vec<&Vulnerability> = Vec::new();
        assert(targets(out@) =~= Seq::<Vulnerability>::empty());
        append_with_severity(&mut out, &filtered, Severity::Info);
        append_with_severity(&mut out, &filtered, Severity::Low);
        append_with_severity(&mut out, &filtered, Severity::Moderate);
        append_with_severity(&mut out, &filtered, Severity::High);
        append_with_severity(&mut out, &filtered, Severity::Critical);
        proof {
            broadcast use vstd::seq_lib::group_to_multiset_ensures;

            let f = at_or_above(self.vulnerabilities.values(), min_severity);
            let t = targets(out@);
            lemma_by_severity_permutes(f);
            lemma_by_severity_sorted(f);
            assert forall|i: int, j: int|
                0 <= i <= j < out@.len() implies (#[trigger] out@[i]).severity.level() <= (#[trigger] out@[j]).severity.level() by {
                assert(t[i] == *out@[i]);
                assert(t[j] == *out@[j]);
                assert(by_severity(f)[i].severity.level() <= by_severity(f)[j].severity.level());
            }
            assert forall|i: int| 0 <= i < out@.len() implies match min_severity {
                Some(m) => (#[trigger] out@[i]).severity.level() >= m.level(),
                None => true,
            } by {
                assert(t[i] == *out@[i]);
                assert(t.contains(t[i]));
                assert(t.to_multiset().count(t[i]) > 0);
                assert(f.to_multiset().count(t[i]) > 0);
                assert(f.contains(t[i]));
                let k = choose|k: int| 0 <= k < filtered@.len() && f[k] == t[i];
                assert(f[k] == *filtered@[k]);
                assert(filtered@[k].severity == t[i].severity);
            }
            assert forall|i: int| 0 <= i < self.vulnerabilities.values().len() && match min_severity {
                Some(m) => (#[trigger] self.vulnerabilities.values()[i]).severity.level() >= m.level(),
                None => true,
            } implies t.contains(self.vulnerabilities.values()[i]) by {
                let v = self.vulnerabilities.values()[i];
                assert(f.contains(v));
                assert(f.to_multiset().count(v) > 0);
                assert(t.to_multiset().count(v) > 0);
            }
        }
        out
    }
}

impl VulnCount {
    /// Counts the vulnerabilities of each severity, and all of them.
    pub fn from_iter(vulns: &Vec<&Vulnerability>) -> (r: VulnCount)
        requires
            vulns@.len() <= u32::MAX,
        ensures
            r == count_of(targets(vulns@)),
    {
        let n = vulns.len();
        let ghost s = targets(vulns@);
        let mut acc = VulnCount { info: 0, low: 0, moderate: 0, high: 0, critical: 0, total: 0 };
        assert(s.take(0) =~= Seq::<Vulnerability>::empty());
        proof {
            reveal_with_fuel(Seq::<_>::filter, 1);
        }
        for i in 0..n
            invariant
                n == s.len(),
                n <= u32::MAX,
                s == targets(vulns@),
                acc == count_of(s.take(i as int)),
        {
            let v = vulns[i];
            assert(s[i as int] == *v);
            proof {
                lemma_with_severity_push(s.take(i as int), *v, Severity::Info);
                lemma_with_severity_push(s.take(i as int), *v, Severity::Low);
                lemma_with_severity_push(s.take(i as int), *v, Severity::Moderate);
                lemma_with_severity_push(s.take(i as int), *v, Severity::High);
                lemma_with_severity_push(s.take(i as int), *v, Severity::Critical);
                lemma_counts_sum(s.take(i as int));
                assert(s.take(i as int).push(*v) =~= s.take(i + 1));
            }
            match v.severity {
                Severity::Info => acc.info += 1,
                Severity::Low => acc.low += 1,
                Severity::Moderate => acc.moderate += 1,
                Severity::High => acc.high += 1,
                Severity::Critical => acc.critical += 1,
            }
            acc.total += 1;
        }
        assert(s.take(n as int) =~= s);
        acc
    }
}

/// The severities, from the least to the most serious: info, low,
/// moderate, high, critical.
pub proof fn lemma_severity_order()
    ensures
        Severity::Info.level() < Severity::Low.level(),
        Severity::Low.level() < Severity::Moderate.level(),
        Severity::Moderate.level() < Severity::High.level(),
        Severity::High.level() < Severity::Critical.level(),
{
}

/// Appending one vulnerability extends exactly the run of its own severity.
pub proof fn lemma_with_severity_push(t: Seq<Vulnerability>, x: Vulnerability, sev: Severity)
    ensures
        with_severity(t.push(x), sev) == if x.severity == sev {
            with_severity(t, sev).push(x)
        } else {
            with_severity(t, sev)
        },
{
    reveal_with_fuel(Seq::<_>::filter, 1);
    assert(t.push(x).drop_last() =~= t);
}

/// Every vulnerability has exactly one severity: the five per-severity
/// counts of a sequence add up to its length.
pub proof fn lemma_counts_sum(s: Seq<Vulnerability>)
    ensures
        with_severity(s, Severity::Info).len() + with_severity(s, Severity::Low).len()
            + with_severity(s, Severity::Moderate).len() + with_severity(s, Severity::High).len()
            + with_severity(s, Severity::Critical).len() == s.len(),
    decreases s.len(),
{
    if s.len() == 0 {
        reveal_with_fuel(Seq::<_>::filter, 1);
    } else {
        let t = s.drop_last();
        lemma_counts_sum(t);
        assert(t.push(s.last()) =~= s);
        lemma_with_severity_push(t, s.last(), Severity::Info);
        lemma_with_severity_push(t, s.last(), Severity::Low);
        lemma_with_severity_push(t, s.last(), Severity::Moderate);
        lemma_with_severity_push(t, s.last(), Severity::High);
        lemma_with_severity_push(t, s.last(), Severity::Critical);
    }
}

/// The counts of a list of vulnerabilities are consistent: the counts of the
/// five severities add up to the total, which is the list's length.
pub proof fn lemma_count_total(s: Seq<Vulnerability>)
    requires
        s.len() <= u32::MAX,
    ensures
        count_of(s).info + count_of(s).low + count_of(s).moderate + count_of(s).high
            + count_of(s).critical == count_of(s).total,
        count_of(s).total == s.len(),
{
    lemma_counts_sum(s);
}

proof fn lemma_concat5_multiset(
    a: Seq<Vulnerability>,
    b: Seq<Vulnerability>,
    c: Seq<Vulnerability>,
    d: Seq<Vulnerability>,
    e: Seq<Vulnerability>,
)
    ensures
        (a + b + c + d + e).to_multiset() == a.to_multiset().add(b.to_multiset()).add(
            c.to_multiset(),
        ).add(d.to_multiset()).add(e.to_multiset()),
{
    vstd::seq_lib::lemma_multiset_commutative(a, b);
    vstd::seq_lib::lemma_multiset_commutative(a + b, c);
    vstd::seq_lib::lemma_multiset_commutative(a + b + c, d);
    vstd::seq_lib::lemma_multiset_commutative(a + b + c + d, e);
}

/// Ordering by severity neither loses nor adds a vulnerability: the result
/// is a permutation of its input.
pub proof fn lemma_by_severity_permutes(s: Seq<Vulnerability>)
    ensures
        by_severity(s).to_multiset() == s.to_multiset(),
    decreases s.len(),
{
    broadcast use vstd::seq_lib::group_to_multiset_ensures;

    if s.len() == 0 {
        reveal_with_fuel(Seq::<_>::filter, 1);
        assert(by_severity(s) =~= s);
    } else {
        let t = s.drop_last();
        let x = s.last();
        lemma_by_severity_permutes(t);
        assert(t.push(x) =~= s);
        lemma_with_severity_push(t, x, Severity::Info);
        lemma_with_severity_push(t, x, Severity::Low);
        lemma_with_severity_push(t, x, Severity::Moderate);
        lemma_with_severity_push(t, x, Severity::High);
        lemma_with_severity_push(t, x, Severity::Critical);
        lemma_concat5_multiset(
            with_severity(t, Severity::Info),
            with_severity(t, Severity::Low),
            with_severity(t, Severity::Moderate),
            with_severity(t, Severity::High),
            with_severity(t, Severity::Critical),
        );
        lemma_concat5_multiset(
            with_severity(s, Severity::Info),
            with_severity(s, Severity::Low),
            with_severity(s, Severity::Moderate),
            with_severity(s, Severity::High),
            with_severity(s, Severity::Critical),
        );
        assert(by_severity(s).to_multiset() =~= by_severity(t).to_multiset().insert(x));
    }
}

proof fn lemma_with_severity_all(s: Seq<Vulnerability>, sev: Severity)
    ensures
        forall|i: int|
            0 <= i < with_severity(s, sev).len() ==> (#[trigger] with_severity(s, sev)[i]).severity
                == sev,
{
    broadcast use vstd::seq_lib::group_filter_ensures;

    assert forall|i: int| 0 <= i < with_severity(s, sev).len() implies (#[trigger] with_severity(
        s,
        sev,
    )[i]).severity == sev by {
        s.lemma_filter_pred(|v: Vulnerability| v.severity == sev, i);
    }
}

/// Ordering by severity yields vulnerabilities in non-decreasing severity.
pub proof fn lemma_by_severity_sorted(s: Seq<Vulnerability>)
    ensures
        forall|i: int, j: int|
            0 <= i <= j < by_severity(s).len() ==> (#[trigger] by_severity(s)[i]).severity.level()
                <= (#[trigger] by_severity(s)[j]).severity.level(),
{
    let a = with_severity(s, Severity::Info);
    let b = with_severity(s, Severity::Low);
    let c = with_severity(s, Severity::Moderate);
    let d = with_severity(s, Severity::High);
    let e = with_severity(s, Severity::Critical);
    lemma_with_severity_all(s, Severity::Info);
    lemma_with_severity_all(s, Severity::Low);
    lemma_with_severity_all(s, Severity::Moderate);
    lemma_with_severity_all(s, Severity::High);
    lemma_with_severity_all(s, Severity::Critical);
    let r = by_severity(s);
    let l1 = a.len();
    let l2 = l1 + b.len();
    let l3 = l2 + c.len();
    let l4 = l3 + d.len();
    assert forall|i: int| 0 <= i < r.len() implies #[trigger] r[i].severity.level() == (if i < l1 {
        0int
    } else if i < l2 {
        1int
    } else if i < l3 {
        2int
    } else if i < l4 {
        3int
    } else {
        4int
    }) by {
        if i < l1 {
            assert(r[i] == a[i]);
        } else if i < l2 {
            assert(r[i] == b[i - l1]);
        } else if i < l3 {
            assert(r[i] == c[i - l2]);
        } else if i < l4 {
            assert(r[i] == d[i - l3]);
        } else {
            assert(r[i] == e[i - l4]);
        }
    }
}

/// Without a lowest severity, the filter keeps every vulnerability, in order.
pub proof fn lemma_no_floor_keeps_all(s: Seq<Vulnerability>)
    ensures
        at_or_above(s, None) == s,
    decreases s.len(),
{
    reveal_with_fuel(Seq::<_>::filter, 1);
    if s.len() > 0 {
        lemma_no_floor_keeps_all(s.drop_last());
        assert(s.drop_last().push(s.last()) =~= s);
    }
}

/// The filter keeps exactly the vulnerabilities at or above the lowest
/// severity: everything it keeps passes, and everything that passes is kept.
pub proof fn lemma_filter_exact(s: Seq<Vulnerability>, min_severity: Option<Severity>)
    ensures
        forall|i: int| 0 <= i < at_or_above(s, min_severity).len()
            ==> passes(#[trigger] at_or_above(s, min_severity)[i], min_severity),
        forall|i: int| 0 <= i < s.len() && passes(s[i], min_severity)
            ==> #[trigger] at_or_above(s, min_severity).contains(s[i]),
{
    broadcast use vstd::seq_lib::group_filter_ensures;
}

} // verus!
