//! The promote gate: checks that decide, from the results of the integrity,
//! foreign key and operator-defined queries and from the diff summary,
//! whether staging may be promoted to production.
use vstd::prelude::*;
use crate::diff::DiffOptions;
use crate::summary::ProdStgDiffSummary;
use crate::text::{push_str, push_i64, push_usize, dec_int, dec_nat};
use crate::types::str_eq;

verus! {

broadcast use vstd::std_specs::vec::group_vec_axioms;

/// An operator-defined invariant: `sql` yields a count that must lie within
/// the bounds.
pub struct GoldenAssertion {
    pub name: String,
    pub sql: String,
    pub expected_min: Option<i64>,
    pub expected_max: Option<i64>,
}

/// Result of running the query of a golden assertion.
pub enum GoldenResult {
    Count(i64),
    Error(String),
}

/// Limits of the promote gate, compared with the totals of the diff summary.
pub struct GateConfig {
    /// Most rows a promote may add to production.
    pub max_added: usize,
    /// Most rows a promote may remove from production.
    pub max_removed: usize,
    /// Most rows a promote may overwrite in production.
    pub max_changed: usize,
    /// Operator-defined invariants.
    pub golden_assertions: Vec<GoldenAssertion>,
}

impl Default for GateConfig {
    fn default() -> (r: Self)
        ensures
            r.max_added == 5000,
            r.max_removed == 1000,
            r.max_changed == 5000,
            r.golden_assertions@.len() == 0,
    {
        GateConfig { max_added: 5000, max_removed: 1000, max_changed: 5000, golden_assertions: Vec::new() }
    }
}

/// Outcome of one check of the promote gate.
pub struct GateCheck {
    pub name: String,
    pub passed: bool,
    pub detail: String,
}

/// A row that violates a foreign key.
pub struct FkViolation {
    pub table: String,
    pub rowid: i64,
}

/// Result of observing staging against production.
pub struct ObserveResult {
    /// Every check passed.
    pub passed: bool,
    pub prod_schema_version: i64,
    pub stg_schema_version: i64,
    pub summary: ProdStgDiffSummary,
    pub checks: Vec<GateCheck>,
}

impl ObserveResult {
    /// Every check passed.
    pub fn all_passed(checks: &[GateCheck]) -> (r: bool)
        ensures
            r == forall|i: int| 0 <= i < checks@.len() ==> #[trigger] checks@[i].passed,
    {
        let mut i: usize = 0;
        while i < checks.len()
            invariant
                i <= checks@.len(),
                forall|j: int| 0 <= j < i ==> #[trigger] checks@[j].passed,
            decreases checks@.len() - i,
        {
            if !checks[i].passed {
                return false;
            }
            i = i + 1;
        }
        true
    }
}

/// Options of an observation.
pub struct ObserveOptions {
    pub diff_options: DiffOptions,
    pub gate_config: GateConfig,
}

impl Default for ObserveOptions {
    fn default() -> (r: Self)
        ensures
            r.diff_options.detail is None,
            r.gate_config.max_added == 5000,
            r.gate_config.max_removed == 1000,
            r.gate_config.max_changed == 5000,
            r.gate_config.golden_assertions@.len() == 0,
    {
        ObserveOptions { diff_options: DiffOptions::default(), gate_config: GateConfig::default() }
    }
}

/// Name, outcome and detail of a check.
pub open spec fn check_view(c: GateCheck) -> (Seq<char>, bool, Seq<char>) {
    (c.name@, c.passed, c.detail@)
}

/// One foreign key violation as text: `{table} rowid={rowid}`.
pub open spec fn fk_text(v: FkViolation) -> Seq<char> {
    v.table@ + " rowid="@ + dec_int(v.rowid as int)
}

/// The violations of `s` as text, separated by `, `.
pub open spec fn fk_list(s: Seq<FkViolation>) -> Seq<char>
    decreases s.len(),
{
    if s.len() == 0 {
        Seq::empty()
    } else if s.len() == 1 {
        fk_text(s[0])
    } else {
        fk_list(s.drop_last()) + ", "@ + fk_text(s.last())
    }
}

/// Detail of the foreign key check.
pub open spec fn fk_detail(fk: Seq<FkViolation>, enabled: bool) -> Seq<char> {
    if !enabled {
        "foreign_keys disabled"@
    } else if fk.len() == 0 {
        "ok (no violations)"@
    } else {
        dec_nat(fk.len()) + " violation(s): "@ + fk_list(if fk.len() > 5 { fk.take(5) } else { fk })
    }
}

/// The check of a count against its limit, named `name`, its detail
/// naming the count by `word`: `{word}={count} (max {limit})`.
pub open spec fn limit_check(name: Seq<char>, word: Seq<char>, count: usize, limit: usize) -> (Seq<char>, bool, Seq<char>) {
    (name, count <= limit, word + "="@ + dec_nat(count as nat) + " (max "@ + dec_nat(limit as nat) + ")"@)
}

/// Text of the bounds of a golden assertion.
pub open spec fn bound_text(lo: Option<i64>, hi: Option<i64>) -> Seq<char> {
    match (lo, hi) {
        (Some(l), Some(h)) => "["@ + dec_int(l as int) + ", "@ + dec_int(h as int) + "]"@,
        (Some(l), None) => ">= "@ + dec_int(l as int),
        (None, Some(h)) => "<= "@ + dec_int(h as int),
        (None, None) => "no bound"@,
    }
}

/// The check of golden assertion `ga` given the result of its query, if any.
pub open spec fn golden_check(ga: GoldenAssertion, res: Option<GoldenResult>) -> (Seq<char>, bool, Seq<char>) {
    let name = "golden:"@ + ga.name@;
    match res {
        Some(GoldenResult::Error(e)) => (name, false, "query error: "@ + e@),
        Some(GoldenResult::Count(c)) => (
            name,
            (match ga.expected_min { Some(m) => c >= m, None => true })
                && (match ga.expected_max { Some(m) => c <= m, None => true }),
            "count="@ + dec_int(c as int) + " (expected "@ + bound_text(ga.expected_min, ga.expected_max) + ")"@,
        ),
        None => (name, false, "no result (assertion/result mismatch)"@),
    }
}

/// The result of the query of assertion `i`, if there is one.
pub open spec fn result_at(results: Seq<GoldenResult>, i: int) -> Option<GoldenResult> {
    if 0 <= i < results.len() { Some(results[i]) } else { None }
}

/// The checks of the promote gate, in order: integrity, foreign keys, schema
/// versions, the three limits, then one per golden assertion.
pub open spec fn gate_checks(
    summary: ProdStgDiffSummary,
    integrity: Seq<char>,
    fk: Seq<FkViolation>,
    fk_enabled: bool,
    prod: i64,
    stg: i64,
    results: Seq<GoldenResult>,
    config: GateConfig,
) -> Seq<(Seq<char>, bool, Seq<char>)> {
    seq![
        ("integrity_check"@, integrity == "ok"@, integrity),
        ("foreign_key_check"@, fk_enabled && fk.len() == 0, fk_detail(fk, fk_enabled)),
        ("schema_version_match"@, prod == stg, "prod="@ + dec_int(prod as int) + " stg="@ + dec_int(stg as int)),
        limit_check("max_added"@, "added"@, summary.totals.added, config.max_added),
        limit_check("max_removed"@, "removed"@, summary.totals.removed, config.max_removed),
        limit_check("max_changed"@, "changed"@, summary.totals.changed, config.max_changed),
    ] + Seq::new(config.golden_assertions@.len(), |i: int| golden_check(config.golden_assertions@[i], result_at(results, i)))
}

fn fk_detail_text(fk: &[FkViolation], enabled: bool) -> (r: String)
    ensures
        r@ == fk_detail(fk@, enabled),
{
    if !enabled {
        return "foreign_keys disabled".to_owned();
    }
    if fk.len() == 0 {
        return "ok (no violations)".to_owned();
    }
    let ghost shown = if fk@.len() > 5 { fk@.take(5) } else { fk@ };
    let mut out = String::new();
    push_usize(&mut out, fk.len());
    push_str(&mut out, " violation(s): ");
    let ghost head = out@;
    let limit: usize = if fk.len() > 5 { 5 } else { fk.len() };
    let mut i: usize = 0;
    while i < limit
        invariant
            limit <= fk@.len(),
            shown == fk@.take(limit as int),
            i <= limit,
            out@ == head + fk_list(fk@.take(i as int)),
        decreases limit - i,
    {
        if i > 0 {
            push_str(&mut out, ", ");
        }
        push_str(&mut out, fk[i].table.as_str());
        push_str(&mut out, " rowid=");
        push_i64(&mut out, fk[i].rowid);
        proof {
            let t = fk@.take(i + 1);
            assert(t.drop_last() =~= fk@.take(i as int));
            assert(t.last() == fk@[i as int]);
            if i == 0 {
                assert(fk@.take(0) =~= Seq::<FkViolation>::empty());
            }
            assert(out@ =~= head + fk_list(t));
        }
        i = i + 1;
    }
    proof {
        if fk@.len() <= 5 {
            assert(fk@.take(limit as int) =~= fk@);
        }
        assert(head =~= dec_nat(fk@.len()) + " violation(s): "@);
    }
    out
}

fn limit_check_exec(name: &str, word: &str, count: usize, limit: usize) -> (r: GateCheck)
    ensures
        check_view(r) == limit_check(name@, word@, count, limit),
{
    let mut detail = String::new();
    push_str(&mut detail, word);
    push_str(&mut detail, "=");
    push_usize(&mut detail, count);
    push_str(&mut detail, " (max ");
    push_usize(&mut detail, limit);
    push_str(&mut detail, ")");
    assert(detail@ =~= word@ + "="@ + dec_nat(count as nat) + " (max "@ + dec_nat(limit as nat) + ")"@);
    GateCheck { name: name.to_owned(), passed: count <= limit, detail }
}

fn golden_check_exec(ga: &GoldenAssertion, res: Option<&GoldenResult>) -> (r: GateCheck)
    ensures
        check_view(r) == golden_check(*ga, match res { Some(x) => Some(*x), None => None }),
{
    let mut name = String::new();
    push_str(&mut name, "golden:");
    push_str(&mut name, ga.name.as_str());
    assert(name@ =~= "golden:"@ + ga.name@);
    match res {
        Some(GoldenResult::Error(e)) => {
            let mut detail = String::new();
            push_str(&mut detail, "query error: ");
            push_str(&mut detail, e.as_str());
            assert(detail@ =~= "query error: "@ + e@);
            GateCheck { name, passed: false, detail }
        },
        Some(GoldenResult::Count(c)) => {
            let c = *c;
            let min_ok = match ga.expected_min { Some(m) => c >= m, None => true };
            let max_ok = match ga.expected_max { Some(m) => c <= m, None => true };
            let mut detail = String::new();
            push_str(&mut detail, "count=");
            push_i64(&mut detail, c);
            push_str(&mut detail, " (expected ");
            let ghost before = detail@;
            match (ga.expected_min, ga.expected_max) {
                (Some(lo), Some(hi)) => {
                    push_str(&mut detail, "[");
                    push_i64(&mut detail, lo);
                    push_str(&mut detail, ", ");
                    push_i64(&mut detail, hi);
                    push_str(&mut detail, "]");
                },
                (Some(lo), None) => {
                    push_str(&mut detail, ">= ");
                    push_i64(&mut detail, lo);
                },
                (None, Some(hi)) => {
                    push_str(&mut detail, "<= ");
                    push_i64(&mut detail, hi);
                },
                (None, None) => {
                    push_str(&mut detail, "no bound");
                },
            }
            assert(detail@ =~= before + bound_text(ga.expected_min, ga.expected_max));
            push_str(&mut detail, ")");
            assert(detail@ =~= "count="@ + dec_int(c as int) + " (expected "@
                + bound_text(ga.expected_min, ga.expected_max) + ")"@);
            GateCheck { name, passed: min_ok && max_ok, detail }
        },
        None => GateCheck { name, passed: false, detail: "no result (assertion/result mismatch)".to_owned() },
    }
}

/// Evaluates the promote gate on results gathered elsewhere: `integrity` is the
/// answer of the integrity check (`ok` passes), `fk_violations` the rows
/// that break a foreign key, `fk_enabled` whether foreign keys are
/// enforced, and `golden_results` the query results of the golden
/// assertions of `config`, in the same order.
pub fn evaluate_gate(
    summary: &ProdStgDiffSummary,
    integrity: &str,
    fk_violations: &[FkViolation],
    fk_enabled: bool,
    prod_schema_version: i64,
    stg_schema_version: i64,
    golden_results: &[GoldenResult],
    config: &GateConfig,
) -> (r: Vec<GateCheck>)
    ensures
        r@.map_values(|c: GateCheck| check_view(c)) == gate_checks(*summary, integrity@, fk_violations@, fk_enabled,
            prod_schema_version, stg_schema_version, golden_results@, *config),
{
    let ghost spec_checks = gate_checks(*summary, integrity@, fk_violations@, fk_enabled,
        prod_schema_version, stg_schema_version, golden_results@, *config);
    let mut checks: Vec<GateCheck> = Vec::new();
    checks.push(GateCheck {
        name: "integrity_check".to_owned(),
        passed: str_eq(integrity, "ok"),
        detail: integrity.to_owned(),
    });
    checks.push(GateCheck {
        name: "foreign_key_check".to_owned(),
        passed: fk_enabled && fk_violations.len() == 0,
        detail: fk_detail_text(fk_violations, fk_enabled),
    });
    let mut versions = String::new();
    push_str(&mut versions, "prod=");
    push_i64(&mut versions, prod_schema_version);
    push_str(&mut versions, " stg=");
    push_i64(&mut versions, stg_schema_version);
    assert(versions@ =~= "prod="@ + dec_int(prod_schema_version as int) + " stg="@ + dec_int(stg_schema_version as int));
    checks.push(GateCheck {
        name: "schema_version_match".to_owned(),
        passed: prod_schema_version == stg_schema_version,
        detail: versions,
    });
    let t = &summary.totals;
    checks.push(limit_check_exec("max_added", "added", t.added, config.max_added));
    checks.push(limit_check_exec("max_removed", "removed", t.removed, config.max_removed));
    checks.push(limit_check_exec("max_changed", "changed", t.changed, config.max_changed));
    assert(checks@.map_values(|c: GateCheck| check_view(c)) =~= spec_checks.take(6));
    let mut i: usize = 0;
    while i < config.golden_assertions.len()
        invariant
            spec_checks == gate_checks(*summary, integrity@, fk_violations@, fk_enabled,
                prod_schema_version, stg_schema_version, golden_results@, *config),
            i <= config.golden_assertions@.len(),
            checks@.map_values(|c: GateCheck| check_view(c)) == spec_checks.take(6 + i),
        decreases config.golden_assertions@.len() - i,
    {
        let res = if i < golden_results.len() { Some(&golden_results[i]) } else { None };
        let ghost prev = checks@;
        let c = golden_check_exec(&config.golden_assertions[i], res);
        let ghost cv = check_view(c);
        checks.push(c);
        proof {
            let pm = prev.map_values(|c: GateCheck| check_view(c));
            assert(checks@.map_values(|c: GateCheck| check_view(c)) =~= pm.push(cv));
            assert(spec_checks.take(6 + i + 1) =~= spec_checks.take(6 + i).push(spec_checks[6 + i]));
            assert(match res { Some(x) => Some(*x), None => None } == result_at(golden_results@, i as int));
            assert(spec_checks[6 + i] == golden_check(config.golden_assertions@[i as int], result_at(golden_results@, i as int)));
            assert(checks@.map_values(|c: GateCheck| check_view(c)) =~= spec_checks.take(6 + i + 1));
        }
        i = i + 1;
    }
    assert(spec_checks.take(6 + i) =~= spec_checks);
    checks
}

/// A golden assertion's check passes exactly when its query gave a count
/// that lies within every bound the assertion sets: at least its lower
/// bound, if any, and at most its upper bound, if any. A query error, or a
/// missing result, fails it.
pub proof fn law_golden_bounds_enforced(
    summary: ProdStgDiffSummary,
    integrity: Seq<char>,
    fk: Seq<FkViolation>,
    fk_enabled: bool,
    prod: i64,
    stg: i64,
    results: Seq<GoldenResult>,
    config: GateConfig,
    i: int,
)
    requires
        0 <= i < config.golden_assertions@.len(),
    ensures
        ({
            let checks = gate_checks(summary, integrity, fk, fk_enabled, prod, stg, results, config);
            let ga = config.golden_assertions@[i];
            &&& checks.len() == 6 + config.golden_assertions@.len()
            &&& checks[6 + i].0 == "golden:"@ + ga.name@
            &&& checks[6 + i].1 <==> (i < results.len() && exists|c: i64| {
                &&& results[i] == GoldenResult::Count(c)
                &&& (forall|lo: i64| ga.expected_min == Some(lo) ==> lo <= c)
                &&& (forall|hi: i64| ga.expected_max == Some(hi) ==> c <= hi)
            })
        }),
{
    let checks = gate_checks(summary, integrity, fk, fk_enabled, prod, stg, results, config);
    let ga = config.golden_assertions@[i];
    assert(checks[6 + i] == golden_check(ga, result_at(results, i)));
    if i < results.len() {
        match results[i] {
            GoldenResult::Count(c) => {
                if checks[6 + i].1 {
                    assert(results[i] == GoldenResult::Count(c));
                }
            },
            GoldenResult::Error(_) => {},
        }
    }
}

/// Some gate check is not passed when a golden count is out of bounds.
pub proof fn law_gate_fails_on_golden_violation(
    summary: ProdStgDiffSummary,
    integrity: Seq<char>,
    fk: Seq<FkViolation>,
    fk_enabled: bool,
    prod: i64,
    stg: i64,
    results: Seq<GoldenResult>,
    config: GateConfig,
    i: int,
    c: i64,
)
    requires
        0 <= i < config.golden_assertions@.len(),
        i < results.len(),
        results[i] == GoldenResult::Count(c),
        (config.golden_assertions@[i].expected_max matches Some(hi) && c > hi)
            || (config.golden_assertions@[i].expected_min matches Some(lo) && c < lo),
    ensures
        !(forall|k: int| 0 <= k < gate_checks(summary, integrity, fk, fk_enabled, prod, stg, results, config).len()
            ==> (#[trigger] gate_checks(summary, integrity, fk, fk_enabled, prod, stg, results, config)[k]).1),
{
    law_golden_bounds_enforced(summary, integrity, fk, fk_enabled, prod, stg, results, config, i);
    let checks = gate_checks(summary, integrity, fk, fk_enabled, prod, stg, results, config);
    if checks[6 + i].1 {
        let c2 = choose|c2: i64| {
            &&& results[i] == GoldenResult::Count(c2)
            &&& (forall|lo: i64| config.golden_assertions@[i].expected_min == Some(lo) ==> lo <= c2)
            &&& (forall|hi: i64| config.golden_assertions@[i].expected_max == Some(hi) ==> c2 <= hi)
        };
        assert(c2 == c);
    }
    assert(!checks[6 + i].1);
}

/// Golden assertion `i` got a count within every bound it sets.
pub open spec fn golden_within(ga: GoldenAssertion, results: Seq<GoldenResult>, i: int) -> bool {
    i < results.len() && exists|c: i64| {
        &&& results[i] == GoldenResult::Count(c)
        &&& (forall|lo: i64| ga.expected_min == Some(lo) ==> lo <= c)
        &&& (forall|hi: i64| ga.expected_max == Some(hi) ==> c <= hi)
    }
}

/// All gate checks hold exactly when staging's integrity report reads
/// `ok`, foreign keys are enforced and none is violated, both schema
/// versions are equal, the rows added, removed and overwritten stay within
/// their limits, and every golden assertion got a count within its bounds.
pub proof fn law_gate_passes_iff(
    summary: ProdStgDiffSummary,
    integrity: Seq<char>,
    fk: Seq<FkViolation>,
    fk_enabled: bool,
    prod: i64,
    stg: i64,
    results: Seq<GoldenResult>,
    config: GateConfig,
)
    ensures
        (forall|k: int| 0 <= k < gate_checks(summary, integrity, fk, fk_enabled, prod, stg, results, config).len()
            ==> (#[trigger] gate_checks(summary, integrity, fk, fk_enabled, prod, stg, results, config)[k]).1)
        <==> {
            &&& integrity == "ok"@
            &&& fk_enabled
            &&& fk.len() == 0
            &&& prod == stg
            &&& summary.totals.added <= config.max_added
            &&& summary.totals.removed <= config.max_removed
            &&& summary.totals.changed <= config.max_changed
            &&& forall|i: int| 0 <= i < config.golden_assertions@.len()
                ==> golden_within(#[trigger] config.golden_assertions@[i], results, i)
        },
{
    let checks = gate_checks(summary, integrity, fk, fk_enabled, prod, stg, results, config);
    let n = config.golden_assertions@.len();
    assert forall|i: int| 0 <= i < n implies
        (checks[6 + i].1 <==> golden_within(#[trigger] config.golden_assertions@[i], results, i)) by {
        law_golden_bounds_enforced(summary, integrity, fk, fk_enabled, prod, stg, results, config, i);
    }
    if forall|k: int| 0 <= k < checks.len() ==> (#[trigger] checks[k]).1 {
        assert(checks[0].1 && checks[1].1 && checks[2].1 && checks[3].1 && checks[4].1 && checks[5].1);
        assert forall|i: int| 0 <= i < n implies golden_within(#[trigger] config.golden_assertions@[i], results, i) by {
            assert(checks[6 + i].1);
        }
    }
    if integrity == "ok"@ && fk_enabled && fk.len() == 0 && prod == stg
        && summary.totals.added <= config.max_added && summary.totals.removed <= config.max_removed
        && summary.totals.changed <= config.max_changed
        && forall|i: int| 0 <= i < n ==> golden_within(#[trigger] config.golden_assertions@[i], results, i) {
        assert forall|k: int| 0 <= k < checks.len() implies (#[trigger] checks[k]).1 by {
            if k >= 6 {
                assert(golden_within(config.golden_assertions@[k - 6], results, k - 6));
            }
        }
    }
}

} // verus!
