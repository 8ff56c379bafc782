//! The specification's in-memory form and the startup migration: reading the
//! ledger's recorded version and planning, in order, the statements that
//! bring the store up to date.

use crate::catalog::Queries;
use crate::error::{Error, StoreError};
use crate::text::{contains, contains_text};
use crate::version::{compare_versions, parse_version, render_version, InstanceVersion, SpecVersion, Version};
use std::cmp::Ordering;
use vstd::prelude::*;

verus! {

/// A version-gated batch of statements: run at startup when the recorded
/// version compares at most `max_version`, after which the recorded version
/// becomes `new_version`.
#[derive(Debug, Clone)]
pub struct Conversion {
    pub max_version: InstanceVersion,
    pub new_version: InstanceVersion,
    pub queries: Vec<String>,
}

/// A loaded specification.
#[derive(Debug, Clone)]
pub struct Spec {
    /// The version of the specification format itself.
    pub spec_version: SpecVersion,
    /// The version a fresh store starts at.
    pub version: InstanceVersion,
    /// Statements run on every startup, in order.
    pub init: Vec<String>,
    /// The catalog of read and write operations.
    pub queries: Queries,
    /// The conversions, in file order.
    pub conversions: Vec<Conversion>,
}

/// What the ledger holds at startup.
#[derive(Debug, Clone)]
pub enum LedgerState {
    /// No version has been recorded yet.
    Uninitialized,
    /// The recorded version.
    Initialized(InstanceVersion),
}

/// One statement of the startup sequence.
#[derive(Debug, Clone)]
pub enum Step {
    /// A statement of a conversion.
    Convert(String),
    /// A statement of the specification's init list.
    Init(String),
    /// Records the given version in the ledger.
    RecordVersion(InstanceVersion),
}

/// The mathematical form of a `Step`.
pub enum StepModel {
    Convert(Seq<char>),
    Init(Seq<char>),
    RecordVersion(Seq<u64>),
}

impl View for Step {
    type V = StepModel;

    open spec fn view(&self) -> StepModel {
        match self {
            Step::Convert(s) => StepModel::Convert(s@),
            Step::Init(s) => StepModel::Init(s@),
            Step::RecordVersion(v) => StepModel::RecordVersion(v@),
        }
    }
}

impl View for LedgerState {
    type V = Option<Seq<u64>>;

    open spec fn view(&self) -> Option<Seq<u64>> {
        match self {
            LedgerState::Uninitialized => None,
            LedgerState::Initialized(v) => Some(v@),
        }
    }
}

/// The models of a list of steps.
pub open spec fn steps_view(steps: Seq<Step>) -> Seq<StepModel> {
    Seq::new(steps.len(), |i: int| steps[i]@)
}

/// Whether conversion `c` runs when the recorded version is `v`.
pub open spec fn applies(v: Seq<u64>, c: Conversion) -> bool {
    compare_versions(v, c.max_version@) != Ordering::Greater
}

/// Whether running `c` at version `v` records a new version: only where the
/// new version differs from `v` under the truncated comparison.
pub open spec fn records(v: Seq<u64>, c: Conversion) -> bool {
    compare_versions(v, c.new_version@) != Ordering::Equal
}

/// The statements of conversion `c`, as conversion steps.
pub open spec fn conversion_statements(c: Conversion) -> Seq<StepModel> {
    Seq::new(c.queries@.len(), |k: int| StepModel::Convert(c.queries@[k]@))
}

/// The steps that the conversions produce, in file order, starting from the
/// recorded version `v`: each applying conversion's statements, followed by
/// the recording of its new version where that changes the version.
pub open spec fn conversion_steps(convs: Seq<Conversion>, v: Seq<u64>) -> Seq<StepModel>
    decreases convs.len(),
{
    if convs.len() == 0 {
        Seq::empty()
    } else {
        let c = convs[0];
        let rest = convs.drop_first();
        if !applies(v, c) {
            conversion_steps(rest, v)
        } else if records(v, c) {
            conversion_statements(c).push(StepModel::RecordVersion(c.new_version@))
                + conversion_steps(rest, c.new_version@)
        } else {
            conversion_statements(c) + conversion_steps(rest, v)
        }
    }
}

/// The version recorded after the conversions ran from `v`.
pub open spec fn migrated_version(convs: Seq<Conversion>, v: Seq<u64>) -> Seq<u64>
    decreases convs.len(),
{
    if convs.len() == 0 {
        v
    } else {
        let c = convs[0];
        let rest = convs.drop_first();
        if applies(v, c) && records(v, c) {
            migrated_version(rest, c.new_version@)
        } else {
            migrated_version(rest, v)
        }
    }
}

/// The init statements, as init steps.
pub open spec fn init_steps(init: Seq<String>) -> Seq<StepModel> {
    Seq::new(init.len(), |k: int| StepModel::Init(init[k]@))
}

/// The whole startup sequence for a ledger that holds `ledger`. With no
/// recorded version the conversions are skipped, the init statements run and
/// the declared version is recorded; otherwise the conversions run from the
/// recorded version, then the init statements.
pub open spec fn startup_steps(spec: Spec, ledger: Option<Seq<u64>>) -> Seq<StepModel> {
    match ledger {
        None => init_steps(spec.init@).push(StepModel::RecordVersion(spec.version@)),
        Some(v) => conversion_steps(spec.conversions@, v) + init_steps(spec.init@),
    }
}

/// The version the ledger holds once the startup sequence has run.
pub open spec fn ledger_after(spec: Spec, ledger: Option<Seq<u64>>) -> Seq<u64> {
    match ledger {
        None => spec.version@,
        Some(v) => migrated_version(spec.conversions@, v),
    }
}

/// Appends the init statements to `out`.
fn push_init_steps(out: &mut Vec<Step>, init: &Vec<String>)
    ensures
        steps_view(final(out)@) == steps_view(old(out)@) + init_steps(init@),
{
    let ghost start = steps_view(out@);
    let mut k: usize = 0;
    while k < init.len()
        invariant
            k <= init@.len(),
            steps_view(out@) == start + init_steps(init@).take(k as int),
        decreases init@.len() - k,
    {
        let ghost prev = out@;
        let x = init[k].clone();
        out.push(Step::Init(x));
        assert(out@ == prev.push(Step::Init(x)));
        assert(steps_view(out@) =~= steps_view(prev).push(StepModel::Init(init@[k as int]@)));
        assert(steps_view(out@) =~= start + init_steps(init@).take(k + 1));
        k = k + 1;
    }
    assert(init_steps(init@).take(init@.len() as int) =~= init_steps(init@));
}

/// Appends the statements of conversion `c` to `out`.
fn push_conversion_statements(out: &mut Vec<Step>, c: &Conversion)
    ensures
        steps_view(final(out)@) == steps_view(old(out)@) + conversion_statements(*c),
{
    let ghost start = steps_view(out@);
    let mut k: usize = 0;
    while k < c.queries.len()
        invariant
            k <= c.queries@.len(),
            steps_view(out@) == start + conversion_statements(*c).take(k as int),
        decreases c.queries@.len() - k,
    {
        let ghost prev = out@;
        let x = c.queries[k].clone();
        out.push(Step::Convert(x));
        assert(out@ == prev.push(Step::Convert(x)));
        assert(steps_view(out@) =~= steps_view(prev).push(StepModel::Convert(c.queries@[k as int]@)));
        assert(steps_view(out@) =~= start + conversion_statements(*c).take(k + 1));
        k = k + 1;
    }
    assert(conversion_statements(*c).take(c.queries@.len() as int) =~= conversion_statements(
        *c,
    ));
}

/// Appends the steps of the conversions run from `from` to `out`, and returns
/// the version recorded at the end.
fn push_conversion_steps(out: &mut Vec<Step>, convs: &Vec<Conversion>, from: &Version) -> (r:
    Version)
    ensures
        steps_view(final(out)@) == steps_view(old(out)@) + conversion_steps(convs@, from@),
        r@ == migrated_version(convs@, from@),
{
    let ghost start = steps_view(out@);
    let mut v = from.clone();
    let mut i: usize = 0;
    assert(convs@.skip(0) =~= convs@);
    while i < convs.len()
        invariant
            i <= convs@.len(),
            start + conversion_steps(convs@, from@) == steps_view(out@) + conversion_steps(
                convs@.skip(i as int),
                v@,
            ),
            migrated_version(convs@, from@) == migrated_version(convs@.skip(i as int), v@),
        decreases convs@.len() - i,
    {
        let c = &convs[i];
        let ghost rest = convs@.skip(i as int);
        assert(rest[0] == *c);
        assert(rest.drop_first() =~= convs@.skip(i + 1));
        let ghost before = steps_view(out@);
        let ghost v0 = v@;
        match v.compare(&c.max_version) {
            Ordering::Greater => {},
            _ => {
                push_conversion_statements(out, c);
                match v.compare(&c.new_version) {
                    Ordering::Equal => {
                        assert(steps_view(out@) + conversion_steps(convs@.skip(i + 1), v@)
                            =~= before + conversion_steps(rest, v@));
                    },
                    _ => {
                        let ghost mid = steps_view(out@);
                        out.push(Step::RecordVersion(c.new_version.clone()));
                        assert(steps_view(out@) =~= mid.push(
                            StepModel::RecordVersion(c.new_version@),
                        ));
                        v = c.new_version.clone();
                        assert(steps_view(out@) + conversion_steps(convs@.skip(i + 1), v@)
                            =~= before + conversion_steps(rest, v0));
                    },
                }
            },
        }
        i = i + 1;
    }
    assert(convs@.skip(convs@.len() as int) =~= Seq::<Conversion>::empty());
    v
}

/// Plans the startup sequence for a store whose ledger holds `ledger`: the
/// steps to run in order, each under exclusive access, stopping at the first
/// failure.
pub fn startup_plan(spec: &Spec, ledger: &LedgerState) -> (r: Vec<Step>)
    ensures
        steps_view(r@) == startup_steps(*spec, ledger@),
{
    let mut out: Vec<Step> = Vec::new();
    assert(steps_view(out@) =~= Seq::<StepModel>::empty());
    match ledger {
        LedgerState::Uninitialized => {
            push_init_steps(&mut out, &spec.init);
            let ghost mid = steps_view(out@);
            out.push(Step::RecordVersion(spec.version.clone()));
            assert(steps_view(out@) =~= mid.push(StepModel::RecordVersion(spec.version@)));
            assert(steps_view(out@) =~= startup_steps(*spec, ledger@));
        },
        LedgerState::Initialized(v) => {
            push_conversion_steps(&mut out, &spec.conversions, v);
            push_init_steps(&mut out, &spec.init);
            assert(steps_view(out@) =~= startup_steps(*spec, ledger@));
        },
    }
    out
}

/// The statement that creates the ledger table where it is absent.
pub fn ledger_table_statement() -> (r: String)
    ensures
        r@ == "create table if not exists corolla_db_info (key text unique not null, value text);"@,
{
    String::from_str("create table if not exists corolla_db_info (key text unique not null, value text);")
}

/// The statement that reads the recorded version.
pub fn ledger_read_statement() -> (r: String)
    ensures
        r@ == "select value from corolla_db_info where key = 'version';"@,
{
    String::from_str("select value from corolla_db_info where key = 'version';")
}

/// The text of the statement that records version `v` in the ledger.
pub open spec fn record_text(v: Seq<u64>) -> Seq<char> {
    "insert or replace into corolla_db_info values ('version', '"@ + render_version(v) + "');"@
}

/// The statement that records `v` in the ledger.
pub fn record_statement(v: &Version) -> (r: String)
    ensures
        r@ == record_text(v@),
{
    let mut out = String::from_str("insert or replace into corolla_db_info values ('version', '");
    let text = v.to_string();
    out.append(text.as_str());
    out.append("');");
    out
}

/// The text that a step runs.
pub open spec fn step_text(s: StepModel) -> Seq<char> {
    match s {
        StepModel::Convert(q) => q,
        StepModel::Init(q) => q,
        StepModel::RecordVersion(v) => record_text(v),
    }
}

impl Step {
    /// The statement this step runs.
    pub fn statement(&self) -> (r: String)
        ensures
            r@ == step_text(self@),
    {
        match self {
            Step::Convert(q) => q.clone(),
            Step::Init(q) => q.clone(),
            Step::RecordVersion(v) => record_statement(v),
        }
    }
}

/// The part of a store's message that says a table is absent.
pub open spec fn missing_table_message() -> Seq<char> {
    "no such table"@
}

/// What the ledger holds, from the outcome of reading its version row: the
/// first column of the row read is the recorded version; no row, or a store
/// message that the table is absent, means no version is recorded; any other
/// failure of the store is returned.
pub fn ledger_state(read: Result<Vec<String>, StoreError>) -> (r: Result<LedgerState, Error>)
    ensures
        match read {
            Ok(row) => if row@.len() == 0 {
                r matches Ok(LedgerState::Uninitialized)
            } else {
                (r matches Ok(LedgerState::Initialized(v)) && v@ == parse_version(row@[0]@))
            },
            Err(StoreError::RowNotFound) => r matches Ok(LedgerState::Uninitialized),
            Err(StoreError::Database(m)) => if contains_text(m@, missing_table_message()) {
                r matches Ok(LedgerState::Uninitialized)
            } else {
                (r matches Err(Error::Store(StoreError::Database(e))) && e@ == m@)
            },
            Err(StoreError::Other(m)) => (r matches Err(Error::Store(StoreError::Other(e))) && e@
                == m@),
        },
{
    match read {
        Ok(row) => {
            if row.len() == 0 {
                Ok(LedgerState::Uninitialized)
            } else {
                Ok(LedgerState::Initialized(Version::parse(row[0].as_str())))
            }
        },
        Err(StoreError::RowNotFound) => Ok(LedgerState::Uninitialized),
        Err(StoreError::Database(m)) => {
            if contains(m.as_str(), "no such table") {
                Ok(LedgerState::Uninitialized)
            } else {
                Err(Error::Store(StoreError::Database(m)))
            }
        },
        Err(StoreError::Other(m)) => Err(Error::Store(StoreError::Other(m))),
    }
}

proof fn lemma_no_gate_reached(convs: Seq<Conversion>, v: Seq<u64>)
    requires
        forall|i: int|
            0 <= i < convs.len() ==> compare_versions(v, #[trigger] convs[i].max_version@)
                == Ordering::Greater,
    ensures
        conversion_steps(convs, v) == Seq::<StepModel>::empty(),
        migrated_version(convs, v) == v,
    decreases convs.len(),
{
    if convs.len() > 0 {
        let rest = convs.drop_first();
        assert(compare_versions(v, convs[0].max_version@) == Ordering::Greater);
        assert forall|i: int| 0 <= i < rest.len() implies compare_versions(
            v,
            #[trigger] rest[i].max_version@,
        ) == Ordering::Greater by {
            assert(rest[i] == convs[i + 1]);
        }
        lemma_no_gate_reached(rest, v);
    }
}

/// A startup against a ledger whose version lies above every conversion's
/// gate runs no conversion statement and records nothing: it runs the init
/// statements alone, and the ledger keeps its version.
pub proof fn lemma_migrated_ledger_runs_only_init(spec: Spec, v: Seq<u64>)
    requires
        forall|i: int|
            0 <= i < spec.conversions@.len() ==> compare_versions(
                v,
                #[trigger] spec.conversions@[i].max_version@,
            ) == Ordering::Greater,
    ensures
        startup_steps(spec, Some(v)) == init_steps(spec.init@),
        ledger_after(spec, Some(v)) == v,
{
    lemma_no_gate_reached(spec.conversions@, v);
    assert(Seq::<StepModel>::empty() + init_steps(spec.init@) =~= init_steps(spec.init@));
}

proof fn lemma_recorded_version_above_gates(
    convs: Seq<Conversion>,
    gates: Seq<Conversion>,
    v: Seq<u64>,
)
    requires
        forall|i: int, j: int|
            0 <= i < convs.len() && 0 <= j < gates.len() ==> compare_versions(
                #[trigger] convs[i].new_version@,
                #[trigger] gates[j].max_version@,
            ) == Ordering::Greater,
        migrated_version(convs, v) != v,
    ensures
        forall|j: int|
            0 <= j < gates.len() ==> compare_versions(
                migrated_version(convs, v),
                #[trigger] gates[j].max_version@,
            ) == Ordering::Greater,
    decreases convs.len(),
{
    let c = convs[0];
    let rest = convs.drop_first();
    assert forall|i: int, j: int|
        0 <= i < rest.len() && 0 <= j < gates.len() implies compare_versions(
        #[trigger] rest[i].new_version@,
        #[trigger] gates[j].max_version@,
    ) == Ordering::Greater by {
        assert(rest[i] == convs[i + 1]);
    }
    if applies(v, c) && records(v, c) {
        let w = c.new_version@;
        if migrated_version(rest, w) != w {
            lemma_recorded_version_above_gates(rest, gates, w);
        } else {
            assert forall|j: int| 0 <= j < gates.len() implies compare_versions(
                migrated_version(convs, v),
                #[trigger] gates[j].max_version@,
            ) == Ordering::Greater by {
                assert(compare_versions(convs[0].new_version@, gates[j].max_version@)
                    == Ordering::Greater);
            }
        }
    } else {
        lemma_recorded_version_above_gates(rest, gates, v);
    }
}

/// Where every conversion's new version lies above every conversion's gate,
/// a startup that follows one which recorded a new version runs no
/// conversion statement: only the init statements run again.
pub proof fn lemma_second_startup_runs_only_init(spec: Spec, v: Seq<u64>)
    requires
        forall|i: int, j: int|
            0 <= i < spec.conversions@.len() && 0 <= j < spec.conversions@.len()
                ==> compare_versions(
                #[trigger] spec.conversions@[i].new_version@,
                #[trigger] spec.conversions@[j].max_version@,
            ) == Ordering::Greater,
        ledger_after(spec, Some(v)) != v,
    ensures
        startup_steps(spec, Some(ledger_after(spec, Some(v)))) == init_steps(spec.init@),
{
    lemma_recorded_version_above_gates(spec.conversions@, spec.conversions@, v);
    lemma_migrated_ledger_runs_only_init(spec, ledger_after(spec, Some(v)));
}

} // verus!
