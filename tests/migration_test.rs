use corolla::catalog::Queries;
use corolla::error::{Error, StoreError};
use corolla::migration::{
    ledger_read_statement, ledger_state, ledger_table_statement, record_statement, startup_plan,
    Conversion, LedgerState, Spec, Step,
};
use corolla::version::Version;

fn scenario_spec() -> Spec {
    Spec {
        spec_version: Version::from([0, 1]),
        version: Version::parse("1.0.1"),
        init: vec!["create table if not exists t (c text);".to_string()],
        queries: Queries::new(),
        conversions: vec![Conversion {
            max_version: Version::parse("1.0.1"),
            new_version: Version::parse("1.0.2"),
            queries: vec!["alter table t add column newcol text".to_string()],
        }],
    }
}

fn texts(steps: &[Step]) -> Vec<String> {
    steps.iter().map(|s| s.statement()).collect()
}

fn recorded(steps: &[Step], ledger: LedgerState) -> LedgerState {
    let mut last = ledger;
    for s in steps {
        if let Step::RecordVersion(v) = s {
            last = LedgerState::Initialized(v.clone());
        }
    }
    last
}

fn conversion_count(steps: &[Step]) -> usize {
    steps.iter().filter(|s| matches!(s, Step::Convert(_))).count()
}

#[test]
fn migration_ordering_over_three_startups() {
    let spec = scenario_spec();
    let first = startup_plan(&spec, &LedgerState::Uninitialized);
    assert_eq!(
        texts(&first),
        vec![
            "create table if not exists t (c text);".to_string(),
            "insert or replace into corolla_db_info values ('version', '1.0.1');".to_string(),
        ]
    );
    let ledger = recorded(&first, LedgerState::Uninitialized);
    let second = startup_plan(&spec, &ledger);
    assert_eq!(
        texts(&second),
        vec![
            "alter table t add column newcol text".to_string(),
            "insert or replace into corolla_db_info values ('version', '1.0.2');".to_string(),
            "create table if not exists t (c text);".to_string(),
        ]
    );
    let ledger = recorded(&second, ledger);
    match &ledger {
        LedgerState::Initialized(v) => assert_eq!(v.to_string(), "1.0.2"),
        LedgerState::Uninitialized => panic!("no version recorded"),
    }
    let third = startup_plan(&spec, &ledger);
    assert_eq!(texts(&third), vec!["create table if not exists t (c text);".to_string()]);
}

#[test]
fn migrated_ledger_runs_init_only_again() {
    let spec = scenario_spec();
    let ledger = LedgerState::Initialized(Version::parse("1.0.1"));
    let first = startup_plan(&spec, &ledger);
    assert_eq!(conversion_count(&first), 1);
    let ledger = recorded(&first, ledger);
    let again = startup_plan(&spec, &ledger);
    assert_eq!(conversion_count(&again), 0);
    assert_eq!(texts(&again), vec!["create table if not exists t (c text);".to_string()]);
}

#[test]
fn conversions_run_in_file_order_with_each_version_recorded() {
    let mut spec = scenario_spec();
    spec.conversions.push(Conversion {
        max_version: Version::parse("1.0.2"),
        new_version: Version::parse("1.1"),
        queries: vec!["a".to_string(), "b".to_string()],
    });
    spec.conversions.push(Conversion {
        max_version: Version::parse("1.0.0"),
        new_version: Version::parse("9"),
        queries: vec!["never".to_string()],
    });
    let plan = startup_plan(&spec, &LedgerState::Initialized(Version::parse("1.0.0")));
    assert_eq!(
        texts(&plan),
        vec![
            "alter table t add column newcol text".to_string(),
            "insert or replace into corolla_db_info values ('version', '1.0.2');".to_string(),
            "a".to_string(),
            "b".to_string(),
            "insert or replace into corolla_db_info values ('version', '1.1');".to_string(),
            "create table if not exists t (c text);".to_string(),
        ]
    );
}

#[test]
fn equal_new_version_is_not_recorded() {
    let mut spec = scenario_spec();
    spec.conversions[0].new_version = Version::parse("1.0.1.5");
    let plan = startup_plan(&spec, &LedgerState::Initialized(Version::parse("1.0.1")));
    assert_eq!(
        texts(&plan),
        vec![
            "alter table t add column newcol text".to_string(),
            "create table if not exists t (c text);".to_string(),
        ]
    );
}

#[test]
fn ledger_read_outcomes() {
    let row = vec!["1.0.2".to_string()];
    match ledger_state(Ok(row)) {
        Ok(LedgerState::Initialized(v)) => assert_eq!(v.components(), &vec![1, 0, 2]),
        _ => panic!("expected a recorded version"),
    }
    assert!(matches!(ledger_state(Ok(vec![])), Ok(LedgerState::Uninitialized)));
    assert!(matches!(ledger_state(Err(StoreError::RowNotFound)), Ok(LedgerState::Uninitialized)));
    let absent = StoreError::Database("no such table: corolla_db_info".to_string());
    assert!(matches!(ledger_state(Err(absent)), Ok(LedgerState::Uninitialized)));
    let locked = StoreError::Database("database is locked".to_string());
    match ledger_state(Err(locked)) {
        Err(Error::Store(StoreError::Database(m))) => assert_eq!(m, "database is locked"),
        _ => panic!("expected the store failure"),
    }
    match ledger_state(Err(StoreError::Other("pool timed out".to_string()))) {
        Err(Error::Store(StoreError::Other(m))) => assert_eq!(m, "pool timed out"),
        _ => panic!("expected the store failure"),
    }
}

#[test]
fn ledger_statements() {
    assert_eq!(
        ledger_table_statement(),
        "create table if not exists corolla_db_info (key text unique not null, value text);"
    );
    assert_eq!(ledger_read_statement(), "select value from corolla_db_info where key = 'version';");
    assert_eq!(
        record_statement(&Version::from([29, 0])),
        "insert or replace into corolla_db_info values ('version', '29.0');"
    );
}
