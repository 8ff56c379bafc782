use corolla::catalog::{Args, Queries, ReadQuery, WriteQuery};
use corolla::error::Error;

fn strings(items: &[&str]) -> Vec<String> {
    items.iter().map(|s| s.to_string()).collect()
}

fn scenario_catalog() -> Queries {
    let mut q = Queries::new();
    q.add_write(
        "insertC".to_string(),
        WriteQuery {
            sql_template: "insert into t values(?)".to_string(),
            args: strings(&["val"]),
        },
    );
    q.add_read(
        "selectC".to_string(),
        ReadQuery {
            sql_template: "select c from t".to_string(),
            args: vec![],
            cols: strings(&["c"]),
        },
    );
    q
}

#[test]
fn scenario_insert_then_select() {
    let q = scenario_catalog();
    let mut args = Args::new();
    args.insert("val".to_string(), "beijing".to_string());
    let w = q.prepare_write("insertC", &args).unwrap();
    assert_eq!(w.sql_template, "insert into t values(?)");
    assert_eq!(w.binds, strings(&["beijing"]));
    let r = q.prepare_read("selectC", &Args::new()).unwrap();
    assert_eq!(r.sql_template, "select c from t");
    assert!(r.binds.is_empty());
    // the store hands back the one row written above
    let rows = vec![strings(&["beijing"])];
    let out = q.get_read("selectC").unwrap().with_header(rows);
    assert_eq!(out, vec![strings(&["c"]), strings(&["beijing"])]);
}

#[test]
fn wrong_argument_count_is_refused() {
    let q = scenario_catalog();
    assert!(matches!(q.prepare_write("insertC", &Args::new()), Err(Error::WrongNumberOfArgs)));
    let mut args = Args::new();
    args.insert("val".to_string(), "a".to_string());
    args.insert("other".to_string(), "b".to_string());
    assert!(matches!(q.prepare_write("insertC", &args), Err(Error::WrongNumberOfArgs)));
    assert!(matches!(q.prepare_read("selectC", &args), Err(Error::WrongNumberOfArgs)));
}

#[test]
fn names_are_looked_up_in_their_own_half() {
    let q = scenario_catalog();
    let mut args = Args::new();
    args.insert("val".to_string(), "x".to_string());
    assert!(matches!(q.prepare_read("insertC", &args), Err(Error::QueryDoesNotExist)));
    assert!(matches!(q.prepare_write("selectC", &Args::new()), Err(Error::QueryDoesNotExist)));
    assert!(matches!(q.prepare_read("nothing", &Args::new()), Err(Error::QueryDoesNotExist)));
}

#[test]
fn missing_argument_binds_empty_text() {
    let mut q = Queries::new();
    q.add_write(
        "pair".to_string(),
        WriteQuery {
            sql_template: "insert into t values (?,?);".to_string(),
            args: strings(&["vacation_spot", "notes"]),
        },
    );
    let mut args = Args::new();
    args.insert("notes".to_string(), "lovely".to_string());
    args.insert("elsewhere".to_string(), "avon".to_string());
    let b = q.prepare_write("pair", &args).unwrap();
    assert_eq!(b.binds, strings(&["", "lovely"]));
}

#[test]
fn same_name_in_both_halves() {
    let mut q = scenario_catalog();
    q.add_read(
        "insertC".to_string(),
        ReadQuery { sql_template: "select 1".to_string(), args: vec![], cols: strings(&["one"]) },
    );
    assert_eq!(q.prepare_read("insertC", &Args::new()).unwrap().sql_template, "select 1");
    assert_eq!(q.get_write("insertC").unwrap().sql_template, "insert into t values(?)");
}

#[test]
fn adding_again_replaces() {
    let mut q = scenario_catalog();
    q.add_read(
        "selectC".to_string(),
        ReadQuery { sql_template: "select c, c from t".to_string(), args: vec![], cols: strings(&["a", "b"]) },
    );
    let r = q.get_read("selectC").unwrap();
    assert_eq!(r.sql_template, "select c, c from t");
    assert_eq!(r.with_header(vec![]), vec![strings(&["a", "b"])]);
}

#[test]
fn argument_names_are_distinct() {
    let mut args = Args::new();
    args.insert("k".to_string(), "1".to_string());
    args.insert("k".to_string(), "2".to_string());
    assert_eq!(args.len(), 1);
    assert_eq!(args.get("k").unwrap(), "2");
    assert!(args.get("j").is_none());
}
