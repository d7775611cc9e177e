//! Tests of the transaction manager and the dispatch planner.
use rbatis::dialect::BindError;
use rbatis::rbatis::Plan;
use rbatis::rbatis::QueryForm;
use rbatis::rbatis::RbError;
use rbatis::rbatis::Rbatis;
use rbatis::rbatis::Route;
use rbatis::tx::TxError;
use rbatis::tx::TxManager;
use rbatis::tx::TxState;
use rbatis::dialect::DriverType;
use rbatis::node::Node;
use rbatis::node::Stmt;
use rbatis::node::StmtKind;
use rbatis::parse::parse_text;
use rbatis::registry::Mapper;
use rbatis::value::Env;
use rbatis::value::Value;

#[test]
fn transaction_lifecycle() {
    let mut rb = Rbatis::new("mysql://h/d");
    rb.begin("tx").unwrap();
    let plan: Plan = rb.plan_prepare("tx", "select 1", &vec![]).unwrap();
    assert!(matches!(plan.route, Route::Tx));
    assert!(matches!(plan.form, QueryForm::Unprepared(ref s) if s == "select 1"));
    rb.commit("tx").unwrap();
    let err = rb.commit("tx").unwrap_err();
    assert!(matches!(err, TxError::NotFound));
}

#[test]
fn begin_commit_removes_entry() {
    let mut m = TxManager::new();
    m.begin("a".to_string()).unwrap();
    assert!(matches!(m.state_of("a"), Some(TxState::Active)));
    m.commit("a").unwrap();
    assert!(m.state_of("a").is_none());
}

#[test]
fn begin_rollback_removes_entry() {
    let mut m = TxManager::new();
    m.begin("a".to_string()).unwrap();
    m.rollback("a").unwrap();
    assert!(m.state_of("a").is_none());
    assert!(matches!(m.rollback("a"), Err(TxError::NotFound)));
}

#[test]
fn second_begin_same_id_refused() {
    let mut m = TxManager::new();
    assert!(m.begin("a".to_string()).is_ok());
    assert!(matches!(m.begin("a".to_string()), Err(TxError::AlreadyBegun)));
    assert!(m.begin("b".to_string()).is_ok());
}

#[test]
fn busy_transaction_refuses_second_user() {
    let mut m = TxManager::new();
    m.begin("a".to_string()).unwrap();
    m.checkout("a".to_string()).unwrap();
    assert!(matches!(m.checkout("a".to_string()), Err(TxError::Busy)));
    assert!(matches!(m.commit("a"), Err(TxError::Busy)));
    m.checkin("a".to_string()).unwrap();
    m.commit("a").unwrap();
}

#[test]
fn timeout_leaves_tombstone_until_fresh_begin() {
    let mut m = TxManager::new();
    m.begin("a".to_string()).unwrap();
    m.expire("a".to_string()).unwrap();
    assert!(m.state_of("a").is_none());
    assert!(matches!(m.commit("a"), Err(TxError::TimedOut)));
    assert!(matches!(m.checkout("a".to_string()), Err(TxError::TimedOut)));
    assert!(m.begin("a".to_string()).is_ok());
    assert!(matches!(m.state_of("a"), Some(TxState::Active)));
    m.commit("a").unwrap();
}

#[test]
fn empty_tx_id_routes_to_pool_and_never_begins() {
    let mut rb = Rbatis::new("postgres://h/d");
    assert!(matches!(rb.begin(""), Err(TxError::NotFound)));
    let args = vec![Value::Int(1)];
    let plan = rb.plan_prepare("", "select * from t where id = ?", &args).unwrap();
    assert!(matches!(plan.route, Route::Pooled));
    match plan.form {
        QueryForm::Prepared(q) => {
            assert_eq!(q.sql, "select * from t where id = $1");
            assert_eq!(q.args.len(), 1);
        },
        QueryForm::Unprepared(_) => panic!("expected the prepared form"),
    }
}

#[test]
fn unbindable_argument_refused() {
    let rb = Rbatis::new("mysql://h/d");
    let args = vec![Value::Arr(vec![Value::Int(1)])];
    let err = rb.plan_prepare("", "select ?", &args).unwrap_err();
    assert!(matches!(err, RbError::Bind(BindError::UnsupportedValue)));
}

#[test]
fn missing_driver_refused_for_prepared() {
    let rb = Rbatis::new("");
    let args = vec![Value::Int(1)];
    let err = rb.plan_prepare("", "select ?", &args).unwrap_err();
    assert!(matches!(err, RbError::NoDriver));
    let ok = rb.plan_prepare("", "select 1", &vec![]).unwrap();
    assert!(matches!(ok.form, QueryForm::Unprepared(_)));
}

#[test]
fn driver_parsed_from_url() {
    assert!(matches!(Rbatis::new("mysql://u:p@h/d").driver, Some(DriverType::MySQL)));
    assert!(matches!(Rbatis::new("postgres://h/d").driver, Some(DriverType::Postgres)));
    assert!(matches!(Rbatis::new("sqlite://f.db").driver, Some(DriverType::SQLite)));
    assert!(matches!(Rbatis::new("mssql://h/d").driver, Some(DriverType::MSSQL)));
    assert!(Rbatis::new("ftp://h/d").driver.is_none());
}

#[test]
fn plan_mapper_renders_and_routes() {
    let mut rb = Rbatis::new("postgres://h/d");
    rb.load_mapper(
        "m".to_string(),
        Mapper {
            statements: vec![Stmt {
                id: "s".to_string(),
                kind: StmtKind::Select,
                children: vec![Node::Text(
                    parse_text("select * from t where id = #{id}").unwrap(),
                )],
            }],
            fragments: vec![],
            result_maps: vec![],
        },
    )
    .unwrap();
    let mut env = Env::new();
    env.bind("id".to_string(), Value::Int(7));
    let plan = rb.plan_mapper("", "m", "s", &env).unwrap();
    match plan.form {
        QueryForm::Prepared(q) => {
            assert_eq!(q.sql, "select * from t where id = $1");
            assert_eq!(q.args.len(), 1);
            assert!(matches!(q.args[0], Value::Int(7)));
        },
        QueryForm::Unprepared(_) => panic!("expected the prepared form"),
    }
}
