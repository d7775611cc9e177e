//! Scenario tests for the dynamic SQL engine: rendering, placeholders
//! and dialect rewriting.
use rbatis::dialect::to_dialect;
use rbatis::dialect::DriverType;
use rbatis::expr::Expr;
use rbatis::node::ForeachHead;
use rbatis::node::IncludeNode;
use rbatis::node::Node;
use rbatis::node::Stmt;
use rbatis::node::StmtKind;
use rbatis::parse::parse_expr;
use rbatis::parse::parse_text;
use rbatis::rbatis::RbError;
use rbatis::rbatis::Rbatis;
use rbatis::registry::Mapper;
use rbatis::registry::MapperError;
use rbatis::render::RenderError;
use rbatis::value::Env;
use rbatis::value::Value;

fn text(s: &str) -> Node {
    Node::Text(parse_text(s).unwrap())
}

fn expr(s: &str) -> Expr {
    parse_expr(s).unwrap()
}

fn select(id: &str, children: Vec<Node>) -> Stmt {
    Stmt { id: id.to_string(), kind: StmtKind::Select, children }
}

fn facade_with(url: &str, stmts: Vec<Stmt>, frags: Vec<(String, Vec<Node>)>) -> Rbatis {
    let mut rb = Rbatis::new(url);
    rb.load_mapper(
        "m".to_string(),
        Mapper { statements: stmts, fragments: frags, result_maps: vec![] },
    )
    .unwrap();
    rb
}

#[test]
fn literal_render_mysql() {
    let rb = facade_with(
        "mysql://localhost/db",
        vec![select("s", vec![text("select * from t where id = #{id}")])],
        vec![],
    );
    let mut env = Env::new();
    env.bind("id".to_string(), Value::Int(7));
    let (sql, args) = rb.render_statement("m", "s", &env).unwrap();
    assert_eq!(sql, "select * from t where id = ?");
    assert_eq!(args.len(), 1);
    assert!(matches!(args[0], Value::Int(7)));
    let dialect_sql = to_dialect(sql.as_str(), &DriverType::MySQL);
    assert_eq!(dialect_sql, "select * from t where id = ?");
}

#[test]
fn literal_render_postgres() {
    let sql = to_dialect("select * from t where id = ?", &DriverType::Postgres);
    assert_eq!(sql, "select * from t where id = $1");
}

#[test]
fn dialect_numbering_two_digits() {
    let neutral = "?????????? end ?";
    let pg = to_dialect(neutral, &DriverType::Postgres);
    assert_eq!(pg, "$1$2$3$4$5$6$7$8$9$10 end $11");
    let ms = to_dialect("a ? b ?", &DriverType::MSSQL);
    assert_eq!(ms, "a @p1 b @p2");
    let lite = to_dialect("a ? b ?", &DriverType::SQLite);
    assert_eq!(lite, "a ? b ?");
}

#[test]
fn conditional_where_one_branch() {
    let stmt = select(
        "s",
        vec![
            text("select * from t "),
            Node::Where(vec![
                Node::If(expr("name != null"), vec![text("and name = #{name}")]),
                Node::If(expr("age != null"), vec![text("and age > #{age}")]),
            ]),
        ],
    );
    let rb = facade_with("mysql://h/d", vec![stmt], vec![]);
    let mut env = Env::new();
    env.bind("name".to_string(), Value::Str("a".to_string()));
    let (sql, args) = rb.render_statement("m", "s", &env).unwrap();
    assert_eq!(sql, "select * from t WHERE name = ?");
    assert_eq!(args.len(), 1);
    match &args[0] {
        Value::Str(s) => assert_eq!(s, "a"),
        _ => panic!("expected a string argument"),
    }
}

#[test]
fn conditional_where_empty_env() {
    let stmt = select(
        "s",
        vec![
            text("select * from t "),
            Node::Where(vec![
                Node::If(expr("name != null"), vec![text("and name = #{name}")]),
                Node::If(expr("age != null"), vec![text("and age > #{age}")]),
            ]),
        ],
    );
    let rb = facade_with("mysql://h/d", vec![stmt], vec![]);
    let env = Env::new();
    let (sql, args) = rb.render_statement("m", "s", &env).unwrap();
    assert_eq!(sql, "select * from t");
    assert_eq!(args.len(), 0);
}

fn foreach_stmt() -> Stmt {
    select(
        "s",
        vec![
            text("select * from t where id in "),
            Node::Foreach(
                ForeachHead {
                    collection: expr("ids"),
                    item: "i".to_string(),
                    index: String::new(),
                    open: "(".to_string(),
                    close: ")".to_string(),
                    separator: ",".to_string(),
                },
                vec![text("#{i}")],
            ),
        ],
    )
}

#[test]
fn foreach_in_clause() {
    let rb = facade_with("mysql://h/d", vec![foreach_stmt()], vec![]);
    let mut env = Env::new();
    env.bind(
        "ids".to_string(),
        Value::Arr(vec![Value::Int(1), Value::Int(2), Value::Int(3)]),
    );
    let (sql, args) = rb.render_statement("m", "s", &env).unwrap();
    assert_eq!(sql, "select * from t where id in (?,?,?)");
    assert_eq!(args.len(), 3);
    assert!(matches!(args[0], Value::Int(1)));
    assert!(matches!(args[1], Value::Int(2)));
    assert!(matches!(args[2], Value::Int(3)));
}

#[test]
fn foreach_empty_contributes_nothing() {
    let rb = facade_with("mysql://h/d", vec![foreach_stmt()], vec![]);
    let mut env = Env::new();
    env.bind("ids".to_string(), Value::Arr(vec![]));
    let (sql, args) = rb.render_statement("m", "s", &env).unwrap();
    assert_eq!(sql, "select * from t where id in");
    assert_eq!(args.len(), 0);
}

#[test]
fn bind_and_substitution() {
    let stmt = select(
        "s",
        vec![
            Node::Bind("p".to_string(), expr("'%' + q + '%'")),
            text("select * from t where name like #{p}"),
        ],
    );
    let rb = facade_with("mysql://h/d", vec![stmt], vec![]);
    let mut env = Env::new();
    env.bind("q".to_string(), Value::Str("x".to_string()));
    let (sql, args) = rb.render_statement("m", "s", &env).unwrap();
    assert_eq!(sql, "select * from t where name like ?");
    assert_eq!(args.len(), 1);
    match &args[0] {
        Value::Str(s) => assert_eq!(s, "%x%"),
        _ => panic!("expected a string argument"),
    }
}

#[test]
fn dollar_splices_raw_text() {
    let stmt = select("s", vec![text("select * from ${tbl} where id = #{id}")]);
    let rb = facade_with("mysql://h/d", vec![stmt], vec![]);
    let mut env = Env::new();
    env.bind("tbl".to_string(), Value::Str("users".to_string()));
    env.bind("id".to_string(), Value::Int(3));
    let (sql, args) = rb.render_statement("m", "s", &env).unwrap();
    assert_eq!(sql, "select * from users where id = ?");
    assert_eq!(args.len(), 1);
}

#[test]
fn include_resolution() {
    let stmt = select(
        "s",
        vec![
            text("select "),
            Node::Include(IncludeNode { refid: "cols".to_string() }),
            text(" from t"),
        ],
    );
    let rb = facade_with(
        "mysql://h/d",
        vec![stmt],
        vec![("cols".to_string(), vec![text("id, name")])],
    );
    let env = Env::new();
    let (sql, args) = rb.render_statement("m", "s", &env).unwrap();
    assert_eq!(sql, "select id, name from t");
    assert_eq!(args.len(), 0);
}

#[test]
fn include_cycle_fails() {
    let stmt = select(
        "s",
        vec![Node::Include(IncludeNode { refid: "a".to_string() })],
    );
    let frag = vec![(
        "a".to_string(),
        vec![Node::Include(IncludeNode { refid: "a".to_string() })],
    )];
    let rb = facade_with("mysql://h/d", vec![stmt], frag);
    let env = Env::new();
    let err = rb.render_statement("m", "s", &env).unwrap_err();
    assert!(matches!(err, RbError::Render(RenderError::IncludeCycle)));
}

#[test]
fn include_unknown_fragment_fails() {
    let stmt = select(
        "s",
        vec![Node::Include(IncludeNode { refid: "nope".to_string() })],
    );
    let rb = facade_with("mysql://h/d", vec![stmt], vec![]);
    let env = Env::new();
    let err = rb.render_statement("m", "s", &env).unwrap_err();
    assert!(matches!(err, RbError::Render(RenderError::UnknownFragment)));
}

#[test]
fn where_swallows_lone_connector() {
    let stmt = select(
        "s",
        vec![text("select * from t"), Node::Where(vec![text("AND")])],
    );
    let rb = facade_with("mysql://h/d", vec![stmt], vec![]);
    let env = Env::new();
    let (sql, _) = rb.render_statement("m", "s", &env).unwrap();
    assert_eq!(sql, "select * from t");
}

#[test]
fn set_strips_trailing_comma() {
    let stmt = Stmt {
        id: "u".to_string(),
        kind: StmtKind::Update,
        children: vec![
            text("update t"),
            Node::SetBlock(vec![text("name = #{n},")]),
            text("where id = #{id}"),
        ],
    };
    let rb = facade_with("mysql://h/d", vec![stmt], vec![]);
    let mut env = Env::new();
    env.bind("n".to_string(), Value::Str("x".to_string()));
    env.bind("id".to_string(), Value::Int(1));
    let (sql, args) = rb.render_statement("m", "u", &env).unwrap();
    assert_eq!(sql, "update t SET name = ? where id = ?");
    assert_eq!(args.len(), 2);
}

#[test]
fn choose_picks_first_true_when() {
    let stmt = select(
        "s",
        vec![
            text("select * from t"),
            Node::Where(vec![Node::Choose(vec![
                Node::When(expr("a != null"), vec![text("and a = #{a}")]),
                Node::When(expr("b != null"), vec![text("and b = #{b}")]),
                Node::Otherwise(vec![text("and 1 = 1")]),
            ])]),
        ],
    );
    let rb = facade_with("mysql://h/d", vec![stmt], vec![]);
    let mut env = Env::new();
    env.bind("b".to_string(), Value::Int(5));
    let (sql, args) = rb.render_statement("m", "s", &env).unwrap();
    assert_eq!(sql, "select * from t WHERE b = ?");
    assert_eq!(args.len(), 1);
    let none = Env::new();
    let (sql2, args2) = rb.render_statement("m", "s", &none).unwrap();
    assert_eq!(sql2, "select * from t WHERE 1 = 1");
    assert_eq!(args2.len(), 0);
}

#[test]
fn duplicate_statement_id_rejected() {
    let mut rb = Rbatis::new("mysql://h/d");
    let err = rb
        .load_mapper(
            "m".to_string(),
            Mapper {
                statements: vec![select("s", vec![]), select("s", vec![])],
                fragments: vec![],
                result_maps: vec![],
            },
        )
        .unwrap_err();
    assert!(matches!(err, MapperError::DuplicateId));
}

#[test]
fn unknown_statement_rejected() {
    let rb = facade_with("mysql://h/d", vec![select("s", vec![])], vec![]);
    let env = Env::new();
    let err = rb.render_statement("m", "missing", &env).unwrap_err();
    assert!(matches!(
        err,
        RbError::Mapper(MapperError::UnknownStatement)
    ));
}

#[test]
fn foreach_index_binding() {
    let stmt = select(
        "s",
        vec![Node::Foreach(
            ForeachHead {
                collection: expr("xs"),
                item: "x".to_string(),
                index: "k".to_string(),
                open: "".to_string(),
                close: "".to_string(),
                separator: " ".to_string(),
            },
            vec![text("#{k}:#{x}")],
        )],
    );
    let rb = facade_with("mysql://h/d", vec![stmt], vec![]);
    let mut env = Env::new();
    env.bind(
        "xs".to_string(),
        Value::Arr(vec![Value::Int(10), Value::Int(20)]),
    );
    let (sql, args) = rb.render_statement("m", "s", &env).unwrap();
    assert_eq!(sql, "?:? ?:?");
    assert_eq!(args.len(), 4);
    assert!(matches!(args[0], Value::Int(0)));
    assert!(matches!(args[1], Value::Int(10)));
    assert!(matches!(args[2], Value::Int(1)));
    assert!(matches!(args[3], Value::Int(20)));
}

#[test]
fn missing_if_variables_render_like_removed_ifs() {
    let guarded = select(
        "s",
        vec![
            text("select * from t "),
            Node::Where(vec![
                Node::If(expr("name != null"), vec![text("and name = #{name}")]),
                text("and status = 1"),
                Node::If(expr("age != null"), vec![text("and age > #{age}")]),
            ]),
        ],
    );
    let stripped = select(
        "s",
        vec![
            text("select * from t "),
            Node::Where(vec![text("and status = 1")]),
        ],
    );
    let with_ifs = facade_with("mysql://h/d", vec![guarded], vec![]);
    let without_ifs = facade_with("mysql://h/d", vec![stripped], vec![]);
    let env = Env::new();
    let (sql_a, args_a) = with_ifs.render_statement("m", "s", &env).unwrap();
    let (sql_b, args_b) = without_ifs.render_statement("m", "s", &env).unwrap();
    assert_eq!(sql_a, sql_b);
    assert_eq!(sql_a, "select * from t WHERE status = 1");
    assert_eq!(args_a.len(), args_b.len());
}

#[test]
fn placeholders_match_argument_count() {
    let rb = facade_with(
        "mysql://h/d",
        vec![select(
            "s",
            vec![text("insert into t (a, b, c) values (#{a}, #{b}, #{c})")],
        )],
        vec![],
    );
    let mut env = Env::new();
    env.bind("a".to_string(), Value::Int(1));
    env.bind("b".to_string(), Value::Str("x".to_string()));
    env.bind("c".to_string(), Value::Null);
    let (sql, args) = rb.render_statement("m", "s", &env).unwrap();
    let placeholders = sql.chars().filter(|c| *c == '?').count();
    assert_eq!(placeholders, args.len());
    assert_eq!(args.len(), 3);
}

#[test]
fn decimal_argument_binds_as_scalar() {
    let rb = facade_with(
        "postgres://h/d",
        vec![select("s", vec![text("select * from t where price = #{p}")])],
        vec![],
    );
    let mut env = Env::new();
    env.bind("p".to_string(), Value::Dec("9.99".to_string()));
    let (sql, args) = rb.render_statement("m", "s", &env).unwrap();
    assert_eq!(sql, "select * from t where price = ?");
    match &args[0] {
        Value::Dec(s) => assert_eq!(s, "9.99"),
        _ => panic!("expected a decimal argument"),
    }
    let plan = rb.plan_prepare("", sql.as_str(), &args).unwrap();
    match plan.form {
        rbatis::rbatis::QueryForm::Prepared(q) => {
            assert_eq!(q.sql, "select * from t where price = $1")
        },
        _ => panic!("expected the prepared form"),
    }
}
