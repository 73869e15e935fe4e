use semantic_code_search::data::{
    search_dataflows, ConstructorArg, Database, ProgLoc, Type, TypeVar, UnitFlow,
};
use semantic_code_search::query::{CompileErrorKind, QConstructorArg, QType, QueryOps};
use semantic_code_search::{Config, ConfigError};

fn ty(name: &str) -> UnitFlow {
    UnitFlow::Type(Type { name: name.to_string(), args: vec![], desc: None })
}

fn ty_desc(name: &str, args: &[&str], desc: &str) -> UnitFlow {
    UnitFlow::Type(Type {
        name: name.to_string(),
        args: args.iter().map(|a| a.to_string()).collect(),
        desc: Some(desc.to_string()),
    })
}

fn var(name: &str) -> UnitFlow {
    UnitFlow::TypeVar(TypeVar { name: name.to_string(), desc: None })
}

fn arg(name: &str, arg_index: usize, desc: Option<&str>) -> UnitFlow {
    UnitFlow::ConstructorArg(ConstructorArg {
        name: name.to_string(),
        arg_index,
        desc: desc.map(|d| d.to_string()),
    })
}

fn loc(line: &str, start: usize, end: usize, desc: Option<&str>) -> UnitFlow {
    UnitFlow::ProgLoc(ProgLoc {
        line: line.to_string(),
        char_range: (start, end),
        desc: desc.map(|d| d.to_string()),
    })
}

fn query(text: &str) -> Vec<QueryOps> {
    QueryOps::parse_query(text).unwrap()
}

fn scenario_flow() -> Vec<UnitFlow> {
    vec![
        ty("bool"),
        loc("if x then 1 else 2", 1, 3, None),
        var("a1"),
        arg("Function", 1, Some("even")),
        loc("if x then 1 else 2", 0, 2, Some("if-then-else")),
        ty("bool"),
    ]
}

#[test]
fn scenario_matches_in_both_orders() {
    let db = Database::new(vec![scenario_flow()], "main.ml".to_string());
    let flow = &db.data_flows()[0];
    assert!(db.match_flow(flow, &query("bool,\"if-then-else\"")));
    assert!(db.match_flow(flow, &query("\"if-then-else\",bool")));
    assert!(!db.match_flow(flow, &query("int")));
}

#[test]
fn scenario_search_reports_the_flow() {
    let db = Database::new(vec![scenario_flow()], "main.ml".to_string());
    assert_eq!(search_dataflows(&db, &query("bool,\"if-then-else\"")).len(), 1);
    assert!(search_dataflows(&db, &query("int")).is_empty());
}

#[test]
fn empty_query_matches_every_flow() {
    let db = Database::new(vec![scenario_flow(), vec![]], String::new());
    assert!(db.match_flow(&db.data_flows()[0], &[]));
    assert!(db.match_flow(&db.data_flows()[1], &[]));
    assert!(db.match_flow(&[], &[]));
    assert_eq!(search_dataflows(&db, &[]).len(), 2);
}

#[test]
fn nonempty_query_fails_on_empty_flow() {
    let db = Database::new(vec![vec![]], String::new());
    assert!(!db.match_flow(&db.data_flows()[0], &query("bool")));
}

#[test]
fn two_predicates_need_positions_in_order() {
    let db = Database::new(vec![], String::new());
    let q = query("A,B");
    // every flow of up to three tokens over A, B and C
    let names = ["A", "B", "C"];
    let mut flows: Vec<Vec<&str>> = vec![vec![]];
    for _ in 0..3 {
        let mut longer = vec![];
        for f in &flows {
            for n in names {
                let mut g = f.clone();
                g.push(n);
                longer.push(g);
            }
        }
        flows.extend(longer.into_iter().filter(|g| g.len() <= 3));
        flows.sort();
        flows.dedup();
    }
    assert_eq!(flows.len(), 1 + 3 + 9 + 27);
    for f in &flows {
        let tokens: Vec<UnitFlow> = f.iter().map(|n| ty(n)).collect();
        let expected = (0..f.len()).any(|i| (i + 1..f.len()).any(|j| f[i] == "A" && f[j] == "B"));
        assert_eq!(db.match_flow(&tokens, &q), expected, "flow {:?}", f);
    }
}

#[test]
fn backtracks_to_a_later_candidate() {
    let db = Database::new(vec![], String::new());
    let flow = vec![arg("f", 0, None), ty("X"), arg("f", 1, None), ty("Y")];
    assert!(db.match_flow(&flow, &query("@f,Y")));
    assert!(db.match_flow(&flow, &query("@f,@f,Y")));
    assert!(!db.match_flow(&flow, &query("@f,@f,X")));
    assert!(db.match_flow(&flow, &query("@f.1,Y")));
    assert!(!db.match_flow(&flow, &query("Y,@f")));
}

#[test]
fn degree_counts_flows_not_occurrences() {
    let db = Database::new(
        vec![
            vec![var("a"), var("a"), var("a")],
            vec![ty("int"), var("a")],
            vec![var("b")],
        ],
        String::new(),
    );
    assert_eq!(db.count_typevar_flows("a"), 2);
    assert_eq!(db.count_typevar_flows("b"), 1);
    assert_eq!(db.count_typevar_flows("c"), 0);
    assert!(db.match_unit_flow(&var("a"), &QueryOps::QTypeVar(2)));
    assert!(!db.match_unit_flow(&var("a"), &QueryOps::QTypeVar(3)));
    assert!(db.match_unit_flow(&var("b"), &QueryOps::QTypeVar(1)));
    assert!(db.match_unit_flow(&var("c"), &QueryOps::QTypeVar(0)));
    assert!(!db.match_unit_flow(&ty("a"), &QueryOps::QTypeVar(2)));
    assert_eq!(search_dataflows(&db, &query("#2")).len(), 2);
    assert_eq!(search_dataflows(&db, &query("#1")).len(), 1);
}

#[test]
fn arg_index_absent_matches_any_index() {
    let db = Database::new(vec![], String::new());
    let any = QueryOps::QConstructorArg(QConstructorArg {
        name: "f".to_string(),
        arg_index: None,
        desc: None,
    });
    let one = QueryOps::QConstructorArg(QConstructorArg {
        name: "f".to_string(),
        arg_index: Some(1),
        desc: None,
    });
    for x in [0, 1, 2, 7, usize::MAX] {
        assert!(db.match_unit_flow(&arg("f", x, None), &any));
        assert_eq!(db.match_unit_flow(&arg("f", x, None), &one), x == 1);
    }
    assert!(!db.match_unit_flow(&arg("g", 1, None), &any));
    assert!(!db.match_unit_flow(&ty("f"), &any));
}

#[test]
fn description_matches_every_kind_of_token() {
    let db = Database::new(vec![], String::new());
    let d = QueryOps::QDesc("tag".to_string());
    assert!(db.match_unit_flow(&ty_desc("T", &[], "tag"), &d));
    assert!(db.match_unit_flow(&arg("f", 0, Some("tag")), &d));
    assert!(db.match_unit_flow(&UnitFlow::TypeVar(TypeVar {
        name: "a".to_string(),
        desc: Some("tag".to_string()),
    }), &d));
    assert!(db.match_unit_flow(&loc("x", 0, 1, Some("tag")), &d));
    assert!(!db.match_unit_flow(&loc("x", 0, 1, Some("tags")), &d));
    assert!(!db.match_unit_flow(&ty("tag"), &d));
}

#[test]
fn type_predicate_ignores_other_kinds() {
    let db = Database::new(vec![], String::new());
    let q = QueryOps::QType(QType { name: "f".to_string(), desc: Some("x".to_string()) });
    assert!(db.match_unit_flow(&ty("f"), &q));
    assert!(!db.match_unit_flow(&arg("f", 0, None), &q));
    assert!(!db.match_unit_flow(&var("f"), &q));
    assert!(!db.match_unit_flow(&ty("g"), &q));
}

#[test]
fn search_keeps_database_order() {
    let db = Database::new(
        vec![vec![ty("A")], vec![ty("B")], vec![ty("A"), ty("C")], vec![ty("C")]],
        String::new(),
    );
    let q = query("A");
    let found = search_dataflows(&db, &q);
    assert_eq!(found.len(), 2);
    assert_eq!(found[0].len(), 1);
    assert_eq!(found[1].len(), 2);
    assert!(std::ptr::eq(found[0], &db.data_flows()[0]));
    assert!(std::ptr::eq(found[1], &db.data_flows()[2]));
}

#[test]
fn indexes_hold_types_and_type_variables() {
    let db = Database::new(
        vec![
            vec![ty_desc("List", &["a"], "first"), var("a")],
            vec![var("b"), ty("int"), var("a"), ty_desc("List", &["b"], "second")],
        ],
        "trace.json".to_string(),
    );
    assert_eq!(db.file_path(), "trace.json");
    let list = db.type_definition("List").unwrap();
    assert_eq!(list.name, "List");
    assert_eq!(list.desc.as_deref(), Some("second"));
    assert_eq!(list.args, vec!["b".to_string()]);
    assert_eq!(db.type_definition("int").unwrap().name, "int");
    assert!(db.type_definition("bool").is_none());
    let mut names = db.type_var_names();
    names.sort();
    assert_eq!(names, vec!["a".to_string(), "b".to_string()]);
}

#[test]
fn caret_line_marks_the_range() {
    let l = ProgLoc { line: "let x = 1".to_string(), char_range: (5, 8), desc: None };
    assert_eq!(l.caret_line().as_deref(), Some("     ^^^ "));
    let x = ProgLoc { line: "let x = 1".to_string(), char_range: (4, 5), desc: None };
    assert_eq!(x.caret_line().as_deref(), Some("    ^    "));
    let whole = ProgLoc { line: "abc".to_string(), char_range: (0, 3), desc: None };
    assert_eq!(whole.caret_line().as_deref(), Some("^^^"));
}

#[test]
fn caret_line_rejects_ranges_off_the_line() {
    let mk = |s: usize, e: usize| ProgLoc { line: "abc".to_string(), char_range: (s, e), desc: None };
    assert_eq!(mk(3, 4).caret_line(), None);
    assert_eq!(mk(2, 4).caret_line(), None);
    assert_eq!(mk(1, 5).caret_line(), None);
    assert_eq!(mk(2, 2).caret_line(), None);
    assert_eq!(mk(2, 1).caret_line(), None);
    assert_eq!(mk(0, 1).caret_line().as_deref(), Some("^  "));
    assert_eq!(mk(1, 3).caret_line().as_deref(), Some(" ^^"));
    assert_eq!(mk(2, 3).caret_line().as_deref(), Some("  ^"));
}

#[test]
fn config_reads_paths_and_query() {
    let args: Vec<String> = ["prog", "flows.json", "bool, #2"].iter().map(|s| s.to_string()).collect();
    let config = Config::build(&args).unwrap();
    assert_eq!(config.data_json, "flows.json");
    assert_eq!(config.query_json, "bool, #2");
    assert_eq!(
        config.query,
        vec![
            QueryOps::QType(QType { name: "bool".to_string(), desc: None }),
            QueryOps::QTypeVar(2)
        ]
    );
}

#[test]
fn config_rejects_short_command_line() {
    let args: Vec<String> = ["prog", "flows.json"].iter().map(|s| s.to_string()).collect();
    assert!(matches!(Config::build(&args), Err(ConfigError::TooFewArguments)));
    assert_eq!(
        ConfigError::TooFewArguments.reason(),
        "Too few arguments! Usage: <data_json_path> <queries_json_path>"
    );
}

#[test]
fn config_rejects_blank_query() {
    let args: Vec<String> = ["prog", "flows.json", " , "].iter().map(|s| s.to_string()).collect();
    match Config::build(&args) {
        Err(ConfigError::Query(e)) => assert_eq!(e.kind, CompileErrorKind::EmptyQuery),
        _ => panic!("expected a query error"),
    }
}

#[test]
fn config_rejects_query_that_does_not_compile() {
    let args: Vec<String> = ["prog", "flows.json", "a, #z"].iter().map(|s| s.to_string()).collect();
    match Config::build(&args) {
        Err(ConfigError::Query(e)) => assert_eq!(e.field, 2),
        _ => panic!("expected a query error"),
    }
}
