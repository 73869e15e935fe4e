use semantic_code_search::query::{
    CompileError, CompileErrorKind, QConstructorArg, QType, QueryOps,
};

fn qtype(name: &str, desc: Option<&str>) -> QueryOps {
    QueryOps::QType(QType { name: name.to_string(), desc: desc.map(|d| d.to_string()) })
}

fn qarg(name: &str, arg_index: Option<usize>, desc: Option<&str>) -> QueryOps {
    QueryOps::QConstructorArg(QConstructorArg {
        name: name.to_string(),
        arg_index,
        desc: desc.map(|d| d.to_string()),
    })
}

fn error(kind: CompileErrorKind, field: usize) -> CompileError {
    CompileError { kind, field }
}

#[test]
fn test_simplified_query_parsing() {
    assert!(matches!(
        QueryOps::parse_query("#3").unwrap()[0],
        QueryOps::QTypeVar(3)
    ));

    // Test type patterns
    let query = QueryOps::parse_query("List:generic").unwrap();
    if let QueryOps::QType(qt) = &query[0] {
        assert_eq!(qt.name, "List");
        assert_eq!(qt.desc.as_deref(), Some("generic"));
    }

    // Test constructor arg patterns
    let query = QueryOps::parse_query("@x.1").unwrap();
    if let QueryOps::QConstructorArg(qa) = &query[0] {
        assert_eq!(qa.name, "x");
        assert_eq!(qa.arg_index, Some(1));
    }

    // Test description
    let query = QueryOps::parse_query("\"some desc\"").unwrap();
    if let QueryOps::QDesc(desc) = &query[0] {
        assert_eq!(desc, "some desc");
    }

    // Test complex query
    let query = QueryOps::parse_query("List, @x.2, \"foo bar\"").unwrap();
    assert_eq!(
        query,
        vec![
            QueryOps::QType(QType {
                name: "List".to_string(),
                desc: None,
            }),
            QueryOps::QConstructorArg(QConstructorArg {
                name: "x".to_string(),
                arg_index: Some(2),
                desc: None
            }),
            QueryOps::QDesc("foo bar".to_string())
        ]
    );

    let query = QueryOps::parse_query("bool,\"if-then-else condition\"").unwrap();
    assert_eq!(
        query,
        vec![
            QueryOps::QType(QType {
                name: "bool".to_string(),
                desc: None,
            }),
            QueryOps::QDesc("if-then-else condition".to_string())
        ]
    );

    let query = QueryOps::parse_query("@Tuple.2").unwrap();
    assert_eq!(
        query,
        vec![QueryOps::QConstructorArg(QConstructorArg {
            name: "Tuple".to_string(),
            arg_index: Some(2),
            desc: None,
        })]
    );

    let query = QueryOps::parse_query("bool,@Tuple.1,\"if-then-else condition\"").unwrap();
    assert_eq!(
        query,
        vec![
            QueryOps::QType(QType {
                name: "bool".to_string(),
                desc: None,
            }),
            QueryOps::QConstructorArg(QConstructorArg {
                name: "Tuple".to_string(),
                arg_index: Some(1),
                desc: None,
            }),
            QueryOps::QDesc("if-then-else condition".to_string())
        ]
    );
}

#[test]
fn compiles_type_var_degree() {
    assert_eq!(QueryOps::parse_query("#3"), Ok(vec![QueryOps::QTypeVar(3)]));
    assert_eq!(QueryOps::parse_query("#0"), Ok(vec![QueryOps::QTypeVar(0)]));
    assert_eq!(QueryOps::parse_query("#+7"), Ok(vec![QueryOps::QTypeVar(7)]));
    assert_eq!(QueryOps::parse_query("#042"), Ok(vec![QueryOps::QTypeVar(42)]));
}

#[test]
fn compiles_type_with_description() {
    assert_eq!(
        QueryOps::parse_query("List:generic"),
        Ok(vec![qtype("List", Some("generic"))])
    );
    assert_eq!(QueryOps::parse_query("List"), Ok(vec![qtype("List", None)]));
    assert_eq!(QueryOps::parse_query("List:"), Ok(vec![qtype("List", Some(""))]));
}

#[test]
fn compiles_constructor_arg_forms() {
    assert_eq!(QueryOps::parse_query("@x.1"), Ok(vec![qarg("x", Some(1), None)]));
    assert_eq!(QueryOps::parse_query("@x"), Ok(vec![qarg("x", None, None)]));
    assert_eq!(QueryOps::parse_query("@x:desc"), Ok(vec![qarg("x", None, Some("desc"))]));
    assert_eq!(QueryOps::parse_query("@x.abc"), Ok(vec![qarg("x", None, Some("abc"))]));
    assert_eq!(QueryOps::parse_query("@x:5"), Ok(vec![qarg("x", Some(5), None)]));
    assert_eq!(QueryOps::parse_query("@"), Ok(vec![qarg("", None, None)]));
}

#[test]
fn compiles_quoted_description() {
    assert_eq!(
        QueryOps::parse_query("\"some desc\""),
        Ok(vec![QueryOps::QDesc("some desc".to_string())])
    );
    assert_eq!(QueryOps::parse_query("\"a:b.c\""), Ok(vec![QueryOps::QDesc("a:b.c".to_string())]));
    assert_eq!(QueryOps::parse_query("\"\""), Ok(vec![QueryOps::QDesc(String::new())]));
    // a lone quote is not a quoted text: it is read as a type name
    assert_eq!(QueryOps::parse_query("\""), Ok(vec![qtype("\"", None)]));
}

#[test]
fn compiles_mixed_query_in_order() {
    assert_eq!(
        QueryOps::parse_query("bool,@Tuple.1,\"if-then-else condition\""),
        Ok(vec![
            qtype("bool", None),
            qarg("Tuple", Some(1), None),
            QueryOps::QDesc("if-then-else condition".to_string()),
        ])
    );
}

#[test]
fn trims_fields_and_drops_empty_ones() {
    assert_eq!(
        QueryOps::parse_query("  List ,\t@f.0\n, ,,#2,"),
        Ok(vec![qtype("List", None), qarg("f", Some(0), None), QueryOps::QTypeVar(2)])
    );
    assert_eq!(QueryOps::parse_query("\u{a0}Map\u{2003}"), Ok(vec![qtype("Map", None)]));
}

#[test]
fn rejects_query_with_only_blank_fields() {
    let empty = error(CompileErrorKind::EmptyQuery, 0);
    assert_eq!(QueryOps::parse_query(""), Err(empty));
    assert_eq!(QueryOps::parse_query("   "), Err(empty));
    assert_eq!(QueryOps::parse_query(",,"), Err(empty));
    assert_eq!(QueryOps::parse_query(" , ,\u{3000}"), Err(empty));
}

#[test]
fn rejects_bad_type_var_count() {
    assert_eq!(
        QueryOps::parse_query("#x"),
        Err(error(CompileErrorKind::InvalidTypeVarCount, 1))
    );
    assert_eq!(
        QueryOps::parse_query("List, #"),
        Err(error(CompileErrorKind::InvalidTypeVarCount, 2))
    );
    assert_eq!(
        QueryOps::parse_query("#-1"),
        Err(error(CompileErrorKind::InvalidTypeVarCount, 1))
    );
    assert_eq!(
        QueryOps::parse_query("#+"),
        Err(error(CompileErrorKind::InvalidTypeVarCount, 1))
    );
}

#[test]
fn rejects_type_var_count_beyond_usize() {
    let too_big = format!("#{}0", usize::MAX);
    assert_eq!(
        QueryOps::parse_query(&too_big),
        Err(error(CompileErrorKind::InvalidTypeVarCount, 1))
    );
    let largest = format!("#{}", usize::MAX);
    assert_eq!(QueryOps::parse_query(&largest), Ok(vec![QueryOps::QTypeVar(usize::MAX)]));
}

#[test]
fn rejects_constructor_arg_with_two_delimiters() {
    assert_eq!(
        QueryOps::parse_query("a, @x.1.2"),
        Err(error(CompileErrorKind::InvalidConstructorArg, 2))
    );
    assert_eq!(
        QueryOps::parse_query("@x:a:b"),
        Err(error(CompileErrorKind::InvalidConstructorArg, 1))
    );
}

#[test]
fn rejects_type_with_two_colons() {
    assert_eq!(
        QueryOps::parse_query("a:b:c"),
        Err(error(CompileErrorKind::InvalidType, 1))
    );
}

#[test]
fn reports_first_bad_field_counting_empty_ones() {
    assert_eq!(
        QueryOps::parse_query("a,,#x,b:c:d"),
        Err(error(CompileErrorKind::InvalidTypeVarCount, 3))
    );
}

#[test]
fn error_reasons_are_worded() {
    assert_eq!(CompileErrorKind::InvalidTypeVarCount.reason(), "invalid type-variable count");
    assert_eq!(CompileErrorKind::InvalidConstructorArg.reason(), "invalid constructor-arg syntax");
    assert_eq!(CompileErrorKind::InvalidType.reason(), "invalid type syntax");
    assert_eq!(CompileErrorKind::EmptyQuery.reason(), "empty query");
}
