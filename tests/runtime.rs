use bercik::endpoint::EndpointInfo;
use bercik::runtime::{
    EndpointExecutionRuntime, ExecutionError, ExecutionMockService, ExecutionResult, ResultMap,
};
use bercik::text_map::TextMap;

fn row(pairs: &[(&str, &str)]) -> TextMap {
    let mut m = TextMap::new();
    for (k, v) in pairs {
        m.insert(k.to_string(), v.to_string());
    }
    m
}

fn node(name: &str, variables: &[&str], sql: &str, children: Vec<EndpointInfo>) -> EndpointInfo {
    EndpointInfo {
        name: name.into(),
        variables: variables.iter().map(|v| v.to_string()).collect(),
        parsed_sql: sql.into(),
        original_sql: "".into(),
        children,
    }
}

fn leaf(data: TextMap) -> ExecutionResult {
    ExecutionResult {
        data,
        children: ResultMap::new(),
    }
}

#[test]
fn it_works() {
    let mut mock_service = ExecutionMockService::new(vec![vec![row(&[("test", "test")])]]);

    let request_variables = TextMap::new();

    let endpoint_infos = vec![node("test", &[], "this sql should be executed", vec![])];

    let mut execution_runtime = EndpointExecutionRuntime::new(request_variables);

    let final_result = execution_runtime
        .execute(&mut mock_service, &endpoint_infos)
        .unwrap();

    assert_eq!(
        final_result,
        ResultMap {
            groups: vec![("test".to_string(), vec![leaf(row(&[("test", "test")]))])]
        }
    );

    assert_eq!(
        mock_service.called_queries,
        vec!["this sql should be executed"]
    );
    assert_eq!(mock_service.bound_params, Vec::<&str>::new());
}

#[test]
fn error_when_cant_find_req_variable() {
    let mut mock_service = ExecutionMockService::new(vec![vec![row(&[("test", "test")])]]);

    let request_variables = TextMap::new();

    let endpoint_infos = vec![node("test", &["req.test_key"], "", vec![])];

    let mut execution_runtime = EndpointExecutionRuntime::new(request_variables);

    let result = execution_runtime.execute(&mut mock_service, &endpoint_infos);

    let error = result.unwrap_err();
    assert_eq!(error.to_string(), "Request key test_key not found");
}

#[test]
fn error_when_too_many_supers() {
    let mut mock_service = ExecutionMockService::new(vec![vec![row(&[("test", "test")])]]);

    let request_variables = TextMap::new();

    let endpoint_infos = vec![node(
        "test",
        &["super.test_key"],
        "should not be executed",
        vec![],
    )];

    let mut execution_runtime = EndpointExecutionRuntime::new(request_variables);

    let result = execution_runtime.execute(&mut mock_service, &endpoint_infos);

    let error = result.unwrap_err();
    assert_eq!(
        error.to_string(),
        "Too many 'super.'s, reached negative index (super.test_key)"
    );

    // check that it didn't execute the query
    assert_eq!(mock_service.called_queries, Vec::<&str>::new());
}

#[test]
fn error_when_cant_find_super_variable() {
    let mut mock_service = ExecutionMockService::new(vec![vec![row(&[("test", "test")])]]);

    let request_variables = TextMap::new();

    let endpoint_infos = vec![node(
        "test",
        &[],
        "Should be executed",
        vec![node(
            "test_inner",
            &["super.key_that_doesnt_exist"],
            "Should not be executed",
            vec![],
        )],
    )];

    let mut execution_runtime = EndpointExecutionRuntime::new(request_variables);

    let result = execution_runtime.execute(&mut mock_service, &endpoint_infos);

    let error = result.unwrap_err();
    assert_eq!(
        error.to_string(),
        "Execution key super.key_that_doesnt_exist not found"
    );

    // only the outer query ran; a transaction undoes it in production
    assert_eq!(mock_service.called_queries, vec!["Should be executed"]);
}

#[test]
fn request_variables_work() {
    let mut mock_service = ExecutionMockService::new(vec![vec![row(&[("test", "test")])]]);

    let request_variables = row(&[("age", "41")]);

    let endpoint_infos = vec![node("test", &["req.age"], "select $1", vec![])];

    let mut execution_runtime = EndpointExecutionRuntime::new(request_variables);

    let final_result = execution_runtime
        .execute(&mut mock_service, &endpoint_infos)
        .unwrap();

    assert_eq!(
        final_result,
        ResultMap {
            groups: vec![("test".to_string(), vec![leaf(row(&[("test", "test")]))])]
        }
    );

    assert_eq!(mock_service.called_queries, vec!["select $1".to_owned()]);
    assert_eq!(mock_service.bound_params, vec!["41".to_owned()]);
}

#[test]
fn super_variables_work() {
    let mut mock_service = ExecutionMockService::new(vec![
        vec![row(&[("inner_test", "child of test 2")])],
        vec![row(&[("inner_test", "child of test 1")])],
        vec![row(&[("test", "test 1")]), row(&[("test", "test 2")])],
    ]);

    let request_variables = TextMap::new();

    let endpoint_infos = vec![node(
        "test",
        &[],
        "outer sql",
        vec![node("test_inner", &["super.test"], "inner sql", vec![])],
    )];

    let mut execution_runtime = EndpointExecutionRuntime::new(request_variables);

    let final_result = execution_runtime
        .execute(&mut mock_service, &endpoint_infos)
        .unwrap();

    assert_eq!(
        final_result,
        ResultMap {
            groups: vec![(
                "test".to_string(),
                vec![
                    ExecutionResult {
                        data: row(&[("test", "test 1")]),
                        children: ResultMap {
                            groups: vec![(
                                "test_inner".to_string(),
                                vec![leaf(row(&[("inner_test", "child of test 1")]))]
                            )]
                        }
                    },
                    ExecutionResult {
                        data: row(&[("test", "test 2")]),
                        children: ResultMap {
                            groups: vec![(
                                "test_inner".to_string(),
                                vec![leaf(row(&[("inner_test", "child of test 2")]))]
                            )]
                        }
                    }
                ]
            )]
        }
    );
    // each child query saw its own parent row
    assert_eq!(mock_service.bound_params, vec!["test 1", "test 2"]);
}

#[test]
fn resolution_failure_of_later_sibling_stops_before_its_query() {
    let mut mock_service = ExecutionMockService::new(vec![
        vec![row(&[("b", "2")])],
        vec![row(&[("a", "1")])],
    ]);
    let endpoint_infos = vec![
        node("first", &[], "first sql", vec![]),
        node("second", &["req.missing"], "second sql", vec![]),
        node("third", &[], "third sql", vec![]),
    ];
    let mut runtime = EndpointExecutionRuntime::new(TextMap::new());
    let error = runtime.execute(&mut mock_service, &endpoint_infos).unwrap_err();
    assert_eq!(error, ExecutionError::RequestKeyNotFound("missing".to_string()));
    assert_eq!(mock_service.called_queries, vec!["first sql"]);
}

#[test]
fn private_columns_reach_children_but_not_results() {
    let mut mock_service = ExecutionMockService::new(vec![
        vec![row(&[("title", "hello")])],
        vec![row(&[("private_id", "7"), ("username", "adam")])],
    ]);
    let endpoint_infos = vec![node(
        "user",
        &["req.userId"],
        "SELECT id as private_id, username FROM users WHERE id=$1",
        vec![node(
            "posts",
            &["super.private_id"],
            "SELECT title FROM posts WHERE user_fk=$1",
            vec![],
        )],
    )];
    let mut runtime = EndpointExecutionRuntime::new(row(&[("userId", "7")]));
    let result = runtime.execute(&mut mock_service, &endpoint_infos).unwrap();
    assert_eq!(mock_service.bound_params, vec!["7", "7"]);
    let users = result.get("user").unwrap();
    assert_eq!(users.len(), 1);
    assert_eq!(users[0].data, row(&[("username", "adam")]));
    assert!(users[0].data.get("private_id").is_none());
    let posts = users[0].children.get("posts").unwrap();
    assert_eq!(posts[0].data, row(&[("title", "hello")]));
}

#[test]
fn super_super_reaches_grandparent_and_overflows_at_root_child() {
    let mut mock_service = ExecutionMockService::new(vec![
        vec![row(&[("c", "z")])],
        vec![row(&[("b", "y")])],
        vec![row(&[("a", "x")])],
    ]);
    let endpoint_infos = vec![node(
        "one",
        &[],
        "q1",
        vec![node(
            "two",
            &["super.a"],
            "q2",
            vec![node("three", &["super.super.a", "super.b"], "q3", vec![])],
        )],
    )];
    let mut runtime = EndpointExecutionRuntime::new(TextMap::new());
    let result = runtime.execute(&mut mock_service, &endpoint_infos).unwrap();
    assert_eq!(mock_service.bound_params, vec!["x", "x", "y"]);
    assert_eq!(result.groups.len(), 1);

    let mut mock_service = ExecutionMockService::new(vec![vec![row(&[("x", "v")])]]);
    let endpoint_infos = vec![node(
        "one",
        &[],
        "q1",
        vec![node("two", &["super.super.x"], "q2", vec![])],
    )];
    let mut runtime = EndpointExecutionRuntime::new(TextMap::new());
    let error = runtime.execute(&mut mock_service, &endpoint_infos).unwrap_err();
    assert_eq!(
        error,
        ExecutionError::NegativeAncestorIndex("super.super.x".to_string())
    );
    assert_eq!(mock_service.called_queries, vec!["q1"]);
}

#[test]
fn bad_variable_name_is_rejected() {
    let mut mock_service = ExecutionMockService::new(vec![vec![]]);
    let endpoint_infos = vec![node("n", &["request.id"], "q", vec![])];
    let mut runtime = EndpointExecutionRuntime::new(TextMap::new());
    let error = runtime.execute(&mut mock_service, &endpoint_infos).unwrap_err();
    assert_eq!(
        error.to_string(),
        "Bad variable name (request.id). Should begin with super. or req."
    );
}

#[test]
fn acceptor_error_is_passed_on() {
    let mut mock_service = ExecutionMockService::new(vec![]);
    let endpoint_infos = vec![node("n", &[], "q", vec![])];
    let mut runtime = EndpointExecutionRuntime::new(TextMap::new());
    let error = runtime.execute(&mut mock_service, &endpoint_infos).unwrap_err();
    assert_eq!(
        error,
        ExecutionError::Db("no result set left for the query".to_string())
    );
}

#[test]
fn nodes_with_one_name_share_a_group_and_empty_rows_give_no_group() {
    let mut mock_service = ExecutionMockService::new(vec![
        vec![row(&[("k", "2")])],
        vec![],
        vec![row(&[("k", "1")])],
    ]);
    let endpoint_infos = vec![
        node("same", &[], "a", vec![]),
        node("empty", &[], "b", vec![]),
        node("same", &[], "c", vec![]),
    ];
    let mut runtime = EndpointExecutionRuntime::new(TextMap::new());
    let result = runtime.execute(&mut mock_service, &endpoint_infos).unwrap();
    assert_eq!(
        result,
        ResultMap {
            groups: vec![(
                "same".to_string(),
                vec![leaf(row(&[("k", "1")])), leaf(row(&[("k", "2")]))]
            )]
        }
    );
    assert!(result.get("empty").is_none());
}

#[test]
fn text_map_replaces_and_filters() {
    let mut m = TextMap::new();
    m.insert("a".into(), "1".into());
    m.insert("private_b".into(), "2".into());
    m.insert("a".into(), "3".into());
    m.insert("private".into(), "4".into());
    assert_eq!(m.len(), 3);
    assert_eq!(m.get("a").unwrap(), "3");
    let visible = m.without_private();
    assert_eq!(visible, row(&[("a", "3"), ("private", "4")]));
    assert!(visible.get("private_b").is_none());
}
