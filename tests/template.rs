use bercik::endpoint::{EndpointInfo, EndpointInfoCreateRequest};
use bercik::template::{CompileError, SqlWithVariables};
use bercik::text_map::TextMap;

#[test]
fn parsing_test() {
    let parsed = SqlWithVariables::from_sql("SELECT name FROM users WHERE name=${name}").unwrap();
    assert_eq!(&parsed.sql, "SELECT name FROM users WHERE name=$1");
    assert_eq!(&parsed.variables, &vec!["name"]);
}

#[test]
fn parsing_multiple() {
    let sql = "select * from users where name=${name} and age=${age} or name = upper(${name})";
    let parsed = SqlWithVariables::from_sql(sql).unwrap();

    assert_eq!(
        &parsed.sql,
        "select * from users where name=$1 and age=$2 or name = upper($3)"
    );
    assert_eq!(&parsed.variables, &vec!["name", "age", "name"]);
}

#[test]
#[should_panic]
fn not_closed_panics() {
    SqlWithVariables::from_sql("SELECT ${name").unwrap();
}

#[test]
fn bind_vec() {
    let sql = "select ${name}, ${age}, ${food}, ${name}";

    let mut data = TextMap::new();
    data.insert("name".into(), "Adam".into());
    data.insert("age".into(), "24".into());
    data.insert("food".into(), "bigos".into());

    let result = SqlWithVariables::from_sql(sql)
        .unwrap()
        .get_bind_vec(&data)
        .unwrap();

    assert_eq!(result, vec!["Adam", "24", "bigos", "Adam"]);
}

#[test]
fn parsing_endpoint_info() {
    let req = EndpointInfoCreateRequest {
        name: "user".into(),
        sql: "SELECT id as private_id, username FROM users WHERE id=${req.userId}".into(),
        children: vec![EndpointInfoCreateRequest {
            name: "posts".into(),
            sql: "SELECT title, body FROM posts WHERE user_fk=${super.private_id}".into(),
            children: vec![],
        }],
    };

    let expected = EndpointInfo {
        name: "user".into(),
        original_sql: req.sql.clone(),
        parsed_sql: "SELECT id as private_id, username FROM users WHERE id=$1".into(),
        variables: vec!["req.userId".into()],
        children: vec![EndpointInfo {
            name: "posts".into(),
            original_sql: req.children[0].sql.clone(),
            parsed_sql: "SELECT title, body FROM posts WHERE user_fk=$1".into(),
            variables: vec!["super.private_id".into()],
            children: vec![],
        }],
    };

    assert_eq!(EndpointInfo::from_request(req).unwrap(), expected);
}

#[test]
fn unterminated_block_is_an_error_not_a_truncation() {
    let r = SqlWithVariables::from_sql("select ${a} and ${b");
    match r {
        Err(e) => {
            assert_eq!(e, CompileError::UnterminatedVariableBlock);
            assert_eq!(e.to_string(), "Variable block not closed");
        }
        Ok(_) => panic!("an unterminated block must not compile"),
    }
}

#[test]
fn template_without_placeholders_is_copied() {
    let parsed = SqlWithVariables::from_sql("select 1 where a = '$x' and b = $").unwrap();
    assert_eq!(parsed.sql, "select 1 where a = '$x' and b = $");
    assert!(parsed.variables.is_empty());
}

#[test]
fn empty_template_compiles_to_nothing() {
    let parsed = SqlWithVariables::from_sql("").unwrap();
    assert_eq!(parsed.sql, "");
    assert!(parsed.variables.is_empty());
}

#[test]
fn empty_and_odd_names_are_accepted() {
    let parsed = SqlWithVariables::from_sql("${}${a b}x${${}").unwrap();
    assert_eq!(parsed.sql, "$1$2x$3");
    assert_eq!(parsed.variables, vec!["", "a b", "${"]);
}

#[test]
fn markers_count_past_nine() {
    let sql = "${a}${b}${c}${d}${e}${f}${g}${h}${i}${j}${k}";
    let parsed = SqlWithVariables::from_sql(sql).unwrap();
    assert_eq!(parsed.sql, "$1$2$3$4$5$6$7$8$9$10$11");
    assert_eq!(parsed.variables.len(), 11);
    assert_eq!(parsed.variables[10], "k");
}

#[test]
fn non_ascii_text_is_kept() {
    let parsed = SqlWithVariables::from_sql("select 'żółw' where x=${zażółć}").unwrap();
    assert_eq!(parsed.sql, "select 'żółw' where x=$1");
    assert_eq!(parsed.variables, vec!["zażółć"]);
}

#[test]
fn bind_vec_fails_on_missing_value() {
    let parsed = SqlWithVariables::from_sql("select ${name}, ${age}").unwrap();
    let mut data = TextMap::new();
    data.insert("name".into(), "Adam".into());
    assert!(parsed.get_bind_vec(&data).is_none());
}

#[test]
fn definition_with_bad_child_fails_whole_tree() {
    let req = EndpointInfoCreateRequest {
        name: "user".into(),
        sql: "select 1".into(),
        children: vec![EndpointInfoCreateRequest {
            name: "posts".into(),
            sql: "select ${oops".into(),
            children: vec![],
        }],
    };
    assert_eq!(
        EndpointInfo::from_request(req),
        Err(CompileError::UnterminatedVariableBlock)
    );
}

#[test]
fn definition_round_trips() {
    let req = EndpointInfoCreateRequest {
        name: "user".into(),
        sql: "select * from users where id=${req.id}".into(),
        children: vec![EndpointInfoCreateRequest {
            name: "posts".into(),
            sql: "select * from posts where user=${super.id}".into(),
            children: vec![],
        }],
    };
    let copy = EndpointInfoCreateRequest {
        name: "user".into(),
        sql: "select * from users where id=${req.id}".into(),
        children: vec![EndpointInfoCreateRequest {
            name: "posts".into(),
            sql: "select * from posts where user=${super.id}".into(),
            children: vec![],
        }],
    };
    let info = EndpointInfo::from_request(req).unwrap();
    assert_eq!(info.to_request(), copy);
}
