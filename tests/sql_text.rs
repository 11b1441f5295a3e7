use bercik::schema::{
    ColumnInfoWithSpecial, DefaultValue, SpecialColumnType, TableField, TableFieldType, TableInfo,
};
use bercik::table_sql::{
    build_create_sql, build_insert_query, build_query, ColumnValue, GetTableDataRequest,
    InsertDataRequest, InsertError, Sorting, WhereClause,
};

fn column(name: &str, data_type: &str, special: Option<SpecialColumnType>) -> ColumnInfoWithSpecial {
    ColumnInfoWithSpecial {
        name: name.to_string(),
        data_type: data_type.to_string(),
        is_nullable: false,
        column_default: "".to_string(),
        special_info: special,
    }
}

fn users() -> TableInfo {
    TableInfo {
        table_name: "users".into(),
        columns: vec![
            column("name", "text", None),
            column("id", "integer", Some(SpecialColumnType::PrimaryKey)),
        ],
        external_references: vec![],
    }
}

#[test]
fn page_query_defaults_to_primary_key_order() {
    let req = GetTableDataRequest {
        table_name: "users".into(),
        where_clause: WhereClause::Unfiltered,
        sorting: Sorting::Unspecified,
        page: None,
    };
    assert_eq!(
        build_query(users(), &req),
        "SELECT name::varchar, id::varchar FROM users ORDER BY id DESC FETCH FIRST 100 ROWS ONLY"
    );
}

#[test]
fn page_query_with_filter_order_and_page() {
    let req = GetTableDataRequest {
        table_name: "users".into(),
        where_clause: WhereClause::ColumnEquals {
            col_name: "name".into(),
            equals: "'adam'".into(),
        },
        sorting: Sorting::ColumnAscending("name".into()),
        page: Some(3),
    };
    assert_eq!(
        build_query(users(), &req),
        "SELECT name::varchar, id::varchar FROM users WHERE name = 'adam' ORDER BY name ASC OFFSET 300 ROWS FETCH FIRST 100 ROWS ONLY"
    );
    let req = GetTableDataRequest {
        table_name: "users".into(),
        where_clause: WhereClause::Custom("id > 3".into()),
        sorting: Sorting::CustomExpression("random()".into()),
        page: Some(4294967295),
    };
    assert_eq!(
        build_query(users(), &req),
        "SELECT name::varchar, id::varchar FROM users WHERE id > 3 ORDER BY random() OFFSET 429496729500 ROWS FETCH FIRST 100 ROWS ONLY"
    );
    let req = GetTableDataRequest {
        table_name: "users".into(),
        where_clause: WhereClause::Unfiltered,
        sorting: Sorting::ColumnDescending("name".into()),
        page: Some(0),
    };
    assert_eq!(
        build_query(users(), &req),
        "SELECT name::varchar, id::varchar FROM users ORDER BY name DESC OFFSET 0 ROWS FETCH FIRST 100 ROWS ONLY"
    );
}

#[test]
fn insert_query_pairs_columns_with_values() {
    let req = InsertDataRequest {
        table_name: "users".into(),
        values: vec![
            ColumnValue {
                value: "adam".into(),
                use_default: false,
                use_null: false,
            },
            ColumnValue {
                value: "".into(),
                use_default: true,
                use_null: true,
            },
        ],
    };
    assert_eq!(
        build_insert_query(&vec![users()], &req).unwrap(),
        "INSERT INTO users (name, id) VALUES ('adam'::text, default)"
    );
    let req = InsertDataRequest {
        table_name: "users".into(),
        values: vec![ColumnValue {
            value: "x".into(),
            use_default: false,
            use_null: true,
        }],
    };
    assert_eq!(
        build_insert_query(&vec![users()], &req).unwrap(),
        "INSERT INTO users (name) VALUES (null)"
    );
    let req = InsertDataRequest {
        table_name: "nope".into(),
        values: vec![],
    };
    let e = build_insert_query(&vec![users()], &req).unwrap_err();
    assert_eq!(e, InsertError::TableNotFound);
    assert_eq!(e.to_string(), "Table of that name not found");
}

#[test]
fn create_table_statement() {
    let fields = vec![
        TableField {
            name: "title".into(),
            field_type: TableFieldType::String,
            not_null: true,
            default: DefaultValue::NoDefault,
        },
        TableField {
            name: "author".into(),
            field_type: TableFieldType::ForeignKey("users".into()),
            not_null: false,
            default: DefaultValue::Value("1".into()),
        },
    ];
    assert_eq!(
        build_create_sql("posts", &fields),
        "CREATE TABLE posts ( id SERIAL PRIMARY KEY, title varchar(255) NOT NULL , author INT REFERENCES users(id)  DEFAULT 1 )"
    );
    assert_eq!(
        build_create_sql("empty", &vec![]),
        "CREATE TABLE empty ( id SERIAL PRIMARY KEY )"
    );
}
