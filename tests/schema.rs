use bercik::mermaid::{DiagramError, MermaidDiagram};
use bercik::schema::{
    foreign_key_map, ColumnInfo, ColumnInfoWithSpecial, DefaultValue, ForeignKeyInfo,
    IntermediateColumnInfo, SpecialColumnInfo, SpecialColumnMap, SpecialColumnMapKey,
    SpecialColumnType, TableFieldType, TableInfo,
};

fn column(name: &str, data_type: &str, nullable: bool, special: Option<SpecialColumnType>) -> ColumnInfoWithSpecial {
    ColumnInfoWithSpecial {
        name: name.to_string(),
        data_type: data_type.to_string(),
        is_nullable: nullable,
        column_default: "".to_string(),
        special_info: special,
    }
}

fn fkey(st: &str, sc: &str, tt: &str, tc: &str) -> ForeignKeyInfo {
    ForeignKeyInfo {
        source_table: st.to_string(),
        source_column: sc.to_string(),
        target_table: tt.to_string(),
        target_column: tc.to_string(),
    }
}

#[test]
fn works() {
    let table_info = vec![
        TableInfo {
            table_name: "table_one".to_string(),
            columns: vec![ColumnInfoWithSpecial {
                name: "id".to_string(),
                data_type: "int".to_string(),
                is_nullable: false,
                column_default: "".to_string(),
                special_info: Some(SpecialColumnType::PrimaryKey),
            }],
            external_references: vec![], // not used for mermaid diagram
        },
        TableInfo {
            table_name: "table_two".to_string(),
            columns: vec![
                ColumnInfoWithSpecial {
                    name: "id".to_string(),
                    data_type: "int".to_string(),
                    is_nullable: false,
                    column_default: "".to_string(),
                    special_info: Some(SpecialColumnType::PrimaryKey),
                },
                ColumnInfoWithSpecial {
                    name: "table_one_fk".to_string(),
                    data_type: "int".to_string(),
                    is_nullable: false,
                    column_default: "".to_string(),
                    special_info: Some(SpecialColumnType::ForeignKey {
                        references_table: "table_one".to_string(),
                        references_column: "id".to_string(),
                    }),
                },
            ],
            external_references: vec![], // not used for mermaid diagram
        },
    ];

    let fkey_info = vec![ForeignKeyInfo {
        source_table: "table_two".to_string(),
        source_column: "table_one_fk".to_string(),
        target_table: "table_one".to_string(),
        target_column: "id".to_string(),
    }];

    let diagram = MermaidDiagram::new(&table_info, &fkey_info).unwrap();

    assert_eq!(
        diagram,
        MermaidDiagram(
            "\
        erDiagram \
        table_one { int id } \
        table_two { int id int table_one_fk } \
        table_one ||--o{ table_two : \"table_one_fk ref. id\" \
        "
            .to_string()
        )
    );
}

#[test]
fn diagram_marks_nullable_keys_and_reports_unknown_sources() {
    let tables = vec![TableInfo {
        table_name: "post".to_string(),
        columns: vec![column("author", "int", true, None)],
        external_references: vec![],
    }];
    let d = MermaidDiagram::new(&tables, &vec![fkey("post", "author", "user", "id")]).unwrap();
    assert_eq!(
        d.0,
        "erDiagram post { int author } user |o--o{ post : \"author ref. id\" "
    );
    assert_eq!(
        MermaidDiagram::new(&tables, &vec![fkey("nope", "author", "user", "id")]),
        Err(DiagramError::MissingTable)
    );
    let e = MermaidDiagram::new(&tables, &vec![fkey("post", "nope", "user", "id")]).unwrap_err();
    assert_eq!(e, DiagramError::MissingColumn);
    assert_eq!(
        e.to_string(),
        "Found foreign key info of a column that doesn't exist"
    );
}

#[test]
fn postgres_types_and_defaults() {
    assert_eq!(TableFieldType::Integer.to_postgres_type(), "int");
    assert_eq!(TableFieldType::Serial.to_postgres_type(), "serial");
    assert_eq!(TableFieldType::RealNumber.to_postgres_type(), "real");
    assert_eq!(TableFieldType::String.to_postgres_type(), "varchar(255)");
    assert_eq!(TableFieldType::Text.to_postgres_type(), "text");
    assert_eq!(TableFieldType::Date.to_postgres_type(), "date");
    assert_eq!(
        TableFieldType::ForeignKey("users".into()).to_postgres_type(),
        "INT REFERENCES users(id)"
    );
    assert_eq!(TableFieldType::CustomType("jsonb".into()).to_postgres_type(), "jsonb");
    assert_eq!(DefaultValue::NoDefault.to_postgres_default_value(), "");
    assert_eq!(DefaultValue::Value("0".into()).to_postgres_default_value(), "DEFAULT 0");
}

fn info(name: &str, data_type: &str, default: &str) -> ColumnInfo {
    ColumnInfo {
        name: name.into(),
        data_type: data_type.into(),
        is_nullable: true,
        column_default: default.into(),
    }
}

#[test]
fn field_types_follow_type_default_and_references() {
    let fkeys = vec![fkey("post", "author", "user", "id"), fkey("post", "author", "account", "id")];
    let map = foreign_key_map(&fkeys);
    assert_eq!(info("a", "integer", "").get_table_field_type("post", &map), TableFieldType::Integer);
    assert_eq!(
        info("id", "integer", "nextval('post_id_seq'::regclass)").get_table_field_type("post", &map),
        TableFieldType::Serial
    );
    assert_eq!(
        info("n", "integer", "1 + nextval('s')").get_table_field_type("post", &map),
        TableFieldType::CustomType("integer".into())
    );
    assert_eq!(
        info("author", "integer", "").get_table_field_type("post", &map),
        TableFieldType::ForeignKey("account".into())
    );
    assert_eq!(info("r", "real", "").get_table_field_type("post", &map), TableFieldType::RealNumber);
    assert_eq!(
        info("s", "character varying", "").get_table_field_type("post", &map),
        TableFieldType::String
    );
    assert_eq!(info("t", "text", "").get_table_field_type("post", &map), TableFieldType::Text);
    assert_eq!(
        info("d", "date", "").get_table_field_type("post", &map),
        TableFieldType::CustomType("date".into())
    );
}

#[test]
fn table_field_from_column() {
    let fkeys: Vec<ForeignKeyInfo> = vec![];
    let map = foreign_key_map(&fkeys);
    let c = IntermediateColumnInfo {
        name: "age".into(),
        data_type: "integer".into(),
        is_nullable: false,
        column_default: "18".into(),
    };
    let f = c.to_table_field("people", &map);
    assert_eq!(f.name, "age");
    assert_eq!(f.field_type, TableFieldType::Integer);
    assert!(f.not_null);
    assert_eq!(f.default, DefaultValue::Value("18".into()));
    let c = IntermediateColumnInfo {
        name: "nick".into(),
        data_type: "text".into(),
        is_nullable: true,
        column_default: "".into(),
    };
    let f = c.to_table_field("people", &map);
    assert!(!f.not_null);
    assert_eq!(f.default, DefaultValue::NoDefault);
}

#[test]
fn special_column_map_lookups() {
    let cols = vec![
        SpecialColumnInfo {
            table_name: "post".into(),
            column_name: "id".into(),
            special_type: SpecialColumnType::PrimaryKey,
        },
        SpecialColumnInfo {
            table_name: "post".into(),
            column_name: "author".into(),
            special_type: SpecialColumnType::ForeignKey {
                references_table: "user".into(),
                references_column: "id".into(),
            },
        },
        SpecialColumnInfo {
            table_name: "comment".into(),
            column_name: "writer".into(),
            special_type: SpecialColumnType::ForeignKey {
                references_table: "user".into(),
                references_column: "id".into(),
            },
        },
    ];
    let (table, reference) = cols[1].external_ref_map_key_val().unwrap();
    assert_eq!(table, "user");
    assert_eq!(reference.column_name, "author");
    assert!(cols[0].external_ref_map_key_val().is_none());
    assert_eq!(cols[0].get_type(), SpecialColumnType::PrimaryKey);
    let key = cols[1].special_column_map_key();
    let map = SpecialColumnMap::build(cols);
    assert_eq!(map.get_column_special_info(&key).unwrap().column_name, "author");
    assert_eq!(
        map.get_column_special_info_type(&SpecialColumnMapKey {
            table_name: "post".into(),
            column_name: "id".into()
        }),
        Some(SpecialColumnType::PrimaryKey)
    );
    assert!(map
        .get_column_special_info_type(&SpecialColumnMapKey {
            table_name: "post".into(),
            column_name: "title".into()
        })
        .is_none());
    let refs = map.get_external_refs("user").unwrap();
    assert_eq!(refs.len(), 2);
    assert_eq!(refs[0].table_name, "post");
    assert_eq!(refs[1].table_name, "comment");
    assert!(map.get_external_refs("post").is_none());
}

#[test]
fn column_with_special_keeps_fields() {
    let c = info("id", "integer", "nextval('x')");
    let w = c.with_special(Some(SpecialColumnType::PrimaryKey));
    assert_eq!(w.name, "id");
    assert_eq!(w.data_type, "integer");
    assert_eq!(w.column_default, "nextval('x')");
    assert_eq!(w.special_info, Some(SpecialColumnType::PrimaryKey));
}
