//! SQL text for reading a page of a table, inserting a row, and creating
//! a table from a form.

use crate::mermaid::first_table;
use crate::schema::{
    postgres_default, postgres_type, ColumnInfoWithSpecial, SpecialColumnType, TableField,
    TableInfo,
};
use crate::text::{decimal, push_decimal, push_text, str_eq, text_of};
use vstd::prelude::*;

verus! {

/// Rows on one page of table data.
pub const PAGE_ROW_COUNT: u32 = 100;

/// Which rows to read.
#[derive(Debug, PartialEq, Eq)]
pub enum WhereClause {
    /// Every row.
    Unfiltered,
    ColumnEquals { col_name: String, equals: String },
    Custom(String),
}

/// In which order to read them.
#[derive(Debug, PartialEq, Eq)]
pub enum Sorting {
    /// By the first primary key column, descending, if the table has one.
    Unspecified,
    ColumnDescending(String),
    ColumnAscending(String),
    CustomExpression(String),
}

/// A request for one page of a table.
#[derive(Debug, PartialEq, Eq)]
pub struct GetTableDataRequest {
    pub table_name: String,
    pub where_clause: WhereClause,
    pub sorting: Sorting,
    pub page: Option<u32>,
}

/// `parts` joined by `sep`.
pub open spec fn joined(parts: Seq<Seq<char>>, sep: Seq<char>) -> Seq<char>
    decreases parts.len(),
{
    if parts.len() == 0 {
        Seq::empty()
    } else if parts.len() == 1 {
        parts[0]
    } else {
        joined(parts.drop_last(), sep) + sep + parts.last()
    }
}

proof fn lemma_joined_push(parts: Seq<Seq<char>>, sep: Seq<char>, p: Seq<char>)
    ensures
        joined(parts.push(p), sep) == if parts.len() == 0 {
            p
        } else {
            joined(parts, sep) + sep + p
        },
{
    assert(parts.push(p).drop_last() =~= parts);
}

/// Each column read as text.
pub open spec fn select_list(cols: Seq<ColumnInfoWithSpecial>) -> Seq<char> {
    joined(Seq::new(cols.len(), |i: int| cols[i].name@ + "::varchar"@), ", "@)
}

pub open spec fn where_text(w: WhereClause) -> Seq<char> {
    match w {
        WhereClause::Unfiltered => Seq::empty(),
        WhereClause::ColumnEquals { col_name, equals } => " WHERE "@ + col_name@ + " = "@
            + equals@,
        WhereClause::Custom(c) => " WHERE "@ + c@,
    }
}

/// The first primary key column.
pub open spec fn first_primary_key(cols: Seq<ColumnInfoWithSpecial>) -> Option<
    ColumnInfoWithSpecial,
>
    decreases cols.len(),
{
    if cols.len() == 0 {
        None
    } else if cols[0].special_info == Some(SpecialColumnType::PrimaryKey) {
        Some(cols[0])
    } else {
        first_primary_key(cols.drop_first())
    }
}

pub open spec fn order_text(s: Sorting, cols: Seq<ColumnInfoWithSpecial>) -> Seq<char> {
    match s {
        Sorting::Unspecified => match first_primary_key(cols) {
            Some(c) => " ORDER BY "@ + c.name@ + " DESC"@,
            None => Seq::empty(),
        },
        Sorting::ColumnAscending(c) => " ORDER BY "@ + c@ + " ASC"@,
        Sorting::ColumnDescending(c) => " ORDER BY "@ + c@ + " DESC"@,
        Sorting::CustomExpression(e) => " ORDER BY "@ + e@,
    }
}

pub open spec fn page_text(page: Option<u32>) -> Seq<char> {
    match page {
        Some(p) => " OFFSET "@ + decimal((p * PAGE_ROW_COUNT) as nat) + " ROWS"@,
        None => Seq::empty(),
    }
}

/// The query for one page of a table.
pub open spec fn data_query(t: TableInfo, r: GetTableDataRequest) -> Seq<char> {
    "SELECT "@ + select_list(t.columns@) + " FROM "@ + t.table_name@ + where_text(r.where_clause)
        + order_text(r.sorting, t.columns@) + page_text(r.page) + " FETCH FIRST "@ + decimal(
        PAGE_ROW_COUNT as nat,
    ) + " ROWS ONLY"@
}

fn push_select_list(out: &mut String, cols: &Vec<ColumnInfoWithSpecial>)
    ensures
        final(out)@ == old(out)@ + select_list(cols@),
{
    let ghost base = out@;
    let ghost parts = Seq::new(cols@.len(), |i: int| cols@[i].name@ + "::varchar"@);
    let n = cols.len();
    let mut i: usize = 0;
    assert(parts.subrange(0, 0) =~= Seq::<Seq<char>>::empty());
    assert(out@ =~= base + joined(parts.subrange(0, 0), ", "@));
    while i < n
        invariant
            n == cols@.len(),
            parts == Seq::new(cols@.len(), |i: int| cols@[i].name@ + "::varchar"@),
            i <= n,
            out@ == base + joined(parts.subrange(0, i as int), ", "@),
        decreases n - i,
    {
        let ghost before = out@;
        proof {
            lemma_joined_push(parts.subrange(0, i as int), ", "@, parts[i as int]);
            assert(parts.subrange(0, i + 1) =~= parts.subrange(0, i as int).push(parts[i as int]));
        }
        if i > 0 {
            push_text(out, ", ");
        }
        push_text(out, cols[i].name.as_str());
        push_text(out, "::varchar");
        i += 1;
        assert(out@ =~= base + joined(parts.subrange(0, i as int), ", "@));
    }
    assert(parts.subrange(0, n as int) =~= parts);
}

fn push_order(out: &mut String, sorting: &Sorting, cols: &Vec<ColumnInfoWithSpecial>)
    ensures
        final(out)@ == old(out)@ + order_text(*sorting, cols@),
{
    match sorting {
        Sorting::Unspecified => {
            let n = cols.len();
            let mut i: usize = 0;
            assert(cols@.subrange(0, n as int) =~= cols@);
            while i < n
                invariant
                    n == cols@.len(),
                    i <= n,
                    first_primary_key(cols@) == first_primary_key(
                        cols@.subrange(i as int, n as int),
                    ),
                    out@ == old(out)@,
                    *sorting == Sorting::Unspecified,
                decreases n - i,
            {
                let ghost rest = cols@.subrange(i as int, n as int);
                assert(rest[0] == cols@[i as int]);
                assert(rest.drop_first() =~= cols@.subrange(i + 1, n as int));
                let is_key = match &cols[i].special_info {
                    Some(SpecialColumnType::PrimaryKey) => true,
                    _ => false,
                };
                if is_key {
                    push_text(out, " ORDER BY ");
                    push_text(out, cols[i].name.as_str());
                    push_text(out, " DESC");
                    assert(out@ =~= old(out)@ + order_text(*sorting, cols@));
                    return ;
                }
                i += 1;
            }
            assert(old(out)@ + Seq::<char>::empty() =~= old(out)@);
        },
        Sorting::ColumnAscending(c) => {
            push_text(out, " ORDER BY ");
            push_text(out, c.as_str());
            push_text(out, " ASC");
            assert(out@ =~= old(out)@ + order_text(*sorting, cols@));
        },
        Sorting::ColumnDescending(c) => {
            push_text(out, " ORDER BY ");
            push_text(out, c.as_str());
            push_text(out, " DESC");
            assert(out@ =~= old(out)@ + order_text(*sorting, cols@));
        },
        Sorting::CustomExpression(e) => {
            push_text(out, " ORDER BY ");
            push_text(out, e.as_str());
            assert(out@ =~= old(out)@ + order_text(*sorting, cols@));
        },
    }
}

/// The query that reads one page of `table_info`: every column as text,
/// the filter and the order asked for, and at most one page of rows.
pub fn build_query(table_info: TableInfo, get_data_request: &GetTableDataRequest) -> (r: String)
    ensures
        r@ == data_query(table_info, *get_data_request),
{
    let mut query = text_of("SELECT ");
    push_select_list(&mut query, &table_info.columns);
    push_text(&mut query, " FROM ");
    push_text(&mut query, table_info.table_name.as_str());
    let ghost head = query@;
    match &get_data_request.where_clause {
        WhereClause::Unfiltered => {},
        WhereClause::ColumnEquals { col_name, equals } => {
            push_text(&mut query, " WHERE ");
            push_text(&mut query, col_name.as_str());
            push_text(&mut query, " = ");
            push_text(&mut query, equals.as_str());
        },
        WhereClause::Custom(custom) => {
            push_text(&mut query, " WHERE ");
            push_text(&mut query, custom.as_str());
        },
    }
    assert(query@ =~= head + where_text(get_data_request.where_clause));
    push_order(&mut query, &get_data_request.sorting, &table_info.columns);
    let ghost with_order = query@;
    match get_data_request.page {
        Some(page) => {
            push_text(&mut query, " OFFSET ");
            assert(page as u64 * 100 <= 0xffff_ffffu64 * 100) by (nonlinear_arith)
                requires
                    page <= 0xffff_ffffu32,
            ;
            push_decimal(&mut query, page as u64 * PAGE_ROW_COUNT as u64);
            push_text(&mut query, " ROWS");
        },
        None => {},
    }
    assert(query@ =~= with_order + page_text(get_data_request.page));
    push_text(&mut query, " FETCH FIRST ");
    push_decimal(&mut query, PAGE_ROW_COUNT as u64);
    push_text(&mut query, " ROWS ONLY");
    assert(query@ =~= data_query(table_info, *get_data_request));
    query
}

/// The value of one column of a new row.
#[derive(Debug, PartialEq, Eq)]
pub struct ColumnValue {
    pub value: String,
    pub use_default: bool,
    pub use_null: bool,
}

/// A new row for a table: one value per column, in column order.
#[derive(Debug, PartialEq, Eq)]
pub struct InsertDataRequest {
    pub table_name: String,
    pub values: Vec<ColumnValue>,
}

/// Why no insert statement could be built.
#[derive(Debug, PartialEq, Eq)]
pub enum InsertError {
    TableNotFound,
}

impl InsertError {
    pub fn to_string(&self) -> (r: String)
        ensures
            r@ == "Table of that name not found"@,
    {
        text_of("Table of that name not found")
    }
}

/// The SQL for one value: `default`, `null`, or the quoted text cast to
/// the column's type.
pub open spec fn value_text(v: ColumnValue, data_type: Seq<char>) -> Seq<char> {
    if v.use_default {
        "default"@
    } else if v.use_null {
        "null"@
    } else {
        "'"@ + v.value@ + "'::"@ + data_type
    }
}

/// How many columns get a value.
pub open spec fn paired(t: TableInfo, r: InsertDataRequest) -> int {
    if t.columns@.len() < r.values@.len() {
        t.columns@.len() as int
    } else {
        r.values@.len() as int
    }
}

/// The insert statement for `r` into `t`: the first columns, paired with
/// the values in order.
pub open spec fn insert_query(t: TableInfo, r: InsertDataRequest) -> Seq<char> {
    let k = paired(t, r);
    "INSERT INTO "@ + r.table_name@ + " ("@ + joined(
        Seq::new(k as nat, |i: int| t.columns@[i].name@),
        ", "@,
    ) + ") VALUES ("@ + joined(
        Seq::new(k as nat, |i: int| value_text(r.values@[i], t.columns@[i].data_type@)),
        ", "@,
    ) + ")"@
}

fn push_value(out: &mut String, v: &ColumnValue, data_type: &String)
    ensures
        final(out)@ == old(out)@ + value_text(*v, data_type@),
{
    if v.use_default {
        push_text(out, "default");
    } else if v.use_null {
        push_text(out, "null");
    } else {
        push_text(out, "'");
        push_text(out, v.value.as_str());
        push_text(out, "'::");
        push_text(out, data_type.as_str());
        assert(out@ =~= old(out)@ + value_text(*v, data_type@));
    }
}

fn insert_statement(table: &TableInfo, req: &InsertDataRequest) -> (r: String)
    ensures
        r@ == insert_query(*table, *req),
{
    let k = if table.columns.len() < req.values.len() {
        table.columns.len()
    } else {
        req.values.len()
    };
    let ghost names = Seq::new(k as nat, |i: int| table.columns@[i].name@);
    let ghost vals = Seq::new(
        k as nat,
        |i: int| value_text(req.values@[i], table.columns@[i].data_type@),
    );
    let mut name_list = String::new();
    let mut value_list = String::new();
    let mut i: usize = 0;
    assert(names.subrange(0, 0) =~= Seq::<Seq<char>>::empty());
    assert(vals.subrange(0, 0) =~= Seq::<Seq<char>>::empty());
    while i < k
        invariant
            k as int == paired(*table, *req),
            names == Seq::new(k as nat, |i: int| table.columns@[i].name@),
            vals == Seq::new(
                k as nat,
                |i: int| value_text(req.values@[i], table.columns@[i].data_type@),
            ),
            i <= k,
            name_list@ == joined(names.subrange(0, i as int), ", "@),
            value_list@ == joined(vals.subrange(0, i as int), ", "@),
        decreases k - i,
    {
        proof {
            lemma_joined_push(names.subrange(0, i as int), ", "@, names[i as int]);
            lemma_joined_push(vals.subrange(0, i as int), ", "@, vals[i as int]);
            assert(names.subrange(0, i + 1) =~= names.subrange(0, i as int).push(names[i as int]));
            assert(vals.subrange(0, i + 1) =~= vals.subrange(0, i as int).push(vals[i as int]));
        }
        let ghost nb = name_list@;
        let ghost vb = value_list@;
        if i > 0 {
            push_text(&mut name_list, ", ");
            push_text(&mut value_list, ", ");
        }
        push_text(&mut name_list, table.columns[i].name.as_str());
        push_value(&mut value_list, &req.values[i], &table.columns[i].data_type);
        i += 1;
        assert(name_list@ =~= joined(names.subrange(0, i as int), ", "@));
        assert(value_list@ =~= joined(vals.subrange(0, i as int), ", "@));
    }
    assert(names.subrange(0, k as int) =~= names);
    assert(vals.subrange(0, k as int) =~= vals);
    let mut r = text_of("INSERT INTO ");
    push_text(&mut r, req.table_name.as_str());
    push_text(&mut r, " (");
    push_text(&mut r, name_list.as_str());
    push_text(&mut r, ") VALUES (");
    push_text(&mut r, value_list.as_str());
    push_text(&mut r, ")");
    assert(r@ =~= insert_query(*table, *req));
    r
}

/// The statement that inserts the row of `insert_data_request` into its
/// table, found among `tables_info` by name.
pub fn build_insert_query(tables_info: &Vec<TableInfo>, insert_data_request: &InsertDataRequest) -> (r:
    Result<String, InsertError>)
    ensures
        match first_table(tables_info@, insert_data_request.table_name@) {
            Some(t) => r matches Ok(s) && s@ == insert_query(t, *insert_data_request),
            None => r == Err::<String, InsertError>(InsertError::TableNotFound),
        },
{
    let n = tables_info.len();
    let mut i: usize = 0;
    assert(tables_info@.subrange(0, n as int) =~= tables_info@);
    while i < n
        invariant
            n == tables_info@.len(),
            i <= n,
            first_table(tables_info@, insert_data_request.table_name@) == first_table(
                tables_info@.subrange(i as int, n as int),
                insert_data_request.table_name@,
            ),
        decreases n - i,
    {
        let ghost rest = tables_info@.subrange(i as int, n as int);
        assert(rest[0] == tables_info@[i as int]);
        assert(rest.drop_first() =~= tables_info@.subrange(i + 1, n as int));
        if str_eq(tables_info[i].table_name.as_str(), insert_data_request.table_name.as_str()) {
            return Ok(insert_statement(&tables_info[i], insert_data_request));
        }
        i += 1;
    }
    Err(InsertError::TableNotFound)
}

/// A table to create from a form.
#[derive(Debug, PartialEq, Eq)]
pub struct CreateTableFormRequest {
    pub table_name: String,
    pub table_fields: Vec<TableField>,
}

/// The column definition of a form field: name, type, `NOT NULL` when
/// required, and the default, separated by spaces.
pub open spec fn field_line(f: TableField) -> Seq<char> {
    f.name@ + " "@ + postgres_type(f.field_type) + " "@ + (if f.not_null {
        "NOT NULL"@
    } else {
        Seq::empty()
    }) + " "@ + postgres_default(f.default)
}

/// The column definitions of a new table: a serial `id` key, then one per field.
pub open spec fn field_lines(fields: Seq<TableField>) -> Seq<Seq<char>> {
    seq!["id SERIAL PRIMARY KEY"@] + Seq::new(fields.len(), |i: int| field_line(fields[i]))
}

fn build_field_lines(fields: &Vec<TableField>) -> (r: Vec<String>)
    ensures
        crate::text::texts(r@) == field_lines(fields@),
{
    let mut lines: Vec<String> = Vec::new();
    lines.push(text_of("id SERIAL PRIMARY KEY"));
    let n = fields.len();
    let mut i: usize = 0;
    while i < n
        invariant
            n == fields@.len(),
            i <= n,
            crate::text::texts(lines@) == field_lines(fields@.subrange(0, i as int)),
        decreases n - i,
    {
        let field = &fields[i];
        let mut line = text_of(field.name.as_str());
        push_text(&mut line, " ");
        let f_type = field.field_type.to_postgres_type();
        push_text(&mut line, f_type.as_str());
        push_text(&mut line, " ");
        if field.not_null {
            push_text(&mut line, "NOT NULL");
        }
        push_text(&mut line, " ");
        let default = field.default.to_postgres_default_value();
        push_text(&mut line, default.as_str());
        assert(line@ =~= field_line(*field));
        let ghost before = crate::text::texts(lines@);
        lines.push(line);
        i += 1;
        assert(crate::text::texts(lines@) =~= before.push(field_line(*field)));
        assert(field_lines(fields@.subrange(0, i as int)) =~= field_lines(
            fields@.subrange(0, i - 1),
        ).push(field_line(*field)));
    }
    assert(fields@.subrange(0, n as int) =~= fields@);
    lines
}

/// The statement that creates table `name` with the fields of a form.
pub fn build_create_sql(name: &str, fields: &Vec<TableField>) -> (r: String)
    ensures
        r@ == "CREATE TABLE "@ + name@ + " ( "@ + joined(field_lines(fields@), ", "@) + " )"@,
{
    let lines = build_field_lines(fields);
    let ghost parts = crate::text::texts(lines@);
    let mut field_text = String::new();
    let n = lines.len();
    let mut i: usize = 0;
    assert(parts.subrange(0, 0) =~= Seq::<Seq<char>>::empty());
    while i < n
        invariant
            n == lines@.len(),
            parts == crate::text::texts(lines@),
            i <= n,
            field_text@ == joined(parts.subrange(0, i as int), ", "@),
        decreases n - i,
    {
        proof {
            lemma_joined_push(parts.subrange(0, i as int), ", "@, parts[i as int]);
            assert(parts.subrange(0, i + 1) =~= parts.subrange(0, i as int).push(parts[i as int]));
        }
        if i > 0 {
            push_text(&mut field_text, ", ");
        }
        push_text(&mut field_text, lines[i].as_str());
        i += 1;
        assert(field_text@ =~= joined(parts.subrange(0, i as int), ", "@));
    }
    assert(parts.subrange(0, n as int) =~= parts);
    let mut r = text_of("CREATE TABLE ");
    push_text(&mut r, name);
    push_text(&mut r, " ( ");
    push_text(&mut r, field_text.as_str());
    push_text(&mut r, " )");
    assert(r@ =~= "CREATE TABLE "@ + name@ + " ( "@ + joined(field_lines(fields@), ", "@) + " )"@);
    r
}

} // verus!
