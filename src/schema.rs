//! Schema descriptions: tables, columns, keys, and the field types that
//! table forms use.

use crate::text::{has_prefix, push_text, starts_with, str_eq, text_of};
use vstd::prelude::*;

verus! {

/// The kind of a table field.
#[derive(Debug, PartialEq, Eq)]
pub enum TableFieldType {
    Integer,
    Serial,
    RealNumber,
    String,
    Text,
    Date,
    ForeignKey(String),
    CustomType(String),
}

/// The default value of a table field.
#[derive(Debug, PartialEq, Eq)]
pub enum DefaultValue {
    NoDefault,
    Value(String),
}

/// One field of a table form.
#[derive(Debug, PartialEq, Eq)]
pub struct TableField {
    pub name: String,
    pub field_type: TableFieldType,
    pub not_null: bool,
    pub default: DefaultValue,
}

/// The PostgreSQL type of a field type.
pub open spec fn postgres_type(t: TableFieldType) -> Seq<char> {
    match t {
        TableFieldType::Integer => "int"@,
        TableFieldType::Serial => "serial"@,
        TableFieldType::RealNumber => "real"@,
        TableFieldType::String => "varchar(255)"@,
        TableFieldType::Text => "text"@,
        TableFieldType::Date => "date"@,
        TableFieldType::ForeignKey(table) => "INT REFERENCES "@ + table@ + "(id)"@,
        TableFieldType::CustomType(name) => name@,
    }
}

/// The `DEFAULT` clause of a default value.
pub open spec fn postgres_default(d: DefaultValue) -> Seq<char> {
    match d {
        DefaultValue::NoDefault => Seq::empty(),
        DefaultValue::Value(v) => "DEFAULT "@ + v@,
    }
}

impl DefaultValue {
    pub fn to_postgres_default_value(&self) -> (r: String)
        ensures
            r@ == postgres_default(*self),
    {
        match self {
            DefaultValue::NoDefault => String::new(),
            DefaultValue::Value(v) => {
                let mut r = text_of("DEFAULT ");
                push_text(&mut r, v.as_str());
                r
            },
        }
    }
}

impl TableFieldType {
    pub fn to_postgres_type(&self) -> (r: String)
        ensures
            r@ == postgres_type(*self),
    {
        match self {
            TableFieldType::Integer => text_of("int"),
            TableFieldType::Serial => text_of("serial"),
            TableFieldType::RealNumber => text_of("real"),
            TableFieldType::String => text_of("varchar(255)"),
            TableFieldType::Text => text_of("text"),
            TableFieldType::Date => text_of("date"),
            TableFieldType::ForeignKey(table) => {
                let mut r = text_of("INT REFERENCES ");
                push_text(&mut r, table.as_str());
                push_text(&mut r, "(id)");
                r
            },
            TableFieldType::CustomType(name) => name.clone(),
        }
    }
}

/// A foreign key: `source_table.source_column` refers to
/// `target_table.target_column`.
#[derive(Debug, PartialEq, Eq)]
pub struct ForeignKeyInfo {
    pub source_table: String,
    pub source_column: String,
    pub target_table: String,
    pub target_column: String,
}

/// The last foreign key whose source is `table.column`.
pub open spec fn foreign_key_of(fkeys: Seq<ForeignKeyInfo>, table: Seq<char>, column: Seq<char>) -> Option<
    ForeignKeyInfo,
>
    decreases fkeys.len(),
{
    if fkeys.len() == 0 {
        None
    } else if fkeys.last().source_table@ == table && fkeys.last().source_column@ == column {
        Some(fkeys.last())
    } else {
        foreign_key_of(fkeys.drop_last(), table, column)
    }
}

/// Foreign keys looked up by their source table and column.
pub struct ForeignKeyMap<'a> {
    fkeys: &'a Vec<ForeignKeyInfo>,
}

/// The foreign keys, looked up by source; a later key replaces an earlier
/// one with the same source.
pub fn foreign_key_map<'a>(fkeys: &'a Vec<ForeignKeyInfo>) -> (r: ForeignKeyMap<'a>)
    ensures
        r.keys() == fkeys@,
{
    ForeignKeyMap { fkeys }
}

impl<'a> ForeignKeyMap<'a> {
    pub closed spec fn keys(&self) -> Seq<ForeignKeyInfo> {
        self.fkeys@
    }

    /// The foreign key whose source is `table.column`.
    pub fn get(&self, table: &str, column: &str) -> (r: Option<&'a ForeignKeyInfo>)
        ensures
            match r {
                Some(k) => foreign_key_of(self.keys(), table@, column@) == Some(*k),
                None => foreign_key_of(self.keys(), table@, column@) is None,
            },
    {
        let fkeys: &'a Vec<ForeignKeyInfo> = self.fkeys;
        let mut i: usize = fkeys.len();
        assert(fkeys@.subrange(0, i as int) =~= fkeys@);
        while i > 0
            invariant
                i <= fkeys@.len(),
                fkeys@ == self.keys(),
                foreign_key_of(fkeys@, table@, column@) == foreign_key_of(
                    fkeys@.subrange(0, i as int),
                    table@,
                    column@,
                ),
            decreases i,
        {
            let ghost pre = fkeys@.subrange(0, i as int);
            assert(pre.last() == fkeys@[i - 1]);
            assert(pre.drop_last() =~= fkeys@.subrange(0, i - 1));
            let k = &fkeys[i - 1];
            if str_eq(k.source_table.as_str(), table) && str_eq(k.source_column.as_str(), column) {
                return Some(k);
            }
            i -= 1;
        }
        None
    }
}

/// `pat` occurs in `s`.
pub open spec fn contains_text(s: Seq<char>, pat: Seq<char>) -> bool {
    exists|i: int| 0 <= i && i + pat.len() <= s.len() && #[trigger] s.subrange(i, i + pat.len()) == pat
}

/// Whether `pat` occurs in `s`.
pub fn find_text(s: &str, pat: &str) -> (r: bool)
    ensures
        r == contains_text(s@, pat@),
{
    let n = s.unicode_len();
    let m = pat.unicode_len();
    if m > n {
        assert forall|i: int| 0 <= i && i + m <= n implies #[trigger] s@.subrange(i, i + m) != pat@ by {}
        return false;
    }
    let last = n - m;
    let mut i: usize = 0;
    loop
        invariant
            n == s@.len(),
            m == pat@.len(),
            m <= n,
            last == n - m,
            i <= last,
            forall|q: int| 0 <= q < i ==> #[trigger] s@.subrange(q, q + m) != pat@,
        decreases last - i,
    {
        let window = s.substring_char(i, i + m);
        if str_eq(window, pat) {
            return true;
        }
        if i == last {
            return false;
        }
        i += 1;
    }
}

/// The field type of a column: its SQL type, its default, and the foreign
/// key that starts at it.
pub open spec fn field_type_of(
    data_type: Seq<char>,
    column_default: Seq<char>,
    reference: Option<ForeignKeyInfo>,
) -> TableFieldType {
    let nextval = "nextval"@;
    if data_type == "integer"@ && !contains_text(column_default, nextval) && reference is None {
        TableFieldType::Integer
    } else if data_type == "integer"@ && has_prefix(column_default, nextval) && reference is None {
        TableFieldType::Serial
    } else if data_type == "integer"@ && !contains_text(column_default, nextval)
        && reference is Some {
        TableFieldType::ForeignKey(reference->0.target_table)
    } else if data_type == "real"@ && reference is None {
        TableFieldType::RealNumber
    } else if data_type == "character varying"@ && reference is None {
        TableFieldType::String
    } else if data_type == "text"@ && reference is None {
        TableFieldType::Text
    } else {
        TableFieldType::CustomType(text_from(data_type))
    }
}

/// The string holding `s`.
pub open spec fn text_from(s: Seq<char>) -> String {
    choose|r: String| r@ == s
}

/// The field type that `data_type`, `column_default` and the foreign key
/// map give a column.
fn field_type(
    data_type: &String,
    column_default: &String,
    column_name: &String,
    table_name: &str,
    foreign_key_map: &ForeignKeyMap,
) -> (r: TableFieldType)
    ensures
        same_field_type(
            r,
            field_type_of(
                data_type@,
                column_default@,
                foreign_key_of(foreign_key_map.keys(), table_name@, column_name@),
            ),
        ),
{
    let nextval = "nextval";
    let found = find_text(column_default.as_str(), nextval);
    let at_start = starts_with(column_default.as_str(), nextval);
    let reference = foreign_key_map.get(table_name, column_name.as_str());
    let integer = str_eq(data_type.as_str(), "integer");
    proof {
        if at_start {
            assert(column_default@.subrange(0, 0 + nextval@.len() as int) == nextval@);
            assert(contains_text(column_default@, nextval@));
        }
    }
    proof {
        assert(exists|r: String| r@ == data_type@);
    }
    match reference {
        None => {
            if integer && !found {
                TableFieldType::Integer
            } else if integer && at_start {
                TableFieldType::Serial
            } else if str_eq(data_type.as_str(), "real") {
                TableFieldType::RealNumber
            } else if str_eq(data_type.as_str(), "character varying") {
                TableFieldType::String
            } else if str_eq(data_type.as_str(), "text") {
                TableFieldType::Text
            } else {
                TableFieldType::CustomType(data_type.clone())
            }
        },
        Some(k) => {
            if integer && !found {
                TableFieldType::ForeignKey(k.target_table.clone())
            } else {
                TableFieldType::CustomType(data_type.clone())
            }
        },
    }
}

/// Two field types of the same kind with the same text.
pub open spec fn same_field_type(a: TableFieldType, b: TableFieldType) -> bool {
    match (a, b) {
        (TableFieldType::ForeignKey(x), TableFieldType::ForeignKey(y)) => x@ == y@,
        (TableFieldType::CustomType(x), TableFieldType::CustomType(y)) => x@ == y@,
        (TableFieldType::ForeignKey(_), _) => false,
        (TableFieldType::CustomType(_), _) => false,
        _ => a == b,
    }
}

/// A column as the schema describes it.
#[derive(Debug, PartialEq, Eq)]
pub struct ColumnInfo {
    pub name: String,
    pub data_type: String,
    pub is_nullable: bool,
    pub column_default: String,
}

/// A column with what makes it special, if anything.
#[derive(Debug, PartialEq, Eq)]
pub struct ColumnInfoWithSpecial {
    pub name: String,
    pub data_type: String,
    pub is_nullable: bool,
    pub column_default: String,
    pub special_info: Option<SpecialColumnType>,
}

/// A column as read while building a table form.
#[derive(Debug, PartialEq, Eq)]
pub struct IntermediateColumnInfo {
    pub name: String,
    pub data_type: String,
    pub is_nullable: bool,
    pub column_default: String,
}

impl ColumnInfo {
    /// The field type of this column of `table_name`.
    pub fn get_table_field_type(&self, table_name: &str, foreign_key_map: &ForeignKeyMap) -> (r:
        TableFieldType)
        ensures
            same_field_type(
                r,
                field_type_of(
                    self.data_type@,
                    self.column_default@,
                    foreign_key_of(foreign_key_map.keys(), table_name@, self.name@),
                ),
            ),
    {
        field_type(&self.data_type, &self.column_default, &self.name, table_name, foreign_key_map)
    }

    /// The column with `special_info` attached.
    pub fn with_special(self, special_info: Option<SpecialColumnType>) -> (r: ColumnInfoWithSpecial)
        ensures
            r.name == self.name,
            r.data_type == self.data_type,
            r.is_nullable == self.is_nullable,
            r.column_default == self.column_default,
            r.special_info == special_info,
    {
        ColumnInfoWithSpecial {
            name: self.name,
            data_type: self.data_type,
            is_nullable: self.is_nullable,
            column_default: self.column_default,
            special_info,
        }
    }
}

impl IntermediateColumnInfo {
    fn get_table_field_type(&self, table_name: &str, foreign_key_map: &ForeignKeyMap) -> (r:
        TableFieldType)
        ensures
            same_field_type(
                r,
                field_type_of(
                    self.data_type@,
                    self.column_default@,
                    foreign_key_of(foreign_key_map.keys(), table_name@, self.name@),
                ),
            ),
    {
        field_type(&self.data_type, &self.column_default, &self.name, table_name, foreign_key_map)
    }

    /// The form field for this column of `table_name`: required unless
    /// nullable, with its default unless that is empty.
    pub fn to_table_field(&self, table_name: &str, foreign_key_map: &ForeignKeyMap) -> (r:
        TableField)
        ensures
            r.name == self.name,
            same_field_type(
                r.field_type,
                field_type_of(
                    self.data_type@,
                    self.column_default@,
                    foreign_key_of(foreign_key_map.keys(), table_name@, self.name@),
                ),
            ),
            r.not_null == !self.is_nullable,
            self.column_default@.len() == 0 ==> r.default == DefaultValue::NoDefault,
            self.column_default@.len() != 0 ==> r.default == DefaultValue::Value(
                self.column_default,
            ),
    {
        let default = if self.column_default.as_str().unicode_len() == 0 {
            DefaultValue::NoDefault
        } else {
            DefaultValue::Value(self.column_default.clone())
        };
        TableField {
            name: self.name.clone(),
            field_type: self.get_table_field_type(table_name, foreign_key_map),
            not_null: !self.is_nullable,
            default,
        }
    }
}

/// What makes a column special.
#[derive(Debug, PartialEq, Eq)]
pub enum SpecialColumnType {
    PrimaryKey,
    ForeignKey { references_table: String, references_column: String },
}

impl SpecialColumnType {
    /// A copy.
    pub fn duplicate(&self) -> (r: SpecialColumnType)
        ensures
            r == *self,
    {
        match self {
            SpecialColumnType::PrimaryKey => SpecialColumnType::PrimaryKey,
            SpecialColumnType::ForeignKey { references_table, references_column } => {
                SpecialColumnType::ForeignKey {
                    references_table: references_table.clone(),
                    references_column: references_column.clone(),
                }
            },
        }
    }
}

/// A special column of a table.
#[derive(Debug, PartialEq, Eq)]
pub struct SpecialColumnInfo {
    pub table_name: String,
    pub column_name: String,
    pub special_type: SpecialColumnType,
}

/// A column of another table that refers to a table.
#[derive(Debug, PartialEq, Eq)]
pub struct ExternalReferenceInfo {
    pub table_name: String,
    pub column_name: String,
    pub references_column: String,
}

/// A column, named by its table and its name.
#[derive(Debug, PartialEq, Eq, Hash)]
pub struct SpecialColumnMapKey {
    pub table_name: String,
    pub column_name: String,
}

impl SpecialColumnInfo {
    pub fn special_column_map_key(&self) -> (r: SpecialColumnMapKey)
        ensures
            r.table_name == self.table_name,
            r.column_name == self.column_name,
    {
        SpecialColumnMapKey {
            table_name: self.table_name.clone(),
            column_name: self.column_name.clone(),
        }
    }

    /// For a foreign key: the referred table, and this column as a
    /// reference to it.
    pub fn external_ref_map_key_val(&self) -> (r: Option<(String, ExternalReferenceInfo)>)
        ensures
            match self.special_type {
                SpecialColumnType::PrimaryKey => r is None,
                SpecialColumnType::ForeignKey { references_table, references_column } => r
                    == Some((
                    references_table,
                    ExternalReferenceInfo {
                        table_name: self.table_name,
                        column_name: self.column_name,
                        references_column,
                    },
                )),
            },
    {
        match &self.special_type {
            SpecialColumnType::ForeignKey { references_table, references_column } => Some(
                (
                    references_table.clone(),
                    ExternalReferenceInfo {
                        table_name: self.table_name.clone(),
                        column_name: self.column_name.clone(),
                        references_column: references_column.clone(),
                    },
                ),
            ),
            SpecialColumnType::PrimaryKey => None,
        }
    }

    pub fn get_type(&self) -> (r: SpecialColumnType)
        ensures
            r == self.special_type,
    {
        self.special_type.duplicate()
    }
}

/// The last special column with this table and column name.
pub open spec fn special_of(cols: Seq<SpecialColumnInfo>, table: Seq<char>, column: Seq<char>) -> Option<
    SpecialColumnInfo,
>
    decreases cols.len(),
{
    if cols.len() == 0 {
        None
    } else if cols.last().table_name@ == table && cols.last().column_name@ == column {
        Some(cols.last())
    } else {
        special_of(cols.drop_last(), table, column)
    }
}

/// The foreign keys among `cols` that refer to `table`, in order, as
/// (table, column, referred column).
pub open spec fn references_to(cols: Seq<SpecialColumnInfo>, table: Seq<char>) -> Seq<
    (Seq<char>, Seq<char>, Seq<char>),
>
    decreases cols.len(),
{
    if cols.len() == 0 {
        Seq::empty()
    } else {
        let rest = references_to(cols.drop_last(), table);
        match cols.last().special_type {
            SpecialColumnType::ForeignKey { references_table, references_column } => {
                if references_table@ == table {
                    rest.push(
                        (cols.last().table_name@, cols.last().column_name@, references_column@),
                    )
                } else {
                    rest
                }
            },
            SpecialColumnType::PrimaryKey => rest,
        }
    }
}

/// The references, as (table, column, referred column).
pub open spec fn reference_views(refs: Seq<ExternalReferenceInfo>) -> Seq<
    (Seq<char>, Seq<char>, Seq<char>),
> {
    refs.map_values(|e: ExternalReferenceInfo| (e.table_name@, e.column_name@, e.references_column@))
}

/// Each group lists, under a table's name, every foreign key that refers
/// to that table; each table with such keys has one group.
pub open spec fn groups_cover(
    groups: Seq<(String, Vec<ExternalReferenceInfo>)>,
    cols: Seq<SpecialColumnInfo>,
) -> bool {
    &&& forall|i: int|
        0 <= i < groups.len() ==> {
            &&& reference_views((#[trigger] groups[i]).1@) == references_to(cols, groups[i].0@)
            &&& groups[i].1@.len() > 0
        }
    &&& forall|i: int, j: int| 0 <= i < j < groups.len() ==> groups[i].0@ != groups[j].0@
    &&& forall|t: Seq<char>|
        #[trigger] references_to(cols, t).len() > 0 ==> exists|i: int|
            0 <= i < groups.len() && groups[i].0@ == t
}

/// The special columns of a schema, looked up by table and column, and
/// the references to each table.
#[derive(Debug)]
pub struct SpecialColumnMap {
    map: Vec<SpecialColumnInfo>,
    external_ref_map: Vec<(String, Vec<ExternalReferenceInfo>)>,
}

proof fn lemma_references_step(cols: Seq<SpecialColumnInfo>, i: int, t: Seq<char>)
    requires
        0 <= i < cols.len(),
    ensures
        references_to(cols.subrange(0, i + 1), t) == match cols[i].special_type {
            SpecialColumnType::ForeignKey { references_table, references_column } => {
                if references_table@ == t {
                    references_to(cols.subrange(0, i), t).push(
                        (cols[i].table_name@, cols[i].column_name@, references_column@),
                    )
                } else {
                    references_to(cols.subrange(0, i), t)
                }
            },
            SpecialColumnType::PrimaryKey => references_to(cols.subrange(0, i), t),
        },
{
    let pre = cols.subrange(0, i + 1);
    assert(pre.drop_last() =~= cols.subrange(0, i));
    assert(pre.last() == cols[i]);
}

fn add_reference(
    groups: &mut Vec<(String, Vec<ExternalReferenceInfo>)>,
    key: String,
    info: ExternalReferenceInfo,
    Ghost(cols): Ghost<Seq<SpecialColumnInfo>>,
    Ghost(i): Ghost<int>,
)
    requires
        0 <= i < cols.len(),
        groups_cover(old(groups)@, cols.subrange(0, i)),
        cols[i].special_type == (SpecialColumnType::ForeignKey {
            references_table: key,
            references_column: info.references_column,
        }),
        info.table_name == cols[i].table_name,
        info.column_name == cols[i].column_name,
    ensures
        groups_cover(final(groups)@, cols.subrange(0, i + 1)),
{
    let ghost pre = cols.subrange(0, i);
    let ghost post = cols.subrange(0, i + 1);
    let ghost item = (info.table_name@, info.column_name@, info.references_column@);
    proof {
        assert forall|t: Seq<char>|
            #[trigger] references_to(post, t) == if t == key@ {
                references_to(pre, t).push(item)
            } else {
                references_to(pre, t)
            } by {
            lemma_references_step(cols, i, t);
        }
    }
    let n = groups.len();
    let mut j: usize = 0;
    while j < n
        invariant
            n == groups@.len(),
            j <= n,
            groups_cover(groups@, pre),
            0 <= i < cols.len(),
            pre == cols.subrange(0, i),
            post == cols.subrange(0, i + 1),
            forall|q: int| 0 <= q < j ==> groups@[q].0@ != key@,
            item == (info.table_name@, info.column_name@, info.references_column@),
            forall|t: Seq<char>|
                #[trigger] references_to(post, t) == if t == key@ {
                    references_to(pre, t).push(item)
                } else {
                    references_to(pre, t)
                },
        decreases n - j,
    {
        if str_eq(groups[j].0.as_str(), key.as_str()) {
            let ghost before = groups@;
            let (name, mut list) = groups.remove(j);
            let ghost old_list = list@;
            list.push(info);
            let ghost new_list = list@;
            let ghost new_name = name;
            proof {
                assert(new_list == old_list.push(info));
                assert forall|k: int| 0 <= k < new_list.len() implies reference_views(new_list)[k]
                    == reference_views(old_list).push(item)[k] by {
                    if k < old_list.len() {
                        assert(new_list[k] == old_list[k]);
                    } else {
                        assert(new_list[k] == info);
                    }
                }
                assert(reference_views(new_list) =~= reference_views(old_list).push(item));
            }
            groups.insert(j, (name, list));
            proof {
                assert(groups@[j as int].1@ == new_list);
                assert forall|q: int| 0 <= q < groups@.len() implies {
                    &&& reference_views((#[trigger] groups@[q]).1@) == references_to(
                        post,
                        groups@[q].0@,
                    )
                    &&& groups@[q].1@.len() > 0
                } by {
                    if q != j {
                        assert(groups@[q] == before[q]);
                        assert(before[j as int].0@ == key@);
                        if q > j {
                            assert(before[j as int].0@ != before[q].0@);
                        }
                        assert(before[q].0@ != key@);
                        assert(references_to(post, before[q].0@) == references_to(
                            pre,
                            before[q].0@,
                        ));
                    } else {
                        assert(references_to(post, key@) == references_to(pre, key@).push(item));
                    }
                }
                assert forall|q: int, r: int|
                    0 <= q < r < groups@.len() implies groups@[q].0@ != groups@[r].0@ by {
                    assert(groups@[q].0@ == before[q].0@);
                    assert(groups@[r].0@ == before[r].0@);
                }
                assert forall|t: Seq<char>| #[trigger]
                    references_to(post, t).len() > 0 implies exists|q: int|
                        0 <= q < groups@.len() && groups@[q].0@ == t by {
                    if t == key@ {
                        assert(groups@[j as int].0@ == t);
                    } else {
                        assert(references_to(pre, t).len() > 0);
                        let q = choose|q: int| 0 <= q < before.len() && before[q].0@ == t;
                        assert(groups@[q].0@ == before[q].0@);
                    }
                }
            }
            return ;
        }
        j += 1;
    }
    let ghost before = groups@;
    proof {
        if references_to(pre, key@).len() > 0 {
            let q = choose|q: int| 0 <= q < before.len() && before[q].0@ == key@;
            assert(false);
        }
    }
    let mut list: Vec<ExternalReferenceInfo> = Vec::new();
    list.push(info);
    groups.push((key, list));
    proof {
        assert(reference_views(list@) =~= seq![item]);
        assert(references_to(pre, key@) =~= Seq::empty());
        assert(references_to(post, key@) =~= seq![item]);
        assert forall|q: int| 0 <= q < groups@.len() implies {
            &&& reference_views((#[trigger] groups@[q]).1@) == references_to(post, groups@[q].0@)
            &&& groups@[q].1@.len() > 0
        } by {
            if q < n {
                assert(groups@[q] == before[q]);
                assert(references_to(post, before[q].0@) == references_to(pre, before[q].0@));
            }
        }
        assert forall|q: int, r: int| 0 <= q < r < groups@.len() implies groups@[q].0@
            != groups@[r].0@ by {
            if r < n {
                assert(groups@[q] == before[q] && groups@[r] == before[r]);
            } else {
                assert(groups@[q] == before[q]);
            }
        }
        assert forall|t: Seq<char>| #[trigger]
            references_to(post, t).len() > 0 implies exists|q: int|
                0 <= q < groups@.len() && groups@[q].0@ == t by {
            if t == key@ {
                assert(groups@[n as int].0@ == t);
            } else {
                assert(references_to(pre, t).len() > 0);
                let q = choose|q: int| 0 <= q < before.len() && before[q].0@ == t;
                assert(groups@[q] == before[q]);
            }
        }
    }
}

impl SpecialColumnMap {
    #[verifier::type_invariant]
    closed spec fn inv(&self) -> bool {
        groups_cover(self.external_ref_map@, self.map@)
    }

    pub closed spec fn columns(&self) -> Seq<SpecialColumnInfo> {
        self.map@
    }

    /// The map of `cols`: every column by its key, every foreign key under
    /// the table it refers to.
    pub fn build(cols: Vec<SpecialColumnInfo>) -> (r: Self)
        ensures
            r.columns() == cols@,
    {
        let mut external_ref_map: Vec<(String, Vec<ExternalReferenceInfo>)> = Vec::new();
        let n = cols.len();
        let mut i: usize = 0;
        proof {
            assert forall|t: Seq<char>| #[trigger]
                references_to(cols@.subrange(0, 0), t).len() == 0 by {
                assert(cols@.subrange(0, 0).len() == 0);
            }
        }
        while i < n
            invariant
                n == cols@.len(),
                i <= n,
                groups_cover(external_ref_map@, cols@.subrange(0, i as int)),
            decreases n - i,
        {
            match cols[i].external_ref_map_key_val() {
                Some((key, val)) => {
                    add_reference(&mut external_ref_map, key, val, Ghost(cols@), Ghost(i as int));
                },
                None => {
                    proof {
                        let pre = cols@.subrange(0, i as int);
                        let post = cols@.subrange(0, i + 1);
                        assert forall|t: Seq<char>|
                            #[trigger] references_to(post, t) == references_to(pre, t) by {
                            lemma_references_step(cols@, i as int, t);
                        }
                    }
                },
            }
            i += 1;
        }
        assert(cols@.subrange(0, n as int) =~= cols@);
        SpecialColumnMap { map: cols, external_ref_map }
    }

    /// The special column `key`; a later column replaces an earlier one
    /// with the same key.
    pub fn get_column_special_info(&self, key: &SpecialColumnMapKey) -> (r: Option<
        &SpecialColumnInfo,
    >)
        ensures
            match r {
                Some(c) => special_of(self.columns(), key.table_name@, key.column_name@) == Some(
                    *c,
                ),
                None => special_of(self.columns(), key.table_name@, key.column_name@) is None,
            },
    {
        let mut i: usize = self.map.len();
        assert(self.map@.subrange(0, i as int) =~= self.map@);
        while i > 0
            invariant
                i <= self.map@.len(),
                special_of(self.map@, key.table_name@, key.column_name@) == special_of(
                    self.map@.subrange(0, i as int),
                    key.table_name@,
                    key.column_name@,
                ),
            decreases i,
        {
            let ghost pre = self.map@.subrange(0, i as int);
            assert(pre.last() == self.map@[i - 1]);
            assert(pre.drop_last() =~= self.map@.subrange(0, i - 1));
            let c = &self.map[i - 1];
            if str_eq(c.table_name.as_str(), key.table_name.as_str()) && str_eq(
                c.column_name.as_str(),
                key.column_name.as_str(),
            ) {
                return Some(c);
            }
            i -= 1;
        }
        None
    }

    /// What makes the column `key` special, if anything.
    pub fn get_column_special_info_type(&self, key: &SpecialColumnMapKey) -> (r: Option<
        SpecialColumnType,
    >)
        ensures
            match special_of(self.columns(), key.table_name@, key.column_name@) {
                Some(c) => r == Some(c.special_type),
                None => r is None,
            },
    {
        match self.get_column_special_info(key) {
            Some(c) => Some(c.special_type.duplicate()),
            None => None,
        }
    }

    /// The columns that refer to `table_name`, in order; `None` when none does.
    pub fn get_external_refs(&self, table_name: &str) -> (r: Option<&Vec<ExternalReferenceInfo>>)
        ensures
            match r {
                Some(v) => reference_views(v@) == references_to(self.columns(), table_name@)
                    && v@.len() > 0,
                None => references_to(self.columns(), table_name@).len() == 0,
            },
    {
        proof {
            use_type_invariant(self);
        }
        let n = self.external_ref_map.len();
        let mut i: usize = 0;
        while i < n
            invariant
                n == self.external_ref_map@.len(),
                i <= n,
                groups_cover(self.external_ref_map@, self.map@),
                forall|q: int| 0 <= q < i ==> self.external_ref_map@[q].0@ != table_name@,
            decreases n - i,
        {
            if str_eq(self.external_ref_map[i].0.as_str(), table_name) {
                assert(self.external_ref_map@[i as int].0@ == table_name@);
                return Some(&self.external_ref_map[i].1);
            }
            i += 1;
        }
        proof {
            if references_to(self.map@, table_name@).len() > 0 {
                let q = choose|q: int|
                    0 <= q < self.external_ref_map@.len() && self.external_ref_map@[q].0@
                        == table_name@;
                assert(false);
            }
        }
        None
    }
}

/// A table with its columns and the columns of other tables that refer to it.
#[derive(Debug, PartialEq, Eq)]
pub struct TableInfo {
    pub table_name: String,
    pub columns: Vec<ColumnInfoWithSpecial>,
    pub external_references: Vec<ExternalReferenceInfo>,
}

} // verus!
