//! Entity-relationship diagrams of a schema, in mermaid.js notation.

use crate::schema::{ColumnInfoWithSpecial, ForeignKeyInfo, TableInfo};
use crate::text::{push_text, str_eq, text_of};
use vstd::prelude::*;

verus! {

/// The text of the columns: `type name ` for each.
pub open spec fn columns_text(cols: Seq<ColumnInfoWithSpecial>) -> Seq<char>
    decreases cols.len(),
{
    if cols.len() == 0 {
        Seq::empty()
    } else {
        columns_text(cols.drop_last()) + cols.last().data_type@ + " "@ + cols.last().name@ + " "@
    }
}

/// The text of one table: `name { columns } `.
pub open spec fn table_text(t: TableInfo) -> Seq<char> {
    t.table_name@ + " { "@ + columns_text(t.columns@) + "} "@
}

/// The text of the tables, in order.
pub open spec fn tables_text(tables: Seq<TableInfo>) -> Seq<char>
    decreases tables.len(),
{
    if tables.len() == 0 {
        Seq::empty()
    } else {
        tables_text(tables.drop_last()) + table_text(tables.last())
    }
}

/// Why a diagram could not be drawn.
#[derive(Debug, PartialEq, Eq)]
pub enum DiagramError {
    /// A foreign key whose source table is not among the tables.
    MissingTable,
    /// A foreign key whose source column is not in its table.
    MissingColumn,
}

impl DiagramError {
    pub fn to_string(&self) -> (r: String)
        ensures
            *self == DiagramError::MissingTable ==> r@
                == "Found foreign key info of a table that doesn't exist"@,
            *self == DiagramError::MissingColumn ==> r@
                == "Found foreign key info of a column that doesn't exist"@,
    {
        match self {
            DiagramError::MissingTable => text_of(
                "Found foreign key info of a table that doesn't exist",
            ),
            DiagramError::MissingColumn => text_of(
                "Found foreign key info of a column that doesn't exist",
            ),
        }
    }
}

/// The first table named `name`.
pub open spec fn first_table(tables: Seq<TableInfo>, name: Seq<char>) -> Option<TableInfo>
    decreases tables.len(),
{
    if tables.len() == 0 {
        None
    } else if tables[0].table_name@ == name {
        Some(tables[0])
    } else {
        first_table(tables.drop_first(), name)
    }
}

/// The first column named `name`.
pub open spec fn first_column(cols: Seq<ColumnInfoWithSpecial>, name: Seq<char>) -> Option<
    ColumnInfoWithSpecial,
>
    decreases cols.len(),
{
    if cols.len() == 0 {
        None
    } else if cols[0].name@ == name {
        Some(cols[0])
    } else {
        first_column(cols.drop_first(), name)
    }
}

/// Whether the source column of `fkey` may be null.
pub open spec fn source_nullable(tables: Seq<TableInfo>, fkey: ForeignKeyInfo) -> Result<
    bool,
    DiagramError,
> {
    match first_table(tables, fkey.source_table@) {
        None => Err(DiagramError::MissingTable),
        Some(t) => match first_column(t.columns@, fkey.source_column@) {
            None => Err(DiagramError::MissingColumn),
            Some(c) => Ok(c.is_nullable),
        },
    }
}

/// The relation line of one foreign key:
/// `target |o--o{ source : "column ref. column" `, with `||` for a
/// column that may not be null.
pub open spec fn relation_text(fkey: ForeignKeyInfo, nullable: bool) -> Seq<char> {
    fkey.target_table@ + " "@ + (if nullable {
        "|o"@
    } else {
        "||"@
    }) + "--o{ "@ + fkey.source_table@ + " : \""@ + fkey.source_column@ + " ref. "@
        + fkey.target_column@ + "\" "@
}

/// The relation lines of the foreign keys, in order, or the first error.
pub open spec fn relations_text(tables: Seq<TableInfo>, fkeys: Seq<ForeignKeyInfo>) -> Result<
    Seq<char>,
    DiagramError,
>
    decreases fkeys.len(),
{
    if fkeys.len() == 0 {
        Ok(Seq::empty())
    } else {
        match relations_text(tables, fkeys.drop_last()) {
            Err(e) => Err(e),
            Ok(p) => match source_nullable(tables, fkeys.last()) {
                Err(e) => Err(e),
                Ok(n) => Ok(p + relation_text(fkeys.last(), n)),
            },
        }
    }
}

proof fn lemma_relations_error(tables: Seq<TableInfo>, fkeys: Seq<ForeignKeyInfo>, j: int)
    requires
        0 <= j <= fkeys.len(),
        relations_text(tables, fkeys.subrange(0, j)) is Err,
    ensures
        relations_text(tables, fkeys) == relations_text(tables, fkeys.subrange(0, j)),
    decreases fkeys.len() - j,
{
    if j == fkeys.len() {
        assert(fkeys.subrange(0, j) =~= fkeys);
    } else {
        assert(fkeys.subrange(0, j + 1).drop_last() =~= fkeys.subrange(0, j));
        lemma_relations_error(tables, fkeys, j + 1);
    }
}

/// The diagram of the tables and foreign keys.
pub open spec fn diagram_text(tables: Seq<TableInfo>, fkeys: Seq<ForeignKeyInfo>) -> Result<
    Seq<char>,
    DiagramError,
> {
    match relations_text(tables, fkeys) {
        Err(e) => Err(e),
        Ok(r) => Ok("erDiagram "@ + tables_text(tables) + r),
    }
}

/// An ER diagram in mermaid.js notation.
#[derive(Debug, PartialEq, Eq)]
pub struct MermaidDiagram(pub String);

fn is_fkey_nullable(fkey: &ForeignKeyInfo, tables: &Vec<TableInfo>) -> (r: Result<bool, DiagramError>)
    ensures
        r == source_nullable(tables@, *fkey),
{
    let n = tables.len();
    let mut i: usize = 0;
    assert(tables@.subrange(0, n as int) =~= tables@);
    while i < n
        invariant
            n == tables@.len(),
            i <= n,
            first_table(tables@, fkey.source_table@) == first_table(
                tables@.subrange(i as int, n as int),
                fkey.source_table@,
            ),
        decreases n - i,
    {
        let ghost rest = tables@.subrange(i as int, n as int);
        assert(rest[0] == tables@[i as int]);
        assert(rest.drop_first() =~= tables@.subrange(i + 1, n as int));
        let table = &tables[i];
        if str_eq(table.table_name.as_str(), fkey.source_table.as_str()) {
            let m = table.columns.len();
            let mut j: usize = 0;
            assert(table.columns@.subrange(0, m as int) =~= table.columns@);
            assert(first_table(tables@, fkey.source_table@) == Some(*table));
            while j < m
                invariant
                    first_table(tables@, fkey.source_table@) == Some(*table),
                    m == table.columns@.len(),
                    j <= m,
                    first_column(table.columns@, fkey.source_column@) == first_column(
                        table.columns@.subrange(j as int, m as int),
                        fkey.source_column@,
                    ),
                decreases m - j,
            {
                let ghost crest = table.columns@.subrange(j as int, m as int);
                assert(crest[0] == table.columns@[j as int]);
                assert(crest.drop_first() =~= table.columns@.subrange(j + 1, m as int));
                if str_eq(table.columns[j].name.as_str(), fkey.source_column.as_str()) {
                    return Ok(table.columns[j].is_nullable);
                }
                j += 1;
            }
            return Err(DiagramError::MissingColumn);
        }
        i += 1;
    }
    Err(DiagramError::MissingTable)
}

fn push_relation(out: &mut String, fkey: &ForeignKeyInfo, nullable: bool)
    ensures
        final(out)@ == old(out)@ + relation_text(*fkey, nullable),
{
    push_text(out, fkey.target_table.as_str());
    push_text(out, " ");
    if nullable {
        push_text(out, "|o");
    } else {
        push_text(out, "||");
    }
    push_text(out, "--o{ ");
    push_text(out, fkey.source_table.as_str());
    push_text(out, " : \"");
    push_text(out, fkey.source_column.as_str());
    push_text(out, " ref. ");
    push_text(out, fkey.target_column.as_str());
    push_text(out, "\" ");
    assert(out@ =~= old(out)@ + relation_text(*fkey, nullable));
}

proof fn lemma_tail_append(before: Seq<char>, added: Seq<char>, k: int)
    requires
        0 <= k <= before.len(),
    ensures
        (before + added).subrange(k, (before + added).len() as int) == before.subrange(
            k,
            before.len() as int,
        ) + added,
        (before + added).subrange(0, k) == before.subrange(0, k),
{
    assert((before + added).subrange(k, (before + added).len() as int) =~= before.subrange(
        k,
        before.len() as int,
    ) + added);
    assert((before + added).subrange(0, k) =~= before.subrange(0, k));
}

impl MermaidDiagram {
    /// The diagram: each table with its columns, then a relation for each
    /// foreign key. A foreign key whose source table or column is unknown
    /// is an error.
    pub fn new(tables: &Vec<TableInfo>, fkeys: &Vec<ForeignKeyInfo>) -> (r: Result<Self, DiagramError>)
        ensures
            match r {
                Ok(d) => diagram_text(tables@, fkeys@) == Ok::<Seq<char>, DiagramError>(d.0@),
                Err(e) => diagram_text(tables@, fkeys@) == Err::<Seq<char>, DiagramError>(e),
            },
    {
        let mut result = text_of("erDiagram ");
        let n = tables.len();
        let mut i: usize = 0;
        while i < n
            invariant
                n == tables@.len(),
                i <= n,
                result@ == "erDiagram "@ + tables_text(tables@.subrange(0, i as int)),
            decreases n - i,
        {
            let ghost pre = tables@.subrange(0, i + 1);
            assert(pre.drop_last() =~= tables@.subrange(0, i as int));
            let ghost before = result@;
            let table = &tables[i];
            push_text(&mut result, table.table_name.as_str());
            push_text(&mut result, " { ");
            let ghost head = result@;
            let m = table.columns.len();
            let mut j: usize = 0;
            while j < m
                invariant
                    m == table.columns@.len(),
                    j <= m,
                    result@ == head + columns_text(table.columns@.subrange(0, j as int)),
                decreases m - j,
            {
                let ghost cpre = table.columns@.subrange(0, j + 1);
                assert(cpre.drop_last() =~= table.columns@.subrange(0, j as int));
                let column = &table.columns[j];
                push_text(&mut result, column.data_type.as_str());
                push_text(&mut result, " ");
                push_text(&mut result, column.name.as_str());
                push_text(&mut result, " ");
                j += 1;
                assert(result@ =~= head + columns_text(table.columns@.subrange(0, j as int)));
            }
            push_text(&mut result, "} ");
            assert(table.columns@.subrange(0, m as int) =~= table.columns@);
            i += 1;
            assert(result@ =~= "erDiagram "@ + tables_text(tables@.subrange(0, i as int)));
        }
        assert(tables@.subrange(0, n as int) =~= tables@);
        let ghost tables_part = result@;
        let k = fkeys.len();
        let mut f: usize = 0;
        assert(relations_text(tables@, fkeys@.subrange(0, 0)) == Ok::<Seq<char>, DiagramError>(
            Seq::empty(),
        ));
        assert(result@.subrange(tables_part.len() as int, result@.len() as int) =~= Seq::<
            char,
        >::empty());
        assert(result@.subrange(0, tables_part.len() as int) =~= tables_part);
        while f < k
            invariant
                k == fkeys@.len(),
                f <= k,
                tables_part == "erDiagram "@ + tables_text(tables@),
                relations_text(tables@, fkeys@.subrange(0, f as int)) == Ok::<
                    Seq<char>,
                    DiagramError,
                >(result@.subrange(tables_part.len() as int, result@.len() as int)),
                result@.len() >= tables_part.len(),
                result@.subrange(0, tables_part.len() as int) == tables_part,
            decreases k - f,
        {
            let ghost fpre = fkeys@.subrange(0, f + 1);
            assert(fpre.drop_last() =~= fkeys@.subrange(0, f as int));
            assert(fpre.last() == fkeys@[f as int]);
            let fkey = &fkeys[f];
            let nullable = match is_fkey_nullable(fkey, tables) {
                Ok(b) => b,
                Err(e) => {
                    proof {
                        lemma_relations_error(tables@, fkeys@, f + 1);
                    }
                    return Err(e);
                },
            };
            let ghost before = result@;
            push_relation(&mut result, fkey, nullable);
            proof {
                let rel = relation_text(*fkey, nullable);
                lemma_tail_append(before, rel, tables_part.len() as int);
            }
            f += 1;
        }
        proof {
            assert(fkeys@.subrange(0, k as int) =~= fkeys@);
            assert(result@ =~= tables_part + result@.subrange(
                tables_part.len() as int,
                result@.len() as int,
            ));
        }
        Ok(MermaidDiagram(result))
    }
}

} // verus!
