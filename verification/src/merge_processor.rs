use crate::column_graph::{indexed_views, IndexedColumnNode, IndexedView};
use crate::identifier::{ColumnIdentifier, ColumnName, Identifier, TableIdentifier};
use crate::table_mapper::{name_views, Column};
use crate::text::{join, joined, lemma_text_views_push, text_views};
use vstd::prelude::*;

verus! {

/// Why the staging table could not be merged into the target table.
#[derive(Debug)]
pub enum MergeProcessorError {
    /// The merge key is no column of the graph that is written to the target.
    KeyColumnUnknownTargetColumn(ColumnIdentifier),
    /// The server refused the statement; its message.
    MergeFailed(String),
}

/// The first column from `i` on that stands for the column `key`.
pub open spec fn first_column_for(columns: Seq<IndexedView>, key: ColumnName, i: int) -> Option<int>
    decreases columns.len() - i,
{
    if i >= columns.len() {
        None
    } else if columns[i].column.identifier() == key {
        Some(i)
    } else {
        first_column_for(columns, key, i + 1)
    }
}

/// The first merge key from `k` on that no column stands for.
pub open spec fn first_unknown_key(columns: Seq<IndexedView>, keys: Seq<ColumnName>, k: int) -> Option<
    int,
>
    decreases keys.len() - k,
{
    if k >= keys.len() {
        None
    } else if first_column_for(columns, keys[k], 0) is None {
        Some(k)
    } else {
        first_unknown_key(columns, keys, k + 1)
    }
}

/// The conditions that match rows on the first `upto` merge keys, a key that
/// is named twice taken once.
pub open spec fn on_conditions(columns: Seq<IndexedView>, keys: Seq<ColumnName>, upto: int) -> Seq<
    Seq<char>,
>
    decreases upto,
{
    if upto <= 0 {
        Seq::empty()
    } else {
        let before = on_conditions(columns, keys, upto - 1);
        let key = keys[upto - 1];
        if keys.take(upto - 1).contains(key) {
            before
        } else {
            before.push(
                "T."@ + key.column + " = S."@ + columns[first_column_for(
                    columns,
                    key,
                    0,
                )->0].unique_identifier.column,
            )
        }
    }
}

/// The assignments that update a matched row: every column among the first
/// `upto` that is neither an identity nor a merge key.
pub open spec fn set_assignments(columns: Seq<IndexedView>, keys: Seq<ColumnName>, upto: int) -> Seq<
    Seq<char>,
>
    decreases upto,
{
    if upto <= 0 {
        Seq::empty()
    } else {
        let before = set_assignments(columns, keys, upto - 1);
        let c = columns[upto - 1];
        if c.metadata.flags.identity || keys.contains(c.column.identifier()) {
            before
        } else {
            before.push(
                "T."@ + c.column.identifier().column + " = S."@ + c.unique_identifier.column,
            )
        }
    }
}

/// The columns of the target table that an inserted row fills: every column
/// among the first `upto` that is neither an identity nor transient.
pub open spec fn insert_targets(columns: Seq<IndexedView>, upto: int) -> Seq<Seq<char>>
    decreases upto,
{
    if upto <= 0 {
        Seq::empty()
    } else {
        let before = insert_targets(columns, upto - 1);
        let c = columns[upto - 1];
        if c.metadata.flags.identity || c.column.is_transient() {
            before
        } else {
            before.push(c.column.identifier().column)
        }
    }
}

/// The staging columns that an inserted row takes its values from: the
/// staging counterparts of the columns that it fills, in their order.
pub open spec fn insert_sources(columns: Seq<IndexedView>, upto: int) -> Seq<Seq<char>>
    decreases upto,
{
    if upto <= 0 {
        Seq::empty()
    } else {
        let before = insert_sources(columns, upto - 1);
        let c = columns[upto - 1];
        if c.metadata.flags.identity || c.column.is_transient() {
            before
        } else {
            before.push(c.unique_identifier.column)
        }
    }
}

/// An inserted row takes as many values as it fills columns.
pub proof fn lemma_insert_lists_match(columns: Seq<IndexedView>, upto: int)
    ensures
        insert_sources(columns, upto).len() == insert_targets(columns, upto).len(),
    decreases upto,
{
    if upto > 0 {
        lemma_insert_lists_match(columns, upto - 1);
    }
}

/// The statement that merges the staging table into the target table.
pub open spec fn merge_text(
    target: Seq<char>,
    staging: Seq<char>,
    columns: Seq<IndexedView>,
    keys: Seq<ColumnName>,
) -> Seq<char> {
    "MERGE INTO "@ + target + " AS T\nUSING "@ + staging + " AS S\nON\n    "@ + joined(
        on_conditions(columns, keys, keys.len() as int),
        ",\n    "@,
    ) + "\nWHEN MATCHED THEN\n    UPDATE SET\n        "@ + joined(
        set_assignments(columns, keys, columns.len() as int),
        ",\n        "@,
    ) + "\nWHEN NOT MATCHED BY TARGET THEN\n    INSERT ("@ + joined(
        insert_targets(columns, columns.len() as int),
        ", "@,
    ) + ")\n    VALUES ("@ + joined(insert_sources(columns, columns.len() as int), ", "@)
        + ");\n"@
}

fn find_column(columns: &Vec<IndexedColumnNode<'_>>, key: &ColumnIdentifier) -> (r: Option<usize>)
    ensures
        r matches Some(i) ==> i < columns@.len() && first_column_for(
            indexed_views(columns@),
            key@,
            0,
        ) == Some(i as int),
        r is None ==> first_column_for(indexed_views(columns@), key@, 0) is None,
{
    let ghost views = indexed_views(columns@);
    let mut i: usize = 0;
    while i < columns.len()
        invariant
            i <= columns.len(),
            views == indexed_views(columns@),
            first_column_for(views, key@, 0) == first_column_for(views, key@, i as int),
        decreases columns.len() - i,
    {
        assert(views[i as int] == columns@[i as int]@);
        if *Column::identifier(columns[i].column()) == *key {
            return Some(i);
        }
        i += 1;
    }
    None
}

fn named_before(keys: &Vec<ColumnIdentifier>, upto: usize, key: &ColumnIdentifier) -> (r: bool)
    requires
        upto <= keys@.len(),
    ensures
        r == name_views(keys@).take(upto as int).contains(key@),
{
    let ghost names = name_views(keys@).take(upto as int);
    let mut j: usize = 0;
    while j < upto
        invariant
            j <= upto <= keys@.len(),
            names == name_views(keys@).take(upto as int),
            forall|m: int| 0 <= m < j ==> names[m] != key@,
        decreases upto - j,
    {
        assert(names[j as int] == keys@[j as int]@);
        if keys[j] == *key {
            assert(names.contains(key@));
            return true;
        }
        j += 1;
    }
    false
}

/// The statement that merges the staging table `temporary_table` into
/// `target_table`, matching rows on `key_columns`. `columns` are the nodes of
/// the graph that are written to the target.
pub fn merge_statement(
    target_table: &TableIdentifier,
    temporary_table: &TableIdentifier,
    key_columns: &Vec<ColumnIdentifier>,
    columns: &Vec<IndexedColumnNode<'_>>,
) -> (r: Result<String, MergeProcessorError>)
    ensures
        match first_unknown_key(indexed_views(columns@), name_views(key_columns@), 0) {
            Some(k) => (r matches Err(MergeProcessorError::KeyColumnUnknownTargetColumn(c)) && c@
                == key_columns@[k]@),
            None => (r matches Ok(s) && s@ == merge_text(
                target_table@.full(),
                temporary_table@.full(),
                indexed_views(columns@),
                name_views(key_columns@),
            )),
        },
{
    let ghost views = indexed_views(columns@);
    let ghost keys = name_views(key_columns@);
    let mut on: Vec<String> = Vec::new();
    let mut k: usize = 0;
    assert(text_views(on@) =~= on_conditions(views, keys, 0));
    while k < key_columns.len()
        invariant
            k <= key_columns.len(),
            views == indexed_views(columns@),
            keys == name_views(key_columns@),
            first_unknown_key(views, keys, 0) == first_unknown_key(views, keys, k as int),
            text_views(on@) == on_conditions(views, keys, k as int),
        decreases key_columns.len() - k,
    {
        let key = &key_columns[k];
        assert(keys[k as int] == key@);
        let found = match find_column(columns, key) {
            Some(i) => i,
            None => {
                return Err(MergeProcessorError::KeyColumnUnknownTargetColumn(key.clone()));
            },
        };
        if !named_before(key_columns, k, key) {
            assert(views[found as int] == columns@[found as int]@);
            let mut condition = "T.".to_owned();
            condition.append(key.part());
            condition.append(" = S.");
            condition.append(columns[found].unique_identifier().part());
            proof {
                lemma_text_views_push(on@, condition);
                assert(first_column_for(views, key@, 0) == Some(found as int));
                assert(condition@ == "T."@ + key@.column + " = S."@
                    + views[found as int].unique_identifier.column);
                assert(!keys.take(k as int).contains(keys[k as int]));
            }
            on.push(condition);
        }
        k += 1;
    }
    let mut set: Vec<String> = Vec::new();
    let mut targets: Vec<String> = Vec::new();
    let mut sources: Vec<String> = Vec::new();
    let mut i: usize = 0;
    assert(text_views(set@) =~= set_assignments(views, keys, 0));
    assert(text_views(targets@) =~= insert_targets(views, 0));
    assert(text_views(sources@) =~= insert_sources(views, 0));
    while i < columns.len()
        invariant
            i <= columns.len(),
            views == indexed_views(columns@),
            keys == name_views(key_columns@),
            text_views(set@) == set_assignments(views, keys, i as int),
            text_views(targets@) == insert_targets(views, i as int),
            text_views(sources@) == insert_sources(views, i as int),
        decreases columns.len() - i,
    {
        let column = &columns[i];
        assert(views[i as int] == column@);
        let identity = column.metadata().flags.identity;
        let identifier = Column::identifier(column.column());
        proof {
            assert(keys.take(keys.len() as int) == keys);
        }
        if !identity && !named_before(key_columns, key_columns.len(), identifier) {
            let mut assignment = "T.".to_owned();
            assignment.append(identifier.part());
            assignment.append(" = S.");
            assignment.append(column.unique_identifier().part());
            proof {
                lemma_text_views_push(set@, assignment);
            }
            set.push(assignment);
        }
        if !identity && !column.column().is_transient() {
            let name = identifier.part().to_owned();
            proof {
                lemma_text_views_push(targets@, name);
            }
            targets.push(name);
            let name = column.unique_identifier().part().to_owned();
            proof {
                lemma_text_views_push(sources@, name);
            }
            sources.push(name);
        }
        i += 1;
    }
    let mut statement = "MERGE INTO ".to_owned();
    statement.append(target_table.full());
    statement.append(" AS T\nUSING ");
    statement.append(temporary_table.full());
    statement.append(" AS S\nON\n    ");
    statement.append(join(&on, ",\n    ").as_str());
    statement.append("\nWHEN MATCHED THEN\n    UPDATE SET\n        ");
    statement.append(join(&set, ",\n        ").as_str());
    statement.append("\nWHEN NOT MATCHED BY TARGET THEN\n    INSERT (");
    statement.append(join(&targets, ", ").as_str());
    statement.append(")\n    VALUES (");
    statement.append(join(&sources, ", ").as_str());
    statement.append(");\n");
    Ok(statement)
}

} // verus!
