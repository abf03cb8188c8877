//! The document store's row layout and how rows are picked from the batches
//! that a query streams back.
use crate::rag::vec_views;
use vstd::prelude::*;

verus! {

/// Number of values in every stored embedding vector.
pub const EMBEDDING_DIMENSION: i32 = 4096;

/// The type of a column of the `documents` table.
#[derive(Clone, Copy, PartialEq, Eq, Structural)]
pub enum ColumnType {
    /// UTF-8 text.
    Utf8,
    /// A point in time, in milliseconds, in the UTC time zone.
    TimestampMillisecondsUtc,
    /// A list of exactly `size` 64-bit floats, whose items may be null when
    /// `items_nullable` holds.
    Float64List { size: i32, items_nullable: bool },
}

/// A column of the `documents` table.
pub struct Column {
    pub name: String,
    pub kind: ColumnType,
    pub nullable: bool,
}

/// The columns of the `documents` table, in order: name, type, and whether
/// the column may hold nulls.
pub open spec fn document_schema() -> Seq<(Seq<char>, ColumnType, bool)> {
    seq![
        ("uuid"@, ColumnType::Utf8, false),
        ("created"@, ColumnType::TimestampMillisecondsUtc, false),
        ("filename"@, ColumnType::Utf8, false),
        ("content"@, ColumnType::Utf8, false),
        ("hash"@, ColumnType::Utf8, false),
        ("embedding"@, ColumnType::Float64List { size: EMBEDDING_DIMENSION, items_nullable: true }, false),
    ]
}

/// The views of a sequence of columns.
pub open spec fn columns_view(cs: Seq<Column>) -> Seq<(Seq<char>, ColumnType, bool)> {
    cs.map_values(|c: Column| (c.name@, c.kind, c.nullable))
}

fn column(name: &str, kind: ColumnType, nullable: bool) -> (c: Column)
    ensures
        c.name@ == name@,
        c.kind == kind,
        c.nullable == nullable,
{
    Column { name: name.to_owned(), kind, nullable }
}

/// The columns of the `documents` table.
pub fn document_columns() -> (cs: Vec<Column>)
    ensures
        columns_view(cs@) == document_schema(),
{
    let mut cs: Vec<Column> = Vec::new();
    cs.push(column("uuid", ColumnType::Utf8, false));
    cs.push(column("created", ColumnType::TimestampMillisecondsUtc, false));
    cs.push(column("filename", ColumnType::Utf8, false));
    cs.push(column("content", ColumnType::Utf8, false));
    cs.push(column("hash", ColumnType::Utf8, false));
    cs.push(
        column(
            "embedding",
            ColumnType::Float64List { size: EMBEDDING_DIMENSION, items_nullable: true },
            false,
        ),
    );
    assert(columns_view(cs@) =~= document_schema());
    cs
}

/// Whether an embedding of `len` values fits the `embedding` column.
pub fn embedding_fits(len: usize) -> (b: bool)
    ensures
        b == (len == EMBEDDING_DIMENSION),
{
    len == 4096
}

/// Flattening a sequence that grows by one more sequence appends it.
proof fn lemma_flatten_push<T>(x: Seq<Seq<T>>, b: Seq<T>)
    ensures
        x.push(b).flatten() == x.flatten() + b,
{
    vstd::seq_lib::lemma_flatten_concat(x, seq![b]);
    assert(x.push(b) =~= x + seq![b]);
    assert(seq![b].drop_first() =~= Seq::<Seq<T>>::empty());
    assert(Seq::<Seq<T>>::empty().flatten() =~= Seq::<T>::empty());
    assert(seq![b].flatten() =~= b);
}

/// All rows of the streamed batches, in stream order.
pub fn gather_rows<T>(batches: Vec<Vec<T>>) -> (rows: Vec<T>)
    ensures
        rows@ == vec_views(batches@).flatten(),
{
    broadcast use vstd::std_specs::vec::axiom_spec_into_iter;

    let ghost all = vec_views(batches@);
    let mut rows: Vec<T> = Vec::new();
    assert(all.take(0).flatten() =~= Seq::<T>::empty());
    for batch in it: batches.into_iter()
        invariant
            vec_views(it.seq()) == all,
            rows@ == all.take(it.index()).flatten(),
    {
        let mut batch = batch;
        let ghost b = batch@;
        proof {
            lemma_flatten_push(all.take(it.index()), b);
            assert(all.take(it.index() + 1) =~= all.take(it.index()).push(b));
        }
        rows.append(&mut batch);
    }
    assert(all.take(all.len() as int) =~= all);
    rows
}

/// The first row of a stream of batches, or nothing when it holds no row.
pub open spec fn first_row<T>(batches: Seq<Seq<T>>) -> Seq<T> {
    if batches.flatten().len() > 0 {
        seq![batches.flatten()[0]]
    } else {
        seq![]
    }
}

/// The first row of the streamed batches, if there is one. The store sends
/// the rows of a file newest first, so this is the most recent row.
pub fn latest_row<T>(batches: Vec<Vec<T>>) -> (rows: Vec<T>)
    ensures
        rows@ == first_row(vec_views(batches@)),
{
    broadcast use vstd::std_specs::vec::axiom_spec_into_iter;

    let ghost all = vec_views(batches@);
    assert(all.take(0).flatten() =~= Seq::<T>::empty());
    for batch in it: batches.into_iter()
        invariant
            vec_views(it.seq()) == all,
            all.take(it.index()).flatten() == Seq::<T>::empty(),
    {
        let mut batch = batch;
        let ghost i = it.index();
        let ghost b = batch@;
        proof {
            lemma_flatten_push(all.take(i), b);
            assert(all.take(i + 1) =~= all.take(i).push(b));
        }
        if batch.len() > 0 {
            let row = batch.swap_remove(0);
            let mut rows: Vec<T> = Vec::new();
            rows.push(row);
            proof {
                vstd::seq_lib::lemma_flatten_concat(all.take(i + 1), all.skip(i + 1));
                assert(all.take(i + 1) + all.skip(i + 1) =~= all);
                assert(rows@ =~= first_row(all));
            }
            return rows;
        }
        proof {
            assert(b =~= Seq::<T>::empty());
            assert(all.take(i + 1).flatten() =~= Seq::<T>::empty());
        }
    }
    assert(all.take(all.len() as int) =~= all);
    Vec::new()
}

} // verus!
