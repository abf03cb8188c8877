use rust_agent::storage::{document_columns, embedding_fits, gather_rows, latest_row, ColumnType, EMBEDDING_DIMENSION};

#[test]
fn the_documents_table_has_six_columns_in_order() {
    let cols = document_columns();
    let names: Vec<&str> = cols.iter().map(|c| c.name.as_str()).collect();
    assert_eq!(names, vec!["uuid", "created", "filename", "content", "hash", "embedding"]);
    assert!(cols.iter().all(|c| !c.nullable));
    assert!(matches!(cols[1].kind, ColumnType::TimestampMillisecondsUtc));
    assert!(matches!(
        cols[5].kind,
        ColumnType::Float64List { size: 4096, items_nullable: true }
    ));
    assert!(matches!(cols[0].kind, ColumnType::Utf8));
}

#[test]
fn only_4096_values_fit_an_embedding() {
    assert_eq!(EMBEDDING_DIMENSION, 4096);
    assert!(embedding_fits(4096));
    assert!(!embedding_fits(4095));
    assert!(!embedding_fits(0));
}

#[test]
fn gather_rows_keeps_stream_order() {
    let rows = gather_rows(vec![vec![1, 2], vec![], vec![3]]);
    assert_eq!(rows, vec![1, 2, 3]);
    assert!(gather_rows::<u8>(Vec::new()).is_empty());
}

#[test]
fn latest_row_is_the_first_streamed_row() {
    assert_eq!(latest_row(vec![vec![], vec![5, 6], vec![7]]), vec![5]);
    assert!(latest_row::<u8>(vec![vec![], vec![]]).is_empty());
}
