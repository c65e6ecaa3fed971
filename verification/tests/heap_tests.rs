use rand::Rng;
use rand_chacha::ChaCha8Rng;
use rand_core::SeedableRng;
use rustydb::buffer::BufferPoolManager;
use rustydb::disk::DiskManager;
use rustydb::field::{DataType, Field};
use rustydb::heap::TableHeap;
use rustydb::record_id::RecordId;
use rustydb::row::Row;
use rustydb::schema::{Column, Table};

fn create_table_definition(num_columns: usize, table_name: &str) -> Table {
    let mut table = Table::new(table_name);
    for i in 0..num_columns {
        let column_name = format!("{}{}", table_name, i);
        table.add_column(
            &Column::builder()
                .name(column_name)
                .data_type(DataType::Int)
                .build(),
        );
    }
    table
}

fn create_random_fields(schema: &Table, seed_in: Option<u64>) -> Vec<Field> {
    let seed = seed_in.unwrap_or_else(|| rand::thread_rng().gen());
    let mut rng = ChaCha8Rng::seed_from_u64(seed);
    let mut fields = Vec::new();
    for i in 0..schema.col_count() {
        match schema.get_column(i).get_data_type() {
            DataType::Bool => fields.push(Field::from(rng.gen_range(0..2) == 1)),
            DataType::Int => fields.push(Field::from(rng.gen_range(0..1000))),
            DataType::Text => {
                let size = schema.get_column(i).get_max_str_len();
                let len = rng.gen_range(0..size);
                let mut s = String::new();
                for _ in 0..len {
                    s.push(rng.gen_range(33..123) as u8 as char);
                }
                fields.push(Field::from(s));
            }
            _ => panic!("Unsupported data type"),
        }
    }
    fields
}

fn create_random_row(schema: &Table, seed: Option<u64>) -> Row {
    Row::from(create_random_fields(schema, seed))
}

fn create_random_heap_file() -> (TableHeap, BufferPoolManager) {
    let mut bpm = BufferPoolManager::new(50, 5, DiskManager::new());
    let mut rng = rand::thread_rng();
    let schema = create_table_definition(rng.gen_range(5..25), "test");
    let heap = TableHeap::new(schema, &mut bpm).unwrap();
    (heap, bpm)
}

fn create_n_rows(n: usize, heap: &mut TableHeap, schema: &Table, bpm: &mut BufferPoolManager) -> Vec<(RecordId, Row)> {
    (0..n)
        .map(|_| create_random_row(schema, None))
        .map(|row| {
            let rid = heap
                .insert_tuple(row.to_tuple(schema).unwrap(), bpm)
                .unwrap();
            (rid, row)
        })
        .collect()
}

fn get_row(heap: &TableHeap, schema: &Table, rid: &RecordId, bpm: &mut BufferPoolManager) -> Result<Row, rustydb::errors::Error> {
    let tuple = heap.get_tuple(rid, bpm)?;
    Row::from_tuple(tuple, schema)
}

#[test]
fn test_heap_file_initialization() {
    let (hf, _bpm) = create_random_heap_file();
    assert_eq!(1, hf.num_pages());
    assert_eq!(hf.first_page_id, hf.last_page_id);
}

#[test]
fn test_create_page() {
    let (mut heap_file, mut bpm) = create_random_heap_file();

    let new_page_id = heap_file.create_new_page(&mut bpm).unwrap();
    assert_ne!(heap_file.first_page_id, new_page_id);
    assert_eq!(heap_file.last_page_id, new_page_id);
    assert_eq!(heap_file.page_cnt, 2);
}

#[test]
fn test_insert_tuple() {
    let (mut heap_file, mut bpm) = create_random_heap_file();
    let table_schema = heap_file.schema();

    let row = create_random_row(&table_schema, None);
    let rid = heap_file
        .insert_tuple(row.to_tuple(&table_schema).unwrap(), &mut bpm)
        .unwrap();

    let frame = bpm.fetch_page(&heap_file.last_page_id).unwrap();
    let page = &bpm.pages[frame];
    assert_eq!(0, page.deleted_tuple_count());
    assert_eq!(1, page.tuple_count());
    let stored = Row::from_tuple(page.get_tuple(&rid).unwrap(), &table_schema).unwrap();
    assert_eq!(row, stored);
}

#[test]
fn test_insert_many_tuples() {
    let (mut heap_file, mut bpm) = create_random_heap_file();
    let table_schema = heap_file.schema();

    let rows = create_n_rows(25 * bpm.size(), &mut heap_file, &table_schema, &mut bpm);
    for (rid, row) in rows.iter() {
        let stored = get_row(&heap_file, &table_schema, rid, &mut bpm).unwrap();
        assert_eq!(*row, stored);
    }
}

#[test]
fn test_get_tuple() {
    let (mut heap_file, mut bpm) = create_random_heap_file();
    let table_schema = heap_file.schema();

    let row = create_random_row(&table_schema, None);
    let rid = heap_file
        .insert_tuple(row.to_tuple(&table_schema).unwrap(), &mut bpm)
        .unwrap();
    assert_eq!(row, get_row(&heap_file, &table_schema, &rid, &mut bpm).unwrap());
}

#[test]
fn test_get_many_tuples() {
    let (mut heap_file, mut bpm) = create_random_heap_file();
    let table_schema = heap_file.schema();

    let rows = create_n_rows(25 * bpm.size(), &mut heap_file, &table_schema, &mut bpm);
    for (rid, row) in rows.iter() {
        assert_eq!(*row, get_row(&heap_file, &table_schema, rid, &mut bpm).unwrap());
    }
}

#[test]
fn test_update_tuple() {
    let (mut heap_file, mut bpm) = create_random_heap_file();
    let table_schema = heap_file.schema();

    let tuple1 = create_random_row(&table_schema, Some(1));
    let rid = heap_file
        .insert_tuple(tuple1.to_tuple(&table_schema).unwrap(), &mut bpm)
        .unwrap();
    assert_eq!(tuple1, get_row(&heap_file, &table_schema, &rid, &mut bpm).unwrap());

    let tuple2 = create_random_row(&table_schema, Some(2));
    assert_ne!(tuple1, tuple2);

    heap_file
        .update_tuple(&rid, tuple2.to_tuple(&table_schema).unwrap(), &mut bpm)
        .unwrap();
    let tuple = get_row(&heap_file, &table_schema, &rid, &mut bpm).unwrap();
    assert_eq!(tuple2, tuple);
    assert_ne!(tuple1, tuple);
}

#[test]
fn test_delete_tuple() {
    let (mut heap_file, mut bpm) = create_random_heap_file();
    let table_schema = heap_file.schema();

    let row = create_random_row(&table_schema, None);
    let rid = heap_file
        .insert_tuple(row.to_tuple(&table_schema).unwrap(), &mut bpm)
        .unwrap();
    assert_eq!(row, get_row(&heap_file, &table_schema, &rid, &mut bpm).unwrap());

    heap_file.delete_tuple(&rid, &mut bpm).unwrap();
    assert!(get_row(&heap_file, &table_schema, &rid, &mut bpm).is_err())
}

#[test]
fn test_iter() {
    let (mut heap_file, mut bpm) = create_random_heap_file();
    let table_schema = heap_file.schema();

    let rows = create_n_rows(25 * bpm.size(), &mut heap_file, &table_schema, &mut bpm);
    let scanned = heap_file.scan(&mut bpm).unwrap();

    // The scan should output the tuples in insertion order...
    assert_eq!(scanned.len(), rows.len());
    for ((_rid, row), (_srid, tuple)) in rows.iter().zip(scanned.iter()) {
        assert_eq!(Row::from_tuple(tuple.clone(), &table_schema).unwrap(), *row);
    }
}

#[test]
fn variable_width_update_moves_the_record() {
    // a text row grown past its slot gets a tombstone and a fresh slot
    let mut bpm = BufferPoolManager::new(10, 2, DiskManager::new());
    let schema = Table::builder()
        .name("notes")
        .column("id", DataType::Int, false, None, None)
        .column("note", DataType::Text, false, None, Some(64))
        .build();
    let mut heap = TableHeap::new(schema.clone(), &mut bpm).unwrap();

    let short = Row::from(vec![Field::from(1), Field::from("abc")]);
    let rid = heap
        .insert_tuple(short.to_tuple(&schema).unwrap(), &mut bpm)
        .unwrap();

    let long = Row::from(vec![Field::from(1), Field::from("abcdefg")]);
    heap.update_tuple(&rid, long.to_tuple(&schema).unwrap(), &mut bpm)
        .unwrap();

    // the old slot is now a tombstone
    assert!(heap.get_tuple(&rid, &mut bpm).is_err());

    // a full scan sees the new tuple exactly once and the old one never
    let scanned = heap.scan(&mut bpm).unwrap();
    assert_eq!(scanned.len(), 1);
    let (new_rid, tuple) = &scanned[0];
    assert_ne!(*new_rid, rid);
    assert_eq!(Row::from_tuple(tuple.clone(), &schema).unwrap(), long);
}
