use rustydb::field::{DataType, Field};
use rustydb::row::Row;
use rustydb::schema::Table;

fn create_table_definition(num_columns: usize, table_name: &str) -> Table {
    let mut table = Table::new(table_name);
    for i in 0..num_columns {
        let column_name = format!("{}{}", table_name, i);
        table.add_column(
            &rustydb::schema::Column::builder()
                .name(column_name)
                .data_type(DataType::Int)
                .build(),
        );
    }
    table
}

#[test]
pub fn tests_test_comparison() {
    let mut fields = vec![
        Field::from(1),
        Field::from(2),
        Field::from(3),
        Field::from(4),
        Field::from(5),
    ];

    // Tuples with identical fields should be equal.
    let row = Row::from(fields.clone());
    let row_eq = Row::from(fields.clone());
    assert_eq!(row, row_eq);

    // Tuples with some differing fields should not be equal.
    fields[2] = fields[2].clone().checked_add(&Field::from(2)).unwrap();
    fields[4] = fields[4].clone().checked_add(&Field::from(2)).unwrap();
    let row_ne = Row::from(fields);
    assert_ne!(row, row_ne);
}

#[test]
pub fn test_mixed_types() {
    let fields = vec![
        Field::from(1),
        Field::from("hello"),
        Field::Float((3.14f32).to_bits()),
        Field::from("world"),
        Field::from("foo"),
        Field::from(true),
        Field::from(42),
    ];

    let row1 = Row::from(fields.clone());
    assert_eq!(row1.size(), fields.len());
    for (i, field) in fields.iter().enumerate() {
        assert_eq!(row1.get_field(i).unwrap(), *field);
    }

    let fields2 = vec![
        Field::from(1),
        Field::from("wildcat"),
        Field::Float((3.14f32).to_bits()),
        Field::from("welcome"),
        Field::from("bar"),
        Field::from(true),
        Field::from(42),
    ];

    let row2 = Row::from(fields2.clone());
    assert_eq!(row2.size(), fields2.len());
    assert_ne!(row1, row2);
}

#[test]
pub fn test_int_serialization() {
    let schema = create_table_definition(3, "test");

    // Create a tuple and serialize it.
    let fields: Vec<Field> = (1..4).map(Field::from).collect();
    let row = Row::from(fields.clone());

    // Create another row by deserializing the tuple from the initial row.
    let serialized = row.to_tuple(&schema).unwrap();
    let row2 = Row::from_tuple(serialized, &schema).unwrap();

    // The fields of both tuples should match.
    assert_eq!(row2.size(), 3);
    for (i, field) in fields.iter().enumerate() {
        assert_eq!(row2.get_field(i).unwrap(), *field);
    }
}

#[test]
pub fn row_round_trip_mixed_schema() {
    let schema = Table::builder()
        .name("trip")
        .column("flag", DataType::Bool, false, None, None)
        .column("word", DataType::Text, false, None, Some(16))
        .column("count", DataType::Int, false, None, None)
        .column("ratio", DataType::Float, false, None, None)
        .column("tail", DataType::Text, false, None, Some(16))
        .build();
    let row = Row::from(vec![
        Field::from(true),
        Field::from("abc"),
        Field::from(-12345),
        Field::Float((2.5f32).to_bits()),
        Field::from(""),
    ]);
    let tuple = row.to_tuple(&schema).unwrap();
    // layout: two offset entries, then bool and int and float, then text
    assert_eq!(tuple.data.len(), 2 * 2 + 1 + 4 + 4 + 3 + 0);
    let back = Row::from_tuple(tuple, &schema).unwrap();
    assert_eq!(back, row);
}

#[test]
pub fn get_field_past_the_end_errs() {
    let row = Row::from(vec![Field::from(1)]);
    assert!(matches!(
        row.get_field(1),
        Err(rustydb::errors::Error::OutOfBounds)
    ));
    let mut row = row;
    // a replacement must keep the column's type
    assert!(row.update_field(0, Field::from("text")).is_err());
    assert!(row.update_field(0, Field::from(9)).is_ok());
    assert_eq!(row.get_field(0).unwrap(), Field::from(9));
}
