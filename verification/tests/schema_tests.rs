use rand::Rng;
use rustydb::field::DataType;
use rustydb::schema::{Column, Table};

fn create_table_definition(num_columns: usize, table_name: &str) -> Table {
    let mut table = Table::new(table_name);
    for i in 0..num_columns {
        let column_name = format!("{}{}", table_name, i);
        table.add_column(
            &Column::builder()
                .name(column_name)
                .data_type(DataType::Int)
                .build(),
        );
    }
    table
}

fn create_table_definition_by_data_type(count: usize, data_type: DataType) -> Table {
    let mut table = Table::new("test_table");
    for i in 0..count {
        let column_name = format!("column{}", i);
        table.add_column(
            &Column::builder()
                .name(column_name)
                .data_type(data_type)
                .build(),
        );
    }
    table
}

fn table_from_types(types: Vec<DataType>) -> Table {
    let mut table = Table::new("");
    for dt in types {
        table.add_column(&Column::from(dt));
    }
    table
}

#[test]
pub fn test_column_declaration() {
    let mut test1 = Column::builder()
        .name("column1".to_string())
        .data_type(DataType::Int)
        .build();
    let mut test2 = Column::builder()
        .name("column2".to_string())
        .data_type(DataType::Text)
        .max_str_len(7)
        .build();

    assert_eq!(test1.to_string(), "column1:int");
    assert_eq!(test2.to_string(), "column2:varchar(7)");

    // test updating the fields
    test1.set_data_type(DataType::Bool);
    test2.set_name("c2");

    assert_eq!(test1.to_string(), "column1:bool");
    assert_eq!(test2.to_string(), "c2:varchar(7)");
}

#[test]
pub fn test_get_type() {
    let td = create_table_definition(1, "d1").clone();
    assert_eq!(td.get_field_type(0), DataType::Int);
}

#[test]
pub fn test_column_size() {
    let schema = Table::builder()
        .name("test_table")
        .column("column1", DataType::Int, false, None, None)
        .column("column2", DataType::Text, false, None, Some(10))
        .column("column3", DataType::Float, false, None, None)
        .column("column4", DataType::Bool, false, None, None)
        .build();

    assert_eq!(schema.get_column(0).length_bytes(), 4);
    assert_eq!(schema.get_column(1).length_bytes(), 10);
    assert_eq!(schema.get_column(2).length_bytes(), 4);
    assert_eq!(schema.get_column(3).length_bytes(), 1);
    assert_eq!(schema.size(), 19);
}

#[test]
pub fn test_table_iterator() {
    let schema = Table::builder()
        .name("test_table")
        .column("column1", DataType::Int, false, None, None)
        .column("column2", DataType::Text, false, None, Some(10))
        .column("column3", DataType::Float, false, None, None)
        .build();

    let mut count = 0;
    for _col in schema.columns().iter() {
        count += 1;
    }
    assert_eq!(count, 3);
}

fn check_combined_field_names(d1: &Table, d2: &Table, merged: &Table) -> bool {
    if (d1.col_count() + d2.col_count()) != merged.col_count() {
        return false;
    }
    for i in 0..d1.col_count() {
        if d1.get_column_name(i) != merged.get_column_name(i) {
            return false;
        }
    }
    for i in 0..d2.col_count() {
        if d2.get_column_name(i) != merged.get_column_name(i + d1.col_count()) {
            return false;
        }
    }
    true
}

#[test]
pub fn test_name_to_idx() {
    let lens: [usize; 3] = [1, 2, 1000];
    let prefix: String = "test".to_string();
    let foo: String = "foo".to_string();

    for len in lens.iter() {
        let td = create_table_definition(*len, &prefix);
        for i in 0..*len {
            let name = format!("{}{}", prefix, i);
            let idx = td.field_name_to_index(Some(&name)).unwrap();
            assert_eq!(idx, i);
        }

        assert_eq!(td.field_name_to_index(Some(&foo)), None);

        if td.field_name_to_index(None) != None {
            panic!("None is not a valid field name!");
        }

        let td = create_table_definition_by_data_type(*len, DataType::Int);
        assert_eq!(td.field_name_to_index(Some(&prefix)), None);
    }

    let td = create_table_definition(3, "test");
    assert_eq!(td.to_string(), "test(test0:int, test1:int, test2:int)");
}

#[test]
pub fn test_combine_schemas() {
    let td1 = create_table_definition(1, "d1");
    let td2 = create_table_definition(2, "d2");
    let td3 = Table::merge(&td1, &td2);

    assert_eq!(td3.col_count(), 3);
    let i_type = DataType::Int;

    assert_eq!(td3.size(), 3 * i_type.length_bytes());

    for i in 0..3 {
        assert_eq!(td3.get_field_type(i), DataType::Int);
    }

    assert!(check_combined_field_names(&td1, &td2, &td3));

    // check td2 + td1
    let td3 = Table::merge(&td2, &td1);
    assert_eq!(td3.col_count(), 3);
    assert_eq!(td3.size(), 3 * DataType::Int.length_bytes());
    for i in 0..3 {
        assert_eq!(td3.get_field_type(i), DataType::Int);
    }

    assert!(check_combined_field_names(&td2, &td1, &td3));

    // test td2 + td2
    let td3 = Table::merge(&td2, &td2);
    assert_eq!(td3.col_count(), 4);
    assert_eq!(td3.size(), 4 * DataType::Int.length_bytes());
    for i in 0..4 {
        assert_eq!(td3.get_field_type(i), DataType::Int);
    }
    assert!(check_combined_field_names(&td2, &td2, &td3));
}

#[test]
pub fn test_empty_schema() {
    let td = Table::new("empty");
    assert_eq!(td.col_count(), 0);
    assert_eq!(td.size(), 0);
    assert_eq!(td.to_string(), "empty()");
}

#[test]
pub fn schema_test_equals() {
    let single_int1 = create_table_definition_by_data_type(1, DataType::Int);
    let single_int2 = create_table_definition_by_data_type(1, DataType::Int);

    let type_vec = vec![DataType::Int, DataType::Text];
    let int_string1 = table_from_types(type_vec.clone());
    let int_string2 = table_from_types(type_vec.clone());

    assert_eq!(*single_int1.columns(), *single_int2.columns());
    assert_eq!(*int_string1.columns(), *int_string2.columns());

    assert_ne!(
        *single_int1.columns(),
        *table_from_types(vec![DataType::Bool]).columns()
    );
    assert_ne!(*single_int1.columns(), *int_string1.columns());
    assert_ne!(*single_int1.columns(), *int_string2.columns());
    assert_ne!(*single_int2.columns(), *int_string2.columns());
}

#[test]
pub fn test_storage_offset() {
    let schema = Table::builder()
        .name("test_table")
        .column("column1", DataType::Int, false, None, None)
        .column("column2", DataType::Text, false, None, Some(30))
        .column("column3", DataType::Float, false, None, None)
        .column("column4", DataType::Text, false, None, Some(20))
        .column("column5", DataType::Text, false, None, Some(10))
        .column("column6", DataType::Bool, false, None, None)
        .column("column7", DataType::Int, false, None, None)
        .build();

    assert_eq!(schema.get_column(0).stored_offset, 0);
    assert_eq!(schema.get_column(1).stored_offset, 0);
    assert_eq!(schema.get_column(2).stored_offset, 4);
    assert_eq!(schema.get_column(3).stored_offset, 1);
    assert_eq!(schema.get_column(4).stored_offset, 2);
    assert_eq!(schema.get_column(5).stored_offset, 8);
    assert_eq!(schema.get_column(6).stored_offset, 9);
}

#[test]
pub fn test_field_count() {
    let schema = Table::builder()
        .name("test_table")
        .column("column1", DataType::Int, false, None, None)
        .column("column2", DataType::Text, false, None, None)
        .column("column3", DataType::Float, false, None, None)
        .build();

    assert_eq!(schema.col_count(), 3);

    let schema = create_table_definition(5, "five");
    assert_eq!(schema.col_count(), 5);
    let mut rng = rand::thread_rng();

    for _i in 0..5 {
        let r: usize = rng.gen_range(0..1000);
        let td = create_table_definition(r, "rand");
        assert_eq!(td.col_count(), r);
    }
}
