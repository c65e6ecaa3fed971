use rustydb::aggregate::{aggregate, Accumulator};
use rustydb::buffer::BufferPoolManager;
use rustydb::disk::DiskManager;
use rustydb::execute::{execute, execute_plan};
use rustydb::expression::Expression;
use rustydb::field::{DataType, Field};
use rustydb::join::{hash, nested_loop};
use rustydb::plan::{Aggregate, BoxedNode, Direction, ExecutionResult, Node, Plan};
use rustydb::record_id::RecordId;
use rustydb::row::Row;
use rustydb::schema::Table;
use rustydb::simple::Transaction;
use rustydb::tables::HeapTableManager;
use rustydb::transform::{filter, limit, offset, order, project, remap};

fn fresh_txn() -> Transaction {
    let bpm = BufferPoolManager::new(32, 2, DiskManager::new());
    let engine = HeapTableManager::new(bpm);
    Transaction::begin(engine).unwrap()
}

fn int_text_schema(name: &str) -> Table {
    Table::builder()
        .name(name)
        .column("id", DataType::Int, false, None, None)
        .column("label", DataType::Text, false, None, Some(32))
        .build()
}

fn rows_of(values: Vec<Vec<Field>>) -> Vec<(RecordId, Row)> {
    values
        .into_iter()
        .map(|fields| (RecordId::invalid(), Row::from(fields)))
        .collect()
}

#[test]
fn aggregate_with_no_rows_yields_zero_count_and_null_sum() {
    // a count and a sum over an empty, ungrouped input: one row, zero and null
    let out = aggregate(
        Vec::new(),
        Vec::new(),
        vec![
            Aggregate::Count(Expression::Column(0)),
            Aggregate::Sum(Expression::Column(0)),
        ],
    )
    .unwrap();
    assert_eq!(out.len(), 1);
    assert_eq!(out[0].1.get_field(0).unwrap(), Field::Integer(0));
    assert_eq!(out[0].1.get_field(1).unwrap(), Field::Null);
}

#[test]
fn count_over_a_scan_matches_the_live_tuples() {
    // insert four rows, tombstone one, and count the survivors end to end
    let mut txn = fresh_txn();
    let schema = int_text_schema("t");
    txn.create_table(schema.clone()).unwrap();
    let mut rids = Vec::new();
    for i in 0..4 {
        let row = Row::from(vec![Field::Integer(i), Field::from("x")]);
        let rid = txn
            .insert("t", row.to_tuple(&schema).unwrap())
            .unwrap();
        rids.push(rid);
    }
    txn.delete(rustydb::tables::Key::new("t", &rids[1])).unwrap();

    let plan = Plan::Select(BoxedNode::from(Node::Aggregate {
        source: BoxedNode::from(Node::Scan { table: schema, filter: None, alias: None }),
        group_by: Vec::new(),
        aggregates: vec![Aggregate::Count(Expression::Constant(Field::Integer(1)))],
    }));
    match execute_plan(plan, &mut txn).unwrap() {
        ExecutionResult::Select { rows, .. } => {
            assert_eq!(rows.len(), 1);
            assert_eq!(rows[0].1.get_field(0).unwrap(), Field::Integer(3));
        }
        _ => panic!("expected a select result"),
    }
}

#[test]
fn sum_of_two_columns_equals_sum_of_their_pointwise_sum() {
    // over null-free integer columns: Sum(x) + Sum(y) == Sum(x + y)
    let source = rows_of(vec![
        vec![Field::Integer(1), Field::Integer(10)],
        vec![Field::Integer(2), Field::Integer(20)],
        vec![Field::Integer(3), Field::Integer(30)],
    ]);
    let sums = aggregate(
        source.clone(),
        Vec::new(),
        vec![
            Aggregate::Sum(Expression::Column(0)),
            Aggregate::Sum(Expression::Column(1)),
            Aggregate::Sum(Expression::Add(
                Box::new(Expression::Column(0)),
                Box::new(Expression::Column(1)),
            )),
        ],
    )
    .unwrap();
    let sx = sums[0].1.get_field(0).unwrap();
    let sy = sums[0].1.get_field(1).unwrap();
    let sxy = sums[0].1.get_field(2).unwrap();
    assert_eq!(sx.checked_add(&sy).unwrap(), sxy);
    assert_eq!(sxy, Field::Integer(66));
}

#[test]
fn grouped_aggregates_bucket_by_key() {
    let source = rows_of(vec![
        vec![Field::from("a"), Field::Integer(2)],
        vec![Field::from("b"), Field::Integer(10)],
        vec![Field::from("a"), Field::Integer(4)],
    ]);
    let out = aggregate(
        source,
        vec![Expression::Column(0)],
        vec![
            Aggregate::Sum(Expression::Column(1)),
            Aggregate::Min(Expression::Column(1)),
            Aggregate::Max(Expression::Column(1)),
            Aggregate::Average(Expression::Column(1)),
        ],
    )
    .unwrap();
    assert_eq!(out.len(), 2);
    // buckets appear in first-seen order
    assert_eq!(out[0].1.get_field(0).unwrap(), Field::from("a"));
    assert_eq!(out[0].1.get_field(1).unwrap(), Field::Integer(6));
    assert_eq!(out[0].1.get_field(2).unwrap(), Field::Integer(2));
    assert_eq!(out[0].1.get_field(3).unwrap(), Field::Integer(4));
    assert_eq!(out[0].1.get_field(4).unwrap(), Field::Integer(3));
    assert_eq!(out[1].1.get_field(0).unwrap(), Field::from("b"));
    assert_eq!(out[1].1.get_field(1).unwrap(), Field::Integer(10));
    assert_eq!(out[1].1.get_field(4).unwrap(), Field::Integer(10));
}

#[test]
fn average_of_no_values_is_null() {
    let acc = Accumulator::new(&Aggregate::Average(Expression::Column(0)));
    assert_eq!(acc.value().unwrap(), Field::Null);
}

#[test]
fn nested_loop_outer_join_pads_unmatched_left_rows() {
    // Left = {(1,'a'), (2,'b')}, Right = {(2,'x')}, predicate left.0 = right.0
    let left = rows_of(vec![
        vec![Field::Integer(1), Field::from("a")],
        vec![Field::Integer(2), Field::from("b")],
    ]);
    let right = rows_of(vec![vec![Field::Integer(2), Field::from("x")]]);
    let predicate = Expression::Equal(
        Box::new(Expression::Column(0)),
        Box::new(Expression::Column(2)),
    );
    let out = nested_loop(left, right, 2, Some(predicate), true).unwrap();
    assert_eq!(out.len(), 2);
    let first = &out[0].1;
    assert_eq!(first.get_field(0).unwrap(), Field::Integer(1));
    assert_eq!(first.get_field(1).unwrap(), Field::from("a"));
    assert_eq!(first.get_field(2).unwrap(), Field::Null);
    assert_eq!(first.get_field(3).unwrap(), Field::Null);
    let second = &out[1].1;
    assert_eq!(second.get_field(0).unwrap(), Field::Integer(2));
    assert_eq!(second.get_field(1).unwrap(), Field::from("b"));
    assert_eq!(second.get_field(2).unwrap(), Field::Integer(2));
    assert_eq!(second.get_field(3).unwrap(), Field::from("x"));
}

#[test]
fn hash_join_drops_null_and_nan_keys() {
    // a right row keyed by null never enters the table; a left row with a
    // null key matches nothing and is padded only when the join is outer
    let left = rows_of(vec![
        vec![Field::Null, Field::from("l0")],
        vec![Field::Integer(7), Field::from("l1")],
    ]);
    let right = rows_of(vec![
        vec![Field::Null, Field::from("dropped")],
        vec![Field::Integer(7), Field::from("kept")],
        vec![Field::Float(f32::NAN.to_bits()), Field::from("dropped too")],
    ]);

    // inner: only the 7 = 7 pair comes out
    let inner = hash(left.clone(), 0, right.clone(), 0, 2, false).unwrap();
    assert_eq!(inner.len(), 1);
    assert_eq!(inner[0].1.get_field(1).unwrap(), Field::from("l1"));
    assert_eq!(inner[0].1.get_field(3).unwrap(), Field::from("kept"));

    // outer: the null-keyed left row is padded with nulls
    let outer = hash(left, 0, right, 0, 2, true).unwrap();
    assert_eq!(outer.len(), 2);
    assert_eq!(outer[0].1.get_field(1).unwrap(), Field::from("l0"));
    assert_eq!(outer[0].1.get_field(2).unwrap(), Field::Null);
    assert_eq!(outer[0].1.get_field(3).unwrap(), Field::Null);
}

#[test]
fn transforms_filter_project_limit_offset_order() {
    let source = rows_of(vec![
        vec![Field::Integer(3)],
        vec![Field::Integer(1)],
        vec![Field::Integer(4)],
        vec![Field::Integer(2)],
    ]);

    // filter keeps the rows whose predicate holds; null drops the row
    let kept = filter(
        source.clone(),
        Expression::GreaterThan(
            Box::new(Expression::Column(0)),
            Box::new(Expression::Constant(Field::Integer(2))),
        ),
    )
    .unwrap();
    assert_eq!(kept.len(), 2);
    assert_eq!(kept[0].1.get_field(0).unwrap(), Field::Integer(3));
    assert_eq!(kept[1].1.get_field(0).unwrap(), Field::Integer(4));

    // a non-boolean predicate is an error
    assert!(filter(source.clone(), Expression::Constant(Field::Integer(1))).is_err());

    // project evaluates one expression per output column
    let doubled = project(
        source.clone(),
        vec![Expression::Add(
            Box::new(Expression::Column(0)),
            Box::new(Expression::Column(0)),
        )],
    )
    .unwrap();
    assert_eq!(doubled[0].1.get_field(0).unwrap(), Field::Integer(6));

    // limit and offset slice the rows
    assert_eq!(limit(source.clone(), 2).len(), 2);
    assert_eq!(offset(source.clone(), 3).len(), 1);
    assert_eq!(limit(source.clone(), 9).len(), 4);
    assert_eq!(offset(source.clone(), 9).len(), 0);

    // order sorts by the key, here ascending then descending
    let asc = order(
        source.clone(),
        vec![(Expression::Column(0), Direction::Ascending)],
    )
    .unwrap();
    let asc_vals: Vec<Field> = asc.iter().map(|r| r.1.get_field(0).unwrap()).collect();
    assert_eq!(
        asc_vals,
        vec![Field::Integer(1), Field::Integer(2), Field::Integer(3), Field::Integer(4)]
    );
    let desc = order(source, vec![(Expression::Column(0), Direction::Descending)]).unwrap();
    let desc_vals: Vec<Field> = desc.iter().map(|r| r.1.get_field(0).unwrap()).collect();
    assert_eq!(
        desc_vals,
        vec![Field::Integer(4), Field::Integer(3), Field::Integer(2), Field::Integer(1)]
    );

    // remap moves columns to their targets and fills the rest with nulls
    let moved = remap(
        rows_of(vec![vec![Field::Integer(1), Field::Integer(2)]]),
        vec![Some(1), None],
    );
    assert_eq!(moved[0].1.get_field(0).unwrap(), Field::Null);
    assert_eq!(moved[0].1.get_field(1).unwrap(), Field::Integer(1));
}

#[test]
fn statements_insert_select_update_delete() {
    let mut txn = fresh_txn();
    let schema = int_text_schema("people");
    txn.create_table(schema.clone()).unwrap();

    // insert two rows through a plan
    let insert_plan = Plan::Insert {
        table: schema.clone(),
        source: BoxedNode::from(Node::Values {
            rows: vec![
                vec![
                    Expression::Constant(Field::Integer(1)),
                    Expression::Constant(Field::from("ada")),
                ],
                vec![
                    Expression::Constant(Field::Integer(2)),
                    Expression::Constant(Field::from("bob")),
                ],
            ],
        }),
    };
    match execute_plan(insert_plan, &mut txn).unwrap() {
        ExecutionResult::Insert { count, record_ids } => {
            assert_eq!(count, 2);
            assert_eq!(record_ids.len(), 2);
        }
        _ => panic!("expected an insert result"),
    }

    // select them back, filtered
    let select_plan = Plan::Select(BoxedNode::from(Node::Filter {
        source: BoxedNode::from(Node::Scan {
            table: schema.clone(),
            filter: None,
            alias: None,
        }),
        predicate: Expression::Equal(
            Box::new(Expression::Column(0)),
            Box::new(Expression::Constant(Field::Integer(2))),
        ),
    }));
    match execute_plan(select_plan, &mut txn).unwrap() {
        ExecutionResult::Select { rows, columns } => {
            assert_eq!(rows.len(), 1);
            assert_eq!(rows[0].1.get_field(1).unwrap(), Field::from("bob"));
            assert_eq!(columns.len(), 2);
            assert_eq!(columns[0].as_header(), "id");
        }
        _ => panic!("expected a select result"),
    }

    // update one row's label, evaluated against the row before the update
    let update_plan = Plan::Update {
        table: schema.clone(),
        source: BoxedNode::from(Node::Filter {
            source: BoxedNode::from(Node::Scan {
                table: schema.clone(),
                filter: None,
                alias: None,
            }),
            predicate: Expression::Equal(
                Box::new(Expression::Column(0)),
                Box::new(Expression::Constant(Field::Integer(1))),
            ),
        }),
        expressions: vec![(1, Expression::Constant(Field::from("ann")))],
    };
    match execute_plan(update_plan, &mut txn).unwrap() {
        ExecutionResult::Update { count } => assert_eq!(count, 1),
        _ => panic!("expected an update result"),
    }

    // delete the other row
    let delete_plan = Plan::Delete {
        table: "people".to_string(),
        source: BoxedNode::from(Node::Filter {
            source: BoxedNode::from(Node::Scan {
                table: schema.clone(),
                filter: None,
                alias: None,
            }),
            predicate: Expression::Equal(
                Box::new(Expression::Column(0)),
                Box::new(Expression::Constant(Field::Integer(2))),
            ),
        }),
    };
    match execute_plan(delete_plan, &mut txn).unwrap() {
        ExecutionResult::Delete { count } => assert_eq!(count, 1),
        _ => panic!("expected a delete result"),
    }

    // one row remains, renamed
    let rows = match execute(
        BoxedNode::from(Node::Scan { table: schema, filter: None, alias: None }),
        &mut txn,
    ) {
        Ok(rows) => rows,
        Err(e) => panic!("scan failed: {:?}", e),
    };
    assert_eq!(rows.len(), 1);
    assert_eq!(rows[0].1.get_field(1).unwrap(), Field::from("ann"));
}

#[test]
fn scan_iterator_clone_rewinds() {
    let mut txn = fresh_txn();
    let schema = int_text_schema("s");
    txn.create_table(schema.clone()).unwrap();
    for i in 0..3 {
        let row = Row::from(vec![Field::Integer(i), Field::from("v")]);
        txn.insert("s", row.to_tuple(&schema).unwrap()).unwrap();
    }
    let mut it = txn.scan("s").unwrap();
    let rewind = it.clone();
    let mut count = 0;
    while it.next().is_some() {
        count += 1;
    }
    assert_eq!(count, 3);
    let mut it2 = rewind;
    let mut count2 = 0;
    while it2.next().is_some() {
        count2 += 1;
    }
    assert_eq!(count2, 3);
}

#[test]
fn drop_table_reports_existence() {
    let mut txn = fresh_txn();
    let schema = int_text_schema("gone");
    txn.create_table(schema.clone()).unwrap();
    assert!(txn.create_table(schema).is_err());
    assert_eq!(txn.drop_table("gone", false).unwrap(), true);
    assert!(txn.drop_table("gone", false).is_err());
    assert_eq!(txn.drop_table("gone", true).unwrap(), false);
}
