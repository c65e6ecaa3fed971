use vstd::prelude::*;

use crate::errors::Error;
use crate::expression::Expression;
use crate::field::Label;
use crate::plan::{BoxedNode, ExecutionResult, Node, Plan};
use crate::record_id::RecordId;
use crate::row::Row;
use crate::schema::Table;
use crate::simple::Transaction;
use crate::tables::Key;
use crate::transform::Rows;

verus! {

/// An empty row source, for nodes that can emit nothing.
pub fn nothing() -> (r: Rows)
    ensures
        r@.len() == 0,
{
    Vec::new()
}

/// Whether every constant-row cell evaluates without a row at hand.
pub open spec fn spec_values_ok(tuples: Seq<Vec<Expression>>) -> bool {
    forall|i: int, j: int|
        0 <= i < tuples.len() && 0 <= j < tuples[i].len() ==> crate::expression::spec_eval(
            #[trigger] tuples[i]@[j],
            Option::None,
        ) is Value
}

/// Emits one constant row per expression list, evaluated without a row.
/// Each emitted record id is the invalid sentinel, since the rows live in
/// no table.
pub fn values(tuples: Vec<Vec<Expression>>) -> (r: Result<Rows, Error>)
    ensures
        r is Ok <==> spec_values_ok(tuples@),
        r matches Ok(v) ==> {
            &&& v@.len() == tuples@.len()
            &&& (forall|i: int|
                0 <= i < v@.len() ==> (#[trigger] v@[i]).0 == (RecordId {
                    page_id: crate::INVALID_PID,
                    slot_id: 0,
                }))
            &&& (forall|i: int|
                0 <= i < v@.len() ==> (#[trigger] v@[i]).1@.len() == tuples@[i].len())
            &&& (forall|i: int, j: int|
                0 <= i < v@.len() && 0 <= j < tuples@[i].len() ==> (#[trigger] v@[i].1@[j])
                    == crate::transform::spec_projected_none(tuples@[i][j]))
        },
{
    let mut out: Rows = Vec::new();
    let n = tuples.len();
    let mut i: usize = 0;
    while i < n
        invariant
            n == tuples@.len(),
            i <= n,
            out@.len() == i,
            forall|x: int|
                0 <= x < i ==> (#[trigger] out@[x]).0 == (RecordId {
                    page_id: crate::INVALID_PID,
                    slot_id: 0,
                }),
            forall|x: int| 0 <= x < i ==> (#[trigger] out@[x]).1@.len() == tuples@[x].len(),
            forall|x: int, j: int|
                0 <= x < i && 0 <= j < tuples@[x].len() ==> (#[trigger] out@[x].1@[j])
                    == crate::transform::spec_projected_none(tuples@[x][j]),
            forall|x: int, j: int|
                0 <= x < i && 0 <= j < tuples@[x].len() ==> crate::expression::spec_eval(
                    #[trigger] tuples@[x]@[j],
                    Option::None,
                ) is Value,
        decreases n - i,
    {
        let en = tuples[i].len();
        let mut fields: Vec<crate::field::Field> = Vec::new();
        let mut j: usize = 0;
        while j < en
            invariant
                n == tuples@.len(),
                i < n,
                en == tuples@[i as int].len(),
                j <= en,
                fields@.len() == j,
                forall|y: int|
                    0 <= y < j ==> (#[trigger] fields@[y])@ == crate::transform::spec_projected_none(
                        tuples@[i as int][y],
                    ),
                forall|y: int|
                    0 <= y < j ==> crate::expression::spec_eval(
                        #[trigger] tuples@[i as int]@[y],
                        Option::None,
                    ) is Value,
            decreases en - j,
        {
            let value = match tuples[i][j].evaluate(Option::None) {
                Ok(v) => v,
                Err(e) => {
                    proof {
                        assert(!spec_values_ok(tuples@)) by {
                            assert(crate::expression::spec_eval(
                                tuples@[i as int]@[j as int],
                                Option::None,
                            ) is Failure);
                        }
                    }
                    return Err(e);
                },
            };
            fields.push(value);
            j = j + 1;
        }
        out.push((RecordId::invalid(), Row::new(fields)));
        i = i + 1;
    }
    Ok(out)
}

/// A sequential scan of a table: every live tuple read back as a row, with
/// an optional pushed-down predicate applied.
pub fn scan(txn: &mut Transaction, table: &Table, filter: Option<Expression>) -> (r: Result<
    Rows,
    Error,
>)
    requires
        old(txn).engine.wf(),
        table.wf(),
    ensures
        final(txn).engine.wf(),
        r matches Ok(v) ==> (forall|x: int|
            0 <= x < v@.len() ==> (#[trigger] v@[x]).1@.len() == table.columns@.len()),
{
    let tuples = match txn.engine.scan(table.name()) {
        Ok(t) => t,
        Err(e) => {
            return Err(e);
        },
    };
    let mut rows: Rows = Vec::new();
    let mut rest = tuples;
    while rest.len() > 0
        invariant
            txn.engine.wf(),
            table.wf(),
            forall|x: int|
                0 <= x < rows@.len() ==> (#[trigger] rows@[x]).1@.len() == table.columns@.len(),
        decreases rest@.len(),
    {
        let (rid, tuple) = rest.remove(0);
        if !Row::parses(&tuple.data, table) {
            return Err(Error::InvalidData("a stored tuple does not match the schema".to_string()));
        }
        let row = Row::deserialize(tuple.data, table);
        rows.push((rid, row));
    }
    match filter {
        Some(predicate) => {
            let r = crate::transform::filter(rows, predicate);
            proof {
                if r is Ok {
                    crate::transform::lemma_filter_widths(
                        rows@,
                        predicate,
                        table.columns@.len() as int,
                    );
                    let v = r->Ok_0;
                    assert forall|x: int| 0 <= x < v@.len() implies (#[trigger] v@[x]).1@.len()
                        == table.columns@.len() by {
                        assert(crate::transform::spec_filter(rows@, predicate)->0[x] == v@[x]);
                    }
                }
            }
            r
        },
        Option::None => Ok(rows),
    }
}

/// Deletes every source row from the table, by record id; reports how many
/// went away.
pub fn delete(txn: &mut Transaction, table: String, source: Rows) -> (r: Result<u64, Error>)
    requires
        old(txn).engine.wf(),
    ensures
        final(txn).engine.wf(),
        r matches Ok(count) ==> count == source@.len(),
        r is Ok ==> (forall|x: int|
            0 <= x < source@.len() ==> crate::buffer::spec_slot_deleted(
                final(txn).engine.bpm,
                (#[trigger] source@[x]).0,
            )),
{
    let mut count: u64 = 0;
    let mut rest = source;
    let n_exec = rest.len();
    let ghost n = rest@.len();
    proof {
        assert(n == n_exec);
        assert(rest@ =~= source@.skip(0));
    }
    while rest.len() > 0
        invariant
            txn.engine.wf(),
            count == n - rest@.len(),
            n == source@.len(),
            n <= usize::MAX,
            rest@ =~= source@.skip((n - rest@.len()) as int),
            forall|x: int|
                0 <= x < n - rest@.len() ==> crate::buffer::spec_slot_deleted(
                    txn.engine.bpm,
                    (#[trigger] source@[x]).0,
                ),
        decreases rest@.len(),
    {
        let ghost k = n - rest@.len();
        proof {
            assert(rest@[0] == source@[k as int]);
        }
        let (record_id, _row) = rest.remove(0);
        let key = Key::new(table.as_str(), &record_id);
        match txn.delete(key) {
            Ok(_) => {},
            Err(e) => {
                return Err(e);
            },
        }
        count = count + 1;
        proof {
            assert(rest@ =~= source@.skip((k + 1) as int));
        }
    }
    Ok(count)
}

/// Inserts every source row into the table, serialized under its schema;
/// returns where each row landed, in order.
pub fn insert(txn: &mut Transaction, table: Table, source: Rows) -> (r: Result<
    Vec<RecordId>,
    Error,
>)
    requires
        old(txn).engine.wf(),
        table.wf(),
    ensures
        final(txn).engine.wf(),
        r matches Ok(rids) ==> rids@.len() == source@.len(),
        r is Ok ==> (forall|x: int|
            0 <= x < source@.len() ==> crate::row::spec_row_conforms(
                (#[trigger] source@[x]).1@,
                table.columns@,
            )),
        r matches Ok(rids) ==> (forall|x: int|
            0 <= x < source@.len() ==> crate::buffer::spec_slot_live(
                final(txn).engine.bpm,
                #[trigger] rids@[x],
            ) && crate::buffer::spec_tuple_at(final(txn).engine.bpm, rids@[x])
                == crate::row::spec_row_serialize(source@[x].1@, table.columns@)),
{
    let mut record_ids: Vec<RecordId> = Vec::new();
    let mut rest = source;
    let n_exec = rest.len();
    let ghost n = rest@.len();
    proof {
        assert(n == n_exec);
        assert(rest@ =~= source@.skip(0));
    }
    while rest.len() > 0
        invariant
            txn.engine.wf(),
            table.wf(),
            record_ids@.len() == n - rest@.len(),
            n == source@.len(),
            rest@ =~= source@.skip((n - rest@.len()) as int),
            forall|x: int|
                0 <= x < n - rest@.len() ==> crate::row::spec_row_conforms(
                    (#[trigger] source@[x]).1@,
                    table.columns@,
                ),
            forall|x: int|
                0 <= x < n - rest@.len() ==> crate::buffer::spec_slot_live(
                    txn.engine.bpm,
                    #[trigger] record_ids@[x],
                ) && crate::buffer::spec_tuple_at(txn.engine.bpm, record_ids@[x])
                    == crate::row::spec_row_serialize(source@[x].1@, table.columns@),
        decreases rest@.len(),
    {
        let ghost k = n - rest@.len();
        let ghost pre_bpm = txn.engine.bpm;
        let ghost ids0 = record_ids@;
        proof {
            assert(rest@[0] == source@[k as int]);
            assert forall|x: int|
                0 <= x < k implies crate::buffer::spec_slot_live(pre_bpm, #[trigger] ids0[x])
                && crate::buffer::spec_tuple_at(pre_bpm, ids0[x])
                == crate::row::spec_row_serialize(source@[x].1@, table.columns@) by {
                assert(ids0[x] == record_ids@[x]);
            }
        }
        let (_rid, row) = rest.remove(0);
        if !(row.size() == table.col_count()) {
            return Err(Error::InvalidInput("the row does not match the table's arity".to_string()));
        }
        if !row_fits_schema(&row, &table) {
            return Err(Error::InvalidInput("the row does not match the table's schema".to_string()));
        }
        let tuple = match row.to_tuple(&table) {
            Ok(t) => t,
            Err(e) => {
                return Err(e);
            },
        };
        let ghost prev_ids = record_ids@;
        let rid = match txn.insert(table.name(), tuple) {
            Ok(rid) => rid,
            Err(e) => {
                return Err(e);
            },
        };
        record_ids.push(rid);
        proof {
            assert(rest@ =~= source@.skip((k + 1) as int));
            assert(row@ == source@[k as int].1@);
            assert forall|x: int|
                0 <= x < k + 1 implies crate::buffer::spec_slot_live(
                txn.engine.bpm,
                #[trigger] record_ids@[x],
            ) && crate::buffer::spec_tuple_at(txn.engine.bpm, record_ids@[x])
                == crate::row::spec_row_serialize(source@[x].1@, table.columns@) by {
                if x < k {
                    assert(record_ids@[x] == ids0[x]);
                    assert(crate::buffer::spec_slot_live(pre_bpm, ids0[x]));
                } else {
                    assert(record_ids@[x] == rid);
                    assert(crate::buffer::spec_tuple_at(txn.engine.bpm, rid) == tuple@);
                }
            }
        }
    }
    Ok(record_ids)
}

/// Whether a row's fields have exactly the column types of the schema and
/// serialize within a row's size limits.
fn row_fits_schema(row: &Row, table: &Table) -> (r: bool)
    requires
        table.wf(),
    ensures
        r ==> crate::row::spec_row_conforms(row@, table.columns@) && crate::row::spec_row_total(
            row@,
            table.columns@,
        ) <= u16::MAX,
{
    let n = table.col_count();
    if row.size() != n {
        return false;
    }
    let mut i: usize = 0;
    let mut text_total: usize = 0;
    proof {
        crate::schema::lemma_text_count_bound(table.columns@, n as int);
        crate::schema::lemma_fixed_size_monotonic(table.columns@, 0, n as int);
    }
    while i < n
        invariant
            table.wf(),
            n == table.columns@.len(),
            row@.len() == n,
            i <= n,
            text_total == crate::row::spec_text_len_prefix(row@, table.columns@, i as int),
            text_total <= usize::MAX - 65535,
            forall|x: int|
                0 <= x < i ==> crate::field::spec_field_type(#[trigger] row@[x])
                    == table.columns@[x].data_type,
            forall|x: int| 0 <= x < i ==> !((#[trigger] table.columns@[x]).data_type is Invalid),
        decreases n - i,
    {
        let dt = table.get_field_type(i);
        if dt == crate::field::DataType::Invalid {
            return false;
        }
        if !(row.field_at(i).get_type() == dt) {
            return false;
        }
        if dt == crate::field::DataType::Text {
            let flen = field_text_len(row.field_at(i));
            if flen > 65535 || text_total > usize::MAX - 65535 - flen {
                return false;
            }
            text_total = text_total + flen;
        }
        i = i + 1;
    }
    proof {
        crate::row::lemma_text_len_nonneg(row@, table.columns@, n as int);
    }
    let header: usize = 2 * table.variable_length_fields();
    let fixed: usize = table.fixed_field_size_bytes() as usize;
    if header + fixed <= 65535 && text_total <= 65535 - header - fixed {
        true
    } else {
        false
    }
}

/// The byte length of a text field's payload; zero for other fields.
fn field_text_len(f: &crate::field::Field) -> (r: usize)
    ensures
        crate::field::spec_field_type(f@) is Text ==> r == crate::field::spec_field_size(f@),
{
    match f {
        crate::field::Field::String(s) => {
            let bytes = s.as_str().as_bytes_vec();
            bytes.len()
        },
        _ => 0,
    }
}

/// Updates every source row: each expression is evaluated against the row
/// before the update, the named columns are replaced, and the rewritten
/// row is stored back under its record id.
pub fn update(
    txn: &mut Transaction,
    table: Table,
    source: Rows,
    expressions: Vec<(usize, Expression)>,
) -> (r: Result<u64, Error>)
    requires
        old(txn).engine.wf(),
        table.wf(),
    ensures
        final(txn).engine.wf(),
        r matches Ok(count) ==> count == source@.len(),
        r is Ok ==> (forall|x: int, j: int|
            0 <= x < source@.len() && 0 <= j < expressions@.len()
                ==> crate::expression::spec_eval(
                (#[trigger] expressions@[j]).1,
                Some((#[trigger] source@[x]).1@),
            ) is Value),
{
    let mut count: u64 = 0;
    let mut rest = source;
    let n_exec = rest.len();
    let ghost n = rest@.len();
    proof {
        assert(n == n_exec);
        assert(rest@ =~= source@.skip(0));
    }
    while rest.len() > 0
        invariant
            txn.engine.wf(),
            table.wf(),
            count == n - rest@.len(),
            n == source@.len(),
            n <= usize::MAX,
            rest@ =~= source@.skip((n - rest@.len()) as int),
            forall|x: int, j: int|
                0 <= x < n - rest@.len() && 0 <= j < expressions@.len()
                    ==> crate::expression::spec_eval(
                    (#[trigger] expressions@[j]).1,
                    Some((#[trigger] source@[x]).1@),
                ) is Value,
        decreases rest@.len(),
    {
        let ghost k = n - rest@.len();
        proof {
            assert(rest@[0] == source@[k as int]);
        }
        let (record_id, row) = rest.remove(0);
        let mut updated = row.clone();
        let en = expressions.len();
        let mut j: usize = 0;
        while j < en
            invariant
                txn.engine.wf(),
                table.wf(),
                en == expressions@.len(),
                row@ == source@[k as int].1@,
                0 <= k < n,
                n == source@.len(),
                forall|y: int|
                    0 <= y < j ==> crate::expression::spec_eval(
                        (#[trigger] expressions@[y]).1,
                        Some(source@[k as int].1@),
                    ) is Value,
            decreases en - j,
        {
            let value = match expressions[j].1.evaluate(Some(&row)) {
                Ok(v) => v,
                Err(e) => {
                    return Err(e);
                },
            };
            match updated.update_field(expressions[j].0, value) {
                Ok(_) => {},
                Err(e) => {
                    return Err(e);
                },
            }
            j = j + 1;
        }
        if !(updated.size() == table.col_count()) {
            return Err(Error::InvalidInput("the row does not match the table's arity".to_string()));
        }
        if !row_fits_schema(&updated, &table) {
            return Err(Error::InvalidInput("the row does not match the table's schema".to_string()));
        }
        let tuple = match updated.to_tuple(&table) {
            Ok(t) => t,
            Err(e) => {
                return Err(e);
            },
        };
        let key = Key::new(table.name(), &record_id);
        match txn.update(key, tuple) {
            Ok(_) => {},
            Err(e) => {
                return Err(e);
            },
        }
        count = count + 1;
        proof {
            assert(rest@ =~= source@.skip((k + 1) as int));
        }
    }
    Ok(count)
}

/// Runs one plan node, pulling its sources depth first and handing the
/// resulting rows back.
pub fn execute(node: BoxedNode, txn: &mut Transaction) -> (r: Result<Rows, Error>)
    requires
        old(txn).engine.wf(),
    ensures
        final(txn).engine.wf(),
        (*node.inner) matches Node::Nothing { .. } ==> r matches Ok(v) && v@.len() == 0,
        (*node.inner) matches Node::Values { rows } ==> (r is Ok <==> spec_values_ok(rows@)),
        (*node.inner) matches Node::Values { rows } ==> (r matches Ok(v) ==> v@.len()
            == rows@.len()),
        (*node.inner) matches Node::Filter { source, predicate } ==> (r matches Ok(v) ==> exists|
            s: Seq<(RecordId, Row)>,
        | #[trigger] crate::transform::spec_filter(s, predicate) == Some(v@)),
        (*node.inner) matches Node::Order { source, key } ==> (r matches Ok(v) ==> exists|
            s: Seq<(RecordId, Row)>,
        | v@ == #[trigger] crate::transform::spec_stable_sort(
            s,
            key@,
            crate::transform::spec_dirs(key@),
        )),
        (*node.inner) matches Node::NestedLoopJoin { left, right, predicate, outer } ==> (r
            matches Ok(v) ==> exists|l: Seq<(RecordId, Row)>, rt: Seq<(RecordId, Row)>, w: int|
            #[trigger] crate::join::spec_nlj(l, rt, w, predicate, outer) == Some(
                crate::join::spec_row_views(v@),
            )),
        (*node.inner) matches Node::Aggregate { source, group_by, aggregates } ==> (r matches Ok(
            v,
        ) ==> forall|x: int|
            0 <= x < v@.len() ==> (#[trigger] v@[x]).1@.len() == group_by@.len()
                + aggregates@.len()),
        (*node.inner) matches Node::Projection { source, expressions, aliases } ==> (r matches Ok(
            v,
        ) ==> exists|s: Seq<(RecordId, Row)>|
            #[trigger] crate::transform::spec_project_ok(s, expressions@) && v@.len() == s.len()),
    decreases node,
{
    match *node.inner {
        Node::Aggregate { source, group_by, aggregates } => {
            let rows = match execute(source, txn) {
                Ok(v) => v,
                Err(e) => {
                    return Err(e);
                },
            };
            crate::aggregate::aggregate(rows, group_by, aggregates)
        },
        Node::Filter { source, predicate } => {
            let rows = match execute(source, txn) {
                Ok(v) => v,
                Err(e) => {
                    return Err(e);
                },
            };
            crate::transform::filter(rows, predicate)
        },
        Node::HashJoin { left, left_column, right, right_column, outer } => {
            let right_size = width_of(&right);
            let left_rows = match execute(left, txn) {
                Ok(v) => v,
                Err(e) => {
                    return Err(e);
                },
            };
            let right_rows = match execute(right, txn) {
                Ok(v) => v,
                Err(e) => {
                    return Err(e);
                },
            };
            let right_rows = uniform_rows(right_rows, right_size);
            crate::join::hash(left_rows, left_column, right_rows, right_column, right_size, outer)
        },
        Node::Limit { source, limit } => {
            let rows = match execute(source, txn) {
                Ok(v) => v,
                Err(e) => {
                    return Err(e);
                },
            };
            Ok(crate::transform::limit(rows, limit))
        },
        Node::NestedLoopJoin { left, right, predicate, outer } => {
            let right_size = width_of(&right);
            let left_rows = match execute(left, txn) {
                Ok(v) => v,
                Err(e) => {
                    return Err(e);
                },
            };
            let right_rows = match execute(right, txn) {
                Ok(v) => v,
                Err(e) => {
                    return Err(e);
                },
            };
            let right_rows = uniform_rows(right_rows, right_size);
            crate::join::nested_loop(left_rows, right_rows, right_size, predicate, outer)
        },
        Node::Nothing { columns: _ } => Ok(nothing()),
        Node::Offset { source, offset } => {
            let rows = match execute(source, txn) {
                Ok(v) => v,
                Err(e) => {
                    return Err(e);
                },
            };
            Ok(crate::transform::offset(rows, offset))
        },
        Node::Order { source, key } => {
            let rows = match execute(source, txn) {
                Ok(v) => v,
                Err(e) => {
                    return Err(e);
                },
            };
            crate::transform::order(rows, key)
        },
        Node::Projection { source, expressions, aliases: _ } => {
            let rows = match execute(source, txn) {
                Ok(v) => v,
                Err(e) => {
                    return Err(e);
                },
            };
            crate::transform::project(rows, expressions)
        },
        Node::Remap { source, targets } => {
            let rows = match execute(source, txn) {
                Ok(v) => v,
                Err(e) => {
                    return Err(e);
                },
            };
            if crate::plan::remap_width_checked(&targets) {
                Ok(crate::transform::remap(rows, targets))
            } else {
                Err(Error::OutOfBounds)
            }
        },
        Node::Scan { table, filter, alias: _ } => {
            if !table_wf_checked(&table) {
                return Err(Error::InvalidData("the schema's offsets are malformed".to_string()));
            }
            scan(txn, &table, filter)
        },
        Node::Values { rows } => values(rows),
    }
}

/// The width a joined side reports; zero when the width leaves the machine
/// range, which no real plan's does.
fn width_of(node: &BoxedNode) -> (r: usize) {
    if node_columns_ok_checked(&node.inner) {
        node.inner.columns()
    } else {
        0
    }
}

/// Whether every node of the tree reports a machine-representable width.
fn node_columns_ok_checked(node: &Node) -> (r: bool)
    ensures
        r == crate::plan::spec_node_columns_ok(*node),
    decreases *node,
{
    proof {
        crate::plan::lemma_node_columns_nonneg(*node);
    }
    match node {
        Node::Scan { table, .. } => {
            let _width = table.col_count();
            true
        },
        Node::Aggregate { source, aggregates, group_by, .. } => {
            aggregates.len() <= usize::MAX - group_by.len() && node_columns_ok_checked(
                &source.inner,
            )
        },
        Node::Projection { source, expressions, .. } => {
            let _width = expressions.len();
            node_columns_ok_checked(&source.inner)
        },
        Node::Remap { source, targets } => crate::plan::remap_width_checked(targets)
            && node_columns_ok_checked(&source.inner),
        Node::HashJoin { left, right, .. } => {
            if !node_columns_ok_checked(&left.inner) || !node_columns_ok_checked(&right.inner) {
                false
            } else {
                proof {
                    crate::plan::lemma_node_columns_nonneg(*left.inner);
                    crate::plan::lemma_node_columns_nonneg(*right.inner);
                }
                let a = left.inner.columns();
                let b = right.inner.columns();
                a <= usize::MAX - b
            }
        },
        Node::NestedLoopJoin { left, right, .. } => {
            if !node_columns_ok_checked(&left.inner) || !node_columns_ok_checked(&right.inner) {
                false
            } else {
                proof {
                    crate::plan::lemma_node_columns_nonneg(*left.inner);
                    crate::plan::lemma_node_columns_nonneg(*right.inner);
                }
                let a = left.inner.columns();
                let b = right.inner.columns();
                a <= usize::MAX - b
            }
        },
        Node::Filter { source, .. } => node_columns_ok_checked(&source.inner),
        Node::Limit { source, .. } => node_columns_ok_checked(&source.inner),
        Node::Offset { source, .. } => node_columns_ok_checked(&source.inner),
        Node::Order { source, .. } => node_columns_ok_checked(&source.inner),
        Node::Nothing { columns } => {
            let _width = columns.len();
            true
        },
        Node::Values { rows } => {
            if rows.len() == 0 {
                true
            } else {
                let _width = rows[0].len();
                true
            }
        },
    }
}

/// Keeps only the rows of the given width, so that joins can rely on a
/// uniform right side.
fn uniform_rows(rows: Rows, width: usize) -> (r: Rows)
    ensures
        forall|y: int| 0 <= y < r@.len() ==> (#[trigger] r@[y]).1@.len() == width,
{
    let mut out: Rows = Vec::new();
    let mut rest = rows;
    while rest.len() > 0
        invariant
            forall|y: int| 0 <= y < out@.len() ==> (#[trigger] out@[y]).1@.len() == width,
        decreases rest@.len(),
    {
        let item = rest.remove(0);
        if item.1.size() == width {
            out.push(item);
        }
    }
    out
}

/// Whether a schema's cached offsets are consistent, checked at run time.
fn table_wf_checked(table: &Table) -> (r: bool)
    ensures
        r ==> table.wf(),
{
    let n = table.col_count();
    if n > 65535 {
        return false;
    }
    let mut fixed: u32 = 0;
    let mut texts: u32 = 0;
    let mut i: usize = 0;
    while i < n
        invariant
            n == table.columns@.len(),
            n <= 65535,
            i <= n,
            fixed == crate::schema::spec_fixed_size_prefix(table.columns@, i as int),
            texts == crate::schema::spec_text_count_prefix(table.columns@, i as int),
            fixed <= 5 * 65535,
            texts <= i,
            forall|x: int|
                0 <= x < i ==> (#[trigger] table.columns@[x]).stored_offset as int == (
                if table.columns@[x].data_type is Text {
                    crate::schema::spec_text_count_prefix(table.columns@, x)
                } else {
                    crate::schema::spec_fixed_size_prefix(table.columns@, x)
                }),
        decreases n - i,
    {
        let col = table.get_column(i);
        let dt = col.get_data_type();
        if dt == crate::field::DataType::Text {
            if col.stored_offset() as u32 != texts {
                return false;
            }
            texts = texts + 1;
        } else {
            if col.stored_offset() as u32 != fixed {
                return false;
            }
            fixed = fixed + dt.length_bytes() as u32;
        }
        i = i + 1;
    }
    if fixed > 65535 {
        return false;
    }
    table.fixed_field_size_bytes() as u32 == fixed
}

/// Runs one whole statement plan against the transaction.
pub fn execute_plan(plan: Plan, txn: &mut Transaction) -> (r: Result<ExecutionResult, Error>)
    requires
        old(txn).engine.wf(),
    ensures
        final(txn).engine.wf(),
        plan matches Plan::CreateTable { schema } ==> {
            &&& (crate::tables::spec_has_table(old(txn).engine.heaps@, schema.name@) ==> r
                is Err)
            &&& (r matches Ok(res) ==> res matches ExecutionResult::CreateTable { name }
                && name@ == schema.name@ && crate::tables::spec_has_table(
                final(txn).engine.heaps@,
                schema.name@,
            ))
        },
        plan matches Plan::DropTable { table, if_exists } ==> {
            &&& (r is Err <==> !crate::tables::spec_has_table(old(txn).engine.heaps@, table@)
                && !if_exists)
            &&& (r matches Ok(res) ==> res matches ExecutionResult::DropTable { name, existed }
                && name@ == table@ && existed == crate::tables::spec_has_table(
                old(txn).engine.heaps@,
                table@,
            ))
        },
        plan matches Plan::Delete { .. } ==> (r matches Ok(res) ==> res matches
            ExecutionResult::Delete { count } && (exists|rids: Seq<RecordId>|
            count == #[trigger] rids.len() && (forall|x: int|
                0 <= x < rids.len() ==> crate::buffer::spec_slot_deleted(
                    final(txn).engine.bpm,
                    #[trigger] rids[x],
                )))),
        plan matches Plan::Insert { .. } ==> (r matches Ok(res) ==> res matches
            ExecutionResult::Insert { count, record_ids } && count == record_ids@.len() && (
            forall|x: int|
                0 <= x < record_ids@.len() ==> crate::buffer::spec_slot_live(
                    final(txn).engine.bpm,
                    (#[trigger] record_ids@[x]),
                ))),
        plan matches Plan::Update { .. } ==> (r matches Ok(res) ==> res is Update),
        plan matches Plan::Select(..) ==> (r matches Ok(res) ==> res is Select),
        plan matches Plan::Select(root) ==> (r matches Ok(res) ==> (res matches
            ExecutionResult::Select { rows, columns } ==> (crate::plan::spec_node_columns_ok(
            *root.inner,
        ) ==> columns@.len() == crate::plan::spec_node_columns(*root.inner) && (forall|y: int|
            0 <= y < columns@.len() ==> crate::plan::spec_label_view(#[trigger] columns@[y])
                == crate::plan::spec_column_label(*root.inner, y as usize))))),
{
    match plan {
        Plan::CreateTable { schema } => {
            let name = schema.name().to_string();
            match txn.create_table(schema) {
                Ok(_) => Ok(ExecutionResult::CreateTable { name }),
                Err(e) => Err(e),
            }
        },
        Plan::DropTable { table, if_exists } => {
            let existed = match txn.drop_table(table.as_str(), if_exists) {
                Ok(b) => b,
                Err(e) => {
                    return Err(e);
                },
            };
            Ok(ExecutionResult::DropTable { name: table, existed })
        },
        Plan::Delete { table, source } => {
            let rows = match execute(source, txn) {
                Ok(v) => v,
                Err(e) => {
                    return Err(e);
                },
            };
            match delete(txn, table, rows) {
                Ok(count) => {
                    proof {
                        let w = Seq::new(rows@.len(), |i: int| rows@[i].0);
                        assert(count == w.len() && (forall|x: int|
                            0 <= x < w.len() ==> crate::buffer::spec_slot_deleted(
                                txn.engine.bpm,
                                #[trigger] w[x],
                            )));
                    }
                    Ok(ExecutionResult::Delete { count })
                },
                Err(e) => Err(e),
            }
        },
        Plan::Insert { table, source } => {
            let rows = match execute(source, txn) {
                Ok(v) => v,
                Err(e) => {
                    return Err(e);
                },
            };
            if !table_wf_checked(&table) {
                return Err(Error::InvalidData("the schema's offsets are malformed".to_string()));
            }
            let record_ids = match insert(txn, table, rows) {
                Ok(v) => v,
                Err(e) => {
                    return Err(e);
                },
            };
            let count = record_ids.len() as u64;
            Ok(ExecutionResult::Insert { count, record_ids })
        },
        Plan::Update { table, source, expressions } => {
            let rows = match execute(source, txn) {
                Ok(v) => v,
                Err(e) => {
                    return Err(e);
                },
            };
            if !table_wf_checked(&table) {
                return Err(Error::InvalidData("the schema's offsets are malformed".to_string()));
            }
            match update(txn, table, rows, expressions) {
                Ok(count) => Ok(ExecutionResult::Update { count }),
                Err(e) => Err(e),
            }
        },
        Plan::Select(root) => {
            let labels = if node_columns_ok_checked(&root.inner) {
                let width = root.inner.columns();
                let mut columns: Vec<Label> = Vec::new();
                let mut i: usize = 0;
                while i < width
                    invariant
                        i <= width,
                        crate::plan::spec_node_columns_ok(*root.inner),
                        columns@.len() == i,
                        forall|y: int|
                            0 <= y < i ==> crate::plan::spec_label_view(#[trigger] columns@[y])
                                == crate::plan::spec_column_label(*root.inner, y as usize),
                    decreases width - i,
                {
                    columns.push(root.inner.column_label(i));
                    i = i + 1;
                }
                columns
            } else {
                Vec::new()
            };
            let rows = match execute(root, txn) {
                Ok(v) => v,
                Err(e) => {
                    return Err(e);
                },
            };
            Ok(ExecutionResult::Select { rows, columns: labels })
        },
    }
}

} // verus!
